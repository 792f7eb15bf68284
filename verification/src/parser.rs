//! The positional table parser: from the text of a quota report to records.
//!
//! The header row is the first line that, trimmed, begins with `Filesystem`.
//! Each of its words names a column and fixes where the column starts; a
//! column reaches to the start of the next one, the last to the end of the
//! row. Every later line that is neither blank nor a `*` footnote is a data
//! row, cut at those positions whatever it holds.

use vstd::prelude::*;
use crate::number::{parse_unsigned_or_zero, unsigned_or_zero};
use crate::text::{
    chars_of, has_prefix, is_whitespace, lines_of, same_text, split_lines, string_of, texts, trim,
    trim_range, white_space,
};

verus! {

/// One row of the report.
///
/// The six decimal fields hold the cell as the report writes it, trimmed, for
/// instance `55.542` or `112`; the empty text stands for zero, and so does, to
/// whoever reads the number, any text that writes none.
#[derive(Debug, Clone, PartialEq, Eq)]
pub struct Quota {
    pub filesystem: String,
    pub usage: String,
    pub soft_quota: String,
    pub hard_quota: String,
    pub files: u64,
    pub billed_usage: String,
    pub free_snaps: String,
    pub custom_snaps: String,
}

/// A record as plain values.
pub struct QuotaView {
    pub filesystem: Seq<char>,
    pub usage: Seq<char>,
    pub soft_quota: Seq<char>,
    pub hard_quota: Seq<char>,
    pub files: u64,
    pub billed_usage: Seq<char>,
    pub free_snaps: Seq<char>,
    pub custom_snaps: Seq<char>,
}

impl View for Quota {
    type V = QuotaView;

    open spec fn view(&self) -> QuotaView {
        QuotaView {
            filesystem: self.filesystem@,
            usage: self.usage@,
            soft_quota: self.soft_quota@,
            hard_quota: self.hard_quota@,
            files: self.files,
            billed_usage: self.billed_usage@,
            free_snaps: self.free_snaps@,
            custom_snaps: self.custom_snaps@,
        }
    }
}

/// What a vector of records holds, record by record.
pub open spec fn quota_views(records: Seq<Quota>) -> Seq<QuotaView> {
    Seq::new(records.len(), |i: int| records[i]@)
}

/// A column of the report: a word of the header row and the offset, counted in
/// characters from the start of the row, at which the word begins.
#[derive(Debug, Clone, PartialEq, Eq)]
pub struct Column {
    pub name: String,
    pub start: usize,
}

/// A column as plain values.
pub struct ColumnView {
    pub name: Seq<char>,
    pub start: int,
}

impl View for Column {
    type V = ColumnView;

    open spec fn view(&self) -> ColumnView {
        ColumnView { name: self.name@, start: self.start as int }
    }
}

/// What a vector of columns holds, column by column.
pub open spec fn column_views(cols: Seq<Column>) -> Seq<ColumnView> {
    Seq::new(cols.len(), |i: int| cols[i]@)
}

/// Columns start at or after the row's first character, each strictly to the
/// right of the one before it.
pub open spec fn ordered(cols: Seq<ColumnView>) -> bool {
    &&& forall|i: int| 0 <= i < cols.len() ==> 0 <= (#[trigger] cols[i]).start
    &&& forall|i: int, j: int|
        0 <= i < j < cols.len() ==> (#[trigger] cols[i]).start < (#[trigger] cols[j]).start
}

/// Decides whether `cols` are ordered.
pub fn is_ordered(cols: &Vec<Column>) -> (r: bool)
    ensures
        r == ordered(column_views(cols@)),
{
    let ghost views = column_views(cols@);
    let mut i: usize = 1;
    while i < cols.len()
        invariant
            1 <= i,
            views == column_views(cols@),
            forall|k: int| 0 < k < i && k < cols.len() ==> (#[trigger] views[k - 1]).start
                < views[k].start,
        decreases cols.len() - i,
    {
        if cols[i - 1].start >= cols[i].start {
            assert(views[i - 1].start >= (#[trigger] views[i as int]).start);
            return false;
        }
        i += 1;
    }
    proof {
        assert forall|a: int, b: int| 0 <= a < b < views.len() implies (#[trigger] views[a]).start
            < (#[trigger] views[b]).start by {
            lemma_steps_ordered(views, a, b);
        }
    }
    true
}

/// Columns of which each starts to the right of the one before it start each
/// to the right of all before it.
proof fn lemma_steps_ordered(views: Seq<ColumnView>, a: int, b: int)
    requires
        0 <= a < b < views.len(),
        forall|k: int| 0 < k < views.len() ==> (#[trigger] views[k - 1]).start < views[k].start,
    ensures
        views[a].start < views[b].start,
    decreases b - a,
{
    if a < b - 1 {
        lemma_steps_ordered(views, a, b - 1);
    }
}

/// The first position at or after `from` that holds no whitespace; the length
/// of `s` when only whitespace follows.
pub open spec fn skip_blank(s: Seq<char>, from: int) -> int
    decreases s.len() - from,
{
    if 0 <= from < s.len() && white_space(s[from]) {
        skip_blank(s, from + 1)
    } else {
        from
    }
}

/// The first position at or after `from` that holds whitespace; the length of
/// `s` when none follows.
pub open spec fn skip_word(s: Seq<char>, from: int) -> int
    decreases s.len() - from,
{
    if 0 <= from < s.len() && !white_space(s[from]) {
        skip_word(s, from + 1)
    } else {
        from
    }
}

/// The columns that the words of `s` at or after `from` give, left to right.
pub open spec fn columns_from(s: Seq<char>, from: int) -> Seq<ColumnView>
    decreases s.len() - from,
{
    let start = skip_blank(s, from);
    let end = skip_word(s, start);
    if 0 <= from <= start < end <= s.len() {
        seq![ColumnView { name: s.subrange(start, end), start }] + columns_from(s, end)
    } else {
        Seq::empty()
    }
}

/// The columns of a header row: one for each run of characters that are not
/// whitespace, under the run's text and at the run's first position.
pub open spec fn columns_of(header: Seq<char>) -> Seq<ColumnView> {
    columns_from(header, 0)
}

/// Reads the columns off a header row.
pub fn read_columns(header: &Vec<char>) -> (r: Vec<Column>)
    ensures
        column_views(r@) == columns_of(header@),
        ordered(column_views(r@)),
        forall|i: int| 0 <= i < r.len() ==> (#[trigger] r[i]).start < header.len(),
{
    let mut out: Vec<Column> = Vec::new();
    let mut pos: usize = 0;
    let n = header.len();
    loop
        invariant
            n == header.len(),
            pos <= n,
            columns_of(header@) == column_views(out@) + columns_from(header@, pos as int),
            ordered(column_views(out@)),
            forall|i: int| 0 <= i < out.len() ==> (#[trigger] out[i]).start < pos,
        decreases n - pos,
    {
        let mut a: usize = pos;
        while a < n && is_whitespace(header[a])
            invariant
                n == header.len(),
                pos <= a <= n,
                skip_blank(header@, pos as int) == skip_blank(header@, a as int),
            decreases n - a,
        {
            a += 1;
        }
        if a >= n {
            return out;
        }
        let mut b: usize = a + 1;
        while b < n && !is_whitespace(header[b])
            invariant
                n == header.len(),
                a < b <= n,
                skip_word(header@, a as int) == skip_word(header@, b as int),
            decreases n - b,
        {
            b += 1;
        }
        let ghost before = column_views(out@);
        let col = Column { name: string_of(header, a, b), start: a };
        out.push(col);
        assert(column_views(out@) =~= before.push(col@));
        pos = b;
    }
}

/// Whether `line` is a header row: trimmed, it begins with `Filesystem`.
pub open spec fn is_header(line: Seq<char>) -> bool {
    "Filesystem"@.is_prefix_of(trim(line))
}

/// Decides whether `line` is a header row.
pub fn is_header_line(line: &Vec<char>) -> (r: bool)
    ensures
        r == is_header(line@),
{
    let (a, b) = trim_range(line, 0, line.len());
    assert(line@.subrange(0, line.len() as int) =~= line@);
    has_prefix(line, a, b, "Filesystem")
}

/// Whether `line` is a data row: trimmed, it is not empty and does not begin
/// with `*`.
pub open spec fn is_data(line: Seq<char>) -> bool {
    trim(line).len() > 0 && trim(line).first() != '*'
}

/// Decides whether `line` is a data row.
pub fn is_data_line(line: &Vec<char>) -> (r: bool)
    ensures
        r == is_data(line@),
{
    let (a, b) = trim_range(line, 0, line.len());
    assert(line@.subrange(0, line.len() as int) =~= line@);
    a < b && line[a] != '*'
}

/// Where a row's share of column `i` ends: at the start of the next column,
/// and at the row's end for the last column or where the row ends sooner.
pub open spec fn span_end(cols: Seq<ColumnView>, i: int, line: Seq<char>) -> int {
    if i + 1 < cols.len() && cols[i + 1].start < line.len() {
        cols[i + 1].start
    } else {
        line.len() as int
    }
}

/// The text of column `i` in `line`: what the row holds from the column's
/// start to the end of its share, trimmed. A row that ends at or before the
/// column's start holds nothing for it.
pub open spec fn cell(cols: Seq<ColumnView>, i: int, line: Seq<char>) -> Seq<char> {
    if cols[i].start >= line.len() {
        Seq::empty()
    } else {
        trim(line.subrange(cols[i].start, span_end(cols, i, line)))
    }
}

/// Finds the text of column `i` in `line`, as bounds into the line.
pub fn cell_range(cols: &Vec<Column>, i: usize, line: &Vec<char>) -> (r: (usize, usize))
    requires
        ordered(column_views(cols@)),
        i < cols.len(),
    ensures
        r.0 <= r.1 <= line.len(),
        line@.subrange(r.0 as int, r.1 as int) == cell(column_views(cols@), i as int, line@),
{
    let start = cols[i].start;
    let len = line.len();
    if start >= len {
        return (0, 0);
    }
    let next = if i + 1 < cols.len() {
        assert(column_views(cols@)[i + 1] == cols[i + 1]@);
        cols[i + 1].start
    } else {
        len
    };
    let end = if next < len {
        next
    } else {
        len
    };
    trim_range(line, start, end)
}

/// The text that a row gives for the field called `name`, going by the first
/// `n` columns: that of the rightmost of them that bears the name and is not
/// empty in the row, and the empty text when there is none.
pub open spec fn field_text(cols: Seq<ColumnView>, line: Seq<char>, name: Seq<char>, n: int) -> Seq<
    char,
>
    decreases n,
{
    if n <= 0 {
        Seq::empty()
    } else if cols[n - 1].name == name && cell(cols, n - 1, line).len() > 0 {
        cell(cols, n - 1, line)
    } else {
        field_text(cols, line, name, n - 1)
    }
}

/// The record that a row gives, going by the first `n` columns.
pub open spec fn record_upto(cols: Seq<ColumnView>, line: Seq<char>, n: int) -> QuotaView {
    QuotaView {
        filesystem: field_text(cols, line, "Filesystem"@, n),
        usage: field_text(cols, line, "Usage"@, n),
        soft_quota: field_text(cols, line, "SoftQuota"@, n),
        hard_quota: field_text(cols, line, "HardQuota"@, n),
        files: unsigned_or_zero(field_text(cols, line, "Files"@, n)),
        billed_usage: field_text(cols, line, "BilledUsage"@, n),
        free_snaps: field_text(cols, line, "FreeSnaps"@, n),
        custom_snaps: field_text(cols, line, "CustomSnaps"@, n),
    }
}

/// The record that a row gives under the columns `cols`. Columns under any
/// other name than the eight above add nothing to it.
pub open spec fn record_of(cols: Seq<ColumnView>, line: Seq<char>) -> QuotaView {
    record_upto(cols, line, cols.len() as int)
}

/// The eight field names differ from one another.
pub proof fn lemma_names_differ()
    ensures
        "Filesystem"@.len() == 10 && "Filesystem"@[0] == 'F',
        "Usage"@.len() == 5 && "Usage"@[0] == 'U',
        "SoftQuota"@.len() == 9 && "SoftQuota"@[0] == 'S',
        "HardQuota"@.len() == 9 && "HardQuota"@[0] == 'H',
        "Files"@.len() == 5 && "Files"@[0] == 'F',
        "BilledUsage"@.len() == 11 && "BilledUsage"@[0] == 'B',
        "FreeSnaps"@.len() == 9 && "FreeSnaps"@[0] == 'F',
        "CustomSnaps"@.len() == 11 && "CustomSnaps"@[0] == 'C',
{
    reveal_strlit("Filesystem");
    reveal_strlit("Usage");
    reveal_strlit("SoftQuota");
    reveal_strlit("HardQuota");
    reveal_strlit("Files");
    reveal_strlit("BilledUsage");
    reveal_strlit("FreeSnaps");
    reveal_strlit("CustomSnaps");
}

/// Whether a column's name is `word`.
fn is_named(col: &Column, word: &str) -> (r: bool)
    ensures
        r == (col.name@ == word@),
{
    let name = chars_of(col.name.as_str());
    assert(name@.subrange(0, name.len() as int) =~= name@);
    same_text(&name, 0, name.len(), word)
}

/// Decodes one data row under the columns `cols`.
pub fn parse_row(cols: &Vec<Column>, line: &Vec<char>) -> (r: Quota)
    requires
        ordered(column_views(cols@)),
    ensures
        r@ == record_of(column_views(cols@), line@),
{
    let mut q = Quota {
        filesystem: String::new(),
        usage: String::new(),
        soft_quota: String::new(),
        hard_quota: String::new(),
        files: 0,
        billed_usage: String::new(),
        free_snaps: String::new(),
        custom_snaps: String::new(),
    };
    let ghost views = column_views(cols@);
    let mut i: usize = 0;
    while i < cols.len()
        invariant
            i <= cols.len(),
            views == column_views(cols@),
            ordered(views),
            q@ == record_upto(views, line@, i as int),
        decreases cols.len() - i,
    {
        let (a, b) = cell_range(cols, i, line);
        proof {
            lemma_names_differ();
        }
        if a < b {
            let col = &cols[i];
            if is_named(col, "Filesystem") {
                q.filesystem = string_of(line, a, b);
            } else if is_named(col, "Usage") {
                q.usage = string_of(line, a, b);
            } else if is_named(col, "SoftQuota") {
                q.soft_quota = string_of(line, a, b);
            } else if is_named(col, "HardQuota") {
                q.hard_quota = string_of(line, a, b);
            } else if is_named(col, "Files") {
                q.files = parse_unsigned_or_zero(line, a, b);
            } else if is_named(col, "BilledUsage") {
                q.billed_usage = string_of(line, a, b);
            } else if is_named(col, "FreeSnaps") {
                q.free_snaps = string_of(line, a, b);
            } else if is_named(col, "CustomSnaps") {
                q.custom_snaps = string_of(line, a, b);
            }
        }
        i += 1;
    }
    q
}

/// Why a report could not be decoded.
#[derive(Debug, Clone, Copy, PartialEq, Eq, Structural)]
pub enum ParseError {
    /// No line of the report is a header row.
    HeaderNotFound,
}

impl ParseError {
    /// The failure in words.
    pub fn message(&self) -> (r: String)
        ensures
            r@ == "Header line not found"@,
    {
        "Header line not found".to_owned()
    }
}

/// The number of lines before the first header row; the number of all lines
/// when none of them is a header row.
pub open spec fn header_index(lines: Seq<Seq<char>>) -> nat
    decreases lines.len(),
{
    if lines.len() == 0 || is_header(lines.first()) {
        0
    } else {
        1 + header_index(lines.drop_first())
    }
}

/// `header_index` is the one position that has no header row before it and a
/// header row, or the end of the lines, at it.
pub proof fn lemma_header_index(lines: Seq<Seq<char>>, n: int)
    requires
        0 <= n <= lines.len(),
        forall|i: int| 0 <= i < n ==> !is_header(#[trigger] lines[i]),
        n < lines.len() ==> is_header(lines[n]),
    ensures
        header_index(lines) == n,
    decreases n,
{
    if n > 0 {
        lemma_header_index(lines.drop_first(), n - 1);
    }
}

/// Finds the header row: the first line that is one.
pub fn find_header(lines: &Vec<Vec<char>>) -> (r: Option<usize>)
    ensures
        match r {
            Some(h) => {
                &&& h < lines.len()
                &&& h == header_index(texts(lines@))
                &&& is_header(lines[h as int]@)
                &&& forall|k: int| 0 <= k < h ==> !is_header(#[trigger] lines[k]@)
            },
            None => {
                &&& header_index(texts(lines@)) == lines.len()
                &&& forall|k: int| 0 <= k < lines.len() ==> !is_header(#[trigger] lines[k]@)
            },
        },
{
    let mut i: usize = 0;
    while i < lines.len()
        invariant
            i <= lines.len(),
            forall|k: int| 0 <= k < i ==> !is_header(#[trigger] texts(lines@)[k]),
        decreases lines.len() - i,
    {
        if is_header_line(&lines[i]) {
            proof {
                lemma_header_index(texts(lines@), i as int);
                assert forall|k: int| 0 <= k < i implies !is_header(#[trigger] lines[k]@) by {
                    assert(texts(lines@)[k] == lines[k]@);
                }
            }
            return Some(i);
        }
        i += 1;
    }
    proof {
        lemma_header_index(texts(lines@), i as int);
        assert forall|k: int| 0 <= k < lines.len() implies !is_header(#[trigger] lines[k]@) by {
            assert(texts(lines@)[k] == lines[k]@);
        }
    }
    None
}

/// The records that `lines` give under the columns `cols`: one for each data
/// row, in the order of the rows.
pub open spec fn records_of(cols: Seq<ColumnView>, lines: Seq<Seq<char>>) -> Seq<QuotaView>
    decreases lines.len(),
{
    if lines.len() == 0 {
        Seq::empty()
    } else if is_data(lines.last()) {
        records_of(cols, lines.drop_last()).push(record_of(cols, lines.last()))
    } else {
        records_of(cols, lines.drop_last())
    }
}

/// What the lines of a report decode to: the records of the lines below the
/// header row, under the header's columns; a failure when no line is a header
/// row.
pub open spec fn parsed_lines(lines: Seq<Seq<char>>) -> Result<Seq<QuotaView>, ParseError> {
    let h = header_index(lines) as int;
    if h < lines.len() {
        Ok(records_of(columns_of(lines[h]), lines.skip(h + 1)))
    } else {
        Err(ParseError::HeaderNotFound)
    }
}

/// What the text of a report decodes to.
pub open spec fn parsed(text: Seq<char>) -> Result<Seq<QuotaView>, ParseError> {
    parsed_lines(lines_of(text))
}

/// What `parse_quota_lines` and `parse_quota_output` return, as plain values.
pub open spec fn outcome(r: Result<Vec<Quota>, ParseError>) -> Result<Seq<QuotaView>, ParseError> {
    match r {
        Ok(records) => Ok(quota_views(records@)),
        Err(e) => Err(e),
    }
}

/// Decodes a report given as its lines.
pub fn parse_quota_lines(lines: &Vec<Vec<char>>) -> (r: Result<Vec<Quota>, ParseError>)
    ensures
        outcome(r) == parsed_lines(texts(lines@)),
        r is Err <==> forall|i: int| 0 <= i < lines.len() ==> !is_header(#[trigger] lines[i]@),
{
    let h = match find_header(lines) {
        Some(h) => h,
        None => { return Err(ParseError::HeaderNotFound); },
    };
    let cols = read_columns(&lines[h]);
    let ghost views = column_views(cols@);
    let ghost below = texts(lines@).skip(h + 1);
    let mut out: Vec<Quota> = Vec::new();
    let mut i: usize = h + 1;
    while i < lines.len()
        invariant
            h < i <= lines.len(),
            is_header(lines[h as int]@),
            views == column_views(cols@),
            ordered(views),
            below == texts(lines@).skip(h + 1),
            quota_views(out@) == records_of(views, below.take(i - h - 1)),
        decreases lines.len() - i,
    {
        let line = &lines[i];
        assert(below.take(i - h).drop_last() =~= below.take(i - h - 1));
        if is_data_line(line) {
            let q = parse_row(&cols, line);
            out.push(q);
        }
        i += 1;
    }
    assert(below.take(lines.len() - h - 1) =~= below);
    Ok(out)
}

/// Decodes the text of a report.
///
/// Fails only where no line of `output` is a header row. A cell that is
/// absent or blank leaves its field at the default, the empty text or zero,
/// and so does a `Files` cell that writes no number.
pub fn parse_quota_output(output: &str) -> (r: Result<Vec<Quota>, ParseError>)
    ensures
        outcome(r) == parsed(output@),
        r is Err <==> forall|i: int|
            0 <= i < lines_of(output@).len() ==> !is_header(#[trigger] lines_of(output@)[i]),
{
    let chars = chars_of(output);
    let lines = split_lines(&chars);
    let r = parse_quota_lines(&lines);
    proof {
        if r is Ok {
            lemma_header_found(texts(lines@));
        }
    }
    r
}

/// Where `header_index` stops short of the end, it stops at a header row.
pub proof fn lemma_header_found(lines: Seq<Seq<char>>)
    requires
        header_index(lines) < lines.len(),
    ensures
        is_header(lines[header_index(lines) as int]),
        forall|i: int| 0 <= i < header_index(lines) ==> !is_header(#[trigger] lines[i]),
    decreases lines.len(),
{
    if !is_header(lines.first()) {
        let rest = lines.drop_first();
        lemma_header_found(rest);
        assert forall|i: int| 0 <= i < header_index(lines) implies !is_header(
            #[trigger] lines[i],
        ) by {
            if i > 0 {
                assert(lines[i] == rest[i - 1]);
            }
        }
    }
}

/// Where `header_index` reaches the end, no line is a header row.
pub proof fn lemma_no_header(lines: Seq<Seq<char>>)
    requires
        header_index(lines) >= lines.len(),
    ensures
        forall|i: int| 0 <= i < lines.len() ==> !is_header(#[trigger] lines[i]),
    decreases lines.len(),
{
    if lines.len() > 0 {
        let rest = lines.drop_first();
        lemma_no_header(rest);
        assert forall|i: int| 0 <= i < lines.len() implies !is_header(#[trigger] lines[i]) by {
            if i > 0 {
                assert(lines[i] == rest[i - 1]);
            }
        }
    }
}

} // verus!
