//! What holds of every report: laws of the decoder, proved from its
//! definitions.

use vstd::prelude::*;
use crate::parser::{
    cell, columns_from, columns_of, field_text, header_index, is_data, is_header,
    lemma_header_found, lemma_header_index, lemma_no_header, ordered, parsed, parsed_lines,
    record_of, records_of, skip_blank, skip_word, span_end, ColumnView, ParseError, QuotaView,
};
use crate::text::{
    blank, first_feed, lemma_first_feed_found, lemma_lines_joined, lemma_one_line,
    lemma_trim_blank, lemma_trim_padding, lines_of, trim, trim_end, trim_start, white_space,
};

verus! {

/// A text has at least one line, and no line holds a line feed.
pub proof fn lines_hold_no_feed(s: Seq<char>)
    ensures
        lines_of(s).len() >= 1,
        forall|i: int| 0 <= i < lines_of(s).len() ==> !(#[trigger] lines_of(s)[i]).contains('\n'),
    decreases s.len(),
{
    lemma_first_feed_found(s);
    let n = first_feed(s) as int;
    if n < s.len() {
        lines_hold_no_feed(s.skip(n + 1));
    }
}

/// What `trim_start` leaves is the text from some position on, with only
/// whitespace before it, and does not begin with whitespace.
pub proof fn trim_start_is_tight(s: Seq<char>) -> (k: int)
    ensures
        0 <= k <= s.len(),
        trim_start(s) == s.skip(k),
        blank(s.take(k)),
        k < s.len() ==> !white_space(s[k]),
    decreases s.len(),
{
    if s.len() > 0 && white_space(s.first()) {
        let rest = s.drop_first();
        let j = trim_start_is_tight(rest);
        assert forall|i: int| 0 <= i < j + 1 implies white_space(#[trigger] s.take(j + 1)[i]) by {
            if i > 0 {
                assert(s.take(j + 1)[i] == rest.take(j)[i - 1]);
            }
        }
        j + 1
    } else {
        0
    }
}

/// What `trim_end` leaves is the text up to some position, with only
/// whitespace after it, and does not end with whitespace.
pub proof fn trim_end_is_tight(s: Seq<char>) -> (k: int)
    ensures
        0 <= k <= s.len(),
        trim_end(s) == s.take(k),
        blank(s.skip(k)),
        k > 0 ==> !white_space(s[k - 1]),
    decreases s.len(),
{
    if s.len() > 0 && white_space(s.last()) {
        let front = s.drop_last();
        let j = trim_end_is_tight(front);
        assert forall|i: int| 0 <= i < s.len() - j implies white_space(#[trigger] s.skip(j)[i]) by {
            if i < front.len() - j {
                assert(s.skip(j)[i] == front.skip(j)[i]);
            }
        }
        j
    } else {
        s.len() as int
    }
}

/// What `trim` leaves is a stretch of the text with only whitespace on either
/// side of it, and neither begins nor ends with whitespace.
pub proof fn trim_is_tight(s: Seq<char>) -> (r: (int, int))
    ensures
        0 <= r.0 <= r.1 <= s.len(),
        trim(s) == s.subrange(r.0, r.1),
        blank(s.take(r.0)),
        blank(s.skip(r.1)),
        r.0 < r.1 ==> !white_space(s[r.0]) && !white_space(s[r.1 - 1]),
{
    let a = trim_start_is_tight(s);
    let tail = s.skip(a);
    let n = trim_end_is_tight(tail);
    let b = a + n;
    assert(tail.skip(n) =~= s.skip(b));
    (a, b)
}

/// A report without a header row cannot be decoded.
pub proof fn no_header_fails(text: Seq<char>)
    requires
        forall|i: int| 0 <= i < lines_of(text).len() ==> !is_header(#[trigger] lines_of(text)[i]),
    ensures
        parsed(text) == Err::<Seq<QuotaView>, ParseError>(ParseError::HeaderNotFound),
{
    let lines = lines_of(text);
    lemma_header_index(lines, lines.len() as int);
}

/// A report with a header row can be decoded.
pub proof fn header_succeeds(text: Seq<char>, h: int)
    requires
        0 <= h < lines_of(text).len(),
        is_header(lines_of(text)[h]),
    ensures
        parsed(text) is Ok,
{
    let lines = lines_of(text);
    if header_index(lines) >= lines.len() {
        lemma_no_header(lines);
    }
}

/// Lines that are no data rows give no records.
pub proof fn lemma_no_data_no_records(cols: Seq<ColumnView>, lines: Seq<Seq<char>>)
    requires
        forall|i: int| 0 <= i < lines.len() ==> !is_data(#[trigger] lines[i]),
    ensures
        records_of(cols, lines) == Seq::<QuotaView>::empty(),
    decreases lines.len(),
{
    if lines.len() > 0 {
        lemma_no_data_no_records(cols, lines.drop_last());
    }
}

/// A header row with no data row below it decodes to no records, and that is
/// no failure.
pub proof fn header_alone_gives_nothing(text: Seq<char>, h: int)
    requires
        0 <= h < lines_of(text).len(),
        is_header(lines_of(text)[h]),
        forall|i: int| 0 <= i < h ==> !is_header(#[trigger] lines_of(text)[i]),
        forall|i: int| h < i < lines_of(text).len() ==> !is_data(#[trigger] lines_of(text)[i]),
    ensures
        parsed(text) == Ok::<Seq<QuotaView>, ParseError>(Seq::empty()),
{
    let lines = lines_of(text);
    lemma_header_index(lines, h);
    lemma_no_data_no_records(columns_of(lines[h]), lines.skip(h + 1));
}

/// The records of two runs of lines, one after the other, are the records of
/// the first followed by those of the second.
pub proof fn lemma_records_concat(cols: Seq<ColumnView>, a: Seq<Seq<char>>, b: Seq<Seq<char>>)
    ensures
        records_of(cols, a + b) == records_of(cols, a) + records_of(cols, b),
    decreases b.len(),
{
    if b.len() > 0 {
        assert((a + b).drop_last() =~= a + b.drop_last());
        lemma_records_concat(cols, a, b.drop_last());
    }
}

/// A line that is blank, or that begins with `*` once trimmed, gives no
/// record wherever it stands below the header row, and the records of the
/// other lines are what they are without it.
pub proof fn skipped_line_gives_nothing(lines: Seq<Seq<char>>, k: int, extra: Seq<char>)
    requires
        header_index(lines) < k <= lines.len(),
        blank(extra) || (trim(extra).len() > 0 && trim(extra).first() == '*'),
    ensures
        parsed_lines(lines.insert(k, extra)) == parsed_lines(lines),
{
    let h = header_index(lines) as int;
    let with = lines.insert(k, extra);
    if blank(extra) {
        lemma_trim_blank(extra);
    }
    lemma_header_found(lines);
    lemma_header_index(with, h);
    let cols = columns_of(lines[h]);
    let above = lines.subrange(h + 1, k);
    let below = lines.subrange(k, lines.len() as int);
    assert(lines.skip(h + 1) =~= above + below);
    assert(with.skip(h + 1) =~= above + seq![extra] + below);
    lemma_records_concat(cols, above, below);
    lemma_records_concat(cols, above + seq![extra], below);
    lemma_records_concat(cols, above, seq![extra]);
    assert(records_of(cols, seq![extra]) =~= Seq::<QuotaView>::empty()) by {
        assert(seq![extra].drop_last() =~= Seq::<Seq<char>>::empty());
        assert(records_of(cols, Seq::<Seq<char>>::empty()) =~= Seq::<QuotaView>::empty());
    }
}

/// Lines that follow the header row do not change where it is found.
proof fn lemma_header_index_front(a: Seq<Seq<char>>, b: Seq<Seq<char>>)
    requires
        header_index(a) < a.len(),
    ensures
        header_index(a + b) == header_index(a),
{
    let h = header_index(a) as int;
    lemma_header_found(a);
    lemma_header_index(a + b, h);
}

/// The same of a report's text: a line `extra` that is blank, or begins with
/// `*` once trimmed, may be put in or taken out anywhere below the header row.
pub proof fn skipped_line_in_text(above: Seq<char>, extra: Seq<char>, below: Seq<char>)
    requires
        header_index(lines_of(above)) < lines_of(above).len(),
        !extra.contains('\n'),
        blank(extra) || (trim(extra).len() > 0 && trim(extra).first() == '*'),
    ensures
        parsed(above + seq!['\n'] + extra + seq!['\n'] + below) == parsed(
            above + seq!['\n'] + below,
        ),
{
    let la = lines_of(above);
    let lb = lines_of(below);
    lemma_lines_joined(above, below);
    lemma_lines_joined(above, extra);
    lemma_lines_joined(above + seq!['\n'] + extra, below);
    lemma_one_line(extra);
    let k = la.len() as int;
    assert((la + lb).insert(k, extra) =~= la + seq![extra] + lb);
    lemma_header_index_front(la, lb);
    skipped_line_gives_nothing(la + lb, k, extra);
}

/// A column that a row does not reach, or under which the row holds only
/// whitespace, has the empty text for its cell.
pub proof fn lemma_empty_cell(cols: Seq<ColumnView>, i: int, line: Seq<char>)
    requires
        0 <= i < cols.len(),
        cols[i].start >= line.len() || blank(
            line.subrange(cols[i].start, span_end(cols, i, line)),
        ),
    ensures
        cell(cols, i, line) == Seq::<char>::empty(),
{
    if cols[i].start < line.len() {
        lemma_trim_blank(line.subrange(cols[i].start, span_end(cols, i, line)));
    }
}

/// A field keeps its default, the empty text or zero, in every row that is
/// blank or too short under each column of the field's name.
pub proof fn blank_cell_gives_default(cols: Seq<ColumnView>, line: Seq<char>, name: Seq<char>)
    requires
        forall|i: int|
            0 <= i < cols.len() && (#[trigger] cols[i]).name == name ==> cols[i].start
                >= line.len() || blank(line.subrange(cols[i].start, span_end(cols, i, line))),
    ensures
        field_text(cols, line, name, cols.len() as int) == Seq::<char>::empty(),
        name == "Filesystem"@ ==> record_of(cols, line).filesystem == Seq::<char>::empty(),
        name == "Usage"@ ==> record_of(cols, line).usage == Seq::<char>::empty(),
        name == "SoftQuota"@ ==> record_of(cols, line).soft_quota == Seq::<char>::empty(),
        name == "HardQuota"@ ==> record_of(cols, line).hard_quota == Seq::<char>::empty(),
        name == "Files"@ ==> record_of(cols, line).files == 0,
        name == "BilledUsage"@ ==> record_of(cols, line).billed_usage == Seq::<char>::empty(),
        name == "FreeSnaps"@ ==> record_of(cols, line).free_snaps == Seq::<char>::empty(),
        name == "CustomSnaps"@ ==> record_of(cols, line).custom_snaps == Seq::<char>::empty(),
{
    lemma_default_upto(cols, line, name, cols.len() as int);
}

/// `blank_cell_gives_default`, going by the first `n` columns.
proof fn lemma_default_upto(cols: Seq<ColumnView>, line: Seq<char>, name: Seq<char>, n: int)
    requires
        0 <= n <= cols.len(),
        forall|i: int|
            0 <= i < cols.len() && (#[trigger] cols[i]).name == name ==> cols[i].start
                >= line.len() || blank(line.subrange(cols[i].start, span_end(cols, i, line))),
    ensures
        field_text(cols, line, name, n) == Seq::<char>::empty(),
    decreases n,
{
    if n > 0 {
        lemma_default_upto(cols, line, name, n - 1);
        if cols[n - 1].name == name {
            lemma_empty_cell(cols, n - 1, line);
        }
    }
}

/// Under a header that bears a name once, the field of that name is the cell
/// of that column.
pub proof fn field_is_cell(cols: Seq<ColumnView>, line: Seq<char>, i: int)
    requires
        0 <= i < cols.len(),
        forall|j: int| 0 <= j < cols.len() && j != i ==> (#[trigger] cols[j]).name != cols[i].name,
    ensures
        field_text(cols, line, cols[i].name, cols.len() as int) == cell(cols, i, line),
{
    lemma_field_is_cell_upto(cols, line, i, cols.len() as int);
}

proof fn lemma_field_is_cell_upto(cols: Seq<ColumnView>, line: Seq<char>, i: int, n: int)
    requires
        0 <= i < cols.len(),
        0 <= n <= cols.len(),
        forall|j: int| 0 <= j < cols.len() && j != i ==> (#[trigger] cols[j]).name != cols[i].name,
    ensures
        n <= i ==> field_text(cols, line, cols[i].name, n) == Seq::<char>::empty(),
        n > i ==> field_text(cols, line, cols[i].name, n) == cell(cols, i, line),
    decreases n,
{
    if n > 0 {
        lemma_field_is_cell_upto(cols, line, i, n - 1);
    }
}

/// Two rows that give the same cell under each of the first `n` columns give
/// the same text for every field, going by those columns.
proof fn lemma_same_cells(
    cols: Seq<ColumnView>,
    a: Seq<char>,
    b: Seq<char>,
    name: Seq<char>,
    n: int,
)
    requires
        0 <= n <= cols.len(),
        forall|j: int| 0 <= j < cols.len() ==> cell(cols, j, a) == cell(cols, j, b),
    ensures
        field_text(cols, a, name, n) == field_text(cols, b, name, n),
    decreases n,
{
    if n > 0 {
        lemma_same_cells(cols, a, b, name, n - 1);
    }
}

/// Moving a cell's text within the cell's span changes nothing: a row gives
/// the same record however the whitespace around the text `value` under
/// column `i` is dealt between its two sides, as long as the text stays
/// between the column's start and the next column's start.
pub proof fn reindent_keeps_record(
    cols: Seq<ColumnView>,
    i: int,
    left: Seq<char>,
    value: Seq<char>,
    right: Seq<char>,
    before: Seq<char>,
    after: Seq<char>,
    moved_before: Seq<char>,
    moved_after: Seq<char>,
)
    requires
        ordered(cols),
        0 <= i < cols.len(),
        left.len() == cols[i].start,
        blank(before) && blank(after) && blank(moved_before) && blank(moved_after),
        before.len() + after.len() == moved_before.len() + moved_after.len(),
        i + 1 < cols.len() ==> left.len() + before.len() + value.len() + after.len() <= cols[i
            + 1].start,
        right.len() > 0 ==> i + 1 < cols.len() && left.len() + before.len() + value.len()
            + after.len() == cols[i + 1].start,
    ensures
        record_of(cols, left + before + value + after + right) == record_of(
            cols,
            left + moved_before + value + moved_after + right,
        ),
{
    let a = left + before + value + after + right;
    let b = left + moved_before + value + moved_after + right;
    let from = left.len() as int;
    let to = from + before.len() + value.len() + after.len();
    assert forall|j: int| 0 <= j < cols.len() implies cell(cols, j, a) == cell(cols, j, b) by {
        let start = cols[j].start;
        if start < a.len() {
            let end = span_end(cols, j, a);
            if j < i {
                assert(a.subrange(start, end) =~= left.subrange(start, end));
                assert(b.subrange(start, end) =~= left.subrange(start, end));
            } else if j == i {
                assert(a.subrange(start, end) =~= before + value + after);
                assert(b.subrange(start, end) =~= moved_before + value + moved_after);
                lemma_trim_padding(before, value, after);
                lemma_trim_padding(moved_before, value, moved_after);
            } else {
                assert(a.subrange(start, end) =~= right.subrange(start - to, end - to));
                assert(b.subrange(start, end) =~= right.subrange(start - to, end - to));
            }
        }
    }
    let n = cols.len() as int;
    lemma_same_cells(cols, a, b, "Filesystem"@, n);
    lemma_same_cells(cols, a, b, "Usage"@, n);
    lemma_same_cells(cols, a, b, "SoftQuota"@, n);
    lemma_same_cells(cols, a, b, "HardQuota"@, n);
    lemma_same_cells(cols, a, b, "Files"@, n);
    lemma_same_cells(cols, a, b, "BilledUsage"@, n);
    lemma_same_cells(cols, a, b, "FreeSnaps"@, n);
    lemma_same_cells(cols, a, b, "CustomSnaps"@, n);
}

/// `skip_blank` stops within the text, at or after where it set out.
pub proof fn lemma_skip_blank(s: Seq<char>, from: int)
    requires
        0 <= from <= s.len(),
    ensures
        from <= skip_blank(s, from) <= s.len(),
        skip_blank(s, from) < s.len() ==> !white_space(s[skip_blank(s, from)]),
        forall|k: int| from <= k < skip_blank(s, from) ==> white_space(s[k]),
    decreases s.len() - from,
{
    if from < s.len() && white_space(s[from]) {
        lemma_skip_blank(s, from + 1);
    }
}

/// `skip_word` stops within the text, at or after where it set out.
pub proof fn lemma_skip_word(s: Seq<char>, from: int)
    requires
        0 <= from <= s.len(),
    ensures
        from <= skip_word(s, from) <= s.len(),
        skip_word(s, from) < s.len() ==> white_space(s[skip_word(s, from)]),
        forall|k: int| from <= k < skip_word(s, from) ==> !white_space(s[k]),
    decreases s.len() - from,
{
    if from < s.len() && !white_space(s[from]) {
        lemma_skip_word(s, from + 1);
    }
}

/// Whether `start` is where a word of `s` begins: it holds a character that
/// is not whitespace, and the one before it, if there is one, is whitespace.
pub open spec fn word_start(s: Seq<char>, start: int) -> bool {
    &&& 0 <= start < s.len()
    &&& !white_space(s[start])
    &&& start > 0 ==> white_space(s[start - 1])
}

/// The word of `s` that begins at `start`: the characters from there up to
/// the next whitespace or the end of the text.
pub open spec fn word_at(s: Seq<char>, start: int) -> Seq<char> {
    s.subrange(start, skip_word(s, start))
}

/// What the columns read off a text at or after `from` are like, where `from`
/// is the start of the text or follows a word.
proof fn lemma_columns_from(s: Seq<char>, from: int)
    requires
        0 <= from <= s.len(),
        from == 0 || from == s.len() || white_space(s[from]),
    ensures
        ordered(columns_from(s, from)),
        forall|k: int|
            0 <= k < columns_from(s, from).len() ==> {
                let c = #[trigger] columns_from(s, from)[k];
                from <= c.start && word_start(s, c.start) && c.name == word_at(s, c.start)
            },
        forall|p: int|
            from <= p && word_start(s, p) ==> exists|k: int|
                0 <= k < columns_from(s, from).len() && #[trigger] columns_from(s, from)[k].start
                    == p,
    decreases s.len() - from,
{
    let start = skip_blank(s, from);
    lemma_skip_blank(s, from);
    lemma_skip_word(s, start);
    let end = skip_word(s, start);
    let cols = columns_from(s, from);
    if start < s.len() {
        assert(end > start);
        let rest = columns_from(s, end);
        lemma_columns_from(s, end);
        let head = ColumnView { name: s.subrange(start, end), start };
        assert(cols == seq![head] + rest);
        assert(cols[0] == head);
        assert forall|k: int| 1 <= k < cols.len() implies #[trigger] cols[k] == rest[k - 1] by {}
        assert(word_start(s, start)) by {
            if start > 0 {
                if start == from {
                    assert(white_space(s[from]) || from == 0);
                } else {
                    assert(white_space(s[start - 1]));
                }
            }
        }
        assert forall|k: int| 0 <= k < cols.len() implies {
            let c = #[trigger] cols[k];
            from <= c.start && word_start(s, c.start) && c.name == word_at(s, c.start)
        } by {
            if k > 0 {
                assert(cols[k] == rest[k - 1]);
            }
        }
        assert(ordered(cols)) by {
            assert forall|a: int, b: int| 0 <= a < b < cols.len() implies (#[trigger] cols[a]).start
                < (#[trigger] cols[b]).start by {
                assert(cols[b] == rest[b - 1]);
                if a > 0 {
                    assert(cols[a] == rest[a - 1]);
                }
            }
            assert forall|a: int| 0 <= a < cols.len() implies 0 <= (#[trigger] cols[a]).start by {
                if a > 0 {
                    assert(cols[a] == rest[a - 1]);
                }
            }
        }
        assert forall|p: int| from <= p && word_start(s, p) implies exists|k: int|
            0 <= k < cols.len() && #[trigger] cols[k].start == p by {
            if p == start {
                assert(cols[0].start == p);
            } else {
                assert(p >= end) by {
                    if p < start {
                        assert(white_space(s[p]));
                    } else if p < end {
                        assert(!white_space(s[p - 1]));
                    }
                }
                let k = choose|k: int| 0 <= k < rest.len() && #[trigger] rest[k].start == p;
                assert(cols[k + 1] == rest[k]);
            }
        }
    } else {
        assert(cols =~= Seq::<ColumnView>::empty());
    }
}

/// The columns of a header row are its words: there is one column at each
/// position where a word begins and at no other, each under its word, and
/// they stand left to right.
pub proof fn columns_are_words(header: Seq<char>)
    ensures
        ordered(columns_of(header)),
        forall|k: int|
            0 <= k < columns_of(header).len() ==> {
                let c = #[trigger] columns_of(header)[k];
                word_start(header, c.start) && c.name == word_at(header, c.start)
            },
        forall|p: int|
            word_start(header, p) ==> exists|k: int|
                0 <= k < columns_of(header).len() && #[trigger] columns_of(header)[k].start == p,
{
    lemma_columns_from(header, 0);
}

} // verus!
