//! Characters, whitespace and lines: the vocabulary the report decoder is
//! written in. Text is modelled as `Seq<char>`; offsets count characters.

use vstd::prelude::*;

verus! {

/// The code points that carry Unicode's `White_Space` property.
pub open spec fn white_space(c: char) -> bool {
    ||| '\u{9}' <= c <= '\u{D}'
    ||| c == ' '
    ||| c == '\u{85}'
    ||| c == '\u{A0}'
    ||| c == '\u{1680}'
    ||| '\u{2000}' <= c <= '\u{200A}'
    ||| c == '\u{2028}'
    ||| c == '\u{2029}'
    ||| c == '\u{202F}'
    ||| c == '\u{205F}'
    ||| c == '\u{3000}'
}

/// Decides whether `c` is whitespace.
pub fn is_whitespace(c: char) -> (r: bool)
    ensures
        r == white_space(c),
{
    ('\u{9}' <= c && c <= '\u{D}') || c == ' ' || c == '\u{85}' || c == '\u{A0}' || c
        == '\u{1680}' || ('\u{2000}' <= c && c <= '\u{200A}') || c == '\u{2028}' || c
        == '\u{2029}' || c == '\u{202F}' || c == '\u{205F}' || c == '\u{3000}'
}

/// The characters of `s`, in order.
pub fn chars_of(s: &str) -> (r: Vec<char>)
    ensures
        r@ == s@,
{
    let mut out: Vec<char> = Vec::new();
    for c in it: s.chars()
        invariant
            out@ == it.seq().take(it.index()),
            it.seq() == s@,
    {
        out.push(c);
    }
    out
}

/// Taken on trust of the standard library's `String::push`: after the call
/// the string holds what it held before, followed by `c`.
pub assume_specification[ String::push ](s: &mut String, c: char)
    ensures
        final(s)@ == old(s)@.push(c),
;

/// The characters `chars[from..to]` as an owned string.
pub fn string_of(chars: &Vec<char>, from: usize, to: usize) -> (r: String)
    requires
        from <= to <= chars.len(),
    ensures
        r@ == chars@.subrange(from as int, to as int),
{
    let mut out = String::new();
    let mut i: usize = from;
    while i < to
        invariant
            from <= i <= to <= chars.len(),
            out@ == chars@.subrange(from as int, i as int),
        decreases to - i,
    {
        out.push(chars[i]);
        i += 1;
    }
    out
}

/// Every character of `s` is whitespace (so the empty text is blank).
pub open spec fn blank(s: Seq<char>) -> bool {
    forall|i: int| 0 <= i < s.len() ==> white_space(#[trigger] s[i])
}

/// `s` without its leading whitespace.
pub open spec fn trim_start(s: Seq<char>) -> Seq<char>
    decreases s.len(),
{
    if s.len() > 0 && white_space(s.first()) {
        trim_start(s.drop_first())
    } else {
        s
    }
}

/// `s` without its trailing whitespace.
pub open spec fn trim_end(s: Seq<char>) -> Seq<char>
    decreases s.len(),
{
    if s.len() > 0 && white_space(s.last()) {
        trim_end(s.drop_last())
    } else {
        s
    }
}

/// `s` without its leading and trailing whitespace.
pub open spec fn trim(s: Seq<char>) -> Seq<char> {
    trim_end(trim_start(s))
}

/// Leading whitespace does not change what `trim_start` leaves.
pub proof fn lemma_trim_start_padding(pad: Seq<char>, s: Seq<char>)
    requires
        blank(pad),
    ensures
        trim_start(pad + s) == trim_start(s),
    decreases pad.len(),
{
    if pad.len() > 0 {
        assert((pad + s).drop_first() =~= pad.drop_first() + s);
        lemma_trim_start_padding(pad.drop_first(), s);
    }
}

/// Trailing whitespace does not change what `trim_end` leaves.
pub proof fn lemma_trim_end_padding(s: Seq<char>, pad: Seq<char>)
    requires
        blank(pad),
    ensures
        trim_end(s + pad) == trim_end(s),
    decreases pad.len(),
{
    if pad.len() > 0 {
        assert((s + pad).drop_last() =~= s + pad.drop_last());
        lemma_trim_end_padding(s, pad.drop_last());
    }
}

/// Of a blank text, trimming leaves nothing.
pub proof fn lemma_trim_blank(s: Seq<char>)
    requires
        blank(s),
    ensures
        trim_start(s) == Seq::<char>::empty(),
        trim(s) == Seq::<char>::empty(),
    decreases s.len(),
{
    if s.len() > 0 {
        lemma_trim_blank(s.drop_first());
    }
}

/// What follows a text that is not blank stays as it is when the text's
/// leading whitespace is cut.
pub proof fn lemma_trim_start_keeps_tail(s: Seq<char>, tail: Seq<char>)
    requires
        !blank(s),
    ensures
        trim_start(s + tail) == trim_start(s) + tail,
    decreases s.len(),
{
    if white_space(s.first()) {
        let rest = s.drop_first();
        assert(!blank(rest)) by {
            let i = choose|i: int| 0 <= i < s.len() && !white_space(s[i]);
            assert(rest[i - 1] == s[i]);
        }
        assert((s + tail).drop_first() =~= rest + tail);
        lemma_trim_start_keeps_tail(rest, tail);
    }
}

/// Whitespace around a text does not change what trimming leaves of it.
pub proof fn lemma_trim_padding(before: Seq<char>, s: Seq<char>, after: Seq<char>)
    requires
        blank(before),
        blank(after),
    ensures
        trim(before + s + after) == trim(s),
{
    assert(before + s + after =~= before + (s + after));
    lemma_trim_start_padding(before, s + after);
    if blank(s) {
        lemma_trim_blank(s + after);
        lemma_trim_blank(s);
    } else {
        lemma_trim_start_keeps_tail(s, after);
        lemma_trim_end_padding(trim_start(s), after);
    }
}

/// The bounds `(a, b)` of what is left of `chars[from..to]` once its leading
/// and trailing whitespace is cut away.
pub fn trim_range(chars: &Vec<char>, from: usize, to: usize) -> (r: (usize, usize))
    requires
        from <= to <= chars.len(),
    ensures
        from <= r.0 <= r.1 <= to,
        chars@.subrange(r.0 as int, r.1 as int) == trim(chars@.subrange(from as int, to as int)),
{
    let mut a: usize = from;
    while a < to && is_whitespace(chars[a])
        invariant
            from <= a <= to <= chars.len(),
            trim_start(chars@.subrange(from as int, to as int)) == trim_start(
                chars@.subrange(a as int, to as int),
            ),
        decreases to - a,
    {
        assert(chars@.subrange(a as int, to as int).drop_first() =~= chars@.subrange(
            a as int + 1,
            to as int,
        ));
        a += 1;
    }
    let mut b: usize = to;
    while a < b && is_whitespace(chars[b - 1])
        invariant
            a <= b <= to <= chars.len(),
            trim_end(chars@.subrange(a as int, to as int)) == trim_end(
                chars@.subrange(a as int, b as int),
            ),
        decreases b - a,
    {
        assert(chars@.subrange(a as int, b as int).drop_last() =~= chars@.subrange(
            a as int,
            b as int - 1,
        ));
        b -= 1;
    }
    (a, b)
}

/// Whether `chars[from..to]` begins with `word`.
pub fn has_prefix(chars: &Vec<char>, from: usize, to: usize, word: &str) -> (r: bool)
    requires
        from <= to <= chars.len(),
    ensures
        r == word@.is_prefix_of(chars@.subrange(from as int, to as int)),
{
    let w = chars_of(word);
    if w.len() > to - from {
        return false;
    }
    let mut i: usize = 0;
    while i < w.len()
        invariant
            from <= to <= chars.len(),
            w.len() <= to - from,
            i <= w.len(),
            w@ == word@,
            forall|k: int| 0 <= k < i ==> w@[k] == chars@[from + k],
        decreases w.len() - i,
    {
        if w[i] != chars[from + i] {
            return false;
        }
        i += 1;
    }
    true
}

/// Whether `chars[from..to]` is exactly `word`.
pub fn same_text(chars: &Vec<char>, from: usize, to: usize, word: &str) -> (r: bool)
    requires
        from <= to <= chars.len(),
    ensures
        r == (chars@.subrange(from as int, to as int) == word@),
{
    let w = chars_of(word);
    if w.len() != to - from {
        return false;
    }
    let mut i: usize = 0;
    while i < w.len()
        invariant
            from <= to <= chars.len(),
            w.len() == to - from,
            i <= w.len(),
            w@ == word@,
            forall|k: int| 0 <= k < i ==> w@[k] == chars@[from + k],
        decreases w.len() - i,
    {
        if w[i] != chars[from + i] {
            return false;
        }
        i += 1;
    }
    assert(word@ =~= chars@.subrange(from as int, to as int));
    true
}

/// The number of characters before the first line feed of `s`; the length of
/// `s` when it holds none.
pub open spec fn first_feed(s: Seq<char>) -> nat
    decreases s.len(),
{
    if s.len() == 0 || s.first() == '\n' {
        0
    } else {
        1 + first_feed(s.drop_first())
    }
}

/// The lines of `s`: the stretches between its line feeds, so that a text with
/// `n` line feeds has `n + 1` lines, the last of them possibly empty.
pub open spec fn lines_of(s: Seq<char>) -> Seq<Seq<char>>
    decreases s.len(),
{
    let n = first_feed(s) as int;
    if n < s.len() {
        seq![s.take(n)] + lines_of(s.skip(n + 1))
    } else {
        seq![s]
    }
}

/// `first_feed` is the one position that has no line feed before it and a
/// line feed, or the end of the text, at it.
pub proof fn lemma_first_feed(s: Seq<char>, n: int)
    requires
        0 <= n <= s.len(),
        forall|i: int| 0 <= i < n ==> s[i] != '\n',
        n < s.len() ==> s[n] == '\n',
    ensures
        first_feed(s) == n,
    decreases n,
{
    if n > 0 {
        lemma_first_feed(s.drop_first(), n - 1);
    }
}

/// `first_feed` stops within the text, at its first line feed if it has one.
pub proof fn lemma_first_feed_found(s: Seq<char>)
    ensures
        first_feed(s) <= s.len(),
        forall|i: int| 0 <= i < first_feed(s) ==> s[i] != '\n',
        first_feed(s) < s.len() ==> s[first_feed(s) as int] == '\n',
    decreases s.len(),
{
    if s.len() > 0 && s.first() != '\n' {
        let rest = s.drop_first();
        lemma_first_feed_found(rest);
        assert forall|i: int| 0 <= i < first_feed(s) implies s[i] != '\n' by {
            if i > 0 {
                assert(s[i] == rest[i - 1]);
            }
        }
    }
}

/// A text without a line feed is one line.
pub proof fn lemma_one_line(s: Seq<char>)
    requires
        !s.contains('\n'),
    ensures
        lines_of(s) == seq![s],
{
    lemma_first_feed_found(s);
}

/// The lines of two texts joined by a line feed are the lines of the first
/// followed by the lines of the second.
pub proof fn lemma_lines_joined(a: Seq<char>, b: Seq<char>)
    ensures
        lines_of(a + seq!['\n'] + b) == lines_of(a) + lines_of(b),
    decreases a.len(),
{
    let whole = a + seq!['\n'] + b;
    lemma_first_feed_found(a);
    let n = first_feed(a) as int;
    if n < a.len() {
        lemma_first_feed(whole, n);
        assert(whole.take(n) =~= a.take(n));
        assert(whole.skip(n + 1) =~= a.skip(n + 1) + seq!['\n'] + b);
        lemma_lines_joined(a.skip(n + 1), b);
    } else {
        lemma_first_feed(whole, n);
        assert(whole.take(n) =~= a);
        assert(whole.skip(n + 1) =~= b);
    }
}

/// What a vector of lines holds, line by line.
pub open spec fn texts(lines: Seq<Vec<char>>) -> Seq<Seq<char>> {
    Seq::new(lines.len(), |i: int| lines[i]@)
}

/// Cuts `chars` into its lines.
pub fn split_lines(chars: &Vec<char>) -> (r: Vec<Vec<char>>)
    ensures
        texts(r@) == lines_of(chars@),
{
    let mut out: Vec<Vec<char>> = Vec::new();
    let mut line: Vec<char> = Vec::new();
    let mut begin: usize = 0;
    let mut i: usize = 0;
    assert(texts(out@) + lines_of(chars@.skip(0)) =~= lines_of(chars@)) by {
        assert(chars@.skip(0) =~= chars@);
    }
    while i < chars.len()
        invariant
            begin <= i <= chars.len(),
            line@ == chars@.subrange(begin as int, i as int),
            forall|k: int| begin <= k < i ==> chars@[k] != '\n',
            lines_of(chars@) == texts(out@) + lines_of(chars@.skip(begin as int)),
        decreases chars.len() - i,
    {
        let c = chars[i];
        if c == '\n' {
            proof {
                let rest = chars@.skip(begin as int);
                lemma_first_feed(rest, i - begin);
                assert(rest.take(i - begin) =~= line@);
                assert(rest.skip(i - begin + 1) =~= chars@.skip(i + 1));
            }
            out.push(line);
            line = Vec::new();
            begin = i + 1;
        } else {
            line.push(c);
        }
        i += 1;
    }
    proof {
        let rest = chars@.skip(begin as int);
        lemma_first_feed(rest, rest.len() as int);
    }
    out.push(line);
    out
}

} // verus!
