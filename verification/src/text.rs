//! Assembly text as bytes: lines, surrounding whitespace, prefixes, and
//! decimal numbers.

use vstd::prelude::*;
use vstd::slice::slice_subrange;

verus! {

/// The byte that ends a line.
pub const NEWLINE: u8 = 0x0A;

/// The one-byte whitespace characters: space, tab, line feed, vertical
/// tab, form feed and carriage return.
pub open spec fn is_space(b: u8) -> bool {
    b == 0x20 || (0x09 <= b && b <= 0x0D)
}

/// The two-byte whitespace characters in UTF-8: next line (U+0085) and
/// no-break space (U+00A0).
pub open spec fn is_space2(a: u8, b: u8) -> bool {
    a == 0xC2 && (b == 0x85 || b == 0xA0)
}

/// The three-byte whitespace characters in UTF-8: U+1680, U+2000 to U+200A,
/// U+2028, U+2029, U+202F, U+205F and U+3000.
pub open spec fn is_space3(a: u8, b: u8, c: u8) -> bool {
    ||| a == 0xE1 && b == 0x9A && c == 0x80
    ||| a == 0xE2 && b == 0x80 && ((0x80 <= c && c <= 0x8A) || c == 0xA8 || c == 0xA9 || c == 0xAF)
    ||| a == 0xE2 && b == 0x81 && c == 0x9F
    ||| a == 0xE3 && b == 0x80 && c == 0x80
}

/// Number of bytes of the whitespace character that `s` begins with; zero
/// if it begins with none.
pub open spec fn leading_space(s: Seq<u8>) -> int {
    if s.len() >= 1 && is_space(s[0]) {
        1
    } else if s.len() >= 2 && is_space2(s[0], s[1]) {
        2
    } else if s.len() >= 3 && is_space3(s[0], s[1], s[2]) {
        3
    } else {
        0
    }
}

/// Number of bytes of the whitespace character that `s` ends with; zero if
/// it ends with none.
pub open spec fn trailing_space(s: Seq<u8>) -> int {
    if s.len() >= 1 && is_space(s[s.len() - 1]) {
        1
    } else if s.len() >= 2 && is_space2(s[s.len() - 2], s[s.len() - 1]) {
        2
    } else if s.len() >= 3 && is_space3(s[s.len() - 3], s[s.len() - 2], s[s.len() - 1]) {
        3
    } else {
        0
    }
}

/// `s` without its leading whitespace.
pub open spec fn trim_start(s: Seq<u8>) -> Seq<u8>
    decreases s.len(),
{
    if leading_space(s) > 0 {
        trim_start(s.skip(leading_space(s)))
    } else {
        s
    }
}

/// `s` without its trailing whitespace.
pub open spec fn trim_end(s: Seq<u8>) -> Seq<u8>
    decreases s.len(),
{
    if trailing_space(s) > 0 {
        trim_end(s.take(s.len() - trailing_space(s)))
    } else {
        s
    }
}

/// `s` without its surrounding whitespace.
pub open spec fn trimmed(s: Seq<u8>) -> Seq<u8> {
    trim_end(trim_start(s))
}

/// The lines of `text`: the pieces between line feeds. A text without a
/// line feed is one line, and a text that ends in a line feed has an empty
/// last line.
pub open spec fn lines_of(text: Seq<u8>) -> Seq<Seq<u8>>
    decreases text.len(),
{
    if text.len() == 0 {
        seq![Seq::empty()]
    } else {
        let before = lines_of(text.drop_last());
        if text.last() == NEWLINE {
            before.push(Seq::empty())
        } else {
            before.drop_last().push(before.last().push(text.last()))
        }
    }
}

/// The lines put together with one line feed between neighbours.
pub open spec fn joined(lines: Seq<Seq<u8>>) -> Seq<u8>
    decreases lines.len(),
{
    if lines.len() == 0 {
        Seq::empty()
    } else if lines.len() == 1 {
        lines[0]
    } else {
        joined(lines.drop_last()) + seq![NEWLINE] + lines.last()
    }
}

/// Whether `line` begins with `prefix`.
pub open spec fn has_prefix(line: Seq<u8>, prefix: Seq<u8>) -> bool {
    prefix.len() <= line.len() && line.subrange(0, prefix.len() as int) == prefix
}

/// The contents of a vector of lines.
pub open spec fn views(lines: Seq<Vec<u8>>) -> Seq<Seq<u8>> {
    lines.map_values(|line: Vec<u8>| line@)
}

/// The decimal digits of `n`, most significant first.
pub open spec fn digits(n: nat) -> Seq<u8>
    decreases n,
{
    if n < 10 {
        seq![(48 + n) as u8]
    } else {
        digits(n / 10).push((48 + n % 10) as u8)
    }
}

/// `v` in decimal, with a minus sign when negative.
pub open spec fn decimal(v: int) -> Seq<u8> {
    if v < 0 {
        seq![45u8] + digits((-v) as nat)
    } else {
        digits(v as nat)
    }
}

/// Whether `line` holds no line feed.
pub open spec fn newline_free(line: Seq<u8>) -> bool {
    forall|i: int| 0 <= i < line.len() ==> #[trigger] line[i] != NEWLINE
}

/// Whether none of `lines` holds a line feed.
pub open spec fn all_newline_free(lines: Seq<Seq<u8>>) -> bool {
    forall|i: int| 0 <= i < lines.len() ==> newline_free(#[trigger] lines[i])
}

/// A text has at least one line, and no line holds a line feed.
pub proof fn lemma_lines_newline_free(text: Seq<u8>)
    ensures
        lines_of(text).len() >= 1,
        all_newline_free(lines_of(text)),
    decreases text.len(),
{
    if text.len() > 0 {
        lemma_lines_newline_free(text.drop_last());
    }
}

/// Joining the lines of a text gives the text back.
pub proof fn lemma_join_split(text: Seq<u8>)
    ensures
        joined(lines_of(text)) == text,
    decreases text.len(),
{
    if text.len() > 0 {
        let before = lines_of(text.drop_last());
        lemma_join_split(text.drop_last());
        lemma_lines_newline_free(text.drop_last());
        if text.last() == NEWLINE {
            assert(before.push(Seq::empty()).drop_last() =~= before);
            assert(joined(lines_of(text)) =~= text.drop_last().push(NEWLINE));
        } else {
            let line = before.last().push(text.last());
            let after = before.drop_last().push(line);
            assert(after.drop_last() =~= before.drop_last());
            assert(joined(after) =~= joined(before).push(text.last()));
        }
        assert(text.drop_last().push(text.last()) =~= text);
    } else {
        assert(joined(lines_of(text)) =~= text);
    }
}

/// Appending bytes that hold no line feed extends the last line.
pub proof fn lemma_lines_extend(text: Seq<u8>, more: Seq<u8>)
    requires
        newline_free(more),
    ensures
        lines_of(text + more) == lines_of(text).drop_last().push(lines_of(text).last() + more),
    decreases more.len(),
{
    lemma_lines_newline_free(text);
    if more.len() == 0 {
        assert(text + more =~= text);
        assert(lines_of(text).last() + more =~= lines_of(text).last());
        assert(lines_of(text).drop_last().push(lines_of(text).last()) =~= lines_of(text));
    } else {
        let shorter = more.drop_last();
        assert(newline_free(shorter)) by {
            assert forall|i: int| 0 <= i < shorter.len() implies #[trigger] shorter[i]
                != NEWLINE by {
                assert(shorter[i] == more[i]);
            }
        }
        lemma_lines_extend(text, shorter);
        assert((text + more).drop_last() =~= text + shorter);
        assert(more.last() != NEWLINE);
        let before = lines_of(text + shorter);
        assert(before.last().push(more.last()) =~= lines_of(text).last() + more);
        assert(before.drop_last() =~= lines_of(text).drop_last());
    }
}

/// Splitting what was joined gives the lines back, when there is at least
/// one line and no line holds a line feed.
pub proof fn lemma_split_join(lines: Seq<Seq<u8>>)
    requires
        lines.len() >= 1,
        all_newline_free(lines),
    ensures
        lines_of(joined(lines)) == lines,
    decreases lines.len(),
{
    let empty = Seq::<u8>::empty();
    if lines.len() == 1 {
        lemma_lines_extend(empty, lines[0]);
        assert(empty + lines[0] =~= lines[0]);
        assert(lines_of(empty) =~= seq![empty]);
        assert(lines_of(joined(lines)) =~= lines);
    } else {
        let front = lines.drop_last();
        assert(all_newline_free(front)) by {
            assert forall|i: int| 0 <= i < front.len() implies newline_free(
                #[trigger] front[i],
            ) by {
                assert(front[i] == lines[i]);
            }
        }
        lemma_split_join(front);
        let opened = joined(front) + seq![NEWLINE];
        assert(opened.drop_last() =~= joined(front));
        assert(lines_of(opened) == front.push(empty));
        assert(newline_free(lines.last()));
        lemma_lines_extend(opened, lines.last());
        assert(front.push(empty).drop_last() =~= front);
        assert(empty + lines.last() =~= lines.last());
        assert(front.push(lines.last()) =~= lines);
    }
}

/// Trimming only removes bytes from the two ends.
pub proof fn lemma_trimmed_is_subrange(s: Seq<u8>)
    ensures
        exists|a: int, b: int| 0 <= a <= b <= s.len() && trimmed(s) == #[trigger] s.subrange(a, b),
{
    lemma_trim_start_is_suffix(s);
    let a = choose|a: int| 0 <= a <= s.len() && trim_start(s) == s.skip(a);
    lemma_trim_end_is_prefix(s.skip(a));
    let n = choose|n: int| 0 <= n <= s.skip(a).len() && trim_end(s.skip(a)) == s.skip(a).take(n);
    assert(s.skip(a).take(n) =~= s.subrange(a, a + n));
}

proof fn lemma_trim_start_is_suffix(s: Seq<u8>)
    ensures
        exists|a: int| 0 <= a <= s.len() && trim_start(s) == #[trigger] s.skip(a),
    decreases s.len(),
{
    let n = leading_space(s);
    if n > 0 {
        lemma_trim_start_is_suffix(s.skip(n));
        let a = choose|a: int|
            0 <= a <= s.skip(n).len() && trim_start(s.skip(n)) == s.skip(n).skip(a);
        assert(s.skip(n).skip(a) =~= s.skip(a + n));
    } else {
        assert(s.skip(0) =~= s);
    }
}

proof fn lemma_trim_end_is_prefix(s: Seq<u8>)
    ensures
        exists|n: int| 0 <= n <= s.len() && trim_end(s) == #[trigger] s.take(n),
    decreases s.len(),
{
    let k = trailing_space(s);
    if k > 0 {
        let front = s.take(s.len() - k);
        lemma_trim_end_is_prefix(front);
        let n = choose|n: int| 0 <= n <= front.len() && trim_end(front) == front.take(n);
        assert(front.take(n) =~= s.take(n));
    } else {
        assert(s.take(s.len() as int) =~= s);
    }
}

/// Trimming leaves no whitespace character at either end.
pub proof fn lemma_trimmed_ends(s: Seq<u8>)
    ensures
        leading_space(trimmed(s)) == 0,
        trailing_space(trimmed(s)) == 0,
{
    lemma_trim_start_head(s);
    lemma_trim_end_tail(trim_start(s));
    let t = trim_start(s);
    lemma_trim_end_is_prefix(t);
    let n = choose|n: int| 0 <= n <= t.len() && trim_end(t) == t.take(n);
    assert(forall|i: int| 0 <= i < n ==> t.take(n)[i] == t[i]);
}

proof fn lemma_trim_start_head(s: Seq<u8>)
    ensures
        leading_space(trim_start(s)) == 0,
    decreases s.len(),
{
    if leading_space(s) > 0 {
        lemma_trim_start_head(s.skip(leading_space(s)));
    }
}

proof fn lemma_trim_end_tail(s: Seq<u8>)
    ensures
        trailing_space(trim_end(s)) == 0,
    decreases s.len(),
{
    if trailing_space(s) > 0 {
        lemma_trim_end_tail(s.take(s.len() - trailing_space(s)));
    }
}

/// Tells whether `b` is a whitespace byte.
pub fn is_space_byte(b: u8) -> (yes: bool)
    ensures
        yes == is_space(b),
{
    b == 0x20 || (0x09 <= b && b <= 0x0D)
}

/// Tells whether `a`, `b` is a two-byte whitespace character.
fn is_space_pair(a: u8, b: u8) -> (yes: bool)
    ensures
        yes == is_space2(a, b),
{
    a == 0xC2 && (b == 0x85 || b == 0xA0)
}

/// Tells whether `a`, `b`, `c` is a three-byte whitespace character.
fn is_space_triple(a: u8, b: u8, c: u8) -> (yes: bool)
    ensures
        yes == is_space3(a, b, c),
{
    (a == 0xE1 && b == 0x9A && c == 0x80) || (a == 0xE2 && b == 0x80 && ((0x80 <= c && c <= 0x8A)
        || c == 0xA8 || c == 0xA9 || c == 0xAF)) || (a == 0xE2 && b == 0x81 && c == 0x9F) || (a
        == 0xE3 && b == 0x80 && c == 0x80)
}

/// Length of the whitespace character at the start of `line[from..to]`.
fn leading_space_len(line: &[u8], from: usize, to: usize) -> (n: usize)
    requires
        from <= to <= line@.len(),
    ensures
        n == leading_space(line@.subrange(from as int, to as int)),
        from + n <= to,
{
    let len = to - from;
    if len >= 1 && is_space_byte(line[from]) {
        1
    } else if len >= 2 && is_space_pair(line[from], line[from + 1]) {
        2
    } else if len >= 3 && is_space_triple(line[from], line[from + 1], line[from + 2]) {
        3
    } else {
        0
    }
}

/// Length of the whitespace character at the end of `line[from..to]`.
fn trailing_space_len(line: &[u8], from: usize, to: usize) -> (n: usize)
    requires
        from <= to <= line@.len(),
    ensures
        n == trailing_space(line@.subrange(from as int, to as int)),
        from + n <= to,
{
    let len = to - from;
    if len >= 1 && is_space_byte(line[to - 1]) {
        1
    } else if len >= 2 && is_space_pair(line[to - 2], line[to - 1]) {
        2
    } else if len >= 3 && is_space_triple(line[to - 3], line[to - 2], line[to - 1]) {
        3
    } else {
        0
    }
}

/// Strips the whitespace around `line`.
pub fn trim(line: &[u8]) -> (out: &[u8])
    ensures
        out@ == trimmed(line@),
{
    let end = line.len();
    let mut a: usize = 0;
    assert(line@.subrange(0, end as int) =~= line@);
    loop
        invariant
            a <= end == line@.len(),
            trim_start(line@) == trim_start(line@.subrange(a as int, end as int)),
        ensures
            a <= end,
            trim_start(line@) == line@.subrange(a as int, end as int),
        decreases end - a,
    {
        let n = leading_space_len(line, a, end);
        if n == 0 {
            break ;
        }
        assert(line@.subrange(a as int, end as int).skip(n as int) =~= line@.subrange(
            a + n,
            end as int,
        ));
        a += n;
    }
    let mut b: usize = end;
    loop
        invariant
            a <= b <= end == line@.len(),
            trimmed(line@) == trim_end(line@.subrange(a as int, b as int)),
        ensures
            a <= b <= end,
            trimmed(line@) == line@.subrange(a as int, b as int),
        decreases b - a,
    {
        let n = trailing_space_len(line, a, b);
        if n == 0 {
            break ;
        }
        assert(line@.subrange(a as int, b as int).take(b - a - n) =~= line@.subrange(
            a as int,
            b - n,
        ));
        b -= n;
    }
    slice_subrange(line, a, b)
}

/// Tells whether `line` begins with `prefix`.
pub fn starts_with(line: &[u8], prefix: &[u8]) -> (yes: bool)
    ensures
        yes == has_prefix(line@, prefix@),
{
    if prefix.len() > line.len() {
        return false;
    }
    let mut i: usize = 0;
    while i < prefix.len()
        invariant
            i <= prefix.len() <= line.len(),
            forall|j: int| 0 <= j < i ==> line@[j] == prefix@[j],
        decreases prefix.len() - i,
    {
        if line[i] != prefix[i] {
            assert(line@.subrange(0, prefix@.len() as int)[i as int] != prefix@[i as int]);
            return false;
        }
        i += 1;
    }
    assert(line@.subrange(0, prefix@.len() as int) =~= prefix@);
    true
}

/// Appends `bytes` to `out`.
pub fn append(out: &mut Vec<u8>, bytes: &[u8])
    ensures
        final(out)@ == old(out)@ + bytes@,
{
    let mut i: usize = 0;
    while i < bytes.len()
        invariant
            i <= bytes.len(),
            out@ == old(out)@ + bytes@.take(i as int),
        decreases bytes.len() - i,
    {
        out.push(bytes[i]);
        assert(out@ =~= old(out)@ + bytes@.take(i + 1));
        i += 1;
    }
    assert(bytes@.take(i as int) =~= bytes@);
}

/// A fresh copy of `bytes`.
pub fn copy_of(bytes: &[u8]) -> (out: Vec<u8>)
    ensures
        out@ == bytes@,
{
    let mut out: Vec<u8> = Vec::new();
    append(&mut out, bytes);
    assert(out@ =~= bytes@);
    out
}

/// Splits `text` at its line feeds.
pub fn split_lines(text: &[u8]) -> (lines: Vec<Vec<u8>>)
    ensures
        views(lines@) == lines_of(text@),
{
    let mut lines: Vec<Vec<u8>> = Vec::new();
    let mut current: Vec<u8> = Vec::new();
    let mut i: usize = 0;
    assert(views(lines@).push(current@) =~= lines_of(text@.take(0)));
    while i < text.len()
        invariant
            i <= text.len(),
            lines_of(text@.take(i as int)) == views(lines@).push(current@),
        decreases text.len() - i,
    {
        let ghost before = views(lines@).push(current@);
        assert(text@.take(i + 1).drop_last() =~= text@.take(i as int));
        if text[i] == NEWLINE {
            lines.push(current);
            current = Vec::new();
            assert(views(lines@).push(current@) =~= before.push(Seq::empty()));
        } else {
            current.push(text[i]);
            assert(views(lines@).push(current@) =~= before.drop_last().push(
                before.last().push(text@[i as int]),
            ));
        }
        i += 1;
    }
    assert(text@.take(i as int) =~= text@);
    let ghost done = views(lines@).push(current@);
    lines.push(current);
    assert(views(lines@) =~= done);
    lines
}

/// Puts `lines` together with one line feed between neighbours.
pub fn join_lines(lines: &Vec<Vec<u8>>) -> (text: Vec<u8>)
    ensures
        text@ == joined(views(lines@)),
{
    let mut text: Vec<u8> = Vec::new();
    let mut i: usize = 0;
    while i < lines.len()
        invariant
            i <= lines.len(),
            text@ == joined(views(lines@).take(i as int)),
        decreases lines.len() - i,
    {
        let ghost all = views(lines@);
        assert(all.take(i + 1).drop_last() =~= all.take(i as int));
        assert(all.take(i + 1).last() == lines@[i as int]@);
        if i > 0 {
            text.push(NEWLINE);
        }
        append(&mut text, lines[i].as_slice());
        assert(text@ =~= joined(all.take(i + 1)));
        i += 1;
    }
    assert(views(lines@).take(i as int) =~= views(lines@));
    text
}

/// Appends `v` in decimal to `out`.
pub fn push_decimal(out: &mut Vec<u8>, v: i8)
    ensures
        final(out)@ == old(out)@ + decimal(v as int),
{
    let ghost before = out@;
    let magnitude: u8 = if v < 0 {
        out.push(45);
        (-(v as i16)) as u8
    } else {
        v as u8
    };
    let ghost signed = out@;
    assert(magnitude as int == (if v < 0 { -(v as int) } else { v as int }));
    if magnitude >= 100 {
        out.push(48 + magnitude / 100);
    }
    if magnitude >= 10 {
        out.push(48 + (magnitude / 10) % 10);
    }
    out.push(48 + magnitude % 10);
    proof {
        let n = magnitude as nat;
        reveal_with_fuel(digits, 3);
        if n >= 100 {
            assert(digits(n) =~= seq![(48 + n / 100) as u8, (48 + (n / 10) % 10) as u8, (48 + n
                % 10) as u8]);
        } else if n >= 10 {
            assert(digits(n) =~= seq![(48 + n / 10) as u8, (48 + n % 10) as u8]);
        } else {
            assert(digits(n) =~= seq![(48 + n) as u8]);
        }
        assert(out@ =~= signed + digits(n));
        assert(out@ =~= before + decimal(v as int));
    }
}

} // verus!
