//! Where a byte offset falls among the lines of the input.

use vstd::prelude::*;
use vstd::utf8::{encode_scalar, encode_utf8};

use crate::lines::{
    first_line_len, is_break, lemma_first_line_len_bound, lemma_unbroken_before_first_break,
    lines_of,
};

verus! {

/// The number of bytes that `text` takes in the input.
pub open spec fn byte_len(text: Seq<char>) -> nat {
    encode_utf8(text).len()
}

/// The byte offset at which line `j` starts: every line before it takes its
/// bytes and one more for its line break.
pub open spec fn line_start(lines: Seq<Seq<char>>, j: nat) -> nat
    decreases j,
{
    if j == 0 {
        0
    } else {
        line_start(lines, (j - 1) as nat) + byte_len(lines[j - 1]) + 1
    }
}

/// `offset` falls on line `j`: at one of its bytes, or at its end. The
/// position of a line's break counts as the end of that line, not as the
/// start of the next.
pub open spec fn on_line(lines: Seq<Seq<char>>, offset: nat, j: nat) -> bool {
    &&& j < lines.len()
    &&& line_start(lines, j) <= offset <= line_start(lines, j) + byte_len(lines[j as int])
}

/// The line that `offset` falls on and the column within it, both counted
/// from 0, the column in bytes. An offset that falls on no line is put at the
/// start of the first.
pub open spec fn locate(lines: Seq<Seq<char>>, offset: nat) -> (nat, nat) {
    if exists|j: nat| on_line(lines, offset, j) {
        let j = choose|j: nat| on_line(lines, offset, j);
        (j, (offset - line_start(lines, j)) as nat)
    } else {
        (0, 0)
    }
}

/// Later lines start after earlier lines have ended.
pub proof fn lemma_line_start_grows(lines: Seq<Seq<char>>, i: nat, j: nat)
    requires
        i < j,
    ensures
        line_start(lines, i) + byte_len(lines[i as int]) < line_start(lines, j),
    decreases j,
{
    if i + 1 < j {
        lemma_line_start_grows(lines, i, (j - 1) as nat);
    }
}

/// An offset falls on one line at most, and `locate` names that line with the
/// distance from its start.
pub proof fn lemma_locate_on_line(lines: Seq<Seq<char>>, offset: nat, j: nat)
    requires
        on_line(lines, offset, j),
    ensures
        locate(lines, offset) == (j, (offset - line_start(lines, j)) as nat),
{
    let k = choose|k: nat| on_line(lines, offset, k);
    if k < j {
        lemma_line_start_grows(lines, k, j);
    } else if j < k {
        lemma_line_start_grows(lines, j, k);
    }
}

/// Every offset up to the end of the last line falls on a line.
pub proof fn lemma_offset_within_falls_on_line(lines: Seq<Seq<char>>, offset: nat)
    requires
        offset < line_start(lines, lines.len()),
    ensures
        on_line(lines, offset, locate(lines, offset).0),
        line_start(lines, locate(lines, offset).0) + locate(lines, offset).1 == offset,
{
    lemma_offset_within_prefix(lines, offset, lines.len());
    let j = choose|j: nat| on_line(lines, offset, j);
    assert(on_line(lines, offset, j));
}

proof fn lemma_offset_within_prefix(lines: Seq<Seq<char>>, offset: nat, n: nat)
    requires
        n <= lines.len(),
        offset < line_start(lines, n),
    ensures
        exists|j: nat| on_line(lines, offset, j),
    decreases n,
{
    if n > 0 {
        let j = (n - 1) as nat;
        if line_start(lines, j) <= offset {
            assert(on_line(lines, offset, j));
        } else {
            lemma_offset_within_prefix(lines, offset, j);
        }
    }
}

/// An offset past the end of the last line falls on no line, and `locate`
/// answers with the start of the first.
pub proof fn lemma_offset_beyond_falls_nowhere(lines: Seq<Seq<char>>, offset: nat)
    requires
        offset >= line_start(lines, lines.len()),
    ensures
        locate(lines, offset) == (0nat, 0nat),
{
    assert forall|j: nat| !on_line(lines, offset, j) by {
        if j < lines.len() {
            lemma_line_start_grows(lines, j, lines.len());
        }
    }
}

/// Finds the line and column of a byte offset among `lines`.
pub fn locate_offset(lines: &Vec<String>, offset: usize) -> (place: (usize, usize))
    ensures
        (place.0 as nat, place.1 as nat) == locate(lines.deep_view(), offset as nat),
        lines.len() > 0 ==> place.0 < lines.len(),
{
    let ghost texts = lines.deep_view();
    let mut rest: usize = offset;
    let mut j: usize = 0;
    while j < lines.len()
        invariant
            j <= lines.len(),
            texts == lines.deep_view(),
            line_start(texts, j as nat) + rest == offset,
            forall|k: nat| k < j ==> !on_line(texts, offset as nat, k),
        decreases lines.len() - j,
    {
        let len = lines[j].as_str().as_bytes().len();
        assert(texts[j as int] == lines[j as int]@);
        if rest <= len {
            proof {
                assert(on_line(texts, offset as nat, j as nat));
                lemma_locate_on_line(texts, offset as nat, j as nat);
            }
            return (j, rest);
        }
        rest = rest - len - 1;
        j += 1;
    }
    (0, 0)
}

proof fn lemma_bytes_of_concat(a: Seq<char>, b: Seq<char>)
    ensures
        encode_utf8(a + b) == encode_utf8(a) + encode_utf8(b),
    decreases a.len(),
{
    if a.len() == 0 {
        assert(a + b =~= b);
        assert(encode_utf8(a) + encode_utf8(b) =~= encode_utf8(b));
    } else {
        assert((a + b).drop_first() =~= a.drop_first() + b);
        lemma_bytes_of_concat(a.drop_first(), b);
        assert(encode_utf8(a + b) =~= encode_utf8(a) + encode_utf8(b));
    }
}

proof fn lemma_break_is_one_byte()
    ensures
        encode_utf8(seq!['\n']) == seq![10u8],
{
    let s = seq!['\n'];
    assert(s.drop_first() =~= Seq::<char>::empty());
    assert(s[0] as u32 == 10u32);
    assert((10u32 & 0x7F) as u8 == 10u8) by (bit_vector);
    assert(encode_scalar(10u32) =~= seq![10u8]);
    assert(encode_utf8(Seq::<char>::empty()) =~= Seq::<u8>::empty());
    assert(encode_utf8(s) =~= seq![10u8]);
}

proof fn lemma_line_start_after_first(first: Seq<char>, others: Seq<Seq<char>>, j: nat)
    requires
        j <= others.len(),
    ensures
        line_start(seq![first] + others, j + 1) == byte_len(first) + 1 + line_start(others, j),
    decreases j,
{
    let all = seq![first] + others;
    if j == 0 {
        assert(all[0] == first);
        assert(line_start(all, 1) == line_start(all, 0) + byte_len(all[0]) + 1);
    } else {
        lemma_line_start_after_first(first, others, (j - 1) as nat);
        assert(all[j as int] == others[j - 1]);
    }
}

/// Where the lines of a text stand in it: line `j` takes the bytes of the
/// text from `line_start` of `j` on, and what follows it, if anything does,
/// is a line break.
pub proof fn lemma_line_stands_at_its_start(text: Seq<char>, j: nat)
    requires
        j < lines_of(text).len(),
    ensures
        ({
            let lines = lines_of(text);
            let from = line_start(lines, j) as int;
            let to = from + byte_len(lines[j as int]);
            &&& to <= byte_len(text)
            &&& encode_utf8(text).subrange(from, to) == encode_utf8(lines[j as int])
            &&& to < byte_len(text) ==> encode_utf8(text)[to] == 10u8
        }),
    decreases text.len(),
{
    let n = first_line_len(text) as int;
    lemma_first_line_len_bound(text);
    let first = text.take(n);
    if n == text.len() {
        assert(lines_of(Seq::<char>::empty()) =~= Seq::<Seq<char>>::empty());
        assert(lines_of(text) =~= seq![first]);
        assert(first =~= text);
        assert(encode_utf8(text).subrange(0, byte_len(text) as int) =~= encode_utf8(text));
    } else {
        let rest = text.skip(n + 1);
        let others = lines_of(rest);
        let lines = seq![first] + others;
        assert(lines_of(text) == lines);
        assert(text =~= first + (seq!['\n'] + rest));
        lemma_bytes_of_concat(first, seq!['\n'] + rest);
        lemma_bytes_of_concat(seq!['\n'], rest);
        lemma_break_is_one_byte();
        let bytes = encode_utf8(text);
        assert(bytes == encode_utf8(first) + (seq![10u8] + encode_utf8(rest)));
        if j == 0 {
            assert(lines[0] == first);
            assert(bytes.subrange(0, byte_len(first) as int) =~= encode_utf8(first));
        } else {
            let k = (j - 1) as nat;
            lemma_line_stands_at_its_start(rest, k);
            lemma_line_start_after_first(first, others, k);
            assert(lines[j as int] == others[k as int]);
            let shift = byte_len(first) + 1;
            let from = line_start(others, k) as int;
            let to = from + byte_len(others[k as int]);
            assert(bytes.subrange(shift + from, shift + to) =~= encode_utf8(rest).subrange(
                from,
                to,
            ));
        }
    }
}

/// The lines of a text cover it: they end where the text ends, with one
/// byte to spare where the last line has no line break of its own.
pub proof fn lemma_lines_cover_text(text: Seq<char>)
    ensures
        line_start(lines_of(text), lines_of(text).len()) == byte_len(text) + if text.len() > 0
            && !is_break(text.last()) {
            1nat
        } else {
            0nat
        },
    decreases text.len(),
{
    if text.len() == 0 {
        assert(lines_of(text) =~= Seq::<Seq<char>>::empty());
    } else {
        let n = first_line_len(text) as int;
        lemma_first_line_len_bound(text);
        let first = text.take(n);
        if n == text.len() {
            assert(lines_of(Seq::<char>::empty()) =~= Seq::<Seq<char>>::empty());
            let lines = seq![first];
            assert(lines_of(text) =~= lines);
            assert(first =~= text);
            assert(line_start(lines, 1) == line_start(lines, 0) + byte_len(lines[0]) + 1);
            assert(!is_break(text.last())) by {
                lemma_unbroken_before_first_break(text);
                assert(first[n - 1] == text.last());
            }
        } else {
            let rest = text.skip(n + 1);
            let others = lines_of(rest);
            lemma_lines_cover_text(rest);
            lemma_line_start_after_first(first, others, others.len());
            assert(text =~= first + (seq!['\n'] + rest));
            lemma_bytes_of_concat(first, seq!['\n'] + rest);
            lemma_bytes_of_concat(seq!['\n'], rest);
            lemma_break_is_one_byte();
            assert((seq![first] + others).len() == others.len() + 1);
            if rest.len() > 0 {
                assert(rest.last() == text.last());
            } else {
                assert(text.last() == text[n]);
            }
        }
    }
}

/// The caret stands under the byte at which the failure happened. For an
/// offset inside the text, the line and column that `locate` finds are those
/// of the byte at that offset: the same byte stands at that column of that
/// line. Where the byte is a line break, the column is the end of the line
/// that the break closes.
pub proof fn lemma_locate_points_at_the_byte(text: Seq<char>, offset: nat)
    requires
        offset < byte_len(text),
    ensures
        ({
            let lines = lines_of(text);
            let (line, column) = locate(lines, offset);
            &&& line < lines.len()
            &&& line_start(lines, line) + column == offset
            &&& column <= byte_len(lines[line as int])
            &&& column < byte_len(lines[line as int]) ==> encode_utf8(
                lines[line as int],
            )[column as int] == encode_utf8(text)[offset as int]
            &&& column == byte_len(lines[line as int]) ==> encode_utf8(text)[offset as int]
                == 10u8
        }),
{
    let lines = lines_of(text);
    lemma_lines_cover_text(text);
    lemma_offset_within_falls_on_line(lines, offset);
    let (line, column) = locate(lines, offset);
    lemma_line_stands_at_its_start(text, line);
    let from = line_start(lines, line) as int;
    let to = from + byte_len(lines[line as int]);
    if column < byte_len(lines[line as int]) {
        assert(encode_utf8(text).subrange(from, to)[column as int] == encode_utf8(text)[from
            + column]);
    }
}

} // verus!
