//! The lines of the input.

use vstd::prelude::*;

verus! {

/// The character that ends a line.
pub open spec fn is_break(c: char) -> bool {
    c == '\n'
}

/// How many characters stand before the first line break of `text`: all of
/// them where it has none.
pub open spec fn first_line_len(text: Seq<char>) -> nat
    decreases text.len(),
{
    if text.len() == 0 || is_break(text[0]) {
        0
    } else {
        1 + first_line_len(text.drop_first())
    }
}

/// The lines of `text`. A line ends at a line break or at the end of the
/// text; the break belongs to no line. A break at the very end opens no
/// further line, so the empty text has no lines at all.
pub open spec fn lines_of(text: Seq<char>) -> Seq<Seq<char>>
    decreases text.len(),
{
    if text.len() == 0 {
        Seq::empty()
    } else {
        let n = first_line_len(text) as int;
        let rest = if n < text.len() {
            text.skip(n + 1)
        } else {
            Seq::empty()
        };
        seq![text.take(n)] + lines_of(rest)
    }
}

/// No character of `text` ends a line.
pub open spec fn unbroken(text: Seq<char>) -> bool {
    forall|i: int| 0 <= i < text.len() ==> !is_break(#[trigger] text[i])
}

proof fn lemma_first_line_len_after(head: Seq<char>, tail: Seq<char>)
    requires
        unbroken(head),
    ensures
        first_line_len(head + tail) == head.len() + first_line_len(tail),
    decreases head.len(),
{
    if head.len() == 0 {
        assert(head + tail =~= tail);
    } else {
        assert(!is_break(head[0]));
        assert((head + tail)[0] == head[0]);
        assert((head + tail).drop_first() =~= head.drop_first() + tail);
        assert forall|i: int| 0 <= i < head.drop_first().len() implies !is_break(
            #[trigger] head.drop_first()[i],
        ) by {
            assert(head.drop_first()[i] == head[i + 1]);
        }
        lemma_first_line_len_after(head.drop_first(), tail);
    }
}

/// A text that ends without a line break is one line, unless it is empty.
proof fn lemma_lines_of_unbroken(text: Seq<char>)
    requires
        unbroken(text),
    ensures
        lines_of(text) == if text.len() == 0 {
            Seq::<Seq<char>>::empty()
        } else {
            seq![text]
        },
{
    if text.len() > 0 {
        lemma_first_line_len_after(text, Seq::empty());
        assert(text + Seq::<char>::empty() =~= text);
        assert(first_line_len(Seq::<char>::empty()) == 0);
        assert(text.take(text.len() as int) =~= text);
        assert(lines_of(Seq::<char>::empty()) =~= Seq::<Seq<char>>::empty());
        assert(lines_of(text) =~= seq![text]);
    }
}

/// The first line break of a text closes its first line; the other lines are
/// those of what follows the break.
proof fn lemma_lines_of_broken(head: Seq<char>, tail: Seq<char>)
    requires
        unbroken(head),
    ensures
        lines_of(head + seq!['\n'] + tail) == seq![head] + lines_of(tail),
{
    let text = head + seq!['\n'] + tail;
    let after = seq!['\n'] + tail;
    assert(text =~= head + after);
    lemma_first_line_len_after(head, after);
    assert(is_break(after[0]));
    assert(first_line_len(after) == 0);
    let n = head.len() as int;
    assert(text.take(n) =~= head);
    assert(text.skip(n + 1) =~= tail);
}

/// The first line ends within the text, at a line break if before the end.
pub proof fn lemma_first_line_len_bound(text: Seq<char>)
    ensures
        first_line_len(text) <= text.len(),
        first_line_len(text) < text.len() ==> is_break(text[first_line_len(text) as int]),
    decreases text.len(),
{
    if text.len() == 0 || is_break(text[0]) {
    } else {
        lemma_first_line_len_bound(text.drop_first());
    }
}

/// No line break stands before the first.
pub proof fn lemma_unbroken_before_first_break(text: Seq<char>)
    ensures
        unbroken(text.take(first_line_len(text) as int)),
    decreases text.len(),
{
    lemma_first_line_len_bound(text);
    if text.len() == 0 || is_break(text[0]) {
    } else {
        let tail = text.drop_first();
        lemma_unbroken_before_first_break(tail);
        lemma_first_line_len_bound(tail);
        let n = first_line_len(text) as int;
        assert forall|i: int| 0 <= i < n implies !is_break(#[trigger] text.take(n)[i]) by {
            if i > 0 {
                assert(text.take(n)[i] == tail.take(n - 1)[i - 1]);
            }
        }
    }
}

/// Splits the input into its lines.
pub fn split_lines(input: &str) -> (lines: Vec<String>)
    ensures
        lines.deep_view() == lines_of(input@),
{
    broadcast use vstd::string::group_string_axioms;

    let mut lines: Vec<String> = Vec::new();
    let mut current = String::new();
    proof {
        assert(current@ + input@.skip(0) =~= input@);
        assert(lines.deep_view() + lines_of(input@) =~= lines_of(input@));
    }
    for c in it: input.chars()
        invariant
            it.seq() == input@,
            unbroken(current@),
            lines_of(input@) == lines.deep_view() + lines_of(current@ + input@.skip(it.index())),
    {
        let ghost rest = input@.skip(it.index() + 1);
        let ghost before = current@;
        let ghost done = lines.deep_view();
        assert(input@.skip(it.index()) =~= seq![c] + rest);
        if c == '\n' {
            proof {
                lemma_lines_of_broken(before, rest);
                assert(before + input@.skip(it.index()) =~= before + seq!['\n'] + rest);
            }
            lines.push(current);
            current = String::new();
            assert(lines.deep_view() =~= done + seq![before]);
            assert(current@ + rest =~= rest);
        } else {
            current.push(c);
            assert(current@ + rest =~= before + input@.skip(it.index()));
        }
    }
    proof {
        assert(input@.skip(input@.len() as int) =~= Seq::<char>::empty());
        assert(current@ + Seq::<char>::empty() =~= current@);
        lemma_lines_of_unbroken(current@);
    }
    let ghost done = lines.deep_view();
    if !current.as_str().is_empty() {
        let ghost last = current@;
        lines.push(current);
        assert(lines.deep_view() =~= done + seq![last]);
    } else {
        assert(done + Seq::<Seq<char>>::empty() =~= done);
    }
    lines
}

} // verus!
