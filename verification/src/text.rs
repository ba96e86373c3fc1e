//! Text handling: the characters of a string and the lines of a body.

use vstd::prelude::*;
use vstd::std_specs::iter::IteratorSpec;

verus! {

/// The characters of `s`, in order.
pub fn chars_of(s: &str) -> (out: Vec<char>)
    ensures
        out@ == s@,
{
    let mut out: Vec<char> = Vec::new();
    let mut it = s.chars();
    proof {
        vstd::string::axiom_spec_iter(s);
    }
    loop
        invariant
            it.obeys_prophetic_iter_laws(),
            it.decrease() is Some,
            out@ + it.remaining() == s@,
        decreases it.decrease()->0,
    {
        let ghost before = it;
        let next = it.next();
        proof {
            vstd::string::next_postcondition(&before, &it, next);
        }
        match next {
            Some(c) => {
                out.push(c);
                assert(out@ + it.remaining() =~= s@);
            },
            None => {
                assert(out@ =~= s@);
                return out;
            },
        }
    }
}

/// The number of characters from position `from` up to the next line feed, or up to the
/// end of the text where none follows.
pub open spec fn line_len(text: Seq<char>, from: int) -> nat
    decreases text.len() - from,
{
    if 0 <= from < text.len() && text[from] != '\n' {
        1 + line_len(text, from + 1)
    } else {
        0
    }
}

/// A line ends within the text.
pub proof fn lemma_line_ends_inside(text: Seq<char>, from: int)
    requires
        0 <= from <= text.len(),
    ensures
        from + line_len(text, from) <= text.len(),
    decreases text.len() - from,
{
    if from < text.len() && text[from] != '\n' {
        lemma_line_ends_inside(text, from + 1);
    }
}

/// The line that starts at position `from`: the characters up to the next line feed,
/// without a carriage return that stands right before that line feed.
pub open spec fn line_at(text: Seq<char>, from: int) -> Seq<char> {
    let end = from + line_len(text, from);
    let raw = text.subrange(from, end);
    if end < text.len() && raw.len() > 0 && raw.last() == '\r' {
        raw.drop_last()
    } else {
        raw
    }
}

/// The lines of the text from position `from` on.
pub open spec fn lines_from(text: Seq<char>, from: int) -> Seq<Seq<char>>
    decreases text.len() + 1 - from,
{
    if from < 0 || from >= text.len() {
        Seq::empty()
    } else {
        proof {
            lemma_line_ends_inside(text, from);
        }
        seq![line_at(text, from)] + lines_from(text, from + line_len(text, from) + 1)
    }
}

/// The lines of a text. Lines end with a line feed, or with a carriage return and a line
/// feed; the last line need not end with either.
pub open spec fn lines(text: Seq<char>) -> Seq<Seq<char>> {
    lines_from(text, 0)
}

/// Splits a text into its lines.
pub fn split_lines(text: &Vec<char>) -> (out: Vec<Vec<char>>)
    ensures
        crate::ast::rows_view(out@) == lines(text@),
{
    let n = text.len();
    let mut out: Vec<Vec<char>> = Vec::new();
    let mut from: usize = 0;
    assert(crate::ast::rows_view(out@) + lines_from(text@, 0) =~= lines(text@));
    while from < n
        invariant
            n == text@.len(),
            from <= n,
            crate::ast::rows_view(out@) + lines_from(text@, from as int) == lines(text@),
        decreases n - from,
    {
        let mut line: Vec<char> = Vec::new();
        let mut end: usize = from;
        while end < n && text[end] != '\n'
            invariant
                n == text@.len(),
                from <= end <= n,
                line@ == text@.subrange(from as int, end as int),
                line_len(text@, from as int) == (end - from) + line_len(text@, end as int),
            decreases n - end,
        {
            line.push(text[end]);
            end += 1;
            assert(line@ =~= text@.subrange(from as int, end as int));
        }
        if end < n && line.len() > 0 && line[line.len() - 1] == '\r' {
            line.pop();
            assert(line@ =~= text@.subrange(from as int, end as int).drop_last());
        }
        assert(line@ == line_at(text@, from as int));
        let ghost before = crate::ast::rows_view(out@);
        let ghost added = line@;
        out.push(line);
        proof {
            assert(crate::ast::rows_view(out@) =~= before + seq![added]);
            assert(crate::ast::rows_view(out@) + lines_from(text@, end + 1) =~= before + (seq![
                added,
            ] + lines_from(text@, end + 1)));
        }
        if end < n {
            from = end + 1;
        } else {
            assert(lines_from(text@, end + 1) =~= lines_from(text@, n as int));
            from = n;
        }
    }
    assert(lines_from(text@, from as int) =~= Seq::<Seq<char>>::empty());
    assert(crate::ast::rows_view(out@) =~= lines(text@));
    out
}

} // verus!
