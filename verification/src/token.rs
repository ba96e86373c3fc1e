//! The tokenizer: one line of the artwork to one token.

use vstd::prelude::*;
use crate::ast::{Token, TokenView};
use crate::error::CompileError;
use crate::text::chars_of;

verus! {

/// The marker of a frame: two hashes and a space.
pub open spec fn frame_marker() -> Seq<char> {
    seq!['#', '#', ' ']
}

/// The marker of a layer: a hash and a space.
pub open spec fn layer_marker() -> Seq<char> {
    seq!['#', ' ']
}

/// Whether `pattern` stands in `line` at position `at`.
pub open spec fn occurs_at(line: Seq<char>, pattern: Seq<char>, at: int) -> bool {
    0 <= at && at + pattern.len() <= line.len() && line.subrange(at, at + pattern.len())
        == pattern
}

/// Whether `pattern` stands anywhere in `line`.
pub open spec fn contains(line: Seq<char>, pattern: Seq<char>) -> bool {
    exists|at: int| occurs_at(line, pattern, at)
}

/// Whether `at` is the first position at which `pattern` stands in `line`.
pub open spec fn first_at(line: Seq<char>, pattern: Seq<char>, at: int) -> bool {
    occurs_at(line, pattern, at) && forall|before: int|
        0 <= before < at ==> !occurs_at(line, pattern, before)
}

/// What follows the first occurrence of `pattern` in `line`; all of `line` where there is
/// none.
pub open spec fn after_first(line: Seq<char>, pattern: Seq<char>) -> Seq<char> {
    if contains(line, pattern) {
        let at = choose|at: int| first_at(line, pattern, at);
        line.subrange(at + pattern.len(), line.len() as int)
    } else {
        line
    }
}

/// Whether `c` is one of the digits `0` to `9`.
pub open spec fn is_digit(c: char) -> bool {
    '0' <= c <= '9'
}

/// The number that a sequence of digits denotes in base ten.
pub open spec fn decimal(digits: Seq<char>) -> nat
    decreases digits.len(),
{
    if digits.len() == 0 {
        0
    } else {
        (decimal(digits.drop_last()) * 10 + (digits.last() as u32 - '0' as u32)) as nat
    }
}

/// The digits of an index: the text itself, without a plus sign in front.
pub open spec fn unsigned_part(text: Seq<char>) -> Seq<char> {
    if text.len() > 0 && text[0] == '+' {
        text.drop_first()
    } else {
        text
    }
}

/// The index that `text` denotes: one or more digits, with or without a plus sign in front,
/// whose value fits `usize`. Anything else, a space included, denotes none.
pub open spec fn index_of(text: Seq<char>) -> Option<usize> {
    let digits = unsigned_part(text);
    if digits.len() > 0 && (forall|i: int| 0 <= i < digits.len() ==> is_digit(#[trigger] digits[i]))
        && decimal(digits) <= usize::MAX {
        Some(decimal(digits) as usize)
    } else {
        None
    }
}

/// The token of a line. A line that holds the frame marker anywhere is a frame marker, and
/// otherwise one that holds the layer marker anywhere is a layer marker; the index is what
/// follows the first occurrence of the marker, up to the end of the line. Any other line is
/// a row.
pub open spec fn classify(line: Seq<char>) -> Result<TokenView, CompileError> {
    if contains(line, frame_marker()) {
        match index_of(after_first(line, frame_marker())) {
            Some(n) => Ok(TokenView::Frame(n)),
            None => Err(CompileError::Syntax),
        }
    } else if contains(line, layer_marker()) {
        match index_of(after_first(line, layer_marker())) {
            Some(n) => Ok(TokenView::Layer(n)),
            None => Err(CompileError::Syntax),
        }
    } else {
        Ok(TokenView::Normal(line))
    }
}

/// A line is a marker only if it holds a hash followed by a space, and after its marker an
/// index up to the end of the line; so a blank line and a line without a marker are rows.
pub proof fn lemma_marker_needs_hash(line: Seq<char>)
    ensures
        !contains(line, layer_marker()) ==> classify(line) == Ok::<TokenView, CompileError>(
            TokenView::Normal(line),
        ),
        line.len() == 0 ==> classify(line) == Ok::<TokenView, CompileError>(
            TokenView::Normal(line),
        ),
        classify(line) is Ok && !(classify(line)->Ok_0 is Normal) ==> contains(
            line,
            layer_marker(),
        ),
        classify(line) matches Ok(TokenView::Frame(n)) ==> contains(line, frame_marker())
            && index_of(after_first(line, frame_marker())) == Some(n),
        classify(line) matches Ok(TokenView::Layer(n)) ==> contains(line, layer_marker())
            && index_of(after_first(line, layer_marker())) == Some(n),
{
    if contains(line, frame_marker()) {
        let at = choose|at: int| occurs_at(line, frame_marker(), at);
        assert(line.subrange(at, at + 3)[1] == '#');
        assert(line.subrange(at, at + 3)[2] == ' ');
        assert(line.subrange(at + 1, at + 3) =~= layer_marker());
        assert(occurs_at(line, layer_marker(), at + 1));
    }
    if line.len() == 0 {
        assert forall|at: int| !occurs_at(line, layer_marker(), at) by {}
    }
}

/// Looks for the first occurrence of a pattern of two or three characters.
fn find(line: &Vec<char>, pattern: &Vec<char>) -> (found: Option<usize>)
    ensures
        found is Some == contains(line@, pattern@),
        found matches Some(at) ==> first_at(line@, pattern@, at as int),
{
    let n = line.len();
    let m = pattern.len();
    if m > n {
        return None;
    }
    let mut at: usize = 0;
    while at <= n - m
        invariant
            n == line@.len(),
            m == pattern@.len(),
            m <= n,
            at <= n - m + 1,
            forall|before: int| 0 <= before < at ==> !occurs_at(line@, pattern@, before),
        decreases n - m + 1 - at,
    {
        let mut k: usize = 0;
        while k < m && line[at + k] == pattern[k]
            invariant
                n == line@.len(),
                m == pattern@.len(),
                at + m <= n,
                k <= m,
                forall|j: int| 0 <= j < k ==> line@[at + j] == pattern@[j],
            decreases m - k,
        {
            k += 1;
        }
        if k == m {
            assert(line@.subrange(at as int, at + m) =~= pattern@);
            assert(occurs_at(line@, pattern@, at as int));
            return Some(at);
        }
        assert(!occurs_at(line@, pattern@, at as int)) by {
            if occurs_at(line@, pattern@, at as int) {
                assert(line@.subrange(at as int, at + m)[k as int] == pattern@[k as int]);
            }
        }
        at += 1;
    }
    None
}

/// A prefix of a sequence of digits denotes no more than the whole.
proof fn lemma_decimal_grows(digits: Seq<char>, n: int)
    requires
        0 <= n <= digits.len(),
        forall|i: int| 0 <= i < digits.len() ==> is_digit(#[trigger] digits[i]),
    ensures
        decimal(digits.subrange(0, n)) <= decimal(digits),
    decreases digits.len() - n,
{
    if n == digits.len() {
        assert(digits.subrange(0, n) =~= digits);
    } else {
        let longer = digits.subrange(0, n + 1);
        assert(longer.drop_last() =~= digits.subrange(0, n));
        assert(is_digit(digits[n]));
        lemma_decimal_grows(digits, n + 1);
    }
}

/// Reads an index from `line`, starting at `from`.
fn read_index(line: &Vec<char>, from: usize) -> (index: Option<usize>)
    requires
        from <= line@.len(),
    ensures
        index == index_of(line@.subrange(from as int, line@.len() as int)),
{
    let ghost text = line@.subrange(from as int, line@.len() as int);
    let ghost digits = unsigned_part(text);
    let start: usize = if from < line.len() && line[from] == '+' {
        from + 1
    } else {
        from
    };
    assert(digits =~= line@.subrange(start as int, line@.len() as int));
    if start == line.len() {
        return None;
    }
    let mut value: usize = 0;
    let mut i: usize = start;
    assert(digits.subrange(0, 0) =~= Seq::<char>::empty());
    while i < line.len()
        invariant
            start <= i <= line@.len(),
            from <= line@.len(),
            digits == unsigned_part(line@.subrange(from as int, line@.len() as int)),
            digits == line@.subrange(start as int, line@.len() as int),
            forall|k: int| 0 <= k < i - start ==> is_digit(#[trigger] digits[k]),
            value == decimal(digits.subrange(0, i - start)),
        decreases line@.len() - i,
    {
        let c = line[i];
        if !(c >= '0' && c <= '9') {
            assert(!is_digit(digits[i - start]));
            return None;
        }
        let d = (c as u32 - '0' as u32) as usize;
        proof {
            let longer = digits.subrange(0, i - start + 1);
            assert(longer.drop_last() =~= digits.subrange(0, i - start));
            assert(longer.last() == c);
            assert(decimal(longer) == value * 10 + d);
        }
        if value > (usize::MAX - d) / 10 {
            proof {
                if forall|k: int| 0 <= k < digits.len() ==> is_digit(#[trigger] digits[k]) {
                    lemma_decimal_grows(digits, i - start + 1);
                }
            }
            return None;
        }
        value = value * 10 + d;
        i += 1;
    }
    assert(digits.subrange(0, i - start) =~= digits);
    Some(value)
}

/// Classifies a line given as characters.
pub fn tokenize_chars(line: &Vec<char>) -> (token: Result<Token, CompileError>)
    ensures
        match token {
            Ok(t) => classify(line@) == Ok::<TokenView, CompileError>(t@),
            Err(e) => classify(line@) == Err::<TokenView, CompileError>(e),
        },
{
    let n = line.len();
    let frame: Vec<char> = vec!['#', '#', ' '];
    let layer: Vec<char> = vec!['#', ' '];
    assert(frame@ =~= frame_marker());
    assert(layer@ =~= layer_marker());
    match find(line, &frame) {
        Some(at) => {
            proof {
                lemma_first_is_unique(line@, frame_marker(), at as int);
                assert(frame_marker().len() == 3);
                assert(occurs_at(line@, frame_marker(), at as int));
                assert(at + 3 <= n);
            }
            match read_index(line, at + 3) {
                Some(n) => Ok(Token::Frame(n)),
                None => Err(CompileError::Syntax),
            }
        },
        None => match find(line, &layer) {
            Some(at) => {
                proof {
                    lemma_first_is_unique(line@, layer_marker(), at as int);
                    assert(layer_marker().len() == 2);
                    assert(occurs_at(line@, layer_marker(), at as int));
                    assert(at + 2 <= n);
                }
                match read_index(line, at + 2) {
                    Some(n) => Ok(Token::Layer(n)),
                    None => Err(CompileError::Syntax),
                }
            },
            None => Ok(Token::Normal(line.clone())),
        },
    }
}

/// There is one first occurrence, so what follows it is determined.
proof fn lemma_first_is_unique(line: Seq<char>, pattern: Seq<char>, at: int)
    requires
        first_at(line, pattern, at),
    ensures
        contains(line, pattern),
        after_first(line, pattern) == line.subrange(at + pattern.len(), line.len() as int),
{
    let chosen = choose|other: int| first_at(line, pattern, other);
    assert(first_at(line, pattern, chosen));
    assert(chosen == at) by {
        if chosen < at {
            assert(!occurs_at(line, pattern, chosen));
        }
        if at < chosen {
            assert(!occurs_at(line, pattern, at));
        }
    }
}

/// Classifies a line.
pub fn tokenize(s: &str) -> (token: Result<Token, CompileError>)
    ensures
        match token {
            Ok(t) => classify(s@) == Ok::<TokenView, CompileError>(t@),
            Err(e) => classify(s@) == Err::<TokenView, CompileError>(e),
        },
{
    let line = chars_of(s);
    tokenize_chars(&line)
}

} // verus!
