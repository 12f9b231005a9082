use vstd::prelude::*;
use vstd::string::*;
use crate::errors::EvalError;

verus! {

/// An operator character: always a token of its own.
pub open spec fn is_op_char(c: char) -> bool {
    c == '+' || c == '-' || c == '*' || c == '/'
}

/// A decimal digit.
pub open spec fn is_digit_char(c: char) -> bool {
    '0' <= c && c <= '9'
}

/// Whitespace accepted between tokens: the ASCII whitespace characters.
pub open spec fn is_space_char(c: char) -> bool {
    c == ' ' || c == '\t' || c == '\n' || c == '\r' || c == '\u{c}'
}

/// One step of cleaning per character, scanned left to right. `acc` is the
/// canonical text built so far (never ending in a space); `pending` records
/// that a separator is owed before the next token character. An operator is
/// always preceded and followed by a token boundary; digits and decimal
/// points extend the current numeric run; whitespace only owes a separator;
/// any other character makes the whole line invalid.
pub open spec fn clean_rec(s: Seq<char>, i: int, acc: Seq<char>, pending: bool) -> Option<
    Seq<char>,
>
    decreases s.len() - i,
{
    if i < 0 || i >= s.len() {
        Some(acc)
    } else {
        let c = s[i];
        if is_op_char(c) {
            let sep = if acc.len() > 0 {
                acc.push(' ')
            } else {
                acc
            };
            clean_rec(s, i + 1, sep.push(c), true)
        } else if is_digit_char(c) || c == '.' {
            let sep = if pending && acc.len() > 0 {
                acc.push(' ')
            } else {
                acc
            };
            clean_rec(s, i + 1, sep.push(c), false)
        } else if is_space_char(c) {
            clean_rec(s, i + 1, acc, true)
        } else {
            None
        }
    }
}

/// The canonical postfix form of one raw line: tokens separated by single
/// spaces, with no leading or trailing space, operators split from adjacent
/// numeric runs. `None` when the line holds an invalid character.
pub open spec fn clean_spec(s: Seq<char>) -> Option<Seq<char>> {
    clean_rec(s, 0, Seq::empty(), false)
}

/// Canonical postfix text: only operators, digits, decimal points and
/// spaces; no two spaces in a row; no leading or trailing space; and every
/// operator separated from its neighbours by a space, so that an operator is
/// never glued to a numeric run.
pub open spec fn canonical_text(t: Seq<char>) -> bool {
    &&& forall|k: int|
        0 <= k < t.len() ==> is_op_char(#[trigger] t[k]) || is_digit_char(t[k]) || t[k] == '.'
            || t[k] == ' '
    &&& forall|k: int| 0 <= k < t.len() - 1 ==> !((#[trigger] t[k]) == ' ' && t[k + 1] == ' ')
    &&& t.len() > 0 ==> t[0] != ' ' && t.last() != ' '
    &&& forall|k: int|
        0 <= k < t.len() && is_op_char(#[trigger] t[k]) ==> (k == 0 || t[k - 1] == ' ') && (k
            == t.len() - 1 || t[k + 1] == ' ')
}

proof fn lemma_clean_rec_canonical(s: Seq<char>, i: int, acc: Seq<char>, pending: bool)
    requires
        0 <= i <= s.len(),
        canonical_text(acc),
        !pending && acc.len() > 0 ==> is_digit_char(acc.last()) || acc.last() == '.',
        clean_rec(s, i, acc, pending) is Some,
    ensures
        canonical_text(clean_rec(s, i, acc, pending)->Some_0),
    decreases s.len() - i,
{
    if i < s.len() {
        let c = s[i];
        if is_op_char(c) {
            let sep = if acc.len() > 0 {
                acc.push(' ')
            } else {
                acc
            };
            assert(canonical_text(sep.push(c)));
            lemma_clean_rec_canonical(s, i + 1, sep.push(c), true);
        } else if is_digit_char(c) || c == '.' {
            let sep = if pending && acc.len() > 0 {
                acc.push(' ')
            } else {
                acc
            };
            assert(canonical_text(sep.push(c)));
            lemma_clean_rec_canonical(s, i + 1, sep.push(c), false);
        } else {
            lemma_clean_rec_canonical(s, i + 1, acc, true);
        }
    }
}

/// Whatever line the tokenizer accepts, it cleans to canonical text:
/// operators and numeric runs separated by single spaces, extraneous
/// whitespace collapsed, a boundary before and after every operator, and no
/// space at either end.
pub proof fn lemma_clean_spec_canonical(s: Seq<char>)
    requires
        clean_spec(s) is Some,
    ensures
        canonical_text(clean_spec(s)->Some_0),
{
    assert(canonical_text(Seq::<char>::empty()));
    lemma_clean_rec_canonical(s, 0, Seq::empty(), false);
}

/// Turns one raw input line into its canonical postfix token string, or
/// reports the invalid character that makes the whole batch invalid. A line
/// of nothing but whitespace cleans to the empty string.
pub fn clean_line(line: &str) -> (r: Result<String, EvalError>)
    ensures
        match r {
            Ok(t) => clean_spec(line@) == Some(t@),
            Err(e) => clean_spec(line@) is None && e == EvalError::InvalidCharacter,
        },
{
    let n = line.unicode_len();
    let mut out = String::new();
    let mut pending = false;
    let mut i: usize = 0;
    while i < n
        invariant
            n == line@.len(),
            0 <= i <= n,
            clean_rec(line@, i as int, out@, pending) == clean_spec(line@),
        decreases n - i,
    {
        let c = line.get_char(i);
        if c == '+' || c == '-' || c == '*' || c == '/' {
            if !out.as_str().is_empty() {
                out.push(' ');
            }
            out.push(c);
            pending = true;
        } else if ('0' <= c && c <= '9') || c == '.' {
            if pending && !out.as_str().is_empty() {
                out.push(' ');
            }
            out.push(c);
            pending = false;
        } else if c == ' ' || c == '\t' || c == '\n' || c == '\r' || c == '\u{c}' {
            pending = true;
        } else {
            return Err(EvalError::InvalidCharacter);
        }
        i = i + 1;
    }
    Ok(out)
}

} // verus!
