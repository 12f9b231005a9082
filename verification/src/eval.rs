use vstd::prelude::*;
use vstd::string::*;
use crate::ast::{Expr, Op, SpecExpr, render_spec};
use crate::errors::EvalError;
use crate::tokenizer::{is_digit_char, is_op_char, is_space_char};

verus! {

/// The whitespace-separated tokens of `s` from position `i` on: `cur` is the
/// token run in progress, `acc` the tokens already complete.
pub open spec fn split_rec(s: Seq<char>, i: int, cur: Seq<char>, acc: Seq<Seq<char>>) -> Seq<
    Seq<char>,
>
    decreases s.len() - i,
{
    if i < 0 || i >= s.len() {
        if cur.len() > 0 {
            acc.push(cur)
        } else {
            acc
        }
    } else if is_space_char(s[i]) {
        if cur.len() > 0 {
            split_rec(s, i + 1, Seq::empty(), acc.push(cur))
        } else {
            split_rec(s, i + 1, Seq::empty(), acc)
        }
    } else {
        split_rec(s, i + 1, cur.push(s[i]), acc)
    }
}

/// The whitespace-separated tokens of a token string.
pub open spec fn split_spec(s: Seq<char>) -> Seq<Seq<char>> {
    split_rec(s, 0, Seq::empty(), Seq::empty())
}

/// Splits a token string into its whitespace-separated tokens.
pub fn split_tokens(s: &str) -> (toks: Vec<String>)
    ensures
        toks@.map_values(|t: String| t@) == split_spec(s@),
{
    let n = s.unicode_len();
    let mut out: Vec<String> = Vec::new();
    let mut cur = String::new();
    let mut i: usize = 0;
    proof {
        assert(cur@ =~= Seq::<char>::empty());
        assert(out@.map_values(|t: String| t@) =~= Seq::<Seq<char>>::empty());
    }
    while i < n
        invariant
            n == s@.len(),
            0 <= i <= n,
            split_rec(s@, i as int, cur@, out@.map_values(|t: String| t@)) == split_spec(s@),
        decreases n - i,
    {
        let ghost prev_acc = out@.map_values(|t: String| t@);
        let c = s.get_char(i);
        if c == ' ' || c == '\t' || c == '\n' || c == '\r' || c == '\u{c}' {
            if !cur.as_str().is_empty() {
                out.push(cur);
                cur = String::new();
                proof {
                    assert(out@.map_values(|t: String| t@) =~= prev_acc.push(out@.last()@));
                    assert(cur@ =~= Seq::<char>::empty());
                }
            } else {
                proof {
                    assert(cur@ =~= Seq::<char>::empty());
                }
            }
        } else {
            cur.push(c);
        }
        i = i + 1;
    }
    if !cur.as_str().is_empty() {
        let ghost prev_acc = out@.map_values(|t: String| t@);
        out.push(cur);
        proof {
            assert(out@.map_values(|t: String| t@) =~= prev_acc.push(out@.last()@));
        }
    }
    out
}

/// A token that is exactly one operator character.
pub open spec fn is_operator_token(t: Seq<char>) -> bool {
    t.len() == 1 && is_op_char(t[0])
}

/// The operator spelled by an operator character.
pub open spec fn op_of_char(c: char) -> Op {
    if c == '+' {
        Op::Plus
    } else if c == '-' {
        Op::Minus
    } else if c == '*' {
        Op::Times
    } else {
        Op::Divide
    }
}

/// How many decimal points a token holds.
pub open spec fn count_dots(t: Seq<char>) -> int
    decreases t.len(),
{
    if t.len() == 0 {
        0
    } else {
        count_dots(t.drop_last()) + if t.last() == '.' {
            1int
        } else {
            0int
        }
    }
}

/// A valid numeric token: only digits and decimal points, at least one
/// digit, and at most one decimal point. On the tokenizer's alphabet this is
/// exactly the set of tokens that read as a floating-point literal. A bare
/// `-` is never a sign: negative literals are not supported.
pub open spec fn is_number_token(t: Seq<char>) -> bool {
    &&& t.len() > 0
    &&& forall|i: int| 0 <= i < t.len() ==> is_digit_char(#[trigger] t[i]) || t[i] == '.'
    &&& exists|i: int| 0 <= i < t.len() && is_digit_char(#[trigger] t[i])
    &&& count_dots(t) <= 1
}

/// Decides whether a token is a valid numeric token.
pub fn check_number_token(t: &str) -> (r: bool)
    ensures
        r == is_number_token(t@),
{
    let n = t.unicode_len();
    if n == 0 {
        return false;
    }
    let mut dots: usize = 0;
    let mut has_digit = false;
    let mut i: usize = 0;
    while i < n
        invariant
            n == t@.len(),
            0 <= i <= n,
            dots <= i,
            dots == count_dots(t@.take(i as int)),
            has_digit == exists|j: int| 0 <= j < i && is_digit_char(#[trigger] t@[j]),
            forall|j: int| 0 <= j < i ==> is_digit_char(#[trigger] t@[j]) || t@[j] == '.',
        decreases n - i,
    {
        let c = t.get_char(i);
        if '0' <= c && c <= '9' {
            has_digit = true;
        } else if c == '.' {
            dots = dots + 1;
        } else {
            return false;
        }
        proof {
            assert(t@.take(i + 1).drop_last() =~= t@.take(i as int));
            assert(t@.take(i + 1).last() == t@[i as int]);
        }
        i = i + 1;
    }
    proof {
        assert(t@.take(n as int) =~= t@);
    }
    has_digit && dots <= 1
}

/// A token shaped like an operand: nothing but digits and decimal points.
/// It may still be an invalid number, such as one with two decimal points.
pub open spec fn operand_shaped(u: Seq<char>) -> bool {
    u.len() > 0 && forall|m: int|
        0 <= m < u.len() ==> is_digit_char(#[trigger] u[m]) || u[m] == '.'
}

/// A token the evaluator can classify: a single operator, or an operand run.
pub open spec fn token_shaped(u: Seq<char>) -> bool {
    is_operator_token(u) || operand_shaped(u)
}

proof fn lemma_split_rec_shaped(t: Seq<char>, i: int, cur: Seq<char>, acc: Seq<Seq<char>>)
    requires
        crate::tokenizer::canonical_text(t),
        0 <= i <= t.len(),
        forall|k: int| 0 <= k < acc.len() ==> token_shaped(#[trigger] acc[k]),
        forall|m: int|
            0 <= m < cur.len() ==> is_op_char(#[trigger] cur[m]) || is_digit_char(cur[m])
                || cur[m] == '.',
        (exists|m: int| 0 <= m < cur.len() && is_op_char(#[trigger] cur[m])) ==> cur.len() == 1 && (
        i >= t.len() || t[i] == ' '),
        cur.len() > 0 ==> i >= 1 && t[i - 1] != ' ' && cur.last() == t[i - 1],
    ensures
        forall|k: int|
            0 <= k < split_rec(t, i, cur, acc).len() ==> token_shaped(
                #[trigger] split_rec(t, i, cur, acc)[k],
            ),
    decreases t.len() - i,
{
    if i >= t.len() || is_space_char(t[i]) {
        if cur.len() > 0 {
            assert(token_shaped(cur)) by {
                if exists|m: int| 0 <= m < cur.len() && is_op_char(#[trigger] cur[m]) {
                    assert(is_operator_token(cur));
                } else {
                    assert(operand_shaped(cur));
                }
            }
            assert(forall|k: int|
                0 <= k < acc.push(cur).len() ==> token_shaped(#[trigger] acc.push(cur)[k]));
        }
        if i >= t.len() {
            if cur.len() > 0 {
                assert(split_rec(t, i, cur, acc) == acc.push(cur));
            } else {
                assert(split_rec(t, i, cur, acc) == acc);
            }
        } else {
            if cur.len() > 0 {
                lemma_split_rec_shaped(t, i + 1, Seq::empty(), acc.push(cur));
                assert(split_rec(t, i, cur, acc) == split_rec(t, i + 1, Seq::empty(), acc.push(cur)));
            } else {
                lemma_split_rec_shaped(t, i + 1, Seq::empty(), acc);
                assert(split_rec(t, i, cur, acc) == split_rec(t, i + 1, Seq::empty(), acc));
            }
        }
    } else {
        let c = t[i];
        assert(is_op_char(c) || is_digit_char(c) || c == '.');
        if is_op_char(c) {
            assert(cur.len() == 0) by {
                if cur.len() > 0 {
                    assert(t[i - 1] == ' ');
                }
            }
            assert(cur.push(c)[0] == c);
            lemma_split_rec_shaped(t, i + 1, cur.push(c), acc);
        } else {
            assert(!(exists|m: int| 0 <= m < cur.len() && is_op_char(#[trigger] cur[m]))) by {
                if exists|m: int| 0 <= m < cur.len() && is_op_char(#[trigger] cur[m]) {
                    assert(t[i] == ' ');
                }
            }
            lemma_split_rec_shaped(t, i + 1, cur.push(c), acc);
        }
        assert(split_rec(t, i, cur, acc) == split_rec(t, i + 1, cur.push(c), acc));
    }
}

/// Every token of a canonical postfix text is either a single operator or a
/// run of digits and decimal points: the tokenizer admits no empty token and
/// none that glues an operator to a numeric run.
pub proof fn lemma_canonical_tokens_shaped(t: Seq<char>)
    requires
        crate::tokenizer::canonical_text(t),
    ensures
        forall|k: int|
            0 <= k < split_spec(t).len() ==> token_shaped(#[trigger] split_spec(t)[k]),
{
    lemma_split_rec_shaped(t, 0, Seq::empty(), Seq::empty());
}

/// One step of postfix evaluation per token, scanned left to right over a
/// stack of subexpression trees. An operator pops the right-hand operand
/// first and the left-hand operand second and pushes their combination; a
/// numeric token pushes a literal leaf; an operator without two operands is
/// a structural error, and a token that is neither an operator nor a valid
/// number is a parse error.
pub open spec fn eval_rec(toks: Seq<Seq<char>>, i: int, stack: Seq<SpecExpr>) -> Result<
    Seq<SpecExpr>,
    EvalError,
>
    decreases toks.len() - i,
{
    if i < 0 || i >= toks.len() {
        Ok(stack)
    } else {
        let t = toks[i];
        if is_operator_token(t) {
            if stack.len() >= 2 {
                let rhs = stack[stack.len() - 1];
                let lhs = stack[stack.len() - 2];
                eval_rec(
                    toks,
                    i + 1,
                    stack.drop_last().drop_last().push(
                        SpecExpr::Binary(op_of_char(t[0]), Box::new(lhs), Box::new(rhs)),
                    ),
                )
            } else {
                Err(EvalError::Malformed)
            }
        } else if is_number_token(t) {
            eval_rec(toks, i + 1, stack.push(SpecExpr::Literal(t)))
        } else {
            Err(EvalError::ParseNumber)
        }
    }
}

/// Complete evaluation of a postfix token sequence: the token stream is
/// well-formed exactly when, after all tokens are consumed, one tree is
/// left on the stack; that tree is the result.
pub open spec fn evaluate_tokens_spec(toks: Seq<Seq<char>>) -> Result<SpecExpr, EvalError> {
    match eval_rec(toks, 0, Seq::empty()) {
        Ok(stack) => if stack.len() == 1 {
            Ok(stack[0])
        } else {
            Err(EvalError::Malformed)
        },
        Err(e) => Err(e),
    }
}

/// Complete evaluation of a postfix token string.
pub open spec fn evaluate_spec(s: Seq<char>) -> Result<SpecExpr, EvalError> {
    evaluate_tokens_spec(split_spec(s))
}

/// Evaluates a postfix token string, keeping a stack of subexpression trees
/// and, in lockstep, a stack of fully parenthesized infix fragments. On
/// success the one remaining tree is returned together with its fragment;
/// otherwise the error is exactly what `evaluate_spec` assigns the input.
pub fn evaluate(postfix: &str) -> (r: Result<(Expr, String), EvalError>)
    ensures
        match r {
            Ok(res) => Ok::<SpecExpr, EvalError>(res.0@) == evaluate_spec(postfix@) && res.1@
                == render_spec(res.0@, false),
            Err(e) => Err::<SpecExpr, EvalError>(e) == evaluate_spec(postfix@),
        },
{
    let toks = split_tokens(postfix);
    let ghost gtoks = toks@.map_values(|t: String| t@);
    let mut trees: Vec<Expr> = Vec::new();
    let mut frags: Vec<String> = Vec::new();
    let mut j: usize = 0;
    proof {
        assert(trees@.map_values(|e: Expr| e@) =~= Seq::<SpecExpr>::empty());
    }
    while j < toks.len()
        invariant
            gtoks == toks@.map_values(|t: String| t@),
            gtoks == split_spec(postfix@),
            0 <= j <= toks@.len(),
            trees@.len() == frags@.len(),
            forall|k: int|
                0 <= k < trees@.len() ==> (#[trigger] frags@[k])@ == render_spec(
                    trees@[k]@,
                    false,
                ),
            eval_rec(gtoks, j as int, trees@.map_values(|e: Expr| e@)) == eval_rec(
                gtoks,
                0,
                Seq::<SpecExpr>::empty(),
            ),
        decreases toks@.len() - j,
    {
        let ghost prev_stack = trees@.map_values(|e: Expr| e@);
        let t = &toks[j];
        proof {
            assert(gtoks[j as int] == t@);
        }
        let tlen = t.as_str().unicode_len();
        let is_op = tlen == 1 && {
            let c0 = t.as_str().get_char(0);
            c0 == '+' || c0 == '-' || c0 == '*' || c0 == '/'
        };
        if is_op {
            if trees.len() < 2 {
                return Err(EvalError::Malformed);
            }
            let rhs_tree = trees.pop().unwrap();
            let lhs_tree = trees.pop().unwrap();
            let rhs_frag = frags.pop().unwrap();
            let lhs_frag = frags.pop().unwrap();
            let c = t.as_str().get_char(0);
            let op = if c == '+' {
                Op::Plus
            } else if c == '-' {
                Op::Minus
            } else if c == '*' {
                Op::Times
            } else {
                Op::Divide
            };
            let mut f = String::new();
            f.push('(');
            f.push(' ');
            f.append(lhs_frag.as_str());
            f.push(' ');
            f.push(c);
            f.push(' ');
            f.append(rhs_frag.as_str());
            f.push(' ');
            f.push(')');
            let tree = Expr::Binary(op, Box::new(lhs_tree), Box::new(rhs_tree));
            proof {
                assert(f@ =~= render_spec(tree@, false));
            }
            trees.push(tree);
            frags.push(f);
            proof {
                assert(trees@.map_values(|e: Expr| e@) =~= prev_stack.drop_last().drop_last().push(
                    trees@.last()@,
                ));
            }
        } else {
            if !check_number_token(t.as_str()) {
                return Err(EvalError::ParseNumber);
            }
            trees.push(Expr::Literal(t.clone()));
            frags.push(t.clone());
            proof {
                assert(trees@.map_values(|e: Expr| e@) =~= prev_stack.push(trees@.last()@));
            }
        }
        j = j + 1;
    }
    if trees.len() == 1 {
        let tree = trees.pop().unwrap();
        let frag = frags.pop().unwrap();
        Ok((tree, frag))
    } else {
        Err(EvalError::Malformed)
    }
}

/// How many of the first `i` tokens are valid numeric tokens.
pub open spec fn number_count(toks: Seq<Seq<char>>, i: int) -> int
    decreases i,
{
    if i <= 0 {
        0
    } else {
        number_count(toks, i - 1) + if is_number_token(toks[i - 1]) {
            1int
        } else {
            0int
        }
    }
}

/// How many of the first `i` tokens are operator tokens.
pub open spec fn operator_count(toks: Seq<Seq<char>>, i: int) -> int
    decreases i,
{
    if i <= 0 {
        0
    } else {
        operator_count(toks, i - 1) + if is_operator_token(toks[i - 1]) {
            1int
        } else {
            0int
        }
    }
}

/// A postfix token sequence with balanced operators and operands: every
/// token is an operator or a valid number, every operator is preceded by at
/// least two more operands than operators, and over the whole sequence the
/// operands outnumber the operators by exactly one.
pub open spec fn balanced(toks: Seq<Seq<char>>) -> bool {
    &&& forall|i: int|
        0 <= i < toks.len() ==> is_operator_token(#[trigger] toks[i]) || is_number_token(toks[i])
    &&& forall|i: int|
        0 <= i < toks.len() && is_operator_token(#[trigger] toks[i]) ==> number_count(toks, i)
            - operator_count(toks, i) >= 2
    &&& number_count(toks, toks.len() as int) - operator_count(toks, toks.len() as int) == 1
}

proof fn lemma_eval_rec_stack_size(toks: Seq<Seq<char>>, i: int, stack: Seq<SpecExpr>)
    requires
        0 <= i <= toks.len(),
        forall|j: int|
            i <= j < toks.len() ==> is_operator_token(#[trigger] toks[j]) || is_number_token(
                toks[j],
            ),
        forall|j: int|
            i <= j < toks.len() && is_operator_token(#[trigger] toks[j]) ==> stack.len() + (
            number_count(toks, j) - operator_count(toks, j)) - (number_count(toks, i)
                - operator_count(toks, i)) >= 2,
    ensures
        eval_rec(toks, i, stack) is Ok,
        eval_rec(toks, i, stack)->Ok_0.len() == stack.len() + (number_count(
            toks,
            toks.len() as int,
        ) - operator_count(toks, toks.len() as int)) - (number_count(toks, i) - operator_count(
            toks,
            i,
        )),
    decreases toks.len() - i,
{
    if i < toks.len() {
        let t = toks[i];
        if is_operator_token(t) {
            assert(stack.len() >= 2);
            let rhs = stack[stack.len() - 1];
            let lhs = stack[stack.len() - 2];
            let stack2 = stack.drop_last().drop_last().push(
                SpecExpr::Binary(op_of_char(t[0]), Box::new(lhs), Box::new(rhs)),
            );
            lemma_eval_rec_stack_size(toks, i + 1, stack2);
        } else {
            let stack2 = stack.push(SpecExpr::Literal(t));
            lemma_eval_rec_stack_size(toks, i + 1, stack2);
        }
    }
}

/// For every postfix token sequence with balanced operators and operands,
/// evaluation succeeds and the value stack holds exactly one element after
/// the whole stream is consumed.
pub proof fn lemma_balanced_evaluates_to_single(toks: Seq<Seq<char>>)
    requires
        balanced(toks),
    ensures
        eval_rec(toks, 0, Seq::<SpecExpr>::empty()) is Ok,
        eval_rec(toks, 0, Seq::<SpecExpr>::empty())->Ok_0.len() == 1,
        evaluate_tokens_spec(toks) is Ok,
{
    lemma_eval_rec_stack_size(toks, 0, Seq::<SpecExpr>::empty());
}

/// For every postfix token string whose tokens are balanced, evaluation
/// succeeds: solving such an expression ends with exactly one value and one
/// infix fragment on the stacks, never a partial result.
pub proof fn lemma_balanced_postfix_evaluates(s: Seq<char>)
    requires
        balanced(split_spec(s)),
    ensures
        evaluate_spec(s) is Ok,
{
    lemma_balanced_evaluates_to_single(split_spec(s));
}

/// One expression read from the input: the canonical postfix token string
/// (the source of truth, immutable after construction) and the two parallel
/// stacks that its single evaluation pass fills.
pub struct Expression {
    /// The canonical postfix token string this expression was built from.
    pub postfix: String,
    /// Stack of subexpression trees; each tree determines the numeric value
    /// of the subexpression it covers. After a successful evaluation it
    /// holds exactly one entry: the final expression tree.
    pub trees: Vec<Expr>,
    /// Stack of infix renderings, one fully parenthesized fragment per
    /// not-yet-consumed subexpression, kept in lockstep with `trees`. After
    /// a successful evaluation it holds exactly one entry: the rendering of
    /// the final tree.
    pub infix: Vec<String>,
}

impl Expression {
    /// A fresh, not yet evaluated expression over one cleaned input line.
    pub fn new(input: String) -> (e: Expression)
        ensures
            e.postfix@ == input@,
            e.trees@.len() == 0,
            e.infix@.len() == 0,
    {
        Expression { postfix: input, trees: Vec::new(), infix: Vec::new() }
    }

    /// Evaluates the postfix expression and builds the equivalent infix
    /// fragment. On success both stacks hold exactly one element — the
    /// final tree and its fully parenthesized rendering; any other final
    /// stack size is reported as an error, never silently truncated. On an
    /// error the stacks are left empty.
    pub fn solve(&mut self) -> (r: Result<(), EvalError>)
        ensures
            final(self).postfix@ == old(self).postfix@,
            match r {
                Ok(()) => {
                    &&& final(self).trees@.len() == 1
                    &&& final(self).infix@.len() == 1
                    &&& Ok::<SpecExpr, EvalError>(final(self).trees@[0]@) == evaluate_spec(
                        old(self).postfix@,
                    )
                    &&& final(self).infix@[0]@ == render_spec(final(self).trees@[0]@, false)
                },
                Err(e) => {
                    &&& Err::<SpecExpr, EvalError>(e) == evaluate_spec(old(self).postfix@)
                    &&& final(self).trees@.len() == 0
                    &&& final(self).infix@.len() == 0
                },
            },
    {
        let r = evaluate(self.postfix.as_str());
        self.trees = Vec::new();
        self.infix = Vec::new();
        match r {
            Ok((tree, frag)) => {
                self.trees.push(tree);
                self.infix.push(frag);
                Ok(())
            },
            Err(e) => Err(e),
        }
    }

    /// The infix form in which a solved expression is written out: the
    /// final rendering with the outermost parentheses omitted. A single
    /// numeric token is returned exactly as it stands.
    pub fn display_infix(&self) -> (r: String)
        requires
            self.trees@.len() == 1,
        ensures
            r@ == render_spec(self.trees@[0]@, true),
    {
        crate::ast::render_infix(&self.trees[0], true)
    }
}

} // verus!
