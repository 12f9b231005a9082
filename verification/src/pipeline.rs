use vstd::prelude::*;
use vstd::string::*;
use crate::errors::EvalError;
use crate::eval::{evaluate_spec, Expression};
use crate::tokenizer::{clean_line, clean_spec};

verus! {

/// The canonical postfix strings of the raw lines from position `i` on,
/// appended to `acc`: a line that cleans to the empty string contributes
/// nothing, and a line with an invalid character invalidates the batch.
pub open spec fn build_rec(lines: Seq<Seq<char>>, i: int, acc: Seq<Seq<char>>) -> Result<
    Seq<Seq<char>>,
    EvalError,
>
    decreases lines.len() - i,
{
    if i < 0 || i >= lines.len() {
        Ok(acc)
    } else {
        match clean_spec(lines[i]) {
            Option::None => Err(EvalError::InvalidCharacter),
            Option::Some(t) => build_rec(
                lines,
                i + 1,
                if t.len() > 0 {
                    acc.push(t)
                } else {
                    acc
                },
            ),
        }
    }
}

/// The canonical postfix strings of a whole batch of raw lines, or the
/// invalid-character error that aborts it.
pub open spec fn build_list_spec(lines: Seq<Seq<char>>) -> Result<Seq<Seq<char>>, EvalError> {
    build_rec(lines, 0, Seq::empty())
}

/// Turns the raw input lines into a list of not yet evaluated expressions,
/// one per line that cleans to a nonempty canonical postfix string. A single
/// invalid character anywhere aborts the whole batch: no expression list is
/// produced at all.
pub fn build_expression_list(lines: &Vec<String>) -> (r: Result<Vec<Expression>, EvalError>)
    ensures
        match r {
            Ok(es) => {
                &&& Ok::<Seq<Seq<char>>, EvalError>(
                    es@.map_values(|e: Expression| e.postfix@),
                ) == build_list_spec(lines@.map_values(|l: String| l@))
                &&& forall|k: int|
                    0 <= k < es@.len() ==> (#[trigger] es@[k]).trees@.len() == 0
                        && es@[k].infix@.len() == 0
            },
            Err(e) => Err::<Seq<Seq<char>>, EvalError>(e) == build_list_spec(
                lines@.map_values(|l: String| l@),
            ),
        },
{
    let ghost glines = lines@.map_values(|l: String| l@);
    let mut out: Vec<Expression> = Vec::new();
    let mut i: usize = 0;
    proof {
        assert(out@.map_values(|e: Expression| e.postfix@) =~= Seq::<Seq<char>>::empty());
    }
    while i < lines.len()
        invariant
            glines == lines@.map_values(|l: String| l@),
            0 <= i <= lines@.len(),
            build_rec(glines, i as int, out@.map_values(|e: Expression| e.postfix@))
                == build_list_spec(glines),
            forall|k: int|
                0 <= k < out@.len() ==> (#[trigger] out@[k]).trees@.len() == 0
                    && out@[k].infix@.len() == 0,
        decreases lines@.len() - i,
    {
        let ghost prev_acc = out@.map_values(|e: Expression| e.postfix@);
        let line = &lines[i];
        proof {
            assert(glines[i as int] == line@);
        }
        match clean_line(line.as_str()) {
            Ok(postfix) => {
                if !postfix.as_str().is_empty() {
                    out.push(Expression::new(postfix));
                    proof {
                        assert(out@.map_values(|e: Expression| e.postfix@) =~= prev_acc.push(
                            out@.last().postfix@,
                        ));
                    }
                }
            },
            Err(e) => {
                return Err(e);
            },
        }
        i = i + 1;
    }
    Ok(out)
}

/// Evaluates every expression in the list, left to right. The first failing
/// expression aborts the whole batch with its error; on success every
/// expression ends with exactly one tree and one infix fragment on its
/// stacks. The postfix text of every expression is kept as it was.
pub fn solve_list(exprs: &mut Vec<Expression>) -> (r: Result<(), EvalError>)
    ensures
        final(exprs)@.len() == old(exprs)@.len(),
        forall|k: int|
            0 <= k < final(exprs)@.len() ==> (#[trigger] final(exprs)@[k]).postfix@
                == old(exprs)@[k].postfix@,
        match r {
            Ok(()) => forall|k: int|
                0 <= k < final(exprs)@.len() ==> {
                    let e = #[trigger] final(exprs)@[k];
                    &&& e.trees@.len() == 1
                    &&& e.infix@.len() == 1
                    &&& Ok::<crate::ast::SpecExpr, EvalError>(e.trees@[0]@) == evaluate_spec(
                        e.postfix@,
                    )
                    &&& e.infix@[0]@ == crate::ast::render_spec(e.trees@[0]@, false)
                },
            Err(e) => exists|k: int|
                {
                    &&& 0 <= k < old(exprs)@.len()
                    &&& Err::<crate::ast::SpecExpr, EvalError>(e) == evaluate_spec(
                        (#[trigger] old(exprs)@[k]).postfix@,
                    )
                    &&& forall|j: int|
                        0 <= j < k ==> evaluate_spec(
                            (#[trigger] old(exprs)@[j]).postfix@,
                        ) is Ok
                },
        },
{
    let n = exprs.len();
    let mut i: usize = 0;
    while i < n
        invariant
            n == exprs@.len(),
            exprs@.len() == old(exprs)@.len(),
            0 <= i <= n,
            forall|k: int|
                0 <= k < exprs@.len() ==> (#[trigger] exprs@[k]).postfix@
                    == old(exprs)@[k].postfix@,
            forall|k: int|
                0 <= k < i ==> {
                    let e = #[trigger] exprs@[k];
                    &&& e.trees@.len() == 1
                    &&& e.infix@.len() == 1
                    &&& Ok::<crate::ast::SpecExpr, EvalError>(e.trees@[0]@) == evaluate_spec(
                        e.postfix@,
                    )
                    &&& e.infix@[0]@ == crate::ast::render_spec(e.trees@[0]@, false)
                },
        decreases n - i,
    {
        let ghost before = exprs@;
        let mut e = exprs.remove(i);
        let r = e.solve();
        exprs.insert(i, e);
        proof {
            assert(exprs@ =~= before.update(i as int, exprs@[i as int]));
        }
        match r {
            Ok(()) => {},
            Err(err) => {
                proof {
                    let w = i as int;
                    assert(Err::<crate::ast::SpecExpr, EvalError>(err) == evaluate_spec(
                        old(exprs)@[w].postfix@,
                    ));
                    assert forall|j: int|
                        0 <= j < w implies evaluate_spec(
                        (#[trigger] old(exprs)@[j]).postfix@,
                    ) is Ok by {
                        assert(before[j].postfix@ == old(exprs)@[j].postfix@);
                        assert(Ok::<crate::ast::SpecExpr, EvalError>(before[j].trees@[0]@)
                            == evaluate_spec(before[j].postfix@));
                    }
                }
                return Err(err);
            },
        }
        i = i + 1;
    }
    Ok(())
}

/// The output rendering of one solved expression: the infix text, an equals
/// sign and the value text, single-space separated.
pub fn format_output_line(infix_text: &str, value_text: &str) -> (r: String)
    ensures
        r@ == infix_text@ + " = "@ + value_text@,
{
    let mut s = String::from_str(infix_text);
    s.push(' ');
    s.push('=');
    s.push(' ');
    s.append(value_text);
    proof {
        reveal_strlit(" = ");
        assert(s@ =~= infix_text@ + " = "@ + value_text@);
    }
    s
}

} // verus!
