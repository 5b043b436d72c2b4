//! The conditional expression evaluator.
//!
//! A classified token list is reduced left to right: the first two value
//! slots are resolved to concrete values, combined with the operator
//! between them into one boolean, and the triple is replaced by that
//! boolean until a single value remains.  Command references suspend the
//! reduction: the caller runs the command and hands its outcome back.

use vstd::prelude::*;

use crate::errors::{EvalError, GEvalError};
use crate::numbers::{big_cmp, i32_to_dec, dec, int_val, is_uint_str};
use crate::status::{CommandOutcome, GOutcome};
use crate::strutil::{
    spec_contains, spec_ends_with, spec_starts_with, str_contains, str_ends_with, str_eq,
    str_starts_with,
};
use crate::values::{
    classify, items_wf, spec_classify_checked, token_wf, value_wf, CmdRefKind, CmpOp, GToken,
    GValue, LogicOp, Token, Value,
};
use crate::vars::{map_get, VarStore};

verus! {

/// The mathematical form of a `Result<bool, EvalError>`.
pub open spec fn bres_view(r: Result<bool, EvalError>) -> Result<bool, GEvalError> {
    match r {
        Result::Ok(b) => Result::Ok(b),
        Result::Err(e) => Result::Err(e@),
    }
}

/// What a variable reference resolves to: a number when its value spells
/// one, a boolean for the exact texts `TRUE`/`FALSE`, a text otherwise,
/// and an error when the variable is not set.
pub open spec fn spec_resolve_var(stored: Option<Seq<char>>, name: Seq<char>) -> Result<
    GValue,
    GEvalError,
> {
    match stored {
        Option::None => Result::Err(GEvalError::UndefinedVariable(name)),
        Option::Some(v) => if is_uint_str(v) {
            Result::Ok(GValue::Num(v))
        } else if v == "TRUE"@ {
            Result::Ok(GValue::Truth(true))
        } else if v == "FALSE"@ {
            Result::Ok(GValue::Truth(false))
        } else {
            Result::Ok(GValue::Txt(v))
        },
    }
}

/// Resolve a `$name` reference against the variable store.
pub fn resolve_var(store: &VarStore, name: &String) -> (r: Result<Value, EvalError>)
    ensures
        match r {
            Result::Ok(v) => spec_resolve_var(map_get(store.map_view(), name@), name@)
                == Result::Ok::<GValue, GEvalError>(v@) && value_wf(v@),
            Result::Err(e) => spec_resolve_var(map_get(store.map_view(), name@), name@)
                == Result::Err::<GValue, GEvalError>(e@),
        },
{
    match store.get(name.as_str()) {
        Option::None => Err(EvalError::UndefinedVariable(name.clone())),
        Option::Some(v) => {
            if crate::numbers::check_uint_str(v.as_str()) {
                Ok(Value::Num(v))
            } else if str_eq(v.as_str(), "TRUE") {
                Ok(Value::Truth(true))
            } else if str_eq(v.as_str(), "FALSE") {
                Ok(Value::Truth(false))
            } else {
                Ok(Value::Txt(v))
            }
        },
    }
}

/// What a command reference turns into once its command has run: a boolean
/// from the exit code for `OK:`/`FAIL:`, the code itself for `CODE:`, one
/// of the captured streams for `OUT:`/`ERR:`.  A command with no exit code
/// (not spawned, or killed by a signal) is a hard error.
pub open spec fn spec_apply_outcome(k: CmdRefKind, o: GOutcome, cmd: Seq<char>) -> Result<
    GValue,
    GEvalError,
> {
    match k {
        CmdRefKind::Succeeds => match o.status.code {
            Option::Some(c) => Result::Ok(GValue::Truth(c == 0)),
            Option::None => Result::Err(GEvalError::CommandFailed(cmd)),
        },
        CmdRefKind::Fails => match o.status.code {
            Option::Some(c) => Result::Ok(GValue::Truth(c != 0)),
            Option::None => Result::Err(GEvalError::CommandFailed(cmd)),
        },
        CmdRefKind::ExitCode => match o.status.code {
            Option::Some(c) => Result::Ok(GValue::Num(dec(c as int))),
            Option::None => Result::Err(GEvalError::CommandFailed(cmd)),
        },
        CmdRefKind::Stdout => Result::Ok(GValue::Txt(o.stdout)),
        CmdRefKind::Stderr => Result::Ok(GValue::Txt(o.stderr)),
    }
}

/// Turn a command reference into a value from its run's outcome.
pub fn apply_outcome(k: CmdRefKind, o: &CommandOutcome, cmd: &String) -> (r: Result<
    Value,
    EvalError,
>)
    ensures
        match r {
            Result::Ok(v) => spec_apply_outcome(k, o@, cmd@) == Result::Ok::<GValue, GEvalError>(
                v@,
            ) && value_wf(v@),
            Result::Err(e) => spec_apply_outcome(k, o@, cmd@) == Result::Err::<
                GValue,
                GEvalError,
            >(e@),
        },
{
    match k {
        CmdRefKind::Succeeds => match o.status.code {
            Some(c) => Ok(Value::Truth(c == 0)),
            None => Err(EvalError::CommandFailed(cmd.clone())),
        },
        CmdRefKind::Fails => match o.status.code {
            Some(c) => Ok(Value::Truth(c != 0)),
            None => Err(EvalError::CommandFailed(cmd.clone())),
        },
        CmdRefKind::ExitCode => match o.status.code {
            Some(c) => {
                proof {
                    crate::numbers::lemma_dec_wf(c as int);
                }
                Ok(Value::Num(i32_to_dec(c)))
            },
            None => Err(EvalError::CommandFailed(cmd.clone())),
        },
        CmdRefKind::Stdout => Ok(Value::Txt(o.stdout.clone())),
        CmdRefKind::Stderr => Ok(Value::Txt(o.stderr.clone())),
    }
}

/// Two values of the same kind can be compared.
pub open spec fn same_kind(a: GValue, b: GValue) -> bool {
    (a is Num && b is Num) || (a is Txt && b is Txt) || (a is Truth && b is Truth)
}

/// One reduction step: combine two resolved values with the operator
/// between them.  Values of different kinds never combine; each operator
/// works on exactly one kind.
pub open spec fn spec_combine(a: GValue, t: GToken, b: GValue) -> Result<GValue, GEvalError> {
    if !same_kind(a, b) {
        Result::Err(GEvalError::TypeMismatch)
    } else {
        match t {
            GToken::Logic(l) => if a is Truth {
                Result::Ok(
                    GValue::Truth(
                        if l is And {
                            a->Truth_0 && b->Truth_0
                        } else {
                            a->Truth_0 || b->Truth_0
                        },
                    ),
                )
            } else if a is Num {
                Result::Err(GEvalError::BadNumComparator)
            } else {
                Result::Err(GEvalError::BadTxtComparator)
            },
            GToken::Cmp(c) => if a is Num {
                let x = int_val(a->Num_0);
                let y = int_val(b->Num_0);
                match c {
                    CmpOp::Equal => Result::Ok(GValue::Truth(x == y)),
                    CmpOp::Different => Result::Ok(GValue::Truth(x != y)),
                    CmpOp::Less => Result::Ok(GValue::Truth(x < y)),
                    CmpOp::LessOrEqual => Result::Ok(GValue::Truth(x <= y)),
                    CmpOp::Greater => Result::Ok(GValue::Truth(x > y)),
                    CmpOp::GreaterOrEqual => Result::Ok(GValue::Truth(x >= y)),
                    _ => Result::Err(GEvalError::BadNumComparator),
                }
            } else if a is Txt {
                let x = a->Txt_0;
                let y = b->Txt_0;
                match c {
                    CmpOp::Equal => Result::Ok(GValue::Truth(x == y)),
                    CmpOp::Different => Result::Ok(GValue::Truth(x != y)),
                    CmpOp::Contains => Result::Ok(GValue::Truth(spec_contains(x, y))),
                    CmpOp::StartsWith => Result::Ok(GValue::Truth(spec_starts_with(x, y))),
                    CmpOp::EndsWith => Result::Ok(GValue::Truth(spec_ends_with(x, y))),
                    _ => Result::Err(GEvalError::BadTxtComparator),
                }
            } else {
                Result::Err(GEvalError::BadBoolOperator)
            },
            _ => Result::Err(GEvalError::Inconsistent),
        }
    }
}

/// Law: `AND` and `OR` on two booleans follow the standard truth tables,
/// for all four boolean pairs.
pub proof fn lemma_logic_truth_table(a: bool, b: bool)
    ensures
        spec_combine(GValue::Truth(a), GToken::Logic(LogicOp::And), GValue::Truth(b))
            == Result::Ok::<GValue, GEvalError>(GValue::Truth(a && b)),
        spec_combine(GValue::Truth(a), GToken::Logic(LogicOp::Or), GValue::Truth(b))
            == Result::Ok::<GValue, GEvalError>(GValue::Truth(a || b)),
{
}

/// Law: combining two values of different kinds raises a type mismatch,
/// whatever the operator; no boolean is produced.
pub proof fn lemma_type_mismatch(a: GValue, t: GToken, b: GValue)
    requires
        !same_kind(a, b),
    ensures
        spec_combine(a, t, b) == Result::Err::<GValue, GEvalError>(GEvalError::TypeMismatch),
{
}

/// Combine two resolved values with one operator token.
pub fn combine(a: &Value, t: &Token, b: &Value) -> (r: Result<Value, EvalError>)
    requires
        value_wf(a@),
        value_wf(b@),
    ensures
        match r {
            Result::Ok(v) => spec_combine(a@, t@, b@) == Result::Ok::<GValue, GEvalError>(v@)
                && value_wf(v@),
            Result::Err(e) => spec_combine(a@, t@, b@) == Result::Err::<GValue, GEvalError>(e@),
        },
{
    let kinds_match = match (a, b) {
        (Value::Num(_), Value::Num(_)) => true,
        (Value::Txt(_), Value::Txt(_)) => true,
        (Value::Truth(_), Value::Truth(_)) => true,
        _ => false,
    };
    if !kinds_match {
        return Err(EvalError::TypeMismatch);
    }
    match t {
        Token::Logic(l) => match (a, b) {
            (Value::Truth(x), Value::Truth(y)) => match l {
                LogicOp::And => Ok(Value::Truth(*x && *y)),
                LogicOp::Or => Ok(Value::Truth(*x || *y)),
            },
            (Value::Num(_), Value::Num(_)) => Err(EvalError::BadNumComparator),
            _ => Err(EvalError::BadTxtComparator),
        },
        Token::Cmp(c) => match (a, b) {
            (Value::Num(x), Value::Num(y)) => {
                match c {
                    CmpOp::Equal => Ok(Value::Truth(big_cmp(x.as_str(), y.as_str()) == 0)),
                    CmpOp::Different => Ok(Value::Truth(big_cmp(x.as_str(), y.as_str()) != 0)),
                    CmpOp::Less => Ok(Value::Truth(big_cmp(x.as_str(), y.as_str()) == -1)),
                    CmpOp::LessOrEqual => Ok(
                        Value::Truth(big_cmp(x.as_str(), y.as_str()) != 1),
                    ),
                    CmpOp::Greater => Ok(Value::Truth(big_cmp(x.as_str(), y.as_str()) == 1)),
                    CmpOp::GreaterOrEqual => Ok(
                        Value::Truth(big_cmp(x.as_str(), y.as_str()) != -1),
                    ),
                    _ => Err(EvalError::BadNumComparator),
                }
            },
            (Value::Txt(x), Value::Txt(y)) => match c {
                CmpOp::Equal => Ok(Value::Truth(str_eq(x.as_str(), y.as_str()))),
                CmpOp::Different => Ok(Value::Truth(!str_eq(x.as_str(), y.as_str()))),
                CmpOp::Contains => Ok(Value::Truth(str_contains(x.as_str(), y.as_str()))),
                CmpOp::StartsWith => Ok(
                    Value::Truth(str_starts_with(x.as_str(), y.as_str())),
                ),
                CmpOp::EndsWith => Ok(Value::Truth(str_ends_with(x.as_str(), y.as_str()))),
                _ => Err(EvalError::BadTxtComparator),
            },
            _ => Err(EvalError::BadBoolOperator),
        },
        _ => Err(EvalError::Inconsistent),
    }
}

/// Is this slot still unresolved?  Ranks the reduction's progress.
pub open spec fn rank_at(ts: Seq<GToken>, idx: int) -> int {
    if idx < ts.len() && !(ts[idx] is Val) {
        1
    } else {
        0
    }
}

/// How far a reduction can go on its own: either it finishes with a
/// boolean or an error, or it stops at a command reference that must run
/// first.
pub enum GProgress {
    /// The reduction needs the command at this position run.
    Need(int, CmdRefKind, Seq<char>),
    /// The reduction is complete.
    Done(Result<bool, GEvalError>),
}

/// Reduce a token list as far as possible without running a command.
/// Returns the rewritten list together with what stopped the reduction.
pub open spec fn spec_progress(m: Map<Seq<char>, Seq<char>>, items: Seq<GToken>) -> (
    Seq<GToken>,
    GProgress,
)
    decreases items.len(), rank_at(items, 0), rank_at(items, 2),
{
    if items.len() == 0 {
        (items, GProgress::Done(Result::Err(GEvalError::MissingFinalValue)))
    } else {
        match items[0] {
            GToken::CmdRef(k, cmd) => (items, GProgress::Need(0, k, cmd)),
            GToken::VarRef(name) => match spec_resolve_var(map_get(m, name), name) {
                Result::Err(e) => (items, GProgress::Done(Result::Err(e))),
                Result::Ok(v) => spec_progress(m, items.update(0, GToken::Val(v))),
            },
            GToken::Logic(_) => (items, GProgress::Done(Result::Err(GEvalError::Inconsistent))),
            GToken::Cmp(_) => (items, GProgress::Done(Result::Err(GEvalError::Inconsistent))),
            GToken::Val(a) => {
                if items.len() == 1 {
                    match a {
                        GValue::Truth(b) => (items, GProgress::Done(Result::Ok(b))),
                        _ => (items, GProgress::Done(Result::Err(GEvalError::Inconsistent))),
                    }
                } else if items.len() == 2 {
                    (items, GProgress::Done(Result::Err(GEvalError::Inconsistent)))
                } else {
                    match items[2] {
                        GToken::CmdRef(k, cmd) => (items, GProgress::Need(2, k, cmd)),
                        GToken::VarRef(name) => match spec_resolve_var(map_get(m, name), name) {
                            Result::Err(e) => (items, GProgress::Done(Result::Err(e))),
                            Result::Ok(v) => spec_progress(
                                m,
                                items.update(2, GToken::Val(v)),
                            ),
                        },
                        GToken::Logic(_) => (
                            items,
                            GProgress::Done(Result::Err(GEvalError::Inconsistent)),
                        ),
                        GToken::Cmp(_) => (
                            items,
                            GProgress::Done(Result::Err(GEvalError::Inconsistent)),
                        ),
                        GToken::Val(b) => match spec_combine(a, items[1], b) {
                            Result::Err(e) => (items, GProgress::Done(Result::Err(e))),
                            Result::Ok(v) => spec_progress(
                                m,
                                seq![GToken::Val(v)] + items.skip(3),
                            ),
                        },
                    }
                }
            },
        }
    }
}

/// What `eval_progress` reports back to its caller.
pub enum CondStep {
    /// Run this command (position, kind, command line) and hand its
    /// outcome back through `supply_outcome`.
    NeedCommand(usize, CmdRefKind, String),
    /// The evaluation is complete.
    Finished(Result<bool, EvalError>),
}

/// One decided action of the reduction loop.
enum Act {
    Need(usize, CmdRefKind, String),
    Fin(Result<bool, EvalError>),
    Put(usize, Value),
    Reduce(Value),
}

/// Decide the next reduction action without mutating the list.
fn decide(items: &Vec<Token>, store: &VarStore) -> (r: Act)
    requires
        items_wf(items.deep_view()),
    ensures
        ({
            let ts = items.deep_view();
            match r {
                Act::Need(pos, k, cmd) => spec_progress(store.map_view(), ts) == (
                    ts,
                    GProgress::Need(pos as int, k, cmd@),
                ) && pos < ts.len() && ts[pos as int] == GToken::CmdRef(k, cmd@),
                Act::Fin(res) => spec_progress(store.map_view(), ts) == (ts, GProgress::Done(bres_view(res))),
                Act::Put(pos, v) => {
                    &&& spec_progress(store.map_view(), ts) == spec_progress(
                        store.map_view(),
                        ts.update(pos as int, GToken::Val(v@)),
                    )
                    &&& pos < ts.len()
                    &&& value_wf(v@)
                    &&& (pos == 0 && ts[0] is VarRef) || (pos == 2 && ts[0] is Val
                        && ts[2] is VarRef)
                },
                Act::Reduce(v) => {
                    &&& ts.len() >= 3
                    &&& spec_progress(store.map_view(), ts) == spec_progress(
                        store.map_view(),
                        seq![GToken::Val(v@)] + ts.skip(3),
                    )
                    &&& value_wf(v@)
                },
            }
        }),
{
    let ghost ts = items.deep_view();
    if items.len() == 0 {
        return Act::Fin(Err(EvalError::MissingFinalValue));
    }
    proof {
        assert(ts[0] == items@[0]@);
        assert(token_wf(ts[0]));
    }
    match &items[0] {
        Token::CmdRef(k, cmd) => Act::Need(0, *k, cmd.clone()),
        Token::VarRef(name) => match resolve_var(store, name) {
            Err(e) => Act::Fin(Err(e)),
            Ok(v) => Act::Put(0, v),
        },
        Token::Logic(_) => Act::Fin(Err(EvalError::Inconsistent)),
        Token::Cmp(_) => Act::Fin(Err(EvalError::Inconsistent)),
        Token::Val(a) => {
            if items.len() == 1 {
                match a {
                    Value::Truth(b) => Act::Fin(Ok(*b)),
                    _ => Act::Fin(Err(EvalError::Inconsistent)),
                }
            } else if items.len() == 2 {
                Act::Fin(Err(EvalError::Inconsistent))
            } else {
                proof {
                    assert(ts[2] == items@[2]@);
                    assert(token_wf(ts[2]));
                }
                match &items[2] {
                    Token::CmdRef(k, cmd) => Act::Need(2, *k, cmd.clone()),
                    Token::VarRef(name) => match resolve_var(store, name) {
                        Err(e) => Act::Fin(Err(e)),
                        Ok(v) => Act::Put(2, v),
                    },
                    Token::Logic(_) => Act::Fin(Err(EvalError::Inconsistent)),
                    Token::Cmp(_) => Act::Fin(Err(EvalError::Inconsistent)),
                    Token::Val(b) => {
                        proof {
                            assert(ts[1] == items@[1]@);
                        }
                        match combine(a, &items[1], b) {
                            Err(e) => Act::Fin(Err(e)),
                            Ok(v) => Act::Reduce(v),
                        }
                    },
                }
            }
        },
    }
}

/// Reduce the token list as far as possible without running a command.
pub fn eval_progress(items: &mut Vec<Token>, store: &VarStore) -> (r: CondStep)
    requires
        items_wf(old(items).deep_view()),
    ensures
        items_wf(final(items).deep_view()),
        final(items).deep_view() == spec_progress(store.map_view(), old(items).deep_view()).0,
        match r {
            CondStep::NeedCommand(pos, k, cmd) => {
                &&& spec_progress(store.map_view(), old(items).deep_view()).1 == GProgress::Need(
                    pos as int,
                    k,
                    cmd@,
                )
                &&& pos < final(items).deep_view().len()
                &&& final(items).deep_view()[pos as int] == GToken::CmdRef(k, cmd@)
            },
            CondStep::Finished(res) => spec_progress(store.map_view(), old(items).deep_view()).1
                == GProgress::Done(bres_view(res)),
        },
{
    let ghost orig = items.deep_view();
    loop
        invariant
            items_wf(items.deep_view()),
            orig == old(items).deep_view(),
            spec_progress(store.map_view(), orig) == spec_progress(
                store.map_view(),
                items.deep_view(),
            ),
        decreases
                items.deep_view().len(),
                rank_at(items.deep_view(), 0),
                rank_at(items.deep_view(), 2),
    {
        let ghost ts = items.deep_view();
        let act = decide(items, store);
        match act {
            Act::Need(pos, k, cmd) => {
                return CondStep::NeedCommand(pos, k, cmd);
            },
            Act::Fin(res) => {
                return CondStep::Finished(res);
            },
            Act::Put(pos, v) => {
                let ghost gv = v@;
                items.remove(pos);
                items.insert(pos, Token::Val(v));
                proof {
                    assert(items.deep_view() =~= ts.update(pos as int, GToken::Val(gv)));
                }
            },
            Act::Reduce(v) => {
                let ghost gv = v@;
                items.remove(0);
                items.remove(0);
                items.remove(0);
                items.insert(0, Token::Val(v));
                proof {
                    assert(items.deep_view() =~= seq![GToken::Val(gv)] + ts.skip(3));
                }
            },
        }
    }
}

/// Substitute the outcome of the command at `pos` into the list, or report
/// why it yields no value.
pub fn supply_outcome(items: &mut Vec<Token>, pos: usize, outcome: &CommandOutcome) -> (r:
    Option<EvalError>)
    requires
        items_wf(old(items).deep_view()),
        pos < old(items).deep_view().len(),
        old(items).deep_view()[pos as int] is CmdRef,
    ensures
        items_wf(final(items).deep_view()),
        ({
            let t = old(items).deep_view()[pos as int];
            let applied = spec_apply_outcome(t->CmdRef_0, outcome@, t->CmdRef_1);
            match r {
                Option::None => applied is Ok && final(items).deep_view() == old(
                    items).deep_view().update(pos as int, GToken::Val(applied->Ok_0)),
                Option::Some(e) => applied == Result::Err::<GValue, GEvalError>(e@) && final(
                    items).deep_view() == old(items).deep_view(),
            }
        }),
{
    let ghost ts = items.deep_view();
    proof {
        assert(ts[pos as int] == items@[pos as int]@);
    }
    let (kind, cmd) = match &items[pos] {
        Token::CmdRef(k, c) => (*k, c.clone()),
        _ => {
            return Some(EvalError::Inconsistent);
        },
    };
    match apply_outcome(kind, outcome, &cmd) {
        Err(e) => Some(e),
        Ok(v) => {
            let ghost gv = v@;
            items.remove(pos);
            items.insert(pos, Token::Val(v));
            proof {
                assert(items.deep_view() =~= ts.update(pos as int, GToken::Val(gv)));
            }
            None
        },
    }
}

/// A whole evaluation, with the outcomes of the referenced commands given
/// up front and consumed left to right.  Running out of outcomes counts as
/// a failed command.
pub open spec fn spec_eval_items(
    m: Map<Seq<char>, Seq<char>>,
    items: Seq<GToken>,
    outs: Seq<GOutcome>,
) -> Result<bool, GEvalError>
    decreases outs.len(),
{
    let step = spec_progress(m, items);
    match step.1 {
        GProgress::Done(res) => res,
        GProgress::Need(pos, k, cmd) => {
            if outs.len() == 0 {
                Result::Err(GEvalError::CommandFailed(cmd))
            } else {
                match spec_apply_outcome(k, outs[0], cmd) {
                    Result::Err(e) => Result::Err(e),
                    Result::Ok(v) => spec_eval_items(
                        m,
                        step.0.update(pos, GToken::Val(v)),
                        outs.skip(1),
                    ),
                }
            }
        },
    }
}

/// The whole evaluator on a condition word group: the first word (the
/// `if`/`elseif` keyword itself) is dropped, the rest is classified and
/// reduced, consuming one command outcome per command reference.
pub open spec fn spec_logic(
    m: Map<Seq<char>, Seq<char>>,
    ws: Seq<Seq<char>>,
    outs: Seq<GOutcome>,
) -> Result<bool, GEvalError> {
    match spec_classify_checked(ws.skip(1)) {
        Result::Err(e) => Result::Err(e),
        Result::Ok(ts) => spec_eval_items(m, ts, outs),
    }
}

/// Evaluate one `if`/`elseif` condition to a boolean.
///
/// `buf` is the buffered word group beginning with the keyword itself;
/// `outcomes` holds the outcome of each referenced command, in the order
/// the reduction runs them.
pub fn logic(buf: Vec<String>, store: &VarStore, outcomes: &Vec<CommandOutcome>) -> (r: Result<
    bool,
    EvalError,
>)
    requires
        buf@.len() >= 1,
    ensures
        bres_view(r) == spec_logic(store.map_view(), buf.deep_view(), outcomes.deep_view()),
{
    let ghost ws = buf.deep_view();
    let ghost outs = outcomes.deep_view();
    let mut rest = buf;
    rest.remove(0);
    proof {
        assert(rest.deep_view() =~= ws.skip(1));
    }
    let mut items = match classify(&rest) {
        Err(e) => {
            return Err(e);
        },
        Ok(t) => t,
    };
    let ghost items0 = items.deep_view();
    let mut q: usize = 0;
    proof {
        assert(outs.skip(0) =~= outs);
    }
    loop
        invariant
            items_wf(items.deep_view()),
            0 <= q <= outs.len(),
            outs == outcomes.deep_view(),
            ws == buf.deep_view(),
            spec_classify_checked(ws.skip(1)) == Result::Ok::<Seq<GToken>, GEvalError>(items0),
            spec_eval_items(store.map_view(), items0, outs) == spec_eval_items(
                store.map_view(),
                items.deep_view(),
                outs.skip(q as int),
            ),
        decreases outs.len() - q,
    {
        match eval_progress(&mut items, store) {
            CondStep::Finished(res) => {
                return res;
            },
            CondStep::NeedCommand(pos, kind, cmd) => {
                if q >= outcomes.len() {
                    return Err(EvalError::CommandFailed(cmd));
                }
                proof {
                    assert(outs.skip(q as int)[0] == outs[q as int]);
                    assert(outs[q as int] == outcomes@[q as int]@);
                    assert(outs.skip(q as int).skip(1) =~= outs.skip(q + 1));
                }
                match supply_outcome(&mut items, pos, &outcomes[q]) {
                    Some(e) => {
                        return Err(e);
                    },
                    None => {},
                }
                q = q + 1;
            },
        }
    }
}

} // verus!
