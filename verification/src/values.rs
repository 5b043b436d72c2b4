//! Typed tokens of conditional expressions, and the classification pass.
//!
//! Each word between `if`/`elseif` and the block opener is classified into
//! exactly one token: a command reference, a logic word, a comparator, a
//! variable reference, or a literal value.  A word that matches nothing is
//! glued onto a preceding command reference, so multi-word commands can be
//! written unquoted.  The classified list must strictly alternate values
//! and operators and end on a value.

use vstd::prelude::*;

use crate::errors::{EvalError, GEvalError};
use crate::numbers::{check_uint_str, is_int_str, is_uint_str};
use crate::strutil::{spec_eq_ci, spec_prefix_ci, str_eq, str_eq_ci, str_prefix_ci};

verus! {

/// Which aspect of a referenced command a conditional value uses.
#[derive(Clone, Copy, PartialEq, Eq, Structural, Debug)]
pub enum CmdRefKind {
    /// `OK:cmd` — true when the command exits with code zero.
    Succeeds,
    /// `FAIL:cmd` — true when the command exits with a non-zero code.
    Fails,
    /// `CODE:cmd` — the exit code as a number.
    ExitCode,
    /// `OUT:cmd` — the standard output as text.
    Stdout,
    /// `ERR:cmd` — the standard error as text.
    Stderr,
}

/// A logic connective between two boolean values.
#[derive(Clone, Copy, PartialEq, Eq, Structural, Debug)]
pub enum LogicOp {
    /// True only when both sides are true.
    And,
    /// True when either side is true.
    Or,
}

/// A comparator between two values of one kind.
#[derive(Clone, Copy, PartialEq, Eq, Structural, Debug)]
pub enum CmpOp {
    /// `==` or `=`.
    Equal,
    /// `!=`, `=!` or `!`.
    Different,
    /// `<`, numbers only.
    Less,
    /// `=<` or `<=`, numbers only.
    LessOrEqual,
    /// `>`, numbers only.
    Greater,
    /// `>=` or `=>`, numbers only.
    GreaterOrEqual,
    /// `~~`, `~`, `~=` or `=~`, text only.
    Contains,
    /// `*-`, text only.
    StartsWith,
    /// `-*`, text only.
    EndsWith,
}

/// A resolved value: a number, a text, or a boolean.
#[derive(Debug, Clone)]
pub enum Value {
    /// An integer, kept as its decimal spelling.
    Num(String),
    /// A text literal.
    Txt(String),
    /// A boolean.
    Truth(bool),
}

/// One classified token of a conditional expression.
#[derive(Debug, Clone)]
pub enum Token {
    /// A command reference with its command line.
    CmdRef(CmdRefKind, String),
    /// `AND` or `OR`.
    Logic(LogicOp),
    /// A comparator symbol.
    Cmp(CmpOp),
    /// A `$name` variable reference.
    VarRef(String),
    /// An already-resolved value.
    Val(Value),
}

/// The mathematical form of a `Value`.
pub enum GValue {
    /// An integer, kept as its decimal spelling.
    Num(Seq<char>),
    /// A text literal.
    Txt(Seq<char>),
    /// A boolean.
    Truth(bool),
}

/// The mathematical form of a `Token`.
pub enum GToken {
    /// A command reference with its command line.
    CmdRef(CmdRefKind, Seq<char>),
    /// `AND` or `OR`.
    Logic(LogicOp),
    /// A comparator symbol.
    Cmp(CmpOp),
    /// A `$name` variable reference.
    VarRef(Seq<char>),
    /// An already-resolved value.
    Val(GValue),
}

impl View for Value {
    type V = GValue;

    open spec fn view(&self) -> GValue {
        match self {
            Value::Num(s) => GValue::Num(s@),
            Value::Txt(s) => GValue::Txt(s@),
            Value::Truth(b) => GValue::Truth(*b),
        }
    }
}

impl DeepView for Value {
    type V = GValue;

    open spec fn deep_view(&self) -> GValue {
        self.view()
    }
}

impl View for Token {
    type V = GToken;

    open spec fn view(&self) -> GToken {
        match self {
            Token::CmdRef(k, s) => GToken::CmdRef(*k, s@),
            Token::Logic(op) => GToken::Logic(*op),
            Token::Cmp(op) => GToken::Cmp(*op),
            Token::VarRef(s) => GToken::VarRef(s@),
            Token::Val(v) => GToken::Val(v@),
        }
    }
}

impl DeepView for Token {
    type V = GToken;

    open spec fn deep_view(&self) -> GToken {
        self.view()
    }
}

/// The command-reference prefix a word carries, if any.
pub open spec fn cmdref_kind_of(w: Seq<char>) -> Option<CmdRefKind> {
    if spec_prefix_ci(w, "OK:"@) {
        Option::Some(CmdRefKind::Succeeds)
    } else if spec_prefix_ci(w, "FAIL:"@) {
        Option::Some(CmdRefKind::Fails)
    } else if spec_prefix_ci(w, "CODE:"@) {
        Option::Some(CmdRefKind::ExitCode)
    } else if spec_prefix_ci(w, "OUT:"@) {
        Option::Some(CmdRefKind::Stdout)
    } else if spec_prefix_ci(w, "ERR:"@) {
        Option::Some(CmdRefKind::Stderr)
    } else {
        Option::None
    }
}

/// The prefix text of one command-reference kind.
pub open spec fn cmdref_prefix(k: CmdRefKind) -> Seq<char> {
    match k {
        CmdRefKind::Succeeds => "OK:"@,
        CmdRefKind::Fails => "FAIL:"@,
        CmdRefKind::ExitCode => "CODE:"@,
        CmdRefKind::Stdout => "OUT:"@,
        CmdRefKind::Stderr => "ERR:"@,
    }
}

/// The command line after a command-reference prefix.
pub open spec fn cmdref_payload(w: Seq<char>) -> Seq<char> {
    match cmdref_kind_of(w) {
        Option::Some(k) => w.skip(cmdref_prefix(k).len() as int),
        Option::None => w,
    }
}

/// The logic word a token spells, if any (case-insensitive).
pub open spec fn logic_of(w: Seq<char>) -> Option<LogicOp> {
    if spec_eq_ci(w, "AND"@) {
        Option::Some(LogicOp::And)
    } else if spec_eq_ci(w, "OR"@) {
        Option::Some(LogicOp::Or)
    } else {
        Option::None
    }
}

/// The comparator a word spells, if any.
pub open spec fn cmp_of(w: Seq<char>) -> Option<CmpOp> {
    if w == "=="@ || w == "="@ {
        Option::Some(CmpOp::Equal)
    } else if w == "!="@ || w == "=!"@ || w == "!"@ {
        Option::Some(CmpOp::Different)
    } else if w == "<"@ {
        Option::Some(CmpOp::Less)
    } else if w == "=<"@ || w == "<="@ {
        Option::Some(CmpOp::LessOrEqual)
    } else if w == ">"@ {
        Option::Some(CmpOp::Greater)
    } else if w == ">="@ || w == "=>"@ {
        Option::Some(CmpOp::GreaterOrEqual)
    } else if w == "~~"@ || w == "~"@ || w == "~="@ || w == "=~"@ {
        Option::Some(CmpOp::Contains)
    } else if w == "*-"@ {
        Option::Some(CmpOp::StartsWith)
    } else if w == "-*"@ {
        Option::Some(CmpOp::EndsWith)
    } else {
        Option::None
    }
}

/// Classification of the words from position `i` on, with `acc` holding
/// the tokens classified so far.  A word that matches no rule glues onto a
/// preceding command reference, or becomes a text literal.
pub open spec fn spec_classify_from(
    ws: Seq<Seq<char>>,
    i: int,
    acc: Seq<GToken>,
) -> Result<Seq<GToken>, GEvalError>
    decreases ws.len() - i,
{
    if i < 0 || i >= ws.len() {
        Result::Ok(acc)
    } else {
        let w = ws[i];
        if cmdref_kind_of(w) is Some {
            if cmdref_payload(w).len() == 0 {
                Result::Err(GEvalError::DanglingReferer(w))
            } else {
                spec_classify_from(
                    ws,
                    i + 1,
                    acc.push(GToken::CmdRef(cmdref_kind_of(w)->Some_0, cmdref_payload(w))),
                )
            }
        } else if logic_of(w) is Some {
            spec_classify_from(ws, i + 1, acc.push(GToken::Logic(logic_of(w)->Some_0)))
        } else if cmp_of(w) is Some {
            spec_classify_from(ws, i + 1, acc.push(GToken::Cmp(cmp_of(w)->Some_0)))
        } else if w.len() > 0 && w[0] == '$' {
            spec_classify_from(ws, i + 1, acc.push(GToken::VarRef(w.skip(1))))
        } else if is_uint_str(w) {
            spec_classify_from(ws, i + 1, acc.push(GToken::Val(GValue::Num(w))))
        } else if acc.len() > 0 && acc.last() is CmdRef {
            spec_classify_from(
                ws,
                i + 1,
                acc.update(
                    acc.len() - 1,
                    GToken::CmdRef(acc.last()->CmdRef_0, acc.last()->CmdRef_1 + " "@ + w),
                ),
            )
        } else {
            spec_classify_from(ws, i + 1, acc.push(GToken::Val(GValue::Txt(w))))
        }
    }
}

/// Classification of a whole condition word list.
pub open spec fn spec_classify(ws: Seq<Seq<char>>) -> Result<Seq<GToken>, GEvalError> {
    spec_classify_from(ws, 0, Seq::empty())
}

/// A well-formed resolved value: a number value always spells an integer.
pub open spec fn value_wf(v: GValue) -> bool {
    v is Num ==> is_int_str(v->Num_0)
}

/// A well-formed token: its value, if it holds one, is well formed.
pub open spec fn token_wf(t: GToken) -> bool {
    t is Val ==> value_wf(t->Val_0)
}

/// Every value in the list is well formed.
pub open spec fn items_wf(ts: Seq<GToken>) -> bool {
    forall|j: int| 0 <= j < ts.len() ==> token_wf(#[trigger] ts[j])
}

/// Command references, variable references and literals are values;
/// logic words and comparators are operators.
pub open spec fn is_value_token(t: GToken) -> bool {
    t is CmdRef || t is VarRef || t is Val
}

/// The text a token is reported as in a syntax diagnostic.
pub open spec fn spec_token_text(t: GToken) -> Seq<char> {
    match t {
        GToken::CmdRef(_, p) => p,
        GToken::VarRef(n) => n,
        GToken::Logic(op) => if op is And {
            "AND"@
        } else {
            "OR"@
        },
        GToken::Cmp(op) => match op {
            CmpOp::Equal => "EQUAL"@,
            CmpOp::Different => "DIFFERENT"@,
            CmpOp::Less => "LESS"@,
            CmpOp::LessOrEqual => "LESS_OR_EQUAL"@,
            CmpOp::Greater => "GREATER"@,
            CmpOp::GreaterOrEqual => "GREATER_OR_EQUAL"@,
            CmpOp::Contains => "CONTAINS"@,
            CmpOp::StartsWith => "STARTS_WITH"@,
            CmpOp::EndsWith => "ENDS_WITH"@,
        },
        GToken::Val(v) => match v {
            GValue::Num(s) => s,
            GValue::Txt(s) => s,
            GValue::Truth(b) => if b {
                "1"@
            } else {
                "0"@
            },
        },
    }
}

/// The first violation of the value/operator alternation from position
/// `j` on: even slots must hold values, odd slots operators, and the list
/// must end on a value.
pub open spec fn first_alt_violation(ts: Seq<GToken>, j: int) -> Option<GEvalError>
    decreases ts.len() - j,
{
    if j < 0 || j >= ts.len() {
        if ts.len() % 2 == 1 {
            Option::None
        } else {
            Option::Some(GEvalError::MissingFinalValue)
        }
    } else if j % 2 == 0 && !is_value_token(ts[j]) {
        Option::Some(GEvalError::ExpectedValue(spec_token_text(ts[j])))
    } else if j % 2 == 1 && is_value_token(ts[j]) {
        Option::Some(GEvalError::ExpectedOperator(spec_token_text(ts[j])))
    } else {
        first_alt_violation(ts, j + 1)
    }
}

/// A token list in reducible shape: odd length, values on even slots,
/// operators on odd slots.
pub open spec fn alternation_wf(ts: Seq<GToken>) -> bool {
    &&& ts.len() % 2 == 1
    &&& forall|j: int|
        0 <= j < ts.len() ==> (if j % 2 == 0 {
            is_value_token(#[trigger] ts[j])
        } else {
            !is_value_token(ts[j])
        })
}

/// A list with no alternation violation is in reducible shape.
pub proof fn lemma_alternation_wf(ts: Seq<GToken>, j: int)
    requires
        0 <= j <= ts.len(),
        first_alt_violation(ts, j) is None,
        forall|k: int|
            0 <= k < j ==> (if k % 2 == 0 {
                is_value_token(#[trigger] ts[k])
            } else {
                !is_value_token(ts[k])
            }),
    ensures
        alternation_wf(ts),
    decreases ts.len() - j,
{
    if j < ts.len() {
        lemma_alternation_wf(ts, j + 1);
    }
}

/// Classification followed by the alternation check.
pub open spec fn spec_classify_checked(ws: Seq<Seq<char>>) -> Result<Seq<GToken>, GEvalError> {
    match spec_classify(ws) {
        Result::Err(e) => Result::Err(e),
        Result::Ok(ts) => match first_alt_violation(ts, 0) {
            Option::Some(e) => Result::Err(e),
            Option::None => Result::Ok(ts),
        },
    }
}

/// The command-reference prefix of a word, with its length.
fn cmdref_head(w: &String) -> (r: Option<(CmdRefKind, usize)>)
    ensures
        match r {
            Option::Some(p) => cmdref_kind_of(w@) == Option::Some(p.0) && p.1 as int
                == cmdref_prefix(p.0).len() && p.1 <= w@.len(),
            Option::None => cmdref_kind_of(w@) is None,
        },
{
    if str_prefix_ci(w.as_str(), "OK:") {
        proof {
            reveal_strlit("OK:");
        }
        Some((CmdRefKind::Succeeds, 3))
    } else if str_prefix_ci(w.as_str(), "FAIL:") {
        proof {
            reveal_strlit("FAIL:");
        }
        Some((CmdRefKind::Fails, 5))
    } else if str_prefix_ci(w.as_str(), "CODE:") {
        proof {
            reveal_strlit("CODE:");
        }
        Some((CmdRefKind::ExitCode, 5))
    } else if str_prefix_ci(w.as_str(), "OUT:") {
        proof {
            reveal_strlit("OUT:");
        }
        Some((CmdRefKind::Stdout, 4))
    } else if str_prefix_ci(w.as_str(), "ERR:") {
        proof {
            reveal_strlit("ERR:");
        }
        Some((CmdRefKind::Stderr, 4))
    } else {
        None
    }
}

/// The comparator a word spells, if any.
fn cmp_head(w: &String) -> (r: Option<CmpOp>)
    ensures
        match r {
            Option::Some(op) => cmp_of(w@) == Option::Some(op),
            Option::None => cmp_of(w@) is None,
        },
{
    let s = w.as_str();
    if str_eq(s, "==") || str_eq(s, "=") {
        Some(CmpOp::Equal)
    } else if str_eq(s, "!=") || str_eq(s, "=!") || str_eq(s, "!") {
        Some(CmpOp::Different)
    } else if str_eq(s, "<") {
        Some(CmpOp::Less)
    } else if str_eq(s, "=<") || str_eq(s, "<=") {
        Some(CmpOp::LessOrEqual)
    } else if str_eq(s, ">") {
        Some(CmpOp::Greater)
    } else if str_eq(s, ">=") || str_eq(s, "=>") {
        Some(CmpOp::GreaterOrEqual)
    } else if str_eq(s, "~~") || str_eq(s, "~") || str_eq(s, "~=") || str_eq(s, "=~") {
        Some(CmpOp::Contains)
    } else if str_eq(s, "*-") {
        Some(CmpOp::StartsWith)
    } else if str_eq(s, "-*") {
        Some(CmpOp::EndsWith)
    } else {
        None
    }
}

/// The text a token is reported as in a syntax diagnostic.
pub fn token_text(t: &Token) -> (r: String)
    ensures
        r@ == spec_token_text(t@),
{
    match t {
        Token::CmdRef(_, p) => p.clone(),
        Token::VarRef(n) => n.clone(),
        Token::Logic(op) => match op {
            LogicOp::And => String::from_str("AND"),
            LogicOp::Or => String::from_str("OR"),
        },
        Token::Cmp(op) => match op {
            CmpOp::Equal => String::from_str("EQUAL"),
            CmpOp::Different => String::from_str("DIFFERENT"),
            CmpOp::Less => String::from_str("LESS"),
            CmpOp::LessOrEqual => String::from_str("LESS_OR_EQUAL"),
            CmpOp::Greater => String::from_str("GREATER"),
            CmpOp::GreaterOrEqual => String::from_str("GREATER_OR_EQUAL"),
            CmpOp::Contains => String::from_str("CONTAINS"),
            CmpOp::StartsWith => String::from_str("STARTS_WITH"),
            CmpOp::EndsWith => String::from_str("ENDS_WITH"),
        },
        Token::Val(v) => match v {
            Value::Num(s) => s.clone(),
            Value::Txt(s) => s.clone(),
            Value::Truth(b) => if *b {
                String::from_str("1")
            } else {
                String::from_str("0")
            },
        },
    }
}

/// Check the value/operator alternation of a classified list.
fn alternation_check(toks: &Vec<Token>) -> (r: Option<EvalError>)
    ensures
        match r {
            Option::Some(e) => first_alt_violation(toks.deep_view(), 0) == Option::Some(e@),
            Option::None => first_alt_violation(toks.deep_view(), 0) is None,
        },
{
    let ghost ts = toks.deep_view();
    let mut j: usize = 0;
    while j < toks.len()
        invariant
            0 <= j <= toks.len(),
            ts == toks.deep_view(),
            first_alt_violation(ts, 0) == first_alt_violation(ts, j as int),
        decreases toks.len() - j,
    {
        proof {
            assert(ts[j as int] == toks@[j as int]@);
        }
        let is_val = match &toks[j] {
            Token::CmdRef(_, _) => true,
            Token::VarRef(_) => true,
            Token::Val(_) => true,
            Token::Logic(_) => false,
            Token::Cmp(_) => false,
        };
        if j % 2 == 0 && !is_val {
            return Some(EvalError::ExpectedValue(token_text(&toks[j])));
        }
        if j % 2 == 1 && is_val {
            return Some(EvalError::ExpectedOperator(token_text(&toks[j])));
        }
        j = j + 1;
    }
    if toks.len() % 2 == 1 {
        None
    } else {
        Some(EvalError::MissingFinalValue)
    }
}

/// Classify a condition word list into tokens and check its shape.
pub fn classify(buf: &Vec<String>) -> (r: Result<Vec<Token>, EvalError>)
    ensures
        match r {
            Result::Ok(v) => spec_classify_checked(buf.deep_view()) == Result::Ok::<
                Seq<GToken>,
                GEvalError,
            >(v.deep_view()) && alternation_wf(v.deep_view()) && items_wf(v.deep_view()),
            Result::Err(e) => spec_classify_checked(buf.deep_view()) == Result::Err::<
                Seq<GToken>,
                GEvalError,
            >(e@),
        },
{
    let ghost ws = buf.deep_view();
    let mut out: Vec<Token> = Vec::new();
    let mut i: usize = 0;
    proof {
        assert(out.deep_view() =~= Seq::<GToken>::empty());
    }
    while i < buf.len()
        invariant
            0 <= i <= buf.len(),
            ws == buf.deep_view(),
            spec_classify(ws) == spec_classify_from(ws, i as int, out.deep_view()),
            items_wf(out.deep_view()),
        decreases buf.len() - i,
    {
        let w: &String = &buf[i];
        proof {
            assert(ws[i as int] == w@);
        }
        let n = w.as_str().unicode_len();
        let ghost out0 = out.deep_view();
        match cmdref_head(w) {
            Some((kind, plen)) => {
                if plen >= n {
                    return Err(EvalError::DanglingReferer(w.clone()));
                }
                let payload = String::from_str(w.as_str().substring_char(plen, n));
                proof {
                    assert(payload@ =~= w@.skip(cmdref_prefix(kind).len() as int));
                }
                out.push(Token::CmdRef(kind, payload));
                proof {
                    assert(out.deep_view() =~= out0.push(
                        GToken::CmdRef(kind, cmdref_payload(w@)),
                    ));
                }
            },
            None => {
                if str_eq_ci(w.as_str(), "AND") {
                    out.push(Token::Logic(LogicOp::And));
                    proof {
                        assert(out.deep_view() =~= out0.push(GToken::Logic(LogicOp::And)));
                    }
                } else if str_eq_ci(w.as_str(), "OR") {
                    out.push(Token::Logic(LogicOp::Or));
                    proof {
                        assert(out.deep_view() =~= out0.push(GToken::Logic(LogicOp::Or)));
                    }
                } else {
                    let cmp = cmp_head(w);
                    match cmp {
                        Some(op) => {
                            out.push(Token::Cmp(op));
                            proof {
                                assert(out.deep_view() =~= out0.push(GToken::Cmp(op)));
                            }
                        },
                        None => {
                            if n > 0 && w.as_str().get_char(0) == '$' {
                                let name = String::from_str(w.as_str().substring_char(1, n));
                                proof {
                                    assert(name@ =~= w@.skip(1));
                                }
                                out.push(Token::VarRef(name));
                                proof {
                                    assert(out.deep_view() =~= out0.push(
                                        GToken::VarRef(w@.skip(1)),
                                    ));
                                }
                            } else if check_uint_str(w.as_str()) {
                                out.push(Token::Val(Value::Num(w.clone())));
                                proof {
                                    assert(out.deep_view() =~= out0.push(
                                        GToken::Val(GValue::Num(w@)),
                                    ));
                                }
                            } else {
                                let mut glued = false;
                                if out.len() > 0 {
                                    let last = out.pop().unwrap();
                                    match last {
                                        Token::CmdRef(k, p) => {
                                            let newp = p.concat(" ").concat(w.as_str());
                                            out.push(Token::CmdRef(k, newp));
                                            glued = true;
                                            proof {
                                                assert(out.deep_view() =~= out0.update(
                                                    out0.len() - 1,
                                                    GToken::CmdRef(
                                                        out0.last()->CmdRef_0,
                                                        out0.last()->CmdRef_1 + " "@ + w@,
                                                    ),
                                                ));
                                            }
                                        },
                                        other => {
                                            out.push(other);
                                            proof {
                                                assert(out.deep_view() =~= out0);
                                            }
                                        },
                                    }
                                }
                                if !glued {
                                    out.push(Token::Val(Value::Txt(w.clone())));
                                    proof {
                                        assert(out.deep_view() =~= out0.push(
                                            GToken::Val(GValue::Txt(w@)),
                                        ));
                                    }
                                }
                            }
                        },
                    }
                }
            },
        }
        i = i + 1;
    }
    match alternation_check(&out) {
        Some(e) => Err(e),
        None => {
            proof {
                lemma_alternation_wf(out.deep_view(), 0);
            }
            Ok(out)
        },
    }
}

} // verus!
