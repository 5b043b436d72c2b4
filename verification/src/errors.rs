//! Error taxonomy of the interpreter.
//!
//! Syntax errors abandon the offending script segment before or during a
//! pass; evaluation errors abort one `if`/`elseif` test, which is then
//! treated as failed; dispatch errors are recorded as a failed command
//! status.  None of them crashes the interpreter.

use vstd::prelude::*;

verus! {

/// Which kind of block a structural diagnostic speaks of.
#[derive(Clone, Copy, PartialEq, Eq, Structural, Debug)]
pub enum BlockKind {
    /// A `lock … ;` loop block.
    LockBlock,
    /// An `if`/`elseif` conditional block.
    IfBlock,
}

/// A malformed script construct, found before or while a pass runs.
#[derive(Debug, Clone)]
pub enum SyntaxError {
    /// A quoted span was opened and never closed.
    UnclosedQuotes,
    /// A `lock` or `if` block never reaches its closing `;`.
    UnclosedBlock(BlockKind),
    /// A closing `;` with no open block to close.
    UnmatchedBlockClose,
    /// `elseif` while the innermost frame is not a conditional frame.
    MisplacedElseif,
    /// `free` outside of any open `lock` block.
    MisplacedFree,
    /// `continue` outside of any open `lock` block.
    MisplacedContinue,
}

impl SyntaxError {
    /// The diagnostic text of this error, as a character sequence.
    pub open spec fn spec_message(&self) -> Seq<char> {
        match self {
            SyntaxError::UnclosedQuotes => "unclosed quotes in the script"@,
            SyntaxError::UnclosedBlock(k) => match k {
                BlockKind::LockBlock => "Unclosed \"LOCK\" statement"@,
                BlockKind::IfBlock => "Unclosed \"IF\" statement"@,
            },
            SyntaxError::UnmatchedBlockClose => "a block-closing marker with no open block"@,
            SyntaxError::MisplacedElseif => "\"ELSEIF\" is not allowed at this position"@,
            SyntaxError::MisplacedFree =>
                "Usage of \"FREE\" is not permited outside of the \"LOCK\" statement"@,
            SyntaxError::MisplacedContinue =>
                "Usage of \"CONTINUE\" is not permited outside of the \"LOCK\" statement"@,
        }
    }

    /// Diagnostic text for this error.
    pub fn message(&self) -> (r: String)
        ensures
            r@ == self.spec_message(),
    {
        match self {
            SyntaxError::UnclosedQuotes => String::from_str("unclosed quotes in the script"),
            SyntaxError::UnclosedBlock(k) => match k {
                BlockKind::LockBlock => String::from_str("Unclosed \"LOCK\" statement"),
                BlockKind::IfBlock => String::from_str("Unclosed \"IF\" statement"),
            },
            SyntaxError::UnmatchedBlockClose => String::from_str(
                "a block-closing marker with no open block",
            ),
            SyntaxError::MisplacedElseif => String::from_str(
                "\"ELSEIF\" is not allowed at this position",
            ),
            SyntaxError::MisplacedFree => String::from_str(
                "Usage of \"FREE\" is not permited outside of the \"LOCK\" statement",
            ),
            SyntaxError::MisplacedContinue => String::from_str(
                "Usage of \"CONTINUE\" is not permited outside of the \"LOCK\" statement",
            ),
        }
    }
}

/// The mathematical form of an `EvalError`: the same cases over
/// character sequences.
pub enum GEvalError {
    /// A command-reference prefix with nothing after the colon.
    DanglingReferer(Seq<char>),
    /// An operator where a value was required.
    ExpectedValue(Seq<char>),
    /// A value where an operator was required.
    ExpectedOperator(Seq<char>),
    /// The condition ends on an operator instead of a value.
    MissingFinalValue,
    /// The two compared values are not of the same kind.
    TypeMismatch,
    /// A text comparator applied to two numbers.
    BadNumComparator,
    /// A numeric comparator applied to two texts.
    BadTxtComparator,
    /// A comparator applied to two booleans.
    BadBoolOperator,
    /// A reference to a variable that is not set.
    UndefinedVariable(Seq<char>),
    /// A referenced command could not be run or returned no exit code.
    CommandFailed(Seq<char>),
    /// The reduction ended on a non-boolean value.
    Inconsistent,
}

/// The diagnostic text of an evaluation error, over its mathematical form.
pub open spec fn spec_eval_message(e: GEvalError) -> Seq<char> {
    match e {
        GEvalError::DanglingReferer(w) => "Used command referer \""@ + w
            + "\" without specifying a command to run"@,
        GEvalError::ExpectedValue(w) => "Expected a thing to compare in place of \""@ + w
            + "\""@,
        GEvalError::ExpectedOperator(w) => "Expected a comparator in place of \""@ + w + "\""@,
        GEvalError::MissingFinalValue => "Expected a thing to compare at the end"@,
        GEvalError::TypeMismatch => "Types of values to compare do not match!"@,
        GEvalError::BadNumComparator => "Untolerable comparator for number values"@,
        GEvalError::BadTxtComparator => "Untolerable comparator for text values"@,
        GEvalError::BadBoolOperator => "Untolerable operator for boolean values"@,
        GEvalError::UndefinedVariable(w) => "Variable \""@ + w + "\" is undefined"@,
        GEvalError::CommandFailed(w) => "An error occured on command \""@ + w + "\""@,
        GEvalError::Inconsistent =>
            "Program's logic contradicts itself! Please, report this error to maintainers!"@,
    }
}

/// An error raised while an `if`/`elseif` condition is evaluated.
#[derive(Debug, Clone)]
pub enum EvalError {
    /// A command-reference prefix such as `OK:` with nothing after the colon.
    DanglingReferer(String),
    /// An operator where a value was required.
    ExpectedValue(String),
    /// A value where an operator was required.
    ExpectedOperator(String),
    /// The condition ends on an operator instead of a value.
    MissingFinalValue,
    /// The two compared values are not of the same kind.
    TypeMismatch,
    /// A text comparator applied to two numbers.
    BadNumComparator,
    /// A numeric comparator applied to two texts.
    BadTxtComparator,
    /// A comparator applied to two booleans, where only `AND`/`OR` work.
    BadBoolOperator,
    /// A `$name` reference to a variable that is not set.
    UndefinedVariable(String),
    /// A referenced command could not be run or returned no exit code.
    CommandFailed(String),
    /// The reduction ended on a non-boolean value: an internal
    /// inconsistency that aborts the whole pass.
    Inconsistent,
}

impl View for EvalError {
    type V = GEvalError;

    open spec fn view(&self) -> GEvalError {
        match self {
            EvalError::DanglingReferer(w) => GEvalError::DanglingReferer(w@),
            EvalError::ExpectedValue(w) => GEvalError::ExpectedValue(w@),
            EvalError::ExpectedOperator(w) => GEvalError::ExpectedOperator(w@),
            EvalError::MissingFinalValue => GEvalError::MissingFinalValue,
            EvalError::TypeMismatch => GEvalError::TypeMismatch,
            EvalError::BadNumComparator => GEvalError::BadNumComparator,
            EvalError::BadTxtComparator => GEvalError::BadTxtComparator,
            EvalError::BadBoolOperator => GEvalError::BadBoolOperator,
            EvalError::UndefinedVariable(w) => GEvalError::UndefinedVariable(w@),
            EvalError::CommandFailed(w) => GEvalError::CommandFailed(w@),
            EvalError::Inconsistent => GEvalError::Inconsistent,
        }
    }
}

impl EvalError {
    /// Diagnostic text for this error.
    pub fn message(&self) -> (r: String)
        ensures
            r@ == spec_eval_message(self@),
    {
        match self {
            EvalError::DanglingReferer(w) => String::from_str(
                "Used command referer \"",
            ).concat(w.as_str()).concat("\" without specifying a command to run"),
            EvalError::ExpectedValue(w) => String::from_str(
                "Expected a thing to compare in place of \"",
            ).concat(w.as_str()).concat("\""),
            EvalError::ExpectedOperator(w) => String::from_str(
                "Expected a comparator in place of \"",
            ).concat(w.as_str()).concat("\""),
            EvalError::MissingFinalValue => String::from_str(
                "Expected a thing to compare at the end",
            ),
            EvalError::TypeMismatch => String::from_str(
                "Types of values to compare do not match!",
            ),
            EvalError::BadNumComparator => String::from_str(
                "Untolerable comparator for number values",
            ),
            EvalError::BadTxtComparator => String::from_str(
                "Untolerable comparator for text values",
            ),
            EvalError::BadBoolOperator => String::from_str(
                "Untolerable operator for boolean values",
            ),
            EvalError::UndefinedVariable(w) => String::from_str("Variable \"").concat(
                w.as_str(),
            ).concat("\" is undefined"),
            EvalError::CommandFailed(w) => String::from_str(
                "An error occured on command \"",
            ).concat(w.as_str()).concat("\""),
            EvalError::Inconsistent => String::from_str(
                "Program's logic contradicts itself! Please, report this error to maintainers!",
            ),
        }
    }
}

/// The mathematical form of a `ResolveError`.
pub enum GResolveError {
    /// A `$name` reference to a variable that is unset or empty.
    UndefinedVariable(Seq<char>),
    /// A `$name++`/`$name--` whose current value is not an integer.
    NotANumber(Seq<char>),
    /// A `~` path with no home directory configured.
    NoHomeDirectory,
}

/// The diagnostic text of a resolver error, over its mathematical form.
pub open spec fn spec_resolve_message(e: GResolveError) -> Seq<char> {
    match e {
        GResolveError::UndefinedVariable(w) => "Variable \""@ + w + "\" is undefined"@,
        GResolveError::NotANumber(w) => "Variable \""@ + w + "\" does not hold a number"@,
        GResolveError::NoHomeDirectory => "No home directory is known"@,
    }
}

/// An error raised while one word is rewritten by the value resolver.
#[derive(Debug, Clone)]
pub enum ResolveError {
    /// A `$name` reference to a variable that is unset or empty.
    UndefinedVariable(String),
    /// A `$name++`/`$name--` whose current value is not an integer.
    NotANumber(String),
    /// A `~` path with no home directory configured.
    NoHomeDirectory,
}

impl View for ResolveError {
    type V = GResolveError;

    open spec fn view(&self) -> GResolveError {
        match self {
            ResolveError::UndefinedVariable(w) => GResolveError::UndefinedVariable(w@),
            ResolveError::NotANumber(w) => GResolveError::NotANumber(w@),
            ResolveError::NoHomeDirectory => GResolveError::NoHomeDirectory,
        }
    }
}

impl ResolveError {
    /// Diagnostic text for this error.
    pub fn message(&self) -> (r: String)
        ensures
            r@ == spec_resolve_message(self@),
    {
        match self {
            ResolveError::UndefinedVariable(w) => String::from_str("Variable \"").concat(
                w.as_str(),
            ).concat("\" is undefined"),
            ResolveError::NotANumber(w) => String::from_str("Variable \"").concat(
                w.as_str(),
            ).concat("\" does not hold a number"),
            ResolveError::NoHomeDirectory => String::from_str(
                "No home directory is known",
            ),
        }
    }
}

} // verus!
