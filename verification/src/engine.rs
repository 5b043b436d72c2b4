//! The cursor and block-stack engine.
//!
//! One `ExecutionContext` owns everything a running pass needs: the
//! script, the cursor, the block stack, the pending command buffer, the
//! variable store, and the line counter for diagnostics.  The engine runs
//! as a state machine: `step` consumes one word (or finishes a suspended
//! condition) and either keeps going or hands the host an `Action`; the
//! host performs the outside work and feeds the result back through
//! `provide_outcome` or `provide_chdir`.  Every transition is specified:
//! `spec_step`, `spec_provide_outcome` and `spec_provide_chdir` say
//! exactly what each call does to the whole state and which action comes
//! out.

use vstd::prelude::*;

use crate::builtins;
use crate::errors::{BlockKind, EvalError, GEvalError, GResolveError, SyntaxError,
    spec_eval_message, spec_resolve_message};
use crate::eval::{eval_progress, supply_outcome, spec_apply_outcome, spec_progress, CondStep,
    GProgress};
use crate::frames::{
    apply_continue, apply_free, close_block, elseif_disposition, has_skip, has_skip_frame,
    is_loop_frame, is_suppressed, loop_origin, nearest_loop, suppressed, BlockClose, ElseifMode,
    Frame,
};
use crate::resolve::{opt_view, resolve_word, spec_resolve_word};
use crate::status::{failure_status, success_status, CommandOutcome, CommandStatus, GOutcome};
use crate::strutil::{spec_split_ws, split_ws, str_eq};
use crate::values::{classify, items_wf, spec_classify_checked, GToken, Token};
use crate::vars::{chenv, chenv_ok, chenv_value, chenv_err_text, getenv, getenv_err_text,
    map_get, remenv, remenv_err_text, set_target, setenv, setenv_err_text, VarStore};
use crate::words::{bump_line, separator_of, word_core, word_parts, Separator};

verus! {

/// One reported problem: its text and the 1-based line it belongs to.
pub struct Diagnostic {
    /// The diagnostic text.
    pub message: String,
    /// The 1-based script line the construct stood on.
    pub line: usize,
}

/// The mathematical form of a `Diagnostic`.
#[verifier::ext_equal]
pub struct GDiag {
    /// The diagnostic text.
    pub message: Seq<char>,
    /// The 1-based script line the construct stood on.
    pub line: usize,
}

impl View for Diagnostic {
    type V = GDiag;

    open spec fn view(&self) -> GDiag {
        GDiag { message: self.message@, line: self.line }
    }
}

impl DeepView for Diagnostic {
    type V = GDiag;

    open spec fn deep_view(&self) -> GDiag {
        self.view()
    }
}

/// What the engine asks its host to do before it can continue.
pub enum Action {
    /// Run an external command and report its outcome through
    /// `provide_outcome`.  A silent run suppresses the child's standard
    /// output and captures both streams.
    RunCommand {
        /// The command name and its arguments.
        args: Vec<String>,
        /// Suppress the child's standard output and capture the streams.
        silent: bool,
    },
    /// Change the working directory and report through `provide_chdir`.
    ChangeDir {
        /// The directory to change to.
        path: String,
    },
    /// Print this text on standard output, then keep stepping.
    PrintOut {
        /// The text to print.
        text: String,
    },
    /// Terminate the host process with this exit code.
    Exit {
        /// The exit code.
        code: i32,
    },
    /// Abort the host process at once.
    AbortNow,
    /// The pass is over: end of script, interrupt, or a fatal defect.
    Done,
}

/// The mathematical form of an `Action`.
#[verifier::ext_equal]
pub enum GAction {
    /// Run an external command.
    RunCommand {
        /// The command name and its arguments.
        args: Seq<Seq<char>>,
        /// Suppress the child's standard output and capture the streams.
        silent: bool,
    },
    /// Change the working directory.
    ChangeDir {
        /// The directory to change to.
        path: Seq<char>,
    },
    /// Print this text on standard output.
    PrintOut {
        /// The text to print.
        text: Seq<char>,
    },
    /// Terminate the host process with this exit code.
    Exit {
        /// The exit code.
        code: i32,
    },
    /// Abort the host process at once.
    AbortNow,
    /// The pass is over.
    Done,
}

/// The mathematical form of what `step` hands out.
pub open spec fn act_view(a: Option<Action>) -> Option<GAction> {
    match a {
        Option::None => Option::None,
        Option::Some(act) => Option::Some(
            match act {
                Action::RunCommand { args, silent } => GAction::RunCommand {
                    args: args.deep_view(),
                    silent,
                },
                Action::ChangeDir { path } => GAction::ChangeDir { path: path@ },
                Action::PrintOut { text } => GAction::PrintOut { text: text@ },
                Action::Exit { code } => GAction::Exit { code },
                Action::AbortNow => GAction::AbortNow,
                Action::Done => GAction::Done,
            },
        ),
    }
}

/// What the engine is waiting for, if anything.
enum Pending {
    /// Nothing outstanding.
    Idle,
    /// A plain command runs outside; its status goes to this position.
    AwaitPlain { at: usize },
    /// A condition's referenced command runs outside.
    AwaitCond { items: Vec<Token>, pos: usize, replace_top: bool },
    /// A condition has its outcome substituted and can reduce further.
    CondReady { items: Vec<Token>, replace_top: bool },
    /// A directory change runs outside; its status goes to this position.
    AwaitChdir { at: usize },
}

/// The mathematical form of the engine's pending state.
#[verifier::ext_equal]
pub enum GPending {
    /// Nothing outstanding.
    Idle,
    /// A plain command runs outside; its status goes to this position.
    AwaitPlain {
        /// The script position of the command.
        at: usize,
    },
    /// A condition's referenced command runs outside.
    AwaitCond {
        /// The condition's token list.
        items: Seq<GToken>,
        /// The slot the outcome resolves.
        pos: usize,
        /// Whether the finished test replaces the top frame (`elseif`).
        replace_top: bool,
    },
    /// A condition has its outcome substituted and can reduce further.
    CondReady {
        /// The condition's token list.
        items: Seq<GToken>,
        /// Whether the finished test replaces the top frame (`elseif`).
        replace_top: bool,
    },
    /// A directory change runs outside; its status goes to this position.
    AwaitChdir {
        /// The script position of the command.
        at: usize,
    },
}

/// The whole engine state, mathematically: one value per field of the
/// running pass.
#[verifier::ext_equal]
pub struct GState {
    /// The loaded script, immutable for the pass.
    pub script: Seq<Seq<char>>,
    /// The cursor: index of the next word.
    pub cursor: usize,
    /// The block stack, one frame per open block.
    pub stack: Seq<Frame>,
    /// The pending command buffer.
    pub buf: Seq<Seq<char>>,
    /// Where the buffered command began.
    pub cmd_start: usize,
    /// The 1-based line counter.
    pub line: usize,
    /// The variable store, as a map.
    pub vars: Map<Seq<char>, Seq<char>>,
    /// The home directory, if known.
    pub home: Option<Seq<char>>,
    /// What the engine waits for.
    pub pending: GPending,
    /// The pass is over.
    pub done: bool,
    /// An interrupt was requested.
    pub interrupt_now: bool,
    /// Interrupt requests are honoured.
    pub allow_interrupts: bool,
    /// Command statuses, keyed by script position.
    pub statuses: Seq<(usize, CommandStatus)>,
    /// Every diagnostic reported so far.
    pub diags: Seq<GDiag>,
}

/// Nothing outstanding: the engine can step.
pub open spec fn g_ready(p: GPending) -> bool {
    p is Idle || p is CondReady
}

/// The engine waits for a command outcome.
pub open spec fn g_awaiting_command(p: GPending) -> bool {
    p is AwaitPlain || p is AwaitCond
}

/// The engine's internal consistency: a suspended condition always holds
/// a well-formed token list, and its awaited slot really is a command
/// reference.
pub open spec fn g_wf(s: GState) -> bool {
    match s.pending {
        GPending::AwaitCond { items, pos, .. } => items_wf(items) && pos < items.len() && items[
            pos as int
        ] is CmdRef,
        GPending::CondReady { items, .. } => items_wf(items),
        _ => true,
    }
}

/// The action handed out matches what the engine now waits for.
pub open spec fn g_matches(s: GState, a: Option<GAction>) -> bool {
    match a {
        Option::None => g_ready(s.pending),
        Option::Some(act) => match act {
            GAction::RunCommand { .. } => g_awaiting_command(s.pending),
            GAction::ChangeDir { .. } => s.pending is AwaitChdir,
            GAction::PrintOut { .. } => g_ready(s.pending),
            GAction::Exit { .. } => s.done && g_ready(s.pending),
            GAction::AbortNow => s.done && g_ready(s.pending),
            GAction::Done => s.done && g_ready(s.pending),
        },
    }
}

/// The state a fresh pass starts in.
pub open spec fn init_state(
    script: Seq<Seq<char>>,
    vars: Map<Seq<char>, Seq<char>>,
    home: Option<Seq<char>>,
) -> GState {
    GState {
        script,
        cursor: 0,
        stack: Seq::empty(),
        buf: Seq::empty(),
        cmd_start: 0,
        line: 1,
        vars,
        home,
        pending: GPending::Idle,
        done: false,
        interrupt_now: false,
        allow_interrupts: true,
        statuses: Seq::empty(),
        diags: Seq::empty(),
    }
}

/// Report one diagnostic at the current line.
pub open spec fn spec_report(s: GState, message: Seq<char>) -> GState {
    GState { diags: s.diags.push(GDiag { message, line: s.line }), ..s }
}

/// Record one command status at a position.
pub open spec fn spec_record(s: GState, at: usize, st: CommandStatus) -> GState {
    GState { statuses: s.statuses.push((at, st)), ..s }
}

/// Push or replace the conditional frame a finished test decided.
pub open spec fn spec_push_cond(s: GState, ok: bool, replace_top: bool) -> GState {
    let base = if replace_top && s.stack.len() > 0 {
        s.stack.drop_last()
    } else {
        s.stack
    };
    GState {
        stack: base.push(
            if ok {
                Frame::CondSucceeded
            } else {
                Frame::CondFailed
            },
        ),
        ..s
    }
}

/// Which kind of block an open frame belongs to.
pub open spec fn frame_kind(f: Frame) -> BlockKind {
    if f is Loop || f is LoopRestart || f is LoopBroken {
        BlockKind::LockBlock
    } else {
        BlockKind::IfBlock
    }
}

/// Drive a suspended condition as far as it can go: push the decided
/// frame, report an error as a failed test, or stop at a command
/// reference and ask the host to run it silently.
pub open spec fn spec_continue_eval(s: GState, items: Seq<GToken>, replace_top: bool) -> (
    GState,
    Option<GAction>,
) {
    let step = spec_progress(s.vars, items);
    match step.1 {
        GProgress::Done(res) => match res {
            Result::Ok(b) => (spec_push_cond(s, b, replace_top), Option::None),
            Result::Err(e) => {
                let s2 = spec_report(s, spec_eval_message(e));
                if e is Inconsistent {
                    (GState { done: true, ..s2 }, Option::Some(GAction::Done))
                } else {
                    (spec_push_cond(s2, false, replace_top), Option::None)
                }
            },
        },
        GProgress::Need(pos, k, cmd) => (
            GState {
                pending: GPending::AwaitCond { items: step.0, pos: pos as usize, replace_top },
                ..s
            },
            Option::Some(GAction::RunCommand { args: spec_split_ws(cmd), silent: true }),
        ),
    }
}

/// Start evaluating an `if`/`elseif` condition from its word group (the
/// leading keyword is dropped, the rest classified and reduced).
pub open spec fn spec_begin_eval(s: GState, cmd: Seq<Seq<char>>, replace_top: bool) -> (
    GState,
    Option<GAction>,
) {
    match spec_classify_checked(cmd.skip(1)) {
        Result::Err(e) => (
            spec_push_cond(spec_report(s, spec_eval_message(e)), false, replace_top),
            Option::None,
        ),
        Result::Ok(items) => spec_continue_eval(s, items, replace_top),
    }
}

/// Resolve every word of a command group in order, threading the variable
/// store through the increments.  On an error the words already resolved
/// have written their bindings; the store at that point is returned.
pub open spec fn spec_resolve_words(
    m: Map<Seq<char>, Seq<char>>,
    home: Option<Seq<char>>,
    ws: Seq<Seq<char>>,
    i: int,
) -> Result<(Seq<Seq<char>>, Map<Seq<char>, Seq<char>>), (GResolveError, Map<Seq<char>, Seq<char>>)>
    decreases ws.len() - i,
{
    if i < 0 || i >= ws.len() {
        Result::Ok((Seq::empty(), m))
    } else {
        match spec_resolve_word(m, home, ws[i]) {
            Result::Err(e) => Result::Err((e, m)),
            Result::Ok(p) => {
                let m2 = match p.1 {
                    Option::Some(b) => m.insert(b.0, b.1),
                    Option::None => m,
                };
                match spec_resolve_words(m2, home, ws, i + 1) {
                    Result::Err(em) => Result::Err(em),
                    Result::Ok(rm) => Result::Ok((seq![p.0] + rm.0, rm.1)),
                }
            },
        }
    }
}

/// Dispatch one complete buffered command: interpret the control
/// keywords, run the variable builtins on the store, and hand everything
/// else to the host.  `s.buf` holds the command; it is consumed.
pub open spec fn spec_dispatch(s0: GState, sep: Separator) -> (GState, Option<GAction>) {
    let cmd = s0.buf;
    let at = s0.cmd_start;
    let s = GState { buf: Seq::empty(), ..s0 };
    let adv = GState { cursor: (s.cursor + 1) as usize, ..s };
    if cmd.len() == 0 {
        if sep == Separator::EndOfBlock {
            if s.stack.len() == 0 {
                let s2 = spec_report(
                    s,
                    SyntaxError::UnmatchedBlockClose.spec_message(),
                );
                (GState { done: true, ..s2 }, Option::Some(GAction::Done))
            } else if is_loop_frame(s.stack.last()) {
                let origin = loop_origin(s.stack.last());
                (
                    GState {
                        stack: s.stack.update(s.stack.len() - 1, Frame::Loop(origin)),
                        cursor: origin,
                        ..s
                    },
                    Option::None,
                )
            } else {
                (GState { stack: s.stack.drop_last(), ..adv }, Option::None)
            }
        } else {
            (adv, Option::None)
        }
    } else if cmd[0] == "lock"@ {
        let f = if suppressed(s.stack) {
            Frame::LoopBroken
        } else {
            Frame::Loop((s.cursor + 1) as usize)
        };
        (GState { stack: s.stack.push(f), ..adv }, Option::None)
    } else if cmd[0] == "if"@ {
        if suppressed(s.stack) {
            (GState { stack: s.stack.push(Frame::CondDone), ..adv }, Option::None)
        } else {
            spec_begin_eval(adv, cmd, false)
        }
    } else if cmd[0] == "elseif"@ {
        if has_skip_frame(s.stack) {
            (adv, Option::None)
        } else if s.stack.len() == 0 {
            (spec_report(adv, SyntaxError::MisplacedElseif.spec_message()), Option::None)
        } else if s.stack.last() is CondFailed {
            spec_begin_eval(adv, cmd, true)
        } else if s.stack.last() is CondSucceeded || s.stack.last() is CondDone {
            (
                GState {
                    stack: s.stack.update(s.stack.len() - 1, Frame::CondDone),
                    ..adv
                },
                Option::None,
            )
        } else {
            (spec_report(adv, SyntaxError::MisplacedElseif.spec_message()), Option::None)
        }
    } else if suppressed(s.stack) {
        (adv, Option::None)
    } else if cmd[0] == "free"@ {
        match nearest_loop(s.stack) {
            Option::Some(i) => (
                GState { stack: s.stack.update(i, Frame::LoopBroken), ..adv },
                Option::None,
            ),
            Option::None => (
                spec_report(adv, SyntaxError::MisplacedFree.spec_message()),
                Option::None,
            ),
        }
    } else if cmd[0] == "continue"@ {
        match nearest_loop(s.stack) {
            Option::Some(i) => (
                GState {
                    stack: s.stack.update(i, Frame::LoopRestart(loop_origin(s.stack[i]))),
                    ..adv
                },
                Option::None,
            ),
            Option::None => (
                spec_report(adv, SyntaxError::MisplacedContinue.spec_message()),
                Option::None,
            ),
        }
    } else if cmd[0].len() > 0 && cmd[0][0] == '#' {
        (adv, Option::None)
    } else {
        match spec_resolve_words(s.vars, s.home, cmd, 0) {
            Result::Err(em) => {
                let s2 = spec_report(GState { vars: em.1, ..s }, spec_resolve_message(em.0));
                (
                    GState { cursor: (s.cursor + 1) as usize, ..spec_record(
                        s2,
                        at,
                        failure_status(),
                    ) },
                    Option::None,
                )
            },
            Result::Ok(rm) => {
                let rs = rm.0;
                let s1 = GState { vars: rm.1, cursor: (s.cursor + 1) as usize, ..s };
                if rs[0] == "set"@ {
                    match set_target(rs) {
                        Option::Some(t) => (
                            spec_record(
                                GState { vars: s1.vars.insert(t.0, t.1), ..s1 },
                                at,
                                success_status(),
                            ),
                            Option::None,
                        ),
                        Option::None => (
                            spec_record(
                                spec_report(s1, setenv_err_text(rs)),
                                at,
                                failure_status(),
                            ),
                            Option::None,
                        ),
                    }
                } else if rs[0] == "get"@ {
                    if rs.len() == 2 && map_get(s1.vars, rs[1]) is Some {
                        (
                            spec_record(s1, at, success_status()),
                            Option::Some(
                                GAction::PrintOut { text: map_get(s1.vars, rs[1])->Some_0 },
                            ),
                        )
                    } else {
                        (
                            spec_record(
                                spec_report(s1, getenv_err_text(s1.vars, rs)),
                                at,
                                failure_status(),
                            ),
                            Option::None,
                        )
                    }
                } else if rs[0] == "rem"@ {
                    if rs.len() >= 2 && crate::vars::is_plain_name(rs[1]) {
                        (
                            spec_record(
                                GState { vars: s1.vars.remove(rs[1]), ..s1 },
                                at,
                                success_status(),
                            ),
                            Option::None,
                        )
                    } else {
                        (
                            spec_record(
                                spec_report(s1, remenv_err_text(rs)),
                                at,
                                failure_status(),
                            ),
                            Option::None,
                        )
                    }
                } else if rs[0] == "++"@ {
                    if chenv_ok(s1.vars, rs) {
                        (
                            spec_record(
                                GState {
                                    vars: s1.vars.insert(rs[1], chenv_value(s1.vars, rs, true)),
                                    ..s1
                                },
                                at,
                                success_status(),
                            ),
                            Option::None,
                        )
                    } else {
                        (
                            spec_record(
                                spec_report(s1, chenv_err_text(s1.vars, rs)),
                                at,
                                failure_status(),
                            ),
                            Option::None,
                        )
                    }
                } else if rs[0] == "--"@ {
                    if chenv_ok(s1.vars, rs) {
                        (
                            spec_record(
                                GState {
                                    vars: s1.vars.insert(
                                        rs[1],
                                        chenv_value(s1.vars, rs, false),
                                    ),
                                    ..s1
                                },
                                at,
                                success_status(),
                            ),
                            Option::None,
                        )
                    } else {
                        (
                            spec_record(
                                spec_report(s1, chenv_err_text(s1.vars, rs)),
                                at,
                                failure_status(),
                            ),
                            Option::None,
                        )
                    }
                } else if rs[0] == "gt"@ {
                    if rs.len() == 2 {
                        (
                            GState { pending: GPending::AwaitChdir { at }, ..s1 },
                            Option::Some(GAction::ChangeDir { path: rs[1] }),
                        )
                    } else {
                        (
                            spec_record(
                                spec_report(s1, builtins::gt_err_text(rs)),
                                at,
                                failure_status(),
                            ),
                            Option::None,
                        )
                    }
                } else if rs[0] == "exit"@ {
                    if builtins::exit_ok(rs) {
                        (
                            GState { done: true, ..s1 },
                            Option::Some(GAction::Exit { code: builtins::exit_code_of(rs) }),
                        )
                    } else {
                        (
                            spec_record(
                                spec_report(s1, builtins::exit_err_text(rs)),
                                at,
                                failure_status(),
                            ),
                            Option::None,
                        )
                    }
                } else if rs[0] == "panic"@ {
                    (GState { done: true, ..s1 }, Option::Some(GAction::AbortNow))
                } else {
                    (
                        GState { pending: GPending::AwaitPlain { at }, ..s1 },
                        Option::Some(GAction::RunCommand { args: rs, silent: false }),
                    )
                }
            },
        }
    }
}

/// One engine step.  In order: a finished pass only reports it is done; a
/// requested and honoured interrupt ends the pass at once, discarding any
/// suspended condition; a suspended condition is driven further; past the
/// script's end every still-open block is reported unclosed and the pass
/// ends; otherwise the word at the cursor is consumed and, when it
/// completes a command, dispatched.
pub open spec fn spec_step(s: GState) -> (GState, Option<GAction>) {
    if s.done {
        (s, Option::Some(GAction::Done))
    } else if s.interrupt_now && s.allow_interrupts {
        (
            GState { pending: GPending::Idle, done: true, ..s },
            Option::Some(GAction::Done),
        )
    } else {
        match s.pending {
            GPending::CondReady { items, replace_top } => spec_continue_eval(
                GState { pending: GPending::Idle, ..s },
                items,
                replace_top,
            ),
            _ => {
                if s.cursor >= s.script.len() {
                    let unclosed = Seq::new(
                        s.stack.len(),
                        |j: int|
                            GDiag {
                                message: SyntaxError::UnclosedBlock(
                                    frame_kind(s.stack[j]),
                                ).spec_message(),
                                line: s.line,
                            },
                    );
                    (
                        GState { diags: s.diags + unclosed, done: true, ..s },
                        Option::Some(GAction::Done),
                    )
                } else {
                    let w = s.script[s.cursor as int];
                    let core = word_core(w);
                    let sep = separator_of(w);
                    let nl = w.len() > 0 && w.last() == '\n';
                    let s1 = GState {
                        cmd_start: if s.buf.len() == 0 {
                            s.cursor
                        } else {
                            s.cmd_start
                        },
                        buf: if core.len() > 0 {
                            s.buf.push(core)
                        } else {
                            s.buf
                        },
                        ..s
                    };
                    let at_end = s.cursor + 1 >= s.script.len();
                    let lock_alone = s1.buf.len() == 1 && s1.buf[0] == "lock"@;
                    let complete = at_end || sep != Separator::Bare || lock_alone;
                    let sa = if complete {
                        spec_dispatch(s1, sep)
                    } else {
                        (GState { cursor: (s1.cursor + 1) as usize, ..s1 }, Option::None)
                    };
                    if nl {
                        (GState { line: bump_line(sa.0.line), ..sa.0 }, sa.1)
                    } else {
                        sa
                    }
                }
            },
        }
    }
}

/// What handing a command outcome back does: a plain command records its
/// status; a condition has the outcome substituted into the awaited slot,
/// an outcome that yields no value failing the test (or, on an internal
/// inconsistency, ending the pass).
pub open spec fn spec_provide_outcome(s: GState, o: GOutcome) -> GState {
    match s.pending {
        GPending::AwaitPlain { at } => spec_record(
            GState { pending: GPending::Idle, ..s },
            at,
            o.status,
        ),
        GPending::AwaitCond { items, pos, replace_top } => {
            let t = items[pos as int];
            match spec_apply_outcome(t->CmdRef_0, o, t->CmdRef_1) {
                Result::Ok(v) => GState {
                    pending: GPending::CondReady {
                        items: items.update(pos as int, GToken::Val(v)),
                        replace_top,
                    },
                    ..s
                },
                Result::Err(e) => {
                    let s2 = spec_report(
                        GState { pending: GPending::Idle, ..s },
                        spec_eval_message(e),
                    );
                    if e is Inconsistent {
                        GState { done: true, ..s2 }
                    } else {
                        spec_push_cond(s2, false, replace_top)
                    }
                },
            }
        },
        _ => GState { pending: GPending::Idle, ..s },
    }
}

/// What handing a directory-change result back does: a success or failure
/// status is recorded at the awaited position, and the failure's message
/// is reported.
pub open spec fn spec_provide_chdir(s: GState, ok: bool, message: Seq<char>) -> GState {
    match s.pending {
        GPending::AwaitChdir { at } => {
            if ok {
                spec_record(GState { pending: GPending::Idle, ..s }, at, success_status())
            } else {
                spec_record(
                    spec_report(GState { pending: GPending::Idle, ..s }, message),
                    at,
                    failure_status(),
                )
            }
        },
        _ => GState { pending: GPending::Idle, ..s },
    }
}

/// Law (loop termination, engine level): once `free` has marked the open
/// loop broken, the block-closing marker pops the frame and the cursor
/// continues to the word right after the marker — no jump back, so the
/// loop body never runs a second time.
pub proof fn lemma_broken_loop_close(s: GState)
    requires
        s.buf.len() == 0,
        s.stack.len() > 0,
        s.stack.last() is LoopBroken,
    ensures
        spec_dispatch(s, Separator::EndOfBlock).0.cursor == (s.cursor + 1) as usize,
        spec_dispatch(s, Separator::EndOfBlock).0.stack == s.stack.drop_last(),
        spec_dispatch(s, Separator::EndOfBlock).1 is None,
{
}

/// Law (loop restart, engine level): on a loop frame — plain or marked for
/// restart — the block-closing marker jumps the cursor back to the loop's
/// origin and the frame reverts to a plain open loop, so the body runs
/// again from its first word.
pub proof fn lemma_loop_close_jumps_back(s: GState)
    requires
        s.buf.len() == 0,
        s.stack.len() > 0,
        is_loop_frame(s.stack.last()),
    ensures
        spec_dispatch(s, Separator::EndOfBlock).0.cursor == loop_origin(s.stack.last()),
        spec_dispatch(s, Separator::EndOfBlock).0.stack == s.stack.update(
            s.stack.len() - 1,
            Frame::Loop(loop_origin(s.stack.last())),
        ),
        spec_dispatch(s, Separator::EndOfBlock).1 is None,
{
}

/// Law (branch exclusivity, engine level): an `elseif` under a frame that
/// records a taken or finished branch only marks the chain done — its
/// condition is never evaluated (no command runs, no variable or
/// diagnostic changes) and its body is then suppressed.
pub proof fn lemma_elseif_skip_dispatch(s: GState, sep: Separator)
    requires
        s.buf.len() > 0,
        s.buf[0] == "elseif"@,
        !has_skip_frame(s.stack),
        s.stack.len() > 0,
        s.stack.last() is CondSucceeded || s.stack.last() is CondDone,
    ensures
        spec_dispatch(s, sep).0.stack == s.stack.update(s.stack.len() - 1, Frame::CondDone),
        spec_dispatch(s, sep).0.vars == s.vars,
        spec_dispatch(s, sep).0.diags == s.diags,
        spec_dispatch(s, sep).0.pending == s.pending,
        spec_dispatch(s, sep).1 is None,
        suppressed(spec_dispatch(s, sep).0.stack),
{
    reveal_strlit("lock");
    reveal_strlit("if");
    reveal_strlit("elseif");
    assert("elseif"@.len() == 6 && "lock"@.len() == 4 && "if"@.len() == 2);
    assert(s.buf[0] != "lock"@ && s.buf[0] != "if"@);
    let st2 = s.stack.update(s.stack.len() - 1, Frame::CondDone);
    assert(st2.last() is CondDone);
}

/// The data-model bounds of a pass: the cursor stays within
/// `[0, script.len()]` and so does every jump target a loop frame stores.
pub open spec fn g_bounded(s: GState) -> bool {
    &&& s.cursor <= s.script.len()
    &&& forall|i: int|
        0 <= i < s.stack.len() ==> loop_origin(#[trigger] s.stack[i]) <= s.script.len()
}

/// Driving a condition never moves the cursor or the script, and any frame
/// it pushes carries no jump target.
proof fn lemma_continue_eval_bounds(s: GState, items: Seq<GToken>, replace_top: bool)
    requires
        g_bounded(s),
    ensures
        g_bounded(spec_continue_eval(s, items, replace_top).0),
        spec_continue_eval(s, items, replace_top).0.script == s.script,
{
    let step = spec_progress(s.vars, items);
    match step.1 {
        GProgress::Done(res) => match res {
            Result::Ok(b) => {
                assert(loop_origin(
                    if b {
                        Frame::CondSucceeded
                    } else {
                        Frame::CondFailed
                    },
                ) == 0);
            },
            Result::Err(e) => {
                assert(loop_origin(Frame::CondFailed) == 0);
            },
        },
        GProgress::Need(pos, k, cmd) => {},
    }
}

/// Starting a condition never moves the cursor or the script either.
proof fn lemma_begin_eval_bounds(s: GState, cmd: Seq<Seq<char>>, replace_top: bool)
    requires
        g_bounded(s),
    ensures
        g_bounded(spec_begin_eval(s, cmd, replace_top).0),
        spec_begin_eval(s, cmd, replace_top).0.script == s.script,
{
    match spec_classify_checked(cmd.skip(1)) {
        Result::Err(e) => {},
        Result::Ok(items) => {
            lemma_continue_eval_bounds(s, items, replace_top);
        },
    }
}

/// Dispatching one command keeps the cursor and every stored jump target
/// within the script, and never touches the script itself.
proof fn lemma_dispatch_bounds(s0: GState, sep: Separator)
    requires
        g_bounded(s0),
        s0.cursor < s0.script.len(),
    ensures
        g_bounded(spec_dispatch(s0, sep).0),
        spec_dispatch(s0, sep).0.script == s0.script,
{
    let cmd = s0.buf;
    let s = GState { buf: Seq::empty(), ..s0 };
    let adv = GState { cursor: (s.cursor + 1) as usize, ..s };
    assert(adv.cursor <= s.script.len());
    if cmd.len() == 0 {
        if sep == Separator::EndOfBlock && s.stack.len() > 0 && is_loop_frame(s.stack.last()) {
            let origin = loop_origin(s.stack.last());
            assert(loop_origin(s.stack[s.stack.len() - 1]) <= s.script.len());
            let st2 = s.stack.update(s.stack.len() - 1, Frame::Loop(origin));
            assert forall|i: int| 0 <= i < st2.len() implies loop_origin(#[trigger] st2[i])
                <= s.script.len() by {
                if i != st2.len() - 1 {
                    assert(st2[i] == s.stack[i]);
                }
            }
        }
    } else if cmd[0] == "lock"@ {
        let f = if suppressed(s.stack) {
            Frame::LoopBroken
        } else {
            Frame::Loop((s.cursor + 1) as usize)
        };
        assert(loop_origin(f) <= s.script.len());
    } else if cmd[0] == "if"@ {
        if !suppressed(s.stack) {
            lemma_begin_eval_bounds(adv, cmd, false);
        } else {
            assert(loop_origin(Frame::CondDone) == 0);
        }
    } else if cmd[0] == "elseif"@ {
        if !has_skip_frame(s.stack) && s.stack.len() > 0 && s.stack.last() is CondFailed {
            lemma_begin_eval_bounds(adv, cmd, true);
        } else if !has_skip_frame(s.stack) && s.stack.len() > 0 && (
        s.stack.last() is CondSucceeded || s.stack.last() is CondDone) {
            let st2 = s.stack.update(s.stack.len() - 1, Frame::CondDone);
            assert forall|i: int| 0 <= i < st2.len() implies loop_origin(#[trigger] st2[i])
                <= s.script.len() by {
                if i != st2.len() - 1 {
                    assert(st2[i] == s.stack[i]);
                }
            }
        }
    } else if suppressed(s.stack) {
    } else if cmd[0] == "free"@ {
        crate::frames::lemma_nearest_loop_range(s.stack);
        match nearest_loop(s.stack) {
            Option::Some(i) => {
                let st2 = s.stack.update(i, Frame::LoopBroken);
                assert forall|j: int| 0 <= j < st2.len() implies loop_origin(#[trigger] st2[j])
                    <= s.script.len() by {
                    if j != i {
                        assert(st2[j] == s.stack[j]);
                    }
                }
            },
            Option::None => {},
        }
    } else if cmd[0] == "continue"@ {
        crate::frames::lemma_nearest_loop_range(s.stack);
        match nearest_loop(s.stack) {
            Option::Some(i) => {
                let st2 = s.stack.update(i, Frame::LoopRestart(loop_origin(s.stack[i])));
                assert forall|j: int| 0 <= j < st2.len() implies loop_origin(#[trigger] st2[j])
                    <= s.script.len() by {
                    if j != i {
                        assert(st2[j] == s.stack[j]);
                    }
                }
            },
            Option::None => {},
        }
    } else {
    }
}

/// Law (data-model invariants): one engine step keeps the cursor within
/// `[0, script.len()]`, keeps every stored loop origin in bounds, and
/// never changes the script.
pub proof fn lemma_step_preserves_bounds(s: GState)
    requires
        g_bounded(s),
    ensures
        g_bounded(spec_step(s).0),
        spec_step(s).0.script == s.script,
{
    if s.done {
    } else if s.interrupt_now && s.allow_interrupts {
    } else {
        match s.pending {
            GPending::CondReady { items, replace_top } => {
                lemma_continue_eval_bounds(
                    GState { pending: GPending::Idle, ..s },
                    items,
                    replace_top,
                );
            },
            _ => {
                if s.cursor >= s.script.len() {
                } else {
                    let w = s.script[s.cursor as int];
                    let core = word_core(w);
                    let sep = separator_of(w);
                    let s1 = GState {
                        cmd_start: if s.buf.len() == 0 {
                            s.cursor
                        } else {
                            s.cmd_start
                        },
                        buf: if core.len() > 0 {
                            s.buf.push(core)
                        } else {
                            s.buf
                        },
                        ..s
                    };
                    let at_end = s.cursor + 1 >= s.script.len();
                    let lock_alone = s1.buf.len() == 1 && s1.buf[0] == "lock"@;
                    let complete = at_end || sep != Separator::Bare || lock_alone;
                    if complete {
                        lemma_dispatch_bounds(s1, sep);
                    }
                }
            },
        }
    }
}

/// Law: handing an outcome or a directory-change result back never moves
/// the cursor, the stack's jump targets, or the script.
pub proof fn lemma_provide_preserves_bounds(s: GState, o: GOutcome, ok: bool, msg: Seq<char>)
    requires
        g_bounded(s),
    ensures
        g_bounded(spec_provide_outcome(s, o)),
        spec_provide_outcome(s, o).script == s.script,
        g_bounded(spec_provide_chdir(s, ok, msg)),
        spec_provide_chdir(s, ok, msg).script == s.script,
{
    match s.pending {
        GPending::AwaitCond { items, pos, replace_top } => {
            let t = items[pos as int];
            match spec_apply_outcome(t->CmdRef_0, o, t->CmdRef_1) {
                Result::Ok(v) => {},
                Result::Err(e) => {
                    assert(loop_origin(Frame::CondFailed) == 0);
                },
            }
        },
        _ => {},
    }
}

/// One running script pass: cursor, block stack, buffer, variables and
/// diagnostics, bundled so that every component of the pass sees the same
/// live state.
pub struct ExecutionContext {
    script: Vec<String>,
    cursor: usize,
    stack: Vec<Frame>,
    buf: Vec<String>,
    cmd_start: usize,
    line: usize,
    vars: VarStore,
    home: Option<String>,
    pending: Pending,
    done: bool,
    interrupt_now: bool,
    allow_interrupts: bool,
    /// Command statuses, keyed by the script position that produced them.
    pub statuses: Vec<(usize, CommandStatus)>,
    /// Every diagnostic reported during the pass, none swallowed.
    pub diags: Vec<Diagnostic>,
}

impl View for ExecutionContext {
    type V = GState;

    closed spec fn view(&self) -> GState {
        GState {
            script: self.script.deep_view(),
            cursor: self.cursor,
            stack: self.stack@,
            buf: self.buf.deep_view(),
            cmd_start: self.cmd_start,
            line: self.line,
            vars: self.vars.map_view(),
            home: opt_view(&self.home),
            pending: match self.pending {
                Pending::Idle => GPending::Idle,
                Pending::AwaitPlain { at } => GPending::AwaitPlain { at },
                Pending::AwaitCond { ref items, pos, replace_top } => GPending::AwaitCond {
                    items: items.deep_view(),
                    pos,
                    replace_top,
                },
                Pending::CondReady { ref items, replace_top } => GPending::CondReady {
                    items: items.deep_view(),
                    replace_top,
                },
                Pending::AwaitChdir { at } => GPending::AwaitChdir { at },
            },
            done: self.done,
            interrupt_now: self.interrupt_now,
            allow_interrupts: self.allow_interrupts,
            statuses: self.statuses@,
            diags: self.diags.deep_view(),
        }
    }
}

impl ExecutionContext {
    /// The engine's internal consistency, over its mathematical state.
    pub open spec fn wf(&self) -> bool {
        g_wf(self@)
    }

    /// Nothing outstanding: the engine can step.
    pub open spec fn is_ready(&self) -> bool {
        g_ready(self@.pending)
    }

    /// The engine waits for a command outcome.
    pub open spec fn is_awaiting_command(&self) -> bool {
        g_awaiting_command(self@.pending)
    }

    /// The engine waits for a directory-change result.
    pub open spec fn is_awaiting_chdir(&self) -> bool {
        self@.pending is AwaitChdir
    }

    /// A fresh pass over `script`, with the given variable store and home
    /// directory, cursor at the start and line counting from one.
    pub fn new(script: Vec<String>, vars: VarStore, home: Option<String>) -> (s: Self)
        ensures
            s@ == init_state(script.deep_view(), vars.map_view(), opt_view(&home)),
    {
        let s = ExecutionContext {
            script,
            cursor: 0,
            stack: Vec::new(),
            buf: Vec::new(),
            cmd_start: 0,
            line: 1,
            vars,
            home,
            pending: Pending::Idle,
            done: false,
            interrupt_now: false,
            allow_interrupts: true,
            statuses: Vec::new(),
            diags: Vec::new(),
        };
        proof {
            assert(s@ =~~= init_state(s.script.deep_view(), s.vars.map_view(), opt_view(
                &s.home,
            )));
        }
        s
    }

    /// The cursor: which word the pass works on next.
    pub fn index(&self) -> (r: usize)
        ensures
            r == self@.cursor,
    {
        self.cursor
    }

    /// Move the cursor.
    pub fn set_index(&mut self, val: usize)
        ensures
            final(self)@ == (GState { cursor: val, ..old(self)@ }),
    {
        self.cursor = val;
        proof {
            assert(self@ =~~= GState { cursor: val, ..old(self)@ });
        }
    }

    /// Has an interrupt been requested?
    pub fn interrupt_now(&self) -> (r: bool)
        ensures
            r == self@.interrupt_now,
    {
        self.interrupt_now
    }

    /// Request or clear an interrupt of the running pass.
    pub fn set_interrupt_now(&mut self, val: bool)
        ensures
            final(self)@ == (GState { interrupt_now: val, ..old(self)@ }),
    {
        self.interrupt_now = val;
        proof {
            assert(self@ =~~= GState { interrupt_now: val, ..old(self)@ });
        }
    }

    /// Are interrupt requests honoured right now?
    pub fn allow_interrupts(&self) -> (r: bool)
        ensures
            r == self@.allow_interrupts,
    {
        self.allow_interrupts
    }

    /// Choose whether interrupt requests are honoured.
    pub fn set_allow_interrupts(&mut self, val: bool)
        ensures
            final(self)@ == (GState { allow_interrupts: val, ..old(self)@ }),
    {
        self.allow_interrupts = val;
        proof {
            assert(self@ =~~= GState { allow_interrupts: val, ..old(self)@ });
        }
    }

    /// Record one diagnostic at the current line.
    fn report(&mut self, message: String)
        ensures
            final(self)@ == spec_report(old(self)@, message@),
    {
        let ghost msg = message@;
        let line = self.line;
        self.diags.push(Diagnostic { message, line });
        proof {
            assert(self.diags.deep_view() =~= old(self).diags.deep_view().push(
                GDiag { message: msg, line },
            ));
            assert(self@ =~~= spec_report(old(self)@, msg));
        }
    }

    /// Push or replace the conditional frame a finished test decided.
    fn push_cond(&mut self, ok: bool, replace_top: bool)
        ensures
            final(self)@ == spec_push_cond(old(self)@, ok, replace_top),
    {
        if replace_top && self.stack.len() > 0 {
            self.stack.pop();
            proof {
                assert(self.stack@ =~= old(self).stack@.drop_last());
            }
        }
        if ok {
            self.stack.push(Frame::CondSucceeded);
        } else {
            self.stack.push(Frame::CondFailed);
        }
        proof {
            assert(self@ =~~= spec_push_cond(old(self)@, ok, replace_top));
        }
    }

    /// Drive a suspended condition as far as it can go.
    fn continue_eval(&mut self, items: Vec<Token>, replace_top: bool) -> (a: Option<Action>)
        requires
            old(self)@.pending is Idle,
            items_wf(items.deep_view()),
        ensures
            g_wf(final(self)@),
            final(self)@ == spec_continue_eval(old(self)@, items.deep_view(), replace_top).0,
            act_view(a) == spec_continue_eval(old(self)@, items.deep_view(), replace_top).1,
            g_matches(final(self)@, act_view(a)),
    {
        let ghost items0 = items.deep_view();
        let mut items = items;
        match eval_progress(&mut items, &self.vars) {
            CondStep::Finished(res) => match res {
                Ok(b) => {
                    self.push_cond(b, replace_top);
                    None
                },
                Err(e) => {
                    let fatal = matches!(e, EvalError::Inconsistent);
                    self.report(e.message());
                    if fatal {
                        self.done = true;
                        proof {
                            assert(self@ =~~= spec_continue_eval(
                                old(self)@,
                                items0,
                                replace_top,
                            ).0);
                        }
                        Some(Action::Done)
                    } else {
                        self.push_cond(false, replace_top);
                        None
                    }
                },
            },
            CondStep::NeedCommand(pos, _kind, cmdline) => {
                let args = split_ws(cmdline.as_str());
                self.pending = Pending::AwaitCond { items, pos, replace_top };
                proof {
                    assert(self@ =~~= spec_continue_eval(old(self)@, items0, replace_top).0);
                }
                Some(Action::RunCommand { args, silent: true })
            },
        }
    }

    /// Start evaluating an `if`/`elseif` condition from its word group.
    fn begin_eval(&mut self, cmd: Vec<String>, replace_top: bool) -> (a: Option<Action>)
        requires
            old(self)@.pending is Idle,
            cmd@.len() >= 1,
        ensures
            g_wf(final(self)@),
            final(self)@ == spec_begin_eval(old(self)@, cmd.deep_view(), replace_top).0,
            act_view(a) == spec_begin_eval(old(self)@, cmd.deep_view(), replace_top).1,
            g_matches(final(self)@, act_view(a)),
    {
        let ghost cws = cmd.deep_view();
        let mut rest = cmd;
        rest.remove(0);
        proof {
            assert(rest.deep_view() =~= cws.skip(1));
        }
        match classify(&rest) {
            Err(e) => {
                self.report(e.message());
                self.push_cond(false, replace_top);
                None
            },
            Ok(items) => self.continue_eval(items, replace_top),
        }
    }

    /// Dispatch one complete buffered command.
    #[verifier::rlimit(100)]
    #[verifier::loop_isolation(false)]
    fn dispatch(&mut self, sep: Separator) -> (a: Option<Action>)
        requires
            old(self)@.pending is Idle,
            old(self)@.cursor < old(self)@.script.len(),
        ensures
            g_wf(final(self)@),
            final(self)@ == spec_dispatch(old(self)@, sep).0,
            act_view(a) == spec_dispatch(old(self)@, sep).1,
            g_matches(final(self)@, act_view(a)),
    {
        let ghost s0 = self@;
        let scriptn = self.script.len();
        let mut cmd: Vec<String> = Vec::new();
        core::mem::swap(&mut cmd, &mut self.buf);
        let ghost cws = cmd.deep_view();
        proof {
            assert(cws == s0.buf);
            assert(self.buf.deep_view() =~= Seq::<Seq<char>>::empty());
        }
        let at = self.cmd_start;
        if cmd.len() == 0 {
            if matches!(sep, Separator::EndOfBlock) {
                match close_block(&mut self.stack) {
                    BlockClose::EmptyStack => {
                        self.report(SyntaxError::UnmatchedBlockClose.message());
                        self.done = true;
                        proof {
                            assert(self@ =~~= spec_dispatch(s0, sep).0);
                        }
                        return Some(Action::Done);
                    },
                    BlockClose::Loops(origin) => {
                        self.cursor = origin;
                        proof {
                            assert(self@ =~~= spec_dispatch(s0, sep).0);
                        }
                        return None;
                    },
                    BlockClose::Finished => {
                        self.cursor = self.cursor + 1;
                        proof {
                            assert(self@ =~~= spec_dispatch(s0, sep).0);
                        }
                        return None;
                    },
                }
            } else {
                self.cursor = self.cursor + 1;
                proof {
                    assert(self@ =~~= spec_dispatch(s0, sep).0);
                }
                return None;
            }
        }
        proof {
            assert(cws[0] == cmd@[0]@);
        }
        if str_eq(cmd[0].as_str(), "lock") {
            if is_suppressed(&self.stack) {
                self.stack.push(Frame::LoopBroken);
            } else {
                let origin = self.cursor + 1;
                self.stack.push(Frame::Loop(origin));
            }
            self.cursor = self.cursor + 1;
            proof {
                assert(self@ =~~= spec_dispatch(s0, sep).0);
            }
            return None;
        }
        if str_eq(cmd[0].as_str(), "if") {
            self.cursor = self.cursor + 1;
            if is_suppressed(&self.stack) {
                self.stack.push(Frame::CondDone);
                proof {
                    assert(self@ =~~= spec_dispatch(s0, sep).0);
                }
                return None;
            }
            let a = self.begin_eval(cmd, false);
            proof {
                assert(self@ =~~= spec_dispatch(s0, sep).0);
                assert(act_view(a) == spec_dispatch(s0, sep).1);
            }
            return a;
        }
        if str_eq(cmd[0].as_str(), "elseif") {
            self.cursor = self.cursor + 1;
            if has_skip(&self.stack) {
                proof {
                    assert(self@ =~~= spec_dispatch(s0, sep).0);
                }
                return None;
            }
            match elseif_disposition(&self.stack) {
                ElseifMode::ReEvaluate => {
                    let a = self.begin_eval(cmd, true);
                    proof {
                        assert(self@ =~~= spec_dispatch(s0, sep).0);
                        assert(act_view(a) == spec_dispatch(s0, sep).1);
                    }
                    return a;
                },
                ElseifMode::SkipDone => {
                    self.stack.pop();
                    self.stack.push(Frame::CondDone);
                    proof {
                        assert(self.stack@ =~= s0.stack.update(
                            s0.stack.len() - 1,
                            Frame::CondDone,
                        ));
                        assert(self@ =~~= spec_dispatch(s0, sep).0);
                    }
                    return None;
                },
                ElseifMode::Misplaced => {
                    self.report(SyntaxError::MisplacedElseif.message());
                    proof {
                        assert(self@ =~~= spec_dispatch(s0, sep).0);
                    }
                    return None;
                },
            }
        }
        if is_suppressed(&self.stack) {
            self.cursor = self.cursor + 1;
            proof {
                assert(self@ =~~= spec_dispatch(s0, sep).0);
            }
            return None;
        }
        if str_eq(cmd[0].as_str(), "free") {
            if !apply_free(&mut self.stack) {
                self.report(SyntaxError::MisplacedFree.message());
            }
            self.cursor = self.cursor + 1;
            proof {
                assert(self@ =~~= spec_dispatch(s0, sep).0);
            }
            return None;
        }
        if str_eq(cmd[0].as_str(), "continue") {
            if !apply_continue(&mut self.stack) {
                self.report(SyntaxError::MisplacedContinue.message());
            }
            self.cursor = self.cursor + 1;
            proof {
                assert(self@ =~~= spec_dispatch(s0, sep).0);
            }
            return None;
        }
        if cmd[0].as_str().unicode_len() > 0 && cmd[0].as_str().get_char(0) == '#' {
            // a comment is never dispatched
            self.cursor = self.cursor + 1;
            proof {
                assert(self@ =~~= spec_dispatch(s0, sep).0);
            }
            return None;
        }
        // resolve variable references, increments and home prefixes
        let ghost s_mid = self@;
        let mut resolved: Vec<String> = Vec::new();
        let mut i: usize = 0;
        proof {
            assert(s_mid =~~= (GState { buf: Seq::empty(), ..s0 }));
            assert(resolved.deep_view() =~= Seq::<Seq<char>>::empty());
            if spec_resolve_words(s_mid.vars, s_mid.home, cws, 0) is Ok {
                assert(resolved.deep_view() + spec_resolve_words(
                    s_mid.vars,
                    s_mid.home,
                    cws,
                    0,
                )->Ok_0.0 =~= spec_resolve_words(s_mid.vars, s_mid.home, cws, 0)->Ok_0.0);
            }
        }
        while i < cmd.len()
            invariant
                0 <= i <= cmd@.len(),
                cws == cmd.deep_view(),
                resolved.deep_view().len() == i,
                self@ == (GState { vars: self@.vars, ..s_mid }),
                self.cursor < scriptn,
                scriptn == s_mid.script.len(),
                match (
                    spec_resolve_words(s_mid.vars, s_mid.home, cws, 0),
                    spec_resolve_words(self@.vars, s_mid.home, cws, i as int),
                ) {
                    (Result::Ok(f), Result::Ok(r)) => f.0 == resolved.deep_view() + r.0 && f.1
                        == r.1,
                    (Result::Err(ef), Result::Err(er)) => ef == er,
                    _ => false,
                },
            decreases cmd@.len() - i,
        {
            let ghost mcur = self@.vars;
            let ghost acc0 = resolved.deep_view();
            let ghost p = spec_resolve_word(mcur, s_mid.home, cws[i as int]);
            proof {
                assert(cws[i as int] == cmd@[i as int]@);
                assert(opt_view(&self.home) == s_mid.home);
            }
            match resolve_word(&mut self.vars, &self.home, &cmd[i]) {
                Ok(s) => {
                    let ghost sv = s@;
                    resolved.push(s);
                    proof {
                        assert(p is Ok && p->Ok_0.0 == sv);
                        assert(self@.vars == (match p->Ok_0.1 {
                            Option::Some(b) => mcur.insert(b.0, b.1),
                            Option::None => mcur,
                        }));
                        assert(spec_resolve_words(mcur, s_mid.home, cws, i as int) == (
                        match spec_resolve_words(self@.vars, s_mid.home, cws, i + 1) {
                            Result::Ok(rm) => Result::Ok::<
                                (Seq<Seq<char>>, Map<Seq<char>, Seq<char>>),
                                (GResolveError, Map<Seq<char>, Seq<char>>),
                            >((seq![sv] + rm.0, rm.1)),
                            Result::Err(em) => Result::Err((em.0, em.1)),
                        }));
                        assert(resolved.deep_view() =~= acc0.push(sv));
                        assert(self@ =~~= (GState { vars: self@.vars, ..s_mid }));
                        if spec_resolve_words(self@.vars, s_mid.home, cws, i + 1) is Ok {
                            assert((acc0.push(sv)) + spec_resolve_words(
                                self@.vars,
                                s_mid.home,
                                cws,
                                i + 1,
                            )->Ok_0.0 =~= acc0 + (seq![sv] + spec_resolve_words(
                                self@.vars,
                                s_mid.home,
                                cws,
                                i + 1,
                            )->Ok_0.0));
                        }
                    }
                },
                Err(e) => {
                    proof {
                        assert(p is Err);
                        assert(spec_resolve_words(mcur, s_mid.home, cws, i as int)
                            == Result::Err::<
                            (Seq<Seq<char>>, Map<Seq<char>, Seq<char>>),
                            (GResolveError, Map<Seq<char>, Seq<char>>),
                        >((p->Err_0, mcur)));
                        assert(self@ =~~= (GState { vars: mcur, ..s_mid }));
                    }
                    self.report(e.message());
                    self.statuses.push((at, CommandStatus::report_failure()));
                    self.cursor = self.cursor + 1;
                    proof {
                        assert(self@ =~~= spec_dispatch(s0, sep).0);
                    }
                    return None;
                },
            }
            i = i + 1;
        }
        proof {
            assert(spec_resolve_words(self@.vars, s_mid.home, cws, cmd@.len() as int)
                == Result::Ok::<(Seq<Seq<char>>, Map<Seq<char>, Seq<char>>), (
                GResolveError,
                Map<Seq<char>, Seq<char>>,
            )>((Seq::empty(), self@.vars)));
            assert(resolved.deep_view() + Seq::<Seq<char>>::empty() =~= resolved.deep_view());
        }
        let ghost rs = resolved.deep_view();
        self.cursor = self.cursor + 1;
        let ghost s1 = self@;
        proof {
            assert(rs[0] == resolved@[0]@);
            assert(s1 =~~= GState {
                vars: s1.vars,
                cursor: s1.cursor,
                ..s_mid
            });
        }
        if str_eq(resolved[0].as_str(), "set") {
            match setenv(&mut self.vars, &resolved) {
                Ok(_) => self.statuses.push((at, CommandStatus::report_success())),
                Err(m) => {
                    self.report(m);
                    self.statuses.push((at, CommandStatus::report_failure()));
                },
            }
            proof {
                assert(self@ =~~= spec_dispatch(s0, sep).0);
            }
            return None;
        }
        if str_eq(resolved[0].as_str(), "get") {
            match getenv(&self.vars, &resolved) {
                Ok(v) => {
                    self.statuses.push((at, CommandStatus::report_success()));
                    proof {
                        assert(self@ =~~= spec_dispatch(s0, sep).0);
                    }
                    return Some(Action::PrintOut { text: v });
                },
                Err(m) => {
                    self.report(m);
                    self.statuses.push((at, CommandStatus::report_failure()));
                    proof {
                        assert(self@ =~~= spec_dispatch(s0, sep).0);
                    }
                    return None;
                },
            }
        }
        if str_eq(resolved[0].as_str(), "rem") {
            match remenv(&mut self.vars, &resolved) {
                Ok(_) => self.statuses.push((at, CommandStatus::report_success())),
                Err(m) => {
                    self.report(m);
                    self.statuses.push((at, CommandStatus::report_failure()));
                },
            }
            proof {
                assert(self@ =~~= spec_dispatch(s0, sep).0);
            }
            return None;
        }
        if str_eq(resolved[0].as_str(), "++") {
            match chenv(&mut self.vars, &resolved, true) {
                Ok(_) => self.statuses.push((at, CommandStatus::report_success())),
                Err(m) => {
                    self.report(m);
                    self.statuses.push((at, CommandStatus::report_failure()));
                },
            }
            proof {
                assert(self@ =~~= spec_dispatch(s0, sep).0);
            }
            return None;
        }
        if str_eq(resolved[0].as_str(), "--") {
            match chenv(&mut self.vars, &resolved, false) {
                Ok(_) => self.statuses.push((at, CommandStatus::report_success())),
                Err(m) => {
                    self.report(m);
                    self.statuses.push((at, CommandStatus::report_failure()));
                },
            }
            proof {
                assert(self@ =~~= spec_dispatch(s0, sep).0);
            }
            return None;
        }
        if str_eq(resolved[0].as_str(), "gt") {
            match builtins::gt(&resolved) {
                Ok(path) => {
                    self.pending = Pending::AwaitChdir { at };
                    proof {
                        assert(self@ =~~= spec_dispatch(s0, sep).0);
                    }
                    return Some(Action::ChangeDir { path });
                },
                Err(m) => {
                    self.report(m);
                    self.statuses.push((at, CommandStatus::report_failure()));
                    proof {
                        assert(self@ =~~= spec_dispatch(s0, sep).0);
                    }
                    return None;
                },
            }
        }
        if str_eq(resolved[0].as_str(), "exit") {
            match builtins::exit(&resolved) {
                Ok(code) => {
                    self.done = true;
                    proof {
                        assert(self@ =~~= spec_dispatch(s0, sep).0);
                    }
                    return Some(Action::Exit { code });
                },
                Err(m) => {
                    self.report(m);
                    self.statuses.push((at, CommandStatus::report_failure()));
                    proof {
                        assert(self@ =~~= spec_dispatch(s0, sep).0);
                    }
                    return None;
                },
            }
        }
        if str_eq(resolved[0].as_str(), "panic") {
            self.done = true;
            proof {
                assert(self@ =~~= spec_dispatch(s0, sep).0);
            }
            return Some(Action::AbortNow);
        }
        self.pending = Pending::AwaitPlain { at };
        proof {
            assert(self@ =~~= spec_dispatch(s0, sep).0);
        }
        Some(Action::RunCommand { args: resolved, silent: false })
    }

    /// Consume one word of the script, or finish a suspended condition.
    /// `None` means the engine can step again at once; an action must be
    /// performed by the host first.  The whole transition, including the
    /// cooperative interrupt observed first, is `spec_step`.
    #[verifier::rlimit(100)]
    #[verifier::loop_isolation(false)]
    pub fn step(&mut self) -> (a: Option<Action>)
        requires
            g_wf(old(self)@),
            g_ready(old(self)@.pending),
        ensures
            g_wf(final(self)@),
            final(self)@ == spec_step(old(self)@).0,
            act_view(a) == spec_step(old(self)@).1,
            g_matches(final(self)@, act_view(a)),
    {
        let ghost s0 = self@;
        if self.done {
            return Some(Action::Done);
        }
        if self.interrupt_now && self.allow_interrupts {
            self.pending = Pending::Idle;
            self.done = true;
            proof {
                assert(self@ =~~= spec_step(s0).0);
            }
            return Some(Action::Done);
        }
        let mut p = Pending::Idle;
        core::mem::swap(&mut p, &mut self.pending);
        match p {
            Pending::CondReady { items, replace_top } => {
                proof {
                    assert(self@ =~~= GState { pending: GPending::Idle, ..s0 });
                }
                let a = self.continue_eval(items, replace_top);
                proof {
                    assert(self@ =~~= spec_step(s0).0);
                    assert(act_view(a) == spec_step(s0).1);
                }
                return a;
            },
            _ => {},
        }
        if self.cursor >= self.script.len() {
            let total = self.stack.len();
            let ghost s_mid = self@;
            let ghost unclosed = Seq::new(
                s_mid.stack.len(),
                |j: int|
                    GDiag {
                        message: SyntaxError::UnclosedBlock(
                            frame_kind(s_mid.stack[j]),
                        ).spec_message(),
                        line: s_mid.line,
                    },
            );
            let mut k: usize = 0;
            proof {
                assert(self@.diags + unclosed.take(0) =~= self@.diags);
            }
            while k < total
                invariant
                    0 <= k <= total,
                    total == s_mid.stack.len(),
                    unclosed == Seq::new(
                        s_mid.stack.len(),
                        |j: int|
                            GDiag {
                                message: SyntaxError::UnclosedBlock(
                                    frame_kind(s_mid.stack[j]),
                                ).spec_message(),
                                line: s_mid.line,
                            },
                    ),
                    self@ == (GState { diags: s_mid.diags + unclosed.take(k as int), ..s_mid }),
                decreases total - k,
            {
                let f = self.stack[k];
                let kind = match f {
                    Frame::Loop(_) => BlockKind::LockBlock,
                    Frame::LoopRestart(_) => BlockKind::LockBlock,
                    Frame::LoopBroken => BlockKind::LockBlock,
                    _ => BlockKind::IfBlock,
                };
                let msg = SyntaxError::UnclosedBlock(kind).message();
                let line = self.line;
                let ghost d0 = self.diags.deep_view();
                self.diags.push(Diagnostic { message: msg, line });
                proof {
                    assert(self.diags.deep_view() =~= d0.push(unclosed[k as int]));
                    assert(s_mid.diags + unclosed.take(k + 1) =~= (s_mid.diags
                        + unclosed.take(k as int)).push(unclosed[k as int]));
                    assert(self@ =~~= GState {
                        diags: s_mid.diags + unclosed.take(k + 1),
                        ..s_mid
                    });
                }
                k = k + 1;
            }
            self.done = true;
            proof {
                assert(unclosed.take(total as int) =~= unclosed);
                assert(self@ =~~= spec_step(s0).0);
            }
            return Some(Action::Done);
        }
        let w = self.script[self.cursor].clone();
        proof {
            assert(w@ == s0.script[s0.cursor as int]);
        }
        let n = w.as_str().unicode_len();
        let newline = n > 0 && w.as_str().get_char(n - 1) == '\n';
        let (core_w, sep) = word_parts(&w);
        if self.buf.len() == 0 {
            self.cmd_start = self.cursor;
        }
        if core_w.as_str().unicode_len() > 0 {
            self.buf.push(core_w);
            proof {
                assert(self.buf.deep_view() =~= s0.buf.push(word_core(w@)));
            }
        }
        let ghost s1 = self@;
        proof {
            assert(s1 =~~= GState {
                cmd_start: if s0.buf.len() == 0 {
                    s0.cursor
                } else {
                    s0.cmd_start
                },
                buf: if word_core(w@).len() > 0 {
                    s0.buf.push(word_core(w@))
                } else {
                    s0.buf
                },
                ..s0
            });
        }
        let at_end = self.cursor + 1 >= self.script.len();
        let lock_alone = self.buf.len() == 1 && str_eq(self.buf[0].as_str(), "lock");
        let complete = at_end || !matches!(sep, Separator::Bare) || lock_alone;
        let a = if complete {
            self.dispatch(sep)
        } else {
            self.cursor = self.cursor + 1;
            proof {
                assert(self@ =~~= GState { cursor: (s1.cursor + 1) as usize, ..s1 });
            }
            None
        };
        if newline && self.line < usize::MAX {
            self.line = self.line + 1;
        }
        proof {
            assert(self@ =~~= spec_step(s0).0);
            assert(act_view(a) == spec_step(s0).1);
        }
        a
    }

    /// The current variable bindings, in shadowing order, for the host to
    /// hand to spawned children: in the original interpreter the variables
    /// lived in the process environment, which children inherited.
    pub fn var_entries(&self) -> (r: Vec<(String, String)>)
        ensures
            forall|k: Seq<char>| #[trigger] crate::vars::lookup(r@, k) == map_get(
                self@.vars,
                k,
            ),
    {
        self.vars.export()
    }

    /// Hand back the outcome of the command the engine asked to run.
    pub fn provide_outcome(&mut self, outcome: CommandOutcome)
        requires
            g_wf(old(self)@),
            g_awaiting_command(old(self)@.pending),
        ensures
            g_wf(final(self)@),
            g_ready(final(self)@.pending),
            final(self)@ == spec_provide_outcome(old(self)@, outcome@),
    {
        let ghost s0 = self@;
        let mut p = Pending::Idle;
        core::mem::swap(&mut p, &mut self.pending);
        match p {
            Pending::AwaitPlain { at } => {
                self.statuses.push((at, outcome.status));
                proof {
                    assert(self@ =~~= spec_provide_outcome(s0, outcome@));
                }
            },
            Pending::AwaitCond { items, pos, replace_top } => {
                let mut items = items;
                match supply_outcome(&mut items, pos, &outcome) {
                    Some(e) => {
                        let fatal = matches!(e, EvalError::Inconsistent);
                        self.report(e.message());
                        if fatal {
                            self.done = true;
                        } else {
                            self.push_cond(false, replace_top);
                        }
                        proof {
                            assert(self@ =~~= spec_provide_outcome(s0, outcome@));
                        }
                    },
                    None => {
                        self.pending = Pending::CondReady { items, replace_top };
                        proof {
                            assert(self@ =~~= spec_provide_outcome(s0, outcome@));
                        }
                    },
                }
            },
            _ => {
                proof {
                    assert(self@ =~~= spec_provide_outcome(s0, outcome@));
                }
            },
        }
    }

    /// Hand back whether the requested directory change succeeded.
    pub fn provide_chdir(&mut self, ok: bool, message: String)
        requires
            g_wf(old(self)@),
            old(self)@.pending is AwaitChdir,
        ensures
            g_wf(final(self)@),
            g_ready(final(self)@.pending),
            final(self)@ == spec_provide_chdir(old(self)@, ok, message@),
    {
        let ghost s0 = self@;
        let ghost msg = message@;
        let mut p = Pending::Idle;
        core::mem::swap(&mut p, &mut self.pending);
        match p {
            Pending::AwaitChdir { at } => {
                if ok {
                    self.statuses.push((at, CommandStatus::report_success()));
                } else {
                    self.report(message);
                    self.statuses.push((at, CommandStatus::report_failure()));
                }
                proof {
                    assert(self@ =~~= spec_provide_chdir(s0, ok, msg));
                }
            },
            _ => {
                proof {
                    assert(self@ =~~= spec_provide_chdir(s0, ok, msg));
                }
            },
        }
    }
}

} // verus!
