//! Block frames: the state of each open `lock` or `if` block.
//!
//! The engine keeps one frame per open block.  Conditional frames record
//! whether the current branch runs; loop frames record where the loop body
//! begins, so the closing marker can jump back.

use vstd::prelude::*;

verus! {

/// The state of one open block.
#[derive(Clone, Copy, PartialEq, Eq, Structural, Debug)]
pub enum Frame {
    /// The most recent `if`/`elseif` test of this block succeeded.
    CondSucceeded,
    /// The most recent `if`/`elseif` test of this block failed.
    CondFailed,
    /// One branch of this conditional chain already ran; all later
    /// branches are suppressed until the block closes.
    CondDone,
    /// An open loop; the payload is the cursor position of the first word
    /// after the `lock` command.
    Loop(usize),
    /// An open loop in which `continue` was requested: the rest of this
    /// iteration is skipped, then the cursor jumps back.
    LoopRestart(usize),
    /// An open loop in which `free` was requested: the rest of the body is
    /// skipped and the closing marker pops without jumping back.
    LoopBroken,
}

/// A frame the loop keywords act on.
pub open spec fn is_loop_frame(f: Frame) -> bool {
    f is Loop || f is LoopRestart
}

/// The origin index a loop frame jumps back to.
pub open spec fn loop_origin(f: Frame) -> usize {
    match f {
        Frame::Loop(o) => o,
        Frame::LoopRestart(o) => o,
        _ => 0,
    }
}

/// The topmost open loop frame, if any.
pub open spec fn nearest_loop(s: Seq<Frame>) -> Option<int>
    decreases s.len(),
{
    if s.len() == 0 {
        Option::None
    } else if is_loop_frame(s.last()) {
        Option::Some(s.len() - 1)
    } else {
        nearest_loop(s.drop_last())
    }
}

/// A found nearest loop is a real index of a loop frame.
pub proof fn lemma_nearest_loop_range(s: Seq<Frame>)
    ensures
        nearest_loop(s) is Some ==> {
            let i = nearest_loop(s)->Some_0;
            0 <= i < s.len() && is_loop_frame(s[i])
        },
    decreases s.len(),
{
    if s.len() > 0 && !is_loop_frame(s.last()) {
        lemma_nearest_loop_range(s.drop_last());
    }
}

/// Some frame forces skipping to its block's end.
pub open spec fn has_skip_frame(s: Seq<Frame>) -> bool {
    exists|i: int| 0 <= i < s.len() && (#[trigger] s[i] is LoopRestart || s[i] is LoopBroken)
}

/// Execution is suppressed: the innermost frame is a failed or finished
/// conditional, or some open loop is being skipped to its end.
pub open spec fn suppressed(s: Seq<Frame>) -> bool {
    (s.len() > 0 && (s.last() is CondFailed || s.last() is CondDone)) || has_skip_frame(s)
}

/// Is execution currently suppressed under this stack?
pub fn is_suppressed(stack: &Vec<Frame>) -> (r: bool)
    ensures
        r == suppressed(stack@),
{
    let n = stack.len();
    if n > 0 {
        let top = stack[n - 1];
        if matches!(top, Frame::CondFailed) || matches!(top, Frame::CondDone) {
            return true;
        }
    }
    let mut i: usize = 0;
    while i < n
        invariant
            0 <= i <= n,
            n == stack@.len(),
            forall|j: int| 0 <= j < i ==> !(#[trigger] stack@[j] is LoopRestart) && !(stack@[j]
                is LoopBroken),
        decreases n - i,
    {
        let f = stack[i];
        if matches!(f, Frame::LoopRestart(_)) || matches!(f, Frame::LoopBroken) {
            return true;
        }
        i = i + 1;
    }
    false
}

/// Does any frame force skipping to a block end?
pub fn has_skip(stack: &Vec<Frame>) -> (r: bool)
    ensures
        r == has_skip_frame(stack@),
{
    let n = stack.len();
    let mut i: usize = 0;
    while i < n
        invariant
            0 <= i <= n,
            n == stack@.len(),
            forall|j: int| 0 <= j < i ==> !(#[trigger] stack@[j] is LoopRestart) && !(stack@[j]
                is LoopBroken),
        decreases n - i,
    {
        let f = stack[i];
        if matches!(f, Frame::LoopRestart(_)) || matches!(f, Frame::LoopBroken) {
            return true;
        }
        i = i + 1;
    }
    false
}

/// `free`: mark the nearest open loop as broken.  Reports whether a loop
/// was found; with none the stack is unchanged.
pub fn apply_free(stack: &mut Vec<Frame>) -> (r: bool)
    ensures
        match nearest_loop(old(stack)@) {
            Option::Some(i) => r && final(stack)@ == old(stack)@.update(i, Frame::LoopBroken),
            Option::None => !r && final(stack)@ == old(stack)@,
        },
{
    let n = stack.len();
    let mut j: usize = n;
    proof {
        assert(stack@.take(n as int) =~= stack@);
    }
    while j > 0
        invariant
            0 <= j <= n,
            n == stack@.len(),
            stack@ == old(stack)@,
            nearest_loop(stack@) == nearest_loop(stack@.take(j as int)),
        decreases j,
    {
        j = j - 1;
        proof {
            assert(stack@.take(j + 1).last() == stack@[j as int]);
            assert(stack@.take(j + 1).drop_last() =~= stack@.take(j as int));
        }
        let f = stack[j];
        if matches!(f, Frame::Loop(_)) || matches!(f, Frame::LoopRestart(_)) {
            let ghost before = stack@;
            stack.remove(j);
            stack.insert(j, Frame::LoopBroken);
            proof {
                assert(stack@ =~= before.update(j as int, Frame::LoopBroken));
            }
            return true;
        }
    }
    proof {
        assert(stack@.take(0) =~= Seq::<Frame>::empty());
    }
    false
}

/// `continue`: mark the nearest open loop for restart, keeping its origin.
pub fn apply_continue(stack: &mut Vec<Frame>) -> (r: bool)
    ensures
        match nearest_loop(old(stack)@) {
            Option::Some(i) => r && final(stack)@ == old(stack)@.update(
                i,
                Frame::LoopRestart(loop_origin(old(stack)@[i])),
            ),
            Option::None => !r && final(stack)@ == old(stack)@,
        },
{
    let n = stack.len();
    let mut j: usize = n;
    proof {
        assert(stack@.take(n as int) =~= stack@);
    }
    while j > 0
        invariant
            0 <= j <= n,
            n == stack@.len(),
            stack@ == old(stack)@,
            nearest_loop(stack@) == nearest_loop(stack@.take(j as int)),
        decreases j,
    {
        j = j - 1;
        proof {
            assert(stack@.take(j + 1).last() == stack@[j as int]);
            assert(stack@.take(j + 1).drop_last() =~= stack@.take(j as int));
        }
        let f = stack[j];
        let origin: usize = match f {
            Frame::Loop(o) => o,
            Frame::LoopRestart(o) => o,
            _ => 0,
        };
        if matches!(f, Frame::Loop(_)) || matches!(f, Frame::LoopRestart(_)) {
            let ghost before = stack@;
            stack.remove(j);
            stack.insert(j, Frame::LoopRestart(origin));
            proof {
                assert(stack@ =~= before.update(
                    j as int,
                    Frame::LoopRestart(loop_origin(before[j as int])),
                ));
            }
            return true;
        }
    }
    proof {
        assert(stack@.take(0) =~= Seq::<Frame>::empty());
    }
    false
}

/// What a block-closing marker did to the stack.
pub enum BlockClose {
    /// There was no open block: an internal inconsistency.
    EmptyStack,
    /// The top frame is an open loop: the cursor must jump back to the
    /// origin, and the frame stays open as a plain loop.
    Loops(usize),
    /// The top frame was popped; the cursor continues forward.
    Finished,
}

/// Close the innermost open block.  A loop frame jumps back to its origin
/// (a requested restart reverts to a plain loop); any other frame pops.
pub fn close_block(stack: &mut Vec<Frame>) -> (r: BlockClose)
    ensures
        old(stack)@.len() == 0 ==> r is EmptyStack && final(stack)@ == old(stack)@,
        old(stack)@.len() > 0 ==> {
            let top = old(stack)@.last();
            if is_loop_frame(top) {
                r == BlockClose::Loops(loop_origin(top)) && final(stack)@ == old(
                    stack)@.update(old(stack)@.len() - 1, Frame::Loop(loop_origin(top)))
            } else {
                r is Finished && final(stack)@ == old(stack)@.drop_last()
            }
        },
{
    let n = stack.len();
    if n == 0 {
        return BlockClose::EmptyStack;
    }
    let top = stack[n - 1];
    match top {
        Frame::Loop(o) => {
            let ghost before = stack@;
            stack.remove(n - 1);
            stack.insert(n - 1, Frame::Loop(o));
            proof {
                assert(stack@ =~= before.update(n - 1, Frame::Loop(o)));
            }
            BlockClose::Loops(o)
        },
        Frame::LoopRestart(o) => {
            let ghost before = stack@;
            stack.remove(n - 1);
            stack.insert(n - 1, Frame::Loop(o));
            proof {
                assert(stack@ =~= before.update(n - 1, Frame::Loop(o)));
            }
            BlockClose::Loops(o)
        },
        _ => {
            stack.pop();
            proof {
                assert(stack@ =~= old(stack)@.drop_last());
            }
            BlockClose::Finished
        },
    }
}

/// How an `elseif` behaves under the current innermost frame.
pub enum ElseifMode {
    /// The previous test failed: evaluate this branch's condition.
    ReEvaluate,
    /// A branch already ran: mark the chain done and skip this branch.
    SkipDone,
    /// The innermost frame is not a conditional frame.
    Misplaced,
}

/// Decide how an `elseif` behaves under the current innermost frame.
pub fn elseif_disposition(stack: &Vec<Frame>) -> (r: ElseifMode)
    ensures
        stack@.len() == 0 ==> r is Misplaced,
        stack@.len() > 0 ==> {
            let top = stack@.last();
            if top is CondFailed {
                r is ReEvaluate
            } else if top is CondSucceeded || top is CondDone {
                r is SkipDone
            } else {
                r is Misplaced
            }
        },
{
    let n = stack.len();
    if n == 0 {
        return ElseifMode::Misplaced;
    }
    match stack[n - 1] {
        Frame::CondFailed => ElseifMode::ReEvaluate,
        Frame::CondSucceeded => ElseifMode::SkipDone,
        Frame::CondDone => ElseifMode::SkipDone,
        _ => ElseifMode::Misplaced,
    }
}

/// Law (loop termination): `free` on a stack whose innermost open block is
/// a plain loop marks it broken; the rest of the body is then suppressed,
/// and the closing marker pops the frame without a jump, so the body runs
/// no second time.
pub proof fn lemma_free_then_close(stack: Seq<Frame>)
    requires
        stack.len() > 0,
        stack.last() is Loop,
    ensures
        nearest_loop(stack) == Option::Some(stack.len() - 1),
        suppressed(stack.update(stack.len() - 1, Frame::LoopBroken)),
        !is_loop_frame(stack.update(stack.len() - 1, Frame::LoopBroken).last()),
        stack.update(stack.len() - 1, Frame::LoopBroken).drop_last() == stack.drop_last(),
{
    let after = stack.update(stack.len() - 1, Frame::LoopBroken);
    assert(after[stack.len() - 1] is LoopBroken);
    assert(has_skip_frame(after));
    assert(after.drop_last() =~= stack.drop_last());
}

/// Law (branch exclusivity): under a frame that records a taken or
/// finished branch, an `elseif` only marks the chain done; under the
/// resulting frame execution is suppressed and every later `elseif` keeps
/// the chain done, so at most one branch of a chain ever runs.
pub proof fn lemma_elseif_exclusive(stack: Seq<Frame>)
    requires
        stack.len() > 0,
        stack.last() is CondSucceeded || stack.last() is CondDone,
    ensures
        suppressed(stack.update(stack.len() - 1, Frame::CondDone)),
        stack.update(stack.len() - 1, Frame::CondDone).last() is CondDone,
{
    let after = stack.update(stack.len() - 1, Frame::CondDone);
    assert(after.last() is CondDone);
}

} // verus!
