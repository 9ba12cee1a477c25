//! The stack of screens: the one on top is shown, and each frame may change
//! the stack.

use vstd::prelude::*;

verus! {

/// How a frame changes the stack of modes.
pub enum Transition<M> {
    /// Not at all.
    Keep,
    /// Puts this mode on top.
    Push(M),
    /// Takes the top mode off.
    Pop,
    /// Takes the top mode off and puts this one in its place.
    Swap(M),
}

/// The stack of modes after a transition. The last mode is never popped; a
/// swap on an empty stack pushes.
pub open spec fn after_transition<M>(stack: Seq<M>, transition: Transition<M>) -> Seq<M> {
    match transition {
        Transition::Keep => stack,
        Transition::Push(mode) => stack.push(mode),
        Transition::Pop => if stack.len() >= 2 {
            stack.drop_last()
        } else {
            stack
        },
        Transition::Swap(mode) => if stack.len() > 0 {
            stack.drop_last().push(mode)
        } else {
            stack.push(mode)
        },
    }
}

/// A stack of modes that is not empty stays so, whatever the transition.
pub proof fn lemma_stack_never_empties<M>(stack: Seq<M>, transition: Transition<M>)
    requires
        stack.len() > 0,
    ensures
        after_transition(stack, transition).len() > 0,
{
}

/// Changes the stack of modes as the transition says.
pub fn apply_transition<M>(stack: &mut Vec<M>, transition: Transition<M>)
    ensures
        final(stack)@ == after_transition(old(stack)@, transition),
{
    match transition {
        Transition::Keep => {},
        Transition::Push(mode) => {
            stack.push(mode);
        },
        Transition::Pop => {
            if stack.len() >= 2 {
                stack.pop();
            }
        },
        Transition::Swap(mode) => {
            if stack.len() > 0 {
                stack.pop();
            }
            stack.push(mode);
        },
    }
}

} // verus!
