//! The keyboard controller of the first generation: it carries out controller actions with the
//! `enigo` keyboard simulator, one character or one backspace at a time, waiting after each.
use crate::legacy::dispatch::{self, ControllerAction};
use crate::output_enigo::{
    actions_view, backspace_actions, lemma_view_push, type_actions, ActionV, EnigoController,
    KeyboardAction,
};
use vstd::prelude::*;

verus! {

/// The keyboard actions of one controller action: the text typed a character at a time, or
/// backspace pressed the number of times, each followed by the action's wait
pub open spec fn action_plan(a: dispatch::ActionV) -> Seq<ActionV> {
    match a {
        dispatch::ActionV::Type(text, delay) => type_actions(text, delay as u64),
        dispatch::ActionV::Backspace(n, delay) => backspace_actions(n as nat, delay as u64),
        dispatch::ActionV::PrintHello => seq![ActionV::PrintHello],
    }
}

/// The keyboard actions of controller actions, one after the other
pub open spec fn controller_plan(actions: Seq<dispatch::ActionV>) -> Seq<ActionV>
    decreases actions.len(),
{
    if actions.len() == 0 {
        Seq::empty()
    } else {
        controller_plan(actions.drop_last()) + action_plan(actions.last())
    }
}

/// Controls the keyboard, with control over the timing of key presses
pub struct Controller {}

impl Controller {
    pub fn new() -> Self {
        Self {  }
    }

    /// The keyboard actions, with their waits, that carry out the controller actions in order
    pub fn parse(&mut self, actions: Vec<ControllerAction>) -> (r: Vec<KeyboardAction>)
        ensures
            actions_view(r@) == controller_plan(dispatch::actions_view(actions@)),
            *final(self) == *old(self),
    {
        let keys = EnigoController::new();
        let ghost all = dispatch::actions_view(actions@);
        let mut out: Vec<KeyboardAction> = Vec::new();
        let mut i: usize = 0;
        assert(all.take(0) =~= Seq::<dispatch::ActionV>::empty());
        assert(actions_view(out@) =~= Seq::<ActionV>::empty());
        while i < actions.len()
            invariant
                i <= actions.len(),
                all == dispatch::actions_view(actions@),
                actions_view(out@) == controller_plan(all.take(i as int)),
            decreases actions.len() - i,
        {
            assert(all.take(i + 1).drop_last() =~= all.take(i as int));
            assert(all.take(i + 1).last() == dispatch::action_view(actions@[i as int]));
            match &actions[i] {
                ControllerAction::TypeWithDelay(text, delay) => {
                    keys.type_with_delay(&mut out, text.as_str(), *delay as u64);
                },
                ControllerAction::BackspaceWithDelay(num, delay) => {
                    keys.backspace(&mut out, *num, *delay as u64);
                },
                ControllerAction::PrintHello => {
                    let ghost before = out@;
                    out.push(KeyboardAction::PrintHello);
                    proof {
                        lemma_view_push(before, KeyboardAction::PrintHello);
                    }
                },
            }
            i += 1;
        }
        assert(all.take(i as int) =~= all);
        out
    }
}

} // verus!
