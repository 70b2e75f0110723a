//! The states visited while one token is scanned.
//!
//! The history keeps what a scanner needs to find the end of the longest
//! match: the most recent accepting state, and above it the states passed
//! through since. An accepting state supersedes all that lies below it.

use vstd::prelude::*;
use crate::dfa::DfaState;

verus! {

/// A stack of states, the most recent on top.
pub struct History {
    states: Vec<DfaState>,
}

/// The history after `state` has been recorded on `history`: an accepting
/// state stands alone, any other state goes on top.
pub open spec fn recorded(history: Seq<DfaState>, state: DfaState) -> Seq<DfaState> {
    if state.accepting() {
        seq![state]
    } else {
        history.push(state)
    }
}

impl View for History {
    type V = Seq<DfaState>;

    closed spec fn view(&self) -> Seq<DfaState> {
        self.states@
    }
}

impl History {
    /// A history that holds `Error` alone: no accepting state has been seen.
    pub fn new() -> (r: Self)
        ensures
            r@ == seq![DfaState::Error],
    {
        let mut states: Vec<DfaState> = Vec::new();
        states.push(DfaState::Error);
        assert(states@ =~= seq![DfaState::Error]);
        History { states }
    }

    /// Records a state that the scanner has reached. An accepting state
    /// clears the history first.
    pub fn record(&mut self, state: DfaState)
        ensures
            final(self)@ == recorded(old(self)@, state),
    {
        if state.is_accepting() {
            self.states.clear();
        }
        self.states.push(state);
        assert(state.accepting() ==> self.states@ =~= seq![state]);
    }

    /// Takes the most recent state off.
    pub fn pop(&mut self) -> (r: Option<DfaState>)
        ensures
            match r {
                Some(state) => old(self)@.len() > 0 && state == old(self)@.last() && final(self)@
                    == old(self)@.drop_last(),
                None => old(self)@.len() == 0 && final(self)@ == old(self)@,
            },
    {
        self.states.pop()
    }
}

} // verus!
