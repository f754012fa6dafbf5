//! Turns and the ordered, append-only conversation history.

use vstd::prelude::*;

use crate::record::Role;

verus! {

/// One finalized, role-tagged message of the conversation. `complete` is
/// false only for a turn whose stream ended before its terminal record.
pub struct Turn {
    pub role: Role,
    pub content: Vec<u8>,
    pub complete: bool,
}

/// The mathematical model of a `Turn`.
pub struct TurnModel {
    pub role: Role,
    pub content: Seq<u8>,
    pub complete: bool,
}

impl View for Turn {
    type V = TurnModel;

    open spec fn view(&self) -> TurnModel {
        TurnModel { role: self.role, content: self.content@, complete: self.complete }
    }
}

impl Turn {
    /// Builds a turn from its parts.
    pub fn new(role: Role, content: Vec<u8>, complete: bool) -> (r: Turn)
        ensures
            r@ == (TurnModel { role, content: content@, complete }),
    {
        Turn { role, content, complete }
    }

    /// An identical copy.
    pub fn duplicate(&self) -> (r: Turn)
        ensures
            r@ == self@,
    {
        let mut content: Vec<u8> = Vec::new();
        crate::accumulator::append_bytes(&mut content, &self.content);
        proof {
            assert(Seq::<u8>::empty() + self.content@ =~= self.content@);
        }
        Turn { role: self.role, content, complete: self.complete }
    }
}

/// The view of a sequence of turns.
pub open spec fn turns_view(ts: Seq<Turn>) -> Seq<TurnModel> {
    ts.map_values(|t: Turn| t@)
}

/// The ordered history of the session: turns are appended, never reordered
/// or mutated, and the system turn, if present, is always first.
pub struct ConversationState {
    turns: Vec<Turn>,
}

impl View for ConversationState {
    type V = Seq<TurnModel>;

    closed spec fn view(&self) -> Seq<TurnModel> {
        turns_view(self.turns@)
    }
}

impl ConversationState {
    /// The system turn, if present, stands first.
    pub open spec fn wf(&self) -> bool {
        forall|i: int| 0 < i < self@.len() ==> self@[i].role != Role::System
    }

    /// An empty history.
    pub fn new() -> (r: ConversationState)
        ensures
            r@ == Seq::<TurnModel>::empty(),
            r.wf(),
    {
        let r = ConversationState { turns: Vec::new() };
        proof {
            assert(r@ =~= Seq::<TurnModel>::empty());
        }
        r
    }

    /// The number of turns.
    pub fn len(&self) -> (n: usize)
        ensures
            n == self@.len(),
    {
        self.turns.len()
    }

    /// Appends one turn at the end. A system turn may only open the history.
    pub fn append(&mut self, t: Turn)
        requires
            old(self).wf(),
            t@.role == Role::System ==> old(self)@.len() == 0,
        ensures
            final(self)@ == old(self)@.push(t@),
            final(self).wf(),
    {
        let ghost t0 = self.turns@;
        self.turns.push(t);
        proof {
            assert(turns_view(t0.push(t)) =~= turns_view(t0).push(t@));
        }
    }

    /// Appends a turn completed from the stream. A system turn arriving once
    /// the history has begun would break the history's invariant; it is
    /// refused, and the refusal is reported to the caller.
    pub fn append_stream(&mut self, t: Turn) -> (ok: bool)
        requires
            old(self).wf(),
        ensures
            final(self).wf(),
            ok == !(t@.role == Role::System && old(self)@.len() > 0),
            ok ==> final(self)@ == old(self)@.push(t@),
            !ok ==> final(self)@ == old(self)@,
    {
        if t.role == Role::System && self.turns.len() > 0 {
            false
        } else {
            self.append(t);
            true
        }
    }

    /// The ordered history, read-only: the memory replayed to the model with
    /// every request, verbatim and in insertion order.
    pub fn snapshot(&self) -> (r: &Vec<Turn>)
        ensures
            turns_view(r@) == self@,
    {
        &self.turns
    }
}

} // verus!
