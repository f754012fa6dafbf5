//! The decoded units of the wire protocol: roles and per-token records.

use vstd::prelude::*;

verus! {

/// The role a conversation turn is attributed to.
#[derive(Clone, Copy, PartialEq, Eq, Structural, Debug)]
pub enum Role {
    System,
    User,
    Assistant,
    Tool,
}

/// One decoded record of a model turn's stream: an optional role indicator,
/// a text delta, and the terminal marker for the turn.
#[derive(Debug)]
pub struct Record {
    pub role: Option<Role>,
    pub delta: Vec<u8>,
    pub done: bool,
}

/// The mathematical model of a `Record`.
pub struct RecordModel {
    pub role: Option<Role>,
    pub delta: Seq<u8>,
    pub done: bool,
}

impl View for Record {
    type V = RecordModel;

    open spec fn view(&self) -> RecordModel {
        RecordModel { role: self.role, delta: self.delta@, done: self.done }
    }
}

impl Record {
    /// Builds a record from its parts.
    pub fn new(role: Option<Role>, delta: Vec<u8>, done: bool) -> (r: Record)
        ensures
            r@ == (RecordModel { role, delta: delta@, done }),
    {
        Record { role, delta, done }
    }
}

} // verus!
