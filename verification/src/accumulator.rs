//! Folding per-token records into one completed conversation turn.

use vstd::prelude::*;

use crate::conversation::{Turn, TurnModel};
use crate::record::{Record, Role};

verus! {

/// Appends all bytes of `src` to `dst`.
#[verifier::loop_isolation(false)]
pub(crate) fn append_bytes(dst: &mut Vec<u8>, src: &Vec<u8>)
    ensures
        final(dst)@ == old(dst)@ + src@,
{
    let ghost d0 = dst@;
    let mut k: usize = 0;
    proof {
        assert(d0 + src@.take(0) =~= d0);
    }
    while k < src.len()
        invariant
            k <= src@.len(),
            dst@ == d0 + src@.take(k as int),
        decreases src@.len() - k,
    {
        dst.push(src[k]);
        k += 1;
        proof {
            assert(d0 + src@.take(k as int) =~= (d0 + src@.take(k - 1)).push(src@[k - 1]));
        }
    }
    proof {
        assert(src@.take(src@.len() as int) =~= src@);
    }
}

/// The role kept for a turn: the first one seen wins; a record's own role
/// counts only when none was seen before.
pub open spec fn merge_role(cur: Option<Role>, new: Option<Role>) -> Option<Role> {
    if cur is Some {
        cur
    } else {
        new
    }
}

/// The role a finalized turn carries when `seen` is all that was observed:
/// an assistant turn unless the stream said otherwise.
pub open spec fn finished_role(seen: Option<Role>) -> Role {
    match seen {
        Some(r) => r,
        None => Role::Assistant,
    }
}

/// A record carries a role that contradicts the one already seen.
pub open spec fn is_role_anomaly(cur: Option<Role>, new: Option<Role>) -> bool {
    match (cur, new) {
        (Some(c), Some(n)) => c != n,
        _ => false,
    }
}

/// A counter bumped once more, stopping at its ceiling.
pub open spec fn sat_inc(n: u64) -> u64 {
    if n < u64::MAX {
        (n + 1) as u64
    } else {
        n
    }
}

/// Folds the records of one model turn into a single completed message.
///
/// Text deltas are concatenated in arrival order; the first role seen is
/// kept; the turn completes when the terminal record arrives, or — marked
/// incomplete — when the stream ends first.
pub struct TurnAccumulator {
    role_seen: Option<Role>,
    buf: Vec<u8>,
    started: bool,
    anomalies: u64,
}

impl TurnAccumulator {
    /// The role observed so far for the turn in progress.
    pub closed spec fn seen_role(&self) -> Option<Role> {
        self.role_seen
    }

    /// The text accumulated so far for the turn in progress.
    pub closed spec fn buffered(&self) -> Seq<u8> {
        self.buf@
    }

    /// Whether any record of the current turn has arrived.
    pub closed spec fn is_started(&self) -> bool {
        self.started
    }

    /// How many records carried a role contradicting the first-seen one.
    pub closed spec fn anomaly_count(&self) -> u64 {
        self.anomalies
    }

    /// Nothing of a turn is in progress.
    pub open spec fn is_reset(&self) -> bool {
        &&& self.seen_role() is None
        &&& self.buffered() == Seq::<u8>::empty()
        &&& !self.is_started()
    }

    /// A fresh accumulator with no turn in progress.
    pub fn new() -> (r: TurnAccumulator)
        ensures
            r.is_reset(),
            r.anomaly_count() == 0,
    {
        TurnAccumulator { role_seen: None, buf: Vec::new(), started: false, anomalies: 0 }
    }

    /// The number of role anomalies observed, for reporting.
    pub fn anomalies(&self) -> (n: u64)
        ensures
            n == self.anomaly_count(),
    {
        self.anomalies
    }

    /// Consumes one record. A non-terminal record only accumulates; the
    /// terminal record yields the completed turn, whose content is every
    /// delta in arrival order, and resets the accumulator for the next turn.
    pub fn accept(&mut self, rec: &Record) -> (r: Option<Turn>)
        ensures
            final(self).anomaly_count() == (if is_role_anomaly(old(self).seen_role(), rec.role) {
                sat_inc(old(self).anomaly_count())
            } else {
                old(self).anomaly_count()
            }),
            rec.done ==> {
                &&& r matches Some(t) && t@ == (TurnModel {
                    role: finished_role(merge_role(old(self).seen_role(), rec.role)),
                    content: old(self).buffered() + rec.delta@,
                    complete: true,
                })
                &&& final(self).is_reset()
            },
            !rec.done ==> {
                &&& r is None
                &&& final(self).seen_role() == merge_role(old(self).seen_role(), rec.role)
                &&& final(self).buffered() == old(self).buffered() + rec.delta@
                &&& final(self).is_started()
            },
    {
        let anomaly = match (self.role_seen, rec.role) {
            (Some(c), Some(n)) => c != n,
            _ => false,
        };
        if anomaly && self.anomalies < u64::MAX {
            self.anomalies = self.anomalies + 1;
        }
        if self.role_seen.is_none() {
            self.role_seen = rec.role;
        }
        append_bytes(&mut self.buf, &rec.delta);
        if rec.done {
            let role = match self.role_seen {
                Some(r) => r,
                None => Role::Assistant,
            };
            let mut content: Vec<u8> = Vec::new();
            std::mem::swap(&mut self.buf, &mut content);
            self.role_seen = None;
            self.started = false;
            proof {
                assert(self.buffered() =~= Seq::<u8>::empty());
            }
            Some(Turn { role, content, complete: true })
        } else {
            self.started = true;
            None
        }
    }

    /// Flushes at stream end without a terminal record. A turn in progress
    /// comes out marked incomplete rather than being discarded, so context
    /// is not lost; with nothing in progress there is nothing to flush.
    pub fn take_partial(&mut self) -> (r: Option<Turn>)
        ensures
            final(self).is_reset(),
            final(self).anomaly_count() == old(self).anomaly_count(),
            old(self).is_started() ==> {
                &&& r matches Some(t) && t@ == (TurnModel {
                    role: finished_role(old(self).seen_role()),
                    content: old(self).buffered(),
                    complete: false,
                })
            },
            !old(self).is_started() ==> r is None,
    {
        if !self.started {
            // Nothing has arrived since the last completed turn.
            self.buf.clear();
            self.role_seen = None;
            proof {
                assert(self.buffered() =~= Seq::<u8>::empty());
            }
            return None;
        }
        let role = match self.role_seen {
            Some(r) => r,
            None => Role::Assistant,
        };
        let mut content: Vec<u8> = Vec::new();
        std::mem::swap(&mut self.buf, &mut content);
        self.role_seen = None;
        self.started = false;
        proof {
            assert(self.buffered() =~= Seq::<u8>::empty());
        }
        Some(Turn { role, content, complete: false })
    }
}

} // verus!
