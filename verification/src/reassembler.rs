//! Reassembly of records from an arbitrarily chunked byte stream.
//!
//! Chunk boundaries have no relation to record boundaries: a record may be
//! split across chunks at any offset, and one chunk may carry several
//! records. The reassembler buffers at most one partial line and emits one
//! decode outcome per completed line, in order. Completeness — not chunk
//! size — is the signal: a line is decoded exactly when its delimiter has
//! arrived.

use vstd::prelude::*;

use crate::codec::{decode_record, spec_decode};
use crate::errors::ErrorKind;
use crate::framing::{
    lemma_carry_prepend, lemma_nl_free_consumes, lemma_unfold_to_first_nl, lines_from, nl_free,
    tail_from,
};
use crate::record::{Record, RecordModel};

verus! {

/// One decode outcome matches one abstract decode result.
pub open spec fn outcome_matches(ev: Option<Record>, m: Option<RecordModel>) -> bool {
    match (ev, m) {
        (Some(rec), Some(mm)) => rec@ == mm,
        (None, None) => true,
        _ => false,
    }
}

/// Each emitted outcome is the decode of the corresponding line.
pub open spec fn outcomes_match(evs: Seq<Option<Record>>, lines: Seq<Seq<u8>>) -> bool {
    &&& evs.len() == lines.len()
    &&& forall|i: int|
        0 <= i < evs.len() ==> outcome_matches(#[trigger] evs[i], spec_decode(lines[i]))
}

/// Finds the first delimiter in the buffer.
#[verifier::loop_isolation(false)]
fn find_nl_index(v: &Vec<u8>) -> (r: Option<usize>)
    ensures
        (r matches Some(i) ==> i < v@.len() && v@[i as int] == 0x0a && forall|k: int|
            0 <= k < i ==> v@[k] != 0x0a),
        (r is None ==> nl_free(v@)),
{
    let mut i: usize = 0;
    while i < v.len()
        invariant
            i <= v@.len(),
            forall|k: int| 0 <= k < i ==> v@[k] != 0x0a,
        decreases v@.len() - i,
    {
        if v[i] == 0x0a {
            return Some(i);
        }
        i += 1;
    }
    None
}

/// Turns the chunked byte stream back into a stream of decoded records.
///
/// Holds the bytes of at most one partial record line; a complete line is
/// emitted as soon as its delimiter arrives and never kept.
pub struct ChunkReassembler {
    pending: Vec<u8>,
}

impl ChunkReassembler {
    /// The bytes of the partial line waiting for more input.
    pub closed spec fn pending_bytes(&self) -> Seq<u8> {
        self.pending@
    }

    /// The buffer never holds a complete line.
    pub open spec fn wf(&self) -> bool {
        nl_free(self.pending_bytes())
    }

    /// A fresh reassembler with nothing pending.
    pub fn new() -> (r: ChunkReassembler)
        ensures
            r.wf(),
            r.pending_bytes() == Seq::<u8>::empty(),
    {
        ChunkReassembler { pending: Vec::new() }
    }

    /// Whether any bytes of a partial line are pending.
    pub fn has_pending(&self) -> (b: bool)
        ensures
            b == (self.pending_bytes().len() != 0),
    {
        self.pending.len() != 0
    }

    /// Consumes one chunk: every line completed by it is decoded and its
    /// outcome emitted, in order; the bytes after the last delimiter stay
    /// pending. The outcomes are exactly the decodes of the completed lines,
    /// however the stream was cut into chunks.
    #[verifier::loop_isolation(false)]
    pub fn feed(&mut self, chunk: &Vec<u8>) -> (evs: Vec<Option<Record>>)
        requires
            old(self).wf(),
        ensures
            final(self).wf(),
            final(self).pending_bytes() == tail_from(old(self).pending_bytes(), chunk@),
            outcomes_match(evs@, lines_from(old(self).pending_bytes(), chunk@)),
    {
        let ghost cur0 = self.pending@;
        let ghost ch = chunk@;
        let mut evs: Vec<Option<Record>> = Vec::new();
        proof {
            assert(cur0 + ch.take(0) =~= cur0);
        }
        let mut k: usize = 0;
        while k < chunk.len()
            invariant
                k <= ch.len(),
                self.pending@ == cur0 + ch.take(k as int),
            decreases ch.len() - k,
        {
            self.pending.push(chunk[k]);
            k += 1;
            proof {
                assert(cur0 + ch.take(k as int) =~= (cur0 + ch.take(k - 1)).push(ch[k - 1]));
            }
        }
        proof {
            assert(ch.take(ch.len() as int) =~= ch);
            lemma_carry_prepend(cur0, ch);
        }
        let ghost mut processed: Seq<Seq<u8>> = Seq::empty();
        proof {
            assert(processed + lines_from(Seq::empty(), self.pending@) =~= lines_from(
                Seq::empty(),
                self.pending@,
            ));
        }
        loop
            invariant
                outcomes_match(evs@, processed),
                lines_from(cur0, ch) == processed + lines_from(Seq::empty(), self.pending@),
                tail_from(cur0, ch) == tail_from(Seq::empty(), self.pending@),
            decreases self.pending@.len(),
        {
            let ghost b = self.pending@;
            match find_nl_index(&self.pending) {
                None => {
                    proof {
                        lemma_nl_free_consumes(Seq::empty(), b);
                        assert(Seq::<u8>::empty() + b =~= b);
                        assert(processed + Seq::<Seq<u8>>::empty() =~= processed);
                    }
                    return evs;
                },
                Some(i) => {
                    let plen = self.pending.len();
                    assert(i < plen);
                    let mut tail = self.pending.split_off(i + 1);
                    self.pending.truncate(i);
                    std::mem::swap(&mut self.pending, &mut tail);
                    let line = tail;
                    proof {
                        assert(line@ =~= b.take(i as int));
                        assert(self.pending@ =~= b.skip(i + 1));
                        lemma_unfold_to_first_nl(Seq::empty(), b, i as int);
                        assert(Seq::<u8>::empty() + b.take(i as int) =~= b.take(i as int));
                    }
                    let ev = decode_record(&line);
                    evs.push(ev);
                    proof {
                        processed = processed + seq![line@];
                        assert(outcomes_match(evs@, processed));
                        assert((processed + lines_from(Seq::empty(), self.pending@)) =~= lines_from(
                            cur0,
                            ch,
                        ));
                    }
                },
            }
        }
    }

    /// Flushes at stream end. With nothing pending this is a no-op and
    /// succeeds; unparsed pending bytes are discarded and reported as a
    /// truncated stream.
    pub fn finish(&mut self) -> (r: Result<(), ErrorKind>)
        requires
            old(self).wf(),
        ensures
            final(self).wf(),
            final(self).pending_bytes() == Seq::<u8>::empty(),
            r is Ok <==> old(self).pending_bytes().len() == 0,
            (r matches Err(k) ==> k == ErrorKind::TruncatedStream),
    {
        if self.pending.len() == 0 {
            proof {
                assert(self.pending@ =~= Seq::<u8>::empty());
            }
            Ok(())
        } else {
            self.pending.clear();
            Err(ErrorKind::TruncatedStream)
        }
    }
}

} // verus!
