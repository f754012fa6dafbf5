//! The stream-level laws of the reassembly pipeline.
//!
//! These theorems tie the framing, the codec and the reassembler together:
//! however a serialized stream of records is cut into chunks, consuming the
//! chunks in order recovers exactly the original records — and a corrupted
//! record costs exactly itself, never its neighbours.

use vstd::prelude::*;

use crate::codec::{encode_record_spec, lemma_decode_encode, lemma_encode_nl_free, spec_decode};
use crate::framing::{
    lemma_framing_composes, lemma_nl_free_consumes, lines_from, nl_free, tail_from,
};
use crate::record::RecordModel;

verus! {

/// The serialized wire form of a sequence of records: each one's canonical
/// line followed by the delimiter.
pub open spec fn wire_records(rs: Seq<RecordModel>) -> Seq<u8>
    decreases rs.len(),
{
    if rs.len() == 0 {
        Seq::empty()
    } else {
        (encode_record_spec(rs[0]) + seq![0x0au8]) + wire_records(rs.drop_first())
    }
}

/// The canonical lines of a sequence of records.
pub open spec fn enc_lines(rs: Seq<RecordModel>) -> Seq<Seq<u8>> {
    rs.map_values(|m: RecordModel| encode_record_spec(m))
}

/// One byte stream, reassembled from a sequence of chunks.
pub open spec fn flatten_chunks(cs: Seq<Seq<u8>>) -> Seq<u8>
    decreases cs.len(),
{
    if cs.len() == 0 {
        Seq::empty()
    } else {
        cs[0] + flatten_chunks(cs.drop_first())
    }
}

/// The complete lines that feeding the chunks one by one emits, in order,
/// starting from the partial line `cur`. This is precisely what successive
/// `ChunkReassembler::feed` calls emit, by `feed`'s contract.
pub open spec fn collect_lines(cur: Seq<u8>, cs: Seq<Seq<u8>>) -> Seq<Seq<u8>>
    decreases cs.len(),
{
    if cs.len() == 0 {
        Seq::empty()
    } else {
        lines_from(cur, cs[0]) + collect_lines(tail_from(cur, cs[0]), cs.drop_first())
    }
}

/// The partial line left after feeding the chunks one by one.
pub open spec fn collect_tail(cur: Seq<u8>, cs: Seq<Seq<u8>>) -> Seq<u8>
    decreases cs.len(),
{
    if cs.len() == 0 {
        cur
    } else {
        collect_tail(tail_from(cur, cs[0]), cs.drop_first())
    }
}

/// Feeding chunk by chunk is the same as feeding the whole stream at once:
/// the emitted lines and the leftover tail do not depend on where the
/// stream was cut.
pub proof fn lemma_chunking_invariance(cur: Seq<u8>, cs: Seq<Seq<u8>>)
    ensures
        collect_lines(cur, cs) == lines_from(cur, flatten_chunks(cs)),
        collect_tail(cur, cs) == tail_from(cur, flatten_chunks(cs)),
    decreases cs.len(),
{
    if cs.len() == 0 {
        assert(lines_from(cur, flatten_chunks(cs)) =~= Seq::<Seq<u8>>::empty());
    } else {
        lemma_framing_composes(cur, cs[0], flatten_chunks(cs.drop_first()));
        lemma_chunking_invariance(tail_from(cur, cs[0]), cs.drop_first());
    }
}

/// One delimiter-free line followed by the delimiter yields exactly one
/// complete line and leaves nothing over.
pub proof fn lemma_one_line(cur: Seq<u8>, e: Seq<u8>)
    ensures
        nl_free(e) ==> lines_from(cur, e + seq![0x0au8]) == seq![cur + e] && tail_from(
            cur,
            e + seq![0x0au8],
        ) == Seq::<u8>::empty(),
{
    if nl_free(e) {
        lemma_framing_composes(cur, e, seq![0x0au8]);
        lemma_nl_free_consumes(cur, e);
        let one = seq![0x0au8];
        assert(one[0] == 0x0a);
        assert(one.drop_first() =~= Seq::<u8>::empty());
        assert(lines_from(Seq::<u8>::empty(), Seq::<u8>::empty()) == Seq::<Seq<u8>>::empty());
        assert(tail_from(Seq::<u8>::empty(), Seq::<u8>::empty()) == Seq::<u8>::empty());
        assert(lines_from(cur + e, one) =~= seq![cur + e]);
        assert(tail_from(cur + e, one) == Seq::<u8>::empty());
        assert(Seq::<Seq<u8>>::empty() + seq![cur + e] =~= seq![cur + e]);
    }
}

/// The whole wire stream of a record sequence frames back into exactly the
/// records' canonical lines, with nothing left over.
pub proof fn lemma_wire_lines(rs: Seq<RecordModel>)
    ensures
        lines_from(Seq::empty(), wire_records(rs)) == enc_lines(rs),
        tail_from(Seq::empty(), wire_records(rs)) == Seq::<u8>::empty(),
    decreases rs.len(),
{
    if rs.len() == 0 {
        assert(lines_from(Seq::empty(), wire_records(rs)) =~= Seq::<Seq<u8>>::empty());
        assert(enc_lines(rs) =~= Seq::<Seq<u8>>::empty());
        assert(tail_from(Seq::empty(), wire_records(rs)) =~= Seq::<u8>::empty());
    } else {
        let e = encode_record_spec(rs[0]);
        let rest = wire_records(rs.drop_first());
        lemma_framing_composes(Seq::empty(), e + seq![0x0au8], rest);
        lemma_encode_nl_free(rs[0]);
        lemma_one_line(Seq::empty(), e);
        assert(Seq::<u8>::empty() + e =~= e);
        lemma_wire_lines(rs.drop_first());
        assert(lines_from(Seq::empty(), wire_records(rs)) =~= seq![e] + enc_lines(
            rs.drop_first(),
        ));
        assert(seq![e] + enc_lines(rs.drop_first()) =~= enc_lines(rs));
    }
}

/// Chunk-boundary invariance: serialize any records to bytes, cut the bytes
/// into chunks at arbitrary offsets — single-byte chunks and one all-in-one
/// chunk included — and feeding the chunks in order yields the identical
/// ordered sequence of decoded records, with nothing pending at the end.
pub proof fn lemma_chunk_boundary_invariance(rs: Seq<RecordModel>, cs: Seq<Seq<u8>>)
    requires
        flatten_chunks(cs) == wire_records(rs),
    ensures
        ({
            let lines = collect_lines(Seq::empty(), cs);
            &&& lines.len() == rs.len()
            &&& forall|i: int|
                0 <= i < rs.len() ==> spec_decode(#[trigger] lines[i]) == Some(rs[i])
            &&& collect_tail(Seq::empty(), cs) == Seq::<u8>::empty()
        }),
{
    lemma_chunking_invariance(Seq::empty(), cs);
    lemma_wire_lines(rs);
    let lines = collect_lines(Seq::empty(), cs);
    assert(lines == enc_lines(rs));
    assert forall|i: int| 0 <= i < rs.len() implies spec_decode(#[trigger] lines[i]) == Some(
        rs[i],
    ) by {
        lemma_decode_encode(rs[i]);
    }
}

/// No data loss on a split record: a single record's wire bytes, split at
/// any offset into two chunks, still come out as exactly that one record,
/// decoded exactly once.
pub proof fn lemma_split_record_no_loss(m: RecordModel, k: int)
    requires
        0 <= k <= wire_records(seq![m]).len(),
    ensures
        ({
            let w = wire_records(seq![m]);
            let cs = seq![w.take(k), w.skip(k)];
            let lines = collect_lines(Seq::empty(), cs);
            &&& lines.len() == 1
            &&& spec_decode(lines[0]) == Some(m)
            &&& collect_tail(Seq::empty(), cs) == Seq::<u8>::empty()
        }),
{
    let w = wire_records(seq![m]);
    let cs = seq![w.take(k), w.skip(k)];
    assert(cs.drop_first() =~= seq![w.skip(k)]);
    assert(seq![w.skip(k)].drop_first() =~= Seq::<Seq<u8>>::empty());
    assert(flatten_chunks(Seq::<Seq<u8>>::empty()) == Seq::<u8>::empty());
    assert(flatten_chunks(seq![w.skip(k)]) =~= w.skip(k));
    assert(flatten_chunks(cs) =~= w);
    lemma_chunk_boundary_invariance(seq![m], cs);
}

/// Decode-error resilience: a corrupted record line embedded between valid
/// records costs exactly itself. Every valid record still decodes, in
/// order; only the corrupted line yields no record.
pub proof fn lemma_decode_error_resilience(
    pre: Seq<RecordModel>,
    bad: Seq<u8>,
    post: Seq<RecordModel>,
)
    requires
        spec_decode(bad) is None,
        nl_free(bad),
    ensures
        ({
            let stream = wire_records(pre) + (bad + seq![0x0au8]) + wire_records(post);
            let lines = lines_from(Seq::empty(), stream);
            &&& lines.len() == pre.len() + 1 + post.len()
            &&& forall|i: int|
                0 <= i < pre.len() ==> spec_decode(#[trigger] lines[i]) == Some(pre[i])
            &&& spec_decode(lines[pre.len() as int]) is None
            &&& forall|i: int|
                0 <= i < post.len() ==> spec_decode(#[trigger] lines[pre.len() + 1 + i]) == Some(
                    post[i],
                )
            &&& tail_from(Seq::empty(), stream) == Seq::<u8>::empty()
        }),
{
    let w1 = wire_records(pre);
    let badline = bad + seq![0x0au8];
    let w2 = wire_records(post);
    let stream = w1 + badline + w2;
    assert(stream =~= w1 + (badline + w2));
    lemma_framing_composes(Seq::empty(), w1, badline + w2);
    lemma_wire_lines(pre);
    lemma_framing_composes(Seq::empty(), badline, w2);
    lemma_one_line(Seq::empty(), bad);
    assert(Seq::<u8>::empty() + bad =~= bad);
    lemma_wire_lines(post);
    let lines = lines_from(Seq::empty(), stream);
    assert(lines =~= enc_lines(pre) + (seq![bad] + enc_lines(post)));
    assert forall|i: int| 0 <= i < pre.len() implies spec_decode(#[trigger] lines[i]) == Some(
        pre[i],
    ) by {
        assert(lines[i] == encode_record_spec(pre[i]));
        lemma_decode_encode(pre[i]);
    }
    assert(lines[pre.len() as int] == bad);
    assert forall|i: int| 0 <= i < post.len() implies spec_decode(
        #[trigger] lines[pre.len() + 1 + i],
    ) == Some(post[i]) by {
        assert(lines[pre.len() + 1 + i] == encode_record_spec(post[i]));
        lemma_decode_encode(post[i]);
    }
}

} // verus!
