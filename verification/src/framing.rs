//! Newline framing of the byte stream.
//!
//! The transport delivers bytes in arbitrary chunks; records are delimited by
//! a newline byte. These spec functions describe, as a running state machine,
//! which complete lines a byte sequence yields and which partial tail is left
//! over, together with the composition laws that make the framing independent
//! of how the stream is cut into chunks.

use vstd::prelude::*;

verus! {

/// The record delimiter.
pub open spec fn nl() -> u8 {
    0x0a
}

/// The complete lines emitted while consuming `s`, starting from a partial
/// line `cur` carried over from earlier input.
pub open spec fn lines_from(cur: Seq<u8>, s: Seq<u8>) -> Seq<Seq<u8>>
    decreases s.len(),
{
    if s.len() == 0 {
        Seq::empty()
    } else if s[0] == nl() {
        seq![cur] + lines_from(Seq::empty(), s.drop_first())
    } else {
        lines_from(cur.push(s[0]), s.drop_first())
    }
}

/// The partial line left over after consuming `s`, starting from the partial
/// line `cur`.
pub open spec fn tail_from(cur: Seq<u8>, s: Seq<u8>) -> Seq<u8>
    decreases s.len(),
{
    if s.len() == 0 {
        cur
    } else if s[0] == nl() {
        tail_from(Seq::empty(), s.drop_first())
    } else {
        tail_from(cur.push(s[0]), s.drop_first())
    }
}

/// A byte sequence with no delimiter in it.
pub open spec fn nl_free(s: Seq<u8>) -> bool {
    forall|k: int| 0 <= k < s.len() ==> s[k] != nl()
}

/// Consuming a delimiter-free sequence emits nothing and only grows the tail.
pub proof fn lemma_nl_free_consumes(cur: Seq<u8>, s: Seq<u8>)
    requires
        nl_free(s),
    ensures
        lines_from(cur, s) == Seq::<Seq<u8>>::empty(),
        tail_from(cur, s) == cur + s,
    decreases s.len(),
{
    if s.len() == 0 {
        assert(cur + s =~= cur);
    } else {
        assert(nl_free(s.drop_first()));
        lemma_nl_free_consumes(cur.push(s[0]), s.drop_first());
        assert(cur.push(s[0]) + s.drop_first() =~= cur + s);
    }
}

/// Framing is compositional: consuming `a + b` is consuming `a`, then
/// consuming `b` from the state `a` left behind. This is the law that makes
/// the emitted lines independent of chunk boundaries.
pub proof fn lemma_framing_composes(cur: Seq<u8>, a: Seq<u8>, b: Seq<u8>)
    ensures
        lines_from(cur, a + b) == lines_from(cur, a) + lines_from(tail_from(cur, a), b),
        tail_from(cur, a + b) == tail_from(tail_from(cur, a), b),
    decreases a.len(),
{
    if a.len() == 0 {
        assert(a + b =~= b);
        assert(lines_from(cur, a) + lines_from(tail_from(cur, a), b) =~= lines_from(cur, b));
    } else {
        assert((a + b).drop_first() =~= a.drop_first() + b);
        assert((a + b)[0] == a[0]);
        if a[0] == nl() {
            lemma_framing_composes(Seq::empty(), a.drop_first(), b);
            assert(seq![cur] + (lines_from(Seq::empty(), a.drop_first()) + lines_from(
                tail_from(Seq::empty(), a.drop_first()),
                b,
            )) =~= (seq![cur] + lines_from(Seq::empty(), a.drop_first())) + lines_from(
                tail_from(Seq::empty(), a.drop_first()),
                b,
            ));
        } else {
            lemma_framing_composes(cur.push(a[0]), a.drop_first(), b);
        }
    }
}

/// The tail left over never contains a delimiter.
pub proof fn lemma_tail_nl_free(cur: Seq<u8>, s: Seq<u8>)
    requires
        nl_free(cur),
    ensures
        nl_free(tail_from(cur, s)),
    decreases s.len(),
{
    if s.len() == 0 {
    } else if s[0] == nl() {
        lemma_tail_nl_free(Seq::empty(), s.drop_first());
    } else {
        if s[0] != nl() {
            assert(nl_free(cur.push(s[0]))) by {
                assert(forall|k: int|
                    0 <= k < cur.push(s[0]).len() ==> cur.push(s[0])[k] != nl());
            }
        }
        lemma_tail_nl_free(cur.push(s[0]), s.drop_first());
    }
}

/// A carried-over partial line may instead be prepended to the input:
/// the emitted lines and the tail do not change.
pub proof fn lemma_carry_prepend(cur: Seq<u8>, s: Seq<u8>)
    requires
        nl_free(cur),
    ensures
        lines_from(cur, s) == lines_from(Seq::empty(), cur + s),
        tail_from(cur, s) == tail_from(Seq::empty(), cur + s),
{
    lemma_framing_composes(Seq::empty(), cur, s);
    lemma_nl_free_consumes(Seq::empty(), cur);
    assert(Seq::<u8>::empty() + cur =~= cur);
    assert(Seq::<Seq<u8>>::empty() + lines_from(cur, s) =~= lines_from(cur, s));
}

/// Unfolds framing up to the first delimiter of the input: one line is
/// emitted, made of the carried bytes and the input up to the delimiter.
pub proof fn lemma_unfold_to_first_nl(cur: Seq<u8>, s: Seq<u8>, i: int)
    requires
        0 <= i < s.len(),
        s[i] == nl(),
        forall|k: int| 0 <= k < i ==> s[k] != nl(),
    ensures
        lines_from(cur, s) == seq![cur + s.take(i)] + lines_from(Seq::empty(), s.skip(i + 1)),
        tail_from(cur, s) == tail_from(Seq::empty(), s.skip(i + 1)),
    decreases i,
{
    if i == 0 {
        assert(cur + s.take(0) =~= cur);
        assert(s.skip(1) =~= s.drop_first());
    } else {
        assert(forall|k: int|
            0 <= k < i - 1 ==> s.drop_first()[k] == s[k + 1] && s.drop_first()[k] != nl());
        assert(s.drop_first()[i - 1] == s[i]);
        lemma_unfold_to_first_nl(cur.push(s[0]), s.drop_first(), i - 1);
        assert(cur.push(s[0]) + s.drop_first().take(i - 1) =~= cur + s.take(i));
        assert(s.drop_first().skip(i) =~= s.skip(i + 1));
    }
}

} // verus!
