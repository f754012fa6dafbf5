//! The wire grammar of one record line.
//!
//! A record travels as one line holding a JSON object in a fixed canonical
//! shape: an optional `"role"` field first, then the `"content"` delta, then
//! the `"done"` marker. String bytes are escaped so that a record line never
//! contains a raw newline: `"` and `\` get a backslash escape, every other
//! byte below 0x20 travels as `\u00` and two lowercase hex digits, and all
//! remaining bytes travel as themselves.

use vstd::prelude::*;

use crate::record::{Record, RecordModel, Role};

verus! {

/// One lowercase hex digit for a value below 16.
pub open spec fn hex_digit(n: u8) -> u8 {
    if n < 10 {
        (0x30 + n) as u8
    } else {
        (0x57 + n) as u8
    }
}

/// The escaped form of one content byte.
pub open spec fn esc_byte(b: u8) -> Seq<u8> {
    if b == 0x22 {
        seq![0x5cu8, 0x22u8]
    } else if b == 0x5c {
        seq![0x5cu8, 0x5cu8]
    } else if b < 0x20 {
        seq![0x5cu8, 0x75u8, 0x30u8, 0x30u8, hex_digit(b / 16), hex_digit(b % 16)]
    } else {
        seq![b]
    }
}

/// The escaped form of a whole content sequence.
pub open spec fn esc_bytes(s: Seq<u8>) -> Seq<u8>
    decreases s.len(),
{
    if s.len() == 0 {
        Seq::empty()
    } else {
        esc_byte(s[0]) + esc_bytes(s.drop_first())
    }
}

/// `{`
pub open spec fn open_brace() -> Seq<u8> {
    seq![0x7bu8]
}

/// `"role":"`
pub open spec fn role_key() -> Seq<u8> {
    seq![0x22u8, 0x72u8, 0x6fu8, 0x6cu8, 0x65u8, 0x22u8, 0x3au8, 0x22u8]
}

/// `",`
pub open spec fn role_sep() -> Seq<u8> {
    seq![0x22u8, 0x2cu8]
}

/// `"content":"`
pub open spec fn content_key() -> Seq<u8> {
    seq![0x22u8, 0x63u8, 0x6fu8, 0x6eu8, 0x74u8, 0x65u8, 0x6eu8, 0x74u8, 0x22u8, 0x3au8, 0x22u8]
}

/// `","done":`
pub open spec fn done_key() -> Seq<u8> {
    seq![0x22u8, 0x2cu8, 0x22u8, 0x64u8, 0x6fu8, 0x6eu8, 0x65u8, 0x22u8, 0x3au8]
}

/// `true}`
pub open spec fn true_close() -> Seq<u8> {
    seq![0x74u8, 0x72u8, 0x75u8, 0x65u8, 0x7du8]
}

/// `false}`
pub open spec fn false_close() -> Seq<u8> {
    seq![0x66u8, 0x61u8, 0x6cu8, 0x73u8, 0x65u8, 0x7du8]
}

/// The wire name of a role.
pub open spec fn role_name(r: Role) -> Seq<u8> {
    match r {
        Role::System => seq![0x73u8, 0x79u8, 0x73u8, 0x74u8, 0x65u8, 0x6du8],
        Role::User => seq![0x75u8, 0x73u8, 0x65u8, 0x72u8],
        Role::Assistant => seq![
            0x61u8,
            0x73u8,
            0x73u8,
            0x69u8,
            0x73u8,
            0x74u8,
            0x61u8,
            0x6eu8,
            0x74u8,
        ],
        Role::Tool => seq![0x74u8, 0x6fu8, 0x6fu8, 0x6cu8],
    }
}

/// The role field of the encoding, empty when the record carries no role.
pub open spec fn role_part(role: Option<Role>) -> Seq<u8> {
    match role {
        Some(r) => role_key() + role_name(r) + role_sep(),
        None => Seq::empty(),
    }
}

/// The canonical encoding of one record as one line (without the delimiter).
pub open spec fn encode_record_spec(m: RecordModel) -> Seq<u8> {
    open_brace() + role_part(m.role) + content_key() + esc_bytes(m.delta) + done_key() + (
    if m.done {
        true_close()
    } else {
        false_close()
    })
}

/// `p` is a prefix of `s`.
pub open spec fn starts(s: Seq<u8>, p: Seq<u8>) -> bool {
    p.len() <= s.len() && s.take(p.len() as int) == p
}

/// Whether `h`, `l` are the canonical hex digits of a byte below 0x20.
pub open spec fn is_ctl_hex(h: u8, l: u8) -> bool {
    (h == 0x30 || h == 0x31) && ((0x30 <= l && l <= 0x39) || (0x61 <= l && l <= 0x66))
}

/// The value of one lowercase hex digit.
pub open spec fn hex_val(l: u8) -> u8 {
    if l <= 0x39 {
        (l - 0x30) as u8
    } else {
        (l - 0x57) as u8
    }
}

/// The byte written as `\u00` plus the digits `h`, `l`.
pub open spec fn ctl_val(h: u8, l: u8) -> u8
    recommends
        is_ctl_hex(h, l),
{
    if h == 0x31 {
        (16 + hex_val(l)) as u8
    } else {
        hex_val(l)
    }
}

/// Unescapes a string body: the decoded bytes and the offset of the closing
/// quote, or nothing when the bytes are not a canonical escaped body.
pub open spec fn unesc(s: Seq<u8>) -> Option<(Seq<u8>, int)>
    decreases s.len(),
{
    if s.len() == 0 {
        None
    } else if s[0] == 0x22 {
        Some((Seq::empty(), 0int))
    } else if s[0] == 0x5c {
        if s.len() >= 2 && (s[1] == 0x22 || s[1] == 0x5c) {
            match unesc(s.skip(2)) {
                Some((t, n)) => Some((seq![s[1]] + t, n + 2)),
                None => None,
            }
        } else if s.len() >= 6 && s[1] == 0x75 && s[2] == 0x30 && s[3] == 0x30 && is_ctl_hex(
            s[4],
            s[5],
        ) {
            match unesc(s.skip(6)) {
                Some((t, n)) => Some((seq![ctl_val(s[4], s[5])] + t, n + 6)),
                None => None,
            }
        } else {
            None
        }
    } else if s[0] < 0x20 {
        None
    } else {
        match unesc(s.drop_first()) {
            Some((t, n)) => Some((seq![s[0]] + t, n + 1)),
            None => None,
        }
    }
}

/// Decodes the remainder of a record line after the role field.
pub open spec fn dec_after_role(role: Option<Role>, s: Seq<u8>) -> Option<RecordModel> {
    if starts(s, content_key()) {
        let s1 = s.skip(content_key().len() as int);
        match unesc(s1) {
            Some((content, n)) => {
                let s2 = s1.skip(n);
                if starts(s2, done_key()) {
                    let s3 = s2.skip(done_key().len() as int);
                    if s3 == true_close() {
                        Some(RecordModel { role, delta: content, done: true })
                    } else if s3 == false_close() {
                        Some(RecordModel { role, delta: content, done: false })
                    } else {
                        None
                    }
                } else {
                    None
                }
            },
            None => None,
        }
    } else {
        None
    }
}

/// Decodes one complete line: the record it canonically encodes, if any.
pub open spec fn spec_decode(line: Seq<u8>) -> Option<RecordModel> {
    if starts(line, open_brace()) {
        let s = line.skip(1);
        if starts(s, role_key()) {
            let s1 = s.skip(role_key().len() as int);
            if starts(s1, role_name(Role::System) + role_sep()) {
                dec_after_role(
                    Some(Role::System),
                    s1.skip(role_name(Role::System).len() + role_sep().len() as int),
                )
            } else if starts(s1, role_name(Role::User) + role_sep()) {
                dec_after_role(
                    Some(Role::User),
                    s1.skip(role_name(Role::User).len() + role_sep().len() as int),
                )
            } else if starts(s1, role_name(Role::Assistant) + role_sep()) {
                dec_after_role(
                    Some(Role::Assistant),
                    s1.skip(role_name(Role::Assistant).len() + role_sep().len() as int),
                )
            } else if starts(s1, role_name(Role::Tool) + role_sep()) {
                dec_after_role(
                    Some(Role::Tool),
                    s1.skip(role_name(Role::Tool).len() + role_sep().len() as int),
                )
            } else {
                None
            }
        } else {
            dec_after_role(None, s)
        }
    } else {
        None
    }
}

/// Skipping twice is skipping once by the sum.
pub proof fn lemma_skip_skip(s: Seq<u8>, a: int, b: int)
    requires
        0 <= a,
        0 <= b,
        a + b <= s.len(),
    ensures
        s.skip(a).skip(b) == s.skip(a + b),
{
    assert(s.skip(a).skip(b) =~= s.skip(a + b));
}

/// `p` is a prefix of `s` at offset `i`.
#[verifier::loop_isolation(false)]
fn match_at(s: &Vec<u8>, i: usize, pat: &Vec<u8>) -> (b: bool)
    requires
        i <= s@.len(),
    ensures
        b == starts(s@.skip(i as int), pat@),
{
    if pat.len() > s.len() - i {
        assert(!starts(s@.skip(i as int), pat@));
        return false;
    }
    let mut k: usize = 0;
    while k < pat.len()
        invariant
            0 <= k <= pat@.len(),
            i + pat@.len() <= s@.len(),
            forall|j: int| 0 <= j < k ==> s@[i + j] == pat@[j],
        decreases pat@.len() - k,
    {
        if s[i + k] != pat[k] {
            proof {
                if starts(s@.skip(i as int), pat@) {
                    assert(s@.skip(i as int).take(pat@.len() as int)[k as int] == s@[i + k]);
                }
            }
            return false;
        }
        k += 1;
    }
    proof {
        assert(s@.skip(i as int).take(pat@.len() as int) =~= pat@);
    }
    true
}

/// Exec copy of `role_key()`.
fn role_key_vec() -> (v: Vec<u8>)
    ensures
        v@ == role_key(),
{
    let mut v: Vec<u8> = Vec::new();
    v.push(0x22);
    v.push(0x72);
    v.push(0x6f);
    v.push(0x6c);
    v.push(0x65);
    v.push(0x22);
    v.push(0x3a);
    v.push(0x22);
    proof {
        assert(v@ =~= role_key());
    }
    v
}

/// Exec copy of `content_key()`.
fn content_key_vec() -> (v: Vec<u8>)
    ensures
        v@ == content_key(),
{
    let mut v: Vec<u8> = Vec::new();
    v.push(0x22);
    v.push(0x63);
    v.push(0x6f);
    v.push(0x6e);
    v.push(0x74);
    v.push(0x65);
    v.push(0x6e);
    v.push(0x74);
    v.push(0x22);
    v.push(0x3a);
    v.push(0x22);
    proof {
        assert(v@ =~= content_key());
    }
    v
}

/// Exec copy of `done_key()`.
fn done_key_vec() -> (v: Vec<u8>)
    ensures
        v@ == done_key(),
{
    let mut v: Vec<u8> = Vec::new();
    v.push(0x22);
    v.push(0x2c);
    v.push(0x22);
    v.push(0x64);
    v.push(0x6f);
    v.push(0x6e);
    v.push(0x65);
    v.push(0x22);
    v.push(0x3a);
    proof {
        assert(v@ =~= done_key());
    }
    v
}

/// Exec copy of `true_close()`.
fn true_close_vec() -> (v: Vec<u8>)
    ensures
        v@ == true_close(),
{
    let mut v: Vec<u8> = Vec::new();
    v.push(0x74);
    v.push(0x72);
    v.push(0x75);
    v.push(0x65);
    v.push(0x7d);
    proof {
        assert(v@ =~= true_close());
    }
    v
}

/// Exec copy of `false_close()`.
fn false_close_vec() -> (v: Vec<u8>)
    ensures
        v@ == false_close(),
{
    let mut v: Vec<u8> = Vec::new();
    v.push(0x66);
    v.push(0x61);
    v.push(0x6c);
    v.push(0x73);
    v.push(0x65);
    v.push(0x7d);
    proof {
        assert(v@ =~= false_close());
    }
    v
}

/// Exec copy of `role_name(r) + role_sep()`.
fn role_pat_vec(r: Role) -> (v: Vec<u8>)
    ensures
        v@ == role_name(r) + role_sep(),
{
    let mut v: Vec<u8> = Vec::new();
    match r {
        Role::System => {
            v.push(0x73);
            v.push(0x79);
            v.push(0x73);
            v.push(0x74);
            v.push(0x65);
            v.push(0x6d);
        },
        Role::User => {
            v.push(0x75);
            v.push(0x73);
            v.push(0x65);
            v.push(0x72);
        },
        Role::Assistant => {
            v.push(0x61);
            v.push(0x73);
            v.push(0x73);
            v.push(0x69);
            v.push(0x73);
            v.push(0x74);
            v.push(0x61);
            v.push(0x6e);
            v.push(0x74);
        },
        Role::Tool => {
            v.push(0x74);
            v.push(0x6f);
            v.push(0x6f);
            v.push(0x6c);
        },
    }
    v.push(0x22);
    v.push(0x2c);
    proof {
        assert(v@ =~= role_name(r) + role_sep());
    }
    v
}

/// The unescape loop's abstract state: what has been decoded up to offset `j`
/// determines the outcome for the whole body starting at `start`.
pub open spec fn unesc_continues(sv: Seq<u8>, start: int, j: int, out: Seq<u8>) -> bool {
    match unesc(sv.skip(j)) {
        Some((t, n)) => unesc(sv.skip(start)) == Some((out + t, (j - start) + n)),
        None => unesc(sv.skip(start)) is None,
    }
}

/// Unescapes the string body starting at `start`; on success returns the
/// decoded bytes and the absolute offset of the closing quote.
#[verifier::loop_isolation(false)]
fn unescape_at(s: &Vec<u8>, start: usize) -> (r: Option<(Vec<u8>, usize)>)
    requires
        start <= s@.len(),
    ensures
        (r matches Some(p) ==> start <= p.1 < s@.len() && unesc(s@.skip(start as int)) == Some(
            (p.0@, p.1 - start as int),
        )),
        (r is None ==> unesc(s@.skip(start as int)) is None),
{
    let mut j: usize = start;
    let mut out: Vec<u8> = Vec::new();
    loop
        invariant
            start <= j <= s@.len(),
            unesc_continues(s@, start as int, j as int, out@),
        decreases s@.len() - j,
    {
        if j == s.len() {
            assert(s@.skip(j as int).len() == 0);
            return None;
        }
        let b = s[j];
        assert(s@.skip(j as int)[0] == b);
        assert(s@.skip(j as int).len() == s@.len() - j);
        if b == 0x22 {
            assert(unesc(s@.skip(j as int)) == Some((Seq::<u8>::empty(), 0int)));
            assert(out@ + Seq::<u8>::empty() =~= out@);
            return Some((out, j));
        } else if b == 0x5c {
            if j + 1 == s.len() {
                assert(unesc(s@.skip(j as int)) is None);
                return None;
            }
            let b1 = s[j + 1];
            assert(s@.skip(j as int)[1] == b1);
            if b1 == 0x22 || b1 == 0x5c {
                proof {
                    lemma_skip_skip(s@, j as int, 2);
                    let sj = s@.skip(j as int);
                    match unesc(s@.skip(j + 2)) {
                        Some((t, n)) => {
                            assert(unesc(sj) == Some((seq![b1] + t, n + 2)));
                            assert(out@ + (seq![b1] + t) =~= out@.push(b1) + t);
                        },
                        None => {
                            assert(unesc(sj) is None);
                        },
                    }
                }
                out.push(b1);
                j += 2;
            } else if b1 == 0x75 {
                if s.len() - j < 6 {
                    assert(s@.skip(j as int).len() < 6);
                    assert(unesc(s@.skip(j as int)) is None);
                    return None;
                }
                let d2 = s[j + 2];
                let d3 = s[j + 3];
                let h = s[j + 4];
                let l = s[j + 5];
                assert(s@.skip(j as int)[2] == d2);
                assert(s@.skip(j as int)[3] == d3);
                assert(s@.skip(j as int)[4] == h);
                assert(s@.skip(j as int)[5] == l);
                if d2 != 0x30 || d3 != 0x30 {
                    assert(unesc(s@.skip(j as int)) is None);
                    return None;
                }
                let h_ok = h == 0x30 || h == 0x31;
                let l_ok = (0x30 <= l && l <= 0x39) || (0x61 <= l && l <= 0x66);
                if !(h_ok && l_ok) {
                    assert(!is_ctl_hex(h, l));
                    assert(unesc(s@.skip(j as int)) is None);
                    return None;
                }
                let hv: u8 = if l <= 0x39 {
                    l - 0x30
                } else {
                    l - 0x57
                };
                let v: u8 = if h == 0x31 {
                    16 + hv
                } else {
                    hv
                };
                proof {
                    assert(v == ctl_val(h, l));
                    lemma_skip_skip(s@, j as int, 6);
                    let sj = s@.skip(j as int);
                    match unesc(s@.skip(j + 6)) {
                        Some((t, n)) => {
                            assert(unesc(sj) == Some((seq![v] + t, n + 6)));
                            assert(out@ + (seq![v] + t) =~= out@.push(v) + t);
                        },
                        None => {
                            assert(unesc(sj) is None);
                        },
                    }
                }
                out.push(v);
                j += 6;
            } else {
                assert(unesc(s@.skip(j as int)) is None);
                return None;
            }
        } else if b < 0x20 {
            assert(unesc(s@.skip(j as int)) is None);
            return None;
        } else {
            proof {
                lemma_skip_skip(s@, j as int, 1);
                let sj = s@.skip(j as int);
                assert(sj.drop_first() =~= s@.skip(j + 1));
                match unesc(s@.skip(j + 1)) {
                    Some((t, n)) => {
                        assert(unesc(sj) == Some((seq![b] + t, n + 1)));
                        assert(out@ + (seq![b] + t) =~= out@.push(b) + t);
                    },
                    None => {
                        assert(unesc(sj) is None);
                    },
                }
            }
            out.push(b);
            j += 1;
        }
    }
}

/// Decodes one complete line into a record, exactly as `spec_decode` says:
/// a line decodes if and only if it is the canonical encoding of a record,
/// and then to that record.
#[verifier::rlimit(50)]
pub fn decode_record(line: &Vec<u8>) -> (r: Option<Record>)
    ensures
        (r matches Some(rec) ==> spec_decode(line@) == Some(rec@)),
        (r is None ==> spec_decode(line@) is None),
{
    if line.len() == 0 || line[0] != 0x7b {
        proof {
            if starts(line@, open_brace()) {
                assert(line@.take(1)[0] == line@[0]);
            }
        }
        return None;
    }
    assert(line@.take(1) =~= open_brace());
    let rk = role_key_vec();
    let mut role: Option<Role> = None;
    let mut i: usize = 1;
    if match_at(line, 1, &rk) {
        // 9 bytes are consumed by `{` and the role key.
        assert(line@.skip(1).take(8) == role_key());
        assert(9 <= line@.len());
        proof {
            lemma_skip_skip(line@, 1, 8);
        }
        let sysp = role_pat_vec(Role::System);
        let userp = role_pat_vec(Role::User);
        let asstp = role_pat_vec(Role::Assistant);
        let toolp = role_pat_vec(Role::Tool);
        if match_at(line, 9, &sysp) {
            role = Some(Role::System);
            i = 9 + sysp.len();
        } else if match_at(line, 9, &userp) {
            role = Some(Role::User);
            i = 9 + userp.len();
        } else if match_at(line, 9, &asstp) {
            role = Some(Role::Assistant);
            i = 9 + asstp.len();
        } else if match_at(line, 9, &toolp) {
            role = Some(Role::Tool);
            i = 9 + toolp.len();
        } else {
            assert(spec_decode(line@) is None);
            return None;
        }
        proof {
            lemma_skip_skip(line@, 9, i - 9);
        }
    } else {
        assert(!starts(line@.skip(1), role_key()));
    }
    // From here the spec continues at `dec_after_role(role, line@.skip(i))`.
    assert(spec_decode(line@) == dec_after_role(role, line@.skip(i as int)));
    assert(i <= line@.len());
    let ck = content_key_vec();
    if !match_at(line, i, &ck) {
        return None;
    }
    let body_start = i + 11;
    proof {
        lemma_skip_skip(line@, i as int, 11);
    }
    match unescape_at(line, body_start) {
        None => {
            return None;
        },
        Some((content, q)) => {
            // `q` is the absolute offset of the closing quote.
            proof {
                lemma_skip_skip(line@, body_start as int, q - body_start);
            }
            let dk = done_key_vec();
            if !match_at(line, q, &dk) {
                return None;
            }
            let after = q + 9;
            proof {
                lemma_skip_skip(line@, q as int, 9);
            }
            let tc = true_close_vec();
            let fc = false_close_vec();
            let s3_len = line.len() - after;
            if s3_len == 5 && match_at(line, after, &tc) {
                assert(line@.skip(after as int) =~= true_close());
                return Some(Record { role, delta: content, done: true });
            } else if s3_len == 6 && match_at(line, after, &fc) {
                assert(line@.skip(after as int) =~= false_close());
                assert(line@.skip(after as int) != true_close());
                return Some(Record { role, delta: content, done: false });
            } else {
                proof {
                    let s3 = line@.skip(after as int);
                    assert(s3.len() == line@.len() - after);
                    if s3 == true_close() {
                        assert(s3.len() == 5);
                        assert(s3.take(5) =~= s3);
                        assert(starts(s3, true_close()));
                    }
                    if s3 == false_close() {
                        assert(s3.len() == 6);
                        assert(s3.take(6) =~= s3);
                        assert(starts(s3, false_close()));
                    }
                }
                return None;
            }
        },
    }
}

/// Escaping distributes over appending one byte.
pub proof fn lemma_esc_snoc(s: Seq<u8>, b: u8)
    ensures
        esc_bytes(s.push(b)) == esc_bytes(s) + esc_byte(b),
    decreases s.len(),
{
    if s.len() == 0 {
        assert(s.push(b)[0] == b);
        assert(s.push(b).drop_first() =~= Seq::<u8>::empty());
        assert(esc_bytes(s.push(b)) == esc_byte(b) + esc_bytes(Seq::<u8>::empty()));
        assert(esc_byte(b) + Seq::<u8>::empty() =~= esc_byte(b));
        assert(esc_bytes(s) + esc_byte(b) =~= esc_byte(b));
    } else {
        assert(s.push(b).drop_first() =~= s.drop_first().push(b));
        lemma_esc_snoc(s.drop_first(), b);
        assert(esc_byte(s[0]) + (esc_bytes(s.drop_first()) + esc_byte(b)) =~= (esc_byte(s[0])
            + esc_bytes(s.drop_first())) + esc_byte(b));
    }
}


/// Encodes a record into its canonical line (without the delimiter).
#[verifier::loop_isolation(false)]
pub fn encode_record(rec: &Record) -> (out: Vec<u8>)
    ensures
        out@ == encode_record_spec(rec@),
{
    let mut out: Vec<u8> = Vec::new();
    out.push(0x7b);
    match rec.role {
        Some(r) => {
            let mut rk = role_key_vec();
            out.append(&mut rk);
            let mut rp = role_pat_vec(r);
            out.append(&mut rp);
        },
        None => {},
    }
    let mut ck = content_key_vec();
    out.append(&mut ck);
    proof {
        assert(out@ =~= open_brace() + role_part(rec.role) + content_key());
    }
    let ghost prefix: Seq<u8> = out@;
    let mut k: usize = 0;
    while k < rec.delta.len()
        invariant
            k <= rec.delta@.len(),
            out@ == prefix + esc_bytes(rec.delta@.take(k as int)),
        decreases rec.delta@.len() - k,
    {
        let b = rec.delta[k];
        proof {
            lemma_esc_snoc(rec.delta@.take(k as int), b);
            assert(rec.delta@.take(k + 1) =~= rec.delta@.take(k as int).push(b));
        }
        if b == 0x22 {
            out.push(0x5c);
            out.push(0x22);
        } else if b == 0x5c {
            out.push(0x5c);
            out.push(0x5c);
        } else if b < 0x20 {
            out.push(0x5c);
            out.push(0x75);
            out.push(0x30);
            out.push(0x30);
            let hi: u8 = b / 16;
            let lo: u8 = b % 16;
            out.push(
                if hi < 10 {
                    0x30 + hi
                } else {
                    0x57 + hi
                },
            );
            out.push(
                if lo < 10 {
                    0x30 + lo
                } else {
                    0x57 + lo
                },
            );
        } else {
            out.push(b);
        }
        proof {
            assert(out@ =~= prefix + esc_bytes(rec.delta@.take(k + 1)));
        }
        k += 1;
    }
    proof {
        assert(rec.delta@.take(rec.delta@.len() as int) =~= rec.delta@);
    }
    let mut dk = done_key_vec();
    out.append(&mut dk);
    if rec.done {
        let mut tc = true_close_vec();
        out.append(&mut tc);
    } else {
        let mut fc = false_close_vec();
        out.append(&mut fc);
    }
    proof {
        assert(out@ =~= encode_record_spec(rec@));
    }
    out
}

/// Unescaping inverts escaping: a canonically escaped body followed by its
/// closing quote decodes to the original bytes.
pub proof fn lemma_unesc_esc(c: Seq<u8>, t: Seq<u8>)
    requires
        t.len() > 0,
        t[0] == 0x22,
    ensures
        unesc(esc_bytes(c) + t) == Some((c, esc_bytes(c).len() as int)),
    decreases c.len(),
{
    let s = esc_bytes(c) + t;
    if c.len() == 0 {
        assert(esc_bytes(c) =~= Seq::<u8>::empty());
        assert(s =~= t);
        assert(s[0] == 0x22);
        assert(c =~= Seq::<u8>::empty());
    } else {
        let b = c[0];
        let c1 = c.drop_first();
        lemma_unesc_esc(c1, t);
        let s1 = esc_bytes(c1) + t;
        if b == 0x22 {
            assert(s[0] == 0x5c && s[1] == 0x22 && s.len() >= 2);
            assert(s.skip(2) =~= s1);
            assert(seq![s[1]] + c1 =~= c);
        } else if b == 0x5c {
            assert(s[0] == 0x5c && s[1] == 0x5c && s.len() >= 2);
            assert(s.skip(2) =~= s1);
            assert(seq![s[1]] + c1 =~= c);
        } else if b < 0x20 {
            let h = hex_digit(b / 16);
            let l = hex_digit(b % 16);
            assert(s[0] == 0x5c && s[1] == 0x75 && s[2] == 0x30 && s[3] == 0x30 && s.len() >= 6);
            assert(s[4] == h && s[5] == l);
            assert(is_ctl_hex(h, l));
            assert(ctl_val(h, l) == b);
            assert(s.skip(6) =~= s1);
            assert(seq![ctl_val(s[4], s[5])] + c1 =~= c);
        } else {
            assert(s[0] == b);
            assert(s.drop_first() =~= s1);
            assert(seq![s[0]] + c1 =~= c);
        }
    }
}

/// The payload part of a canonical line decodes to the record's fields.
pub proof fn lemma_dec_after_role_encode(role: Option<Role>, delta: Seq<u8>, done: bool)
    ensures
        dec_after_role(
            role,
            content_key() + esc_bytes(delta) + (done_key() + (
            if done {
                true_close()
            } else {
                false_close()
            })),
        ) == Some(RecordModel { role, delta, done }),
{
    let bc = if done {
        true_close()
    } else {
        false_close()
    };
    let after_role = content_key() + esc_bytes(delta) + (done_key() + bc);
    assert(after_role.take(11) =~= content_key());
    let s1c = after_role.skip(11);
    assert(s1c =~= esc_bytes(delta) + (done_key() + bc));
    assert((done_key() + bc)[0] == 0x22);
    lemma_unesc_esc(delta, done_key() + bc);
    let s2c = s1c.skip(esc_bytes(delta).len() as int);
    assert(s2c =~= done_key() + bc);
    assert(s2c.take(9) =~= done_key());
    let s3c = s2c.skip(9);
    assert(s3c =~= bc);
    if done {
        assert(s3c == true_close());
    } else {
        assert(s3c == false_close());
        assert(s3c.len() == 6);
        assert(s3c != true_close());
    }
}

/// Decoding inverts encoding: the canonical line of any record decodes back
/// to exactly that record.
#[verifier::rlimit(50)]
pub proof fn lemma_decode_encode(m: RecordModel)
    ensures
        spec_decode(encode_record_spec(m)) == Some(m),
{
    let bc = if m.done {
        true_close()
    } else {
        false_close()
    };
    let after_role = content_key() + esc_bytes(m.delta) + (done_key() + bc);
    let line = encode_record_spec(m);
    assert(line =~= open_brace() + role_part(m.role) + after_role);
    assert(line[0] == 0x7b);
    assert(line.take(1) =~= open_brace());
    let s = line.skip(1);
    assert(s =~= role_part(m.role) + after_role);
    match m.role {
        None => {
            assert(s =~= after_role);
            assert(s[1] == 0x63);
            if starts(s, role_key()) {
                assert(s.take(8)[1] == s[1]);
                assert(false);
            }
            assert(spec_decode(line) == dec_after_role(None, s));
        },
        Some(r) => {
            assert(s.take(8) =~= role_key());
            let s1 = s.skip(8);
            assert(s1 =~= role_name(r) + role_sep() + after_role);
            let pat = role_name(r) + role_sep();
            assert(s1.take(pat.len() as int) =~= pat);
            assert(s1[0] == role_name(r)[0]);
            // No role pattern earlier in the decoder's chain can match: the
            // four wire names differ already in their first byte.
            assert(role_name(Role::System)[0] == 0x73);
            assert(role_name(Role::User)[0] == 0x75);
            assert(role_name(Role::Assistant)[0] == 0x61);
            assert(role_name(Role::Tool)[0] == 0x74);
            if starts(s1, role_name(Role::System) + role_sep()) {
                assert(s1.take((role_name(Role::System) + role_sep()).len() as int)[0] == s1[0]);
                assert(s1[0] == 0x73);
            }
            if starts(s1, role_name(Role::User) + role_sep()) {
                assert(s1.take((role_name(Role::User) + role_sep()).len() as int)[0] == s1[0]);
                assert(s1[0] == 0x75);
            }
            if starts(s1, role_name(Role::Assistant) + role_sep()) {
                assert(s1.take((role_name(Role::Assistant) + role_sep()).len() as int)[0] == s1[0]);
                assert(s1[0] == 0x61);
            }
            let srest = s1.skip(pat.len() as int);
            assert(srest =~= after_role);
            assert(spec_decode(line) == dec_after_role(Some(r), srest));
        },
    }
    lemma_dec_after_role_encode(m.role, m.delta, m.done);
    assert(RecordModel { role: m.role, delta: m.delta, done: m.done } == m);
}

/// No escaped byte ever contains the line delimiter.
pub proof fn lemma_esc_bytes_nl_free(s: Seq<u8>)
    ensures
        crate::framing::nl_free(esc_bytes(s)),
    decreases s.len(),
{
    if s.len() == 0 {
    } else {
        lemma_esc_bytes_nl_free(s.drop_first());
        let e = esc_byte(s[0]);
        assert(forall|k: int| 0 <= k < e.len() ==> e[k] != 0x0a) by {
            if s[0] == 0x22 || s[0] == 0x5c {
            } else if s[0] < 0x20 {
                assert(hex_digit(s[0] / 16) != 0x0a);
                assert(hex_digit(s[0] % 16) != 0x0a);
            } else {
            }
        }
        assert(forall|k: int|
            0 <= k < esc_bytes(s).len() ==> esc_bytes(s)[k] != 0x0a);
    }
}

/// A canonical record line never contains the line delimiter, so one record
/// always travels as exactly one line.
pub proof fn lemma_encode_nl_free(m: RecordModel)
    ensures
        crate::framing::nl_free(encode_record_spec(m)),
{
    lemma_esc_bytes_nl_free(m.delta);
    let line = encode_record_spec(m);
    assert(crate::framing::nl_free(open_brace()));
    assert(crate::framing::nl_free(role_key()));
    assert(crate::framing::nl_free(role_sep()));
    assert(crate::framing::nl_free(content_key()));
    assert(crate::framing::nl_free(done_key()));
    assert(crate::framing::nl_free(true_close()));
    assert(crate::framing::nl_free(false_close()));
    match m.role {
        Some(r) => {
            assert(crate::framing::nl_free(role_name(r)));
        },
        None => {},
    }
    assert(forall|k: int| 0 <= k < line.len() ==> line[k] != 0x0a);
}


/// Unescaping is sound: whatever it accepts is the canonical escaping of
/// what it decoded, up to the closing quote.
pub proof fn lemma_unesc_sound(s: Seq<u8>)
    ensures
        (unesc(s) matches Some(p) ==> {
            &&& 0 <= p.1 < s.len()
            &&& s[p.1] == 0x22
            &&& s.take(p.1) == esc_bytes(p.0)
        }),
    decreases s.len(),
{
    if s.len() == 0 {
    } else if s[0] == 0x22 {
        assert(s.take(0) =~= Seq::<u8>::empty());
        assert(esc_bytes(Seq::<u8>::empty()) == Seq::<u8>::empty());
    } else if s[0] == 0x5c {
        if s.len() >= 2 && (s[1] == 0x22 || s[1] == 0x5c) {
            lemma_unesc_sound(s.skip(2));
            match unesc(s.skip(2)) {
                Some((t, n)) => {
                    let c = seq![s[1]] + t;
                    assert(c[0] == s[1]);
                    assert(c.drop_first() =~= t);
                    assert(esc_byte(s[1]) =~= seq![0x5cu8, s[1]]);
                    assert(esc_bytes(c) == esc_byte(s[1]) + esc_bytes(t));
                    assert(s.take(n + 2) =~= seq![0x5cu8, s[1]] + s.skip(2).take(n));
                    assert(s[n + 2] == s.skip(2)[n]);
                },
                None => {},
            }
        } else if s.len() >= 6 && s[1] == 0x75 && s[2] == 0x30 && s[3] == 0x30 && is_ctl_hex(
            s[4],
            s[5],
        ) {
            lemma_unesc_sound(s.skip(6));
            match unesc(s.skip(6)) {
                Some((t, n)) => {
                    let v = ctl_val(s[4], s[5]);
                    assert(v < 0x20);
                    let c = seq![v] + t;
                    assert(c[0] == v);
                    assert(c.drop_first() =~= t);
                    assert(hex_digit((v / 16) as u8) == s[4]);
                    assert(hex_digit((v % 16) as u8) == s[5]);
                    assert(esc_byte(v) =~= seq![0x5cu8, 0x75u8, 0x30u8, 0x30u8, s[4], s[5]]);
                    assert(esc_bytes(c) == esc_byte(v) + esc_bytes(t));
                    assert(s.take(n + 6) =~= seq![0x5cu8, 0x75u8, 0x30u8, 0x30u8, s[4], s[5]]
                        + s.skip(6).take(n));
                    assert(s[n + 6] == s.skip(6)[n]);
                },
                None => {},
            }
        } else {
        }
    } else if s[0] < 0x20 {
    } else {
        lemma_unesc_sound(s.drop_first());
        match unesc(s.drop_first()) {
            Some((t, n)) => {
                let c = seq![s[0]] + t;
                assert(c[0] == s[0]);
                assert(c.drop_first() =~= t);
                assert(esc_byte(s[0]) =~= seq![s[0]]);
                assert(esc_bytes(c) == esc_byte(s[0]) + esc_bytes(t));
                assert(s.take(n + 1) =~= seq![s[0]] + s.drop_first().take(n));
                assert(s.drop_first().take(n) =~= s.skip(1).take(n));
                assert(s[n + 1] == s.drop_first()[n]);
            },
            None => {},
        }
    }
}

/// The payload decoder is sound: whatever it accepts is the canonical
/// payload of the record it decoded.
pub proof fn lemma_dec_after_role_sound(role: Option<Role>, s: Seq<u8>)
    ensures
        (dec_after_role(role, s) matches Some(m) ==> {
            &&& m.role == role
            &&& s == content_key() + esc_bytes(m.delta) + (done_key() + (
            if m.done {
                true_close()
            } else {
                false_close()
            }))
        }),
{
    if dec_after_role(role, s) is Some {
        let m = dec_after_role(role, s)->Some_0;
        let s1 = s.skip(content_key().len() as int);
        lemma_unesc_sound(s1);
        match unesc(s1) {
            Some((content, n)) => {
                let s2 = s1.skip(n);
                let s3 = s2.skip(done_key().len() as int);
                assert(s2.take(9) == done_key());
                assert(s.take(11) == content_key());
                assert(s1.take(n) == esc_bytes(content));
                assert(s =~= s.take(11) + (s1.take(n) + (s2.take(9) + s3)));
                assert(content_key() + esc_bytes(m.delta) + (done_key() + (
                if m.done {
                    true_close()
                } else {
                    false_close()
                })) =~= s.take(11) + (s1.take(n) + (s2.take(9) + s3)));
            },
            None => {
                assert(false);
            },
        }
    }
}

/// Decoding is sound: the only line that decodes to a record is that
/// record's canonical encoding.
pub proof fn lemma_decode_sound(line: Seq<u8>)
    ensures
        (spec_decode(line) matches Some(m) ==> line == encode_record_spec(m)),
{
    if spec_decode(line) is Some {
        let m = spec_decode(line)->Some_0;
        let s = line.skip(1);
        assert(line.take(1) == open_brace());
        if starts(s, role_key()) {
            let s1 = s.skip(role_key().len() as int);
            let pat_sys = role_name(Role::System) + role_sep();
            let pat_user = role_name(Role::User) + role_sep();
            let pat_asst = role_name(Role::Assistant) + role_sep();
            let pat_tool = role_name(Role::Tool) + role_sep();
            if starts(s1, pat_sys) {
                lemma_decode_sound_role(line, m, Role::System);
            } else if starts(s1, pat_user) {
                lemma_decode_sound_role(line, m, Role::User);
            } else if starts(s1, pat_asst) {
                lemma_decode_sound_role(line, m, Role::Assistant);
            } else {
                lemma_decode_sound_role(line, m, Role::Tool);
            }
        } else {
            lemma_dec_after_role_sound(None, s);
            assert(line =~= line.take(1) + s);
            assert(encode_record_spec(m) =~= open_brace() + s);
        }
    }
}

/// The role-tagged case of `lemma_decode_sound`.
#[verifier::rlimit(100)]
proof fn lemma_decode_sound_role(line: Seq<u8>, m: RecordModel, r: Role)
    requires
        spec_decode(line) == Some(m),
        starts(line, open_brace()),
        starts(line.skip(1), role_key()),
        starts(line.skip(1).skip(role_key().len() as int), role_name(r) + role_sep()),
        spec_decode(line) == dec_after_role(
            Some(r),
            line.skip(1).skip(role_key().len() as int).skip(
                role_name(r).len() + role_sep().len() as int,
            ),
        ),
    ensures
        line == encode_record_spec(m),
{
    let s = line.skip(1);
    let s1 = s.skip(8);
    let pat = role_name(r) + role_sep();
    let srest = s1.skip(pat.len() as int);
    lemma_dec_after_role_sound(Some(r), srest);
    assert(s.take(8) == role_key());
    assert(s1.take(pat.len() as int) == pat);
    assert(line =~= line.take(1) + (s.take(8) + (s1.take(pat.len() as int) + srest)));
    assert(encode_record_spec(m) =~= open_brace() + (role_key() + (pat + srest)));
}

/// The grammar in one sentence: a line decodes to a record if and only if
/// it is that record's canonical encoding.
pub proof fn lemma_decode_iff_canonical(line: Seq<u8>, m: RecordModel)
    ensures
        spec_decode(line) == Some(m) <==> line == encode_record_spec(m),
{
    lemma_decode_sound(line);
    lemma_decode_encode(m);
}

} // verus!
