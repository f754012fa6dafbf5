use commitgen::codec::encode_record;
use commitgen::errors::ErrorKind;
use commitgen::reassembler::ChunkReassembler;
use commitgen::record::{Record, Role};

fn wire(records: &[(Option<Role>, &[u8], bool)]) -> Vec<u8> {
    let mut out = Vec::new();
    for (role, delta, done) in records {
        let mut line = encode_record(&Record::new(*role, delta.to_vec(), *done));
        out.append(&mut line);
        out.push(b'\n');
    }
    out
}

fn same_record(rec: &Record, role: Option<Role>, delta: &[u8], done: bool) -> bool {
    rec.role == role && rec.delta == delta.to_vec() && rec.done == done
}

#[test]
fn one_chunk_two_records() {
    let bytes = wire(&[
        (Some(Role::Assistant), b"Hel", false),
        (None, b"lo", true),
    ]);
    let mut r = ChunkReassembler::new();
    let evs = r.feed(&bytes);
    assert_eq!(evs.len(), 2);
    assert!(same_record(evs[0].as_ref().unwrap(), Some(Role::Assistant), b"Hel", false));
    assert!(same_record(evs[1].as_ref().unwrap(), None, b"lo", true));
    assert!(!r.has_pending());
}

#[test]
fn byte_by_byte_equals_all_at_once() {
    let records: &[(Option<Role>, &[u8], bool)] = &[
        (Some(Role::Assistant), b"to\"ken\\one\n", false),
        (None, b"token two", false),
        (None, b"", true),
    ];
    let bytes = wire(records);

    let mut whole = ChunkReassembler::new();
    let all = whole.feed(&bytes);

    let mut split = ChunkReassembler::new();
    let mut one_by_one = Vec::new();
    for b in &bytes {
        let mut evs = split.feed(&vec![*b]);
        one_by_one.append(&mut evs);
    }

    assert_eq!(all.len(), records.len());
    assert_eq!(one_by_one.len(), records.len());
    for i in 0..records.len() {
        let (role, delta, done) = records[i];
        assert!(same_record(all[i].as_ref().unwrap(), role, delta, done));
        assert!(same_record(one_by_one[i].as_ref().unwrap(), role, delta, done));
    }
    assert!(!whole.has_pending());
    assert!(!split.has_pending());
}

#[test]
fn split_record_at_every_offset() {
    let bytes = wire(&[(Some(Role::Assistant), b"a long delta, split anywhere", true)]);
    for k in 0..=bytes.len() {
        let mut r = ChunkReassembler::new();
        let mut evs = r.feed(&bytes[..k].to_vec());
        let mut evs2 = r.feed(&bytes[k..].to_vec());
        evs.append(&mut evs2);
        assert_eq!(evs.len(), 1, "split at {}", k);
        assert!(same_record(
            evs[0].as_ref().unwrap(),
            Some(Role::Assistant),
            b"a long delta, split anywhere",
            true
        ));
        assert!(!r.has_pending());
    }
}

#[test]
fn finish_on_empty_buffer_is_noop() {
    let mut r = ChunkReassembler::new();
    assert!(r.finish().is_ok());
    // Still usable afterwards.
    let evs = r.feed(&wire(&[(None, b"x", true)]));
    assert_eq!(evs.len(), 1);
    assert!(r.finish().is_ok());
}

#[test]
fn finish_on_pending_bytes_is_truncated_stream() {
    let mut r = ChunkReassembler::new();
    let evs = r.feed(&b"{\"content\":\"half".to_vec());
    assert!(evs.is_empty());
    assert!(r.has_pending());
    assert_eq!(r.finish(), Err(ErrorKind::TruncatedStream));
    assert!(!r.has_pending());
}

#[test]
fn corrupted_record_costs_only_itself() {
    let mut bytes = wire(&[(Some(Role::Assistant), b"good one", false)]);
    bytes.extend_from_slice(b"{\"content\":\"bro");
    bytes.extend_from_slice(b"ken\n");
    let mut tail = wire(&[(None, b"good two", true)]);
    bytes.append(&mut tail);

    let mut r = ChunkReassembler::new();
    let evs = r.feed(&bytes);
    assert_eq!(evs.len(), 3);
    assert!(same_record(evs[0].as_ref().unwrap(), Some(Role::Assistant), b"good one", false));
    assert!(evs[1].is_none());
    assert!(same_record(evs[2].as_ref().unwrap(), None, b"good two", true));
    assert!(!r.has_pending());
}

#[test]
fn large_chunk_may_still_be_partial() {
    // A chunk bigger than a typical transport unit that is still only part
    // of one record: no length heuristic may declare it complete.
    let big: Vec<u8> = std::iter::repeat(b'x').take(5000).collect();
    let bytes = wire(&[(None, &big, true)]);
    let cut = 4096;
    let mut r = ChunkReassembler::new();
    assert!(r.feed(&bytes[..cut].to_vec()).is_empty());
    let evs = r.feed(&bytes[cut..].to_vec());
    assert_eq!(evs.len(), 1);
    assert!(same_record(evs[0].as_ref().unwrap(), None, &big, true));
}
