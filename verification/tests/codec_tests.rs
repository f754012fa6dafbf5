use commitgen::codec::{decode_record, encode_record};
use commitgen::record::{Record, Role};

fn enc(role: Option<Role>, delta: &[u8], done: bool) -> Vec<u8> {
    encode_record(&Record::new(role, delta.to_vec(), done))
}

#[test]
fn encode_exact_assistant_line() {
    let line = enc(Some(Role::Assistant), b"Hi", false);
    assert_eq!(line, b"{\"role\":\"assistant\",\"content\":\"Hi\",\"done\":false}".to_vec());
}

#[test]
fn encode_exact_no_role_done() {
    let line = enc(None, b"", true);
    assert_eq!(line, b"{\"content\":\"\",\"done\":true}".to_vec());
}

#[test]
fn encode_escapes_quote_backslash_control() {
    let line = enc(None, b"a\"b\\c\nd\x01", false);
    assert_eq!(
        line,
        b"{\"content\":\"a\\\"b\\\\c\\u000ad\\u0001\",\"done\":false}".to_vec()
    );
}

#[test]
fn encode_all_roles() {
    assert!(enc(Some(Role::System), b"s", false).starts_with(b"{\"role\":\"system\","));
    assert!(enc(Some(Role::User), b"u", false).starts_with(b"{\"role\":\"user\","));
    assert!(enc(Some(Role::Tool), b"t", false).starts_with(b"{\"role\":\"tool\","));
}

#[test]
fn decode_inverts_encode() {
    let cases: Vec<(Option<Role>, &[u8], bool)> = vec![
        (Some(Role::Assistant), b"Hello, world", false),
        (Some(Role::System), b"", true),
        (Some(Role::User), b"q\"\\\r\n\t", true),
        (Some(Role::Tool), b"bytes \xc3\xa9", false),
        (None, b"no role here", true),
        (None, b"", false),
    ];
    for (role, delta, done) in cases {
        let line = enc(role, delta, done);
        let rec = decode_record(&line).expect("canonical line must decode");
        assert_eq!(rec.role, role);
        assert_eq!(rec.delta, delta.to_vec());
        assert_eq!(rec.done, done);
    }
}

#[test]
fn decode_exact_known_line() {
    let line = b"{\"role\":\"assistant\",\"content\":\"ok\",\"done\":true}".to_vec();
    let rec = decode_record(&line).expect("decodes");
    assert_eq!(rec.role, Some(Role::Assistant));
    assert_eq!(rec.delta, b"ok".to_vec());
    assert!(rec.done);
}

#[test]
fn decode_rejects_malformed() {
    let bad: Vec<&[u8]> = vec![
        b"",
        b"{",
        b"garbage",
        b"{\"content\":\"x\",\"done\":false",
        b"{\"content\":\"x\",\"done\":false}}",
        b"{\"role\":\"robot\",\"content\":\"x\",\"done\":false}",
        b"{\"done\":true,\"content\":\"x\"}",
        b"{ \"content\":\"x\",\"done\":false}",
        b"{\"content\":\"x\",\"done\":maybe}",
        b"{\"content\":\"x\\q\",\"done\":false}",
        b"{\"content\":\"x\\u00AF\",\"done\":false}",
        b"{\"content\":\"x\\u0041\",\"done\":false}",
        b"{\"content\":\"x\x01\",\"done\":false}",
    ];
    for line in bad {
        assert!(decode_record(&line.to_vec()).is_none(), "should reject {:?}", line);
    }
}

#[test]
fn canonical_lines_are_real_json() {
    let line = enc(Some(Role::Assistant), b"He said \"hi\"\n", true);
    let v: serde_json::Value = serde_json::from_slice(&line).expect("valid JSON");
    assert_eq!(v["role"], "assistant");
    assert_eq!(v["content"], "He said \"hi\"\n");
    assert_eq!(v["done"], true);
}
