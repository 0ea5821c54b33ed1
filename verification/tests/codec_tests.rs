use job_queue::codec::{decode_payload, encode_payload, Payload};
use job_queue::job::HelloJob;

fn payload(tag: &str, fields: &[(&str, &str)]) -> Payload {
    Payload {
        tag: tag.to_string(),
        fields: fields.iter().map(|(k, v)| (k.to_string(), v.to_string())).collect(),
    }
}

#[test]
fn encode_writes_canonical_json() {
    let p = payload("HelloJob", &[("message", "hi")]);
    assert_eq!(encode_payload(&p), "{\"type\":\"HelloJob\",\"message\":\"hi\"}");
}

#[test]
fn encode_no_fields() {
    let p = payload("Ping", &[]);
    assert_eq!(encode_payload(&p), "{\"type\":\"Ping\"}");
}

#[test]
fn encode_escapes_specials() {
    let p = payload("T", &[("k", "a\"b\\c\nd\re\tf")]);
    assert_eq!(
        encode_payload(&p),
        "{\"type\":\"T\",\"k\":\"a\\\"b\\\\c\\nd\\re\\tf\"}"
    );
}

#[test]
fn decode_inverts_encode() {
    let cases = vec![
        payload("HelloJob", &[("message", "hi")]),
        payload("Ping", &[]),
        payload("Multi", &[("a", "1"), ("b", "2"), ("c", "3")]),
        payload("Esc", &[("quote", "she said \"hi\""), ("path", "C:\\tmp\\x"), ("nl", "a\nb")]),
        payload("Unicode", &[("msg", "grüße 世界")]),
    ];
    for p in cases {
        let text = encode_payload(&p);
        let back = decode_payload(&text).expect("canonical text parses");
        assert_eq!(back.tag, p.tag);
        assert_eq!(back.fields, p.fields);
    }
}

#[test]
fn decode_rejects_malformed_text() {
    assert!(decode_payload("").is_none());
    assert!(decode_payload("{}").is_none());
    assert!(decode_payload("{\"type\":\"A\"").is_none());
    assert!(decode_payload("{\"kind\":\"A\"}").is_none());
    assert!(decode_payload("{\"type\":\"A\"}x").is_none());
    assert!(decode_payload("{\"type\":\"A\",\"k\":\"v\"").is_none());
    assert!(decode_payload("{\"type\":\"A\",\"k\":\"\\x\"}").is_none());
    assert!(decode_payload("not json at all").is_none());
}

#[test]
fn hello_job_round_trips() {
    let job = HelloJob { message: "Hello, world!".to_string() };
    let text = encode_payload(&job.to_payload());
    let parsed = decode_payload(&text).expect("parses");
    let back = HelloJob::from_payload(&parsed).expect("is a HelloJob");
    assert_eq!(back.message, job.message);
}

#[test]
fn from_payload_rejects_other_tags() {
    let p = payload("OtherJob", &[("message", "hi")]);
    assert!(HelloJob::from_payload(&p).is_none());
    let p2 = payload("HelloJob", &[("text", "hi")]);
    assert!(HelloJob::from_payload(&p2).is_none());
}

#[test]
fn hello_tag_text() {
    assert_eq!(HelloJob::tag(), "HelloJob");
}
