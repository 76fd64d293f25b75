use dns_codec::{DnsError, DNS};

fn minimal_query(id_hi: u8, id_lo: u8) -> Vec<u8> {
    vec![
        // header: id, flags cleared, one question, no records
        id_hi, id_lo, 0x00, 0x00, 0x00, 0x01, 0x00, 0x00, 0x00, 0x00, 0x00, 0x00,
        // question: google com, type A, class IN
        0x06, b'g', b'o', b'o', b'g', b'l', b'e', 0x03, b'c', b'o', b'm', 0x00, 0x00, 0x01, 0x00,
        0x01,
    ]
}

#[test]
fn test_message_round_trip_minimal_query() {
    let raw = minimal_query(0x12, 0x34);
    let message = DNS::from(&raw).unwrap();
    assert_eq!(0x1234, message.head().id());
    assert_eq!(1, message.questions().len());
    assert_eq!(raw, message.encode());

    // the identifier is arbitrary: any other still round-trips
    let raw = minimal_query(0xab, 0xcd);
    let message = DNS::from(&raw).unwrap();
    assert_eq!(raw, message.encode());
}

#[test]
fn test_message_round_trip_with_answer() {
    let raw: Vec<u8> = vec![
        // header: id 7, flags cleared, one question, one answer
        0x00, 0x07, 0x00, 0x00, 0x00, 0x01, 0x00, 0x01, 0x00, 0x00, 0x00, 0x00,
        // question: example, type A, class IN
        0x07, b'e', b'x', b'a', b'm', b'p', b'l', b'e', 0x00, 0x00, 0x01, 0x00, 0x01,
        // answer: example, type A, class IN, ttl 60, 4 bytes of rdata
        0x07, b'e', b'x', b'a', b'm', b'p', b'l', b'e', 0x00, 0x00, 0x01, 0x00, 0x01, 0x00, 0x00,
        0x00, 0x3c, 0x00, 0x04, 10, 0, 0, 1,
    ];
    let message = DNS::from(&raw).unwrap();
    assert_eq!(1, message.questions().len());
    assert_eq!(1, message.answers().len());
    assert_eq!(raw, message.encode());
}

#[test]
fn test_message_header_too_short() {
    let raw: Vec<u8> = vec![0x12, 0x34, 0x00];
    assert_eq!(true, DNS::from(&raw).is_err());
}

#[test]
fn test_message_missing_question() {
    // the header declares one question but none follows
    let raw: Vec<u8> = vec![
        0x12, 0x34, 0x00, 0x00, 0x00, 0x01, 0x00, 0x00, 0x00, 0x00, 0x00, 0x00,
    ];
    match DNS::from(&raw) {
        Ok(_) => panic!("a message without its declared question must not decode"),
        Err(e) => assert_eq!(DnsError::MessageIncomplete, e),
    }
}

#[test]
fn test_message_missing_answer() {
    // the header declares an answer but the buffer ends after the question
    let raw = {
        let mut v = minimal_query(0x12, 0x34);
        v[7] = 0x01;
        v
    };
    match DNS::from(&raw) {
        Ok(_) => panic!("a message without its declared answer must not decode"),
        Err(e) => assert_eq!(DnsError::MessageIncomplete, e),
    }
}

#[test]
fn test_message_truncated_question_always_fails() {
    // every strict prefix of a well-formed query fails to decode
    let mut raw = minimal_query(0x12, 0x34);
    while raw.len() != 0 {
        raw.pop();
        assert_eq!(true, DNS::from(&raw).is_err());
    }
}

#[test]
fn test_message_encode_rewrites_counts() {
    // a decoded reply keeps its header bytes, and the counts it emits come
    // from the actual sections
    let raw = minimal_query(0x00, 0x09);
    let message = DNS::from(&raw).unwrap();
    assert_eq!(1, message.head().qdcount());
    assert_eq!(0, message.head().ancount());
    let encoded = message.encode();
    assert_eq!(0x00, encoded[4]);
    assert_eq!(0x01, encoded[5]);
    assert_eq!(0x00, encoded[6]);
    assert_eq!(0x00, encoded[7]);
}
