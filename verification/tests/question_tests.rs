use dns_codec::{DnsError, Question};

#[test]
fn test_question_new() {
    // correct
    let mut raw: Vec<u8> = vec![
        // google com
        0x06, 0x67, 0x6f, 0x6f, 0x67, 0x6c, 0x65, 0x03, 0x63, 0x6f, 0x6d, 0x00,
        // type & class
        0x11, 0x22, 0x33, 0x44,
    ];
    let mut ques = Question::new(&raw);
    assert_eq!(true, ques.as_ref().is_ok());
    assert_eq!(2, ques.as_ref().unwrap().names().len());
    assert_eq!(16, ques.as_ref().unwrap().length());
    assert_eq!("google", ques.as_ref().unwrap().names().get(0).unwrap());
    assert_eq!("com", ques.as_ref().unwrap().names().get(1).unwrap());

    // incorrect
    raw = vec![
        // google com
        0x06, 0x67, 0x6f, 0x6f, 0x67, 0x6c, 0x65, 0x03, 0x63, 0x6f, 0x6d, 0x00,
        // type & class
        0x11, 0x22, 0x33,
    ];
    while raw.len() != 0 {
        ques = Question::new(&raw);
        assert_eq!(true, ques.is_err());
        raw.pop();
    }
}

#[test]
fn test_question_encode() {
    // correct
    let ques = Question::from_parts(
        vec!["google".to_string(), "com".to_string()],
        4386,
        13124,
        16,
    );

    let raw1: Vec<u8> = vec![
        // google com
        0x06, 0x67, 0x6f, 0x6f, 0x67, 0x6c, 0x65, 0x03, 0x63, 0x6f, 0x6d, 0x00,
        // type & class
        0x11, 0x22, 0x33, 0x44,
    ];

    let raw2: Vec<u8> = vec![
        // google com
        0x06, 0x67, 0x6f, 0x6f, 0x67, 0x6c, 0x65, 0x03, 0x63, 0x6f, 0x6d, 0x00,
        // type & class
        0x11, 0x22, 0x33, 0x43,
    ];

    assert_eq!(raw1, ques.encode());
    assert_ne!(raw2, ques.encode());
}

#[test]
fn test_question_typ_class() {
    let raw: Vec<u8> = vec![
        0x06, 0x67, 0x6f, 0x6f, 0x67, 0x6c, 0x65, 0x03, 0x63, 0x6f, 0x6d, 0x00, 0x11, 0x22, 0x33,
        0x44,
    ];
    let ques = Question::new(&raw).unwrap();
    assert_eq!(0x1122, ques.typ());
    assert_eq!(0x3344, ques.class());
}

#[test]
fn test_question_empty_buffer() {
    let raw: Vec<u8> = vec![];
    let ques = Question::new(&raw);
    assert_eq!(Err(DnsError::MessageIncomplete), ques.map(|_| ()));
}

#[test]
fn test_label_round_trip() {
    // encoding ["google", "com"] yields 06 'google' 03 'com' 00
    let ques = Question::from_parts(vec!["google".to_string(), "com".to_string()], 0, 0, 0);
    let encoded = ques.encode();
    let name_bytes: Vec<u8> = vec![
        0x06, b'g', b'o', b'o', b'g', b'l', b'e', 0x03, b'c', b'o', b'm', 0x00,
    ];
    assert_eq!(name_bytes, encoded[..12].to_vec());

    // decoding that byte sequence yields ["google", "com"]
    let mut raw = name_bytes.clone();
    raw.extend_from_slice(&[0, 1, 0, 1]);
    let back = Question::new(&raw).unwrap();
    assert_eq!(2, back.names().len());
    assert_eq!("google", back.names().get(0).unwrap());
    assert_eq!("com", back.names().get(1).unwrap());
}

#[test]
fn test_question_long_label() {
    // a length byte of 192 or more is read as a literal long label
    let mut raw: Vec<u8> = vec![200];
    for i in 0..200u8 {
        raw.push(b'a' + (i % 26));
    }
    raw.extend_from_slice(&[0x00, 0x00, 0x01, 0x00, 0x01]);
    let ques = Question::new(&raw).unwrap();
    assert_eq!(1, ques.names().len());
    assert_eq!(200, ques.names().get(0).unwrap().len());
    assert_eq!(raw.len(), ques.length());
}
