use dns_codec::{Answers, ResourceRecord};

#[test]
fn test_rr_with_name() {
    let mut rr = ResourceRecord::new();
    rr.with_name("google.com");
    assert_eq!(1, rr.names().len());
    assert_eq!(&"google.com", &rr.names().get(0).unwrap().as_str());

    rr.with_name("amazon.com");
    assert_eq!(2, rr.names().len());
    assert_eq!(&"amazon.com", &rr.names().get(1).unwrap().as_str());
}

#[test]
fn test_rr_with_typ() {
    let mut rr = ResourceRecord::new();
    rr.with_type(1);
    assert_eq!(1, rr.typ());

    rr.with_type(2);
    assert_eq!(2, rr.typ());
}

#[test]
fn test_rr_with_class() {
    let mut rr = ResourceRecord::new();
    rr.with_class(1);
    assert_eq!(1, rr.class());

    rr.with_class(2);
    assert_eq!(2, rr.class());
}

#[test]
fn test_rr_with_ttl() {
    let mut rr = ResourceRecord::new();
    rr.with_ttl(1);
    assert_eq!(1, rr.ttl());

    rr.with_ttl(2);
    assert_eq!(2, rr.ttl());
}

#[test]
fn test_rr_with_rdata() {
    let mut rr = ResourceRecord::new();
    rr.with_rdata([10, 0, 0, 1]);
    assert_eq!(vec![10_u8, 0, 0, 1], *rr.rdata());

    rr.with_rdata([10, 0, 0, 2]);
    assert_eq!(vec![10_u8, 0, 0, 2], *rr.rdata());
}

#[test]
fn test_rr_encode() {
    let mut rr = ResourceRecord::new();
    rr.with_name("google")
        .with_name("com")
        .with_type(1)
        .with_class(1)
        .with_ttl(300)
        .with_rdata([10, 0, 0, 1]);
    let expected: Vec<u8> = vec![
        // google com
        0x06, b'g', b'o', b'o', b'g', b'l', b'e', 0x03, b'c', b'o', b'm', 0x00,
        // type & class
        0x00, 0x01, 0x00, 0x01,
        // ttl
        0x00, 0x00, 0x01, 0x2c,
        // rdata length & rdata
        0x00, 0x04, 10, 0, 0, 1,
    ];
    assert_eq!(expected, rr.encode());
}

#[test]
fn test_rr_rdlength_tracks_rdata() {
    // however the rdata was supplied, the declared length field is the
    // length of the rdata actually held: here always 4
    let mut rr = ResourceRecord::new();
    rr.with_rdata([1, 2, 3, 4]);
    rr.with_rdata([10, 0, 0, 1]);
    let encoded = rr.encode();
    // an empty name is a single zero byte, then 8 bytes of type, class and
    // ttl; the length field is next
    assert_eq!(0x00, encoded[9]);
    assert_eq!(0x04, encoded[10]);
    assert_eq!(vec![10_u8, 0, 0, 1], encoded[11..].to_vec());

    // a fresh record holds no rdata, and declares none
    let empty = ResourceRecord::new();
    let encoded = empty.encode();
    assert_eq!(0x00, encoded[9]);
    assert_eq!(0x00, encoded[10]);
    assert_eq!(11, encoded.len());
}

#[test]
fn test_answers_encode() {
    let mut answers = Answers::new();
    assert_eq!(0, answers.len());

    let mut first = ResourceRecord::new();
    first.with_name("a").with_type(1).with_class(1).with_ttl(60).with_rdata([1, 2, 3, 4]);
    let mut second = ResourceRecord::new();
    second.with_name("b").with_type(1).with_class(1).with_ttl(60).with_rdata([5, 6, 7, 8]);

    let mut joined = first.encode();
    joined.extend_from_slice(&second.encode());

    answers.extend(first);
    answers.extend(second);
    assert_eq!(2, answers.len());
    assert_eq!(joined, answers.encode());
}
