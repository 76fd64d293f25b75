use dns_codec::Header;

#[test]
fn test_header_id() {
    let head = Header::new([1, 2, 0, 0, 0, 0, 0, 0, 0, 0, 0, 0]);
    assert_eq!(258, head.id());
}

#[test]
fn test_header_with_id() {
    let mut head = Header::new([0; 12]);
    head.with_id(12);
    assert_eq!(12, head.id());
}

#[test]
fn test_header_qr() {
    let head = Header::new([0, 0, 1, 0, 0, 0, 0, 0, 0, 0, 0, 0]);
    assert_eq!(1, head.qr());
    let head = Header::new([0, 0, 2, 0, 0, 0, 0, 0, 0, 0, 0, 0]);
    assert_eq!(0, head.qr());
}

#[test]
fn test_header_with_qr() {
    let mut head = Header::new([0; 12]);
    head.with_qr(12);
    assert_eq!(0, head.qr());
    head.with_qr(1);
    assert_eq!(1, head.qr());
    head.with_qr(0);
    assert_eq!(0, head.qr());
}

#[test]
fn test_header_opcode() {
    let mut head = Header::new([0, 0, u8::MAX, 0, 0, 0, 0, 0, 0, 0, 0, 0]);
    assert_eq!(15, head.opcode());
    head = Header::new([0, 0, 30, 0, 0, 0, 0, 0, 0, 0, 0, 0]);
    assert_eq!(15, head.opcode());
    head = Header::new([0, 0, 2, 0, 0, 0, 0, 0, 0, 0, 0, 0]);
    assert_eq!(1, head.opcode());
}

#[test]
fn test_header_with_opcode() {
    let mut head = Header::new([0; 12]);
    head.with_opcode(12);
    assert_eq!(12, head.opcode());
    head.with_opcode(99);
    assert_eq!(12, head.opcode());
    head.with_opcode(15);
    assert_eq!(15, head.opcode());
}

#[test]
fn test_header_aa() {
    let head = Header::new([0, 0, u8::MAX, 0, 0, 0, 0, 0, 0, 0, 0, 0]);
    assert_eq!(1, head.aa());
    let head = Header::new([0, 0, 64, 0, 0, 0, 0, 0, 0, 0, 0, 0]);
    assert_eq!(0, head.aa());
}

#[test]
fn test_header_with_aa() {
    let mut head = Header::new([0; 12]);
    head.with_aa(1);
    assert_eq!(1, head.aa());
    head.with_aa(2);
    assert_eq!(1, head.aa());
    head.with_aa(0);
    assert_eq!(0, head.aa());
}

#[test]
fn test_header_tc() {
    let head = Header::new([0, 0, u8::MAX, 0, 0, 0, 0, 0, 0, 0, 0, 0]);
    assert_eq!(1, head.tc());
    let head = Header::new([0, 0, 64, 0, 0, 0, 0, 0, 0, 0, 0, 0]);
    assert_eq!(1, head.tc());
    let head = Header::new([0, 0, 32, 0, 0, 0, 0, 0, 0, 0, 0, 0]);
    assert_eq!(0, head.tc());
}

#[test]
fn test_header_with_tc() {
    let mut head = Header::new([0; 12]);
    head.with_tc(1);
    assert_eq!(1, head.tc());
    head.with_tc(2);
    assert_eq!(1, head.tc());
    head.with_tc(0);
    assert_eq!(0, head.tc());
}

#[test]
fn test_header_rd() {
    let head = Header::new([0, 0, u8::MAX, 0, 0, 0, 0, 0, 0, 0, 0, 0]);
    assert_eq!(1, head.rd());
    let head = Header::new([0, 0, 160, 0, 0, 0, 0, 0, 0, 0, 0, 0]);
    assert_eq!(1, head.rd());
    let head = Header::new([0, 0, 32, 0, 0, 0, 0, 0, 0, 0, 0, 0]);
    assert_eq!(0, head.rd());
}

#[test]
fn test_header_with_rd() {
    let mut head = Header::new([0; 12]);
    head.with_rd(1);
    assert_eq!(1, head.rd());
    head.with_rd(2);
    assert_eq!(1, head.rd());
    head.with_rd(0);
    assert_eq!(0, head.rd());
}

#[test]
fn test_header_ra() {
    let head = Header::new([0, 0, 0, 1, 0, 0, 0, 0, 0, 0, 0, 0]);
    assert_eq!(1, head.ra());
    let head = Header::new([0, 0, 0, 3, 0, 0, 0, 0, 0, 0, 0, 0]);
    assert_eq!(1, head.ra());
    let head = Header::new([0, 0, 0, 2, 0, 0, 0, 0, 0, 0, 0, 0]);
    assert_eq!(0, head.ra());
}

#[test]
fn test_header_with_ra() {
    let mut head = Header::new([0; 12]);
    head.with_ra(1);
    assert_eq!(1, head.ra());
    head.with_ra(2);
    assert_eq!(1, head.ra());
    head.with_ra(0);
    assert_eq!(0, head.ra());
}

#[test]
fn test_header_z() {
    let head = Header::new([0, 0, 0, 14, 0, 0, 0, 0, 0, 0, 0, 0]);
    assert_eq!(7, head.z());
}

#[test]
fn test_header_with_z() {
    let mut head = Header::new([0; 12]);
    head.with_z(1);
    assert_eq!(1, head.z());
    head.with_z(7);
    assert_eq!(7, head.z());
    head.with_z(8);
    assert_eq!(7, head.z());
}

#[test]
fn test_header_rcode() {
    let head = Header::new([0, 0, 0, 240, 0, 0, 0, 0, 0, 0, 0, 0]);
    assert_eq!(15, head.rcode());
}

#[test]
fn test_header_with_rcode() {
    let mut head = Header::new([0; 12]);
    head.with_rcode(1);
    assert_eq!(1, head.rcode());
    head.with_rcode(7);
    assert_eq!(7, head.rcode());
    head.with_rcode(15);
    assert_eq!(15, head.rcode());
    head.with_rcode(16);
    assert_eq!(15, head.rcode());
}

#[test]
fn test_header_qdcount() {
    let head = Header::new([0, 0, 0, 14, 2, 4, 0, 0, 0, 0, 0, 0]);
    assert_eq!(516, head.qdcount());
}

#[test]
fn test_header_with_qdcount() {
    let mut head = Header::new([0; 12]);
    head.with_qdcount(16);
    assert_eq!(16, head.qdcount());
    head.with_qdcount(516);
    assert_eq!(2, head.get_0()[4]);
    assert_eq!(4, head.get_0()[5]);
}

#[test]
fn test_header_ancount() {
    let head = Header::new([0, 0, 0, 14, 0, 0, 2, 4, 0, 0, 0, 0]);
    assert_eq!(516, head.ancount());
}

#[test]
fn test_header_with_ancount() {
    let mut head = Header::new([0; 12]);
    head.with_ancount(16);
    assert_eq!(16, head.ancount());
    head.with_ancount(516);
    assert_eq!(2, head.get_0()[6]);
    assert_eq!(4, head.get_0()[7]);
}

#[test]
fn test_header_nscount() {
    let head = Header::new([0, 0, 0, 14, 0, 0, 0, 0, 2, 4, 0, 0]);
    assert_eq!(516, head.nscount());
}

#[test]
fn test_header_with_nscount() {
    let mut head = Header::new([0; 12]);
    head.with_nscount(16);
    assert_eq!(16, head.nscount());
    head.with_nscount(516);
    assert_eq!(2, head.get_0()[8]);
    assert_eq!(4, head.get_0()[9]);
}

#[test]
fn test_header_arcount() {
    let head = Header::new([0, 0, 0, 14, 0, 0, 0, 0, 0, 0, 2, 4]);
    assert_eq!(516, head.arcount());
}

#[test]
fn test_header_with_arcount() {
    let mut head = Header::new([0; 12]);
    head.with_arcount(16);
    assert_eq!(16, head.arcount());
    head.with_arcount(516);
    assert_eq!(2, head.get_0()[10]);
    assert_eq!(4, head.get_0()[11]);
}

#[test]
fn test_header_setters_leave_siblings() {
    let mut head = Header::new([0; 12]);
    head.with_opcode(9);
    head.with_qr(1);
    head.with_aa(1);
    head.with_rcode(5);
    head.with_z(3);
    head.with_ra(1);
    assert_eq!(9, head.opcode());
    assert_eq!(1, head.qr());
    assert_eq!(1, head.aa());
    assert_eq!(0, head.tc());
    assert_eq!(0, head.rd());
    assert_eq!(5, head.rcode());
    assert_eq!(3, head.z());
    assert_eq!(1, head.ra());
}
