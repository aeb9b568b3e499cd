use devin_usage::proto::{proto_fields, read_varint, walk_fields, F};

fn leb(mut v: u64) -> Vec<u8> {
    let mut out = Vec::new();
    loop {
        if v < 128 {
            out.push(v as u8);
            return out;
        }
        out.push(((v & 0x7f) | 0x80) as u8);
        v >>= 7;
    }
}

#[test]
fn leb128_reads_back_at_any_offset() {
    for v in [0u64, 1, 127, 128, 300, 16_383, 16_384, 1 << 35, u64::MAX - 1, u64::MAX] {
        let mut buf = vec![0xaa, 0xbb];
        let e = leb(v);
        buf.extend(&e);
        buf.extend([0x01, 0x02]);
        assert_eq!(read_varint(&buf, 2), (v, 2 + e.len()));
        assert!(e.len() >= 1 && e.len() <= 10);
    }
}

#[test]
fn encoded_fields_read_back_with_fixed_fields_skipped() {
    let mut buf = Vec::new();
    buf.extend(leb(1 << 3));
    buf.extend(leb(u64::MAX));
    buf.extend(leb((9 << 3) | 1));
    buf.extend([0u8; 8]);
    buf.extend(leb((300 << 3) | 2));
    buf.extend(leb(3));
    buf.extend(b"abc");
    buf.extend(leb((4 << 3) | 5));
    buf.extend([7u8; 4]);
    assert!(walk_fields(&buf).is_some());
    let fs = proto_fields(&buf);
    assert_eq!(fs.len(), 2);
    assert!(matches!(fs[0], (1, F::V(u64::MAX))));
    assert!(matches!(&fs[1], (300, F::B(b)) if b.as_slice() == b"abc"));
}

#[test]
fn walk_fields_reports_overflow() {
    let mut buf = vec![0x12];
    buf.extend(leb(u64::MAX));
    assert!(walk_fields(&buf).is_none());
}
