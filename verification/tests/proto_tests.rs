use devin_usage::proto::{fnum, fstr, fsub, proto_fields, read_varint, F};

fn is_num(f: &(u32, F), n: u32, v: u64) -> bool {
    match &f.1 {
        F::V(x) => f.0 == n && *x == v,
        F::B(_) => false,
    }
}

fn is_bytes(f: &(u32, F), n: u32, b: &[u8]) -> bool {
    match &f.1 {
        F::B(x) => f.0 == n && x.as_slice() == b,
        F::V(_) => false,
    }
}

#[test]
fn varint_two_bytes() {
    assert_eq!(read_varint(&[0x96, 0x01], 0), (150, 2));
}

#[test]
fn varint_single_byte() {
    assert_eq!(read_varint(&[0x01], 0), (1, 1));
    assert_eq!(read_varint(&[0x7f, 0x05], 0), (127, 1));
}

#[test]
fn varint_at_offset() {
    assert_eq!(read_varint(&[0xff, 0xac, 0x02, 0x09], 1), (300, 3));
}

#[test]
fn varint_past_end_reads_nothing() {
    assert_eq!(read_varint(&[0x01], 5), (0, 5));
    assert_eq!(read_varint(&[], 0), (0, 0));
}

#[test]
fn varint_unterminated_runs_to_end() {
    assert_eq!(read_varint(&[0x81, 0x80], 0), (1, 2));
}

#[test]
fn varint_max_u64() {
    let buf = [0xff, 0xff, 0xff, 0xff, 0xff, 0xff, 0xff, 0xff, 0xff, 0x01];
    assert_eq!(read_varint(&buf, 0), (u64::MAX, 10));
}

#[test]
fn varint_overlong_drops_high_bits() {
    // an eleventh byte is shifted by 70, taken modulo 64 as the wrapping shift does
    let buf = [0x80, 0x80, 0x80, 0x80, 0x80, 0x80, 0x80, 0x80, 0x80, 0x80, 0x01];
    assert_eq!(read_varint(&buf, 0), (1u64 << 6, 11));
}

#[test]
fn fields_of_mixed_message() {
    let buf = [
        0x08, 0x96, 0x01, // 1: varint 150
        0x12, 0x02, b'h', b'i', // 2: "hi"
        0x19, 1, 2, 3, 4, 5, 6, 7, 8, // 3: fixed64, skipped
        0x25, 1, 2, 3, 4, // 4: fixed32, skipped
        0x28, 0x07, // 5: varint 7
    ];
    let fs = proto_fields(&buf);
    assert_eq!(fs.len(), 3);
    assert!(is_num(&fs[0], 1, 150));
    assert!(is_bytes(&fs[1], 2, b"hi"));
    assert!(is_num(&fs[2], 5, 7));
}

#[test]
fn fields_length_cut_at_end() {
    let buf = [0x12, 0x05, b'a'];
    let fs = proto_fields(&buf);
    assert_eq!(fs.len(), 1);
    assert!(is_bytes(&fs[0], 2, b"a"));
}

#[test]
fn fields_unknown_wire_type_ends_list() {
    let buf = [0x08, 0x01, 0x0b, 0x08, 0x02];
    let fs = proto_fields(&buf);
    assert_eq!(fs.len(), 1);
    assert!(is_num(&fs[0], 1, 1));
}

#[test]
fn fields_short_fixed_ends_list() {
    let buf = [0x08, 0x01, 0x19, 1, 2, 3];
    let fs = proto_fields(&buf);
    assert_eq!(fs.len(), 1);
}

#[test]
fn fields_of_empty_message() {
    assert_eq!(proto_fields(&[]).len(), 0);
}

#[test]
fn fnum_finds_first_varint() {
    let buf = [0x12, 0x01, b'x', 0x10, 0x05, 0x10, 0x06];
    let fs = proto_fields(&buf);
    assert_eq!(fnum(&fs, 2), Some(5));
    assert_eq!(fnum(&fs, 3), None);
}

#[test]
fn fsub_walks_first_bytes_field() {
    let buf = [0x08, 0x01, 0x1a, 0x02, 0x08, 0x2a, 0x1a, 0x02, 0x08, 0x01];
    let fs = proto_fields(&buf);
    let sub = fsub(&fs, 3).unwrap();
    assert_eq!(sub.len(), 1);
    assert!(is_num(&sub[0], 1, 42));
    assert!(fsub(&fs, 1).is_none());
}

#[test]
fn fstr_skips_invalid_utf8() {
    let buf = [0x12, 0x01, 0xff, 0x12, 0x02, b'o', b'k'];
    let fs = proto_fields(&buf);
    assert_eq!(fstr(&fs, 2), Some("ok".to_string()));
    assert_eq!(fstr(&fs, 4), None);
}

#[test]
fn fstr_all_invalid_is_none() {
    let buf = [0x12, 0x01, 0xff];
    let fs = proto_fields(&buf);
    assert_eq!(fstr(&fs, 2), None);
}
