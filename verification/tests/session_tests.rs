use devin_usage::session::{
    blob_of_items, desktop_row, key_blob_of, master_key_blob, open_session_blob, read_desktop_token, seal_session_blob,
    session_record_id, DesktopRead, MasterKeyBlob,
};

#[test]
fn master_key_blob_strips_prefix() {
    match master_key_blob("RFBBUElhYmM=") {
        MasterKeyBlob::Blob(b) => assert_eq!(b, b"abc".to_vec()),
        _ => panic!("expected a blob"),
    }
    match master_key_blob("RFBBUEk=") {
        MasterKeyBlob::Blob(b) => assert!(b.is_empty()),
        _ => panic!("expected an empty blob"),
    }
}

#[test]
fn master_key_blob_errors() {
    assert!(matches!(master_key_blob("RFBB"), MasterKeyBlob::TooShort));
    assert!(matches!(master_key_blob("!!"), MasterKeyBlob::Undecodable));
}

#[test]
fn key_blob_of_bytes() {
    assert!(matches!(key_blob_of(&vec![1, 2, 3, 4]), MasterKeyBlob::TooShort));
    match key_blob_of(&vec![1, 2, 3, 4, 5, 6]) {
        MasterKeyBlob::Blob(b) => assert_eq!(b, vec![6]),
        _ => panic!("expected a blob"),
    }
}

#[test]
fn sealed_secret_opens_again() {
    let key = [7u8; 32];
    let nonce = [1u8, 2, 3, 4, 5, 6, 7, 8, 9, 10, 11, 12];
    let blob = seal_session_blob(&key, &nonce, b"devin-session-token$eyJ").unwrap();
    assert_eq!(&blob[..3], b"v10");
    assert_eq!(&blob[3..15], &nonce);
    assert_eq!(blob.len(), 3 + 12 + 23 + 16);
    assert_eq!(open_session_blob(&key, &blob), Some(b"devin-session-token$eyJ".to_vec()));
}

#[test]
fn wrong_key_does_not_open() {
    let nonce = [0u8; 12];
    let blob = seal_session_blob(&[1u8; 32], &nonce, b"secret").unwrap();
    assert_eq!(open_session_blob(&[2u8; 32], &blob), None);
}

#[test]
fn tampered_secret_does_not_open() {
    let key = [3u8; 32];
    let mut blob = seal_session_blob(&key, &[9u8; 12], b"secret").unwrap();
    let last = blob.len() - 1;
    blob[last] ^= 1;
    assert_eq!(open_session_blob(&key, &blob), None);
}

#[test]
fn record_id_in_hex() {
    assert_eq!(session_record_id([1, 255, 0, 16, 0xdeadbeef]), "1-ff-0-10-deadbeef");
}

#[test]
fn synced_row_reads_back_the_token() {
    let key = [5u8; 32];
    let row = desktop_row(&key, &[4u8; 12], "1-2-3-4-5", "devin-session-token$eyJx", "me", "u1").unwrap();
    assert!(row.starts_with("{\"data\":["));
    match read_desktop_token(&key, &row) {
        DesktopRead::Token(t) => assert_eq!(t, "devin-session-token$eyJx"),
        _ => panic!("expected the token back"),
    }
    assert!(matches!(read_desktop_token(&[6u8; 32], &row), DesktopRead::Missing));
}

#[test]
fn desktop_read_errors() {
    assert!(matches!(read_desktop_token(&[0u8; 32], "not json"), DesktopRead::Missing));
    assert!(matches!(read_desktop_token(&[0u8; 32], "{\"other\":1}"), DesktopRead::Missing));
    assert!(matches!(read_desktop_token(&[0u8; 31], "{\"data\":[1,2]}"), DesktopRead::BadKey));
    assert!(matches!(read_desktop_token(&[0u8; 32], "{\"data\":[1,2]}"), DesktopRead::ShortSecret));
}

#[test]
fn blob_items_keep_integers_cut_to_bytes() {
    assert_eq!(blob_of_items(&vec![Some(1), None, Some(256 + 7), Some(255)]), vec![1, 7, 255]);
}
