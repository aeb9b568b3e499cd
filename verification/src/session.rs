//! Devin Desktop's stored sign-in: an Electron SafeStorage secret, `v10`
//! followed by a 12-byte nonce and the AES-256-GCM ciphertext, under a master
//! key that DPAPI protects in `Local State`.
use vstd::prelude::*;
use vstd::string::StringExecFns;
use vstd::string::StringSliceAdditionalSpecFns;

use crate::codec::{
    access_token_in, aes256gcm_decrypt, aes256gcm_encrypt, aes256gcm_opened, aes256gcm_sealed, b64_standard_decode,
    b64_standard_decoded, data_items, data_row, data_row_json, json_access_token, json_data_items, session_json,
    session_json_text,
};
use vstd::utf8::*;

verus! {

/// The protected master key found in `os_crypt.encrypted_key`.
pub enum MasterKeyBlob {
    /// The DPAPI blob: the decoded bytes after the 5-byte `DPAPI` prefix.
    Blob(Vec<u8>),
    /// The field is not base64.
    Undecodable,
    /// The decoded bytes are shorter than the prefix, where cutting it off is
    /// out of range.
    TooShort,
}

/// The DPAPI blob inside a base64 `encrypted_key`.
pub fn master_key_blob(encrypted_key_b64: &str) -> (r: MasterKeyBlob)
    ensures
        match b64_standard_decoded(encrypted_key_b64.spec_bytes()) {
            None => r is Undecodable,
            Some(d) => if d.len() < 5 {
                r is TooShort
            } else {
                r matches MasterKeyBlob::Blob(b) && b@ == d.skip(5)
            },
        },
{
    match b64_standard_decode(encrypted_key_b64.as_bytes()) {
        None => MasterKeyBlob::Undecodable,
        Some(d) => key_blob_of(&d),
    }
}

/// The DPAPI blob in the decoded `encrypted_key`: the bytes after the 5-byte
/// `DPAPI` prefix (`TooShort` when there are fewer than 5 bytes).
pub fn key_blob_of(d: &Vec<u8>) -> (r: MasterKeyBlob)
    ensures
        d@.len() < 5 ==> r is TooShort,
        d@.len() >= 5 ==> (r matches MasterKeyBlob::Blob(b) && b@ == d@.skip(5)),
{
    if d.len() < 5 {
        return MasterKeyBlob::TooShort;
    }
    let mut b: Vec<u8> = Vec::new();
    let mut i: usize = 5;
    while i < d.len()
        invariant
            5 <= i <= d@.len(),
            b@ == d@.subrange(5, i as int),
        decreases d.len() - i,
    {
        b.push(d[i]);
        assert(b@ =~= d@.subrange(5, i + 1));
        i = i + 1;
    }
    assert(d@.subrange(5, d@.len() as int) =~= d@.skip(5));
    MasterKeyBlob::Blob(b)
}

/// The secret's marker: the bytes of `v10`.
pub open spec fn v10() -> Seq<u8> {
    seq![118u8, 49, 48]
}

/// The plaintext of a stored secret: the ciphertext after the marker and
/// nonce, opened under the nonce at bytes 3 to 15.
pub open spec fn opened_blob(master: Seq<u8>, blob: Seq<u8>) -> Option<Seq<u8>> {
    aes256gcm_opened(master, blob.subrange(3, 15), blob.skip(15))
}

/// A stored secret: the marker, the nonce and the ciphertext.
pub open spec fn sealed_blob(master: Seq<u8>, nonce: Seq<u8>, plaintext: Seq<u8>) -> Seq<u8> {
    v10() + nonce + aes256gcm_sealed(master, nonce, plaintext)
}

/// Opens a stored secret with the 32-byte master key (the marker is not
/// checked, as Devin's reader does not check it).
pub fn open_session_blob(master: &[u8], blob: &[u8]) -> (r: Option<Vec<u8>>)
    requires
        master@.len() == 32,
        blob@.len() >= 15,
    ensures
        r is Some <==> opened_blob(master@, blob@) is Some,
        r matches Some(p) ==> opened_blob(master@, blob@) == Some(p@),
{
    let nonce = &blob[3..15];
    let ct = &blob[15..blob.len()];
    proof {
        assert(ct@ =~= blob@.skip(15));
    }
    aes256gcm_decrypt(master, nonce, ct)
}

/// Seals `plaintext` as a stored secret under the 32-byte master key and a
/// 12-byte nonce. What it writes, [`open_session_blob`] opens again.
pub fn seal_session_blob(master: &[u8], nonce: &[u8; 12], plaintext: &[u8]) -> (r: Option<Vec<u8>>)
    requires
        master@.len() == 32,
    ensures
        r is Some <==> plaintext@.len() <= 0x10_0000_0000,
        r matches Some(b) ==> b@ == sealed_blob(master@, nonce@, plaintext@),
        r matches Some(b) ==> b@.len() >= 15 && opened_blob(master@, b@) == Some(plaintext@),
{
    let ct = match aes256gcm_encrypt(master, nonce.as_slice(), plaintext) {
        Some(c) => c,
        None => return None,
    };
    let mut out: Vec<u8> = Vec::new();
    out.push(118);
    out.push(49);
    out.push(48);
    let mut i: usize = 0;
    while i < 12
        invariant
            i <= 12,
            out@ == v10() + nonce@.take(i as int),
        decreases 12 - i,
    {
        out.push(nonce[i]);
        assert(out@ =~= v10() + nonce@.take(i + 1));
        i = i + 1;
    }
    assert(nonce@.take(12) =~= nonce@);
    let mut j: usize = 0;
    while j < ct.len()
        invariant
            j <= ct@.len(),
            out@ == v10() + nonce@ + ct@.take(j as int),
        decreases ct.len() - j,
    {
        out.push(ct[j]);
        assert(out@ =~= v10() + nonce@ + ct@.take(j + 1));
        j = j + 1;
    }
    assert(ct@.take(ct@.len() as int) =~= ct@);
    proof {
        assert(out@.subrange(3, 15) =~= nonce@);
        assert(out@.skip(15) =~= ct@);
    }
    Some(out)
}

} // verus!

verus! {

/// The id of a written session record: five random numbers in hexadecimal,
/// joined by `-`.
pub fn session_record_id(parts: [u32; 5]) -> (r: String)
    ensures
        r@ == crate::auth::radix_digits(parts[0] as nat, 16) + "-"@ + crate::auth::radix_digits(parts[1] as nat, 16) + "-"@
            + crate::auth::radix_digits(parts[2] as nat, 16) + "-"@ + crate::auth::radix_digits(parts[3] as nat, 16) + "-"@
            + crate::auth::radix_digits(parts[4] as nat, 16),
{
    let mut s = crate::auth::lower_hex(parts[0] as u128);
    let mut i: usize = 1;
    while i < 5
        invariant
            1 <= i <= 5,
            s@ == session_id_prefix(parts@, i as int),
        decreases 5 - i,
    {
        s.append("-");
        let h = crate::auth::lower_hex(parts[i] as u128);
        s.append(h.as_str());
        i = i + 1;
    }
    proof {
        reveal_with_fuel(session_id_prefix, 5);
        assert(parts@[0] == parts[0] && parts@[1] == parts[1] && parts@[2] == parts[2] && parts@[3] == parts[3]
            && parts@[4] == parts[4]);
    }
    s
}

/// The first `i` parts in hexadecimal, joined by `-`.
pub open spec fn session_id_prefix(parts: Seq<u32>, i: int) -> Seq<char>
    decreases i,
{
    if i <= 1 {
        crate::auth::radix_digits(parts[0] as nat, 16)
    } else {
        session_id_prefix(parts, i - 1) + "-"@ + crate::auth::radix_digits(parts[i - 1] as nat, 16)
    }
}

} // verus!

verus! {

/// The stored secret's bytes in the `data` array of its row: every element
/// that is an unsigned integer, cut to its low byte.
pub open spec fn blob_of(items: Seq<Option<u64>>) -> Seq<u8>
    decreases items.len(),
{
    if items.len() == 0 {
        Seq::empty()
    } else {
        let rest = blob_of(items.drop_last());
        match items.last() {
            Some(x) => rest.push(x as u8),
            None => rest,
        }
    }
}

/// The secret's bytes from the items of its `data` array (see [`blob_of`]).
pub fn blob_of_items(items: &Vec<Option<u64>>) -> (r: Vec<u8>)
    ensures
        r@ == blob_of(items@),
{
    let mut out: Vec<u8> = Vec::new();
    let mut i: usize = 0;
    while i < items.len()
        invariant
            i <= items@.len(),
            out@ == blob_of(items@.take(i as int)),
        decreases items.len() - i,
    {
        proof {
            assert(items@.take(i + 1).drop_last() =~= items@.take(i as int));
        }
        match items[i] {
            Some(x) => out.push(x as u8),
            None => {},
        }
        i = i + 1;
    }
    assert(items@.take(items@.len() as int) =~= items@);
    out
}

proof fn lemma_blob_of_bytes(b: Seq<u8>)
    ensures
        blob_of(b.map_values(|x: u8| Some(x as u64))) == b,
    decreases b.len(),
{
    if b.len() > 0 {
        lemma_blob_of_bytes(b.drop_last());
        assert(b.map_values(|x: u8| Some(x as u64)).drop_last() =~= b.drop_last().map_values(|x: u8| Some(x as u64)));
        let l = b.last();
        assert(((l as u64) as u8) == l) by (bit_vector);
        assert(b.drop_last().push(l) =~= b);
    }
}

/// What reading Devin Desktop's stored sign-in finds.
pub enum DesktopRead {
    /// The access token of the first stored session.
    Token(String),
    /// The row is not JSON with a `data` array, the secret does not open, or
    /// the opened sessions hold no access token.
    Missing,
    /// The master key is not 32 bytes long, where the cipher cannot take it.
    BadKey,
    /// The secret is shorter than its 15-byte header, where cutting the nonce is out of range.
    ShortSecret,
}

pub enum DesktopReadView {
    Token(Seq<char>),
    Missing,
    BadKey,
    ShortSecret,
}

impl View for DesktopRead {
    type V = DesktopReadView;

    open spec fn view(&self) -> DesktopReadView {
        match self {
            DesktopRead::Token(t) => DesktopReadView::Token(t@),
            DesktopRead::Missing => DesktopReadView::Missing,
            DesktopRead::BadKey => DesktopReadView::BadKey,
            DesktopRead::ShortSecret => DesktopReadView::ShortSecret,
        }
    }
}

/// The stored sign-in in the row text `row` under the master key `master`:
/// the secret from the row's `data` array, opened, then the first session's
/// `accessToken`.
pub open spec fn desktop_read(master: Seq<u8>, row: Seq<char>) -> DesktopReadView {
    match json_data_items(row) {
        None => DesktopReadView::Missing,
        Some(items) => {
            let blob = blob_of(items);
            if master.len() != 32 {
                DesktopReadView::BadKey
            } else if blob.len() < 15 {
                DesktopReadView::ShortSecret
            } else {
                match opened_blob(master, blob) {
                    None => DesktopReadView::Missing,
                    Some(p) => match json_access_token(p) {
                        Some(t) => DesktopReadView::Token(t),
                        None => DesktopReadView::Missing,
                    },
                }
            }
        },
    }
}

/// Reads the access token from the text of the stored sign-in's row (see [`desktop_read`]).
pub fn read_desktop_token(master: &[u8], row: &str) -> (r: DesktopRead)
    ensures
        r@ == desktop_read(master@, row@),
{
    let items = match data_items(row) {
        Some(v) => v,
        None => return DesktopRead::Missing,
    };
    let blob = blob_of_items(&items);
    if master.len() != 32 {
        return DesktopRead::BadKey;
    }
    if blob.len() < 15 {
        return DesktopRead::ShortSecret;
    }
    match open_session_blob(master, blob.as_slice()) {
        None => DesktopRead::Missing,
        Some(p) => match access_token_in(p.as_slice()) {
            Some(t) => DesktopRead::Token(t),
            None => DesktopRead::Missing,
        },
    }
}

/// The row text that makes Devin Desktop signed in with `token`: the session
/// array (`id`, `accessToken`, `account` with `label` and `id`, no scopes) as
/// JSON, sealed under the 32-byte master key and `nonce`, as the `data` array.
/// Reading it back under the same key gives the token.
pub fn desktop_row(master: &[u8], nonce: &[u8; 12], id: &str, token: &str, label: &str, user_id: &str) -> (r: Option<String>)
    requires
        master@.len() == 32,
    ensures
        r is Some <==> encode_utf8(session_json(id@, token@, label@, user_id@)).len() <= 0x10_0000_0000,
        r matches Some(row) ==> row@ == data_row_json(
            sealed_blob(master@, nonce@, encode_utf8(session_json(id@, token@, label@, user_id@))),
        ),
        r matches Some(row) ==> desktop_read(master@, row@) == DesktopReadView::Token(token@),
{
    let text = session_json_text(id, token, label, user_id);
    let blob = match seal_session_blob(master, nonce, text.as_str().as_bytes()) {
        Some(b) => b,
        None => return None,
    };
    let row = data_row(blob.as_slice());
    proof {
        lemma_blob_of_bytes(blob@);
    }
    Some(row)
}

} // verus!
