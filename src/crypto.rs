//! The cryptographic primitives of encrypted images: AES-128 in XTS mode
//! over 4 KiB sectors, and the HMAC-SHA256 derivation of its keys.

use vstd::prelude::*;

use aes::cipher::KeyInit;
use aes::Aes128;
use hmac::{Hmac, Mac};
use sha2::Sha256;
use xts_mode::{get_tweak_default, Xts128};
use cbc::cipher::block_padding::NoPadding;
use cbc::cipher::{BlockDecryptMut, KeyIvInit};
use sha2::Digest;

verus! {

/// What XTS-AES-128 decryption of `sector` with index `index` yields
/// under `data_key` and `tweak_key`.
pub uninterp spec fn xts_decrypted(data_key: Seq<u8>, tweak_key: Seq<u8>, index: nat, sector: Seq<u8>) -> Seq<u8>;

/// What XTS-AES-128 encryption of `sector` with index `index` yields
/// under `data_key` and `tweak_key`.
pub uninterp spec fn xts_encrypted(data_key: Seq<u8>, tweak_key: Seq<u8>, index: nat, sector: Seq<u8>) -> Seq<u8>;

/// What HMAC-SHA256 of `msg` under `key` yields.
pub uninterp spec fn hmac_sha256(key: Seq<u8>, msg: Seq<u8>) -> Seq<u8>;

/// Relies on `xts_mode::Xts128::<Aes128>::decrypt_sector`, with the cipher
/// built from the two keys and the tweak `get_tweak_default(index)`: it
/// decrypts in place, so the length stays, and the result depends on the
/// keys, the index and the bytes alone. It panics on fewer than 16 bytes.
#[verifier::external_body]
pub(crate) fn xts_decrypt_sector(data_key: &[u8; 16], tweak_key: &[u8; 16], index: u64, sector: &mut [u8])
    requires
        old(sector)@.len() >= 16,
    ensures
        final(sector)@ == xts_decrypted(data_key@, tweak_key@, index as nat, old(sector)@),
        final(sector)@.len() == old(sector)@.len(),
{
    let cipher = Xts128::<Aes128>::new(Aes128::new(data_key.into()), Aes128::new(tweak_key.into()));
    cipher.decrypt_sector(sector, get_tweak_default(index as u128));
}

/// Relies on `xts_mode::Xts128::<Aes128>::encrypt_sector`, with the cipher
/// built from the two keys and the tweak `get_tweak_default(index)`: it
/// encrypts in place, so the length stays, and the result depends on the
/// keys, the index and the bytes alone. It panics on fewer than 16 bytes.
#[verifier::external_body]
pub(crate) fn xts_encrypt_sector(data_key: &[u8; 16], tweak_key: &[u8; 16], index: u64, sector: &mut [u8])
    requires
        old(sector)@.len() >= 16,
    ensures
        final(sector)@ == xts_encrypted(data_key@, tweak_key@, index as nat, old(sector)@),
        final(sector)@.len() == old(sector)@.len(),
{
    let cipher = Xts128::<Aes128>::new(Aes128::new(data_key.into()), Aes128::new(tweak_key.into()));
    cipher.encrypt_sector(sector, get_tweak_default(index as u128));
}

/// Relies on `hmac::Hmac::<sha2::Sha256>`: a key of any length is
/// accepted, and the 32-byte tag depends on the key and the message alone.
#[verifier::external_body]
pub(crate) fn hmac_sha256_of(key: &[u8], msg: &[u8]) -> (r: [u8; 32])
    ensures
        r@ == hmac_sha256(key@, msg@),
{
    let mut mac = <Hmac<Sha256> as Mac>::new_from_slice(key).unwrap();
    mac.update(msg);
    mac.finalize().into_bytes().into()
}

/// What SHA-256 of `data` yields.
pub uninterp spec fn sha256(data: Seq<u8>) -> Seq<u8>;

/// What AES-128-CBC decryption of `data` under `key` and `iv` yields.
pub uninterp spec fn cbc_decrypted(key: Seq<u8>, iv: Seq<u8>, data: Seq<u8>) -> Seq<u8>;

/// Relies on `sha2::Sha256::digest`: the 32-byte digest depends on the
/// data alone.
#[verifier::external_body]
pub(crate) fn sha256_of(data: &[u8]) -> (r: [u8; 32])
    ensures
        r@ == sha256(data@),
{
    Sha256::digest(data).into()
}

/// Relies on `cbc::Decryptor::<Aes128>::decrypt_padded_vec_mut` with
/// `NoPadding`: it fails only on data that is not whole 16-byte blocks,
/// and otherwise gives as many bytes as it was given, which depend on the
/// key, the IV and the data alone.
#[verifier::external_body]
pub(crate) fn aes128_cbc_decrypt(key: &[u8; 16], iv: &[u8; 16], data: &[u8]) -> (r: Option<Vec<u8>>)
    ensures
        r is Some <==> data@.len() % 16 == 0,
        r matches Some(v) ==> v@ == cbc_decrypted(key@, iv@, data@) && v@.len() == data@.len(),
{
    cbc::Decryptor::<Aes128>::new(key.into(), iv.into()).decrypt_padded_vec_mut::<NoPadding>(data).ok()
}

/// The message that the keys are derived from: `01 00 00 00` and the seed.
pub open spec fn key_message(seed: Seq<u8>) -> Seq<u8> {
    seq![1u8, 0u8, 0u8, 0u8] + seed
}

/// Derives the XTS data key and tweak key from EKPFS and the key seed of
/// the superblock: the HMAC-SHA256 of `01 00 00 00 || seed` under EKPFS
/// gives the tweak key in its first half and the data key in its second.
pub fn get_xts_keys(ekpfs: &[u8], seed: &[u8; 16]) -> (r: ([u8; 16], [u8; 16]))
    ensures
        r.0@ == hmac_sha256(ekpfs@, key_message(seed@)).subrange(16, 32),
        r.1@ == hmac_sha256(ekpfs@, key_message(seed@)).subrange(0, 16),
{
    let mut msg: Vec<u8> = Vec::new();
    msg.push(1u8);
    msg.push(0u8);
    msg.push(0u8);
    msg.push(0u8);
    let mut i: usize = 0;
    while i < 16
        invariant
            i <= 16,
            msg@ == key_message(seed@).take(4 + i),
        decreases 16 - i,
    {
        msg.push(seed[i]);
        i = i + 1;
        assert(msg@ =~= key_message(seed@).take(4 + i));
    }
    assert(msg@ =~= key_message(seed@));
    let secret = hmac_sha256_of(ekpfs, msg.as_slice());
    let mut data_key = [0u8; 16];
    let mut tweak_key = [0u8; 16];
    let mut i: usize = 0;
    while i < 16
        invariant
            i <= 16,
            secret@.len() == 32,
            forall|j: int| 0 <= j < i ==> tweak_key@[j] == secret@[j],
            forall|j: int| 0 <= j < i ==> data_key@[j] == secret@[16 + j],
        decreases 16 - i,
    {
        tweak_key[i] = secret[i];
        data_key[i] = secret[16 + i];
        i = i + 1;
    }
    assert(data_key@ =~= secret@.subrange(16, 32));
    assert(tweak_key@ =~= secret@.subrange(0, 16));
    (data_key, tweak_key)
}

} // verus!
