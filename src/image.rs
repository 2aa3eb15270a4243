//! The positional-read interface shared by every layer of an image stack,
//! and its leaf layers over borrowed bytes: plaintext, and XTS-encrypted.

use vstd::prelude::*;

use crate::bytes::copy_bytes;
use crate::crypto::{xts_decrypt_sector, xts_decrypted, xts_encrypt_sector, xts_encrypted};

pub use crate::overlay::{CowImage, HasOverlay};

verus! {

/// An error from a layer of an image stack.
#[derive(Debug, Clone, Copy, PartialEq, Eq)]
pub enum ImageError {
    /// The source ended before the requested bytes were read.
    UnexpectedEof,
    /// The arguments describe a range that cannot exist.
    InvalidInput,
    /// A logical block has no entry in the block map.
    BlockUnavailable { block: u64 },
    /// A compressed block could not be decoded.
    InvalidCompressedBlock { block: u64 },
    /// The underlying source failed.
    Other,
}

/// What a successful `read_at(offset, buf)` of `cap` bytes over `content`
/// that returned `n` and left `out` in the buffer means: `n` bytes were
/// copied from `offset`, none past the end, and at least one whenever one
/// was asked for and was there.
pub open spec fn read_ok(content: Seq<u8>, offset: int, cap: int, n: int, out: Seq<u8>) -> bool {
    &&& 0 <= n <= cap
    &&& (n == 0 <==> (cap == 0 || offset >= content.len()))
    &&& n > 0 ==> offset + n <= content.len() && out.subrange(0, n) == content.subrange(
        offset,
        offset + n,
    )
}

/// A source of bytes read at explicit offsets.
///
/// Reads take `&self` and keep no cursor, so one source can serve any
/// number of readers.
pub trait Image {
    /// The bytes that the image holds.
    spec fn content(&self) -> Seq<u8>;

    /// Whether reads of this image never fail: an image that says so
    /// answers every `read_at` with `Ok`.
    spec fn never_fails(&self) -> bool;

    /// Copies up to `output_buf.len()` bytes starting at `offset` into
    /// `output_buf` and returns how many were copied; `0` means the end.
    fn read_at(&self, offset: u64, output_buf: &mut [u8]) -> (r: Result<usize, ImageError>)
        ensures
            final(output_buf)@.len() == old(output_buf)@.len(),
            r matches Ok(n) ==> read_ok(
                self.content(),
                offset as int,
                old(output_buf)@.len() as int,
                n as int,
                final(output_buf)@,
            ),
            self.never_fails() ==> r is Ok,
    ;

    /// The length of the image in bytes.
    fn len(&self) -> (r: u64)
        ensures
            r == self.content().len(),
    ;

    /// Whether the image holds no bytes.
    fn is_empty(&self) -> (r: bool)
        ensures
            r == (self.content().len() == 0),
    {
        self.len() == 0
    }

    /// Fills `output_buf` with the bytes at `offset`, failing with
    /// [`ImageError::UnexpectedEof`] where the image ends first.
    fn read_exact_at(&self, offset: u64, output_buf: &mut [u8]) -> (r: Result<(), ImageError>)
        ensures
            final(output_buf)@.len() == old(output_buf)@.len(),
            r is Ok && old(output_buf)@.len() > 0 ==> offset + old(output_buf)@.len()
                <= self.content().len() && final(output_buf)@ == self.content().subrange(
                offset as int,
                offset + old(output_buf)@.len(),
            ),
            old(output_buf)@.len() > 0 && offset + old(output_buf)@.len() > self.content().len()
                ==> r is Err,
            old(output_buf)@.len() == 0 ==> r is Ok,
            self.never_fails() ==> (r is Ok <==> (old(output_buf)@.len() == 0 || offset
                + old(output_buf)@.len() <= self.content().len())),
            self.never_fails() && r is Err ==> r == Err::<(), ImageError>(ImageError::UnexpectedEof),
    {
        let _ = self.len();
        let len = output_buf.len();
        let mut total: usize = 0;
        while total < len
            invariant
                total <= len,
                output_buf@.len() == len,
                len == old(output_buf)@.len(),
                self.content().len() <= u64::MAX,
                total > 0 ==> offset + total <= self.content().len()
                    && output_buf@.subrange(0, total as int) == self.content().subrange(
                    offset as int,
                    offset + total,
                ),
            decreases len - total,
        {
            if offset as u128 + total as u128 > u64::MAX as u128 {
                return Err(ImageError::UnexpectedEof);
            }
            let ghost before = output_buf@;
            let (done, rest) = output_buf.split_at_mut(total);
            let n = self.read_at(offset + total as u64, rest)?;
            proof {
                assert(output_buf@ == done@ + rest@);
            }
            if n == 0 {
                return Err(ImageError::UnexpectedEof);
            }
            assert(output_buf@.subrange(0, total + n) =~= self.content().subrange(
                offset as int,
                offset + total + n,
            )) by {
                assert(output_buf@.subrange(0, total as int) =~= before.subrange(0, total as int));
                assert forall|i: int| total <= i < total + n implies output_buf@[i]
                    == self.content()[offset + i] by {
                    assert(rest@.subrange(0, n as int)[i - total] == rest@[i - total]);
                }
            }
            total = total + n;
        }
        assert(output_buf@ =~= output_buf@.subrange(0, len as int));
        Ok(())
    }
}

/// A plaintext image over borrowed bytes.
pub struct UnencryptedSlice<'a> {
    data: &'a [u8],
}

impl<'a> UnencryptedSlice<'a> {
    /// An image that holds `data`.
    pub fn new(data: &'a [u8]) -> (r: Self)
        ensures
            r.content() == data@,
    {
        Self { data }
    }

    /// The bytes of the image.
    pub closed spec fn spec_data(&self) -> Seq<u8> {
        self.data@
    }
}

impl<'a> Image for UnencryptedSlice<'a> {
    open spec fn content(&self) -> Seq<u8> {
        self.spec_data()
    }

    open spec fn never_fails(&self) -> bool {
        true
    }

    fn read_at(&self, offset: u64, output_buf: &mut [u8]) -> (r: Result<usize, ImageError>)
        ensures
            r is Ok,
            r matches Ok(n) ==> final(output_buf)@.subrange(n as int, old(output_buf)@.len() as int)
                == old(output_buf)@.subrange(n as int, old(output_buf)@.len() as int),
            r matches Ok(n) ==> offset < self.content().len() ==> n == if old(output_buf)@.len()
                < self.content().len() - offset {
                old(output_buf)@.len() as int
            } else {
                self.content().len() - offset
            },
    {
        let len = self.data.len();
        if offset >= len as u64 {
            return Ok(0);
        }
        let start = offset as usize;
        let available = len - start;
        let n = if output_buf.len() < available {
            output_buf.len()
        } else {
            available
        };
        let ghost orig = output_buf@;
        copy_bytes(output_buf, 0, self.data, start, n);
        proof {
            assert(output_buf@.subrange(n as int, orig.len() as int) =~= orig.subrange(n as int, orig.len() as int));
            assert(output_buf@.subrange(0, n as int) =~= self.data@.subrange(
                start as int,
                start + n,
            ));
        }
        Ok(n)
    }

    fn len(&self) -> (r: u64) {
        self.data.len() as u64
    }
}

/// The size of an XTS encryption sector.
pub const XTS_BLOCK_SIZE: usize = 0x1000;

/// An image over borrowed bytes of which the sectors from
/// `encrypted_start` on are XTS-AES-128 encrypted.
pub struct EncryptedSlice<'a> {
    data: &'a [u8],
    data_key: [u8; 16],
    tweak_key: [u8; 16],
    encrypted_start: usize,
}

/// The bytes of a length `len` that lie in whole sectors.
pub open spec fn whole_sectors(len: int) -> int {
    (len / 0x1000) * 0x1000
}

/// A position before the whole sectors lies in a whole sector; one past
/// them lies in the partial last sector.
pub proof fn lemma_sector_bounds(pos: int, len: int)
    requires
        0 <= pos < len,
    ensures
        pos < whole_sectors(len) ==> (pos / 0x1000) * 0x1000 + 0x1000 <= whole_sectors(len),
        pos >= whole_sectors(len) ==> (pos / 0x1000) * 0x1000 == whole_sectors(len) && len
            - whole_sectors(len) < 0x1000,
        whole_sectors(len) <= len,
{
    let q = len / 0x1000;
    vstd::arithmetic::div_mod::lemma_fundamental_div_mod(len, 0x1000);
    vstd::arithmetic::div_mod::lemma_mod_pos_bound(len, 0x1000);
    vstd::arithmetic::div_mod::lemma_fundamental_div_mod(pos, 0x1000);
    vstd::arithmetic::div_mod::lemma_mod_pos_bound(pos, 0x1000);
    if pos >= whole_sectors(len) {
        crate::bytes::lemma_div_mod_parts(pos, 0x1000, q, pos - q * 0x1000);
    }
}

/// Sector `s` of `data` as stored.
pub open spec fn stored_sector(data: Seq<u8>, s: int) -> Seq<u8> {
    data.subrange(s * 0x1000, s * 0x1000 + 0x1000)
}

impl<'a> EncryptedSlice<'a> {
    /// An image over `data` whose sectors from `encrypted_start` on are
    /// encrypted with `data_key` and `tweak_key`.
    pub fn new(data: &'a [u8], data_key: [u8; 16], tweak_key: [u8; 16], encrypted_start: usize) -> (r: Self)
        ensures
            r.spec_data() == data@,
            r.spec_data_key() == data_key@,
            r.spec_tweak_key() == tweak_key@,
            r.spec_encrypted_start() == encrypted_start,
    {
        Self { data, data_key, tweak_key, encrypted_start }
    }

    pub closed spec fn spec_data(&self) -> Seq<u8> {
        self.data@
    }

    pub closed spec fn spec_data_key(&self) -> Seq<u8> {
        self.data_key@
    }

    pub closed spec fn spec_tweak_key(&self) -> Seq<u8> {
        self.tweak_key@
    }

    pub closed spec fn spec_encrypted_start(&self) -> usize {
        self.encrypted_start
    }

    /// Sector `s` in plaintext.
    pub open spec fn plain_sector(&self, s: int) -> Seq<u8> {
        if s >= self.spec_encrypted_start() {
            xts_decrypted(
                self.spec_data_key(),
                self.spec_tweak_key(),
                s as nat,
                stored_sector(self.spec_data(), s),
            )
        } else {
            stored_sector(self.spec_data(), s)
        }
    }

    /// The data key and the tweak key.
    pub fn keys(&self) -> (r: ([u8; 16], [u8; 16]))
        ensures
            r.0@ == self.spec_data_key(),
            r.1@ == self.spec_tweak_key(),
    {
        (self.data_key, self.tweak_key)
    }

    /// The index of the first encrypted sector; the ones before it (the
    /// superblock) are plaintext.
    pub fn encrypted_start(&self) -> (r: usize)
        ensures
            r == self.spec_encrypted_start(),
    {
        self.encrypted_start
    }

    /// Encrypts one sector in place; a sector before the encrypted region
    /// is left as it is.
    pub fn encrypt_sector(&self, sector_index: usize, sector_data: &mut [u8])
        requires
            old(sector_data)@.len() == 0x1000,
        ensures
            final(sector_data)@ == if sector_index >= self.spec_encrypted_start() {
                xts_encrypted(
                    self.spec_data_key(),
                    self.spec_tweak_key(),
                    sector_index as nat,
                    old(sector_data)@,
                )
            } else {
                old(sector_data)@
            },
            final(sector_data)@.len() == 0x1000,
    {
        if sector_index >= self.encrypted_start {
            xts_encrypt_sector(&self.data_key, &self.tweak_key, sector_index as u64, sector_data);
        }
    }

    /// Decrypts one sector in place; a sector before the encrypted region
    /// is left as it is.
    pub fn decrypt_sector(&self, sector_index: usize, sector_data: &mut [u8])
        requires
            old(sector_data)@.len() == 0x1000,
        ensures
            final(sector_data)@ == if sector_index >= self.spec_encrypted_start() {
                xts_decrypted(
                    self.spec_data_key(),
                    self.spec_tweak_key(),
                    sector_index as nat,
                    old(sector_data)@,
                )
            } else {
                old(sector_data)@
            },
            final(sector_data)@.len() == 0x1000,
    {
        if sector_index >= self.encrypted_start {
            xts_decrypt_sector(&self.data_key, &self.tweak_key, sector_index as u64, sector_data);
        }
    }
}

impl<'a> Image for EncryptedSlice<'a> {
    /// Reads never fail.
    open spec fn never_fails(&self) -> bool {
        true
    }

    /// The plaintext: each byte of a whole sector as decryption gives it.
    /// A partial last sector cannot be decrypted (XTS works on whole
    /// sectors): its bytes read as stored, and a read that reaches it from
    /// a whole sector stops short of it.

    open spec fn content(&self) -> Seq<u8> {
        Seq::new(
            self.spec_data().len(),
            |x: int|
                if (x / 0x1000) * 0x1000 + 0x1000 <= self.spec_data().len() {
                    self.plain_sector(x / 0x1000)[x % 0x1000]
                } else {
                    self.spec_data()[x]
                },
        )
    }

    fn read_at(&self, offset: u64, output_buf: &mut [u8]) -> (r: Result<usize, ImageError>)
        ensures
            old(output_buf)@.len() == 0 || offset >= self.spec_data().len() ==> r == Ok::<usize, ImageError>(0),
            r is Ok,
            r matches Ok(n) ==> whole_sectors(self.spec_data().len() as int) <= offset < self.spec_data().len()
                ==> n == if old(output_buf)@.len() < self.spec_data().len() - offset {
                old(output_buf)@.len() as int
            } else {
                self.spec_data().len() - offset
            },
            r matches Ok(n) ==> offset < whole_sectors(self.spec_data().len() as int) ==> n == if old(output_buf)@.len()
                < whole_sectors(self.spec_data().len() as int) - offset {
                old(output_buf)@.len() as int
            } else {
                whole_sectors(self.spec_data().len() as int) - offset
            },
    {
        let len = self.data.len() as u64;
        if output_buf.len() == 0 || offset >= len {
            return Ok(0);
        }
        let cap = output_buf.len();
        let mut copied: usize = 0;
        let mut pos: u64 = offset;
        let mut scratch: Vec<u8> = crate::bytes::zeroed(XTS_BLOCK_SIZE);
        while copied < cap && pos < len
            invariant
                len == self.spec_data().len(),
                cap == output_buf@.len(),
                cap == old(output_buf)@.len(),
                copied <= cap,
                pos == offset + copied,
                pos <= len,
                scratch@.len() == 0x1000,
                self.spec_data().len() <= usize::MAX,
                output_buf@.subrange(0, copied as int) == self.content().subrange(offset as int, pos as int),
                offset < whole_sectors(len as int) ==> pos <= whole_sectors(len as int),
                offset >= whole_sectors(len as int) ==> copied == 0,
            decreases cap - copied,
        {
            let sector64 = pos / XTS_BLOCK_SIZE as u64;
            let offset_in_block = (pos % XTS_BLOCK_SIZE as u64) as usize;
            proof {
                vstd::arithmetic::div_mod::lemma_fundamental_div_mod(pos as int, 0x1000);
                vstd::arithmetic::div_mod::lemma_mod_pos_bound(pos as int, 0x1000);
                lemma_sector_bounds(pos as int, len as int);
            }
            let start64 = sector64 * XTS_BLOCK_SIZE as u64;
            if len - start64 < XTS_BLOCK_SIZE as u64 {
                // A partial last sector: stop short of it.
                if copied > 0 {
                    return Ok(copied);
                }
                let mut n: usize = (len - pos) as usize;
                if cap < n {
                    n = cap;
                }
                copy_bytes(output_buf, 0, self.data, pos as usize, n);
                assert(output_buf@.subrange(0, n as int) =~= self.content().subrange(
                    offset as int,
                    offset + n,
                )) by {
                    assert forall|j: int| 0 <= j < n implies output_buf@[j] == self.content()[offset + j] by {
                        lemma_sector_bounds(offset + j, len as int);
                    }
                }
                return Ok(n);
            }
            let sector = sector64 as usize;
            let block_start = start64 as usize;
            copy_bytes(scratch.as_mut_slice(), 0, self.data, block_start, XTS_BLOCK_SIZE);
            assert(scratch@ =~= stored_sector(self.spec_data(), sector as int));
            self.decrypt_sector(sector, scratch.as_mut_slice());
            let available = XTS_BLOCK_SIZE - offset_in_block;
            let remaining = len - pos;
            let mut n = available;
            if remaining < n as u64 {
                n = remaining as usize;
            }
            if cap - copied < n {
                n = cap - copied;
            }
            let ghost before = output_buf@;
            copy_bytes(output_buf, copied, scratch.as_slice(), offset_in_block, n);
            assert(output_buf@.subrange(0, copied + n) =~= self.content().subrange(
                offset as int,
                pos + n,
            )) by {
                assert forall|j: int| copied <= j < copied + n implies output_buf@[j] == self.content()[offset + j] by {
                    let x = offset + j;
                    crate::bytes::lemma_div_mod_parts(x, 0x1000, sector as int, offset_in_block + (j - copied));
                }
                assert(output_buf@.subrange(0, copied as int) =~= before.subrange(0, copied as int));
            }
            copied = copied + n;
            pos = pos + n as u64;
        }
        Ok(copied)
    }

    fn len(&self) -> (r: u64) {
        self.data.len() as u64
    }
}

/// An image stack that holds an encryption layer, and exposes its keys.
pub trait HasEncryption: Image {
    /// The XTS data key and tweak key.
    fn xts_keys(&self) -> ([u8; 16], [u8; 16]);

    /// The index of the first encrypted sector.
    fn xts_encrypted_start(&self) -> usize;
}

impl<'a> HasEncryption for EncryptedSlice<'a> {
    fn xts_keys(&self) -> ([u8; 16], [u8; 16]) {
        self.keys()
    }

    fn xts_encrypted_start(&self) -> usize {
        self.encrypted_start
    }
}

/// A plaintext or an encrypted image over borrowed bytes, chosen when a
/// slice is opened.
pub enum SliceImage<'a> {
    Plain(UnencryptedSlice<'a>),
    Encrypted(EncryptedSlice<'a>),
}

impl<'a> Image for SliceImage<'a> {
    open spec fn content(&self) -> Seq<u8> {
        match self {
            SliceImage::Plain(p) => p.content(),
            SliceImage::Encrypted(e) => e.content(),
        }
    }

    open spec fn never_fails(&self) -> bool {
        match self {
            SliceImage::Plain(p) => p.never_fails(),
            SliceImage::Encrypted(e) => e.never_fails(),
        }
    }

    fn read_at(&self, offset: u64, output_buf: &mut [u8]) -> (r: Result<usize, ImageError>) {
        match self {
            SliceImage::Plain(p) => p.read_at(offset, output_buf),
            SliceImage::Encrypted(e) => e.read_at(offset, output_buf),
        }
    }

    fn len(&self) -> (r: u64) {
        match self {
            SliceImage::Plain(p) => p.len(),
            SliceImage::Encrypted(e) => e.len(),
        }
    }
}

} // verus!
