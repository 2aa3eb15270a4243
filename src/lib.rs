//! Reading PlayStation 4 PFS images: a stack of positional byte sources
//! (plaintext, XTS-encrypted, PFSC-compressed, copy-on-write overlay and
//! "file viewed as an image") under one interface, and the PFS metadata
//! layer on top of it (superblock, inodes, block maps, directories).

pub mod bytes;
pub mod crypto;
pub mod directory;
pub mod file;
pub mod header;
pub mod image;
pub mod inode;
pub mod name_order;
pub mod overlay;
pub mod pfsc;
pub mod pkg;
pub mod progress;

use vstd::prelude::*;

use crate::bytes::zeroed;
use crate::crypto::{get_xts_keys, hmac_sha256, key_message};
use crate::header::{header_error, parsed_header, Mode, PfsHeader, ReadError};
use crate::image::{EncryptedSlice, Image, ImageError, SliceImage, UnencryptedSlice};
use crate::inode::{FromRawError, Inode, LoadBlocksError};
use std::sync::Arc;

verus! {

/// Errors shared by the ways of opening a PFS: validating the superblock,
/// reading the inodes and loading their block maps.
#[derive(Debug, Clone, Copy, PartialEq, Eq)]
pub enum OpenError {
    InvalidBlockSize,
    ParseInodeFailed { source: FromRawError },
    ReadBlockFailed { block: u32, source: ImageError },
    InvalidSuperRoot,
    LoadBlockMapFailed { inode: usize, source: LoadBlocksError },
}

/// Errors of [`open_slice`] and its two static forms.
#[derive(Debug, Clone, Copy, PartialEq, Eq)]
pub enum OpenSliceError {
    ReadHeaderFailed { source: ReadError },
    EncryptionBlockSizeTooSmall,
    EmptyEkpfs,
    Open { source: OpenError },
}

/// Errors of [`open_image`].
#[derive(Debug, Clone, Copy, PartialEq, Eq)]
pub enum OpenImageError {
    ReadHeaderIoFailed { source: ImageError },
    ReadHeaderFailed { source: ReadError },
    UnsupportedMode { mode: Mode },
    Open { source: OpenError },
}

/// The superblock that the bytes `b` describe, where they describe one.
pub open spec fn header_of(b: Seq<u8>, h: PfsHeader) -> bool {
    header_error(b) is None && parsed_header(b, h)
}

/// Whether `e` is the encrypted image over `data` whose keys derive from
/// `ekpfs` and the key seed of `h`, encrypted from the first sector past
/// the first block.
pub open spec fn encrypted_view(e: EncryptedSlice, data: Seq<u8>, ekpfs: Seq<u8>, h: PfsHeader) -> bool {
    &&& e.spec_data() == data
    &&& e.spec_data_key() == hmac_sha256(ekpfs, key_message(h.key_seed@)).subrange(16, 32)
    &&& e.spec_tweak_key() == hmac_sha256(ekpfs, key_message(h.key_seed@)).subrange(0, 16)
    &&& e.spec_encrypted_start() == h.block_size / 0x1000
}

/// Whether `n` is a power of two.
pub open spec fn is_power_of_two(n: u32) -> bool {
    n > 0 && n & ((n - 1) as u32) == 0
}

/// The size of one inode record in the given layout.
pub open spec fn inode_record_size(signed: bool) -> int {
    if signed {
        712
    } else {
        168
    }
}

/// Whether the superblock and the inode blocks that `h` declares lie
/// within an image of `len` bytes.
pub open spec fn table_in_image(h: PfsHeader, len: int) -> bool {
    (1 + h.inode_block_count) * h.block_size <= len
}

/// How many inodes a superblock leads the loader to read: `inode_count`,
/// unless the inode blocks hold fewer records.
pub open spec fn inodes_read(h: PfsHeader) -> int {
    let n = h.inode_block_count * inodes_per_block(h.block_size, h.mode.flags & 1 != 0);
    if h.inode_count < n {
        h.inode_count as int
    } else {
        n
    }
}

/// The number of inode records that one block of the inode table holds.
pub open spec fn inodes_per_block(block_size: u32, signed: bool) -> int {
    block_size as int / inode_record_size(signed)
}

/// Whether `inode` is inode `i` of the inode table that starts at block 1
/// of `content`: record `i % n` of block `1 + i / n`, for `n` records per
/// block.
pub open spec fn inode_from_table(inode: Inode, i: int, content: Seq<u8>, block_size: u32, signed: bool) -> bool {
    let n = inodes_per_block(block_size, signed);
    &&& n > 0
    &&& 1 + i / n <= u32::MAX
    &&& inode.parsed_from(
        i as usize,
        inode::block_bytes(content, (1 + i / n) as u32, block_size),
        (i % n) * inode_record_size(signed),
        signed,
    )
}

/// A loaded PFS: its image, its inodes and their block maps.
pub struct Pfs<'a, I: Image> {
    image: I,
    inodes: Vec<Inode>,
    block_maps: Vec<Vec<u32>>,
    root: usize,
    block_size: u32,
    data: Option<&'a [u8]>,
}

impl<'a, I: Image> Pfs<'a, I> {
    #[verifier::type_invariant]
    spec fn inv(self) -> bool {
        &&& self.inodes@.len() == self.block_maps@.len()
        &&& self.root < self.inodes@.len()
        &&& self.block_size > 0
        &&& forall|i: int|
            0 <= i < self.inodes@.len() ==> (#[trigger] self.block_maps@[i])@.len()
                == self.inodes@[i].spec_blocks()
    }

    /// The image that holds the file system.
    pub closed spec fn spec_image(&self) -> I {
        self.image
    }

    /// The inodes, by index.
    pub closed spec fn spec_inodes(&self) -> Seq<Inode> {
        self.inodes@
    }

    /// The block map of each inode, by index.
    pub closed spec fn spec_block_maps(&self) -> Seq<Seq<u32>> {
        self.block_maps@.map_values(|m: Vec<u32>| m@)
    }

    /// The index of the super-root inode.
    pub closed spec fn spec_root(&self) -> usize {
        self.root
    }

    /// The block size in bytes.
    pub closed spec fn spec_block_size(&self) -> u32 {
        self.block_size
    }

    /// The plaintext bytes that the image was opened from, where it was.
    pub closed spec fn spec_data(&self) -> Option<Seq<u8>> {
        match self.data {
            Some(d) => Some(d@),
            None => None,
        }
    }

    /// The byte at `x` of the file of inode `i`: the byte at the same place
    /// in the physical block that the block map names.
    pub open spec fn file_byte(&self, i: int, x: int) -> u8 {
        let bs = self.spec_block_size() as int;
        self.spec_image().content()[self.spec_block_maps()[i][x / bs] * bs + x % bs]
    }

    /// The bytes of the file of inode `i`.
    pub open spec fn file_content(&self, i: int) -> Seq<u8> {
        Seq::new(self.spec_inodes()[i].spec_raw().size as nat, |x: int| self.file_byte(i, x))
    }

    /// Whether every byte of the file of inode `i` lies in a block that the
    /// block map names and within the image.
    pub open spec fn file_readable(&self, i: int) -> bool {
        let bs = self.spec_block_size() as int;
        forall|x: int|
            0 <= x < self.spec_inodes()[i].spec_raw().size ==> x / bs < self.spec_block_maps()[i].len()
                && #[trigger] (self.spec_block_maps()[i][x / bs] * bs + x % bs)
                < self.spec_image().content().len()
    }

    /// The super-root directory.
    pub fn root(self: &Arc<Self>) -> (r: directory::Directory<'a, I>)
        ensures
            r.spec_pfs() == **self,
            r.spec_inode() == self.spec_root(),
    {
        directory::Directory::root(self)
    }

    /// Whether byte `x` of the file of inode `i` lies in a block that the
    /// block map names, within the image.
    pub open spec fn byte_readable(&self, i: int, x: int) -> bool {
        let bs = self.spec_block_size() as int;
        x / bs < self.spec_block_maps()[i].len() && self.spec_block_maps()[i][x / bs] * bs + x % bs
            < self.spec_image().content().len()
    }

    /// Whether bytes `offset..offset + n` of the file of inode `i` are all
    /// readable.
    pub open spec fn range_readable(&self, i: int, offset: int, n: int) -> bool {
        forall|x: int| offset <= x < offset + n ==> #[trigger] self.byte_readable(i, x)
    }

    /// The number of inodes.
    pub fn inode_count(&self) -> (r: usize)
        ensures
            r == self.spec_inodes().len(),
    {
        self.inodes.len()
    }

    /// The block size in bytes.
    pub fn block_size(&self) -> (r: u32)
        ensures
            r == self.spec_block_size(),
    {
        self.block_size
    }

    /// The image that holds the file system.
    pub fn image(&self) -> (r: &I)
        ensures
            *r == self.spec_image(),
    {
        &self.image
    }

    /// The index of the super-root inode.
    pub fn root_index(&self) -> (r: usize)
        ensures
            r == self.spec_root(),
            r < self.spec_inodes().len(),
    {
        proof {
            use_type_invariant(self);
        }
        self.root
    }

    /// The inode at `index`.
    pub fn inode(&self, index: usize) -> (r: &Inode)
        requires
            index < self.spec_inodes().len(),
        ensures
            *r == self.spec_inodes()[index as int],
            r.spec_direct().len() == 12,
            r.spec_indirect().len() == 5,
    {
        let r = &self.inodes[index];
        r.check_pointer_counts();
        r
    }

    /// The block map of inode `inode`: entry `i` is the physical block that
    /// holds its logical block `i`.
    pub fn block_map(&self, inode: usize) -> (r: &[u32])
        requires
            inode < self.spec_inodes().len(),
        ensures
            r@ == self.spec_block_maps()[inode as int],
            r@.len() == self.spec_inodes()[inode as int].spec_blocks(),
    {
        proof {
            use_type_invariant(self);
        }
        self.block_maps[inode].as_slice()
    }

    /// The plaintext bytes that the image was opened from, if it was opened
    /// over such bytes.
    pub fn data(&self) -> (r: Option<&'a [u8]>)
        ensures
            match r {
                Some(d) => self.spec_data() == Some(d@),
                None => self.spec_data() is None,
            },
    {
        self.data
    }

    /// The facts that every loaded PFS keeps.
    pub fn check_invariant(&self)
        ensures
            self.spec_inodes().len() == self.spec_block_maps().len(),
            self.spec_root() < self.spec_inodes().len(),
            self.spec_block_size() > 0,
            forall|i: int|
                0 <= i < self.spec_inodes().len() ==> (#[trigger] self.spec_block_maps()[i]).len()
                    == self.spec_inodes()[i].spec_blocks(),
    {
        proof {
            use_type_invariant(self);
        }
    }
}

/// Block-map coverage: the block map of every inode of a loaded PFS has an
/// entry per block that the inode counts, so where that count is the
/// number of blocks that its size needs, the map covers the file and no
/// more than one block past it.
pub proof fn lemma_block_map_coverage<'a, I: Image>(pfs: &Pfs<'a, I>, i: int)
    requires
        pfs.spec_inodes().len() == pfs.spec_block_maps().len(),
        forall|k: int|
            0 <= k < pfs.spec_inodes().len() ==> (#[trigger] pfs.spec_block_maps()[k]).len()
                == pfs.spec_inodes()[k].spec_blocks(),
        pfs.spec_block_size() > 0,
        0 <= i < pfs.spec_inodes().len(),
        pfs.spec_inodes()[i].spec_raw().size > 0,
        pfs.spec_inodes()[i].spec_blocks() == (pfs.spec_inodes()[i].spec_raw().size + pfs.spec_block_size() - 1)
            / (pfs.spec_block_size() as int),
    ensures
        pfs.spec_block_maps()[i].len() * pfs.spec_block_size() >= pfs.spec_inodes()[i].spec_raw().size,
        pfs.spec_block_maps()[i].len() * pfs.spec_block_size() < pfs.spec_inodes()[i].spec_raw().size
            + pfs.spec_block_size(),
{
    let bs = pfs.spec_block_size() as int;
    let size = pfs.spec_inodes()[i].spec_raw().size as int;
    let n = pfs.spec_block_maps()[i].len() as int;
    let m = size + bs - 1;
    vstd::arithmetic::div_mod::lemma_fundamental_div_mod(m, bs);
    vstd::arithmetic::div_mod::lemma_mod_pos_bound(m, bs);
    assert(n == m / bs);
    assert(n * bs >= size && n * bs < size + bs) by (nonlinear_arith)
        requires
            m == bs * (m / bs) + m % bs,
            0 <= m % bs < bs,
            n == m / bs,
            m == size + bs - 1;
}

/// Opens a PFS from its bytes; an encrypted one needs the EKPFS key.
///
/// The image layer (plaintext or encrypted) is chosen by the superblock,
/// and zero-copy file access is kept for a plaintext one.
pub fn open_slice<'a>(data: &'a [u8], ekpfs: Option<&[u8]>) -> (r: Result<
    Arc<Pfs<'a, SliceImage<'a>>>,
    OpenSliceError,
>)
    ensures
        header_error(data@) matches Some(e) ==> r == Err::<Arc<Pfs<'a, SliceImage<'a>>>, OpenSliceError>(
            OpenSliceError::ReadHeaderFailed { source: e },
        ),
        forall|h: PfsHeader|
            #[trigger] header_of(data@, h) && h.mode.flags & 4 != 0 ==> {
                &&& h.block_size < 0x1000 ==> r == Err::<Arc<Pfs<'a, SliceImage<'a>>>, OpenSliceError>(
                    OpenSliceError::EncryptionBlockSizeTooSmall,
                )
                &&& h.block_size >= 0x1000 && ekpfs is None ==> r == Err::<
                    Arc<Pfs<'a, SliceImage<'a>>>,
                    OpenSliceError,
                >(OpenSliceError::EmptyEkpfs)
                &&& r matches Ok(pfs) ==> ekpfs is Some && (pfs.spec_image() matches SliceImage::Encrypted(e)
                    && encrypted_view(e, data@, ekpfs.unwrap()@, h)) && pfs.spec_data() is None
            },
        forall|h: PfsHeader|
            #[trigger] header_of(data@, h) && h.mode.flags & 4 == 0 ==> (r matches Ok(pfs)
                ==> (pfs.spec_image() matches SliceImage::Plain(p) && p.spec_data() == data@)
                && pfs.spec_data() == Some(data@)),
        forall|h: PfsHeader|
            #[trigger] header_of(data@, h) ==> (r matches Ok(pfs) ==> pfs.spec_block_size()
                == h.block_size && pfs.spec_root() == h.super_root_inode),
        forall|h: PfsHeader|
            #[trigger] header_of(data@, h) && is_power_of_two(h.block_size) && table_in_image(h, data@.len() as int) && (h.mode.flags & 4 != 0 ==> h.block_size >= 0x1000 && ekpfs is Some)
                ==> {
                &&& h.super_root_inode >= inodes_read(h) ==> r == Err::<Arc<Pfs<'a, SliceImage<'a>>>, OpenSliceError>(
                    OpenSliceError::Open { source: OpenError::InvalidSuperRoot },
                )
                &&& h.super_root_inode < inodes_read(h) ==> (r is Ok || r matches Err(
                    OpenSliceError::Open { source: OpenError::LoadBlockMapFailed { .. } },
                ))
            },
{
    let header = match PfsHeader::from_bytes(data) {
        Ok(h) => h,
        Err(e) => {
            return Err(OpenSliceError::ReadHeaderFailed { source: e });
        },
    };
    if header.mode().is_encrypted() {
        let enc = open_encrypted_layer(data, ekpfs, &header)?;
        match open_inner(SliceImage::Encrypted(enc), &header, None) {
            Ok(pfs) => Ok(Arc::new(pfs)),
            Err(e) => Err(OpenSliceError::Open { source: e }),
        }
    } else {
        match open_inner(SliceImage::Plain(UnencryptedSlice::new(data)), &header, Some(data)) {
            Ok(pfs) => Ok(Arc::new(pfs)),
            Err(e) => Err(OpenSliceError::Open { source: e }),
        }
    }
}

/// The encrypted image layer over `data` for the superblock `header`.
fn open_encrypted_layer<'a>(data: &'a [u8], ekpfs: Option<&[u8]>, header: &PfsHeader) -> (r: Result<
    EncryptedSlice<'a>,
    OpenSliceError,
>)
    ensures
        header.block_size < 0x1000 ==> r == Err::<EncryptedSlice<'a>, OpenSliceError>(
            OpenSliceError::EncryptionBlockSizeTooSmall,
        ),
        header.block_size >= 0x1000 && ekpfs is None ==> r == Err::<EncryptedSlice<'a>, OpenSliceError>(
            OpenSliceError::EmptyEkpfs,
        ),
        header.block_size >= 0x1000 && ekpfs is Some ==> (r matches Ok(e) && encrypted_view(
            e,
            data@,
            ekpfs.unwrap()@,
            *header,
        )),
{
    if (header.block_size() as usize) < image::XTS_BLOCK_SIZE {
        return Err(OpenSliceError::EncryptionBlockSizeTooSmall);
    }
    let key = match ekpfs {
        Some(k) => k,
        None => {
            return Err(OpenSliceError::EmptyEkpfs);
        },
    };
    let (data_key, tweak_key) = get_xts_keys(key, header.key_seed());
    Ok(EncryptedSlice::new(data, data_key, tweak_key, (header.block_size() as usize) / image::XTS_BLOCK_SIZE))
}

/// Opens an encrypted PFS from its bytes and the EKPFS key, keeping the
/// encrypted layer's type.
pub fn open_slice_encrypted<'a>(data: &'a [u8], ekpfs: &[u8]) -> (r: Result<
    Arc<Pfs<'a, EncryptedSlice<'a>>>,
    OpenSliceError,
>)
    ensures
        header_error(data@) matches Some(e) ==> r == Err::<Arc<Pfs<'a, EncryptedSlice<'a>>>, OpenSliceError>(
            OpenSliceError::ReadHeaderFailed { source: e },
        ),
        forall|h: PfsHeader|
            #[trigger] header_of(data@, h) ==> {
                &&& h.block_size < 0x1000 ==> r == Err::<Arc<Pfs<'a, EncryptedSlice<'a>>>, OpenSliceError>(
                    OpenSliceError::EncryptionBlockSizeTooSmall,
                )
                &&& r matches Ok(pfs) ==> encrypted_view(pfs.spec_image(), data@, ekpfs@, h)
                    && pfs.spec_block_size() == h.block_size && pfs.spec_root() == h.super_root_inode
            },
        forall|h: PfsHeader|
            #[trigger] header_of(data@, h) && is_power_of_two(h.block_size) && table_in_image(h, data@.len() as int) && h.block_size >= 0x1000
                ==> {
                &&& h.super_root_inode >= inodes_read(h) ==> r == Err::<Arc<Pfs<'a, EncryptedSlice<'a>>>, OpenSliceError>(
                    OpenSliceError::Open { source: OpenError::InvalidSuperRoot },
                )
                &&& h.super_root_inode < inodes_read(h) ==> (r is Ok || r matches Err(
                    OpenSliceError::Open { source: OpenError::LoadBlockMapFailed { .. } },
                ))
            },
{
    let header = match PfsHeader::from_bytes(data) {
        Ok(h) => h,
        Err(e) => {
            return Err(OpenSliceError::ReadHeaderFailed { source: e });
        },
    };
    let enc = open_encrypted_layer(data, Some(ekpfs), &header)?;
    match open_inner(enc, &header, None) {
        Ok(pfs) => Ok(Arc::new(pfs)),
        Err(e) => Err(OpenSliceError::Open { source: e }),
    }
}

/// Opens a plaintext PFS from its bytes, keeping the plaintext layer's type
/// and zero-copy file access.
pub fn open_slice_unencrypted<'a>(data: &'a [u8]) -> (r: Result<
    Arc<Pfs<'a, UnencryptedSlice<'a>>>,
    OpenSliceError,
>)
    ensures
        header_error(data@) matches Some(e) ==> r == Err::<Arc<Pfs<'a, UnencryptedSlice<'a>>>, OpenSliceError>(
            OpenSliceError::ReadHeaderFailed { source: e },
        ),
        r matches Ok(pfs) ==> pfs.spec_image().content() == data@ && pfs.spec_data() == Some(data@),
        forall|h: PfsHeader|
            #[trigger] header_of(data@, h) ==> (r matches Ok(pfs) ==> pfs.spec_block_size()
                == h.block_size && pfs.spec_root() == h.super_root_inode),
        forall|h: PfsHeader|
            #[trigger] header_of(data@, h) && is_power_of_two(h.block_size) && table_in_image(h, data@.len() as int)
                ==> {
                &&& h.super_root_inode >= inodes_read(h) ==> r == Err::<Arc<Pfs<'a, UnencryptedSlice<'a>>>, OpenSliceError>(
                    OpenSliceError::Open { source: OpenError::InvalidSuperRoot },
                )
                &&& h.super_root_inode < inodes_read(h) ==> (r is Ok || r matches Err(
                    OpenSliceError::Open { source: OpenError::LoadBlockMapFailed { .. } },
                ))
            },
{
    let header = match PfsHeader::from_bytes(data) {
        Ok(h) => h,
        Err(e) => {
            return Err(OpenSliceError::ReadHeaderFailed { source: e });
        },
    };
    match open_inner(UnencryptedSlice::new(data), &header, Some(data)) {
        Ok(pfs) => Ok(Arc::new(pfs)),
        Err(e) => Err(OpenSliceError::Open { source: e }),
    }
}

/// Opens a PFS that lies behind any image layer (a file of another PFS,
/// possibly compressed), reading it through that layer only. An encrypted
/// one is refused: the encryption layer is composed separately.
pub fn open_image<'a, I: Image>(image: I) -> (r: Result<Arc<Pfs<'a, I>>, OpenImageError>)
    ensures
        image.content().len() >= 0x380 && header_error(image.content().subrange(0, 0x380)) is Some
            ==> r is Err,
        r matches Ok(pfs) ==> pfs.spec_image() == image && pfs.spec_data() is None && exists|h: PfsHeader|
            header_of(image.content().subrange(0, 0x380), h) && h.mode.flags & 4 == 0
                && pfs.spec_block_size() == h.block_size && pfs.spec_root() == h.super_root_inode,
        forall|h: PfsHeader|
            #[trigger] header_of(image.content().subrange(0, 0x380), h) && h.mode.flags & 4 != 0
                ==> (r matches Err(OpenImageError::UnsupportedMode { mode }) && mode == h.mode) || (r matches Err(
                OpenImageError::ReadHeaderIoFailed { .. },
            )),
        r matches Err(OpenImageError::ReadHeaderIoFailed { .. }) ==> !(image.never_fails()
            && image.content().len() >= 0x380),
        image.never_fails() && image.content().len() >= 0x380 ==> !(r matches Err(
            OpenImageError::ReadHeaderIoFailed { .. },
        )),
        image.content().len() >= 0x380 ==> (header_error(image.content().subrange(0, 0x380)) matches Some(
            e,
        ) ==> image.never_fails() ==> r == Err::<Arc<Pfs<'a, I>>, OpenImageError>(
            OpenImageError::ReadHeaderFailed { source: e },
        )),
        forall|h: PfsHeader|
            #[trigger] header_of(image.content().subrange(0, 0x380), h) && image.never_fails()
                && image.content().len() >= 0x380 ==> {
                &&& h.mode.flags & 4 != 0 ==> r == Err::<Arc<Pfs<'a, I>>, OpenImageError>(
                    OpenImageError::UnsupportedMode { mode: h.mode },
                )
                &&& h.mode.flags & 4 == 0 && is_power_of_two(h.block_size) && table_in_image(
                    h,
                    image.content().len() as int,
                ) && h.super_root_inode >= inodes_read(h) ==> r == Err::<Arc<Pfs<'a, I>>, OpenImageError>(
                    OpenImageError::Open { source: OpenError::InvalidSuperRoot },
                )
                &&& h.mode.flags & 4 == 0 && is_power_of_two(h.block_size) && table_in_image(
                    h,
                    image.content().len() as int,
                ) && h.super_root_inode < inodes_read(h) ==> (r is Ok || r matches Err(
                    OpenImageError::Open { source: OpenError::LoadBlockMapFailed { .. } },
                ))
            },
{
    let mut header_buf = zeroed(header::HEADER_SIZE);
    match image.read_exact_at(0, header_buf.as_mut_slice()) {
        Ok(()) => {},
        Err(e) => {
            return Err(OpenImageError::ReadHeaderIoFailed { source: e });
        },
    }
    proof {
        if image.content().len() >= 0x380 {
            assert(header_buf@ == image.content().subrange(0, 0x380));
        }
    }
    let header = match PfsHeader::from_bytes(header_buf.as_slice()) {
        Ok(h) => h,
        Err(e) => {
            return Err(OpenImageError::ReadHeaderFailed { source: e });
        },
    };
    if header.mode().is_encrypted() {
        return Err(OpenImageError::UnsupportedMode { mode: header.mode() });
    }
    proof {
        assert(header_buf@ == image.content().subrange(0, 0x380));
        assert(header_of(image.content().subrange(0, 0x380), header));
    }
    match open_inner(image, &header, None) {
        Ok(pfs) => Ok(Arc::new(pfs)),
        Err(e) => Err(OpenImageError::Open { source: e }),
    }
}

/// Opens a PFS over `image` with the superblock `header`: checks the block
/// size, reads the inodes that follow the superblock, checks the
/// super-root and loads every block map.
fn open_inner<'a, I: Image>(image: I, header: &PfsHeader, data: Option<&'a [u8]>) -> (r: Result<
    Pfs<'a, I>,
    OpenError,
>)
    requires
        header.inode_block_count <= u32::MAX,
    ensures
        !is_power_of_two(header.block_size) ==> r == Err::<Pfs<'a, I>, OpenError>(
            OpenError::InvalidBlockSize,
        ),
        is_power_of_two(header.block_size) ==> r != Err::<Pfs<'a, I>, OpenError>(
            OpenError::InvalidBlockSize,
        ),
        r == Err::<Pfs<'a, I>, OpenError>(OpenError::InvalidSuperRoot) ==> header.super_root_inode
            >= inodes_read(*header),
        is_power_of_two(header.block_size) && header.super_root_inode >= inodes_read(*header) ==> r is Err,
        r matches Ok(pfs) ==> pfs.spec_inodes().len() == inodes_read(*header),
        image.never_fails() && is_power_of_two(header.block_size) && table_in_image(
            *header,
            image.content().len() as int,
        ) ==> {
            &&& header.super_root_inode >= inodes_read(*header) ==> r == Err::<Pfs<'a, I>, OpenError>(
                OpenError::InvalidSuperRoot,
            )
            &&& header.super_root_inode < inodes_read(*header) ==> (r is Ok || r matches Err(
                OpenError::LoadBlockMapFailed { .. },
            ))
        },
        r matches Ok(pfs) ==> {
            &&& pfs.spec_image() == image
            &&& pfs.spec_block_size() == header.block_size
            &&& pfs.spec_root() == header.super_root_inode
            &&& pfs.spec_data() == match data {
                Some(d) => Some(d@),
                None => None::<Seq<u8>>,
            }
            &&& pfs.spec_inodes().len() <= header.inode_count
            &&& forall|i: int|
                0 <= i < pfs.spec_inodes().len() ==> inode_from_table(
                    #[trigger] pfs.spec_inodes()[i],
                    i,
                    image.content(),
                    header.block_size,
                    header.mode.flags & 1 != 0,
                )
            &&& forall|i: int|
                0 <= i < pfs.spec_inodes().len() ==> (#[trigger] pfs.spec_inodes()[i]).spec_index()
                    == i && pfs.spec_inodes()[i].spec_signed() == (header.mode.flags & 1 != 0)
            &&& forall|i: int|
                0 <= i < pfs.spec_inodes().len() && pfs.spec_inodes()[i].spec_blocks() > 0
                    && !pfs.spec_inodes()[i].spec_is_contiguous() ==> (#[trigger] pfs.spec_block_maps()[i])
                    == pfs.spec_inodes()[i].pointer_chain(image.content(), header.block_size).take(
                    pfs.spec_inodes()[i].spec_blocks() as int,
                )
            &&& forall|i: int|
                0 <= i < pfs.spec_inodes().len() && pfs.spec_inodes()[i].spec_blocks() > 0
                    && pfs.spec_inodes()[i].spec_is_contiguous() ==> (#[trigger] pfs.spec_block_maps()[i])
                    == Inode::contiguous_map(
                    pfs.spec_inodes()[i].spec_direct()[0],
                    pfs.spec_inodes()[i].spec_blocks(),
                )
        },
{
    let mode = header.mode();
    let block_size = header.block_size();
    let inode_count = header.inode_count();
    let inode_block_count = header.inode_block_count();
    let super_root = header.super_root_inode();
    if !(block_size > 0 && block_size & (block_size - 1) == 0) {
        return Err(OpenError::InvalidBlockSize);
    }
    let signed = mode.is_signed();
    // Read and parse the inodes, which start at block 1.
    let mut inodes: Vec<Inode> = Vec::new();
    let mut block_buf = zeroed(block_size as usize);
    let mut block_num: u64 = 0;
    while block_num < inode_block_count
        invariant
            inode_block_count <= u32::MAX,
            block_buf@.len() == block_size,
            inodes@.len() <= inode_count,
            signed == (header.mode.flags & 1 != 0),
            forall|i: int|
                0 <= i < inodes@.len() ==> (#[trigger] inodes@[i]).spec_index() == i
                    && inodes@[i].spec_signed() == signed,
            is_power_of_two(header.block_size),
            block_size == header.block_size,
            inode_count == header.inode_count,
            super_root == header.super_root_inode,
            inode_block_count == header.inode_block_count,
            block_num <= inode_block_count,
            inodes@.len() < inode_count ==> inodes@.len() == block_num * inodes_per_block(block_size, signed),
            inodes@.len() <= inode_block_count * inodes_per_block(block_size, signed),
            forall|i: int|
                0 <= i < inodes@.len() ==> inode_from_table(
                    #[trigger] inodes@[i],
                    i,
                    image.content(),
                    block_size,
                    signed,
                ),
        ensures
            inodes@.len() == inodes_read(*header),
        decreases inode_block_count - block_num,
    {
        proof {
            inode::lemma_block_offset((block_num + 1) as u32, block_size);
            if table_in_image(*header, image.content().len() as int) {
                assert((block_num + 1) * block_size + block_size <= image.content().len()) by (nonlinear_arith)
                    requires
                        (1 + inode_block_count) * block_size <= image.content().len(),
                        block_num + 1 <= inode_block_count;
            }
        }
        let offset = (block_num + 1) * block_size as u64;
        match image.read_exact_at(offset, block_buf.as_mut_slice()) {
            Ok(()) => {},
            Err(e) => {
                return Err(OpenError::ReadBlockFailed { block: block_num as u32, source: e });
            },
        }
        let ghost old_inodes = inodes@;
        let ghost n = inodes_per_block(block_size, signed);
        proof {
            assert(block_buf@ == inode::block_bytes(image.content(), (block_num + 1) as u32, block_size));
        }
        let full = parse_inodes_from_block(&block_buf, signed, &mut inodes, inode_count)?;
        proof {
            assert forall|i: int| 0 <= i < inodes@.len() implies inode_from_table(
                #[trigger] inodes@[i],
                i,
                image.content(),
                block_size,
                signed,
            ) by {
                if i >= old_inodes.len() {
                    let k = i - old_inodes.len();
                    assert(old_inodes.len() == block_num * n);
                    assert(n > 0);
                    crate::bytes::lemma_div_mod_parts(i, n, block_num as int, k);
                    assert(1 + i / n == block_num + 1);
                } else {
                    assert(inodes@[i] == old_inodes[i]);
                }
            }
            if !full {
                assert(inodes@.len() == (block_num + 1) * n) by (nonlinear_arith)
                    requires
                        inodes@.len() - old_inodes.len() == n,
                        old_inodes.len() == block_num * n;
            }
        }
        proof {
            if old_inodes.len() < inode_count {
                assert(inodes@.len() <= inode_block_count * n) by (nonlinear_arith)
                    requires
                        inodes@.len() - old_inodes.len() <= n,
                        old_inodes.len() == block_num * n,
                        block_num + 1 <= inode_block_count,
                        n >= 0;
            }
        }
        if full {
            break;
        }
        block_num = block_num + 1;
    }
    if super_root >= inodes.len() as u64 {
        return Err(OpenError::InvalidSuperRoot);
    }
    let block_maps = precompute_block_maps(&inodes, &image, block_size)?;
    let pfs = Pfs { image, inodes, block_maps, root: super_root as usize, block_size, data };
    proof {
        assert(pfs.spec_block_maps().len() == block_maps@.len());
    }
    Ok(pfs)
}

/// Loads the block map of every inode.
fn precompute_block_maps<I: Image>(inodes: &Vec<Inode>, image: &I, block_size: u32) -> (r: Result<
    Vec<Vec<u32>>,
    OpenError,
>)
    requires
        block_size > 0,
    ensures
        r matches Err(e) ==> e is LoadBlockMapFailed,
        r matches Ok(maps) ==> {
            &&& maps@.len() == inodes@.len()
            &&& forall|i: int|
                0 <= i < inodes@.len() ==> (#[trigger] maps@[i])@.len() == inodes@[i].spec_blocks()
            &&& forall|i: int|
                0 <= i < inodes@.len() && inodes@[i].spec_blocks() > 0
                    && !inodes@[i].spec_is_contiguous() ==> (#[trigger] maps@[i])@
                    == inodes@[i].pointer_chain(image.content(), block_size).take(
                    inodes@[i].spec_blocks() as int,
                )
            &&& forall|i: int|
                0 <= i < inodes@.len() && inodes@[i].spec_blocks() > 0
                    && inodes@[i].spec_is_contiguous() ==> (#[trigger] maps@[i])@
                    == Inode::contiguous_map(inodes@[i].spec_direct()[0], inodes@[i].spec_blocks())
        },
{
    let mut maps: Vec<Vec<u32>> = Vec::new();
    let mut i: usize = 0;
    while i < inodes.len()
        invariant
            i <= inodes@.len(),
            block_size > 0,
            maps@.len() == i,
            forall|k: int| 0 <= k < i ==> (#[trigger] maps@[k])@.len() == inodes@[k].spec_blocks(),
            forall|k: int|
                0 <= k < i && inodes@[k].spec_blocks() > 0 && !inodes@[k].spec_is_contiguous()
                    ==> (#[trigger] maps@[k])@ == inodes@[k].pointer_chain(image.content(), block_size).take(
                    inodes@[k].spec_blocks() as int,
                ),
            forall|k: int|
                0 <= k < i && inodes@[k].spec_blocks() > 0 && inodes@[k].spec_is_contiguous()
                    ==> (#[trigger] maps@[k])@ == Inode::contiguous_map(
                    inodes@[k].spec_direct()[0],
                    inodes@[k].spec_blocks(),
                ),
        decreases inodes@.len() - i,
    {
        match inodes[i].load_block_map(image, block_size) {
            Ok(m) => {
                maps.push(m);
            },
            Err(e) => {
                return Err(OpenError::LoadBlockMapFailed { inode: i, source: e });
            },
        }
        i = i + 1;
    }
    Ok(maps)
}

/// Parses inodes from one block of the inode table until `inode_count` of
/// them are known; returns whether they are.
fn parse_inodes_from_block(block: &Vec<u8>, signed: bool, inodes: &mut Vec<Inode>, inode_count: u64) -> (r: Result<bool, OpenError>)
    requires
        old(inodes)@.len() <= inode_count,
        forall|i: int|
            0 <= i < old(inodes)@.len() ==> (#[trigger] old(inodes)@[i]).spec_index() == i
                && old(inodes)@[i].spec_signed() == signed,
    ensures
        final(inodes)@.len() <= inode_count,
        final(inodes)@.len() >= old(inodes)@.len(),
        forall|i: int|
            0 <= i < final(inodes)@.len() ==> (#[trigger] final(inodes)@[i]).spec_index() == i
                && final(inodes)@[i].spec_signed() == signed,
        forall|i: int|
            0 <= i < old(inodes)@.len() ==> #[trigger] final(inodes)@[i] == old(inodes)@[i],
        forall|i: int|
            old(inodes)@.len() <= i < final(inodes)@.len() ==> (#[trigger] final(inodes)@[i]).parsed_from(
                i as usize,
                block@,
                (i - old(inodes)@.len()) * inode_record_size(signed),
                signed,
            ),
        r == Ok::<bool, OpenError>(final(inodes)@.len() == inode_count),
        final(inodes)@.len() - old(inodes)@.len() <= (block@.len() as int) / inode_record_size(signed),
        final(inodes)@.len() < inode_count ==> final(inodes)@.len() - old(inodes)@.len() == (block@.len() as int)
            / inode_record_size(signed),
{
    let mut at: usize = 0;
    let ghost start = inodes@.len();
    while (inodes.len() as u64) < inode_count
        invariant
            start == old(inodes)@.len(),
            inodes@.len() <= inode_count,
            inodes@.len() >= start,
            at == (inodes@.len() - start) * inode_record_size(signed),
            at <= block@.len(),
            forall|i: int|
                0 <= i < inodes@.len() ==> (#[trigger] inodes@[i]).spec_index() == i
                    && inodes@[i].spec_signed() == signed,
            forall|i: int| 0 <= i < start ==> #[trigger] inodes@[i] == old(inodes)@[i],
            forall|i: int|
                start <= i < inodes@.len() ==> (#[trigger] inodes@[i]).parsed_from(
                    i as usize,
                    block@,
                    (i - start) * inode_record_size(signed),
                    signed,
                ),
        decreases inode_count - inodes@.len(),
    {
        let index = inodes.len();
        let parsed = if signed {
            Inode::from_raw32_signed(index, block.as_slice(), at)
        } else {
            Inode::from_raw32_unsigned(index, block.as_slice(), at)
        };
        match parsed {
            Ok((inode, next)) => {
                inodes.push(inode);
                proof {
                    assert(next == (inodes@.len() - start) * inode_record_size(signed)) by (nonlinear_arith)
                        requires
                            next == at + inode_record_size(signed),
                            at == (inodes@.len() - 1 - start) * inode_record_size(signed);
                }
                at = next;
            },
            Err(_) => {
                proof {
                    lemma_record_count(block@.len() as int, signed, inodes@.len() - start);
                }
                return Ok(false);
            },
        }
    }
    proof {
        lemma_record_count(block@.len() as int, signed, inodes@.len() - start);
    }
    Ok(true)
}

/// `k` whole records fit in `len` bytes exactly when `k` is at most the
/// quotient, and it is the quotient when one more would not fit.
proof fn lemma_record_count(len: int, signed: bool, k: int)
    requires
        0 <= k,
        0 <= len,
    ensures
        k * inode_record_size(signed) <= len ==> k <= len / inode_record_size(signed),
        k * inode_record_size(signed) <= len < k * inode_record_size(signed) + inode_record_size(signed)
            ==> k == len / inode_record_size(signed),
{
    if signed {
        assert(k * 712 <= len ==> k <= len / 712) by (nonlinear_arith)
            requires 0 <= k, 0 <= len;
        assert(k * 712 <= len < k * 712 + 712 ==> k == len / 712) by (nonlinear_arith)
            requires 0 <= k, 0 <= len;
    } else {
        assert(k * 168 <= len ==> k <= len / 168) by (nonlinear_arith)
            requires 0 <= k, 0 <= len;
        assert(k * 168 <= len < k * 168 + 168 ==> k == len / 168) by (nonlinear_arith)
            requires 0 <= k, 0 <= len;
    }
}

} // verus!
