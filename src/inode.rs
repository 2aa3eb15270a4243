//! Inodes: the 100-byte header, the block-pointer tail in its signed and
//! unsigned layouts, and the resolution of logical to physical blocks.

use vstd::prelude::*;

use crate::bytes::{le_value, read_u16_le, read_u32_le, read_u64_le, zeroed};
use crate::image::{Image, ImageError};

verus! {

/// The size of the inode header.
pub const INODE_HEADER_SIZE: usize = 100;

/// The size of the pointer tail of an unsigned inode: 12 direct and 5
/// indirect 4-byte pointers.
pub const UNSIGNED_TAIL_SIZE: usize = 68;

/// The size of the pointer tail of a signed inode: each pointer follows a
/// 32-byte signature.
pub const SIGNED_TAIL_SIZE: usize = 612;

/// `direct[1]` set to this marks a file whose blocks are contiguous.
pub const CONTIGUOUS_MARK: u32 = 0xFFFF_FFFF;

/// The raw inode header.
#[derive(Debug, Clone, Copy, PartialEq, Eq)]
pub struct InodeRaw {
    pub mode: u16,
    pub nlink: u16,
    pub flags: u32,
    pub size: u64,
    pub size_compressed: u64,
    pub atime: u64,
    pub mtime: u64,
    pub ctime: u64,
    pub birthtime: u64,
    pub mtimensec: u32,
    pub atimensec: u32,
    pub ctimensec: u32,
    pub birthnsec: u32,
    pub uid: u32,
    pub gid: u32,
    pub blocks: u32,
}

/// The inode header stored at `b[at..at + 100]`.
pub open spec fn raw_inode_at(b: Seq<u8>, at: int) -> InodeRaw {
    InodeRaw {
        mode: le_value(b, at, 2) as u16,
        nlink: le_value(b, at + 0x02, 2) as u16,
        flags: le_value(b, at + 0x04, 4) as u32,
        size: le_value(b, at + 0x08, 8) as u64,
        size_compressed: le_value(b, at + 0x10, 8) as u64,
        atime: le_value(b, at + 0x18, 8) as u64,
        mtime: le_value(b, at + 0x20, 8) as u64,
        ctime: le_value(b, at + 0x28, 8) as u64,
        birthtime: le_value(b, at + 0x30, 8) as u64,
        mtimensec: le_value(b, at + 0x38, 4) as u32,
        atimensec: le_value(b, at + 0x3C, 4) as u32,
        ctimensec: le_value(b, at + 0x40, 4) as u32,
        birthnsec: le_value(b, at + 0x44, 4) as u32,
        uid: le_value(b, at + 0x48, 4) as u32,
        gid: le_value(b, at + 0x4C, 4) as u32,
        blocks: le_value(b, at + 0x60, 4) as u32,
    }
}

impl InodeRaw {
    /// Parses the header at `b[at..at + 100]`.
    pub fn parse(b: &[u8], at: usize) -> (r: Self)
        requires
            at + 100 <= b@.len(),
        ensures
            r == raw_inode_at(b@, at as int),
    {
        let _ = b.len();
        InodeRaw {
            mode: read_u16_le(b, at),
            nlink: read_u16_le(b, at + 0x02),
            flags: read_u32_le(b, at + 0x04),
            size: read_u64_le(b, at + 0x08),
            size_compressed: read_u64_le(b, at + 0x10),
            atime: read_u64_le(b, at + 0x18),
            mtime: read_u64_le(b, at + 0x20),
            ctime: read_u64_le(b, at + 0x28),
            birthtime: read_u64_le(b, at + 0x30),
            mtimensec: read_u32_le(b, at + 0x38),
            atimensec: read_u32_le(b, at + 0x3C),
            ctimensec: read_u32_le(b, at + 0x40),
            birthnsec: read_u32_le(b, at + 0x44),
            uid: read_u32_le(b, at + 0x48),
            gid: read_u32_le(b, at + 0x4C),
            blocks: read_u32_le(b, at + 0x60),
        }
    }
}

/// Errors when loading the block map of an inode.
#[derive(Debug, Clone, Copy, PartialEq, Eq)]
pub enum LoadBlocksError {
    /// A block of pointers could not be read.
    Read { block: u32, source: ImageError },
    /// A contiguous run of blocks runs past the last block number.
    NotExists { block: u32 },
    /// The pointers in the direct, single- and double-indirect blocks run
    /// out before the inode's block count.
    DoubleIndirectBlockNotSupported { inode: usize },
}

/// Errors when parsing an inode from raw bytes.
#[derive(Debug, Clone, Copy, PartialEq, Eq)]
pub enum FromRawError {
    /// The underlying source failed.
    IoFailed { source: ImageError },
    /// The input ends before the inode does.
    TooSmall,
}

/// The size of an entry of an indirect block: a plain pointer, or a
/// signature followed by a pointer.
pub open spec fn entry_size(signed: bool) -> int {
    if signed {
        36
    } else {
        4
    }
}

/// The pointers that the block bytes `b` hold, one per whole entry.
pub open spec fn block_entries(b: Seq<u8>, signed: bool) -> Seq<u32> {
    let es = entry_size(signed);
    let vo = if signed {
        32int
    } else {
        0int
    };
    Seq::new(((b.len() as int) / es) as nat, |i: int| le_value(b, i * es + vo, 4) as u32)
}

/// The bytes of block `n` of an image.
pub open spec fn block_bytes(content: Seq<u8>, n: u32, block_size: u32) -> Seq<u8> {
    content.subrange(n * block_size, n * block_size + block_size)
}

/// The pointers held by the blocks that the pointers `l1` name, in order.
pub open spec fn leaf_entries(content: Seq<u8>, l1: Seq<u32>, block_size: u32, signed: bool) -> Seq<
    u32,
>
    decreases l1.len(),
{
    if l1.len() == 0 {
        seq![]
    } else {
        leaf_entries(content, l1.drop_last(), block_size, signed) + block_entries(
            block_bytes(content, l1.last(), block_size),
            signed,
        )
    }
}

/// Flags of an inode.
#[derive(Debug, Clone, Copy, PartialEq, Eq)]
pub struct InodeFlags(pub u32);

impl InodeFlags {
    /// Whether the file's data is PFSC-compressed (bit 0).
    pub fn is_compressed(self) -> (r: bool)
        ensures
            r == (self.0 & 1 != 0),
    {
        self.0 & 1 != 0
    }

    /// The raw flags.
    pub fn value(self) -> (r: u32)
        ensures
            r == self.0,
    {
        self.0
    }
}

/// An inode: its header and its block pointers.
pub struct Inode {
    index: usize,
    raw: InodeRaw,
    direct_blocks: Vec<u32>,
    direct_sigs: Vec<Option<Vec<u8>>>,
    indirect_blocks: Vec<u32>,
    indirect_sigs: Vec<Option<Vec<u8>>>,
    signed: bool,
}

/// Block pointer `slot` (0 to 11 direct, 12 to 16 indirect) of the inode
/// at `b[at..]` in the given layout.
pub open spec fn tail_pointer(b: Seq<u8>, at: int, signed: bool, slot: int) -> u32 {
    if signed {
        le_value(b, at + 100 + slot * 36 + 32, 4) as u32
    } else {
        le_value(b, at + 100 + slot * 4, 4) as u32
    }
}

/// Whether `sig` is what the inode at `b[at..]` keeps for pointer `slot`:
/// the 32 bytes before the pointer in the signed layout, nothing in the
/// unsigned one.
pub open spec fn signature_at(sig: Option<Vec<u8>>, b: Seq<u8>, at: int, signed: bool, slot: int) -> bool {
    if signed {
        sig is Some && sig->Some_0@ == b.subrange(at + 100 + slot * 36, at + 100 + slot * 36 + 32)
    } else {
        sig is None
    }
}

impl Inode {
    #[verifier::type_invariant]
    spec fn inv(self) -> bool {
        self.direct_blocks@.len() == 12 && self.indirect_blocks@.len() == 5 && self.direct_sigs@.len()
            == 12 && self.indirect_sigs@.len() == 5
    }

    /// The position of this inode in the inode table.
    pub closed spec fn spec_index(&self) -> usize {
        self.index
    }

    /// The raw header.
    pub closed spec fn spec_raw(&self) -> InodeRaw {
        self.raw
    }

    /// The 12 direct block pointers.
    pub closed spec fn spec_direct(&self) -> Seq<u32> {
        self.direct_blocks@
    }

    /// The 5 indirect block pointers.
    pub closed spec fn spec_indirect(&self) -> Seq<u32> {
        self.indirect_blocks@
    }

    /// The signatures of the direct pointers (none in the unsigned layout).
    pub closed spec fn spec_direct_sigs(&self) -> Seq<Option<Vec<u8>>> {
        self.direct_sigs@
    }

    /// The signatures of the indirect pointers (none in the unsigned layout).
    pub closed spec fn spec_indirect_sigs(&self) -> Seq<Option<Vec<u8>>> {
        self.indirect_sigs@
    }

    /// Whether the inode uses the signed layout.
    pub closed spec fn spec_signed(&self) -> bool {
        self.signed
    }

    /// Whether this is the inode that `b[at..]` holds in the given layout.
    pub open spec fn parsed_from(&self, index: usize, b: Seq<u8>, at: int, signed: bool) -> bool {
        &&& self.spec_index() == index
        &&& self.spec_raw() == raw_inode_at(b, at)
        &&& self.spec_signed() == signed
        &&& self.spec_direct().len() == 12
        &&& self.spec_indirect().len() == 5
        &&& forall|i: int| 0 <= i < 12 ==> #[trigger] self.spec_direct()[i] == tail_pointer(b, at, signed, i)
        &&& forall|i: int| 0 <= i < 5 ==> #[trigger] self.spec_indirect()[i] == tail_pointer(b, at, signed, 12 + i)
        &&& self.spec_direct_sigs().len() == 12
        &&& self.spec_indirect_sigs().len() == 5
        &&& forall|i: int| 0 <= i < 12 ==> signature_at(#[trigger] self.spec_direct_sigs()[i], b, at, signed, i)
        &&& forall|i: int| 0 <= i < 5 ==> signature_at(#[trigger] self.spec_indirect_sigs()[i], b, at, signed, 12 + i)
    }

    /// The number of data blocks.
    pub open spec fn spec_blocks(&self) -> u32 {
        self.spec_raw().blocks
    }

    /// Parses an unsigned inode at `b[at..]`, returning it and the position
    /// just past it.
    pub fn from_raw32_unsigned(index: usize, b: &[u8], at: usize) -> (r: Result<(Self, usize), FromRawError>)
        ensures
            at + 168 > b@.len() <==> r is Err,
            r is Err ==> r == Err::<(Self, usize), FromRawError>(FromRawError::TooSmall),
            r matches Ok((inode, next)) ==> next == at + 168 && inode.parsed_from(index, b@, at as int, false),
    {
        if b.len() < at || b.len() - at < INODE_HEADER_SIZE + UNSIGNED_TAIL_SIZE {
            return Err(FromRawError::TooSmall);
        }
        let _ = b.len();
        let raw = InodeRaw::parse(b, at);
        let tail = at + INODE_HEADER_SIZE;
        let mut direct_blocks: Vec<u32> = Vec::new();
        let mut direct_sigs: Vec<Option<Vec<u8>>> = Vec::new();
        let mut i: usize = 0;
        while i < 12
            invariant
                i <= 12,
                tail == at + 100,
                at + 168 <= b@.len(),
                b@.len() <= usize::MAX,
                direct_blocks@.len() == i,
                direct_sigs@.len() == i,
                forall|k: int| 0 <= k < i ==> #[trigger] direct_blocks@[k] == tail_pointer(b@, at as int, false, k),
                forall|k: int| 0 <= k < i ==> (#[trigger] direct_sigs@[k]) is None,
            decreases 12 - i,
        {
            direct_blocks.push(read_u32_le(b, tail + i * 4));
            direct_sigs.push(None);
            i = i + 1;
        }
        let mut indirect_blocks: Vec<u32> = Vec::new();
        let mut indirect_sigs: Vec<Option<Vec<u8>>> = Vec::new();
        let mut i: usize = 0;
        while i < 5
            invariant
                i <= 5,
                tail == at + 100,
                at + 168 <= b@.len(),
                b@.len() <= usize::MAX,
                indirect_blocks@.len() == i,
                indirect_sigs@.len() == i,
                forall|k: int| 0 <= k < i ==> #[trigger] indirect_blocks@[k] == tail_pointer(b@, at as int, false, 12 + k),
                forall|k: int| 0 <= k < i ==> (#[trigger] indirect_sigs@[k]) is None,
            decreases 5 - i,
        {
            indirect_blocks.push(read_u32_le(b, tail + 48 + i * 4));
            indirect_sigs.push(None);
            i = i + 1;
        }
        Ok((Inode { index, raw, direct_blocks, direct_sigs, indirect_blocks, indirect_sigs, signed: false }, at + 168))
    }

    /// Parses a signed inode at `b[at..]`, returning it and the position
    /// just past it. The signatures are kept, not checked.
    pub fn from_raw32_signed(index: usize, b: &[u8], at: usize) -> (r: Result<(Self, usize), FromRawError>)
        ensures
            at + 712 > b@.len() <==> r is Err,
            r is Err ==> r == Err::<(Self, usize), FromRawError>(FromRawError::TooSmall),
            r matches Ok((inode, next)) ==> next == at + 712 && inode.parsed_from(index, b@, at as int, true),
    {
        if b.len() < at || b.len() - at < INODE_HEADER_SIZE + SIGNED_TAIL_SIZE {
            return Err(FromRawError::TooSmall);
        }
        let _ = b.len();
        let raw = InodeRaw::parse(b, at);
        let tail = at + INODE_HEADER_SIZE;
        let mut direct_blocks: Vec<u32> = Vec::new();
        let mut direct_sigs: Vec<Option<Vec<u8>>> = Vec::new();
        let mut indirect_blocks: Vec<u32> = Vec::new();
        let mut indirect_sigs: Vec<Option<Vec<u8>>> = Vec::new();
        let mut i: usize = 0;
        while i < 17
            invariant
                i <= 17,
                tail == at + 100,
                at + 712 <= b@.len(),
                b@.len() <= usize::MAX,
                i <= 12 ==> direct_blocks@.len() == i && indirect_blocks@.len() == 0,
                i > 12 ==> direct_blocks@.len() == 12 && indirect_blocks@.len() == i - 12,
                forall|k: int| 0 <= k < direct_blocks@.len() ==> #[trigger] direct_blocks@[k] == tail_pointer(b@, at as int, true, k),
                forall|k: int| 0 <= k < indirect_blocks@.len() ==> #[trigger] indirect_blocks@[k] == tail_pointer(b@, at as int, true, 12 + k),
                direct_sigs@.len() == direct_blocks@.len(),
                indirect_sigs@.len() == indirect_blocks@.len(),
                forall|k: int| 0 <= k < direct_sigs@.len() ==> signature_at(#[trigger] direct_sigs@[k], b@, at as int, true, k),
                forall|k: int| 0 <= k < indirect_sigs@.len() ==> signature_at(#[trigger] indirect_sigs@[k], b@, at as int, true, 12 + k),
            decreases 17 - i,
        {
            let entry = tail + i * 36;
            let sig = slice_range(b, entry, 32);
            let ptr = read_u32_le(b, entry + 32);
            if i < 12 {
                direct_blocks.push(ptr);
                direct_sigs.push(Some(sig));
            } else {
                indirect_blocks.push(ptr);
                indirect_sigs.push(Some(sig));
            }
            i = i + 1;
        }
        Ok((Inode { index, raw, direct_blocks, direct_sigs, indirect_blocks, indirect_sigs, signed: true }, at + 712))
    }

    /// If the inode's blocks are contiguous, the first block and the block
    /// count.
    pub fn contiguous_blocks(&self) -> (r: Option<(u32, u32)>)
        ensures
            r == if self.spec_blocks() == 0 {
                None
            } else if self.spec_direct()[1] == 0xFFFF_FFFFu32 {
                Some((self.spec_direct()[0], self.spec_blocks()))
            } else if self.spec_blocks() == 1 {
                Some((self.spec_direct()[0], 1u32))
            } else {
                None
            },
            self.spec_direct().len() == 12,
            self.spec_indirect().len() == 5,
    {
        proof {
            use_type_invariant(self);
        }
        let count = self.raw.blocks;
        if count == 0 {
            return None;
        }
        if self.direct_blocks[1] == CONTIGUOUS_MARK {
            return Some((self.direct_blocks[0], count));
        }
        if count == 1 {
            return Some((self.direct_blocks[0], 1));
        }
        None
    }

    /// The pointers that the inode leads to, in logical order: the 12
    /// direct ones, those in the single-indirect block, then those in the
    /// blocks that the double-indirect block names.
    pub open spec fn pointer_chain(&self, content: Seq<u8>, block_size: u32) -> Seq<u32> {
        let signed = self.spec_signed();
        self.spec_direct() + block_entries(
            block_bytes(content, self.spec_indirect()[0], block_size),
            signed,
        ) + leaf_entries(
            content,
            block_entries(block_bytes(content, self.spec_indirect()[1], block_size), signed),
            block_size,
            signed,
        )
    }

    /// The pointers of the single-indirect block.
    pub open spec fn single_entries(&self, content: Seq<u8>, block_size: u32) -> Seq<u32> {
        block_entries(block_bytes(content, self.spec_indirect()[0], block_size), self.spec_signed())
    }

    /// The pointers of the double-indirect block.
    pub open spec fn double_entries(&self, content: Seq<u8>, block_size: u32) -> Seq<u32> {
        block_entries(block_bytes(content, self.spec_indirect()[1], block_size), self.spec_signed())
    }

    /// Whether the blocks that loading the block map reads lie within
    /// `content`: the single-indirect block where the direct pointers do
    /// not reach the block count, and the double-indirect block and every
    /// block it names where the single-indirect block does not either.
    pub open spec fn needed_blocks_in_image(&self, content: Seq<u8>, block_size: u32) -> bool {
        let n = self.spec_blocks() as int;
        &&& n > 12 ==> self.spec_indirect()[0] * block_size + block_size <= content.len()
        &&& n > 12 + self.single_entries(content, block_size).len() ==> {
            &&& self.spec_indirect()[1] * block_size + block_size <= content.len()
            &&& forall|j: int|
                0 <= j < self.double_entries(content, block_size).len() ==> (#[trigger] self.double_entries(
                    content,
                    block_size,
                )[j]) * block_size + block_size <= content.len()
        }
    }

    /// Whether the inode marks its blocks as one contiguous run.
    pub open spec fn spec_is_contiguous(&self) -> bool {
        self.spec_direct()[1] == 0xFFFF_FFFFu32
    }

    /// The block map of a contiguous run of `n` blocks from `start`.
    pub open spec fn contiguous_map(start: u32, n: u32) -> Seq<u32> {
        Seq::new(n as nat, |i: int| (start + i) as u32)
    }

    /// Loads the block map: entry `i` is the physical block that holds
    /// logical block `i`.
    #[verifier::rlimit(60)]
    pub fn load_block_map<I: Image>(&self, image: &I, block_size: u32) -> (r: Result<Vec<u32>, LoadBlocksError>)
        requires
            block_size > 0,
        ensures
            self.spec_blocks() == 0 ==> r is Ok && r.unwrap()@.len() == 0,
            self.spec_blocks() > 0 && self.spec_is_contiguous() ==> r == if self.spec_direct()[0]
                + self.spec_blocks() - 1 <= u32::MAX {
                Ok::<Vec<u32>, LoadBlocksError>(r.unwrap())
            } else {
                Err::<Vec<u32>, LoadBlocksError>(LoadBlocksError::NotExists { block: self.spec_direct()[0] })
            },
            self.spec_blocks() > 0 && self.spec_is_contiguous() && r is Ok ==> r.unwrap()@
                == Self::contiguous_map(self.spec_direct()[0], self.spec_blocks()),
            0 < self.spec_blocks() <= 12 && !self.spec_is_contiguous() ==> r is Ok,
            self.spec_blocks() > 0 && !self.spec_is_contiguous() && r is Ok ==> self.pointer_chain(
                image.content(),
                block_size,
            ).len() >= self.spec_blocks() && r.unwrap()@ == self.pointer_chain(
                image.content(),
                block_size,
            ).take(self.spec_blocks() as int),
            r matches Err(LoadBlocksError::DoubleIndirectBlockNotSupported { inode }) ==> inode
                == self.spec_index() && self.pointer_chain(image.content(), block_size).len()
                < self.spec_blocks(),
            r matches Err(LoadBlocksError::NotExists { .. }) ==> self.spec_is_contiguous(),
            image.never_fails() && self.needed_blocks_in_image(image.content(), block_size)
                && self.spec_blocks() > 0 && !self.spec_is_contiguous() ==> (r is Ok <==> self.pointer_chain(
                image.content(),
                block_size,
            ).len() >= self.spec_blocks()),
            image.never_fails() && self.needed_blocks_in_image(image.content(), block_size)
                && self.spec_blocks() > 0 && !self.spec_is_contiguous() && r is Err ==> r == Err::<
                Vec<u32>,
                LoadBlocksError,
            >(LoadBlocksError::DoubleIndirectBlockNotSupported { inode: self.spec_index() }),
            self.spec_direct().len() == 12,
            self.spec_indirect().len() == 5,
    {
        proof {
            use_type_invariant(self);
        }
        let block_count = self.raw.blocks;
        let n = block_count as usize;
        let mut blocks: Vec<u32> = Vec::new();
        if block_count == 0 {
            return Ok(blocks);
        }
        if self.direct_blocks[1] == CONTIGUOUS_MARK {
            let start = self.direct_blocks[0];
            if start as u64 + block_count as u64 - 1 > u32::MAX as u64 {
                return Err(LoadBlocksError::NotExists { block: start });
            }
            let mut i: u32 = 0;
            while i < block_count
                invariant
                    i <= block_count,
                    start + block_count - 1 <= u32::MAX,
                    blocks@ == Self::contiguous_map(start, i),
                decreases block_count - i,
            {
                blocks.push(start + i);
                i = i + 1;
                assert(blocks@ =~= Self::contiguous_map(start, i));
            }
            return Ok(blocks);
        }
        let ghost chain = self.pointer_chain(image.content(), block_size);
        let ghost direct = self.direct_blocks@;
        let mut i: usize = 0;
        while i < 12
            invariant
                i <= 12,
                direct == self.direct_blocks@,
                direct.len() == 12,
                n == block_count,
                blocks@ == direct.take(i as int),
                i < n,
                block_count == self.spec_blocks(),
                block_count > 0,
                !self.spec_is_contiguous(),
                chain == self.pointer_chain(image.content(), block_size),
                direct == self.spec_direct(),
                self.spec_indirect().len() == 5,
            decreases 12 - i,
        {
            blocks.push(self.direct_blocks[i]);
            assert(blocks@ =~= direct.take(i + 1));
            if blocks.len() == n {
                assert(chain.take(n as int) =~= direct.take(n as int));
                return Ok(blocks);
            }
            i = i + 1;
        }
        assert(blocks@ =~= direct);
        let bs = block_size as u64;
        let signed = self.signed;
        // The single-indirect block.
        let ind0 = self.indirect_blocks[0];
        let mut block0 = zeroed(block_size as usize);
        proof {
            lemma_block_offset(ind0, block_size);
        }
        match image.read_exact_at(ind0 as u64 * bs, block0.as_mut_slice()) {
            Ok(()) => {},
            Err(e) => {
                return Err(LoadBlocksError::Read { block: ind0, source: e });
            },
        }
        let ghost e0 = block_entries(block0@, signed);
        assert(block0@ == block_bytes(image.content(), ind0, block_size));
        if self.append_entries(&block0, &mut blocks, n) {
            return Ok(blocks);
        }
        assert(blocks@ == direct + e0);
        // The double-indirect block.
        let ind1 = self.indirect_blocks[1];
        proof {
            lemma_block_offset(ind1, block_size);
        }
        match image.read_exact_at(ind1 as u64 * bs, block0.as_mut_slice()) {
            Ok(()) => {},
            Err(e) => {
                return Err(LoadBlocksError::Read { block: ind1, source: e });
            },
        }
        assert(block0@ == block_bytes(image.content(), ind1, block_size));
        let ghost l1 = block_entries(block0@, signed);
        let mut block1 = zeroed(block_size as usize);
        let mut at: usize = 0;
        let ghost mut j: int = 0;
        let mut next = self.read_indirect(&block0, at);
        while next.is_some()
            invariant
                next is Some <==> at + entry_size(signed) <= block0@.len(),
                next matches Some(v) ==> v == le_value(block0@, at + if signed { 32int } else { 0int }, 4),
                0 <= j <= l1.len(),
                at == j * entry_size(signed),
                signed == self.spec_signed(),
                block0@ == block_bytes(image.content(), ind1, block_size),
                l1 == block_entries(block0@, signed),
                block1@.len() == block_size,
                blocks@ == direct + e0 + leaf_entries(image.content(), l1.take(j), block_size, signed),
                blocks@.len() < n,
                n == block_count,
                chain == self.pointer_chain(image.content(), block_size),
                direct == self.spec_direct(),
                e0 == block_entries(block_bytes(image.content(), self.spec_indirect()[0], block_size), signed),
                ind1 == self.spec_indirect()[1],
                block_count == self.spec_blocks(),
                block_count > 0,
                !self.spec_is_contiguous(),
                block0@.len() <= usize::MAX,
                direct.len() == 12,
                self.spec_indirect().len() == 5,
                bs == block_size,
                block_size > 0,
            decreases l1.len() - j,
        {
            let leaf = next.unwrap();
            proof {
                lemma_entry_index(block0@.len() as int, signed, j);
                assert(j < l1.len());
                assert(l1[j] == leaf);
                assert((j + 1) * entry_size(signed) == j * entry_size(signed) + entry_size(signed))
                    by (nonlinear_arith);
            }
            proof {
                lemma_block_offset(leaf, block_size);
                assert(l1 == self.double_entries(image.content(), block_size));
                assert(e0 == self.single_entries(image.content(), block_size));
                assert(self.double_entries(image.content(), block_size)[j] == leaf);
                assert(self.spec_blocks() > 12 + self.single_entries(image.content(), block_size).len());
            }
            match image.read_exact_at(leaf as u64 * bs, block1.as_mut_slice()) {
                Ok(()) => {},
                Err(e) => {
                    return Err(LoadBlocksError::Read { block: ind1, source: e });
                },
            }
            assert(block1@ == block_bytes(image.content(), leaf, block_size));
            proof {
                assert(l1.take(j + 1).drop_last() =~= l1.take(j));
                assert(l1[j] == leaf);
            }
            if self.append_entries(&block1, &mut blocks, n) {
                assert(blocks@ =~= chain.take(n as int)) by {
                    let q = direct + e0 + leaf_entries(image.content(), l1.take(j + 1), block_size, signed);
                    assert(leaf_entries(image.content(), l1.take(j + 1), block_size, signed)
                        =~= leaf_entries(image.content(), l1.take(j), block_size, signed) + block_entries(block1@, signed));
                    assert(blocks@ =~= q.take(n as int));
                    lemma_leaf_prefix(image.content(), l1, j + 1, block_size, signed);
                    let lp = leaf_entries(image.content(), l1.take(j + 1), block_size, signed);
                    let lf = leaf_entries(image.content(), l1, block_size, signed);
                    assert(chain == direct + e0 + lf);
                    assert(q.len() >= n);
                    assert(chain.len() >= n);
                    assert forall|i: int| 0 <= i < n implies chain[i] == q[i] by {
                        if i >= direct.len() + e0.len() {
                            assert(lf.take(lp.len() as int)[i - direct.len() - e0.len()] == lf[i - direct.len() - e0.len()]);
                        }
                    }
                }
                assert(chain.len() >= n) by {
                    lemma_leaf_prefix(image.content(), l1, j + 1, block_size, signed);
                }
                return Ok(blocks);
            }
            at = at + if signed { 36 } else { 4 };
            next = self.read_indirect(&block0, at);
            proof {
                j = j + 1;
            }
        }
        proof {
            lemma_entry_index(block0@.len() as int, signed, j);
            assert(l1.take(j) =~= l1);
        }
        Err(LoadBlocksError::DoubleIndirectBlockNotSupported { inode: self.index })
    }

    /// Appends the pointers of `block` to `blocks` until it holds `n`;
    /// returns whether it does.
    fn append_entries(&self, block: &Vec<u8>, blocks: &mut Vec<u32>, n: usize) -> (full: bool)
        requires
            old(blocks)@.len() < n,
        ensures
            full ==> final(blocks)@ == (old(blocks)@ + block_entries(block@, self.spec_signed())).take(n as int)
                && old(blocks)@.len() + block_entries(block@, self.spec_signed()).len() >= n,
            !full ==> final(blocks)@ == old(blocks)@ + block_entries(block@, self.spec_signed())
                && final(blocks)@.len() < n,
    {
        let ghost start = blocks@;
        let ghost e = block_entries(block@, self.spec_signed());
        let _ = block.len();
        let mut at: usize = 0;
        let ghost mut k: int = 0;
        let mut next = self.read_indirect(block.as_slice(), at);
        while next.is_some()
            invariant
                next is Some <==> at + entry_size(self.spec_signed()) <= block@.len(),
                next matches Some(v) ==> v == le_value(block@, at + if self.spec_signed() { 32int } else { 0int }, 4),
                0 <= k <= e.len(),
                at == k * entry_size(self.spec_signed()),
                e == block_entries(block@, self.spec_signed()),
                blocks@ == start + e.take(k),
                start == old(blocks)@,
                blocks@.len() < n,
                block@.len() <= usize::MAX,
            decreases e.len() - k,
        {
            let v = next.unwrap();
            proof {
                lemma_entry_index(block@.len() as int, self.spec_signed(), k);
                assert(k < e.len());
                assert(e[k] == v);
                assert((k + 1) * entry_size(self.spec_signed()) == k * entry_size(self.spec_signed())
                    + entry_size(self.spec_signed())) by (nonlinear_arith);
            }
            blocks.push(v);
            assert(blocks@ =~= start + e.take(k + 1));
            if blocks.len() == n {
                assert(k + 1 <= e.len());
                assert((start + e).take(n as int) =~= start + e.take(k + 1));
                assert(start.len() + e.len() >= n);
                assert(start == old(blocks)@);
                assert(blocks@ == (start + e).take(n as int));
                return true;
            }
            at = at + if self.signed { 36 } else { 4 };
            next = self.read_indirect(block.as_slice(), at);
            proof {
                k = k + 1;
            }
        }
        proof {
            lemma_entry_index(block@.len() as int, self.spec_signed(), k);
            assert(e.take(k) =~= e);
        }
        false
    }

    /// Reads one pointer entry at `b[at..]`, if a whole one is there.
    fn read_indirect(&self, b: &[u8], at: usize) -> (r: Option<u32>)
        ensures
            r is Some <==> at + entry_size(self.spec_signed()) <= b@.len(),
            r matches Some(v) ==> v == le_value(b@, at + if self.spec_signed() { 32int } else { 0int }, 4),
    {
        let (entry_size, value_offset): (usize, usize) = if self.signed { (36, 32) } else { (4, 0) };
        if b.len() < at || b.len() - at < entry_size {
            return None;
        }
        Some(read_u32_le(b, at + value_offset))
    }

    /// Every inode has 12 direct and 5 indirect pointers.
    pub fn check_pointer_counts(&self)
        ensures
            self.spec_direct().len() == 12,
            self.spec_indirect().len() == 5,
            self.spec_direct_sigs().len() == 12,
            self.spec_indirect_sigs().len() == 5,
    {
        proof {
            use_type_invariant(self);
        }
    }

    /// The raw header.
    pub fn raw(&self) -> (r: &InodeRaw)
        ensures
            *r == self.spec_raw(),
    {
        &self.raw
    }

    pub fn index(&self) -> (r: usize)
        ensures
            r == self.spec_index(),
    {
        self.index
    }

    pub fn mode(&self) -> (r: u16)
        ensures
            r == self.spec_raw().mode,
    {
        self.raw.mode
    }

    pub fn flags(&self) -> (r: InodeFlags)
        ensures
            r == InodeFlags(self.spec_raw().flags),
    {
        InodeFlags(self.raw.flags)
    }

    pub fn size(&self) -> (r: u64)
        ensures
            r == self.spec_raw().size,
    {
        self.raw.size
    }

    pub fn compressed_len(&self) -> (r: u64)
        ensures
            r == self.spec_raw().size_compressed,
    {
        self.raw.size_compressed
    }

    pub fn atime(&self) -> (r: u64)
        ensures
            r == self.spec_raw().atime,
    {
        self.raw.atime
    }

    pub fn mtime(&self) -> (r: u64)
        ensures
            r == self.spec_raw().mtime,
    {
        self.raw.mtime
    }

    pub fn ctime(&self) -> (r: u64)
        ensures
            r == self.spec_raw().ctime,
    {
        self.raw.ctime
    }

    pub fn birthtime(&self) -> (r: u64)
        ensures
            r == self.spec_raw().birthtime,
    {
        self.raw.birthtime
    }

    pub fn mtimensec(&self) -> (r: u32)
        ensures
            r == self.spec_raw().mtimensec,
    {
        self.raw.mtimensec
    }

    pub fn atimensec(&self) -> (r: u32)
        ensures
            r == self.spec_raw().atimensec,
    {
        self.raw.atimensec
    }

    pub fn ctimensec(&self) -> (r: u32)
        ensures
            r == self.spec_raw().ctimensec,
    {
        self.raw.ctimensec
    }

    pub fn birthnsec(&self) -> (r: u32)
        ensures
            r == self.spec_raw().birthnsec,
    {
        self.raw.birthnsec
    }

    pub fn uid(&self) -> (r: u32)
        ensures
            r == self.spec_raw().uid,
    {
        self.raw.uid
    }

    pub fn gid(&self) -> (r: u32)
        ensures
            r == self.spec_raw().gid,
    {
        self.raw.gid
    }
}

/// The number of pointers that one block holds.
pub open spec fn entries_per_block(block_size: u32, signed: bool) -> int {
    block_size as int / entry_size(signed)
}

/// Blocks within the image hold `entries_per_block` pointers each.
pub proof fn lemma_leaf_len(content: Seq<u8>, l: Seq<u32>, block_size: u32, signed: bool)
    requires
        forall|j: int| 0 <= j < l.len() ==> (#[trigger] l[j]) * block_size + block_size <= content.len(),
    ensures
        leaf_entries(content, l, block_size, signed).len() == l.len() * entries_per_block(block_size, signed),
    decreases l.len(),
{
    if l.len() > 0 {
        let d = l.drop_last();
        assert forall|j: int| 0 <= j < d.len() implies (#[trigger] d[j]) * block_size + block_size <= content.len() by {
            assert(d[j] == l[j]);
        }
        lemma_leaf_len(content, d, block_size, signed);
        assert(l.last() == l[l.len() - 1]);
        assert(block_bytes(content, l.last(), block_size).len() == block_size);
        assert(d.len() * entries_per_block(block_size, signed) + entries_per_block(block_size, signed)
            == l.len() * entries_per_block(block_size, signed)) by (nonlinear_arith)
            requires d.len() + 1 == l.len();
    }
}

/// With the single- and double-indirect blocks and every block the latter
/// names in the image, the pointers reach exactly `12 + E + E * E` blocks,
/// for `E` pointers per block: a larger block count needs triple-indirect
/// blocks.
pub proof fn lemma_chain_len(inode: Inode, content: Seq<u8>, block_size: u32)
    requires
        inode.spec_direct().len() == 12,
        inode.spec_indirect().len() == 5,
        inode.spec_indirect()[0] * block_size + block_size <= content.len(),
        inode.spec_indirect()[1] * block_size + block_size <= content.len(),
        forall|j: int|
            0 <= j < inode.double_entries(content, block_size).len() ==> (#[trigger] inode.double_entries(
                content,
                block_size,
            )[j]) * block_size + block_size <= content.len(),
    ensures
        ({
            let e = entries_per_block(block_size, inode.spec_signed());
            inode.pointer_chain(content, block_size).len() == 12 + e + e * e
        }),
{
    let signed = inode.spec_signed();
    lemma_leaf_len(content, inode.double_entries(content, block_size), block_size, signed);
    assert(block_bytes(content, inode.spec_indirect()[0], block_size).len() == block_size);
    assert(block_bytes(content, inode.spec_indirect()[1], block_size).len() == block_size);
}

/// Entry `k` of a block of `len` bytes is a whole entry exactly when `k`
/// is below the number of entries, and then it is entry `k` of the block.
pub proof fn lemma_entry_index(len: int, signed: bool, k: int)
    requires
        0 <= k,
        0 <= len,
    ensures
        (k * entry_size(signed) + entry_size(signed) <= len) == (k < len / entry_size(signed)),
{
    if signed {
        assert((k * 36 + 36 <= len) == (k < len / 36)) by (nonlinear_arith)
            requires 0 <= k, 0 <= len;
    } else {
        assert((k * 4 + 4 <= len) == (k < len / 4)) by (nonlinear_arith)
            requires 0 <= k, 0 <= len;
    }
}

/// The pointers of the first `m` named blocks come first among those of
/// all of them.
pub proof fn lemma_leaf_prefix(content: Seq<u8>, l: Seq<u32>, m: int, block_size: u32, signed: bool)
    requires
        0 <= m <= l.len(),
    ensures
        leaf_entries(content, l, block_size, signed).len() >= leaf_entries(
            content,
            l.take(m),
            block_size,
            signed,
        ).len(),
        leaf_entries(content, l, block_size, signed).take(
            leaf_entries(content, l.take(m), block_size, signed).len() as int,
        ) == leaf_entries(content, l.take(m), block_size, signed),
    decreases l.len(),
{
    if m < l.len() {
        let d = l.drop_last();
        lemma_leaf_prefix(content, d, m, block_size, signed);
        assert(d.take(m) =~= l.take(m));
        let a = leaf_entries(content, d, block_size, signed);
        let b = block_entries(block_bytes(content, l.last(), block_size), signed);
        let p = leaf_entries(content, l.take(m), block_size, signed);
        assert((a + b).take(p.len() as int) =~= a.take(p.len() as int));
    } else {
        assert(l.take(m) =~= l);
        let f = leaf_entries(content, l, block_size, signed);
        assert(f.take(f.len() as int) =~= f);
    }
}

/// Block `n` starts at a byte offset that fits in 64 bits.
pub proof fn lemma_block_offset(n: u32, block_size: u32)
    ensures
        n as int * block_size as int <= u64::MAX,
        (n as u64 * block_size as u64) as int == n as int * block_size as int,
{
    assert(n as int * block_size as int <= u32::MAX as int * u32::MAX as int) by (nonlinear_arith)
        requires
            n <= u32::MAX,
            block_size <= u32::MAX,
    ;
}

/// A copy of `b[at..at + n]`.
pub fn slice_range(b: &[u8], at: usize, n: usize) -> (r: Vec<u8>)
    requires
        at + n <= b@.len(),
    ensures
        r@ == b@.subrange(at as int, at + n),
{
    let _ = b.len();
    let mut r: Vec<u8> = Vec::with_capacity(n);
    let mut k: usize = 0;
    while k < n
        invariant
            k <= n,
            at + n <= b@.len(),
            b@.len() <= usize::MAX,
            r@ == b@.subrange(at as int, at + k),
        decreases n - k,
    {
        r.push(b[at + k]);
        k = k + 1;
    }
    r
}

} // verus!
