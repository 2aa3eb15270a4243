//! The PFS superblock.

use vstd::prelude::*;

use crate::bytes::{le_value, read_u16_le, read_u32_le, read_u64_le};
use vstd::string::StringExecFns;

verus! {

/// The superblock's required version.
pub const VERSION: u64 = 1;

/// The superblock's required format.
pub const FORMAT: u64 = 20130315;

/// The size of the superblock on disk, key seed included.
pub const HEADER_SIZE: usize = 0x380;

/// The size of the fixed fields at the start of the superblock.
pub const FIELDS_SIZE: usize = 0x50;

/// Where the key seed lies in the superblock.
pub const KEY_SEED_OFFSET: usize = 0x370;

/// Errors when parsing a PFS superblock.
#[derive(Debug, Clone, Copy, PartialEq, Eq)]
pub enum ReadError {
    InvalidVersion,
    InvalidFormat,
    TooManyInodeBlocks,
    ReadHeaderFailed,
    ReadKeySeedFailed,
}

/// The mode flags of a PFS.
#[derive(Debug, Clone, Copy, PartialEq, Eq, Default)]
pub struct Mode {
    pub flags: u16,
}

impl Mode {
    /// Whether the inodes carry signatures (bit 0).
    pub fn is_signed(&self) -> (r: bool)
        ensures
            r == (self.flags & 1 != 0),
    {
        self.flags & 1 != 0
    }

    /// Whether the 64-bit layout bit (bit 1) is set.
    pub fn is_64bits(&self) -> (r: bool)
        ensures
            r == (self.flags & 2 != 0),
    {
        self.flags & 2 != 0
    }

    /// Whether the image is encrypted (bit 2).
    pub fn is_encrypted(&self) -> (r: bool)
        ensures
            r == (self.flags & 4 != 0),
    {
        self.flags & 4 != 0
    }
}

/// The lower-case hexadecimal digit `d`.
pub open spec fn hex_char(d: int) -> char {
    if d < 10 {
        ('0' as int + d) as char
    } else {
        ('a' as int + d - 10) as char
    }
}

/// The hexadecimal digits of `v`, without leading zeros.
pub open spec fn hex_text(v: nat) -> Seq<char>
    decreases v,
{
    if v < 16 {
        seq![hex_char(v as int)]
    } else {
        hex_text(v / 16).push(hex_char((v % 16) as int))
    }
}

/// The digit `d` as a string.
fn hex_digit(d: u16) -> (r: &'static str)
    requires
        d < 16,
    ensures
        r@ == seq![hex_char(d as int)],
{
    proof {
        reveal_strlit("0");
        reveal_strlit("1");
        reveal_strlit("2");
        reveal_strlit("3");
        reveal_strlit("4");
        reveal_strlit("5");
        reveal_strlit("6");
        reveal_strlit("7");
        reveal_strlit("8");
        reveal_strlit("9");
        reveal_strlit("a");
        reveal_strlit("b");
        reveal_strlit("c");
        reveal_strlit("d");
        reveal_strlit("e");
        reveal_strlit("f");
    }
    match d {
        0 => "0",
        1 => "1",
        2 => "2",
        3 => "3",
        4 => "4",
        5 => "5",
        6 => "6",
        7 => "7",
        8 => "8",
        9 => "9",
        10 => "a",
        11 => "b",
        12 => "c",
        13 => "d",
        14 => "e",
        _ => "f",
    }
}

/// Appends the hexadecimal digits of `v` to `out`.
fn push_hex(out: &mut String, v: u16)
    ensures
        final(out)@ == old(out)@ + hex_text(v as nat),
    decreases v,
{
    if v >= 16 {
        push_hex(out, v / 16);
    }
    out.append(hex_digit(v % 16));
}

/// The names of the mode bits that `flags` sets, in order.
pub open spec fn mode_names(flags: u16) -> Seq<Seq<char>> {
    let a: Seq<Seq<char>> = if flags & 1 != 0 { seq!["signed"@] } else { seq![] };
    let b: Seq<Seq<char>> = if flags & 2 != 0 { seq!["64-bits"@] } else { seq![] };
    let c: Seq<Seq<char>> = if flags & 4 != 0 { seq!["encrypted"@] } else { seq![] };
    a + b + c
}

/// The names joined by ", ".
pub open spec fn comma_joined(names: Seq<Seq<char>>) -> Seq<char>
    decreases names.len(),
{
    if names.len() == 0 {
        seq![]
    } else if names.len() == 1 {
        names[0]
    } else {
        comma_joined(names.drop_last()) + ", "@ + names.last()
    }
}

/// How a mode reads: its bits in hexadecimal, then the names of the known
/// ones in parentheses, if any.
pub open spec fn mode_text(flags: u16) -> Seq<char> {
    if mode_names(flags).len() == 0 {
        hex_text(flags as nat)
    } else {
        hex_text(flags as nat) + " ("@ + comma_joined(mode_names(flags)) + ")"@
    }
}

impl Mode {
    /// The mode in words.
    pub fn describe(&self) -> (r: String)
        ensures
            r@ == mode_text(self.flags),
    {
        proof {
            reveal_strlit(" (");
            reveal_strlit(")");
            reveal_strlit(", ");
            reveal_strlit("signed");
            reveal_strlit("64-bits");
            reveal_strlit("encrypted");
        }
        let mut r = String::new();
        push_hex(&mut r, self.flags);
        let ghost start = r@;
        let ghost names = mode_names(self.flags);
        let mut count: usize = 0;
        let ghost mut seen: Seq<Seq<char>> = seq![];
        let mut k: usize = 0;
        while k < 3
            invariant
                k <= 3,
                count == seen.len(),
                seen == names.take(count as int),
                names == mode_names(self.flags),
                names.len() == (if self.flags & 1 != 0 { 1int } else { 0 }) + (if self.flags & 2 != 0 { 1int } else { 0 }) + (if self.flags & 4 != 0 { 1int } else { 0 }),
                count == (if k > 0 && self.flags & 1 != 0 { 1int } else { 0 }) + (if k > 1 && self.flags & 2 != 0 { 1int } else { 0 }) + (if k > 2 && self.flags & 4 != 0 { 1int } else { 0 }),
                count == 0 ==> r@ == start,
                count > 0 ==> r@ == start + " ("@ + comma_joined(seen),
            decreases 3 - k,
        {
            let (bit, name): (u16, &str) = if k == 0 {
                (1, "signed")
            } else if k == 1 {
                (2, "64-bits")
            } else {
                (4, "encrypted")
            };
            if self.flags & bit != 0 {
                if count == 0 {
                    r.append(" (");
                } else {
                    r.append(", ");
                }
                r.append(name);
                proof {
                    assert(names[count as int] == name@);
                    let s2 = names.take(count + 1);
                    assert(s2.drop_last() =~= seen);
                    if count == 0 {
                        assert(comma_joined(s2) == name@);
                    }
                    seen = s2;
                }
                count = count + 1;
            }
            k = k + 1;
        }
        if count > 0 {
            r.append(")");
        }
        proof {
            assert(names.take(count as int) =~= names);
        }
        r
    }
}

/// A parsed superblock.
#[derive(Debug, Clone, Copy, PartialEq, Eq)]
pub struct PfsHeader {
    pub version: u64,
    pub format: u64,
    pub mode: Mode,
    pub block_size: u32,
    pub inode_count: u64,
    pub inode_block_count: u64,
    pub super_root_inode: u64,
    pub key_seed: [u8; 16],
}

/// The outcome that the superblock bytes `b` call for: an error, or the
/// header that they describe.
pub open spec fn parsed_header(b: Seq<u8>, h: PfsHeader) -> bool {
    &&& h.version == le_value(b, 0, 8)
    &&& h.format == le_value(b, 0x08, 8)
    &&& h.mode.flags == le_value(b, 0x1C, 2)
    &&& h.block_size == le_value(b, 0x20, 4)
    &&& h.inode_count == le_value(b, 0x30, 8)
    &&& h.inode_block_count == le_value(b, 0x40, 8)
    &&& h.super_root_inode == le_value(b, 0x48, 8)
    &&& h.key_seed@ == b.subrange(0x370, 0x380)
}

/// The error, if any, that the superblock bytes `b` call for.
pub open spec fn header_error(b: Seq<u8>) -> Option<ReadError> {
    if b.len() < 0x50 {
        Some(ReadError::ReadHeaderFailed)
    } else if le_value(b, 0, 8) != 1 {
        Some(ReadError::InvalidVersion)
    } else if le_value(b, 0x08, 8) != 20130315 {
        Some(ReadError::InvalidFormat)
    } else if le_value(b, 0x40, 8) > u32::MAX {
        Some(ReadError::TooManyInodeBlocks)
    } else if b.len() < 0x380 {
        Some(ReadError::ReadKeySeedFailed)
    } else {
        None
    }
}

impl PfsHeader {
    /// Parses the superblock at the start of `data`.
    pub fn from_bytes(data: &[u8]) -> (r: Result<Self, ReadError>)
        ensures
            header_error(data@) is Some <==> r is Err,
            r matches Err(e) ==> header_error(data@) == Some(e),
            r matches Ok(h) ==> parsed_header(data@, h),
    {
        if data.len() < FIELDS_SIZE {
            return Err(ReadError::ReadHeaderFailed);
        }
        let version = read_u64_le(data, 0);
        if version != VERSION {
            return Err(ReadError::InvalidVersion);
        }
        let format = read_u64_le(data, 0x08);
        if format != FORMAT {
            return Err(ReadError::InvalidFormat);
        }
        // Blocks are numbered with 32 bits everywhere else.
        let inode_block_count = read_u64_le(data, 0x40);
        if inode_block_count > u32::MAX as u64 {
            return Err(ReadError::TooManyInodeBlocks);
        }
        if data.len() < HEADER_SIZE {
            return Err(ReadError::ReadKeySeedFailed);
        }
        let mut key_seed = [0u8; 16];
        let mut i: usize = 0;
        while i < 16
            invariant
                i <= 16,
                data@.len() >= 0x380,
                forall|j: int| 0 <= j < i ==> key_seed@[j] == data@[0x370 + j],
            decreases 16 - i,
        {
            key_seed[i] = data[KEY_SEED_OFFSET + i];
            i = i + 1;
        }
        assert(key_seed@ =~= data@.subrange(0x370, 0x380));
        Ok(PfsHeader {
            version,
            format,
            mode: Mode { flags: read_u16_le(data, 0x1C) },
            block_size: read_u32_le(data, 0x20),
            inode_count: read_u64_le(data, 0x30),
            inode_block_count,
            super_root_inode: read_u64_le(data, 0x48),
            key_seed,
        })
    }

    /// The mode flags.
    pub fn mode(&self) -> (r: Mode)
        ensures
            r == self.mode,
    {
        self.mode
    }

    /// The block size in bytes.
    pub fn block_size(&self) -> (r: u32)
        ensures
            r == self.block_size,
    {
        self.block_size
    }

    /// The number of inodes.
    pub fn inode_count(&self) -> (r: u64)
        ensures
            r == self.inode_count,
    {
        self.inode_count
    }

    /// The number of blocks that hold inodes.
    pub fn inode_block_count(&self) -> (r: u64)
        ensures
            r == self.inode_block_count,
    {
        self.inode_block_count
    }

    /// The index of the super-root directory's inode.
    pub fn super_root_inode(&self) -> (r: u64)
        ensures
            r == self.super_root_inode,
    {
        self.super_root_inode
    }

    /// The seed from which the encryption keys are derived.
    pub fn key_seed(&self) -> (r: &[u8; 16])
        ensures
            r@ == self.key_seed@,
    {
        &self.key_seed
    }
}

} // verus!
