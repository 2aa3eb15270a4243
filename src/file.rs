//! Files of a PFS: positional reads through the block map, zero-copy
//! access where the layout allows it, and a file viewed as an image.

use vstd::prelude::*;

use crate::image::{read_ok, Image, ImageError};
use crate::inode::Inode;
use crate::Pfs;
use std::sync::Arc;

verus! {

/// Physical offsets within a block fit in 64 bits.
proof fn lemma_phys_offset(n: u32, bs: u32, off: int)
    requires
        0 <= off < bs,
    ensures
        n as int * bs as int + off <= u64::MAX,
{
    assert(n as int * bs as int + off < (n as int + 1) * bs as int) by (nonlinear_arith)
        requires
            off < bs,
    ;
    assert((n as int + 1) * bs as int <= 0x1_0000_0000 * 0xFFFF_FFFF) by (nonlinear_arith)
        requires
            n <= u32::MAX,
            bs <= u32::MAX,
    ;
}

/// How many bytes a read of `cap` bytes gets where `left` remain.
pub open spec fn wanted(cap: int, left: int) -> int {
    if cap < left {
        cap
    } else {
        left
    }
}

/// Reads the file of inode `inode` at `offset` into `buf`; returns how
/// many bytes were read, which is all that were asked for up to the end of
/// the file.
pub fn pfs_read_at<I: Image>(pfs: &Pfs<'_, I>, inode: usize, offset: u64, buf: &mut [u8]) -> (r: Result<
    usize,
    ImageError,
>)
    requires
        inode < pfs.spec_inodes().len(),
    ensures
        final(buf)@.len() == old(buf)@.len(),
        r matches Ok(n) ==> read_ok(
            pfs.file_content(inode as int),
            offset as int,
            old(buf)@.len() as int,
            n as int,
            final(buf)@,
        ),
        r matches Ok(n) ==> offset < pfs.spec_inodes()[inode as int].spec_raw().size ==> n == if old(
            buf,
        )@.len() < pfs.spec_inodes()[inode as int].spec_raw().size - offset {
            old(buf)@.len() as int
        } else {
            pfs.spec_inodes()[inode as int].spec_raw().size - offset
        },
        old(buf)@.len() == 0 || offset >= pfs.spec_inodes()[inode as int].spec_raw().size ==> r == Ok::<
            usize,
            ImageError,
        >(0) && final(buf)@ == old(buf)@,
        pfs.spec_image().never_fails() ==> (r is Ok <==> pfs.range_readable(
            inode as int,
            offset as int,
            wanted(old(buf)@.len() as int, pfs.spec_inodes()[inode as int].spec_raw().size - offset),
        )),
        r matches Err(ImageError::BlockUnavailable { block }) ==> (pfs.spec_image().never_fails() ==> block
            >= pfs.spec_block_maps()[inode as int].len() && block * pfs.spec_block_size() < offset
            + wanted(old(buf)@.len() as int, pfs.spec_inodes()[inode as int].spec_raw().size - offset)),
{
    pfs.check_invariant();
    let file_size = pfs.inode(inode).size();
    let cap = buf.len();
    if cap == 0 || offset >= file_size {
        return Ok(0);
    }
    let block_map = pfs.block_map(inode);
    let bs = pfs.block_size() as u64;
    let image = pfs.image();
    let ghost content = pfs.file_content(inode as int);
    let mut copied: usize = 0;
    let mut pos: u64 = offset;
    while copied < cap && pos < file_size
        invariant
            cap == buf@.len(),
            cap == old(buf)@.len(),
            copied <= cap,
            pos == offset + copied,
            pos <= file_size,
            file_size == pfs.spec_inodes()[inode as int].spec_raw().size,
            content == pfs.file_content(inode as int),
            block_map@ == pfs.spec_block_maps()[inode as int],
            bs == pfs.spec_block_size(),
            bs > 0,
            *image == pfs.spec_image(),
            buf@.subrange(0, copied as int) == content.subrange(offset as int, pos as int),
            offset < file_size,
            forall|x: int| offset <= x < pos ==> #[trigger] pfs.byte_readable(inode as int, x),
        decreases cap - copied,
    {
        let block_index = pos / bs;
        let off_in = pos % bs;
        let ghost want = wanted(cap as int, file_size - offset);
        assert(offset <= pos < offset + want);
        if block_index >= block_map.len() as u64 {
            proof {
                vstd::arithmetic::div_mod::lemma_fundamental_div_mod(pos as int, bs as int);
                vstd::arithmetic::div_mod::lemma_mod_pos_bound(pos as int, bs as int);
                assert((block_index as int) * (bs as int) <= pos) by (nonlinear_arith)
                    requires
                        pos == bs * (pos as int / bs as int) + pos as int % bs as int,
                        pos as int % bs as int >= 0,
                        block_index == pos as int / bs as int;
                if pfs.range_readable(inode as int, offset as int, want) {
                    assert(pfs.byte_readable(inode as int, pos as int));
                }
            }
            return Err(ImageError::BlockUnavailable { block: block_index });
        }
        let block_num = block_map[block_index as usize];
        let mut to_read: u64 = bs - off_in;
        if file_size - pos < to_read {
            to_read = file_size - pos;
        }
        if ((cap - copied) as u64) < to_read {
            to_read = (cap - copied) as u64;
        }
        let to_read = to_read as usize;
        proof {
            lemma_phys_offset(block_num, bs as u32, off_in as int);
            vstd::arithmetic::div_mod::lemma_fundamental_div_mod(pos as int, bs as int);
        }
        let phys = block_num as u64 * bs + off_in;
        let ghost before = buf@;
        {
            let (_done, rest) = buf.split_at_mut(copied);
            let (dst, _after) = rest.split_at_mut(to_read);
            match image.read_exact_at(phys, dst) {
                Ok(()) => {},
                Err(e) => {
                    proof {
                        let x = pos + to_read - 1;
                        crate::bytes::lemma_div_mod_parts(x, bs as int, block_index as int, off_in + to_read - 1);
                        if pfs.range_readable(inode as int, offset as int, want) {
                            assert(pfs.byte_readable(inode as int, x));
                        }
                    }
                    return Err(e);
                },
            }
        }
        assert(buf@.subrange(0, copied + to_read) =~= content.subrange(offset as int, pos + to_read)) by {
            assert forall|j: int| copied <= j < copied + to_read implies buf@[j] == content[offset + j] by {
                let x = offset + j;
                crate::bytes::lemma_div_mod_parts(x, bs as int, block_index as int, off_in + (j - copied));
            }
            assert(buf@.subrange(0, copied as int) =~= before.subrange(0, copied as int));
        }
        assert forall|x: int| offset <= x < pos + to_read implies #[trigger] pfs.byte_readable(inode as int, x) by {
            if x >= pos {
                crate::bytes::lemma_div_mod_parts(x, bs as int, block_index as int, off_in + (x - pos));
            }
        }
        copied = copied + to_read;
        pos = pos + to_read as u64;
    }
    Ok(copied)
}

/// A file of a PFS: a shared handle on the PFS and an inode index.
pub struct File<'a, I: Image> {
    pfs: Arc<Pfs<'a, I>>,
    inode: usize,
}

impl<'a, I: Image> File<'a, I> {
    #[verifier::type_invariant]
    spec fn inv(self) -> bool {
        self.inode < (*self.pfs).spec_inodes().len()
    }

    /// The PFS that holds the file.
    pub closed spec fn spec_pfs(&self) -> Pfs<'a, I> {
        *self.pfs
    }

    /// The index of the file's inode.
    pub closed spec fn spec_inode(&self) -> usize {
        self.inode
    }

    /// The file's inode.
    pub open spec fn spec_inode_ref(&self) -> Inode {
        self.spec_pfs().spec_inodes()[self.spec_inode() as int]
    }

    /// The file's bytes.
    pub open spec fn content(&self) -> Seq<u8> {
        self.spec_pfs().file_content(self.spec_inode() as int)
    }

    /// A handle on the file of inode `inode`.
    pub fn new(pfs: Arc<Pfs<'a, I>>, inode: usize) -> (r: Self)
        requires
            inode < pfs.spec_inodes().len(),
        ensures
            r.spec_pfs() == *pfs,
            r.spec_inode() == inode,
    {
        Self { pfs, inode }
    }

    fn inode_ref(&self) -> (r: &Inode)
        ensures
            *r == self.spec_inode_ref(),
    {
        proof {
            use_type_invariant(self);
        }
        self.pfs.inode(self.inode)
    }

    /// The index of the file's inode.
    pub fn inode_index(&self) -> (r: usize)
        ensures
            r == self.spec_inode(),
    {
        self.inode
    }

    pub fn mode(&self) -> (r: u16)
        ensures
            r == self.spec_inode_ref().spec_raw().mode,
    {
        self.inode_ref().mode()
    }

    pub fn flags(&self) -> (r: u32)
        ensures
            r == self.spec_inode_ref().spec_raw().flags,
    {
        self.inode_ref().flags().value()
    }

    /// The file's size in bytes.
    pub fn len(&self) -> (r: u64)
        ensures
            r == self.spec_inode_ref().spec_raw().size,
    {
        self.inode_ref().size()
    }

    pub fn compressed_len(&self) -> (r: u64)
        ensures
            r == self.spec_inode_ref().spec_raw().size_compressed,
    {
        self.inode_ref().compressed_len()
    }

    pub fn atime(&self) -> (r: u64)
        ensures
            r == self.spec_inode_ref().spec_raw().atime,
    {
        self.inode_ref().atime()
    }

    pub fn mtime(&self) -> (r: u64)
        ensures
            r == self.spec_inode_ref().spec_raw().mtime,
    {
        self.inode_ref().mtime()
    }

    pub fn ctime(&self) -> (r: u64)
        ensures
            r == self.spec_inode_ref().spec_raw().ctime,
    {
        self.inode_ref().ctime()
    }

    pub fn birthtime(&self) -> (r: u64)
        ensures
            r == self.spec_inode_ref().spec_raw().birthtime,
    {
        self.inode_ref().birthtime()
    }

    pub fn mtimensec(&self) -> (r: u32)
        ensures
            r == self.spec_inode_ref().spec_raw().mtimensec,
    {
        self.inode_ref().mtimensec()
    }

    pub fn atimensec(&self) -> (r: u32)
        ensures
            r == self.spec_inode_ref().spec_raw().atimensec,
    {
        self.inode_ref().atimensec()
    }

    pub fn ctimensec(&self) -> (r: u32)
        ensures
            r == self.spec_inode_ref().spec_raw().ctimensec,
    {
        self.inode_ref().ctimensec()
    }

    pub fn birthnsec(&self) -> (r: u32)
        ensures
            r == self.spec_inode_ref().spec_raw().birthnsec,
    {
        self.inode_ref().birthnsec()
    }

    pub fn uid(&self) -> (r: u32)
        ensures
            r == self.spec_inode_ref().spec_raw().uid,
    {
        self.inode_ref().uid()
    }

    pub fn gid(&self) -> (r: u32)
        ensures
            r == self.spec_inode_ref().spec_raw().gid,
    {
        self.inode_ref().gid()
    }

    /// Whether the file's data is PFSC-compressed.
    pub fn is_compressed(&self) -> (r: bool)
        ensures
            r == (self.spec_inode_ref().spec_raw().flags & 1 != 0),
    {
        self.inode_ref().flags().is_compressed()
    }

    /// Whether the file is empty.
    pub fn is_empty(&self) -> (r: bool)
        ensures
            r == (self.spec_inode_ref().spec_raw().size == 0),
    {
        self.len() == 0
    }

    /// The file's bytes as a borrowed slice, without a copy: only where the
    /// PFS was opened over plaintext bytes, the file is not compressed and
    /// its blocks are contiguous (or it is empty).
    pub fn as_slice(&self) -> (r: Option<&'a [u8]>)
        ensures
            r matches Some(s) ==> (self.spec_pfs().spec_data() matches Some(d) && (
                (self.spec_inode_ref().spec_raw().size == 0 && s@.len() == 0)
                || (self.spec_inode_ref().contiguous_start() matches Some(start) && s@ == d.subrange(
                    start * self.spec_pfs().spec_block_size(),
                    start * self.spec_pfs().spec_block_size() + self.spec_inode_ref().spec_raw().size,
                )))),
            r matches Some(s) ==> (self.spec_inode_ref().spec_raw().size == 0 ==> s@.len() == 0),
            self.spec_pfs().spec_data() matches Some(d) ==> (self.spec_inode_ref().spec_raw().flags & 1
                == 0 && self.spec_inode_ref().spec_raw().size > 0 && (self.spec_inode_ref().contiguous_start() is None
                || self.spec_inode_ref().contiguous_start().unwrap() * self.spec_pfs().spec_block_size()
                + self.spec_inode_ref().spec_raw().size > d.len()) ==> r is None),
            self.spec_pfs().spec_data() matches Some(d) ==> (self.spec_inode_ref().spec_raw().flags & 1
                == 0 && self.spec_inode_ref().spec_raw().size > 0 && (self.spec_inode_ref().contiguous_start() matches Some(st))
                && self.spec_inode_ref().contiguous_start().unwrap() * self.spec_pfs().spec_block_size()
                + self.spec_inode_ref().spec_raw().size <= d.len() ==> (r matches Some(s) && s@ == d.subrange(
                self.spec_inode_ref().contiguous_start().unwrap() * self.spec_pfs().spec_block_size(),
                self.spec_inode_ref().contiguous_start().unwrap() * self.spec_pfs().spec_block_size()
                    + self.spec_inode_ref().spec_raw().size,
            ))),
            self.spec_pfs().spec_data() is None ==> r is None,
            self.spec_inode_ref().spec_raw().flags & 1 != 0 ==> r is None,
            self.spec_pfs().spec_data() is Some && self.spec_inode_ref().spec_raw().flags & 1 == 0
                && self.spec_inode_ref().spec_raw().size == 0 ==> r is Some,
    {
        let data = match self.pfs.data() {
            Some(d) => d,
            None => {
                return None;
            },
        };
        if self.is_compressed() {
            return None;
        }
        let inode = self.inode_ref();
        if inode.size() == 0 {
            return Some(empty_slice(data));
        }
        let (start_block, _) = match inode.contiguous_blocks() {
            Some(v) => v,
            None => {
                return None;
            },
        };
        let block_size = self.pfs.block_size() as u64;
        proof {
            crate::inode::lemma_block_offset(start_block, block_size as u32);
        }
        let start = start_block as u64 * block_size;
        if start > data.len() as u64 || inode.size() > data.len() as u64 - start {
            return None;
        }
        let (_, tail) = data.split_at(start as usize);
        let (body, _) = tail.split_at(inode.size() as usize);
        Some(body)
    }

    /// Reads the file at `offset` into `buf` without any cursor.
    pub fn read_at(&self, offset: u64, buf: &mut [u8]) -> (r: Result<usize, ImageError>)
        ensures
            final(buf)@.len() == old(buf)@.len(),
            old(buf)@.len() == 0 || offset >= self.content().len() ==> r == Ok::<usize, ImageError>(0)
                && final(buf)@ == old(buf)@,
            self.spec_pfs().spec_image().never_fails() ==> (r is Ok <==> self.spec_pfs().range_readable(
                self.spec_inode() as int,
                offset as int,
                wanted(old(buf)@.len() as int, self.content().len() - offset),
            )),
            r matches Ok(n) ==> offset < self.content().len() ==> n == if old(buf)@.len()
                < self.content().len() - offset {
                old(buf)@.len() as int
            } else {
                self.content().len() - offset
            },
            r matches Ok(n) ==> read_ok(
                self.content(),
                offset as int,
                old(buf)@.len() as int,
                n as int,
                final(buf)@,
            ),
    {
        proof {
            use_type_invariant(self);
        }
        pfs_read_at(&*self.pfs, self.inode, offset, buf)
    }

    /// A reader with its own cursor, starting at the beginning.
    pub fn reader(&self) -> (r: FileReader<'a, I>)
        ensures
            r.spec_pos() == 0,
            r.spec_file().spec_pfs() == self.spec_pfs(),
            r.spec_file().spec_inode() == self.spec_inode(),
    {
        proof {
            use_type_invariant(self);
        }
        FileReader { file: File { pfs: Arc::clone(&self.pfs), inode: self.inode }, pos: 0 }
    }

    /// The file viewed as an image, to open a PFS inside it or to
    /// decompress it.
    pub fn into_image(self) -> (r: PfsFileImage<'a, I>)
        ensures
            r.content() == self.content(),
    {
        proof {
            use_type_invariant(&self);
        }
        PfsFileImage { pfs: self.pfs, inode: self.inode }
    }
}

/// An empty slice borrowed from `data`.
fn empty_slice<'a>(data: &'a [u8]) -> (r: &'a [u8])
    ensures
        r@.len() == 0,
{
    let (e, _) = data.split_at(0);
    e
}

impl Inode {
    /// The first block of a contiguous layout, if the inode has one.
    pub open spec fn contiguous_start(&self) -> Option<u32> {
        if self.spec_blocks() == 0 {
            None
        } else if self.spec_direct()[1] == 0xFFFF_FFFFu32 || self.spec_blocks() == 1 {
            Some(self.spec_direct()[0])
        } else {
            None
        }
    }
}

/// Where to move a cursor to.
#[derive(Debug, Clone, Copy, PartialEq, Eq)]
pub enum SeekFrom {
    Start(u64),
    End(i64),
    Current(i64),
}

/// A file with a cursor, for reading it in sequence.
pub struct FileReader<'a, I: Image> {
    file: File<'a, I>,
    pos: u64,
}

impl<'a, I: Image> FileReader<'a, I> {
    /// The file being read.
    pub closed spec fn spec_file(&self) -> File<'a, I> {
        self.file
    }

    /// The cursor.
    pub closed spec fn spec_pos(&self) -> u64 {
        self.pos
    }

    /// Reads at the cursor and moves it past what was read.
    pub fn read(&mut self, buf: &mut [u8]) -> (r: Result<usize, ImageError>)
        ensures
            final(buf)@.len() == old(buf)@.len(),
            final(self).spec_file() == old(self).spec_file(),
            r matches Ok(n) ==> read_ok(
                old(self).spec_file().content(),
                old(self).spec_pos() as int,
                old(buf)@.len() as int,
                n as int,
                final(buf)@,
            ) && final(self).spec_pos() == old(self).spec_pos() + n,
            r is Err ==> final(self).spec_pos() == old(self).spec_pos(),
    {
        let n = self.file.read_at(self.pos, buf)?;
        proof {
            if n > 0 {
                assert(self.pos + n <= self.file.content().len());
            }
        }
        self.pos = self.pos + n as u64;
        Ok(n)
    }

    /// Moves the cursor: from the start, from the end of the file or from
    /// where it is; a position before the start is refused.
    pub fn seek(&mut self, pos: SeekFrom) -> (r: Result<u64, ImageError>)
        ensures
            final(self).spec_file() == old(self).spec_file(),
            ({
                let target = match pos {
                    SeekFrom::Start(o) => o as int,
                    SeekFrom::End(d) => old(self).spec_file().spec_inode_ref().spec_raw().size + d,
                    SeekFrom::Current(d) => old(self).spec_pos() + d,
                };
                &&& 0 <= target <= u64::MAX ==> r == Ok::<u64, ImageError>(target as u64) && final(self).spec_pos() == target
                &&& !(0 <= target <= u64::MAX) ==> r == Err::<u64, ImageError>(ImageError::InvalidInput) && final(self).spec_pos() == old(self).spec_pos()
            }),
    {
        let target: i128 = match pos {
            SeekFrom::Start(o) => o as i128,
            SeekFrom::End(d) => self.file.len() as i128 + d as i128,
            SeekFrom::Current(d) => self.pos as i128 + d as i128,
        };
        if target < 0 || target > u64::MAX as i128 {
            return Err(ImageError::InvalidInput);
        }
        self.pos = target as u64;
        Ok(self.pos)
    }
}

/// A file of a PFS viewed as an image: offsets are translated through the
/// file's block map.
pub struct PfsFileImage<'a, I: Image> {
    pfs: Arc<Pfs<'a, I>>,
    inode: usize,
}

impl<'a, I: Image> PfsFileImage<'a, I> {
    #[verifier::type_invariant]
    spec fn inv(self) -> bool {
        self.inode < (*self.pfs).spec_inodes().len()
    }

    /// The PFS that holds the file.
    pub closed spec fn spec_pfs(&self) -> Pfs<'a, I> {
        *self.pfs
    }

    /// The index of the file's inode.
    pub closed spec fn spec_inode(&self) -> usize {
        self.inode
    }

    /// The PFS that holds the file.
    pub fn pfs(&self) -> (r: &Arc<Pfs<'a, I>>)
        ensures
            **r == self.spec_pfs(),
    {
        &self.pfs
    }

    /// The index of the file's inode.
    pub fn inode_index(&self) -> (r: usize)
        ensures
            r == self.spec_inode(),
    {
        self.inode
    }
}

impl<'a, I: crate::image::HasEncryption> crate::image::HasEncryption for PfsFileImage<'a, I> {
    fn xts_keys(&self) -> ([u8; 16], [u8; 16]) {
        self.pfs.image().xts_keys()
    }

    fn xts_encrypted_start(&self) -> usize {
        self.pfs.image().xts_encrypted_start()
    }
}

impl<'a, I: Image> Image for PfsFileImage<'a, I> {
    /// Reads never fail where the outer image's do not and every byte of
    /// the file is readable.
    open spec fn never_fails(&self) -> bool {
        self.spec_pfs().spec_image().never_fails() && self.spec_pfs().range_readable(
            self.spec_inode() as int,
            0,
            self.content().len() as int,
        )
    }

    open spec fn content(&self) -> Seq<u8> {
        self.spec_pfs().file_content(self.spec_inode() as int)
    }

    fn read_at(&self, offset: u64, output_buf: &mut [u8]) -> (r: Result<usize, ImageError>)
        ensures
            old(output_buf)@.len() == 0 || offset >= self.content().len() ==> r == Ok::<usize, ImageError>(0)
                && final(output_buf)@ == old(output_buf)@,
            self.spec_pfs().spec_image().never_fails() ==> (r is Ok <==> self.spec_pfs().range_readable(
                self.spec_inode() as int,
                offset as int,
                wanted(old(output_buf)@.len() as int, self.content().len() - offset),
            )),
            r matches Ok(n) ==> offset < self.content().len() ==> n == if old(output_buf)@.len()
                < self.content().len() - offset {
                old(output_buf)@.len() as int
            } else {
                self.content().len() - offset
            },
    {
        proof {
            use_type_invariant(self);
        }
        pfs_read_at(&*self.pfs, self.inode, offset, output_buf)
    }

    fn len(&self) -> (r: u64) {
        proof {
            use_type_invariant(self);
        }
        self.pfs.inode(self.inode).size()
    }
}

} // verus!
