//! Directories: the dirent records in a directory's blocks, and the
//! entries they name, ordered by name.

use vstd::prelude::*;

use crate::bytes::{le_value, read_u32_le, zeroed};
use crate::file::File;
use crate::image::{Image, ImageError};
use crate::inode::{block_bytes, slice_range};
use crate::name_order::{compare_names, lemma_name_lt_transitive, name_lt};
use crate::Pfs;
use std::sync::Arc;

verus! {

/// Errors of [`Directory::open`].
#[derive(Debug, Clone, Copy, PartialEq, Eq)]
pub enum OpenError {
    InvalidInode { inode: usize },
    ReadBlock { block: u32, source: ImageError },
    ReadDirEntry { source: ReadError },
    DirentInvalidSize { block: u32, dirent: usize },
    DirentUnknownType { block: u32, dirent: usize },
}

/// Errors when reading one dirent record.
#[derive(Debug, Clone, Copy, PartialEq, Eq)]
pub enum ReadError {
    IoFailed { source: ImageError },
    TooSmall,
    EndOfEntry,
}

/// The record type of a file.
pub const DIRENT_FILE: u32 = 2;

/// The record type of a directory.
pub const DIRENT_DIRECTORY: u32 = 3;

/// The record type of the directory itself (`.`).
pub const DIRENT_SELF: u32 = 4;

/// The record type of the parent directory (`..`).
pub const DIRENT_PARENT: u32 = 5;

/// The size of a dirent header.
pub const DIRENT_HEADER_SIZE: usize = 16;

/// A dirent record: inode index, type, name length, record size and name.
pub struct Dirent {
    ino: u32,
    ty: u32,
    entsize: u32,
    name: Vec<u8>,
}

/// A record that names an entry: its name, inode index and type.
pub type Record = (Seq<u8>, u32, u32);

/// The records at `b[at..]` of the directory block numbered `block`, the
/// first of them being record number `num`; self and parent records are
/// left out, and the first bad record is an error.
pub open spec fn block_records(b: Seq<u8>, at: int, num: int, block: u32, inode_count: int) -> Result<Seq<Record>, OpenError>
    decreases b.len() - at,
{
    if at < 0 || at + 16 > b.len() {
        Ok(seq![])
    } else {
        let ino = le_value(b, at, 4);
        let ty = le_value(b, at + 4, 4);
        let nl = le_value(b, at + 8, 4);
        let es = le_value(b, at + 12, 4);
        if es == 0 || at + 16 + nl > b.len() {
            Ok(seq![])
        } else if es < 16 + nl || at + es > b.len() {
            Err(OpenError::DirentInvalidSize { block, dirent: num as usize })
        } else if ino >= inode_count {
            Err(OpenError::InvalidInode { inode: ino as usize })
        } else if ty == 2 || ty == 3 {
            match block_records(b, at + es, num + 1, block, inode_count) {
                Ok(rest) => Ok(seq![(b.subrange(at + 16, at + 16 + nl), ino as u32, ty as u32)] + rest),
                Err(e) => Err(e),
            }
        } else if ty == 4 || ty == 5 {
            block_records(b, at + es, num + 1, block, inode_count)
        } else {
            Err(OpenError::DirentUnknownType { block, dirent: num as usize })
        }
    }
}

/// The records of all the blocks that `map` names, in order.
pub open spec fn dir_records(content: Seq<u8>, map: Seq<u32>, block_size: u32, inode_count: int) -> Result<Seq<Record>, OpenError>
    decreases map.len(),
{
    if map.len() == 0 {
        Ok(seq![])
    } else {
        match dir_records(content, map.drop_last(), block_size, inode_count) {
            Ok(r) => match block_records(block_bytes(content, map.last(), block_size), 0, 0, map.last(), inode_count) {
                Ok(r2) => Ok(r + r2),
                Err(e) => Err(e),
            },
            Err(e) => Err(e),
        }
    }
}

/// An error in the records of the first `k` blocks is the error of all of
/// them.
pub proof fn lemma_dir_error_stays(content: Seq<u8>, map: Seq<u32>, k: int, block_size: u32, inode_count: int, e: OpenError)
    requires
        0 <= k <= map.len(),
        dir_records(content, map.take(k), block_size, inode_count) == Err::<Seq<Record>, OpenError>(e),
    ensures
        dir_records(content, map, block_size, inode_count) == Err::<Seq<Record>, OpenError>(e),
    decreases map.len() - k,
{
    if k < map.len() {
        assert(map.take(k + 1).drop_last() =~= map.take(k));
        lemma_dir_error_stays(content, map, k + 1, block_size, inode_count, e);
    } else {
        assert(map.take(k) =~= map);
    }
}

/// Whether every block that `map` names lies within `content`.
pub open spec fn blocks_in_image(content: Seq<u8>, map: Seq<u32>, block_size: u32) -> bool {
    forall|k: int| 0 <= k < map.len() ==> (#[trigger] map[k]) * block_size + block_size <= content.len()
}

/// The inode index and type of the last record named `name`, if any.
pub open spec fn last_record(recs: Seq<Record>, name: Seq<u8>) -> Option<(u32, u32)>
    decreases recs.len(),
{
    if recs.len() == 0 {
        None
    } else if recs.last().0 == name {
        Some((recs.last().1, recs.last().2))
    } else {
        last_record(recs.drop_last(), name)
    }
}

/// `done` in front of the records of `r`, or its error.
pub open spec fn prepend(done: Seq<Record>, r: Result<Seq<Record>, OpenError>) -> Result<Seq<Record>, OpenError> {
    match r {
        Ok(x) => Ok(done + x),
        Err(e) => Err(e),
    }
}

impl Dirent {
    /// Reads the record at `b[at..]`: its header and its name.
    pub fn read(b: &[u8], at: usize) -> (r: Result<Self, ReadError>)
        ensures
            at + 16 > b@.len() ==> r == Err::<Self, ReadError>(ReadError::TooSmall),
            at + 16 <= b@.len() && le_value(b@, at + 12, 4) == 0 ==> r == Err::<Self, ReadError>(ReadError::EndOfEntry),
            at + 16 <= b@.len() && le_value(b@, at + 12, 4) != 0 && at + 16 + le_value(b@, at + 8, 4) > b@.len()
                ==> r == Err::<Self, ReadError>(ReadError::TooSmall),
            r is Err ==> at + 16 > b@.len() || le_value(b@, at + 12, 4) == 0 || at + 16 + le_value(
                b@,
                at + 8,
                4,
            ) > b@.len(),
            r matches Ok(d) ==> {
                &&& at + 16 + le_value(b@, at + 8, 4) <= b@.len()
                &&& d.spec_ino() == le_value(b@, at as int, 4)
                &&& d.spec_ty() == le_value(b@, at + 4, 4)
                &&& d.spec_entsize() == le_value(b@, at + 12, 4)
                &&& d.spec_entsize() != 0
                &&& d.spec_name() == b@.subrange(at + 16, at + 16 + le_value(b@, at + 8, 4))
            },
    {
        if b.len() < at || b.len() - at < DIRENT_HEADER_SIZE {
            return Err(ReadError::TooSmall);
        }
        let ino = read_u32_le(b, at);
        let ty = read_u32_le(b, at + 4);
        let namelen = read_u32_le(b, at + 8);
        let entsize = read_u32_le(b, at + 12);
        if entsize == 0 {
            return Err(ReadError::EndOfEntry);
        }
        if ((b.len() - at - DIRENT_HEADER_SIZE) as u64) < namelen as u64 {
            return Err(ReadError::TooSmall);
        }
        let name = slice_range(b, at + DIRENT_HEADER_SIZE, namelen as usize);
        Ok(Dirent { ino, ty, entsize, name })
    }

    pub closed spec fn spec_ino(&self) -> u32 {
        self.ino
    }

    pub closed spec fn spec_ty(&self) -> u32 {
        self.ty
    }

    pub closed spec fn spec_entsize(&self) -> u32 {
        self.entsize
    }

    pub closed spec fn spec_name(&self) -> Seq<u8> {
        self.name@
    }

    /// The inode index.
    pub fn inode(&self) -> (r: usize)
        ensures
            r == self.spec_ino(),
    {
        self.ino as usize
    }

    /// The record type.
    pub fn ty(&self) -> (r: u32)
        ensures
            r == self.spec_ty(),
    {
        self.ty
    }

    /// The name.
    pub fn name(&self) -> (r: &[u8])
        ensures
            r@ == self.spec_name(),
    {
        self.name.as_slice()
    }

    /// The padding after the name, or `None` where the record size does
    /// not cover the header and the name.
    pub fn padding_size(&self) -> (r: Option<usize>)
        ensures
            r matches Some(p) ==> p == self.spec_entsize() - 16 - self.spec_name().len(),
            r is None <==> self.spec_entsize() < 16 + self.spec_name().len(),
    {
        if self.entsize < 16 || ((self.entsize - 16) as usize) < self.name.len() {
            None
        } else {
            Some((self.entsize - 16) as usize - self.name.len())
        }
    }
}

/// A directory of a PFS: a shared handle on the PFS and an inode index.
pub struct Directory<'a, I: Image> {
    pfs: Arc<Pfs<'a, I>>,
    inode: usize,
}

/// An entry of a directory.
pub enum DirEntry<'a, I: Image> {
    Directory(Directory<'a, I>),
    File(File<'a, I>),
}

/// The inode index and record type that an entry stands for.
pub open spec fn entry_view<'a, I: Image>(e: DirEntry<'a, I>) -> (u32, u32) {
    match e {
        DirEntry::Directory(d) => (d.spec_inode() as u32, 3u32),
        DirEntry::File(f) => (f.spec_inode() as u32, 2u32),
    }
}

/// Whether the names of `items` ascend strictly.
pub open spec fn names_ascend<T>(items: Seq<(Vec<u8>, T)>) -> bool {
    forall|i: int| 0 <= i < items.len() - 1 ==> name_lt((#[trigger] items[i]).0@, items[i + 1].0@)
}

/// Names that ascend from one to the next ascend between any two, so none
/// appears twice.
pub proof fn lemma_names_strictly_ascending<T>(items: Seq<(Vec<u8>, T)>)
    requires
        names_ascend(items),
    ensures
        forall|i: int, j: int| 0 <= i < j < items.len() ==> name_lt(#[trigger] items[i].0@, #[trigger] items[j].0@),
{
    assert forall|i: int, j: int| 0 <= i < j < items.len() implies name_lt(#[trigger] items[i].0@, #[trigger] items[j].0@) by {
        lemma_ascend_from(items, i, j);
    }
}

proof fn lemma_ascend_from<T>(items: Seq<(Vec<u8>, T)>, i: int, j: int)
    requires
        names_ascend(items),
        0 <= i < j < items.len(),
    ensures
        name_lt(items[i].0@, items[j].0@),
    decreases j - i,
{
    if j > i + 1 {
        lemma_ascend_from(items, i, j - 1);
        assert(name_lt(items[j - 1].0@, items[j].0@));
        lemma_name_lt_transitive(items[i].0@, items[j - 1].0@, items[j].0@);
    }
}

impl<'a, I: Image> Directory<'a, I> {
    #[verifier::type_invariant]
    spec fn inv(self) -> bool {
        self.inode < (*self.pfs).spec_inodes().len()
    }

    /// The PFS that holds the directory.
    pub closed spec fn spec_pfs(&self) -> Pfs<'a, I> {
        *self.pfs
    }

    /// The index of the directory's inode.
    pub closed spec fn spec_inode(&self) -> usize {
        self.inode
    }

    /// The directory's inode.
    pub open spec fn spec_inode_ref(&self) -> crate::inode::Inode {
        self.spec_pfs().spec_inodes()[self.spec_inode() as int]
    }

    /// A handle on the directory of inode `inode`.
    pub fn new(pfs: Arc<Pfs<'a, I>>, inode: usize) -> (r: Self)
        requires
            inode < pfs.spec_inodes().len(),
        ensures
            r.spec_pfs() == *pfs,
            r.spec_inode() == inode,
    {
        Self { pfs, inode }
    }

    /// The super-root directory of `pfs`.
    pub fn root(pfs: &Arc<Pfs<'a, I>>) -> (r: Self)
        ensures
            r.spec_pfs() == **pfs,
            r.spec_inode() == pfs.spec_root(),
    {
        let root = pfs.root_index();
        Self { pfs: Arc::clone(pfs), inode: root }
    }

    fn inode_ref(&self) -> (r: &crate::inode::Inode)
        ensures
            *r == self.spec_inode_ref(),
    {
        proof {
            use_type_invariant(self);
        }
        self.pfs.inode(self.inode)
    }

    pub fn mode(&self) -> (r: u16)
        ensures
            r == self.spec_inode_ref().spec_raw().mode,
    {
        self.inode_ref().mode()
    }

    pub fn flags(&self) -> (r: u32)
        ensures
            r == self.spec_inode_ref().spec_raw().flags,
    {
        self.inode_ref().flags().value()
    }

    pub fn atime(&self) -> (r: u64)
        ensures
            r == self.spec_inode_ref().spec_raw().atime,
    {
        self.inode_ref().atime()
    }

    pub fn mtime(&self) -> (r: u64)
        ensures
            r == self.spec_inode_ref().spec_raw().mtime,
    {
        self.inode_ref().mtime()
    }

    pub fn ctime(&self) -> (r: u64)
        ensures
            r == self.spec_inode_ref().spec_raw().ctime,
    {
        self.inode_ref().ctime()
    }

    pub fn birthtime(&self) -> (r: u64)
        ensures
            r == self.spec_inode_ref().spec_raw().birthtime,
    {
        self.inode_ref().birthtime()
    }

    pub fn mtimensec(&self) -> (r: u32)
        ensures
            r == self.spec_inode_ref().spec_raw().mtimensec,
    {
        self.inode_ref().mtimensec()
    }

    pub fn atimensec(&self) -> (r: u32)
        ensures
            r == self.spec_inode_ref().spec_raw().atimensec,
    {
        self.inode_ref().atimensec()
    }

    pub fn ctimensec(&self) -> (r: u32)
        ensures
            r == self.spec_inode_ref().spec_raw().ctimensec,
    {
        self.inode_ref().ctimensec()
    }

    pub fn birthnsec(&self) -> (r: u32)
        ensures
            r == self.spec_inode_ref().spec_raw().birthnsec,
    {
        self.inode_ref().birthnsec()
    }

    pub fn uid(&self) -> (r: u32)
        ensures
            r == self.spec_inode_ref().spec_raw().uid,
    {
        self.inode_ref().uid()
    }

    pub fn gid(&self) -> (r: u32)
        ensures
            r == self.spec_inode_ref().spec_raw().gid,
    {
        self.inode_ref().gid()
    }

    /// The records of this directory's blocks.
    pub open spec fn records(&self) -> Result<Seq<Record>, OpenError> {
        dir_records(
            self.spec_pfs().spec_image().content(),
            self.spec_pfs().spec_block_maps()[self.spec_inode() as int],
            self.spec_pfs().spec_block_size(),
            self.spec_pfs().spec_inodes().len() as int,
        )
    }

    /// Puts into `items` the entries that the records of one directory
    /// block `b` call for.
    #[verifier::rlimit(40)]
    fn read_block_entries(
        &self,
        b: &Vec<u8>,
        block_num: u32,
        items: &mut Vec<(Vec<u8>, DirEntry<'a, I>)>,
        Ghost(recs): Ghost<Seq<Record>>,
    ) -> (r: Result<(), OpenError>)
        requires
            tracks(old(items)@, recs, self.spec_pfs()),
        ensures
            r is Ok ==> (block_records(b@, 0, 0, block_num, self.spec_pfs().spec_inodes().len() as int) matches Ok(x)
                && tracks(final(items)@, recs + x, self.spec_pfs())),
            r matches Err(e) ==> block_records(b@, 0, 0, block_num, self.spec_pfs().spec_inodes().len() as int)
                == Err::<Seq<Record>, OpenError>(e),
    {
        proof {
            use_type_invariant(self);
        }
        let pfs = &self.pfs;
        let inode_count = pfs.inode_count();
        let ghost ic = inode_count as int;
        let ghost whole = block_records(b@, 0, 0, block_num, ic);
        let _ = b.len();
        let mut at: usize = 0;
        let mut num: usize = 0;
        let ghost mut done: Seq<Record> = seq![];
        proof {
            assert(done + seq![] =~= done);
            assert(recs + done =~= recs);
            match block_records(b@, 0, 0, block_num, ic) {
                Ok(x) => {
                    assert(done + x =~= x);
                },
                Err(_) => {},
            }
        }
        loop
            invariant
                at <= b@.len(),
                num <= at,
                b@.len() <= usize::MAX,
                whole == block_records(b@, 0, 0, block_num, ic),
                whole == prepend(done, block_records(b@, at as int, num as int, block_num, ic)),
                ic == self.spec_pfs().spec_inodes().len(),
                inode_count == ic,
                **pfs == self.spec_pfs(),
                tracks(items@, recs + done, self.spec_pfs()),
            decreases b@.len() - at,
        {
            let dirent = match Dirent::read(b.as_slice(), at) {
                Ok(v) => v,
                Err(_) => {
                    assert(done + seq![] =~= done);
                    return Ok(());
                },
            };
            let padding = match dirent.padding_size() {
                Some(p) => p,
                None => {
                    return Err(OpenError::DirentInvalidSize { block: block_num, dirent: num });
                },
            };
            let used = DIRENT_HEADER_SIZE + dirent.name().len();
            if b.len() - at - used < padding {
                return Err(OpenError::DirentInvalidSize { block: block_num, dirent: num });
            }
            let next = at + used + padding;
            let ino = dirent.inode();
            if ino >= inode_count {
                return Err(OpenError::InvalidInode { inode: ino });
            }
            let ty = dirent.ty();
            if ty == DIRENT_FILE || ty == DIRENT_DIRECTORY {
                let entry = if ty == DIRENT_FILE {
                    DirEntry::File(File::new(Arc::clone(pfs), ino))
                } else {
                    DirEntry::Directory(Directory { pfs: Arc::clone(pfs), inode: ino })
                };
                let ghost rec: Record = (dirent.spec_name(), ino as u32, ty);
                let ghost old_items = items@;
                let ghost e = entry;
                let name = slice_range(dirent.name(), 0, dirent.name().len());
                proof {
                    assert(dirent.spec_name().subrange(0, dirent.spec_name().len() as int) =~= dirent.spec_name());
                }
                insert_entry(items, name, entry);
                proof {
                    lemma_tracks_step(old_items, items@, recs + done, rec, e, self.spec_pfs());
                    assert((recs + done).push(rec) =~= recs + (done + seq![rec]));
                    match block_records(b@, next as int, num + 1, block_num, ic) {
                        Ok(rest) => {
                            assert(done + (seq![rec] + rest) =~= done + seq![rec] + rest);
                        },
                        Err(_) => {},
                    }
                    done = done + seq![rec];
                }
            } else if ty == DIRENT_SELF || ty == DIRENT_PARENT {
            } else {
                return Err(OpenError::DirentUnknownType { block: block_num, dirent: num });
            }
            at = next;
            num = num + 1;
        }
    }

    /// Reads the directory's entries: one per name, the last record of a
    /// name winning, ordered by name, without the self and parent records.
    ///
    /// It fails where a block cannot be read, and otherwise exactly where a
    /// record is bad, with the error of the first bad record.
    pub fn open(&self) -> (r: Result<DirEntries<'a, I>, OpenError>)
        ensures
            r matches Ok(d) ==> (self.records() matches Ok(recs) && tracks(d.spec_items(), recs, self.spec_pfs())),
            r matches Err(e) ==> (e is ReadBlock || self.records() == Err::<Seq<Record>, OpenError>(e)),
            self.spec_pfs().spec_block_maps()[self.spec_inode() as int].len() == 0 ==> r is Ok,
            self.spec_pfs().spec_image().never_fails() && blocks_in_image(
                self.spec_pfs().spec_image().content(),
                self.spec_pfs().spec_block_maps()[self.spec_inode() as int],
                self.spec_pfs().spec_block_size(),
            ) && self.records() is Ok ==> r is Ok,
            self.spec_pfs().spec_image().never_fails() && blocks_in_image(
                self.spec_pfs().spec_image().content(),
                self.spec_pfs().spec_block_maps()[self.spec_inode() as int],
                self.spec_pfs().spec_block_size(),
            ) ==> (r matches Err(e) ==> self.records() == Err::<Seq<Record>, OpenError>(e)),
    {
        proof {
            use_type_invariant(self);
        }
        let pfs = &self.pfs;
        pfs.check_invariant();
        let blocks = pfs.block_map(self.inode);
        let block_size = pfs.block_size();
        let img = pfs.image();
        let ghost ic = self.spec_pfs().spec_inodes().len() as int;
        let ghost content = img.content();
        let ghost map = blocks@;
        let mut items: Vec<(Vec<u8>, DirEntry<'a, I>)> = Vec::new();
        let mut block_data = zeroed(block_size as usize);
        let ghost mut recs: Seq<Record> = seq![];
        let mut k: usize = 0;
        proof {
            assert(map.take(0) =~= Seq::<u32>::empty());
        }
        while k < blocks.len()
            invariant
                k <= map.len(),
                map == blocks@,
                map == self.spec_pfs().spec_block_maps()[self.spec_inode() as int],
                content == self.spec_pfs().spec_image().content(),
                *img == self.spec_pfs().spec_image(),
                block_size == self.spec_pfs().spec_block_size(),
                block_size > 0,
                block_data@.len() == block_size,
                ic == self.spec_pfs().spec_inodes().len(),
                dir_records(content, map.take(k as int), block_size, ic) == Ok::<Seq<Record>, OpenError>(recs),
                tracks(items@, recs, self.spec_pfs()),
            decreases map.len() - k,
        {
            let block_num = blocks[k];
            proof {
                crate::inode::lemma_block_offset(block_num, block_size);
            }
            match img.read_exact_at(block_num as u64 * block_size as u64, block_data.as_mut_slice()) {
                Ok(()) => {},
                Err(e) => {
                    return Err(OpenError::ReadBlock { block: block_num, source: e });
                },
            }
            assert(block_data@ == block_bytes(content, block_num, block_size));
            match self.read_block_entries(&block_data, block_num, &mut items, Ghost(recs)) {
                Ok(()) => {},
                Err(e) => {
                    proof {
                        assert(map.take(k + 1).drop_last() =~= map.take(k as int));
                        assert(map.take(k + 1).last() == block_num);
                        lemma_dir_error_stays(content, map, (k + 1) as int, block_size, ic, e);
                        assert(map.take(map.len() as int) =~= map);
                    }
                    return Err(e);
                },
            }
            proof {
                assert(map.take(k + 1).drop_last() =~= map.take(k as int));
                assert(map.take(k + 1).last() == block_num);
                let x = block_records(block_data@, 0, 0, block_num, ic)->Ok_0;
                recs = recs + x;
            }
            k = k + 1;
        }
        proof {
            assert(map.take(map.len() as int) =~= map);
        }
        Ok(DirEntries { items })
    }
}

/// The PFS that an entry's handle holds.
pub open spec fn entry_pfs<'a, I: Image>(e: DirEntry<'a, I>) -> Pfs<'a, I> {
    match e {
        DirEntry::Directory(d) => d.spec_pfs(),
        DirEntry::File(f) => f.spec_pfs(),
    }
}

/// The entries of a directory, ordered by name.
pub struct DirEntries<'a, I: Image> {
    items: Vec<(Vec<u8>, DirEntry<'a, I>)>,
}

impl<'a, I: Image> DirEntries<'a, I> {
    #[verifier::type_invariant]
    spec fn inv(self) -> bool {
        names_ascend(self.items@)
    }

    /// The entries with their names, by name.
    pub closed spec fn spec_items(&self) -> Seq<(Vec<u8>, DirEntry<'a, I>)> {
        self.items@
    }

    /// The number of entries.
    pub fn len(&self) -> (r: usize)
        ensures
            r == self.spec_items().len(),
    {
        self.items.len()
    }

    /// Whether there are no entries.
    pub fn is_empty(&self) -> (r: bool)
        ensures
            r == (self.spec_items().len() == 0),
    {
        self.items.len() == 0
    }

    /// The position of the entry named `name`, if there is one.
    fn position(&self, name: &[u8]) -> (r: Option<usize>)
        ensures
            r matches Some(i) ==> i < self.spec_items().len() && self.spec_items()[i as int].0@ == name@,
            r is None ==> forall|i: int| 0 <= i < self.spec_items().len() ==> (#[trigger] self.spec_items()[i]).0@ != name@,
    {
        let mut i: usize = 0;
        while i < self.items.len()
            invariant
                i <= self.items@.len(),
                forall|k: int| 0 <= k < i ==> (#[trigger] self.items@[k]).0@ != name@,
            decreases self.items@.len() - i,
        {
            if compare_names(self.items[i].0.as_slice(), name) == 0 {
                return Some(i);
            }
            i = i + 1;
        }
        None
    }

    /// The entry named `name`.
    pub fn get(&self, name: &[u8]) -> (r: Option<&DirEntry<'a, I>>)
        ensures
            r matches Some(e) ==> exists|i: int| 0 <= i < self.spec_items().len() && (#[trigger] self.spec_items()[i]).0@ == name@ && self.spec_items()[i].1 == *e,
            r is None ==> forall|i: int| 0 <= i < self.spec_items().len() ==> (#[trigger] self.spec_items()[i]).0@ != name@,
    {
        match self.position(name) {
            Some(i) => Some(&self.items[i].1),
            None => None,
        }
    }

    /// Takes out the entry named `name`.
    pub fn remove(&mut self, name: &[u8]) -> (r: Option<DirEntry<'a, I>>)
        ensures
            r matches Some(e) ==> exists|i: int| 0 <= i < old(self).spec_items().len() && (#[trigger] old(self).spec_items()[i]).0@ == name@ && old(self).spec_items()[i].1 == e
                && final(self).spec_items() == old(self).spec_items().remove(i),
            r is None ==> final(self).spec_items() == old(self).spec_items(),
    {
        proof {
            use_type_invariant(&*self);
        }
        match self.position(name) {
            Some(i) => {
                let ghost old_items = self.items@;
                proof {
                    let s = old_items.remove(i as int);
                    assert forall|k: int| 0 <= k < s.len() - 1 implies name_lt((#[trigger] s[k]).0@, s[k + 1].0@) by {
                        if k + 1 < i {
                        } else if k + 1 == i {
                            assert(s[k] == old_items[k] && s[k + 1] == old_items[k + 2]);
                            lemma_ascend_from(old_items, k, k + 2);
                        } else {
                            assert(s[k] == old_items[k + 1] && s[k + 1] == old_items[k + 2]);
                        }
                    }
                }
                let mut items: Vec<(Vec<u8>, DirEntry<'a, I>)> = Vec::new();
                std::mem::swap(&mut self.items, &mut items);
                let (_, e) = items.remove(i);
                std::mem::swap(&mut self.items, &mut items);
                Some(e)
            },
            None => None,
        }
    }

    /// The names, in ascending order.
    pub fn names(&self) -> (r: Vec<Vec<u8>>)
        ensures
            r@.len() == self.spec_items().len(),
            forall|i: int| 0 <= i < r@.len() ==> (#[trigger] r@[i])@ == self.spec_items()[i].0@,
            forall|i: int, j: int| 0 <= i < j < r@.len() ==> name_lt(#[trigger] r@[i]@, #[trigger] r@[j]@),
    {
        proof {
            use_type_invariant(self);
            lemma_names_strictly_ascending(self.items@);
        }
        let mut r: Vec<Vec<u8>> = Vec::new();
        let mut i: usize = 0;
        while i < self.items.len()
            invariant
                i <= self.items@.len(),
                r@.len() == i,
                forall|k: int| 0 <= k < i ==> (#[trigger] r@[k])@ == self.items@[k].0@,
            decreases self.items@.len() - i,
        {
            r.push(slice_range(self.items[i].0.as_slice(), 0, self.items[i].0.len()));
            assert(self.items@[i as int].0@.subrange(0, self.items@[i as int].0@.len() as int) =~= self.items@[i as int].0@);
            i = i + 1;
        }
        assert forall|i: int, j: int| 0 <= i < j < r@.len() implies name_lt(#[trigger] r@[i]@, #[trigger] r@[j]@) by {
            assert(name_lt(self.items@[i].0@, self.items@[j].0@));
        }
        r
    }

    /// The entries with their names, by name.
    pub fn iter(&self) -> (r: &[(Vec<u8>, DirEntry<'a, I>)])
        ensures
            r@ == self.spec_items(),
    {
        self.items.as_slice()
    }

    /// The entries with their names, by name, taken out.
    pub fn into_vec(self) -> (r: Vec<(Vec<u8>, DirEntry<'a, I>)>)
        ensures
            r@ == self.spec_items(),
    {
        self.items
    }
}

/// Whether `new` is `old` with `(name, e)` put in: every entry of that
/// name holds `e`, one is there, the others were there before, and no name
/// was lost.
pub open spec fn put_in<T>(old: Seq<(Vec<u8>, T)>, new: Seq<(Vec<u8>, T)>, name: Seq<u8>, e: T) -> bool {
    &&& exists|j: int| 0 <= j < new.len() && (#[trigger] new[j]).0@ == name
    &&& forall|j: int| 0 <= j < new.len() && (#[trigger] new[j]).0@ == name ==> new[j].1 == e
    &&& forall|j: int| 0 <= j < new.len() && (#[trigger] new[j]).0@ != name ==> exists|i: int| 0 <= i < old.len() && #[trigger] old[i] == new[j]
    &&& forall|i: int| 0 <= i < old.len() ==> exists|j: int| 0 <= j < new.len() && (#[trigger] new[j]).0@ == (#[trigger] old[i]).0@
}

/// Replacing the entry of the same name keeps the names ascending.
proof fn lemma_replace_entry<T>(old: Seq<(Vec<u8>, T)>, i: int, x: (Vec<u8>, T))
    requires
        names_ascend(old),
        0 <= i < old.len(),
        old[i].0@ == x.0@,
    ensures
        names_ascend(old.update(i, x)),
        put_in(old, old.update(i, x), x.0@, x.1),
{
    let s = old.update(i, x);
    lemma_names_strictly_ascending(old);
    assert forall|k: int| 0 <= k < s.len() - 1 implies name_lt((#[trigger] s[k]).0@, s[k + 1].0@) by {
        assert(name_lt(old[k].0@, old[k + 1].0@));
    }
    assert(s[i].0@ == x.0@);
    assert forall|j: int| 0 <= j < s.len() && (#[trigger] s[j]).0@ != x.0@ implies exists|i2: int|
        0 <= i2 < old.len() && #[trigger] old[i2] == s[j] by {
        assert(old[j] == s[j]);
    }
    assert forall|j: int| 0 <= j < s.len() && (#[trigger] s[j]).0@ == x.0@ implies s[j].1 == x.1 by {
        if j != i {
            crate::name_order::lemma_name_lt_irreflexive(x.0@);
            if j < i {
                assert(name_lt(old[j].0@, old[i].0@));
            } else {
                assert(name_lt(old[i].0@, old[j].0@));
            }
        }
    }
    assert forall|i2: int| 0 <= i2 < old.len() implies exists|j: int| 0 <= j < s.len() && (#[trigger] s[j]).0@
        == (#[trigger] old[i2]).0@ by {
        assert(s[i2].0@ == old[i2].0@);
    }
}

/// Inserting a new name between the names before and after it keeps them
/// ascending.
proof fn lemma_insert_entry<T>(old: Seq<(Vec<u8>, T)>, i: int, x: (Vec<u8>, T))
    requires
        names_ascend(old),
        0 <= i <= old.len(),
        forall|k: int| 0 <= k < i ==> name_lt((#[trigger] old[k]).0@, x.0@),
        i < old.len() ==> name_lt(x.0@, old[i].0@),
    ensures
        names_ascend(old.insert(i, x)),
        put_in(old, old.insert(i, x), x.0@, x.1),
{
    let s = old.insert(i, x);
    let nm = x.0@;
    lemma_names_strictly_ascending(old);
    assert forall|k: int| 0 <= k < s.len() - 1 implies name_lt((#[trigger] s[k]).0@, s[k + 1].0@) by {
        if k + 1 < i {
            assert(name_lt(old[k].0@, old[k + 1].0@));
        } else if k + 1 == i {
        } else if k == i {
        } else {
            assert(name_lt(old[k - 1].0@, old[k].0@));
        }
    }
    assert(s[i].0@ == nm);
    assert forall|j: int| 0 <= j < s.len() && (#[trigger] s[j]).0@ != nm implies exists|i2: int|
        0 <= i2 < old.len() && #[trigger] old[i2] == s[j] by {
        if j < i {
            assert(old[j] == s[j]);
        } else {
            assert(old[j - 1] == s[j]);
        }
    }
    assert forall|j: int| 0 <= j < s.len() && (#[trigger] s[j]).0@ == nm implies s[j].1 == x.1 by {
        crate::name_order::lemma_name_lt_irreflexive(nm);
        if j < i {
            assert(name_lt(old[j].0@, nm));
        } else if j > i {
            assert(old[j - 1].0@ == nm);
            if j - 1 > i {
                assert(name_lt(old[i].0@, old[j - 1].0@));
                lemma_name_lt_transitive(nm, old[i].0@, old[j - 1].0@);
            }
        }
    }
    assert forall|i2: int| 0 <= i2 < old.len() implies exists|j: int| 0 <= j < s.len() && (#[trigger] s[j]).0@
        == (#[trigger] old[i2]).0@ by {
        if i2 < i {
            assert(s[i2].0@ == old[i2].0@);
        } else {
            assert(s[i2 + 1].0@ == old[i2].0@);
        }
    }
}

/// Puts `(name, entry)` in its place by name, replacing an entry of the
/// same name.
fn insert_entry<'a, I: Image>(items: &mut Vec<(Vec<u8>, DirEntry<'a, I>)>, name: Vec<u8>, entry: DirEntry<'a, I>)
    requires
        names_ascend(old(items)@),
    ensures
        names_ascend(final(items)@),
        put_in(old(items)@, final(items)@, name@, entry),
{
    let ghost old_items = items@;
    let mut i: usize = 0;
    while i < items.len() && compare_names(items[i].0.as_slice(), name.as_slice()) < 0
        invariant
            i <= items@.len(),
            items@ == old_items,
            forall|k: int| 0 <= k < i ==> name_lt((#[trigger] items@[k]).0@, name@),
        decreases items@.len() - i,
    {
        i = i + 1;
    }
    let ghost nm = name@;
    if i < items.len() && compare_names(items[i].0.as_slice(), name.as_slice()) == 0 {
        let ghost x = (name, entry);
        items.set(i, (name, entry));
        proof {
            lemma_replace_entry(old_items, i as int, x);
            assert(items@ == old_items.update(i as int, x));
        }
    } else {
        proof {
            if i < old_items.len() {
                crate::name_order::lemma_name_lt_total(old_items[i as int].0@, nm);
            }
        }
        let ghost x = (name, entry);
        items.insert(i, (name, entry));
        proof {
            lemma_insert_entry(old_items, i as int, x);
            assert(items@ == old_items.insert(i as int, x));
        }
    }
}

/// Whether `items` hold, one per name and by name, the entries that the
/// records `recs` call for, with handles on `pfs`.
pub open spec fn tracks<'a, I: Image>(items: Seq<(Vec<u8>, DirEntry<'a, I>)>, recs: Seq<Record>, pfs: Pfs<'a, I>) -> bool {
    &&& names_ascend(items)
    &&& forall|i: int| 0 <= i < items.len() ==> last_record(recs, (#[trigger] items[i]).0@) == Some(entry_view(items[i].1))
    &&& forall|j: int| 0 <= j < recs.len() ==> exists|i: int| 0 <= i < items.len() && (#[trigger] items[i]).0@ == (#[trigger] recs[j]).0
    &&& forall|i: int| 0 <= i < items.len() ==> entry_pfs(#[trigger] items[i].1) == pfs
}

/// Putting in the entry of one more record keeps the entries in step with
/// the records.
proof fn lemma_tracks_step<'a, I: Image>(
    old: Seq<(Vec<u8>, DirEntry<'a, I>)>,
    new: Seq<(Vec<u8>, DirEntry<'a, I>)>,
    recs: Seq<Record>,
    rec: Record,
    e: DirEntry<'a, I>,
    pfs: Pfs<'a, I>,
)
    requires
        tracks(old, recs, pfs),
        names_ascend(new),
        put_in(old, new, rec.0, e),
        entry_view(e) == (rec.1, rec.2),
        entry_pfs(e) == pfs,
    ensures
        tracks(new, recs.push(rec), pfs),
{
    let all2 = recs.push(rec);
    assert(all2.drop_last() =~= recs);
    assert forall|i: int| 0 <= i < new.len() implies last_record(all2, (#[trigger] new[i]).0@) == Some(entry_view(new[i].1)) by {
        if new[i].0@ != rec.0 {
            let i2 = choose|i2: int| 0 <= i2 < old.len() && #[trigger] old[i2] == new[i];
            assert(last_record(recs, old[i2].0@) == Some(entry_view(old[i2].1)));
        }
    }
    assert forall|j: int| 0 <= j < all2.len() implies exists|i: int| 0 <= i < new.len() && (#[trigger] new[i]).0@ == (#[trigger] all2[j]).0 by {
        if j < recs.len() {
            assert(all2[j] == recs[j]);
            let i2 = choose|i2: int| 0 <= i2 < old.len() && (#[trigger] old[i2]).0@ == recs[j].0;
            assert(old[i2].0@ == recs[j].0);
        }
    }
    assert forall|i: int| 0 <= i < new.len() implies entry_pfs(#[trigger] new[i].1) == pfs by {
        if new[i].0@ != rec.0 {
            let i2 = choose|i2: int| 0 <= i2 < old.len() && #[trigger] old[i2] == new[i];
            assert(entry_pfs(old[i2].1) == pfs);
        }
    }
}

} // verus!
