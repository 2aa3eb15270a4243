use orbis::directory::{DirEntry, Directory, OpenError as DirOpenError};
use orbis::file::{File, SeekFrom};
use orbis::header::{PfsHeader, ReadError};
use orbis::image::{Image, UnencryptedSlice};
use orbis::{open_image, open_slice, open_slice_unencrypted, OpenError, OpenImageError, OpenSliceError};
use std::sync::Arc;

fn put_u16(b: &mut [u8], at: usize, v: u16) {
    b[at..at + 2].copy_from_slice(&v.to_le_bytes());
}

fn put_u32(b: &mut [u8], at: usize, v: u32) {
    b[at..at + 4].copy_from_slice(&v.to_le_bytes());
}

fn put_u64(b: &mut [u8], at: usize, v: u64) {
    b[at..at + 8].copy_from_slice(&v.to_le_bytes());
}

/// A superblock in a block of `bs` bytes (at least 0x380).
fn superblock(bs: u32, mode: u16, inode_count: u64, inode_blocks: u64, root: u64) -> Vec<u8> {
    let mut b = vec![0u8; std::cmp::max(bs as usize, 0x380)];
    put_u64(&mut b, 0x00, 1);
    put_u64(&mut b, 0x08, 20130315);
    put_u16(&mut b, 0x1C, mode);
    put_u32(&mut b, 0x20, bs);
    put_u64(&mut b, 0x30, inode_count);
    put_u64(&mut b, 0x40, inode_blocks);
    put_u64(&mut b, 0x48, root);
    for i in 0..16 {
        b[0x370 + i] = i as u8;
    }
    b
}

/// An unsigned inode record.
fn inode(mode: u16, size: u64, blocks: u32, direct: [u32; 12], indirect: [u32; 5]) -> Vec<u8> {
    let mut b = vec![0u8; 168];
    put_u16(&mut b, 0, mode);
    put_u64(&mut b, 0x08, size);
    put_u64(&mut b, 0x10, size);
    put_u32(&mut b, 0x48, 7);
    put_u32(&mut b, 0x60, blocks);
    for (i, d) in direct.iter().enumerate() {
        put_u32(&mut b, 100 + 4 * i, *d);
    }
    for (i, d) in indirect.iter().enumerate() {
        put_u32(&mut b, 148 + 4 * i, *d);
    }
    b
}

/// An image of `nblocks` blocks of `bs` bytes with the superblock in block
/// 0 and the inode records from block 1 on.
fn image(bs: u32, nblocks: usize, inodes: &[Vec<u8>], root: u64) -> Vec<u8> {
    let mut img = vec![0u8; bs as usize * nblocks];
    let sb = superblock(bs, 0, inodes.len() as u64, 1, root);
    img[..sb.len()].copy_from_slice(&sb);
    let mut at = bs as usize;
    for i in inodes {
        img[at..at + i.len()].copy_from_slice(i);
        at += i.len();
    }
    img
}

fn dirent(ino: u32, ty: u32, name: &[u8], size: u32) -> Vec<u8> {
    let mut b = vec![0u8; size as usize];
    put_u32(&mut b, 0, ino);
    put_u32(&mut b, 4, ty);
    put_u32(&mut b, 8, name.len() as u32);
    put_u32(&mut b, 12, size);
    b[16..16 + name.len()].copy_from_slice(name);
    b
}

#[test]
fn empty_plaintext_image_with_one_file() {
    let data = image(0x10000, 2, &[inode(0x8000, 0, 0, [0; 12], [0; 5])], 0);
    let pfs = open_slice_unencrypted(&data).unwrap();
    assert_eq!(pfs.inode_count(), 1);
    assert_eq!(pfs.block_size(), 0x10000);
    let file = File::new(pfs.clone(), 0);
    let mut buf = [0u8; 16];
    assert_eq!(file.read_at(0, &mut buf).unwrap(), 0);
    assert_eq!(file.as_slice(), Some(&[][..]));
    assert!(file.is_empty());
    assert_eq!(file.mode(), 0x8000);
    assert_eq!(file.uid(), 7);
}

#[test]
fn contiguous_unsigned_inode() {
    let bs = 512u32;
    let mut direct = [0u32; 12];
    direct[0] = 100;
    direct[1] = 0xFFFF_FFFF;
    let size = 4 * bs as u64;
    let mut data = image(bs, 104, &[inode(0x8000, size, 4, direct, [0; 5])], 0);
    for (i, b) in data[100 * 512..104 * 512].iter_mut().enumerate() {
        *b = (i % 251) as u8;
    }
    let pfs = open_slice_unencrypted(&data).unwrap();
    assert_eq!(pfs.block_map(0), &[100, 101, 102, 103]);
    // The map covers the file, and by less than a block more.
    let covered = pfs.block_map(0).len() as u64 * bs as u64;
    assert!(covered >= size && covered < size + bs as u64);
    let file = File::new(pfs.clone(), 0);
    // One read at one and a half blocks lands half way into block 101.
    let mut buf = [0u8; 16];
    assert_eq!(file.read_at(768, &mut buf).unwrap(), 16);
    let phys = 101 * 512 + 256;
    assert_eq!(&buf[..], &data[phys..phys + 16]);
    // The zero-copy view is the contiguous run.
    assert_eq!(file.as_slice().unwrap(), &data[100 * 512..104 * 512]);
}

#[test]
fn fragmented_file_with_single_indirect() {
    let bs = 512u32;
    let direct: [u32; 12] = [10, 12, 14, 16, 18, 20, 22, 24, 26, 28, 30, 32];
    let indirect = [40u32, 0, 0, 0, 0];
    let mut data = image(bs, 64, &[inode(0x8000, 20 * 512, 20, direct, indirect)], 0);
    let entries: [u32; 8] = [50, 51, 52, 53, 54, 55, 56, 57];
    for (i, e) in entries.iter().enumerate() {
        put_u32(&mut data, 40 * 512 + 4 * i, *e);
    }
    // Pointers past the eighth are not needed.
    put_u32(&mut data, 40 * 512 + 32, 999);
    let pfs = open_slice_unencrypted(&data).unwrap();
    let mut expected: Vec<u32> = direct.to_vec();
    expected.extend_from_slice(&entries);
    assert_eq!(pfs.block_map(0), &expected[..]);
    assert_eq!(pfs.block_map(0).len(), 20);
}

#[test]
fn block_map_runs_out_of_pointers() {
    let bs = 512u32;
    let direct: [u32; 12] = [2; 12];
    // Neither indirect block holds any non-empty pointer block: the maps
    // cannot reach the block count.
    let mut data = image(bs, 8, &[inode(0x8000, 0, 20000, direct, [3, 4, 0, 0, 0])], 0);
    for i in 0..128 {
        put_u32(&mut data, 4 * 512 + 4 * i, 5);
    }
    let r = open_slice_unencrypted(&data);
    match r {
        Err(OpenSliceError::Open { source: OpenError::LoadBlockMapFailed { inode: 0, .. } }) => {}
        other => panic!("unexpected: {:?}", other.map(|_| ())),
    }
}

#[test]
fn directory_skips_self_and_parent() {
    let bs = 512u32;
    let mut direct = [0u32; 12];
    direct[0] = 3;
    let root = inode(0x4000, 512, 1, direct, [0; 5]);
    let a = inode(0x8000, 0, 0, [0; 12], [0; 5]);
    let b = inode(0x4000, 0, 0, [0; 12], [0; 5]);
    let mut data = image(bs, 8, &[root, a, b], 0);
    let mut at = 3 * 512;
    for d in [
        dirent(0, 4, b".", 24),
        dirent(0, 5, b"..", 24),
        dirent(1, 2, b"a", 24),
        dirent(2, 3, b"b", 24),
    ] {
        data[at..at + d.len()].copy_from_slice(&d);
        at += d.len();
    }
    let pfs = open_slice_unencrypted(&data).unwrap();
    let entries = Directory::root(&pfs).open().unwrap();
    assert_eq!(entries.names(), vec![b"a".to_vec(), b"b".to_vec()]);
    assert!(matches!(entries.get(b"a"), Some(DirEntry::File(f)) if f.inode_index() == 1));
    assert!(matches!(entries.get(b"b"), Some(DirEntry::Directory(_))));
    assert!(entries.get(b".").is_none());
}

#[test]
fn directory_names_are_sorted_and_unique() {
    let bs = 1024u32;
    let mut direct = [0u32; 12];
    direct[0] = 3;
    direct[1] = 4;
    let root = inode(0x4000, 2048, 2, direct, [0; 5]);
    let f = inode(0x8000, 0, 0, [0; 12], [0; 5]);
    let mut data = image(bs, 8, &[root, f.clone(), f.clone(), f], 0);
    let mut at = 3 * 1024;
    for d in [dirent(1, 2, b"zeta", 24), dirent(2, 2, b"alpha", 24), dirent(1, 2, b"mid", 24)] {
        data[at..at + d.len()].copy_from_slice(&d);
        at += d.len();
    }
    let mut at = 4 * 1024;
    for d in [dirent(3, 2, b"alpha", 24), dirent(2, 2, b"al", 24)] {
        data[at..at + d.len()].copy_from_slice(&d);
        at += d.len();
    }
    let pfs = open_slice_unencrypted(&data).unwrap();
    let mut entries = Directory::root(&pfs).open().unwrap();
    let names = entries.names();
    assert_eq!(names, vec![b"al".to_vec(), b"alpha".to_vec(), b"mid".to_vec(), b"zeta".to_vec()]);
    // The last record of a name wins.
    assert!(matches!(entries.get(b"alpha"), Some(DirEntry::File(f)) if f.inode_index() == 3));
    assert!(entries.remove(b"mid").is_some());
    assert_eq!(entries.len(), 3);
}

#[test]
fn directory_errors() {
    let bs = 512u32;
    let mut direct = [0u32; 12];
    direct[0] = 3;
    let root = inode(0x4000, 512, 1, direct, [0; 5]);
    let base = image(bs, 8, &[root], 0);

    let mut data = base.clone();
    let d = dirent(0, 9, b"x", 24);
    data[3 * 512..3 * 512 + 24].copy_from_slice(&d);
    let pfs = open_slice_unencrypted(&data).unwrap();
    assert!(matches!(
        Directory::root(&pfs).open(),
        Err(DirOpenError::DirentUnknownType { block: 3, dirent: 0 })
    ));

    let mut data = base.clone();
    let d = dirent(5, 2, b"x", 24);
    data[3 * 512..3 * 512 + 24].copy_from_slice(&d);
    let pfs = open_slice_unencrypted(&data).unwrap();
    assert!(matches!(Directory::root(&pfs).open(), Err(DirOpenError::InvalidInode { inode: 5 })));

    let mut data = base.clone();
    let mut d = dirent(0, 2, b"abcdef", 24);
    put_u32(&mut d, 12, 18);
    data[3 * 512..3 * 512 + 24].copy_from_slice(&d);
    let pfs = open_slice_unencrypted(&data).unwrap();
    assert!(matches!(
        Directory::root(&pfs).open(),
        Err(DirOpenError::DirentInvalidSize { block: 3, dirent: 0 })
    ));
}

#[test]
fn header_errors() {
    let mut sb = superblock(512, 0, 1, 1, 0);
    assert!(PfsHeader::from_bytes(&sb).is_ok());
    assert_eq!(PfsHeader::from_bytes(&sb[..0x40]), Err(ReadError::ReadHeaderFailed));
    assert_eq!(PfsHeader::from_bytes(&sb[..0x100]), Err(ReadError::ReadKeySeedFailed));
    put_u64(&mut sb, 0x40, 1 << 32);
    assert_eq!(PfsHeader::from_bytes(&sb), Err(ReadError::TooManyInodeBlocks));
    put_u64(&mut sb, 0x08, 1);
    assert_eq!(PfsHeader::from_bytes(&sb), Err(ReadError::InvalidFormat));
    put_u64(&mut sb, 0x00, 2);
    assert_eq!(PfsHeader::from_bytes(&sb), Err(ReadError::InvalidVersion));
    let h = PfsHeader::from_bytes(&superblock(512, 5, 3, 1, 2)).unwrap();
    assert_eq!(h.block_size(), 512);
    assert_eq!(h.inode_count(), 3);
    assert_eq!(h.super_root_inode(), 2);
    assert!(h.mode().is_signed() && h.mode().is_encrypted() && !h.mode().is_64bits());
    assert_eq!(h.key_seed()[15], 15);
}

#[test]
fn open_errors() {
    let root = inode(0x4000, 0, 0, [0; 12], [0; 5]);
    // A block size that is not a power of two.
    let mut data = image(512, 4, &[root.clone()], 0);
    put_u32(&mut data, 0x20, 768);
    assert!(matches!(
        open_slice_unencrypted(&data),
        Err(OpenSliceError::Open { source: OpenError::InvalidBlockSize })
    ));
    // A super-root past the inodes.
    let data = image(512, 4, &[root.clone()], 1);
    assert!(matches!(
        open_slice_unencrypted(&data),
        Err(OpenSliceError::Open { source: OpenError::InvalidSuperRoot })
    ));
    // Encrypted without a key, or with too small blocks.
    let mut data = image(0x1000, 4, &[root.clone()], 0);
    put_u16(&mut data, 0x1C, 4);
    assert!(matches!(open_slice(&data, None), Err(OpenSliceError::EmptyEkpfs)));
    let mut data = image(512, 4, &[root.clone()], 0);
    put_u16(&mut data, 0x1C, 4);
    assert!(matches!(open_slice(&data, Some(&[0u8; 32])), Err(OpenSliceError::EncryptionBlockSizeTooSmall)));
    // An encrypted image behind another layer is refused.
    let mut data = image(0x1000, 4, &[root], 0);
    put_u16(&mut data, 0x1C, 4);
    let r = open_image(UnencryptedSlice::new(&data));
    assert!(matches!(r, Err(OpenImageError::UnsupportedMode { .. })));
}

#[test]
fn nested_pfs_through_file_image() {
    // The inner image is the single file of the outer one.
    let inner = image(512, 4, &[inode(0x8000, 0, 0, [0; 12], [0; 5])], 0);
    let bs = 512u32;
    let mut direct = [0u32; 12];
    direct[0] = 4;
    direct[1] = 0xFFFF_FFFF;
    let outer_inode = inode(0x8000, inner.len() as u64, 4, direct, [0; 5]);
    let mut outer = image(bs, 8, &[outer_inode], 0);
    outer[4 * 512..8 * 512].copy_from_slice(&inner);
    let pfs = open_slice(&outer, None).unwrap();
    let file = File::new(Arc::clone(&pfs), 0);
    let img = file.into_image();
    assert_eq!(img.len(), inner.len() as u64);
    let nested = open_image(img).unwrap();
    assert_eq!(nested.inode_count(), 1);
}

#[test]
fn file_reader_reads_in_sequence() {
    let bs = 512u32;
    let mut direct = [0u32; 12];
    direct[0] = 2;
    direct[1] = 5;
    let mut data = image(bs, 8, &[inode(0x8000, 700, 2, direct, [0; 5])], 0);
    for i in 0..512 {
        data[2 * 512 + i] = 1;
        data[5 * 512 + i] = 2;
    }
    let pfs = open_slice_unencrypted(&data).unwrap();
    let file = File::new(pfs.clone(), 0);
    let mut reader = file.reader();
    let mut buf = vec![0u8; 600];
    assert_eq!(reader.read(&mut buf).unwrap(), 600);
    assert!(buf[..512].iter().all(|&b| b == 1));
    assert!(buf[512..].iter().all(|&b| b == 2));
    assert_eq!(reader.read(&mut buf).unwrap(), 100);
    assert_eq!(reader.read(&mut buf).unwrap(), 0);
    assert_eq!(reader.seek(SeekFrom::End(-10)).unwrap(), 690);
    assert_eq!(reader.read(&mut buf).unwrap(), 10);
    assert!(buf[..10].iter().all(|&b| b == 2));
    assert_eq!(reader.seek(SeekFrom::Current(-700)).unwrap(), 0);
    assert!(reader.seek(SeekFrom::Current(-1)).is_err());
    assert_eq!(reader.seek(SeekFrom::Start(511)).unwrap(), 511);
    assert_eq!(reader.read(&mut buf[..2]).unwrap(), 2);
    assert_eq!(&buf[..2], &[1, 2]);
    // Not contiguous: no zero-copy view.
    assert_eq!(file.as_slice(), None);
}

#[test]
fn mode_in_words() {
    use_mode("0", 0);
    use_mode("5 (signed, encrypted)", 5);
    use_mode("2 (64-bits)", 2);
    use_mode("1f (signed, 64-bits, encrypted)", 0x1f);
}

fn use_mode(expected: &str, flags: u16) {
    assert_eq!(orbis::header::Mode { flags }.describe(), expected);
}
