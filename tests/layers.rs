use flate2::write::ZlibEncoder;
use flate2::Compression;
use hmac::{Hmac, Mac};
use orbis::crypto::get_xts_keys;
use orbis::image::{EncryptedSlice, Image, UnencryptedSlice};
use orbis::pfsc::{OpenError, PfscImage};
use std::io::Write;

fn put_u32(b: &mut [u8], at: usize, v: u32) {
    b[at..at + 4].copy_from_slice(&v.to_le_bytes());
}

fn put_u64(b: &mut [u8], at: usize, v: u64) {
    b[at..at + 8].copy_from_slice(&v.to_le_bytes());
}

/// A PFSC image of blocks of `bs` bytes, each given as it is stored.
fn pfsc(bs: u32, size: u64, stored: &[Vec<u8>]) -> Vec<u8> {
    let mut img = vec![0u8; 48];
    img[..4].copy_from_slice(b"PFSC");
    put_u32(&mut img, 0x0C, bs);
    put_u64(&mut img, 0x10, bs as u64);
    put_u64(&mut img, 0x28, size);
    let count = size / bs as u64 + 2;
    let table_at = img.len();
    put_u64(&mut img, 0x18, table_at as u64);
    img.resize(table_at + 8 * count as usize, 0);
    let mut offsets = vec![];
    for s in stored {
        offsets.push(img.len() as u64);
        img.extend_from_slice(s);
    }
    while offsets.len() < count as usize {
        offsets.push(img.len() as u64);
    }
    for (i, o) in offsets.iter().enumerate() {
        put_u64(&mut img, table_at + 8 * i, *o);
    }
    img
}

fn zlib(data: &[u8]) -> Vec<u8> {
    let mut e = ZlibEncoder::new(Vec::new(), Compression::default());
    e.write_all(data).unwrap();
    e.finish().unwrap()
}

#[test]
fn unencrypted_slice_reads() {
    let data: Vec<u8> = (0..100u8).collect();
    let img = UnencryptedSlice::new(&data);
    let mut buf = [0u8; 10];
    assert_eq!(img.read_at(95, &mut buf).unwrap(), 5);
    assert_eq!(&buf[..5], &[95, 96, 97, 98, 99]);
    assert_eq!(img.read_at(100, &mut buf).unwrap(), 0);
    assert_eq!(img.len(), 100);
    let mut exact = [0u8; 10];
    assert!(img.read_exact_at(95, &mut exact).is_err());
    assert!(img.read_exact_at(90, &mut exact).is_ok());
    assert_eq!(exact[0], 90);
}

#[test]
fn pfsc_sparse_block_is_zero() {
    let img = pfsc(16, 16, &[vec![0xEE; 17]]);
    let p = PfscImage::open(UnencryptedSlice::new(&img)).unwrap();
    assert_eq!(p.decompressed_len(), 16);
    let mut buf = [0xFFu8; 16];
    assert_eq!(p.read_at(0, &mut buf).unwrap(), 16);
    assert_eq!(buf, [0u8; 16]);
}

#[test]
fn pfsc_round_trip() {
    let original: Vec<u8> = (0..40u32).map(|i| (i * 7 % 256) as u8).collect();
    let blocks: Vec<Vec<u8>> = original.chunks(16).map(|c| {
        let mut full = c.to_vec();
        full.resize(16, 0);
        full
    }).collect();
    let stored = vec![zlib(&blocks[0]), blocks[1].clone(), zlib(&blocks[2])];
    // A compressed block must be shorter than a block to be inflated.
    assert!(stored[0].len() < 16 || stored[0].len() > 16);
    let img = pfsc(16, 40, &stored);
    let p = PfscImage::open(UnencryptedSlice::new(&img)).unwrap();
    assert_eq!(p.original_block_size(), 16);
    assert_eq!(p.compressed_block_offsets().len(), 4);
    let mut buf = vec![0u8; 40];
    assert_eq!(p.read_at(0, &mut buf).unwrap(), 40);
    for (i, b) in buf.iter().enumerate() {
        let block = i / 16;
        if stored[block].len() > 16 {
            assert_eq!(*b, 0);
        } else {
            assert_eq!(*b, original[i]);
        }
    }
    let mut tail = vec![0u8; 10];
    assert_eq!(p.read_at(35, &mut tail).unwrap(), 5);
}

#[test]
fn pfsc_compressed_block_inflates() {
    let block: Vec<u8> = vec![0x41; 64];
    let z = zlib(&block);
    assert!(z.len() < 64);
    let img = pfsc(64, 64, &[z]);
    let p = PfscImage::open(UnencryptedSlice::new(&img)).unwrap();
    let mut buf = vec![0u8; 64];
    assert_eq!(p.read_at(0, &mut buf).unwrap(), 64);
    assert_eq!(buf, block);
}

#[test]
fn pfsc_open_errors() {
    let short = vec![0u8; 20];
    assert!(matches!(PfscImage::open(UnencryptedSlice::new(&short)), Err(OpenError::TooSmall)));
    let mut bad = pfsc(16, 16, &[vec![0; 16]]);
    bad[0] = b'X';
    assert!(matches!(PfscImage::open(UnencryptedSlice::new(&bad)), Err(OpenError::InvalidMagic)));
    let mut zero = pfsc(16, 16, &[vec![0; 16]]);
    put_u32(&mut zero, 0x0C, 0);
    assert!(matches!(PfscImage::open(UnencryptedSlice::new(&zero)), Err(OpenError::InvalidBlockSize)));
}

#[test]
fn xts_keys_follow_hmac() {
    let ekpfs = [7u8; 32];
    let seed: [u8; 16] = core::array::from_fn(|i| i as u8);
    let (data_key, tweak_key) = get_xts_keys(&ekpfs, &seed);
    let mut mac = <Hmac<sha2::Sha256> as Mac>::new_from_slice(&ekpfs).unwrap();
    mac.update(&[1, 0, 0, 0]);
    mac.update(&seed);
    let secret = mac.finalize().into_bytes();
    assert_eq!(&tweak_key[..], &secret[..16]);
    assert_eq!(&data_key[..], &secret[16..]);
}

#[test]
fn xts_round_trip_and_plain_sectors() {
    let data = vec![0u8; 0x3000];
    let img = EncryptedSlice::new(&data, [1; 16], [2; 16], 1);
    let original: Vec<u8> = (0..0x1000u32).map(|i| (i % 253) as u8).collect();
    let mut sector = original.clone();
    img.encrypt_sector(2, &mut sector);
    assert_ne!(sector, original);
    img.decrypt_sector(2, &mut sector);
    assert_eq!(sector, original);
    // Sectors before the encrypted region stay as they are.
    img.encrypt_sector(0, &mut sector);
    assert_eq!(sector, original);
}

#[test]
fn encrypted_slice_reads_plaintext() {
    let plain: Vec<u8> = (0..0x2000u32).map(|i| (i % 256) as u8).collect();
    let mut stored = plain.clone();
    let probe = EncryptedSlice::new(&plain, [3; 16], [4; 16], 1);
    probe.encrypt_sector(1, &mut stored[0x1000..0x2000]);
    let img = EncryptedSlice::new(&stored, [3; 16], [4; 16], 1);
    let mut buf = vec![0u8; 0x20];
    assert_eq!(img.read_at(0x0FF0, &mut buf).unwrap(), 0x20);
    assert_eq!(&buf[..], &plain[0x0FF0..0x1010]);
    assert_eq!(img.encrypted_start(), 1);
}

#[test]
fn encrypted_slice_stops_before_partial_sector() {
    let data = vec![0x5Au8; 0x1800];
    let img = EncryptedSlice::new(&data, [1; 16], [2; 16], 1);
    let mut buf = vec![0u8; 0x20];
    // Sector 0 is plaintext and whole; the read stops where sector 1 is cut.
    assert_eq!(img.read_at(0x0FF0, &mut buf).unwrap(), 0x10);
    assert!(buf[..0x10].iter().all(|&b| b == 0x5A));
    // A read in the partial sector gets its bytes as stored.
    assert_eq!(img.read_at(0x1000, &mut buf).unwrap(), 0x20);
    assert!(buf.iter().all(|&b| b == 0x5A));
    let mut big = vec![0u8; 0x1000];
    assert_eq!(img.read_at(0x1700, &mut big).unwrap(), 0x100);
}
