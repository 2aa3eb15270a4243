use cbc::cipher::{block_padding::NoPadding, BlockEncryptMut, KeyIvInit};
use sha2::Digest;
use orbis::pkg::{
    content_type_name, drm_type_name, entry_at, find_entry_raw, get_pfs_image, ContentId, EntryId,
    entry_data, ContentFlags, EntryDataError, FindEntryError, Pkg, PkgHeader, ReadError,
};

#[test]
fn entry_ids_round_trip() {
    for raw in [0x1u32, 0x10, 0x20, 0x400, 0x406, 0x1000, 0x100e, 0x1200, 0x1205, 0x1240, 0x125F, 0x12c1, 0x1463, 0x5] {
        assert_eq!(EntryId::from_u32(raw).as_u32(), raw);
    }
    assert_eq!(EntryId::from_u32(0x405), EntryId::Unknown(0x405));
    assert_eq!(EntryId::from_u32(0x1205), EntryId::Icon0PngIndexed(4));
    assert_eq!(EntryId::from_u32(0x1463), EntryId::Trophy(99));
    assert_eq!(EntryId::ParamSfo.as_u32(), 0x1000);
}

#[test]
fn entry_paths() {
    assert_eq!(EntryId::ParamSfo.to_path("out").unwrap(), "out/param.sfo");
    assert_eq!(EntryId::AppPlaygoChunkDat.to_path("out/").unwrap(), "out/app/playgo-chunk.dat");
    assert_eq!(EntryId::Trophy(7).to_path("").unwrap(), "trophy/trophy07.trp");
    assert_eq!(EntryId::Icon0PngIndexed(30).to_path("x").unwrap(), "x/icon0_30.png");
    assert_eq!(EntryId::Unknown(3).to_path("x"), None);
}

#[test]
fn content_id_fields() {
    let mut bytes = [0u8; 36];
    bytes.copy_from_slice(b"UP0102-CUSA03173_00-PSYCHONAUTS1PS40");
    let id = ContentId::new(bytes);
    assert_eq!(id.service_id(), "UP");
    assert_eq!(id.publisher_code(), "0102");
    assert_eq!(id.title_id(), "CUSA03173");
    assert_eq!(id.version(), "00");
    assert_eq!(id.label(), "PSYCHONAUTS1PS40");
    assert_eq!(id.as_str(), "UP0102-CUSA03173_00-PSYCHONAUTS1PS40");
    bytes[30] = 0;
    let id = ContentId::new(bytes);
    assert_eq!(id.label(), "PSYCHONAUT");
    bytes[0] = 0xFF;
    let id = ContentId::new(bytes);
    assert_eq!(id.service_id(), "");
}

#[test]
fn type_names() {
    assert_eq!(content_type_name(0x1A), "GD (Game Data)");
    assert_eq!(content_type_name(0x05), "DP (Cumulative Patch)");
    assert_eq!(content_type_name(0x99), "Unknown");
    assert_eq!(drm_type_name(0xF), "PS4");
    assert_eq!(drm_type_name(0xD), "PS4 (Free)");
    assert_eq!(drm_type_name(0x2), "Unknown");
}

fn pkg_bytes() -> Vec<u8> {
    let mut p = vec![0u8; 0x1200];
    p[0..4].copy_from_slice(&0x7F43_4E54u32.to_be_bytes());
    p[0x04..0x08].copy_from_slice(&0x8000_0001u32.to_be_bytes());
    p[0x0C..0x10].copy_from_slice(&5u32.to_be_bytes());
    p[0x10..0x14].copy_from_slice(&2u32.to_be_bytes());
    p[0x18..0x1C].copy_from_slice(&0x1000u32.to_be_bytes());
    p[0x40..0x64].copy_from_slice(b"UP0102-CUSA03173_00-PSYCHONAUTS1PS40");
    p[0x70..0x74].copy_from_slice(&0xFu32.to_be_bytes());
    p[0x74..0x78].copy_from_slice(&0x1Au32.to_be_bytes());
    p[0x410..0x418].copy_from_slice(&0x1100u64.to_be_bytes());
    p[0x418..0x420].copy_from_slice(&0x100u64.to_be_bytes());
    p[0x430..0x438].copy_from_slice(&0x1200u64.to_be_bytes());
    // Two entries: param.sfo, encrypted with key 3, then the entry keys.
    p[0x1000..0x1004].copy_from_slice(&0x1000u32.to_be_bytes());
    p[0x1008..0x100C].copy_from_slice(&0x8000_0000u32.to_be_bytes());
    p[0x100C..0x1010].copy_from_slice(&0x3000u32.to_be_bytes());
    p[0x1010..0x1014].copy_from_slice(&0x1100u32.to_be_bytes());
    p[0x1014..0x1018].copy_from_slice(&0x40u32.to_be_bytes());
    p[0x1020..0x1024].copy_from_slice(&0x10u32.to_be_bytes());
    p
}

#[test]
fn pkg_header_fields() {
    let p = pkg_bytes();
    let h = PkgHeader::read(&p).unwrap();
    assert_eq!(h.pkg_type(), 0x8000_0001);
    assert_eq!(h.file_count(), 5);
    assert_eq!(h.entry_count(), 2);
    assert_eq!(h.table_offset(), 0x1000);
    assert_eq!(h.pfs_offset(), 0x1100);
    assert_eq!(h.pfs_size(), 0x100);
    assert_eq!(h.pkg_size(), 0x1200);
    assert_eq!(h.content_id().title_id(), "CUSA03173");
    assert_eq!(h.drm_type_name(), "PS4");
    assert_eq!(h.content_type_name(), "GD (Game Data)");
    assert!(matches!(PkgHeader::read(&p[..0x800]), Err(ReadError::TooSmall)));
    let mut bad = p.clone();
    bad[0] = 0;
    assert!(matches!(PkgHeader::read(&bad), Err(ReadError::InvalidMagic)));
}

#[test]
fn pkg_entries_are_found() {
    let p = pkg_bytes();
    let h = PkgHeader::read(&p).unwrap();
    let e = entry_at(&p, &h, 0).unwrap();
    assert_eq!(e.entry_id(), EntryId::ParamSfo);
    assert!(e.is_encrypted());
    assert_eq!(e.key_index(), 3);
    assert_eq!(e.data_offset(), 0x1100);
    assert_eq!(e.data_size(), 0x40);
    assert_eq!(e.to_path("sce_sys").unwrap(), "sce_sys/param.sfo");
    let (k, num) = find_entry_raw(&p, &h, 0x10).unwrap();
    assert_eq!(num, 1);
    assert_eq!(k.entry_id(), EntryId::EntryKeys);
    assert!(matches!(find_entry_raw(&p, &h, 0x20), Err(FindEntryError::NotFound)));
    assert_eq!(get_pfs_image(&p, &h).unwrap().len(), 0x100);
}

#[test]
fn content_flags_in_words() {
    assert_eq!(ContentFlags(0).describe(), "(none)");
    assert_eq!(ContentFlags(0x6000_0000).describe(), "Cumulative Patch");
    assert_eq!(ContentFlags(0x4100_0000).describe(), "Delta Patch");
    assert_eq!(ContentFlags(0x0030_0000).describe(), "First Patch, PatchGo");
    assert_eq!(ContentFlags(0x0A00_0000).describe(), "GD/AC, Unknown (0x08000000)");
    assert_eq!(ContentFlags::from_bits_truncate(0xFFFF_FFFF).bits(), 0x7FF0_0000);
    assert!(ContentFlags(0x6000_0000).contains(ContentFlags::SUBSEQUENT_PATCH));
    assert!(ContentFlags(0).is_empty());
}

#[test]
fn entry_data_plain_and_encrypted() {
    let mut p = pkg_bytes();
    // Entry 1 (entry keys) is plain: 0x10 bytes at 0x1100.
    for i in 0..0x10 {
        p[0x1100 + i] = i as u8;
    }
    let h = PkgHeader::read(&p).unwrap();
    let keys = entry_at(&p, &h, 1).unwrap();
    assert_eq!(keys.data_offset(), 0);
    let plain = entry_data(&p, &keys, &[]).unwrap();
    assert_eq!(plain.len(), 0);
    // Without entry key 3 an encrypted entry cannot be read.
    let sfo = entry_at(&p, &h, 0).unwrap();
    assert!(matches!(entry_data(&p, &sfo, &[]), Err(EntryDataError::NoDecryptionKey { key_index: 3 })));
}

#[test]
fn encrypted_entry_round_trip() {
    let mut p = pkg_bytes();
    let key3 = vec![9u8; 32];
    let h = PkgHeader::read(&p).unwrap();
    let sfo = entry_at(&p, &h, 0).unwrap();
    let mut hasher = sha2::Sha256::new();
    hasher.update(sfo.as_bytes());
    hasher.update(&key3);
    let secret = hasher.finalize();
    let (iv, key) = secret.split_at(16);
    let plain: Vec<u8> = (0..0x40u8).collect();
    let enc = cbc::Encryptor::<aes::Aes128>::new(key.into(), iv.into())
        .encrypt_padded_vec_mut::<NoPadding>(&plain);
    p[0x1100..0x1140].copy_from_slice(&enc);
    let data = entry_data(&p, &sfo, &key3).unwrap();
    assert_eq!(data, plain);
    let pkg = Pkg::new(&p, key3.clone(), vec![5u8; 32]).unwrap();
    assert_eq!(pkg.entry_data(&sfo).unwrap(), plain);
    assert_eq!(pkg.find_entry(EntryId::ParamSfo).unwrap().1, 0);
    let image = pkg.get_pfs_image().unwrap();
    assert_eq!(image.data.len(), 0x100);
    assert_eq!(image.ekpfs, &[5u8; 32][..]);
    assert_eq!(pkg.entry_count(), 2);
}
