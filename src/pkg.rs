//! What the PKG container around a PFS says of itself: entry identifiers,
//! the content ID and the names of content and DRM types.

use vstd::prelude::*;

use vstd::string::StringExecFns;

use crate::bytes::{be_value, read_u32_be, read_u64_be};
use crate::crypto::{aes128_cbc_decrypt, cbc_decrypted, sha256, sha256_of};
use crate::inode::slice_range;

verus! {

/// Errors when reading a PKG entry.
#[derive(Debug, Clone, Copy, PartialEq, Eq)]
pub enum EntryError {
    SourceTooShort,
}

/// Errors when reading a PKG header.
#[derive(Debug, Clone, Copy, PartialEq, Eq)]
pub enum ReadError {
    TooSmall,
    InvalidMagic,
    InvalidSourceBytes,
}

/// The known PKG entry identifiers.
#[derive(Debug, Clone, Copy, PartialEq, Eq, Hash)]
pub enum EntryId {
    Digests,
    EntryKeys,
    PfsImageKey,
    GeneralDigests,
    Metas,
    EntryNames,
    LicenseDat,
    LicenseInfo,
    NptitleDat,
    NpbindDat,
    SelfinfoDat,
    ImageinfoDat,
    TargetDeltainfoDat,
    OriginDeltainfoDat,
    PsreservedDat,
    ParamSfo,
    PlaygoChunkDat,
    PlaygoChunkSha,
    PlaygoManifestXml,
    PronunciationXml,
    PronunciationSig,
    Pic1Png,
    PubtoolinfoDat,
    AppPlaygoChunkDat,
    AppPlaygoChunkSha,
    AppPlaygoManifestXml,
    ShareparamJson,
    ShareoverlayimagePng,
    SaveDataPng,
    ShareprivacyguardimagePng,
    Icon0Png,
    Icon0PngIndexed(u8),
    Pic0Png,
    Snd0At9,
    Pic1PngIndexed(u8),
    ChangeinfoXml,
    ChangeinfoXmlIndexed(u8),
    Icon0Dds,
    Icon0DdsIndexed(u8),
    Pic0Dds,
    Pic1Dds,
    Pic1DdsIndexed(u8),
    Trophy(u8),
    /// An identifier that names no known entry.
    Unknown(u32),
}

/// Whether `raw` is the identifier of a known entry.
pub open spec fn is_known_id(raw: u32) -> bool {
    raw == 0x1
    || raw == 0x10
    || raw == 0x20
    || raw == 0x80
    || raw == 0x100
    || raw == 0x200
    || raw == 0x400
    || raw == 0x401
    || raw == 0x402
    || raw == 0x403
    || raw == 0x404
    || raw == 0x406
    || raw == 0x407
    || raw == 0x408
    || raw == 0x409
    || raw == 0x1000
    || raw == 0x1001
    || raw == 0x1002
    || raw == 0x1003
    || raw == 0x1004
    || raw == 0x1005
    || raw == 0x1006
    || raw == 0x1007
    || raw == 0x1008
    || raw == 0x1009
    || raw == 0x100A
    || raw == 0x100B
    || raw == 0x100C
    || raw == 0x100D
    || raw == 0x100E
    || raw == 0x1200
    || 0x1201 <= raw <= 0x121F
    || raw == 0x1220
    || raw == 0x1240
    || 0x1241 <= raw <= 0x125F
    || raw == 0x1260
    || 0x1261 <= raw <= 0x127F
    || raw == 0x1280
    || 0x1281 <= raw <= 0x129F
    || raw == 0x12A0
    || raw == 0x12C0
    || 0x12C1 <= raw <= 0x12DF
    || 0x1400 <= raw <= 0x1463
}

impl EntryId {
    /// The numeric identifier.
    pub open spec fn spec_as_u32(self) -> int {
        match self {
            EntryId::Digests => 0x1,
            EntryId::EntryKeys => 0x10,
            EntryId::PfsImageKey => 0x20,
            EntryId::GeneralDigests => 0x80,
            EntryId::Metas => 0x100,
            EntryId::EntryNames => 0x200,
            EntryId::LicenseDat => 0x400,
            EntryId::LicenseInfo => 0x401,
            EntryId::NptitleDat => 0x402,
            EntryId::NpbindDat => 0x403,
            EntryId::SelfinfoDat => 0x404,
            EntryId::ImageinfoDat => 0x406,
            EntryId::TargetDeltainfoDat => 0x407,
            EntryId::OriginDeltainfoDat => 0x408,
            EntryId::PsreservedDat => 0x409,
            EntryId::ParamSfo => 0x1000,
            EntryId::PlaygoChunkDat => 0x1001,
            EntryId::PlaygoChunkSha => 0x1002,
            EntryId::PlaygoManifestXml => 0x1003,
            EntryId::PronunciationXml => 0x1004,
            EntryId::PronunciationSig => 0x1005,
            EntryId::Pic1Png => 0x1006,
            EntryId::PubtoolinfoDat => 0x1007,
            EntryId::AppPlaygoChunkDat => 0x1008,
            EntryId::AppPlaygoChunkSha => 0x1009,
            EntryId::AppPlaygoManifestXml => 0x100A,
            EntryId::ShareparamJson => 0x100B,
            EntryId::ShareoverlayimagePng => 0x100C,
            EntryId::SaveDataPng => 0x100D,
            EntryId::ShareprivacyguardimagePng => 0x100E,
            EntryId::Icon0Png => 0x1200,
            EntryId::Icon0PngIndexed(i) => 0x1201 + i,
            EntryId::Pic0Png => 0x1220,
            EntryId::Snd0At9 => 0x1240,
            EntryId::Pic1PngIndexed(i) => 0x1241 + i,
            EntryId::ChangeinfoXml => 0x1260,
            EntryId::ChangeinfoXmlIndexed(i) => 0x1261 + i,
            EntryId::Icon0Dds => 0x1280,
            EntryId::Icon0DdsIndexed(i) => 0x1281 + i,
            EntryId::Pic0Dds => 0x12A0,
            EntryId::Pic1Dds => 0x12C0,
            EntryId::Pic1DdsIndexed(i) => 0x12C1 + i,
            EntryId::Trophy(i) => 0x1400 + i,
            EntryId::Unknown(raw) => raw as int,
        }
    }

    /// The numeric identifier.
    pub fn as_u32(self) -> (r: u32)
        requires
            self.spec_as_u32() <= u32::MAX,
        ensures
            r == self.spec_as_u32(),
    {
        match self {
            EntryId::Digests => 0x1,
            EntryId::EntryKeys => 0x10,
            EntryId::PfsImageKey => 0x20,
            EntryId::GeneralDigests => 0x80,
            EntryId::Metas => 0x100,
            EntryId::EntryNames => 0x200,
            EntryId::LicenseDat => 0x400,
            EntryId::LicenseInfo => 0x401,
            EntryId::NptitleDat => 0x402,
            EntryId::NpbindDat => 0x403,
            EntryId::SelfinfoDat => 0x404,
            EntryId::ImageinfoDat => 0x406,
            EntryId::TargetDeltainfoDat => 0x407,
            EntryId::OriginDeltainfoDat => 0x408,
            EntryId::PsreservedDat => 0x409,
            EntryId::ParamSfo => 0x1000,
            EntryId::PlaygoChunkDat => 0x1001,
            EntryId::PlaygoChunkSha => 0x1002,
            EntryId::PlaygoManifestXml => 0x1003,
            EntryId::PronunciationXml => 0x1004,
            EntryId::PronunciationSig => 0x1005,
            EntryId::Pic1Png => 0x1006,
            EntryId::PubtoolinfoDat => 0x1007,
            EntryId::AppPlaygoChunkDat => 0x1008,
            EntryId::AppPlaygoChunkSha => 0x1009,
            EntryId::AppPlaygoManifestXml => 0x100A,
            EntryId::ShareparamJson => 0x100B,
            EntryId::ShareoverlayimagePng => 0x100C,
            EntryId::SaveDataPng => 0x100D,
            EntryId::ShareprivacyguardimagePng => 0x100E,
            EntryId::Icon0Png => 0x1200,
            EntryId::Icon0PngIndexed(i) => 0x1201 + i as u32,
            EntryId::Pic0Png => 0x1220,
            EntryId::Snd0At9 => 0x1240,
            EntryId::Pic1PngIndexed(i) => 0x1241 + i as u32,
            EntryId::ChangeinfoXml => 0x1260,
            EntryId::ChangeinfoXmlIndexed(i) => 0x1261 + i as u32,
            EntryId::Icon0Dds => 0x1280,
            EntryId::Icon0DdsIndexed(i) => 0x1281 + i as u32,
            EntryId::Pic0Dds => 0x12A0,
            EntryId::Pic1Dds => 0x12C0,
            EntryId::Pic1DdsIndexed(i) => 0x12C1 + i as u32,
            EntryId::Trophy(i) => 0x1400 + i as u32,
            EntryId::Unknown(raw) => raw,
        }
    }

    /// The identifier for the numeric value `raw`: the one whose value it
    /// is, or `Unknown`.
    pub fn from_u32(raw: u32) -> (r: Self)
        ensures
            r.spec_as_u32() == raw,
            r is Unknown <==> !is_known_id(raw),
            r.canonical(),
    {
        if raw == 0x1 {
            return EntryId::Digests;
        }
        if raw == 0x10 {
            return EntryId::EntryKeys;
        }
        if raw == 0x20 {
            return EntryId::PfsImageKey;
        }
        if raw == 0x80 {
            return EntryId::GeneralDigests;
        }
        if raw == 0x100 {
            return EntryId::Metas;
        }
        if raw == 0x200 {
            return EntryId::EntryNames;
        }
        if raw == 0x400 {
            return EntryId::LicenseDat;
        }
        if raw == 0x401 {
            return EntryId::LicenseInfo;
        }
        if raw == 0x402 {
            return EntryId::NptitleDat;
        }
        if raw == 0x403 {
            return EntryId::NpbindDat;
        }
        if raw == 0x404 {
            return EntryId::SelfinfoDat;
        }
        if raw == 0x406 {
            return EntryId::ImageinfoDat;
        }
        if raw == 0x407 {
            return EntryId::TargetDeltainfoDat;
        }
        if raw == 0x408 {
            return EntryId::OriginDeltainfoDat;
        }
        if raw == 0x409 {
            return EntryId::PsreservedDat;
        }
        if raw == 0x1000 {
            return EntryId::ParamSfo;
        }
        if raw == 0x1001 {
            return EntryId::PlaygoChunkDat;
        }
        if raw == 0x1002 {
            return EntryId::PlaygoChunkSha;
        }
        if raw == 0x1003 {
            return EntryId::PlaygoManifestXml;
        }
        if raw == 0x1004 {
            return EntryId::PronunciationXml;
        }
        if raw == 0x1005 {
            return EntryId::PronunciationSig;
        }
        if raw == 0x1006 {
            return EntryId::Pic1Png;
        }
        if raw == 0x1007 {
            return EntryId::PubtoolinfoDat;
        }
        if raw == 0x1008 {
            return EntryId::AppPlaygoChunkDat;
        }
        if raw == 0x1009 {
            return EntryId::AppPlaygoChunkSha;
        }
        if raw == 0x100A {
            return EntryId::AppPlaygoManifestXml;
        }
        if raw == 0x100B {
            return EntryId::ShareparamJson;
        }
        if raw == 0x100C {
            return EntryId::ShareoverlayimagePng;
        }
        if raw == 0x100D {
            return EntryId::SaveDataPng;
        }
        if raw == 0x100E {
            return EntryId::ShareprivacyguardimagePng;
        }
        if raw == 0x1200 {
            return EntryId::Icon0Png;
        }
        if 0x1201 <= raw && raw <= 0x121F {
            return EntryId::Icon0PngIndexed((raw - 0x1201) as u8);
        }
        if raw == 0x1220 {
            return EntryId::Pic0Png;
        }
        if raw == 0x1240 {
            return EntryId::Snd0At9;
        }
        if 0x1241 <= raw && raw <= 0x125F {
            return EntryId::Pic1PngIndexed((raw - 0x1241) as u8);
        }
        if raw == 0x1260 {
            return EntryId::ChangeinfoXml;
        }
        if 0x1261 <= raw && raw <= 0x127F {
            return EntryId::ChangeinfoXmlIndexed((raw - 0x1261) as u8);
        }
        if raw == 0x1280 {
            return EntryId::Icon0Dds;
        }
        if 0x1281 <= raw && raw <= 0x129F {
            return EntryId::Icon0DdsIndexed((raw - 0x1281) as u8);
        }
        if raw == 0x12A0 {
            return EntryId::Pic0Dds;
        }
        if raw == 0x12C0 {
            return EntryId::Pic1Dds;
        }
        if 0x12C1 <= raw && raw <= 0x12DF {
            return EntryId::Pic1DdsIndexed((raw - 0x12C1) as u8);
        }
        if 0x1400 <= raw && raw <= 0x1463 {
            return EntryId::Trophy((raw - 0x1400) as u8);
        }
        EntryId::Unknown(raw)
    }

    /// The path of the entry's file relative to the output directory.
    pub open spec fn relative_path(self) -> Seq<char> {
        match self {
            EntryId::Digests => "digests"@,
            EntryId::EntryKeys => "entry_keys"@,
            EntryId::PfsImageKey => "image_key"@,
            EntryId::GeneralDigests => "general_digests"@,
            EntryId::Metas => "metas"@,
            EntryId::EntryNames => "entry_names"@,
            EntryId::LicenseDat => "license.dat"@,
            EntryId::LicenseInfo => "license.info"@,
            EntryId::NptitleDat => "nptitle.dat"@,
            EntryId::NpbindDat => "npbind.dat"@,
            EntryId::SelfinfoDat => "selfinfo.dat"@,
            EntryId::ImageinfoDat => "imageinfo.dat"@,
            EntryId::TargetDeltainfoDat => "target-deltainfo.dat"@,
            EntryId::OriginDeltainfoDat => "origin-deltainfo.dat"@,
            EntryId::PsreservedDat => "psreserved.dat"@,
            EntryId::ParamSfo => "param.sfo"@,
            EntryId::PlaygoChunkDat => "playgo-chunk.dat"@,
            EntryId::PlaygoChunkSha => "playgo-chunk.sha"@,
            EntryId::PlaygoManifestXml => "playgo-manifest.xml"@,
            EntryId::PronunciationXml => "pronunciation.xml"@,
            EntryId::PronunciationSig => "pronunciation.sig"@,
            EntryId::Pic1Png => "pic1.png"@,
            EntryId::PubtoolinfoDat => "pubtoolinfo.dat"@,
            EntryId::AppPlaygoChunkDat => "app/playgo-chunk.dat"@,
            EntryId::AppPlaygoChunkSha => "app/playgo-chunk.sha"@,
            EntryId::AppPlaygoManifestXml => "app/playgo-manifest.xml"@,
            EntryId::ShareparamJson => "shareparam.json"@,
            EntryId::ShareoverlayimagePng => "shareoverlayimage.png"@,
            EntryId::SaveDataPng => "save_data.png"@,
            EntryId::ShareprivacyguardimagePng => "shareprivacyguardimage.png"@,
            EntryId::Icon0Png => "icon0.png"@,
            EntryId::Icon0PngIndexed(i) => "icon0_"@ + two_digits(i) + ".png"@,
            EntryId::Pic0Png => "pic0.png"@,
            EntryId::Snd0At9 => "snd0.at9"@,
            EntryId::Pic1PngIndexed(i) => "pic1_"@ + two_digits(i) + ".png"@,
            EntryId::ChangeinfoXml => "changeinfo/changeinfo.xml"@,
            EntryId::ChangeinfoXmlIndexed(i) => "changeinfo/changeinfo_"@ + two_digits(i) + ".xml"@,
            EntryId::Icon0Dds => "icon0.dds"@,
            EntryId::Icon0DdsIndexed(i) => "icon0_"@ + two_digits(i) + ".dds"@,
            EntryId::Pic0Dds => "pic0.dds"@,
            EntryId::Pic1Dds => "pic1.dds"@,
            EntryId::Pic1DdsIndexed(i) => "pic1_"@ + two_digits(i) + ".dds"@,
            EntryId::Trophy(i) => "trophy/trophy"@ + two_digits(i) + ".trp"@,
            EntryId::Unknown(_) => seq![],
        }
    }

    /// Whether the index of an indexed identifier lies in its range, and an
    /// unknown identifier names no known entry: the one form that each
    /// numeric identifier has.
    pub open spec fn canonical(self) -> bool {
        match self {
            EntryId::Icon0PngIndexed(i) => i <= 0x1E,
            EntryId::Pic1PngIndexed(i) => i <= 0x1E,
            EntryId::ChangeinfoXmlIndexed(i) => i <= 0x1E,
            EntryId::Icon0DdsIndexed(i) => i <= 0x1E,
            EntryId::Pic1DdsIndexed(i) => i <= 0x1E,
            EntryId::Trophy(i) => i <= 0x63,
            EntryId::Unknown(raw) => !is_known_id(raw),
            _ => true,
        }
    }

    /// The path of the entry's file under `base`, or `None` for an unknown
    /// entry.
    pub fn to_path(self, base: &str) -> (r: Option<String>)
        ensures
            r is None <==> self is Unknown,
            r matches Some(p) ==> base@.len() > 0 ==> p@.subrange(0, base@.len() as int) == base@,
            r matches Some(p) ==> p@ == joined_path(base@, self.relative_path()),
    {
        let name = match self {
            EntryId::Digests => String::from_str("digests"),
            EntryId::EntryKeys => String::from_str("entry_keys"),
            EntryId::PfsImageKey => String::from_str("image_key"),
            EntryId::GeneralDigests => String::from_str("general_digests"),
            EntryId::Metas => String::from_str("metas"),
            EntryId::EntryNames => String::from_str("entry_names"),
            EntryId::LicenseDat => String::from_str("license.dat"),
            EntryId::LicenseInfo => String::from_str("license.info"),
            EntryId::NptitleDat => String::from_str("nptitle.dat"),
            EntryId::NpbindDat => String::from_str("npbind.dat"),
            EntryId::SelfinfoDat => String::from_str("selfinfo.dat"),
            EntryId::ImageinfoDat => String::from_str("imageinfo.dat"),
            EntryId::TargetDeltainfoDat => String::from_str("target-deltainfo.dat"),
            EntryId::OriginDeltainfoDat => String::from_str("origin-deltainfo.dat"),
            EntryId::PsreservedDat => String::from_str("psreserved.dat"),
            EntryId::ParamSfo => String::from_str("param.sfo"),
            EntryId::PlaygoChunkDat => String::from_str("playgo-chunk.dat"),
            EntryId::PlaygoChunkSha => String::from_str("playgo-chunk.sha"),
            EntryId::PlaygoManifestXml => String::from_str("playgo-manifest.xml"),
            EntryId::PronunciationXml => String::from_str("pronunciation.xml"),
            EntryId::PronunciationSig => String::from_str("pronunciation.sig"),
            EntryId::Pic1Png => String::from_str("pic1.png"),
            EntryId::PubtoolinfoDat => String::from_str("pubtoolinfo.dat"),
            EntryId::AppPlaygoChunkDat => String::from_str("app/playgo-chunk.dat"),
            EntryId::AppPlaygoChunkSha => String::from_str("app/playgo-chunk.sha"),
            EntryId::AppPlaygoManifestXml => String::from_str("app/playgo-manifest.xml"),
            EntryId::ShareparamJson => String::from_str("shareparam.json"),
            EntryId::ShareoverlayimagePng => String::from_str("shareoverlayimage.png"),
            EntryId::SaveDataPng => String::from_str("save_data.png"),
            EntryId::ShareprivacyguardimagePng => String::from_str("shareprivacyguardimage.png"),
            EntryId::Icon0Png => String::from_str("icon0.png"),
            EntryId::Icon0PngIndexed(i) => indexed_name("icon0_", i, ".png"),
            EntryId::Pic0Png => String::from_str("pic0.png"),
            EntryId::Snd0At9 => String::from_str("snd0.at9"),
            EntryId::Pic1PngIndexed(i) => indexed_name("pic1_", i, ".png"),
            EntryId::ChangeinfoXml => String::from_str("changeinfo/changeinfo.xml"),
            EntryId::ChangeinfoXmlIndexed(i) => indexed_name("changeinfo/changeinfo_", i, ".xml"),
            EntryId::Icon0Dds => String::from_str("icon0.dds"),
            EntryId::Icon0DdsIndexed(i) => indexed_name("icon0_", i, ".dds"),
            EntryId::Pic0Dds => String::from_str("pic0.dds"),
            EntryId::Pic1Dds => String::from_str("pic1.dds"),
            EntryId::Pic1DdsIndexed(i) => indexed_name("pic1_", i, ".dds"),
            EntryId::Trophy(i) => indexed_name("trophy/trophy", i, ".trp"),
            EntryId::Unknown(_) => {
                return None;
            },
        };
        Some(join_path(base, name.as_str()))
    }
}

/// Two canonical identifiers with the same numeric value are the same, so
/// `from_u32` gives back every canonical identifier from its value.
#[verifier::rlimit(80)]
pub proof fn lemma_entry_id_injective(a: EntryId, b: EntryId)
    requires
        a.canonical(),
        b.canonical(),
        a.spec_as_u32() == b.spec_as_u32(),
    ensures
        a == b,
{
}

/// `base` and `name` joined by a `/`, unless `base` is empty or already
/// ends with one.
pub open spec fn joined_path(base: Seq<char>, name: Seq<char>) -> Seq<char> {
    if base.len() == 0 {
        name
    } else if base.last() == '/' {
        base + name
    } else {
        base + seq!['/'] + name
    }
}

/// `base` and `name` joined by a `/`, unless `base` is empty or already
/// ends with one.
pub fn join_path(base: &str, name: &str) -> (r: String)
    ensures
        base@.len() == 0 ==> r@ == name@,
        base@.len() > 0 && base@.last() == '/' ==> r@ == base@ + name@,
        base@.len() > 0 && base@.last() != '/' ==> r@ == base@ + seq!['/'] + name@,
{
    let mut r = String::from_str(base);
    let n = base.unicode_len();
    if n == 0 {
        let mut s = String::from_str(name);
        return s;
    }
    if base.get_char(n - 1) != '/' {
        r.append("/");
        proof {
            reveal_strlit("/");
        }
    }
    r.append(name);
    r
}

/// The decimal digit `d`.
fn digit(d: u8) -> (r: &'static str)
    requires
        d < 10,
    ensures
        r@ == seq![('0' as u8 + d) as char],
{
    proof {
        reveal_strlit("0");
        reveal_strlit("1");
        reveal_strlit("2");
        reveal_strlit("3");
        reveal_strlit("4");
        reveal_strlit("5");
        reveal_strlit("6");
        reveal_strlit("7");
        reveal_strlit("8");
        reveal_strlit("9");
    }
    match d {
        0 => "0",
        1 => "1",
        2 => "2",
        3 => "3",
        4 => "4",
        5 => "5",
        6 => "6",
        7 => "7",
        8 => "8",
        _ => "9",
    }
}

/// The decimal digits of `i`, at least two of them.
pub open spec fn two_digits(i: u8) -> Seq<char> {
    if i >= 100 {
        seq![('0' as u8 + i / 100) as char, ('0' as u8 + (i / 10) % 10) as char, ('0' as u8 + i % 10) as char]
    } else {
        seq![('0' as u8 + i / 10) as char, ('0' as u8 + i % 10) as char]
    }
}

/// `prefix`, the index `i` in at least two digits, then `suffix`.
fn indexed_name(prefix: &str, i: u8, suffix: &str) -> (r: String)
    ensures
        r@ == prefix@ + two_digits(i) + suffix@,
{
    let mut r = String::from_str(prefix);
    if i >= 100 {
        r.append(digit(i / 100));
    }
    r.append(digit((i / 10) % 10));
    r.append(digit(i % 10));
    r.append(suffix);
    r
}

/// Relies on `std::str::from_utf8`: whether the bytes are UTF-8, and the
/// characters they encode, depend on the bytes alone.
#[verifier::external_body]
fn str_from_utf8(b: &[u8]) -> (r: Option<&str>)
    ensures
        r is None <==> utf8_decode(b@) is None,
        r matches Some(s) ==> utf8_decode(b@) == Some(s@),
{
    std::str::from_utf8(b).ok()
}

/// The characters that the bytes `b` encode in UTF-8, if they are UTF-8.
pub uninterp spec fn utf8_decode(b: Seq<u8>) -> Option<Seq<char>>;

/// The characters that `b` encodes, or `fallback` where it is not UTF-8.
pub open spec fn decoded_or(b: Seq<u8>, fallback: Seq<char>) -> Seq<char> {
    match utf8_decode(b) {
        Some(s) => s,
        None => fallback,
    }
}

/// The bytes of `b` before its first zero byte.
pub open spec fn until_nul(b: Seq<u8>) -> Seq<u8> {
    if exists|i: int| 0 <= i < b.len() && b[i] == 0 {
        b.take(choose|i: int| 0 <= i < b.len() && b[i] == 0 && forall|j: int| 0 <= j < i ==> b[j] != 0)
    } else {
        b
    }
}

/// The content ID of a package, e.g. `UP0102-CUSA03173_00-PSYCHONAUTS1PS40`:
/// service ID (2 bytes), publisher code (4), `-`, title ID (9), `_`,
/// version (2), `-`, label (16).
#[derive(Debug, Clone, Copy, PartialEq, Eq)]
pub struct ContentId {
    pub bytes: [u8; 36],
}

/// `b[from..to]` decoded, or `fallback`.
fn decode_range<'a>(b: &'a [u8; 36], from: usize, to: usize, trim: bool, fallback: &'static str) -> (r: &'a str)
    requires
        from <= to <= 36,
    ensures
        !trim ==> r@ == decoded_or(b@.subrange(from as int, to as int), fallback@),
        trim ==> r@ == decoded_or(until_nul(b@.subrange(from as int, to as int)), fallback@),
{
    let s = b.as_slice();
    let (head, _) = s.split_at(to);
    let (_, field) = head.split_at(from);
    let mut end = field.len();
    if trim {
        let mut i: usize = 0;
        while i < field.len() && field[i] != 0
            invariant
                i <= field@.len(),
                forall|j: int| 0 <= j < i ==> field@[j] != 0,
            decreases field@.len() - i,
        {
            i = i + 1;
        }
        end = i;
        proof {
            let f = field@;
            if i < f.len() {
                assert(exists|k: int| 0 <= k < f.len() && f[k] == 0);
                let c = choose|k: int| 0 <= k < f.len() && f[k] == 0 && forall|j: int| 0 <= j < k ==> f[j] != 0;
                assert(c == i) by {
                    if c < i {
                    } else if c > i {
                        assert(f[i as int] == 0);
                    }
                }
            } else {
                assert(f.take(i as int) =~= f);
            }
        }
    }
    let (text, _) = field.split_at(end);
    proof {
        assert(field@ =~= b@.subrange(from as int, to as int));
        if !trim {
            assert(text@ =~= field@);
        }
    }
    match str_from_utf8(text) {
        Some(t) => t,
        None => fallback,
    }
}

impl ContentId {
    /// The content ID stored in `bytes`.
    pub fn new(bytes: [u8; 36]) -> (r: Self)
        ensures
            r.bytes == bytes,
    {
        ContentId { bytes }
    }

    /// The service ID ("UP", "EP", ...), or "" where it is not UTF-8.
    pub fn service_id(&self) -> (r: &str)
        ensures
            r@ == decoded_or(self.bytes@.subrange(0, 2), ""@),
    {
        decode_range(&self.bytes, 0, 2, false, "")
    }

    /// The publisher code, or "" where it is not UTF-8.
    pub fn publisher_code(&self) -> (r: &str)
        ensures
            r@ == decoded_or(self.bytes@.subrange(2, 6), ""@),
    {
        decode_range(&self.bytes, 2, 6, false, "")
    }

    /// The title ID up to its first zero byte, or "" where it is not UTF-8.
    pub fn title_id(&self) -> (r: &str)
        ensures
            r@ == decoded_or(until_nul(self.bytes@.subrange(7, 16)), ""@),
    {
        decode_range(&self.bytes, 7, 16, true, "")
    }

    /// The content version, or "" where it is not UTF-8.
    pub fn version(&self) -> (r: &str)
        ensures
            r@ == decoded_or(self.bytes@.subrange(17, 19), ""@),
    {
        decode_range(&self.bytes, 17, 19, false, "")
    }

    /// The label up to its first zero byte, or "" where it is not UTF-8.
    pub fn label(&self) -> (r: &str)
        ensures
            r@ == decoded_or(until_nul(self.bytes@.subrange(20, 36)), ""@),
    {
        decode_range(&self.bytes, 20, 36, true, "")
    }

    /// The whole content ID up to its first zero byte, or "<invalid>"
    /// where it is not UTF-8.
    pub fn as_str(&self) -> (r: &str)
        ensures
            r@ == decoded_or(until_nul(self.bytes@), "<invalid>"@),
    {
        proof {
            assert(self.bytes@.subrange(0, 36) =~= self.bytes@);
        }
        decode_range(&self.bytes, 0, 36, true, "<invalid>")
    }
}

/// The content flags of a package.
#[derive(Debug, Clone, Copy, PartialEq, Eq, Default)]
pub struct ContentFlags(pub u32);

/// Flag `k` of the content flags, in the order they are described: its
/// bit and its name.
pub open spec fn flag_entry(k: int) -> (u32, Seq<char>) {
    if k == 0 {
        (0x00100000u32, "First Patch"@)
    } else if k == 1 {
        (0x00200000u32, "PatchGo"@)
    } else if k == 2 {
        (0x00400000u32, "Remaster"@)
    } else if k == 3 {
        (0x00800000u32, "PS Cloud"@)
    } else if k == 4 {
        (0x01000000u32, "Delta Patch X"@)
    } else if k == 5 {
        (0x02000000u32, "GD/AC"@)
    } else if k == 6 {
        (0x04000000u32, "Non-Game"@)
    } else if k == 7 {
        (0x08000000u32, "Unknown (0x08000000)"@)
    } else if k == 8 {
        (0x10000000u32, "Unknown (0x10000000)"@)
    } else if k == 9 {
        (0x20000000u32, "Cumulative Patch X"@)
    } else {
        (0x40000000u32, "Subsequent Patch"@)
    }
}

fn flag_entry_exec(k: usize) -> (r: (u32, &'static str))
    requires
        k < 11,
    ensures
        r.0 == flag_entry(k as int).0,
        r.1@ == flag_entry(k as int).1,
{
    proof {
        reveal_strlit("First Patch");
        reveal_strlit("PatchGo");
        reveal_strlit("Remaster");
        reveal_strlit("PS Cloud");
        reveal_strlit("Delta Patch X");
        reveal_strlit("GD/AC");
        reveal_strlit("Non-Game");
        reveal_strlit("Unknown (0x08000000)");
        reveal_strlit("Unknown (0x10000000)");
        reveal_strlit("Cumulative Patch X");
        reveal_strlit("Subsequent Patch");
    }
    match k {
        0 => (0x00100000, "First Patch"),
        1 => (0x00200000, "PatchGo"),
        2 => (0x00400000, "Remaster"),
        3 => (0x00800000, "PS Cloud"),
        4 => (0x01000000, "Delta Patch X"),
        5 => (0x02000000, "GD/AC"),
        6 => (0x04000000, "Non-Game"),
        7 => (0x08000000, "Unknown (0x08000000)"),
        8 => (0x10000000, "Unknown (0x10000000)"),
        9 => (0x20000000, "Cumulative Patch X"),
        _ => (0x40000000, "Subsequent Patch"),
    }
}

/// The names of the flags among the first `k` that `bits` holds, in order.
pub open spec fn flags_upto(bits: u32, k: int) -> Seq<Seq<char>>
    decreases k,
{
    if k <= 0 {
        seq![]
    } else if bits & flag_entry(k - 1).0 == flag_entry(k - 1).0 {
        flags_upto(bits, k - 1).push(flag_entry(k - 1).1)
    } else {
        flags_upto(bits, k - 1)
    }
}

/// The names joined by ", ".
pub open spec fn joined(names: Seq<Seq<char>>) -> Seq<char>
    decreases names.len(),
{
    if names.len() == 0 {
        seq![]
    } else if names.len() == 1 {
        names[0]
    } else {
        joined(names.drop_last()) + ", "@ + names.last()
    }
}

/// How content flags read: "(none)", one of the two compound patch kinds,
/// or the names of the single flags that are set.
pub open spec fn flags_text(bits: u32) -> Seq<char> {
    if bits == 0 {
        "(none)"@
    } else if bits & 0x6000_0000 == 0x6000_0000 {
        "Cumulative Patch"@
    } else if bits & 0x4100_0000 == 0x4100_0000 {
        "Delta Patch"@
    } else {
        joined(flags_upto(bits, 11))
    }
}

impl ContentFlags {
    pub const FIRST_PATCH: u32 = 0x00100000;
    pub const PATCHGO: u32 = 0x00200000;
    pub const REMASTER: u32 = 0x00400000;
    pub const PS_CLOUD: u32 = 0x00800000;
    pub const DELTA_PATCH_X: u32 = 0x01000000;
    pub const GD_AC: u32 = 0x02000000;
    pub const NON_GAME: u32 = 0x04000000;
    pub const UNKNOWN_1: u32 = 0x08000000;
    pub const UNKNOWN_2: u32 = 0x10000000;
    pub const CUMULATIVE_PATCH_X: u32 = 0x20000000;
    pub const SUBSEQUENT_PATCH: u32 = 0x40000000;
    pub const DELTA_PATCH: u32 = 0x41000000;
    pub const CUMULATIVE_PATCH: u32 = 0x60000000;

    /// All the defined flags.
    pub const ALL: u32 = 0x7FF0_0000;

    /// The raw bits.
    pub fn bits(&self) -> (r: u32)
        ensures
            r == self.0,
    {
        self.0
    }

    /// The flags of `bits` that are defined.
    pub fn from_bits_truncate(bits: u32) -> (r: Self)
        ensures
            r.0 == bits & 0x7FF0_0000,
    {
        ContentFlags(bits & Self::ALL)
    }

    /// Whether no flag is set.
    pub fn is_empty(&self) -> (r: bool)
        ensures
            r == (self.0 == 0),
    {
        self.0 == 0
    }

    /// Whether all the bits of `other` are set.
    pub fn contains(&self, other: u32) -> (r: bool)
        ensures
            r == (self.0 & other == other),
    {
        self.0 & other == other
    }

    /// The flags in words.
    pub fn describe(&self) -> (r: String)
        ensures
            r@ == flags_text(self.0),
    {
        proof {
            reveal_strlit("(none)");
            reveal_strlit("Cumulative Patch");
            reveal_strlit("Delta Patch");
            reveal_strlit(", ");
        }
        if self.is_empty() {
            return String::from_str("(none)");
        }
        if self.contains(Self::CUMULATIVE_PATCH) {
            return String::from_str("Cumulative Patch");
        }
        if self.contains(Self::DELTA_PATCH) {
            return String::from_str("Delta Patch");
        }
        let mut r = String::new();
        let mut count: usize = 0;
        let mut k: usize = 0;
        while k < 11
            invariant
                k <= 11,
                count == flags_upto(self.0, k as int).len(),
                count <= k,
                r@ == joined(flags_upto(self.0, k as int)),
            decreases 11 - k,
        {
            let (mask, name) = flag_entry_exec(k);
            if self.0 & mask == mask {
                if count > 0 {
                    r.append(", ");
                }
                r.append(name);
                count = count + 1;
                proof {
                    let s = flags_upto(self.0, (k + 1) as int);
                    assert(s.drop_last() =~= flags_upto(self.0, k as int));
                    if s.len() == 1 {
                        assert(flags_upto(self.0, k as int).len() == 0);
                        assert(r@ =~= name@);
                    }
                }
            }
            k = k + 1;
        }
        r
    }
}

/// The digests in a PKG header.
#[derive(Debug, Clone, Copy, PartialEq, Eq)]
pub struct DigestTable {
    pub digest_entries1: [u8; 32],
    pub digest_entries2: [u8; 32],
    pub digest_table_digest: [u8; 32],
    pub digest_body_digest: [u8; 32],
}

/// A readable name for a content type.
pub fn content_type_name(content_type: u32) -> (r: &'static str)
    ensures
        r@ == if content_type == 0x01 || content_type == 0x1A {
            "GD (Game Data)"@
        } else if content_type == 0x02 || content_type == 0x1B {
            "AC (Additional Content)"@
        } else if content_type == 0x03 {
            "AL (App License)"@
        } else if content_type == 0x04 {
            "DP (Delta Patch)"@
        } else if content_type == 0x05 {
            "DP (Cumulative Patch)"@
        } else if content_type == 0x06 {
            "Remaster"@
        } else {
            "Unknown"@
        },
{
    match content_type {
        0x01 => "GD (Game Data)",
        0x02 => "AC (Additional Content)",
        0x03 => "AL (App License)",
        0x04 => "DP (Delta Patch)",
        0x05 => "DP (Cumulative Patch)",
        0x06 => "Remaster",
        0x1A => "GD (Game Data)",
        0x1B => "AC (Additional Content)",
        _ => "Unknown",
    }
}

/// A readable name for a DRM type.
pub fn drm_type_name(drm_type: u32) -> (r: &'static str)
    ensures
        r@ == if drm_type == 0x0 {
            "None"@
        } else if drm_type == 0x1 || drm_type == 0xF {
            "PS4"@
        } else if drm_type == 0xD {
            "PS4 (Free)"@
        } else {
            "Unknown"@
        },
{
    match drm_type {
        0x0 => "None",
        0x1 => "PS4",
        0xD => "PS4 (Free)",
        0xF => "PS4",
        _ => "Unknown",
    }
}

/// The magic number at the start of a PKG file.
pub const PKG_MAGIC: u32 = 0x7F43_4E54;

/// The size of a PKG header.
pub const PKG_HEADER_SIZE: usize = 0x1000;

/// The size of a PKG entry record.
pub const PKG_ENTRY_SIZE: usize = 32;

/// One record of the PKG entry table (big-endian fields).
#[derive(Debug, Clone, Copy, PartialEq, Eq)]
pub struct PkgEntry {
    pub raw: [u8; 32],
}

/// The big-endian 32-bit field at `at` of `b`.
pub open spec fn be32(b: Seq<u8>, at: int) -> u32 {
    be_value(b, at, 4) as u32
}

impl PkgEntry {
    /// Reads an entry from the first 32 bytes of `raw`.
    pub fn read(raw: &[u8]) -> (r: Result<Self, EntryError>)
        ensures
            raw@.len() < 32 <==> r is Err,
            r matches Ok(e) ==> e.raw@ == raw@.subrange(0, 32),
    {
        if raw.len() < PKG_ENTRY_SIZE {
            return Err(EntryError::SourceTooShort);
        }
        let mut b = [0u8; 32];
        let mut i: usize = 0;
        while i < 32
            invariant
                i <= 32,
                raw@.len() >= 32,
                forall|j: int| 0 <= j < i ==> b@[j] == raw@[j],
            decreases 32 - i,
        {
            b[i] = raw[i];
            i = i + 1;
        }
        assert(b@ =~= raw@.subrange(0, 32));
        Ok(PkgEntry { raw: b })
    }

    /// The numeric entry identifier.
    pub fn id(&self) -> (r: u32)
        ensures
            r == be32(self.raw@, 0),
    {
        read_u32_be(self.raw.as_slice(), 0)
    }

    /// The entry identifier.
    pub fn entry_id(&self) -> (r: EntryId)
        ensures
            r.spec_as_u32() == be32(self.raw@, 0),
            r is Unknown <==> !is_known_id(be32(self.raw@, 0)),
    {
        EntryId::from_u32(self.id())
    }

    /// Whether the entry's data is encrypted (top bit of the first flags).
    pub fn is_encrypted(&self) -> (r: bool)
        ensures
            r == (be32(self.raw@, 8) & 0x8000_0000 != 0),
    {
        read_u32_be(self.raw.as_slice(), 8) & 0x8000_0000 != 0
    }

    /// The index of the key the data is encrypted with (bits 12 to 15 of
    /// the second flags).
    pub fn key_index(&self) -> (r: usize)
        ensures
            r == (be32(self.raw@, 12) & 0xF000) >> 12u32,
    {
        ((read_u32_be(self.raw.as_slice(), 12) & 0xF000) >> 12u32) as usize
    }

    /// Where the entry's data starts in the file.
    pub fn data_offset(&self) -> (r: usize)
        ensures
            r == be32(self.raw@, 16),
    {
        read_u32_be(self.raw.as_slice(), 16) as usize
    }

    /// The size of the entry's data.
    pub fn data_size(&self) -> (r: usize)
        ensures
            r == be32(self.raw@, 20),
    {
        read_u32_be(self.raw.as_slice(), 20) as usize
    }

    /// The raw record.
    pub fn as_bytes(&self) -> (r: &[u8])
        ensures
            r@ == self.raw@,
    {
        self.raw.as_slice()
    }

    /// The path of the entry's file under `base`, or `None` for an unknown
    /// entry.
    pub fn to_path(&self, base: &str) -> (r: Option<String>)
        ensures
            r is None <==> !is_known_id(be32(self.raw@, 0)),
    {
        self.entry_id().to_path(base)
    }
}

/// The parsed PKG header.
#[derive(Debug)]
pub struct PkgHeader {
    raw: Vec<u8>,
}

impl PkgHeader {
    #[verifier::type_invariant]
    spec fn inv(self) -> bool {
        self.raw@.len() == 0x1000
    }

    /// The header's bytes.
    pub closed spec fn spec_raw(&self) -> Seq<u8> {
        self.raw@
    }

    /// Parses the header at the start of `pkg`.
    pub fn read(pkg: &[u8]) -> (r: Result<Self, ReadError>)
        ensures
            pkg@.len() < 0x1000 ==> r == Err::<Self, ReadError>(ReadError::TooSmall),
            pkg@.len() >= 0x1000 && be_value(pkg@, 0, 4) != 0x7F43_4E54 ==> r == Err::<Self, ReadError>(
                ReadError::InvalidMagic,
            ),
            pkg@.len() >= 0x1000 && be_value(pkg@, 0, 4) == 0x7F43_4E54 ==> (r matches Ok(h) && h.spec_raw()
                == pkg@.subrange(0, 0x1000)),
    {
        if pkg.len() < PKG_HEADER_SIZE {
            return Err(ReadError::TooSmall);
        }
        if read_u32_be(pkg, 0) != PKG_MAGIC {
            return Err(ReadError::InvalidMagic);
        }
        Ok(PkgHeader { raw: slice_range(pkg, 0, PKG_HEADER_SIZE) })
    }

    fn field32(&self, at: usize) -> (r: u32)
        requires
            at + 4 <= 0x1000,
        ensures
            r == be32(self.spec_raw(), at as int),
    {
        proof {
            use_type_invariant(self);
        }
        read_u32_be(self.raw.as_slice(), at)
    }

    fn field64(&self, at: usize) -> (r: u64)
        requires
            at + 8 <= 0x1000,
        ensures
            r == be_value(self.spec_raw(), at as int, 8),
    {
        proof {
            use_type_invariant(self);
        }
        read_u64_be(self.raw.as_slice(), at)
    }

    /// The number of entries.
    pub fn entry_count(&self) -> (r: usize)
        ensures
            r == be32(self.spec_raw(), 0x10),
    {
        self.field32(0x10) as usize
    }

    /// Where the entry table starts.
    pub fn table_offset(&self) -> (r: usize)
        ensures
            r == be32(self.spec_raw(), 0x18),
    {
        self.field32(0x18) as usize
    }

    /// Where the PFS image starts.
    pub fn pfs_offset(&self) -> (r: u64)
        ensures
            r == be_value(self.spec_raw(), 0x410, 8),
    {
        self.field64(0x410)
    }

    /// The size of the PFS image.
    pub fn pfs_size(&self) -> (r: u64)
        ensures
            r == be_value(self.spec_raw(), 0x418, 8),
    {
        self.field64(0x418)
    }

    /// The content ID.
    pub fn content_id(&self) -> (r: ContentId)
        ensures
            r.bytes@ == self.spec_raw().subrange(0x40, 0x64),
    {
        proof {
            use_type_invariant(self);
        }
        let mut bytes = [0u8; 36];
        let mut i: usize = 0;
        while i < 36
            invariant
                i <= 36,
                self.raw@.len() == 0x1000,
                forall|j: int| 0 <= j < i ==> bytes@[j] == self.raw@[0x40 + j],
            decreases 36 - i,
        {
            bytes[i] = self.raw[0x40 + i];
            i = i + 1;
        }
        assert(bytes@ =~= self.raw@.subrange(0x40, 0x64));
        ContentId { bytes }
    }

    /// The package type.
    pub fn pkg_type(&self) -> (r: u32)
        ensures
            r == be32(self.spec_raw(), 0x04),
    {
        self.field32(0x04)
    }

    /// The DRM type.
    pub fn drm_type(&self) -> (r: u32)
        ensures
            r == be32(self.spec_raw(), 0x70),
    {
        self.field32(0x70)
    }

    /// The content type.
    pub fn content_type(&self) -> (r: u32)
        ensures
            r == be32(self.spec_raw(), 0x74),
    {
        self.field32(0x74)
    }

    /// The content flags.
    pub fn content_flags(&self) -> (r: ContentFlags)
        ensures
            r.0 == be32(self.spec_raw(), 0x78),
    {
        ContentFlags(self.field32(0x78))
    }

    /// The size of the whole package.
    pub fn pkg_size(&self) -> (r: u64)
        ensures
            r == be_value(self.spec_raw(), 0x430, 8),
    {
        self.field64(0x430)
    }

    /// The number of files.
    pub fn file_count(&self) -> (r: u32)
        ensures
            r == be32(self.spec_raw(), 0x0C),
    {
        self.field32(0x0C)
    }

    /// A readable name for the DRM type.
    pub fn drm_type_name(&self) -> (r: &'static str) {
        drm_type_name(self.drm_type())
    }

    /// A readable name for the content type.
    pub fn content_type_name(&self) -> (r: &'static str) {
        content_type_name(self.content_type())
    }
}

/// Errors when looking an entry up.
#[derive(Debug, Clone, Copy, PartialEq, Eq)]
pub enum FindEntryError {
    ReadFailed { source: EntryError },
    InvalidOffset { num: usize },
    NotFound,
}

/// Errors when reading an entry of the table.
#[derive(Debug, Clone, Copy, PartialEq, Eq)]
pub enum EntryReadError {
    InvalidOffset { num: usize },
    ReadFailed { source: EntryError },
}

/// The record of entry `num` of the table at `table_offset` in `pkg`, where
/// the table reaches that far.
pub open spec fn entry_record(pkg: Seq<u8>, table_offset: int, num: int) -> Option<Seq<u8>> {
    let at = table_offset + num * 32;
    if at + 32 <= pkg.len() {
        Some(pkg.subrange(at, at + 32))
    } else {
        None
    }
}

/// Reads entry `num` of the entry table that `header` locates in `pkg`.
pub fn entry_at(pkg: &[u8], header: &PkgHeader, num: usize) -> (r: Result<PkgEntry, EntryReadError>)
    ensures
        entry_record(pkg@, be32(header.spec_raw(), 0x18) as int, num as int) matches Some(rec) ==> (r matches Ok(e) && e.raw@ == rec),
        entry_record(pkg@, be32(header.spec_raw(), 0x18) as int, num as int) is None ==> r == Err::<PkgEntry, EntryReadError>(EntryReadError::InvalidOffset { num }),
{
    let table_offset = header.table_offset();
    let len = pkg.len();
    if num > (len / PKG_ENTRY_SIZE) || table_offset > len || len - table_offset < num * PKG_ENTRY_SIZE || len - table_offset - num * PKG_ENTRY_SIZE < PKG_ENTRY_SIZE {
        return Err(EntryReadError::InvalidOffset { num });
    }
    let at = table_offset + num * PKG_ENTRY_SIZE;
    let (_, rest) = pkg.split_at(at);
    match PkgEntry::read(rest) {
        Ok(e) => Ok(e),
        Err(source) => Err(EntryReadError::ReadFailed { source }),
    }
}

/// Finds the first entry with identifier `id` among the `entry_count`
/// entries of the table; returns it with its index.
pub fn find_entry_raw(pkg: &[u8], header: &PkgHeader, id: u32) -> (r: Result<(PkgEntry, usize), FindEntryError>)
    ensures
        r matches Ok((e, num)) ==> num < be32(header.spec_raw(), 0x10) && be32(e.raw@, 0) == id
            && entry_record(pkg@, be32(header.spec_raw(), 0x18) as int, num as int) == Some(e.raw@)
            && forall|k: int| 0 <= k < num ==> ((#[trigger] entry_record(pkg@, be32(header.spec_raw(), 0x18) as int, k)) matches Some(rec) && be32(rec, 0) != id),
        r is Err && !(r matches Err(FindEntryError::InvalidOffset { .. })) ==> r == Err::<(PkgEntry, usize), FindEntryError>(FindEntryError::NotFound),
{
    let count = header.entry_count();
    let mut num: usize = 0;
    while num < count
        invariant
            num <= count,
            count == be32(header.spec_raw(), 0x10),
            forall|k: int| 0 <= k < num ==> ((#[trigger] entry_record(pkg@, be32(header.spec_raw(), 0x18) as int, k)) matches Some(rec) && be32(rec, 0) != id),
        decreases count - num,
    {
        let entry = match entry_at(pkg, header, num) {
            Ok(e) => e,
            Err(_) => {
                return Err(FindEntryError::InvalidOffset { num });
            },
        };
        if entry.id() == id {
            return Ok((entry, num));
        }
        num = num + 1;
    }
    Err(FindEntryError::NotFound)
}

/// The PFS image that `header` locates in `pkg`, where it lies within it.
pub fn get_pfs_image<'a>(pkg: &'a [u8], header: &PkgHeader) -> (r: Option<&'a [u8]>)
    ensures
        be_value(header.spec_raw(), 0x410, 8) + be_value(header.spec_raw(), 0x418, 8) <= pkg@.len() <==> r is Some,
        r matches Some(d) ==> d@ == pkg@.subrange(
            be_value(header.spec_raw(), 0x410, 8) as int,
            (be_value(header.spec_raw(), 0x410, 8) + be_value(header.spec_raw(), 0x418, 8)) as int,
        ),
{
    let offset = header.pfs_offset();
    let size = header.pfs_size();
    let len = pkg.len() as u64;
    if offset > len || size > len - offset {
        return None;
    }
    let (_, rest) = pkg.split_at(offset as usize);
    let (d, _) = rest.split_at(size as usize);
    Some(d)
}

/// Errors when getting the data of an entry.
#[derive(Debug, Clone, Copy, PartialEq, Eq)]
pub enum EntryDataError {
    NoDecryptionKey { key_index: usize },
    InvalidDataOffset,
    MisalignedData { size: usize },
}

/// The size of an entry's data rounded up to whole 16-byte blocks.
pub open spec fn padded_size(size: int) -> int {
    ((size + 15) / 16) * 16
}

/// The key and IV of an encrypted entry: the SHA-256 of the entry record
/// and the entry key gives the IV in its first half and the key in its
/// second.
pub fn derive_entry_key3(entry: &PkgEntry, entry_key3: &[u8]) -> (r: ([u8; 16], [u8; 16]))
    ensures
        r.0@ == sha256(entry.raw@ + entry_key3@).subrange(16, 32),
        r.1@ == sha256(entry.raw@ + entry_key3@).subrange(0, 16),
{
    let mut msg: Vec<u8> = Vec::new();
    let mut i: usize = 0;
    while i < 32
        invariant
            i <= 32,
            msg@ == entry.raw@.take(i as int),
        decreases 32 - i,
    {
        msg.push(entry.raw[i]);
        i = i + 1;
        assert(msg@ =~= entry.raw@.take(i as int));
    }
    let mut i: usize = 0;
    while i < entry_key3.len()
        invariant
            i <= entry_key3@.len(),
            msg@ == entry.raw@ + entry_key3@.take(i as int),
        decreases entry_key3@.len() - i,
    {
        msg.push(entry_key3[i]);
        i = i + 1;
        assert(msg@ =~= entry.raw@ + entry_key3@.take(i as int));
    }
    assert(entry_key3@.take(entry_key3@.len() as int) =~= entry_key3@);
    let secret = sha256_of(msg.as_slice());
    let mut key = [0u8; 16];
    let mut iv = [0u8; 16];
    let mut i: usize = 0;
    while i < 16
        invariant
            i <= 16,
            secret@.len() == 32,
            forall|j: int| 0 <= j < i ==> iv@[j] == secret@[j],
            forall|j: int| 0 <= j < i ==> key@[j] == secret@[16 + j],
        decreases 16 - i,
    {
        iv[i] = secret[i];
        key[i] = secret[16 + i];
        i = i + 1;
    }
    assert(key@ =~= secret@.subrange(16, 32));
    assert(iv@ =~= secret@.subrange(0, 16));
    (key, iv)
}

/// Decrypts the data of an encrypted entry, whole 16-byte blocks of it.
pub fn decrypt_entry_data(entry: &PkgEntry, entry_key3: &[u8], encrypted: &[u8]) -> (r: Vec<u8>)
    requires
        encrypted@.len() % 16 == 0,
    ensures
        r@ == cbc_decrypted(
            sha256(entry.raw@ + entry_key3@).subrange(16, 32),
            sha256(entry.raw@ + entry_key3@).subrange(0, 16),
            encrypted@,
        ),
        r@.len() == encrypted@.len(),
{
    let (key, iv) = derive_entry_key3(entry, entry_key3);
    match aes128_cbc_decrypt(&key, &iv, encrypted) {
        Some(v) => v,
        None => Vec::new(),
    }
}

/// The data of the entry with record `rec` in `pkg`, or the error that
/// reading it gives.
pub open spec fn expected_entry_data(pkg: Seq<u8>, rec: Seq<u8>, entry_key3: Seq<u8>) -> Result<Seq<u8>, EntryDataError> {
    let encrypted = be32(rec, 8) & 0x8000_0000 != 0;
    let key_index = (be32(rec, 12) & 0xF000) >> 12u32;
    let offset = be32(rec, 16) as int;
    let size = be32(rec, 20) as int;
    let stored = if encrypted {
        padded_size(size)
    } else {
        size
    };
    if encrypted && (key_index != 3 || entry_key3.len() == 0) {
        Err(EntryDataError::NoDecryptionKey { key_index: key_index as usize })
    } else if offset + stored > pkg.len() {
        Err(EntryDataError::InvalidDataOffset)
    } else if encrypted {
        Ok(
            cbc_decrypted(
                sha256(rec + entry_key3).subrange(16, 32),
                sha256(rec + entry_key3).subrange(0, 16),
                pkg.subrange(offset, offset + stored),
            ).take(size),
        )
    } else {
        Ok(pkg.subrange(offset, offset + size))
    }
}

/// The data of `entry` in `pkg`: as stored, or decrypted with the entry
/// key and cut to its size where it is encrypted. Only key 3 is known.
pub fn entry_data(pkg: &[u8], entry: &PkgEntry, entry_key3: &[u8]) -> (r: Result<Vec<u8>, EntryDataError>)
    ensures
        match expected_entry_data(pkg@, entry.raw@, entry_key3@) {
            Ok(d) => r matches Ok(v) && v@ == d,
            Err(e) => r == Err::<Vec<u8>, EntryDataError>(e),
        },
{
    let encrypted = entry.is_encrypted();
    let key_index = entry.key_index();
    if encrypted && (key_index != 3 || entry_key3.len() == 0) {
        return Err(EntryDataError::NoDecryptionKey { key_index });
    }
    let offset = entry.data_offset();
    let size = entry.data_size();
    // Encrypted data fills whole blocks.
    let stored64: u64 = if encrypted {
        proof {
            assert(((size + 15) / 16) * 16 <= size + 15) by (nonlinear_arith);
            assert(((size + 15) / 16) * 16 >= size) by (nonlinear_arith);
        }
        ((size as u64 + 15) / 16) * 16
    } else {
        size as u64
    };
    if offset > pkg.len() || stored64 > (pkg.len() - offset) as u64 {
        return Err(EntryDataError::InvalidDataOffset);
    }
    let stored = stored64 as usize;
    let (_, rest) = pkg.split_at(offset);
    let (raw, _) = rest.split_at(stored);
    if encrypted {
        if raw.len() % 16 != 0 {
            return Err(EntryDataError::MisalignedData { size: raw.len() });
        }
        let mut data = decrypt_entry_data(entry, entry_key3, raw);
        proof {
            vstd::arithmetic::div_mod::lemma_mod_multiples_basic(((size + 15) / 16) as int, 16);
        }
        data.truncate(size);
        proof {
            assert(raw@ =~= pkg@.subrange(offset as int, offset + stored));
        }
        Ok(data)
    } else {
        let d = slice_range(raw, 0, raw.len());
        assert(d@ =~= pkg@.subrange(offset as int, offset + size));
        Ok(d)
    }
}

/// The embedded PFS image and the key that opens it.
pub struct PfsImage<'a> {
    pub data: &'a [u8],
    pub ekpfs: &'a [u8],
}

/// A package: its bytes, its header, and the keys that its entries and its
/// PFS image need (the entry key 3 and EKPFS, unwrapped beforehand).
pub struct Pkg<'a> {
    raw: &'a [u8],
    header: PkgHeader,
    entry_key3: Vec<u8>,
    ekpfs: Vec<u8>,
}

impl<'a> Pkg<'a> {
    pub closed spec fn spec_raw(&self) -> Seq<u8> {
        self.raw@
    }

    pub closed spec fn spec_header(&self) -> PkgHeader {
        self.header
    }

    pub closed spec fn spec_entry_key3(&self) -> Seq<u8> {
        self.entry_key3@
    }

    pub closed spec fn spec_ekpfs(&self) -> Seq<u8> {
        self.ekpfs@
    }

    /// The package in `raw`, with its unwrapped keys.
    pub fn new(raw: &'a [u8], entry_key3: Vec<u8>, ekpfs: Vec<u8>) -> (r: Result<Self, ReadError>)
        ensures
            raw@.len() < 0x1000 ==> r == Err::<Self, ReadError>(ReadError::TooSmall),
            raw@.len() >= 0x1000 && be_value(raw@, 0, 4) != 0x7F43_4E54 ==> r == Err::<Self, ReadError>(
                ReadError::InvalidMagic,
            ),
            raw@.len() >= 0x1000 && be_value(raw@, 0, 4) == 0x7F43_4E54 ==> (r matches Ok(p)
                && p.spec_raw() == raw@ && p.spec_header().spec_raw() == raw@.subrange(0, 0x1000)
                && p.spec_entry_key3() == entry_key3@ && p.spec_ekpfs() == ekpfs@),
    {
        let header = PkgHeader::read(raw)?;
        Ok(Pkg { raw, header, entry_key3, ekpfs })
    }

    /// The header.
    pub fn header(&self) -> (r: &PkgHeader)
        ensures
            *r == self.spec_header(),
    {
        &self.header
    }

    /// The number of entries.
    pub fn entry_count(&self) -> (r: usize)
        ensures
            r == be32(self.spec_header().spec_raw(), 0x10),
    {
        self.header.entry_count()
    }

    /// Entry `num` of the entry table.
    pub fn entry(&self, num: usize) -> (r: Result<PkgEntry, EntryReadError>)
        ensures
            entry_record(self.spec_raw(), be32(self.spec_header().spec_raw(), 0x18) as int, num as int) matches Some(rec)
                ==> (r matches Ok(e) && e.raw@ == rec),
            entry_record(self.spec_raw(), be32(self.spec_header().spec_raw(), 0x18) as int, num as int) is None
                ==> r == Err::<PkgEntry, EntryReadError>(EntryReadError::InvalidOffset { num }),
    {
        entry_at(self.raw, &self.header, num)
    }

    /// The data of `entry`, decrypted where it is encrypted.
    pub fn entry_data(&self, entry: &PkgEntry) -> (r: Result<Vec<u8>, EntryDataError>)
        ensures
            match expected_entry_data(self.spec_raw(), entry.raw@, self.spec_entry_key3()) {
                Ok(d) => r matches Ok(v) && v@ == d,
                Err(e) => r == Err::<Vec<u8>, EntryDataError>(e),
            },
    {
        entry_data(self.raw, entry, self.entry_key3.as_slice())
    }

    /// The PFS image and its key, where the header locates the image within
    /// the package.
    pub fn get_pfs_image(&self) -> (r: Option<PfsImage<'_>>)
        ensures
            r matches Some(p) ==> p.data@ == self.spec_raw().subrange(
                be_value(self.spec_header().spec_raw(), 0x410, 8) as int,
                (be_value(self.spec_header().spec_raw(), 0x410, 8) + be_value(self.spec_header().spec_raw(), 0x418, 8)) as int,
            ) && p.ekpfs@ == self.spec_ekpfs(),
            r is Some <==> be_value(self.spec_header().spec_raw(), 0x410, 8) + be_value(self.spec_header().spec_raw(), 0x418, 8)
                <= self.spec_raw().len(),
    {
        match get_pfs_image(self.raw, &self.header) {
            Some(data) => Some(PfsImage { data, ekpfs: self.ekpfs.as_slice() }),
            None => None,
        }
    }

    /// The first entry with the identifier `id`, and its index.
    pub fn find_entry(&self, id: EntryId) -> (r: Result<(PkgEntry, usize), FindEntryError>)
        requires
            id.spec_as_u32() <= u32::MAX,
        ensures
            r matches Ok((e, _)) ==> be32(e.raw@, 0) == id.spec_as_u32(),
    {
        self.find_entry_raw(id.as_u32())
    }

    /// The first entry with the numeric identifier `id`, and its index.
    pub fn find_entry_raw(&self, id: u32) -> (r: Result<(PkgEntry, usize), FindEntryError>)
        ensures
            r matches Ok((e, num)) ==> num < be32(self.spec_header().spec_raw(), 0x10) && be32(e.raw@, 0) == id,
            r is Err && !(r matches Err(FindEntryError::InvalidOffset { .. })) ==> r == Err::<(PkgEntry, usize), FindEntryError>(FindEntryError::NotFound),
    {
        find_entry_raw(self.raw, &self.header, id)
    }
}

} // verus!
