//! PFSC: an image made of independently deflate-compressed blocks, read
//! through a decompressing image layer.

use vstd::prelude::*;

use crate::bytes::{copy_bytes, le_value, read_u32_le, read_u64_le, zeroed};
use crate::image::{Image, ImageError};

verus! {

/// The size of the PFSC header.
pub const PFSC_HEADER_SIZE: usize = 48;

/// What a fresh `flate2::Decompress` for zlib streams yields on `input`
/// with `FlushDecompress::Finish` into a buffer of `cap` bytes: `None` for
/// an error, else whether the stream ended and the bytes written.
pub uninterp spec fn zlib_inflate(input: Seq<u8>, cap: nat) -> Option<(bool, Seq<u8>)>;

/// Relies on `flate2::Decompress::new(true)` and one call of its
/// `decompress` with `FlushDecompress::Finish`: the output is written to
/// the front of `out`, `total_out` counts it, and all of it depends on the
/// input and the size of `out` alone.
#[verifier::external_body]
fn inflate(input: &[u8], out: &mut [u8]) -> (r: Option<(bool, u64)>)
    ensures
        final(out)@.len() == old(out)@.len(),
        r is None <==> zlib_inflate(input@, old(out)@.len()) is None,
        r matches Some((end, n)) ==> n <= old(out)@.len() && zlib_inflate(input@, old(out)@.len())
            == Some((end, final(out)@.subrange(0, n as int))),
{
    let mut d = flate2::Decompress::new(true);
    match d.decompress(input, out, flate2::FlushDecompress::Finish) {
        Ok(flate2::Status::StreamEnd) => Some((true, d.total_out())),
        Ok(flate2::Status::Ok) => Some((false, d.total_out())),
        Ok(flate2::Status::BufError) => Some((false, d.total_out())),
        Err(_) => None,
    }
}

/// Errors when opening a PFSC image.
#[derive(Debug, Clone, Copy, PartialEq, Eq)]
pub enum OpenError {
    IoFailed { source: ImageError },
    TooSmall,
    InvalidMagic,
    InvalidBlockSize,
    ReadBlockMappingFailed { source: ImageError },
}

/// A decompressing image over a PFSC image.
pub struct PfscImage<I: Image> {
    source: I,
    block_size: u32,
    original_block_size: u64,
    compressed_blocks: Vec<u64>,
    original_size: u64,
}

impl<I: Image> PfscImage<I> {
    #[verifier::type_invariant]
    spec fn inv(self) -> bool {
        self.block_size > 0 && self.original_block_size > 0
    }

    pub closed spec fn spec_source(&self) -> I {
        self.source
    }

    /// The size of a decompressed block.
    pub closed spec fn spec_block_size(&self) -> u32 {
        self.block_size
    }

    /// The size at or above which a block is stored or sparse.
    pub closed spec fn spec_original_block_size(&self) -> u64 {
        self.original_block_size
    }

    /// Where each compressed block starts in the source.
    pub closed spec fn spec_offsets(&self) -> Seq<u64> {
        self.compressed_blocks@
    }

    /// The length of the decompressed data.
    pub closed spec fn spec_original_size(&self) -> u64 {
        self.original_size
    }

    /// Block `i` decompressed, where the offset table and the source allow.
    pub open spec fn block_plain(&self, i: int) -> Seq<u8> {
        let start = self.spec_offsets()[i];
        let end = self.spec_offsets()[i + 1];
        let size = end - start;
        let bs = self.spec_block_size() as nat;
        if size < self.spec_original_block_size() {
            zlib_inflate(self.spec_source().content().subrange(start as int, end as int), bs)->Some_0.1
        } else if size == self.spec_original_block_size() {
            self.spec_source().content().subrange(start as int, start + bs)
        } else {
            Seq::new(bs, |j: int| 0u8)
        }
    }

    /// Whether block `i` decodes: its offsets are in the table and ordered,
    /// and it is sparse, or stored within the source, or a zlib stream
    /// within the source that ends and inflates to a whole block.
    pub open spec fn block_decodable(&self, i: int) -> bool {
        let offs = self.spec_offsets();
        let content = self.spec_source().content();
        let bs = self.spec_block_size() as int;
        0 <= i && i + 1 < offs.len() && offs[i] <= offs[i + 1] && ({
            let start = offs[i] as int;
            let end = offs[i + 1] as int;
            let size = end - start;
            size > self.spec_original_block_size()
            || (size == self.spec_original_block_size() && start + bs <= content.len())
            || (0 < size < self.spec_original_block_size() && end <= content.len() && size <= usize::MAX
                && zlib_inflate(content.subrange(start, end), bs as nat) is Some
                && zlib_inflate(content.subrange(start, end), bs as nat)->Some_0.0
                && zlib_inflate(content.subrange(start, end), bs as nat)->Some_0.1.len() == bs)
        })
    }

    /// Opens the PFSC image in `source`: reads its header and its table of
    /// block offsets.
    pub fn open(source: I) -> (r: Result<Self, OpenError>)
        ensures
            source.content().len() < 48 ==> r is Err,
            source.content().len() >= 48 && source.content().subrange(0, 4) != seq![0x50u8, 0x46u8, 0x53u8, 0x43u8] ==> r is Err,
            source.never_fails() ==> (source.content().len() < 48 <==> r == Err::<Self, OpenError>(OpenError::TooSmall)),
            r == Err::<Self, OpenError>(OpenError::InvalidMagic) ==> source.content().len() >= 48
                && source.content().subrange(0, 4) != seq![0x50u8, 0x46u8, 0x53u8, 0x43u8],
            source.never_fails() && source.content().len() >= 48 && source.content().subrange(0, 4)
                != seq![0x50u8, 0x46u8, 0x53u8, 0x43u8] ==> r == Err::<Self, OpenError>(OpenError::InvalidMagic),
            r == Err::<Self, OpenError>(OpenError::InvalidBlockSize) ==> source.content().len() >= 48 && (
                le_value(source.content(), 0x0C, 4) == 0 || le_value(source.content(), 0x10, 8) == 0),
            source.never_fails() && source.content().len() >= 48 && source.content().subrange(0, 4)
                == seq![0x50u8, 0x46u8, 0x53u8, 0x43u8] && (le_value(source.content(), 0x0C, 4) == 0
                || le_value(source.content(), 0x10, 8) == 0) ==> r == Err::<Self, OpenError>(
                OpenError::InvalidBlockSize,
            ),
            source.never_fails() && source.content().len() >= 48 && source.content().subrange(0, 4)
                == seq![0x50u8, 0x46u8, 0x53u8, 0x43u8] && le_value(source.content(), 0x0C, 4) != 0
                && le_value(source.content(), 0x10, 8) != 0 ==> {
                let h = source.content();
                let blocks = le_value(h, 0x28, 8) / le_value(h, 0x10, 8);
                let table_end = le_value(h, 0x18, 8) + (blocks + 2) * 8;
                &&& (r is Ok <==> blocks < usize::MAX / 8 - 2 && table_end <= h.len())
                &&& r is Err ==> r matches Err(OpenError::ReadBlockMappingFailed { .. })
            },
            r matches Ok(p) ==> {
                let h = source.content();
                &&& p.spec_source() == source
                &&& p.spec_block_size() == le_value(h, 0x0C, 4)
                &&& p.spec_original_block_size() == le_value(h, 0x10, 8)
                &&& p.spec_original_size() == le_value(h, 0x28, 8)
                &&& p.spec_offsets().len() == p.spec_original_size() / p.spec_original_block_size() + 2
                &&& forall|i: int| 0 <= i < p.spec_offsets().len() ==> #[trigger] p.spec_offsets()[i]
                    == le_value(h, le_value(h, 0x18, 8) + 8 * i, 8)
            },
    {
        let mut header = zeroed(PFSC_HEADER_SIZE);
        match source.read_exact_at(0, header.as_mut_slice()) {
            Ok(()) => {},
            Err(ImageError::UnexpectedEof) => {
                return Err(OpenError::TooSmall);
            },
            Err(e) => {
                return Err(OpenError::IoFailed { source: e });
            },
        }
        if !(header[0] == 0x50 && header[1] == 0x46 && header[2] == 0x53 && header[3] == 0x43) {
            proof {
                assert(header@.subrange(0, 4) =~= source.content().subrange(0, 4));
            }
            return Err(OpenError::InvalidMagic);
        }
        let block_size = read_u32_le(header.as_slice(), 0x0C);
        let original_block_size = read_u64_le(header.as_slice(), 0x10);
        let block_offsets = read_u64_le(header.as_slice(), 0x18);
        let original_size = read_u64_le(header.as_slice(), 0x28);
        proof {
            let h = source.content();
            assert(h.subrange(0, 4) =~= seq![0x50u8, 0x46u8, 0x53u8, 0x43u8]);
            assert forall|k: int, n: nat| 0 <= k && k + n <= 48 implies le_value(header@, k, n) == le_value(h, k, n) by {
                assert forall|j: int| 0 <= j < n implies #[trigger] header@[k + j] == h[k + j] by {
                    assert(header@[k + j] == h.subrange(0, 48)[k + j]);
                }
                lemma_le_value_agree(header@, k, h, k, n);
            }
            assert(le_value(header@, 0x0C, 4) == le_value(h, 0x0C, 4));
            assert(le_value(header@, 0x10, 8) == le_value(h, 0x10, 8));
            assert(le_value(header@, 0x18, 8) == le_value(h, 0x18, 8));
            assert(le_value(header@, 0x28, 8) == le_value(h, 0x28, 8));
        }
        if block_size == 0 || original_block_size == 0 {
            return Err(OpenError::InvalidBlockSize);
        }
        // One entry per block, and one past the last.
        let blocks = original_size / original_block_size;
        if blocks >= (usize::MAX / 8) as u64 - 2 {
            return Err(OpenError::ReadBlockMappingFailed { source: ImageError::InvalidInput });
        }
        let count = blocks + 2;
        let mut table = zeroed((count * 8) as usize);
        match source.read_exact_at(block_offsets, table.as_mut_slice()) {
            Ok(()) => {
                assert forall|j: int| 0 <= j < count * 8 implies #[trigger] table@[j] == source.content()[block_offsets + j] by {
                    assert(table@[j] == source.content().subrange(block_offsets as int, block_offsets + count * 8)[j]);
                }
            },
            Err(e) => {
                return Err(OpenError::ReadBlockMappingFailed { source: e });
            },
        }
        let mut compressed_blocks: Vec<u64> = Vec::new();
        let mut i: usize = 0;
        while (i as u64) < count
            invariant
                table@.len() == count * 8,
                count * 8 <= usize::MAX,
                compressed_blocks@.len() == i,
                i <= count,
                block_offsets + count * 8 <= source.content().len(),
                block_size == le_value(source.content(), 0x0C, 4),
                original_block_size == le_value(source.content(), 0x10, 8),
                original_block_size > 0,
                block_offsets == le_value(source.content(), 0x18, 8),
                original_size == le_value(source.content(), 0x28, 8),
                count == original_size / original_block_size + 2,
                forall|j: int| 0 <= j < count * 8 ==> #[trigger] table@[j] == source.content()[block_offsets + j],
                forall|k: int| 0 <= k < i ==> #[trigger] compressed_blocks@[k] == le_value(
                    source.content(),
                    block_offsets + 8 * k,
                    8,
                ),
            decreases count - i,
        {
            let v = read_u64_le(table.as_slice(), i * 8);
            proof {
                assert forall|j: int| 0 <= j < 8 implies #[trigger] table@[i * 8 + j] == source.content()[(block_offsets + 8 * i) + j] by {
                    assert(table@[i * 8 + j] == source.content()[block_offsets + (i * 8 + j)]);
                }
                lemma_le_value_agree(table@, i * 8, source.content(), block_offsets + 8 * i, 8);
            }
            compressed_blocks.push(v);
            i = i + 1;
        }
        Ok(PfscImage { source, block_size, original_block_size, compressed_blocks, original_size })
    }

    /// The length of the decompressed data.
    pub fn decompressed_len(&self) -> (r: u64)
        ensures
            r == self.spec_original_size(),
    {
        self.original_size
    }

    /// The compressed image.
    pub fn source(&self) -> (r: &I)
        ensures
            *r == self.spec_source(),
    {
        &self.source
    }

    /// The original block size of the header.
    pub fn original_block_size(&self) -> (r: u64)
        ensures
            r == self.spec_original_block_size(),
    {
        self.original_block_size
    }

    /// The table of block offsets: block `i` lies between entries `i` and
    /// `i + 1`.
    pub fn compressed_block_offsets(&self) -> (r: &[u64])
        ensures
            r@ == self.spec_offsets(),
    {
        self.compressed_blocks.as_slice()
    }

    /// Decodes block `num` into `out`: inflated where its compressed size
    /// is below the original block size, copied where equal, zeros where
    /// above.
    fn decompress_block(&self, num: u64, out: &mut [u8]) -> (r: Result<(), ImageError>)
        requires
            old(out)@.len() == self.spec_block_size(),
        ensures
            final(out)@.len() == old(out)@.len(),
            r is Ok ==> num + 1 < self.spec_offsets().len() && final(out)@ == self.block_plain(num as int),
            num + 1 >= self.spec_offsets().len() ==> r == Err::<(), ImageError>(ImageError::InvalidInput),
            num + 1 < self.spec_offsets().len() && self.spec_offsets()[num + 1] < self.spec_offsets()[num as int]
                ==> r == Err::<(), ImageError>(ImageError::InvalidCompressedBlock { block: num }),
            num + 1 < self.spec_offsets().len() && self.spec_offsets()[num as int] <= self.spec_offsets()[num + 1]
                && self.spec_offsets()[num + 1] - self.spec_offsets()[num as int] > self.spec_original_block_size()
                ==> r is Ok,
            self.spec_source().never_fails() ==> (r is Ok <==> self.block_decodable(num as int)),
            r is Ok ==> self.block_decodable(num as int),
    {
        proof {
            use_type_invariant(self);
        }
        if num >= self.compressed_blocks.len() as u64 || num + 1 >= self.compressed_blocks.len() as u64 {
            return Err(ImageError::InvalidInput);
        }
        let end = self.compressed_blocks[num as usize + 1];
        let offset = self.compressed_blocks[num as usize];
        if end < offset {
            return Err(ImageError::InvalidCompressedBlock { block: num });
        }
        let size = end - offset;
        if size < self.original_block_size {
            // An empty stream holds no block.
            if size == 0 || size > usize::MAX as u64 {
                return Err(ImageError::InvalidCompressedBlock { block: num });
            }
            let mut compressed = zeroed(size as usize);
            self.source.read_exact_at(offset, compressed.as_mut_slice())?;
            match inflate(compressed.as_slice(), out) {
                Some((true, n)) => {
                    if n != out.len() as u64 {
                        return Err(ImageError::InvalidCompressedBlock { block: num });
                    }
                    proof {
                        assert(out@.subrange(0, n as int) =~= out@);
                    }
                },
                _ => {
                    return Err(ImageError::InvalidCompressedBlock { block: num });
                },
            }
        } else if size == self.original_block_size {
            self.source.read_exact_at(offset, out)?;
            proof {
                if out@.len() == 0 {
                    assert(out@ =~= self.source.content().subrange(offset as int, offset as int));
                }
            }
        } else {
            let n = out.len();
            fill_zero(out, n);
            assert(out@ =~= Seq::new(self.block_size as nat, |j: int| 0u8));
        }
        Ok(())
    }
}

/// An image stack that holds a PFSC layer.
pub trait HasPfsc: Image {
    /// The original block size.
    fn pfsc_block_size(&self) -> u64;

    /// The table of block offsets.
    fn pfsc_block_offsets(&self) -> &[u64];
}

impl<I: Image> HasPfsc for PfscImage<I> {
    fn pfsc_block_size(&self) -> u64 {
        self.original_block_size
    }

    fn pfsc_block_offsets(&self) -> &[u64] {
        self.compressed_blocks.as_slice()
    }
}

impl<I: crate::image::HasEncryption> crate::image::HasEncryption for PfscImage<I> {
    fn xts_keys(&self) -> ([u8; 16], [u8; 16]) {
        self.source.xts_keys()
    }

    fn xts_encrypted_start(&self) -> usize {
        self.source.xts_encrypted_start()
    }
}

/// Whether the blocks of `p` decode to `d`: block `i` holds the bytes of
/// `d` from `i * block_size` on, as far as `d` goes.
pub open spec fn decodes_to<I: Image>(p: PfscImage<I>, d: Seq<u8>) -> bool {
    let bs = p.spec_block_size() as int;
    forall|i: int, j: int|
        0 <= i && 0 <= j < bs && i * bs + j < d.len() ==> #[trigger] p.block_plain(i)[j] == d[i * bs + j]
}

/// A PFSC image whose blocks decode to `d`, and whose length is that of
/// `d`, reads as `d`: every read at `o` of `r` bytes within it gives
/// `d[o..o + r]`.
pub proof fn lemma_pfsc_reads_original<I: Image>(p: PfscImage<I>, d: Seq<u8>)
    requires
        p.spec_block_size() > 0,
        p.spec_original_size() == d.len(),
        decodes_to(p, d),
    ensures
        p.content() == d,
        forall|o: int, r: int| 0 <= o && 0 <= r && o + r <= d.len() ==> #[trigger] p.content().subrange(o, o + r) == d.subrange(o, o + r),
{
    let bs = p.spec_block_size() as int;
    assert forall|x: int| 0 <= x < d.len() implies #[trigger] p.content()[x] == d[x] by {
        vstd::arithmetic::div_mod::lemma_fundamental_div_mod(x, bs);
        vstd::arithmetic::div_mod::lemma_mod_pos_bound(x, bs);
        vstd::arithmetic::div_mod::lemma_div_pos_is_pos(x, bs);
        assert(x / bs * bs + x % bs == x) by (nonlinear_arith)
            requires x == bs * (x / bs) + x % bs;
        assert(p.block_plain(x / bs)[x % bs] == d[(x / bs) * bs + x % bs]);
    }
    assert(p.content() =~= d);
}

/// Equal bytes give equal little-endian values.
proof fn lemma_le_value_agree(a: Seq<u8>, ka: int, b: Seq<u8>, kb: int, n: nat)
    requires
        forall|j: int| 0 <= j < n ==> #[trigger] a[ka + j] == b[kb + j],
    ensures
        le_value(a, ka, n) == le_value(b, kb, n),
    decreases n,
{
    if n > 0 {
        assert(a[ka + 0] == b[kb + 0]);
        assert forall|j: int| 0 <= j < n - 1 implies #[trigger] a[(ka + 1) + j] == b[(kb + 1) + j] by {
            assert(a[ka + (j + 1)] == b[kb + (j + 1)]);
        }
        lemma_le_value_agree(a, ka + 1, b, kb + 1, (n - 1) as nat);
    }
}

/// Sets the first `n` bytes of `buf` to zero.
fn fill_zero(buf: &mut [u8], n: usize)
    requires
        n == old(buf)@.len(),
    ensures
        final(buf)@.len() == n,
        forall|j: int| 0 <= j < n ==> final(buf)@[j] == 0,
{
    let mut k: usize = 0;
    while k < n
        invariant
            k <= n,
            buf@.len() == n,
            forall|j: int| 0 <= j < k ==> buf@[j] == 0,
        decreases n - k,
    {
        buf[k] = 0;
        k = k + 1;
    }
}

impl<I: Image> Image for PfscImage<I> {
    /// Reads never fail where the source's do not and every block of the
    /// data decodes.
    open spec fn never_fails(&self) -> bool {
        self.spec_source().never_fails() && forall|i: int|
            0 <= i && i * self.spec_block_size() < self.spec_original_size() ==> #[trigger] self.block_decodable(i)
    }

    /// The decompressed data: each byte as its block decodes.
    open spec fn content(&self) -> Seq<u8> {
        Seq::new(
            self.spec_original_size() as nat,
            |x: int| self.block_plain(x / self.spec_block_size() as int)[x % self.spec_block_size() as int],
        )
    }

    fn read_at(&self, offset: u64, buf: &mut [u8]) -> (r: Result<usize, ImageError>)
        ensures
            old(buf)@.len() == 0 || offset >= self.content().len() ==> r == Ok::<usize, ImageError>(0),
            r matches Ok(n) ==> offset < self.content().len() ==> n == if old(buf)@.len()
                < self.content().len() - offset {
                old(buf)@.len() as int
            } else {
                self.content().len() - offset
            },
    {
        proof {
            use_type_invariant(self);
        }
        let cap = buf.len();
        if cap == 0 || offset >= self.original_size {
            return Ok(0);
        }
        let block_size = self.block_size as u64;
        let mut copied: usize = 0;
        let mut pos: u64 = offset;
        let mut block_buf = zeroed(self.block_size as usize);
        while copied < cap && pos < self.original_size
            invariant
                cap == buf@.len(),
                cap == old(buf)@.len(),
                copied <= cap,
                pos == offset + copied,
                pos <= self.spec_original_size(),
                block_size == self.spec_block_size(),
                block_size > 0,
                block_buf@.len() == block_size,
                buf@.subrange(0, copied as int) == self.content().subrange(offset as int, pos as int),
            decreases cap - copied,
        {
            let block_index = pos / block_size;
            let offset_in_block = (pos % block_size) as usize;
            proof {
                vstd::arithmetic::div_mod::lemma_fundamental_div_mod(pos as int, block_size as int);
            }
            self.decompress_block(block_index, block_buf.as_mut_slice())?;
            // The valid bytes of the block end at the end of the data.
            let block_start = block_index * block_size;
            let valid: u64 = if self.original_size - block_start < block_size {
                self.original_size - block_start
            } else {
                block_size
            };
            let mut n: usize = (valid - offset_in_block as u64) as usize;
            if cap - copied < n {
                n = cap - copied;
            }
            let ghost before = buf@;
            copy_bytes(buf, copied, block_buf.as_slice(), offset_in_block, n);
            assert(buf@.subrange(0, copied + n) =~= self.content().subrange(offset as int, pos + n)) by {
                assert forall|j: int| copied <= j < copied + n implies buf@[j] == self.content()[offset + j] by {
                    crate::bytes::lemma_div_mod_parts(offset + j, block_size as int, block_index as int, offset_in_block + (j - copied));
                }
                assert(buf@.subrange(0, copied as int) =~= before.subrange(0, copied as int));
            }
            copied = copied + n;
            pos = pos + n as u64;
        }
        Ok(copied)
    }

    fn len(&self) -> (r: u64) {
        self.original_size
    }
}

} // verus!
