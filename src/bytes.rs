//! Little-endian integers and byte copies.

use vstd::prelude::*;

verus! {

/// The little-endian value of the bytes `b[at..at + n]`.
pub open spec fn le_value(b: Seq<u8>, at: int, n: nat) -> nat
    decreases n,
{
    if n == 0 {
        0
    } else {
        b[at] as nat + 256 * le_value(b, at + 1, (n - 1) as nat)
    }
}

/// The big-endian value of the bytes `b[at..at + n]`.
pub open spec fn be_value(b: Seq<u8>, at: int, n: nat) -> nat
    decreases n,
{
    if n == 0 {
        0
    } else {
        be_value(b, at, (n - 1) as nat) * 256 + b[at + n - 1] as nat
    }
}

/// Reads a big-endian `u32` at `at`.
pub fn read_u32_be(b: &[u8], at: usize) -> (r: u32)
    requires
        at + 4 <= b@.len(),
    ensures
        r as nat == be_value(b@, at as int, 4),
{
    proof {
        reveal_with_fuel(be_value, 5);
    }
    let _ = b.len();
    ((b[at] as u32 * 256 + b[at + 1] as u32) * 256 + b[at + 2] as u32) * 256 + b[at + 3] as u32
}

/// Reads a big-endian `u64` at `at`.
pub fn read_u64_be(b: &[u8], at: usize) -> (r: u64)
    requires
        at + 8 <= b@.len(),
    ensures
        r as nat == be_value(b@, at as int, 8),
{
    let _ = b.len();
    let hi = read_u32_be(b, at) as u64;
    let lo = read_u32_be(b, at + 4) as u64;
    proof {
        reveal_with_fuel(be_value, 9);
        assert(be_value(b@, at as int, 8) == be_value(b@, at as int, 4) * 0x1_0000_0000 + be_value(b@, at + 4, 4));
    }
    hi * 0x1_0000_0000 + lo
}

/// `dst` with `src[src_at..src_at + n]` written over `dst[dst_at..dst_at + n]`.
pub open spec fn spliced(dst: Seq<u8>, dst_at: int, src: Seq<u8>, src_at: int, n: int) -> Seq<u8> {
    dst.subrange(0, dst_at) + src.subrange(src_at, src_at + n) + dst.subrange(
        dst_at + n,
        dst.len() as int,
    )
}

/// Reads a little-endian `u16` at `at`.
pub fn read_u16_le(b: &[u8], at: usize) -> (r: u16)
    requires
        at + 2 <= b@.len(),
    ensures
        r as nat == le_value(b@, at as int, 2),
{
    proof {
        reveal_with_fuel(le_value, 3);
    }
    b[at] as u16 + (b[at + 1] as u16) * 256
}

/// Reads a little-endian `u32` at `at`.
pub fn read_u32_le(b: &[u8], at: usize) -> (r: u32)
    requires
        at + 4 <= b@.len(),
    ensures
        r as nat == le_value(b@, at as int, 4),
{
    proof {
        reveal_with_fuel(le_value, 5);
    }
    b[at] as u32 + 256 * (b[at + 1] as u32 + 256 * (b[at + 2] as u32 + 256 * (b[at + 3] as u32)))
}

/// Reads a little-endian `u64` at `at`.
pub fn read_u64_le(b: &[u8], at: usize) -> (r: u64)
    requires
        at + 8 <= b@.len(),
    ensures
        r as nat == le_value(b@, at as int, 8),
{
    proof {
        reveal_with_fuel(le_value, 9);
        lemma_le_value_split(b@, at as int, 4, 4);
    }
    let _ = b.len();
    let lo = read_u32_le(b, at) as u64;
    let hi = read_u32_le(b, at + 4) as u64;
    lo + hi * 0x1_0000_0000
}

/// Splitting a little-endian number into its low and high parts.
pub proof fn lemma_le_value_split(b: Seq<u8>, at: int, n: nat, m: nat)
    ensures
        le_value(b, at, n + m) == le_value(b, at, n) + pow256(n) * le_value(b, at + n, m),
    decreases n,
{
    if n == 0 {
        assert(pow256(0) == 1);
        assert(le_value(b, at, 0) == 0);
        assert(n + m == m);
    } else {
        let k = (n - 1) as nat;
        lemma_le_value_split(b, at + 1, k, m);
        let x = b[at] as nat;
        let l1 = le_value(b, at + 1, k);
        let p = pow256(k);
        let mm = le_value(b, at + n, m);
        assert((n + m - 1) as nat == k + m);
        assert(le_value(b, at, n + m) == x + 256 * le_value(b, at + 1, k + m));
        assert(le_value(b, at + 1, k + m) == l1 + p * mm);
        assert(le_value(b, at, n) == x + 256 * l1);
        assert(pow256(n) == 256 * p);
        assert(x + 256 * (l1 + p * mm) == (x + 256 * l1) + (256 * p) * mm) by (nonlinear_arith);
    }
}

/// `256` to the power `n`.
pub open spec fn pow256(n: nat) -> nat
    decreases n,
{
    if n == 0 {
        1
    } else {
        256 * pow256((n - 1) as nat)
    }
}

/// The quotient and remainder of `q * d + r` by `d`, for `0 <= r < d`.
pub proof fn lemma_div_mod_parts(x: int, d: int, q: int, r: int)
    requires
        d > 0,
        0 <= r < d,
        x == q * d + r,
    ensures
        x / d == q,
        x % d == r,
{
    vstd::arithmetic::div_mod::lemma_fundamental_div_mod_converse_div(x, d, q, r);
    vstd::arithmetic::div_mod::lemma_fundamental_div_mod_converse_mod(x, d, q, r);
}

/// A vector of `n` zero bytes.
pub fn zeroed(n: usize) -> (r: Vec<u8>)
    ensures
        r@ == Seq::new(n as nat, |i: int| 0u8),
{
    let mut r: Vec<u8> = Vec::with_capacity(n);
    while r.len() < n
        invariant
            r.len() <= n,
            forall|i: int| 0 <= i < r.len() ==> r@[i] == 0u8,
        decreases n - r.len(),
    {
        r.push(0u8);
    }
    assert(r@ =~= Seq::new(n as nat, |i: int| 0u8));
    r
}

/// Copies `src[src_at..src_at + n]` over `dst[dst_at..dst_at + n]`.
pub fn copy_bytes(dst: &mut [u8], dst_at: usize, src: &[u8], src_at: usize, n: usize)
    requires
        dst_at + n <= old(dst)@.len(),
        src_at + n <= src@.len(),
    ensures
        final(dst)@ == spliced(old(dst)@, dst_at as int, src@, src_at as int, n as int),
        final(dst)@.len() == old(dst)@.len(),
{
    let mut k: usize = 0;
    while k < n
        invariant
            k <= n,
            dst_at + n <= dst@.len(),
            src_at + n <= src@.len(),
            dst@.len() == old(dst)@.len(),
            forall|i: int| 0 <= i < dst_at ==> dst@[i] == old(dst)@[i],
            forall|i: int| dst_at + k <= i < dst@.len() ==> dst@[i] == old(dst)@[i],
            forall|i: int| dst_at <= i < dst_at + k ==> dst@[i] == src@[src_at + (i - dst_at)],
        decreases n - k,
    {
        let _ = dst.len();
        let _ = src.len();
        dst[dst_at + k] = src[src_at + k];
        k = k + 1;
    }
    assert(dst@ =~= spliced(old(dst)@, dst_at as int, src@, src_at as int, n as int));
}

} // verus!
