//! Little-endian byte forms and an append-only output buffer with in-place
//! patching.

use vstd::prelude::*;

verus! {

/// The low `n` bytes of `u`, least significant first.
pub open spec fn le_low(u: nat, n: nat) -> Seq<u8>
    decreases n,
{
    if n == 0 {
        Seq::empty()
    } else {
        seq![(u % 256) as u8] + le_low(u / 256, (n - 1) as nat)
    }
}

/// Two's-complement bit pattern of a signed 64-bit value.
pub open spec fn bits_of_i64(v: i64) -> nat {
    if v >= 0 {
        v as nat
    } else {
        (v + 0x1_0000_0000_0000_0000) as nat
    }
}

/// `n` zero bytes.
pub open spec fn zeros(n: nat) -> Seq<u8> {
    Seq::new(n, |i: int| 0u8)
}

/// Number of zero bytes that bring `len` to a multiple of `a`.
pub open spec fn pad_len(len: nat, a: nat) -> nat {
    if a == 0 {
        0
    } else {
        ((a as int - (len as int) % (a as int)) % (a as int)) as nat
    }
}

/// `b` followed by zero bytes up to a multiple of `a`.
pub open spec fn pad(b: Seq<u8>, a: nat) -> Seq<u8> {
    b + zeros(pad_len(b.len(), a))
}

/// `b` with the bytes at `p..p + x.len()` replaced by `x`.
pub open spec fn splice(b: Seq<u8>, p: int, x: Seq<u8>) -> Seq<u8> {
    b.subrange(0, p) + x + b.subrange(p + x.len(), b.len() as int)
}

/// Little-endian form of a `u32`.
pub open spec fn le32(v: u32) -> Seq<u8> {
    le_low(v as nat, 4)
}

/// Little-endian form of a `u16`.
pub open spec fn le16(v: u16) -> Seq<u8> {
    le_low(v as nat, 2)
}

pub proof fn lemma_le_low_len(u: nat, n: nat)
    ensures
        le_low(u, n).len() == n,
    decreases n,
{
    if n > 0 {
        lemma_le_low_len(u / 256, (n - 1) as nat);
    }
}

pub proof fn lemma_pad_len(len: nat, a: nat)
    requires
        a > 0,
    ensures
        pad_len(len, a) < a,
        ((len + pad_len(len, a)) as int) % (a as int) == 0,
        len % a == 0 ==> pad_len(len, a) == 0,
{
    let l = len as int;
    let ai = a as int;
    let r = l % ai;
    assert(0 <= r < ai) by {
        vstd::arithmetic::div_mod::lemma_mod_bound(l, ai);
    }
    assert(l == ai * (l / ai) + r) by {
        vstd::arithmetic::div_mod::lemma_fundamental_div_mod(l, ai);
    }
    if r == 0 {
        assert((ai - 0) % ai == 0) by {
            vstd::arithmetic::div_mod::lemma_mod_self_0(ai);
        }
        assert((l + 0) % ai == 0);
    } else {
        assert((ai - r) % ai == ai - r) by {
            vstd::arithmetic::div_mod::lemma_small_mod((ai - r) as nat, ai as nat);
        }
        assert(l + (ai - r) == ai * (l / ai + 1)) by (nonlinear_arith)
            requires l == ai * (l / ai) + r;
        assert((l + (ai - r)) % ai == 0) by {
            vstd::arithmetic::div_mod::lemma_mod_multiples_basic(l / ai + 1, ai);
            vstd::arithmetic::mul::lemma_mul_is_commutative(ai, l / ai + 1);
        }
    }
}

/// `after` is at least as long as `before` and has the same first `n` bytes.
pub open spec fn same_prefix(before: Seq<u8>, after: Seq<u8>, n: int) -> bool {
    &&& 0 <= n <= before.len() <= after.len()
    &&& after.subrange(0, n) == before.subrange(0, n)
}

/// Appending keeps every prefix.
pub proof fn lemma_same_prefix_append(b: Seq<u8>, x: Seq<u8>, n: int)
    requires
        0 <= n <= b.len(),
    ensures
        same_prefix(b, b + x, n),
{
    assert((b + x).subrange(0, n) =~= b.subrange(0, n));
}

/// Overwriting bytes at or after `n` keeps the first `n` bytes.
pub proof fn lemma_same_prefix_splice(b: Seq<u8>, p: int, x: Seq<u8>, n: int)
    requires
        0 <= n <= p,
        p + x.len() <= b.len(),
    ensures
        same_prefix(b, splice(b, p, x), n),
{
    assert(splice(b, p, x).subrange(0, n) =~= b.subrange(0, n));
}

/// Changing one byte at or after `n` keeps the first `n` bytes.
pub proof fn lemma_same_prefix_update(b: Seq<u8>, p: int, v: u8, n: int)
    requires
        0 <= n <= p < b.len(),
    ensures
        same_prefix(b, b.update(p, v), n),
{
    assert(b.update(p, v).subrange(0, n) =~= b.subrange(0, n));
}

/// Prefixes compose: a shorter prefix kept twice is kept.
pub proof fn lemma_same_prefix_trans(a: Seq<u8>, b: Seq<u8>, c: Seq<u8>, n: int, m: int)
    requires
        same_prefix(a, b, n),
        same_prefix(b, c, m),
        n <= m,
    ensures
        same_prefix(a, c, n),
{
    assert forall|i: int| 0 <= i < n implies c[i] == a[i] by {
        assert(c.subrange(0, m)[i] == b.subrange(0, m)[i]);
        assert(b.subrange(0, n)[i] == a.subrange(0, n)[i]);
    }
    assert(c.subrange(0, n) =~= a.subrange(0, n));
}

/// `Vec::len` of a byte vector. Also claimed: a vector never holds more
/// than `isize::MAX` bytes (`Vec` refuses any larger capacity).
#[verifier::external_body]
pub(crate) fn buf_len(buf: &Vec<u8>) -> (n: usize)
    ensures
        n == buf@.len(),
        n <= isize::MAX,
{
    buf.len()
}

/// The low `n` bytes of `u`, least significant first.
pub fn le_bytes(u: u64, n: usize) -> (r: Vec<u8>)
    requires
        n <= 8,
    ensures
        r@ == le_low(u as nat, n as nat),
{
    let mut r: Vec<u8> = Vec::new();
    let mut x: u64 = u;
    let mut i: usize = 0;
    while i < n
        invariant
            i <= n <= 8,
            r@ + le_low(x as nat, (n - i) as nat) == le_low(u as nat, n as nat),
        decreases n - i,
    {
        let ghost old_r = r@;
        let ghost old_x = x;
        r.push((x % 256) as u8);
        x = x / 256;
        i = i + 1;
        assert(le_low(old_x as nat, (n - i + 1) as nat) == seq![(old_x % 256) as u8] + le_low(x as nat, (n - i) as nat));
        assert(r@ + le_low(x as nat, (n - i) as nat) =~= old_r + le_low(old_x as nat, (n - i + 1) as nat));
    }
    assert(r@ + le_low(x as nat, 0) =~= r@);
    r
}

/// Two's-complement bit pattern of a signed 64-bit value.
pub fn i64_bits(v: i64) -> (u: u64)
    ensures
        u as nat == bits_of_i64(v),
{
    let u = v as u64;
    assert(v >= 0 ==> u as int == v as int) by (bit_vector)
        requires u == v as u64;
    assert(v < 0 ==> u as int == v as int + 0x1_0000_0000_0000_0000) by (bit_vector)
        requires u == v as u64;
    u
}

/// Appends zero bytes until the length is a multiple of `a`.
pub fn align_buf(buf: &mut Vec<u8>, a: usize)
    requires
        a > 0,
    ensures
        final(buf)@ == pad(old(buf)@, a as nat),
{
    proof {
        lemma_pad_len(old(buf)@.len(), a as nat);
    }
    let n = buf_len(buf);
    let k = (a - n % a) % a;
    let mut i: usize = 0;
    while i < k
        invariant
            i <= k,
            buf@ == old(buf)@ + zeros(i as nat),
        decreases k - i,
    {
        buf.push(0u8);
        i = i + 1;
        assert(buf@ =~= old(buf)@ + zeros(i as nat));
    }
}

/// Appends the bytes of `data`.
pub fn append_bytes(buf: &mut Vec<u8>, data: &[u8])
    ensures
        final(buf)@ == old(buf)@ + data@,
{
    let mut i: usize = 0;
    while i < data.len()
        invariant
            i <= data@.len(),
            buf@ == old(buf)@ + data@.take(i as int),
        decreases data@.len() - i,
    {
        buf.push(data[i]);
        i = i + 1;
        assert(buf@ =~= old(buf)@ + data@.take(i as int));
    }
    assert(data@.take(data@.len() as int) =~= data@);
}

/// Appends `n` zero bytes.
pub fn append_zeros(buf: &mut Vec<u8>, n: usize)
    ensures
        final(buf)@ == old(buf)@ + zeros(n as nat),
{
    let mut i: usize = 0;
    while i < n
        invariant
            i <= n,
            buf@ == old(buf)@ + zeros(i as nat),
        decreases n - i,
    {
        buf.push(0u8);
        i = i + 1;
        assert(buf@ =~= old(buf)@ + zeros(i as nat));
    }
}

/// Overwrites the bytes at `pos..pos + data.len()` with `data`.
pub fn write_at(buf: &mut Vec<u8>, pos: usize, data: &[u8])
    requires
        pos + data@.len() <= old(buf)@.len(),
    ensures
        final(buf)@ == splice(old(buf)@, pos as int, data@),
{
    let _ = buf.len();
    let mut i: usize = 0;
    while i < data.len()
        invariant
            i <= data@.len(),
            pos + data@.len() <= old(buf)@.len(),
            old(buf)@.len() <= usize::MAX,
            buf@.len() == old(buf)@.len(),
            forall|j: int| 0 <= j < pos ==> buf@[j] == old(buf)@[j],
            forall|j: int| pos <= j < pos + i ==> buf@[j] == data@[j - pos],
            forall|j: int| pos + i <= j < buf@.len() ==> buf@[j] == old(buf)@[j],
        decreases data@.len() - i,
    {
        buf.set(pos + i, data[i]);
        i = i + 1;
    }
    assert(buf@ =~= splice(old(buf)@, pos as int, data@));
}

/// Writes the little-endian form of `v` at `pos`.
pub fn patch_u32_le(buf: &mut Vec<u8>, pos: usize, v: u32)
    requires
        pos + 4 <= old(buf)@.len(),
    ensures
        final(buf)@ == splice(old(buf)@, pos as int, le32(v)),
{
    let b = le_bytes(v as u64, 4);
    proof {
        lemma_le_low_len(v as nat, 4);
    }
    write_at(buf, pos, b.as_slice());
}

/// Appends the little-endian form of a `u16`.
pub fn write_u16_le(buf: &mut Vec<u8>, v: u16)
    ensures
        final(buf)@ == old(buf)@ + le16(v),
{
    let b = le_bytes(v as u64, 2);
    append_bytes(buf, b.as_slice());
}

/// Appends the little-endian form of a `u32`.
pub fn write_u32_le(buf: &mut Vec<u8>, v: u32)
    ensures
        final(buf)@ == old(buf)@ + le32(v),
{
    let b = le_bytes(v as u64, 4);
    append_bytes(buf, b.as_slice());
}

} // verus!
