//! Mathematical meaning of integers stored as bytes, and verified decoders for them.
use vstd::prelude::*;

verus! {

/// `256^n`.
pub open spec fn pow256(n: nat) -> nat
    decreases n,
{
    if n == 0 {
        1
    } else {
        256 * pow256((n - 1) as nat)
    }
}

/// The unsigned integer whose little-endian encoding is `bytes`.
pub open spec fn le_nat(bytes: Seq<u8>) -> nat
    decreases bytes.len(),
{
    if bytes.len() == 0 {
        0
    } else {
        bytes[0] as nat + 256 * le_nat(bytes.drop_first())
    }
}

/// The unsigned integer whose big-endian encoding is `bytes`.
pub open spec fn be_nat(bytes: Seq<u8>) -> nat
    decreases bytes.len(),
{
    if bytes.len() == 0 {
        0
    } else {
        be_nat(bytes.drop_last()) * 256 + bytes.last() as nat
    }
}

/// The little-endian integer stored in the `n` bytes of `bytes` that start at `pos`.
pub open spec fn le_at(bytes: Seq<u8>, pos: int, n: int) -> nat {
    le_nat(bytes.subrange(pos, pos + n))
}

/// The big-endian integer stored in the `n` bytes of `bytes` that start at `pos`.
pub open spec fn be_at(bytes: Seq<u8>, pos: int, n: int) -> nat {
    be_nat(bytes.subrange(pos, pos + n))
}

/// The powers of 256 up to the eighth.
pub proof fn lemma_pow256_values()
    ensures
        pow256(0) == 1,
        pow256(1) == 0x100,
        pow256(2) == 0x1_0000,
        pow256(3) == 0x100_0000,
        pow256(4) == 0x1_0000_0000,
        pow256(5) == 0x100_0000_0000,
        pow256(6) == 0x1_0000_0000_0000,
        pow256(7) == 0x100_0000_0000_0000,
        pow256(8) == 0x1_0000_0000_0000_0000,
{
    reveal_with_fuel(pow256, 9);
}

/// Powers of 256 grow with the exponent.
pub proof fn lemma_pow256_monotone(a: nat, b: nat)
    requires
        a <= b,
    ensures
        pow256(a) <= pow256(b),
    decreases b,
{
    if a < b {
        lemma_pow256_monotone(a, (b - 1) as nat);
    }
}

/// A little-endian value fits in as many bytes as it was stored in.
pub proof fn lemma_le_nat_bound(bytes: Seq<u8>)
    ensures
        le_nat(bytes) < pow256(bytes.len()),
    decreases bytes.len(),
{
    if bytes.len() > 0 {
        lemma_le_nat_bound(bytes.drop_first());
    }
}

/// A big-endian value fits in as many bytes as it was stored in.
pub proof fn lemma_be_nat_bound(bytes: Seq<u8>)
    ensures
        be_nat(bytes) < pow256(bytes.len()),
    decreases bytes.len(),
{
    if bytes.len() > 0 {
        lemma_be_nat_bound(bytes.drop_last());
    }
}

/// Splitting a little-endian encoding into a low and a high part.
pub proof fn lemma_le_nat_split(bytes: Seq<u8>, k: int)
    requires
        0 <= k <= bytes.len(),
    ensures
        le_nat(bytes) == le_nat(bytes.take(k)) + pow256(k as nat) * le_nat(bytes.skip(k)),
    decreases k,
{
    if k == 0 {
        assert(bytes.skip(0) =~= bytes);
        assert(bytes.take(0).len() == 0);
        assert(le_nat(bytes.take(0)) == 0);
        assert(pow256(0) == 1);
        let x = le_nat(bytes.skip(k));
        assert(x == le_nat(bytes));
        assert(pow256(k as nat) == 1);
        assert(pow256(k as nat) * x == x) by (nonlinear_arith)
            requires
                pow256(k as nat) == 1,
        ;
    } else {
        let rest = bytes.drop_first();
        lemma_le_nat_split(rest, k - 1);
        assert(bytes.take(k).drop_first() =~= rest.take(k - 1));
        assert(rest.skip(k - 1) =~= bytes.skip(k));
        assert(bytes.take(k)[0] == bytes[0]);
        let a = le_nat(rest.take(k - 1));
        let b = le_nat(bytes.skip(k));
        let p = pow256((k - 1) as nat);
        assert(256 * (a + p * b) == 256 * a + (256 * p) * b) by (nonlinear_arith);
        assert(le_nat(bytes.take(k)) == bytes[0] as nat + 256 * a);
        assert(le_nat(bytes) == bytes[0] as nat + 256 * le_nat(rest));
        assert(pow256(k as nat) == 256 * p);
    }
}

/// Decodes the `n <= 8` bytes of `bytes` starting at `pos` as a little-endian unsigned integer.
pub fn read_le_uint(bytes: &[u8], pos: usize, n: usize) -> (v: u64)
    requires
        n <= 8,
        pos + n <= bytes@.len(),
    ensures
        v == le_at(bytes@, pos as int, n as int),
{
    let mut v: u64 = 0;
    let mut i: usize = n;
    proof {
        lemma_pow256_values();
        assert(bytes@.subrange(pos + n, pos + n).len() == 0);
    }
    while i > 0
        invariant
            i <= n <= 8,
            pos + n <= bytes.len(),
            v == le_at(bytes@, (pos + i) as int, (n - i) as int),
            v < pow256((n - i) as nat),
        decreases i,
    {
        i = i - 1;
        let b = bytes[pos + i];
        let ghost tail = bytes@.subrange(pos + i + 1, pos + n);
        let ghost whole = bytes@.subrange(pos + i, pos + n);
        proof {
            assert(whole.drop_first() =~= tail);
            assert(whole[0] == b);
            lemma_pow256_monotone((n - i) as nat, 8);
            lemma_pow256_values();
            assert(v * 256 + b < 256 * pow256((n - i - 1) as nat)) by (nonlinear_arith)
                requires
                    v < pow256((n - i - 1) as nat),
                    b < 256,
            ;
        }
        v = v * 256 + b as u64;
    }
    v
}

/// Decodes the `n <= 8` bytes of `bytes` starting at `pos` as a big-endian unsigned integer.
pub fn read_be_uint(bytes: &[u8], pos: usize, n: usize) -> (v: u64)
    requires
        n <= 8,
        pos + n <= bytes@.len(),
    ensures
        v == be_at(bytes@, pos as int, n as int),
{
    let mut v: u64 = 0;
    let mut i: usize = 0;
    proof {
        lemma_pow256_values();
        assert(bytes@.subrange(pos as int, pos as int).len() == 0);
    }
    while i < n
        invariant
            i <= n <= 8,
            pos + n <= bytes.len(),
            v == be_at(bytes@, pos as int, i as int),
            v < pow256(i as nat),
        decreases n - i,
    {
        let b = bytes[pos + i];
        let ghost prev = bytes@.subrange(pos as int, pos + i);
        let ghost next = bytes@.subrange(pos as int, pos + i + 1);
        proof {
            assert(next.drop_last() =~= prev);
            assert(next.last() == b);
            lemma_pow256_monotone((i + 1) as nat, 8);
            lemma_pow256_values();
            assert(v * 256 + b < 256 * pow256(i as nat)) by (nonlinear_arith)
                requires
                    v < pow256(i as nat),
                    b < 256,
            ;
        }
        v = v * 256 + b as u64;
        i = i + 1;
    }
    v
}

/// The 16-bit little-endian units that `bytes` holds, two bytes each; a trailing odd byte
/// is not part of any unit.
pub open spec fn le_units(bytes: Seq<u8>) -> Seq<u16> {
    Seq::new(bytes.len() / 2, |i: int| le_at(bytes, 2 * i, 2) as u16)
}

/// The 16-bit little-endian units held by `bytes`, two bytes each.
pub fn read_le_units(bytes: &[u8]) -> (units: Vec<u16>)
    ensures
        units@ == le_units(bytes@),
{
    let n = bytes.len() / 2;
    let mut units: Vec<u16> = Vec::with_capacity(n);
    let mut i: usize = 0;
    while i < n
        invariant
            i <= n,
            n == bytes.len() / 2,
            units@.len() == i,
            forall|j: int| 0 <= j < i ==> units@[j] == le_at(bytes@, 2 * j, 2) as u16,
        decreases n - i,
    {
        let v = read_le_uint(bytes, 2 * i, 2);
        proof {
            lemma_le_nat_bound(bytes@.subrange(2 * i, 2 * i + 2));
            lemma_pow256_values();
        }
        units.push(v as u16);
        i = i + 1;
    }
    assert(units@ =~= le_units(bytes@));
    units
}

} // verus!
