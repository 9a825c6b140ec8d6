use vstd::prelude::*;

verus! {

/// `256^k`.
pub open spec fn pow256(k: nat) -> nat
    decreases k,
{
    if k == 0 {
        1
    } else {
        256 * pow256((k - 1) as nat)
    }
}

/// `256^8` is the number of values of a 64-bit word.
pub proof fn lemma_pow256_8()
    ensures
        pow256(8) == 0x1_0000_0000_0000_0000,
{
    assert(pow256(0) == 1);
    assert(pow256(1) == 256);
    assert(pow256(2) == 0x1_0000);
    assert(pow256(3) == 0x100_0000);
    assert(pow256(4) == 0x1_0000_0000);
    assert(pow256(5) == 0x100_0000_0000);
    assert(pow256(6) == 0x1_0000_0000_0000);
    assert(pow256(7) == 0x100_0000_0000_0000);
    assert(pow256(8) == 0x1_0000_0000_0000_0000);
}

/// The big-endian value of a byte string.
pub open spec fn be_bytes_val(s: Seq<u8>) -> nat
    decreases s.len(),
{
    if s.len() == 0 {
        0
    } else {
        be_bytes_val(s.drop_last()) * 256 + s.last() as nat
    }
}

/// The little-endian value of a byte string.
pub open spec fn le_bytes_val(s: Seq<u8>) -> nat
    decreases s.len(),
{
    if s.len() == 0 {
        0
    } else {
        s.first() as nat + 256 * le_bytes_val(s.drop_first())
    }
}

/// The `k`-byte big-endian rendering of `n`.
pub open spec fn spec_be_bytes(n: nat, k: nat) -> Seq<u8>
    decreases k,
{
    if k == 0 {
        Seq::empty()
    } else {
        spec_be_bytes(n / 256, (k - 1) as nat).push((n % 256) as u8)
    }
}

/// Rendering then evaluating is the identity, for values that fit.
pub proof fn lemma_be_bytes_roundtrip(n: nat, k: nat)
    requires
        n < pow256(k),
    ensures
        be_bytes_val(spec_be_bytes(n, k)) == n,
        spec_be_bytes(n, k).len() == k,
    decreases k,
{
    if k == 0 {
    } else {
        assert(n / 256 < pow256((k - 1) as nat)) by (nonlinear_arith)
            requires
                n < 256 * pow256((k - 1) as nat),
                n >= 0,
                pow256((k - 1) as nat) >= 1,
        ;
        lemma_pow256_pos((k - 1) as nat);
        lemma_be_bytes_roundtrip(n / 256, (k - 1) as nat);
        let s = spec_be_bytes(n, k);
        assert(s.drop_last() =~= spec_be_bytes(n / 256, (k - 1) as nat));
        assert(s.last() == (n % 256) as u8);
        assert(be_bytes_val(s) == (n / 256) * 256 + n % 256);
        assert((n / 256) * 256 + n % 256 == n) by (nonlinear_arith);
    }
}

/// `256^k` is positive.
pub proof fn lemma_pow256_pos(k: nat)
    ensures
        pow256(k) >= 1,
    decreases k,
{
    if k > 0 {
        lemma_pow256_pos((k - 1) as nat);
    }
}

/// The fixed-width big-endian rendering is injective.
pub proof fn lemma_be_bytes_injective(n1: nat, n2: nat, k: nat)
    requires
        n1 < pow256(k),
        n2 < pow256(k),
        spec_be_bytes(n1, k) == spec_be_bytes(n2, k),
    ensures
        n1 == n2,
{
    lemma_be_bytes_roundtrip(n1, k);
    lemma_be_bytes_roundtrip(n2, k);
}

/// Renders the low `k` bytes of `n`, most significant first.
pub fn u64_be_bytes(n: u64, k: u8) -> (r: Vec<u8>)
    requires
        k <= 8,
    ensures
        r@ == spec_be_bytes(n as nat, k as nat),
        r@.len() == k,
    decreases k,
{
    if k == 0 {
        Vec::new()
    } else {
        let mut r = u64_be_bytes(n / 256, k - 1);
        r.push((n % 256) as u8);
        r
    }
}

/// Reads a 64-bit big-endian word out of exactly eight bytes.
pub fn read_u64_be(bytes: &Vec<u8>) -> (r: Option<u64>)
    ensures
        r is Some <==> bytes@.len() == 8,
        r is Some ==> r->Some_0 as nat == be_bytes_val(bytes@),
{
    if bytes.len() != 8 {
        return None;
    }
    let mut val: u64 = 0;
    let mut i: usize = 0;
    proof {
        lemma_pow256_8();
    }
    while i < 8
        invariant
            0 <= i <= 8,
            bytes@.len() == 8,
            val as nat == be_bytes_val(bytes@.subrange(0, i as int)),
            (val as nat) < pow256(i as nat),
            pow256(8) == 0x1_0000_0000_0000_0000,
        decreases 8 - i,
    {
        proof {
            assert(bytes@.subrange(0, i + 1).drop_last() =~= bytes@.subrange(0, i as int));
            assert(bytes@.subrange(0, i + 1).last() == bytes@[i as int]);
            let a = val as nat;
            lemma_pow256_monotone(i as nat, 7);
            assert(a * 256 + bytes@[i as int] < pow256((i + 1) as nat)) by (nonlinear_arith)
                requires
                    a < pow256(i as nat),
                    bytes@[i as int] < 256,
                    pow256((i + 1) as nat) == 256 * pow256(i as nat),
            ;
            assert(pow256((i + 1) as nat) <= pow256(8));
        }
        val = val * 256 + (bytes[i] as u64);
        i += 1;
    }
    proof {
        assert(bytes@.subrange(0, 8) =~= bytes@);
    }
    Some(val)
}

/// `256^j <= 256^k` when `j <= k`.
pub proof fn lemma_pow256_monotone(j: nat, k: nat)
    requires
        j <= k,
    ensures
        pow256(j) <= pow256(k),
    decreases k,
{
    if j < k {
        lemma_pow256_monotone(j, (k - 1) as nat);
        lemma_pow256_pos((k - 1) as nat);
    }
}

/// Reads a 64-bit little-endian word out of exactly eight bytes.
pub fn read_u64_le(bytes: &Vec<u8>) -> (r: Option<u64>)
    ensures
        r is Some <==> bytes@.len() == 8,
        r is Some ==> r->Some_0 as nat == le_bytes_val(bytes@),
{
    if bytes.len() != 8 {
        return None;
    }
    let mut val: u64 = 0;
    let mut i: usize = 8;
    proof {
        lemma_pow256_8();
        assert(bytes@.subrange(8, 8) =~= Seq::<u8>::empty());
    }
    while i > 0
        invariant
            0 <= i <= 8,
            bytes@.len() == 8,
            val as nat == le_bytes_val(bytes@.subrange(i as int, 8)),
            (val as nat) < pow256((8 - i) as nat),
            pow256(8) == 0x1_0000_0000_0000_0000,
        decreases i,
    {
        proof {
            assert(bytes@.subrange(i - 1, 8).drop_first() =~= bytes@.subrange(i as int, 8));
            assert(bytes@.subrange(i - 1, 8).first() == bytes@[i - 1]);
            let a = val as nat;
            lemma_pow256_monotone((8 - i) as nat, 7);
            assert(bytes@[i - 1] + 256 * a < pow256((8 - i + 1) as nat)) by (nonlinear_arith)
                requires
                    a < pow256((8 - i) as nat),
                    bytes@[i - 1] < 256,
                    pow256((8 - i + 1) as nat) == 256 * pow256((8 - i) as nat),
            ;
            assert(pow256((8 - i + 1) as nat) <= pow256(8));
        }
        val = (bytes[i - 1] as u64) + 256 * val;
        i -= 1;
    }
    proof {
        assert(bytes@.subrange(0, 8) =~= bytes@);
    }
    Some(val)
}

} // verus!
