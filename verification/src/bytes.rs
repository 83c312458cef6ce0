//! Byte-level building blocks: fixed-width hashes, integer encodings and
//! decimal digits.
use vstd::bytes::*;
use vstd::prelude::*;

verus! {

/// A block hash, a state root or a transaction root.
pub type Digest = [u8; 32];

/// A validator's identity: its public key.
pub type ValidatorId = [u8; 32];

/// The hash made of zero bytes, which stands for "none".
pub fn zero_hash() -> (h: Digest)
    ensures
        h == zero_hash_spec(),
{
    [0u8; 32]
}

/// The hash made of zero bytes.
pub open spec fn zero_hash_spec() -> Digest {
    vstd::array::spec_array_fill_for_copy_type::<u8, 32>(0u8)
}

/// Compares two 32-byte values.
pub fn same_hash(a: &Digest, b: &Digest) -> (same: bool)
    ensures
        same == (*a == *b),
{
    let mut i: usize = 0;
    while i < 32
        invariant
            i <= 32,
            forall|j: int| 0 <= j < i ==> a[j] == b[j],
        decreases 32 - i,
    {
        if a[i] != b[i] {
            return false;
        }
        i += 1;
    }
    assert(*a =~= *b);
    true
}

/// `a` comes before `b` in the lexicographic order of their bytes.
pub open spec fn hash_before(a: Digest, b: Digest) -> bool {
    exists|i: int|
        0 <= i < 32 && #[trigger] a[i] < b[i] && (forall|j: int| 0 <= j < i ==> a[j] == b[j])
}

/// Whether `a` comes before `b` in byte order.
pub fn hash_less(a: &Digest, b: &Digest) -> (less: bool)
    ensures
        less == hash_before(*a, *b),
{
    let mut i: usize = 0;
    while i < 32
        invariant
            i <= 32,
            forall|j: int| 0 <= j < i ==> a[j] == b[j],
        decreases 32 - i,
    {
        if a[i] < b[i] {
            assert(a[i as int] < b[i as int]);
            return true;
        }
        if a[i] > b[i] {
            assert(!hash_before(*a, *b)) by {
                assert forall|k: int|
                    !(0 <= k < 32 && #[trigger] a[k] < b[k] && (forall|j: int|
                        0 <= j < k ==> a[j] == b[j])) by {
                    if k > i {
                        assert(a[i as int] != b[i as int]);
                    }
                }
            }
            return false;
        }
        i += 1;
    }
    false
}

/// The byte order is total: of two different hashes one comes first.
pub proof fn hash_order_total(a: Digest, b: Digest)
    requires
        a != b,
    ensures
        hash_before(a, b) || hash_before(b, a),
{
    if forall|i: int| 0 <= i < 32 ==> a[i] == b[i] {
        assert(a =~= b);
    }
    let d = first_difference(a, b, 0);
    if a[d] < b[d] {
        assert(hash_before(a, b));
    } else {
        assert(b[d] < a[d]);
        assert(hash_before(b, a));
    }
}

proof fn first_difference(a: Digest, b: Digest, from: int) -> (d: int)
    requires
        0 <= from < 32,
        forall|j: int| 0 <= j < from ==> a[j] == b[j],
        exists|i: int| 0 <= i < 32 && a[i] != b[i],
    ensures
        0 <= d < 32,
        a[d] != b[d],
        forall|j: int| 0 <= j < d ==> a[j] == b[j],
    decreases 32 - from,
{
    if a[from] != b[from] {
        from
    } else {
        let i = choose|i: int| 0 <= i < 32 && a[i] != b[i];
        assert(i > from);
        first_difference(a, b, from + 1)
    }
}

/// The byte order is strict: two hashes cannot each come before the other,
/// and none comes before itself.
pub proof fn hash_order_strict(a: Digest, b: Digest)
    ensures
        hash_before(a, b) ==> !hash_before(b, a),
        !hash_before(a, a),
{
    if hash_before(a, b) && hash_before(b, a) {
        let i = choose|i: int|
            0 <= i < 32 && #[trigger] a[i] < b[i] && (forall|j: int| 0 <= j < i ==> a[j] == b[j]);
        let k = choose|k: int|
            0 <= k < 32 && #[trigger] b[k] < a[k] && (forall|j: int| 0 <= j < k ==> b[j] == a[j]);
        if i < k {
            assert(b[i] == a[i]);
        } else if k < i {
            assert(a[k] == b[k]);
        }
    }
}

/// The byte order is transitive.
pub proof fn hash_order_transitive(a: Digest, b: Digest, c: Digest)
    requires
        hash_before(a, b),
        hash_before(b, c),
    ensures
        hash_before(a, c),
{
    let i = choose|i: int|
        0 <= i < 32 && #[trigger] a[i] < b[i] && (forall|j: int| 0 <= j < i ==> a[j] == b[j]);
    let k = choose|k: int|
        0 <= k < 32 && #[trigger] b[k] < c[k] && (forall|j: int| 0 <= j < k ==> b[j] == c[j]);
    let m = if i < k {
        i
    } else {
        k
    };
    assert(a[m] < c[m]);
}

/// Compares two byte strings.
pub fn same_bytes(a: &[u8], b: &[u8]) -> (same: bool)
    ensures
        same == (a@ == b@),
{
    if a.len() != b.len() {
        return false;
    }
    let mut i: usize = 0;
    while i < a.len()
        invariant
            i <= a.len(),
            a.len() == b.len(),
            forall|j: int| 0 <= j < i ==> a@[j] == b@[j],
        decreases a.len() - i,
    {
        if a[i] != b[i] {
            return false;
        }
        i += 1;
    }
    assert(a@ =~= b@);
    true
}

/// Appends `tail` to `out`.
pub fn append_bytes(out: &mut Vec<u8>, tail: &[u8])
    ensures
        final(out)@ == old(out)@ + tail@,
{
    out.extend_from_slice(tail);
    assert(out@ =~= old(out)@ + tail@);
}

/// A copy of `data`.
pub fn copy_bytes(data: &[u8]) -> (out: Vec<u8>)
    ensures
        out@ == data@,
{
    let mut out: Vec<u8> = Vec::new();
    append_bytes(&mut out, data);
    assert(out@ =~= data@);
    out
}

/// The 32 bytes of `data` that start at `at`.
pub fn hash_at(data: &[u8], at: usize) -> (h: Digest)
    requires
        at + 32 <= data.len(),
    ensures
        h@ == data@.subrange(at as int, at + 32),
{
    let mut h: Digest = [0u8; 32];
    let mut i: usize = 0;
    while i < 32
        invariant
            i <= 32,
            at + 32 <= data.len(),
            forall|j: int| 0 <= j < i ==> h[j] == data@[at + j],
        decreases 32 - i,
    {
        h[i] = data[at + i];
        i += 1;
    }
    assert(h@ =~= data@.subrange(at as int, at + 32));
    h
}

/// The 64 bytes of a signature.
pub fn signature_of(data: &[u8]) -> (signature: [u8; 64])
    requires
        data.len() == 64,
    ensures
        signature@ == data@,
{
    let mut signature: [u8; 64] = [0u8; 64];
    let mut i: usize = 0;
    while i < 64
        invariant
            i <= 64,
            data.len() == 64,
            forall|j: int| 0 <= j < i ==> signature[j] == data@[j],
        decreases 64 - i,
    {
        signature[i] = data[i];
        i += 1;
    }
    assert(signature@ =~= data@);
    signature
}

/// The bytes of `s` in reverse order.
pub open spec fn reversed(s: Seq<u8>) -> Seq<u8> {
    Seq::new(s.len(), |i: int| s[s.len() - 1 - i])
}

/// The big-endian encoding of `x`.
pub open spec fn be_u64(x: u64) -> Seq<u8> {
    reversed(spec_u64_to_le_bytes(x))
}

/// Appends the big-endian encoding of `x`.
pub fn append_be_u64(out: &mut Vec<u8>, x: u64)
    ensures
        final(out)@ == old(out)@ + be_u64(x),
{
    proof {
        lemma_auto_spec_u64_to_from_le_bytes();
    }
    let le = u64_to_le_bytes(x);
    let ghost start = out@;
    let mut i: usize = 0;
    while i < 8
        invariant
            i <= 8,
            le@.len() == 8,
            le@ == spec_u64_to_le_bytes(x),
            out@ == start + be_u64(x).take(i as int),
        decreases 8 - i,
    {
        out.push(le[7 - i]);
        i += 1;
        assert(out@ =~= start + be_u64(x).take(i as int));
    }
    assert(be_u64(x).take(8) =~= be_u64(x));
}

/// The number that the eight bytes of `data` encode, most significant first.
pub fn be_u64_value(data: &[u8]) -> (x: u64)
    requires
        data.len() == 8,
    ensures
        be_u64(x) == data@,
{
    proof {
        lemma_auto_spec_u64_to_from_le_bytes();
    }
    let mut le: Vec<u8> = Vec::new();
    let mut i: usize = 0;
    while i < 8
        invariant
            i <= 8,
            data.len() == 8,
            le@ == reversed(data@).take(i as int),
        decreases 8 - i,
    {
        le.push(data[7 - i]);
        i += 1;
        assert(le@ =~= reversed(data@).take(i as int));
    }
    let x = u64_from_le_bytes(le.as_slice());
    assert(le@ =~= reversed(data@));
    assert(reversed(reversed(data@)) =~= data@);
    x
}

/// Two numbers with the same big-endian encoding are equal.
pub proof fn be_u64_injective(a: u64, b: u64)
    requires
        be_u64(a) == be_u64(b),
    ensures
        a == b,
{
    lemma_auto_spec_u64_to_from_le_bytes();
    let la = spec_u64_to_le_bytes(a);
    let lb = spec_u64_to_le_bytes(b);
    assert(reversed(reversed(la)) =~= la);
    assert(reversed(reversed(lb)) =~= lb);
}

/// The decimal digits of `n` in ASCII, without leading zeros.
pub open spec fn decimal(n: nat) -> Seq<u8>
    decreases n,
{
    if n < 10 {
        seq![(48 + n) as u8]
    } else {
        decimal(n / 10).push((48 + n % 10) as u8)
    }
}

/// Appends the decimal digits of `n`.
pub fn append_decimal(out: &mut Vec<u8>, n: u64)
    ensures
        final(out)@ == old(out)@ + decimal(n as nat),
    decreases n,
{
    if n >= 10 {
        append_decimal(out, n / 10);
    }
    out.push(48u8 + (n % 10) as u8);
    assert(out@ =~= old(out)@ + decimal(n as nat));
}

/// Different numbers have different digits.
pub proof fn decimal_injective(a: nat, b: nat)
    requires
        decimal(a) == decimal(b),
    ensures
        a == b,
    decreases a,
{
    decimal_nonempty(a / 10);
    decimal_nonempty(b / 10);
    assert(decimal(a).last() == (48 + a % 10) as u8);
    assert(decimal(b).last() == (48 + b % 10) as u8);
    assert(a % 10 == b % 10);
    if a >= 10 && b >= 10 {
        assert(decimal(a).drop_last() =~= decimal(a / 10));
        assert(decimal(b).drop_last() =~= decimal(b / 10));
        decimal_injective(a / 10, b / 10);
    } else if a >= 10 {
        assert(decimal(a).len() > 1);
    } else if b >= 10 {
        assert(decimal(b).len() > 1);
    }
}

proof fn decimal_nonempty(n: nat)
    ensures
        decimal(n).len() > 0,
{
}

} // verus!
