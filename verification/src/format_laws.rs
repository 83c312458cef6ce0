//! How numbers, constraints and the state are written as bytes.
use vstd::bytes::*;
use vstd::prelude::*;
use vstd::string::*;

use crate::bytes::{be_u64, decimal, hash_before, hash_order_strict, Digest};
use crate::codec::account_key_of;
use crate::intents::{all_constraint_bytes, constraint_bytes, ConstraintView};
use crate::memory_store::{
    differs_at, is_state_key, key_before, sorted, state_bytes, state_part, state_part_sound,
    Listing,
};

verus! {

/// The number that ASCII digits stand for.
pub open spec fn digits_value(s: Seq<u8>) -> int
    decreases s.len(),
{
    if s.len() == 0 {
        0
    } else {
        10 * digits_value(s.drop_last()) + (s.last() - 48)
    }
}

/// A number is written in digits that stand for it, without a leading zero.
pub proof fn decimal_reads_back(n: nat)
    ensures
        digits_value(decimal(n)) == n,
        decimal(n).len() > 0,
        forall|i: int| 0 <= i < decimal(n).len() ==> 48 <= #[trigger] decimal(n)[i] <= 57,
        n > 0 ==> decimal(n)[0] != 48,
    decreases n,
{
    if n >= 10 {
        decimal_reads_back(n / 10);
        assert(decimal(n).drop_last() =~= decimal(n / 10));
    } else {
        assert(decimal(n).drop_last().len() == 0);
        assert(digits_value(decimal(n).drop_last()) == 0);
        assert(decimal(n).last() == (48 + n) as u8);
    }
}

/// The number that bytes stand for, the first one counting most.
pub open spec fn bytes_value(s: Seq<u8>) -> int
    decreases s.len(),
{
    if s.len() == 0 {
        0
    } else {
        256 * bytes_value(s.drop_last()) + s.last()
    }
}

/// Eight bytes stand for the number that they were written for, the first one counting
/// most.
pub proof fn big_endian_reads_back(x: u64)
    ensures
        be_u64(x).len() == 8,
        bytes_value(be_u64(x)) == x,
{
    spec_u64_to_le_bytes_to_open(x);
    let s = be_u64(x);
    assert(s.len() == 8);
    reveal_with_fuel(bytes_value, 9);
    assert(s.drop_last().last() == s[6]);
    assert(s.drop_last().drop_last().last() == s[5]);
    assert(s.drop_last().drop_last().drop_last().last() == s[4]);
    assert(s.drop_last().drop_last().drop_last().drop_last().last() == s[3]);
    let t = s.drop_last().drop_last().drop_last().drop_last();
    assert(t =~= s.take(4));
    assert(t.drop_last().last() == s[2]);
    assert(t.drop_last().drop_last().last() == s[1]);
    assert(t.drop_last().drop_last().drop_last().last() == s[0]);
    assert(t.drop_last().drop_last().drop_last().drop_last().len() == 0);
    let b0: u64 = x & 0xff;
    let b1: u64 = (x >> 8) & 0xff;
    let b2: u64 = (x >> 16) & 0xff;
    let b3: u64 = (x >> 24) & 0xff;
    let b4: u64 = (x >> 32) & 0xff;
    let b5: u64 = (x >> 40) & 0xff;
    let b6: u64 = (x >> 48) & 0xff;
    let b7: u64 = (x >> 56) & 0xff;
    assert(b0 < 256 && b1 < 256 && b2 < 256 && b3 < 256 && b4 < 256 && b5 < 256 && b6 < 256 && b7
        < 256 && x == b0 + 0x100 * b1 + 0x1_0000 * b2 + 0x100_0000 * b3 + 0x1_0000_0000 * b4
        + 0x100_0000_0000 * b5 + 0x1_0000_0000_0000 * b6 + 0x100_0000_0000_0000 * b7) by (bit_vector)
        requires
            b0 == x & 0xff,
            b1 == (x >> 8) & 0xff,
            b2 == (x >> 16) & 0xff,
            b3 == (x >> 24) & 0xff,
            b4 == (x >> 32) & 0xff,
            b5 == (x >> 40) & 0xff,
            b6 == (x >> 48) & 0xff,
            b7 == (x >> 56) & 0xff,
    ;
    assert(s[7] == b0 && s[6] == b1 && s[5] == b2 && s[4] == b3);
    assert(s[3] == b4 && s[2] == b5 && s[1] == b6 && s[0] == b7);
}

/// Hashes are ordered by the first byte in which they differ.
pub proof fn first_difference_orders_hashes(a: Digest, b: Digest, i: int)
    requires
        0 <= i < 32,
        forall|j: int| 0 <= j < i ==> a[j] == b[j],
        a[i] < b[i],
    ensures
        hash_before(a, b),
        !hash_before(b, a),
{
    hash_order_strict(a, b);
}

/// Keys are ordered by the first byte in which they differ, and a key comes before those
/// that it begins.
pub proof fn first_difference_orders_keys(a: Seq<u8>, b: Seq<u8>, i: int)
    requires
        0 <= i <= a.len(),
        i < b.len(),
        forall|j: int| 0 <= j < i ==> a[j] == b[j],
        i < a.len() ==> a[i] < b[i],
    ensures
        key_before(a, b),
{
    assert(differs_at(a, b, i));
}

/// A constraint is written as a byte for its kind and its fields in order; one that only
/// its own verifier can check is not written at all.
pub proof fn constraint_names_its_fields(c: ConstraintView)
    ensures
        ({
            let b = constraint_bytes(c);
            match c {
                ConstraintView::MinBalance { account, min_amount } => {
                    &&& b.len() == 49
                    &&& b[0] == 0
                    &&& b.subrange(1, 33) == account@
                    &&& b.subrange(33, 49) == spec_u128_to_le_bytes(min_amount)
                },
                ConstraintView::MaxSpend { account, max_amount } => {
                    &&& b.len() == 49
                    &&& b[0] == 1
                    &&& b.subrange(1, 33) == account@
                    &&& b.subrange(33, 49) == spec_u128_to_le_bytes(max_amount)
                },
                ConstraintView::RequireTransfer { from, to, min_amount } => {
                    &&& b.len() == 81
                    &&& b[0] == 2
                    &&& b.subrange(1, 33) == from@
                    &&& b.subrange(33, 65) == to@
                    &&& b.subrange(65, 81) == spec_u128_to_le_bytes(min_amount)
                },
                ConstraintView::RequireCall { target, method } => {
                    &&& b.len() == 37 + method.len()
                    &&& b[0] == 3
                    &&& b.subrange(1, 33) == target@
                    &&& b.subrange(33, 37) == spec_u32_to_le_bytes(method.len() as u32)
                    &&& b.skip(37) == method
                },
                ConstraintView::CrossChainSwap {
                    input_amount,
                    min_output,
                    destination_chain,
                    destination_address,
                    output_token,
                } => {
                    let n = 41 + destination_address.len() as int;
                    &&& b.len() == n + output_token.len()
                    &&& b[0] == 4
                    &&& b.subrange(1, 17) == spec_u128_to_le_bytes(input_amount)
                    &&& b.subrange(17, 33) == spec_u128_to_le_bytes(min_output)
                    &&& b.subrange(33, 41) == spec_u64_to_le_bytes(destination_chain)
                    &&& b.subrange(41, n) == destination_address
                    &&& b.skip(n) == output_token
                },
                ConstraintView::Custom => b.len() == 0,
            }
        }),
{
    lemma_auto_spec_u32_to_from_le_bytes();
    lemma_auto_spec_u64_to_from_le_bytes();
    lemma_auto_spec_u128_to_from_le_bytes();
}

/// Constraints are written one after the other.
pub proof fn constraints_come_in_order(first: Seq<ConstraintView>, c: ConstraintView)
    ensures
        all_constraint_bytes(Seq::empty()).len() == 0,
        all_constraint_bytes(first.push(c)) == all_constraint_bytes(first) + constraint_bytes(c),
{
    assert(first.push(c).drop_last() =~= first);
}

/// An entry of the state as bytes.
spec fn framed(e: (Seq<u8>, Seq<u8>)) -> Seq<u8> {
    spec_u64_to_le_bytes(e.0.len() as u64) + e.0 + spec_u64_to_le_bytes(e.1.len() as u64) + e.1
}

/// Every key of `s` counts towards the root, and lengths fit into their eight bytes.
spec fn counts(s: Listing) -> bool {
    forall|i: int|
        0 <= i < s.len() ==> is_state_key((#[trigger] s[i]).0) && s[i].0.len() <= u64::MAX
            && s[i].1.len() <= u64::MAX
}

proof fn state_from_front(s: Listing)
    requires
        counts(s),
        s.len() > 0,
    ensures
        state_bytes(s) == framed(s[0]) + state_bytes(s.drop_first()),
    decreases s.len(),
{
    assert(is_state_key(s[s.len() - 1].0));
    if s.len() == 1 {
        assert(s.drop_last().len() == 0);
        assert(s.drop_first().len() == 0);
        assert(state_bytes(s.drop_last()) =~= Seq::<u8>::empty());
        assert(state_bytes(s.drop_first()) =~= Seq::<u8>::empty());
        assert(s.last() == s[0]);
        assert(state_bytes(s) =~= framed(s[0]) + state_bytes(s.drop_first()));
    } else {
        let most = s.drop_last();
        assert forall|i: int| 0 <= i < most.len() implies is_state_key((#[trigger] most[i]).0)
            && most[i].0.len() <= u64::MAX && most[i].1.len() <= u64::MAX by {
            assert(s[i] == most[i]);
        }
        state_from_front(most);
        assert(most.drop_first() =~= s.drop_first().drop_last());
        assert(s.drop_first().last() == s.last());
        assert(state_bytes(s) =~= framed(s[0]) + state_bytes(s.drop_first()));
    }
}

proof fn frames_split(a: (Seq<u8>, Seq<u8>), b: (Seq<u8>, Seq<u8>), x: Seq<u8>, y: Seq<u8>)
    requires
        a.0.len() <= u64::MAX,
        a.1.len() <= u64::MAX,
        b.0.len() <= u64::MAX,
        b.1.len() <= u64::MAX,
        framed(a) + x == framed(b) + y,
    ensures
        a == b,
        x == y,
{
    lemma_auto_spec_u64_to_from_le_bytes();
    let p = framed(a) + x;
    let q = framed(b) + y;
    assert(p.subrange(0, 8) =~= spec_u64_to_le_bytes(a.0.len() as u64));
    assert(q.subrange(0, 8) =~= spec_u64_to_le_bytes(b.0.len() as u64));
    assert(a.0.len() as u64 == b.0.len() as u64);
    let n = a.0.len() as int;
    assert(p.subrange(8, 8 + n) =~= a.0);
    assert(q.subrange(8, 8 + n) =~= b.0);
    assert(p.subrange(8 + n, 16 + n) =~= spec_u64_to_le_bytes(a.1.len() as u64));
    assert(q.subrange(8 + n, 16 + n) =~= spec_u64_to_le_bytes(b.1.len() as u64));
    assert(a.1.len() as u64 == b.1.len() as u64);
    let m = a.1.len() as int;
    assert(p.subrange(16 + n, 16 + n + m) =~= a.1);
    assert(q.subrange(16 + n, 16 + n + m) =~= b.1);
    assert(p.skip(16 + n + m) =~= x);
    assert(q.skip(16 + n + m) =~= y);
}

proof fn listings_split(a: Listing, b: Listing)
    requires
        counts(a),
        counts(b),
        state_bytes(a) == state_bytes(b),
    ensures
        a == b,
    decreases a.len(),
{
    lemma_auto_spec_u64_to_from_le_bytes();
    if a.len() > 0 {
        state_from_front(a);
    }
    if b.len() > 0 {
        state_from_front(b);
    }
    if a.len() > 0 && b.len() > 0 {
        let rest_a = a.drop_first();
        let rest_b = b.drop_first();
        frames_split(a[0], b[0], state_bytes(rest_a), state_bytes(rest_b));
        assert forall|i: int| 0 <= i < rest_a.len() implies is_state_key((#[trigger] rest_a[i]).0)
            && rest_a[i].0.len() <= u64::MAX && rest_a[i].1.len() <= u64::MAX by {
            assert(a[i + 1] == rest_a[i]);
        }
        assert forall|i: int| 0 <= i < rest_b.len() implies is_state_key((#[trigger] rest_b[i]).0)
            && rest_b[i].0.len() <= u64::MAX && rest_b[i].1.len() <= u64::MAX by {
            assert(b[i + 1] == rest_b[i]);
        }
        listings_split(rest_a, rest_b);
        assert(a =~= seq![a[0]] + rest_a);
        assert(b =~= seq![b[0]] + rest_b);
    } else {
        assert(a.len() > 0 ==> state_bytes(a).len() >= 16);
        assert(b.len() > 0 ==> state_bytes(b).len() >= 16);
        assert(a.len() == 0 ==> state_bytes(a).len() == 0);
        assert(b.len() == 0 ==> state_bytes(b).len() == 0);
        assert(a =~= b);
    }
}

/// What the root is the digest of tells states apart: the bytes of two states are the
/// same only where both hold the same keys with the same values.
pub proof fn state_bytes_tell_states_apart(s: Listing, t: Listing)
    requires
        sorted(s),
        sorted(t),
        forall|i: int|
            0 <= i < s.len() ==> (#[trigger] s[i]).0.len() <= u64::MAX && s[i].1.len() <= u64::MAX,
        forall|i: int|
            0 <= i < t.len() ==> (#[trigger] t[i]).0.len() <= u64::MAX && t[i].1.len() <= u64::MAX,
        state_bytes(s) == state_bytes(t),
    ensures
        state_part(s) == state_part(t),
{
    state_part_sound(s);
    state_part_sound(t);
    part_counts(s);
    part_counts(t);
    listings_split(state_part(s), state_part(t));
}

proof fn part_counts(s: Listing)
    requires
        forall|i: int|
            0 <= i < s.len() ==> (#[trigger] s[i]).0.len() <= u64::MAX && s[i].1.len() <= u64::MAX,
    ensures
        counts(state_part(s)),
    decreases s.len(),
{
    reveal(Seq::filter);
    if s.len() > 0 {
        let most = s.drop_last();
        assert forall|i: int| 0 <= i < most.len() implies (#[trigger] most[i]).0.len() <= u64::MAX
            && most[i].1.len() <= u64::MAX by {
            assert(s[i] == most[i]);
        }
        part_counts(most);
        assert(s[s.len() - 1] == s.last());
    }
}

/// Every account counts towards the root.
pub proof fn accounts_are_state(id: Digest)
    ensures
        is_state_key(account_key_of(id)),
{
    broadcast use is_ascii_spec_bytes;

    reveal_strlit("__");
    reveal_strlit("block/");
    reveal_strlit("acc/");
    assert(is_ascii("__") && is_ascii("block/") && is_ascii("acc/"));
    let key = account_key_of(id);
    assert(key[0] == 97u8);
    assert("__".spec_bytes()[0] == 95u8);
    assert("block/".spec_bytes()[0] == 98u8);
    if crate::store::has_prefix(key, "__".spec_bytes()) {
        assert(key.take(2)[0] == key[0]);
    }
    if crate::store::has_prefix(key, "block/".spec_bytes()) {
        assert(key.take(6)[0] == key[0]);
    }
}

} // verus!
