//! Different headers have different hashed bytes.
use vstd::prelude::*;
use vstd::string::*;

use crate::bytes::{decimal, decimal_injective, Digest};
use crate::codec::{header_json, json_array, json_items, unsigned};
use crate::types::HeaderView;

verus! {

/// `b` is a decimal digit.
pub open spec fn is_digit(b: u8) -> bool {
    48 <= b <= 57
}

/// `s` consists of decimal digits.
pub open spec fn digits(s: Seq<u8>) -> bool {
    forall|i: int| 0 <= i < s.len() ==> is_digit(#[trigger] s[i])
}

/// `s` starts, and not with a digit.
pub open spec fn stops(s: Seq<u8>) -> bool {
    s.len() > 0 && !is_digit(s[0])
}

proof fn decimal_digits(n: nat)
    ensures
        digits(decimal(n)),
    decreases n,
{
    if n >= 10 {
        decimal_digits(n / 10);
    }
}

proof fn split_fixed(a: Seq<u8>, b: Seq<u8>, x: Seq<u8>, y: Seq<u8>)
    requires
        a.len() == b.len(),
        a + x == b + y,
    ensures
        a == b,
        x == y,
{
    assert(a =~= (a + x).take(a.len() as int));
    assert(b =~= (b + y).take(a.len() as int));
    assert(x =~= (a + x).skip(a.len() as int));
    assert(y =~= (b + y).skip(a.len() as int));
}

proof fn split_digits(a: Seq<u8>, b: Seq<u8>, x: Seq<u8>, y: Seq<u8>)
    requires
        digits(a),
        digits(b),
        stops(x),
        stops(y),
        a + x == b + y,
    ensures
        a == b,
        x == y,
{
    if a.len() < b.len() {
        assert((a + x)[a.len() as int] == x[0]);
        assert((b + y)[a.len() as int] == b[a.len() as int]);
    } else if b.len() < a.len() {
        assert((b + y)[b.len() as int] == y[0]);
        assert((a + x)[b.len() as int] == a[b.len() as int]);
    }
    split_fixed(a, b, x, y);
}

proof fn split_number(m: u64, n: u64, x: Seq<u8>, y: Seq<u8>)
    requires
        stops(x),
        stops(y),
        decimal(m as nat) + x == decimal(n as nat) + y,
    ensures
        m == n,
        x == y,
{
    decimal_digits(m as nat);
    decimal_digits(n as nat);
    split_digits(decimal(m as nat), decimal(n as nat), x, y);
    decimal_injective(m as nat, n as nat);
}

proof fn items_from_front(s: Seq<u8>)
    requires
        s.len() >= 2,
    ensures
        json_items(s) == decimal(s[0] as nat) + (seq![44u8] + json_items(s.skip(1))),
    decreases s.len(),
{
    let last = decimal(s.last() as nat);
    let shorter = s.drop_last();
    assert(s.skip(1).drop_last() =~= shorter.skip(1));
    if s.len() == 2 {
        assert(shorter[0] == s[0]);
        assert(s.skip(1)[0] == s[1]);
        assert(json_items(shorter) == decimal(s[0] as nat));
        assert(json_items(s.skip(1)) == last);
        assert(json_items(s) =~= decimal(s[0] as nat) + (seq![44u8] + last));
    } else {
        items_from_front(shorter);
        assert(json_items(s) =~= decimal(s[0] as nat) + (seq![44u8] + (json_items(shorter.skip(1))
            + seq![44u8] + last)));
    }
}

proof fn split_items(s: Seq<u8>, t: Seq<u8>, x: Seq<u8>, y: Seq<u8>)
    requires
        s.len() == t.len(),
        s.len() > 0,
        stops(x),
        stops(y),
        json_items(s) + x == json_items(t) + y,
    ensures
        s == t,
        x == y,
    decreases s.len(),
{
    if s.len() == 1 {
        split_number(s[0] as u64, t[0] as u64, x, y);
        assert(s =~= t);
    } else {
        items_from_front(s);
        items_from_front(t);
        let comma = seq![44u8];
        let rest_s = json_items(s.skip(1)) + x;
        let rest_t = json_items(t.skip(1)) + y;
        assert(json_items(s) + x =~= decimal(s[0] as nat) + (comma + rest_s));
        assert(json_items(t) + y =~= decimal(t[0] as nat) + (comma + rest_t));
        split_number(s[0] as u64, t[0] as u64, comma + rest_s, comma + rest_t);
        split_fixed(comma, comma, rest_s, rest_t);
        split_items(s.skip(1), t.skip(1), x, y);
        assert(s =~= seq![s[0]] + s.skip(1));
        assert(t =~= seq![t[0]] + t.skip(1));
    }
}

proof fn split_array(a: Digest, b: Digest, x: Seq<u8>, y: Seq<u8>)
    requires
        json_array(a@) + x == json_array(b@) + y,
    ensures
        a == b,
        x == y,
{
    let open = seq![91u8];
    let close = seq![93u8];
    assert(json_array(a@) + x =~= open + (json_items(a@) + (close + x)));
    assert(json_array(b@) + y =~= open + (json_items(b@) + (close + y)));
    split_fixed(
        open,
        open,
        json_items(a@) + (close + x),
        json_items(b@) + (close + y),
    );
    split_items(a@, b@, close + x, close + y);
    split_fixed(close, close, x, y);
    assert forall|i: int| 0 <= i < 32 implies a[i] == b[i] by {
        assert(a@[i] == b@[i]);
    }
    assert(a =~= b);
}

/// A field's bytes: its name, then its value.
spec fn field(name: &str, value: Seq<u8>) -> Seq<u8> {
    name.spec_bytes() + value
}

/// The bytes of a header from its timestamp on.
spec fn from_timestamp(h: HeaderView) -> Seq<u8> {
    decimal(h.timestamp_ms as nat) + (field(
        ",\"proposer_signature\":",
        json_array(Seq::empty()) + "}".spec_bytes(),
    ))
}

spec fn from_proposer(h: HeaderView) -> Seq<u8> {
    json_array(h.proposer@) + field(",\"timestamp_ms\":", from_timestamp(h))
}

spec fn from_receipts(h: HeaderView) -> Seq<u8> {
    json_array(h.receipts_root@) + field(",\"proposer\":", from_proposer(h))
}

spec fn from_transactions(h: HeaderView) -> Seq<u8> {
    json_array(h.transactions_root@) + field(",\"receipts_root\":", from_receipts(h))
}

spec fn from_state(h: HeaderView) -> Seq<u8> {
    json_array(h.state_root@) + field(",\"transactions_root\":", from_transactions(h))
}

spec fn from_parent(h: HeaderView) -> Seq<u8> {
    json_array(h.parent_hash@) + field(",\"state_root\":", from_state(h))
}

spec fn from_epoch(h: HeaderView) -> Seq<u8> {
    decimal(h.epoch as nat) + field(",\"parent_hash\":", from_parent(h))
}

spec fn from_height(h: HeaderView) -> Seq<u8> {
    decimal(h.height as nat) + field(",\"epoch\":", from_epoch(h))
}

proof fn regroup(a: Seq<u8>, b: Seq<u8>, c: Seq<u8>, d: Seq<u8>)
    ensures
        a + b + c + d == a + (b + (c + d)),
{
    assert(a + b + c + d =~= a + (b + (c + d)));
}

proof fn header_json_from_front(h: HeaderView)
    requires
        h.proposer_signature == Seq::<u8>::empty(),
    ensures
        header_json(h) == field("{\"height\":", from_height(h)),
{
    let end = json_array(Seq::empty()) + "}".spec_bytes();
    let f1 = ",\"epoch\":".spec_bytes();
    let f2 = ",\"parent_hash\":".spec_bytes();
    let f3 = ",\"state_root\":".spec_bytes();
    let f4 = ",\"transactions_root\":".spec_bytes();
    let f5 = ",\"receipts_root\":".spec_bytes();
    let f6 = ",\"proposer\":".spec_bytes();
    let f7 = ",\"timestamp_ms\":".spec_bytes();
    let f8 = ",\"proposer_signature\":".spec_bytes();
    let p0 = "{\"height\":".spec_bytes() + decimal(h.height as nat);
    let p1 = p0 + f1 + decimal(h.epoch as nat);
    let p2 = p1 + f2 + json_array(h.parent_hash@);
    let p3 = p2 + f3 + json_array(h.state_root@);
    let p4 = p3 + f4 + json_array(h.transactions_root@);
    let p5 = p4 + f5 + json_array(h.receipts_root@);
    let p6 = p5 + f6 + json_array(h.proposer@);
    let p7 = p6 + f7 + decimal(h.timestamp_ms as nat);
    assert(header_json(h) == p7 + f8 + json_array(Seq::empty()) + "}".spec_bytes());
    let none = json_array(Seq::empty());
    regroup(p7, f8, none, "}".spec_bytes());
    regroup(p6, f7, decimal(h.timestamp_ms as nat), f8 + end);
    regroup(p5, f6, json_array(h.proposer@), f7 + from_timestamp(h));
    regroup(p4, f5, json_array(h.receipts_root@), f6 + from_proposer(h));
    regroup(p3, f4, json_array(h.transactions_root@), f5 + from_receipts(h));
    regroup(p2, f3, json_array(h.state_root@), f4 + from_transactions(h));
    regroup(p1, f2, json_array(h.parent_hash@), f3 + from_state(h));
    regroup(p0, f1, decimal(h.epoch as nat), f2 + from_parent(h));
    let start = "{\"height\":".spec_bytes();
    regroup(Seq::empty(), start, decimal(h.height as nat), f1 + from_epoch(h));
    assert(Seq::<u8>::empty() + start + decimal(h.height as nat) =~= p0);
    assert(Seq::<u8>::empty() + (start + from_height(h)) =~= start + from_height(h));
}

proof fn commas()
    ensures
        stops(",\"epoch\":".spec_bytes()),
        stops(",\"parent_hash\":".spec_bytes()),
        stops(",\"proposer_signature\":".spec_bytes()),
{
    broadcast use is_ascii_spec_bytes;

    reveal_strlit(",\"epoch\":");
    reveal_strlit(",\"parent_hash\":");
    reveal_strlit(",\"proposer_signature\":");
    assert(is_ascii(",\"epoch\":"));
    assert(is_ascii(",\"parent_hash\":"));
    assert(is_ascii(",\"proposer_signature\":"));
    assert(",\"epoch\":".spec_bytes()[0] == 44u8);
    assert(",\"parent_hash\":".spec_bytes()[0] == 44u8);
    assert(",\"proposer_signature\":".spec_bytes()[0] == 44u8);
}

/// The bytes that a block's hash is taken over determine every field of its header
/// but the signature: two blocks share a hash only where they are the same block,
/// or where the hash function itself collides.
pub proof fn hashed_bytes_determine_block(a: HeaderView, b: HeaderView)
    requires
        header_json(unsigned(a)) == header_json(unsigned(b)),
    ensures
        unsigned(a) == unsigned(b),
{
    let g = unsigned(a);
    let h = unsigned(b);
    header_json_from_front(g);
    header_json_from_front(h);
    commas();
    let n0 = "{\"height\":".spec_bytes();
    let n1 = ",\"epoch\":".spec_bytes();
    let n2 = ",\"parent_hash\":".spec_bytes();
    let n3 = ",\"state_root\":".spec_bytes();
    let n4 = ",\"transactions_root\":".spec_bytes();
    let n5 = ",\"receipts_root\":".spec_bytes();
    let n6 = ",\"proposer\":".spec_bytes();
    let n7 = ",\"timestamp_ms\":".spec_bytes();
    let n8 = ",\"proposer_signature\":".spec_bytes();
    let end = json_array(Seq::empty()) + "}".spec_bytes();
    split_fixed(n0, n0, from_height(g), from_height(h));
    assert((n1 + from_epoch(g))[0] == n1[0] && (n1 + from_epoch(h))[0] == n1[0]);
    split_number(g.height, h.height, n1 + from_epoch(g), n1 + from_epoch(h));
    split_fixed(n1, n1, from_epoch(g), from_epoch(h));
    assert((n2 + from_parent(g))[0] == n2[0] && (n2 + from_parent(h))[0] == n2[0]);
    split_number(g.epoch, h.epoch, n2 + from_parent(g), n2 + from_parent(h));
    split_fixed(n2, n2, from_parent(g), from_parent(h));
    split_array(g.parent_hash, h.parent_hash, n3 + from_state(g), n3 + from_state(h));
    split_fixed(n3, n3, from_state(g), from_state(h));
    split_array(g.state_root, h.state_root, n4 + from_transactions(g), n4 + from_transactions(h));
    split_fixed(n4, n4, from_transactions(g), from_transactions(h));
    split_array(
        g.transactions_root,
        h.transactions_root,
        n5 + from_receipts(g),
        n5 + from_receipts(h),
    );
    split_fixed(n5, n5, from_receipts(g), from_receipts(h));
    split_array(g.receipts_root, h.receipts_root, n6 + from_proposer(g), n6 + from_proposer(h));
    split_fixed(n6, n6, from_proposer(g), from_proposer(h));
    split_array(g.proposer, h.proposer, n7 + from_timestamp(g), n7 + from_timestamp(h));
    split_fixed(n7, n7, from_timestamp(g), from_timestamp(h));
    assert((n8 + end)[0] == n8[0]);
    split_number(g.timestamp_ms, h.timestamp_ms, n8 + end, n8 + end);
}

} // verus!
