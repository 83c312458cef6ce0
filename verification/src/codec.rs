//! The byte forms that the engine hashes, signs and stores.
use vstd::bytes::*;
use vstd::prelude::*;
use vstd::string::*;

use crate::bytes::{
    append_bytes, append_decimal, be_u64, append_be_u64, decimal, hash_at, zero_hash,
    zero_hash_spec, Digest,
};
use crate::crypto::{blake3_digest, blake3_hash};
use crate::types::{opt_view, BlockHeader, BlockRevert, Delta, HeaderView, RevertEntry};

verus! {

/// The JSON array of the numbers in `s`, without its opening bracket.
pub open spec fn json_items(s: Seq<u8>) -> Seq<u8>
    decreases s.len(),
{
    if s.len() == 0 {
        Seq::empty()
    } else if s.len() == 1 {
        decimal(s[0] as nat)
    } else {
        json_items(s.drop_last()) + seq![44u8] + decimal(s.last() as nat)
    }
}

/// The JSON array of the numbers in `s`: brackets round the decimal digits of
/// each, with commas between.
pub open spec fn json_array(s: Seq<u8>) -> Seq<u8> {
    seq![91u8] + json_items(s) + seq![93u8]
}

/// Calls `serde_json::to_vec` on a number: its JSON form is its decimal digits.
#[verifier::external_body]
pub(crate) fn json_number(n: u64) -> (json: Vec<u8>)
    ensures
        json@ == decimal(n as nat),
{
    serde_json::to_vec(&n).expect("a number has a JSON form")
}

/// Calls `serde_json::to_vec` on a list of bytes: its JSON form is an array of
/// numbers, written without spaces.
#[verifier::external_body]
pub(crate) fn json_byte_array(bytes: &[u8]) -> (json: Vec<u8>)
    ensures
        json@ == json_array(bytes@),
{
    serde_json::to_vec(bytes).expect("a list of bytes has a JSON form")
}

/// The JSON object of a header, its fields in the order of their declaration.
pub open spec fn header_json(h: HeaderView) -> Seq<u8> {
    "{\"height\":".spec_bytes() + decimal(h.height as nat) + ",\"epoch\":".spec_bytes() + decimal(
        h.epoch as nat,
    ) + ",\"parent_hash\":".spec_bytes() + json_array(h.parent_hash@)
        + ",\"state_root\":".spec_bytes() + json_array(h.state_root@)
        + ",\"transactions_root\":".spec_bytes() + json_array(h.transactions_root@)
        + ",\"receipts_root\":".spec_bytes() + json_array(h.receipts_root@)
        + ",\"proposer\":".spec_bytes() + json_array(h.proposer@)
        + ",\"timestamp_ms\":".spec_bytes() + decimal(h.timestamp_ms as nat)
        + ",\"proposer_signature\":".spec_bytes() + json_array(h.proposer_signature)
        + "}".spec_bytes()
}

/// A header without its signature.
pub open spec fn unsigned(h: HeaderView) -> HeaderView {
    HeaderView { proposer_signature: Seq::empty(), ..h }
}

/// What a block is known by: the digest of its unsigned header.
pub open spec fn hash_of(h: HeaderView) -> Digest {
    blake3_digest(header_json(unsigned(h)))
}

/// The bytes that a block's hash is taken over.
pub fn unsigned_header_bytes(header: &BlockHeader) -> (out: Vec<u8>)
    ensures
        out@ == header_json(unsigned(header@)),
{
    let mut out: Vec<u8> = Vec::new();
    append_bytes(&mut out, "{\"height\":".as_bytes());
    append_bytes(&mut out, json_number(header.height).as_slice());
    append_bytes(&mut out, ",\"epoch\":".as_bytes());
    append_bytes(&mut out, json_number(header.epoch).as_slice());
    append_bytes(&mut out, ",\"parent_hash\":".as_bytes());
    append_bytes(&mut out, json_byte_array(header.parent_hash.as_slice()).as_slice());
    append_bytes(&mut out, ",\"state_root\":".as_bytes());
    append_bytes(&mut out, json_byte_array(header.state_root.as_slice()).as_slice());
    append_bytes(&mut out, ",\"transactions_root\":".as_bytes());
    append_bytes(&mut out, json_byte_array(header.transactions_root.as_slice()).as_slice());
    append_bytes(&mut out, ",\"receipts_root\":".as_bytes());
    append_bytes(&mut out, json_byte_array(header.receipts_root.as_slice()).as_slice());
    append_bytes(&mut out, ",\"proposer\":".as_bytes());
    append_bytes(&mut out, json_byte_array(header.proposer.as_slice()).as_slice());
    append_bytes(&mut out, ",\"timestamp_ms\":".as_bytes());
    append_bytes(&mut out, json_number(header.timestamp_ms).as_slice());
    append_bytes(&mut out, ",\"proposer_signature\":".as_bytes());
    let unsigned_field: Vec<u8> = Vec::new();
    append_bytes(&mut out, json_byte_array(unsigned_field.as_slice()).as_slice());
    append_bytes(&mut out, "}".as_bytes());
    assert(out@ =~= header_json(unsigned(header@)));
    out
}

/// A header's signature is no part of its hash: signed and unsigned headers of one
/// block hash alike.
pub proof fn hash_ignores_signature(h: HeaderView, signature: Seq<u8>)
    ensures
        hash_of(HeaderView { proposer_signature: signature, ..h }) == hash_of(h),
{
    assert(unsigned(HeaderView { proposer_signature: signature, ..h }) == unsigned(h));
}

/// Hashes a block header. The proposer's signature is left out, so that a block
/// has one hash whether or not it is signed.
pub fn block_hash(header: &BlockHeader) -> (hash: Digest)
    ensures
        hash == hash_of(header@),
{
    let bytes = unsigned_header_bytes(header);
    blake3_hash(bytes.as_slice())
}

/// The root of `count` items whose encoding is `encoded`: zero for none, else the
/// digest of the encoding, or of the count where the items have no encoding.
pub open spec fn list_root(count: u64, encoded: Option<Seq<u8>>) -> Digest {
    if count == 0 {
        zero_hash_spec()
    } else {
        match encoded {
            Some(data) => blake3_digest(data),
            None => blake3_digest(spec_u64_to_le_bytes(count)),
        }
    }
}

fn root_of_list(count: usize, encoded: &Option<Vec<u8>>) -> (root: Digest)
    ensures
        root == list_root(count as u64, crate::types::opt_view(*encoded)),
{
    if count == 0 {
        return zero_hash();
    }
    match encoded {
        Some(data) => blake3_hash(data.as_slice()),
        None => {
            let width = u64_to_le_bytes(count as u64);
            blake3_hash(width.as_slice())
        },
    }
}

/// The root over `count` operations, given their JSON encoding.
pub fn compute_tx_root(count: usize, encoded: &Option<Vec<u8>>) -> (root: Digest)
    ensures
        root == list_root(count as u64, crate::types::opt_view(*encoded)),
{
    root_of_list(count, encoded)
}

/// The root over `count` receipts, given their JSON encoding.
pub fn compute_receipts_root(count: usize, encoded: &Option<Vec<u8>>) -> (root: Digest)
    ensures
        root == list_root(count as u64, crate::types::opt_view(*encoded)),
{
    root_of_list(count, encoded)
}

/// What a validator signs to attest a block: a domain separator, the chain, the
/// height and the hash.
pub open spec fn attestation_payload(chain_id: u64, height: u64, hash: Digest) -> Seq<u8> {
    "SOLEN_ATT".spec_bytes() + spec_u64_to_le_bytes(chain_id) + spec_u64_to_le_bytes(height)
        + hash@
}

/// Builds the payload that a validator signs to attest a block.
pub fn attestation_signing_payload(chain_id: u64, height: u64, hash: &Digest) -> (payload: Vec<u8>)
    ensures
        payload@ == attestation_payload(chain_id, height, *hash),
{
    let mut payload: Vec<u8> = Vec::new();
    append_bytes(&mut payload, "SOLEN_ATT".as_bytes());
    append_bytes(&mut payload, u64_to_le_bytes(chain_id).as_slice());
    append_bytes(&mut payload, u64_to_le_bytes(height).as_slice());
    append_bytes(&mut payload, hash.as_slice());
    assert(payload@ =~= attestation_payload(chain_id, height, *hash));
    payload
}

/// The payload names its chain, height and hash: one signed for another chain,
/// height or block is a different message.
pub proof fn attestation_payload_injective(
    chain_a: u64,
    height_a: u64,
    hash_a: Digest,
    chain_b: u64,
    height_b: u64,
    hash_b: Digest,
)
    requires
        attestation_payload(chain_a, height_a, hash_a) == attestation_payload(
            chain_b,
            height_b,
            hash_b,
        ),
    ensures
        chain_a == chain_b,
        height_a == height_b,
        hash_a == hash_b,
{
    lemma_auto_spec_u64_to_from_le_bytes();
    let p = attestation_payload(chain_a, height_a, hash_a);
    let q = attestation_payload(chain_b, height_b, hash_b);
    let n = "SOLEN_ATT".spec_bytes().len() as int;
    assert(p.subrange(n, n + 8) =~= spec_u64_to_le_bytes(chain_a));
    assert(q.subrange(n, n + 8) =~= spec_u64_to_le_bytes(chain_b));
    assert(p.subrange(n + 8, n + 16) =~= spec_u64_to_le_bytes(height_a));
    assert(q.subrange(n + 8, n + 16) =~= spec_u64_to_le_bytes(height_b));
    assert(p.subrange(n + 16, n + 48) =~= hash_a@);
    assert(q.subrange(n + 16, n + 48) =~= hash_b@);
    assert forall|i: int| 0 <= i < 32 implies hash_a[i] == hash_b[i] by {
        assert(hash_a@[i] == hash_b@[i]);
    }
    assert(hash_a =~= hash_b);
}

/// The record of the last attested block.
pub open spec fn attestation_record(height: u64, hash: Digest) -> Seq<u8> {
    spec_u64_to_le_bytes(height) + hash@
}

/// The attested block that `data` records, if it is long enough to record one.
pub open spec fn recorded_attestation(data: Seq<u8>) -> Option<(u64, Seq<u8>)> {
    if data.len() >= 40 {
        Some((spec_u64_from_le_bytes(data.subrange(0, 8)), data.subrange(8, 40)))
    } else {
        None
    }
}

/// Encodes the record of the last attested block.
pub fn encode_last_attestation(height: u64, hash: &Digest) -> (data: Vec<u8>)
    ensures
        data@ == attestation_record(height, *hash),
{
    let mut data = u64_to_le_bytes(height);
    append_bytes(&mut data, hash.as_slice());
    data
}

/// Decodes the record of the last attested block.
pub fn decode_last_attestation(data: &[u8]) -> (block: Option<(u64, Digest)>)
    ensures
        (match block {
            Some(b) => Some((b.0, b.1@)),
            None => None,
        }) == recorded_attestation(data@),
{
    if data.len() < 40 {
        return None;
    }
    let height = u64_from_le_bytes(vstd::slice::slice_subrange(data, 0, 8));
    let hash = hash_at(data, 8);
    Some((height, hash))
}

/// A record gives back the block that was written into it.
pub proof fn attestation_record_round_trip(height: u64, hash: Digest)
    ensures
        recorded_attestation(attestation_record(height, hash)) == Some((height, hash@)),
{
    lemma_auto_spec_u64_to_from_le_bytes();
    let data = attestation_record(height, hash);
    assert(data.subrange(0, 8) =~= spec_u64_to_le_bytes(height));
    assert(data.subrange(8, 40) =~= hash@);
}

/// The record of the chain's height and epoch.
pub open spec fn meta_record(height: u64, epoch: u64) -> Seq<u8> {
    spec_u64_to_le_bytes(height) + spec_u64_to_le_bytes(epoch)
}

/// The height and epoch that are recorded, or zeros where nothing (or too little)
/// is.
pub open spec fn recorded_meta(data: Option<Seq<u8>>) -> (u64, u64) {
    match data {
        Some(d) => if d.len() >= 16 {
            (
                spec_u64_from_le_bytes(d.subrange(0, 8)),
                spec_u64_from_le_bytes(d.subrange(8, 16)),
            )
        } else {
            (0, 0)
        },
        None => (0, 0),
    }
}

/// Encodes the record of the chain's height and epoch.
pub fn encode_chain_meta(height: u64, epoch: u64) -> (data: Vec<u8>)
    ensures
        data@ == meta_record(height, epoch),
{
    let mut data = u64_to_le_bytes(height);
    append_bytes(&mut data, u64_to_le_bytes(epoch).as_slice());
    data
}

/// Decodes the record of the chain's height and epoch.
pub fn decode_chain_meta(data: &Option<Vec<u8>>) -> (meta: (u64, u64))
    ensures
        meta == recorded_meta(crate::types::opt_view(*data)),
{
    match data {
        Some(d) => if d.len() >= 16 {
            let d = d.as_slice();
            (
                u64_from_le_bytes(vstd::slice::slice_subrange(d, 0, 8)),
                u64_from_le_bytes(vstd::slice::slice_subrange(d, 8, 16)),
            )
        } else {
            (0, 0)
        },
        None => (0, 0),
    }
}

/// A record gives back the height and epoch that were written into it.
pub proof fn meta_record_round_trip(height: u64, epoch: u64)
    ensures
        recorded_meta(Some(meta_record(height, epoch))) == (height, epoch),
{
    lemma_auto_spec_u64_to_from_le_bytes();
    let data = meta_record(height, epoch);
    assert(data.subrange(0, 8) =~= spec_u64_to_le_bytes(height));
    assert(data.subrange(8, 16) =~= spec_u64_to_le_bytes(epoch));
}

/// The key under which the block at `height` is stored.
pub open spec fn block_key_of(height: u64) -> Seq<u8> {
    "block/".spec_bytes() + decimal(height as nat)
}

/// Builds the key under which the block at `height` is stored.
pub fn block_key(height: u64) -> (key: Vec<u8>)
    ensures
        key@ == block_key_of(height),
{
    let mut key: Vec<u8> = Vec::new();
    append_bytes(&mut key, "block/".as_bytes());
    append_decimal(&mut key, height);
    assert(key@ =~= block_key_of(height));
    key
}

/// Blocks at different heights have different keys.
pub proof fn block_keys_distinct(a: u64, b: u64)
    requires
        block_key_of(a) == block_key_of(b),
    ensures
        a == b,
{
    let n = "block/".spec_bytes().len() as int;
    let ka = block_key_of(a);
    let kb = block_key_of(b);
    assert(ka.subrange(n, ka.len() as int) =~= decimal(a as nat));
    assert(kb.subrange(n, kb.len() as int) =~= decimal(b as nat));
    crate::bytes::decimal_injective(a as nat, b as nat);
}

/// The key under which an account is stored.
pub open spec fn account_key_of(id: Digest) -> Seq<u8> {
    "acc/".spec_bytes() + id@
}

/// Builds the key under which an account is stored.
pub fn account_key(id: &Digest) -> (key: Vec<u8>)
    ensures
        key@ == account_key_of(*id),
{
    let mut key: Vec<u8> = Vec::new();
    append_bytes(&mut key, "acc/".as_bytes());
    append_bytes(&mut key, id.as_slice());
    assert(key@ =~= account_key_of(*id));
    key
}

/// The key of the record of the chain's height and epoch.
pub open spec fn chain_meta_key_of() -> Seq<u8> {
    "__chain_meta__".spec_bytes()
}

/// The key of the record of the last attested block.
pub open spec fn last_attestation_key_of() -> Seq<u8> {
    "__last_attestation__".spec_bytes()
}

/// The key of the last finalized checkpoint.
pub open spec fn finalized_checkpoint_key_of() -> Seq<u8> {
    "__finalized_checkpoint__".spec_bytes()
}

/// The key of the undo record of an eagerly committed block.
pub open spec fn eager_revert_key_of(prefix: Seq<u8>, height: u64) -> Seq<u8> {
    prefix + be_u64(height)
}

/// Builds the key of the undo record of an eagerly committed block.
pub fn eager_revert_key(prefix: &[u8], height: u64) -> (key: Vec<u8>)
    ensures
        key@ == eager_revert_key_of(prefix@, height),
{
    let mut key: Vec<u8> = Vec::new();
    append_bytes(&mut key, prefix);
    append_be_u64(&mut key, height);
    assert(key@ =~= eager_revert_key_of(prefix@, height));
    key
}

/// The byte form of a byte string: its length in four bytes, lowest first, then its
/// bytes.
pub open spec fn string_form(s: Seq<u8>) -> Seq<u8> {
    spec_u32_to_le_bytes(s.len() as u32) + s
}

/// The byte form of a value that may be missing: a mark, then the value.
pub open spec fn option_form(value: Option<Seq<u8>>) -> Seq<u8> {
    match value {
        Some(s) => seq![1u8] + string_form(s),
        None => seq![0u8],
    }
}

/// The byte forms of the entries of a reverse-delta, in order.
pub open spec fn entries_form(delta: Delta) -> Seq<u8>
    decreases delta.len(),
{
    if delta.len() == 0 {
        Seq::empty()
    } else {
        string_form(delta[0].0) + (option_form(delta[0].1) + entries_form(delta.drop_first()))
    }
}

/// Every length of the reverse-delta fits into four bytes.
pub open spec fn delta_fits(delta: Delta) -> bool {
    &&& delta.len() <= u32::MAX
    &&& forall|i: int|
        0 <= i < delta.len() ==> (#[trigger] delta[i]).0.len() <= u32::MAX && (delta[i].1 matches Some(
            s,
        ) ==> s.len() <= u32::MAX)
}

/// The bytes are the record of a reverse-delta: how many entries it has, in four
/// bytes, then the entries.
pub open spec fn records_delta(data: Seq<u8>, delta: Delta) -> bool {
    delta_fits(delta) && data == spec_u32_to_le_bytes(delta.len() as u32) + entries_form(delta)
}

/// The reverse-delta that an undo record holds, if it is one.
pub open spec fn decoded_revert(data: Seq<u8>) -> Option<Delta> {
    if exists|delta: Delta| records_delta(data, delta) {
        Some(choose|delta: Delta| records_delta(data, delta))
    } else {
        None
    }
}

proof fn length_read_back(m: nat, n: nat, x: Seq<u8>, y: Seq<u8>)
    requires
        m <= u32::MAX,
        n <= u32::MAX,
        spec_u32_to_le_bytes(m as u32) + x == spec_u32_to_le_bytes(n as u32) + y,
    ensures
        m == n,
        x == y,
{
    lemma_auto_spec_u32_to_from_le_bytes();
    let a = spec_u32_to_le_bytes(m as u32);
    let b = spec_u32_to_le_bytes(n as u32);
    assert(a =~= (a + x).take(4));
    assert(b =~= (b + y).take(4));
    assert(x =~= (a + x).skip(4));
    assert(y =~= (b + y).skip(4));
    assert(spec_u32_from_le_bytes(a) == m as u32);
}

proof fn string_read_back(s: Seq<u8>, r: Seq<u8>, x: Seq<u8>, y: Seq<u8>)
    requires
        s.len() <= u32::MAX,
        r.len() <= u32::MAX,
        string_form(s) + x == string_form(r) + y,
    ensures
        s == r,
        x == y,
{
    assert(string_form(s) + x =~= spec_u32_to_le_bytes(s.len() as u32) + (s + x));
    assert(string_form(r) + y =~= spec_u32_to_le_bytes(r.len() as u32) + (r + y));
    length_read_back(s.len(), r.len(), s + x, r + y);
    assert(s =~= (s + x).take(s.len() as int));
    assert(r =~= (r + y).take(r.len() as int));
    assert(x =~= (s + x).skip(s.len() as int));
    assert(y =~= (r + y).skip(r.len() as int));
}

proof fn option_read_back(v: Option<Seq<u8>>, w: Option<Seq<u8>>, x: Seq<u8>, y: Seq<u8>)
    requires
        v matches Some(s) ==> s.len() <= u32::MAX,
        w matches Some(s) ==> s.len() <= u32::MAX,
        option_form(v) + x == option_form(w) + y,
    ensures
        v == w,
        x == y,
{
    assert((option_form(v) + x)[0] == option_form(v)[0]);
    assert((option_form(w) + y)[0] == option_form(w)[0]);
    let rest_v = (option_form(v) + x).skip(1);
    let rest_w = (option_form(w) + y).skip(1);
    match (v, w) {
        (Some(s), Some(r)) => {
            assert(rest_v =~= string_form(s) + x);
            assert(rest_w =~= string_form(r) + y);
            string_read_back(s, r, x, y);
        },
        (None, None) => {
            assert(rest_v =~= x);
            assert(rest_w =~= y);
        },
        _ => {},
    }
}

proof fn entries_read_back(a: Delta, b: Delta)
    requires
        delta_fits(a),
        delta_fits(b),
        a.len() == b.len(),
        entries_form(a) == entries_form(b),
    ensures
        a == b,
    decreases a.len(),
{
    if a.len() > 0 {
        let rest_a = a.drop_first();
        let rest_b = b.drop_first();
        assert forall|i: int| 0 <= i < rest_a.len() implies (#[trigger] rest_a[i]).0.len()
            <= u32::MAX && (rest_a[i].1 matches Some(s) ==> s.len() <= u32::MAX) by {
            assert(rest_a[i] == a[i + 1]);
        }
        assert forall|i: int| 0 <= i < rest_b.len() implies (#[trigger] rest_b[i]).0.len()
            <= u32::MAX && (rest_b[i].1 matches Some(s) ==> s.len() <= u32::MAX) by {
            assert(rest_b[i] == b[i + 1]);
        }
        string_read_back(
            a[0].0,
            b[0].0,
            option_form(a[0].1) + entries_form(rest_a),
            option_form(b[0].1) + entries_form(rest_b),
        );
        option_read_back(a[0].1, b[0].1, entries_form(rest_a), entries_form(rest_b));
        entries_read_back(rest_a, rest_b);
        assert(a =~= seq![a[0]] + rest_a);
        assert(b =~= seq![b[0]] + rest_b);
    } else {
        assert(a =~= b);
    }
}

/// An undo record holds one reverse-delta only: what was recorded is what is read
/// back.
pub proof fn undo_record_round_trip(data: Seq<u8>, delta: Delta)
    requires
        records_delta(data, delta),
    ensures
        decoded_revert(data) == Some(delta),
{
    let other = decoded_revert(data)->0;
    assert(records_delta(data, other));
    length_read_back(delta.len(), other.len(), entries_form(delta), entries_form(other));
    entries_read_back(delta, other);
}

/// Calls `borsh::from_slice` for a list of keys and optional values. The format writes
/// a list as its length, in four bytes, and its items, a byte string as such a list,
/// and an optional value as a mark of one byte before it. It gives the list whose form
/// the bytes are, to the last byte, and an error where there is none.
#[verifier::external_body]
pub(crate) fn borsh_revert(data: &[u8]) -> (revert: Option<BlockRevert>)
    ensures
        match revert {
            Some(revert) => records_delta(data@, revert@),
            None => forall|delta: Delta| !records_delta(data@, delta),
        },
{
    match borsh::from_slice::<Vec<(Vec<u8>, Option<Vec<u8>>)>>(data) {
        Ok(pairs) => Some(
            BlockRevert {
                entries: pairs.into_iter().map(|(key, value)| RevertEntry { key, value }).collect(),
            },
        ),
        Err(_) => None,
    }
}

/// Decodes an undo record.
pub fn decode_eager_revert(data: &[u8]) -> (revert: Option<BlockRevert>)
    ensures
        opt_view(revert) == decoded_revert(data@),
{
    let revert = borsh_revert(data);
    proof {
        if revert is Some {
            undo_record_round_trip(data@, revert->0@);
        }
    }
    revert
}

} // verus!
