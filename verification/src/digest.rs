//! The content digest of the committed state: one blake3 hash over the
//! commit sequence and every record and referent, each by its key and its
//! archived bytes, cut down to the marker's 64-bit width.

use vstd::prelude::*;
use vstd::utf8::encode_utf8;

verus! {

broadcast use vstd::string::group_string_axioms;

/// The 32 bytes that blake3 hashes `input` to.
pub uninterp spec fn blake3_digest(input: Seq<u8>) -> Seq<u8>;

/// Calls `blake3::hash` and hands back the bytes of the hash. Claimed: the
/// result is the blake3 hash of exactly `input`, and it is 32 bytes long
/// (the crate's `OUT_LEN`); what the hash is on given bytes is left to the
/// name.
#[verifier::external_body]
fn blake3_hash(input: &[u8]) -> (r: Vec<u8>)
    ensures
        r@ == blake3_digest(input@),
        r@.len() == 32,
{
    blake3::hash(input).as_bytes().to_vec()
}

/// A committed row as the digest reads it: its key and its archived bytes.
#[derive(Debug)]
pub struct ArchivedRow {
    pub key: String,
    pub archive: Vec<u8>,
}

/// `n` as `count` bytes, least significant first.
pub open spec fn le_bytes(n: nat, count: nat) -> Seq<u8>
    decreases count,
{
    if count == 0 {
        Seq::empty()
    } else {
        seq![(n % 256) as u8] + le_bytes(n / 256, (count - 1) as nat)
    }
}

/// The number the bytes spell, least significant first.
pub open spec fn le_value(bytes: Seq<u8>) -> nat
    decreases bytes.len(),
{
    if bytes.len() == 0 {
        0
    } else {
        bytes[0] as nat + 256 * le_value(bytes.drop_first())
    }
}

/// 256 to the power `k`.
pub open spec fn byte_power(k: nat) -> nat
    decreases k,
{
    if k == 0 {
        1
    } else {
        256 * byte_power((k - 1) as nat)
    }
}

/// The rows' bytes, one after another: each key in UTF-8, then its
/// archived bytes.
pub open spec fn rows_bytes(rows: Seq<ArchivedRow>) -> Seq<u8>
    decreases rows.len(),
{
    if rows.len() == 0 {
        Seq::empty()
    } else {
        rows_bytes(rows.drop_last()) + encode_utf8(rows.last().key@) + rows.last().archive@
    }
}

/// What is hashed: the commit sequence in eight little-endian bytes, then
/// every record, then every referent.
pub open spec fn digest_input(
    commit_sequence: u64,
    records: Seq<ArchivedRow>,
    referents: Seq<ArchivedRow>,
) -> Seq<u8> {
    le_bytes(commit_sequence as nat, 8) + rows_bytes(records) + rows_bytes(referents)
}

/// The state digest: zero for a store with nothing committed, else the
/// first eight bytes of the hash read as a little-endian number.
pub open spec fn state_digest_value(
    commit_sequence: u64,
    records: Seq<ArchivedRow>,
    referents: Seq<ArchivedRow>,
) -> nat {
    if records.len() == 0 && referents.len() == 0 {
        0
    } else {
        le_value(blake3_digest(digest_input(commit_sequence, records, referents)).take(8))
    }
}

fn push_le_bytes(out: &mut Vec<u8>, n: u64, count: u64)
    requires
        count <= 8,
    ensures
        final(out)@ == old(out)@ + le_bytes(n as nat, count as nat),
    decreases count,
{
    if count > 0 {
        let ghost before = out@;
        out.push((n % 256) as u8);
        push_le_bytes(out, n / 256, count - 1);
        assert(out@ =~= before + le_bytes(n as nat, count as nat));
    } else {
        assert(out@ =~= old(out)@ + le_bytes(n as nat, count as nat));
    }
}

proof fn lemma_le_value_bound(bytes: Seq<u8>)
    ensures
        le_value(bytes) < byte_power(bytes.len()),
    decreases bytes.len(),
{
    if bytes.len() > 0 {
        lemma_le_value_bound(bytes.drop_first());
    }
}

fn le_head(bytes: &Vec<u8>) -> (r: u64)
    requires
        bytes.len() >= 8,
    ensures
        r == le_value(bytes@.take(8)),
{
    let mut v: u64 = 0;
    let mut j: usize = 8;
    proof {
        assert(bytes@.subrange(8, 8) =~= Seq::<u8>::empty());
        reveal_with_fuel(byte_power, 9);
    }
    while j > 0
        invariant
            j <= 8,
            bytes.len() >= 8,
            v == le_value(bytes@.subrange(j as int, 8)),
            byte_power(8) == 0x1_0000_0000_0000_0000,
        decreases j,
    {
        let ghost tail = bytes@.subrange(j as int, 8);
        proof {
            lemma_le_value_bound(tail);
            assert(bytes@.subrange(j - 1, 8).drop_first() =~= tail);
            assert(byte_power((8 - j) as nat) * 256 == byte_power((9 - j) as nat));
            lemma_byte_power_monotone((9 - j) as nat, 8);
        }
        v = v * 256 + bytes[j - 1] as u64;
        j = j - 1;
    }
    assert(bytes@.subrange(0, 8) =~= bytes@.take(8));
    v
}

proof fn lemma_byte_power_monotone(a: nat, b: nat)
    requires
        a <= b,
    ensures
        byte_power(a) <= byte_power(b),
    decreases b,
{
    if a < b {
        lemma_byte_power_monotone(a, (b - 1) as nat);
    }
}

fn push_rows(out: &mut Vec<u8>, rows: &Vec<ArchivedRow>)
    ensures
        final(out)@ == old(out)@ + rows_bytes(rows@),
{
    let mut i: usize = 0;
    assert(rows@.take(0) =~= Seq::<ArchivedRow>::empty());
    assert(out@ =~= old(out)@ + rows_bytes(rows@.take(0)));
    while i < rows.len()
        invariant
            i <= rows.len(),
            out@ == old(out)@ + rows_bytes(rows@.take(i as int)),
        decreases rows.len() - i,
    {
        let ghost before = out@;
        let key = rows[i].key.as_str().as_bytes();
        out.extend_from_slice(key);
        let ghost with_key = out@;
        assert(with_key =~= before + encode_utf8(rows@[i as int].key@));
        out.extend_from_slice(rows[i].archive.as_slice());
        assert(out@ =~= with_key + rows@[i as int].archive@);
        assert(rows@.take(i + 1).drop_last() =~= rows@.take(i as int));
        i = i + 1;
    }
    assert(rows@.take(rows.len() as int) =~= rows@);
}

/// The state digest of a store whose rows archive to these bytes.
pub fn state_digest(
    commit_sequence: u64,
    records: &Vec<ArchivedRow>,
    referents: &Vec<ArchivedRow>,
) -> (r: u64)
    ensures
        r == state_digest_value(commit_sequence, records@, referents@),
{
    if records.len() == 0 && referents.len() == 0 {
        return 0;
    }
    let mut input: Vec<u8> = Vec::new();
    push_le_bytes(&mut input, commit_sequence, 8);
    push_rows(&mut input, records);
    push_rows(&mut input, referents);
    assert(input@ =~= digest_input(commit_sequence, records@, referents@));
    let hash = blake3_hash(input.as_slice());
    le_head(&hash)
}

} // verus!
