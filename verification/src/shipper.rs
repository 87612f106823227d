//! The mirror shipper's decisions. One cluster authorization covers the
//! unshipped outbox up to and including the authorized entry: only that
//! suffix leaves the node, entries committed after it wait for their own
//! authorization, and an authorized entry no longer in the outbox was
//! already acknowledged. Reading the outbox, replaying the log and the
//! exchange with the mirror are the engine's and the transport's.

use vstd::prelude::*;

use crate::apply_ingress::bytes_equal;
use crate::store::{decimal_of, decimal_text};

verus! {

/// One unshipped row of the engine's outbox.
#[derive(Debug)]
pub struct OutboxRow {
    pub entry_digest: Vec<u8>,
    pub commit_sequence: u64,
}

/// What shipping an authorized entry amounts to.
#[derive(Debug, PartialEq, Eq, Structural)]
pub enum SuffixPlan {
    /// The authorized entry is not in the outbox: an earlier pass shipped
    /// and acknowledged it.
    AlreadyCommitted,
    /// Ship `rows` outbox rows, replayed from `first_sequence`.
    Ship { first_sequence: u64, rows: usize },
}

/// The failures of a mirror shipper.
#[derive(Debug)]
pub enum MirrorShipperError {
    /// A configured target address does not parse as a socket address.
    Address { text: String, message: String },
    /// The mirror transport failed; the text is its own description.
    Ship(String),
    /// Shipping the authorized suffix failed.
    AuthorizedSuffix { detail: String },
}

/// The description of a shipper failure.
pub open spec fn shipper_error_text(error: MirrorShipperError) -> Seq<char> {
    match error {
        MirrorShipperError::Address { text, message } => "mirror target address "@ + text@
            + " is not a socket address: "@ + message@,
        MirrorShipperError::Ship(text) => "mirror shipper transport error: "@ + text@,
        MirrorShipperError::AuthorizedSuffix { detail } => "authorized-suffix ship failed: "@ + detail@,
    }
}

impl MirrorShipperError {
    /// The description of the failure.
    pub fn message(&self) -> (r: String)
        ensures
            r@ == shipper_error_text(*self),
    {
        match self {
            MirrorShipperError::Address { text, message } => {
                let mut out = "mirror target address ".to_string();
                out.append(text.as_str());
                out.append(" is not a socket address: ");
                out.append(message.as_str());
                out
            },
            MirrorShipperError::Ship(text) => {
                let mut out = "mirror shipper transport error: ".to_string();
                out.append(text.as_str());
                out
            },
            MirrorShipperError::AuthorizedSuffix { detail } => {
                let mut out = "authorized-suffix ship failed: ".to_string();
                out.append(detail.as_str());
                out
            },
        }
    }
}

/// The position of the first row whose entry digest is `authorized`.
pub open spec fn first_row_of(rows: Seq<OutboxRow>, authorized: Seq<u8>) -> Option<int>
    decreases rows.len(),
{
    if rows.len() == 0 {
        None
    } else {
        match first_row_of(rows.drop_last(), authorized) {
            Some(k) => Some(k),
            None => if rows.last().entry_digest@ == authorized {
                Some(rows.len() - 1)
            } else {
                None
            },
        }
    }
}

/// The plan for an authorized entry over an outbox.
pub open spec fn suffix_plan(rows: Seq<OutboxRow>, authorized: Seq<u8>) -> SuffixPlan {
    match first_row_of(rows, authorized) {
        None => SuffixPlan::AlreadyCommitted,
        Some(k) => SuffixPlan::Ship { first_sequence: rows[0].commit_sequence, rows: (k + 1) as usize },
    }
}

proof fn lemma_first_row_of_prefix(rows: Seq<OutboxRow>, authorized: Seq<u8>, i: int)
    requires
        0 <= i < rows.len(),
        first_row_of(rows.subrange(0, i), authorized) is None,
    ensures
        first_row_of(rows.subrange(0, i + 1), authorized) == if rows[i].entry_digest@ == authorized {
            Some(i)
        } else {
            None::<int>
        },
{
    assert(rows.subrange(0, i + 1).drop_last() =~= rows.subrange(0, i));
}

proof fn lemma_first_row_of_found(rows: Seq<OutboxRow>, authorized: Seq<u8>, i: int)
    requires
        0 <= i < rows.len(),
        first_row_of(rows.subrange(0, i + 1), authorized) == Some(i),
    ensures
        first_row_of(rows, authorized) == Some(i),
    decreases rows.len() - i,
{
    if rows.len() == i + 1 {
        assert(rows.subrange(0, i + 1) =~= rows);
    } else {
        assert(rows.drop_last().subrange(0, i + 1) =~= rows.subrange(0, i + 1));
        lemma_first_row_of_found(rows.drop_last(), authorized, i);
    }
}

proof fn lemma_first_row_of_none(rows: Seq<OutboxRow>, authorized: Seq<u8>)
    requires
        first_row_of(rows.subrange(0, rows.len() as int), authorized) is None,
    ensures
        first_row_of(rows, authorized) is None,
{
    assert(rows.subrange(0, rows.len() as int) =~= rows);
}

/// What one authorization covers: nothing when the authorized entry is not
/// in the outbox (already acknowledged), else the outbox up to and
/// including its first row with the authorized digest, replayed from the
/// outbox's first commit sequence.
pub fn plan_authorized_suffix(outbox: &Vec<OutboxRow>, authorized: &Vec<u8>) -> (r: SuffixPlan)
    ensures
        r == suffix_plan(outbox@, authorized@),
{
    let mut i: usize = 0;
    assert(outbox@.subrange(0, 0) =~= Seq::<OutboxRow>::empty());
    while i < outbox.len()
        invariant
            i <= outbox.len(),
            first_row_of(outbox@.subrange(0, i as int), authorized@) is None,
        decreases outbox.len() - i,
    {
        proof {
            lemma_first_row_of_prefix(outbox@, authorized@, i as int);
        }
        if bytes_equal(&outbox[i].entry_digest, authorized) {
            proof {
                lemma_first_row_of_found(outbox@, authorized@, i as int);
            }
            return SuffixPlan::Ship { first_sequence: outbox[0].commit_sequence, rows: i + 1 };
        }
        i = i + 1;
    }
    proof {
        lemma_first_row_of_none(outbox@, authorized@);
    }
    SuffixPlan::AlreadyCommitted
}

/// Why a replay falls short of the authorized rows.
pub open spec fn short_replay_text(rows: nat, taken: nat) -> Seq<char> {
    "outbox names "@ + decimal_text(rows) + " authorized rows but the replay yields "@ + decimal_text(taken)
        + " entries"@
}

/// The entries shipped are the first `rows` of the replay: the replay must
/// yield at least that many, else the suffix is refused with a count of
/// what it did yield.
pub fn check_replayed_suffix(rows: usize, replayed: usize) -> (r: Result<usize, MirrorShipperError>)
    ensures
        replayed >= rows ==> r == Ok::<usize, MirrorShipperError>(rows),
        replayed < rows ==> (r matches Err(MirrorShipperError::AuthorizedSuffix { detail }) && detail@
            == short_replay_text(rows as nat, replayed as nat)),
{
    if replayed >= rows {
        Ok(rows)
    } else {
        let mut detail = "outbox names ".to_string();
        detail.append(decimal_of(rows as u64).as_str());
        detail.append(" authorized rows but the replay yields ");
        detail.append(decimal_of(replayed as u64).as_str());
        detail.append(" entries");
        Err(MirrorShipperError::AuthorizedSuffix { detail })
    }
}

} // verus!
