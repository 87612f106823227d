//! The authorized-apply ingress: a foreign record lands in the live store
//! only when the carried entry is well formed, its digest is the one the
//! evidence authorized, it names the record it claims to, and the local
//! criome's verdict is `Authorized`. Everything else is refused,
//! fail-closed.

use vstd::prelude::*;

use crate::nexus::{ApplyRefusalReason, Output, RecordApplicationReceipt};
use crate::query::Entry;
use crate::store::{canonical_entry, has_record, RecordIdentifier, RecordView, Store};

verus! {

broadcast use vstd::string::group_string_axioms;

/// The value of one hexadecimal digit, either case.
pub open spec fn hex_digit(c: char) -> Option<u8> {
    if '0' <= c && c <= '9' {
        Some((c as u32 - '0' as u32) as u8)
    } else if 'a' <= c && c <= 'f' {
        Some((c as u32 - 'a' as u32 + 10) as u8)
    } else if 'A' <= c && c <= 'F' {
        Some((c as u32 - 'A' as u32 + 10) as u8)
    } else {
        None
    }
}

/// The octets a hex text spells, two digits per octet, high digit first;
/// `None` when its length is odd or a character is not a hex digit.
pub open spec fn hex_octets(text: Seq<char>) -> Option<Seq<u8>>
    decreases text.len(),
{
    if text.len() % 2 != 0 {
        None
    } else if text.len() == 0 {
        Some(Seq::empty())
    } else {
        match (hex_octets(text.subrange(0, text.len() - 2)), hex_digit(text[text.len() - 2]), hex_digit(
            text[text.len() - 1],
        )) {
            (Some(rest), Some(high), Some(low)) => Some(rest.push((high * 16 + low) as u8)),
            _ => None,
        }
    }
}

fn hex_digit_value(c: char) -> (r: Option<u8>)
    ensures
        r == hex_digit(c),
{
    if '0' <= c && c <= '9' {
        Some((c as u32 - '0' as u32) as u8)
    } else if 'a' <= c && c <= 'f' {
        Some((c as u32 - 'a' as u32 + 10) as u8)
    } else if 'A' <= c && c <= 'F' {
        Some((c as u32 - 'A' as u32 + 10) as u8)
    } else {
        None
    }
}

/// A hex-encoded blob as it is carried on the wire.
pub struct CarriedHex<'text> {
    pub text: &'text str,
}

impl<'text> CarriedHex<'text> {
    pub fn new(text: &'text str) -> (r: Self)
        ensures
            r.text == text,
    {
        CarriedHex { text }
    }

    /// Decode the text to its octets; a malformed body (odd length or a
    /// character that is not a hex digit) is a malformed record.
    pub fn octets(&self) -> (r: Result<Vec<u8>, ApplyRefusalReason>)
        ensures
            match hex_octets(self.text@) {
                Some(octets) => r matches Ok(v) && v@ == octets,
                None => r == Err::<Vec<u8>, ApplyRefusalReason>(ApplyRefusalReason::MalformedRecord),
            },
    {
        let chars = crate::text::chars_of(self.text);
        let n = chars.len();
        if n % 2 != 0 {
            return Err(ApplyRefusalReason::MalformedRecord);
        }
        let mut out: Vec<u8> = Vec::new();
        let mut i: usize = 0;
        assert(chars@.subrange(0, 0) =~= Seq::<char>::empty());
        while i < n
            invariant
                n == chars.len(),
                chars@ == self.text@,
                n % 2 == 0,
                i % 2 == 0,
                i <= n,
                hex_octets(chars@.subrange(0, i as int)) == Some(out@),
            decreases n - i,
        {
            let high = hex_digit_value(chars[i]);
            let low = hex_digit_value(chars[i + 1]);
            let ghost prefix = chars@.subrange(0, i + 2);
            assert(prefix.subrange(0, prefix.len() - 2) =~= chars@.subrange(0, i as int));
            match (high, low) {
                (Some(h), Some(l)) => {
                    out.push(h * 16 + l);
                },
                _ => {
                    proof {
                        lemma_hex_octets_extend_none(chars@, i as int);
                    }
                    return Err(ApplyRefusalReason::MalformedRecord);
                },
            }
            i = i + 2;
        }
        assert(chars@.subrange(0, n as int) =~= chars@);
        Ok(out)
    }
}

proof fn lemma_hex_octets_extend_none(text: Seq<char>, i: int)
    requires
        0 <= i,
        i + 2 <= text.len(),
        text.len() % 2 == 0,
        i % 2 == 0,
        hex_digit(text[i]) is None || hex_digit(text[i + 1]) is None,
    ensures
        hex_octets(text) is None,
    decreases text.len() - i,
{
    let n = text.len();
    if i + 2 == n {
        assert(text[n - 2] == text[i] && text[n - 1] == text[i + 1]);
    } else {
        let shorter = text.subrange(0, n - 2);
        assert(shorter[i] == text[i] && shorter[i + 1] == text[i + 1]);
        lemma_hex_octets_extend_none(shorter, i);
    }
}

/// Criome's verdict on the carried evidence.
#[derive(Debug, Clone, Copy, PartialEq, Eq, Structural)]
pub enum EvaluationDecision {
    Authorized,
    Rejected,
    Deferred,
    NonJudgement,
    Escalate,
}

/// A parsed, content-verified apply, ready for criome's verdict.
#[derive(Debug)]
pub struct PreparedAuthorizedApply {
    pub record_identifier: String,
    pub entry: Entry,
}

/// How an apply ended: the record landed, or a typed refusal.
#[derive(Debug)]
pub enum AuthorizedApplyOutcome {
    Applied(RecordApplicationReceipt),
    Refused(ApplyRefusalReason),
}

impl PreparedAuthorizedApply {
    /// Check a decoded apply: the digest the evidence authorized must be
    /// the digest of the carried entry (else a rehash mismatch), and the
    /// carried record must be the one named (else a malformed record).
    pub fn prepare(
        authorized_digest: &Vec<u8>,
        entry_digest: &Vec<u8>,
        carried_identifier: String,
        named_identifier: &String,
        entry: Entry,
    ) -> (r: Result<Self, ApplyRefusalReason>)
        ensures
            authorized_digest@ != entry_digest@ ==> r == Err::<Self, ApplyRefusalReason>(ApplyRefusalReason::RehashMismatch),
            authorized_digest@ == entry_digest@ && carried_identifier@ != named_identifier@ ==> r
                == Err::<Self, ApplyRefusalReason>(ApplyRefusalReason::MalformedRecord),
            authorized_digest@ == entry_digest@ && carried_identifier@ == named_identifier@ ==> (r matches Ok(p)
                && p.record_identifier == carried_identifier && p.entry == entry),
    {
        if !bytes_equal(authorized_digest, entry_digest) {
            return Err(ApplyRefusalReason::RehashMismatch);
        }
        if carried_identifier != *named_identifier {
            return Err(ApplyRefusalReason::MalformedRecord);
        }
        Ok(PreparedAuthorizedApply { record_identifier: carried_identifier, entry })
    }

    /// Only an `Authorized` verdict imports the record, and an import that
    /// fails reads as a malformed record; every other verdict is a denial.
    pub fn resolve(self, decision: &EvaluationDecision, store: &mut Store) -> (r: AuthorizedApplyOutcome)
        requires
            old(store).well_formed(),
        ensures
            final(store).well_formed(),
            final(store).same_settings(old(store)),
            match *decision {
                EvaluationDecision::Authorized => match r {
                    AuthorizedApplyOutcome::Applied(receipt) => {
                        &&& receipt.record_identifier.0@ == self.record_identifier@
                        &&& !has_record(old(store)@.records, self.record_identifier@)
                        &&& final(store)@.records == old(store)@.records.push(
                            RecordView {
                                identifier: self.record_identifier@,
                                entry: canonical_entry(old(store)@.referents, self.entry@)->Some_0,
                            },
                        )
                        &&& receipt.database_marker.commit_sequence == final(store)@.commit_sequence
                    },
                    AuthorizedApplyOutcome::Refused(reason) => reason == ApplyRefusalReason::MalformedRecord
                        && final(store)@ == old(store)@,
                },
                _ => r == AuthorizedApplyOutcome::Refused(ApplyRefusalReason::AuthorizationDenied)
                    && final(store)@ == old(store)@,
            },
    {
        match decision {
            EvaluationDecision::Authorized => {
                let PreparedAuthorizedApply { record_identifier, entry } = self;
                match store.import_record(record_identifier, entry) {
                    Ok(identifier) => AuthorizedApplyOutcome::Applied(
                        RecordApplicationReceipt {
                            record_identifier: RecordIdentifier(identifier),
                            database_marker: store.database_marker(),
                        },
                    ),
                    Err(_) => AuthorizedApplyOutcome::Refused(ApplyRefusalReason::MalformedRecord),
                }
            },
            _ => {
                proof {
                    store.lemma_same_settings_reflexive();
                }
                AuthorizedApplyOutcome::Refused(ApplyRefusalReason::AuthorizationDenied)
            },
        }
    }
}

impl AuthorizedApplyOutcome {
    /// The signal reply an outcome becomes.
    pub fn into_output(self) -> (r: Output)
        ensures
            match self {
                AuthorizedApplyOutcome::Applied(receipt) => r == Output::RecordApplied(receipt),
                AuthorizedApplyOutcome::Refused(reason) => r == Output::ApplyRefused(reason),
            },
    {
        match self {
            AuthorizedApplyOutcome::Applied(receipt) => Output::RecordApplied(receipt),
            AuthorizedApplyOutcome::Refused(reason) => Output::ApplyRefused(reason),
        }
    }
}

/// Whether two byte strings are the same.
pub fn bytes_equal(a: &Vec<u8>, b: &Vec<u8>) -> (r: bool)
    ensures
        r == (a@ == b@),
{
    if a.len() != b.len() {
        return false;
    }
    let mut i: usize = 0;
    while i < a.len()
        invariant
            a.len() == b.len(),
            i <= a.len(),
            forall|k: int| 0 <= k < i ==> a@[k] == b@[k],
        decreases a.len() - i,
    {
        if a[i] != b[i] {
            return false;
        }
        i = i + 1;
    }
    assert(a@ =~= b@);
    true
}

} // verus!
