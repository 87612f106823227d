//! The criome authorization policy and the head-authorization gate.
//!
//! `Disabled` keeps Spirit fully local: heads advance freely and nothing is
//! shipped. `Enabled` demands criome authorization for every head advance;
//! no cluster authorizer exists yet, so every input that would write the
//! log is refused, fail-closed, and no head is ever released for shipping.

use vstd::prelude::*;

use crate::guardian_journal::{operation_name, GuardianOperation};
use crate::nexus::Input;

verus! {

/// Whether Spirit's heads are subject to criome authorization.
#[derive(Debug, Clone, Copy, PartialEq, Eq, Structural)]
pub enum CriomeAuthorization {
    Disabled,
    Enabled,
}

/// Whether an input would advance the versioned-log head: every SEMA log
/// write, including a statement, which lands as a record.
pub open spec fn advances_head(input: Input) -> bool {
    match input {
        Input::State(_) | Input::Record(_) | Input::Propose(_) | Input::Clarify(_)
        | Input::ResolveClarification(_) | Input::Supersede(_) | Input::Retire(_)
        | Input::ChangeCertainty(_) | Input::BumpImportance(_) | Input::ChangeRecord(_)
        | Input::RegisterReferent(_) => true,
        _ => false,
    }
}

impl CriomeAuthorization {
    /// The default policy: disabled.
    pub fn default_policy() -> (r: Self)
        ensures
            r == CriomeAuthorization::Disabled,
    {
        CriomeAuthorization::Disabled
    }

    /// Whether the input may enter the working pipeline: always when
    /// disabled; when enabled, only inputs that do not advance the head
    /// (reads, subscriptions, taps, the version and marker, and the
    /// authorized apply, which is refused further on).
    pub fn admits(&self, input: &Input) -> (r: bool)
        ensures
            r == (*self == CriomeAuthorization::Disabled || !advances_head(*input)),
    {
        match self {
            CriomeAuthorization::Disabled => true,
            CriomeAuthorization::Enabled => match input {
                Input::State(_) | Input::Record(_) | Input::Propose(_) | Input::Clarify(_)
                | Input::ResolveClarification(_) | Input::Supersede(_) | Input::Retire(_)
                | Input::ChangeCertainty(_) | Input::BumpImportance(_) | Input::ChangeRecord(_)
                | Input::RegisterReferent(_) => false,
                Input::Observe(_) | Input::PublicTextSearch(_) | Input::Lookup(_) | Input::Count(_)
                | Input::LookupStash(_)
                | Input::Tap(_) | Input::Untap(_) | Input::SubscribeIntent(_)
                | Input::ApplyAuthorizedRecord | Input::Version | Input::Marker => true,
            },
        }
    }
}

/// What criome authorization answers for a captured head.
#[derive(Debug, Clone, Copy, PartialEq, Eq, Structural)]
pub enum GateDecision {
    /// Criome authorized the head.
    Authorized,
    /// No cluster authorizer is configured; do not ship.
    Unconfigured,
    /// Criome decided against the head; do not ship.
    Denied,
    /// Criome could not be reached; do not ship.
    Unreachable,
}

impl GateDecision {
    /// Whether the decision releases the ship: only an authorization does.
    pub fn ships(&self) -> (r: bool)
        ensures
            r == (*self == GateDecision::Authorized),
    {
        match self {
            GateDecision::Authorized => true,
            _ => false,
        }
    }
}

/// The head-authorization gate with its policy. It holds no authorizer.
#[derive(Debug)]
pub struct CriomeGate {
    authorization: CriomeAuthorization,
}

/// How a guardian-checked operation fared at criome.
#[derive(Debug)]
pub enum SpiritOperationAuthorization {
    Allowed,
    Blocked(String),
}

/// Why the authorization machinery failed.
#[derive(Debug)]
pub enum CriomeGateError {
    /// The task that talked to criome failed.
    AuthorizationTask(String),
    /// Criome answered with a reply that does not fit; the text describes
    /// the reply.
    UnexpectedReply(String),
}

impl CriomeGate {
    pub closed spec fn spec_authorization(&self) -> CriomeAuthorization {
        self.authorization
    }

    /// The default gate: authorization disabled.
    pub fn new() -> (r: Self)
        ensures
            r.spec_authorization() == CriomeAuthorization::Disabled,
    {
        CriomeGate { authorization: CriomeAuthorization::Disabled }
    }

    pub fn set_authorization(&mut self, authorization: CriomeAuthorization)
        ensures
            final(self).spec_authorization() == authorization,
    {
        self.authorization = authorization;
    }

    pub fn authorization(&self) -> (r: CriomeAuthorization)
        ensures
            r == self.spec_authorization(),
    {
        self.authorization
    }

    /// Authorize a captured head before it ships. No cluster authorizer is
    /// wired, so the head is held back.
    pub fn authorize_head(&self, head_digest: &Vec<u8>) -> (r: Result<GateDecision, CriomeGateError>)
        ensures
            r matches Ok(d) && d == GateDecision::Unconfigured,
    {
        Ok(GateDecision::Unconfigured)
    }
}


/// A reply from criome, as the authorizer reads it. Each reply carries the
/// text it describes itself with, which a refusal quotes.
#[derive(Debug)]
pub enum CriomeReply {
    AuthorizationGranted { authorized_object_digest: Vec<u8>, description: String },
    AuthorizationPending { request_slot: String, description: String },
    AuthorizationDenied(String),
    AuthorizationExpired(String),
    AuthorizationUnavailable(String),
    AuthorizationObservationSnapshot(Vec<AuthorizationStateRecord>),
    /// Any other reply.
    Other(String),
}

/// Where a parked authorization request stands.
#[derive(Debug, Clone, Copy, PartialEq, Eq, Structural)]
pub enum AuthorizationStatus {
    Granted,
    Denied,
    Expired,
    Unavailable,
    Pending,
    Signing,
    Parked,
}

/// One parked request's state, as an observation snapshot reports it.
#[derive(Debug)]
pub struct AuthorizationStateRecord {
    pub request_digest: Vec<u8>,
    pub status: AuthorizationStatus,
    /// The digest the grant authorizes, when the state carries a grant.
    pub grant_digest: Option<Vec<u8>>,
    /// How the denial describes itself.
    pub denial: String,
    /// How the state describes itself.
    pub description: String,
}

/// What observing a parked request showed.
#[derive(Debug)]
pub enum PendingAuthorizationObservation {
    Waiting,
    Allowed,
    Blocked(String),
}

/// What an operation asks criome to authorize.
#[derive(Debug)]
pub struct SpiritAuthorizationContext {
    pub operation_name: String,
    pub raw_payload: String,
    pub target_key: String,
}

impl GuardianOperation {
    /// What this operation asks criome to authorize against the process
    /// `target_key`: its name and `raw_payload`, the NOTA text of the
    /// operation as a signal input.
    pub fn authorization_context(&self, target_key: String, raw_payload: String) -> (r:
        SpiritAuthorizationContext)
        ensures
            r.operation_name@ == operation_name(*self),
            r.raw_payload@ == raw_payload@,
            r.target_key@ == target_key@,
    {
        SpiritAuthorizationContext {
            operation_name: self.name().to_string(),
            raw_payload,
            target_key,
        }
    }
}

/// The signal-call authorization request for an operation.
#[derive(Debug)]
pub struct SignalCallAuthorization {
    pub request_digest: Vec<u8>,
    pub contract_name: String,
    pub operation_head: String,
    pub authorization_scope: String,
    pub host_identity: String,
    pub replay_nonce: String,
    pub context: SpiritAuthorizationContext,
}

/// What one authorization round-trip leads to.
#[derive(Debug)]
pub enum AuthorizationStep {
    /// The answer is in.
    Decided(Result<SpiritOperationAuthorization, CriomeGateError>),
    /// Criome parked the request; watch the slot until it settles.
    AwaitPending(String),
}

/// Criome's operation authorizer: where criome listens, if anywhere, and
/// the key this process authorizes under.
#[derive(Debug)]
pub struct SpiritOperationAuthorizer {
    socket: Option<String>,
    process_key: String,
}

/// A gating reply that parks or refuses the request blocks the operation.
pub open spec fn blocking_reply(reply: CriomeReply) -> bool {
    reply is AuthorizationPending || reply is AuthorizationDenied || reply is AuthorizationExpired
        || reply is AuthorizationUnavailable
}

/// How a blocking reply describes itself.
pub open spec fn reply_description(reply: CriomeReply) -> Seq<char> {
    match reply {
        CriomeReply::AuthorizationGranted { description, .. } => description@,
        CriomeReply::AuthorizationPending { description, .. } => description@,
        CriomeReply::AuthorizationDenied(description) => description@,
        CriomeReply::AuthorizationExpired(description) => description@,
        CriomeReply::AuthorizationUnavailable(description) => description@,
        CriomeReply::AuthorizationObservationSnapshot(_) => Seq::empty(),
        CriomeReply::Other(description) => description@,
    }
}

impl SpiritOperationAuthorizer {
    pub closed spec fn spec_socket(&self) -> Option<Seq<char>> {
        match self.socket {
            Some(s) => Some(s@),
            None => None,
        }
    }

    pub closed spec fn spec_process_key(&self) -> Seq<char> {
        self.process_key@
    }

    /// An authorizer with no criome configured, under this process's key.
    pub fn new() -> (r: Self)
        ensures
            r.spec_socket() is None,
            r.spec_process_key() == "spirit-process-main"@,
    {
        proof {
            reveal_strlit("spirit-process-main");
        }
        SpiritOperationAuthorizer { socket: None, process_key: "spirit-process-main".to_owned() }
    }

    pub fn configure_socket(&mut self, socket: String)
        ensures
            final(self).spec_socket() == Some(socket@),
            final(self).spec_process_key() == old(self).spec_process_key(),
    {
        self.socket = Some(socket);
    }

    pub fn clear(&mut self)
        ensures
            final(self).spec_socket() is None,
            final(self).spec_process_key() == old(self).spec_process_key(),
    {
        self.socket = None;
    }

    pub fn process_key(&self) -> (r: String)
        ensures
            r@ == self.spec_process_key(),
    {
        self.process_key.clone()
    }

    /// Whether a criome socket is configured.
    pub fn is_configured(&self) -> (r: bool)
        ensures
            r == self.spec_socket() is Some,
    {
        self.socket.is_some()
    }

    /// The nonce that makes an authorization request unique: the time of
    /// the request in nanoseconds.
    pub fn replay_nonce(&self, nanos: u64) -> (r: String)
        ensures
            r@ == "spirit-operation-"@ + crate::store::decimal_text(nanos as nat),
    {
        let mut out = "spirit-operation-".to_owned();
        proof {
            reveal_strlit("spirit-operation-");
        }
        out.append(crate::store::decimal_of(nanos).as_str());
        out
    }

    /// The signal-call authorization an operation is put to criome with.
    pub fn signal_call_authorization(
        &self,
        context: SpiritAuthorizationContext,
        request_digest: Vec<u8>,
        replay_nonce: String,
    ) -> (r: SignalCallAuthorization)
        ensures
            r.request_digest == request_digest,
            r.contract_name@ == "signal-spirit"@,
            r.operation_head@ == context.operation_name@,
            r.authorization_scope@ == "spirit-operation"@,
            r.host_identity@ == "spirit"@,
            r.replay_nonce == replay_nonce,
            r.context == context,
    {
        proof {
            reveal_strlit("signal-spirit");
            reveal_strlit("spirit-operation");
            reveal_strlit("spirit");
        }
        let operation_head = context.operation_name.clone();
        SignalCallAuthorization {
            request_digest,
            contract_name: "signal-spirit".to_owned(),
            operation_head,
            authorization_scope: "spirit-operation".to_owned(),
            host_identity: "spirit".to_owned(),
            replay_nonce,
            context,
        }
    }

    /// An observing round-trip accepts any verdict, but a grant must be
    /// for this request and the reply must be an authorization reply.
    pub fn validate_observed_reply(&self, reply: &CriomeReply, request_digest: &Vec<u8>) -> (r: Result<
        (),
        CriomeGateError,
    >)
        ensures
            match *reply {
                CriomeReply::AuthorizationGranted { authorized_object_digest, description } => if authorized_object_digest@
                    == request_digest@ {
                    r is Ok
                } else {
                    r matches Err(CriomeGateError::UnexpectedReply(text)) && text@ == description@
                },
                CriomeReply::AuthorizationObservationSnapshot(_) => r matches Err(
                    CriomeGateError::UnexpectedReply(text),
                ) && text@ == Seq::<char>::empty(),
                CriomeReply::Other(description) => r matches Err(CriomeGateError::UnexpectedReply(text))
                    && text@ == description@,
                _ => r is Ok,
            },
    {
        match reply {
            CriomeReply::AuthorizationGranted { authorized_object_digest, description } => {
                if crate::apply_ingress::bytes_equal(authorized_object_digest, request_digest) {
                    Ok(())
                } else {
                    Err(CriomeGateError::UnexpectedReply(description.clone()))
                }
            },
            CriomeReply::AuthorizationObservationSnapshot(_) => Err(CriomeGateError::UnexpectedReply(String::new())),
            CriomeReply::Other(description) => Err(CriomeGateError::UnexpectedReply(description.clone())),
            _ => Ok(()),
        }
    }

    /// The authorization a reply gives. Observing allows once the reply
    /// checks out. Gating allows a grant for this request; a parked,
    /// denied, expired or unavailable authorization blocks, quoting the
    /// reply; anything else is an unexpected reply.
    pub fn authorization_from_reply(
        &self,
        reply: &CriomeReply,
        request_digest: &Vec<u8>,
        mode: crate::engine::AuthorizationMode,
    ) -> (r: Result<SpiritOperationAuthorization, CriomeGateError>)
        ensures
            match mode {
                crate::engine::AuthorizationMode::Observing => match *reply {
                    CriomeReply::AuthorizationGranted { authorized_object_digest, .. } => (r is Ok
                        <==> authorized_object_digest@ == request_digest@) && (r is Ok ==> r->Ok_0
                        is Allowed),
                    CriomeReply::AuthorizationObservationSnapshot(_) => r is Err,
                    CriomeReply::Other(_) => r is Err,
                    _ => r matches Ok(a) && a is Allowed,
                },
                crate::engine::AuthorizationMode::Gating => match *reply {
                    CriomeReply::AuthorizationGranted { authorized_object_digest, description } => if authorized_object_digest@
                        == request_digest@ {
                        r matches Ok(a) && a is Allowed
                    } else {
                        r matches Err(CriomeGateError::UnexpectedReply(text)) && text@ == description@
                    },
                    CriomeReply::AuthorizationObservationSnapshot(_) => r is Err,
                    CriomeReply::Other(description) => r matches Err(CriomeGateError::UnexpectedReply(text))
                        && text@ == description@,
                    _ => r matches Ok(SpiritOperationAuthorization::Blocked(text)) && text@
                        == reply_description(*reply),
                },
            },
    {
        match mode {
            crate::engine::AuthorizationMode::Observing => {
                self.validate_observed_reply(reply, request_digest)?;
                Ok(SpiritOperationAuthorization::Allowed)
            },
            crate::engine::AuthorizationMode::Gating => match reply {
                CriomeReply::AuthorizationGranted { authorized_object_digest, description } => {
                    if crate::apply_ingress::bytes_equal(authorized_object_digest, request_digest) {
                        Ok(SpiritOperationAuthorization::Allowed)
                    } else {
                        Err(CriomeGateError::UnexpectedReply(description.clone()))
                    }
                },
                CriomeReply::AuthorizationPending { description, .. } => Ok(
                    SpiritOperationAuthorization::Blocked(description.clone()),
                ),
                CriomeReply::AuthorizationDenied(description) => Ok(SpiritOperationAuthorization::Blocked(description.clone())),
                CriomeReply::AuthorizationExpired(description) => Ok(SpiritOperationAuthorization::Blocked(description.clone())),
                CriomeReply::AuthorizationUnavailable(description) => Ok(
                    SpiritOperationAuthorization::Blocked(description.clone()),
                ),
                CriomeReply::AuthorizationObservationSnapshot(_) => Err(CriomeGateError::UnexpectedReply(String::new())),
                CriomeReply::Other(description) => Err(CriomeGateError::UnexpectedReply(description.clone())),
            },
        }
    }

    /// What the first round-trip leads to. With no criome configured the
    /// operation is allowed outright; when criome could not be reached it
    /// is blocked; a gating request criome parked is watched; otherwise
    /// the reply decides.
    pub fn authorization_step(
        &self,
        reply: Option<CriomeReply>,
        request_digest: &Vec<u8>,
        mode: crate::engine::AuthorizationMode,
    ) -> (r: AuthorizationStep)
        ensures
            self.spec_socket() is None ==> (r matches AuthorizationStep::Decided(Ok(a)) && a is Allowed),
            self.spec_socket() is Some ==> match reply {
                None => r matches AuthorizationStep::Decided(Ok(SpiritOperationAuthorization::Blocked(text)))
                    && text@ == "criome operation authorization unreachable"@,
                Some(CriomeReply::AuthorizationPending { request_slot, .. }) => mode
                    == crate::engine::AuthorizationMode::Gating ==> (r matches AuthorizationStep::AwaitPending(
                    slot,
                ) && slot == request_slot),
                Some(_) => r is Decided,
            },
    {
        if self.socket.is_none() {
            return AuthorizationStep::Decided(Ok(SpiritOperationAuthorization::Allowed));
        }
        match reply {
            None => {
                proof {
                    reveal_strlit("criome operation authorization unreachable");
                }
                AuthorizationStep::Decided(
                    Ok(SpiritOperationAuthorization::Blocked("criome operation authorization unreachable".to_owned())),
                )
            },
            Some(reply) => {
                if mode == crate::engine::AuthorizationMode::Gating {
                    if let CriomeReply::AuthorizationPending { request_slot, .. } = reply {
                        return AuthorizationStep::AwaitPending(request_slot);
                    }
                }
                AuthorizationStep::Decided(self.authorization_from_reply(&reply, request_digest, mode))
            },
        }
    }

    /// What a parked request's state shows: a grant for this request
    /// allows, a denial, expiry or unavailability blocks, a request still
    /// in flight waits; a state for another request, or a grant for
    /// another digest, is unexpected.
    pub fn pending_authorization_from_state(&self, state: &AuthorizationStateRecord, request_digest: &Vec<u8>) -> (r:
        Result<PendingAuthorizationObservation, CriomeGateError>)
        ensures
            state.request_digest@ != request_digest@ ==> (r matches Err(CriomeGateError::UnexpectedReply(text))
                && text@ == state.description@),
            state.request_digest@ == request_digest@ ==> match state.status {
                AuthorizationStatus::Granted => match state.grant_digest {
                    Some(grant) => if grant@ == request_digest@ {
                        r matches Ok(o) && o is Allowed
                    } else {
                        r matches Err(CriomeGateError::UnexpectedReply(text)) && text@ == state.description@
                    },
                    None => r matches Err(CriomeGateError::UnexpectedReply(text)) && text@ == state.description@,
                },
                AuthorizationStatus::Denied => r matches Ok(PendingAuthorizationObservation::Blocked(text))
                    && text@ == "criome operation authorization denied: "@ + state.denial@,
                AuthorizationStatus::Expired => r matches Ok(PendingAuthorizationObservation::Blocked(text))
                    && text@ == "criome operation authorization expired"@,
                AuthorizationStatus::Unavailable => r matches Ok(PendingAuthorizationObservation::Blocked(text))
                    && text@ == "criome operation authorization unavailable"@,
                _ => r matches Ok(o) && o is Waiting,
            },
    {
        if !crate::apply_ingress::bytes_equal(&state.request_digest, request_digest) {
            return Err(CriomeGateError::UnexpectedReply(state.description.clone()));
        }
        match state.status {
            AuthorizationStatus::Granted => match &state.grant_digest {
                Some(grant) => {
                    if crate::apply_ingress::bytes_equal(grant, request_digest) {
                        Ok(PendingAuthorizationObservation::Allowed)
                    } else {
                        Err(CriomeGateError::UnexpectedReply(state.description.clone()))
                    }
                },
                None => Err(CriomeGateError::UnexpectedReply(state.description.clone())),
            },
            AuthorizationStatus::Denied => {
                let mut text = "criome operation authorization denied: ".to_owned();
                proof {
                    reveal_strlit("criome operation authorization denied: ");
                }
                text.append(state.denial.as_str());
                Ok(PendingAuthorizationObservation::Blocked(text))
            },
            AuthorizationStatus::Expired => {
                proof {
                    reveal_strlit("criome operation authorization expired");
                }
                Ok(PendingAuthorizationObservation::Blocked("criome operation authorization expired".to_owned()))
            },
            AuthorizationStatus::Unavailable => {
                proof {
                    reveal_strlit("criome operation authorization unavailable");
                }
                Ok(PendingAuthorizationObservation::Blocked("criome operation authorization unavailable".to_owned()))
            },
            AuthorizationStatus::Pending | AuthorizationStatus::Signing | AuthorizationStatus::Parked => Ok(
                PendingAuthorizationObservation::Waiting,
            ),
        }
    }

    /// What one observation of a parked request showed, from criome's
    /// reply (`None` when criome could not be reached): the first state of
    /// the snapshot decides, an empty snapshot waits.
    pub fn observe_pending_authorization(&self, reply: Option<CriomeReply>, request_digest: &Vec<u8>) -> (r: Result<
        PendingAuthorizationObservation,
        CriomeGateError,
    >)
        ensures
            match reply {
                None => r matches Ok(PendingAuthorizationObservation::Blocked(text))
                    && text@ == "criome operation authorization unreachable while waiting"@,
                Some(CriomeReply::AuthorizationObservationSnapshot(states)) => states.len() == 0 ==> (r matches Ok(
                    o,
                ) && o is Waiting),
                Some(other) => r matches Err(CriomeGateError::UnexpectedReply(text)) && text@ == reply_description(
                    other,
                ),
            },
    {
        match reply {
            None => {
                proof {
                    reveal_strlit("criome operation authorization unreachable while waiting");
                }
                Ok(PendingAuthorizationObservation::Blocked("criome operation authorization unreachable while waiting".to_owned()))
            },
            Some(CriomeReply::AuthorizationObservationSnapshot(states)) => {
                if states.len() == 0 {
                    Ok(PendingAuthorizationObservation::Waiting)
                } else {
                    self.pending_authorization_from_state(&states[0], request_digest)
                }
            },
            Some(CriomeReply::AuthorizationGranted { description, .. }) => Err(CriomeGateError::UnexpectedReply(description)),
            Some(CriomeReply::AuthorizationPending { description, .. }) => Err(CriomeGateError::UnexpectedReply(description)),
            Some(CriomeReply::AuthorizationDenied(description)) => Err(CriomeGateError::UnexpectedReply(description)),
            Some(CriomeReply::AuthorizationExpired(description)) => Err(CriomeGateError::UnexpectedReply(description)),
            Some(CriomeReply::AuthorizationUnavailable(description)) => Err(CriomeGateError::UnexpectedReply(description)),
            Some(CriomeReply::Other(description)) => Err(CriomeGateError::UnexpectedReply(description)),
        }
    }

    /// One turn of watching a parked request: past the deadline it is
    /// blocked as timed out; otherwise an observation that settled gives
    /// the answer and one still waiting gives none.
    pub fn wait_for_pending_authorization(
        &self,
        deadline_passed: bool,
        request_slot: &String,
        observation: Result<PendingAuthorizationObservation, CriomeGateError>,
    ) -> (r: Option<Result<SpiritOperationAuthorization, CriomeGateError>>)
        ensures
            deadline_passed ==> (r matches Some(Ok(SpiritOperationAuthorization::Blocked(text))) && text@
                == "criome operation authorization timed out waiting for parked request "@ + request_slot@),
            !deadline_passed ==> match observation {
                Ok(PendingAuthorizationObservation::Waiting) => r is None,
                Ok(PendingAuthorizationObservation::Allowed) => r matches Some(Ok(a)) && a is Allowed,
                Ok(PendingAuthorizationObservation::Blocked(reason)) => r matches Some(
                    Ok(SpiritOperationAuthorization::Blocked(text)),
                ) && text == reason,
                Err(_) => r matches Some(Err(_)),
            },
    {
        if deadline_passed {
            let mut text = "criome operation authorization timed out waiting for parked request ".to_owned();
            proof {
                reveal_strlit("criome operation authorization timed out waiting for parked request ");
            }
            text.append(request_slot.as_str());
            return Some(Ok(SpiritOperationAuthorization::Blocked(text)));
        }
        match observation {
            Ok(PendingAuthorizationObservation::Waiting) => None,
            Ok(PendingAuthorizationObservation::Allowed) => Some(Ok(SpiritOperationAuthorization::Allowed)),
            Ok(PendingAuthorizationObservation::Blocked(reason)) => Some(Ok(SpiritOperationAuthorization::Blocked(reason))),
            Err(error) => Some(Err(error)),
        }
    }
}

} // verus!
