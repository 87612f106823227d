//! The Signal plane's identities and the mail ledger: every admitted
//! request is logged when it is handed to Nexus (sent) and when its reply
//! comes back (processed).

use vstd::prelude::*;

verus! {

/// The first origin route is one past this base.
pub const ORIGIN_ROUTE_BASE: u64 = 1_000_000;

/// Where a request came in, so its reply can be routed back.
#[derive(Clone, Copy, Debug, PartialEq, Eq, Structural)]
pub struct OriginRoute(pub u64);

/// The identifier the admission gate issues to a request.
#[derive(Clone, Copy, Debug, PartialEq, Eq, Structural)]
pub struct MessageIdentifier(pub u64);

/// The ledger's identifier of one piece of mail.
#[derive(Clone, Copy, Debug, PartialEq, Eq, Structural)]
pub struct MailIdentifier(pub u64);

/// The short header a request's frame carried.
#[derive(Clone, Copy, Debug, PartialEq, Eq, Structural)]
pub struct ShortHeader(pub u64);

impl OriginRoute {
    pub fn new(payload: u64) -> (r: Self)
        ensures
            r.0 == payload,
    {
        OriginRoute(payload)
    }

    pub fn payload(&self) -> (r: u64)
        ensures
            r == self.0,
    {
        self.0
    }
}

impl MessageIdentifier {
    pub fn new(payload: u64) -> (r: Self)
        ensures
            r.0 == payload,
    {
        MessageIdentifier(payload)
    }

    pub fn payload(&self) -> (r: u64)
        ensures
            r == self.0,
    {
        self.0
    }

    pub fn as_integer(&self) -> (r: u64)
        ensures
            r == self.0,
    {
        self.payload()
    }
}

impl MailIdentifier {
    pub fn new(payload: u64) -> (r: Self)
        ensures
            r.0 == payload,
    {
        MailIdentifier(payload)
    }

    pub fn payload(&self) -> (r: u64)
        ensures
            r == self.0,
    {
        self.0
    }
}

impl ShortHeader {
    pub fn new(payload: u64) -> (r: Self)
        ensures
            r.0 == payload,
    {
        ShortHeader(payload)
    }

    pub fn payload(&self) -> (r: u64)
        ensures
            r == self.0,
    {
        self.0
    }
}

/// A piece of mail as it was handed to Nexus.
#[derive(Clone, Copy, Debug, PartialEq, Eq, Structural)]
pub struct SentMail {
    pub mail_identifier: MailIdentifier,
    pub origin_route: OriginRoute,
    pub short_header: ShortHeader,
}

/// A piece of mail whose reply came back.
#[derive(Clone, Copy, Debug, PartialEq, Eq, Structural)]
pub struct ProcessedMail {
    pub mail_identifier: MailIdentifier,
    pub origin_route: OriginRoute,
}

/// One ledger line.
#[derive(Clone, Copy, Debug, PartialEq, Eq, Structural)]
pub enum MailLedgerEvent {
    Sent(SentMail),
    Processed(ProcessedMail),
}

impl MailLedgerEvent {
    pub fn sent(payload: SentMail) -> (r: Self)
        ensures
            r == MailLedgerEvent::Sent(payload),
    {
        MailLedgerEvent::Sent(payload)
    }

    pub fn processed(payload: ProcessedMail) -> (r: Self)
        ensures
            r == MailLedgerEvent::Processed(payload),
    {
        MailLedgerEvent::Processed(payload)
    }

    pub fn is_sent(&self) -> (r: bool)
        ensures
            r == (*self is Sent),
    {
        match self {
            MailLedgerEvent::Sent(_) => true,
            MailLedgerEvent::Processed(_) => false,
        }
    }

    pub fn is_processed(&self) -> (r: bool)
        ensures
            r == (*self is Processed),
    {
        match self {
            MailLedgerEvent::Sent(_) => false,
            MailLedgerEvent::Processed(_) => true,
        }
    }
}

/// The Signal-to-Nexus handoff of one admitted request.
#[derive(Clone, Copy, Debug, PartialEq, Eq, Structural)]
pub struct MessageSent {
    pub identifier: MessageIdentifier,
    pub origin_route: OriginRoute,
    pub short_header: u64,
}

/// What the ledger records of a handoff.
pub open spec fn sent_event(sent: MessageSent) -> MailLedgerEvent {
    MailLedgerEvent::Sent(
        SentMail {
            mail_identifier: MailIdentifier(sent.identifier.0),
            origin_route: sent.origin_route,
            short_header: ShortHeader(sent.short_header),
        },
    )
}

/// What the ledger records of a reply.
pub open spec fn processed_event(identifier: MessageIdentifier, origin_route: OriginRoute) -> MailLedgerEvent {
    MailLedgerEvent::Processed(
        ProcessedMail { mail_identifier: MailIdentifier(identifier.0), origin_route },
    )
}

/// Receives the handoff of each admitted request.
pub trait MessageSentHook: Sized {
    type Error;

    /// What handing `event` to the hook did: the hook went from `before`
    /// to `after` and answered `r`.
    spec fn sent_handled(before: Self, after: Self, event: MessageSent, r: Result<(), Self::Error>) -> bool;

    fn message_sent(&mut self, event: MessageSent) -> (r: Result<(), Self::Error>)
        ensures
            Self::sent_handled(*old(self), *final(self), event, r),
    ;
}

/// Receives each request's reply.
pub trait MessageProcessedHook<Root>: Sized {
    type Error;

    /// What handing `event` to the hook did: the hook went from `before`
    /// to `after` and answered `r`.
    spec fn processed_handled(
        before: Self,
        after: Self,
        event: MessageProcessed<Root>,
        r: Result<(), Self::Error>,
    ) -> bool;

    fn message_processed(&mut self, event: MessageProcessed<Root>) -> (r: Result<(), Self::Error>)
        ensures
            Self::processed_handled(*old(self), *final(self), event, r),
    ;
}

impl MessageSent {
    pub fn new(identifier: MessageIdentifier, origin_route: OriginRoute, short_header: u64) -> (r:
        Self)
        ensures
            r.identifier == identifier,
            r.origin_route == origin_route,
            r.short_header == short_header,
    {
        MessageSent { identifier, origin_route, short_header }
    }

    pub fn origin_route(&self) -> (r: OriginRoute)
        ensures
            r == self.origin_route,
    {
        self.origin_route
    }

    /// Hand the event to a hook.
    pub fn push_to<Hook: MessageSentHook>(self, hook: &mut Hook) -> (r: Result<(), Hook::Error>)
        ensures
            Hook::sent_handled(*old(hook), *final(hook), self, r),
    {
        hook.message_sent(self)
    }

    /// The ledger line of this handoff.
    pub fn into_mail_ledger_event(self) -> (r: MailLedgerEvent)
        ensures
            r == sent_event(self),
    {
        MailLedgerEvent::sent(
            SentMail {
                mail_identifier: MailIdentifier::new(self.identifier.as_integer()),
                origin_route: self.origin_route(),
                short_header: ShortHeader::new(self.short_header),
            },
        )
    }
}

/// A request's reply, with the identity it was admitted under.
#[derive(Debug)]
pub struct MessageProcessed<Root> {
    pub identifier: MessageIdentifier,
    pub origin_route: OriginRoute,
    pub root: Root,
}

impl<Root> MessageProcessed<Root> {
    pub fn new(identifier: MessageIdentifier, origin_route: OriginRoute, root: Root) -> (r: Self)
        ensures
            r.identifier == identifier,
            r.origin_route == origin_route,
            r.root == root,
    {
        MessageProcessed { identifier, origin_route, root }
    }

    pub fn identifier(&self) -> (r: MessageIdentifier)
        ensures
            r == self.identifier,
    {
        self.identifier
    }

    pub fn origin_route(&self) -> (r: OriginRoute)
        ensures
            r == self.origin_route,
    {
        self.origin_route
    }

    pub fn root(&self) -> (r: &Root)
        ensures
            *r == self.root,
    {
        &self.root
    }

    /// Hand the event to a hook.
    pub fn push_to<Hook: MessageProcessedHook<Root>>(self, hook: &mut Hook) -> (r: Result<
        (),
        Hook::Error,
    >)
        ensures
            Hook::processed_handled(*old(hook), *final(hook), self, r),
    {
        hook.message_processed(self)
    }

    /// The ledger line of this reply.
    pub fn processed_mail_event(&self) -> (r: MailLedgerEvent)
        ensures
            r == processed_event(self.identifier, self.origin_route),
    {
        MailLedgerEvent::processed(
            ProcessedMail {
                mail_identifier: MailIdentifier::new(self.identifier().as_integer()),
                origin_route: self.origin_route(),
            },
        )
    }
}

/// A reply routed back to where its request came in.
#[derive(Debug)]
pub struct SignalResponse<Root> {
    pub origin_route: OriginRoute,
    pub root: Root,
}

impl<Root> SignalResponse<Root> {
    pub fn new(origin_route: OriginRoute, root: Root) -> (r: Self)
        ensures
            r.origin_route == origin_route,
            r.root == root,
    {
        SignalResponse { origin_route, root }
    }

    pub fn origin_route(&self) -> (r: OriginRoute)
        ensures
            r == self.origin_route,
    {
        self.origin_route
    }

    pub fn root(&self) -> (r: &Root)
        ensures
            *r == self.root,
    {
        &self.root
    }

    pub fn into_root(self) -> (r: Root)
        ensures
            r == self.root,
    {
        self.root
    }
}

/// The number of handoffs among the lines.
pub open spec fn count_sent(events: Seq<MailLedgerEvent>) -> nat
    decreases events.len(),
{
    if events.len() == 0 {
        0
    } else {
        count_sent(events.drop_last()) + if events.last() is Sent {
            1nat
        } else {
            0nat
        }
    }
}

/// The number of replies among the lines.
pub open spec fn count_processed(events: Seq<MailLedgerEvent>) -> nat
    decreases events.len(),
{
    if events.len() == 0 {
        0
    } else {
        count_processed(events.drop_last()) + if events.last() is Processed {
            1nat
        } else {
            0nat
        }
    }
}

/// Every line is either a handoff or a reply.
pub proof fn lemma_ledger_counts_partition(events: Seq<MailLedgerEvent>)
    ensures
        count_sent(events) + count_processed(events) == events.len(),
    decreases events.len(),
{
    if events.len() > 0 {
        lemma_ledger_counts_partition(events.drop_last());
    }
}

/// The mail ledger: every handoff and reply, in order.
#[derive(Debug)]
pub struct MailLedger {
    pub events: Vec<MailLedgerEvent>,
}

impl MailLedger {
    /// An empty ledger.
    pub fn new() -> (r: Self)
        ensures
            r.events@ == Seq::<MailLedgerEvent>::empty(),
    {
        MailLedger { events: Vec::new() }
    }

    /// A hook that appends to this ledger.
    pub fn hook(&mut self) -> (r: MailLedgerHook<'_>)
        ensures
            *r.ledger == *old(self),
            *final(self) == *final(r.ledger),
    {
        MailLedgerHook { ledger: self }
    }

    /// All lines, oldest first.
    pub fn events(&self) -> (r: Vec<MailLedgerEvent>)
        ensures
            r@ == self.events@,
    {
        let mut out: Vec<MailLedgerEvent> = Vec::new();
        let mut i: usize = 0;
        while i < self.events.len()
            invariant
                i <= self.events.len(),
                out@ == self.events@.subrange(0, i as int),
            decreases self.events.len() - i,
        {
            out.push(self.events[i]);
            i = i + 1;
            assert(out@ =~= self.events@.subrange(0, i as int));
        }
        assert(out@ =~= self.events@);
        out
    }

    pub fn sent_message_count(&self) -> (r: usize)
        ensures
            r == count_sent(self.events@),
    {
        let mut count: usize = 0;
        let mut i: usize = 0;
        while i < self.events.len()
            invariant
                i <= self.events.len(),
                count == count_sent(self.events@.subrange(0, i as int)),
                count <= i,
            decreases self.events.len() - i,
        {
            assert(self.events@.subrange(0, i + 1).drop_last() =~= self.events@.subrange(
                0,
                i as int,
            ));
            if self.events[i].is_sent() {
                count = count + 1;
            }
            i = i + 1;
        }
        assert(self.events@.subrange(0, i as int) =~= self.events@);
        count
    }

    pub fn processed_message_count(&self) -> (r: usize)
        ensures
            r == count_processed(self.events@),
    {
        let mut count: usize = 0;
        let mut i: usize = 0;
        while i < self.events.len()
            invariant
                i <= self.events.len(),
                count == count_processed(self.events@.subrange(0, i as int)),
                count <= i,
            decreases self.events.len() - i,
        {
            assert(self.events@.subrange(0, i + 1).drop_last() =~= self.events@.subrange(
                0,
                i as int,
            ));
            if self.events[i].is_processed() {
                count = count + 1;
            }
            i = i + 1;
        }
        assert(self.events@.subrange(0, i as int) =~= self.events@);
        count
    }
}

/// Appends handoffs and replies to a ledger.
#[derive(Debug)]
pub struct MailLedgerHook<'a> {
    pub ledger: &'a mut MailLedger,
}

impl<'a> MailLedgerHook<'a> {
    /// Append the line of a handoff.
    pub fn record_sent(&mut self, event: MessageSent)
        ensures
            final(self).ledger.events@ == old(self).ledger.events@.push(sent_event(event)),
            *final(final(self).ledger) == *final(old(self).ledger),
    {
        self.ledger.events.push(event.into_mail_ledger_event());
    }

    /// Append the line of a reply.
    pub fn record_processed<Root>(&mut self, event: &MessageProcessed<Root>)
        ensures
            final(self).ledger.events@ == old(self).ledger.events@.push(
                processed_event(event.identifier, event.origin_route),
            ),
            *final(final(self).ledger) == *final(old(self).ledger),
    {
        self.ledger.events.push(event.processed_mail_event());
    }
}

impl<'a> MessageSentHook for MailLedgerHook<'a> {
    type Error = ();

    /// The hook accepts every handoff and appends its ledger line.
    open spec fn sent_handled(before: Self, after: Self, event: MessageSent, r: Result<(), ()>) -> bool {
        &&& r is Ok
        &&& after.ledger.events@ == before.ledger.events@.push(sent_event(event))
    }

    fn message_sent(&mut self, event: MessageSent) -> (r: Result<(), ()>)
        ensures
            *final(final(self).ledger) == *final(old(self).ledger),
    {
        self.record_sent(event);
        Ok(())
    }
}

impl<'a, Root> MessageProcessedHook<Root> for MailLedgerHook<'a> {
    type Error = ();

    /// The hook accepts every reply and appends its ledger line.
    open spec fn processed_handled(
        before: Self,
        after: Self,
        event: MessageProcessed<Root>,
        r: Result<(), ()>,
    ) -> bool {
        &&& r is Ok
        &&& after.ledger.events@ == before.ledger.events@.push(
            processed_event(event.identifier, event.origin_route),
        )
    }

    fn message_processed(&mut self, event: MessageProcessed<Root>) -> (r: Result<(), ()>)
        ensures
            *final(final(self).ledger) == *final(old(self).ledger),
    {
        self.record_processed(&event);
        Ok(())
    }
}

/// The Signal plane's lifecycle and decision marks, as trace names.
#[derive(Clone, Copy, Debug, PartialEq, Eq, Structural)]
pub enum SignalObjectName {
    Started,
    Stopped,
    Admitted,
    Rejected,
    Triaged,
    Replied,
}

impl SignalObjectName {
    pub fn name(self) -> (r: &'static str)
        ensures
            r@ == signal_object_name_text(self)@,
    {
        match self {
            SignalObjectName::Started => "SignalStarted",
            SignalObjectName::Stopped => "SignalStopped",
            SignalObjectName::Admitted => "SignalAdmitted",
            SignalObjectName::Rejected => "SignalRejected",
            SignalObjectName::Triaged => "SignalTriaged",
            SignalObjectName::Replied => "SignalReplied",
        }
    }
}

/// The trace name of each Signal mark.
pub open spec fn signal_object_name_text(name: SignalObjectName) -> &'static str {
    match name {
        SignalObjectName::Started => "SignalStarted",
        SignalObjectName::Stopped => "SignalStopped",
        SignalObjectName::Admitted => "SignalAdmitted",
        SignalObjectName::Rejected => "SignalRejected",
        SignalObjectName::Triaged => "SignalTriaged",
        SignalObjectName::Replied => "SignalReplied",
    }
}

/// The admission gate's identity counters: each admitted or rejected
/// request takes the next origin route and the next message identifier.
#[derive(Debug)]
pub struct SignalAdmission {
    pub next_message_identifier: u64,
    pub next_origin_route: u64,
}

impl SignalAdmission {
    /// Counters that have issued nothing yet.
    pub fn new() -> (r: Self)
        ensures
            r.next_message_identifier == 0,
            r.next_origin_route == 0,
    {
        SignalAdmission { next_message_identifier: 0, next_origin_route: 0 }
    }

    /// The next message identifier: one past the last issued.
    pub fn issue_message_identifier(&mut self) -> (r: MessageIdentifier)
        requires
            old(self).next_message_identifier < u64::MAX,
        ensures
            final(self).next_message_identifier == old(self).next_message_identifier + 1,
            final(self).next_origin_route == old(self).next_origin_route,
            r.0 == final(self).next_message_identifier,
    {
        self.next_message_identifier = self.next_message_identifier + 1;
        MessageIdentifier::new(self.next_message_identifier)
    }

    /// The next origin route: the base plus the count of routes issued.
    pub fn issue_origin_route(&mut self) -> (r: OriginRoute)
        requires
            old(self).next_origin_route < u64::MAX - ORIGIN_ROUTE_BASE,
        ensures
            final(self).next_origin_route == old(self).next_origin_route + 1,
            final(self).next_message_identifier == old(self).next_message_identifier,
            r.0 == ORIGIN_ROUTE_BASE + final(self).next_origin_route,
    {
        self.next_origin_route = self.next_origin_route + 1;
        OriginRoute::new(ORIGIN_ROUTE_BASE + self.next_origin_route)
    }
}

} // verus!
