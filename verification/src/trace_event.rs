//! Trace events: the lifecycle and decision marks of the three planes.

use vstd::prelude::*;

use crate::ledger::{signal_object_name_text, SignalObjectName};

verus! {

/// The Nexus plane's marks.
#[derive(Clone, Copy, Debug, PartialEq, Eq, Structural)]
pub enum NexusObjectName {
    Started,
    Stopped,
    Entered,
    Decided,
}

/// The SEMA plane's marks.
#[derive(Clone, Copy, Debug, PartialEq, Eq, Structural)]
pub enum SemaObjectName {
    Started,
    Stopped,
    WriteApplied,
}

/// A mark of one of the three planes.
#[derive(Clone, Copy, Debug, PartialEq, Eq, Structural)]
pub enum ObjectName {
    Signal(SignalObjectName),
    Nexus(NexusObjectName),
    Sema(SemaObjectName),
}

/// The trace name of each Nexus mark.
pub open spec fn nexus_object_name_text(name: NexusObjectName) -> Seq<char> {
    match name {
        NexusObjectName::Started => "NexusStarted"@,
        NexusObjectName::Stopped => "NexusStopped"@,
        NexusObjectName::Entered => "NexusEntered"@,
        NexusObjectName::Decided => "NexusDecided"@,
    }
}

/// The trace name of each SEMA mark.
pub open spec fn sema_object_name_text(name: SemaObjectName) -> Seq<char> {
    match name {
        SemaObjectName::Started => "SemaStarted"@,
        SemaObjectName::Stopped => "SemaStopped"@,
        SemaObjectName::WriteApplied => "SemaWriteApplied"@,
    }
}

/// The trace name of any mark: the name its plane gives it.
pub open spec fn object_name_text(name: ObjectName) -> Seq<char> {
    match name {
        ObjectName::Signal(n) => signal_object_name_text(n)@,
        ObjectName::Nexus(n) => nexus_object_name_text(n),
        ObjectName::Sema(n) => sema_object_name_text(n),
    }
}

impl NexusObjectName {
    pub fn name(self) -> (r: &'static str)
        ensures
            r@ == nexus_object_name_text(self),
    {
        proof {
            reveal_strlit("NexusStarted");
            reveal_strlit("NexusStopped");
            reveal_strlit("NexusEntered");
            reveal_strlit("NexusDecided");
        }
        match self {
            NexusObjectName::Started => "NexusStarted",
            NexusObjectName::Stopped => "NexusStopped",
            NexusObjectName::Entered => "NexusEntered",
            NexusObjectName::Decided => "NexusDecided",
        }
    }
}

impl SemaObjectName {
    pub fn name(self) -> (r: &'static str)
        ensures
            r@ == sema_object_name_text(self),
    {
        proof {
            reveal_strlit("SemaStarted");
            reveal_strlit("SemaStopped");
            reveal_strlit("SemaWriteApplied");
        }
        match self {
            SemaObjectName::Started => "SemaStarted",
            SemaObjectName::Stopped => "SemaStopped",
            SemaObjectName::WriteApplied => "SemaWriteApplied",
        }
    }
}

impl ObjectName {
    /// The mark's trace name.
    pub fn name(self) -> (r: &'static str)
        ensures
            r@ == object_name_text(self),
    {
        match self {
            ObjectName::Signal(n) => n.name(),
            ObjectName::Nexus(n) => n.name(),
            ObjectName::Sema(n) => n.name(),
        }
    }
}

/// One trace event: a mark.
#[derive(Clone, Copy, Debug, PartialEq, Eq, Structural)]
pub struct TraceEvent(pub ObjectName);

impl TraceEvent {
    pub fn new(object_name: ObjectName) -> (r: Self)
        ensures
            r.0 == object_name,
    {
        TraceEvent(object_name)
    }

    pub fn object_name(&self) -> (r: ObjectName)
        ensures
            r == self.0,
    {
        self.0
    }

    /// The event's trace name.
    pub fn name(&self) -> (r: &'static str)
        ensures
            r@ == object_name_text(self.0),
    {
        self.0.name()
    }
}

} // verus!
