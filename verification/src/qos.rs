//! Network quality of service for real-time audio: sockets are marked with DSCP EF (Expedited
//! Forwarding), so that routers and access points put audio first.
//!
//! Setting up a socket and a Windows QoS flow are sequences of system calls. Here stands what to
//! call next, given how the last call ended.
use vstd::prelude::*;

verus! {

/// The DSCP value of Expedited Forwarding.
pub const DSCP_EF: u32 = 46;

/// DSCP EF as it stands in the TOS byte, whose two lowest bits have another use.
pub const DSCP_EF_TOS: u32 = 0xB8;

/// The kind of address to bind to.
#[derive(Debug, Clone, Copy, PartialEq, Eq, Structural)]
pub enum Domain {
    Ipv4,
    Ipv6,
}

/// The next call of the socket's setup.
#[derive(Debug, Clone, Copy, PartialEq, Eq, Structural)]
pub enum SocketStep {
    /// Create a UDP socket for this kind of address.
    Create(Domain),
    /// Set the TOS byte to this value.
    SetTos(u32),
    /// Allow the address to be used again.
    SetReuseAddress,
    /// Bind the socket to its address.
    Bind,
    /// Mark the traffic with qWave. On systems without it there is nothing to do.
    MarkFlow,
    /// The socket is ready.
    Ready,
    /// A call that is needed has failed.
    Failed,
}

impl SocketStep {
    /// The first call.
    pub open spec fn first(ipv4: bool) -> SocketStep {
        if ipv4 {
            SocketStep::Create(Domain::Ipv4)
        } else {
            SocketStep::Create(Domain::Ipv6)
        }
    }

    /// The first call of the setup of a socket.
    pub fn start(ipv4: bool) -> (r: SocketStep)
        ensures
            r == SocketStep::first(ipv4),
    {
        if ipv4 {
            SocketStep::Create(Domain::Ipv4)
        } else {
            SocketStep::Create(Domain::Ipv6)
        }
    }

    /// The call that follows this one. Marking may fail; nothing else may.
    pub open spec fn following(self, ok: bool) -> SocketStep {
        match self {
            SocketStep::Create(_) => if ok {
                SocketStep::SetTos(DSCP_EF_TOS)
            } else {
                SocketStep::Failed
            },
            SocketStep::SetTos(_) => SocketStep::SetReuseAddress,
            SocketStep::SetReuseAddress => if ok {
                SocketStep::Bind
            } else {
                SocketStep::Failed
            },
            SocketStep::Bind => if ok {
                SocketStep::MarkFlow
            } else {
                SocketStep::Failed
            },
            SocketStep::MarkFlow => SocketStep::Ready,
            SocketStep::Ready => SocketStep::Ready,
            SocketStep::Failed => SocketStep::Failed,
        }
    }

    /// Decides which call follows this one.
    pub fn next(self, ok: bool) -> (r: SocketStep)
        ensures
            r == self.following(ok),
    {
        match self {
            SocketStep::Create(_) => {
                if ok {
                    SocketStep::SetTos(DSCP_EF_TOS)
                } else {
                    SocketStep::Failed
                }
            },
            SocketStep::SetTos(_) => SocketStep::SetReuseAddress,
            SocketStep::SetReuseAddress => {
                if ok {
                    SocketStep::Bind
                } else {
                    SocketStep::Failed
                }
            },
            SocketStep::Bind => {
                if ok {
                    SocketStep::MarkFlow
                } else {
                    SocketStep::Failed
                }
            },
            SocketStep::MarkFlow => SocketStep::Ready,
            SocketStep::Ready => SocketStep::Ready,
            SocketStep::Failed => SocketStep::Failed,
        }
    }

    /// How many calls there are at most before the setup ends.
    pub open spec fn calls_left(self) -> nat {
        match self {
            SocketStep::Create(_) => 5,
            SocketStep::SetTos(_) => 4,
            SocketStep::SetReuseAddress => 3,
            SocketStep::Bind => 2,
            SocketStep::MarkFlow => 1,
            SocketStep::Ready => 0,
            SocketStep::Failed => 0,
        }
    }

    /// How the setup ends, when it is at this call and every call ends as `succeeds` says.
    pub open spec fn outcome(self, succeeds: spec_fn(SocketStep) -> bool) -> SocketStep
        decreases self.calls_left(),
    {
        if self is Ready || self is Failed {
            self
        } else {
            self.following(succeeds(self)).outcome(succeeds)
        }
    }
}

/// The TOS byte carries the DSCP value in its upper six bits.
pub proof fn tos_byte_carries_expedited_forwarding()
    ensures
        DSCP_EF_TOS == DSCP_EF * 4,
{
}

/// The setup falls back gracefully: a socket is ready exactly when it was created, made reusable
/// and bound, whatever became of the marking.
pub proof fn marking_is_optional(ipv4: bool, succeeds: spec_fn(SocketStep) -> bool)
    ensures
        SocketStep::first(ipv4).outcome(succeeds) == if succeeds(SocketStep::first(ipv4))
            && succeeds(SocketStep::SetReuseAddress) && succeeds(SocketStep::Bind) {
            SocketStep::Ready
        } else {
            SocketStep::Failed
        },
{
    reveal_with_fuel(SocketStep::outcome, 7);
}

/// The next call of the setup of a qWave flow.
#[derive(Debug, Clone, Copy, PartialEq, Eq, Structural)]
pub enum FlowStep {
    /// Create a handle of this version.
    CreateHandle { major: u16, minor: u16 },
    /// Add the socket to a voice flow: with or without a destination that stands for any, and as a
    /// flow that does not adapt or with no such mark.
    AddSocket { any_destination: bool, non_adaptive: bool },
    /// Set the DSCP value of the flow.
    SetDscp(u32),
    /// The flow is set up.
    Done,
    /// There is no handle.
    NoHandle,
    /// The socket could not be added.
    NoFlow,
}

impl FlowStep {
    /// The first call.
    pub open spec fn first() -> FlowStep {
        FlowStep::CreateHandle { major: 1, minor: 0 }
    }

    /// The first call of the setup of a flow.
    pub fn start() -> (r: FlowStep)
        ensures
            r == FlowStep::first(),
    {
        FlowStep::CreateHandle { major: 1, minor: 0 }
    }

    /// The call that follows this one. If the socket cannot be added with a destination that
    /// stands for any, it is tried without one; if the DSCP value cannot be set, the flow is still
    /// a voice flow.
    pub open spec fn following(self, ok: bool) -> FlowStep {
        match self {
            FlowStep::CreateHandle { .. } => if ok {
                FlowStep::AddSocket { any_destination: true, non_adaptive: true }
            } else {
                FlowStep::NoHandle
            },
            FlowStep::AddSocket { any_destination, .. } => if ok {
                FlowStep::SetDscp(DSCP_EF)
            } else if any_destination {
                FlowStep::AddSocket { any_destination: false, non_adaptive: false }
            } else {
                FlowStep::NoFlow
            },
            FlowStep::SetDscp(_) => FlowStep::Done,
            FlowStep::Done => FlowStep::Done,
            FlowStep::NoHandle => FlowStep::NoHandle,
            FlowStep::NoFlow => FlowStep::NoFlow,
        }
    }

    /// Decides which call follows this one.
    pub fn next(self, ok: bool) -> (r: FlowStep)
        ensures
            r == self.following(ok),
    {
        match self {
            FlowStep::CreateHandle { .. } => {
                if ok {
                    FlowStep::AddSocket { any_destination: true, non_adaptive: true }
                } else {
                    FlowStep::NoHandle
                }
            },
            FlowStep::AddSocket { any_destination, .. } => {
                if ok {
                    FlowStep::SetDscp(DSCP_EF)
                } else if any_destination {
                    FlowStep::AddSocket { any_destination: false, non_adaptive: false }
                } else {
                    FlowStep::NoFlow
                }
            },
            FlowStep::SetDscp(_) => FlowStep::Done,
            FlowStep::Done => FlowStep::Done,
            FlowStep::NoHandle => FlowStep::NoHandle,
            FlowStep::NoFlow => FlowStep::NoFlow,
        }
    }

    /// How many calls there are at most before the setup ends.
    pub open spec fn calls_left(self) -> nat {
        match self {
            FlowStep::CreateHandle { .. } => 4,
            FlowStep::AddSocket { any_destination, .. } => if any_destination {
                3
            } else {
                2
            },
            FlowStep::SetDscp(_) => 1,
            _ => 0,
        }
    }

    /// How the setup ends, when it is at this call and every call ends as `succeeds` says.
    pub open spec fn outcome(self, succeeds: spec_fn(FlowStep) -> bool) -> FlowStep
        decreases self.calls_left(),
    {
        if self is Done || self is NoHandle || self is NoFlow {
            self
        } else {
            self.following(succeeds(self)).outcome(succeeds)
        }
    }
}

/// The flow is set up exactly when there is a handle and the socket can be added in one of the two
/// ways; the DSCP value decides nothing.
pub proof fn flow_needs_one_way_to_add_the_socket(succeeds: spec_fn(FlowStep) -> bool)
    ensures
        FlowStep::first().outcome(succeeds) == if !succeeds(FlowStep::first()) {
            FlowStep::NoHandle
        } else if succeeds(FlowStep::AddSocket { any_destination: true, non_adaptive: true })
            || succeeds(FlowStep::AddSocket { any_destination: false, non_adaptive: false }) {
            FlowStep::Done
        } else {
            FlowStep::NoFlow
        },
{
    reveal_with_fuel(FlowStep::outcome, 6);
}

/// The calls for a socket are made in one order: create it for the kind of address, set its TOS
/// byte, make its address reusable, bind it, and mark its flow.
pub proof fn socket_calls_have_their_order(ipv4: bool, domain: Domain, ok: bool)
    ensures
        SocketStep::first(ipv4) == SocketStep::Create(
            if ipv4 {
                Domain::Ipv4
            } else {
                Domain::Ipv6
            },
        ),
        SocketStep::Create(domain).following(true) == SocketStep::SetTos(184),
        SocketStep::SetTos(184).following(ok) == SocketStep::SetReuseAddress,
        SocketStep::SetReuseAddress.following(true) == SocketStep::Bind,
        SocketStep::Bind.following(true) == SocketStep::MarkFlow,
        SocketStep::MarkFlow.following(ok) == SocketStep::Ready,
        SocketStep::Create(domain).following(false) == SocketStep::Failed,
        SocketStep::SetReuseAddress.following(false) == SocketStep::Failed,
        SocketStep::Bind.following(false) == SocketStep::Failed,
{
}

/// The calls for a flow are made in one order: create a handle of version 1.0, add the socket with
/// any destination as a flow that does not adapt, or else without, and set the DSCP value 46.
pub proof fn flow_calls_have_their_order(any: bool, non_adaptive: bool, ok: bool)
    ensures
        FlowStep::first() == (FlowStep::CreateHandle { major: 1, minor: 0 }),
        FlowStep::first().following(true) == (FlowStep::AddSocket {
            any_destination: true,
            non_adaptive: true,
        }),
        FlowStep::first().following(false) == FlowStep::NoHandle,
        (FlowStep::AddSocket { any_destination: any, non_adaptive }).following(true)
            == FlowStep::SetDscp(46),
        (FlowStep::AddSocket { any_destination: true, non_adaptive }).following(false) == (
        FlowStep::AddSocket { any_destination: false, non_adaptive: false }),
        (FlowStep::AddSocket { any_destination: false, non_adaptive }).following(false)
            == FlowStep::NoFlow,
        FlowStep::SetDscp(46).following(ok) == FlowStep::Done,
{
}

} // verus!
