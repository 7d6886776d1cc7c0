//! Identification of the two readiness sources the dispatch loop waits on.

use vstd::prelude::*;

verus! {

/// Which readiness source fired: the display-protocol connection, the
/// internal wake channel, or something unrecognised.
#[derive(Clone, Copy, Debug, PartialEq, Eq, Structural)]
pub enum EventKind {
    Unknown,
    Wayland,
    Mq,
}

impl EventKind {
    /// The numeric tag a readiness registration carries for this source.
    pub open spec fn spec_id(self) -> u64 {
        match self {
            EventKind::Unknown => 0,
            EventKind::Wayland => 1,
            EventKind::Mq => 2,
        }
    }

    /// The source a numeric tag denotes; unassigned tags are unknown.
    pub open spec fn spec_from(value: u64) -> EventKind {
        if value == 1 {
            EventKind::Wayland
        } else if value == 2 {
            EventKind::Mq
        } else {
            EventKind::Unknown
        }
    }

    /// The numeric tag for this source.
    pub fn id(self) -> (r: u64)
        ensures
            r == self.spec_id(),
    {
        match self {
            EventKind::Unknown => 0,
            EventKind::Wayland => 1,
            EventKind::Mq => 2,
        }
    }
}

impl From<u64> for EventKind {
    fn from(value: u64) -> (r: EventKind) {
        if value == 1 {
            EventKind::Wayland
        } else if value == 2 {
            EventKind::Mq
        } else {
            EventKind::Unknown
        }
    }
}

impl vstd::std_specs::convert::FromSpecImpl<u64> for EventKind {
    open spec fn obeys_from_spec() -> bool {
        true
    }

    open spec fn from_spec(v: u64) -> EventKind {
        EventKind::spec_from(v)
    }
}

/// Tag round trip: every source is recovered from its own tag.
pub proof fn lemma_event_kind_round_trip(k: EventKind)
    ensures
        EventKind::spec_from(k.spec_id()) == k,
{
}

} // verus!
