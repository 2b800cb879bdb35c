use vstd::prelude::*;
use vstd::utf8::encode_utf8;
use crate::handshake::{
    base_url_for_port, lemma_stdout_announces_digits, loopback_base_url, spec_stdout_port,
    stdout_port, HANDSHAKE_PREFIX,
};
use crate::text::{all_ascii_digits, all_whitespace, digits_value};

verus! {

/// What the backend process reports while it runs.
pub enum SidecarEvent {
    /// A chunk of its standard output.
    Stdout(Vec<u8>),
    /// A chunk of its standard error.
    Stderr(Vec<u8>),
    /// An error in reading from the process.
    Error(String),
    /// The process ended, with its exit code or the signal that ended it.
    Terminated { code: Option<i32>, signal: Option<i32> },
    /// Any other report.
    Other,
}

/// The port that `event` announces, if it is stdout holding the handshake.
pub open spec fn event_port(event: SidecarEvent) -> Option<u16> {
    match event {
        SidecarEvent::Stdout(bytes) => spec_stdout_port(bytes@),
        _ => None,
    }
}

/// Every stdout chunk is read as a possible handshake, whatever its length:
/// a chunk holding the UTF-8 encoding of the handshake line, with whitespace
/// around it and the port written in ASCII digits, announces that port; a
/// stdout chunk announces what `stdout_port` reads in it; other events
/// announce nothing.
pub proof fn lemma_stdout_event_announces_port(
    bytes: Vec<u8>,
    pre: Seq<char>,
    digits: Seq<char>,
    post: Seq<char>,
    other: SidecarEvent,
)
    ensures
        all_whitespace(pre) && all_whitespace(post) && digits.len() > 0 && all_ascii_digits(digits)
            && digits_value(digits) <= 0xffff && bytes@ == encode_utf8(
            pre + (HANDSHAKE_PREFIX@ + digits) + post,
        ) ==> event_port(SidecarEvent::Stdout(bytes)) == Some(digits_value(digits) as u16),
        event_port(SidecarEvent::Stdout(bytes)) == spec_stdout_port(bytes@),
        !(other is Stdout) ==> event_port(other) is None,
{
    if all_whitespace(pre) && all_whitespace(post) && digits.len() > 0 && all_ascii_digits(digits)
        && digits_value(digits) <= 0xffff && bytes@ == encode_utf8(
        pre + (HANDSHAKE_PREFIX@ + digits) + post,
    ) {
        lemma_stdout_announces_digits(pre, digits, post);
    }
}

/// What to do after an event of a run.
pub enum RunStep {
    /// Keep reading events.
    Continue,
    /// The backend announced `port`: record `base_url` as its address, and
    /// keep reading events.
    Handshake { port: u16, base_url: String },
    /// The process ended: the run is over.
    Stop,
}

/// Follows one run of the backend: the events seen so far, and whether the
/// handshake was among them.
pub struct RunMonitor {
    handshook: bool,
    events: Ghost<Seq<SidecarEvent>>,
}

/// Whether some event of `events` announces a port.
pub open spec fn saw_handshake(events: Seq<SidecarEvent>) -> bool
    decreases events.len(),
{
    if events.len() == 0 {
        false
    } else {
        saw_handshake(events.drop_last()) || event_port(events.last()) is Some
    }
}

/// A run handshook exactly when one of its events announced a port.
pub proof fn lemma_saw_handshake_iff_some_event(events: Seq<SidecarEvent>)
    ensures
        saw_handshake(events) <==> exists|i: int|
            0 <= i < events.len() && #[trigger] event_port(events[i]) is Some,
    decreases events.len(),
{
    if events.len() > 0 {
        let prev = events.drop_last();
        lemma_saw_handshake_iff_some_event(prev);
        if saw_handshake(prev) {
            let i = choose|i: int| 0 <= i < prev.len() && #[trigger] event_port(prev[i]) is Some;
            assert(events[i] == prev[i]);
        }
        if exists|i: int| 0 <= i < events.len() && #[trigger] event_port(events[i]) is Some {
            let i = choose|i: int| 0 <= i < events.len() && #[trigger] event_port(events[i]) is Some;
            if i < prev.len() {
                assert(events[i] == prev[i]);
            }
        }
    }
}

impl RunMonitor {
    #[verifier::type_invariant]
    spec fn handshook_matches_events(self) -> bool {
        self.handshook == saw_handshake(self.events@)
    }

    /// The events of the run handled so far, in order.
    pub closed spec fn events(self) -> Seq<SidecarEvent> {
        self.events@
    }

    /// Whether the handshake has been seen so far in this run.
    pub closed spec fn spec_handshook(self) -> bool {
        self.handshook
    }

    /// A monitor for a run that has just started.
    pub fn new() -> (m: Self)
        ensures
            !m.spec_handshook(),
            m.events().len() == 0,
    {
        let events: Ghost<Seq<SidecarEvent>> = Ghost(Seq::empty());
        RunMonitor { handshook: false, events }
    }

    /// Whether the handshake was observed at any point of the run: exactly
    /// when one of the events handled so far announced a port.
    pub fn handshook(&self) -> (r: bool)
        ensures
            r == self.spec_handshook(),
            r == saw_handshake(self.events()),
    {
        proof {
            use_type_invariant(self);
        }
        self.handshook
    }

    /// Handles one event of the run: a stdout chunk that holds the handshake
    /// yields the backend's base URL; the end of the process stops the run.
    pub fn on_event(&mut self, event: &SidecarEvent) -> (step: RunStep)
        ensures
            final(self).spec_handshook() == (old(self).spec_handshook() || event_port(
                *event,
            ) is Some),
            final(self).events() == old(self).events().push(*event),
            final(self).spec_handshook() == saw_handshake(final(self).events()),
            match event_port(*event) {
                Some(port) => step matches RunStep::Handshake { port: p, base_url } && p == port
                    && base_url@ == loopback_base_url(port),
                None => if event is Terminated {
                    step is Stop
                } else {
                    step is Continue
                },
            },
    {
        proof {
            use_type_invariant(&*self);
        }
        let ghost seen = self.events@.push(*event);
        assert(seen.drop_last() =~= self.events@);
        let events: Ghost<Seq<SidecarEvent>> = Ghost(seen);
        match event {
            SidecarEvent::Stdout(bytes) => match stdout_port(bytes.as_slice()) {
                Some(port) => {
                    *self = RunMonitor { handshook: true, events };
                    RunStep::Handshake { port, base_url: base_url_for_port(port) }
                },
                None => {
                    *self = RunMonitor { handshook: self.handshook, events };
                    RunStep::Continue
                },
            },
            SidecarEvent::Terminated { .. } => {
                *self = RunMonitor { handshook: self.handshook, events };
                RunStep::Stop
            },
            _ => {
                *self = RunMonitor { handshook: self.handshook, events };
                RunStep::Continue
            },
        }
    }
}

} // verus!
