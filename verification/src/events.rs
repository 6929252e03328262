//! The stream of server-sent events that a listener gets: where to post, then the notifications,
//! and pings once no more notifications can come.

use vstd::prelude::*;

verus! {

/// The path that serves both the protocol and, to readers, the stream of events.
pub const ROOT_PATH: &'static str = "/";

/// The path that serves the protocol alone.
pub const MESSAGE_PATH: &'static str = "/message";

/// The path that serves the stream of events alone.
pub const EVENTS_PATH: &'static str = "/sse";

/// How many notifications the channel to the listeners keeps.
pub const NOTIFICATION_CAPACITY: usize = 100;

/// The time between two pings, in seconds.
pub const PING_SECONDS: u64 = 30;

/// The time after which a silent stream gets a comment that keeps it open, in seconds.
pub const KEEP_ALIVE_SECONDS: u64 = 15;

/// A server-sent event: its name and its data.
pub struct SseEvent {
    pub event: String,
    pub data: String,
}

/// A server-sent event: its name and its data.
#[verifier::ext_equal]
pub struct EventView {
    pub event: Seq<char>,
    pub data: Seq<char>,
}

impl View for SseEvent {
    type V = EventView;

    open spec fn view(&self) -> EventView {
        EventView { event: self.event@, data: self.data@ }
    }
}

/// What a stream waits for: nothing, the next notification, or the next tick of the clock.
#[derive(Debug, Clone, Copy, PartialEq, Eq, Structural)]
pub enum StreamPhase {
    Opening,
    Notifying,
    Pinging,
}

/// What a stream gets: its start, a notification, the news that it missed some, the end of all
/// notifications, or a tick of the clock.
pub enum StreamInput {
    Start,
    Notification(String),
    Missed,
    Closed,
    Tick,
}

/// The stream of events to one listener.
pub struct EventStream {
    pub phase: StreamPhase,
}

/// Whether a stream can get this input in this phase.
pub open spec fn expects(phase: StreamPhase, input: StreamInput) -> bool {
    match phase {
        StreamPhase::Opening => input is Start,
        StreamPhase::Notifying => input is Notification || input is Missed || input is Closed,
        StreamPhase::Pinging => input is Tick,
    }
}

/// The phase of a stream after an input.
pub open spec fn next_phase(phase: StreamPhase, input: StreamInput) -> StreamPhase {
    match input {
        StreamInput::Start => StreamPhase::Notifying,
        StreamInput::Closed => StreamPhase::Pinging,
        _ => phase,
    }
}

/// The event that an input makes, if any.
pub open spec fn event_of(input: StreamInput) -> Option<EventView> {
    match input {
        StreamInput::Start => Some(EventView { event: "endpoint"@, data: "/"@ }),
        StreamInput::Notification(text) => Some(
            EventView { event: "notification"@, data: text@ },
        ),
        StreamInput::Missed => None,
        StreamInput::Closed => None,
        StreamInput::Tick => Some(EventView { event: "ping"@, data: "keepalive"@ }),
    }
}

impl EventStream {
    /// A stream that has not started.
    pub fn new() -> (r: Self)
        ensures
            r.phase == StreamPhase::Opening,
    {
        EventStream { phase: StreamPhase::Opening }
    }

    /// Takes an input that the stream waits for, and returns the event that it makes, if any.
    pub fn step(&mut self, input: StreamInput) -> (r: Option<SseEvent>)
        requires
            expects(old(self).phase, input),
        ensures
            final(self).phase == next_phase(old(self).phase, input),
            match r {
                Some(event) => event_of(input) == Some(event@),
                None => event_of(input) is None,
            },
    {
        match input {
            StreamInput::Start => {
                self.phase = StreamPhase::Notifying;
                Some(SseEvent { event: "endpoint".to_owned(), data: "/".to_owned() })
            },
            StreamInput::Notification(text) => Some(
                SseEvent { event: "notification".to_owned(), data: text },
            ),
            StreamInput::Missed => None,
            StreamInput::Closed => {
                self.phase = StreamPhase::Pinging;
                None
            },
            StreamInput::Tick => Some(
                SseEvent { event: "ping".to_owned(), data: "keepalive".to_owned() },
            ),
        }
    }
}

/// The phase of a stream after some inputs.
pub open spec fn phase_after(phase: StreamPhase, inputs: Seq<StreamInput>) -> StreamPhase
    decreases inputs.len(),
{
    if inputs.len() == 0 {
        phase
    } else {
        next_phase(phase_after(phase, inputs.drop_last()), inputs.last())
    }
}

/// Whether each input comes when the stream waits for it.
pub open spec fn all_expected(phase: StreamPhase, inputs: Seq<StreamInput>) -> bool
    decreases inputs.len(),
{
    inputs.len() == 0 || {
        &&& all_expected(phase, inputs.drop_last())
        &&& expects(phase_after(phase, inputs.drop_last()), inputs.last())
    }
}

/// The events that some inputs make.
pub open spec fn events_of(inputs: Seq<StreamInput>) -> Seq<EventView>
    decreases inputs.len(),
{
    if inputs.len() == 0 {
        seq![]
    } else {
        match event_of(inputs.last()) {
            Some(event) => events_of(inputs.drop_last()).push(event),
            None => events_of(inputs.drop_last()),
        }
    }
}

/// The notifications among some inputs.
pub open spec fn notifications_of(inputs: Seq<StreamInput>) -> Seq<Seq<char>>
    decreases inputs.len(),
{
    if inputs.len() == 0 {
        seq![]
    } else {
        match inputs.last() {
            StreamInput::Notification(text) => notifications_of(inputs.drop_last()).push(text@),
            _ => notifications_of(inputs.drop_last()),
        }
    }
}

/// The number of ticks among some inputs.
pub open spec fn ticks_of(inputs: Seq<StreamInput>) -> nat
    decreases inputs.len(),
{
    if inputs.len() == 0 {
        0
    } else if inputs.last() is Tick {
        ticks_of(inputs.drop_last()) + 1
    } else {
        ticks_of(inputs.drop_last())
    }
}

/// What a listener gets: the endpoint, then these notifications, then this many pings.
pub open spec fn whole_stream(notifications: Seq<Seq<char>>, pings: nat) -> Seq<EventView> {
    seq![EventView { event: "endpoint"@, data: "/"@ }] + Seq::new(
        notifications.len(),
        |i: int| EventView { event: "notification"@, data: notifications[i] },
    ) + Seq::new(pings, |i: int| EventView { event: "ping"@, data: "keepalive"@ })
}

/// A listener first learns the endpoint, once, then gets every notification that reaches the
/// stream, unchanged and in order, and pings only once the notifications have ended.
pub proof fn law_stream_order(inputs: Seq<StreamInput>)
    requires
        all_expected(StreamPhase::Opening, inputs),
    ensures
        inputs.len() > 0 ==> events_of(inputs) == whole_stream(
            notifications_of(inputs),
            ticks_of(inputs),
        ),
        inputs.len() == 0 ==> events_of(inputs).len() == 0,
        phase_after(StreamPhase::Opening, inputs) == StreamPhase::Opening <==> inputs.len() == 0,
        ticks_of(inputs) > 0 ==> phase_after(StreamPhase::Opening, inputs) == StreamPhase::Pinging,
    decreases inputs.len(),
{
    if inputs.len() > 0 {
        let before = inputs.drop_last();
        law_stream_order(before);
        if before.len() == 0 {
            assert(events_of(inputs) =~= whole_stream(
                notifications_of(inputs),
                ticks_of(inputs),
            ));
        } else {
            match inputs.last() {
                StreamInput::Notification(text) => {
                    assert(ticks_of(before) == 0);
                    assert(whole_stream(notifications_of(inputs), 0) =~= whole_stream(
                        notifications_of(before),
                        0,
                    ).push(EventView { event: "notification"@, data: text@ }));
                },
                StreamInput::Tick => {
                    assert(whole_stream(notifications_of(inputs), ticks_of(inputs))
                        =~= whole_stream(notifications_of(before), ticks_of(before)).push(
                        EventView { event: "ping"@, data: "keepalive"@ },
                    ));
                },
                _ => {},
            }
        }
    }
}

/// The name of an event never has a line ending, so that it can stand on the wire.
pub proof fn law_event_names_are_one_line(input: StreamInput, i: int)
    requires
        event_of(input) matches Some(event) && 0 <= i < event.event.len(),
    ensures
        event_of(input).unwrap().event[i] != '\n',
        event_of(input).unwrap().event[i] != '\r',
{
    reveal_strlit("endpoint");
    reveal_strlit("notification");
    reveal_strlit("ping");
}

/// A listener gets every notification as an event of its own with the text unchanged, one ping for
/// each tick, the endpoint for the start, and no event for anything else.
pub proof fn law_inputs_make_events(input: StreamInput)
    ensures
        event_of(input) is None <==> input is Missed || input is Closed,
        input matches StreamInput::Notification(text) ==> event_of(input)->Some_0.data == text@
            && event_of(input)->Some_0.event == "notification"@,
        input is Start ==> event_of(input)->Some_0.event == "endpoint"@ && event_of(
            input,
        )->Some_0.data == "/"@,
        input is Tick ==> event_of(input)->Some_0.event == "ping"@ && event_of(
            input,
        )->Some_0.data == "keepalive"@,
{
}

/// A stream that gets what it waits for starts once, takes notifications until they end, however
/// many it gets or misses, and from then on takes ticks for ever.
pub proof fn law_stream_goes_on(phase: StreamPhase, input: StreamInput)
    requires
        expects(phase, input),
    ensures
        phase is Opening ==> input is Start && next_phase(phase, input) is Notifying,
        phase is Notifying && input is Closed ==> next_phase(phase, input) is Pinging,
        phase is Notifying && input !is Closed ==> next_phase(phase, input) is Notifying,
        phase is Pinging ==> input is Tick && next_phase(phase, input) is Pinging,
{
}

/// Each input is waited for in exactly one phase.
pub proof fn law_inputs_are_expected_once(input: StreamInput, phase: StreamPhase)
    ensures
        input is Start ==> (expects(phase, input) <==> phase is Opening),
        input is Notification || input is Missed || input is Closed ==> (expects(phase, input) <==> phase
            is Notifying),
        input is Tick ==> (expects(phase, input) <==> phase is Pinging),
{
}

/// One notification more is one event more, with its text, behind all the events before it.
pub proof fn law_notifications_are_appended(inputs: Seq<StreamInput>, text: String)
    ensures
        events_of(inputs + seq![StreamInput::Notification(text)]) == events_of(inputs) + seq![
            EventView { event: "notification"@, data: text@ },
        ],
{
    let more = inputs + seq![StreamInput::Notification(text)];
    assert(more.drop_last() == inputs);
    assert(more.last() == StreamInput::Notification(text));
}

/// Events are the same exactly where their names and their data are.
pub proof fn law_events_are_told_apart(a: SseEvent, b: SseEvent)
    ensures
        a@.event == a.event@ && a@.data == a.data@,
        a@ == b@ <==> a.event@ == b.event@ && a.data@ == b.data@,
{
}

} // verus!
