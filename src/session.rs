use vstd::prelude::*;

verus! {

/// A message frame from the peer: text, or anything else (binary, ping, pong).
pub enum Frame {
    Text(String),
    NonText,
}

/// What the loop around a session reports back to it.
pub enum Event {
    /// A frame was read.
    Received(Frame),
    /// The peer ended the stream.
    PeerClosed,
    /// Reading failed.
    ReadFailed,
    /// The last reply was written.
    Sent,
    /// Writing the last reply failed.
    SendFailed,
}

/// What the loop around a session is to do next.
pub enum Action {
    /// Read the next frame.
    Read,
    /// Write this text frame.
    Write(String),
    /// Stop, and release the channel.
    Stop,
}

pub ghost enum EventV {
    Text(Seq<char>),
    NonText,
    PeerClosed,
    ReadFailed,
    Sent,
    SendFailed,
}

pub ghost enum ActionV {
    Read,
    Write(Seq<char>),
    Stop,
}

impl View for Event {
    type V = EventV;

    open spec fn view(&self) -> EventV {
        match self {
            Event::Received(Frame::Text(t)) => EventV::Text(t@),
            Event::Received(Frame::NonText) => EventV::NonText,
            Event::PeerClosed => EventV::PeerClosed,
            Event::ReadFailed => EventV::ReadFailed,
            Event::Sent => EventV::Sent,
            Event::SendFailed => EventV::SendFailed,
        }
    }
}

impl View for Action {
    type V = ActionV;

    open spec fn view(&self) -> ActionV {
        match self {
            Action::Read => ActionV::Read,
            Action::Write(t) => ActionV::Write(t@),
            Action::Stop => ActionV::Stop,
        }
    }
}

/// The states of a session.
#[derive(Clone, Copy, Debug, PartialEq, Eq, Structural)]
pub enum SessionState {
    Open,
    Closing,
    Closed,
}

/// The reply to a text frame.
pub open spec fn reply_text(t: Seq<char>) -> Seq<char> {
    "reply: "@ + t
}

/// The reply to a frame that is not text.
pub open spec fn not_text_notice() -> Seq<char> {
    "Error: message is not text"@
}

/// One transition of a session: its next state and the action it asks for.
pub open spec fn step(st: SessionState, ev: EventV) -> (SessionState, ActionV) {
    match st {
        SessionState::Open => match ev {
            EventV::Text(t) => (SessionState::Open, ActionV::Write(reply_text(t))),
            EventV::NonText => (SessionState::Open, ActionV::Write(not_text_notice())),
            EventV::PeerClosed => (SessionState::Closed, ActionV::Stop),
            EventV::ReadFailed => (SessionState::Closed, ActionV::Stop),
            EventV::Sent => (SessionState::Open, ActionV::Read),
            EventV::SendFailed => (SessionState::Closing, ActionV::Stop),
        },
        _ => (SessionState::Closed, ActionV::Stop),
    }
}

/// The state after a run of events and the actions asked for on the way.
pub open spec fn run(st: SessionState, evs: Seq<EventV>) -> (SessionState, Seq<ActionV>)
    decreases evs.len(),
{
    if evs.len() == 0 {
        (st, Seq::empty())
    } else {
        let (next, a) = step(st, evs[0]);
        let (last, rest) = run(next, evs.drop_first());
        (last, seq![a] + rest)
    }
}

/// The text that answers a text frame.
pub fn reply_to(t: &str) -> (r: String)
    ensures
        r@ == reply_text(t@),
{
    let mut r = String::from_str("reply: ");
    r.append(t);
    r
}

/// The text that answers a frame that is not text.
pub fn not_text_reply() -> (r: String)
    ensures
        r@ == not_text_notice(),
{
    String::from_str("Error: message is not text")
}

/// One duplex echo session, from the upgrade until its channel is released.
pub struct Session {
    pub state: SessionState,
}

impl Session {
    /// A session that has just been upgraded.
    pub fn new() -> (r: Session)
        ensures
            r.state == SessionState::Open,
    {
        Session { state: SessionState::Open }
    }

    /// Takes one event and says what to do next.
    pub fn on_event(&mut self, ev: Event) -> (a: Action)
        ensures
            (final(self).state, a@) == step(old(self).state, ev@),
    {
        match self.state {
            SessionState::Open => match ev {
                Event::Received(Frame::Text(t)) => Action::Write(reply_to(t.as_str())),
                Event::Received(Frame::NonText) => Action::Write(not_text_reply()),
                Event::PeerClosed | Event::ReadFailed => {
                    self.state = SessionState::Closed;
                    Action::Stop
                },
                Event::Sent => Action::Read,
                Event::SendFailed => {
                    self.state = SessionState::Closing;
                    Action::Stop
                },
            },
            _ => {
                self.state = SessionState::Closed;
                Action::Stop
            },
        }
    }
}

/// A text frame gets exactly one reply, its text after `"reply: "`, and a
/// frame that is not text exactly one notice; the session stays open.
pub proof fn lemma_echo_keeps_open(t: Seq<char>)
    ensures
        step(SessionState::Open, EventV::Text(t)) == (SessionState::Open, ActionV::Write(
            reply_text(t),
        )),
        step(SessionState::Open, EventV::NonText) == (SessionState::Open, ActionV::Write(
            not_text_notice(),
        )),
        run(SessionState::Open, seq![EventV::Text(t)]) == (SessionState::Open, seq![
            ActionV::Write(reply_text(t)),
        ]),
{
    let evs = seq![EventV::Text(t)];
    assert(evs.drop_first() =~= Seq::<EventV>::empty());
    assert(run(SessionState::Open, evs.drop_first()) == (SessionState::Open, Seq::<ActionV>::empty()));
    assert(seq![ActionV::Write(reply_text(t))] + Seq::<ActionV>::empty() =~= seq![
        ActionV::Write(reply_text(t)),
    ]);
}

/// A session that is closing or closed writes nothing more, whatever comes.
pub proof fn lemma_stopped_writes_nothing(st: SessionState, evs: Seq<EventV>)
    requires
        st != SessionState::Open,
    ensures
        run(st, evs).0 == SessionState::Closed || evs.len() == 0,
        forall|i: int| 0 <= i < run(st, evs).1.len() ==> run(st, evs).1[i] == ActionV::Stop,
    decreases evs.len(),
{
    if evs.len() > 0 {
        lemma_stopped_writes_nothing(SessionState::Closed, evs.drop_first());
        let rest = run(SessionState::Closed, evs.drop_first()).1;
        assert forall|i: int| 0 <= i < run(st, evs).1.len() implies run(st, evs).1[i]
            == ActionV::Stop by {
            if i > 0 {
                assert(run(st, evs).1[i] == rest[i - 1]);
            }
        }
    }
}

/// Once the peer closes the connection, or a read or a write fails, the
/// session ends closed and no further write is asked for.
pub proof fn lemma_peer_close_ends_session(first: EventV, evs: Seq<EventV>)
    requires
        first is PeerClosed || first is ReadFailed || first is SendFailed,
    ensures
        run(SessionState::Open, seq![first] + evs).1[0] == ActionV::Stop,
        evs.len() > 0 ==> run(SessionState::Open, seq![first] + evs).0 == SessionState::Closed,
        forall|i: int|
            0 <= i < run(SessionState::Open, seq![first] + evs).1.len() ==> run(
                SessionState::Open,
                seq![first] + evs,
            ).1[i] == ActionV::Stop,
{
    let all = seq![first] + evs;
    assert(all.drop_first() =~= evs);
    let next = step(SessionState::Open, first).0;
    lemma_stopped_writes_nothing(next, evs);
    let out = run(SessionState::Open, all).1;
    assert forall|i: int| 0 <= i < out.len() implies out[i] == ActionV::Stop by {
        if i > 0 {
            assert(out[i] == run(next, evs).1[i - 1]);
        }
    }
}

/// An event that ends an open session.
pub open spec fn is_terminal(ev: EventV) -> bool {
    ev is PeerClosed || ev is ReadFailed || ev is SendFailed
}

/// The number of frames received in a run of events.
pub open spec fn count_frames(evs: Seq<EventV>) -> nat
    decreases evs.len(),
{
    if evs.len() == 0 {
        0
    } else {
        (if evs[0] is Text || evs[0] is NonText { 1nat } else { 0nat }) + count_frames(evs.drop_first())
    }
}

/// The number of writes asked for in a run of actions.
pub open spec fn count_writes(acts: Seq<ActionV>) -> nat
    decreases acts.len(),
{
    if acts.len() == 0 {
        0
    } else {
        (if acts[0] is Write { 1nat } else { 0nat }) + count_writes(acts.drop_first())
    }
}

proof fn lemma_no_writes(acts: Seq<ActionV>)
    requires
        forall|i: int| 0 <= i < acts.len() ==> acts[i] == ActionV::Stop,
    ensures
        count_writes(acts) == 0,
    decreases acts.len(),
{
    if acts.len() > 0 {
        lemma_no_writes(acts.drop_first());
    }
}

/// Over a whole session, the frames received before the session ends get
/// exactly one write each, and nothing is written from the ending event on,
/// whatever follows it.
pub proof fn lemma_one_write_per_frame(evs: Seq<EventV>, end: EventV, later: Seq<EventV>)
    requires
        forall|i: int| 0 <= i < evs.len() ==> !is_terminal(#[trigger] evs[i]),
        is_terminal(end),
    ensures
        count_writes(run(SessionState::Open, evs + seq![end] + later).1) == count_frames(evs),
    decreases evs.len(),
{
    let all = evs + seq![end] + later;
    if evs.len() == 0 {
        assert(all =~= seq![end] + later);
        lemma_peer_close_ends_session(end, later);
        lemma_no_writes(run(SessionState::Open, all).1);
    } else {
        let tail = evs.drop_first();
        assert(all.drop_first() =~= tail + seq![end] + later);
        assert(all[0] == evs[0]);
        assert(!is_terminal(evs[0]));
        assert forall|i: int| 0 <= i < tail.len() implies !is_terminal(#[trigger] tail[i]) by {
            assert(tail[i] == evs[i + 1]);
        }
        lemma_one_write_per_frame(tail, end, later);
        let (next, a) = step(SessionState::Open, all[0]);
        assert(next == SessionState::Open);
        let acts = run(SessionState::Open, all).1;
        let rest = run(SessionState::Open, all.drop_first()).1;
        assert(acts == seq![a] + rest);
        assert(acts.drop_first() =~= rest);
        assert(acts[0] == a);
    }
}

} // verus!
