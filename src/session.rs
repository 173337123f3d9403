//! The per-session machinery built on the codecs and the registry: the
//! reader loop that turns reads into tagged events, the exit watcher's step,
//! and the operations that send to, stop and list sessions.
use vstd::prelude::*;
use crate::framing::{
    copy_bytes, decode_chunk, encode_frame, encoded, initial_state, DecoderState, FrameDecoder, FramingMode,
};
use crate::registry::{RegistryError, SessionRegistry};

verus! {

/// The stream of a session that an event came from.
#[derive(Clone, Copy, PartialEq, Eq, Debug)]
pub enum Channel {
    /// Decoded protocol messages.
    Protocol,
    /// Standard output, or the whole output of a terminal or socket.
    Stdout,
    /// Standard error: diagnostic and log lines.
    Stderr,
}

/// The kinds of managed endpoint.
#[derive(Clone, Copy, PartialEq, Eq, Debug)]
pub enum SessionKind {
    /// A language server: a process spoken to over its standard streams.
    LanguageServer,
    /// A debug adapter: a socket connection.
    DebugAdapter,
    /// An interactive shell on a pseudo-terminal.
    Terminal,
    /// A one-shot command whose output is captured.
    BackgroundCommand,
}

/// The framing of each stream, by kind: a language server speaks
/// length-prefixed messages on its protocol channel and writes log lines on
/// standard error; everything else is passed through as it is read.
pub open spec fn framing_spec(kind: SessionKind, channel: Channel) -> FramingMode {
    match kind {
        SessionKind::LanguageServer => match channel {
            Channel::Stderr => FramingMode::LineDelimited,
            _ => FramingMode::LengthPrefixed,
        },
        _ => FramingMode::Raw,
    }
}

/// The framing mode that a session of `kind` uses on `channel`.
pub fn framing_for(kind: SessionKind, channel: Channel) -> (r: FramingMode)
    ensures
        r == framing_spec(kind, channel),
{
    match kind {
        SessionKind::LanguageServer => match channel {
            Channel::Stderr => FramingMode::LineDelimited,
            _ => FramingMode::LengthPrefixed,
        },
        _ => FramingMode::Raw,
    }
}

/// One decoded frame, tagged with its session and channel.
pub struct SessionEvent {
    pub session_id: String,
    pub channel: Channel,
    pub payload: Vec<u8>,
}

/// What one read on a session's stream gave.
pub enum ReadOutcome {
    /// Bytes; none at all means the end of the stream.
    Data(Vec<u8>),
    /// The read failed.
    Failed,
}

/// What a reader loop does after a read.
pub enum ReaderAction {
    /// Publish these events, in this order, and read again.
    Publish(Vec<SessionEvent>),
    /// The stream has ended or failed: stop reading and tear the session down.
    Stop,
}

/// The decisions of one reader loop: it owns the read side of one stream of
/// one session and decodes it with the session's framing mode.
pub struct ReaderLoop {
    session_id: String,
    channel: Channel,
    decoder: FrameDecoder,
    stopped: bool,
}

/// The events for `frames`, each tagged with `id` and `channel`, in order.
pub open spec fn events_match(events: Seq<SessionEvent>, id: Seq<char>, channel: Channel, frames: Seq<
    Seq<u8>,
>) -> bool {
    &&& events.len() == frames.len()
    &&& forall|i: int|
        0 <= i < events.len() ==> {
            &&& (#[trigger] events[i]).session_id@ == id
            &&& events[i].channel == channel
            &&& events[i].payload@ == frames[i]
        }
}

impl ReaderLoop {
    pub closed spec fn session_id(&self) -> Seq<char> {
        self.session_id@
    }

    pub closed spec fn channel(&self) -> Channel {
        self.channel
    }

    /// What the decoder holds between reads.
    pub closed spec fn state(&self) -> DecoderState {
        self.decoder@
    }

    pub closed spec fn is_stopped(&self) -> bool {
        self.stopped
    }

    pub fn new(session_id: String, channel: Channel, mode: FramingMode) -> (r: Self)
        ensures
            r.session_id() == session_id@,
            r.channel() == channel,
            r.state() == initial_state(mode),
            !r.is_stopped(),
    {
        ReaderLoop { session_id, channel, decoder: FrameDecoder::new(mode), stopped: false }
    }

    /// Takes the outcome of one read. Bytes are decoded and every frame they
    /// complete is published, in order; the end of the stream or a failed read
    /// stops the loop for good, and a stopped loop publishes nothing more.
    pub fn on_read(&mut self, outcome: ReadOutcome) -> (r: ReaderAction)
        ensures
            final(self).session_id() == old(self).session_id(),
            final(self).channel() == old(self).channel(),
            old(self).is_stopped() ==> r is Stop && final(self).is_stopped(),
            !old(self).is_stopped() ==> match outcome {
                ReadOutcome::Data(bytes) => if bytes@.len() == 0 {
                    r is Stop && final(self).is_stopped()
                } else {
                    &&& !final(self).is_stopped()
                    &&& final(self).state() == decode_chunk(old(self).state(), bytes@).0
                    &&& (r matches ReaderAction::Publish(events) && events_match(
                        events@,
                        old(self).session_id(),
                        old(self).channel(),
                        decode_chunk(old(self).state(), bytes@).1,
                    ))
                },
                ReadOutcome::Failed => r is Stop && final(self).is_stopped(),
            },
    {
        if self.stopped {
            return ReaderAction::Stop;
        }
        match outcome {
            ReadOutcome::Data(bytes) => {
                if bytes.len() == 0 {
                    self.stopped = true;
                    return ReaderAction::Stop;
                }
                let frames = self.decoder.feed(bytes.as_slice());
                let mut events: Vec<SessionEvent> = Vec::new();
                let mut i: usize = 0;
                while i < frames.len()
                    invariant
                        i <= frames@.len(),
                        events@.len() == i,
                        forall|j: int|
                            0 <= j < i ==> {
                                &&& (#[trigger] events@[j]).session_id@ == self.session_id@
                                &&& events@[j].channel == self.channel
                                &&& events@[j].payload@ == frames.deep_view()[j]
                            },
                    decreases frames@.len() - i,
                {
                    let payload = copy_bytes(frames[i].as_slice());
                    assert(payload@ == frames.deep_view()[i as int]);
                    events.push(
                        SessionEvent {
                            session_id: self.session_id.clone(),
                            channel: self.channel,
                            payload,
                        },
                    );
                    i = i + 1;
                }
                ReaderAction::Publish(events)
            },
            ReadOutcome::Failed => {
                self.stopped = true;
                ReaderAction::Stop
            },
        }
    }
}

/// A non-blocking look at whether a process has exited.
pub enum PollOutcome {
    /// It exited, with this code (none where a signal ended it).
    Exited(Option<i32>),
    Running,
    /// The look failed, with this message.
    Failed(String),
}

/// What an exit watcher does after one poll.
#[derive(PartialEq, Eq, Debug)]
pub enum WatchAction {
    /// Still running: poll again after the interval.
    KeepWatching,
    /// The process exited with this code and its session was removed:
    /// publish the termination event and stop.
    Exited(Option<i32>),
    /// Stop without an event: the session was removed by another path, or
    /// the poll failed and the session was removed here.
    Stop,
}

/// One step of the exit watcher of session `id`, given a poll of its process.
/// A session that is gone ends the watch silently, whatever the poll says.
pub fn exit_watch_step<S>(sessions: &mut SessionRegistry<S>, id: &String, poll: PollOutcome) -> (r:
    WatchAction)
    requires
        old(sessions).wf(),
    ensures
        final(sessions).wf(),
        !old(sessions)@.contains_key(id@) ==> r == WatchAction::Stop && final(sessions)@ == old(
            sessions,
        )@,
        old(sessions)@.contains_key(id@) ==> match poll {
            PollOutcome::Exited(code) => r == WatchAction::Exited(code) && final(sessions)@ == old(
                sessions,
            )@.remove(id@),
            PollOutcome::Running => r == WatchAction::KeepWatching && final(sessions)@ == old(
                sessions,
            )@,
            PollOutcome::Failed(_) => r == WatchAction::Stop && final(sessions)@ == old(
                sessions,
            )@.remove(id@),
        },
{
    if !sessions.contains(id) {
        return WatchAction::Stop;
    }
    match poll {
        PollOutcome::Exited(code) => {
            let _ = sessions.remove(id);
            WatchAction::Exited(code)
        },
        PollOutcome::Running => WatchAction::KeepWatching,
        PollOutcome::Failed(_) => {
            let _ = sessions.remove(id);
            WatchAction::Stop
        },
    }
}

/// Prepares a send to session `id`: the session, whose writer the caller
/// then holds exclusively while it writes the returned bytes in one piece
/// and flushes them, and those bytes, the whole encoded frame. `NotFound`
/// where no session has the identifier.
pub fn send_frame<'a, S>(sessions: &'a SessionRegistry<S>, id: &String, mode: FramingMode, payload: &[u8]) -> (r:
    Result<(&'a S, Vec<u8>), RegistryError>)
    requires
        sessions.wf(),
    ensures
        !sessions@.contains_key(id@) ==> r == Err::<(&S, Vec<u8>), RegistryError>(
            RegistryError::NotFound,
        ),
        sessions@.contains_key(id@) ==> (r matches Ok((s, bytes)) && *s == sessions@[id@] && bytes@
            == encoded(mode, payload@)),
{
    match sessions.get(id) {
        Some(s) => Ok((s, encode_frame(mode, payload))),
        None => Err(RegistryError::NotFound),
    }
}

} // verus!
