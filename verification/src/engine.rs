//! The decisions of the headless engine: session and stream bookkeeping, stream parameters,
//! how a captured block becomes a frame, and how errors are reported on the wire.

use crate::error::DeviceError;
use crate::types::InputBlock;
use crate::wire::{envelope, Envelope, Frame};
use vstd::hash_map::HashMapWithView;
use vstd::prelude::*;
use vstd::string::StringExecFns;

verus! {

broadcast use {
    vstd::std_specs::hash::axiom_u64_obeys_hash_table_key_model,
    vstd::std_specs::hash::axiom_u32_obeys_hash_table_key_model,
};

/// Errors of the engine.
#[derive(Debug)]
pub enum EngineError {
    NoSuchSession(u64),
    NoSuchStream(u32),
    /// The session already has a running stream (or measurement).
    StreamRunning(u64),
    /// Invalid request (what is wrong with it).
    BadRequest(String),
    Device(DeviceError),
}

#[derive(Debug, Clone, Copy, PartialEq, Eq, Structural)]
pub enum StreamKind {
    /// Per-channel RMS and peak levels at a display rate.
    Levels,
    /// The captured samples, channel-major.
    RawInput,
    /// Real-time spectrum on a display axis.
    Rta,
    /// Oscilloscope windows.
    Scope,
}

/// Server-side events.
#[derive(Debug, Clone, Copy, PartialEq, Eq, Structural)]
pub enum Event {
    StreamOverrun { stream_id: u32, dropped_blocks: u32 },
    StreamEnded { stream_id: u32 },
    /// The ranges of a session's device changed (input auto-range).
    RangeChanged { session_id: u64, input_range: Option<usize>, output_range: Option<usize> },
}

#[derive(Debug, Clone, Copy, PartialEq, Eq, Structural)]
pub enum MeasureKind {
    Thd,
    ImdSmpte,
    ImdCcif,
}

/// Which device backends the engine exposes.
#[derive(Debug, Clone, Copy, Default, PartialEq, Eq, Structural)]
pub struct BackendOptions {
    /// Expose the in-process virtual loopback device (tests, demos).
    pub virtual_loopback: bool,
    /// Expose generic sound cards through cpal.
    pub cpal: bool,
}

/// Error codes of the API contract.
#[derive(Debug, Clone, Copy, PartialEq, Eq, Structural)]
pub enum ErrorCode {
    Unspecified,
    BadRequest,
    NotFound,
    Busy,
    Unsupported,
    Device,
}

/// The error code an engine error is reported with.
pub open spec fn error_code_of(e: EngineError) -> ErrorCode {
    match e {
        EngineError::NoSuchSession(_) | EngineError::NoSuchStream(_) => ErrorCode::NotFound,
        EngineError::StreamRunning(_) => ErrorCode::Busy,
        EngineError::BadRequest(_) => ErrorCode::BadRequest,
        EngineError::Device(d) => match d {
            DeviceError::NotFound(_) | DeviceError::NoSuchStream => ErrorCode::NotFound,
            DeviceError::Busy => ErrorCode::Busy,
            DeviceError::UnsupportedConfig(_) | DeviceError::NotConfigured => ErrorCode::Unsupported,
            DeviceError::Disconnected | DeviceError::Backend(_) | DeviceError::Io(_) => ErrorCode::Device,
        },
    }
}

pub fn error_code(e: &EngineError) -> (c: ErrorCode)
    ensures
        c == error_code_of(*e),
{
    match e {
        EngineError::NoSuchSession(_) | EngineError::NoSuchStream(_) => ErrorCode::NotFound,
        EngineError::StreamRunning(_) => ErrorCode::Busy,
        EngineError::BadRequest(_) => ErrorCode::BadRequest,
        EngineError::Device(d) => match d {
            DeviceError::NotFound(_) | DeviceError::NoSuchStream => ErrorCode::NotFound,
            DeviceError::Busy => ErrorCode::Busy,
            DeviceError::UnsupportedConfig(_) | DeviceError::NotConfigured => ErrorCode::Unsupported,
            DeviceError::Disconnected | DeviceError::Backend(_) | DeviceError::Io(_) => ErrorCode::Device,
        },
    }
}

/// The error payload of a response.
#[derive(Debug, Clone, PartialEq)]
pub struct ErrorReply {
    pub code: ErrorCode,
    pub message: String,
}

/// A response that carries an error.
pub fn error_env(id: u64, code: ErrorCode, message: &str) -> (e: Envelope<ErrorReply>)
    ensures
        e.request_id == id,
        e.payload matches Some(p) && p.code == code && p.message@ == message@,
{
    envelope(id, ErrorReply { code, message: String::from_str(message) })
}

/// Bookkeeping of one session: its running stream, if any, and whether a one-shot
/// measurement holds it.
#[derive(Debug, Clone, Copy, PartialEq, Eq, Structural)]
pub struct SessionEntry {
    pub stream: Option<u32>,
    pub measuring: bool,
}

/// The parameters a new stream runs with.
#[derive(Debug, Clone, Copy, PartialEq, Eq, Structural)]
pub struct StreamPlan {
    pub stream_id: u32,
    pub block_frames: u32,
    pub channels: u16,
    pub values_per_channel: u16,
    /// The stream of the session that the new one takes over from (its device loop keeps
    /// running), if one was running.
    pub replaces: Option<u32>,
}

/// Frames per block of a stream request: 0 means the default, 4096.
pub open spec fn effective_block_frames(requested: u32) -> u32 {
    if requested == 0 {
        4096
    } else {
        requested
    }
}

/// The outcome of a stream plan once the device has `n` input channels (counted modulo
/// 2^16, as the channel count is a `u16`): the stream id is reserved; a RAW_INPUT stream
/// needs blocks of at most 65535 frames; an RTA or scope stream carries `points` values per
/// channel; `running` is the stream it replaces.
pub open spec fn planned(
    r: Result<StreamPlan, EngineError>,
    stream_id: u32,
    kind: StreamKind,
    block_frames: u32,
    n: usize,
    points: u16,
    running: Option<u32>,
) -> bool {
    let bf = effective_block_frames(block_frames);
    if kind == StreamKind::RawInput && bf > 0xffff {
        r matches Err(EngineError::BadRequest(m)) && m@ == "block_frames > 65535"@
    } else {
        r == Ok::<StreamPlan, EngineError>(
            StreamPlan {
                stream_id,
                block_frames: bf,
                channels: (n % 0x1_0000) as u16,
                values_per_channel: match kind {
                    StreamKind::Levels => 2,
                    StreamKind::RawInput => bf as u16,
                    _ => points,
                },
                replaces: running,
            },
        )
    }
}

/// Sessions and streams of the engine. Session ids start at 1 and are never reused; so
/// are stream ids; each stream belongs to exactly one session.
pub struct Sessions {
    sessions: HashMapWithView<u64, SessionEntry>,
    owners: HashMapWithView<u32, u64>,
    ids: Vec<u64>,
    next_session: u64,
    next_stream: u32,
}

impl Sessions {
    /// Open sessions and their state.
    pub closed spec fn sessions(&self) -> Map<u64, SessionEntry> {
        self.sessions@
    }

    /// The session each running stream belongs to.
    pub closed spec fn owners(&self) -> Map<u32, u64> {
        self.owners@
    }

    pub closed spec fn next_session(&self) -> u64 {
        self.next_session
    }

    pub closed spec fn next_stream(&self) -> u32 {
        self.next_stream
    }

    pub closed spec fn wf(&self) -> bool {
        &&& self.next_session >= 1
        &&& self.next_stream >= 1
        &&& forall|s: u64| #[trigger] self.sessions@.contains_key(s) ==> 1 <= s < self.next_session
        &&& forall|t: u32| #[trigger] self.owners@.contains_key(t) ==> 1 <= t < self.next_stream
        &&& forall|s: u64|
            #[trigger] self.sessions@.contains_key(s) ==> match self.sessions@[s].stream {
                Some(t) => self.owners@.contains_key(t) && self.owners@[t] == s,
                None => true,
            }
        &&& forall|t: u32|
            #[trigger] self.owners@.contains_key(t) ==> self.sessions@.contains_key(self.owners@[t])
                && self.sessions@[self.owners@[t]].stream == Some(t)
        &&& self.ids@.no_duplicates()
        &&& forall|s: u64| #[trigger] self.sessions@.contains_key(s) <==> self.ids@.contains(s)
    }

    /// What well-formed bookkeeping guarantees.
    pub proof fn lemma_consistent(&self)
        requires
            self.wf(),
        ensures
            forall|s: u64| #[trigger] self.sessions().contains_key(s) ==> 1 <= s < self.next_session(),
            forall|t: u32| #[trigger] self.owners().contains_key(t) ==> 1 <= t < self.next_stream(),
            forall|s: u64|
                #[trigger] self.sessions().contains_key(s) ==> match self.sessions()[s].stream {
                    Some(t) => self.owners().contains_key(t) && self.owners()[t] == s,
                    None => true,
                },
            forall|t: u32|
                #[trigger] self.owners().contains_key(t) ==> self.sessions().contains_key(self.owners()[t])
                    && self.sessions()[self.owners()[t]].stream == Some(t),
    {
    }

    pub fn new() -> (r: Sessions)
        ensures
            r.wf(),
            r.sessions() == Map::<u64, SessionEntry>::empty(),
            r.owners() == Map::<u32, u64>::empty(),
            r.next_session() == 1,
            r.next_stream() == 1,
    {
        Sessions {
            sessions: HashMapWithView::new(),
            owners: HashMapWithView::new(),
            ids: Vec::new(),
            next_session: 1,
            next_stream: 1,
        }
    }

    /// Register a new session; its id was never used before.
    pub fn open(&mut self) -> (id: u64)
        requires
            old(self).wf(),
            old(self).next_session() < u64::MAX,
        ensures
            final(self).wf(),
            id == old(self).next_session(),
            !old(self).sessions().contains_key(id),
            final(self).sessions() == old(self).sessions().insert(id, SessionEntry { stream: None, measuring: false }),
            final(self).owners() == old(self).owners(),
            final(self).next_session() == id + 1,
            final(self).next_stream() == old(self).next_stream(),
    {
        let id = self.next_session;
        self.next_session = self.next_session + 1;
        proof {
            assert(!old(self).sessions@.contains_key(id));
            assert(!old(self).ids@.contains(id));
        }
        self.sessions.insert(id, SessionEntry { stream: None, measuring: false });
        self.ids.push(id);
        proof {
            assert(self.ids@.no_duplicates()) by {
                assert forall|a: int, b: int| 0 <= a < b < self.ids@.len() implies self.ids@[a] != self.ids@[b] by {
                    if b == self.ids@.len() - 1 {
                        assert(old(self).ids@.contains(self.ids@[a]) ==> self.ids@[a] != id);
                        assert(old(self).ids@[a] == self.ids@[a]);
                    } else {
                        assert(old(self).ids@[a] == self.ids@[a]);
                        assert(old(self).ids@[b] == self.ids@[b]);
                    }
                }
            }
            assert forall|s: u64| #[trigger] self.sessions@.contains_key(s) <==> self.ids@.contains(s) by {
                if s == id {
                    assert(self.ids@[self.ids@.len() - 1] == id);
                } else if old(self).ids@.contains(s) {
                    let k = choose|k: int| 0 <= k < old(self).ids@.len() && old(self).ids@[k] == s;
                    assert(self.ids@[k] == s);
                }
            }
        }
        id
    }

    /// Forget a session; returns the stream it was running, for the caller to stop.
    pub fn close(&mut self, id: u64) -> (r: Result<Option<u32>, EngineError>)
        requires
            old(self).wf(),
        ensures
            final(self).wf(),
            !old(self).sessions().contains_key(id) ==> (r matches Err(EngineError::NoSuchSession(x)) && x == id)
                && final(self).sessions() == old(self).sessions() && final(self).owners() == old(self).owners(),
            old(self).sessions().contains_key(id) ==> (r matches Ok(s) && s == old(self).sessions()[id].stream),
            final(self).sessions() == old(self).sessions().remove(id),
            old(self).sessions().contains_key(id) ==> final(self).owners() == match old(self).sessions()[id].stream {
                Some(t) => old(self).owners().remove(t),
                None => old(self).owners(),
            },
            final(self).next_session() == old(self).next_session(),
            final(self).next_stream() == old(self).next_stream(),
    {
        let entry = match self.sessions.remove(&id) {
            Some(e) => e,
            None => {
                proof {
                    assert(self.sessions@ =~= old(self).sessions@.remove(id));
                }
                return Err(EngineError::NoSuchSession(id));
            },
        };
        if let Some(t) = entry.stream {
            self.owners.remove(&t);
        }
        let mut i: usize = 0;
        while i < self.ids.len() && self.ids[i] != id
            invariant
                i <= self.ids@.len(),
                self.ids@ == old(self).ids@,
                forall|j: int| 0 <= j < i ==> self.ids@[j] != id,
            decreases self.ids@.len() - i,
        {
            i = i + 1;
        }
        proof {
            assert(old(self).ids@.contains(id));
        }
        if i < self.ids.len() {
            let ghost before = self.ids@;
            self.ids.remove(i);
            proof {
                assert(self.ids@ =~= before.remove(i as int));
                assert(self.ids@.no_duplicates()) by {
                    assert forall|a: int, b: int| 0 <= a < b < self.ids@.len() implies self.ids@[a] != self.ids@[b] by {
                        let a2 = if a < i { a } else { a + 1 };
                        let b2 = if b < i { b } else { b + 1 };
                        assert(self.ids@[a] == before[a2]);
                        assert(self.ids@[b] == before[b2]);
                    }
                }
                assert forall|s: u64| #[trigger] self.sessions@.contains_key(s) <==> self.ids@.contains(s) by {
                    if self.ids@.contains(s) {
                        let k = choose|k: int| 0 <= k < self.ids@.len() && self.ids@[k] == s;
                        let k2 = if k < i { k } else { k + 1 };
                        assert(before[k2] == s);
                        assert(k2 != i);
                    }
                    if self.sessions@.contains_key(s) {
                        assert(before.contains(s));
                        let k = choose|k: int| 0 <= k < before.len() && before[k] == s;
                        assert(k != i);
                        let k2 = if k < i { k } else { k - 1 };
                        assert(self.ids@[k2] == s);
                    }
                }
            }
        }
        Ok(entry.stream)
    }

    /// Decide the parameters of a new stream of a session whose device applied
    /// `input_channels` input channels (`None`: the device is not configured), and reserve
    /// its stream id. A session that already streams switches over: once planned, its
    /// running stream is detached (the device loop keeps running for the new one). The new
    /// stream is recorded by [`Sessions::attach`] once it runs.
    pub fn plan_stream(
        &mut self,
        session_id: u64,
        input_channels: Option<usize>,
        kind: StreamKind,
        block_frames: u32,
        points: u16,
    ) -> (r: Result<StreamPlan, EngineError>)
        requires
            old(self).wf(),
            old(self).next_stream() < u32::MAX,
        ensures
            final(self).wf(),
            final(self).next_session() == old(self).next_session(),
            ({
                let present = old(self).sessions().contains_key(session_id);
                let entry = old(self).sessions()[session_id];
                let n = input_channels.unwrap();
                let ready = present && input_channels is Some && n % 0x1_0000 != 0;
                &&& !present ==> (r matches Err(EngineError::NoSuchSession(x)) && x == session_id)
                &&& present && input_channels is None ==> (r matches Err(EngineError::Device(DeviceError::NotConfigured)))
                &&& present && input_channels is Some && n % 0x1_0000 == 0 ==> (r matches Err(EngineError::BadRequest(m))
                    && m@ == "device has no input channel"@)
                &&& ready ==> planned(
                    r,
                    old(self).next_stream(),
                    kind,
                    block_frames,
                    n,
                    points,
                    entry.stream,
                ) && final(self).next_stream() == old(self).next_stream() + 1
                &&& !ready ==> final(self).next_stream() == old(self).next_stream()
                &&& r is Err ==> final(self).sessions() == old(self).sessions() && final(self).owners() == old(self).owners()
                &&& r is Ok ==> final(self).sessions() == old(self).sessions().insert(
                    session_id,
                    SessionEntry { stream: None, measuring: entry.measuring },
                ) && final(self).owners() == match entry.stream {
                    Some(t) => old(self).owners().remove(t),
                    None => old(self).owners(),
                }
            }),
    {
        let entry = match self.sessions.get(&session_id) {
            Some(e) => *e,
            None => return Err(EngineError::NoSuchSession(session_id)),
        };
        let n = match input_channels {
            Some(n) => n,
            None => return Err(EngineError::Device(DeviceError::NotConfigured)),
        };
        let block_frames: u32 = if block_frames == 0 { 4096 } else { block_frames };
        let channels: u16 = (n % 0x1_0000) as u16;
        if channels == 0 {
            return Err(EngineError::BadRequest(String::from_str("device has no input channel")));
        }
        let stream_id = self.next_stream;
        self.next_stream = self.next_stream + 1;
        let values_per_channel: u16 = match kind {
            StreamKind::Levels => 2,
            StreamKind::RawInput => {
                if block_frames > 0xffff {
                    return Err(EngineError::BadRequest(String::from_str("block_frames > 65535")));
                }
                block_frames as u16
            },
            StreamKind::Rta | StreamKind::Scope => points,
        };
        if let Some(t) = entry.stream {
            self.owners.remove(&t);
        }
        self.sessions.insert(session_id, SessionEntry { stream: None, measuring: entry.measuring });
        proof {
            assert forall|s: u64| #[trigger] self.sessions@.contains_key(s) <==> self.ids@.contains(s) by {
                assert(old(self).sessions@.contains_key(s) <==> old(self).ids@.contains(s));
            }
        }
        Ok(StreamPlan { stream_id, block_frames, channels, values_per_channel, replaces: entry.stream })
    }

    /// Record that `stream_id` now runs for `session_id`.
    pub fn attach(&mut self, session_id: u64, stream_id: u32)
        requires
            old(self).wf(),
            old(self).sessions().contains_key(session_id),
            old(self).sessions()[session_id].stream is None,
            !old(self).owners().contains_key(stream_id),
            1 <= stream_id < old(self).next_stream(),
        ensures
            final(self).wf(),
            final(self).sessions() == old(self).sessions().insert(
                session_id,
                SessionEntry { stream: Some(stream_id), measuring: old(self).sessions()[session_id].measuring },
            ),
            final(self).owners() == old(self).owners().insert(stream_id, session_id),
            final(self).next_session() == old(self).next_session(),
            final(self).next_stream() == old(self).next_stream(),
    {
        let measuring = match self.sessions.get(&session_id) {
            Some(e) => e.measuring,
            None => false,
        };
        self.sessions.insert(session_id, SessionEntry { stream: Some(stream_id), measuring });
        self.owners.insert(stream_id, session_id);
        proof {
            assert forall|s: u64| #[trigger] self.sessions@.contains_key(s) <==> self.ids@.contains(s) by {
                assert(old(self).sessions@.contains_key(s) <==> old(self).ids@.contains(s));
            }
        }
    }

    /// Detach a running stream from its session; returns the session, for the caller to stop
    /// the device stream.
    pub fn detach(&mut self, stream_id: u32) -> (r: Result<u64, EngineError>)
        requires
            old(self).wf(),
        ensures
            final(self).wf(),
            !old(self).owners().contains_key(stream_id) ==> (r matches Err(EngineError::NoSuchStream(x)) && x == stream_id)
                && final(self).sessions() == old(self).sessions() && final(self).owners() == old(self).owners(),
            old(self).owners().contains_key(stream_id) ==> (r matches Ok(s) && s == old(self).owners()[stream_id]
                && final(self).owners() == old(self).owners().remove(stream_id) && final(self).sessions()
                == old(self).sessions().insert(
                s,
                SessionEntry { stream: None, measuring: old(self).sessions()[s].measuring },
            )),
            final(self).next_session() == old(self).next_session(),
            final(self).next_stream() == old(self).next_stream(),
    {
        let session_id = match self.owners.remove(&stream_id) {
            Some(s) => s,
            None => return Err(EngineError::NoSuchStream(stream_id)),
        };
        let measuring = match self.sessions.get(&session_id) {
            Some(e) => e.measuring,
            None => false,
        };
        self.sessions.insert(session_id, SessionEntry { stream: None, measuring });
        proof {
            assert forall|s: u64| #[trigger] self.sessions@.contains_key(s) <==> self.ids@.contains(s) by {
                assert(old(self).sessions@.contains_key(s) <==> old(self).ids@.contains(s));
            }
        }
        Ok(session_id)
    }

    /// Claim a session for a one-shot measurement: refused while it streams or measures.
    pub fn claim_measure(&mut self, session_id: u64) -> (r: Result<(), EngineError>)
        requires
            old(self).wf(),
        ensures
            final(self).wf(),
            !old(self).sessions().contains_key(session_id) ==> (r matches Err(EngineError::NoSuchSession(x)) && x == session_id),
            old(self).sessions().contains_key(session_id) && (old(self).sessions()[session_id].stream is Some
                || old(self).sessions()[session_id].measuring) ==> (r matches Err(EngineError::StreamRunning(x))
                && x == session_id),
            r is Ok ==> old(self).sessions().contains_key(session_id) && final(self).sessions() == old(self).sessions().insert(
                session_id,
                SessionEntry { stream: None, measuring: true },
            ),
            r is Err ==> final(self).sessions() == old(self).sessions(),
            old(self).sessions().contains_key(session_id) && old(self).sessions()[session_id].stream is None
                && !old(self).sessions()[session_id].measuring ==> r is Ok,
            final(self).owners() == old(self).owners(),
            final(self).next_session() == old(self).next_session(),
            final(self).next_stream() == old(self).next_stream(),
    {
        let entry = match self.sessions.get(&session_id) {
            Some(e) => *e,
            None => return Err(EngineError::NoSuchSession(session_id)),
        };
        if entry.stream.is_some() || entry.measuring {
            return Err(EngineError::StreamRunning(session_id));
        }
        self.sessions.insert(session_id, SessionEntry { stream: None, measuring: true });
        proof {
            assert forall|s: u64| #[trigger] self.sessions@.contains_key(s) <==> self.ids@.contains(s) by {
                assert(old(self).sessions@.contains_key(s) <==> old(self).ids@.contains(s));
            }
        }
        Ok(())
    }

    /// Release a measurement claim (nothing happens for a session closed meanwhile).
    pub fn end_measure(&mut self, session_id: u64)
        requires
            old(self).wf(),
        ensures
            final(self).wf(),
            old(self).sessions().contains_key(session_id) ==> final(self).sessions() == old(self).sessions().insert(
                session_id,
                SessionEntry { stream: old(self).sessions()[session_id].stream, measuring: false },
            ),
            !old(self).sessions().contains_key(session_id) ==> final(self).sessions() == old(self).sessions(),
            final(self).owners() == old(self).owners(),
            final(self).next_session() == old(self).next_session(),
            final(self).next_stream() == old(self).next_stream(),
    {
        let stream = match self.sessions.get(&session_id) {
            Some(e) => e.stream,
            None => return,
        };
        self.sessions.insert(session_id, SessionEntry { stream, measuring: false });
        proof {
            assert forall|s: u64| #[trigger] self.sessions@.contains_key(s) <==> self.ids@.contains(s) by {
                assert(old(self).sessions@.contains_key(s) <==> old(self).ids@.contains(s));
            }
        }
    }

    /// Every open session (for shutdown), each once.
    /// End a measurement, whatever became of it: the claim on the session is released and
    /// the measurement's outcome is handed back unchanged.
    pub fn finish_measure<T>(&mut self, session_id: u64, outcome: Result<T, EngineError>) -> (r: Result<T, EngineError>)
        requires
            old(self).wf(),
        ensures
            final(self).wf(),
            r == outcome,
            old(self).sessions().contains_key(session_id) ==> final(self).sessions() == old(self).sessions().insert(
                session_id,
                SessionEntry { stream: old(self).sessions()[session_id].stream, measuring: false },
            ),
            !old(self).sessions().contains_key(session_id) ==> final(self).sessions() == old(self).sessions(),
            final(self).owners() == old(self).owners(),
            final(self).next_session() == old(self).next_session(),
            final(self).next_stream() == old(self).next_stream(),
    {
        self.end_measure(session_id);
        outcome
    }

    /// The id the next session gets.
    pub fn next_session_id(&self) -> (r: u64)
        ensures
            r == self.next_session(),
    {
        self.next_session
    }

    /// The id the next stream gets.
    pub fn next_stream_id(&self) -> (r: u32)
        ensures
            r == self.next_stream(),
    {
        self.next_stream
    }

    pub fn session_ids(&self) -> (v: Vec<u64>)
        requires
            self.wf(),
        ensures
            v@.no_duplicates(),
            forall|s: u64| #[trigger] v@.contains(s) <==> self.sessions().contains_key(s),
    {
        vstd::slice::slice_to_vec(self.ids.as_slice())
    }
}

/// Session ids are never reused: a session opened after another one gets a larger id.
pub proof fn lemma_session_ids_increase(a: Sessions, b: Sessions, c: Sessions, id1: u64, id2: u64)
    requires
        id1 == a.next_session() && b.next_session() == id1 + 1,
        b.next_session() <= c.next_session(),
        id2 == c.next_session(),
    ensures
        id1 < id2,
{
}

/// Channel-major values of an interleaved block: value `c·frames + i` is sample `i` of
/// channel `c`; positions past the samples of the block hold `zero`.
pub open spec fn channel_major<S>(samples: Seq<S>, channels: nat, frames: nat, zero: S) -> Seq<S> {
    Seq::new(
        channels * frames,
        |k: int|
            {
                let c = k / frames as int;
                let i = k % frames as int;
                if i < samples.len() as int / channels as int {
                    samples[i * channels + c]
                } else {
                    zero
                }
            },
    )
}

/// Transpose an interleaved block to channel-major order (`frames` values per channel).
pub fn interleaved_to_channel_major<S: Copy>(samples: &[S], channels: usize, frames: usize, zero: S) -> (r: Vec<S>)
    requires
        channels > 0,
        channels * frames <= usize::MAX,
        samples@.len() as int / channels as int <= frames,
    ensures
        r@ == channel_major(samples@, channels as nat, frames as nat, zero),
{
    let total = channels * frames;
    let slen = samples.len();
    let complete = slen / channels;
    let mut values: Vec<S> = Vec::with_capacity(total);
    let mut k: usize = 0;
    while k < total
        invariant
            total == channels * frames,
            channels > 0,
            complete == samples@.len() as int / channels as int,
            complete <= frames,
            slen == samples@.len(),
            k <= total,
            values@.len() == k,
            forall|j: int| 0 <= j < k ==> #[trigger] values@[j] == channel_major(samples@, channels as nat, frames as nat, zero)[j],
        decreases total - k,
    {
        let c = k / frames;
        let i = k % frames;
        proof {
            assert(frames > 0) by (nonlinear_arith)
                requires
                    k < channels * frames,
            ;
            assert(c < channels) by (nonlinear_arith)
                requires
                    k < channels * frames,
                    c == k / frames,
                    frames > 0,
            ;
        }
        if i < complete {
            proof {
                assert(i * channels + c < samples@.len()) by (nonlinear_arith)
                    requires
                        i < samples@.len() as int / channels as int,
                        c < channels,
                        channels > 0,
                ;
            }
            values.push(samples[i * channels + c]);
        } else {
            values.push(zero);
        }
        k = k + 1;
    }
    assert(values@ =~= channel_major(samples@, channels as nat, frames as nat, zero));
    values
}

/// The frame a RAW_INPUT stream emits for a captured block (samples as `f32` bit patterns).
pub fn raw_frame(block: &InputBlock<u32>, stream_id: u32, seq: u64) -> (f: Frame)
    requires
        block.channels > 0,
        block.channels as int * block.frames as int <= usize::MAX,
        block.samples@.len() as int / block.channels as int <= block.frames,
    ensures
        f.stream_id == stream_id,
        f.seq == seq,
        f.first_frame == block.first_frame,
        f.channels == block.channels,
        f.values_per_channel == block.frames as u16,
        f.values@ == channel_major(block.samples@, block.channels as nat, block.frames as nat, 0u32),
{
    let values = interleaved_to_channel_major(
        block.samples.as_slice(),
        block.channels as usize,
        block.frames as usize,
        0u32,
    );
    Frame {
        stream_id,
        seq,
        first_frame: block.first_frame,
        channels: block.channels,
        values_per_channel: block.frames as u16,
        values,
    }
}

/// The frames of one stream, numbered 0, 1, 2, … in the order they go out.
pub struct StreamFrames {
    stream_id: u32,
    seq: u64,
}

impl StreamFrames {
    pub closed spec fn stream_id(&self) -> u32 {
        self.stream_id
    }

    /// Frames sent so far (the number of the next one).
    pub closed spec fn sent(&self) -> u64 {
        self.seq
    }

    pub fn new(stream_id: u32) -> (f: StreamFrames)
        ensures
            f.stream_id() == stream_id,
            f.sent() == 0,
    {
        StreamFrames { stream_id, seq: 0 }
    }

    pub fn sent_count(&self) -> (r: u64)
        ensures
            r == self.sent(),
    {
        self.seq
    }

    /// The frame of a RAW_INPUT stream for a captured block.
    pub fn raw(&mut self, block: &InputBlock<u32>) -> (f: Frame)
        requires
            old(self).sent() < u64::MAX,
            block.channels > 0,
            block.channels as int * block.frames as int <= usize::MAX,
            block.samples@.len() as int / block.channels as int <= block.frames,
        ensures
            final(self).stream_id() == old(self).stream_id(),
            final(self).sent() == old(self).sent() + 1,
            f.stream_id == old(self).stream_id(),
            f.seq == old(self).sent(),
            f.first_frame == block.first_frame,
            f.channels == block.channels,
            f.values_per_channel == block.frames as u16,
            f.values@ == channel_major(block.samples@, block.channels as nat, block.frames as nat, 0u32),
    {
        let f = raw_frame(block, self.stream_id, self.seq);
        self.seq = self.seq + 1;
        f
    }

    /// The frame of an analyzer reading (levels, spectrum, scope).
    pub fn reading(&mut self, first_frame: u64, channels: u16, values_per_channel: u16, values: Vec<u32>) -> (f: Frame)
        requires
            old(self).sent() < u64::MAX,
        ensures
            final(self).stream_id() == old(self).stream_id(),
            final(self).sent() == old(self).sent() + 1,
            f == (Frame {
                stream_id: old(self).stream_id(),
                seq: old(self).sent(),
                first_frame,
                channels,
                values_per_channel,
                values,
            }),
    {
        let f = Frame { stream_id: self.stream_id, seq: self.seq, first_frame, channels, values_per_channel, values };
        self.seq = self.seq + 1;
        f
    }
}

/// The event a block reports: an overrun when the backend dropped blocks before it.
pub fn overrun_event<S>(block: &InputBlock<S>, stream_id: u32) -> (e: Option<Event>)
    ensures
        block.dropped_before > 0 ==> e == Some(Event::StreamOverrun { stream_id, dropped_blocks: block.dropped_before }),
        block.dropped_before == 0 ==> e is None,
{
    if block.dropped_before > 0 {
        Some(Event::StreamOverrun { stream_id, dropped_blocks: block.dropped_before })
    } else {
        None
    }
}

/// FFT length of a measurement request: 0 means the default, 65536; it must be a power of
/// two of at least 256.
pub open spec fn is_power_of_two(n: nat) -> bool
    decreases n,
{
    if n == 1 {
        true
    } else if n == 0 || n % 2 == 1 {
        false
    } else {
        is_power_of_two(n / 2)
    }
}

fn power_of_two(n: usize) -> (r: bool)
    ensures
        r == is_power_of_two(n as nat),
    decreases n,
{
    if n == 1 {
        true
    } else if n == 0 || n % 2 == 1 {
        false
    } else {
        power_of_two(n / 2)
    }
}

/// Validate the FFT length and the number of averages of a measurement request.
pub fn measure_params(fft_length: usize, averages: u32) -> (r: Result<(usize, u32), EngineError>)
    ensures
        ({
            let n = if fft_length == 0 { 65_536 } else { fft_length as nat };
            &&& (is_power_of_two(n) && n >= 256) ==> (r matches Ok((len, avg)) && len == n && avg == if averages == 0 { 4 } else { averages })
            &&& !(is_power_of_two(n) && n >= 256) ==> (r matches Err(EngineError::BadRequest(m))
                && m@ == "fft_length must be a power of two >= 256"@)
        }),
{
    let n: usize = if fft_length == 0 { 65_536 } else { fft_length };
    if !power_of_two(n) || n < 256 {
        return Err(EngineError::BadRequest(String::from_str("fft_length must be a power of two >= 256")));
    }
    let averages: u32 = if averages == 0 { 4 } else { averages };
    Ok((n, averages))
}

/// A measurement needs at least one input channel.
pub fn measure_channels(input_channels: usize) -> (r: Result<usize, EngineError>)
    ensures
        input_channels == 0 ==> (r matches Err(EngineError::BadRequest(m)) && m@ == "device has no input channel"@),
        input_channels > 0 ==> (r matches Ok(n) && n == input_channels),
{
    if input_channels == 0 {
        Err(EngineError::BadRequest(String::from_str("device has no input channel")))
    } else {
        Ok(input_channels)
    }
}

/// Highest harmonic a THD measurement takes in: 0 means the default, 9.
pub fn effective_max_harmonic(max_harmonic: u32) -> (r: u32)
    ensures
        r == if max_harmonic == 0 { 9 } else { max_harmonic },
{
    if max_harmonic == 0 {
        9
    } else {
        max_harmonic
    }
}

/// Every `channels`-th sample of an interleaved buffer from `c` on: channel `c`.
pub open spec fn strided<S>(samples: Seq<S>, channels: nat, c: nat) -> Seq<S> {
    Seq::new(
        if c < samples.len() { ((samples.len() - c - 1) as nat / channels + 1) as nat } else { 0 },
        |i: int| samples[c + i * channels],
    )
}

/// The samples of channel `c` of an interleaved buffer `channels` wide.
pub fn channel_samples<S: Copy>(samples: &[S], channels: usize, c: usize) -> (r: Vec<S>)
    requires
        channels > 0,
    ensures
        r@ == strided(samples@, channels as nat, c as nat),
{
    let n = samples.len();
    let mut out: Vec<S> = Vec::new();
    if c >= n {
        return out;
    }
    let count = (n - c - 1) / channels + 1;
    let mut i: usize = 0;
    while i < count
        invariant
            n == samples@.len(),
            c < n,
            channels > 0,
            count == (n - c - 1) / channels as int + 1,
            i <= count,
            out@.len() == i,
            forall|j: int| 0 <= j < i ==> #[trigger] out@[j] == samples@[c + j * channels],
        decreases count - i,
    {
        proof {
            assert(c + i * channels < n) by (nonlinear_arith)
                requires
                    i < count,
                    count == (n - c - 1) / channels as int + 1,
                    channels > 0,
                    c < n,
            ;
        }
        out.push(samples[c + i * channels]);
        i = i + 1;
    }
    proof {
        assert(out@ =~= strided(samples@, channels as nat, c as nat));
    }
    out
}

/// What a measurement does with a captured block.
#[derive(Debug, Clone, Copy, PartialEq, Eq, Structural)]
pub enum CaptureStep {
    /// The first block (range relays, generator ramp-in, loopback latency): dropped.
    Discard,
    /// A block to analyse; more are needed.
    Analyze,
    /// The block that completes the average: analyse it, then stop the capture.
    AnalyzeLast,
}

/// Progress of a measurement's capture: the first block is discarded, then `averages`
/// full-length blocks are analysed.
pub struct CaptureProgress {
    averages: u32,
    skipped: bool,
    collected: u32,
}

impl CaptureProgress {
    pub closed spec fn averages(&self) -> u32 {
        self.averages
    }

    /// Whether the first block has gone by.
    pub closed spec fn skipped(&self) -> bool {
        self.skipped
    }

    /// Blocks analysed so far.
    pub closed spec fn analysed(&self) -> u32 {
        self.collected
    }

    /// Whether the capture has all it needs.
    pub open spec fn complete(&self) -> bool {
        self.skipped() && self.analysed() >= self.averages()
    }

    pub fn new(averages: u32) -> (p: CaptureProgress)
        requires
            averages >= 1,
        ensures
            p.averages() == averages,
            !p.skipped(),
            p.analysed() == 0,
    {
        CaptureProgress { averages, skipped: false, collected: 0 }
    }

    /// A block arrived: what to do with it.
    pub fn on_block(&mut self) -> (step: CaptureStep)
        requires
            !old(self).complete(),
            old(self).analysed() < old(self).averages(),
        ensures
            final(self).averages() == old(self).averages(),
            final(self).skipped(),
            !old(self).skipped() ==> step == CaptureStep::Discard && final(self).analysed() == old(self).analysed(),
            old(self).skipped() ==> final(self).analysed() == old(self).analysed() + 1,
            old(self).skipped() ==> step == if final(self).analysed() >= old(self).averages() {
                CaptureStep::AnalyzeLast
            } else {
                CaptureStep::Analyze
            },
            final(self).analysed() <= final(self).averages(),
            final(self).complete() <==> step == CaptureStep::AnalyzeLast,
    {
        if !self.skipped {
            self.skipped = true;
            return CaptureStep::Discard;
        }
        self.collected = self.collected + 1;
        if self.collected >= self.averages {
            CaptureStep::AnalyzeLast
        } else {
            CaptureStep::Analyze
        }
    }

    pub fn collected(&self) -> (r: u32)
        ensures
            r == self.analysed(),
    {
        self.collected
    }
}

} // verus!
