//! What one API connection owns: the streams it started and the sessions it opened. Frames
//! of its own streams are pushed to it, events about them are forwarded, and its sessions
//! are closed when it goes away.

use vstd::prelude::*;
use crate::engine::Event;

verus! {

/// A list of ids, each at most once.
struct IdList {
    ids: Vec<u64>,
}

impl IdList {
    spec fn wf(&self) -> bool {
        self.ids@.no_duplicates()
    }

    fn new() -> (l: IdList)
        ensures
            l.wf(),
            l.ids@ == Seq::<u64>::empty(),
    {
        IdList { ids: Vec::new() }
    }

    fn position(&self, x: u64) -> (r: Option<usize>)
        ensures
            match r {
                Some(i) => i < self.ids@.len() && self.ids@[i as int] == x,
                None => !self.ids@.contains(x),
            },
    {
        let mut i: usize = 0;
        while i < self.ids.len()
            invariant
                i <= self.ids@.len(),
                forall|j: int| 0 <= j < i ==> self.ids@[j] != x,
            decreases self.ids@.len() - i,
        {
            if self.ids[i] == x {
                return Some(i);
            }
            i = i + 1;
        }
        None
    }

    fn has(&self, x: u64) -> (r: bool)
        ensures
            r == self.ids@.contains(x),
    {
        match self.position(x) {
            Some(i) => {
                assert(self.ids@[i as int] == x);
                true
            },
            None => false,
        }
    }

    fn add(&mut self, x: u64)
        requires
            old(self).wf(),
        ensures
            final(self).wf(),
            forall|y: u64| #[trigger] final(self).ids@.contains(y) <==> (old(self).ids@.contains(y) || y == x),
    {
        if self.has(x) {
            return;
        }
        let ghost before = self.ids@;
        self.ids.push(x);
        proof {
            assert(self.ids@ == before.push(x));
            assert forall|a: int, b: int| 0 <= a < b < self.ids@.len() implies self.ids@[a] != self.ids@[b] by {
                if b == before.len() {
                    assert(before.contains(before[a]));
                }
            }
            assert forall|y: u64| #[trigger] self.ids@.contains(y) <==> (before.contains(y) || y == x) by {
                if self.ids@.contains(y) && y != x {
                    let k = choose|k: int| 0 <= k < self.ids@.len() && self.ids@[k] == y;
                    assert(before[k] == y);
                }
                if before.contains(y) {
                    let k = choose|k: int| 0 <= k < before.len() && before[k] == y;
                    assert(self.ids@[k] == y);
                }
                if y == x {
                    assert(self.ids@[before.len() as int] == x);
                }
            }
        }
    }

    fn drop(&mut self, x: u64)
        requires
            old(self).wf(),
        ensures
            final(self).wf(),
            forall|y: u64| #[trigger] final(self).ids@.contains(y) <==> (old(self).ids@.contains(y) && y != x),
    {
        let i = match self.position(x) {
            Some(i) => i,
            None => return,
        };
        let ghost before = self.ids@;
        self.ids.remove(i);
        proof {
            assert(self.ids@ == before.remove(i as int));
            assert forall|a: int, b: int| 0 <= a < b < self.ids@.len() implies self.ids@[a] != self.ids@[b] by {
                let a2 = if a < i { a } else { a + 1 };
                let b2 = if b < i { b } else { b + 1 };
                assert(self.ids@[a] == before[a2]);
                assert(self.ids@[b] == before[b2]);
            }
            assert forall|y: u64| #[trigger] self.ids@.contains(y) <==> (before.contains(y) && y != x) by {
                if self.ids@.contains(y) {
                    let k = choose|k: int| 0 <= k < self.ids@.len() && self.ids@[k] == y;
                    let k2 = if k < i { k } else { k + 1 };
                    assert(before[k2] == y);
                    assert(k2 != i);
                }
                if before.contains(y) && y != x {
                    let k = choose|k: int| 0 <= k < before.len() && before[k] == y;
                    assert(k != i);
                    let k2 = if k < i { k } else { k - 1 };
                    assert(self.ids@[k2] == y);
                }
            }
        }
    }
}

/// The streams and sessions of one connection.
pub struct ConnectionBook {
    streams: IdList,
    sessions: IdList,
}

impl ConnectionBook {
    /// The streams this connection started and that have not ended.
    pub closed spec fn streams(&self) -> Set<u32> {
        Set::new(|t: u32| self.streams.ids@.contains(t as u64))
    }

    /// The sessions this connection opened and has not closed.
    pub closed spec fn sessions(&self) -> Set<u64> {
        Set::new(|s: u64| self.sessions.ids@.contains(s))
    }

    pub closed spec fn wf(&self) -> bool {
        &&& self.streams.wf()
        &&& self.sessions.wf()
        &&& forall|i: int| 0 <= i < self.streams.ids@.len() ==> #[trigger] self.streams.ids@[i] <= u32::MAX
    }

    pub fn new() -> (b: ConnectionBook)
        ensures
            b.wf(),
            b.streams() == Set::<u32>::empty(),
            b.sessions() == Set::<u64>::empty(),
    {
        let b = ConnectionBook { streams: IdList::new(), sessions: IdList::new() };
        assert(b.streams() =~= Set::<u32>::empty());
        assert(b.sessions() =~= Set::<u64>::empty());
        b
    }

    /// A session was opened on behalf of this connection.
    pub fn session_opened(&mut self, session_id: u64)
        requires
            old(self).wf(),
        ensures
            final(self).wf(),
            final(self).sessions() == old(self).sessions().insert(session_id),
            final(self).streams() == old(self).streams(),
    {
        self.sessions.add(session_id);
        assert(self.sessions() =~= old(self).sessions().insert(session_id));
        assert(self.streams() =~= old(self).streams());
    }

    /// A session of this connection was closed.
    pub fn session_closed(&mut self, session_id: u64)
        requires
            old(self).wf(),
        ensures
            final(self).wf(),
            final(self).sessions() == old(self).sessions().remove(session_id),
            final(self).streams() == old(self).streams(),
    {
        self.sessions.drop(session_id);
        assert(self.sessions() =~= old(self).sessions().remove(session_id));
        assert(self.streams() =~= old(self).streams());
    }

    /// A stream was started on behalf of this connection.
    pub fn stream_started(&mut self, stream_id: u32)
        requires
            old(self).wf(),
        ensures
            final(self).wf(),
            final(self).streams() == old(self).streams().insert(stream_id),
            final(self).sessions() == old(self).sessions(),
    {
        let ghost before = self.streams.ids@;
        self.streams.add(stream_id as u64);
        proof {
            assert forall|i: int| 0 <= i < self.streams.ids@.len() implies #[trigger] self.streams.ids@[i] <= u32::MAX by {
                let y = self.streams.ids@[i];
                assert(self.streams.ids@.contains(y));
                if y != stream_id as u64 {
                    let k = choose|k: int| 0 <= k < before.len() && before[k] == y;
                    assert(before[k] <= u32::MAX);
                }
            }
        }
        assert(self.streams() =~= old(self).streams().insert(stream_id));
        assert(self.sessions() =~= old(self).sessions());
    }

    /// A stream of this connection was stopped.
    pub fn stream_stopped(&mut self, stream_id: u32)
        requires
            old(self).wf(),
        ensures
            final(self).wf(),
            final(self).streams() == old(self).streams().remove(stream_id),
            final(self).sessions() == old(self).sessions(),
    {
        let ghost before = self.streams.ids@;
        self.streams.drop(stream_id as u64);
        proof {
            assert forall|i: int| 0 <= i < self.streams.ids@.len() implies #[trigger] self.streams.ids@[i] <= u32::MAX by {
                let y = self.streams.ids@[i];
                assert(self.streams.ids@.contains(y));
                let k = choose|k: int| 0 <= k < before.len() && before[k] == y;
                assert(before[k] <= u32::MAX);
            }
        }
        assert(self.streams() =~= old(self).streams().remove(stream_id));
        assert(self.sessions() =~= old(self).sessions());
    }

    /// Whether a frame of `stream_id` goes to this connection: only frames of its own streams.
    pub fn forward_frame(&self, stream_id: u32) -> (r: bool)
        ensures
            r == self.streams().contains(stream_id),
    {
        self.streams.has(stream_id as u64)
    }

    /// Take in an engine event; returns whether it is forwarded to this connection. The end
    /// of a stream forgets the stream and is not forwarded; an overrun is forwarded when the
    /// stream is this connection's; a range change when the session is this connection's.
    pub fn on_event(&mut self, e: Event) -> (forward: bool)
        requires
            old(self).wf(),
        ensures
            final(self).wf(),
            final(self).sessions() == old(self).sessions(),
            match e {
                Event::StreamEnded { stream_id } => !forward && final(self).streams() == old(self).streams().remove(
                    stream_id,
                ),
                Event::StreamOverrun { stream_id, .. } => forward == old(self).streams().contains(stream_id)
                    && final(self).streams() == old(self).streams(),
                Event::RangeChanged { session_id, .. } => forward == old(self).sessions().contains(session_id)
                    && final(self).streams() == old(self).streams(),
            },
    {
        match e {
            Event::StreamEnded { stream_id } => {
                self.stream_stopped(stream_id);
                false
            },
            Event::StreamOverrun { stream_id, .. } => self.forward_frame(stream_id),
            Event::RangeChanged { session_id, .. } => self.sessions.has(session_id),
        }
    }

    /// The sessions to close when the connection goes away, each once.
    pub fn on_close(&self) -> (v: Vec<u64>)
        requires
            self.wf(),
        ensures
            v@.no_duplicates(),
            forall|s: u64| #[trigger] v@.contains(s) <==> self.sessions().contains(s),
    {
        vstd::slice::slice_to_vec(self.sessions.ids.as_slice())
    }
}

} // verus!
