//! The connection layer of the sunday server: per-connection line
//! buffering, and the registry of live connections that the readiness
//! reactor drives. The reactor itself performs the socket calls and hands
//! their outcomes in as events; everything it must do in response comes
//! back out as an action.

use crate::sunday::{parse_sunday_line, spec_parse, Command};
use crate::sunday_dispatcher::{initial_session, spec_dispatch, SessionModel, SundayDispatcher};
use vstd::prelude::*;

verus! {

/// The first token handed to a connection; smaller tokens are reserved
/// for the listening socket.
pub const TOKEN_START: usize = 2;

/// The most connections the registry will hold at once.
pub const MAX_CONNS: usize = 1024;

/// The outcome of one readiness-driven read attempt on a connection's
/// socket, as the reactor observed it.
pub enum ReadEvent {
    /// The read returned these bytes.
    Data(Vec<u8>),
    /// The read returned zero bytes: the peer closed the stream.
    Eof,
    /// The socket was not ready after all; nothing to do yet.
    WouldBlock,
    /// The read failed.
    ReadError,
}

/// The mathematical model of a read event.
pub enum ReadEventModel {
    Data(Seq<u8>),
    Eof,
    WouldBlock,
    ReadError,
}

impl DeepView for ReadEvent {
    type V = ReadEventModel;

    open spec fn deep_view(&self) -> ReadEventModel {
        match self {
            ReadEvent::Data(d) => ReadEventModel::Data(d@),
            ReadEvent::Eof => ReadEventModel::Eof,
            ReadEvent::WouldBlock => ReadEventModel::WouldBlock,
            ReadEvent::ReadError => ReadEventModel::ReadError,
        }
    }
}

/// What the reactor must do for a connection after it handled readiness.
#[derive(Debug, PartialEq)]
pub enum ConnAction {
    /// Write these bytes to the socket, then re-arm read interest.
    Respond(Vec<u8>),
    /// Re-arm read interest; nothing to write.
    Rearm,
    /// The connection is closed; never touch its socket again.
    Closed,
}

/// The mathematical model of a connection action.
pub enum ConnActionModel {
    Respond(Seq<u8>),
    Rearm,
    Closed,
}

impl DeepView for ConnAction {
    type V = ConnActionModel;

    open spec fn deep_view(&self) -> ConnActionModel {
        match self {
            ConnAction::Respond(d) => ConnActionModel::Respond(d@),
            ConnAction::Rearm => ConnActionModel::Rearm,
            ConnAction::Closed => ConnActionModel::Closed,
        }
    }
}

/// One live connection: the bytes received but not yet recognized as a
/// complete line, the closed flag, and the session. The socket itself
/// stays with the reactor, keyed by the same token. The protocol sets no
/// line-length cap, so the buffer of a peer that never sends a terminator
/// grows without bound; bounding it is left to the environment.
pub struct Connection {
    pub token: usize,
    pub buffer: Vec<u8>,
    pub closed: bool,
    pub dispatcher: SundayDispatcher,
}

/// The mathematical model of a connection.
pub struct ConnModel {
    pub token: int,
    pub buffer: Seq<u8>,
    pub closed: bool,
    pub session: SessionModel,
}

impl View for Connection {
    type V = ConnModel;

    open spec fn view(&self) -> ConnModel {
        ConnModel {
            token: self.token as int,
            buffer: self.buffer@,
            closed: self.closed,
            session: self.dispatcher@,
        }
    }
}

/// The state of a connection that has just been accepted.
pub open spec fn spec_new_conn(token: int) -> ConnModel {
    ConnModel { token, buffer: Seq::empty(), closed: false, session: initial_session() }
}

/// The connection state and reactor action that one read event produces:
/// end-of-stream and read errors close the connection; data is appended
/// to the buffer, and when the buffer then ends in a line feed the whole
/// buffer is parsed as one line, dispatched to the session, and cleared,
/// with the response owed back to the peer.
pub open spec fn spec_conn_step(c: ConnModel, ev: ReadEventModel) -> (ConnModel, ConnActionModel) {
    match ev {
        ReadEventModel::Eof => ((ConnModel { closed: true, ..c }), ConnActionModel::Closed),
        ReadEventModel::ReadError => ((ConnModel { closed: true, ..c }), ConnActionModel::Closed),
        ReadEventModel::WouldBlock => (c, ConnActionModel::Rearm),
        ReadEventModel::Data(d) => {
            let b = c.buffer + d;
            if b.len() > 0 && b[b.len() - 1] == ('\n' as u8) {
                let (s2, resp) = spec_dispatch(c.session, spec_parse(b));
                (
                    (ConnModel { buffer: Seq::empty(), session: s2, ..c }),
                    ConnActionModel::Respond(vstd::utf8::encode_utf8(resp)),
                )
            } else {
                ((ConnModel { buffer: b, ..c }), ConnActionModel::Rearm)
            }
        },
    }
}

impl Connection {
    /// A fresh connection under the given token.
    pub fn new(token: usize) -> (r: Connection)
        ensures
            r@ == spec_new_conn(token as int),
    {
        Connection {
            token,
            buffer: Vec::new(),
            closed: false,
            dispatcher: SundayDispatcher::new(),
        }
    }

    /// Feed one read outcome into the connection: buffer data, recognize a
    /// complete line, dispatch it, and report what the reactor must do.
    pub fn read(&mut self, ev: ReadEvent) -> (r: ConnAction)
        ensures
            final(self)@ == spec_conn_step(old(self)@, ev.deep_view()).0,
            r.deep_view() == spec_conn_step(old(self)@, ev.deep_view()).1,
    {
        match ev {
            ReadEvent::Eof => {
                self.closed = true;
                ConnAction::Closed
            },
            ReadEvent::ReadError => {
                self.closed = true;
                ConnAction::Closed
            },
            ReadEvent::WouldBlock => ConnAction::Rearm,
            ReadEvent::Data(mut d) => {
                self.buffer.append(&mut d);
                let n = self.buffer.len();
                if n > 0 && self.buffer[n - 1] == ('\n' as u8) {
                    let line: Option<Command> = parse_sunday_line(self.buffer.as_slice());
                    let resp = self.dispatcher.handle_command(line);
                    self.buffer.clear();
                    ConnAction::Respond(resp)
                } else {
                    ConnAction::Rearm
                }
            },
        }
    }
}

/// The registry of live connections, keyed by token: entries are inserted
/// on accept and removed when a connection's closed flag becomes true
/// after a readiness callback. No two live entries share a token; a token
/// is reused only after its entry was removed.
pub struct Registry {
    pub slots: Vec<Option<Connection>>,
}

impl View for Registry {
    type V = Map<int, ConnModel>;

    open spec fn view(&self) -> Map<int, ConnModel> {
        Map::new(
            |t: int|
                TOKEN_START <= t < TOKEN_START + self.slots@.len() && self.slots@[t
                    - TOKEN_START] is Some,
            |t: int| self.slots@[t - TOKEN_START].unwrap()@,
        )
    }
}

/// The registry state and action that handling readiness on a token
/// produces: the token's connection takes the read event, and when it has
/// thereby become closed its entry leaves the registry. A token with no
/// entry is left alone: the state is unchanged and no read is attempted.
pub open spec fn spec_ready(m: Map<int, ConnModel>, token: int, ev: ReadEventModel) -> (
    Map<int, ConnModel>,
    ConnActionModel,
) {
    if !m.contains_key(token) {
        (m, ConnActionModel::Closed)
    } else {
        let (c2, act) = spec_conn_step(m[token], ev);
        if c2.closed {
            (m.remove(token), act)
        } else {
            (m.insert(token, c2), act)
        }
    }
}

impl Registry {
    /// The registry never outgrows its capacity.
    pub open spec fn wf(&self) -> bool {
        self.slots@.len() <= MAX_CONNS
    }

    /// An empty registry.
    pub fn new() -> (r: Registry)
        ensures
            r@ == Map::<int, ConnModel>::empty(),
            r.wf(),
    {
        let r = Registry { slots: Vec::new() };
        proof {
            assert(r@ =~= Map::<int, ConnModel>::empty());
        }
        r
    }

    /// Accept a new connection: place it in the lowest free slot and
    /// return its token, or `None` when the registry is full.
    pub fn insert(&mut self) -> (r: Option<usize>)
        requires
            old(self).wf(),
        ensures
            final(self).wf(),
            match r {
                Some(token) => {
                    &&& TOKEN_START <= token < TOKEN_START + MAX_CONNS
                    &&& !old(self)@.contains_key(token as int)
                    &&& forall|t: int|
                        TOKEN_START <= t < token ==> old(self)@.contains_key(t)
                    &&& final(self)@ == old(self)@.insert(
                        token as int,
                        spec_new_conn(token as int),
                    )
                },
                None => final(self)@ == old(self)@ && (forall|t: int|
                    TOKEN_START <= t < TOKEN_START + MAX_CONNS ==> old(self)@.contains_key(t)),
            },
    {
        let n = self.slots.len();
        let mut i: usize = 0;
        while i < n && self.slots[i].is_some()
            invariant
                n == self.slots@.len() <= MAX_CONNS,
                i <= n,
                forall|k: int| 0 <= k < i ==> self.slots@[k] is Some,
            decreases n - i,
        {
            i = i + 1;
        }
        if i < n {
            let token = i + TOKEN_START;
            let slot = vstd::std_specs::vec::vec_index_mut(&mut self.slots, i);
            *slot = Some(Connection::new(token));
            proof {
                assert(self@ =~= old(self)@.insert(token as int, spec_new_conn(token as int)));
            }
            return Some(token);
        }
        if n < MAX_CONNS {
            let token = n + TOKEN_START;
            self.slots.push(Some(Connection::new(token)));
            proof {
                assert(!old(self)@.contains_key(token as int));
                assert(self@ =~= old(self)@.insert(token as int, spec_new_conn(token as int)));
            }
            Some(token)
        } else {
            proof {
                assert(forall|t: int|
                    TOKEN_START <= t < TOKEN_START + MAX_CONNS ==> old(self)@.contains_key(t));
            }
            None
        }
    }

    /// Remove a connection. Removing a token with no entry changes
    /// nothing, so removal is idempotent.
    pub fn remove(&mut self, token: usize) -> (was_present: bool)
        ensures
            final(self)@ == old(self)@.remove(token as int),
            was_present == old(self)@.contains_key(token as int),
            final(self).slots@.len() == old(self).slots@.len(),
    {
        if token < TOKEN_START {
            proof {
                assert(self@ =~= old(self)@.remove(token as int));
            }
            return false;
        }
        let i = token - TOKEN_START;
        if i >= self.slots.len() {
            proof {
                assert(self@ =~= old(self)@.remove(token as int));
            }
            return false;
        }
        let slot = vstd::std_specs::vec::vec_index_mut(&mut self.slots, i);
        let taken = slot.take();
        let was_present = taken.is_some();
        proof {
            assert(self@ =~= old(self)@.remove(token as int));
        }
        was_present
    }

    /// Look a connection up by its token.
    pub fn get(&self, token: usize) -> (r: Option<&Connection>)
        ensures
            match r {
                Some(c) => self@.contains_key(token as int) && c@ == self@[token as int],
                None => !self@.contains_key(token as int),
            },
    {
        if token < TOKEN_START {
            return None;
        }
        let i = token - TOKEN_START;
        if i >= self.slots.len() {
            return None;
        }
        self.slots[i].as_ref()
    }

    /// Handle readiness on a connection token: feed the event to that
    /// connection and, when the connection has become closed, remove it
    /// from the registry. A token with no entry draws no read at all.
    pub fn ready(&mut self, token: usize, ev: ReadEvent) -> (r: ConnAction)
        ensures
            final(self)@ == spec_ready(old(self)@, token as int, ev.deep_view()).0,
            r.deep_view() == spec_ready(old(self)@, token as int, ev.deep_view()).1,
            final(self).slots@.len() == old(self).slots@.len(),
    {
        if token < TOKEN_START {
            return ConnAction::Closed;
        }
        let i = token - TOKEN_START;
        if i >= self.slots.len() {
            return ConnAction::Closed;
        }
        let slot = vstd::std_specs::vec::vec_index_mut(&mut self.slots, i);
        let taken = slot.take();
        let act = match taken {
            None => ConnAction::Closed,
            Some(mut c) => {
                let a = c.read(ev);
                if c.closed {
                    *slot = None;
                } else {
                    *slot = Some(c);
                }
                a
            },
        };
        proof {
            let t = token as int;
            if !old(self)@.contains_key(t) {
                assert(self@ =~= old(self)@);
            } else {
                let (c2, _a) = spec_conn_step(old(self)@[t], ev.deep_view());
                if c2.closed {
                    assert(self@ =~= old(self)@.remove(t));
                } else {
                    assert(self@ =~= old(self)@.insert(t, c2));
                }
            }
        }
        act
    }
}

/// A closed connection is removed from the registry exactly once: after
/// its removal the token has no entry, and removing it again changes
/// nothing.
pub proof fn lemma_remove_idempotent(m: Map<int, ConnModel>, token: int)
    ensures
        !m.remove(token).contains_key(token),
        m.remove(token).remove(token) == m.remove(token),
{
    assert(m.remove(token).remove(token) =~= m.remove(token));
}

/// Two simultaneous connections have independent state: handling
/// readiness on one token never changes any other token's entry, so
/// authenticating on one connection never authenticates another.
pub proof fn lemma_sessions_independent(
    m: Map<int, ConnModel>,
    token: int,
    ev: ReadEventModel,
    other: int,
)
    requires
        other != token,
    ensures
        spec_ready(m, token, ev).0.contains_key(other) == m.contains_key(other),
        m.contains_key(other) ==> spec_ready(m, token, ev).0[other] == m[other],
{
}

} // verus!
