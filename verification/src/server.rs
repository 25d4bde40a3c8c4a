//! The server core: the connection table keyed by opaque identifiers, the
//! minting of identifiers, and the dispatch of readiness events.  The
//! listening socket, the poll loop and all I/O live outside; they hand this
//! type the accepted connections' events and bytes.

use vstd::prelude::*;

use crate::assoc::{
    assoc_get, assoc_remove, assoc_set, assoc_wf, lemma_get_found, lemma_get_none,
    lemma_remove_absent, lemma_remove_found, lemma_remove_get, lemma_remove_wf, lemma_set_found,
    lemma_set_get, lemma_set_wf,
};
use crate::connection::{
    conn_init, conn_wf, spec_on_data, spec_on_wrote, ConnModel, ConnState, Connection, Interest,
    UpgradeError,
};

verus! {

/// What the server decided for one readiness event.
#[derive(Clone, Copy, Debug, PartialEq, Eq, Structural)]
pub enum Dispatch {
    /// The identifier names no live connection; the event is ignored.
    Ignored,
    /// The connection lives on; re-arm it with this interest.
    Continue(Interest),
    /// The connection was removed from the table; close its socket.
    Dropped(UpgradeError),
}

/// The connection table and the identifier mint.
pub struct Server {
    clients: Vec<(usize, Connection)>,
    token_counter: usize,
}

impl View for Server {
    type V = Seq<(int, ConnModel)>;

    closed spec fn view(&self) -> Seq<(int, ConnModel)> {
        Seq::new(self.clients@.len(), |i: int| (self.clients@[i].0 as int, self.clients@[i].1@))
    }
}

impl Server {
    /// The most recently minted identifier.
    pub closed spec fn counter(&self) -> int {
        self.token_counter as int
    }

    /// Identifiers are distinct, every connection is well formed, and no
    /// identifier in the table exceeds the mint — so a fresh identifier can
    /// never collide with a live one, nor with one already dropped.
    pub open spec fn wf(&self) -> bool {
        &&& assoc_wf(self@)
        &&& forall|i: int| 0 <= i < self@.len() ==> conn_wf(#[trigger] self@[i].1)
        &&& forall|i: int| 0 <= i < self@.len() ==> 0 < #[trigger] self@[i].0 <= self.counter()
        &&& self.counter() >= 1
    }

    /// An empty table.  The mint is seeded above 0, the identifier
    /// conventionally borne by the listening socket, so no connection ever
    /// shares an identifier with it.
    pub fn new() -> (r: Server)
        ensures
            r.wf(),
            r@ == Seq::<(int, ConnModel)>::empty(),
            r.counter() == 1,
    {
        let r = Server { clients: Vec::new(), token_counter: 1 };
        proof {
            assert(r@ =~= Seq::<(int, ConnModel)>::empty());
        }
        r
    }

    /// Whether the identifier mint is exhausted, so that no further
    /// connection can be accepted.
    pub fn at_capacity(&self) -> (r: bool)
        ensures
            r == (self.counter() == usize::MAX),
    {
        self.token_counter == usize::MAX
    }

    /// The position of the connection with identifier `t`, if it lives.
    fn find(&self, t: usize) -> (r: Option<usize>)
        ensures
            match r {
                Some(i) => i < self@.len() && self@[i as int].0 == t as int && forall|j: int|
                    0 <= j < i ==> self@[j].0 != t as int,
                None => forall|j: int| 0 <= j < self@.len() ==> self@[j].0 != t as int,
            },
    {
        let mut i: usize = 0;
        while i < self.clients.len()
            invariant
                i <= self@.len(),
                self@.len() == self.clients@.len(),
                forall|j: int| 0 <= j < i ==> self@[j].0 != t as int,
            decreases self.clients@.len() - i,
        {
            if self.clients[i].0 == t {
                proof {
                    assert(self@[i as int].0 == self.clients@[i as int].0 as int);
                }
                return Some(i);
            }
            proof {
                assert(self@[i as int].0 == self.clients@[i as int].0 as int);
            }
            i += 1;
        }
        None
    }

    /// Mints a fresh identifier — greater than every identifier ever minted,
    /// so never one a live or dropped connection bore — and inserts a fresh
    /// connection under it.  The caller registers the accepted socket for
    /// read interest under this identifier.
    pub fn accept_client(&mut self) -> (t: usize)
        requires
            old(self).wf(),
            old(self).counter() < usize::MAX,
        ensures
            final(self).wf(),
            final(self).counter() == old(self).counter() + 1,
            t as int == final(self).counter(),
            assoc_get(old(self)@, t as int) is None,
            forall|i: int| 0 <= i < old(self)@.len() ==> old(self)@[i].0 < t as int,
            final(self)@ == assoc_set(old(self)@, t as int, conn_init()),
    {
        self.token_counter = self.token_counter + 1;
        let t = self.token_counter;
        proof {
            lemma_get_none(old(self)@, t as int);
            crate::assoc::lemma_set_absent(old(self)@, t as int, conn_init());
        }
        let c = Connection::new();
        let ghost before = self@;
        self.clients.push((t, c));
        proof {
            assert(self@ =~= before.push((t as int, conn_init())));
            lemma_set_wf(old(self)@, t as int, conn_init());
        }
        t
    }

    /// Dispatches a chunk read for identifier `t`: an identifier of a
    /// dropped connection is ignored and touches nothing; a connection past
    /// its handshake is left as it is; otherwise the chunk drives the
    /// connection's state machine, and on an error the connection leaves the
    /// table.
    pub fn client_data(&mut self, t: usize, chunk: &[u8]) -> (r: Dispatch)
        requires
            old(self).wf(),
        ensures
            final(self).wf(),
            final(self).counter() == old(self).counter(),
            match assoc_get(old(self)@, t as int) {
                Option::None => final(self)@ == old(self)@ && r == Dispatch::Ignored,
                Option::Some(c) => if c.state != ConnState::AwaitingHandshake {
                    final(self)@ == old(self)@ && r == Dispatch::Continue(c.interest)
                } else if spec_on_data(c, chunk@).1 is Some {
                    final(self)@ == assoc_remove(old(self)@, t as int) && r == Dispatch::Dropped(
                        spec_on_data(c, chunk@).1->Some_0,
                    )
                } else {
                    final(self)@ == assoc_set(old(self)@, t as int, spec_on_data(c, chunk@).0)
                        && r == Dispatch::Continue(spec_on_data(c, chunk@).0.interest)
                },
            },
    {
        let i = match self.find(t) {
            Option::None => {
                proof {
                    lemma_get_none(self@, t as int);
                }
                return Dispatch::Ignored;
            },
            Option::Some(i) => i,
        };
        proof {
            lemma_get_found(self@, t as int, i as int);
        }
        let ghost before = self@;
        let (tok, mut conn) = self.clients.remove(i);
        proof {
            assert(self@ =~= before.remove(i as int));
        }
        let st = conn.state();
        match st {
            ConnState::AwaitingHandshake => {
                match conn.on_data(chunk) {
                    Ok(()) => {
                        let next = conn.interest();
                        self.clients.insert(i, (tok, conn));
                        proof {
                            assert(self@ =~= before.update(i as int, (t as int, conn@)));
                            lemma_set_found(before, t as int, conn@, i as int);
                            lemma_set_wf(before, t as int, conn@);
                        }
                        Dispatch::Continue(next)
                    },
                    Err(e) => {
                        proof {
                            lemma_remove_found(before, t as int, i as int);
                            lemma_remove_wf(before, t as int);
                        }
                        Dispatch::Dropped(e)
                    },
                }
            },
            _ => {
                let next = conn.interest();
                self.clients.insert(i, (tok, conn));
                proof {
                    assert(self@ =~= before);
                }
                Dispatch::Continue(next)
            },
        }
    }

    /// The response bytes still owed to the connection `t`, if it lives and
    /// its handshake response is in flight.  The caller offers them to the
    /// socket and reports with `client_wrote` how many were accepted.
    pub fn pending_of(&self, t: usize) -> (r: Option<Vec<u8>>)
        requires
            self.wf(),
        ensures
            match assoc_get(self@, t as int) {
                Option::None => r is None,
                Option::Some(c) => if c.state == ConnState::HandshakeResponsePending {
                    r matches Some(v) && v@ == c.pending
                } else {
                    r is None
                },
            },
    {
        match self.find(t) {
            Option::None => {
                proof {
                    lemma_get_none(self@, t as int);
                }
                None
            },
            Option::Some(i) => {
                proof {
                    lemma_get_found(self@, t as int, i as int);
                }
                let conn = &self.clients[i].1;
                match conn.state() {
                    ConnState::HandshakeResponsePending => Some(
                        crate::bytes::copy_bytes(conn.pending_output().as_slice()),
                    ),
                    _ => None,
                }
            },
        }
    }

    /// Dispatches a writability report for identifier `t`: the socket
    /// accepted `n` bytes of the pending response.  An identifier of a
    /// dropped connection is ignored; a connection whose response is not in
    /// flight is left as it is.
    pub fn client_wrote(&mut self, t: usize, n: usize) -> (r: Dispatch)
        requires
            old(self).wf(),
            match assoc_get(old(self)@, t as int) {
                Option::Some(c) => c.state == ConnState::HandshakeResponsePending ==> n
                    <= c.pending.len(),
                Option::None => true,
            },
        ensures
            final(self).wf(),
            final(self).counter() == old(self).counter(),
            match assoc_get(old(self)@, t as int) {
                Option::None => final(self)@ == old(self)@ && r == Dispatch::Ignored,
                Option::Some(c) => if c.state == ConnState::HandshakeResponsePending {
                    final(self)@ == assoc_set(old(self)@, t as int, spec_on_wrote(c, n as int))
                        && r == Dispatch::Continue(spec_on_wrote(c, n as int).interest)
                } else {
                    final(self)@ == old(self)@ && r == Dispatch::Continue(c.interest)
                },
            },
    {
        let i = match self.find(t) {
            Option::None => {
                proof {
                    lemma_get_none(self@, t as int);
                }
                return Dispatch::Ignored;
            },
            Option::Some(i) => i,
        };
        proof {
            lemma_get_found(self@, t as int, i as int);
        }
        let ghost before = self@;
        let (tok, mut conn) = self.clients.remove(i);
        proof {
            assert(self@ =~= before.remove(i as int));
        }
        let st = conn.state();
        match st {
            ConnState::HandshakeResponsePending => {
                conn.on_wrote(n);
                let next = conn.interest();
                self.clients.insert(i, (tok, conn));
                proof {
                    assert(self@ =~= before.update(i as int, (t as int, conn@)));
                    lemma_set_found(before, t as int, conn@, i as int);
                    lemma_set_wf(before, t as int, conn@);
                }
                Dispatch::Continue(next)
            },
            _ => {
                let next = conn.interest();
                self.clients.insert(i, (tok, conn));
                proof {
                    assert(self@ =~= before);
                }
                Dispatch::Continue(next)
            },
        }
    }

    /// Removes the connection with identifier `t` from the table, if it
    /// lives.  The caller closes and deregisters its socket; later events
    /// bearing `t` are ignored.
    pub fn drop_client(&mut self, t: usize)
        requires
            old(self).wf(),
        ensures
            final(self).wf(),
            final(self).counter() == old(self).counter(),
            final(self)@ == assoc_remove(old(self)@, t as int),
    {
        match self.find(t) {
            Option::None => {
                proof {
                    lemma_remove_absent(self@, t as int);
                }
            },
            Option::Some(i) => {
                let ghost before = self@;
                self.clients.remove(i);
                proof {
                    assert(self@ =~= before.remove(i as int));
                    lemma_remove_found(before, t as int, i as int);
                    lemma_remove_wf(before, t as int);
                }
            },
        }
    }

    /// The interest of the connection with identifier `t`, if it lives.
    pub fn client_interest(&self, t: usize) -> (r: Option<Interest>)
        ensures
            match assoc_get(self@, t as int) {
                Option::None => r is None,
                Option::Some(c) => r == Some(c.interest),
            },
    {
        match self.find(t) {
            Option::None => {
                proof {
                    lemma_get_none(self@, t as int);
                }
                None
            },
            Option::Some(i) => {
                proof {
                    lemma_get_found(self@, t as int, i as int);
                }
                Some(self.clients[i].1.interest())
            },
        }
    }
}

/// No cross-talk between connections, however their bytes interleave: every
/// dispatch for identifier `t` leaves the table equal to the old one, to
/// `assoc_set(old, t, c2)` or to `assoc_remove(old, t)` — and under any of
/// the three, every other identifier answers exactly as before.  Together
/// with the parser's chunking lemma, each client's handshake depends on its
/// own bytes alone.
pub proof fn lemma_no_cross_talk(m: Seq<(int, ConnModel)>, t: int, c2: ConnModel, q: int)
    requires
        assoc_wf(m),
        q != t,
    ensures
        assoc_get(assoc_set(m, t, c2), q) == assoc_get(m, q),
        assoc_get(assoc_remove(m, t), q) == assoc_get(m, q),
{
    lemma_set_get(m, t, c2, q);
    lemma_remove_get(m, t, q);
}

} // verus!
