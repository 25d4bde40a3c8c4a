//! The per-connection protocol state machine: parse the upgrade request,
//! answer with the handshake response — surviving short writes — and hand the
//! connection on.  The socket itself lives outside; this type consumes the
//! bytes read from it and produces the bytes owed to it.

use vstd::prelude::*;

use crate::assoc::assoc_get;
use crate::handshake::{accept_of, response_bytes};
use crate::parser::{
    init_model, sec_key_name, spec_feed, spec_is_upgrade, Parser, ParserModel, Phase,
};

verus! {

/// The protocol state, strictly linear.
#[derive(Clone, Copy, Debug, PartialEq, Eq, Structural)]
pub enum ConnState {
    /// Accumulating and parsing request bytes.
    AwaitingHandshake,
    /// Upgrade detected; the response is owed to the socket.
    HandshakeResponsePending,
    /// Response flushed; the frame layer takes over from here.
    Connected,
}

/// Which readiness events the connection wants next.
#[derive(Clone, Copy, Debug, PartialEq, Eq, Structural)]
pub enum Interest {
    Read,
    Write,
}

/// Why a connection must be dropped.
#[derive(Clone, Copy, Debug, PartialEq, Eq, Structural)]
pub enum UpgradeError {
    /// The request bytes broke the header grammar.
    ParseError,
    /// End of headers was reached without an upgrade signal, or without a
    /// `Sec-WebSocket-Key` header.
    ProtocolViolation,
}

/// The mathematical state of a connection.
#[verifier::ext_equal]
pub ghost struct ConnModel {
    pub parser: ParserModel,
    pub state: ConnState,
    pub interest: Interest,
    /// Response bytes not yet accepted by the socket.
    pub pending: Seq<u8>,
    /// Response bytes already accepted by the socket.
    pub sent: Seq<u8>,
}

/// The client's handshake key, as the parser recorded it.
pub open spec fn handshake_key(p: ParserModel) -> Option<Seq<u8>> {
    assoc_get(p.headers, sec_key_name())
}

/// The state of a freshly accepted connection.
pub open spec fn conn_init() -> ConnModel {
    ConnModel {
        parser: init_model(),
        state: ConnState::AwaitingHandshake,
        interest: Interest::Read,
        pending: Seq::empty(),
        sent: Seq::empty(),
    }
}

/// The state/interest consistency invariant, and — while the response is in
/// flight — the accounting that what was sent plus what is still pending is
/// exactly the response owed for the client's key.
pub open spec fn conn_wf(c: ConnModel) -> bool {
    &&& crate::assoc::assoc_wf(c.parser.headers)
    &&& match c.state {
        ConnState::AwaitingHandshake => {
            &&& c.interest == Interest::Read
            &&& c.pending.len() == 0
            &&& c.sent.len() == 0
        },
        ConnState::HandshakeResponsePending => {
            &&& c.interest == Interest::Write
            &&& handshake_key(c.parser) matches Some(k) && c.sent + c.pending == response_bytes(
                accept_of(k),
            )
        },
        ConnState::Connected => {
            &&& c.interest == Interest::Read
            &&& c.pending.len() == 0
            &&& handshake_key(c.parser) matches Some(k) && c.sent == response_bytes(accept_of(k))
        },
    }
}

/// How a chunk of request bytes advances a connection, and whether it must be
/// dropped instead: the parser consumes the chunk; a grammar error, an end of
/// headers without upgrade signal, or one without a handshake key condemns
/// the connection; a completed upgrade readies the response and flips the
/// interest to write; anything less leaves it reading.
pub open spec fn spec_on_data(c: ConnModel, chunk: Seq<u8>) -> (ConnModel, Option<UpgradeError>) {
    let p = spec_feed(c.parser, chunk);
    let stay = ConnModel { parser: p, ..c };
    if p.phase == Phase::Failed {
        (stay, Some(UpgradeError::ParseError))
    } else if p.phase == Phase::Complete {
        if !spec_is_upgrade(p) {
            (stay, Some(UpgradeError::ProtocolViolation))
        } else {
            match handshake_key(p) {
                Option::None => (stay, Some(UpgradeError::ProtocolViolation)),
                Option::Some(k) => (
                    ConnModel {
                        parser: p,
                        state: ConnState::HandshakeResponsePending,
                        interest: Interest::Write,
                        pending: response_bytes(accept_of(k)),
                        sent: Seq::empty(),
                    },
                    Option::None,
                ),
            }
        }
    } else {
        (stay, Option::None)
    }
}

/// How accepting `n` bytes of the pending response advances a connection:
/// the accepted prefix moves from pending to sent; once nothing is pending
/// the handshake is done and the interest flips back to read.
pub open spec fn spec_on_wrote(c: ConnModel, n: int) -> ConnModel {
    let pending2 = c.pending.skip(n);
    let sent2 = c.sent + c.pending.take(n);
    if pending2.len() == 0 {
        ConnModel {
            parser: c.parser,
            state: ConnState::Connected,
            interest: Interest::Read,
            pending: pending2,
            sent: sent2,
        }
    } else {
        ConnModel {
            parser: c.parser,
            state: ConnState::HandshakeResponsePending,
            interest: Interest::Write,
            pending: pending2,
            sent: sent2,
        }
    }
}

/// One accepted connection's handshake state.
pub struct Connection {
    parser: Parser,
    state: ConnState,
    interest: Interest,
    pending: Vec<u8>,
    sent: Ghost<Seq<u8>>,
}

impl View for Connection {
    type V = ConnModel;

    closed spec fn view(&self) -> ConnModel {
        ConnModel {
            parser: self.parser@,
            state: self.state,
            interest: self.interest,
            pending: self.pending@,
            sent: self.sent@,
        }
    }
}

impl Connection {
    pub open spec fn wf(&self) -> bool {
        conn_wf(self@)
    }

    /// A freshly accepted connection: awaiting its handshake, read interest.
    pub fn new() -> (r: Connection)
        ensures
            r.wf(),
            r@ == conn_init(),
    {
        let r = Connection {
            parser: Parser::new(),
            state: ConnState::AwaitingHandshake,
            interest: Interest::Read,
            pending: Vec::new(),
            sent: Ghost(Seq::empty()),
        };
        proof {
            assert(r@ =~~= conn_init());
        }
        r
    }

    /// The readiness events the connection wants next.
    pub fn interest(&self) -> (r: Interest)
        ensures
            r == self@.interest,
    {
        self.interest
    }

    /// The current protocol state.
    pub fn state(&self) -> (r: ConnState)
        ensures
            r == self@.state,
    {
        self.state
    }

    /// The response bytes not yet accepted by the socket.
    pub fn pending_output(&self) -> (r: &Vec<u8>)
        ensures
            r@ == self@.pending,
    {
        &self.pending
    }

    /// Consumes one chunk read from the socket, as `spec_on_data` says.  On
    /// an error the connection has written nothing and is to be dropped.
    pub fn on_data(&mut self, chunk: &[u8]) -> (r: Result<(), UpgradeError>)
        requires
            old(self).wf(),
            old(self)@.state == ConnState::AwaitingHandshake,
        ensures
            final(self).wf(),
            final(self)@ == spec_on_data(old(self)@, chunk@).0,
            (match r {
                Ok(()) => spec_on_data(old(self)@, chunk@).1 is None,
                Err(e) => spec_on_data(old(self)@, chunk@).1 == Some(e),
            }),
    {
        self.parser.feed(chunk);
        if self.parser.is_failed() {
            return Err(UpgradeError::ParseError);
        }
        if !self.parser.is_complete() {
            return Ok(());
        }
        if !self.parser.is_upgrade() {
            return Err(UpgradeError::ProtocolViolation);
        }
        let key = match self.parser.header_value("Sec-WebSocket-Key".as_bytes()) {
            Option::None => {
                return Err(UpgradeError::ProtocolViolation);
            },
            Option::Some(v) => crate::bytes::copy_bytes(v.as_slice()),
        };
        let resp = crate::handshake::build_response(key.as_slice());
        self.pending = resp;
        self.state = ConnState::HandshakeResponsePending;
        self.interest = Interest::Write;
        self.sent = Ghost(Seq::empty());
        proof {
            assert(self@ =~~= spec_on_data(old(self)@, chunk@).0);
        }
        Ok(())
    }

    /// Records that the socket accepted the first `n` pending bytes, as
    /// `spec_on_wrote` says.
    pub fn on_wrote(&mut self, n: usize)
        requires
            old(self).wf(),
            old(self)@.state == ConnState::HandshakeResponsePending,
            n <= old(self)@.pending.len(),
        ensures
            final(self).wf(),
            final(self)@ == spec_on_wrote(old(self)@, n as int),
    {
        let mut rest: Vec<u8> = Vec::new();
        let mut i: usize = n;
        while i < self.pending.len()
            invariant
                n <= i <= self.pending@.len(),
                self.pending@ == old(self)@.pending,
                rest@ == self.pending@.subrange(n as int, i as int),
            decreases self.pending@.len() - i,
        {
            let b = self.pending[i];
            rest.push(b);
            proof {
                assert(self.pending@.subrange(n as int, i + 1) =~= self.pending@.subrange(
                    n as int,
                    i as int,
                ).push(b));
            }
            i += 1;
        }
        proof {
            assert(rest@ =~= self.pending@.skip(n as int));
        }
        self.sent = Ghost(self.sent@ + self.pending@.take(n as int));
        self.pending = rest;
        if self.pending.len() == 0 {
            self.state = ConnState::Connected;
            self.interest = Interest::Read;
        } else {
            self.state = ConnState::HandshakeResponsePending;
            self.interest = Interest::Write;
        }
        proof {
            let c = old(self)@;
            assert(c.sent + c.pending.take(n as int) + c.pending.skip(n as int) =~= c.sent
                + c.pending);
            assert(self@ =~~= spec_on_wrote(old(self)@, n as int));
        }
    }
}

/// However the writes were split, a connection that reached `Connected` has
/// handed the socket exactly the full handshake response for its client's
/// key, byte for byte.
pub proof fn lemma_connected_sent_response(c: ConnModel)
    requires
        conn_wf(c),
        c.state == ConnState::Connected,
    ensures
        handshake_key(c.parser) matches Some(k) && c.sent == response_bytes(accept_of(k)),
{
}

/// The state machine is linear.  From `AwaitingHandshake`, a chunk either
/// leaves the connection awaiting (interest still read) or moves it — at
/// most once — to `HandshakeResponsePending` (interest write); an error
/// leaves the state and interest unchanged, so a condemned connection never
/// owes bytes.
pub proof fn lemma_data_transition(c: ConnModel, chunk: Seq<u8>)
    requires
        conn_wf(c),
        c.state == ConnState::AwaitingHandshake,
    ensures
        conn_wf(spec_on_data(c, chunk).0),
        spec_on_data(c, chunk).1 is Some ==> spec_on_data(c, chunk).0.state
            == ConnState::AwaitingHandshake && spec_on_data(c, chunk).0.pending.len() == 0
            && spec_on_data(c, chunk).0.sent.len() == 0,
        spec_on_data(c, chunk).1 is None ==> (spec_on_data(c, chunk).0.state
            == ConnState::AwaitingHandshake && spec_on_data(c, chunk).0.interest == Interest::Read)
            || (spec_on_data(c, chunk).0.state == ConnState::HandshakeResponsePending
            && spec_on_data(c, chunk).0.interest == Interest::Write),
{
    crate::parser::lemma_feed_wf(c.parser, chunk);
    let p = spec_feed(c.parser, chunk);
    if spec_on_data(c, chunk).1 is None && p.phase == Phase::Complete {
        let k = handshake_key(p)->Some_0;
        assert(Seq::<u8>::empty() + response_bytes(accept_of(k)) =~= response_bytes(accept_of(k)));
    }
}

/// Writing advances the handshake response and nothing else: the connection
/// reaches `Connected` — interest back to read — exactly when the last
/// pending byte was accepted.
pub proof fn lemma_wrote_transition(c: ConnModel, n: int)
    requires
        conn_wf(c),
        c.state == ConnState::HandshakeResponsePending,
        0 <= n <= c.pending.len(),
    ensures
        conn_wf(spec_on_wrote(c, n)),
        spec_on_wrote(c, n).state == ConnState::Connected <==> n == c.pending.len(),
        spec_on_wrote(c, n).sent + spec_on_wrote(c, n).pending == c.sent + c.pending,
{
    assert(c.sent + c.pending.take(n) + c.pending.skip(n) =~= c.sent + c.pending);
}

} // verus!
