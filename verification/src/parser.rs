//! An incremental parser for the header section of an HTTP/1.1 upgrade
//! request.  Bytes arrive in arbitrary chunks; the parser consumes them one
//! byte at a time and commits each `Name: Value` line into a header map, so a
//! request split across any number of reads parses exactly as a request fed
//! whole.
//!
//! The grammar accepted is a strict subset of HTTP/1.1: a request line
//! terminated by a line feed, then header lines of the form `Name: Value`
//! terminated by a carriage return and line feed, with optional spaces after
//! the colon, then an empty line closing the header section.  A carriage
//! return or line feed inside a header name, a bare line feed inside a value,
//! or a line starting with a colon is a grammar error and poisons the parser.

use vstd::prelude::*;
use vstd::string::StringSliceAdditionalSpecFns;

use crate::assoc::{assoc_get, assoc_set, assoc_wf};
use crate::headers::HeaderMap;

verus! {

pub const CR: u8 = 13;

pub const LF: u8 = 10;

pub const COLON: u8 = 58;

pub const SP: u8 = 32;

/// Where in the header section the next byte will land.
#[derive(Clone, Copy, Debug, PartialEq, Eq, Structural)]
pub enum Phase {
    /// Consuming the request line, up to its line feed.
    RequestLine,
    /// At the start of a header line, or of the empty line that ends the
    /// section.
    LineStart,
    /// Inside a header name.
    Name,
    /// After the colon, skipping leading spaces of the value.
    ValueStart,
    /// Inside a header value.
    Value,
    /// After the carriage return that ends a header line.
    LineAlmostDone,
    /// After the carriage return of the empty line.
    AlmostDone,
    /// The whole header section has been seen; further bytes are ignored.
    Complete,
    /// A grammar error was seen; further bytes are ignored.
    Failed,
}

/// The mathematical state of the parser: the phase, the partially read name
/// and value, and the committed headers.
#[verifier::ext_equal]
pub ghost struct ParserModel {
    pub phase: Phase,
    pub name: Seq<u8>,
    pub value: Seq<u8>,
    pub headers: Seq<(Seq<u8>, Seq<u8>)>,
}

/// The state of a parser that has consumed nothing.
pub open spec fn init_model() -> ParserModel {
    ParserModel {
        phase: Phase::RequestLine,
        name: Seq::empty(),
        value: Seq::empty(),
        headers: Seq::empty(),
    }
}

/// How one byte advances the parser state.
pub open spec fn spec_step(s: ParserModel, b: u8) -> ParserModel {
    match s.phase {
        Phase::RequestLine => if b == LF {
            ParserModel { phase: Phase::LineStart, ..s }
        } else {
            s
        },
        Phase::LineStart => if b == CR {
            ParserModel { phase: Phase::AlmostDone, ..s }
        } else if b == LF || b == COLON {
            ParserModel { phase: Phase::Failed, ..s }
        } else {
            ParserModel { phase: Phase::Name, name: s.name.push(b), ..s }
        },
        Phase::Name => if b == COLON {
            ParserModel { phase: Phase::ValueStart, ..s }
        } else if b == CR || b == LF {
            ParserModel { phase: Phase::Failed, ..s }
        } else {
            ParserModel { name: s.name.push(b), ..s }
        },
        Phase::ValueStart => if b == SP {
            s
        } else if b == CR {
            ParserModel {
                phase: Phase::LineAlmostDone,
                name: Seq::empty(),
                value: Seq::empty(),
                headers: assoc_set(s.headers, s.name, s.value),
            }
        } else if b == LF {
            ParserModel { phase: Phase::Failed, ..s }
        } else {
            ParserModel { phase: Phase::Value, value: s.value.push(b), ..s }
        },
        Phase::Value => if b == CR {
            ParserModel {
                phase: Phase::LineAlmostDone,
                name: Seq::empty(),
                value: Seq::empty(),
                headers: assoc_set(s.headers, s.name, s.value),
            }
        } else if b == LF {
            ParserModel { phase: Phase::Failed, ..s }
        } else {
            ParserModel { value: s.value.push(b), ..s }
        },
        Phase::LineAlmostDone => if b == LF {
            ParserModel { phase: Phase::LineStart, ..s }
        } else {
            ParserModel { phase: Phase::Failed, ..s }
        },
        Phase::AlmostDone => if b == LF {
            ParserModel { phase: Phase::Complete, ..s }
        } else {
            ParserModel { phase: Phase::Failed, ..s }
        },
        Phase::Complete => s,
        Phase::Failed => s,
    }
}

/// How a whole chunk advances the parser state: one byte after the other.
pub open spec fn spec_feed(s: ParserModel, data: Seq<u8>) -> ParserModel
    decreases data.len(),
{
    if data.len() == 0 {
        s
    } else {
        spec_feed(spec_step(s, data[0]), data.skip(1))
    }
}

/// Feeding one more byte after a chunk is one more step.
pub proof fn lemma_feed_snoc(s: ParserModel, data: Seq<u8>, b: u8)
    ensures
        spec_feed(s, data.push(b)) == spec_step(spec_feed(s, data), b),
    decreases data.len(),
{
    let e = data.push(b);
    if data.len() == 0 {
        assert(e[0] == b);
        assert(e.skip(1) =~= Seq::<u8>::empty());
        assert(spec_feed(spec_step(s, b), e.skip(1)) == spec_step(s, b));
        assert(spec_feed(s, e) == spec_feed(spec_step(s, b), e.skip(1)));
    } else {
        assert(e[0] == data[0]);
        assert(e.skip(1) =~= data.skip(1).push(b));
        lemma_feed_snoc(spec_step(s, data[0]), data.skip(1), b);
        assert(spec_feed(s, e) == spec_feed(spec_step(s, data[0]), e.skip(1)));
        assert(spec_feed(s, data) == spec_feed(spec_step(s, data[0]), data.skip(1)));
    }
}

/// Feeding the concatenation of two chunks is feeding one, then the other.
pub proof fn lemma_feed_concat(s: ParserModel, a: Seq<u8>, b: Seq<u8>)
    ensures
        spec_feed(s, a + b) == spec_feed(spec_feed(s, a), b),
    decreases a.len(),
{
    if a.len() == 0 {
        assert(a + b =~= b);
    } else {
        assert((a + b)[0] == a[0]);
        assert((a + b).skip(1) =~= a.skip(1) + b);
        lemma_feed_concat(spec_step(s, a[0]), a.skip(1), b);
    }
}

/// The concatenation of a sequence of chunks.
pub open spec fn concat_chunks(chunks: Seq<Seq<u8>>) -> Seq<u8>
    decreases chunks.len(),
{
    if chunks.len() == 0 {
        Seq::empty()
    } else {
        chunks[0] + concat_chunks(chunks.skip(1))
    }
}

/// The parser state after feeding each chunk in turn.
pub open spec fn spec_feed_chunks(s: ParserModel, chunks: Seq<Seq<u8>>) -> ParserModel
    decreases chunks.len(),
{
    if chunks.len() == 0 {
        s
    } else {
        spec_feed_chunks(spec_feed(s, chunks[0]), chunks.skip(1))
    }
}

/// Chunk boundaries are irrelevant: feeding a byte stream split into any
/// sequence of chunks — one byte at a time included — leaves the parser, its
/// header map included, exactly as feeding the whole stream at once.
pub proof fn lemma_chunking_irrelevant(s: ParserModel, chunks: Seq<Seq<u8>>)
    ensures
        spec_feed_chunks(s, chunks) == spec_feed(s, concat_chunks(chunks)),
    decreases chunks.len(),
{
    if chunks.len() > 0 {
        lemma_feed_concat(s, chunks[0], concat_chunks(chunks.skip(1)));
        lemma_chunking_irrelevant(spec_feed(s, chunks[0]), chunks.skip(1));
    }
}

/// One step keeps the committed header names unique.
pub proof fn lemma_step_wf(s: ParserModel, b: u8)
    requires
        assoc_wf(s.headers),
    ensures
        assoc_wf(spec_step(s, b).headers),
{
    crate::assoc::lemma_set_wf(s.headers, s.name, s.value);
}

/// Feeding any chunk keeps the committed header names unique.
pub proof fn lemma_feed_wf(s: ParserModel, data: Seq<u8>)
    requires
        assoc_wf(s.headers),
    ensures
        assoc_wf(spec_feed(s, data).headers),
    decreases data.len(),
{
    if data.len() > 0 {
        lemma_step_wf(s, data[0]);
        lemma_feed_wf(spec_step(s, data[0]), data.skip(1));
    }
}

/// A byte that may stand in a header name.
pub open spec fn name_byte_ok(b: u8) -> bool {
    b != CR && b != LF && b != COLON
}

/// A well-formed header name: nonempty, no line breaks, no colon.
pub open spec fn valid_header_name(n: Seq<u8>) -> bool {
    n.len() > 0 && forall|i: int| 0 <= i < n.len() ==> name_byte_ok(#[trigger] n[i])
}

/// A byte that may stand in a header value.
pub open spec fn value_byte_ok(b: u8) -> bool {
    b != CR && b != LF
}

/// A well-formed header value: no line breaks, and no leading space — the
/// parser strips spaces after the colon.
pub open spec fn valid_header_value(v: Seq<u8>) -> bool {
    (forall|i: int| 0 <= i < v.len() ==> value_byte_ok(#[trigger] v[i])) && (v.len() > 0 ==> v[0]
        != SP)
}

/// Every line of a header list is well formed.
pub open spec fn valid_headers(hs: Seq<(Seq<u8>, Seq<u8>)>) -> bool {
    forall|i: int| 0 <= i < hs.len() ==> valid_header_name(#[trigger] hs[i].0)
        && valid_header_value(hs[i].1)
}

/// One header line on the wire: `Name: Value` — here without the optional
/// spaces — ended by a carriage return and line feed.
pub open spec fn render_header_line(n: Seq<u8>, v: Seq<u8>) -> Seq<u8> {
    n + seq![COLON] + v + seq![CR, LF]
}

/// A header list on the wire, line after line.
pub open spec fn render_headers(hs: Seq<(Seq<u8>, Seq<u8>)>) -> Seq<u8>
    decreases hs.len(),
{
    if hs.len() == 0 {
        Seq::empty()
    } else {
        render_header_line(hs[0].0, hs[0].1) + render_headers(hs.skip(1))
    }
}

/// A whole request's header section on the wire: the request line, the
/// header lines, and the empty line that ends the section.
pub open spec fn render_request(reqline: Seq<u8>, hs: Seq<(Seq<u8>, Seq<u8>)>) -> Seq<u8> {
    reqline + seq![LF] + render_headers(hs) + seq![CR, LF]
}

/// The header map that a list of lines commits, first to last, so that a
/// later line with the same name wins.
pub open spec fn committed_headers(
    h0: Seq<(Seq<u8>, Seq<u8>)>,
    hs: Seq<(Seq<u8>, Seq<u8>)>,
) -> Seq<(Seq<u8>, Seq<u8>)>
    decreases hs.len(),
{
    if hs.len() == 0 {
        h0
    } else {
        committed_headers(assoc_set(h0, hs[0].0, hs[0].1), hs.skip(1))
    }
}

/// Bytes without a line feed leave the request-line phase where it is.
proof fn lemma_feed_request_line(s: ParserModel, r: Seq<u8>)
    requires
        s.phase == Phase::RequestLine,
        forall|i: int| 0 <= i < r.len() ==> #[trigger] r[i] != LF,
    ensures
        spec_feed(s, r) == s,
    decreases r.len(),
{
    if r.len() > 0 {
        assert(spec_step(s, r[0]) == s);
        lemma_feed_request_line(s, r.skip(1));
    }
}

/// Name bytes append to the partial name.
proof fn lemma_feed_name_bytes(s: ParserModel, n: Seq<u8>)
    requires
        s.phase == Phase::Name,
        forall|i: int| 0 <= i < n.len() ==> name_byte_ok(#[trigger] n[i]),
    ensures
        spec_feed(s, n) == (ParserModel { name: s.name + n, ..s }),
    decreases n.len(),
{
    if n.len() == 0 {
        assert((ParserModel { name: s.name + n, ..s }) =~~= s);
    } else {
        let s1 = spec_step(s, n[0]);
        assert(s1 == (ParserModel { name: s.name.push(n[0]), ..s }));
        lemma_feed_name_bytes(s1, n.skip(1));
        assert(s1.name + n.skip(1) =~= s.name + n);
        assert((ParserModel { name: s1.name + n.skip(1), ..s1 }) =~~= (ParserModel {
            name: s.name + n,
            ..s
        }));
    }
}

/// Value bytes append to the partial value.
proof fn lemma_feed_value_bytes(s: ParserModel, v: Seq<u8>)
    requires
        s.phase == Phase::Value,
        forall|i: int| 0 <= i < v.len() ==> value_byte_ok(#[trigger] v[i]),
    ensures
        spec_feed(s, v) == (ParserModel { value: s.value + v, ..s }),
    decreases v.len(),
{
    if v.len() == 0 {
        assert((ParserModel { value: s.value + v, ..s }) =~~= s);
    } else {
        let s1 = spec_step(s, v[0]);
        assert(s1 == (ParserModel { phase: Phase::Value, value: s.value.push(v[0]), ..s }));
        lemma_feed_value_bytes(s1, v.skip(1));
        assert(s1.value + v.skip(1) =~= s.value + v);
        assert((ParserModel { value: s1.value + v.skip(1), ..s1 }) =~~= (ParserModel {
            value: s.value + v,
            ..s
        }));
    }
}

/// One well-formed header line, fed at the start of a line, commits exactly
/// its pair and returns the parser to the start of the next line.
proof fn lemma_feed_header_line(s: ParserModel, n: Seq<u8>, v: Seq<u8>)
    requires
        s.phase == Phase::LineStart,
        s.name == Seq::<u8>::empty(),
        s.value == Seq::<u8>::empty(),
        valid_header_name(n),
        valid_header_value(v),
    ensures
        spec_feed(s, render_header_line(n, v)) == (ParserModel {
            phase: Phase::LineStart,
            name: Seq::empty(),
            value: Seq::empty(),
            headers: assoc_set(s.headers, n, v),
        }),
{
    let line = render_header_line(n, v);
    let tail = seq![COLON] + v + seq![CR, LF];
    let s1 = spec_step(s, n[0]);
    assert(s1 == (ParserModel { phase: Phase::Name, name: s.name.push(n[0]), ..s }));
    assert(line[0] == n[0]);
    assert(line.skip(1) =~= n.skip(1) + tail);
    assert(spec_feed(s, line) == spec_feed(s1, n.skip(1) + tail));
    lemma_feed_concat(s1, n.skip(1), tail);
    lemma_feed_name_bytes(s1, n.skip(1));
    let s2 = spec_feed(s1, n.skip(1));
    assert(s2.name =~= n);
    assert(s2.value == s.value);
    let s3 = spec_step(s2, COLON);
    assert(s3 == (ParserModel { phase: Phase::ValueStart, ..s2 }));
    let tail2 = v + seq![CR, LF];
    assert(tail[0] == COLON);
    assert(tail.skip(1) =~= tail2);
    assert(spec_feed(s2, tail) == spec_feed(s3, tail2));
    if v.len() == 0 {
        assert(tail2 =~= seq![CR, LF]);
        let s4 = spec_step(s3, CR);
        assert(s4.headers == assoc_set(s3.headers, s3.name, s3.value));
        assert(s3.name =~= n);
        assert(s3.value =~= v);
        assert(tail2[0] == CR);
        assert(tail2.skip(1) =~= seq![LF]);
        let s5 = spec_step(s4, LF);
        assert(seq![LF].skip(1) =~= Seq::<u8>::empty());
        assert(spec_feed(s3, tail2) == spec_feed(s4, seq![LF]));
        assert(spec_feed(s4, seq![LF]) == spec_feed(s5, Seq::<u8>::empty()));
        assert(spec_feed(s3, tail2) =~~= (ParserModel {
            phase: Phase::LineStart,
            name: Seq::empty(),
            value: Seq::empty(),
            headers: assoc_set(s.headers, n, v),
        }));
    } else {
        let s4 = spec_step(s3, v[0]);
        assert(v[0] != SP && v[0] != CR && v[0] != LF);
        assert(s4 == (ParserModel { phase: Phase::Value, value: s3.value.push(v[0]), ..s3 }));
        assert(tail2[0] == v[0]);
        assert(tail2.skip(1) =~= v.skip(1) + seq![CR, LF]);
        assert(spec_feed(s3, tail2) == spec_feed(s4, v.skip(1) + seq![CR, LF]));
        lemma_feed_concat(s4, v.skip(1), seq![CR, LF]);
        lemma_feed_value_bytes(s4, v.skip(1));
        let s5 = spec_feed(s4, v.skip(1));
        assert(s5.value =~= v);
        assert(s5.name =~= n);
        let s6 = spec_step(s5, CR);
        assert(s6.headers == assoc_set(s5.headers, s5.name, s5.value));
        assert(seq![CR, LF][0] == CR);
        assert(seq![CR, LF].skip(1) =~= seq![LF]);
        let s7 = spec_step(s6, LF);
        assert(seq![LF].skip(1) =~= Seq::<u8>::empty());
        assert(spec_feed(s5, seq![CR, LF]) == spec_feed(s6, seq![LF]));
        assert(spec_feed(s6, seq![LF]) == spec_feed(s7, Seq::<u8>::empty()));
        assert(spec_feed(s5, seq![CR, LF]) =~~= (ParserModel {
            phase: Phase::LineStart,
            name: Seq::empty(),
            value: Seq::empty(),
            headers: assoc_set(s.headers, n, v),
        }));
    }
}

/// A list of well-formed header lines, fed at the start of a line, commits
/// exactly its pairs, first to last.
proof fn lemma_feed_header_lines(s: ParserModel, hs: Seq<(Seq<u8>, Seq<u8>)>)
    requires
        s.phase == Phase::LineStart,
        s.name == Seq::<u8>::empty(),
        s.value == Seq::<u8>::empty(),
        valid_headers(hs),
    ensures
        spec_feed(s, render_headers(hs)) == (ParserModel {
            phase: Phase::LineStart,
            name: Seq::empty(),
            value: Seq::empty(),
            headers: committed_headers(s.headers, hs),
        }),
    decreases hs.len(),
{
    if hs.len() == 0 {
        assert(render_headers(hs).len() == 0);
        assert((ParserModel {
            phase: Phase::LineStart,
            name: Seq::empty(),
            value: Seq::empty(),
            headers: committed_headers(s.headers, hs),
        }) =~~= s);
    } else {
        lemma_feed_concat(s, render_header_line(hs[0].0, hs[0].1), render_headers(hs.skip(1)));
        lemma_feed_header_line(s, hs[0].0, hs[0].1);
        let s1 = spec_feed(s, render_header_line(hs[0].0, hs[0].1));
        lemma_feed_header_lines(s1, hs.skip(1));
    }
}

/// Parsing is right inverse to rendering: feeding a whole rendered request —
/// any request line without a line feed, then any list of well-formed header
/// lines, then the empty line — completes the parse with exactly those
/// headers committed, a later duplicate name overwriting an earlier one.
pub proof fn lemma_parse_rendered_request(reqline: Seq<u8>, hs: Seq<(Seq<u8>, Seq<u8>)>)
    requires
        forall|i: int| 0 <= i < reqline.len() ==> #[trigger] reqline[i] != LF,
        valid_headers(hs),
    ensures
        spec_feed(init_model(), render_request(reqline, hs)) == (ParserModel {
            phase: Phase::Complete,
            name: Seq::empty(),
            value: Seq::empty(),
            headers: committed_headers(Seq::empty(), hs),
        }),
{
    let s0 = init_model();
    let rest = seq![LF] + render_headers(hs) + seq![CR, LF];
    assert(render_request(reqline, hs) =~= reqline + rest);
    lemma_feed_concat(s0, reqline, rest);
    lemma_feed_request_line(s0, reqline);
    let s1 = spec_step(s0, LF);
    assert(s1 == (ParserModel { phase: Phase::LineStart, ..s0 }));
    assert(rest[0] == LF);
    assert(rest.skip(1) =~= render_headers(hs) + seq![CR, LF]);
    assert(spec_feed(s0, rest) == spec_feed(s1, render_headers(hs) + seq![CR, LF]));
    lemma_feed_concat(s1, render_headers(hs), seq![CR, LF]);
    lemma_feed_header_lines(s1, hs);
    let s2 = spec_feed(s1, render_headers(hs));
    let s3 = spec_step(s2, CR);
    assert(s3 == (ParserModel { phase: Phase::AlmostDone, ..s2 }));
    assert(seq![CR, LF][0] == CR);
    assert(seq![CR, LF].skip(1) =~= seq![LF]);
    let s4 = spec_step(s3, LF);
    assert(seq![LF].skip(1) =~= Seq::<u8>::empty());
    assert(spec_feed(s2, seq![CR, LF]) == spec_feed(s3, seq![LF]));
    assert(spec_feed(s3, seq![LF]) == spec_feed(s4, Seq::<u8>::empty()));
}

/// The name of the header whose presence signals an upgrade request.
pub open spec fn upgrade_name() -> Seq<u8> {
    "Upgrade".spec_bytes()
}

/// The name of the header that carries the client's handshake key.
pub open spec fn sec_key_name() -> Seq<u8> {
    "Sec-WebSocket-Key".spec_bytes()
}

/// Whether a finished request asked for a protocol upgrade.
pub open spec fn spec_is_upgrade(s: ParserModel) -> bool {
    s.phase == Phase::Complete && assoc_get(s.headers, upgrade_name()) is Some
}

/// The incremental parser.
pub struct Parser {
    phase: Phase,
    name: Vec<u8>,
    value: Vec<u8>,
    headers: HeaderMap,
}

impl View for Parser {
    type V = ParserModel;

    closed spec fn view(&self) -> ParserModel {
        ParserModel {
            phase: self.phase,
            name: self.name@,
            value: self.value@,
            headers: self.headers@,
        }
    }
}

impl Parser {
    /// The committed header names are unique.
    pub open spec fn wf(&self) -> bool {
        assoc_wf(self@.headers)
    }

    /// A parser that has consumed nothing.
    pub fn new() -> (r: Parser)
        ensures
            r.wf(),
            r@ == init_model(),
    {
        let r = Parser {
            phase: Phase::RequestLine,
            name: Vec::new(),
            value: Vec::new(),
            headers: HeaderMap::new(),
        };
        proof {
            assert(r@ =~= init_model());
        }
        r
    }

    /// Commits the current header line into the map and clears the line.
    fn commit(&mut self)
        requires
            old(self).wf(),
        ensures
            final(self).wf(),
            final(self)@.phase == old(self)@.phase,
            final(self)@.name == Seq::<u8>::empty(),
            final(self)@.value == Seq::<u8>::empty(),
            final(self)@.headers == assoc_set(old(self)@.headers, old(self)@.name, old(self)@.value),
    {
        self.headers.set(self.name.as_slice(), self.value.as_slice());
        self.name.clear();
        self.value.clear();
    }

    /// Consumes one byte.
    fn step(&mut self, b: u8)
        requires
            old(self).wf(),
        ensures
            final(self).wf(),
            final(self)@ == spec_step(old(self)@, b),
    {
        match self.phase {
            Phase::RequestLine => {
                if b == LF {
                    self.phase = Phase::LineStart;
                }
            },
            Phase::LineStart => {
                if b == CR {
                    self.phase = Phase::AlmostDone;
                } else if b == LF || b == COLON {
                    self.phase = Phase::Failed;
                } else {
                    self.phase = Phase::Name;
                    self.name.push(b);
                }
            },
            Phase::Name => {
                if b == COLON {
                    self.phase = Phase::ValueStart;
                } else if b == CR || b == LF {
                    self.phase = Phase::Failed;
                } else {
                    self.name.push(b);
                }
            },
            Phase::ValueStart => {
                if b == SP {
                } else if b == CR {
                    self.commit();
                    self.phase = Phase::LineAlmostDone;
                } else if b == LF {
                    self.phase = Phase::Failed;
                } else {
                    self.phase = Phase::Value;
                    self.value.push(b);
                }
            },
            Phase::Value => {
                if b == CR {
                    self.commit();
                    self.phase = Phase::LineAlmostDone;
                } else if b == LF {
                    self.phase = Phase::Failed;
                } else {
                    self.value.push(b);
                }
            },
            Phase::LineAlmostDone => {
                if b == LF {
                    self.phase = Phase::LineStart;
                } else {
                    self.phase = Phase::Failed;
                }
            },
            Phase::AlmostDone => {
                if b == LF {
                    self.phase = Phase::Complete;
                } else {
                    self.phase = Phase::Failed;
                }
            },
            Phase::Complete => {},
            Phase::Failed => {},
        }
        proof {
            assert(self@ =~= spec_step(old(self)@, b));
        }
    }

    /// Consumes one chunk, byte by byte.
    pub fn feed(&mut self, data: &[u8])
        requires
            old(self).wf(),
        ensures
            final(self).wf(),
            final(self)@ == spec_feed(old(self)@, data@),
    {
        let mut i: usize = 0;
        while i < data.len()
            invariant
                self.wf(),
                i <= data@.len(),
                self@ == spec_feed(old(self)@, data@.take(i as int)),
            decreases data@.len() - i,
        {
            self.step(data[i]);
            proof {
                lemma_feed_snoc(old(self)@, data@.take(i as int), data@[i as int]);
                assert(data@.take(i + 1) =~= data@.take(i as int).push(data@[i as int]));
            }
            i += 1;
        }
        proof {
            assert(data@.take(data@.len() as int) =~= data@);
        }
    }

    /// Whether the whole header section has been seen.
    pub fn is_complete(&self) -> (r: bool)
        ensures
            r == (self@.phase == Phase::Complete),
    {
        match self.phase {
            Phase::Complete => true,
            _ => false,
        }
    }

    /// Whether a grammar error has been seen.
    pub fn is_failed(&self) -> (r: bool)
        ensures
            r == (self@.phase == Phase::Failed),
    {
        match self.phase {
            Phase::Failed => true,
            _ => false,
        }
    }

    /// Whether the finished request asked for a protocol upgrade.
    pub fn is_upgrade(&self) -> (r: bool)
        ensures
            r == spec_is_upgrade(self@),
    {
        self.is_complete() && self.headers.contains_key("Upgrade".as_bytes())
    }

    /// The value of the header named `k`, if the request carried one.
    pub fn header_value(&self, k: &[u8]) -> (r: Option<&Vec<u8>>)
        ensures
            match r {
                Some(v) => assoc_get(self@.headers, k@) == Some(v@),
                None => assoc_get(self@.headers, k@) is None,
            },
    {
        self.headers.get(k)
    }
}

} // verus!
