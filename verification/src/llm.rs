//! LLM bridge: a serial-line query protocol.
//!
//! Kernel → host: `STX "LLM:" query ETX`.
//! Host → kernel: `STX "RSP:" response ETX`.
//! The shell writes the query frame and feeds each byte it reads back to a
//! `LlmQuery`, which decides when the answer is complete or the wait is over.

use crate::text::{decode_or, utf8_or};
use vstd::prelude::*;
use vstd::string::StringSliceAdditionalSpecFns;

verus! {

/// Start of text.
pub const STX: u8 = 0x02;

/// End of text.
pub const ETX: u8 = 0x03;

/// Longest response kept, in bytes; the rest of a longer one is dropped.
pub const MAX_RESPONSE: usize = 1024;

/// Polls to wait for a response before giving up.
pub const TIMEOUT_ITERS: u64 = 5_000_000;

/// The bytes of a query frame for `prompt`.
pub open spec fn query_frame(prompt: Seq<u8>) -> Seq<u8> {
    seq![STX, 0x4Cu8, 0x4Cu8, 0x4Du8, 0x3Au8] + prompt + seq![ETX]
}

/// Frame a query: STX, `LLM:`, the prompt's bytes, ETX.
pub fn frame_query(prompt: &str) -> (v: Vec<u8>)
    ensures
        v@ == query_frame(prompt.spec_bytes()),
{
    let p = prompt.as_bytes();
    let mut v: Vec<u8> = Vec::new();
    v.push(STX);
    v.push(0x4Cu8);
    v.push(0x4Cu8);
    v.push(0x4Du8);
    v.push(0x3Au8);
    let mut i: usize = 0;
    while i < p.len()
        invariant
            i <= p@.len(),
            v@ == seq![STX, 0x4Cu8, 0x4Cu8, 0x4Du8, 0x3Au8] + p@.take(i as int),
        decreases p@.len() - i,
    {
        v.push(p[i]);
        proof {
            assert(p@.take(i + 1) =~= p@.take(i as int).push(p@[i as int]));
        }
        i += 1;
    }
    v.push(ETX);
    proof {
        assert(p@.take(p@.len() as int) =~= p@);
    }
    v
}

/// Where the response reader is in the `STX "RSP:" body ETX` frame.
#[derive(Debug, Clone, Copy, PartialEq, Eq, Structural)]
pub enum WaitState {
    WaitSTX,
    WaitR,
    WaitS,
    WaitP,
    WaitColon,
    ReadBody,
}

/// One byte of the reader: the new state, the new body, and whether the
/// frame is complete. A byte that breaks the header starts the search for
/// STX again; body bytes past `MAX_RESPONSE` are dropped.
pub open spec fn reader_step(st: WaitState, buf: Seq<u8>, b: u8) -> (WaitState, Seq<u8>, bool) {
    match st {
        WaitState::WaitSTX => (if b == STX { WaitState::WaitR } else { WaitState::WaitSTX }, buf, false),
        WaitState::WaitR => (if b == 0x52u8 { WaitState::WaitS } else { WaitState::WaitSTX }, buf, false),
        WaitState::WaitS => (if b == 0x53u8 { WaitState::WaitP } else { WaitState::WaitSTX }, buf, false),
        WaitState::WaitP => (if b == 0x50u8 { WaitState::WaitColon } else { WaitState::WaitSTX }, buf, false),
        WaitState::WaitColon => (
            if b == 0x3Au8 {
                WaitState::ReadBody
            } else {
                WaitState::WaitSTX
            },
            buf,
            false,
        ),
        WaitState::ReadBody => if b == ETX {
            (WaitState::ReadBody, buf, true)
        } else if buf.len() < MAX_RESPONSE {
            (WaitState::ReadBody, buf.push(b), false)
        } else {
            (WaitState::ReadBody, buf, false)
        },
    }
}

/// Feeding `bytes` one by one, stopping at the end of a frame.
pub open spec fn reader_run(st: WaitState, buf: Seq<u8>, bytes: Seq<u8>) -> (WaitState, Seq<u8>, bool)
    decreases bytes.len(),
{
    if bytes.len() == 0 {
        (st, buf, false)
    } else {
        let (s2, b2, done) = reader_step(st, buf, bytes[0]);
        if done {
            (s2, b2, true)
        } else {
            reader_run(s2, b2, bytes.drop_first())
        }
    }
}

/// The text of a response body: its UTF-8 text, or `[invalid utf8]`.
pub open spec fn response_text(body: Seq<u8>) -> Seq<char> {
    decode_or(body, "[invalid utf8]"@)
}

/// Reader of one response frame.
pub struct ResponseReader {
    state: WaitState,
    buf: Vec<u8>,
}

impl ResponseReader {
    /// Where the reader is.
    pub closed spec fn spec_state(&self) -> WaitState {
        self.state
    }

    /// The body read so far.
    pub closed spec fn spec_body(&self) -> Seq<u8> {
        self.buf@
    }

    /// The body never exceeds `MAX_RESPONSE` bytes.
    pub closed spec fn wf(&self) -> bool {
        self.buf@.len() <= MAX_RESPONSE
    }

    /// A reader waiting for STX, with an empty body.
    pub fn new() -> (r: Self)
        ensures
            r.wf(),
            r.spec_state() == WaitState::WaitSTX,
            r.spec_body() == Seq::<u8>::empty(),
    {
        ResponseReader { state: WaitState::WaitSTX, buf: Vec::new() }
    }

    /// Feed one byte; true when it completes the frame.
    pub fn feed(&mut self, b: u8) -> (done: bool)
        requires
            old(self).wf(),
        ensures
            final(self).wf(),
            (final(self).spec_state(), final(self).spec_body(), done) == reader_step(
                old(self).spec_state(),
                old(self).spec_body(),
                b,
            ),
    {
        match self.state {
            WaitState::WaitSTX => {
                if b == STX {
                    self.state = WaitState::WaitR;
                }
                false
            },
            WaitState::WaitR => {
                self.state = if b == 0x52u8 {
                    WaitState::WaitS
                } else {
                    WaitState::WaitSTX
                };
                false
            },
            WaitState::WaitS => {
                self.state = if b == 0x53u8 {
                    WaitState::WaitP
                } else {
                    WaitState::WaitSTX
                };
                false
            },
            WaitState::WaitP => {
                self.state = if b == 0x50u8 {
                    WaitState::WaitColon
                } else {
                    WaitState::WaitSTX
                };
                false
            },
            WaitState::WaitColon => {
                self.state = if b == 0x3Au8 {
                    WaitState::ReadBody
                } else {
                    WaitState::WaitSTX
                };
                false
            },
            WaitState::ReadBody => {
                if b == ETX {
                    return true;
                }
                if self.buf.len() < MAX_RESPONSE {
                    self.buf.push(b);
                }
                false
            },
        }
    }

    /// The response text: the body as UTF-8, or `[invalid utf8]`.
    pub fn response(&self) -> (s: &str)
        ensures
            s@ == response_text(self.spec_body()),
    {
        utf8_or(self.buf.as_slice(), "[invalid utf8]")
    }
}

/// What a poll of the serial line found.
#[derive(Debug, Clone, Copy, PartialEq, Eq, Structural)]
pub enum PollResult {
    /// Keep polling.
    Pending,
    /// The response frame is complete.
    Done,
    /// No response within `TIMEOUT_ITERS` polls.
    TimedOut,
}

/// A query waiting for its response.
pub struct LlmQuery {
    reader: ResponseReader,
    iters: u64,
}

impl LlmQuery {
    /// The response reader.
    pub closed spec fn spec_reader(&self) -> ResponseReader {
        self.reader
    }

    /// Polls made so far.
    pub closed spec fn spec_iters(&self) -> u64 {
        self.iters
    }

    /// The reader is well-formed and the poll count stops one past the limit.
    pub closed spec fn wf(&self) -> bool {
        self.reader.wf() && self.iters <= TIMEOUT_ITERS + 1
    }

    /// A query that has not been polled yet.
    pub fn new() -> (q: Self)
        ensures
            q.wf(),
            q.spec_iters() == 0,
            q.spec_reader().spec_state() == WaitState::WaitSTX,
            q.spec_reader().spec_body() == Seq::<u8>::empty(),
    {
        LlmQuery { reader: ResponseReader::new(), iters: 0 }
    }

    /// One poll of the serial line, with the byte it gave, if any. Every poll
    /// counts toward the timeout; once past it, the query stays timed out.
    pub fn poll(&mut self, byte: Option<u8>) -> (r: PollResult)
        requires
            old(self).wf(),
        ensures
            final(self).wf(),
            old(self).spec_iters() >= TIMEOUT_ITERS ==> r == PollResult::TimedOut
                && final(self).spec_reader() == old(self).spec_reader(),
            old(self).spec_iters() < TIMEOUT_ITERS ==> {
                &&& final(self).spec_iters() == old(self).spec_iters() + 1
                &&& match byte {
                    None => r == PollResult::Pending && final(self).spec_reader() == old(self).spec_reader(),
                    Some(b) => {
                        let (st, body, done) = reader_step(
                            old(self).spec_reader().spec_state(),
                            old(self).spec_reader().spec_body(),
                            b,
                        );
                        &&& final(self).spec_reader().spec_state() == st
                        &&& final(self).spec_reader().spec_body() == body
                        &&& r == if done {
                            PollResult::Done
                        } else {
                            PollResult::Pending
                        }
                    },
                }
            },
    {
        if self.iters >= TIMEOUT_ITERS {
            self.iters = TIMEOUT_ITERS + 1;
            return PollResult::TimedOut;
        }
        self.iters += 1;
        match byte {
            Some(b) => {
                if self.reader.feed(b) {
                    PollResult::Done
                } else {
                    PollResult::Pending
                }
            },
            None => PollResult::Pending,
        }
    }

    /// The response text, once the frame is complete.
    pub fn response(&self) -> (s: &str)
        requires
            self.wf(),
        ensures
            s@ == response_text(self.spec_reader().spec_body()),
    {
        self.reader.response()
    }
}

/// Begin a query: the frame to write to the serial line, and the query that
/// reads the answer from it.
pub fn query(prompt: &str) -> (r: (Vec<u8>, LlmQuery))
    ensures
        r.0@ == query_frame(prompt.spec_bytes()),
        r.1.wf(),
        r.1.spec_iters() == 0,
        r.1.spec_reader().spec_state() == WaitState::WaitSTX,
        r.1.spec_reader().spec_body() == Seq::<u8>::empty(),
{
    (frame_query(prompt), LlmQuery::new())
}

/// A response frame `STX "RSP:" body ETX`, read from the start, yields its
/// body (cut to `MAX_RESPONSE` bytes) when the body holds no ETX.
pub proof fn lemma_response_frame(body: Seq<u8>)
    requires
        forall|i: int| 0 <= i < body.len() ==> body[i] != ETX,
    ensures
        reader_run(
            WaitState::WaitSTX,
            Seq::empty(),
            seq![STX, 0x52u8, 0x53u8, 0x50u8, 0x3Au8] + body + seq![ETX],
        ) == (WaitState::ReadBody, body.take(if body.len() < MAX_RESPONSE {
            body.len() as int
        } else {
            MAX_RESPONSE as int
        }), true),
{
    let e = Seq::<u8>::empty();
    let f0 = seq![STX, 0x52u8, 0x53u8, 0x50u8, 0x3Au8] + body + seq![ETX];
    let f1 = f0.drop_first();
    let f2 = f1.drop_first();
    let f3 = f2.drop_first();
    let f4 = f3.drop_first();
    let f5 = f4.drop_first();
    assert(f5 =~= body + seq![ETX]);
    assert(f0[0] == STX && f1[0] == 0x52u8 && f2[0] == 0x53u8 && f3[0] == 0x50u8 && f4[0] == 0x3Au8);
    assert(reader_run(WaitState::WaitSTX, e, f0) == reader_run(WaitState::WaitR, e, f1));
    assert(reader_run(WaitState::WaitR, e, f1) == reader_run(WaitState::WaitS, e, f2));
    assert(reader_run(WaitState::WaitS, e, f2) == reader_run(WaitState::WaitP, e, f3));
    assert(reader_run(WaitState::WaitP, e, f3) == reader_run(WaitState::WaitColon, e, f4));
    assert(reader_run(WaitState::WaitColon, e, f4) == reader_run(WaitState::ReadBody, e, f5));
    lemma_body_run(e, body);
    assert(e + body =~= body);
}

/// Reading a body with no ETX, then ETX, keeps the body up to the limit.
proof fn lemma_body_run(buf: Seq<u8>, body: Seq<u8>)
    requires
        buf.len() <= MAX_RESPONSE,
        forall|i: int| 0 <= i < body.len() ==> body[i] != ETX,
    ensures
        reader_run(WaitState::ReadBody, buf, body + seq![ETX]) == (WaitState::ReadBody, (buf + body).take(
            if buf.len() + body.len() < MAX_RESPONSE {
                (buf.len() + body.len()) as int
            } else {
                MAX_RESPONSE as int
            },
        ), true),
    decreases body.len(),
{
    let bytes = body + seq![ETX];
    if body.len() == 0 {
        assert(bytes[0] == ETX);
        assert((buf + body).take(buf.len() as int) =~= buf);
    } else {
        assert(bytes[0] == body[0]);
        assert(bytes.drop_first() =~= body.drop_first() + seq![ETX]);
        let b2 = if buf.len() < MAX_RESPONSE {
            buf.push(body[0])
        } else {
            buf
        };
        lemma_body_run(b2, body.drop_first());
        if buf.len() < MAX_RESPONSE {
            assert(b2 + body.drop_first() =~= buf + body);
        } else {
            assert((b2 + body.drop_first()).take(MAX_RESPONSE as int) =~= (buf + body).take(
                MAX_RESPONSE as int,
            ));
        }
    }
}

} // verus!
