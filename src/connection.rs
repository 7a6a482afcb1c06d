//! One connection's life: reading request heads into a bounded buffer,
//! answering them in arrival order, and deciding when to stop.
use vstd::prelude::*;

use crate::request::{
    is_keep_alive, is_servable, is_servable_spec, keep_alive_spec, parse_request, request_parse_of,
    HeadView, ParseStatus, RequestHead,
};

verus! {

/// How long a kept-open connection may stay silent between requests.
pub const IDLE_KEEPALIVE_SECS: u64 = 2;

/// What to do next with a connection.
pub enum Step {
    /// Answer this request; `keep_alive` says whether the connection may
    /// stay open after the answer.
    Serve { head: RequestHead, keep_alive: bool },
    /// Answer this request with 405 and close.
    RejectMethod { head: RequestHead },
    /// Send this error status and close.
    Fail { status: u16 },
    /// Read up to this many more bytes.
    Read { max: usize },
    /// Close without a reply.
    Close,
}

/// What a read from the socket gave.
pub enum ReadEvent {
    Data(Vec<u8>),
    Eof,
    TimedOut,
    Failed,
}

/// The state of a connection between steps.
pub struct Connection {
    buffer: Vec<u8>,
    capacity: usize,
    first: bool,
    read_timeout_secs: u64,
}

/// The bytes received and not yet consumed, the buffer's size, and whether
/// no request has completed yet.
pub type ConnectionView = (Seq<u8>, nat, bool);

impl Connection {
    pub closed spec fn view(&self) -> ConnectionView {
        (self.buffer@, self.capacity as nat, self.first)
    }

    pub closed spec fn timeout_setting(&self) -> u64 {
        self.read_timeout_secs
    }

    pub open spec fn well_formed(&self) -> bool {
        self@.0.len() <= self@.1
    }

    /// A fresh connection with an empty buffer of `capacity` bytes.
    pub fn new(capacity: usize, read_timeout_secs: u64) -> (r: Connection)
        ensures
            r@ == (Seq::<u8>::empty(), capacity as nat, true),
            r.timeout_setting() == read_timeout_secs,
            r.well_formed(),
    {
        Connection { buffer: Vec::new(), capacity, first: true, read_timeout_secs }
    }

    /// Seconds the next request may take to arrive: the configured read
    /// timeout before the first request, the idle keep-alive timeout after.
    pub fn deadline_secs(&self) -> (r: u64)
        ensures
            r == if self@.2 {
                self.timeout_setting()
            } else {
                IDLE_KEEPALIVE_SECS
            },
    {
        if self.first {
            self.read_timeout_secs
        } else {
            IDLE_KEEPALIVE_SECS
        }
    }

    /// The deadline passed: a connection that never completed a request is
    /// told 408; a kept-open one is closed silently.
    pub fn on_deadline(&self) -> (r: Step)
        ensures
            self@.2 ==> r == (Step::Fail { status: 408 }),
            !self@.2 ==> r is Close,
    {
        if self.first {
            Step::Fail { status: 408 }
        } else {
            Step::Close
        }
    }

    /// Looks at the bytes received so far. A complete head is consumed and
    /// handed out (to serve, or to refuse with 405 when it is not a GET
    /// without a body); keep-alive holds only when the client asks for it,
    /// the server is `running`, and fewer than `threads` connections are
    /// `active`. An incomplete head asks for more bytes, or fails with 431
    /// when the buffer is full; bytes that are no request fail with 400.
    pub fn advance(&mut self, running: bool, active: usize, threads: usize) -> (r: Step)
        requires
            old(self).well_formed(),
        ensures
            final(self).well_formed(),
            final(self).timeout_setting() == old(self).timeout_setting(),
            final(self)@.1 == old(self)@.1,
            match request_parse_of(old(self)@.0) {
                None => r == (Step::Fail { status: 400 }) && final(self)@ == old(self)@,
                Some(None) => final(self)@ == old(self)@ && if old(self)@.0.len() == old(self)@.1 {
                    r == (Step::Fail { status: 431 })
                } else {
                    r == (Step::Read { max: (old(self)@.1 - old(self)@.0.len()) as usize })
                },
                Some(Some((hv, n))) => {
                    &&& n <= old(self)@.0.len()
                    &&& final(self)@.0 == old(self)@.0.skip(n as int)
                    &&& !final(self)@.2
                    &&& if is_servable_spec(hv) {
                        r matches Step::Serve { head, keep_alive } && head@ == hv && keep_alive == (
                        keep_alive_spec(hv) && running && active < threads)
                    } else {
                        r matches Step::RejectMethod { head } && head@ == hv
                    }
                },
            },
    {
        let parsed = parse_request(self.buffer.as_slice());
        match parsed {
            ParseStatus::Invalid => Step::Fail { status: 400 },
            ParseStatus::Partial => {
                if self.buffer.len() == self.capacity {
                    Step::Fail { status: 431 }
                } else {
                    Step::Read { max: self.capacity - self.buffer.len() }
                }
            },
            ParseStatus::Complete(head, n) => {
                let mut rest: Vec<u8> = Vec::new();
                let mut i = n;
                while i < self.buffer.len()
                    invariant
                        n <= i <= self.buffer.len(),
                        rest@ == self.buffer@.subrange(n as int, i as int),
                    decreases self.buffer.len() - i,
                {
                    rest.push(self.buffer[i]);
                    i = i + 1;
                }
                self.buffer = rest;
                self.first = false;
                if is_servable(&head) {
                    let keep_alive = is_keep_alive(&head) && running && active < threads;
                    Step::Serve { head, keep_alive }
                } else {
                    Step::RejectMethod { head }
                }
            },
        }
    }

    /// Takes in what a read gave: bytes are appended, the end of the stream
    /// or a failed read closes, and a timeout before the first request is
    /// told 408.
    pub fn on_read(&mut self, event: ReadEvent) -> (r: Option<Step>)
        requires
            old(self).well_formed(),
            event matches ReadEvent::Data(d) ==> d@.len() <= old(self)@.1 - old(self)@.0.len(),
        ensures
            final(self).well_formed(),
            final(self).timeout_setting() == old(self).timeout_setting(),
            match event {
                ReadEvent::Data(d) => r is None && final(self)@ == (old(self)@.0 + d@, old(self)@.1, old(self)@.2),
                ReadEvent::Eof => r == Some(Step::Close) && final(self)@ == old(self)@,
                ReadEvent::TimedOut => final(self)@ == old(self)@ && if old(self)@.2 {
                    r == Some(Step::Fail { status: 408 })
                } else {
                    r == Some(Step::Close)
                },
                ReadEvent::Failed => r == Some(Step::Close) && final(self)@ == old(self)@,
            },
    {
        match event {
            ReadEvent::Data(d) => {
                let mut buf: Vec<u8> = Vec::new();
                std::mem::swap(&mut buf, &mut self.buffer);
                let mut i: usize = 0;
                let ghost start = buf@;
                while i < d.len()
                    invariant
                        i <= d.len(),
                        buf@ == start + d@.take(i as int),
                    decreases d.len() - i,
                {
                    buf.push(d[i]);
                    i = i + 1;
                    assert(d@.take(i as int) == d@.take(i - 1).push(d@[i - 1]));
                }
                assert(d@.take(d@.len() as int) == d@);
                self.buffer = buf;
                None
            },
            ReadEvent::Eof => Some(Step::Close),
            ReadEvent::TimedOut => if self.first {
                Some(Step::Fail { status: 408 })
            } else {
                Some(Step::Close)
            },
            ReadEvent::Failed => Some(Step::Close),
        }
    }
}

/// The message sent with an error status that closes a connection.
pub fn failure_message(status: u16) -> (r: &'static str)
    ensures
        r@ == if status == 400 {
            "Bad Request"@
        } else if status == 405 {
            "Method Not Allowed"@
        } else if status == 408 {
            "Request Timeout"@
        } else if status == 431 {
            "Request Header Fields Too Large"@
        } else {
            "Internal Server Error"@
        },
{
    if status == 400 {
        "Bad Request"
    } else if status == 405 {
        "Method Not Allowed"
    } else if status == 408 {
        "Request Timeout"
    } else if status == 431 {
        "Request Header Fields Too Large"
    } else {
        "Internal Server Error"
    }
}

// ---------------------------------------------------------------------
// Pipelining

/// The heads of the first `k` requests read one after another from `data`,
/// each taken from what the previous ones left.
pub open spec fn pipelined(data: Seq<u8>, k: nat) -> Seq<HeadView>
    decreases k,
{
    if k == 0 {
        Seq::empty()
    } else {
        match request_parse_of(data) {
            Some(Some((h, n))) => seq![h] + pipelined(data.skip(n as int), (k - 1) as nat),
            _ => Seq::empty(),
        }
    }
}

pub open spec fn concat_all(reqs: Seq<Seq<u8>>) -> Seq<u8>
    decreases reqs.len(),
{
    if reqs.len() == 0 {
        Seq::empty()
    } else {
        reqs[0] + concat_all(reqs.drop_first())
    }
}

/// Requests sent back to back are taken up in the order they arrived: when
/// each request is a complete head on its own, whatever follows it, the
/// first `n` heads read from the stream are those of the `n` requests, in
/// order.
pub proof fn lemma_pipelined_in_order(reqs: Seq<Seq<u8>>, heads: Seq<HeadView>, tail: Seq<u8>)
    requires
        reqs.len() == heads.len(),
        forall|i: int, rest: Seq<u8>|
            0 <= i < reqs.len() ==> #[trigger] request_parse_of(reqs[i] + rest) == Some(
                Some((heads[i], reqs[i].len())),
            ),
    ensures
        pipelined(concat_all(reqs) + tail, reqs.len()) == heads,
    decreases reqs.len(),
{
    if reqs.len() > 0 {
        let rest = concat_all(reqs.drop_first()) + tail;
        assert(concat_all(reqs) + tail == reqs[0] + rest);
        assert(request_parse_of(reqs[0] + rest) == Some(Some((heads[0], reqs[0].len()))));
        assert((reqs[0] + rest).skip(reqs[0].len() as int) == rest);
        assert forall|i: int, r2: Seq<u8>|
            0 <= i < reqs.drop_first().len() implies #[trigger] request_parse_of(
            reqs.drop_first()[i] + r2) == Some(Some((heads.drop_first()[i], reqs.drop_first()[i].len()))) by {
            assert(reqs.drop_first()[i] == reqs[i + 1]);
            assert(request_parse_of(reqs[i + 1] + r2) == Some(Some((heads[i + 1], reqs[i + 1].len()))));
        }
        lemma_pipelined_in_order(reqs.drop_first(), heads.drop_first(), tail);
        assert(heads == seq![heads[0]] + heads.drop_first());
    }
}

} // verus!
