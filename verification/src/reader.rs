//! The lazy response stream, as an explicit state machine. A
//! `LazyResponseReader` starts out holding an unexecuted exchange
//! description; nothing is performed until a caller first asks for bytes.
//! The caller's polling loop drives it: it takes the request out exactly
//! once, reports how the exchange resolved, and then feeds body chunks
//! into a `ResponseReader`, which buffers them and hands back at most the
//! requested capacity per read. A non-success status is terminal: every
//! later read fails with that status and no body bytes are ever yielded.
use crate::client::PreparedRequest;
use crate::error::Error;
use vstd::prelude::*;

verus! {

/// A status in the success range.
pub open spec fn is_success_status(status: u16) -> bool {
    200 <= status < 300
}

/// The buffering half of the stream: body chunks go in whole, reads come
/// out bounded by the caller's capacity, leftovers stay buffered.
pub struct ResponseReader {
    buf: Vec<u8>,
}

impl ResponseReader {
    /// The bytes received but not yet handed to the caller, in order.
    pub closed spec fn buffered(self) -> Seq<u8> {
        self.buf@
    }

    pub fn new() -> (r: ResponseReader)
        ensures
            r.buffered() == Seq::<u8>::empty(),
    {
        let r = ResponseReader { buf: Vec::new() };
        proof {
            assert(r.buffered() =~= Seq::<u8>::empty());
        }
        r
    }

    /// Whether another chunk must be pulled before a read of `capacity`
    /// bytes can be satisfied in full.
    pub fn needs_input(&self, capacity: usize) -> (r: bool)
        ensures
            r == (self.buffered().len() < capacity),
    {
        self.buf.len() < capacity
    }

    /// Appends one body chunk, whole, to the buffer.
    pub fn push_chunk(&mut self, chunk: &[u8])
        ensures
            final(self).buffered() == old(self).buffered() + chunk@,
    {
        self.buf.extend_from_slice(chunk);
    }

    /// Hands out the first `capacity` buffered bytes — or all of them,
    /// if fewer remain — and keeps the rest buffered for the next read.
    /// The caller never receives more than its requested capacity.
    pub fn serve(&mut self, capacity: usize) -> (out: Vec<u8>)
        ensures
            ({
                let k = if capacity < old(self).buffered().len() {
                    capacity as int
                } else {
                    old(self).buffered().len() as int
                };
                &&& out@ == old(self).buffered().subrange(0, k)
                &&& final(self).buffered() == old(self).buffered().subrange(
                    k,
                    old(self).buffered().len() as int,
                )
            }),
    {
        let n = self.buf.len();
        let k = if capacity < n {
            capacity
        } else {
            n
        };
        let mut out: Vec<u8> = Vec::new();
        let mut j: usize = 0;
        while j < k
            invariant
                j <= k <= n,
                n == self.buf@.len(),
                self.buf@ == old(self).buf@,
                out@ == self.buf@.subrange(0, j as int),
            decreases k - j,
        {
            out.push(self.buf[j]);
            proof {
                assert(out@ =~= self.buf@.subrange(0, j as int + 1));
            }
            j += 1;
        }
        let mut rest: Vec<u8> = Vec::new();
        let mut m: usize = k;
        while m < n
            invariant
                k <= m <= n,
                n == self.buf@.len(),
                self.buf@ == old(self).buf@,
                rest@ == self.buf@.subrange(k as int, m as int),
            decreases n - m,
        {
            rest.push(self.buf[m]);
            proof {
                assert(rest@ =~= self.buf@.subrange(k as int, m as int + 1));
            }
            m += 1;
        }
        self.buf = rest;
        out
    }
}

/// Buffer conservation: one read splits the buffered bytes into the part
/// served and the part kept, so over any sequence of chunk arrivals and
/// reads, the bytes handed out followed by the bytes still buffered are
/// exactly the bytes received.
pub proof fn lemma_serve_conserves(buffered: Seq<u8>, capacity: int)
    requires
        0 <= capacity,
    ensures
        ({
            let k = if capacity < buffered.len() {
                capacity
            } else {
                buffered.len() as int
            };
            buffered.subrange(0, k) + buffered.subrange(k, buffered.len() as int) == buffered
        }),
{
    let k = if capacity < buffered.len() {
        capacity
    } else {
        buffered.len() as int
    };
    assert(buffered.subrange(0, k) + buffered.subrange(k, buffered.len() as int) =~= buffered);
}

/// The lazy stream's one-directional state machine: `Unsent` (holding the
/// exchange description), then `InFlight`, then either `Streaming` or,
/// on a non-success status, terminally `Failed`.
pub struct LazyResponseReader {
    request: Option<PreparedRequest>,
    in_flight: bool,
    failed: Option<u16>,
    reader: Option<ResponseReader>,
}

impl LazyResponseReader {
    /// The exchange description still held, before anything was sent.
    pub closed spec fn request_spec(self) -> Option<PreparedRequest> {
        self.request
    }

    pub closed spec fn in_flight_spec(self) -> bool {
        self.in_flight
    }

    /// The terminal non-success status, once the exchange resolved to one.
    pub closed spec fn failed_spec(self) -> Option<u16> {
        self.failed
    }

    pub closed spec fn streaming_spec(self) -> bool {
        self.reader is Some
    }

    /// The bytes received and not yet handed out, while streaming.
    pub closed spec fn stream_buffered(self) -> Seq<u8> {
        match self.reader {
            Some(r) => r.buffered(),
            None => Seq::empty(),
        }
    }

    pub open spec fn is_unsent(self) -> bool {
        self.request_spec() is Some
    }

    pub open spec fn is_in_flight(self) -> bool {
        self.in_flight_spec()
    }

    pub open spec fn is_failed(self) -> bool {
        self.failed_spec() is Some
    }

    pub open spec fn is_streaming(self) -> bool {
        self.streaming_spec()
    }

    /// Exactly one state is live at a time.
    pub open spec fn wf(self) -> bool {
        &&& self.is_unsent() ==> !self.is_in_flight() && !self.is_failed() && !self.is_streaming()
        &&& self.is_in_flight() ==> !self.is_unsent() && !self.is_failed() && !self.is_streaming()
        &&& self.is_failed() ==> !self.is_unsent() && !self.is_in_flight() && !self.is_streaming()
        &&& self.is_streaming() ==> !self.is_unsent() && !self.is_in_flight() && !self.is_failed()
        &&& self.is_unsent() || self.is_in_flight() || self.is_failed() || self.is_streaming()
    }

    /// Merely holds the exchange description: constructing a stream
    /// performs nothing, and dropping it before the first poll means the
    /// request is never issued.
    pub fn new(request: PreparedRequest) -> (r: LazyResponseReader)
        ensures
            r.wf(),
            r.is_unsent(),
            r.request_spec() == Some(request),
    {
        LazyResponseReader { request: Some(request), in_flight: false, failed: None, reader: None }
    }

    /// The first poll takes the exchange description out, exactly once;
    /// the caller performs it and reports back through `on_status`. Any
    /// later call yields nothing and changes nothing.
    pub fn begin(&mut self) -> (r: Option<PreparedRequest>)
        requires
            old(self).wf(),
        ensures
            final(self).wf(),
            match r {
                Some(p) => {
                    &&& old(self).is_unsent()
                    &&& old(self).request_spec() == Some(p)
                    &&& final(self).is_in_flight()
                },
                None => !old(self).is_unsent() && *final(self) == *old(self),
            },
    {
        match self.request.take() {
            Some(p) => {
                self.in_flight = true;
                Some(p)
            },
            None => None,
        }
    }

    /// How the exchange resolved. A success status begins streaming with
    /// an empty buffer; any other status is terminal — the stream fails
    /// every subsequent read with that status and yields no body bytes.
    pub fn on_status(&mut self, status: u16)
        requires
            old(self).wf(),
            old(self).is_in_flight(),
        ensures
            final(self).wf(),
            is_success_status(status) ==> final(self).is_streaming()
                && final(self).stream_buffered() == Seq::<u8>::empty(),
            !is_success_status(status) ==> final(self).is_failed() && final(self).failed_spec()
                == Some(status),
    {
        self.in_flight = false;
        if 200 <= status && status < 300 {
            self.reader = Some(ResponseReader::new());
        } else {
            self.failed = Some(status);
        }
    }

    /// The terminal status, if the exchange was refused.
    pub fn failure_status(&self) -> (r: Option<u16>)
        ensures
            r == self.failed_spec(),
    {
        self.failed
    }

    /// Asked before every read: once the exchange has resolved with a
    /// non-success status, every read fails with exactly that status.
    pub fn check_ready(&self) -> (r: Result<(), Error>)
        ensures
            match r {
                Ok(()) => self.failed_spec() is None,
                Err(e) => {
                    &&& self.failed_spec() matches Some(c)
                    &&& e == Error::ResponseError(c)
                },
            },
    {
        match self.failed {
            Some(c) => Err(Error::ResponseError(c)),
            None => Ok(()),
        }
    }

    /// Whether a read of `capacity` bytes needs another body chunk first.
    pub fn needs_input(&self, capacity: usize) -> (r: bool)
        requires
            self.wf(),
            self.is_streaming(),
        ensures
            r == (self.stream_buffered().len() < capacity),
    {
        match &self.reader {
            Some(rd) => rd.needs_input(capacity),
            None => {
                proof {
                    assert(false);
                }
                true
            },
        }
    }

    /// Feeds one body chunk into the stream's buffer.
    pub fn push_chunk(&mut self, chunk: &[u8])
        requires
            old(self).wf(),
            old(self).is_streaming(),
        ensures
            final(self).wf(),
            final(self).is_streaming(),
            final(self).stream_buffered() == old(self).stream_buffered() + chunk@,
            final(self).failed_spec() == old(self).failed_spec(),
            final(self).request_spec() == old(self).request_spec(),
    {
        match self.reader.take() {
            Some(mut rd) => {
                rd.push_chunk(chunk);
                self.reader = Some(rd);
            },
            None => {
                proof {
                    assert(false);
                }
            },
        }
    }

    /// Hands out at most `capacity` buffered bytes; the rest stay
    /// buffered for the next read.
    pub fn serve(&mut self, capacity: usize) -> (out: Vec<u8>)
        requires
            old(self).wf(),
            old(self).is_streaming(),
        ensures
            final(self).wf(),
            final(self).is_streaming(),
            ({
                let k = if capacity < old(self).stream_buffered().len() {
                    capacity as int
                } else {
                    old(self).stream_buffered().len() as int
                };
                &&& out@ == old(self).stream_buffered().subrange(0, k)
                &&& final(self).stream_buffered() == old(self).stream_buffered().subrange(
                    k,
                    old(self).stream_buffered().len() as int,
                )
            }),
            final(self).failed_spec() == old(self).failed_spec(),
            final(self).request_spec() == old(self).request_spec(),
    {
        match self.reader.take() {
            Some(mut rd) => {
                let out = rd.serve(capacity);
                self.reader = Some(rd);
                out
            },
            None => {
                proof {
                    assert(false);
                }
                Vec::new()
            },
        }
    }
}

} // verus!
