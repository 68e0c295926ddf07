//! The user-facing stream endpoint: a partial-read buffer over the
//! session's per-stream receive queue, and the frames a write or a close
//! owes the session's outbound path.

use vstd::prelude::*;
use crate::frame::{Frame, CMD_FIN, CMD_PSH};
use crate::session::ProxyError;

verus! {

/// One logical byte stream inside a session, as its consumer sees it.
pub struct Stream {
    id: u32,
    read_buffer: Vec<u8>,
    read_offset: usize,
    closed: bool,
}

impl Stream {
    /// The stream id inside the session.
    pub closed spec fn spec_id(self) -> u32 {
        self.id
    }

    /// The stream id inside the session.
    pub fn id(&self) -> (r: u32)
        ensures
            r == self.spec_id(),
    {
        self.id
    }

    /// The bytes taken from the session but not yet read by the consumer.
    pub closed spec fn buffered(self) -> Seq<u8> {
        self.read_buffer@.skip(self.read_offset as int)
    }

    /// The consumer closed the stream.
    pub closed spec fn spec_closed(self) -> bool {
        self.closed
    }

    /// The partial-read cursor lies within its buffer.
    pub closed spec fn wf(self) -> bool {
        self.read_offset <= self.read_buffer@.len()
    }

    /// A fresh open endpoint for stream `id`.
    pub fn new(id: u32) -> (s: Stream)
        ensures
            s.spec_id() == id,
            !s.spec_closed(),
            s.buffered().len() == 0,
            s.wf(),
    {
        let s = Stream { id, read_buffer: Vec::new(), read_offset: 0, closed: false };
        proof {
            assert(s.buffered() =~= Seq::<u8>::empty());
        }
        s
    }

    /// Whether the consumer closed the stream.
    pub fn is_closed(&self) -> (r: bool)
        ensures
            r == self.spec_closed(),
    {
        self.closed
    }

    /// Whether buffered bytes await the consumer.
    pub fn has_buffered(&self) -> (r: bool)
        requires
            self.wf(),
        ensures
            r <==> self.buffered().len() > 0,
    {
        self.read_offset < self.read_buffer.len()
    }

    /// Stash a payload popped from the session's receive queue; only when
    /// the previous one was fully consumed.
    pub fn accept_chunk(&mut self, chunk: Vec<u8>)
        requires
            old(self).wf(),
            old(self).buffered().len() == 0,
        ensures
            final (self).wf(),
            final (self).buffered() == chunk@,
            final (self).spec_id() == old(self).spec_id(),
            final (self).spec_closed() == old(self).spec_closed(),
    {
        self.read_buffer = chunk;
        self.read_offset = 0;
        proof {
            assert(self.buffered() =~= self.read_buffer@);
        }
    }

    /// Read up to `max` buffered bytes, advancing the cursor past them.
    pub fn take_buffered(&mut self, max: usize) -> (out: Vec<u8>)
        requires
            old(self).wf(),
        ensures
            final (self).wf(),
            out@ == old(self).buffered().take(
                if max <= old(self).buffered().len() {
                    max as int
                } else {
                    old(self).buffered().len() as int
                },
            ),
            final (self).buffered() == old(self).buffered().skip(out@.len() as int),
            final (self).spec_id() == old(self).spec_id(),
            final (self).spec_closed() == old(self).spec_closed(),
    {
        let avail = self.read_buffer.len() - self.read_offset;
        let n = if max <= avail {
            max
        } else {
            avail
        };
        let out = vstd::slice::slice_to_vec(
            vstd::slice::slice_subrange(
                self.read_buffer.as_slice(),
                self.read_offset,
                self.read_offset + n,
            ),
        );
        self.read_offset = self.read_offset + n;
        proof {
            assert(out@ =~= old(self).buffered().take(n as int));
            assert(self.buffered() =~= old(self).buffered().skip(n as int));
        }
        out
    }

    /// The PSH frame a write of `data` owes the session's outbound path;
    /// a closed stream refuses writes, its siblings unaffected.
    pub fn write_frame(&self, data: Vec<u8>) -> (r: Result<Frame, ProxyError>)
        ensures
            self.spec_closed() ==> r == Result::<Frame, ProxyError>::Err(ProxyError::StreamClosed),
            !self.spec_closed() ==> (r matches Ok(f) && f.cmd == CMD_PSH && f.sid == self.spec_id()
                && f.data == data),
    {
        if self.closed {
            return Err(ProxyError::StreamClosed);
        }
        Ok(Frame::with_data(CMD_PSH, self.id, data))
    }

    /// Close the endpoint: the first close owes the session a FIN for this
    /// stream; every later close changes nothing and owes nothing.
    pub fn close(&mut self) -> (r: Option<Frame>)
        ensures
            old(self).spec_closed() ==> r is None && *final (self) == *old(self),
            !old(self).spec_closed() ==> {
                &&& (r matches Some(f) && f.cmd == CMD_FIN && f.sid == old(self).spec_id()
                    && f.data@.len() == 0)
                &&& final (self).spec_closed()
                &&& final (self).spec_id() == old(self).spec_id()
                &&& final (self).buffered() == old(self).buffered()
                &&& final (self).wf() == old(self).wf()
            },
    {
        if self.closed {
            return None;
        }
        self.closed = true;
        Some(Frame::new(CMD_FIN, self.id))
    }
}

} // verus!
