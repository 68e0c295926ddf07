//! The client-side session pool: an ordered collection of idle sessions,
//! oldest first. Retrieval pops the oldest; return pushes to the tail and
//! trims an oversized pool; the idle reclaimer removes everything beyond
//! the configured minimum. The sessions themselves are opaque here: the
//! caller dials, drives and closes them.

use vstd::prelude::*;

verus! {

/// A FIFO pool of idle sessions with a configured minimum to keep.
pub struct Client<S> {
    idle_sessions: Vec<S>,
    min_idle_sessions: usize,
    closed: bool,
}

impl<S> Client<S> {
    /// The idle sessions, oldest first.
    pub closed spec fn idle(self) -> Seq<S> {
        self.idle_sessions@
    }

    /// How many idle sessions the reclaimer keeps.
    pub closed spec fn spec_min_idle(self) -> usize {
        self.min_idle_sessions
    }

    /// The pool was shut down.
    pub closed spec fn spec_closed(self) -> bool {
        self.closed
    }

    /// An empty pool keeping at least `min_idle_sessions` on cleanup.
    pub fn new(min_idle_sessions: usize) -> (c: Client<S>)
        ensures
            c.idle().len() == 0,
            c.spec_min_idle() == min_idle_sessions,
            !c.spec_closed(),
    {
        Client { idle_sessions: Vec::new(), min_idle_sessions, closed: false }
    }

    /// How many sessions sit idle.
    pub fn idle_len(&self) -> (r: usize)
        ensures
            r == self.idle().len(),
    {
        self.idle_sessions.len()
    }

    /// Whether the pool was shut down.
    pub fn is_closed(&self) -> (r: bool)
        ensures
            r == self.spec_closed(),
    {
        self.closed
    }

    /// Take the oldest idle session, if any.
    pub fn get_idle_session(&mut self) -> (r: Option<S>)
        ensures
            old(self).idle().len() == 0 ==> r is None && *final (self) == *old(self),
            old(self).idle().len() > 0 ==> {
                &&& (r matches Some(s) && s == old(self).idle()[0])
                &&& final (self).idle() == old(self).idle().drop_first()
                &&& final (self).spec_min_idle() == old(self).spec_min_idle()
                &&& final (self).spec_closed() == old(self).spec_closed()
            },
    {
        if self.idle_sessions.len() == 0 {
            return None;
        }
        let s = self.idle_sessions.remove(0);
        proof {
            assert(self.idle_sessions@ =~= old(self).idle_sessions@.drop_first());
        }
        Some(s)
    }

    /// Put a session back at the tail. When the pool then holds more than
    /// twice the minimum, it is cut back to the minimum, oldest first; the
    /// overflow is returned for the caller to close. A closed pool returns
    /// the session itself.
    pub fn return_to_idle(&mut self, s: S) -> (overflow: Vec<S>)
        ensures
            old(self).spec_closed() ==> *final (self) == *old(self) && overflow@ == seq![s],
            !old(self).spec_closed() ==> ({
                let grown = old(self).idle().push(s);
                let m = old(self).spec_min_idle() as int;
                &&& final (self).spec_min_idle() == old(self).spec_min_idle()
                &&& final (self).spec_closed() == old(self).spec_closed()
                &&& if grown.len() > 2 * m {
                    final (self).idle() == grown.take(m) && overflow@ == grown.skip(m)
                } else {
                    final (self).idle() == grown && overflow@.len() == 0
                }
            }),
    {
        if self.closed {
            let mut overflow: Vec<S> = Vec::new();
            let ghost gs = s;
            overflow.push(s);
            proof {
                assert(overflow@ =~= seq![gs]);
            }
            return overflow;
        }
        self.idle_sessions.push(s);
        let doubled = match self.min_idle_sessions.checked_mul(2) {
            Some(t) => t,
            None => {
                let l = self.idle_sessions.len();
                let overflow: Vec<S> = Vec::new();
                return overflow;
            },
        };
        if self.idle_sessions.len() > doubled {
            let overflow = self.idle_sessions.split_off(self.min_idle_sessions);
            proof {
                assert(self.idle_sessions@ =~= old(self).idle().push(s).take(
                    old(self).spec_min_idle() as int,
                ));
                assert(overflow@ =~= old(self).idle().push(s).skip(
                    old(self).spec_min_idle() as int,
                ));
            }
            overflow
        } else {
            let overflow: Vec<S> = Vec::new();
            overflow
        }
    }

    /// Trim the pool to its minimum, oldest removed first; the removed
    /// sessions are returned for the caller to close.
    pub fn cleanup_idle_sessions(&mut self) -> (removed: Vec<S>)
        ensures
            ({
                let n = old(self).idle().len() as int;
                let m = old(self).spec_min_idle() as int;
                &&& final (self).spec_min_idle() == old(self).spec_min_idle()
                &&& final (self).spec_closed() == old(self).spec_closed()
                &&& if n > m {
                    removed@ == old(self).idle().take(n - m) && final (self).idle() == old(
                        self,
                    ).idle().skip(n - m)
                } else {
                    removed@.len() == 0 && *final (self) == *old(self)
                }
            }),
    {
        let n = self.idle_sessions.len();
        if n > self.min_idle_sessions {
            let excess = n - self.min_idle_sessions;
            let mut removed = self.idle_sessions.split_off(excess);
            std::mem::swap(&mut removed, &mut self.idle_sessions);
            proof {
                assert(removed@ =~= old(self).idle().take(
                    old(self).idle().len() - old(self).spec_min_idle(),
                ));
                assert(self.idle_sessions@ =~= old(self).idle().skip(
                    old(self).idle().len() - old(self).spec_min_idle(),
                ));
            }
            removed
        } else {
            Vec::new()
        }
    }

    /// Shut the pool down: every idle session is returned for the caller
    /// to close, and nothing is pooled from now on.
    pub fn close(&mut self) -> (all: Vec<S>)
        ensures
            final (self).spec_closed(),
            final (self).idle().len() == 0,
            final (self).spec_min_idle() == old(self).spec_min_idle(),
            all@ == old(self).idle(),
    {
        self.closed = true;
        let mut drained: Vec<S> = Vec::new();
        std::mem::swap(&mut drained, &mut self.idle_sessions);
        drained
    }
}

} // verus!
