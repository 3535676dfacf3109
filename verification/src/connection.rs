//! Per-connection state.
//!
//! A [`Connection`] is created when an accept completes and lives in the
//! registry until it is torn down. It remembers the identifier the I/O
//! substrate assigned to it, the segments received so far, and how many of
//! its operations are still outstanding; a connection being torn down stays
//! registered, no longer issuing operations, until its last outstanding
//! operation has completed.

use vstd::prelude::*;
use crate::http;

verus! {

/// The model of a [`Connection`].
#[verifier::ext_equal]
pub ghost struct ConnectionModel {
    /// The identifier the I/O substrate assigned at accept time.
    pub qd: u64,
    /// Every payload received so far, oldest first.
    pub receive_queue: Seq<Seq<u8>>,
    /// Whether a receive operation is outstanding on this connection.
    pub recv_pending: bool,
    /// How many send operations are outstanding on this connection.
    pub sends_pending: u64,
    /// Whether the connection is being torn down: no operation is issued for
    /// it any more, and it is dropped from the registry once its outstanding
    /// operations have drained.
    pub closing: bool,
}

impl ConnectionModel {
    /// The state of a connection whose accept has just completed: its first
    /// receive is submitted together with the registration.
    pub open spec fn init(qd: u64) -> ConnectionModel {
        ConnectionModel {
            qd,
            receive_queue: Seq::empty(),
            recv_pending: true,
            sends_pending: 0,
            closing: false,
        }
    }

    /// Whether any operation is still outstanding on the connection.
    pub open spec fn has_outstanding(self) -> bool {
        self.recv_pending || self.sends_pending > 0
    }
}

/// State of one accepted connection.
pub struct Connection {
    queue_descriptor: u64,
    receive_queue: Vec<Vec<u8>>,
    recv_pending: bool,
    sends_pending: u64,
    closing: bool,
}

impl View for Connection {
    type V = ConnectionModel;

    closed spec fn view(&self) -> ConnectionModel {
        ConnectionModel {
            qd: self.queue_descriptor,
            receive_queue: self.receive_queue.deep_view(),
            recv_pending: self.recv_pending,
            sends_pending: self.sends_pending,
            closing: self.closing,
        }
    }
}

impl Connection {
    /// A freshly accepted connection: nothing received yet, one receive
    /// outstanding, no send outstanding.
    pub fn new(qd: u64) -> (c: Connection)
        ensures
            c@ == ConnectionModel::init(qd),
    {
        let c = Connection {
            queue_descriptor: qd,
            receive_queue: Vec::new(),
            recv_pending: true,
            sends_pending: 0,
            closing: false,
        };
        proof {
            assert(c@.receive_queue =~= ConnectionModel::init(qd).receive_queue);
        }
        c
    }

    /// The identifier the I/O substrate assigned to this connection.
    pub fn qd(&self) -> (r: u64)
        ensures
            r == self@.qd,
    {
        self.queue_descriptor
    }

    /// How many payloads this connection has received so far.
    pub fn received_count(&self) -> (r: usize)
        ensures
            r == self@.receive_queue.len(),
    {
        self.receive_queue.len()
    }

    /// Whether a receive is outstanding on this connection.
    pub fn recv_pending(&self) -> (r: bool)
        ensures
            r == self@.recv_pending,
    {
        self.recv_pending
    }

    /// How many sends are outstanding on this connection.
    pub fn sends_pending(&self) -> (r: u64)
        ensures
            r == self@.sends_pending,
    {
        self.sends_pending
    }

    /// Whether the connection is being torn down.
    pub fn closing(&self) -> (r: bool)
        ensures
            r == self@.closing,
    {
        self.closing
    }

    /// Whether any operation is still outstanding on this connection.
    pub fn has_outstanding(&self) -> (r: bool)
        ensures
            r == self@.has_outstanding(),
    {
        self.recv_pending || self.sends_pending > 0
    }

    /// A receive completed while the connection is being torn down: the
    /// receive is consumed and nothing is re-armed.
    pub fn drain_receive(&mut self)
        requires
            old(self)@.recv_pending,
        ensures
            final(self)@ == (ConnectionModel { recv_pending: false, ..old(self)@ }),
    {
        self.recv_pending = false;
    }

    /// The receive outstanding on the connection failed: the failure stays
    /// with this connection, which turns to tearing down.
    pub fn abort_receive(&mut self)
        requires
            old(self)@.recv_pending,
        ensures
            final(self)@ == (ConnectionModel {
                recv_pending: false,
                closing: true,
                ..old(self)@
            }),
    {
        self.recv_pending = false;
        self.closing = true;
    }

    /// One send completed; its buffer is no longer in flight.
    pub fn complete_send(&mut self)
        requires
            old(self)@.sends_pending > 0,
        ensures
            final(self)@ == (ConnectionModel {
                sends_pending: (old(self)@.sends_pending - 1) as u64,
                ..old(self)@
            }),
    {
        self.sends_pending = self.sends_pending - 1;
    }

    /// One send failed: the failure stays with this connection, which turns
    /// to tearing down.
    pub fn fail_send(&mut self)
        requires
            old(self)@.sends_pending > 0,
        ensures
            final(self)@ == (ConnectionModel {
                sends_pending: (old(self)@.sends_pending - 1) as u64,
                closing: true,
                ..old(self)@
            }),
    {
        self.sends_pending = self.sends_pending - 1;
        self.closing = true;
    }

    /// What a completed receive does to a connection that is not being torn
    /// down, and what is sent back for it.
    ///
    /// `payload` is the received segment and `response_body` what the request
    /// processor produced for it. The payload is recorded either way. When a
    /// response body is there and one more send can be tracked, the response
    /// message for it goes out and the result carries its bytes; otherwise
    /// (the processor failed, or the send count would overflow) the
    /// connection turns to tearing down and nothing is sent.
    pub fn process_data(&mut self, payload: Vec<u8>, response_body: Option<Vec<u8>>) -> (r:
        Option<Vec<u8>>)
        requires
            old(self)@.recv_pending,
            !old(self)@.closing,
        ensures
            final(self)@.qd == old(self)@.qd,
            final(self)@.receive_queue == old(self)@.receive_queue.push(payload@),
            match response_body {
                Some(body) => {
                    if old(self)@.sends_pending < u64::MAX {
                        &&& r matches Some(data) && data@ == http::response_bytes(
                            body@,
                        )
                        &&& final(self)@.recv_pending
                        &&& final(self)@.sends_pending == old(self)@.sends_pending + 1
                        &&& !final(self)@.closing
                    } else {
                        &&& r is None
                        &&& !final(self)@.recv_pending
                        &&& final(self)@.sends_pending == old(self)@.sends_pending
                        &&& final(self)@.closing
                    }
                },
                None => {
                    &&& r is None
                    &&& !final(self)@.recv_pending
                    &&& final(self)@.sends_pending == old(self)@.sends_pending
                    &&& final(self)@.closing
                },
            },
    {
        self.receive_queue.push(payload);
        proof {
            assert(self.receive_queue.deep_view() =~~= old(self)@.receive_queue.push(
                self.receive_queue@.last()@,
            ));
        }
        match response_body {
            Some(body) => {
                if self.sends_pending < u64::MAX {
                    let data = http::build_response(&body);
                    self.sends_pending = self.sends_pending + 1;
                    Some(data)
                } else {
                    self.recv_pending = false;
                    self.closing = true;
                    None
                }
            },
            None => {
                self.recv_pending = false;
                self.closing = true;
                None
            },
        }
    }
}

} // verus!
