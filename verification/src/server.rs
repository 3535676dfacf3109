//! The event loop's decision core.
//!
//! A [`Server`] holds the connection registry and the model of every
//! operation outstanding at the I/O substrate. The driver around it submits
//! operations and waits for completions; each completion comes in as an
//! [`Event`], and [`Server::handle_event`] answers with the [`Action`]s to
//! submit next. The whole transition is pinned down by the specification
//! function [`ServerModel::step`], and [`ServerModel::wf`] is the invariant
//! every reachable server state keeps: exactly one accept outstanding, and
//! every registered connection carrying at least one outstanding operation.

use vstd::prelude::*;
use std::collections::HashMap;
use crate::connection::Connection;
use crate::connection::ConnectionModel;
use crate::http;

verus! {

broadcast use vstd::std_specs::hash::group_hash_axioms;

/// One completed operation, as the I/O substrate reports it, together with
/// what the request processor made of a received payload.
pub enum Event {
    /// The outstanding accept completed: a new connection `qd` exists.
    Accepted { qd: u64 },
    /// The outstanding accept completed with an error.
    AcceptFailed,
    /// The receive outstanding on `qd` completed, carrying `payload`;
    /// `response_body` is what the request processor produced for that
    /// payload (`None`: the processor failed, e.g. the served resource could
    /// not be read).
    Received { qd: u64, payload: Vec<u8>, response_body: Option<Vec<u8>> },
    /// The receive outstanding on `qd` completed with an error.
    ReceiveFailed { qd: u64 },
    /// One send outstanding on `qd` completed; its buffer is released.
    Sent { qd: u64 },
    /// One send outstanding on `qd` completed with an error.
    SendFailed { qd: u64 },
}

/// The model of an [`Event`].
pub ghost enum EventModel {
    Accepted { qd: u64 },
    AcceptFailed,
    Received { qd: u64, payload: Seq<u8>, response_body: Option<Seq<u8>> },
    ReceiveFailed { qd: u64 },
    Sent { qd: u64 },
    SendFailed { qd: u64 },
}

impl View for Event {
    type V = EventModel;

    open spec fn view(&self) -> EventModel {
        match self {
            Event::Accepted { qd } => EventModel::Accepted { qd: *qd },
            Event::AcceptFailed => EventModel::AcceptFailed,
            Event::Received { qd, payload, response_body } => EventModel::Received {
                qd: *qd,
                payload: payload@,
                response_body: match response_body {
                    Some(body) => Some(body@),
                    None => None,
                },
            },
            Event::ReceiveFailed { qd } => EventModel::ReceiveFailed { qd: *qd },
            Event::Sent { qd } => EventModel::Sent { qd: *qd },
            Event::SendFailed { qd } => EventModel::SendFailed { qd: *qd },
        }
    }
}

/// One operation the driver must submit to the I/O substrate (or perform)
/// before it waits for the next completion.
#[derive(Debug, PartialEq, Eq, Clone)]
pub enum Action {
    /// Submit an accept on the listening endpoint.
    SubmitAccept,
    /// Submit a receive on connection `qd`.
    SubmitReceive { qd: u64 },
    /// Submit a send of `data` on connection `qd`.
    SubmitSend { qd: u64, data: Vec<u8> },
    /// Close connection `qd` and release whatever the driver still holds for
    /// it; the registry no longer knows the identifier.
    Close { qd: u64 },
}

/// The model of an [`Action`].
pub ghost enum ActionModel {
    SubmitAccept,
    SubmitReceive { qd: u64 },
    SubmitSend { qd: u64, data: Seq<u8> },
    Close { qd: u64 },
}

impl View for Action {
    type V = ActionModel;

    open spec fn view(&self) -> ActionModel {
        match self {
            Action::SubmitAccept => ActionModel::SubmitAccept,
            Action::SubmitReceive { qd } => ActionModel::SubmitReceive { qd: *qd },
            Action::SubmitSend { qd, data } => ActionModel::SubmitSend { qd: *qd, data: data@ },
            Action::Close { qd } => ActionModel::Close { qd: *qd },
        }
    }
}

/// A completion that no outstanding operation explains. Such an event
/// witnesses a defect in the driver or the substrate, never an expected
/// condition, and the caller is meant to abort on it.
#[derive(PartialEq, Eq, Structural, Clone, Copy, Debug)]
pub enum Fault {
    /// An accept completed while no accept was outstanding.
    StrayAccept,
    /// An accept produced an identifier that is already registered.
    DuplicateConnection { qd: u64 },
    /// A receive or send completed for an identifier absent from the
    /// registry.
    UnknownConnection { qd: u64 },
    /// A receive completed on a connection with no receive outstanding.
    StrayReceive { qd: u64 },
    /// A send completed on a connection with no send outstanding.
    StraySend { qd: u64 },
}

/// The model of a [`Server`]: the registry and the count of outstanding
/// accepts.
#[verifier::ext_equal]
pub ghost struct ServerModel {
    /// Per-connection state, keyed by connection identifier.
    pub connections: Map<u64, ConnectionModel>,
    /// How many accepts are outstanding on the listening endpoint.
    pub accepts_pending: u64,
}

/// What one transition yields: the state after it, the operations to submit,
/// and the fault, if the event matched no outstanding operation (the state
/// then stays as it was and nothing is submitted).
#[verifier::ext_equal]
pub ghost struct StepOutcome {
    pub post: ServerModel,
    pub actions: Seq<ActionModel>,
    pub fault: Option<Fault>,
}

impl ServerModel {
    /// The state right after startup: no connection yet, and the one accept
    /// the driver is told to submit outstanding.
    pub open spec fn init() -> ServerModel {
        ServerModel { connections: Map::empty(), accepts_pending: 1 }
    }

    /// Well-formedness, kept by every transition: exactly one accept is
    /// outstanding — the listening endpoint never goes deaf — and every
    /// registered connection is keyed by its own identifier, has at least one
    /// operation outstanding, and keeps a receive outstanding for as long as
    /// it is not being torn down.
    pub open spec fn wf(self) -> bool {
        &&& self.accepts_pending == 1
        &&& forall|qd: u64| self.connections.contains_key(qd) ==> {
            let c = #[trigger] self.connections[qd];
            &&& c.qd == qd
            &&& c.has_outstanding()
            &&& !c.closing ==> c.recv_pending
        }
    }

    /// How many receives are outstanding on connection `qd`.
    pub open spec fn outstanding_receives(self, qd: u64) -> nat {
        if self.connections.contains_key(qd) && self.connections[qd].recv_pending {
            1
        } else {
            0
        }
    }

    /// How many sends are outstanding on connection `qd`.
    pub open spec fn outstanding_sends(self, qd: u64) -> nat {
        if self.connections.contains_key(qd) {
            self.connections[qd].sends_pending as nat
        } else {
            0
        }
    }

    /// The outcome when the event matches no outstanding operation: the
    /// fault is reported and nothing changes.
    pub open spec fn faulted(self, fault: Fault) -> StepOutcome {
        StepOutcome { post: self, actions: Seq::empty(), fault: Some(fault) }
    }

    /// A connection after the completion of one of its operations: kept with
    /// `c` if `c` still has an operation outstanding, dropped from the
    /// registry (with a close handed to the driver) once it is being torn
    /// down and nothing is outstanding any more.
    pub open spec fn settle(self, qd: u64, c: ConnectionModel, actions: Seq<ActionModel>)
        -> StepOutcome {
        if c.has_outstanding() {
            StepOutcome {
                post: ServerModel { connections: self.connections.insert(qd, c), ..self },
                actions,
                fault: None,
            }
        } else {
            StepOutcome {
                post: ServerModel { connections: self.connections.remove(qd), ..self },
                actions: actions.push(ActionModel::Close { qd }),
                fault: None,
            }
        }
    }

    /// The one transition of the server: what the completion `ev` does to the
    /// state and which operations are submitted in the same iteration.
    pub open spec fn step(self, ev: EventModel) -> StepOutcome {
        match ev {
            EventModel::Accepted { qd } => {
                if self.accepts_pending == 0 {
                    self.faulted(Fault::StrayAccept)
                } else if self.connections.contains_key(qd) {
                    self.faulted(Fault::DuplicateConnection { qd })
                } else {
                    // Register the connection, start its first receive, and
                    // re-arm the accept so that the endpoint keeps listening.
                    StepOutcome {
                        post: ServerModel {
                            connections: self.connections.insert(qd, ConnectionModel::init(qd)),
                            ..self
                        },
                        actions: seq![
                            ActionModel::SubmitReceive { qd },
                            ActionModel::SubmitAccept,
                        ],
                        fault: None,
                    }
                }
            },
            EventModel::AcceptFailed => {
                if self.accepts_pending == 0 {
                    self.faulted(Fault::StrayAccept)
                } else {
                    // A failed accept affects no connection: re-arm and go on.
                    StepOutcome {
                        post: self,
                        actions: seq![ActionModel::SubmitAccept],
                        fault: None,
                    }
                }
            },
            EventModel::Received { qd, payload, response_body } => {
                if !self.connections.contains_key(qd) {
                    self.faulted(Fault::UnknownConnection { qd })
                } else if !self.connections[qd].recv_pending {
                    self.faulted(Fault::StrayReceive { qd })
                } else {
                    let c = self.connections[qd];
                    if c.closing {
                        // Draining: the receive is consumed and not re-armed.
                        self.settle(qd, ConnectionModel { recv_pending: false, ..c }, Seq::empty())
                    } else {
                        match response_body {
                            Some(body) if c.sends_pending < u64::MAX => self.settle(
                                qd,
                                ConnectionModel {
                                    receive_queue: c.receive_queue.push(payload),
                                    sends_pending: (c.sends_pending + 1) as u64,
                                    ..c
                                },
                                seq![
                                    ActionModel::SubmitSend {
                                        qd,
                                        data: http::response_bytes(body),
                                    },
                                    ActionModel::SubmitReceive { qd },
                                ],
                            ),
                            _ => self.settle(
                                qd,
                                ConnectionModel {
                                    receive_queue: c.receive_queue.push(payload),
                                    recv_pending: false,
                                    closing: true,
                                    ..c
                                },
                                Seq::empty(),
                            ),
                        }
                    }
                }
            },
            EventModel::ReceiveFailed { qd } => {
                if !self.connections.contains_key(qd) {
                    self.faulted(Fault::UnknownConnection { qd })
                } else if !self.connections[qd].recv_pending {
                    self.faulted(Fault::StrayReceive { qd })
                } else {
                    // The failure stays with this connection: tear it down.
                    let c = self.connections[qd];
                    self.settle(
                        qd,
                        ConnectionModel { recv_pending: false, closing: true, ..c },
                        Seq::empty(),
                    )
                }
            },
            EventModel::Sent { qd } => {
                if !self.connections.contains_key(qd) {
                    self.faulted(Fault::UnknownConnection { qd })
                } else if self.connections[qd].sends_pending == 0 {
                    self.faulted(Fault::StraySend { qd })
                } else {
                    let c = self.connections[qd];
                    self.settle(
                        qd,
                        ConnectionModel { sends_pending: (c.sends_pending - 1) as u64, ..c },
                        Seq::empty(),
                    )
                }
            },
            EventModel::SendFailed { qd } => {
                if !self.connections.contains_key(qd) {
                    self.faulted(Fault::UnknownConnection { qd })
                } else if self.connections[qd].sends_pending == 0 {
                    self.faulted(Fault::StraySend { qd })
                } else {
                    let c = self.connections[qd];
                    self.settle(
                        qd,
                        ConnectionModel {
                            sends_pending: (c.sends_pending - 1) as u64,
                            closing: true,
                            ..c
                        },
                        Seq::empty(),
                    )
                }
            },
        }
    }
}

/// The models of a sequence of actions.
pub open spec fn action_models(actions: Seq<Action>) -> Seq<ActionModel> {
    actions.map_values(|a: Action| a@)
}

/// The server: the connection registry together with the model of what is
/// outstanding at the I/O substrate.
pub struct Server {
    connections: HashMap<u64, Connection>,
    accepts_pending: u64,
}

impl View for Server {
    type V = ServerModel;

    closed spec fn view(&self) -> ServerModel {
        ServerModel {
            connections: self.connections@.map_values(|c: Connection| c@),
            accepts_pending: self.accepts_pending,
        }
    }
}

impl Server {
    /// A fresh server, and the operations the driver must submit before it
    /// first waits: the one accept on the listening endpoint.
    pub fn new() -> (r: (Server, Vec<Action>))
        ensures
            r.0@ == ServerModel::init(),
            r.0@.wf(),
            action_models(r.1@) == seq![ActionModel::SubmitAccept],
    {
        let s = Server { connections: HashMap::new(), accepts_pending: 1 };
        proof {
            assert(s@.connections =~= ServerModel::init().connections);
        }
        let mut actions: Vec<Action> = Vec::new();
        actions.push(Action::SubmitAccept);
        proof {
            assert(action_models(actions@) =~= seq![ActionModel::SubmitAccept]);
        }
        (s, actions)
    }

    /// How many connections the registry holds.
    pub fn connection_count(&self) -> (r: usize)
        ensures
            r == self@.connections.len(),
    {
        proof {
            assert(self@.connections.dom() =~= self.connections@.dom());
        }
        self.connections.len()
    }

    /// Whether connection `qd` is registered.
    pub fn is_registered(&self, qd: u64) -> (r: bool)
        ensures
            r == self@.connections.contains_key(qd),
    {
        self.connections.contains_key(&qd)
    }

    /// How many accepts are outstanding on the listening endpoint.
    pub fn accepts_outstanding(&self) -> (r: u64)
        ensures
            r == self@.accepts_pending,
    {
        self.accepts_pending
    }

    /// Put connection `qd` — just taken out of the registry — back after one
    /// of its operations completed, or, once nothing is outstanding on it any
    /// more, leave it out and append a close for the driver to `actions`.
    fn settle(&mut self, qd: u64, c: Connection, actions: Vec<Action>) -> (r: Vec<Action>)
        requires
            !old(self)@.connections.contains_key(qd),
        ensures
            ({
                let o = old(self)@.settle(qd, c@, action_models(actions@));
                &&& final(self)@ == o.post
                &&& action_models(r@) == o.actions
            }),
    {
        let ghost o = self@.settle(qd, c@, action_models(actions@));
        if c.has_outstanding() {
            let ghost cm = c@;
            self.connections.insert(qd, c);
            proof {
                assert(self@.connections =~= old(self)@.connections.insert(qd, cm));
                assert(self@ =~= o.post);
            }
            actions
        } else {
            let mut r = actions;
            r.push(Action::Close { qd });
            proof {
                assert(old(self)@.connections.remove(qd) =~= old(self)@.connections);
                assert(self@ =~= o.post);
                assert(action_models(r@) =~= o.actions);
            }
            r
        }
    }

    /// Dispatch one completion.
    ///
    /// The whole effect — the registry and the outstanding bookkeeping after
    /// the event, the operations handed back for submission, and whether the
    /// event was rejected as unexplained — is what [`ServerModel::step`] says
    /// of the model state.
    pub fn handle_event(&mut self, event: Event) -> (r: Result<Vec<Action>, Fault>)
        ensures
            final(self)@ == old(self)@.step(event@).post,
            match r {
                Ok(actions) => old(self)@.step(event@).fault is None && action_models(actions@)
                    == old(self)@.step(event@).actions,
                Err(fault) => old(self)@.step(event@).fault == Some(fault),
            },
    {
        let ghost pre = self@;
        match event {
            Event::Accepted { qd } => {
                if self.accepts_pending == 0 {
                    Err(Fault::StrayAccept)
                } else if self.connections.contains_key(&qd) {
                    Err(Fault::DuplicateConnection { qd })
                } else {
                    let c = Connection::new(qd);
                    self.connections.insert(qd, c);
                    let mut actions: Vec<Action> = Vec::new();
                    actions.push(Action::SubmitReceive { qd });
                    actions.push(Action::SubmitAccept);
                    proof {
                        assert(self@.connections =~= pre.connections.insert(
                            qd,
                            ConnectionModel::init(qd),
                        ));
                        assert(self@ =~= pre.step(EventModel::Accepted { qd }).post);
                        assert(action_models(actions@) =~= pre.step(
                            EventModel::Accepted { qd },
                        ).actions);
                    }
                    Ok(actions)
                }
            },
            Event::AcceptFailed => {
                if self.accepts_pending == 0 {
                    Err(Fault::StrayAccept)
                } else {
                    let mut actions: Vec<Action> = Vec::new();
                    actions.push(Action::SubmitAccept);
                    proof {
                        assert(action_models(actions@) =~= pre.step(
                            EventModel::AcceptFailed,
                        ).actions);
                    }
                    Ok(actions)
                }
            },
            Event::Received { qd, payload, response_body } => {
                let ghost ev = EventModel::Received {
                    qd,
                    payload: payload@,
                    response_body: match &response_body {
                        Some(body) => Some(body@),
                        None => None,
                    },
                };
                match self.connections.remove(&qd) {
                    None => {
                        proof {
                            assert(self@.connections =~= pre.connections);
                            assert(self@ =~= pre);
                        }
                        Err(Fault::UnknownConnection { qd })
                    },
                    Some(mut c) => {
                        if !c.recv_pending() {
                            self.connections.insert(qd, c);
                            proof {
                                assert(self@.connections =~= pre.connections);
                                assert(self@ =~= pre);
                            }
                            Err(Fault::StrayReceive { qd })
                        } else if c.closing() {
                            c.drain_receive();
                            let ghost mid = self@;
                            let ghost cm = c@;
                            let acts = self.settle(qd, c, Vec::new());
                            proof {
                                assert(action_models(Seq::<Action>::empty()) =~= Seq::<
                                    ActionModel,
                                >::empty());
                                lemma_settle_after_remove(pre, mid, qd, cm, Seq::empty());
                                assert(self@ =~= pre.step(ev).post);
                            }
                            Ok(acts)
                        } else {
                            let response = c.process_data(payload, response_body);
                            let mut actions: Vec<Action> = Vec::new();
                            match response {
                                Some(data) => {
                                    actions.push(Action::SubmitSend { qd, data });
                                    actions.push(Action::SubmitReceive { qd });
                                },
                                None => {},
                            }
                            let ghost mid = self@;
                            let ghost cm = c@;
                            let ghost acts_model = action_models(actions@);
                            let acts = self.settle(qd, c, actions);
                            proof {
                                lemma_settle_after_remove(pre, mid, qd, cm, acts_model);
                                assert(self@ =~= pre.step(ev).post);
                                assert(action_models(acts@) =~= pre.step(ev).actions);
                            }
                            Ok(acts)
                        }
                    },
                }
            },
            Event::ReceiveFailed { qd } => {
                let ghost ev = EventModel::ReceiveFailed { qd };
                match self.connections.remove(&qd) {
                    None => {
                        proof {
                            assert(self@.connections =~= pre.connections);
                            assert(self@ =~= pre);
                        }
                        Err(Fault::UnknownConnection { qd })
                    },
                    Some(mut c) => {
                        if !c.recv_pending() {
                            self.connections.insert(qd, c);
                            proof {
                                assert(self@.connections =~= pre.connections);
                                assert(self@ =~= pre);
                            }
                            Err(Fault::StrayReceive { qd })
                        } else {
                            c.abort_receive();
                            let ghost mid = self@;
                            let ghost cm = c@;
                            let acts = self.settle(qd, c, Vec::new());
                            proof {
                                lemma_settle_after_remove(pre, mid, qd, cm, Seq::empty());
                                assert(self@ =~= pre.step(ev).post);
                            }
                            Ok(acts)
                        }
                    },
                }
            },
            Event::Sent { qd } => {
                let ghost ev = EventModel::Sent { qd };
                match self.connections.remove(&qd) {
                    None => {
                        proof {
                            assert(self@.connections =~= pre.connections);
                            assert(self@ =~= pre);
                        }
                        Err(Fault::UnknownConnection { qd })
                    },
                    Some(mut c) => {
                        if c.sends_pending() == 0 {
                            self.connections.insert(qd, c);
                            proof {
                                assert(self@.connections =~= pre.connections);
                                assert(self@ =~= pre);
                            }
                            Err(Fault::StraySend { qd })
                        } else {
                            c.complete_send();
                            let ghost mid = self@;
                            let ghost cm = c@;
                            let acts = self.settle(qd, c, Vec::new());
                            proof {
                                lemma_settle_after_remove(pre, mid, qd, cm, Seq::empty());
                                assert(self@ =~= pre.step(ev).post);
                            }
                            Ok(acts)
                        }
                    },
                }
            },
            Event::SendFailed { qd } => {
                let ghost ev = EventModel::SendFailed { qd };
                match self.connections.remove(&qd) {
                    None => {
                        proof {
                            assert(self@.connections =~= pre.connections);
                            assert(self@ =~= pre);
                        }
                        Err(Fault::UnknownConnection { qd })
                    },
                    Some(mut c) => {
                        if c.sends_pending() == 0 {
                            self.connections.insert(qd, c);
                            proof {
                                assert(self@.connections =~= pre.connections);
                                assert(self@ =~= pre);
                            }
                            Err(Fault::StraySend { qd })
                        } else {
                            c.fail_send();
                            let ghost mid = self@;
                            let ghost cm = c@;
                            let acts = self.settle(qd, c, Vec::new());
                            proof {
                                lemma_settle_after_remove(pre, mid, qd, cm, Seq::empty());
                                assert(self@ =~= pre.step(ev).post);
                            }
                            Ok(acts)
                        }
                    },
                }
            },
        }
    }
}

/// The state after a whole sequence of completions, first one first; faulted
/// events leave the state as it was, as [`ServerModel::step`] says.
pub open spec fn run_events(s: ServerModel, events: Seq<EventModel>) -> ServerModel
    decreases events.len(),
{
    if events.len() == 0 {
        s
    } else {
        run_events(s.step(events.first()).post, events.drop_first())
    }
}

/// Well-formedness holds along every run: whatever completions arrive in
/// whatever order, a server that starts well-formed stays so.
pub proof fn lemma_run_preserves_wf(s: ServerModel, events: Seq<EventModel>)
    requires
        s.wf(),
    ensures
        run_events(s, events).wf(),
    decreases events.len(),
{
    if events.len() > 0 {
        lemma_step_preserves_wf(s, events.first());
        lemma_run_preserves_wf(s.step(events.first()).post, events.drop_first());
    }
}

/// The server never stops listening: from startup, after any sequence of
/// completions, exactly one accept is still outstanding.
pub proof fn lemma_always_accepting(events: Seq<EventModel>)
    ensures
        run_events(ServerModel::init(), events).accepts_pending == 1,
{
    lemma_run_preserves_wf(ServerModel::init(), events);
}

/// Which events a well-formed state explains: the completion matches an
/// operation that is outstanding in `s` (and, for an accept, carries an
/// identifier that is not live — the substrate never reuses one while live).
pub open spec fn completes_outstanding(s: ServerModel, ev: EventModel) -> bool {
    match ev {
        EventModel::Accepted { qd } => s.accepts_pending > 0 && !s.connections.contains_key(qd),
        EventModel::AcceptFailed => s.accepts_pending > 0,
        EventModel::Received { qd, .. } => s.outstanding_receives(qd) > 0,
        EventModel::ReceiveFailed { qd } => s.outstanding_receives(qd) > 0,
        EventModel::Sent { qd } => s.outstanding_sends(qd) > 0,
        EventModel::SendFailed { qd } => s.outstanding_sends(qd) > 0,
    }
}

/// Whether every completion in `events`, taken in order, is explained by an
/// operation outstanding at the state it meets.
pub open spec fn all_explained(s: ServerModel, events: Seq<EventModel>) -> bool
    decreases events.len(),
{
    events.len() == 0 || (completes_outstanding(s, events.first()) && all_explained(
        s.step(events.first()).post,
        events.drop_first(),
    ))
}

/// A driver that only reports completions of operations the server asked for
/// never sees a fault: along such a run, every dispatch finds the connection
/// its completion belongs to.
pub proof fn lemma_explained_run_never_faults(s: ServerModel, events: Seq<EventModel>, i: int)
    requires
        all_explained(s, events),
        0 <= i < events.len(),
    ensures
        run_events(s, events.take(i)).step(events[i]).fault is None,
    decreases i,
{
    if i == 0 {
        assert(events.take(0) =~= Seq::empty());
        lemma_outstanding_completion_dispatches(s, events[0]);
    } else {
        let s1 = s.step(events.first()).post;
        let rest = events.drop_first();
        lemma_explained_run_never_faults(s1, rest, i - 1);
        assert(events.take(i).first() == events.first());
        assert(events.take(i).drop_first() =~= rest.take(i - 1));
        assert(run_events(s, events.take(i)) == run_events(s1, rest.take(i - 1)));
        assert(rest[i - 1] == events[i]);
    }
}

/// Every transition keeps the server well-formed: whatever completion comes
/// in, afterwards exactly one accept is outstanding and every registered
/// connection still carries an outstanding operation.
pub proof fn lemma_step_preserves_wf(pre: ServerModel, ev: EventModel)
    requires
        pre.wf(),
    ensures
        pre.step(ev).post.wf(),
{
}

/// The listening endpoint never goes deaf: from a well-formed state, any
/// completion leaves exactly one accept outstanding.
pub proof fn lemma_accept_always_outstanding(pre: ServerModel, ev: EventModel)
    requires
        pre.wf(),
    ensures
        pre.step(ev).post.accepts_pending == 1,
{
}

/// No identifier with an outstanding receive or send is ever absent from the
/// registry: the registry entry is what records the outstanding operation,
/// and a connection being torn down stays registered until its operations
/// have drained.
pub proof fn lemma_outstanding_ops_registered(s: ServerModel, qd: u64)
    ensures
        s.outstanding_receives(qd) > 0 ==> s.connections.contains_key(qd),
        s.outstanding_sends(qd) > 0 ==> s.connections.contains_key(qd),
{
}

/// A completion that an outstanding operation explains is never rejected:
/// dispatch finds the connection it belongs to.
pub proof fn lemma_outstanding_completion_dispatches(pre: ServerModel, ev: EventModel)
    requires
        completes_outstanding(pre, ev),
    ensures
        pre.step(ev).fault is None,
{
}

/// Exactly one response per request: a payload received on a live connection
/// whose request the processor answered with `body` yields exactly one send —
/// carrying the response message for `body` — and re-arms exactly one
/// receive, so the connection is ready for the next request.
pub proof fn lemma_one_response_per_request(
    pre: ServerModel,
    qd: u64,
    payload: Seq<u8>,
    body: Seq<u8>,
)
    requires
        pre.outstanding_receives(qd) > 0,
        !pre.connections[qd].closing,
        pre.connections[qd].sends_pending < u64::MAX,
    ensures
        pre.step(
            EventModel::Received { qd, payload, response_body: Some(body) },
        ).actions == seq![
            ActionModel::SubmitSend { qd, data: http::response_bytes(body) },
            ActionModel::SubmitReceive { qd },
        ],
{
}

/// A receive completion carrying a zero-length payload is handled like any
/// other: it is not rejected, and it is answered with the response for
/// whatever the processor produced.
pub proof fn lemma_empty_payload_is_answered(pre: ServerModel, qd: u64, body: Seq<u8>)
    requires
        pre.outstanding_receives(qd) > 0,
        !pre.connections[qd].closing,
        pre.connections[qd].sends_pending < u64::MAX,
    ensures
        ({
            let o = pre.step(
                EventModel::Received { qd, payload: Seq::empty(), response_body: Some(body) },
            );
            &&& o.fault is None
            &&& o.actions == seq![
                ActionModel::SubmitSend { qd, data: http::response_bytes(body) },
                ActionModel::SubmitReceive { qd },
            ]
        }),
{
    lemma_one_response_per_request(pre, qd, Seq::empty(), body);
}

/// Identical requests get byte-identical responses: whatever two states the
/// server is in and whichever two live connections receive them, the same
/// processor output is answered with the same bytes — no state leaks from one
/// connection into another's response.
pub proof fn lemma_identical_requests_identical_responses(
    pre1: ServerModel,
    qd1: u64,
    pre2: ServerModel,
    qd2: u64,
    payload: Seq<u8>,
    body: Seq<u8>,
)
    requires
        pre1.outstanding_receives(qd1) > 0,
        !pre1.connections[qd1].closing,
        pre1.connections[qd1].sends_pending < u64::MAX,
        pre2.outstanding_receives(qd2) > 0,
        !pre2.connections[qd2].closing,
        pre2.connections[qd2].sends_pending < u64::MAX,
    ensures
        ({
            let a1 = pre1.step(
                EventModel::Received { qd: qd1, payload, response_body: Some(body) },
            ).actions;
            let a2 = pre2.step(
                EventModel::Received { qd: qd2, payload, response_body: Some(body) },
            ).actions;
            &&& a1[0] matches ActionModel::SubmitSend { data: d1, .. }
            &&& a2[0] matches ActionModel::SubmitSend { data: d2, .. } && d1 == d2
        }),
{
    lemma_one_response_per_request(pre1, qd1, payload, body);
    lemma_one_response_per_request(pre2, qd2, payload, body);
}

/// Settling a connection against the registry with the key already taken out
/// comes to the same as settling it against the registry as it was.
proof fn lemma_settle_after_remove(
    pre: ServerModel,
    mid: ServerModel,
    qd: u64,
    c: ConnectionModel,
    actions: Seq<ActionModel>,
)
    requires
        mid.connections =~= pre.connections.remove(qd),
        mid.accepts_pending == pre.accepts_pending,
    ensures
        mid.settle(qd, c, actions).post =~= pre.settle(qd, c, actions).post,
        mid.settle(qd, c, actions).actions == pre.settle(qd, c, actions).actions,
        mid.settle(qd, c, actions).fault == pre.settle(qd, c, actions).fault,
{
    if c.has_outstanding() {
        assert(mid.connections.insert(qd, c) =~= pre.connections.insert(qd, c));
    } else {
        assert(mid.connections.remove(qd) =~= pre.connections.remove(qd));
    }
}

} // verus!

