//! Socket session state machine. The session owns no transport itself: the
//! host feeds it one event at a time (each handler runs to completion, so
//! no two transitions interleave) and performs the actions it returns —
//! opening a transport, sending a text frame, starting or cancelling the
//! one reconnect timer.
//!
//! A reconnect timer is pending exactly while the state is `Reconnecting`,
//! so at most one timer is ever live. An unclean close or a transport
//! error schedules it; a transport error and an unclean close for the same
//! failure are deduplicated by that state. A user-initiated close never
//! schedules a reconnect and cancels a pending timer.

use vstd::prelude::*;
use vstd::string::StringExecFns;
use crate::backoff::{delay_spec, next_delay, BASE_DELAY_MS};
use crate::codec::{
    encode_init, encode_start, init_envelope, start_envelope, ClientMessageGQLInit,
    ClientMessageGQLPay, Payload, PayloadEmp,
};

verus! {

/// A registered subscription: a client-chosen id, unique per open
/// subscription, and the subscription query text.
#[derive(Clone, Debug, PartialEq)]
pub struct SubscriptionRequest {
    pub id: String,
    pub query: String,
}

/// Mathematical model of a subscription request.
pub struct SubscriptionRequestModel {
    pub id: Seq<char>,
    pub query: Seq<char>,
}

impl View for SubscriptionRequest {
    type V = SubscriptionRequestModel;

    open spec fn view(&self) -> SubscriptionRequestModel {
        SubscriptionRequestModel { id: self.id@, query: self.query@ }
    }
}

/// Where the session stands. There is a live transport exactly in
/// `Connecting`, `Open` and `Closing`; a reconnect timer is pending
/// exactly in `Reconnecting`.
#[derive(Clone, Copy, Debug, PartialEq, Eq, Structural)]
pub enum SessionState {
    Idle,
    Connecting,
    Open,
    Closing,
    Closed,
    Reconnecting,
}

/// One discrete event fed to the session by its host.
#[derive(Clone, Copy, Debug, PartialEq, Eq, Structural)]
pub enum SessionEvent {
    /// The caller asks the session to connect.
    StartRequested,
    /// The transport reported that it opened.
    TransportOpened,
    /// The transport closed; `clean` is the transport's own clean-close signal.
    TransportClosed { clean: bool },
    /// The transport reported an error without closing.
    TransportError,
    /// The pending reconnect timer fired.
    ReconnectTimerFired,
    /// The caller asks the session to close.
    CloseRequested,
}

/// One side effect the host must perform, in order.
#[derive(Debug, PartialEq)]
pub enum Action {
    /// Open a brand-new transport and route its events back in.
    OpenTransport,
    /// Send one text frame on the live transport.
    SendText(String),
    /// Close the live transport.
    CloseTransport,
    /// Start the one-shot reconnect timer for this many milliseconds.
    StartReconnectTimer(u64),
    /// Cancel the pending reconnect timer.
    CancelReconnectTimer,
    /// Tell the caller the connection is gone for good: the configured
    /// attempt limit is exhausted, so no further reconnect is scheduled.
    ReportPersistentDisconnect,
}

/// Mathematical model of an action.
pub enum ActionModel {
    OpenTransport,
    SendText(Seq<char>),
    CloseTransport,
    StartReconnectTimer(u64),
    CancelReconnectTimer,
    ReportPersistentDisconnect,
}

impl View for Action {
    type V = ActionModel;

    open spec fn view(&self) -> ActionModel {
        match self {
            Action::OpenTransport => ActionModel::OpenTransport,
            Action::SendText(s) => ActionModel::SendText(s@),
            Action::CloseTransport => ActionModel::CloseTransport,
            Action::StartReconnectTimer(d) => ActionModel::StartReconnectTimer(*d),
            Action::CancelReconnectTimer => ActionModel::CancelReconnectTimer,
            Action::ReportPersistentDisconnect => ActionModel::ReportPersistentDisconnect,
        }
    }
}

/// The model of an action list.
pub open spec fn actions_model(v: Seq<Action>) -> Seq<ActionModel> {
    v.map_values(|a: Action| a@)
}

/// Mathematical model of a session.
pub struct SessionModel {
    pub state: SessionState,
    pub attempt: u64,
    pub limit: Option<u64>,
    pub subs: Seq<SubscriptionRequestModel>,
}

/// Has the configured reconnect-attempt limit been used up? With no limit
/// configured, reconnection is unbounded.
pub open spec fn exhausted(m: SessionModel) -> bool {
    match m.limit {
        Some(l) => m.attempt >= l,
        None => false,
    }
}

/// What goes out right after the transport opens: exactly one handshake
/// envelope, then exactly one start envelope per registered subscription,
/// in registration order, and nothing else.
pub open spec fn open_actions(subs: Seq<SubscriptionRequestModel>) -> Seq<ActionModel> {
    seq![ActionModel::SendText(init_envelope("connection_init"@))] + subs.map_values(
        |s: SubscriptionRequestModel| ActionModel::SendText(start_envelope(s.id, "start"@, s.query)),
    )
}

/// The attempt counter after one more failed attempt; it saturates, and the
/// delay it feeds is capped anyway.
pub open spec fn bump(attempt: u64) -> u64 {
    if attempt == u64::MAX {
        attempt
    } else {
        (attempt + 1) as u64
    }
}

/// The transition for a transport close or error. A user-initiated close
/// (state `Closing`) just completes. An unclean close or an error while
/// connected schedules exactly one reconnect timer, with the backoff delay
/// of the current attempt; while a timer is already pending (state
/// `Reconnecting`) nothing more is scheduled. When a configured attempt
/// limit is used up, no timer is scheduled: the session closes and reports
/// the persistent disconnection to the caller.
pub open spec fn closed_spec(m: SessionModel, clean: bool) -> (SessionModel, Seq<ActionModel>) {
    if m.state == SessionState::Closing {
        (SessionModel { state: SessionState::Closed, ..m }, Seq::empty())
    } else if m.state == SessionState::Open || m.state == SessionState::Connecting {
        if clean {
            (SessionModel { state: SessionState::Closed, ..m }, Seq::empty())
        } else if exhausted(m) {
            (
                SessionModel { state: SessionState::Closed, ..m },
                seq![ActionModel::ReportPersistentDisconnect],
            )
        } else {
            (
                SessionModel { state: SessionState::Reconnecting, attempt: bump(m.attempt), ..m },
                seq![ActionModel::StartReconnectTimer(delay_spec(m.attempt as nat) as u64)],
            )
        }
    } else {
        (m, Seq::empty())
    }
}

/// The session's whole transition function: next session and the actions
/// the host must perform, in order.
pub open spec fn step_spec(m: SessionModel, ev: SessionEvent) -> (SessionModel, Seq<ActionModel>) {
    match ev {
        SessionEvent::StartRequested => {
            if m.state == SessionState::Idle || m.state == SessionState::Closed {
                (
                    SessionModel { state: SessionState::Connecting, ..m },
                    seq![ActionModel::OpenTransport],
                )
            } else {
                (m, Seq::empty())
            }
        },
        SessionEvent::TransportOpened => {
            if m.state == SessionState::Connecting {
                (
                    SessionModel { state: SessionState::Open, attempt: 0, ..m },
                    open_actions(m.subs),
                )
            } else {
                (m, Seq::empty())
            }
        },
        SessionEvent::TransportClosed { clean } => closed_spec(m, clean),
        SessionEvent::TransportError => closed_spec(m, false),
        SessionEvent::ReconnectTimerFired => {
            if m.state == SessionState::Reconnecting {
                (
                    SessionModel { state: SessionState::Connecting, ..m },
                    seq![ActionModel::OpenTransport],
                )
            } else {
                (m, Seq::empty())
            }
        },
        SessionEvent::CloseRequested => {
            if m.state == SessionState::Open || m.state == SessionState::Connecting {
                (
                    SessionModel { state: SessionState::Closing, ..m },
                    seq![ActionModel::CloseTransport],
                )
            } else if m.state == SessionState::Reconnecting {
                (
                    SessionModel { state: SessionState::Closed, ..m },
                    seq![ActionModel::CancelReconnectTimer],
                )
            } else {
                (m, Seq::empty())
            }
        },
    }
}

/// No two registered subscriptions share an id.
pub open spec fn unique_sub_ids(subs: Seq<SubscriptionRequestModel>) -> bool {
    forall|i: int, j: int| 0 <= i < j < subs.len() ==> subs[i].id != subs[j].id
}

/// The socket session: its state, its reconnect attempt counter, and the
/// subscriptions to re-issue after every (re)connect.
pub struct Session {
    state: SessionState,
    attempt: u64,
    limit: Option<u64>,
    subs: Vec<SubscriptionRequest>,
}

impl View for Session {
    type V = SessionModel;

    closed spec fn view(&self) -> SessionModel {
        SessionModel {
            state: self.state,
            attempt: self.attempt,
            limit: self.limit,
            subs: self.subs@.map_values(|s: SubscriptionRequest| s@),
        }
    }
}

impl Session {
    /// Is the session's one invariant intact: subscription ids are unique.
    pub open spec fn wf(&self) -> bool {
        unique_sub_ids(self@.subs)
    }

    /// A fresh session: idle, no attempts made, nothing registered, and
    /// reconnection unbounded, as a client is out of the box.
    pub fn new() -> (r: Session)
        ensures
            r@.state == SessionState::Idle,
            r@.attempt == 0,
            r@.limit is None,
            r@.subs == Seq::<SubscriptionRequestModel>::empty(),
            r.wf(),
    {
        let r = Session { state: SessionState::Idle, attempt: 0, limit: None, subs: Vec::new() };
        proof {
            assert(r@.subs =~= Seq::<SubscriptionRequestModel>::empty());
        }
        r
    }

    /// A fresh session that gives up after the given number of reconnect
    /// attempts, reporting the persistent disconnection to the caller.
    pub fn with_attempt_limit(limit: u64) -> (r: Session)
        ensures
            r@.state == SessionState::Idle,
            r@.attempt == 0,
            r@.limit == Some(limit),
            r@.subs == Seq::<SubscriptionRequestModel>::empty(),
            r.wf(),
    {
        let r = Session {
            state: SessionState::Idle,
            attempt: 0,
            limit: Some(limit),
            subs: Vec::new(),
        };
        proof {
            assert(r@.subs =~= Seq::<SubscriptionRequestModel>::empty());
        }
        r
    }

    /// The current state, for the host's rendering and decisions.
    pub fn state(&self) -> (s: SessionState)
        ensures
            s == self@.state,
    {
        self.state
    }

    /// The current reconnect attempt counter.
    pub fn attempt(&self) -> (a: u64)
        ensures
            a == self@.attempt,
    {
        self.attempt
    }

    /// Register one subscription to issue after every (re)connect. Returns
    /// false, registering nothing, when the id is already taken.
    pub fn register(&mut self, sub: SubscriptionRequest) -> (r: bool)
        requires
            old(self).wf(),
        ensures
            final(self).wf(),
            final(self)@.state == old(self)@.state,
            final(self)@.attempt == old(self)@.attempt,
            r == !exists|i: int|
                0 <= i < old(self)@.subs.len() && old(self)@.subs[i].id == sub@.id,
            r ==> final(self)@.subs == old(self)@.subs.push(sub@),
            !r ==> final(self)@.subs == old(self)@.subs,
    {
        let n = self.subs.len();
        let mut k: usize = 0;
        while k < n
            invariant
                n == self@.subs.len(),
                k <= n,
                self@ == old(self)@,
                unique_sub_ids(self@.subs),
                forall|j: int| 0 <= j < k ==> self@.subs[j].id != sub@.id,
            decreases n - k,
        {
            if self.subs[k].id == sub.id {
                proof {
                    assert(0 <= k < self@.subs.len() && self@.subs[k as int].id == sub@.id);
                }
                return false;
            }
            k = k + 1;
        }
        let ghost pre_subs = self@.subs;
        self.subs.push(sub);
        proof {
            let s2 = self@.subs;
            assert(s2 =~= pre_subs.push(sub@));
            assert forall|i: int, j: int| 0 <= i < j < s2.len() implies s2[i].id != s2[j].id by {
                if j == pre_subs.len() as int {
                    assert(s2[i] == pre_subs[i]);
                    assert(s2[j] == sub@);
                } else {
                    assert(s2[i] == pre_subs[i]);
                    assert(s2[j] == pre_subs[j]);
                }
            }
            assert(unique_sub_ids(s2));
        }
        true
    }

    /// Feed one event to the session; returns the actions the host must
    /// perform, in order.
    pub fn step(&mut self, ev: SessionEvent) -> (acts: Vec<Action>)
        requires
            old(self).wf(),
        ensures
            final(self).wf(),
            final(self)@ == step_spec(old(self)@, ev).0,
            actions_model(acts@) == step_spec(old(self)@, ev).1,
    {
        let mut acts: Vec<Action> = Vec::new();
        proof {
            assert(actions_model(acts@) =~= Seq::<ActionModel>::empty());
        }
        match ev {
            SessionEvent::StartRequested => {
                match self.state {
                    SessionState::Idle | SessionState::Closed => {
                        self.state = SessionState::Connecting;
                        acts.push(Action::OpenTransport);
                        proof {
                            assert(actions_model(acts@) =~= seq![ActionModel::OpenTransport]);
                        }
                    },
                    _ => {},
                }
            },
            SessionEvent::TransportOpened => {
                if let SessionState::Connecting = self.state {
                    self.state = SessionState::Open;
                    self.attempt = 0;
                    let init = ClientMessageGQLInit {
                        msg_type: String::from_str("connection_init"),
                        payload: PayloadEmp {},
                    };
                    acts.push(Action::SendText(encode_init(&init)));
                    let n = self.subs.len();
                    let mut k: usize = 0;
                    proof {
                        assert(actions_model(acts@) =~= open_actions(self@.subs).take(1));
                    }
                    while k < n
                        invariant
                            n == self@.subs.len(),
                            k <= n,
                            actions_model(acts@) == open_actions(self@.subs).take(k as int + 1),
                        decreases n - k,
                    {
                        let sub = &self.subs[k];
                        let msg = ClientMessageGQLPay {
                            id: sub.id.clone(),
                            msg_type: String::from_str("start"),
                            payload: Payload { query: sub.query.clone() },
                        };
                        let ghost pre_acts = acts@;
                        acts.push(Action::SendText(encode_start(&msg)));
                        proof {
                            let subsm = self@.subs;
                            assert(subsm[k as int] == self.subs@[k as int]@);
                            assert(msg.id@ == subsm[k as int].id);
                            assert(msg.msg_type@ == "start"@);
                            assert(msg.payload.query@ == subsm[k as int].query);
                            assert(open_actions(subsm)[k as int + 1] == ActionModel::SendText(
                                start_envelope(subsm[k as int].id, "start"@, subsm[k as int].query),
                            ));
                            assert(acts@.last()@ == ActionModel::SendText(
                                start_envelope(subsm[k as int].id, "start"@, subsm[k as int].query),
                            ));
                            assert(actions_model(acts@) =~= actions_model(pre_acts).push(
                                acts@.last()@,
                            ));
                            assert(actions_model(acts@) =~= open_actions(subsm).take(k as int + 2));
                        }
                        k = k + 1;
                    }
                    proof {
                        assert(open_actions(self@.subs).take(n as int + 1) =~= open_actions(
                            self@.subs,
                        ));
                    }
                }
            },
            SessionEvent::TransportClosed { clean } => {
                self.close_step(clean, &mut acts);
            },
            SessionEvent::TransportError => {
                self.close_step(false, &mut acts);
            },
            SessionEvent::ReconnectTimerFired => {
                if let SessionState::Reconnecting = self.state {
                    self.state = SessionState::Connecting;
                    acts.push(Action::OpenTransport);
                    proof {
                        assert(actions_model(acts@) =~= seq![ActionModel::OpenTransport]);
                    }
                }
            },
            SessionEvent::CloseRequested => {
                match self.state {
                    SessionState::Open | SessionState::Connecting => {
                        self.state = SessionState::Closing;
                        acts.push(Action::CloseTransport);
                        proof {
                            assert(actions_model(acts@) =~= seq![ActionModel::CloseTransport]);
                        }
                    },
                    SessionState::Reconnecting => {
                        self.state = SessionState::Closed;
                        acts.push(Action::CancelReconnectTimer);
                        proof {
                            assert(actions_model(acts@) =~= seq![
                                ActionModel::CancelReconnectTimer,
                            ]);
                        }
                    },
                    _ => {},
                }
            },
        }
        acts
    }

    /// Handle a transport close or error.
    fn close_step(&mut self, clean: bool, acts: &mut Vec<Action>)
        requires
            old(self).wf(),
            old(acts)@.len() == 0,
        ensures
            final(self).wf(),
            final(self)@ == closed_spec(old(self)@, clean).0,
            actions_model(final(acts)@) == closed_spec(old(self)@, clean).1,
    {
        proof {
            assert(actions_model(acts@) =~= Seq::<ActionModel>::empty());
        }
        match self.state {
            SessionState::Closing => {
                self.state = SessionState::Closed;
            },
            SessionState::Open | SessionState::Connecting => {
                if !clean {
                    let used_up = match self.limit {
                        Some(l) => self.attempt >= l,
                        None => false,
                    };
                    if used_up {
                        self.state = SessionState::Closed;
                        acts.push(Action::ReportPersistentDisconnect);
                        proof {
                            assert(actions_model(acts@) =~= seq![
                                ActionModel::ReportPersistentDisconnect,
                            ]);
                        }
                        return ;
                    }
                    let d = next_delay(self.attempt);
                    acts.push(Action::StartReconnectTimer(d));
                    if self.attempt < u64::MAX {
                        self.attempt = self.attempt + 1;
                    }
                    self.state = SessionState::Reconnecting;
                    proof {
                        assert(actions_model(acts@) =~= seq![
                            ActionModel::StartReconnectTimer(
                                delay_spec(old(self)@.attempt as nat) as u64,
                            ),
                        ]);
                    }
                } else {
                    self.state = SessionState::Closed;
                }
            },
            _ => {},
        }
    }
}

/// An unclean close while connected schedules exactly one reconnect timer,
/// and a second unclean close or error before that timer fires schedules
/// nothing more.
pub proof fn lemma_unclean_close_schedules_once(
    m: SessionModel,
    ev1: SessionEvent,
    ev2: SessionEvent,
)
    requires
        m.state == SessionState::Open || m.state == SessionState::Connecting,
        !exhausted(m),
        ev1 == (SessionEvent::TransportClosed { clean: false }) || ev1
            == SessionEvent::TransportError,
        ev2 == (SessionEvent::TransportClosed { clean: false }) || ev2
            == SessionEvent::TransportError,
    ensures
        step_spec(m, ev1).1 == seq![
            ActionModel::StartReconnectTimer(delay_spec(m.attempt as nat) as u64),
        ],
        step_spec(m, ev1).0.state == SessionState::Reconnecting,
        step_spec(step_spec(m, ev1).0, ev2).1 == Seq::<ActionModel>::empty(),
        step_spec(step_spec(m, ev1).0, ev2).0 == step_spec(m, ev1).0,
{
}

/// Once the configured attempt limit is used up, an unclean close or error
/// schedules no timer: the session closes and reports the persistent
/// disconnection, and a stray timer event afterwards does nothing.
pub proof fn lemma_attempt_limit_stops_reconnect(m: SessionModel, ev: SessionEvent)
    requires
        m.state == SessionState::Open || m.state == SessionState::Connecting,
        exhausted(m),
        ev == (SessionEvent::TransportClosed { clean: false }) || ev
            == SessionEvent::TransportError,
    ensures
        step_spec(m, ev).1 == seq![ActionModel::ReportPersistentDisconnect],
        step_spec(m, ev).0.state == SessionState::Closed,
        step_spec(step_spec(m, ev).0, SessionEvent::ReconnectTimerFired).1 == Seq::<
            ActionModel,
        >::empty(),
{
}

/// A user-initiated close while a reconnect timer is pending cancels that
/// timer, and a stray timer event afterwards neither reconnects nor acts.
pub proof fn lemma_user_close_cancels_reconnect(m: SessionModel)
    requires
        m.state == SessionState::Reconnecting,
    ensures
        step_spec(m, SessionEvent::CloseRequested).1 == seq![ActionModel::CancelReconnectTimer],
        step_spec(m, SessionEvent::CloseRequested).0.state == SessionState::Closed,
        step_spec(
            step_spec(m, SessionEvent::CloseRequested).0,
            SessionEvent::ReconnectTimerFired,
        ).1 == Seq::<ActionModel>::empty(),
        step_spec(
            step_spec(m, SessionEvent::CloseRequested).0,
            SessionEvent::ReconnectTimerFired,
        ).0.state == SessionState::Closed,
{
}

/// A successful open resets the backoff: the attempt counter returns to
/// zero, so the next delay the scheduler would give is the base delay.
pub proof fn lemma_open_resets_backoff(m: SessionModel)
    requires
        m.state == SessionState::Connecting,
    ensures
        step_spec(m, SessionEvent::TransportOpened).0.attempt == 0,
        delay_spec(step_spec(m, SessionEvent::TransportOpened).0.attempt as nat)
            == BASE_DELAY_MS,
{
    crate::backoff::lemma_delay_monotone(0, 0);
}

} // verus!
