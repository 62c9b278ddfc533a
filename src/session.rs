use vstd::prelude::*;
use crate::presence::{
    clears_before_sets, finished, finished_activity, running, running_activity, show, PresenceOp,
    PresenceOpModel,
};
use crate::codec::{decode_bytes, wire_decoding};
use crate::protocol::{CommandInfo, CommandModel, Message, MessageModel, StopwatchError};

verus! {

/// The configuration the daemon starts with.
#[derive(Clone, Copy, Debug, PartialEq, Eq, Structural)]
pub struct StartConfig {
    pub port: u16,
    /// Idle window in minutes.
    pub timeout: u64,
    pub quiet: bool,
}

/// The idle-timeout machine. Times are seconds on a monotonic clock.
pub struct Timeout {
    last: u64,
    minutes: u64,
    expired: bool,
}

pub struct TimeoutModel {
    /// When the daemon last saw activity.
    pub last: u64,
    /// Idle window in minutes.
    pub minutes: u64,
    /// Whether the idle window has run out; once it has, it stays so.
    pub expired: bool,
}

impl View for Timeout {
    type V = TimeoutModel;

    closed spec fn view(&self) -> TimeoutModel {
        TimeoutModel { last: self.last, minutes: self.minutes, expired: self.expired }
    }
}

/// Whether, at `now`, a daemon last active at `last` has been idle for its whole window.
pub open spec fn idle_for_window(last: u64, minutes: u64, now: u64) -> bool {
    now - last >= minutes * 60
}

impl Timeout {
    pub fn new(minutes: u64, now: u64) -> (r: Timeout)
        ensures
            r@ == (TimeoutModel { last: now, minutes, expired: false }),
    {
        Timeout { last: now, minutes, expired: false }
    }

    /// Seconds left in the idle window at `now`: zero or less once it has run out.
    pub fn remaining(&self, now: u64) -> (r: i128)
        ensures
            r == self@.minutes * 60 - (now - self@.last),
    {
        self.minutes as i128 * 60 - (now as i128 - self.last as i128)
    }

    /// Notes activity at `now`; the instant of last activity never moves back.
    pub fn refresh(&mut self, now: u64)
        ensures
            final(self)@ == (TimeoutModel {
                last: if now > old(self)@.last { now } else { old(self)@.last },
                ..old(self)@
            }),
            final(self)@.last >= old(self)@.last,
    {
        if now > self.last {
            self.last = now;
        }
    }

    /// A new idle window; the instant of last activity is left as it is.
    pub fn set_minutes(&mut self, minutes: u64)
        ensures
            final(self)@ == (TimeoutModel { minutes, ..old(self)@ }),
    {
        self.minutes = minutes;
    }

    /// Checks the window at `now`; returns whether it has run out.
    pub fn check(&mut self, now: u64) -> (r: bool)
        ensures
            final(self)@ == (TimeoutModel {
                expired: old(self)@.expired || idle_for_window(old(self)@.last, old(self)@.minutes, now),
                ..old(self)@
            }),
            r == final(self)@.expired,
    {
        if !self.expired && self.remaining(now) <= 0 {
            self.expired = true;
        }
        self.expired
    }
}

/// What the connection handler does after reading one request.
#[derive(Clone, Debug, PartialEq, Eq)]
pub enum Action {
    /// Send this response.
    Reply(Message),
    /// Apply these presence operations in order, holding the channel throughout,
    /// then answer by `presence_reply`.
    Present(Vec<PresenceOp>),
    /// Answer `Ok` if possible and end the daemon with success.
    Shutdown,
}

pub enum ActionModel {
    Reply(MessageModel),
    Present(Seq<PresenceOpModel>),
    Shutdown,
}

impl View for Action {
    type V = ActionModel;

    open spec fn view(&self) -> ActionModel {
        match self {
            Action::Reply(m) => ActionModel::Reply(m@),
            Action::Present(ops) => ActionModel::Present(ops@.map_values(|op: PresenceOp| op@)),
            Action::Shutdown => ActionModel::Shutdown,
        }
    }
}

/// What the listener does after one bounded wait for a connection.
#[derive(Clone, Copy, Debug, PartialEq, Eq)]
pub enum AcceptOutcome {
    /// A connection came in.
    Accepted,
    /// Nothing came in, or the failure will pass.
    Transient,
    /// Accepting failed for good.
    Failed,
}

#[derive(Clone, Copy, Debug, PartialEq, Eq)]
pub enum ListenerAction {
    /// Hand the connection to a new handler and go on.
    Serve,
    /// Go on waiting.
    Retry,
    /// End the daemon with a failure status.
    Abort,
}

/// The daemon's state: its configuration, the idle timer and the run on display.
pub struct SessionState {
    port: u16,
    quiet: bool,
    timeout: Timeout,
    active_run: Option<(CommandInfo, u64)>,
}

pub struct SessionModel {
    pub port: u16,
    pub quiet: bool,
    pub timeout: TimeoutModel,
    pub active_run: Option<(CommandModel, u64)>,
}

pub open spec fn run_view(r: Option<(CommandInfo, u64)>) -> Option<(CommandModel, u64)> {
    match r {
        Some((info, t)) => Some((info@, t)),
        None => None,
    }
}

impl View for SessionState {
    type V = SessionModel;

    closed spec fn view(&self) -> SessionModel {
        SessionModel {
            port: self.port,
            quiet: self.quiet,
            timeout: self.timeout@,
            active_run: run_view(self.active_run),
        }
    }
}

/// The state after a request has been handled.
pub open spec fn next_state(s: SessionModel, m: MessageModel) -> SessionModel {
    match m {
        MessageModel::Started(info, t) => SessionModel { active_run: Some((info, t)), ..s },
        MessageModel::Stopped(_, _) => SessionModel { active_run: None, ..s },
        MessageModel::Timeout(n) => SessionModel {
            timeout: TimeoutModel { minutes: n, ..s.timeout },
            ..s
        },
        _ => s,
    }
}

/// What is done about a request.
pub open spec fn action_for(m: MessageModel) -> ActionModel {
    match m {
        MessageModel::Close => ActionModel::Shutdown,
        MessageModel::Started(info, t) => ActionModel::Present(
            seq![PresenceOpModel::Clear, PresenceOpModel::Show(running_activity(info, t))],
        ),
        MessageModel::Stopped(info, e) => ActionModel::Present(
            seq![PresenceOpModel::Clear, PresenceOpModel::Show(finished_activity(info, e))],
        ),
        MessageModel::Timeout(_) => ActionModel::Reply(MessageModel::Ack),
        MessageModel::Ping => ActionModel::Reply(MessageModel::Ack),
        MessageModel::Ack => ActionModel::Reply(MessageModel::Error(StopwatchError::UnexpectedMessage)),
        MessageModel::Error(_) => ActionModel::Reply(
            MessageModel::Error(StopwatchError::UnexpectedMessage),
        ),
    }
}

/// The response once the presence operations of a request were applied.
pub fn presence_reply(applied: bool) -> (r: Message)
    ensures
        r@ == if applied {
            MessageModel::Ack
        } else {
            MessageModel::Error(StopwatchError::PresenceUpdateFailed)
        },
{
    if applied {
        Message::Ack
    } else {
        Message::Error(StopwatchError::PresenceUpdateFailed)
    }
}

impl SessionState {
    /// The state a daemon starts in at `now`, with no run on display.
    pub fn new(config: StartConfig, now: u64) -> (r: SessionState)
        ensures
            r@ == (SessionModel {
                port: config.port,
                quiet: config.quiet,
                timeout: TimeoutModel { last: now, minutes: config.timeout, expired: false },
                active_run: None,
            }),
    {
        SessionState {
            port: config.port,
            quiet: config.quiet,
            timeout: Timeout::new(config.timeout, now),
            active_run: None,
        }
    }

    pub fn port(&self) -> (r: u16)
        ensures
            r == self@.port,
    {
        self.port
    }

    pub fn quiet(&self) -> (r: bool)
        ensures
            r == self@.quiet,
    {
        self.quiet
    }

    /// The idle window in minutes.
    pub fn idle_timeout_minutes(&self) -> (r: u64)
        ensures
            r == self@.timeout.minutes,
    {
        self.timeout.minutes
    }

    /// When activity was last seen.
    pub fn last_activity(&self) -> (r: u64)
        ensures
            r == self@.timeout.last,
    {
        self.timeout.last
    }

    pub fn active_run(&self) -> (r: &Option<(CommandInfo, u64)>)
        ensures
            run_view(*r) == self@.active_run,
    {
        &self.active_run
    }

    /// Handles one request: updates the state and says what to do.
    pub fn handle(&mut self, msg: Message) -> (r: Action)
        ensures
            final(self)@ == next_state(old(self)@, msg@),
            r@ == action_for(msg@),
    {
        match msg {
            Message::Close => Action::Shutdown,
            Message::Started(info, t) => {
                let ops = show(running(&info, t));
                self.active_run = Some((info, t));
                let r = Action::Present(ops);
                assert(r@ == action_for(msg@)) by {
                    assert(ops@.map_values(|op: PresenceOp| op@) =~= action_for(msg@)->Present_0);
                }
                r
            },
            Message::Stopped(info, e) => {
                let ops = show(finished(&info, e));
                self.active_run = None;
                let r = Action::Present(ops);
                assert(r@ == action_for(msg@)) by {
                    assert(ops@.map_values(|op: PresenceOp| op@) =~= action_for(msg@)->Present_0);
                }
                r
            },
            Message::Timeout(n) => {
                self.timeout.set_minutes(n);
                Action::Reply(Message::Ack)
            },
            Message::Ping => Action::Reply(Message::Ack),
            Message::Ack => Action::Reply(Message::Error(StopwatchError::UnexpectedMessage)),
            Message::Error(_) => Action::Reply(Message::Error(StopwatchError::UnexpectedMessage)),
        }
    }

    /// Handles the bytes of one request. Bytes that carry no message get no
    /// answer and change nothing.
    pub fn handle_request(&mut self, request: &[u8]) -> (r: Option<Action>)
        ensures
            match wire_decoding(request@) {
                None => r is None && final(self)@ == old(self)@,
                Some(m) => r is Some && r->0@ == action_for(m) && final(self)@ == next_state(
                    old(self)@,
                    m,
                ),
            },
    {
        match decode_bytes(request) {
            Ok(m) => Some(self.handle(m)),
            Err(_) => None,
        }
    }

    /// Checked before each wait for a connection: whether the listener goes on.
    pub fn keep_listening(&mut self, now: u64) -> (r: bool)
        ensures
            final(self)@ == (SessionModel {
                timeout: TimeoutModel {
                    expired: old(self)@.timeout.expired || idle_for_window(
                        old(self)@.timeout.last,
                        old(self)@.timeout.minutes,
                        now,
                    ),
                    ..old(self)@.timeout
                },
                ..old(self)@
            }),
            r == !final(self)@.timeout.expired,
    {
        !self.timeout.check(now)
    }

    /// After one wait for a connection at `now`: any accepted connection counts as activity.
    pub fn on_accept(&mut self, outcome: AcceptOutcome, now: u64) -> (r: ListenerAction)
        ensures
            outcome == AcceptOutcome::Accepted ==> final(self)@ == (SessionModel {
                timeout: TimeoutModel {
                    last: if now > old(self)@.timeout.last { now } else { old(self)@.timeout.last },
                    ..old(self)@.timeout
                },
                ..old(self)@
            }) && r == ListenerAction::Serve,
            outcome == AcceptOutcome::Transient ==> final(self)@ == old(self)@ && r == ListenerAction::Retry,
            outcome == AcceptOutcome::Failed ==> final(self)@ == old(self)@ && r == ListenerAction::Abort,
    {
        match outcome {
            AcceptOutcome::Accepted => {
                self.timeout.refresh(now);
                ListenerAction::Serve
            },
            AcceptOutcome::Transient => ListenerAction::Retry,
            AcceptOutcome::Failed => ListenerAction::Abort,
        }
    }
}

/// A `Started` request puts its run on display, and the `Stopped` request after it takes
/// the run down; each of them clears the presence channel before it shows anything.
pub proof fn lemma_started_then_stopped(
    s: SessionModel,
    info: CommandModel,
    t: u64,
    done: CommandModel,
    elapsed: u64,
)
    ensures
        next_state(s, MessageModel::Started(info, t)).active_run == Some((info, t)),
        next_state(
            next_state(s, MessageModel::Started(info, t)),
            MessageModel::Stopped(done, elapsed),
        ).active_run is None,
        clears_before_sets(action_for(MessageModel::Started(info, t))->Present_0),
        clears_before_sets(action_for(MessageModel::Stopped(done, elapsed))->Present_0),
{
    let a = action_for(MessageModel::Started(info, t))->Present_0;
    let b = action_for(MessageModel::Stopped(done, elapsed))->Present_0;
    assert(a[0] is Clear && !(a[0] is Show));
    assert(b[0] is Clear && !(b[0] is Show));
}

/// Every presence plan that a request leads to clears the channel before each activity.
pub proof fn lemma_plans_clear_first(m: MessageModel)
    ensures
        action_for(m) is Present ==> clears_before_sets(action_for(m)->Present_0),
{
    if action_for(m) is Present {
        let a = action_for(m)->Present_0;
        assert(a[0] is Clear && !(a[0] is Show));
    }
}

/// Handling a request never moves the instant of last activity, whatever its kind
/// (a new idle window included): only accepted connections refresh it.
pub proof fn lemma_handling_keeps_last_activity(s: SessionModel, m: MessageModel)
    ensures
        next_state(s, m).timeout.last == s.timeout.last,
{
}

/// Once the idle window has run out it stays run out: no request brings it back.
pub proof fn lemma_expiry_is_final(s: SessionModel, m: MessageModel)
    ensures
        s.timeout.expired ==> next_state(s, m).timeout.expired,
{
}

/// Plans applied one after another, each starting with a clear, never show two
/// activities without a clear between them.
pub proof fn lemma_plans_in_sequence(a: Seq<PresenceOpModel>, m: MessageModel)
    requires
        clears_before_sets(a),
        action_for(m) is Present,
    ensures
        clears_before_sets(a + action_for(m)->Present_0),
{
    let b = action_for(m)->Present_0;
    let c = a + b;
    assert forall|i: int| 0 <= i < c.len() && (#[trigger] c[i]) is Show implies i >= 1
        && c[i - 1] is Clear by {
        if i >= a.len() {
            assert(c[i] == b[i - a.len()]);
            assert(b[0] is Clear);
            assert(i - a.len() == 1);
            assert(c[i - 1] == b[0]);
        } else {
            assert(c[i] == a[i]);
            assert(c[i - 1] == a[i - 1]);
        }
    }
}

} // verus!
