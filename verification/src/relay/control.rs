//! The control protocol of one session, step by step.
//!
//! The program around this module reads, writes and keeps the time. It hands
//! each event to [`ControlRun::step`] with the current instant, in milliseconds
//! of a clock that never runs back, and does what the action says. Between two
//! events it reports that it is ready, and is told what to wait for.
use vstd::prelude::*;

use crate::proto::frames;
use crate::proto::frames::{ControlFrame, DenyCode, FrameView};
use crate::relay::auth;
use crate::relay::auth::AuthedUser;
use crate::relay::cap::CapDecision;
use crate::relay::ledger::WhoView;
use crate::relay::session;
use crate::relay::session::{
    ActionView, ControlStage, FrameAction, HelloRequest, ReadNext, ReadOutcome,
};

verus! {

/// What a session is waiting for.
#[derive(Clone, Copy, Debug, PartialEq, Eq, Structural)]
pub enum RunStage {
    /// The preamble.
    Preamble,
    /// The `Hello`.
    Hello,
    /// Whom the token of the `Hello` belongs to.
    Proving,
    /// The daemon's next frame.
    Live,
    /// Whom the token belongs to now.
    Rechecking,
    /// Whether the licence is activated, before a claim.
    Activating,
    /// The end of a release.
    Releasing,
    /// The end of a claim, or of an owned-set request.
    Busy,
    /// Nothing any more.
    Over,
}

impl RunStage {
    /// The stage of the read that is due, if one is.
    pub open spec fn reads(self) -> Option<ControlStage> {
        match self {
            RunStage::Preamble => Some(ControlStage::Preamble),
            RunStage::Hello => Some(ControlStage::Hello),
            RunStage::Live => Some(ControlStage::Live),
            _ => None,
        }
    }

    fn reading(&self) -> (r: Option<ControlStage>)
        ensures
            r == self.reads(),
    {
        match self {
            RunStage::Preamble => Some(ControlStage::Preamble),
            RunStage::Hello => Some(ControlStage::Hello),
            RunStage::Live => Some(ControlStage::Live),
            _ => None,
        }
    }
}

/// What happened to a session.
pub enum RunEvent {
    /// Nothing; what to wait for is to be told.
    Ready,
    /// The preamble came.
    Preamble,
    /// The read that was due ended without a result.
    Ended(ReadOutcome),
    /// A frame came.
    Frame(ControlFrame),
    /// The token belongs to this user, or to none.
    Who(Option<AuthedUser>),
    /// The token belongs to this user now, and this is what its plan allows.
    Rechecked { who: Option<AuthedUser>, decision: CapDecision },
    /// The licence is activated, or the claim is denied with this.
    Activated(Option<ControlFrame>),
    /// A release was answered; this many resources are still owned.
    Released { left: usize },
    /// What was asked for was done.
    Handled,
}

/// View of a [`RunEvent`].
pub enum EventView {
    Ready,
    Preamble,
    Ended(ReadOutcome),
    Frame(FrameView),
    Who(Option<WhoView>),
    Rechecked { who: Option<WhoView>, decision: CapDecision },
    Activated(Option<FrameView>),
    Released { left: usize },
    Handled,
}

impl View for RunEvent {
    type V = EventView;

    open spec fn view(&self) -> EventView {
        match self {
            RunEvent::Ready => EventView::Ready,
            RunEvent::Preamble => EventView::Preamble,
            RunEvent::Ended(o) => EventView::Ended(*o),
            RunEvent::Frame(f) => EventView::Frame(f@),
            RunEvent::Who(w) => EventView::Who(auth::who_view(*w)),
            RunEvent::Rechecked { who, decision } => EventView::Rechecked {
                who: auth::who_view(*who),
                decision: *decision,
            },
            RunEvent::Activated(d) => EventView::Activated(
                match d {
                    Some(f) => Some(f@),
                    None => None,
                },
            ),
            RunEvent::Released { left } => EventView::Released { left: *left },
            RunEvent::Handled => EventView::Handled,
        }
    }
}

/// What to do for a session.
pub enum RunAction {
    /// Go on with the read that is due, for this many milliseconds at most.
    Read { ms: u64 },
    /// Look up whom the token belongs to.
    Authenticate,
    /// Send this denial in place of a welcome, and end.
    Deny(ControlFrame),
    /// Send this welcome; the session is established.
    Welcome(ControlFrame),
    /// Look up whom the token belongs to now, and what the plan allows.
    Recheck,
    /// Send this as the last frame, and end.
    Terminate(ControlFrame),
    /// Send this.
    Send(ControlFrame),
    /// Activate the licence of the token.
    Activate,
    /// Decide this claim and send the answer.
    Claim { hostnames: Vec<String>, tcp_ports: Vec<u16> },
    /// Release these and send the answer.
    Release { hostnames: Vec<String>, tcp_ports: Vec<u16> },
    /// Send the owned set.
    ListOwned,
    /// Give the activation of the licence back.
    ReleaseActivation,
    /// Nothing.
    Wait,
    /// End quietly.
    End,
    /// End with the error of the read.
    Fail,
}

/// View of a [`RunAction`].
pub enum RunActView {
    Read { ms: u64 },
    Authenticate,
    Deny(FrameView),
    Welcome(FrameView),
    Recheck,
    Terminate(FrameView),
    Send(FrameView),
    Activate,
    Claim { hostnames: Seq<Seq<char>>, tcp_ports: Seq<u16> },
    Release { hostnames: Seq<Seq<char>>, tcp_ports: Seq<u16> },
    ListOwned,
    ReleaseActivation,
    Wait,
    End,
    Fail,
}

impl View for RunAction {
    type V = RunActView;

    open spec fn view(&self) -> RunActView {
        match self {
            RunAction::Read { ms } => RunActView::Read { ms: *ms },
            RunAction::Authenticate => RunActView::Authenticate,
            RunAction::Deny(f) => RunActView::Deny(f@),
            RunAction::Welcome(f) => RunActView::Welcome(f@),
            RunAction::Recheck => RunActView::Recheck,
            RunAction::Terminate(f) => RunActView::Terminate(f@),
            RunAction::Send(f) => RunActView::Send(f@),
            RunAction::Activate => RunActView::Activate,
            RunAction::Claim { hostnames, tcp_ports } => RunActView::Claim {
                hostnames: frames::names(hostnames@),
                tcp_ports: tcp_ports@,
            },
            RunAction::Release { hostnames, tcp_ports } => RunActView::Release {
                hostnames: frames::names(hostnames@),
                tcp_ports: tcp_ports@,
            },
            RunAction::ListOwned => RunActView::ListOwned,
            RunAction::ReleaseActivation => RunActView::ReleaseActivation,
            RunAction::Wait => RunActView::Wait,
            RunAction::End => RunActView::End,
            RunAction::Fail => RunActView::Fail,
        }
    }
}

/// The instant `ms` milliseconds after `now`, or the last there is.
pub open spec fn later(now: u64, ms: u64) -> u64 {
    if now + ms <= u64::MAX {
        (now + ms) as u64
    } else {
        u64::MAX
    }
}

fn later_of(now: u64, ms: u64) -> (r: u64)
    ensures
        r == later(now, ms),
{
    match now.checked_add(ms) {
        Some(t) => t,
        None => u64::MAX,
    }
}

/// One session's run through the control protocol.
pub struct ControlRun {
    /// What it is waiting for.
    pub stage: RunStage,
    /// What the relay calls itself in a welcome.
    pub server_version: String,
    /// The id a welcome tells.
    pub session_id: u64,
    /// The token of the `Hello`.
    pub token: String,
    /// The version agreed on.
    pub proto: u16,
    /// The user of an established session.
    pub user_id: i64,
    /// The claim that waits for an activation.
    pub pending: Option<(Vec<String>, Vec<u16>)>,
    /// Milliseconds between two re-validations, if there are any.
    pub period_ms: Option<u64>,
    /// When the next re-validation is due.
    pub due: Option<u64>,
    /// Since when the daemon is being waited for.
    pub since: u64,
}

/// View of a [`ControlRun`].
#[verifier::ext_equal]
pub struct RunView {
    pub stage: RunStage,
    pub server_version: Seq<char>,
    pub session_id: u64,
    pub token: Seq<char>,
    pub proto: u16,
    pub user_id: i64,
    pub pending: Option<(Seq<Seq<char>>, Seq<u16>)>,
    pub period_ms: Option<u64>,
    pub due: Option<u64>,
    pub since: u64,
}

impl View for ControlRun {
    type V = RunView;

    open spec fn view(&self) -> RunView {
        RunView {
            stage: self.stage,
            server_version: self.server_version@,
            session_id: self.session_id,
            token: self.token@,
            proto: self.proto,
            user_id: self.user_id,
            pending: match self.pending {
                Some((h, p)) => Some((frames::names(h@), p@)),
                None => None,
            },
            period_ms: self.period_ms,
            due: self.due,
            since: self.since,
        }
    }
}

impl RunView {
    pub open spec fn over(self) -> RunView {
        RunView { stage: RunStage::Over, ..self }
    }

    /// Waiting for the daemon's next frame, from `now` on.
    pub open spec fn live(self, now: u64) -> RunView {
        RunView { stage: RunStage::Live, since: now, ..self }
    }

    /// When a re-validation is due if the last one was at `now`.
    pub open spec fn next_due(self, now: u64) -> Option<u64> {
        match self.period_ms {
            Some(p) => Some(later(now, p)),
            None => None,
        }
    }

    /// A re-validation is due.
    pub open spec fn is_due(self, now: u64) -> bool {
        self.stage == RunStage::Live && self.due is Some && self.due->0 <= now
    }

    /// The milliseconds the daemon still has at `now`; 0 when it fell silent.
    pub open spec fn patience_left(self, now: u64) -> int {
        let whole = match self.stage.reads() {
            Some(s) => 1000 * s.patience(),
            None => 0,
        };
        let waited = if now > self.since {
            now - self.since
        } else {
            0
        };
        if waited < whole {
            whole - waited
        } else {
            0
        }
    }

    /// What to wait for.
    pub open spec fn ready(self, now: u64) -> (RunView, RunActView) {
        if self.stage.reads() is None {
            (self.over(), RunActView::End)
        } else if self.is_due(now) {
            (RunView { stage: RunStage::Rechecking, ..self }, RunActView::Recheck)
        } else if self.patience_left(now) == 0 {
            (self.over(), RunActView::End)
        } else {
            let left = self.patience_left(now);
            let ms = if self.stage == RunStage::Live && self.due is Some && self.due->0 - now
                < left {
                self.due->0 - now
            } else {
                left
            };
            (self, RunActView::Read { ms: ms as u64 })
        }
    }

    /// A frame came.
    pub open spec fn frame(self, f: FrameView, now: u64) -> (RunView, RunActView) {
        match self.stage {
            RunStage::Hello => match session::hello_fault(f) {
                Some(denial) => (self.over(), RunActView::Deny(denial)),
                None => match f {
                    FrameView::Hello { token, agent_version, proto_min, proto_max } => (
                        RunView {
                            stage: RunStage::Proving,
                            token,
                            proto: session::agreed(proto_min, proto_max)->0,
                            ..self
                        },
                        RunActView::Authenticate,
                    ),
                    _ => (self.over(), RunActView::End),
                },
            },
            RunStage::Live => match session::treatment(f) {
                ActionView::Reply(reply) => (self.live(now), RunActView::Send(reply)),
                ActionView::Claim { hostnames, tcp_ports } => (
                    RunView {
                        stage: RunStage::Activating,
                        pending: Some((hostnames, tcp_ports)),
                        ..self
                    },
                    RunActView::Activate,
                ),
                ActionView::Release { hostnames, tcp_ports } => (
                    RunView { stage: RunStage::Releasing, ..self },
                    RunActView::Release { hostnames, tcp_ports },
                ),
                ActionView::ListOwned => (
                    RunView { stage: RunStage::Busy, ..self },
                    RunActView::ListOwned,
                ),
                ActionView::End => (self.over(), RunActView::End),
                ActionView::Ignore => (self.live(now), RunActView::Wait),
            },
            _ => (self.over(), RunActView::End),
        }
    }

    /// What an event at `now` leads to. An event that nothing waits for ends the
    /// session.
    pub open spec fn after(self, e: EventView, now: u64) -> (RunView, RunActView) {
        match e {
            EventView::Ready => self.ready(now),
            EventView::Preamble => if self.stage == RunStage::Preamble {
                (RunView { stage: RunStage::Hello, since: now, ..self }, RunActView::Wait)
            } else {
                (self.over(), RunActView::End)
            },
            EventView::Ended(o) => match self.stage.reads() {
                Some(s) => (
                    self.over(),
                    if s.after(o) == ReadNext::Fail {
                        RunActView::Fail
                    } else {
                        RunActView::End
                    },
                ),
                None => (self.over(), RunActView::End),
            },
            EventView::Frame(f) => self.frame(f, now),
            EventView::Who(who) => if self.stage == RunStage::Proving {
                let answer = session::hello_answer(
                    who,
                    self.proto,
                    self.server_version,
                    self.session_id,
                );
                match who {
                    Some(u) => (
                        RunView { user_id: u.user_id, due: self.next_due(now), ..self.live(now) },
                        RunActView::Welcome(answer),
                    ),
                    None => (self.over(), RunActView::Deny(answer)),
                }
            } else {
                (self.over(), RunActView::End)
            },
            EventView::Rechecked { who, decision } => if self.stage == RunStage::Rechecking {
                match session::tick_verdict(who, self.user_id, decision) {
                    Some(denial) => (self.over(), RunActView::Terminate(denial)),
                    None => (
                        RunView { stage: RunStage::Live, due: self.next_due(now), ..self },
                        RunActView::Wait,
                    ),
                }
            } else {
                (self.over(), RunActView::End)
            },
            EventView::Activated(denial) => if self.stage == RunStage::Activating {
                let cleared = RunView { pending: None, ..self };
                match (denial, self.pending) {
                    (Some(d), _) => (cleared.live(now), RunActView::Send(d)),
                    (None, Some((hostnames, tcp_ports))) => (
                        RunView { stage: RunStage::Busy, ..cleared },
                        RunActView::Claim { hostnames, tcp_ports },
                    ),
                    (None, None) => (cleared.over(), RunActView::End),
                }
            } else {
                (self.over(), RunActView::End)
            },
            EventView::Released { left } => if self.stage == RunStage::Releasing {
                (
                    self.live(now),
                    if left == 0 {
                        RunActView::ReleaseActivation
                    } else {
                        RunActView::Wait
                    },
                )
            } else {
                (self.over(), RunActView::End)
            },
            EventView::Handled => if self.stage == RunStage::Busy || self.stage
                == RunStage::Releasing {
                (self.live(now), RunActView::Wait)
            } else {
                (self.over(), RunActView::End)
            },
        }
    }
}

impl ControlRun {
    /// A session whose control stream was just opened.
    pub fn new(
        server_version: &str,
        session_id: u64,
        period_ms: Option<u64>,
        now: u64,
    ) -> (r: Self)
        ensures
            r@ == (RunView {
                stage: RunStage::Preamble,
                server_version: server_version@,
                session_id,
                token: Seq::empty(),
                proto: 0,
                user_id: 0,
                pending: None,
                period_ms,
                due: None,
                since: now,
            }),
    {
        let token = String::new();
        let r = ControlRun {
            stage: RunStage::Preamble,
            server_version: server_version.to_owned(),
            session_id,
            token,
            proto: 0,
            user_id: 0,
            pending: None,
            period_ms,
            due: None,
            since: now,
        };
        assert(r@.token =~= Seq::empty());
        r
    }

    fn next_due(&self, now: u64) -> (r: Option<u64>)
        ensures
            r == self@.next_due(now),
    {
        match self.period_ms {
            Some(p) => Some(later_of(now, p)),
            None => None,
        }
    }

    fn ready(&mut self, now: u64) -> (r: RunAction)
        ensures
            (final(self)@, r@) == old(self)@.ready(now),
    {
        let stage = match self.stage.reading() {
            Some(s) => s,
            None => {
                self.stage = RunStage::Over;
                return RunAction::End;
            },
        };
        let live = match self.stage {
            RunStage::Live => true,
            _ => false,
        };
        let due: Option<u64> = if live {
            self.due
        } else {
            None
        };
        match due {
            Some(d) => {
                if d <= now {
                    self.stage = RunStage::Rechecking;
                    return RunAction::Recheck;
                }
            },
            None => {},
        }
        let whole: u64 = 1000 * stage.read_timeout_secs();
        let waited: u64 = if now > self.since {
            now - self.since
        } else {
            0
        };
        if waited >= whole {
            self.stage = RunStage::Over;
            return RunAction::End;
        }
        let left: u64 = whole - waited;
        let ms: u64 = match due {
            Some(d) => if d - now < left {
                d - now
            } else {
                left
            },
            None => left,
        };
        RunAction::Read { ms }
    }

    fn frame(&mut self, f: ControlFrame, now: u64) -> (r: RunAction)
        ensures
            (final(self)@, r@) == old(self)@.frame(f@, now),
    {
        match self.stage {
            RunStage::Hello => match session::read_hello(f) {
                Err(denial) => {
                    self.stage = RunStage::Over;
                    RunAction::Deny(denial)
                },
                Ok(HelloRequest { token, proto }) => {
                    self.stage = RunStage::Proving;
                    self.token = token;
                    self.proto = proto;
                    RunAction::Authenticate
                },
            },
            RunStage::Live => match session::on_frame(f) {
                FrameAction::Reply(reply) => {
                    self.since = now;
                    RunAction::Send(reply)
                },
                FrameAction::Claim { hostnames, tcp_ports } => {
                    self.stage = RunStage::Activating;
                    self.pending = Some((hostnames, tcp_ports));
                    RunAction::Activate
                },
                FrameAction::Release { hostnames, tcp_ports } => {
                    self.stage = RunStage::Releasing;
                    RunAction::Release { hostnames, tcp_ports }
                },
                FrameAction::ListOwned => {
                    self.stage = RunStage::Busy;
                    RunAction::ListOwned
                },
                FrameAction::End => {
                    self.stage = RunStage::Over;
                    RunAction::End
                },
                FrameAction::Ignore => {
                    self.since = now;
                    RunAction::Wait
                },
            },
            _ => {
                self.stage = RunStage::Over;
                RunAction::End
            },
        }
    }

    /// Whom the token of the `Hello` belongs to.
    fn proved(&mut self, who: Option<AuthedUser>, now: u64) -> (r: RunAction)
        requires
            old(self).stage == RunStage::Proving,
        ensures
            (final(self)@, r@) == old(self)@.after(EventView::Who(auth::who_view(who)), now),
    {
        let answer = session::answer_hello(
            &who,
            self.proto,
            self.server_version.as_str(),
            self.session_id,
        );
        match who {
            Some(u) => {
                self.user_id = u.user_id;
                self.due = self.next_due(now);
                self.stage = RunStage::Live;
                self.since = now;
                RunAction::Welcome(answer)
            },
            None => {
                self.stage = RunStage::Over;
                RunAction::Deny(answer)
            },
        }
    }

    /// Whether the claim that waits may be decided.
    fn activated(&mut self, denial: Option<ControlFrame>, now: u64) -> (r: RunAction)
        requires
            old(self).stage == RunStage::Activating,
        ensures
            (final(self)@, r@) == old(self)@.after(RunEvent::Activated(denial)@, now),
    {
        let pending = self.pending.take();
        match denial {
            Some(d) => {
                self.stage = RunStage::Live;
                self.since = now;
                RunAction::Send(d)
            },
            None => match pending {
                Some((hostnames, tcp_ports)) => {
                    self.stage = RunStage::Busy;
                    RunAction::Claim { hostnames, tcp_ports }
                },
                None => {
                    self.stage = RunStage::Over;
                    RunAction::End
                },
            },
        }
    }

    /// Take an event at `now` and tell what to do.
    pub fn step(&mut self, event: RunEvent, now: u64) -> (r: RunAction)
        ensures
            (final(self)@, r@) == old(self)@.after(event@, now),
    {
        match event {
            RunEvent::Ready => self.ready(now),
            RunEvent::Frame(f) => self.frame(f, now),
            RunEvent::Preamble => {
                if self.stage == RunStage::Preamble {
                    self.stage = RunStage::Hello;
                    self.since = now;
                    RunAction::Wait
                } else {
                    self.stage = RunStage::Over;
                    RunAction::End
                }
            },
            RunEvent::Ended(o) => {
                let next = match self.stage.reading() {
                    Some(s) => s.after_read(o),
                    None => ReadNext::End,
                };
                self.stage = RunStage::Over;
                match next {
                    ReadNext::Fail => RunAction::Fail,
                    _ => RunAction::End,
                }
            },
            RunEvent::Who(who) => {
                if self.stage == RunStage::Proving {
                    self.proved(who, now)
                } else {
                    self.stage = RunStage::Over;
                    RunAction::End
                }
            },
            RunEvent::Rechecked { who, decision } => {
                if self.stage == RunStage::Rechecking {
                    match session::revalidate(&who, self.user_id, decision) {
                        Some(denial) => {
                            self.stage = RunStage::Over;
                            RunAction::Terminate(denial)
                        },
                        None => {
                            self.due = self.next_due(now);
                            self.stage = RunStage::Live;
                            RunAction::Wait
                        },
                    }
                } else {
                    self.stage = RunStage::Over;
                    RunAction::End
                }
            },
            RunEvent::Activated(denial) => {
                if self.stage == RunStage::Activating {
                    self.activated(denial, now)
                } else {
                    self.stage = RunStage::Over;
                    RunAction::End
                }
            },
            RunEvent::Released { left } => {
                if self.stage == RunStage::Releasing {
                    self.stage = RunStage::Live;
                    self.since = now;
                    if left == 0 {
                        RunAction::ReleaseActivation
                    } else {
                        RunAction::Wait
                    }
                } else {
                    self.stage = RunStage::Over;
                    RunAction::End
                }
            },
            RunEvent::Handled => {
                if self.stage == RunStage::Busy || self.stage == RunStage::Releasing {
                    self.stage = RunStage::Live;
                    self.since = now;
                    RunAction::Wait
                } else {
                    self.stage = RunStage::Over;
                    RunAction::End
                }
            },
        }
    }
}

/// A session after pings, each a nonce and the instant it came.
pub open spec fn after_pings(run: RunView, pings: Seq<(u64, u64)>) -> RunView
    decreases pings.len(),
{
    if pings.len() == 0 {
        run
    } else {
        after_pings(run, pings.drop_last()).after(
            EventView::Frame(FrameView::Ping { nonce: pings.last().0 }),
            pings.last().1,
        ).0
    }
}

/// A live session answers every ping with its nonce, and pings change nothing
/// but since when it waits.
pub proof fn pings_are_answered(run: RunView, pings: Seq<(u64, u64)>, nonce: u64, now: u64)
    requires
        run.stage == RunStage::Live,
    ensures
        after_pings(run, pings) == (RunView {
            since: if pings.len() == 0 {
                run.since
            } else {
                pings.last().1
            },
            ..run
        }),
        after_pings(run, pings).after(EventView::Frame(FrameView::Ping { nonce }), now).1
            == RunActView::Send(FrameView::Pong { nonce }),
    decreases pings.len(),
{
    if pings.len() > 0 {
        pings_are_answered(run, pings.drop_last(), nonce, now);
    }
}

/// A revoked token ends a live session at the next re-validation, however many
/// pings the daemon sends: once it is due, the session waits for nothing before
/// it; a token that belongs to nobody or to someone else is then answered with
/// the denial, as the last frame. While the token still belongs to the user and
/// the plan was not withdrawn, the session lives on, and the next re-validation
/// falls due one interval later.
pub proof fn revoked_token_ends_a_session(
    run: RunView,
    pings: Seq<(u64, u64)>,
    now: u64,
    who: Option<WhoView>,
    decision: CapDecision,
)
    requires
        run.stage == RunStage::Live,
        run.due is Some,
        run.due->0 <= now,
    ensures
        ({
            let busy = after_pings(run, pings);
            let asking = busy.after(EventView::Ready, now);
            let told = asking.0.after(EventView::Rechecked { who, decision }, now);
            let valid = who is Some && who->0.user_id == run.user_id;
            &&& asking.1 == RunActView::Recheck
            &&& !valid ==> told == (
                asking.0.over(),
                RunActView::Terminate(
                    FrameView::Denied { code: DenyCode::AuthFailed, message: "token revoked"@ },
                ),
            )
            &&& valid && decision != CapDecision::DenyAll ==> told == (
                RunView { due: run.next_due(now), ..busy },
                RunActView::Wait,
            )
        }),
{
    pings_are_answered(run, pings, 0, now);
}

/// The first re-validation falls due one interval after the welcome, and no
/// event but a re-validation moves the next one: frames never put it off.
pub proof fn recheck_is_not_put_off(run: RunView, e: EventView, now: u64)
    ensures
        e is Who && run.after(e, now).0.stage == RunStage::Live ==> run.after(e, now).0.due
            == run.next_due(now),
        e is Rechecked && run.after(e, now).0.stage == RunStage::Live ==> run.after(e, now).0.due
            == run.next_due(now),
        !(e is Who) && !(e is Rechecked) ==> run.after(e, now).0.due == run.due,
        run.after(e, now).0.period_ms == run.period_ms,
{
}

/// A read never runs past the next re-validation, nor past the dead-man.
pub proof fn reads_end_in_time(run: RunView, now: u64)
    requires
        run.stage == RunStage::Live,
    ensures
        match run.after(EventView::Ready, now).1 {
            RunActView::Read { ms } => {
                &&& 0 < ms <= 1000 * ControlStage::Live.patience()
                &&& run.due is Some ==> now + ms <= run.due->0
                &&& now >= run.since ==> now + ms <= run.since + 1000
                    * ControlStage::Live.patience()
            },
            RunActView::Recheck => run.due is Some && run.due->0 <= now,
            RunActView::End => now >= run.since + 1000 * ControlStage::Live.patience(),
            _ => false,
        },
{
}

/// Nothing is decided before the handshake is through: a claim, a release or an
/// owned-set request is acted on in an established session only, and a claim
/// only after the licence was activated.
pub proof fn handshake_comes_first(run: RunView, e: EventView, now: u64)
    ensures
        run.after(e, now).1 is Claim ==> run.stage == RunStage::Activating && e
            == EventView::Activated(None),
        run.after(e, now).0.stage == RunStage::Activating ==> run.stage == RunStage::Live,
        run.after(e, now).1 is Release ==> run.stage == RunStage::Live,
        run.after(e, now).1 is ListOwned ==> run.stage == RunStage::Live,
        run.after(e, now).1 is Welcome ==> run.stage == RunStage::Proving,
        run.after(e, now).0.stage == RunStage::Proving ==> run.stage == RunStage::Hello,
        run.after(e, now).0.stage == RunStage::Hello ==> run.stage == RunStage::Preamble || (
        run.stage == RunStage::Hello && e == EventView::Ready),
{
}

/// A denial, a farewell and a failure are final: nothing is sent, read or
/// decided after them.
pub proof fn end_is_final(run: RunView, e: EventView, f: EventView, now: u64, then: u64)
    ensures
        ({
            let (next, act) = run.after(e, now);
            act is Deny || act is Terminate || act is End || act is Fail ==> next.stage
                == RunStage::Over && next.after(f, then) == (next, RunActView::End)
        }),
{
}

/// The handshake runs in order: the preamble, a `Hello`, its token proved, and
/// only then a live session. The token and the version of the `Hello` are the
/// ones that are proved and agreed on; the welcome names that version, this
/// relay and this session, and the session is the proved user's.
pub proof fn handshake_proves_the_token(
    run: RunView,
    f: FrameView,
    who: Option<WhoView>,
    now: u64,
    then: u64,
)
    ensures
        run.stage == RunStage::Preamble ==> run.after(EventView::Preamble, now) == (
            RunView { stage: RunStage::Hello, since: now, ..run },
            RunActView::Wait,
        ),
        run.stage == RunStage::Hello && f is Hello && session::hello_fault(f) is None ==> ({
            let (proving, ask) = run.after(EventView::Frame(f), now);
            let (live, told) = proving.after(EventView::Who(who), then);
            &&& ask == RunActView::Authenticate
            &&& proving.token == f->Hello_token
            &&& session::agreed(f->proto_min, f->proto_max) == Some(proving.proto)
            &&& who matches Some(u) ==> live.stage == RunStage::Live && live.user_id == u.user_id
                && live.token == f->Hello_token && live.since == then && told
                == RunActView::Welcome(
                FrameView::Welcome {
                    proto: proving.proto,
                    server_version: run.server_version,
                    session_id: run.session_id,
                },
            )
            &&& who is None ==> live.stage == RunStage::Over && (told matches RunActView::Deny(
                FrameView::Denied { code, .. },
            ) && code == DenyCode::AuthFailed)
        }),
        run.stage == RunStage::Hello && session::hello_fault(f) is Some ==> run.after(
            EventView::Frame(f),
            now,
        ) == (RunView { stage: RunStage::Over, ..run }, RunActView::Deny(session::hello_fault(f)->0)),
{
}

/// A claim is handled with the very lists it came with, once the licence has
/// been activated for it; if that is refused, the daemon is told and the
/// session goes on. Nothing of the claim is kept.
pub proof fn claim_waits_for_activation(
    run: RunView,
    hostnames: Seq<Seq<char>>,
    tcp_ports: Seq<u16>,
    denial: FrameView,
    now: u64,
    then: u64,
)
    requires
        run.stage == RunStage::Live,
    ensures
        ({
            let (asked, first) = run.after(
                EventView::Frame(FrameView::Claim { hostnames, tcp_ports }),
                now,
            );
            let (busy, go) = asked.after(EventView::Activated(None), then);
            let (on, no) = asked.after(EventView::Activated(Some(denial)), then);
            &&& first == RunActView::Activate
            &&& go == RunActView::Claim { hostnames, tcp_ports }
            &&& busy.pending is None
            &&& no == RunActView::Send(denial)
            &&& on == (RunView { pending: None, since: then, ..run })
            &&& busy.after(EventView::Handled, then) == (
                RunView { pending: None, since: then, ..run },
                RunActView::Wait,
            )
        }),
{
}

/// A release is handled with the lists it came with; the activation is given
/// back exactly when nothing is left to the account. A request for the owned
/// set is answered, and a goodbye ends the session.
pub proof fn live_requests_are_handled(
    run: RunView,
    hostnames: Seq<Seq<char>>,
    tcp_ports: Seq<u16>,
    left: usize,
    now: u64,
    then: u64,
)
    requires
        run.stage == RunStage::Live,
    ensures
        ({
            let (busy, first) = run.after(
                EventView::Frame(FrameView::Release { hostnames, tcp_ports }),
                now,
            );
            let (on, last) = busy.after(EventView::Released { left }, then);
            &&& first == RunActView::Release { hostnames, tcp_ports }
            &&& last == (if left == 0 {
                RunActView::ReleaseActivation
            } else {
                RunActView::Wait
            })
            &&& on == (RunView { since: then, ..run })
        }),
        run.after(EventView::Frame(FrameView::ListOwned), now).1 == RunActView::ListOwned,
        run.after(EventView::Frame(FrameView::ListOwned), now).0.after(EventView::Handled, then) == (
            RunView { since: then, ..run },
            RunActView::Wait,
        ),
        run.after(EventView::Frame(FrameView::Goodbye), now) == (
            RunView { stage: RunStage::Over, ..run },
            RunActView::End,
        ),
{
}

/// The end of a read ends the session: as a fault if the stream broke, or
/// closed within the handshake, and in peace otherwise.
pub proof fn read_end_ends_the_session(run: RunView, o: ReadOutcome, now: u64)
    ensures
        ({
            let (next, act) = run.after(EventView::Ended(o), now);
            &&& next.stage == RunStage::Over
            &&& act == (if (run.stage == RunStage::Preamble || run.stage == RunStage::Hello
                || run.stage == RunStage::Live) && (o == ReadOutcome::Failed || (o
                == ReadOutcome::Eof && run.stage != RunStage::Live)) {
                RunActView::Fail
            } else {
                RunActView::End
            })
        }),
{
}

/// Within the handshake a daemon has ten seconds for each step, and nothing is
/// rechecked.
pub proof fn handshake_is_timed(run: RunView, now: u64)
    requires
        run.stage == RunStage::Preamble || run.stage == RunStage::Hello,
        run.since <= now,
    ensures
        ({
            let (next, act) = run.after(EventView::Ready, now);
            if now < run.since + 10_000 {
                next == run && act == RunActView::Read { ms: (run.since + 10_000 - now) as u64 }
            } else {
                next.stage == RunStage::Over && act == RunActView::End
            }
        }),
{
}

/// A live session is next rechecked one period from now, and every frame of a
/// live session, whatever it is, shows that the daemon is alive.
pub proof fn frames_keep_a_session_alive(run: RunView, f: FrameView, now: u64)
    requires
        run.stage == RunStage::Live,
    ensures
        run.after(EventView::Frame(f), now).0.stage == RunStage::Live ==> run.after(
            EventView::Frame(f),
            now,
        ).0 == (RunView { since: now, ..run }),
        match run.period_ms {
            None => run.next_due(now) is None,
            Some(p) => run.next_due(now) == Some(
                if now + p <= u64::MAX {
                    (now + p) as u64
                } else {
                    u64::MAX
                },
            ),
        },
{
}

} // verus!
