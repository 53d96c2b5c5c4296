//! Starting the audio services, step by step.
//!
//! [`Startup`] decides what comes next; its caller does it and reports back.

use vstd::prelude::*;

verus! {

/// The oldest system that the services run on.
pub const MIN_PIPEWIRE_API_LEVEL: i32 = 30;

/// A service.
#[derive(Clone, Copy, PartialEq, Eq, Structural)]
pub enum Role {
    Pipewire,
    Wireplumber,
    Sink,
    Pulse,
}

/// What the caller does next.
pub enum Action<S> {
    /// See whether a service that runs has exited.
    Poll,
    /// Stop what ran before, because of this, and remove its sockets.
    StopStale(S),
    /// Ask for the level of the system.
    ReadApiLevel,
    /// See which programs are there.
    FindBinaries,
    /// Make the directories, link the plugins, unpack the session manager's data
    /// where it is there, remove old sockets and write the configuration.
    Prepare { wireplumber: bool },
    /// Start a service.
    Spawn(Role),
    /// Wait until a service answers at its socket.
    WaitSocket(Role),
    /// See whether a service is still there after a moment.
    CheckAlive(Role),
    /// Write the configuration of the service for clients of PulseAudio.
    WritePulseConfig,
    /// Keep the services that were started, and watch them.
    Record,
    /// Nothing more.
    Finish(Outcome<S>),
}

/// How a start ends.
pub enum Outcome<S> {
    /// The services run already.
    Reused,
    /// The system is too old.
    TooOld(i32),
    /// The programs are not there.
    NotBundled,
    /// The services run.
    Ready,
    /// This went wrong; these services are stopped, in order.
    Failed { error: S, stop: Vec<Role> },
}

/// What the caller found.
pub enum Report<S> {
    /// The start begins; services may be kept from before.
    Begin { kept: bool },
    /// Why a service has exited, if one has.
    Polled(Result<Option<S>, S>),
    /// What ran before is stopped.
    Stopped,
    /// The level of the system.
    ApiLevel(i32),
    /// Which programs are there.
    Binaries { pipewire: bool, sink: bool, wireplumber: bool, pulse: bool },
    /// The step is done, or failed.
    Done(Result<(), S>),
}

/// Where a start is.
#[derive(Clone, Copy, PartialEq, Eq, Structural)]
pub enum Phase {
    New,
    Polling,
    Stopping,
    Level,
    Finding,
    Preparing,
    Spawning(Role),
    Waiting(Role),
    Checking,
    Configuring,
    Recording,
    Over,
}

/// A start under way.
pub struct Startup {
    phase: Phase,
    wireplumber: bool,
    pulse: bool,
    running: Vec<Role>,
}

/// A start as its caller sees it.
#[verifier::ext_equal]
pub struct StartView {
    pub phase: Phase,
    /// Whether the session manager takes part.
    pub wireplumber: bool,
    /// Whether the service for clients of PulseAudio takes part.
    pub pulse: bool,
    /// The services that were started, in order.
    pub running: Seq<Role>,
}

impl View for Startup {
    type V = StartView;

    closed spec fn view(&self) -> StartView {
        StartView {
            phase: self.phase,
            wireplumber: self.wireplumber,
            pulse: self.pulse,
            running: self.running@,
        }
    }
}

/// What the caller does next, over views.
#[verifier::ext_equal]
pub enum ActionView {
    Poll,
    StopStale(Seq<char>),
    ReadApiLevel,
    FindBinaries,
    Prepare { wireplumber: bool },
    Spawn(Role),
    WaitSocket(Role),
    CheckAlive(Role),
    WritePulseConfig,
    Record,
    Reused,
    TooOld(i32),
    NotBundled,
    Ready,
    Failed { error: Seq<char>, stop: Seq<Role> },
}

impl Action<String> {
    /// The action over views.
    pub open spec fn seen(self) -> ActionView {
        match self {
            Action::Poll => ActionView::Poll,
            Action::StopStale(why) => ActionView::StopStale(why@),
            Action::ReadApiLevel => ActionView::ReadApiLevel,
            Action::FindBinaries => ActionView::FindBinaries,
            Action::Prepare { wireplumber } => ActionView::Prepare { wireplumber },
            Action::Spawn(r) => ActionView::Spawn(r),
            Action::WaitSocket(r) => ActionView::WaitSocket(r),
            Action::CheckAlive(r) => ActionView::CheckAlive(r),
            Action::WritePulseConfig => ActionView::WritePulseConfig,
            Action::Record => ActionView::Record,
            Action::Finish(Outcome::Reused) => ActionView::Reused,
            Action::Finish(Outcome::TooOld(n)) => ActionView::TooOld(n),
            Action::Finish(Outcome::NotBundled) => ActionView::NotBundled,
            Action::Finish(Outcome::Ready) => ActionView::Ready,
            Action::Finish(Outcome::Failed { error, stop }) => ActionView::Failed {
                error: error@,
                stop: stop@,
            },
        }
    }
}

impl Report<String> {
    /// The event over the views of its texts.
    pub open spec fn seen(self) -> Report<Seq<char>> {
        match self {
            Report::Begin { kept } => Report::Begin { kept },
            Report::Polled(Ok(Some(why))) => Report::Polled(Ok(Some(why@))),
            Report::Polled(Ok(None)) => Report::Polled(Ok(None)),
            Report::Polled(Err(e)) => Report::Polled(Err(e@)),
            Report::Stopped => Report::Stopped,
            Report::ApiLevel(n) => Report::ApiLevel(n),
            Report::Binaries { pipewire, sink, wireplumber, pulse } => Report::Binaries {
                pipewire,
                sink,
                wireplumber,
                pulse,
            },
            Report::Done(Ok(())) => Report::Done(Ok(())),
            Report::Done(Err(e)) => Report::Done(Err(e@)),
        }
    }
}

/// The event that a phase waits for.
pub open spec fn expects<S>(phase: Phase, ev: Report<S>) -> bool {
    match phase {
        Phase::New => ev is Begin,
        Phase::Polling => ev is Polled,
        Phase::Stopping => ev is Stopped,
        Phase::Level => ev is ApiLevel,
        Phase::Finding => ev is Binaries,
        Phase::Over => false,
        _ => ev is Done,
    }
}

/// The services that take part, in the order in which they are started.
pub open spec fn roles(wireplumber: bool, pulse: bool) -> Seq<Role> {
    let a: Seq<Role> = if wireplumber {
        seq![Role::Pipewire, Role::Wireplumber]
    } else {
        seq![Role::Pipewire]
    };
    if pulse {
        a + seq![Role::Sink, Role::Pulse]
    } else {
        a + seq![Role::Sink]
    }
}

/// A service once it has been started and found to work: what comes next.
pub open spec fn after(s: StartView, r: Role) -> (StartView, ActionView) {
    match r {
        Role::Pipewire => {
            let next = if s.wireplumber {
                Role::Wireplumber
            } else {
                Role::Sink
            };
            (StartView { phase: Phase::Spawning(next), ..s }, ActionView::Spawn(next))
        },
        Role::Wireplumber => (
            StartView { phase: Phase::Spawning(Role::Sink), ..s },
            ActionView::Spawn(Role::Sink),
        ),
        Role::Sink => if s.pulse {
            (StartView { phase: Phase::Configuring, ..s }, ActionView::WritePulseConfig)
        } else {
            (StartView { phase: Phase::Recording, ..s }, ActionView::Record)
        },
        Role::Pulse => (StartView { phase: Phase::Recording, ..s }, ActionView::Record),
    }
}

/// A service that was started: how it is found to work.
pub open spec fn spawned(s: StartView, r: Role) -> (StartView, ActionView) {
    let t = StartView { running: s.running.push(r), ..s };
    match r {
        Role::Pipewire | Role::Pulse => (
            StartView { phase: Phase::Waiting(r), ..t },
            ActionView::WaitSocket(r),
        ),
        Role::Sink => (StartView { phase: Phase::Checking, ..t }, ActionView::CheckAlive(r)),
        Role::Wireplumber => after(t, r),
    }
}

/// A start that failed: what was started is stopped, the last first.
pub open spec fn failed(s: StartView, error: Seq<char>) -> (StartView, ActionView) {
    (
        StartView { phase: Phase::Over, running: seq![], ..s },
        ActionView::Failed { error, stop: s.running.reverse() },
    )
}

/// A start that failed while services run that nothing stops.
pub open spec fn abandoned(s: StartView, error: Seq<char>) -> (StartView, ActionView) {
    (StartView { phase: Phase::Over, ..s }, ActionView::Failed { error, stop: seq![] })
}

/// A start that is over.
pub open spec fn over(s: StartView, a: ActionView) -> (StartView, ActionView) {
    (StartView { phase: Phase::Over, ..s }, a)
}

/// Where a start is after an event, and what the caller does next.
pub open spec fn stepped(s: StartView, ev: Report<Seq<char>>) -> (StartView, ActionView) {
    match ev {
        Report::Begin { kept } => if kept {
            (StartView { phase: Phase::Polling, ..s }, ActionView::Poll)
        } else {
            (StartView { phase: Phase::Level, ..s }, ActionView::ReadApiLevel)
        },
        Report::Polled(Err(e)) => over(s, ActionView::Failed { error: e, stop: seq![] }),
        Report::Polled(Ok(Some(why))) => (
            StartView { phase: Phase::Stopping, ..s },
            ActionView::StopStale(why),
        ),
        Report::Polled(Ok(None)) => over(s, ActionView::Reused),
        Report::Stopped => (StartView { phase: Phase::Level, ..s }, ActionView::ReadApiLevel),
        Report::ApiLevel(n) => if n < MIN_PIPEWIRE_API_LEVEL {
            over(s, ActionView::TooOld(n))
        } else {
            (StartView { phase: Phase::Finding, ..s }, ActionView::FindBinaries)
        },
        Report::Binaries { pipewire, sink, wireplumber, pulse } => if !pipewire || !sink {
            over(s, ActionView::NotBundled)
        } else {
            (
                StartView { phase: Phase::Preparing, wireplumber, pulse, ..s },
                ActionView::Prepare { wireplumber },
            )
        },
        Report::Done(Ok(())) => match s.phase {
            Phase::Preparing => (
                StartView { phase: Phase::Spawning(Role::Pipewire), ..s },
                ActionView::Spawn(Role::Pipewire),
            ),
            Phase::Spawning(r) => spawned(s, r),
            Phase::Waiting(r) => after(s, r),
            Phase::Checking => after(s, Role::Sink),
            Phase::Configuring => (
                StartView { phase: Phase::Spawning(Role::Pulse), ..s },
                ActionView::Spawn(Role::Pulse),
            ),
            _ => over(s, ActionView::Ready),
        },
        Report::Done(Err(e)) => match s.phase {
            Phase::Configuring | Phase::Recording => abandoned(s, e),
            _ => failed(s, e),
        },
    }
}

/// What every start keeps: the services that were started are those that the
/// phase stands behind.
pub open spec fn start_wf(s: StartView) -> bool {
    let all = roles(s.wireplumber, s.pulse);
    match s.phase {
        Phase::New | Phase::Polling | Phase::Stopping | Phase::Level | Phase::Finding
        | Phase::Preparing => s.running == Seq::<Role>::empty(),
        Phase::Spawning(r) => s.running.len() < all.len() && s.running == all.take(
            s.running.len() as int,
        ) && all[s.running.len() as int] == r,
        Phase::Waiting(r) => (r == Role::Pipewire || r == Role::Pulse) && 0 < s.running.len()
            <= all.len() && s.running == all.take(s.running.len() as int) && s.running.last() == r,
        Phase::Checking => 0 < s.running.len() <= all.len() && s.running == all.take(
            s.running.len() as int,
        ) && s.running.last() == Role::Sink,
        Phase::Configuring => s.pulse && s.running == all.drop_last(),
        Phase::Recording => s.running == all,
        Phase::Over => true,
    }
}

/// `a`, back to front.
fn reversed(a: &Vec<Role>) -> (r: Vec<Role>)
    ensures
        r@ == a@.reverse(),
{
    let mut out: Vec<Role> = Vec::new();
    let mut i: usize = a.len();
    while i > 0
        invariant
            i <= a.len(),
            out@ == a@.reverse().take(a.len() - i),
        decreases i,
    {
        i = i - 1;
        out.push(a[i]);
        assert(out@ =~= a@.reverse().take(a.len() - i));
    }
    assert(out@ =~= a@.reverse());
    out
}

impl Startup {
    /// A start that has not begun.
    pub fn new() -> (r: Startup)
        ensures
            start_wf(r@),
            r@ == (StartView {
                phase: Phase::New,
                wireplumber: false,
                pulse: false,
                running: seq![],
            }),
    {
        let r = Startup {
            phase: Phase::New,
            wireplumber: false,
            pulse: false,
            running: Vec::new(),
        };
        assert(r@.running =~= seq![]);
        r
    }

    /// Goes on behind a service that works.
    fn go_on(&mut self, r: Role) -> (a: Action<String>)
        ensures
            (final(self)@, a.seen()) == after(old(self)@, r),
    {
        match r {
            Role::Pipewire => {
                let next: Role = if self.wireplumber {
                    Role::Wireplumber
                } else {
                    Role::Sink
                };
                self.phase = Phase::Spawning(next);
                Action::Spawn(next)
            },
            Role::Wireplumber => {
                self.phase = Phase::Spawning(Role::Sink);
                Action::Spawn(Role::Sink)
            },
            Role::Sink => {
                if self.pulse {
                    self.phase = Phase::Configuring;
                    Action::WritePulseConfig
                } else {
                    self.phase = Phase::Recording;
                    Action::Record
                }
            },
            Role::Pulse => {
                self.phase = Phase::Recording;
                Action::Record
            },
        }
    }

    /// Takes up a step that is done.
    fn done(&mut self) -> (a: Action<String>)
        ensures
            (final(self)@, a.seen()) == stepped(old(self)@, Report::Done(Ok(()))),
    {
        match self.phase {
            Phase::Preparing => {
                self.phase = Phase::Spawning(Role::Pipewire);
                Action::Spawn(Role::Pipewire)
            },
            Phase::Spawning(r) => {
                self.running.push(r);
                match r {
                    Role::Pipewire | Role::Pulse => {
                        self.phase = Phase::Waiting(r);
                        Action::WaitSocket(r)
                    },
                    Role::Sink => {
                        self.phase = Phase::Checking;
                        Action::CheckAlive(r)
                    },
                    Role::Wireplumber => self.go_on(r),
                }
            },
            Phase::Waiting(r) => self.go_on(r),
            Phase::Checking => self.go_on(Role::Sink),
            Phase::Configuring => {
                self.phase = Phase::Spawning(Role::Pulse);
                Action::Spawn(Role::Pulse)
            },
            _ => {
                self.phase = Phase::Over;
                Action::Finish(Outcome::Ready)
            },
        }
    }

    /// Takes up a step that failed.
    fn fail(&mut self, error: String) -> (a: Action<String>)
        ensures
            (final(self)@, a.seen()) == stepped(old(self)@, Report::Done(Err(error@))),
    {
        match self.phase {
            Phase::Configuring | Phase::Recording => {
                self.phase = Phase::Over;
                let a = Action::Finish(Outcome::Failed { error, stop: Vec::new() });
                assert(a.seen() =~= stepped(old(self)@, Report::Done(Err(error@))).1);
                a
            },
            _ => {
                let stop = reversed(&self.running);
                self.phase = Phase::Over;
                self.running = Vec::new();
                assert(self@.running =~= seq![]);
                Action::Finish(Outcome::Failed { error, stop })
            },
        }
    }

    /// Takes up what the caller found, and says what it does next.
    pub fn step(&mut self, ev: Report<String>) -> (a: Action<String>)
        requires
            start_wf(old(self)@),
            expects(old(self)@.phase, ev),
        ensures
            (final(self)@, a.seen()) == stepped(old(self)@, ev.seen()),
            start_wf(final(self)@),
    {
        proof {
            law_a_start_stays_sound(self@, ev.seen());
        }
        match ev {
            Report::Begin { kept } => {
                if kept {
                    self.phase = Phase::Polling;
                    Action::Poll
                } else {
                    self.phase = Phase::Level;
                    Action::ReadApiLevel
                }
            },
            Report::Polled(Err(error)) => {
                self.phase = Phase::Over;
                let a = Action::Finish(Outcome::Failed { error, stop: Vec::new() });
                assert(a.seen() =~= stepped(old(self)@, ev.seen()).1);
                a
            },
            Report::Polled(Ok(Some(why))) => {
                self.phase = Phase::Stopping;
                Action::StopStale(why)
            },
            Report::Polled(Ok(None)) => {
                self.phase = Phase::Over;
                Action::Finish(Outcome::Reused)
            },
            Report::Stopped => {
                self.phase = Phase::Level;
                Action::ReadApiLevel
            },
            Report::ApiLevel(n) => {
                if n < MIN_PIPEWIRE_API_LEVEL {
                    self.phase = Phase::Over;
                    Action::Finish(Outcome::TooOld(n))
                } else {
                    self.phase = Phase::Finding;
                    Action::FindBinaries
                }
            },
            Report::Binaries { pipewire, sink, wireplumber, pulse } => {
                if !pipewire || !sink {
                    self.phase = Phase::Over;
                    Action::Finish(Outcome::NotBundled)
                } else {
                    self.phase = Phase::Preparing;
                    self.wireplumber = wireplumber;
                    self.pulse = pulse;
                    Action::Prepare { wireplumber }
                }
            },
            Report::Done(Ok(())) => self.done(),
            Report::Done(Err(error)) => self.fail(error),
        }
    }
}

// ---------------------------------------------------------------------------
// What holds of every start
// ---------------------------------------------------------------------------

/// A start stays sound: at every step the services that were started are the
/// first of those that take part, in order.
pub proof fn law_a_start_stays_sound(s: StartView, ev: Report<Seq<char>>)
    requires
        start_wf(s),
        expects(s.phase, ev),
    ensures
        start_wf(stepped(s, ev).0),
{
    let all = roles(s.wireplumber, s.pulse);
    let t = stepped(s, ev).0;
    match (s.phase, ev) {
        (Phase::Spawning(r), Report::Done(Ok(()))) => {
            let n = s.running.len() as int;
            assert(s.running.push(r) =~= all.take(n + 1));
            assert(t.running == all.take(n + 1));
            if n + 1 == all.len() {
                assert(all.take(n + 1) =~= all);
            }
        },
        (Phase::Waiting(r), Report::Done(Ok(()))) => {
            let n = s.running.len() as int;
            assert(all.take(n).last() == all[n - 1]);
            if r == Role::Pulse {
                assert(all.take(n) =~= all);
            }
        },
        (Phase::Checking, Report::Done(Ok(()))) => {
            let n = s.running.len() as int;
            assert(all.take(n).last() == all[n - 1]);
            if s.pulse {
                assert(all.take(n) =~= all.drop_last());
            } else {
                assert(all.take(n) =~= all);
            }
        },
        (Phase::Configuring, Report::Done(Ok(()))) => {
            assert(all.drop_last() =~= all.take(all.len() - 1));
        },
        (Phase::Preparing, Report::Done(Ok(()))) => {
            assert(all.take(0) =~= Seq::<Role>::empty());
        },
        _ => {},
    }
}

/// A start that fails stops every service that it has started, the last one
/// first, and stops nothing else. The exception is a failure to write the
/// configuration of the last service or to keep the services: those are left
/// running.
pub proof fn law_a_failed_start_stops_what_it_started(s: StartView, e: Seq<char>)
    requires
        start_wf(s),
        expects(s.phase, Report::Done(Err::<(), Seq<char>>(e))),
        s.phase != Phase::Configuring,
        s.phase != Phase::Recording,
    ensures
        stepped(s, Report::Done(Err(e))).1 == (ActionView::Failed {
            error: e,
            stop: s.running.reverse(),
        }),
        stepped(s, Report::Done(Err(e))).0.running == Seq::<Role>::empty(),
{
}

/// A start ends well only with every service running that takes part.
pub proof fn law_ready_means_all_run(s: StartView, ev: Report<Seq<char>>)
    requires
        start_wf(s),
        expects(s.phase, ev),
        stepped(s, ev).1 is Ready,
    ensures
        stepped(s, ev).0.running == roles(s.wireplumber, s.pulse),
{
}

/// Where the system is too old or the programs are not there, nothing is started.
pub proof fn law_nothing_starts_in_vain(s: StartView, ev: Report<Seq<char>>)
    requires
        start_wf(s),
        expects(s.phase, ev),
        stepped(s, ev).1 is TooOld || stepped(s, ev).1 is NotBundled,
    ensures
        stepped(s, ev).0.running == Seq::<Role>::empty(),
        stepped(s, ev).0.phase == Phase::Over,
{
}

/// A start that goes well takes its steps in this order: it looks whether the
/// system and the programs will do, prepares, and starts the daemon, the session
/// manager if there is one, the sink, and the service for clients of PulseAudio
/// if there is one, waiting for each before the next.
pub proof fn law_services_start_in_order(wireplumber: bool, pulse: bool, level: i32)
    requires
        level >= 30,
    ensures
        ({
            let ok = Report::Done(Ok::<(), Seq<char>>(()));
            let new = StartView {
                phase: Phase::New,
                wireplumber: false,
                pulse: false,
                running: seq![],
            };
            let a = stepped(new, Report::Begin { kept: false });
            let b = stepped(a.0, Report::ApiLevel(level));
            let c = stepped(
                b.0,
                Report::Binaries { pipewire: true, sink: true, wireplumber, pulse },
            );
            let d = stepped(c.0, ok);
            let e = stepped(d.0, ok);
            let f = stepped(e.0, ok);
            let g = if wireplumber {
                stepped(f.0, ok)
            } else {
                f
            };
            let h = stepped(g.0, ok);
            let i = stepped(h.0, ok);
            let j = stepped(i.0, ok);
            let k = stepped(j.0, ok);
            let l = stepped(k.0, ok);
            let last = if pulse {
                l
            } else {
                i
            };
            let end = stepped(last.0, ok);
            &&& a.1 is ReadApiLevel
            &&& b.1 is FindBinaries
            &&& c.1 == (ActionView::Prepare { wireplumber })
            &&& d.1 == ActionView::Spawn(Role::Pipewire)
            &&& e.1 == ActionView::WaitSocket(Role::Pipewire)
            &&& wireplumber ==> f.1 == ActionView::Spawn(Role::Wireplumber)
            &&& g.1 == ActionView::Spawn(Role::Sink)
            &&& h.1 == ActionView::CheckAlive(Role::Sink)
            &&& pulse ==> i.1 is WritePulseConfig && j.1 == ActionView::Spawn(Role::Pulse) && k.1
                == ActionView::WaitSocket(Role::Pulse)
            &&& last.1 is Record
            &&& end.1 is Ready && end.0.phase is Over
        }),
{
}

/// A start that fails stops what it has started, the last first: a service that
/// could not be started is not among it, one that was started and does not
/// answer is.
pub proof fn law_failures_stop_the_last_first(
    wireplumber: bool,
    pulse: bool,
    why: Seq<char>,
)
    ensures
        ({
            let at = |phase: Phase, running: Seq<Role>|
                stepped(
                    StartView { phase, wireplumber, pulse, running },
                    Report::Done(Err::<(), Seq<char>>(why)),
                ).1;
            let none = Seq::<Role>::empty();
            let first = seq![Role::Pipewire];
            let two = seq![Role::Pipewire, Role::Wireplumber];
            let three = seq![Role::Pipewire, Role::Wireplumber, Role::Sink];
            let four = seq![Role::Pipewire, Role::Wireplumber, Role::Sink, Role::Pulse];
            &&& at(Phase::Preparing, none) == (ActionView::Failed { error: why, stop: none })
            &&& at(Phase::Spawning(Role::Pipewire), none) == (ActionView::Failed {
                error: why,
                stop: none,
            })
            &&& at(Phase::Waiting(Role::Pipewire), first) == (ActionView::Failed {
                error: why,
                stop: first,
            })
            &&& at(Phase::Spawning(Role::Wireplumber), first) == (ActionView::Failed {
                error: why,
                stop: first,
            })
            &&& at(Phase::Spawning(Role::Sink), two) == (ActionView::Failed {
                error: why,
                stop: seq![Role::Wireplumber, Role::Pipewire],
            })
            &&& at(Phase::Checking, three) == (ActionView::Failed {
                error: why,
                stop: seq![Role::Sink, Role::Wireplumber, Role::Pipewire],
            })
            &&& at(Phase::Spawning(Role::Pulse), three) == (ActionView::Failed {
                error: why,
                stop: seq![Role::Sink, Role::Wireplumber, Role::Pipewire],
            })
            &&& at(Phase::Waiting(Role::Pulse), four) == (ActionView::Failed {
                error: why,
                stop: seq![Role::Pulse, Role::Sink, Role::Wireplumber, Role::Pipewire],
            })
        }),
{
    let none = Seq::<Role>::empty();
    let first = seq![Role::Pipewire];
    let two = seq![Role::Pipewire, Role::Wireplumber];
    let three = seq![Role::Pipewire, Role::Wireplumber, Role::Sink];
    let four = seq![Role::Pipewire, Role::Wireplumber, Role::Sink, Role::Pulse];
    assert(none.reverse() =~= none);
    assert(first.reverse() =~= first);
    assert(two.reverse() =~= seq![Role::Wireplumber, Role::Pipewire]);
    assert(three.reverse() =~= seq![Role::Sink, Role::Wireplumber, Role::Pipewire]);
    assert(four.reverse() =~= seq![Role::Pulse, Role::Sink, Role::Wireplumber, Role::Pipewire]);
}

/// Services that were kept are polled first: where all of them run, nothing is
/// started; where one has exited, all are stopped and the start goes on; where
/// they cannot be polled, it fails. A system that is too old, and programs that
/// are not there, end the start without an error.
pub proof fn law_nothing_is_started_without_need(
    s: StartView,
    why: Seq<char>,
    level: i32,
    wireplumber: bool,
    pulse: bool,
)
    ensures
        stepped(s, Report::Begin { kept: true }).1 is Poll,
        stepped(s, Report::Begin { kept: false }).1 is ReadApiLevel,
        stepped(s, Report::Polled(Ok(None))).1 is Reused,
        stepped(s, Report::Polled(Ok(Some(why)))).1 == ActionView::StopStale(why),
        stepped(s, Report::Polled(Err(why))).1 == (ActionView::Failed { error: why, stop: seq![] }),
        stepped(s, Report::Stopped).1 is ReadApiLevel,
        level < 30 ==> stepped(s, Report::ApiLevel(level)).1 == ActionView::TooOld(level),
        level >= 30 ==> stepped(s, Report::ApiLevel(level)).1 is FindBinaries,
        stepped(
            s,
            Report::Binaries { pipewire: false, sink: true, wireplumber, pulse },
        ).1 is NotBundled,
        stepped(
            s,
            Report::Binaries { pipewire: true, sink: false, wireplumber, pulse },
        ).1 is NotBundled,
{
}

} // verus!
