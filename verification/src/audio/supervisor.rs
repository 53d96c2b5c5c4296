//! Watching and stopping the audio services.

use vstd::prelude::*;

use crate::audio::env::{socket_paths, socket_paths_in};
use crate::audio::startup::Role;
use crate::numbers::{dec, to_dec};
use crate::paths::{join_path, path_join};
use crate::text::texts;

verus! {

/// How often a socket is tried.
pub const SOCKET_ATTEMPTS: u32 = 80;

/// The services that are kept running, besides the daemon and the sink.
#[derive(Clone, Copy, PartialEq, Eq, Structural)]
pub struct Children {
    pub wireplumber: bool,
    pub pulse: bool,
}

/// The name of a service.
pub open spec fn role_name(r: Role) -> Seq<char> {
    match r {
        Role::Pipewire => "pipewire"@,
        Role::Wireplumber => "wireplumber"@,
        Role::Sink => "aaudio-sink"@,
        Role::Pulse => "pipewire-pulse"@,
    }
}

/// Names a service.
pub fn name_of(r: Role) -> (s: &'static str)
    ensures
        s@ == role_name(r),
{
    match r {
        Role::Pipewire => "pipewire",
        Role::Wireplumber => "wireplumber",
        Role::Sink => "aaudio-sink",
        Role::Pulse => "pipewire-pulse",
    }
}

/// The order in which services are stopped.
pub open spec fn stop_order_of(c: Children) -> Seq<Role> {
    let a: Seq<Role> = if c.pulse {
        seq![Role::Pulse, Role::Sink]
    } else {
        seq![Role::Sink]
    };
    if c.wireplumber {
        a + seq![Role::Wireplumber, Role::Pipewire]
    } else {
        a + seq![Role::Pipewire]
    }
}

/// Lists services in the order in which they are stopped.
pub fn stop_children(c: Children) -> (r: Vec<Role>)
    ensures
        r@ == stop_order_of(c),
{
    let mut v: Vec<Role> = Vec::new();
    if c.pulse {
        v.push(Role::Pulse);
    }
    v.push(Role::Sink);
    if c.wireplumber {
        v.push(Role::Wireplumber);
    }
    v.push(Role::Pipewire);
    assert(v@ =~= stop_order_of(c));
    v
}

/// The order in which services are polled.
pub open spec fn poll_order_of(c: Children) -> Seq<Role> {
    let a: Seq<Role> = if c.wireplumber {
        seq![Role::Pipewire, Role::Wireplumber]
    } else {
        seq![Role::Pipewire]
    };
    if c.pulse {
        a + seq![Role::Pulse, Role::Sink]
    } else {
        a + seq![Role::Sink]
    }
}

/// Lists services in the order in which they are polled.
pub fn poll_order(c: Children) -> (r: Vec<Role>)
    ensures
        r@ == poll_order_of(c),
{
    let mut v: Vec<Role> = Vec::new();
    v.push(Role::Pipewire);
    if c.wireplumber {
        v.push(Role::Wireplumber);
    }
    if c.pulse {
        v.push(Role::Pulse);
    }
    v.push(Role::Sink);
    assert(v@ =~= poll_order_of(c));
    v
}

/// What polling one service found.
pub enum Poll<S> {
    Running,
    /// It has exited with this status.
    Exited(S),
    /// It could not be polled.
    Unknown(S),
}

impl Poll<String> {
    /// What was found over the views of its texts.
    pub open spec fn seen(self) -> Poll<Seq<char>> {
        match self {
            Poll::Running => Poll::Running,
            Poll::Exited(s) => Poll::Exited(s@),
            Poll::Unknown(e) => Poll::Unknown(e@),
        }
    }
}

/// What is said of a service that could not be polled.
pub open spec fn unpolled(name: Seq<char>, e: Seq<char>) -> Seq<char> {
    name + " try_wait: "@ + e
}

/// What is said of a service that has exited.
pub open spec fn exited(name: Seq<char>, pid: u32, status: Seq<char>) -> Seq<char> {
    name + " pid="@ + dec(pid as nat) + " exited (status "@ + status + ")"@
}

/// The first service, in order, that has exited or could not be polled.
pub open spec fn first_exit(polls: Seq<(Role, u32, Poll<Seq<char>>)>) -> Result<
    Option<Seq<char>>,
    Seq<char>,
>
    decreases polls.len(),
{
    if polls.len() == 0 {
        Ok(None)
    } else {
        match polls[0].2 {
            Poll::Running => first_exit(polls.drop_first()),
            Poll::Exited(status) => Ok(Some(exited(role_name(polls[0].0), polls[0].1, status))),
            Poll::Unknown(e) => Err(unpolled(role_name(polls[0].0), e)),
        }
    }
}

/// The views of what polling found.
pub open spec fn poll_views(v: Seq<(Role, u32, Poll<String>)>) -> Seq<
    (Role, u32, Poll<Seq<char>>),
> {
    Seq::new(v.len(), |i: int| (v[i].0, v[i].1, v[i].2.seen()))
}

/// Writes what is said of a service that could not be polled.
fn write_unpolled(name: &str, e: &str) -> (r: String)
    ensures
        r@ == unpolled(name@, e@),
{
    let mut r = name.to_owned();
    r.append(" try_wait: ");
    r.append(e);
    r
}

/// Says which service has exited, given what polling them in order found.
pub fn poll_child_exit(polls: &Vec<(Role, u32, Poll<String>)>) -> (r: Result<
    Option<String>,
    String,
>)
    ensures
        match r {
            Ok(Some(why)) => first_exit(poll_views(polls@)) == Ok::<_, Seq<char>>(Some(why@)),
            Ok(None) => first_exit(poll_views(polls@)) == Ok::<Option<Seq<char>>, Seq<char>>(None),
            Err(e) => first_exit(poll_views(polls@)) == Err::<Option<Seq<char>>, _>(e@),
        },
{
    let ghost all = poll_views(polls@);
    let mut i: usize = 0;
    assert(all.skip(0) =~= all);
    while i < polls.len()
        invariant
            i <= polls.len(),
            all == poll_views(polls@),
            first_exit(all.skip(i as int)) == first_exit(all),
        decreases polls.len() - i,
    {
        assert(all.skip(i as int)[0] == all[i as int]);
        assert(all.skip(i as int).drop_first() =~= all.skip(i + 1));
        let name = name_of(polls[i].0);
        match &polls[i].2 {
            Poll::Running => {},
            Poll::Exited(status) => {
                let pid = to_dec(polls[i].1 as u64);
                let mut r = name.to_owned();
                r.append(" pid=");
                r.append(pid.as_str());
                r.append(" exited (status ");
                r.append(status.as_str());
                r.append(")");
                return Ok(Some(r));
            },
            Poll::Unknown(e) => {
                return Err(write_unpolled(name, e.as_str()));
            },
        }
        i = i + 1;
    }
    Ok(None)
}

/// What trying a socket found.
pub enum Tried<S> {
    /// It answers.
    Connected,
    /// It does not, and its service runs, has exited or could not be polled.
    Closed(Poll<S>),
}

impl Tried<String> {
    /// What was found over the views of its texts.
    pub open spec fn seen(self) -> Tried<Seq<char>> {
        match self {
            Tried::Connected => Tried::Connected,
            Tried::Closed(p) => Tried::Closed(p.seen()),
        }
    }
}

/// What comes of an attempt at a socket: none to wait and try again.
pub open spec fn waited(
    name: Seq<char>,
    socket: Seq<char>,
    attempt: u32,
    tried: Tried<Seq<char>>,
) -> Option<Result<(), Seq<char>>> {
    match tried {
        Tried::Connected => Some(Ok(())),
        Tried::Closed(Poll::Unknown(e)) => Some(Err(unpolled(name, e))),
        Tried::Closed(Poll::Exited(status)) => Some(
            Err(name + " exited before socket "@ + socket + " (status "@ + status + ")"@),
        ),
        Tried::Closed(Poll::Running) => if attempt >= SOCKET_ATTEMPTS {
            Some(Err("timed out waiting for "@ + socket))
        } else {
            None
        },
    }
}

/// Takes up an attempt at a socket. Attempts are counted from one.
pub fn wait_for_socket(name: &str, socket: &str, attempt: u32, tried: Tried<String>) -> (r: Option<
    Result<(), String>,
>)
    ensures
        match r {
            Some(Ok(_)) => waited(name@, socket@, attempt, tried.seen()) == Some(
                Ok::<(), Seq<char>>(()),
            ),
            Some(Err(e)) => waited(name@, socket@, attempt, tried.seen()) == Some(Err::<(), _>(e@)),
            None => waited(name@, socket@, attempt, tried.seen()) is None,
        },
{
    match tried {
        Tried::Connected => Some(Ok(())),
        Tried::Closed(Poll::Unknown(e)) => Some(Err(write_unpolled(name, e.as_str()))),
        Tried::Closed(Poll::Exited(status)) => {
            let mut e = name.to_owned();
            e.append(" exited before socket ");
            e.append(socket);
            e.append(" (status ");
            e.append(status.as_str());
            e.append(")");
            Some(Err(e))
        },
        Tried::Closed(Poll::Running) => {
            if attempt >= SOCKET_ATTEMPTS {
                let mut e = "timed out waiting for ".to_owned();
                e.append(socket);
                Some(Err(e))
            } else {
                None
            }
        },
    }
}

/// Says what a service that is polled shortly after its start means for the start.
pub fn verify_child_still_running(name: &str, poll: Poll<String>) -> (r: Result<(), String>)
    ensures
        match (poll.seen(), r) {
            (Poll::Running, Ok(_)) => true,
            (Poll::Exited(status), Err(e)) => e@ == name@ + " exited during startup (status "@
                + status + ")"@,
            (Poll::Unknown(why), Err(e)) => e@ == unpolled(name@, why),
            _ => false,
        },
{
    match poll {
        Poll::Running => Ok(()),
        Poll::Exited(status) => {
            let mut e = name.to_owned();
            e.append(" exited during startup (status ");
            e.append(status.as_str());
            e.append(")");
            Err(e)
        },
        Poll::Unknown(e) => Err(write_unpolled(name, e.as_str())),
    }
}

/// What stopping the services takes: which ones, in order, and which files.
pub struct Stop {
    pub roles: Vec<Role>,
    pub files: Vec<String>,
}

/// Takes the services out of `slot`, if there are any, and says what stopping
/// them takes. The sockets of the guest at `root` go in any case.
pub fn shutdown(slot: &mut Option<Children>, root: &str) -> (r: Stop)
    ensures
        *final(slot) is None,
        r.roles@ == (match *old(slot) {
            Some(c) => stop_order_of(c),
            None => seq![],
        }),
        texts(r.files@) == socket_paths_in(join_path(root@, "tmp"@)),
{
    let kept: Option<Children> = *slot;
    *slot = None;
    let roles: Vec<Role> = match kept {
        Some(c) => stop_children(c),
        None => Vec::new(),
    };
    let dir = path_join(root, "tmp");
    assert(kept is None ==> roles@ =~= seq![]);
    Stop { roles, files: socket_paths(dir.as_str()) }
}

/// What the watch over the services does next.
pub enum Watch {
    /// Look again.
    Continue,
    /// The services are gone: nothing more to watch.
    Quit,
    /// Stop these, in order, remove the sockets and quit.
    Stop(Vec<Role>),
}

/// Takes up one look at the services that `slot` keeps. `polled` is what
/// polling them found.
pub fn monitor(slot: &mut Option<Children>, polled: &Result<Option<String>, String>) -> (r: Watch)
    ensures
        match *old(slot) {
            None => r is Quit && *final(slot) is None,
            Some(c) => if polled matches Ok(Some(_)) {
                r is Stop && r->Stop_0@ == stop_order_of(c) && *final(slot) is None
            } else {
                r is Continue && *final(slot) == *old(slot)
            },
        },
{
    match *slot {
        None => Watch::Quit,
        Some(c) => match polled {
            Ok(Some(_)) => {
                *slot = None;
                Watch::Stop(stop_children(c))
            },
            _ => Watch::Continue,
        },
    }
}

/// Services are stopped in the reverse of the order in which they were started.
pub proof fn law_stopping_reverses_starting(c: Children)
    ensures
        stop_order_of(c) == crate::audio::startup::roles(c.wireplumber, c.pulse).reverse(),
{
    assert(stop_order_of(c) =~= crate::audio::startup::roles(c.wireplumber, c.pulse).reverse());
}

/// Every service that is polled is stopped, and the other way round.
pub proof fn law_what_is_polled_is_stopped(c: Children, r: Role)
    ensures
        poll_order_of(c).contains(r) <==> stop_order_of(c).contains(r),
{
    let p = poll_order_of(c);
    let s = stop_order_of(c);
    let w = if c.wireplumber {
        1int
    } else {
        0int
    };
    let q = if c.pulse {
        1int
    } else {
        0int
    };
    assert(p[0] == Role::Pipewire && s[s.len() - 1] == Role::Pipewire);
    assert(p[p.len() - 1] == Role::Sink && s[q] == Role::Sink);
    assert(c.wireplumber ==> p[1] == Role::Wireplumber && s[q + 1] == Role::Wireplumber);
    assert(c.pulse ==> p[1 + w] == Role::Pulse && s[0] == Role::Pulse);
}

/// The services are stopped from the last that was started to the first, and
/// polled with the daemon first and the sink last.
pub proof fn law_the_daemon_is_stopped_last(c: Children)
    ensures
        stop_order_of(c).last() == Role::Pipewire,
        c.wireplumber && c.pulse ==> stop_order_of(c) == seq![
            Role::Pulse,
            Role::Sink,
            Role::Wireplumber,
            Role::Pipewire,
        ] && poll_order_of(c) == seq![
            Role::Pipewire,
            Role::Wireplumber,
            Role::Pulse,
            Role::Sink,
        ],
        c.wireplumber && !c.pulse ==> stop_order_of(c) == seq![
            Role::Sink,
            Role::Wireplumber,
            Role::Pipewire,
        ] && poll_order_of(c) == seq![Role::Pipewire, Role::Wireplumber, Role::Sink],
        !c.wireplumber && c.pulse ==> stop_order_of(c) == seq![
            Role::Pulse,
            Role::Sink,
            Role::Pipewire,
        ] && poll_order_of(c) == seq![Role::Pipewire, Role::Pulse, Role::Sink],
        !c.wireplumber && !c.pulse ==> stop_order_of(c) == seq![Role::Sink, Role::Pipewire]
            && poll_order_of(c) == seq![Role::Pipewire, Role::Sink],
{
}

/// The first service that does not run decides: one that has exited is named with
/// its number and status, one that could not be polled is an error. Where all of
/// them run, there is nothing to say.
pub proof fn law_the_first_exit_decides(
    before: Seq<(Role, u32, Poll<Seq<char>>)>,
    role: Role,
    pid: u32,
    what: Seq<char>,
    rest: Seq<(Role, u32, Poll<Seq<char>>)>,
)
    requires
        forall|i: int| 0 <= i < before.len() ==> (#[trigger] before[i]).2 is Running,
    ensures
        first_exit(before) == Ok::<Option<Seq<char>>, Seq<char>>(None),
        first_exit(before + seq![(role, pid, Poll::Exited(what))] + rest) == Ok::<_, Seq<char>>(
            Some(
                role_name(role) + " pid="@ + dec(pid as nat) + " exited (status "@ + what + ")"@,
            ),
        ),
        first_exit(before + seq![(role, pid, Poll::Unknown(what))] + rest) == Err::<
            Option<Seq<char>>,
            _,
        >(role_name(role) + " try_wait: "@ + what),
    decreases before.len(),
{
    let a = before + seq![(role, pid, Poll::Exited(what))] + rest;
    let b = before + seq![(role, pid, Poll::Unknown(what))] + rest;
    if before.len() == 0 {
        assert(a[0] == (role, pid, Poll::Exited(what)));
        assert(b[0] == (role, pid, Poll::Unknown(what)));
    } else {
        let fewer = before.drop_first();
        assert(a[0] == before[0] && b[0] == before[0]);
        assert(a.drop_first() =~= fewer + seq![(role, pid, Poll::Exited(what))] + rest);
        assert(b.drop_first() =~= fewer + seq![(role, pid, Poll::Unknown(what))] + rest);
        assert forall|i: int| 0 <= i < fewer.len() implies (#[trigger] fewer[i]).2 is Running by {
            assert(fewer[i] == before[i + 1]);
        }
        law_the_first_exit_decides(fewer, role, pid, what, rest);
    }
}

/// Waiting for a socket ends when it answers, when the service is gone, or with
/// the last attempt; until then it is tried again.
pub proof fn law_waiting_ends(
    name: Seq<char>,
    socket: Seq<char>,
    attempt: u32,
    what: Seq<char>,
)
    ensures
        waited(name, socket, attempt, Tried::Connected) == Some(Ok::<(), Seq<char>>(())),
        waited(name, socket, attempt, Tried::Closed(Poll::Exited(what))) == Some(
            Err::<(), _>(name + " exited before socket "@ + socket + " (status "@ + what + ")"@),
        ),
        waited(name, socket, attempt, Tried::Closed(Poll::Unknown(what))) == Some(
            Err::<(), _>(name + " try_wait: "@ + what),
        ),
        attempt < 80 ==> waited(name, socket, attempt, Tried::Closed(Poll::Running)) is None,
        attempt >= 80 ==> waited(name, socket, attempt, Tried::Closed(Poll::Running)) == Some(
            Err::<(), _>("timed out waiting for "@ + socket),
        ),
        role_name(Role::Pipewire) == "pipewire"@,
        role_name(Role::Wireplumber) == "wireplumber"@,
        role_name(Role::Sink) == "aaudio-sink"@,
        role_name(Role::Pulse) == "pipewire-pulse"@,
{
}

} // verus!
