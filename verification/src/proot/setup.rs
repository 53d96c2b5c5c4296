//! The setup of the guest: which stage runs when, and what the user is told.

use vstd::prelude::*;

use crate::numbers::{dec, to_dec};

verus! {

/// What the user is told during the setup.
#[derive(Debug)]
pub enum SetupMessage {
    Progress(String),
    Error(String),
}

/// A message over the view of its text.
pub enum MessageView {
    Progress(Seq<char>),
    Error(Seq<char>),
}

impl View for SetupMessage {
    type V = MessageView;

    open spec fn view(&self) -> MessageView {
        match self {
            SetupMessage::Progress(s) => MessageView::Progress(s@),
            SetupMessage::Error(s) => MessageView::Error(s@),
        }
    }
}

// ---------------------------------------------------------------------------
// The root file system
// ---------------------------------------------------------------------------

/// How far a download is, in percent; none where its size is not known.
pub open spec fn percent(downloaded: nat, total: nat) -> Option<nat> {
    if total == 0 {
        None
    } else if downloaded * 100 / total > 100 {
        Some(100)
    } else {
        Some(downloaded * 100 / total)
    }
}

/// The percentage to report, where it has changed since the last report.
pub fn download_percent(downloaded: u64, total: u64, last: u8) -> (r: Option<u8>)
    requires
        downloaded * 100 <= u64::MAX,
    ensures
        match percent(downloaded as nat, total as nat) {
            Some(p) => if p == last {
                r is None
            } else {
                r == Some(p as u8)
            },
            None => r is None,
        },
{
    if total == 0 {
        return None;
    }
    let p: u64 = downloaded * 100 / total;
    let p: u64 = if p > 100 {
        100
    } else {
        p
    };
    if p as u8 == last {
        None
    } else {
        Some(p as u8)
    }
}

/// What is said of a download. The sizes are given in megabytes, as they are shown.
pub fn download_message(percent: u8, downloaded_mb: &str, total_mb: &str) -> (r: SetupMessage)
    ensures
        r@ == MessageView::Progress(
            "Downloading Arch Linux FS... "@ + dec(percent as nat) + "% ("@ + downloaded_mb@
                + " MB / "@ + total_mb@ + " MB)"@,
        ),
{
    let n = to_dec(percent as u64);
    let mut s = "Downloading Arch Linux FS... ".to_owned();
    s.append(n.as_str());
    s.append("% (");
    s.append(downloaded_mb);
    s.append(" MB / ");
    s.append(total_mb);
    s.append(" MB)");
    SetupMessage::Progress(s)
}

/// Where the setup of the root file system is.
#[derive(Clone, Copy, PartialEq, Eq, Structural)]
pub enum FsPhase {
    Looking,
    Downloading,
    Extracting,
    Over,
}

/// What the caller found.
pub enum FsReport<S> {
    /// Whether the archive is there.
    Archive(bool),
    /// The archive is downloaded.
    Downloaded,
    /// The archive is unpacked, or is not.
    Extracted(Result<(), S>),
}

/// What the caller does next.
#[derive(Clone, Copy, PartialEq, Eq, Structural)]
pub enum FsAction {
    /// Remove what was unpacked and the archive, and look whether it is there.
    Discard,
    /// Download the archive.
    Download,
    /// Remove what an earlier attempt unpacked, and unpack the archive.
    Extract,
    /// Move what was unpacked to its place, and remove the archive.
    Install,
}

impl FsReport<String> {
    /// What was found over the view of its text.
    pub open spec fn seen(self) -> FsReport<Seq<char>> {
        match self {
            FsReport::Archive(b) => FsReport::Archive(b),
            FsReport::Downloaded => FsReport::Downloaded,
            FsReport::Extracted(Ok(())) => FsReport::Extracted(Ok(())),
            FsReport::Extracted(Err(e)) => FsReport::Extracted(Err(e@)),
        }
    }
}

/// What a phase waits for.
pub open spec fn fs_expects<S>(phase: FsPhase, report: FsReport<S>) -> bool {
    match phase {
        FsPhase::Looking => report is Archive,
        FsPhase::Downloading => report is Downloaded,
        FsPhase::Extracting => report is Extracted,
        FsPhase::Over => false,
    }
}

/// What is said when the archive is unpacked.
pub open spec fn extracting() -> MessageView {
    MessageView::Progress("Extracting Arch Linux FS..."@)
}

/// The next phase, what the caller does, and what the user is told. The user is
/// told before the caller does it, but for an archive that cannot be unpacked:
/// it is removed first, then the user is told, and it is downloaded again.
pub open spec fn fs_stepped(report: FsReport<Seq<char>>) -> (
    FsPhase,
    FsAction,
    Option<MessageView>,
) {
    match report {
        FsReport::Archive(false) => (
            FsPhase::Downloading,
            FsAction::Download,
            Some(MessageView::Progress("Downloading Arch Linux FS..."@)),
        ),
        FsReport::Archive(true) | FsReport::Downloaded => (
            FsPhase::Extracting,
            FsAction::Extract,
            Some(extracting()),
        ),
        FsReport::Extracted(Ok(())) => (FsPhase::Over, FsAction::Install, None),
        FsReport::Extracted(Err(e)) => (
            FsPhase::Looking,
            FsAction::Discard,
            Some(
                MessageView::Error(
                    "Failed to extract Arch Linux FS: "@ + e + ". Restarting download..."@,
                ),
            ),
        ),
    }
}

/// The view of an optional message.
pub open spec fn opt_message(m: Option<SetupMessage>) -> Option<MessageView> {
    match m {
        Some(m) => Some(m@),
        None => None,
    }
}

/// Takes up what the caller found. It begins by looking whether the archive is there.
pub fn setup_arch_fs(phase: FsPhase, report: FsReport<String>) -> (r: (
    FsPhase,
    FsAction,
    Option<SetupMessage>,
))
    requires
        fs_expects(phase, report),
    ensures
        (r.0, r.1, opt_message(r.2)) == fs_stepped(report.seen()),
{
    match report {
        FsReport::Archive(false) => {
            let m = SetupMessage::Progress("Downloading Arch Linux FS...".to_owned());
            (FsPhase::Downloading, FsAction::Download, Some(m))
        },
        FsReport::Archive(true) | FsReport::Downloaded => {
            let m = SetupMessage::Progress("Extracting Arch Linux FS...".to_owned());
            (FsPhase::Extracting, FsAction::Extract, Some(m))
        },
        FsReport::Extracted(Ok(())) => (FsPhase::Over, FsAction::Install, None),
        FsReport::Extracted(Err(e)) => {
            let mut s = "Failed to extract Arch Linux FS: ".to_owned();
            s.append(e.as_str());
            s.append(". Restarting download...");
            (FsPhase::Looking, FsAction::Discard, Some(SetupMessage::Error(s)))
        },
    }
}

// ---------------------------------------------------------------------------
// The packages
// ---------------------------------------------------------------------------

/// How often the packages are tried to be installed.
pub const MAX_INSTALL_ATTEMPTS: u32 = 10;

/// What comes of an attempt to install the packages.
pub enum InstallStep {
    /// They are installed.
    Installed,
    /// They are not: this is said, and the next attempt made.
    Retry(SetupMessage),
    /// They are not, and no attempt is left: this is said, and the stage fails
    /// with the second text.
    GiveUp(SetupMessage, SetupMessage),
}

/// What is said of an attempt that failed.
pub open spec fn retry_message(attempt: nat) -> Seq<char> {
    "Retrying installation... (attempt "@ + dec(attempt) + "/"@ + dec(10) + ")"@
}

/// What is said when no attempt is left.
pub open spec fn give_up_message() -> Seq<char> {
    "Failed to install desktop dependencies after "@ + dec(10)
        + " attempts. Please check your net connection and try restarting the app."@
}

/// Takes up attempt number `attempt`, counted from one.
pub fn install_attempt(attempt: u32, installed: bool) -> (r: InstallStep)
    requires
        1 <= attempt <= MAX_INSTALL_ATTEMPTS,
    ensures
        if installed {
            r is Installed
        } else if attempt < MAX_INSTALL_ATTEMPTS {
            r is Retry && r->Retry_0@ == MessageView::Progress(retry_message(attempt as nat))
        } else {
            r is GiveUp && r->GiveUp_0@ == MessageView::Progress(retry_message(attempt as nat))
                && r->GiveUp_1@ == MessageView::Error(give_up_message())
        },
{
    if installed {
        return InstallStep::Installed;
    }
    let max = to_dec(MAX_INSTALL_ATTEMPTS as u64);
    let n = to_dec(attempt as u64);
    let mut s = "Retrying installation... (attempt ".to_owned();
    s.append(n.as_str());
    s.append("/");
    s.append(max.as_str());
    s.append(")");
    if attempt < MAX_INSTALL_ATTEMPTS {
        InstallStep::Retry(SetupMessage::Progress(s))
    } else {
        let mut e = "Failed to install desktop dependencies after ".to_owned();
        e.append(max.as_str());
        e.append(" attempts. Please check your net connection and try restarting the app.");
        InstallStep::GiveUp(SetupMessage::Progress(s), SetupMessage::Error(e))
    }
}

// ---------------------------------------------------------------------------
// The stages
// ---------------------------------------------------------------------------

/// A stage of the setup.
#[derive(Clone, Copy, PartialEq, Eq, Structural)]
pub enum Stage {
    ArchFs,
    SystemData,
    Dependencies,
    MachineId,
    PackageLock,
    Firefox,
    Bwrap,
    Chromium,
    Onboard,
    Xfce,
    Xkb,
}

/// How many stages there are.
pub const STAGES: usize = 11;

/// The stages, in the order in which they run.
pub open spec fn stages() -> Seq<Stage> {
    seq![
        Stage::ArchFs,
        Stage::SystemData,
        Stage::Dependencies,
        Stage::MachineId,
        Stage::PackageLock,
        Stage::Firefox,
        Stage::Bwrap,
        Stage::Chromium,
        Stage::Onboard,
        Stage::Xfce,
        Stage::Xkb,
    ]
}

/// Gives the stage with this number.
pub fn stage_at(i: usize) -> (r: Stage)
    requires
        i < STAGES,
    ensures
        r == stages()[i as int],
{
    if i == 0 {
        Stage::ArchFs
    } else if i == 1 {
        Stage::SystemData
    } else if i == 2 {
        Stage::Dependencies
    } else if i == 3 {
        Stage::MachineId
    } else if i == 4 {
        Stage::PackageLock
    } else if i == 5 {
        Stage::Firefox
    } else if i == 6 {
        Stage::Bwrap
    } else if i == 7 {
        Stage::Chromium
    } else if i == 8 {
        Stage::Onboard
    } else if i == 9 {
        Stage::Xfce
    } else {
        Stage::Xkb
    }
}

/// Where the setup is.
#[derive(Clone, Copy, PartialEq, Eq, Structural)]
pub enum SetupPhase {
    /// It asks whether the device is supported.
    Asking,
    /// A stage runs.
    Running(usize),
    /// What a stage has begun is waited for.
    Joining(usize),
    Over,
}

/// A setup under way.
#[derive(Clone, Copy, PartialEq, Eq, Structural)]
pub struct Setup {
    pub phase: SetupPhase,
    /// Whether some stage had work to do, so that the user waits for it.
    pub waiting: bool,
    /// How far the setup is, in percent.
    pub progress: u16,
}

/// What the caller found.
pub enum SetupReport<S> {
    /// Whether the device is supported.
    Supported(bool),
    /// A stage is done, or has begun work that has to be waited for.
    Stage { working: bool },
    /// The work of a stage is done, or failed, with a text if it gave one.
    Joined(Result<(), Option<S>>),
}

impl SetupReport<String> {
    /// What was found over the view of its text.
    pub open spec fn seen(self) -> SetupReport<Seq<char>> {
        match self {
            SetupReport::Supported(b) => SetupReport::Supported(b),
            SetupReport::Stage { working } => SetupReport::Stage { working },
            SetupReport::Joined(Ok(())) => SetupReport::Joined(Ok(())),
            SetupReport::Joined(Err(Some(e))) => SetupReport::Joined(Err(Some(e@))),
            SetupReport::Joined(Err(None)) => SetupReport::Joined(Err(None)),
        }
    }
}

/// What the caller does next.
pub enum SetupAction {
    /// Show that the device is not supported.
    ShowUnsupported,
    /// Tell the user this, if there is something, and run a stage.
    Run(Stage, Option<SetupMessage>),
    /// Wait for what the stage has begun. The first time the user is shown the
    /// progress, and the rest of the setup goes on in the background.
    Wait { first: bool },
    /// Tell the user this; the setup has failed.
    Fail(SetupMessage),
    /// Everything was done before: start the desktop.
    StartDesktop,
    /// Tell the user this; the setup is done.
    Finish(SetupMessage),
}

/// An action over views.
pub enum SetupActionView {
    ShowUnsupported,
    Run(Stage, Option<MessageView>),
    Wait { first: bool },
    Fail(MessageView),
    StartDesktop,
    Finish(MessageView),
}

impl SetupAction {
    /// The action over views.
    pub open spec fn seen(self) -> SetupActionView {
        match self {
            SetupAction::ShowUnsupported => SetupActionView::ShowUnsupported,
            SetupAction::Run(s, m) => SetupActionView::Run(s, opt_message(m)),
            SetupAction::Wait { first } => SetupActionView::Wait { first },
            SetupAction::Fail(m) => SetupActionView::Fail(m@),
            SetupAction::StartDesktop => SetupActionView::StartDesktop,
            SetupAction::Finish(m) => SetupActionView::Finish(m@),
        }
    }
}

/// How far the setup is when stage `i` begins, in percent.
pub open spec fn stage_progress(i: int) -> u16 {
    (i * 100 / 11) as u16
}

/// What a phase waits for.
pub open spec fn setup_expects<S>(phase: SetupPhase, report: SetupReport<S>) -> bool {
    match phase {
        SetupPhase::Asking => report is Supported,
        SetupPhase::Running(_) => report is Stage,
        SetupPhase::Joining(_) => report is Joined,
        SetupPhase::Over => false,
    }
}

/// The stages before `i` are done: what comes next.
pub open spec fn advanced(s: Setup, i: int) -> (Setup, SetupActionView) {
    if i < 11 {
        (
            Setup {
                phase: SetupPhase::Running(i as usize),
                progress: if s.waiting {
                    stage_progress(i)
                } else {
                    s.progress
                },
                ..s
            },
            SetupActionView::Run(stages()[i], None),
        )
    } else if s.waiting {
        (
            Setup { phase: SetupPhase::Over, progress: 100, ..s },
            SetupActionView::Finish(
                MessageView::Progress("Installation finished, please restart the app"@),
            ),
        )
    } else {
        (Setup { phase: SetupPhase::Over, ..s }, SetupActionView::StartDesktop)
    }
}

/// What is said of a stage that failed.
pub open spec fn failure_message(e: Option<Seq<char>>) -> Seq<char> {
    match e {
        Some(e) => "Stage execution failed: "@ + e,
        None => "Stage execution failed: Unknown error"@,
    }
}

/// Where the setup is after what the caller found, and what it does next.
pub open spec fn setup_stepped(s: Setup, report: SetupReport<Seq<char>>) -> (
    Setup,
    SetupActionView,
) {
    match report {
        SetupReport::Supported(false) => (
            Setup { phase: SetupPhase::Over, ..s },
            SetupActionView::ShowUnsupported,
        ),
        SetupReport::Supported(true) => (
            Setup { phase: SetupPhase::Running(0), ..s },
            SetupActionView::Run(
                stages()[0],
                Some(MessageView::Progress("✅ Your device is supported!"@)),
            ),
        ),
        SetupReport::Stage { working: true } => (
            Setup {
                phase: SetupPhase::Joining(s.phase->Running_0),
                waiting: true,
                progress: stage_progress(s.phase->Running_0 as int),
            },
            SetupActionView::Wait { first: !s.waiting },
        ),
        SetupReport::Stage { working: false } => advanced(s, s.phase->Running_0 + 1),
        SetupReport::Joined(Ok(())) => advanced(s, s.phase->Joining_0 + 1),
        SetupReport::Joined(Err(e)) => (
            Setup { phase: SetupPhase::Over, ..s },
            SetupActionView::Fail(MessageView::Error(failure_message(e))),
        ),
    }
}

/// What every setup keeps.
pub open spec fn setup_wf(s: Setup) -> bool {
    &&& s.progress <= 100
    &&& !s.waiting ==> s.progress == 0
    &&& match s.phase {
        SetupPhase::Asking => !s.waiting,
        SetupPhase::Running(i) => i < 11 && (s.waiting ==> s.progress == stage_progress(i as int)),
        SetupPhase::Joining(i) => i < 11 && s.waiting && s.progress == stage_progress(i as int),
        SetupPhase::Over => true,
    }
}

impl Setup {
    /// A setup that has not begun.
    pub fn new() -> (r: Setup)
        ensures
            setup_wf(r),
            r == (Setup { phase: SetupPhase::Asking, waiting: false, progress: 0 }),
    {
        Setup { phase: SetupPhase::Asking, waiting: false, progress: 0 }
    }

    /// Goes on behind the stages before `i`.
    fn advance(&mut self, i: usize) -> (a: SetupAction)
        requires
            i <= 11,
        ensures
            (*final(self), a.seen()) == advanced(*old(self), i as int),
    {
        if i < STAGES {
            self.phase = SetupPhase::Running(i);
            if self.waiting {
                self.progress = (i * 100 / STAGES) as u16;
            }
            SetupAction::Run(stage_at(i), None)
        } else if self.waiting {
            self.phase = SetupPhase::Over;
            self.progress = 100;
            SetupAction::Finish(
                SetupMessage::Progress("Installation finished, please restart the app".to_owned()),
            )
        } else {
            self.phase = SetupPhase::Over;
            SetupAction::StartDesktop
        }
    }

    /// Takes up what the caller found, and says what it does next.
    pub fn step(&mut self, report: SetupReport<String>) -> (a: SetupAction)
        requires
            setup_wf(*old(self)),
            setup_expects(old(self).phase, report),
        ensures
            (*final(self), a.seen()) == setup_stepped(*old(self), report.seen()),
            setup_wf(*final(self)),
    {
        match report {
            SetupReport::Supported(supported) => {
                if supported {
                    self.phase = SetupPhase::Running(0);
                    let m = SetupMessage::Progress("✅ Your device is supported!".to_owned());
                    SetupAction::Run(stage_at(0), Some(m))
                } else {
                    self.phase = SetupPhase::Over;
                    SetupAction::ShowUnsupported
                }
            },
            SetupReport::Stage { working } => {
                let i: usize = match self.phase {
                    SetupPhase::Running(i) => i,
                    _ => 0,
                };
                if working {
                    let first: bool = !self.waiting;
                    self.phase = SetupPhase::Joining(i);
                    self.waiting = true;
                    self.progress = (i * 100 / STAGES) as u16;
                    SetupAction::Wait { first }
                } else {
                    self.advance(i + 1)
                }
            },
            SetupReport::Joined(Ok(())) => {
                let i: usize = match self.phase {
                    SetupPhase::Joining(i) => i,
                    _ => 0,
                };
                self.advance(i + 1)
            },
            SetupReport::Joined(Err(e)) => {
                self.phase = SetupPhase::Over;
                let text: String = match e {
                    Some(e) => {
                        let mut s = "Stage execution failed: ".to_owned();
                        s.append(e.as_str());
                        s
                    },
                    None => "Stage execution failed: Unknown error".to_owned(),
                };
                SetupAction::Fail(SetupMessage::Error(text))
            },
        }
    }
}

// ---------------------------------------------------------------------------
// What holds of every setup
// ---------------------------------------------------------------------------

/// The progress never falls, and stays within a hundred percent.
pub proof fn law_progress_never_falls(s: Setup, report: SetupReport<Seq<char>>)
    requires
        setup_wf(s),
        setup_expects(s.phase, report),
    ensures
        s.progress <= setup_stepped(s, report).0.progress <= 100,
        setup_wf(setup_stepped(s, report).0),
{
}

/// How many stages a setup has done.
pub open spec fn stages_done(s: Setup) -> int {
    match s.phase {
        SetupPhase::Asking => 0,
        SetupPhase::Running(i) => i as int,
        SetupPhase::Joining(i) => i as int,
        SetupPhase::Over => 11,
    }
}

/// Every stage runs, in order, and none is left out: a stage that is run is the
/// first that is not done, and the desktop is started, or the setup said to be
/// finished, only behind the last one.
pub proof fn law_stages_run_in_order(s: Setup, report: SetupReport<Seq<char>>)
    requires
        setup_wf(s),
        setup_expects(s.phase, report),
    ensures
        ({
            let (t, a) = setup_stepped(s, report);
            &&& a matches SetupActionView::Run(stage, _) ==> t.phase matches SetupPhase::Running(i)
                && stage == stages()[i as int] && (i == stages_done(s) + 1 || (i == 0
                && s.phase is Asking))
            &&& a is StartDesktop || a is Finish ==> stages_done(s) == 10
        }),
{
}

/// The desktop is started at once only where no stage had work to do; otherwise
/// the user is told to restart the app.
pub proof fn law_the_desktop_starts_when_nothing_was_due(s: Setup, report: SetupReport<Seq<char>>)
    requires
        setup_wf(s),
        setup_expects(s.phase, report),
    ensures
        setup_stepped(s, report).1 is StartDesktop ==> !s.waiting && !setup_stepped(
            s,
            report,
        ).0.waiting,
        setup_stepped(s, report).1 is Finish ==> s.waiting,
        report matches SetupReport::Stage { working: true } ==> setup_stepped(s, report).0.waiting,
        s.waiting ==> setup_stepped(s, report).0.waiting,
{
}

/// What is downloaded is at most all of it, and more of it is never less.
pub proof fn law_percent_is_bounded_and_rises(a: nat, b: nat, total: nat)
    requires
        total > 0,
        a <= b,
    ensures
        percent(a, total) matches Some(p) && percent(b, total) matches Some(q) && p <= q <= 100,
        percent(total, total) == Some(100nat),
{
    vstd::arithmetic::div_mod::lemma_div_is_ordered(
        (a * 100) as int,
        (b * 100) as int,
        total as int,
    );
    vstd::arithmetic::div_mod::lemma_div_multiples_vanish(100, total as int);
    assert(total * 100 == total as int * 100);
}

/// The stages of the setup: the root file system first, then what the system is
/// made to look like, then the packages, and only then what configures them.
pub proof fn law_stages_build_on_one_another()
    ensures
        stages() == seq![
            Stage::ArchFs,
            Stage::SystemData,
            Stage::Dependencies,
            Stage::MachineId,
            Stage::PackageLock,
            Stage::Firefox,
            Stage::Bwrap,
            Stage::Chromium,
            Stage::Onboard,
            Stage::Xfce,
            Stage::Xkb,
        ],
        stages().no_duplicates(),
        forall|s: Stage| #[trigger] stages().contains(s),
{
    let all = stages();
    assert forall|s: Stage| #[trigger] all.contains(s) by {
        let i: int = match s {
            Stage::ArchFs => 0,
            Stage::SystemData => 1,
            Stage::Dependencies => 2,
            Stage::MachineId => 3,
            Stage::PackageLock => 4,
            Stage::Firefox => 5,
            Stage::Bwrap => 6,
            Stage::Chromium => 7,
            Stage::Onboard => 8,
            Stage::Xfce => 9,
            Stage::Xkb => 10,
        };
        assert(all[i] == s);
    }
}

/// A device that is not supported is told so, and no stage runs. On any other
/// the first stage runs. A stage that is done, or whose work is, is followed by
/// the next one; a stage that has begun work is waited for; one whose work fails
/// ends the setup, and the user is told why.
pub proof fn law_a_setup_goes_stage_by_stage(s: Setup, i: usize, why: Seq<char>)
    requires
        i < 11,
    ensures
        ({
            let running = Setup { phase: SetupPhase::Running(i), ..s };
            let joining = Setup { phase: SetupPhase::Joining(i), ..s };
            let asked = Setup { phase: SetupPhase::Asking, ..s };
            let no = setup_stepped(asked, SetupReport::Supported(false));
            let yes = setup_stepped(asked, SetupReport::Supported(true));
            let done = setup_stepped(running, SetupReport::Stage { working: false });
            let work = setup_stepped(running, SetupReport::Stage { working: true });
            let ok = setup_stepped(joining, SetupReport::Joined(Ok(())));
            let bad = setup_stepped(joining, SetupReport::Joined(Err(Some(why))));
            let worse = setup_stepped(joining, SetupReport::Joined(Err(None)));
            &&& no.0.phase is Over && no.1 is ShowUnsupported
            &&& yes.0.phase == SetupPhase::Running(0) && yes.1 == SetupActionView::Run(
                Stage::ArchFs,
                Some(MessageView::Progress("✅ Your device is supported!"@)),
            )
            &&& work.0.phase == SetupPhase::Joining(i) && work.0.waiting && work.1
                == (SetupActionView::Wait { first: !s.waiting })
            &&& 11 * work.0.progress <= 100 * i < 11 * (work.0.progress + 1)
            &&& i < 10 ==> {
                &&& done.0.phase == SetupPhase::Running((i + 1) as usize)
                &&& done.1 == SetupActionView::Run(stages()[i + 1], None)
                &&& done.0.waiting == s.waiting
                &&& s.waiting ==> 11 * done.0.progress <= 100 * (i + 1) < 11 * (done.0.progress
                    + 1)
                &&& (ok.0.phase, ok.0.waiting, ok.0.progress, ok.1) == (
                    done.0.phase,
                    done.0.waiting,
                    done.0.progress,
                    done.1,
                )
            }
            &&& i == 10 && s.waiting ==> {
                &&& done == ok && done.0.phase is Over && done.0.progress == 100
                &&& done.1 == SetupActionView::Finish(
                    MessageView::Progress("Installation finished, please restart the app"@),
                )
            }
            &&& i == 10 && !s.waiting ==> done.0.phase is Over && done.1 is StartDesktop
            &&& bad.0.phase is Over && bad.1 == SetupActionView::Fail(
                MessageView::Error("Stage execution failed: "@ + why),
            )
            &&& worse.0.phase is Over && worse.1 == SetupActionView::Fail(
                MessageView::Error("Stage execution failed: Unknown error"@),
            )
            &&& bad.0.progress == s.progress && bad.0.waiting == s.waiting
        }),
{
}

/// An archive that is there is unpacked and not downloaded again. One that was
/// downloaded is unpacked. One that was unpacked is put into its place. One that
/// cannot be unpacked is discarded, and all begins anew; the user is told why.
pub proof fn law_a_broken_archive_is_downloaded_again(why: Seq<char>)
    ensures
        fs_stepped(FsReport::Archive(true)) == (
            FsPhase::Extracting,
            FsAction::Extract,
            Some(MessageView::Progress("Extracting Arch Linux FS..."@)),
        ),
        fs_stepped(FsReport::Archive(false)) == (
            FsPhase::Downloading,
            FsAction::Download,
            Some(MessageView::Progress("Downloading Arch Linux FS..."@)),
        ),
        fs_stepped(FsReport::Downloaded) == fs_stepped(FsReport::Archive(true)),
        fs_stepped(FsReport::Extracted(Ok(()))) == (
            FsPhase::Over,
            FsAction::Install,
            None::<MessageView>,
        ),
        fs_stepped(FsReport::Extracted(Err(why))) == (
            FsPhase::Looking,
            FsAction::Discard,
            Some(
                MessageView::Error(
                    "Failed to extract Arch Linux FS: "@ + why + ". Restarting download..."@,
                ),
            ),
        ),
{
}

/// The percentage of a download is what there is of it, rounded down.
pub proof fn law_percent_is_rounded_down(downloaded: nat, total: nat)
    requires
        total > 0,
        downloaded <= total,
    ensures
        percent(downloaded, total) matches Some(p) && p * total <= downloaded * 100 < (p + 1)
            * total,
        percent(downloaded, 0) is None,
{
    let d = downloaded as int * 100;
    let t = total as int;
    vstd::arithmetic::div_mod::lemma_fundamental_div_mod(d, t);
    vstd::arithmetic::div_mod::lemma_mod_bound(d, t);
    let p = d / t;
    assert(p * t <= d < (p + 1) * t) by (nonlinear_arith)
        requires
            d == t * p + d % t,
            0 <= d % t < t,
    ;
    assert(p <= 100) by (nonlinear_arith)
        requires
            p * t <= d,
            d <= 100 * t,
            t > 0,
    ;
    assert(downloaded * 100 / total == p);
}

/// Each failed attempt is counted out of ten, and the tenth is the last: then the
/// user is told to look after the connection.
pub proof fn law_failed_attempts_are_counted(n: nat)
    ensures
        retry_message(n) == "Retrying installation... (attempt "@ + dec(n) + "/"@ + seq!['1', '0']
            + ")"@,
        give_up_message() == "Failed to install desktop dependencies after "@ + seq!['1', '0']
            + " attempts. Please check your net connection and try restarting the app."@,
        MAX_INSTALL_ATTEMPTS == 10,
{
    reveal_with_fuel(dec, 3);
    assert(dec(10) =~= seq!['1', '0']);
}

} // verus!
