//! The files that the setup of the guest writes.
//!
//! Each function lists what has to be done, in order; its caller does it.

use vstd::prelude::*;

use crate::numbers::{dec_int, to_dec_int};
use crate::paths::{join_path, path_join};
use crate::proot::kv::{upsert_kv, upserted};
use crate::text::{pairs, same};

verus! {

/// Makes Firefox read the configuration of the app.
pub const FIREFOX_AUTOCONFIG: &'static str = r#"pref("general.config.filename", "localdesktop.cfg");
pref("general.config.obscure_value", 0);
pref("general.config.sandbox_enabled", false);
"#;

/// The configuration of Firefox. Its first line has to be a comment.
pub const FIREFOX_CONFIG: &'static str = r#"// Auto updated by Local Desktop on each startup, do not edit manually
defaultPref("media.cubeb.sandbox", false);
defaultPref("security.sandbox.content.level", 0);
defaultPref("media.allow-audio-non-utility", true);
defaultPref("media.rdd-process.enabled", false);

try {
  var { SandboxUtils } = ChromeUtils.importESModule("resource://gre/modules/SandboxUtils.sys.mjs");
  SandboxUtils.maybeWarnAboutDisabledContentSandbox = () => {};
  SandboxUtils.observeContentSandboxPref = () => {};
} catch (_) {}
"#;

/// Stands in for Bubblewrap, which needs user namespaces that Android denies: it
/// strips the flags and runs the program.
pub const BWRAP_SHIM: &'static str = r#"#!/bin/sh
# bwrap shim for proot/Android: namespaces are unavailable, exec directly.
# Strips all bwrap sandbox/namespace/bind flags, then exec's the target binary.
while [ $# -gt 0 ]; do
    case "$1" in
        # Three-argument flags (flag + src/key + dest/value)
        --ro-bind|--bind|--dev-bind|--bind-try|--ro-bind-try|--dev-bind-try|\
        --file|--bind-data|--ro-bind-data|--symlink|\
        --setenv|--chmod) shift 3 ;;
        # Two-argument flags (flag + single arg)
        --tmpfs|--proc|--dir|\
        --unsetenv|--perms|--cap-add|--cap-drop|\
        --seccomp|--add-seccomp-fd|--info-fd|--json-status-fd|\
        --block-fd|--userns-block-fd|--userns|--userns2|\
        --pidns|--chdir|--dev|--mqueue) shift 2 ;;
        # Zero-argument flags
        --unshare-all|--unshare-user|--unshare-user-try|--unshare-pid|\
        --unshare-ipc|--unshare-net|--unshare-uts|--unshare-cgroup|\
        --unshare-cgroup-try|--share-net|--remount-ro|\
        --as-pid-1|--die-with-parent|--new-session|--clearenv) shift ;;
        --) shift; break ;;
        *) break ;;
    esac
done
exec "$@"
"#;

/// Shadows the entries of Chromium and Electron apps so that they start without
/// their sandbox.
pub const NO_SANDBOX_ENTRIES: &'static str = r#"#!/bin/sh
target_dir="${XDG_DATA_HOME:-$HOME/.local/share}/applications"
mkdir -p "$target_dir" || exit 0

for src in /usr/share/applications/*.desktop /usr/local/share/applications/*.desktop; do
    [ -f "$src" ] || continue

    prog=$(sed -n 's/^Exec=//p' "$src" | head -n1 | awk '{print $1}')
    [ -n "$prog" ] || continue
    case "$prog" in
        /*) bin="$prog" ;;
        *) bin=$(command -v "$prog" 2>/dev/null) || continue ;;
    esac
    bin=$(readlink -f "$bin" 2>/dev/null)
    [ -n "$bin" ] || continue

    # Every Chromium/Electron build ships the setuid sandbox helper next to its binary,
    # or one level up when the launcher lives in a bin/ subdirectory.
    dir=$(dirname "$bin")
    [ -e "$dir/chrome-sandbox" ] || [ -e "$dir/../chrome-sandbox" ] || continue

    dst="$target_dir/$(basename "$src")"
    # Leave alone anything the user wrote themselves.
    if [ -e "$dst" ] && ! grep -q '^X-LocalDesktop-NoSandbox=' "$dst"; then
        continue
    fi

    awk '
        /^\[Desktop Entry\]/ && !seen { print; print "X-LocalDesktop-NoSandbox=true"; seen = 1; next }
        /^Exec=/ && !/--no-sandbox/ { sub(/^Exec=[^ ]+/, "& --no-sandbox") }
        { print }
    ' "$src" > "$dst"
done
"#;

/// Starts Chromium without its sandbox.
pub const CHROMIUM_WRAPPER: &'static str = r#"#!/bin/sh
[ -x /usr/bin/chromium ] || { echo "chromium is not installed" >&2; exit 127; }
exec /usr/bin/chromium --no-sandbox "$@"
"#;

/// Starts Onboard so that it survives a wakeup socket that cannot be inspected.
pub const ONBOARD_WRAPPER: &'static str = r#"#!/usr/bin/python3
# Onboard wrapper for proot/Android: patches signal.set_wakeup_fd to handle
# OSError (ENOENT) caused by proot's fstat translation on socket file descriptors.
import signal as _signal
_orig_swf = _signal.set_wakeup_fd
def _safe_swf(fd, **kwargs):
    try:
        return _orig_swf(fd, **kwargs)
    except OSError:
        return -1
_signal.set_wakeup_fd = _safe_swf

import runpy, sys
sys.argv[0] = '/usr/sbin/onboard'
runpy.run_path('/usr/sbin/onboard', run_name='__main__')
"#;

/// Switches the agents of the session off.
pub const XFCE_SESSION_XML: &'static str = r#"<?xml version="1.0" encoding="UTF-8"?>

<channel name="xfce4-session" version="1.0">
  <property name="startup" type="empty">
    <property name="ssh-agent" type="empty">
      <property name="enabled" type="bool" value="false"/>
    </property>
    <property name="gpg-agent" type="empty">
      <property name="enabled" type="bool" value="false"/>
    </property>
  </property>
</channel>
"#;

/// The resolution of fonts, up to its value.
pub const XSETTINGS_HEAD: &'static str = r#"<?xml version="1.0" encoding="UTF-8"?>

<channel name="xsettings" version="1.0">
  <property name="Xft" type="empty">
    <property name="DPI" type="int" value=""#;

pub const XSETTINGS_TAIL: &'static str = r#""/>
  </property>
</channel>
"#;

/// Starts the session.
pub const START_XFCE_0: &'static str = r#"#!/bin/sh
export PIPEWIRE_RUNTIME_DIR="#;

pub const START_XFCE_1: &'static str = r#"
export PULSE_SERVER="#;

pub const START_XFCE_2: &'static str = r#"
: "${XDG_RUNTIME_DIR:="#;

pub const START_XFCE_3: &'static str = r#"}"
export XDG_RUNTIME_DIR
# Electron adds --no-sandbox when this is set; Android has no user namespaces for it to use.
export ELECTRON_DISABLE_SANDBOX=1
exec startxfce4 --wayland "$@"
"#;

/// Runs once the session is up.
pub const SESSION_INIT_0: &'static str = r#"#!/bin/sh
for _ in $(seq 1 50); do
    xfconf-query -c xsettings -lv >/dev/null 2>&1 && break
    sleep 0.1
done

xfconf-query -c xsettings -p /Xft/DPI -n -t int -s "#;

pub const SESSION_INIT_1: &'static str = r#" 2>/dev/null || \
xfconf-query -c xsettings -p /Xft/DPI -t int -s "#;

pub const SESSION_INIT_2: &'static str = r#"

/usr/local/bin/localdesktop-no-sandbox-entries
"#;

/// Opens the documentation.
pub const ONLINE_DOCS_0: &'static str = r#"[Desktop Entry]
Version=1.0
Type=Application
Name=Local Desktop - Online Docs
Comment=Open the Local Desktop documentation website
Exec=firefox "#;

pub const ONLINE_DOCS_1: &'static str = r#"
Icon=firefox
Terminal=false
StartupNotify=true
"#;

/// Runs the initialization of the session.
pub const SESSION_INIT_ENTRY: &'static str = r#"[Desktop Entry]
Version=1.0
Type=Application
Name=Local Desktop Xfce Session Init
Comment=Apply HiDPI font scaling and refresh sandbox-free application entries
Exec=/usr/local/bin/localdesktop-xfce-session-init
Terminal=false
OnlyShowIn=XFCE;
X-GNOME-Autostart-enabled=true
"#;

/// Keeps the power manager from starting: the guest has no host power.
pub const POWER_MANAGER_ENTRY: &'static str = r#"[Desktop Entry]
Type=Application
Name=Power Manager
Hidden=true
OnlyShowIn=XFCE;
"#;

/// Keeps the guest's output aligned with the window of the app.
pub const WLROOTS_OUTPUT_0: &'static str = r#"#!/bin/sh
# Keep labwc's wlroots output aligned with the Android host window.
state_file="/tmp/localdesktop-output"
lock_file="/tmp/localdesktop-wlroots-output.pid"
fallback_scale=""#;

pub const WLROOTS_OUTPUT_1: &'static str = r#""

if [ -r "$lock_file" ]; then
    old_pid=$(cat "$lock_file" 2>/dev/null)
    if [ -n "$old_pid" ] && kill -0 "$old_pid" 2>/dev/null; then
        exit 0
    fi
fi
echo "$$" > "$lock_file"
trap 'rm -f "$lock_file"' EXIT INT TERM

first_output() {
    wlr-randr 2>/dev/null | awk 'NF > 0 && $1 !~ /^Modes:/ && $1 !~ /^Current:/ && $1 !~ /^Position:/ && $1 !~ /^Transform:/ && $1 !~ /^Scale:/ { print $1; exit }'
}

read_output_state() {
    target_mode=""
    target_scale="$fallback_scale"
    if [ -r "$state_file" ]; then
        . "$state_file"
        target_mode="${LOCALDESKTOP_OUTPUT_MODE:-}"
        target_scale="${LOCALDESKTOP_OUTPUT_SCALE:-$target_scale}"
    fi
    case "$target_mode" in
        *x*) ;;
        *) return 1 ;;
    esac
    case "$target_scale" in
        ''|*[!0-9]*) target_scale="$fallback_scale" ;;
    esac
}

apply_output() {
    output="$1"
    wlr-randr --output "$output" --custom-mode "${target_mode}@60Hz" --scale "$target_scale" >/dev/null 2>&1 && return 0
    wlr-randr --output "$output" --custom-mode "$target_mode" --scale "$target_scale" >/dev/null 2>&1 && return 0
    wlr-randr --output "$output" --mode "$target_mode" --scale "$target_scale" >/dev/null 2>&1 && return 0
    wlr-randr --output "$output" --scale "$target_scale" >/dev/null 2>&1 && return 0
    return 1
}

last_config=""
while true; do
    if ! read_output_state; then
        sleep 0.2
        continue
    fi
    output=$(first_output)
    if [ -n "$output" ]; then
        config="$output $target_mode $target_scale"
        if [ "$config" != "$last_config" ] && apply_output "$output"; then
            last_config="$config"
        fi
    fi
    sleep 1
done
"#;

/// Lets the compositor reuse the mode of its parent.
pub const LABWC_RC: &'static str = r#"<?xml version="1.0"?>
<labwc_config>
  <core>
    <reuseOutputMode>yes</reuseOutputMode>
  </core>
</labwc_config>
"#;

/// Starts the watch over the output.
pub const LABWC_AUTOSTART: &'static str = r#"#!/bin/sh
/usr/local/bin/localdesktop-wlroots-output >/tmp/localdesktop-wlroots-output.log 2>&1 &
"#;

/// Opens PDF files in a viewer of their own.
pub const MIMEAPPS: &'static str =
    "[Default Applications]\napplication/pdf=org.gnome.Evince.desktop\n";

/// The environment of the compositor.
pub const LABWC_ENVIRONMENT: &'static str =
    "XDG_SESSION_TYPE=wayland\nXDG_CURRENT_DESKTOP=XFCE\n";

// ---------------------------------------------------------------------------
// Steps
// ---------------------------------------------------------------------------

/// What is done to a path.
#[derive(Clone, Copy, PartialEq, Eq, Structural)]
pub enum FileOp {
    /// Make the directory and those above it.
    MakeDir,
    /// Write the text.
    Write,
    /// Write the text, unless the file is there.
    WriteMissing,
    /// Remove the file.
    Remove,
    /// Give the path this mode.
    Mode(u32),
}

/// One step. Where it fails, the setup fails with the message, if there is one.
pub struct FileStep<S> {
    pub op: FileOp,
    pub path: S,
    pub text: S,
    pub fatal: Option<S>,
}

impl FileStep<String> {
    /// The step over the views of its texts.
    pub open spec fn seen(self) -> FileStep<Seq<char>> {
        FileStep {
            op: self.op,
            path: self.path@,
            text: self.text@,
            fatal: crate::text::opt_text(self.fatal),
        }
    }
}

/// The views of steps.
pub open spec fn steps(v: Seq<FileStep<String>>) -> Seq<FileStep<Seq<char>>> {
    Seq::new(v.len(), |i: int| v[i].seen())
}

/// A step that may fail.
pub open spec fn may(op: FileOp, path: Seq<char>, text: Seq<char>) -> FileStep<Seq<char>> {
    FileStep { op, path, text, fatal: None }
}

/// A step that must not fail.
pub open spec fn must(op: FileOp, path: Seq<char>, text: Seq<char>, fatal: Seq<char>) -> FileStep<
    Seq<char>,
> {
    FileStep { op, path, text, fatal: Some(fatal) }
}

/// The steps that write a script into a directory.
pub open spec fn script(dir: Seq<char>, name: Seq<char>, text: Seq<char>) -> Seq<
    FileStep<Seq<char>>,
> {
    seq![
        may(FileOp::MakeDir, dir, ""@),
        must(FileOp::Write, join_path(dir, name), text, "Failed to write executable script"@),
        must(
            FileOp::Mode(0o755),
            join_path(dir, name),
            ""@,
            "Failed to mark executable script"@,
        ),
    ]
}

/// Adds a step that may fail.
fn push_may(v: &mut Vec<FileStep<String>>, op: FileOp, path: String, text: &str)
    ensures
        steps(final(v)@) == steps(old(v)@).push(may(op, path@, text@)),
{
    let ghost was = steps(v@);
    let s = FileStep { op, path, text: text.to_owned(), fatal: None };
    v.push(s);
    assert(steps(v@) =~= was.push(s.seen()));
}

/// Adds a step that must not fail.
fn push_must(v: &mut Vec<FileStep<String>>, op: FileOp, path: String, text: &str, fatal: &str)
    ensures
        steps(final(v)@) == steps(old(v)@).push(must(op, path@, text@, fatal@)),
{
    let ghost was = steps(v@);
    let s = FileStep { op, path, text: text.to_owned(), fatal: Some(fatal.to_owned()) };
    v.push(s);
    assert(steps(v@) =~= was.push(s.seen()));
}

/// Lists the steps that write a script into a directory.
pub fn write_executable(dir: &str, name: &str, text: &str) -> (r: Vec<FileStep<String>>)
    ensures
        steps(r@) == script(dir@, name@, text@),
{
    let mut v: Vec<FileStep<String>> = Vec::new();
    push_may(&mut v, FileOp::MakeDir, dir.to_owned(), "");
    push_must(
        &mut v,
        FileOp::Write,
        path_join(dir, name),
        text,
        "Failed to write executable script",
    );
    push_must(
        &mut v,
        FileOp::Mode(0o755),
        path_join(dir, name),
        "",
        "Failed to mark executable script",
    );
    assert(steps(v@) =~= script(dir@, name@, text@));
    v
}

/// Adds the steps that write a script into a directory.
fn push_script(v: &mut Vec<FileStep<String>>, dir: &str, name: &str, text: &str)
    ensures
        steps(final(v)@) == steps(old(v)@) + script(dir@, name@, text@),
{
    let ghost was = steps(v@);
    let mut more = write_executable(dir, name, text);
    let ghost added = more@;
    v.append(&mut more);
    assert(steps(v@) =~= was + steps(added));
}

/// The home directory of a user in the guest at `root`.
pub open spec fn home_of(root: Seq<char>, username: Seq<char>) -> Seq<char> {
    if username == "root"@ {
        join_path(root, "root"@)
    } else {
        join_path(root, "home/"@ + username)
    }
}

/// Gives the home directory of a user in the guest at `root`.
pub fn chroot_home_dir(root: &str, username: &str) -> (r: String)
    ensures
        r@ == home_of(root@, username@),
{
    if same(username, "root") {
        path_join(root, "root")
    } else {
        let mut rel = "home/".to_owned();
        rel.append(username);
        path_join(root, rel.as_str())
    }
}

/// Gives the place of the user manual on the desktop of a user.
pub fn user_manual_path(root: &str, username: &str) -> (r: String)
    ensures
        r@ == join_path(
            join_path(home_of(root@, username@), "Desktop"@),
            "Local Desktop - User Manual.pdf"@,
        ),
{
    let home = chroot_home_dir(root, username);
    let desktop = path_join(home.as_str(), "Desktop");
    path_join(desktop.as_str(), "Local Desktop - User Manual.pdf")
}

// ---------------------------------------------------------------------------
// System data
// ---------------------------------------------------------------------------

/// What the user is told while the system data are made.
pub const SYSTEM_DATA_MESSAGE: &'static str = "Simulating Linux system data...";

/// The files that stand in for those of the kernel, which the guest cannot read.
pub open spec fn sysdata_files() -> Seq<(Seq<char>, Seq<char>)> {
    seq![
        (
            "proc/.loadavg"@,
            "0.12 0.07 0.02 2/165 765\n"@,
        ),
        (
            "proc/.stat"@,
            "cpu  1957 0 2877 93280 262 342 254 87 0 0\ncpu0 31 0 226 12027 82 10 4 9 0 0\n"@,
        ),
        (
            "proc/.uptime"@,
            "124.08 932.80\n"@,
        ),
        (
            "proc/.version"@,
            "Linux version 6.2.1 (proot@termux) (gcc (GCC) 12.2.1 20230201, GNU ld (GNU Binutils) 2.40) #1 SMP PREEMPT_DYNAMIC Wed, 01 Mar 2023 00:00:00 +0000\n"@,
        ),
        (
            "proc/.vmstat"@,
            "nr_free_pages 1743136\nnr_zone_inactive_anon 179281\nnr_zone_active_anon 7183\n"@,
        ),
        (
            "proc/.sysctl_entry_cap_last_cap"@,
            "40\n"@,
        ),
        (
            "proc/.sysctl_inotify_max_user_watches"@,
            "4096\n"@,
        ),
    ]
}

/// The step that writes one of them.
pub open spec fn sysdata_file(root: Seq<char>, file: (Seq<char>, Seq<char>)) -> FileStep<
    Seq<char>,
> {
    must(
        FileOp::Write,
        join_path(root, file.0),
        file.1,
        "Permission denied while writing to "@ + file.0,
    )
}

/// The steps that make the guest's system data.
pub open spec fn sysdata_steps(root: Seq<char>) -> Seq<FileStep<Seq<char>>> {
    seq![
        may(FileOp::MakeDir, join_path(root, "proc"@), ""@),
        may(FileOp::MakeDir, join_path(root, "sys"@), ""@),
        may(FileOp::MakeDir, join_path(root, "sys/.empty"@), ""@),
        may(FileOp::Mode(0o700), join_path(root, "proc"@), ""@),
        may(FileOp::Mode(0o700), join_path(root, "sys"@), ""@),
        may(FileOp::Mode(0o700), join_path(root, "sys/.empty"@), ""@),
    ] + sysdata_files().map_values(|f: (Seq<char>, Seq<char>)| sysdata_file(root, f))
}

/// Adds the step that writes one file.
fn push_sysdata(v: &mut Vec<FileStep<String>>, root: &str, name: &str, text: &str)
    ensures
        steps(final(v)@) == steps(old(v)@).push(sysdata_file(root@, (name@, text@))),
{
    let mut fatal = "Permission denied while writing to ".to_owned();
    fatal.append(name);
    push_must(v, FileOp::Write, path_join(root, name), text, fatal.as_str());
}

/// Lists the steps that make the guest's system data. They are due while the
/// guest has no `proc/.version`.
pub fn simulate_linux_sysdata_stage(root: &str) -> (r: Vec<FileStep<String>>)
    ensures
        steps(r@) == sysdata_steps(root@),
{
    let mut v: Vec<FileStep<String>> = Vec::new();
    push_may(&mut v, FileOp::MakeDir, path_join(root, "proc"), "");
    push_may(&mut v, FileOp::MakeDir, path_join(root, "sys"), "");
    push_may(&mut v, FileOp::MakeDir, path_join(root, "sys/.empty"), "");
    push_may(&mut v, FileOp::Mode(0o700), path_join(root, "proc"), "");
    push_may(&mut v, FileOp::Mode(0o700), path_join(root, "sys"), "");
    push_may(&mut v, FileOp::Mode(0o700), path_join(root, "sys/.empty"), "");
    push_sysdata(
        &mut v,
        root,
        "proc/.loadavg",
        "0.12 0.07 0.02 2/165 765\n",
    );
    push_sysdata(
        &mut v,
        root,
        "proc/.stat",
        "cpu  1957 0 2877 93280 262 342 254 87 0 0\ncpu0 31 0 226 12027 82 10 4 9 0 0\n",
    );
    push_sysdata(
        &mut v,
        root,
        "proc/.uptime",
        "124.08 932.80\n",
    );
    push_sysdata(
        &mut v,
        root,
        "proc/.version",
        "Linux version 6.2.1 (proot@termux) (gcc (GCC) 12.2.1 20230201, GNU ld (GNU Binutils) 2.40) #1 SMP PREEMPT_DYNAMIC Wed, 01 Mar 2023 00:00:00 +0000\n",
    );
    push_sysdata(
        &mut v,
        root,
        "proc/.vmstat",
        "nr_free_pages 1743136\nnr_zone_inactive_anon 179281\nnr_zone_active_anon 7183\n",
    );
    push_sysdata(
        &mut v,
        root,
        "proc/.sysctl_entry_cap_last_cap",
        "40\n",
    );
    push_sysdata(
        &mut v,
        root,
        "proc/.sysctl_inotify_max_user_watches",
        "4096\n",
    );
    assert(steps(v@) =~= sysdata_steps(root@));
    v
}

// ---------------------------------------------------------------------------
// Programs
// ---------------------------------------------------------------------------

/// The steps that configure Firefox.
pub open spec fn firefox_steps(root: Seq<char>) -> Seq<FileStep<Seq<char>>> {
    let top = root + "/usr/lib/firefox"@;
    let pref = top + "/defaults/pref"@;
    seq![
        must(FileOp::MakeDir, top, ""@, "Failed to create Firefox root directory"@),
        must(FileOp::MakeDir, pref, ""@, "Failed to create Firefox pref directory"@),
        must(
            FileOp::Write,
            pref + "/autoconfig.js"@,
            FIREFOX_AUTOCONFIG@,
            "Failed to write Firefox autoconfig.js"@,
        ),
        must(
            FileOp::Write,
            top + "/localdesktop.cfg"@,
            FIREFOX_CONFIG@,
            "Failed to write Firefox configuration"@,
        ),
    ]
}

/// Two texts, one behind the other.
fn both(a: &str, b: &str) -> (r: String)
    ensures
        r@ == a@ + b@,
{
    let mut r = a.to_owned();
    r.append(b);
    r
}

/// Lists the steps that configure Firefox.
pub fn setup_firefox_config(root: &str) -> (r: Vec<FileStep<String>>)
    ensures
        steps(r@) == firefox_steps(root@),
{
    let top = both(root, "/usr/lib/firefox");
    let pref = both(top.as_str(), "/defaults/pref");
    let mut v: Vec<FileStep<String>> = Vec::new();
    push_must(
        &mut v,
        FileOp::MakeDir,
        top.clone(),
        "",
        "Failed to create Firefox root directory",
    );
    push_must(
        &mut v,
        FileOp::MakeDir,
        pref.clone(),
        "",
        "Failed to create Firefox pref directory",
    );
    push_must(
        &mut v,
        FileOp::Write,
        both(pref.as_str(), "/autoconfig.js"),
        FIREFOX_AUTOCONFIG,
        "Failed to write Firefox autoconfig.js",
    );
    push_must(
        &mut v,
        FileOp::Write,
        both(top.as_str(), "/localdesktop.cfg"),
        FIREFOX_CONFIG,
        "Failed to write Firefox configuration",
    );
    assert(steps(v@) =~= firefox_steps(root@));
    v
}

/// The steps that put a wrapper among the guest's own programs.
pub open spec fn wrapper_steps(
    root: Seq<char>,
    name: Seq<char>,
    text: Seq<char>,
    unwritten: Seq<char>,
    unmarked: Seq<char>,
) -> Seq<FileStep<Seq<char>>> {
    let path = join_path(root, "usr/local/bin/"@ + name);
    seq![
        may(FileOp::MakeDir, join_path(root, "usr/local/bin"@), ""@),
        must(FileOp::Write, path, text, unwritten),
        must(FileOp::Mode(0o755), path, ""@, unmarked),
    ]
}

/// Lists the steps that put a wrapper among the guest's own programs.
fn wrapper(root: &str, name: &str, text: &str, unwritten: &str, unmarked: &str) -> (r: Vec<
    FileStep<String>,
>)
    ensures
        steps(r@) == wrapper_steps(root@, name@, text@, unwritten@, unmarked@),
{
    let rel = both("usr/local/bin/", name);
    let mut v: Vec<FileStep<String>> = Vec::new();
    push_may(&mut v, FileOp::MakeDir, path_join(root, "usr/local/bin"), "");
    push_must(&mut v, FileOp::Write, path_join(root, rel.as_str()), text, unwritten);
    push_must(&mut v, FileOp::Mode(0o755), path_join(root, rel.as_str()), "", unmarked);
    assert(steps(v@) =~= wrapper_steps(root@, name@, text@, unwritten@, unmarked@));
    v
}

/// Lists the steps that put the stand-in for Bubblewrap into the guest.
pub fn setup_fake_bwrap(root: &str) -> (r: Vec<FileStep<String>>)
    ensures
        steps(r@) == wrapper_steps(
            root@,
            "bwrap"@,
            BWRAP_SHIM@,
            "Failed to write bwrap wrapper"@,
            "Failed to mark bwrap wrapper executable"@,
        ),
{
    wrapper(
        root,
        "bwrap",
        BWRAP_SHIM,
        "Failed to write bwrap wrapper",
        "Failed to mark bwrap wrapper executable",
    )
}

/// Lists the steps that put the wrapper of Onboard into the guest.
pub fn setup_onboard_signal_fix(root: &str) -> (r: Vec<FileStep<String>>)
    ensures
        steps(r@) == wrapper_steps(
            root@,
            "onboard"@,
            ONBOARD_WRAPPER@,
            "Failed to write onboard wrapper"@,
            "Failed to mark onboard wrapper executable"@,
        ),
{
    wrapper(
        root,
        "onboard",
        ONBOARD_WRAPPER,
        "Failed to write onboard wrapper",
        "Failed to mark onboard wrapper executable",
    )
}

/// Lists the steps that let Chromium and Electron apps start without a sandbox.
pub fn setup_chromium_no_sandbox(root: &str) -> (r: Vec<FileStep<String>>)
    ensures
        steps(r@) == script(
            join_path(root@, "usr/local/bin"@),
            "localdesktop-no-sandbox-entries"@,
            NO_SANDBOX_ENTRIES@,
        ) + script(join_path(root@, "usr/local/bin"@), "chromium"@, CHROMIUM_WRAPPER@),
{
    let bin = path_join(root, "usr/local/bin");
    let mut v = write_executable(
        bin.as_str(),
        "localdesktop-no-sandbox-entries",
        NO_SANDBOX_ENTRIES,
    );
    push_script(&mut v, bin.as_str(), "chromium", CHROMIUM_WRAPPER);
    v
}

// ---------------------------------------------------------------------------
// The desktop session
// ---------------------------------------------------------------------------

/// What the session of the guest needs to know of the app.
pub struct Guest<S> {
    /// Where the guest lies.
    pub root: S,
    /// The home directory of its user.
    pub home: S,
    /// Where the guest finds the socket of PipeWire.
    pub pipewire_runtime_dir: S,
    /// Where the guest finds the service for clients of PulseAudio.
    pub pulse_server: S,
    /// The address of the documentation.
    pub docs_url: S,
}

impl Guest<String> {
    /// The guest over the views of its texts.
    pub open spec fn seen(self) -> Guest<Seq<char>> {
        Guest {
            root: self.root@,
            home: self.home@,
            pipewire_runtime_dir: self.pipewire_runtime_dir@,
            pulse_server: self.pulse_server@,
            docs_url: self.docs_url@,
        }
    }
}

/// The logical resolution of fonts at a scale.
pub open spec fn xft_dpi_of(ui_scale: int) -> int {
    ui_scale * 96
}

/// The settings file with the resolution of fonts set, given what it holds.
pub fn xresources_update(content: &str, ui_scale: i32) -> (r: String)
    ensures
        r@ == upserted(content@, ':', seq![("Xft.dpi"@, dec_int(xft_dpi_of(ui_scale as int)))]),
{
    let dpi = to_dec_int(ui_scale as i64 * 96);
    let mut updates: Vec<(String, String)> = Vec::new();
    updates.push(("Xft.dpi".to_owned(), dpi));
    assert(pairs(updates@) =~= seq![("Xft.dpi"@, dec_int(xft_dpi_of(ui_scale as int)))]);
    upsert_kv(content, ':', &updates)
}

/// The script that starts the session.
pub open spec fn start_script(g: Guest<Seq<char>>) -> Seq<char> {
    START_XFCE_0@ + g.pipewire_runtime_dir + START_XFCE_1@ + g.pulse_server + START_XFCE_2@
        + g.pipewire_runtime_dir + START_XFCE_3@
}

/// The script that runs once the session is up.
pub open spec fn init_script(xft_dpi: int) -> Seq<char> {
    SESSION_INIT_0@ + dec_int(xft_dpi) + SESSION_INIT_1@ + dec_int(xft_dpi) + SESSION_INIT_2@
}

/// The steps that configure the session itself.
pub open spec fn session_steps(g: Guest<Seq<char>>, ui_scale: int) -> Seq<FileStep<Seq<char>>> {
    let xfconf = join_path(g.home, ".config/xfce4/xfconf/xfce-perchannel-xml"@);
    let bin = join_path(g.root, "usr/local/bin"@);
    seq![
        may(FileOp::MakeDir, xfconf, ""@),
        must(
            FileOp::Write,
            join_path(xfconf, "xfce4-session.xml"@),
            XFCE_SESSION_XML@,
            "Failed to write xfce4-session xfconf defaults"@,
        ),
        must(
            FileOp::Write,
            join_path(xfconf, "xsettings.xml"@),
            XSETTINGS_HEAD@ + dec_int(xft_dpi_of(ui_scale)) + XSETTINGS_TAIL@,
            "Failed to write xsettings xfconf defaults"@,
        ),
    ] + script(bin, "startxfce4-localdesktop"@, start_script(g)) + script(
        bin,
        "localdesktop-xfce-session-init"@,
        init_script(xft_dpi_of(ui_scale)),
    )
}

/// The steps that furnish the desktop. What the user may have changed is
/// written only where it is missing.
pub open spec fn desktop_steps(g: Guest<Seq<char>>) -> Seq<FileStep<Seq<char>>> {
    let desktop = join_path(g.home, "Desktop"@);
    let autostart = join_path(g.home, ".config/autostart"@);
    seq![
        may(FileOp::MakeDir, desktop, ""@),
        may(
            FileOp::WriteMissing,
            join_path(desktop, "localdesktop-online-docs.desktop"@),
            ONLINE_DOCS_0@ + g.docs_url + ONLINE_DOCS_1@,
        ),
        may(FileOp::Remove, join_path(desktop, "localdesktop-documentation.desktop"@), ""@),
        may(FileOp::WriteMissing, join_path(g.home, ".config/mimeapps.list"@), MIMEAPPS@),
        may(FileOp::MakeDir, autostart, ""@),
        must(
            FileOp::Write,
            join_path(autostart, "localdesktop-xfce-session-init.desktop"@),
            SESSION_INIT_ENTRY@,
            "Failed to write Xfce session init autostart entry"@,
        ),
        must(
            FileOp::Write,
            join_path(autostart, "xfce4-power-manager.desktop"@),
            POWER_MANAGER_ENTRY@,
            "Failed to disable xfce4-power-manager autostart"@,
        ),
        may(FileOp::Remove, join_path(autostart, "localdesktop-xfce-scale.desktop"@), ""@),
        may(FileOp::Remove, join_path(autostart, "localdesktop-wlroots-output.desktop"@), ""@),
        may(FileOp::Remove, join_path(g.root, "usr/local/bin/localdesktop-xfce-scale"@), ""@),
    ]
}

/// The steps that configure the compositor of the session.
pub open spec fn labwc_steps(g: Guest<Seq<char>>, ui_scale: int) -> Seq<FileStep<Seq<char>>> {
    let labwc = join_path(g.home, ".config/xfce4/labwc"@);
    script(
        join_path(g.root, "usr/local/bin"@),
        "localdesktop-wlroots-output"@,
        WLROOTS_OUTPUT_0@ + dec_int(ui_scale) + WLROOTS_OUTPUT_1@,
    ) + seq![
        may(FileOp::MakeDir, labwc, ""@),
        must(
            FileOp::Write,
            join_path(labwc, "rc.xml"@),
            LABWC_RC@,
            "Failed to write labwc rc.xml defaults"@,
        ),
    ] + script(labwc, "autostart"@, LABWC_AUTOSTART@) + seq![
        must(
            FileOp::Write,
            join_path(labwc, "environment"@),
            LABWC_ENVIRONMENT@,
            "Failed to write labwc environment file"@,
        ),
        must(
            FileOp::Write,
            join_path(labwc, "lock"@),
            ""@,
            "Failed to write labwc environment lock file"@,
        ),
        may(FileOp::Remove, join_path(g.home, ".config/labwc/autostart"@), ""@),
    ]
}

/// A text between two others.
fn between(a: &str, b: &str, c: &str) -> (r: String)
    ensures
        r@ == a@ + b@ + c@,
{
    let mut r = a.to_owned();
    r.append(b);
    r.append(c);
    r
}

/// Adds the steps that configure the session itself.
fn push_session(v: &mut Vec<FileStep<String>>, g: &Guest<String>, ui_scale: i32)
    ensures
        steps(final(v)@) == steps(old(v)@) + session_steps(g.seen(), ui_scale as int),
{
    let ghost was = steps(v@);
    let xfconf = path_join(g.home.as_str(), ".config/xfce4/xfconf/xfce-perchannel-xml");
    let bin = path_join(g.root.as_str(), "usr/local/bin");
    let dpi = to_dec_int(ui_scale as i64 * 96);
    push_may(v, FileOp::MakeDir, xfconf.clone(), "");
    push_must(
        v,
        FileOp::Write,
        path_join(xfconf.as_str(), "xfce4-session.xml"),
        XFCE_SESSION_XML,
        "Failed to write xfce4-session xfconf defaults",
    );
    let settings = between(XSETTINGS_HEAD, dpi.as_str(), XSETTINGS_TAIL);
    push_must(
        v,
        FileOp::Write,
        path_join(xfconf.as_str(), "xsettings.xml"),
        settings.as_str(),
        "Failed to write xsettings xfconf defaults",
    );
    let ghost head = steps(v@);
    let mut start = START_XFCE_0.to_owned();
    start.append(g.pipewire_runtime_dir.as_str());
    start.append(START_XFCE_1);
    start.append(g.pulse_server.as_str());
    start.append(START_XFCE_2);
    start.append(g.pipewire_runtime_dir.as_str());
    start.append(START_XFCE_3);
    push_script(v, bin.as_str(), "startxfce4-localdesktop", start.as_str());
    let mut init = SESSION_INIT_0.to_owned();
    init.append(dpi.as_str());
    init.append(SESSION_INIT_1);
    init.append(dpi.as_str());
    init.append(SESSION_INIT_2);
    push_script(v, bin.as_str(), "localdesktop-xfce-session-init", init.as_str());
    assert(steps(v@) =~= was + session_steps(g.seen(), ui_scale as int));
}

/// Adds the steps that furnish the desktop.
fn push_desktop(v: &mut Vec<FileStep<String>>, g: &Guest<String>)
    ensures
        steps(final(v)@) == steps(old(v)@) + desktop_steps(g.seen()),
{
    let ghost was = steps(v@);
    let home = g.home.as_str();
    let desktop = path_join(home, "Desktop");
    let autostart = path_join(home, ".config/autostart");
    let docs = between(ONLINE_DOCS_0, g.docs_url.as_str(), ONLINE_DOCS_1);
    push_may(v, FileOp::MakeDir, desktop.clone(), "");
    push_may(
        v,
        FileOp::WriteMissing,
        path_join(desktop.as_str(), "localdesktop-online-docs.desktop"),
        docs.as_str(),
    );
    push_may(
        v,
        FileOp::Remove,
        path_join(desktop.as_str(), "localdesktop-documentation.desktop"),
        "",
    );
    push_may(v, FileOp::WriteMissing, path_join(home, ".config/mimeapps.list"), MIMEAPPS);
    push_may(v, FileOp::MakeDir, autostart.clone(), "");
    push_must(
        v,
        FileOp::Write,
        path_join(autostart.as_str(), "localdesktop-xfce-session-init.desktop"),
        SESSION_INIT_ENTRY,
        "Failed to write Xfce session init autostart entry",
    );
    push_must(
        v,
        FileOp::Write,
        path_join(autostart.as_str(), "xfce4-power-manager.desktop"),
        POWER_MANAGER_ENTRY,
        "Failed to disable xfce4-power-manager autostart",
    );
    push_may(
        v,
        FileOp::Remove,
        path_join(autostart.as_str(), "localdesktop-xfce-scale.desktop"),
        "",
    );
    push_may(
        v,
        FileOp::Remove,
        path_join(autostart.as_str(), "localdesktop-wlroots-output.desktop"),
        "",
    );
    push_may(
        v,
        FileOp::Remove,
        path_join(g.root.as_str(), "usr/local/bin/localdesktop-xfce-scale"),
        "",
    );
    assert(steps(v@) =~= was + desktop_steps(g.seen()));
}

/// Adds the steps that configure the compositor of the session.
fn push_labwc(v: &mut Vec<FileStep<String>>, g: &Guest<String>, ui_scale: i32)
    ensures
        steps(final(v)@) == steps(old(v)@) + labwc_steps(g.seen(), ui_scale as int),
{
    let ghost was = steps(v@);
    let labwc = path_join(g.home.as_str(), ".config/xfce4/labwc");
    let bin = path_join(g.root.as_str(), "usr/local/bin");
    let scale = to_dec_int(ui_scale as i64);
    let watch = between(WLROOTS_OUTPUT_0, scale.as_str(), WLROOTS_OUTPUT_1);
    push_script(v, bin.as_str(), "localdesktop-wlroots-output", watch.as_str());
    push_may(v, FileOp::MakeDir, labwc.clone(), "");
    push_must(
        v,
        FileOp::Write,
        path_join(labwc.as_str(), "rc.xml"),
        LABWC_RC,
        "Failed to write labwc rc.xml defaults",
    );
    push_script(v, labwc.as_str(), "autostart", LABWC_AUTOSTART);
    push_must(
        v,
        FileOp::Write,
        path_join(labwc.as_str(), "environment"),
        LABWC_ENVIRONMENT,
        "Failed to write labwc environment file",
    );
    push_must(
        v,
        FileOp::Write,
        path_join(labwc.as_str(), "lock"),
        "",
        "Failed to write labwc environment lock file",
    );
    push_may(v, FileOp::Remove, path_join(g.home.as_str(), ".config/labwc/autostart"), "");
    assert(steps(v@) =~= was + labwc_steps(g.seen(), ui_scale as int));
}

/// Lists the steps that set the session up, at a scale.
pub fn setup_xfce_wayland(g: &Guest<String>, ui_scale: i32) -> (r: Vec<FileStep<String>>)
    ensures
        steps(r@) == session_steps(g.seen(), ui_scale as int) + desktop_steps(g.seen())
            + labwc_steps(g.seen(), ui_scale as int),
{
    let mut v: Vec<FileStep<String>> = Vec::new();
    assert(steps(v@) =~= seq![]);
    push_session(&mut v, g, ui_scale);
    push_desktop(&mut v, g);
    push_labwc(&mut v, g, ui_scale);
    assert(steps(v@) =~= session_steps(g.seen(), ui_scale as int) + desktop_steps(g.seen())
        + labwc_steps(g.seen(), ui_scale as int));
    v
}

// ---------------------------------------------------------------------------
// Laws
// ---------------------------------------------------------------------------

/// The steps from `i` on put a script at this path: they write it and then make
/// it executable, and neither may fail.
pub open spec fn makes_script(
    v: Seq<FileStep<Seq<char>>>,
    i: int,
    path: Seq<char>,
    text: Seq<char>,
) -> bool {
    &&& 0 <= i && i + 2 < v.len()
    &&& v[i].op is MakeDir
    &&& v[i + 1].op is Write && v[i + 1].path == path && v[i + 1].text == text && v[i + 1].fatal
        is Some
    &&& v[i + 2].op == FileOp::Mode(0o755) && v[i + 2].path == path && v[i + 2].fatal is Some
}

/// Scripts are executable once they are written, in a directory that is made
/// before: those of the guest's own programs too.
pub proof fn law_scripts_are_executable(
    root: Seq<char>,
    dir: Seq<char>,
    name: Seq<char>,
    text: Seq<char>,
    a: Seq<char>,
    b: Seq<char>,
)
    ensures
        script(dir, name, text).len() == 3,
        makes_script(script(dir, name, text), 0, join_path(dir, name), text),
        script(dir, name, text)[0].path == dir,
        wrapper_steps(root, name, text, a, b).len() == 3,
        makes_script(
            wrapper_steps(root, name, text, a, b),
            0,
            join_path(root, "usr/local/bin/"@ + name),
            text,
        ),
        wrapper_steps(root, name, text, a, b)[0].path == join_path(root, "usr/local/bin"@),
{
}

/// The home of the superuser lies at the root of the guest, that of any other
/// user below `home`.
pub proof fn law_homes_lie_below_home(root: Seq<char>, user: Seq<char>)
    ensures
        home_of(root, "root"@) == join_path(root, "root"@),
        user != "root"@ ==> home_of(root, user) == join_path(root, "home/"@ + user),
{
}

/// The system data are written below the root of the guest, in directories that
/// are made before and that nobody else may enter: each file as it stands for one
/// of the kernel, and none of them may fail. The version, by which the stage is
/// known to be done, is among them.
pub proof fn law_system_data_stand_in_for_the_kernel(root: Seq<char>, i: int)
    ensures
        ({
            let v = sysdata_steps(root);
            let files = sysdata_files();
            let names = seq![
                "proc/.loadavg"@,
                "proc/.stat"@,
                "proc/.uptime"@,
                "proc/.version"@,
                "proc/.vmstat"@,
                "proc/.sysctl_entry_cap_last_cap"@,
                "proc/.sysctl_inotify_max_user_watches"@,
            ];
            let dirs = seq!["proc"@, "sys"@, "sys/.empty"@];
            &&& v.len() == 13 && files.len() == 7
            &&& 0 <= i < 3 ==> v[i] == (FileStep {
                op: FileOp::MakeDir,
                path: join_path(root, dirs[i]),
                text: ""@,
                fatal: None,
            })
            &&& 3 <= i < 6 ==> v[i] == (FileStep {
                op: FileOp::Mode(0o700),
                path: join_path(root, dirs[i - 3]),
                text: ""@,
                fatal: None,
            })
            &&& 6 <= i < 13 ==> v[i].op is Write && v[i].path == join_path(root, names[i - 6])
                && v[i].text == files[i - 6].1 && v[i].fatal == Some(
                "Permission denied while writing to "@ + names[i - 6],
            )
        }),
{
    let v = sysdata_steps(root);
    let files = sysdata_files();
    let steps = files.map_values(|f: (Seq<char>, Seq<char>)| sysdata_file(root, f));
    if 6 <= i < 13 {
        assert(v[i] == steps[i - 6]);
        assert(v[i] == sysdata_file(root, files[i - 6]));
    }
}

/// Firefox is configured by two files below its directory, both of which must be
/// written; their directories are made before.
pub proof fn law_firefox_is_configured(root: Seq<char>)
    ensures
        ({
            let v = firefox_steps(root);
            let top = root + "/usr/lib/firefox"@;
            &&& v.len() == 4
            &&& v[0].op is MakeDir && v[0].path == top && v[0].fatal is Some
            &&& v[1].op is MakeDir && v[1].path == top + "/defaults/pref"@ && v[1].fatal is Some
            &&& v[2].op is Write && v[2].path == top + "/defaults/pref"@ + "/autoconfig.js"@
                && v[2].text == FIREFOX_AUTOCONFIG@ && v[2].fatal is Some
            &&& v[3].op is Write && v[3].path == top + "/localdesktop.cfg"@ && v[3].text
                == FIREFOX_CONFIG@ && v[3].fatal is Some
        }),
{
}

/// The session is set up at its scale: fonts have ninety-six dots for each step
/// of it, and the scripts that start the session, run once it is up, and scale
/// the output are executable. What the user may have changed, the link to the
/// manual and the list of applications, is written only where it is missing; what
/// an earlier version left behind is removed; all else is written anew.
pub proof fn law_the_session_is_set_up(g: Guest<Seq<char>>, scale: int)
    ensures
        ({
            let v = session_steps(g, scale) + desktop_steps(g) + labwc_steps(g, scale);
            let bin = join_path(g.root, "usr/local/bin"@);
            let xfconf = join_path(g.home, ".config/xfce4/xfconf/xfce-perchannel-xml"@);
            let desktop = join_path(g.home, "Desktop"@);
            let autostart = join_path(g.home, ".config/autostart"@);
            let labwc = join_path(g.home, ".config/xfce4/labwc"@);
            let dpi = dec_int(96 * scale);
            &&& v.len() == 30
            &&& v[0].op is MakeDir && v[0].path == xfconf
            &&& v[1].op is Write && v[1].path == join_path(xfconf, "xfce4-session.xml"@)
                && v[1].text == XFCE_SESSION_XML@ && v[1].fatal is Some
            &&& v[2].op is Write && v[2].path == join_path(xfconf, "xsettings.xml"@) && v[2].text
                == XSETTINGS_HEAD@ + dpi + XSETTINGS_TAIL@ && v[2].fatal is Some
            &&& makes_script(v, 3, join_path(bin, "startxfce4-localdesktop"@), start_script(g))
            &&& makes_script(
                v,
                6,
                join_path(bin, "localdesktop-xfce-session-init"@),
                SESSION_INIT_0@ + dpi + SESSION_INIT_1@ + dpi + SESSION_INIT_2@,
            )
            &&& v[9].op is MakeDir && v[9].path == desktop
            &&& v[10].op is WriteMissing && v[10].path == join_path(
                desktop,
                "localdesktop-online-docs.desktop"@,
            ) && v[10].text == ONLINE_DOCS_0@ + g.docs_url + ONLINE_DOCS_1@
            &&& v[11].op is Remove && v[11].path == join_path(
                desktop,
                "localdesktop-documentation.desktop"@,
            )
            &&& v[12].op is WriteMissing && v[12].path == join_path(
                g.home,
                ".config/mimeapps.list"@,
            ) && v[12].text == MIMEAPPS@
            &&& v[13].op is MakeDir && v[13].path == autostart
            &&& v[14].op is Write && v[14].path == join_path(
                autostart,
                "localdesktop-xfce-session-init.desktop"@,
            ) && v[14].text == SESSION_INIT_ENTRY@ && v[14].fatal is Some
            &&& v[15].op is Write && v[15].path == join_path(
                autostart,
                "xfce4-power-manager.desktop"@,
            ) && v[15].text == POWER_MANAGER_ENTRY@ && v[15].fatal is Some
            &&& v[16].op is Remove && v[16].path == join_path(
                autostart,
                "localdesktop-xfce-scale.desktop"@,
            )
            &&& v[17].op is Remove && v[17].path == join_path(
                autostart,
                "localdesktop-wlroots-output.desktop"@,
            )
            &&& v[18].op is Remove && v[18].path == join_path(
                g.root,
                "usr/local/bin/localdesktop-xfce-scale"@,
            )
            &&& makes_script(
                v,
                19,
                join_path(bin, "localdesktop-wlroots-output"@),
                WLROOTS_OUTPUT_0@ + dec_int(scale) + WLROOTS_OUTPUT_1@,
            )
            &&& v[22].op is MakeDir && v[22].path == labwc
            &&& v[23].op is Write && v[23].path == join_path(labwc, "rc.xml"@) && v[23].text
                == LABWC_RC@ && v[23].fatal is Some
            &&& makes_script(v, 24, join_path(labwc, "autostart"@), LABWC_AUTOSTART@)
            &&& v[27].op is Write && v[27].path == join_path(labwc, "environment"@) && v[27].text
                == LABWC_ENVIRONMENT@ && v[27].fatal is Some
            &&& v[28].op is Write && v[28].path == join_path(labwc, "lock"@) && v[28].text == ""@
                && v[28].fatal is Some
            &&& v[29].op is Remove && v[29].path == join_path(g.home, ".config/labwc/autostart"@)
        }),
{
    let a = session_steps(g, scale);
    let b = desktop_steps(g);
    let c = labwc_steps(g, scale);
    let v = a + b + c;
    assert(xft_dpi_of(scale) == 96 * scale);
    assert(a.len() == 9 && b.len() == 10 && c.len() == 11);
    assert forall|i: int| 0 <= i < 9 implies v[i] == #[trigger] a[i] by {}
    assert forall|i: int| 0 <= i < 10 implies v[9 + i] == #[trigger] b[i] by {}
    assert forall|i: int| 0 <= i < 11 implies v[19 + i] == #[trigger] c[i] by {}
    assert(v[0] == a[0] && v[1] == a[1] && v[2] == a[2] && v[3] == a[3] && v[4] == a[4]);
    assert(v[5] == a[5] && v[6] == a[6] && v[7] == a[7] && v[8] == a[8]);
    assert(v[9] == b[0] && v[10] == b[1] && v[11] == b[2] && v[12] == b[3] && v[13] == b[4]);
    assert(v[14] == b[5] && v[15] == b[6] && v[16] == b[7] && v[17] == b[8] && v[18] == b[9]);
    assert(v[19] == c[0] && v[20] == c[1] && v[21] == c[2] && v[22] == c[3] && v[23] == c[4]);
    assert(v[24] == c[5] && v[25] == c[6] && v[26] == c[7] && v[27] == c[8] && v[28] == c[9]);
    assert(v[29] == c[10]);
}

/// The script that starts the session tells its clients where the audio services
/// answer: it names the directory of PipeWire twice and the server of PulseAudio
/// once, and nothing else of it changes.
pub proof fn law_the_session_is_told_of_the_audio(g: Guest<Seq<char>>, h: Guest<Seq<char>>)
    ensures
        start_script(g) == START_XFCE_0@ + g.pipewire_runtime_dir + START_XFCE_1@ + g.pulse_server
            + START_XFCE_2@ + g.pipewire_runtime_dir + START_XFCE_3@,
        g.pipewire_runtime_dir == h.pipewire_runtime_dir && g.pulse_server == h.pulse_server
            ==> start_script(g) == start_script(h),
{
}

} // verus!
