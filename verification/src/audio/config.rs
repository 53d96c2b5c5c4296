//! The configuration files of the audio services.

use vstd::prelude::*;

verus! {

/// Where the plugins of the services lie.
pub const SPA_LIBS: &'static str = r#"context.spa-libs = {
    support.* = support/libspa-support
    audio.convert.* = audioconvert/libspa-audioconvert
    audio.adapt = audioconvert/libspa-audioconvert
    audio.mixer.* = audiomixer/libspa-audiomixer
}
"#;

pub const DAEMON_HEAD: &'static str =
    r#"# Local Desktop PipeWire standalone-client AAudio sink POC.
#
# This config intentionally does not load a Local Desktop PipeWire/SPA plugin.
# Runtime shape:
#   guest PipeWire clients -> exposed PipeWire socket -> Android-side PipeWire
#   daemon -> standalone PipeWire client with an AAudio-backed Audio/Sink.
context.properties = {
    core.daemon = true
    core.name = pipewire-0
    default.clock.rate = 48000
    default.clock.allowed-rates = [ 48000 ]
    default.clock.quantum = 1024
    link.max-buffers = 16
    mem.warn-mlock = false
}

"#;

pub const DAEMON_MODULES: &'static str = r#"

context.modules = [
    { name = libpipewire-module-rt flags = [ ifexists nofail ] }
    { name = libpipewire-module-protocol-native }
    { name = libpipewire-module-profiler flags = [ ifexists nofail ] }
    { name = libpipewire-module-metadata }
    { name = libpipewire-module-spa-device-factory }
    { name = libpipewire-module-spa-node-factory }
    { name = libpipewire-module-client-node }
    { name = libpipewire-module-client-device }
    { name = libpipewire-module-access args = {
        access.socket = {
            pipewire-0 = "unrestricted"
            pipewire-0-manager = "unrestricted"
        }
    } }
    { name = libpipewire-module-adapter }
    { name = libpipewire-module-link-factory }
"#;

pub const EMBEDDED_POLICY: &'static str =
    "    { name = libpipewire-module-session-manager flags = [ ifexists nofail ] }\n";

pub const DAEMON_OBJECTS: &'static str = r#"]

context.objects = [
    { factory = spa-node-factory
        args = {
            factory.name = support.node.driver
            node.name = Dummy-Driver
            node.group = pipewire.dummy
            node.sync-group = sync.dummy
            priority.driver = 200000
        }
    }
    { factory = spa-node-factory
        args = {
            factory.name = support.node.driver
            node.name = Freewheel-Driver
            priority.driver = 190000
            node.group = pipewire.freewheel
            node.sync-group = sync.dummy
            node.freewheel = true
        }
    }
]
"#;

pub const CLIENT_HEAD: &'static str =
    r#"# Local Desktop PipeWire client config for the standalone AAudio sink.
context.properties = {
    application.name = localdesktop-pipewire-aaudio-sink
}

"#;

pub const CLIENT_MODULES: &'static str = r#"

context.modules = [
    { name = libpipewire-module-protocol-native }
    { name = libpipewire-module-client-node }
    { name = libpipewire-module-adapter }
]
"#;

pub const PULSE_HEAD: &'static str = r#"# Local Desktop PipeWire Pulse compatibility service.
#
# This is not the PulseAudio daemon. It is PipeWire's PulseAudio-compatible
# protocol front door for applications such as Firefox that still use libpulse.
context.properties = {
    mem.warn-mlock = false
}

"#;

pub const PULSE_MODULES: &'static str = r#"

context.modules = [
    { name = libpipewire-module-rt flags = [ ifexists nofail ] }
    { name = libpipewire-module-protocol-native }
    { name = libpipewire-module-client-node }
    { name = libpipewire-module-adapter }
    { name = libpipewire-module-metadata }
    { name = libpipewire-module-protocol-pulse }
]

pulse.properties = {
    server.address = [ "unix:"#;

pub const PULSE_TAIL: &'static str = r#"" ]
    pulse.allow-module-loading = false
    pulse.min.req = 256/48000
    pulse.default.req = 960/48000
    pulse.min.quantum = 256/48000
    pulse.idle.timeout = 0
}

stream.properties = {
    node.autoconnect = true
    resample.quality = 4
}

pulse.cmd = [ ]
pulse.rules = [ ]
"#;

/// The configuration of the daemon. Without a session manager of its own it
/// loads the embedded policy.
pub open spec fn daemon_config_of(use_embedded_policy: bool) -> Seq<char> {
    DAEMON_HEAD@ + SPA_LIBS@ + DAEMON_MODULES@ + (if use_embedded_policy {
        EMBEDDED_POLICY@
    } else {
        seq![]
    }) + DAEMON_OBJECTS@
}

/// Writes the configuration of the daemon.
pub fn daemon_config(use_embedded_policy: bool) -> (r: String)
    ensures
        r@ == daemon_config_of(use_embedded_policy),
{
    let mut r = DAEMON_HEAD.to_owned();
    r.append(SPA_LIBS);
    r.append(DAEMON_MODULES);
    if use_embedded_policy {
        r.append(EMBEDDED_POLICY);
    }
    r.append(DAEMON_OBJECTS);
    assert(r@ =~= daemon_config_of(use_embedded_policy));
    r
}

/// Writes the configuration of the clients.
pub fn client_config() -> (r: String)
    ensures
        r@ == CLIENT_HEAD@ + SPA_LIBS@ + CLIENT_MODULES@,
{
    let mut r = CLIENT_HEAD.to_owned();
    r.append(SPA_LIBS);
    r.append(CLIENT_MODULES);
    r
}

/// The configuration of the service for clients of PulseAudio, at this socket.
pub open spec fn pulse_config_of(socket: Seq<char>) -> Seq<char> {
    PULSE_HEAD@ + SPA_LIBS@ + PULSE_MODULES@ + socket + PULSE_TAIL@
}

/// Writes the configuration of the service for clients of PulseAudio.
pub fn pulse_config(socket: &str) -> (r: String)
    ensures
        r@ == pulse_config_of(socket@),
{
    let mut r = PULSE_HEAD.to_owned();
    r.append(SPA_LIBS);
    r.append(PULSE_MODULES);
    r.append(socket);
    r.append(PULSE_TAIL);
    r
}

/// The daemon loads the embedded policy where no session manager does its work,
/// and in nothing else do the two configurations differ. Every configuration
/// names the plugins, and that of PulseAudio's clients its socket.
pub proof fn law_configurations_differ_in_the_policy(socket: Seq<char>)
    ensures
        exists|a: Seq<char>, b: Seq<char>|
            #![trigger (a + b)]
            daemon_config_of(false) == a + b && daemon_config_of(true) == a
                + "    { name = libpipewire-module-session-manager flags = [ ifexists nofail ] }\n"@
                + b,
        exists|a: Seq<char>, b: Seq<char>|
            #![trigger (a + b)]
            pulse_config_of(socket) == a + socket + b && pulse_config_of(seq![]) == a + b,
        exists|a: Seq<char>, b: Seq<char>| daemon_config_of(true) == #[trigger] (a + SPA_LIBS@ + b),
        exists|a: Seq<char>, b: Seq<char>|
            pulse_config_of(socket) == #[trigger] (a + SPA_LIBS@ + b),
{
    let a = DAEMON_HEAD@ + SPA_LIBS@ + DAEMON_MODULES@;
    let b = DAEMON_OBJECTS@;
    assert(daemon_config_of(false) =~= a + b);
    assert(daemon_config_of(true) =~= a
        + "    { name = libpipewire-module-session-manager flags = [ ifexists nofail ] }\n"@ + b);
    let c = PULSE_HEAD@ + SPA_LIBS@ + PULSE_MODULES@;
    let d = PULSE_TAIL@;
    assert(pulse_config_of(socket) =~= c + socket + d);
    assert(pulse_config_of(seq![]) =~= c + d);
    let rest = DAEMON_MODULES@ + EMBEDDED_POLICY@ + DAEMON_OBJECTS@;
    assert(daemon_config_of(true) =~= DAEMON_HEAD@ + SPA_LIBS@ + rest);
    let tail = PULSE_MODULES@ + socket + PULSE_TAIL@;
    assert(pulse_config_of(socket) =~= PULSE_HEAD@ + SPA_LIBS@ + tail);
}

} // verus!
