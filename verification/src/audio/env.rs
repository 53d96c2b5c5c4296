//! The directories, files and arguments of the audio services.

use vstd::prelude::*;

use crate::paths::{join_path, path_join};
use crate::text::{pairs, texts};

verus! {

pub const PIPEWIRE_DAEMON_LIB: &'static str = "libpipewire_exec.so";

pub const PIPEWIRE_PULSE_DAEMON_LIB: &'static str = "libpipewire_pulse_exec.so";

pub const WIREPLUMBER_DAEMON_LIB: &'static str = "libwireplumber_exec.so";

pub const AAUDIO_SINK_LIB: &'static str = "liblocaldesktop_pipewire_aaudio_sink.so";

pub const PIPEWIRE_SOCKET_NAME: &'static str = "pipewire-0";

pub const PULSE_SOCKET_NAME: &'static str = "pulse/native";

pub const WIREPLUMBER_SHARE_TAR_ASSET: &'static str = "wireplumber-share.tar";

/// Where the services find what they need.
pub struct PipewireAaudioEnv {
    pub home_dir: String,
    pub runtime_dir: String,
    pub config_dir: String,
    pub module_dir: String,
    /// Where plugins are looked for.
    pub spa_dir: String,
    /// Where the plugins are linked in subdirectories of their own.
    pub spa_layout_dir: String,
    pub pulse_dir: String,
    pub wireplumber_share_dir: String,
    pub wireplumber_module_dir: String,
    pub ld_library_path: String,
}

/// An environment over views.
pub struct EnvView {
    pub home_dir: Seq<char>,
    pub runtime_dir: Seq<char>,
    pub config_dir: Seq<char>,
    pub module_dir: Seq<char>,
    pub spa_dir: Seq<char>,
    pub spa_layout_dir: Seq<char>,
    pub pulse_dir: Seq<char>,
    pub wireplumber_share_dir: Seq<char>,
    pub wireplumber_module_dir: Seq<char>,
    pub ld_library_path: Seq<char>,
}

impl View for PipewireAaudioEnv {
    type V = EnvView;

    open spec fn view(&self) -> EnvView {
        EnvView {
            home_dir: self.home_dir@,
            runtime_dir: self.runtime_dir@,
            config_dir: self.config_dir@,
            module_dir: self.module_dir@,
            spa_dir: self.spa_dir@,
            spa_layout_dir: self.spa_layout_dir@,
            pulse_dir: self.pulse_dir@,
            wireplumber_share_dir: self.wireplumber_share_dir@,
            wireplumber_module_dir: self.wireplumber_module_dir@,
            ld_library_path: self.ld_library_path@,
        }
    }
}

/// The environment of an app whose guest lies at `root`, whose data are kept in
/// `data_dir` and whose libraries were unpacked to `lib_dir`. Modules and plugins
/// are looked for among the libraries. Sockets lie in the guest's `/tmp`, so that
/// the guest sees them.
pub open spec fn env_of(root: Seq<char>, data_dir: Seq<char>, lib_dir: Seq<char>) -> EnvView {
    EnvView {
        home_dir: data_dir,
        runtime_dir: join_path(root, "tmp"@),
        config_dir: join_path(data_dir, "pipewire-standalone-aaudio/config"@),
        module_dir: lib_dir,
        spa_dir: lib_dir,
        spa_layout_dir: join_path(data_dir, "pipewire-standalone-aaudio/spa-0.2"@),
        pulse_dir: join_path(join_path(root, "tmp"@), "pulse"@),
        wireplumber_share_dir: join_path(data_dir, "pipewire-standalone-aaudio/share"@),
        wireplumber_module_dir: lib_dir,
        ld_library_path: lib_dir,
    }
}

/// Lays the environment of the services out.
pub fn build_pipewire_env(root: &str, data_dir: &str, lib_dir: &str) -> (r: PipewireAaudioEnv)
    ensures
        r@ == env_of(root@, data_dir@, lib_dir@),
{
    let runtime_dir = path_join(root, "tmp");
    let pulse_dir = path_join(runtime_dir.as_str(), "pulse");
    PipewireAaudioEnv {
        home_dir: data_dir.to_owned(),
        runtime_dir,
        config_dir: path_join(data_dir, "pipewire-standalone-aaudio/config"),
        module_dir: lib_dir.to_owned(),
        spa_dir: lib_dir.to_owned(),
        spa_layout_dir: path_join(data_dir, "pipewire-standalone-aaudio/spa-0.2"),
        pulse_dir,
        wireplumber_share_dir: path_join(data_dir, "pipewire-standalone-aaudio/share"),
        wireplumber_module_dir: lib_dir.to_owned(),
        ld_library_path: lib_dir.to_owned(),
    }
}

/// The variables that every service is started with.
pub open spec fn service_vars(env: EnvView) -> Seq<(Seq<char>, Seq<char>)> {
    seq![
        ("HOME"@, env.home_dir),
        ("XDG_RUNTIME_DIR"@, env.runtime_dir),
        ("PIPEWIRE_RUNTIME_DIR"@, env.runtime_dir),
        ("PIPEWIRE_CONFIG_DIR"@, env.config_dir),
        ("PIPEWIRE_MODULE_DIR"@, env.module_dir),
        ("SPA_PLUGIN_DIR"@, env.spa_dir),
        ("LD_LIBRARY_PATH"@, env.ld_library_path),
    ]
}

/// The variables that the session manager is started with.
pub open spec fn policy_vars(env: EnvView) -> Seq<(Seq<char>, Seq<char>)> {
    service_vars(env) + seq![
        ("WIREPLUMBER_CONFIG_DIR"@, join_path(env.wireplumber_share_dir, "wireplumber"@)),
        ("WIREPLUMBER_MODULE_DIR"@, env.wireplumber_module_dir),
        ("XDG_DATA_DIRS"@, env.wireplumber_share_dir),
    ]
}

/// Adds a variable.
fn push_var(v: &mut Vec<(String, String)>, key: &str, value: &str)
    ensures
        pairs(final(v)@) == pairs(old(v)@).push((key@, value@)),
{
    let ghost was = pairs(v@);
    let k = key.to_owned();
    let x = value.to_owned();
    v.push((k, x));
    assert(pairs(v@) =~= was.push((k@, x@)));
}

/// Lists the variables that every service is started with.
pub fn apply_pipewire_env(env: &PipewireAaudioEnv) -> (r: Vec<(String, String)>)
    ensures
        pairs(r@) == service_vars(env@),
{
    let mut v: Vec<(String, String)> = Vec::new();
    push_var(&mut v, "HOME", env.home_dir.as_str());
    push_var(&mut v, "XDG_RUNTIME_DIR", env.runtime_dir.as_str());
    push_var(&mut v, "PIPEWIRE_RUNTIME_DIR", env.runtime_dir.as_str());
    push_var(&mut v, "PIPEWIRE_CONFIG_DIR", env.config_dir.as_str());
    push_var(&mut v, "PIPEWIRE_MODULE_DIR", env.module_dir.as_str());
    push_var(&mut v, "SPA_PLUGIN_DIR", env.spa_dir.as_str());
    push_var(&mut v, "LD_LIBRARY_PATH", env.ld_library_path.as_str());
    assert(pairs(v@) =~= service_vars(env@));
    v
}

/// Lists the variables that the session manager is started with.
pub fn apply_wireplumber_env(env: &PipewireAaudioEnv) -> (r: Vec<(String, String)>)
    ensures
        pairs(r@) == policy_vars(env@),
{
    let mut v = apply_pipewire_env(env);
    let config = path_join(env.wireplumber_share_dir.as_str(), "wireplumber");
    push_var(&mut v, "WIREPLUMBER_CONFIG_DIR", config.as_str());
    push_var(&mut v, "WIREPLUMBER_MODULE_DIR", env.wireplumber_module_dir.as_str());
    push_var(&mut v, "XDG_DATA_DIRS", env.wireplumber_share_dir.as_str());
    assert(pairs(v@) =~= policy_vars(env@));
    v
}

/// A plugin that is linked in a subdirectory of its own: the library it links
/// to, and its place.
pub struct SpaLink<S> {
    pub source: S,
    pub dir: S,
    pub dest: S,
}

impl SpaLink<String> {
    /// The link over the views of its texts.
    pub open spec fn seen(self) -> SpaLink<Seq<char>> {
        SpaLink { source: self.source@, dir: self.dir@, dest: self.dest@ }
    }
}

/// The place of one plugin.
pub open spec fn spa_link(
    layout_dir: Seq<char>,
    lib_dir: Seq<char>,
    subdir: Seq<char>,
    lib: Seq<char>,
) -> SpaLink<Seq<char>> {
    SpaLink {
        source: join_path(lib_dir, lib),
        dir: join_path(layout_dir, subdir),
        dest: join_path(join_path(layout_dir, subdir), lib),
    }
}

/// Gives the place of one plugin.
fn make_spa_link(layout_dir: &str, lib_dir: &str, subdir: &str, lib: &str) -> (r: SpaLink<
    String,
>)
    ensures
        r.seen() == spa_link(layout_dir@, lib_dir@, subdir@, lib@),
{
    let dir = path_join(layout_dir, subdir);
    let dest = path_join(dir.as_str(), lib);
    SpaLink { source: path_join(lib_dir, lib), dir, dest }
}

/// Lists the plugins in the order in which they are linked. The first whose
/// source is missing stops the start.
pub fn spa_plugin_layout(env: &PipewireAaudioEnv, lib_dir: &str) -> (r: Vec<SpaLink<String>>)
    ensures
        r@.len() == 3,
        r@[0].seen() == spa_link(env@.spa_layout_dir, lib_dir@, "support"@, "libspa-support.so"@),
        r@[1].seen() == spa_link(
            env@.spa_layout_dir,
            lib_dir@,
            "audioconvert"@,
            "libspa-audioconvert.so"@,
        ),
        r@[2].seen() == spa_link(
            env@.spa_layout_dir,
            lib_dir@,
            "audiomixer"@,
            "libspa-audiomixer.so"@,
        ),
{
    let dir = env.spa_layout_dir.as_str();
    let mut v: Vec<SpaLink<String>> = Vec::new();
    v.push(make_spa_link(dir, lib_dir, "support", "libspa-support.so"));
    v.push(make_spa_link(dir, lib_dir, "audioconvert", "libspa-audioconvert.so"));
    v.push(make_spa_link(dir, lib_dir, "audiomixer", "libspa-audiomixer.so"));
    v
}

/// What is said of a plugin that is missing.
pub fn missing_plugin(source: &str) -> (r: String)
    ensures
        r@ == "missing SPA plugin "@ + source@,
{
    let mut r = "missing SPA plugin ".to_owned();
    r.append(source);
    r
}

/// The sockets and locks that a run can leave behind.
pub open spec fn socket_paths_in(dir: Seq<char>) -> Seq<Seq<char>> {
    seq![
        join_path(dir, "pipewire-0"@),
        join_path(dir, "pipewire-0.lock"@),
        join_path(dir, "pipewire-0-manager"@),
        join_path(dir, "pipewire-0-manager.lock"@),
        join_path(dir, "pulse/native"@),
        join_path(dir, "pulse/native.lock"@),
    ]
}

/// Lists the sockets and locks that a run can leave behind.
pub fn socket_paths(runtime_dir: &str) -> (r: Vec<String>)
    ensures
        texts(r@) == socket_paths_in(runtime_dir@),
{
    let mut v: Vec<String> = Vec::new();
    v.push(path_join(runtime_dir, "pipewire-0"));
    v.push(path_join(runtime_dir, "pipewire-0.lock"));
    v.push(path_join(runtime_dir, "pipewire-0-manager"));
    v.push(path_join(runtime_dir, "pipewire-0-manager.lock"));
    v.push(path_join(runtime_dir, "pulse/native"));
    v.push(path_join(runtime_dir, "pulse/native.lock"));
    assert(texts(v@) =~= socket_paths_in(runtime_dir@));
    v
}

/// Lists the arguments that the sink is started with.
pub fn sink_args() -> (r: Vec<String>)
    ensures
        texts(r@) == seq![
            "--node-name"@,
            "localdesktop-aaudio-sink"@,
            "--rate"@,
            "48000"@,
            "--channels"@,
            "2"@,
            "--buffer-ms"@,
            "120"@,
        ],
{
    let mut v: Vec<String> = Vec::new();
    v.push("--node-name".to_owned());
    v.push("localdesktop-aaudio-sink".to_owned());
    v.push("--rate".to_owned());
    v.push("48000".to_owned());
    v.push("--channels".to_owned());
    v.push("2".to_owned());
    v.push("--buffer-ms".to_owned());
    v.push("120".to_owned());
    assert(texts(v@) =~= seq![
        "--node-name"@,
        "localdesktop-aaudio-sink"@,
        "--rate"@,
        "48000"@,
        "--channels"@,
        "2"@,
        "--buffer-ms"@,
        "120"@,
    ]);
    v
}

/// Services run with the app's directories: their sockets lie in the guest's
/// `/tmp`, their configuration in the app's data, and their modules, plugins and
/// libraries among the app's libraries.
pub proof fn law_services_find_what_they_need(
    root: Seq<char>,
    data_dir: Seq<char>,
    lib_dir: Seq<char>,
)
    requires
        root.len() > 0 && root.last() != '/',
        data_dir.len() > 0 && data_dir.last() != '/',
    ensures
        ({
            let env = env_of(root, data_dir, lib_dir);
            let tmp = root + "/tmp"@;
            let share = data_dir + "/pipewire-standalone-aaudio/share"@;
            let vars = seq![
                ("HOME"@, data_dir),
                ("XDG_RUNTIME_DIR"@, tmp),
                ("PIPEWIRE_RUNTIME_DIR"@, tmp),
                ("PIPEWIRE_CONFIG_DIR"@, data_dir + "/pipewire-standalone-aaudio/config"@),
                ("PIPEWIRE_MODULE_DIR"@, lib_dir),
                ("SPA_PLUGIN_DIR"@, lib_dir),
                ("LD_LIBRARY_PATH"@, lib_dir),
            ];
            &&& service_vars(env) == vars
            &&& policy_vars(env) == vars + seq![
                ("WIREPLUMBER_CONFIG_DIR"@, share + "/wireplumber"@),
                ("WIREPLUMBER_MODULE_DIR"@, lib_dir),
                ("XDG_DATA_DIRS"@, share),
            ]
            &&& env.pulse_dir == tmp + "/pulse"@
            &&& env.spa_layout_dir == data_dir + "/pipewire-standalone-aaudio/spa-0.2"@
        }),
{
    let env = env_of(root, data_dir, lib_dir);
    reveal_strlit("tmp");
    reveal_strlit("/tmp");
    reveal_strlit("pulse");
    reveal_strlit("/pulse");
    reveal_strlit("wireplumber");
    reveal_strlit("/wireplumber");
    reveal_strlit("pipewire-standalone-aaudio/share");
    reveal_strlit("/pipewire-standalone-aaudio/share");
    reveal_strlit("pipewire-standalone-aaudio/config");
    reveal_strlit("/pipewire-standalone-aaudio/config");
    reveal_strlit("pipewire-standalone-aaudio/spa-0.2");
    reveal_strlit("/pipewire-standalone-aaudio/spa-0.2");
    let tmp = root + "/tmp"@;
    let share = data_dir + "/pipewire-standalone-aaudio/share"@;
    assert(env.runtime_dir =~= tmp);
    assert(tmp.last() == 'p');
    assert(env.pulse_dir =~= tmp + "/pulse"@);
    assert(env.wireplumber_share_dir =~= share);
    assert(share.last() == 'e');
    assert(join_path(share, "wireplumber"@) =~= share + "/wireplumber"@);
    assert(env.config_dir =~= data_dir + "/pipewire-standalone-aaudio/config"@);
    assert(env.spa_layout_dir =~= data_dir + "/pipewire-standalone-aaudio/spa-0.2"@);
}

/// A plugin is linked from the library of its name, in a directory of its own.
pub proof fn law_plugins_are_linked_by_name(
    layout_dir: Seq<char>,
    lib_dir: Seq<char>,
    subdir: Seq<char>,
    lib: Seq<char>,
)
    requires
        layout_dir.len() > 0 && layout_dir.last() != '/',
        lib_dir.len() > 0 && lib_dir.last() != '/',
        subdir.len() > 0 && subdir[0] != '/' && subdir.last() != '/',
        lib.len() > 0 && lib[0] != '/',
    ensures
        ({
            let l = spa_link(layout_dir, lib_dir, subdir, lib);
            &&& l.source == lib_dir + seq!['/'] + lib
            &&& l.dir == layout_dir + seq!['/'] + subdir
            &&& l.dest == l.dir + seq!['/'] + lib
        }),
{
    let l = spa_link(layout_dir, lib_dir, subdir, lib);
    assert(l.source =~= lib_dir + seq!['/'] + lib);
    assert(l.dir =~= layout_dir + seq!['/'] + subdir);
    assert(l.dir.last() == subdir.last());
    assert(l.dest =~= l.dir + seq!['/'] + lib);
}

/// What a run leaves behind is each of its sockets with its lock, in the
/// directory of the run.
pub proof fn law_sockets_are_left_with_their_locks(dir: Seq<char>)
    requires
        dir.len() > 0 && dir.last() != '/',
    ensures
        socket_paths_in(dir) == seq![
            dir + "/pipewire-0"@,
            dir + "/pipewire-0"@ + ".lock"@,
            dir + "/pipewire-0-manager"@,
            dir + "/pipewire-0-manager"@ + ".lock"@,
            dir + "/pulse/native"@,
            dir + "/pulse/native"@ + ".lock"@,
        ],
{
    reveal_strlit("pipewire-0");
    reveal_strlit("/pipewire-0");
    reveal_strlit("pipewire-0.lock");
    reveal_strlit("pipewire-0-manager");
    reveal_strlit("/pipewire-0-manager");
    reveal_strlit("pipewire-0-manager.lock");
    reveal_strlit("pulse/native");
    reveal_strlit("/pulse/native");
    reveal_strlit("pulse/native.lock");
    reveal_strlit(".lock");
    let all = socket_paths_in(dir);
    assert(all[0] =~= dir + "/pipewire-0"@);
    assert(all[1] =~= dir + "/pipewire-0"@ + ".lock"@);
    assert(all[2] =~= dir + "/pipewire-0-manager"@);
    assert(all[3] =~= dir + "/pipewire-0-manager"@ + ".lock"@);
    assert(all[4] =~= dir + "/pulse/native"@);
    assert(all[5] =~= dir + "/pulse/native"@ + ".lock"@);
}

} // verus!
