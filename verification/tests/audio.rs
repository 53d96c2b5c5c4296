use localdesktop::audio::config::{client_config, daemon_config, pulse_config, SPA_LIBS};
use localdesktop::audio::env::{
    apply_pipewire_env, apply_wireplumber_env, build_pipewire_env, missing_plugin, socket_paths,
    spa_plugin_layout,
};
use localdesktop::audio::startup::{Action, Outcome, Report, Role, Startup};
use localdesktop::audio::supervisor::{
    monitor, name_of, poll_child_exit, poll_order, shutdown, stop_children,
    verify_child_still_running, wait_for_socket, Children, Poll, Tried, Watch,
};

fn begin(wireplumber: bool, pulse: bool) -> Startup {
    let mut s = Startup::new();
    assert!(matches!(s.step(Report::Begin { kept: false }), Action::ReadApiLevel));
    assert!(matches!(s.step(Report::ApiLevel(30)), Action::FindBinaries));
    let found = Report::Binaries { pipewire: true, sink: true, wireplumber, pulse };
    match s.step(found) {
        Action::Prepare { wireplumber: w } => assert_eq!(w, wireplumber),
        _ => panic!("expected to prepare"),
    }
    s
}

fn ok(s: &mut Startup) -> Action<String> {
    s.step(Report::Done(Ok(())))
}

fn fail(s: &mut Startup, e: &str) -> (String, Vec<Role>) {
    match s.step(Report::Done(Err(e.to_string()))) {
        Action::Finish(Outcome::Failed { error, stop }) => (error, stop),
        _ => panic!("expected a failure"),
    }
}

fn is_spawn(a: Action<String>, role: Role) -> bool {
    match a {
        Action::Spawn(r) => r == role,
        _ => false,
    }
}

#[test]
fn all_services_start_in_order() {
    let mut s = begin(true, true);
    assert!(is_spawn(ok(&mut s), Role::Pipewire));
    assert!(matches!(ok(&mut s), Action::WaitSocket(Role::Pipewire)));
    assert!(is_spawn(ok(&mut s), Role::Wireplumber));
    assert!(is_spawn(ok(&mut s), Role::Sink));
    assert!(matches!(ok(&mut s), Action::CheckAlive(Role::Sink)));
    assert!(matches!(ok(&mut s), Action::WritePulseConfig));
    assert!(is_spawn(ok(&mut s), Role::Pulse));
    assert!(matches!(ok(&mut s), Action::WaitSocket(Role::Pulse)));
    assert!(matches!(ok(&mut s), Action::Record));
    assert!(matches!(ok(&mut s), Action::Finish(Outcome::Ready)));
}

#[test]
fn missing_services_are_passed_over() {
    let mut s = begin(false, false);
    assert!(is_spawn(ok(&mut s), Role::Pipewire));
    assert!(matches!(ok(&mut s), Action::WaitSocket(Role::Pipewire)));
    assert!(is_spawn(ok(&mut s), Role::Sink));
    assert!(matches!(ok(&mut s), Action::CheckAlive(Role::Sink)));
    assert!(matches!(ok(&mut s), Action::Record));
}

#[test]
fn a_failed_start_stops_what_it_started() {
    let mut s = begin(true, true);
    let (error, stop) = fail(&mut s, "mkdir");
    assert_eq!(error, "mkdir");
    assert!(stop.is_empty());

    let mut s = begin(true, true);
    ok(&mut s);
    ok(&mut s);
    let (_, stop) = fail(&mut s, "timed out");
    assert!(stop == vec![Role::Pipewire]);

    let mut s = begin(true, true);
    for _ in 0..8 {
        ok(&mut s);
    }
    let (error, stop) = fail(&mut s, "no socket");
    assert_eq!(error, "no socket");
    assert!(stop == vec![Role::Pulse, Role::Sink, Role::Wireplumber, Role::Pipewire]);
}

#[test]
fn two_failures_leave_services_running() {
    let mut s = begin(false, true);
    for _ in 0..5 {
        ok(&mut s);
    }
    let (_, stop) = fail(&mut s, "write config");
    assert!(stop.is_empty());
}

#[test]
fn a_start_can_end_early() {
    let mut s = Startup::new();
    assert!(matches!(s.step(Report::Begin { kept: true }), Action::Poll));
    assert!(matches!(s.step(Report::Polled(Ok(None))), Action::Finish(Outcome::Reused)));

    let mut s = Startup::new();
    s.step(Report::Begin { kept: true });
    match s.step(Report::Polled(Ok(Some("gone".to_string())))) {
        Action::StopStale(why) => assert_eq!(why, "gone"),
        _ => panic!("expected to stop"),
    }
    assert!(matches!(s.step(Report::Stopped), Action::ReadApiLevel));
    assert!(matches!(s.step(Report::ApiLevel(29)), Action::Finish(Outcome::TooOld(29))));

    let mut s = Startup::new();
    s.step(Report::Begin { kept: true });
    match s.step(Report::Polled(Err("lock".to_string()))) {
        Action::Finish(Outcome::Failed { error, stop }) => {
            assert_eq!(error, "lock");
            assert!(stop.is_empty());
        }
        _ => panic!("expected a failure"),
    }

    let mut s = Startup::new();
    s.step(Report::Begin { kept: false });
    s.step(Report::ApiLevel(34));
    let found = Report::Binaries { pipewire: true, sink: false, wireplumber: true, pulse: true };
    assert!(matches!(s.step(found), Action::Finish(Outcome::NotBundled)));
}

#[test]
fn stopping_reverses_starting() {
    let all = Children { wireplumber: true, pulse: true };
    assert!(stop_children(all) == vec![Role::Pulse, Role::Sink, Role::Wireplumber, Role::Pipewire]);
    assert!(poll_order(all) == vec![Role::Pipewire, Role::Wireplumber, Role::Pulse, Role::Sink]);
    let few = Children { wireplumber: false, pulse: false };
    assert!(stop_children(few) == vec![Role::Sink, Role::Pipewire]);
    assert!(poll_order(few) == vec![Role::Pipewire, Role::Sink]);
}

#[test]
fn the_first_exit_is_reported() {
    let polls = vec![
        (Role::Pipewire, 10, Poll::Running),
        (Role::Pulse, 11, Poll::Exited("exit status: 1".to_string())),
        (Role::Sink, 12, Poll::Unknown("no child".to_string())),
    ];
    assert_eq!(
        poll_child_exit(&polls),
        Ok(Some("pipewire-pulse pid=11 exited (status exit status: 1)".to_string()))
    );
    let polls = vec![
        (Role::Wireplumber, 10, Poll::Running),
        (Role::Sink, 12, Poll::Unknown("no child".to_string())),
    ];
    assert_eq!(poll_child_exit(&polls), Err("aaudio-sink try_wait: no child".to_string()));
    assert_eq!(poll_child_exit(&vec![(Role::Pipewire, 1, Poll::Running)]), Ok(None));
    assert_eq!(name_of(Role::Wireplumber), "wireplumber");
}

#[test]
fn a_socket_is_waited_for() {
    let running = || Tried::Closed(Poll::Running);
    assert_eq!(wait_for_socket("pipewire", "/tmp/s", 1, Tried::Connected), Some(Ok(())));
    assert_eq!(wait_for_socket("pipewire", "/tmp/s", 79, running()), None);
    assert_eq!(
        wait_for_socket("pipewire", "/tmp/s", 80, running()),
        Some(Err("timed out waiting for /tmp/s".to_string()))
    );
    assert_eq!(
        wait_for_socket("pipewire", "/tmp/s", 3, Tried::Closed(Poll::Exited("1".to_string()))),
        Some(Err("pipewire exited before socket /tmp/s (status 1)".to_string()))
    );
    assert_eq!(
        wait_for_socket("pipewire", "/tmp/s", 3, Tried::Closed(Poll::Unknown("e".to_string()))),
        Some(Err("pipewire try_wait: e".to_string()))
    );
}

#[test]
fn a_service_that_exits_at_once_fails_the_start() {
    assert_eq!(verify_child_still_running("aaudio-sink", Poll::Running), Ok(()));
    assert_eq!(
        verify_child_still_running("aaudio-sink", Poll::Exited("2".to_string())),
        Err("aaudio-sink exited during startup (status 2)".to_string())
    );
    assert_eq!(
        verify_child_still_running("aaudio-sink", Poll::Unknown("x".to_string())),
        Err("aaudio-sink try_wait: x".to_string())
    );
}

#[test]
fn shutdown_empties_the_slot() {
    let mut slot = Some(Children { wireplumber: true, pulse: false });
    let stop = shutdown(&mut slot, "/data/arch");
    assert!(slot.is_none());
    assert!(stop.roles == vec![Role::Sink, Role::Wireplumber, Role::Pipewire]);
    assert_eq!(stop.files[0], "/data/arch/tmp/pipewire-0");
    assert_eq!(stop.files, socket_paths("/data/arch/tmp"));
    let stop = shutdown(&mut slot, "/data/arch");
    assert!(stop.roles.is_empty());
    assert_eq!(stop.files.len(), 6);
    assert_eq!(stop.files[5], "/data/arch/tmp/pulse/native.lock");
}

#[test]
fn the_watch_stops_everything_once_one_exits() {
    let mut slot = Some(Children { wireplumber: false, pulse: true });
    assert!(matches!(monitor(&mut slot, &Ok(None)), Watch::Continue));
    assert!(matches!(monitor(&mut slot, &Err("e".to_string())), Watch::Continue));
    assert!(slot.is_some());
    match monitor(&mut slot, &Ok(Some("gone".to_string()))) {
        Watch::Stop(roles) => assert!(roles == vec![Role::Pulse, Role::Sink, Role::Pipewire]),
        _ => panic!("expected to stop"),
    }
    assert!(slot.is_none());
    assert!(matches!(monitor(&mut slot, &Ok(None)), Watch::Quit));
}

#[test]
fn the_environment_is_laid_out() {
    let env = build_pipewire_env("/data/arch", "/data/app", "/lib/arm64");
    assert_eq!(env.runtime_dir, "/data/arch/tmp");
    assert_eq!(env.pulse_dir, "/data/arch/tmp/pulse");
    assert_eq!(env.config_dir, "/data/app/pipewire-standalone-aaudio/config");
    let vars = apply_pipewire_env(&env);
    assert_eq!(vars.len(), 7);
    assert_eq!(vars[0], ("HOME".to_string(), "/data/app".to_string()));
    assert_eq!(vars[4], ("PIPEWIRE_MODULE_DIR".to_string(), "/lib/arm64".to_string()));
    assert_eq!(vars[5], ("SPA_PLUGIN_DIR".to_string(), "/lib/arm64".to_string()));
    let vars = apply_wireplumber_env(&env);
    assert_eq!(vars.len(), 10);
    assert_eq!(
        vars[7],
        (
            "WIREPLUMBER_CONFIG_DIR".to_string(),
            "/data/app/pipewire-standalone-aaudio/share/wireplumber".to_string()
        )
    );
    let links = spa_plugin_layout(&env, "/lib/arm64");
    assert_eq!(links[1].source, "/lib/arm64/libspa-audioconvert.so");
    assert_eq!(
        links[1].dest,
        "/data/app/pipewire-standalone-aaudio/spa-0.2/audioconvert/libspa-audioconvert.so"
    );
    assert_eq!(missing_plugin("/x.so"), "missing SPA plugin /x.so");
}

#[test]
fn configurations_hold_their_parts() {
    let with = daemon_config(true);
    let without = daemon_config(false);
    assert!(with.contains("libpipewire-module-session-manager"));
    assert!(!without.contains("libpipewire-module-session-manager"));
    assert!(without.contains(SPA_LIBS));
    assert!(without.contains("    { name = libpipewire-module-link-factory }\n]\n"));
    assert!(with.contains("    core.name = pipewire-0\n"));
    assert!(client_config().contains("application.name = localdesktop-pipewire-aaudio-sink"));
    let pulse = pulse_config("/tmp/pulse/native");
    assert!(pulse.contains("    server.address = [ \"unix:/tmp/pulse/native\" ]\n"));
    assert!(pulse.ends_with("pulse.rules = [ ]\n"));
}
