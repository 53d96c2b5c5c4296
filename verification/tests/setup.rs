use localdesktop::proot::files::{
    chroot_home_dir, setup_chromium_no_sandbox, setup_fake_bwrap, setup_firefox_config,
    setup_onboard_signal_fix, setup_xfce_wayland, simulate_linux_sysdata_stage, user_manual_path,
    xresources_update, FileOp, Guest,
};
use localdesktop::proot::kv::{parse_kv_lines, render_kv_lines, set_kv_value, upsert_kv, KvLine};
use localdesktop::proot::machine_id::{
    generate_machine_id, is_valid_machine_id, machine_id_update,
};
use localdesktop::proot::pacman::{
    ensure_pacman_ignore_pkg, lock_update, merge_pacman_list, pipewire_guest_lock_packages,
    remove_pacman_ignore_pkg, unlock_update,
};
use localdesktop::proot::setup::{
    download_message, download_percent, install_attempt, setup_arch_fs, stage_at, FsAction,
    FsPhase, FsReport, InstallStep, Setup, SetupAction, SetupMessage, SetupReport, Stage,
};
use localdesktop::proot::xkb::{fix_xkb_symlink, link_error, link_target};

fn names(v: &[&str]) -> Vec<String> {
    v.iter().map(|s| s.to_string()).collect()
}

fn progress(m: SetupMessage) -> String {
    match m {
        SetupMessage::Progress(s) => s,
        SetupMessage::Error(_) => panic!("expected progress"),
    }
}

fn failure(m: SetupMessage) -> String {
    match m {
        SetupMessage::Error(s) => s,
        SetupMessage::Progress(_) => panic!("expected an error"),
    }
}

// -- pacman ------------------------------------------------------------------

#[test]
fn packages_are_added_to_an_active_line() {
    let conf = "# x\n[options]\nHoldPkg = pacman\n  IgnorePkg = foo  bar\n[core]\nIgnorePkg = z\n";
    assert_eq!(
        ensure_pacman_ignore_pkg(conf, &names(&["bar", "baz"])),
        "# x\n[options]\nHoldPkg = pacman\nIgnorePkg   = foo bar baz\n[core]\nIgnorePkg = z\n"
    );
    assert_eq!(merge_pacman_list(" a  b ", &names(&["b", "c", "c"])), "a b c");
}

#[test]
fn a_line_goes_behind_the_last_comment() {
    let conf = "[options]\n#IgnorePkg   =\n# IgnorePkg = x\nColor\n";
    assert_eq!(
        ensure_pacman_ignore_pkg(conf, &names(&["a", "b"])),
        "[options]\n#IgnorePkg   =\n# IgnorePkg = x\nIgnorePkg   = a b\nColor\n"
    );
    assert_eq!(
        ensure_pacman_ignore_pkg("[options]\nColor", &names(&["a"])),
        "[options]\nIgnorePkg   = a\nColor\n"
    );
}

#[test]
fn a_section_is_added_where_there_is_none() {
    assert_eq!(
        ensure_pacman_ignore_pkg("", &names(&["a"])),
        "[options]\nIgnorePkg   = a\n"
    );
    assert_eq!(
        ensure_pacman_ignore_pkg("[core]\n", &names(&["a"])),
        "[core]\n\n[options]\nIgnorePkg   = a\n"
    );
}

#[test]
fn packages_are_let_go_in_every_line() {
    let conf = "[options]\nIgnorePkg = a b\nIgnorePkg=a\n#IgnorePkg = a\n[x]\nIgnorePkg = a\n";
    assert_eq!(
        remove_pacman_ignore_pkg(conf, &names(&["a"])),
        "[options]\nIgnorePkg   = b\nIgnorePkg   =\n#IgnorePkg = a\n[x]\nIgnorePkg = a\n"
    );
    assert_eq!(remove_pacman_ignore_pkg("x", &names(&["a"])), "x\n");
    assert_eq!(remove_pacman_ignore_pkg("", &names(&["a"])), "\n");
}

#[test]
fn holding_twice_is_holding_once() {
    let conf = "[options]\n#IgnorePkg   =\r\nColor\n[extra]\n";
    let once = lock_update(conf).unwrap();
    assert!(once.contains("IgnorePkg   = libpipewire pipewire pipewire-alsa"));
    assert_eq!(lock_update(&once), None);
    let freed = unlock_update(&once).unwrap();
    assert!(freed.contains("IgnorePkg   =\n"));
    assert_eq!(unlock_update(&freed), None);
    assert_eq!(pipewire_guest_lock_packages().len(), 10);
}

#[test]
fn a_second_carriage_return_is_taken_off_on_reading_again() {
    let once = ensure_pacman_ignore_pkg("a\r\r\n[options]\n", &names(&["p"]));
    assert_eq!(once, "a\r\n[options]\nIgnorePkg   = p\n");
    let twice = ensure_pacman_ignore_pkg(&once, &names(&["p"]));
    assert_eq!(twice, "a\n[options]\nIgnorePkg   = p\n");
}

// -- keys and values ---------------------------------------------------------

#[test]
fn keys_are_set_wherever_they_stand() {
    let conf = "! note\n  Xft.dpi : 96\nXft.rgba: none\nXft.dpi:120\n: empty\nplain";
    let updates = vec![("Xft.dpi".to_string(), "192".to_string())];
    let got = upsert_kv(conf, ':', &updates);
    assert_eq!(
        got,
        "! note\n  Xft.dpi: 192\nXft.rgba: none\nXft.dpi: 192\n: empty\nplain\n"
    );
    assert_eq!(upsert_kv(&got, ':', &updates), got);
}

#[test]
fn a_missing_key_is_added() {
    assert_eq!(xresources_update("", 2), "Xft.dpi: 192\n");
    assert_eq!(xresources_update("a: b\n", 3), "a: b\nXft.dpi: 288\n");
}

#[test]
fn lines_are_parsed_and_rendered() {
    let mut ls = parse_kv_lines("# c\n key = v = w \n\n", '=');
    assert_eq!(ls.len(), 3);
    match &ls[1] {
        KvLine::Entry { key, value, prefix, delimiter } => {
            assert_eq!((key.as_str(), value.as_str()), ("key", "v = w"));
            assert_eq!((prefix.as_str(), *delimiter), (" ", '='));
        }
        KvLine::Other(_) => panic!("expected an entry"),
    }
    set_kv_value(&mut ls, "key", "1", '=');
    set_kv_value(&mut ls, "new", "2", '=');
    assert_eq!(render_kv_lines(&ls), "# c\n key= 1\n\nnew= 2\n");
}

#[test]
fn written_lines_are_read_again() {
    let content = "! c\n  a :  b : c \nno value\nd:\n";
    let written = render_kv_lines(&parse_kv_lines(content, ':'));
    assert_eq!(written, "! c\n  a: b : c\nno value\nd: \n");
    let again = parse_kv_lines(&written, ':');
    assert_eq!(render_kv_lines(&again), written);
    assert!(matches!(&again[1], KvLine::Entry { key, value, .. } if key == "a" && value == "b : c"));
}

// -- machine id --------------------------------------------------------------

#[test]
fn machine_ids_are_checked() {
    assert!(is_valid_machine_id(" 0123456789abcdefABCDEF0123456789\n"));
    assert!(!is_valid_machine_id(&"0".repeat(32)));
    assert!(!is_valid_machine_id(&"1".repeat(31)));
    assert!(!is_valid_machine_id(&"g".repeat(32)));
    assert!(!is_valid_machine_id(&"é".repeat(16)));
    assert!(!is_valid_machine_id(""));
}

#[test]
fn machine_ids_are_made() {
    let uuid = Some("0A1B2C3D-0000-4000-8000-00000000000F\n".to_string());
    assert_eq!(generate_machine_id(&uuid, 1, 2), "0a1b2c3d00004000800000000000000f");
    assert_eq!(generate_machine_id(&None, 0xabc, 255), "0000000000000abc00000000000000ff");
    let bad = Some("none".to_string());
    let id = generate_machine_id(&bad, 1, 0);
    assert_eq!(id, "00000000000000010000000000000000");
    assert!(is_valid_machine_id(&id));
    assert!(!is_valid_machine_id(&generate_machine_id(&None, 0, 0)));
    assert_eq!(machine_id_update(&id, &None, 5, 5), None);
    assert_eq!(machine_id_update("", &None, 1, 0), Some(format!("{id}\n")));
}

// -- stages ------------------------------------------------------------------

#[test]
fn the_desktop_starts_when_nothing_was_due() {
    let mut s = Setup::new();
    match s.step(SetupReport::Supported(true)) {
        SetupAction::Run(stage, Some(m)) => {
            assert!(stage == Stage::ArchFs);
            assert_eq!(progress(m), "✅ Your device is supported!");
        }
        _ => panic!("expected a stage"),
    }
    for i in 1..11 {
        match s.step(SetupReport::Stage { working: false }) {
            SetupAction::Run(stage, None) => assert!(stage == stage_at(i)),
            _ => panic!("expected a stage"),
        }
    }
    assert!(matches!(s.step(SetupReport::Stage { working: false }), SetupAction::StartDesktop));
    assert_eq!(s.progress, 0);
}

#[test]
fn work_is_waited_for_and_progress_rises() {
    let mut s = Setup::new();
    s.step(SetupReport::Supported(true));
    s.step(SetupReport::Stage { working: false });
    s.step(SetupReport::Stage { working: false });
    assert!(matches!(
        s.step(SetupReport::Stage { working: true }),
        SetupAction::Wait { first: true }
    ));
    assert_eq!(s.progress, 18);
    assert!(matches!(
        s.step(SetupReport::Joined(Ok(()))),
        SetupAction::Run(Stage::MachineId, None)
    ));
    assert_eq!(s.progress, 27);
    assert!(matches!(
        s.step(SetupReport::Stage { working: true }),
        SetupAction::Wait { first: false }
    ));
    s.step(SetupReport::Joined(Ok(())));
    for _ in 4..10 {
        s.step(SetupReport::Stage { working: false });
    }
    assert_eq!(s.progress, 90);
    match s.step(SetupReport::Stage { working: false }) {
        SetupAction::Finish(m) => {
            assert_eq!(progress(m), "Installation finished, please restart the app")
        }
        _ => panic!("expected the end"),
    }
    assert_eq!(s.progress, 100);
}

#[test]
fn failures_are_reported() {
    let fail = |e: Option<String>| {
        let mut s = Setup::new();
        s.step(SetupReport::Supported(true));
        s.step(SetupReport::Stage { working: true });
        match s.step(SetupReport::Joined(Err(e))) {
            SetupAction::Fail(m) => failure(m),
            _ => panic!("expected a failure"),
        }
    };
    assert_eq!(fail(Some("disk".to_string())), "Stage execution failed: disk");
    assert_eq!(fail(None), "Stage execution failed: Unknown error");
    let mut s = Setup::new();
    assert!(matches!(s.step(SetupReport::Supported(false)), SetupAction::ShowUnsupported));
}

#[test]
fn a_broken_archive_is_downloaded_again() {
    let (p, a, m) = setup_arch_fs(FsPhase::Looking, FsReport::Archive(false));
    assert!(p == FsPhase::Downloading && a == FsAction::Download);
    assert_eq!(progress(m.unwrap()), "Downloading Arch Linux FS...");
    let (p, a, m) = setup_arch_fs(p, FsReport::Downloaded);
    assert!(p == FsPhase::Extracting && a == FsAction::Extract);
    assert_eq!(progress(m.unwrap()), "Extracting Arch Linux FS...");
    let (p, a, m) = setup_arch_fs(p, FsReport::Extracted(Err("bad xz".to_string())));
    assert!(p == FsPhase::Looking && a == FsAction::Discard);
    assert_eq!(
        failure(m.unwrap()),
        "Failed to extract Arch Linux FS: bad xz. Restarting download..."
    );
    let (p, _, _) = setup_arch_fs(p, FsReport::Archive(true));
    let (p, a, m) = setup_arch_fs(p, FsReport::Extracted(Ok(())));
    assert!(p == FsPhase::Over && a == FsAction::Install && m.is_none());
}

#[test]
fn downloads_are_reported_in_whole_percent() {
    assert_eq!(download_percent(5, 0, 0), None);
    assert_eq!(download_percent(0, 1000, 0), None);
    assert_eq!(download_percent(19, 1000, 0), Some(1));
    assert_eq!(download_percent(19, 1000, 1), None);
    assert_eq!(download_percent(3000, 1000, 99), Some(100));
    assert_eq!(
        progress(download_message(42, "1.50", "3.57")),
        "Downloading Arch Linux FS... 42% (1.50 MB / 3.57 MB)"
    );
}

#[test]
fn ten_attempts_are_made() {
    assert!(matches!(install_attempt(1, true), InstallStep::Installed));
    match install_attempt(9, false) {
        InstallStep::Retry(m) => {
            assert_eq!(progress(m), "Retrying installation... (attempt 9/10)")
        }
        _ => panic!("expected a retry"),
    }
    match install_attempt(10, false) {
        InstallStep::GiveUp(m, e) => {
            assert_eq!(progress(m), "Retrying installation... (attempt 10/10)");
            assert_eq!(
                failure(e),
                "Failed to install desktop dependencies after 10 attempts. Please check your net connection and try restarting the app."
            );
        }
        _ => panic!("expected the end"),
    }
}

// -- files -------------------------------------------------------------------

#[test]
fn homes_lie_in_the_guest() {
    assert_eq!(chroot_home_dir("/arch", "root"), "/arch/root");
    assert_eq!(chroot_home_dir("/arch", "teddy"), "/arch/home/teddy");
    assert_eq!(
        user_manual_path("/arch", "teddy"),
        "/arch/home/teddy/Desktop/Local Desktop - User Manual.pdf"
    );
}

#[test]
fn wrappers_are_made_executable() {
    let v = setup_fake_bwrap("/arch");
    assert_eq!(v.len(), 3);
    assert_eq!(v[0].path, "/arch/usr/local/bin");
    assert_eq!(v[1].path, "/arch/usr/local/bin/bwrap");
    assert!(v[1].text.ends_with("exec \"$@\"\n"));
    assert!(v[2].op == FileOp::Mode(0o755));
    assert_eq!(v[2].fatal.as_deref(), Some("Failed to mark bwrap wrapper executable"));
    let v = setup_onboard_signal_fix("/arch");
    assert!(v[1].text.starts_with("#!/usr/bin/python3\n"));
    let v = setup_chromium_no_sandbox("/arch");
    assert_eq!(v.len(), 6);
    assert_eq!(v[4].path, "/arch/usr/local/bin/chromium");
    assert!(v[1].text.contains("target_dir=\"${XDG_DATA_HOME:-$HOME/.local/share}/applications\""));
}

#[test]
fn system_data_are_simulated() {
    let v = simulate_linux_sysdata_stage("/arch");
    assert_eq!(v.len(), 13);
    assert!(v[3].op == FileOp::Mode(0o700));
    assert_eq!(v[6].path, "/arch/proc/.loadavg");
    assert_eq!(v[6].text, "0.12 0.07 0.02 2/165 765\n");
    assert_eq!(v[12].path, "/arch/proc/.sysctl_inotify_max_user_watches");
    assert_eq!(
        v[9].fatal.as_deref(),
        Some("Permission denied while writing to proc/.version")
    );
}

#[test]
fn firefox_is_configured() {
    let v = setup_firefox_config("/arch");
    assert_eq!(v[2].path, "/arch/usr/lib/firefox/defaults/pref/autoconfig.js");
    assert!(v[2].text.starts_with("pref(\"general.config.filename\", \"localdesktop.cfg\");\n"));
    assert!(v[3].text.starts_with("// "));
    assert_eq!(v[3].fatal.as_deref(), Some("Failed to write Firefox configuration"));
}

#[test]
fn the_session_is_set_up() {
    let g = Guest {
        root: "/arch".to_string(),
        home: "/arch/home/u".to_string(),
        pipewire_runtime_dir: "/tmp".to_string(),
        pulse_server: "unix:/tmp/pulse/native".to_string(),
        docs_url: "https://example.org".to_string(),
    };
    let v = setup_xfce_wayland(&g, 2);
    assert_eq!(v.len(), 30);
    assert!(v[2].text.contains("<property name=\"DPI\" type=\"int\" value=\"192\"/>"));
    assert!(v[4].text.contains(
        "export PULSE_SERVER=unix:/tmp/pulse/native\n: \"${XDG_RUNTIME_DIR:=/tmp}\"\nexport"
    ));
    assert!(v[7].text.contains("-p /Xft/DPI -t int -s 192\n"));
    assert!(v[10].op == FileOp::WriteMissing);
    assert!(v[10].text.contains("Exec=firefox https://example.org\n"));
    assert!(v[20].text.contains("fallback_scale=\"2\"\n"));
    assert!(v[20].text.contains("first_output() {\n"));
    assert_eq!(v[28].path, "/arch/home/u/.config/xfce4/labwc/lock");
    assert_eq!(v[28].text, "");
    assert!(v[29].op == FileOp::Remove);
}

// -- keyboard ----------------------------------------------------------------

#[test]
fn an_absolute_keyboard_link_is_made_relative() {
    assert_eq!(
        fix_xkb_symlink("/usr/share/xkeyboard-config-2"),
        Some("../xkeyboard-config-2".to_string())
    );
    assert_eq!(fix_xkb_symlink("../xkeyboard-config-2"), None);
    assert_eq!(link_target(None), "/usr/share/xkeyboard-config-2");
    assert_eq!(link_target(Some("x".to_string())), "x");
    assert_eq!(link_error("e"), "Failed to create relative symlink for xkb: e");
}
