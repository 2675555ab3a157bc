use entangled_worlds::launcher::{
    check_if_noita_running, linux_start_cmd, runtime_appid, start_cmd_from_args, LaunchTokenResult,
    NoitaLauncher, NoitaStartCmd, ProcessWait, SniperRuntime,
};

fn s(v: &str) -> String {
    v.to_string()
}

#[test]
fn user_start_args_are_split_like_a_shell() {
    let cmd = start_cmd_from_args(Some("wine 'my game.exe' -x")).unwrap();
    assert_eq!(cmd.executable, "wine");
    assert_eq!(cmd.args, vec![s("my game.exe"), s("-x")]);
    assert!(start_cmd_from_args(Some("broken 'quote")).is_none());
    assert!(start_cmd_from_args(Some("   ")).is_none());
    assert!(start_cmd_from_args(None).is_none());
}

#[test]
fn launcher_prefers_user_args_and_wraps_gdb() {
    let default = NoitaStartCmd {
        executable: s("noita.exe"),
        args: vec![],
        steam_install: None,
        noita_compat_data: None,
        noita_install: None,
    };
    let l = NoitaLauncher::new(s("/games/noita"), Some("run.sh a"), true, Some(default));
    let c = l.start_args.as_ref().unwrap();
    assert_eq!(c.executable, "gdbserver");
    assert_eq!(c.args, vec![s("localhost:4123"), s("--"), s("run.sh"), s("a")]);
    assert_eq!(l.launch_token(false), LaunchTokenResult::Granted);
    assert_eq!(l.launch_token(true), LaunchTokenResult::AlreadyStarted);
    let none = NoitaLauncher::new(s("/x"), None, false, None);
    assert_eq!(none.launch_token(false), LaunchTokenResult::CantStart);
    let fallback = NoitaLauncher::new(
        s("/x"),
        Some(""),
        false,
        Some(NoitaStartCmd { executable: s("n"), args: vec![s("q")], steam_install: None, noita_compat_data: None, noita_install: None }),
    );
    assert_eq!(fallback.start_args.as_ref().unwrap().executable, "n");
    assert!(check_if_noita_running(ProcessWait::Running));
    assert!(!check_if_noita_running(ProcessWait::Exited));
}

#[test]
fn proton_runtime_is_read_from_the_manifest() {
    let lines = vec![s("\"manifest\""), s("  \"require_tool_appid\" \"1628350\""), s("x")];
    assert_eq!(runtime_appid(&lines), Some(Some(Some(1628350))));
    assert_eq!(runtime_appid(&[s("\"require_tool_appid\" \"abc\"")]), Some(Some(None)));
    assert_eq!(runtime_appid(&[s("require_tool_appid only")]), Some(None));
    assert_eq!(runtime_appid(&[s("nothing")]), None);
}

#[test]
fn linux_start_command_choice() {
    let manifest = vec![s("\"require_tool_appid\" \"1628350\"")];
    let via_steam = linux_start_cmd(
        s("/steam"), s("/compat"), s("/noita"), s("noita.exe"), s("/proton/proton"),
        &manifest, Some(s("/steam/sniper/_v2-entry-point")), SniperRuntime::Missing,
    ).unwrap();
    assert_eq!(via_steam.executable, "/steam/sniper/_v2-entry-point");
    assert_eq!(via_steam.args, vec![s("--verb=run"), s("/proton/proton"), s("run"), s("noita.exe")]);
    assert_eq!(via_steam.steam_install, Some(s("/steam")));
    let direct = linux_start_cmd(
        s("/steam"), s("/compat"), s("/noita"), s("noita.exe"), s("/proton/proton"),
        &manifest, None, SniperRuntime::Missing,
    ).unwrap();
    assert_eq!(direct.executable, "/proton/proton");
    assert_eq!(direct.args, vec![s("run"), s("noita.exe")]);
    assert!(linux_start_cmd(
        s("/steam"), s("/compat"), s("/noita"), s("noita.exe"), s("/proton/proton"),
        &manifest, None, SniperRuntime::NoParent,
    ).is_none());
}
