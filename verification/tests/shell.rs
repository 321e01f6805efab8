use dsh_shell::background::{bg_state_json, cached_image, encode_image};
use dsh_shell::control::{
    authorized, opacity_param, picked_body, read_request, refusal, response, route, serve_control,
    serve_text, settled_body, window_state, Route, Step,
};
use dsh_shell::digest::hex;
use dsh_shell::encoding::before;
use dsh_shell::launch::{
    about_text, boot_failed_script, claim_single_instance, exit_code, http_ready, kill_tree, lock_reply,
    make_control_token, no_port_message, panel_script, pick_port, ready_request, server_args,
    token_from, token_of, tray_action, wait_ready, Claim, Kill, Scan, Shell, ShellAction, ShellEvent, TrayAction,
    WaitAction, WaitEvent, CONTROL_PORT, HOST, LOCK_PORT, PORT_FIRST, PORT_LAST, READY_NS,
};
use dsh_shell::paths::{
    bg_image_path, bg_opacity_path, data_dir, dsh_home, log_dir, profile_manifest, update_dir, Base,
    ServerSpec,
};
use dsh_shell::reply::{error_reply, join, ok_body};
use dsh_shell::speech::{
    failure, lingering, mic_mismatch, on_start, parked, place_session, run_session, start, status,
    stop, stopped, Leftover, Next, Stage, StartAction, StartEvent, StartOutcome, StopStep,
    Transcript, Wait, GRACE_NS, START_SECS, TEARDOWN_SECS,
};
use dsh_shell::text::{after_prefix, contains, cut, next_word, param, same, split_on, to_lower, trim, unbreak};

fn json(text: &str) -> serde_json::Value {
    serde_json::from_str(text).unwrap()
}

fn sent(step: Step) -> String {
    match step {
        Step::Send(s) => s,
        Step::Run(route, _) => format!("{route:?}"),
    }
}

const FORBIDDEN: &str = "HTTP/1.1 403 Forbidden\r\nContent-Length: 0\r\nConnection: close\r\n\r\n";

// ------------------------------------------------------------ the control channel

#[test]
fn requests_are_taken_apart() {
    let r = read_request("GET /bg/opacity?t=abc&v=0.3 HTTP/1.1\r\nHost: x\r\n\r\n");
    assert_eq!(r.method, "GET");
    assert_eq!(r.path, "/bg/opacity");
    assert_eq!(r.query, "t=abc&v=0.3");
    let r = read_request("");
    assert_eq!((r.method.as_str(), r.path.as_str(), r.query.as_str()), ("", "/", ""));
    let r = read_request("  GET\t/a?b?c  x");
    assert_eq!((r.method.as_str(), r.path.as_str(), r.query.as_str()), ("GET", "/a", "b?c"));
}

#[test]
fn nothing_is_served_without_the_token() {
    for path in [
        "/bg/state", "/bg/pick", "/win/state", "/win/quit", "/win/update/check",
        "/win/update/install", "/speech/start", "/plugin/list", "/plugin/install", "/nowhere",
    ] {
        for line in [
            format!("GET {path} HTTP/1.1"),
            format!("GET {path}?t=wrong HTTP/1.1"),
            format!("GET {path}?x=token HTTP/1.1"),
            format!("GET {path}?tt=token HTTP/1.1"),
            format!("POST {path}?t=token HTTP/1.1"),
            format!("get {path}?t=token HTTP/1.1"),
        ] {
            assert_eq!(sent(serve_text(&line, "token", Some(3177))), FORBIDDEN, "{line}");
            assert_eq!(sent(serve_control(line.as_bytes(), "token", None)), FORBIDDEN, "{line}");
        }
    }
    assert_eq!(refusal(), FORBIDDEN);
}

#[test]
fn the_token_opens_every_path() {
    let q = |path: &str| serve_text(&format!("GET {path}?a=b&t=token HTTP/1.1\r\n"), "token", None);
    assert_eq!(sent(q("/bg/pick")), "BgPick");
    assert_eq!(sent(q("/plugin/ensure-pnpm")), "PluginEnsurePnpm");
    assert!(sent(q("/nowhere")).ends_with("\r\n\r\n{\"ok\":false}"));
    assert!(sent(q("/win/fullscreen")).ends_with("\r\n\r\n{\"ok\":true}"));
    assert!(sent(q("/win/unheard-of")).ends_with("\r\n\r\n{\"ok\":true}"));
    assert!(sent(q("/win/state")).ends_with("\r\n\r\n{\"url\":null}"));
    match serve_control(b"GET /bg/opacity?v=0.5&t=token \xff", "token", None) {
        Step::Run(route, query) => {
            assert_eq!(route, Route::BgOpacity);
            assert_eq!(opacity_param(&query), Some("0.5"));
        }
        Step::Send(_) => panic!("not run"),
    }
    let r = read_request("GET /x?t=a&t=token");
    assert!(authorized(&r, "token"));
    assert!(!authorized(&r, "b"));
}

#[test]
fn routes_have_their_paths() {
    for (path, expected) in [
        ("/bg/state", Route::BgState),
        ("/bg/pick", Route::BgPick),
        ("/bg/clear", Route::BgClear),
        ("/bg/opacity", Route::BgOpacity),
        ("/win/state", Route::WinState),
        ("/win/drag", Route::WinDrag),
        ("/win/min", Route::WinMinimize),
        ("/win/max", Route::WinToggleMaximize),
        ("/win/fullscreen", Route::WinFullscreen),
        ("/win/devtools", Route::WinDevtools),
        ("/win/close", Route::WinHide),
        ("/win/quit", Route::WinQuit),
        ("/win/restart", Route::WinRestart),
        ("/win/about", Route::WinAbout),
        ("/win/update/check", Route::UpdateCheck),
        ("/win/update/start", Route::UpdateStart),
        ("/win/update/status", Route::UpdateStatus),
        ("/win/update/install", Route::UpdateInstall),
        ("/win/update/open", Route::UpdateOpen),
        ("/speech/start", Route::SpeechStart),
        ("/speech/stop", Route::SpeechStop),
        ("/speech/status", Route::SpeechStatus),
        ("/plugin/list", Route::PluginList),
        ("/plugin/catalog", Route::PluginCatalog),
        ("/plugin/status", Route::PluginStatus),
        ("/plugin/install", Route::PluginInstall),
        ("/plugin/remove", Route::PluginRemove),
        ("/plugin/ensure-pnpm", Route::PluginEnsurePnpm),
        ("/win/", Route::WinOther),
        ("/win", Route::Unknown),
        ("/", Route::Unknown),
    ] {
        assert_eq!(route(path), expected, "{path}");
    }
    assert_eq!(settled_body(Route::WinQuit).as_deref(), Some("{\"ok\":true}"));
    assert_eq!(settled_body(Route::BgClear).as_deref(), Some("{\"ok\":true}"));
    assert_eq!(settled_body(Route::Unknown).as_deref(), Some("{\"ok\":false}"));
    assert_eq!(settled_body(Route::BgState), None);
}

#[test]
fn responses_count_bytes() {
    assert_eq!(
        response("{\"x\":\"中\"}"),
        "HTTP/1.1 200 OK\r\nContent-Type: application/json\r\nAccess-Control-Allow-Origin: *\r\nContent-Length: 11\r\nConnection: close\r\n\r\n{\"x\":\"中\"}"
    );
    assert_eq!(window_state(Some(3180)), "{\"url\":\"http://127.0.0.1:3180\"}");
    assert_eq!(window_state(None), "{\"url\":null}");
    assert_eq!(picked_body(true), "{\"ok\":true}");
    assert_eq!(picked_body(false), "{\"ok\":false}");
    assert_eq!(ok_body(), "{\"ok\":true}");
    assert_eq!(error_reply("a\"b"), "{\"error\":\"a\\\"b\",\"ok\":false}");
    assert_eq!(join("a", "b"), "ab");
}

#[test]
fn texts_are_cut_and_compared() {
    assert_eq!(trim("\u{3000} a b\t\n"), "a b");
    assert_eq!(trim(" "), "");
    assert_eq!(unbreak("a\r\nb c\n"), "ab c");
    assert_eq!(split_on("a&&b", '&'), ["a", "", "b"]);
    assert_eq!(split_on("", '&'), [""]);
    assert_eq!(after_prefix("t=x", "t="), Some("x"));
    assert_eq!(after_prefix("x", "t="), None);
    assert!(contains("my-setup.exe", "setup"));
    assert!(!contains("set", "setup"));
    assert!(same("中", "中") && !same("a", "A"));
    assert_eq!(next_word("  ab cd"), ("ab", " cd"));
    assert_eq!(cut("a?b?c", '?'), ("a", "b?c"));
    assert_eq!(cut("abc", '?'), ("abc", ""));
    assert_eq!(param("a=1&v=2&v=3", "v="), Some("2"));
    assert_eq!(to_lower("ABC-É"), "abc-É");
    assert!(before("B", "a") && before("a", "ab") && !before("a", "a") && before("z", "中"));
}

// ------------------------------------------------------------ launching

#[test]
fn tokens_are_hexadecimal() {
    assert_eq!(token_of(&[0, 1, 0xab, 0xff]), "0001abff");
    assert_eq!(hex(&[]), "");
    assert_eq!(token_from(Ok(vec![0xab; 16])), Ok("ab".repeat(16)));
    assert_eq!(token_from(Err("no source".to_string())), Err("no source".to_string()));
    let a = make_control_token().unwrap();
    let b = make_control_token().unwrap();
    assert_eq!(a.len(), 32);
    assert!(a.chars().all(|c| c.is_ascii_digit() || ('a'..='f').contains(&c)));
    assert_ne!(a, b);
    let line = format!("GET /bg/pick?t={a} HTTP/1.1");
    assert_eq!(sent(serve_text(&line, &a, None)), "BgPick");
    assert_eq!(sent(serve_text(&line, &b, None)), FORBIDDEN);
}

#[test]
fn the_script_gets_the_token() {
    assert_eq!(panel_script("t='__DSH_TOKEN__';u='__DSH_TOKEN__'", "ab"), "t='ab';u='ab'");
    assert_eq!(panel_script("___DSH_TOKEN__ 中", "x"), "_x 中");
    assert_eq!(panel_script("__DSH_TOKEN_", "x"), "__DSH_TOKEN_");
    assert_eq!(panel_script("", "x"), "");
}

#[test]
fn a_second_launch_hands_off() {
    assert_eq!(lock_reply(), "dsh-lock-ok");
    assert_eq!(claim_single_instance(true, None), Claim::Own);
    assert_eq!(claim_single_instance(false, Some(b"dsh-lock-ok")), Claim::HandOff);
    assert_eq!(claim_single_instance(false, Some(lock_reply().as_bytes())), Claim::HandOff);
    for reply in [&b"dsh-lock-o"[..], &b"dsh-lock-ok!"[..], &b""[..], &b"HTTP/1.1 200 OK"[..]] {
        assert_eq!(claim_single_instance(false, Some(reply)), Claim::Refuse);
    }
    assert_eq!(claim_single_instance(false, None), Claim::Refuse);
    assert_eq!(exit_code(Claim::Own), None);
    assert_eq!(exit_code(Claim::HandOff), Some(0));
    assert_eq!(exit_code(Claim::Refuse), Some(1));
}

#[test]
fn the_lowest_free_port_is_taken() {
    let scan = |free: &[u16]| {
        let mut port = PORT_FIRST;
        loop {
            match pick_port(port, free.contains(&port)) {
                Scan::Take(p) => return Some(p),
                Scan::Try(p) => port = p,
                Scan::Exhausted => return None,
            }
        }
    };
    assert_eq!(scan(&[3177, 3178]), Some(3177));
    assert_eq!(scan(&[3186, 3180]), Some(3180));
    assert_eq!(scan(&[3186]), Some(3186));
    assert_eq!(scan(&[3175, 3176, 3187]), None);
    assert_eq!(no_port_message(), "no free port in 3177..=3186");
    assert_eq!((CONTROL_PORT, LOCK_PORT, PORT_LAST, HOST), (3175, 3176, 3186, "127.0.0.1"));
}

#[test]
fn the_server_is_asked_over_http() {
    assert_eq!(server_args("/b/bin.js", 3179), ["/b/bin.js", "web", "--port", "3179"]);
    assert_eq!(ready_request(3177), "GET / HTTP/1.0\r\nHost: 127.0.0.1:3177\r\n\r\n");
    assert!(http_ready(b"HTTP/1.1 200 OK"));
    assert!(http_ready(b"HTTP/1.1 302"));
    assert!(!http_ready(b"HTTP/1.1 404 Not"));
    assert!(!http_ready(b"HTTP/1.1 503 Un"));
    assert!(!http_ready(b"HTTP/1.1 20"));
    assert!(!http_ready(b""));
}

#[test]
fn the_server_is_waited_for() {
    assert!(matches!(wait_ready(3177, WaitEvent::Elapsed(0)), WaitAction::PollChild));
    assert!(matches!(wait_ready(3177, WaitEvent::Elapsed(READY_NS - 1)), WaitAction::PollChild));
    match wait_ready(3177, WaitEvent::Elapsed(READY_NS)) {
        WaitAction::Fail(e) => {
            assert_eq!(e, "timed out waiting for dsh web server on port 3177")
        }
        _ => panic!("waits on"),
    }
    match wait_ready(3177, WaitEvent::Child(Some("exit status: 1".to_string()))) {
        WaitAction::Fail(e) => {
            assert_eq!(e, "dsh web exited before becoming ready: exit status: 1")
        }
        _ => panic!("waits on"),
    }
    assert!(matches!(wait_ready(3177, WaitEvent::Child(None)), WaitAction::Probe));
    assert!(matches!(wait_ready(3177, WaitEvent::Probed(true)), WaitAction::Ready));
    assert!(matches!(wait_ready(3177, WaitEvent::Probed(false)), WaitAction::Sleep(500)));
}

#[test]
fn the_server_is_killed_with_its_tree() {
    let shown = |windows: bool| -> Vec<String> {
        kill_tree(42, windows)
            .iter()
            .map(|k| match k {
                Kill::Run(program, args) => format!("{program} {}", args.join(" ")),
                Kill::Sleep(ms) => format!("sleep {ms}"),
            })
            .collect()
    };
    assert_eq!(shown(true), ["taskkill /PID 42 /T", "sleep 1500", "taskkill /PID 42 /T /F"]);
    assert_eq!(shown(false), ["kill -TERM 42"]);
}

#[test]
fn closing_hides_until_the_end() {
    let mut shell = Shell::new();
    assert_eq!(shell.on(ShellEvent::CloseRequested), ShellAction::Hide);
    assert_eq!(shell.on(ShellEvent::BootFailed), ShellAction::ReportFailure(None));
    assert_eq!(shell.on(ShellEvent::Started(9)), ShellAction::Nothing);
    assert_eq!(shell.on(ShellEvent::BootFailed), ShellAction::ReportFailure(Some(9)));
    assert_eq!(shell.on(ShellEvent::Ready(3177)), ShellAction::Nothing);
    assert_eq!(shell.ready, Some(3177));
    assert_eq!(shell.on(ShellEvent::CloseRequested), ShellAction::Hide);
    assert_eq!(shell.on(ShellEvent::ExitRequested), ShellAction::Kill(Some(9)));
    assert_eq!(shell.on(ShellEvent::CloseRequested), ShellAction::Close);
}

#[test]
fn the_tray_has_its_items() {
    assert_eq!(tray_action("show"), TrayAction::Show);
    assert_eq!(tray_action("bg"), TrayAction::PickBackground);
    assert_eq!(tray_action("bg_clear"), TrayAction::ClearBackground);
    assert_eq!(tray_action("quit"), TrayAction::Quit);
    assert_eq!(tray_action("other"), TrayAction::Nothing);
    assert_eq!(
        boot_failed_script(),
        "document.getElementById('status').textContent = '后端启动失败，请查看日志后重启应用';"
    );
    assert_eq!(
        about_text("0.4.0"),
        "DeepSeek Harness 桌面客户端\nTauri 2 壳 + dsh web 后端\n版本 0.4.0"
    );
}

#[test]
fn files_have_their_places() {
    assert_eq!(data_dir(), ["dsh-desktop-shell-tauri"]);
    assert_eq!(bg_image_path(), ["dsh-desktop-shell-tauri", "background.img"]);
    assert_eq!(bg_opacity_path(), ["dsh-desktop-shell-tauri", "background.opacity"]);
    assert_eq!(update_dir(), ["dsh-desktop-shell-tauri", "updates"]);
    assert_eq!(dsh_home(), ["dsh-desktop-shell-tauri", "dsh-home"]);
    assert_eq!(log_dir(), ["dsh-desktop-shell-tauri", "logs"]);
    assert_eq!(profile_manifest(), ["profiles", "web", "package.json"]);
    let packaged = ServerSpec::resolve(true);
    assert_eq!(packaged.node.base, Base::Executable);
    assert_eq!(packaged.node.parts.join("/"), "resources/node/dsh-node.exe");
    assert_eq!(
        packaged.bin.parts.join("/"),
        "resources/dsh-runtime/node_modules/@deepseek-ai/dsh/lib/bin.js"
    );
    assert_eq!(packaged.log_file.unwrap().parts.join("/"), "dsh-desktop-shell-tauri/logs/dsh.log");
    let dev = ServerSpec::resolve(false);
    assert_eq!((dev.node.base, dev.node.parts.join("/").as_str()), (Base::Programs, "node"));
    assert_eq!(dev.bin.base, Base::Workspace);
    assert_eq!(dev.bin.parts.join("/"), "node_modules/@deepseek-ai/dsh/lib/bin.js");
    assert!(dev.log_file.is_none());
    assert_eq!(dev.dsh_home.parts, packaged.dsh_home.parts);
}

// ------------------------------------------------------------ the background

#[test]
fn pictures_are_cached_by_time() {
    let mut cache = None;
    assert_eq!(cached_image(&cache, Some(5)), None);
    let uri = "data:image/png;base64,/wBhYg==";
    let image = encode_image(&mut cache, Some(5), Some(&[0xff, 0x00, b'a', b'b']));
    assert_eq!(image.as_deref(), Some(uri));
    assert_eq!(cached_image(&cache, Some(5)).as_deref(), Some(uri));
    assert_eq!(cached_image(&cache, Some(6)), None);
    assert_eq!(cached_image(&cache, None), None);
    // Nothing is kept of a file whose time is not known, or that could not be read.
    let image = encode_image(&mut cache, None, Some(b"x"));
    assert_eq!(image.as_deref(), Some("data:image/png;base64,eA=="));
    assert_eq!(encode_image(&mut cache, Some(9), None), None);
    assert_eq!(cached_image(&cache, Some(5)).as_deref(), Some(uri));
}

#[test]
fn background_state_is_json() {
    let text = bg_state_json(&0.18f32.to_string(), Some("data:image/png;base64,eA==".to_string()));
    assert_eq!(text, "{\"opacity\":0.18,\"image\":\"data:image/png;base64,eA==\"}");
    assert_eq!(json(&text)["image"], "data:image/png;base64,eA==");
    let text = bg_state_json("0.6", None);
    assert_eq!(text, "{\"opacity\":0.6,\"image\":null}");
    assert!(json(&text)["image"].is_null());
}

// ------------------------------------------------------------ speech

#[test]
fn a_start_takes_its_steps() {
    let mut stage = Stage::Com;
    let mut taken = vec![stage];
    loop {
        match run_session(stage, Ok(())) {
            Next::Step(s) => {
                stage = s;
                taken.push(s);
            }
            Next::Live => break,
            Next::Failed { .. } => panic!("failed"),
        }
    }
    assert_eq!(
        taken,
        [
            Stage::Com,
            Stage::Recognizer,
            Stage::Session,
            Stage::Register,
            Stage::Compile,
            Stage::Accept,
            Stage::Begin
        ]
    );
}

#[test]
fn a_failed_start_takes_its_handler_back() {
    for (stage, said, back) in [
        (Stage::Com, "COM 初始化失败：e", false),
        (Stage::Recognizer, "无法创建语音识别器（检查系统设置中是否允许应用使用麦克风）：e", false),
        (Stage::Session, "无法初始化连续识别：e", false),
        (Stage::Register, "注册识别事件失败：e", false),
        (Stage::Compile, "编译语音识别约束失败：e", true),
        (Stage::Accept, "语音识别约束编译未通过", true),
        (Stage::Begin, "启动识别失败（检查系统设置中是否允许应用使用麦克风）：e", true),
    ] {
        match run_session(stage, Err("e".to_string())) {
            Next::Failed { message, unregister } => {
                assert_eq!(message, said);
                assert_eq!(unregister, back);
            }
            _ => panic!("goes on"),
        }
        assert_eq!(failure(stage, "e"), said);
    }
}

#[test]
fn the_last_words_are_kept() {
    let mut t = Transcript::new();
    assert_eq!((t.text.as_str(), t.finalized), ("", false));
    t.on_result(Some("hel"), Some(false));
    t.on_result(Some("hello"), None);
    t.on_result(Some(""), Some(true));
    assert_eq!((t.text.as_str(), t.finalized), ("hello", true));
    t.on_result(None, Some(false));
    assert_eq!((t.text.as_str(), t.finalized), ("hello", true));
}

#[test]
fn workers_wait_a_little() {
    assert_eq!(parked(false), Wait::Sleep(50));
    assert_eq!(parked(true), Wait::Over);
    assert_eq!(lingering(false, GRACE_NS - 1), Wait::Sleep(30));
    assert_eq!(lingering(false, GRACE_NS), Wait::Over);
    assert_eq!(lingering(true, 0), Wait::Over);
    assert_eq!((START_SECS, TEARDOWN_SECS), (10, 6));
}

#[test]
fn a_start_takes_down_what_was_there() {
    let mut slot = Some(1);
    assert!(matches!(on_start(&mut slot, StartEvent::Asked), StartAction::TearDown(1)));
    assert_eq!(slot, None);
    assert!(matches!(on_start(&mut slot, StartEvent::TornDown), StartAction::Spawn));
    assert!(matches!(on_start(&mut slot, StartEvent::Asked), StartAction::Spawn));
    match on_start(&mut slot, StartEvent::Reported(StartOutcome::TimedOut)) {
        StartAction::Settle(s) => {
            assert!(s.keep && s.stop);
            assert!(matches!(place_session(&mut slot, 2, &s), Leftover::Nothing));
        }
        _ => panic!("not settled"),
    }
    assert_eq!(slot, Some(2));
}

#[test]
fn a_session_is_placed_or_left() {
    let live = start(StartOutcome::Live { comm: None, user: None });
    let failed = start(StartOutcome::Failed("e".to_string()));
    let mut slot = None;
    assert!(matches!(place_session(&mut slot, 1, &failed), Leftover::Ended(1)));
    assert_eq!(slot, None);
    assert!(matches!(place_session(&mut slot, 2, &live), Leftover::Nothing));
    assert_eq!(slot, Some(2));
    // Two starts at once: the session of the first is handed back, to be stopped.
    assert!(matches!(place_session(&mut slot, 3, &live), Leftover::Displaced(2)));
    assert_eq!(slot, Some(3));
    assert!(matches!(place_session(&mut slot, 4, &failed), Leftover::Ended(4)));
    assert_eq!(slot, Some(3));
}

#[test]
fn a_stop_empties_the_slot() {
    let mut slot = Some("session");
    assert_eq!(status(&slot), "{\"active\":true,\"ok\":true}");
    assert!(matches!(stop(&mut slot), StopStep::TakeDown("session")));
    for _ in 0..2 {
        assert_eq!(status(&slot), "{\"active\":false,\"ok\":true}");
        match stop(&mut slot) {
            StopStep::Answer(a) => assert_eq!(a, "{\"ok\":true,\"text\":\"\"}"),
            StopStep::TakeDown(_) => panic!("handed out twice"),
        }
    }
}

#[test]
fn speech_endpoints_answer() {
    let live = start(StartOutcome::Live {
        comm: Some("\\\\?\\SWD#A".to_string()),
        user: Some("\\\\?\\swd#a".to_string()),
    });
    assert_eq!(live.answer, "{\"mic_mismatch\":false,\"ok\":true}");
    assert!(live.keep && !live.stop);
    let live = start(StartOutcome::Live { comm: Some("a".to_string()), user: Some("b".to_string()) });
    assert_eq!(live.answer, "{\"mic_mismatch\":true,\"ok\":true}");
    assert!(!mic_mismatch(&None, &Some("b".to_string())));
    let failed = start(StartOutcome::Failed("no mic".to_string()));
    assert_eq!(failed.answer, "{\"error\":\"no mic\",\"ok\":false}");
    assert!(!failed.keep && !failed.stop);
    let late = start(StartOutcome::TimedOut);
    assert_eq!(late.answer, "{\"ok\":false,\"error\":\"语音识别启动超时\"}");
    assert_eq!(stopped("你好"), "{\"ok\":true,\"text\":\"你好\"}");
    assert_eq!(stopped(""), "{\"ok\":true,\"text\":\"\"}");
}
