use base64::engine::Engine;
use dsh_shell::catalog::{
    answer_catalog, cached_catalog, catalog_answer, catalog_url, handle_catalog, parse_catalog,
    CatalogCache, CatalogEntry, CACHE_NS,
};
use dsh_shell::listing::{
    cli_list, handle_list, list_answer, parse_list_json, read_profile_manifest, shown_plugins,
};
use dsh_shell::package::{hex, parse_pkg, pct_decode, unescape, valid_pkg};
use dsh_shell::plugins::{
    append_output, begin_job, can_append, conclude, dsh_plugin_args, fits, handle_start,
    handle_status, job_args, not_started, npm_args, program, run_bounded, run_job, run_pnpm_job,
    set_job_state, show_code, subcommand, Bounded, Exit, Finished, JobState, PluginJob, Poll,
    Program, RawFinished, NPM, OUTPUT_LIMIT,
};
use dsh_shell::updater::FetchFault;

fn json(text: &str) -> serde_json::Value {
    serde_json::from_str(text).unwrap()
}

fn running(kind: &'static str, pkg: &str) -> PluginJob {
    PluginJob {
        kind,
        pkg: pkg.to_string(),
        state: JobState::Running,
        message: String::new(),
        output: String::new(),
    }
}

fn finished(stdout: &str, stderr: &str, success: bool, code: Option<i32>) -> Finished {
    Finished { stdout: stdout.to_string(), stderr: stderr.to_string(), exit: Exit { success, code } }
}

fn raw(stdout: &[u8], stderr: &[u8], success: bool, code: Option<i32>) -> RawFinished {
    RawFinished { stdout: stdout.to_vec(), stderr: stderr.to_vec(), exit: Exit { success, code } }
}

// ------------------------------------------------------------ package names

#[test]
fn pkg_whitelist() {
    for ok in ["lodash", "@scope/pkg", "pkg-1.2.3_name", "a-b.c_d", "abc123"] {
        assert!(valid_pkg(ok), "{ok} should be valid");
    }
    for bad in [
        "", "-flag", "--help", ".", "..", "../x", "./x", "a/../b", "file:x", "link:x",
        "x y", "x;y", "x&y", "x|y", "x\\y", "http://x", "x$(y)",
    ] {
        assert!(!valid_pkg(bad), "{bad} should be rejected");
    }
}

#[test]
fn paths_are_no_package_names() {
    for bad in ["a/b", "/etc/passwd", "@scope/a/b", "@/x", "@scope/", "@scope/..", "dir/"] {
        assert!(!valid_pkg(bad), "{bad} should be rejected");
    }
    assert!(valid_pkg("@scope/pkg@1.0.0"));
}

#[test]
fn pkg_length_is_bounded() {
    assert!(valid_pkg(&"a".repeat(200)));
    assert!(!valid_pkg(&"a".repeat(201)));
    assert!(!valid_pkg("包"));
}

#[test]
fn pct_decode_roundtrip() {
    assert_eq!(pct_decode("lodash"), "lodash");
    assert_eq!(pct_decode("%40scope%2Fpkg"), "@scope/pkg");
    assert_eq!(pct_decode("a%20b%2Bc"), "a b+c");
    assert_eq!(pct_decode("%zz"), "%zz"); // bad hex passes through
}

#[test]
fn pct_decode_edges() {
    assert_eq!(pct_decode(""), "");
    assert_eq!(pct_decode("%"), "%");
    assert_eq!(pct_decode("a%4"), "a%4");
    assert_eq!(pct_decode("%41"), "A");
    assert_eq!(pct_decode("%e4%b8%ad"), "中");
    assert_eq!(pct_decode("%E4%B8%AD"), "中");
    assert_eq!(pct_decode("%ff"), "\u{fffd}");
    assert_eq!(pct_decode("%%41"), "%A");
    assert_eq!(unescape(b"%2525"), b"%25".to_vec());
}

#[test]
fn hex_digits_have_values() {
    assert_eq!(hex(b'0'), Some(0));
    assert_eq!(hex(b'9'), Some(9));
    assert_eq!(hex(b'a'), Some(10));
    assert_eq!(hex(b'F'), Some(15));
    assert_eq!(hex(b'g'), None);
    assert_eq!(hex(b'/'), None);
}

#[test]
fn pkg_is_taken_from_the_query() {
    assert_eq!(parse_pkg("t=abc&pkg=%40scope%2Fpkg"), Some("@scope/pkg".to_string()));
    assert_eq!(parse_pkg("pkg=a&pkg=b"), Some("a".to_string()));
    assert_eq!(parse_pkg("t=abc"), None);
    assert_eq!(parse_pkg(""), None);
}

// ------------------------------------------------------------ the job

#[test]
fn state_is_set_only_where_there_is_a_job() {
    let mut slot = None;
    set_job_state(&mut slot, JobState::Done, "x".to_string());
    assert!(slot.is_none());
    let mut slot = Some(running("install", "a"));
    set_job_state(&mut slot, JobState::Done, "x".to_string());
    let job = slot.unwrap();
    assert_eq!(job.state, JobState::Done);
    assert_eq!(job.message, "x");
    assert_eq!(job.pkg, "a");
}

#[test]
fn output_keeps_its_end() {
    let mut tail = String::new();
    append_output(&mut tail, "hello ");
    append_output(&mut tail, "world");
    assert_eq!(tail, "hello world");
    let long = "x".repeat(OUTPUT_LIMIT);
    assert!(can_append(&tail, &long));
    append_output(&mut tail, &long);
    assert_eq!(tail, long);
    append_output(&mut tail, "end");
    assert_eq!(tail.len(), OUTPUT_LIMIT);
    assert!(tail.ends_with("xxend"));
}

#[test]
fn output_is_not_cut_inside_a_character() {
    // 3001 bytes: the cut would fall into the first character.
    let text = format!("中{}", "x".repeat(2998));
    assert!(!can_append("", &text));
    assert!(can_append("", &format!("中{}", "x".repeat(2997))));
    assert!(can_append("", &format!("中{}", "x".repeat(3000))));
    assert!(!fits(&Some(running("install", "a")), &text, ""));
    assert!(!fits(&Some(running("install", "a")), "", &text));
    assert!(fits(&Some(running("install", "a")), "out", "err"));
    assert!(fits(&None, &text, ""));
}

#[test]
fn cli_arguments_name_the_profile() {
    assert_eq!(
        dsh_plugin_args("/b/bin.js", &["add", "lodash"]),
        ["/b/bin.js", "plugin", "--profile", "web", "add", "lodash"]
    );
    assert_eq!(
        dsh_plugin_args("b", &["list", "--json"]),
        ["b", "plugin", "--profile", "web", "list", "--json"]
    );
    let args = |kind: &str| job_args("b", kind, "@scope/pkg").map(|v| v.join(" "));
    assert_eq!(args("install").as_deref(), Some("b plugin --profile web add @scope/pkg"));
    assert_eq!(args("remove").as_deref(), Some("b plugin --profile web remove @scope/pkg"));
    assert_eq!(args("pnpm"), None);
    assert_eq!(args(""), None);
    assert_eq!(subcommand("install"), Some("add"));
    assert_eq!(subcommand("remove"), Some("remove"));
    assert_eq!(subcommand("pnpm"), None);
}

#[test]
fn jobs_have_their_programs() {
    assert_eq!(NPM, "npm.cmd");
    assert_eq!(npm_args(), ["install", "-g", "pnpm"]);
    let shown = |kind: &str| match program("b", kind, "a") {
        Program::Cli(args) => format!("dsh {}", args.join(" ")),
        Program::Npm(args) => format!("npm {}", args.join(" ")),
        Program::Nothing => String::new(),
    };
    assert_eq!(shown("install"), "dsh b plugin --profile web add a");
    assert_eq!(shown("remove"), "dsh b plugin --profile web remove a");
    assert_eq!(shown("pnpm"), "npm install -g pnpm");
    assert_eq!(shown("other"), "");
}

#[test]
fn programs_that_do_not_start_are_noted() {
    for (kind, state, message) in [
        ("install", JobState::Error, "无法启动 dsh CLI：gone"),
        ("remove", JobState::Error, "无法启动 dsh CLI：gone"),
        ("pnpm", JobState::Error, "无法启动 npm：gone"),
        ("other", JobState::Running, ""),
    ] {
        let mut slot = Some(running(kind, "a"));
        not_started(&mut slot, kind, "gone".to_string());
        let job = slot.unwrap();
        assert_eq!((job.state, job.message.as_str()), (state, message));
    }
    let mut slot = None;
    not_started(&mut slot, "pnpm", "gone".to_string());
    assert!(slot.is_none());
}

#[test]
fn exit_codes_are_shown() {
    assert_eq!(show_code(Some(1)), "Some(1)");
    assert_eq!(show_code(Some(-1073741510)), "Some(-1073741510)");
    assert_eq!(show_code(Some(i32::MIN)), "Some(-2147483648)");
    assert_eq!(show_code(None), "None");
}

#[test]
fn jobs_end_with_a_verdict() {
    let mut slot = Some(running("install", "a"));
    run_job(&mut slot, "install", Ok(finished("out", "err", true, Some(0))));
    let job = slot.as_ref().unwrap();
    assert_eq!((job.state, job.message.as_str()), (JobState::Done, "安装 成功"));
    assert_eq!(job.output, "outerr");

    let mut slot = Some(running("remove", "a"));
    run_job(&mut slot, "remove", Ok(finished("", "", true, Some(0))));
    assert_eq!(slot.as_ref().unwrap().message, "卸载 成功");

    let mut slot = Some(running("install", "a"));
    run_job(&mut slot, "install", Ok(finished("", "", false, Some(127))));
    let job = slot.as_ref().unwrap();
    assert_eq!(job.state, JobState::Error);
    assert_eq!(
        job.message,
        "未找到 pnpm（dsh 插件管理依赖它）。点下方按钮自动安装，或手动执行 npm i -g pnpm"
    );

    let mut slot = Some(running("install", "a"));
    run_job(&mut slot, "install", Ok(finished("", "", false, Some(1))));
    assert_eq!(
        slot.as_ref().unwrap().message,
        "pnpm 失败（退出码 Some(1)）。常见原因：包名不存在、网络不可达、或 pnpm 10 对 git 依赖的 build 脚本拦截（见输出）"
    );

    let mut slot = Some(running("install", "a"));
    run_job(&mut slot, "install", Err("gone".to_string()));
    let job = slot.as_ref().unwrap();
    assert_eq!((job.state, job.message.as_str()), (JobState::Error, "无法启动 dsh CLI：gone"));

    let mut slot = Some(running("other", "a"));
    run_job(&mut slot, "other", Err("gone".to_string()));
    assert_eq!(slot.unwrap().state, JobState::Running);
}

#[test]
fn pnpm_setup_ends_with_a_verdict() {
    let mut slot = Some(running("pnpm", ""));
    run_pnpm_job(&mut slot, Ok(finished("a", "b", true, Some(0))));
    let job = slot.as_ref().unwrap();
    assert_eq!(
        (job.state, job.message.as_str(), job.output.as_str()),
        (JobState::Done, "pnpm 安装完成，回到插件市场即可使用", "ab")
    );
    let mut slot = Some(running("pnpm", ""));
    run_pnpm_job(&mut slot, Ok(finished("", "", false, None)));
    assert_eq!(
        slot.as_ref().unwrap().message,
        "pnpm 安装失败（退出码 None），请手动执行 npm i -g pnpm"
    );
    let mut slot = Some(running("pnpm", ""));
    run_pnpm_job(&mut slot, Err("x".to_string()));
    assert_eq!(slot.as_ref().unwrap().message, "无法启动 npm：x");
}

#[test]
fn raw_output_is_decoded() {
    let mut slot = Some(running("install", "a"));
    assert!(conclude(&mut slot, "install", raw("好".as_bytes(), &[0xff], true, Some(0))));
    let job = slot.as_ref().unwrap();
    assert_eq!(job.output, "好\u{fffd}");
    assert_eq!(job.message, "安装 成功");
    let mut slot = Some(running("pnpm", ""));
    assert!(conclude(&mut slot, "pnpm", raw(b"", b"", true, Some(0))));
    assert_eq!(slot.as_ref().unwrap().message, "pnpm 安装完成，回到插件市场即可使用");
    // Nothing is noted where the output would have to be cut inside a character.
    let mut slot = Some(running("install", "a"));
    let text = format!("中{}", "x".repeat(2998));
    assert!(!conclude(&mut slot, "install", raw(text.as_bytes(), b"", true, Some(0))));
    assert_eq!(slot.as_ref().unwrap().state, JobState::Running);
}

#[test]
fn programs_are_bounded() {
    let sec: u128 = 1_000_000_000;
    assert_eq!(run_bounded(Poll::Exited, 99 * sec, 15), Bounded::Collect);
    assert_eq!(run_bounded(Poll::Running, 15 * sec, 15), Bounded::Sleep(50));
    assert_eq!(run_bounded(Poll::Running, 15 * sec + 1, 15), Bounded::Kill);
    assert_eq!(run_bounded(Poll::Unknown, 0, 15), Bounded::GiveUp);
    assert_eq!(run_bounded(Poll::Running, u128::MAX, u64::MAX), Bounded::Kill);
}

#[test]
fn start_endpoint_guards_its_package() {
    let mut slot = None;
    let (answer, run) = handle_start(&mut slot, "install", "t=x");
    assert_eq!(answer, "{\"ok\":false,\"error\":\"缺少 pkg 参数\"}");
    assert!(!run && slot.is_none());
    let (answer, run) = handle_start(&mut slot, "install", "pkg=..%2Fevil");
    assert_eq!(json(&answer)["ok"], false);
    assert_eq!(
        json(&answer)["error"],
        "包名不合法：仅接受 npm 注册表包名（如 pkg-name 或 @scope/pkg），不能是路径、参数或特殊字符"
    );
    assert!(!run && slot.is_none());
    let (answer, run) = handle_start(&mut slot, "install", "pkg=%40scope%2Fpkg");
    assert_eq!(answer, "{\"ok\":true}");
    assert!(run);
    assert_eq!(slot.as_ref().unwrap().pkg, "@scope/pkg");
    assert_eq!(slot.as_ref().unwrap().kind, "install");
}

#[test]
fn one_job_at_a_time() {
    let mut slot = Some(running("install", "lodash"));
    for (kind, pkg) in [("install", Some("a")), ("remove", Some("a")), ("pnpm", None)] {
        let (answer, run) = begin_job(&mut slot, kind, pkg.map(|p: &str| p.to_string()));
        assert!(!run);
        assert_eq!(json(&answer)["error"], "已有任务进行中：install lodash");
        assert_eq!(slot.as_ref().unwrap().pkg, "lodash");
    }
    run_job(&mut slot, "install", Err("e".to_string()));
    let (answer, run) = begin_job(&mut slot, "pnpm", None);
    assert!(run);
    assert_eq!(answer, "{\"ok\":true}");
    assert_eq!(slot.as_ref().unwrap().kind, "pnpm");
    assert_eq!(slot.as_ref().unwrap().pkg, "");
    assert_eq!(slot.as_ref().unwrap().output, "");
}

#[test]
fn plugin_status_shows_the_job() {
    assert_eq!(handle_status(&None), "{\"ok\":true,\"job\":null}");
    let mut slot = Some(running("install", "lodash"));
    run_job(&mut slot, "install", Ok(finished("a\"b", "", true, Some(0))));
    assert_eq!(
        handle_status(&slot),
        "{\"job\":{\"kind\":\"install\",\"message\":\"安装 成功\",\"output\":\"a\\\"b\",\"pkg\":\"lodash\",\"state\":\"done\"},\"ok\":true}"
    );
}

// ------------------------------------------------------------ the installed list

#[test]
fn list_json_parses_top_level_deps() {
    let sample = r#"[{"name":"web","version":"0.0.0","private":true,"dependencies":{
            "@deepseek-ai/dsh-base":{"version":"0.1.1","from":"@deepseek-ai/dsh-base","resolved":"https://registry.npmjs.org/..."},
            "lodash":{"version":"4.17.21","from":"lodash"}
        }}]"#;
    let list = parse_list_json(sample);
    assert_eq!(list.len(), 2);
    assert_eq!(list[0], ("@deepseek-ai/dsh-base".into(), "0.1.1".into()));
}

#[test]
fn list_json_tolerates_garbage() {
    assert!(parse_list_json("not json").is_empty());
    assert!(parse_list_json("{}").is_empty());
    assert!(parse_list_json("[]").is_empty());
}

#[test]
fn list_json_is_sorted_and_complete() {
    let sample = r#"[
        {"devDependencies":{"b":{"version":"2"}},"dependencies":{"c":{},"a":{"version":7}}},
        {"dependencies":{"b":{"version":"1"},"B":{"version":"3"}}}
    ]"#;
    let list = parse_list_json(sample);
    let shown: Vec<(&str, &str)> = list.iter().map(|p| (p.0.as_str(), p.1.as_str())).collect();
    assert_eq!(shown, [("B", "3"), ("a", ""), ("b", "1"), ("b", "2"), ("c", "")]);
    // A section that is not an object spoils the report.
    assert!(parse_list_json(r#"[{"dependencies":{"a":{}}},{"dependencies":[]}]"#).is_empty());
    assert!(parse_list_json(r#"[{"dependencies":{"a":{}}},3]"#).is_empty());
}

#[test]
fn manifest_lists_both_sections() {
    let text = r#"{"name":"web","devDependencies":{"z":"^1"},"dependencies":{"a":"1.0.0","b":{}}}"#;
    let list = read_profile_manifest(text);
    let shown: Vec<(&str, &str)> = list.iter().map(|p| (p.0.as_str(), p.1.as_str())).collect();
    assert_eq!(shown, [("a", "1.0.0"), ("b", ""), ("z", "^1")]);
    assert!(read_profile_manifest("nonsense").is_empty());
    assert!(read_profile_manifest("[]").is_empty());
}

#[test]
fn list_endpoint_falls_back_to_the_manifest() {
    let report = r#"[{"dependencies":{"lodash":{"version":"4.17.21"}}}]"#;
    let manifest = r#"{"dependencies":{"kept":"1.0.0"}}"#;
    assert_eq!(
        handle_list(Some(raw(report.as_bytes(), b"", true, Some(0))), Some(manifest.to_string())),
        "{\"ok\":true,\"plugins\":[{\"name\":\"lodash\",\"version\":\"4.17.21\"}],\"pnpm\":true}"
    );
    assert_eq!(
        handle_list(Some(raw(b"junk", b"", true, Some(0))), Some(manifest.to_string())),
        "{\"ok\":true,\"plugins\":[{\"name\":\"kept\",\"version\":\"1.0.0\"}],\"pnpm\":true}"
    );
    let fallback = "{\"ok\":true,\"plugins\":[{\"name\":\"kept\",\"version\":\"1.0.0\"}],\"pnpm\":false}";
    assert_eq!(
        handle_list(
            Some(raw(report.as_bytes(), b"", false, Some(127))),
            Some(manifest.to_string())
        ),
        fallback
    );
    assert_eq!(handle_list(None, Some(manifest.to_string())), fallback);
    assert_eq!(handle_list(None, None), "{\"ok\":true,\"plugins\":[],\"pnpm\":false}");
}

#[test]
fn list_steps_agree_with_the_endpoint() {
    let report = r#"[{"dependencies":{"lodash":{"version":"4.17.21"}}}]"#;
    let (pnpm, cli) = cli_list(&Some(raw(report.as_bytes(), b"", true, Some(0))));
    assert!(pnpm);
    assert_eq!(cli, [("lodash".to_string(), "4.17.21".to_string())]);
    let shown = shown_plugins(cli, None);
    assert_eq!(
        list_answer(pnpm, &shown),
        handle_list(Some(raw(report.as_bytes(), b"", true, Some(0))), None)
    );
}

// ------------------------------------------------------------ the catalog

#[test]
fn catalog_accepts_plain_and_wrapped() {
    let plain = r#"{"plugins":[{"name":"x","title":"X","author":"a"}]}"#;
    let wrapped = {
        let json = r#"{"plugins":[{"name":"y","version":"1.0.0"}]}"#;
        let b64 = base64::engine::general_purpose::STANDARD.encode(json);
        format!(r#"{{"content":"{b64}"}}"#)
    };
    let a = parse_catalog(plain).unwrap();
    assert_eq!(a.len(), 1);
    assert_eq!(a[0].name, "x");
    assert_eq!(a[0].author, "a");
    let b = parse_catalog(&wrapped).unwrap();
    assert_eq!(b[0].name, "y");
    assert_eq!(b[0].version, "1.0.0");
    assert!(parse_catalog("garbage").is_err());
}

#[test]
fn catalog_wrapper_is_transparent() {
    let mut text = r#"{"plugins":[{"name":"deep","repo":"r","dsh":"0.1"}]}"#.to_string();
    for _ in 0..3 {
        let b64 = base64::engine::general_purpose::STANDARD.encode(&text);
        text = format!(r#"{{"content":" {b64} \n"}}"#);
    }
    let list = parse_catalog(&text).unwrap();
    assert_eq!(list.len(), 1);
    assert_eq!(list[0].name, "deep");
    assert_eq!(list[0].repo, "r");
    assert_eq!(list[0].dsh, "0.1");
    assert_eq!(list[0].title, "");
}

#[test]
fn catalog_wrapper_may_be_broken_into_lines() {
    let list = parse_catalog("{\"content\":\"eyJwbHVnaW5z\\nIjpbXX0=\\n\"}").unwrap();
    assert!(list.is_empty());
    let names: Vec<String> = (0..20).map(|i| format!(r#"{{"name":"plugin-{i}"}}"#)).collect();
    let text = format!(r#"{{"plugins":[{}]}}"#, names.join(","));
    let b64 = base64::engine::general_purpose::STANDARD.encode(&text);
    for ending in ["\\n", "\\r\\n"] {
        let mut lines = String::new();
        for (i, c) in b64.chars().enumerate() {
            lines.push(c);
            if i % 60 == 59 {
                lines.push_str(ending);
            }
        }
        lines.push_str(ending);
        let list = parse_catalog(&format!(r#"{{"encoding":"base64","content":"{lines}"}}"#)).unwrap();
        assert_eq!(list.len(), 20);
        assert_eq!(list[19].name, "plugin-19");
    }
}

#[test]
fn catalog_errors_name_their_cause() {
    let err = |text: &str| parse_catalog(text).unwrap_err();
    assert!(err("garbage").starts_with("目录 JSON 解析失败："));
    assert!(err(r#"{"plugins":[{"title":"no name"}]}"#).starts_with("目录条目解析失败："));
    assert!(err(r#"{"plugins":[{"name":1}]}"#).starts_with("目录条目解析失败："));
    assert!(err(r#"{"plugins":[{"name":"a","title":null}]}"#).starts_with("目录条目解析失败："));
    assert_eq!(err("{}"), "目录格式无法识别（既不是 {plugins:[...]} 也不是 contents API 包装）");
    assert_eq!(
        err(r#"{"plugins":{},"content":5}"#),
        "目录格式无法识别（既不是 {plugins:[...]} 也不是 contents API 包装）"
    );
    assert!(err(r#"{"content":"***"}"#).starts_with("目录 base64 解码失败："));
    assert!(err(r#"{"content":"/w=="}"#).starts_with("目录编码异常：invalid utf-8"));
}

#[test]
fn catalog_entries_may_be_given_by_position() {
    let list = parse_catalog(r#"{"plugins":[["n","t"]]}"#).unwrap();
    assert_eq!((list[0].name.as_str(), list[0].title.as_str()), ("n", "t"));
    assert!(parse_catalog(r#"{"plugins":[["1","2","3","4","5","6","7","8"]]}"#).is_err());
    assert!(parse_catalog(r#"{"plugins":[[]]}"#).is_err());
}

#[test]
fn catalog_entries_have_defaults() {
    let entry = CatalogEntry::default();
    assert_eq!(entry.name, "");
    assert_eq!(entry.dsh, "");
    let mut named = entry.clone();
    named.name = "n".to_string();
    assert_eq!(named.clone().name, "n");
}

#[test]
fn catalog_place_can_be_set() {
    assert_eq!(
        catalog_url(None),
        "https://api.github.com/repos/QWQ123321123/dsh-desktop/contents/catalog.json"
    );
    assert_eq!(catalog_url(Some("http://mirror/c.json".to_string())), "http://mirror/c.json");
}

#[test]
fn catalog_is_cached_for_ten_minutes() {
    let body = r#"{"plugins":[{"name":"x"}]}"#;
    let expected = "{\"ok\":true,\"plugins\":[{\"author\":\"\",\"description\":\"\",\"dsh\":\"\",\"name\":\"x\",\"repo\":\"\",\"title\":\"\",\"version\":\"\"}]}";
    let mut cache = None;
    assert!(cached_catalog(&cache, 5).is_none());
    assert_eq!(handle_catalog(Ok(body.to_string()), 1000, &mut cache), expected);
    assert_eq!(cached_catalog(&cache, 1000).as_deref(), Some(expected));
    assert_eq!(cached_catalog(&cache, 999).as_deref(), Some(expected));
    assert_eq!(cached_catalog(&cache, 1000 + CACHE_NS - 1).as_deref(), Some(expected));
    assert!(cached_catalog(&cache, 1000 + CACHE_NS).is_none());
}

#[test]
fn catalog_faults_keep_the_cache() {
    let mut cache = Some(CatalogCache { at: 7, entries: vec![] });
    let answer = handle_catalog(Err(FetchFault::Network("no route".to_string())), 9, &mut cache);
    assert_eq!(json(&answer)["ok"], false);
    assert_eq!(json(&answer)["error"], "无法获取插件目录（no route）。请检查网络后重试。");
    let answer = handle_catalog(Err(FetchFault::Body("short".to_string())), 9, &mut cache);
    assert!(json(&answer)["error"].as_str().unwrap().starts_with("目录 JSON 解析失败："));
    assert_eq!(cache.as_ref().unwrap().at, 7);
    let answer = answer_catalog(Err("bad".to_string()), 9, &mut cache);
    assert_eq!(answer, "{\"error\":\"bad\",\"ok\":false}");
    assert_eq!(cache.as_ref().unwrap().at, 7);
    let answer = answer_catalog(Ok(vec![]), 9, &mut cache);
    assert_eq!(answer, catalog_answer(&vec![]));
    assert_eq!(cache.as_ref().unwrap().at, 9);
}
