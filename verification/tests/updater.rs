use dsh_shell::digest::hex;
use dsh_shell::download::{
    begin_download, fault_message, is_busy, start_download, Action, DownloadJob, Event, Fault, Fetch, State,
};
use dsh_shell::number::{decimal, parse_u64, signed_decimal};
use dsh_shell::updater::{
    answer, answer_check, api_base, check_update, handle_check, handle_install, handle_open,
    handle_start, handle_status, installer, newer, newest_setup, parse_releases, parse_ver,
    release_page, releases_url, strip_v, FetchFault, InstallOutcome, OpenOutcome, StartStep,
    UpdateInfo, INSTALLER_HEAD_START_MS, REPO,
};
use sha2::{Digest, Sha256};

fn json(text: &str) -> serde_json::Value {
    serde_json::from_str(text).unwrap()
}

fn update(tag: &str, size: u64, digest: Option<String>) -> UpdateInfo {
    UpdateInfo {
        tag: tag.to_string(),
        notes: String::new(),
        size,
        url: "http://127.0.0.1:1/x.exe".to_string(),
        digest,
    }
}

fn job(state: State) -> DownloadJob {
    DownloadJob { state, downloaded: 0, total: 0, error: None, file: None }
}

// ------------------------------------------------------------ versions

#[test]
fn version_comparison() {
    assert_eq!(parse_ver("v0.2.3"), Some((0, 2, 3)));
    assert_eq!(parse_ver("0.2.10"), Some((0, 2, 10)));
    assert!(parse_ver("0.2").is_none());
    assert!(newer("0.2.10", "0.2.9")); // digit-wise, not lexicographic
    assert!(newer("1.0.0", "0.9.9"));
    assert!(!newer("0.2.3", "0.2.3"));
    assert!(!newer("0.2.3", "0.2.4"));
    assert!(!newer("nonsense", "0.2.3"));
}

#[test]
fn version_edges() {
    assert_eq!(parse_ver(" V1.2.3\n"), Some((1, 2, 3)));
    assert_eq!(parse_ver("vV1.2.3.4"), Some((1, 2, 3)));
    assert_eq!(parse_ver("1.2.3-rc.1"), Some((1, 2, 3)));
    assert_eq!(parse_ver("+1.02.3"), Some((1, 2, 3)));
    assert_eq!(parse_ver("18446744073709551615.0.0"), Some((u64::MAX, 0, 0)));
    assert!(parse_ver("18446744073709551616.0.0").is_none());
    assert!(parse_ver("1..3").is_none());
    assert!(parse_ver("1.2.x").is_none());
    assert!(parse_ver("").is_none());
    assert!(!newer("0.2.4", "nonsense"));
    assert!(!newer("0.2.4-rc.2", "0.2.4"));
    assert!(newer("0.2.5-rc.1", "0.2.4"));
    assert_eq!(strip_v("v0.2.3"), "0.2.3");
    assert_eq!(strip_v("v"), "");
}

#[test]
fn newer_orders_strictly() {
    let all = ["0.0.1", "0.1.0", "0.1.9", "0.1.10", "1.0.0", "10.0.0"];
    for (i, a) in all.iter().enumerate() {
        for (j, b) in all.iter().enumerate() {
            assert_eq!(newer(a, b), i > j, "{a} {b}");
        }
    }
}

#[test]
fn numbers_are_written_in_decimal() {
    assert_eq!(decimal(0), "0");
    assert_eq!(decimal(u64::MAX), "18446744073709551615");
    assert_eq!(signed_decimal(-42), "-42");
    assert_eq!(parse_u64("+7"), Some(7));
    assert_eq!(parse_u64("-7"), None);
    assert_eq!(parse_u64(""), None);
    assert_eq!(parse_u64("+"), None);
}

// ------------------------------------------------------------ the update on offer

#[test]
fn check_picks_newest_setup_asset() {
    let releases = r#"[
          {"tag_name":"v0.2.1","published_at":"2026-07-01T00:00:00Z","body":null,
           "assets":[{"name":"dsh-desktop_0.2.1_x64-setup.exe","size":1,"digest":null,
                      "browser_download_url":"http://127.0.0.1:1/a.exe"}]},
          {"tag_name":"v0.2.3","published_at":"2026-08-01T00:00:00Z","body":"release notes",
           "assets":[{"name":"dsh-desktop_0.2.3_x64-setup.exe","size":2,"digest":null,
                      "browser_download_url":"http://127.0.0.1:1/b.exe"}]}
        ]"#;
    let info = check_update(Ok(releases.into())).unwrap().unwrap();
    assert_eq!(info.version(), "0.2.3");
    assert_eq!(info.notes, "release notes");
    assert!(newer(info.version(), "0.2.2"));
    assert!(!newer(info.version(), "0.3.0"));
}

#[test]
fn check_surfaces_bad_source() {
    let err = check_update(Ok("not json".into())).unwrap_err();
    assert!(err.contains("解析失败"), "{err}");
}

#[test]
fn check_surfaces_faults() {
    let err = check_update(Err(FetchFault::Network("refused".to_string()))).unwrap_err();
    assert_eq!(err, "网络错误：refused");
    let err = check_update(Err(FetchFault::Body("short".to_string()))).unwrap_err();
    assert_eq!(err, "读取响应失败：short");
    for bad in ["{}", "[1]", r#"[{"tag_name":"v1"}]"#, r#"[{"tag_name":"v1","assets":[{}]}]"#] {
        let err = check_update(Ok(bad.to_string())).unwrap_err();
        assert!(err.starts_with("更新源响应解析失败："), "{err}");
    }
}

#[test]
fn releases_without_a_setup_are_passed_over() {
    let asset = |name: &str, url: &str| {
        format!(r#"{{"name":"{name}","size":3,"browser_download_url":"{url}"}}"#)
    };
    let body = format!(
        r#"[{{"tag_name":"v3","published_at":"2026-09","assets":[{}]}},
            {{"tag_name":"v1","published_at":null,"assets":[{}]}},
            {{"tag_name":"v2","published_at":"2026-08","assets":[{},{},{}]}}]"#,
        asset("notes.txt", "u0"),
        asset("old-setup.exe", "u1"),
        asset("readme", "u2"),
        asset("a-setup.exe", "u3"),
        asset("b-setup.exe", "u4"),
    );
    let list = parse_releases(&body).unwrap();
    assert_eq!(list.len(), 3);
    let info = newest_setup(&list).unwrap();
    assert_eq!((info.tag.as_str(), info.url.as_str(), info.size), ("v2", "u3", 3));
    assert!(info.digest.is_none());
    assert!(check_update(Ok("[]".to_string())).unwrap().is_none());
}

#[test]
fn of_releases_published_at_once_the_first_counts() {
    let release = |tag: &str| {
        format!(
            r#"{{"tag_name":"{tag}","published_at":"2026-08","assets":[{{"name":"setup","size":1,"browser_download_url":"u"}}]}}"#
        )
    };
    let body = format!("[{},{}]", release("first"), release("second"));
    assert_eq!(check_update(Ok(body)).unwrap().unwrap().tag, "first");
}

#[test]
fn source_can_be_set() {
    assert_eq!(api_base(None), "https://api.github.com");
    assert_eq!(api_base(Some("http://mirror".to_string())), "http://mirror");
    assert_eq!(
        releases_url("http://mirror"),
        "http://mirror/repos/QWQ123321123/dsh-desktop/releases"
    );
    assert_eq!(REPO, "QWQ123321123/dsh-desktop");
}

#[test]
fn check_endpoint_remembers_the_update() {
    let body = r#"[{"tag_name":"v0.5.0","published_at":"2026","body":"n","assets":[
        {"name":"x-setup.exe","size":9,"digest":"sha256:ab","browser_download_url":"http://u"}]}]"#;
    let mut last = None;
    let answer = handle_check(Ok(body.to_string()), "0.4.0", &mut last);
    assert_eq!(
        answer,
        "{\"current\":\"0.4.0\",\"has_update\":true,\"notes\":\"n\",\"ok\":true,\"size\":9,\"tag\":\"v0.5.0\",\"url\":\"http://u\",\"version\":\"0.5.0\"}"
    );
    assert_eq!(last.as_ref().unwrap().digest.as_deref(), Some("sha256:ab"));
    let answer = handle_check(Ok(body.to_string()), "0.5.0", &mut last);
    assert_eq!(json(&answer)["has_update"], false);
    let answer = handle_check(Ok("[]".to_string()), "0.4.0", &mut last);
    assert_eq!(answer, "{\"current\":\"0.4.0\",\"has_update\":false,\"ok\":true}");
    assert!(last.is_some());
    let answer = answer_check(Err("e".to_string()), "0.4.0", &mut last);
    assert_eq!(answer, "{\"error\":\"e\",\"ok\":false}");
    assert!(last.is_some());
}

// ------------------------------------------------------------ the download

/// What a run of a fetch leaves: the file in its place, and whether the part is still there.
struct Disk {
    placed: Option<Vec<u8>>,
    part: Option<Vec<u8>>,
}

/// Runs a fetch against a source in memory, as the shell does against a network and a disk.
fn run_fetch(
    served: &[u8],
    step: usize,
    info: &UpdateInfo,
    header: Option<&str>,
    slot: &mut Option<DownloadJob>,
) -> Disk {
    let mut disk = Disk { placed: None, part: None };
    let mut fetch = Fetch::new();
    let mut at = 0;
    let mut chunk: &[u8] = &[];
    let mut action = fetch.fetch_and_verify(Event::Answered(header), info, slot);
    loop {
        let event = match action {
            Action::Create => {
                disk.part = Some(Vec::new());
                Event::Created
            }
            Action::Read => {
                let end = served.len().min(at + step);
                chunk = &served[at..end];
                at = end;
                Event::Read(chunk.len())
            }
            Action::Write => {
                disk.part.as_mut().unwrap().extend_from_slice(chunk);
                Event::Written(chunk)
            }
            Action::Move => {
                assert_eq!(slot.as_ref().unwrap().state, State::Verifying);
                disk.placed = disk.part.take();
                Event::Moved
            }
            Action::Remove => {
                disk.part = None;
                break;
            }
            Action::Stop => break,
        };
        action = fetch.fetch_and_verify(event, info, slot);
    }
    fetch.finish("x.exe".to_string(), slot);
    disk
}

#[test]
fn download_verifies_digest_and_tampering() {
    let bytes: Vec<u8> = (0..=255u8).cycle().take(100_000).collect();
    let good = hex(&Sha256::digest(&bytes));

    // (a) matching digest → Ready, file renamed into place
    {
        let mut job = Some(DownloadJob {
            state: State::Downloading,
            downloaded: 0,
            total: bytes.len() as u64,
            error: None,
            file: None,
        });
        let info = UpdateInfo {
            tag: "v9.9.9".into(),
            notes: String::new(),
            size: bytes.len() as u64,
            url: "http://127.0.0.1:1/x.exe".into(),
            digest: Some(format!("sha256:{good}")),
        };
        let disk = run_fetch(&bytes, 4096, &info, Some("100000"), &mut job);
        assert_eq!(job.as_ref().unwrap().state, State::Ready);
        assert_eq!(job.as_ref().unwrap().downloaded, bytes.len() as u64);
        assert_eq!(disk.placed.unwrap(), bytes);
        assert!(disk.part.is_none());
    }
    // (b) tampered digest → error, no final file, part cleaned up
    {
        let mut job = Some(DownloadJob {
            state: State::Downloading,
            downloaded: 0,
            total: 0,
            error: None,
            file: None,
        });
        let info = UpdateInfo {
            tag: "v9.9.9".into(),
            notes: String::new(),
            size: bytes.len() as u64,
            url: "http://127.0.0.1:1/x.exe".into(),
            digest: Some("sha256:0000000000000000000000000000000000000000000000000000000000000000".into()),
        };
        let disk = run_fetch(&bytes, 4096, &info, Some("100000"), &mut job);
        let err = job.as_ref().unwrap().error.clone().unwrap();
        assert!(err.contains("校验失败"), "{err}");
        assert!(disk.placed.is_none());
        assert!(disk.part.is_none());
    }
}

#[test]
fn digest_is_that_of_all_bytes() {
    // The digest of "abc", which is published with the algorithm.
    let abc = "ba7816bf8f01cfea414140de5dae2223b00361a396177a9cb410ff61f20015ad";
    for (digest, step, ready) in [
        (abc.to_string(), 1, true),
        (format!("sha256:{}", abc.to_uppercase()), 2, true),
        (format!("SHA256:{abc}"), 3, false),
        (format!("sha256:{}", &abc[1..]), 3, false),
    ] {
        let mut slot = Some(job(State::Downloading));
        let info = update("v1.0.0", 3, Some(digest));
        let disk = run_fetch(b"abc", step, &info, None, &mut slot);
        assert_eq!(slot.as_ref().unwrap().state == State::Ready, ready);
        assert_eq!(disk.placed.is_some(), ready);
        assert_eq!(slot.as_ref().unwrap().file.is_some(), ready);
        assert_eq!(slot.as_ref().unwrap().total, 3);
    }
}

#[test]
fn download_without_a_digest_is_not_checked() {
    let mut slot = Some(job(State::Downloading));
    let disk = run_fetch(b"", 5, &update("v1", 8, None), Some("nonsense"), &mut slot);
    assert_eq!(disk.placed.unwrap(), b"");
    let job = slot.unwrap();
    assert_eq!((job.state, job.total, job.downloaded), (State::Ready, 8, 0));
    assert_eq!(job.file.as_deref(), Some("x.exe"));
}

#[test]
fn download_faults_name_their_place() {
    let info = update("v1", 8, None);
    let fail = |events: Vec<Event>| {
        let mut slot = Some(job(State::Downloading));
        let mut fetch = Fetch::new();
        for event in events {
            fetch.fetch_and_verify(event, &info, &mut slot);
        }
        let stop = fetch.fetch_and_verify(Event::Failed("e".to_string()), &info, &mut slot);
        assert_eq!(stop, Action::Stop);
        fetch.finish(String::new(), &mut slot);
        let job = slot.unwrap();
        assert_eq!(job.state, State::Error);
        assert!(job.file.is_none());
        job.error.unwrap()
    };
    assert_eq!(fail(vec![]), "下载失败：e");
    assert_eq!(fail(vec![Event::Answered(None)]), "创建文件失败：e");
    assert_eq!(fail(vec![Event::Answered(None), Event::Created]), "读取下载流失败：e");
    assert_eq!(
        fail(vec![Event::Answered(None), Event::Created, Event::Read(3)]),
        "写入文件失败：e"
    );
    assert_eq!(
        fail(vec![Event::Answered(None), Event::Created, Event::Read(0)]),
        "移动文件失败：e"
    );
    assert_eq!(fault_message(Fault::Directory, "e"), "创建更新目录失败：e");
}

#[test]
fn downloads_begin_one_at_a_time() {
    let info = update("v0.5.0", 77, None);
    for (state, busy) in [
        (State::Downloading, true),
        (State::Verifying, true),
        (State::Ready, false),
        (State::Error, false),
    ] {
        let slot = Some(job(state));
        assert_eq!(is_busy(&slot), busy);
        match start_download(&slot, &info) {
            Ok(plan) => {
                assert!(!busy);
                assert_eq!(plan.file, "dsh-desktop_0.5.0_x64-setup.exe");
                assert_eq!(plan.part, "dsh-desktop_0.5.0_x64-setup.part");
            }
            Err(e) => {
                assert!(busy);
                assert_eq!(e, "已有下载任务进行中");
            }
        }
    }
    let mut slot = None;
    assert!(!is_busy(&slot));
    let plan = begin_download(&mut slot, &info).unwrap();
    assert_eq!(plan.file, "dsh-desktop_0.5.0_x64-setup.exe");
    assert_eq!(plan.part, "dsh-desktop_0.5.0_x64-setup.part");
    // A second one is refused, and the first is left as it is.
    let other = update("v0.6.0", 88, None);
    assert_eq!(begin_download(&mut slot, &other).err().as_deref(), Some("已有下载任务进行中"));
    let job = slot.unwrap();
    assert_eq!((job.state, job.downloaded, job.total), (State::Downloading, 0, 77));
    assert!(job.error.is_none() && job.file.is_none());
}

#[test]
fn start_endpoint_needs_a_check_first() {
    let said = |last: &Option<UpdateInfo>, slot: &Option<DownloadJob>| match handle_start(last, slot)
    {
        StartStep::Answer(a) => json(&a)["error"].as_str().unwrap().to_string(),
        StartStep::Download(u, plan) => format!("{} {}", u.tag, plan.file),
    };
    let last = Some(update("v0.5.0", 1, None));
    assert_eq!(said(&None, &None), "请先检查更新");
    assert_eq!(said(&last, &Some(job(State::Verifying))), "已有下载任务进行中");
    assert_eq!(said(&last, &None), "v0.5.0 dsh-desktop_0.5.0_x64-setup.exe");
    assert_eq!(answer(Ok(())), "{\"ok\":true}");
    assert_eq!(answer(Err("x".to_string())), "{\"error\":\"x\",\"ok\":false}");
}

#[test]
fn update_status_shows_the_download() {
    assert_eq!(handle_status(&None), "{\"ok\":true,\"state\":\"idle\"}");
    let mut slot = Some(job(State::Downloading));
    for (state, name) in [
        (State::Downloading, "downloading"),
        (State::Verifying, "verifying"),
        (State::Ready, "ready"),
        (State::Error, "error"),
    ] {
        slot.as_mut().unwrap().state = state;
        assert_eq!(json(&handle_status(&slot))["state"], name);
    }
    slot.as_mut().unwrap().error = Some("e".to_string());
    slot.as_mut().unwrap().downloaded = 5;
    assert_eq!(
        handle_status(&slot),
        "{\"downloaded\":5,\"error\":\"e\",\"file\":null,\"ok\":true,\"state\":\"error\",\"total\":0}"
    );
    assert_eq!(installer(&slot), None);
    slot.as_mut().unwrap().file = Some("f".to_string());
    assert_eq!(installer(&slot).as_deref(), Some("f"));
    assert_eq!(installer(&None), None);
}

#[test]
fn install_endpoint_leaves_only_for_the_installer() {
    assert_eq!(handle_install(InstallOutcome::Running), ("{\"ok\":true}".to_string(), true));
    let (a, leave) = handle_install(InstallOutcome::Missing);
    assert_eq!((json(&a)["error"].as_str(), leave), (Some("没有已下载的安装包"), false));
    let (a, leave) = handle_install(InstallOutcome::Refused("e".to_string()));
    assert_eq!((json(&a)["error"].as_str(), leave), (Some("启动安装程序失败：e"), false));
    let (a, leave) = handle_install(InstallOutcome::Unsupported);
    assert_eq!((json(&a)["error"].as_str(), leave), (Some("自动更新仅支持 Windows"), false));
    assert_eq!(INSTALLER_HEAD_START_MS, 1500);
}

#[test]
fn open_endpoint_names_the_page() {
    assert_eq!(release_page(&None), "https://github.com/QWQ123321123/dsh-desktop/releases");
    assert_eq!(
        release_page(&Some(update("v0.5.0", 1, None))),
        "https://github.com/QWQ123321123/dsh-desktop/releases/tag/v0.5.0"
    );
    assert_eq!(handle_open(OpenOutcome::Opened), "{\"ok\":true}");
    let a = handle_open(OpenOutcome::Refused("e".to_string()));
    assert_eq!(json(&a)["error"], "打开下载页失败：e");
    assert_eq!(
        handle_open(OpenOutcome::Unsupported),
        "{\"ok\":false,\"error\":\"仅支持 Windows\"}"
    );
}

#[test]
fn updates_can_be_copied() {
    let info = update("v1.2.3", 4, Some("d".to_string()));
    let copy = info.clone();
    assert_eq!(copy.tag, info.tag);
    assert_eq!(copy.digest, info.digest);
    assert_eq!(copy.version(), "1.2.3");
}
