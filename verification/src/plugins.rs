//! The plugin job: one install, removal or setup of the package manager at a time, in the
//! background, and what is told of it.

use serde_json::Value;
use vstd::prelude::*;
use vstd::utf8::*;

use crate::decode::opt_view;
use crate::encoding::{lossy, utf8_lossy};
use crate::json::{flag, json_of, no_fields, object, plain, put, render, text, Json};
use crate::number::{signed_decimal, signed_decimal_of};
use crate::package::{carries, is_registry_name, parse_pkg, pkg_param, valid_pkg};
use crate::reply::{error_doc, error_reply, join, lemma_flat, ok_body, ok_text, scalar, writes};
use crate::text::same;

verus! {

// ---------------------------------------------------------------- the job

/// How far a job is.
#[derive(Debug, Clone, Copy, PartialEq, Eq, Structural)]
pub enum JobState {
    Running,
    Done,
    Error,
}

/// A job: `install` or `remove` a package, or set up `pnpm`.
#[derive(Debug)]
pub struct PluginJob {
    pub kind: &'static str,
    pub pkg: String,
    pub state: JobState,
    pub message: String,
    pub output: String,
}

/// What a job holds.
#[verifier::ext_equal]
pub struct PluginView {
    pub kind: Seq<char>,
    pub pkg: Seq<char>,
    pub state: JobState,
    pub message: Seq<char>,
    pub output: Seq<char>,
}

impl View for PluginJob {
    type V = PluginView;

    open spec fn view(&self) -> PluginView {
        PluginView {
            kind: self.kind@,
            pkg: self.pkg@,
            state: self.state,
            message: self.message@,
            output: self.output@,
        }
    }
}

/// What the slot of the one job holds.
pub open spec fn job_in(slot: Option<PluginJob>) -> Option<PluginView> {
    match slot {
        Some(j) => Some(j@),
        None => None,
    }
}

/// A job that is not over.
pub open spec fn is_running(slot: Option<PluginView>) -> bool {
    slot matches Some(j) && j.state is Running
}

/// A slot whose job, if it has one, is in some state and says something.
pub open spec fn with_state(slot: Option<PluginView>, state: JobState, message: Seq<char>) -> Option<
    PluginView,
> {
    match slot {
        Some(j) => Some(PluginView { state, message, ..j }),
        None => None,
    }
}

/// Sets what the job in the slot, if there is one, has come to.
pub fn set_job_state(slot: &mut Option<PluginJob>, state: JobState, message: String)
    ensures
        job_in(*final(slot)) == with_state(job_in(*old(slot)), state, message@),
{
    if let Some(job) = slot {
        job.state = state;
        job.message = message;
    }
}

// ---------------------------------------------------------------- output

/// How many bytes of a job's output are kept.
pub const OUTPUT_LIMIT: usize = 3000;

/// Where the part of some bytes begins that is kept.
pub open spec fn kept_from(bytes: Seq<u8>) -> int {
    if bytes.len() > OUTPUT_LIMIT {
        bytes.len() - OUTPUT_LIMIT
    } else {
        0
    }
}

/// The end of a text can be kept: its cut is between two characters.
pub open spec fn can_cut(s: Seq<char>) -> bool {
    is_char_boundary(encode_utf8(s), kept_from(encode_utf8(s)))
}

/// The end of a text that is kept.
pub open spec fn kept(s: Seq<char>) -> Seq<char> {
    decode_utf8(encode_utf8(s).skip(kept_from(encode_utf8(s))))
}

/// Whether a text can be added to some output.
pub fn can_append(tail: &str, text: &str) -> (r: bool)
    ensures
        r == can_cut(tail@ + text@),
{
    let all: String = join(tail, text);
    let n: usize = all.as_str().as_bytes().len();
    let from: usize = if n > OUTPUT_LIMIT {
        n - OUTPUT_LIMIT
    } else {
        0
    };
    all.as_str().is_char_boundary(from)
}

/// Adds a text to some output, of which the end is kept.
pub fn append_output(tail: &mut String, text: &str)
    requires
        can_cut(old(tail)@ + text@),
    ensures
        final(tail)@ == kept(old(tail)@ + text@),
{
    tail.append(text);
    let n: usize = tail.as_str().as_bytes().len();
    let ghost all = encode_utf8(tail@);
    proof {
        encode_utf8_valid_utf8(tail@);
    }
    if n > OUTPUT_LIMIT {
        let (_, end) = tail.as_str().split_at(n - OUTPUT_LIMIT);
        let new: String = end.to_owned();
        proof {
            assert(encode_utf8(new@) == all.skip(n - OUTPUT_LIMIT));
            encode_utf8_decode_utf8(new@);
        }
        *tail = new;
    } else {
        proof {
            assert(all.skip(0) == all);
            encode_utf8_decode_utf8(tail@);
        }
    }
}

/// What is kept of a text is its end: at most so many bytes, and the whole text where it has no
/// more.
pub proof fn law_kept_is_the_end(s: Seq<char>)
    requires
        can_cut(s),
    ensures
        encode_utf8(kept(s)).len() <= OUTPUT_LIMIT,
        encode_utf8(s).len() <= OUTPUT_LIMIT ==> kept(s) == s,
        exists|n: int| 0 <= n <= s.len() && kept(s) == #[trigger] s.skip(n),
{
    let b = encode_utf8(s);
    let at = kept_from(b);
    encode_utf8_valid_utf8(s);
    encode_utf8_decode_utf8(s);
    valid_utf8_split(b, at);
    decode_utf8_split(b, at);
    let tail = b.subrange(at, b.len() as int);
    assert(b.skip(at) == tail);
    decode_utf8_encode_utf8(tail);
    let head = decode_utf8(b.subrange(0, at));
    assert(s == head + kept(s));
    assert(s.skip(head.len() as int) == kept(s));
    if b.len() <= OUTPUT_LIMIT {
        assert(b.skip(0) == b);
    }
}

// ---------------------------------------------------------------- running

/// The arguments of the `dsh` CLI for work on the plugins of the page's profile.
pub fn dsh_plugin_args(bin: &str, args: &[&str]) -> (r: Vec<String>)
    ensures
        r@.map_values(|s: String| s@) == seq![bin@, "plugin"@, "--profile"@, "web"@] + args@.map_values(
            |s: &str| s@,
        ),
{
    let mut out: Vec<String> = Vec::new();
    out.push(bin.to_owned());
    out.push("plugin".to_owned());
    out.push("--profile".to_owned());
    out.push("web".to_owned());
    let ghost head = seq![bin@, "plugin"@, "--profile"@, "web"@];
    assert(out@.map_values(|s: String| s@) == head);
    let mut i: usize = 0;
    while i < args.len()
        invariant
            i <= args@.len(),
            head.len() == 4,
            out@.map_values(|s: String| s@) == head + args@.map_values(|s: &str| s@).take(i as int),
        decreases args@.len() - i,
    {
        let ghost before = out@.map_values(|s: String| s@);
        out.push(args[i].to_owned());
        proof {
            let all = args@.map_values(|s: &str| s@);
            assert(out@.map_values(|s: String| s@) == before.push(args@[i as int]@));
            assert(all.take(i + 1) == all.take(i as int).push(all[i as int]));
            assert(head + all.take(i + 1) == (head + all.take(i as int)).push(all[i as int]));
        }
        i += 1;
    }
    proof {
        let all = args@.map_values(|s: &str| s@);
        assert(all.take(all.len() as int) == all);
    }
    out
}

/// What the CLI is asked for a job on a package: a subcommand, if the kind has one.
pub open spec fn subcommand_of(kind: Seq<char>) -> Option<Seq<char>> {
    if kind == "install"@ {
        Some("add"@)
    } else if kind == "remove"@ {
        Some("remove"@)
    } else {
        None
    }
}

/// What the CLI is asked for a job on a package.
pub fn subcommand(kind: &str) -> (r: Option<&'static str>)
    ensures
        match r {
            Some(s) => subcommand_of(kind@) == Some(s@),
            None => subcommand_of(kind@) is None,
        },
{
    if same(kind, "install") {
        Some("add")
    } else if same(kind, "remove") {
        Some("remove")
    } else {
        None
    }
}

/// The arguments of the CLI for a job on a package, if it is asked for one.
pub open spec fn job_args_of(bin: Seq<char>, kind: Seq<char>, pkg: Seq<char>) -> Option<
    Seq<Seq<char>>,
> {
    match subcommand_of(kind) {
        Some(sub) => Some(seq![bin, "plugin"@, "--profile"@, "web"@, sub, pkg]),
        None => None,
    }
}

/// The arguments of the CLI for a job on a package, if it is asked for one.
pub fn job_args(bin: &str, kind: &str, pkg: &str) -> (r: Option<Vec<String>>)
    ensures
        match r {
            Some(args) => job_args_of(bin@, kind@, pkg@) == Some(
                args@.map_values(|s: String| s@),
            ),
            None => job_args_of(bin@, kind@, pkg@) is None,
        },
{
    match subcommand(kind) {
        Some(sub) => {
            let mut args: Vec<&str> = Vec::new();
            args.push(sub);
            args.push(pkg);
            proof {
                assert(args@.map_values(|s: &str| s@) == seq![sub@, pkg@]);
                assert(seq![bin@, "plugin"@, "--profile"@, "web"@] + seq![sub@, pkg@] == seq![
                    bin@,
                    "plugin"@,
                    "--profile"@,
                    "web"@,
                    sub@,
                    pkg@,
                ]);
            }
            Some(dsh_plugin_args(bin, args.as_slice()))
        },
        None => None,
    }
}

/// The program that sets up `pnpm`.
pub const NPM: &'static str = "npm.cmd";

/// The arguments with which `pnpm` is set up.
pub open spec fn npm_args_of() -> Seq<Seq<char>> {
    seq!["install"@, "-g"@, "pnpm"@]
}

/// The arguments with which `pnpm` is set up.
pub fn npm_args() -> (r: Vec<String>)
    ensures
        r@.map_values(|s: String| s@) == npm_args_of(),
{
    let mut v: Vec<String> = Vec::new();
    v.push("install".to_owned());
    v.push("-g".to_owned());
    v.push("pnpm".to_owned());
    assert(v@.map_values(|s: String| s@) == npm_args_of());
    v
}

/// What is run for a job.
#[derive(Debug)]
pub enum Program {
    /// The `dsh` CLI, with these arguments.
    Cli(Vec<String>),
    /// `NPM`, with these arguments.
    Npm(Vec<String>),
    Nothing,
}

/// What is run for a job, in contracts.
#[verifier::ext_equal]
pub enum ProgramView {
    Cli(Seq<Seq<char>>),
    Npm(Seq<Seq<char>>),
    Nothing,
}

impl View for Program {
    type V = ProgramView;

    open spec fn view(&self) -> ProgramView {
        match *self {
            Program::Cli(args) => ProgramView::Cli(args@.map_values(|s: String| s@)),
            Program::Npm(args) => ProgramView::Npm(args@.map_values(|s: String| s@)),
            Program::Nothing => ProgramView::Nothing,
        }
    }
}

/// What is run for a job of some kind on a package.
pub open spec fn program_of(bin: Seq<char>, kind: Seq<char>, pkg: Seq<char>) -> ProgramView {
    if kind == "pnpm"@ {
        ProgramView::Npm(npm_args_of())
    } else {
        match job_args_of(bin, kind, pkg) {
            Some(args) => ProgramView::Cli(args),
            None => ProgramView::Nothing,
        }
    }
}

/// What is run for a job of some kind on a package.
pub fn program(bin: &str, kind: &str, pkg: &str) -> (r: Program)
    ensures
        r@ == program_of(bin@, kind@, pkg@),
{
    if same(kind, "pnpm") {
        return Program::Npm(npm_args());
    }
    match job_args(bin, kind, pkg) {
        Some(args) => Program::Cli(args),
        None => Program::Nothing,
    }
}

/// How a program ended.
#[derive(Debug)]
pub struct Exit {
    pub success: bool,
    pub code: Option<i32>,
}

/// What a program printed, and how it ended.
#[derive(Debug)]
pub struct Finished {
    pub stdout: String,
    pub stderr: String,
    pub exit: Exit,
}

/// An exit code as it is shown.
pub open spec fn code_text(code: Option<i32>) -> Seq<char> {
    match code {
        Some(n) => "Some("@ + signed_decimal_of(n as int) + ")"@,
        None => "None"@,
    }
}

/// An exit code as it is shown.
pub fn show_code(code: Option<i32>) -> (r: String)
    ensures
        r@ == code_text(code),
{
    match code {
        Some(n) => {
            let mut s: String = "Some(".to_owned();
            s.append(signed_decimal(n).as_str());
            s.append(")");
            s
        },
        None => "None".to_owned(),
    }
}

/// What a job on a package has come to, and what is said of it.
pub open spec fn verdict_of(kind: Seq<char>, exit: Exit) -> (JobState, Seq<char>) {
    if exit.success {
        (
            JobState::Done,
            (if kind == "install"@ {
                "安装"@
            } else {
                "卸载"@
            }) + " 成功"@,
        )
    } else if exit.code == Some(127i32) {
        (
            JobState::Error,
            "未找到 pnpm（dsh 插件管理依赖它）。点下方按钮自动安装，或手动执行 npm i -g pnpm"@,
        )
    } else {
        (
            JobState::Error,
            "pnpm 失败（退出码 "@ + code_text(exit.code)
                + "）。常见原因：包名不存在、网络不可达、或 pnpm 10 对 git 依赖的 build 脚本拦截（见输出）"@,
        )
    }
}

/// What the setup of `pnpm` has come to, and what is said of it.
pub open spec fn pnpm_verdict_of(exit: Exit) -> (JobState, Seq<char>) {
    if exit.success {
        (JobState::Done, "pnpm 安装完成，回到插件市场即可使用"@)
    } else {
        (
            JobState::Error,
            "pnpm 安装失败（退出码 "@ + code_text(exit.code) + "），请手动执行 npm i -g pnpm"@,
        )
    }
}

fn verdict(kind: &str, exit: &Exit) -> (r: (JobState, String))
    ensures
        (r.0, r.1@) == verdict_of(kind@, *exit),
{
    if exit.success {
        let head: &str = if same(kind, "install") {
            "安装"
        } else {
            "卸载"
        };
        return (JobState::Done, join(head, " 成功"));
    }
    if let Some(n) = exit.code {
        if n == 127 {
            return (
                JobState::Error,
                "未找到 pnpm（dsh 插件管理依赖它）。点下方按钮自动安装，或手动执行 npm i -g pnpm".to_owned(),
            );
        }
    }
    let mut s: String = "pnpm 失败（退出码 ".to_owned();
    s.append(show_code(exit.code).as_str());
    s.append("）。常见原因：包名不存在、网络不可达、或 pnpm 10 对 git 依赖的 build 脚本拦截（见输出）");
    (JobState::Error, s)
}

fn pnpm_verdict(exit: &Exit) -> (r: (JobState, String))
    ensures
        (r.0, r.1@) == pnpm_verdict_of(*exit),
{
    if exit.success {
        return (JobState::Done, "pnpm 安装完成，回到插件市场即可使用".to_owned());
    }
    let mut s: String = "pnpm 安装失败（退出码 ".to_owned();
    s.append(show_code(exit.code).as_str());
    s.append("），请手动执行 npm i -g pnpm");
    (JobState::Error, s)
}

/// The output of a job can be taken: both its cuts are between characters.
pub open spec fn can_record(slot: Option<PluginView>, stdout: Seq<char>, stderr: Seq<char>) -> bool {
    slot matches Some(j) ==> can_cut(j.output + stdout) && can_cut(
        kept(j.output + stdout) + stderr,
    )
}

/// A slot whose job, if it has one, has taken its output and its verdict.
pub open spec fn concluded(
    slot: Option<PluginView>,
    stdout: Seq<char>,
    stderr: Seq<char>,
    verdict: (JobState, Seq<char>),
) -> Option<PluginView> {
    match slot {
        Some(j) => Some(
            PluginView {
                state: verdict.0,
                message: verdict.1,
                output: kept(kept(j.output + stdout) + stderr),
                ..j
            },
        ),
        None => None,
    }
}

/// What came of a job on a package is noted: what the CLI printed and how it ended, or why it
/// could not be started. A kind that the CLI is asked nothing for changes nothing.
pub fn run_job(slot: &mut Option<PluginJob>, kind: &'static str, out: Result<Finished, String>)
    requires
        out matches Ok(o) ==> can_record(job_in(*old(slot)), o.stdout@, o.stderr@),
    ensures
        job_in(*final(slot)) == if subcommand_of(kind@) is None {
            job_in(*old(slot))
        } else {
            match out {
                Ok(o) => concluded(
                    job_in(*old(slot)),
                    o.stdout@,
                    o.stderr@,
                    verdict_of(kind@, o.exit),
                ),
                Err(e) => with_state(
                    job_in(*old(slot)),
                    JobState::Error,
                    "无法启动 dsh CLI："@ + e@,
                ),
            }
        },
{
    if subcommand(kind).is_none() {
        return ;
    }
    match out {
        Ok(o) => {
            let (state, message) = verdict(kind, &o.exit);
            record(slot, &o, state, message);
        },
        Err(e) => set_job_state(slot, JobState::Error, join("无法启动 dsh CLI：", e.as_str())),
    }
}

/// What came of setting up `pnpm` is noted.
pub fn run_pnpm_job(slot: &mut Option<PluginJob>, out: Result<Finished, String>)
    requires
        out matches Ok(o) ==> can_record(job_in(*old(slot)), o.stdout@, o.stderr@),
    ensures
        job_in(*final(slot)) == match out {
            Ok(o) => concluded(
                job_in(*old(slot)),
                o.stdout@,
                o.stderr@,
                pnpm_verdict_of(o.exit),
            ),
            Err(e) => with_state(job_in(*old(slot)), JobState::Error, "无法启动 npm："@ + e@),
        },
{
    match out {
        Ok(o) => {
            let (state, message) = pnpm_verdict(&o.exit);
            record(slot, &o, state, message);
        },
        Err(e) => set_job_state(slot, JobState::Error, join("无法启动 npm：", e.as_str())),
    }
}

fn record(slot: &mut Option<PluginJob>, o: &Finished, state: JobState, message: String)
    requires
        can_record(job_in(*old(slot)), o.stdout@, o.stderr@),
    ensures
        job_in(*final(slot)) == concluded(
            job_in(*old(slot)),
            o.stdout@,
            o.stderr@,
            (state, message@),
        ),
{
    if let Some(job) = slot {
        append_output(&mut job.output, o.stdout.as_str());
        append_output(&mut job.output, o.stderr.as_str());
        job.state = state;
        job.message = message;
    }
}

/// Notes that the program of a job, of any kind, could not be started.
pub fn not_started(slot: &mut Option<PluginJob>, kind: &'static str, e: String)
    ensures
        job_in(*final(slot)) == if kind@ == "pnpm"@ {
            with_state(job_in(*old(slot)), JobState::Error, "无法启动 npm："@ + e@)
        } else if subcommand_of(kind@) is Some {
            with_state(job_in(*old(slot)), JobState::Error, "无法启动 dsh CLI："@ + e@)
        } else {
            job_in(*old(slot))
        },
{
    if same(kind, "pnpm") {
        run_pnpm_job(slot, Err(e));
    } else {
        run_job(slot, kind, Err(e));
    }
}

/// Whether the output of a job can be taken.
pub fn fits(slot: &Option<PluginJob>, stdout: &str, stderr: &str) -> (r: bool)
    ensures
        r == can_record(job_in(*slot), stdout@, stderr@),
{
    match slot {
        Some(j) => {
            if !can_append(j.output.as_str(), stdout) {
                return false;
            }
            let mut tail: String = j.output.clone();
            append_output(&mut tail, stdout);
            can_append(tail.as_str(), stderr)
        },
        None => true,
    }
}

/// What a program printed, as bytes, and how it ended.
#[derive(Debug)]
pub struct RawFinished {
    pub stdout: Vec<u8>,
    pub stderr: Vec<u8>,
    pub exit: Exit,
}

/// Notes what a program printed and how it ended, for a job of any kind. The slot is left as it
/// was, and the result is false, where the end of the output would begin inside a character.
pub fn conclude(slot: &mut Option<PluginJob>, kind: &'static str, raw: RawFinished) -> (r: bool)
    ensures
        ({
            let (stdout, stderr) = (utf8_lossy(raw.stdout@), utf8_lossy(raw.stderr@));
            &&& r == can_record(job_in(*old(slot)), stdout, stderr)
            &&& !r ==> *final(slot) == *old(slot)
            &&& r ==> job_in(*final(slot)) == if kind@ == "pnpm"@ {
                concluded(job_in(*old(slot)), stdout, stderr, pnpm_verdict_of(raw.exit))
            } else if subcommand_of(kind@) is Some {
                concluded(job_in(*old(slot)), stdout, stderr, verdict_of(kind@, raw.exit))
            } else {
                job_in(*old(slot))
            }
        }),
{
    let stdout: String = lossy(raw.stdout.as_slice());
    let stderr: String = lossy(raw.stderr.as_slice());
    if !fits(slot, stdout.as_str(), stderr.as_str()) {
        return false;
    }
    let out: Result<Finished, String> = Ok(Finished { stdout, stderr, exit: raw.exit });
    if same(kind, "pnpm") {
        run_pnpm_job(slot, out);
    } else {
        run_job(slot, kind, out);
    }
    true
}

// ---------------------------------------------------------------- a program with a time limit

/// What is known of a program that was started.
#[derive(Debug, Clone, Copy, PartialEq, Eq, Structural)]
pub enum Poll {
    Exited,
    Running,
    Unknown,
}

/// What is done about it.
#[derive(Debug, Clone, Copy, PartialEq, Eq, Structural)]
pub enum Bounded {
    /// Its output is collected.
    Collect,
    /// It is killed, and counts as not having answered.
    Kill,
    /// It is asked again after so many milliseconds.
    Sleep(u64),
    /// It counts as not having answered.
    GiveUp,
}

/// What is done about a program that may run for so many seconds.
pub open spec fn bounded_of(poll: Poll, elapsed_ns: u128, secs: u64) -> Bounded {
    match poll {
        Poll::Exited => Bounded::Collect,
        Poll::Running => if elapsed_ns > secs * 1_000_000_000 {
            Bounded::Kill
        } else {
            Bounded::Sleep(50)
        },
        Poll::Unknown => Bounded::GiveUp,
    }
}

/// What is done about a program that may run for so many seconds.
pub fn run_bounded(poll: Poll, elapsed_ns: u128, secs: u64) -> (r: Bounded)
    ensures
        r == bounded_of(poll, elapsed_ns, secs),
{
    match poll {
        Poll::Exited => Bounded::Collect,
        Poll::Running => if elapsed_ns > secs as u128 * 1_000_000_000 {
            Bounded::Kill
        } else {
            Bounded::Sleep(50)
        },
        Poll::Unknown => Bounded::GiveUp,
    }
}

// ---------------------------------------------------------------- endpoints

/// What the start endpoint does.
#[verifier::ext_equal]
pub enum Start {
    /// Says that the package is missing.
    NoPackage,
    /// Refuses, with what it says.
    Refused(Seq<char>),
    /// Begins the job.
    Begins(PluginView),
}

/// What is said of a name that is not a registry name.
pub open spec fn bad_name_text() -> Seq<char> {
    "包名不合法：仅接受 npm 注册表包名（如 pkg-name 或 @scope/pkg），不能是路径、参数或特殊字符"@
}

/// What is said while another job is running.
pub open spec fn running_text(j: PluginView) -> Seq<char> {
    "已有任务进行中："@ + j.kind + " "@ + j.pkg
}

/// What is done about a job that is asked for, given the package that is named.
pub open spec fn start_of(slot: Option<PluginView>, kind: Seq<char>, pkg: Option<Seq<char>>) -> Start {
    if kind != "pnpm"@ && pkg is None {
        Start::NoPackage
    } else if kind != "pnpm"@ && !is_registry_name(pkg->0) {
        Start::Refused(bad_name_text())
    } else if is_running(slot) {
        Start::Refused(running_text(slot->0))
    } else {
        Start::Begins(
            PluginView {
                kind,
                pkg: if kind == "pnpm"@ {
                    Seq::empty()
                } else {
                    pkg->0
                },
                state: JobState::Running,
                message: Seq::empty(),
                output: Seq::empty(),
            },
        )
    }
}

/// The slot, the answer and whether a job is to be run, of what the start endpoint does.
pub open spec fn started(
    s: Start,
    before: Option<PluginJob>,
    after: Option<PluginJob>,
    answer: Seq<char>,
    run: bool,
) -> bool {
    match s {
        Start::NoPackage => !run && after == before && answer
            == "{\"ok\":false,\"error\":\"缺少 pkg 参数\"}"@,
        Start::Refused(e) => !run && after == before && writes(answer, error_doc(e)),
        Start::Begins(j) => run && job_in(after) == Some(j) && answer == ok_text(),
    }
}

/// Begins the job of some kind on the package that is named, if it may begin: the answer, and
/// whether the job is to be run.
pub fn begin_job(slot: &mut Option<PluginJob>, kind: &'static str, pkg: Option<String>) -> (r: (
    String,
    bool,
))
    ensures
        started(
            start_of(job_in(*old(slot)), kind@, opt_view(pkg)),
            *old(slot),
            *final(slot),
            r.0@,
            r.1,
        ),
{
    let name: String = if same(kind, "pnpm") {
        String::new()
    } else {
        match pkg {
            Some(p) => p,
            None => return ("{\"ok\":false,\"error\":\"缺少 pkg 参数\"}".to_owned(), false),
        }
    };
    if !same(kind, "pnpm") && !valid_pkg(name.as_str()) {
        return (
            error_reply("包名不合法：仅接受 npm 注册表包名（如 pkg-name 或 @scope/pkg），不能是路径、参数或特殊字符"),
            false,
        );
    }
    match slot {
        Some(job) => {
            if job.state == JobState::Running {
                let mut e: String = "已有任务进行中：".to_owned();
                e.append(job.kind);
                e.append(" ");
                e.append(job.pkg.as_str());
                return (error_reply(e.as_str()), false);
            }
        },
        None => {},
    }
    *slot = Some(
        PluginJob {
            kind,
            pkg: name,
            state: JobState::Running,
            message: String::new(),
            output: String::new(),
        },
    );
    (ok_body(), true)
}

/// The start endpoint: its answer, and whether the job that is now in the slot is to be run. The
/// package is the one that the page named, however it had to be encoded.
pub fn handle_start(slot: &mut Option<PluginJob>, kind: &'static str, query: &str) -> (r: (
    String,
    bool,
))
    ensures
        started(
            start_of(job_in(*old(slot)), kind@, pkg_param(query@)),
            *old(slot),
            *final(slot),
            r.0@,
            r.1,
        ),
        forall|pkg: Seq<char>| #[trigger]
            carries(query@, pkg) ==> started(
                start_of(job_in(*old(slot)), kind@, Some(pkg)),
                *old(slot),
                *final(slot),
                r.0@,
                r.1,
            ),
{
    let pkg: Option<String> = parse_pkg(query);
    begin_job(slot, kind, pkg)
}

/// The name of a state.
pub open spec fn job_state_name(s: JobState) -> Seq<char> {
    match s {
        JobState::Running => "running"@,
        JobState::Done => "done"@,
        JobState::Error => "error"@,
    }
}

/// A job, in a document.
pub open spec fn job_doc(j: PluginView) -> Json {
    Json::Obj(
        no_fields().insert("state"@, Json::Str(job_state_name(j.state))).insert(
            "kind"@,
            Json::Str(j.kind),
        ).insert("pkg"@, Json::Str(j.pkg)).insert("message"@, Json::Str(j.message)).insert(
            "output"@,
            Json::Str(j.output),
        ),
    )
}

/// What is answered of a job.
pub open spec fn job_status_doc(j: PluginView) -> Json {
    Json::Obj(no_fields().insert("ok"@, Json::Bool(true)).insert("job"@, job_doc(j)))
}

/// The status endpoint.
pub fn handle_status(slot: &Option<PluginJob>) -> (r: String)
    ensures
        match job_in(*slot) {
            None => r@ == "{\"ok\":true,\"job\":null}"@,
            Some(j) => writes(r@, job_status_doc(j)),
        },
{
    match slot {
        None => "{\"ok\":true,\"job\":null}".to_owned(),
        Some(j) => {
            let name: &str = match j.state {
                JobState::Running => "running",
                JobState::Done => "done",
                JobState::Error => "error",
            };
            let mut job: Value = object();
            put(&mut job, "state", text(name));
            put(&mut job, "kind", text(j.kind));
            put(&mut job, "pkg", text(j.pkg.as_str()));
            put(&mut job, "message", text(j.message.as_str()));
            put(&mut job, "output", text(j.output.as_str()));
            proof {
                lemma_flat(json_of(job)->Obj_0, 99);
            }
            let mut v: Value = object();
            put(&mut v, "ok", flag(true));
            put(&mut v, "job", job);
            proof {
                let m = json_of(v)->Obj_0;
                assert forall|k: Seq<char>| #[trigger] m.dom().contains(k) implies plain(
                    m[k],
                    99,
                ) by {
                    if k != "job"@ {
                        assert(scalar(m[k]));
                    }
                }
            }
            render(&v)
        },
    }
}

// ---------------------------------------------------------------- laws

/// One job at a time: while one is running, none begins, whatever is asked for.
pub proof fn law_one_job_at_a_time(slot: Option<PluginView>, kind: Seq<char>, pkg: Option<Seq<char>>)
    requires
        is_running(slot),
    ensures
        !(start_of(slot, kind, pkg) is Begins),
{
}

/// A job that begins works on a registry name, or is the setup of `pnpm`, which takes no name.
pub proof fn law_only_registry_names_begin(
    slot: Option<PluginView>,
    kind: Seq<char>,
    pkg: Option<Seq<char>>,
)
    ensures
        start_of(slot, kind, pkg) matches Start::Begins(j) ==> j.kind == kind && j.state is Running
            && (is_registry_name(j.pkg) || (kind == "pnpm"@ && j.pkg.len() == 0)),
{
}

/// The CLI is handed nothing but registry names: the arguments of a job that begins end in one.
pub proof fn law_the_cli_gets_registry_names(
    slot: Option<PluginView>,
    kind: Seq<char>,
    pkg: Option<Seq<char>>,
    bin: Seq<char>,
)
    ensures
        start_of(slot, kind, pkg) matches Start::Begins(j) ==> (job_args_of(bin, j.kind, j.pkg)
            matches Some(args) ==> args.len() == 6 && is_registry_name(args[5])),
{
    reveal_strlit("pnpm");
    reveal_strlit("install");
    reveal_strlit("remove");
    assert("pnpm"@.len() == 4 && "install"@.len() == 7 && "remove"@.len() == 6);
}

/// A job that is over makes room: what it has come to is not running, so the next may begin.
pub proof fn law_a_job_that_is_over_makes_room(
    slot: Option<PluginView>,
    stdout: Seq<char>,
    stderr: Seq<char>,
    kind: Seq<char>,
    exit: Exit,
    e: Seq<char>,
)
    ensures
        !is_running(concluded(slot, stdout, stderr, verdict_of(kind, exit))),
        !is_running(concluded(slot, stdout, stderr, pnpm_verdict_of(exit))),
        !is_running(with_state(slot, JobState::Error, e)),
{
}

/// A job begins exactly when its package is one that may be installed, or it needs none, and no
/// other is running; and then it is the job that was asked for, and has said and printed nothing.
pub proof fn law_which_jobs_begin(slot: Option<PluginView>, kind: Seq<char>, pkg: Option<Seq<char>>)
    ensures
        start_of(slot, kind, pkg) is Begins <==> (kind == "pnpm"@ || (pkg is Some
            && is_registry_name(pkg->0))) && !(slot is Some && slot->0.state is Running),
        start_of(slot, kind, pkg) matches Start::Begins(j) ==> {
            &&& j.kind == kind && j.state is Running
            &&& j.message.len() == 0 && j.output.len() == 0
            &&& kind != "pnpm"@ ==> Some(j.pkg) == pkg
            &&& kind == "pnpm"@ ==> j.pkg.len() == 0
        },
        start_of(slot, kind, pkg) is NoPackage <==> kind != "pnpm"@ && pkg is None,
        kind != "pnpm"@ && pkg is Some && !is_registry_name(pkg->0) ==> start_of(slot, kind, pkg)
            == Start::Refused(bad_name_text()),
{
}

/// A start that is refused because a job is running names that job.
pub proof fn law_the_running_job_is_named(slot: Option<PluginView>, kind: Seq<char>, pkg: Seq<char>)
    requires
        is_running(slot),
        is_registry_name(pkg),
    ensures
        start_of(slot, kind, Some(pkg)) == Start::Refused(
            "已有任务进行中："@ + slot->0.kind + " "@ + slot->0.pkg,
        ),
{
}

/// A job ends well exactly when its program did. It stays the same job, and keeps the end of all
/// that it had printed, then of what went to its output, then of what went to its errors.
pub proof fn law_how_jobs_end(j: PluginView, stdout: Seq<char>, stderr: Seq<char>, kind: Seq<char>, exit: Exit)
    ensures
        ({
            let a = concluded(Some(j), stdout, stderr, verdict_of(kind, exit));
            let b = concluded(Some(j), stdout, stderr, pnpm_verdict_of(exit));
            &&& a is Some && b is Some
            &&& a->0.state == if exit.success {
                JobState::Done
            } else {
                JobState::Error
            }
            &&& b->0.state == a->0.state
            &&& a->0.kind == j.kind && a->0.pkg == j.pkg && b->0.kind == j.kind && b->0.pkg == j.pkg
            &&& a->0.output == kept(kept(j.output + stdout) + stderr) && b->0.output == a->0.output
        }),
        concluded(None, stdout, stderr, verdict_of(kind, exit)) is None,
{
}

/// Short output is kept whole, one part behind the other.
pub proof fn law_short_output_is_kept(j: PluginView, stdout: Seq<char>, stderr: Seq<char>, exit: Exit)
    requires
        encode_utf8(j.output + stdout).len() <= 3000,
        encode_utf8(j.output + stdout + stderr).len() <= 3000,
    ensures
        concluded(Some(j), stdout, stderr, pnpm_verdict_of(exit))->0.output == j.output + stdout
            + stderr,
        can_record(Some(j), stdout, stderr),
{
    let a = j.output + stdout;
    let b = a + stderr;
    encode_utf8_decode_utf8(a);
    encode_utf8_decode_utf8(b);
    encode_utf8_valid_utf8(a);
    encode_utf8_valid_utf8(b);
    assert(encode_utf8(a).skip(0) == encode_utf8(a));
    assert(encode_utf8(b).skip(0) == encode_utf8(b));
}

/// Of long output exactly the last 3000 bytes are kept.
pub proof fn law_long_output_keeps_its_last_bytes(s: Seq<char>)
    requires
        can_cut(s),
        encode_utf8(s).len() > 3000,
    ensures
        encode_utf8(kept(s)) == encode_utf8(s).skip(encode_utf8(s).len() - 3000),
{
    let b = encode_utf8(s);
    let at = kept_from(b);
    encode_utf8_valid_utf8(s);
    valid_utf8_split(b, at);
    let tail = b.subrange(at, b.len() as int);
    assert(b.skip(at) == tail);
    decode_utf8_encode_utf8(tail);
}

/// What is said of a program that failed names its exit code, whatever it is; that of a shell that
/// did not find `pnpm` is said otherwise.
pub proof fn law_exit_codes_are_named(kind: Seq<char>, n: i32)
    ensures
        ({
            let exit = Exit { success: false, code: Some(n) };
            let shown = "Some("@ + signed_decimal_of(n as int) + ")"@;
            &&& n != 127 ==> verdict_of(kind, exit).1 == "pnpm 失败（退出码 "@ + shown
                + "）。常见原因：包名不存在、网络不可达、或 pnpm 10 对 git 依赖的 build 脚本拦截（见输出）"@
            &&& n == 127 ==> verdict_of(kind, exit).1
                == "未找到 pnpm（dsh 插件管理依赖它）。点下方按钮自动安装，或手动执行 npm i -g pnpm"@
            &&& pnpm_verdict_of(exit).1 == "pnpm 安装失败（退出码 "@ + shown + "），请手动执行 npm i -g pnpm"@
        }),
{
}

/// The status of a job gives each part of it under its own name.
pub proof fn law_jobs_are_shown_by_name(j: PluginView)
    ensures
        job_status_doc(j) matches Json::Obj(m) && m["ok"@] == Json::Bool(true) && (m["job"@] matches
            Json::Obj(d) && {
            &&& d["kind"@] == Json::Str(j.kind)
            &&& d["pkg"@] == Json::Str(j.pkg)
            &&& d["message"@] == Json::Str(j.message)
            &&& d["output"@] == Json::Str(j.output)
            &&& d["state"@] == Json::Str(
                match j.state {
                    JobState::Running => "running"@,
                    JobState::Done => "done"@,
                    JobState::Error => "error"@,
                },
            )
        }),
{
    reveal_strlit("ok");
    reveal_strlit("job");
    reveal_strlit("state");
    reveal_strlit("kind");
    reveal_strlit("pkg");
    reveal_strlit("message");
    reveal_strlit("output");
    assert("ok"@.len() == 2 && "job"@.len() == 3 && "state"@.len() == 5 && "kind"@.len() == 4
        && "pkg"@.len() == 3 && "message"@.len() == 7 && "output"@.len() == 6);
}

/// What the CLI is asked ends in the package as it was named, behind the profile and what to do.
pub proof fn law_the_package_is_handed_on(bin: Seq<char>, pkg: Seq<char>)
    ensures
        job_args_of(bin, "install"@, pkg) == Some(
            seq![bin, "plugin"@, "--profile"@, "web"@, "add"@, pkg],
        ),
        job_args_of(bin, "remove"@, pkg) == Some(
            seq![bin, "plugin"@, "--profile"@, "web"@, "remove"@, pkg],
        ),
{
    reveal_strlit("install");
    reveal_strlit("remove");
    assert("install"@.len() == 7 && "remove"@.len() == 6);
}

/// A program that runs is killed exactly when it has run longer than it may, and looked at again
/// otherwise; one that ended is never killed.
pub proof fn law_programs_run_as_long_as_they_may(elapsed_ns: u128, secs: u64)
    ensures
        bounded_of(Poll::Running, elapsed_ns, secs) is Kill <==> elapsed_ns > secs * 1_000_000_000,
        bounded_of(Poll::Running, elapsed_ns, secs) is Kill || bounded_of(
            Poll::Running,
            elapsed_ns,
            secs,
        ) == Bounded::Sleep(50),
        bounded_of(Poll::Exited, elapsed_ns, secs) is Collect,
        bounded_of(Poll::Unknown, elapsed_ns, secs) is GiveUp,
{
}

/// A kind that is neither an install nor a removal asks the CLI for nothing, and one that is not
/// the setup of `pnpm` either runs nothing.
pub proof fn law_other_kinds_run_nothing(bin: Seq<char>, kind: Seq<char>, pkg: Seq<char>)
    requires
        kind != "install"@,
        kind != "remove"@,
    ensures
        job_args_of(bin, kind, pkg) is None,
        kind != "pnpm"@ ==> program_of(bin, kind, pkg) is Nothing,
        kind == "pnpm"@ ==> program_of(bin, kind, pkg) == ProgramView::Npm(
            seq!["install"@, "-g"@, "pnpm"@],
        ),
{
}

/// What a job has come to, and what it says, can be set without touching anything else of it.
pub proof fn law_states_are_set_alone(j: PluginView, state: JobState, message: Seq<char>)
    ensures
        with_state(Some(j), state, message) == Some(PluginView { state, message, ..j }),
        with_state(None, state, message) is None,
{
}

/// A start that is refused runs nothing, changes nothing and says why; one that begins runs the job
/// that is then in the slot.
pub proof fn law_refusals_change_nothing(
    e: Seq<char>,
    j: PluginView,
    before: Option<PluginJob>,
    after: Option<PluginJob>,
    answer: Seq<char>,
    run: bool,
)
    ensures
        started(Start::Refused(e), before, after, answer, run) ==> !run && after == before && writes(
            answer,
            error_doc(e),
        ),
        started(Start::NoPackage, before, after, answer, run) ==> !run && after == before,
        started(Start::Begins(j), before, after, answer, run) ==> run && job_in(after) == Some(j)
            && answer == "{\"ok\":true}"@,
{
}

} // verus!
