//! The life of the shell: one instance of it, the server that it starts and watches over, and what
//! it does when it is told to go.

use vstd::prelude::*;
use vstd::utf8::*;

use crate::control::{authorized_by, law_page_request_is_served, request_of};
use crate::digest::{hex, hex_of, is_hex_digit, law_hex_digits, law_hex_is_injective};
use crate::number::{decimal, decimal_of};
use crate::text::{chars_of, has_prefix, is_space, same};

verus! {

/// Where the shell and its server listen.
pub const HOST: &'static str = "127.0.0.1";

/// The first port that the server may have.
pub const PORT_FIRST: u16 = 3177;

/// The last port that the server may have.
pub const PORT_LAST: u16 = 3186;

/// The port that only one instance of the shell can hold.
pub const LOCK_PORT: u16 = PORT_FIRST - 1;

/// The port of the control channel.
pub const CONTROL_PORT: u16 = PORT_FIRST - 2;

// ---------------------------------------------------------------- the token

/// `getrandom::getrandom` on a buffer of `n` bytes: bytes from the system's source of randomness,
/// or the message of its error. Which bytes they are, and whether they come, is left to the system.
#[verifier::external_body]
fn random_bytes(n: usize) -> (r: Result<Vec<u8>, String>)
    ensures
        r matches Ok(b) ==> b@.len() == n,
{
    let mut buf = vec![0u8; n];
    getrandom::getrandom(&mut buf).map(|_| buf).map_err(|e| e.to_string())
}

/// The token that some random bytes make.
pub fn token_of(bytes: &[u8]) -> (r: String)
    ensures
        r@ == hex_of(bytes@),
{
    hex(bytes)
}

/// What came of drawing a token, from what came of drawing its bytes: the token that they make, or
/// the system's error.
pub fn token_from(drawn: Result<Vec<u8>, String>) -> (r: Result<String, String>)
    ensures
        is_token_from(drawn, r),
{
    match drawn {
        Ok(bytes) => Ok(token_of(bytes.as_slice())),
        Err(e) => Err(e),
    }
}

/// Something that drawing `n` bytes from the system came to.
pub closed spec fn is_draw(n: usize, drawn: Result<Vec<u8>, String>) -> bool {
    call_ensures(random_bytes, (n,), drawn)
}

/// What came of drawing a token, from what came of drawing its bytes.
pub open spec fn is_token_from(drawn: Result<Vec<u8>, String>, r: Result<String, String>) -> bool {
    match drawn {
        Ok(bytes) => r matches Ok(t) && t@ == hex_of(bytes@),
        Err(e) => r matches Err(said) && said@ == e@,
    }
}

/// A token for the control channel: 32 hexadecimal digits, of 16 bytes that the system draws. The
/// error is the system's.
pub fn make_control_token() -> (r: Result<String, String>)
    ensures
        exists|drawn: Result<Vec<u8>, String>| #[trigger]
            is_draw(16, drawn) && is_token_from(drawn, r),
        r matches Ok(t) ==> t@.len() == 32 && forall|i: int|
            0 <= i < t@.len() ==> is_hex_digit(#[trigger] t@[i]),
        r matches Ok(t) ==> exists|b: Seq<u8>| b.len() == 16 && t@ == #[trigger] hex_of(b),
{
    let drawn: Result<Vec<u8>, String> = random_bytes(16);
    proof {
        assert(is_draw(16, drawn));
        if drawn is Ok {
            law_hex_digits(drawn->Ok_0@);
        }
    }
    token_from(drawn)
}

/// The page's script with each mark replaced by the token.
pub open spec fn replaced(script: Seq<char>, mark: Seq<char>, by: Seq<char>) -> Seq<char>
    decreases script.len(),
{
    if script.len() == 0 || mark.len() == 0 {
        script
    } else if has_prefix(script, mark) {
        by + replaced(script.skip(mark.len() as int), mark, by)
    } else {
        seq![script[0]] + replaced(script.skip(1), mark, by)
    }
}

/// The page's script, with the token in its places.
pub fn panel_script(script: &str, token: &str) -> (r: String)
    ensures
        r@ == replaced(script@, "__DSH_TOKEN__"@, token@),
{
    let cs: Vec<char> = chars_of(script);
    let mark: Vec<char> = chars_of("__DSH_TOKEN__");
    proof {
        reveal_strlit("__DSH_TOKEN__");
    }
    let ghost whole = replaced(script@, mark@, token@);
    let mut out: String = String::new();
    let mut i: usize = 0;
    assert(cs@.skip(0) == cs@);
    assert(out@ + whole == whole);
    while i < cs.len()
        invariant
            i <= cs@.len(),
            mark@.len() == 13,
            out@ + replaced(cs@.skip(i as int), mark@, token@) == whole,
        decreases cs@.len() - i,
    {
        let ghost before = out@;
        let ghost now = cs@.skip(i as int);
        if begins_at(&cs, i, &mark) {
            out.append(token);
            proof {
                assert(now.skip(13) == cs@.skip(i + 13));
                let tail = replaced(cs@.skip(i + 13), mark@, token@);
                assert(before + (token@ + tail) == (before + token@) + tail);
            }
            i += 13;
        } else {
            out.push(cs[i]);
            proof {
                assert(now.skip(1) == cs@.skip(i + 1));
                let tail = replaced(cs@.skip(i + 1), mark@, token@);
                assert(before + (seq![now[0]] + tail) == before.push(now[0]) + tail);
            }
            i += 1;
        }
    }
    assert(cs@.skip(cs@.len() as int) == Seq::<char>::empty());
    assert(out@ + Seq::<char>::empty() == out@);
    out
}

/// Whether some characters have others at a place.
fn begins_at(cs: &Vec<char>, at: usize, mark: &Vec<char>) -> (r: bool)
    requires
        at <= cs@.len(),
    ensures
        r == has_prefix(cs@.skip(at as int), mark@),
{
    let ghost now = cs@.skip(at as int);
    let n: usize = cs.len();
    if n - at < mark.len() {
        return false;
    }
    let mut k: usize = 0;
    while k < mark.len()
        invariant
            n == cs@.len(),
            at + mark@.len() <= n,
            k <= mark@.len(),
            now == cs@.skip(at as int),
            forall|j: int| 0 <= j < k ==> now[j] == mark@[j],
        decreases mark@.len() - k,
    {
        if cs[at + k] != mark[k] {
            proof {
                assert(now[k as int] != mark@[k as int]);
                assert(now.take(mark@.len() as int)[k as int] == now[k as int]);
            }
            return false;
        }
        k += 1;
    }
    assert(now.take(mark@.len() as int) =~= mark@);
    true
}

/// The token is let in: whatever bytes were drawn, the request of a page that has the token
/// they make is served.
pub proof fn law_the_token_is_served(bytes: Seq<u8>, path: Seq<char>, rest: Seq<char>)
    requires
        path.len() > 0,
        forall|i: int| 0 <= i < path.len() ==> !is_space(#[trigger] path[i]) && path[i] != '?',
        rest.len() == 0 || is_space(rest[0]),
    ensures
        authorized_by(
            request_of("GET "@ + path + "?t="@ + hex_of(bytes) + rest),
            hex_of(bytes),
        ),
{
    let token = hex_of(bytes);
    law_hex_digits(bytes);
    assert forall|i: int| 0 <= i < token.len() implies !is_space(#[trigger] token[i]) && token[i]
        != '&' by {
        assert(is_hex_digit(token[i]));
    }
    law_page_request_is_served(path, token, rest);
}

/// Two draws make the same token only if they are the same bytes.
pub proof fn law_tokens_tell_draws_apart(a: Seq<u8>, b: Seq<u8>)
    requires
        hex_of(a) == hex_of(b),
    ensures
        a == b,
{
    law_hex_is_injective(a, b);
}

// ---------------------------------------------------------------- one instance

/// What a running instance answers on the lock port.
pub open spec fn lock_magic() -> Seq<u8> {
    encode_utf8("dsh-lock-ok"@)
}

/// What a running instance answers on the lock port.
pub fn lock_reply() -> (r: String)
    ensures
        encode_utf8(r@) == lock_magic(),
{
    "dsh-lock-ok".to_owned()
}

/// What a launch does about the lock port.
#[derive(Debug, Clone, Copy, PartialEq, Eq, Structural)]
pub enum Claim {
    /// It holds the port, and goes on.
    Own,
    /// Another instance holds it, and has been told to show itself.
    HandOff,
    /// Something else holds it.
    Refuse,
}

/// What a launch does about the lock port, given whether it could hold it and, where it could not,
/// what the holder answered, if it could be asked and answered in time.
pub open spec fn claim_of(bound: bool, reply: Option<Seq<u8>>) -> Claim {
    if bound {
        Claim::Own
    } else if reply == Some(lock_magic()) {
        Claim::HandOff
    } else {
        Claim::Refuse
    }
}

/// What a launch does about the lock port.
pub fn claim_single_instance(bound: bool, reply: Option<&[u8]>) -> (r: Claim)
    ensures
        r == claim_of(
            bound,
            match reply {
                Some(b) => Some(b@),
                None => None,
            },
        ),
{
    if bound {
        return Claim::Own;
    }
    match reply {
        Some(b) => if equal(b, "dsh-lock-ok".as_bytes()) {
            Claim::HandOff
        } else {
            Claim::Refuse
        },
        None => Claim::Refuse,
    }
}

fn equal(a: &[u8], b: &[u8]) -> (r: bool)
    ensures
        r == (a@ == b@),
{
    if a.len() != b.len() {
        return false;
    }
    let mut i: usize = 0;
    while i < a.len()
        invariant
            a@.len() == b@.len(),
            i <= a@.len(),
            forall|j: int| 0 <= j < i ==> a@[j] == b@[j],
        decreases a@.len() - i,
    {
        if a[i] != b[i] {
            return false;
        }
        i += 1;
    }
    assert(a@ =~= b@);
    true
}

/// The code with which a launch that does not go on leaves.
pub fn exit_code(c: Claim) -> (r: Option<i32>)
    ensures
        r == match c {
            Claim::Own => None,
            Claim::HandOff => Some(0i32),
            Claim::Refuse => Some(1i32),
        },
{
    match c {
        Claim::Own => None,
        Claim::HandOff => Some(0),
        Claim::Refuse => Some(1),
    }
}

/// A second launch hands off to a running instance, and no launch goes on that does not hold the
/// port.
pub proof fn law_one_instance(reply: Option<Seq<u8>>)
    ensures
        claim_of(false, Some(lock_magic())) is HandOff,
        !(claim_of(false, reply) is Own),
        claim_of(false, reply) is HandOff ==> reply == Some(lock_magic()),
{
}

// ---------------------------------------------------------------- the server's port

/// What follows the try of a port.
#[derive(Debug, Clone, Copy, PartialEq, Eq, Structural)]
pub enum Scan {
    /// The server gets it.
    Take(u16),
    /// Another is tried.
    Try(u16),
    /// There is none left.
    Exhausted,
}

/// What follows the try of a port, which could be held or not.
pub open spec fn scan_of(port: u16, bound: bool) -> Scan {
    if bound {
        Scan::Take(port)
    } else if port < PORT_LAST {
        Scan::Try((port + 1) as u16)
    } else {
        Scan::Exhausted
    }
}

/// What follows the try of a port. The first that is tried is `PORT_FIRST`.
pub fn pick_port(port: u16, bound: bool) -> (r: Scan)
    ensures
        r == scan_of(port, bound),
{
    if bound {
        Scan::Take(port)
    } else if port < PORT_LAST {
        Scan::Try(port + 1)
    } else {
        Scan::Exhausted
    }
}

/// What is said when there is no port left.
pub fn no_port_message() -> (r: String)
    ensures
        r@ == "no free port in "@ + decimal_of(PORT_FIRST as nat) + "..="@ + decimal_of(
            PORT_LAST as nat,
        ),
{
    let mut s: String = "no free port in ".to_owned();
    s.append(decimal(PORT_FIRST as u64).as_str());
    s.append("..=");
    s.append(decimal(PORT_LAST as u64).as_str());
    s
}

/// Where a scan ends that begins at a port, given which ports are free.
pub open spec fn scanned(port: u16, free: spec_fn(u16) -> bool) -> Option<u16>
    decreases PORT_LAST - port,
{
    match scan_of(port, free(port)) {
        Scan::Take(p) => Some(p),
        Scan::Try(p) => if port < PORT_LAST {
            scanned(p, free)
        } else {
            None
        },
        Scan::Exhausted => None,
    }
}

/// A scan finds the lowest free port of those it tries, and finds none only where none is free.
pub proof fn law_the_lowest_free_port_is_taken(port: u16, free: spec_fn(u16) -> bool)
    requires
        PORT_FIRST <= port <= PORT_LAST,
    ensures
        match scanned(port, free) {
            Some(p) => port <= p <= PORT_LAST && free(p) && forall|q: u16|
                port <= q < p ==> !#[trigger] free(q),
            None => forall|q: u16| port <= q <= PORT_LAST ==> !#[trigger] free(q),
        },
    decreases PORT_LAST - port,
{
    if !free(port) && port < PORT_LAST {
        law_the_lowest_free_port_is_taken((port + 1) as u16, free);
    }
}

/// The server is never given the lock's port, nor that of the control channel.
pub proof fn law_ports_do_not_meet(free: spec_fn(u16) -> bool)
    ensures
        LOCK_PORT != CONTROL_PORT,
        scanned(PORT_FIRST, free) matches Some(p) ==> p != LOCK_PORT && p != CONTROL_PORT,
{
    law_the_lowest_free_port_is_taken(PORT_FIRST, free);
}

// ---------------------------------------------------------------- the server

/// The arguments with which the server is started.
pub open spec fn server_args_of(bin: Seq<char>, port: u16) -> Seq<Seq<char>> {
    seq![bin, "web"@, "--port"@, decimal_of(port as nat)]
}

/// The arguments with which the server is started.
pub fn server_args(bin: &str, port: u16) -> (r: Vec<String>)
    ensures
        r@.map_values(|s: String| s@) == server_args_of(bin@, port),
{
    let mut v: Vec<String> = Vec::new();
    v.push(bin.to_owned());
    v.push("web".to_owned());
    v.push("--port".to_owned());
    v.push(decimal(port as u64));
    assert(v@.map_values(|s: String| s@) == seq![
        bin@,
        "web"@,
        "--port"@,
        decimal_of(port as nat),
    ]);
    v
}

/// The request that asks the server whether it is ready.
pub open spec fn ready_request_of(port: u16) -> Seq<char> {
    "GET / HTTP/1.0\r\nHost: "@ + HOST@ + ":"@ + decimal_of(port as nat) + "\r\n\r\n"@
}

/// The request that asks the server whether it is ready.
pub fn ready_request(port: u16) -> (r: String)
    ensures
        r@ == ready_request_of(port),
{
    let mut s: String = "GET / HTTP/1.0\r\nHost: ".to_owned();
    s.append(HOST);
    s.append(":");
    s.append(decimal(port as u64).as_str());
    s.append("\r\n\r\n");
    s
}

/// The beginning of an answer says that the server is ready: it reaches beyond the status code,
/// which begins with a 2 or a 3.
pub open spec fn is_ready_head(head: Seq<u8>) -> bool {
    head.len() >= 12 && (head[9] == 50 || head[9] == 51)
}

/// Whether the beginning of an answer says that the server is ready.
pub fn http_ready(head: &[u8]) -> (r: bool)
    ensures
        r == is_ready_head(head@),
{
    head.len() >= 12 && (head[9] == 50 || head[9] == 51)
}

/// An answer with a status code is taken as ready exactly when the code is 200 to 399.
pub proof fn law_ready_means_success(version: Seq<u8>, code: Seq<u8>, rest: Seq<u8>)
    requires
        version.len() == 8,
        code.len() == 3,
        forall|i: int| 0 <= i < 3 ==> 48 <= #[trigger] code[i] <= 57,
    ensures
        is_ready_head(version + seq![32u8] + code + rest) <==> 200 <= (code[0] - 48) * 100 + (code[1]
            - 48) * 10 + (code[2] - 48) < 400,
{
    let head = version + seq![32u8] + code + rest;
    assert(head[9] == code[0]);
    assert(48 <= code[0] <= 57 && 48 <= code[1] <= 57 && 48 <= code[2] <= 57);
}

/// For how many nanoseconds the server is waited for: two minutes.
pub const READY_NS: u128 = 120_000_000_000;

/// What happens while the server is waited for.
#[derive(Debug)]
pub enum WaitEvent {
    /// So many nanoseconds have passed.
    Elapsed(u128),
    /// The server runs, or has ended in some way.
    Child(Option<String>),
    /// The server was asked whether it is ready.
    Probed(bool),
}

/// What is done about it.
#[derive(Debug)]
pub enum WaitAction {
    /// Looks whether the server runs.
    PollChild,
    /// Asks it whether it is ready.
    Probe,
    /// Looks at the time again after so many milliseconds.
    Sleep(u64),
    Ready,
    /// Gives up, with what is said of it.
    Fail(String),
}

/// What is done about it, in contracts.
#[verifier::ext_equal]
pub enum WaitView {
    PollChild,
    Probe,
    Sleep(u64),
    Ready,
    Fail(Seq<char>),
}

impl View for WaitAction {
    type V = WaitView;

    open spec fn view(&self) -> WaitView {
        match *self {
            WaitAction::PollChild => WaitView::PollChild,
            WaitAction::Probe => WaitView::Probe,
            WaitAction::Sleep(n) => WaitView::Sleep(n),
            WaitAction::Ready => WaitView::Ready,
            WaitAction::Fail(e) => WaitView::Fail(e@),
        }
    }
}

/// What is done while the server is waited for: as long as there is time, it must run and answer.
pub open spec fn wait_of(port: u16, event: WaitEvent) -> WaitView {
    match event {
        WaitEvent::Elapsed(ns) => if ns < READY_NS {
            WaitView::PollChild
        } else {
            WaitView::Fail(
                "timed out waiting for dsh web server on port "@ + decimal_of(port as nat),
            )
        },
        WaitEvent::Child(Some(status)) => WaitView::Fail(
            "dsh web exited before becoming ready: "@ + status@,
        ),
        WaitEvent::Child(None) => WaitView::Probe,
        WaitEvent::Probed(ready) => if ready {
            WaitView::Ready
        } else {
            WaitView::Sleep(500)
        },
    }
}

/// What is done while the server is waited for.
pub fn wait_ready(port: u16, event: WaitEvent) -> (r: WaitAction)
    ensures
        r@ == wait_of(port, event),
{
    match event {
        WaitEvent::Elapsed(ns) => if ns < READY_NS {
            WaitAction::PollChild
        } else {
            let mut s: String = "timed out waiting for dsh web server on port ".to_owned();
            s.append(decimal(port as u64).as_str());
            WaitAction::Fail(s)
        },
        WaitEvent::Child(Some(status)) => {
            let mut s: String = "dsh web exited before becoming ready: ".to_owned();
            s.append(status.as_str());
            WaitAction::Fail(s)
        },
        WaitEvent::Child(None) => WaitAction::Probe,
        WaitEvent::Probed(ready) => if ready {
            WaitAction::Ready
        } else {
            WaitAction::Sleep(500)
        },
    }
}

// ---------------------------------------------------------------- the end of the server

/// A step in the killing of the server and all that it started.
#[derive(Debug)]
pub enum Kill {
    /// Runs a program, and waits for it.
    Run(&'static str, Vec<String>),
    /// Waits for so many milliseconds.
    Sleep(u64),
}

/// A step in the killing, in contracts.
#[verifier::ext_equal]
pub enum KillView {
    Run(Seq<char>, Seq<Seq<char>>),
    Sleep(u64),
}

impl View for Kill {
    type V = KillView;

    open spec fn view(&self) -> KillView {
        match *self {
            Kill::Run(p, args) => KillView::Run(p@, args@.map_values(|s: String| s@)),
            Kill::Sleep(ms) => KillView::Sleep(ms),
        }
    }
}

/// How the server and all that it started are killed: on Windows first asked, and a little later
/// forced.
pub open spec fn kill_of(pid: u32, windows: bool) -> Seq<KillView> {
    let id = decimal_of(pid as nat);
    if windows {
        seq![
            KillView::Run("taskkill"@, seq!["/PID"@, id, "/T"@]),
            KillView::Sleep(1500),
            KillView::Run("taskkill"@, seq!["/PID"@, id, "/T"@, "/F"@]),
        ]
    } else {
        seq![KillView::Run("kill"@, seq!["-TERM"@, id])]
    }
}

/// How the server and all that it started are killed.
pub fn kill_tree(pid: u32, windows: bool) -> (r: Vec<Kill>)
    ensures
        r@.map_values(|k: Kill| k@) == kill_of(pid, windows),
{
    let id: String = decimal(pid as u64);
    let mut plan: Vec<Kill> = Vec::new();
    if windows {
        let mut ask: Vec<String> = Vec::new();
        ask.push("/PID".to_owned());
        ask.push(id.clone());
        ask.push("/T".to_owned());
        assert(ask@.map_values(|s: String| s@) == seq!["/PID"@, id@, "/T"@]);
        let mut force: Vec<String> = Vec::new();
        force.push("/PID".to_owned());
        force.push(id.clone());
        force.push("/T".to_owned());
        force.push("/F".to_owned());
        assert(force@.map_values(|s: String| s@) == seq!["/PID"@, id@, "/T"@, "/F"@]);
        plan.push(Kill::Run("taskkill", ask));
        plan.push(Kill::Sleep(1500));
        plan.push(Kill::Run("taskkill", force));
    } else {
        let mut term: Vec<String> = Vec::new();
        term.push("-TERM".to_owned());
        term.push(id.clone());
        assert(term@.map_values(|s: String| s@) == seq!["-TERM"@, id@]);
        plan.push(Kill::Run("kill", term));
    }
    assert(plan@.map_values(|k: Kill| k@) == kill_of(pid, windows));
    plan
}

// ---------------------------------------------------------------- the shell

/// What the shell has of its server.
#[derive(Debug, Clone, Copy, PartialEq, Eq, Structural)]
pub struct Shell {
    /// The server's process, once it was started.
    pub pid: Option<u32>,
    /// The server's port, once it is ready.
    pub ready: Option<u16>,
    /// The shell was told to go.
    pub quitting: bool,
}

/// What happens to the shell.
#[derive(Debug, Clone, Copy, PartialEq, Eq, Structural)]
pub enum ShellEvent {
    /// The server was started, as some process.
    Started(u32),
    /// The server is ready, on some port.
    Ready(u16),
    /// The server could not be started, or did not become ready.
    BootFailed,
    /// The window was told to close.
    CloseRequested,
    /// The shell was told to go.
    ExitRequested,
}

/// What the shell does about it.
#[derive(Debug, Clone, Copy, PartialEq, Eq, Structural)]
pub enum ShellAction {
    Nothing,
    /// Kills the server, if there is one, and tells the user that it failed.
    ReportFailure(Option<u32>),
    /// Keeps the window, and hides it.
    Hide,
    /// Lets the window close.
    Close,
    /// Kills the server, if there is one.
    Kill(Option<u32>),
}

/// What the shell has of its server before anything happens.
pub open spec fn at_launch() -> Shell {
    Shell { pid: None, ready: None, quitting: false }
}

/// What the shell becomes, and does.
pub open spec fn shell_of(s: Shell, event: ShellEvent) -> (Shell, ShellAction) {
    match event {
        ShellEvent::Started(pid) => (Shell { pid: Some(pid), ..s }, ShellAction::Nothing),
        ShellEvent::Ready(port) => (Shell { ready: Some(port), ..s }, ShellAction::Nothing),
        ShellEvent::BootFailed => (s, ShellAction::ReportFailure(s.pid)),
        ShellEvent::CloseRequested => (
            s,
            if s.quitting {
                ShellAction::Close
            } else {
                ShellAction::Hide
            },
        ),
        ShellEvent::ExitRequested => (Shell { quitting: true, ..s }, ShellAction::Kill(s.pid)),
    }
}

impl Shell {
    /// A shell that has just been launched.
    pub fn new() -> (r: Self)
        ensures
            r == at_launch(),
    {
        Shell { pid: None, ready: None, quitting: false }
    }

    /// What the shell does when something happens to it.
    pub fn on(&mut self, event: ShellEvent) -> (r: ShellAction)
        ensures
            (*final(self), r) == shell_of(*old(self), event),
    {
        match event {
            ShellEvent::Started(pid) => {
                self.pid = Some(pid);
                ShellAction::Nothing
            },
            ShellEvent::Ready(port) => {
                self.ready = Some(port);
                ShellAction::Nothing
            },
            ShellEvent::BootFailed => ShellAction::ReportFailure(self.pid),
            ShellEvent::CloseRequested => if self.quitting {
                ShellAction::Close
            } else {
                ShellAction::Hide
            },
            ShellEvent::ExitRequested => {
                self.quitting = true;
                ShellAction::Kill(self.pid)
            },
        }
    }
}

/// What the shell becomes after some events.
pub open spec fn after(events: Seq<ShellEvent>) -> Shell
    decreases events.len(),
{
    if events.len() == 0 {
        at_launch()
    } else {
        shell_of(after(events.drop_last()), events.last()).0
    }
}

/// Closing the window hides it until the shell is told to go, and from then on lets it close.
pub proof fn law_closing_hides_until_the_end(events: Seq<ShellEvent>)
    ensures
        shell_of(after(events), ShellEvent::CloseRequested).1 == if events.contains(
            ShellEvent::ExitRequested,
        ) {
            ShellAction::Close
        } else {
            ShellAction::Hide
        },
    decreases events.len(),
{
    if events.len() > 0 {
        let rest = events.drop_last();
        law_closing_hides_until_the_end(rest);
        if events.contains(ShellEvent::ExitRequested) && !(events.last() is ExitRequested) {
            let i = choose|i: int| 0 <= i < events.len() && events[i] == ShellEvent::ExitRequested;
            assert(rest[i] == ShellEvent::ExitRequested);
        }
        if rest.contains(ShellEvent::ExitRequested) {
            let i = choose|i: int| 0 <= i < rest.len() && rest[i] == ShellEvent::ExitRequested;
            assert(events[i] == ShellEvent::ExitRequested);
        }
        if events.last() is ExitRequested {
            assert(events[events.len() - 1] == ShellEvent::ExitRequested);
        }
    }
}

/// The server does not outlive the shell: once it was started, it is killed when the shell is told
/// to go, whatever happened in between, and also when it did not become ready.
pub proof fn law_the_server_goes_with_the_shell(events: Seq<ShellEvent>, i: int, pid: u32)
    requires
        0 <= i < events.len(),
        events[i] == ShellEvent::Started(pid),
        forall|j: int| i < j < events.len() ==> !(#[trigger] events[j] is Started),
    ensures
        shell_of(after(events), ShellEvent::ExitRequested).1 == ShellAction::Kill(Some(pid)),
        shell_of(after(events), ShellEvent::BootFailed).1 == ShellAction::ReportFailure(Some(pid)),
    decreases events.len(),
{
    let rest = events.drop_last();
    if i < events.len() - 1 {
        assert forall|j: int| i < j < rest.len() implies !(#[trigger] rest[j] is Started) by {
            assert(!(events[j] is Started));
        }
        law_the_server_goes_with_the_shell(rest, i, pid);
        assert(!(events[events.len() - 1] is Started));
    }
}

/// The script that tells the user, on the splash page, that the server could not be started.
pub fn boot_failed_script() -> (r: String)
    ensures
        r@ == "document.getElementById('status').textContent = '后端启动失败，请查看日志后重启应用';"@,
{
    "document.getElementById('status').textContent = '后端启动失败，请查看日志后重启应用';".to_owned()
}

/// What an item of the tray's menu asks for.
#[derive(Debug, Clone, Copy, PartialEq, Eq, Structural)]
pub enum TrayAction {
    Show,
    PickBackground,
    ClearBackground,
    Quit,
    Nothing,
}

/// What an item of the tray's menu asks for.
pub fn tray_action(id: &str) -> (r: TrayAction)
    ensures
        r == if id@ == "show"@ {
            TrayAction::Show
        } else if id@ == "bg"@ {
            TrayAction::PickBackground
        } else if id@ == "bg_clear"@ {
            TrayAction::ClearBackground
        } else if id@ == "quit"@ {
            TrayAction::Quit
        } else {
            TrayAction::Nothing
        },
{
    if same(id, "show") {
        TrayAction::Show
    } else if same(id, "bg") {
        TrayAction::PickBackground
    } else if same(id, "bg_clear") {
        TrayAction::ClearBackground
    } else if same(id, "quit") {
        TrayAction::Quit
    } else {
        TrayAction::Nothing
    }
}

/// What the shell says of itself.
pub fn about_text(version: &str) -> (r: String)
    ensures
        r@ == "DeepSeek Harness 桌面客户端\nTauri 2 壳 + dsh web 后端\n版本 "@ + version@,
{
    let mut s: String = "DeepSeek Harness 桌面客户端\nTauri 2 壳 + dsh web 后端\n版本 ".to_owned();
    s.append(version);
    s
}

// ---------------------------------------------------------------- laws

/// The first mark in a script is replaced by the token, and what follows it is treated likewise; a
/// script without one is kept as it is.
pub proof fn law_marks_are_replaced(a: Seq<char>, mark: Seq<char>, by: Seq<char>, b: Seq<char>)
    requires
        mark.len() > 0,
        forall|i: int| 0 <= i < a.len() ==> !has_prefix(#[trigger] (a + mark + b).skip(i), mark),
    ensures
        replaced(a + mark + b, mark, by) == a + by + replaced(b, mark, by),
    decreases a.len(),
{
    let s = a + mark + b;
    if a.len() == 0 {
        assert(s == mark + b);
        assert(s.take(mark.len() as int) == mark);
        assert(s.skip(mark.len() as int) == b);
        assert(a + by == by);
    } else {
        assert(s.skip(0) == s);
        assert(!has_prefix((a + mark + b).skip(0), mark));
        let t = a.skip(1);
        assert(s.skip(1) == t + mark + b);
        assert forall|i: int| 0 <= i < t.len() implies !has_prefix(
            #[trigger] (t + mark + b).skip(i),
            mark,
        ) by {
            assert((t + mark + b).skip(i) == s.skip(i + 1));
            assert(!has_prefix((a + mark + b).skip(i + 1), mark));
        }
        law_marks_are_replaced(t, mark, by, b);
        assert(s[0] == a[0]);
        assert(seq![a[0]] + t == a);
        assert(seq![a[0]] + (t + by + replaced(b, mark, by)) == a + by + replaced(b, mark, by));
    }
}

/// A script without a mark is kept as it is.
pub proof fn law_scripts_without_marks_are_kept(s: Seq<char>, mark: Seq<char>, by: Seq<char>)
    requires
        mark.len() > 0,
        forall|i: int| 0 <= i < s.len() ==> !has_prefix(#[trigger] s.skip(i), mark),
    ensures
        replaced(s, mark, by) == s,
    decreases s.len(),
{
    if s.len() > 0 {
        assert(s.skip(0) == s);
        assert(!has_prefix(s.skip(0), mark));
        let t = s.skip(1);
        assert forall|i: int| 0 <= i < t.len() implies !has_prefix(#[trigger] t.skip(i), mark) by {
            assert(t.skip(i) == s.skip(i + 1));
            assert(!has_prefix(s.skip(i + 1), mark));
        }
        law_scripts_without_marks_are_kept(t, mark, by);
        assert(seq![s[0]] + t == s);
    }
}

/// A launch that holds the lock port goes on, whatever anyone answers; one that does not hands off
/// exactly to a holder that answers as an instance does.
pub proof fn law_who_goes_on(reply: Option<Seq<u8>>)
    ensures
        claim_of(true, reply) is Own,
        claim_of(false, reply) is HandOff <==> reply == Some(encode_utf8("dsh-lock-ok"@)),
        claim_of(false, reply) is HandOff || claim_of(false, reply) is Refuse,
{
}

/// Too short a beginning of an answer never says that the server is ready.
pub proof fn law_short_answers_are_not_ready(head: Seq<u8>)
    requires
        head.len() < 12,
    ensures
        !is_ready_head(head),
{
}

/// The server is waited for exactly two minutes; then, and when it ends before, it is given up,
/// with the port or with how it ended.
pub proof fn law_how_long_the_server_is_waited_for(port: u16, ns: u128, status: String, ready: bool)
    ensures
        wait_of(port, WaitEvent::Elapsed(ns)) is PollChild <==> ns < 120 * 1_000_000_000,
        ns >= 120 * 1_000_000_000 ==> wait_of(port, WaitEvent::Elapsed(ns)) == WaitView::Fail(
            "timed out waiting for dsh web server on port "@ + decimal_of(port as nat),
        ),
        wait_of(port, WaitEvent::Child(Some(status))) == WaitView::Fail(
            "dsh web exited before becoming ready: "@ + status@,
        ),
        wait_of(port, WaitEvent::Child(None)) is Probe,
        wait_of(port, WaitEvent::Probed(ready)) is Ready <==> ready,
        wait_of(port, WaitEvent::Probed(false)) == WaitView::Sleep(500),
{
}

/// Killing names the server's own process at every step, and on Windows ends by force.
pub proof fn law_the_right_process_is_killed(pid: u32, windows: bool)
    ensures
        ({
            let plan = kill_of(pid, windows);
            &&& plan.len() > 0
            &&& forall|i: int|
                0 <= i < plan.len() ==> (#[trigger] plan[i] matches KillView::Run(program, args)
                    ==> args.contains(decimal_of(pid as nat)))
            &&& windows ==> plan.last() == KillView::Run(
                "taskkill"@,
                seq!["/PID"@, decimal_of(pid as nat), "/T"@, "/F"@],
            )
            &&& !windows ==> plan.last() == KillView::Run(
                "kill"@,
                seq!["-TERM"@, decimal_of(pid as nat)],
            )
        }),
{
    let id = decimal_of(pid as nat);
    let plan = kill_of(pid, windows);
    let ask = seq!["/PID"@, id, "/T"@];
    let force = seq!["/PID"@, id, "/T"@, "/F"@];
    let term = seq!["-TERM"@, id];
    assert(ask[1] == id && force[1] == id && term[1] == id);
    assert(ask.contains(id) && force.contains(id) && term.contains(id));
    if windows {
        assert(plan.len() == 3);
    } else {
        assert(plan.len() == 1);
    }
}

/// The shell knows its server's process and port as they were last told, and nothing else that
/// happens changes them.
pub proof fn law_what_the_shell_knows(s: Shell, pid: u32, port: u16)
    ensures
        shell_of(s, ShellEvent::Started(pid)).0 == (Shell { pid: Some(pid), ..s }),
        shell_of(s, ShellEvent::Ready(port)).0 == (Shell { ready: Some(port), ..s }),
        shell_of(s, ShellEvent::BootFailed).0 == s,
        shell_of(s, ShellEvent::CloseRequested).0 == s,
        shell_of(s, ShellEvent::ExitRequested).0 == (Shell { quitting: true, ..s }),
{
}

/// The server is started on the port that was picked, and asked there.
pub proof fn law_the_server_is_asked_on_its_port(bin: Seq<char>, port: u16)
    ensures
        server_args_of(bin, port) == seq![bin, "web"@, "--port"@, decimal_of(port as nat)],
        ready_request_of(port) == "GET / HTTP/1.0\r\nHost: "@ + "127.0.0.1"@ + ":"@ + decimal_of(
            port as nat,
        ) + "\r\n\r\n"@,
{
}

} // verus!
