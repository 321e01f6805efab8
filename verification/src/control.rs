//! The control channel: the requests that the page sends to the shell over loopback HTTP, which of
//! them are served, and how they are answered.

use vstd::prelude::*;
use vstd::utf8::*;

use crate::encoding::{lossy, utf8_lossy};
use crate::number::{decimal, decimal_of};
use crate::reply::{ok_body, ok_text};
use crate::text::{
    after_prefix, after_word, beyond, cut, has_prefix, is_space, lemma_find, lemma_find_space,
    law_cut_is_at_the_first, law_pieces_stand_between_separators, law_words_stand_between_spaces,
    lemma_trim_start, next_word, param, param_of, same, split, split_on, until, views, word,
};

verus! {

// ---------------------------------------------------------------- requests

/// A request: its method, and its target cut at the question mark.
pub struct Request {
    pub method: String,
    pub path: String,
    pub query: String,
}

/// What a request holds.
#[verifier::ext_equal]
pub struct RequestView {
    pub method: Seq<char>,
    pub path: Seq<char>,
    pub query: Seq<char>,
}

impl View for Request {
    type V = RequestView;

    open spec fn view(&self) -> RequestView {
        RequestView { method: self.method@, path: self.path@, query: self.query@ }
    }
}

/// The target of a request: its second word, or `/`.
pub open spec fn target_of(text: Seq<char>) -> Seq<char> {
    let w = word(after_word(text));
    if w.len() == 0 {
        "/"@
    } else {
        w
    }
}

/// The request that a text makes.
pub open spec fn request_of(text: Seq<char>) -> RequestView {
    RequestView {
        method: word(text),
        path: until(target_of(text), '?'),
        query: beyond(target_of(text), '?'),
    }
}

/// The requests that are served: a `GET` with the token among its parameters.
pub open spec fn authorized_by(r: RequestView, token: Seq<char>) -> bool {
    r.method == "GET"@ && split(r.query, '&').contains("t="@ + token)
}

/// Reads a request.
pub fn read_request(text: &str) -> (r: Request)
    ensures
        r@ == request_of(text@),
{
    let (method, rest) = next_word(text);
    let (second, _) = next_word(rest);
    let target: &str = if second.is_empty() {
        "/"
    } else {
        second
    };
    let (path, query) = cut(target, '?');
    Request { method: method.to_owned(), path: path.to_owned(), query: query.to_owned() }
}

/// Whether a request is served.
pub fn authorized(r: &Request, token: &str) -> (ok: bool)
    ensures
        ok == authorized_by(r@, token@),
{
    if !same(r.method.as_str(), "GET") {
        return false;
    }
    let pieces: Vec<&str> = split_on(r.query.as_str(), '&');
    let ghost all = views(pieces@);
    let mut i: usize = 0;
    while i < pieces.len()
        invariant
            i <= pieces@.len(),
            all == views(pieces@),
            all == split(r@.query, '&'),
            r@.method == "GET"@,
            forall|j: int| 0 <= j < i ==> #[trigger] all[j] != "t="@ + token@,
        decreases pieces@.len() - i,
    {
        assert(all[i as int] == pieces@[i as int]@);
        match after_prefix(pieces[i], "t=") {
            Some(v) => {
                proof {
                    let p = all[i as int];
                    assert(p == p.take("t="@.len() as int) + p.skip("t="@.len() as int));
                    assert(("t="@ + token@).skip("t="@.len() as int) == token@);
                }
                if same(v, token) {
                    assert(all[i as int] == "t="@ + token@);
                    return true;
                }
            },
            None => {
                assert(("t="@ + token@).take("t="@.len() as int) == "t="@);
            },
        }
        i += 1;
    }
    false
}

// ---------------------------------------------------------------- routes

/// What a path asks for.
#[derive(Clone, Copy, Debug, PartialEq, Eq, Structural)]
pub enum Route {
    BgState,
    BgPick,
    BgClear,
    BgOpacity,
    WinState,
    WinDrag,
    WinMinimize,
    WinToggleMaximize,
    /// Left alone: a frameless window that has been full screen can no longer be resized.
    WinFullscreen,
    WinDevtools,
    /// The window's close button hides to the tray.
    WinHide,
    /// Leaves the shell.
    WinQuit,
    WinRestart,
    WinAbout,
    UpdateCheck,
    UpdateStart,
    UpdateStatus,
    UpdateInstall,
    UpdateOpen,
    SpeechStart,
    SpeechStop,
    SpeechStatus,
    PluginList,
    PluginCatalog,
    PluginStatus,
    PluginInstall,
    PluginRemove,
    PluginEnsurePnpm,
    /// Another path below `/win/`: answered like a window control, and without effect.
    WinOther,
    /// Any other path.
    Unknown,
}

/// What a path asks for.
pub open spec fn route_of(path: Seq<char>) -> Route {
    if path == "/bg/state"@ {
        Route::BgState
    } else if path == "/bg/pick"@ {
        Route::BgPick
    } else if path == "/bg/clear"@ {
        Route::BgClear
    } else if path == "/bg/opacity"@ {
        Route::BgOpacity
    } else if path == "/win/state"@ {
        Route::WinState
    } else if path == "/win/drag"@ {
        Route::WinDrag
    } else if path == "/win/min"@ {
        Route::WinMinimize
    } else if path == "/win/max"@ {
        Route::WinToggleMaximize
    } else if path == "/win/fullscreen"@ {
        Route::WinFullscreen
    } else if path == "/win/devtools"@ {
        Route::WinDevtools
    } else if path == "/win/close"@ {
        Route::WinHide
    } else if path == "/win/quit"@ {
        Route::WinQuit
    } else if path == "/win/restart"@ {
        Route::WinRestart
    } else if path == "/win/about"@ {
        Route::WinAbout
    } else if path == "/win/update/check"@ {
        Route::UpdateCheck
    } else if path == "/win/update/start"@ {
        Route::UpdateStart
    } else if path == "/win/update/status"@ {
        Route::UpdateStatus
    } else if path == "/win/update/install"@ {
        Route::UpdateInstall
    } else if path == "/win/update/open"@ {
        Route::UpdateOpen
    } else if path == "/speech/start"@ {
        Route::SpeechStart
    } else if path == "/speech/stop"@ {
        Route::SpeechStop
    } else if path == "/speech/status"@ {
        Route::SpeechStatus
    } else if path == "/plugin/list"@ {
        Route::PluginList
    } else if path == "/plugin/catalog"@ {
        Route::PluginCatalog
    } else if path == "/plugin/status"@ {
        Route::PluginStatus
    } else if path == "/plugin/install"@ {
        Route::PluginInstall
    } else if path == "/plugin/remove"@ {
        Route::PluginRemove
    } else if path == "/plugin/ensure-pnpm"@ {
        Route::PluginEnsurePnpm
    } else if has_prefix(path, "/win/"@) {
        Route::WinOther
    } else {
        Route::Unknown
    }
}

/// What a path asks for.
pub fn route(path: &str) -> (r: Route)
    ensures
        r == route_of(path@),
{
    if same(path, "/bg/state") {
        Route::BgState
    } else if same(path, "/bg/pick") {
        Route::BgPick
    } else if same(path, "/bg/clear") {
        Route::BgClear
    } else if same(path, "/bg/opacity") {
        Route::BgOpacity
    } else if same(path, "/win/state") {
        Route::WinState
    } else if same(path, "/win/drag") {
        Route::WinDrag
    } else if same(path, "/win/min") {
        Route::WinMinimize
    } else if same(path, "/win/max") {
        Route::WinToggleMaximize
    } else if same(path, "/win/fullscreen") {
        Route::WinFullscreen
    } else if same(path, "/win/devtools") {
        Route::WinDevtools
    } else if same(path, "/win/close") {
        Route::WinHide
    } else if same(path, "/win/quit") {
        Route::WinQuit
    } else if same(path, "/win/restart") {
        Route::WinRestart
    } else if same(path, "/win/about") {
        Route::WinAbout
    } else if same(path, "/win/update/check") {
        Route::UpdateCheck
    } else if same(path, "/win/update/start") {
        Route::UpdateStart
    } else if same(path, "/win/update/status") {
        Route::UpdateStatus
    } else if same(path, "/win/update/install") {
        Route::UpdateInstall
    } else if same(path, "/win/update/open") {
        Route::UpdateOpen
    } else if same(path, "/speech/start") {
        Route::SpeechStart
    } else if same(path, "/speech/stop") {
        Route::SpeechStop
    } else if same(path, "/speech/status") {
        Route::SpeechStatus
    } else if same(path, "/plugin/list") {
        Route::PluginList
    } else if same(path, "/plugin/catalog") {
        Route::PluginCatalog
    } else if same(path, "/plugin/status") {
        Route::PluginStatus
    } else if same(path, "/plugin/install") {
        Route::PluginInstall
    } else if same(path, "/plugin/remove") {
        Route::PluginRemove
    } else if same(path, "/plugin/ensure-pnpm") {
        Route::PluginEnsurePnpm
    } else if after_prefix(path, "/win/").is_some() {
        Route::WinOther
    } else {
        Route::Unknown
    }
}

/// The window's own controls.
pub open spec fn is_window_control(r: Route) -> bool {
    r is WinDrag || r is WinMinimize || r is WinToggleMaximize || r is WinFullscreen
        || r is WinDevtools || r is WinHide || r is WinQuit || r is WinRestart || r is WinAbout
        || r is WinOther
}

/// The answer to the routes that are answered alike whatever came of them.
pub open spec fn settled_body_of(r: Route) -> Option<Seq<char>> {
    if is_window_control(r) || r is BgClear || r is BgOpacity {
        Some(ok_text())
    } else if r is Unknown {
        Some("{\"ok\":false}"@)
    } else {
        None
    }
}

/// The answer to the routes that are answered alike whatever came of them.
pub fn settled_body(r: Route) -> (b: Option<String>)
    ensures
        match b {
            Some(t) => settled_body_of(r) == Some(t@),
            None => settled_body_of(r) is None,
        },
{
    match r {
        Route::WinDrag | Route::WinMinimize | Route::WinToggleMaximize | Route::WinFullscreen
        | Route::WinDevtools | Route::WinHide | Route::WinQuit | Route::WinRestart
        | Route::WinAbout | Route::WinOther | Route::BgClear | Route::BgOpacity => Some(ok_body()),
        Route::Unknown => Some("{\"ok\":false}".to_owned()),
        _ => None,
    }
}

/// The answer to a background pick, which tells whether a picture was chosen.
pub fn picked_body(changed: bool) -> (r: String)
    ensures
        r@ == if changed {
            "{\"ok\":true}"@
        } else {
            "{\"ok\":false}"@
        },
{
    if changed {
        "{\"ok\":true}".to_owned()
    } else {
        "{\"ok\":false}".to_owned()
    }
}

/// Where the page is served, once it is.
pub open spec fn window_state_of(port: Option<u16>) -> Seq<char> {
    match port {
        Some(p) => "{\"url\":\"http://127.0.0.1:"@ + decimal_of(p as nat) + "\"}"@,
        None => "{\"url\":null}"@,
    }
}

/// Where the page is served, once it is.
pub fn window_state(port: Option<u16>) -> (r: String)
    ensures
        r@ == window_state_of(port),
{
    match port {
        Some(p) => {
            let mut s: String = "{\"url\":\"http://127.0.0.1:".to_owned();
            s.append(decimal(p as u64).as_str());
            s.append("\"}");
            s
        },
        None => "{\"url\":null}".to_owned(),
    }
}

// ---------------------------------------------------------------- responses

/// The answer to a request that is not served.
pub open spec fn refusal_text() -> Seq<char> {
    "HTTP/1.1 403 Forbidden\r\nContent-Length: 0\r\nConnection: close\r\n\r\n"@
}

/// The answer to a request that is not served.
pub fn refusal() -> (r: String)
    ensures
        r@ == refusal_text(),
{
    "HTTP/1.1 403 Forbidden\r\nContent-Length: 0\r\nConnection: close\r\n\r\n".to_owned()
}

/// The head of a response to a request that is served, up to the length of the body.
pub open spec fn response_head() -> Seq<char> {
    "HTTP/1.1 200 OK\r\nContent-Type: application/json\r\nAccess-Control-Allow-Origin: *\r\nContent-Length: "@
}

/// The response that carries a body: its head gives the number of the body's bytes.
pub open spec fn response_of(body: Seq<char>) -> Seq<char> {
    response_head() + decimal_of(encode_utf8(body).len()) + "\r\nConnection: close\r\n\r\n"@ + body
}

/// The response that carries a body.
pub fn response(body: &str) -> (r: String)
    ensures
        r@ == response_of(body@),
{
    let mut s: String = "HTTP/1.1 200 OK\r\nContent-Type: application/json\r\nAccess-Control-Allow-Origin: *\r\nContent-Length: ".to_owned();
    s.append(decimal(body.as_bytes().len() as u64).as_str());
    s.append("\r\nConnection: close\r\n\r\n");
    s.append(body);
    s
}

// ---------------------------------------------------------------- one request

/// What the shell does with a request.
pub enum Step {
    /// Sends this response.
    Send(String),
    /// Does what the route asks for, with the request's query at hand, and answers with the body
    /// that comes of it.
    Run(Route, String),
}

/// What a step holds.
#[verifier::ext_equal]
pub enum StepView {
    Send(Seq<char>),
    Run(Route, Seq<char>),
}

impl View for Step {
    type V = StepView;

    open spec fn view(&self) -> StepView {
        match *self {
            Step::Send(s) => StepView::Send(s@),
            Step::Run(r, q) => StepView::Run(r, q@),
        }
    }
}

/// The routes that ask for no work.
pub open spec fn is_idle(r: Route) -> bool {
    r is Unknown || r is WinOther || r is WinFullscreen
}

/// What is done with a request: without the token it is refused; a route that asks for no work is
/// answered at once; any other is run.
pub open spec fn step_of(r: RequestView, token: Seq<char>, ready: Option<u16>) -> StepView {
    let asked = route_of(r.path);
    if !authorized_by(r, token) {
        StepView::Send(refusal_text())
    } else if asked is WinState {
        StepView::Send(response_of(window_state_of(ready)))
    } else if is_idle(asked) {
        StepView::Send(response_of(settled_body_of(asked)->0))
    } else {
        StepView::Run(asked, r.query)
    }
}

/// What is done with the request in some bytes. `ready` is the port of the page's server, once it
/// answers.
pub fn serve_control(raw: &[u8], token: &str, ready: Option<u16>) -> (r: Step)
    ensures
        r@ == step_of(request_of(utf8_lossy(raw@)), token@, ready),
        valid_utf8(raw@) ==> r@ == step_of(request_of(decode_utf8(raw@)), token@, ready),
{
    let text: String = lossy(raw);
    serve_text(text.as_str(), token, ready)
}

/// What is done with the request in a text.
pub fn serve_text(text: &str, token: &str, ready: Option<u16>) -> (r: Step)
    ensures
        r@ == step_of(request_of(text@), token@, ready),
{
    let q: Request = read_request(text);
    if !authorized(&q, token) {
        return Step::Send(refusal());
    }
    let asked: Route = route(q.path.as_str());
    match asked {
        Route::WinState => {
            let body: String = window_state(ready);
            Step::Send(response(body.as_str()))
        },
        Route::Unknown | Route::WinOther | Route::WinFullscreen => {
            match settled_body(asked) {
                Some(body) => Step::Send(response(body.as_str())),
                None => Step::Send(refusal()),
            }
        },
        _ => Step::Run(asked, q.query),
    }
}

/// The opacity that a query asks for, as text.
pub fn opacity_param(query: &str) -> (r: Option<&str>)
    ensures
        match r {
            Some(v) => param_of(query@, "v="@) == Some(v@),
            None => param_of(query@, "v="@) is None,
        },
{
    param(query, "v=")
}

// ---------------------------------------------------------------- laws

/// A request without the token is refused, whatever its path asks for.
pub proof fn law_no_token_no_service(r: RequestView, token: Seq<char>, ready: Option<u16>)
    requires
        !split(r.query, '&').contains("t="@ + token),
    ensures
        step_of(r, token, ready) == StepView::Send(refusal_text()),
{
}

/// Whether a request is served does not hang on its path: without the token every path is refused.
pub proof fn law_every_path_is_guarded_alike(a: RequestView, b: RequestView, token: Seq<char>)
    requires
        a.method == b.method,
        a.query == b.query,
    ensures
        authorized_by(a, token) == authorized_by(b, token),
{
}

/// Only `GET` is served.
pub proof fn law_only_get_is_served(r: RequestView, token: Seq<char>)
    requires
        r.method != "GET"@,
    ensures
        !authorized_by(r, token),
{
}

proof fn lemma_split_single(s: Seq<char>, c: char)
    requires
        forall|i: int| 0 <= i < s.len() ==> s[i] != c,
    ensures
        split(s, c) == seq![s],
{
    lemma_find(s, c, s.len() as int);
}

/// A query that is one parameter, `t`, is served for the token and for no other value.
pub proof fn law_only_the_token_opens(path: Seq<char>, value: Seq<char>, token: Seq<char>)
    requires
        forall|i: int| 0 <= i < value.len() ==> value[i] != '&',
    ensures
        authorized_by(
            RequestView { method: "GET"@, path: path, query: "t="@ + value },
            token,
        ) <==> value == token,
{
    reveal_strlit("t=");
    let q = "t="@ + value;
    assert forall|i: int| 0 <= i < q.len() implies q[i] != '&' by {
        if i >= 2 {
            assert(q[i] == value[i - 2]);
        }
    }
    lemma_split_single(q, '&');
    let pieces = split(q, '&');
    assert(pieces == seq![q]);
    assert(pieces[0] == q);
    assert(("t="@ + value).skip(2) == value);
    assert(("t="@ + token).skip(2) == token);
    if value == token {
        assert(pieces.contains(q));
    }
    if pieces.contains("t="@ + token) {
        assert("t="@ + token == q);
    }
}

/// The line that the page sends, `GET <path>?t=<token>` and more behind it, is read as a request
/// for the path, and is served.
pub proof fn law_page_request_is_served(path: Seq<char>, token: Seq<char>, rest: Seq<char>)
    requires
        path.len() > 0,
        forall|i: int| 0 <= i < path.len() ==> !is_space(#[trigger] path[i]) && path[i] != '?',
        forall|i: int| 0 <= i < token.len() ==> !is_space(#[trigger] token[i]) && token[i] != '&',
        rest.len() == 0 || is_space(rest[0]),
    ensures
        request_of("GET "@ + path + "?t="@ + token + rest).path == path,
        authorized_by(request_of("GET "@ + path + "?t="@ + token + rest), token),
{
    reveal_strlit("GET ");
    reveal_strlit("GET");
    reveal_strlit("?t=");
    reveal_strlit("t=");
    let target = path + "?t="@ + token;
    let text = "GET "@ + path + "?t="@ + token + rest;
    assert(text == "GET "@ + target + rest);
    // The method.
    lemma_trim_start(text, 0);
    assert(text.skip(0) == text);
    assert(text[0] == 'G' && text[1] == 'E' && text[2] == 'T' && text[3] == ' ');
    lemma_find_space(text, 3);
    assert(word(text) == "GET"@);
    // The target.
    let tail = text.skip(3);
    assert(after_word(text) == tail);
    let begun = target + rest;
    assert(tail.skip(1) == begun);
    assert(tail[0] == ' ' && tail[1] == path[0]);
    lemma_trim_start(tail, 1);
    let n = target.len() as int;
    assert forall|j: int| 0 <= j < n implies !is_space(#[trigger] begun[j]) by {
        assert(begun[j] == target[j]);
        if j < path.len() {
            assert(target[j] == path[j]);
        } else if j >= path.len() + 3 {
            assert(target[j] == token[j - path.len() - 3]);
        } else {
            assert(target[j] == "?t="@[j - path.len()]);
        }
    }
    lemma_find_space(begun, n);
    assert(begun.take(n) == target);
    assert(target_of(text) == target);
    // Its parts.
    assert forall|j: int| 0 <= j < path.len() implies target[j] != '?' by {
        assert(target[j] == path[j]);
        assert(!is_space(path[j]) && path[j] != '?');
    }
    assert(target[path.len() as int] == '?');
    lemma_find(target, '?', path.len() as int);
    assert(target.take(path.len() as int) == path);
    let query = "t="@ + token;
    assert(target.skip(path.len() as int + 1) == query);
    assert forall|i: int| 0 <= i < token.len() implies token[i] != '&' by {
        assert(!is_space(token[i]) && token[i] != '&');
    }
    law_only_the_token_opens(path, token, token);
}

/// Exactly those requests are served that are a `GET` and have `t=` and the token as one of their
/// parameters, wherever among the others it stands.
pub proof fn law_served_exactly_with_the_token(r: RequestView, token: Seq<char>)
    requires
        forall|i: int| 0 <= i < token.len() ==> token[i] != '&',
    ensures
        authorized_by(r, token) <==> r.method == "GET"@ && exists|a: Seq<char>, b: Seq<char>|
            #[trigger]
            (a + ("t="@ + token) + b) == r.query && (a.len() == 0 || a.last() == '&') && (b.len() == 0
                || b[0] == '&'),
{
    reveal_strlit("t=");
    let p = "t="@ + token;
    assert forall|i: int| 0 <= i < p.len() implies p[i] != '&' by {
        if i >= 2 {
            assert(p[i] == token[i - 2]);
        }
    }
    law_pieces_stand_between_separators(r.query, '&', p);
}

/// The token may stand anywhere among the parameters: alone, before others, behind others, or
/// between them.
pub proof fn law_the_token_may_stand_anywhere(
    path: Seq<char>,
    a: Seq<char>,
    token: Seq<char>,
    b: Seq<char>,
)
    requires
        forall|i: int| 0 <= i < token.len() ==> token[i] != '&',
    ensures
        authorized_by(RequestView { method: "GET"@, path, query: "t="@ + token }, token),
        authorized_by(
            RequestView { method: "GET"@, path, query: "t="@ + token + seq!['&'] + b },
            token,
        ),
        authorized_by(
            RequestView { method: "GET"@, path, query: a + seq!['&'] + ("t="@ + token) },
            token,
        ),
        authorized_by(
            RequestView {
                method: "GET"@,
                path,
                query: a + seq!['&'] + ("t="@ + token) + (seq!['&'] + b),
            },
            token,
        ),
{
    let p = "t="@ + token;
    let none = Seq::<char>::empty();
    let (before, behind) = (a + seq!['&'], seq!['&'] + b);
    assert(before.last() == '&' && behind[0] == '&');
    let q = |query: Seq<char>| RequestView { method: "GET"@, path, query };
    law_served_exactly_with_the_token(q(p), token);
    assert(none + p + none == p);
    law_served_exactly_with_the_token(q(p + seq!['&'] + b), token);
    assert(none + p + behind == p + seq!['&'] + b);
    law_served_exactly_with_the_token(q(before + p), token);
    assert(before + p + none == before + p);
    law_served_exactly_with_the_token(q(before + p + behind), token);
    assert(before + p + behind == q(before + p + behind).query);
}

/// A request is read from its first line: the first word is the method, and the second, up to its
/// first question mark and behind it, the path and the query. What follows does not matter.
pub proof fn law_requests_are_read_word_by_word(
    lead: Seq<char>,
    method: Seq<char>,
    gap: Seq<char>,
    path: Seq<char>,
    query: Seq<char>,
    rest: Seq<char>,
)
    requires
        forall|i: int| 0 <= i < lead.len() ==> is_space(#[trigger] lead[i]),
        forall|i: int| 0 <= i < gap.len() ==> is_space(#[trigger] gap[i]),
        gap.len() > 0,
        method.len() > 0,
        forall|i: int| 0 <= i < method.len() ==> !is_space(#[trigger] method[i]),
        path.len() > 0,
        forall|i: int| 0 <= i < path.len() ==> !is_space(#[trigger] path[i]) && path[i] != '?',
        forall|i: int| 0 <= i < query.len() ==> !is_space(#[trigger] query[i]),
        rest.len() == 0 || is_space(rest[0]),
    ensures
        request_of(lead + method + (gap + (path + seq!['?'] + query) + rest)) == (RequestView {
            method,
            path,
            query,
        }),
        request_of(lead + method + (gap + path + rest)) == (RequestView {
            method,
            path,
            query: Seq::empty(),
        }),
{
    let target = path + seq!['?'] + query;
    let tail = gap + target + rest;
    assert(tail[0] == gap[0]);
    law_words_stand_between_spaces(lead, method, tail);
    assert forall|i: int| 0 <= i < target.len() implies !is_space(#[trigger] target[i]) by {
        if i < path.len() {
            assert(target[i] == path[i]);
        } else if i > path.len() {
            assert(target[i] == query[i - path.len() - 1]);
        }
    }
    law_words_stand_between_spaces(gap, target, rest);
    assert forall|i: int| 0 <= i < path.len() implies path[i] != '?' by {
        assert(!is_space(path[i]) && path[i] != '?');
    }
    law_cut_is_at_the_first(path, '?', query);
    let bare = gap + path + rest;
    assert(bare[0] == gap[0]);
    law_words_stand_between_spaces(lead, method, bare);
    assert forall|i: int| 0 <= i < path.len() implies !is_space(#[trigger] path[i]) by {
        assert(!is_space(path[i]) && path[i] != '?');
    }
    law_words_stand_between_spaces(gap, path, rest);
}

/// A request that is served is handed on with its own route and its whole query, unless nothing
/// has to be done for it: then it is answered at once.
pub proof fn law_served_requests_are_handed_on(r: RequestView, token: Seq<char>, ready: Option<u16>)
    requires
        authorized_by(r, token),
    ensures
        match route_of(r.path) {
            Route::WinState => step_of(r, token, ready) == StepView::Send(
                response_of(window_state_of(ready)),
            ),
            Route::Unknown => step_of(r, token, ready) == StepView::Send(
                response_of("{\"ok\":false}"@),
            ),
            Route::WinOther | Route::WinFullscreen => step_of(r, token, ready) == StepView::Send(
                response_of("{\"ok\":true}"@),
            ),
            asked => step_of(r, token, ready) == StepView::Run(asked, r.query),
        },
{
}

/// A response carries its body unchanged, behind a head that gives the number of its bytes.
pub proof fn law_responses_carry_their_body(body: Seq<char>)
    ensures
        response_of(body)
            == "HTTP/1.1 200 OK\r\nContent-Type: application/json\r\nAccess-Control-Allow-Origin: *\r\nContent-Length: "@
            + decimal_of(encode_utf8(body).len()) + "\r\nConnection: close\r\n\r\n"@ + body,
{
}

/// The page learns the server's own port, and nothing before it is ready.
pub proof fn law_the_page_learns_the_port(port: u16)
    ensures
        window_state_of(Some(port)) == "{\"url\":\"http://127.0.0.1:"@ + decimal_of(port as nat)
            + "\"}"@,
        window_state_of(None) == "{\"url\":null}"@,
{
}

/// Every route but the two that stand for all other paths has one path.
pub proof fn law_each_route_has_one_path(a: Seq<char>, b: Seq<char>)
    requires
        route_of(a) == route_of(b),
        !(route_of(a) is WinOther),
        !(route_of(a) is Unknown),
    ensures
        a == b,
{
}

/// Every path below `/win/` is a known one, and none but those is taken for a window control.
pub proof fn law_windows_have_their_own_paths(path: Seq<char>)
    ensures
        path.len() >= 5 && path.take(5) == "/win/"@ ==> !(route_of(path) is Unknown),
        route_of(path) is WinOther ==> path.len() >= 5 && path.take(5) == "/win/"@,
{
    reveal_strlit("/win/");
}

proof fn lemma_family(path: Seq<char>, family: Seq<char>, n: int)
    requires
        family.len() == n,
        0 < n <= path.len(),
        forall|i: int| 0 <= i < n ==> path[i] == family[i],
    ensures
        has_prefix(path, family),
{
    assert(path.take(n) == family);
}

/// A path outside `/bg/`, `/win/`, `/speech/` and `/plugin/` is unknown.
pub proof fn law_other_paths_are_unknown(path: Seq<char>)
    requires
        !has_prefix(path, "/bg/"@),
        !has_prefix(path, "/win/"@),
        !has_prefix(path, "/speech/"@),
        !has_prefix(path, "/plugin/"@),
    ensures
        route_of(path) is Unknown,
{
    reveal_strlit("/bg/");
    reveal_strlit("/win/");
    reveal_strlit("/speech/");
    reveal_strlit("/plugin/");
    reveal_strlit("/bg/state");
    reveal_strlit("/bg/pick");
    reveal_strlit("/bg/clear");
    reveal_strlit("/bg/opacity");
    reveal_strlit("/win/state");
    reveal_strlit("/win/drag");
    reveal_strlit("/win/min");
    reveal_strlit("/win/max");
    reveal_strlit("/win/fullscreen");
    reveal_strlit("/win/devtools");
    reveal_strlit("/win/close");
    reveal_strlit("/win/quit");
    reveal_strlit("/win/restart");
    reveal_strlit("/win/about");
    reveal_strlit("/win/update/check");
    reveal_strlit("/win/update/start");
    reveal_strlit("/win/update/status");
    reveal_strlit("/win/update/install");
    reveal_strlit("/win/update/open");
    reveal_strlit("/speech/start");
    reveal_strlit("/speech/stop");
    reveal_strlit("/speech/status");
    reveal_strlit("/plugin/list");
    reveal_strlit("/plugin/catalog");
    reveal_strlit("/plugin/status");
    reveal_strlit("/plugin/install");
    reveal_strlit("/plugin/remove");
    reveal_strlit("/plugin/ensure-pnpm");
    let r = route_of(path);
    if r is BgState || r is BgPick || r is BgClear || r is BgOpacity {
        lemma_family(path, "/bg/"@, 4);
    } else if is_window_control(r) || r is WinState || r is UpdateCheck || r is UpdateStart
        || r is UpdateStatus || r is UpdateInstall || r is UpdateOpen {
        lemma_family(path, "/win/"@, 5);
    } else if r is SpeechStart || r is SpeechStop || r is SpeechStatus {
        lemma_family(path, "/speech/"@, 8);
    } else if !(r is Unknown) {
        lemma_family(path, "/plugin/"@, 8);
    }
}

/// A request of one word asks for `/`, with nothing behind it.
pub proof fn law_a_lone_word_asks_for_the_root(lead: Seq<char>, method: Seq<char>, gap: Seq<char>)
    requires
        forall|i: int| 0 <= i < lead.len() ==> is_space(#[trigger] lead[i]),
        forall|i: int| 0 <= i < gap.len() ==> is_space(#[trigger] gap[i]),
        method.len() > 0,
        forall|i: int| 0 <= i < method.len() ==> !is_space(#[trigger] method[i]),
    ensures
        request_of(lead + method + gap) == (RequestView {
            method,
            path: seq!['/'],
            query: Seq::empty(),
        }),
{
    reveal_strlit("/");
    law_words_stand_between_spaces(lead, method, gap);
    lemma_trim_start(gap, gap.len() as int);
    assert(gap.skip(gap.len() as int) == Seq::<char>::empty());
    assert(word(gap).len() == 0);
    assert("/"@ == seq!['/']);
    law_cut_is_at_the_first(seq!['/'], '?', Seq::empty());
}

/// Window controls and changes of the background are answered well whatever came of them, an
/// unknown path is not, and everything else is answered with what came of it.
pub proof fn law_what_is_answered_whatever_came(r: Route)
    ensures
        match r {
            Route::WinDrag | Route::WinMinimize | Route::WinToggleMaximize | Route::WinFullscreen
            | Route::WinDevtools | Route::WinHide | Route::WinQuit | Route::WinRestart
            | Route::WinAbout | Route::WinOther | Route::BgClear | Route::BgOpacity => settled_body_of(
                r,
            ) == Some("{\"ok\":true}"@),
            Route::Unknown => settled_body_of(r) == Some("{\"ok\":false}"@),
            _ => settled_body_of(r) is None,
        },
{
}

} // verus!
