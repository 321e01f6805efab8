//! Hold-to-talk: how a listening session starts, what it keeps of what it hears, and how it ends.
//!
//! A worker owns the recognizer. It carries out one step of the start after another, listens until
//! it is told to stop, waits a little for the last phrase to settle, and takes everything down.

use serde_json::Value;
use vstd::prelude::*;

use crate::decode::opt_view;
use crate::json::{flag, json_of, no_fields, object, put, render, text, Json};
use crate::reply::{error_doc, error_reply, join, lemma_flat, writes};
use crate::text::{lowered, same, to_lower};

verus! {

// ---------------------------------------------------------------- starting

/// The steps of a start, in their order.
#[derive(Debug, Clone, Copy, PartialEq, Eq, Structural)]
pub enum Stage {
    /// The worker joins the apartment of the system's components.
    Com,
    Recognizer,
    Session,
    /// The handler of results is registered.
    Register,
    /// The grammar is compiled.
    Compile,
    /// The compiler's verdict on the grammar is read.
    Accept,
    Begin,
}

/// What follows a step of the start.
#[derive(Debug)]
pub enum Next {
    Step(Stage),
    /// The session listens.
    Live,
    /// The start is given up, with what is said of it. The handler is taken back where it was
    /// registered.
    Failed { message: String, unregister: bool },
}

/// What follows a step of the start, in contracts.
#[verifier::ext_equal]
pub enum NextView {
    Step(Stage),
    Live,
    Failed { message: Seq<char>, unregister: bool },
}

impl View for Next {
    type V = NextView;

    open spec fn view(&self) -> NextView {
        match *self {
            Next::Step(s) => NextView::Step(s),
            Next::Live => NextView::Live,
            Next::Failed { message, unregister } => NextView::Failed {
                message: message@,
                unregister,
            },
        }
    }
}

/// What is said of a step that failed.
pub open spec fn failure_of(stage: Stage, detail: Seq<char>) -> Seq<char> {
    match stage {
        Stage::Com => "COM 初始化失败："@ + detail,
        Stage::Recognizer => "无法创建语音识别器（检查系统设置中是否允许应用使用麦克风）："@ + detail,
        Stage::Session => "无法初始化连续识别："@ + detail,
        Stage::Register => "注册识别事件失败："@ + detail,
        Stage::Compile => "编译语音识别约束失败："@ + detail,
        Stage::Accept => "语音识别约束编译未通过"@,
        Stage::Begin => "启动识别失败（检查系统设置中是否允许应用使用麦克风）："@ + detail,
    }
}

/// The handler is registered when a step is taken.
pub open spec fn is_registered(stage: Stage) -> bool {
    stage is Compile || stage is Accept || stage is Begin
}

/// What follows a step of the start.
pub open spec fn next_of(stage: Stage, outcome: Result<(), Seq<char>>) -> NextView {
    match outcome {
        Err(detail) => NextView::Failed {
            message: failure_of(stage, detail),
            unregister: is_registered(stage),
        },
        Ok(_) => match stage {
            Stage::Com => NextView::Step(Stage::Recognizer),
            Stage::Recognizer => NextView::Step(Stage::Session),
            Stage::Session => NextView::Step(Stage::Register),
            Stage::Register => NextView::Step(Stage::Compile),
            Stage::Compile => NextView::Step(Stage::Accept),
            Stage::Accept => NextView::Step(Stage::Begin),
            Stage::Begin => NextView::Live,
        },
    }
}

/// What is said of a step that failed.
pub fn failure(stage: Stage, detail: &str) -> (r: String)
    ensures
        r@ == failure_of(stage, detail@),
{
    match stage {
        Stage::Com => join("COM 初始化失败：", detail),
        Stage::Recognizer => join("无法创建语音识别器（检查系统设置中是否允许应用使用麦克风）：", detail),
        Stage::Session => join("无法初始化连续识别：", detail),
        Stage::Register => join("注册识别事件失败：", detail),
        Stage::Compile => join("编译语音识别约束失败：", detail),
        Stage::Accept => "语音识别约束编译未通过".to_owned(),
        Stage::Begin => join("启动识别失败（检查系统设置中是否允许应用使用麦克风）：", detail),
    }
}

/// What follows a step of the start that went well, or failed with some detail.
pub fn run_session(stage: Stage, outcome: Result<(), String>) -> (r: Next)
    ensures
        r@ == next_of(
            stage,
            match outcome {
                Ok(_) => Ok(()),
                Err(e) => Err(e@),
            },
        ),
{
    match outcome {
        Err(e) => {
            let unregister: bool = match stage {
                Stage::Compile | Stage::Accept | Stage::Begin => true,
                _ => false,
            };
            Next::Failed { message: failure(stage, e.as_str()), unregister }
        },
        Ok(_) => match stage {
            Stage::Com => Next::Step(Stage::Recognizer),
            Stage::Recognizer => Next::Step(Stage::Session),
            Stage::Session => Next::Step(Stage::Register),
            Stage::Register => Next::Step(Stage::Compile),
            Stage::Compile => Next::Step(Stage::Accept),
            Stage::Accept => Next::Step(Stage::Begin),
            Stage::Begin => Next::Live,
        },
    }
}

/// The place of a step in the order of the start.
pub open spec fn place(stage: Stage) -> nat {
    match stage {
        Stage::Com => 0,
        Stage::Recognizer => 1,
        Stage::Session => 2,
        Stage::Register => 3,
        Stage::Compile => 4,
        Stage::Accept => 5,
        Stage::Begin => 6,
    }
}

/// Every step leads to the one behind it, the last to a live session, and a start that fails
/// takes the handler back exactly where the step that registers it has been left behind.
pub proof fn law_a_start_leaves_nothing_behind(stage: Stage, outcome: Result<(), Seq<char>>)
    ensures
        match next_of(stage, outcome) {
            NextView::Step(s) => outcome is Ok && place(s) == place(stage) + 1,
            NextView::Live => outcome is Ok && stage is Begin,
            NextView::Failed { message, unregister } => outcome is Err && unregister == (place(stage)
                > place(Stage::Register)),
        },
{
}

// ---------------------------------------------------------------- listening

/// What a session has heard.
#[derive(Debug)]
pub struct Transcript {
    pub text: String,
    /// A final result has come.
    pub finalized: bool,
}

/// What is kept of a text that was heard: it replaces what was kept, unless it is empty.
pub open spec fn keep(kept: Seq<char>, heard: Seq<char>) -> Seq<char> {
    if heard.len() > 0 {
        heard
    } else {
        kept
    }
}

impl Transcript {
    /// A session that has heard nothing.
    pub fn new() -> (r: Self)
        ensures
            r.text@ == Seq::<char>::empty(),
            !r.finalized,
    {
        Transcript { text: String::new(), finalized: false }
    }

    /// Takes a result: its text and whether it is final, as far as they could be read. Interim
    /// results are often empty, and must not wipe out what was heard.
    pub fn on_result(&mut self, heard: Option<&str>, success: Option<bool>)
        ensures
            final(self).text@ == match heard {
                Some(t) => keep(old(self).text@, t@),
                None => old(self).text@,
            },
            final(self).finalized == (old(self).finalized || success == Some(true)),
    {
        if let Some(t) = heard {
            if !t.is_empty() {
                self.text = t.to_owned();
            }
        }
        if let Some(s) = success {
            if s {
                self.finalized = true;
            }
        }
    }
}

/// What is kept of texts that were heard one after another.
pub open spec fn kept_of(heard: Seq<Seq<char>>) -> Seq<char>
    decreases heard.len(),
{
    if heard.len() == 0 {
        Seq::empty()
    } else {
        keep(kept_of(heard.drop_last()), heard.last())
    }
}

/// What is kept is the last text that was not empty, however many empty ones follow it; and
/// nothing is kept only where nothing was heard.
pub proof fn law_the_last_words_are_kept(heard: Seq<Seq<char>>, i: int)
    requires
        0 <= i <= heard.len(),
        forall|j: int| i <= j < heard.len() ==> (#[trigger] heard[j]).len() == 0,
        i > 0 ==> heard[i - 1].len() > 0,
    ensures
        kept_of(heard) == if i > 0 {
            heard[i - 1]
        } else {
            Seq::<char>::empty()
        },
    decreases heard.len(),
{
    if heard.len() > 0 {
        let rest = heard.drop_last();
        if i < heard.len() {
            assert(heard[heard.len() - 1].len() == 0);
            assert forall|j: int| i <= j < rest.len() implies (#[trigger] rest[j]).len() == 0 by {
                assert(heard[j].len() == 0);
            }
            law_the_last_words_are_kept(rest, i);
        }
    }
}

/// What a worker does next.
#[derive(Debug, Clone, Copy, PartialEq, Eq, Structural)]
pub enum Wait {
    /// Looks again after so many milliseconds.
    Sleep(u64),
    /// Goes on.
    Over,
}

/// A live session waits until it is told to stop.
pub fn parked(stop: bool) -> (r: Wait)
    ensures
        r == if stop {
            Wait::Over
        } else {
            Wait::Sleep(50)
        },
{
    if stop {
        Wait::Over
    } else {
        Wait::Sleep(50)
    }
}

/// For how many nanoseconds the last phrase may settle.
pub const GRACE_NS: u128 = 700_000_000;

/// A session that was told to stop waits for a final result, but not for long.
pub open spec fn linger_of(finalized: bool, elapsed_ns: u128) -> Wait {
    if finalized || elapsed_ns >= GRACE_NS {
        Wait::Over
    } else {
        Wait::Sleep(30)
    }
}

/// A session that was told to stop waits for a final result, but not for long.
pub fn lingering(finalized: bool, elapsed_ns: u128) -> (r: Wait)
    ensures
        r == linger_of(finalized, elapsed_ns),
{
    if finalized || elapsed_ns >= GRACE_NS {
        Wait::Over
    } else {
        Wait::Sleep(30)
    }
}

// ---------------------------------------------------------------- endpoints

/// How long a session that was told to stop is waited for, in seconds.
pub const TEARDOWN_SECS: u64 = 6;

/// How long a start is waited for, in seconds.
pub const START_SECS: u64 = 10;

/// What came of a start.
#[derive(Debug)]
pub enum StartOutcome {
    /// The session listens. The microphones for calls and for everything else, as far as the
    /// system names them.
    Live { comm: Option<String>, user: Option<String> },
    Failed(String),
    /// The worker did not answer in time.
    TimedOut,
}

/// What the start endpoint does.
#[derive(Debug)]
pub struct Started {
    pub answer: String,
    /// The session is kept, so that it can be stopped.
    pub keep: bool,
    /// The session is told to stop.
    pub stop: bool,
}

/// The recognizer listens to another microphone than the user's: both are known, and they differ
/// in more than case.
pub open spec fn is_mismatch(comm: Option<Seq<char>>, user: Option<Seq<char>>) -> bool {
    match (comm, user) {
        (Some(c), Some(u)) => lowered(c) != lowered(u),
        _ => false,
    }
}

/// What is answered to a start that went well.
pub open spec fn live_doc(mismatch: bool) -> Json {
    Json::Obj(
        no_fields().insert("ok"@, Json::Bool(true)).insert("mic_mismatch"@, Json::Bool(mismatch)),
    )
}

/// Whether the recognizer listens to another microphone than the user's.
pub fn mic_mismatch(comm: &Option<String>, user: &Option<String>) -> (r: bool)
    ensures
        r == is_mismatch(opt_view(*comm), opt_view(*user)),
{
    match (comm, user) {
        (Some(c), Some(u)) => {
            let a: String = to_lower(c.as_str());
            let b: String = to_lower(u.as_str());
            !same(a.as_str(), b.as_str())
        },
        _ => false,
    }
}

/// What the start endpoint does about what came of the start. A worker that did not answer in time
/// is kept, and told to stop in case it ever goes on.
pub open spec fn settled(outcome: StartOutcome, r: Started) -> bool {
    match outcome {
        StartOutcome::Live { comm, user } => {
            &&& writes(r.answer@, live_doc(is_mismatch(opt_view(comm), opt_view(user))))
            &&& r.keep && !r.stop
        },
        StartOutcome::Failed(e) => writes(r.answer@, error_doc(e@)) && !r.keep && !r.stop,
        StartOutcome::TimedOut => {
            &&& r.answer@ == "{\"ok\":false,\"error\":\"语音识别启动超时\"}"@
            &&& r.keep && r.stop
        },
    }
}

/// The start endpoint, once any session before it has been told to stop and waited for.
pub fn start(outcome: StartOutcome) -> (r: Started)
    ensures
        settled(outcome, r),
{
    match outcome {
        StartOutcome::Live { comm, user } => {
            let mut v: Value = object();
            put(&mut v, "ok", flag(true));
            put(&mut v, "mic_mismatch", flag(mic_mismatch(&comm, &user)));
            proof {
                lemma_flat(json_of(v)->Obj_0, 100);
            }
            Started { answer: render(&v), keep: true, stop: false }
        },
        StartOutcome::Failed(e) => Started {
            answer: error_reply(e.as_str()),
            keep: false,
            stop: false,
        },
        StartOutcome::TimedOut => Started {
            answer: "{\"ok\":false,\"error\":\"语音识别启动超时\"}".to_owned(),
            keep: true,
            stop: true,
        },
    }
}

// ---------------------------------------------------------------- the slot

/// The slot after its session was taken from it, and the session.
pub open spec fn taken<H>(slot: Option<H>) -> (Option<H>, Option<H>) {
    (None, slot)
}

/// What is left of a start beside the slot.
pub enum Leftover<H> {
    Nothing,
    /// The new session, whose worker has ended.
    Ended(H),
    /// A session that another start had put there meanwhile. It is told to stop and waited for.
    Displaced(H),
}

/// The slot after a start is over, and what is left beside it.
pub open spec fn placed<H>(slot: Option<H>, session: H, keep: bool) -> (Option<H>, Leftover<H>) {
    if keep {
        (
            Some(session),
            match slot {
                Some(other) => Leftover::Displaced(other),
                None => Leftover::Nothing,
            },
        )
    } else {
        (slot, Leftover::Ended(session))
    }
}

/// What happens while a start is asked for.
#[derive(Debug)]
pub enum StartEvent {
    Asked,
    /// The session that was in the slot was told to stop, and waited for.
    TornDown,
    /// The worker answered, or did not in time.
    Reported(StartOutcome),
}

/// What is done about it.
pub enum StartAction<H> {
    /// The session, which was taken from the slot, is told to stop and waited for.
    TearDown(H),
    /// A worker is started, and waited for.
    Spawn,
    /// The start is over: the new session is told to stop where that is said, and then placed.
    Settle(Started),
}

/// What is done while a start is asked for: a session in the slot is taken from it and taken down
/// before another worker is started.
pub fn on_start<H>(slot: &mut Option<H>, event: StartEvent) -> (r: StartAction<H>)
    ensures
        match event {
            StartEvent::Asked => {
                &&& *final(slot) == taken(*old(slot)).0
                &&& match taken(*old(slot)).1 {
                    Some(session) => r == StartAction::TearDown(session),
                    None => r is Spawn,
                }
            },
            StartEvent::TornDown => *final(slot) == *old(slot) && r is Spawn,
            StartEvent::Reported(outcome) => {
                &&& *final(slot) == *old(slot)
                &&& r matches StartAction::Settle(s) && settled(outcome, s)
            },
        },
{
    match event {
        StartEvent::Asked => match slot.take() {
            Some(session) => StartAction::TearDown(session),
            None => StartAction::Spawn,
        },
        StartEvent::TornDown => StartAction::Spawn,
        StartEvent::Reported(outcome) => StartAction::Settle(start(outcome)),
    }
}

/// Puts the session of a start that is over into the slot, if it is kept.
pub fn place_session<H>(slot: &mut Option<H>, session: H, s: &Started) -> (r: Leftover<H>)
    ensures
        (*final(slot), r) == placed(*old(slot), session, s.keep),
{
    if !s.keep {
        return Leftover::Ended(session);
    }
    let other: Option<H> = slot.take();
    *slot = Some(session);
    match other {
        Some(other) => Leftover::Displaced(other),
        None => Leftover::Nothing,
    }
}

/// What the stop endpoint does.
pub enum StopStep<H> {
    /// Answers so: there was no session.
    Answer(String),
    /// The session, which was taken from the slot, is told to stop and waited for. The answer is
    /// what it has heard by then, whether or not it has ended.
    TakeDown(H),
}

/// What is answered at once to a stop: that nothing was heard, where there is no session.
pub open spec fn empty_answer<H>(slot: Option<H>) -> Option<Seq<char>> {
    match slot {
        Some(_) => None,
        None => Some("{\"ok\":true,\"text\":\"\"}"@),
    }
}

/// The stop endpoint. Whatever was in the slot is taken from it.
pub fn stop<H>(slot: &mut Option<H>) -> (r: StopStep<H>)
    ensures
        *final(slot) is None,
        *final(slot) == taken(*old(slot)).0,
        match r {
            StopStep::TakeDown(session) => taken(*old(slot)).1 == Some(session),
            StopStep::Answer(a) => empty_answer(*old(slot)) == Some(a@),
        },
{
    match slot.take() {
        Some(session) => StopStep::TakeDown(session),
        None => StopStep::Answer("{\"ok\":true,\"text\":\"\"}".to_owned()),
    }
}

/// What is answered when a session is stopped.
pub open spec fn stopped_doc(heard: Seq<char>) -> Json {
    Json::Obj(no_fields().insert("ok"@, Json::Bool(true)).insert("text"@, Json::Str(heard)))
}

/// The answer to a stop, from what the session heard.
pub fn stopped(heard: &str) -> (r: String)
    ensures
        writes(r@, stopped_doc(heard@)),
{
    let mut v: Value = object();
    put(&mut v, "ok", flag(true));
    put(&mut v, "text", text(heard));
    proof {
        lemma_flat(json_of(v)->Obj_0, 100);
    }
    render(&v)
}

/// What is answered of the slot.
pub open spec fn active_doc(active: bool) -> Json {
    Json::Obj(no_fields().insert("ok"@, Json::Bool(true)).insert("active"@, Json::Bool(active)))
}

/// The status endpoint: whether there is a session in the slot.
pub fn status<H>(slot: &Option<H>) -> (r: String)
    ensures
        writes(r@, active_doc(*slot is Some)),
{
    let mut v: Value = object();
    put(&mut v, "ok", flag(true));
    put(&mut v, "active", flag(slot.is_some()));
    proof {
        lemma_flat(json_of(v)->Obj_0, 100);
    }
    render(&v)
}

// ---------------------------------------------------------------- laws of the slot

/// A call of an endpoint that starts nothing.
pub enum Call {
    Stop,
    Status,
}

/// The slot after some calls, and the sessions that they took from it.
pub open spec fn called<H>(slot: Option<H>, calls: Seq<Call>) -> (Option<H>, Seq<H>)
    decreases calls.len(),
{
    if calls.len() == 0 {
        (slot, Seq::empty())
    } else {
        let (before, out) = called(slot, calls.drop_last());
        match calls.last() {
            Call::Stop => (
                taken(before).0,
                match taken(before).1 {
                    Some(session) => out.push(session),
                    None => out,
                },
            ),
            Call::Status => (before, out),
        }
    }
}

/// A session is taken from the slot, and its text handed out, at most once: whatever is called, as
/// long as nothing is started, the first stop takes it, and no other takes anything.
pub proof fn law_a_session_is_handed_out_once<H>(slot: Option<H>, calls: Seq<Call>)
    ensures
        called(slot, calls).0 == if calls.contains(Call::Stop) {
            None
        } else {
            slot
        },
        called(slot, calls).1 == if calls.contains(Call::Stop) && slot is Some {
            seq![slot->0]
        } else {
            Seq::<H>::empty()
        },
    decreases calls.len(),
{
    if calls.len() > 0 {
        let rest = calls.drop_last();
        law_a_session_is_handed_out_once(slot, rest);
        if calls.last() is Stop {
            assert(calls[calls.len() - 1] == Call::Stop);
        } else if calls.contains(Call::Stop) {
            let i = choose|i: int| 0 <= i < calls.len() && calls[i] == Call::Stop;
            assert(rest[i] == Call::Stop);
        }
        if rest.contains(Call::Stop) {
            let i = choose|i: int| 0 <= i < rest.len() && rest[i] == Call::Stop;
            assert(calls[i] == Call::Stop);
        }
        assert(Seq::<H>::empty().push(slot->0) == seq![slot->0]);
    }
}

/// Once stopped, it stays so: after a stop, and whatever is called since as long as nothing is
/// started, a further stop answers that nothing was heard, and the status that there is no session.
pub proof fn law_a_stop_leaves_nothing<H>(slot: Option<H>, calls: Seq<Call>)
    ensures
        ({
            let since = called(taken(slot).0, calls).0;
            &&& since is None
            &&& taken(since) == (None::<H>, None::<H>)
            &&& empty_answer(since) == Some("{\"ok\":true,\"text\":\"\"}"@)
            &&& active_doc(since is Some) == active_doc(false)
        }),
{
    law_a_session_is_handed_out_once(taken(slot).0, calls);
}

/// The sessions there are: the one in the slot, those whose start is not over, and those that were
/// not told to stop and have not ended.
#[verifier::ext_equal]
pub struct Sessions {
    pub slot: Option<nat>,
    pub starting: Set<nat>,
    pub listening: Set<nat>,
}

/// Only the session in the slot, and those whose start is not over, may listen.
pub open spec fn under_control(s: Sessions) -> bool {
    forall|id: nat| #[trigger]
        s.listening.contains(id) ==> s.slot == Some(id) || s.starting.contains(id)
}

/// The session in the slot has been taken from it and told to stop.
pub open spec fn torn_down(s: Sessions) -> Sessions {
    Sessions {
        slot: taken(s.slot).0,
        listening: match taken(s.slot).1 {
            Some(id) => s.listening.remove(id),
            None => s.listening,
        },
        ..s
    }
}

/// A worker has been started.
pub open spec fn spawned(s: Sessions, id: nat) -> Sessions {
    Sessions { starting: s.starting.insert(id), listening: s.listening.insert(id), ..s }
}

/// The start of a session is over. It listens only if it was kept and not told to stop, and one
/// that it displaced was told to.
pub open spec fn after_start(s: Sessions, id: nat, r: Started) -> Sessions {
    let (slot, left) = placed(s.slot, id, r.keep);
    let others = match left {
        Leftover::Displaced(other) => s.listening.remove(other),
        _ => s.listening,
    };
    Sessions {
        slot,
        starting: s.starting.remove(id),
        listening: if r.keep && !r.stop {
            others
        } else {
            others.remove(id)
        },
    }
}

/// No session is left listening without a way to stop it, in whatever order starts and stops come
/// together: each of their steps keeps the sessions under control. Once every start is over, only
/// the session in the slot may listen; and after a stop none does.
pub proof fn law_no_session_is_left_listening(s: Sessions, id: nat, r: Started)
    requires
        under_control(s),
    ensures
        under_control(torn_down(s)),
        under_control(spawned(s, id)),
        under_control(after_start(s, id, r)),
        s.starting.is_empty() ==> forall|other: nat| #[trigger]
            s.listening.contains(other) ==> s.slot == Some(other),
        s.starting.is_empty() ==> forall|other: nat|
            !(#[trigger] torn_down(s).listening.contains(other)),
{
    assert forall|other: nat| #[trigger] torn_down(s).listening.contains(other) implies s.slot
        != Some(other) && s.starting.contains(other) by {
        assert(s.listening.contains(other));
    }
    assert forall|other: nat| #[trigger] spawned(s, id).listening.contains(other) implies s.slot
        == Some(other) || spawned(s, id).starting.contains(other) by {
        if other != id {
            assert(s.listening.contains(other));
        }
    }
    let after = after_start(s, id, r);
    assert forall|other: nat| #[trigger] after.listening.contains(other) implies after.slot == Some(
        other,
    ) || after.starting.contains(other) by {
        assert(s.listening.contains(other));
    }
}

/// A start leaves the slot with its own session or with none: whatever was there before is taken
/// down first, and whatever came meanwhile is displaced.
pub proof fn law_a_start_has_the_slot_to_itself(s: Sessions, id: nat, outcome: StartOutcome, r: Started)
    requires
        settled(outcome, r),
    ensures
        after_start(spawned(torn_down(s), id), id, r).slot == if outcome is Failed {
            None
        } else {
            Some(id)
        },
        after_start(s, id, r).slot == if outcome is Failed {
            s.slot
        } else {
            Some(id)
        },
{
}

// ---------------------------------------------------------------- laws of the answers

/// What is said of a step that failed ends in the step's own detail, whatever that is; only the
/// verdict on the grammar has none.
pub proof fn law_failures_keep_their_detail(stage: Stage, detail: Seq<char>)
    ensures
        stage is Accept || failure_of(stage, detail) == failure_of(stage, Seq::empty()) + detail,
        stage is Accept ==> failure_of(stage, detail) == "语音识别约束编译未通过"@,
{
    let none = failure_of(stage, Seq::empty());
    let full = failure_of(stage, detail);
    if !(stage is Accept) {
        assert(full == none + detail) by {
            assert(full =~= none + detail);
        }
    }
}

/// The microphones differ exactly where both are known and their names differ in more than the case
/// of the letters A to Z.
pub proof fn law_microphones_are_compared_without_case(c: Seq<char>, u: Seq<char>)
    ensures
        !is_mismatch(Some(c), Some(u)) <==> c.len() == u.len() && forall|i: int|
            0 <= i < c.len() ==> (#[trigger] c[i] == u[i] || ('A' <= c[i] && c[i] <= 'Z' && c[i] as u32
                + 32 == u[i] as u32) || ('A' <= u[i] && u[i] <= 'Z' && u[i] as u32 + 32
                == c[i] as u32)),
        !is_mismatch(None, Some(u)),
        !is_mismatch(Some(c), None),
        !is_mismatch(None, None),
{
    crate::text::law_lower_case_is_made_letter_by_letter(c);
    crate::text::law_lower_case_is_made_letter_by_letter(u);
    let (a, b) = (lowered(c), lowered(u));
    if a == b {
        assert forall|i: int| 0 <= i < c.len() implies (#[trigger] c[i] == u[i] || ('A' <= c[i]
            && c[i] <= 'Z' && c[i] as u32 + 32 == u[i] as u32) || ('A' <= u[i] && u[i] <= 'Z'
            && u[i] as u32 + 32 == c[i] as u32)) by {
            assert(a[i] == b[i]);
            assert(u[i] == u[i]);
        }
    }
    if c.len() == u.len() && forall|i: int|
        0 <= i < c.len() ==> (#[trigger] c[i] == u[i] || ('A' <= c[i] && c[i] <= 'Z' && c[i] as u32
            + 32 == u[i] as u32) || ('A' <= u[i] && u[i] <= 'Z' && u[i] as u32 + 32 == c[i] as u32)) {
        assert forall|i: int| 0 <= i < c.len() implies a[i] == b[i] by {
            assert(c[i] == u[i] || ('A' <= c[i] && c[i] <= 'Z' && c[i] as u32 + 32 == u[i] as u32)
                || ('A' <= u[i] && u[i] <= 'Z' && u[i] as u32 + 32 == c[i] as u32));
        }
        assert(a =~= b);
    }
}

/// The answers give what was heard, whether there is a session, and whether the microphones differ,
/// each as it is.
pub proof fn law_speech_is_answered_by_name(heard: Seq<char>, b: bool)
    ensures
        stopped_doc(heard) matches Json::Obj(m) && m["ok"@] == Json::Bool(true) && m["text"@]
            == Json::Str(heard),
        active_doc(b) matches Json::Obj(m) && m["ok"@] == Json::Bool(true) && m["active"@]
            == Json::Bool(b),
        live_doc(b) matches Json::Obj(m) && m["ok"@] == Json::Bool(true) && m["mic_mismatch"@]
            == Json::Bool(b),
{
    reveal_strlit("ok");
    reveal_strlit("text");
    reveal_strlit("active");
    reveal_strlit("mic_mismatch");
    assert("ok"@.len() == 2 && "text"@.len() == 4 && "active"@.len() == 6 && "mic_mismatch"@.len()
        == 12);
}

/// A text that was heard replaces what was kept, whole, and an empty one leaves it.
pub proof fn law_what_was_heard_replaces_what_was_kept(kept: Seq<char>, heard: Seq<char>)
    ensures
        heard.len() > 0 ==> keep(kept, heard) == heard,
        heard.len() == 0 ==> keep(kept, heard) == kept,
{
}

/// A session that was told to stop goes on exactly until a final result has come, or seven tenths
/// of a second have passed.
pub proof fn law_the_last_phrase_may_settle(finalized: bool, elapsed_ns: u128)
    ensures
        linger_of(finalized, elapsed_ns) is Over <==> finalized || elapsed_ns >= 700 * 1_000_000,
        linger_of(finalized, elapsed_ns) is Over || linger_of(finalized, elapsed_ns) == Wait::Sleep(
            30,
        ),
{
}

} // verus!
