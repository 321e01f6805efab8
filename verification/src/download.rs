//! The download of an installer: its job, and the check that stands between the bytes that came
//! and the installer that is run.
//!
//! The digest that the source gives for a file is the only warrant that the installer is the one
//! that was released: a file that fails the check is never moved into place.

use sha2::Sha256;
use vstd::prelude::*;

use crate::decode::opt_view;
use crate::digest::{digest_of, feed, hashed, hex, hex_of, new_hasher, sha256};
use crate::number::{number_of, parse_u64};
use crate::reply::join;
use crate::text::{after_prefix, has_prefix, lowered, same, to_lower};
use crate::updater::{without_v, UpdateInfo, UpdateView};

verus! {

// ---------------------------------------------------------------- the job

/// How far a download is.
#[derive(Debug, Clone, Copy, PartialEq, Eq, Structural)]
pub enum State {
    Downloading,
    Verifying,
    Ready,
    Error,
}

/// A download.
#[derive(Debug)]
pub struct DownloadJob {
    pub state: State,
    pub downloaded: u64,
    pub total: u64,
    pub error: Option<String>,
    pub file: Option<String>,
}

/// What a download holds.
#[verifier::ext_equal]
pub struct JobView {
    pub state: State,
    pub downloaded: u64,
    pub total: u64,
    pub error: Option<Seq<char>>,
    pub file: Option<Seq<char>>,
}

impl View for DownloadJob {
    type V = JobView;

    open spec fn view(&self) -> JobView {
        JobView {
            state: self.state,
            downloaded: self.downloaded,
            total: self.total,
            error: opt_view(self.error),
            file: opt_view(self.file),
        }
    }
}

/// What the slot of the one download holds.
pub open spec fn slot(job: Option<DownloadJob>) -> Option<JobView> {
    match job {
        Some(j) => Some(j@),
        None => None,
    }
}

/// A change to the download in the slot, if there is one.
pub open spec fn changed(s: Option<JobView>, f: spec_fn(JobView) -> JobView) -> Option<JobView> {
    match s {
        Some(j) => Some(f(j)),
        None => None,
    }
}

/// A download that has begun.
pub open spec fn begun(size: u64) -> JobView {
    JobView { state: State::Downloading, downloaded: 0, total: size, error: None, file: None }
}

/// A download whose source has answered.
pub open spec fn answered(total: u64) -> spec_fn(JobView) -> JobView {
    |j: JobView| JobView { state: State::Downloading, total: total, ..j }
}

/// A download of which so many bytes have come.
pub open spec fn counted(n: u64) -> spec_fn(JobView) -> JobView {
    |j: JobView| JobView { downloaded: n, ..j }
}

/// A download that is in some state.
pub open spec fn in_state(state: State) -> spec_fn(JobView) -> JobView {
    |j: JobView| JobView { state: state, ..j }
}

/// A download that has failed.
pub open spec fn failed(e: Seq<char>) -> spec_fn(JobView) -> JobView {
    |j: JobView| JobView { state: State::Error, error: Some(e), ..j }
}

/// A download whose file is in place.
pub open spec fn filed(file: Seq<char>) -> spec_fn(JobView) -> JobView {
    |j: JobView| JobView { file: Some(file), ..j }
}

/// A download that is not over.
pub open spec fn busy(s: Option<JobView>) -> bool {
    s matches Some(j) && (j.state is Downloading || j.state is Verifying)
}

/// Whether the download in the slot is not over.
pub fn is_busy(job: &Option<DownloadJob>) -> (r: bool)
    ensures
        r == busy(slot(*job)),
{
    match job {
        Some(j) => j.state == State::Downloading || j.state == State::Verifying,
        None => false,
    }
}

// ---------------------------------------------------------------- beginning

/// The names of the files of a download, in the directory of updates.
pub struct Plan {
    /// The installer.
    pub file: String,
    /// What has come of it.
    pub part: String,
}

/// The name of a version's installer, up to its ending.
pub open spec fn installer_stem(version: Seq<char>) -> Seq<char> {
    "dsh-desktop_"@ + version + "_x64-setup"@
}

/// Whether a download may begin, and its files: unless one is not over, it may. One that is ready
/// or has failed may be replaced.
pub fn start_download(job: &Option<DownloadJob>, info: &UpdateInfo) -> (r: Result<Plan, String>)
    ensures
        match r {
            Ok(p) => {
                &&& !busy(slot(*job))
                &&& p.file@ == installer_stem(without_v(info@.tag)) + ".exe"@
                &&& p.part@ == installer_stem(without_v(info@.tag)) + ".part"@
            },
            Err(e) => busy(slot(*job)) && e@ == "已有下载任务进行中"@,
        },
{
    if is_busy(job) {
        return Err("已有下载任务进行中".to_owned());
    }
    let mut stem: String = "dsh-desktop_".to_owned();
    stem.append(info.version());
    stem.append("_x64-setup");
    let mut file: String = stem.clone();
    file.append(".exe");
    let mut part: String = stem;
    part.append(".part");
    Ok(Plan { file, part })
}

/// Puts the download of an update into the slot.
fn open_job(job: &mut Option<DownloadJob>, info: &UpdateInfo)
    ensures
        slot(*final(job)) == Some(begun(info@.size)),
{
    *job = Some(
        DownloadJob {
            state: State::Downloading,
            downloaded: 0,
            total: info.size,
            error: None,
            file: None,
        },
    );
}

/// Begins a download, unless one is not over: then the slot is left as it is.
pub fn begin_download(job: &mut Option<DownloadJob>, info: &UpdateInfo) -> (r: Result<Plan, String>)
    ensures
        match r {
            Ok(p) => {
                &&& !busy(slot(*old(job)))
                &&& slot(*final(job)) == Some(begun(info@.size))
                &&& p.file@ == installer_stem(without_v(info@.tag)) + ".exe"@
                &&& p.part@ == installer_stem(without_v(info@.tag)) + ".part"@
            },
            Err(e) => {
                &&& busy(slot(*old(job)))
                &&& *final(job) == *old(job)
                &&& e@ == "已有下载任务进行中"@
            },
        },
{
    match start_download(job, info) {
        Ok(plan) => {
            open_job(job, info);
            Ok(plan)
        },
        Err(e) => Err(e),
    }
}

/// The length of a download: what the response says, if that is a number, or else what the
/// release said.
pub open spec fn length_of(header: Option<Seq<char>>, size: u64) -> u64 {
    match header {
        Some(h) => match number_of(h) {
            Some(n) => n,
            None => size,
        },
        None => size,
    }
}

// ---------------------------------------------------------------- the check

/// The digest that a release gives, without the name of its kind and in lower case.
pub open spec fn expected_digest(digest: Seq<char>) -> Seq<char> {
    lowered(
        if has_prefix(digest, "sha256:"@) {
            digest.skip("sha256:"@.len() as int)
        } else {
            digest
        },
    )
}

/// Some bytes pass the check of a release: it gives no digest, or that of the bytes.
pub open spec fn passes(digest: Option<Seq<char>>, bytes: Seq<u8>) -> bool {
    digest matches Some(d) ==> expected_digest(d) == hex_of(sha256(bytes))
}

/// What is said of a file that fails the check.
pub open spec fn tampered_text() -> Seq<char> {
    "安装包校验失败（哈希不匹配），已删除下载文件"@
}

/// Whether the bytes that were hashed pass the check of a release.
fn check(hasher: Sha256, digest: &Option<String>) -> (r: bool)
    ensures
        r == passes(opt_view(*digest), hashed(hasher)),
{
    match digest {
        Some(d) => {
            let expected: String = match after_prefix(d.as_str(), "sha256:") {
                Some(rest) => to_lower(rest),
                None => to_lower(d.as_str()),
            };
            let actual: String = hex(digest_of(hasher).as_slice());
            same(expected.as_str(), actual.as_str())
        },
        None => true,
    }
}

/// Where a download can go wrong outside the check.
#[derive(Debug, Clone, Copy, PartialEq, Eq, Structural)]
pub enum Fault {
    Directory,
    Request,
    Create,
    Read,
    Write,
    Move,
}

/// What is said of a fault, before its detail.
pub open spec fn fault_text(f: Fault) -> Seq<char> {
    match f {
        Fault::Directory => "创建更新目录失败："@,
        Fault::Request => "下载失败："@,
        Fault::Create => "创建文件失败："@,
        Fault::Read => "读取下载流失败："@,
        Fault::Write => "写入文件失败："@,
        Fault::Move => "移动文件失败："@,
    }
}

/// What is said of a fault.
pub fn fault_message(f: Fault, detail: &str) -> (r: String)
    ensures
        r@ == fault_text(f) + detail@,
{
    let head: &str = match f {
        Fault::Directory => "创建更新目录失败：",
        Fault::Request => "下载失败：",
        Fault::Create => "创建文件失败：",
        Fault::Read => "读取下载流失败：",
        Fault::Write => "写入文件失败：",
        Fault::Move => "移动文件失败：",
    };
    join(head, detail)
}

// ---------------------------------------------------------------- fetching

/// What a fetch waits for.
#[derive(Debug)]
pub enum Stage {
    /// The source's answer.
    Asking,
    /// The file that takes what comes.
    Creating,
    /// The next bytes.
    Reading,
    /// So many bytes to be in the file.
    Writing(usize),
    /// The file to be in its place.
    Moving,
    /// Nothing more: the file is in its place.
    Done,
    /// Nothing more: it failed, with what is said of it.
    Failed(String),
}

/// What a fetch waits for, in contracts.
#[verifier::ext_equal]
pub enum StageView {
    Asking,
    Creating,
    Reading,
    Writing(usize),
    Moving,
    Done,
    Failed(Seq<char>),
}

impl View for Stage {
    type V = StageView;

    open spec fn view(&self) -> StageView {
        match *self {
            Stage::Asking => StageView::Asking,
            Stage::Creating => StageView::Creating,
            Stage::Reading => StageView::Reading,
            Stage::Writing(n) => StageView::Writing(n),
            Stage::Moving => StageView::Moving,
            Stage::Done => StageView::Done,
            Stage::Failed(e) => StageView::Failed(e@),
        }
    }
}

/// What happens to a fetch.
#[derive(Debug)]
pub enum Event<'a> {
    /// The source answered, with a length or without.
    Answered(Option<&'a str>),
    /// The file was created.
    Created,
    /// So many bytes came; none at the end.
    Read(usize),
    /// These bytes are in the file.
    Written(&'a [u8]),
    /// The file is in its place.
    Moved,
    /// What was waited for failed.
    Failed(String),
}

/// What is done next.
#[derive(Debug, Clone, Copy, PartialEq, Eq, Structural)]
pub enum Action {
    /// Creates the file that takes what comes.
    Create,
    /// Reads the next bytes.
    Read,
    /// Puts the bytes that came into the file.
    Write,
    /// Moves the file into its place.
    Move,
    /// Removes the file.
    Remove,
    /// Nothing: the fetch is over.
    Stop,
}

/// What a fetch holds.
#[verifier::ext_equal]
pub struct FetchView {
    pub stage: StageView,
    /// The bytes that are in the file.
    pub bytes: Seq<u8>,
}

/// A fetch that has asked the source.
pub open spec fn asked() -> FetchView {
    FetchView { stage: StageView::Asking, bytes: Seq::empty() }
}

/// What can happen to a fetch that waits for something.
pub open spec fn expects(f: FetchView, event: Event) -> bool {
    match event {
        Event::Answered(_) => f.stage is Asking,
        Event::Created => f.stage is Creating,
        Event::Read(_) => f.stage is Reading,
        Event::Written(chunk) => f.stage == StageView::Writing(chunk@.len() as usize)
            && f.bytes.len() + chunk@.len() <= u64::MAX,
        Event::Moved => f.stage is Moving,
        Event::Failed(_) => !(f.stage is Done) && !(f.stage is Failed),
    }
}

/// The fault of a fetch that waited for something in vain.
pub open spec fn fault_at(s: StageView) -> Fault {
    match s {
        StageView::Asking => Fault::Request,
        StageView::Creating => Fault::Create,
        StageView::Reading => Fault::Read,
        StageView::Writing(_) => Fault::Write,
        _ => Fault::Move,
    }
}

/// What a fetch becomes when something happens to it, what becomes of the job in the slot, and what
/// is done next.
pub open spec fn fetch_of(
    f: FetchView,
    event: Event,
    info: UpdateView,
    job: Option<JobView>,
) -> (FetchView, Option<JobView>, Action) {
    match event {
        Event::Answered(header) => (
            FetchView { stage: StageView::Creating, ..f },
            changed(
                job,
                answered(
                    length_of(
                        match header {
                            Some(h) => Some(h@),
                            None => None,
                        },
                        info.size,
                    ),
                ),
            ),
            Action::Create,
        ),
        Event::Created => (FetchView { stage: StageView::Reading, ..f }, job, Action::Read),
        Event::Read(n) => if n > 0 {
            (FetchView { stage: StageView::Writing(n), ..f }, job, Action::Write)
        } else if passes(info.digest, f.bytes) {
            (
                FetchView { stage: StageView::Moving, ..f },
                changed(job, in_state(State::Verifying)),
                Action::Move,
            )
        } else {
            (
                FetchView { stage: StageView::Failed(tampered_text()), ..f },
                changed(job, in_state(State::Verifying)),
                Action::Remove,
            )
        },
        Event::Written(chunk) => (
            FetchView { stage: StageView::Reading, bytes: f.bytes + chunk@ },
            changed(job, counted((f.bytes.len() + chunk@.len()) as u64)),
            Action::Read,
        ),
        Event::Moved => (
            FetchView { stage: StageView::Done, ..f },
            changed(job, in_state(State::Ready)),
            Action::Stop,
        ),
        Event::Failed(detail) => (
            FetchView {
                stage: StageView::Failed(fault_text(fault_at(f.stage)) + detail@),
                ..f
            },
            job,
            Action::Stop,
        ),
    }
}

/// The fetch of an installer.
pub struct Fetch {
    stage: Stage,
    /// Takes the bytes until they are checked.
    hasher: Option<Sha256>,
    received: u64,
    bytes: Ghost<Seq<u8>>,
}

impl View for Fetch {
    type V = FetchView;

    closed spec fn view(&self) -> FetchView {
        FetchView { stage: self.stage@, bytes: self.bytes@ }
    }
}

impl Fetch {
    /// The bytes are counted and, until they are checked, hashed.
    pub closed spec fn wf(self) -> bool {
        &&& self.received as nat == self@.bytes.len()
        &&& self.hasher matches Some(h) ==> hashed(h) == self@.bytes
        &&& self.stage is Asking || self.stage is Creating || self.stage is Reading
            || self.stage is Writing ==> self.hasher is Some
    }

    /// A fetch that has asked the source.
    pub fn new() -> (r: Self)
        ensures
            r.wf(),
            r@ == asked(),
    {
        Fetch {
            stage: Stage::Asking,
            hasher: Some(new_hasher()),
            received: 0,
            bytes: Ghost(Seq::empty()),
        }
    }

    /// Takes what happened to the fetch, and gives what is done next.
    pub fn fetch_and_verify(
        &mut self,
        event: Event,
        info: &UpdateInfo,
        job: &mut Option<DownloadJob>,
    ) -> (r: Action)
        requires
            old(self).wf(),
            expects(old(self)@, event),
        ensures
            final(self).wf(),
            (final(self)@, slot(*final(job)), r) == fetch_of(
                old(self)@,
                event,
                info@,
                slot(*old(job)),
            ),
    {
        match event {
            Event::Answered(header) => {
                let total: u64 = match header {
                    Some(h) => match parse_u64(h) {
                        Some(n) => n,
                        None => info.size,
                    },
                    None => info.size,
                };
                if let Some(j) = job {
                    j.state = State::Downloading;
                    j.total = total;
                }
                self.stage = Stage::Creating;
                Action::Create
            },
            Event::Created => {
                self.stage = Stage::Reading;
                Action::Read
            },
            Event::Read(n) => {
                if n > 0 {
                    self.stage = Stage::Writing(n);
                    return Action::Write;
                }
                if let Some(j) = job {
                    j.state = State::Verifying;
                }
                if let Some(hasher) = self.hasher.take() {
                    if check(hasher, &info.digest) {
                        self.stage = Stage::Moving;
                        return Action::Move;
                    }
                }
                self.stage = Stage::Failed("安装包校验失败（哈希不匹配），已删除下载文件".to_owned());
                Action::Remove
            },
            Event::Written(chunk) => {
                if let Some(hasher) = &mut self.hasher {
                    feed(hasher, chunk);
                }
                self.bytes = Ghost(self.bytes@ + chunk@);
                self.received = self.received + chunk.len() as u64;
                let n: u64 = self.received;
                if let Some(j) = job {
                    j.downloaded = n;
                }
                self.stage = Stage::Reading;
                Action::Read
            },
            Event::Moved => {
                if let Some(j) = job {
                    j.state = State::Ready;
                }
                self.stage = Stage::Done;
                Action::Stop
            },
            Event::Failed(detail) => {
                let fault: Fault = match &self.stage {
                    Stage::Asking => Fault::Request,
                    Stage::Creating => Fault::Create,
                    Stage::Reading => Fault::Read,
                    Stage::Writing(_) => Fault::Write,
                    _ => Fault::Move,
                };
                self.stage = Stage::Failed(fault_message(fault, detail.as_str()));
                Action::Stop
            },
        }
    }

    /// Notes how the fetch ended: the file that is in its place, or what went wrong.
    pub fn finish(self, file: String, job: &mut Option<DownloadJob>)
        requires
            self@.stage is Done || self@.stage is Failed,
        ensures
            slot(*final(job)) == match self@.stage {
                StageView::Failed(e) => changed(slot(*old(job)), failed(e)),
                _ => changed(slot(*old(job)), filed(file@)),
            },
    {
        if let Some(j) = job {
            match self.stage {
                Stage::Failed(e) => {
                    j.state = State::Error;
                    j.error = Some(e);
                },
                _ => {
                    j.file = Some(file);
                },
            }
        }
    }
}

// ---------------------------------------------------------------- laws

/// What can be said of a download at any time: only one that is ready has a file, and exactly
/// those that failed have an error.
pub open spec fn sound(j: JobView) -> bool {
    (j.file is Some ==> j.state is Ready) && (j.error is Some <==> j.state is Error)
}

/// A download is sound when it begins, and every step of one that is not over keeps it so.
pub proof fn law_downloads_stay_sound(j: JobView, n: u64, e: Seq<char>, file: Seq<char>)
    requires
        sound(j),
    ensures
        sound(begun(n)),
        busy(Some(j)) ==> sound(answered(n)(j)) && sound(counted(n)(j)) && sound(
            in_state(State::Verifying)(j),
        ) && sound(in_state(State::Ready)(j)) && sound(failed(e)(j)),
        j.state is Ready ==> sound(filed(file)(j)),
{
}

/// A download whose bytes passed ends ready, with its file and all its bytes counted; one whose
/// bytes did not ends as an error, and without a file.
pub proof fn law_how_a_download_ends(
    size: u64,
    total: u64,
    n: u64,
    file: Seq<char>,
    e: Seq<char>,
)
    ensures
        ({
            let verifying = in_state(State::Verifying)(counted(n)(answered(total)(begun(size))));
            let good = filed(file)(in_state(State::Ready)(verifying));
            let bad = failed(e)(verifying);
            &&& good.state is Ready && good.downloaded == n && good.total == total && good.file
                == Some(file) && good.error is None
            &&& bad.state is Error && bad.error == Some(e) && bad.file is None
        }),
{
}

/// What can be said of a fetch at any time: one that is about to move its file, or has, holds
/// bytes that pass the check of the release.
pub open spec fn vouched(f: FetchView, info: UpdateView) -> bool {
    f.stage is Moving || f.stage is Done ==> passes(info.digest, f.bytes)
}

/// No file is moved into place unless its bytes passed the check: whatever happens to a fetch, it
/// stays vouched for; it moves its file only where the bytes pass; and a file whose bytes do not
/// pass is removed, and the fetch fails.
pub proof fn law_only_checked_files_are_moved(
    f: FetchView,
    event: Event,
    info: UpdateView,
    job: Option<JobView>,
)
    requires
        vouched(f, info),
        expects(f, event),
    ensures
        vouched(asked(), info),
        ({
            let (g, _, action) = fetch_of(f, event, info, job);
            &&& vouched(g, info)
            &&& action is Move ==> passes(info.digest, g.bytes)
            &&& g.stage is Done ==> passes(info.digest, g.bytes)
            &&& event == Event::Read(0) && !passes(info.digest, f.bytes) ==> action is Remove
                && g.stage == StageView::Failed(tampered_text())
        }),
{
}

/// A download in flight is not replaced: one that has begun is not over, and whatever happens to
/// its fetch before its file is in its place leaves it so.
pub proof fn law_a_download_in_flight_is_not_replaced(
    size: u64,
    f: FetchView,
    event: Event,
    info: UpdateView,
    job: Option<JobView>,
)
    requires
        busy(job),
        expects(f, event),
    ensures
        busy(Some(begun(size))),
        busy(fetch_of(f, event, info, job).1) <==> !(event is Moved),
{
}

/// The pieces of a download, one after another.
pub open spec fn joined(chunks: Seq<Seq<u8>>) -> Seq<u8>
    decreases chunks.len(),
{
    if chunks.len() == 0 {
        Seq::empty()
    } else {
        joined(chunks.drop_last()) + chunks.last()
    }
}

/// What a fetch becomes when pieces come one after another, each of them put into the file.
pub open spec fn fed(f: FetchView, chunks: Seq<Seq<u8>>) -> FetchView
    decreases chunks.len(),
{
    if chunks.len() == 0 {
        f
    } else {
        let g = fed(f, chunks.drop_last());
        FetchView { stage: StageView::Reading, bytes: g.bytes + chunks.last() }
    }
}

/// A piece that comes and is put into the file takes a fetch one step further.
pub proof fn law_a_piece_is_one_step(
    f: FetchView,
    chunk: &[u8],
    info: UpdateView,
    job: Option<JobView>,
)
    requires
        f.stage is Reading,
        0 < chunk@.len() <= usize::MAX,
        f.bytes.len() + chunk@.len() <= u64::MAX,
    ensures
        ({
            let (g, _, write) = fetch_of(f, Event::Read(chunk@.len() as usize), info, job);
            let (h, _, read) = fetch_of(g, Event::Written(chunk), info, job);
            &&& write is Write && read is Read
            &&& expects(g, Event::Written(chunk))
            &&& h == fed(f, seq![chunk@])
        }),
{
    let one = seq![chunk@];
    assert(one.drop_last() == Seq::<Seq<u8>>::empty());
    reveal_with_fuel(fed, 2);
}

/// How the bytes of a download are cut does not matter: after any pieces, a fetch holds the pieces
/// one after another.
pub proof fn law_a_fetch_holds_what_came(chunks: Seq<Seq<u8>>)
    ensures
        fed(FetchView { stage: StageView::Reading, ..asked() }, chunks).bytes == joined(chunks),
    decreases chunks.len(),
{
    if chunks.len() > 0 {
        law_a_fetch_holds_what_came(chunks.drop_last());
    }
}

/// Two files that pass the check of one digest have the same SHA-256.
pub proof fn law_digest_fixes_the_hash(digest: Seq<char>, a: Seq<u8>, b: Seq<u8>)
    requires
        passes(Some(digest), a),
        passes(Some(digest), b),
    ensures
        sha256(a) == sha256(b),
{
    crate::digest::law_hex_is_injective(sha256(a), sha256(b));
}

/// A release's digest lets exactly those bytes pass whose SHA-256 it writes, in hexadecimal of
/// either case, with the name of its kind before it or without. A release without one lets all
/// bytes pass.
pub proof fn law_the_digest_decides(hash: Seq<u8>, d: Seq<char>, bytes: Seq<u8>)
    requires
        d.len() == 2 * hash.len(),
        forall|i: int|
            0 <= i < d.len() ==> (#[trigger] d[i] == hex_of(hash)[i] || ('A' <= d[i] && d[i] <= 'F'
                && d[i] as u32 + 32 == hex_of(hash)[i] as u32)),
    ensures
        passes(Some("sha256:"@ + d), bytes) <==> sha256(bytes) == hash,
        passes(Some(d), bytes) <==> sha256(bytes) == hash,
        passes(None, bytes),
{
    reveal_strlit("sha256:");
    let p = "sha256:"@;
    crate::digest::law_hex_digits(hash);
    assert(lowered(d) == hex_of(hash)) by {
        crate::text::law_lower_case_is_made_letter_by_letter(d);
        assert forall|i: int| 0 <= i < d.len() implies lowered(d)[i] == hex_of(hash)[i] by {
            assert(crate::digest::is_hex_digit(hex_of(hash)[i]));
            assert(d[i] == hex_of(hash)[i] || ('A' <= d[i] && d[i] <= 'F' && d[i] as u32 + 32
                == hex_of(hash)[i] as u32));
        }
        assert(lowered(d) =~= hex_of(hash));
    }
    assert((p + d).take(7) == p);
    assert((p + d).skip(7) == d);
    assert(!has_prefix(d, p)) by {
        if has_prefix(d, p) {
            assert(d.take(7)[0] == d[0]);
            assert(p[0] == 's');
            assert(crate::digest::is_hex_digit(hex_of(hash)[0]));
        }
    }
    if hex_of(sha256(bytes)) == hex_of(hash) {
        crate::digest::law_hex_is_injective(sha256(bytes), hash);
    }
}

/// The bytes that are put into the file are those that came, in their order, and all of them are
/// counted: in what is hashed and in what is shown.
pub proof fn law_every_byte_is_counted(
    f: FetchView,
    chunk: &[u8],
    info: UpdateView,
    j: JobView,
)
    requires
        expects(f, Event::Written(chunk)),
    ensures
        ({
            let (g, job, action) = fetch_of(f, Event::Written(chunk), info, Some(j));
            &&& g.bytes == f.bytes + chunk@
            &&& action is Read && g.stage is Reading
            &&& job == Some(JobView { downloaded: g.bytes.len() as u64, ..j })
        }),
{
}

/// The length of a download is the number in the response, if it gives one, and otherwise the size
/// that the release gave; nothing else of the job changes when the source answers, but that it is
/// downloading.
pub proof fn law_the_length_is_that_of_the_response(
    f: FetchView,
    header: &str,
    info: UpdateView,
    j: JobView,
    n: u64,
)
    requires
        expects(f, Event::Answered(None)),
    ensures
        header@ == crate::number::decimal_of(n as nat) ==> fetch_of(
            f,
            Event::Answered(Some(header)),
            info,
            Some(j),
        ).1 == Some(JobView { state: State::Downloading, total: n, ..j }),
        number_of(header@) is None ==> fetch_of(f, Event::Answered(Some(header)), info, Some(j)).1
            == Some(JobView { state: State::Downloading, total: info.size, ..j }),
        fetch_of(f, Event::Answered(None), info, Some(j)).1 == Some(
            JobView { state: State::Downloading, total: info.size, ..j },
        ),
        fetch_of(f, Event::Answered(None), info, Some(j)).0 == (FetchView {
            stage: StageView::Creating,
            ..f
        }),
{
    crate::number::law_decimal_reads_back(n);
}

/// The end of the bytes brings the check, and nothing else does: bytes that pass are moved into
/// their place, and bytes that do not are removed.
pub proof fn law_the_end_brings_the_check(f: FetchView, n: usize, info: UpdateView, j: JobView)
    requires
        expects(f, Event::Read(n)),
    ensures
        ({
            let (g, job, action) = fetch_of(f, Event::Read(n), info, Some(j));
            &&& g.bytes == f.bytes
            &&& n > 0 ==> action is Write && g.stage == StageView::Writing(n) && job == Some(j)
            &&& n == 0 ==> job == Some(JobView { state: State::Verifying, ..j })
            &&& n == 0 && passes(info.digest, f.bytes) ==> action is Move && g.stage is Moving
            &&& n == 0 && !passes(info.digest, f.bytes) ==> action is Remove && g.stage is Failed
        }),
{
}

/// A fault ends the fetch, and what is said of it ends in its detail, whatever that is.
pub proof fn law_faults_keep_their_detail(f: FetchView, detail: String, info: UpdateView, job: Option<
    JobView,
>)
    requires
        expects(f, Event::Failed(detail)),
    ensures
        ({
            let (g, after, action) = fetch_of(f, Event::Failed(detail), info, job);
            &&& after == job && action is Stop && g.bytes == f.bytes
            &&& g.stage matches StageView::Failed(e) && e.len() >= detail@.len() && e.skip(
                e.len() - detail@.len(),
            ) == detail@
        }),
{
    let e = fetch_of(f, Event::Failed(detail), info, job).0.stage->Failed_0;
    assert(e.skip(e.len() - detail@.len()) == detail@);
}

/// A download begins with nothing come of it and the size that the release gave, and ends with its
/// own file or its own error.
pub proof fn law_downloads_begin_and_end_with_their_own(
    size: u64,
    j: JobView,
    e: Seq<char>,
    file: Seq<char>,
)
    ensures
        begun(size).total == size && begun(size).downloaded == 0 && begun(size).state is Downloading
            && begun(size).error is None && begun(size).file is None,
        failed(e)(j).error == Some(e) && failed(e)(j).state is Error && failed(e)(j).total == j.total
            && failed(e)(j).downloaded == j.downloaded && failed(e)(j).file == j.file,
        filed(file)(j).file == Some(file) && filed(file)(j).state == j.state && filed(file)(j).total
            == j.total && filed(file)(j).downloaded == j.downloaded && filed(file)(j).error == j.error,
{
}

/// An installer is named after its version, and different versions have different names.
pub proof fn law_installers_are_named_after_their_version(a: Seq<char>, b: Seq<char>)
    ensures
        installer_stem(a) == "dsh-desktop_"@ + a + "_x64-setup"@,
        installer_stem(a) == installer_stem(b) ==> a == b,
{
    let (x, y) = ("dsh-desktop_"@, "_x64-setup"@);
    let n = x.len() as int;
    if installer_stem(a) == installer_stem(b) {
        assert(installer_stem(a).len() == n + a.len() + y.len());
        assert(installer_stem(b).len() == n + b.len() + y.len());
        assert(installer_stem(a).subrange(n, n + a.len()) == a);
        assert(installer_stem(b).subrange(n, n + b.len()) == b);
    }
}

} // verus!
