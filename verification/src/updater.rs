//! Updates: which release is offered, and the answers of the update endpoints.
//!
//! The newest release that carries a setup installer is compared with the running version, number
//! by number. Its installer is fetched, checked and run by the steps in `download`.

use serde_json::Value;
use vstd::prelude::*;

use crate::decode::{
    all_of, law_lists_are_read_item_by_item, lemma_all_of_none, lemma_all_of_step, list_of, maybe_text, maybe_text_in, member,
    member_of, number_in, number_of as number_member, opt_view, record_shape, text_in, text_of,
};
use crate::encoding::{before, law_text_order, text_before};
use crate::download::{busy, installer_stem, slot, start_download, DownloadJob, JobView, Plan, State};
use crate::json::{
    flag, json_in, json_of, no_fields, number, object, optional_text, parse, put, render, text, Json,
};
use crate::number::{
    decimal_of, is_digit, law_decimal_reads_back, lemma_decimal, number_of, parse_u64,
};
use crate::reply::{error_doc, error_reply, join, lemma_flat, ok_body, ok_text, writes};
use crate::text::{
    chars_of, contains, contains_text, cut, is_space, law_contained_text_has_two_sides,
    law_cut_is_at_the_first, law_trimming_takes_the_edges, lemma_find, lemma_trim_end, lemma_trim_start,
    split, split_on, trim, trimmed, until, views,
};

verus! {

/// The repository whose releases are offered.
pub const REPO: &'static str = "QWQ123321123/dsh-desktop";

// ---------------------------------------------------------------- versions

/// `s` without its leading letters `v`.
pub open spec fn without_v(s: Seq<char>) -> Seq<char>
    decreases s.len(),
{
    if s.len() > 0 && (s[0] == 'v' || s[0] == 'V') {
        without_v(s.drop_first())
    } else {
        s
    }
}

/// The numbers of a version, `x.y.z`: white space around it, a leading `v`, a prerelease suffix
/// and further numbers are passed over.
pub open spec fn version_of(s: Seq<char>) -> Option<(u64, u64, u64)> {
    let parts = split(until(without_v(trimmed(s)), '-'), '.');
    if parts.len() < 3 {
        None
    } else {
        match (number_of(parts[0]), number_of(parts[1]), number_of(parts[2])) {
            (Some(x), Some(y), Some(z)) => Some((x, y, z)),
            _ => None,
        }
    }
}

/// The version `x` comes after `y`.
pub open spec fn comes_after(x: (u64, u64, u64), y: (u64, u64, u64)) -> bool {
    x.0 > y.0 || (x.0 == y.0 && (x.1 > y.1 || (x.1 == y.1 && x.2 > y.2)))
}

/// `a` is a newer version than `b`. What is no version is never newer, and nothing is newer than
/// it.
pub open spec fn is_newer(a: Seq<char>, b: Seq<char>) -> bool {
    match (version_of(a), version_of(b)) {
        (Some(x), Some(y)) => comes_after(x, y),
        _ => false,
    }
}

proof fn lemma_without_v(s: Seq<char>, i: int)
    requires
        0 <= i <= s.len(),
        forall|j: int| 0 <= j < i ==> s[j] == 'v' || s[j] == 'V',
        i < s.len() ==> s[i] != 'v' && s[i] != 'V',
    ensures
        without_v(s) == s.skip(i),
    decreases s.len(),
{
    if i > 0 {
        lemma_without_v(s.drop_first(), i - 1);
        assert(s.drop_first().skip(i - 1) == s.skip(i));
    } else {
        assert(s.skip(0) == s);
    }
}

/// A text without its leading letters `v`.
pub fn strip_v(s: &str) -> (r: &str)
    ensures
        r@ == without_v(s@),
{
    let cs: Vec<char> = chars_of(s);
    let mut i: usize = 0;
    while i < cs.len() && (cs[i] == 'v' || cs[i] == 'V')
        invariant
            i <= cs@.len(),
            forall|j: int| 0 <= j < i ==> cs@[j] == 'v' || cs@[j] == 'V',
        decreases cs@.len() - i,
    {
        i += 1;
    }
    proof {
        lemma_without_v(s@, i as int);
        assert(s@.skip(i as int) == s@.subrange(i as int, s@.len() as int));
    }
    s.substring_char(i, cs.len())
}

/// The numbers of a version.
pub fn parse_ver(s: &str) -> (r: Option<(u64, u64, u64)>)
    ensures
        r == version_of(s@),
{
    let (core, _) = cut(strip_v(trim(s)), '-');
    let parts: Vec<&str> = split_on(core, '.');
    assert(views(parts@).len() == parts@.len());
    if parts.len() < 3 {
        return None;
    }
    assert(views(parts@)[0] == parts@[0]@ && views(parts@)[1] == parts@[1]@ && views(parts@)[2]
        == parts@[2]@);
    match (parse_u64(parts[0]), parse_u64(parts[1]), parse_u64(parts[2])) {
        (Some(x), Some(y), Some(z)) => Some((x, y, z)),
        _ => None,
    }
}

/// Whether `a` is a newer version than `b`.
pub fn newer(a: &str, b: &str) -> (r: bool)
    ensures
        r == is_newer(a@, b@),
{
    match (parse_ver(a), parse_ver(b)) {
        (Some(x), Some(y)) => x.0 > y.0 || (x.0 == y.0 && (x.1 > y.1 || (x.1 == y.1 && x.2
            > y.2))),
        _ => false,
    }
}

proof fn lemma_split_rest(a: Seq<char>, c: char, rest: Seq<char>)
    requires
        forall|i: int| 0 <= i < a.len() ==> a[i] != c,
    ensures
        split(a + seq![c] + rest, c) == seq![a] + split(rest, c),
        split(a, c) == seq![a],
{
    let s = a + seq![c] + rest;
    let n = a.len() as int;
    assert forall|j: int| 0 <= j < n implies s[j] != c by {
        assert(s[j] == a[j]);
    }
    lemma_find(s, c, n);
    assert(s.take(n) == a);
    assert(s.skip(n + 1) == rest);
    lemma_find(a, c, n);
}

/// The text of a version.
pub open spec fn version_text(x: u64, y: u64, z: u64) -> Seq<char> {
    decimal_of(x as nat) + seq!['.'] + (decimal_of(y as nat) + seq!['.'] + decimal_of(z as nat))
}

/// A version reads back as its numbers, with or without a leading `v`, and with or without a
/// prerelease suffix.
pub proof fn law_versions_read_back(x: u64, y: u64, z: u64, suffix: Seq<char>)
    requires
        suffix.len() == 0 || (suffix[0] == '-' && !is_space(suffix.last())),
    ensures
        version_of(version_text(x, y, z) + suffix) == Some((x, y, z)),
        version_of(seq!['v'] + version_text(x, y, z) + suffix) == Some((x, y, z)),
{
    let (a, b, c) = (decimal_of(x as nat), decimal_of(y as nat), decimal_of(z as nat));
    let core = version_text(x, y, z);
    lemma_decimal(x as nat);
    lemma_decimal(y as nat);
    lemma_decimal(z as nat);
    law_decimal_reads_back(x);
    law_decimal_reads_back(y);
    law_decimal_reads_back(z);
    assert forall|i: int| 0 <= i < core.len() implies is_digit(#[trigger] core[i]) || core[i]
        == '.' by {
        if i < a.len() {
            assert(core[i] == a[i]);
        } else if i == a.len() {
        } else if i < a.len() + 1 + b.len() {
            assert(core[i] == b[i - a.len() - 1]);
        } else if i == a.len() + 1 + b.len() {
        } else {
            assert(core[i] == c[i - a.len() - b.len() - 2]);
        }
    }
    assert(core[0] == a[0] && core.last() == c.last());
    let bare = core + suffix;
    let led = seq!['v'] + core + suffix;
    assert(led == seq!['v'] + bare);
    assert(bare[0] == a[0] && is_digit(a[0]) && is_digit(c[c.len() - 1]));
    assert(bare.last() == if suffix.len() == 0 {
        core.last()
    } else {
        suffix.last()
    });
    assert(led.last() == bare.last());
    // No white space at either end.
    lemma_trim_start(bare, 0);
    lemma_trim_start(led, 0);
    assert(bare.skip(0) == bare && led.skip(0) == led);
    lemma_trim_end(bare, bare.len() as int);
    lemma_trim_end(led, led.len() as int);
    assert(bare.take(bare.len() as int) == bare && led.take(led.len() as int) == led);
    // The letter.
    lemma_without_v(bare, 0);
    lemma_without_v(led, 1);
    assert(led.skip(1) == bare);
    // The suffix.
    assert forall|j: int| 0 <= j < core.len() implies bare[j] != '-' by {
        assert(bare[j] == core[j]);
        assert(is_digit(core[j]) || core[j] == '.');
    }
    if suffix.len() > 0 {
        assert(bare[core.len() as int] == suffix[0]);
    }
    lemma_find(bare, '-', core.len() as int);
    assert(bare.take(core.len() as int) == core);
    // The numbers.
    assert forall|i: int| 0 <= i < a.len() implies a[i] != '.' by {
        assert(is_digit(a[i]));
    }
    assert forall|i: int| 0 <= i < b.len() implies b[i] != '.' by {
        assert(is_digit(b[i]));
    }
    assert forall|i: int| 0 <= i < c.len() implies c[i] != '.' by {
        assert(is_digit(c[i]));
    }
    lemma_split_rest(a, '.', b + seq!['.'] + c);
    lemma_split_rest(b, '.', c);
    lemma_split_rest(c, '.', c);
    assert(split(core, '.') == seq![a] + (seq![b] + seq![c]));
    assert(split(core, '.')[0] == a && split(core, '.')[1] == b && split(core, '.')[2] == c);
}

/// Newer is a strict order: no version is newer than itself, of two versions at most one is the
/// newer, and what is newer than a newer one is newer.
pub proof fn law_newer_is_a_strict_order(a: Seq<char>, b: Seq<char>, c: Seq<char>)
    ensures
        !is_newer(a, a),
        !(is_newer(a, b) && is_newer(b, a)),
        is_newer(a, b) && is_newer(b, c) ==> is_newer(a, c),
{
}

/// Of two versions with different numbers one is the newer.
pub proof fn law_newer_is_total(a: Seq<char>, b: Seq<char>)
    requires
        version_of(a) is Some,
        version_of(b) is Some,
        version_of(a) != version_of(b),
    ensures
        is_newer(a, b) || is_newer(b, a),
{
}

/// A text that is no version never offers an update, nor does one compared with it.
pub proof fn law_newer_fails_closed(a: Seq<char>, b: Seq<char>)
    requires
        version_of(a) is None || version_of(b) is None,
    ensures
        !is_newer(a, b),
{
}

// ---------------------------------------------------------------- releases

/// A file of a release.
pub struct Asset {
    pub name: String,
    pub size: u64,
    pub digest: Option<String>,
    pub browser_download_url: String,
}

/// A release.
pub struct Release {
    pub tag_name: String,
    pub body: Option<String>,
    pub published_at: Option<String>,
    pub assets: Vec<Asset>,
}

/// An update that can be downloaded.
#[derive(Debug)]
pub struct UpdateInfo {
    pub tag: String,
    pub notes: String,
    pub size: u64,
    pub url: String,
    pub digest: Option<String>,
}

/// What a file of a release holds.
#[verifier::ext_equal]
pub struct AssetView {
    pub name: Seq<char>,
    pub size: u64,
    pub digest: Option<Seq<char>>,
    pub url: Seq<char>,
}

/// What a release holds.
#[verifier::ext_equal]
pub struct ReleaseView {
    pub tag: Seq<char>,
    pub body: Option<Seq<char>>,
    pub published_at: Option<Seq<char>>,
    pub assets: Seq<AssetView>,
}

/// What an update holds.
#[verifier::ext_equal]
pub struct UpdateView {
    pub tag: Seq<char>,
    pub notes: Seq<char>,
    pub size: u64,
    pub url: Seq<char>,
    pub digest: Option<Seq<char>>,
}

impl View for Asset {
    type V = AssetView;

    open spec fn view(&self) -> AssetView {
        AssetView {
            name: self.name@,
            size: self.size,
            digest: opt_view(self.digest),
            url: self.browser_download_url@,
        }
    }
}

impl View for Release {
    type V = ReleaseView;

    open spec fn view(&self) -> ReleaseView {
        ReleaseView {
            tag: self.tag_name@,
            body: opt_view(self.body),
            published_at: opt_view(self.published_at),
            assets: self.assets@.map_values(|a: Asset| a@),
        }
    }
}

impl View for UpdateInfo {
    type V = UpdateView;

    open spec fn view(&self) -> UpdateView {
        UpdateView {
            tag: self.tag@,
            notes: self.notes@,
            size: self.size,
            url: self.url@,
            digest: opt_view(self.digest),
        }
    }
}

impl Clone for UpdateInfo {
    fn clone(&self) -> (r: Self)
        ensures
            r@ == self@,
    {
        UpdateInfo {
            tag: self.tag.clone(),
            notes: self.notes.clone(),
            size: self.size,
            url: self.url.clone(),
            digest: copy_opt(&self.digest),
        }
    }
}

/// A copy of a text that may be absent.
pub(crate) fn copy_opt(s: &Option<String>) -> (r: Option<String>)
    ensures
        opt_view(r) == opt_view(*s),
{
    match s {
        Some(t) => Some(t.clone()),
        None => None,
    }
}

impl UpdateInfo {
    /// The tag without its leading `v`.
    pub fn version(&self) -> (r: &str)
        ensures
            r@ == without_v(self@.tag),
    {
        strip_v(self.tag.as_str())
    }
}

/// The file of a release that a document describes. Given by position it has all its fields.
pub open spec fn asset_of(j: Json) -> Option<AssetView> {
    if !record_shape(j, 4) || (j matches Json::Arr(items) && items.len() < 4) {
        None
    } else {
        match (
            text_in(member_of(j, 0, "name"@)),
            number_in(member_of(j, 1, "size"@)),
            maybe_text_in(member_of(j, 2, "digest"@)),
            text_in(member_of(j, 3, "browser_download_url"@)),
        ) {
            (Some(name), Some(size), Some(digest), Some(url)) => Some(
                AssetView { name, size, digest, url },
            ),
            _ => None,
        }
    }
}

/// What one file is made from, as a function.
pub open spec fn asset_fn() -> spec_fn(Json) -> Option<AssetView> {
    |j: Json| asset_of(j)
}

/// The release that a document describes. Given by position it has all its fields.
pub open spec fn release_of(j: Json) -> Option<ReleaseView> {
    if !record_shape(j, 4) || (j matches Json::Arr(items) && items.len() < 4) {
        None
    } else {
        match (
            text_in(member_of(j, 0, "tag_name"@)),
            maybe_text_in(member_of(j, 1, "body"@)),
            maybe_text_in(member_of(j, 2, "published_at"@)),
            member_of(j, 3, "assets"@),
        ) {
            (Some(tag), Some(body), Some(published_at), Some(list)) => match list_of(
                list,
                asset_fn(),
            ) {
                Some(assets) => Some(ReleaseView { tag, body, published_at, assets }),
                None => None,
            },
            _ => None,
        }
    }
}

/// What one release is made from, as a function.
pub open spec fn release_fn() -> spec_fn(Json) -> Option<ReleaseView> {
    |j: Json| release_of(j)
}

/// The releases that a text lists, or what is said of a text that lists none.
pub open spec fn releases_in(body: Seq<char>) -> Result<Seq<ReleaseView>, Seq<char>> {
    match json_in(body) {
        Err(e) => Err("更新源响应解析失败："@ + e),
        Ok(j) => match list_of(j, release_fn()) {
            Some(list) => Ok(list),
            None => Err("更新源响应解析失败："@ + "malformed release"@),
        },
    }
}

/// The views of some releases.
pub open spec fn release_views(v: Seq<Release>) -> Seq<ReleaseView> {
    v.map_values(|r: Release| r@)
}

fn full_record(v: &Value) -> (r: bool)
    ensures
        r == !(!record_shape(json_of(*v), 4) || (json_of(*v) matches Json::Arr(items) && items.len()
            < 4)),
{
    match v.as_array() {
        Some(items) => items.len() == 4,
        None => v.is_object(),
    }
}

fn read_asset(v: &Value) -> (r: Option<Asset>)
    ensures
        match r {
            Some(a) => asset_of(json_of(*v)) == Some(a@),
            None => asset_of(json_of(*v)) is None,
        },
{
    if !full_record(v) {
        return None;
    }
    match (
        text_of(member(v, 0, "name")),
        number_member(member(v, 1, "size")),
        maybe_text(member(v, 2, "digest")),
        text_of(member(v, 3, "browser_download_url")),
    ) {
        (Some(name), Some(size), Some(digest), Some(url)) => Some(
            Asset { name, size, digest, browser_download_url: url },
        ),
        _ => None,
    }
}

fn read_assets(v: &Value) -> (r: Option<Vec<Asset>>)
    ensures
        match r {
            Some(list) => list_of(json_of(*v), asset_fn()) == Some(
                list@.map_values(|a: Asset| a@),
            ),
            None => list_of(json_of(*v), asset_fn()) is None,
        },
{
    match v.as_array() {
        Some(items) => {
            let ghost js = items@.map_values(|x: Value| json_of(x));
            let mut out: Vec<Asset> = Vec::new();
            let mut i: usize = 0;
            assert(js.take(0) == Seq::<Json>::empty());
            assert(out@.map_values(|a: Asset| a@) == Seq::<AssetView>::empty());
            while i < items.len()
                invariant
                    i <= items@.len(),
                    js == items@.map_values(|x: Value| json_of(x)),
                    json_of(*v) == Json::Arr(js),
                    all_of(js.take(i as int), asset_fn()) == Some(out@.map_values(|a: Asset| a@)),
                decreases items@.len() - i,
            {
                proof {
                    lemma_all_of_step(js, asset_fn(), i as int);
                }
                match read_asset(&items[i]) {
                    Some(a) => {
                        let ghost before = out@.map_values(|a: Asset| a@);
                        out.push(a);
                        assert(out@.map_values(|a: Asset| a@) == before.push(a@));
                    },
                    None => {
                        proof {
                            lemma_all_of_none(js, asset_fn(), i as int);
                        }
                        return None;
                    },
                }
                i += 1;
            }
            assert(js.take(js.len() as int) == js);
            Some(out)
        },
        None => None,
    }
}

fn read_release(v: &Value) -> (r: Option<Release>)
    ensures
        match r {
            Some(a) => release_of(json_of(*v)) == Some(a@),
            None => release_of(json_of(*v)) is None,
        },
{
    if !full_record(v) {
        return None;
    }
    match (
        text_of(member(v, 0, "tag_name")),
        maybe_text(member(v, 1, "body")),
        maybe_text(member(v, 2, "published_at")),
        member(v, 3, "assets"),
    ) {
        (Some(tag_name), Some(body), Some(published_at), Some(list)) => match read_assets(list) {
            Some(assets) => Some(Release { tag_name, body, published_at, assets }),
            None => None,
        },
        _ => None,
    }
}

/// The releases that a text lists.
pub fn parse_releases(body: &str) -> (r: Result<Vec<Release>, String>)
    ensures
        match r {
            Ok(list) => releases_in(body@) == Ok::<Seq<ReleaseView>, Seq<char>>(
                release_views(list@),
            ),
            Err(e) => releases_in(body@) == Err::<Seq<ReleaseView>, Seq<char>>(e@),
        },
{
    let v: Value = match parse(body) {
        Ok(v) => v,
        Err(e) => return Err(join("更新源响应解析失败：", e.as_str())),
    };
    let items: &Vec<Value> = match v.as_array() {
        Some(items) => items,
        None => return Err(join("更新源响应解析失败：", "malformed release")),
    };
    let ghost js = items@.map_values(|x: Value| json_of(x));
    let mut out: Vec<Release> = Vec::new();
    let mut i: usize = 0;
    assert(js.take(0) == Seq::<Json>::empty());
    assert(release_views(out@) == Seq::<ReleaseView>::empty());
    while i < items.len()
        invariant
            i <= items@.len(),
            js == items@.map_values(|x: Value| json_of(x)),
            json_of(v) == Json::Arr(js),
            json_in(body@) == Ok::<Json, Seq<char>>(json_of(v)),
            all_of(js.take(i as int), release_fn()) == Some(release_views(out@)),
        decreases items@.len() - i,
    {
        proof {
            lemma_all_of_step(js, release_fn(), i as int);
        }
        match read_release(&items[i]) {
            Some(a) => {
                let ghost before = release_views(out@);
                out.push(a);
                assert(release_views(out@) == before.push(a@));
            },
            None => {
                proof {
                    lemma_all_of_none(js, release_fn(), i as int);
                }
                return Err(join("更新源响应解析失败：", "malformed release"));
            },
        }
        i += 1;
    }
    assert(js.take(js.len() as int) == js);
    Ok(out)
}

// ---------------------------------------------------------------- the release on offer

/// The first setup installer among the files of a release.
pub open spec fn setup_in(assets: Seq<AssetView>) -> Option<AssetView>
    decreases assets.len(),
{
    if assets.len() == 0 {
        None
    } else if contains_text(assets[0].name, "setup"@) {
        Some(assets[0])
    } else {
        setup_in(assets.drop_first())
    }
}

/// The time stamp `a` is older than `b`. One that is missing is older than any other.
pub open spec fn older(a: Option<Seq<char>>, b: Option<Seq<char>>) -> bool {
    match (a, b) {
        (None, Some(y)) => true,
        (Some(x), Some(y)) => text_before(x, y),
        _ => false,
    }
}

/// The `i`th release is the one on offer: of those with a setup installer none was published
/// later, and none that stands before it at the same time.
pub open spec fn on_offer(rs: Seq<ReleaseView>, i: int) -> bool {
    &&& 0 <= i < rs.len()
    &&& setup_in(rs[i].assets) is Some
    &&& forall|j: int|
        0 <= j < rs.len() && setup_in((#[trigger] rs[j]).assets) is Some ==> !older(
            rs[i].published_at,
            rs[j].published_at,
        ) && (j < i ==> older(rs[j].published_at, rs[i].published_at))
}

/// The update that a release with a setup installer makes.
pub open spec fn update_from(r: ReleaseView) -> UpdateView {
    let a = setup_in(r.assets)->0;
    UpdateView {
        tag: r.tag,
        notes: match r.body {
            Some(b) => b,
            None => Seq::empty(),
        },
        size: a.size,
        url: a.url,
        digest: a.digest,
    }
}

/// The update that some releases offer: that of the release on offer, and none only when no
/// release has a setup installer.
pub open spec fn offered(rs: Seq<ReleaseView>, u: Option<UpdateView>) -> bool {
    match u {
        Some(v) => exists|i: int| #[trigger] on_offer(rs, i) && v == update_from(rs[i]),
        None => forall|i: int| 0 <= i < rs.len() ==> setup_in((#[trigger] rs[i]).assets) is None,
    }
}

/// At most one release is on offer, so that there is at most one update.
pub proof fn law_offer_is_unique(rs: Seq<ReleaseView>, u: Option<UpdateView>, v: Option<UpdateView>)
    requires
        offered(rs, u),
        offered(rs, v),
    ensures
        u == v,
{
    if u is Some && v is Some {
        let i = choose|i: int| #[trigger] on_offer(rs, i) && u->0 == update_from(rs[i]);
        let j = choose|j: int| #[trigger] on_offer(rs, j) && v->0 == update_from(rs[j]);
        assert(setup_in(rs[i].assets) is Some && setup_in(rs[j].assets) is Some);
    }
}

/// Two lists hold the same releases, in whatever order.
pub open spec fn same_releases(rs: Seq<ReleaseView>, qs: Seq<ReleaseView>) -> bool {
    &&& forall|i: int| 0 <= i < rs.len() ==> qs.contains(#[trigger] rs[i])
    &&& forall|j: int| 0 <= j < qs.len() ==> rs.contains(#[trigger] qs[j])
}

/// The releases with a setup installer were published at different times.
pub open spec fn apart(rs: Seq<ReleaseView>) -> bool {
    forall|i: int, j: int|
        0 <= i < rs.len() && 0 <= j < rs.len() && setup_in((#[trigger] rs[i]).assets) is Some
            && setup_in((#[trigger] rs[j]).assets) is Some && rs[i].published_at
            == rs[j].published_at ==> rs[i] == rs[j]
}

/// The order in which a source lists its releases does not matter: as long as they were published
/// at different times, the same releases in another order offer the same update.
pub proof fn law_order_of_the_source_does_not_matter(
    rs: Seq<ReleaseView>,
    qs: Seq<ReleaseView>,
    u: Option<UpdateView>,
    v: Option<UpdateView>,
)
    requires
        same_releases(rs, qs),
        apart(rs),
        offered(rs, u),
        offered(qs, v),
    ensures
        u == v,
{
    if u is Some {
        let i = choose|i: int| #[trigger] on_offer(rs, i) && u->0 == update_from(rs[i]);
        let k = qs.index_of(rs[i]);
        assert(qs.contains(rs[i]));
        assert(qs[k] == rs[i] && setup_in(qs[k].assets) is Some);
        assert(v is Some);
    }
    if v is Some {
        let j = choose|j: int| #[trigger] on_offer(qs, j) && v->0 == update_from(qs[j]);
        let m = rs.index_of(qs[j]);
        assert(rs.contains(qs[j]));
        assert(rs[m] == qs[j] && setup_in(rs[m].assets) is Some);
        assert(u is Some);
        let i = choose|i: int| #[trigger] on_offer(rs, i) && u->0 == update_from(rs[i]);
        let k = qs.index_of(rs[i]);
        assert(qs.contains(rs[i]));
        assert(qs[k] == rs[i] && setup_in(qs[k].assets) is Some);
        assert(!older(rs[i].published_at, rs[m].published_at));
        assert(!older(qs[j].published_at, qs[k].published_at));
        match (rs[i].published_at, rs[m].published_at) {
            (Some(x), Some(y)) => {
                law_text_order(x, y, x);
            },
            _ => {},
        }
        assert(rs[i] == rs[m]);
    }
}

proof fn lemma_setup_at(assets: Seq<AssetView>, k: int)
    requires
        0 <= k <= assets.len(),
        forall|j: int| 0 <= j < k ==> !contains_text((#[trigger] assets[j]).name, "setup"@),
        k < assets.len() ==> contains_text(assets[k].name, "setup"@),
    ensures
        setup_in(assets) == if k < assets.len() {
            Some(assets[k])
        } else {
            None
        },
    decreases assets.len(),
{
    if k > 0 {
        assert(!contains_text(assets[0].name, "setup"@));
        lemma_setup_at(assets.drop_first(), k - 1);
    }
}

fn find_setup(assets: &Vec<Asset>) -> (r: Option<usize>)
    ensures
        match r {
            Some(k) => k < assets@.len() && setup_in(assets@.map_values(|a: Asset| a@)) == Some(
                assets@[k as int]@,
            ),
            None => setup_in(assets@.map_values(|a: Asset| a@)) is None,
        },
{
    let ghost all = assets@.map_values(|a: Asset| a@);
    let mut k: usize = 0;
    while k < assets.len()
        invariant
            k <= assets@.len(),
            all == assets@.map_values(|a: Asset| a@),
            forall|j: int| 0 <= j < k ==> !contains_text((#[trigger] all[j]).name, "setup"@),
        decreases assets@.len() - k,
    {
        assert(all[k as int] == assets@[k as int]@);
        if contains(assets[k].name.as_str(), "setup") {
            proof {
                lemma_setup_at(all, k as int);
            }
            return Some(k);
        }
        k += 1;
    }
    proof {
        lemma_setup_at(all, k as int);
    }
    None
}

fn stamp_older(a: &Option<String>, b: &Option<String>) -> (r: bool)
    ensures
        r == older(opt_view(*a), opt_view(*b)),
{
    match (a, b) {
        (None, Some(_)) => true,
        (Some(x), Some(y)) => before(x.as_str(), y.as_str()),
        _ => false,
    }
}

/// Older is a strict order in which stamps that are not apart are the same.
proof fn lemma_older(a: Option<Seq<char>>, b: Option<Seq<char>>, c: Option<Seq<char>>)
    ensures
        !older(a, a),
        older(a, b) && older(b, c) ==> older(a, c),
        !older(a, b) && older(a, c) ==> older(b, c),
        !older(a, b) && !older(b, c) ==> !older(a, c),
{
    let x = if a is Some { a->0 } else { Seq::empty() };
    let y = if b is Some { b->0 } else { Seq::empty() };
    let z = if c is Some { c->0 } else { Seq::empty() };
    law_text_order(x, y, z);
    law_text_order(y, x, z);
    law_text_order(z, y, x);
    law_text_order(y, z, x);
}

/// A release stays on offer when one follows that has no setup installer, or was not published
/// later.
proof fn lemma_stays_on_offer(rs: Seq<ReleaseView>, b: int, r: ReleaseView)
    requires
        on_offer(rs, b),
        setup_in(r.assets) is None || !older(rs[b].published_at, r.published_at),
    ensures
        on_offer(rs.push(r), b),
{
    let next = rs.push(r);
    assert forall|j: int|
        0 <= j < next.len() && setup_in((#[trigger] next[j]).assets) is Some implies !older(
        next[b].published_at,
        next[j].published_at,
    ) && (j < b ==> older(next[j].published_at, next[b].published_at)) by {
        if j < rs.len() {
            assert(rs[j] == next[j]);
        }
    }
}

/// The update that some releases offer.
pub fn newest_setup(releases: &Vec<Release>) -> (r: Option<UpdateInfo>)
    ensures
        offered(
            release_views(releases@),
            match r {
                Some(u) => Some(u@),
                None => None,
            },
        ),
{
    let ghost rs = release_views(releases@);
    let mut best: Option<(usize, usize)> = None;
    let mut i: usize = 0;
    assert(rs.take(0) == Seq::<ReleaseView>::empty());
    while i < releases.len()
        invariant
            i <= releases@.len(),
            rs == release_views(releases@),
            match best {
                Some((b, k)) => {
                    &&& on_offer(rs.take(i as int), b as int)
                    &&& b < i
                    &&& k < releases@[b as int].assets@.len()
                    &&& setup_in(rs[b as int].assets) == Some(
                        releases@[b as int].assets@[k as int]@,
                    )
                },
                None => forall|j: int|
                    0 <= j < i ==> setup_in((#[trigger] rs[j]).assets) is None,
            },
        decreases releases@.len() - i,
    {
        assert(rs[i as int] == releases@[i as int]@);
        let ghost now = rs.take(i as int);
        let ghost next = rs.take(i + 1);
        assert(forall|j: int| 0 <= j < i ==> #[trigger] next[j] == now[j] && next[j] == rs[j]);
        assert(next[i as int] == rs[i as int]);
        match find_setup(&releases[i].assets) {
            Some(k) => {
                let take: bool = match best {
                    Some((b, _)) => stamp_older(&releases[b].published_at, &releases[i].published_at),
                    None => true,
                };
                if take {
                    proof {
                        assert forall|j: int|
                            0 <= j < next.len() && setup_in((#[trigger] next[j]).assets) is Some implies !older(
                            next[i as int].published_at,
                            next[j].published_at,
                        ) && (j < i ==> older(next[j].published_at, next[i as int].published_at)) by {
                            lemma_older(
                                next[i as int].published_at,
                                next[j].published_at,
                                next[i as int].published_at,
                            );
                            if j < i {
                                assert(now[j] == rs[j]);
                                let b = (best->0).0 as int;
                                assert(now[b] == rs[b]);
                                lemma_older(
                                    rs[b].published_at,
                                    rs[j].published_at,
                                    rs[i as int].published_at,
                                );
                            }
                        }
                        assert(on_offer(next, i as int));
                    }
                    best = Some((i, k));
                } else {
                    proof {
                        let b = (best->0).0 as int;
                        assert(now[b] == rs[b]);
                        lemma_stays_on_offer(now, b, rs[i as int]);
                        assert(next == now.push(rs[i as int]));
                    }
                }
            },
            None => {
                proof {
                    if best is Some {
                        let b = (best->0).0 as int;
                        assert(now[b] == rs[b]);
                        lemma_stays_on_offer(now, b, rs[i as int]);
                        assert(next == now.push(rs[i as int]));
                    }
                }
            },
        }
        i += 1;
    }
    assert(rs.take(rs.len() as int) == rs);
    match best {
        Some((b, k)) => {
            let r: &Release = &releases[b];
            let a: &Asset = &r.assets[k];
            let u = UpdateInfo {
                tag: r.tag_name.clone(),
                notes: match &r.body {
                    Some(t) => t.clone(),
                    None => String::new(),
                },
                size: a.size,
                url: a.browser_download_url.clone(),
                digest: copy_opt(&a.digest),
            };
            proof {
                assert(rs[b as int] == releases@[b as int]@);
                assert(u@ == update_from(rs[b as int]));
                assert(on_offer(rs, b as int));
            }
            Some(u)
        },
        None => None,
    }
}

// ---------------------------------------------------------------- asking the source

/// Where the source lists the releases.
pub open spec fn releases_at(base: Seq<char>) -> Seq<char> {
    base + "/repos/"@ + REPO@ + "/releases"@
}

/// Where the source lists the releases.
pub fn releases_url(api_base: &str) -> (r: String)
    ensures
        r@ == releases_at(api_base@),
{
    let mut s: String = api_base.to_owned();
    s.append("/repos/");
    s.append(REPO);
    s.append("/releases");
    s
}

/// The base of the source's addresses: the one that is set, or GitHub's.
pub fn api_base(set: Option<String>) -> (r: String)
    ensures
        r@ == match set {
            Some(s) => s@,
            None => "https://api.github.com"@,
        },
{
    match set {
        Some(s) => s,
        None => "https://api.github.com".to_owned(),
    }
}

/// Why a body could not be fetched.
pub enum FetchFault {
    /// The request failed.
    Network(String),
    /// The response could not be read.
    Body(String),
}

/// What came of asking the source: its body, or what is said of the fault.
pub open spec fn fetched_view(f: Result<String, FetchFault>) -> Result<Seq<char>, Seq<char>> {
    match f {
        Ok(body) => Ok(body@),
        Err(FetchFault::Network(e)) => Err("网络错误："@ + e@),
        Err(FetchFault::Body(e)) => Err("读取响应失败："@ + e@),
    }
}

/// What is known of the update after asking the source: the update its releases offer, or the
/// fault.
pub open spec fn checked(
    fetched: Result<Seq<char>, Seq<char>>,
    r: Result<Option<UpdateView>, Seq<char>>,
) -> bool {
    match fetched {
        Err(e) => r == Err::<Option<UpdateView>, Seq<char>>(e),
        Ok(body) => match releases_in(body) {
            Err(e) => r == Err::<Option<UpdateView>, Seq<char>>(e),
            Ok(rs) => r matches Ok(u) && offered(rs, u),
        },
    }
}

/// What a check came to.
pub open spec fn check_view(r: Result<Option<UpdateInfo>, String>) -> Result<
    Option<UpdateView>,
    Seq<char>,
> {
    match r {
        Ok(Some(u)) => Ok(Some(u@)),
        Ok(None) => Ok(None),
        Err(e) => Err(e@),
    }
}

/// The update on offer, from what came of asking the source.
pub fn check_update(fetched: Result<String, FetchFault>) -> (r: Result<Option<UpdateInfo>, String>)
    ensures
        checked(fetched_view(fetched), check_view(r)),
{
    match fetched {
        Err(FetchFault::Network(e)) => Err(join("网络错误：", e.as_str())),
        Err(FetchFault::Body(e)) => Err(join("读取响应失败：", e.as_str())),
        Ok(body) => match parse_releases(body.as_str()) {
            Err(e) => Err(e),
            Ok(list) => Ok(newest_setup(&list)),
        },
    }
}

// ---------------------------------------------------------------- endpoints

/// What is answered when an update is on offer.
pub open spec fn check_doc(u: UpdateView, current: Seq<char>) -> Json {
    Json::Obj(
        no_fields().insert("ok"@, Json::Bool(true)).insert(
            "has_update"@,
            Json::Bool(is_newer(without_v(u.tag), current)),
        ).insert("current"@, Json::Str(current)).insert("version"@, Json::Str(without_v(u.tag))).insert(
            "tag"@,
            Json::Str(u.tag),
        ).insert("notes"@, Json::Str(u.notes)).insert("size"@, Json::Num(u.size)).insert(
            "url"@,
            Json::Str(u.url),
        ),
    )
}

/// What is answered when none is.
pub open spec fn no_update_doc(current: Seq<char>) -> Json {
    Json::Obj(
        no_fields().insert("ok"@, Json::Bool(true)).insert("has_update"@, Json::Bool(false)).insert(
            "current"@,
            Json::Str(current),
        ),
    )
}

/// The answer to a check.
pub open spec fn check_answer(
    c: Result<Option<UpdateView>, Seq<char>>,
    current: Seq<char>,
) -> Json {
    match c {
        Ok(Some(u)) => check_doc(u, current),
        Ok(None) => no_update_doc(current),
        Err(e) => error_doc(e),
    }
}

/// The update that is remembered: the last that was on offer.
pub open spec fn remembered(
    c: Result<Option<UpdateView>, Seq<char>>,
    last: Option<UpdateView>,
) -> Option<UpdateView> {
    match c {
        Ok(Some(u)) => Some(u),
        _ => last,
    }
}

/// What is known of the last update that was on offer.
pub open spec fn last_view(last: Option<UpdateInfo>) -> Option<UpdateView> {
    match last {
        Some(u) => Some(u@),
        None => None,
    }
}

/// Answers a check, and remembers the update.
pub fn answer_check(
    checked: Result<Option<UpdateInfo>, String>,
    current: &str,
    last: &mut Option<UpdateInfo>,
) -> (r: String)
    ensures
        writes(r@, check_answer(check_view(checked), current@)),
        last_view(*final(last)) == remembered(check_view(checked), last_view(*old(last))),
{
    match checked {
        Ok(Some(u)) => {
            let mut v: Value = object();
            put(&mut v, "ok", flag(true));
            put(&mut v, "has_update", flag(newer(u.version(), current)));
            put(&mut v, "current", text(current));
            put(&mut v, "version", text(u.version()));
            put(&mut v, "tag", text(u.tag.as_str()));
            put(&mut v, "notes", text(u.notes.as_str()));
            put(&mut v, "size", number(u.size));
            put(&mut v, "url", text(u.url.as_str()));
            *last = Some(u);
            proof {
                lemma_flat(json_of(v)->Obj_0, 100);
            }
            render(&v)
        },
        Ok(None) => {
            let mut v: Value = object();
            put(&mut v, "ok", flag(true));
            put(&mut v, "has_update", flag(false));
            put(&mut v, "current", text(current));
            proof {
                lemma_flat(json_of(v)->Obj_0, 100);
            }
            render(&v)
        },
        Err(e) => error_reply(e.as_str()),
    }
}

/// The check endpoint, from what came of asking the source and the running version.
pub fn handle_check(
    fetched: Result<String, FetchFault>,
    current: &str,
    last: &mut Option<UpdateInfo>,
) -> (r: String)
    ensures
        exists|c: Result<Option<UpdateView>, Seq<char>>| #[trigger]
            checked(fetched_view(fetched), c) && writes(r@, check_answer(c, current@)) && last_view(
                *final(last),
            ) == remembered(c, last_view(*old(last))),
{
    let c: Result<Option<UpdateInfo>, String> = check_update(fetched);
    answer_check(c, current, last)
}

/// What the start endpoint does.
pub enum StartStep {
    /// Answers so.
    Answer(String),
    /// Downloads the update.
    Download(UpdateInfo, Plan),
}

/// The start endpoint: the last update that was on offer is downloaded, unless there is none or a
/// download is not over.
pub fn handle_start(last: &Option<UpdateInfo>, job: &Option<DownloadJob>) -> (r: StartStep)
    ensures
        match r {
            StartStep::Answer(a) => {
                ||| *last is None && writes(a@, error_doc("请先检查更新"@))
                ||| *last is Some && busy(slot(*job)) && writes(a@, error_doc("已有下载任务进行中"@))
            },
            StartStep::Download(u, p) => {
                &&& !busy(slot(*job))
                &&& last_view(*last) == Some(u@)
                &&& p.file@ == installer_stem(without_v(u@.tag)) + ".exe"@
                &&& p.part@ == installer_stem(without_v(u@.tag)) + ".part"@
            },
        },
{
    match last {
        None => StartStep::Answer(error_reply("请先检查更新")),
        Some(info) => match start_download(job, info) {
            Ok(plan) => StartStep::Download(info.clone(), plan),
            Err(e) => StartStep::Answer(error_reply(e.as_str())),
        },
    }
}

/// The answer of an endpoint to what came of its work.
pub fn answer(outcome: Result<(), String>) -> (r: String)
    ensures
        match outcome {
            Ok(_) => r@ == ok_text(),
            Err(e) => writes(r@, error_doc(e@)),
        },
{
    match outcome {
        Ok(_) => ok_body(),
        Err(e) => error_reply(e.as_str()),
    }
}

/// The name of a state.
pub open spec fn state_name(s: State) -> Seq<char> {
    match s {
        State::Downloading => "downloading"@,
        State::Verifying => "verifying"@,
        State::Ready => "ready"@,
        State::Error => "error"@,
    }
}

/// A text that may be absent, in a document.
pub open spec fn text_or_null(s: Option<Seq<char>>) -> Json {
    match s {
        Some(t) => Json::Str(t),
        None => Json::Null,
    }
}

/// What is answered of a download.
pub open spec fn status_doc(j: JobView) -> Json {
    Json::Obj(
        no_fields().insert("ok"@, Json::Bool(true)).insert(
            "state"@,
            Json::Str(state_name(j.state)),
        ).insert("downloaded"@, Json::Num(j.downloaded)).insert("total"@, Json::Num(j.total)).insert(
            "error"@,
            text_or_null(j.error),
        ).insert("file"@, text_or_null(j.file)),
    )
}

fn borrow_opt(s: &Option<String>) -> (r: Option<&str>)
    ensures
        match r {
            Some(t) => opt_view(*s) == Some(t@),
            None => opt_view(*s) is None,
        },
{
    match s {
        Some(t) => Some(t.as_str()),
        None => None,
    }
}

/// The status endpoint.
pub fn handle_status(job: &Option<DownloadJob>) -> (r: String)
    ensures
        match slot(*job) {
            None => r@ == "{\"ok\":true,\"state\":\"idle\"}"@,
            Some(j) => writes(r@, status_doc(j)),
        },
{
    match job {
        None => "{\"ok\":true,\"state\":\"idle\"}".to_owned(),
        Some(j) => {
            let name: &str = match j.state {
                State::Downloading => "downloading",
                State::Verifying => "verifying",
                State::Ready => "ready",
                State::Error => "error",
            };
            let mut v: Value = object();
            put(&mut v, "ok", flag(true));
            put(&mut v, "state", text(name));
            put(&mut v, "downloaded", number(j.downloaded));
            put(&mut v, "total", number(j.total));
            put(&mut v, "error", optional_text(borrow_opt(&j.error)));
            put(&mut v, "file", optional_text(borrow_opt(&j.file)));
            proof {
                lemma_flat(json_of(v)->Obj_0, 100);
            }
            render(&v)
        },
    }
}

/// The installer that a download left.
pub fn installer(job: &Option<DownloadJob>) -> (r: Option<String>)
    ensures
        opt_view(r) == match slot(*job) {
            Some(j) => j.file,
            None => None,
        },
{
    match job {
        Some(j) => copy_opt(&j.file),
        None => None,
    }
}

/// What came of running the installer.
pub enum InstallOutcome {
    /// It runs.
    Running,
    /// No download left one, or it is gone.
    Missing,
    /// It could not be started.
    Refused(String),
    /// It does not run on this system.
    Unsupported,
}

/// The install endpoint: its answer, and whether the shell leaves so that the installer can
/// replace it.
pub fn handle_install(outcome: InstallOutcome) -> (r: (String, bool))
    ensures
        r.1 == (outcome is Running),
        match outcome {
            InstallOutcome::Running => r.0@ == ok_text(),
            InstallOutcome::Missing => writes(r.0@, error_doc("没有已下载的安装包"@)),
            InstallOutcome::Refused(e) => writes(r.0@, error_doc("启动安装程序失败："@ + e@)),
            InstallOutcome::Unsupported => writes(r.0@, error_doc("自动更新仅支持 Windows"@)),
        },
{
    match outcome {
        InstallOutcome::Running => (ok_body(), true),
        InstallOutcome::Missing => (error_reply("没有已下载的安装包"), false),
        InstallOutcome::Refused(e) => (
            error_reply(join("启动安装程序失败：", e.as_str()).as_str()),
            false,
        ),
        InstallOutcome::Unsupported => (error_reply("自动更新仅支持 Windows"), false),
    }
}

/// How long the installer is given before the shell leaves, in milliseconds.
pub const INSTALLER_HEAD_START_MS: u64 = 1500;

/// The page of a release, or that of all releases.
pub open spec fn page_of(tag: Option<Seq<char>>) -> Seq<char> {
    match tag {
        Some(t) => "https://github.com/"@ + REPO@ + "/releases/tag/"@ + t,
        None => "https://github.com/"@ + REPO@ + "/releases"@,
    }
}

/// The page of the last update that was on offer, or that of all releases.
pub fn release_page(last: &Option<UpdateInfo>) -> (r: String)
    ensures
        r@ == page_of(
            match last_view(*last) {
                Some(u) => Some(u.tag),
                None => None,
            },
        ),
{
    let mut s: String = "https://github.com/".to_owned();
    s.append(REPO);
    match last {
        Some(u) => {
            s.append("/releases/tag/");
            s.append(u.tag.as_str());
        },
        None => {
            s.append("/releases");
        },
    }
    s
}

/// What came of opening the page.
pub enum OpenOutcome {
    Opened,
    Refused(String),
    /// There is no browser to hand it to on this system.
    Unsupported,
}

/// The open endpoint.
pub fn handle_open(outcome: OpenOutcome) -> (r: String)
    ensures
        match outcome {
            OpenOutcome::Opened => r@ == ok_text(),
            OpenOutcome::Refused(e) => writes(r@, error_doc("打开下载页失败："@ + e@)),
            OpenOutcome::Unsupported => r@ == "{\"ok\":false,\"error\":\"仅支持 Windows\"}"@,
        },
{
    match outcome {
        OpenOutcome::Opened => ok_body(),
        OpenOutcome::Refused(e) => error_reply(join("打开下载页失败：", e.as_str()).as_str()),
        OpenOutcome::Unsupported => "{\"ok\":false,\"error\":\"仅支持 Windows\"}".to_owned(),
    }
}

// ---------------------------------------------------------------- laws of versions

/// Versions are compared number by number, the first that differs deciding: a higher major is newer
/// whatever follows, then a higher minor whatever the patch, then a higher patch.
pub proof fn law_the_first_number_that_differs_decides(
    x1: u64,
    y1: u64,
    z1: u64,
    x2: u64,
    y2: u64,
    z2: u64,
)
    ensures
        ({
            let a = decimal_of(x1 as nat) + seq!['.'] + (decimal_of(y1 as nat) + seq!['.']
                + decimal_of(z1 as nat));
            let b = decimal_of(x2 as nat) + seq!['.'] + (decimal_of(y2 as nat) + seq!['.']
                + decimal_of(z2 as nat));
            &&& x1 > x2 ==> is_newer(a, b) && !is_newer(b, a)
            &&& x1 == x2 && y1 > y2 ==> is_newer(a, b) && !is_newer(b, a)
            &&& x1 == x2 && y1 == y2 && z1 > z2 ==> is_newer(a, b) && !is_newer(b, a)
            &&& x1 == x2 && y1 == y2 && z1 == z2 ==> !is_newer(a, b)
        }),
{
    let none = Seq::<char>::empty();
    law_versions_read_back(x1, y1, z1, none);
    law_versions_read_back(x2, y2, z2, none);
    let a = version_text(x1, y1, z1);
    let b = version_text(x2, y2, z2);
    assert(a + none == a && b + none == b);
}

/// Letters `v` before a version, and white space around it, do not change it.
pub proof fn law_what_stands_around_a_version(
    before: Seq<char>,
    v: Seq<char>,
    s: Seq<char>,
    behind: Seq<char>,
)
    requires
        forall|i: int| 0 <= i < before.len() ==> is_space(#[trigger] before[i]),
        forall|i: int| 0 <= i < behind.len() ==> is_space(#[trigger] behind[i]),
        forall|i: int| 0 <= i < v.len() ==> v[i] == 'v' || v[i] == 'V',
        s.len() > 0,
        s[0] != 'v' && s[0] != 'V' && !is_space(s[0]) && !is_space(s.last()),
    ensures
        without_v(v + s) == s,
        version_of(before + (v + s) + behind) == version_of(s),
{
    let t = v + s;
    lemma_without_v(t, v.len() as int);
    assert(t.skip(v.len() as int) == s);
    assert(t.last() == s.last());
    assert(t[0] == if v.len() > 0 {
        v[0]
    } else {
        s[0]
    });
    let none = Seq::<char>::empty();
    law_trimming_takes_the_edges(before, t, behind);
    law_trimming_takes_the_edges(none, s, none);
    assert(none + s + none == s);
    lemma_without_v(s, 0);
    assert(s.skip(0) == s);
}

/// The numbers of a version are the first three between dots; what is not a number there, or too
/// few of them, makes no version.
pub proof fn law_versions_have_three_numbers(
    a: Seq<char>,
    b: Seq<char>,
    c: Seq<char>,
    more: Seq<char>,
)
    requires
        forall|i: int| 0 <= i < a.len() ==> a[i] != '.' && a[i] != '-' && !is_space(#[trigger] a[i]),
        forall|i: int| 0 <= i < b.len() ==> b[i] != '.' && b[i] != '-' && !is_space(#[trigger] b[i]),
        forall|i: int| 0 <= i < c.len() ==> c[i] != '.' && c[i] != '-' && !is_space(#[trigger] c[i]),
        forall|i: int|
            0 <= i < more.len() ==> more[i] != '-' && !is_space(#[trigger] more[i]),
        more.len() == 0 || more[0] == '.',
        a.len() > 0 ==> a[0] != 'v' && a[0] != 'V',
    ensures
        version_of(a + seq!['.'] + (b + seq!['.'] + (c + more))) == match (
            number_of(a),
            number_of(b),
            number_of(c),
        ) {
            (Some(x), Some(y), Some(z)) => Some((x, y, z)),
            _ => None,
        },
        version_of(a + seq!['.'] + b) is None,
{
    let tail = c + more;
    let mid = b + seq!['.'] + tail;
    let s = a + seq!['.'] + mid;
    let short = a + seq!['.'] + b;
    assert forall|i: int| 0 <= i < s.len() implies s[i] != '-' && !is_space(#[trigger] s[i]) by {
        if i < a.len() {
            assert(s[i] == a[i]);
        } else if i == a.len() {
        } else {
            let j = i - a.len() - 1;
            assert(s[i] == mid[j]);
            if j < b.len() {
                assert(mid[j] == b[j]);
            } else if j == b.len() {
            } else {
                let k = j - b.len() - 1;
                assert(mid[j] == tail[k]);
                if k < c.len() {
                    assert(tail[k] == c[k]);
                } else {
                    assert(tail[k] == more[k - c.len()]);
                }
            }
        }
    }
    assert forall|i: int| 0 <= i < short.len() implies short[i] != '-' && !is_space(
        #[trigger] short[i],
    ) by {
        if i < a.len() {
            assert(short[i] == a[i]);
        } else if i > a.len() {
            assert(short[i] == b[i - a.len() - 1]);
        }
    }
    assert(s.take(a.len() as int) == a && short.take(a.len() as int) == a);
    lemma_plain_version(s, a);
    lemma_plain_version(short, a);
    assert forall|i: int| 0 <= i < a.len() implies a[i] != '.' by {
        assert(!is_space(a[i]) && a[i] != '.');
    }
    assert forall|i: int| 0 <= i < b.len() implies b[i] != '.' by {
        assert(!is_space(b[i]) && b[i] != '.');
    }
    assert forall|i: int| 0 <= i < c.len() implies c[i] != '.' by {
        assert(!is_space(c[i]) && c[i] != '.');
    }
    lemma_split_rest(a, '.', mid);
    lemma_split_rest(b, '.', tail);
    lemma_split_rest(a, '.', b);
    if more.len() == 0 {
        assert(tail == c);
        lemma_split_rest(c, '.', c);
        assert(split(tail, '.')[0] == c);
    } else {
        let over = more.skip(1);
        assert(more == seq!['.'] + over);
        assert(tail == c + seq!['.'] + over);
        lemma_split_rest(c, '.', over);
        assert(split(tail, '.')[0] == c);
    }
    assert(split(s, '.') == seq![a] + (seq![b] + split(tail, '.')));
    assert(split(tail, '.').len() >= 1);
    assert(split(s, '.')[0] == a && split(s, '.')[1] == b && split(s, '.')[2] == c);
    assert(split(short, '.') == seq![a] + seq![b]);
}

proof fn lemma_plain_version(s: Seq<char>, a: Seq<char>)
    requires
        s.len() > 0,
        forall|i: int| 0 <= i < s.len() ==> s[i] != '-' && !is_space(#[trigger] s[i]),
        a.len() < s.len(),
        s.take(a.len() as int) == a,
        s[a.len() as int] == '.',
        a.len() > 0 ==> a[0] != 'v' && a[0] != 'V',
    ensures
        until(without_v(trimmed(s)), '-') == s,
{
    let none = Seq::<char>::empty();
    assert(!is_space(s[0]) && !is_space(s[s.len() - 1]));
    law_trimming_takes_the_edges(none, s, none);
    assert(none + s + none == s);
    if a.len() > 0 {
        assert(s.take(a.len() as int)[0] == s[0]);
    }
    lemma_without_v(s, 0);
    assert(s.skip(0) == s);
    assert forall|i: int| 0 <= i < s.len() implies s[i] != '-' by {
        assert(!is_space(s[i]) && s[i] != '-');
    }
    law_cut_is_at_the_first(s, '-', none);
}

// ---------------------------------------------------------------- laws of releases

/// A file of a release is read by the names of its fields. Its name, size and address must be
/// there; a digest that is null counts as none.
pub proof fn law_assets_are_read_by_name(m: Map<Seq<char>, Json>, a: AssetView)
    ensures
        asset_of(Json::Obj(m)) == Some(a) <==> {
            &&& m.dom().contains("name"@) && m["name"@] == Json::Str(a.name)
            &&& m.dom().contains("size"@) && m["size"@] == Json::Num(a.size)
            &&& m.dom().contains("browser_download_url"@) && m["browser_download_url"@] == Json::Str(
                a.url,
            )
            &&& match a.digest {
                Some(d) => m.dom().contains("digest"@) && m["digest"@] == Json::Str(d),
                None => !m.dom().contains("digest"@) || m["digest"@] is Null,
            }
        },
{
}

/// A release is read by the names of its fields. Its tag and its files, in their order, must be
/// there; notes and a time that are null count as none.
pub proof fn law_releases_are_read_by_name(m: Map<Seq<char>, Json>, items: Seq<Json>, r: ReleaseView)
    requires
        m.dom().contains("assets"@) ==> m["assets"@] == Json::Arr(items),
    ensures
        release_of(Json::Obj(m)) == Some(r) <==> {
            &&& m.dom().contains("tag_name"@) && m["tag_name"@] == Json::Str(r.tag)
            &&& match r.body {
                Some(t) => m.dom().contains("body"@) && m["body"@] == Json::Str(t),
                None => !m.dom().contains("body"@) || m["body"@] is Null,
            }
            &&& match r.published_at {
                Some(t) => m.dom().contains("published_at"@) && m["published_at"@] == Json::Str(t),
                None => !m.dom().contains("published_at"@) || m["published_at"@] is Null,
            }
            &&& m.dom().contains("assets"@) && r.assets.len() == items.len() && forall|i: int|
                0 <= i < items.len() ==> asset_of(#[trigger] items[i]) == Some(r.assets[i])
        },
{
    law_lists_are_read_item_by_item(items, asset_fn(), r.assets);
    assert(forall|i: int|
        0 <= i < items.len() ==> asset_fn()(#[trigger] items[i]) == asset_of(items[i]));
}

/// A source lists its releases as an array, and each is read in its place.
pub proof fn law_sources_list_releases(body: Seq<char>, items: Seq<Json>, rs: Seq<ReleaseView>)
    requires
        json_in(body) == Ok::<Json, Seq<char>>(Json::Arr(items)),
    ensures
        releases_in(body) == Ok::<Seq<ReleaseView>, Seq<char>>(rs) <==> rs.len() == items.len()
            && forall|i: int|
            0 <= i < items.len() ==> release_of(#[trigger] items[i]) == Some(rs[i]),
{
    law_lists_are_read_item_by_item(items, release_fn(), rs);
    assert(forall|i: int|
        0 <= i < items.len() ==> release_fn()(#[trigger] items[i]) == release_of(items[i]));
}

/// A file whose name holds the word `setup`.
pub open spec fn is_setup(a: AssetView) -> bool {
    exists|x: Seq<char>, y: Seq<char>| #[trigger] (x + "setup"@ + y) == a.name
}

/// The setup installer of a release is its first file whose name holds the word `setup`.
pub proof fn law_the_first_setup_counts(assets: Seq<AssetView>, k: int)
    requires
        0 <= k <= assets.len(),
        forall|j: int| 0 <= j < k ==> !is_setup(#[trigger] assets[j]),
        k < assets.len() ==> is_setup(assets[k]),
    ensures
        setup_in(assets) == if k < assets.len() {
            Some(assets[k])
        } else {
            None
        },
{
    assert forall|j: int| 0 <= j < k implies !contains_text((#[trigger] assets[j]).name, "setup"@) by {
        assert(!is_setup(assets[j]));
        law_contained_text_has_two_sides(assets[j].name, "setup"@);
    }
    if k < assets.len() {
        law_contained_text_has_two_sides(assets[k].name, "setup"@);
    }
    lemma_setup_at(assets, k);
}

/// The update on offer is that of the release published last, of those with a setup installer: no
/// other has a later time, and of those with the same time it is listed first. It has all that the
/// release and its installer say. None is on offer only where no release has an installer.
pub proof fn law_the_latest_release_is_offered(rs: Seq<ReleaseView>, u: Option<UpdateView>)
    requires
        offered(rs, u),
    ensures
        u is None <==> forall|i: int| 0 <= i < rs.len() ==> setup_in((#[trigger] rs[i]).assets) is None,
        u matches Some(v) ==> exists|i: int|
            {
                &&& 0 <= i < rs.len()
                &&& setup_in((#[trigger] rs[i]).assets) matches Some(a)
                &&& v.url == a.url && v.size == a.size && v.digest == a.digest
                &&& v.tag == rs[i].tag
                &&& rs[i].body matches Some(t) ==> v.notes == t
                &&& rs[i].body is None ==> v.notes.len() == 0
                &&& forall|j: int|
                    0 <= j < rs.len() && setup_in((#[trigger] rs[j]).assets) is Some
                        && rs[j].published_at is Some ==> rs[i].published_at is Some && !text_before(
                        rs[i].published_at->0,
                        rs[j].published_at->0,
                    )
                &&& forall|j: int|
                    0 <= j < i && setup_in((#[trigger] rs[j]).assets) is Some ==> rs[j].published_at
                        != rs[i].published_at
            },
{
    if u is Some {
        let i = choose|i: int| #[trigger] on_offer(rs, i) && u->0 == update_from(rs[i]);
        assert(setup_in(rs[i].assets) is Some);
        assert forall|j: int|
            0 <= j < i && setup_in((#[trigger] rs[j]).assets) is Some implies rs[j].published_at
            != rs[i].published_at by {
            lemma_older(rs[i].published_at, rs[j].published_at, rs[i].published_at);
        }
    }
}

// ---------------------------------------------------------------- laws of the answers

/// The answer to a check gives each part of the update under its own name, the version without its
/// letter, and says that there is an update exactly when that version is newer than the running
/// one.
pub proof fn law_checks_are_answered_by_name(u: UpdateView, current: Seq<char>)
    ensures
        check_doc(u, current) matches Json::Obj(m) && {
            &&& m["ok"@] == Json::Bool(true)
            &&& m["current"@] == Json::Str(current)
            &&& m["tag"@] == Json::Str(u.tag)
            &&& m["notes"@] == Json::Str(u.notes)
            &&& m["size"@] == Json::Num(u.size)
            &&& m["url"@] == Json::Str(u.url)
            &&& m["version"@] == Json::Str(without_v(u.tag))
            &&& m["has_update"@] == Json::Bool(is_newer(without_v(u.tag), current))
        },
        no_update_doc(current) matches Json::Obj(m) && m["ok"@] == Json::Bool(true)
            && m["has_update"@] == Json::Bool(false) && m["current"@] == Json::Str(current),
{
    reveal_strlit("ok");
    reveal_strlit("has_update");
    reveal_strlit("current");
    reveal_strlit("version");
    reveal_strlit("tag");
    reveal_strlit("notes");
    reveal_strlit("size");
    reveal_strlit("url");
    assert("ok"@.len() == 2 && "has_update"@.len() == 10 && "current"@.len() == 7 && "version"@.len()
        == 7 && "tag"@.len() == 3 && "notes"@.len() == 5 && "size"@.len() == 4 && "url"@.len() == 3);
    assert("current"@[0] != "version"@[0]);
    assert("tag"@[0] != "url"@[0]);
}

/// What is remembered is the last update that was on offer: a check that finds none, or fails,
/// leaves it.
pub proof fn law_the_last_update_is_remembered(u: UpdateView, e: Seq<char>, last: Option<UpdateView>)
    ensures
        remembered(Ok(Some(u)), last) == Some(u),
        remembered(Ok(None), last) == last,
        remembered(Err(e), last) == last,
{
}

/// The status of a download gives each part of it under its own name.
pub proof fn law_downloads_are_shown_by_name(j: JobView)
    ensures
        status_doc(j) matches Json::Obj(m) && {
            &&& m["ok"@] == Json::Bool(true)
            &&& m["downloaded"@] == Json::Num(j.downloaded)
            &&& m["total"@] == Json::Num(j.total)
            &&& match j.error {
                Some(e) => m["error"@] == Json::Str(e),
                None => m["error"@] is Null,
            }
            &&& match j.file {
                Some(f) => m["file"@] == Json::Str(f),
                None => m["file"@] is Null,
            }
            &&& m["state"@] == Json::Str(
                match j.state {
                    State::Downloading => "downloading"@,
                    State::Verifying => "verifying"@,
                    State::Ready => "ready"@,
                    State::Error => "error"@,
                },
            )
        },
{
    reveal_strlit("ok");
    reveal_strlit("state");
    reveal_strlit("downloaded");
    reveal_strlit("total");
    reveal_strlit("error");
    reveal_strlit("file");
    assert("ok"@.len() == 2 && "state"@.len() == 5 && "downloaded"@.len() == 10 && "total"@.len() == 5
        && "error"@.len() == 5 && "file"@.len() == 4);
    assert("state"@[0] != "total"@[0] && "state"@[0] != "error"@[0] && "total"@[0] != "error"@[0]);
}

/// A file and a release may give all their parts in order, without their names.
pub proof fn law_records_may_be_given_in_order(a: AssetView, r: ReleaseView, items: Seq<Json>)
    requires
        r.assets.len() == items.len(),
        forall|i: int| 0 <= i < items.len() ==> asset_of(#[trigger] items[i]) == Some(r.assets[i]),
    ensures
        asset_of(
            Json::Arr(
                seq![
                    Json::Str(a.name),
                    Json::Num(a.size),
                    text_or_null(a.digest),
                    Json::Str(a.url),
                ],
            ),
        ) == Some(a),
        release_of(
            Json::Arr(
                seq![
                    Json::Str(r.tag),
                    text_or_null(r.body),
                    text_or_null(r.published_at),
                    Json::Arr(items),
                ],
            ),
        ) == Some(r),
{
    law_lists_are_read_item_by_item(items, asset_fn(), r.assets);
    assert(forall|i: int|
        0 <= i < items.len() ==> asset_fn()(#[trigger] items[i]) == asset_of(items[i]));
}

/// A source that cannot be read is told with what is known of the fault: the network's words, the
/// reader's, or the parser's.
pub proof fn law_faulty_sources_say_why(e: String, body: Seq<char>)
    ensures
        fetched_view(Err(FetchFault::Network(e))) == Err::<Seq<char>, Seq<char>>("网络错误："@ + e@),
        fetched_view(Err(FetchFault::Body(e))) == Err::<Seq<char>, Seq<char>>("读取响应失败："@ + e@),
        json_in(body) matches Err(said) ==> releases_in(body) == Err::<Seq<ReleaseView>, Seq<char>>(
            "更新源响应解析失败："@ + said,
        ),
        json_in(body) matches Ok(j) && !(j is Arr) ==> releases_in(body) is Err,
{
}

/// What is known after asking the source rests on what it sent, and on nothing else.
pub proof fn law_checks_rest_on_what_was_sent(
    body: Seq<char>,
    rs: Seq<ReleaseView>,
    e: Seq<char>,
    r: Result<Option<UpdateView>, Seq<char>>,
)
    ensures
        checked(Err(e), r) <==> r == Err::<Option<UpdateView>, Seq<char>>(e),
        releases_in(body) == Ok::<Seq<ReleaseView>, Seq<char>>(rs) ==> (checked(Ok(body), r) <==> r is Ok
            && offered(rs, r->Ok_0)),
        releases_in(body) == Err::<Seq<ReleaseView>, Seq<char>>(e) ==> (checked(Ok(body), r) <==> r
            == Err::<Option<UpdateView>, Seq<char>>(e)),
{
}

/// The page of a release ends in its own tag, and the list of releases is asked for below the base
/// that is set.
pub proof fn law_addresses_are_made_of_what_is_known(tag: Seq<char>, base: Seq<char>)
    ensures
        page_of(Some(tag)) == page_of(None) + "/tag/"@ + tag,
        page_of(None) == "https://github.com/QWQ123321123/dsh-desktop/releases"@,
        releases_at(base) == base + "/repos/QWQ123321123/dsh-desktop/releases"@,
{
    reveal_strlit("https://github.com/");
    reveal_strlit("QWQ123321123/dsh-desktop");
    reveal_strlit("/releases/tag/");
    reveal_strlit("/releases");
    reveal_strlit("/tag/");
    reveal_strlit("/repos/");
    reveal_strlit("https://github.com/QWQ123321123/dsh-desktop/releases");
    reveal_strlit("/repos/QWQ123321123/dsh-desktop/releases");
    assert("/releases/tag/"@ == "/releases"@ + "/tag/"@);
    assert(page_of(Some(tag)) =~= page_of(None) + "/tag/"@ + tag);
    assert(page_of(None) =~= "https://github.com/QWQ123321123/dsh-desktop/releases"@);
    assert("/repos/"@ + REPO@ + "/releases"@ =~= "/repos/QWQ123321123/dsh-desktop/releases"@);
    assert(releases_at(base) =~= base + ("/repos/"@ + REPO@ + "/releases"@));
}

/// A check is answered with the update whenever there is one, be it newer or not; with the running
/// version alone where there is none; and with the fault where it failed.
pub proof fn law_what_a_check_is_answered(u: UpdateView, e: Seq<char>, current: Seq<char>)
    ensures
        check_answer(Ok(Some(u)), current) == check_doc(u, current),
        check_answer(Ok(None), current) == no_update_doc(current),
        check_answer(Err(e), current) == error_doc(e),
{
}

} // verus!
