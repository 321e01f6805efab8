//! The installed plugins: a sorted list of names and versions, from the package manager's report
//! or from the profile's manifest.

use serde_json::Value;
use vstd::prelude::*;
use vstd::utf8::*;

use crate::decode::{
    all_of, is_record, lemma_all_of_none, lemma_all_of_step, list_of, member, member_of, opt_view,
    record_shape,
};
use crate::encoding::{before, law_text_order, lossy, text_before, utf8_lossy};
use crate::json::{
    entries, field, flag, get, json_in, json_of, list, no_fields, object, parse, plain, put, render,
    text, Json,
};
use crate::plugins::RawFinished;
use crate::reply::{lemma_flat, scalar, writes};
use crate::text::same;

verus! {

// ---------------------------------------------------------------- sorted lists

/// A name and a version.
pub type Pair = (Seq<char>, Seq<char>);

/// What a name and a version hold.
pub open spec fn pair_view(p: (String, String)) -> Pair {
    (p.0@, p.1@)
}

/// What a list of names and versions holds.
pub open spec fn pair_views(v: Seq<(String, String)>) -> Seq<Pair> {
    v.map_values(|p: (String, String)| pair_view(p))
}

/// The order of the list: by name, then by version.
pub open spec fn pair_before(a: Pair, b: Pair) -> bool {
    text_before(a.0, b.0) || (a.0 == b.0 && text_before(a.1, b.1))
}

/// No pair stands behind one that it is before.
pub open spec fn is_sorted(s: Seq<Pair>) -> bool {
    forall|i: int, j: int| 0 <= i < j < s.len() ==> !pair_before(#[trigger] s[j], #[trigger] s[i])
}

/// How often a pair stands in a list.
pub open spec fn times(s: Seq<Pair>, p: Pair) -> nat
    decreases s.len(),
{
    if s.len() == 0 {
        0
    } else {
        times(s.drop_last(), p) + if s.last() == p {
            1nat
        } else {
            0nat
        }
    }
}

proof fn lemma_times_insert(s: Seq<Pair>, k: int, x: Pair, p: Pair)
    requires
        0 <= k <= s.len(),
    ensures
        times(s.insert(k, x), p) == times(s, p) + if x == p {
            1nat
        } else {
            0nat
        },
    decreases s.len(),
{
    let t = s.insert(k, x);
    if k == s.len() {
        assert(t.drop_last() == s);
    } else {
        assert(t.drop_last() == s.drop_last().insert(k, x));
        assert(t.last() == s.last());
        lemma_times_insert(s.drop_last(), k, x, p);
    }
}

proof fn lemma_pair_order(a: Pair, b: Pair, c: Pair)
    ensures
        !pair_before(a, a),
        pair_before(a, b) ==> !pair_before(b, a),
        !pair_before(b, a) && !pair_before(c, b) ==> !pair_before(c, a),
{
    law_text_order(a.0, b.0, c.0);
    law_text_order(b.0, a.0, c.0);
    law_text_order(c.0, b.0, a.0);
    law_text_order(c.0, a.0, b.0);
    law_text_order(a.1, b.1, c.1);
    law_text_order(b.1, a.1, c.1);
    law_text_order(c.1, b.1, a.1);
    law_text_order(c.1, a.1, b.1);
}

fn pair_is_before(a: &(String, String), b: &(String, String)) -> (r: bool)
    ensures
        r == pair_before(pair_view(*a), pair_view(*b)),
{
    before(a.0.as_str(), b.0.as_str()) || (same(a.0.as_str(), b.0.as_str()) && before(
        a.1.as_str(),
        b.1.as_str(),
    ))
}

/// Puts a pair in its place.
fn insert_sorted(v: &mut Vec<(String, String)>, p: (String, String))
    requires
        is_sorted(pair_views(old(v)@)),
    ensures
        is_sorted(pair_views(final(v)@)),
        forall|q: Pair| #[trigger]
            times(pair_views(final(v)@), q) == times(pair_views(old(v)@), q) + if pair_view(p) == q {
                1nat
            } else {
                0nat
            },
{
    let ghost s = pair_views(v@);
    let ghost x = pair_view(p);
    let mut k: usize = v.len();
    while k > 0 && pair_is_before(&p, &v[k - 1])
        invariant
            k <= v@.len(),
            s == pair_views(v@),
            x == pair_view(p),
            forall|j: int| k <= j < s.len() ==> pair_before(x, #[trigger] s[j]),
        decreases k,
    {
        assert(s[k - 1] == pair_view(v@[k - 1]));
        k -= 1;
    }
    v.insert(k, p);
    proof {
        let t = pair_views(v@);
        assert(t == s.insert(k as int, x));
        assert forall|q: Pair| #[trigger] times(t, q) == times(s, q) + if x == q {
            1nat
        } else {
            0nat
        } by {
            lemma_times_insert(s, k as int, x, q);
        }
        if k > 0 {
            assert(!pair_before(x, s[k - 1]));
        }
        assert forall|i: int, j: int| 0 <= i < j < t.len() implies !pair_before(
            #[trigger] t[j],
            #[trigger] t[i],
        ) by {
            if j < k {
                assert(t[i] == s[i] && t[j] == s[j]);
            } else if j == k {
                assert(t[i] == s[i]);
                if i < k - 1 {
                    assert(!pair_before(s[k - 1], s[i]));
                    lemma_pair_order(s[i], s[k - 1], x);
                }
            } else {
                assert(t[j] == s[j - 1]);
                if i == k {
                    lemma_pair_order(x, s[j - 1], x);
                } else if i < k {
                    assert(t[i] == s[i]);
                } else {
                    assert(t[i] == s[i - 1]);
                }
            }
        }
    }
}

/// Two sorted lists in which every pair stands equally often are the same.
pub proof fn law_sorted_list_is_determined(a: Seq<Pair>, b: Seq<Pair>)
    requires
        is_sorted(a),
        is_sorted(b),
        forall|p: Pair| #[trigger] times(a, p) == times(b, p),
    ensures
        a == b,
    decreases a.len(),
{
    if a.len() == 0 {
        if b.len() > 0 {
            assert(times(b, b.last()) >= 1);
            assert(times(a, b.last()) == times(b, b.last()));
        }
        assert(a == b);
    } else {
        let x = a.last();
        assert(times(a, x) >= 1);
        assert(times(b, x) == times(a, x));
        lemma_times_index(b, x);
        let i = choose|i: int| 0 <= i < b.len() && b[i] == x;
        let y = b.last();
        assert(times(b, y) >= 1);
        assert(times(a, y) == times(b, y));
        lemma_times_index(a, y);
        let j = choose|j: int| 0 <= j < a.len() && a[j] == y;
        assert(x == y) by {
            // Neither last pair is before the other.
            assert(i < b.len() - 1 ==> !pair_before(b[b.len() - 1], b[i]));
            assert(j < a.len() - 1 ==> !pair_before(a[a.len() - 1], a[j]));
            lemma_pair_order(x, y, x);
            lemma_pair_total(x, y);
        }
        let (c, d) = (a.drop_last(), b.drop_last());
        assert(is_sorted(c)) by {
            assert forall|i: int, j: int| 0 <= i < j < c.len() implies !pair_before(
                #[trigger] c[j],
                #[trigger] c[i],
            ) by {
                assert(!pair_before(a[j], a[i]));
            }
        }
        assert(is_sorted(d)) by {
            assert forall|i: int, j: int| 0 <= i < j < d.len() implies !pair_before(
                #[trigger] d[j],
                #[trigger] d[i],
            ) by {
                assert(!pair_before(b[j], b[i]));
            }
        }
        assert forall|p: Pair| #[trigger] times(c, p) == times(d, p) by {
            assert(times(a, p) == times(b, p));
        }
        law_sorted_list_is_determined(c, d);
        assert(a == c.push(x));
        assert(b == d.push(y));
    }
}

proof fn lemma_times_index(s: Seq<Pair>, p: Pair)
    requires
        times(s, p) >= 1,
    ensures
        exists|i: int| 0 <= i < s.len() && s[i] == p,
    decreases s.len(),
{
    if s.last() == p {
        assert(s[s.len() - 1] == p);
    } else {
        lemma_times_index(s.drop_last(), p);
        let i = choose|i: int| 0 <= i < s.drop_last().len() && s.drop_last()[i] == p;
        assert(s[i] == p);
    }
}

proof fn lemma_pair_total(a: Pair, b: Pair)
    ensures
        pair_before(a, b) || a == b || pair_before(b, a),
{
    law_text_order(a.0, b.0, a.0);
    law_text_order(a.1, b.1, a.1);
}

// ---------------------------------------------------------------- sections of dependencies

/// How a section gives the version of a dependency.
#[derive(Clone, Copy, PartialEq, Eq, Structural)]
pub enum Style {
    /// As the field `version` of what is said of it.
    Field,
    /// As all that is said of it.
    Text,
}

/// The characters of a text, and none for anything else.
pub open spec fn text_or_nothing(j: Option<Json>) -> Seq<char> {
    match j {
        Some(Json::Str(s)) => s,
        _ => Seq::empty(),
    }
}

/// The version that a section gives for a dependency.
pub open spec fn version_in(info: Json, style: Style) -> Seq<char> {
    match style {
        Style::Field => text_or_nothing(field(info, "version"@)),
        Style::Text => text_or_nothing(Some(info)),
    }
}

/// How often a section lists a pair: at most once.
pub open spec fn in_section(section: Json, style: Style, p: Pair) -> nat {
    match field(section, p.0) {
        Some(info) => if version_in(info, style) == p.1 {
            1
        } else {
            0
        },
        None => 0,
    }
}

fn version_of(info: &Value, style: Style) -> (r: String)
    ensures
        r@ == version_in(json_of(*info), style),
{
    let found: Option<&Value> = match style {
        Style::Field => get(info, "version"),
        Style::Text => Some(info),
    };
    match found {
        Some(v) => match v.as_str() {
            Some(s) => s.to_owned(),
            None => String::new(),
        },
        None => String::new(),
    }
}

/// How often the first `n` entries of a section hold a pair.
spec fn in_entries(list: Seq<(String, &Value)>, n: int, style: Style, p: Pair) -> nat
    decreases n,
{
    if n <= 0 {
        0
    } else {
        in_entries(list, n - 1, style, p) + if list[n - 1].0@ == p.0 && version_in(
            json_of(*list[n - 1].1),
            style,
        ) == p.1 {
            1nat
        } else {
            0nat
        }
    }
}

proof fn lemma_in_entries(list: Seq<(String, &Value)>, n: int, style: Style, p: Pair, k: int)
    requires
        0 <= n <= list.len(),
        forall|i: int, j: int|
            0 <= i < j < list.len() ==> #[trigger] list[i].0@ != #[trigger] list[j].0@,
        0 <= k < list.len(),
        list[k].0@ == p.0,
    ensures
        in_entries(list, n, style, p) == if k < n && version_in(json_of(*list[k].1), style) == p.1 {
            1nat
        } else {
            0nat
        },
    decreases n,
{
    if n > 0 {
        lemma_in_entries(list, n - 1, style, p, k);
        if n - 1 < k {
            assert(list[n - 1].0@ != list[k].0@);
        } else if n - 1 > k {
            assert(list[k].0@ != list[n - 1].0@);
        }
    }
}

proof fn lemma_in_no_entries(list: Seq<(String, &Value)>, n: int, style: Style, p: Pair)
    requires
        0 <= n <= list.len(),
        forall|i: int| 0 <= i < list.len() ==> #[trigger] list[i].0@ != p.0,
    ensures
        in_entries(list, n, style, p) == 0,
    decreases n,
{
    if n > 0 {
        lemma_in_no_entries(list, n - 1, style, p);
        assert(list[n - 1].0@ != p.0);
    }
}

/// Adds what a section lists.
fn add_section(out: &mut Vec<(String, String)>, section: &Value, style: Style)
    requires
        is_sorted(pair_views(old(out)@)),
    ensures
        is_sorted(pair_views(final(out)@)),
        forall|p: Pair| #[trigger]
            times(pair_views(final(out)@), p) == times(pair_views(old(out)@), p) + in_section(
                json_of(*section),
                style,
                p,
            ),
{
    let list: Vec<(String, &Value)> = match entries(section) {
        Some(list) => list,
        None => return ,
    };
    let ghost start = pair_views(out@);
    let mut i: usize = 0;
    while i < list.len()
        invariant
            i <= list@.len(),
            is_sorted(pair_views(out@)),
            forall|p: Pair| #[trigger]
                times(pair_views(out@), p) == times(start, p) + in_entries(
                    list@,
                    i as int,
                    style,
                    p,
                ),
        decreases list@.len() - i,
    {
        let name: String = list[i].0.clone();
        let version: String = version_of(list[i].1, style);
        insert_sorted(out, (name, version));
        i += 1;
    }
    proof {
        let j = json_of(*section);
        assert forall|p: Pair| #[trigger]
            times(pair_views(out@), p) == times(start, p) + in_section(j, style, p) by {
            if field(j, p.0) is Some {
                let k = choose|k: int| 0 <= k < list@.len() && #[trigger] list@[k].0@ == p.0;
                assert(field(j, list@[k].0@) == Some(json_of(*list@[k].1)));
                lemma_in_entries(list@, list@.len() as int, style, p, k);
            } else {
                assert forall|k: int| 0 <= k < list@.len() implies #[trigger] list@[k].0@ != p.0 by {
                    assert(field(j, list@[k].0@) is Some);
                }
                lemma_in_no_entries(list@, list@.len() as int, style, p);
            }
        }
    }
}

// ---------------------------------------------------------------- the package manager's report

/// A project in the report: its two sections of dependencies.
#[verifier::ext_equal]
pub struct ProjectView {
    pub dependencies: Json,
    pub dev_dependencies: Json,
}

/// A section, which is empty when it is not there.
pub open spec fn section_in(m: Option<Json>) -> Option<Json> {
    match m {
        None => Some(Json::Obj(no_fields())),
        Some(Json::Obj(fields)) => Some(Json::Obj(fields)),
        _ => None,
    }
}

/// The project that a document describes.
pub open spec fn project_of(j: Json) -> Option<ProjectView> {
    if !record_shape(j, 2) {
        None
    } else {
        match (
            section_in(member_of(j, 0, "dependencies"@)),
            section_in(member_of(j, 1, "devDependencies"@)),
        ) {
            (Some(dependencies), Some(dev_dependencies)) => Some(
                ProjectView { dependencies, dev_dependencies },
            ),
            _ => None,
        }
    }
}

/// What one project is made from, as a function.
pub open spec fn project_fn() -> spec_fn(Json) -> Option<ProjectView> {
    |j: Json| project_of(j)
}

/// The projects that a text reports; none if it is no report.
pub open spec fn projects_in(text: Seq<char>) -> Seq<ProjectView> {
    match json_in(text) {
        Ok(j) => match list_of(j, project_fn()) {
            Some(ps) => ps,
            None => Seq::empty(),
        },
        Err(_) => Seq::empty(),
    }
}

/// How often some projects list a pair.
pub open spec fn reported(ps: Seq<ProjectView>, p: Pair) -> nat
    decreases ps.len(),
{
    if ps.len() == 0 {
        0
    } else {
        reported(ps.drop_last(), p) + in_section(ps.last().dependencies, Style::Field, p)
            + in_section(ps.last().dev_dependencies, Style::Field, p)
    }
}

/// A list is sorted, and holds every pair as often as it is counted.
pub open spec fn lists(s: Seq<Pair>, count: spec_fn(Pair) -> nat) -> bool {
    is_sorted(s) && forall|p: Pair| #[trigger] times(s, p) == count(p)
}

/// How often a report lists each pair.
pub open spec fn report_count(text: Seq<char>) -> spec_fn(Pair) -> nat {
    |p: Pair| reported(projects_in(text), p)
}

/// The value of a section, as far as the record has it; nothing if it has something else there.
fn section<'a>(v: &'a Value, i: usize, key: &str) -> (r: Option<Option<&'a Value>>)
    ensures
        match r {
            Some(Some(x)) => section_in(member_of(json_of(*v), i as int, key@)) == Some(json_of(*x)),
            Some(None) => section_in(member_of(json_of(*v), i as int, key@)) == Some(
                Json::Obj(no_fields()),
            ),
            None => section_in(member_of(json_of(*v), i as int, key@)) is None,
        },
{
    match member(v, i, key) {
        Some(x) => if x.is_object() {
            Some(Some(x))
        } else {
            None
        },
        None => Some(None),
    }
}

fn add_optional(out: &mut Vec<(String, String)>, s: Option<&Value>)
    requires
        is_sorted(pair_views(old(out)@)),
    ensures
        is_sorted(pair_views(final(out)@)),
        forall|p: Pair| #[trigger]
            times(pair_views(final(out)@), p) == times(pair_views(old(out)@), p) + in_section(
                match s {
                    Some(x) => json_of(*x),
                    None => Json::Obj(no_fields()),
                },
                Style::Field,
                p,
            ),
{
    match s {
        Some(x) => add_section(out, x, Style::Field),
        None => {},
    }
}

/// The plugins that the package manager reports; none if the text is no report.
pub fn parse_list_json(text: &str) -> (r: Vec<(String, String)>)
    ensures
        lists(pair_views(r@), report_count(text@)),
{
    let nothing: Vec<(String, String)> = Vec::new();
    assert(pair_views(nothing@) == Seq::<Pair>::empty());
    let v: Value = match parse(text) {
        Ok(v) => v,
        Err(_) => return nothing,
    };
    let items: &Vec<Value> = match v.as_array() {
        Some(items) => items,
        None => return nothing,
    };
    let ghost js = items@.map_values(|x: Value| json_of(x));
    let mut out: Vec<(String, String)> = Vec::new();
    let mut i: usize = 0;
    assert(js.take(0) == Seq::<Json>::empty());
    assert(pair_views(out@) == Seq::<Pair>::empty());
    while i < items.len()
        invariant
            i <= items@.len(),
            pair_views(nothing@) == Seq::<Pair>::empty(),
            js == items@.map_values(|x: Value| json_of(x)),
            json_of(v) == Json::Arr(js),
            json_in(text@) == Ok::<Json, Seq<char>>(json_of(v)),
            all_of(js.take(i as int), project_fn()) is Some,
            is_sorted(pair_views(out@)),
            forall|p: Pair| #[trigger]
                times(pair_views(out@), p) == reported(
                    all_of(js.take(i as int), project_fn())->0,
                    p,
                ),
        decreases items@.len() - i,
    {
        let ghost done = all_of(js.take(i as int), project_fn())->0;
        proof {
            lemma_all_of_step(js, project_fn(), i as int);
        }
        let item: &Value = &items[i];
        let parts: Option<(Option<&Value>, Option<&Value>)> = if !is_record(item, 2) {
            None
        } else {
            match (section(item, 0, "dependencies"), section(item, 1, "devDependencies")) {
                (Some(a), Some(b)) => Some((a, b)),
                _ => None,
            }
        };
        match parts {
            Some((a, b)) => {
                let ghost one = project_of(js[i as int])->0;
                add_optional(&mut out, a);
                add_optional(&mut out, b);
                proof {
                    let next = all_of(js.take(i + 1), project_fn())->0;
                    assert(next == done.push(one));
                    assert(next.drop_last() == done);
                    assert forall|p: Pair| #[trigger]
                        times(pair_views(out@), p) == reported(next, p) by {}
                }
            },
            None => {
                proof {
                    lemma_all_of_none(js, project_fn(), i as int);
                }
                return nothing;
            },
        }
        i += 1;
    }
    assert(js.take(js.len() as int) == js);
    out
}

// ---------------------------------------------------------------- the profile's manifest

/// How often a manifest lists each pair.
pub open spec fn manifest_count(text: Seq<char>) -> spec_fn(Pair) -> nat {
    |p: Pair|
        match json_in(text) {
            Ok(j) => in_named_section(j, "dependencies"@, p) + in_named_section(
                j,
                "devDependencies"@,
                p,
            ),
            Err(_) => 0,
        }
}

/// How often a section of a manifest lists a pair.
pub open spec fn in_named_section(j: Json, key: Seq<char>, p: Pair) -> nat {
    match field(j, key) {
        Some(s) => in_section(s, Style::Text, p),
        None => 0,
    }
}

/// The plugins that a profile's manifest lists; none if the text is no manifest.
pub fn read_profile_manifest(text: &str) -> (r: Vec<(String, String)>)
    ensures
        lists(pair_views(r@), manifest_count(text@)),
{
    let mut out: Vec<(String, String)> = Vec::new();
    assert(pair_views(out@) == Seq::<Pair>::empty());
    let v: Value = match parse(text) {
        Ok(v) => v,
        Err(_) => return out,
    };
    match get(&v, "dependencies") {
        Some(s) => add_section(&mut out, s, Style::Text),
        None => {},
    }
    match get(&v, "devDependencies") {
        Some(s) => add_section(&mut out, s, Style::Text),
        None => {},
    }
    out
}

// ---------------------------------------------------------------- the endpoint

/// Whether the CLI answered well, and so `pnpm` is there.
pub open spec fn pnpm_found(out: Option<RawFinished>) -> bool {
    out matches Some(o) && o.exit.success
}

/// What the package manager lists: what it reports, if the CLI answered well.
pub open spec fn listed(out: Option<RawFinished>, ps: Seq<Pair>) -> bool {
    if pnpm_found(out) {
        lists(ps, report_count(utf8_lossy(out->0.stdout@)))
    } else {
        ps.len() == 0
    }
}

/// The plugins that the package manager lists, and whether it is there.
pub fn cli_list(out: &Option<RawFinished>) -> (r: (bool, Vec<(String, String)>))
    ensures
        r.0 == pnpm_found(*out),
        listed(*out, pair_views(r.1@)),
        r.0 && valid_utf8(out->0.stdout@) ==> lists(
            pair_views(r.1@),
            report_count(decode_utf8(out->0.stdout@)),
        ),
{
    if let Some(o) = out {
        if o.exit.success {
            let text: String = lossy(o.stdout.as_slice());
            return (true, parse_list_json(text.as_str()));
        }
    }
    (false, Vec::new())
}

/// What is shown: what the package manager lists, or else what the manifest does.
pub open spec fn shown(cli: Seq<Pair>, manifest: Option<Seq<char>>, ps: Seq<Pair>) -> bool {
    if cli.len() > 0 {
        ps == cli
    } else {
        match manifest {
            Some(text) => lists(ps, manifest_count(text)),
            None => ps.len() == 0,
        }
    }
}

/// The plugins that are shown.
pub fn shown_plugins(cli: Vec<(String, String)>, manifest: Option<String>) -> (r: Vec<
    (String, String),
>)
    ensures
        shown(pair_views(cli@), opt_view(manifest), pair_views(r@)),
{
    if cli.len() > 0 {
        return cli;
    }
    match manifest {
        Some(text) => read_profile_manifest(text.as_str()),
        None => Vec::new(),
    }
}

/// A plugin, in a document.
pub open spec fn plugin_doc(p: Pair) -> Json {
    Json::Obj(no_fields().insert("name"@, Json::Str(p.0)).insert("version"@, Json::Str(p.1)))
}

/// What the list endpoint answers.
pub open spec fn list_doc(pnpm: bool, ps: Seq<Pair>) -> Json {
    Json::Obj(
        no_fields().insert("ok"@, Json::Bool(true)).insert("pnpm"@, Json::Bool(pnpm)).insert(
            "plugins"@,
            Json::Arr(ps.map_values(|p: Pair| plugin_doc(p))),
        ),
    )
}

/// The answer that shows some plugins.
pub fn list_answer(pnpm: bool, plugins: &Vec<(String, String)>) -> (r: String)
    ensures
        writes(r@, list_doc(pnpm, pair_views(plugins@))),
{
    let mut items: Vec<Value> = Vec::new();
    let ghost docs = pair_views(plugins@).map_values(|p: Pair| plugin_doc(p));
    let mut i: usize = 0;
    while i < plugins.len()
        invariant
            i <= plugins@.len(),
            docs == pair_views(plugins@).map_values(|p: Pair| plugin_doc(p)),
            items@.map_values(|x: Value| json_of(x)) == docs.take(i as int),
        decreases plugins@.len() - i,
    {
        let ghost done = items@.map_values(|x: Value| json_of(x));
        let mut item: Value = object();
        put(&mut item, "name", text(plugins[i].0.as_str()));
        put(&mut item, "version", text(plugins[i].1.as_str()));
        items.push(item);
        proof {
            assert(items@.map_values(|x: Value| json_of(x)) == done.push(json_of(item)));
            assert(docs[i as int] == plugin_doc(pair_view(plugins@[i as int])));
            assert(docs.take(i + 1) == docs.take(i as int).push(docs[i as int]));
        }
        i += 1;
    }
    assert(docs.take(docs.len() as int) == docs);
    let mut v: Value = object();
    put(&mut v, "ok", flag(true));
    put(&mut v, "pnpm", flag(pnpm));
    put(&mut v, "plugins", list(items));
    proof {
        let m = json_of(v)->Obj_0;
        assert forall|k: Seq<char>| #[trigger] m.dom().contains(k) implies plain(m[k], 99) by {
            if k == "plugins"@ {
                assert forall|n: int| 0 <= n < docs.len() implies plain(#[trigger] docs[n], 98) by {
                    lemma_flat(docs[n]->Obj_0, 98);
                }
            } else {
                assert(scalar(m[k]));
            }
        }
    }
    render(&v)
}

/// The list endpoint, from what came of asking the CLI, if it answered in time, and the text of
/// the profile's manifest, if it could be read.
pub fn handle_list(out: Option<RawFinished>, manifest: Option<String>) -> (r: String)
    ensures
        exists|cli: Seq<Pair>, ps: Seq<Pair>| #[trigger]
            listed(out, cli) && #[trigger] shown(cli, opt_view(manifest), ps) && writes(
                r@,
                list_doc(pnpm_found(out), ps),
            ),
{
    let (pnpm, cli) = cli_list(&out);
    let plugins: Vec<(String, String)> = shown_plugins(cli, manifest);
    list_answer(pnpm, &plugins)
}

/// The list endpoint's answer is the only one that meets its contract.
pub proof fn law_list_is_determined(
    out: Option<RawFinished>,
    manifest: Option<Seq<char>>,
    cli_a: Seq<Pair>,
    cli_b: Seq<Pair>,
    a: Seq<Pair>,
    b: Seq<Pair>,
)
    requires
        listed(out, cli_a),
        listed(out, cli_b),
        shown(cli_a, manifest, a),
        shown(cli_b, manifest, b),
    ensures
        a == b,
{
    if pnpm_found(out) {
        law_sorted_list_is_determined(cli_a, cli_b);
    }
    if cli_a.len() == 0 && manifest is Some {
        law_sorted_list_is_determined(a, b);
    }
    assert(a == b);
}

// ---------------------------------------------------------------- laws

/// A pair is counted wherever it stands.
pub proof fn law_pairs_are_counted(s: Seq<Pair>, x: Pair, p: Pair)
    ensures
        times(Seq::<Pair>::empty(), p) == 0,
        times(s.push(p), p) == times(s, p) + 1,
        x != p ==> times(s.push(x), p) == times(s, p),
{
    assert(s.push(p).drop_last() == s);
    assert(s.push(x).drop_last() == s);
}

/// A sorted list has its names in the order of their bytes, and the versions of one name too.
pub proof fn law_lists_go_by_name_and_version(s: Seq<Pair>, i: int, j: int)
    requires
        is_sorted(s),
        0 <= i < j < s.len(),
    ensures
        !text_before(s[j].0, s[i].0),
        s[i].0 == s[j].0 ==> !text_before(s[j].1, s[i].1),
{
    assert(!pair_before(s[j], s[i]));
}

/// A section can be read: it is an object, or is not there.
pub open spec fn is_section_of(m: Map<Seq<char>, Json>, key: Seq<char>) -> bool {
    m.dom().contains(key) ==> m[key] is Obj
}

/// A project lists what its two sections name, once for each, with the whole text of the field
/// `version` of what is said of it, or with nothing where there is no such text.
pub proof fn law_a_project_lists_its_dependencies(
    text: Seq<char>,
    m: Map<Seq<char>, Json>,
    ps: Seq<Pair>,
    n: Seq<char>,
    v: Seq<char>,
)
    requires
        json_in(text) == Ok::<Json, Seq<char>>(Json::Arr(seq![Json::Obj(m)])),
        is_section_of(m, "dependencies"@),
        is_section_of(m, "devDependencies"@),
        lists(ps, report_count(text)),
    ensures
        ({
            let has = |info: Json|
                match info {
                    Json::Obj(d) => if d.dom().contains("version"@) && d["version"@] is Str {
                        d["version"@] == Json::Str(v)
                    } else {
                        v.len() == 0
                    },
                    _ => v.len() == 0,
                };
            let count = |key: Seq<char>|
                if m.dom().contains(key) && m[key]->Obj_0.dom().contains(n) && has(m[key]->Obj_0[n]) {
                    1int
                } else {
                    0int
                };
            times(ps, (n, v)) == count("dependencies"@) + count("devDependencies"@)
        }),
{
    let items = seq![Json::Obj(m)];
    let none = Seq::<char>::empty();
    assert(v.len() == 0 ==> v == none);
    assert(items.drop_last() == Seq::<Json>::empty());
    assert(items.last() == Json::Obj(m));
    assert(all_of(items.drop_last(), project_fn()) == Some(Seq::<ProjectView>::empty()));
    let p = project_of(Json::Obj(m));
    assert(p is Some);
    assert(project_fn()(Json::Obj(m)) == p);
    let all = Seq::<ProjectView>::empty().push(p->0);
    assert(all_of(items, project_fn()) == Some(all));
    assert(projects_in(text) == all);
    assert(all.drop_last() == Seq::<ProjectView>::empty());
    assert(reported(all.drop_last(), (n, v)) == 0);
    assert(all.last() == p->0);
    assert(times(ps, (n, v)) == report_count(text)((n, v)));
}

/// A report with one dependency lists exactly it, with the version that the report has, character
/// by character, whichever of the two sections it stands in.
pub proof fn law_one_dependency_is_listed_as_it_is(
    text: Seq<char>,
    m: Map<Seq<char>, Json>,
    d: Map<Seq<char>, Json>,
    info: Map<Seq<char>, Json>,
    dev: bool,
    n: Seq<char>,
    s: Seq<char>,
    ps: Seq<Pair>,
)
    requires
        json_in(text) == Ok::<Json, Seq<char>>(Json::Arr(seq![Json::Obj(m)])),
        ({
            let (key, other) = if dev {
                ("devDependencies"@, "dependencies"@)
            } else {
                ("dependencies"@, "devDependencies"@)
            };
            m.dom().contains(key) && m[key] == Json::Obj(d) && !m.dom().contains(other)
        }),
        d.dom().contains(n),
        forall|k: Seq<char>| #[trigger] d.dom().contains(k) ==> k == n,
        d[n] == Json::Obj(info),
        info.dom().contains("version"@),
        info["version"@] == Json::Str(s),
        lists(ps, report_count(text)),
    ensures
        ps == seq![(n, s)],
{
    let one = seq![(n, s)];
    assert forall|p: Pair| #[trigger] times(one, p) == times(ps, p) by {
        law_a_project_lists_its_dependencies(text, m, ps, p.0, p.1);
        law_pairs_are_counted(Seq::<Pair>::empty(), (n, s), p);
        assert(Seq::<Pair>::empty().push((n, s)) == one);
        assert(Seq::<Pair>::empty().push(p)[0] == p);
        if (n, s) == p {
            assert(Seq::<Pair>::empty().push(p) == one);
        }
    }
    assert(is_sorted(one));
    law_sorted_list_is_determined(one, ps);
}

proof fn lemma_reported_adds(a: Seq<ProjectView>, b: Seq<ProjectView>, p: Pair)
    ensures
        reported(a + b, p) == reported(a, p) + reported(b, p),
    decreases b.len(),
{
    if b.len() == 0 {
        assert(a + b == a);
    } else {
        lemma_reported_adds(a, b.drop_last(), p);
        assert((a + b).drop_last() == a + b.drop_last());
        assert((a + b).last() == b.last());
    }
}

proof fn lemma_all_of_adds(a: Seq<Json>, b: Seq<Json>)
    ensures
        all_of(a, project_fn()) is Some && all_of(b, project_fn()) is Some ==> all_of(
            a + b,
            project_fn(),
        ) == Some(all_of(a, project_fn())->0 + all_of(b, project_fn())->0),
    decreases b.len(),
{
    if b.len() == 0 {
        assert(a + b == a);
        if all_of(a, project_fn()) is Some {
            assert(all_of(a, project_fn())->0 + Seq::<ProjectView>::empty() == all_of(
                a,
                project_fn(),
            )->0);
        }
    } else {
        lemma_all_of_adds(a, b.drop_last());
        assert((a + b).drop_last() == a + b.drop_last());
        assert((a + b).last() == b.last());
        if all_of(a, project_fn()) is Some && all_of(b, project_fn()) is Some {
            let x = all_of(a, project_fn())->0;
            let y = all_of(b.drop_last(), project_fn())->0;
            let z = project_fn()(b.last())->0;
            assert(x + y.push(z) == (x + y).push(z));
        }
    }
}

/// The projects of a report add up: one of two lists of projects lists every pair as often as the
/// two lists together.
pub proof fn law_reports_add_up(
    text_a: Seq<char>,
    text_b: Seq<char>,
    text: Seq<char>,
    a: Seq<Json>,
    b: Seq<Json>,
    p: Pair,
)
    requires
        json_in(text_a) == Ok::<Json, Seq<char>>(Json::Arr(a)),
        json_in(text_b) == Ok::<Json, Seq<char>>(Json::Arr(b)),
        json_in(text) == Ok::<Json, Seq<char>>(Json::Arr(a + b)),
        forall|i: int| 0 <= i < a.len() ==> project_of(#[trigger] a[i]) is Some,
        forall|i: int| 0 <= i < b.len() ==> project_of(#[trigger] b[i]) is Some,
    ensures
        report_count(text)(p) == report_count(text_a)(p) + report_count(text_b)(p),
{
    lemma_all_read(a);
    lemma_all_read(b);
    lemma_all_of_adds(a, b);
    lemma_reported_adds(all_of(a, project_fn())->0, all_of(b, project_fn())->0, p);
}

proof fn lemma_all_read(a: Seq<Json>)
    requires
        forall|i: int| 0 <= i < a.len() ==> project_of(#[trigger] a[i]) is Some,
    ensures
        all_of(a, project_fn()) is Some,
    decreases a.len(),
{
    if a.len() > 0 {
        let t = a.drop_last();
        assert forall|i: int| 0 <= i < t.len() implies project_of(#[trigger] t[i]) is Some by {
            assert(t[i] == a[i]);
        }
        lemma_all_read(t);
        assert(project_of(a[a.len() - 1]) is Some);
    }
}

/// A project is an object whose sections can be read, whatever else it says.
pub proof fn law_which_projects_are_read(m: Map<Seq<char>, Json>)
    ensures
        project_of(Json::Obj(m)) is Some <==> is_section_of(m, "dependencies"@) && is_section_of(
            m,
            "devDependencies"@,
        ),
        project_of(Json::Null) is None,
        forall|s: Seq<char>| #[trigger] project_of(Json::Str(s)) is None,
        forall|n: u64| #[trigger] project_of(Json::Num(n)) is None,
{
}

/// What is no report lists nothing: a text that is not JSON, or no array, or one with an item that
/// is no project.
pub proof fn law_garbage_lists_nothing(text: Seq<char>, items: Seq<Json>, i: int, ps: Seq<Pair>)
    requires
        lists(ps, report_count(text)),
        json_in(text) is Err || !(json_in(text)->Ok_0 is Arr) || (json_in(text)->Ok_0 == Json::Arr(
            items,
        ) && 0 <= i < items.len() && project_of(items[i]) is None),
    ensures
        ps.len() == 0,
{
    if json_in(text) is Ok && json_in(text)->Ok_0 is Arr {
        lemma_all_of_none(items, project_fn(), i);
    }
    if ps.len() > 0 {
        assert(times(ps, ps.last()) >= 1);
        assert(times(ps, ps.last()) == report_count(text)(ps.last()));
    }
}

/// A manifest lists what its two sections name, once for each, with the whole text that stands
/// there, or with nothing where there is no text.
pub proof fn law_a_manifest_lists_its_dependencies(
    text: Seq<char>,
    m: Map<Seq<char>, Json>,
    ps: Seq<Pair>,
    n: Seq<char>,
    v: Seq<char>,
)
    requires
        json_in(text) == Ok::<Json, Seq<char>>(Json::Obj(m)),
        lists(ps, manifest_count(text)),
    ensures
        ({
            let has = |info: Json|
                match info {
                    Json::Str(s) => v == s,
                    _ => v.len() == 0,
                };
            let count = |key: Seq<char>|
                if m.dom().contains(key) && m[key] is Obj && m[key]->Obj_0.dom().contains(n) && has(
                    m[key]->Obj_0[n],
                ) {
                    1int
                } else {
                    0int
                };
            times(ps, (n, v)) == count("dependencies"@) + count("devDependencies"@)
        }),
{
    assert(v.len() == 0 ==> v == Seq::<char>::empty());
    assert(times(ps, (n, v)) == manifest_count(text)((n, v)));
}

/// A text that is no manifest lists nothing.
pub proof fn law_no_manifest_lists_nothing(text: Seq<char>, ps: Seq<Pair>)
    requires
        lists(ps, manifest_count(text)),
        json_in(text) is Err || !(json_in(text)->Ok_0 is Obj),
    ensures
        ps.len() == 0,
{
    if ps.len() > 0 {
        assert(times(ps, ps.last()) >= 1);
        assert(times(ps, ps.last()) == manifest_count(text)(ps.last()));
    }
}

/// What the package manager lists is shown as it is, and the manifest only where it lists nothing.
pub proof fn law_the_manifest_stands_in(
    cli: Seq<Pair>,
    manifest: Seq<char>,
    ps: Seq<Pair>,
    qs: Seq<Pair>,
)
    requires
        shown(cli, Some(manifest), ps),
        shown(cli, None, qs),
    ensures
        cli.len() > 0 ==> ps == cli && qs == cli,
        cli.len() == 0 ==> lists(ps, manifest_count(manifest)) && qs.len() == 0,
{
}

/// The answer says whether the package manager is there, and gives each plugin in its place with
/// its own name and version.
pub proof fn law_plugins_are_shown_by_name(pnpm: bool, ps: Seq<Pair>, i: int)
    requires
        0 <= i < ps.len(),
    ensures
        list_doc(pnpm, ps) matches Json::Obj(m) && {
            &&& m["ok"@] == Json::Bool(true)
            &&& m["pnpm"@] == Json::Bool(pnpm)
            &&& m["plugins"@] matches Json::Arr(items) && items.len() == ps.len() && (items[i]
                matches Json::Obj(d) && d["name"@] == Json::Str(ps[i].0) && d["version"@]
                == Json::Str(ps[i].1))
        },
{
    reveal_strlit("ok");
    reveal_strlit("pnpm");
    reveal_strlit("plugins");
    reveal_strlit("name");
    reveal_strlit("version");
    assert("ok"@.len() == 2 && "pnpm"@.len() == 4 && "plugins"@.len() == 7 && "name"@.len() == 4
        && "version"@.len() == 7);
}

/// The package manager is there exactly when the CLI ended well, and only then counts what it
/// printed.
pub proof fn law_the_report_counts_only_if_all_went_well(out: Option<RawFinished>, ps: Seq<Pair>)
    requires
        listed(out, ps),
    ensures
        pnpm_found(out) <==> out is Some && out->0.exit.success,
        !(out is Some && out->0.exit.success) ==> ps.len() == 0,
        out is Some && out->0.exit.success ==> lists(ps, report_count(utf8_lossy(out->0.stdout@))),
{
}

} // verus!
