//! The catalog of plugins: a document that lists them, bare or wrapped by the host that serves it,
//! and a cache of what it listed.

use serde_json::Value;
use vstd::prelude::*;
use vstd::utf8::*;

use crate::decode::{
    all_of, is_record, law_lists_are_read_item_by_item, lemma_all_of_none, lemma_all_of_step, member, member_of, record_shape, text_in,
    text_of, text_or_empty, text_or_empty_in,
};
use crate::encoding::{
    base64_bytes, base64_decode, from_utf8, lemma_utf8_len, utf8_fault,
};
use crate::json::{
    field, flag, get, json_in, json_of, list, no_fields, object, parse, plain, put, render, text,
    Json,
};
use crate::reply::{error_doc, error_reply, join, lemma_flat, scalar, writes};
use crate::text::{
    is_space, law_lines_are_joined, law_trimming_takes_the_edges, lemma_trimmed_len, trim, trimmed,
    unbreak, unbroken,
};
use crate::updater::FetchFault;

verus! {

// ---------------------------------------------------------------- entries

/// A plugin of the catalog.
#[derive(Debug)]
pub struct CatalogEntry {
    pub name: String,
    pub title: String,
    pub description: String,
    pub author: String,
    pub repo: String,
    pub version: String,
    pub dsh: String,
}

/// What a plugin of the catalog holds.
#[verifier::ext_equal]
pub struct EntryView {
    pub name: Seq<char>,
    pub title: Seq<char>,
    pub description: Seq<char>,
    pub author: Seq<char>,
    pub repo: Seq<char>,
    pub version: Seq<char>,
    pub dsh: Seq<char>,
}

impl View for CatalogEntry {
    type V = EntryView;

    open spec fn view(&self) -> EntryView {
        EntryView {
            name: self.name@,
            title: self.title@,
            description: self.description@,
            author: self.author@,
            repo: self.repo@,
            version: self.version@,
            dsh: self.dsh@,
        }
    }
}

impl Clone for CatalogEntry {
    fn clone(&self) -> (r: Self)
        ensures
            r@ == self@,
    {
        CatalogEntry {
            name: self.name.clone(),
            title: self.title.clone(),
            description: self.description.clone(),
            author: self.author.clone(),
            repo: self.repo.clone(),
            version: self.version.clone(),
            dsh: self.dsh.clone(),
        }
    }
}

/// An entry without any text.
pub open spec fn blank() -> EntryView {
    EntryView {
        name: Seq::empty(),
        title: Seq::empty(),
        description: Seq::empty(),
        author: Seq::empty(),
        repo: Seq::empty(),
        version: Seq::empty(),
        dsh: Seq::empty(),
    }
}

impl Default for CatalogEntry {
    fn default() -> (r: Self)
        ensures
            r@ == blank(),
    {
        CatalogEntry {
            name: String::new(),
            title: String::new(),
            description: String::new(),
            author: String::new(),
            repo: String::new(),
            version: String::new(),
            dsh: String::new(),
        }
    }
}

/// What some entries hold.
pub open spec fn entry_views(v: Seq<CatalogEntry>) -> Seq<EntryView> {
    v.map_values(|e: CatalogEntry| e@)
}

/// The entry that a document describes: its name must be there, the rest may be left out.
pub open spec fn entry_of(j: Json) -> Option<EntryView> {
    if !record_shape(j, 7) {
        None
    } else {
        match (
            text_in(member_of(j, 0, "name"@)),
            text_or_empty_in(member_of(j, 1, "title"@)),
            text_or_empty_in(member_of(j, 2, "description"@)),
            text_or_empty_in(member_of(j, 3, "author"@)),
            text_or_empty_in(member_of(j, 4, "repo"@)),
            text_or_empty_in(member_of(j, 5, "version"@)),
            text_or_empty_in(member_of(j, 6, "dsh"@)),
        ) {
            (
                Some(name),
                Some(title),
                Some(description),
                Some(author),
                Some(repo),
                Some(version),
                Some(dsh),
            ) => Some(EntryView { name, title, description, author, repo, version, dsh }),
            _ => None,
        }
    }
}

/// What one entry is made from, as a function.
pub open spec fn entry_fn() -> spec_fn(Json) -> Option<EntryView> {
    |j: Json| entry_of(j)
}

fn read_entry(v: &Value) -> (r: Option<CatalogEntry>)
    ensures
        match r {
            Some(e) => entry_of(json_of(*v)) == Some(e@),
            None => entry_of(json_of(*v)) is None,
        },
{
    if !is_record(v, 7) {
        return None;
    }
    match (
        text_of(member(v, 0, "name")),
        text_or_empty(member(v, 1, "title")),
        text_or_empty(member(v, 2, "description")),
        text_or_empty(member(v, 3, "author")),
        text_or_empty(member(v, 4, "repo")),
        text_or_empty(member(v, 5, "version")),
        text_or_empty(member(v, 6, "dsh")),
    ) {
        (
            Some(name),
            Some(title),
            Some(description),
            Some(author),
            Some(repo),
            Some(version),
            Some(dsh),
        ) => Some(CatalogEntry { name, title, description, author, repo, version, dsh }),
        _ => None,
    }
}

fn read_entries(items: &Vec<Value>) -> (r: Option<Vec<CatalogEntry>>)
    ensures
        ({
            let all = all_of(items@.map_values(|x: Value| json_of(x)), entry_fn());
            match r {
                Some(es) => all == Some(entry_views(es@)),
                None => all is None,
            }
        }),
{
    let ghost js = items@.map_values(|x: Value| json_of(x));
    let mut out: Vec<CatalogEntry> = Vec::new();
    let mut i: usize = 0;
    assert(js.take(0) == Seq::<Json>::empty());
    assert(entry_views(out@) == Seq::<EntryView>::empty());
    while i < items.len()
        invariant
            i <= items@.len(),
            js == items@.map_values(|x: Value| json_of(x)),
            all_of(js.take(i as int), entry_fn()) == Some(entry_views(out@)),
        decreases items@.len() - i,
    {
        proof {
            lemma_all_of_step(js, entry_fn(), i as int);
        }
        match read_entry(&items[i]) {
            Some(e) => {
                let ghost before = entry_views(out@);
                out.push(e);
                assert(entry_views(out@) == before.push(e@));
            },
            None => {
                proof {
                    lemma_all_of_none(js, entry_fn(), i as int);
                }
                return None;
            },
        }
        i += 1;
    }
    assert(js.take(js.len() as int) == js);
    Some(out)
}

// ---------------------------------------------------------------- documents

/// Where the catalog is served, unless another place is set.
pub fn catalog_url(set: Option<String>) -> (r: String)
    ensures
        r@ == match set {
            Some(s) => s@,
            None => "https://api.github.com/repos/QWQ123321123/dsh-desktop/contents/catalog.json"@,
        },
{
    match set {
        Some(s) => s,
        None => "https://api.github.com/repos/QWQ123321123/dsh-desktop/contents/catalog.json".to_owned(),
    }
}

/// The list of plugins that a document has.
pub open spec fn plugins_in(j: Json) -> Option<Seq<Json>> {
    match field(j, "plugins"@) {
        Some(Json::Arr(items)) => Some(items),
        _ => None,
    }
}

/// The base64 text that a document without a list of plugins wraps. Its host breaks it into lines.
pub open spec fn content_in(j: Json) -> Option<Seq<char>> {
    match field(j, "content"@) {
        Some(Json::Str(s)) => Some(s),
        _ => None,
    }
}

/// What is said of a document that is neither a catalog nor wraps one.
pub open spec fn unknown_form_text() -> Seq<char> {
    "目录格式无法识别（既不是 {plugins:[...]} 也不是 contents API 包装）"@
}

/// The catalog that a text holds, or what is said of one that holds none. What a document wraps is
/// shorter than the document.
pub open spec fn catalog_of(body: Seq<char>) -> Result<Seq<EntryView>, Seq<char>>
    decreases body.len(),
{
    match json_in(body) {
        Err(e) => Err("目录 JSON 解析失败："@ + e),
        Ok(j) => match plugins_in(j) {
            Some(items) => match all_of(items, entry_fn()) {
                Some(es) => Ok(es),
                None => Err("目录条目解析失败："@ + "malformed entry"@),
            },
            None => match content_in(j) {
                None => Err(unknown_form_text()),
                Some(s) => match base64_bytes(trimmed(unbroken(s))) {
                    Err(e) => Err("目录 base64 解码失败："@ + e),
                    Ok(bytes) => if !valid_utf8(bytes) {
                        Err("目录编码异常："@ + utf8_fault(bytes))
                    } else if decode_utf8(bytes).len() < body.len() {
                        catalog_of(decode_utf8(bytes))
                    } else {
                        Err(Seq::empty())
                    },
                },
            },
        },
    }
}

/// A text is the document in which a host wraps another text.
pub open spec fn wraps(outer: Seq<char>, inner: Seq<char>) -> bool {
    &&& json_in(outer) matches Ok(j)
    &&& plugins_in(j) is None
    &&& content_in(j) matches Some(s)
    &&& base64_bytes(trimmed(unbroken(s))) matches Ok(bytes)
    &&& valid_utf8(bytes)
    &&& decode_utf8(bytes) == inner
}

/// What a catalog came to.
pub open spec fn catalog_view(r: Result<Vec<CatalogEntry>, String>) -> Result<
    Seq<EntryView>,
    Seq<char>,
> {
    match r {
        Ok(es) => Ok(entry_views(es@)),
        Err(e) => Err(e@),
    }
}

/// The catalog that a text holds. A text that wraps another holds what the other does.
pub fn parse_catalog(body: &str) -> (r: Result<Vec<CatalogEntry>, String>)
    ensures
        catalog_view(r) == catalog_of(body@),
        forall|inner: Seq<char>| #[trigger]
            wraps(body@, inner) ==> catalog_view(r) == catalog_of(inner),
    decreases body@.len(),
{
    let v: Value = match parse(body) {
        Ok(v) => v,
        Err(e) => return Err(join("目录 JSON 解析失败：", e.as_str())),
    };
    let ghost j = json_of(v);
    if let Some(found) = get(&v, "plugins") {
        if let Some(items) = found.as_array() {
            assert(plugins_in(j) == Some(items@.map_values(|x: Value| json_of(x))));
            return match read_entries(items) {
                Some(es) => Ok(es),
                None => Err(join("目录条目解析失败：", "malformed entry")),
            };
        }
    }
    assert(plugins_in(j) is None);
    let content: &str = match get(&v, "content") {
        Some(found) => match found.as_str() {
            Some(s) => s,
            None => {
                return Err(
                    "目录格式无法识别（既不是 {plugins:[...]} 也不是 contents API 包装）".to_owned(),
                )
            },
        },
        None => {
            return Err("目录格式无法识别（既不是 {plugins:[...]} 也不是 contents API 包装）".to_owned())
        },
    };
    proof {
        assert(field(j, "content"@) == Some(Json::Str(content@)));
        assert(content@.len() < body@.len());
        lemma_trimmed_len(unbroken(content@));
    }
    let line: String = unbreak(content);
    let decoded: Vec<u8> = match base64_decode(trim(line.as_str())) {
        Ok(b) => b,
        Err(e) => return Err(join("目录 base64 解码失败：", e.as_str())),
    };
    let ghost bytes = decoded@;
    let inner: String = match from_utf8(decoded) {
        Ok(s) => s,
        Err(e) => return Err(join("目录编码异常：", e.as_str())),
    };
    proof {
        lemma_utf8_len(inner@);
        decode_utf8_encode_utf8(bytes);
        assert(inner@.len() < body@.len());
    }
    parse_catalog(inner.as_str())
}

// ---------------------------------------------------------------- the endpoint

/// What the catalog listed when it was fetched.
#[derive(Debug)]
pub struct CatalogCache {
    /// When it was fetched, in nanoseconds on a clock that does not go back.
    pub at: u128,
    pub entries: Vec<CatalogEntry>,
}

/// For how many nanoseconds the cache is used: ten minutes.
pub const CACHE_NS: u128 = 600_000_000_000;

/// What the cache holds, if it is fresh.
pub open spec fn fresh(cache: Option<CatalogCache>, now: u128) -> Option<Seq<EntryView>> {
    match cache {
        Some(c) => if now - c.at < CACHE_NS {
            Some(entry_views(c.entries@))
        } else {
            None
        },
        None => None,
    }
}

/// An entry, in a document.
pub open spec fn entry_doc(e: EntryView) -> Json {
    Json::Obj(
        no_fields().insert("name"@, Json::Str(e.name)).insert("title"@, Json::Str(e.title)).insert(
            "description"@,
            Json::Str(e.description),
        ).insert("author"@, Json::Str(e.author)).insert("repo"@, Json::Str(e.repo)).insert(
            "version"@,
            Json::Str(e.version),
        ).insert("dsh"@, Json::Str(e.dsh)),
    )
}

/// What the catalog endpoint answers.
pub open spec fn catalog_doc(es: Seq<EntryView>) -> Json {
    Json::Obj(
        no_fields().insert("ok"@, Json::Bool(true)).insert(
            "plugins"@,
            Json::Arr(es.map_values(|e: EntryView| entry_doc(e))),
        ),
    )
}

fn write_entry(e: &CatalogEntry) -> (r: Value)
    ensures
        json_of(r) == entry_doc(e@),
{
    let mut v: Value = object();
    put(&mut v, "name", text(e.name.as_str()));
    put(&mut v, "title", text(e.title.as_str()));
    put(&mut v, "description", text(e.description.as_str()));
    put(&mut v, "author", text(e.author.as_str()));
    put(&mut v, "repo", text(e.repo.as_str()));
    put(&mut v, "version", text(e.version.as_str()));
    put(&mut v, "dsh", text(e.dsh.as_str()));
    v
}

/// The answer that lists some entries.
pub fn catalog_answer(entries: &Vec<CatalogEntry>) -> (r: String)
    ensures
        writes(r@, catalog_doc(entry_views(entries@))),
{
    let mut items: Vec<Value> = Vec::new();
    let ghost docs = entry_views(entries@).map_values(|e: EntryView| entry_doc(e));
    let mut i: usize = 0;
    while i < entries.len()
        invariant
            i <= entries@.len(),
            docs == entry_views(entries@).map_values(|e: EntryView| entry_doc(e)),
            items@.map_values(|x: Value| json_of(x)) == docs.take(i as int),
        decreases entries@.len() - i,
    {
        let ghost done = items@.map_values(|x: Value| json_of(x));
        let item: Value = write_entry(&entries[i]);
        items.push(item);
        proof {
            assert(items@.map_values(|x: Value| json_of(x)) == done.push(json_of(item)));
            assert(docs[i as int] == entry_doc(entries@[i as int]@));
            assert(docs.take(i + 1) == docs.take(i as int).push(docs[i as int]));
        }
        i += 1;
    }
    assert(docs.take(docs.len() as int) == docs);
    let mut v: Value = object();
    put(&mut v, "ok", flag(true));
    put(&mut v, "plugins", list(items));
    proof {
        let m = json_of(v)->Obj_0;
        assert forall|k: Seq<char>| #[trigger] m.dom().contains(k) implies plain(m[k], 99) by {
            if k == "plugins"@ {
                assert forall|n: int| 0 <= n < docs.len() implies plain(#[trigger] docs[n], 98) by {
                    lemma_flat(docs[n]->Obj_0, 98);
                }
            } else {
                assert(scalar(m[k]));
            }
        }
    }
    render(&v)
}

/// The catalog endpoint's answer from the cache, if it is fresh.
pub fn cached_catalog(cache: &Option<CatalogCache>, now: u128) -> (r: Option<String>)
    ensures
        match fresh(*cache, now) {
            Some(es) => r matches Some(a) && writes(a@, catalog_doc(es)),
            None => r is None,
        },
{
    match cache {
        Some(c) => {
            if now < c.at || now - c.at < CACHE_NS {
                Some(catalog_answer(&c.entries))
            } else {
                None
            }
        },
        None => None,
    }
}

/// The body that came of asking for the catalog, or what is said when nothing came. A body that
/// could not be read counts as empty.
pub open spec fn catalog_body(fetched: Result<String, FetchFault>) -> Result<Seq<char>, Seq<char>> {
    match fetched {
        Ok(body) => Ok(body@),
        Err(FetchFault::Body(_)) => Ok(Seq::empty()),
        Err(FetchFault::Network(e)) => Err("无法获取插件目录（"@ + e@ + "）。请检查网络后重试。"@),
    }
}

/// What is known of the catalog after asking for it.
pub open spec fn fetched_catalog(fetched: Result<String, FetchFault>) -> Result<
    Seq<EntryView>,
    Seq<char>,
> {
    match catalog_body(fetched) {
        Ok(body) => catalog_of(body),
        Err(e) => Err(e),
    }
}

/// The catalog endpoint answers, and fills or keeps the cache, as the catalog came out.
pub open spec fn catalog_answered(
    c: Result<Seq<EntryView>, Seq<char>>,
    now: u128,
    before: Option<CatalogCache>,
    after: Option<CatalogCache>,
    answer: Seq<char>,
) -> bool {
    match c {
        Ok(es) => {
            &&& writes(answer, catalog_doc(es))
            &&& after matches Some(kept) && kept.at == now && entry_views(kept.entries@) == es
        },
        Err(e) => writes(answer, error_doc(e)) && after == before,
    }
}

/// Answers with what the catalog came to, and keeps it if it came well.
pub fn answer_catalog(
    parsed: Result<Vec<CatalogEntry>, String>,
    now: u128,
    cache: &mut Option<CatalogCache>,
) -> (r: String)
    ensures
        catalog_answered(catalog_view(parsed), now, *old(cache), *final(cache), r@),
{
    match parsed {
        Ok(entries) => {
            let a: String = catalog_answer(&entries);
            *cache = Some(CatalogCache { at: now, entries });
            a
        },
        Err(e) => error_reply(e.as_str()),
    }
}

/// The catalog endpoint, when the cache is not fresh, from what came of asking for the catalog.
pub fn handle_catalog(
    fetched: Result<String, FetchFault>,
    now: u128,
    cache: &mut Option<CatalogCache>,
) -> (r: String)
    ensures
        catalog_answered(fetched_catalog(fetched), now, *old(cache), *final(cache), r@),
{
    let parsed: Result<Vec<CatalogEntry>, String> = match fetched {
        Ok(body) => parse_catalog(body.as_str()),
        Err(FetchFault::Body(_)) => {
            proof {
                reveal_strlit("");
                assert(""@ == Seq::<char>::empty());
            }
            parse_catalog("")
        },
        Err(FetchFault::Network(e)) => {
            let mut s: String = "无法获取插件目录（".to_owned();
            s.append(e.as_str());
            s.append("）。请检查网络后重试。");
            Err(s)
        },
    };
    answer_catalog(parsed, now, cache)
}

/// For ten minutes after a catalog came, the cache gives what it listed, and after them nothing.
pub proof fn law_the_cache_gives_what_came(
    es: Seq<EntryView>,
    at: u128,
    before: Option<CatalogCache>,
    after: Option<CatalogCache>,
    answer: Seq<char>,
    now: u128,
)
    requires
        catalog_answered(Ok(es), at, before, after, answer),
    ensures
        now - at < CACHE_NS ==> fresh(after, now) == Some(es),
        now - at >= CACHE_NS ==> fresh(after, now) is None,
{
}

// ---------------------------------------------------------------- laws

/// An entry is read by the names of its fields: each part is the text of its own field, whole, and
/// empty where the field is left out. Only the name must be there.
pub proof fn law_entries_are_read_by_name(m: Map<Seq<char>, Json>, e: EntryView)
    ensures
        entry_of(Json::Obj(m)) == Some(e) <==> {
            &&& m.dom().contains("name"@) && m["name"@] == Json::Str(e.name)
            &&& if m.dom().contains("title"@) {
                m["title"@] == Json::Str(e.title)
            } else {
                e.title.len() == 0
            }
            &&& if m.dom().contains("description"@) {
                m["description"@] == Json::Str(e.description)
            } else {
                e.description.len() == 0
            }
            &&& if m.dom().contains("author"@) {
                m["author"@] == Json::Str(e.author)
            } else {
                e.author.len() == 0
            }
            &&& if m.dom().contains("repo"@) {
                m["repo"@] == Json::Str(e.repo)
            } else {
                e.repo.len() == 0
            }
            &&& if m.dom().contains("version"@) {
                m["version"@] == Json::Str(e.version)
            } else {
                e.version.len() == 0
            }
            &&& if m.dom().contains("dsh"@) {
                m["dsh"@] == Json::Str(e.dsh)
            } else {
                e.dsh.len() == 0
            }
        },
{
    let none = Seq::<char>::empty();
    assert(e.title.len() == 0 ==> e.title == none);
    assert(e.description.len() == 0 ==> e.description == none);
    assert(e.author.len() == 0 ==> e.author == none);
    assert(e.repo.len() == 0 ==> e.repo == none);
    assert(e.version.len() == 0 ==> e.version == none);
    assert(e.dsh.len() == 0 ==> e.dsh == none);
}

proof fn lemma_entry_keys()
    ensures
        "name"@ != "repo"@,
        "name"@.len() == 4,
        "title"@.len() == 5,
        "description"@.len() == 11,
        "author"@.len() == 6,
        "repo"@.len() == 4,
        "version"@.len() == 7,
        "dsh"@.len() == 3,
{
    reveal_strlit("name");
    reveal_strlit("title");
    reveal_strlit("description");
    reveal_strlit("author");
    reveal_strlit("repo");
    reveal_strlit("version");
    reveal_strlit("dsh");
    assert("name"@[0] != "repo"@[0]);
}

/// An entry that is answered reads back as itself, each part under the name under which it came.
pub proof fn law_entries_read_back(e: EntryView)
    ensures
        entry_of(entry_doc(e)) == Some(e),
        entry_doc(e) matches Json::Obj(m) && {
            &&& m["name"@] == Json::Str(e.name)
            &&& m["title"@] == Json::Str(e.title)
            &&& m["description"@] == Json::Str(e.description)
            &&& m["author"@] == Json::Str(e.author)
            &&& m["repo"@] == Json::Str(e.repo)
            &&& m["version"@] == Json::Str(e.version)
            &&& m["dsh"@] == Json::Str(e.dsh)
        },
{
    lemma_entry_keys();
    law_entries_are_read_by_name(entry_doc(e)->Obj_0, e);
}

/// A catalog lists its plugins in an array, and each is read in its place.
pub proof fn law_catalogs_list_plugins(
    body: Seq<char>,
    m: Map<Seq<char>, Json>,
    items: Seq<Json>,
    es: Seq<EntryView>,
)
    requires
        json_in(body) == Ok::<Json, Seq<char>>(Json::Obj(m)),
        m.dom().contains("plugins"@),
        m["plugins"@] == Json::Arr(items),
    ensures
        catalog_of(body) == Ok::<Seq<EntryView>, Seq<char>>(es) <==> es.len() == items.len()
            && forall|i: int| 0 <= i < items.len() ==> entry_of(#[trigger] items[i]) == Some(es[i]),
{
    law_lists_are_read_item_by_item(items, entry_fn(), es);
    assert(forall|i: int|
        0 <= i < items.len() ==> entry_fn()(#[trigger] items[i]) == entry_of(items[i]));
    assert(plugins_in(Json::Obj(m)) == Some(items));
}

/// A catalog that was answered is one that reads back: its text, asked for again, holds the same
/// entries, all of them and in their order.
pub proof fn law_catalogs_read_back(answer: Seq<char>, es: Seq<EntryView>)
    requires
        json_in(answer) == Ok::<Json, Seq<char>>(catalog_doc(es)),
    ensures
        catalog_of(answer) == Ok::<Seq<EntryView>, Seq<char>>(es),
{
    reveal_strlit("ok");
    reveal_strlit("plugins");
    assert("ok"@.len() == 2 && "plugins"@.len() == 7);
    let m = catalog_doc(es)->Obj_0;
    let items = es.map_values(|e: EntryView| entry_doc(e));
    assert(m["plugins"@] == Json::Arr(items));
    assert forall|i: int| 0 <= i < items.len() implies entry_of(#[trigger] items[i]) == Some(
        es[i],
    ) by {
        law_entries_read_back(es[i]);
        assert(items[i] == entry_doc(es[i]));
    }
    law_catalogs_list_plugins(answer, m, items, es);
}

/// The cache is used for less than ten minutes, counted in nanoseconds.
pub proof fn law_the_cache_lasts_ten_minutes(c: CatalogCache, now: u128)
    ensures
        fresh(Some(c), now) is Some <==> now - c.at < 600 * 1_000_000_000,
        fresh(Some(c), now) matches Some(es) ==> es.len() == c.entries@.len() && forall|i: int|
            0 <= i < es.len() ==> #[trigger] es[i] == c.entries@[i]@,
        fresh(None, now) is None,
{
}

proof fn lemma_one_line(a: Seq<char>)
    requires
        forall|i: int| 0 <= i < a.len() ==> !is_space(#[trigger] a[i]),
    ensures
        forall|i: int| 0 <= i < a.len() ==> a[i] != '\n' && a[i] != '\r',
        unbroken(a) == a,
        trimmed(a) == a,
{
    let none = Seq::<char>::empty();
    assert forall|i: int| 0 <= i < a.len() implies a[i] != '\n' && a[i] != '\r' by {
        assert(!is_space(a[i]));
    }
    law_lines_are_joined(a, none);
    if a.len() > 0 {
        assert(!is_space(a[0]) && !is_space(a[a.len() - 1]));
    }
    law_trimming_takes_the_edges(none, a, none);
    assert(none + a + none == a);
}

proof fn lemma_content(a: Seq<char>, b: Seq<char>)
    requires
        forall|i: int| 0 <= i < a.len() ==> !is_space(#[trigger] a[i]),
        forall|i: int| 0 <= i < b.len() ==> !is_space(#[trigger] b[i]),
    ensures
        trimmed(unbroken(a + b)) == a + b,
        trimmed(unbroken(a + seq!['\n'] + b)) == a + b,
{
    let t = a + b;
    assert(unbroken(t) == t && trimmed(t) == t) by {
        assert forall|i: int| 0 <= i < t.len() implies !is_space(#[trigger] t[i]) by {
            if i < a.len() {
                assert(t[i] == a[i]);
            } else {
                assert(t[i] == b[i - a.len()]);
            }
        }
        lemma_one_line(t);
    }
    assert(unbroken(a + seq!['\n'] + b) == t) by {
        lemma_one_line(a);
        lemma_one_line(b);
        law_lines_are_joined(a, b);
    }
}

/// What a host wraps holds what it wraps: a document without a list of plugins, whose content is
/// base64 text, broken into lines or not, is read as the text that the base64 writes.
pub proof fn law_wrapped_catalogs_are_unwrapped(
    outer: Seq<char>,
    m: Map<Seq<char>, Json>,
    a: Seq<char>,
    b: Seq<char>,
    broken: bool,
    bytes: Seq<u8>,
    inner: Seq<char>,
)
    requires
        json_in(outer) == Ok::<Json, Seq<char>>(Json::Obj(m)),
        m.dom().contains("plugins"@) ==> !(m["plugins"@] is Arr),
        m.dom().contains("content"@),
        m["content"@] == Json::Str(
            if broken {
                a + seq!['\n'] + b
            } else {
                a + b
            },
        ),
        forall|i: int| 0 <= i < a.len() ==> !is_space(#[trigger] a[i]),
        forall|i: int| 0 <= i < b.len() ==> !is_space(#[trigger] b[i]),
        base64_bytes(a + b) == Ok::<Seq<u8>, Seq<char>>(bytes),
        bytes == encode_utf8(inner),
        inner.len() < outer.len(),
    ensures
        catalog_of(outer) == catalog_of(inner),
{
    lemma_content(a, b);
    let s = content_in(Json::Obj(m))->0;
    assert(plugins_in(Json::Obj(m)) is None);
    assert(trimmed(unbroken(s)) == a + b);
    encode_utf8_valid_utf8(inner);
    encode_utf8_decode_utf8(inner);
}

/// What is no catalog says why: with the parser's own words, or the decoder's.
pub proof fn law_faulty_catalogs_say_why(body: Seq<char>, m: Map<Seq<char>, Json>, s: Seq<char>)
    ensures
        json_in(body) matches Err(e) ==> catalog_of(body) == Err::<Seq<EntryView>, Seq<char>>(
            "目录 JSON 解析失败："@ + e,
        ),
        json_in(body) == Ok::<Json, Seq<char>>(Json::Obj(m)) && !m.dom().contains("plugins"@) && !m.dom().contains(
            "content"@,
        ) ==> catalog_of(body) == Err::<Seq<EntryView>, Seq<char>>(
            "目录格式无法识别（既不是 {plugins:[...]} 也不是 contents API 包装）"@,
        ),
        json_in(body) == Ok::<Json, Seq<char>>(Json::Obj(m)) && !m.dom().contains("plugins"@) && m.dom().contains(
            "content"@,
        ) && m["content"@] == Json::Str(s) ==> (base64_bytes(trimmed(unbroken(s))) matches Err(e)
            ==> catalog_of(body) == Err::<Seq<EntryView>, Seq<char>>("目录 base64 解码失败："@ + e)),
{
}

/// What came of asking for the catalog is read as it came; without an answer the fault is told in
/// its own words.
pub proof fn law_what_came_is_read(body: String, e: String)
    ensures
        fetched_catalog(Ok(body)) == catalog_of(body@),
        fetched_catalog(Err(FetchFault::Network(e))) == Err::<Seq<EntryView>, Seq<char>>(
            "无法获取插件目录（"@ + e@ + "）。请检查网络后重试。"@,
        ),
        fetched_catalog(Err(FetchFault::Body(e))) == catalog_of(Seq::empty()),
{
}

/// An entry may give its parts in order, without their names: those that are left out at the end
/// are empty. One without a name, or with too many parts, is none.
pub proof fn law_entries_may_be_given_in_order(e: EntryView, items: Seq<Json>)
    ensures
        items.len() > 7 || items.len() == 0 ==> entry_of(Json::Arr(items)) is None,
        entry_of(
            Json::Arr(
                seq![
                    Json::Str(e.name),
                    Json::Str(e.title),
                    Json::Str(e.description),
                    Json::Str(e.author),
                    Json::Str(e.repo),
                    Json::Str(e.version),
                    Json::Str(e.dsh),
                ],
            ),
        ) == Some(e),
        entry_of(Json::Arr(seq![Json::Str(e.name), Json::Str(e.title)])) == Some(
            EntryView { name: e.name, title: e.title, ..blank() },
        ),
        entry_of(Json::Arr(seq![Json::Str(e.name)])) == Some(EntryView { name: e.name, ..blank() }),
{
}

/// Whoever reads the answer has the catalog: one that came well holds the entries that came, and
/// they are kept; a fault is told, and what was kept stays.
pub proof fn law_the_answer_is_the_catalog(
    es: Seq<EntryView>,
    e: Seq<char>,
    now: u128,
    before: Option<CatalogCache>,
    after: Option<CatalogCache>,
    answer: Seq<char>,
)
    ensures
        catalog_answered(Ok(es), now, before, after, answer) ==> catalog_of(answer) == Ok::<
            Seq<EntryView>,
            Seq<char>,
        >(es) && after is Some && entry_views(after->0.entries@) == es && after->0.at == now,
        catalog_answered(Err(e), now, before, after, answer) ==> after == before && json_in(answer)
            == Ok::<Json, Seq<char>>(error_doc(e)),
{
    if catalog_answered(Ok(es), now, before, after, answer) {
        law_catalogs_read_back(answer, es);
    }
}

} // verus!
