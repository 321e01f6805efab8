//! The page's background: the picture as the page gets it, and a cache of it.

use vstd::prelude::*;

use crate::decode::opt_view;
use crate::encoding::{base64_encode, base64_of, is_base64_char};

verus! {

/// A picture as the page got it, and when its file had been written, in nanoseconds from some
/// fixed moment.
#[derive(Debug)]
pub struct BgCache {
    pub mtime: i128,
    pub image: String,
}

/// The picture in the cache, if its file has not been written since.
pub open spec fn hit(cache: Option<BgCache>, mtime: Option<i128>) -> Option<Seq<char>> {
    match (cache, mtime) {
        (Some(c), Some(m)) => if c.mtime == m {
            Some(c.image@)
        } else {
            None
        },
        _ => None,
    }
}

/// A picture as the page gets it.
pub open spec fn data_uri(bytes: Seq<u8>) -> Seq<char> {
    "data:image/png;base64,"@ + base64_of(bytes)
}

/// A text that can stand between quotes in a JSON document as it is.
pub open spec fn needs_no_escape(s: Seq<char>) -> bool {
    forall|i: int|
        0 <= i < s.len() ==> (#[trigger] s[i]) != '"' && s[i] != '\\' && s[i] >= ' ' && s[i] <= '~'
}

/// The picture in the cache, if its file has not been written since.
pub fn cached_image(cache: &Option<BgCache>, mtime: Option<i128>) -> (r: Option<String>)
    ensures
        opt_view(r) == hit(*cache, mtime),
{
    match (cache, mtime) {
        (Some(c), Some(m)) => if c.mtime == m {
            Some(c.image.clone())
        } else {
            None
        },
        _ => None,
    }
}

/// The picture that a file holds, if it could be read. It is kept, if the file's time is known.
pub fn encode_image(cache: &mut Option<BgCache>, mtime: Option<i128>, bytes: Option<&[u8]>) -> (r:
    Option<String>)
    requires
        bytes matches Some(b) ==> b@.len() <= usize::MAX / 4 * 3,
    ensures
        match bytes {
            Some(b) => {
                &&& r matches Some(s) && s@ == data_uri(b@) && needs_no_escape(s@)
                &&& match mtime {
                    Some(m) => *final(cache) matches Some(c) && c.mtime == m && c.image@ == data_uri(
                        b@,
                    ),
                    None => *final(cache) == *old(cache),
                }
            },
            None => r is None && *final(cache) == *old(cache),
        },
{
    match bytes {
        Some(b) => {
            let encoded: String = base64_encode(b);
            let mut s: String = "data:image/png;base64,".to_owned();
            s.append(encoded.as_str());
            proof {
                reveal_strlit("data:image/png;base64,");
                let head = "data:image/png;base64,"@;
                assert forall|i: int| 0 <= i < s@.len() implies (#[trigger] s@[i]) != '"' && s@[i]
                    != '\\' && s@[i] >= ' ' && s@[i] <= '~' by {
                    if i >= head.len() {
                        assert(s@[i] == encoded@[i - head.len()]);
                        assert(is_base64_char(encoded@[i - head.len()]));
                    } else {
                        assert(s@[i] == head[i]);
                    }
                }
            }
            if let Some(m) = mtime {
                *cache = Some(BgCache { mtime: m, image: s.clone() });
            }
            Some(s)
        },
        None => None,
    }
}

/// The state of the background as the page gets it.
pub open spec fn bg_state_of(opacity: Seq<char>, image: Option<Seq<char>>) -> Seq<char> {
    "{\"opacity\":"@ + opacity + ",\"image\":"@ + match image {
        Some(s) => "\""@ + s + "\""@,
        None => "null"@,
    } + "}"@
}

/// The state of the background as the page gets it, from the text of its opacity and its picture.
pub fn bg_state_json(opacity: &str, image: Option<String>) -> (r: String)
    ensures
        r@ == bg_state_of(opacity@, opt_view(image)),
{
    let shown: String = match image {
        Some(s) => {
            let mut t: String = "\"".to_owned();
            t.append(s.as_str());
            t.append("\"");
            t
        },
        None => "null".to_owned(),
    };
    let mut r: String = "{\"opacity\":".to_owned();
    r.append(opacity);
    r.append(",\"image\":");
    r.append(shown.as_str());
    r.append("}");
    r
}

/// A picture that was encoded is found in the cache as long as its file has the same time, and
/// not when it has another.
pub proof fn law_the_cache_follows_the_file(
    after: Option<BgCache>,
    m: i128,
    bytes: Seq<u8>,
    now: Option<i128>,
)
    requires
        after matches Some(c) && c.mtime == m && c.image@ == data_uri(bytes),
    ensures
        hit(after, now) == if now == Some(m) {
            Some(data_uri(bytes))
        } else {
            None
        },
{
}

/// The page gets the opacity as it is, and the picture between quotes, or null without one.
pub proof fn law_the_page_gets_what_there_is(opacity: Seq<char>, image: Seq<char>)
    ensures
        bg_state_of(opacity, Some(image)) == "{\"opacity\":"@ + opacity + ",\"image\":"@ + ("\""@
            + image + "\""@) + "}"@,
        bg_state_of(opacity, None) == "{\"opacity\":"@ + opacity + ",\"image\":"@ + "null"@ + "}"@,
{
}

/// A picture is found exactly where the cache has one and its file has the time it was read at;
/// then it is the picture that was kept.
pub proof fn law_pictures_are_found_by_time(c: BgCache, mtime: i128)
    ensures
        hit(Some(c), Some(mtime)) is Some <==> c.mtime == mtime,
        hit(Some(c), Some(c.mtime)) == Some(c.image@),
        hit(Some(c), None) is None,
        hit(None, Some(mtime)) is None,
{
}

/// Different pictures are given to the page differently only by their base64 text, which stands
/// behind one and the same head.
pub proof fn law_pictures_differ_by_their_bytes(bytes: Seq<u8>)
    ensures
        data_uri(bytes) == "data:image/png;base64,"@ + base64_of(bytes),
{
}

} // verus!
