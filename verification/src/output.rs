//! The output envelope and the page-number reading of pagination links.

use vstd::prelude::*;

use crate::json::Json;
use crate::json::Jv;
use crate::json::lemma_jv_obj;
use crate::text::spec_starts_with;
use crate::text::spec_parse_u32;

verus! {

/// How the caller wants results rendered.
pub enum OutputFormat {
    Yaml,
    Json,
    Raw,
}

/// The standard success envelope: always `{data, meta}`. The meta object
/// is taken as given; where none is given, or the given one is no object,
/// an empty object stands in its place.
pub open spec fn spec_wrap_ok(data: Jv, meta: Option<Jv>) -> Jv {
    Jv::Obj(
        seq![
            ("data"@, data),
            (
                "meta"@,
                match meta {
                    Some(m) => if m is Obj {
                        m
                    } else {
                        Jv::Obj(Seq::empty())
                    },
                    None => Jv::Obj(Seq::empty()),
                },
            ),
        ],
    )
}

/// The mathematical value of an optional document.
pub open spec fn opt_jv(m: Option<Json>) -> Option<Jv> {
    match m {
        Some(j) => Some(j.jv()),
        None => None,
    }
}

/// Wraps a successful payload into the standard envelope.
pub fn wrap_ok(data: &Json, meta: Option<Json>) -> (r: Json)
    ensures
        r.jv() == spec_wrap_ok(data.jv(), opt_jv(meta)),
{
    broadcast use lemma_jv_obj;

    let mut root: Vec<(String, Json)> = Vec::new();
    root.push(("data".to_owned(), data.deep_copy()));
    match &meta {
        None => {
            let empty: Vec<(String, Json)> = Vec::new();
            proof {
                assert(Json::Obj(empty).jv()->Obj_0 =~= Seq::<(Seq<char>, Jv)>::empty());
            }
            root.push(("meta".to_owned(), Json::Obj(empty)));
            proof {
                assert(root.deep_view() =~~= spec_wrap_ok(data.jv(), opt_jv(meta))->Obj_0);
            }
            Json::Obj(root)
        },
        Some(m) => {
            let is_obj = match m {
                Json::Obj(_) => true,
                _ => false,
            };
            if is_obj {
                root.push(("meta".to_owned(), m.deep_copy()));
            } else {
                let empty: Vec<(String, Json)> = Vec::new();
                proof {
                    assert(Json::Obj(empty).jv()->Obj_0 =~= Seq::<(Seq<char>, Jv)>::empty());
                }
                root.push(("meta".to_owned(), Json::Obj(empty)));
            }
            proof {
                let mv = meta->Some_0.jv();
                assert(root.deep_view() =~~= seq![
                    ("data"@, data.jv()),
                    ("meta"@, if mv is Obj { mv } else { Jv::Obj(Seq::empty()) }),
                ]);
                assert(meta is Some);
                assert(opt_jv(meta) == Some(mv));
                assert(root.deep_view() =~~= spec_wrap_ok(data.jv(), opt_jv(meta))->Obj_0);
            }
            Json::Obj(root)
        },
    }
}

/// The pairs of the query string of `s` read as an absolute URL, or `None`
/// where `s` is no absolute URL.
pub uninterp spec fn abs_url_query_pairs(s: Seq<char>) -> Option<Seq<(Seq<char>, Seq<char>)>>;

/// The pairs of the query string of `s` read against a fixed opaque base,
/// or `None` where even that fails.
pub uninterp spec fn rel_url_query_pairs(s: Seq<char>) -> Option<Seq<(Seq<char>, Seq<char>)>>;

/// Relies on url's `Url::parse` and `Url::query_pairs`: parsing is a
/// function of the input string alone, and the pairs are the
/// `x-www-form-urlencoded` reading of the URL's query string.
#[verifier::external_body]
fn url_query_pairs_absolute(s: &str) -> (r: Option<Vec<(String, String)>>)
    ensures
        r.deep_view() == abs_url_query_pairs(s@),
{
    match url::Url::parse(s) {
        Ok(u) => Some(u.query_pairs().map(|(k, v)| (k.into_owned(), v.into_owned())).collect()),
        Err(_) => None,
    }
}

/// Relies on url's `Url::parse`, `Url::join` and `Url::query_pairs`: a
/// relative reference is resolved against a fixed base, so the result is a
/// function of the input string alone.
#[verifier::external_body]
fn url_query_pairs_relative(s: &str) -> (r: Option<Vec<(String, String)>>)
    ensures
        r.deep_view() == rel_url_query_pairs(s@),
{
    let base = match url::Url::parse("https://example.local/") {
        Ok(b) => b,
        Err(_) => return None,
    };
    match base.join(s) {
        Ok(u) => Some(u.query_pairs().map(|(k, v)| (k.into_owned(), v.into_owned())).collect()),
        Err(_) => None,
    }
}

/// Whether url's `Url::parse` accepts `s` as an absolute URL.
pub(crate) fn url_parses_absolutely(s: &str) -> (r: bool)
    ensures
        r == (abs_url_query_pairs(s@) is Some),
{
    match url_query_pairs_absolute(s) {
        Some(_) => true,
        None => false,
    }
}

/// The first `page` query parameter carrying a decimal `u32`, if any.
pub open spec fn page_from_pairs(pairs: Seq<(Seq<char>, Seq<char>)>) -> Option<u32>
    decreases pairs.len(),
{
    if pairs.len() == 0 {
        None
    } else if pairs[0].0 == "page"@ && spec_parse_u32(pairs[0].1) is Some {
        spec_parse_u32(pairs[0].1)
    } else {
        page_from_pairs(pairs.drop_first())
    }
}

/// What `parse_page_number` reads out of a URL string.
pub open spec fn spec_parse_page_number(s: Seq<char>) -> Option<u32> {
    let pairs = if spec_starts_with(s, "http://"@) || spec_starts_with(s, "https://"@) {
        abs_url_query_pairs(s)
    } else {
        rel_url_query_pairs(s)
    };
    match pairs {
        None => None,
        Some(ps) => page_from_pairs(ps),
    }
}

/// Extracts the `page` query parameter from an absolute or relative URL
/// string.
#[verifier::loop_isolation(false)]
pub fn parse_page_number(url: &str) -> (r: Option<u32>)
    ensures
        r == spec_parse_page_number(url@),
{
    let pairs_opt = if crate::text::str_starts_with(url, "http://") || crate::text::str_starts_with(
        url,
        "https://",
    ) {
        url_query_pairs_absolute(url)
    } else {
        url_query_pairs_relative(url)
    };
    match pairs_opt {
        None => None,
        Some(pairs) => {
            let ghost ps = pairs.deep_view();
            let n = pairs.len();
            let mut i: usize = 0;
            proof {
                assert(ps.skip(0) =~= ps);
            }
            while i < n
                invariant
                    0 <= i <= n,
                    page_from_pairs(ps) == page_from_pairs(ps.skip(i as int)),
                decreases n - i,
            {
                proof {
                    assert(ps.skip(i as int)[0] == ps[i as int]);
                    assert(ps.skip(i as int).drop_first() =~= ps.skip(i + 1));
                }
                if crate::text::str_eq(pairs[i].0.as_str(), "page") {
                    match crate::text::parse_u32(pairs[i].1.as_str()) {
                        Some(p) => {
                            return Some(p);
                        },
                        None => {},
                    }
                }
                i += 1;
            }
            proof {
                assert(ps.skip(n as int) =~= Seq::<(Seq<char>, Seq<char>)>::empty());
            }
            None
        },
    }
}

} // verus!
