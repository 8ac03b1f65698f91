//! The field projector: reduces a JSON document to the parts that a list of
//! selectors asks for.
//!
//! A selector is either a dotted path (one segment may carry a trailing
//! `[*]` array wildcard), or one of the shorthand groups `@ids`, `@urls`,
//! `@files`, `@thumbnails`, `@all`. Every selector is evaluated against the
//! original document and its contribution is shallow-merged into the result;
//! later selectors win at equal keys.

use vstd::prelude::*;

use crate::json::Json;
use crate::json::Jv;
use crate::json::obj_get;
use crate::json::obj_set;
use crate::json::obj_get_field;
use crate::json::obj_put;
use crate::json::lemma_jv_arr;
use crate::json::lemma_jv_obj;
use crate::text::spec_has_wildcard_suffix;
use crate::text::spec_trim_wild;
use crate::text::spec_dot_split;
use crate::text::spec_contains;
use crate::text::spec_ends_with;

verus! {

broadcast use vstd::std_specs::vec::axiom_vec_index_decreases;

/// Which fields a shorthand group keeps, judged by the field's name.
pub enum FieldRule {
    Ids,
    Urls,
    Named(Vec<String>),
}

/// The mathematical shape of a `FieldRule`.
pub enum KeyRule {
    Ids,
    Urls,
    Named(Seq<Seq<char>>),
}

impl FieldRule {
    /// The mathematical value of this rule.
    pub open spec fn rv(self) -> KeyRule {
        match self {
            FieldRule::Ids => KeyRule::Ids,
            FieldRule::Urls => KeyRule::Urls,
            FieldRule::Named(ks) => KeyRule::Named(ks.deep_view()),
        }
    }
}

/// Name heuristic for identifier-like fields.
pub open spec fn is_id_key(k: Seq<char>) -> bool {
    k == "id"@ || spec_ends_with(k, "_id"@) || k == "ids"@
}

/// Name heuristic for link-like fields.
pub open spec fn is_url_key(k: Seq<char>) -> bool {
    spec_contains(k, "url"@) || spec_contains(k, "link"@) || spec_contains(k, "href"@)
}

/// Whether a field named `k` is kept under the rule.
pub open spec fn rule_matches(rule: KeyRule, k: Seq<char>) -> bool {
    match rule {
        KeyRule::Ids => is_id_key(k),
        KeyRule::Urls => is_url_key(k),
        KeyRule::Named(ks) => exists|i: int| 0 <= i < ks.len() && #[trigger] ks[i] == k,
    }
}

/// Tests a field name against a rule.
#[verifier::loop_isolation(false)]
pub fn rule_match_exec(rule: &FieldRule, k: &str) -> (r: bool)
    ensures
        r == rule_matches(rule.rv(), k@),
{
    match rule {
        FieldRule::Ids => crate::text::str_eq(k, "id") || crate::text::str_ends_with(k, "_id")
            || crate::text::str_eq(k, "ids"),
        FieldRule::Urls => crate::text::str_contains(k, "url") || crate::text::str_contains(
            k,
            "link",
        ) || crate::text::str_contains(k, "href"),
        FieldRule::Named(ks) => {
            let n = ks.len();
            let mut i: usize = 0;
            while i < n
                invariant
                    0 <= i <= n,
                    n == ks@.len(),
                    forall|j: int| 0 <= j < i ==> #[trigger] ks.deep_view()[j] != k@,
                decreases n - i,
            {
                if crate::text::str_eq(ks[i].as_str(), k) {
                    proof {
                        assert(ks.deep_view()[i as int] == k@);
                        assert(rule.rv() == KeyRule::Named(ks.deep_view()));
                        assert((rule.rv()->Named_0)[i as int] == k@);
                    }
                    return true;
                }
                i += 1;
            }
            false
        },
    }
}

/// The fields of `fs` whose names the rule keeps, in order.
pub open spec fn keep_fields(rule: KeyRule, fs: Seq<(Seq<char>, Jv)>) -> Seq<(Seq<char>, Jv)>
    decreases fs.len(),
{
    if fs.len() == 0 {
        Seq::empty()
    } else {
        (if rule_matches(rule, fs[0].0) {
            seq![fs[0]]
        } else {
            Seq::empty()
        }) + keep_fields(rule, fs.drop_first())
    }
}

/// What a shorthand group extracts: the kept fields of an object, the
/// pointwise extraction over an array, and nothing from a scalar.
pub open spec fn spec_extract(rule: KeyRule, j: Jv) -> Jv
    decreases j,
{
    match j {
        Jv::Obj(fs) => Jv::Obj(keep_fields(rule, fs)),
        Jv::Arr(es) => Jv::Arr(
            Seq::new(
                es.len(),
                |i: int|
                    if 0 <= i < es.len() {
                        spec_extract(rule, es[i])
                    } else {
                        Jv::Null
                    },
            ),
        ),
        _ => Jv::Null,
    }
}

/// Extracts the fields a shorthand group keeps, recursing through arrays.
#[verifier::loop_isolation(false)]
pub fn extract_fields(rule: &FieldRule, input: &Json) -> (r: Json)
    ensures
        r.jv() == spec_extract(rule.rv(), input.jv()),
    decreases input,
{
    broadcast use lemma_jv_arr, lemma_jv_obj;

    match input {
        Json::Obj(m) => {
            let ghost fs = m.deep_view();
            let n = m.len();
            let mut out: Vec<(String, Json)> = Vec::new();
            let mut i: usize = 0;
            proof {
                assert(fs.skip(0) =~= fs);
                assert(out.deep_view() + keep_fields(rule.rv(), fs) =~= keep_fields(rule.rv(), fs));
            }
            while i < n
                invariant
                    0 <= i <= n,
                    out.deep_view() + keep_fields(rule.rv(), fs.skip(i as int)) == keep_fields(
                        rule.rv(),
                        fs,
                    ),
                decreases n - i,
            {
                let ghost pre = out.deep_view();
                proof {
                    assert(fs.skip(i as int)[0] == fs[i as int]);
                    assert(fs.skip(i as int).drop_first() =~= fs.skip(i + 1));
                }
                if rule_match_exec(rule, m[i].0.as_str()) {
                    let key = m[i].0.clone();
                    let val = m[i].1.deep_copy();
                    out.push((key, val));
                    proof {
                        assert(out.deep_view() =~= pre.push(fs[i as int]));
                        assert(out.deep_view() + keep_fields(rule.rv(), fs.skip(i + 1)) =~= pre + (
                        seq![fs[i as int]] + keep_fields(rule.rv(), fs.skip(i + 1))));
                    }
                } else {
                    proof {
                        assert(out.deep_view() + keep_fields(rule.rv(), fs.skip(i + 1)) =~= pre + (
                        Seq::empty() + keep_fields(rule.rv(), fs.skip(i + 1))));
                    }
                }
                i += 1;
            }
            proof {
                assert(fs.skip(n as int) =~= Seq::<(Seq<char>, Jv)>::empty());
                assert(out.deep_view() =~= out.deep_view() + keep_fields(rule.rv(), fs.skip(n as int)));
            }
            Json::Obj(out)
        },
        Json::Arr(v) => {
            let n = v.len();
            let mut out: Vec<Json> = Vec::new();
            let mut i: usize = 0;
            while i < n
                invariant
                    0 <= i <= n,
                    out@.len() == i,
                    forall|j: int|
                        0 <= j < i ==> (#[trigger] out@[j]).jv() == spec_extract(
                            rule.rv(),
                            v@[j].jv(),
                        ),
                decreases n - i,
            {
                let ghost prev = out@;
                let e = extract_fields(rule, &v[i]);
                out.push(e);
                proof {
                    assert forall|j: int| 0 <= j < i + 1 implies (#[trigger] out@[j]).jv()
                        == spec_extract(rule.rv(), v@[j].jv()) by {
                        if j < i {
                            assert(out@[j] == prev[j]);
                            assert(prev[j].jv() == spec_extract(rule.rv(), v@[j].jv()));
                        }
                    }
                }
                i += 1;
            }
            proof {
                assert forall|j: int| 0 <= j < n implies out.deep_view()[j] == (spec_extract(
                    rule.rv(),
                    input.jv(),
                )->Arr_0)[j] by {
                    assert(out@[j].jv() == spec_extract(rule.rv(), v@[j].jv()));
                }
                assert(out.deep_view() =~= spec_extract(rule.rv(), input.jv())->Arr_0);
            }
            Json::Arr(out)
        },
        _ => Json::Null,
    }
}

/// Every field of `b` bound in `a`, left to right.
pub open spec fn obj_set_all(a: Seq<(Seq<char>, Jv)>, b: Seq<(Seq<char>, Jv)>) -> Seq<
    (Seq<char>, Jv),
>
    decreases b.len(),
{
    if b.len() == 0 {
        a
    } else {
        obj_set_all(obj_set(a, b[0].0, b[0].1), b.drop_first())
    }
}

/// The shallow merge: `Null` never overwrites, objects merge one level deep
/// with the right side winning, and any other pairing keeps the left side.
pub open spec fn spec_merge(dst: Jv, src: Jv) -> Jv {
    if src is Null {
        dst
    } else if dst is Null {
        src
    } else if dst is Obj && src is Obj {
        Jv::Obj(obj_set_all(dst->Obj_0, src->Obj_0))
    } else {
        dst
    }
}

/// Shallow-merges `src` into `dst` and returns the result.
#[verifier::loop_isolation(false)]
pub fn merged(dst: Json, src: &Json) -> (r: Json)
    ensures
        r.jv() == spec_merge(dst.jv(), src.jv()),
{
    broadcast use lemma_jv_arr, lemma_jv_obj;

    if let Json::Null = src {
        return dst;
    }
    match dst {
        Json::Null => src.deep_copy(),
        Json::Obj(mut a) => {
            match src {
                Json::Obj(b) => {
                    let ghost a0 = a.deep_view();
                    let ghost bs = b.deep_view();
                    let n = b.len();
                    let mut i: usize = 0;
                    proof {
                        assert(bs.skip(0) =~= bs);
                    }
                    while i < n
                        invariant
                            0 <= i <= n,
                            obj_set_all(a.deep_view(), bs.skip(i as int)) == obj_set_all(a0, bs),
                        decreases n - i,
                    {
                        proof {
                            assert(bs.skip(i as int)[0] == bs[i as int]);
                            assert(bs.skip(i as int).drop_first() =~= bs.skip(i + 1));
                        }
                        let key = b[i].0.clone();
                        let val = b[i].1.deep_copy();
                        obj_put(&mut a, key, val);
                        i += 1;
                    }
                    proof {
                        assert(bs.skip(n as int) =~= Seq::<(Seq<char>, Jv)>::empty());
                    }
                    Json::Obj(a)
                },
                _ => Json::Obj(a),
            }
        },
        other => other,
    }
}

proof fn lemma_obj_set_all_push(
    a: Seq<(Seq<char>, Jv)>,
    b: Seq<(Seq<char>, Jv)>,
    x: (Seq<char>, Jv),
)
    ensures
        obj_set_all(a, b.push(x)) == obj_set(obj_set_all(a, b), x.0, x.1),
    decreases b.len(),
{
    if b.len() == 0 {
        assert(b.push(x)[0] == x);
        let y = obj_set(a, b.push(x)[0].0, b.push(x)[0].1);
        assert(b.push(x).drop_first() =~= Seq::<(Seq<char>, Jv)>::empty());
        assert(obj_set_all(y, b.push(x).drop_first()) == y);
    } else {
        assert(b.push(x)[0] == b[0]);
        assert(b.push(x).drop_first() =~= b.drop_first().push(x));
        lemma_obj_set_all_push(obj_set(a, b[0].0, b[0].1), b.drop_first(), x);
    }
}

/// The last value bound to `k`, if any.
pub open spec fn obj_get_last(b: Seq<(Seq<char>, Jv)>, k: Seq<char>) -> Option<Jv>
    decreases b.len(),
{
    if b.len() == 0 {
        None
    } else if b.last().0 == k {
        Some(b.last().1)
    } else {
        obj_get_last(b.drop_last(), k)
    }
}

/// The merge of field lists is right-biased and order-dependent: after
/// folding `b`'s bindings into `a`, a name bound in `b` resolves to `b`'s
/// last value for it, and any other name resolves as in `a`.
pub proof fn lemma_merge_right_biased(
    a: Seq<(Seq<char>, Jv)>,
    b: Seq<(Seq<char>, Jv)>,
    k: Seq<char>,
)
    ensures
        obj_get(obj_set_all(a, b), k) == match obj_get_last(b, k) {
            Some(v) => Some(v),
            None => obj_get(a, k),
        },
    decreases b.len(),
{
    if b.len() > 0 {
        let pre = b.drop_last();
        let x = b.last();
        assert(pre.push(x) =~= b);
        lemma_obj_set_all_push(a, pre, x);
        crate::json::lemma_obj_set_get(obj_set_all(a, pre), x.0, x.1, k);
        lemma_merge_right_biased(a, pre, k);
    }
}

/// The right bias at the level of whole documents: in the shallow merge of
/// two objects, a field of the right one wins at its name.
pub proof fn lemma_merge_object_lookup(da: Jv, db: Jv, k: Seq<char>)
    requires
        da is Obj,
        db is Obj,
    ensures
        obj_get(spec_merge(da, db)->Obj_0, k) == match obj_get_last(db->Obj_0, k) {
            Some(v) => Some(v),
            None => obj_get(da->Obj_0, k),
        },
{
    lemma_merge_right_biased(da->Obj_0, db->Obj_0, k);
}

/// Resolves a dotted path against a document. `Null` stands for "not
/// found": a bare `*` segment, an index into an array without a wildcard,
/// a missing key, and a scalar met mid-path all resolve to it.
pub open spec fn spec_select(j: Jv, parts: Seq<Seq<char>>) -> Jv
    decreases parts.len(),
{
    if parts.len() == 0 {
        j
    } else {
        let head = parts[0];
        let tail = parts.drop_first();
        match j {
            Jv::Obj(fs) => {
                if head == "*"@ {
                    Jv::Null
                } else if spec_has_wildcard_suffix(head) {
                    match obj_get(fs, spec_trim_wild(head)) {
                        Some(Jv::Arr(es)) => Jv::Arr(
                            Seq::new(es.len(), |i: int| spec_select(es[i], tail)),
                        ),
                        _ => Jv::Null,
                    }
                } else {
                    match obj_get(fs, head) {
                        Some(v) => spec_select(v, tail),
                        None => Jv::Null,
                    }
                }
            },
            Jv::Arr(es) => {
                if spec_has_wildcard_suffix(head) {
                    Jv::Arr(Seq::new(es.len(), |i: int| spec_select(es[i], tail)))
                } else {
                    Jv::Null
                }
            },
            _ => Jv::Null,
        }
    }
}

/// Resolves the path `parts[at..]` against `input`.
#[verifier::loop_isolation(false)]
pub fn select_inner(input: &Json, parts: &Vec<String>, at: usize) -> (r: Json)
    requires
        at <= parts@.len(),
    ensures
        r.jv() == spec_select(input.jv(), parts.deep_view().skip(at as int)),
    decreases parts@.len() - at,
{
    broadcast use lemma_jv_arr, lemma_jv_obj;

    let ghost rest = parts.deep_view().skip(at as int);
    if at == parts.len() {
        proof {
            assert(rest.len() == 0);
        }
        return input.deep_copy();
    }
    let head = &parts[at];
    proof {
        assert(rest[0] == head@);
        assert(rest.drop_first() =~= parts.deep_view().skip(at + 1));
    }
    match input {
        Json::Obj(m) => {
            if crate::text::str_eq(head.as_str(), "*") {
                Json::Null
            } else if crate::text::has_wildcard_suffix(head.as_str()) {
                let base = crate::text::trim_wild(head.as_str());
                match obj_get_field(m, base) {
                    Some(arr) => {
                        match arr {
                            Json::Arr(es) => {
                                let n = es.len();
                                let mut out: Vec<Json> = Vec::new();
                                let mut i: usize = 0;
                                while i < n
                                    invariant
                                        0 <= i <= n,
                                        out@.len() == i,
                                        forall|j: int|
                                            0 <= j < i ==> (#[trigger] out@[j]).jv()
                                                == spec_select(
                                                es@[j].jv(),
                                                parts.deep_view().skip(at + 1),
                                            ),
                                    decreases n - i,
                                {
                                    let ghost prev = out@;
                                    let e = select_inner(&es[i], parts, at + 1);
                                    out.push(e);
                                    proof {
                                        assert forall|j: int| 0 <= j < i + 1 implies (
                                        #[trigger] out@[j]).jv() == spec_select(
                                            es@[j].jv(),
                                            parts.deep_view().skip(at + 1),
                                        ) by {
                                            if j < i {
                                                assert(out@[j] == prev[j]);
                                                assert(prev[j].jv() == spec_select(
                                                    es@[j].jv(),
                                                    parts.deep_view().skip(at + 1),
                                                ));
                                            }
                                        }
                                    }
                                    i += 1;
                                }
                                proof {
                                    let ghost es_v = arr.jv()->Arr_0;
                                    assert forall|j: int| 0 <= j < n implies out.deep_view()[j]
                                        == spec_select(es_v[j], rest.drop_first()) by {
                                        assert(out@[j].jv() == spec_select(
                                            es@[j].jv(),
                                            parts.deep_view().skip(at + 1),
                                        ));
                                    }
                                    assert(out.deep_view() =~= spec_select(input.jv(), rest)->Arr_0);
                                }
                                Json::Arr(out)
                            },
                            _ => Json::Null,
                        }
                    },
                    None => Json::Null,
                }
            } else {
                match obj_get_field(m, head.as_str()) {
                    Some(v) => select_inner(v, parts, at + 1),
                    None => Json::Null,
                }
            }
        },
        Json::Arr(es) => {
            if crate::text::has_wildcard_suffix(head.as_str()) {
                let n = es.len();
                let mut out: Vec<Json> = Vec::new();
                let mut i: usize = 0;
                while i < n
                    invariant
                        0 <= i <= n,
                        out@.len() == i,
                        forall|j: int|
                            0 <= j < i ==> (#[trigger] out@[j]).jv() == spec_select(
                                es@[j].jv(),
                                parts.deep_view().skip(at + 1),
                            ),
                    decreases n - i,
                {
                    let ghost prev = out@;
                    let e = select_inner(&es[i], parts, at + 1);
                    out.push(e);
                    proof {
                        assert forall|j: int| 0 <= j < i + 1 implies (#[trigger] out@[j]).jv()
                            == spec_select(es@[j].jv(), parts.deep_view().skip(at + 1)) by {
                            if j < i {
                                assert(out@[j] == prev[j]);
                                assert(prev[j].jv() == spec_select(
                                    es@[j].jv(),
                                    parts.deep_view().skip(at + 1),
                                ));
                            }
                        }
                    }
                    i += 1;
                }
                proof {
                    assert forall|j: int| 0 <= j < n implies out.deep_view()[j] == spec_select(
                        (input.jv()->Arr_0)[j],
                        rest.drop_first(),
                    ) by {
                        assert(out@[j].jv() == spec_select(
                            es@[j].jv(),
                            parts.deep_view().skip(at + 1),
                        ));
                    }
                    assert(out.deep_view() =~= spec_select(input.jv(), rest)->Arr_0);
                }
                Json::Arr(out)
            } else {
                Json::Null
            }
        },
        _ => Json::Null,
    }
}

/// Wraps `v` back into nested single-key objects along the path.
pub open spec fn spec_nest(parts: Seq<Seq<char>>, v: Jv) -> Jv
    decreases parts.len(),
{
    if parts.len() == 0 {
        v
    } else {
        Jv::Obj(seq![(parts[0], spec_nest(parts.drop_first(), v))])
    }
}

/// Builds the nested object `{parts[at]: {...: v}}`.
pub fn make_nested(parts: &Vec<String>, at: usize, v: Json) -> (r: Json)
    requires
        at <= parts@.len(),
    ensures
        r.jv() == spec_nest(parts.deep_view().skip(at as int), v.jv()),
    decreases parts@.len() - at,
{
    broadcast use lemma_jv_obj;

    let ghost rest = parts.deep_view().skip(at as int);
    if at == parts.len() {
        proof {
            assert(rest.len() == 0);
        }
        return v;
    }
    proof {
        assert(rest[0] == parts.deep_view()[at as int]);
        assert(rest.drop_first() =~= parts.deep_view().skip(at + 1));
    }
    let inner = make_nested(parts, at + 1, v);
    let key = parts[at].clone();
    let mut fields: Vec<(String, Json)> = Vec::new();
    fields.push((key, inner));
    proof {
        assert(fields.deep_view() =~= seq![(rest[0], spec_nest(rest.drop_first(), v.jv()))]);
    }
    Json::Obj(fields)
}

/// The key set of the `@files` shorthand.
pub open spec fn files_keys() -> Seq<Seq<char>> {
    seq!["video_files"@, "src"@]
}

/// The key set of the `@thumbnails` shorthand.
pub open spec fn thumbs_keys() -> Seq<Seq<char>> {
    seq!["image"@, "thumbnail"@, "thumb"@, "tiny"@]
}

/// Whether the selector list contains the identity shorthand `@all`.
pub open spec fn spec_has_all(fields: Seq<Seq<char>>) -> bool {
    exists|i: int| 0 <= i < fields.len() && #[trigger] fields[i] == "@all"@
}

/// One selector's contribution, merged into the accumulator.
pub open spec fn apply_selector(doc: Jv, acc: Jv, f: Seq<char>) -> Jv {
    if f == "@ids"@ {
        spec_merge(acc, spec_extract(KeyRule::Ids, doc))
    } else if f == "@urls"@ {
        spec_merge(acc, spec_extract(KeyRule::Urls, doc))
    } else if f == "@files"@ {
        spec_merge(acc, spec_extract(KeyRule::Named(files_keys()), doc))
    } else if f == "@thumbnails"@ {
        spec_merge(acc, spec_extract(KeyRule::Named(thumbs_keys()), doc))
    } else {
        let v = spec_select(doc, spec_dot_split(f));
        if v is Null {
            acc
        } else {
            spec_merge(acc, spec_nest(spec_dot_split(f), v))
        }
    }
}

/// The selectors' contributions folded left to right over an empty object.
pub open spec fn spec_project_fields(doc: Jv, fields: Seq<Seq<char>>) -> Jv
    decreases fields.len(),
{
    if fields.len() == 0 {
        Jv::Obj(Seq::empty())
    } else {
        apply_selector(doc, spec_project_fields(doc, fields.drop_last()), fields.last())
    }
}

/// The projection: the document itself for an empty selector list or one
/// holding `@all`, and the folded contributions otherwise.
pub open spec fn spec_project(doc: Jv, fields: Seq<Seq<char>>) -> Jv {
    if fields.len() == 0 || spec_has_all(fields) {
        doc
    } else {
        spec_project_fields(doc, fields)
    }
}

/// Reduces `input` to what the selector list asks for.
#[verifier::loop_isolation(false)]
pub fn project(input: &Json, fields: &Vec<String>) -> (r: Json)
    ensures
        r.jv() == spec_project(input.jv(), fields.deep_view()),
{
    let n = fields.len();
    let mut any_all = false;
    let mut i: usize = 0;
    while i < n
        invariant
            0 <= i <= n,
            any_all == exists|j: int|
                0 <= j < i && #[trigger] fields.deep_view()[j] == "@all"@,
        decreases n - i,
    {
        if crate::text::str_eq(fields[i].as_str(), "@all") {
            proof {
                assert(fields.deep_view()[i as int] == "@all"@);
            }
            any_all = true;
        }
        i += 1;
    }
    if n == 0 || any_all {
        return input.deep_copy();
    }
    let ghost fv = fields.deep_view();
    let mut acc = Json::Obj(Vec::new());
    proof {
        broadcast use lemma_jv_obj;

        assert(fv.take(0) =~= Seq::<Seq<char>>::empty());
        assert(acc.jv()->Obj_0 =~= Seq::<(Seq<char>, Jv)>::empty());
    }
    let mut i: usize = 0;
    while i < n
        invariant
            0 <= i <= n,
            acc.jv() == spec_project_fields(input.jv(), fv.take(i as int)),
        decreases n - i,
    {
        let f = &fields[i];
        proof {
            assert(fv.take(i + 1).drop_last() =~= fv.take(i as int));
            assert(fv.take(i + 1).last() == f@);
        }
        if crate::text::str_eq(f.as_str(), "@ids") {
            let piece = extract_fields(&FieldRule::Ids, input);
            acc = merged(acc, &piece);
        } else if crate::text::str_eq(f.as_str(), "@urls") {
            let piece = extract_fields(&FieldRule::Urls, input);
            acc = merged(acc, &piece);
        } else if crate::text::str_eq(f.as_str(), "@files") {
            let mut ks: Vec<String> = Vec::new();
            ks.push("video_files".to_owned());
            ks.push("src".to_owned());
            let rule = FieldRule::Named(ks);
            proof {
                assert(rule.rv()->Named_0 =~= files_keys());
                assert(rule.rv() == KeyRule::Named(files_keys()));
            }
            let piece = extract_fields(&rule, input);
            acc = merged(acc, &piece);
        } else if crate::text::str_eq(f.as_str(), "@thumbnails") {
            let mut ks: Vec<String> = Vec::new();
            ks.push("image".to_owned());
            ks.push("thumbnail".to_owned());
            ks.push("thumb".to_owned());
            ks.push("tiny".to_owned());
            let rule = FieldRule::Named(ks);
            proof {
                assert(rule.rv()->Named_0 =~= thumbs_keys());
                assert(rule.rv() == KeyRule::Named(thumbs_keys()));
            }
            let piece = extract_fields(&rule, input);
            acc = merged(acc, &piece);
        } else {
            let parts = crate::text::dot_split(f.as_str());
            let val = select_inner(input, &parts, 0);
            proof {
                assert(parts.deep_view().skip(0) =~= parts.deep_view());
            }
            match val {
                Json::Null => {
                    proof {
                        assert(spec_select(input.jv(), spec_dot_split(f@)) is Null);
                    }
                },
                other => {
                    proof {
                        assert(!(spec_select(input.jv(), spec_dot_split(f@)) is Null));
                    }
                    let nested = make_nested(&parts, 0, other);
                    acc = merged(acc, &nested);
                },
            }
        }
        i += 1;
    }
    proof {
        assert(fv.take(n as int) =~= fv);
    }
    acc
}

/// Scalar values: strings, numbers and booleans.
pub open spec fn spec_is_scalar(j: Jv) -> bool {
    j is Str || j is Int || j is NumStr || j is Bool
}

/// The priority list of descriptive field names for the fallback.
pub open spec fn minimal_keys() -> Seq<Seq<char>> {
    seq!["id"@, "url"@, "photographer"@, "alt"@, "title"@, "description"@, "duration"@]
}

/// The fields of `fs` named in `keys`, in the order of `keys`.
pub open spec fn pick_named(fs: Seq<(Seq<char>, Jv)>, keys: Seq<Seq<char>>) -> Seq<
    (Seq<char>, Jv),
>
    decreases keys.len(),
{
    if keys.len() == 0 {
        Seq::empty()
    } else {
        (match obj_get(fs, keys[0]) {
            Some(v) => seq![(keys[0], v)],
            None => Seq::empty(),
        }) + pick_named(fs, keys.drop_first())
    }
}

/// The first field holding a scalar value, if any.
pub open spec fn first_scalar(fs: Seq<(Seq<char>, Jv)>) -> Option<(Seq<char>, Jv)>
    decreases fs.len(),
{
    if fs.len() == 0 {
        None
    } else if spec_is_scalar(fs[0].1) {
        Some(fs[0])
    } else {
        first_scalar(fs.drop_first())
    }
}

/// The fallback object: the priority fields that exist, else the first
/// scalar field, else an empty object. A non-object is kept unchanged.
pub open spec fn spec_minimal(j: Jv) -> Jv {
    match j {
        Jv::Obj(fs) => {
            let named = pick_named(fs, minimal_keys());
            if named.len() > 0 {
                Jv::Obj(named)
            } else {
                match first_scalar(fs) {
                    Some(p) => Jv::Obj(seq![p]),
                    None => Jv::Obj(Seq::empty()),
                }
            }
        },
        _ => j,
    }
}

/// A projection kept, or the fallback where it came out empty.
pub open spec fn spec_non_empty(p: Jv, original: Jv) -> Jv {
    if p == Jv::Obj(Seq::<(Seq<char>, Jv)>::empty()) {
        spec_minimal(original)
    } else {
        p
    }
}

/// A single item's projection with the non-empty fallback applied.
pub open spec fn spec_project_item_fb(item: Jv, fields: Seq<Seq<char>>) -> Jv {
    spec_non_empty(spec_project(item, fields), item)
}

fn is_scalar_exec(j: &Json) -> (r: bool)
    ensures
        r == spec_is_scalar(j.jv()),
{
    match j {
        Json::Str(_) => true,
        Json::Int(_) => true,
        Json::NumStr(_) => true,
        Json::Bool(_) => true,
        _ => false,
    }
}

/// Builds the fallback object from the original document.
#[verifier::loop_isolation(false)]
fn minimal_item(original: &Json) -> (r: Json)
    ensures
        r.jv() == spec_minimal(original.jv()),
{
    broadcast use lemma_jv_obj;

    match original {
        Json::Obj(m) => {
            let ghost fs = original.jv()->Obj_0;
            let keys: Vec<&str> = vec![
                "id",
                "url",
                "photographer",
                "alt",
                "title",
                "description",
                "duration",
            ];
            proof {
                assert(keys.deep_view() =~= minimal_keys());
            }
            let mut out: Vec<(String, Json)> = Vec::new();
            let nk = keys.len();
            let mut i: usize = 0;
            proof {
                assert(minimal_keys().skip(0) =~= minimal_keys());
                assert(out.deep_view() + pick_named(fs, minimal_keys()) =~= pick_named(
                    fs,
                    minimal_keys(),
                ));
            }
            while i < nk
                invariant
                    0 <= i <= nk,
                    out.deep_view() + pick_named(fs, minimal_keys().skip(i as int)) == pick_named(
                        fs,
                        minimal_keys(),
                    ),
                decreases nk - i,
            {
                let ghost pre = out.deep_view();
                proof {
                    assert(minimal_keys().skip(i as int)[0] == keys.deep_view()[i as int]);
                    assert(minimal_keys().skip(i as int).drop_first() =~= minimal_keys().skip(
                        i + 1,
                    ));
                }
                match obj_get_field(m, keys[i]) {
                    Some(v) => {
                        let key = keys[i].to_owned();
                        let val = v.deep_copy();
                        out.push((key, val));
                        proof {
                            assert(out.deep_view() =~= pre.push(
                                (keys.deep_view()[i as int], v.jv()),
                            ));
                            assert(out.deep_view() + pick_named(fs, minimal_keys().skip(i + 1))
                                =~= pre + (seq![(keys.deep_view()[i as int], v.jv())] + pick_named(
                                fs,
                                minimal_keys().skip(i + 1),
                            )));
                        }
                    },
                    None => {
                        proof {
                            assert(out.deep_view() + pick_named(fs, minimal_keys().skip(i + 1))
                                =~= pre + (Seq::empty() + pick_named(
                                fs,
                                minimal_keys().skip(i + 1),
                            )));
                        }
                    },
                }
                i += 1;
            }
            proof {
                assert(minimal_keys().skip(nk as int) =~= Seq::<Seq<char>>::empty());
                assert(out.deep_view() =~= out.deep_view() + pick_named(
                    fs,
                    minimal_keys().skip(nk as int),
                ));
            }
            if out.len() > 0 {
                return Json::Obj(out);
            }
            let n = m.len();
            let mut i: usize = 0;
            proof {
                assert(fs.skip(0) =~= fs);
            }
            while i < n
                invariant
                    0 <= i <= n,
                    first_scalar(fs) == first_scalar(fs.skip(i as int)),
                decreases n - i,
            {
                proof {
                    assert(fs.skip(i as int)[0] == fs[i as int]);
                    assert(fs.skip(i as int).drop_first() =~= fs.skip(i + 1));
                }
                if is_scalar_exec(&m[i].1) {
                    let key = m[i].0.clone();
                    let val = m[i].1.deep_copy();
                    let mut one: Vec<(String, Json)> = Vec::new();
                    one.push((key, val));
                    proof {
                        assert(one.deep_view() =~= seq![fs[i as int]]);
                    }
                    return Json::Obj(one);
                }
                i += 1;
            }
            proof {
                assert(fs.skip(n as int) =~= Seq::<(Seq<char>, Jv)>::empty());
            }
            let none: Vec<(String, Json)> = Vec::new();
            proof {
                assert(none.deep_view() =~= Seq::<(Seq<char>, Jv)>::empty());
            }
            Json::Obj(none)
        },
        _ => original.deep_copy(),
    }
}

fn is_empty_obj(j: &Json) -> (r: bool)
    ensures
        r == (j.jv() == Jv::Obj(Seq::<(Seq<char>, Jv)>::empty())),
{
    broadcast use lemma_jv_obj;

    match j {
        Json::Obj(m) => {
            if m.len() == 0 {
                proof {
                    assert(m.deep_view() =~= Seq::<(Seq<char>, Jv)>::empty());
                }
                true
            } else {
                proof {
                    assert(j.jv()->Obj_0.len() == m@.len());
                }
                false
            }
        },
        _ => false,
    }
}

fn ensure_non_empty_item(projected: &Json, original: &Json) -> (r: Json)
    ensures
        r.jv() == spec_non_empty(projected.jv(), original.jv()),
{
    if is_empty_obj(projected) {
        minimal_item(original)
    } else {
        projected.deep_copy()
    }
}

/// Projects one item and replaces an empty result with the fallback.
pub fn project_item_with_fallback(item: &Json, fields: &Vec<String>) -> (r: Json)
    ensures
        r.jv() == spec_project_item_fb(item.jv(), fields.deep_view()),
{
    let p = project(item, fields);
    ensure_non_empty_item(&p, item)
}

/// Projects each item of a list independently, with the fallback.
#[verifier::loop_isolation(false)]
pub fn project_items_with_fallback(items: &Vec<Json>, fields: &Vec<String>) -> (r: Vec<Json>)
    ensures
        r@.len() == items@.len(),
        forall|j: int|
            0 <= j < items@.len() ==> (#[trigger] r@[j]).jv() == spec_project_item_fb(
                items@[j].jv(),
                fields.deep_view(),
            ),
{
    let n = items.len();
    let mut out: Vec<Json> = Vec::new();
    let mut i: usize = 0;
    while i < n
        invariant
            0 <= i <= n,
            out@.len() == i,
            forall|j: int|
                0 <= j < i ==> (#[trigger] out@[j]).jv() == spec_project_item_fb(
                    items@[j].jv(),
                    fields.deep_view(),
                ),
        decreases n - i,
    {
        let ghost prev = out@;
        let e = project_item_with_fallback(&items[i], fields);
        out.push(e);
        proof {
            assert forall|j: int| 0 <= j < i + 1 implies (#[trigger] out@[j]).jv()
                == spec_project_item_fb(items@[j].jv(), fields.deep_view()) by {
                if j < i {
                    assert(out@[j] == prev[j]);
                    assert(prev[j].jv() == spec_project_item_fb(
                        items@[j].jv(),
                        fields.deep_view(),
                    ));
                }
            }
        }
        i += 1;
    }
    out
}

/// Pairwise-distinct field names.
pub open spec fn keys_distinct(fs: Seq<(Seq<char>, Jv)>) -> bool {
    forall|i: int, j: int| 0 <= i < j < fs.len() ==> (#[trigger] fs[i]).0 != (#[trigger] fs[j]).0
}

/// A field name occurs in the list.
pub open spec fn key_in(fs: Seq<(Seq<char>, Jv)>, k: Seq<char>) -> bool {
    exists|i: int| 0 <= i < fs.len() && (#[trigger] fs[i]).0 == k
}

proof fn lemma_keep_fields_sub(rule: KeyRule, fs: Seq<(Seq<char>, Jv)>, k: Seq<char>)
    requires
        key_in(keep_fields(rule, fs), k),
    ensures
        key_in(fs, k),
    decreases fs.len(),
{
    if fs.len() > 0 {
        let kept = keep_fields(rule, fs);
        let i = choose|i: int| 0 <= i < kept.len() && (#[trigger] kept[i]).0 == k;
        if rule_matches(rule, fs[0].0) {
            if i == 0 {
                assert(fs[0].0 == k);
            } else {
                assert(keep_fields(rule, fs.drop_first())[i - 1].0 == k);
                lemma_keep_fields_sub(rule, fs.drop_first(), k);
                let j = choose|j: int|
                    0 <= j < fs.drop_first().len() && (#[trigger] fs.drop_first()[j]).0 == k;
                assert(fs[j + 1].0 == k);
            }
        } else {
            assert(keep_fields(rule, fs.drop_first())[i].0 == k);
            lemma_keep_fields_sub(rule, fs.drop_first(), k);
            let j = choose|j: int|
                0 <= j < fs.drop_first().len() && (#[trigger] fs.drop_first()[j]).0 == k;
            assert(fs[j + 1].0 == k);
        }
    }
}

proof fn lemma_keep_fields_distinct(rule: KeyRule, fs: Seq<(Seq<char>, Jv)>)
    requires
        keys_distinct(fs),
    ensures
        keys_distinct(keep_fields(rule, fs)),
        forall|i: int|
            0 <= i < keep_fields(rule, fs).len() ==> rule_matches(
                rule,
                (#[trigger] keep_fields(rule, fs)[i]).0,
            ),
    decreases fs.len(),
{
    if fs.len() > 0 {
        let rest = fs.drop_first();
        assert(forall|i: int, j: int|
            0 <= i < j < rest.len() ==> (#[trigger] rest[i]).0 != (#[trigger] rest[j]).0) by {
            assert(forall|i: int| 0 <= i < rest.len() ==> #[trigger] rest[i] == fs[i + 1]);
        }
        lemma_keep_fields_distinct(rule, rest);
        let kept = keep_fields(rule, fs);
        let krest = keep_fields(rule, rest);
        if rule_matches(rule, fs[0].0) {
            assert(kept[0] == fs[0]);
            assert(forall|i: int| 0 <= i < krest.len() ==> #[trigger] kept[i + 1] == krest[i]);
            assert forall|i: int, j: int| 0 <= i < j < kept.len() implies (#[trigger] kept[i]).0
                != (#[trigger] kept[j]).0 by {
                if i == 0 {
                    assert(kept[j] == krest[j - 1]);
                    if kept[0].0 == kept[j].0 {
                        assert(key_in(krest, fs[0].0));
                        lemma_keep_fields_sub(rule, rest, fs[0].0);
                        let t = choose|t: int|
                            0 <= t < rest.len() && (#[trigger] rest[t]).0 == fs[0].0;
                        assert(fs[t + 1].0 == fs[0].0);
                    }
                } else {
                    assert(kept[i] == krest[i - 1]);
                    assert(kept[j] == krest[j - 1]);
                }
            }
        } else {
            assert(kept =~= krest);
        }
    }
}

proof fn lemma_obj_set_all_append(a: Seq<(Seq<char>, Jv)>, b: Seq<(Seq<char>, Jv)>)
    requires
        keys_distinct(b),
        forall|k: Seq<char>| key_in(b, k) ==> !key_in(a, k),
    ensures
        obj_set_all(a, b) == a + b,
    decreases b.len(),
{
    if b.len() == 0 {
        assert(obj_set_all(a, b) =~= a + b);
    } else {
        assert(key_in(b, b[0].0));
        assert(!key_in(a, b[0].0));
        assert(forall|j: int| 0 <= j < a.len() ==> (#[trigger] a[j]).0 != b[0].0);
        crate::json::lemma_obj_set_push(a, b[0].0, b[0].1);
        let a2 = a.push(b[0]);
        assert(a2 =~= a + seq![b[0]]);
        let rest = b.drop_first();
        assert(forall|i: int| 0 <= i < rest.len() ==> #[trigger] rest[i] == b[i + 1]);
        assert(forall|i: int, j: int|
            0 <= i < j < rest.len() ==> (#[trigger] rest[i]).0 != (#[trigger] rest[j]).0);
        assert forall|k: Seq<char>| key_in(rest, k) implies !key_in(a2, k) by {
            let t = choose|t: int| 0 <= t < rest.len() && (#[trigger] rest[t]).0 == k;
            assert(b[t + 1].0 == k);
            if key_in(a2, k) {
                let u = choose|u: int| 0 <= u < a2.len() && (#[trigger] a2[u]).0 == k;
                if u < a.len() {
                    assert(a[u].0 == k);
                    assert(key_in(a, k));
                } else {
                    assert(a2[u] == b[0]);
                }
            }
        }
        lemma_obj_set_all_append(a2, rest);
        assert(obj_set_all(a, b) == a2 + rest);
        assert(a2 + rest =~= a + b);
    }
}

proof fn lemma_keep_of_kept(rule: KeyRule, fs: Seq<(Seq<char>, Jv)>)
    requires
        forall|i: int| 0 <= i < fs.len() ==> rule_matches(rule, (#[trigger] fs[i]).0),
    ensures
        keep_fields(rule, fs) == fs,
    decreases fs.len(),
{
    if fs.len() == 0 {
        assert(keep_fields(rule, fs) =~= fs);
    } else {
        let rest = fs.drop_first();
        assert(forall|i: int| 0 <= i < rest.len() ==> #[trigger] rest[i] == fs[i + 1]);
        lemma_keep_of_kept(rule, rest);
        assert(keep_fields(rule, fs) =~= fs);
    }
}

proof fn lemma_dot_split_len(s: Seq<char>)
    ensures
        spec_dot_split(s).len() >= 1,
{
    match crate::text::spec_first_dot(s) {
        None => {},
        Some(i) => {},
    }
}

/// Resolving a non-wildcard path against its own nesting gives the nested
/// value back.
proof fn lemma_select_nest(parts: Seq<Seq<char>>, v: Jv)
    requires
        forall|i: int|
            0 <= i < parts.len() ==> ((#[trigger] parts[i]) != "*"@ && !spec_has_wildcard_suffix(
                parts[i],
            )),
    ensures
        spec_select(spec_nest(parts, v), parts) == v,
    decreases parts.len(),
{
    if parts.len() > 0 {
        let rest = parts.drop_first();
        let inner = spec_nest(rest, v);
        assert(spec_nest(parts, v) == Jv::Obj(seq![(parts[0], inner)]));
        assert(obj_get(seq![(parts[0], inner)], parts[0]) == Some(inner));
        assert(forall|i: int| 0 <= i < rest.len() ==> #[trigger] rest[i] == parts[i + 1]);
        lemma_select_nest(rest, v);
    }
}

/// The four shorthand group names.
pub open spec fn is_group_selector(f: Seq<char>) -> bool {
    f == "@ids"@ || f == "@urls"@ || f == "@files"@ || f == "@thumbnails"@
}

/// Projecting twice with one selector changes nothing beyond the first
/// projection: the law holds for a single selector that is not `@all`,
/// resolves no array wildcard, and is applied to a document whose
/// top-level field names are distinct. A wildcard selector is excluded
/// because its contribution keeps the literal `k[*]` segment as a key,
/// which a second pass resolves to nothing.
pub proof fn lemma_project_idempotent_single(doc: Jv, fields: Seq<Seq<char>>)
    requires
        fields.len() == 1,
        fields[0] != "@all"@,
        doc matches Jv::Obj(fs) ==> keys_distinct(fs),
        !is_group_selector(fields[0]) ==> forall|i: int|
            0 <= i < spec_dot_split(fields[0]).len() ==> ((#[trigger] spec_dot_split(
                fields[0],
            )[i]) != "*"@ && !spec_has_wildcard_suffix(spec_dot_split(fields[0])[i])),
    ensures
        spec_project(spec_project(doc, fields), fields) == spec_project(doc, fields),
{
    let f = fields[0];
    assert(!spec_has_all(fields)) by {
        if spec_has_all(fields) {
            let i = choose|i: int| 0 <= i < fields.len() && #[trigger] fields[i] == "@all"@;
        }
    }
    let empty_obj = Jv::Obj(Seq::<(Seq<char>, Jv)>::empty());
    assert(spec_project_fields(doc, fields.drop_last()) == empty_obj) by {
        assert(fields.drop_last().len() == 0);
    }
    assert(fields.last() == f);
    let r = spec_project(doc, fields);
    assert(r == apply_selector(doc, empty_obj, f));
    let r2 = spec_project(r, fields);
    assert(r2 == apply_selector(r, empty_obj, f)) by {
        assert(spec_project_fields(r, fields.drop_last()) == empty_obj);
    }
    if is_group_selector(f) {
        let rule = if f == "@ids"@ {
            KeyRule::Ids
        } else if f == "@urls"@ {
            KeyRule::Urls
        } else if f == "@files"@ {
            KeyRule::Named(files_keys())
        } else {
            KeyRule::Named(thumbs_keys())
        };
        assert(r == spec_merge(empty_obj, spec_extract(rule, doc)));
        match doc {
            Jv::Obj(fs) => {
                let kept = keep_fields(rule, fs);
                lemma_keep_fields_distinct(rule, fs);
                assert(forall|k: Seq<char>|
                    key_in(kept, k) ==> !key_in(Seq::<(Seq<char>, Jv)>::empty(), k));
                lemma_obj_set_all_append(Seq::empty(), kept);
                assert(Seq::<(Seq<char>, Jv)>::empty() + kept =~= kept);
                assert(r == Jv::Obj(kept));
                lemma_keep_of_kept(rule, kept);
                assert(spec_extract(rule, r) == Jv::Obj(kept));
                lemma_obj_set_all_append(Seq::empty(), kept);
                assert(r2 == Jv::Obj(kept));
            },
            _ => {
                assert(r == empty_obj);
                assert(spec_extract(rule, r) == Jv::Obj(
                    keep_fields(rule, Seq::<(Seq<char>, Jv)>::empty()),
                ));
                assert(keep_fields(rule, Seq::<(Seq<char>, Jv)>::empty())
                    =~= Seq::<(Seq<char>, Jv)>::empty());
                assert(obj_set_all(Seq::<(Seq<char>, Jv)>::empty(), Seq::empty())
                    =~= Seq::<(Seq<char>, Jv)>::empty());
                assert(r2 == empty_obj);
            },
        }
    } else {
        let parts = spec_dot_split(f);
        lemma_dot_split_len(f);
        let v = spec_select(doc, parts);
        if v is Null {
            assert(r == empty_obj);
            assert(spec_select(empty_obj, parts) is Null) by {
                assert(parts.len() >= 1);
                crate::json::lemma_obj_get_none(Seq::<(Seq<char>, Jv)>::empty(), parts[0]);
            }
            assert(r2 == empty_obj);
        } else {
            let nested = spec_nest(parts, v);
            assert(nested == Jv::Obj(seq![(parts[0], spec_nest(parts.drop_first(), v))]));
            assert(r == spec_merge(empty_obj, nested));
            assert(obj_set_all(Seq::<(Seq<char>, Jv)>::empty(), nested->Obj_0)
                == nested->Obj_0) by {
                let b = nested->Obj_0;
                assert(b.len() == 1);
                assert(b[0] == (parts[0], spec_nest(parts.drop_first(), v)));
                let x = obj_set(Seq::<(Seq<char>, Jv)>::empty(), b[0].0, b[0].1);
                assert(b.drop_first() =~= Seq::<(Seq<char>, Jv)>::empty());
                assert(obj_set_all(x, b.drop_first()) == x);
                assert(x =~= b);
            }
            assert(r == Jv::Obj(nested->Obj_0));
            assert(r == nested) by {
                assert(Jv::Obj(nested->Obj_0) == nested);
            }
            lemma_select_nest(parts, v);
            assert(spec_select(r, parts) == v);
            assert(r2 == spec_merge(empty_obj, spec_nest(parts, v)));
            assert(r2 == r);
        }
    }
}


/// A dotted-path selector that resolves no array wildcard: not a shorthand
/// group, and none of its segments is `*` or carries the `[*]` marker.
pub open spec fn plain_path(f: Seq<char>) -> bool {
    &&& !is_group_selector(f)
    &&& f != "@all"@
    &&& forall|i: int|
        0 <= i < spec_dot_split(f).len() ==> ((#[trigger] spec_dot_split(f)[i]) != "*"@
            && !spec_has_wildcard_suffix(spec_dot_split(f)[i]))
}

/// The first segment of a selector path.
pub open spec fn head_of(f: Seq<char>) -> Seq<char> {
    spec_dot_split(f)[0]
}

/// Selector paths that start at pairwise different top-level keys.
pub open spec fn distinct_heads(fields: Seq<Seq<char>>) -> bool {
    forall|i: int, j: int|
        0 <= i < j < fields.len() ==> head_of(#[trigger] fields[i]) != head_of(
            #[trigger] fields[j],
        )
}

/// The contributions of a list of path selectors, in order: one field per
/// selector that resolves, holding the re-nested value under the path's
/// first segment.
pub open spec fn path_contribs(doc: Jv, fields: Seq<Seq<char>>) -> Seq<(Seq<char>, Jv)>
    decreases fields.len(),
{
    if fields.len() == 0 {
        Seq::empty()
    } else {
        let rest = path_contribs(doc, fields.drop_last());
        let f = fields.last();
        let v = spec_select(doc, spec_dot_split(f));
        if v is Null {
            rest
        } else {
            rest.push((head_of(f), spec_nest(spec_dot_split(f).drop_first(), v)))
        }
    }
}

proof fn lemma_fold_paths(doc: Jv, fields: Seq<Seq<char>>)
    requires
        forall|i: int| 0 <= i < fields.len() ==> plain_path(#[trigger] fields[i]),
        distinct_heads(fields),
    ensures
        spec_project_fields(doc, fields) == Jv::Obj(path_contribs(doc, fields)),
        forall|k: Seq<char>|
            key_in(path_contribs(doc, fields), k) ==> exists|i: int|
                0 <= i < fields.len() && head_of(#[trigger] fields[i]) == k,
    decreases fields.len(),
{
    if fields.len() == 0 {
        assert(spec_project_fields(doc, fields) == Jv::Obj(path_contribs(doc, fields)));
    } else {
        let pre = fields.drop_last();
        assert(forall|i: int| 0 <= i < pre.len() ==> #[trigger] pre[i] == fields[i]);
        lemma_fold_paths(doc, pre);
        let f = fields.last();
        assert(f == fields[fields.len() - 1]);
        assert(plain_path(f));
        let parts = spec_dot_split(f);
        lemma_dot_split_len(f);
        let v = spec_select(doc, parts);
        let acc = path_contribs(doc, pre);
        assert(spec_project_fields(doc, fields) == apply_selector(doc, Jv::Obj(acc), f));
        if v is Null {
            assert(path_contribs(doc, fields) == acc);
            assert forall|k: Seq<char>| key_in(path_contribs(doc, fields), k) implies exists|i: int|
                0 <= i < fields.len() && head_of(#[trigger] fields[i]) == k by {
                let i = choose|i: int| 0 <= i < pre.len() && head_of(#[trigger] pre[i]) == k;
                assert(head_of(fields[i]) == k);
            }
        } else {
            let h = head_of(f);
            let inner = spec_nest(parts.drop_first(), v);
            let nested = spec_nest(parts, v);
            assert(nested == Jv::Obj(seq![(h, inner)]));
            assert(apply_selector(doc, Jv::Obj(acc), f) == spec_merge(Jv::Obj(acc), nested));
            assert(!key_in(acc, h)) by {
                if key_in(acc, h) {
                    let i = choose|i: int| 0 <= i < pre.len() && head_of(#[trigger] pre[i]) == h;
                    assert(head_of(fields[i]) == head_of(fields[fields.len() - 1]));
                }
            }
            assert(forall|j: int| 0 <= j < acc.len() ==> (#[trigger] acc[j]).0 != h) by {
                assert(forall|j: int|
                    0 <= j < acc.len() && (#[trigger] acc[j]).0 == h ==> key_in(acc, h));
            }
            crate::json::lemma_obj_set_push(acc, h, inner);
            assert(obj_set_all(acc, nested->Obj_0) == acc.push((h, inner))) by {
                let b = nested->Obj_0;
                assert(b.len() == 1);
                assert(b[0] == (h, inner));
                let x = obj_set(acc, b[0].0, b[0].1);
                assert(b.drop_first() =~= Seq::<(Seq<char>, Jv)>::empty());
                assert(obj_set_all(x, b.drop_first()) == x);
                assert(x =~= acc.push((h, inner)));
            }
            assert(path_contribs(doc, fields) == acc.push((h, inner)));
            assert forall|k: Seq<char>| key_in(path_contribs(doc, fields), k) implies exists|i: int|
                0 <= i < fields.len() && head_of(#[trigger] fields[i]) == k by {
                let t = choose|t: int|
                    0 <= t < path_contribs(doc, fields).len() && (#[trigger] path_contribs(
                        doc,
                        fields,
                    )[t]).0 == k;
                if t < acc.len() {
                    assert(acc[t].0 == k);
                    assert(key_in(acc, k));
                    let i = choose|i: int| 0 <= i < pre.len() && head_of(#[trigger] pre[i]) == k;
                    assert(head_of(fields[i]) == k);
                } else {
                    assert(path_contribs(doc, fields)[t] == (h, inner));
                    assert(head_of(fields[fields.len() - 1]) == k);
                }
            }
        }
    }
}

proof fn lemma_contrib_lookup(doc: Jv, fields: Seq<Seq<char>>, i: int)
    requires
        forall|t: int| 0 <= t < fields.len() ==> plain_path(#[trigger] fields[t]),
        distinct_heads(fields),
        0 <= i < fields.len(),
    ensures
        ({
            let v = spec_select(doc, spec_dot_split(fields[i]));
            let looked = obj_get(path_contribs(doc, fields), head_of(fields[i]));
            if v is Null {
                looked is None
            } else {
                looked == Some(spec_nest(spec_dot_split(fields[i]).drop_first(), v))
            }
        }),
    decreases fields.len(),
{
    let pre = fields.drop_last();
    assert(forall|t: int| 0 <= t < pre.len() ==> #[trigger] pre[t] == fields[t]);
    let f = fields.last();
    let vlast = spec_select(doc, spec_dot_split(f));
    let acc = path_contribs(doc, pre);
    lemma_fold_paths(doc, pre);
    let h = head_of(fields[i]);
    if i < fields.len() - 1 {
        lemma_contrib_lookup(doc, pre, i);
        if vlast is Null {
            assert(path_contribs(doc, fields) == acc);
        } else {
            let inner = spec_nest(spec_dot_split(f).drop_first(), vlast);
            assert(path_contribs(doc, fields) == acc.push((head_of(f), inner)));
            crate::json::lemma_obj_get_push(acc, (head_of(f), inner), h);
            assert(head_of(f) != h);
            let v = spec_select(doc, spec_dot_split(fields[i]));
            if v is Null {
                assert(obj_get(acc, h) is None);
            }
        }
    } else {
        assert(fields[i] == f);
        if vlast is Null {
            assert(path_contribs(doc, fields) == acc);
            assert(!key_in(acc, h)) by {
                if key_in(acc, h) {
                    let t = choose|t: int| 0 <= t < pre.len() && head_of(#[trigger] pre[t]) == h;
                    assert(head_of(fields[t]) == head_of(fields[i]));
                }
            }
            assert(forall|j: int| 0 <= j < acc.len() ==> (#[trigger] acc[j]).0 != h) by {
                assert(forall|j: int|
                    0 <= j < acc.len() && (#[trigger] acc[j]).0 == h ==> key_in(acc, h));
            }
            crate::json::lemma_obj_get_none(acc, h);
        } else {
            let inner = spec_nest(spec_dot_split(f).drop_first(), vlast);
            assert(path_contribs(doc, fields) == acc.push((h, inner)));
            assert(!key_in(acc, h)) by {
                if key_in(acc, h) {
                    let t = choose|t: int| 0 <= t < pre.len() && head_of(#[trigger] pre[t]) == h;
                    assert(head_of(fields[t]) == head_of(fields[i]));
                }
            }
            assert(forall|j: int| 0 <= j < acc.len() ==> (#[trigger] acc[j]).0 != h) by {
                assert(forall|j: int|
                    0 <= j < acc.len() && (#[trigger] acc[j]).0 == h ==> key_in(acc, h));
            }
            crate::json::lemma_obj_get_none(acc, h);
            crate::json::lemma_obj_get_push(acc, (h, inner), h);
        }
    }
}

proof fn lemma_contribs_congruent(a: Jv, b: Jv, fields: Seq<Seq<char>>)
    requires
        forall|i: int|
            0 <= i < fields.len() ==> spec_select(a, spec_dot_split(#[trigger] fields[i]))
                == spec_select(b, spec_dot_split(fields[i])),
    ensures
        path_contribs(a, fields) == path_contribs(b, fields),
    decreases fields.len(),
{
    if fields.len() > 0 {
        let pre = fields.drop_last();
        assert(forall|i: int| 0 <= i < pre.len() ==> #[trigger] pre[i] == fields[i]);
        lemma_contribs_congruent(a, b, pre);
        assert(fields.last() == fields[fields.len() - 1]);
    }
}

/// Projecting twice with wildcard-free dotted paths that start at pairwise
/// different top-level keys changes nothing beyond the first projection.
/// Paths sharing a first segment are excluded: with selectors such as
/// `a.b`, `x`, `a.c` the second pass rebuilds the surviving `a` field
/// after `x` rather than at its first-bound place, so the field order of
/// the result shifts even though its bindings do not.
pub proof fn lemma_project_idempotent_paths(doc: Jv, fields: Seq<Seq<char>>)
    requires
        forall|i: int| 0 <= i < fields.len() ==> plain_path(#[trigger] fields[i]),
        distinct_heads(fields),
    ensures
        spec_project(spec_project(doc, fields), fields) == spec_project(doc, fields),
{
    if fields.len() == 0 {
    } else {
        assert(!spec_has_all(fields)) by {
            if spec_has_all(fields) {
                let i = choose|i: int| 0 <= i < fields.len() && #[trigger] fields[i] == "@all"@;
                assert(plain_path(fields[i]));
            }
        }
        lemma_fold_paths(doc, fields);
        let cs = path_contribs(doc, fields);
        let r = Jv::Obj(cs);
        assert(spec_project(doc, fields) == r);
        assert forall|i: int| 0 <= i < fields.len() implies spec_select(
            r,
            spec_dot_split(#[trigger] fields[i]),
        ) == spec_select(doc, spec_dot_split(fields[i])) by {
            lemma_contrib_lookup(doc, fields, i);
            let parts = spec_dot_split(fields[i]);
            lemma_dot_split_len(fields[i]);
            let v = spec_select(doc, parts);
            assert(plain_path(fields[i]));
            assert(parts[0] != "*"@ && !spec_has_wildcard_suffix(parts[0]));
            if v is Null {
                assert(obj_get(cs, parts[0]) is None);
            } else {
                assert(obj_get(cs, parts[0]) == Some(spec_nest(parts.drop_first(), v)));
                assert(forall|t: int|
                    0 <= t < parts.drop_first().len() ==> #[trigger] parts.drop_first()[t]
                        == parts[t + 1]);
                lemma_select_nest(parts.drop_first(), v);
            }
        }
        lemma_contribs_congruent(r, doc, fields);
        lemma_fold_paths(r, fields);
        assert(spec_project(r, fields) == Jv::Obj(path_contribs(r, fields)));
    }
}

/// The projector is the identity for an empty selector list and for any
/// list holding the `@all` shorthand.
pub proof fn lemma_project_identity(doc: Jv, fields: Seq<Seq<char>>)
    requires
        fields.len() == 0 || spec_has_all(fields),
    ensures
        spec_project(doc, fields) == doc,
{
}

} // verus!
