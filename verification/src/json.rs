//! A self-contained JSON document model.
//!
//! `Json` is the executable representation; `Jv` is its mathematical shape,
//! reached through `Json::jv` (also exposed as `DeepView`). Objects keep
//! their fields in insertion order; `obj_get` and `obj_set` give the
//! first-match-wins reading used throughout the library.

use vstd::prelude::*;

verus! {

broadcast use vstd::std_specs::vec::axiom_vec_index_decreases;

/// An executable JSON document. Numbers that fit `i64` are held exactly;
/// any other numeric literal is carried as its textual form in `NumStr`.
pub enum Json {
    Null,
    Bool(bool),
    Int(i64),
    NumStr(String),
    Str(String),
    Arr(Vec<Json>),
    Obj(Vec<(String, Json)>),
}

/// The mathematical shape of a `Json` document.
#[verifier::ext_equal]
pub enum Jv {
    Null,
    Bool(bool),
    Int(i64),
    NumStr(Seq<char>),
    Str(Seq<char>),
    Arr(Seq<Jv>),
    Obj(Seq<(Seq<char>, Jv)>),
}

impl Json {
    /// The mathematical value of this document.
    pub open spec fn jv(self) -> Jv
        decreases self,
    {
        match self {
            Json::Null => Jv::Null,
            Json::Bool(b) => Jv::Bool(b),
            Json::Int(i) => Jv::Int(i),
            Json::NumStr(s) => Jv::NumStr(s@),
            Json::Str(s) => Jv::Str(s@),
            Json::Arr(v) => Jv::Arr(
                Seq::new(
                    v@.len(),
                    |i: int| if 0 <= i < v@.len() { v@[i].jv() } else { Jv::Null },
                ),
            ),
            Json::Obj(m) => Jv::Obj(
                Seq::new(
                    m@.len(),
                    |i: int|
                        if 0 <= i < m@.len() {
                            (m@[i].0@, m@[i].1.jv())
                        } else {
                            (Seq::empty(), Jv::Null)
                        },
                ),
            ),
        }
    }
}

impl DeepView for Json {
    type V = Jv;

    open spec fn deep_view(&self) -> Jv {
        self.jv()
    }
}

/// An array's value is the pointwise value of its elements.
pub broadcast proof fn lemma_jv_arr(v: Vec<Json>)
    ensures
        (#[trigger] Json::Arr(v).jv()) == Jv::Arr(v.deep_view()),
{
    assert(Json::Arr(v).jv()->Arr_0 =~= v.deep_view());
}

/// An object's value is the pointwise value of its fields.
pub broadcast proof fn lemma_jv_obj(m: Vec<(String, Json)>)
    ensures
        (#[trigger] Json::Obj(m).jv()) == Jv::Obj(m.deep_view()),
{
    assert(Json::Obj(m).jv()->Obj_0 =~= m.deep_view());
}

/// The value under the first field named `k`, if any.
pub open spec fn obj_get(fs: Seq<(Seq<char>, Jv)>, k: Seq<char>) -> Option<Jv>
    decreases fs.len(),
{
    if fs.len() == 0 {
        None
    } else if fs[0].0 == k {
        Some(fs[0].1)
    } else {
        obj_get(fs.drop_first(), k)
    }
}

/// Binds `k` to `v`: in place of the first field named `k`, or appended.
pub open spec fn obj_set(fs: Seq<(Seq<char>, Jv)>, k: Seq<char>, v: Jv) -> Seq<(Seq<char>, Jv)>
    decreases fs.len(),
{
    if fs.len() == 0 {
        seq![(k, v)]
    } else if fs[0].0 == k {
        seq![(k, v)] + fs.drop_first()
    } else {
        seq![fs[0]] + obj_set(fs.drop_first(), k, v)
    }
}

proof fn lemma_obj_set_update(fs: Seq<(Seq<char>, Jv)>, k: Seq<char>, v: Jv, i: int)
    requires
        0 <= i < fs.len(),
        fs[i].0 == k,
        forall|j: int| 0 <= j < i ==> fs[j].0 != k,
    ensures
        obj_set(fs, k, v) =~= fs.update(i, (k, v)),
    decreases i,
{
    if i == 0 {
    } else {
        assert(fs.drop_first()[i - 1].0 == k);
        assert(forall|j: int| 0 <= j < i - 1 ==> fs.drop_first()[j].0 != k);
        lemma_obj_set_update(fs.drop_first(), k, v, i - 1);
    }
}

pub proof fn lemma_obj_set_push(fs: Seq<(Seq<char>, Jv)>, k: Seq<char>, v: Jv)
    requires
        forall|j: int| 0 <= j < fs.len() ==> fs[j].0 != k,
    ensures
        obj_set(fs, k, v) =~= fs.push((k, v)),
    decreases fs.len(),
{
    if fs.len() > 0 {
        assert(forall|j: int| 0 <= j < fs.drop_first().len() ==> fs.drop_first()[j].0 != k);
        lemma_obj_set_push(fs.drop_first(), k, v);
    }
}

/// The index of the first field named `k`, if any.
pub fn obj_find(fields: &Vec<(String, Json)>, k: &str) -> (r: Option<usize>)
    ensures
        match r {
            Some(i) => 0 <= i < fields@.len() && fields@[i as int].0@ == k@ && forall|j: int|
                0 <= j < i ==> fields@[j].0@ != k@,
            None => forall|j: int| 0 <= j < fields@.len() ==> fields@[j].0@ != k@,
        },
{
    let n = fields.len();
    let mut i: usize = 0;
    while i < n
        invariant
            0 <= i <= n,
            n == fields@.len(),
            forall|j: int| 0 <= j < i ==> fields@[j].0@ != k@,
        decreases n - i,
    {
        if crate::text::str_eq(fields[i].0.as_str(), k) {
            return Some(i);
        }
        i += 1;
    }
    None
}

proof fn lemma_obj_get_at(fs: Seq<(Seq<char>, Jv)>, k: Seq<char>, i: int)
    requires
        0 <= i < fs.len(),
        fs[i].0 == k,
        forall|j: int| 0 <= j < i ==> fs[j].0 != k,
    ensures
        obj_get(fs, k) == Some(fs[i].1),
    decreases i,
{
    if i > 0 {
        assert(fs.drop_first()[i - 1].0 == k);
        assert(forall|j: int| 0 <= j < i - 1 ==> fs.drop_first()[j].0 != k);
        lemma_obj_get_at(fs.drop_first(), k, i - 1);
    }
}

pub proof fn lemma_obj_get_none(fs: Seq<(Seq<char>, Jv)>, k: Seq<char>)
    requires
        forall|j: int| 0 <= j < fs.len() ==> fs[j].0 != k,
    ensures
        obj_get(fs, k) is None,
    decreases fs.len(),
{
    if fs.len() > 0 {
        assert(forall|j: int| 0 <= j < fs.drop_first().len() ==> fs.drop_first()[j].0 != k);
        lemma_obj_get_none(fs.drop_first(), k);
    }
}

/// Looks a field up by name.
pub fn obj_get_field<'a>(fields: &'a Vec<(String, Json)>, k: &str) -> (r: Option<&'a Json>)
    ensures
        match r {
            Some(j) => obj_get(fields.deep_view(), k@) == Some(j.jv()),
            None => obj_get(fields.deep_view(), k@) is None,
        },
{
    match obj_find(fields, k) {
        Some(i) => {
            proof {
                let ii = i as int;
                assert(fields.deep_view()[ii] == (fields@[ii].0@, fields@[ii].1.jv()));
                assert(forall|j: int|
                    0 <= j < i ==> #[trigger] fields.deep_view()[j].0 == fields@[j].0@);
                lemma_obj_get_at(fields.deep_view(), k@, ii);
            }
            Some(&fields[i].1)
        },
        None => {
            proof {
                assert(forall|j: int|
                    0 <= j < fields@.len() ==> #[trigger] fields.deep_view()[j].0
                        == fields@[j].0@);
                lemma_obj_get_none(fields.deep_view(), k@);
            }
            None
        },
    }
}

/// Binds `k` to `v` in the field list, replacing the first field of that
/// name or appending a new one.
pub fn obj_put(fields: &mut Vec<(String, Json)>, k: String, v: Json)
    ensures
        final(fields).deep_view() == obj_set(old(fields).deep_view(), k@, v.jv()),
{
    let ghost fs0 = fields.deep_view();
    match obj_find(fields, k.as_str()) {
        Some(i) => {
            proof {
                assert(fs0[i as int].0 == k@);
                assert(forall|j: int| 0 <= j < i ==> #[trigger] fs0[j].0 == old(fields)@[j].0@);
                lemma_obj_set_update(fs0, k@, v.jv(), i as int);
            }
            fields.remove(i);
            fields.insert(i, (k, v));
            proof {
                assert(fields.deep_view() =~= fs0.update(i as int, (k@, v.jv())));
            }
        },
        None => {
            proof {
                assert(forall|j: int|
                    0 <= j < fs0.len() ==> #[trigger] fs0[j].0 == old(fields)@[j].0@);
                lemma_obj_set_push(fs0, k@, v.jv());
            }
            fields.push((k, v));
            proof {
                assert(fields.deep_view() =~= fs0.push((k@, v.jv())));
            }
        },
    }
}

impl Json {
    /// A structurally equal copy of the document.
    #[verifier::loop_isolation(false)]
    pub fn deep_copy(&self) -> (r: Json)
        ensures
            r.jv() == self.jv(),
        decreases self,
    {
        broadcast use lemma_jv_arr, lemma_jv_obj;

        match self {
            Json::Null => Json::Null,
            Json::Bool(b) => Json::Bool(*b),
            Json::Int(i) => Json::Int(*i),
            Json::NumStr(s) => Json::NumStr(s.clone()),
            Json::Str(s) => Json::Str(s.clone()),
            Json::Arr(v) => {
                let n = v.len();
                let mut out: Vec<Json> = Vec::new();
                let mut i: usize = 0;
                while i < n
                    invariant
                        0 <= i <= n,
                        n == v@.len(),
                        self == Json::Arr(*v),
                        out.deep_view() == v.deep_view().take(i as int),
                    decreases n - i,
                {
                    let ghost out0 = out.deep_view();
                    out.push(v[i].deep_copy());
                    proof {
                        assert(out.deep_view() =~= out0.push(v.deep_view()[i as int]));
                        assert(out.deep_view() =~= v.deep_view().take(i + 1));
                    }
                    i += 1;
                }
                proof {
                    assert(out.deep_view() =~= v.deep_view());
                }
                Json::Arr(out)
            },
            Json::Obj(m) => {
                let n = m.len();
                let mut out: Vec<(String, Json)> = Vec::new();
                let mut i: usize = 0;
                while i < n
                    invariant
                        0 <= i <= n,
                        n == m@.len(),
                        self == Json::Obj(*m),
                        out.deep_view() == m.deep_view().take(i as int),
                    decreases n - i,
                {
                    let ghost out0 = out.deep_view();
                    let key = m[i].0.clone();
                    let val = m[i].1.deep_copy();
                    out.push((key, val));
                    proof {
                        assert(out.deep_view() =~= out0.push(m.deep_view()[i as int]));
                        assert(out.deep_view() =~= m.deep_view().take(i + 1));
                    }
                    i += 1;
                }
                proof {
                    assert(out.deep_view() =~= m.deep_view());
                }
                Json::Obj(out)
            },
        }
    }
}

/// Decides structural equality of two documents.
#[verifier::loop_isolation(false)]
pub fn json_eq(a: &Json, b: &Json) -> (r: bool)
    ensures
        r == (a.jv() == b.jv()),
    decreases a,
{
    broadcast use lemma_jv_arr, lemma_jv_obj;

    match (a, b) {
        (Json::Null, Json::Null) => true,
        (Json::Bool(x), Json::Bool(y)) => x == y,
        (Json::Int(x), Json::Int(y)) => x == y,
        (Json::NumStr(x), Json::NumStr(y)) => crate::text::str_eq(x.as_str(), y.as_str()),
        (Json::Str(x), Json::Str(y)) => crate::text::str_eq(x.as_str(), y.as_str()),
        (Json::Arr(x), Json::Arr(y)) => {
            if x.len() != y.len() {
                proof {
                    assert(x.deep_view().len() != y.deep_view().len());
                }
                return false;
            }
            let n = x.len();
            let mut i: usize = 0;
            while i < n
                invariant
                    0 <= i <= n,
                    n == x@.len(),
                    n == y@.len(),
                    a == Json::Arr(*x),
                    b == Json::Arr(*y),
                    forall|j: int| 0 <= j < i ==> x.deep_view()[j] == y.deep_view()[j],
                decreases n - i,
            {
                if !json_eq(&x[i], &y[i]) {
                    proof {
                        assert(x.deep_view()[i as int] != y.deep_view()[i as int]);
                    }
                    return false;
                }
                i += 1;
            }
            proof {
                assert(x.deep_view() =~= y.deep_view());
            }
            true
        },
        (Json::Obj(x), Json::Obj(y)) => {
            if x.len() != y.len() {
                proof {
                    assert(x.deep_view().len() != y.deep_view().len());
                }
                return false;
            }
            let n = x.len();
            let mut i: usize = 0;
            while i < n
                invariant
                    0 <= i <= n,
                    n == x@.len(),
                    n == y@.len(),
                    a == Json::Obj(*x),
                    b == Json::Obj(*y),
                    forall|j: int| 0 <= j < i ==> x.deep_view()[j] == y.deep_view()[j],
                decreases n - i,
            {
                if !crate::text::str_eq(x[i].0.as_str(), y[i].0.as_str()) {
                    proof {
                        assert(x.deep_view()[i as int].0 != y.deep_view()[i as int].0);
                    }
                    return false;
                }
                if !json_eq(&x[i].1, &y[i].1) {
                    proof {
                        assert(x.deep_view()[i as int].1 != y.deep_view()[i as int].1);
                    }
                    return false;
                }
                proof {
                    assert(x.deep_view()[i as int] == y.deep_view()[i as int]);
                }
                i += 1;
            }
            proof {
                assert(x.deep_view() =~= y.deep_view());
            }
            true
        },
        _ => {
            proof {
                assert(a.jv() != b.jv());
            }
            false
        },
    }
}

/// Re-binding a name to the value it already carries changes nothing.
pub proof fn lemma_obj_set_same(fs: Seq<(Seq<char>, Jv)>, k: Seq<char>, v: Jv)
    requires
        obj_get(fs, k) == Some(v),
    ensures
        obj_set(fs, k, v) == fs,
    decreases fs.len(),
{
    if fs.len() > 0 {
        if fs[0].0 == k {
            assert(fs[0] == (k, v));
            assert(seq![(k, v)] + fs.drop_first() =~= fs);
        } else {
            lemma_obj_set_same(fs.drop_first(), k, v);
            assert(seq![fs[0]] + obj_set(fs.drop_first(), k, v) =~= fs);
        }
    }
}

/// After a bind, looking the bound name up gives the bound value, and any
/// other name resolves as before.
pub proof fn lemma_obj_set_get(fs: Seq<(Seq<char>, Jv)>, k: Seq<char>, v: Jv, q: Seq<char>)
    ensures
        obj_get(obj_set(fs, k, v), q) == if q == k {
            Some(v)
        } else {
            obj_get(fs, q)
        },
    decreases fs.len(),
{
    if fs.len() == 0 {
        let g = obj_set(fs, k, v);
        assert(g =~= seq![(k, v)]);
        assert(g[0] == (k, v));
        assert(g.drop_first() =~= Seq::<(Seq<char>, Jv)>::empty());
        assert(obj_get(g.drop_first(), q) is None);
    } else if fs[0].0 == k {
        let g = seq![(k, v)] + fs.drop_first();
        assert(g[0] == (k, v));
        assert(g.drop_first() =~= fs.drop_first());
    } else {
        lemma_obj_set_get(fs.drop_first(), k, v, q);
        let g = seq![fs[0]] + obj_set(fs.drop_first(), k, v);
        assert(g[0] == fs[0]);
        assert(g.drop_first() =~= obj_set(fs.drop_first(), k, v));
    }
}

/// Looking up in a list extended on the right: the old binding wins, the
/// new one answers only for a fresh name.
pub proof fn lemma_obj_get_push(fs: Seq<(Seq<char>, Jv)>, x: (Seq<char>, Jv), k: Seq<char>)
    ensures
        obj_get(fs.push(x), k) == match obj_get(fs, k) {
            Some(v) => Some(v),
            None => if x.0 == k {
                Some(x.1)
            } else {
                None
            },
        },
    decreases fs.len(),
{
    if fs.len() == 0 {
        assert(fs.push(x)[0] == x);
        assert(fs.push(x).drop_first() =~= Seq::<(Seq<char>, Jv)>::empty());
    } else {
        assert(fs.push(x)[0] == fs[0]);
        assert(fs.push(x).drop_first() =~= fs.drop_first().push(x));
        lemma_obj_get_push(fs.drop_first(), x, k);
    }
}

impl Json {
    /// Looks a field up by name; `None` on any non-object.
    pub fn get<'a>(&'a self, k: &str) -> (r: Option<&'a Json>)
        ensures
            match self.jv() {
                Jv::Obj(fs) => match r {
                    Some(v) => obj_get(fs, k@) == Some(v.jv()),
                    None => obj_get(fs, k@) is None,
                },
                _ => r is None,
            },
    {
        broadcast use lemma_jv_obj;

        match self {
            Json::Obj(m) => obj_get_field(m, k),
            _ => None,
        }
    }
}

} // verus!
