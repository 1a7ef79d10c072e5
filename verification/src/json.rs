//! The library's JSON tree: configuration documents, plugin stdin documents
//! and plugin output all pass through this type. Numbers carry their literal
//! text, so a document that merely passes through the library is preserved
//! verbatim. The only steps taken on trust are the two conversions between
//! text and tree, which `serde_json` performs.

use vstd::prelude::*;

use crate::strutil::str_eq;

verus! {

broadcast use vstd::std_specs::vec::axiom_vec_decreases_to_view, vstd::seq::axiom_seq_index_decreases;

/// A JSON document. Object entries keep their order; a number keeps the
/// literal text it was read with.
#[derive(Debug)]
pub enum Json {
    Null,
    Bool(bool),
    Num(String),
    Str(String),
    Arr(Vec<Json>),
    Obj(Vec<(String, Json)>),
}

/// The mathematical shape of a JSON document, the form the contracts speak of.
#[verifier::ext_equal]
pub enum JsonV {
    Null,
    Bool(bool),
    Num(Seq<char>),
    Str(Seq<char>),
    Arr(Seq<JsonV>),
    Obj(Seq<(Seq<char>, JsonV)>),
}

/// The shape of a sequence of JSON values.
pub open spec fn spec_elems_view(s: Seq<Json>) -> Seq<JsonV>
    decreases s,
{
    Seq::new(
        s.len(),
        |i: int|
            if 0 <= i < s.len() {
                json_view(s[i])
            } else {
                JsonV::Null
            },
    )
}

/// The shape of a sequence of object entries.
pub open spec fn spec_entries_view(s: Seq<(String, Json)>) -> Seq<(Seq<char>, JsonV)>
    decreases s,
{
    Seq::new(
        s.len(),
        |i: int|
            if 0 <= i < s.len() {
                (s[i].0@, json_view(s[i].1))
            } else {
                (Seq::<char>::empty(), JsonV::Null)
            },
    )
}

/// The shape of a JSON value.
pub open spec fn json_view(j: Json) -> JsonV
    decreases j,
{
    match j {
        Json::Null => JsonV::Null,
        Json::Bool(b) => JsonV::Bool(b),
        Json::Num(s) => JsonV::Num(s@),
        Json::Str(s) => JsonV::Str(s@),
        Json::Arr(v) => JsonV::Arr(spec_elems_view(v@)),
        Json::Obj(v) => JsonV::Obj(spec_entries_view(v@)),
    }
}

impl View for Json {
    type V = JsonV;

    open spec fn view(&self) -> JsonV {
        json_view(*self)
    }
}

impl Clone for Json {
    /// A clone has the same shape.
    fn clone(&self) -> (r: Json)
        ensures
            r@ == self@,
        decreases *self,
    {
        match self {
            Json::Null => Json::Null,
            Json::Bool(b) => Json::Bool(*b),
            Json::Num(s) => Json::Num(s.clone()),
            Json::Str(s) => Json::Str(s.clone()),
            Json::Arr(v) => {
                let mut out: Vec<Json> = Vec::new();
                let n = v.len();
                let mut i: usize = 0;
                while i < n
                    invariant
                        *self == Json::Arr(*v),
                        n == v@.len(),
                        0 <= i <= n,
                        out@.len() == i,
                        forall|k: int| 0 <= k < i ==> json_view(#[trigger] out@[k]) == json_view(v@[k]),
                    decreases n - i,
                {
                    proof {
                        assert(*v == self->Arr_0);
                        assert(decreases_to!(*self => self->Arr_0));
                        assert(decreases_to!(self->Arr_0 => self->Arr_0@));
                        assert(decreases_to!(self->Arr_0@ => self->Arr_0@[i as int]));
                        assert(decreases_to!(*self => v@[i as int]));
                    }
                    let e = v[i].clone();
                    out.push(e);
                    i = i + 1;
                }
                proof {
                    assert(spec_elems_view(out@) =~= spec_elems_view(v@));
                }
                Json::Arr(out)
            },
            Json::Obj(v) => {
                let mut out: Vec<(String, Json)> = Vec::new();
                let n = v.len();
                let mut i: usize = 0;
                while i < n
                    invariant
                        *self == Json::Obj(*v),
                        n == v@.len(),
                        0 <= i <= n,
                        out@.len() == i,
                        forall|k: int|
                            0 <= k < i ==> (#[trigger] out@[k]).0@ == v@[k].0@ && json_view(
                                out@[k].1,
                            ) == json_view(v@[k].1),
                    decreases n - i,
                {
                    proof {
                        assert(*v == self->Obj_0);
                        assert(decreases_to!(*self => self->Obj_0));
                        assert(decreases_to!(self->Obj_0 => self->Obj_0@));
                        assert(decreases_to!(self->Obj_0@ => self->Obj_0@[i as int]));
                        assert(decreases_to!(self->Obj_0@[i as int] => self->Obj_0@[i as int].1));
                        assert(decreases_to!(*self => v@[i as int].1));
                    }
                    let ks = v[i].0.clone();
                    let e = v[i].1.clone();
                    out.push((ks, e));
                    i = i + 1;
                }
                proof {
                    assert(spec_entries_view(out@) =~= spec_entries_view(v@));
                }
                Json::Obj(out)
            },
        }
    }
}

// --- object entries as a keyed mapping ----------------------------------

/// The value under the first entry with the given key, if any.
pub open spec fn kv_get(m: Seq<(Seq<char>, JsonV)>, k: Seq<char>) -> Option<JsonV>
    decreases m.len(),
{
    if m.len() == 0 {
        None
    } else if m[0].0 == k {
        Some(m[0].1)
    } else {
        kv_get(m.drop_first(), k)
    }
}

/// Whether some entry carries the given key.
pub open spec fn kv_has(m: Seq<(Seq<char>, JsonV)>, k: Seq<char>) -> bool {
    kv_get(m, k) is Some
}

/// Binds the key to the value: replaces the first entry with that key in
/// place, or appends a new entry.
pub open spec fn kv_set(m: Seq<(Seq<char>, JsonV)>, k: Seq<char>, v: JsonV) -> Seq<
    (Seq<char>, JsonV),
>
    decreases m.len(),
{
    if m.len() == 0 {
        seq![(k, v)]
    } else if m[0].0 == k {
        seq![(k, v)] + m.drop_first()
    } else {
        seq![m[0]] + kv_set(m.drop_first(), k, v)
    }
}

/// Every key occurs in at most one entry.
pub open spec fn kv_unique(m: Seq<(Seq<char>, JsonV)>) -> bool {
    forall|i: int, j: int| 0 <= i < j < m.len() ==> (#[trigger] m[i]).0 != (#[trigger] m[j]).0
}

proof fn lemma_kv_skip(m: Seq<(Seq<char>, JsonV)>, k: Seq<char>, i: int)
    requires
        0 <= i <= m.len(),
        forall|j: int| 0 <= j < i ==> (#[trigger] m[j]).0 != k,
    ensures
        kv_get(m, k) == kv_get(m.skip(i), k),
    decreases i,
{
    if i > 0 {
        assert(m.len() > 0);
        assert(m[0].0 != k);
        assert(m.drop_first() =~= m.skip(1));
        lemma_kv_skip(m.drop_first(), k, i - 1);
        assert(m.drop_first().skip(i - 1) =~= m.skip(i));
    } else {
        assert(m.skip(0) =~= m);
    }
}

proof fn lemma_kv_set_at(m: Seq<(Seq<char>, JsonV)>, k: Seq<char>, v: JsonV, i: int)
    requires
        0 <= i < m.len(),
        m[i].0 == k,
        forall|j: int| 0 <= j < i ==> (#[trigger] m[j]).0 != k,
    ensures
        kv_set(m, k, v) =~= m.update(i, (k, v)),
    decreases i,
{
    if i == 0 {
        assert(kv_set(m, k, v) == seq![(k, v)] + m.drop_first());
        assert(seq![(k, v)] + m.drop_first() =~= m.update(0, (k, v)));
    } else {
        assert(m[0].0 != k);
        let t = m.drop_first();
        assert(t[i - 1] == m[i]);
        assert(forall|j: int| 0 <= j < i - 1 ==> (#[trigger] t[j]).0 != k);
        lemma_kv_set_at(t, k, v, i - 1);
        assert(seq![m[0]] + t.update(i - 1, (k, v)) =~= m.update(i, (k, v)));
    }
}

pub proof fn lemma_kv_set_absent(m: Seq<(Seq<char>, JsonV)>, k: Seq<char>, v: JsonV)
    requires
        forall|j: int| 0 <= j < m.len() ==> (#[trigger] m[j]).0 != k,
    ensures
        kv_set(m, k, v) =~= m.push((k, v)),
    decreases m.len(),
{
    if m.len() > 0 {
        let t = m.drop_first();
        lemma_kv_set_absent(t, k, v);
        assert(seq![m[0]] + t.push((k, v)) =~= m.push((k, v)));
    }
}

/// After binding a key, looking that key up finds the new value and any
/// other key is untouched.
pub proof fn lemma_kv_set_get(m: Seq<(Seq<char>, JsonV)>, k: Seq<char>, v: JsonV, q: Seq<char>)
    ensures
        kv_get(kv_set(m, k, v), q) == (if q == k {
            Some(v)
        } else {
            kv_get(m, q)
        }),
    decreases m.len(),
{
    if m.len() == 0 {
        assert(kv_set(m, k, v) == seq![(k, v)]);
        assert(kv_set(m, k, v).drop_first() =~= Seq::<(Seq<char>, JsonV)>::empty());
    } else if m[0].0 == k {
        let s = kv_set(m, k, v);
        assert(s == seq![(k, v)] + m.drop_first());
        assert(s.drop_first() =~= m.drop_first());
        if q != k && q == m[0].0 {
            assert(false);
        }
    } else {
        let s = kv_set(m, k, v);
        assert(s == seq![m[0]] + kv_set(m.drop_first(), k, v));
        assert(s[0] == m[0]);
        assert(s.drop_first() =~= kv_set(m.drop_first(), k, v));
        lemma_kv_set_get(m.drop_first(), k, v, q);
    }
}

/// Binding a key keeps keys unique.
pub proof fn lemma_kv_set_unique(m: Seq<(Seq<char>, JsonV)>, k: Seq<char>, v: JsonV)
    requires
        kv_unique(m),
    ensures
        kv_unique(kv_set(m, k, v)),
    decreases m.len(),
{
    if m.len() == 0 {
    } else if m[0].0 == k {
        let s = seq![(k, v)] + m.drop_first();
        assert forall|i: int, j: int| 0 <= i < j < s.len() implies (#[trigger] s[i]).0 != (
        #[trigger] s[j]).0 by {
            if i == 0 {
                assert(s[j] == m[j]);
                assert(m[0].0 != m[j].0);
            } else {
                assert(s[i] == m[i] && s[j] == m[j]);
            }
        }
    } else {
        let t = kv_set(m.drop_first(), k, v);
        assert(kv_unique(m.drop_first())) by {
            assert(forall|i: int, j: int|
                0 <= i < j < m.drop_first().len() ==> (#[trigger] m.drop_first()[i]).0 != (
                #[trigger] m.drop_first()[j]).0);
        }
        lemma_kv_set_unique(m.drop_first(), k, v);
        lemma_kv_keys_set(m.drop_first(), k, v);
        let s = seq![m[0]] + t;
        assert forall|i: int, j: int| 0 <= i < j < s.len() implies (#[trigger] s[i]).0 != (
        #[trigger] s[j]).0 by {
            if i == 0 {
                // s[j] is an entry of t: its key is k or a key of the tail.
                assert(t[j - 1].0 == k || kv_has(m.drop_first(), t[j - 1].0));
                if t[j - 1].0 == k {
                } else {
                    lemma_kv_has_index(m.drop_first(), t[j - 1].0);
                }
            } else {
                assert(s[i] == t[i - 1] && s[j] == t[j - 1]);
            }
        }
    }
}

/// Every key of a bound mapping is the bound key or a key of the original.
proof fn lemma_kv_keys_set(m: Seq<(Seq<char>, JsonV)>, k: Seq<char>, v: JsonV)
    ensures
        forall|j: int|
            0 <= j < kv_set(m, k, v).len() ==> (#[trigger] kv_set(m, k, v)[j]).0 == k || kv_has(
                m,
                kv_set(m, k, v)[j].0,
            ),
    decreases m.len(),
{
    let s = kv_set(m, k, v);
    if m.len() == 0 {
    } else if m[0].0 == k {
        assert forall|j: int| 0 <= j < s.len() implies (#[trigger] s[j]).0 == k || kv_has(
            m,
            s[j].0,
        ) by {
            if j > 0 {
                assert(s[j] == m[j]);
                lemma_kv_index_has(m, j);
            }
        }
    } else {
        lemma_kv_keys_set(m.drop_first(), k, v);
        let t = kv_set(m.drop_first(), k, v);
        assert forall|j: int| 0 <= j < s.len() implies (#[trigger] s[j]).0 == k || kv_has(
            m,
            s[j].0,
        ) by {
            if j == 0 {
                assert(s[0] == m[0]);
                lemma_kv_index_has(m, 0);
            } else {
                assert(s[j] == t[j - 1]);
                if t[j - 1].0 != k {
                    assert(kv_has(m.drop_first(), t[j - 1].0));
                    lemma_kv_has_tail(m, t[j - 1].0);
                }
            }
        }
    }
}

/// A key found in the tail is found in the whole.
proof fn lemma_kv_has_tail(m: Seq<(Seq<char>, JsonV)>, k: Seq<char>)
    requires
        m.len() > 0,
        kv_has(m.drop_first(), k),
    ensures
        kv_has(m, k),
{
}

/// The key at any index is found.
pub proof fn lemma_kv_index_has(m: Seq<(Seq<char>, JsonV)>, i: int)
    requires
        0 <= i < m.len(),
    ensures
        kv_has(m, m[i].0),
    decreases i,
{
    if m[0].0 != m[i].0 {
        assert(i > 0);
        assert(m.drop_first()[i - 1] == m[i]);
        lemma_kv_index_has(m.drop_first(), i - 1);
    }
}

/// A found key stands at some index.
pub proof fn lemma_kv_has_index(m: Seq<(Seq<char>, JsonV)>, k: Seq<char>)
    requires
        kv_has(m, k),
    ensures
        exists|i: int| 0 <= i < m.len() && (#[trigger] m[i]).0 == k,
    decreases m.len(),
{
    if m[0].0 == k {
        assert(m[0].0 == k);
    } else {
        lemma_kv_has_index(m.drop_first(), k);
        let i = choose|i: int| 0 <= i < m.drop_first().len() && (#[trigger] m.drop_first()[i]).0
            == k;
        assert(m[i + 1] == m.drop_first()[i]);
    }
}

// --- executable object entry operations ---------------------------------

/// Looks a key up among object entries: the first entry wins.
pub fn obj_get<'a>(entries: &'a Vec<(String, Json)>, key: &str) -> (r: Option<&'a Json>)
    ensures
        match r {
            Some(j) => kv_get(spec_entries_view(entries@), key@) == Some(j@),
            None => kv_get(spec_entries_view(entries@), key@) is None,
        },
{
    let ghost m = spec_entries_view(entries@);
    let n = entries.len();
    let mut i: usize = 0;
    while i < n
        invariant
            n == entries@.len(),
            0 <= i <= n,
            m == spec_entries_view(entries@),
            forall|j: int| 0 <= j < i ==> (#[trigger] m[j]).0 != key@,
        decreases n - i,
    {
        if str_eq(entries[i].0.as_str(), key) {
            proof {
                lemma_kv_skip(m, key@, i as int);
                assert(m.skip(i as int)[0] == m[i as int]);
            }
            return Some(&entries[i].1);
        }
        i = i + 1;
    }
    proof {
        lemma_kv_skip(m, key@, n as int);
        assert(m.skip(n as int) =~= Seq::<(Seq<char>, JsonV)>::empty());
    }
    None
}

/// Binds a key among object entries: replaces the first entry with that key
/// in place, or appends one.
pub fn obj_set(entries: &mut Vec<(String, Json)>, key: String, val: Json)
    ensures
        spec_entries_view(final(entries)@) == kv_set(
            spec_entries_view(old(entries)@),
            key@,
            val@,
        ),
{
    let ghost m = spec_entries_view(old(entries)@);
    let n = entries.len();
    let mut i: usize = 0;
    while i < n
        invariant
            n == entries@.len(),
            0 <= i <= n,
            entries@ == old(entries)@,
            m == spec_entries_view(entries@),
            forall|j: int| 0 <= j < i ==> (#[trigger] m[j]).0 != key@,
        decreases n - i,
    {
        if str_eq(entries[i].0.as_str(), key.as_str()) {
            proof {
                lemma_kv_set_at(m, key@, val@, i as int);
            }
            entries.set(i, (key, val));
            proof {
                assert(spec_entries_view(entries@) =~= m.update(i as int, (key@, val@)));
            }
            return ;
        }
        i = i + 1;
    }
    proof {
        lemma_kv_set_absent(m, key@, val@);
    }
    entries.push((key, val));
    proof {
        assert(spec_entries_view(entries@) =~= m.push((key@, val@)));
    }
}

/// Where the first entry with the key stands at a known index, the lookup
/// finds its value.
pub proof fn lemma_kv_get_at(m: Seq<(Seq<char>, JsonV)>, k: Seq<char>, i: int)
    requires
        0 <= i < m.len(),
        m[i].0 == k,
        forall|j: int| 0 <= j < i ==> (#[trigger] m[j]).0 != k,
    ensures
        kv_get(m, k) == Some(m[i].1),
{
    lemma_kv_skip(m, k, i);
    assert(m.skip(i)[0] == m[i]);
}

/// A key no entry carries is not found.
pub proof fn lemma_kv_get_absent(m: Seq<(Seq<char>, JsonV)>, k: Seq<char>)
    requires
        forall|j: int| 0 <= j < m.len() ==> (#[trigger] m[j]).0 != k,
    ensures
        kv_get(m, k) is None,
{
    lemma_kv_skip(m, k, m.len() as int);
    assert(m.skip(m.len() as int) =~= Seq::<(Seq<char>, JsonV)>::empty());
}

/// A value's shape has the same constructor as the value.
pub proof fn lemma_json_view_variants(j: Json)
    ensures
        json_view(j) is Null <==> j is Null,
        json_view(j) is Bool <==> j is Bool,
        json_view(j) is Num <==> j is Num,
        json_view(j) is Str <==> j is Str,
        json_view(j) is Arr <==> j is Arr,
        json_view(j) is Obj <==> j is Obj,
{
    match j {
        Json::Null => {},
        Json::Bool(_) => {},
        Json::Num(_) => {},
        Json::Str(_) => {},
        Json::Arr(_) => {},
        Json::Obj(_) => {},
    }
}

/// Copies object entries; the copy has the same shape.
pub fn clone_entries(entries: &Vec<(String, Json)>) -> (r: Vec<(String, Json)>)
    ensures
        spec_entries_view(r@) == spec_entries_view(entries@),
{
    let mut out: Vec<(String, Json)> = Vec::new();
    let n = entries.len();
    let mut i: usize = 0;
    while i < n
        invariant
            n == entries@.len(),
            0 <= i <= n,
            out@.len() == i,
            forall|k: int|
                0 <= k < i ==> (#[trigger] out@[k]).0@ == entries@[k].0@ && json_view(out@[k].1)
                    == json_view(entries@[k].1),
        decreases n - i,
    {
        let ks = entries[i].0.clone();
        let v = entries[i].1.clone();
        out.push((ks, v));
        i = i + 1;
    }
    proof {
        assert(spec_entries_view(out@) =~= spec_entries_view(entries@));
    }
    out
}

// --- the trusted bridge to serde_json ------------------------------------

#[verifier::external_type_specification]
#[verifier::external_body]
pub struct ExSerdeValue(serde_json::Value);

/// The tree a JSON text parses to, or nothing where the text is not JSON.
/// `serde_json` defines this reading; nothing in the library says which
/// texts parse, beyond the facts stated on `json_parse`.
pub uninterp spec fn json_tree_of(s: Seq<char>) -> Option<JsonV>;

/// The text a JSON tree prints to, or nothing where a number in the tree
/// carries text that is not a JSON number. `serde_json` defines the printing.
pub uninterp spec fn json_text_of(j: JsonV) -> Option<Seq<char>>;

/// Part of the trusted bridge to `serde_json`: rebuilds a parsed
/// `serde_json::Value` as the library's tree, one variant at a time. A
/// number becomes the text `serde_json::Number::to_string` prints; a map's
/// entries arrive in the order the map iterates.
#[verifier::external_body]
fn value_to_json(v: serde_json::Value) -> Json {
    match v {
        serde_json::Value::Null => Json::Null,
        serde_json::Value::Bool(b) => Json::Bool(b),
        serde_json::Value::Number(n) => Json::Num(n.to_string()),
        serde_json::Value::String(s) => Json::Str(s),
        serde_json::Value::Array(a) => Json::Arr(a.into_iter().map(value_to_json).collect()),
        serde_json::Value::Object(o) => Json::Obj(
            o.into_iter().map(|(k, w)| (k, value_to_json(w))).collect(),
        ),
    }
}

/// Relies on `serde_json::from_str::<serde_json::Value>`: the tree a text
/// parses to is a function of the text alone.
#[verifier::external_body]
pub fn json_parse(s: &str) -> (r: Option<Json>)
    ensures
        match r {
            Some(j) => json_tree_of(s@) == Some(j@),
            None => json_tree_of(s@) is None,
        },
{
    match serde_json::from_str::<serde_json::Value>(s) {
        Ok(v) => Some(value_to_json(v)),
        Err(_) => None,
    }
}

/// Part of the trusted bridge to `serde_json`: rebuilds the library's tree
/// as a `serde_json::Value`, one variant at a time. A number's text goes
/// through `serde_json::Number::from_str`; where that fails, the whole
/// conversion yields nothing.
#[verifier::external_body]
fn json_to_value(j: &Json) -> Option<serde_json::Value> {
    Some(match j {
        Json::Null => serde_json::Value::Null,
        Json::Bool(b) => serde_json::Value::Bool(*b),
        Json::Num(s) => serde_json::Value::Number(s.parse().ok()?),
        Json::Str(s) => serde_json::Value::String(s.clone()),
        Json::Arr(a) => serde_json::Value::Array(
            a.iter().map(json_to_value).collect::<Option<Vec<serde_json::Value>>>()?,
        ),
        Json::Obj(o) => serde_json::Value::Object(
            o.iter().map(
                |(k, w)| Some((k.clone(), json_to_value(w)?)),
            ).collect::<Option<serde_json::Map<String, serde_json::Value>>>()?,
        ),
    })
}

/// Relies on `serde_json::to_string` and `serde_json::Number::from_str`:
/// the text a tree prints to is a function of the tree alone, and printing
/// fails exactly where some number's text is not readable back as a JSON
/// number.
#[verifier::external_body]
pub fn json_emit(j: &Json) -> (r: Option<String>)
    ensures
        match r {
            Some(t) => json_text_of(j@) == Some(t@),
            None => json_text_of(j@) is None,
        },
{
    let v = json_to_value(j)?;
    match serde_json::to_string(&v) {
        Ok(t) => Some(t),
        Err(_) => None,
    }
}

} // verus!
