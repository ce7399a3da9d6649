//! A structured-document tree: string-keyed maps, ordered sequences and
//! scalars, together with its mathematical model.
//!
//! Objects are association lists so that the order of keys, as decoded,
//! is kept; lookups take the first entry with a matching key.
use vstd::prelude::*;

verus! {

/// A decoded structured document. Numbers are carried as their decimal
/// rendering: this engine never computes with them, it only moves them
/// around and compares them.
#[derive(Debug, PartialEq, Eq)]
pub enum Json {
    Null,
    Bool(bool),
    Num(String),
    Str(String),
    Arr(Vec<Json>),
    Obj(Vec<(String, Json)>),
}

/// The mathematical model of a document tree.
#[verifier::ext_equal]
pub enum JsonModel {
    Null,
    Bool(bool),
    Num(Seq<char>),
    Str(Seq<char>),
    Arr(Seq<JsonModel>),
    Obj(Seq<(Seq<char>, JsonModel)>),
}

pub open spec fn view_of(j: Json) -> JsonModel
    decreases j,
{
    match j {
        Json::Null => JsonModel::Null,
        Json::Bool(b) => JsonModel::Bool(b),
        Json::Num(s) => JsonModel::Num(s@),
        Json::Str(s) => JsonModel::Str(s@),
        Json::Arr(items) => JsonModel::Arr(seq_view_of(items@)),
        Json::Obj(entries) => JsonModel::Obj(entries_view_of(entries@)),
    }
}

pub open spec fn seq_view_of(s: Seq<Json>) -> Seq<JsonModel>
    decreases s,
{
    if s.len() == 0 {
        Seq::empty()
    } else {
        seq_view_of(s.drop_last()).push(view_of(s.last()))
    }
}

pub open spec fn entries_view_of(s: Seq<(String, Json)>) -> Seq<(Seq<char>, JsonModel)>
    decreases s,
{
    if s.len() == 0 {
        Seq::empty()
    } else {
        entries_view_of(s.drop_last()).push((s.last().0@, view_of(s.last().1)))
    }
}

pub broadcast proof fn lemma_seq_view_of(s: Seq<Json>)
    ensures
        (#[trigger] seq_view_of(s)).len() == s.len(),
        forall|i: int| 0 <= i < s.len() ==> seq_view_of(s)[i] == view_of(s[i]),
    decreases s,
{
    if s.len() > 0 {
        lemma_seq_view_of(s.drop_last());
    }
}

pub broadcast proof fn lemma_entries_view_of(s: Seq<(String, Json)>)
    ensures
        (#[trigger] entries_view_of(s)).len() == s.len(),
        forall|i: int|
            0 <= i < s.len() ==> entries_view_of(s)[i] == (s[i].0@, view_of(s[i].1)),
    decreases s,
{
    if s.len() > 0 {
        lemma_entries_view_of(s.drop_last());
    }
}

impl View for Json {
    type V = JsonModel;

    open spec fn view(&self) -> JsonModel {
        view_of(*self)
    }
}

/// First entry of an association list whose key equals `key`, if any.
pub open spec fn assoc_lookup<V>(es: Seq<(Seq<char>, V)>, key: Seq<char>) -> Option<V>
    decreases es,
{
    if es.len() == 0 {
        None
    } else if es[0].0 == key {
        Some(es[0].1)
    } else {
        assoc_lookup(es.drop_first(), key)
    }
}

/// Looking a key up skips any prefix free of that key.
pub proof fn lemma_assoc_lookup_skip<V>(es: Seq<(Seq<char>, V)>, key: Seq<char>, k: int)
    requires
        0 <= k <= es.len(),
        forall|j: int| 0 <= j < k ==> es[j].0 != key,
    ensures
        assoc_lookup(es, key) == assoc_lookup(es.skip(k), key),
    decreases k,
{
    if k == 0 {
        assert(es.skip(0) =~= es);
    } else {
        lemma_assoc_lookup_skip(es.drop_first(), key, k - 1);
        assert(es.drop_first().skip(k - 1) =~= es.skip(k));
    }
}

/// What a lookup returns, stated over positions in the list.
pub proof fn lemma_assoc_lookup_at<V>(es: Seq<(Seq<char>, V)>, key: Seq<char>, k: int)
    requires
        0 <= k <= es.len(),
        forall|j: int| 0 <= j < k ==> es[j].0 != key,
    ensures
        k < es.len() && es[k].0 == key ==> assoc_lookup(es, key) == Some(es[k].1),
        k == es.len() ==> assoc_lookup(es, key) is None,
    decreases es.len(),
{
    lemma_assoc_lookup_skip(es, key, k);
    if k < es.len() {
        assert(es.skip(k)[0] == es[k]);
    } else {
        assert(es.skip(k).len() == 0);
    }
}

/// Reading a field of a document: `None` unless the document is a map
/// holding the key.
pub open spec fn json_get(j: JsonModel, key: Seq<char>) -> Option<JsonModel> {
    match j {
        JsonModel::Obj(es) => assoc_lookup(es, key),
        _ => None,
    }
}

/// The association list with `val` at `key`: the first entry with that key
/// is replaced, or a new entry is appended at the tail.
pub open spec fn obj_set(
    es: Seq<(Seq<char>, JsonModel)>,
    key: Seq<char>,
    val: JsonModel,
) -> Seq<(Seq<char>, JsonModel)>
    decreases es,
{
    if es.len() == 0 {
        seq![(key, val)]
    } else if es[0].0 == key {
        seq![(key, val)] + es.drop_first()
    } else {
        seq![es[0]] + obj_set(es.drop_first(), key, val)
    }
}

/// No two entries of the list share a key.
pub open spec fn unique_keys<V>(es: Seq<(Seq<char>, V)>) -> bool {
    forall|i: int, j: int| 0 <= i < j < es.len() ==> es[i].0 != es[j].0
}

/// Every map of the document has pairwise distinct keys. Documents decoded
/// from text always satisfy this.
pub open spec fn wf_json(j: JsonModel) -> bool
    decreases j,
{
    match j {
        JsonModel::Arr(items) => wf_elems(items),
        JsonModel::Obj(es) => unique_keys(es) && wf_entries(es),
        _ => true,
    }
}

pub open spec fn wf_elems(items: Seq<JsonModel>) -> bool
    decreases items,
{
    if items.len() == 0 {
        true
    } else {
        wf_json(items[0]) && wf_elems(items.drop_first())
    }
}

pub open spec fn wf_entries(es: Seq<(Seq<char>, JsonModel)>) -> bool
    decreases es,
{
    if es.len() == 0 {
        true
    } else {
        wf_json(es[0].1) && wf_entries(es.drop_first())
    }
}

pub broadcast proof fn lemma_wf_elems(items: Seq<JsonModel>)
    ensures
        #[trigger] wf_elems(items) <==> (forall|i: int|
            0 <= i < items.len() ==> wf_json(items[i])),
    decreases items,
{
    if items.len() > 0 {
        let rest = items.drop_first();
        lemma_wf_elems(rest);
        assert(forall|i: int| 0 <= i < rest.len() ==> rest[i] == items[i + 1]);
        if wf_elems(items) {
            assert forall|i: int| 0 <= i < items.len() implies wf_json(items[i]) by {
                if i > 0 {
                    assert(wf_json(rest[i - 1]));
                }
            }
        }
        if forall|i: int| 0 <= i < items.len() ==> wf_json(items[i]) {
            assert(forall|i: int| 0 <= i < rest.len() ==> wf_json(rest[i]));
            assert(wf_json(items[0]));
            assert(wf_elems(items));
        }
    }
}

pub broadcast proof fn lemma_wf_entries(es: Seq<(Seq<char>, JsonModel)>)
    ensures
        #[trigger] wf_entries(es) <==> (forall|i: int| 0 <= i < es.len() ==> wf_json(es[i].1)),
    decreases es,
{
    if es.len() > 0 {
        let rest = es.drop_first();
        lemma_wf_entries(rest);
        assert(forall|i: int| 0 <= i < rest.len() ==> rest[i] == es[i + 1]);
        if wf_entries(es) {
            assert forall|i: int| 0 <= i < es.len() implies wf_json(es[i].1) by {
                if i > 0 {
                    assert(wf_json(rest[i - 1].1));
                }
            }
        }
        if forall|i: int| 0 <= i < es.len() ==> wf_json(es[i].1) {
            assert(forall|i: int| 0 <= i < rest.len() ==> wf_json(rest[i].1));
            assert(wf_json(es[0].1));
            assert(wf_entries(es));
        }
    }
}

/// Equality of two string slices, decided over their views.
pub fn str_eq(a: &str, b: &str) -> (r: bool)
    ensures
        r == (a@ == b@),
{
    let x = a.to_owned();
    let y = b.to_owned();
    x == y
}

/// Borrow the value of the first entry with the given key.
pub fn obj_get<'a>(entries: &'a Vec<(String, Json)>, key: &str) -> (r: Option<&'a Json>)
    ensures
        (match r {
            Some(v) => assoc_lookup(entries_view_of(entries@), key@) == Some(v@),
            None => assoc_lookup(entries_view_of(entries@), key@) is None,
        }),
{
    proof {
        lemma_entries_view_of(entries@);
    }
    let ghost es = entries_view_of(entries@);
    let n = entries.len();
    let mut i: usize = 0;
    while i < n
        invariant
            n == entries.len(),
            0 <= i <= n,
            es == entries_view_of(entries@),
            forall|j: int| 0 <= j < i ==> es[j].0 != key@,
        decreases n - i,
    {
        if str_eq(entries[i].0.as_str(), key) {
            proof {
                lemma_entries_view_of(entries@);
                lemma_assoc_lookup_at(es, key@, i as int);
            }
            return Some(&entries[i].1);
        }
        proof {
            lemma_entries_view_of(entries@);
        }
        i = i + 1;
    }
    proof {
        lemma_entries_view_of(entries@);
        lemma_assoc_lookup_at(es, key@, n as int);
    }
    None
}

/// An independent copy of a document, equal to the original in the model.
#[verifier::loop_isolation(false)]
pub fn deep_clone(j: &Json) -> (r: Json)
    ensures
        r@ == j@,
    decreases j,
{
    broadcast use lemma_seq_view_of, lemma_entries_view_of;

    match j {
        Json::Null => Json::Null,
        Json::Bool(b) => Json::Bool(*b),
        Json::Num(s) => Json::Num(s.clone()),
        Json::Str(s) => Json::Str(s.clone()),
        Json::Arr(items) => {
            let n = items.len();
            let mut out: Vec<Json> = Vec::new();
            let mut i: usize = 0;
            while i < n
                invariant
                    n == items.len(),
                    0 <= i <= n,
                    out@.len() == i,
                    forall|k: int| 0 <= k < i ==> view_of(out@[k]) == view_of(items@[k]),
                decreases n - i,
            {
                proof {
                    assert(*j == Json::Arr(*items));
                    assert(decreases_to!(*j => *items));
                    assert(decreases_to!(*items => items@[i as int]));
                }
                let c = deep_clone(&items[i]);
                out.push(c);
                i = i + 1;
            }
            proof {
                assert(seq_view_of(out@) =~= seq_view_of(items@));
            }
            Json::Arr(out)
        },
        Json::Obj(entries) => {
            let n = entries.len();
            let mut out: Vec<(String, Json)> = Vec::new();
            let mut i: usize = 0;
            while i < n
                invariant
                    n == entries.len(),
                    0 <= i <= n,
                    out@.len() == i,
                    forall|k: int|
                        0 <= k < i ==> out@[k].0@ == entries@[k].0@ && view_of(out@[k].1)
                            == view_of(entries@[k].1),
                decreases n - i,
            {
                proof {
                    assert(decreases_to!(*entries => entries@[i as int]));
                }
                let k = entries[i].0.clone();
                let v = deep_clone(&entries[i].1);
                out.push((k, v));
                i = i + 1;
            }
            proof {
                assert(entries_view_of(out@) =~= entries_view_of(entries@));
            }
            Json::Obj(out)
        },
    }
}

/// What `obj_set` yields, stated over positions: a replacement at the first
/// matching position, or an appended entry.
pub proof fn lemma_obj_set_at(
    es: Seq<(Seq<char>, JsonModel)>,
    key: Seq<char>,
    val: JsonModel,
    k: int,
)
    requires
        0 <= k <= es.len(),
        forall|j: int| 0 <= j < k ==> es[j].0 != key,
    ensures
        k < es.len() && es[k].0 == key ==> obj_set(es, key, val) == es.update(k, (key, val)),
        k == es.len() ==> obj_set(es, key, val) == es.push((key, val)),
    decreases k,
{
    if k == 0 {
        if es.len() == 0 {
            assert(obj_set(es, key, val) =~= es.push((key, val)));
        } else if es[0].0 == key {
            assert(obj_set(es, key, val) =~= es.update(0, (key, val)));
        }
    } else {
        lemma_obj_set_at(es.drop_first(), key, val, k - 1);
        if k < es.len() && es[k].0 == key {
            assert(es.drop_first()[k - 1].0 == key);
            assert(obj_set(es, key, val) =~= es.update(k, (key, val)));
        }
        if k == es.len() {
            assert(obj_set(es, key, val) =~= es.push((key, val)));
        }
    }
}

/// A copy of the entry list in which the first entry keyed `key` carries
/// `val` instead, or with `(key, val)` appended when no entry matches.
#[verifier::loop_isolation(false)]
pub fn obj_update(entries: &Vec<(String, Json)>, key: &str, val: Json) -> (r: Vec<
    (String, Json),
>)
    ensures
        entries_view_of(r@) == obj_set(entries_view_of(entries@), key@, val@),
{
    proof {
        lemma_entries_view_of(entries@);
    }
    let ghost es = entries_view_of(entries@);
    let n = entries.len();

    let mut idx: usize = n;
    let mut i: usize = 0;
    while i < n && idx == n
        invariant
            0 <= i <= n,
            idx == n || (idx < i && es[idx as int].0 == key@),
            idx == n ==> forall|j: int| 0 <= j < i ==> es[j].0 != key@,
            idx < n ==> forall|j: int| 0 <= j < idx ==> es[j].0 != key@,
        decreases n - i,
    {
        if str_eq(entries[i].0.as_str(), key) {
            idx = i;
        }
        i = i + 1;
    }
    proof {
        lemma_obj_set_at(es, key@, val@, idx as int);
    }
    let ghost target = obj_set(es, key@, val@);

    let upto = idx;
    let mut out: Vec<(String, Json)> = Vec::new();
    let mut j: usize = 0;
    while j < upto
        invariant
            0 <= j <= upto <= n,
            out@.len() == j,
            forall|k: int|
                0 <= k < j ==> out@[k].0@ == es[k].0 && view_of(out@[k].1) == es[k].1,
        decreases upto - j,
    {
        let ks = entries[j].0.clone();
        let v = deep_clone(&entries[j].1);
        out.push((ks, v));
        j = j + 1;
    }
    out.push((key.to_owned(), val));
    if upto < n {
        let mut j2: usize = upto + 1;
        while j2 < n
            invariant
                upto + 1 <= j2 <= n,
                out@.len() == j2,
                forall|k: int|
                    0 <= k < upto ==> out@[k].0@ == es[k].0 && view_of(out@[k].1) == es[k].1,
                out@[upto as int].0@ == key@ && view_of(out@[upto as int].1) == val@,
                forall|k: int|
                    upto < k < j2 ==> out@[k].0@ == es[k].0 && view_of(out@[k].1) == es[k].1,
            decreases n - j2,
        {
            let ks = entries[j2].0.clone();
            let v = deep_clone(&entries[j2].1);
            out.push((ks, v));
            j2 = j2 + 1;
        }
        proof {
            lemma_entries_view_of(out@);
            assert(entries_view_of(out@) =~= target);
        }
    } else {
        proof {
            lemma_entries_view_of(out@);
            assert(entries_view_of(out@) =~= target);
        }
    }
    out
}

/// A copy of the element list with position `idx` holding `val` instead.
#[verifier::loop_isolation(false)]
pub fn arr_update(items: &Vec<Json>, idx: usize, val: Json) -> (r: Vec<Json>)
    requires
        idx < items@.len(),
    ensures
        seq_view_of(r@) == seq_view_of(items@).update(idx as int, val@),
{
    proof {
        lemma_seq_view_of(items@);
    }
    let n = items.len();
    let mut out: Vec<Json> = Vec::new();
    let mut j: usize = 0;
    while j < idx
        invariant
            0 <= j <= idx < n == items@.len(),
            out@.len() == j,
            forall|k: int| 0 <= k < j ==> view_of(out@[k]) == view_of(items@[k]),
        decreases idx - j,
    {
        let v = deep_clone(&items[j]);
        out.push(v);
        j = j + 1;
    }
    out.push(val);
    let mut j2: usize = idx + 1;
    while j2 < n
        invariant
            idx + 1 <= j2 <= n == items@.len(),
            out@.len() == j2,
            forall|k: int| 0 <= k < idx ==> view_of(out@[k]) == view_of(items@[k]),
            view_of(out@[idx as int]) == val@,
            forall|k: int| idx < k < j2 ==> view_of(out@[k]) == view_of(items@[k]),
        decreases n - j2,
    {
        let v = deep_clone(&items[j2]);
        out.push(v);
        j2 = j2 + 1;
    }
    proof {
        lemma_seq_view_of(out@);
        assert(seq_view_of(out@) =~= seq_view_of(items@).update(idx as int, val@));
    }
    out
}

/// A copy of the element list with `val` appended at the tail.
#[verifier::loop_isolation(false)]
pub fn arr_push(items: &Vec<Json>, val: Json) -> (r: Vec<Json>)
    ensures
        seq_view_of(r@) == seq_view_of(items@).push(val@),
{
    proof {
        lemma_seq_view_of(items@);
    }
    let n = items.len();
    let mut out: Vec<Json> = Vec::new();
    let mut j: usize = 0;
    while j < n
        invariant
            0 <= j <= n == items@.len(),
            out@.len() == j,
            forall|k: int| 0 <= k < j ==> view_of(out@[k]) == view_of(items@[k]),
        decreases n - j,
    {
        let v = deep_clone(&items[j]);
        out.push(v);
        j = j + 1;
    }
    out.push(val);
    proof {
        lemma_seq_view_of(out@);
        assert(seq_view_of(out@) =~= seq_view_of(items@).push(val@));
    }
    out
}

/// With pairwise distinct keys, looking an entry's own key up finds it.
pub proof fn lemma_unique_lookup<V>(es: Seq<(Seq<char>, V)>, k: int)
    requires
        unique_keys(es),
        0 <= k < es.len(),
    ensures
        assoc_lookup(es, es[k].0) == Some(es[k].1),
{
    assert(forall|j: int| 0 <= j < k ==> es[j].0 != es[k].0);
    lemma_assoc_lookup_at(es, es[k].0, k);
}

/// Looking a key up in a list with one entry appended.
pub proof fn lemma_assoc_lookup_push<V>(es: Seq<(Seq<char>, V)>, y: (Seq<char>, V), x: Seq<char>)
    ensures
        assoc_lookup(es.push(y), x) == (if assoc_lookup(es, x) is Some {
            assoc_lookup(es, x)
        } else if y.0 == x {
            Some(y.1)
        } else {
            None::<V>
        }),
    decreases es,
{
    if es.len() == 0 {
        assert(es.push(y).len() == 1);
        assert(es.push(y)[0] == y);
        assert(es.push(y).drop_first() =~= Seq::<(Seq<char>, V)>::empty());
        assert(assoc_lookup(es, x) is None);
        if y.0 == x {
            assert(assoc_lookup(es.push(y), x) == Some(y.1));
        } else {
            assert(assoc_lookup(es.push(y).drop_first(), x) is None);
            assert(assoc_lookup(es.push(y), x) is None);
        }
    } else {
        lemma_assoc_lookup_push(es.drop_first(), y, x);
        assert(es.push(y)[0] == es[0]);
        assert(es.push(y).drop_first() =~= es.drop_first().push(y));
        if es[0].0 == x {
            assert(assoc_lookup(es, x) == Some(es[0].1));
            assert(assoc_lookup(es.push(y), x) == Some(es[0].1));
        } else {
            assert(assoc_lookup(es.push(y), x) == assoc_lookup(es.drop_first().push(y), x));
            assert(assoc_lookup(es, x) == assoc_lookup(es.drop_first(), x));
        }
    }
}

/// A key that no entry carries has no match.
pub proof fn lemma_assoc_lookup_none<V>(es: Seq<(Seq<char>, V)>, key: Seq<char>)
    requires
        forall|i: int| 0 <= i < es.len() ==> es[i].0 != key,
    ensures
        assoc_lookup(es, key) is None,
{
    lemma_assoc_lookup_at(es, key, es.len() as int);
}

} // verus!
