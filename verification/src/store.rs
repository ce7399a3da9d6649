//! An immutable snapshot of the string-keyed parameters of one plugin
//! entry, and the defaulting rule that fills in missing parameters.
use crate::json::assoc_lookup;
use crate::json::lemma_assoc_lookup_at;
use crate::json::Json;
use crate::json::JsonModel;
use crate::json::str_eq;
use vstd::prelude::*;

verus! {

/// Parameter names mapped to string values, in insertion order; lookups
/// take the first entry with a matching name.
#[derive(Debug)]
pub struct ParameterStore {
    entries: Vec<(String, String)>,
}

pub open spec fn pairs_view(s: Seq<(String, String)>) -> Seq<(Seq<char>, Seq<char>)>
    decreases s,
{
    if s.len() == 0 {
        Seq::empty()
    } else {
        pairs_view(s.drop_last()).push((s.last().0@, s.last().1@))
    }
}

pub broadcast proof fn lemma_pairs_view(s: Seq<(String, String)>)
    ensures
        (#[trigger] pairs_view(s)).len() == s.len(),
        forall|i: int| 0 <= i < s.len() ==> pairs_view(s)[i] == (s[i].0@, s[i].1@),
    decreases s,
{
    if s.len() > 0 {
        lemma_pairs_view(s.drop_last());
    }
}

impl View for ParameterStore {
    type V = Seq<(Seq<char>, Seq<char>)>;

    closed spec fn view(&self) -> Seq<(Seq<char>, Seq<char>)> {
        pairs_view(self.entries@)
    }
}

/// The store with `val` under `key` when no entry carries that key yet.
pub open spec fn spec_set_default(
    es: Seq<(Seq<char>, Seq<char>)>,
    key: Seq<char>,
    val: Seq<char>,
) -> Seq<(Seq<char>, Seq<char>)> {
    if assoc_lookup(es, key) is Some {
        es
    } else {
        es.push((key, val))
    }
}

impl Clone for ParameterStore {
    /// An independent snapshot with the same entries.
    #[verifier::loop_isolation(false)]
    fn clone(&self) -> (r: ParameterStore)
        ensures
            r@ == self@,
    {
        proof {
            lemma_pairs_view(self.entries@);
        }
        let n = self.entries.len();
        let mut out: Vec<(String, String)> = Vec::new();
        let mut i: usize = 0;
        while i < n
            invariant
                0 <= i <= n == self.entries@.len(),
                out@.len() == i,
                forall|k: int| 0 <= k < i ==> out@[k] == self.entries@[k],
            decreases n - i,
        {
            let key = self.entries[i].0.clone();
            let val = self.entries[i].1.clone();
            out.push((key, val));
            i = i + 1;
        }
        proof {
            assert(out@ =~= self.entries@);
        }
        ParameterStore { entries: out }
    }
}

impl ParameterStore {
    /// A store with no parameters.
    pub fn new() -> (r: ParameterStore)
        ensures
            r@ == Seq::<(Seq<char>, Seq<char>)>::empty(),
    {
        let r = ParameterStore { entries: Vec::new() };
        proof {
            assert(r@ =~= Seq::<(Seq<char>, Seq<char>)>::empty());
        }
        r
    }

    /// How many parameters the store holds.
    pub fn len(&self) -> (r: usize)
        ensures
            r == self@.len(),
    {
        proof {
            lemma_pairs_view(self.entries@);
        }
        self.entries.len()
    }

    /// Record one parameter at the tail.
    pub fn insert(&mut self, key: String, value: String)
        ensures
            final(self)@ == old(self)@.push((key@, value@)),
    {
        proof {
            lemma_pairs_view(self.entries@);
        }
        let ghost before = self@;
        self.entries.push((key, value));
        proof {
            lemma_pairs_view(self.entries@);
            assert(self@ =~= before.push((key@, value@)));
        }
    }

    /// The value recorded under `name`, if any.
    #[verifier::loop_isolation(false)]
    pub fn get(&self, name: &str) -> (r: Option<String>)
        ensures
            (match r {
                Some(s) => assoc_lookup(self@, name@) == Some(s@),
                None => assoc_lookup(self@, name@) is None,
            }),
    {
        proof {
            lemma_pairs_view(self.entries@);
        }
        let ghost es = self@;
        let n = self.entries.len();
        let mut i: usize = 0;
        while i < n
            invariant
                0 <= i <= n == self.entries@.len(),
                forall|j: int| 0 <= j < i ==> es[j].0 != name@,
            decreases n - i,
        {
            if str_eq(self.entries[i].0.as_str(), name) {
                proof {
                    lemma_assoc_lookup_at(es, name@, i as int);
                }
                return Some(self.entries[i].1.clone());
            }
            i = i + 1;
        }
        proof {
            lemma_assoc_lookup_at(es, name@, n as int);
        }
        None
    }

    /// Whether a parameter is recorded under `name`.
    pub fn contains_key(&self, name: &str) -> (r: bool)
        ensures
            r == (assoc_lookup(self@, name@) is Some),
    {
        self.get(name).is_some()
    }

    /// Record `value` under `key` unless the key is already present.
    pub fn set_default(&mut self, key: &str, value: &str)
        ensures
            final(self)@ == spec_set_default(old(self)@, key@, value@),
    {
        if !self.contains_key(key) {
            self.insert(key.to_owned(), value.to_owned());
        }
    }

    /// The store as a document node: a map of string values.
    #[verifier::loop_isolation(false)]
    pub fn to_json(&self) -> (r: Json)
        ensures
            r@ == params_to_json(self@),
    {
        proof {
            lemma_pairs_view(self.entries@);
            lemma_params_entries(self@);
            crate::json::lemma_entries_view_of(Seq::<(String, Json)>::empty());
        }
        let ghost ps = self@;
        let n = self.entries.len();
        let mut out: Vec<(String, Json)> = Vec::new();
        let mut i: usize = 0;
        while i < n
            invariant
                0 <= i <= n == self.entries@.len(),
                out@.len() == i,
                forall|k: int|
                    0 <= k < i ==> out@[k].0@ == ps[k].0 && crate::json::view_of(out@[k].1)
                        == JsonModel::Str(ps[k].1),
            decreases n - i,
        {
            let key = self.entries[i].0.clone();
            let val = self.entries[i].1.clone();
            out.push((key, Json::Str(val)));
            i = i + 1;
        }
        proof {
            crate::json::lemma_entries_view_of(out@);
            assert(crate::json::entries_view_of(out@) =~= params_entries(ps));
        }
        Json::Obj(out)
    }
}

/// The entries of a store seen as document map entries.
pub open spec fn params_entries(ps: Seq<(Seq<char>, Seq<char>)>) -> Seq<(Seq<char>, JsonModel)>
    decreases ps,
{
    if ps.len() == 0 {
        Seq::empty()
    } else {
        seq![(ps[0].0, JsonModel::Str(ps[0].1))] + params_entries(ps.drop_first())
    }
}

pub broadcast proof fn lemma_params_entries(ps: Seq<(Seq<char>, Seq<char>)>)
    ensures
        (#[trigger] params_entries(ps)).len() == ps.len(),
        forall|i: int|
            0 <= i < ps.len() ==> params_entries(ps)[i] == (ps[i].0, JsonModel::Str(ps[i].1)),
    decreases ps,
{
    if ps.len() > 0 {
        let rest = ps.drop_first();
        lemma_params_entries(rest);
        assert(forall|i: int| 0 <= i < rest.len() ==> rest[i] == ps[i + 1]);
    }
}

/// The store as a whole document node.
pub open spec fn params_to_json(ps: Seq<(Seq<char>, Seq<char>)>) -> JsonModel {
    JsonModel::Obj(params_entries(ps))
}

/// The store after the defaulting rule: a missing `imageName` parameter
/// is filled with the built-in default image reference.
pub open spec fn spec_apply_defaults(es: Seq<(Seq<char>, Seq<char>)>) -> Seq<
    (Seq<char>, Seq<char>),
> {
    spec_set_default(es, crate::spec_image_name_parameter(), crate::spec_default_image_name())
}

/// A copy of the store in which every recognized parameter that is absent
/// carries its fixed default; the original is untouched.
pub fn apply_defaults(store: &ParameterStore) -> (r: ParameterStore)
    ensures
        r@ == spec_apply_defaults(store@),
{
    let mut out = store.clone();
    out.set_default(crate::image_name_parameter(), crate::default_image_name());
    out
}

} // verus!
