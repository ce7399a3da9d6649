//! Structural difference of two documents as an ordered sequence of
//! add / remove / replace operations.
//!
//! The strategy is deterministic and minimal for the cases this engine
//! produces: a new map key becomes one `add`, a changed scalar at an
//! existing key becomes one `replace`, elements appended to a sequence
//! become `add` operations at the tail indices.
use crate::digits::dec_str;
use crate::digits::usize_to_string;
use crate::json::assoc_lookup;
use crate::json::deep_clone;
use crate::json::entries_view_of;
use crate::json::lemma_entries_view_of;
use crate::json::lemma_seq_view_of;
use crate::json::obj_get;
use crate::json::seq_view_of;
use crate::json::unique_keys;
use crate::json::view_of;
use crate::json::wf_elems;
use crate::json::wf_entries;
use crate::json::wf_json;
use crate::json::Json;
use crate::json::JsonModel;
use vstd::prelude::*;

verus! {

/// One patch operation. The path is kept as its components; the empty
/// path addresses the whole document.
#[derive(Debug, PartialEq, Eq)]
pub enum PatchOp {
    Add { path: Vec<String>, value: Json },
    Remove { path: Vec<String> },
    Replace { path: Vec<String>, value: Json },
}

/// The model of one patch operation.
#[verifier::ext_equal]
pub enum PatchOpModel {
    Add { path: Seq<Seq<char>>, value: JsonModel },
    Remove { path: Seq<Seq<char>> },
    Replace { path: Seq<Seq<char>>, value: JsonModel },
}

pub open spec fn paths_view(s: Seq<String>) -> Seq<Seq<char>>
    decreases s,
{
    if s.len() == 0 {
        Seq::empty()
    } else {
        paths_view(s.drop_last()).push(s.last()@)
    }
}

pub broadcast proof fn lemma_paths_view(s: Seq<String>)
    ensures
        (#[trigger] paths_view(s)).len() == s.len(),
        forall|i: int| 0 <= i < s.len() ==> paths_view(s)[i] == s[i]@,
    decreases s,
{
    if s.len() > 0 {
        lemma_paths_view(s.drop_last());
    }
}

impl View for PatchOp {
    type V = PatchOpModel;

    open spec fn view(&self) -> PatchOpModel {
        match self {
            PatchOp::Add { path, value } => PatchOpModel::Add {
                path: paths_view(path@),
                value: value@,
            },
            PatchOp::Remove { path } => PatchOpModel::Remove { path: paths_view(path@) },
            PatchOp::Replace { path, value } => PatchOpModel::Replace {
                path: paths_view(path@),
                value: value@,
            },
        }
    }
}

pub open spec fn ops_view(s: Seq<PatchOp>) -> Seq<PatchOpModel>
    decreases s,
{
    if s.len() == 0 {
        Seq::empty()
    } else {
        ops_view(s.drop_last()).push(s.last()@)
    }
}

pub broadcast proof fn lemma_ops_view(s: Seq<PatchOp>)
    ensures
        (#[trigger] ops_view(s)).len() == s.len(),
        forall|i: int| 0 <= i < s.len() ==> ops_view(s)[i] == s[i]@,
    decreases s,
{
    if s.len() > 0 {
        lemma_ops_view(s.drop_last());
    }
}

/// An ordered sequence of patch operations.
#[derive(Debug)]
pub struct PatchDocument {
    pub ops: Vec<PatchOp>,
}

impl View for PatchDocument {
    type V = Seq<PatchOpModel>;

    open spec fn view(&self) -> Seq<PatchOpModel> {
        ops_view(self.ops@)
    }
}

impl PatchDocument {
    /// How many operations the patch holds.
    pub fn len(&self) -> (r: usize)
        ensures
            r == self@.len(),
    {
        proof {
            lemma_ops_view(self.ops@);
        }
        self.ops.len()
    }
}

/// Removal of the last `n` elements of a sequence that had `from + n`
/// elements, highest index first so every index is valid when reached.
pub open spec fn removed_elems(n: nat, path: Seq<Seq<char>>, from: nat) -> Seq<PatchOpModel>
    decreases n,
{
    if n == 0 {
        Seq::empty()
    } else {
        seq![PatchOpModel::Remove { path: path.push(dec_str((from + n - 1) as nat)) }]
            + removed_elems((n - 1) as nat, path, from)
    }
}

/// Addition of elements at the tail indices `from`, `from + 1`, ...
pub open spec fn added_elems(ba: Seq<JsonModel>, path: Seq<Seq<char>>, from: nat) -> Seq<
    PatchOpModel,
>
    decreases ba,
{
    if ba.len() == 0 {
        Seq::empty()
    } else {
        seq![PatchOpModel::Add { path: path.push(dec_str(from)), value: ba[0] }] + added_elems(
            ba.drop_first(),
            path,
            from + 1,
        )
    }
}

/// Addition of every entry of `be` whose key has no entry in `ae`, in the
/// order of `be`.
pub open spec fn obj_added(
    ae: Seq<(Seq<char>, JsonModel)>,
    be: Seq<(Seq<char>, JsonModel)>,
    path: Seq<Seq<char>>,
) -> Seq<PatchOpModel>
    decreases be,
{
    if be.len() == 0 {
        Seq::empty()
    } else {
        (if assoc_lookup(ae, be[0].0) is Some {
            Seq::<PatchOpModel>::empty()
        } else {
            seq![PatchOpModel::Add { path: path.push(be[0].0), value: be[0].1 }]
        }) + obj_added(ae, be.drop_first(), path)
    }
}

/// The operation sequence that turns `a` into `b`, prefixed by `path`.
///
/// Two maps are compared key by key: a key of `a` missing from `b` is
/// removed, a key present in both is compared recursively, a key only in
/// `b` is added. Two sequences are compared position by position, surplus
/// elements are removed from or added at the tail. Anything else is
/// replaced wholesale when unequal.
pub open spec fn spec_diff(a: JsonModel, b: JsonModel, path: Seq<Seq<char>>) -> Seq<PatchOpModel>
    decreases a,
{
    match (a, b) {
        (JsonModel::Obj(ae), JsonModel::Obj(be)) => diff_entries(ae, be, path) + obj_added(
            ae,
            be,
            path,
        ),
        (JsonModel::Arr(aa), JsonModel::Arr(ba)) => diff_elems(aa, ba, path, 0),
        _ => if a == b {
            Seq::empty()
        } else {
            seq![PatchOpModel::Replace { path: path, value: b }]
        },
    }
}

/// The removals and recursive comparisons for the entries of `ae`.
pub open spec fn diff_entries(
    ae: Seq<(Seq<char>, JsonModel)>,
    be: Seq<(Seq<char>, JsonModel)>,
    path: Seq<Seq<char>>,
) -> Seq<PatchOpModel>
    decreases ae,
{
    if ae.len() == 0 {
        Seq::empty()
    } else {
        (match assoc_lookup(be, ae[0].0) {
            Some(bv) => spec_diff(ae[0].1, bv, path.push(ae[0].0)),
            None => seq![PatchOpModel::Remove { path: path.push(ae[0].0) }],
        }) + diff_entries(ae.drop_first(), be, path)
    }
}

/// The position-wise comparison of two sequences starting at index `from`.
pub open spec fn diff_elems(
    aa: Seq<JsonModel>,
    ba: Seq<JsonModel>,
    path: Seq<Seq<char>>,
    from: nat,
) -> Seq<PatchOpModel>
    decreases aa,
{
    if aa.len() == 0 {
        added_elems(ba, path, from)
    } else if ba.len() == 0 {
        removed_elems(aa.len(), path, from)
    } else {
        spec_diff(aa[0], ba[0], path.push(dec_str(from))) + diff_elems(
            aa.drop_first(),
            ba.drop_first(),
            path,
            from + 1,
        )
    }
}

/// Comparing a well-formed document with itself yields no operation.
pub proof fn lemma_diff_no_op(a: JsonModel, path: Seq<Seq<char>>)
    requires
        wf_json(a),
    ensures
        spec_diff(a, a, path) == Seq::<PatchOpModel>::empty(),
    decreases a,
{
    match a {
        JsonModel::Obj(ae) => {
            crate::json::lemma_wf_entries(ae);
            assert forall|k: int| 0 <= k < ae.len() implies #[trigger] assoc_lookup(ae, ae[k].0)
                == Some(ae[k].1) by {
                crate::json::lemma_assoc_lookup_at(ae, ae[k].0, k);
            }
            lemma_diff_entries_self(ae, ae, path);
            lemma_obj_added_all_present(ae, ae, path);
            assert(spec_diff(a, a, path) =~= Seq::<PatchOpModel>::empty());
        },
        JsonModel::Arr(aa) => {
            crate::json::lemma_wf_elems(aa);
            lemma_diff_elems_self(aa, path, 0);
        },
        _ => {},
    }
}

/// Entries whose keys find their own values in `be` contribute nothing.
proof fn lemma_diff_entries_self(
    ae: Seq<(Seq<char>, JsonModel)>,
    be: Seq<(Seq<char>, JsonModel)>,
    path: Seq<Seq<char>>,
)
    requires
        forall|k: int|
            0 <= k < ae.len() ==> #[trigger] assoc_lookup(be, ae[k].0) == Some(ae[k].1),
        forall|k: int| 0 <= k < ae.len() ==> wf_json(#[trigger] ae[k].1),
    ensures
        diff_entries(ae, be, path) == Seq::<PatchOpModel>::empty(),
    decreases ae,
{
    if ae.len() > 0 {
        assert(assoc_lookup(be, ae[0].0) == Some(ae[0].1));
        assert(wf_json(ae[0].1));
        lemma_diff_no_op(ae[0].1, path.push(ae[0].0));
        let rest = ae.drop_first();
        assert(forall|k: int| 0 <= k < rest.len() ==> rest[k] == ae[k + 1]);
        lemma_diff_entries_self(rest, be, path);
        assert(diff_entries(ae, be, path) =~= Seq::<PatchOpModel>::empty());
    }
}

/// When every key of `be` is present in `ae` there is nothing to add.
proof fn lemma_obj_added_all_present(
    ae: Seq<(Seq<char>, JsonModel)>,
    be: Seq<(Seq<char>, JsonModel)>,
    path: Seq<Seq<char>>,
)
    requires
        forall|k: int| 0 <= k < be.len() ==> (#[trigger] assoc_lookup(ae, be[k].0)) is Some,
    ensures
        obj_added(ae, be, path) == Seq::<PatchOpModel>::empty(),
    decreases be,
{
    if be.len() > 0 {
        let rest = be.drop_first();
        assert(forall|k: int| 0 <= k < rest.len() ==> rest[k] == be[k + 1]);
        lemma_obj_added_all_present(ae, rest, path);
        assert(obj_added(ae, be, path) =~= Seq::<PatchOpModel>::empty());
    }
}

/// Comparing a well-formed element sequence with itself yields nothing.
proof fn lemma_diff_elems_self(aa: Seq<JsonModel>, path: Seq<Seq<char>>, from: nat)
    requires
        forall|k: int| 0 <= k < aa.len() ==> wf_json(#[trigger] aa[k]),
    ensures
        diff_elems(aa, aa, path, from) == Seq::<PatchOpModel>::empty(),
    decreases aa,
{
    if aa.len() > 0 {
        lemma_diff_no_op(aa[0], path.push(dec_str(from)));
        let rest = aa.drop_first();
        assert(forall|k: int| 0 <= k < rest.len() ==> rest[k] == aa[k + 1]);
        lemma_diff_elems_self(rest, path, from + 1);
        assert(diff_elems(aa, aa, path, from) =~= Seq::<PatchOpModel>::empty());
    }
}

/// `assoc_lookup` finds an entry exactly when some entry carries the key.
pub proof fn lemma_assoc_lookup_some(es: Seq<(Seq<char>, JsonModel)>, key: Seq<char>)
    ensures
        (assoc_lookup(es, key) is Some) <==> (exists|i: int|
            0 <= i < es.len() && #[trigger] es[i].0 == key),
    decreases es,
{
    if es.len() > 0 {
        lemma_assoc_lookup_some(es.drop_first(), key);
        let rest = es.drop_first();
        assert(forall|k: int| 0 <= k < rest.len() ==> rest[k] == es[k + 1]);
        if es[0].0 == key {
        } else if assoc_lookup(rest, key) is Some {
            let i = choose|i: int| 0 <= i < rest.len() && #[trigger] rest[i].0 == key;
            assert(es[i + 1].0 == key);
        } else if exists|i: int| 0 <= i < es.len() && #[trigger] es[i].0 == key {
            let i = choose|i: int| 0 <= i < es.len() && #[trigger] es[i].0 == key;
            assert(rest[i - 1].0 == key);
        }
    }
}

/// An independent copy of a path.
#[verifier::loop_isolation(false)]
pub fn clone_path(p: &Vec<String>) -> (r: Vec<String>)
    ensures
        r@ == p@,
{
    let n = p.len();
    let mut out: Vec<String> = Vec::new();
    let mut i: usize = 0;
    while i < n
        invariant
            0 <= i <= n == p@.len(),
            out@.len() == i,
            forall|k: int| 0 <= k < i ==> out@[k] == p@[k],
        decreases n - i,
    {
        let s = p[i].clone();
        out.push(s);
        i = i + 1;
    }
    proof {
        assert(out@ =~= p@);
    }
    out
}

/// The difference between two documents as a patch.
pub fn diff(a: &Json, b: &Json) -> (r: PatchDocument)
    ensures
        r@ == spec_diff(a@, b@, Seq::<Seq<char>>::empty()),
{
    let path: Vec<String> = Vec::new();
    proof {
        assert(paths_view(path@) =~= Seq::<Seq<char>>::empty());
    }
    let ops = diff_rec(a, b, &path);
    PatchDocument { ops }
}

/// The operations for one node pair, recursing through maps and sequences.
#[verifier::loop_isolation(false)]
fn diff_rec(a: &Json, b: &Json, path: &Vec<String>) -> (r: Vec<PatchOp>)
    ensures
        ops_view(r@) == spec_diff(a@, b@, paths_view(path@)),
    decreases a,
{
    proof {
        lemma_paths_view(path@);
    }
    let ghost p = paths_view(path@);
    match (a, b) {
        (Json::Null, Json::Null) => {
            let r: Vec<PatchOp> = Vec::new();
            proof {
                assert(ops_view(r@) =~= spec_diff(a@, b@, p));
            }
            r
        },
        (Json::Bool(x), Json::Bool(y)) => {
            if *x == *y {
                let r: Vec<PatchOp> = Vec::new();
                proof {
                    assert(ops_view(r@) =~= spec_diff(a@, b@, p));
                }
                r
            } else {
                replace_op(b, path)
            }
        },
        (Json::Num(x), Json::Num(y)) => {
            if crate::json::str_eq(x.as_str(), y.as_str()) {
                let r: Vec<PatchOp> = Vec::new();
                proof {
                    assert(ops_view(r@) =~= spec_diff(a@, b@, p));
                }
                r
            } else {
                replace_op(b, path)
            }
        },
        (Json::Str(x), Json::Str(y)) => {
            if crate::json::str_eq(x.as_str(), y.as_str()) {
                let r: Vec<PatchOp> = Vec::new();
                proof {
                    assert(ops_view(r@) =~= spec_diff(a@, b@, p));
                }
                r
            } else {
                replace_op(b, path)
            }
        },
        (Json::Obj(ae), Json::Obj(be)) => {
            proof {
                lemma_entries_view_of(ae@);
                lemma_entries_view_of(be@);
            }
            let ghost aem = entries_view_of(ae@);
            let ghost bem = entries_view_of(be@);
            let mut out: Vec<PatchOp> = Vec::new();
            proof {
                assert(ops_view(out@) =~= Seq::<PatchOpModel>::empty());
                assert(aem.skip(0) =~= aem);
            }
            let n = ae.len();
            let mut i: usize = 0;
            while i < n
                invariant
                    0 <= i <= n == ae@.len(),
                    ops_view(out@) + diff_entries(aem.skip(i as int), bem, p) == diff_entries(
                        aem,
                        bem,
                        p,
                    ),
                decreases n - i,
            {
                proof {
                    assert(decreases_to!(*ae => ae@[i as int]));
                    assert(aem.skip(i as int)[0] == aem[i as int]);
                    assert(aem.skip(i as int).drop_first() =~= aem.skip(i as int + 1));
                }
                let mut p2 = clone_path(path);
                let key = ae[i].0.clone();
                p2.push(key);
                proof {
                    lemma_paths_view(p2@);
                    assert(paths_view(p2@) =~= p.push(aem[i as int].0));
                }
                let ghost out_before = out@;
                match obj_get(be, ae[i].0.as_str()) {
                    Some(bv) => {
                        let mut sub = diff_rec(&ae[i].1, bv, &p2);
                        proof {
                            lemma_ops_view(out@);
                            lemma_ops_view(sub@);
                        }
                        out.append(&mut sub);
                    },
                    None => {
                        out.push(PatchOp::Remove { path: p2 });
                    },
                }
                proof {
                    lemma_ops_view(out_before);
                    lemma_ops_view(out@);
                    assert(ops_view(out@) =~= ops_view(out_before) + (match assoc_lookup(
                        bem,
                        aem[i as int].0,
                    ) {
                        Some(bv) => spec_diff(aem[i as int].1, bv, p.push(aem[i as int].0)),
                        None => seq![
                            PatchOpModel::Remove { path: p.push(aem[i as int].0) },
                        ],
                    }));
                    assert(ops_view(out@) + diff_entries(aem.skip(i as int + 1), bem, p)
                        =~= diff_entries(aem, bem, p));
                }
                i = i + 1;
            }
            proof {
                assert(aem.skip(n as int) =~= Seq::<(Seq<char>, JsonModel)>::empty());
                assert(ops_view(out@) =~= diff_entries(aem, bem, p));
                assert(bem.skip(0) =~= bem);
            }
            let m = be.len();
            let mut k: usize = 0;
            while k < m
                invariant
                    0 <= k <= m == be@.len(),
                    ops_view(out@) + obj_added(aem, bem.skip(k as int), p) == diff_entries(
                        aem,
                        bem,
                        p,
                    ) + obj_added(aem, bem, p),
                decreases m - k,
            {
                proof {
                    assert(bem.skip(k as int)[0] == bem[k as int]);
                    assert(bem.skip(k as int).drop_first() =~= bem.skip(k as int + 1));
                }
                let ghost out_before = out@;
                let present = obj_get(ae, be[k].0.as_str());
                if present.is_none() {
                    let mut p2 = clone_path(path);
                    let key = be[k].0.clone();
                    p2.push(key);
                    proof {
                        lemma_paths_view(p2@);
                        assert(paths_view(p2@) =~= p.push(bem[k as int].0));
                    }
                    let v = deep_clone(&be[k].1);
                    out.push(PatchOp::Add { path: p2, value: v });
                }
                proof {
                    lemma_ops_view(out_before);
                    lemma_ops_view(out@);
                    assert(ops_view(out@) =~= ops_view(out_before) + (if assoc_lookup(
                        aem,
                        bem[k as int].0,
                    ) is Some {
                        Seq::<PatchOpModel>::empty()
                    } else {
                        seq![PatchOpModel::Add { path: p.push(bem[k as int].0), value: bem[k as int].1 }]
                    }));
                    assert(ops_view(out@) + obj_added(aem, bem.skip(k as int + 1), p)
                        =~= diff_entries(aem, bem, p) + obj_added(aem, bem, p));
                }
                k = k + 1;
            }
            proof {
                assert(bem.skip(m as int) =~= Seq::<(Seq<char>, JsonModel)>::empty());
                assert(ops_view(out@) =~= diff_entries(aem, bem, p) + obj_added(aem, bem, p));
            }
            out
        },
        (Json::Arr(aa), Json::Arr(ba)) => {
            proof {
                lemma_seq_view_of(aa@);
                lemma_seq_view_of(ba@);
            }
            let ghost aam = seq_view_of(aa@);
            let ghost bam = seq_view_of(ba@);
            let n = aa.len();
            let m = ba.len();
            let common = if n < m {
                n
            } else {
                m
            };
            let mut out: Vec<PatchOp> = Vec::new();
            proof {
                assert(ops_view(out@) =~= Seq::<PatchOpModel>::empty());
                assert(aam.skip(0) =~= aam);
                assert(bam.skip(0) =~= bam);
            }
            let mut i: usize = 0;
            while i < common
                invariant
                    0 <= i <= common,
                    common == if n < m { n } else { m },
                    n == aa@.len(),
                    m == ba@.len(),
                    ops_view(out@) + diff_elems(aam.skip(i as int), bam.skip(i as int), p, i as nat)
                        == diff_elems(aam, bam, p, 0),
                decreases common - i,
            {
                proof {
                    assert(decreases_to!(*aa => aa@[i as int]));
                    assert(aam.skip(i as int)[0] == aam[i as int]);
                    assert(bam.skip(i as int)[0] == bam[i as int]);
                    assert(aam.skip(i as int).drop_first() =~= aam.skip(i as int + 1));
                    assert(bam.skip(i as int).drop_first() =~= bam.skip(i as int + 1));
                }
                let mut p2 = clone_path(path);
                p2.push(usize_to_string(i));
                proof {
                    lemma_paths_view(p2@);
                    assert(paths_view(p2@) =~= p.push(dec_str(i as nat)));
                }
                let ghost out_before = out@;
                let mut sub = diff_rec(&aa[i], &ba[i], &p2);
                proof {
                    lemma_ops_view(out@);
                    lemma_ops_view(sub@);
                }
                out.append(&mut sub);
                proof {
                    lemma_ops_view(out@);
                    assert(ops_view(out@) =~= ops_view(out_before) + spec_diff(
                        aam[i as int],
                        bam[i as int],
                        p.push(dec_str(i as nat)),
                    ));
                    assert(ops_view(out@) + diff_elems(
                        aam.skip(i as int + 1),
                        bam.skip(i as int + 1),
                        p,
                        (i + 1) as nat,
                    ) =~= diff_elems(aam, bam, p, 0));
                }
                i = i + 1;
            }
            if n > m {
                // surplus elements of `a`: removed highest index first
                proof {
                    assert(bam.skip(m as int) =~= Seq::<JsonModel>::empty());
                    assert(aam.skip(m as int).len() == n - m);
                    assert(diff_elems(aam.skip(m as int), bam.skip(m as int), p, m as nat)
                        == removed_elems((n - m) as nat, p, m as nat));
                }
                let mut j: usize = n;
                while j > m
                    invariant
                        m <= j <= n,
                        n == aa@.len(),
                        m == ba@.len(),
                        n > m,
                        ops_view(out@) + removed_elems((j - m) as nat, p, m as nat) == diff_elems(
                            aam,
                            bam,
                            p,
                            0,
                        ),
                    decreases j - m,
                {
                    let mut p2 = clone_path(path);
                    p2.push(usize_to_string(j - 1));
                    proof {
                        lemma_paths_view(p2@);
                        assert(paths_view(p2@) =~= p.push(dec_str((j - 1) as nat)));
                    }
                    let ghost out_before = out@;
                    out.push(PatchOp::Remove { path: p2 });
                    proof {
                        lemma_ops_view(out_before);
                        lemma_ops_view(out@);
                        assert(ops_view(out@) =~= ops_view(out_before) + seq![
                            PatchOpModel::Remove { path: p.push(dec_str((j - 1) as nat)) },
                        ]);
                        assert(ops_view(out@) + removed_elems((j - 1 - m) as nat, p, m as nat)
                            =~= diff_elems(aam, bam, p, 0));
                    }
                    j = j - 1;
                }
                proof {
                    assert(ops_view(out@) =~= diff_elems(aam, bam, p, 0));
                }
            } else if m > n {
                // surplus elements of `b`: added at the tail indices
                proof {
                    assert(aam.skip(n as int) =~= Seq::<JsonModel>::empty());
                    assert(diff_elems(aam.skip(n as int), bam.skip(n as int), p, n as nat)
                        == added_elems(bam.skip(n as int), p, n as nat));
                }
                let mut k: usize = n;
                while k < m
                    invariant
                        n <= k <= m,
                        n == aa@.len(),
                        m == ba@.len(),
                        m > n,
                        ops_view(out@) + added_elems(bam.skip(k as int), p, k as nat) == diff_elems(
                            aam,
                            bam,
                            p,
                            0,
                        ),
                    decreases m - k,
                {
                    proof {
                        assert(bam.skip(k as int)[0] == bam[k as int]);
                        assert(bam.skip(k as int).drop_first() =~= bam.skip(k as int + 1));
                    }
                    let mut p2 = clone_path(path);
                    p2.push(usize_to_string(k));
                    proof {
                        lemma_paths_view(p2@);
                        assert(paths_view(p2@) =~= p.push(dec_str(k as nat)));
                    }
                    let ghost out_before = out@;
                    let v = deep_clone(&ba[k]);
                    out.push(PatchOp::Add { path: p2, value: v });
                    proof {
                        lemma_ops_view(out_before);
                        lemma_ops_view(out@);
                        assert(ops_view(out@) =~= ops_view(out_before) + seq![
                            PatchOpModel::Add { path: p.push(dec_str(k as nat)), value: bam[k as int] },
                        ]);
                        assert(ops_view(out@) + added_elems(bam.skip(k as int + 1), p, (k + 1) as nat)
                            =~= diff_elems(aam, bam, p, 0));
                    }
                    k = k + 1;
                }
                proof {
                    assert(bam.skip(m as int) =~= Seq::<JsonModel>::empty());
                    assert(ops_view(out@) =~= diff_elems(aam, bam, p, 0));
                }
            } else {
                proof {
                    assert(aam.skip(n as int) =~= Seq::<JsonModel>::empty());
                    assert(bam.skip(n as int) =~= Seq::<JsonModel>::empty());
                    assert(ops_view(out@) =~= diff_elems(aam, bam, p, 0));
                }
            }
            out
        },
        _ => replace_op(b, path),
    }
}

/// One `replace` of the whole addressed node.
fn replace_op(b: &Json, path: &Vec<String>) -> (r: Vec<PatchOp>)
    ensures
        ops_view(r@) == seq![PatchOpModel::Replace { path: paths_view(path@), value: b@ }],
{
    let p2 = clone_path(path);
    let v = deep_clone(b);
    let mut r: Vec<PatchOp> = Vec::new();
    r.push(PatchOp::Replace { path: p2, value: v });
    proof {
        lemma_ops_view(r@);
        assert(ops_view(r@) =~= seq![
            PatchOpModel::Replace { path: paths_view(path@), value: b@ },
        ]);
    }
    r
}

/// When every entry of `ae` finds `ae`'s own value in `be` except the one
/// at `j`, which finds `w`, the whole entry walk reduces to that one
/// comparison.
proof fn lemma_diff_entries_pointwise(
    ae: Seq<(Seq<char>, JsonModel)>,
    be: Seq<(Seq<char>, JsonModel)>,
    path: Seq<Seq<char>>,
    j: int,
    w: JsonModel,
)
    requires
        0 <= j < ae.len(),
        forall|k: int|
            0 <= k < ae.len() && k != j ==> #[trigger] assoc_lookup(be, ae[k].0) == Some(ae[k].1)
                && wf_json(ae[k].1),
        assoc_lookup(be, ae[j].0) == Some(w),
    ensures
        diff_entries(ae, be, path) == spec_diff(ae[j].1, w, path.push(ae[j].0)),
    decreases ae,
{
    let rest = ae.drop_first();
    assert(forall|k: int| 0 <= k < rest.len() ==> rest[k] == ae[k + 1]);
    if j == 0 {
        assert forall|k: int| 0 <= k < rest.len() implies #[trigger] assoc_lookup(be, rest[k].0)
            == Some(rest[k].1) by {
            assert(assoc_lookup(be, ae[k + 1].0) == Some(ae[k + 1].1));
        }
        assert forall|k: int| 0 <= k < rest.len() implies wf_json(#[trigger] rest[k].1) by {
            assert(assoc_lookup(be, ae[k + 1].0) == Some(ae[k + 1].1) && wf_json(ae[k + 1].1));
        }
        lemma_diff_entries_self(rest, be, path);
        assert(diff_entries(ae, be, path) =~= spec_diff(ae[0].1, w, path.push(ae[0].0)));
    } else {
        assert(assoc_lookup(be, ae[0].0) == Some(ae[0].1) && wf_json(ae[0].1));
        lemma_diff_no_op(ae[0].1, path.push(ae[0].0));
        assert forall|k: int| 0 <= k < rest.len() && k != j - 1 implies #[trigger] assoc_lookup(
            be,
            rest[k].0,
        ) == Some(rest[k].1) && wf_json(rest[k].1) by {
            assert(assoc_lookup(be, ae[k + 1].0) == Some(ae[k + 1].1) && wf_json(ae[k + 1].1));
        }
        lemma_diff_entries_pointwise(rest, be, path, j - 1, w);
        assert(diff_entries(ae, be, path) =~= spec_diff(ae[j].1, w, path.push(ae[j].0)));
    }
}

/// Two maps with the same keys in the same order, equal everywhere except
/// at position `j`: their difference is the difference of that one value.
pub proof fn lemma_diff_obj_pointwise(
    ae: Seq<(Seq<char>, JsonModel)>,
    be: Seq<(Seq<char>, JsonModel)>,
    path: Seq<Seq<char>>,
    j: int,
)
    requires
        ae.len() == be.len(),
        forall|k: int| 0 <= k < ae.len() ==> (#[trigger] be[k]).0 == ae[k].0,
        forall|k: int| 0 <= k < ae.len() && k != j ==> (#[trigger] be[k]).1 == ae[k].1,
        forall|k: int| 0 <= k < ae.len() && k != j ==> wf_json((#[trigger] ae[k]).1),
        unique_keys(ae),
        0 <= j < ae.len(),
    ensures
        spec_diff(JsonModel::Obj(ae), JsonModel::Obj(be), path) == spec_diff(
            ae[j].1,
            be[j].1,
            path.push(ae[j].0),
        ),
{
    assert(unique_keys(be));
    assert forall|k: int| 0 <= k < ae.len() && k != j implies #[trigger] assoc_lookup(
        be,
        ae[k].0,
    ) == Some(ae[k].1) && wf_json(ae[k].1) by {
        crate::json::lemma_unique_lookup(be, k);
    }
    assert(assoc_lookup(be, ae[j].0) == Some(be[j].1)) by {
        crate::json::lemma_unique_lookup(be, j);
    }
    lemma_diff_entries_pointwise(ae, be, path, j, be[j].1);
    assert forall|k: int| 0 <= k < be.len() implies (#[trigger] assoc_lookup(
        ae,
        be[k].0,
    )) is Some by {
        crate::json::lemma_unique_lookup(ae, k);
    }
    lemma_obj_added_all_present(ae, be, path);
    assert(spec_diff(JsonModel::Obj(ae), JsonModel::Obj(be), path) =~= spec_diff(
        ae[j].1,
        be[j].1,
        path.push(ae[j].0),
    ));
}

/// Two sequences of the same length, equal everywhere except at position
/// `j`: their difference is the difference of that one element.
pub proof fn lemma_diff_elems_pointwise(
    aa: Seq<JsonModel>,
    ba: Seq<JsonModel>,
    path: Seq<Seq<char>>,
    from: nat,
    j: int,
)
    requires
        aa.len() == ba.len(),
        0 <= j < aa.len(),
        forall|k: int| 0 <= k < aa.len() && k != j ==> #[trigger] ba[k] == aa[k],
        forall|k: int| 0 <= k < aa.len() && k != j ==> wf_json(#[trigger] aa[k]),
    ensures
        diff_elems(aa, ba, path, from) == spec_diff(
            aa[j],
            ba[j],
            path.push(dec_str((from + j) as nat)),
        ),
    decreases aa,
{
    let rest_a = aa.drop_first();
    let rest_b = ba.drop_first();
    assert(forall|k: int| 0 <= k < rest_a.len() ==> rest_a[k] == aa[k + 1]);
    assert(forall|k: int| 0 <= k < rest_b.len() ==> rest_b[k] == ba[k + 1]);
    if j == 0 {
        assert(rest_a =~= rest_b);
        lemma_diff_elems_self(rest_a, path, from + 1);
        assert(diff_elems(aa, ba, path, from) =~= spec_diff(
            aa[0],
            ba[0],
            path.push(dec_str((from + 0) as nat)),
        ));
    } else {
        lemma_diff_no_op(aa[0], path.push(dec_str(from)));
        lemma_diff_elems_pointwise(rest_a, rest_b, path, from + 1, j - 1);
        assert(diff_elems(aa, ba, path, from) =~= spec_diff(
            aa[j],
            ba[j],
            path.push(dec_str((from + j) as nat)),
        ));
    }
}

/// Additions distribute over splitting the right-hand entry list.
proof fn lemma_obj_added_concat(
    ae: Seq<(Seq<char>, JsonModel)>,
    be1: Seq<(Seq<char>, JsonModel)>,
    be2: Seq<(Seq<char>, JsonModel)>,
    path: Seq<Seq<char>>,
)
    ensures
        obj_added(ae, be1 + be2, path) == obj_added(ae, be1, path) + obj_added(ae, be2, path),
    decreases be1,
{
    if be1.len() == 0 {
        assert(be1 + be2 =~= be2);
        assert(obj_added(ae, be1 + be2, path) =~= obj_added(ae, be1, path) + obj_added(
            ae,
            be2,
            path,
        ));
    } else {
        lemma_obj_added_concat(ae, be1.drop_first(), be2, path);
        assert((be1 + be2)[0] == be1[0]);
        assert((be1 + be2).drop_first() =~= be1.drop_first() + be2);
        assert(obj_added(ae, be1 + be2, path) =~= obj_added(ae, be1, path) + obj_added(
            ae,
            be2,
            path,
        ));
    }
}

/// Appending one new key to a well-formed map yields exactly one `add` of
/// that key.
pub proof fn lemma_diff_obj_appended_key(
    ae: Seq<(Seq<char>, JsonModel)>,
    path: Seq<Seq<char>>,
    key: Seq<char>,
    val: JsonModel,
)
    requires
        assoc_lookup(ae, key) is None,
        unique_keys(ae),
        forall|k: int| 0 <= k < ae.len() ==> wf_json((#[trigger] ae[k]).1),
    ensures
        spec_diff(JsonModel::Obj(ae), JsonModel::Obj(ae.push((key, val))), path) == seq![
            PatchOpModel::Add { path: path.push(key), value: val },
        ],
{
    let be = ae.push((key, val));
    assert forall|k: int| 0 <= k < ae.len() implies #[trigger] assoc_lookup(be, ae[k].0)
        == Some(ae[k].1) by {
        crate::json::lemma_unique_lookup(ae, k);
        crate::json::lemma_assoc_lookup_push(ae, (key, val), ae[k].0);
    }
    lemma_diff_entries_self(ae, be, path);
    assert(be =~= ae + seq![(key, val)]);
    lemma_obj_added_concat(ae, ae, seq![(key, val)], path);
    assert forall|k: int| 0 <= k < ae.len() implies (#[trigger] assoc_lookup(
        ae,
        ae[k].0,
    )) is Some by {
        crate::json::lemma_unique_lookup(ae, k);
    }
    lemma_obj_added_all_present(ae, ae, path);
    assert(seq![(key, val)].drop_first() =~= Seq::<(Seq<char>, JsonModel)>::empty());
    assert(seq![(key, val)][0] == (key, val));
    assert(assoc_lookup(ae, seq![(key, val)][0].0) is None);
    assert(obj_added(ae, seq![(key, val)].drop_first(), path)
        == Seq::<PatchOpModel>::empty());
    assert(obj_added(ae, seq![(key, val)], path) =~= seq![
        PatchOpModel::Add { path: path.push(key), value: val },
    ]);
    assert(spec_diff(JsonModel::Obj(ae), JsonModel::Obj(be), path) =~= seq![
        PatchOpModel::Add { path: path.push(key), value: val },
    ]);
}

/// Like the one-position walk, but with two changed positions: the walk
/// reduces to those two comparisons, in position order.
proof fn lemma_diff_entries_pointwise2(
    ae: Seq<(Seq<char>, JsonModel)>,
    be: Seq<(Seq<char>, JsonModel)>,
    path: Seq<Seq<char>>,
    j1: int,
    j2: int,
    w1: JsonModel,
    w2: JsonModel,
)
    requires
        0 <= j1 < j2 < ae.len(),
        forall|k: int|
            0 <= k < ae.len() && k != j1 && k != j2 ==> #[trigger] assoc_lookup(be, ae[k].0)
                == Some(ae[k].1) && wf_json(ae[k].1),
        assoc_lookup(be, ae[j1].0) == Some(w1),
        assoc_lookup(be, ae[j2].0) == Some(w2),
    ensures
        diff_entries(ae, be, path) == spec_diff(ae[j1].1, w1, path.push(ae[j1].0)) + spec_diff(
            ae[j2].1,
            w2,
            path.push(ae[j2].0),
        ),
    decreases ae,
{
    let rest = ae.drop_first();
    assert(forall|k: int| 0 <= k < rest.len() ==> rest[k] == ae[k + 1]);
    if j1 == 0 {
        assert forall|k: int| 0 <= k < rest.len() && k != j2 - 1 implies #[trigger] assoc_lookup(
            be,
            rest[k].0,
        ) == Some(rest[k].1) && wf_json(rest[k].1) by {
            assert(assoc_lookup(be, ae[k + 1].0) == Some(ae[k + 1].1) && wf_json(ae[k + 1].1));
        }
        lemma_diff_entries_pointwise(rest, be, path, j2 - 1, w2);
        assert(diff_entries(ae, be, path) =~= spec_diff(ae[j1].1, w1, path.push(ae[j1].0))
            + spec_diff(ae[j2].1, w2, path.push(ae[j2].0)));
    } else {
        assert(assoc_lookup(be, ae[0].0) == Some(ae[0].1) && wf_json(ae[0].1));
        lemma_diff_no_op(ae[0].1, path.push(ae[0].0));
        assert forall|k: int|
            0 <= k < rest.len() && k != j1 - 1 && k != j2 - 1 implies #[trigger] assoc_lookup(
            be,
            rest[k].0,
        ) == Some(rest[k].1) && wf_json(rest[k].1) by {
            assert(assoc_lookup(be, ae[k + 1].0) == Some(ae[k + 1].1) && wf_json(ae[k + 1].1));
        }
        lemma_diff_entries_pointwise2(rest, be, path, j1 - 1, j2 - 1, w1, w2);
        assert(diff_entries(ae, be, path) =~= spec_diff(ae[j1].1, w1, path.push(ae[j1].0))
            + spec_diff(ae[j2].1, w2, path.push(ae[j2].0)));
    }
}

/// Two maps with the same keys in the same order, equal except at the two
/// positions `j1 < j2`: their difference is the concatenation of the two
/// value differences, in position order.
pub proof fn lemma_diff_obj_pointwise2(
    ae: Seq<(Seq<char>, JsonModel)>,
    be: Seq<(Seq<char>, JsonModel)>,
    path: Seq<Seq<char>>,
    j1: int,
    j2: int,
)
    requires
        ae.len() == be.len(),
        forall|k: int| 0 <= k < ae.len() ==> (#[trigger] be[k]).0 == ae[k].0,
        forall|k: int| 0 <= k < ae.len() && k != j1 && k != j2 ==> (#[trigger] be[k]).1 == ae[k].1,
        forall|k: int|
            0 <= k < ae.len() && k != j1 && k != j2 ==> wf_json((#[trigger] ae[k]).1),
        unique_keys(ae),
        0 <= j1 < j2 < ae.len(),
    ensures
        spec_diff(JsonModel::Obj(ae), JsonModel::Obj(be), path) == spec_diff(
            ae[j1].1,
            be[j1].1,
            path.push(ae[j1].0),
        ) + spec_diff(ae[j2].1, be[j2].1, path.push(ae[j2].0)),
{
    assert(unique_keys(be));
    assert forall|k: int|
        0 <= k < ae.len() && k != j1 && k != j2 implies #[trigger] assoc_lookup(be, ae[k].0)
        == Some(ae[k].1) && wf_json(ae[k].1) by {
        crate::json::lemma_unique_lookup(be, k);
    }
    assert(assoc_lookup(be, ae[j1].0) == Some(be[j1].1)) by {
        crate::json::lemma_unique_lookup(be, j1);
    }
    assert(assoc_lookup(be, ae[j2].0) == Some(be[j2].1)) by {
        crate::json::lemma_unique_lookup(be, j2);
    }
    lemma_diff_entries_pointwise2(ae, be, path, j1, j2, be[j1].1, be[j2].1);
    assert forall|k: int| 0 <= k < be.len() implies (#[trigger] assoc_lookup(
        ae,
        be[k].0,
    )) is Some by {
        crate::json::lemma_unique_lookup(ae, k);
    }
    lemma_obj_added_all_present(ae, be, path);
    assert(spec_diff(JsonModel::Obj(ae), JsonModel::Obj(be), path) =~= spec_diff(
        ae[j1].1,
        be[j1].1,
        path.push(ae[j1].0),
    ) + spec_diff(ae[j2].1, be[j2].1, path.push(ae[j2].0)));
}

/// Appending one element to a sequence yields one `add` at the tail index.
pub proof fn lemma_diff_arr_appended(aa: Seq<JsonModel>, path: Seq<Seq<char>>, v: JsonModel)
    requires
        forall|k: int| 0 <= k < aa.len() ==> wf_json(#[trigger] aa[k]),
    ensures
        spec_diff(JsonModel::Arr(aa), JsonModel::Arr(aa.push(v)), path) == seq![
            PatchOpModel::Add { path: path.push(dec_str(aa.len())), value: v },
        ],
    decreases aa,
{
    lemma_diff_arr_appended_from(aa, path, v, 0);
}

proof fn lemma_diff_arr_appended_from(
    aa: Seq<JsonModel>,
    path: Seq<Seq<char>>,
    v: JsonModel,
    from: nat,
)
    requires
        forall|k: int| 0 <= k < aa.len() ==> wf_json(#[trigger] aa[k]),
    ensures
        diff_elems(aa, aa.push(v), path, from) == seq![
            PatchOpModel::Add { path: path.push(dec_str((from + aa.len()) as nat)), value: v },
        ],
    decreases aa,
{
    let ba = aa.push(v);
    if aa.len() == 0 {
        assert(ba[0] == v);
        assert(ba.drop_first() =~= Seq::<JsonModel>::empty());
        assert(added_elems(ba.drop_first(), path, from + 1) == Seq::<PatchOpModel>::empty());
        assert(diff_elems(aa, ba, path, from) == added_elems(ba, path, from));
        assert(added_elems(ba, path, from) =~= seq![
            PatchOpModel::Add { path: path.push(dec_str(from)), value: v },
        ]);
    } else {
        assert(ba[0] == aa[0]);
        lemma_diff_no_op(aa[0], path.push(dec_str(from)));
        let rest = aa.drop_first();
        assert(forall|k: int| 0 <= k < rest.len() ==> rest[k] == aa[k + 1]);
        lemma_diff_arr_appended_from(rest, path, v, from + 1);
        assert(ba.drop_first() =~= rest.push(v));
        assert(diff_elems(aa, ba, path, from) =~= seq![
            PatchOpModel::Add { path: path.push(dec_str((from + aa.len()) as nat)), value: v },
        ]);
    }
}

} // verus!
