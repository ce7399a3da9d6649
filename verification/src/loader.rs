//! Loading the named plugin entry out of a cluster document: the document
//! itself, the parameter snapshot of the matched entry, and the entry's
//! position in the plugin list.
use crate::codec::parse_json;
use crate::codec::spec_parse;
use crate::digits::dec_str;
use crate::digits::usize_to_string;
use crate::json::assoc_lookup;
use crate::json::entries_view_of;
use crate::json::lemma_assoc_lookup_at;
use crate::json::lemma_entries_view_of;
use crate::json::lemma_seq_view_of;
use crate::json::obj_get;
use crate::json::obj_set;
use crate::json::obj_update;
use crate::json::arr_update;
use crate::json::seq_view_of;
use crate::json::str_eq;
use crate::json::wf_json;
use crate::json::Json;
use crate::json::JsonModel;
use crate::patch::diff;
use crate::patch::diff_elems;
use crate::patch::diff_entries;
use crate::patch::paths_view;
use crate::patch::lemma_paths_view;
use crate::patch::spec_diff;
use crate::patch::PatchDocument;
use crate::patch::PatchOpModel;
use crate::store::params_to_json;
use crate::store::ParameterStore;
use crate::validation::ValidationError;
use crate::validation::ValidationErrorModel;
use vstd::prelude::*;

verus! {

/// Why a cluster document could not be loaded.
#[derive(Debug)]
pub enum DataLoaderError {
    /// The bytes do not decode to a document.
    DecodeError,
    /// No plugin entry carries the requested name.
    PluginNotFound { name: String },
    /// The document has no plugin list where one was expected.
    UnexpectedPluginSection,
    /// The matched entry's parameter section is neither absent, null nor
    /// a map.
    UnexpectedPluginParameters,
}

#[verifier::ext_equal]
pub enum DataLoaderErrorModel {
    DecodeError,
    PluginNotFound { name: Seq<char> },
    UnexpectedPluginSection,
    UnexpectedPluginParameters,
}

impl View for DataLoaderError {
    type V = DataLoaderErrorModel;

    open spec fn view(&self) -> DataLoaderErrorModel {
        match self {
            DataLoaderError::DecodeError => DataLoaderErrorModel::DecodeError,
            DataLoaderError::PluginNotFound { name } => DataLoaderErrorModel::PluginNotFound {
                name: name@,
            },
            DataLoaderError::UnexpectedPluginSection
                => DataLoaderErrorModel::UnexpectedPluginSection,
            DataLoaderError::UnexpectedPluginParameters
                => DataLoaderErrorModel::UnexpectedPluginParameters,
        }
    }
}

/// The model of a loader: the document, the extracted parameters, and the
/// position of the matched entry.
#[verifier::ext_equal]
pub struct LoaderModel {
    pub cluster: JsonModel,
    pub params: Seq<(Seq<char>, Seq<char>)>,
    pub index: int,
}

/// A loaded cluster document together with the parameter snapshot of one
/// named plugin entry.
#[derive(Debug)]
pub struct DataLoader {
    cluster: Json,
    parameters: ParameterStore,
    plug_index: usize,
}

impl View for DataLoader {
    type V = LoaderModel;

    closed spec fn view(&self) -> LoaderModel {
        LoaderModel {
            cluster: self.cluster@,
            params: self.parameters@,
            index: self.plug_index as int,
        }
    }
}

/// The plugin list of a document: the array under `spec.plugins`.
pub open spec fn plugins_of(doc: JsonModel) -> Option<Seq<JsonModel>> {
    match crate::json::json_get(doc, "spec"@) {
        Some(s) => match crate::json::json_get(s, "plugins"@) {
            Some(JsonModel::Arr(ps)) => Some(ps),
            _ => None,
        },
        _ => None,
    }
}

/// Whether a plugin entry carries `name` as its textual name.
pub open spec fn entry_matches(e: JsonModel, name: Seq<char>) -> bool {
    crate::json::json_get(e, "name"@) == Some(JsonModel::Str(name))
}

/// The position of the first entry named `name`, if any.
pub open spec fn first_match(ps: Seq<JsonModel>, name: Seq<char>) -> Option<int>
    decreases ps,
{
    if ps.len() == 0 {
        None
    } else if entry_matches(ps[0], name) {
        Some(0)
    } else {
        match first_match(ps.drop_first(), name) {
            Some(i) => Some(i + 1),
            None => None,
        }
    }
}

pub proof fn lemma_first_match_skip(ps: Seq<JsonModel>, name: Seq<char>, k: int)
    requires
        0 <= k <= ps.len(),
        forall|j: int| 0 <= j < k ==> !entry_matches(ps[j], name),
    ensures
        first_match(ps, name) == (match first_match(ps.skip(k), name) {
            Some(i) => Some(i + k),
            None => None::<int>,
        }),
    decreases k,
{
    if k == 0 {
        assert(ps.skip(0) =~= ps);
        assert(first_match(ps, name) == (match first_match(ps, name) {
            Some(i) => Some(i + 0),
            None => None::<int>,
        }));
    } else {
        lemma_first_match_skip(ps.drop_first(), name, k - 1);
        assert(ps.drop_first().skip(k - 1) =~= ps.skip(k));
    }
}

/// What the first match is, stated over positions in the list.
pub proof fn lemma_first_match_at(ps: Seq<JsonModel>, name: Seq<char>, k: int)
    requires
        0 <= k <= ps.len(),
        forall|j: int| 0 <= j < k ==> !entry_matches(ps[j], name),
    ensures
        k < ps.len() && entry_matches(ps[k], name) ==> first_match(ps, name) == Some(k),
        k == ps.len() ==> first_match(ps, name) is None,
{
    lemma_first_match_skip(ps, name, k);
    if k < ps.len() {
        assert(ps.skip(k)[0] == ps[k]);
    } else {
        assert(ps.skip(k).len() == 0);
    }
}

/// A parameter value as extracted into the store: strings verbatim,
/// anything else as the empty string.
pub open spec fn coerce_str(v: JsonModel) -> Seq<char> {
    match v {
        JsonModel::Str(s) => s,
        _ => Seq::empty(),
    }
}

/// The parameter snapshot taken from a parameter map.
pub open spec fn extract_params(es: Seq<(Seq<char>, JsonModel)>) -> Seq<(Seq<char>, Seq<char>)>
    decreases es,
{
    if es.len() == 0 {
        Seq::empty()
    } else {
        seq![(es[0].0, coerce_str(es[0].1))] + extract_params(es.drop_first())
    }
}

/// What loading the entry named `name` out of `doc` yields.
pub open spec fn spec_load(name: Seq<char>, doc: JsonModel) -> Result<
    LoaderModel,
    DataLoaderErrorModel,
> {
    match plugins_of(doc) {
        None => Err(DataLoaderErrorModel::UnexpectedPluginSection),
        Some(ps) => match first_match(ps, name) {
            None => Err(DataLoaderErrorModel::PluginNotFound { name: name }),
            Some(i) => match crate::json::json_get(ps[i], "parameters"@) {
                None => Ok(
                    LoaderModel { cluster: doc, params: Seq::empty(), index: i },
                ),
                Some(JsonModel::Null) => Ok(
                    LoaderModel { cluster: doc, params: Seq::empty(), index: i },
                ),
                Some(JsonModel::Obj(pes)) => Ok(
                    LoaderModel { cluster: doc, params: extract_params(pes), index: i },
                ),
                Some(_) => Err(DataLoaderErrorModel::UnexpectedPluginParameters),
            },
        },
    }
}

/// What loading from raw bytes yields: a decode failure, or the result of
/// loading from the decoded document.
pub open spec fn spec_from_cluster(name: Seq<char>, bytes: Seq<u8>) -> Result<
    LoaderModel,
    DataLoaderErrorModel,
> {
    match spec_parse(bytes) {
        None => Err(DataLoaderErrorModel::DecodeError),
        Some(doc) => spec_load(name, doc),
    }
}

pub open spec fn load_result_view(r: Result<DataLoader, DataLoaderError>) -> Result<
    LoaderModel,
    DataLoaderErrorModel,
> {
    match r {
        Ok(l) => Ok(l@),
        Err(e) => Err(e@),
    }
}

/// The document with the plugin entry at `idx` carrying `params` as its
/// whole parameter section, and everything else unchanged.
pub open spec fn with_parameters(doc: JsonModel, idx: int, params: JsonModel) -> JsonModel {
    match doc {
        JsonModel::Obj(des) => match assoc_lookup(des, "spec"@) {
            Some(JsonModel::Obj(ses)) => match assoc_lookup(ses, "plugins"@) {
                Some(JsonModel::Arr(ps)) => JsonModel::Obj(
                    obj_set(
                        des,
                        "spec"@,
                        JsonModel::Obj(
                            obj_set(
                                ses,
                                "plugins"@,
                                JsonModel::Arr(
                                    ps.update(
                                        idx,
                                        (match ps[idx] {
                                            JsonModel::Obj(ees) => JsonModel::Obj(
                                                obj_set(ees, "parameters"@, params),
                                            ),
                                            _ => ps[idx],
                                        }),
                                    ),
                                ),
                            ),
                        ),
                    ),
                ),
                _ => doc,
            },
            _ => doc,
        },
        _ => doc,
    }
}

/// Whether a plugin entry carries `name`, decided on the document type.
fn entry_is_named(e: &Json, name: &str) -> (r: bool)
    ensures
        r == entry_matches(e@, name@),
{
    match e {
        Json::Obj(es) => match obj_get(es, "name") {
            Some(v) => match v {
                Json::Str(s) => str_eq(s.as_str(), name),
                _ => false,
            },
            None => false,
        },
        _ => false,
    }
}

impl DataLoader {
    #[verifier::type_invariant]
    spec fn inv(self) -> bool {
        match plugins_of(self.cluster@) {
            Some(ps) => 0 <= self.plug_index < ps.len() && ps[self.plug_index as int] is Obj,
            None => false,
        }
    }

    /// Load the entry named `name` from an already decoded document.
    #[verifier::loop_isolation(false)]
    pub fn load_from_document(name: &str, doc: Json) -> (r: Result<DataLoader, DataLoaderError>)
        ensures
            load_result_view(r) == spec_load(name@, doc@),
    {
        let plugins: &Vec<Json> = match &doc {
            Json::Obj(des) => match obj_get(des, "spec") {
                Some(s) => match s {
                    Json::Obj(ses) => match obj_get(ses, "plugins") {
                        Some(p) => match p {
                            Json::Arr(ps) => ps,
                            _ => {
                                return Err(DataLoaderError::UnexpectedPluginSection);
                            },
                        },
                        None => {
                            return Err(DataLoaderError::UnexpectedPluginSection);
                        },
                    },
                    _ => {
                        return Err(DataLoaderError::UnexpectedPluginSection);
                    },
                },
                None => {
                    return Err(DataLoaderError::UnexpectedPluginSection);
                },
            },
            _ => {
                return Err(DataLoaderError::UnexpectedPluginSection);
            },
        };
        proof {
            lemma_seq_view_of(plugins@);
            assert(plugins_of(doc@) == Some(seq_view_of(plugins@)));
        }
        let ghost psm = seq_view_of(plugins@);

        let n = plugins.len();
        let mut i: usize = 0;
        let mut found: bool = false;
        while i < n && !found
            invariant
                0 <= i <= n == plugins@.len(),
                !found ==> forall|j: int| 0 <= j < i ==> !entry_matches(psm[j], name@),
                found ==> i < n && entry_matches(psm[i as int], name@) && forall|j: int|
                    0 <= j < i ==> !entry_matches(psm[j], name@),
            decreases n - i, (if found { 0int } else { 1int }),
        {
            if entry_is_named(&plugins[i], name) {
                found = true;
            } else {
                i = i + 1;
            }
        }
        if !found {
            proof {
                lemma_first_match_at(psm, name@, n as int);
            }
            return Err(DataLoaderError::PluginNotFound { name: name.to_owned() });
        }
        proof {
            lemma_first_match_at(psm, name@, i as int);
            assert(first_match(psm, name@) == Some(i as int));
        }

        let entry: &Json = &plugins[i];
        let ees: &Vec<(String, Json)> = match entry {
            Json::Obj(ees) => ees,
            _ => {
                proof {
                    assert(false);
                }
                return Err(DataLoaderError::UnexpectedPluginParameters);
            },
        };
        let mut store = ParameterStore::new();
        match obj_get(ees, "parameters") {
            None => {},
            Some(p) => match p {
                Json::Null => {},
                Json::Obj(pes) => {
                    proof {
                        lemma_entries_view_of(pes@);
                    }
                    let ghost pem = entries_view_of(pes@);
                    proof {
                        assert(pem.skip(0) =~= pem);
                        assert(store@ + extract_params(pem) =~= extract_params(pem));
                    }
                    let m = pes.len();
                    let mut k: usize = 0;
                    while k < m
                        invariant
                            0 <= k <= m == pes@.len(),
                            store@ + extract_params(pem.skip(k as int)) == extract_params(pem),
                        decreases m - k,
                    {
                        proof {
                            assert(pem.skip(k as int)[0] == pem[k as int]);
                            assert(pem.skip(k as int).drop_first() =~= pem.skip(k as int + 1));
                        }
                        let ghost store_before = store@;
                        let key = pes[k].0.clone();
                        let val = match &pes[k].1 {
                            Json::Str(s) => s.clone(),
                            _ => String::new(),
                        };
                        store.insert(key, val);
                        proof {
                            assert(store@ =~= store_before.push(
                                (pem[k as int].0, coerce_str(pem[k as int].1)),
                            ));
                            assert(store@ + extract_params(pem.skip(k as int + 1))
                                =~= extract_params(pem));
                        }
                        k = k + 1;
                    }
                    proof {
                        assert(pem.skip(m as int) =~= Seq::<(Seq<char>, JsonModel)>::empty());
                        assert(store@ =~= extract_params(pem));
                    }
                },
                _ => {
                    return Err(DataLoaderError::UnexpectedPluginParameters);
                },
            },
        }
        let loader = DataLoader { cluster: doc, parameters: store, plug_index: i };
        Ok(loader)
    }

    /// Load the entry named `name` from a cluster definition given as the
    /// raw bytes of its document.
    pub fn from_cluster(name: &str, definition: &[u8]) -> (r: Result<DataLoader, DataLoaderError>)
        ensures
            load_result_view(r) == spec_from_cluster(name@, definition@),
            r matches Ok(l) ==> wf_json(l@.cluster),
    {
        match parse_json(definition) {
            None => Err(DataLoaderError::DecodeError),
            Some(doc) => {
                let ghost docm = doc@;
                let r = Self::load_from_document(name, doc);
                proof {
                    if r is Ok {
                        assert(spec_load(name@, docm) is Ok);
                    }
                }
                r
            },
        }
    }

    /// The position of the matched entry in the plugin list.
    pub fn plugin_index(&self) -> (r: usize)
        ensures
            r == self@.index,
    {
        self.plug_index
    }

    /// The value of one configuration parameter.
    pub fn get_parameter(&self, name: &str) -> (r: Option<String>)
        ensures
            (match r {
                Some(s) => assoc_lookup(self@.params, name@) == Some(s@),
                None => assoc_lookup(self@.params, name@) is None,
            }),
    {
        self.parameters.get(name)
    }

    /// An independent snapshot of the plugin parameters, safe to change
    /// without affecting this loader.
    pub fn copy_parameters(&self) -> (r: ParameterStore)
        ensures
            r@ == self@.params,
    {
        self.parameters.clone()
    }

    /// A validation error for the parameter `name`, addressed at the
    /// matched entry's position in the plugin list.
    pub fn create_validation_error(&self, name: &str, message: &str) -> (r: ValidationError)
        ensures
            r@ == spec_validation_error(self@, name@, message@),
    {
        let mut path: Vec<String> = Vec::new();
        path.push("spec".to_owned());
        path.push("plugins".to_owned());
        path.push(usize_to_string(self.plug_index));
        path.push("parameters".to_owned());
        path.push(name.to_owned());
        let value = match self.get_parameter(name) {
            Some(v) => v,
            None => String::new(),
        };
        let r = ValidationError { path_components: path, value, message: message.to_owned() };
        proof {
            lemma_paths_view(r.path_components@);
            assert(paths_view(r.path_components@) =~= seq![
                "spec"@,
                "plugins"@,
                dec_str(self.plug_index as nat),
                "parameters"@,
                name@,
            ]);
        }
        r
    }

    /// The patch that rewrites the matched entry's parameter section to
    /// `new_parameters`, leaving the rest of the document unchanged.
    pub fn calculate_cluster_patch(&self, new_parameters: &ParameterStore) -> (r: PatchDocument)
        ensures
            r@ == spec_diff(
                self@.cluster,
                with_parameters(self@.cluster, self@.index, params_to_json(new_parameters@)),
                Seq::<Seq<char>>::empty(),
            ),
    {
        proof {
            use_type_invariant(&*self);
        }
        let params_json = new_parameters.to_json();
        let idx = self.plug_index;
        match &self.cluster {
            Json::Obj(des) => match obj_get(des, "spec") {
                Some(sv) => match sv {
                    Json::Obj(ses) => match obj_get(ses, "plugins") {
                        Some(pv) => match pv {
                            Json::Arr(ps) => {
                                proof {
                                    lemma_seq_view_of(ps@);
                                }
                                let entry = &ps[idx];
                                match entry {
                                    Json::Obj(ees) => {
                                        let new_entry = Json::Obj(
                                            obj_update(ees, "parameters", params_json),
                                        );
                                        let new_plugins = arr_update(ps, idx, new_entry);
                                        let new_spec = Json::Obj(
                                            obj_update(ses, "plugins", Json::Arr(new_plugins)),
                                        );
                                        let new_cluster = Json::Obj(
                                            obj_update(des, "spec", new_spec),
                                        );
                                        proof {
                                            assert(new_cluster@ =~~= with_parameters(
                                                self@.cluster,
                                                self@.index,
                                                params_to_json(new_parameters@),
                                            ));
                                        }
                                        diff(&self.cluster, &new_cluster)
                                    },
                                    _ => {
                                        proof {
                                            assert(false);
                                        }
                                        diff(&self.cluster, &self.cluster)
                                    },
                                }
                            },
                            _ => {
                                proof {
                                    assert(false);
                                }
                                diff(&self.cluster, &self.cluster)
                            },
                        },
                        None => {
                            proof {
                                assert(false);
                            }
                            diff(&self.cluster, &self.cluster)
                        },
                    },
                    _ => {
                        proof {
                            assert(false);
                        }
                        diff(&self.cluster, &self.cluster)
                    },
                },
                None => {
                    proof {
                        assert(false);
                    }
                    diff(&self.cluster, &self.cluster)
                },
            },
            _ => {
                proof {
                    assert(false);
                }
                diff(&self.cluster, &self.cluster)
            },
        }
    }
}

/// The model of a validation error for parameter `name` of the matched
/// entry: its path inside the document, the current value (empty when the
/// parameter is absent), and the message.
pub open spec fn spec_validation_error(
    lm: LoaderModel,
    name: Seq<char>,
    message: Seq<char>,
) -> ValidationErrorModel {
    ValidationErrorModel {
        path: seq!["spec"@, "plugins"@, dec_str(lm.index as nat), "parameters"@, name],
        value: (match assoc_lookup(lm.params, name) {
            Some(v) => v,
            None => Seq::empty(),
        }),
        message: message,
    }
}

/// A document with an entry named `name` at position `i`, none before it,
/// and an admissible parameter section there, always loads with index `i`.
pub proof fn lemma_load_finds_named_entry(name: Seq<char>, doc: JsonModel, i: int)
    requires
        plugins_of(doc) is Some,
        0 <= i < plugins_of(doc).unwrap().len(),
        entry_matches(plugins_of(doc).unwrap()[i], name),
        forall|j: int| 0 <= j < i ==> !entry_matches(plugins_of(doc).unwrap()[j], name),
        (match crate::json::json_get(plugins_of(doc).unwrap()[i], "parameters"@) {
            None => true,
            Some(p) => p is Null || p is Obj,
        }),
    ensures
        spec_load(name, doc) matches Ok(lm) && lm.index == i,
{
    let ps = plugins_of(doc).unwrap();
    lemma_first_match_at(ps, name, i);
}

/// When no entry carries the requested name, loading fails with exactly
/// the not-found error naming it.
pub proof fn lemma_load_plugin_not_found(name: Seq<char>, doc: JsonModel)
    requires
        plugins_of(doc) is Some,
        forall|j: int|
            0 <= j < plugins_of(doc).unwrap().len() ==> !entry_matches(
                plugins_of(doc).unwrap()[j],
                name,
            ),
    ensures
        spec_load(name, doc) == Err::<LoaderModel, DataLoaderErrorModel>(
            DataLoaderErrorModel::PluginNotFound { name: name },
        ),
{
    let ps = plugins_of(doc).unwrap();
    lemma_first_match_at(ps, name, ps.len() as int);
}

/// When the matched entry's parameter section is absent or null, the
/// resulting parameter store is empty.
pub proof fn lemma_absent_parameters_empty_store(name: Seq<char>, doc: JsonModel)
    requires
        plugins_of(doc) is Some,
        first_match(plugins_of(doc).unwrap(), name) is Some,
        (match crate::json::json_get(
            plugins_of(doc).unwrap()[first_match(plugins_of(doc).unwrap(), name).unwrap()],
            "parameters"@,
        ) {
            None => true,
            Some(p) => p is Null,
        }),
    ensures
        spec_load(name, doc) matches Ok(lm) && lm.params.len() == 0,
{
}

/// The matched entry's raw parameter section inside the document.
pub open spec fn entry_params(doc: JsonModel, idx: int) -> Option<JsonModel> {
    match plugins_of(doc) {
        Some(ps) => crate::json::json_get(ps[idx], "parameters"@),
        None => None,
    }
}

/// The path of the matched entry's parameter section.
pub open spec fn params_path(idx: int) -> Seq<Seq<char>> {
    seq!["spec"@, "plugins"@, dec_str(idx as nat), "parameters"@]
}

/// A first match lies inside the list and carries the name.
pub proof fn lemma_first_match_range(ps: Seq<JsonModel>, name: Seq<char>)
    ensures
        first_match(ps, name) matches Some(i) ==> 0 <= i < ps.len() && entry_matches(
            ps[i],
            name,
        ),
    decreases ps,
{
    if ps.len() > 0 && !entry_matches(ps[0], name) {
        lemma_first_match_range(ps.drop_first(), name);
    }
}

/// What the extracted snapshot holds, entry by entry.
pub proof fn lemma_extract_params(es: Seq<(Seq<char>, JsonModel)>)
    ensures
        extract_params(es).len() == es.len(),
        forall|i: int|
            0 <= i < es.len() ==> extract_params(es)[i] == (es[i].0, coerce_str(es[i].1)),
    decreases es,
{
    if es.len() > 0 {
        let rest = es.drop_first();
        lemma_extract_params(rest);
        assert(forall|i: int| 0 <= i < rest.len() ==> rest[i] == es[i + 1]);
    }
}

/// Rewriting the parameter section of one plugin entry changes the
/// document in that one place: the whole-document difference is the
/// difference of the parameter sections, or one `add` of a section where
/// none existed.
pub proof fn lemma_with_parameters_diff(doc: JsonModel, idx: int, p: JsonModel)
    requires
        wf_json(doc),
        plugins_of(doc) is Some,
        0 <= idx < plugins_of(doc).unwrap().len(),
        plugins_of(doc).unwrap()[idx] is Obj,
    ensures
        spec_diff(doc, with_parameters(doc, idx, p), Seq::<Seq<char>>::empty()) == (match
            entry_params(doc, idx) {
            Some(old_p) => spec_diff(old_p, p, params_path(idx)),
            None => seq![PatchOpModel::Add { path: params_path(idx), value: p }],
        }),
        entry_params(doc, idx) matches Some(old_p) ==> wf_json(old_p),
{
    let ps = plugins_of(doc).unwrap();
    let des = doc->Obj_0;
    let sv = assoc_lookup(des, "spec"@).unwrap();
    let ses = sv->Obj_0;
    let ees = ps[idx]->Obj_0;
    assert(doc is Obj);
    assert(assoc_lookup(des, "spec"@) == Some(sv));
    assert(sv is Obj);
    assert(assoc_lookup(ses, "plugins"@) == Some(JsonModel::Arr(ps)));
    crate::json::lemma_wf_entries(des);

    // position of `spec` among the document's entries
    crate::patch::lemma_assoc_lookup_some(des, "spec"@);
    let k = choose|k: int| 0 <= k < des.len() && #[trigger] des[k].0 == "spec"@;
    assert(forall|j: int| 0 <= j < k ==> des[j].0 != "spec"@);
    crate::json::lemma_assoc_lookup_at(des, "spec"@, k);
    assert(des[k].1 == sv);

    // position of `plugins` among the spec entries
    assert(wf_json(sv));
    let ses2 = ses;
    crate::json::lemma_wf_entries(ses2);
    crate::patch::lemma_assoc_lookup_some(ses, "plugins"@);
    let m = choose|m: int| 0 <= m < ses.len() && #[trigger] ses[m].0 == "plugins"@;
    assert(forall|j: int| 0 <= j < m ==> ses[j].0 != "plugins"@);
    crate::json::lemma_assoc_lookup_at(ses, "plugins"@, m);
    assert(ses[m].1 == JsonModel::Arr(ps));
    assert(wf_json(JsonModel::Arr(ps)));
    crate::json::lemma_wf_elems(ps);
    assert(wf_json(ps[idx]));
    crate::json::lemma_wf_entries(ees);

    // the rebuilt nodes, innermost first
    let ne = JsonModel::Obj(obj_set(ees, "parameters"@, p));
    let na = JsonModel::Arr(ps.update(idx, ne));
    let ns = JsonModel::Obj(obj_set(ses, "plugins"@, na));
    let nd = JsonModel::Obj(obj_set(des, "spec"@, ns));
    assert(with_parameters(doc, idx, p) == nd);

    // outermost map: only the entry at `k` changes
    crate::json::lemma_obj_set_at(des, "spec"@, ns, k);
    let des2 = des.update(k, ("spec"@, ns));
    assert(obj_set(des, "spec"@, ns) == des2);
    crate::patch::lemma_diff_obj_pointwise(des, des2, Seq::<Seq<char>>::empty(), k);
    let p1 = Seq::<Seq<char>>::empty().push("spec"@);
    assert(spec_diff(doc, nd, Seq::<Seq<char>>::empty()) == spec_diff(sv, ns, p1));

    // spec map: only the entry at `m` changes
    crate::json::lemma_obj_set_at(ses, "plugins"@, na, m);
    let ses3 = ses.update(m, ("plugins"@, na));
    assert(obj_set(ses, "plugins"@, na) == ses3);
    crate::patch::lemma_diff_obj_pointwise(ses, ses3, p1, m);
    let p2 = p1.push("plugins"@);
    assert(spec_diff(sv, ns, p1) == spec_diff(JsonModel::Arr(ps), na, p2));

    // plugin list: only the element at `idx` changes
    crate::patch::lemma_diff_elems_pointwise(ps, ps.update(idx, ne), p2, 0, idx);
    let p3 = p2.push(dec_str(idx as nat));
    assert(spec_diff(JsonModel::Arr(ps), na, p2) == diff_elems(
        ps,
        ps.update(idx, ne),
        p2,
        0,
    ));
    assert(spec_diff(JsonModel::Arr(ps), na, p2) == spec_diff(ps[idx], ne, p3));

    // the entry itself: its parameter section is replaced or appended
    assert(entry_params(doc, idx) == assoc_lookup(ees, "parameters"@));
    assert(params_path(idx) =~= p3.push("parameters"@));
    match assoc_lookup(ees, "parameters"@) {
        Some(old_p) => {
            crate::patch::lemma_assoc_lookup_some(ees, "parameters"@);
            let q = choose|q: int| 0 <= q < ees.len() && #[trigger] ees[q].0 == "parameters"@;
            assert(forall|j: int| 0 <= j < q ==> ees[j].0 != "parameters"@);
            crate::json::lemma_assoc_lookup_at(ees, "parameters"@, q);
            assert(ees[q].1 == old_p);
            assert(wf_json(old_p));
            crate::json::lemma_obj_set_at(ees, "parameters"@, p, q);
            crate::patch::lemma_diff_obj_pointwise(
                ees,
                ees.update(q, ("parameters"@, p)),
                p3,
                q,
            );
            assert(spec_diff(ps[idx], ne, p3) == spec_diff(old_p, p, params_path(idx)));
        },
        None => {
            crate::patch::lemma_assoc_lookup_some(ees, "parameters"@);
            assert(forall|j: int| 0 <= j < ees.len() ==> ees[j].0 != "parameters"@);
            crate::json::lemma_obj_set_at(ees, "parameters"@, p, ees.len() as int);
            crate::patch::lemma_diff_obj_appended_key(ees, p3, "parameters"@, p);
            assert(spec_diff(ps[idx], ne, p3) == seq![
                PatchOpModel::Add { path: params_path(idx), value: p },
            ]);
        },
    }
}

/// Filling the default image into an empty parameter store and comparing
/// the rewritten document against the original yields exactly one `add`
/// (with a null parameter section the single operation is a replace, so
/// that case is left out here).
pub proof fn lemma_defaulting_empty_store_adds_one(
    name: Seq<char>,
    doc: JsonModel,
    lm: LoaderModel,
)
    requires
        wf_json(doc),
        spec_load(name, doc) == Ok::<LoaderModel, DataLoaderErrorModel>(lm),
        lm.params.len() == 0,
        entry_params(doc, lm.index) != Some(JsonModel::Null),
    ensures
        ({
            let ops = spec_diff(
                doc,
                with_parameters(
                    doc,
                    lm.index,
                    crate::store::params_to_json(crate::store::spec_apply_defaults(lm.params)),
                ),
                Seq::<Seq<char>>::empty(),
            );
            ops.len() == 1 && ops[0] is Add
        }),
{
    let ps = plugins_of(doc).unwrap();
    lemma_first_match_range(ps, name);
    let i = lm.index;
    assert(first_match(ps, name) == Some(i));
    assert(entry_matches(ps[i], name));
    assert(ps[i] is Obj);

    let np = crate::store::spec_apply_defaults(lm.params);
    assert(assoc_lookup(lm.params, crate::spec_image_name_parameter()) is None);
    assert(np =~= seq![
        (crate::spec_image_name_parameter(), crate::spec_default_image_name()),
    ]);
    let pj = crate::store::params_to_json(np);
    crate::store::lemma_params_entries(np);
    assert(crate::store::params_entries(np) =~= seq![
        (
            crate::spec_image_name_parameter(),
            JsonModel::Str(crate::spec_default_image_name()),
        ),
    ]);

    lemma_with_parameters_diff(doc, i, pj);
    let ops = spec_diff(
        doc,
        with_parameters(doc, i, pj),
        Seq::<Seq<char>>::empty(),
    );
    match entry_params(doc, i) {
        Some(old_p) => {
            // the store is empty, so the section is an empty map
            let pes = old_p->Obj_0;
            assert(old_p is Obj);
            assert(lm.params == extract_params(pes));
            lemma_extract_params(pes);
            assert(pes =~= Seq::<(Seq<char>, JsonModel)>::empty());
            assert(ops == spec_diff(old_p, pj, params_path(i)));
            assert(diff_entries(pes, crate::store::params_entries(np), params_path(i))
                == Seq::<PatchOpModel>::empty());
            crate::json::lemma_assoc_lookup_none(
                pes,
                crate::spec_image_name_parameter(),
            );
            let be_np = crate::store::params_entries(np);
            assert(be_np.len() == 1);
            assert(be_np[0] == (
                crate::spec_image_name_parameter(),
                JsonModel::Str(crate::spec_default_image_name()),
            ));
            assert(assoc_lookup(pes, be_np[0].0) is None);
            assert(be_np.drop_first() =~= Seq::<(Seq<char>, JsonModel)>::empty());
            assert(crate::patch::obj_added(pes, be_np.drop_first(), params_path(i))
                == Seq::<PatchOpModel>::empty());
            assert(crate::patch::obj_added(pes, crate::store::params_entries(np), params_path(i))
                =~= seq![
                PatchOpModel::Add {
                    path: params_path(i).push(crate::spec_image_name_parameter()),
                    value: JsonModel::Str(crate::spec_default_image_name()),
                },
            ]);
            assert(ops =~= seq![
                PatchOpModel::Add {
                    path: params_path(i).push(crate::spec_image_name_parameter()),
                    value: JsonModel::Str(crate::spec_default_image_name()),
                },
            ]);
        },
        None => {
            assert(ops == seq![PatchOpModel::Add { path: params_path(i), value: pj }]);
        },
    }
}

/// When the image parameter is already present, and every parameter value
/// in the document is textual, defaulting changes nothing and the
/// resulting patch is empty.
pub proof fn lemma_defaulting_with_image_present_no_op(
    name: Seq<char>,
    doc: JsonModel,
    lm: LoaderModel,
    pes: Seq<(Seq<char>, JsonModel)>,
)
    requires
        wf_json(doc),
        spec_load(name, doc) == Ok::<LoaderModel, DataLoaderErrorModel>(lm),
        entry_params(doc, lm.index) == Some(JsonModel::Obj(pes)),
        forall|k: int| 0 <= k < pes.len() ==> (#[trigger] pes[k].1) is Str,
        assoc_lookup(lm.params, crate::spec_image_name_parameter()) is Some,
    ensures
        spec_diff(
            doc,
            with_parameters(
                doc,
                lm.index,
                crate::store::params_to_json(crate::store::spec_apply_defaults(lm.params)),
            ),
            Seq::<Seq<char>>::empty(),
        ) == Seq::<PatchOpModel>::empty(),
{
    let ps = plugins_of(doc).unwrap();
    lemma_first_match_range(ps, name);
    let i = lm.index;
    assert(ps[i] is Obj);

    let np = crate::store::spec_apply_defaults(lm.params);
    assert(np == lm.params);
    assert(lm.params == extract_params(pes));
    lemma_extract_params(pes);
    crate::store::lemma_params_entries(np);
    assert(crate::store::params_entries(np) =~= pes);
    let pj = crate::store::params_to_json(np);
    assert(pj == JsonModel::Obj(crate::store::params_entries(np)));
    assert(pj =~~= JsonModel::Obj(pes));

    lemma_with_parameters_diff(doc, i, pj);
    assert(wf_json(JsonModel::Obj(pes)));
    crate::patch::lemma_diff_no_op(JsonModel::Obj(pes), params_path(i));
    assert(spec_diff(
        doc,
        with_parameters(doc, i, pj),
        Seq::<Seq<char>>::empty(),
    ) == spec_diff(JsonModel::Obj(pes), pj, params_path(i)));
}

} // verus!
