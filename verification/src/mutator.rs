//! Additive mutation of a workload template: one exporter sidecar
//! container appended to `spec.initContainers` and one configuration
//! volume appended to `spec.volumes`, with every pre-existing field kept.
use crate::json::arr_push;
use crate::json::assoc_lookup;
use crate::json::lemma_entries_view_of;
use crate::json::obj_get;
use crate::json::obj_set;
use crate::json::obj_update;
use crate::json::wf_json;
use crate::json::Json;
use crate::json::JsonModel;
use crate::patch::diff;
use crate::patch::spec_diff;
use crate::patch::PatchDocument;
use crate::patch::PatchOpModel;
use crate::store::ParameterStore;
use vstd::prelude::*;

verus! {

/// Why a template could not be mutated.
#[derive(Clone, Copy, PartialEq, Eq, Structural, Debug)]
pub enum MutateError {
    /// The template lacks `spec`, `spec.initContainers` or `spec.volumes`.
    MissingField,
    /// The required configuration-object parameter is absent.
    MissingParameter,
}

/// One environment variable of the sidecar.
pub open spec fn env_entry_model(name: Seq<char>, value: Seq<char>) -> JsonModel {
    JsonModel::Obj(
        seq![("name"@, JsonModel::Str(name)), ("value"@, JsonModel::Str(value))],
    )
}

fn mk_env_entry(name: &str, value: &str) -> (r: Json)
    ensures
        r@ == env_entry_model(name@, value@),
{
    let mut es: Vec<(String, Json)> = Vec::new();
    es.push(("name".to_owned(), Json::Str(name.to_owned())));
    es.push(("value".to_owned(), Json::Str(value.to_owned())));
    proof {
        lemma_entries_view_of(es@);
        assert(crate::json::entries_view_of(es@) =~= seq![
            ("name"@, JsonModel::Str(name@)),
            ("value"@, JsonModel::Str(value@)),
        ]);
    }
    Json::Obj(es)
}

/// One volume mount of the sidecar.
pub open spec fn mount_model(path: Seq<char>, name: Seq<char>, read_only: bool) -> JsonModel {
    if read_only {
        JsonModel::Obj(
            seq![
                ("mountPath"@, JsonModel::Str(path)),
                ("name"@, JsonModel::Str(name)),
                ("readOnly"@, JsonModel::Bool(true)),
            ],
        )
    } else {
        JsonModel::Obj(
            seq![("mountPath"@, JsonModel::Str(path)), ("name"@, JsonModel::Str(name))],
        )
    }
}

fn mk_mount(path: &str, name: &str, read_only: bool) -> (r: Json)
    ensures
        r@ == mount_model(path@, name@, read_only),
{
    let mut es: Vec<(String, Json)> = Vec::new();
    es.push(("mountPath".to_owned(), Json::Str(path.to_owned())));
    es.push(("name".to_owned(), Json::Str(name.to_owned())));
    if read_only {
        es.push(("readOnly".to_owned(), Json::Bool(true)));
    }
    proof {
        lemma_entries_view_of(es@);
        if read_only {
            assert(crate::json::entries_view_of(es@) =~= seq![
                ("mountPath"@, JsonModel::Str(path@)),
                ("name"@, JsonModel::Str(name@)),
                ("readOnly"@, JsonModel::Bool(true)),
            ]);
        } else {
            assert(crate::json::entries_view_of(es@) =~= seq![
                ("mountPath"@, JsonModel::Str(path@)),
                ("name"@, JsonModel::Str(name@)),
            ]);
        }
    }
    Json::Obj(es)
}

/// The injected sidecar container: fixed name, the configured or default
/// image, two fixed environment variables, a read-only mount of the
/// configuration volume, two mounts reusing the shared scratch volume,
/// and the restart policy that marks a persistent sidecar.
pub open spec fn sidecar_model(image: Seq<char>) -> JsonModel {
    JsonModel::Obj(
        seq![
            ("name"@, JsonModel::Str("sql-exporter"@)),
            ("image"@, JsonModel::Str(image)),
            (
                "env"@,
                JsonModel::Arr(
                    seq![
                        env_entry_model("CONFIG"@, "/config/config.yml"@),
                        env_entry_model("LOGLEVEL"@, "info"@),
                    ],
                ),
            ),
            (
                "volumeMounts"@,
                JsonModel::Arr(
                    seq![
                        mount_model("/config"@, "sql-exporter-configuration"@, true),
                        mount_model("/controller"@, "scratch-data"@, false),
                        mount_model("/run"@, "scratch-data"@, false),
                    ],
                ),
            ),
            ("restartPolicy"@, JsonModel::Str("Always"@)),
        ],
    )
}

fn build_sidecar(image: String) -> (r: Json)
    ensures
        r@ == sidecar_model(image@),
{
    let ghost imv = image@;
    let mut env: Vec<Json> = Vec::new();
    env.push(mk_env_entry("CONFIG", "/config/config.yml"));
    env.push(mk_env_entry("LOGLEVEL", "info"));
    proof {
        crate::json::lemma_seq_view_of(env@);
        assert(crate::json::seq_view_of(env@) =~= seq![
            env_entry_model("CONFIG"@, "/config/config.yml"@),
            env_entry_model("LOGLEVEL"@, "info"@),
        ]);
    }
    let mut mounts: Vec<Json> = Vec::new();
    mounts.push(mk_mount("/config", "sql-exporter-configuration", true));
    mounts.push(mk_mount("/controller", "scratch-data", false));
    mounts.push(mk_mount("/run", "scratch-data", false));
    proof {
        crate::json::lemma_seq_view_of(mounts@);
        assert(crate::json::seq_view_of(mounts@) =~= seq![
            mount_model("/config"@, "sql-exporter-configuration"@, true),
            mount_model("/controller"@, "scratch-data"@, false),
            mount_model("/run"@, "scratch-data"@, false),
        ]);
    }
    let mut es: Vec<(String, Json)> = Vec::new();
    es.push(("name".to_owned(), Json::Str("sql-exporter".to_owned())));
    es.push(("image".to_owned(), Json::Str(image)));
    es.push(("env".to_owned(), Json::Arr(env)));
    es.push(("volumeMounts".to_owned(), Json::Arr(mounts)));
    es.push(("restartPolicy".to_owned(), Json::Str("Always".to_owned())));
    let ghost esm = crate::json::entries_view_of(es@);
    proof {
        lemma_entries_view_of(es@);
        assert(esm =~= seq![
            ("name"@, JsonModel::Str("sql-exporter"@)),
            ("image"@, JsonModel::Str(imv)),
            (
                "env"@,
                JsonModel::Arr(
                    seq![
                        env_entry_model("CONFIG"@, "/config/config.yml"@),
                        env_entry_model("LOGLEVEL"@, "info"@),
                    ],
                ),
            ),
            (
                "volumeMounts"@,
                JsonModel::Arr(
                    seq![
                        mount_model("/config"@, "sql-exporter-configuration"@, true),
                        mount_model("/controller"@, "scratch-data"@, false),
                        mount_model("/run"@, "scratch-data"@, false),
                    ],
                ),
            ),
            ("restartPolicy"@, JsonModel::Str("Always"@)),
        ]);
        assert(JsonModel::Obj(esm) == sidecar_model(imv));
    }
    let r = Json::Obj(es);
    proof {
        assert(r@ == JsonModel::Obj(esm));
    }
    r
}

/// The key-to-file mapping inside the configuration volume.
pub open spec fn key_to_path_model() -> JsonModel {
    JsonModel::Obj(
        seq![
            ("key"@, JsonModel::Str("config.yml"@)),
            ("path"@, JsonModel::Str("config.yml"@)),
        ],
    )
}

/// The injected configuration volume: backed by the named configuration
/// object, non-optional, one key mapped to one fixed file, fixed default
/// permission bits.
pub open spec fn volume_model(config_map: Seq<char>) -> JsonModel {
    JsonModel::Obj(
        seq![
            ("name"@, JsonModel::Str("sql-exporter-configuration"@)),
            (
                "configMap"@,
                JsonModel::Obj(
                    seq![
                        ("defaultMode"@, JsonModel::Num("420"@)),
                        ("items"@, JsonModel::Arr(seq![key_to_path_model()])),
                        ("name"@, JsonModel::Str(config_map)),
                        ("optional"@, JsonModel::Bool(false)),
                    ],
                ),
            ),
        ],
    )
}

fn build_volume(config_map: String) -> (r: Json)
    ensures
        r@ == volume_model(config_map@),
{
    let ghost cm_view = config_map@;
    let mut item: Vec<(String, Json)> = Vec::new();
    item.push(("key".to_owned(), Json::Str("config.yml".to_owned())));
    item.push(("path".to_owned(), Json::Str("config.yml".to_owned())));
    proof {
        lemma_entries_view_of(item@);
        assert(crate::json::entries_view_of(item@) =~= seq![
            ("key"@, JsonModel::Str("config.yml"@)),
            ("path"@, JsonModel::Str("config.yml"@)),
        ]);
    }
    let mut items: Vec<Json> = Vec::new();
    items.push(Json::Obj(item));
    proof {
        crate::json::lemma_seq_view_of(items@);
        assert(crate::json::seq_view_of(items@) =~= seq![key_to_path_model()]);
    }
    let mut cme: Vec<(String, Json)> = Vec::new();
    cme.push(("defaultMode".to_owned(), Json::Num("420".to_owned())));
    cme.push(("items".to_owned(), Json::Arr(items)));
    cme.push(("name".to_owned(), Json::Str(config_map)));
    cme.push(("optional".to_owned(), Json::Bool(false)));
    proof {
        lemma_entries_view_of(cme@);
    }
    let ghost cmem = crate::json::entries_view_of(cme@);
    let mut es: Vec<(String, Json)> = Vec::new();
    es.push(("name".to_owned(), Json::Str("sql-exporter-configuration".to_owned())));
    es.push(("configMap".to_owned(), Json::Obj(cme)));
    let ghost esm = crate::json::entries_view_of(es@);
    proof {
        lemma_entries_view_of(es@);
        assert(esm =~= seq![
            ("name"@, JsonModel::Str("sql-exporter-configuration"@)),
            ("configMap"@, JsonModel::Obj(cmem)),
        ]);
        assert(cmem =~= seq![
            ("defaultMode"@, JsonModel::Num("420"@)),
            ("items"@, JsonModel::Arr(seq![key_to_path_model()])),
            ("name"@, JsonModel::Str(cm_view)),
            ("optional"@, JsonModel::Bool(false)),
        ]);
        assert(JsonModel::Obj(esm) == volume_model(cm_view));
    }
    let r = Json::Obj(es);
    proof {
        assert(r@ == JsonModel::Obj(esm));
    }
    r
}

/// Whether the template carries the fields the mutation relies on: a
/// `spec` map holding `initContainers` and `volumes` sequences.
pub open spec fn template_ok(t: JsonModel) -> bool {
    match t {
        JsonModel::Obj(tes) => match assoc_lookup(tes, "spec"@) {
            Some(JsonModel::Obj(ses)) => (match assoc_lookup(ses, "initContainers"@) {
                Some(JsonModel::Arr(_)) => true,
                _ => false,
            }) && (match assoc_lookup(ses, "volumes"@) {
                Some(JsonModel::Arr(_)) => true,
                _ => false,
            }),
            _ => false,
        },
        _ => false,
    }
}

/// The template with the sidecar appended to `spec.initContainers` and
/// the configuration volume appended to `spec.volumes`; defined as the
/// template itself where `template_ok` fails.
pub open spec fn spec_mutated(t: JsonModel, image: Seq<char>, config_map: Seq<char>) -> JsonModel {
    match t {
        JsonModel::Obj(tes) => match assoc_lookup(tes, "spec"@) {
            Some(JsonModel::Obj(ses)) => match (
                assoc_lookup(ses, "initContainers"@),
                assoc_lookup(ses, "volumes"@),
            ) {
                (Some(JsonModel::Arr(ics)), Some(JsonModel::Arr(vols))) => JsonModel::Obj(
                    obj_set(
                        tes,
                        "spec"@,
                        JsonModel::Obj(
                            obj_set(
                                obj_set(
                                    ses,
                                    "initContainers"@,
                                    JsonModel::Arr(ics.push(sidecar_model(image))),
                                ),
                                "volumes"@,
                                JsonModel::Arr(vols.push(volume_model(config_map))),
                            ),
                        ),
                    ),
                ),
                _ => t,
            },
            _ => t,
        },
        _ => t,
    }
}

/// The image the sidecar runs: the configured one, or the default.
pub open spec fn spec_image(params: Seq<(Seq<char>, Seq<char>)>) -> Seq<char> {
    match assoc_lookup(params, crate::spec_image_name_parameter()) {
        Some(v) => v,
        None => crate::spec_default_image_name(),
    }
}

/// What mutating a template yields: the mutated working copy, or why the
/// mutation is refused. A missing required parameter is reported before
/// any field of the template is inspected.
pub open spec fn spec_mutated_template(
    t: JsonModel,
    params: Seq<(Seq<char>, Seq<char>)>,
) -> Result<JsonModel, MutateError> {
    match assoc_lookup(params, crate::spec_config_map_parameter()) {
        None => Err(MutateError::MissingParameter),
        Some(cm) => if !template_ok(t) {
            Err(MutateError::MissingField)
        } else {
            Ok(spec_mutated(t, spec_image(params), cm))
        },
    }
}

/// What the patch of a mutation is: the difference between the template
/// and its mutated working copy.
pub open spec fn spec_mutate(t: JsonModel, params: Seq<(Seq<char>, Seq<char>)>) -> Result<
    Seq<PatchOpModel>,
    MutateError,
> {
    match spec_mutated_template(t, params) {
        Err(e) => Err(e),
        Ok(m) => Ok(spec_diff(t, m, Seq::<Seq<char>>::empty())),
    }
}

/// Appends the exporter sidecar and its configuration volume to a
/// workload template, describing the edit as a patch.
pub struct PodMutator {}

impl PodMutator {
    /// The mutated working copy of the template: strictly additive, every
    /// pre-existing field kept.
    pub fn mutated_template(template: &Json, store: &ParameterStore) -> (r: Result<
        Json,
        MutateError,
    >)
        ensures
            (match r {
                Ok(d) => spec_mutated_template(template@, store@) == Ok::<JsonModel, MutateError>(
                    d@,
                ),
                Err(e) => spec_mutated_template(template@, store@) == Err::<JsonModel, MutateError>(
                    e,
                ),
            }),
    {
        let cm = match store.get(crate::config_map_parameter()) {
            None => {
                return Err(MutateError::MissingParameter);
            },
            Some(c) => c,
        };
        let image = match store.get(crate::image_name_parameter()) {
            Some(v) => v,
            None => crate::default_image_name().to_owned(),
        };
        match template {
            Json::Obj(tes) => match obj_get(tes, "spec") {
                Some(sv) => match sv {
                    Json::Obj(ses) => {
                        let ics = match obj_get(ses, "initContainers") {
                            Some(icv) => match icv {
                                Json::Arr(ics) => ics,
                                _ => {
                                    return Err(MutateError::MissingField);
                                },
                            },
                            None => {
                                return Err(MutateError::MissingField);
                            },
                        };
                        let vols = match obj_get(ses, "volumes") {
                            Some(vv) => match vv {
                                Json::Arr(vols) => vols,
                                _ => {
                                    return Err(MutateError::MissingField);
                                },
                            },
                            None => {
                                return Err(MutateError::MissingField);
                            },
                        };
                        let sidecar = build_sidecar(image);
                        let volume = build_volume(cm);
                        let new_ics = arr_push(ics, sidecar);
                        let new_vols = arr_push(vols, volume);
                        let new_ses = obj_update(ses, "initContainers", Json::Arr(new_ics));
                        let new_ses2 = obj_update(&new_ses, "volumes", Json::Arr(new_vols));
                        let new_t = Json::Obj(obj_update(tes, "spec", Json::Obj(new_ses2)));
                        proof {
                            assert(new_t@ =~~= spec_mutated(
                                template@,
                                spec_image(store@),
                                cm@,
                            ));
                        }
                        Ok(new_t)
                    },
                    _ => {
                        return Err(MutateError::MissingField);
                    },
                },
                None => {
                    return Err(MutateError::MissingField);
                },
            },
            _ => {
                return Err(MutateError::MissingField);
            },
        }
    }

    /// The patch that appends the sidecar container and the configuration
    /// volume to the template.
    pub fn mutate(template: &Json, store: &ParameterStore) -> (r: Result<
        PatchDocument,
        MutateError,
    >)
        ensures
            (match r {
                Ok(p) => spec_mutate(template@, store@) == Ok::<Seq<PatchOpModel>, MutateError>(
                    p@,
                ),
                Err(e) => spec_mutate(template@, store@) == Err::<Seq<PatchOpModel>, MutateError>(
                    e,
                ),
            }),
    {
        match Self::mutated_template(template, store) {
            Err(e) => Err(e),
            Ok(d) => Ok(diff(template, &d)),
        }
    }
}

/// A store without the required configuration-object name makes the
/// mutation fail with exactly the missing-parameter error, whatever the
/// template looks like.
pub proof fn lemma_mutate_missing_parameter(t: JsonModel, params: Seq<(Seq<char>, Seq<char>)>)
    requires
        assoc_lookup(params, crate::spec_config_map_parameter()) is None,
    ensures
        spec_mutate(t, params) == Err::<Seq<PatchOpModel>, MutateError>(
            MutateError::MissingParameter,
        ),
{
}

/// On any well-formed template that carries the needed fields, and any
/// store with the required parameter, the mutation patch is exactly two
/// `add` operations: one for the sidecar, one for the volume.
pub proof fn lemma_mutate_appends_two(t: JsonModel, params: Seq<(Seq<char>, Seq<char>)>)
    requires
        wf_json(t),
        assoc_lookup(params, crate::spec_config_map_parameter()) is Some,
        template_ok(t),
    ensures
        spec_mutate(t, params) matches Ok(ops) && ops.len() == 2 && ops[0] is Add && ops[1]
            is Add,
{
    let cm = assoc_lookup(params, crate::spec_config_map_parameter()).unwrap();
    let image = spec_image(params);
    let tes = t->Obj_0;
    let sv = assoc_lookup(tes, "spec"@).unwrap();
    let ses = sv->Obj_0;
    let icv = assoc_lookup(ses, "initContainers"@).unwrap();
    let ics = icv->Arr_0;
    let vv = assoc_lookup(ses, "volumes"@).unwrap();
    let vols = vv->Arr_0;
    assert(t is Obj && sv is Obj && icv is Arr && vv is Arr);

    let sc = sidecar_model(image);
    let vol = volume_model(cm);
    let a = JsonModel::Arr(ics.push(sc));
    let b = JsonModel::Arr(vols.push(vol));
    let ns = JsonModel::Obj(obj_set(obj_set(ses, "initContainers"@, a), "volumes"@, b));
    let nd = JsonModel::Obj(obj_set(tes, "spec"@, ns));
    assert(spec_mutated(t, image, cm) == nd);
    assert(spec_mutate(t, params) == Ok::<Seq<crate::patch::PatchOpModel>, MutateError>(
        crate::patch::spec_diff(t, nd, Seq::<Seq<char>>::empty()),
    ));

    crate::json::lemma_wf_entries(tes);
    crate::patch::lemma_assoc_lookup_some(tes, "spec"@);
    let k = choose|k: int| 0 <= k < tes.len() && #[trigger] tes[k].0 == "spec"@;
    assert(forall|j: int| 0 <= j < k ==> tes[j].0 != "spec"@);
    crate::json::lemma_assoc_lookup_at(tes, "spec"@, k);
    assert(tes[k].1 == sv);
    crate::json::lemma_obj_set_at(tes, "spec"@, ns, k);
    crate::patch::lemma_diff_obj_pointwise(
        tes,
        tes.update(k, ("spec"@, ns)),
        Seq::<Seq<char>>::empty(),
        k,
    );
    let p1 = Seq::<Seq<char>>::empty().push("spec"@);
    assert(crate::patch::spec_diff(t, nd, Seq::<Seq<char>>::empty())
        == crate::patch::spec_diff(sv, ns, p1));

    assert(wf_json(sv));
    crate::json::lemma_wf_entries(ses);
    crate::patch::lemma_assoc_lookup_some(ses, "initContainers"@);
    let ji = choose|ji: int| 0 <= ji < ses.len() && #[trigger] ses[ji].0 == "initContainers"@;
    assert(forall|j: int| 0 <= j < ji ==> ses[j].0 != "initContainers"@);
    crate::json::lemma_assoc_lookup_at(ses, "initContainers"@, ji);
    assert(ses[ji].1 == icv);
    crate::patch::lemma_assoc_lookup_some(ses, "volumes"@);
    let jv = choose|jv: int| 0 <= jv < ses.len() && #[trigger] ses[jv].0 == "volumes"@;
    assert(forall|j: int| 0 <= j < jv ==> ses[j].0 != "volumes"@);
    crate::json::lemma_assoc_lookup_at(ses, "volumes"@, jv);
    assert(ses[jv].1 == vv);
    reveal_strlit("initContainers");
    reveal_strlit("volumes");
    assert("initContainers"@.len() != "volumes"@.len());
    assert(ji != jv);

    let step1 = ses.update(ji, ("initContainers"@, a));
    crate::json::lemma_obj_set_at(ses, "initContainers"@, a, ji);
    assert(obj_set(ses, "initContainers"@, a) == step1);
    assert(forall|j: int| 0 <= j < step1.len() ==> (#[trigger] step1[j]).0 == ses[j].0);
    assert(forall|j: int| 0 <= j < jv ==> step1[j].0 != "volumes"@);
    assert(step1[jv].0 == "volumes"@);
    crate::json::lemma_obj_set_at(step1, "volumes"@, b, jv);
    let step2 = step1.update(jv, ("volumes"@, b));
    assert(obj_set(step1, "volumes"@, b) == step2);
    assert(ns == JsonModel::Obj(step2));

    // the two value differences are each one add at the tail index
    assert(wf_json(icv));
    crate::json::lemma_wf_elems(ics);
    assert(wf_json(vv));
    crate::json::lemma_wf_elems(vols);
    crate::patch::lemma_diff_arr_appended(ics, p1.push("initContainers"@), sc);
    crate::patch::lemma_diff_arr_appended(vols, p1.push("volumes"@), vol);

    let ic_ops = crate::patch::spec_diff(icv, a, p1.push("initContainers"@));
    let vol_ops = crate::patch::spec_diff(vv, b, p1.push("volumes"@));
    assert(ic_ops.len() == 1 && ic_ops[0] is Add);
    assert(vol_ops.len() == 1 && vol_ops[0] is Add);

    if ji < jv {
        crate::patch::lemma_diff_obj_pointwise2(ses, step2, p1, ji, jv);
        assert(crate::patch::spec_diff(sv, ns, p1) == ic_ops + vol_ops);
    } else {
        crate::patch::lemma_diff_obj_pointwise2(ses, step2, p1, jv, ji);
        assert(crate::patch::spec_diff(sv, ns, p1) == vol_ops + ic_ops);
    }
}

} // verus!
