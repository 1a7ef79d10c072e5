//! The configuration model: a plugin and a plugin list, read from and
//! printed to JSON trees. A plugin's reading walks the object's keys exactly
//! once, routing `type`, `args` and `capabilities` into their slots and
//! keeping every other key verbatim under `plugin_options`.

use vstd::prelude::*;

use crate::json::Json;
use crate::json::JsonV;
use crate::json::json_parse;
use crate::json::json_emit;
use crate::json::json_text_of;
use crate::json::json_tree_of;
use crate::json::kv_get;
use crate::json::kv_has;
use crate::json::kv_set;
use crate::json::kv_unique;
use crate::json::lemma_kv_set_get;
use crate::json::lemma_kv_set_unique;
use crate::json::obj_get;
use crate::json::spec_elems_view;
use crate::json::spec_entries_view;
use crate::strutil::str_eq;
use crate::types::CniName;
use crate::types::CniValidationError;
use crate::types::CniVersion;
use crate::types::spec_name_check;
use crate::types::spec_version_parse;

verus! {

/// Why a configuration document failed to read.
#[derive(Debug)]
pub enum CniDeserializationError {
    FileError(String),
    SerdeError,
    RootIsNotObject,
    MissingKey,
    KeyOfWrongType,
    EmptyArray,
    MalformedName(CniValidationError),
    MalformedVersion(CniValidationError),
}

/// Why a configuration document failed to print.
#[derive(Debug)]
pub enum CniSerializationError {
    FileError(String),
    SerdeError,
    OverlappingKey,
}

/// One plugin of a chain.
#[derive(Debug)]
pub struct CniPlugin {
    pub plugin_type: String,
    pub args: Option<Vec<(String, Json)>>,
    pub capabilities: Option<Vec<(String, Json)>>,
    pub plugin_options: Vec<(String, Json)>,
}

/// The shape of a plugin.
#[verifier::ext_equal]
pub struct CniPluginV {
    pub plugin_type: Seq<char>,
    pub args: Option<Seq<(Seq<char>, JsonV)>>,
    pub capabilities: Option<Seq<(Seq<char>, JsonV)>>,
    pub plugin_options: Seq<(Seq<char>, JsonV)>,
}

/// The shape under an optional entry list.
pub open spec fn spec_opt_entries_view(o: Option<Vec<(String, Json)>>) -> Option<
    Seq<(Seq<char>, JsonV)>,
> {
    match o {
        Option::Some(v) => Option::Some(spec_entries_view(v@)),
        Option::None => Option::None,
    }
}

impl View for CniPlugin {
    type V = CniPluginV;

    open spec fn view(&self) -> CniPluginV {
        CniPluginV {
            plugin_type: self.plugin_type@,
            args: spec_opt_entries_view(self.args),
            capabilities: spec_opt_entries_view(self.capabilities),
            plugin_options: spec_entries_view(self.plugin_options@),
        }
    }
}

// --- reading a plugin --------------------------------------------------------

/// The rolling state of the key walk.
#[verifier::ext_equal]
pub struct PluginWalk {
    pub plugin_type: Option<Seq<char>>,
    pub args: Option<Seq<(Seq<char>, JsonV)>>,
    pub capabilities: Option<Seq<(Seq<char>, JsonV)>>,
    pub plugin_options: Seq<(Seq<char>, JsonV)>,
}

/// The empty walk state.
pub open spec fn spec_walk_empty() -> PluginWalk {
    PluginWalk {
        plugin_type: Option::None,
        args: Option::None,
        capabilities: Option::None,
        plugin_options: Seq::<(Seq<char>, JsonV)>::empty(),
    }
}

/// One step of the key walk: `type` must carry a string, `args` and
/// `capabilities` objects; any other key lands in the options verbatim,
/// a later occurrence replacing an earlier one.
pub open spec fn spec_walk_step(st: PluginWalk, e: (Seq<char>, JsonV)) -> Result<
    PluginWalk,
    CniDeserializationError,
> {
    if e.0 == "type"@ {
        match e.1 {
            JsonV::Str(s) => Result::Ok(PluginWalk { plugin_type: Option::Some(s), ..st }),
            _ => Result::Err(CniDeserializationError::KeyOfWrongType),
        }
    } else if e.0 == "args"@ {
        match e.1 {
            JsonV::Obj(a) => Result::Ok(PluginWalk { args: Option::Some(a), ..st }),
            _ => Result::Err(CniDeserializationError::KeyOfWrongType),
        }
    } else if e.0 == "capabilities"@ {
        match e.1 {
            JsonV::Obj(c) => Result::Ok(PluginWalk { capabilities: Option::Some(c), ..st }),
            _ => Result::Err(CniDeserializationError::KeyOfWrongType),
        }
    } else {
        Result::Ok(PluginWalk { plugin_options: kv_set(st.plugin_options, e.0, e.1), ..st })
    }
}

/// The whole key walk, in entry order.
pub open spec fn spec_plugin_walk(m: Seq<(Seq<char>, JsonV)>) -> Result<
    PluginWalk,
    CniDeserializationError,
>
    decreases m.len(),
{
    if m.len() == 0 {
        Result::Ok(spec_walk_empty())
    } else {
        match spec_plugin_walk(m.drop_last()) {
            Result::Err(e) => Result::Err(e),
            Result::Ok(st) => spec_walk_step(st, m.last()),
        }
    }
}

proof fn lemma_plugin_walk_prefix_err(
    m: Seq<(Seq<char>, JsonV)>,
    j: int,
    e: CniDeserializationError,
)
    requires
        0 <= j <= m.len(),
        spec_plugin_walk(m.subrange(0, j)) == Err::<PluginWalk, CniDeserializationError>(e),
    ensures
        spec_plugin_walk(m) == Err::<PluginWalk, CniDeserializationError>(e),
    decreases m.len() - j,
{
    if j == m.len() {
        assert(m.subrange(0, j) =~= m);
    } else {
        assert(m.subrange(0, j + 1).drop_last() =~= m.subrange(0, j));
        lemma_plugin_walk_prefix_err(m, j + 1, e);
    }
}

/// The reading of a plugin: an object whose keys are walked once; a missing
/// `type` fails with `MissingKey`, anything but an object with
/// `KeyOfWrongType`.
pub open spec fn spec_plugin_from_json(j: JsonV) -> Result<CniPluginV, CniDeserializationError> {
    match j {
        JsonV::Obj(m) => match spec_plugin_walk(m) {
            Result::Err(e) => Result::Err(e),
            Result::Ok(st) => match st.plugin_type {
                Option::None => Result::Err(CniDeserializationError::MissingKey),
                Option::Some(t) => Result::Ok(
                    CniPluginV {
                        plugin_type: t,
                        args: st.args,
                        capabilities: st.capabilities,
                        plugin_options: st.plugin_options,
                    },
                ),
            },
        },
        _ => Result::Err(CniDeserializationError::KeyOfWrongType),
    }
}

impl CniPlugin {
    /// Reads a plugin out of a JSON value.
    pub fn from_json_value(j: &Json) -> (r: Result<CniPlugin, CniDeserializationError>)
        ensures
            match r {
                Ok(p) => spec_plugin_from_json(j@) == Ok::<CniPluginV, CniDeserializationError>(
                    p@,
                ),
                Err(e) => spec_plugin_from_json(j@) == Err::<CniPluginV, CniDeserializationError>(
                    e,
                ),
            },
    {
        match j {
            Json::Obj(entries) => {
                let ghost m = spec_entries_view(entries@);
                let mut plugin_type: Option<String> = None;
                let mut args: Option<Vec<(String, Json)>> = None;
                let mut capabilities: Option<Vec<(String, Json)>> = None;
                let mut plugin_options: Vec<(String, Json)> = Vec::new();
                let n = entries.len();
                let mut i: usize = 0;
                proof {
                    assert(spec_entries_view(plugin_options@)
                        =~= Seq::<(Seq<char>, JsonV)>::empty());
                }
                while i < n
                    invariant
                        n == entries@.len(),
                        0 <= i <= n,
                        m == spec_entries_view(entries@),
                        j@ == JsonV::Obj(m),
                        spec_plugin_walk(m.subrange(0, i as int)) == Ok::<
                            PluginWalk,
                            CniDeserializationError,
                        >(
                            PluginWalk {
                                plugin_type: match plugin_type {
                                    Option::Some(ref s) => Option::Some(s@),
                                    Option::None => Option::None,
                                },
                                args: spec_opt_entries_view(args),
                                capabilities: spec_opt_entries_view(capabilities),
                                plugin_options: spec_entries_view(plugin_options@),
                            },
                        ),
                    decreases n - i,
                {
                    proof {
                        assert(m.subrange(0, i + 1).drop_last() =~= m.subrange(0, i as int));
                        assert(m.subrange(0, i + 1).last() == m[i as int]);
                    }
                    let key = &entries[i].0;
                    let val = &entries[i].1;
                    proof {
                        crate::json::lemma_json_view_variants(entries@[i as int].1);
                    }
                    if str_eq(key.as_str(), "type") {
                        match val {
                            Json::Str(s) => {
                                plugin_type = Some(s.clone());
                            },
                            _ => {
                                proof {
                                    lemma_plugin_walk_prefix_err(
                                        m,
                                        i + 1,
                                        CniDeserializationError::KeyOfWrongType,
                                    );
                                }
                                return Err(CniDeserializationError::KeyOfWrongType);
                            },
                        }
                    } else if str_eq(key.as_str(), "args") {
                        match val {
                            Json::Obj(a) => {
                                args = Some(crate::json::clone_entries(a));
                            },
                            _ => {
                                proof {
                                    lemma_plugin_walk_prefix_err(
                                        m,
                                        i + 1,
                                        CniDeserializationError::KeyOfWrongType,
                                    );
                                }
                                return Err(CniDeserializationError::KeyOfWrongType);
                            },
                        }
                    } else if str_eq(key.as_str(), "capabilities") {
                        match val {
                            Json::Obj(c) => {
                                capabilities = Some(crate::json::clone_entries(c));
                            },
                            _ => {
                                proof {
                                    lemma_plugin_walk_prefix_err(
                                        m,
                                        i + 1,
                                        CniDeserializationError::KeyOfWrongType,
                                    );
                                }
                                return Err(CniDeserializationError::KeyOfWrongType);
                            },
                        }
                    } else {
                        let k = key.clone();
                        let v = val.clone();
                        crate::json::obj_set(&mut plugin_options, k, v);
                    }
                    i = i + 1;
                }
                proof {
                    assert(m.subrange(0, n as int) =~= m);
                }
                match plugin_type {
                    Some(t) => Ok(
                        CniPlugin { plugin_type: t, args, capabilities, plugin_options },
                    ),
                    None => Err(CniDeserializationError::MissingKey),
                }
            },
            _ => Err(CniDeserializationError::KeyOfWrongType),
        }
    }

    /// Reads a plugin out of JSON text.
    pub fn from_string(content: &str) -> (r: Result<CniPlugin, CniDeserializationError>)
        ensures
            match r {
                Ok(p) => json_tree_of(content@) matches Some(t) && spec_plugin_from_json(t)
                    == Ok::<CniPluginV, CniDeserializationError>(p@),
                Err(e) => (json_tree_of(content@) matches Some(t) && spec_plugin_from_json(t)
                    == Err::<CniPluginV, CniDeserializationError>(e)) || (json_tree_of(content@)
                    is None && e is SerdeError),
            },
    {
        match json_parse(content) {
            Some(j) => CniPlugin::from_json_value(&j),
            None => Err(CniDeserializationError::SerdeError),
        }
    }
}

// --- printing a plugin ---------------------------------------------------------

/// An option list that can stand beside the routed keys: keys unique, and
/// none of the reserved `type`, `args`, `capabilities`.
pub open spec fn spec_plugin_wf(p: CniPluginV) -> bool {
    &&& kv_unique(p.plugin_options)
    &&& !kv_has(p.plugin_options, "type"@)
    &&& !kv_has(p.plugin_options, "args"@)
    &&& !kv_has(p.plugin_options, "capabilities"@)
}

/// The printing of a plugin: `type`, then `args` and `capabilities` when
/// present, then the options verbatim; a reserved key among the options
/// fails with `OverlappingKey`.
pub open spec fn spec_plugin_to_json(p: CniPluginV) -> Result<JsonV, CniSerializationError> {
    if kv_has(p.plugin_options, "type"@) || kv_has(p.plugin_options, "args"@) || kv_has(
        p.plugin_options,
        "capabilities"@,
    ) {
        Result::Err(CniSerializationError::OverlappingKey)
    } else {
        Result::Ok(
            JsonV::Obj(
                seq![("type"@, JsonV::Str(p.plugin_type))] + (match p.args {
                    Option::Some(a) => seq![("args"@, JsonV::Obj(a))],
                    Option::None => Seq::<(Seq<char>, JsonV)>::empty(),
                }) + (match p.capabilities {
                    Option::Some(c) => seq![("capabilities"@, JsonV::Obj(c))],
                    Option::None => Seq::<(Seq<char>, JsonV)>::empty(),
                }) + p.plugin_options,
            ),
        )
    }
}

impl CniPlugin {
    /// Prints the plugin as a JSON value.
    pub fn to_json_value(&self) -> (r: Result<Json, CniSerializationError>)
        ensures
            match r {
                Ok(j) => spec_plugin_to_json(self@) == Ok::<JsonV, CniSerializationError>(j@),
                Err(e) => spec_plugin_to_json(self@) == Err::<JsonV, CniSerializationError>(e),
            },
    {
        let ghost opts = spec_entries_view(self.plugin_options@);
        let n = self.plugin_options.len();
        let mut i: usize = 0;
        while i < n
            invariant
                n == self.plugin_options@.len(),
                0 <= i <= n,
                opts == spec_entries_view(self.plugin_options@),
                forall|k: int|
                    0 <= k < i ==> (#[trigger] opts[k]).0 != "type"@ && opts[k].0 != "args"@
                        && opts[k].0 != "capabilities"@,
            decreases n - i,
        {
            let key = &self.plugin_options[i].0;
            if str_eq(key.as_str(), "type") || str_eq(key.as_str(), "args") || str_eq(
                key.as_str(),
                "capabilities",
            ) {
                proof {
                    crate::json::lemma_kv_index_has(opts, i as int);
                }
                return Err(CniSerializationError::OverlappingKey);
            }
            i = i + 1;
        }
        proof {
            if kv_has(opts, "type"@) {
                crate::json::lemma_kv_has_index(opts, "type"@);
            }
            if kv_has(opts, "args"@) {
                crate::json::lemma_kv_has_index(opts, "args"@);
            }
            if kv_has(opts, "capabilities"@) {
                crate::json::lemma_kv_has_index(opts, "capabilities"@);
            }
        }
        let mut entries: Vec<(String, Json)> = Vec::new();
        entries.push(("type".to_owned(), Json::Str(self.plugin_type.clone())));
        match &self.args {
            Some(a) => {
                entries.push(("args".to_owned(), Json::Obj(crate::json::clone_entries(a))));
            },
            None => {},
        }
        match &self.capabilities {
            Some(c) => {
                entries.push(
                    ("capabilities".to_owned(), Json::Obj(crate::json::clone_entries(c))),
                );
            },
            None => {},
        }
        let m = self.plugin_options.len();
        let mut w: usize = 0;
        let ghost head = spec_entries_view(entries@);
        while w < m
            invariant
                m == self.plugin_options@.len(),
                0 <= w <= m,
                opts == spec_entries_view(self.plugin_options@),
                spec_entries_view(entries@) =~= head + opts.subrange(0, w as int),
            decreases m - w,
        {
            let key = self.plugin_options[w].0.clone();
            let val = self.plugin_options[w].1.clone();
            let ghost prev = spec_entries_view(entries@);
            let ghost kv = (key@, crate::json::json_view(val));
            proof {
                assert(kv == opts[w as int]);
            }
            entries.push((key, val));
            proof {
                assert(spec_entries_view(entries@) =~= prev.push(kv));
                assert(prev.push(kv) =~= head + opts.subrange(0, w + 1));
            }
            w = w + 1;
        }
        proof {
            assert(opts.subrange(0, m as int) =~= opts);
            assert(head + opts =~= seq![("type"@, JsonV::Str(self@.plugin_type))] + (
            match self@.args {
                Option::Some(a) => seq![("args"@, JsonV::Obj(a))],
                Option::None => Seq::<(Seq<char>, JsonV)>::empty(),
            }) + (match self@.capabilities {
                Option::Some(c) => seq![("capabilities"@, JsonV::Obj(c))],
                Option::None => Seq::<(Seq<char>, JsonV)>::empty(),
            }) + self@.plugin_options);
        }
        Ok(Json::Obj(entries))
    }
}

/// Every plugin a reading produces can stand beside the routed keys: its
/// options never hold `type`, `args` or `capabilities`, and never hold a
/// key twice.
pub proof fn lemma_plugin_walk_options_wf(m: Seq<(Seq<char>, JsonV)>)
    ensures
        spec_plugin_walk(m) matches Ok(st) ==> {
            &&& kv_unique(st.plugin_options)
            &&& !kv_has(st.plugin_options, "type"@)
            &&& !kv_has(st.plugin_options, "args"@)
            &&& !kv_has(st.plugin_options, "capabilities"@)
        },
    decreases m.len(),
{
    if m.len() == 0 {
    } else {
        lemma_plugin_walk_options_wf(m.drop_last());
        match spec_plugin_walk(m.drop_last()) {
            Result::Err(_) => {},
            Result::Ok(st) => {
                let e = m.last();
                if e.0 == "type"@ || e.0 == "args"@ || e.0 == "capabilities"@ {
                } else {
                    lemma_kv_set_unique(st.plugin_options, e.0, e.1);
                    lemma_kv_set_get(st.plugin_options, e.0, e.1, "type"@);
                    lemma_kv_set_get(st.plugin_options, e.0, e.1, "args"@);
                    lemma_kv_set_get(st.plugin_options, e.0, e.1, "capabilities"@);
                }
            },
        }
    }
}

/// A parsed plugin's options never hold `type`, `args` or `capabilities`.
pub proof fn lemma_plugin_options_reserved(j: JsonV, p: CniPluginV)
    requires
        spec_plugin_from_json(j) == Ok::<CniPluginV, CniDeserializationError>(p),
    ensures
        spec_plugin_wf(p),
{
    match j {
        JsonV::Obj(m) => {
            lemma_plugin_walk_options_wf(m);
        },
        _ => {},
    }
}

// --- the plugin list ------------------------------------------------------------

/// An ordered chain of plugins that together define a network.
#[derive(Debug)]
pub struct CniPluginList {
    pub cni_version: CniVersion,
    pub cni_versions: Option<Vec<CniVersion>>,
    pub name: CniName,
    pub disable_check: bool,
    pub disable_gc: bool,
    pub plugins: Vec<CniPlugin>,
}

/// The shape of a plugin list.
#[verifier::ext_equal]
pub struct CniPluginListV {
    pub cni_version: Seq<char>,
    pub cni_versions: Option<Seq<Seq<char>>>,
    pub name: Seq<char>,
    pub disable_check: bool,
    pub disable_gc: bool,
    pub plugins: Seq<CniPluginV>,
}

impl View for CniPluginList {
    type V = CniPluginListV;

    open spec fn view(&self) -> CniPluginListV {
        CniPluginListV {
            cni_version: self.cni_version@,
            cni_versions: match self.cni_versions {
                Option::Some(ref v) => Option::Some(crate::schema::spec_seq_view(v@)),
                Option::None => Option::None,
            },
            name: self.name@,
            disable_check: self.disable_check,
            disable_gc: self.disable_gc,
            plugins: crate::schema::spec_seq_view(self.plugins@),
        }
    }
}

// --- reading a plugin list ---------------------------------------------------

/// Reads a `cniVersions` array: every element a string holding a version,
/// rebuilt as canonical text.
pub open spec fn spec_parse_version_list(es: Seq<JsonV>) -> Result<
    Seq<Seq<char>>,
    CniDeserializationError,
>
    decreases es.len(),
{
    if es.len() == 0 {
        Result::Ok(Seq::<Seq<char>>::empty())
    } else {
        match spec_parse_version_list(es.drop_last()) {
            Result::Err(e) => Result::Err(e),
            Result::Ok(pre) => match es.last() {
                JsonV::Str(s) => match spec_version_parse(s) {
                    Result::Ok(c) => Result::Ok(pre.push(c)),
                    Result::Err(e) => Result::Err(CniDeserializationError::MalformedVersion(e)),
                },
                _ => Result::Err(CniDeserializationError::KeyOfWrongType),
            },
        }
    }
}

proof fn lemma_parse_version_list_prefix_err(
    es: Seq<JsonV>,
    j: int,
    e: CniDeserializationError,
)
    requires
        0 <= j <= es.len(),
        spec_parse_version_list(es.subrange(0, j)) == Err::<Seq<Seq<char>>,
            CniDeserializationError,
        >(e),
    ensures
        spec_parse_version_list(es) == Err::<Seq<Seq<char>>, CniDeserializationError>(e),
    decreases es.len() - j,
{
    if j == es.len() {
        assert(es.subrange(0, j) =~= es);
    } else {
        assert(es.subrange(0, j + 1).drop_last() =~= es.subrange(0, j));
        lemma_parse_version_list_prefix_err(es, j + 1, e);
    }
}

fn parse_version_list(elems: &Vec<Json>) -> (r: Result<Vec<CniVersion>, CniDeserializationError>)
    ensures
        match r {
            Ok(v) => spec_parse_version_list(spec_elems_view(elems@)) == Ok::<
                Seq<Seq<char>>,
                CniDeserializationError,
            >(crate::schema::spec_seq_view(v@)),
            Err(e) => spec_parse_version_list(spec_elems_view(elems@)) == Err::<
                Seq<Seq<char>>,
                CniDeserializationError,
            >(e),
        },
{
    let ghost es = spec_elems_view(elems@);
    let mut out: Vec<CniVersion> = Vec::new();
    let n = elems.len();
    let mut i: usize = 0;
    proof {
        assert(crate::schema::spec_seq_view(out@) =~= Seq::<Seq<char>>::empty());
    }
    while i < n
        invariant
            n == elems@.len(),
            0 <= i <= n,
            es == spec_elems_view(elems@),
            spec_parse_version_list(es.subrange(0, i as int)) == Ok::<
                Seq<Seq<char>>,
                CniDeserializationError,
            >(crate::schema::spec_seq_view(out@)),
        decreases n - i,
    {
        proof {
            assert(es.subrange(0, i + 1).drop_last() =~= es.subrange(0, i as int));
            assert(es.subrange(0, i + 1).last() == es[i as int]);
            crate::json::lemma_json_view_variants(elems@[i as int]);
        }
        match &elems[i] {
            Json::Str(s) => match CniVersion::parse(s.as_str()) {
                Ok(v) => {
                    out.push(v);
                    proof {
                        assert(crate::schema::spec_seq_view(out@) =~= spec_parse_version_list(
                            es.subrange(0, i + 1),
                        )->Ok_0);
                    }
                },
                Err(e) => {
                    proof {
                        lemma_parse_version_list_prefix_err(
                            es,
                            i + 1,
                            CniDeserializationError::MalformedVersion(e),
                        );
                    }
                    return Err(CniDeserializationError::MalformedVersion(e));
                },
            },
            _ => {
                proof {
                    lemma_parse_version_list_prefix_err(
                        es,
                        i + 1,
                        CniDeserializationError::KeyOfWrongType,
                    );
                }
                return Err(CniDeserializationError::KeyOfWrongType);
            },
        }
        i = i + 1;
    }
    proof {
        assert(es.subrange(0, n as int) =~= es);
    }
    Ok(out)
}

/// Reads a `plugins` array, element by element.
pub open spec fn spec_parse_plugins(es: Seq<JsonV>) -> Result<
    Seq<CniPluginV>,
    CniDeserializationError,
>
    decreases es.len(),
{
    if es.len() == 0 {
        Result::Ok(Seq::<CniPluginV>::empty())
    } else {
        match spec_parse_plugins(es.drop_last()) {
            Result::Err(e) => Result::Err(e),
            Result::Ok(pre) => match spec_plugin_from_json(es.last()) {
                Result::Ok(p) => Result::Ok(pre.push(p)),
                Result::Err(e) => Result::Err(e),
            },
        }
    }
}

proof fn lemma_parse_plugins_prefix_err(es: Seq<JsonV>, j: int, e: CniDeserializationError)
    requires
        0 <= j <= es.len(),
        spec_parse_plugins(es.subrange(0, j)) == Err::<Seq<CniPluginV>,
            CniDeserializationError,
        >(e),
    ensures
        spec_parse_plugins(es) == Err::<Seq<CniPluginV>, CniDeserializationError>(e),
    decreases es.len() - j,
{
    if j == es.len() {
        assert(es.subrange(0, j) =~= es);
    } else {
        assert(es.subrange(0, j + 1).drop_last() =~= es.subrange(0, j));
        lemma_parse_plugins_prefix_err(es, j + 1, e);
    }
}

fn parse_plugins(elems: &Vec<Json>) -> (r: Result<Vec<CniPlugin>, CniDeserializationError>)
    ensures
        match r {
            Ok(v) => spec_parse_plugins(spec_elems_view(elems@)) == Ok::<
                Seq<CniPluginV>,
                CniDeserializationError,
            >(crate::schema::spec_seq_view(v@)),
            Err(e) => spec_parse_plugins(spec_elems_view(elems@)) == Err::<
                Seq<CniPluginV>,
                CniDeserializationError,
            >(e),
        },
{
    let ghost es = spec_elems_view(elems@);
    let mut out: Vec<CniPlugin> = Vec::new();
    let n = elems.len();
    let mut i: usize = 0;
    proof {
        assert(crate::schema::spec_seq_view(out@) =~= Seq::<CniPluginV>::empty());
    }
    while i < n
        invariant
            n == elems@.len(),
            0 <= i <= n,
            es == spec_elems_view(elems@),
            spec_parse_plugins(es.subrange(0, i as int)) == Ok::<
                Seq<CniPluginV>,
                CniDeserializationError,
            >(crate::schema::spec_seq_view(out@)),
        decreases n - i,
    {
        proof {
            assert(es.subrange(0, i + 1).drop_last() =~= es.subrange(0, i as int));
            assert(es.subrange(0, i + 1).last() == es[i as int]);
        }
        match CniPlugin::from_json_value(&elems[i]) {
            Ok(p) => {
                out.push(p);
                proof {
                    assert(crate::schema::spec_seq_view(out@) =~= spec_parse_plugins(
                        es.subrange(0, i + 1),
                    )->Ok_0);
                }
            },
            Err(e) => {
                proof {
                    lemma_parse_plugins_prefix_err(es, i + 1, e);
                }
                return Err(e);
            },
        }
        i = i + 1;
    }
    proof {
        assert(es.subrange(0, n as int) =~= es);
    }
    Ok(out)
}

/// The reading of a plugin list from the `plugins` key on: the array is
/// required, must not be empty, and every element must read as a plugin.
pub open spec fn spec_list_plugins_part(m: Seq<(Seq<char>, JsonV)>) -> Result<
    Seq<CniPluginV>,
    CniDeserializationError,
> {
    match kv_get(m, "plugins"@) {
        Option::None => Result::Err(CniDeserializationError::MissingKey),
        Option::Some(JsonV::Arr(es)) => {
            if es.len() == 0 {
                Result::Err(CniDeserializationError::EmptyArray)
            } else {
                spec_parse_plugins(es)
            }
        },
        Option::Some(_) => Result::Err(CniDeserializationError::KeyOfWrongType),
    }
}

/// The reading of the optional `cniVersions` key: when present it must be a
/// non-empty array of version strings.
pub open spec fn spec_list_versions_part(m: Seq<(Seq<char>, JsonV)>) -> Result<
    Option<Seq<Seq<char>>>,
    CniDeserializationError,
> {
    match kv_get(m, "cniVersions"@) {
        Option::None => Result::Ok(Option::None),
        Option::Some(JsonV::Arr(es)) => match spec_parse_version_list(es) {
            Result::Err(e) => Result::Err(e),
            Result::Ok(list) => {
                if list.len() == 0 {
                    Result::Err(CniDeserializationError::EmptyArray)
                } else {
                    Result::Ok(Option::Some(list))
                }
            },
        },
        Option::Some(_) => Result::Err(CniDeserializationError::KeyOfWrongType),
    }
}

/// The reading of an optional boolean key, false when absent.
pub open spec fn spec_list_bool_part(m: Seq<(Seq<char>, JsonV)>, k: Seq<char>) -> Result<
    bool,
    CniDeserializationError,
> {
    match kv_get(m, k) {
        Option::None => Result::Ok(false),
        Option::Some(JsonV::Bool(b)) => Result::Ok(b),
        Option::Some(_) => Result::Err(CniDeserializationError::KeyOfWrongType),
    }
}

/// The reading of a required string key.
pub open spec fn spec_list_str_part(m: Seq<(Seq<char>, JsonV)>, k: Seq<char>) -> Result<
    Seq<char>,
    CniDeserializationError,
> {
    match kv_get(m, k) {
        Option::None => Result::Err(CniDeserializationError::MissingKey),
        Option::Some(JsonV::Str(s)) => Result::Ok(s),
        Option::Some(_) => Result::Err(CniDeserializationError::KeyOfWrongType),
    }
}

/// The reading of a plugin list: the root must be an object; `cniVersion`,
/// `name` and `plugins` are required, `cniVersions`, `disableCheck` and
/// `disableGC` optional, and any other key is ignored. The checks run in
/// exactly this order, so the error names the first failing key.
pub open spec fn spec_list_from_json(j: JsonV) -> Result<
    CniPluginListV,
    CniDeserializationError,
> {
    match j {
        JsonV::Obj(m) => match spec_list_str_part(m, "cniVersion"@) {
            Result::Err(e) => Result::Err(e),
            Result::Ok(vs) => match spec_version_parse(vs) {
                Result::Err(e) => Result::Err(CniDeserializationError::MalformedVersion(e)),
                Result::Ok(ver) => match spec_list_versions_part(m) {
                    Result::Err(e) => Result::Err(e),
                    Result::Ok(versions) => match spec_list_str_part(m, "name"@) {
                        Result::Err(e) => Result::Err(e),
                        Result::Ok(ns) => match spec_name_check(ns) {
                            Option::Some(e) => Result::Err(
                                CniDeserializationError::MalformedName(e),
                            ),
                            Option::None => match spec_list_bool_part(m, "disableCheck"@) {
                                Result::Err(e) => Result::Err(e),
                                Result::Ok(dc) => match spec_list_bool_part(m, "disableGC"@) {
                                    Result::Err(e) => Result::Err(e),
                                    Result::Ok(dgc) => match spec_list_plugins_part(m) {
                                        Result::Err(e) => Result::Err(e),
                                        Result::Ok(ps) => Result::Ok(
                                            CniPluginListV {
                                                cni_version: ver,
                                                cni_versions: versions,
                                                name: ns,
                                                disable_check: dc,
                                                disable_gc: dgc,
                                                plugins: ps,
                                            },
                                        ),
                                    },
                                },
                            },
                        },
                    },
                },
            },
        },
        _ => Result::Err(CniDeserializationError::RootIsNotObject),
    }
}

impl CniPluginList {
    /// Reads a plugin list out of a JSON value.
    pub fn from_json_value(j: &Json) -> (r: Result<CniPluginList, CniDeserializationError>)
        ensures
            match r {
                Ok(l) => spec_list_from_json(j@) == Ok::<CniPluginListV,
                    CniDeserializationError,
                >(l@),
                Err(e) => spec_list_from_json(j@) == Err::<CniPluginListV,
                    CniDeserializationError,
                >(e),
            },
    {
        match j {
            Json::Obj(entries) => {
                let vs = match obj_get(entries, "cniVersion") {
                    Some(g) => match g {
                        Json::Str(s) => s.clone(),
                        _ => {
                            return Err(CniDeserializationError::KeyOfWrongType);
                        },
                    },
                    None => {
                        return Err(CniDeserializationError::MissingKey);
                    },
                };
                let cni_version = match CniVersion::parse(vs.as_str()) {
                    Ok(v) => v,
                    Err(e) => {
                        return Err(CniDeserializationError::MalformedVersion(e));
                    },
                };
                let cni_versions = match obj_get(entries, "cniVersions") {
                    None => None,
                    Some(g) => match g {
                        Json::Arr(es) => match parse_version_list(es) {
                            Ok(list) => {
                                if list.len() == 0 {
                                    return Err(CniDeserializationError::EmptyArray);
                                }
                                Some(list)
                            },
                            Err(e) => {
                                return Err(e);
                            },
                        },
                        _ => {
                            return Err(CniDeserializationError::KeyOfWrongType);
                        },
                    },
                };
                let ns = match obj_get(entries, "name") {
                    Some(g) => match g {
                        Json::Str(s) => s.clone(),
                        _ => {
                            return Err(CniDeserializationError::KeyOfWrongType);
                        },
                    },
                    None => {
                        return Err(CniDeserializationError::MissingKey);
                    },
                };
                let name = match CniName::new(ns.as_str()) {
                    Ok(v) => v,
                    Err(e) => {
                        return Err(CniDeserializationError::MalformedName(e));
                    },
                };
                let disable_check = match obj_get(entries, "disableCheck") {
                    None => false,
                    Some(g) => match g {
                        Json::Bool(b) => *b,
                        _ => {
                            return Err(CniDeserializationError::KeyOfWrongType);
                        },
                    },
                };
                let disable_gc = match obj_get(entries, "disableGC") {
                    None => false,
                    Some(g) => match g {
                        Json::Bool(b) => *b,
                        _ => {
                            return Err(CniDeserializationError::KeyOfWrongType);
                        },
                    },
                };
                let plugins = match obj_get(entries, "plugins") {
                    Some(g) => match g {
                        Json::Arr(es) => {
                            if es.len() == 0 {
                                return Err(CniDeserializationError::EmptyArray);
                            }
                            match parse_plugins(es) {
                                Ok(ps) => ps,
                                Err(e) => {
                                    return Err(e);
                                },
                            }
                        },
                        _ => {
                            return Err(CniDeserializationError::KeyOfWrongType);
                        },
                    },
                    None => {
                        return Err(CniDeserializationError::MissingKey);
                    },
                };
                Ok(
                    CniPluginList {
                        cni_version,
                        cni_versions,
                        name,
                        disable_check,
                        disable_gc,
                        plugins,
                    },
                )
            },
            _ => Err(CniDeserializationError::RootIsNotObject),
        }
    }

    /// Reads a plugin list out of JSON text.
    pub fn from_string(content: &str) -> (r: Result<CniPluginList, CniDeserializationError>)
        ensures
            match r {
                Ok(l) => json_tree_of(content@) matches Some(t) && spec_list_from_json(t) == Ok::<
                    CniPluginListV,
                    CniDeserializationError,
                >(l@),
                Err(e) => (json_tree_of(content@) matches Some(t) && spec_list_from_json(t)
                    == Err::<CniPluginListV, CniDeserializationError>(e)) || (json_tree_of(
                    content@,
                ) is None && e is SerdeError),
            },
    {
        match json_parse(content) {
            Some(j) => CniPluginList::from_json_value(&j),
            None => Err(CniDeserializationError::SerdeError),
        }
    }
}

// --- printing a plugin list -----------------------------------------------------

/// Prints every plugin of a chain; the first failing plugin fails the whole.
pub open spec fn spec_emit_plugins(ps: Seq<CniPluginV>) -> Result<
    Seq<JsonV>,
    CniSerializationError,
>
    decreases ps.len(),
{
    if ps.len() == 0 {
        Result::Ok(Seq::<JsonV>::empty())
    } else {
        match spec_emit_plugins(ps.drop_last()) {
            Result::Err(e) => Result::Err(e),
            Result::Ok(pre) => match spec_plugin_to_json(ps.last()) {
                Result::Ok(t) => Result::Ok(pre.push(t)),
                Result::Err(e) => Result::Err(e),
            },
        }
    }
}

proof fn lemma_emit_plugins_prefix_err(ps: Seq<CniPluginV>, j: int, e: CniSerializationError)
    requires
        0 <= j <= ps.len(),
        spec_emit_plugins(ps.subrange(0, j)) == Err::<Seq<JsonV>, CniSerializationError>(e),
    ensures
        spec_emit_plugins(ps) == Err::<Seq<JsonV>, CniSerializationError>(e),
    decreases ps.len() - j,
{
    if j == ps.len() {
        assert(ps.subrange(0, j) =~= ps);
    } else {
        assert(ps.subrange(0, j + 1).drop_last() =~= ps.subrange(0, j));
        lemma_emit_plugins_prefix_err(ps, j + 1, e);
    }
}

/// The printing of a plugin list: `cniVersion`, `cniVersions` when present,
/// `name`, both switches, then the plugins.
pub open spec fn spec_list_to_json(l: CniPluginListV) -> Result<JsonV, CniSerializationError> {
    match spec_emit_plugins(l.plugins) {
        Result::Err(e) => Result::Err(e),
        Result::Ok(trees) => Result::Ok(
            JsonV::Obj(
                seq![("cniVersion"@, JsonV::Str(l.cni_version))] + (match l.cni_versions {
                    Option::Some(vs) => seq![
                        ("cniVersions"@, JsonV::Arr(crate::schema::spec_emit_items(
                            vs,
                            crate::schema::emit_str(),
                        ))),
                    ],
                    Option::None => Seq::<(Seq<char>, JsonV)>::empty(),
                }) + seq![
                    ("name"@, JsonV::Str(l.name)),
                    ("disableCheck"@, JsonV::Bool(l.disable_check)),
                    ("disableGC"@, JsonV::Bool(l.disable_gc)),
                    ("plugins"@, JsonV::Arr(trees)),
                ],
            ),
        ),
    }
}

impl CniPluginList {
    /// Prints the plugin list as a JSON value.
    pub fn to_json_value(&self) -> (r: Result<Json, CniSerializationError>)
        ensures
            match r {
                Ok(j) => spec_list_to_json(self@) == Ok::<JsonV, CniSerializationError>(j@),
                Err(e) => spec_list_to_json(self@) == Err::<JsonV, CniSerializationError>(e),
            },
    {
        let ghost ps = crate::schema::spec_seq_view(self.plugins@);
        let mut trees: Vec<Json> = Vec::new();
        let n = self.plugins.len();
        let mut i: usize = 0;
        proof {
            assert(spec_elems_view(trees@) =~= Seq::<JsonV>::empty());
        }
        while i < n
            invariant
                n == self.plugins@.len(),
                0 <= i <= n,
                ps == crate::schema::spec_seq_view(self.plugins@),
                spec_emit_plugins(ps.subrange(0, i as int)) == Ok::<
                    Seq<JsonV>,
                    CniSerializationError,
                >(spec_elems_view(trees@)),
            decreases n - i,
        {
            proof {
                assert(ps.subrange(0, i + 1).drop_last() =~= ps.subrange(0, i as int));
                assert(ps.subrange(0, i + 1).last() == ps[i as int]);
            }
            match self.plugins[i].to_json_value() {
                Ok(t) => {
                    trees.push(t);
                    proof {
                        assert(spec_elems_view(trees@) =~= spec_emit_plugins(
                            ps.subrange(0, i + 1),
                        )->Ok_0);
                    }
                },
                Err(e) => {
                    proof {
                        lemma_emit_plugins_prefix_err(ps, i + 1, e);
                    }
                    return Err(e);
                },
            }
            i = i + 1;
        }
        proof {
            assert(ps.subrange(0, n as int) =~= ps);
        }
        let mut entries: Vec<(String, Json)> = Vec::new();
        entries.push(("cniVersion".to_owned(), Json::Str(self.cni_version.as_str().to_owned())));
        match &self.cni_versions {
            Some(vs) => {
                let mut arr: Vec<Json> = Vec::new();
                let m = vs.len();
                let mut w: usize = 0;
                while w < m
                    invariant
                        m == vs@.len(),
                        0 <= w <= m,
                        arr@.len() == w,
                        forall|k: int|
                            0 <= k < w ==> crate::json::json_view(#[trigger] arr@[k])
                                == JsonV::Str(vs@[k]@),
                    decreases m - w,
                {
                    arr.push(Json::Str(vs[w].as_str().to_owned()));
                    w = w + 1;
                }
                proof {
                    assert(spec_elems_view(arr@) =~= crate::schema::spec_emit_items(
                        crate::schema::spec_seq_view(vs@),
                        crate::schema::emit_str(),
                    ));
                }
                entries.push(("cniVersions".to_owned(), Json::Arr(arr)));
            },
            None => {},
        }
        entries.push(("name".to_owned(), Json::Str(self.name.as_str().to_owned())));
        entries.push(("disableCheck".to_owned(), Json::Bool(self.disable_check)));
        entries.push(("disableGC".to_owned(), Json::Bool(self.disable_gc)));
        entries.push(("plugins".to_owned(), Json::Arr(trees)));
        proof {
            assert(spec_entries_view(entries@) =~= seq![
                ("cniVersion"@, JsonV::Str(self@.cni_version)),
            ] + (match self@.cni_versions {
                Option::Some(vs) => seq![
                    ("cniVersions"@, JsonV::Arr(crate::schema::spec_emit_items(
                        vs,
                        crate::schema::emit_str(),
                    ))),
                ],
                Option::None => Seq::<(Seq<char>, JsonV)>::empty(),
            }) + seq![
                ("name"@, JsonV::Str(self@.name)),
                ("disableCheck"@, JsonV::Bool(self@.disable_check)),
                ("disableGC"@, JsonV::Bool(self@.disable_gc)),
                ("plugins"@, JsonV::Arr(spec_emit_plugins(self@.plugins)->Ok_0)),
            ]);
        }
        Ok(Json::Obj(entries))
    }

    /// Prints the plugin list as JSON text.
    pub fn to_string(&self) -> (r: Result<String, CniSerializationError>)
        ensures
            match r {
                Ok(t) => spec_list_to_json(self@) matches Ok(tree) && json_text_of(tree) == Some(
                    t@,
                ),
                Err(e) => (spec_list_to_json(self@) == Err::<JsonV, CniSerializationError>(e)) || (
                spec_list_to_json(self@) matches Ok(tree) && json_text_of(tree) is None
                    && e is SerdeError),
            },
    {
        match self.to_json_value() {
            Ok(j) => match json_emit(&j) {
                Some(t) => Ok(t),
                None => Err(CniSerializationError::SerdeError),
            },
            Err(e) => Err(e),
        }
    }
}

// --- the round-trip laws ----------------------------------------------------

proof fn lemma_walk_append_options(
    base: Seq<(Seq<char>, JsonV)>,
    st0: PluginWalk,
    opts: Seq<(Seq<char>, JsonV)>,
)
    requires
        spec_plugin_walk(base) == Ok::<PluginWalk, CniDeserializationError>(st0),
        kv_unique(opts),
        forall|i: int|
            0 <= i < opts.len() ==> (#[trigger] opts[i]).0 != "type"@ && opts[i].0 != "args"@
                && opts[i].0 != "capabilities"@,
        forall|i: int| 0 <= i < opts.len() ==> !kv_has(st0.plugin_options, (#[trigger] opts[i]).0),
    ensures
        spec_plugin_walk(base + opts) == Ok::<PluginWalk, CniDeserializationError>(
            PluginWalk { plugin_options: st0.plugin_options + opts, ..st0 },
        ),
    decreases opts.len(),
{
    if opts.len() == 0 {
        assert(base + opts =~= base);
        assert(st0.plugin_options + opts =~= st0.plugin_options);
        assert(PluginWalk { plugin_options: st0.plugin_options + opts, ..st0 } =~= st0);
    } else {
        let pre = opts.drop_last();
        let last = opts.last();
        assert(forall|i: int|
            0 <= i < pre.len() ==> (#[trigger] pre[i]).0 != "type"@ && pre[i].0 != "args"@
                && pre[i].0 != "capabilities"@) by {
            assert(forall|i: int| 0 <= i < pre.len() ==> pre[i] == #[trigger] opts[i]);
        }
        assert(kv_unique(pre)) by {
            assert(forall|i: int, j: int|
                0 <= i < j < pre.len() ==> (#[trigger] pre[i]).0 != (#[trigger] pre[j]).0);
        }
        assert(forall|i: int|
            0 <= i < pre.len() ==> !kv_has(st0.plugin_options, (#[trigger] pre[i]).0)) by {
            assert(forall|i: int| 0 <= i < pre.len() ==> pre[i] == #[trigger] opts[i]);
        }
        lemma_walk_append_options(base, st0, pre);
        let stp = PluginWalk { plugin_options: st0.plugin_options + pre, ..st0 };
        assert((base + opts).drop_last() =~= base + pre);
        assert((base + opts).last() == last);
        // The appended key is fresh among the options built so far.
        let m = st0.plugin_options + pre;
        assert(forall|j: int| 0 <= j < m.len() ==> (#[trigger] m[j]).0 != last.0) by {
            assert forall|j: int| 0 <= j < m.len() implies (#[trigger] m[j]).0 != last.0 by {
                if j < st0.plugin_options.len() {
                    assert(m[j] == st0.plugin_options[j]);
                    if st0.plugin_options[j].0 == last.0 {
                        crate::json::lemma_kv_index_has(st0.plugin_options, j);
                        assert(kv_has(st0.plugin_options, opts[opts.len() - 1].0));
                    }
                } else {
                    assert(m[j] == pre[j - st0.plugin_options.len()]);
                    assert(opts[j - st0.plugin_options.len()] == pre[j
                        - st0.plugin_options.len()]);
                }
            }
        }
        crate::json::lemma_kv_set_absent(m, last.0, last.1);
        assert(kv_set(m, last.0, last.1) =~= m.push(last));
        assert(m.push(last) =~= st0.plugin_options + opts);
        assert(spec_walk_step(stp, last) == Ok::<PluginWalk, CniDeserializationError>(
            PluginWalk { plugin_options: st0.plugin_options + opts, ..st0 },
        ));
    }
}

/// Printing a well-formed plugin and reading the result gives the plugin
/// back: the codec loses nothing.
pub proof fn lemma_plugin_round_trip(p: CniPluginV)
    requires
        spec_plugin_wf(p),
    ensures
        spec_plugin_to_json(p) matches Ok(t) && spec_plugin_from_json(t) == Ok::<
            CniPluginV,
            CniDeserializationError,
        >(p),
{
    reveal_strlit("type");
    reveal_strlit("args");
    reveal_strlit("capabilities");
    let e0 = ("type"@, JsonV::Str(p.plugin_type));
    let s1 = seq![e0];
    assert(s1.drop_last() =~= Seq::<(Seq<char>, JsonV)>::empty());
    assert(spec_plugin_walk(Seq::<(Seq<char>, JsonV)>::empty()) == Ok::<
        PluginWalk,
        CniDeserializationError,
    >(spec_walk_empty()));
    let st1 = PluginWalk {
        plugin_type: Option::Some(p.plugin_type),
        args: Option::None,
        capabilities: Option::None,
        plugin_options: Seq::<(Seq<char>, JsonV)>::empty(),
    };
    assert(spec_plugin_walk(s1) == Ok::<PluginWalk, CniDeserializationError>(st1));
    let s2 = s1 + (match p.args {
        Option::Some(a) => seq![("args"@, JsonV::Obj(a))],
        Option::None => Seq::<(Seq<char>, JsonV)>::empty(),
    });
    let st2 = PluginWalk { args: p.args, ..st1 };
    assert(spec_plugin_walk(s2) == Ok::<PluginWalk, CniDeserializationError>(st2)) by {
        match p.args {
            Option::Some(a) => {
                assert(s2.drop_last() =~= s1);
                assert(s2.last() == ("args"@, JsonV::Obj(a)));
                assert("args"@ != "type"@) by {
                    reveal_strlit("type");
                    reveal_strlit("args");
                    assert("args"@[0] == 'a' && "type"@[0] == 't');
                }
                assert(st2 =~= spec_walk_step(st1, ("args"@, JsonV::Obj(a)))->Ok_0);
            },
            Option::None => {
                assert(s2 =~= s1);
                assert(st2 =~= st1);
            },
        }
    }
    let s3 = s2 + (match p.capabilities {
        Option::Some(c) => seq![("capabilities"@, JsonV::Obj(c))],
        Option::None => Seq::<(Seq<char>, JsonV)>::empty(),
    });
    let st3 = PluginWalk { capabilities: p.capabilities, ..st2 };
    assert(spec_plugin_walk(s3) == Ok::<PluginWalk, CniDeserializationError>(st3)) by {
        match p.capabilities {
            Option::Some(c) => {
                assert(s3.drop_last() =~= s2);
                assert(s3.last() == ("capabilities"@, JsonV::Obj(c)));
                assert("capabilities"@ != "type"@ && "capabilities"@ != "args"@) by {
                    reveal_strlit("type");
                    reveal_strlit("args");
                    reveal_strlit("capabilities");
                    assert("capabilities"@.len() == 12 && "type"@.len() == 4 && "args"@.len()
                        == 4);
                }
                assert(st3 =~= spec_walk_step(st2, ("capabilities"@, JsonV::Obj(c)))->Ok_0);
            },
            Option::None => {
                assert(s3 =~= s2);
                assert(st3 =~= st2);
            },
        }
    }
    assert(forall|i: int|
        0 <= i < p.plugin_options.len() ==> (#[trigger] p.plugin_options[i]).0 != "type"@
            && p.plugin_options[i].0 != "args"@ && p.plugin_options[i].0 != "capabilities"@) by {
        assert forall|i: int| 0 <= i < p.plugin_options.len() implies (
        #[trigger] p.plugin_options[i]).0 != "type"@ && p.plugin_options[i].0 != "args"@
            && p.plugin_options[i].0 != "capabilities"@ by {
            crate::json::lemma_kv_index_has(p.plugin_options, i);
        }
    }
    lemma_walk_append_options(s3, st3, p.plugin_options);
    let ents = s3 + p.plugin_options;
    assert(spec_plugin_to_json(p) == Ok::<JsonV, CniSerializationError>(JsonV::Obj(ents))) by {
        assert(seq![("type"@, JsonV::Str(p.plugin_type))] + (match p.args {
            Option::Some(a) => seq![("args"@, JsonV::Obj(a))],
            Option::None => Seq::<(Seq<char>, JsonV)>::empty(),
        }) + (match p.capabilities {
            Option::Some(c) => seq![("capabilities"@, JsonV::Obj(c))],
            Option::None => Seq::<(Seq<char>, JsonV)>::empty(),
        }) + p.plugin_options =~= ents);
    }
    assert(Seq::<(Seq<char>, JsonV)>::empty() + p.plugin_options =~= p.plugin_options);
    assert(spec_plugin_from_json(JsonV::Obj(ents)) matches Ok(q) && q =~= p);
}

/// Printing a chain of well-formed plugins and reading the result gives the
/// chain back, element by element.
proof fn lemma_plugins_round_trip(ps: Seq<CniPluginV>)
    requires
        forall|i: int| 0 <= i < ps.len() ==> spec_plugin_wf(#[trigger] ps[i]),
    ensures
        spec_emit_plugins(ps) matches Ok(trees) && trees.len() == ps.len() && spec_parse_plugins(
            trees,
        ) == Ok::<Seq<CniPluginV>, CniDeserializationError>(ps),
    decreases ps.len(),
{
    if ps.len() == 0 {
        assert(spec_emit_plugins(ps) == Ok::<Seq<JsonV>, CniSerializationError>(
            Seq::<JsonV>::empty(),
        ));
        assert(spec_parse_plugins(Seq::<JsonV>::empty()) == Ok::<
            Seq<CniPluginV>,
            CniDeserializationError,
        >(Seq::<CniPluginV>::empty()));
        assert(Seq::<CniPluginV>::empty() =~= ps);
    } else {
        let pre = ps.drop_last();
        assert(forall|i: int| 0 <= i < pre.len() ==> spec_plugin_wf(#[trigger] pre[i])) by {
            assert(forall|i: int| 0 <= i < pre.len() ==> pre[i] == #[trigger] ps[i]);
        }
        lemma_plugins_round_trip(pre);
        lemma_plugin_round_trip(ps.last());
        let trees_pre = spec_emit_plugins(pre)->Ok_0;
        let t_last = spec_plugin_to_json(ps.last())->Ok_0;
        let trees = trees_pre.push(t_last);
        assert(spec_emit_plugins(ps) == Ok::<Seq<JsonV>, CniSerializationError>(trees));
        assert(trees.drop_last() =~= trees_pre);
        assert(trees.last() == t_last);
        assert(spec_parse_plugins(trees) == Ok::<Seq<CniPluginV>, CniDeserializationError>(
            pre.push(ps.last()),
        ));
        assert(pre.push(ps.last()) =~= ps);
    }
}

/// Printing a list of valid versions and reading the result gives the list
/// back.
proof fn lemma_versions_round_trip(vs: Seq<Seq<char>>)
    requires
        forall|i: int| 0 <= i < vs.len() ==> crate::types::spec_valid_version(#[trigger] vs[i]),
    ensures
        spec_parse_version_list(crate::schema::spec_emit_items(vs, crate::schema::emit_str()))
            == Ok::<Seq<Seq<char>>, CniDeserializationError>(vs),
    decreases vs.len(),
{
    let es = crate::schema::spec_emit_items(vs, crate::schema::emit_str());
    assert(es.len() == vs.len());
    if vs.len() == 0 {
        assert(spec_parse_version_list(es) == Ok::<Seq<Seq<char>>, CniDeserializationError>(
            Seq::<Seq<char>>::empty(),
        ));
        assert(Seq::<Seq<char>>::empty() =~= vs);
    } else {
        let pre = vs.drop_last();
        assert(forall|i: int|
            0 <= i < pre.len() ==> crate::types::spec_valid_version(#[trigger] pre[i])) by {
            assert(forall|i: int| 0 <= i < pre.len() ==> pre[i] == #[trigger] vs[i]);
        }
        lemma_versions_round_trip(pre);
        assert(es.drop_last() =~= crate::schema::spec_emit_items(
            pre,
            crate::schema::emit_str(),
        ));
        assert(es.last() == JsonV::Str(vs.last()));
        crate::types::lemma_valid_version_parses(vs.last());
        assert(spec_parse_version_list(es) == Ok::<Seq<Seq<char>>, CniDeserializationError>(
            pre.push(vs.last()),
        ));
        assert(pre.push(vs.last()) =~= vs);
    }
}

/// A plugin list that could have come out of the reader: its version texts
/// canonical, its name valid, its chain non-empty, its plugins' options
/// clear of the routed keys.
pub open spec fn spec_list_wf(l: CniPluginListV) -> bool {
    &&& crate::types::spec_valid_version(l.cni_version)
    &&& match l.cni_versions {
        Option::Some(vs) => vs.len() > 0 && (forall|i: int|
            0 <= i < vs.len() ==> crate::types::spec_valid_version(#[trigger] vs[i])),
        Option::None => true,
    }
    &&& spec_name_check(l.name) is None
    &&& l.plugins.len() > 0
    &&& forall|i: int| 0 <= i < l.plugins.len() ==> spec_plugin_wf(#[trigger] l.plugins[i])
}

/// Printing a well-formed plugin list and reading the result gives the list
/// back: the codec round-trips.
pub proof fn lemma_list_round_trip(l: CniPluginListV)
    requires
        spec_list_wf(l),
    ensures
        spec_list_to_json(l) matches Ok(t) && spec_list_from_json(t) == Ok::<
            CniPluginListV,
            CniDeserializationError,
        >(l),
{
    reveal_strlit("cniVersion");
    reveal_strlit("cniVersions");
    reveal_strlit("name");
    reveal_strlit("disableCheck");
    reveal_strlit("disableGC");
    reveal_strlit("plugins");
    lemma_plugins_round_trip(l.plugins);
    let trees = spec_emit_plugins(l.plugins)->Ok_0;
    let verse = match l.cni_versions {
        Option::Some(vs) => seq![
            ("cniVersions"@, JsonV::Arr(crate::schema::spec_emit_items(
                vs,
                crate::schema::emit_str(),
            ))),
        ],
        Option::None => Seq::<(Seq<char>, JsonV)>::empty(),
    };
    let ents = seq![("cniVersion"@, JsonV::Str(l.cni_version))] + verse + seq![
        ("name"@, JsonV::Str(l.name)),
        ("disableCheck"@, JsonV::Bool(l.disable_check)),
        ("disableGC"@, JsonV::Bool(l.disable_gc)),
        ("plugins"@, JsonV::Arr(trees)),
    ];
    assert(spec_list_to_json(l) == Ok::<JsonV, CniSerializationError>(JsonV::Obj(ents)));
    let off: int = if l.cni_versions is Some {
        1
    } else {
        0
    };
    assert(ents.len() == 5 + off);
    assert(ents[0] == ("cniVersion"@, JsonV::Str(l.cni_version)));
    assert(ents[1 + off] == ("name"@, JsonV::Str(l.name)));
    assert(ents[2 + off] == ("disableCheck"@, JsonV::Bool(l.disable_check)));
    assert(ents[3 + off] == ("disableGC"@, JsonV::Bool(l.disable_gc)));
    assert(ents[4 + off] == ("plugins"@, JsonV::Arr(trees)));
    match l.cni_versions {
        Option::Some(vs) => {
            assert(ents[1] == ("cniVersions"@, JsonV::Arr(crate::schema::spec_emit_items(
                vs,
                crate::schema::emit_str(),
            ))));
        },
        Option::None => {},
    }
    assert("cniVersion"@.len() == 10 && "cniVersions"@.len() == 11 && "name"@.len() == 4
        && "disableCheck"@.len() == 12 && "disableGC"@.len() == 9 && "plugins"@.len() == 7);
    assert(forall|j: int| 0 <= j < ents.len() ==> ((#[trigger] ents[j]).0 == "cniVersion"@ ==> j
        == 0) && (ents[j].0 == "cniVersions"@ ==> off == 1 && j == 1) && (ents[j].0 == "name"@
        ==> j == 1 + off) && (ents[j].0 == "disableCheck"@ ==> j == 2 + off) && (ents[j].0
        == "disableGC"@ ==> j == 3 + off) && (ents[j].0 == "plugins"@ ==> j == 4 + off));
    crate::json::lemma_kv_get_at(ents, "cniVersion"@, 0);
    crate::json::lemma_kv_get_at(ents, "name"@, 1 + off);
    crate::json::lemma_kv_get_at(ents, "disableCheck"@, 2 + off);
    crate::json::lemma_kv_get_at(ents, "disableGC"@, 3 + off);
    crate::json::lemma_kv_get_at(ents, "plugins"@, 4 + off);
    crate::types::lemma_valid_version_parses(l.cni_version);
    match l.cni_versions {
        Option::Some(vs) => {
            crate::json::lemma_kv_get_at(ents, "cniVersions"@, 1);
            lemma_versions_round_trip(vs);
        },
        Option::None => {
            crate::json::lemma_kv_get_absent(ents, "cniVersions"@);
        },
    }
    assert(trees.len() > 0);
    assert(spec_list_from_json(JsonV::Obj(ents)) matches Ok(q) && q =~= l);
}

/// Reading a plugin list leaves it well formed: what the reader accepts,
/// the printer can print.
pub proof fn lemma_list_parse_wf(j: JsonV, l: CniPluginListV)
    requires
        spec_list_from_json(j) == Ok::<CniPluginListV, CniDeserializationError>(l),
    ensures
        spec_list_wf(l),
{
    let m = j->Obj_0;
    crate::types::lemma_version_parse_valid(spec_list_str_part(m, "cniVersion"@)->Ok_0);
    match kv_get(m, "cniVersions"@) {
        Option::Some(JsonV::Arr(es)) => {
            lemma_parse_version_list_valid(es);
        },
        _ => {},
    }
    match kv_get(m, "plugins"@) {
        Option::Some(JsonV::Arr(es)) => {
            lemma_parse_plugins_wf(es);
        },
        _ => {},
    }
}

proof fn lemma_parse_version_list_valid(es: Seq<JsonV>)
    ensures
        spec_parse_version_list(es) matches Ok(list) ==> forall|i: int|
            0 <= i < list.len() ==> crate::types::spec_valid_version(#[trigger] list[i]),
    decreases es.len(),
{
    if es.len() > 0 {
        lemma_parse_version_list_valid(es.drop_last());
        match es.last() {
            JsonV::Str(s) => {
                crate::types::lemma_version_parse_valid(s);
            },
            _ => {},
        }
    }
}

proof fn lemma_parse_plugins_wf(es: Seq<JsonV>)
    ensures
        spec_parse_plugins(es) matches Ok(ps) ==> ps.len() == es.len() && (forall|i: int|
            0 <= i < ps.len() ==> spec_plugin_wf(#[trigger] ps[i])),
    decreases es.len(),
{
    if es.len() > 0 {
        lemma_parse_plugins_wf(es.drop_last());
        match spec_parse_plugins(es) {
            Result::Ok(_) => {
                match spec_plugin_from_json(es.last()) {
                    Result::Ok(p) => {
                        lemma_plugin_options_reserved(es.last(), p);
                    },
                    Result::Err(_) => {},
                }
            },
            Result::Err(_) => {},
        }
    }
}

/// The round trip from text-side: whatever tree a plugin-list reads from,
/// printing the list gives a tree that reads back to the very same list.
pub proof fn lemma_list_print_after_parse(j: JsonV, l: CniPluginListV)
    requires
        spec_list_from_json(j) == Ok::<CniPluginListV, CniDeserializationError>(l),
    ensures
        spec_list_to_json(l) matches Ok(t) && spec_list_from_json(t) == Ok::<
            CniPluginListV,
            CniDeserializationError,
        >(l),
{
    lemma_list_parse_wf(j, l);
    lemma_list_round_trip(l);
}

impl CniPlugin {
    /// Prints the plugin as JSON text.
    pub fn to_string(&self) -> (r: Result<String, CniSerializationError>)
        ensures
            match r {
                Ok(t) => spec_plugin_to_json(self@) matches Ok(tree) && json_text_of(tree)
                    == Some(t@),
                Err(e) => (spec_plugin_to_json(self@) == Err::<JsonV, CniSerializationError>(e))
                    || (spec_plugin_to_json(self@) matches Ok(tree) && json_text_of(tree) is None
                    && e is SerdeError),
            },
    {
        match self.to_json_value() {
            Ok(j) => match json_emit(&j) {
                Some(t) => Ok(t),
                None => Err(CniSerializationError::SerdeError),
            },
            Err(e) => Err(e),
        }
    }
}

} // verus!
