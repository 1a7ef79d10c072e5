//! The invocation engine: derives each plugin's environment and stdin
//! document, walks a plugin list forward — or backward for teardown —
//! classifies every output, and accumulates the rolling result. The locator
//! and invoker are outside collaborators; everything the engine decides
//! about their answers is stated and proved.

use vstd::prelude::*;

use crate::invocation::CniInvocationArguments;
use crate::invocation::CniInvocationArgumentsV;
use crate::invocation::CniInvocationError;
use crate::invocation::CniInvocationErrorV;
use crate::invocation::CniInvocationResult;
use crate::invocation::CniInvocationResultV;
use crate::invocation::CniInvocationTarget;
use crate::invocation::CniInvocationTargetV;
use crate::invocation::CniInvoker;
use crate::invocation::CniLocator;
use crate::invocation::spec_env_view;
use crate::invocation::spec_vo_set;
use crate::json::Json;
use crate::json::JsonV;
use crate::json::json_emit;
use crate::json::json_parse;
use crate::json::json_text_of;
use crate::json::json_tree_of;
use crate::json::kv_set;
use crate::json::obj_set;
use crate::json::clone_entries;
use crate::json::spec_elems_view;
use crate::plugins::CniPlugin;
use crate::plugins::CniPluginV;
use crate::schema::CniAttachment;
use crate::schema::CniAttachmentV;
use crate::schema::CniError;
use crate::schema::CniErrorV;
use crate::schema::CniValidAttachmentV;
use crate::schema::CniVersionObject;
use crate::schema::CniVersionObjectV;
use crate::schema::spec_attachment_from_json;
use crate::schema::spec_attachment_to_json;
use crate::schema::spec_emit_items;
use crate::schema::spec_error_from_json;
use crate::schema::spec_seq_view;
use crate::schema::spec_valid_attachment_to_json;
use crate::schema::spec_version_object_from_json;
use crate::strutil::is_blank;
use crate::strutil::spec_is_blank;
use crate::strutil::string_push;
use crate::types::CniOperation;
use crate::types::spec_operation_token;

verus! {

// --- the environment ---------------------------------------------------------

/// Path elements joined by `:`, in order.
pub open spec fn spec_join_colon(parts: Seq<Seq<char>>) -> Seq<char>
    decreases parts.len(),
{
    if parts.len() == 0 {
        Seq::<char>::empty()
    } else if parts.len() == 1 {
        parts[0]
    } else {
        spec_join_colon(parts.drop_last()) + seq![':'] + parts.last()
    }
}

fn join_colon(parts: &Vec<String>) -> (r: String)
    ensures
        r@ == spec_join_colon(spec_seq_view(parts@)),
{
    let ghost m = spec_seq_view(parts@);
    let mut out = String::new();
    let n = parts.len();
    if n == 0 {
        return out;
    }
    out.append(parts[0].as_str());
    proof {
        assert(m.subrange(0, 1).len() == 1);
        assert(m.subrange(0, 1)[0] == m[0]);
        assert(out@ == spec_join_colon(m.subrange(0, 1)));
    }
    let mut i: usize = 1;
    while i < n
        invariant
            n == parts@.len(),
            1 <= i <= n,
            m == spec_seq_view(parts@),
            out@ == spec_join_colon(m.subrange(0, i as int)),
        decreases n - i,
    {
        proof {
            assert(m.subrange(0, i + 1).drop_last() =~= m.subrange(0, i as int));
            assert(m.subrange(0, i + 1).last() == m[i as int]);
        }
        string_push(&mut out, ':');
        out.append(parts[i].as_str());
        proof {
            assert(out@ =~= spec_join_colon(m.subrange(0, i + 1)));
        }
        i = i + 1;
    }
    proof {
        assert(m.subrange(0, n as int) =~= m);
    }
    out
}

/// An environment entry for an optional argument: present only when the
/// argument is.
pub open spec fn spec_opt_env_entry(k: Seq<char>, o: Option<Seq<char>>) -> Seq<
    (Seq<char>, Seq<char>),
> {
    match o {
        Option::Some(s) => seq![(k, s)],
        Option::None => Seq::<(Seq<char>, Seq<char>)>::empty(),
    }
}

/// The environment of one plugin invocation: `CNI_COMMAND` always, then one
/// entry per present argument, and `CNI_PATH` only for a non-empty path
/// list.
pub open spec fn spec_derive_environment(op: CniOperation, a: CniInvocationArgumentsV) -> Seq<
    (Seq<char>, Seq<char>),
> {
    seq![("CNI_COMMAND"@, spec_operation_token(op))] + spec_opt_env_entry(
        "CNI_CONTAINERID"@,
        a.container_id,
    ) + spec_opt_env_entry("CNI_NETNS"@, a.net_ns) + spec_opt_env_entry(
        "CNI_IFNAME"@,
        a.interface_name,
    ) + (match a.paths {
        Option::Some(p) => if p.len() > 0 {
            seq![("CNI_PATH"@, spec_join_colon(p))]
        } else {
            Seq::<(Seq<char>, Seq<char>)>::empty()
        },
        Option::None => Seq::<(Seq<char>, Seq<char>)>::empty(),
    })
}

/// Builds the environment of one plugin invocation.
pub fn derive_environment(operation: CniOperation, arguments: &CniInvocationArguments) -> (r: Vec<
    (String, String),
>)
    ensures
        spec_env_view(r@) == spec_derive_environment(operation, arguments@),
{
    let mut env: Vec<(String, String)> = Vec::new();
    env.push(("CNI_COMMAND".to_owned(), operation.as_str().to_owned()));
    match &arguments.container_id {
        Some(c) => {
            env.push(("CNI_CONTAINERID".to_owned(), c.as_str().to_owned()));
        },
        None => {},
    }
    match &arguments.net_ns {
        Some(s) => {
            env.push(("CNI_NETNS".to_owned(), s.clone()));
        },
        None => {},
    }
    match &arguments.interface_name {
        Some(f) => {
            env.push(("CNI_IFNAME".to_owned(), f.as_str().to_owned()));
        },
        None => {},
    }
    match &arguments.paths {
        Some(p) => {
            if p.len() > 0 {
                let joined = join_colon(p);
                env.push(("CNI_PATH".to_owned(), joined));
            }
        },
        None => {},
    }
    proof {
        assert(spec_env_view(env@) =~= spec_derive_environment(operation, arguments@));
    }
    env
}

/// `CNI_COMMAND` is always set; each `CNI_*` variable is set exactly when
/// its argument is present, and an empty path list sets no `CNI_PATH`.
pub proof fn lemma_environment_exactness(op: CniOperation, a: CniInvocationArgumentsV)
    ensures
        ({
            let env = spec_derive_environment(op, a);
            &&& env.len() >= 1 && env[0] == ("CNI_COMMAND"@, spec_operation_token(op))
            &&& (a.container_id is None ==> forall|i: int|
                0 <= i < env.len() ==> (#[trigger] env[i]).0 != "CNI_CONTAINERID"@)
            &&& (a.container_id matches Some(c) ==> exists|i: int|
                0 <= i < env.len() && #[trigger] env[i] == ("CNI_CONTAINERID"@, c))
            &&& (a.net_ns is None ==> forall|i: int|
                0 <= i < env.len() ==> (#[trigger] env[i]).0 != "CNI_NETNS"@)
            &&& (a.net_ns matches Some(s) ==> exists|i: int|
                0 <= i < env.len() && #[trigger] env[i] == ("CNI_NETNS"@, s))
            &&& (a.interface_name is None ==> forall|i: int|
                0 <= i < env.len() ==> (#[trigger] env[i]).0 != "CNI_IFNAME"@)
            &&& (a.interface_name matches Some(s) ==> exists|i: int|
                0 <= i < env.len() && #[trigger] env[i] == ("CNI_IFNAME"@, s))
            &&& ((a.paths is None || (a.paths matches Some(p) && p.len() == 0)) ==> forall|i: int|
                0 <= i < env.len() ==> (#[trigger] env[i]).0 != "CNI_PATH"@)
            &&& (a.paths matches Some(p) ==> (p.len() > 0 ==> exists|i: int|
                0 <= i < env.len() && #[trigger] env[i] == ("CNI_PATH"@, spec_join_colon(p))))
        }),
{
    reveal_strlit("CNI_COMMAND");
    reveal_strlit("CNI_CONTAINERID");
    reveal_strlit("CNI_NETNS");
    reveal_strlit("CNI_IFNAME");
    reveal_strlit("CNI_PATH");
    assert("CNI_COMMAND"@.len() == 11 && "CNI_CONTAINERID"@.len() == 15 && "CNI_NETNS"@.len() == 9
        && "CNI_IFNAME"@.len() == 10 && "CNI_PATH"@.len() == 8);
    let env = spec_derive_environment(op, a);
    let cid: int = if a.container_id is Some {
        1
    } else {
        0
    };
    let nns: int = if a.net_ns is Some {
        1
    } else {
        0
    };
    let ifn: int = if a.interface_name is Some {
        1
    } else {
        0
    };
    if a.container_id is Some {
        assert(env[1] == ("CNI_CONTAINERID"@, a.container_id->0));
    }
    if a.net_ns is Some {
        assert(env[1 + cid] == ("CNI_NETNS"@, a.net_ns->0));
    }
    if a.interface_name is Some {
        assert(env[1 + cid + nns] == ("CNI_IFNAME"@, a.interface_name->0));
    }
    match a.paths {
        Option::Some(p) => {
            if p.len() > 0 {
                assert(env[1 + cid + nns + ifn] == ("CNI_PATH"@, spec_join_colon(p)));
            }
        },
        Option::None => {},
    }
}

// --- the stdin document -------------------------------------------------------

/// The network name a target supplies.
pub open spec fn spec_target_name(t: CniInvocationTargetV) -> Seq<char> {
    match t {
        CniInvocationTargetV::Plugin { name, .. } => name,
        CniInvocationTargetV::PluginList(l) => l.name,
    }
}

/// The version a target supplies.
pub open spec fn spec_target_version(t: CniInvocationTargetV) -> Seq<char> {
    match t {
        CniInvocationTargetV::Plugin { cni_version, .. } => cni_version,
        CniInvocationTargetV::PluginList(l) => l.cni_version,
    }
}

/// The version that goes into the document: the caller's override when set,
/// else the target's.
pub open spec fn spec_stdin_version(t: CniInvocationTargetV, a: CniInvocationArgumentsV) -> Seq<
    char,
> {
    match a.cni_version {
        Option::Some(v) => v,
        Option::None => spec_target_version(t),
    }
}

/// The printing of one valid attachment.
pub open spec fn emit_valid_attachment() -> spec_fn(CniValidAttachmentV) -> JsonV {
    |v: CniValidAttachmentV| spec_valid_attachment_to_json(v)
}

/// The stdin document of one plugin invocation: the plugin's options, then
/// `type`, `name` and `cniVersion` written over them, the capabilities as
/// `runtimeConfig` and the args when present, the previous attachment as
/// `prevResult` when one exists, and the valid attachments under their
/// verbatim `cni.dev/valid-attachments` key.
pub open spec fn spec_stdin_tree(
    plugin: CniPluginV,
    a: CniInvocationArgumentsV,
    t: CniInvocationTargetV,
    prev: Option<CniAttachmentV>,
) -> JsonV {
    let m1 = kv_set(plugin.plugin_options, "type"@, JsonV::Str(plugin.plugin_type));
    let m2 = kv_set(m1, "name"@, JsonV::Str(spec_target_name(t)));
    let m3 = kv_set(m2, "cniVersion"@, JsonV::Str(spec_stdin_version(t, a)));
    let m4 = match plugin.capabilities {
        Option::Some(c) => kv_set(m3, "runtimeConfig"@, JsonV::Obj(c)),
        Option::None => m3,
    };
    let m5 = match plugin.args {
        Option::Some(x) => kv_set(m4, "args"@, JsonV::Obj(x)),
        Option::None => m4,
    };
    let m6 = match prev {
        Option::Some(att) => kv_set(m5, "prevResult"@, spec_attachment_to_json(att)),
        Option::None => m5,
    };
    let m7 = match a.valid_attachments {
        Option::Some(vs) => kv_set(
            m6,
            "cni.dev/valid-attachments"@,
            JsonV::Arr(spec_emit_items(vs, emit_valid_attachment())),
        ),
        Option::None => m6,
    };
    JsonV::Obj(m7)
}

/// The attachment that threads into the document: the caller's seed when
/// set, else the rolling result's.
pub open spec fn spec_prev_attachment(
    a: CniInvocationArgumentsV,
    res: CniInvocationResultV,
) -> Option<CniAttachmentV> {
    match a.attachment {
        Option::Some(x) => Option::Some(x),
        Option::None => res.attachment,
    }
}

/// Builds and prints the stdin document of one plugin invocation. The only
/// failure is the printing itself.
pub fn derive_stdin(
    plugin: &CniPlugin,
    arguments: &CniInvocationArguments,
    target: &CniInvocationTarget,
    prev: Option<&CniAttachment>,
) -> (r: Result<String, CniInvocationError>)
    ensures
        ({
            let tree = spec_stdin_tree(
                plugin@,
                arguments@,
                target@,
                match prev {
                    Option::Some(att) => Option::Some(att@),
                    Option::None => Option::None,
                },
            );
            match r {
                Ok(s) => json_text_of(tree) == Some(s@),
                Err(e) => json_text_of(tree) is None && e@
                    == CniInvocationErrorV::JsonOperationFailed,
            }
        }),
{
    let mut entries = clone_entries(&plugin.plugin_options);
    obj_set(&mut entries, "type".to_owned(), Json::Str(plugin.plugin_type.clone()));
    let network_name = match target {
        CniInvocationTarget::Plugin { name, .. } => name.as_str().to_owned(),
        CniInvocationTarget::PluginList(l) => l.name.as_str().to_owned(),
    };
    obj_set(&mut entries, "name".to_owned(), Json::Str(network_name));
    let version_text = match &arguments.cni_version {
        Some(v) => v.as_str().to_owned(),
        None => match target {
            CniInvocationTarget::Plugin { cni_version, .. } => cni_version.as_str().to_owned(),
            CniInvocationTarget::PluginList(l) => l.cni_version.as_str().to_owned(),
        },
    };
    obj_set(&mut entries, "cniVersion".to_owned(), Json::Str(version_text));
    match &plugin.capabilities {
        Some(c) => {
            obj_set(&mut entries, "runtimeConfig".to_owned(), Json::Obj(clone_entries(c)));
        },
        None => {},
    }
    match &plugin.args {
        Some(x) => {
            obj_set(&mut entries, "args".to_owned(), Json::Obj(clone_entries(x)));
        },
        None => {},
    }
    match prev {
        Some(att) => {
            obj_set(&mut entries, "prevResult".to_owned(), att.to_json());
        },
        None => {},
    }
    match &arguments.valid_attachments {
        Some(vs) => {
            let mut arr: Vec<Json> = Vec::new();
            let n = vs.len();
            let mut i: usize = 0;
            while i < n
                invariant
                    n == vs@.len(),
                    0 <= i <= n,
                    arr@.len() == i,
                    forall|k: int|
                        0 <= k < i ==> crate::json::json_view(#[trigger] arr@[k])
                            == spec_valid_attachment_to_json(vs@[k]@),
                decreases n - i,
            {
                arr.push(vs[i].to_json());
                i = i + 1;
            }
            proof {
                assert(spec_elems_view(arr@) =~= spec_emit_items(
                    spec_seq_view(vs@),
                    emit_valid_attachment(),
                ));
            }
            obj_set(&mut entries, "cni.dev/valid-attachments".to_owned(), Json::Arr(arr));
        },
        None => {},
    }
    let tree = Json::Obj(entries);
    match json_emit(&tree) {
        Some(s) => Ok(s),
        None => Err(CniInvocationError::JsonOperationFailed),
    }
}

// --- classifying plugin output -------------------------------------------------

/// What one plugin output turned out to be.
#[verifier::ext_equal]
pub enum ClassifiedV {
    Attachment(CniAttachmentV),
    Version(CniVersionObjectV),
    PluginError(CniErrorV),
    Silent,
    Unrecognizable,
}

/// The classification of one output text: blank is silent success;
/// otherwise the text must parse as JSON, and the attachment shape is tried
/// before the version object, the version object before the plugin error;
/// anything else is unrecognizable.
pub open spec fn spec_classify(out: Seq<char>) -> ClassifiedV {
    if spec_is_blank(out) {
        ClassifiedV::Silent
    } else {
        match json_tree_of(out) {
            Option::Some(t) => match spec_attachment_from_json(t) {
                Option::Some(a) => ClassifiedV::Attachment(a),
                Option::None => match spec_version_object_from_json(t) {
                    Option::Some(v) => ClassifiedV::Version(v),
                    Option::None => match spec_error_from_json(t) {
                        Option::Some(e) => ClassifiedV::PluginError(e),
                        Option::None => ClassifiedV::Unrecognizable,
                    },
                },
            },
            Option::None => ClassifiedV::Unrecognizable,
        }
    }
}

/// How one classified output changes the rolling result: an attachment
/// replaces the attachment, a version object is recorded under the plugin
/// type, a plugin error or unrecognizable text aborts, silence changes
/// nothing.
pub open spec fn spec_absorb(
    res: CniInvocationResultV,
    ptype: Seq<char>,
    out: Seq<char>,
) -> Result<CniInvocationResultV, CniInvocationErrorV> {
    match spec_classify(out) {
        ClassifiedV::Attachment(a) => Result::Ok(
            CniInvocationResultV { attachment: Option::Some(a), ..res },
        ),
        ClassifiedV::Version(v) => Result::Ok(
            CniInvocationResultV { version_objects: spec_vo_set(res.version_objects, ptype, v), ..res },
        ),
        ClassifiedV::PluginError(e) => Result::Err(CniInvocationErrorV::PluginProducedError(e)),
        ClassifiedV::Silent => Result::Ok(res),
        ClassifiedV::Unrecognizable => Result::Err(
            CniInvocationErrorV::PluginProducedUnrecognizableOutput(out),
        ),
    }
}

/// Classifies one plugin's output and folds it into the rolling result;
/// on an abort the result is untouched.
pub fn add_to_invocation_output(
    cni_output: &str,
    plugin_type: &str,
    invocation_output: &mut CniInvocationResult,
) -> (r: Result<(), CniInvocationError>)
    ensures
        match r {
            Ok(_) => spec_absorb(old(invocation_output)@, plugin_type@, cni_output@) == Ok::<
                CniInvocationResultV,
                CniInvocationErrorV,
            >(final(invocation_output)@),
            Err(e) => spec_absorb(old(invocation_output)@, plugin_type@, cni_output@) == Err::<
                CniInvocationResultV,
                CniInvocationErrorV,
            >(e@) && final(invocation_output)@ == old(invocation_output)@,
        },
{
    if is_blank(cni_output) {
        return Ok(());
    }
    match json_parse(cni_output) {
        Some(j) => {
            match CniAttachment::from_json(&j) {
                Some(a) => {
                    invocation_output.attachment = Some(a);
                    return Ok(());
                },
                None => {},
            }
            match CniVersionObject::from_json(&j) {
                Some(v) => {
                    invocation_output.record_version_object(plugin_type.to_owned(), v);
                    return Ok(());
                },
                None => {},
            }
            match CniError::from_json(&j) {
                Some(e) => {
                    return Err(CniInvocationError::PluginProducedError(e));
                },
                None => {},
            }
            Err(CniInvocationError::PluginProducedUnrecognizableOutput(cni_output.to_owned()))
        },
        None => Err(CniInvocationError::PluginProducedUnrecognizableOutput(cni_output.to_owned())),
    }
}

/// Blank output is silent success: the rolling result is returned
/// unchanged, and no error arises.
pub proof fn lemma_blank_output_is_silent(
    res: CniInvocationResultV,
    ptype: Seq<char>,
    out: Seq<char>,
)
    requires
        spec_is_blank(out),
    ensures
        spec_absorb(res, ptype, out) == Ok::<CniInvocationResultV, CniInvocationErrorV>(res),
{
}

/// An object without `interfaces`, `ips`, `routes` or `dns` never reads as
/// an attachment, whatever else it holds.
pub proof fn lemma_version_shape_not_attachment(t: JsonV)
    requires
        t matches JsonV::Obj(m) && !crate::json::kv_has(m, "interfaces"@) && !crate::json::kv_has(
            m,
            "ips"@,
        ) && !crate::json::kv_has(m, "routes"@) && !crate::json::kv_has(m, "dns"@),
    ensures
        spec_attachment_from_json(t) is None,
{
}

/// An output whose tree has `supportedVersions` but none of the attachment
/// keys classifies as a version object, never as an attachment.
pub proof fn lemma_version_object_classification(out: Seq<char>, t: JsonV)
    requires
        !spec_is_blank(out),
        json_tree_of(out) == Some(t),
        t matches JsonV::Obj(m) && !crate::json::kv_has(m, "interfaces"@) && !crate::json::kv_has(
            m,
            "ips"@,
        ) && !crate::json::kv_has(m, "routes"@) && !crate::json::kv_has(m, "dns"@),
        spec_version_object_from_json(t) is Some,
    ensures
        spec_classify(out) == ClassifiedV::Version(spec_version_object_from_json(t)->Some_0),
{
    lemma_version_shape_not_attachment(t);
}

/// An output whose tree reads as a plugin error — and not as an attachment
/// or version object — aborts the walk with exactly that error.
pub proof fn lemma_error_output_aborts(
    res: CniInvocationResultV,
    ptype: Seq<char>,
    out: Seq<char>,
    t: JsonV,
)
    requires
        !spec_is_blank(out),
        json_tree_of(out) == Some(t),
        spec_attachment_from_json(t) is None,
        spec_version_object_from_json(t) is None,
        spec_error_from_json(t) is Some,
    ensures
        spec_absorb(res, ptype, out) == Err::<CniInvocationResultV, CniInvocationErrorV>(
            CniInvocationErrorV::PluginProducedError(spec_error_from_json(t)->Some_0),
        ),
{
}

// --- the chain walk -------------------------------------------------------------

/// The order a list of the given length is walked in: reversed for
/// teardown, declared order for everything else.
pub open spec fn spec_walk_order(op: CniOperation, n: nat) -> Seq<int> {
    if op is Delete {
        Seq::new(n, |i: int| n - 1 - i)
    } else {
        Seq::new(n, |i: int| i)
    }
}

/// Teardown unwinds in exactly the reverse of setup order: the `DEL` walk
/// is the reversed `ADD` walk, for a list of any length.
pub proof fn lemma_delete_walks_in_reverse(n: nat)
    ensures
        spec_walk_order(CniOperation::Delete, n) == spec_walk_order(CniOperation::Add, n).reverse(),
{
    assert(spec_walk_order(CniOperation::Delete, n) =~= spec_walk_order(
        CniOperation::Add,
        n,
    ).reverse());
}

/// The plugin types an invocation touches, in walk order.
pub open spec fn spec_walk_types(t: CniInvocationTargetV, op: CniOperation) -> Seq<Seq<char>> {
    match t {
        CniInvocationTargetV::Plugin { plugin, .. } => seq![plugin.plugin_type],
        CniInvocationTargetV::PluginList(l) => Seq::new(
            l.plugins.len(),
            |i: int| l.plugins[spec_walk_order(op, l.plugins.len())[i]].plugin_type,
        ),
    }
}

/// The rolling result a walk started from.
pub open spec fn spec_empty_result() -> CniInvocationResultV {
    CniInvocationResultV {
        attachment: Option::None,
        version_objects: Seq::<(Seq<char>, CniVersionObjectV)>::empty(),
    }
}

/// Folds a sequence of per-plugin outputs into the rolling result, one
/// plugin type and one output per step, in order.
pub open spec fn spec_fold_outputs(
    res: CniInvocationResultV,
    types: Seq<Seq<char>>,
    outs: Seq<Seq<char>>,
) -> Result<CniInvocationResultV, CniInvocationErrorV>
    decreases types.len(),
{
    if types.len() == 0 {
        Result::Ok(res)
    } else {
        match spec_fold_outputs(res, types.drop_last(), outs.drop_last()) {
            Result::Err(e) => Result::Err(e),
            Result::Ok(r) => spec_absorb(r, types.last(), outs.last()),
        }
    }
}

/// The attachment standing after a sequence of outputs: that of the last
/// output classifying as an attachment, else whatever stood before.
pub open spec fn spec_last_attachment(
    res0: Option<CniAttachmentV>,
    outs: Seq<Seq<char>>,
) -> Option<CniAttachmentV>
    decreases outs.len(),
{
    if outs.len() == 0 {
        res0
    } else {
        match spec_classify(outs.last()) {
            ClassifiedV::Attachment(a) => Option::Some(a),
            _ => spec_last_attachment(res0, outs.drop_last()),
        }
    }
}

/// After a successful walk at most one attachment stands: the one of the
/// last plugin that produced an attachment, or the seed if none did.
pub proof fn lemma_walk_keeps_last_attachment(
    res: CniInvocationResultV,
    types: Seq<Seq<char>>,
    outs: Seq<Seq<char>>,
)
    requires
        types.len() == outs.len(),
    ensures
        spec_fold_outputs(res, types, outs) matches Ok(rf) ==> rf.attachment
            == spec_last_attachment(res.attachment, outs),
    decreases types.len(),
{
    if types.len() > 0 {
        lemma_walk_keeps_last_attachment(res, types.drop_last(), outs.drop_last());
    }
}

fn invoke_plugin<I: CniInvoker, L: CniLocator>(
    operation: CniOperation,
    plugin: &CniPlugin,
    invocation_arguments: &CniInvocationArguments,
    invocation_target: &CniInvocationTarget,
    invocation_output: &mut CniInvocationResult,
    invoker: &I,
    locator: &L,
) -> (r: Result<(), CniInvocationError>)
    ensures
        match r {
            Ok(_) => exists|out: Seq<char>|
                spec_absorb(old(invocation_output)@, plugin@.plugin_type, out) == Ok::<
                    CniInvocationResultV,
                    CniInvocationErrorV,
                >(final(invocation_output)@),
            Err(_) => final(invocation_output)@ == old(invocation_output)@,
        },
{
    let location = match locator.locate(plugin.plugin_type.as_str()) {
        Some(l) => l,
        None => {
            return Err(CniInvocationError::PluginNotFoundByLocator);
        },
    };
    let environment = derive_environment(operation, invocation_arguments);
    let prev: Option<&CniAttachment> = match &invocation_arguments.attachment {
        Some(a) => Some(a),
        None => match &invocation_output.attachment {
            Some(a) => Some(a),
            None => None,
        },
    };
    let stdin = match derive_stdin(plugin, invocation_arguments, invocation_target, prev) {
        Ok(s) => s,
        Err(e) => {
            return Err(e);
        },
    };
    let cni_output = match invoker.invoke(location.as_str(), &environment, stdin.as_str()) {
        Ok(o) => o,
        Err(e) => {
            return Err(CniInvocationError::InvokerFailed(e));
        },
    };
    let ghost pre = invocation_output@;
    match add_to_invocation_output(cni_output.as_str(), plugin.plugin_type.as_str(),
        invocation_output) {
        Ok(_) => {
            proof {
                assert(spec_absorb(pre, plugin@.plugin_type, cni_output@) == Ok::<
                    CniInvocationResultV,
                    CniInvocationErrorV,
                >(invocation_output@));
            }
            Ok(())
        },
        Err(e) => Err(e),
    }
}

/// Performs a CNI invocation: one plugin, or a whole list walked in
/// operation order. Whatever the locator and invoker answered, a successful
/// result is exactly the fold of the per-plugin outputs, one per plugin, in
/// walk order, starting from the empty rolling result.
pub fn invoke<I: CniInvoker, L: CniLocator>(
    operation: CniOperation,
    invocation_arguments: &CniInvocationArguments,
    invocation_target: &CniInvocationTarget,
    invoker: &I,
    locator: &L,
) -> (r: Result<CniInvocationResult, CniInvocationError>)
    ensures
        r matches Ok(res) ==> exists|outs: Seq<Seq<char>>|
            outs.len() == spec_walk_types(invocation_target@, operation).len()
                && spec_fold_outputs(
                spec_empty_result(),
                spec_walk_types(invocation_target@, operation),
                outs,
            ) == Ok::<CniInvocationResultV, CniInvocationErrorV>(res@),
{
    let mut invocation_output = CniInvocationResult::new();
    proof {
        assert(invocation_output@ =~= spec_empty_result());
    }
    match invocation_target {
        CniInvocationTarget::Plugin { plugin, .. } => {
            let ghost types = spec_walk_types(invocation_target@, operation);
            match invoke_plugin(
                operation,
                plugin,
                invocation_arguments,
                invocation_target,
                &mut invocation_output,
                invoker,
                locator,
            ) {
                Ok(_) => {
                    proof {
                        let out = choose|out: Seq<char>|
                            spec_absorb(spec_empty_result(), plugin@.plugin_type, out) == Ok::<
                                CniInvocationResultV,
                                CniInvocationErrorV,
                            >(invocation_output@);
                        let outs = seq![out];
                        assert(types =~= seq![plugin@.plugin_type]);
                        assert(types.drop_last() =~= Seq::<Seq<char>>::empty());
                        assert(outs.drop_last() =~= Seq::<Seq<char>>::empty());
                        assert(spec_fold_outputs(
                            spec_empty_result(),
                            Seq::<Seq<char>>::empty(),
                            Seq::<Seq<char>>::empty(),
                        ) == Ok::<CniInvocationResultV, CniInvocationErrorV>(
                            spec_empty_result(),
                        ));
                        assert(spec_fold_outputs(spec_empty_result(), types, outs) == Ok::<
                            CniInvocationResultV,
                            CniInvocationErrorV,
                        >(invocation_output@));
                    }
                },
                Err(e) => {
                    return Err(e);
                },
            }
        },
        CniInvocationTarget::PluginList(plugin_list) => {
            let ghost types = spec_walk_types(invocation_target@, operation);
            let n = plugin_list.plugins.len();
            let mut k: usize = 0;
            let ghost mut outs = Seq::<Seq<char>>::empty();
            proof {
                assert(types.subrange(0, 0) =~= Seq::<Seq<char>>::empty());
            }
            while k < n
                invariant
                    n == plugin_list.plugins@.len(),
                    0 <= k <= n,
                    invocation_target@ == CniInvocationTargetV::PluginList(plugin_list@),
                    types == spec_walk_types(invocation_target@, operation),
                    types.len() == n,
                    outs.len() == k,
                    spec_fold_outputs(spec_empty_result(), types.subrange(0, k as int), outs)
                        == Ok::<CniInvocationResultV, CniInvocationErrorV>(invocation_output@),
                decreases n - k,
            {
                let is_delete = match operation {
                    CniOperation::Delete => true,
                    _ => false,
                };
                let idx = if is_delete {
                    n - 1 - k
                } else {
                    k
                };
                proof {
                    assert(spec_walk_order(operation, n as nat)[k as int] == idx);
                    assert(types[k as int] == (plugin_list.plugins@[idx as int])@.plugin_type);
                }
                let ghost pre = invocation_output@;
                match invoke_plugin(
                    operation,
                    &plugin_list.plugins[idx],
                    invocation_arguments,
                    invocation_target,
                    &mut invocation_output,
                    invoker,
                    locator,
                ) {
                    Ok(_) => {
                        proof {
                            let out = choose|out: Seq<char>|
                                spec_absorb(
                                    pre,
                                    (plugin_list.plugins@[idx as int])@.plugin_type,
                                    out,
                                ) == Ok::<CniInvocationResultV, CniInvocationErrorV>(
                                    invocation_output@,
                                );
                            let prev_outs = outs;
                            outs = outs.push(out);
                            assert(types.subrange(0, k + 1).drop_last() =~= types.subrange(
                                0,
                                k as int,
                            ));
                            assert(outs.drop_last() =~= prev_outs);
                            assert(types.subrange(0, k + 1).last() == types[k as int]);
                            assert(spec_fold_outputs(
                                spec_empty_result(),
                                types.subrange(0, k + 1),
                                outs,
                            ) == Ok::<CniInvocationResultV, CniInvocationErrorV>(
                                invocation_output@,
                            ));
                        }
                    },
                    Err(e) => {
                        return Err(e);
                    },
                }
                k = k + 1;
            }
            proof {
                assert(types.subrange(0, n as int) =~= types);
            }
        },
    }
    Ok(invocation_output)
}

} // verus!
