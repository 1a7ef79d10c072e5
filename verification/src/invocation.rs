//! What an invocation needs around the engine: the caller's arguments, the
//! target, the rolling result, the invocation errors, and the pluggable
//! locator and invoker strategies. The strategies' decisions — which
//! directory entry matches, which output stream to keep, what the elevated
//! command line says, what counts as a denied authentication — are all
//! stated and proved here; only the process and file-system work itself
//! stays outside.

use vstd::prelude::*;

use crate::schema::CniAttachment;
use crate::schema::CniAttachmentV;
use crate::schema::CniValidAttachment;
use crate::schema::CniValidAttachmentV;
use crate::schema::CniVersionObject;
use crate::schema::CniVersionObjectV;
use crate::schema::CniError;
use crate::schema::CniErrorV;
use crate::schema::spec_opt_view;
use crate::schema::spec_seq_view;
use crate::plugins::CniPlugin;
use crate::plugins::CniPluginV;
use crate::plugins::CniPluginList;
use crate::plugins::CniPluginListV;
use crate::strutil::contains_sub;
use crate::strutil::spec_contains_sub;
use crate::strutil::str_eq;
use crate::strutil::string_push;
use crate::types::CniContainerId;
use crate::types::CniInterfaceName;
use crate::types::CniName;
use crate::types::CniVersion;

verus! {

/// An input/output failure as an invoker reports it.
#[derive(Debug)]
pub enum CniIoError {
    PermissionDenied(String),
    Other(String),
}

/// The shape of an invoker failure.
#[verifier::ext_equal]
pub enum CniIoErrorV {
    PermissionDenied(Seq<char>),
    Other(Seq<char>),
}

impl View for CniIoError {
    type V = CniIoErrorV;

    open spec fn view(&self) -> CniIoErrorV {
        match self {
            CniIoError::PermissionDenied(s) => CniIoErrorV::PermissionDenied(s@),
            CniIoError::Other(s) => CniIoErrorV::Other(s@),
        }
    }
}

/// The rolling state of a chain walk: the newest attachment, and one
/// version object per plugin type.
#[derive(Debug)]
pub struct CniInvocationResult {
    pub attachment: Option<CniAttachment>,
    pub version_objects: Vec<(String, CniVersionObject)>,
}

/// The shape of a rolling result.
#[verifier::ext_equal]
pub struct CniInvocationResultV {
    pub attachment: Option<CniAttachmentV>,
    pub version_objects: Seq<(Seq<char>, CniVersionObjectV)>,
}

/// The shape of a sequence of keyed version objects.
pub open spec fn spec_vo_entries_view(s: Seq<(String, CniVersionObject)>) -> Seq<
    (Seq<char>, CniVersionObjectV),
> {
    Seq::new(s.len(), |i: int| (s[i].0@, s[i].1@))
}

impl View for CniInvocationResult {
    type V = CniInvocationResultV;

    open spec fn view(&self) -> CniInvocationResultV {
        CniInvocationResultV {
            attachment: spec_opt_view(self.attachment),
            version_objects: spec_vo_entries_view(self.version_objects@),
        }
    }
}

/// Binds a plugin type to a version object: replaces the first entry with
/// that type in place, or appends one.
pub open spec fn spec_vo_set(
    m: Seq<(Seq<char>, CniVersionObjectV)>,
    k: Seq<char>,
    v: CniVersionObjectV,
) -> Seq<(Seq<char>, CniVersionObjectV)>
    decreases m.len(),
{
    if m.len() == 0 {
        seq![(k, v)]
    } else if m[0].0 == k {
        seq![(k, v)] + m.drop_first()
    } else {
        seq![m[0]] + spec_vo_set(m.drop_first(), k, v)
    }
}

proof fn lemma_vo_set_at(
    m: Seq<(Seq<char>, CniVersionObjectV)>,
    k: Seq<char>,
    v: CniVersionObjectV,
    i: int,
)
    requires
        0 <= i < m.len(),
        m[i].0 == k,
        forall|j: int| 0 <= j < i ==> (#[trigger] m[j]).0 != k,
    ensures
        spec_vo_set(m, k, v) =~= m.update(i, (k, v)),
    decreases i,
{
    if i == 0 {
        assert(seq![(k, v)] + m.drop_first() =~= m.update(0, (k, v)));
    } else {
        let t = m.drop_first();
        assert(t[i - 1] == m[i]);
        assert(forall|j: int| 0 <= j < i - 1 ==> (#[trigger] t[j]).0 != k);
        lemma_vo_set_at(t, k, v, i - 1);
        assert(seq![m[0]] + t.update(i - 1, (k, v)) =~= m.update(i, (k, v)));
    }
}

proof fn lemma_vo_set_absent(
    m: Seq<(Seq<char>, CniVersionObjectV)>,
    k: Seq<char>,
    v: CniVersionObjectV,
)
    requires
        forall|j: int| 0 <= j < m.len() ==> (#[trigger] m[j]).0 != k,
    ensures
        spec_vo_set(m, k, v) =~= m.push((k, v)),
    decreases m.len(),
{
    if m.len() > 0 {
        let t = m.drop_first();
        lemma_vo_set_absent(t, k, v);
        assert(seq![m[0]] + t.push((k, v)) =~= m.push((k, v)));
    }
}

impl CniInvocationResult {
    /// The empty rolling state.
    pub fn new() -> (r: CniInvocationResult)
        ensures
            r@.attachment is None,
            r@.version_objects == Seq::<(Seq<char>, CniVersionObjectV)>::empty(),
    {
        let r = CniInvocationResult { attachment: None, version_objects: Vec::new() };
        proof {
            assert(spec_vo_entries_view(Seq::<(String, CniVersionObject)>::empty())
                =~= Seq::<(Seq<char>, CniVersionObjectV)>::empty());
        }
        r
    }

    /// Records a plugin's version object under its type, replacing an
    /// earlier record for the same type.
    pub fn record_version_object(&mut self, plugin_type: String, vo: CniVersionObject)
        ensures
            final(self)@.attachment == old(self)@.attachment,
            final(self)@.version_objects == spec_vo_set(
                old(self)@.version_objects,
                plugin_type@,
                vo@,
            ),
    {
        let ghost m = spec_vo_entries_view(self.version_objects@);
        let n = self.version_objects.len();
        let mut i: usize = 0;
        while i < n
            invariant
                *self == *old(self),
                n == self.version_objects@.len(),
                0 <= i <= n,
                m == spec_vo_entries_view(self.version_objects@),
                forall|j: int| 0 <= j < i ==> (#[trigger] m[j]).0 != plugin_type@,
            decreases n - i,
        {
            if str_eq(self.version_objects[i].0.as_str(), plugin_type.as_str()) {
                proof {
                    lemma_vo_set_at(m, plugin_type@, vo@, i as int);
                }
                let ghost kv = (plugin_type@, vo@);
                self.version_objects.set(i, (plugin_type, vo));
                proof {
                    assert(spec_vo_entries_view(self.version_objects@) =~= m.update(
                        i as int,
                        kv,
                    ));
                }
                return ;
            }
            i = i + 1;
        }
        proof {
            lemma_vo_set_absent(m, plugin_type@, vo@);
        }
        let ghost kv = (plugin_type@, vo@);
        self.version_objects.push((plugin_type, vo));
        proof {
            assert(spec_vo_entries_view(self.version_objects@) =~= m.push(kv));
        }
    }
}

/// Why an invocation failed.
#[derive(Debug)]
pub enum CniInvocationError {
    PluginNotFoundByLocator,
    InvokerFailed(CniIoError),
    JsonOperationFailed,
    PluginProducedError(CniError),
    PluginProducedUnrecognizableOutput(String),
}

/// The shape of an invocation failure.
#[verifier::ext_equal]
pub enum CniInvocationErrorV {
    PluginNotFoundByLocator,
    InvokerFailed(CniIoErrorV),
    JsonOperationFailed,
    PluginProducedError(CniErrorV),
    PluginProducedUnrecognizableOutput(Seq<char>),
}

impl View for CniInvocationError {
    type V = CniInvocationErrorV;

    open spec fn view(&self) -> CniInvocationErrorV {
        match self {
            CniInvocationError::PluginNotFoundByLocator =>
                CniInvocationErrorV::PluginNotFoundByLocator,
            CniInvocationError::InvokerFailed(e) => CniInvocationErrorV::InvokerFailed(e@),
            CniInvocationError::JsonOperationFailed => CniInvocationErrorV::JsonOperationFailed,
            CniInvocationError::PluginProducedError(e) => CniInvocationErrorV::PluginProducedError(
                e@,
            ),
            CniInvocationError::PluginProducedUnrecognizableOutput(s) =>
                CniInvocationErrorV::PluginProducedUnrecognizableOutput(s@),
        }
    }
}

/// The caller's arguments, all optional, set through the builder methods.
#[derive(Debug)]
pub struct CniInvocationArguments {
    pub container_id: Option<CniContainerId>,
    pub net_ns: Option<String>,
    pub interface_name: Option<CniInterfaceName>,
    pub paths: Option<Vec<String>>,
    pub attachment: Option<CniAttachment>,
    pub valid_attachments: Option<Vec<CniValidAttachment>>,
    pub cni_version: Option<CniVersion>,
}

/// The shape of the caller's arguments.
#[verifier::ext_equal]
pub struct CniInvocationArgumentsV {
    pub container_id: Option<Seq<char>>,
    pub net_ns: Option<Seq<char>>,
    pub interface_name: Option<Seq<char>>,
    pub paths: Option<Seq<Seq<char>>>,
    pub attachment: Option<CniAttachmentV>,
    pub valid_attachments: Option<Seq<CniValidAttachmentV>>,
    pub cni_version: Option<Seq<char>>,
}

impl View for CniInvocationArguments {
    type V = CniInvocationArgumentsV;

    open spec fn view(&self) -> CniInvocationArgumentsV {
        CniInvocationArgumentsV {
            container_id: spec_opt_view(self.container_id),
            net_ns: spec_opt_view(self.net_ns),
            interface_name: spec_opt_view(self.interface_name),
            paths: match self.paths {
                Option::Some(ref p) => Option::Some(spec_seq_view(p@)),
                Option::None => Option::None,
            },
            attachment: spec_opt_view(self.attachment),
            valid_attachments: match self.valid_attachments {
                Option::Some(ref v) => Option::Some(spec_seq_view(v@)),
                Option::None => Option::None,
            },
            cni_version: spec_opt_view(self.cni_version),
        }
    }
}

impl CniInvocationArguments {
    /// No arguments at all.
    pub fn new() -> (r: CniInvocationArguments)
        ensures
            r@ == (CniInvocationArgumentsV {
                container_id: Option::None,
                net_ns: Option::None,
                interface_name: Option::None,
                paths: Option::None,
                attachment: Option::None,
                valid_attachments: Option::None,
                cni_version: Option::None,
            }),
    {
        CniInvocationArguments {
            container_id: None,
            net_ns: None,
            interface_name: None,
            paths: None,
            attachment: None,
            valid_attachments: None,
            cni_version: None,
        }
    }

    /// Sets the container id.
    pub fn container_id(&mut self, container_id: CniContainerId)
        ensures
            final(self)@ == (CniInvocationArgumentsV {
                container_id: Option::Some(container_id@),
                ..old(self)@
            }),
    {
        self.container_id = Some(container_id);
    }

    /// Sets the network namespace text.
    pub fn net_ns(&mut self, net_ns: String)
        ensures
            final(self)@ == (CniInvocationArgumentsV {
                net_ns: Option::Some(net_ns@),
                ..old(self)@
            }),
    {
        self.net_ns = Some(net_ns);
    }

    /// Sets the interface name.
    pub fn interface_name(&mut self, interface_name: CniInterfaceName)
        ensures
            final(self)@ == (CniInvocationArgumentsV {
                interface_name: Option::Some(interface_name@),
                ..old(self)@
            }),
    {
        self.interface_name = Some(interface_name);
    }

    /// Sets the plugin search paths.
    pub fn paths(&mut self, paths: Vec<String>)
        ensures
            final(self)@ == (CniInvocationArgumentsV {
                paths: Option::Some(spec_seq_view(paths@)),
                ..old(self)@
            }),
    {
        self.paths = Some(paths);
    }

    /// Seeds the previous attachment, as CHECK and DEL need.
    pub fn attachment(&mut self, attachment: CniAttachment)
        ensures
            final(self)@ == (CniInvocationArgumentsV {
                attachment: Option::Some(attachment@),
                ..old(self)@
            }),
    {
        self.attachment = Some(attachment);
    }

    /// Sets the attachments a GC call declares still valid.
    pub fn valid_attachments(&mut self, valid_attachments: Vec<CniValidAttachment>)
        ensures
            final(self)@ == (CniInvocationArgumentsV {
                valid_attachments: Option::Some(spec_seq_view(valid_attachments@)),
                ..old(self)@
            }),
    {
        self.valid_attachments = Some(valid_attachments);
    }

    /// Overrides the version put into each plugin's stdin document.
    pub fn cni_version(&mut self, cni_version: CniVersion)
        ensures
            final(self)@ == (CniInvocationArgumentsV {
                cni_version: Option::Some(cni_version@),
                ..old(self)@
            }),
    {
        self.cni_version = Some(cni_version);
    }
}

/// What the engine is asked to run: one plugin, with the name and version
/// the caller supplies, or a whole plugin list.
#[derive(Debug)]
pub enum CniInvocationTarget {
    Plugin { plugin: CniPlugin, name: CniName, cni_version: CniVersion },
    PluginList(CniPluginList),
}

/// The shape of an invocation target.
#[verifier::ext_equal]
pub enum CniInvocationTargetV {
    Plugin { plugin: CniPluginV, name: Seq<char>, cni_version: Seq<char> },
    PluginList(CniPluginListV),
}

impl View for CniInvocationTarget {
    type V = CniInvocationTargetV;

    open spec fn view(&self) -> CniInvocationTargetV {
        match self {
            CniInvocationTarget::Plugin { plugin, name, cni_version } =>
                CniInvocationTargetV::Plugin {
                plugin: plugin@,
                name: name@,
                cni_version: cni_version@,
            },
            CniInvocationTarget::PluginList(l) => CniInvocationTargetV::PluginList(l@),
        }
    }
}

// --- the locator strategies --------------------------------------------------

/// Resolves a plugin type to the path of its binary. Implementations may
/// read the file system; the engine handles every outcome.
pub trait CniLocator {
    fn locate(&self, plugin_type: &str) -> Option<String>;
}

/// A locator backed by a caller-supplied table from plugin type to path.
#[derive(Debug)]
pub struct MappedCniLocator {
    pub lookup_map: Vec<(String, String)>,
}

/// The lookup a mapped locator performs: the first entry with the type wins.
pub open spec fn spec_mapped_locate(m: Seq<(String, String)>, t: Seq<char>) -> Option<Seq<char>>
    decreases m.len(),
{
    if m.len() == 0 {
        Option::None
    } else if m[0].0@ == t {
        Option::Some(m[0].1@)
    } else {
        spec_mapped_locate(m.drop_first(), t)
    }
}

impl MappedCniLocator {
    /// Looks the plugin type up in the table.
    pub fn lookup(&self, plugin_type: &str) -> (r: Option<String>)
        ensures
            match r {
                Some(p) => spec_mapped_locate(self.lookup_map@, plugin_type@) == Some(p@),
                None => spec_mapped_locate(self.lookup_map@, plugin_type@) is None,
            },
    {
        let n = self.lookup_map.len();
        let mut i: usize = 0;
        proof {
            assert(self.lookup_map@.skip(0) =~= self.lookup_map@);
        }
        while i < n
            invariant
                n == self.lookup_map@.len(),
                0 <= i <= n,
                spec_mapped_locate(self.lookup_map@, plugin_type@) == spec_mapped_locate(
                    self.lookup_map@.skip(i as int),
                    plugin_type@,
                ),
        decreases n - i,
        {
            proof {
                assert(self.lookup_map@.skip(i as int)[0] == self.lookup_map@[i as int]);
                assert(self.lookup_map@.skip(i as int).drop_first() =~= self.lookup_map@.skip(
                    i + 1,
                ));
            }
            if str_eq(self.lookup_map[i].0.as_str(), plugin_type) {
                return Some(self.lookup_map[i].1.clone());
            }
            i = i + 1;
        }
        proof {
            assert(self.lookup_map@.skip(n as int) =~= Seq::<(String, String)>::empty());
        }
        None
    }
}

impl CniLocator for MappedCniLocator {
    fn locate(&self, plugin_type: &str) -> Option<String> {
        self.lookup(plugin_type)
    }
}

/// A locator that scans one directory, matching file names against the
/// plugin type, exactly or by substring. Reading the directory is the
/// caller's part; choosing the entry is decided here.
#[derive(Debug)]
pub struct DirectoryCniLocator {
    pub directory_path: String,
    pub exact_name: bool,
}

/// Whether a directory entry matches the plugin type under the given
/// exactness.
pub open spec fn spec_entry_matches(entry: Seq<char>, t: Seq<char>, exact: bool) -> bool {
    entry == t || (!exact && spec_contains_sub(entry, t))
}

impl DirectoryCniLocator {
    /// Picks the first matching entry name, in the order given.
    pub fn select_entry(&self, entry_names: &Vec<String>, plugin_type: &str) -> (r: Option<
        usize,
    >)
        ensures
            match r {
                Some(i) => i < entry_names@.len() && spec_entry_matches(
                    entry_names@[i as int]@,
                    plugin_type@,
                    self.exact_name,
                ) && (forall|j: int|
                    0 <= j < i ==> !spec_entry_matches(
                        (#[trigger] entry_names@[j])@,
                        plugin_type@,
                        self.exact_name,
                    )),
                None => forall|j: int|
                    0 <= j < entry_names@.len() ==> !spec_entry_matches(
                        (#[trigger] entry_names@[j])@,
                        plugin_type@,
                        self.exact_name,
                    ),
            },
    {
        let n = entry_names.len();
        let mut i: usize = 0;
        while i < n
            invariant
                n == entry_names@.len(),
                0 <= i <= n,
                forall|j: int|
                    0 <= j < i ==> !spec_entry_matches(
                        (#[trigger] entry_names@[j])@,
                        plugin_type@,
                        self.exact_name,
                    ),
            decreases n - i,
        {
            let name = entry_names[i].as_str();
            if str_eq(name, plugin_type) || (!self.exact_name && contains_sub(name, plugin_type)) {
                return Some(i);
            }
            i = i + 1;
        }
        None
    }
}

// --- the invoker strategies ---------------------------------------------------

/// Runs a located binary with an environment and a stdin document and hands
/// back one output text. Implementations spawn processes; the engine
/// handles every outcome.
pub trait CniInvoker {
    fn invoke(&self, program: &str, environment: &Vec<(String, String)>, stdin: &str) -> Result<
        String,
        CniIoError,
    >;
}

/// The shape of an environment: keys and values in order.
pub open spec fn spec_env_view(s: Seq<(String, String)>) -> Seq<(Seq<char>, Seq<char>)> {
    Seq::new(s.len(), |i: int| (s[i].0@, s[i].1@))
}

/// The `KEY=VAL KEY=VAL ` text an elevated command line starts with, in
/// entry order.
pub open spec fn spec_build_env_string(m: Seq<(Seq<char>, Seq<char>)>) -> Seq<char>
    decreases m.len(),
{
    if m.len() == 0 {
        Seq::<char>::empty()
    } else {
        spec_build_env_string(m.drop_last()) + m.last().0 + seq!['='] + m.last().1 + seq![' ']
    }
}

/// Builds the `KEY=VAL ` run of an environment, in order.
pub fn build_env_string(environment: &Vec<(String, String)>) -> (r: String)
    ensures
        r@ == spec_build_env_string(spec_env_view(environment@)),
{
    let ghost m = spec_env_view(environment@);
    let mut out = String::new();
    let n = environment.len();
    let mut i: usize = 0;
    proof {
        assert(spec_build_env_string(m.subrange(0, 0)) =~= Seq::<char>::empty());
    }
    while i < n
        invariant
            n == environment@.len(),
            0 <= i <= n,
            m == spec_env_view(environment@),
            out@ == spec_build_env_string(m.subrange(0, i as int)),
        decreases n - i,
    {
        proof {
            assert(m.subrange(0, i + 1).drop_last() =~= m.subrange(0, i as int));
            assert(m.subrange(0, i + 1).last() == m[i as int]);
        }
        out.append(environment[i].0.as_str());
        string_push(&mut out, '=');
        out.append(environment[i].1.as_str());
        string_push(&mut out, ' ');
        proof {
            assert(out@ =~= spec_build_env_string(m.subrange(0, i + 1)));
        }
        i = i + 1;
    }
    proof {
        assert(m.subrange(0, n as int) =~= m);
    }
    out
}

/// The direct strategy: the plugin runs as the current user, and whichever
/// of its two output streams is longer is kept, since some plugins print
/// their JSON on stderr.
#[derive(Debug)]
pub struct RootfulCniInvoker {}

impl RootfulCniInvoker {
    /// Keeps the longer of the two streams, measured in bytes.
    pub fn select_output(stdout: String, stderr: String) -> (r: String)
        ensures
            r@ == (if vstd::utf8::encode_utf8(stdout@).len() > vstd::utf8::encode_utf8(
                stderr@,
            ).len() {
                stdout@
            } else {
                stderr@
            }),
    {
        let a = stdout.as_str().as_bytes().len();
        let b = stderr.as_str().as_bytes().len();
        proof {
            assert(a == vstd::utf8::encode_utf8(stdout@).len());
            assert(b == vstd::utf8::encode_utf8(stderr@).len());
        }
        if a > b {
            stdout
        } else {
            stderr
        }
    }
}

/// The `su`-elevated strategy: the password goes first on stdin, then a
/// shell line carrying the environment and the plugin path, then the
/// plugin's document.
#[derive(Debug)]
pub struct SuCniInvoker {
    pub su_path: String,
    pub password: String,
}

/// The shell line an `su` invocation sends: the environment run, the
/// program path, and ` ; exit` with a newline.
pub open spec fn spec_su_shell_line(m: Seq<(Seq<char>, Seq<char>)>, program: Seq<char>) -> Seq<
    char,
> {
    spec_build_env_string(m) + program + " ; exit\n"@
}

impl SuCniInvoker {
    /// Builds the shell line for the located program.
    pub fn shell_line(&self, environment: &Vec<(String, String)>, program: &str) -> (r: String)
        ensures
            r@ == spec_su_shell_line(spec_env_view(environment@), program@),
    {
        let mut out = build_env_string(environment);
        out.append(program);
        out.append(" ; exit\n");
        out
    }

    /// Whether the stderr text shows a failed authentication: `su` is taken
    /// at its word when it prints `fail` anywhere.
    pub fn output_indicates_failure(stderr: &str) -> (r: bool)
        ensures
            r == spec_contains_sub(stderr@, "fail"@),
    {
        contains_sub(stderr, "fail")
    }
}

/// The `sudo`-elevated strategy: `sudo -S` takes one argument holding the
/// environment run and the plugin path, and the password, when one is
/// configured, goes first on stdin.
#[derive(Debug)]
pub struct SudoCniInvoker {
    pub sudo_path: String,
    pub password: Option<String>,
}

impl SudoCniInvoker {
    /// Builds the single command argument for `sudo`.
    pub fn command_argument(&self, environment: &Vec<(String, String)>, program: &str) -> (r:
        String)
        ensures
            r@ == spec_build_env_string(spec_env_view(environment@)) + program@,
    {
        let mut out = build_env_string(environment);
        out.append(program);
        out
    }

    /// Whether the stderr text shows a failed authentication: the exact
    /// phrase `sudo` prints after a wrong password.
    pub fn output_indicates_failure(stderr: &str) -> (r: bool)
        ensures
            r == spec_contains_sub(stderr@, "Sorry, try again"@),
    {
        contains_sub(stderr, "Sorry, try again")
    }
}

} // verus!
