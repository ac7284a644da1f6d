//! The capability grant and sandbox configuration of a policy.
use vstd::prelude::*;

verus! {

/// How a mount is made inside the sandbox.
#[derive(Debug, Clone, Copy, PartialEq, Eq, Structural)]
pub enum MountType {
    Bind,
    Tmpfs,
    Devtmpfs,
    Proc,
    Sysfs,
}

/// Whether a mount may be written.
#[derive(Debug, Clone, Copy, PartialEq, Eq, Structural)]
pub enum MountMode {
    ReadOnly,
    ReadWrite,
}

/// Network access level, from none to unrestricted.
#[derive(Debug, Clone, Copy, PartialEq, Eq, Hash, Structural)]
pub enum NetworkCapability {
    Disabled,
    Outbound,
    Loopback,
    Full,
}

/// A filesystem permission flag.
#[derive(Debug, Clone, Copy, PartialEq, Eq, Hash, Structural)]
pub enum FilesystemCapability {
    Read,
    Write,
    Execute,
}

/// Optional resource ceilings; `None` means unlimited.
#[derive(Debug, Clone, Copy, PartialEq, Eq, Structural)]
pub struct ResourceLimits {
    pub cpus: Option<u32>,
    pub memory_bytes: Option<u64>,
    pub max_processes: Option<u32>,
}

#[derive(Debug, Clone)]
pub struct MountConfig {
    pub source: String,
    pub destination: String,
    pub mount_type: MountType,
    pub mode: MountMode,
    pub options: Vec<String>,
}

/// Root filesystem, mounts, hostname, working directory and environment of a sandbox.
/// `environment` holds one entry per variable name.
#[derive(Debug, Clone)]
pub struct SandboxConfig {
    pub root_path: String,
    pub mounts: Vec<MountConfig>,
    pub hostname: Option<String>,
    pub working_directory: String,
    pub environment: Vec<(String, String)>,
}

/// Network level, filesystem flags (each at most once), allowed and denied
/// paths, and resource limits.
#[derive(Debug, Clone)]
pub struct CapabilityGrant {
    pub network: NetworkCapability,
    pub filesystem: Vec<FilesystemCapability>,
    pub allowed_paths: Vec<String>,
    pub denied_paths: Vec<String>,
    pub resource_limits: ResourceLimits,
}

pub struct MountView {
    pub source: Seq<char>,
    pub destination: Seq<char>,
    pub mount_type: MountType,
    pub mode: MountMode,
    pub options: Seq<Seq<char>>,
}

pub struct SandboxView {
    pub root_path: Seq<char>,
    pub mounts: Seq<MountView>,
    pub hostname: Option<Seq<char>>,
    pub working_directory: Seq<char>,
    pub environment: Seq<(Seq<char>, Seq<char>)>,
}

pub struct CapabilityView {
    pub network: NetworkCapability,
    pub filesystem: Set<FilesystemCapability>,
    pub allowed_paths: Seq<Seq<char>>,
    pub denied_paths: Seq<Seq<char>>,
    pub resource_limits: ResourceLimits,
}

pub open spec fn texts(v: Seq<String>) -> Seq<Seq<char>> {
    v.map_values(|s: String| s@)
}

pub open spec fn text_pairs(v: Seq<(String, String)>) -> Seq<(Seq<char>, Seq<char>)> {
    v.map_values(|p: (String, String)| (p.0@, p.1@))
}

pub open spec fn option_text(o: Option<String>) -> Option<Seq<char>> {
    match o {
        Some(s) => Some(s@),
        None => None,
    }
}

/// No variable name occurs twice.
pub open spec fn distinct_keys(v: Seq<(String, String)>) -> bool {
    forall|i: int, j: int| 0 <= i < j < v.len() ==> #[trigger] v[i].0@ != #[trigger] v[j].0@
}

impl View for MountConfig {
    type V = MountView;

    open spec fn view(&self) -> MountView {
        MountView {
            source: self.source@,
            destination: self.destination@,
            mount_type: self.mount_type,
            mode: self.mode,
            options: texts(self.options@),
        }
    }
}

impl View for SandboxConfig {
    type V = SandboxView;

    open spec fn view(&self) -> SandboxView {
        SandboxView {
            root_path: self.root_path@,
            mounts: self.mounts@.map_values(|m: MountConfig| m@),
            hostname: option_text(self.hostname),
            working_directory: self.working_directory@,
            environment: text_pairs(self.environment@),
        }
    }
}

impl View for CapabilityGrant {
    type V = CapabilityView;

    open spec fn view(&self) -> CapabilityView {
        CapabilityView {
            network: self.network,
            filesystem: self.filesystem@.to_set(),
            allowed_paths: texts(self.allowed_paths@),
            denied_paths: texts(self.denied_paths@),
            resource_limits: self.resource_limits,
        }
    }
}

impl SandboxConfig {
    pub open spec fn wf(&self) -> bool {
        distinct_keys(self.environment@)
    }
}

impl CapabilityGrant {
    pub open spec fn wf(&self) -> bool {
        self.filesystem@.no_duplicates()
    }
}

pub open spec fn network_name(n: NetworkCapability) -> Seq<char> {
    match n {
        NetworkCapability::Disabled => "disabled"@,
        NetworkCapability::Outbound => "outbound"@,
        NetworkCapability::Loopback => "loopback"@,
        NetworkCapability::Full => "full"@,
    }
}

/// The level a name stands for; any unknown name gives `Disabled`.
pub open spec fn network_of_name(s: Seq<char>) -> NetworkCapability {
    if s == "outbound"@ {
        NetworkCapability::Outbound
    } else if s == "loopback"@ {
        NetworkCapability::Loopback
    } else if s == "full"@ {
        NetworkCapability::Full
    } else {
        NetworkCapability::Disabled
    }
}

impl NetworkCapability {
    pub fn as_str(&self) -> (r: &'static str)
        ensures
            r@ == network_name(*self),
    {
        match self {
            NetworkCapability::Disabled => "disabled",
            NetworkCapability::Outbound => "outbound",
            NetworkCapability::Loopback => "loopback",
            NetworkCapability::Full => "full",
        }
    }

    pub fn from_str(s: &str) -> (r: NetworkCapability)
        ensures
            r == network_of_name(s@),
    {
        if crate::text::same_text(s, "outbound") {
            NetworkCapability::Outbound
        } else if crate::text::same_text(s, "loopback") {
            NetworkCapability::Loopback
        } else if crate::text::same_text(s, "full") {
            NetworkCapability::Full
        } else {
            NetworkCapability::Disabled
        }
    }
}

/// The working directory used when none is given: `/`.
pub fn default_working_directory() -> (r: String)
    ensures
        r@ == "/"@,
{
    String::from_str("/")
}

/// The mode used when a mount gives none: read-only.
pub fn default_mount_mode() -> (r: MountMode)
    ensures
        r == MountMode::ReadOnly,
{
    MountMode::ReadOnly
}

impl Default for ResourceLimits {
    fn default() -> (r: Self)
        ensures
            r.cpus is None,
            r.memory_bytes is None,
            r.max_processes is None,
    {
        ResourceLimits { cpus: None, memory_bytes: None, max_processes: None }
    }
}

impl Default for SandboxConfig {
    fn default() -> (r: Self)
        ensures
            r@.root_path == "/"@,
            r@.mounts.len() == 0,
            r@.hostname is None,
            r@.working_directory == "/"@,
            r@.environment.len() == 0,
            r.wf(),
    {
        SandboxConfig {
            root_path: String::from_str("/"),
            mounts: Vec::new(),
            hostname: None,
            working_directory: default_working_directory(),
            environment: Vec::new(),
        }
    }
}

impl Default for CapabilityGrant {
    fn default() -> (r: Self)
        ensures
            r@.network == NetworkCapability::Disabled,
            r@.filesystem.is_empty(),
            r@.allowed_paths.len() == 0,
            r@.denied_paths.len() == 0,
            r@.resource_limits == (ResourceLimits {
                cpus: None,
                memory_bytes: None,
                max_processes: None,
            }),
            r.wf(),
    {
        CapabilityGrant {
            network: NetworkCapability::Disabled,
            filesystem: Vec::new(),
            allowed_paths: Vec::new(),
            denied_paths: Vec::new(),
            resource_limits: ResourceLimits::default(),
        }
    }
}

/// A copy of a list of texts.
pub fn copy_texts(v: &Vec<String>) -> (r: Vec<String>)
    ensures
        r@ == v@,
{
    let r = v.clone();
    assert(r@ =~= v@);
    r
}

fn copy_option_text(o: &Option<String>) -> (r: Option<String>)
    ensures
        r == *o,
{
    match o {
        Some(s) => Some(s.clone()),
        None => None,
    }
}

/// A copy of a list of name/value pairs.
pub fn copy_pairs(v: &Vec<(String, String)>) -> (r: Vec<(String, String)>)
    ensures
        r@ == v@,
{
    let mut r: Vec<(String, String)> = Vec::new();
    let mut i: usize = 0;
    while i < v.len()
        invariant
            i <= v@.len(),
            r@ == v@.take(i as int),
        decreases v@.len() - i,
    {
        let pair = (v[i].0.clone(), v[i].1.clone());
        r.push(pair);
        i = i + 1;
        assert(r@ =~= v@.take(i as int));
    }
    assert(v@.take(v@.len() as int) =~= v@);
    r
}

impl MountConfig {
    /// A field-by-field copy.
    pub fn deep_copy(&self) -> (r: MountConfig)
        ensures
            r@ == self@,
    {
        MountConfig {
            source: self.source.clone(),
            destination: self.destination.clone(),
            mount_type: self.mount_type,
            mode: self.mode,
            options: copy_texts(&self.options),
        }
    }
}

impl SandboxConfig {
    /// A field-by-field copy.
    pub fn deep_copy(&self) -> (r: SandboxConfig)
        ensures
            r@ == self@,
            r.environment@ == self.environment@,
    {
        let mut mounts: Vec<MountConfig> = Vec::new();
        let mut i: usize = 0;
        while i < self.mounts.len()
            invariant
                i <= self.mounts@.len(),
                mounts@.len() == i,
                forall|k: int| 0 <= k < i ==> (#[trigger] mounts@[k])@ == self.mounts@[k]@,
            decreases self.mounts@.len() - i,
        {
            mounts.push(self.mounts[i].deep_copy());
            i = i + 1;
        }
        assert(mounts@.map_values(|m: MountConfig| m@) =~= self.mounts@.map_values(
            |m: MountConfig| m@,
        ));
        SandboxConfig {
            root_path: self.root_path.clone(),
            mounts,
            hostname: copy_option_text(&self.hostname),
            working_directory: self.working_directory.clone(),
            environment: copy_pairs(&self.environment),
        }
    }
}

impl CapabilityGrant {
    /// A field-by-field copy.
    pub fn deep_copy(&self) -> (r: CapabilityGrant)
        ensures
            r@ == self@,
            r.filesystem@ == self.filesystem@,
    {
        let filesystem = self.filesystem.clone();
        assert(filesystem@ =~= self.filesystem@);
        CapabilityGrant {
            network: self.network,
            filesystem,
            allowed_paths: copy_texts(&self.allowed_paths),
            denied_paths: copy_texts(&self.denied_paths),
            resource_limits: self.resource_limits,
        }
    }
}

/// Whether no flag occurs twice.
pub fn distinct_flags(v: &Vec<FilesystemCapability>) -> (r: bool)
    ensures
        r == v@.no_duplicates(),
{
    let n = v.len();
    let mut j: usize = 0;
    while j < n
        invariant
            n == v@.len(),
            j <= n,
            forall|a: int, b: int| 0 <= a < b < j ==> v@[a] != v@[b],
        decreases n - j,
    {
        let mut i: usize = 0;
        while i < j
            invariant
                n == v@.len(),
                i <= j < n,
                forall|a: int, b: int| 0 <= a < b < j ==> v@[a] != v@[b],
                forall|a: int| 0 <= a < i ==> v@[a] != v@[j as int],
            decreases j - i,
        {
            if v[i] == v[j] {
                return false;
            }
            i = i + 1;
        }
        j = j + 1;
    }
    true
}

/// Whether no name occurs twice.
pub fn distinct_pair_keys(v: &Vec<(String, String)>) -> (r: bool)
    ensures
        r == distinct_keys(v@),
{
    let n = v.len();
    let mut j: usize = 0;
    while j < n
        invariant
            n == v@.len(),
            j <= n,
            forall|a: int, b: int| 0 <= a < b < j ==> v@[a].0@ != v@[b].0@,
        decreases n - j,
    {
        let mut i: usize = 0;
        while i < j
            invariant
                n == v@.len(),
                i <= j < n,
                forall|a: int, b: int| 0 <= a < b < j ==> v@[a].0@ != v@[b].0@,
                forall|a: int| 0 <= a < i ==> v@[a].0@ != v@[j as int].0@,
            decreases j - i,
        {
            if crate::text::same_text(v[i].0.as_str(), v[j].0.as_str()) {
                return false;
            }
            i = i + 1;
        }
        j = j + 1;
    }
    true
}

} // verus!
