//! A named sandbox policy.
use vstd::prelude::*;

use crate::capability::{
    copy_pairs, distinct_flags, distinct_keys, distinct_pair_keys, option_text, text_pairs, CapabilityGrant, CapabilityView,
    NetworkCapability, SandboxConfig, SandboxView,
};

verus! {

/// A sandbox policy. `name` is its storage key, not part of what is stored;
/// `metadata` holds one entry per key.
#[derive(Debug, Clone)]
pub struct Policy {
    pub name: String,
    pub version: String,
    pub description: Option<String>,
    pub capabilities: CapabilityGrant,
    pub sandbox: SandboxConfig,
    pub metadata: Vec<(String, String)>,
}

pub struct PolicyView {
    pub name: Seq<char>,
    pub version: Seq<char>,
    pub description: Option<Seq<char>>,
    pub capabilities: CapabilityView,
    pub sandbox: SandboxView,
    pub metadata: Seq<(Seq<char>, Seq<char>)>,
}

impl View for Policy {
    type V = PolicyView;

    open spec fn view(&self) -> PolicyView {
        PolicyView {
            name: self.name@,
            version: self.version@,
            description: option_text(self.description),
            capabilities: self.capabilities@,
            sandbox: self.sandbox@,
            metadata: text_pairs(self.metadata@),
        }
    }
}

impl PolicyView {
    /// The same policy under another name.
    pub open spec fn renamed(self, name: Seq<char>) -> PolicyView {
        PolicyView { name, ..self }
    }
}

/// The starting content of a new policy: version `1.0.0`, no description,
/// network disabled, no filesystem flags or paths, no limits, root `/`,
/// working directory `/`, and no mounts, environment or metadata.
pub open spec fn is_fresh_policy(p: PolicyView) -> bool {
    &&& p.version == "1.0.0"@
    &&& p.description is None
    &&& p.capabilities.network == NetworkCapability::Disabled
    &&& p.capabilities.filesystem.is_empty()
    &&& p.capabilities.allowed_paths.len() == 0
    &&& p.capabilities.denied_paths.len() == 0
    &&& p.capabilities.resource_limits.cpus is None
    &&& p.capabilities.resource_limits.memory_bytes is None
    &&& p.capabilities.resource_limits.max_processes is None
    &&& p.sandbox.root_path == "/"@
    &&& p.sandbox.mounts.len() == 0
    &&& p.sandbox.hostname is None
    &&& p.sandbox.working_directory == "/"@
    &&& p.sandbox.environment.len() == 0
    &&& p.metadata.len() == 0
}

/// The version a policy gets when none is given: `1.0.0`.
pub fn default_version() -> (r: String)
    ensures
        r@ == "1.0.0"@,
{
    String::from_str("1.0.0")
}

impl Policy {
    pub open spec fn wf(&self) -> bool {
        &&& self.capabilities.wf()
        &&& self.sandbox.wf()
        &&& distinct_keys(self.metadata@)
    }

    /// Whether each filesystem flag, variable name and metadata key occurs once.
    pub fn is_well_formed(&self) -> (r: bool)
        ensures
            r == self.wf(),
    {
        distinct_flags(&self.capabilities.filesystem) && distinct_pair_keys(
            &self.sandbox.environment,
        ) && distinct_pair_keys(&self.metadata)
    }

    /// A copy under this policy's name with `-copy` appended; nothing else changes.
    pub fn clone_as_duplicate(&self) -> (r: Policy)
        requires
            self.wf(),
        ensures
            r@ == self@.renamed(self.name@ + "-copy"@),
            r.wf(),
    {
        let mut name = self.name.clone();
        name.append("-copy");
        let capabilities = self.capabilities.deep_copy();
        let sandbox = self.sandbox.deep_copy();
        let metadata = copy_pairs(&self.metadata);
        Policy {
            name,
            version: self.version.clone(),
            description: match &self.description {
                Some(d) => Some(d.clone()),
                None => None,
            },
            capabilities,
            sandbox,
            metadata,
        }
    }

    /// A field-by-field copy.
    pub fn snapshot(&self) -> (r: Policy)
        requires
            self.wf(),
        ensures
            r@ == self@,
            r.wf(),
    {
        let capabilities = self.capabilities.deep_copy();
        let sandbox = self.sandbox.deep_copy();
        let metadata = copy_pairs(&self.metadata);
        Policy {
            name: self.name.clone(),
            version: self.version.clone(),
            description: match &self.description {
                Some(d) => Some(d.clone()),
                None => None,
            },
            capabilities,
            sandbox,
            metadata,
        }
    }

    /// The same policy under the name `name`.
    pub fn with_name(self, name: String) -> (r: Policy)
        ensures
            r@ == self@.renamed(name@),
            r.wf() == self.wf(),
    {
        Policy { name, ..self }
    }
}

impl Default for Policy {
    fn default() -> (r: Self)
        ensures
            r@.name == "default"@,
            is_fresh_policy(r@),
            r.wf(),
    {
        Policy {
            name: String::from_str("default"),
            version: default_version(),
            description: None,
            capabilities: CapabilityGrant::default(),
            sandbox: SandboxConfig::default(),
            metadata: Vec::new(),
        }
    }
}

} // verus!
