//! The daemon-facing messages and the translation of a policy into them.
use vstd::prelude::*;

use crate::capability::{copy_texts, texts, FilesystemCapability, NetworkCapability};
use crate::policy::Policy;
use crate::text::{decimal_digits, decimal_text};

verus! {

/// Network access as the daemon's protocol names it.
#[derive(Debug, Clone, Copy, PartialEq, Eq, Structural)]
pub enum WireNetworkAccess {
    Disabled,
    Outbound,
    Loopback,
    Full,
}

/// Paths granted per operation.
#[derive(Debug, Clone)]
pub struct WireFilesystem {
    pub read: Vec<String>,
    pub write: Vec<String>,
    pub execute: Vec<String>,
}

#[derive(Debug, Clone)]
pub struct WireCapabilities {
    pub network: WireNetworkAccess,
    pub filesystem: Option<WireFilesystem>,
}

/// Resource limits in the daemon's form: 0 for unlimited, memory as a short text.
#[derive(Debug, Clone)]
pub struct WireResourceLimits {
    pub cpus: i32,
    pub memory: String,
    pub max_processes: i32,
}

#[derive(Debug, Clone)]
pub struct WireSandboxConfig {
    pub root: String,
}

/// The policy as the daemon receives it.
#[derive(Debug, Clone)]
pub struct WirePolicy {
    pub sandbox: Option<WireSandboxConfig>,
    pub capabilities: Option<WireCapabilities>,
    pub resources: Option<WireResourceLimits>,
}

/// A request to start a command in a new sandbox.
#[derive(Debug, Clone)]
pub struct RunRequest {
    pub command: Vec<String>,
    pub policy_path: Option<String>,
    pub inline_policy: Option<WirePolicy>,
    pub environment: Vec<(String, String)>,
    pub working_directory: Option<String>,
    pub keep: bool,
    pub allocate_tty: bool,
}

#[derive(Debug, Clone)]
pub struct StopRequest {
    pub sandbox_id: String,
    pub force: bool,
}

#[derive(Debug, Clone, Copy)]
pub struct ListRequest {
    pub include_stopped: bool,
}

#[derive(Debug, Clone)]
pub struct StatusRequest {
    pub sandbox_id: String,
}

/// What the daemon answers to a run request.
#[derive(Debug, Clone)]
pub struct RunSandboxResponse {
    pub sandbox_id: String,
    pub pid: i32,
    pub success: bool,
    pub error: Option<String>,
}

/// What the daemon answers to a stop request.
#[derive(Debug, Clone)]
pub struct StopSandboxResponse {
    pub success: bool,
    pub error: Option<String>,
}

/// Why a daemon call failed.
#[derive(Debug, Clone)]
pub enum GrpcError {
    /// The socket is missing or the transport could not be set up.
    ConnectionFailed(String),
    /// The round trip failed or the daemon answered with an error.
    RequestFailed(String),
    /// The answer could not be read.
    InvalidResponse(String),
}

pub open spec fn error_text(e: GrpcError) -> Seq<char> {
    match e {
        GrpcError::ConnectionFailed(m) => "Connection failed: "@ + m@,
        GrpcError::RequestFailed(m) => "Request failed: "@ + m@,
        GrpcError::InvalidResponse(m) => "Invalid response: "@ + m@,
    }
}

impl GrpcError {
    /// The message shown for this error.
    pub fn message(&self) -> (r: String)
        ensures
            r@ == error_text(*self),
    {
        match self {
            GrpcError::ConnectionFailed(m) => String::from_str("Connection failed: ").concat(
                m.as_str(),
            ),
            GrpcError::RequestFailed(m) => String::from_str("Request failed: ").concat(m.as_str()),
            GrpcError::InvalidResponse(m) => String::from_str("Invalid response: ").concat(
                m.as_str(),
            ),
        }
    }

    /// The error for a call named `call` that failed with `detail`.
    pub fn request_failed(call: &str, detail: &str) -> (r: GrpcError)
        ensures
            r matches GrpcError::RequestFailed(m) && m@ == call@ + " RPC failed: "@ + detail@,
    {
        let mut m = String::from_str(call);
        m.append(" RPC failed: ");
        m.append(detail);
        GrpcError::RequestFailed(m)
    }
}

pub const KIB: u64 = 1024;

pub const MIB: u64 = 1024 * 1024;

pub const GIB: u64 = 1024 * 1024 * 1024;

/// The short memory text: whole GiB with `G`, else whole MiB with `M`, else
/// whole KiB with `K`, else the byte count; `0` when there is no limit.
pub open spec fn memory_text(bytes: Option<u64>) -> Seq<char> {
    match bytes {
        Some(b) => if b >= GIB {
            decimal_digits((b / GIB) as nat) + "G"@
        } else if b >= MIB {
            decimal_digits((b / MIB) as nat) + "M"@
        } else if b >= KIB {
            decimal_digits((b / KIB) as nat) + "K"@
        } else {
            decimal_digits(b as nat)
        },
        None => "0"@,
    }
}

pub fn format_memory(bytes: Option<u64>) -> (r: String)
    ensures
        r@ == memory_text(bytes),
{
    match bytes {
        Some(b) => {
            if b >= GIB {
                decimal_text(b / GIB).concat("G")
            } else if b >= MIB {
                decimal_text(b / MIB).concat("M")
            } else if b >= KIB {
                decimal_text(b / KIB).concat("K")
            } else {
                decimal_text(b)
            }
        },
        None => String::from_str("0"),
    }
}

pub open spec fn wire_network(n: NetworkCapability) -> WireNetworkAccess {
    match n {
        NetworkCapability::Disabled => WireNetworkAccess::Disabled,
        NetworkCapability::Outbound => WireNetworkAccess::Outbound,
        NetworkCapability::Loopback => WireNetworkAccess::Loopback,
        NetworkCapability::Full => WireNetworkAccess::Full,
    }
}

/// The paths sent for one filesystem flag: every allowed path when the flag
/// is granted, none otherwise.
pub open spec fn granted_paths(policy: Policy, flag: FilesystemCapability) -> Seq<Seq<char>> {
    if policy@.capabilities.filesystem.contains(flag) {
        policy@.capabilities.allowed_paths
    } else {
        Seq::empty()
    }
}

/// The wire form of `policy`: its network level, its allowed paths under
/// each granted filesystem flag, its limits (0 and `0` for unlimited) and its root.
pub open spec fn wire_filesystem_of(policy: Policy, fs: WireFilesystem) -> bool {
    &&& texts(fs.read@) == granted_paths(policy, FilesystemCapability::Read)
    &&& texts(fs.write@) == granted_paths(policy, FilesystemCapability::Write)
    &&& texts(fs.execute@) == granted_paths(policy, FilesystemCapability::Execute)
}

pub open spec fn limit_or_zero(v: Option<u32>) -> i32 {
    match v {
        Some(x) => x as i32,
        None => 0i32,
    }
}

/// The wire form of `policy`: its network level, its allowed paths under
/// each granted filesystem flag, its limits (0 and `0` for unlimited) and its root.
pub open spec fn wire_policy_of(policy: Policy, w: WirePolicy) -> bool {
    let limits = policy.capabilities.resource_limits;
    &&& (w.sandbox matches Some(sb) && sb.root@ == policy.sandbox.root_path@)
    &&& (w.capabilities matches Some(c) && c.network == wire_network(policy.capabilities.network)
        && (c.filesystem matches Some(fs) && wire_filesystem_of(policy, fs)))
    &&& (w.resources matches Some(res) && res.cpus == limit_or_zero(limits.cpus)
        && res.memory@ == memory_text(limits.memory_bytes) && res.max_processes
        == limit_or_zero(limits.max_processes))
}

fn has_flag(flags: &Vec<FilesystemCapability>, flag: FilesystemCapability) -> (r: bool)
    ensures
        r == flags@.contains(flag),
{
    let mut i: usize = 0;
    while i < flags.len()
        invariant
            i <= flags@.len(),
            forall|k: int| 0 <= k < i ==> flags@[k] != flag,
        decreases flags@.len() - i,
    {
        if flags[i] == flag {
            return true;
        }
        i = i + 1;
    }
    false
}

fn paths_for(policy: &Policy, flag: FilesystemCapability) -> (r: Vec<String>)
    ensures
        texts(r@) == granted_paths(*policy, flag),
{
    if has_flag(&policy.capabilities.filesystem, flag) {
        copy_texts(&policy.capabilities.allowed_paths)
    } else {
        let r: Vec<String> = Vec::new();
        assert(texts(r@) =~= Seq::<Seq<char>>::empty());
        r
    }
}

/// Translates a policy into the form the daemon receives. Denied paths are not sent.
pub fn convert_policy_to_proto(policy: &Policy) -> (r: WirePolicy)
    ensures
        wire_policy_of(*policy, r),
{
    let network = match policy.capabilities.network {
        NetworkCapability::Disabled => WireNetworkAccess::Disabled,
        NetworkCapability::Outbound => WireNetworkAccess::Outbound,
        NetworkCapability::Loopback => WireNetworkAccess::Loopback,
        NetworkCapability::Full => WireNetworkAccess::Full,
    };
    let filesystem = WireFilesystem {
        read: paths_for(policy, FilesystemCapability::Read),
        write: paths_for(policy, FilesystemCapability::Write),
        execute: paths_for(policy, FilesystemCapability::Execute),
    };
    let limits = policy.capabilities.resource_limits;
    let cpus: u32 = match limits.cpus {
        Some(c) => c,
        None => 0,
    };
    let max_processes: u32 = match limits.max_processes {
        Some(p) => p,
        None => 0,
    };
    WirePolicy {
        sandbox: Some(WireSandboxConfig { root: policy.sandbox.root_path.clone() }),
        capabilities: Some(WireCapabilities { network, filesystem: Some(filesystem) }),
        resources: Some(
            WireResourceLimits {
                cpus: cpus as i32,
                memory: format_memory(limits.memory_bytes),
                max_processes: max_processes as i32,
            },
        ),
    }
}

/// The request that runs `command` under `policy`, given inline, with no
/// extra environment, not kept and without a terminal.
pub fn build_run_request(policy: &Policy, command: Vec<String>, working_dir: Option<String>) -> (r:
    RunRequest)
    ensures
        r.command == command,
        r.policy_path is None,
        r.inline_policy matches Some(w) && wire_policy_of(*policy, w),
        r.environment@.len() == 0,
        r.working_directory == working_dir,
        !r.keep,
        !r.allocate_tty,
{
    RunRequest {
        command,
        policy_path: None,
        inline_policy: Some(convert_policy_to_proto(policy)),
        environment: Vec::new(),
        working_directory: working_dir,
        keep: false,
        allocate_tty: false,
    }
}

} // verus!
