//! The application state and its transitions. The daemon client is held in a
//! single slot: a call takes it out and its completion hands it back, so at
//! most one daemon call is ever in flight.
use vstd::prelude::*;

use crate::capability::{
    texts, CapabilityView, FilesystemCapability, NetworkCapability, ResourceLimits,
};
use crate::policy::{is_fresh_policy, Policy, PolicyView};
use crate::text::{
    decimal_digits, decimal_parts, decimal_text, exponent_value, is_blank, is_exponent_mark,
    is_word, scaled_float, signed_body, split_words, u32_text_value, words,
};
use crate::validation::{
    memory_input, name_error, unit_multiplier, number_error, parse_max_processes, parse_memory,
    path_error, positive_number_error, is_present, Field, MemoryInput, MemoryUnit,
    ValidationErrors,
};
use crate::wire::{build_run_request, wire_policy_of, ListRequest, RunRequest, StopRequest};

verus! {

#[derive(Debug, Clone, Copy, PartialEq, Eq, Structural)]
pub enum ViewMode {
    ProfileList,
    ProfileEditor,
    RunHistory,
}

#[derive(Debug, Clone, Copy, PartialEq, Eq, Structural)]
pub enum DaemonStatus {
    Unknown,
    Connected,
    Offline,
}

#[derive(Debug, Clone, Copy, PartialEq, Eq, Structural)]
pub enum LoadingState {
    Idle,
    LoadingHistory,
    RunningSandbox,
}

#[derive(Debug, Clone, Copy, PartialEq, Eq, Structural)]
pub enum PathType {
    Allowed,
    Denied,
}

pub open spec fn path_field(t: PathType) -> Field {
    match t {
        PathType::Allowed => Field::AllowedPath,
        PathType::Denied => Field::DeniedPath,
    }
}

/// The text typed into the two path inputs and not yet added.
#[derive(Debug, Clone)]
pub struct PathInputs {
    pub allowed_input: String,
    pub denied_input: String,
}

impl PathInputs {
    pub open spec fn is_cleared(&self) -> bool {
        self.allowed_input@.len() == 0 && self.denied_input@.len() == 0
    }

    pub open spec fn input(&self, t: PathType) -> Seq<char> {
        match t {
            PathType::Allowed => self.allowed_input@,
            PathType::Denied => self.denied_input@,
        }
    }

    pub fn new() -> (r: Self)
        ensures
            r.is_cleared(),
    {
        PathInputs { allowed_input: String::new(), denied_input: String::new() }
    }
}

impl Default for PathInputs {
    fn default() -> (r: Self)
        ensures
            r.is_cleared(),
    {
        PathInputs::new()
    }
}

/// What the memory field shows: text as typed, or a stored byte count,
/// shown in the current unit.
#[derive(Debug, Clone)]
pub enum MemoryDisplay {
    Text(String),
    Bytes(u64),
}

/// One sandbox run as the history shows it.
#[derive(Debug, Clone)]
pub struct RunRecord {
    pub id: String,
    pub profile_name: String,
    pub start_time: String,
    pub duration: String,
    pub exit_code: i32,
    pub denied_capabilities: Vec<String>,
}

/// The history entry for a sandbox the daemon lists: its identifier, with
/// profile `unknown`, start time `N/A`, duration `unknown`, exit code 0 and
/// no denials.
pub open spec fn is_listed_record(r: RunRecord, id: Seq<char>) -> bool {
    &&& r.id@ == id
    &&& r.profile_name@ == "unknown"@
    &&& r.start_time@ == "N/A"@
    &&& r.duration@ == "unknown"@
    &&& r.exit_code == 0
    &&& r.denied_capabilities@.len() == 0
}

/// Shows a start time; only the unset time 0 is rendered, as `N/A`.
pub fn format_timestamp(unix_seconds: i64) -> (r: String)
    ensures
        r@ == (if unix_seconds == 0 {
            "N/A"@
        } else {
            "timestamp"@
        }),
{
    if unix_seconds == 0 {
        String::from_str("N/A")
    } else {
        String::from_str("timestamp")
    }
}

/// The history built from the identifiers of the sandboxes the daemon lists, in order.
pub fn records_from_listing(sandbox_ids: &Vec<String>) -> (r: Vec<RunRecord>)
    ensures
        r@.len() == sandbox_ids@.len(),
        forall|i: int| 0 <= i < r@.len() ==> is_listed_record(#[trigger] r@[i], sandbox_ids@[i]@),
{
    let mut r: Vec<RunRecord> = Vec::new();
    let mut i: usize = 0;
    while i < sandbox_ids.len()
        invariant
            i <= sandbox_ids@.len(),
            r@.len() == i,
            forall|k: int| 0 <= k < i ==> is_listed_record(#[trigger] r@[k], sandbox_ids@[k]@),
        decreases sandbox_ids@.len() - i,
    {
        r.push(
            RunRecord {
                id: sandbox_ids[i].clone(),
                profile_name: String::from_str("unknown"),
                start_time: format_timestamp(0),
                duration: String::from_str("unknown"),
                exit_code: 0,
                denied_capabilities: Vec::new(),
            },
        );
        i = i + 1;
    }
    r
}

/// A daemon call for the caller to perform, or a profile to write. A call
/// carries the client; its completion message hands it back.
pub enum Effect<C> {
    Nothing,
    SaveProfile { name: String, policy: Policy },
    ListSandboxes { client: C, request: ListRequest },
    RunSandbox { client: C, request: RunRequest },
    StopSandbox { client: C, request: StopRequest },
}

impl<C> Effect<C> {
    /// Whether this effect carries the daemon client.
    pub open spec fn holds_client(self) -> bool {
        self is ListSandboxes || self is RunSandbox || self is StopSandbox
    }
}

/// An event for the application state: user input, or the completion of a
/// daemon call that hands back the client.
pub enum Message<C> {
    ProfilesLoaded(Vec<Policy>),
    ProfileSelected(usize),
    CreateNewProfile,
    DeleteProfile(usize),
    DuplicateProfile(usize),
    NetworkCapabilityChanged(NetworkCapability),
    FilesystemCapabilityToggled(FilesystemCapability),
    PathInputChanged { path_type: PathType, value: String },
    AddPath { path_type: PathType },
    RemovePath { path_type: PathType, index: usize },
    CpuChanged(u32),
    MemoryBytesChanged(String),
    MemoryUnitChanged(MemoryUnit),
    MaxProcessesChanged(String),
    NameChanged(String),
    SaveProfile,
    SwitchView(ViewMode),
    HistoryFilterChanged(String),
    GrpcClientConnected(Result<C, String>),
    RunSandbox { profile_idx: usize, command: String },
    RunSandboxResult(Result<String, String>, C),
    StopSandbox { sandbox_id: String },
    StopSandboxResult(Result<(), String>, C),
    HistoryLoaded(Result<Vec<RunRecord>, String>, C),
}

/// The application state. `C` is the daemon client.
pub struct HopsGui<C> {
    pub profiles: Vec<Policy>,
    pub selected_profile: Option<usize>,
    pub view_mode: ViewMode,
    pub path_inputs: PathInputs,
    pub validation_errors: ValidationErrors,
    pub run_history: Vec<RunRecord>,
    pub history_filter: String,
    pub grpc_client: Option<C>,
    pub daemon_status: DaemonStatus,
    pub loading_state: LoadingState,
    pub memory_unit: MemoryUnit,
    pub memory_display_value: MemoryDisplay,
}

impl<C> HopsGui<C> {
    /// Every profile is well formed.
    pub open spec fn wf(&self) -> bool {
        forall|i: int| 0 <= i < self.profiles@.len() ==> (#[trigger] self.profiles@[i]).wf()
    }

    /// The index of the selected profile, when it names one.
    pub open spec fn editing(&self) -> Option<int> {
        match self.selected_profile {
            Some(i) => if i < self.profiles@.len() {
                Some(i as int)
            } else {
                None
            },
            None => None,
        }
    }

    /// `new` differs from `old` only in the selected profile, which is `p`.
    pub open spec fn edited(old: Self, new: Self, p: PolicyView) -> bool {
        &&& old.editing() matches Some(i)
        &&& new == HopsGui { profiles: new.profiles, ..old }
        &&& new.profiles@.len() == old.profiles@.len()
        &&& new.profiles@[i]@ == p
        &&& new.profiles@[i].wf()
        &&& forall|j: int| 0 <= j < old.profiles@.len() && j != i ==> new.profiles@[j] == old.profiles@[j]
    }

    /// A state holding `profiles`, showing the profile list, with nothing
    /// selected or typed, no errors, no history, no client yet, and memory in MB.
    pub fn new(profiles: Vec<Policy>) -> (r: Self)
        requires
            forall|i: int| 0 <= i < profiles@.len() ==> (#[trigger] profiles@[i]).wf(),
        ensures
            r.wf(),
            r.profiles == profiles,
            r.selected_profile is None,
            r.view_mode == ViewMode::ProfileList,
            r.path_inputs.is_cleared(),
            r.validation_errors@ == Map::<Field, Seq<char>>::empty(),
            r.run_history@.len() == 0,
            r.history_filter@.len() == 0,
            r.grpc_client is None,
            r.daemon_status == DaemonStatus::Unknown,
            r.loading_state == LoadingState::Idle,
            r.memory_unit == MemoryUnit::MB,
            r.memory_display_value matches MemoryDisplay::Text(t) && t@.len() == 0,
    {
        HopsGui {
            profiles,
            selected_profile: None,
            view_mode: ViewMode::ProfileList,
            path_inputs: PathInputs::new(),
            validation_errors: ValidationErrors::new(),
            run_history: Vec::new(),
            history_filter: String::new(),
            grpc_client: None,
            daemon_status: DaemonStatus::Unknown,
            loading_state: LoadingState::Idle,
            memory_unit: MemoryUnit::MB,
            memory_display_value: MemoryDisplay::Text(String::new()),
        }
    }

    pub fn title(&self) -> (r: String)
        ensures
            r@ == "Hops - Profile Management"@,
    {
        String::from_str("Hops - Profile Management")
    }

    /// Replaces the profile collection.
    pub fn load_profiles(&mut self, profiles: Vec<Policy>)
        requires
            forall|i: int| 0 <= i < profiles@.len() ==> (#[trigger] profiles@[i]).wf(),
        ensures
            final(self).wf(),
            Self::loaded(*old(self), *final(self), profiles),
    {
        self.profiles = profiles;
    }

    /// Opens profile `index` in the editor with fresh inputs and no errors;
    /// the memory field shows that profile's stored limit, or nothing.
    pub fn select_profile(&mut self, index: usize)
        ensures
            Self::selected(*old(self), *final(self), index),
    {
        self.selected_profile = Some(index);
        self.view_mode = ViewMode::ProfileEditor;
        self.path_inputs = PathInputs::new();
        self.validation_errors = ValidationErrors::new();
        if index < self.profiles.len() {
            match self.profiles[index].capabilities.resource_limits.memory_bytes {
                Some(b) => self.memory_display_value = MemoryDisplay::Bytes(b),
                None => self.memory_display_value = MemoryDisplay::Text(String::new()),
            }
        }
    }

    /// Appends a fresh policy named `profile-N`, N being the new count, and
    /// opens it in the editor with fresh inputs, no errors and an empty memory
    /// field. A collection already holding `usize::MAX` profiles is left as it is.
    pub fn create_profile(&mut self)
        requires
            old(self).wf(),
        ensures
            final(self).wf(),
            Self::created(*old(self), *final(self)),
    {
        let count = self.profiles.len();
        if count == usize::MAX {
            return ;
        }
        let name = String::from_str("profile-").concat(decimal_text((count + 1) as u64).as_str());
        let policy = Policy::default().with_name(name);
        self.profiles.push(policy);
        self.selected_profile = Some(count);
        self.view_mode = ViewMode::ProfileEditor;
        self.path_inputs = PathInputs::new();
        self.validation_errors = ValidationErrors::new();
        self.memory_display_value = MemoryDisplay::Text(String::new());
        assert(self.profiles@.take(count as int) =~= old(self).profiles@);
        assert forall|i: int| 0 <= i < self.profiles@.len() implies (
        #[trigger] self.profiles@[i]).wf() by {
            if i < count {
                assert(self.profiles@[i] == old(self).profiles@[i]);
            }
        }
    }

    /// Removes profile `index`, keeping the selection on the same profile:
    /// a selection of the removed profile is cleared and the list shown, a
    /// later one moves down by one, an earlier one stays. Out of range: no change.
    pub fn delete_profile(&mut self, index: usize)
        requires
            old(self).wf(),
        ensures
            final(self).wf(),
            Self::deleted(*old(self), *final(self), index),
    {
        if index < self.profiles.len() {
            self.profiles.remove(index);
            match self.selected_profile {
                Some(selected) => {
                    if selected == index {
                        self.selected_profile = None;
                        self.view_mode = ViewMode::ProfileList;
                    } else if selected > index {
                        self.selected_profile = Some(selected - 1);
                    }
                },
                None => {},
            }
            assert forall|i: int| 0 <= i < self.profiles@.len() implies (
            #[trigger] self.profiles@[i]).wf() by {
                if i < index {
                    assert(self.profiles@[i] == old(self).profiles@[i]);
                } else {
                    assert(self.profiles@[i] == old(self).profiles@[i + 1]);
                }
            }
        }
    }

    /// Appends a copy of profile `index` named with `-copy` appended; the
    /// selection stays. Out of range: no change.
    pub fn duplicate_profile(&mut self, index: usize)
        requires
            old(self).wf(),
        ensures
            final(self).wf(),
            Self::duplicated(*old(self), *final(self), index),
    {
        if index < self.profiles.len() {
            assert(self.profiles@[index as int].wf());
            let copy = self.profiles[index].clone_as_duplicate();
            let ghost count = self.profiles@.len();
            self.profiles.push(copy);
            assert(self.profiles@.take(count as int) =~= old(self).profiles@);
            assert forall|i: int| 0 <= i < self.profiles@.len() implies (
            #[trigger] self.profiles@[i]).wf() by {
                if i < count {
                    assert(self.profiles@[i] == old(self).profiles@[i]);
                }
            }
        }
    }
}

pub open spec fn with_network(p: PolicyView, n: NetworkCapability) -> PolicyView {
    PolicyView { capabilities: CapabilityView { network: n, ..p.capabilities }, ..p }
}

pub open spec fn with_filesystem(p: PolicyView, f: Set<FilesystemCapability>) -> PolicyView {
    PolicyView { capabilities: CapabilityView { filesystem: f, ..p.capabilities }, ..p }
}

/// The flag set with `flag` switched: removed when present, added when absent.
pub open spec fn toggled(f: Set<FilesystemCapability>, flag: FilesystemCapability) -> Set<
    FilesystemCapability,
> {
    if f.contains(flag) {
        f.remove(flag)
    } else {
        f.insert(flag)
    }
}

pub open spec fn paths_of(p: PolicyView, t: PathType) -> Seq<Seq<char>> {
    match t {
        PathType::Allowed => p.capabilities.allowed_paths,
        PathType::Denied => p.capabilities.denied_paths,
    }
}

pub open spec fn with_paths(p: PolicyView, t: PathType, paths: Seq<Seq<char>>) -> PolicyView {
    match t {
        PathType::Allowed => PolicyView {
            capabilities: CapabilityView { allowed_paths: paths, ..p.capabilities },
            ..p
        },
        PathType::Denied => PolicyView {
            capabilities: CapabilityView { denied_paths: paths, ..p.capabilities },
            ..p
        },
    }
}

pub open spec fn with_limits(p: PolicyView, l: ResourceLimits) -> PolicyView {
    PolicyView { capabilities: CapabilityView { resource_limits: l, ..p.capabilities }, ..p }
}

impl<C> HopsGui<C> {
    /// The selected profile's content; meaningful when `editing()` is some index.
    pub open spec fn selected_view(&self) -> PolicyView {
        self.profiles@[self.editing()->0]@
    }

    proof fn lemma_edit_keeps_wf(old: Self, new: Self, i: int)
        requires
            old.wf(),
            0 <= i < old.profiles@.len(),
            new.profiles@.len() == old.profiles@.len(),
            new.profiles@[i].wf(),
            forall|j: int| 0 <= j < old.profiles@.len() && j != i ==> new.profiles@[j] == old.profiles@[j],
        ensures
            new.wf(),
    {
        assert forall|j: int| 0 <= j < new.profiles@.len() implies (
        #[trigger] new.profiles@[j]).wf() by {
            if j != i {
                assert(new.profiles@[j] == old.profiles@[j]);
            }
        }
    }

    /// Sets the network level of the selected profile. Without one: no change.
    pub fn set_network(&mut self, capability: NetworkCapability)
        requires
            old(self).wf(),
        ensures
            final(self).wf(),
            Self::network_set(*old(self), *final(self), capability),
    {
        if let Some(idx) = self.selected_profile {
            if idx < self.profiles.len() {
                assert(self.profiles@[idx as int].wf());
                self.profiles[idx].capabilities.network = capability;
                proof {
                    Self::lemma_edit_keeps_wf(*old(self), *self, idx as int);
                }
            }
        }
    }

    /// Switches one filesystem flag of the selected profile. Without one: no change.
    pub fn toggle_filesystem(&mut self, capability: FilesystemCapability)
        requires
            old(self).wf(),
        ensures
            final(self).wf(),
            Self::filesystem_toggled(*old(self), *final(self), capability),
    {
        if let Some(idx) = self.selected_profile {
            if idx < self.profiles.len() {
                assert(self.profiles@[idx as int].wf());
                let ghost before = self.profiles@[idx as int].capabilities.filesystem@;
                let mut k: usize = 0;
                let n = self.profiles[idx].capabilities.filesystem.len();
                while k < n
                    invariant
                        idx < self.profiles@.len(),
                        n == self.profiles@[idx as int].capabilities.filesystem@.len(),
                        k <= n,
                        forall|j: int|
                            0 <= j < k ==> self.profiles@[idx as int].capabilities.filesystem@[j]
                                != capability,
                    ensures
                        k <= n,
                        k < n ==> self.profiles@[idx as int].capabilities.filesystem@[k as int]
                            == capability,
                        forall|j: int|
                            0 <= j < k ==> self.profiles@[idx as int].capabilities.filesystem@[j]
                                != capability,
                    decreases n - k,
                {
                    if self.profiles[idx].capabilities.filesystem[k] == capability {
                        break;
                    }
                    k = k + 1;
                }
                if k < n {
                    self.profiles[idx].capabilities.filesystem.remove(k);
                    let ghost after = self.profiles@[idx as int].capabilities.filesystem@;
                    assert(after.to_set() =~= before.to_set().remove(capability)) by {
                        assert forall|x: FilesystemCapability| #[trigger]
                            after.to_set().contains(x) == before.to_set().remove(
                                capability,
                            ).contains(x) by {
                            if after.to_set().contains(x) {
                                let j = choose|j: int| 0 <= j < after.len() && after[j] == x;
                                if j < k {
                                    assert(before[j] == x);
                                } else {
                                    assert(before[j + 1] == x);
                                    assert(before[k as int] == capability);
                                    assert(j + 1 != k);
                                }
                            }
                            if before.to_set().remove(capability).contains(x) {
                                let j = choose|j: int| 0 <= j < before.len() && before[j] == x;
                                if j < k {
                                    assert(after[j] == x);
                                } else if j > k {
                                    assert(after[j - 1] == x);
                                }
                            }
                        }
                    }
                    assert(after.no_duplicates()) by {
                        assert forall|a: int, b: int|
                            0 <= a < after.len() && 0 <= b < after.len() && a != b implies after[a]
                            != after[b] by {
                            let a2 = if a < k {
                                a
                            } else {
                                a + 1
                            };
                            let b2 = if b < k {
                                b
                            } else {
                                b + 1
                            };
                            assert(after[a] == before[a2]);
                            assert(after[b] == before[b2]);
                        }
                    }
                } else {
                    self.profiles[idx].capabilities.filesystem.push(capability);
                    let ghost after = self.profiles@[idx as int].capabilities.filesystem@;
                    assert(after =~= before.push(capability));
                    assert(after.to_set() =~= before.to_set().insert(capability)) by {
                        assert forall|x: FilesystemCapability| #[trigger]
                            after.to_set().contains(x) == before.to_set().insert(
                                capability,
                            ).contains(x) by {
                            if after.to_set().contains(x) {
                                let j = choose|j: int| 0 <= j < after.len() && after[j] == x;
                                if j < before.len() {
                                    assert(before[j] == x);
                                }
                            }
                            if before.to_set().contains(x) {
                                let j = choose|j: int| 0 <= j < before.len() && before[j] == x;
                                assert(after[j] == x);
                            }
                            if x == capability {
                                assert(after[before.len() as int] == x);
                            }
                        }
                    }
                    assert(!before.to_set().contains(capability));
                }
                proof {
                    Self::lemma_edit_keeps_wf(*old(self), *self, idx as int);
                }
            }
        }
    }
}

impl<C> HopsGui<C> {
    /// Records what is typed into one path input.
    pub fn set_path_input(&mut self, path_type: PathType, value: String)
        ensures
            Self::path_typed(*old(self), *final(self), path_type, value),
    {
        match path_type {
            PathType::Allowed => self.path_inputs.allowed_input = value,
            PathType::Denied => self.path_inputs.denied_input = value,
        }
    }

    /// Adds the typed path to the selected profile's list of that kind. Blank
    /// text records "Path cannot be empty" under the list's key and changes
    /// nothing else. Otherwise the key's error is cleared and, with a profile
    /// selected, the path is appended and its input emptied.
    pub fn add_path(&mut self, path_type: PathType)
        requires
            old(self).wf(),
        ensures
            final(self).wf(),
            Self::path_added(*old(self), *final(self), path_type),
    {
        let (field, present) = match path_type {
            PathType::Allowed => (Field::AllowedPath, is_present(self.path_inputs.allowed_input.as_str())),
            PathType::Denied => (Field::DeniedPath, is_present(self.path_inputs.denied_input.as_str())),
        };
        if !present {
            self.validation_errors.insert(field, String::from_str("Path cannot be empty"));
            return ;
        }
        self.validation_errors.remove(field);
        if let Some(idx) = self.selected_profile {
            if idx < self.profiles.len() {
                assert(self.profiles@[idx as int].wf());
                match path_type {
                    PathType::Allowed => {
                        let path = self.path_inputs.allowed_input.clone();
                        self.profiles[idx].capabilities.allowed_paths.push(path);
                        self.path_inputs.allowed_input = String::new();
                    },
                    PathType::Denied => {
                        let path = self.path_inputs.denied_input.clone();
                        self.profiles[idx].capabilities.denied_paths.push(path);
                        self.path_inputs.denied_input = String::new();
                    },
                }
                proof {
                    Self::lemma_edit_keeps_wf(*old(self), *self, idx as int);
                    let p = self.profiles@[idx as int];
                    let q = old(self).profiles@[idx as int];
                    match path_type {
                        PathType::Allowed => {
                            assert(texts(p.capabilities.allowed_paths@) =~= texts(
                                q.capabilities.allowed_paths@,
                            ).push(old(self).path_inputs.allowed_input@));
                        },
                        PathType::Denied => {
                            assert(texts(p.capabilities.denied_paths@) =~= texts(
                                q.capabilities.denied_paths@,
                            ).push(old(self).path_inputs.denied_input@));
                        },
                    }
                }
            }
        }
    }

    /// Removes entry `index` of the selected profile's path list of that kind.
    /// Without a selected profile, or out of range: no change.
    pub fn remove_path(&mut self, path_type: PathType, index: usize)
        requires
            old(self).wf(),
        ensures
            final(self).wf(),
            Self::path_removed(*old(self), *final(self), path_type, index),
    {
        if let Some(idx) = self.selected_profile {
            if idx < self.profiles.len() {
                assert(self.profiles@[idx as int].wf());
                let q = Ghost(self.profiles@[idx as int]);
                match path_type {
                    PathType::Allowed => {
                        if index < self.profiles[idx].capabilities.allowed_paths.len() {
                            self.profiles[idx].capabilities.allowed_paths.remove(index);
                            assert(texts(self.profiles@[idx as int].capabilities.allowed_paths@)
                                =~= texts(q@.capabilities.allowed_paths@).remove(index as int));
                        }
                    },
                    PathType::Denied => {
                        if index < self.profiles[idx].capabilities.denied_paths.len() {
                            self.profiles[idx].capabilities.denied_paths.remove(index);
                            assert(texts(self.profiles@[idx as int].capabilities.denied_paths@)
                                =~= texts(q@.capabilities.denied_paths@).remove(index as int));
                        }
                    },
                }
                proof {
                    Self::lemma_edit_keeps_wf(*old(self), *self, idx as int);
                }
            }
        }
    }

    /// Sets the selected profile's CPU limit. Without one: no change.
    pub fn set_cpus(&mut self, cpus: u32)
        requires
            old(self).wf(),
        ensures
            final(self).wf(),
            Self::cpus_set(*old(self), *final(self), cpus),
    {
        if let Some(idx) = self.selected_profile {
            if idx < self.profiles.len() {
                assert(self.profiles@[idx as int].wf());
                self.profiles[idx].capabilities.resource_limits.cpus = Some(cpus);
                proof {
                    Self::lemma_edit_keeps_wf(*old(self), *self, idx as int);
                }
            }
        }
    }
}

pub open spec fn other_path_type(t: PathType) -> PathType {
    match t {
        PathType::Allowed => PathType::Denied,
        PathType::Denied => PathType::Allowed,
    }
}

impl<C> HopsGui<C> {
    /// Takes the memory field's text, read in the current unit. With a
    /// profile selected: a number sets the memory limit to that many bytes,
    /// empty text removes the limit (both clear the field's error), anything
    /// else records "Must be a number" and keeps the limit. The text is kept
    /// for display in every case.
    pub fn set_memory(&mut self, value: String)
        requires
            old(self).wf(),
        ensures
            final(self).wf(),
            Self::memory_set(*old(self), *final(self), value),
    {
        let parsed = parse_memory(value.as_str(), self.memory_unit);
        self.memory_display_value = MemoryDisplay::Text(value);
        if let Some(idx) = self.selected_profile {
            if idx < self.profiles.len() {
                assert(self.profiles@[idx as int].wf());
                match parsed {
                    MemoryInput::Bytes(b) => {
                        self.profiles[idx].capabilities.resource_limits.memory_bytes = Some(b);
                        self.validation_errors.remove(Field::MemoryBytes);
                    },
                    MemoryInput::Unset => {
                        self.profiles[idx].capabilities.resource_limits.memory_bytes = None;
                        self.validation_errors.remove(Field::MemoryBytes);
                    },
                    MemoryInput::Invalid => {
                        self.validation_errors.insert(
                            Field::MemoryBytes,
                            String::from_str("Must be a number"),
                        );
                    },
                }
                proof {
                    Self::lemma_edit_keeps_wf(*old(self), *self, idx as int);
                }
            }
        }
    }

    /// Changes the unit memory is shown and typed in. With a profile selected
    /// that has a memory limit, the field shows that limit.
    pub fn set_memory_unit(&mut self, unit: MemoryUnit)
        ensures
            Self::unit_set(*old(self), *final(self), unit),
    {
        self.memory_unit = unit;
        if let Some(idx) = self.selected_profile {
            if idx < self.profiles.len() {
                if let Some(bytes) = self.profiles[idx].capabilities.resource_limits.memory_bytes {
                    self.memory_display_value = MemoryDisplay::Bytes(bytes);
                }
            }
        }
    }

    /// Takes the process-count field's text. With a profile selected: a
    /// non-negative 32-bit integer becomes the limit and clears the field's
    /// error; anything else records "Must be a positive number".
    pub fn set_max_processes(&mut self, value: String)
        requires
            old(self).wf(),
        ensures
            final(self).wf(),
            Self::max_processes_set(*old(self), *final(self), value),
    {
        if let Some(idx) = self.selected_profile {
            if idx < self.profiles.len() {
                assert(self.profiles@[idx as int].wf());
                match parse_max_processes(value.as_str()) {
                    Some(max) => {
                        self.profiles[idx].capabilities.resource_limits.max_processes = Some(max);
                        self.validation_errors.remove(Field::MaxProcesses);
                    },
                    None => {
                        self.validation_errors.insert(
                            Field::MaxProcesses,
                            String::from_str("Must be a positive number"),
                        );
                    },
                }
                proof {
                    Self::lemma_edit_keeps_wf(*old(self), *self, idx as int);
                }
            }
        }
    }

    /// Renames the selected profile. Blank text records "Name cannot be
    /// empty" and keeps the name; other text clears the name error and
    /// becomes the name as typed. Without a selected profile: no change.
    pub fn set_name(&mut self, name: String)
        requires
            old(self).wf(),
        ensures
            final(self).wf(),
            Self::renamed_to(*old(self), *final(self), name),
    {
        if let Some(idx) = self.selected_profile {
            if idx < self.profiles.len() {
                assert(self.profiles@[idx as int].wf());
                if !is_present(name.as_str()) {
                    self.validation_errors.insert(
                        Field::Name,
                        String::from_str("Name cannot be empty"),
                    );
                } else {
                    self.validation_errors.remove(Field::Name);
                    self.profiles[idx].name = name;
                }
                proof {
                    Self::lemma_edit_keeps_wf(*old(self), *self, idx as int);
                }
            }
        }
    }
}

/// The request that runs the words of `command` under `policy`, with
/// working directory `/`.
pub open spec fn is_run_request(r: RunRequest, policy: Policy, command: Seq<char>) -> bool {
    &&& r.command@.map_values(|w: String| w@) == words(command)
    &&& r.policy_path is None
        &&& (r.inline_policy matches Some(w) && wire_policy_of(policy, w))
    &&& r.environment@.len() == 0
        &&& (r.working_directory matches Some(d) && d@ == "/"@)
    &&& !r.keep
    &&& !r.allocate_tty
}

impl<C> HopsGui<C> {
    /// With no outstanding validation error and a profile selected, that
    /// profile is handed out to be written under its name; otherwise nothing
    /// happens. The state does not change.
    pub fn save_profile(&self) -> (r: Effect<C>)
        requires
            self.wf(),
        ensures
            (self.validation_errors@ == Map::<Field, Seq<char>>::empty()
                && self.editing() is Some) ==> (r matches Effect::SaveProfile { name, policy }
                && name@ == self.selected_view().name && policy@ == self.selected_view()
                && policy.wf()),
            !(self.validation_errors@ == Map::<Field, Seq<char>>::empty()
                && self.editing() is Some) ==> r is Nothing,
    {
        if self.validation_errors.is_empty() {
            if let Some(idx) = self.selected_profile {
                if idx < self.profiles.len() {
                    assert(self.profiles@[idx as int].wf());
                    let policy = self.profiles[idx].snapshot();
                    return Effect::SaveProfile { name: self.profiles[idx].name.clone(), policy };
                }
            }
        }
        Effect::Nothing
    }

    /// Shows `mode`. The profile list drops the selection. The run history,
    /// when the client is at hand, takes it out to list every sandbox,
    /// stopped ones included, and marks the history as loading.
    pub fn switch_view(&mut self, mode: ViewMode) -> (r: Effect<C>)
        ensures
            Self::switched(*old(self), *final(self), mode, r),
    {
        self.view_mode = mode;
        if mode == ViewMode::ProfileList {
            self.selected_profile = None;
        } else if mode == ViewMode::RunHistory && self.grpc_client.is_some() {
            self.loading_state = LoadingState::LoadingHistory;
            let client = self.grpc_client.take().unwrap();
            return Effect::ListSandboxes { client, request: ListRequest { include_stopped: true } };
        }
        Effect::Nothing
    }

    pub open spec fn switched(old: Self, new: Self, mode: ViewMode, r: Effect<C>) -> bool {
        if mode == ViewMode::ProfileList {
            new == (HopsGui { view_mode: mode, selected_profile: None, ..old }) && r is Nothing
        } else if mode == ViewMode::RunHistory && old.grpc_client is Some {
            &&& new == (HopsGui {
                view_mode: mode,
                loading_state: LoadingState::LoadingHistory,
                grpc_client: None,
                ..old
            })
            &&& r == Effect::ListSandboxes {
                client: old.grpc_client->0,
                request: ListRequest { include_stopped: true },
            }
        } else {
            new == (HopsGui { view_mode: mode, ..old }) && r is Nothing
        }
    }

    pub fn set_history_filter(&mut self, filter: String)
        ensures
            Self::filter_set(*old(self), *final(self), filter),
    {
        self.history_filter = filter;
    }

    /// Takes the outcome of connecting: a client is kept and the daemon
    /// marked connected; a failure marks it offline. There is no retry.
    pub fn client_connected(&mut self, result: Result<C, String>)
        ensures
            Self::connected(*old(self), *final(self), result),
    {
        match result {
            Ok(client) => {
                self.grpc_client = Some(client);
                self.daemon_status = DaemonStatus::Connected;
            },
            Err(_) => {
                self.daemon_status = DaemonStatus::Offline;
            },
        }
    }

    pub open spec fn connected(old: Self, new: Self, result: Result<C, String>) -> bool {
        match result {
            Ok(c) => new == (HopsGui {
                grpc_client: Some(c),
                daemon_status: DaemonStatus::Connected,
                ..old
            }),
            Err(_) => new == (HopsGui { daemon_status: DaemonStatus::Offline, ..old }),
        }
    }

    /// With profile `profile_idx` present and the client at hand, takes the
    /// client out to run the words of `command` under that profile and marks
    /// a run as in progress. Otherwise nothing changes.
    pub fn run_sandbox(&mut self, profile_idx: usize, command: String) -> (r: Effect<C>)
        ensures
            Self::run_started(*old(self), *final(self), profile_idx, command@, r),
    {
        if profile_idx < self.profiles.len() && self.grpc_client.is_some() {
            let client = self.grpc_client.take().unwrap();
            self.loading_state = LoadingState::RunningSandbox;
            let parts = split_words(command.as_str());
            let mut dir = String::new();
            dir.append("/");
            let request = build_run_request(&self.profiles[profile_idx], parts, Some(dir));
            return Effect::RunSandbox { client, request };
        }
        Effect::Nothing
    }

    pub open spec fn run_started(
        old: Self,
        new: Self,
        profile_idx: usize,
        command: Seq<char>,
        r: Effect<C>,
    ) -> bool {
        if profile_idx < old.profiles@.len() && old.grpc_client is Some {
            &&& new == (HopsGui {
                loading_state: LoadingState::RunningSandbox,
                grpc_client: None,
                ..old
            })
            &&& r matches Effect::RunSandbox { client, request }
            &&& client == old.grpc_client->0
            &&& is_run_request(request, old.profiles@[profile_idx as int], command)
        } else {
            new == old && r is Nothing
        }
    }

    /// Takes back the client after a run; the outcome is not shown.
    pub fn run_finished(&mut self, result: Result<String, String>, client: C)
        ensures
            Self::run_done(*old(self), *final(self), result, client),
    {
        self.grpc_client = Some(client);
        self.loading_state = LoadingState::Idle;
        match result {
            Ok(_) => {},
            Err(_) => {},
        }
    }

    /// With the client at hand, takes it out to stop `sandbox_id` without
    /// forcing. Otherwise nothing changes.
    pub fn stop_sandbox(&mut self, sandbox_id: String) -> (r: Effect<C>)
        ensures
            Self::stop_started(*old(self), *final(self), sandbox_id, r),
    {
        if self.grpc_client.is_some() {
            let client = self.grpc_client.take().unwrap();
            return Effect::StopSandbox { client, request: StopRequest { sandbox_id, force: false } };
        }
        Effect::Nothing
    }

    pub open spec fn stop_started(old: Self, new: Self, sandbox_id: String, r: Effect<C>) -> bool {
        if old.grpc_client is Some {
            &&& new == (HopsGui { grpc_client: None, ..old })
            &&& r == Effect::StopSandbox {
                client: old.grpc_client->0,
                request: StopRequest { sandbox_id, force: false },
            }
        } else {
            new == old && r is Nothing
        }
    }

    /// Takes back the client after a stop; the outcome is not shown.
    pub fn stop_finished(&mut self, result: Result<(), String>, client: C)
        ensures
            Self::stop_done(*old(self), *final(self), result, client),
    {
        self.grpc_client = Some(client);
        match result {
            Ok(_) => {},
            Err(_) => {},
        }
    }

    /// Takes back the client after listing; a listing replaces the history,
    /// a failure leaves it as it was.
    pub fn history_loaded(&mut self, result: Result<Vec<RunRecord>, String>, client: C)
        ensures
            Self::history_received(*old(self), *final(self), result, client),
    {
        self.grpc_client = Some(client);
        self.loading_state = LoadingState::Idle;
        match result {
            Ok(history) => {
                self.run_history = history;
            },
            Err(_) => {},
        }
    }

    pub open spec fn history_received(
        old: Self,
        new: Self,
        result: Result<Vec<RunRecord>, String>,
        client: C,
    ) -> bool {
        new == (HopsGui {
            grpc_client: Some(client),
            loading_state: LoadingState::Idle,
            run_history: match result {
                Ok(h) => h,
                Err(_) => old.run_history,
            },
            ..old
        })
    }
}

/// The state before and after each transition; the method of the same
/// transition documents it.
impl<C> HopsGui<C> {
    pub open spec fn loaded(old: Self, new: Self, profiles: Vec<Policy>) -> bool {
        &&& new == (HopsGui { profiles, ..old })
    }

    pub open spec fn selected(old: Self, new: Self, index: usize) -> bool {
        &&& new == (HopsGui {
            selected_profile: Some(index),
            view_mode: ViewMode::ProfileEditor,
            path_inputs: new.path_inputs,
            validation_errors: new.validation_errors,
            memory_display_value: new.memory_display_value,
            ..old
        })
        &&& new.path_inputs.is_cleared()
        &&& new.validation_errors@ == Map::<Field, Seq<char>>::empty()
        &&& index < old.profiles@.len() ==> match old.profiles@[index as int].capabilities.resource_limits.memory_bytes {
            Some(b) => new.memory_display_value == MemoryDisplay::Bytes(b),
            None => new.memory_display_value matches MemoryDisplay::Text(t)
                && t@.len() == 0,
        }
        &&& index >= old.profiles@.len() ==> new.memory_display_value == old.memory_display_value
    }

    pub open spec fn created(old: Self, new: Self) -> bool {
        if old.profiles@.len() == usize::MAX {
            new == old
        } else {
            &&& new == (HopsGui {
                profiles: new.profiles,
                selected_profile: Some(old.profiles@.len() as usize),
                view_mode: ViewMode::ProfileEditor,
                path_inputs: new.path_inputs,
                validation_errors: new.validation_errors,
                memory_display_value: new.memory_display_value,
                ..old
            })
            &&& new.profiles@.len() == old.profiles@.len() + 1
            &&& new.profiles@.take(old.profiles@.len() as int) == old.profiles@
            &&& new.profiles@.last()@.name == "profile-"@ + decimal_digits(
                old.profiles@.len() + 1,
            )
            &&& is_fresh_policy(new.profiles@.last()@)
            &&& new.path_inputs.is_cleared()
            &&& new.validation_errors@ == Map::<Field, Seq<char>>::empty()
            &&& new.memory_display_value matches MemoryDisplay::Text(t) && t@.len() == 0
        }
    }

    pub open spec fn deleted(old: Self, new: Self, index: usize) -> bool {
        &&& index >= old.profiles@.len() ==> new == old
        &&& index < old.profiles@.len() ==> {
            &&& new.profiles@ == old.profiles@.remove(index as int)
            &&& new == (HopsGui {
                profiles: new.profiles,
                selected_profile: new.selected_profile,
                view_mode: new.view_mode,
                ..old
            })
            &&& match old.selected_profile {
                Some(s) => if s == index {
                    new.selected_profile is None && new.view_mode
                        == ViewMode::ProfileList
                } else if s > index {
                    new.selected_profile == Some((s - 1) as usize)
                        && new.view_mode == old.view_mode
                } else {
                    new.selected_profile == Some(s) && new.view_mode == old.view_mode
                },
                None => new.selected_profile is None && new.view_mode == old.view_mode,
            }
        }
    }

    pub open spec fn duplicated(old: Self, new: Self, index: usize) -> bool {
        &&& index >= old.profiles@.len() ==> new == old
        &&& index < old.profiles@.len() ==> {
            &&& new == (HopsGui { profiles: new.profiles, ..old })
            &&& new.profiles@.len() == old.profiles@.len() + 1
            &&& new.profiles@.take(old.profiles@.len() as int) == old.profiles@
            &&& new.profiles@.last()@ == old.profiles@[index as int]@.renamed(
                old.profiles@[index as int]@.name + "-copy"@,
            )
        }
    }

    pub open spec fn network_set(old: Self, new: Self, capability: NetworkCapability) -> bool {
        &&& old.editing() is None ==> new == old
        &&& old.editing() is Some ==> Self::edited(
            old,
            new,
            with_network(old.selected_view(), capability),
        )
    }

    pub open spec fn filesystem_toggled(old: Self, new: Self, capability: FilesystemCapability) -> bool {
        &&& old.editing() is None ==> new == old
        &&& old.editing() is Some ==> Self::edited(
            old,
            new,
            with_filesystem(
                old.selected_view(),
                toggled(old.selected_view().capabilities.filesystem, capability),
            ),
        )
    }

    pub open spec fn path_typed(old: Self, new: Self, path_type: PathType, value: String) -> bool {
        &&& new == (HopsGui { path_inputs: new.path_inputs, ..old })
        &&& new.path_inputs.input(path_type) == value@
        &&& new.path_inputs.input(
            other_path_type(path_type),
        ) == old.path_inputs.input(other_path_type(path_type))
    }

    pub open spec fn path_added(old: Self, new: Self, path_type: PathType) -> bool {
        &&& ({
            let input = old.path_inputs.input(path_type);
            let field = path_field(path_type);
            if is_blank(input) {
                &&& new == (HopsGui {
                    validation_errors: new.validation_errors,
                    ..old
                })
                &&& new.validation_errors@ == old.validation_errors@.insert(
                    field,
                    path_error(),
                )
            } else {
                &&& new.validation_errors@ == old.validation_errors@.remove(
                    field,
                )
                &&& old.editing() is None ==> new == (HopsGui {
                    validation_errors: new.validation_errors,
                    ..old
                })
                &&& old.editing() is Some ==> {
                    &&& Self::edited(
                        HopsGui {
                            validation_errors: new.validation_errors,
                            path_inputs: new.path_inputs,
                            ..old
                        },
                        new,
                        with_paths(
                            old.selected_view(),
                            path_type,
                            paths_of(old.selected_view(), path_type).push(input),
                        ),
                    )
                    &&& new.path_inputs.input(path_type).len() == 0
                    &&& new.path_inputs.input(other_path_type(path_type)) == old.path_inputs.input(other_path_type(path_type))
                }
            }
        })
    }

    pub open spec fn path_removed(old: Self, new: Self, path_type: PathType, index: usize) -> bool {
        &&& ({
            let paths = paths_of(old.selected_view(), path_type);
            if old.editing() is Some && index < paths.len() {
                Self::edited(
                    old,
                    new,
                    with_paths(
                        old.selected_view(),
                        path_type,
                        paths.remove(index as int),
                    ),
                )
            } else {
                new == old
            }
        })
    }

    pub open spec fn cpus_set(old: Self, new: Self, cpus: u32) -> bool {
        &&& old.editing() is None ==> new == old
        &&& old.editing() is Some ==> Self::edited(
            old,
            new,
            with_limits(
                old.selected_view(),
                ResourceLimits {
                    cpus: Some(cpus),
                    ..old.selected_view().capabilities.resource_limits
                },
            ),
        )
    }

    pub open spec fn memory_set(old: Self, new: Self, value: String) -> bool {
        &&& new.memory_display_value matches MemoryDisplay::Text(t) && t@ == value@
        &&& ({
            let base = HopsGui {
                memory_display_value: new.memory_display_value,
                ..old
            };
            let limits = old.selected_view().capabilities.resource_limits;
            if old.editing() is None {
                new == base
            } else {
                match memory_input(value@, old.memory_unit) {
                    MemoryInput::Bytes(b) => Self::edited(
                        HopsGui { validation_errors: new.validation_errors, ..base },
                        new,
                        with_limits(
                            old.selected_view(),
                            ResourceLimits { memory_bytes: Some(b), ..limits },
                        ),
                    ) && new.validation_errors@ == old.validation_errors@.remove(Field::MemoryBytes),
                    MemoryInput::Unset => Self::edited(
                        HopsGui { validation_errors: new.validation_errors, ..base },
                        new,
                        with_limits(
                            old.selected_view(),
                            ResourceLimits { memory_bytes: None, ..limits },
                        ),
                    ) && new.validation_errors@ == old.validation_errors@.remove(Field::MemoryBytes),
                    MemoryInput::Invalid => new == (HopsGui {
                        validation_errors: new.validation_errors,
                        ..base
                    }) && new.validation_errors@ == old.validation_errors@.insert(Field::MemoryBytes, number_error()),
                }
            }
        })
    }

    pub open spec fn unit_set(old: Self, new: Self, unit: MemoryUnit) -> bool {
        &&& new == (HopsGui {
            memory_unit: unit,
            memory_display_value: new.memory_display_value,
            ..old
        })
        &&& (old.editing() is Some
            && old.selected_view().capabilities.resource_limits.memory_bytes is Some)
            ==> new.memory_display_value == MemoryDisplay::Bytes(
            old.selected_view().capabilities.resource_limits.memory_bytes->0,
        )
        &&& !(old.editing() is Some
            && old.selected_view().capabilities.resource_limits.memory_bytes is Some)
            ==> new.memory_display_value == old.memory_display_value
    }

    pub open spec fn max_processes_set(old: Self, new: Self, value: String) -> bool {
        &&& old.editing() is None ==> new == old
        &&& old.editing() is Some ==> match u32_text_value(value@) {
            Some(m) => Self::edited(
                HopsGui { validation_errors: new.validation_errors, ..old },
                new,
                with_limits(
                    old.selected_view(),
                    ResourceLimits {
                        max_processes: Some(m),
                        ..old.selected_view().capabilities.resource_limits
                    },
                ),
            ) && new.validation_errors@ == old.validation_errors@.remove(
                Field::MaxProcesses,
            ),
            None => new == (HopsGui {
                validation_errors: new.validation_errors,
                ..old
            }) && new.validation_errors@ == old.validation_errors@.insert(
                Field::MaxProcesses,
                positive_number_error(),
            ),
        }
    }

    pub open spec fn renamed_to(old: Self, new: Self, name: String) -> bool {
        &&& old.editing() is None ==> new == old
        &&& old.editing() is Some ==> if is_blank(name@) {
            new == (HopsGui {
                validation_errors: new.validation_errors,
                ..old
            }) && new.validation_errors@ == old.validation_errors@.insert(
                Field::Name,
                name_error(),
            )
        } else {
            Self::edited(
                HopsGui { validation_errors: new.validation_errors, ..old },
                new,
                old.selected_view().renamed(name@),
            ) && new.validation_errors@ == old.validation_errors@.remove(
                Field::Name,
            )
        }
    }

    pub open spec fn filter_set(old: Self, new: Self, filter: String) -> bool {
        &&& new == (HopsGui { history_filter: filter, ..old })
    }

    pub open spec fn run_done(old: Self, new: Self, result: Result<String, String>, client: C) -> bool {
        &&& new == (HopsGui {
            grpc_client: Some(client),
            loading_state: LoadingState::Idle,
            ..old
        })
    }

    pub open spec fn stop_done(old: Self, new: Self, result: Result<(), String>, client: C) -> bool {
        &&& new == (HopsGui { grpc_client: Some(client), ..old })
    }
}

impl<C> HopsGui<C> {
    /// What one message does to the state and which effect it asks for.
    pub open spec fn step(old: Self, new: Self, message: Message<C>, r: Effect<C>) -> bool {
        match message {
            Message::ProfilesLoaded(profiles) => Self::loaded(old, new, profiles) && r is Nothing,
            Message::ProfileSelected(index) => Self::selected(old, new, index) && r is Nothing,
            Message::CreateNewProfile => Self::created(old, new) && r is Nothing,
            Message::DeleteProfile(index) => Self::deleted(old, new, index) && r is Nothing,
            Message::DuplicateProfile(index) => Self::duplicated(old, new, index) && r is Nothing,
            Message::NetworkCapabilityChanged(c) => Self::network_set(old, new, c) && r is Nothing,
            Message::FilesystemCapabilityToggled(c) => Self::filesystem_toggled(old, new, c)
                && r is Nothing,
            Message::PathInputChanged { path_type, value } => Self::path_typed(
                old,
                new,
                path_type,
                value,
            ) && r is Nothing,
            Message::AddPath { path_type } => Self::path_added(old, new, path_type) && r is Nothing,
            Message::RemovePath { path_type, index } => Self::path_removed(
                old,
                new,
                path_type,
                index,
            ) && r is Nothing,
            Message::CpuChanged(cpus) => Self::cpus_set(old, new, cpus) && r is Nothing,
            Message::MemoryBytesChanged(value) => Self::memory_set(old, new, value) && r is Nothing,
            Message::MemoryUnitChanged(unit) => Self::unit_set(old, new, unit) && r is Nothing,
            Message::MaxProcessesChanged(value) => Self::max_processes_set(old, new, value)
                && r is Nothing,
            Message::NameChanged(name) => Self::renamed_to(old, new, name) && r is Nothing,
            Message::SaveProfile => new == old && (if old.validation_errors@ == Map::<
                Field,
                Seq<char>,
            >::empty() && old.editing() is Some {
                r matches Effect::SaveProfile { name, policy } && name@ == old.selected_view().name
                    && policy@ == old.selected_view()
            } else {
                r is Nothing
            }),
            Message::SwitchView(mode) => Self::switched(old, new, mode, r),
            Message::HistoryFilterChanged(filter) => Self::filter_set(old, new, filter)
                && r is Nothing,
            Message::GrpcClientConnected(result) => Self::connected(old, new, result)
                && r is Nothing,
            Message::RunSandbox { profile_idx, command } => Self::run_started(
                old,
                new,
                profile_idx,
                command@,
                r,
            ),
            Message::RunSandboxResult(result, client) => Self::run_done(old, new, result, client)
                && r is Nothing,
            Message::StopSandbox { sandbox_id } => Self::stop_started(old, new, sandbox_id, r),
            Message::StopSandboxResult(result, client) => Self::stop_done(
                old,
                new,
                result,
                client,
            ) && r is Nothing,
            Message::HistoryLoaded(result, client) => Self::history_received(
                old,
                new,
                result,
                client,
            ) && r is Nothing,
        }
    }

    /// Handles one message. The daemon client has one owner at a time: an
    /// effect that carries it leaves the state without it, and while it is
    /// out a request for another daemon call changes nothing and asks for nothing.
    pub fn update(&mut self, message: Message<C>) -> (r: Effect<C>)
        requires
            old(self).wf(),
            message matches Message::ProfilesLoaded(p) ==> forall|i: int|
                0 <= i < p@.len() ==> (#[trigger] p@[i]).wf(),
        ensures
            final(self).wf(),
            Self::step(*old(self), *final(self), message, r),
            r.holds_client() ==> old(self).grpc_client is Some && final(self).grpc_client is None,
            (old(self).grpc_client is None && (message is RunSandbox || message is StopSandbox))
                ==> *final(self) == *old(self) && r is Nothing,
            old(self).grpc_client is None && message is SwitchView ==> !r.holds_client()
                && final(self).grpc_client is None,
    {
        match message {
            Message::ProfilesLoaded(profiles) => {
                self.load_profiles(profiles);
                Effect::Nothing
            },
            Message::ProfileSelected(index) => {
                self.select_profile(index);
                Effect::Nothing
            },
            Message::CreateNewProfile => {
                self.create_profile();
                Effect::Nothing
            },
            Message::DeleteProfile(index) => {
                self.delete_profile(index);
                Effect::Nothing
            },
            Message::DuplicateProfile(index) => {
                self.duplicate_profile(index);
                Effect::Nothing
            },
            Message::NetworkCapabilityChanged(c) => {
                self.set_network(c);
                Effect::Nothing
            },
            Message::FilesystemCapabilityToggled(c) => {
                self.toggle_filesystem(c);
                Effect::Nothing
            },
            Message::PathInputChanged { path_type, value } => {
                self.set_path_input(path_type, value);
                Effect::Nothing
            },
            Message::AddPath { path_type } => {
                self.add_path(path_type);
                Effect::Nothing
            },
            Message::RemovePath { path_type, index } => {
                self.remove_path(path_type, index);
                Effect::Nothing
            },
            Message::CpuChanged(cpus) => {
                self.set_cpus(cpus);
                Effect::Nothing
            },
            Message::MemoryBytesChanged(value) => {
                self.set_memory(value);
                Effect::Nothing
            },
            Message::MemoryUnitChanged(unit) => {
                self.set_memory_unit(unit);
                Effect::Nothing
            },
            Message::MaxProcessesChanged(value) => {
                self.set_max_processes(value);
                Effect::Nothing
            },
            Message::NameChanged(name) => {
                self.set_name(name);
                Effect::Nothing
            },
            Message::SaveProfile => self.save_profile(),
            Message::SwitchView(mode) => self.switch_view(mode),
            Message::HistoryFilterChanged(filter) => {
                self.set_history_filter(filter);
                Effect::Nothing
            },
            Message::GrpcClientConnected(result) => {
                self.client_connected(result);
                Effect::Nothing
            },
            Message::RunSandbox { profile_idx, command } => self.run_sandbox(profile_idx, command),
            Message::RunSandboxResult(result, client) => {
                self.run_finished(result, client);
                Effect::Nothing
            },
            Message::StopSandbox { sandbox_id } => self.stop_sandbox(sandbox_id),
            Message::StopSandboxResult(result, client) => {
                self.stop_finished(result, client);
                Effect::Nothing
            },
            Message::HistoryLoaded(result, client) => {
                self.history_loaded(result, client);
                Effect::Nothing
            },
        }
    }
}

impl<C> HopsGui<C> {
    /// A name that does not trim to nothing, typed while a profile is
    /// selected, becomes that profile's name as typed and clears the name
    /// error; nothing else changes.
    pub proof fn lemma_name_accepted(old: Self, new: Self, name: String, r: Effect<C>)
        requires
            Self::step(old, new, Message::NameChanged(name), r),
            old.editing() is Some,
            !is_blank(name@),
        ensures
            !new.validation_errors@.contains_key(Field::Name),
            new.validation_errors@ == old.validation_errors@.remove(Field::Name),
            new.profiles@[old.editing()->0]@ == old.selected_view().renamed(name@),
            new.profiles@.len() == old.profiles@.len(),
            forall|j: int|
                0 <= j < old.profiles@.len() && j != old.editing()->0 ==> new.profiles@[j]
                    == old.profiles@[j],
            new.selected_profile == old.selected_profile,
            r is Nothing,
    {
    }

    /// Deleting profile `i` keeps the selection on the same profile: the
    /// deleted one is unselected and the list shown, a later one moves down
    /// by one, an earlier one stays.
    pub proof fn lemma_delete_tracks_selection(
        old: Self,
        new: Self,
        i: usize,
        s: usize,
        r: Effect<C>,
    )
        requires
            Self::step(old, new, Message::DeleteProfile(i), r),
            i < old.profiles@.len(),
            s < old.profiles@.len(),
            old.selected_profile == Some(s),
        ensures
            new.profiles@ == old.profiles@.remove(i as int),
            s == i ==> new.selected_profile is None && new.view_mode == ViewMode::ProfileList,
            s > i ==> new.selected_profile == Some((s - 1) as usize) && new.profiles@[s - 1]
                == old.profiles@[s as int] && new.view_mode == old.view_mode,
            s < i ==> new.selected_profile == Some(s) && new.profiles@[s as int]
                == old.profiles@[s as int] && new.view_mode == old.view_mode,
    {
    }

    /// An effect that carries the daemon client leaves the state without it.
    pub proof fn lemma_call_takes_client(old: Self, new: Self, m: Message<C>, r: Effect<C>)
        requires
            Self::step(old, new, m, r),
            r.holds_client(),
        ensures
            old.grpc_client is Some,
            new.grpc_client is None,
    {
    }

    /// While a daemon call is in flight the client is out of the state; a
    /// request for another call then asks for nothing and changes nothing
    /// but the view shown.
    pub proof fn lemma_call_refused_in_flight(old: Self, new: Self, m: Message<C>, r: Effect<C>)
        requires
            Self::step(old, new, m, r),
            old.grpc_client is None,
            m is RunSandbox || m is StopSandbox || m == Message::<C>::SwitchView(
                ViewMode::RunHistory,
            ),
        ensures
            r is Nothing,
            new.grpc_client is None,
            new == (HopsGui { view_mode: new.view_mode, ..old }),
    {
    }

    /// The completion of a call hands its client back to the state.
    pub proof fn lemma_completion_returns_client(
        old: Self,
        new: Self,
        m: Message<C>,
        r: Effect<C>,
    )
        requires
            Self::step(old, new, m, r),
            m is RunSandboxResult || m is StopSandboxResult || m is HistoryLoaded,
        ensures
            r is Nothing,
            m matches Message::RunSandboxResult(_, c) ==> new.grpc_client == Some(c)
                && new.loading_state == LoadingState::Idle,
            m matches Message::StopSandboxResult(_, c) ==> new.grpc_client == Some(c),
            m matches Message::HistoryLoaded(res, c) ==> new.grpc_client == Some(c)
                && new.loading_state == LoadingState::Idle && (res matches Ok(h) ==> new.run_history
                == h) && (res is Err ==> new.run_history == old.run_history),
    {
    }

    /// Adding a path from blank input records "Path cannot be empty" under
    /// that list's key and changes nothing else.
    pub proof fn lemma_blank_path_rejected(old: Self, new: Self, t: PathType, r: Effect<C>)
        requires
            Self::step(old, new, Message::AddPath { path_type: t }, r),
            is_blank(old.path_inputs.input(t)),
        ensures
            new.validation_errors@ == old.validation_errors@.insert(path_field(t), path_error()),
            new == (HopsGui { validation_errors: new.validation_errors, ..old }),
            r is Nothing,
    {
    }
}

impl<C> HopsGui<C> {
    /// Memory text typed while a profile is selected: a non-negative number
    /// sets the limit to its exact byte count in the current unit (rounded
    /// down, held to `u64`), and empty text removes the limit whatever it
    /// was; both clear the memory error.
    pub proof fn lemma_memory_accepted(old: Self, new: Self, value: String, r: Effect<C>)
        requires
            Self::step(old, new, Message::MemoryBytesChanged(value), r),
            old.editing() is Some,
        ensures
            ({
                let limit = new.profiles@[old.editing()->0]@.capabilities.resource_limits.memory_bytes;
                &&& value@.len() == 0 ==> limit is None && !new.validation_errors@.contains_key(
                    Field::MemoryBytes,
                )
                &&& scaled_float(value@, unit_multiplier(old.memory_unit)) matches Some(b)
                    ==> limit == Some(b) && !new.validation_errors@.contains_key(Field::MemoryBytes)
            }),
    {
        if value@.len() == 0 {
            assert(signed_body(value@) == (false, value@));
            assert(decimal_parts(value@) is None);
            assert(!(exists|i: int|
                0 <= i < value@.len() && is_exponent_mark(value@[i]) && decimal_parts(
                    value@.take(i),
                ) is Some && exponent_value(value@.skip(i + 1)) is Some));
            assert(!is_word(value@, "nan"@)) by {
                reveal_strlit("nan");
            }
            assert(!is_word(value@, "inf"@)) by {
                reveal_strlit("inf");
            }
            assert(!is_word(value@, "infinity"@)) by {
                reveal_strlit("infinity");
            }
        }
    }
}

} // verus!
