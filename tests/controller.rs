use hops_gui::capability::{FilesystemCapability, NetworkCapability};
use hops_gui::controller::{
    format_timestamp, records_from_listing, DaemonStatus, Effect, HopsGui, LoadingState,
    MemoryDisplay, Message, PathType, ViewMode,
};
use hops_gui::policy::Policy;
use hops_gui::validation::{Field, MemoryUnit};
use hops_gui::wire::WireNetworkAccess;

#[derive(Debug, PartialEq)]
struct Client(u32);

fn named(name: &str) -> Policy {
    let mut p = Policy::default();
    p.name = name.to_string();
    p
}

fn gui_with(names: &[&str]) -> HopsGui<Client> {
    HopsGui::new(names.iter().map(|n| named(n)).collect())
}

fn names(gui: &HopsGui<Client>) -> Vec<String> {
    gui.profiles.iter().map(|p| p.name.clone()).collect()
}

fn is_nothing(e: &Effect<Client>) -> bool {
    matches!(e, Effect::Nothing)
}

#[test]
fn new_state_shows_profile_list() {
    let gui = gui_with(&["a"]);
    assert_eq!(gui.view_mode, ViewMode::ProfileList);
    assert_eq!(gui.selected_profile, None);
    assert_eq!(gui.daemon_status, DaemonStatus::Unknown);
    assert_eq!(gui.loading_state, LoadingState::Idle);
    assert_eq!(gui.memory_unit, MemoryUnit::MB);
    assert!(gui.grpc_client.is_none());
    assert!(gui.validation_errors.is_empty());
    assert_eq!(gui.title(), "Hops - Profile Management");
}

#[test]
fn create_profile_when_two_exist() {
    let mut gui = gui_with(&["a", "b"]);
    gui.validation_errors.insert(Field::Name, "Name cannot be empty".to_string());
    let e = gui.update(Message::CreateNewProfile);
    assert!(is_nothing(&e));
    assert_eq!(gui.profiles.len(), 3);
    assert_eq!(gui.profiles[2].name, "profile-3");
    assert_eq!(gui.profiles[2].version, "1.0.0");
    assert_eq!(gui.selected_profile, Some(2));
    assert_eq!(gui.view_mode, ViewMode::ProfileEditor);
    assert!(gui.validation_errors.is_empty());
}

#[test]
fn create_profile_in_empty_list() {
    let mut gui = gui_with(&[]);
    gui.update(Message::CreateNewProfile);
    assert_eq!(gui.profiles[0].name, "profile-1");
    gui.update(Message::CreateNewProfile);
    assert_eq!(names(&gui), vec!["profile-1", "profile-2"]);
    assert_eq!(gui.selected_profile, Some(1));
}

#[test]
fn delete_selected_profile_clears_selection() {
    let mut gui = gui_with(&["a", "b", "c"]);
    gui.update(Message::ProfileSelected(1));
    gui.update(Message::DeleteProfile(1));
    assert_eq!(names(&gui), vec!["a", "c"]);
    assert_eq!(gui.selected_profile, None);
    assert_eq!(gui.view_mode, ViewMode::ProfileList);
}

#[test]
fn delete_before_selection_shifts_it() {
    let mut gui = gui_with(&["a", "b", "c"]);
    gui.update(Message::ProfileSelected(2));
    gui.update(Message::DeleteProfile(0));
    assert_eq!(gui.selected_profile, Some(1));
    assert_eq!(gui.profiles[1].name, "c");
    assert_eq!(gui.view_mode, ViewMode::ProfileEditor);
}

#[test]
fn delete_after_selection_keeps_it() {
    let mut gui = gui_with(&["a", "b", "c"]);
    gui.update(Message::ProfileSelected(0));
    gui.update(Message::DeleteProfile(2));
    assert_eq!(gui.selected_profile, Some(0));
    assert_eq!(names(&gui), vec!["a", "b"]);
}

#[test]
fn delete_every_index_for_every_selection() {
    for count in 1..5usize {
        for i in 0..count {
            for s in 0..count {
                let all: Vec<String> = (0..count).map(|k| format!("p{}", k)).collect();
                let refs: Vec<&str> = all.iter().map(|x| x.as_str()).collect();
                let mut gui = gui_with(&refs);
                gui.update(Message::ProfileSelected(s));
                gui.update(Message::DeleteProfile(i));
                assert_eq!(gui.profiles.len(), count - 1);
                if s == i {
                    assert_eq!(gui.selected_profile, None);
                    assert_eq!(gui.view_mode, ViewMode::ProfileList);
                } else if s > i {
                    assert_eq!(gui.selected_profile, Some(s - 1));
                } else {
                    assert_eq!(gui.selected_profile, Some(s));
                }
            }
        }
    }
}

#[test]
fn delete_out_of_range_changes_nothing() {
    let mut gui = gui_with(&["a"]);
    gui.update(Message::ProfileSelected(0));
    gui.update(Message::DeleteProfile(5));
    assert_eq!(names(&gui), vec!["a"]);
    assert_eq!(gui.selected_profile, Some(0));
}

#[test]
fn duplicate_appends_copy() {
    let mut gui = gui_with(&["web", "db"]);
    gui.update(Message::ProfileSelected(0));
    gui.update(Message::AddPath { path_type: PathType::Allowed });
    gui.update(Message::PathInputChanged { path_type: PathType::Allowed, value: "/srv".to_string() });
    gui.update(Message::AddPath { path_type: PathType::Allowed });
    gui.update(Message::DuplicateProfile(0));
    assert_eq!(names(&gui), vec!["web", "db", "web-copy"]);
    assert_eq!(gui.profiles[2].capabilities.allowed_paths, vec!["/srv".to_string()]);
    assert_eq!(gui.selected_profile, Some(0));
    gui.update(Message::DuplicateProfile(9));
    assert_eq!(gui.profiles.len(), 3);
}

#[test]
fn add_empty_allowed_path() {
    let mut gui = gui_with(&["a"]);
    gui.update(Message::ProfileSelected(0));
    gui.update(Message::PathInputChanged { path_type: PathType::Allowed, value: "".to_string() });
    gui.update(Message::AddPath { path_type: PathType::Allowed });
    assert_eq!(
        gui.validation_errors.get(Field::AllowedPath).map(|s| s.as_str()),
        Some("Path cannot be empty")
    );
    assert_eq!(Field::AllowedPath.key(), "allowed_path");
    assert_eq!(Field::DeniedPath.key(), "denied_path");
    assert_eq!(Field::MemoryBytes.key(), "memory");
    assert_eq!(Field::MaxProcesses.key(), "max_processes");
    assert_eq!(Field::Name.key(), "name");
    assert!(gui.profiles[0].capabilities.allowed_paths.is_empty());
}

#[test]
fn add_blank_denied_path_then_valid_one() {
    let mut gui = gui_with(&["a"]);
    gui.update(Message::ProfileSelected(0));
    gui.update(Message::PathInputChanged { path_type: PathType::Denied, value: " \t ".to_string() });
    gui.update(Message::AddPath { path_type: PathType::Denied });
    assert!(gui.validation_errors.get(Field::DeniedPath).is_some());
    gui.update(Message::PathInputChanged { path_type: PathType::Denied, value: "/etc".to_string() });
    gui.update(Message::AddPath { path_type: PathType::Denied });
    assert!(gui.validation_errors.get(Field::DeniedPath).is_none());
    assert_eq!(gui.profiles[0].capabilities.denied_paths, vec!["/etc".to_string()]);
    assert_eq!(gui.path_inputs.denied_input, "");
    gui.update(Message::RemovePath { path_type: PathType::Denied, index: 3 });
    assert_eq!(gui.profiles[0].capabilities.denied_paths.len(), 1);
    gui.update(Message::RemovePath { path_type: PathType::Denied, index: 0 });
    assert!(gui.profiles[0].capabilities.denied_paths.is_empty());
}

#[test]
fn set_memory_512_mb() {
    let mut gui = gui_with(&["a"]);
    gui.update(Message::ProfileSelected(0));
    gui.update(Message::MemoryUnitChanged(MemoryUnit::MB));
    gui.update(Message::MemoryBytesChanged("512".to_string()));
    assert_eq!(gui.profiles[0].capabilities.resource_limits.memory_bytes, Some(536870912));
    assert!(gui.validation_errors.get(Field::MemoryBytes).is_none());
}

#[test]
fn memory_fraction_invalid_and_empty() {
    let mut gui = gui_with(&["a"]);
    gui.update(Message::ProfileSelected(0));
    gui.update(Message::MemoryUnitChanged(MemoryUnit::GB));
    gui.update(Message::MemoryBytesChanged("1.5".to_string()));
    assert_eq!(gui.profiles[0].capabilities.resource_limits.memory_bytes, Some(1610612736));
    gui.update(Message::MemoryBytesChanged("lots".to_string()));
    assert_eq!(
        gui.validation_errors.get(Field::MemoryBytes).map(|s| s.as_str()),
        Some("Must be a number")
    );
    assert_eq!(gui.profiles[0].capabilities.resource_limits.memory_bytes, Some(1610612736));
    gui.update(Message::MemoryBytesChanged("".to_string()));
    assert_eq!(gui.profiles[0].capabilities.resource_limits.memory_bytes, None);
    assert!(gui.validation_errors.is_empty());
    match &gui.memory_display_value {
        MemoryDisplay::Text(t) => assert_eq!(t, ""),
        MemoryDisplay::Bytes(_) => panic!("typed text expected"),
    }
}

#[test]
fn selecting_shows_stored_memory() {
    let mut gui = gui_with(&["a"]);
    gui.profiles[0].capabilities.resource_limits.memory_bytes = Some(2048);
    gui.update(Message::ProfileSelected(0));
    match gui.memory_display_value {
        MemoryDisplay::Bytes(b) => assert_eq!(b, 2048),
        MemoryDisplay::Text(_) => panic!("stored bytes expected"),
    }
}

#[test]
fn set_memory_exponent_form() {
    let mut gui = gui_with(&["a"]);
    gui.update(Message::ProfileSelected(0));
    gui.update(Message::MemoryUnitChanged(MemoryUnit::KB));
    gui.update(Message::MemoryBytesChanged("1e3".to_string()));
    assert_eq!(gui.profiles[0].capabilities.resource_limits.memory_bytes, Some(1024000));
    assert!(gui.validation_errors.get(Field::MemoryBytes).is_none());
    gui.update(Message::MemoryBytesChanged("-2".to_string()));
    assert_eq!(
        gui.validation_errors.get(Field::MemoryBytes).map(|s| s.as_str()),
        Some("Must be a number")
    );
    assert_eq!(gui.profiles[0].capabilities.resource_limits.memory_bytes, Some(1024000));
}

#[test]
fn max_processes_validation() {
    let mut gui = gui_with(&["a"]);
    gui.update(Message::ProfileSelected(0));
    gui.update(Message::MaxProcessesChanged("-3".to_string()));
    assert_eq!(
        gui.validation_errors.get(Field::MaxProcesses).map(|s| s.as_str()),
        Some("Must be a positive number")
    );
    assert_eq!(gui.profiles[0].capabilities.resource_limits.max_processes, None);
    gui.update(Message::MaxProcessesChanged("64".to_string()));
    assert_eq!(gui.profiles[0].capabilities.resource_limits.max_processes, Some(64));
    assert!(gui.validation_errors.is_empty());
}

#[test]
fn name_change_validation() {
    let mut gui = gui_with(&["a"]);
    gui.update(Message::ProfileSelected(0));
    gui.update(Message::NameChanged("   ".to_string()));
    assert_eq!(
        gui.validation_errors.get(Field::Name).map(|s| s.as_str()),
        Some("Name cannot be empty")
    );
    assert_eq!(gui.profiles[0].name, "a");
    gui.update(Message::NameChanged(" build ".to_string()));
    assert!(gui.validation_errors.get(Field::Name).is_none());
    assert_eq!(gui.profiles[0].name, " build ");
}

#[test]
fn name_change_without_selection_is_ignored() {
    let mut gui = gui_with(&["a"]);
    gui.update(Message::NameChanged("".to_string()));
    assert!(gui.validation_errors.is_empty());
    assert_eq!(gui.profiles[0].name, "a");
}

#[test]
fn capability_edits_apply_to_selected_profile() {
    let mut gui = gui_with(&["a", "b"]);
    gui.update(Message::ProfileSelected(1));
    gui.update(Message::NetworkCapabilityChanged(NetworkCapability::Loopback));
    gui.update(Message::FilesystemCapabilityToggled(FilesystemCapability::Read));
    gui.update(Message::FilesystemCapabilityToggled(FilesystemCapability::Write));
    gui.update(Message::FilesystemCapabilityToggled(FilesystemCapability::Read));
    gui.update(Message::CpuChanged(4));
    let caps = &gui.profiles[1].capabilities;
    assert_eq!(caps.network, NetworkCapability::Loopback);
    assert_eq!(caps.filesystem, vec![FilesystemCapability::Write]);
    assert_eq!(caps.resource_limits.cpus, Some(4));
    assert_eq!(gui.profiles[0].capabilities.network, NetworkCapability::Disabled);
}

#[test]
fn save_blocked_by_errors() {
    let mut gui = gui_with(&["a"]);
    gui.update(Message::ProfileSelected(0));
    gui.update(Message::MaxProcessesChanged("x".to_string()));
    assert!(is_nothing(&gui.update(Message::SaveProfile)));
    gui.update(Message::MaxProcessesChanged("8".to_string()));
    match gui.update(Message::SaveProfile) {
        Effect::SaveProfile { name, policy } => {
            assert_eq!(name, "a");
            assert_eq!(policy.capabilities.resource_limits.max_processes, Some(8));
        }
        _ => panic!("save expected"),
    }
}

#[test]
fn history_call_takes_and_returns_client() {
    let mut gui = gui_with(&["a"]);
    gui.update(Message::GrpcClientConnected(Ok(Client(7))));
    assert_eq!(gui.daemon_status, DaemonStatus::Connected);
    let e = gui.update(Message::SwitchView(ViewMode::RunHistory));
    let client = match e {
        Effect::ListSandboxes { client, request } => {
            assert!(request.include_stopped);
            client
        }
        _ => panic!("listing expected"),
    };
    assert!(gui.grpc_client.is_none());
    assert_eq!(gui.loading_state, LoadingState::LoadingHistory);
    let again = gui.update(Message::SwitchView(ViewMode::RunHistory));
    assert!(is_nothing(&again));
    let ids = vec!["sb-1".to_string(), "sb-2".to_string()];
    gui.update(Message::HistoryLoaded(Ok(records_from_listing(&ids)), client));
    assert_eq!(gui.grpc_client, Some(Client(7)));
    assert_eq!(gui.loading_state, LoadingState::Idle);
    assert_eq!(gui.run_history.len(), 2);
    assert_eq!(gui.run_history[1].id, "sb-2");
    assert_eq!(gui.run_history[0].profile_name, "unknown");
    assert_eq!(gui.run_history[0].start_time, "N/A");
    assert_eq!(gui.run_history[0].duration, "unknown");
}

#[test]
fn failed_history_keeps_records() {
    let mut gui = gui_with(&[]);
    gui.update(Message::GrpcClientConnected(Ok(Client(1))));
    let ids = vec!["x".to_string()];
    let client = match gui.update(Message::SwitchView(ViewMode::RunHistory)) {
        Effect::ListSandboxes { client, .. } => client,
        _ => panic!("listing expected"),
    };
    gui.update(Message::HistoryLoaded(Ok(records_from_listing(&ids)), client));
    let client = match gui.update(Message::SwitchView(ViewMode::RunHistory)) {
        Effect::ListSandboxes { client, .. } => client,
        _ => panic!("listing expected"),
    };
    gui.update(Message::HistoryLoaded(Err("down".to_string()), client));
    assert_eq!(gui.run_history.len(), 1);
    assert!(gui.grpc_client.is_some());
}

#[test]
fn second_call_while_in_flight_is_dropped() {
    let mut gui = gui_with(&["a"]);
    gui.update(Message::GrpcClientConnected(Ok(Client(3))));
    let e = gui.update(Message::RunSandbox { profile_idx: 0, command: "ls  -la\t/tmp".to_string() });
    let client = match e {
        Effect::RunSandbox { client, request } => {
            assert_eq!(request.command, vec!["ls", "-la", "/tmp"]);
            assert_eq!(request.working_directory.as_deref(), Some("/"));
            assert!(!request.keep);
            assert!(!request.allocate_tty);
            let policy = request.inline_policy.expect("inline policy");
            let caps = policy.capabilities.expect("capabilities");
            assert_eq!(caps.network, WireNetworkAccess::Disabled);
            client
        }
        _ => panic!("run expected"),
    };
    assert_eq!(gui.loading_state, LoadingState::RunningSandbox);
    let stop = gui.update(Message::StopSandbox { sandbox_id: "sb".to_string() });
    assert!(is_nothing(&stop));
    let run = gui.update(Message::RunSandbox { profile_idx: 0, command: "true".to_string() });
    assert!(is_nothing(&run));
    assert_eq!(gui.loading_state, LoadingState::RunningSandbox);
    gui.update(Message::RunSandboxResult(Err("failed".to_string()), client));
    assert_eq!(gui.grpc_client, Some(Client(3)));
    assert_eq!(gui.loading_state, LoadingState::Idle);
    match gui.update(Message::StopSandbox { sandbox_id: "sb".to_string() }) {
        Effect::StopSandbox { client, request } => {
            assert_eq!(request.sandbox_id, "sb");
            assert!(!request.force);
            gui.update(Message::StopSandboxResult(Ok(()), client));
        }
        _ => panic!("stop expected"),
    }
    assert_eq!(gui.grpc_client, Some(Client(3)));
}

#[test]
fn run_with_missing_profile_keeps_client() {
    let mut gui = gui_with(&["a"]);
    gui.update(Message::GrpcClientConnected(Ok(Client(2))));
    assert!(is_nothing(&gui.update(Message::RunSandbox { profile_idx: 4, command: "ls".to_string() })));
    assert_eq!(gui.grpc_client, Some(Client(2)));
}

#[test]
fn connection_failure_marks_offline() {
    let mut gui = gui_with(&[]);
    gui.update(Message::GrpcClientConnected(Err("no socket".to_string())));
    assert_eq!(gui.daemon_status, DaemonStatus::Offline);
    assert!(gui.grpc_client.is_none());
    let e = gui.update(Message::SwitchView(ViewMode::RunHistory));
    assert!(is_nothing(&e));
    assert_eq!(gui.view_mode, ViewMode::RunHistory);
    assert_eq!(gui.loading_state, LoadingState::Idle);
}

#[test]
fn switching_to_list_drops_selection() {
    let mut gui = gui_with(&["a"]);
    gui.update(Message::ProfileSelected(0));
    gui.update(Message::SwitchView(ViewMode::ProfileList));
    assert_eq!(gui.selected_profile, None);
    gui.update(Message::HistoryFilterChanged("sb".to_string()));
    assert_eq!(gui.history_filter, "sb");
}

#[test]
fn timestamp_text() {
    assert_eq!(format_timestamp(0), "N/A");
    assert_eq!(format_timestamp(1700000000), "timestamp");
}
