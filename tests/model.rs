use hops_gui::capability::{
    default_mount_mode, default_working_directory, FilesystemCapability, MountConfig, MountMode,
    MountType, NetworkCapability,
};
use hops_gui::policy::{default_version, Policy};
use hops_gui::storage::{adopt_stored_profile, profile_file_name, stored_profile_name};
use hops_gui::text::{is_blank_text, parse_scaled_float, parse_u32_text, same_text};
use hops_gui::validation::{parse_max_processes, parse_memory, MemoryInput, MemoryUnit};
use hops_gui::wire::{convert_policy_to_proto, format_memory, GrpcError, WireNetworkAccess};

#[test]
fn default_policy_is_permissive_start() {
    let p = Policy::default();
    assert_eq!(p.name, "default");
    assert_eq!(p.version, "1.0.0");
    assert!(p.description.is_none());
    assert_eq!(p.capabilities.network, NetworkCapability::Disabled);
    assert!(p.capabilities.filesystem.is_empty());
    assert!(p.capabilities.allowed_paths.is_empty());
    assert!(p.capabilities.denied_paths.is_empty());
    assert_eq!(p.capabilities.resource_limits.cpus, None);
    assert_eq!(p.capabilities.resource_limits.memory_bytes, None);
    assert_eq!(p.capabilities.resource_limits.max_processes, None);
    assert_eq!(p.sandbox.root_path, "/");
    assert_eq!(p.sandbox.working_directory, "/");
    assert!(p.sandbox.mounts.is_empty());
    assert!(p.sandbox.environment.is_empty());
    assert!(p.metadata.is_empty());
    assert_eq!(default_version(), "1.0.0");
    assert_eq!(default_working_directory(), "/");
    assert_eq!(default_mount_mode(), MountMode::ReadOnly);
}

#[test]
fn duplicate_renames_and_copies() {
    let mut p = Policy::default();
    p.name = "web".to_string();
    p.description = Some("front".to_string());
    p.sandbox.mounts.push(MountConfig {
        source: "/data".to_string(),
        destination: "/mnt".to_string(),
        mount_type: MountType::Bind,
        mode: MountMode::ReadWrite,
        options: vec!["nosuid".to_string()],
    });
    p.metadata.push(("owner".to_string(), "ops".to_string()));
    let d = p.clone_as_duplicate();
    assert_eq!(d.name, "web-copy");
    assert_eq!(d.description.as_deref(), Some("front"));
    assert_eq!(d.sandbox.mounts.len(), 1);
    assert_eq!(d.sandbox.mounts[0].options, vec!["nosuid".to_string()]);
    assert_eq!(d.metadata, p.metadata);
    assert_eq!(p.name, "web");
}

#[test]
fn network_names() {
    assert_eq!(NetworkCapability::Disabled.as_str(), "disabled");
    assert_eq!(NetworkCapability::Outbound.as_str(), "outbound");
    assert_eq!(NetworkCapability::Loopback.as_str(), "loopback");
    assert_eq!(NetworkCapability::Full.as_str(), "full");
    assert_eq!(NetworkCapability::from_str("outbound"), NetworkCapability::Outbound);
    assert_eq!(NetworkCapability::from_str("loopback"), NetworkCapability::Loopback);
    assert_eq!(NetworkCapability::from_str("full"), NetworkCapability::Full);
    assert_eq!(NetworkCapability::from_str("Full"), NetworkCapability::Disabled);
    assert_eq!(NetworkCapability::from_str(""), NetworkCapability::Disabled);
}

#[test]
fn memory_text_forms() {
    assert_eq!(format_memory(None), "0");
    assert_eq!(format_memory(Some(0)), "0");
    assert_eq!(format_memory(Some(1023)), "1023");
    assert_eq!(format_memory(Some(1024)), "1K");
    assert_eq!(format_memory(Some(1536)), "1K");
    assert_eq!(format_memory(Some(536870912)), "512M");
    assert_eq!(format_memory(Some(1073741824)), "1G");
    assert_eq!(format_memory(Some(3 * 1073741824 + 5)), "3G");
}

#[test]
fn wire_policy_translation() {
    let mut p = Policy::default();
    p.capabilities.network = NetworkCapability::Outbound;
    p.capabilities.filesystem = vec![FilesystemCapability::Execute, FilesystemCapability::Read];
    p.capabilities.allowed_paths = vec!["/usr".to_string(), "/opt".to_string()];
    p.capabilities.denied_paths = vec!["/root".to_string()];
    p.capabilities.resource_limits.cpus = Some(2);
    p.capabilities.resource_limits.memory_bytes = Some(2 * 1024 * 1024);
    p.sandbox.root_path = "/srv/root".to_string();
    let w = convert_policy_to_proto(&p);
    let caps = w.capabilities.expect("capabilities");
    assert_eq!(caps.network, WireNetworkAccess::Outbound);
    let fs = caps.filesystem.expect("filesystem");
    assert_eq!(fs.read, vec!["/usr".to_string(), "/opt".to_string()]);
    assert!(fs.write.is_empty());
    assert_eq!(fs.execute, vec!["/usr".to_string(), "/opt".to_string()]);
    let res = w.resources.expect("resources");
    assert_eq!(res.cpus, 2);
    assert_eq!(res.memory, "2M");
    assert_eq!(res.max_processes, 0);
    assert_eq!(w.sandbox.expect("sandbox").root, "/srv/root");
}

#[test]
fn error_messages() {
    assert_eq!(GrpcError::ConnectionFailed("x".to_string()).message(), "Connection failed: x");
    assert_eq!(GrpcError::RequestFailed("y".to_string()).message(), "Request failed: y");
    assert_eq!(GrpcError::InvalidResponse("z".to_string()).message(), "Invalid response: z");
    match GrpcError::request_failed("ListSandboxes", "timeout") {
        GrpcError::RequestFailed(m) => assert_eq!(m, "ListSandboxes RPC failed: timeout"),
        _ => panic!("request failure expected"),
    }
}

#[test]
fn memory_parsing_in_units() {
    assert_eq!(parse_memory("512", MemoryUnit::MB), MemoryInput::Bytes(536870912));
    assert_eq!(parse_memory("2", MemoryUnit::KB), MemoryInput::Bytes(2048));
    assert_eq!(parse_memory("0.5", MemoryUnit::KB), MemoryInput::Bytes(512));
    assert_eq!(parse_memory(".25", MemoryUnit::GB), MemoryInput::Bytes(268435456));
    assert_eq!(parse_memory("3.", MemoryUnit::Bytes), MemoryInput::Bytes(3));
    assert_eq!(parse_memory("1.9", MemoryUnit::Bytes), MemoryInput::Bytes(1));
    assert_eq!(parse_memory("+7", MemoryUnit::Bytes), MemoryInput::Bytes(7));
    assert_eq!(parse_memory("-7", MemoryUnit::MB), MemoryInput::Invalid);
    assert_eq!(parse_memory("-0", MemoryUnit::MB), MemoryInput::Bytes(0));
    assert_eq!(parse_memory("", MemoryUnit::MB), MemoryInput::Unset);
    assert_eq!(parse_memory(".", MemoryUnit::MB), MemoryInput::Invalid);
    assert_eq!(parse_memory("12a", MemoryUnit::MB), MemoryInput::Invalid);
    assert_eq!(parse_memory("1.2.3", MemoryUnit::MB), MemoryInput::Invalid);
    assert_eq!(parse_memory(" 1", MemoryUnit::MB), MemoryInput::Invalid);
    assert_eq!(
        parse_memory("99999999999999999999999", MemoryUnit::GB),
        MemoryInput::Bytes(u64::MAX)
    );
    assert_eq!(MemoryUnit::all(), vec![MemoryUnit::Bytes, MemoryUnit::KB, MemoryUnit::MB, MemoryUnit::GB]);
    assert_eq!(MemoryUnit::GB.multiplier(), 1073741824);
    assert_eq!(MemoryUnit::KB.label(), "KB");
}

#[test]
fn scaled_float_forms() {
    assert_eq!(parse_scaled_float("0.1", 1048576), Some(104857));
    assert_eq!(parse_scaled_float("18446744073709551615", 1), Some(u64::MAX));
    assert_eq!(parse_scaled_float("18446744073709551616", 1), Some(u64::MAX));
    assert_eq!(parse_scaled_float("-", 1), None);
    assert_eq!(parse_scaled_float("1e3", 1), Some(1000));
    assert_eq!(parse_scaled_float("1e3", 1048576), Some(1048576000));
    assert_eq!(parse_scaled_float("2.5E3", 1), Some(2500));
    assert_eq!(parse_scaled_float("1.e2", 1), Some(100));
    assert_eq!(parse_scaled_float("25e-1", 1), Some(2));
    assert_eq!(parse_scaled_float("5e-1", 1024), Some(512));
    assert_eq!(parse_scaled_float("1e-400", 1073741824), Some(0));
    assert_eq!(parse_scaled_float("1e400", 1), Some(u64::MAX));
    assert_eq!(parse_scaled_float("0e999999999999999999999999999999999999", 1), Some(0));
    assert_eq!(parse_scaled_float("1e+2", 1), Some(100));
    assert_eq!(parse_scaled_float("inf", 1), Some(u64::MAX));
    assert_eq!(parse_scaled_float("+Infinity", 1), Some(u64::MAX));
    assert_eq!(parse_scaled_float("-inf", 1), None);
    assert_eq!(parse_scaled_float("NaN", 1024), Some(0));
    assert_eq!(parse_scaled_float("-nan", 1024), Some(0));
    assert_eq!(parse_scaled_float("-0.0", 1024), Some(0));
    assert_eq!(parse_scaled_float("-1e-9", 1), None);
    assert_eq!(parse_scaled_float("1e", 1), None);
    assert_eq!(parse_scaled_float("e5", 1), None);
    assert_eq!(parse_scaled_float(".e5", 1), None);
    assert_eq!(parse_scaled_float("1e5.0", 1), None);
    assert_eq!(parse_scaled_float("infinit", 1), None);
    assert_eq!(parse_scaled_float("", 1), None);
}

#[test]
fn integer_parsing() {
    assert_eq!(parse_u32_text("0"), Some(0));
    assert_eq!(parse_u32_text("+15"), Some(15));
    assert_eq!(parse_u32_text("4294967295"), Some(u32::MAX));
    assert_eq!(parse_u32_text("4294967296"), None);
    assert_eq!(parse_u32_text(""), None);
    assert_eq!(parse_u32_text("+"), None);
    assert_eq!(parse_u32_text("1 "), None);
    assert_eq!(parse_max_processes("-1"), None);
    assert_eq!(parse_max_processes("100"), Some(100));
}

#[test]
fn text_helpers() {
    assert!(is_blank_text(""));
    assert!(is_blank_text(" \t\n\u{3000}"));
    assert!(!is_blank_text(" a "));
    assert!(same_text("abc", "abc"));
    assert!(!same_text("abc", "abd"));
    assert!(!same_text("ab", "abc"));
}

#[test]
fn storage_key_round_trip() {
    let file = profile_file_name("build-env");
    assert_eq!(file, "build-env.toml");
    assert_eq!(stored_profile_name(&file).as_deref(), Some("build-env"));
    assert_eq!(stored_profile_name("a.b.toml").as_deref(), Some("a.b"));
    assert_eq!(stored_profile_name(".toml"), None);
    assert_eq!(stored_profile_name("notes.txt"), None);
    assert_eq!(stored_profile_name("toml"), None);
    let mut p = Policy::default();
    p.capabilities.allowed_paths.push("/x".to_string());
    let loaded = adopt_stored_profile(&file, p).expect("a profile file");
    assert_eq!(loaded.name, "build-env");
    assert_eq!(loaded.capabilities.allowed_paths, vec!["/x".to_string()]);
    assert!(adopt_stored_profile("readme.md", Policy::default()).is_none());
}

#[test]
fn repeated_keys_are_not_well_formed() {
    let mut p = Policy::default();
    assert!(p.is_well_formed());
    p.metadata.push(("k".to_string(), "1".to_string()));
    p.metadata.push(("k".to_string(), "2".to_string()));
    assert!(!p.is_well_formed());
    assert!(adopt_stored_profile("x.toml", p).is_none());
    let mut q = Policy::default();
    q.capabilities.filesystem = vec![FilesystemCapability::Read, FilesystemCapability::Read];
    assert!(!q.is_well_formed());
    let mut e = Policy::default();
    e.sandbox.environment.push(("PATH".to_string(), "/bin".to_string()));
    e.sandbox.environment.push(("HOME".to_string(), "/root".to_string()));
    assert!(e.is_well_formed());
}

#[test]
fn decimal_text_digits() {
    assert_eq!(hops_gui::text::decimal_text(0), "0");
    assert_eq!(hops_gui::text::decimal_text(7), "7");
    assert_eq!(hops_gui::text::decimal_text(1040), "1040");
    assert_eq!(hops_gui::text::decimal_text(u64::MAX), "18446744073709551615");
}
