use motd::build_builtins;
use motd::builtins::{
    cpu_cores, cuda_version, data_disk_usage, ends_walk, hostname, kernel_version, load1,
    load15, load5, login_user, memory_usage, nth_field, root_disk_usage, swap_usage, Builtin,
    Disk, ProviderError, Snapshot,
};
use motd::text::{decimal, str_eq};

fn snap() -> Snapshot {
    Snapshot {
        cpu_count: 8,
        total_memory: 1024,
        used_memory: 512,
        total_swap: 0,
        used_swap: 0,
        disks: vec![
            Disk { mount_point: "/boot".to_string(), total_space: 10, available_space: 10 },
            Disk { mount_point: "/".to_string(), total_space: 100, available_space: 25 },
        ],
        host_name: Some("box".to_string()),
        kernel_version: None,
    }
}

#[test]
fn load_fields() {
    let rec = "0.52 0.58 0.59 1/467 12345\n";
    assert_eq!(load1(rec).unwrap(), "0.52");
    assert_eq!(load5(rec).unwrap(), "0.58");
    assert_eq!(load15(rec).unwrap(), "0.59");
    assert_eq!(load15("  0.1\t0.2 ").unwrap_err(), ProviderError::LoadAverageField);
    assert_eq!(nth_field("  a  bb\tc", 1).unwrap(), "bb");
}

#[test]
fn memory_and_swap_usage() {
    let s = snap();
    assert_eq!(memory_usage(&s).unwrap(), "50.0");
    assert_eq!(swap_usage(&s).unwrap(), "0.0");
    let mut t = snap();
    t.used_memory = 1;
    t.total_memory = 3;
    assert_eq!(memory_usage(&t).unwrap(), "33.3");
    t.used_memory = 2;
    assert_eq!(memory_usage(&t).unwrap(), "66.7");
    t.used_memory = 1;
    t.total_memory = 16;
    assert_eq!(memory_usage(&t).unwrap(), "6.2");
    t.used_swap = 3;
    t.total_swap = 4;
    assert_eq!(swap_usage(&t).unwrap(), "75.0");
}

#[test]
fn cpu_cores_is_decimal() {
    assert_eq!(cpu_cores(&snap()).unwrap(), "8");
    assert_eq!(decimal(0), "0");
    assert_eq!(decimal(1234567890123), "1234567890123");
}

#[test]
fn disk_usage_by_mount_point() {
    let mut s = snap();
    assert_eq!(root_disk_usage(&s).unwrap(), "75");
    assert_eq!(data_disk_usage(&s).unwrap_err(), ProviderError::NoMount);
    s.disks.push(Disk { mount_point: "/data".to_string(), total_space: 1000, available_space: 1 });
    assert_eq!(data_disk_usage(&s).unwrap(), "100");
    s.disks[1].total_space = 8;
    s.disks[1].available_space = 7;
    assert_eq!(root_disk_usage(&s).unwrap(), "12");
}

#[test]
fn host_and_kernel() {
    assert_eq!(hostname(&snap()).unwrap(), "box");
    assert_eq!(kernel_version(&snap()).unwrap_err(), ProviderError::NoKernelVersion);
    let mut s = snap();
    s.host_name = None;
    assert_eq!(hostname(&s).unwrap_err(), ProviderError::NoHostname);
}

#[test]
fn cuda_version_from_json() {
    let json = r#"{"cuda":{"name":"CUDA SDK","version":"12.2.0"}}"#.to_string();
    assert_eq!(cuda_version(Some(json), None).unwrap(), "12.2.0");
}

#[test]
fn cuda_version_falls_back_to_text() {
    let legacy = "CUDA Version 10.2.89\n".to_string();
    assert_eq!(cuda_version(Some("not json".to_string()), Some(legacy.clone())).unwrap(), "10.2.89");
    assert_eq!(cuda_version(Some(r#"{"cuda":{}}"#.to_string()), Some(legacy)).unwrap(), "10.2.89");
    assert_eq!(cuda_version(None, None).unwrap_err(), ProviderError::NoCudaVersion);
    assert_eq!(
        cuda_version(None, Some("Version 1".to_string())).unwrap_err(),
        ProviderError::NoCudaVersion
    );
}

fn chain(v: &[&[&str]]) -> Vec<Vec<String>> {
    v.iter().map(|c| c.iter().map(|s| s.to_string()).collect()).collect()
}

#[test]
fn login_user_falls_back_without_daemon() {
    let a = chain(&[&["bash"], &["login", "-p"], &["/sbin/init"]]);
    assert_eq!(login_user(&a, "bob".to_string()).unwrap(), "bob");
    assert_eq!(login_user(&Vec::new(), "bob".to_string()).unwrap(), "bob");
}

#[test]
fn login_user_from_daemon() {
    let a = chain(&[&["-bash"], &["sshd: alice@example.com"], &["/sbin/init"]]);
    assert_eq!(login_user(&a, "bob".to_string()).unwrap(), "alice");
    let b = chain(&[&["sshd: carol"]]);
    assert_eq!(login_user(&b, "bob".to_string()).unwrap(), "carol");
}

#[test]
fn login_user_errors() {
    let a = chain(&[&["sshd: @host"]]);
    assert_eq!(login_user(&a, "bob".to_string()).unwrap_err(), ProviderError::UnknownLoginUser);
    let b = chain(&[&["sshd:"]]);
    assert_eq!(login_user(&b, "bob".to_string()).unwrap_err(), ProviderError::UnknownLoginUser);
    let c = chain(&[&["bash"], &[]]);
    assert_eq!(login_user(&c, "bob".to_string()).unwrap_err(), ProviderError::MalformedCommandLine);
}

#[test]
fn walk_stops_at_daemon() {
    assert!(ends_walk(&vec!["sshd: a@b".to_string()]));
    assert!(ends_walk(&Vec::new()));
    assert!(!ends_walk(&vec!["bash".to_string()]));
}

#[test]
fn builtin_registry_names() {
    let b = build_builtins();
    assert_eq!(b.get("load1"), Some(&Builtin::Load1));
    assert_eq!(b.get("login_user"), Some(&Builtin::LoginUser));
    assert_eq!(b.get("cuda_version"), Some(&Builtin::CudaVersion));
    assert_eq!(b.get("uptime"), None);
}

#[test]
fn string_equality() {
    assert!(str_eq("abc", "abc"));
    assert!(!str_eq("abc", "abd"));
    assert!(!str_eq("ab", "abc"));
}
