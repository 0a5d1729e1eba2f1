use whytop::process::{build_snapshots, MacProcessMetrics, Platform, ProcessInfo, ProcessSnapshot};
use whytop::redaction::bounded;
use whytop::refresh::merge_rows;
use whytop::table::{demo_processes, ProcessTable};

fn snapshot(pid: u32, start_time: u64) -> ProcessSnapshot {
    ProcessSnapshot {
        pid,
        start_time,
        parent_pid: None,
        name: "x".into(),
        cpu_percent_bits: 0.0f32.to_bits(),
        memory_bytes: 0,
        executable: None,
        command_line: None,
        parent_name: None,
        child_count: 0,
        file_activity: vec![],
        network_activity: vec![],
        signature: None,
        unavailable: vec![],
    }
}

fn info(pid: u32, parent: Option<u32>, name: &str) -> ProcessInfo {
    ProcessInfo {
        pid,
        parent_pid: parent,
        start_time: 100 + pid as u64,
        name: name.to_string(),
        cpu_percent_bits: 1.5f32.to_bits(),
        memory_bytes: 4096,
        executable: Some(format!("/bin/{name}")),
        has_working_directory: true,
        command: vec![name.to_string(), "--flag".to_string()],
    }
}

#[test]
fn identity_includes_start_time() {
    let a = ProcessSnapshot {
        pid: 7,
        start_time: 1,
        parent_pid: None,
        name: "x".into(),
        cpu_percent_bits: 0.0f32.to_bits(),
        memory_bytes: 0,
        executable: None,
        command_line: None,
        parent_name: None,
        child_count: 0,
        file_activity: vec![],
        network_activity: vec![],
        signature: None,
        unavailable: vec![],
    };
    assert_ne!(a.identity(), (7, 2));
    assert_eq!(a.identity(), (7, 1));
}

#[test]
fn redaction_bounds_and_marks_omissions() {
    let mut p = ProcessSnapshot {
        pid: 1,
        start_time: 1,
        parent_pid: None,
        name: "a".into(),
        cpu_percent_bits: 0.0f32.to_bits(),
        memory_bytes: 0,
        executable: None,
        command_line: Some("x".repeat(500)),
        parent_name: None,
        child_count: 0,
        file_activity: vec!["f".into(); 30],
        network_activity: vec![],
        signature: None,
        unavailable: vec![],
    };
    p = bounded(&p);
    assert_eq!(p.command_line.unwrap().len(), 256);
    assert_eq!(p.file_activity.len(), 20);
    assert!(p.unavailable.iter().any(|x| x.contains("secrets")));
}

#[test]
fn redaction_cuts_by_characters_and_keeps_short_values() {
    let mut p = snapshot(3, 4);
    p.executable = Some("é".repeat(600));
    p.command_line = Some("short".into());
    p.network_activity = vec!["n".into(); 21];
    let b = bounded(&p);
    assert_eq!(b.executable.as_ref().unwrap().chars().count(), 512);
    assert_eq!(b.command_line.as_deref(), Some("short"));
    assert_eq!(b.network_activity.len(), 20);
    assert_eq!(b.unavailable, vec!["environment variables and secrets are intentionally omitted".to_string()]);
    assert_eq!(b.pid, 3);
    assert_eq!(b.start_time, 4);
}

#[test]
fn snapshots_count_children_and_name_parents() {
    let listing = vec![info(1, None, "init"), info(20, Some(1), "shell"), info(30, Some(20), "vim"), info(31, Some(20), "less")];
    let rows = build_snapshots(&listing, &vec![], Platform::Other);
    assert_eq!(rows.len(), 4);
    assert_eq!(rows[0].child_count, 1);
    assert_eq!(rows[1].child_count, 2);
    assert_eq!(rows[1].parent_name.as_deref(), Some("init"));
    assert_eq!(rows[2].parent_name.as_deref(), Some("shell"));
    assert_eq!(rows[0].parent_name, None);
    assert_eq!(rows[2].command_line.as_deref(), Some("vim --flag"));
    assert_eq!(rows[0].unavailable, vec!["platform signature metadata".to_string()]);
}

#[test]
fn missing_facts_are_listed_as_unavailable() {
    let mut p = info(5, Some(99), "ghost");
    p.executable = None;
    p.has_working_directory = false;
    p.command = vec![];
    let rows = build_snapshots(&vec![p], &vec![], Platform::Windows);
    assert_eq!(rows[0].unavailable, vec!["executable path".to_string(), "working directory".to_string()]);
    assert_eq!(rows[0].command_line, None);
    assert_eq!(rows[0].parent_name, None);
    assert_eq!(rows[0].parent_pid, Some(99));
}

#[test]
fn macos_fallback_fills_parent_and_resources() {
    let mut p = info(5, None, "app");
    p.cpu_percent_bits = 0.0f32.to_bits();
    let metrics = vec![
        MacProcessMetrics { pid: 5, parent_pid: Some(77), cpu_percent_bits: 9.5f32.to_bits(), memory_bytes: 1, name: "app".into() },
        MacProcessMetrics { pid: 77, parent_pid: None, cpu_percent_bits: 0, memory_bytes: 2, name: "launcher".into() },
        MacProcessMetrics { pid: 5, parent_pid: Some(77), cpu_percent_bits: 12.5f32.to_bits(), memory_bytes: 8192, name: "app".into() },
    ];
    let rows = build_snapshots(&vec![p], &metrics, Platform::MacOs);
    assert_eq!(rows[0].parent_pid, Some(77));
    assert_eq!(rows[0].parent_name.as_deref(), Some("launcher"));
    assert_eq!(f32::from_bits(rows[0].cpu_percent_bits), 12.5);
    assert_eq!(rows[0].memory_bytes, 8192);
    assert!(rows[0].unavailable.is_empty());
    let elsewhere = build_snapshots(&vec![info(5, None, "app")], &metrics, Platform::Other);
    assert_eq!(elsewhere[0].parent_pid, None);
    assert_eq!(elsewhere[0].memory_bytes, 4096);
}

#[test]
fn refresh_keeps_old_order_and_appends_new_by_identity() {
    let old = vec![snapshot(30, 1), snapshot(10, 1), snapshot(20, 1)];
    let mut updated = snapshot(10, 1);
    updated.memory_bytes = 99;
    let cur = vec![snapshot(50, 2), snapshot(20, 1), updated, snapshot(5, 9), snapshot(50, 1)];
    let res = merge_rows(&old, &cur);
    let ids: Vec<(u32, u64)> = res.iter().map(|p| p.identity()).collect();
    assert_eq!(ids, vec![(10, 1), (20, 1), (5, 9), (50, 1), (50, 2)]);
    assert_eq!(res[0].memory_bytes, 99);
}

#[test]
fn refresh_with_the_same_processes_keeps_the_order() {
    let old = vec![snapshot(3, 1), snapshot(1, 1), snapshot(2, 1)];
    let cur = vec![snapshot(1, 1), snapshot(2, 1), snapshot(3, 1)];
    let res = merge_rows(&old, &cur);
    let ids: Vec<(u32, u64)> = res.iter().map(|p| p.identity()).collect();
    assert_eq!(ids, vec![(3, 1), (1, 1), (2, 1)]);
}

#[test]
fn refresh_takes_the_last_row_of_a_repeated_identity() {
    let mut first = snapshot(4, 4);
    first.memory_bytes = 1;
    let mut second = snapshot(4, 4);
    second.memory_bytes = 2;
    let res = merge_rows(&vec![], &vec![first, second]);
    assert_eq!(res.len(), 1);
    assert_eq!(res[0].memory_bytes, 2);
}

#[test]
fn table_refresh_merges_listing() {
    let mut table = ProcessTable::with_demo(false);
    assert_eq!(table.len(), 0);
    table.refresh(&vec![info(9, None, "b"), info(3, None, "a")], &vec![], Platform::Other);
    let ids: Vec<u32> = table.rows().iter().map(|p| p.pid).collect();
    assert_eq!(ids, vec![3, 9]);
    table.refresh(&vec![info(9, None, "b"), info(1, None, "c")], &vec![], Platform::Other);
    let ids: Vec<u32> = table.rows().iter().map(|p| p.pid).collect();
    assert_eq!(ids, vec![9, 1]);
}

#[test]
fn demo_table_shows_the_fixed_rows() {
    let mut table = ProcessTable::with_demo(true);
    table.refresh(&vec![info(9, None, "b")], &vec![], Platform::Other);
    assert_eq!(table.len(), 6);
    assert_eq!(table.rows()[0].name, "whytop-demo-agent");
    assert_eq!(f32::from_bits(table.rows()[0].cpu_percent_bits), 12.8);
    assert_eq!(table.rows()[5].memory_bytes, 22 * 1024 * 1024);
    let demo = demo_processes();
    assert_eq!(demo[2].parent_name.as_deref(), Some("whytop-demo-agent"));
    assert_eq!(demo[3].start_time, 1_720_000_000 + 2081);
    assert_eq!(demo[4].unavailable, vec!["file activity".to_string(), "network activity".to_string(), "signature metadata".to_string()]);
}

#[test]
fn bounding_twice_cuts_nothing_more() {
    let mut p = snapshot(8, 8);
    p.command_line = Some("c".repeat(300));
    p.file_activity = vec!["f".into(); 25];
    let once = bounded(&p);
    let twice = bounded(&once);
    assert_eq!(twice.command_line, once.command_line);
    assert_eq!(twice.file_activity, once.file_activity);
    assert_eq!(twice.unavailable.len(), once.unavailable.len() + 1);
}
