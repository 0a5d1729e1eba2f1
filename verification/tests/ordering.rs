use whytop::process::ProcessSnapshot;
use whytop::row_order::{compare_cpu, compare_rows, sort_rows};
use whytop::sort_mode::SortMode;
use whytop::table::ProcessTable;
use whytop::text::Order;

fn row(pid: u32, name: &str, cpu: f32, memory: u64) -> ProcessSnapshot {
    ProcessSnapshot {
        pid,
        start_time: 1,
        parent_pid: None,
        name: name.into(),
        cpu_percent_bits: cpu.to_bits(),
        memory_bytes: memory,
        executable: None,
        command_line: None,
        parent_name: None,
        child_count: 0,
        file_activity: vec![],
        network_activity: vec![],
        signature: None,
        unavailable: vec![],
    }
}

fn pids(rows: &[ProcessSnapshot]) -> Vec<u32> {
    rows.iter().map(|r| r.pid).collect()
}

fn sample() -> Vec<ProcessSnapshot> {
    vec![
        row(4, "beta", 1.5, 300),
        row(2, "Alpha", 7.25, 100),
        row(9, "alpha", 0.0, 900),
        row(1, "gamma", 7.25, 100),
    ]
}

#[test]
fn normal_order_is_by_pid() {
    assert_eq!(pids(&sort_rows(sample(), SortMode::Normal)), vec![1, 2, 4, 9]);
}

#[test]
fn names_sort_without_case_then_exactly() {
    assert_eq!(pids(&sort_rows(sample(), SortMode::NameAsc)), vec![2, 9, 4, 1]);
    assert_eq!(pids(&sort_rows(sample(), SortMode::NameDesc)), vec![1, 4, 9, 2]);
}

#[test]
fn numeric_first_press_is_largest_first_with_pid_ties() {
    assert_eq!(pids(&sort_rows(sample(), SortMode::CpuDesc)), vec![1, 2, 4, 9]);
    assert_eq!(pids(&sort_rows(sample(), SortMode::CpuAsc)), vec![9, 4, 1, 2]);
    assert_eq!(pids(&sort_rows(sample(), SortMode::MemoryDesc)), vec![9, 4, 1, 2]);
    assert_eq!(pids(&sort_rows(sample(), SortMode::MemoryAsc)), vec![1, 2, 4, 9]);
}

#[test]
fn cpu_order_matches_f32() {
    let values = [0.0f32, -0.0, 1.0, -1.0, 0.5, 100.0, 1e-30, -1e30, f32::INFINITY, f32::NEG_INFINITY, f32::NAN, 3.25];
    for a in values {
        for b in values {
            let expected = match a.partial_cmp(&b).unwrap_or(std::cmp::Ordering::Equal) {
                std::cmp::Ordering::Less => Order::Less,
                std::cmp::Ordering::Equal => Order::Equal,
                std::cmp::Ordering::Greater => Order::Greater,
            };
            assert_eq!(compare_cpu(a.to_bits(), b.to_bits()), expected, "{a} vs {b}");
        }
    }
}

#[test]
fn ties_fall_back_to_identity() {
    let a = row(1, "same", 2.0, 5);
    let b = row(2, "same", 2.0, 5);
    assert_eq!(compare_rows(SortMode::NameAsc, &a, &b), Order::Less);
    assert_eq!(compare_rows(SortMode::NameDesc, &a, &b), Order::Less);
    assert_eq!(compare_rows(SortMode::CpuDesc, &a, &b), Order::Less);
    assert_eq!(compare_rows(SortMode::MemoryAsc, &b, &a), Order::Greater);
    assert_eq!(compare_rows(SortMode::Normal, &a, &a), Order::Equal);
}

#[test]
fn table_sort_keeps_the_rows() {
    let mut table = ProcessTable::with_demo(true);
    table.refresh(&vec![], &vec![], whytop::process::Platform::Other);
    table.sort_by(SortMode::MemoryAsc);
    assert_eq!(pids(table.rows()), vec![5012, 3176, 2081, 1440, 928, 412]);
    table.sort_by(SortMode::NameAsc);
    assert_eq!(pids(table.rows()), vec![2081, 1440, 5012, 3176, 412, 928]);
}
