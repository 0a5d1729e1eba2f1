use whytop::sort_mode::SortMode;
use whytop::sort_mode::SortMode::{CpuAsc, CpuDesc, MemoryAsc, MemoryDesc, NameAsc, NameDesc, Normal};

#[test]
fn sort_keys_cycle_through_direction_and_normal() {
    assert_eq!(Normal.next_for('n'), NameAsc);
    assert_eq!(NameAsc.next_for('n'), NameDesc);
    assert_eq!(NameDesc.next_for('n'), Normal);

    assert_eq!(Normal.next_for('c'), CpuDesc);
    assert_eq!(CpuDesc.next_for('c'), CpuAsc);
    assert_eq!(CpuAsc.next_for('c'), Normal);

    assert_eq!(Normal.next_for('m'), MemoryDesc);
    assert_eq!(MemoryDesc.next_for('m'), MemoryAsc);
    assert_eq!(MemoryAsc.next_for('m'), Normal);
}

#[test]
fn other_keys_leave_the_mode() {
    for mode in [Normal, NameAsc, NameDesc, CpuDesc, CpuAsc, MemoryDesc, MemoryAsc] {
        assert_eq!(mode.next_for('x'), mode);
        assert_eq!(mode.next_for('q'), mode);
    }
}

#[test]
fn a_sort_key_from_another_cycle_starts_its_own() {
    assert_eq!(CpuAsc.next_for('n'), NameAsc);
    assert_eq!(NameDesc.next_for('m'), MemoryDesc);
    assert_eq!(MemoryAsc.next_for('c'), CpuDesc);
}

#[test]
fn three_presses_return_to_the_start() {
    for key in ['n', 'c', 'm'] {
        let start = Normal;
        assert_eq!(start.next_for(key).next_for(key).next_for(key), start);
    }
}

#[test]
fn labels_name_the_modes() {
    assert_eq!(Normal.label(), "normal");
    assert_eq!(NameAsc.label(), "name ↑");
    assert_eq!(NameDesc.label(), "name ↓");
    assert_eq!(CpuDesc.label(), "CPU ↓");
    assert_eq!(CpuAsc.label(), "CPU ↑");
    assert_eq!(MemoryDesc.label(), "memory ↓");
    assert_eq!(MemoryAsc.label(), "memory ↑");
}

#[test]
fn first_numeric_press_sorts_largest_first() {
    assert!(SortMode::CpuDesc.is_descending());
    assert!(SortMode::MemoryDesc.is_descending());
    assert!(!SortMode::NameAsc.is_descending());
    assert!(SortMode::NameDesc.is_descending());
}
