//! The table of processes on screen.

use vstd::prelude::*;
use crate::process::{
    ProcessSnapshot, SnapshotView, ProcessInfo, MacProcessMetrics, Platform, snapshot_of,
    build_snapshots,
};
use crate::refresh::{rows_view, merged, merge_rows};
use crate::row_order::{sorted_rows, orderable, sort_rows};
use crate::sort_mode::SortMode;

verus! {

/// The rows of the table, and whether it shows the fixed demonstration rows.
pub struct ProcessTable {
    rows: Vec<ProcessSnapshot>,
    demo: bool,
}

/// The snapshots that a listing becomes.
pub open spec fn listing_rows(
    listing: Seq<ProcessInfo>,
    metrics: Seq<MacProcessMetrics>,
    platform: Platform,
) -> Seq<SnapshotView> {
    Seq::new(listing.len(), |i: int| snapshot_of(listing[i], listing, metrics, platform))
}

/// One demonstration row.
pub open spec fn demo_view(
    pid: u32,
    cpu_bits: u32,
    memory: u64,
    name: Seq<char>,
    parent_pid: u32,
    parent_name: Seq<char>,
    child_count: usize,
    executable: Seq<char>,
) -> SnapshotView {
    SnapshotView {
        pid,
        start_time: (1_720_000_000 + pid) as u64,
        parent_pid: Some(parent_pid),
        name,
        cpu_percent_bits: cpu_bits,
        memory_bytes: memory,
        executable: Some(executable),
        command_line: Some(name),
        parent_name: Some(parent_name),
        child_count,
        file_activity: Seq::empty(),
        network_activity: Seq::empty(),
        signature: None,
        unavailable: seq!["file activity"@, "network activity"@, "signature metadata"@],
    }
}

/// The fixed rows of demonstration mode.
pub open spec fn demo_rows() -> Seq<SnapshotView> {
    seq![
        demo_view(412, 0x414c_cccd, (182 * 1024 * 1024) as u64, "whytop-demo-agent"@, 1, "launchd"@, 2,
            "/usr/local/bin/whytop-demo-agent"@),
        demo_view(928, 0x4106_6666, (96 * 1024 * 1024) as u64, "WindowServer"@, 1, "launchd"@, 4,
            "/System/Library/PrivateFrameworks/WindowServer.framework/WindowServer"@),
        demo_view(1440, 0x40b6_6666, (74 * 1024 * 1024) as u64, "local-model-worker"@, 412,
            "whytop-demo-agent"@, 1, "/opt/local/bin/local-model-worker"@),
        demo_view(2081, 0x404c_cccd, (48 * 1024 * 1024) as u64, "Code Helper"@, 412, "whytop-demo-agent"@,
            3, "/Applications/Code.app/Contents/MacOS/Code Helper"@),
        demo_view(3176, 0x3f8c_cccd, (31 * 1024 * 1024) as u64, "Terminal"@, 412, "whytop-demo-agent"@, 0,
            "/System/Applications/Utilities/Terminal.app/Contents/MacOS/Terminal"@),
        demo_view(5012, 0x3f19_999a, (22 * 1024 * 1024) as u64, "notificationd"@, 1, "launchd"@, 0,
            "/usr/sbin/notificationd"@),
    ]
}

fn demo_row(
    pid: u32,
    cpu_bits: u32,
    memory: u64,
    name: &str,
    parent_pid: u32,
    parent_name: &str,
    child_count: usize,
    executable: &str,
) -> (res: ProcessSnapshot)
    requires
        pid < 10_000,
    ensures
        res@ == demo_view(pid, cpu_bits, memory, name@, parent_pid, parent_name@, child_count, executable@),
{
    let mut unavailable: Vec<String> = Vec::new();
    unavailable.push(String::from_str("file activity"));
    unavailable.push(String::from_str("network activity"));
    unavailable.push(String::from_str("signature metadata"));
    let res = ProcessSnapshot {
        pid,
        start_time: 1_720_000_000 + pid as u64,
        parent_pid: Some(parent_pid),
        name: String::from_str(name),
        cpu_percent_bits: cpu_bits,
        memory_bytes: memory,
        executable: Some(String::from_str(executable)),
        command_line: Some(String::from_str(name)),
        parent_name: Some(String::from_str(parent_name)),
        child_count,
        file_activity: Vec::new(),
        network_activity: Vec::new(),
        signature: None,
        unavailable,
    };
    assert(res.unavailable.deep_view() =~= seq!["file activity"@, "network activity"@, "signature metadata"@]);
    assert(res.file_activity.deep_view() =~= Seq::<Seq<char>>::empty());
    assert(res.network_activity.deep_view() =~= Seq::<Seq<char>>::empty());
    res
}

/// The fixed rows that demonstration mode shows in place of the system's processes.
pub fn demo_processes() -> (res: Vec<ProcessSnapshot>)
    ensures
        rows_view(res@) == demo_rows(),
{
    let mut v: Vec<ProcessSnapshot> = Vec::new();
    v.push(demo_row(412, 0x414c_cccd, 182 * 1024 * 1024, "whytop-demo-agent", 1, "launchd", 2,
        "/usr/local/bin/whytop-demo-agent"));
    v.push(demo_row(928, 0x4106_6666, 96 * 1024 * 1024, "WindowServer", 1, "launchd", 4,
        "/System/Library/PrivateFrameworks/WindowServer.framework/WindowServer"));
    v.push(demo_row(1440, 0x40b6_6666, 74 * 1024 * 1024, "local-model-worker", 412,
        "whytop-demo-agent", 1, "/opt/local/bin/local-model-worker"));
    v.push(demo_row(2081, 0x404c_cccd, 48 * 1024 * 1024, "Code Helper", 412, "whytop-demo-agent",
        3, "/Applications/Code.app/Contents/MacOS/Code Helper"));
    v.push(demo_row(3176, 0x3f8c_cccd, 31 * 1024 * 1024, "Terminal", 412, "whytop-demo-agent", 0,
        "/System/Applications/Utilities/Terminal.app/Contents/MacOS/Terminal"));
    v.push(demo_row(5012, 0x3f19_999a, 22 * 1024 * 1024, "notificationd", 1, "launchd", 0,
        "/usr/sbin/notificationd"));
    assert(rows_view(v@) =~= demo_rows());
    v
}

impl ProcessTable {
    /// The rows, in display order.
    pub closed spec fn row_seq(&self) -> Seq<ProcessSnapshot> {
        self.rows@
    }

    /// Whether the table shows the demonstration rows.
    pub closed spec fn demo_mode(&self) -> bool {
        self.demo
    }

    /// An empty table; in demonstration mode it will show the fixed rows.
    pub fn with_demo(demo: bool) -> (res: ProcessTable)
        ensures
            res.row_seq().len() == 0,
            res.demo_mode() == demo,
    {
        ProcessTable { rows: Vec::new(), demo }
    }

    /// Replaces the rows by the demonstration rows, or, outside demonstration mode, by the
    /// snapshots of `listing` merged into the rows on screen so that running processes keep
    /// their place and new ones follow in order of identity.
    pub fn refresh(
        &mut self,
        listing: &Vec<ProcessInfo>,
        metrics: &Vec<MacProcessMetrics>,
        platform: Platform,
    )
        ensures
            final(self).demo_mode() == old(self).demo_mode(),
            old(self).demo_mode() ==> rows_view(final(self).row_seq()) == demo_rows(),
            !old(self).demo_mode() ==> merged(
                rows_view(final(self).row_seq()),
                rows_view(old(self).row_seq()),
                listing_rows(listing@, metrics@, platform),
            ),
    {
        if self.demo {
            self.rows = demo_processes();
            return;
        }
        let current = build_snapshots(listing, metrics, platform);
        assert(rows_view(current@) =~= listing_rows(listing@, metrics@, platform));
        let merged_rows = merge_rows(&self.rows, &current);
        self.rows = merged_rows;
    }

    /// The rows, in display order.
    pub fn rows(&self) -> (res: &[ProcessSnapshot])
        ensures
            res@ == self.row_seq(),
    {
        self.rows.as_slice()
    }

    /// The number of rows.
    pub fn len(&self) -> (res: usize)
        ensures
            res == self.row_seq().len(),
    {
        self.rows.len()
    }

    /// Orders the rows by `mode`. The table keeps the same rows; they are in the order of the
    /// mode when every row is orderable in it.
    pub fn sort_by(&mut self, mode: SortMode)
        ensures
            final(self).demo_mode() == old(self).demo_mode(),
            final(self).row_seq().to_multiset() == old(self).row_seq().to_multiset(),
            (forall|i: int|
                0 <= i < old(self).row_seq().len() ==> orderable(mode, #[trigger] old(self).row_seq()[i]@))
                ==> sorted_rows(mode, rows_view(final(self).row_seq())),
    {
        let mut rows: Vec<ProcessSnapshot> = Vec::new();
        std::mem::swap(&mut rows, &mut self.rows);
        self.rows = sort_rows(rows, mode);
    }
}

} // verus!
