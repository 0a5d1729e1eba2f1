//! Process snapshots, the table of them, and how a fresh listing is merged into the rows
//! that are already on screen.

use vstd::prelude::*;
use crate::text::{append_str, string_of};

verus! {

/// What is known of one process at one refresh.
///
/// The CPU share is carried as the bit pattern of the `f32` percentage that the system
/// reported, so that rows can be ordered by it exactly; the application turns it back into a
/// number for display.
pub struct ProcessSnapshot {
    pub pid: u32,
    pub start_time: u64,
    pub parent_pid: Option<u32>,
    pub name: String,
    pub cpu_percent_bits: u32,
    pub memory_bytes: u64,
    pub executable: Option<String>,
    pub command_line: Option<String>,
    pub parent_name: Option<String>,
    pub child_count: usize,
    pub file_activity: Vec<String>,
    pub network_activity: Vec<String>,
    pub signature: Option<String>,
    pub unavailable: Vec<String>,
}

/// A snapshot as mathematical values.
pub struct SnapshotView {
    pub pid: u32,
    pub start_time: u64,
    pub parent_pid: Option<u32>,
    pub name: Seq<char>,
    pub cpu_percent_bits: u32,
    pub memory_bytes: u64,
    pub executable: Option<Seq<char>>,
    pub command_line: Option<Seq<char>>,
    pub parent_name: Option<Seq<char>>,
    pub child_count: usize,
    pub file_activity: Seq<Seq<char>>,
    pub network_activity: Seq<Seq<char>>,
    pub signature: Option<Seq<char>>,
    pub unavailable: Seq<Seq<char>>,
}

/// The characters of an optional string.
pub open spec fn opt_text(o: Option<String>) -> Option<Seq<char>> {
    match o {
        Some(s) => Some(s@),
        None => None,
    }
}

impl View for ProcessSnapshot {
    type V = SnapshotView;

    open spec fn view(&self) -> SnapshotView {
        SnapshotView {
            pid: self.pid,
            start_time: self.start_time,
            parent_pid: self.parent_pid,
            name: self.name@,
            cpu_percent_bits: self.cpu_percent_bits,
            memory_bytes: self.memory_bytes,
            executable: opt_text(self.executable),
            command_line: opt_text(self.command_line),
            parent_name: opt_text(self.parent_name),
            child_count: self.child_count,
            file_activity: self.file_activity.deep_view(),
            network_activity: self.network_activity.deep_view(),
            signature: opt_text(self.signature),
            unavailable: self.unavailable.deep_view(),
        }
    }
}

/// A process is told apart from a later one that reuses its id by its start time.
pub open spec fn id_of(s: SnapshotView) -> (u32, u64) {
    (s.pid, s.start_time)
}

/// A copy of an optional string.
pub fn copy_opt_text(o: &Option<String>) -> (res: Option<String>)
    ensures
        opt_text(res) == opt_text(*o),
{
    match o {
        Some(s) => Some(s.clone()),
        None => None,
    }
}

/// A copy of a list of strings.
pub fn copy_texts(v: &Vec<String>) -> (res: Vec<String>)
    ensures
        res.deep_view() == v.deep_view(),
{
    let mut res: Vec<String> = Vec::new();
    let mut i: usize = 0;
    while i < v.len()
        invariant
            i <= v.len(),
            res.deep_view() =~= v.deep_view().take(i as int),
        decreases v.len() - i,
    {
        let c = v[i].clone();
        let ghost before = res.deep_view();
        res.push(c);
        assert(res.deep_view() =~= before.push(c@));
        assert(v.deep_view().take(i + 1) =~= v.deep_view().take(i as int).push(v[i as int]@));
        i = i + 1;
    }
    assert(v.deep_view().take(v.len() as int) =~= v.deep_view());
    res
}

impl ProcessSnapshot {
    /// The identity of the process: its id and start time.
    pub fn identity(&self) -> (res: (u32, u64))
        ensures
            res == id_of(self@),
    {
        (self.pid, self.start_time)
    }

    /// A copy of the snapshot.
    pub fn duplicate(&self) -> (res: ProcessSnapshot)
        ensures
            res@ == self@,
    {
        ProcessSnapshot {
            pid: self.pid,
            start_time: self.start_time,
            parent_pid: self.parent_pid,
            name: self.name.clone(),
            cpu_percent_bits: self.cpu_percent_bits,
            memory_bytes: self.memory_bytes,
            executable: copy_opt_text(&self.executable),
            command_line: copy_opt_text(&self.command_line),
            parent_name: copy_opt_text(&self.parent_name),
            child_count: self.child_count,
            file_activity: copy_texts(&self.file_activity),
            network_activity: copy_texts(&self.network_activity),
            signature: copy_opt_text(&self.signature),
            unavailable: copy_texts(&self.unavailable),
        }
    }
}


/// The operating system the monitor runs on, where it changes what is known of a process.
#[derive(Clone, Copy, Debug, PartialEq, Eq, Structural)]
pub enum Platform {
    MacOs,
    Windows,
    Other,
}

/// One process as the system listing reports it, before it becomes a snapshot.
pub struct ProcessInfo {
    pub pid: u32,
    pub parent_pid: Option<u32>,
    pub start_time: u64,
    pub name: String,
    pub cpu_percent_bits: u32,
    pub memory_bytes: u64,
    pub executable: Option<String>,
    pub has_working_directory: bool,
    pub command: Vec<String>,
}

/// What the macOS process status tool reports of one process.
pub struct MacProcessMetrics {
    pub pid: u32,
    pub parent_pid: Option<u32>,
    pub cpu_percent_bits: u32,
    pub memory_bytes: u64,
    pub name: String,
}

/// The first listed process with id `pid`.
pub open spec fn info_with_pid(all: Seq<ProcessInfo>, pid: u32) -> Option<ProcessInfo>
    decreases all.len(),
{
    if all.len() == 0 {
        None
    } else if all[0].pid == pid {
        Some(all[0])
    } else {
        info_with_pid(all.drop_first(), pid)
    }
}

/// The last metrics entry for `pid`: the one a map keyed by process id keeps.
pub open spec fn metrics_with_pid(ms: Seq<MacProcessMetrics>, pid: u32) -> Option<
    MacProcessMetrics,
>
    decreases ms.len(),
{
    if ms.len() == 0 {
        None
    } else if ms.last().pid == pid {
        Some(ms.last())
    } else {
        metrics_with_pid(ms.drop_last(), pid)
    }
}

/// The number of listed processes whose parent is `pid`.
pub open spec fn children_of(all: Seq<ProcessInfo>, pid: u32) -> nat
    decreases all.len(),
{
    if all.len() == 0 {
        0
    } else {
        children_of(all.drop_last(), pid) + if all.last().parent_pid == Some(pid) {
            1nat
        } else {
            0nat
        }
    }
}

/// The words joined with one separator between neighbours.
pub open spec fn joined(words: Seq<Seq<char>>, sep: Seq<char>) -> Seq<char>
    decreases words.len(),
{
    if words.len() == 0 {
        Seq::empty()
    } else if words.len() == 1 {
        words[0]
    } else {
        joined(words.drop_last(), sep) + sep + words.last()
    }
}

/// The fallback metrics that apply on macOS.
pub open spec fn fallback_for(
    p: ProcessInfo,
    metrics: Seq<MacProcessMetrics>,
    platform: Platform,
) -> Option<MacProcessMetrics> {
    if platform == Platform::MacOs {
        metrics_with_pid(metrics, p.pid)
    } else {
        None
    }
}

/// The parent of `p`: the listing's, else on macOS the status tool's.
pub open spec fn parent_of(p: ProcessInfo, metrics: Seq<MacProcessMetrics>, platform: Platform) -> Option<u32> {
    match p.parent_pid {
        Some(q) => Some(q),
        None => match fallback_for(p, metrics, platform) {
            Some(m) => m.parent_pid,
            None => None,
        },
    }
}

/// The name of the parent: from the listing, else on macOS from the status tool.
pub open spec fn parent_name_of(
    parent: Option<u32>,
    all: Seq<ProcessInfo>,
    metrics: Seq<MacProcessMetrics>,
    platform: Platform,
) -> Option<Seq<char>> {
    match parent {
        None => None,
        Some(q) => match info_with_pid(all, q) {
            Some(x) => Some(x.name@),
            None => if platform == Platform::MacOs {
                match metrics_with_pid(metrics, q) {
                    Some(m) => Some(m.name@),
                    None => None,
                }
            } else {
                None
            },
        },
    }
}

/// The facts that could not be read for `p`.
pub open spec fn unavailable_of(p: ProcessInfo, platform: Platform) -> Seq<Seq<char>> {
    let a: Seq<Seq<char>> = if p.executable is None {
        seq!["executable path"@]
    } else {
        Seq::empty()
    };
    let b: Seq<Seq<char>> = if !p.has_working_directory {
        seq!["working directory"@]
    } else {
        Seq::empty()
    };
    let c: Seq<Seq<char>> = if platform == Platform::Other {
        seq!["platform signature metadata"@]
    } else {
        Seq::empty()
    };
    a + b + c
}

/// The command line: the arguments joined by spaces, when that is not empty.
pub open spec fn command_line_of(p: ProcessInfo) -> Option<Seq<char>> {
    let line = joined(p.command.deep_view(), " "@);
    if line.len() == 0 {
        None
    } else {
        Some(line)
    }
}

/// The snapshot of listed process `p`, where `all` is the whole listing and `metrics` what the
/// macOS status tool reported.
pub open spec fn snapshot_of(
    p: ProcessInfo,
    all: Seq<ProcessInfo>,
    metrics: Seq<MacProcessMetrics>,
    platform: Platform,
) -> SnapshotView {
    let fallback = fallback_for(p, metrics, platform);
    let parent = parent_of(p, metrics, platform);
    SnapshotView {
        pid: p.pid,
        start_time: p.start_time,
        parent_pid: parent,
        name: p.name@,
        cpu_percent_bits: match fallback {
            Some(m) => m.cpu_percent_bits,
            None => p.cpu_percent_bits,
        },
        memory_bytes: match fallback {
            Some(m) => m.memory_bytes,
            None => p.memory_bytes,
        },
        executable: opt_text(p.executable),
        command_line: command_line_of(p),
        parent_name: parent_name_of(parent, all, metrics, platform),
        child_count: children_of(all, p.pid) as usize,
        file_activity: Seq::empty(),
        network_activity: Seq::empty(),
        signature: None,
        unavailable: unavailable_of(p, platform),
    }
}

fn find_info(all: &Vec<ProcessInfo>, pid: u32) -> (res: Option<usize>)
    ensures
        match res {
            Some(i) => i < all.len() && info_with_pid(all@, pid) == Some(all@[i as int]),
            None => info_with_pid(all@, pid) is None,
        },
{
    let mut i: usize = 0;
    assert(all@.skip(0) =~= all@);
    while i < all.len()
        invariant
            i <= all.len(),
            info_with_pid(all@, pid) == info_with_pid(all@.skip(i as int), pid),
        decreases all.len() - i,
    {
        assert(all@.skip(i as int).drop_first() =~= all@.skip(i + 1));
        if all[i].pid == pid {
            return Some(i);
        }
        i = i + 1;
    }
    None
}

fn find_metrics(ms: &Vec<MacProcessMetrics>, pid: u32) -> (res: Option<usize>)
    ensures
        match res {
            Some(i) => i < ms.len() && metrics_with_pid(ms@, pid) == Some(ms@[i as int]),
            None => metrics_with_pid(ms@, pid) is None,
        },
{
    let mut i: usize = ms.len();
    assert(ms@.take(ms.len() as int) =~= ms@);
    while i > 0
        invariant
            i <= ms.len(),
            metrics_with_pid(ms@, pid) == metrics_with_pid(ms@.take(i as int), pid),
        decreases i,
    {
        assert(ms@.take(i as int).drop_last() =~= ms@.take(i - 1));
        if ms[i - 1].pid == pid {
            return Some(i - 1);
        }
        i = i - 1;
    }
    None
}

fn count_children(all: &Vec<ProcessInfo>, pid: u32) -> (res: usize)
    ensures
        res == children_of(all@, pid),
{
    let mut n: usize = 0;
    let mut i: usize = 0;
    while i < all.len()
        invariant
            i <= all.len(),
            n == children_of(all@.take(i as int), pid),
            n <= i,
        decreases all.len() - i,
    {
        assert(all@.take(i + 1).drop_last() =~= all@.take(i as int));
        let is_child = match all[i].parent_pid {
            Some(q) => q == pid,
            None => false,
        };
        if is_child {
            n = n + 1;
        }
        i = i + 1;
    }
    assert(all@.take(all.len() as int) =~= all@);
    n
}

fn join_words(words: &Vec<String>, sep: &str) -> (res: String)
    ensures
        res@ == joined(words.deep_view(), sep@),
{
    let mut out: Vec<char> = Vec::new();
    let mut i: usize = 0;
    while i < words.len()
        invariant
            i <= words.len(),
            out@ == joined(words.deep_view().take(i as int), sep@),
        decreases words.len() - i,
    {
        let ghost pre = words.deep_view().take(i as int);
        let ghost now = words.deep_view().take(i + 1);
        assert(now.drop_last() =~= pre);
        assert(now.last() == words[i as int]@);
        if i > 0 {
            append_str(&mut out, sep);
        } else {
            assert(now.len() == 1);
        }
        append_str(&mut out, words[i].as_str());
        if i == 0 {
            assert(out@ =~= now[0]);
        }
        i = i + 1;
    }
    assert(words.deep_view().take(words.len() as int) =~= words.deep_view());
    string_of(&out)
}

fn text(s: &str) -> (res: String)
    ensures
        res@ == s@,
{
    String::from_str(s)
}

/// The snapshot of one listed process.
pub fn build_snapshot(
    p: &ProcessInfo,
    all: &Vec<ProcessInfo>,
    metrics: &Vec<MacProcessMetrics>,
    platform: Platform,
) -> (res: ProcessSnapshot)
    ensures
        res@ == snapshot_of(*p, all@, metrics@, platform),
{
    let fallback: Option<usize> = if platform == Platform::MacOs {
        find_metrics(metrics, p.pid)
    } else {
        None
    };
    let parent: Option<u32> = match p.parent_pid {
        Some(q) => Some(q),
        None => match fallback {
            Some(i) => metrics[i].parent_pid,
            None => None,
        },
    };
    let parent_name: Option<String> = match parent {
        None => None,
        Some(q) => match find_info(all, q) {
            Some(i) => Some(all[i].name.clone()),
            None => if platform == Platform::MacOs {
                match find_metrics(metrics, q) {
                    Some(i) => Some(metrics[i].name.clone()),
                    None => None,
                }
            } else {
                None
            },
        },
    };
    let mut unavailable: Vec<String> = Vec::new();
    if p.executable.is_none() {
        unavailable.push(text("executable path"));
    }
    if !p.has_working_directory {
        unavailable.push(text("working directory"));
    }
    if platform == Platform::Other {
        unavailable.push(text("platform signature metadata"));
    }
    assert(unavailable.deep_view() =~= unavailable_of(*p, platform));
    let line = join_words(&p.command, " ");
    let command_line: Option<String> = if line.as_str().is_empty() {
        None
    } else {
        Some(line)
    };
    assert(opt_text(command_line) == command_line_of(*p));
    assert(opt_text(parent_name) == parent_name_of(parent, all@, metrics@, platform));
    assert(parent == parent_of(*p, metrics@, platform));
    let (cpu, memory) = match fallback {
        Some(i) => (metrics[i].cpu_percent_bits, metrics[i].memory_bytes),
        None => (p.cpu_percent_bits, p.memory_bytes),
    };
    let res = ProcessSnapshot {
        pid: p.pid,
        start_time: p.start_time,
        parent_pid: parent,
        name: p.name.clone(),
        cpu_percent_bits: cpu,
        memory_bytes: memory,
        executable: copy_opt_text(&p.executable),
        command_line,
        parent_name,
        child_count: count_children(all, p.pid),
        file_activity: Vec::new(),
        network_activity: Vec::new(),
        signature: None,
        unavailable,
    };
    assert(res.file_activity.deep_view() =~= Seq::<Seq<char>>::empty());
    assert(res.network_activity.deep_view() =~= Seq::<Seq<char>>::empty());
    assert(res@.cpu_percent_bits == snapshot_of(*p, all@, metrics@, platform).cpu_percent_bits);
    assert(res@.memory_bytes == snapshot_of(*p, all@, metrics@, platform).memory_bytes);
    res
}

/// The snapshots of a whole listing, in the listing's order.
pub fn build_snapshots(
    all: &Vec<ProcessInfo>,
    metrics: &Vec<MacProcessMetrics>,
    platform: Platform,
) -> (res: Vec<ProcessSnapshot>)
    ensures
        res.len() == all.len(),
        forall|i: int| 0 <= i < all.len() ==> (#[trigger] res@[i])@ == snapshot_of(
            all@[i],
            all@,
            metrics@,
            platform,
        ),
{
    let mut res: Vec<ProcessSnapshot> = Vec::new();
    let mut i: usize = 0;
    while i < all.len()
        invariant
            i <= all.len(),
            res.len() == i,
            forall|k: int| 0 <= k < i ==> (#[trigger] res@[k])@ == snapshot_of(
                all@[k],
                all@,
                metrics@,
                platform,
            ),
        decreases all.len() - i,
    {
        res.push(build_snapshot(&all[i], all, metrics, platform));
        i = i + 1;
    }
    res
}

} // verus!
