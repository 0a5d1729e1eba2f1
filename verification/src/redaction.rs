//! The bounds put on evidence before it is shown to a model.

use vstd::prelude::*;
use crate::process::{ProcessSnapshot, SnapshotView, copy_texts};
use crate::text::{take_chars, prefix_chars};

verus! {

/// The note added to every bounded snapshot.
pub open spec fn omission_note() -> Seq<char> {
    "environment variables and secrets are intentionally omitted"@
}

/// An optional text cut to its first `n` characters.
pub open spec fn bound_text(o: Option<Seq<char>>, n: nat) -> Option<Seq<char>> {
    match o {
        Some(t) => Some(take_chars(t, n)),
        None => None,
    }
}

/// A list cut to its first `n` entries.
pub open spec fn bound_list(s: Seq<Seq<char>>, n: nat) -> Seq<Seq<char>> {
    if n < s.len() {
        s.take(n as int)
    } else {
        s
    }
}

/// The snapshot as it may be shown to a model: the command line cut to 256 characters, the
/// executable path to 512, file and network activity to 20 entries each, and a note that
/// environment variables and secrets were left out.
pub open spec fn bounded_view(s: SnapshotView) -> SnapshotView {
    SnapshotView {
        command_line: bound_text(s.command_line, 256),
        executable: bound_text(s.executable, 512),
        file_activity: bound_list(s.file_activity, 20),
        network_activity: bound_list(s.network_activity, 20),
        unavailable: s.unavailable.push(omission_note()),
        ..s
    }
}

fn bound_opt(o: &Option<String>, n: usize) -> (res: Option<String>)
    ensures
        crate::process::opt_text(res) == bound_text(crate::process::opt_text(*o), n as nat),
{
    match o {
        Some(t) => Some(prefix_chars(t.as_str(), n)),
        None => None,
    }
}

fn bound_vec(v: &Vec<String>, n: usize) -> (res: Vec<String>)
    ensures
        res.deep_view() == bound_list(v.deep_view(), n as nat),
{
    let mut res = copy_texts(v);
    let ghost before = res.deep_view();
    res.truncate(n);
    assert(res.deep_view() =~= bound_list(before, n as nat));
    res
}

/// A copy of the snapshot with the bounds of `bounded_view` applied.
pub fn bounded(snapshot: &ProcessSnapshot) -> (res: ProcessSnapshot)
    ensures
        res@ == bounded_view(snapshot@),
{
    let mut result = snapshot.duplicate();
    result.command_line = bound_opt(&snapshot.command_line, 256);
    result.executable = bound_opt(&snapshot.executable, 512);
    result.file_activity = bound_vec(&snapshot.file_activity, 20);
    result.network_activity = bound_vec(&snapshot.network_activity, 20);
    let ghost before = result.unavailable.deep_view();
    result.unavailable.push(String::from_str(
        "environment variables and secrets are intentionally omitted",
    ));
    assert(result.unavailable.deep_view() =~= before.push(omission_note()));
    result
}


/// A bounded snapshot keeps its bounds: the command line holds at most 256 characters and is
/// a prefix of the given one, the executable path at most 512, the activity lists at most 20
/// entries each, the omission note is the last unavailable fact, and the identity and
/// resource figures are unchanged.
pub proof fn lemma_bounded_within_limits(s: SnapshotView)
    ensures
        bounded_view(s).command_line matches Some(c) ==> (c.len() <= 256 && (s.command_line
            matches Some(o) && c == o.take(c.len() as int))),
        bounded_view(s).command_line is Some <==> s.command_line is Some,
        bounded_view(s).executable matches Some(e) ==> (e.len() <= 512 && (s.executable
            matches Some(o) && e == o.take(e.len() as int))),
        bounded_view(s).executable is Some <==> s.executable is Some,
        bounded_view(s).file_activity.len() <= 20,
        bounded_view(s).network_activity.len() <= 20,
        bounded_view(s).unavailable.last() == omission_note(),
        bounded_view(s).pid == s.pid && bounded_view(s).start_time == s.start_time,
        bounded_view(s).memory_bytes == s.memory_bytes,
        bounded_view(s).cpu_percent_bits == s.cpu_percent_bits,
{
    if let Some(o) = s.command_line {
        if 256 >= o.len() {
            assert(o.take(o.len() as int) =~= o);
        }
    }
    if let Some(o) = s.executable {
        if 512 >= o.len() {
            assert(o.take(o.len() as int) =~= o);
        }
    }
}

/// Bounding twice cuts nothing more than bounding once; it only adds the note again.
pub proof fn lemma_bounded_twice(s: SnapshotView)
    ensures
        bounded_view(bounded_view(s)).command_line == bounded_view(s).command_line,
        bounded_view(bounded_view(s)).executable == bounded_view(s).executable,
        bounded_view(bounded_view(s)).file_activity == bounded_view(s).file_activity,
        bounded_view(bounded_view(s)).network_activity == bounded_view(s).network_activity,
        bounded_view(bounded_view(s)).unavailable == bounded_view(s).unavailable.push(
            omission_note(),
        ),
{
}

} // verus!
