//! Reading the output of the macOS process status tool (`ps -A -o pid= -o ppid= -o pcpu=
//! -o rss= -o comm=`).

use vstd::prelude::*;
use crate::display::{lines_of, split_lines};
use crate::process::joined;
use crate::text::{is_space, is_space_char, chars_of, slice_chars, string_of, append_chars};

verus! {

/// One line of the tool's output. The CPU column is kept as text: the application reads it as
/// a floating-point number and drops the line when it does not read as one.
pub struct PsEntry {
    pub pid: u32,
    pub parent_pid: Option<u32>,
    pub cpu_field: String,
    pub memory_bytes: u64,
    pub name: String,
}

/// The number of characters before the first white space.
pub open spec fn word_len(s: Seq<char>) -> nat
    decreases s.len(),
{
    if s.len() > 0 && !is_space(s[0]) {
        1 + word_len(s.drop_first())
    } else {
        0
    }
}

/// The number of white-space characters at the start.
pub open spec fn space_len(s: Seq<char>) -> nat
    decreases s.len(),
{
    if s.len() > 0 && is_space(s[0]) {
        1 + space_len(s.drop_first())
    } else {
        0
    }
}

/// The words of `s` as `str::split_whitespace` yields them.
pub open spec fn words_of(s: Seq<char>) -> Seq<Seq<char>>
    decreases s.len(),
{
    let t = s.skip(space_len(s) as int);
    if space_len(s) >= s.len() {
        Seq::empty()
    } else {
        proof {
            lemma_space_len(s);
            lemma_word_len(t);
        }
        seq![t.take(word_len(t) as int)] + words_of(t.skip(word_len(t) as int))
    }
}

pub proof fn lemma_space_len(s: Seq<char>)
    ensures
        space_len(s) <= s.len(),
        space_len(s) < s.len() ==> !is_space(s[space_len(s) as int]),
    decreases s.len(),
{
    if s.len() > 0 && is_space(s[0]) {
        lemma_space_len(s.drop_first());
    }
}

pub proof fn lemma_word_len(s: Seq<char>)
    ensures
        word_len(s) <= s.len(),
        s.len() > 0 && !is_space(s[0]) ==> word_len(s) >= 1,
    decreases s.len(),
{
    if s.len() > 0 && !is_space(s[0]) {
        lemma_word_len(s.drop_first());
    }
}

/// The value of a sequence of ASCII digits.
pub open spec fn digits_value(d: Seq<char>) -> nat
    decreases d.len(),
{
    if d.len() == 0 {
        0
    } else {
        digits_value(d.drop_last()) * 10 + ((d.last() as u32) - ('0' as u32)) as nat
    }
}

/// Whether every character is an ASCII digit.
pub open spec fn all_digits(d: Seq<char>) -> bool {
    forall|i: int| 0 <= i < d.len() ==> '0' <= #[trigger] d[i] && d[i] <= '9'
}

/// The number that `str::parse` reads from `w` for an unsigned type whose largest value is
/// `max`: an optional `+`, then one or more ASCII digits, the value no larger than `max`.
pub open spec fn parse_unsigned(w: Seq<char>, max: nat) -> Option<nat> {
    let d = if w.len() > 1 && w[0] == '+' {
        w.drop_first()
    } else {
        w
    };
    if d.len() > 0 && all_digits(d) && digits_value(d) <= max {
        Some(digits_value(d))
    } else {
        None
    }
}

/// The entry that one line yields: the process id, the parent id (unless it is zero or does
/// not read), the CPU column, the resident size in KiB times 1024 (saturating), and the rest
/// of the line as the name; no entry when a column is missing, the process id or size does
/// not read, or the name is empty.
pub open spec fn entry_of(line: Seq<char>) -> Option<(u32, Option<u32>, Seq<char>, u64, Seq<char>)> {
    let ws = words_of(line);
    if ws.len() < 4 {
        None
    } else {
        match (parse_unsigned(ws[0], u32::MAX as nat), parse_unsigned(ws[3], u64::MAX as nat)) {
            (Some(pid), Some(rss)) => {
                let name = joined(ws.skip(4), " "@);
                if name.len() == 0 {
                    None
                } else {
                    let parent = match parse_unsigned(ws[1], u32::MAX as nat) {
                        Some(p) => if p == 0 {
                            None
                        } else {
                            Some(p as u32)
                        },
                        None => None,
                    };
                    let memory = if rss * 1024 <= u64::MAX {
                        (rss * 1024) as u64
                    } else {
                        u64::MAX
                    };
                    Some((pid as u32, parent, ws[2], memory, name))
                }
            },
            _ => None,
        }
    }
}

/// The view of an entry.
pub open spec fn entry_view(e: PsEntry) -> (u32, Option<u32>, Seq<char>, u64, Seq<char>) {
    (e.pid, e.parent_pid, e.cpu_field@, e.memory_bytes, e.name@)
}

/// The entries of the lines that yield one, in order.
pub open spec fn entries_of(lines: Seq<Seq<char>>) -> Seq<(u32, Option<u32>, Seq<char>, u64, Seq<char>)>
    decreases lines.len(),
{
    if lines.len() == 0 {
        Seq::empty()
    } else {
        let rest = entries_of(lines.drop_first());
        match entry_of(lines[0]) {
            Some(e) => seq![e] + rest,
            None => rest,
        }
    }
}

proof fn lemma_digits_value_prefix(d: Seq<char>, i: int)
    requires
        0 <= i <= d.len(),
    ensures
        digits_value(d.take(i)) <= digits_value(d),
    decreases d.len(),
{
    if i < d.len() {
        assert(d.drop_last().take(i) =~= d.take(i));
        lemma_digits_value_prefix(d.drop_last(), i);
    } else {
        assert(d.take(i) =~= d);
    }
}

/// Reads an unsigned number no larger than `max`, as `str::parse` does.
fn parse_number(w: &Vec<char>, max: u64) -> (res: Option<u64>)
    ensures
        match parse_unsigned(w@, max as nat) {
            Some(v) => res == Some(v as u64),
            None => res is None,
        },
{
    let start: usize = if w.len() > 1 && w[0] == '+' { 1 } else { 0 };
    let ghost d = if w@.len() > 1 && w@[0] == '+' { w@.drop_first() } else { w@ };
    assert(d =~= w@.skip(start as int));
    if start >= w.len() {
        return None;
    }
    let mut value: u128 = 0;
    let mut i: usize = start;
    while i < w.len()
        invariant
            start <= i <= w.len(),
            d =~= w@.skip(start as int),
            d == (if w@.len() > 1 && w@[0] == '+' { w@.drop_first() } else { w@ }),
            value == digits_value(d.take(i - start)),
            value <= max,
            forall|k: int| 0 <= k < i - start ==> '0' <= #[trigger] d[k] && d[k] <= '9',
        decreases w.len() - i,
    {
        let c = w[i];
        if !('0' <= c && c <= '9') {
            assert(d[i - start] == c);
            assert(!all_digits(d));
            return None;
        }
        assert(d.take(i - start + 1).drop_last() =~= d.take(i - start));
        assert(d.take(i - start + 1).last() == c);
        value = value * 10 + ((c as u32) - ('0' as u32)) as u128;
        assert(value == digits_value(d.take(i - start + 1)));
        if value > max as u128 {
            proof {
                lemma_digits_value_prefix(d, i - start + 1);
            }
            return None;
        }
        i = i + 1;
    }
    assert(d.take(i - start) =~= d);
    Some(value as u64)
}

/// Splits a line into its words.
fn split_words(s: &Vec<char>) -> (res: Vec<Vec<char>>)
    ensures
        res@.map_values(|v: Vec<char>| v@) == words_of(s@),
{
    let mut out: Vec<Vec<char>> = Vec::new();
    let mut i: usize = 0;
    assert(s@.skip(0) =~= s@);
    while i < s.len()
        invariant
            i <= s.len(),
            words_of(s@) == out@.map_values(|v: Vec<char>| v@) + words_of(s@.skip(i as int)),
        decreases s.len() - i,
    {
        let ghost rest = s@.skip(i as int);
        let mut a: usize = i;
        while a < s.len() && is_space_char(s[a])
            invariant
                i <= a <= s.len(),
                space_len(rest) == (a - i) + space_len(s@.skip(a as int)),
            decreases s.len() - a,
        {
            assert(s@.skip(a as int).drop_first() =~= s@.skip(a + 1));
            a = a + 1;
        }
        assert(a < s.len() ==> s@.skip(a as int)[0] == s@[a as int]);
        assert(space_len(s@.skip(a as int)) == 0);
        assert(rest.skip(space_len(rest) as int) =~= s@.skip(a as int));
        if a == s.len() {
            assert(words_of(rest) =~= Seq::<Seq<char>>::empty());
            assert(out@.map_values(|v: Vec<char>| v@) + words_of(rest) =~= out@.map_values(
                |v: Vec<char>| v@,
            ));
            assert(s@.skip(s.len() as int) =~= Seq::<char>::empty());
            i = a;
        } else {
            let ghost t = s@.skip(a as int);
            let mut b: usize = a;
            while b < s.len() && !is_space_char(s[b])
                invariant
                    a <= b <= s.len(),
                    word_len(t) == (b - a) + word_len(s@.skip(b as int)),
                decreases s.len() - b,
            {
                assert(s@.skip(b as int).drop_first() =~= s@.skip(b + 1));
                b = b + 1;
            }
            assert(b < s.len() ==> s@.skip(b as int)[0] == s@[b as int]);
            assert(word_len(s@.skip(b as int)) == 0);
            let word = slice_chars(s, a, b);
            assert(word@ =~= t.take(word_len(t) as int));
            assert(t.skip(word_len(t) as int) =~= s@.skip(b as int));
            let ghost before = out@.map_values(|v: Vec<char>| v@);
            out.push(word);
            assert(out@.map_values(|v: Vec<char>| v@) =~= before.push(word@));
            assert(words_of(rest) == seq![word@] + words_of(s@.skip(b as int)));
            assert(before + words_of(rest) =~= before.push(word@) + words_of(s@.skip(b as int)));
            i = b;
        }
    }
    assert(s@.skip(s.len() as int) =~= Seq::<char>::empty());
    assert(out@.map_values(|v: Vec<char>| v@) + words_of(s@.skip(s.len() as int)) =~= out@.map_values(
        |v: Vec<char>| v@,
    ));
    out
}


fn join_words(ws: &Vec<Vec<char>>, from: usize) -> (res: Vec<char>)
    requires
        from <= ws.len(),
    ensures
        res@ == joined(ws@.map_values(|v: Vec<char>| v@).skip(from as int), " "@),
{
    let ghost all = ws@.map_values(|v: Vec<char>| v@).skip(from as int);
    let mut out: Vec<char> = Vec::new();
    let mut k: usize = from;
    proof {
        reveal_strlit(" ");
    }
    while k < ws.len()
        invariant
            from <= k <= ws.len(),
            all == ws@.map_values(|v: Vec<char>| v@).skip(from as int),
            out@ == joined(all.take(k - from), " "@),
        decreases ws.len() - k,
    {
        assert(all.take(k - from + 1).drop_last() =~= all.take(k - from));
        assert(all.take(k - from + 1).last() == ws@[k as int]@);
        if k > from {
            proof {
                reveal_strlit(" ");
            }
            out.push(' ');
            assert(out@ =~= joined(all.take(k - from), " "@) + " "@);
        }
        append_chars(&mut out, &ws[k]);
        if k == from {
            assert(out@ =~= all.take(1)[0]);
        }
        k = k + 1;
    }
    assert(all.take(ws.len() - from) =~= all);
    out
}

/// The entry that one line of the tool's output yields, if any.
pub fn parse_line(line: &str) -> (res: Option<PsEntry>)
    ensures
        match res {
            Some(e) => entry_of(line@) == Some(entry_view(e)),
            None => entry_of(line@) is None,
        },
{
    let chars = chars_of(line);
    let ws = split_words(&chars);
    let ghost wsv = ws@.map_values(|v: Vec<char>| v@);
    if ws.len() < 4 {
        return None;
    }
    assert(wsv[0] == ws@[0]@ && wsv[1] == ws@[1]@ && wsv[2] == ws@[2]@ && wsv[3] == ws@[3]@);
    let pid = match parse_number(&ws[0], 0xffff_ffff) {
        Some(p) => p,
        None => {
            return None;
        },
    };
    let rss = match parse_number(&ws[3], 0xffff_ffff_ffff_ffff) {
        Some(r) => r,
        None => {
            return None;
        },
    };
    let name = join_words(&ws, 4);
    if name.len() == 0 {
        return None;
    }
    let parent: Option<u32> = match parse_number(&ws[1], 0xffff_ffff) {
        Some(p) => if p == 0 {
            None
        } else {
            Some(p as u32)
        },
        None => None,
    };
    let memory: u64 = if rss <= 0xffff_ffff_ffff_ffff / 1024 {
        rss * 1024
    } else {
        0xffff_ffff_ffff_ffff
    };
    let e = PsEntry {
        pid: pid as u32,
        parent_pid: parent,
        cpu_field: string_of(&ws[2]),
        memory_bytes: memory,
        name: string_of(&name),
    };
    Some(e)
}

/// The entries of the tool's whole output, in order of its lines; lines that yield no entry
/// are skipped.
pub fn parse_macos_process_metrics(output: &str) -> (res: Vec<PsEntry>)
    ensures
        res@.map_values(|e: PsEntry| entry_view(e)) == entries_of(lines_of(output@)),
{
    let chars = chars_of(output);
    let lines = split_lines(&chars);
    let ghost ls = lines@.map_values(|v: Vec<char>| v@);
    let mut out: Vec<PsEntry> = Vec::new();
    let mut i: usize = lines.len();
    assert(ls.skip(ls.len() as int) =~= Seq::<Seq<char>>::empty());
    while i > 0
        invariant
            i <= lines.len(),
            ls == lines@.map_values(|v: Vec<char>| v@),
            out@.map_values(|e: PsEntry| entry_view(e)) == entries_of(ls.skip(i as int)),
        decreases i,
    {
        i = i - 1;
        let text = string_of(&lines[i]);
        assert(ls.skip(i as int).drop_first() =~= ls.skip(i + 1));
        assert(ls.skip(i as int)[0] == lines@[i as int]@);
        let ghost before = out@.map_values(|e: PsEntry| entry_view(e));
        match parse_line(text.as_str()) {
            Some(e) => {
                out.insert(0, e);
                assert(out@.map_values(|e: PsEntry| entry_view(e)) =~= seq![entry_view(e)] + before);
            },
            None => {},
        }
    }
    assert(ls.skip(0) =~= ls);
    out
}

/// The last entry for process `pid`: the one a map keyed by process id keeps.
pub fn entry_for(entries: &Vec<PsEntry>, pid: u32) -> (res: Option<&PsEntry>)
    ensures
        match res {
            Some(e) => e.pid == pid && exists|i: int|
                0 <= i < entries.len() && entries@[i] == *e && forall|k: int|
                    i < k < entries.len() ==> (#[trigger] entries@[k]).pid != pid,
            None => forall|k: int| 0 <= k < entries.len() ==> (#[trigger] entries@[k]).pid != pid,
        },
{
    let mut i: usize = entries.len();
    while i > 0
        invariant
            i <= entries.len(),
            forall|k: int| i <= k < entries.len() ==> (#[trigger] entries@[k]).pid != pid,
        decreases i,
    {
        if entries[i - 1].pid == pid {
            return Some(&entries[i - 1]);
        }
        i = i - 1;
    }
    None
}

} // verus!
