//! The sort modes of the process table and the key presses that cycle through them.

use vstd::prelude::*;

verus! {

/// How the process table is ordered.
#[derive(Clone, Copy, Debug, PartialEq, Eq, Structural)]
pub enum SortMode {
    Normal,
    NameAsc,
    NameDesc,
    CpuDesc,
    CpuAsc,
    MemoryDesc,
    MemoryAsc,
}

/// The first mode of the cycle that `key` starts (`n`, `c` or `m`).
pub open spec fn first_of(key: char) -> SortMode {
    if key == 'n' {
        SortMode::NameAsc
    } else if key == 'c' {
        SortMode::CpuDesc
    } else {
        SortMode::MemoryDesc
    }
}

/// The second mode of the cycle that `key` starts (`n`, `c` or `m`).
pub open spec fn second_of(key: char) -> SortMode {
    if key == 'n' {
        SortMode::NameDesc
    } else if key == 'c' {
        SortMode::CpuAsc
    } else {
        SortMode::MemoryAsc
    }
}

/// Whether `key` is one of the three sort keys.
pub open spec fn is_sort_key(key: char) -> bool {
    key == 'n' || key == 'c' || key == 'm'
}

/// The mode after pressing `key` in `mode`: a sort key moves to the first mode of its cycle,
/// from the first to the second, and from the second back to normal order; any other key
/// leaves the mode as it is.
pub open spec fn spec_next_for(mode: SortMode, key: char) -> SortMode {
    if !is_sort_key(key) {
        mode
    } else if mode == first_of(key) {
        second_of(key)
    } else if mode == second_of(key) {
        SortMode::Normal
    } else {
        first_of(key)
    }
}

/// Whether the mode orders rows largest first (or Z to A for names).
pub open spec fn spec_descending(mode: SortMode) -> bool {
    mode == SortMode::NameDesc || mode == SortMode::CpuDesc || mode == SortMode::MemoryDesc
}

impl SortMode {
    /// The mode after the user presses `key`.
    pub fn next_for(self, key: char) -> (res: SortMode)
        ensures
            res == spec_next_for(self, key),
    {
        match key {
            'n' => match self {
                SortMode::NameAsc => SortMode::NameDesc,
                SortMode::NameDesc => SortMode::Normal,
                _ => SortMode::NameAsc,
            },
            'c' => match self {
                SortMode::CpuDesc => SortMode::CpuAsc,
                SortMode::CpuAsc => SortMode::Normal,
                _ => SortMode::CpuDesc,
            },
            'm' => match self {
                SortMode::MemoryDesc => SortMode::MemoryAsc,
                SortMode::MemoryAsc => SortMode::Normal,
                _ => SortMode::MemoryDesc,
            },
            _ => self,
        }
    }

    /// The short name shown in the title bar.
    pub fn label(self) -> (res: &'static str)
        ensures
            res@ == spec_label(self),
    {
        proof {
            reveal_strlit("normal");
            reveal_strlit("name ↑");
            reveal_strlit("name ↓");
            reveal_strlit("CPU ↓");
            reveal_strlit("CPU ↑");
            reveal_strlit("memory ↓");
            reveal_strlit("memory ↑");
        }
        match self {
            SortMode::Normal => "normal",
            SortMode::NameAsc => "name ↑",
            SortMode::NameDesc => "name ↓",
            SortMode::CpuDesc => "CPU ↓",
            SortMode::CpuAsc => "CPU ↑",
            SortMode::MemoryDesc => "memory ↓",
            SortMode::MemoryAsc => "memory ↑",
        }
    }

    /// Whether the mode orders rows largest first (or Z to A for names).
    pub fn is_descending(self) -> (res: bool)
        ensures
            res == spec_descending(self),
    {
        match self {
            SortMode::NameDesc | SortMode::CpuDesc | SortMode::MemoryDesc => true,
            _ => false,
        }
    }
}

/// The label of each mode, as text.
pub open spec fn spec_label(mode: SortMode) -> Seq<char> {
    match mode {
        SortMode::Normal => seq!['n', 'o', 'r', 'm', 'a', 'l'],
        SortMode::NameAsc => seq!['n', 'a', 'm', 'e', ' ', '↑'],
        SortMode::NameDesc => seq!['n', 'a', 'm', 'e', ' ', '↓'],
        SortMode::CpuDesc => seq!['C', 'P', 'U', ' ', '↓'],
        SortMode::CpuAsc => seq!['C', 'P', 'U', ' ', '↑'],
        SortMode::MemoryDesc => seq!['m', 'e', 'm', 'o', 'r', 'y', ' ', '↓'],
        SortMode::MemoryAsc => seq!['m', 'e', 'm', 'o', 'r', 'y', ' ', '↑'],
    }
}

/// Pressing the same sort key three times returns to the mode one started from, when that
/// mode is normal order or one of the two modes of that key's cycle; and the first press of a
/// numeric key sorts largest first while the first press of `n` sorts A to Z.
pub proof fn lemma_three_presses_return(mode: SortMode, key: char)
    requires
        is_sort_key(key),
        mode == SortMode::Normal || mode == first_of(key) || mode == second_of(key),
    ensures
        spec_next_for(spec_next_for(spec_next_for(mode, key), key), key) == mode,
        spec_next_for(SortMode::Normal, key) == first_of(key),
        (key == 'c' || key == 'm') ==> spec_descending(first_of(key)),
        key == 'n' ==> !spec_descending(first_of(key)),
{
}

/// After any sort key, the table is either in normal order or in that key's cycle, and
/// from any mode outside the cycle the key starts the cycle at its first mode.
pub proof fn lemma_sort_key_enters_cycle(mode: SortMode, key: char)
    requires
        is_sort_key(key),
    ensures
        spec_next_for(mode, key) == first_of(key) || spec_next_for(mode, key) == second_of(key)
            || spec_next_for(mode, key) == SortMode::Normal,
        (mode != first_of(key) && mode != second_of(key)) ==> spec_next_for(mode, key)
            == first_of(key),
{
}

} // verus!
