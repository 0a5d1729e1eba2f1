//! Text measured and numbers written for the screen.

use vstd::prelude::*;
use crate::text::{decimal, digit_char, push_decimal, string_of, chars_of, slice_chars};

verus! {

/// Two to the power `k`.
pub open spec fn two_to(k: nat) -> nat
    decreases k,
{
    if k == 0 {
        1
    } else {
        2 * two_to((k - 1) as nat)
    }
}

/// How many low bits of `n` a `f64` cannot hold: the halvings that bring `n` below 2^53.
pub open spec fn excess(n: nat) -> nat
    decreases n,
{
    if n < 0x20_0000_0000_0000 {
        0
    } else {
        1 + excess(n / 2)
    }
}

/// `a / d` rounded to the nearest integer, ties to the even one.
pub open spec fn round_half_even(a: nat, d: nat) -> nat {
    let q = a / d;
    let r = a % d;
    if 2 * r > d || (2 * r == d && q % 2 == 1) {
        q + 1
    } else {
        q
    }
}

/// The value of `n as f64`: `n` rounded to 53 significant bits, ties to even.
pub open spec fn as_f64(n: nat) -> nat {
    let unit = two_to(excess(n));
    round_half_even(n, unit) * unit
}

/// A number of tenths written with one decimal place.
pub open spec fn tenths_text(t: nat) -> Seq<char> {
    decimal(t / 10).push('.').push(digit_char(t % 10))
}

/// A byte count as the table shows it: whole bytes below a KiB, whole KiB below a MiB, and
/// MiB or GiB with one decimal, each rounded as Rust formats the `f64` quotient.
pub open spec fn bytes_text(n: u64) -> Seq<char> {
    if n >= 0x4000_0000 {
        tenths_text(round_half_even(as_f64(n as nat) * 10, 0x4000_0000)).push('G')
    } else if n >= 0x10_0000 {
        tenths_text(round_half_even(n as nat * 10, 0x10_0000)).push('M')
    } else if n >= 1024 {
        decimal(round_half_even(n as nat, 1024)).push('K')
    } else {
        decimal(n as nat).push('B')
    }
}

fn round_even(a: u128, d: u128) -> (res: u128)
    requires
        d > 0,
        d <= 0x1_0000_0000_0000_0000,
        a < 0x1_0000_0000_0000_0000_0000_0000,
    ensures
        res == round_half_even(a as nat, d as nat),
        res <= a / d + 1,
{
    let q = a / d;
    let r = a % d;
    if 2 * r > d || (2 * r == d && q % 2 == 1) {
        q + 1
    } else {
        q
    }
}

/// The value of `n as f64`, as an integer.
fn f64_value(n: u64) -> (res: u128)
    ensures
        res == as_f64(n as nat),
        res <= n as nat + 0x1_0000,
{
    let mut m: u64 = n;
    let mut unit: u128 = 1;
    let ghost mut k: nat = 0;
    while m >= 0x20_0000_0000_0000
        invariant
            excess(n as nat) == k + excess(m as nat),
            unit == two_to(k),
            (m as int) * (unit as int) <= n as int,
            unit >= 1,
            k > 0 ==> m >= 0x10_0000_0000_0000,
            k == 0 ==> unit == 1,
        decreases m,
    {
        assert((m / 2) as int * (2 * unit) as int <= (m as int) * (unit as int)) by (nonlinear_arith);
        assert(unit as int <= (m as int) * (unit as int)) by (nonlinear_arith)
            requires
                m >= 1,
                unit >= 1,
        ;
        m = m / 2;
        unit = unit * 2;
        proof {
            k = k + 1;
        }
    }
    assert(excess(m as nat) == 0);
    assert(unit <= 0x1_0000) by {
        if k > 0 {
            assert((m as int) * (unit as int) >= 0x10_0000_0000_0000 * (unit as int)) by (nonlinear_arith)
                requires
                    m >= 0x10_0000_0000_0000,
                    unit >= 1,
            ;
        }
    }
    let q = round_even(n as u128, unit);
    assert((n as int / unit as int) * (unit as int) <= n as int) by (nonlinear_arith)
        requires
            unit >= 1,
            n >= 0,
    ;
    assert((q as int) * (unit as int) <= (n as int / unit as int + 1) * unit as int) by (nonlinear_arith)
        requires
            q <= n as int / unit as int + 1,
            unit >= 1,
    ;
    assert((q as int) * (unit as int) <= n as int + unit as int) by (nonlinear_arith)
        requires
            (q as int) * (unit as int) <= (n as int / unit as int + 1) * unit as int,
            (n as int / unit as int) * (unit as int) <= n as int,
    ;
    q * unit
}

fn push_tenths(out: &mut Vec<char>, t: u128)
    ensures
        final(out)@ == old(out)@ + tenths_text(t as nat),
{
    push_decimal(out, t / 10);
    out.push('.');
    let d = t % 10;
    push_decimal(out, d);
    assert(decimal(d as nat) == seq![digit_char(d as nat)]);
    assert(old(out)@ + tenths_text(t as nat) =~= old(out)@ + decimal((t / 10) as nat) + seq!['.']
        + seq![digit_char(d as nat)]);
}

/// Writes a byte count for the memory column.
pub fn format_bytes(n: u64) -> (res: String)
    ensures
        res@ == bytes_text(n),
{
    let mut out: Vec<char> = Vec::new();
    if n >= 0x4000_0000 {
        let f = f64_value(n);
        push_tenths(&mut out, round_even(f * 10, 0x4000_0000));
        out.push('G');
    } else if n >= 0x10_0000 {
        push_tenths(&mut out, round_even(n as u128 * 10, 0x10_0000));
        out.push('M');
    } else if n >= 1024 {
        push_decimal(&mut out, round_even(n as u128, 1024));
        out.push('K');
    } else {
        push_decimal(&mut out, n as u128);
        out.push('B');
    }
    assert(out@ =~= bytes_text(n));
    string_of(&out)
}


/// The index of the first line feed in `s`, or its length when there is none.
pub open spec fn first_line_feed(s: Seq<char>) -> nat
    decreases s.len(),
{
    if s.len() == 0 {
        0
    } else if s[0] == '\n' {
        0
    } else {
        1 + first_line_feed(s.drop_first())
    }
}

/// A line without the carriage return that ends it, when it ends with one.
pub open spec fn strip_cr(line: Seq<char>) -> Seq<char> {
    if line.len() > 0 && line.last() == '\r' {
        line.drop_last()
    } else {
        line
    }
}

/// The lines of a text as `str::lines` yields them: split at each line feed, a carriage
/// return before the line feed dropped, and no empty line after a final line feed.
pub open spec fn lines_of(s: Seq<char>) -> Seq<Seq<char>>
    decreases s.len(),
{
    if s.len() == 0 {
        Seq::empty()
    } else {
        let i = first_line_feed(s);
        if i >= s.len() {
            seq![s]
        } else {
            seq![strip_cr(s.take(i as int))] + lines_of(s.skip(i as int + 1))
        }
    }
}

/// The screen rows that a line of `chars` characters takes at `width` columns: at least one.
pub open spec fn rows_for(chars: nat, width: nat) -> nat {
    let m = if chars == 0 { 1 } else { chars };
    m / width + if m % width == 0 { 0nat } else { 1nat }
}

/// The screen rows of all the lines.
pub open spec fn rows_of_lines(lines: Seq<Seq<char>>, width: nat) -> nat
    decreases lines.len(),
{
    if lines.len() == 0 {
        0
    } else {
        rows_for(lines[0].len(), width) + rows_of_lines(lines.drop_first(), width)
    }
}

/// The screen rows that `text` takes when wrapped at `width` columns (at least one).
pub open spec fn wrapped_rows(text: Seq<char>, width: nat) -> nat {
    rows_of_lines(lines_of(text), if width == 0 { 1 } else { width })
}

pub(crate) proof fn lemma_first_line_feed(s: Seq<char>, j: int)
    requires
        0 <= j <= s.len(),
        forall|k: int| 0 <= k < j ==> s[k] != '\n',
        j < s.len() ==> s[j] == '\n',
    ensures
        first_line_feed(s) == j,
    decreases s.len(),
{
    if j > 0 {
        assert forall|k: int| 0 <= k < j - 1 implies s.drop_first()[k] != '\n' by {
            assert(s.drop_first()[k] == s[k + 1]);
        }
        lemma_first_line_feed(s.drop_first(), j - 1);
    }
}

proof fn lemma_rows_for_bound(chars: nat, width: nat)
    requires
        width >= 1,
    ensures
        rows_for(chars, width) <= if chars == 0 { 1 } else { chars },
{
    let m = if chars == 0 { 1nat } else { chars };
    assert(m / width + (if m % width == 0 { 0nat } else { 1nat }) <= m) by (nonlinear_arith)
        requires
            m >= 1,
            width >= 1,
    {
        if width == 1 {
            assert(m / width == m);
        } else {
            assert(m / width * width + m % width == m);
            assert(m / width * 2 <= m / width * width);
            if m % width != 0 {
                assert(m / width + 1 <= m);
            }
        }
    }
}

fn rows_exec(chars: usize, width: usize) -> (res: usize)
    requires
        width >= 1,
    ensures
        res == rows_for(chars as nat, width as nat),
        res <= if chars == 0 { 1 } else { chars },
{
    proof {
        lemma_rows_for_bound(chars as nat, width as nat);
    }
    let m: usize = if chars == 0 { 1 } else { chars };
    let whole: usize = m / width;
    if m % width == 0 {
        whole
    } else {
        whole + 1
    }
}

/// How many screen rows `text` takes when each line is wrapped at `width` columns; an empty
/// line takes one row, and a width of zero counts as one.
pub fn wrapped_line_count(text: &str, width: usize) -> (res: usize)
    ensures
        res == wrapped_rows(text@, width as nat),
{
    let width: usize = if width == 0 { 1 } else { width };
    let s = chars_of(text);
    let n = s.len();
    let mut start: usize = 0;
    let mut total: usize = 0;
    assert(s@.skip(0) =~= s@);
    while start < n
        invariant
            start <= n == s.len(),
            s@ == text@,
            width >= 1,
            total <= start,
            wrapped_rows(text@, width as nat) == total + rows_of_lines(
                lines_of(s@.skip(start as int)),
                width as nat,
            ),
        decreases n - start,
    {
        let ghost rest = s@.skip(start as int);
        let mut j: usize = start;
        while j < n && s[j] != '\n'
            invariant
                start <= j <= n == s.len(),
                forall|k: int| start <= k < j ==> s@[k] != '\n',
            decreases n - j,
        {
            j = j + 1;
        }
        proof {
            assert forall|k: int| 0 <= k < j - start implies rest[k] != '\n' by {
                assert(rest[k] == s@[start + k]);
            }
            if j < n {
                assert(rest[j - start] == s@[j as int]);
            }
            lemma_first_line_feed(rest, j - start);
        }
        if j == n {
            let count = n - start;
            let rows = rows_exec(count, width);
            proof {
                assert(lines_of(rest) == seq![rest]);
                assert(lines_of(rest).drop_first() =~= Seq::<Seq<char>>::empty());
                lemma_rows_for_bound(count as nat, width as nat);
                assert(rest.len() == count);
            }
            total = total + rows;
            start = n;
            assert(s@.skip(n as int) =~= Seq::<char>::empty());
        } else {
            let ends_cr = j > start && s[j - 1] == '\r';
            let count = if ends_cr { j - start - 1 } else { j - start };
            let rows = rows_exec(count, width);
            proof {
                let line = rest.take(j - start);
                if j > start {
                    assert(line.last() == s@[j - 1]);
                }
                assert(strip_cr(line).len() == count);
                assert(rest.skip(j - start + 1) =~= s@.skip(j + 1));
                let ls = lines_of(rest);
                assert(ls == seq![strip_cr(line)] + lines_of(s@.skip(j + 1)));
                assert(ls[0] == strip_cr(line));
                assert(ls.drop_first() =~= lines_of(s@.skip(j + 1)));
                lemma_rows_for_bound(count as nat, width as nat);
            }
            total = total + rows;
            start = j + 1;
        }
    }
    total
}


/// The lines of a text, as `str::lines` yields them.
pub fn split_lines(s: &Vec<char>) -> (res: Vec<Vec<char>>)
    ensures
        res@.map_values(|v: Vec<char>| v@) == lines_of(s@),
{
    let n = s.len();
    let mut out: Vec<Vec<char>> = Vec::new();
    let mut start: usize = 0;
    assert(s@.skip(0) =~= s@);
    while start < n
        invariant
            start <= n == s.len(),
            lines_of(s@) == out@.map_values(|v: Vec<char>| v@) + lines_of(s@.skip(start as int)),
        decreases n - start,
    {
        let ghost rest = s@.skip(start as int);
        let ghost before = out@.map_values(|v: Vec<char>| v@);
        let mut j: usize = start;
        while j < n && s[j] != '\n'
            invariant
                start <= j <= n == s.len(),
                forall|k: int| start <= k < j ==> s@[k] != '\n',
            decreases n - j,
        {
            j = j + 1;
        }
        proof {
            assert forall|k: int| 0 <= k < j - start implies rest[k] != '\n' by {
                assert(rest[k] == s@[start + k]);
            }
            if j < n {
                assert(rest[j - start] == s@[j as int]);
            }
            lemma_first_line_feed(rest, j - start);
        }
        if j == n {
            let line = slice_chars(s, start, n);
            assert(line@ =~= rest);
            out.push(line);
            assert(out@.map_values(|v: Vec<char>| v@) =~= before.push(rest));
            assert(s@.skip(n as int) =~= Seq::<char>::empty());
            assert(before + lines_of(rest) =~= before.push(rest) + lines_of(s@.skip(n as int)));
            start = n;
        } else {
            let end: usize = if j > start && s[j - 1] == '\r' { j - 1 } else { j };
            let line = slice_chars(s, start, end);
            proof {
                let raw = rest.take(j - start);
                if j > start {
                    assert(raw.last() == s@[j - 1]);
                }
                assert(line@ =~= strip_cr(raw));
                assert(rest.skip(j - start + 1) =~= s@.skip(j + 1));
            }
            out.push(line);
            assert(out@.map_values(|v: Vec<char>| v@) =~= before.push(line@));
            assert(before + lines_of(rest) =~= before.push(line@) + lines_of(s@.skip(j + 1)));
            start = j + 1;
        }
    }
    assert(s@.skip(n as int) =~= Seq::<char>::empty());
    assert(out@.map_values(|v: Vec<char>| v@) + lines_of(s@.skip(n as int)) =~= out@.map_values(
        |v: Vec<char>| v@,
    ));
    out
}


/// Every line takes at least one row, and a line no wider than the viewport takes exactly one.
pub proof fn lemma_rows_per_line(lines: Seq<Seq<char>>, width: nat)
    requires
        width >= 1,
    ensures
        rows_of_lines(lines, width) >= lines.len(),
        (forall|i: int| 0 <= i < lines.len() ==> (#[trigger] lines[i]).len() <= width)
            ==> rows_of_lines(lines, width) == lines.len(),
    decreases lines.len(),
{
    if lines.len() > 0 {
        lemma_rows_per_line(lines.drop_first(), width);
        let c = lines[0].len();
        let m = if c == 0 { 1nat } else { c };
        assert(rows_for(c, width) >= 1) by (nonlinear_arith)
            requires
                m >= 1,
                width >= 1,
                rows_for(c, width) == m / width + if m % width == 0 { 0nat } else { 1nat },
        {
            if m / width == 0 {
                assert(m % width == m);
            }
        }
        if forall|i: int| 0 <= i < lines.len() ==> (#[trigger] lines[i]).len() <= width {
            assert(m <= width);
            assert(rows_for(c, width) == 1) by (nonlinear_arith)
                requires
                    1 <= m <= width,
                    rows_for(c, width) == m / width + if m % width == 0 { 0nat } else { 1nat },
            {
                if m == width {
                    assert(m / width == 1);
                } else {
                    assert(m / width == 0);
                }
            }
            assert forall|i: int| 0 <= i < lines.drop_first().len() implies (
            #[trigger] lines.drop_first()[i]).len() <= width by {
                assert(lines.drop_first()[i] == lines[i + 1]);
            }
        }
    }
}

} // verus!
