//! The dope sheet's adaptive time ruler: which tick units it marks, where the
//! marks land inside the visible window, and how a labelled mark reads.
//!
//! The view itself is a smooth pixel viewport; the caller turns it into the
//! tick window (`origin..=end`) and the minimum spacing, in ticks, that a
//! labelled major and an unlabelled minor need to stay legible. Everything
//! here is whole ticks.

use vstd::prelude::*;

use crate::recording::{clock_chars, clock_text};
use crate::timeline::TICKS_PER_SECOND;
use crate::versions::{padded_digits, string_from_chars, zero_padded};

verus! {

/// The ruler's unit ladder in ticks, largest first: a minute down to a tick.
pub open spec fn units() -> Seq<u32> {
    seq![3600u32, 900, 300, 60, 15, 1]
}

fn unit_at(i: usize) -> (u: u32)
    requires
        i < 6,
    ensures
        u == units()[i as int],
{
    match i {
        0 => 3600,
        1 => 900,
        2 => 300,
        3 => 60,
        4 => 15,
        _ => 1,
    }
}

/// The first rung of the ladder, from rung `i` down, that is below `below`
/// and at least `min` ticks long.
pub open spec fn first_unit(min: int, below: int, i: int) -> Option<u32>
    decreases 6 - i,
{
    if i >= 6 || i < 0 {
        None
    } else if units()[i] < below && units()[i] >= min {
        Some(units()[i])
    } else {
        first_unit(min, below, i + 1)
    }
}

/// The labelled unit: the first rung spaced at least `major_min` ticks, else
/// a single tick.
pub open spec fn major_unit(major_min: int) -> u32 {
    match first_unit(major_min, u32::MAX + 1, 0) {
        Some(u) => u,
        None => 1,
    }
}

fn find_unit(min: u32, below: u64) -> (r: Option<u32>)
    ensures
        r == first_unit(min as int, below as int, 0),
{
    let mut i: usize = 0;
    while i < 6
        invariant
            i <= 6,
            first_unit(min as int, below as int, 0) == first_unit(min as int, below as int, i as int),
        decreases 6 - i,
    {
        let u = unit_at(i);
        if (u as u64) < below && u >= min {
            return Some(u);
        }
        i = i + 1;
    }
    None
}

/// The ruler's units: the labelled major (the first rung of the ladder spaced
/// at least `major_min` ticks apart, else one tick) and the unlabelled minor
/// one rung below it (the first smaller rung spaced at least `minor_min`
/// ticks), if any.
pub fn ruler_units(major_min: u32, minor_min: u32) -> (r: (u32, Option<u32>))
    ensures
        r.0 == major_unit(major_min as int),
        r.1 == first_unit(minor_min as int, major_unit(major_min as int) as int, 0),
{
    let major = match find_unit(major_min, 0x1_0000_0000u64) {
        Some(u) => u,
        None => 1,
    };
    let minor = find_unit(minor_min, major as u64);
    (major, minor)
}

/// The smallest multiple of `unit` at or after `origin`.
pub open spec fn first_multiple(origin: int, unit: int) -> int {
    if origin % unit == 0 {
        origin
    } else {
        origin - origin % unit + unit
    }
}

/// How many of `first`, `first + unit`, `first + 2 * unit`, ... are at most
/// `end`.
pub open spec fn mark_count(first: int, unit: int, end: int) -> nat {
    if first > end {
        0
    } else {
        ((end - first) / unit + 1) as nat
    }
}

/// The labelled marks: every multiple of `major` in the window, in order.
pub open spec fn major_marks(origin: int, major: int, end: int) -> Seq<(u32, bool)> {
    let first = first_multiple(origin, major);
    Seq::new(mark_count(first, major, end), |i: int| ((first + i * major) as u32, true))
}

/// The first `n` multiples of `minor` from `first`, minus those a labelled
/// major already marks, in order.
pub open spec fn minor_marks(first: int, minor: int, major: int, n: int) -> Seq<(u32, bool)>
    decreases n,
{
    if n <= 0 {
        Seq::empty()
    } else {
        let before = minor_marks(first, minor, major, n - 1);
        let t = first + (n - 1) * minor;
        if t % major != 0 {
            before.push((t as u32, false))
        } else {
            before
        }
    }
}

/// Every mark the ruler draws over `origin..=end`: the labelled majors first,
/// then the minors that fall between them.
pub open spec fn ruler_marks_spec(origin: int, end: int, major: int, minor: Option<u32>) -> Seq<(u32, bool)> {
    major_marks(origin, major, end) + match minor {
        None => Seq::empty(),
        Some(m) => {
            let first = first_multiple(origin, m as int);
            minor_marks(first, m as int, major, mark_count(first, m as int, end) as int)
        },
    }
}

fn first_multiple_exec(origin: u32, unit: u32) -> (f: u32)
    requires
        unit > 0,
        origin + unit <= u32::MAX,
    ensures
        f == first_multiple(origin as int, unit as int),
        f % unit == 0,
        origin <= f < origin + unit,
{
    let r = origin % unit;
    if r == 0 {
        origin
    } else {
        proof {
            vstd::arithmetic::div_mod::lemma_fundamental_div_mod(origin as int, unit as int);
            vstd::arithmetic::div_mod::lemma_mod_multiples_basic((origin / unit) as int + 1, unit as int);
            assert((origin - r) as int == (origin / unit) * unit) by (nonlinear_arith)
                requires
                    origin as int == unit * (origin / unit) + origin % unit,
                    r == origin % unit,
            ;
            assert(((origin / unit) as int + 1) * unit == (origin - r) + unit) by (nonlinear_arith)
                requires
                    (origin - r) as int == (origin / unit) * unit,
            ;
        }
        origin - r + unit
    }
}

proof fn lemma_count_at_exit(first: int, unit: int, end: int, i: int)
    requires
        unit > 0,
        i >= 0,
        first + i * unit > end,
        i > 0 ==> first + (i - 1) * unit <= end,
        i == 0 ==> first > end,
    ensures
        mark_count(first, unit, end) == i,
{
    if i > 0 {
        assert((i - 1) * unit == i * unit - unit) by (nonlinear_arith);
        let r = end - first - (i - 1) * unit;
        vstd::arithmetic::div_mod::lemma_fundamental_div_mod_converse(end - first, unit, i - 1, r);
    }
}

/// The ruler's marks over the visible ticks `origin..=end`, each with
/// whether it is a labelled major: the multiples of `major` first, then the
/// multiples of `minor` that are not also multiples of `major`.
pub fn ruler_marks(origin: u32, end: u32, major: u32, minor: Option<u32>) -> (marks: Vec<(u32, bool)>)
    requires
        major > 0,
        origin + major <= u32::MAX,
        end + major <= u32::MAX,
        minor matches Some(m) ==> m > 0 && origin + m <= u32::MAX && end + m <= u32::MAX,
    ensures
        marks@ == ruler_marks_spec(origin as int, end as int, major as int, minor),
{
    let mut marks: Vec<(u32, bool)> = Vec::new();
    let first = first_multiple_exec(origin, major);
    let mut tick = first;
    let ghost mut i: int = 0;
    while tick <= end
        invariant
            major > 0,
            end + major <= u32::MAX,
            i >= 0,
            tick == first + i * major,
            i > 0 ==> first + (i - 1) * major <= end,
            i == 0 ==> tick == first,
            marks@ == Seq::new(i as nat, |k: int| ((first + k * major) as u32, true)),
        decreases end + major - tick,
    {
        marks.push((tick, true));
        proof {
            assert(first + (i + 1) * major == first + i * major + major) by (nonlinear_arith);
            assert(marks@ =~= Seq::new((i + 1) as nat, |k: int| ((first + k * major) as u32, true)));
            i = i + 1;
        }
        tick = tick + major;
    }
    proof {
        lemma_count_at_exit(first as int, major as int, end as int, i);
        assert(marks@ =~= major_marks(origin as int, major as int, end as int));
    }
    let ghost majors = marks@;
    if let Some(m) = minor {
        let first_m = first_multiple_exec(origin, m);
        let mut tick = first_m;
        let ghost mut j: int = 0;
        while tick <= end
            invariant
                m > 0,
                major > 0,
                end + m <= u32::MAX,
                j >= 0,
                tick == first_m + j * m,
                j > 0 ==> first_m + (j - 1) * m <= end,
                j == 0 ==> tick == first_m,
                marks@ == majors + minor_marks(first_m as int, m as int, major as int, j),
            decreases end + m - tick,
        {
            if tick % major != 0 {
                marks.push((tick, false));
            }
            proof {
                assert(first_m + (j + 1) * m == first_m + j * m + m) by (nonlinear_arith);
                assert(first_m + (j + 1 - 1) * m == tick);
                j = j + 1;
            }
            tick = tick + m;
        }
        proof {
            lemma_count_at_exit(first_m as int, m as int, end as int, j);
        }
    } else {
        assert(marks@ =~= majors + Seq::<(u32, bool)>::empty());
    }
    marks
}

/// How a labelled mark reads: the `m:ss` clock, and when the labelled unit
/// is finer than a second, the tick within the second as `+tt`.
pub open spec fn ruler_label_text(tick: u32, major: u32) -> Seq<char> {
    if major >= TICKS_PER_SECOND {
        clock_text(tick)
    } else {
        clock_text(tick) + seq!['+'] + zero_padded((tick % TICKS_PER_SECOND) as nat, 2)
    }
}

/// The text of the labelled mark at `tick` for the labelled unit `major`.
pub fn ruler_label(tick: u32, major: u32) -> (s: String)
    ensures
        s@ == ruler_label_text(tick, major),
{
    let mut chars = clock_chars(tick);
    if major < TICKS_PER_SECOND {
        chars.push('+');
        let mut frame = padded_digits(tick % TICKS_PER_SECOND, 2);
        chars.append(&mut frame);
    }
    string_from_chars(&chars)
}

} // verus!
