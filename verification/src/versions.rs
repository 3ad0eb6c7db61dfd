//! Versioned score-file naming: version `n` of a score with prefix `boss` is
//! `boss.v0007.ron`. The author tool always writes `latest + 1`; readers load
//! the highest version; rolling back is deleting the newest file. Parsing is
//! strict about shape and lenient about digit count (a hand-renamed
//! `boss.v12.ron` still reads).

use vstd::prelude::*;
use vstd::string::StrSliceExecFns;

verus! {

// --- Decimal digits -------------------------------------------------------------

pub open spec fn is_digit(c: char) -> bool {
    '0' <= c <= '9'
}

pub open spec fn all_digits(s: Seq<char>) -> bool {
    forall|i: int| 0 <= i < s.len() ==> is_digit(#[trigger] s[i])
}

pub open spec fn digit_value(c: char) -> int {
    c as int - '0' as int
}

pub open spec fn digit_char(d: int) -> char {
    if d == 0 {
        '0'
    } else if d == 1 {
        '1'
    } else if d == 2 {
        '2'
    } else if d == 3 {
        '3'
    } else if d == 4 {
        '4'
    } else if d == 5 {
        '5'
    } else if d == 6 {
        '6'
    } else if d == 7 {
        '7'
    } else if d == 8 {
        '8'
    } else {
        '9'
    }
}

/// The number a string of decimal digits spells.
pub open spec fn decimal_value(s: Seq<char>) -> int
    decreases s.len(),
{
    if s.len() == 0 {
        0
    } else {
        decimal_value(s.drop_last()) * 10 + digit_value(s.last())
    }
}

/// The decimal digits of `n`, most significant first, no leading zeros.
pub open spec fn decimal_digits(n: nat) -> Seq<char>
    decreases n,
{
    if n < 10 {
        seq![digit_char(n as int)]
    } else {
        decimal_digits(n / 10).push(digit_char((n % 10) as int))
    }
}

/// The decimal digits of `n`, left-padded with zeros to at least `width`.
pub open spec fn zero_padded(n: nat, width: nat) -> Seq<char> {
    let d = decimal_digits(n);
    if d.len() < width {
        Seq::new((width - d.len()) as nat, |i: int| '0') + d
    } else {
        d
    }
}

pub open spec fn dot_v() -> Seq<char> {
    seq!['.', 'v']
}

pub open spec fn dot_ron() -> Seq<char> {
    seq!['.', 'r', 'o', 'n']
}

/// The file name of version `n` of a score: `<prefix>.v<n, 4 digits>.ron`.
pub open spec fn version_name(prefix: Seq<char>, n: nat) -> Seq<char> {
    prefix + dot_v() + zero_padded(n, 4) + dot_ron()
}

/// The digits between `<prefix>.v` and `.ron`, if `name` has that shape.
pub open spec fn version_digits(name: Seq<char>, prefix: Seq<char>) -> Option<Seq<char>> {
    let h = prefix.len() + 2int;
    if name.len() >= h + 4 && name.subrange(0, prefix.len() as int) == prefix
        && name.subrange(prefix.len() as int, h) == dot_v() && name.subrange(
        name.len() - 4,
        name.len() as int,
    ) == dot_ron() {
        Some(name.subrange(h, name.len() - 4))
    } else {
        None
    }
}

/// The version a score file name carries for `prefix`: the digits must be
/// non-empty, all decimal, and fit a `u32`.
pub open spec fn parse_version_spec(name: Seq<char>, prefix: Seq<char>) -> Option<u32> {
    match version_digits(name, prefix) {
        Some(d) => if d.len() > 0 && all_digits(d) && decimal_value(d) <= u32::MAX {
            Some(decimal_value(d) as u32)
        } else {
            None
        },
        None => None,
    }
}

/// The larger of two optional versions (`None` below everything).
pub open spec fn max_opt(a: Option<u32>, b: Option<u32>) -> Option<u32> {
    match (a, b) {
        (Some(x), Some(y)) => Some(if x >= y { x } else { y }),
        (Some(x), None) => Some(x),
        (None, y) => y,
    }
}

/// The highest version among `names` for `prefix`, skipping strangers.
pub open spec fn max_version_spec(names: Seq<Seq<char>>, prefix: Seq<char>) -> Option<u32>
    decreases names.len(),
{
    if names.len() == 0 {
        None
    } else {
        max_opt(max_version_spec(names.drop_last(), prefix), parse_version_spec(names.last(), prefix))
    }
}

/// `a` sorts strictly before `b` (lexicographic by code point).
pub open spec fn lex_lt(a: Seq<char>, b: Seq<char>) -> bool
    decreases a.len(),
{
    if b.len() == 0 {
        false
    } else if a.len() == 0 {
        true
    } else if a[0] != b[0] {
        (a[0] as u32) < (b[0] as u32)
    } else {
        lex_lt(a.drop_first(), b.drop_first())
    }
}

// --- Lemmas ---------------------------------------------------------------------

pub proof fn lemma_decimal_value_concat(a: Seq<char>, b: Seq<char>)
    ensures
        decimal_value(a + b) == decimal_value(a) * pow10(b.len()) + decimal_value(b),
    decreases b.len(),
{
    if b.len() == 0 {
        assert(a + b =~= a);
    } else {
        lemma_decimal_value_concat(a, b.drop_last());
        assert((a + b).drop_last() =~= a + b.drop_last());
        assert((a + b).last() == b.last());
        assert(pow10(b.len()) == pow10((b.len() - 1) as nat) * 10);
        assert(decimal_value(a) * pow10((b.len() - 1) as nat) * 10 == decimal_value(a) * (pow10(
            (b.len() - 1) as nat,
        ) * 10)) by (nonlinear_arith);
    }
}

pub open spec fn pow10(k: nat) -> int
    decreases k,
{
    if k == 0 {
        1
    } else {
        pow10((k - 1) as nat) * 10
    }
}

pub proof fn lemma_zeros_value(k: nat)
    ensures
        decimal_value(Seq::new(k, |i: int| '0')) == 0,
        all_digits(Seq::new(k, |i: int| '0')),
    decreases k,
{
    if k > 0 {
        lemma_zeros_value((k - 1) as nat);
        assert(Seq::new(k, |i: int| '0').drop_last() =~= Seq::new((k - 1) as nat, |i: int| '0'));
    }
}

pub proof fn lemma_digit_char(d: int)
    requires
        0 <= d < 10,
    ensures
        digit_value(digit_char(d)) == d,
        is_digit(digit_char(d)),
{
    assert('0' as int == 48);
    assert('9' as int == 57);
}

pub proof fn lemma_decimal_digits(n: nat)
    ensures
        decimal_value(decimal_digits(n)) == n,
        all_digits(decimal_digits(n)),
        decimal_digits(n).len() > 0,
    decreases n,
{
    lemma_digit_char((n % 10) as int);
    if n < 10 {
        lemma_digit_char(n as int);
        let one = seq![digit_char(n as int)];
        assert(one.drop_last() =~= Seq::<char>::empty());
        assert(decimal_value(Seq::<char>::empty()) == 0);
        assert(decimal_value(one) == decimal_value(one.drop_last()) * 10 + digit_value(one.last()));
        assert(decimal_value(one) == n);
    }
    if n >= 10 {
        lemma_decimal_digits(n / 10);
        let d = decimal_digits(n / 10);
        assert(decimal_digits(n).drop_last() =~= d);
        assert(decimal_digits(n).last() == digit_char((n % 10) as int));
        assert(decimal_value(decimal_digits(n)) == decimal_value(d) * 10 + digit_value(
            digit_char((n % 10) as int),
        ));
        assert((n / 10) * 10 + n % 10 == n);
        assert forall|i: int| 0 <= i < decimal_digits(n).len() implies is_digit(
            #[trigger] decimal_digits(n)[i],
        ) by {
            if i < d.len() {
                assert(decimal_digits(n)[i] == d[i]);
            }
        }
    }
}

pub proof fn lemma_zero_padded(n: nat, width: nat)
    ensures
        decimal_value(zero_padded(n, width)) == n,
        all_digits(zero_padded(n, width)),
        zero_padded(n, width).len() > 0,
{
    lemma_decimal_digits(n);
    let d = decimal_digits(n);
    if d.len() < width {
        let z = Seq::new((width - d.len()) as nat, |i: int| '0');
        lemma_zeros_value((width - d.len()) as nat);
        lemma_decimal_value_concat(z, d);
        assert forall|i: int| 0 <= i < (z + d).len() implies is_digit(#[trigger] (z + d)[i]) by {
            if i < z.len() {
                assert((z + d)[i] == z[i]);
            } else {
                assert((z + d)[i] == d[i - z.len()]);
            }
        }
    }
}

/// Each further digit can only grow the value.
pub proof fn lemma_decimal_value_prefix(s: Seq<char>, k: int)
    requires
        0 <= k <= s.len(),
        all_digits(s),
    ensures
        decimal_value(s.subrange(0, k)) <= decimal_value(s),
        decimal_value(s.subrange(0, k)) >= 0,
    decreases s.len() - k,
{
    if k < s.len() {
        lemma_decimal_value_prefix(s, k + 1);
        assert(s.subrange(0, k + 1).drop_last() =~= s.subrange(0, k));
        assert(s.subrange(0, k + 1).last() == s[k]);
        assert(is_digit(s[k]));
        lemma_decimal_value_nonneg(s.subrange(0, k));
    } else {
        assert(s.subrange(0, k) =~= s);
        lemma_decimal_value_nonneg(s);
    }
}

pub proof fn lemma_decimal_value_nonneg(s: Seq<char>)
    requires
        all_digits(s),
    ensures
        decimal_value(s) >= 0,
    decreases s.len(),
{
    if s.len() > 0 {
        lemma_decimal_value_nonneg(s.drop_last());
        assert(is_digit(s[s.len() - 1]));
    }
}

/// Reading a version back from the file name it was written under gives the
/// same version, for every prefix: naming and parsing round-trip.
pub proof fn law_version_name_round_trip(prefix: Seq<char>, n: u32)
    ensures
        parse_version_spec(version_name(prefix, n as nat), prefix) == Some(n),
{
    let d = zero_padded(n as nat, 4);
    lemma_zero_padded(n as nat, 4);
    let name = version_name(prefix, n as nat);
    let h = prefix.len() + 2int;
    assert(name =~= prefix + dot_v() + d + dot_ron());
    assert(name.subrange(0, prefix.len() as int) =~= prefix);
    assert(name.subrange(prefix.len() as int, h) =~= dot_v());
    assert(name.subrange(name.len() - 4, name.len() as int) =~= dot_ron());
    assert(name.subrange(h, name.len() - 4) =~= d);
}

// --- Character helpers ----------------------------------------------------------

/// The characters of `s`, one by one.
pub fn chars_of(s: &str) -> (v: Vec<char>)
    ensures
        v@ == s@,
{
    let n = s.unicode_len();
    let mut v: Vec<char> = Vec::new();
    let mut i: usize = 0;
    while i < n
        invariant
            n == s@.len(),
            i <= n,
            v@ == s@.subrange(0, i as int),
        decreases n - i,
    {
        v.push(s.get_char(i));
        proof {
            assert(s@.subrange(0, i + 1) =~= s@.subrange(0, i as int).push(s@[i as int]));
        }
        i = i + 1;
    }
    proof {
        assert(s@.subrange(0, n as int) =~= s@);
    }
    v
}

/// A `String` holding exactly `chars`.
#[verifier::external_body]
pub(crate) fn string_from_chars(chars: &Vec<char>) -> (s: String)
    ensures
        s@ == chars@,
{
    chars.iter().collect()
}

/// The digits of `n`, zero-padded on the left to at least `width` of them.
pub(crate) fn padded_digits(n: u32, width: usize) -> (d: Vec<char>)
    ensures
        d@ == zero_padded(n as nat, width as nat),
{
    // Collect digits least significant first, then reverse.
    let mut rev: Vec<char> = Vec::new();
    let mut m: u32 = n;
    while m >= 10
        invariant
            decimal_digits(n as nat) == decimal_digits(m as nat) + rev@.reverse(),
        decreases m,
    {
        let c = digit_to_char(m % 10);
        proof {
            assert(decimal_digits(m as nat) == decimal_digits((m / 10) as nat).push(c));
            assert(rev@.push(c).reverse() =~= seq![c] + rev@.reverse());
            assert(decimal_digits((m / 10) as nat) + rev@.push(c).reverse() =~= decimal_digits(
                (m / 10) as nat,
            ).push(c) + rev@.reverse());
        }
        rev.push(c);
        m = m / 10;
    }
    let c = digit_to_char(m);
    proof {
        assert(decimal_digits(m as nat) == seq![c]);
        assert(rev@.push(c).reverse() =~= seq![c] + rev@.reverse());
    }
    rev.push(c);
    let mut d: Vec<char> = Vec::new();
    let len = rev.len();
    let mut pad: usize = 0;
    if len < width {
        while pad < width - len
            invariant
                len == rev@.len(),
                len < width,
                pad <= width - len,
                d@ == Seq::new(pad as nat, |i: int| '0'),
            decreases width - len - pad,
        {
            d.push('0');
            proof {
                assert(Seq::new((pad + 1) as nat, |i: int| '0') =~= Seq::new(
                    pad as nat,
                    |i: int| '0',
                ).push('0'));
            }
            pad = pad + 1;
        }
    }
    let ghost zeros = d@;
    let mut j: usize = len;
    while j > 0
        invariant
            j <= len,
            len == rev@.len(),
            d@ == zeros + rev@.reverse().subrange(0, (len - j) as int),
        decreases j,
    {
        j = j - 1;
        d.push(rev[j]);
        proof {
            assert(rev@.reverse().subrange(0, (len - j) as int) =~= rev@.reverse().subrange(
                0,
                (len - j - 1) as int,
            ).push(rev@[j as int]));
        }
    }
    proof {
        assert(rev@.reverse().subrange(0, len as int) =~= rev@.reverse());
        assert(decimal_digits(n as nat) == rev@.reverse());
        if len >= width {
            assert(zeros =~= Seq::<char>::empty());
            assert(d@ =~= rev@.reverse());
        } else {
            assert(zeros =~= Seq::new((width - len) as nat, |i: int| '0'));
        }
    }
    d
}

/// The decimal digits of a count.
pub(crate) fn count_digits(n: usize) -> (d: Vec<char>)
    ensures
        d@ == decimal_digits(n as nat),
{
    let mut rev: Vec<char> = Vec::new();
    let mut m: usize = n;
    while m >= 10
        invariant
            decimal_digits(n as nat) == decimal_digits(m as nat) + rev@.reverse(),
        decreases m,
    {
        let c = digit_to_char((m % 10) as u32);
        proof {
            assert(decimal_digits(m as nat) == decimal_digits((m / 10) as nat).push(c));
            assert(rev@.push(c).reverse() =~= seq![c] + rev@.reverse());
            assert(decimal_digits((m / 10) as nat) + rev@.push(c).reverse() =~= decimal_digits(
                (m / 10) as nat,
            ).push(c) + rev@.reverse());
        }
        rev.push(c);
        m = m / 10;
    }
    let c = digit_to_char(m as u32);
    proof {
        assert(decimal_digits(m as nat) == seq![c]);
        assert(rev@.push(c).reverse() =~= seq![c] + rev@.reverse());
    }
    rev.push(c);
    let mut d: Vec<char> = Vec::new();
    let mut k: usize = rev.len();
    while k > 0
        invariant
            k <= rev@.len(),
            d@ == rev@.reverse().subrange(0, (rev@.len() - k) as int),
        decreases k,
    {
        k = k - 1;
        d.push(rev[k]);
        proof {
            assert(rev@.reverse().subrange(0, (rev@.len() - k) as int) =~= rev@.reverse().subrange(
                0,
                (rev@.len() - k - 1) as int,
            ).push(rev@[k as int]));
        }
    }
    proof {
        assert(rev@.reverse().subrange(0, rev@.len() as int) =~= rev@.reverse());
        assert(d@ =~= decimal_digits(n as nat));
    }
    d
}

/// The character of decimal digit `d` (`0..10`).
fn digit_to_char(d: u32) -> (c: char)
    requires
        d < 10,
    ensures
        c == digit_char(d as int),
        is_digit(c),
        digit_value(c) == d,
{
    match d {
        0 => '0',
        1 => '1',
        2 => '2',
        3 => '3',
        4 => '4',
        5 => '5',
        6 => '6',
        7 => '7',
        8 => '8',
        _ => '9',
    }
}

// --- Operations -----------------------------------------------------------------

/// The version a new file is written under: one past the newest existing
/// version, or 1 when there is none. (Past `u32::MAX` there is no next
/// version.)
pub fn next_version(latest: Option<u32>) -> (n: u32)
    requires
        latest matches Some(v) ==> v < u32::MAX,
    ensures
        n == match latest {
            Some(v) => v + 1,
            None => 1,
        },
{
    match latest {
        Some(v) => v + 1,
        None => 1,
    }
}

/// The file name of version `n` of a score: `<prefix>.v0007.ron`.
pub fn version_file_name(prefix: &str, n: u32) -> (name: String)
    ensures
        name@ == version_name(prefix@, n as nat),
{
    let mut chars = chars_of(prefix);
    chars.push('.');
    chars.push('v');
    let digits = padded_digits(n, 4);
    let ghost before = chars@;
    let mut i: usize = 0;
    while i < digits.len()
        invariant
            i <= digits.len(),
            chars@ == before + digits@.subrange(0, i as int),
        decreases digits.len() - i,
    {
        chars.push(digits[i]);
        proof {
            assert(digits@.subrange(0, i + 1) =~= digits@.subrange(0, i as int).push(
                digits@[i as int],
            ));
        }
        i = i + 1;
    }
    chars.push('.');
    chars.push('r');
    chars.push('o');
    chars.push('n');
    proof {
        assert(digits@.subrange(0, digits@.len() as int) =~= digits@);
        assert(chars@ =~= version_name(prefix@, n as nat));
    }
    string_from_chars(&chars)
}

/// Parses a score file name back to its version: `boss.v0007.ron` → `7` for
/// prefix `boss`. Wrong prefix, missing or non-decimal digits, a stray shape,
/// or a version past `u32::MAX` give `None`.
pub fn parse_version(name: &str, prefix: &str) -> (v: Option<u32>)
    ensures
        v == parse_version_spec(name@, prefix@),
{
    let nc = chars_of(name);
    let pc = chars_of(prefix);
    let pl = pc.len();
    let nl = nc.len();
    if nl < 6 || pl > nl - 6 {
        return None;
    }
    let mut i: usize = 0;
    while i < pl
        invariant
            i <= pl,
            pl == pc@.len(),
            pl + 6 <= nl,
            nl == nc@.len(),
            nc@ == name@,
            pc@ == prefix@,
            nc@.subrange(0, i as int) == pc@.subrange(0, i as int),
        decreases pl - i,
    {
        if nc[i] != pc[i] {
            proof {
                assert(nc@.subrange(0, pl as int)[i as int] == nc@[i as int]);
                assert(nc@ == name@);
                assert(pc@ == prefix@);
                assert(name@.subrange(0, prefix@.len() as int) != prefix@);
                assert(version_digits(name@, prefix@) is None);
            }
            return None;
        }
        proof {
            assert(nc@.subrange(0, i + 1) =~= nc@.subrange(0, i as int).push(nc@[i as int]));
            assert(pc@.subrange(0, i + 1) =~= pc@.subrange(0, i as int).push(pc@[i as int]));
        }
        i = i + 1;
    }
    proof {
        assert(pc@.subrange(0, pl as int) =~= pc@);
    }
    if nc[pl] != '.' || nc[pl + 1] != 'v' || nc[nl - 4] != '.' || nc[nl - 3] != 'r' || nc[nl
        - 2] != 'o' || nc[nl - 1] != 'n' {
        proof {
            if nc[pl as int] != '.' || nc[pl + 1] != 'v' {
                assert(nc@.subrange(pl as int, pl + 2)[0] == nc@[pl as int]);
                assert(nc@.subrange(pl as int, pl + 2)[1] == nc@[pl + 1]);
                assert(nc@.subrange(pl as int, pl + 2) != dot_v());
            } else {
                let tail = nc@.subrange(nl - 4, nl as int);
                assert(tail[0] == nc@[nl - 4]);
                assert(tail[1] == nc@[nl - 3]);
                assert(tail[2] == nc@[nl - 2]);
                assert(tail[3] == nc@[nl - 1]);
                assert(tail != dot_ron());
            }
        }
        return None;
    }
    proof {
        assert(nc@.subrange(pl as int, pl + 2) =~= dot_v());
        assert(nc@.subrange(nl - 4, nl as int) =~= dot_ron());
    }
    let start = pl + 2;
    let end = nl - 4;
    let ghost digits = nc@.subrange(start as int, end as int);
    proof {
        assert(version_digits(name@, prefix@) == Some(digits));
    }
    if start == end {
        return None;
    }
    let mut value: u64 = 0;
    let mut k: usize = start;
    while k < end
        invariant
            start <= k <= end,
            end <= nc@.len(),
            nc@ == name@,
            pc@ == prefix@,
            version_digits(name@, prefix@) == Some(digits),
            digits == nc@.subrange(start as int, end as int),
            all_digits(digits.subrange(0, k - start)),
            value == decimal_value(digits.subrange(0, k - start)),
            value <= u32::MAX,
        decreases end - k,
    {
        let c = nc[k];
        if !('0' <= c && c <= '9') {
            proof {
                assert(digits[k - start] == c);
                assert(!is_digit(digits[k - start]));
            }
            return None;
        }
        let d = char_digit(c);
        proof {
            assert(digits.subrange(0, k - start + 1) =~= digits.subrange(0, k - start).push(c));
        }
        value = value * 10 + d as u64;
        proof {
            assert(digits.subrange(0, k - start + 1).drop_last() =~= digits.subrange(0, k - start));
            assert(value == decimal_value(digits.subrange(0, k - start + 1)));
        }
        if value > 0xffff_ffff {
            proof {
                assert forall|i: int| 0 <= i < k - start + 1 implies is_digit(
                    #[trigger] digits.subrange(0, k - start + 1)[i],
                ) by {
                    if i < k - start {
                        assert(digits.subrange(0, k - start + 1)[i] == digits.subrange(
                            0,
                            k - start,
                        )[i]);
                    }
                }
                assert(digits.subrange(0, k - start + 1).drop_last() =~= digits.subrange(
                    0,
                    k - start,
                ));
                assert(value == decimal_value(digits.subrange(0, k - start + 1)));
                if all_digits(digits) {
                    lemma_decimal_value_prefix(digits, k - start + 1);
                }
            }
            return None;
        }
        proof {
            assert forall|i: int| 0 <= i < k - start + 1 implies is_digit(
                #[trigger] digits.subrange(0, k - start + 1)[i],
            ) by {
                if i < k - start {
                    assert(digits.subrange(0, k - start + 1)[i] == digits.subrange(0, k - start)[i]);
                }
            }
        }
        k = k + 1;
    }
    proof {
        assert(digits.subrange(0, end - start) =~= digits);
    }
    Some(value as u32)
}

/// The numeric value of a decimal digit character.
fn char_digit(c: char) -> (d: u32)
    requires
        is_digit(c),
    ensures
        d == digit_value(c),
        d < 10,
{
    (c as u32) - ('0' as u32)
}

/// The highest version among `names` for `prefix` — file names that are not
/// versions of `prefix` are skipped.
pub fn max_version(names: &[&str], prefix: &str) -> (v: Option<u32>)
    ensures
        v == max_version_spec(names@.map_values(|s: &str| s@), prefix@),
{
    let ghost views = names@.map_values(|s: &str| s@);
    let mut best: Option<u32> = None;
    let mut i: usize = 0;
    while i < names.len()
        invariant
            i <= names@.len(),
            views == names@.map_values(|s: &str| s@),
            best == max_version_spec(views.subrange(0, i as int), prefix@),
        decreases names@.len() - i,
    {
        let parsed = parse_version(names[i], prefix);
        proof {
            assert(views.subrange(0, i + 1).drop_last() =~= views.subrange(0, i as int));
            assert(views.subrange(0, i + 1).last() == names@[i as int]@);
        }
        best = match (best, parsed) {
            (Some(x), Some(y)) => Some(if x >= y { x } else { y }),
            (Some(x), None) => Some(x),
            (None, y) => y,
        };
        i = i + 1;
    }
    proof {
        assert(views.subrange(0, names@.len() as int) =~= views);
    }
    best
}

/// `a` sorts strictly before `b`.
fn chars_lt(a: &Vec<char>, b: &Vec<char>) -> (r: bool)
    ensures
        r == lex_lt(a@, b@),
{
    let mut i: usize = 0;
    proof {
        assert(a@.subrange(0, a@.len() as int) =~= a@);
        assert(b@.subrange(0, b@.len() as int) =~= b@);
    }
    while i < a.len() && i < b.len() && a[i] == b[i]
        invariant
            i <= a@.len(),
            i <= b@.len(),
            lex_lt(a@, b@) == lex_lt(a@.subrange(i as int, a@.len() as int), b@.subrange(
                i as int,
                b@.len() as int,
            )),
        decreases a@.len() - i,
    {
        proof {
            let sa = a@.subrange(i as int, a@.len() as int);
            let sb = b@.subrange(i as int, b@.len() as int);
            assert(sa.drop_first() =~= a@.subrange(i + 1, a@.len() as int));
            assert(sb.drop_first() =~= b@.subrange(i + 1, b@.len() as int));
        }
        i = i + 1;
    }
    if i == b.len() {
        false
    } else if i == a.len() {
        true
    } else {
        (a[i] as u32) < (b[i] as u32)
    }
}

/// The newest version among `names` for `prefix` and which entry holds it.
/// Two spellings can tie (`boss.v12.ron` / `boss.v0012.ron`); the one that
/// sorts first is picked, so the choice is deterministic. The entry's actual
/// name is returned (by index), never a reconstruction.
pub fn latest_entry(names: &Vec<String>, prefix: &str) -> (r: Option<(u32, usize)>)
    ensures
        r is None <==> max_version_spec(names@.map_values(|s: String| s@), prefix@) is None,
        r matches Some((v, i)) ==> {
            &&& max_version_spec(names@.map_values(|s: String| s@), prefix@) == Some(v)
            &&& i < names@.len()
            &&& parse_version_spec(names@[i as int]@, prefix@) == Some(v)
            &&& forall|j: int|
                0 <= j < names@.len() && parse_version_spec(#[trigger] names@[j]@, prefix@) == Some(
                    v,
                ) ==> !lex_lt(names@[j]@, names@[i as int]@)
        },
{
    let ghost views = names@.map_values(|s: String| s@);
    let mut best: Option<u32> = None;
    let mut i: usize = 0;
    while i < names.len()
        invariant
            i <= names@.len(),
            views == names@.map_values(|s: String| s@),
            best == max_version_spec(views.subrange(0, i as int), prefix@),
        decreases names@.len() - i,
    {
        let parsed = parse_version(names[i].as_str(), prefix);
        proof {
            assert(views.subrange(0, i + 1).drop_last() =~= views.subrange(0, i as int));
            assert(views.subrange(0, i + 1).last() == names@[i as int]@);
        }
        best = match (best, parsed) {
            (Some(x), Some(y)) => Some(if x >= y { x } else { y }),
            (Some(x), None) => Some(x),
            (None, y) => y,
        };
        i = i + 1;
    }
    proof {
        assert(views.subrange(0, names@.len() as int) =~= views);
    }
    let v = match best {
        None => return None,
        Some(v) => v,
    };
    proof {
        lemma_max_version_attained(views, prefix@);
    }
    let mut pick: Option<usize> = None;
    let mut pick_chars: Vec<char> = Vec::new();
    let mut j: usize = 0;
    while j < names.len()
        invariant
            j <= names@.len(),
            views == names@.map_values(|s: String| s@),
            max_version_spec(views, prefix@) == Some(v),
            pick is None ==> forall|k: int|
                0 <= k < j ==> parse_version_spec(#[trigger] names@[k]@, prefix@) != Some(v),
            pick matches Some(p) ==> {
                &&& p < j
                &&& parse_version_spec(names@[p as int]@, prefix@) == Some(v)
                &&& pick_chars@ == names@[p as int]@
                &&& forall|k: int|
                    0 <= k < j && parse_version_spec(#[trigger] names@[k]@, prefix@) == Some(v)
                        ==> !lex_lt(names@[k]@, names@[p as int]@)
            },
        decreases names@.len() - j,
    {
        if parse_version(names[j].as_str(), prefix) == Some(v) {
            let cand = chars_of(names[j].as_str());
            match pick {
                None => {
                    proof {
                        lemma_lex_lt_irreflexive(names@[j as int]@);
                    }
                    pick = Some(j);
                    pick_chars = cand;
                },
                Some(p) => {
                    if chars_lt(&cand, &pick_chars) {
                        proof {
                            assert forall|k: int|
                                0 <= k < j + 1 && parse_version_spec(
                                    #[trigger] names@[k]@,
                                    prefix@,
                                ) == Some(v) implies !lex_lt(names@[k]@, names@[j as int]@) by {
                                if k < j {
                                    assert(!lex_lt(names@[k]@, names@[p as int]@));
                                    lemma_lex_lt_trans_not(names@[k]@, names@[j as int]@,
                                        names@[p as int]@);
                                } else {
                                    lemma_lex_lt_irreflexive(names@[k]@);
                                }
                            }
                        }
                        pick = Some(j);
                        pick_chars = cand;
                    }
                },
            }
        }
        j = j + 1;
    }
    match pick {
        None => {
            proof {
                let k = choose|k: int|
                    0 <= k < views.len() && parse_version_spec(views[k], prefix@) == Some(v);
                assert(views[k] == names@[k]@);
            }
            None
        },
        Some(p) => Some((v, p)),
    }
}

/// The maximum version is attained by some name.
pub proof fn lemma_max_version_attained(names: Seq<Seq<char>>, prefix: Seq<char>)
    ensures
        max_version_spec(names, prefix) matches Some(v) ==> exists|k: int|
            0 <= k < names.len() && parse_version_spec(#[trigger] names[k], prefix) == Some(v),
    decreases names.len(),
{
    if names.len() > 0 {
        lemma_max_version_attained(names.drop_last(), prefix);
        if let Some(w) = max_version_spec(names.drop_last(), prefix) {
            let k = choose|k: int|
                0 <= k < names.drop_last().len() && parse_version_spec(
                    #[trigger] names.drop_last()[k],
                    prefix,
                ) == Some(w);
            assert(names[k] == names.drop_last()[k]);
        }
        let last = names.len() - 1;
        assert(names[last] == names.last());
    }
}

pub proof fn lemma_lex_lt_irreflexive(a: Seq<char>)
    ensures
        !lex_lt(a, a),
    decreases a.len(),
{
    if a.len() > 0 {
        lemma_lex_lt_irreflexive(a.drop_first());
    }
}

/// If `b < c` and not `a < c`, then not `a < b`.
pub proof fn lemma_lex_lt_trans_not(a: Seq<char>, b: Seq<char>, c: Seq<char>)
    requires
        lex_lt(b, c),
        !lex_lt(a, c),
    ensures
        !lex_lt(a, b),
    decreases a.len(),
{
    if a.len() > 0 && b.len() > 0 && c.len() > 0 && a[0] == b[0] && b[0] == c[0] {
        lemma_lex_lt_trans_not(a.drop_first(), b.drop_first(), c.drop_first());
    }
}

/// The newest version is never below any version among the names, and is
/// one of them: the maximum over the names.
pub proof fn law_max_version_is_the_newest(names: Seq<Seq<char>>, prefix: Seq<char>, k: int)
    requires
        0 <= k < names.len(),
        parse_version_spec(names[k], prefix) is Some,
    ensures
        max_version_spec(names, prefix) matches Some(v) && parse_version_spec(names[k], prefix)->0
            <= v,
    decreases names.len(),
{
    if k < names.len() - 1 {
        law_max_version_is_the_newest(names.drop_last(), prefix, k);
        assert(names.drop_last()[k] == names[k]);
    }
}

} // verus!
