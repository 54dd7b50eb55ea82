//! Cron expressions: grammar, parsing into per-field bit masks, matching a
//! timestamp, and computing the next firing time.
//!
//! The grammar is the standard one, five or six space-separated fields
//! (`[sec] min hour day-of-month month day-of-week`), each a comma-separated
//! list of `*`, `a`, `a-b`, optionally with `/step`; values are written with
//! one or two digits, fields are separated by single spaces, and a five-field
//! expression fires at second zero of each matching minute.

use vstd::prelude::*;

verus! {

/// Whether bit `v` of the mask is set: the field allows value `v`.
pub open spec fn mask_contains(m: u64, v: int) -> bool {
    0 <= v < 64 && (m >> (v as u64)) & 1u64 == 1u64
}

proof fn lemma_mask_or(a: u64, b: u64, v: u64)
    by (bit_vector)
    requires
        v < 64,
    ensures
        ((a | b) >> v) & 1u64 == 1u64 <==> ((a >> v) & 1u64 == 1u64 || (b >> v) & 1u64 == 1u64),
{
}

proof fn lemma_mask_set(m: u64, i: u64, v: u64)
    by (bit_vector)
    requires
        v < 64,
        i < 64,
    ensures
        ((m | (1u64 << i)) >> v) & 1u64 == 1u64 <==> ((m >> v) & 1u64 == 1u64 || v == i),
{
}

proof fn lemma_mask_empty(v: u64)
    by (bit_vector)
    requires
        v < 64,
    ensures
        (0u64 >> v) & 1u64 == 0u64,
        (1u64 >> v) & 1u64 == 1u64 <==> v == 0,
{
}

/// Bit test, the executable side of `mask_contains`.
pub fn mask_test(m: u64, v: u64) -> (r: bool)
    requires
        v < 64,
    ensures
        r == mask_contains(m, v as int),
{
    (m >> v) & 1u64 == 1u64
}

pub open spec fn is_digit(c: char) -> bool {
    '0' <= c && c <= '9'
}

pub open spec fn digit_val(c: char) -> int {
    c as int - 48
}

/// A cron value: one or two decimal digits.
pub open spec fn num_wf(s: Seq<char>) -> bool {
    (s.len() == 1 && is_digit(s[0])) || (s.len() == 2 && is_digit(s[0]) && is_digit(s[1]))
}

pub open spec fn num_val(s: Seq<char>) -> int {
    if s.len() == 1 {
        digit_val(s[0])
    } else {
        10 * digit_val(s[0]) + digit_val(s[1])
    }
}

/// Index of the first occurrence of `c` in `s`.
pub open spec fn find_char(s: Seq<char>, c: char) -> Option<int>
    decreases s.len(),
{
    if s.len() == 0 {
        None
    } else if s[0] == c {
        Some(0int)
    } else {
        match find_char(s.skip(1), c) {
            None => None,
            Some(i) => Some(i + 1),
        }
    }
}

proof fn lemma_find_char(s: Seq<char>, c: char)
    ensures
        match find_char(s, c) {
            Some(i) => 0 <= i < s.len() && s[i] == c && (forall|j: int| 0 <= j < i ==> s[j] != c),
            None => forall|j: int| 0 <= j < s.len() ==> s[j] != c,
        },
    decreases s.len(),
{
    if s.len() != 0 && s[0] != c {
        lemma_find_char(s.skip(1), c);
        assert(forall|j: int| 0 <= j < s.skip(1).len() ==> s.skip(1)[j] == s[j + 1]);
        match find_char(s.skip(1), c) {
            None => {
                assert(forall|j: int| 1 <= j < s.len() ==> s[j] == s.skip(1)[j - 1]);
            },
            Some(i) => {
                assert(s[i + 1] == s.skip(1)[i]);
                assert(forall|j: int| 1 <= j < i + 1 ==> s[j] == s.skip(1)[j - 1]);
            },
        }
    }
}

/// Executable search for the first occurrence of `c`.
pub fn find_char_exec(s: &str, c: char) -> (r: Option<usize>)
    ensures
        match r {
            Some(i) => find_char(s@, c) == Some(i as int),
            None => find_char(s@, c) is None,
        },
{
    let n = s.unicode_len();
    let mut i: usize = 0;
    while i < n
        invariant
            n == s@.len(),
            0 <= i <= n,
            forall|j: int| 0 <= j < i ==> s@[j] != c,
        decreases n - i,
    {
        if s.get_char(i) == c {
            proof {
                lemma_find_char(s@, c);
            }
            return Some(i);
        }
        i = i + 1;
    }
    proof {
        lemma_find_char(s@, c);
    }
    None
}

/// Parse a one- or two-digit value.
pub fn parse_num(s: &str) -> (r: Option<u64>)
    ensures
        r is Some <==> num_wf(s@),
        r matches Some(v) ==> v as int == num_val(s@) && v <= 99,
{
    let n = s.unicode_len();
    if n == 1 {
        let c = s.get_char(0);
        let u = c as u32;
        if 48 <= u && u <= 57 {
            Some((u - 48) as u64)
        } else {
            None
        }
    } else if n == 2 {
        let c0 = s.get_char(0);
        let c1 = s.get_char(1);
        let u0 = c0 as u32;
        let u1 = c1 as u32;
        if 48 <= u0 && u0 <= 57 && 48 <= u1 && u1 <= 57 {
            Some((10 * (u0 - 48) + (u1 - 48)) as u64)
        } else {
            None
        }
    } else {
        None
    }
}

/// The pieces of `s` between occurrences of `c`; never empty, and pieces
/// keep their order.
pub open spec fn split_on(s: Seq<char>, c: char) -> Seq<Seq<char>>
    decreases s.len(),
    via split_on_dec
{
    match find_char(s, c) {
        None => seq![s],
        Some(k) => seq![s.take(k)] + split_on(s.skip(k + 1), c),
    }
}

#[via_fn]
proof fn split_on_dec(s: Seq<char>, c: char) {
    lemma_find_char(s, c);
}

/// A range: `*`, a single value, or `a-b`.
pub open spec fn range_wf(s: Seq<char>, lo: int, hi: int) -> bool {
    if s.len() == 1 && s[0] == '*' {
        true
    } else {
        match find_char(s, '-') {
            None => num_wf(s) && lo <= num_val(s) <= hi,
            Some(k) => num_wf(s.take(k)) && num_wf(s.skip(k + 1)) && lo <= num_val(s.take(k))
                && num_val(s.take(k)) <= num_val(s.skip(k + 1)) && num_val(s.skip(k + 1)) <= hi,
        }
    }
}

/// Smallest value the range admits.
pub open spec fn range_lo(s: Seq<char>, lo: int) -> int {
    if s.len() == 1 && s[0] == '*' {
        lo
    } else {
        match find_char(s, '-') {
            None => num_val(s),
            Some(k) => num_val(s.take(k)),
        }
    }
}

/// Largest value the range admits.
pub open spec fn range_hi(s: Seq<char>, hi: int) -> int {
    if s.len() == 1 && s[0] == '*' {
        hi
    } else {
        match find_char(s, '-') {
            None => num_val(s),
            Some(k) => num_val(s.skip(k + 1)),
        }
    }
}

/// The range part of an atom `range[/step]`.
pub open spec fn atom_range(s: Seq<char>) -> Seq<char> {
    match find_char(s, '/') {
        None => s,
        Some(k) => s.take(k),
    }
}

/// The step of an atom; one when none is written.
pub open spec fn atom_step(s: Seq<char>) -> int {
    match find_char(s, '/') {
        None => 1,
        Some(k) => num_val(s.skip(k + 1)),
    }
}

/// An atom: a range with an optional positive step.
pub open spec fn atom_wf(s: Seq<char>, lo: int, hi: int) -> bool {
    range_wf(atom_range(s), lo, hi) && match find_char(s, '/') {
        None => true,
        Some(k) => num_wf(s.skip(k + 1)) && num_val(s.skip(k + 1)) >= 1,
    }
}

/// The values an atom admits: every `step`-th value of its range.
pub open spec fn atom_allows(s: Seq<char>, lo: int, hi: int, v: int) -> bool {
    range_lo(atom_range(s), lo) <= v <= range_hi(atom_range(s), hi) && (v - range_lo(
        atom_range(s),
        lo,
    )) % atom_step(s) == 0
}

/// A field: a comma-separated, non-empty list of atoms.
pub open spec fn field_wf(s: Seq<char>, lo: int, hi: int) -> bool {
    forall|i: int| 0 <= i < split_on(s, ',').len() ==> atom_wf(split_on(s, ',')[i], lo, hi)
}

/// The values a field admits: the union over its atoms.
pub open spec fn field_allows(s: Seq<char>, lo: int, hi: int, v: int) -> bool {
    exists|i: int| 0 <= i < split_on(s, ',').len() && atom_allows(split_on(s, ',')[i], lo, hi, v)
}

/// How `field_wf` and `field_allows` decompose at the first comma.
proof fn lemma_field_split(s: Seq<char>, k: int, lo: int, hi: int)
    requires
        find_char(s, ',') == Some(k),
    ensures
        field_wf(s, lo, hi) <==> (atom_wf(s.take(k), lo, hi) && field_wf(s.skip(k + 1), lo, hi)),
        forall|v: int|
            field_allows(s, lo, hi, v) <==> (atom_allows(s.take(k), lo, hi, v) || field_allows(
                s.skip(k + 1),
                lo,
                hi,
                v,
            )),
{
    let t = split_on(s, ',');
    let t2 = split_on(s.skip(k + 1), ',');
    assert(t =~= seq![s.take(k)] + t2);
    assert(t[0] == s.take(k));
    if field_wf(s, lo, hi) {
        assert(atom_wf(t[0], lo, hi));
        assert forall|i: int| 0 <= i < t2.len() implies atom_wf(t2[i], lo, hi) by {
            assert(t[i + 1] == t2[i]);
        }
    }
    if atom_wf(s.take(k), lo, hi) && field_wf(s.skip(k + 1), lo, hi) {
        assert forall|i: int| 0 <= i < t.len() implies atom_wf(t[i], lo, hi) by {
            if i >= 1 {
                assert(t[i] == t2[i - 1]);
            }
        }
    }
    assert forall|v: int|
        field_allows(s, lo, hi, v) <==> (atom_allows(s.take(k), lo, hi, v) || field_allows(
            s.skip(k + 1),
            lo,
            hi,
            v,
        )) by {
        if field_allows(s, lo, hi, v) {
            let i = choose|i: int| 0 <= i < t.len() && atom_allows(t[i], lo, hi, v);
            if i >= 1 {
                assert(t[i] == t2[i - 1]);
                assert(0 <= i - 1 < t2.len() && atom_allows(t2[i - 1], lo, hi, v));
            }
        }
        if atom_allows(s.take(k), lo, hi, v) {
            assert(0 <= 0 < t.len() && atom_allows(t[0], lo, hi, v));
        }
        if field_allows(s.skip(k + 1), lo, hi, v) {
            let i = choose|i: int| 0 <= i < t2.len() && atom_allows(t2[i], lo, hi, v);
            assert(t[i + 1] == t2[i]);
            assert(0 <= i + 1 < t.len() && atom_allows(t[i + 1], lo, hi, v));
        }
    }
}

proof fn lemma_step_gap(a: int, i: int, v: int, step: int)
    requires
        0 < step,
        a <= i,
        (i - a) % step == 0,
        i < v < i + step,
    ensures
        (v - a) % step != 0,
{
    let q = (i - a) / step;
    vstd::arithmetic::div_mod::lemma_fundamental_div_mod(i - a, step);
    vstd::arithmetic::div_mod::lemma_mod_multiples_vanish(q, v - i, step);
    vstd::arithmetic::div_mod::lemma_small_mod((v - i) as nat, step as nat);
}

/// A field only admits values between its bounds.
proof fn lemma_allows_in_bounds(s: Seq<char>, lo: int, hi: int, v: int)
    requires
        field_wf(s, lo, hi),
        field_allows(s, lo, hi, v),
    ensures
        lo <= v <= hi,
{
    let t = split_on(s, ',');
    let i = choose|i: int| 0 <= i < t.len() && atom_allows(t[i], lo, hi, v);
    assert(atom_wf(t[i], lo, hi));
}

/// The mask of every `step`-th value from `a` up to `b`.
fn range_mask(a: u64, b: u64, step: u64) -> (m: u64)
    requires
        a <= b < 64,
        1 <= step <= 99,
    ensures
        forall|v: int| mask_contains(m, v) <==> (a <= v <= b && (v - a) % (step as int) == 0),
{
    let mut m: u64 = 0;
    let mut i: u64 = a;
    proof {
        assert forall|v: int| !mask_contains(0u64, v) by {
            if 0 <= v < 64 {
                lemma_mask_empty(v as u64);
            }
        }
        vstd::arithmetic::div_mod::lemma_small_mod(0nat, step as nat);
    }
    while i <= b
        invariant
            a <= i,
            b < 64,
            1 <= step <= 99,
            i <= b + step,
            (i - a) % (step as int) == 0,
            forall|v: int| mask_contains(m, v) <==> (a <= v < i && (v - a) % (step as int) == 0),
        decreases b + step - i,
    {
        let m2 = m | (1u64 << i);
        proof {
            assert forall|v: int|
                mask_contains(m2, v) <==> (mask_contains(m, v) || v == i as int) by {
                if 0 <= v < 64 {
                    lemma_mask_set(m, i, v as u64);
                }
            }
            assert forall|v: int| i < v < i + step implies #[trigger] ((v - a) % (step as int))
                != 0 by {
                lemma_step_gap(a as int, i as int, v, step as int);
            }
            vstd::arithmetic::div_mod::lemma_mod_add_multiples_vanish(i - a, step as int);
        }
        m = m2;
        i = i + step;
    }
    proof {
        if i - a < step {
            vstd::arithmetic::div_mod::lemma_small_mod((i - a) as nat, step as nat);
        }
        vstd::arithmetic::div_mod::lemma_mod_sub_multiples_vanish(i - a, step as int);
        assert forall|v: int| b < v < i implies #[trigger] ((v - a) % (step as int)) != 0 by {
            lemma_step_gap(a as int, i as int - step as int, v, step as int);
        }
    }
    m
}

/// Parse a range, returning its bounds.
fn parse_range(s: &str, lo: u64, hi: u64) -> (r: Option<(u64, u64)>)
    requires
        lo <= hi < 64,
    ensures
        r is Some <==> range_wf(s@, lo as int, hi as int),
        r matches Some((a, b)) ==> lo <= a <= b <= hi && a as int == range_lo(s@, lo as int) && b
            as int == range_hi(s@, hi as int),
{
    let n = s.unicode_len();
    if n == 1 && s.get_char(0) == '*' {
        return Some((lo, hi));
    }
    match find_char_exec(s, '-') {
        None => {
            match parse_num(s) {
                Some(v) => {
                    if lo <= v && v <= hi {
                        Some((v, v))
                    } else {
                        None
                    }
                },
                None => None,
            }
        },
        Some(k) => {
            proof {
                lemma_find_char(s@, '-');
            }
            let head = s.substring_char(0, k);
            let tail = s.substring_char(k + 1, n);
            proof {
                assert(head@ =~= s@.take(k as int));
                assert(tail@ =~= s@.skip(k as int + 1));
            }
            match (parse_num(head), parse_num(tail)) {
                (Some(a), Some(b)) => {
                    if lo <= a && a <= b && b <= hi {
                        Some((a, b))
                    } else {
                        None
                    }
                },
                _ => None,
            }
        },
    }
}

/// Parse an atom into its mask of admitted values.
fn parse_atom(s: &str, lo: u64, hi: u64) -> (r: Option<u64>)
    requires
        lo <= hi < 64,
    ensures
        r is Some <==> atom_wf(s@, lo as int, hi as int),
        r matches Some(m) ==> forall|v: int|
            mask_contains(m, v) <==> atom_allows(s@, lo as int, hi as int, v),
{
    let n = s.unicode_len();
    match find_char_exec(s, '/') {
        None => {
            match parse_range(s, lo, hi) {
                Some((a, b)) => Some(range_mask(a, b, 1)),
                None => None,
            }
        },
        Some(k) => {
            proof {
                lemma_find_char(s@, '/');
            }
            let head = s.substring_char(0, k);
            let tail = s.substring_char(k + 1, n);
            proof {
                assert(head@ =~= s@.take(k as int));
                assert(tail@ =~= s@.skip(k as int + 1));
            }
            match parse_num(tail) {
                Some(step) => {
                    if step >= 1 {
                        match parse_range(head, lo, hi) {
                            Some((a, b)) => Some(range_mask(a, b, step)),
                            None => None,
                        }
                    } else {
                        None
                    }
                },
                None => None,
            }
        },
    }
}

/// Parse a field into its mask of admitted values.
pub fn parse_field(s: &str, lo: u64, hi: u64) -> (r: Option<u64>)
    requires
        lo <= hi < 64,
    ensures
        r is Some <==> field_wf(s@, lo as int, hi as int),
        r matches Some(m) ==> forall|v: int|
            mask_contains(m, v) <==> field_allows(s@, lo as int, hi as int, v),
    decreases s@.len(),
{
    let n = s.unicode_len();
    match find_char_exec(s, ',') {
        None => {
            proof {
                assert(split_on(s@, ',') =~= seq![s@]);
                assert(split_on(s@, ',')[0] == s@);
            }
            let r = parse_atom(s, lo, hi);
            proof {
                if r is Some {
                    assert forall|v: int|
                        field_allows(s@, lo as int, hi as int, v) <==> atom_allows(
                            s@,
                            lo as int,
                            hi as int,
                            v,
                        ) by {
                        if atom_allows(s@, lo as int, hi as int, v) {
                            assert(0 <= 0 < split_on(s@, ',').len() && atom_allows(
                                split_on(s@, ',')[0],
                                lo as int,
                                hi as int,
                                v,
                            ));
                        }
                    }
                }
            }
            r
        },
        Some(k) => {
            proof {
                lemma_find_char(s@, ',');
            }
            let head = s.substring_char(0, k);
            let tail = s.substring_char(k + 1, n);
            proof {
                assert(head@ =~= s@.take(k as int));
                assert(tail@ =~= s@.skip(k as int + 1));
            }
            let ra = parse_atom(head, lo, hi);
            let rf = parse_field(tail, lo, hi);
            proof {
                lemma_field_split(s@, k as int, lo as int, hi as int);
            }
            match (ra, rf) {
                (Some(m1), Some(m2)) => {
                    proof {
                        assert forall|v: int|
                            mask_contains(m1 | m2, v) <==> field_allows(
                                s@,
                                lo as int,
                                hi as int,
                                v,
                            ) by {
                            if 0 <= v < 64 {
                                lemma_mask_or(m1, m2, v as u64);
                                assert(mask_contains(m1, v) <==> atom_allows(
                                    head@,
                                    lo as int,
                                    hi as int,
                                    v,
                                ));
                                assert(mask_contains(m2, v) <==> field_allows(
                                    tail@,
                                    lo as int,
                                    hi as int,
                                    v,
                                ));
                            } else {
                                assert(!mask_contains(m1 | m2, v));
                                if field_allows(s@, lo as int, hi as int, v) {
                                    lemma_allows_in_bounds(s@, lo as int, hi as int, v);
                                }
                            }
                        }
                    }
                    Some(m1 | m2)
                },
                _ => None,
            }
        },
    }
}

/// The values the seconds field admits; a five-field expression fires at
/// second zero only.
pub open spec fn sec_allows(s: Seq<char>, v: int) -> bool {
    let t = split_on(s, ' ');
    if t.len() == 6 {
        field_allows(t[0], 0, 59, v)
    } else {
        v == 0
    }
}

pub open spec fn min_allows(s: Seq<char>, v: int) -> bool {
    let t = split_on(s, ' ');
    field_allows(t[t.len() - 5], 0, 59, v)
}

pub open spec fn hour_allows(s: Seq<char>, v: int) -> bool {
    let t = split_on(s, ' ');
    field_allows(t[t.len() - 4], 0, 23, v)
}

pub open spec fn dom_allows(s: Seq<char>, v: int) -> bool {
    let t = split_on(s, ' ');
    field_allows(t[t.len() - 3], 1, 31, v)
}

pub open spec fn month_allows(s: Seq<char>, v: int) -> bool {
    let t = split_on(s, ' ');
    field_allows(t[t.len() - 2], 1, 12, v)
}

pub open spec fn dow_allows(s: Seq<char>, v: int) -> bool {
    let t = split_on(s, ' ');
    field_allows(t[t.len() - 1], 0, 6, v)
}

/// A well-formed cron expression: five or six single-space-separated
/// fields, each well formed over its value range.
pub open spec fn cron_wf(s: Seq<char>) -> bool {
    let t = split_on(s, ' ');
    &&& (t.len() == 5 || t.len() == 6)
    &&& (t.len() == 6 ==> field_wf(t[0], 0, 59))
    &&& field_wf(t[t.len() - 5], 0, 59)
    &&& field_wf(t[t.len() - 4], 0, 23)
    &&& field_wf(t[t.len() - 3], 1, 31)
    &&& field_wf(t[t.len() - 2], 1, 12)
    &&& field_wf(t[t.len() - 1], 0, 6)
}

/// Largest timestamp the engine reasons about: 9999-12-31 23:59:59 UTC.
pub const MAX_TS: i64 = 253402300799;

/// `MAX_TS / 60`: the last whole minute the engine reasons about.
pub const MAX_MINUTE: u64 = 4223371679;

/// How far ahead of a given time the next firing is searched for, in
/// minutes; about 76 years, so any satisfiable day/month/weekday
/// combination (leap days included) is found.
pub const HORIZON_MINUTES: u64 = 40000000;

/// A parsed cron expression: one mask of admitted values per field.
#[derive(Debug, Clone, Copy, PartialEq, Eq, Structural)]
pub struct CronExpr {
    pub sec: u64,
    pub min: u64,
    pub hour: u64,
    pub dom: u64,
    pub month: u64,
    pub dow: u64,
}

/// The masks of `c` admit exactly the values the expression's fields admit.
pub open spec fn cron_parsed(s: Seq<char>, c: CronExpr) -> bool {
    &&& cron_wf(s)
    &&& forall|v: int| #![auto] mask_contains(c.sec, v) <==> sec_allows(s, v)
    &&& forall|v: int| #![auto] mask_contains(c.min, v) <==> min_allows(s, v)
    &&& forall|v: int| #![auto] mask_contains(c.hour, v) <==> hour_allows(s, v)
    &&& forall|v: int| #![auto] mask_contains(c.dom, v) <==> dom_allows(s, v)
    &&& forall|v: int| #![auto] mask_contains(c.month, v) <==> month_allows(s, v)
    &&& forall|v: int| #![auto] mask_contains(c.dow, v) <==> dow_allows(s, v)
}

/// Split at single spaces.
fn split_fields(s: &str) -> (r: Vec<String>)
    ensures
        r@.len() == split_on(s@, ' ').len(),
        forall|i: int| 0 <= i < r@.len() ==> r@[i]@ == split_on(s@, ' ')[i],
    decreases s@.len(),
{
    let n = s.unicode_len();
    match find_char_exec(s, ' ') {
        None => {
            let mut v: Vec<String> = Vec::new();
            v.push(s.to_owned());
            proof {
                assert(split_on(s@, ' ') =~= seq![s@]);
            }
            v
        },
        Some(k) => {
            proof {
                lemma_find_char(s@, ' ');
            }
            let head = s.substring_char(0, k);
            let tail = s.substring_char(k + 1, n);
            proof {
                assert(head@ =~= s@.take(k as int));
                assert(tail@ =~= s@.skip(k as int + 1));
            }
            let mut rest = split_fields(tail);
            let ghost rest0 = rest@;
            let mut v: Vec<String> = Vec::new();
            v.push(head.to_owned());
            v.append(&mut rest);
            proof {
                let t = split_on(s@, ' ');
                let t2 = split_on(s@.skip(k as int + 1), ' ');
                assert(t =~= seq![s@.take(k as int)] + t2);
                assert forall|i: int| 0 <= i < v@.len() implies v@[i]@ == t[i] by {
                    if i >= 1 {
                        assert(v@[i] == rest0[i - 1]);
                        assert(t[i] == t2[i - 1]);
                    }
                }
            }
            v
        },
    }
}

/// Parse a cron expression into its per-field masks.
pub fn parse_cron(s: &str) -> (r: Option<CronExpr>)
    ensures
        r is Some <==> cron_wf(s@),
        r matches Some(c) ==> cron_parsed(s@, c),
{
    let fields = split_fields(s);
    let n = fields.len();
    if n != 5 && n != 6 {
        return None;
    }
    let sec: u64;
    if n == 6 {
        match parse_field(fields[0].as_str(), 0, 59) {
            Some(mk) => {
                sec = mk;
            },
            None => {
                return None;
            },
        }
    } else {
        sec = 1;
        proof {
            assert forall|v: int| mask_contains(1u64, v) <==> sec_allows(s@, v) by {
                if 0 <= v < 64 {
                    lemma_mask_empty(v as u64);
                }
            }
        }
    }
    let min: u64 = match parse_field(fields[n - 5].as_str(), 0, 59) {
        Some(mk) => mk,
        None => {
            return None;
        },
    };
    let hour: u64 = match parse_field(fields[n - 4].as_str(), 0, 23) {
        Some(mk) => mk,
        None => {
            return None;
        },
    };
    let dom: u64 = match parse_field(fields[n - 3].as_str(), 1, 31) {
        Some(mk) => mk,
        None => {
            return None;
        },
    };
    let month: u64 = match parse_field(fields[n - 2].as_str(), 1, 12) {
        Some(mk) => mk,
        None => {
            return None;
        },
    };
    let dow: u64 = match parse_field(fields[n - 1].as_str(), 0, 6) {
        Some(mk) => mk,
        None => {
            return None;
        },
    };
    Some(CronExpr { sec, min, hour, dom, month, dow })
}

/// Day count and in-day fields of a minute index (minutes since the epoch).
pub open spec fn minute_of(m: int) -> int {
    m % 60
}

pub open spec fn hour_of(m: int) -> int {
    (m / 60) % 24
}

pub open spec fn day_of(m: int) -> int {
    m / 1440
}

/// Weekday of a day count, `0` = Sunday (the epoch fell on a Thursday).
pub open spec fn weekday_of_day(days: int) -> int {
    (days + 4) % 7
}

/// Civil calendar of a day count, after the standard era-based algorithm:
/// day-of-era within a 400-year cycle, year-of-era, then day-of-year
/// counted from March. The subtractions are clamped at zero so that the
/// functions are total; for day counts the clamps never bite.
pub open spec fn doe_of(days: int) -> int {
    (days + 719468) % 146097
}

pub open spec fn yoe_of(days: int) -> int {
    let doe = doe_of(days);
    let s1 = doe - doe / 1461 + doe / 36524;
    let s2 = if s1 >= doe / 146096 {
        s1 - doe / 146096
    } else {
        0
    };
    s2 / 365
}

pub open spec fn doy_of(days: int) -> int {
    let doe = doe_of(days);
    let yoe = yoe_of(days);
    let a = 365 * yoe + yoe / 4 - yoe / 100;
    if doe >= a {
        doe - a
    } else {
        0
    }
}

pub open spec fn mp_of(days: int) -> int {
    (5 * doy_of(days) + 2) / 153
}

/// Month (1-12) of a day count.
pub open spec fn month_of_day(days: int) -> int {
    if mp_of(days) < 10 {
        mp_of(days) + 3
    } else {
        mp_of(days) - 9
    }
}

/// Day of month (1-31) of a day count.
pub open spec fn dom_of_day(days: int) -> int {
    let t = (153 * mp_of(days) + 2) / 5;
    if doy_of(days) + 1 >= t {
        doy_of(days) + 1 - t
    } else {
        0
    }
}

/// Whether the five minute-resolution fields admit minute index `m`.
pub open spec fn minute_fields_match(c: CronExpr, m: int) -> bool {
    &&& mask_contains(c.min, minute_of(m))
    &&& mask_contains(c.hour, hour_of(m))
    &&& mask_contains(c.dow, weekday_of_day(day_of(m)))
    &&& mask_contains(c.month, month_of_day(day_of(m)))
    &&& mask_contains(c.dom, dom_of_day(day_of(m)))
}

/// Whether the expression admits timestamp `t`.
pub open spec fn expr_matches(c: CronExpr, t: int) -> bool {
    mask_contains(c.sec, t % 60) && minute_fields_match(c, t / 60)
}

/// Month and day-of-month of a day count.
fn civil_md(days: u64) -> (r: (u64, u64))
    requires
        days <= 3000000,
    ensures
        r.0 as int == month_of_day(days as int),
        r.1 as int == dom_of_day(days as int),
{
    let z: u64 = days + 719468;
    let doe: u64 = z % 146097;
    proof {
        vstd::arithmetic::div_mod::lemma_div_nonincreasing(doe as int, 1461);
        vstd::arithmetic::div_mod::lemma_div_nonincreasing(doe as int, 146096);
        vstd::arithmetic::div_mod::lemma_div_nonincreasing(doe as int, 36524);
    }
    let s1: u64 = doe - doe / 1461 + doe / 36524;
    let s2: u64 = if s1 >= doe / 146096 {
        s1 - doe / 146096
    } else {
        0
    };
    let yoe: u64 = s2 / 365;
    proof {
        vstd::arithmetic::div_mod::lemma_div_nonincreasing(s2 as int, 365);
        vstd::arithmetic::div_mod::lemma_div_nonincreasing(yoe as int, 100);
        vstd::arithmetic::div_mod::lemma_div_nonincreasing(yoe as int, 4);
    }
    let a: u64 = 365 * yoe + yoe / 4 - yoe / 100;
    let doy: u64 = if doe >= a {
        doe - a
    } else {
        0
    };
    let mp: u64 = (5 * doy + 2) / 153;
    proof {
        vstd::arithmetic::div_mod::lemma_div_nonincreasing(5 * doy as int + 2, 153);
    }
    let month: u64 = if mp < 10 {
        mp + 3
    } else {
        mp - 9
    };
    let t: u64 = (153 * mp + 2) / 5;
    proof {
        vstd::arithmetic::div_mod::lemma_div_nonincreasing(153 * mp as int + 2, 5);
    }
    let dom: u64 = if doy + 1 >= t {
        doy + 1 - t
    } else {
        0
    };
    (month, dom)
}

/// Whether the minute-resolution fields admit minute index `m`.
fn minute_matches(c: &CronExpr, m: u64) -> (r: bool)
    requires
        m <= MAX_MINUTE,
    ensures
        r == minute_fields_match(*c, m as int),
{
    let minute: u64 = m % 60;
    let hour: u64 = (m / 60) % 24;
    let days: u64 = m / 1440;
    let wd: u64 = (days + 4) % 7;
    let (month, dom) = civil_md(days);
    mask_test(c.min, minute) && mask_test(c.hour, hour) && mask_test(c.dow, wd) && month < 64
        && mask_test(c.month, month) && dom < 64 && mask_test(c.dom, dom)
}

/// Upper end of the window `next_fire_after` scans, as a timestamp.
pub open spec fn scan_end(t: int) -> int {
    let m0 = (t + 1) / 60;
    let me = if m0 + HORIZON_MINUTES <= MAX_MINUTE {
        m0 + HORIZON_MINUTES
    } else {
        MAX_MINUTE as int
    };
    (me + 1) * 60 - 1
}

/// The earliest timestamp after `t` that the expression admits, if there is
/// one up to `scan_end(t)`.
pub fn next_fire_after(c: &CronExpr, t: i64) -> (r: Option<i64>)
    requires
        0 <= t <= MAX_TS,
    ensures
        r matches Some(u) ==> t < u <= MAX_TS && expr_matches(*c, u as int) && (forall|w: int|
            t < w < u ==> !expr_matches(*c, w)),
        r is None ==> forall|w: int| t < w <= scan_end(t as int) ==> !expr_matches(*c, w),
{
    let start: u64 = (t + 1) as u64;
    let m0: u64 = start / 60;
    let m_end: u64 = if m0 + HORIZON_MINUTES <= MAX_MINUTE {
        m0 + HORIZON_MINUTES
    } else {
        MAX_MINUTE
    };
    let mut m: u64 = m0;
    while m <= m_end
        invariant
            0 <= t <= MAX_TS,
            start == t + 1,
            m0 == start / 60,
            m_end == (if m0 + HORIZON_MINUTES <= MAX_MINUTE {
                (m0 + HORIZON_MINUTES) as int
            } else {
                MAX_MINUTE as int
            }),
            m0 <= m <= m_end + 1,
            forall|w: int| t < w < m * 60 ==> !expr_matches(*c, w),
        decreases m_end + 1 - m,
    {
        if minute_matches(c, m) {
            let lo: u64 = if m == m0 {
                start % 60
            } else {
                0
            };
            proof {
                vstd::arithmetic::div_mod::lemma_fundamental_div_mod(start as int, 60);
            }
            let mut sct: u64 = lo;
            while sct < 60
                invariant
                    0 <= t <= MAX_TS,
                    start == t + 1,
                    m0 == start / 60,
                    m0 <= m <= MAX_MINUTE,
                    minute_fields_match(*c, m as int),
                    lo == (if m == m0 {
                        start % 60
                    } else {
                        0
                    }),
                    lo <= sct <= 60,
                    forall|w: int| t < w < m * 60 ==> !expr_matches(*c, w),
                    forall|s2: int| lo <= s2 < sct ==> !mask_contains(c.sec, s2),
                decreases 60 - sct,
            {
                if mask_test(c.sec, sct) {
                    let u: i64 = (m * 60 + sct) as i64;
                    proof {
                        vstd::arithmetic::div_mod::lemma_fundamental_div_mod(start as int, 60);
                        vstd::arithmetic::div_mod::lemma_fundamental_div_mod_converse(
                            u as int,
                            60,
                            m as int,
                            sct as int,
                        );
                        assert(expr_matches(*c, u as int));
                        assert forall|w: int| t < w < u implies !expr_matches(*c, w) by {
                            if w >= m * 60 {
                                let s2 = w - m * 60;
                                vstd::arithmetic::div_mod::lemma_fundamental_div_mod_converse(
                                    w,
                                    60,
                                    m as int,
                                    s2,
                                );
                                assert(w % 60 == s2);
                                if s2 < lo {
                                    assert(m == m0);
                                    assert(w < m0 * 60 + lo);
                                    assert(m0 * 60 + lo == start);
                                } else {
                                    assert(!mask_contains(c.sec, s2));
                                }
                            }
                        }
                        assert(u > t) by {
                            if m == m0 {
                                assert(m0 * 60 + lo == start);
                            } else {
                                assert(m * 60 >= (m0 + 1) * 60);
                            }
                        }
                    }
                    return Some(u);
                }
                sct = sct + 1;
            }
            proof {
                assert forall|w: int| t < w < (m + 1) * 60 implies !expr_matches(*c, w) by {
                    if w >= m * 60 {
                        let s2 = w - m * 60;
                        vstd::arithmetic::div_mod::lemma_fundamental_div_mod_converse(
                            w,
                            60,
                            m as int,
                            s2,
                        );
                        if s2 < lo {
                            assert(m == m0);
                            assert(m0 * 60 + lo == start);
                        }
                    }
                }
            }
        } else {
            proof {
                assert forall|w: int| t < w < (m + 1) * 60 implies !expr_matches(*c, w) by {
                    if w >= m * 60 {
                        let s2 = w - m * 60;
                        vstd::arithmetic::div_mod::lemma_fundamental_div_mod_converse(
                            w,
                            60,
                            m as int,
                            s2,
                        );
                        assert(w / 60 == m as int);
                    }
                }
            }
        }
        m = m + 1;
    }
    proof {
        assert(m == m_end + 1);
        assert(scan_end(t as int) == (m_end + 1) * 60 - 1);
    }
    None
}

} // verus!
