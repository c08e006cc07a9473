//! Logic of the scheduled showtimes posters: when the next post is due, and
//! how a run time reads.

use vstd::prelude::*;
use vstd::string::{StrSliceExecFns, StringExecFns};
use crate::text::{decimal, push_decimal};

verus! {

pub open spec fn is_ascii_digit(c: char) -> bool {
    48 <= (c as u32) <= 57
}

pub open spec fn all_digits(s: Seq<char>) -> bool {
    forall|i: int| 0 <= i < s.len() ==> is_ascii_digit(#[trigger] s[i])
}

/// The number that a run of decimal digits denotes.
pub open spec fn digits_value(s: Seq<char>) -> nat
    decreases s.len(),
{
    if s.len() == 0 {
        0
    } else {
        digits_value(s.drop_last()) * 10 + ((s.last() as u32) - 48) as nat
    }
}

/// What `u32::from_str` accepts: an optional `+`, then one or more ASCII
/// digits whose value fits in `u32`.
pub open spec fn u32_text(s: Seq<char>) -> Option<u32> {
    let d = if s.len() > 0 && s[0] == '+' { s.drop_first() } else { s };
    if d.len() > 0 && all_digits(d) && digits_value(d) <= u32::MAX {
        Some(digits_value(d) as u32)
    } else {
        None
    }
}

/// Position of the first `c` in `s`, or the length of `s`.
pub open spec fn first_index(s: Seq<char>, c: char) -> nat
    decreases s.len(),
{
    if s.len() == 0 {
        0
    } else if s[0] == c {
        0
    } else {
        1 + first_index(s.drop_first(), c)
    }
}

/// A run time such as `PT02H05M` as `2h 5m`: hours before `H`, minutes
/// between `H` (or the start) and `M`; nothing when both are zero or the
/// text does not read.
pub open spec fn runtime_label(s: Seq<char>) -> Option<Seq<char>> {
    if s.len() < 2 || s[0] != 'P' || s[1] != 'T' {
        None
    } else {
        let d = s.subrange(2, s.len() as int);
        let h = first_index(d, 'H');
        let m = first_index(d, 'M');
        let hours = if h < d.len() { u32_text(d.subrange(0, h as int)) } else { Some(0u32) };
        let start: nat = if h < d.len() { h + 1 } else { 0 };
        let minutes = if m < d.len() {
            if start <= m { u32_text(d.subrange(start as int, m as int)) } else { None }
        } else {
            Some(0u32)
        };
        match (hours, minutes) {
            (Some(hh), Some(mm)) => if hh > 0 && mm > 0 {
                Some(decimal(hh as nat) + "h "@ + decimal(mm as nat) + "m"@)
            } else if hh > 0 {
                Some(decimal(hh as nat) + "h"@)
            } else if mm > 0 {
                Some(decimal(mm as nat) + "m"@)
            } else {
                None
            },
            _ => None,
        }
    }
}

proof fn lemma_first_index(s: Seq<char>, c: char)
    ensures
        first_index(s, c) <= s.len(),
        first_index(s, c) < s.len() ==> s[first_index(s, c) as int] == c,
        forall|j: int| 0 <= j < first_index(s, c) ==> #[trigger] s[j] != c,
    decreases s.len(),
{
    if s.len() > 0 && s[0] != c {
        lemma_first_index(s.drop_first(), c);
        assert forall|j: int| 0 <= j < first_index(s, c) implies #[trigger] s[j] != c by {
            if j > 0 {
                assert(s[j] == s.drop_first()[j - 1]);
            }
        }
    }
}

proof fn lemma_digits_prefix(s: Seq<char>, k: int)
    requires
        0 <= k <= s.len(),
    ensures
        digits_value(s.subrange(0, k)) <= digits_value(s),
    decreases s.len() - k,
{
    if k < s.len() {
        lemma_digits_prefix(s, k + 1);
        assert(s.subrange(0, k + 1).drop_last() =~= s.subrange(0, k));
    } else {
        assert(s.subrange(0, k) =~= s);
    }
}

fn find_char(s: &str, from: usize, c: char) -> (r: usize)
    requires
        from <= s@.len(),
    ensures
        r == from + first_index(s@.subrange(from as int, s@.len() as int), c),
{
    let n = s.unicode_len();
    let ghost d = s@.subrange(from as int, n as int);
    proof {
        lemma_first_index(d, c);
    }
    let mut i: usize = from;
    while i < n
        invariant
            n == s@.len(),
            from <= i <= n,
            d == s@.subrange(from as int, n as int),
            i - from <= first_index(d, c),
            first_index(d, c) <= d.len(),
            first_index(d, c) < d.len() ==> d[first_index(d, c) as int] == c,
            forall|j: int| 0 <= j < first_index(d, c) ==> #[trigger] d[j] != c,
        decreases n - i,
    {
        if s.get_char(i) == c {
            assert(d[i - from] == c);
            return i;
        }
        assert(d[i - from] != c);
        i = i + 1;
    }
    i
}

proof fn lemma_extend_digits(pre: Seq<char>, post: Seq<char>, c: char)
    requires
        post.len() == pre.len() + 1,
        forall|k: int| 0 <= k < pre.len() ==> post[k] == pre[k],
        post[pre.len() as int] == c,
        all_digits(pre),
        is_ascii_digit(c),
    ensures
        all_digits(post),
        digits_value(post) == digits_value(pre) * 10 + ((c as u32) - 48) as nat,
{
    assert(post.drop_last() =~= pre);
    assert forall|k: int| 0 <= k < post.len() implies is_ascii_digit(#[trigger] post[k]) by {
        if k < pre.len() {
            assert(post[k] == pre[k]);
        }
    }
}

fn next_value(v: u64, c: char) -> (r: u64)
    requires
        v <= u32::MAX,
        is_ascii_digit(c),
    ensures
        r == v * 10 + ((c as u32) - 48),
        r <= u64::MAX,
{
    assert(v * 10 <= 42949672950) by (nonlinear_arith)
        requires
            v <= 4294967295u64,
    ;
    v * 10 + ((c as u32) - 48) as u64
}

proof fn lemma_too_large(d: Seq<char>, k: int)
    requires
        0 <= k <= d.len(),
        digits_value(d.subrange(0, k)) > u32::MAX,
    ensures
        !(all_digits(d) && digits_value(d) <= u32::MAX),
{
    if all_digits(d) {
        lemma_digits_prefix(d, k);
    }
}

/// The value of `s[from..to]` read as `u32::from_str` reads it.
fn parse_u32(s: &str, from: usize, to: usize) -> (r: Option<u32>)
    requires
        from <= to <= s@.len(),
    ensures
        r == u32_text(s@.subrange(from as int, to as int)),
{
    let ghost t = s@.subrange(from as int, to as int);
    let mut i = from;
    if i < to && s.get_char(i) == '+' {
        i = i + 1;
    }
    let ghost d = s@.subrange(i as int, to as int);
    proof {
        if t.len() > 0 && t[0] == '+' {
            assert(t.drop_first() =~= d);
        } else {
            assert(t =~= d);
        }
    }
    if i == to {
        return None;
    }
    let start = i;
    let mut v: u64 = 0;
    while i < to
        invariant
            from <= start <= i <= to <= s@.len(),
            d == s@.subrange(start as int, to as int),
            d.len() > 0,
            t == s@.subrange(from as int, to as int),
            u32_text(t) == (if all_digits(d) && digits_value(d) <= u32::MAX {
                Some(digits_value(d) as u32)
            } else {
                None
            }),
            all_digits(d.subrange(0, i - start)),
            v == digits_value(d.subrange(0, i - start)),
            v <= u32::MAX,
        decreases to - i,
    {
        let c = s.get_char(i);
        let ghost k = i - start;
        assert(d[k] == c);
        if !((c as u32) >= 48 && (c as u32) <= 57) {
            assert(!is_ascii_digit(d[k]));
            return None;
        }
        proof {
            lemma_extend_digits(d.subrange(0, k), d.subrange(0, k + 1), c);
        }
        v = next_value(v, c);
        if v > u32::MAX as u64 {
            proof {
                lemma_too_large(d, k + 1);
            }
            return None;
        }
        i = i + 1;
    }
    assert(d.subrange(0, i - start) =~= d);
    Some(v as u32)
}

/// A run time such as `PT02H05M` rendered as `2h 5m`; `None` when the text
/// does not read or both parts are zero.
pub fn parse_runtime(duration: &str) -> (r: Option<String>)
    ensures
        r matches Some(t) ==> runtime_label(duration@) == Some(t@),
        r is None ==> runtime_label(duration@) is None,
{
    let n = duration.unicode_len();
    if n < 2 || duration.get_char(0) != 'P' || duration.get_char(1) != 'T' {
        return None;
    }
    let ghost d = duration@.subrange(2, n as int);
    let h = find_char(duration, 2, 'H');
    let m = find_char(duration, 2, 'M');
    let hours: Option<u32> = if h < n {
        proof {
            assert(d.subrange(0, h - 2) =~= duration@.subrange(2, h as int));
        }
        parse_u32(duration, 2, h)
    } else {
        Some(0)
    };
    let start: usize = if h < n { h + 1 } else { 2 };
    let minutes: Option<u32> = if m < n {
        if start <= m {
            proof {
                assert(d.subrange(start - 2, m - 2) =~= duration@.subrange(start as int, m as int));
            }
            parse_u32(duration, start, m)
        } else {
            None
        }
    } else {
        Some(0)
    };
    match (hours, minutes) {
        (Some(hh), Some(mm)) => {
            let mut s = String::new();
            if hh > 0 && mm > 0 {
                push_decimal(&mut s, hh as u64);
                s.append("h ");
                push_decimal(&mut s, mm as u64);
                s.append("m");
            } else if hh > 0 {
                push_decimal(&mut s, hh as u64);
                s.append("h");
            } else if mm > 0 {
                push_decimal(&mut s, mm as u64);
                s.append("m");
            } else {
                return None;
            }
            Some(s)
        },
        _ => None,
    }
}


/// Days from today until the next posting, for weekdays numbered from Monday
/// (1) to Sunday (7) and times of day in seconds: later today if the time has
/// not come yet, else the next matching weekday, at most a week ahead.
pub open spec fn days_until(today: nat, now_secs: nat, target_day: nat, target_secs: nat) -> nat {
    if today == target_day {
        if now_secs < target_secs { 0 } else { 7 }
    } else if target_day > today {
        (target_day - today) as nat
    } else {
        (7 - (today - target_day)) as nat
    }
}

/// Days from today until the next posting; see `days_until`.
pub fn days_until_next_post(today: u32, now_secs: u32, target_day: u32, target_secs: u32) -> (r: u32)
    requires
        1 <= today <= 7,
        1 <= target_day <= 7,
    ensures
        r == days_until(today as nat, now_secs as nat, target_day as nat, target_secs as nat),
        r <= 7,
        (today + r - 1) % 7 + 1 == target_day,
{
    if today == target_day {
        if now_secs < target_secs {
            0
        } else {
            7
        }
    } else if target_day > today {
        target_day - today
    } else {
        7 - (today - target_day)
    }
}

} // verus!
