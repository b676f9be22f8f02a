//! Durations given on the command line: a number of minutes (`5m`), hours (`1h`) or
//! seconds (`30s`, or a bare number).

use vstd::prelude::*;

use crate::decimal::{chars_of, parse_u64_in, parse_u64_spec};

verus! {

/// Whether `c` has the Unicode White_Space property.
pub open spec fn is_white_space(c: char) -> bool {
    let u = c as u32;
    ||| 0x09 <= u <= 0x0D
    ||| u == 0x20
    ||| u == 0x85
    ||| u == 0xA0
    ||| u == 0x1680
    ||| 0x2000 <= u <= 0x200A
    ||| u == 0x2028
    ||| u == 0x2029
    ||| u == 0x202F
    ||| u == 0x205F
    ||| u == 0x3000
}

/// `s` without its leading White_Space characters.
pub open spec fn trim_start(s: Seq<char>) -> Seq<char>
    decreases s.len(),
{
    if s.len() > 0 && is_white_space(s[0]) {
        trim_start(s.drop_first())
    } else {
        s
    }
}

/// `s` without its trailing White_Space characters.
pub open spec fn trim_end(s: Seq<char>) -> Seq<char>
    decreases s.len(),
{
    if s.len() > 0 && is_white_space(s.last()) {
        trim_end(s.drop_last())
    } else {
        s
    }
}

/// `s` without leading and trailing White_Space characters, as `str::trim` leaves it.
pub open spec fn spec_trim(s: Seq<char>) -> Seq<char> {
    trim_end(trim_start(s))
}

fn white_space(c: char) -> (r: bool)
    ensures
        r == is_white_space(c),
{
    let u = c as u32;
    (0x09 <= u && u <= 0x0D) || u == 0x20 || u == 0x85 || u == 0xA0 || u == 0x1680 || (0x2000
        <= u && u <= 0x200A) || u == 0x2028 || u == 0x2029 || u == 0x202F || u == 0x205F || u
        == 0x3000
}

/// The positions `(from, to)` in `cs` between which `spec_trim` of `cs` lies.
fn trimmed_bounds(cs: &Vec<char>) -> (r: (usize, usize))
    ensures
        r.0 <= r.1 <= cs@.len(),
        cs@.subrange(r.0 as int, r.1 as int) == spec_trim(cs@),
{
    let n = cs.len();
    let mut from: usize = 0;
    proof {
        assert(cs@.subrange(0, n as int) =~= cs@);
    }
    while from < n && white_space(cs[from])
        invariant
            from <= n == cs@.len(),
            trim_start(cs@) == trim_start(cs@.subrange(from as int, n as int)),
        decreases n - from,
    {
        proof {
            assert(cs@.subrange(from as int, n as int).drop_first() =~= cs@.subrange(
                from + 1,
                n as int,
            ));
        }
        from += 1;
    }
    let ghost start = cs@.subrange(from as int, n as int);
    proof {
        assert(trim_start(start) == start);
        assert(cs@.subrange(from as int, n as int) =~= start);
    }
    let mut to: usize = n;
    while to > from && white_space(cs[to - 1])
        invariant
            from <= to <= n == cs@.len(),
            start == cs@.subrange(from as int, n as int),
            trim_end(start) == trim_end(cs@.subrange(from as int, to as int)),
        decreases to - from,
    {
        proof {
            assert(cs@.subrange(from as int, to as int).drop_last() =~= cs@.subrange(
                from as int,
                to - 1,
            ));
        }
        to -= 1;
    }
    proof {
        let t = cs@.subrange(from as int, to as int);
        assert(trim_end(t) == t);
    }
    (from, to)
}

/// The seconds that a duration string stands for, after trimming: `<n>m` is `n`
/// minutes (1 when `n` does not parse), `<n>h` is `n` hours (1 when `n` does not
/// parse), `<n>s` or a bare `<n>` is `n` seconds (`default_secs` when `n` does not
/// parse). The product is taken as an integer, without bound.
pub open spec fn duration_secs_spec(s: Seq<char>, default_secs: u64) -> int {
    let t = spec_trim(s);
    let n = t.len();
    if n > 0 && t[n - 1] == 'm' {
        (match parse_u64_spec(t.take(n - 1)) {
            Some(v) => v,
            None => 1,
        }) * 60
    } else if n > 0 && t[n - 1] == 'h' {
        (match parse_u64_spec(t.take(n - 1)) {
            Some(v) => v,
            None => 1,
        }) * 3600
    } else if n > 0 && t[n - 1] == 's' {
        match parse_u64_spec(t.take(n - 1)) {
            Some(v) => v as int,
            None => default_secs as int,
        }
    } else {
        match parse_u64_spec(t) {
            Some(v) => v as int,
            None => default_secs as int,
        }
    }
}

/// The seconds that a duration string stands for (see `duration_secs_spec`); `None`
/// when they do not fit in a `u64`.
pub fn parse_duration(s: &str, default_secs: u64) -> (r: Option<u64>)
    ensures
        duration_secs_spec(s@, default_secs) <= u64::MAX ==> r == Some(
            duration_secs_spec(s@, default_secs) as u64,
        ),
        duration_secs_spec(s@, default_secs) > u64::MAX ==> r is None,
{
    let cs = chars_of(s);
    let (from, to) = trimmed_bounds(&cs);
    let ghost t = spec_trim(s@);
    proof {
        assert(cs@.subrange(from as int, to as int) == t);
        if to > from {
            assert(cs@.subrange(from as int, to - 1) =~= t.take(t.len() - 1));
        }
    }
    if to > from && cs[to - 1] == 'm' {
        let v = match parse_u64_in(&cs, from, to - 1) {
            Some(v) => v,
            None => 1,
        };
        v.checked_mul(60)
    } else if to > from && cs[to - 1] == 'h' {
        let v = match parse_u64_in(&cs, from, to - 1) {
            Some(v) => v,
            None => 1,
        };
        v.checked_mul(3600)
    } else if to > from && cs[to - 1] == 's' {
        match parse_u64_in(&cs, from, to - 1) {
            Some(v) => Some(v),
            None => Some(default_secs),
        }
    } else {
        match parse_u64_in(&cs, from, to) {
            Some(v) => Some(v),
            None => Some(default_secs),
        }
    }
}

} // verus!
