//! Rendering and parsing of durations, measured in whole seconds.

use vstd::prelude::*;

use crate::text::{
    all_digits, dec_i64, dec_of, dec_val, digit_val, digits_pos, digits_run, is_digit,
    lemma_dec_val_nonneg, parse_i64, push_u64, starts_with, starts_with_exec,
};

verus! {

// ---------------------------------------------------------------------------
// Kitchen and human formats (spec)
// ---------------------------------------------------------------------------

/// A number rendered with at least two digits, zero-padded.
pub open spec fn pad2(n: int) -> Seq<char> {
    if n < 10 {
        seq!['0'] + dec_of(n as nat)
    } else {
        dec_of(n as nat)
    }
}

/// Kitchen-timer rendering of a non-negative number of seconds:
/// `MM:SS`, or `HH:MM:SS` once there is at least one full hour.
pub open spec fn kitchen_of(total: int) -> Seq<char> {
    let h = total / 3600;
    let m = (total % 3600) / 60;
    let s = total % 60;
    if h > 0 {
        pad2(h) + seq![':'] + pad2(m) + seq![':'] + pad2(s)
    } else {
        pad2(m) + seq![':'] + pad2(s)
    }
}

/// Humanized rendering of a non-negative number of seconds, such as `22m30s`:
/// hour, minute and second components, zero components omitted, and `0s` for
/// a zero duration.
pub open spec fn human_of(total: int) -> Seq<char> {
    let h = total / 3600;
    let m = (total % 3600) / 60;
    let s = total % 60;
    if total == 0 {
        seq!['0', 's']
    } else {
        (if h > 0 { dec_of(h as nat) + seq!['h'] } else { Seq::empty() })
        + (if m > 0 { dec_of(m as nat) + seq!['m'] } else { Seq::empty() })
        + (if s > 0 { dec_of(s as nat) + seq!['s'] } else { Seq::empty() })
    }
}

// ---------------------------------------------------------------------------
// Kitchen and human formats (exec)
// ---------------------------------------------------------------------------

/// Append `n` to `out`, zero-padded to at least two digits.
fn push_pad2(out: &mut String, n: u64)
    ensures
        final(out)@ == old(out)@ + pad2(n as int),
{
    if n < 10 {
        proof {
            reveal_strlit("0");
        }
        out.append("0");
    }
    push_u64(out, n);
    proof {
        assert(out@ =~= old(out)@ + pad2(n as int));
    }
}

/// Format a non-negative number of seconds as a "kitchen timer" string,
/// `MM:SS`, or `HH:MM:SS` if it spans at least an hour.
pub fn to_kitchen(seconds: i64) -> (r: String)
    requires
        0 <= seconds,
    ensures
        r@ == kitchen_of(seconds as int),
{
    proof {
        reveal_strlit(":");
    }
    let h = seconds / 3600;
    let rem = seconds % 3600;
    let m = rem / 60;
    let s = seconds % 60;
    proof {
        assert(m == (seconds as int % 3600) / 60);
        assert(0 <= h && 0 <= m && 0 <= s);
    }
    let mut out = String::new();
    if h > 0 {
        push_pad2(&mut out, h as u64);
        out.append(":");
    }
    push_pad2(&mut out, m as u64);
    out.append(":");
    push_pad2(&mut out, s as u64);
    proof {
        assert(out@ =~= kitchen_of(seconds as int));
    }
    out
}

/// Format a non-negative number of seconds in a humanized way, such as
/// `22m30s`, omitting zero components; a zero duration is `0s`.
pub fn to_human(seconds: i64) -> (r: String)
    requires
        0 <= seconds,
    ensures
        r@ == human_of(seconds as int),
{
    if seconds == 0 {
        proof {
            reveal_strlit("0s");
        }
        let r = String::from_str("0s");
        proof {
            assert(r@ =~= human_of(0));
        }
        return r;
    }
    proof {
        reveal_strlit("h");
        reveal_strlit("m");
        reveal_strlit("s");
    }
    let h = seconds / 3600;
    let rem = seconds % 3600;
    let m = rem / 60;
    let s = seconds % 60;
    proof {
        assert(m == (seconds as int % 3600) / 60);
        assert(0 <= h && 0 <= m && 0 <= s);
    }
    let mut out = String::new();
    if h > 0 {
        push_u64(&mut out, h as u64);
        out.append("h");
    }
    if m > 0 {
        push_u64(&mut out, m as u64);
        out.append("m");
    }
    if s > 0 {
        push_u64(&mut out, s as u64);
        out.append("s");
    }
    proof {
        assert(out@ =~= human_of(seconds as int));
    }
    out
}

// ---------------------------------------------------------------------------
// Parsing duration strings
// ---------------------------------------------------------------------------

/// Why a duration string was rejected.
#[derive(Clone, Copy, Debug, PartialEq, Eq, Structural)]
pub enum DurationError {
    /// Not of the `<HOURS>h<MINUTES>m<SECONDS>s` shape.
    InvalidHuman,
    /// Not of the `PT<SECONDS>S` shape.
    InvalidIso8601,
}

impl DurationError {
    /// The user-facing description of the expected grammar.
    pub open spec fn spec_message(self) -> Seq<char> {
        match self {
            DurationError::InvalidHuman => "Failed to parse duration string, format is <HOURS>h<MINUTES>m<SECONDS>s (each section is optional) example: 22m30s"@,
            DurationError::InvalidIso8601 => "String does not seem to be a duration string"@,
        }
    }

    /// The user-facing description of the expected grammar.
    pub fn message(&self) -> (r: String)
        ensures
            r@ == self.spec_message(),
    {
        match self {
            DurationError::InvalidHuman => {
                proof {
                    reveal_strlit(
                        "Failed to parse duration string, format is <HOURS>h<MINUTES>m<SECONDS>s (each section is optional) example: 22m30s",
                    );
                }
                String::from_str(
                    "Failed to parse duration string, format is <HOURS>h<MINUTES>m<SECONDS>s (each section is optional) example: 22m30s",
                )
            },
            DurationError::InvalidIso8601 => {
                proof {
                    reveal_strlit("String does not seem to be a duration string");
                }
                String::from_str("String does not seem to be a duration string")
            },
        }
    }
}

/// Seconds denoted by an ISO 8601 duration string of the shape
/// `PT<SECONDS>S`, if it has that shape and the value fits.
pub open spec fn iso8601_secs(t: Seq<char>) -> Option<int> {
    if t.len() >= 4 && starts_with(t, "PT"@) && t.last() == 'S' {
        let mid = t.subrange(2, t.len() - 1);
        if mid[0] != '-' {
            dec_i64(mid)
        } else {
            None
        }
    } else {
        None
    }
}

/// Parse a number of seconds from an ISO 8601 duration string,
/// for example `PT1500S`.
pub fn from_iso8601(s: &str) -> (r: Result<i64, DurationError>)
    ensures
        match r {
            Ok(v) => iso8601_secs(s@) == Some(v as int),
            Err(e) => iso8601_secs(s@) is None && e == DurationError::InvalidIso8601,
        },
{
    proof {
        reveal_strlit("PT");
    }
    let n = s.unicode_len();
    if n < 4 || !starts_with_exec(s, "PT") || s.get_char(n - 1) != 'S' {
        return Err(DurationError::InvalidIso8601);
    }
    let mid = s.substring_char(2, n - 1);
    let c0 = mid.get_char(0);
    if c0 == '-' {
        return Err(DurationError::InvalidIso8601);
    }
    match parse_i64(mid) {
        Some(v) => {
            proof {
                assert(mid@ == s@.subrange(2, s@.len() - 1));
            }
            Ok(v)
        },
        None => Err(DurationError::InvalidIso8601),
    }
}

/// Seconds denoted by a humanized duration string of the shape
/// `<HOURS>h<MINUTES>m<SECONDS>s`, each section optional, the hour section a
/// single digit, if the string has that shape and every value fits in a
/// signed 64-bit count.
pub open spec fn human_secs(t: Seq<char>) -> Option<int> {
    let i1: int = if t.len() >= 2 && is_digit(t[0]) && t[1] == 'h' { 2 } else { 0 };
    let h: int = if i1 == 2 { digit_val(t[0]) } else { 0 };
    let mr = digits_run(t, i1);
    let has_m = mr > 0 && i1 + mr < t.len() && t[i1 + mr] == 'm';
    let i2: int = if has_m { i1 + mr + 1 } else { i1 };
    let m: int = if has_m { dec_val(t.subrange(i1, i1 + mr)) } else { 0 };
    let sr = digits_run(t, i2);
    let has_s = sr > 0 && i2 + sr < t.len() && t[i2 + sr] == 's';
    let i3: int = if has_s { i2 + sr + 1 } else { i2 };
    let sec: int = if has_s { dec_val(t.subrange(i2, i2 + sr)) } else { 0 };
    if i3 == t.len() && m <= i64::MAX && sec <= i64::MAX
        && h * 3600 + m * 60 + sec <= i64::MAX {
        Some(h * 3600 + m * 60 + sec)
    } else {
        None
    }
}

/// Parse a humanized duration string such as `22m30s` into a number of
/// seconds.
pub fn duration_from_human(input: &str) -> (r: Result<i64, DurationError>)
    ensures
        match r {
            Ok(v) => human_secs(input@) == Some(v as int),
            Err(e) => human_secs(input@) is None && e == DurationError::InvalidHuman,
        },
{
    let n = input.unicode_len();
    let mut h: i64 = 0;
    let mut i: usize = 0;
    if n >= 2 {
        let c0 = input.get_char(0);
        let c1 = input.get_char(1);
        let v0 = c0 as u32;
        if '0' as u32 <= v0 && v0 <= '9' as u32 && c1 == 'h' {
            h = ((v0 - '0' as u32) as u64) as i64;
            i = 2;
        }
    }
    let ghost i1: int = i as int;
    let ghost gh: int = h as int;
    let mr = digits_pos(input, i);
    let mut m: i64 = 0;
    if mr > 0 && i + mr < n && input.get_char(i + mr) == 'm' {
        let part = input.substring_char(i, i + mr);
        proof {
            assert(part@ == input@.subrange(i1, i1 + mr));
            assert(part@[0] == input@[i1]);
            assert(is_digit(part@[0]));
            assert(all_digits(part@));
            lemma_dec_val_nonneg(part@);
        }
        match parse_i64(part) {
            Some(v) => {
                m = v;
                proof {
                    assert(v as int == dec_val(part@));
                    assert(v >= 0);
                }
            },
            None => {
                return Err(DurationError::InvalidHuman);
            },
        }
        i = i + mr + 1;
    }
    let ghost i2: int = i as int;
    let ghost gm: int = m as int;
    let sr = digits_pos(input, i);
    let mut sec: i64 = 0;
    if sr > 0 && i + sr < n && input.get_char(i + sr) == 's' {
        let part = input.substring_char(i, i + sr);
        proof {
            assert(part@ == input@.subrange(i2, i2 + sr));
            assert(part@[0] == input@[i2]);
            assert(is_digit(part@[0]));
            assert(all_digits(part@));
            lemma_dec_val_nonneg(part@);
        }
        match parse_i64(part) {
            Some(v) => {
                sec = v;
                proof {
                    assert(v as int == dec_val(part@));
                    assert(v >= 0);
                }
            },
            None => {
                return Err(DurationError::InvalidHuman);
            },
        }
        i = i + sr + 1;
    }
    if i != n {
        return Err(DurationError::InvalidHuman);
    }
    let total: i128 = (h as i128) * 3600 + (m as i128) * 60 + (sec as i128);
    proof {
        assert(h >= 0 && m >= 0 && sec >= 0);
        assert(total == gh * 3600 + gm * 60 + sec as int);
    }
    if total > i64::MAX as i128 {
        return Err(DurationError::InvalidHuman);
    }
    proof {
        assert(human_secs(input@) == Some(gh * 3600 + gm * 60 + sec as int));
    }
    Ok(total as i64)
}

} // verus!
