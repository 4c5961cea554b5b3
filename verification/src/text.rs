//! Character-level building blocks for the on-disk text formats: decimal
//! rendering and parsing of 64-bit integers, and line splitting.

use vstd::prelude::*;

verus! {

// ---------------------------------------------------------------------------
// Characters
// ---------------------------------------------------------------------------

/// Horizontal whitespace (a line made only of these is ignored by parsers).
pub open spec fn is_ws(c: char) -> bool {
    c == ' ' || c == '\t' || c == '\r'
}

/// ASCII decimal digit.
pub open spec fn is_digit(c: char) -> bool {
    '0' as u32 <= c as u32 && c as u32 <= '9' as u32
}

/// Numeric value of an ASCII decimal digit.
pub open spec fn digit_val(c: char) -> int {
    c as u32 - '0' as u32
}

/// The ASCII digit character for a value in `0..=9`.
pub open spec fn digit_char(d: int) -> char {
    if d == 0 { '0' }
    else if d == 1 { '1' }
    else if d == 2 { '2' }
    else if d == 3 { '3' }
    else if d == 4 { '4' }
    else if d == 5 { '5' }
    else if d == 6 { '6' }
    else if d == 7 { '7' }
    else if d == 8 { '8' }
    else { '9' }
}

proof fn lemma_digit_char_val(d: int)
    requires
        0 <= d <= 9,
    ensures
        is_digit(digit_char(d)),
        digit_val(digit_char(d)) == d,
        digit_char(d) != '\n',
        !is_ws(digit_char(d)),
{
}

// ---------------------------------------------------------------------------
// Decimal rendering (spec)
// ---------------------------------------------------------------------------

/// Decimal digit string of a non-negative integer, most significant first,
/// with no leading zeros (except for zero itself).
pub open spec fn dec_of(n: nat) -> Seq<char>
    decreases n,
{
    if n < 10 {
        seq![digit_char(n as int)]
    } else {
        dec_of(n / 10).push(digit_char((n % 10) as int))
    }
}

/// Decimal rendering of a signed integer: a minus sign for negative values,
/// then the digits of the absolute value.
pub open spec fn ser_i64(n: int) -> Seq<char> {
    if n < 0 {
        seq!['-'] + dec_of((-n) as nat)
    } else {
        dec_of(n as nat)
    }
}

/// Whether every character of `t` is an ASCII digit.
pub open spec fn all_digits(t: Seq<char>) -> bool {
    forall|i: int| 0 <= i < t.len() ==> is_digit(#[trigger] t[i])
}

/// Value of a digit string, most significant first.
pub open spec fn dec_val(t: Seq<char>) -> int
    decreases t.len(),
{
    if t.len() == 0 {
        0
    } else {
        dec_val(t.drop_last()) * 10 + digit_val(t.last())
    }
}

/// Magnitude bound used when parsing: one more than `i64::MAX`, so that the
/// magnitude of `i64::MIN` is still representable.
pub open spec fn i64_mag_bound() -> int {
    0x8000_0000_0000_0000
}

/// Parse a whole digit string, with an optional leading minus sign, as a
/// signed 64-bit integer. `None` on an empty string, a stray character, or a
/// value out of range.
pub open spec fn dec_i64(t: Seq<char>) -> Option<int> {
    if t.len() > 0 && t[0] == '-' {
        let u = t.skip(1);
        if u.len() > 0 && all_digits(u) && dec_val(u) <= i64_mag_bound() {
            Some(-dec_val(u))
        } else {
            None
        }
    } else {
        if t.len() > 0 && all_digits(t) && dec_val(t) < i64_mag_bound() {
            Some(dec_val(t))
        } else {
            None
        }
    }
}

/// The digits of `n` are digits, there is at least one, and the first is not
/// a minus sign or whitespace.
pub proof fn lemma_dec_of_shape(n: nat)
    ensures
        dec_of(n).len() >= 1,
        all_digits(dec_of(n)),
        dec_of(n)[0] != '-',
        dec_of(n)[0] != '\n',
        !is_ws(dec_of(n)[0]),
        forall|i: int| 0 <= i < dec_of(n).len() ==> #[trigger] dec_of(n)[i] != '\n' && !is_ws(dec_of(n)[i]),
    decreases n,
{
    if n < 10 {
        lemma_digit_char_val(n as int);
    } else {
        lemma_dec_of_shape(n / 10);
        lemma_digit_char_val((n % 10) as int);
        assert forall|i: int| 0 <= i < dec_of(n).len() implies is_digit(#[trigger] dec_of(n)[i]) by {
            if i < dec_of(n / 10).len() {
                assert(dec_of(n)[i] == dec_of(n / 10)[i]);
            }
        }
    }
}

/// Rendering then evaluating a non-negative integer gives it back.
pub proof fn lemma_dec_of_val(n: nat)
    ensures
        dec_val(dec_of(n)) == n,
    decreases n,
{
    if n < 10 {
        lemma_digit_char_val(n as int);
        assert(dec_of(n).drop_last() =~= Seq::<char>::empty());
        assert(dec_val(Seq::<char>::empty()) == 0);
        assert(dec_of(n).last() == digit_char(n as int));
        assert(dec_val(dec_of(n)) == dec_val(dec_of(n).drop_last()) * 10 + digit_val(dec_of(n).last()));
    } else {
        lemma_dec_of_val(n / 10);
        lemma_digit_char_val((n % 10) as int);
        assert(dec_of(n).drop_last() =~= dec_of(n / 10));
        assert(dec_of(n).last() == digit_char((n % 10) as int));
        assert(n == (n / 10) * 10 + n % 10) by (nonlinear_arith);
    }
}

/// A digit string's value only grows as more digits are appended:
/// the value of any prefix is at most the value of the whole.
pub proof fn lemma_dec_val_prefix(t: Seq<char>, i: int)
    requires
        0 <= i <= t.len(),
        all_digits(t),
    ensures
        0 <= dec_val(t.take(i)) <= dec_val(t),
        0 <= dec_val(t),
    decreases t.len() - i,
{
    if i == t.len() {
        assert(t.take(i) =~= t);
        lemma_dec_val_nonneg(t);
    } else {
        lemma_dec_val_prefix(t, i + 1);
        assert(t.take(i + 1).drop_last() =~= t.take(i));
        assert(t.take(i + 1).last() == t[i]);
        lemma_dec_val_nonneg(t.take(i));
    }
}

/// The value of a digit string is non-negative.
pub proof fn lemma_dec_val_nonneg(t: Seq<char>)
    requires
        all_digits(t),
    ensures
        0 <= dec_val(t),
    decreases t.len(),
{
    if t.len() > 0 {
        assert(all_digits(t.drop_last())) by {
            assert(forall|i: int| 0 <= i < t.len() - 1 ==> t.drop_last()[i] == t[i]);
        }
        lemma_dec_val_nonneg(t.drop_last());
        assert(is_digit(t.last()));
    }
}

/// Round trip for the signed rendering: parsing `ser_i64(n)` yields `n`.
pub proof fn lemma_ser_i64_round_trip(n: int)
    requires
        i64::MIN <= n <= i64::MAX,
    ensures
        dec_i64(ser_i64(n)) == Some(n),
{
    if n < 0 {
        let u = dec_of((-n) as nat);
        lemma_dec_of_shape((-n) as nat);
        lemma_dec_of_val((-n) as nat);
        assert(ser_i64(n).skip(1) =~= u);
        assert(ser_i64(n)[0] == '-');
    } else {
        lemma_dec_of_shape(n as nat);
        lemma_dec_of_val(n as nat);
        assert(ser_i64(n)[0] != '-');
    }
}

// ---------------------------------------------------------------------------
// Decimal rendering (exec)
// ---------------------------------------------------------------------------

/// The one-character string for a digit value.
fn digit_str(d: u64) -> (r: &'static str)
    requires
        d <= 9,
    ensures
        r@ =~= seq![digit_char(d as int)],
{
    proof {
        reveal_strlit("0");
        reveal_strlit("1");
        reveal_strlit("2");
        reveal_strlit("3");
        reveal_strlit("4");
        reveal_strlit("5");
        reveal_strlit("6");
        reveal_strlit("7");
        reveal_strlit("8");
        reveal_strlit("9");
    }
    match d {
        0 => "0",
        1 => "1",
        2 => "2",
        3 => "3",
        4 => "4",
        5 => "5",
        6 => "6",
        7 => "7",
        8 => "8",
        _ => "9",
    }
}

/// Append the decimal digits of `n` to `out`.
pub fn push_u64(out: &mut String, n: u64)
    ensures
        final(out)@ == old(out)@ + dec_of(n as nat),
    decreases n,
{
    if n >= 10 {
        push_u64(out, n / 10);
    }
    out.append(digit_str(n % 10));
    proof {
        if n < 10 {
            assert(out@ =~= old(out)@ + dec_of(n as nat));
        } else {
            assert(out@ =~= old(out)@ + dec_of(n as nat));
        }
    }
}

/// Append the decimal rendering of a signed integer to `out`.
pub fn push_i64(out: &mut String, n: i64)
    ensures
        final(out)@ == old(out)@ + ser_i64(n as int),
{
    if n < 0 {
        proof {
            reveal_strlit("-");
        }
        out.append("-");
        let m: u64 = ((-(n as i128)) as u64);
        push_u64(out, m);
        assert(out@ =~= old(out)@ + ser_i64(n as int));
    } else {
        push_u64(out, n as u64);
    }
}

/// Render a signed integer as a fresh string.
pub fn i64_string(n: i64) -> (r: String)
    ensures
        r@ == ser_i64(n as int),
{
    let mut out = String::new();
    push_i64(&mut out, n);
    proof {
        assert(out@ =~= ser_i64(n as int));
    }
    out
}

// ---------------------------------------------------------------------------
// Decimal parsing (exec)
// ---------------------------------------------------------------------------

/// Parse a whole string as a signed 64-bit decimal integer, per [`dec_i64`].
pub fn parse_i64(s: &str) -> (r: Option<i64>)
    ensures
        match r {
            Some(v) => dec_i64(s@) == Some(v as int),
            None => dec_i64(s@) is None,
        },
{
    let n = s.unicode_len();
    if n == 0 {
        return None;
    }
    let neg = s.get_char(0) == '-';
    let start: usize = if neg { 1 } else { 0 };
    let ghost u: Seq<char> = s@.skip(start as int);
    proof {
        if !neg {
            assert(u =~= s@);
        }
    }
    if start >= n {
        return None;
    }
    let bound: u64 = 0x8000_0000_0000_0000;
    let mut acc: u64 = 0;
    let mut i: usize = start;
    while i < n
        invariant
            n == s@.len(),
            start <= i <= n,
            start <= 1,
            start < n,
            u == s@.skip(start as int),
            neg ==> start == 1 && s@[0] == '-',
            !neg ==> start == 0 && s@[0] != '-',
            forall|j: int| 0 <= j < i - start ==> is_digit(#[trigger] u[j]),
            acc == dec_val(u.take(i - start)),
            acc <= 0x8000_0000_0000_0000u64,
            bound == 0x8000_0000_0000_0000u64,
        decreases n - i,
    {
        let c = s.get_char(i);
        let cv = c as u32;
        if cv < '0' as u32 || cv > '9' as u32 {
            proof {
                assert(u[i - start] == s@[i as int]);
                assert(!is_digit(u[i - start]));
                assert(!all_digits(u));
                if !neg {
                    assert(u =~= s@);
                }
            }
            return None;
        }
        let d = (cv - '0' as u32) as u64;
        proof {
            assert(is_digit(u[i - start]) && digit_val(u[i - start]) == d);
            assert(u.take(i - start + 1).drop_last() =~= u.take(i - start));
            assert(u.take(i - start + 1).last() == u[i - start]);
        }
        if acc > (bound - d) / 10 {
            proof {
                let q = (bound - d) as int / 10;
                assert((bound - d) as int == 10 * q + (bound - d) as int % 10) by {
                    vstd::arithmetic::div_mod::lemma_fundamental_div_mod((bound - d) as int, 10);
                }
                assert(acc * 10 + d > bound);
                if all_digits(u) {
                    assert(dec_val(u.take(i - start + 1)) == acc * 10 + d);
                    lemma_dec_val_prefix(u, i - start + 1);
                    assert(dec_val(u) > bound);
                }
                if !neg {
                    assert(u =~= s@);
                }
            }
            return None;
        }
        acc = acc * 10 + d;
        i += 1;
    }
    proof {
        assert(u.take(n - start) =~= u);
        assert(all_digits(u));
    }
    if neg {
        if acc == bound {
            Some(i64::MIN)
        } else {
            Some(-(acc as i64))
        }
    } else {
        if acc == bound {
            None
        } else {
            Some(acc as i64)
        }
    }
}

/// Number of consecutive ASCII digits in `s` starting at `from`.
pub open spec fn digits_run(s: Seq<char>, from: int) -> int
    decreases s.len() - from,
{
    if from < 0 || from >= s.len() || !is_digit(s[from]) {
        0
    } else {
        1 + digits_run(s, from + 1)
    }
}

/// If the `k` characters from `from` are digits and the next one (if any)
/// is not, then the digit run at `from` has length exactly `k`.
pub proof fn lemma_digits_run_at(s: Seq<char>, from: int, k: int)
    requires
        0 <= from,
        0 <= k,
        from + k <= s.len(),
        forall|j: int| from <= j < from + k ==> is_digit(#[trigger] s[j]),
        from + k == s.len() || !is_digit(s[from + k]),
    ensures
        digits_run(s, from) == k,
    decreases k,
{
    if k > 0 {
        lemma_digits_run_at(s, from + 1, k - 1);
    }
}

/// Length of the digit run at `from`, as [`digits_run`] describes.
pub fn digits_pos(s: &str, from: usize) -> (r: usize)
    requires
        from <= s@.len(),
    ensures
        from + r <= s@.len(),
        r == digits_run(s@, from as int),
        forall|j: int| from <= j < from + r ==> is_digit(#[trigger] s@[j]),
{
    let n = s.unicode_len();
    let mut i: usize = from;
    while i < n
        invariant
            n == s@.len(),
            from <= i <= n,
            forall|j: int| from <= j < i ==> is_digit(#[trigger] s@[j]),
        decreases n - i,
    {
        let c = s.get_char(i);
        let cv = c as u32;
        if cv < '0' as u32 || cv > '9' as u32 {
            proof {
                lemma_digits_run_at(s@, from as int, i - from);
            }
            return i - from;
        }
        i += 1;
    }
    proof {
        lemma_digits_run_at(s@, from as int, i - from);
    }
    i - from
}

// ---------------------------------------------------------------------------
// Lines (spec)
// ---------------------------------------------------------------------------

/// Index of the first newline in `s`, or `s.len()` if there is none.
pub open spec fn first_nl(s: Seq<char>) -> int
    decreases s.len(),
{
    if s.len() == 0 {
        0
    } else if s[0] == '\n' {
        0
    } else {
        1 + first_nl(s.skip(1))
    }
}

/// Characterization of [`first_nl`]: everything before it is newline-free,
/// and it points at a newline unless there is none at all.
pub proof fn lemma_first_nl(s: Seq<char>)
    ensures
        0 <= first_nl(s) <= s.len(),
        forall|j: int| 0 <= j < first_nl(s) ==> s[j] != '\n',
        first_nl(s) < s.len() ==> s[first_nl(s)] == '\n',
    decreases s.len(),
{
    if s.len() > 0 && s[0] != '\n' {
        lemma_first_nl(s.skip(1));
        assert forall|j: int| 0 <= j < first_nl(s) implies s[j] != '\n' by {
            if j > 0 {
                assert(s.skip(1)[j - 1] == s[j]);
                assert(s.skip(1)[j - 1] != '\n');
            }
        }
    }
}

/// A sequence of characters with no newline in it.
pub open spec fn nl_free(l: Seq<char>) -> bool {
    forall|j: int| 0 <= j < l.len() ==> #[trigger] l[j] != '\n'
}

/// [`nl_free`], phrased recursively so that it can be evaluated on literal
/// strings by unfolding.
pub open spec fn nl_free_rec(s: Seq<char>) -> bool
    decreases s.len(),
{
    s.len() == 0 || (s.last() != '\n' && nl_free_rec(s.drop_last()))
}

/// The recursive phrasing implies the quantified one.
pub proof fn lemma_nl_free_rec(s: Seq<char>)
    requires
        nl_free_rec(s),
    ensures
        nl_free(s),
    decreases s.len(),
{
    if s.len() > 0 {
        lemma_nl_free_rec(s.drop_last());
        assert forall|j: int| 0 <= j < s.len() implies s[j] != '\n' by {
            if j < s.len() - 1 {
                assert(s.drop_last()[j] == s[j]);
                assert(s.drop_last()[j] != '\n');
            }
        }
    }
}

/// If position `k` holds the first newline of `s`, `first_nl` finds it.
pub proof fn lemma_first_nl_at(s: Seq<char>, k: int)
    requires
        0 <= k < s.len(),
        forall|j: int| 0 <= j < k ==> s[j] != '\n',
        s[k] == '\n',
    ensures
        first_nl(s) == k,
{
    lemma_first_nl(s);
}

/// If `s` holds no newline at all, `first_nl` is the length.
pub proof fn lemma_first_nl_none(s: Seq<char>)
    requires
        nl_free(s),
    ensures
        first_nl(s) == s.len(),
{
    lemma_first_nl(s);
}

/// Split a character sequence into lines. A final fragment without a
/// trailing newline counts as a line; a trailing newline does not open an
/// empty final line.
pub open spec fn split_lines(s: Seq<char>) -> Seq<Seq<char>>
    decreases s.len(),
{
    if s.len() == 0 {
        Seq::empty()
    } else {
        let k = first_nl(s);
        if 0 <= k < s.len() {
            seq![s.take(k)] + split_lines(s.skip(k + 1))
        } else {
            seq![s]
        }
    }
}

/// Join lines back into a character sequence, each line followed by a
/// newline.
pub open spec fn flatten_lines(ls: Seq<Seq<char>>) -> Seq<char>
    decreases ls.len(),
{
    if ls.len() == 0 {
        Seq::empty()
    } else {
        ls[0] + seq!['\n'] + flatten_lines(ls.skip(1))
    }
}

/// Joining a single line appends just that line and a newline.
pub proof fn lemma_flatten_singleton(l: Seq<char>)
    ensures
        flatten_lines(seq![l]) == l + seq!['\n'],
{
    let ls = seq![l];
    assert(ls.skip(1) =~= Seq::<Seq<char>>::empty());
    assert(flatten_lines(ls.skip(1)) == Seq::<char>::empty());
    assert(flatten_lines(ls) =~= l + seq!['\n']);
}

/// Joining two lines appends both, each followed by a newline.
pub proof fn lemma_flatten_pair(l0: Seq<char>, l1: Seq<char>)
    ensures
        flatten_lines(seq![l0, l1]) == l0 + seq!['\n'] + l1 + seq!['\n'],
{
    let ls = seq![l0, l1];
    assert(ls.skip(1) =~= seq![l1]);
    lemma_flatten_singleton(l1);
    assert(flatten_lines(ls) =~= l0 + seq!['\n'] + l1 + seq!['\n']);
}

/// Joining lines distributes over concatenation of line lists.
pub proof fn lemma_flatten_append(a: Seq<Seq<char>>, b: Seq<Seq<char>>)
    ensures
        flatten_lines(a + b) == flatten_lines(a) + flatten_lines(b),
    decreases a.len(),
{
    if a.len() == 0 {
        assert(a + b =~= b);
        assert(flatten_lines(a) + flatten_lines(b) =~= flatten_lines(b));
    } else {
        assert((a + b)[0] == a[0]);
        assert((a + b).skip(1) =~= a.skip(1) + b);
        lemma_flatten_append(a.skip(1), b);
        assert(flatten_lines(a + b) =~= flatten_lines(a) + flatten_lines(b));
    }
}

/// Splitting joined newline-free lines gives the lines back.
pub proof fn lemma_split_flatten(ls: Seq<Seq<char>>)
    requires
        forall|i: int| 0 <= i < ls.len() ==> nl_free(#[trigger] ls[i]),
    ensures
        split_lines(flatten_lines(ls)) == ls,
    decreases ls.len(),
{
    if ls.len() == 0 {
        assert(split_lines(flatten_lines(ls)) =~= ls);
    } else {
        let l = ls[0];
        let f = flatten_lines(ls);
        let rest = flatten_lines(ls.skip(1));
        assert(f == l + seq!['\n'] + rest);
        assert(forall|j: int| 0 <= j < l.len() ==> f[j] == l[j]);
        assert(f[l.len() as int] == '\n');
        lemma_first_nl_at(f, l.len() as int);
        assert(f.take(l.len() as int) =~= l);
        assert(f.skip(l.len() as int + 1) =~= rest);
        assert(forall|i: int| 0 <= i < ls.skip(1).len() ==> ls.skip(1)[i] == ls[i + 1]);
        lemma_split_flatten(ls.skip(1));
        assert(split_lines(f) =~= ls);
    }
}

/// Splitting a concatenation whose first part ends with a newline (or is
/// empty) splits each part separately.
pub proof fn lemma_split_append(a: Seq<char>, b: Seq<char>)
    requires
        a.len() == 0 || a.last() == '\n',
    ensures
        split_lines(a + b) == split_lines(a) + split_lines(b),
    decreases a.len(),
{
    if a.len() == 0 {
        assert(a + b =~= b);
        assert(split_lines(a) + split_lines(b) =~= split_lines(b));
    } else {
        lemma_first_nl(a);
        let k = first_nl(a);
        assert(k < a.len()) by {
            if k == a.len() {
                assert(a[a.len() - 1] != '\n');
            }
        }
        lemma_first_nl_at(a + b, k);
        assert((a + b).take(k) =~= a.take(k));
        assert((a + b).skip(k + 1) =~= a.skip(k + 1) + b);
        if a.skip(k + 1).len() > 0 {
            assert(a.skip(k + 1).last() == a.last());
        }
        lemma_split_append(a.skip(k + 1), b);
        assert(split_lines(a + b) =~= split_lines(a) + split_lines(b));
    }
}

/// A line that holds only horizontal whitespace (possibly none).
pub open spec fn is_blank(l: Seq<char>) -> bool {
    forall|i: int| 0 <= i < l.len() ==> is_ws(#[trigger] l[i])
}

/// Drop blank lines.
pub open spec fn nonblank(ls: Seq<Seq<char>>) -> Seq<Seq<char>>
    decreases ls.len(),
{
    if ls.len() == 0 {
        Seq::empty()
    } else if is_blank(ls[0]) {
        nonblank(ls.skip(1))
    } else {
        seq![ls[0]] + nonblank(ls.skip(1))
    }
}

/// Dropping blank lines distributes over concatenation.
pub proof fn lemma_nonblank_append(a: Seq<Seq<char>>, b: Seq<Seq<char>>)
    ensures
        nonblank(a + b) == nonblank(a) + nonblank(b),
    decreases a.len(),
{
    if a.len() == 0 {
        assert(a + b =~= b);
        assert(nonblank(a) + nonblank(b) =~= nonblank(b));
    } else {
        assert((a + b)[0] == a[0]);
        assert((a + b).skip(1) =~= a.skip(1) + b);
        lemma_nonblank_append(a.skip(1), b);
        assert(nonblank(a + b) =~= nonblank(a) + nonblank(b));
    }
}

/// Dropping blank lines from a list with none is the identity.
pub proof fn lemma_nonblank_id(ls: Seq<Seq<char>>)
    requires
        forall|i: int| 0 <= i < ls.len() ==> !is_blank(#[trigger] ls[i]),
    ensures
        nonblank(ls) == ls,
    decreases ls.len(),
{
    if ls.len() > 0 {
        assert(forall|i: int| 0 <= i < ls.skip(1).len() ==> ls.skip(1)[i] == ls[i + 1]);
        lemma_nonblank_id(ls.skip(1));
        assert(nonblank(ls) =~= ls);
    }
}

// ---------------------------------------------------------------------------
// Lines (exec)
// ---------------------------------------------------------------------------

/// The views of a list of owned lines.
pub open spec fn line_views(ls: Seq<String>) -> Seq<Seq<char>> {
    ls.map_values(|l: String| l@)
}

/// Split a string into its lines, as [`split_lines`] describes.
pub fn split_lines_exec(s: &str) -> (lines: Vec<String>)
    ensures
        line_views(lines@) == split_lines(s@),
{
    let n = s.unicode_len();
    let mut lines: Vec<String> = Vec::new();
    let mut start: usize = 0;
    let mut i: usize = 0;
    proof {
        assert(s@.skip(0) =~= s@);
        assert(line_views(lines@) =~= Seq::<Seq<char>>::empty());
        assert(line_views(lines@) + split_lines(s@) =~= split_lines(s@));
    }
    while i < n
        invariant
            n == s@.len(),
            start <= i <= n,
            forall|j: int| start <= j < i ==> s@[j] != '\n',
            split_lines(s@) == line_views(lines@) + split_lines(s@.skip(start as int)),
        decreases n - i,
    {
        if s.get_char(i) == '\n' {
            let line = s.substring_char(start, i).to_owned();
            proof {
                let u = s@.skip(start as int);
                assert(forall|j: int| 0 <= j < i - start ==> u[j] == s@[j + start] && u[j] != '\n');
                assert(u[i - start] == s@[i as int]);
                lemma_first_nl_at(u, i - start);
                assert(u.take(i - start) =~= s@.subrange(start as int, i as int));
                assert(u.skip(i - start + 1) =~= s@.skip(i + 1));
                assert(line_views(lines@.push(line)) =~= line_views(lines@).push(line@));
                assert(line_views(lines@).push(line@) + split_lines(s@.skip(i + 1))
                    =~= line_views(lines@) + split_lines(s@.skip(start as int)));
            }
            lines.push(line);
            start = i + 1;
        }
        i += 1;
    }
    if start < n {
        let line = s.substring_char(start, n).to_owned();
        proof {
            let u = s@.skip(start as int);
            assert(forall|j: int| 0 <= j < u.len() ==> u[j] == s@[j + start] && u[j] != '\n');
            lemma_first_nl_none(u);
            assert(u =~= s@.subrange(start as int, n as int));
            assert(split_lines(u) =~= seq![u]);
            assert(line_views(lines@.push(line)) =~= line_views(lines@).push(line@));
            assert(line_views(lines@).push(line@) =~= line_views(lines@) + split_lines(u));
        }
        lines.push(line);
    } else {
        proof {
            assert(s@.skip(start as int) =~= Seq::<char>::empty());
            assert(line_views(lines@) + split_lines(s@.skip(start as int)) =~= line_views(lines@));
        }
    }
    lines
}

/// Whether a string is blank, as [`is_blank`] describes.
pub fn is_blank_exec(l: &str) -> (r: bool)
    ensures
        r == is_blank(l@),
{
    let n = l.unicode_len();
    let mut i: usize = 0;
    while i < n
        invariant
            n == l@.len(),
            i <= n,
            forall|j: int| 0 <= j < i ==> is_ws(#[trigger] l@[j]),
        decreases n - i,
    {
        let c = l.get_char(i);
        if !(c == ' ' || c == '\t' || c == '\r') {
            return false;
        }
        i += 1;
    }
    true
}

/// Split a string into lines and drop the blank ones.
pub fn content_lines(s: &str) -> (lines: Vec<String>)
    ensures
        line_views(lines@) == nonblank(split_lines(s@)),
{
    let raw = split_lines_exec(s);
    let ghost rs: Seq<Seq<char>> = line_views(raw@);
    let mut lines: Vec<String> = Vec::new();
    let mut i: usize = 0;
    proof {
        assert(rs.skip(0) =~= rs);
        assert(line_views(lines@) =~= Seq::<Seq<char>>::empty());
        assert(line_views(lines@) + nonblank(rs) =~= nonblank(rs));
    }
    while i < raw.len()
        invariant
            rs == line_views(raw@),
            i <= raw.len(),
            nonblank(rs) == line_views(lines@) + nonblank(rs.skip(i as int)),
        decreases raw.len() - i,
    {
        let blank = is_blank_exec(raw[i].as_str());
        proof {
            assert(rs.skip(i as int)[0] == rs[i as int]);
            assert(rs.skip(i as int).skip(1) =~= rs.skip(i + 1));
        }
        if !blank {
            proof {
                assert(line_views(lines@.push(raw@[i as int])) =~= line_views(lines@).push(rs[i as int]));
                assert(line_views(lines@).push(rs[i as int]) + nonblank(rs.skip(i + 1))
                    =~= line_views(lines@) + nonblank(rs.skip(i as int)));
            }
            let line = raw[i].clone();
            lines.push(line);
        }
        i += 1;
    }
    proof {
        assert(rs.skip(raw@.len() as int) =~= Seq::<Seq<char>>::empty());
        assert(line_views(lines@) + nonblank(rs.skip(raw@.len() as int)) =~= line_views(lines@));
    }
    lines
}

// ---------------------------------------------------------------------------
// Prefix matching (spec and exec)
// ---------------------------------------------------------------------------

/// Whether `p` is a prefix of `l`.
pub open spec fn starts_with(l: Seq<char>, p: Seq<char>) -> bool {
    l.len() >= p.len() && l.take(p.len() as int) == p
}

/// Prefix test, as [`starts_with`] describes.
pub fn starts_with_exec(l: &str, p: &str) -> (r: bool)
    ensures
        r == starts_with(l@, p@),
{
    let ln = l.unicode_len();
    let pn = p.unicode_len();
    if ln < pn {
        assert(!starts_with(l@, p@)) by {
            if starts_with(l@, p@) {
                assert(l@.take(p@.len() as int).len() == p@.len());
            }
        }
        return false;
    }
    let mut i: usize = 0;
    while i < pn
        invariant
            ln == l@.len(),
            pn == p@.len(),
            pn <= ln,
            i <= pn,
            forall|j: int| 0 <= j < i ==> l@[j] == p@[j],
        decreases pn - i,
    {
        if l.get_char(i) != p.get_char(i) {
            proof {
                assert(l@.take(p@.len() as int)[i as int] == l@[i as int]);
            }
            return false;
        }
        i += 1;
    }
    proof {
        assert(l@.take(p@.len() as int) =~= p@);
    }
    true
}

/// Copy a vector of strings, element by element.
pub fn clone_string_vec(v: &Vec<String>) -> (r: Vec<String>)
    ensures
        r@ == v@,
{
    let mut r: Vec<String> = Vec::new();
    let mut i: usize = 0;
    while i < v.len()
        invariant
            i <= v@.len(),
            r@ == v@.take(i as int),
        decreases v@.len() - i,
    {
        r.push(v[i].clone());
        proof {
            assert(r@ =~= v@.take(i + 1));
        }
        i += 1;
    }
    proof {
        assert(v@.take(v@.len() as int) =~= v@);
    }
    r
}

/// String equality on views.
pub fn str_eq(l: &str, p: &str) -> (r: bool)
    ensures
        r == (l@ == p@),
{
    let ln = l.unicode_len();
    let pn = p.unicode_len();
    if ln != pn {
        proof {
            if l@ == p@ {
                assert(l@.len() == p@.len());
            }
        }
        return false;
    }
    let mut i: usize = 0;
    while i < pn
        invariant
            ln == l@.len(),
            pn == p@.len(),
            pn == ln,
            i <= pn,
            forall|j: int| 0 <= j < i ==> l@[j] == p@[j],
        decreases pn - i,
    {
        if l.get_char(i) != p.get_char(i) {
            return false;
        }
        i += 1;
    }
    proof {
        assert(l@ =~= p@);
    }
    true
}

} // verus!
