//! Rendering and parsing of the on-disk state file.
//!
//! The state file holds exactly one of three tagged blocks:
//!
//! ```text
//! [Active]                        (or [ShortBreak] / [LongBreak])
//! started_at = <integer seconds>
//! duration = <integer seconds>
//! description = "<text>"          (Active only, optional)
//! tags = ["a", "b"]               (Active only, optional)
//! finished_at = <integer seconds> (Active only, optional)
//! ```
//!
//! Absence of the file means the inactive status. Parsing works line by
//! line, ignoring blank lines; rendering always emits the canonical form
//! above, and parsing it back yields the value that was rendered (see
//! [`lemma_status_round_trip`]).

use vstd::prelude::*;

use crate::pomodoro::{Pomodoro, PomodoroV};
use crate::text::{
    dec_i64, dec_of, is_blank, is_ws, line_views, lemma_dec_of_shape, lemma_nl_free_rec,
    lemma_nonblank_id, lemma_ser_i64_round_trip, lemma_split_flatten, nl_free, nl_free_rec,
    nonblank, ser_i64, split_lines, starts_with, flatten_lines,
};
use crate::text::{
    content_lines, lemma_flatten_append, lemma_flatten_pair, lemma_flatten_singleton, parse_i64,
    push_i64, starts_with_exec, str_eq,
};
use crate::time::{Timer, TimerV};
use crate::{Status, StatusV};

verus! {

// ---------------------------------------------------------------------------
// Rendering (spec)
// ---------------------------------------------------------------------------

/// The two lines every timer is written as.
pub open spec fn timer_lines(t: TimerV) -> Seq<Seq<char>> {
    seq![
        "started_at = "@ + ser_i64(t.started_at),
        "duration = "@ + ser_i64(t.duration),
    ]
}

/// The line a description is written as.
pub open spec fn desc_line(d: Seq<char>) -> Seq<char> {
    "description = \""@ + d + "\""@
}

/// The bracket contents of a tags line: the tags, each in double quotes,
/// separated by comma-space.
pub open spec fn tags_inner(ts: Seq<Seq<char>>) -> Seq<char>
    decreases ts.len(),
{
    if ts.len() == 0 {
        Seq::empty()
    } else if ts.len() == 1 {
        seq!['"'] + ts[0] + seq!['"']
    } else {
        seq!['"'] + ts[0] + seq!['"'] + ", "@ + tags_inner(ts.skip(1))
    }
}

/// The line a tag list is written as.
pub open spec fn tags_line(ts: Seq<Seq<char>>) -> Seq<char> {
    "tags = ["@ + tags_inner(ts) + seq![']']
}

/// The line a completion instant is written as.
pub open spec fn finished_line(f: int) -> Seq<char> {
    "finished_at = "@ + ser_i64(f)
}

/// The lines a Pomodoro's fields are written as: timer first, then the
/// optional description, tags and completion instant, in that order.
pub open spec fn pom_lines(p: PomodoroV) -> Seq<Seq<char>> {
    timer_lines(p.timer) + (match p.description {
        Some(d) => seq![desc_line(d)],
        None => Seq::<Seq<char>>::empty(),
    }) + (match p.tags {
        Some(ts) => seq![tags_line(ts)],
        None => Seq::<Seq<char>>::empty(),
    }) + (match p.finished_at {
        Some(f) => seq![finished_line(f)],
        None => Seq::<Seq<char>>::empty(),
    })
}

/// The lines of a whole state file: a tag header, then the block's fields.
/// The inactive status has no file and no lines.
pub open spec fn status_lines(v: StatusV) -> Seq<Seq<char>> {
    match v {
        StatusV::Inactive => Seq::empty(),
        StatusV::Active(p) => seq!["[Active]"@] + pom_lines(p),
        StatusV::ShortBreak(t) => seq!["[ShortBreak]"@] + timer_lines(t),
        StatusV::LongBreak(t) => seq!["[LongBreak]"@] + timer_lines(t),
    }
}

/// The character contents of a state file for a non-inactive status.
pub open spec fn ser_status(v: StatusV) -> Seq<char> {
    flatten_lines(status_lines(v))
}

/// What saving a status leaves on disk: no file for the inactive status,
/// else the rendered state file.
pub open spec fn ser_status_file(v: StatusV) -> Option<Seq<char>> {
    match v {
        StatusV::Inactive => None,
        _ => Some(ser_status(v)),
    }
}

// ---------------------------------------------------------------------------
// Parsing (spec)
// ---------------------------------------------------------------------------

/// Parse a `key = <integer>` line: the line must start with `key` and the
/// whole remainder must be a decimal integer.
pub open spec fn parse_kv_i64(l: Seq<char>, key: Seq<char>) -> Option<int> {
    if starts_with(l, key) {
        dec_i64(l.skip(key.len() as int))
    } else {
        None
    }
}

/// Whether a line has the shape of a description line.
pub open spec fn is_desc_line(l: Seq<char>) -> bool {
    starts_with(l, "description = \""@) && l.len() >= 16 && l.last() == '"'
}

/// The text of a description line.
pub open spec fn desc_of(l: Seq<char>) -> Seq<char> {
    l.subrange(15, l.len() - 1)
}

/// Index of the first `c` in `s` at or after `from`, or `s.len()` if none.
pub open spec fn find_char_from(s: Seq<char>, from: int, c: char) -> int
    decreases s.len() - from,
{
    if from < 0 || from >= s.len() {
        s.len() as int
    } else if s[from] == c {
        from
    } else {
        find_char_from(s, from + 1, c)
    }
}

/// Characterization of [`find_char_from`].
pub proof fn lemma_find_char_from(s: Seq<char>, from: int, c: char)
    requires
        0 <= from <= s.len(),
    ensures
        from <= find_char_from(s, from, c) <= s.len(),
        forall|j: int| from <= j < find_char_from(s, from, c) ==> s[j] != c,
        find_char_from(s, from, c) < s.len() ==> s[find_char_from(s, from, c)] == c,
    decreases s.len() - from,
{
    if from < s.len() && s[from] != c {
        lemma_find_char_from(s, from + 1, c);
    }
}

/// Parse the bracket contents of a non-empty tag list: quoted tags
/// separated by comma-space.
pub open spec fn parse_tags_items(s: Seq<char>) -> Option<Seq<Seq<char>>>
    decreases s.len(),
{
    if s.len() < 2 || s[0] != '"' {
        None
    } else {
        let q = find_char_from(s, 1, '"');
        if !(1 <= q < s.len()) {
            None
        } else {
            let tag = s.subrange(1, q);
            if q + 1 == s.len() {
                Some(seq![tag])
            } else if q + 3 <= s.len() && s[q + 1] == ',' && s[q + 2] == ' ' {
                match parse_tags_items(s.skip(q + 3)) {
                    Some(rest) => Some(seq![tag] + rest),
                    None => None,
                }
            } else {
                None
            }
        }
    }
}

/// Whether a line has the outer shape of a tags line.
pub open spec fn is_tags_line(l: Seq<char>) -> bool {
    starts_with(l, "tags = ["@) && l.len() >= 9 && l.last() == ']'
}

/// The tag list of a tags line, if its bracket contents parse.
pub open spec fn tags_items_of(l: Seq<char>) -> Option<Seq<Seq<char>>> {
    let inner = l.subrange(8, l.len() - 1);
    if inner.len() == 0 {
        Some(Seq::empty())
    } else {
        parse_tags_items(inner)
    }
}

/// Whether a line has the shape of a completion-instant line.
pub open spec fn is_finished_line(l: Seq<char>) -> bool {
    starts_with(l, "finished_at = "@)
}

/// Parse the two timer lines: a start instant, then a non-negative duration
/// whose end instant fits.
pub open spec fn parse_timer_2(l0: Seq<char>, l1: Seq<char>) -> Option<TimerV> {
    match (parse_kv_i64(l0, "started_at = "@), parse_kv_i64(l1, "duration = "@)) {
        (Some(a), Some(d)) => if 0 <= d && a + d <= i64::MAX {
            Some(TimerV { started_at: a, duration: d })
        } else {
            None
        },
        _ => None,
    }
}

/// Parse a Pomodoro's field lines from the start of `ls`: the two timer
/// lines, then an optional description line, an optional tags line and an
/// optional completion line, in that order. Yields the Pomodoro and how
/// many lines it covered.
pub open spec fn parse_pom_fields(ls: Seq<Seq<char>>) -> Option<(PomodoroV, int)> {
    if ls.len() < 2 {
        None
    } else {
        match parse_timer_2(ls[0], ls[1]) {
            None => None,
            Some(t) => {
                let has_d = 2 < ls.len() && is_desc_line(ls[2]);
                let desc = if has_d { Some(desc_of(ls[2])) } else { None };
                let i2: int = if has_d { 3 } else { 2 };
                let has_t = i2 < ls.len() && is_tags_line(ls[i2]);
                let i3: int = if has_t { i2 + 1 } else { i2 };
                let has_f = i3 < ls.len() && is_finished_line(ls[i3]);
                let i4: int = if has_f { i3 + 1 } else { i3 };
                if has_t && tags_items_of(ls[i2]) is None {
                    None
                } else {
                    let tags = if has_t { tags_items_of(ls[i2]) } else { None };
                    if has_f {
                        match parse_kv_i64(ls[i3], "finished_at = "@) {
                            Some(f) => if t.started_at <= f && f - t.started_at <= i64::MAX {
                                Some((
                                    PomodoroV {
                                        timer: t,
                                        description: desc,
                                        tags,
                                        finished_at: Some(f),
                                    },
                                    i4,
                                ))
                            } else {
                                None
                            },
                            None => None,
                        }
                    } else {
                        Some((
                            PomodoroV { timer: t, description: desc, tags, finished_at: None },
                            i4,
                        ))
                    }
                }
            },
        }
    }
}

/// Parse the non-blank lines of a state file into a status.
pub open spec fn parse_status_lines(ls: Seq<Seq<char>>) -> Option<StatusV> {
    if ls.len() == 0 {
        None
    } else if ls[0] == "[Active]"@ {
        match parse_pom_fields(ls.skip(1)) {
            Some((p, n)) => if n == ls.len() - 1 {
                Some(StatusV::Active(p))
            } else {
                None
            },
            None => None,
        }
    } else if ls[0] == "[ShortBreak]"@ {
        if ls.len() == 3 {
            match parse_timer_2(ls[1], ls[2]) {
                Some(t) => Some(StatusV::ShortBreak(t)),
                None => None,
            }
        } else {
            None
        }
    } else if ls[0] == "[LongBreak]"@ {
        if ls.len() == 3 {
            match parse_timer_2(ls[1], ls[2]) {
                Some(t) => Some(StatusV::LongBreak(t)),
                None => None,
            }
        } else {
            None
        }
    } else {
        None
    }
}

/// Parse the character contents of a state file into a status: split into
/// lines, drop blank lines, and read the tagged block.
pub open spec fn parse_status(s: Seq<char>) -> Option<StatusV> {
    parse_status_lines(nonblank(split_lines(s)))
}

/// What loading finds: an absent file is the inactive status; a present
/// file must parse.
pub open spec fn load_status(contents: Option<Seq<char>>) -> Option<StatusV> {
    match contents {
        None => Some(StatusV::Inactive),
        Some(s) => parse_status(s),
    }
}

// ---------------------------------------------------------------------------
// Plain text: what rendering keeps parseable
// ---------------------------------------------------------------------------

/// Description text that survives the line-based format: no newline.
pub open spec fn text_ok(d: Seq<char>) -> bool {
    nl_free(d)
}

/// Tag text that survives the format: no newline and no double quote.
pub open spec fn tag_ok(t: Seq<char>) -> bool {
    nl_free(t) && forall|i: int| 0 <= i < t.len() ==> #[trigger] t[i] != '"'
}

/// All tags in the list are writable.
pub open spec fn tags_ok(ts: Seq<Seq<char>>) -> bool {
    forall|i: int| 0 <= i < ts.len() ==> tag_ok(#[trigger] ts[i])
}

/// A Pomodoro whose description and tags are writable.
pub open spec fn pom_plain(p: PomodoroV) -> bool {
    &&& match p.description {
        Some(d) => text_ok(d),
        None => true,
    }
    &&& match p.tags {
        Some(ts) => tags_ok(ts),
        None => true,
    }
}

/// A status whose text fields are writable.
pub open spec fn status_plain(v: StatusV) -> bool {
    match v {
        StatusV::Active(p) => pom_plain(p),
        _ => true,
    }
}

// ---------------------------------------------------------------------------
// Round trip: parsing what was rendered gives the value back
// ---------------------------------------------------------------------------

/// A line is wholesome when it holds no newline and at least one
/// non-whitespace character, so that line splitting and blank-line dropping
/// leave it alone.
pub open spec fn line_ok(l: Seq<char>) -> bool {
    nl_free(l) && !is_blank(l)
}

pub(crate) proof fn lemma_header_facts()
    ensures
        "[Active]"@.len() == 8,
        "[ShortBreak]"@.len() == 12,
        "[LongBreak]"@.len() == 11,
        "[[pomodoros]]"@.len() == 13,
        line_ok("[Active]"@),
        line_ok("[ShortBreak]"@),
        line_ok("[LongBreak]"@),
        line_ok("[[pomodoros]]"@),
        "[Active]"@[0] == '[',
        "[ShortBreak]"@[0] == '[',
        "[LongBreak]"@[0] == '[',
        "[[pomodoros]]"@[0] == '[',
{
    reveal_strlit("[Active]");
    reveal_strlit("[ShortBreak]");
    reveal_strlit("[LongBreak]");
    reveal_strlit("[[pomodoros]]");
    reveal_with_fuel(nl_free_rec, 15);
    assert(nl_free_rec("[Active]"@));
    assert(nl_free_rec("[ShortBreak]"@));
    assert(nl_free_rec("[LongBreak]"@));
    assert(nl_free_rec("[[pomodoros]]"@));
    lemma_nl_free_rec("[Active]"@);
    lemma_nl_free_rec("[ShortBreak]"@);
    lemma_nl_free_rec("[LongBreak]"@);
    lemma_nl_free_rec("[[pomodoros]]"@);
    assert(!is_ws('['));
}

pub(crate) proof fn lemma_key_facts()
    ensures
        "started_at = "@.len() == 13,
        "duration = "@.len() == 11,
        "description = \""@.len() == 15,
        "tags = ["@.len() == 8,
        "finished_at = "@.len() == 14,
        nl_free("started_at = "@),
        nl_free("duration = "@),
        nl_free("description = \""@),
        nl_free("tags = ["@),
        nl_free("finished_at = "@),
        "started_at = "@[0] == 's',
        "duration = "@[0] == 'd',
        "description = \""@[0] == 'd',
        "description = \""@[1] == 'e',
        "duration = "@[1] == 'u',
        "tags = ["@[0] == 't',
        "finished_at = "@[0] == 'f',
        !is_ws('s') && !is_ws('d') && !is_ws('t') && !is_ws('f'),
{
    reveal_strlit("started_at = ");
    reveal_strlit("duration = ");
    reveal_strlit("description = \"");
    reveal_strlit("tags = [");
    reveal_strlit("finished_at = ");
    reveal_with_fuel(nl_free_rec, 17);
    assert(nl_free_rec("started_at = "@));
    assert(nl_free_rec("duration = "@));
    assert(nl_free_rec("description = \""@));
    assert(nl_free_rec("tags = ["@));
    assert(nl_free_rec("finished_at = "@));
    lemma_nl_free_rec("started_at = "@);
    lemma_nl_free_rec("duration = "@);
    lemma_nl_free_rec("description = \""@);
    lemma_nl_free_rec("tags = ["@);
    lemma_nl_free_rec("finished_at = "@);
}

/// Two sequences whose first characters differ: no prefix relation.
pub(crate) proof fn lemma_first_char_differs(l: Seq<char>, p: Seq<char>)
    requires
        p.len() > 0,
        l.len() > 0,
        l[0] != p[0],
    ensures
        !starts_with(l, p),
{
    if starts_with(l, p) {
        assert(l.take(p.len() as int)[0] == l[0]);
    }
}

/// The rendered digits of an integer hold no newline and no whitespace.
pub(crate) proof fn lemma_ser_i64_shape(n: int)
    ensures
        nl_free(ser_i64(n)),
        ser_i64(n).len() >= 1,
{
    if n < 0 {
        lemma_dec_of_shape((-n) as nat);
        assert forall|j: int| 0 <= j < ser_i64(n).len() implies ser_i64(n)[j] != '\n' by {
            if j >= 1 {
                assert(ser_i64(n)[j] == dec_of((-n) as nat)[j - 1]);
            }
        }
    } else {
        lemma_dec_of_shape(n as nat);
        assert forall|j: int| 0 <= j < ser_i64(n).len() implies ser_i64(n)[j] != '\n' by {
            assert(ser_i64(n)[j] == dec_of(n as nat)[j]);
        }
    }
}

/// Round trip for a `key = <integer>` line.
pub(crate) proof fn lemma_kv_line(key: Seq<char>, n: int)
    requires
        i64::MIN <= n <= i64::MAX,
        nl_free(key),
        key.len() > 0,
        !is_ws(key[0]),
    ensures
        parse_kv_i64(key + ser_i64(n), key) == Some(n),
        line_ok(key + ser_i64(n)),
        (key + ser_i64(n))[0] == key[0],
{
    let l = key + ser_i64(n);
    assert(l.take(key.len() as int) =~= key);
    assert(l.skip(key.len() as int) =~= ser_i64(n));
    lemma_ser_i64_round_trip(n);
    lemma_ser_i64_shape(n);
    assert forall|j: int| 0 <= j < l.len() implies l[j] != '\n' by {
        if j < key.len() {
            assert(l[j] == key[j]);
        } else {
            assert(l[j] == ser_i64(n)[j - key.len()]);
        }
    }
    assert(l[0] == key[0]);
}

/// Round trip and shape for a description line.
pub(crate) proof fn lemma_desc_line(d: Seq<char>)
    requires
        text_ok(d),
    ensures
        is_desc_line(desc_line(d)),
        desc_of(desc_line(d)) == d,
        line_ok(desc_line(d)),
        !is_tags_line(desc_line(d)),
        !is_finished_line(desc_line(d)),
{
    lemma_key_facts();
    reveal_strlit("\"");
    let l = desc_line(d);
    assert(l.len() == 16 + d.len());
    assert(l.take(15) =~= "description = \""@);
    assert(l.last() == "\""@[0]);
    assert(l.last() == '"');
    assert(desc_of(l) =~= d);
    assert forall|j: int| 0 <= j < l.len() implies l[j] != '\n' by {
        if j < 15 {
            assert(l[j] == "description = \""@[j]);
        } else if j < 15 + d.len() {
            assert(l[j] == d[j - 15]);
        } else {
            assert(l[j] == '"');
        }
    }
    assert(l[0] == 'd');
    lemma_first_char_differs(l, "tags = ["@);
    lemma_first_char_differs(l, "finished_at = "@);
}

/// Round trip and shape for the bracket contents of a non-empty tag list.
pub(crate) proof fn lemma_tags_inner(ts: Seq<Seq<char>>)
    requires
        ts.len() >= 1,
        tags_ok(ts),
    ensures
        parse_tags_items(tags_inner(ts)) == Some(ts),
        nl_free(tags_inner(ts)),
        tags_inner(ts).len() >= 2,
        tags_inner(ts)[0] == '"',
    decreases ts.len(),
{
    let s = tags_inner(ts);
    let t0 = ts[0];
    assert(tag_ok(t0));
    lemma_find_char_from(s, 1, '"');
    let q = find_char_from(s, 1, '"');
    assert(s[t0.len() as int + 1] == '"');
    assert forall|j: int| 1 <= j < t0.len() + 1 implies s[j] != '"' by {
        assert(s[j] == t0[j - 1]);
    }
    assert(q == t0.len() + 1) by {
        if q < t0.len() + 1 {
            assert(s[q] == '"');
        }
        if q > t0.len() + 1 {
            assert(s[t0.len() as int + 1] != '"');
        }
    }
    assert(s.subrange(1, q) =~= t0);
    if ts.len() == 1 {
        assert(q + 1 == s.len());
        assert(parse_tags_items(s) == Some(seq![t0]));
        assert(seq![t0] =~= ts);
        assert forall|j: int| 0 <= j < s.len() implies s[j] != '\n' by {
            if 1 <= j < t0.len() + 1 {
                assert(s[j] == t0[j - 1]);
            }
        }
    } else {
        reveal_strlit(", ");
        let rest = ts.skip(1);
        assert(forall|i: int| 0 <= i < rest.len() ==> rest[i] == ts[i + 1]);
        lemma_tags_inner(rest);
        assert(s.len() == t0.len() + 4 + tags_inner(rest).len());
        assert(q + 1 != s.len());
        assert(s[q + 1] == ", "@[0]);
        assert(s[q + 2] == ", "@[1]);
        assert(s.skip(q + 3) =~= tags_inner(rest));
        assert(parse_tags_items(s) == Some(seq![t0] + rest));
        assert(seq![t0] + rest =~= ts);
        assert forall|j: int| 0 <= j < s.len() implies s[j] != '\n' by {
            if 1 <= j < t0.len() + 1 {
                assert(s[j] == t0[j - 1]);
            } else if j >= t0.len() + 4 {
                assert(s[j] == tags_inner(rest)[j - (t0.len() + 4)]);
            } else if j == t0.len() + 2 {
                assert(s[j] == ", "@[0]);
            } else if j == t0.len() + 3 {
                assert(s[j] == ", "@[1]);
            }
        }
    }
}

/// Round trip and shape for a whole tags line.
pub(crate) proof fn lemma_tags_line(ts: Seq<Seq<char>>)
    requires
        tags_ok(ts),
    ensures
        is_tags_line(tags_line(ts)),
        tags_items_of(tags_line(ts)) == Some(ts),
        line_ok(tags_line(ts)),
        !is_desc_line(tags_line(ts)),
        !is_finished_line(tags_line(ts)),
{
    lemma_key_facts();
    let l = tags_line(ts);
    let inner = tags_inner(ts);
    assert(l.len() == 9 + inner.len());
    assert(l.take(8) =~= "tags = ["@);
    assert(l.last() == ']');
    assert(l.subrange(8, l.len() - 1) =~= inner);
    if ts.len() == 0 {
        assert(inner.len() == 0);
        assert(tags_items_of(l) == Some(Seq::<Seq<char>>::empty()));
        assert(Seq::<Seq<char>>::empty() =~= ts);
    } else {
        lemma_tags_inner(ts);
    }
    assert forall|j: int| 0 <= j < l.len() implies l[j] != '\n' by {
        if j < 8 {
            assert(l[j] == "tags = ["@[j]);
        } else if j < 8 + inner.len() {
            assert(l[j] == inner[j - 8]);
            if ts.len() >= 1 {
                assert(nl_free(inner));
            }
        } else {
            assert(l[j] == ']');
        }
    }
    assert(l[0] == 't');
    lemma_first_char_differs(l, "description = \""@);
    lemma_first_char_differs(l, "finished_at = "@);
}

/// Round trip and shape for a completion-instant line.
pub(crate) proof fn lemma_finished_line(f: int)
    requires
        i64::MIN <= f <= i64::MAX,
    ensures
        is_finished_line(finished_line(f)),
        parse_kv_i64(finished_line(f), "finished_at = "@) == Some(f),
        line_ok(finished_line(f)),
        !is_desc_line(finished_line(f)),
        !is_tags_line(finished_line(f)),
{
    lemma_key_facts();
    lemma_kv_line("finished_at = "@, f);
    let l = finished_line(f);
    assert(l.take("finished_at = "@.len() as int) =~= "finished_at = "@);
    lemma_first_char_differs(l, "description = \""@);
    lemma_first_char_differs(l, "tags = ["@);
}

/// Round trip and shape for the two timer lines.
pub(crate) proof fn lemma_timer_lines(t: TimerV)
    requires
        t.wf(),
    ensures
        parse_timer_2(timer_lines(t)[0], timer_lines(t)[1]) == Some(t),
        line_ok(timer_lines(t)[0]),
        line_ok(timer_lines(t)[1]),
{
    lemma_key_facts();
    lemma_kv_line("started_at = "@, t.started_at);
    lemma_kv_line("duration = "@, t.duration);
}

/// Round trip for a Pomodoro's field lines: parsing what was rendered gives
/// the Pomodoro back and covers exactly the rendered lines, and every
/// rendered line is wholesome.
proof fn lemma_pom_lines_ok(p: PomodoroV)
    requires
        p.wf(),
        pom_plain(p),
    ensures
        forall|i: int| 0 <= i < pom_lines(p).len() ==> line_ok(#[trigger] pom_lines(p)[i]),
{
    let ls = pom_lines(p);
    lemma_timer_lines(p.timer);
    match p.description {
        Some(d) => lemma_desc_line(d),
        None => {},
    }
    match p.tags {
        Some(ts) => lemma_tags_line(ts),
        None => {},
    }
    match p.finished_at {
        Some(f) => lemma_finished_line(f),
        None => {},
    }
    assert forall|i: int| 0 <= i < ls.len() implies line_ok(ls[i]) by {
        let dn: int = match p.description { Some(_) => 1, None => 0 };
        let tn: int = match p.tags { Some(_) => 1, None => 0 };
        if i < 2 {
            assert(ls[i] == timer_lines(p.timer)[i]);
        } else if i < 2 + dn {
            assert(ls[i] == desc_line(p.description.unwrap()));
        } else if i < 2 + dn + tn {
            assert(ls[i] == tags_line(p.tags.unwrap()));
        } else {
            assert(ls[i] == finished_line(p.finished_at.unwrap()));
        }
    }
}

proof fn lemma_pom_fields_rt_dn_tn_fn(p: PomodoroV)
    requires
        p.wf(),
        pom_plain(p),
        p.description is None,
        p.tags is None,
        p.finished_at is None,
    ensures
        parse_pom_fields(pom_lines(p)) == Some((p, pom_lines(p).len() as int)),
{
    let ls = pom_lines(p);
    lemma_timer_lines(p.timer);
    let l0 = timer_lines(p.timer)[0];
    let l1 = timer_lines(p.timer)[1];
    assert(ls =~= seq![l0, l1]);
    assert(p =~= (PomodoroV { timer: p.timer, description: None, tags: None, finished_at: None }));
    assert(parse_pom_fields(ls) == Some((p, 2int)));
}

proof fn lemma_pom_fields_rt_ds_tn_fn(p: PomodoroV)
    requires
        p.wf(),
        pom_plain(p),
        p.description is Some,
        p.tags is None,
        p.finished_at is None,
    ensures
        parse_pom_fields(pom_lines(p)) == Some((p, pom_lines(p).len() as int)),
{
    let ls = pom_lines(p);
    lemma_timer_lines(p.timer);
    let l0 = timer_lines(p.timer)[0];
    let l1 = timer_lines(p.timer)[1];
    let d = p.description.unwrap();
    lemma_desc_line(d);
    assert(ls =~= seq![l0, l1, desc_line(d)]);
    assert(p =~= (PomodoroV { timer: p.timer, description: Some(d), tags: None, finished_at: None }));
    assert(parse_pom_fields(ls) == Some((p, 3int)));
}

proof fn lemma_pom_fields_rt_dn_ts_fn(p: PomodoroV)
    requires
        p.wf(),
        pom_plain(p),
        p.description is None,
        p.tags is Some,
        p.finished_at is None,
    ensures
        parse_pom_fields(pom_lines(p)) == Some((p, pom_lines(p).len() as int)),
{
    let ls = pom_lines(p);
    lemma_timer_lines(p.timer);
    let l0 = timer_lines(p.timer)[0];
    let l1 = timer_lines(p.timer)[1];
    let ts = p.tags.unwrap();
    lemma_tags_line(ts);
    assert(ls =~= seq![l0, l1, tags_line(ts)]);
    assert(p =~= (PomodoroV { timer: p.timer, description: None, tags: Some(ts), finished_at: None }));
    assert(parse_pom_fields(ls) == Some((p, 3int)));
}

proof fn lemma_pom_fields_rt_dn_tn_fs(p: PomodoroV)
    requires
        p.wf(),
        pom_plain(p),
        p.description is None,
        p.tags is None,
        p.finished_at is Some,
    ensures
        parse_pom_fields(pom_lines(p)) == Some((p, pom_lines(p).len() as int)),
{
    let ls = pom_lines(p);
    lemma_timer_lines(p.timer);
    let l0 = timer_lines(p.timer)[0];
    let l1 = timer_lines(p.timer)[1];
    let f = p.finished_at.unwrap();
    lemma_finished_line(f);
    assert(ls =~= seq![l0, l1, finished_line(f)]);
    assert(p =~= (PomodoroV { timer: p.timer, description: None, tags: None, finished_at: Some(f) }));
    assert(parse_pom_fields(ls) == Some((p, 3int)));
}

#[verifier::rlimit(100)]
#[verifier::spinoff_prover]
proof fn lemma_pom_fields_rt_ds_ts_fn(p: PomodoroV)
    requires
        p.wf(),
        pom_plain(p),
        p.description is Some,
        p.tags is Some,
        p.finished_at is None,
    ensures
        parse_pom_fields(pom_lines(p)) == Some((p, pom_lines(p).len() as int)),
{
    let ls = pom_lines(p);
    lemma_timer_lines(p.timer);
    let l0 = timer_lines(p.timer)[0];
    let l1 = timer_lines(p.timer)[1];
    let d = p.description.unwrap();
    let ts = p.tags.unwrap();
    lemma_desc_line(d);
    lemma_tags_line(ts);
    assert(ls =~= seq![l0, l1, desc_line(d), tags_line(ts)]);
    assert(parse_timer_2(ls[0], ls[1]) == Some(p.timer));
    assert(is_desc_line(ls[2]) && desc_of(ls[2]) == d);
    assert(is_tags_line(ls[3]) && tags_items_of(ls[3]) == Some(ts));
    assert(p =~= (PomodoroV { timer: p.timer, description: Some(d), tags: Some(ts), finished_at: None }));
    assert(parse_pom_fields(ls) == Some((p, 4int)));
}

proof fn lemma_pom_fields_rt_ds_tn_fs(p: PomodoroV)
    requires
        p.wf(),
        pom_plain(p),
        p.description is Some,
        p.tags is None,
        p.finished_at is Some,
    ensures
        parse_pom_fields(pom_lines(p)) == Some((p, pom_lines(p).len() as int)),
{
    let ls = pom_lines(p);
    lemma_timer_lines(p.timer);
    let l0 = timer_lines(p.timer)[0];
    let l1 = timer_lines(p.timer)[1];
    let d = p.description.unwrap();
    let f = p.finished_at.unwrap();
    lemma_desc_line(d);
    lemma_finished_line(f);
    assert(ls =~= seq![l0, l1, desc_line(d), finished_line(f)]);
    assert(p =~= (PomodoroV { timer: p.timer, description: Some(d), tags: None, finished_at: Some(f) }));
    assert(parse_pom_fields(ls) == Some((p, 4int)));
}

proof fn lemma_pom_fields_rt_dn_ts_fs(p: PomodoroV)
    requires
        p.wf(),
        pom_plain(p),
        p.description is None,
        p.tags is Some,
        p.finished_at is Some,
    ensures
        parse_pom_fields(pom_lines(p)) == Some((p, pom_lines(p).len() as int)),
{
    let ls = pom_lines(p);
    lemma_timer_lines(p.timer);
    let l0 = timer_lines(p.timer)[0];
    let l1 = timer_lines(p.timer)[1];
    let ts = p.tags.unwrap();
    let f = p.finished_at.unwrap();
    lemma_tags_line(ts);
    lemma_finished_line(f);
    assert(ls =~= seq![l0, l1, tags_line(ts), finished_line(f)]);
    assert(p =~= (PomodoroV { timer: p.timer, description: None, tags: Some(ts), finished_at: Some(f) }));
    assert(parse_pom_fields(ls) == Some((p, 4int)));
}

#[verifier::rlimit(100)]
#[verifier::spinoff_prover]
proof fn lemma_pom_fields_rt_ds_ts_fs(p: PomodoroV)
    requires
        p.wf(),
        pom_plain(p),
        p.description is Some,
        p.tags is Some,
        p.finished_at is Some,
    ensures
        parse_pom_fields(pom_lines(p)) == Some((p, pom_lines(p).len() as int)),
{
    let ls = pom_lines(p);
    lemma_timer_lines(p.timer);
    let l0 = timer_lines(p.timer)[0];
    let l1 = timer_lines(p.timer)[1];
    let d = p.description.unwrap();
    let ts = p.tags.unwrap();
    let f = p.finished_at.unwrap();
    lemma_desc_line(d);
    lemma_tags_line(ts);
    lemma_finished_line(f);
    assert(ls =~= seq![l0, l1, desc_line(d), tags_line(ts), finished_line(f)]);
    assert(parse_timer_2(ls[0], ls[1]) == Some(p.timer));
    assert(is_desc_line(ls[2]) && desc_of(ls[2]) == d);
    assert(is_tags_line(ls[3]) && tags_items_of(ls[3]) == Some(ts));
    assert(is_finished_line(ls[4]) && parse_kv_i64(ls[4], "finished_at = "@) == Some(f));
    assert(p =~= (PomodoroV { timer: p.timer, description: Some(d), tags: Some(ts), finished_at: Some(f) }));
    assert(parse_pom_fields(ls) == Some((p, 5int)));
}

/// Round trip for a Pomodoro's field lines: parsing what was rendered gives
/// the Pomodoro back and covers exactly the rendered lines.
proof fn lemma_pom_fields_rt(p: PomodoroV)
    requires
        p.wf(),
        pom_plain(p),
    ensures
        parse_pom_fields(pom_lines(p)) == Some((p, pom_lines(p).len() as int)),
{
    match (p.description, p.tags, p.finished_at) {
        (Option::None, Option::None, Option::None) => lemma_pom_fields_rt_dn_tn_fn(p),
        (Option::Some(_), Option::None, Option::None) => lemma_pom_fields_rt_ds_tn_fn(p),
        (Option::None, Option::Some(_), Option::None) => lemma_pom_fields_rt_dn_ts_fn(p),
        (Option::None, Option::None, Option::Some(_)) => lemma_pom_fields_rt_dn_tn_fs(p),
        (Option::Some(_), Option::Some(_), Option::None) => lemma_pom_fields_rt_ds_ts_fn(p),
        (Option::Some(_), Option::None, Option::Some(_)) => lemma_pom_fields_rt_ds_tn_fs(p),
        (Option::None, Option::Some(_), Option::Some(_)) => lemma_pom_fields_rt_dn_ts_fs(p),
        (Option::Some(_), Option::Some(_), Option::Some(_)) => lemma_pom_fields_rt_ds_ts_fs(p),
    }
}

/// Round trip at the line level for a whole non-inactive status.
proof fn lemma_status_lines_rt(v: StatusV)
    requires
        v.wf(),
        status_plain(v),
        !(v is Inactive),
    ensures
        parse_status_lines(status_lines(v)) == Some(v),
        forall|i: int| 0 <= i < status_lines(v).len() ==> line_ok(#[trigger] status_lines(v)[i]),
{
    lemma_header_facts();
    let ls = status_lines(v);
    match v {
        StatusV::Inactive => {},
        StatusV::Active(p) => {
            lemma_pom_fields_rt(p);
            lemma_pom_lines_ok(p);
            assert(ls[0] == "[Active]"@);
            assert(ls.skip(1) =~= pom_lines(p));
            assert(parse_pom_fields(ls.skip(1)) == Some((p, ls.len() - 1)));
            assert forall|i: int| 0 <= i < ls.len() implies line_ok(ls[i]) by {
                if i >= 1 {
                    assert(ls[i] == pom_lines(p)[i - 1]);
                }
            }
        },
        StatusV::ShortBreak(t) => {
            lemma_timer_lines(t);
            assert(ls =~= seq!["[ShortBreak]"@, timer_lines(t)[0], timer_lines(t)[1]]);
            assert(ls[0] != "[Active]"@) by {
                assert(ls[0].len() == 12);
            }
            assert(parse_status_lines(ls) == Some(v));
        },
        StatusV::LongBreak(t) => {
            lemma_timer_lines(t);
            assert(ls =~= seq!["[LongBreak]"@, timer_lines(t)[0], timer_lines(t)[1]]);
            assert(ls[0] != "[Active]"@) by {
                assert(ls[0].len() == 11);
            }
            assert(ls[0] != "[ShortBreak]"@) by {
                assert(ls[0].len() == 11);
            }
            assert(parse_status_lines(ls) == Some(v));
        },
    }
}

/// Saving and loading gives the status back: an inactive status leaves no
/// file and loads as inactive; any other well-formed status with writable
/// text renders to a file that parses to the same value.
pub proof fn lemma_status_round_trip(v: StatusV)
    requires
        v.wf(),
        status_plain(v),
    ensures
        load_status(ser_status_file(v)) == Some(v),
{
    match v {
        StatusV::Inactive => {},
        _ => {
            lemma_status_lines_rt(v);
            let ls = status_lines(v);
            lemma_split_flatten(ls);
            lemma_nonblank_id(ls);
            assert(parse_status(ser_status(v)) == Some(v));
        },
    }
}

// ---------------------------------------------------------------------------
// Rendering (exec)
// ---------------------------------------------------------------------------

/// Append a line break.
pub(crate) fn push_nl(out: &mut String)
    ensures
        final(out)@ == old(out)@ + seq!['\n'],
{
    proof {
        reveal_strlit("\n");
        assert("\n"@ =~= seq!['\n']);
    }
    out.append("\n");
}

/// Append a `key = <integer>` line, with its trailing newline.
pub(crate) fn push_kv(out: &mut String, key: &str, n: i64)
    ensures
        final(out)@ == old(out)@ + key@ + ser_i64(n as int) + seq!['\n'],
{
    out.append(key);
    push_i64(out, n);
    push_nl(out);
    proof {
        assert(out@ =~= old(out)@ + key@ + ser_i64(n as int) + seq!['\n']);
    }
}

/// Append the two timer lines.
pub(crate) fn push_timer_body(out: &mut String, t: &Timer)
    requires
        t.wf(),
    ensures
        final(out)@ == old(out)@ + flatten_lines(timer_lines(t@)),
{
    push_kv(out, "started_at = ", t.starts_at());
    push_kv(out, "duration = ", t.duration());
    proof {
        let ls = timer_lines(t@);
        assert(ls =~= seq![ls[0], ls[1]]);
        lemma_flatten_pair(ls[0], ls[1]);
        assert(out@ =~= old(out)@ + flatten_lines(ls));
    }
}

/// Append a description line, with its trailing newline.
pub(crate) fn push_desc_line(out: &mut String, d: &str)
    ensures
        final(out)@ == old(out)@ + desc_line(d@) + seq!['\n'],
{
    proof {
        reveal_strlit("\"");
        assert("\""@ =~= seq!['"']);
    }
    out.append("description = \"");
    out.append(d);
    out.append("\"");
    push_nl(out);
    proof {
        assert(out@ =~= old(out)@ + desc_line(d@) + seq!['\n']);
    }
}

/// Append a tags line, with its trailing newline.
pub(crate) fn push_tags_line(out: &mut String, ts: &Vec<String>)
    ensures
        final(out)@ == old(out)@ + tags_line(ts.deep_view()) + seq!['\n'],
{
    proof {
        reveal_strlit("]");
        assert("]"@ =~= seq![']']);
    }
    let ghost tsv: Seq<Seq<char>> = ts.deep_view();
    out.append("tags = [");
    let ghost base: Seq<char> = out@;
    let mut i: usize = 0;
    proof {
        assert(tsv.skip(0) =~= tsv);
    }
    while i < ts.len()
        invariant
            tsv == ts.deep_view(),
            i <= ts@.len(),
            base + tags_inner(tsv) == out@ + tags_inner(tsv.skip(i as int)),
        decreases ts@.len() - i,
    {
        proof {
            reveal_strlit("\"");
            assert("\""@ =~= seq!['"']);
            reveal_strlit(", ");
            assert(tsv.skip(i as int)[0] == tsv[i as int]);
            assert(tsv.skip(i as int).skip(1) =~= tsv.skip(i + 1));
            assert(tsv.skip(i as int).len() == tsv.len() - i);
        }
        out.append("\"");
        out.append(ts[i].as_str());
        out.append("\"");
        proof {
            assert(ts@[i as int]@ == tsv[i as int]);
        }
        if i + 1 < ts.len() {
            out.append(", ");
            proof {
                assert(base + tags_inner(tsv) =~= out@ + tags_inner(tsv.skip(i + 1)));
            }
        } else {
            proof {
                assert(tsv.skip(i as int).len() == 1);
                assert(base + tags_inner(tsv) =~= out@ + tags_inner(tsv.skip(i + 1)));
            }
        }
        i += 1;
    }
    proof {
        assert(tsv.skip(ts@.len() as int) =~= Seq::<Seq<char>>::empty());
        assert(out@ =~= base + tags_inner(tsv));
    }
    out.append("]");
    push_nl(out);
    proof {
        assert(out@ =~= old(out)@ + tags_line(tsv) + seq!['\n']);
    }
}

/// Append the field lines of a Pomodoro.
#[verifier::rlimit(100)]
fn push_pom_body(out: &mut String, p: &Pomodoro)
    requires
        p.wf(),
    ensures
        final(out)@ == old(out)@ + flatten_lines(pom_lines(p@)),
{
    proof {
        reveal_strlit("\"");
        assert("\""@ =~= seq!['"']);
        reveal_strlit("]");
        assert("]"@ =~= seq![']']);
        reveal_strlit(", ");
    }
    push_timer_body(out, p.timer());
    match p.description() {
        Some(d) => push_desc_line(out, d),
        None => {},
    }
    match p.tags() {
        Some(ts) => push_tags_line(out, ts),
        None => {},
    }
    match p.finished_at() {
        Some(f) => {
            push_kv(out, "finished_at = ", f);
        },
        None => {},
    }
    proof {
        lemma_key_facts();
        let pls = pom_lines(p@);
        let dseg: Seq<Seq<char>> = match p@.description {
            Some(d) => seq![desc_line(d)],
            None => Seq::<Seq<char>>::empty(),
        };
        let tseg: Seq<Seq<char>> = match p@.tags {
            Some(ts2) => seq![tags_line(ts2)],
            None => Seq::<Seq<char>>::empty(),
        };
        let fseg: Seq<Seq<char>> = match p@.finished_at {
            Some(f) => seq![finished_line(f)],
            None => Seq::<Seq<char>>::empty(),
        };
        lemma_flatten_append(timer_lines(p@.timer) + dseg + tseg, fseg);
        lemma_flatten_append(timer_lines(p@.timer) + dseg, tseg);
        lemma_flatten_append(timer_lines(p@.timer), dseg);
        match p@.description {
            Some(d) => lemma_flatten_singleton(desc_line(d)),
            None => {},
        }
        match p@.tags {
            Some(ts2) => lemma_flatten_singleton(tags_line(ts2)),
            None => {},
        }
        match p@.finished_at {
            Some(f) => lemma_flatten_singleton(finished_line(f)),
            None => {},
        }
        assert(pls =~= timer_lines(p@.timer) + dseg + tseg + fseg);
        assert(out@ =~= old(out)@ + flatten_lines(pls));
    }
}

impl Status {
    /// Render this status as the text of a state file.
    pub fn to_toml(&self) -> (r: String)
        requires
            self.wf(),
            !(self@ is Inactive),
        ensures
            r@ == ser_status(self@),
    {
        let mut out = String::new();
        proof {
            reveal_strlit("[Active]");
            reveal_strlit("[ShortBreak]");
            reveal_strlit("[LongBreak]");
        }
        match self {
            Status::Inactive => {},
            Status::Active(p) => {
                out.append("[Active]");
                push_nl(&mut out);
                push_pom_body(&mut out, p);
                proof {
                    lemma_flatten_append(seq!["[Active]"@], pom_lines(p@));
                    assert(status_lines(self@) =~= seq!["[Active]"@] + pom_lines(p@));
                    lemma_flatten_singleton("[Active]"@);
                    assert(out@ =~= ser_status(self@));
                }
            },
            Status::ShortBreak(t) => {
                out.append("[ShortBreak]");
                push_nl(&mut out);
                push_timer_body(&mut out, t);
                proof {
                    lemma_flatten_append(seq!["[ShortBreak]"@], timer_lines(t@));
                    assert(status_lines(self@) =~= seq!["[ShortBreak]"@] + timer_lines(t@));
                    lemma_flatten_singleton("[ShortBreak]"@);
                    assert(out@ =~= ser_status(self@));
                }
            },
            Status::LongBreak(t) => {
                out.append("[LongBreak]");
                push_nl(&mut out);
                push_timer_body(&mut out, t);
                proof {
                    lemma_flatten_append(seq!["[LongBreak]"@], timer_lines(t@));
                    assert(status_lines(self@) =~= seq!["[LongBreak]"@] + timer_lines(t@));
                    lemma_flatten_singleton("[LongBreak]"@);
                    assert(out@ =~= ser_status(self@));
                }
            },
        }
        out
    }

    /// What to leave on disk for this status: nothing (delete the state
    /// file) when inactive, else the state file's new contents.
    pub fn save(&self) -> (r: Option<String>)
        requires
            self.wf(),
        ensures
            match r {
                Some(s) => ser_status_file(self@) == Some(s@),
                None => self@ is Inactive,
            },
            (self@ is Inactive) <==> r is None,
    {
        match self {
            Status::Inactive => None,
            _ => Some(self.to_toml()),
        }
    }
}

// ---------------------------------------------------------------------------
// Parsing (exec)
// ---------------------------------------------------------------------------

/// Why an on-disk file was rejected.
#[derive(Clone, Copy, Debug, PartialEq, Eq, Structural)]
pub enum ParseError {
    /// The state file did not have the expected shape.
    InvalidStateFile,
    /// The history file did not have the expected shape.
    InvalidHistoryFile,
    /// A bare Pomodoro record did not have the expected shape.
    InvalidPomodoro,
}

impl ParseError {
    /// The user-facing description of this failure.
    pub open spec fn spec_message(self) -> Seq<char> {
        match self {
            ParseError::InvalidStateFile => "Failed to parse state file"@,
            ParseError::InvalidHistoryFile => "Failed to parse history file"@,
            ParseError::InvalidPomodoro => "Failed to parse Pomodoro"@,
        }
    }

    /// The user-facing description of this failure.
    pub fn message(&self) -> (r: String)
        ensures
            r@ == self.spec_message(),
    {
        proof {
            reveal_strlit("Failed to parse state file");
            reveal_strlit("Failed to parse history file");
            reveal_strlit("Failed to parse Pomodoro");
        }
        match self {
            ParseError::InvalidStateFile => String::from_str("Failed to parse state file"),
            ParseError::InvalidHistoryFile => String::from_str("Failed to parse history file"),
            ParseError::InvalidPomodoro => String::from_str("Failed to parse Pomodoro"),
        }
    }
}

/// Position of the first `c` in `l` at or after `from`, or the length.
pub(crate) fn find_char_pos(l: &str, from: usize, c: char) -> (r: usize)
    requires
        from <= l@.len(),
    ensures
        from <= r <= l@.len(),
        r == find_char_from(l@, from as int, c),
        forall|j: int| from <= j < r ==> l@[j] != c,
        r < l@.len() ==> l@[r as int] == c,
{
    let n = l.unicode_len();
    let mut i: usize = from;
    while i < n
        invariant
            n == l@.len(),
            from <= i <= n,
            forall|j: int| from <= j < i ==> l@[j] != c,
        decreases n - i,
    {
        if l.get_char(i) == c {
            proof {
                lemma_find_char_from(l@, from as int, c);
                let k = find_char_from(l@, from as int, c);
                if k < i {
                    assert(l@[k] != c);
                }
            }
            return i;
        }
        i += 1;
    }
    proof {
        lemma_find_char_from(l@, from as int, c);
        let k = find_char_from(l@, from as int, c);
        if k < n {
            assert(l@[k] != c);
        }
    }
    n
}

/// Parse a `key = <integer>` line, as [`parse_kv_i64`] describes.
pub(crate) fn parse_kv_exec(l: &str, key: &str) -> (r: Option<i64>)
    ensures
        match r {
            Some(v) => parse_kv_i64(l@, key@) == Some(v as int),
            None => parse_kv_i64(l@, key@) is None,
        },
{
    if !starts_with_exec(l, key) {
        return None;
    }
    let rest = l.substring_char(key.unicode_len(), l.unicode_len());
    proof {
        assert(rest@ =~= l@.skip(key@.len() as int));
    }
    parse_i64(rest)
}

/// Whether a line is a description line, as [`is_desc_line`] describes.
pub(crate) fn is_desc_line_exec(l: &str) -> (r: bool)
    ensures
        r == is_desc_line(l@),
{
    let n = l.unicode_len();
    starts_with_exec(l, "description = \"") && n >= 16 && l.get_char(n - 1) == '"'
}

/// Whether a line is a tags line, as [`is_tags_line`] describes.
pub(crate) fn is_tags_line_exec(l: &str) -> (r: bool)
    ensures
        r == is_tags_line(l@),
{
    let n = l.unicode_len();
    starts_with_exec(l, "tags = [") && n >= 9 && l.get_char(n - 1) == ']'
}

/// Whether a line is a completion-instant line, as [`is_finished_line`]
/// describes.
pub(crate) fn is_finished_line_exec(l: &str) -> (r: bool)
    ensures
        r == is_finished_line(l@),
{
    starts_with_exec(l, "finished_at = ")
}

/// Parse quoted tags separated by comma-space from `inner`, starting at
/// `pos`, as [`parse_tags_items`] describes for the suffix.
pub(crate) fn parse_tags_exec(inner: &str, pos: usize) -> (r: Option<Vec<String>>)
    requires
        pos <= inner@.len(),
    ensures
        match r {
            Some(v) => parse_tags_items(inner@.skip(pos as int)) == Some(v.deep_view()),
            None => parse_tags_items(inner@.skip(pos as int)) is None,
        },
    decreases inner@.len() - pos,
{
    let ghost s: Seq<char> = inner@.skip(pos as int);
    let n = inner.unicode_len();
    if n - pos < 2 || inner.get_char(pos) != '"' {
        proof {
            if s.len() >= 2 {
                assert(s[0] == inner@[pos as int]);
            }
        }
        return None;
    }
    proof {
        assert(s[0] == inner@[pos as int]);
    }
    let q = find_char_pos(inner, pos + 1, '"');
    proof {
        assert forall|j: int| 1 <= j < q - pos implies s[j] != '"' by {
            assert(s[j] == inner@[j + pos]);
        }
        if q < n {
            assert(s[q - pos] == inner@[q as int]);
        }
        if (q - pos) < s.len() {
            lemma_find_char_from(s, 1, '"');
            let k = find_char_from(s, 1, '"');
            if k < q - pos {
                assert(s[k] == inner@[k + pos]);
            }
            if k > q - pos && q < n {
                assert(s[q - pos] == '"');
            }
            assert(k == q - pos);
        } else {
            lemma_find_char_from(s, 1, '"');
            let k = find_char_from(s, 1, '"');
            if k < s.len() {
                assert(s[k] == inner@[k + pos]);
                assert(inner@[k + pos] != '"');
            }
            assert(k == s.len());
        }
    }
    if q >= n {
        return None;
    }
    let tag = inner.substring_char(pos + 1, q).to_owned();
    proof {
        assert(tag@ =~= s.subrange(1, q - pos));
    }
    if q + 1 == n {
        let mut v: Vec<String> = Vec::new();
        v.push(tag);
        proof {
            assert(v.deep_view() =~= seq![s.subrange(1, q - pos)]);
        }
        return Some(v);
    }
    if n - q >= 3 && inner.get_char(q + 1) == ',' && inner.get_char(q + 2) == ' ' {
        proof {
            assert(s[q + 1 - pos] == inner@[q + 1]);
            assert(s[q + 2 - pos] == inner@[q + 2]);
            assert(s.skip(q + 3 - pos) =~= inner@.skip(q as int + 3));
        }
        match parse_tags_exec(inner, q + 3) {
            Some(mut rest) => {
                let mut v: Vec<String> = Vec::new();
                v.push(tag);
                let ghost restv = rest.deep_view();
                v.append(&mut rest);
                proof {
                    assert(v.deep_view() =~= seq![s.subrange(1, q - pos)] + restv);
                }
                Some(v)
            },
            None => None,
        }
    } else {
        proof {
            if q + 1 - pos < s.len() {
                assert(s[q + 1 - pos] == inner@[q + 1]);
            }
            if q + 2 - pos < s.len() {
                assert(s[q + 2 - pos] == inner@[q + 2]);
            }
        }
        None
    }
}

/// Extract the tag list of a tags line, as [`tags_items_of`] describes.
pub(crate) fn tags_of_exec(l: &str) -> (r: Option<Vec<String>>)
    requires
        is_tags_line(l@),
    ensures
        match r {
            Some(v) => tags_items_of(l@) == Some(v.deep_view()),
            None => tags_items_of(l@) is None,
        },
{
    let n = l.unicode_len();
    let inner = l.substring_char(8, n - 1);
    proof {
        assert(inner@ =~= l@.subrange(8, l@.len() - 1));
    }
    if inner.unicode_len() == 0 {
        let v: Vec<String> = Vec::new();
        proof {
            assert(v.deep_view() =~= Seq::<Seq<char>>::empty());
        }
        Some(v)
    } else {
        proof {
            assert(inner@.skip(0) =~= inner@);
        }
        parse_tags_exec(inner, 0)
    }
}

/// Parse the two timer lines, as [`parse_timer_2`] describes.
pub(crate) fn parse_timer_2_exec(l0: &str, l1: &str) -> (r: Option<Timer>)
    ensures
        match r {
            Some(t) => parse_timer_2(l0@, l1@) == Some(t@) && t.wf(),
            None => parse_timer_2(l0@, l1@) is None,
        },
{
    let a = match parse_kv_exec(l0, "started_at = ") {
        Some(a) => a,
        None => {
            return None;
        },
    };
    let d = match parse_kv_exec(l1, "duration = ") {
        Some(d) => d,
        None => {
            return None;
        },
    };
    if d < 0 {
        return None;
    }
    if a > 0 && d > i64::MAX - a {
        return None;
    }
    Some(Timer::new(a, d))
}

/// Parse a Pomodoro's field lines from `lines[start..]`, as
/// [`parse_pom_fields`] describes for the corresponding line suffix. Yields
/// the Pomodoro and the number of lines covered.
fn parse_pom_fields_exec(lines: &Vec<String>, start: usize) -> (r: Option<(Pomodoro, usize)>)
    requires
        start <= lines@.len(),
    ensures
        match r {
            Some(pn) => {
                &&& parse_pom_fields(line_views(lines@).skip(start as int)) == Some((
                    pn.0@,
                    pn.1 as int,
                ))
                &&& pn.0.wf()
                &&& 2 <= pn.1
                &&& start + pn.1 <= lines@.len()
            },
            None => parse_pom_fields(line_views(lines@).skip(start as int)) is None,
        },
{
    let ghost fls: Seq<Seq<char>> = line_views(lines@).skip(start as int);
    let n = lines.len();
    proof {
        assert(fls.len() == n - start);
    }
    if n - start < 2 {
        return None;
    }
    proof {
        assert(fls[0] == lines@[start as int]@);
        assert(fls[1] == lines@[start as int + 1]@);
    }
    let timer = match parse_timer_2_exec(lines[start].as_str(), lines[start + 1].as_str()) {
        Some(t) => t,
        None => {
            return None;
        },
    };
    let mut i: usize = start + 2;
    let mut description: Option<String> = None;
    let ghost has_d = 2 < fls.len() && is_desc_line(fls[2]);
    if i < n && is_desc_line_exec(lines[i].as_str()) {
        proof {
            assert(fls[2] == lines@[start as int + 2]@);
        }
        let l = lines[i].as_str();
        let ln = l.unicode_len();
        let d = l.substring_char(15, ln - 1).to_owned();
        proof {
            assert(d@ =~= desc_of(fls[2]));
        }
        description = Some(d);
        i += 1;
    } else {
        proof {
            if 2 < fls.len() {
                assert(fls[2] == lines@[start as int + 2]@);
            }
        }
    }
    let ghost i2: int = i - start;
    let mut tags: Option<Vec<String>> = None;
    let ghost has_t = i2 < fls.len() && is_tags_line(fls[i2]);
    if i < n && is_tags_line_exec(lines[i].as_str()) {
        proof {
            assert(fls[i2] == lines@[i as int]@);
        }
        match tags_of_exec(lines[i].as_str()) {
            Some(v) => {
                tags = Some(v);
            },
            None => {
                return None;
            },
        }
        i += 1;
    } else {
        proof {
            if i2 < fls.len() {
                assert(fls[i2] == lines@[i as int]@);
            }
        }
    }
    let ghost i3: int = i - start;
    let mut finished_at: Option<i64> = None;
    let ghost has_f = i3 < fls.len() && is_finished_line(fls[i3]);
    if i < n && is_finished_line_exec(lines[i].as_str()) {
        proof {
            assert(fls[i3] == lines@[i as int]@);
        }
        let f = match parse_kv_exec(lines[i].as_str(), "finished_at = ") {
            Some(f) => f,
            None => {
                return None;
            },
        };
        if f < timer.starts_at() {
            return None;
        }
        if (f as i128) - (timer.starts_at() as i128) > i64::MAX as i128 {
            return None;
        }
        finished_at = Some(f);
        i += 1;
    } else {
        proof {
            if i3 < fls.len() {
                assert(fls[i3] == lines@[i as int]@);
            }
        }
    }
    let consumed = i - start;
    let pom = Pomodoro::assemble(timer, description, tags, finished_at);
    proof {
        assert(parse_pom_fields(fls) == Some((pom@, consumed as int)));
    }
    Some((pom, consumed))
}

impl Status {
    /// Load a status from the contents of the state file: an absent file
    /// (`None`) is the inactive status; a present file must parse as
    /// [`parse_status`] describes, else loading fails.
    pub fn load(contents: Option<&str>) -> (r: Result<Status, ParseError>)
        ensures
            match contents {
                None => r matches Ok(st) && st@ == StatusV::Inactive && st.wf(),
                Some(s) => match parse_status(s@) {
                    Some(v) => r matches Ok(st) && st@ == v && st.wf(),
                    None => r matches Err(e) && e == ParseError::InvalidStateFile,
                },
            },
    {
        let s = match contents {
            None => {
                return Ok(Status::Inactive);
            },
            Some(s) => s,
        };
        let lines = content_lines(s);
        let ghost ls: Seq<Seq<char>> = nonblank(split_lines(s@));
        proof {
            assert(ls == line_views(lines@));
        }
        if lines.len() == 0 {
            return Err(ParseError::InvalidStateFile);
        }
        proof {
            assert(ls[0] == lines@[0]@);
        }
        if str_eq(lines[0].as_str(), "[Active]") {
            match parse_pom_fields_exec(&lines, 1) {
                Some((pom, consumed)) => {
                    if 1 + consumed == lines.len() {
                        proof {
                            assert(line_views(lines@).skip(1) =~= ls.skip(1));
                        }
                        Ok(Status::Active(pom))
                    } else {
                        Err(ParseError::InvalidStateFile)
                    }
                },
                None => {
                    proof {
                        assert(line_views(lines@).skip(1) =~= ls.skip(1));
                    }
                    Err(ParseError::InvalidStateFile)
                },
            }
        } else if str_eq(lines[0].as_str(), "[ShortBreak]") {
            if lines.len() != 3 {
                return Err(ParseError::InvalidStateFile);
            }
            proof {
                assert(ls[1] == lines@[1]@);
                assert(ls[2] == lines@[2]@);
            }
            match parse_timer_2_exec(lines[1].as_str(), lines[2].as_str()) {
                Some(t) => Ok(Status::ShortBreak(t)),
                None => Err(ParseError::InvalidStateFile),
            }
        } else if str_eq(lines[0].as_str(), "[LongBreak]") {
            if lines.len() != 3 {
                return Err(ParseError::InvalidStateFile);
            }
            proof {
                assert(ls[1] == lines@[1]@);
                assert(ls[2] == lines@[2]@);
            }
            match parse_timer_2_exec(lines[1].as_str(), lines[2].as_str()) {
                Some(t) => Ok(Status::LongBreak(t)),
                None => Err(ParseError::InvalidStateFile),
            }
        } else {
            Err(ParseError::InvalidStateFile)
        }
    }
}

/// What parsing a bare Pomodoro record (field lines without a status
/// header) yields.
pub open spec fn parse_pomodoro(s: Seq<char>) -> Option<PomodoroV> {
    let ls = nonblank(split_lines(s));
    match parse_pom_fields(ls) {
        Some((p, m)) => if m == ls.len() {
            Some(p)
        } else {
            None
        },
        None => None,
    }
}

impl Pomodoro {
    /// Parse a bare Pomodoro record: its field lines without a status
    /// header, as [`parse_pomodoro`] describes.
    pub fn from_toml(s: &str) -> (r: Result<Pomodoro, ParseError>)
        ensures
            match r {
                Ok(p) => parse_pomodoro(s@) == Some(p@) && p.wf(),
                Err(e) => parse_pomodoro(s@) is None && e == ParseError::InvalidPomodoro,
            },
    {
        let lines = content_lines(s);
        let ghost ls: Seq<Seq<char>> = nonblank(split_lines(s@));
        proof {
            assert(ls == line_views(lines@));
            assert(line_views(lines@).skip(0) =~= ls);
        }
        match parse_pom_fields_exec(&lines, 0) {
            Some((pom, consumed)) => {
                if consumed == lines.len() {
                    Ok(pom)
                } else {
                    Err(ParseError::InvalidPomodoro)
                }
            },
            None => Err(ParseError::InvalidPomodoro),
        }
    }
}

} // verus!
