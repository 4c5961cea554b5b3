//! Status formatting: a tiny templating function over a fixed token set.
//!
//! The recognized tokens are `%d` (description), `%t` (tags joined by
//! comma), `%r` (remaining time in kitchen format), `%R` (remaining whole
//! seconds), `%s` / `%S` (start instant as RFC 3339 / Unix seconds) and
//! `%e` / `%E` (end instant as RFC 3339 / Unix seconds). Unrecognized
//! tokens pass through unchanged. A bare break timer has no description or
//! tags, so `%d` and `%t` pass through for it too.
//!
//! The RFC 3339 renderings depend on the machine's time zone, so they are
//! taken as arguments by the exactly-specified functions; the `_local`
//! variants obtain them from the system clock library.

use vstd::prelude::*;

use crate::duration::{kitchen_of, to_kitchen};
use crate::pomodoro::{Pomodoro, PomodoroV};
use crate::text::{i64_string, ser_i64};
use crate::time::{Timer, TimerV};

verus! {

/// The substitution values for one formatting pass. A `None` description or
/// tag text means the corresponding token is not substituted at all.
#[verifier::ext_equal]
pub struct SubstV {
    pub description: Option<Seq<char>>,
    pub tags: Option<Seq<char>>,
    pub remaining_kitchen: Seq<char>,
    pub remaining_secs: Seq<char>,
    pub start_iso: Seq<char>,
    pub start_ts: Seq<char>,
    pub end_iso: Seq<char>,
    pub end_ts: Seq<char>,
}

/// One pass over the template, left to right: each recognized token is
/// replaced by its value, everything else is copied through.
pub open spec fn subst(t: Seq<char>, m: SubstV) -> Seq<char>
    decreases t.len(),
{
    if t.len() == 0 {
        Seq::empty()
    } else if t[0] == '%' && t.len() >= 2 {
        let c = t[1];
        if c == 'd' && m.description is Some {
            m.description.unwrap() + subst(t.skip(2), m)
        } else if c == 't' && m.tags is Some {
            m.tags.unwrap() + subst(t.skip(2), m)
        } else if c == 'r' {
            m.remaining_kitchen + subst(t.skip(2), m)
        } else if c == 'R' {
            m.remaining_secs + subst(t.skip(2), m)
        } else if c == 's' {
            m.start_iso + subst(t.skip(2), m)
        } else if c == 'S' {
            m.start_ts + subst(t.skip(2), m)
        } else if c == 'e' {
            m.end_iso + subst(t.skip(2), m)
        } else if c == 'E' {
            m.end_ts + subst(t.skip(2), m)
        } else {
            seq![t[0]] + subst(t.skip(1), m)
        }
    } else {
        seq![t[0]] + subst(t.skip(1), m)
    }
}

/// Tags joined by a comma.
pub open spec fn join_comma(ts: Seq<Seq<char>>) -> Seq<char>
    decreases ts.len(),
{
    if ts.len() == 0 {
        Seq::empty()
    } else if ts.len() == 1 {
        ts[0]
    } else {
        ts[0] + seq![','] + join_comma(ts.skip(1))
    }
}

/// The substitution values for an active Pomodoro at instant `now`, with
/// the two RFC 3339 renderings supplied: a missing description or tag list
/// substitutes as empty text.
pub open spec fn pom_subst(p: PomodoroV, now: int, si: Seq<char>, ei: Seq<char>) -> SubstV {
    SubstV {
        description: Some(match p.description {
            Some(d) => d,
            None => Seq::empty(),
        }),
        tags: Some(match p.tags {
            Some(ts) => join_comma(ts),
            None => Seq::empty(),
        }),
        remaining_kitchen: kitchen_of(p.timer.remaining(now)),
        remaining_secs: ser_i64(p.timer.remaining(now)),
        start_iso: si,
        start_ts: ser_i64(p.timer.started_at),
        end_iso: ei,
        end_ts: ser_i64(p.timer.ends_at()),
    }
}

/// The substitution values for a bare break timer at instant `now`:
/// `%d` and `%t` are not substituted.
pub open spec fn timer_subst(t: TimerV, now: int, si: Seq<char>, ei: Seq<char>) -> SubstV {
    SubstV {
        description: None,
        tags: None,
        remaining_kitchen: kitchen_of(t.remaining(now)),
        remaining_secs: ser_i64(t.remaining(now)),
        start_iso: si,
        start_ts: ser_i64(t.started_at),
        end_iso: ei,
        end_ts: ser_i64(t.ends_at()),
    }
}

/// Join tags with commas, as [`join_comma`] describes.
fn join_comma_exec(ts: &Vec<String>) -> (r: String)
    ensures
        r@ == join_comma(ts.deep_view()),
{
    proof {
        reveal_strlit(",");
        assert(","@ =~= seq![',']);
    }
    let ghost tsv: Seq<Seq<char>> = ts.deep_view();
    let mut out = String::new();
    let mut i: usize = 0;
    proof {
        assert(tsv.skip(0) =~= tsv);
        assert(out@ + join_comma(tsv) =~= join_comma(tsv));
    }
    while i < ts.len()
        invariant
            tsv == ts.deep_view(),
            i <= ts@.len(),
            join_comma(tsv) == out@ + join_comma(tsv.skip(i as int)),
        decreases ts@.len() - i,
    {
        proof {
            reveal_strlit(",");
            assert(","@ =~= seq![',']);
            assert(tsv.skip(i as int)[0] == tsv[i as int]);
            assert(tsv.skip(i as int).skip(1) =~= tsv.skip(i + 1));
            assert(tsv.skip(i as int).len() == tsv.len() - i);
        }
        out.append(ts[i].as_str());
        proof {
            assert(ts@[i as int]@ == tsv[i as int]);
        }
        if i + 1 < ts.len() {
            out.append(",");
            proof {
                assert(join_comma(tsv) =~= out@ + join_comma(tsv.skip(i + 1)));
            }
        } else {
            proof {
                assert(tsv.skip(i as int).len() == 1);
                assert(join_comma(tsv) =~= out@ + join_comma(tsv.skip(i + 1)));
            }
        }
        i += 1;
    }
    proof {
        assert(tsv.skip(ts@.len() as int) =~= Seq::<Seq<char>>::empty());
        assert(out@ =~= join_comma(tsv));
    }
    out
}

/// Run one substitution pass over the template with the given values.
fn subst_exec(
    f: &str,
    description: Option<&str>,
    tags: Option<&str>,
    remaining_kitchen: &str,
    remaining_secs: &str,
    start_iso: &str,
    start_ts: &str,
    end_iso: &str,
    end_ts: &str,
) -> (r: String)
    ensures
        ({
            let m = SubstV {
                description: match description {
                    Some(d) => Some(d@),
                    None => None,
                },
                tags: match tags {
                    Some(t) => Some(t@),
                    None => None,
                },
                remaining_kitchen: remaining_kitchen@,
                remaining_secs: remaining_secs@,
                start_iso: start_iso@,
                start_ts: start_ts@,
                end_iso: end_iso@,
                end_ts: end_ts@,
            };
            r@ == subst(f@, m)
        }),
{
    let ghost m = SubstV {
        description: match description {
            Some(d) => Some(d@),
            None => None,
        },
        tags: match tags {
            Some(t) => Some(t@),
            None => None,
        },
        remaining_kitchen: remaining_kitchen@,
        remaining_secs: remaining_secs@,
        start_iso: start_iso@,
        start_ts: start_ts@,
        end_iso: end_iso@,
        end_ts: end_ts@,
    };
    let n = f.unicode_len();
    let mut out = String::new();
    let mut i: usize = 0;
    proof {
        assert(f@.skip(0) =~= f@);
        assert(out@ + subst(f@, m) =~= subst(f@, m));
    }
    while i < n
        invariant
            n == f@.len(),
            i <= n,
            m.description == (match description {
                Some(d) => Some(d@),
                None => None::<Seq<char>>,
            }),
            m.tags == (match tags {
                Some(t) => Some(t@),
                None => None::<Seq<char>>,
            }),
            m.remaining_kitchen == remaining_kitchen@,
            m.remaining_secs == remaining_secs@,
            m.start_iso == start_iso@,
            m.start_ts == start_ts@,
            m.end_iso == end_iso@,
            m.end_ts == end_ts@,
            subst(f@, m) == out@ + subst(f@.skip(i as int), m),
        decreases n - i,
    {
        let ghost s = f@.skip(i as int);
        proof {
            assert(s[0] == f@[i as int]);
            assert(s.skip(1) =~= f@.skip(i + 1));
            if i + 1 < n {
                assert(s[1] == f@[i + 1]);
                assert(s.skip(2) =~= f@.skip(i + 2));
            }
        }
        let c = f.get_char(i);
        let mut consumed_token = false;
        if c == '%' && i + 1 < n {
            let c2 = f.get_char(i + 1);
            if c2 == 'd' {
                if let Some(d) = description {
                    out.append(d);
                    consumed_token = true;
                }
            } else if c2 == 't' {
                if let Some(t) = tags {
                    out.append(t);
                    consumed_token = true;
                }
            } else if c2 == 'r' {
                out.append(remaining_kitchen);
                consumed_token = true;
            } else if c2 == 'R' {
                out.append(remaining_secs);
                consumed_token = true;
            } else if c2 == 's' {
                out.append(start_iso);
                consumed_token = true;
            } else if c2 == 'S' {
                out.append(start_ts);
                consumed_token = true;
            } else if c2 == 'e' {
                out.append(end_iso);
                consumed_token = true;
            } else if c2 == 'E' {
                out.append(end_ts);
                consumed_token = true;
            }
        }
        if consumed_token {
            i += 2;
        } else {
            let piece = f.substring_char(i, i + 1);
            proof {
                assert(piece@ =~= seq![f@[i as int]]);
            }
            out.append(piece);
            i += 1;
        }
        proof {
            assert(subst(f@, m) =~= out@ + subst(f@.skip(i as int), m));
        }
    }
    proof {
        assert(f@.skip(n as int) =~= Seq::<char>::empty());
        assert(out@ =~= subst(f@, m));
    }
    out
}

/// Format an active Pomodoro against the template, substituting the token
/// set exactly as [`subst`] describes, with the given RFC 3339 renderings
/// of the start and end instants.
pub fn format_pomodoro(
    pomodoro: &Pomodoro,
    f: &str,
    now: i64,
    start_iso: &str,
    end_iso: &str,
) -> (r: String)
    requires
        pomodoro.wf(),
    ensures
        r@ == subst(f@, pom_subst(pomodoro@, now as int, start_iso@, end_iso@)),
{
    proof {
        reveal_strlit("");
    }
    let timer = pomodoro.timer();
    let remaining = timer.remaining(now);
    let kitchen = to_kitchen(remaining);
    let secs = i64_string(remaining);
    let start_ts = i64_string(timer.starts_at());
    let end_ts = i64_string(timer.ends_at());
    let description = match pomodoro.description() {
        Some(d) => d,
        None => "",
    };
    let tags = match pomodoro.tags() {
        Some(ts) => join_comma_exec(ts),
        None => String::new(),
    };
    let r = subst_exec(
        f,
        Some(description),
        Some(tags.as_str()),
        kitchen.as_str(),
        secs.as_str(),
        start_iso,
        start_ts.as_str(),
        end_iso,
        end_ts.as_str(),
    );
    proof {
        assert(""@ =~= Seq::<char>::empty());
        assert(pom_subst(pomodoro@, now as int, start_iso@, end_iso@) =~= (SubstV {
            description: Some(description@),
            tags: Some(tags@),
            remaining_kitchen: kitchen@,
            remaining_secs: secs@,
            start_iso: start_iso@,
            start_ts: start_ts@,
            end_iso: end_iso@,
            end_ts: end_ts@,
        }));
    }
    r
}

/// Format a bare break timer against the template: the six timer tokens are
/// substituted as [`subst`] describes, and `%d` and `%t` pass through.
pub fn format_timer(timer: &Timer, f: &str, now: i64, start_iso: &str, end_iso: &str) -> (r:
    String)
    requires
        timer.wf(),
    ensures
        r@ == subst(f@, timer_subst(timer@, now as int, start_iso@, end_iso@)),
{
    let remaining = timer.remaining(now);
    let kitchen = to_kitchen(remaining);
    let secs = i64_string(remaining);
    let start_ts = i64_string(timer.starts_at());
    let end_ts = i64_string(timer.ends_at());
    let r = subst_exec(
        f,
        None,
        None,
        kitchen.as_str(),
        secs.as_str(),
        start_iso,
        start_ts.as_str(),
        end_iso,
        end_ts.as_str(),
    );
    proof {
        assert(timer_subst(timer@, now as int, start_iso@, end_iso@) =~= (SubstV {
            description: None,
            tags: None,
            remaining_kitchen: kitchen@,
            remaining_secs: secs@,
            start_iso: start_iso@,
            start_ts: start_ts@,
            end_iso: end_iso@,
            end_ts: end_ts@,
        }));
    }
    r
}

/// Relies on chrono's `TimeZone::timestamp_opt` for the `Local` time zone
/// and `DateTime::to_rfc3339`: renders a Unix timestamp as an RFC 3339
/// string with the machine's current local offset. The result depends on
/// the machine's time zone settings, so no exact value can be promised; a
/// timestamp outside chrono's representable range yields the empty string.
#[verifier::external_body]
fn rfc3339_local(ts: i64) -> String {
    match chrono::TimeZone::timestamp_opt(&chrono::Local, ts, 0) {
        chrono::LocalResult::Single(dt) => dt.to_rfc3339(),
        _ => String::new(),
    }
}

/// Format an active Pomodoro against the template, rendering the `%s` and
/// `%e` instants in the machine's local time zone. Whatever those two
/// renderings come back as, the result is exactly their substitution.
pub fn format_pomodoro_local(pomodoro: &Pomodoro, f: &str, now: i64) -> (r: String)
    requires
        pomodoro.wf(),
    ensures
        exists|si: Seq<char>, ei: Seq<char>|
            r@ == subst(f@, #[trigger] pom_subst(pomodoro@, now as int, si, ei)),
{
    let timer = pomodoro.timer();
    let si = rfc3339_local(timer.starts_at());
    let ei = rfc3339_local(timer.ends_at());
    let r = format_pomodoro(pomodoro, f, now, si.as_str(), ei.as_str());
    proof {
        assert(r@ == subst(f@, pom_subst(pomodoro@, now as int, si@, ei@)));
    }
    r
}

/// Format a bare break timer against the template, rendering the `%s` and
/// `%e` instants in the machine's local time zone. Whatever those two
/// renderings come back as, the result is exactly their substitution.
pub fn format_timer_local(timer: &Timer, f: &str, now: i64) -> (r: String)
    requires
        timer.wf(),
    ensures
        exists|si: Seq<char>, ei: Seq<char>|
            r@ == subst(f@, #[trigger] timer_subst(timer@, now as int, si, ei)),
{
    let si = rfc3339_local(timer.starts_at());
    let ei = rfc3339_local(timer.ends_at());
    let r = format_timer(timer, f, now, si.as_str(), ei.as_str());
    proof {
        assert(r@ == subst(f@, timer_subst(timer@, now as int, si@, ei@)));
    }
    r
}

} // verus!
