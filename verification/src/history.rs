//! The append-only archive of completed Pomodoros.
//!
//! The history file is a sequence of records, each of the shape
//!
//! ```text
//! [[pomodoros]]
//! started_at = <integer seconds>
//! duration = <integer seconds>
//! tags = ["a", "b"]               (optional)
//! description = "<text>"          (optional)
//! ```
//!
//! separated by blank lines. A record's duration is the span the Pomodoro
//! actually ran, from its start to its completion instant. Appending one
//! record to a well-formed history file extends what the file parses to by
//! exactly that record, in order (see [`lemma_history_append`]).

use vstd::prelude::*;

use crate::codec::{
    desc_line, desc_of, is_desc_line, is_desc_line_exec, is_tags_line, is_tags_line_exec,
    lemma_desc_line, lemma_first_char_differs, lemma_header_facts, lemma_key_facts,
    lemma_tags_line, lemma_timer_lines, line_ok, parse_timer_2, parse_timer_2_exec,
    push_desc_line, push_kv, push_nl, push_tags_line, tags_items_of, tags_line, tags_of_exec,
    tags_ok, text_ok, timer_lines, ParseError,
};
use crate::pomodoro::{Pomodoro, PomodoroV};
use crate::text::{
    content_lines, flatten_lines, is_blank, lemma_flatten_append, lemma_flatten_singleton,
    lemma_nonblank_append, lemma_nonblank_id, lemma_split_append, lemma_split_flatten, line_views,
    nl_free, nonblank, split_lines,
};
use crate::time::TimerV;

verus! {

// ---------------------------------------------------------------------------
// Records (spec)
// ---------------------------------------------------------------------------

/// Mathematical model of a [`HistoryEntry`].
#[verifier::ext_equal]
pub struct EntryV {
    pub started_at: int,
    pub duration: int,
    pub tags: Option<Seq<Seq<char>>>,
    pub description: Option<Seq<char>>,
}

impl EntryV {
    /// The timer an entry round-trips to: it starts at the recorded instant
    /// and runs for the recorded actual span.
    pub open spec fn timer(self) -> TimerV {
        TimerV { started_at: self.started_at, duration: self.duration }
    }

    /// An entry is well formed when its timer is.
    pub open spec fn wf(self) -> bool {
        self.timer().wf()
    }

    /// An entry whose description and tags are writable.
    pub open spec fn plain(self) -> bool {
        &&& match self.description {
            Some(d) => text_ok(d),
            None => true,
        }
        &&& match self.tags {
            Some(ts) => tags_ok(ts),
            None => true,
        }
    }

    /// The Pomodoro that loading this entry yields: the recorded span
    /// becomes the timer's duration, and the completion instant is gone.
    pub open spec fn pomodoro(self) -> PomodoroV {
        PomodoroV {
            timer: self.timer(),
            description: self.description,
            tags: self.tags,
            finished_at: None,
        }
    }
}

/// The field lines of a history record: timer first, then the optional
/// tags and description, in that order.
pub open spec fn entry_lines(e: EntryV) -> Seq<Seq<char>> {
    timer_lines(e.timer()) + (match e.tags {
        Some(ts) => seq![tags_line(ts)],
        None => Seq::<Seq<char>>::empty(),
    }) + (match e.description {
        Some(d) => seq![desc_line(d)],
        None => Seq::<Seq<char>>::empty(),
    })
}

/// The text appended to the history file for one entry: the record header,
/// the field lines, and a blank separator line.
pub open spec fn record_of(e: EntryV) -> Seq<char> {
    flatten_lines(seq!["[[pomodoros]]"@] + entry_lines(e) + seq![Seq::<char>::empty()])
}

// ---------------------------------------------------------------------------
// Parsing (spec)
// ---------------------------------------------------------------------------

/// Parse one record's field lines from the start of `ls`: the two timer
/// lines, then an optional tags line and an optional description line.
/// Yields the loaded Pomodoro and how many lines it covered.
pub open spec fn parse_entry_fields(ls: Seq<Seq<char>>) -> Option<(PomodoroV, int)> {
    if ls.len() < 2 {
        None
    } else {
        match parse_timer_2(ls[0], ls[1]) {
            None => None,
            Some(t) => {
                let has_t = 2 < ls.len() && is_tags_line(ls[2]);
                let i2: int = if has_t { 3 } else { 2 };
                let has_d = i2 < ls.len() && is_desc_line(ls[i2]);
                let i3: int = if has_d { i2 + 1 } else { i2 };
                if has_t && tags_items_of(ls[2]) is None {
                    None
                } else {
                    let tags = if has_t { tags_items_of(ls[2]) } else { None };
                    let desc = if has_d { Some(desc_of(ls[i2])) } else { None };
                    Some((
                        PomodoroV { timer: t, description: desc, tags, finished_at: None },
                        i3,
                    ))
                }
            },
        }
    }
}

/// Parse the non-blank lines of a history file: a sequence of records, each
/// opened by the record header.
pub open spec fn parse_history_lines(ls: Seq<Seq<char>>) -> Option<Seq<PomodoroV>>
    decreases ls.len(),
{
    if ls.len() == 0 {
        Some(Seq::empty())
    } else if ls[0] == "[[pomodoros]]"@ {
        match parse_entry_fields(ls.skip(1)) {
            Some((p, m)) => if 2 <= m && 1 + m <= ls.len() {
                match parse_history_lines(ls.skip(1 + m)) {
                    Some(rest) => Some(seq![p] + rest),
                    None => None,
                }
            } else {
                None
            },
            None => None,
        }
    } else {
        None
    }
}

/// Parse the character contents of a history file.
pub open spec fn parse_history(s: Seq<char>) -> Option<Seq<PomodoroV>> {
    parse_history_lines(nonblank(split_lines(s)))
}

/// What loading finds: an absent file is an empty history; a present file
/// must parse.
pub open spec fn load_history(contents: Option<Seq<char>>) -> Option<Seq<PomodoroV>> {
    match contents {
        None => Some(Seq::empty()),
        Some(s) => parse_history(s),
    }
}

// ---------------------------------------------------------------------------
// Round trip: appending a record extends the parse by that record
// ---------------------------------------------------------------------------

/// Round trip for one record's field lines, robust to lines of further
/// records following them: parsing covers exactly this record's lines and
/// yields the loaded Pomodoro.
proof fn lemma_entry_fields_rt(e: EntryV, ext: Seq<Seq<char>>)
    requires
        e.wf(),
        e.plain(),
        ext.len() > 0 ==> ext[0] == "[[pomodoros]]"@,
    ensures
        parse_entry_fields(entry_lines(e) + ext) == Some((
            e.pomodoro(),
            entry_lines(e).len() as int,
        )),
        forall|i: int| 0 <= i < entry_lines(e).len() ==> line_ok(#[trigger] entry_lines(e)[i]),
{
    lemma_header_facts();
    lemma_key_facts();
    lemma_timer_lines(e.timer());
    let hdr = "[[pomodoros]]"@;
    if ext.len() > 0 {
        lemma_first_char_differs(hdr, "tags = ["@);
        lemma_first_char_differs(hdr, "description = \""@);
    }
    let l0 = timer_lines(e.timer())[0];
    let l1 = timer_lines(e.timer())[1];
    let ls = entry_lines(e) + ext;
    match (e.tags, e.description) {
        (Option::None, Option::None) => {
            assert(entry_lines(e) =~= seq![l0, l1]);
            assert(ls =~= seq![l0, l1] + ext);
            assert(ls[0] == l0 && ls[1] == l1);
            if ls.len() > 2 {
                assert(ls[2] == ext[0]);
            }
            assert(e.pomodoro() =~= (PomodoroV {
                timer: e.timer(),
                description: None,
                tags: None,
                finished_at: None,
            }));
            assert(parse_entry_fields(ls) == Some((e.pomodoro(), 2int)));
        },
        (Option::Some(ts), Option::None) => {
            lemma_tags_line(ts);
            assert(entry_lines(e) =~= seq![l0, l1, tags_line(ts)]);
            assert(ls =~= seq![l0, l1, tags_line(ts)] + ext);
            assert(ls[0] == l0 && ls[1] == l1 && ls[2] == tags_line(ts));
            if ls.len() > 3 {
                assert(ls[3] == ext[0]);
            }
            assert(e.pomodoro() =~= (PomodoroV {
                timer: e.timer(),
                description: None,
                tags: Some(ts),
                finished_at: None,
            }));
            assert(parse_entry_fields(ls) == Some((e.pomodoro(), 3int)));
        },
        (Option::None, Option::Some(d)) => {
            lemma_desc_line(d);
            assert(entry_lines(e) =~= seq![l0, l1, desc_line(d)]);
            assert(ls =~= seq![l0, l1, desc_line(d)] + ext);
            assert(ls[0] == l0 && ls[1] == l1 && ls[2] == desc_line(d));
            if ls.len() > 3 {
                assert(ls[3] == ext[0]);
            }
            assert(e.pomodoro() =~= (PomodoroV {
                timer: e.timer(),
                description: Some(d),
                tags: None,
                finished_at: None,
            }));
            assert(parse_entry_fields(ls) == Some((e.pomodoro(), 3int)));
        },
        (Option::Some(ts), Option::Some(d)) => {
            lemma_tags_line(ts);
            lemma_desc_line(d);
            assert(entry_lines(e) =~= seq![l0, l1, tags_line(ts), desc_line(d)]);
            assert(ls =~= seq![l0, l1, tags_line(ts), desc_line(d)] + ext);
            assert(ls[0] == l0 && ls[1] == l1 && ls[2] == tags_line(ts) && ls[3] == desc_line(d));
            if ls.len() > 4 {
                assert(ls[4] == ext[0]);
            }
            assert(e.pomodoro() =~= (PomodoroV {
                timer: e.timer(),
                description: Some(d),
                tags: Some(ts),
                finished_at: None,
            }));
            assert(parse_entry_fields(ls) == Some((e.pomodoro(), 4int)));
        },
    }
}

/// A parse of record lines is unchanged when lines of further records are
/// appended after it.
proof fn lemma_entry_fields_ext(m: Seq<Seq<char>>, ext: Seq<Seq<char>>)
    requires
        parse_entry_fields(m) is Some,
        ext.len() > 0 ==> ext[0] == "[[pomodoros]]"@,
    ensures
        parse_entry_fields(m + ext) == parse_entry_fields(m),
{
    lemma_header_facts();
    lemma_key_facts();
    if ext.len() > 0 {
        lemma_first_char_differs(ext[0], "tags = ["@);
        lemma_first_char_differs(ext[0], "description = \""@);
    }
    let ls = m + ext;
    assert(m.len() >= 2);
    assert(ls[0] == m[0] && ls[1] == m[1]);
    assert forall|i: int| 0 <= i < ls.len() && i <= m.len() implies (i < m.len() ==> ls[i] == m[i])
        && (i == m.len() && ext.len() > 0 ==> ls[i] == ext[0]) by {}
    if 2 < ls.len() {
        if 2 < m.len() {
            assert(ls[2] == m[2]);
        } else {
            assert(ls[2] == ext[0]);
        }
    }
    if 3 < ls.len() {
        if 3 < m.len() {
            assert(ls[3] == m[3]);
        } else if 3 == m.len() {
            assert(ls[3] == ext[0]);
        }
    }
}

/// Appending a full record after existing record lines extends the parse by
/// the record's loaded Pomodoro.
proof fn lemma_history_lines_append(l1: Seq<Seq<char>>, vs: Seq<PomodoroV>, e: EntryV)
    requires
        parse_history_lines(l1) == Some(vs),
        e.wf(),
        e.plain(),
    ensures
        parse_history_lines(l1 + (seq!["[[pomodoros]]"@] + entry_lines(e))) == Some(
            vs.push(e.pomodoro()),
        ),
    decreases l1.len(),
{
    lemma_header_facts();
    let hdr = "[[pomodoros]]"@;
    let l2 = seq![hdr] + entry_lines(e);
    let ls = l1 + l2;
    if l1.len() == 0 {
        assert(ls =~= l2);
        assert(ls[0] == hdr);
        assert(ls.skip(1) =~= entry_lines(e) + Seq::<Seq<char>>::empty());
        lemma_entry_fields_rt(e, Seq::empty());
        assert(entry_lines(e) + Seq::<Seq<char>>::empty() =~= entry_lines(e));
        let m = entry_lines(e).len() as int;
        assert(parse_entry_fields(ls.skip(1)) == Some((e.pomodoro(), m)));
        assert(ls.skip(1 + m) =~= Seq::<Seq<char>>::empty());
        assert(parse_history_lines(Seq::<Seq<char>>::empty()) == Some(Seq::<PomodoroV>::empty()));
        assert(parse_history_lines(ls) == Some(seq![e.pomodoro()] + Seq::<PomodoroV>::empty()));
        assert(seq![e.pomodoro()] + Seq::<PomodoroV>::empty() =~= vs.push(e.pomodoro()));
    } else {
        assert(l1[0] == hdr);
        assert(ls[0] == hdr);
        let pf = parse_entry_fields(l1.skip(1));
        assert(pf is Some);
        let p = pf.unwrap().0;
        let m = pf.unwrap().1;
        assert(2 <= m && 1 + m <= l1.len());
        assert(ls.skip(1) =~= l1.skip(1) + l2);
        lemma_entry_fields_ext(l1.skip(1), l2);
        assert(parse_entry_fields(ls.skip(1)) == Some((p, m)));
        assert(ls.skip(1 + m) =~= l1.skip(1 + m) + l2);
        let rest = parse_history_lines(l1.skip(1 + m));
        assert(rest is Some);
        lemma_history_lines_append(l1.skip(1 + m), rest.unwrap(), e);
        assert(parse_history_lines(ls) == Some(
            seq![p] + rest.unwrap().push(e.pomodoro()),
        ));
        assert(seq![p] + rest.unwrap().push(e.pomodoro()) =~= (seq![p]
            + rest.unwrap()).push(e.pomodoro()));
    }
}

/// Appending one rendered record to a well-formed history file extends what
/// the file parses to by exactly that record's Pomodoro, in order.
pub proof fn lemma_history_append(h: Seq<char>, vs: Seq<PomodoroV>, e: EntryV)
    requires
        parse_history(h) == Some(vs),
        h.len() == 0 || h.last() == '\n',
        e.wf(),
        e.plain(),
    ensures
        parse_history(h + record_of(e)) == Some(vs.push(e.pomodoro())),
{
    lemma_header_facts();
    let hdr = "[[pomodoros]]"@;
    let rls = seq![hdr] + entry_lines(e) + seq![Seq::<char>::empty()];
    lemma_entry_fields_rt(e, Seq::empty());
    assert(forall|i: int| 0 <= i < rls.len() - 1 ==> nl_free(#[trigger] rls[i])) by {
        assert forall|i: int| 0 <= i < rls.len() - 1 implies nl_free(rls[i]) by {
            if i == 0 {
            } else {
                assert(rls[i] == entry_lines(e)[i - 1]);
            }
        }
    }
    assert(nl_free(rls[rls.len() - 1])) by {
        assert(rls[rls.len() - 1] =~= Seq::<char>::empty());
    }
    lemma_split_flatten(rls);
    lemma_split_append(h, record_of(e));
    lemma_nonblank_append(split_lines(h), split_lines(record_of(e)));
    // the record's lines, blanks dropped, are the header plus the fields
    let core = seq![hdr] + entry_lines(e);
    lemma_nonblank_append(core, seq![Seq::<char>::empty()]);
    assert(rls =~= core + seq![Seq::<char>::empty()]);
    assert(is_blank(Seq::<char>::empty()));
    assert(nonblank(seq![Seq::<char>::empty()]) =~= Seq::<Seq<char>>::empty()) by {
        assert(seq![Seq::<char>::empty()].skip(1) =~= Seq::<Seq<char>>::empty());
        assert(nonblank(Seq::<Seq<char>>::empty()) == Seq::<Seq<char>>::empty());
        assert(is_blank(seq![Seq::<char>::empty()][0]));
    }
    lemma_nonblank_id(core);
    assert(nonblank(split_lines(record_of(e))) =~= core);
    lemma_history_lines_append(nonblank(split_lines(h)), vs, e);
    assert(nonblank(split_lines(h + record_of(e))) =~= nonblank(split_lines(h)) + core);
}

// ---------------------------------------------------------------------------
// Records (exec)
// ---------------------------------------------------------------------------

/// Why a Pomodoro cannot be archived.
#[derive(Clone, Copy, Debug, PartialEq, Eq, Structural)]
pub enum ArchiveError {
    /// Only finished Pomodoros are archived.
    NotFinished,
}

impl ArchiveError {
    /// The user-facing description of this failure.
    pub open spec fn spec_message(self) -> Seq<char> {
        "Pomodoro is not finished yet"@
    }

    /// The user-facing description of this failure.
    pub fn message(&self) -> (r: String)
        ensures
            r@ == self.spec_message(),
    {
        proof {
            reveal_strlit("Pomodoro is not finished yet");
        }
        String::from_str("Pomodoro is not finished yet")
    }
}

/// The entry a finished Pomodoro is archived as: its start instant, the
/// actual span it ran, and its tags and description.
pub open spec fn archive_of(p: PomodoroV) -> EntryV {
    EntryV {
        started_at: p.timer.started_at,
        duration: p.finished_at.unwrap() - p.timer.started_at,
        tags: p.tags,
        description: p.description,
    }
}

/// A record of one past Pomodoro timer, as written to the history file.
#[derive(Clone, Debug, PartialEq, Eq)]
pub struct HistoryEntry {
    started_at: i64,
    duration: i64,
    tags: Option<Vec<String>>,
    description: Option<String>,
}

impl View for HistoryEntry {
    type V = EntryV;

    closed spec fn view(&self) -> EntryV {
        EntryV {
            started_at: self.started_at as int,
            duration: self.duration as int,
            tags: self.tags.deep_view(),
            description: self.description.deep_view(),
        }
    }
}

impl HistoryEntry {
    /// Archive a finished Pomodoro as a history entry. A Pomodoro that is
    /// not finished yet is rejected.
    pub fn archive(pom: &Pomodoro) -> (r: Result<HistoryEntry, ArchiveError>)
        requires
            pom.wf(),
        ensures
            match r {
                Ok(entry) => pom@.finished_at is Some && entry@ == archive_of(pom@)
                    && entry@.wf(),
                Err(e) => pom@.finished_at is None && e == ArchiveError::NotFinished,
            },
    {
        let duration = match pom.duration() {
            Some(d) => d,
            None => {
                return Err(ArchiveError::NotFinished);
            },
        };
        let started_at = pom.timer().starts_at();
        let tags = match pom.tags() {
            Some(ts) => Some(crate::text::clone_string_vec(ts)),
            None => None,
        };
        let description = match pom.description() {
            Some(d) => Some(d.to_owned()),
            None => None,
        };
        Ok(HistoryEntry { started_at, duration, tags, description })
    }

    /// Render this entry as the text to append to the history file: the
    /// record header, the field lines, and a blank separator line.
    pub fn render(&self) -> (r: String)
        requires
            self@.wf(),
        ensures
            r@ == record_of(self@),
    {
        let mut out = String::new();
        proof {
            reveal_strlit("[[pomodoros]]");
        }
        out.append("[[pomodoros]]");
        push_nl(&mut out);
        push_kv(&mut out, "started_at = ", self.started_at);
        push_kv(&mut out, "duration = ", self.duration);
        match &self.tags {
            Some(ts) => push_tags_line(&mut out, ts),
            None => {},
        }
        match &self.description {
            Some(d) => push_desc_line(&mut out, d.as_str()),
            None => {},
        }
        push_nl(&mut out);
        proof {
            let e = self@;
            let tseg: Seq<Seq<char>> = match e.tags {
                Some(ts2) => seq![tags_line(ts2)],
                None => Seq::<Seq<char>>::empty(),
            };
            let dseg: Seq<Seq<char>> = match e.description {
                Some(d2) => seq![desc_line(d2)],
                None => Seq::<Seq<char>>::empty(),
            };
            lemma_flatten_singleton("[[pomodoros]]"@);
            lemma_flatten_singleton(Seq::<char>::empty());
            lemma_flatten_pair_timer(e.timer());
            match e.tags {
                Some(ts2) => lemma_flatten_singleton(tags_line(ts2)),
                None => {},
            }
            match e.description {
                Some(d2) => lemma_flatten_singleton(desc_line(d2)),
                None => {},
            }
            let rls = seq!["[[pomodoros]]"@] + entry_lines(e) + seq![Seq::<char>::empty()];
            lemma_flatten_append(seq!["[[pomodoros]]"@] + entry_lines(e), seq![Seq::<char>::empty()]);
            lemma_flatten_append(seq!["[[pomodoros]]"@], entry_lines(e));
            lemma_flatten_append(timer_lines(e.timer()) + tseg, dseg);
            lemma_flatten_append(timer_lines(e.timer()), tseg);
            assert(entry_lines(e) =~= timer_lines(e.timer()) + tseg + dseg);
            assert(out@ =~= record_of(e));
        }
        out
    }
}

/// Joining the two timer lines.
proof fn lemma_flatten_pair_timer(t: TimerV)
    ensures
        flatten_lines(timer_lines(t)) == timer_lines(t)[0] + seq!['\n'] + timer_lines(t)[1]
            + seq!['\n'],
{
    assert(timer_lines(t) =~= seq![timer_lines(t)[0], timer_lines(t)[1]]);
    crate::text::lemma_flatten_pair(timer_lines(t)[0], timer_lines(t)[1]);
}

// ---------------------------------------------------------------------------
// History (exec)
// ---------------------------------------------------------------------------

/// A record of past Pomodoro timers, in the order they were archived.
#[derive(Clone, Debug)]
pub struct History {
    pomodoros: Vec<Pomodoro>,
}

impl View for History {
    type V = Seq<PomodoroV>;

    closed spec fn view(&self) -> Seq<PomodoroV> {
        self.pomodoros.deep_view()
    }
}

/// Parse the records of a history file from `lines[start..]`, as
/// [`parse_history_lines`] describes for the corresponding line suffix.
fn parse_history_records(lines: &Vec<String>, start: usize) -> (r: Option<Vec<Pomodoro>>)
    requires
        start <= lines@.len(),
    ensures
        match r {
            Some(v) => parse_history_lines(line_views(lines@).skip(start as int)) == Some(
                v.deep_view(),
            ) && forall|i: int| 0 <= i < v@.len() ==> (#[trigger] v@[i]).wf(),
            None => parse_history_lines(line_views(lines@).skip(start as int)) is None,
        },
    decreases lines@.len() - start,
{
    let ghost ls: Seq<Seq<char>> = line_views(lines@).skip(start as int);
    let n = lines.len();
    if n == start {
        let v: Vec<Pomodoro> = Vec::new();
        proof {
            assert(ls.len() == 0);
            assert(v.deep_view() =~= Seq::<PomodoroV>::empty());
        }
        return Some(v);
    }
    proof {
        assert(ls[0] == lines@[start as int]@);
    }
    if !crate::text::str_eq(lines[start].as_str(), "[[pomodoros]]") {
        return None;
    }
    proof {
        assert(line_views(lines@).skip(start as int + 1) =~= ls.skip(1));
    }
    match parse_entry_fields_exec(lines, start + 1) {
        Some((pom, consumed)) => {
            proof {
                assert(line_views(lines@).skip(start as int + 1 + consumed as int) =~= ls.skip(
                    1 + consumed as int,
                ));
            }
            match parse_history_records(lines, start + 1 + consumed) {
                Some(mut rest) => {
                    let ghost restv = rest.deep_view();
                    let mut v: Vec<Pomodoro> = Vec::new();
                    v.push(pom);
                    v.append(&mut rest);
                    proof {
                        assert(v.deep_view() =~= seq![pom@] + restv);
                    }
                    Some(v)
                },
                None => None,
            }
        },
        None => None,
    }
}

/// Parse one record's field lines from `lines[start..]`, as
/// [`parse_entry_fields`] describes for the corresponding line suffix.
fn parse_entry_fields_exec(lines: &Vec<String>, start: usize) -> (r: Option<(Pomodoro, usize)>)
    requires
        start <= lines@.len(),
    ensures
        match r {
            Some(pn) => {
                &&& parse_entry_fields(line_views(lines@).skip(start as int)) == Some((
                    pn.0@,
                    pn.1 as int,
                ))
                &&& pn.0.wf()
                &&& 2 <= pn.1
                &&& start + pn.1 <= lines@.len()
            },
            None => parse_entry_fields(line_views(lines@).skip(start as int)) is None,
        },
{
    let ghost fls: Seq<Seq<char>> = line_views(lines@).skip(start as int);
    let n = lines.len();
    proof {
        assert(fls.len() == n - start);
    }
    if n - start < 2 {
        return None;
    }
    proof {
        assert(fls[0] == lines@[start as int]@);
        assert(fls[1] == lines@[start as int + 1]@);
    }
    let timer = match parse_timer_2_exec(lines[start].as_str(), lines[start + 1].as_str()) {
        Some(t) => t,
        None => {
            return None;
        },
    };
    let mut i: usize = start + 2;
    let mut tags: Option<Vec<String>> = None;
    if i < n && is_tags_line_exec(lines[i].as_str()) {
        proof {
            assert(fls[2] == lines@[start as int + 2]@);
        }
        match tags_of_exec(lines[i].as_str()) {
            Some(v) => {
                tags = Some(v);
            },
            None => {
                return None;
            },
        }
        i += 1;
    } else {
        proof {
            if 2 < fls.len() {
                assert(fls[2] == lines@[start as int + 2]@);
            }
        }
    }
    let ghost i2: int = i - start;
    let mut description: Option<String> = None;
    if i < n && is_desc_line_exec(lines[i].as_str()) {
        proof {
            assert(fls[i2] == lines@[i as int]@);
        }
        let l = lines[i].as_str();
        let ln = l.unicode_len();
        let d = l.substring_char(15, ln - 1).to_owned();
        proof {
            assert(d@ =~= desc_of(fls[i2]));
        }
        description = Some(d);
        i += 1;
    } else {
        proof {
            if i2 < fls.len() {
                assert(fls[i2] == lines@[i as int]@);
            }
        }
    }
    let consumed = i - start;
    let pom = Pomodoro::assemble(timer, description, tags, None);
    proof {
        assert(parse_entry_fields(fls) == Some((pom@, consumed as int)));
    }
    Some((pom, consumed))
}

impl History {
    /// Load the history from the contents of the history file: an absent
    /// file (`None`) is an empty history; a present file must parse as
    /// [`parse_history`] describes, else loading fails.
    pub fn load(contents: Option<&str>) -> (r: Result<History, ParseError>)
        ensures
            match contents {
                None => r matches Ok(h) && h@ == Seq::<PomodoroV>::empty(),
                Some(s) => match parse_history(s@) {
                    Some(v) => r matches Ok(h) && h@ == v,
                    None => r matches Err(e) && e == ParseError::InvalidHistoryFile,
                },
            },
    {
        let s = match contents {
            None => {
                let h = History { pomodoros: Vec::new() };
                proof {
                    assert(h@ =~= Seq::<PomodoroV>::empty());
                }
                return Ok(h);
            },
            Some(s) => s,
        };
        let lines = content_lines(s);
        proof {
            assert(line_views(lines@).skip(0) =~= nonblank(split_lines(s@)));
        }
        match parse_history_records(&lines, 0) {
            Some(v) => Ok(History { pomodoros: v }),
            None => Err(ParseError::InvalidHistoryFile),
        }
    }

    /// Get the list of historical Pomodoros.
    pub fn pomodoros(&self) -> (r: &Vec<Pomodoro>)
        ensures
            r.deep_view() == self@,
    {
        &self.pomodoros
    }

    /// Render the record that archiving this Pomodoro appends to the
    /// history file. A Pomodoro that is not finished yet is rejected.
    pub fn append(pomodoro: &Pomodoro) -> (r: Result<String, ArchiveError>)
        requires
            pomodoro.wf(),
        ensures
            match r {
                Ok(s) => pomodoro@.finished_at is Some && s@ == record_of(archive_of(pomodoro@)),
                Err(e) => pomodoro@.finished_at is None && e == ArchiveError::NotFinished,
            },
    {
        let entry = match HistoryEntry::archive(pomodoro) {
            Ok(entry) => entry,
            Err(e) => {
                return Err(e);
            },
        };
        Ok(entry.render())
    }
}

} // verus!
