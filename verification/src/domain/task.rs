//! Task domain types: lifecycle status, Eisenhower quadrant, recurrence rules
//! and the task records themselves.

use vstd::prelude::*;

use crate::date::{Date, Timestamp};
use crate::text::{
    chars_eq_str, chars_of, dec, extend_chars, extend_str, first_index, is_ws, owned,
    parse_u32, parse_u32_chars, string_of, subrange_chars, to_ascii_upper, trim, trim_chars,
    u64_to_dec, upper_seq,
};

verus! {

/// Identifier of a task (an SQLite rowid).
pub type TaskId = i64;

/// Identifier of a project.
pub type ProjectId = i64;

/// Identifier of a tag.
pub type TagId = i64;

/// Lifecycle status of a task.
#[derive(Clone, Copy, Debug, PartialEq, Eq, Structural, Default, Hash)]
pub enum Status {
    #[default]
    Todo,
    Doing,
    Done,
    Cancelled,
}

/// The text of a status as stored in the database.
pub open spec fn status_text(s: Status) -> Seq<char> {
    match s {
        Status::Todo => "todo"@,
        Status::Doing => "doing"@,
        Status::Done => "done"@,
        Status::Cancelled => "cancelled"@,
    }
}

/// The status whose database text is `s`, if any.
pub open spec fn status_from_text(s: Seq<char>) -> Option<Status> {
    if s == "todo"@ {
        Some(Status::Todo)
    } else if s == "doing"@ {
        Some(Status::Doing)
    } else if s == "done"@ {
        Some(Status::Done)
    } else if s == "cancelled"@ {
        Some(Status::Cancelled)
    } else {
        None
    }
}

/// Is the status "alive" (pending or in progress)?
pub open spec fn status_open(s: Status) -> bool {
    s == Status::Todo || s == Status::Doing
}

impl Status {
    /// The database text (`todo`, `doing`, `done`, `cancelled`).
    pub fn as_str(self) -> (r: &'static str)
        ensures
            r@ == status_text(self),
    {
        match self {
            Status::Todo => "todo",
            Status::Doing => "doing",
            Status::Done => "done",
            Status::Cancelled => "cancelled",
        }
    }

    /// Parses the database text; `None` for anything else.
    pub fn from_db(s: &str) -> (r: Option<Status>)
        ensures
            r == status_from_text(s@),
    {
        let v = chars_of(s);
        if chars_eq_str(&v, "todo") {
            Some(Status::Todo)
        } else if chars_eq_str(&v, "doing") {
            Some(Status::Doing)
        } else if chars_eq_str(&v, "done") {
            Some(Status::Done)
        } else if chars_eq_str(&v, "cancelled") {
            Some(Status::Cancelled)
        } else {
            None
        }
    }

    /// Pending or in progress.
    pub fn is_open(self) -> (r: bool)
        ensures
            r == status_open(self),
    {
        match self {
            Status::Todo | Status::Doing => true,
            _ => false,
        }
    }
}

/// Parsing the database text of a status gives the status back.
pub proof fn lemma_status_text_roundtrip(s: Status)
    ensures
        status_from_text(status_text(s)) == Some(s),
{
    reveal_strlit("todo");
    reveal_strlit("doing");
    reveal_strlit("done");
    reveal_strlit("cancelled");
    assert("todo"@.len() == 4 && "doing"@.len() == 5 && "done"@.len() == 4);
    assert("cancelled"@.len() == 9);
    assert("todo"@[0] != "done"@[0]);
}

/// Quadrant of the Eisenhower matrix.
#[derive(Clone, Copy, Debug, PartialEq, Eq, Structural, Hash)]
pub enum Quadrant {
    /// Urgent and important: do it now.
    Do,
    /// Important, not urgent: schedule it.
    Schedule,
    /// Urgent, not important: delegate it.
    Delegate,
    /// Neither: drop it.
    Eliminate,
}

/// Base frequency of a recurrence rule.
#[derive(Clone, Copy, Debug, PartialEq, Eq, Structural, Hash)]
pub enum Freq {
    Daily,
    Weekly,
    Monthly,
    Yearly,
}

/// The rule text of a frequency (`DAILY`, `WEEKLY`, ...).
pub open spec fn freq_text(f: Freq) -> Seq<char> {
    match f {
        Freq::Daily => "DAILY"@,
        Freq::Weekly => "WEEKLY"@,
        Freq::Monthly => "MONTHLY"@,
        Freq::Yearly => "YEARLY"@,
    }
}

/// The frequency named by `s`, ignoring ASCII case.
pub open spec fn freq_from_text(s: Seq<char>) -> Option<Freq> {
    let u = upper_seq(s);
    if u == "DAILY"@ {
        Some(Freq::Daily)
    } else if u == "WEEKLY"@ {
        Some(Freq::Weekly)
    } else if u == "MONTHLY"@ {
        Some(Freq::Monthly)
    } else if u == "YEARLY"@ {
        Some(Freq::Yearly)
    } else {
        None
    }
}

impl Freq {
    /// The rule text.
    pub fn as_rule(self) -> (r: &'static str)
        ensures
            r@ == freq_text(self),
    {
        match self {
            Freq::Daily => "DAILY",
            Freq::Weekly => "WEEKLY",
            Freq::Monthly => "MONTHLY",
            Freq::Yearly => "YEARLY",
        }
    }

    /// Parses a frequency name, ignoring ASCII case.
    pub fn from_rule(s: &Vec<char>) -> (r: Option<Freq>)
        ensures
            r == freq_from_text(s@),
    {
        let u = to_ascii_upper(s);
        if chars_eq_str(&u, "DAILY") {
            Some(Freq::Daily)
        } else if chars_eq_str(&u, "WEEKLY") {
            Some(Freq::Weekly)
        } else if chars_eq_str(&u, "MONTHLY") {
            Some(Freq::Monthly)
        } else if chars_eq_str(&u, "YEARLY") {
            Some(Freq::Yearly)
        } else {
            None
        }
    }
}

/// A minimal recurrence rule (a subset of iCal RRULE): every `interval`
/// units of `freq`.
#[derive(Clone, Copy, Debug, PartialEq, Eq, Structural, Hash)]
pub struct Recurrence {
    pub freq: Freq,
    /// How many units of `freq` between occurrences; at least 1 when built
    /// by [`Recurrence::new`].
    pub interval: u32,
}

/// The rule `freq` every `interval` units, with the interval raised to 1.
pub open spec fn recurrence_spec(freq: Freq, interval: u32) -> Recurrence {
    Recurrence { freq, interval: if interval >= 1 {
        interval
    } else {
        1
    } }
}

/// The stored text of a rule: `FREQ=<F>`, plus `;INTERVAL=<n>` when the
/// interval is above 1.
pub open spec fn rule_text(r: Recurrence) -> Seq<char> {
    if r.interval <= 1 {
        "FREQ="@ + freq_text(r.freq)
    } else {
        "FREQ="@ + freq_text(r.freq) + ";INTERVAL="@ + dec(r.interval as nat)
    }
}

/// The index of the first `c` in `s`, if any.
pub open spec fn first_index_spec(s: Seq<char>, c: char) -> Option<int> {
    crate::text::first_index_of(s, c)
}

/// Parser state while reading a rule: the frequency seen so far and the
/// interval.
pub type RuleState = (Option<Freq>, u32);

/// Applies one `;`-separated part of a rule: empty parts are skipped, a part
/// without `=` makes the whole rule invalid, `FREQ` sets the frequency,
/// `INTERVAL` sets the interval (it must be a `u32`), other keys are
/// ignored. Keys are trimmed and read without regard to ASCII case; values
/// are trimmed.
pub open spec fn rule_step(part: Seq<char>, st: RuleState) -> Option<RuleState> {
    let p = trim(part);
    if p.len() == 0 {
        Some(st)
    } else {
        match first_index_spec(p, '=') {
            None => None,
            Some(i) => {
                let k = upper_seq(trim(p.take(i)));
                let v = trim(p.skip(i + 1));
                if k == "FREQ"@ {
                    Some((freq_from_text(v), st.1))
                } else if k == "INTERVAL"@ {
                    match parse_u32(v) {
                        Some(n) => Some((st.0, n)),
                        None => None,
                    }
                } else {
                    Some(st)
                }
            },
        }
    }
}

/// Reads the `;`-separated parts of `s` from left to right.
pub open spec fn rule_scan(s: Seq<char>, st: RuleState) -> Option<RuleState>
    decreases s.len(),
{
    match first_index_spec(s, ';') {
        None => rule_step(s, st),
        Some(i) => {
            if 0 <= i < s.len() {
                match rule_step(s.take(i), st) {
                    None => None,
                    Some(st2) => rule_scan(s.skip(i + 1), st2),
                }
            } else {
                None
            }
        },
    }
}

/// What [`Recurrence::from_rule`] gives for the text `s`.
pub open spec fn rule_parse(s: Seq<char>) -> Option<Recurrence> {
    match rule_scan(s, (None, 1)) {
        Some((Some(f), n)) => Some(recurrence_spec(f, n)),
        _ => None,
    }
}

// ---------------------------------------------------------------------------
// Reading a rule, part by part
// ---------------------------------------------------------------------------

/// The `;`-separated parts of a rule text, in order.
pub open spec fn rule_parts(s: Seq<char>) -> Seq<Seq<char>>
    decreases s.len(),
{
    match first_index_spec(s, ';') {
        None => seq![s],
        Some(i) => if 0 <= i < s.len() {
            seq![s.take(i)] + rule_parts(s.skip(i + 1))
        } else {
            seq![s]
        },
    }
}

/// Is the part blank once trimmed?
pub open spec fn part_blank(part: Seq<char>) -> bool {
    trim(part).len() == 0
}

/// The key of a part (before its first `=`, trimmed, in upper case).
pub open spec fn part_key(part: Seq<char>) -> Seq<char> {
    let p = trim(part);
    upper_seq(trim(p.take(first_index_spec(p, '=')->0)))
}

/// The value of a part (after its first `=`, trimmed).
pub open spec fn part_value(part: Seq<char>) -> Seq<char> {
    let p = trim(part);
    trim(p.skip(first_index_spec(p, '=')->0 + 1))
}

/// Is the part a `key=value` pair with this key?
pub open spec fn part_has_key(part: Seq<char>, key: Seq<char>) -> bool {
    !part_blank(part) && first_index_spec(trim(part), '=') is Some && part_key(part) == key
}

/// Does the part make the whole rule invalid: not blank and without `=`,
/// or an `INTERVAL` whose value is not a `u32`?
pub open spec fn part_bad(part: Seq<char>) -> bool {
    (!part_blank(part) && first_index_spec(trim(part), '=') is None) || (part_has_key(part, "INTERVAL"@)
        && parse_u32(part_value(part)) is None)
}

/// The frequency the last `FREQ` part gives (`Some(None)` when its value is
/// no frequency), `None` when there is no `FREQ` part.
pub open spec fn last_freq(ps: Seq<Seq<char>>) -> Option<Option<Freq>>
    decreases ps.len(),
{
    if ps.len() == 0 {
        None
    } else {
        match last_freq(ps.drop_first()) {
            Some(x) => Some(x),
            None => if part_has_key(ps[0], "FREQ"@) {
                Some(freq_from_text(part_value(ps[0])))
            } else {
                None
            },
        }
    }
}

/// The value of the last `INTERVAL` part, `None` when there is none.
pub open spec fn last_interval(ps: Seq<Seq<char>>) -> Option<u32>
    decreases ps.len(),
{
    if ps.len() == 0 {
        None
    } else {
        match last_interval(ps.drop_first()) {
            Some(x) => Some(x),
            None => if part_has_key(ps[0], "INTERVAL"@) {
                parse_u32(part_value(ps[0]))
            } else {
                None
            },
        }
    }
}

/// A rule read from its parts: `None` when a part is bad, when there is no
/// `FREQ` part or when the last one names no frequency; otherwise that
/// frequency with the last `INTERVAL` (1 when there is none, at least 1).
/// Other keys are ignored.
pub open spec fn rule_from_parts(ps: Seq<Seq<char>>) -> Option<Recurrence> {
    if exists|j: int| 0 <= j < ps.len() && part_bad(#[trigger] ps[j]) {
        None
    } else {
        match last_freq(ps) {
            Some(Some(f)) => Some(
                recurrence_spec(
                    f,
                    match last_interval(ps) {
                        Some(n) => n,
                        None => 1,
                    },
                ),
            ),
            _ => None,
        }
    }
}

/// Reads the parts from left to right.
pub open spec fn rule_fold(ps: Seq<Seq<char>>, st: RuleState) -> Option<RuleState>
    decreases ps.len(),
{
    if ps.len() == 0 {
        Some(st)
    } else {
        match rule_step(ps[0], st) {
            None => None,
            Some(st2) => rule_fold(ps.drop_first(), st2),
        }
    }
}

proof fn lemma_scan_parts(s: Seq<char>, st: RuleState)
    ensures
        rule_scan(s, st) == rule_fold(rule_parts(s), st),
    decreases s.len(),
{
    let ps = rule_parts(s);
    match first_index_spec(s, ';') {
        None => {
            assert(ps == seq![s]);
            assert(ps.drop_first() =~= Seq::<Seq<char>>::empty());
            assert(ps[0] == s);
            match rule_step(s, st) {
                None => {},
                Some(st2) => {
                    assert(rule_fold(ps.drop_first(), st2) == Some(st2));
                },
            }
        },
        Some(i) => {
            if 0 <= i < s.len() {
                assert(ps[0] == s.take(i));
                assert(ps.drop_first() =~= rule_parts(s.skip(i + 1)));
                match rule_step(s.take(i), st) {
                    None => {},
                    Some(st2) => {
                        lemma_scan_parts(s.skip(i + 1), st2);
                    },
                }
            } else {
                crate::text::lemma_first_index_of_found(s, ';');
            }
        },
    }
}

proof fn lemma_fold_closed(ps: Seq<Seq<char>>, st: RuleState)
    ensures
        rule_fold(ps, st) == (if exists|j: int| 0 <= j < ps.len() && part_bad(#[trigger] ps[j]) {
            None
        } else {
            Some(
                (
                    match last_freq(ps) {
                        Some(x) => x,
                        None => st.0,
                    },
                    match last_interval(ps) {
                        Some(n) => n,
                        None => st.1,
                    },
                ),
            )
        }),
    decreases ps.len(),
{
    if ps.len() > 0 {
        let p = ps[0];
        let rest = ps.drop_first();
        assert forall|j: int| 0 <= j < rest.len() implies #[trigger] rest[j] == ps[j + 1] by {}
        let any_rest = exists|j: int| 0 <= j < rest.len() && part_bad(#[trigger] rest[j]);
        let any = exists|j: int| 0 <= j < ps.len() && part_bad(#[trigger] ps[j]);
        if any_rest {
            let j = choose|j: int| 0 <= j < rest.len() && part_bad(#[trigger] rest[j]);
            assert(part_bad(ps[j + 1]));
        }
        if any && !part_bad(p) {
            let j = choose|j: int| 0 <= j < ps.len() && part_bad(#[trigger] ps[j]);
            assert(j != 0);
            assert(part_bad(rest[j - 1]));
        }
        if part_bad(p) {
            assert(part_bad(ps[0]));
        }
        reveal_strlit("FREQ");
        reveal_strlit("INTERVAL");
        let q = trim(p);
        if q.len() != 0 {
            match first_index_spec(q, '=') {
                None => {
                    assert(part_bad(p));
                },
                Some(i) => {
                    assert(part_key(p) == upper_seq(trim(q.take(i))));
                    assert(part_value(p) == trim(q.skip(i + 1)));
                    assert(part_has_key(p, "FREQ"@) <==> upper_seq(trim(q.take(i))) == "FREQ"@);
                    assert(part_has_key(p, "INTERVAL"@) <==> upper_seq(trim(q.take(i))) == "INTERVAL"@);
                },
            }
        }
        assert(last_freq(ps) == match last_freq(rest) {
            Some(x) => Some(x),
            None => if part_has_key(p, "FREQ"@) {
                Some(freq_from_text(part_value(p)))
            } else {
                None
            },
        });
        assert(last_interval(ps) == match last_interval(rest) {
            Some(x) => Some(x),
            None => if part_has_key(p, "INTERVAL"@) {
                parse_u32(part_value(p))
            } else {
                None
            },
        });
        match rule_step(p, st) {
            None => {},
            Some(st2) => {
                lemma_fold_closed(rest, st2);
            },
        }
    }
}

/// What `from_rule` accepts, in closed form: split at `;`, a rule is
/// invalid when a non-blank part has no `=` or an `INTERVAL` value is not a
/// `u32`; otherwise the last `FREQ` part decides the frequency (none, or an
/// unknown value, gives `None`), the last `INTERVAL` the interval (1 when
/// absent, at least 1), and other keys are ignored.
pub proof fn law_rule_parse_closed(s: Seq<char>)
    ensures
        rule_parse(s) == rule_from_parts(rule_parts(s)),
{
    lemma_scan_parts(s, (None, 1));
    lemma_fold_closed(rule_parts(s), (None, 1));
}

impl Recurrence {
    /// A rule; an interval of 0 becomes 1.
    pub fn new(freq: Freq, interval: u32) -> (r: Recurrence)
        ensures
            r == recurrence_spec(freq, interval),
    {
        Recurrence { freq, interval: if interval >= 1 {
            interval
        } else {
            1
        } }
    }

    /// Every day.
    pub fn daily() -> (r: Recurrence)
        ensures
            r == recurrence_spec(Freq::Daily, 1),
    {
        Self::new(Freq::Daily, 1)
    }

    /// Every week.
    pub fn weekly() -> (r: Recurrence)
        ensures
            r == recurrence_spec(Freq::Weekly, 1),
    {
        Self::new(Freq::Weekly, 1)
    }

    /// Every month.
    pub fn monthly() -> (r: Recurrence)
        ensures
            r == recurrence_spec(Freq::Monthly, 1),
    {
        Self::new(Freq::Monthly, 1)
    }

    /// The stored text of the rule (`FREQ=WEEKLY`, `FREQ=DAILY;INTERVAL=2`).
    pub fn to_rule(self) -> (s: String)
        ensures
            s@ == rule_text(self),
    {
        let mut v: Vec<char> = chars_of("FREQ=");
        extend_str(&mut v, self.freq.as_rule());
        if self.interval > 1 {
            extend_str(&mut v, ";INTERVAL=");
            let d = u64_to_dec(self.interval as u64);
            extend_chars(&mut v, &d);
        }
        string_of(&v)
    }

    /// Parses the stored text of a rule; `None` when it is not valid.
    /// Unknown keys are ignored.
    pub fn from_rule(s: &str) -> (r: Option<Recurrence>)
        ensures
            r == rule_parse(s@),
    {
        let v = chars_of(s);
        let mut pos: usize = 0;
        let mut freq: Option<Freq> = None;
        let mut interval: u32 = 1;
        assert(v@.skip(0) =~= v@);
        loop
            invariant_except_break
                v@ == s@,
                pos <= v.len(),
                rule_scan(v@, (None, 1)) == rule_scan(v@.skip(pos as int), (freq, interval)),
            ensures
                v@ == s@,
                rule_scan(v@, (None, 1)) == Some((freq, interval)),
            decreases v.len() - pos,
        {
            let rest = subrange_chars(&v, pos, v.len());
            assert(rest@ =~= v@.skip(pos as int));
            let semi = first_index(&rest, ';');
            let end: usize = match semi {
                Some(i) => i,
                None => rest.len(),
            };
            let part = subrange_chars(&rest, 0, end);
            assert(part@ =~= rest@.take(end as int));
            if semi.is_none() {
                assert(part@ =~= rest@);
            }
            match Self::step(&part, freq, interval) {
                None => {
                    assert(rule_step(part@, (freq, interval)) is None);
                    return None;
                },
                Some((f, n)) => {
                    freq = f;
                    interval = n;
                },
            }
            match semi {
                None => {
                    assert(part@ =~= rest@);
                    break ;
                },
                Some(i) => {
                    assert(rest@.skip(i + 1) =~= v@.skip(pos + i + 1));
                    pos = pos + i + 1;
                },
            }
        }
        match freq {
            Some(f) => Some(Self::new(f, interval)),
            None => None,
        }
    }

    /// One step of [`Recurrence::from_rule`] (see [`rule_step`]).
    fn step(part: &Vec<char>, freq: Option<Freq>, interval: u32) -> (r: Option<RuleState>)
        ensures
            r == rule_step(part@, (freq, interval)),
    {
        let p = trim_chars(part);
        if p.len() == 0 {
            return Some((freq, interval));
        }
        match first_index(&p, '=') {
            None => None,
            Some(i) => {
                let kraw = subrange_chars(&p, 0, i);
                assert(kraw@ =~= p@.take(i as int));
                let k = to_ascii_upper(&trim_chars(&kraw));
                let vraw = subrange_chars(&p, i + 1, p.len());
                assert(vraw@ =~= p@.skip(i + 1));
                let val = trim_chars(&vraw);
                if chars_eq_str(&k, "FREQ") {
                    Some((Freq::from_rule(&val), interval))
                } else if chars_eq_str(&k, "INTERVAL") {
                    match parse_u32_chars(&val) {
                        Some(n) => Some((freq, n)),
                        None => None,
                    }
                } else {
                    Some((freq, interval))
                }
            },
        }
    }
}

/// The rule text of a frequency is upper-case ASCII letters and reads back
/// as the same frequency.
proof fn lemma_freq_text(f: Freq)
    ensures
        freq_text(f).len() > 0,
        forall|i: int| 0 <= i < freq_text(f).len() ==> 'A' <= #[trigger] freq_text(f)[i] <= 'Z',
        freq_from_text(freq_text(f)) == Some(f),
{
    reveal_strlit("DAILY");
    reveal_strlit("WEEKLY");
    reveal_strlit("MONTHLY");
    reveal_strlit("YEARLY");
    let t = freq_text(f);
    assert forall|i: int| 0 <= i < t.len() implies !('a' <= #[trigger] t[i] <= 'z') by {}
    crate::text::lemma_upper_id(t);
    assert("DAILY"@.len() == 5 && "WEEKLY"@.len() == 6 && "MONTHLY"@.len() == 7);
    assert("YEARLY"@.len() == 6 && "WEEKLY"@[0] != "YEARLY"@[0]);
}

/// `rule_step` on `KEY=value` where neither side needs trimming.
proof fn lemma_step_key_value(key: Seq<char>, val: Seq<char>, st: RuleState)
    requires
        key.len() > 0,
        val.len() > 0,
        forall|i: int| 0 <= i < key.len() ==> 'A' <= #[trigger] key[i] <= 'Z',
        !is_ws(val[0]),
        !is_ws(val.last()),
        forall|i: int| 0 <= i < val.len() ==> #[trigger] val[i] != '=',
    ensures
        rule_step(key + seq!['='] + val, st) == (if key == "FREQ"@ {
            Some((freq_from_text(val), st.1))
        } else if key == "INTERVAL"@ {
            match parse_u32(val) {
                Some(n) => Some((st.0, n)),
                None => None,
            }
        } else {
            Some(st)
        }),
{
    let p = key + seq!['='] + val;
    crate::text::lemma_trim_id(p);
    crate::text::lemma_first_index_of(p, '=', key.len() as int);
    assert(p.take(key.len() as int) =~= key);
    assert(p.skip(key.len() as int + 1) =~= val);
    crate::text::lemma_trim_id(key);
    crate::text::lemma_trim_id(val);
    assert forall|i: int| 0 <= i < key.len() implies !('a' <= #[trigger] key[i] <= 'z') by {}
    crate::text::lemma_upper_id(key);
}

/// Reading back the stored text of a rule gives the rule.
pub proof fn lemma_rule_roundtrip(r: Recurrence)
    requires
        r.interval >= 1,
    ensures
        rule_parse(rule_text(r)) == Some(r),
{
    reveal_strlit("FREQ=");
    reveal_strlit("FREQ");
    reveal_strlit(";INTERVAL=");
    reveal_strlit("INTERVAL");
    let f = freq_text(r.freq);
    lemma_freq_text(r.freq);
    let freq_part = "FREQ"@ + seq!['='] + f;
    assert("FREQ="@ + f =~= freq_part);
    assert forall|i: int| 0 <= i < f.len() implies #[trigger] f[i] != '=' by {}
    assert forall|i: int| 0 <= i < "FREQ"@.len() implies 'A' <= #[trigger] "FREQ"@[i] <= 'Z' by {}
    lemma_step_key_value("FREQ"@, f, (None, 1));
    assert forall|i: int| 0 <= i < freq_part.len() implies #[trigger] freq_part[i] != ';' by {
        if i >= 5 {
            assert(freq_part[i] == f[i - 5]);
        }
    }
    if r.interval <= 1 {
        assert(rule_text(r) == freq_part);
        crate::text::lemma_first_index_of(freq_part, ';', freq_part.len() as int);
        assert(rule_step(freq_part, (None, 1)) == Some((Some(r.freq), 1u32)));
        assert(rule_scan(freq_part, (None, 1)) == Some((Some(r.freq), 1u32)));
    } else {
        let d = dec(r.interval as nat);
        crate::text::lemma_dec_chars(r.interval as nat);
        crate::text::lemma_parse_dec_u32(r.interval);
        let int_part = "INTERVAL"@ + seq!['='] + d;
        let t = freq_part + seq![';'] + int_part;
        assert(rule_text(r) =~= t);
        crate::text::lemma_first_index_of(t, ';', freq_part.len() as int);
        assert(t.take(freq_part.len() as int) =~= freq_part);
        assert(t.skip(freq_part.len() as int + 1) =~= int_part);
        assert forall|i: int| 0 <= i < d.len() implies #[trigger] d[i] != '=' by {}
        assert forall|i: int| 0 <= i < "INTERVAL"@.len() implies 'A' <= #[trigger] "INTERVAL"@[i]
            <= 'Z' by {}
        assert("INTERVAL"@ != "FREQ"@);
        lemma_step_key_value("INTERVAL"@, d, (Some(r.freq), 1));
        assert forall|i: int| 0 <= i < int_part.len() implies #[trigger] int_part[i] != ';' by {
            if i >= 9 {
                assert(int_part[i] == d[i - 9]);
            }
        }
        crate::text::lemma_first_index_of(int_part, ';', int_part.len() as int);
        assert(rule_step(int_part, (Some(r.freq), 1)) == Some((Some(r.freq), r.interval)));
        assert(rule_scan(int_part, (Some(r.freq), 1)) == Some((Some(r.freq), r.interval)));
        assert(rule_step(freq_part, (None, 1)) == Some((Some(r.freq), 1u32)));
        assert(rule_scan(t, (None, 1)) == Some((Some(r.freq), r.interval)));
    }
}

/// A task as read from the store.
#[derive(Clone, Debug)]
pub struct Task {
    pub id: TaskId,
    pub title: String,
    pub notes: Option<String>,
    pub status: Status,
    pub urgent: bool,
    pub important: bool,
    pub project_id: Option<ProjectId>,
    pub parent_id: Option<TaskId>,
    pub due_date: Option<Date>,
    pub scheduled_date: Option<Date>,
    pub recurrence: Option<Recurrence>,
    pub position: i64,
    pub created_at: Timestamp,
    pub updated_at: Timestamp,
    pub completed_at: Option<Timestamp>,
    /// Path of the linked local git repository (auto-complete by commit).
    pub repo_path: Option<String>,
    /// Keyword looked for in new commit messages.
    pub repo_keyword: Option<String>,
    /// Hash of HEAD when the repository was linked.
    pub repo_base_commit: Option<String>,
}

/// A copy of an optional string.
pub fn copy_opt_string(o: &Option<String>) -> (r: Option<String>)
    ensures
        r == *o,
{
    match o {
        Some(s) => Some(s.clone()),
        None => None,
    }
}

impl Task {
    /// A field-by-field copy.
    pub fn duplicate(&self) -> (r: Task)
        ensures
            r == *self,
    {
        Task {
            id: self.id,
            title: self.title.clone(),
            notes: copy_opt_string(&self.notes),
            status: self.status,
            urgent: self.urgent,
            important: self.important,
            project_id: self.project_id,
            parent_id: self.parent_id,
            due_date: self.due_date,
            scheduled_date: self.scheduled_date,
            recurrence: self.recurrence,
            position: self.position,
            created_at: self.created_at,
            updated_at: self.updated_at,
            completed_at: self.completed_at,
            repo_path: copy_opt_string(&self.repo_path),
            repo_keyword: copy_opt_string(&self.repo_keyword),
            repo_base_commit: copy_opt_string(&self.repo_base_commit),
        }
    }
}

/// A draft for creating a task; the store assigns the id and timestamps.
#[derive(Clone, Debug)]
pub struct NewTask {
    pub title: String,
    pub notes: Option<String>,
    pub status: Status,
    pub urgent: bool,
    pub important: bool,
    pub project_id: Option<ProjectId>,
    pub parent_id: Option<TaskId>,
    pub due_date: Option<Date>,
    pub scheduled_date: Option<Date>,
    pub recurrence: Option<Recurrence>,
    pub position: i64,
}

impl NewTask {
    /// A draft with the given title and every other field at its default
    /// (status `Todo`, no flags, no dates, position 0).
    pub fn new(title: &str) -> (r: NewTask)
        ensures
            r.title@ == title@,
            r.notes is None,
            r.status == Status::Todo,
            !r.urgent,
            !r.important,
            r.project_id is None,
            r.parent_id is None,
            r.due_date is None,
            r.scheduled_date is None,
            r.recurrence is None,
            r.position == 0,
    {
        NewTask {
            title: owned(title),
            notes: None,
            status: Status::Todo,
            urgent: false,
            important: false,
            project_id: None,
            parent_id: None,
            due_date: None,
            scheduled_date: None,
            recurrence: None,
            position: 0,
        }
    }

    /// Sets the notes.
    pub fn notes(self, n: &str) -> (r: NewTask)
        ensures
            r.notes matches Some(x) && x@ == n@,
            r == (NewTask { notes: r.notes, ..self }),
    {
        NewTask { notes: Some(owned(n)), ..self }
    }

    /// Sets the status.
    pub fn status(self, s: Status) -> (r: NewTask)
        ensures
            r == (NewTask { status: s, ..self }),
    {
        NewTask { status: s, ..self }
    }

    /// Sets the project.
    pub fn project(self, id: ProjectId) -> (r: NewTask)
        ensures
            r == (NewTask { project_id: Some(id), ..self }),
    {
        NewTask { project_id: Some(id), ..self }
    }

    /// Sets the parent task.
    pub fn parent(self, id: TaskId) -> (r: NewTask)
        ensures
            r == (NewTask { parent_id: Some(id), ..self }),
    {
        NewTask { parent_id: Some(id), ..self }
    }

    /// Sets the urgent flag.
    pub fn urgent(self, v: bool) -> (r: NewTask)
        ensures
            r == (NewTask { urgent: v, ..self }),
    {
        NewTask { urgent: v, ..self }
    }

    /// Sets the important flag.
    pub fn important(self, v: bool) -> (r: NewTask)
        ensures
            r == (NewTask { important: v, ..self }),
    {
        NewTask { important: v, ..self }
    }

    /// Sets the due date.
    pub fn due(self, d: Date) -> (r: NewTask)
        ensures
            r == (NewTask { due_date: Some(d), ..self }),
    {
        NewTask { due_date: Some(d), ..self }
    }

    /// Sets the scheduled date.
    pub fn scheduled(self, d: Date) -> (r: NewTask)
        ensures
            r == (NewTask { scheduled_date: Some(d), ..self }),
    {
        NewTask { scheduled_date: Some(d), ..self }
    }

    /// Sets the recurrence.
    pub fn recurring(self, rec: Recurrence) -> (r: NewTask)
        ensures
            r == (NewTask { recurrence: Some(rec), ..self }),
    {
        NewTask { recurrence: Some(rec), ..self }
    }

    /// Sets the position.
    pub fn position(self, p: i64) -> (r: NewTask)
        ensures
            r == (NewTask { position: p, ..self }),
    {
        NewTask { position: p, ..self }
    }
}

} // verus!
