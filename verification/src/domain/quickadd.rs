//! Quick-add parser in the style of todo.txt.
//!
//! `Comprar café +casa @errand !hoy #compras` gives the title
//! "Comprar café", project "casa", tags ["errand", "compras"] and a due date
//! of today. Token prefixes: `+` project, `@`/`#` tag or context, `!` date
//! (`hoy`/`mañana`/`YYYY-MM-DD`), `~` recurrence; the other words form the
//! title.

use vstd::prelude::*;

use crate::date::{spec_parse_iso_date, Date, MAX_DAYS};
use crate::text::{
    chars_eq, chars_eq_str, chars_of, copy_chars, drop_first_char, lower_seq, parse_u32,
    parse_u32_chars, split_whitespace, string_of, subrange_chars, to_ascii_lower, words,
};

use super::task::{recurrence_spec, Freq, Recurrence};

verus! {

/// The result of parsing a quick-add line.
#[derive(Clone, Debug)]
pub struct ParsedQuickAdd {
    pub title: String,
    pub project: Option<String>,
    pub tags: Vec<String>,
    pub due: Option<Date>,
    pub recurrence: Option<Recurrence>,
}

// ---------------------------------------------------------------------------
// Specification
// ---------------------------------------------------------------------------

/// Is `s` one of the words in `ws`?
pub open spec fn one_of(s: Seq<char>, ws: Seq<Seq<char>>) -> bool {
    exists|i: int| 0 <= i < ws.len() && ws[i] == s
}

/// Is `c` an ASCII letter?
pub open spec fn is_ascii_alpha(c: char) -> bool {
    ('a' <= c <= 'z') || ('A' <= c <= 'Z')
}

/// Index of the first ASCII letter in `s`.
pub open spec fn first_alpha(s: Seq<char>) -> Option<int>
    decreases s.len(),
{
    if s.len() == 0 {
        None
    } else if is_ascii_alpha(s[0]) {
        Some(0)
    } else {
        match first_alpha(s.drop_first()) {
            Some(i) => Some(i + 1),
            None => None,
        }
    }
}

/// The frequency named by a unit letter of the compact form.
pub open spec fn unit_freq(u: Seq<char>) -> Option<Freq> {
    if u == "d"@ {
        Some(Freq::Daily)
    } else if u == "w"@ {
        Some(Freq::Weekly)
    } else if u == "m"@ {
        Some(Freq::Monthly)
    } else if u == "y"@ {
        Some(Freq::Yearly)
    } else {
        None
    }
}

/// What the text after `~` means: a word (`daily`, `semanal`, ...) or the
/// compact form `N[dwmy]` (`2w` is every two weeks), read in ASCII lower
/// case.
pub open spec fn recurrence_token_spec(s: Seq<char>) -> Option<Recurrence> {
    let l = lower_seq(s);
    if one_of(l, seq!["daily"@, "diaria"@, "diario"@, "d"@]) {
        Some(recurrence_spec(Freq::Daily, 1))
    } else if one_of(l, seq!["weekly"@, "semanal"@, "w"@]) {
        Some(recurrence_spec(Freq::Weekly, 1))
    } else if one_of(l, seq!["monthly"@, "mensual"@, "m"@]) {
        Some(recurrence_spec(Freq::Monthly, 1))
    } else if one_of(l, seq!["yearly"@, "anual"@, "y"@]) {
        Some(recurrence_spec(Freq::Yearly, 1))
    } else {
        match first_alpha(l) {
            None => None,
            Some(i) => match parse_u32(l.take(i)) {
                None => None,
                Some(n) => match unit_freq(l.skip(i)) {
                    Some(f) => Some(recurrence_spec(f, n)),
                    None => None,
                },
            },
        }
    }
}

/// The day number that the text after `!` names, from day `today`: `hoy` or
/// `today`, `manana`/`mañana`/`tomorrow` (ASCII case ignored), else an ISO
/// date.
pub open spec fn date_token_spec(s: Seq<char>, today: int) -> Option<int> {
    let l = lower_seq(s);
    if one_of(l, seq!["hoy"@, "today"@]) {
        Some(today)
    } else if one_of(l, seq!["manana"@, "mañana"@, "tomorrow"@]) {
        if today < MAX_DAYS {
            Some(today + 1)
        } else {
            None
        }
    } else {
        spec_parse_iso_date(s)
    }
}

/// Does the token carry the marker `c`?
pub open spec fn marked(t: Seq<char>, c: char) -> bool {
    t.len() > 0 && t[0] == c
}

/// Is the token a tag (`@` or `#`)?
pub open spec fn is_tag_token(t: Seq<char>) -> bool {
    marked(t, '@') || marked(t, '#')
}

/// Is the token part of the title (no marker)?
pub open spec fn is_plain(t: Seq<char>) -> bool {
    !marked(t, '+') && !is_tag_token(t) && !marked(t, '!') && !marked(t, '~')
}

/// The title words among `toks`, in order.
pub open spec fn title_words(toks: Seq<Seq<char>>) -> Seq<Seq<char>>
    decreases toks.len(),
{
    if toks.len() == 0 {
        Seq::empty()
    } else {
        let rest = title_words(toks.drop_last());
        if is_plain(toks.last()) {
            rest.push(toks.last())
        } else {
            rest
        }
    }
}

/// The last non-empty project name (`+name`) among `toks`.
pub open spec fn last_project(toks: Seq<Seq<char>>) -> Option<Seq<char>>
    decreases toks.len(),
{
    if toks.len() == 0 {
        None
    } else if marked(toks.last(), '+') && toks.last().len() > 1 {
        Some(toks.last().drop_first())
    } else {
        last_project(toks.drop_last())
    }
}

/// The non-empty tag names among `toks`, in order, repeats kept.
pub open spec fn raw_tags(toks: Seq<Seq<char>>) -> Seq<Seq<char>>
    decreases toks.len(),
{
    if toks.len() == 0 {
        Seq::empty()
    } else {
        let rest = raw_tags(toks.drop_last());
        if is_tag_token(toks.last()) && toks.last().len() > 1 {
            rest.push(toks.last().drop_first())
        } else {
            rest
        }
    }
}

/// `s` with later repeats removed, first occurrences in order.
pub open spec fn dedup(s: Seq<Seq<char>>) -> Seq<Seq<char>>
    decreases s.len(),
{
    if s.len() == 0 {
        Seq::empty()
    } else {
        let d = dedup(s.drop_last());
        if d.contains(s.last()) {
            d
        } else {
            d.push(s.last())
        }
    }
}

/// The title carries no markers: every title word is a word of the line
/// without `+`, `@`, `#`, `!` or `~` in front.
pub proof fn law_title_words_plain(toks: Seq<Seq<char>>)
    ensures
        forall|i: int| 0 <= i < title_words(toks).len() ==> is_plain(#[trigger] title_words(toks)[i]),
        forall|i: int| 0 <= i < title_words(toks).len() ==> toks.contains(#[trigger] title_words(toks)[i]),
    decreases toks.len(),
{
    if toks.len() > 0 {
        let p = toks.drop_last();
        law_title_words_plain(p);
        assert forall|i: int| 0 <= i < title_words(toks).len() implies toks.contains(#[trigger] title_words(toks)[i]) by {
            let w = title_words(toks)[i];
            if i < title_words(p).len() {
                assert(title_words(p)[i] == w);
                assert(p.contains(w));
                let j = choose|j: int| 0 <= j < p.len() && p[j] == w;
                assert(toks[j] == w);
            } else {
                assert(toks[toks.len() - 1] == w);
            }
        }
    }
}

/// The test for a word without a marker.
pub open spec fn unmarked() -> spec_fn(Seq<char>) -> bool {
    |t: Seq<char>| is_plain(t)
}

/// Every word without a marker goes to the title: the title words are
/// exactly the unmarked words of the line, all of them, in order.
pub proof fn law_title_words_are_unmarked_words(toks: Seq<Seq<char>>)
    ensures
        title_words(toks) == toks.filter(unmarked()),
        forall|i: int| 0 <= i < toks.len() && is_plain(toks[i]) ==> title_words(toks).contains(#[trigger] toks[i]),
    decreases toks.len(),
{
    if toks.len() == 0 {
        reveal(Seq::filter);
    } else {
        let p = toks.drop_last();
        law_title_words_are_unmarked_words(p);
        assert(unmarked()(toks.last()) == is_plain(toks.last()));
        reveal(Seq::filter);
        assert(title_words(toks) == toks.filter(unmarked()));
        assert forall|i: int| 0 <= i < toks.len() && is_plain(toks[i]) implies title_words(toks).contains(#[trigger] toks[i]) by {
            if i < p.len() {
                assert(p[i] == toks[i]);
                assert(title_words(p).contains(p[i]));
                let j = choose|j: int| 0 <= j < title_words(p).len() && title_words(p)[j] == p[i];
                assert(title_words(toks)[j] == toks[i]);
            } else {
                assert(title_words(toks)[title_words(toks).len() - 1] == toks[i]);
            }
        }
    }
}

/// The tags of a quick-add line are kept once each: the deduplicated list
/// has no repeats and holds exactly the names of the raw list.
pub proof fn law_tags_once(s: Seq<Seq<char>>)
    ensures
        dedup(s).no_duplicates(),
        forall|x: Seq<char>| #[trigger] dedup(s).contains(x) <==> s.contains(x),
    decreases s.len(),
{
    if s.len() > 0 {
        let p = s.drop_last();
        law_tags_once(p);
        let d = dedup(p);
        if !d.contains(s.last()) {
            assert forall|i: int, j: int| 0 <= i < dedup(s).len() && 0 <= j < dedup(s).len() && i != j
                implies dedup(s)[i] != dedup(s)[j] by {
                if i == d.len() {
                    assert(d[j] == dedup(s)[j]);
                } else if j == d.len() {
                    assert(d[i] == dedup(s)[i]);
                }
            }
        }
        assert forall|x: Seq<char>| #[trigger] dedup(s).contains(x) <==> s.contains(x) by {
            if s.contains(x) {
                let k = choose|k: int| 0 <= k < s.len() && s[k] == x;
                if k < s.len() - 1 {
                    assert(p[k] == x);
                    assert(p.contains(x));
                    assert(d.contains(x));
                    let i = choose|i: int| 0 <= i < d.len() && d[i] == x;
                    assert(dedup(s)[i] == x);
                } else if !d.contains(x) {
                    assert(dedup(s)[d.len() as int] == x);
                }
                assert(dedup(s).contains(x));
            }
            if dedup(s).contains(x) {
                let k = choose|k: int| 0 <= k < dedup(s).len() && dedup(s)[k] == x;
                if k < d.len() {
                    assert(d[k] == x);
                    assert(d.contains(x));
                    assert(p.contains(x));
                    let j = choose|j: int| 0 <= j < p.len() && p[j] == x;
                    assert(s[j] == x);
                } else {
                    assert(s[s.len() - 1] == x);
                }
            }
        }
    }
}

/// The last recognised date among the `!` tokens, as a day number.
pub open spec fn last_due(toks: Seq<Seq<char>>, today: int) -> Option<int>
    decreases toks.len(),
{
    if toks.len() == 0 {
        None
    } else if marked(toks.last(), '!') && date_token_spec(toks.last().drop_first(), today) is Some {
        date_token_spec(toks.last().drop_first(), today)
    } else {
        last_due(toks.drop_last(), today)
    }
}

/// The last recognised rule among the `~` tokens.
pub open spec fn last_recurrence(toks: Seq<Seq<char>>) -> Option<Recurrence>
    decreases toks.len(),
{
    if toks.len() == 0 {
        None
    } else if marked(toks.last(), '~') && recurrence_token_spec(toks.last().drop_first()) is Some {
        recurrence_token_spec(toks.last().drop_first())
    } else {
        last_recurrence(toks.drop_last())
    }
}

/// Words joined with single spaces.
pub open spec fn join_spaces(ws: Seq<Seq<char>>) -> Seq<char>
    decreases ws.len(),
{
    if ws.len() == 0 {
        Seq::empty()
    } else if ws.len() == 1 {
        ws[0]
    } else {
        join_spaces(ws.drop_last()) + seq![' '] + ws.last()
    }
}

/// The character views of a vector of character vectors.
pub open spec fn views(v: Seq<Vec<char>>) -> Seq<Seq<char>> {
    Seq::new(v.len(), |i: int| v[i]@)
}

/// The character views of a vector of strings.
pub open spec fn string_views(v: Seq<String>) -> Seq<Seq<char>> {
    Seq::new(v.len(), |i: int| v[i]@)
}

// ---------------------------------------------------------------------------
// Implementation
// ---------------------------------------------------------------------------

fn is_one_of(l: &Vec<char>, a: &str, b: &str, c: &str, d: &str) -> (r: bool)
    ensures
        r == one_of(l@, seq![a@, b@, c@, d@]),
{
    let r = chars_eq_str(l, a) || chars_eq_str(l, b) || chars_eq_str(l, c) || chars_eq_str(l, d);
    proof {
        let ws = seq![a@, b@, c@, d@];
        if r {
            if l@ == a@ {
                assert(ws[0] == l@);
            } else if l@ == b@ {
                assert(ws[1] == l@);
            } else if l@ == c@ {
                assert(ws[2] == l@);
            } else {
                assert(ws[3] == l@);
            }
        }
    }
    r
}

fn is_one_of3(l: &Vec<char>, a: &str, b: &str, c: &str) -> (r: bool)
    ensures
        r == one_of(l@, seq![a@, b@, c@]),
{
    let r = chars_eq_str(l, a) || chars_eq_str(l, b) || chars_eq_str(l, c);
    proof {
        let ws = seq![a@, b@, c@];
        if r {
            if l@ == a@ {
                assert(ws[0] == l@);
            } else if l@ == b@ {
                assert(ws[1] == l@);
            } else {
                assert(ws[2] == l@);
            }
        }
    }
    r
}

fn is_one_of2(l: &Vec<char>, a: &str, b: &str) -> (r: bool)
    ensures
        r == one_of(l@, seq![a@, b@]),
{
    let r = chars_eq_str(l, a) || chars_eq_str(l, b);
    proof {
        let ws = seq![a@, b@];
        if r {
            if l@ == a@ {
                assert(ws[0] == l@);
            } else {
                assert(ws[1] == l@);
            }
        }
    }
    r
}

proof fn lemma_first_alpha(s: Seq<char>, i: int)
    requires
        0 <= i <= s.len(),
        forall|k: int| 0 <= k < i ==> !is_ascii_alpha(s[k]),
    ensures
        i < s.len() && is_ascii_alpha(s[i]) ==> first_alpha(s) == Some(i),
        i == s.len() ==> first_alpha(s) is None,
    decreases i,
{
    if i > 0 {
        lemma_first_alpha(s.drop_first(), i - 1);
    }
}

/// Parses the text after `~`.
pub fn parse_recurrence_token(s: &Vec<char>) -> (r: Option<Recurrence>)
    ensures
        r == recurrence_token_spec(s@),
{
    let l = to_ascii_lower(s);
    if is_one_of(&l, "daily", "diaria", "diario", "d") {
        return Some(Recurrence::new(Freq::Daily, 1));
    }
    if is_one_of3(&l, "weekly", "semanal", "w") {
        return Some(Recurrence::new(Freq::Weekly, 1));
    }
    if is_one_of3(&l, "monthly", "mensual", "m") {
        return Some(Recurrence::new(Freq::Monthly, 1));
    }
    if is_one_of3(&l, "yearly", "anual", "y") {
        return Some(Recurrence::new(Freq::Yearly, 1));
    }
    let mut i: usize = 0;
    while i < l.len() && !(('a' <= l[i] && l[i] <= 'z') || ('A' <= l[i] && l[i] <= 'Z'))
        invariant
            i <= l.len(),
            forall|k: int| 0 <= k < i ==> !is_ascii_alpha(l@[k]),
        decreases l.len() - i,
    {
        i = i + 1;
    }
    proof {
        lemma_first_alpha(l@, i as int);
    }
    if i == l.len() {
        return None;
    }
    let num = subrange_chars(&l, 0, i);
    assert(num@ =~= l@.take(i as int));
    let interval = match parse_u32_chars(&num) {
        Some(n) => n,
        None => {
            return None;
        },
    };
    let unit = subrange_chars(&l, i, l.len());
    assert(unit@ =~= l@.skip(i as int));
    let freq = if chars_eq_str(&unit, "d") {
        Freq::Daily
    } else if chars_eq_str(&unit, "w") {
        Freq::Weekly
    } else if chars_eq_str(&unit, "m") {
        Freq::Monthly
    } else if chars_eq_str(&unit, "y") {
        Freq::Yearly
    } else {
        return None;
    };
    Some(Recurrence::new(freq, interval))
}

/// Parses the text after `!` relative to `today`.
pub fn parse_date_token(s: &Vec<char>, today: Date) -> (r: Option<Date>)
    ensures
        match r {
            Some(d) => date_token_spec(s@, today@) == Some(d@),
            None => date_token_spec(s@, today@) is None,
        },
{
    let l = to_ascii_lower(s);
    if is_one_of2(&l, "hoy", "today") {
        Some(today)
    } else if is_one_of3(&l, "manana", "mañana", "tomorrow") {
        today.succ_opt()
    } else {
        let text = string_of(s);
        Date::parse_iso(text.as_str())
    }
}

/// Is `x` among the first entries of `list`?
fn contains_word(list: &Vec<Vec<char>>, x: &Vec<char>) -> (r: bool)
    ensures
        r == views(list@).contains(x@),
{
    let mut i: usize = 0;
    while i < list.len()
        invariant
            i <= list.len(),
            forall|k: int| 0 <= k < i ==> list@[k]@ != x@,
        decreases list.len() - i,
    {
        if chars_eq(&list[i], x) {
            assert(views(list@)[i as int] == x@);
            return true;
        }
        i = i + 1;
    }
    assert forall|k: int| 0 <= k < views(list@).len() implies views(list@)[k] != x@ by {}
    false
}

/// Joins words with single spaces.
fn join_words(ws: &Vec<Vec<char>>) -> (r: Vec<char>)
    ensures
        r@ == join_spaces(views(ws@)),
{
    let mut r: Vec<char> = Vec::new();
    let mut i: usize = 0;
    while i < ws.len()
        invariant
            i <= ws.len(),
            r@ == join_spaces(views(ws@).take(i as int)),
        decreases ws.len() - i,
    {
        let ghost before = views(ws@).take(i as int);
        let ghost after = views(ws@).take(i + 1);
        assert(after.drop_last() =~= before);
        if i > 0 {
            r.push(' ');
        }
        crate::text::extend_chars(&mut r, &ws[i]);
        proof {
            if i == 0 {
                assert(r@ =~= after[0]);
            } else {
                assert(r@ =~= join_spaces(before) + seq![' '] + after.last());
            }
        }
        i = i + 1;
    }
    assert(views(ws@).take(ws.len() as int) =~= views(ws@));
    r
}

/// Strings from character vectors.
fn strings_of(ws: &Vec<Vec<char>>) -> (r: Vec<String>)
    ensures
        string_views(r@) == views(ws@),
{
    let mut r: Vec<String> = Vec::new();
    let mut i: usize = 0;
    while i < ws.len()
        invariant
            i <= ws.len(),
            r@.len() == i,
            string_views(r@) == views(ws@).take(i as int),
        decreases ws.len() - i,
    {
        let s = string_of(&ws[i]);
        let ghost old_r = r@;
        assert(old_r.len() == i);
        r.push(s);
        assert(r@ == old_r.push(s));
        assert(string_views(r@) =~= views(ws@).take(i + 1));
        i = i + 1;
    }
    assert(views(ws@).take(ws.len() as int) =~= views(ws@));
    r
}

/// Parses a quick-add line, with `today` as the reference for relative
/// dates. Later `+project`, `!date` and `~rule` markers win over earlier
/// ones; markers with nothing after them and unrecognised dates or rules
/// are dropped without reaching the title; repeated tags are kept once, in
/// order of first appearance.
pub fn parse_quick_add(input: &str, today: Date) -> (p: ParsedQuickAdd)
    ensures
        p.title@ == join_spaces(title_words(words(input@))),
        match p.project {
            Some(x) => last_project(words(input@)) == Some(x@),
            None => last_project(words(input@)) is None,
        },
        string_views(p.tags@) == dedup(raw_tags(words(input@))),
        match p.due {
            Some(d) => last_due(words(input@), today@) == Some(d@),
            None => last_due(words(input@), today@) is None,
        },
        p.recurrence == last_recurrence(words(input@)),
{
    let toks = split_whitespace(input);
    let ghost ts = words(input@);
    assert(views(toks@) =~= ts);
    let mut title_parts: Vec<Vec<char>> = Vec::new();
    let mut project: Option<Vec<char>> = None;
    let mut tags: Vec<Vec<char>> = Vec::new();
    let mut due: Option<Date> = None;
    let mut recurrence: Option<Recurrence> = None;
    let mut k: usize = 0;
    while k < toks.len()
        invariant
            k <= toks.len(),
            views(toks@) == ts,
            ts == words(input@),
            views(title_parts@) == title_words(ts.take(k as int)),
            match project {
                Some(x) => last_project(ts.take(k as int)) == Some(x@),
                None => last_project(ts.take(k as int)) is None,
            },
            views(tags@) == dedup(raw_tags(ts.take(k as int))),
            match due {
                Some(d) => last_due(ts.take(k as int), today@) == Some(d@),
                None => last_due(ts.take(k as int), today@) is None,
            },
            recurrence == last_recurrence(ts.take(k as int)),
        decreases toks.len() - k,
    {
        let tok = &toks[k];
        let ghost pre = ts.take(k as int);
        let ghost cur = ts.take(k + 1);
        assert(cur.drop_last() =~= pre);
        assert(cur.last() == tok@);
        if tok.len() > 0 && tok[0] == '+' {
            if tok.len() > 1 {
                project = Some(drop_first_char(tok));
            }
            assert(title_words(cur) =~= title_words(pre));
            assert(raw_tags(cur) =~= raw_tags(pre));
        } else if tok.len() > 0 && (tok[0] == '@' || tok[0] == '#') {
            if tok.len() > 1 {
                let name = drop_first_char(tok);
                assert(raw_tags(cur) == raw_tags(pre).push(name@));
                assert(raw_tags(pre).push(name@).drop_last() =~= raw_tags(pre));
                if !contains_word(&tags, &name) {
                    let ghost old_tags = tags@;
                    tags.push(name);
                    assert(views(tags@) =~= views(old_tags).push(name@));
                }
            } else {
                assert(raw_tags(cur) == raw_tags(pre));
            }
            assert(title_words(cur) =~= title_words(pre));
        } else if tok.len() > 0 && tok[0] == '!' {
            let rest = drop_first_char(tok);
            match parse_date_token(&rest, today) {
                Some(d) => {
                    due = Some(d);
                },
                None => {},
            }
            assert(title_words(cur) =~= title_words(pre));
            assert(raw_tags(cur) =~= raw_tags(pre));
        } else if tok.len() > 0 && tok[0] == '~' {
            let rest = drop_first_char(tok);
            match parse_recurrence_token(&rest) {
                Some(r) => {
                    recurrence = Some(r);
                },
                None => {},
            }
            assert(title_words(cur) =~= title_words(pre));
            assert(raw_tags(cur) =~= raw_tags(pre));
        } else {
            title_parts.push(copy_chars(tok));
            assert(views(title_parts@) =~= title_words(pre).push(tok@));
            assert(raw_tags(cur) =~= raw_tags(pre));
        }
        k = k + 1;
    }
    assert(ts.take(toks.len() as int) =~= ts);
    let title_chars = join_words(&title_parts);
    ParsedQuickAdd {
        title: string_of(&title_chars),
        project: match project {
            Some(x) => Some(string_of(&x)),
            None => None,
        },
        tags: strings_of(&tags),
        due,
        recurrence,
    }
}

} // verus!
