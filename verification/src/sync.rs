//! Markdown export of the task state (one file per project plus
//! `inbox.md`, in a deterministic order for clean diffs) and the decisions
//! around committing, pushing and pulling it with git.

use std::collections::HashMap;

use vstd::prelude::*;

use crate::date::date_text;
use crate::domain::order::{sort_stable, stable_sorted, TaskOrder};
use crate::domain::project::Project;
use crate::domain::tag::Tag;
use crate::domain::task::{rule_text, Status, Task};
use crate::store::keyed::keep_seq;
use crate::text::{
    contains_seq,
    chars_eq_str, chars_lt, chars_of, extend_chars, extend_str, is_whitespace, lemma_seq_lt_total,
    lemma_seq_lt_trans, lines_of, seq_lt, string_of, trim, trim_chars, trim_str,
};

verus! {

// ---------------------------------------------------------------------------
// File names
// ---------------------------------------------------------------------------

/// What `char::is_alphanumeric` gives (Unicode `Alphabetic` or `Numeric`).
pub uninterp spec fn spec_is_alphanumeric(c: char) -> bool;

/// `char::is_alphanumeric`; the contract names its result.
#[verifier::external_body]
fn is_alphanumeric(c: char) -> (r: bool)
    ensures
        r == spec_is_alphanumeric(c),
{
    c.is_alphanumeric()
}

/// A character kept in file names: alphanumerics, `-`, `_` and space;
/// anything else becomes `_`.
pub open spec fn name_char(c: char) -> char {
    if spec_is_alphanumeric(c) || c == '-' || c == '_' || c == ' ' {
        c
    } else {
        '_'
    }
}

/// A project name made safe as a file name: characters replaced, trimmed,
/// `proyecto` when nothing is left.
pub open spec fn sanitize_spec(name: Seq<char>) -> Seq<char> {
    let t = trim(Seq::new(name.len(), |i: int| name_char(name[i])));
    if t.len() == 0 {
        "proyecto"@
    } else {
        t
    }
}

/// Is `c` kept in file names: alphanumeric, `-`, `_` or space?
pub open spec fn safe_char(c: char) -> bool {
    spec_is_alphanumeric(c) || c == '-' || c == '_' || c == ' '
}

/// Project file names are never empty, and are made of alphanumerics,
/// `-`, `_` and spaces (or are the fallback `proyecto`).
pub proof fn law_file_names_safe(name: Seq<char>)
    ensures
        sanitize_spec(name).len() > 0,
        sanitize_spec(name) == "proyecto"@ || forall|k: int|
            0 <= k < sanitize_spec(name).len() ==> safe_char(#[trigger] sanitize_spec(name)[k]),
{
    reveal_strlit("proyecto");
    let m = Seq::new(name.len(), |i: int| name_char(name[i]));
    crate::text::lemma_trim_chars_from(m);
    assert forall|k: int| 0 <= k < trim(m).len() implies safe_char(#[trigger] trim(m)[k]) by {
        let c = trim(m)[k];
        assert(m.contains(c));
        let i = choose|i: int| 0 <= i < m.len() && m[i] == c;
        assert(c == name_char(name[i]));
    }
}

/// Makes a project name safe as a file name.
pub fn sanitize(name: &str) -> (r: String)
    ensures
        r@ == sanitize_spec(name@),
{
    let v = chars_of(name);
    let mut m: Vec<char> = Vec::new();
    let mut i: usize = 0;
    while i < v.len()
        invariant
            i <= v@.len(),
            v@ == name@,
            m@ == Seq::new(i as nat, |k: int| name_char(v@[k])),
        decreases v@.len() - i,
    {
        let c = v[i];
        let keep = is_alphanumeric(c) || c == '-' || c == '_' || c == ' ';
        m.push(if keep {
            c
        } else {
            '_'
        });
        i = i + 1;
        assert(m@ =~= Seq::new(i as nat, |k: int| name_char(v@[k])));
    }
    let t = trim_chars(&m);
    if t.len() == 0 {
        string_of(&chars_of("proyecto"))
    } else {
        string_of(&t)
    }
}

// ---------------------------------------------------------------------------
// Rendering
// ---------------------------------------------------------------------------

/// The checkbox mark of a status.
pub open spec fn check_mark(s: Status) -> Seq<char> {
    match s {
        Status::Done => "x"@,
        Status::Cancelled => "-"@,
        _ => " "@,
    }
}

/// ` #name` for each tag, in order.
pub open spec fn tags_text(tags: Seq<Tag>) -> Seq<char>
    decreases tags.len(),
{
    if tags.len() == 0 {
        Seq::empty()
    } else {
        tags_text(tags.drop_last()) + " #"@ + tags.last().name@
    }
}

/// The due-date part of a task line.
pub open spec fn due_part(t: Task) -> Seq<char> {
    match t.due_date {
        Some(d) => " 📅 "@ + date_text(d@),
        None => Seq::empty(),
    }
}

/// The rule part of a task line.
pub open spec fn rule_part(t: Task) -> Seq<char> {
    match t.recurrence {
        Some(r) => " 🔁 "@ + rule_text(r),
        None => Seq::empty(),
    }
}

/// A mark shown when `b` holds.
pub open spec fn flag_part(b: bool, mark: Seq<char>) -> Seq<char> {
    if b {
        mark
    } else {
        Seq::empty()
    }
}

/// The head of a task line: checkbox and title.
pub open spec fn line_head(t: Task) -> Seq<char> {
    "- ["@ + check_mark(t.status) + "] "@ + t.title@
}

/// The Markdown line of a task: checkbox and title, then its due date,
/// rule, urgent and important marks and tags when present.
#[verifier::opaque]
pub open spec fn task_line_spec(t: Task, tags: Seq<Tag>) -> Seq<char> {
    line_head(t) + due_part(t) + rule_part(t) + flag_part(t.urgent, " ⚡"@) + flag_part(
        t.important,
        " ⭐"@,
    ) + tags_text(tags)
}

/// The tags recorded for task `id`.
pub open spec fn tags_of(m: Map<i64, Vec<Tag>>, id: i64) -> Seq<Tag> {
    if m.dom().contains(id) {
        m[id]@
    } else {
        Seq::empty()
    }
}

/// The lines of the tasks, each ended by a newline.
pub open spec fn lines_spec(items: Seq<Task>, m: Map<i64, Vec<Tag>>) -> Seq<char>
    decreases items.len(),
{
    if items.len() == 0 {
        Seq::empty()
    } else {
        lines_spec(items.drop_last(), m) + task_line_spec(items.last(), tags_of(m, items.last().id))
            + "\n"@
    }
}

/// A section: `# title`, a blank line, then the task lines (or a note that
/// there are none).
pub open spec fn section_spec(title: Seq<char>, items: Seq<Task>, m: Map<i64, Vec<Tag>>) -> Seq<char> {
    "# "@ + title + "\n\n"@ + (if items.len() == 0 {
        "_(sin tareas)_\n"@
    } else {
        Seq::empty()
    }) + lines_spec(items, m)
}

/// `n` sits at `i` in `h`.
pub open spec fn sits_at(h: Seq<char>, n: Seq<char>, i: int) -> bool {
    0 <= i && i + n.len() <= h.len() && h.subrange(i, i + n.len()) == n
}

proof fn lemma_sits_contains(h: Seq<char>, n: Seq<char>, i: int)
    requires
        sits_at(h, n, i),
    ensures
        contains_seq(h, n),
{
    assert(h.subrange(i, i + n.len()) == n);
}

proof fn lemma_sits_in(a: Seq<char>, b: Seq<char>, c: Seq<char>, n: Seq<char>, i: int)
    requires
        sits_at(b, n, i),
    ensures
        sits_at(a + b + c, n, a.len() + i),
{
    assert((a + b + c).subrange(a.len() + i, a.len() + i + n.len()) =~= b.subrange(i, i + n.len()));
}

proof fn lemma_sits_whole(n: Seq<char>)
    ensures
        sits_at(n, n, 0),
{
    assert(n.subrange(0, n.len() as int) =~= n);
}

proof fn lemma_sits_trans(h: Seq<char>, m: Seq<char>, n: Seq<char>, i: int, j: int)
    requires
        sits_at(h, m, i),
        sits_at(m, n, j),
    ensures
        sits_at(h, n, i + j),
{
    assert(h.subrange(i + j, i + j + n.len()) =~= m.subrange(j, j + n.len()));
}

proof fn lemma_tags_text_pos(tags: Seq<Tag>, k: int) -> (i: int)
    requires
        0 <= k < tags.len(),
    ensures
        sits_at(tags_text(tags), " #"@ + tags[k].name@, i),
    decreases tags.len(),
{
    let p = tags.drop_last();
    let n = " #"@ + tags[k].name@;
    let last = " #"@ + tags.last().name@;
    assert(tags_text(tags) =~= Seq::<char>::empty() + tags_text(p) + last) by {
        assert(tags_text(tags) == tags_text(p) + " #"@ + tags.last().name@);
    }
    if k < p.len() {
        let j = lemma_tags_text_pos(p, k);
        assert(p[k] == tags[k]);
        lemma_sits_in(Seq::empty(), tags_text(p), last, n, j);
        j
    } else {
        lemma_sits_whole(n);
        lemma_sits_in(tags_text(p), n, Seq::empty(), n, 0);
        assert(tags_text(p) + n + Seq::<char>::empty() =~= tags_text(tags));
        tags_text(p).len() as int
    }
}

/// The mark a line starts with.
pub open spec fn status_mark(s: Status) -> Seq<char> {
    if s == Status::Done {
        "- [x] "@
    } else if s == Status::Cancelled {
        "- [-] "@
    } else {
        "- [ ] "@
    }
}

proof fn lemma_line_head(t: Task)
    ensures
        line_head(t) == status_mark(t.status) + t.title@,
{
    reveal_strlit("- [x] ");
    reveal_strlit("- [-] ");
    reveal_strlit("- [ ] ");
    reveal_strlit("- [");
    reveal_strlit("] ");
    reveal_strlit("x");
    reveal_strlit("-");
    reveal_strlit(" ");
    assert(line_head(t) =~= status_mark(t.status) + t.title@);
}

proof fn lemma_part_in_line(a: Seq<char>, part: Seq<char>, c: Seq<char>, line: Seq<char>)
    requires
        line == a + part + c,
    ensures
        contains_seq(line, part),
{
    lemma_sits_whole(part);
    lemma_sits_in(a, part, c, part, 0);
    lemma_sits_contains(line, part, a.len() as int);
}

/// What a task's line shows: it starts with `- [x] `, `- [-] ` or `- [ ] `
/// (done, cancelled, otherwise) and the title; it shows ` 📅 ` and the due
/// date's text when the task has one, ` 🔁 ` and the stored rule when it
/// recurs, ` ⚡` when urgent, ` ⭐` when important, and ` #name` for each of
/// its tags.
pub proof fn law_task_line_shows(t: Task, tags: Seq<Tag>)
    ensures
        sits_at(task_line_spec(t, tags), status_mark(t.status) + t.title@, 0),
        t.due_date matches Some(d) ==> contains_seq(task_line_spec(t, tags), " 📅 "@ + date_text(d@)),
        t.recurrence matches Some(r) ==> contains_seq(task_line_spec(t, tags), " 🔁 "@ + rule_text(r)),
        t.urgent ==> contains_seq(task_line_spec(t, tags), " ⚡"@),
        t.important ==> contains_seq(task_line_spec(t, tags), " ⭐"@),
        forall|k: int|
            0 <= k < tags.len() ==> contains_seq(task_line_spec(t, tags), #[trigger] (" #"@ + tags[k].name@)),
{
    reveal(task_line_spec);
    lemma_line_head(t);
    lemma_line_parts(
        line_head(t),
        due_part(t),
        rule_part(t),
        flag_part(t.urgent, " ⚡"@),
        flag_part(t.important, " ⭐"@),
        tags_text(tags),
        task_line_spec(t, tags),
    );
    assert forall|k: int| 0 <= k < tags.len() implies contains_seq(
        task_line_spec(t, tags),
        #[trigger] (" #"@ + tags[k].name@),
    ) by {
        let j = lemma_tags_text_pos(tags, k);
        let pre = line_head(t) + due_part(t) + rule_part(t) + flag_part(t.urgent, " ⚡"@) + flag_part(
            t.important,
            " ⭐"@,
        );
        lemma_sits_contains(task_line_spec(t, tags), " #"@ + tags[k].name@, pre.len() + j);
    }
}

proof fn lemma_line_parts(
    h: Seq<char>,
    d: Seq<char>,
    rp: Seq<char>,
    u: Seq<char>,
    i: Seq<char>,
    tt: Seq<char>,
    line: Seq<char>,
)
    requires
        line == h + d + rp + u + i + tt,
    ensures
        sits_at(line, h, 0),
        contains_seq(line, d),
        contains_seq(line, rp),
        contains_seq(line, u),
        contains_seq(line, i),
        forall|n: Seq<char>, j: int| #[trigger] sits_at(tt, n, j) ==> sits_at(line, n, (h + d + rp + u + i).len() + j),
{
    lemma_sits_whole(h);
    lemma_sits_in(Seq::empty(), h, d + rp + u + i + tt, h, 0);
    assert(Seq::<char>::empty() + h + (d + rp + u + i + tt) =~= line);
    assert(h + d + (rp + u + i + tt) =~= line);
    lemma_part_in_line(h, d, rp + u + i + tt, line);
    assert(h + d + rp + (u + i + tt) =~= line);
    lemma_part_in_line(h + d, rp, u + i + tt, line);
    assert(h + d + rp + u + (i + tt) =~= line);
    lemma_part_in_line(h + d + rp, u, i + tt, line);
    lemma_part_in_line(h + d + rp + u, i, tt, line);
    assert forall|n: Seq<char>, j: int| #[trigger] sits_at(tt, n, j) implies sits_at(
        line,
        n,
        (h + d + rp + u + i).len() + j,
    ) by {
        lemma_sits_in(h + d + rp + u + i, tt, Seq::empty(), n, j);
        assert(h + d + rp + u + i + tt + Seq::<char>::empty() =~= line);
    }
}

proof fn lemma_lines_pos(items: Seq<Task>, m: Map<i64, Vec<Tag>>, k: int) -> (i: int)
    requires
        0 <= k < items.len(),
    ensures
        sits_at(lines_spec(items, m), task_line_spec(items[k], tags_of(m, items[k].id)) + "\n"@, i),
    decreases items.len(),
{
    let p = items.drop_last();
    let last = task_line_spec(items.last(), tags_of(m, items.last().id)) + "\n"@;
    let want = task_line_spec(items[k], tags_of(m, items[k].id)) + "\n"@;
    assert(lines_spec(items, m) =~= Seq::<char>::empty() + lines_spec(p, m) + last);
    if k < p.len() {
        let j = lemma_lines_pos(p, m, k);
        assert(p[k] == items[k]);
        lemma_sits_in(Seq::empty(), lines_spec(p, m), last, want, j);
        j
    } else {
        lemma_sits_whole(want);
        lemma_sits_in(lines_spec(p, m), want, Seq::empty(), want, 0);
        assert(lines_spec(p, m) + want + Seq::<char>::empty() =~= lines_spec(items, m));
        lines_spec(p, m).len() as int
    }
}

/// What an exported section shows: it starts with `# ` and its title, and
/// holds the line of each of its tasks, ended by a newline; so each task's
/// title and, when it has one, its due date appear in it.
pub proof fn law_section_shows(title: Seq<char>, items: Seq<Task>, m: Map<i64, Vec<Tag>>)
    ensures
        sits_at(section_spec(title, items, m), "# "@ + title, 0),
        forall|k: int|
            0 <= k < items.len() ==> contains_seq(
                section_spec(title, items, m),
                #[trigger] task_line_spec(items[k], tags_of(m, items[k].id)) + "\n"@,
            ),
        forall|k: int| 0 <= k < items.len() ==> contains_seq(section_spec(title, items, m), (#[trigger] items[k]).title@),
        forall|k: int|
            0 <= k < items.len() && (#[trigger] items[k]).due_date is Some ==> contains_seq(
                section_spec(title, items, m),
                " 📅 "@ + date_text(items[k].due_date->0@),
            ),
{
    reveal_strlit("# ");
    let sec = section_spec(title, items, m);
    let head = "# "@ + title + "\n\n"@ + (if items.len() == 0 {
        "_(sin tareas)_\n"@
    } else {
        Seq::empty()
    });
    assert(sec == head + lines_spec(items, m));
    assert(sec.subrange(0, ("# "@ + title).len() as int) =~= "# "@ + title);
    assert forall|k: int| 0 <= k < items.len() implies {
        &&& contains_seq(sec, task_line_spec(items[k], tags_of(m, items[k].id)) + "\n"@)
        &&& contains_seq(sec, items[k].title@)
        &&& (items[k].due_date is Some ==> contains_seq(sec, " 📅 "@ + date_text(items[k].due_date->0@)))
    } by {
        let t = items[k];
        let line = task_line_spec(t, tags_of(m, t.id));
        let j = lemma_lines_pos(items, m, k);
        lemma_sits_in(head, lines_spec(items, m), Seq::empty(), line + "\n"@, j);
        assert(head + lines_spec(items, m) + Seq::<char>::empty() =~= sec);
        let at = head.len() + j;
        lemma_sits_contains(sec, line + "\n"@, at);
        lemma_sits_whole(line);
        lemma_sits_in(Seq::empty(), line, "\n"@, line, 0);
        assert(Seq::<char>::empty() + line + "\n"@ =~= line + "\n"@);
        lemma_sits_trans(sec, line + "\n"@, line, at, 0);
        law_task_line_shows(t, tags_of(m, t.id));
        let mark = status_mark(t.status);
        lemma_sits_whole(t.title@);
        lemma_sits_in(mark, t.title@, Seq::empty(), t.title@, 0);
        assert(mark + t.title@ + Seq::<char>::empty() =~= mark + t.title@);
        lemma_sits_trans(line, mark + t.title@, t.title@, 0, mark.len() as int);
        lemma_sits_trans(sec, line, t.title@, at, mark.len() as int);
        lemma_sits_contains(sec, t.title@, at + mark.len());
        if t.due_date is Some {
            let n = " 📅 "@ + date_text(t.due_date->0@);
            assert(contains_seq(line, n));
            let q = choose|q: int| 0 <= q <= line.len() - n.len() && #[trigger] line.subrange(q, q + n.len()) == n;
            lemma_sits_trans(sec, line, n, at, q);
            lemma_sits_contains(sec, n, at + q);
        }
    }
}

fn head_chars(t: &Task) -> (r: Vec<char>)
    ensures
        r@ == line_head(*t),
{
    let mut line = chars_of("- [");
    let check = match t.status {
        Status::Done => "x",
        Status::Cancelled => "-",
        _ => " ",
    };
    extend_str(&mut line, check);
    extend_str(&mut line, "] ");
    extend_str(&mut line, t.title.as_str());
    line
}

fn due_chars(t: &Task) -> (r: Vec<char>)
    ensures
        r@ == due_part(*t),
{
    match t.due_date {
        Some(d) => {
            let mut v = chars_of(" 📅 ");
            extend_str(&mut v, d.to_text().as_str());
            v
        },
        None => Vec::new(),
    }
}

fn rule_chars(t: &Task) -> (r: Vec<char>)
    ensures
        r@ == rule_part(*t),
{
    match t.recurrence {
        Some(rec) => {
            let mut v = chars_of(" 🔁 ");
            extend_str(&mut v, rec.to_rule().as_str());
            v
        },
        None => Vec::new(),
    }
}

fn flag_chars(b: bool, mark: &str) -> (r: Vec<char>)
    ensures
        r@ == flag_part(b, mark@),
{
    if b {
        chars_of(mark)
    } else {
        Vec::new()
    }
}

fn tags_chars(tags: &Vec<Tag>) -> (r: Vec<char>)
    ensures
        r@ == tags_text(tags@),
{
    let mut line: Vec<char> = Vec::new();
    let mut k: usize = 0;
    while k < tags.len()
        invariant
            k <= tags@.len(),
            line@ == tags_text(tags@.take(k as int)),
        decreases tags@.len() - k,
    {
        assert(tags@.take(k + 1).drop_last() =~= tags@.take(k as int));
        extend_str(&mut line, " #");
        extend_str(&mut line, tags[k].name.as_str());
        k = k + 1;
    }
    assert(tags@.take(tags@.len() as int) =~= tags@);
    line
}

/// The Markdown line of a task.
fn task_line(t: &Task, tags: &Vec<Tag>) -> (r: Vec<char>)
    ensures
        r@ == task_line_spec(*t, tags@),
{
    proof {
        reveal(task_line_spec);
    }
    let mut line = head_chars(t);
    extend_chars(&mut line, &due_chars(t));
    extend_chars(&mut line, &rule_chars(t));
    extend_chars(&mut line, &flag_chars(t.urgent, " ⚡"));
    extend_chars(&mut line, &flag_chars(t.important, " ⭐"));
    extend_chars(&mut line, &tags_chars(tags));
    line
}

/// A section of the export.
fn render_section(title: &str, items: &Vec<Task>, tags: &HashMap<i64, Vec<Tag>>) -> (r: String)
    ensures
        r@ == section_spec(title@, items@, tags@),
{
    broadcast use vstd::std_specs::hash::group_hash_axioms;

    let mut s = chars_of("# ");
    extend_str(&mut s, title);
    extend_str(&mut s, "\n\n");
    if items.len() == 0 {
        extend_str(&mut s, "_(sin tareas)_\n");
    }
    let ghost head = s@;
    let empty: Vec<Tag> = Vec::new();
    let mut k: usize = 0;
    while k < items.len()
        invariant
            k <= items@.len(),
            empty@.len() == 0,
            s@ == head + lines_spec(items@.take(k as int), tags@),
        decreases items@.len() - k,
    {
        assert(items@.take(k + 1).drop_last() =~= items@.take(k as int));
        let t = &items[k];
        let line = match tags.get(&t.id) {
            Some(tg) => task_line(t, tg),
            None => {
                proof {
                    assert(empty@ =~= tags_of(tags@, t.id));
                }
                task_line(t, &empty)
            },
        };
        extend_chars(&mut s, &line);
        extend_str(&mut s, "\n");
        k = k + 1;
    }
    proof {
        assert(items@.take(items@.len() as int) =~= items@);
        assert(s@ =~= section_spec(title@, items@, tags@));
    }
    string_of(&s)
}

/// Projects ordered by name, ties by input position.
pub open spec fn name_before(a: Project, i: int, b: Project, j: int) -> bool {
    seq_lt(a.name@, b.name@) || (a.name@ == b.name@ && i < j)
}

/// `r` is `s` sorted stably by name, through the permutation `idx`.
pub open spec fn sorted_by_name(s: Seq<Project>, r: Seq<Project>, idx: Seq<int>) -> bool {
    &&& idx.len() == s.len()
    &&& r.len() == s.len()
    &&& forall|k: int| 0 <= k < idx.len() ==> 0 <= #[trigger] idx[k] < s.len() && r[k] == s[idx[k]]
    &&& forall|a: int, b: int| 0 <= a < idx.len() && 0 <= b < idx.len() && a != b ==> idx[a] != idx[b]
    &&& forall|a: int, b: int| 0 <= a < b < idx.len() ==> name_before(s[#[trigger] idx[a]], idx[a], s[#[trigger] idx[b]], idx[b])
}

proof fn lemma_name_before_trans(a: Project, i: int, b: Project, j: int, c: Project, k: int)
    requires
        name_before(a, i, b, j),
        name_before(b, j, c, k),
    ensures
        name_before(a, i, c, k),
{
    if seq_lt(a.name@, b.name@) && seq_lt(b.name@, c.name@) {
        lemma_seq_lt_trans(a.name@, b.name@, c.name@);
    }
}

/// Sorts projects stably by name.
fn sort_by_name(ps: &[Project]) -> (r: Vec<Project>)
    ensures
        exists|idx: Seq<int>| sorted_by_name(ps@, r@, idx),
{
    let mut idx: Vec<usize> = Vec::new();
    let mut i: usize = 0;
    while i < ps.len()
        invariant
            i <= ps@.len(),
            idx@.len() == i,
            forall|k: int| 0 <= k < idx@.len() ==> #[trigger] idx@[k] < i,
            forall|a: int, b: int| 0 <= a < idx@.len() && 0 <= b < idx@.len() && a != b ==> idx@[a] != idx@[b],
            forall|a: int, b: int|
                0 <= a < b < idx@.len() ==> name_before(ps@[#[trigger] idx@[a] as int], idx@[a] as int, ps@[#[trigger] idx@[b] as int], idx@[b] as int),
        decreases ps@.len() - i,
    {
        let name_i = chars_of(ps[i].name.as_str());
        let mut p: usize = 0;
        while p < idx.len() && !chars_lt(&name_i, &chars_of(ps[idx[p]].name.as_str()))
            invariant
                p <= idx@.len(),
                i < ps@.len(),
                name_i@ == ps@[i as int].name@,
                forall|k: int| 0 <= k < idx@.len() ==> #[trigger] idx@[k] < i,
                forall|k: int| 0 <= k < p ==> name_before(ps@[#[trigger] idx@[k] as int], idx@[k] as int, ps@[i as int], i as int),
            decreases idx@.len() - p,
        {
            proof {
                lemma_seq_lt_total(ps@[idx@[p as int] as int].name@, ps@[i as int].name@);
            }
            p = p + 1;
        }
        let ghost old_idx = idx@;
        proof {
            assert forall|k: int| p <= k < old_idx.len() implies name_before(ps@[i as int], i as int, ps@[#[trigger] old_idx[k] as int], old_idx[k] as int) by {
                if k > p {
                    lemma_name_before_trans(ps@[i as int], i as int, ps@[old_idx[p as int] as int], old_idx[p as int] as int, ps@[old_idx[k] as int], old_idx[k] as int);
                }
            }
        }
        idx.insert(p, i);
        proof {
            let ni = idx@;
            assert(ni == old_idx.insert(p as int, i));
            assert forall|a: int, b: int|
                0 <= a < b < ni.len() implies name_before(ps@[#[trigger] ni[a] as int], ni[a] as int, ps@[#[trigger] ni[b] as int], ni[b] as int) by {
                if a < p && b > p {
                    lemma_name_before_trans(ps@[ni[a] as int], ni[a] as int, ps@[i as int], i as int, ps@[ni[b] as int], ni[b] as int);
                } else if a < p && b < p {
                    assert(ni[a] == old_idx[a] && ni[b] == old_idx[b]);
                } else if a > p {
                    assert(ni[a] == old_idx[a - 1] && ni[b] == old_idx[b - 1]);
                } else if a < p && b == p {
                } else {
                    assert(ni[b] == old_idx[b - 1]);
                }
            }
            assert forall|a: int, b: int| 0 <= a < ni.len() && 0 <= b < ni.len() && a != b implies ni[a] != ni[b] by {
                if a != p && b != p {
                    let ka = if a < p { a } else { a - 1 };
                    let kb = if b < p { b } else { b - 1 };
                    assert(ni[a] == old_idx[ka] && ni[b] == old_idx[kb]);
                } else if a == p {
                    let kb = if b < p { b } else { b - 1 };
                    assert(ni[b] == old_idx[kb]);
                } else {
                    let ka = if a < p { a } else { a - 1 };
                    assert(ni[a] == old_idx[ka]);
                }
            }
            assert forall|k: int| 0 <= k < ni.len() implies #[trigger] ni[k] < i + 1 by {
                if k < p {
                    assert(ni[k] == old_idx[k]);
                } else if k > p {
                    assert(ni[k] == old_idx[k - 1]);
                }
            }
        }
        i = i + 1;
    }
    let mut r: Vec<Project> = Vec::new();
    let mut k: usize = 0;
    while k < idx.len()
        invariant
            k <= idx@.len(),
            idx@.len() == ps@.len(),
            forall|m: int| 0 <= m < idx@.len() ==> #[trigger] idx@[m] < ps@.len(),
            r@.len() == k,
            forall|m: int| 0 <= m < k ==> r@[m] == ps@[#[trigger] idx@[m] as int],
        decreases idx@.len() - k,
    {
        r.push(ps[idx[k]].duplicate());
        k = k + 1;
    }
    let ghost gi = idx@.map_values(|x: usize| x as int);
    assert forall|a: int, b: int| 0 <= a < gi.len() && 0 <= b < gi.len() && a != b implies gi[a] != gi[b] by {
        assert(idx@[a] != idx@[b]);
    }
    assert(sorted_by_name(ps@, r@, gi));
    r
}

/// Is the task in project `pid` (`None`: in no project)?
pub open spec fn in_project(pid: Option<i64>) -> spec_fn(Task) -> bool {
    |t: Task| t.project_id == pid
}

/// The tasks of project `pid`, in input order.
pub fn tasks_in(tasks: &[Task], pid: Option<i64>) -> (r: Vec<Task>)
    ensures
        r@ == keep_seq(tasks@, in_project(pid)),
{
    let mut r: Vec<Task> = Vec::new();
    let mut i: usize = 0;
    while i < tasks.len()
        invariant
            i <= tasks@.len(),
            r@ == keep_seq(tasks@.take(i as int), in_project(pid)),
        decreases tasks@.len() - i,
    {
        assert(tasks@.take(i + 1).drop_last() =~= tasks@.take(i as int));
        if tasks[i].project_id == pid {
            r.push(tasks[i].duplicate());
        }
        i = i + 1;
    }
    assert(tasks@.take(tasks@.len() as int) =~= tasks@);
    r
}

/// Is `f` the file of project `p`: its sanitized name with `.md`, and the
/// section of its tasks sorted stably by position and id?
pub open spec fn project_file(f: (String, String), p: Project, tasks: Seq<Task>, m: Map<i64, Vec<Tag>>) -> bool {
    &&& f.0@ == sanitize_spec(p.name@) + ".md"@
    &&& exists|items: Seq<Task>, idx: Seq<int>|
        stable_sorted(TaskOrder::PositionId, keep_seq(tasks, in_project(Some(p.id))), items, idx)
            && f.1@ == section_spec(p.name@, items, m)
}

/// Is `f` the inbox file: `inbox.md` with the section of the tasks without
/// project?
pub open spec fn inbox_file(f: (String, String), tasks: Seq<Task>, m: Map<i64, Vec<Tag>>) -> bool {
    &&& f.0@ == "inbox.md"@
    &&& exists|items: Seq<Task>, idx: Seq<int>|
        stable_sorted(TaskOrder::PositionId, keep_seq(tasks, in_project(None)), items, idx)
            && f.1@ == section_spec("Inbox"@, items, m)
}

/// Renders the state as `(file name, Markdown)` pairs: one file per
/// project, by name, then `inbox.md` for the tasks without project; tasks
/// by position then id.
pub fn render_markdown(projects: &[Project], tasks: &[Task], tags: &HashMap<i64, Vec<Tag>>) -> (r: Vec<(String, String)>)
    ensures
        exists|ps: Seq<Project>, pidx: Seq<int>| {
            &&& sorted_by_name(projects@, ps, pidx)
            &&& r@.len() == ps.len() + 1
            &&& forall|k: int| 0 <= k < ps.len() ==> project_file(#[trigger] r@[k], ps[k], tasks@, tags@)
            &&& inbox_file(r@[ps.len() as int], tasks@, tags@)
        },
{
    let ps = sort_by_name(projects);
    let mut out: Vec<(String, String)> = Vec::new();
    let mut k: usize = 0;
    while k < ps.len()
        invariant
            k <= ps@.len(),
            out@.len() == k,
            forall|j: int| 0 <= j < k ==> project_file(#[trigger] out@[j], ps@[j], tasks@, tags@),
        decreases ps@.len() - k,
    {
        let p = &ps[k];
        let items = tasks_in(tasks, Some(p.id));
        let sorted = sort_stable(&items, TaskOrder::PositionId);
        let mut fname = chars_of(sanitize(p.name.as_str()).as_str());
        extend_str(&mut fname, ".md");
        let body = render_section(p.name.as_str(), &sorted, tags);
        out.push((string_of(&fname), body));
        proof {
            assert(project_file(out@[k as int], ps@[k as int], tasks@, tags@));
        }
        k = k + 1;
    }
    let inbox = tasks_in(tasks, None);
    let sorted = sort_stable(&inbox, TaskOrder::PositionId);
    let body = render_section("Inbox", &sorted, tags);
    out.push((string_of(&chars_of("inbox.md")), body));
    proof {
        assert(inbox_file(out@[ps@.len() as int], tasks@, tags@));
    }
    out
}

// ---------------------------------------------------------------------------
// Git decisions
// ---------------------------------------------------------------------------

/// Does the output of `git remote` list a remote named `origin` (a line
/// that is `origin` once trimmed)?
pub open spec fn lists_origin(out: Seq<char>) -> bool {
    exists|i: int| 0 <= i < crate::text::lines(out).len() && trim(#[trigger] crate::text::lines(out)[i]) == "origin"@
}

/// Decides whether the output of `git remote` lists `origin`.
pub fn remotes_include_origin(out: &str) -> (r: bool)
    ensures
        r == lists_origin(out@),
{
    let ls = lines_of(out);
    let mut i: usize = 0;
    while i < ls.len()
        invariant
            i <= ls@.len(),
            ls@.len() == crate::text::lines(out@).len(),
            forall|k: int| 0 <= k < ls@.len() ==> #[trigger] ls@[k]@ == crate::text::lines(out@)[k],
            forall|k: int| 0 <= k < i ==> trim(#[trigger] crate::text::lines(out@)[k]) != "origin"@,
        decreases ls@.len() - i,
    {
        let t = trim_chars(&ls[i]);
        if chars_eq_str(&t, "origin") {
            assert(trim(crate::text::lines(out@)[i as int]) == "origin"@);
            return true;
        }
        i = i + 1;
    }
    false
}

/// The first seven characters of a commit hash (all of it when shorter).
pub open spec fn short_hash(h: Seq<char>) -> Seq<char> {
    if h.len() <= 7 {
        h
    } else {
        h.take(7)
    }
}

/// The summary shown after committing and pushing: `Commit <short hash>`
/// or `Sin cambios`, then how the push went.
pub open spec fn sync_summary_spec(committed: Option<Seq<char>>, pushed: Result<bool, Seq<char>>) -> Seq<char> {
    (match committed {
        Some(h) => "Commit "@ + short_hash(h),
        None => "Sin cambios"@,
    }) + (match pushed {
        Ok(true) => " · push OK"@,
        Ok(false) => " · sin remoto 'origin'"@,
        Err(e) => " · push falló: "@ + e,
    })
}

/// The summary of a commit (its hash, or `None` when there was nothing to
/// commit) followed by a push (`Ok(false)` when there is no `origin`).
pub fn sync_summary(committed: &Option<String>, pushed: &Result<bool, String>) -> (r: String)
    ensures
        r@ == sync_summary_spec(
            match committed {
                Some(h) => Some(h@),
                None => None,
            },
            match pushed {
                Ok(b) => Ok(*b),
                Err(e) => Err(e@),
            },
        ),
{
    let mut msg: Vec<char> = match committed {
        Some(h) => {
            let hv = chars_of(h.as_str());
            let n: usize = if hv.len() < 7 {
                hv.len()
            } else {
                7
            };
            let mut m = chars_of("Commit ");
            let short = crate::text::subrange_chars(&hv, 0, n);
            extend_chars(&mut m, &short);
            assert(short@ =~= short_hash(h@));
            m
        },
        None => chars_of("Sin cambios"),
    };
    match pushed {
        Ok(true) => extend_str(&mut msg, " · push OK"),
        Ok(false) => extend_str(&mut msg, " · sin remoto 'origin'"),
        Err(e) => {
            extend_str(&mut msg, " · push falló: ");
            extend_str(&mut msg, e.as_str());
        },
    }
    string_of(&msg)
}

/// The message of a pull: `Sin remoto 'origin'` when there is no `origin`,
/// `Pull OK (fast-forward)` after a successful fast-forward.
pub fn pull_message(has_origin: bool) -> (r: String)
    ensures
        r@ == (if has_origin {
            "Pull OK (fast-forward)"@
        } else {
            "Sin remoto 'origin'"@
        }),
{
    if has_origin {
        string_of(&chars_of("Pull OK (fast-forward)"))
    } else {
        string_of(&chars_of("Sin remoto 'origin'"))
    }
}

} // verus!
