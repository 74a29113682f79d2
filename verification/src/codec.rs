//! The on-disk text format of the index document, and the proof that saving
//! and loading invert each other.
//!
//! The format is a small, fixed YAML shape: a `meta:` block holding the
//! project name, then `tasks:` holding one block per task with its id,
//! status, changes (each a `from`/`to`/`on` triple) and priority, `null`
//! when absent. Writing always produces the canonical shape below; reading
//! also accepts a leading document marker or blank lines before `meta:`,
//! `[]` for an empty list, `~` for a missing priority, and a task block
//! without a priority line.
use vstd::prelude::*;
use vstd::string::StrSliceExecFns;
use vstd::string::StringExecFns;
use crate::error::PmError;
use crate::index::{Change, ChangeView, Index, IndexView, Meta, Status, Task, TaskView};
use crate::index::{change_views, index_line_safe, status_name_spec, status_of_name, task_views};
use crate::text::{dec_of, find_nl, no_newline, parse_u64_spec, read_field, starts_with_at};
use crate::text::{find_nl_x, parse_u64_range, push_dec, range_eq_str, read_field_x, str_chars};
use crate::text::starts_with_at_x;
use crate::text::{lemma_dec_of_roundtrip, lemma_dec_of_val, lemma_find_nl_at, lemma_read_field_inv};
use crate::index::lemma_status_name_roundtrip;

verus! {

// ---------------------------------------------------------------------------
// What the writer produces
// ---------------------------------------------------------------------------

/// One serialized change: its three fields, one line each.
pub open spec fn emit_change(c: ChangeView) -> Seq<char> {
    "  - from: "@ + status_name_spec(c.from) + "\n"@ + "    to: "@ + status_name_spec(c.to)
        + "\n"@ + "    on: "@ + c.on + "\n"@
}

pub open spec fn emit_changes(cs: Seq<ChangeView>) -> Seq<char>
    decreases cs.len(),
{
    if cs.len() == 0 {
        Seq::empty()
    } else {
        emit_change(cs[0]) + emit_changes(cs.drop_first())
    }
}

/// One serialized task block.
pub open spec fn emit_task(t: TaskView) -> Seq<char> {
    "- id: "@ + dec_of(t.id as nat) + "\n"@ + "  status: "@ + status_name_spec(t.status) + "\n"@
        + "  changes:"@ + "\n"@ + emit_changes(t.changes) + "  priority: "@ + (match t.priority {
        Some(p) => dec_of(p as nat),
        None => "null"@,
    }) + "\n"@
}

pub open spec fn emit_tasks(ts: Seq<TaskView>) -> Seq<char>
    decreases ts.len(),
{
    if ts.len() == 0 {
        Seq::empty()
    } else {
        emit_task(ts[0]) + emit_tasks(ts.drop_first())
    }
}

/// The whole serialized index document.
pub open spec fn emit_index(v: IndexView) -> Seq<char> {
    "meta:"@ + "\n"@ + "  name: "@ + v.name + "\n"@ + "tasks:"@ + "\n"@ + emit_tasks(v.tasks)
}


// ---------------------------------------------------------------------------
// What the reader accepts
// ---------------------------------------------------------------------------

/// One parsed change starting at `i`: three fixed lines.
pub open spec fn parse_change(s: Seq<char>, i: int) -> Option<(ChangeView, int)> {
    match read_field(s, i, "  - from: "@) {
        Some((fc, i1)) => match status_of_name(fc) {
            Some(from) => match read_field(s, i1, "    to: "@) {
                Some((tc, i2)) => match status_of_name(tc) {
                    Some(to) => match read_field(s, i2, "    on: "@) {
                        Some((on, i3)) => Some((ChangeView { from, to, on }, i3)),
                        None => None,
                    },
                    None => None,
                },
                None => None,
            },
            None => None,
        },
        None => None,
    }
}

/// Changes parsed while change lines continue; the fuel bounds the
/// recursion and one line of input per change is always enough.
pub open spec fn parse_changes(s: Seq<char>, i: int, fuel: nat) -> Option<(Seq<ChangeView>, int)>
    decreases fuel,
{
    if !starts_with_at(s, i, "  - from: "@) {
        Some((Seq::empty(), i))
    } else if fuel == 0 {
        None
    } else {
        match parse_change(s, i) {
            Some((c, i2)) => match parse_changes(s, i2, (fuel - 1) as nat) {
                Some((cs, i3)) => Some((seq![c] + cs, i3)),
                None => None,
            },
            None => None,
        }
    }
}

/// The priority line, which a task block may omit.
pub open spec fn parse_priority(s: Seq<char>, i: int) -> Option<(Option<u64>, int)> {
    if starts_with_at(s, i, "  priority: "@) {
        match read_field(s, i, "  priority: "@) {
            Some((c, i2)) => if c == "null"@ || c == "~"@ {
                Some((Option::<u64>::None, i2))
            } else {
                match parse_u64_spec(c) {
                    Some(p) => Some((Some(p), i2)),
                    None => None,
                }
            },
            None => None,
        }
    } else {
        Some((Option::<u64>::None, i))
    }
}

/// One parsed task block starting at `i`.
pub open spec fn parse_task(s: Seq<char>, i: int, fuel: nat) -> Option<(TaskView, int)> {
    match read_field(s, i, "- id: "@) {
        Some((idc, i1)) => match parse_u64_spec(idc) {
            Some(id) => match read_field(s, i1, "  status: "@) {
                Some((stc, i2)) => match status_of_name(stc) {
                    Some(status) => match read_field(s, i2, "  changes:"@) {
                        Some((cc, i3)) => if cc == " []"@ {
                            match parse_priority(s, i3) {
                                Some((priority, i4)) => Some(
                                    (TaskView { id, status, changes: Seq::empty(), priority }, i4),
                                ),
                                None => None,
                            }
                        } else if cc == ""@ {
                            match parse_changes(s, i3, fuel) {
                                Some((changes, i4)) => match parse_priority(s, i4) {
                                    Some((priority, i5)) => Some(
                                        (TaskView { id, status, changes, priority }, i5),
                                    ),
                                    None => None,
                                },
                                None => None,
                            }
                        } else {
                            None
                        },
                        None => None,
                    },
                    None => None,
                },
                None => None,
            },
            None => None,
        },
        None => None,
    }
}

/// Tasks parsed while task lines continue.
pub open spec fn parse_tasks(s: Seq<char>, i: int, fuel: nat) -> Option<(Seq<TaskView>, int)>
    decreases fuel,
{
    if !starts_with_at(s, i, "- id: "@) {
        Some((Seq::empty(), i))
    } else if fuel == 0 {
        None
    } else {
        match parse_task(s, i, fuel) {
            Some((t, i2)) => match parse_tasks(s, i2, (fuel - 1) as nat) {
                Some((ts, i3)) => Some((seq![t] + ts, i3)),
                None => None,
            },
            None => None,
        }
    }
}

/// Blank lines and a document marker before `meta:` are stepped over.
pub open spec fn skip_prelude(s: Seq<char>, i: int, fuel: nat) -> int
    decreases fuel,
{
    if fuel == 0 {
        i
    } else {
        match find_nl(s, i) {
            Some(k) => {
                let line = s.subrange(i, k);
                if line.len() == 0 || line == "---"@ {
                    skip_prelude(s, k + 1, (fuel - 1) as nat)
                } else {
                    i
                }
            },
            None => i,
        }
    }
}

/// The index documents the reader accepts, and what they mean.
pub open spec fn parse_index_spec(s: Seq<char>) -> Option<IndexView> {
    let i0 = skip_prelude(s, 0, s.len() as nat);
    match read_field(s, i0, "meta:"@) {
        Some((c0, i1)) => if c0 == ""@ {
            match read_field(s, i1, "  name: "@) {
                Some((name, i2)) => match read_field(s, i2, "tasks:"@) {
                    Some((ct, i3)) => if ct == " []"@ {
                        if i3 == s.len() {
                            Some(IndexView { name, tasks: Seq::empty() })
                        } else {
                            None
                        }
                    } else if ct == ""@ {
                        match parse_tasks(s, i3, s.len() as nat) {
                            Some((tasks, i4)) => if i4 == s.len() {
                                Some(IndexView { name, tasks })
                            } else {
                                None
                            },
                            None => None,
                        }
                    } else {
                        None
                    },
                    None => None,
                },
                None => None,
            }
        } else {
            None
        },
        None => None,
    }
}

// ---------------------------------------------------------------------------
// The writer
// ---------------------------------------------------------------------------

fn emit_changes_x(out: &mut String, cs: &Vec<Change>, i: usize)
    requires
        i <= cs.len(),
    ensures
        final(out)@ == old(out)@ + emit_changes(change_views(cs@).skip(i as int)),
    decreases cs.len() - i,
{
    let ghost cv = change_views(cs@);
    if i < cs.len() {
        let c = &cs[i];
        out.append("  - from: ");
        out.append(c.from.name());
        out.append("\n");
        out.append("    to: ");
        out.append(c.to.name());
        out.append("\n");
        out.append("    on: ");
        out.append(c.on.as_str());
        out.append("\n");
        proof {
            assert(out@ =~= old(out)@ + emit_change(cv[i as int]));
        }
        let ghost mid = out@;
        emit_changes_x(out, cs, i + 1);
        proof {
            assert(cv.skip(i as int).drop_first() =~= cv.skip(i + 1));
            assert(cv.skip(i as int)[0] == cv[i as int]);
            assert(out@ =~= old(out)@ + emit_changes(cv.skip(i as int)));
        }
    } else {
        proof {
            assert(cv.skip(i as int) =~= Seq::<ChangeView>::empty());
            assert(out@ =~= old(out)@ + emit_changes(cv.skip(i as int)));
        }
    }
}

fn emit_tasks_x(out: &mut String, ts: &Vec<Task>, i: usize)
    requires
        i <= ts.len(),
    ensures
        final(out)@ == old(out)@ + emit_tasks(task_views(ts@).skip(i as int)),
    decreases ts.len() - i,
{
    let ghost tv = task_views(ts@);
    if i < ts.len() {
        let t = &ts[i];
        out.append("- id: ");
        push_dec(out, t.id);
        out.append("\n");
        out.append("  status: ");
        out.append(t.status.name());
        out.append("\n");
        out.append("  changes:");
        out.append("\n");
        emit_changes_x(out, &t.changes, 0);
        proof {
            assert(change_views(t.changes@).skip(0) =~= tv[i as int].changes);
        }
        out.append("  priority: ");
        match t.priority {
            Some(p) => push_dec(out, p),
            None => out.append("null"),
        }
        out.append("\n");
        proof {
            assert(out@ =~= old(out)@ + emit_task(tv[i as int]));
        }
        emit_tasks_x(out, ts, i + 1);
        proof {
            assert(tv.skip(i as int).drop_first() =~= tv.skip(i + 1));
            assert(tv.skip(i as int)[0] == tv[i as int]);
            assert(out@ =~= old(out)@ + emit_tasks(tv.skip(i as int)));
        }
    } else {
        proof {
            assert(tv.skip(i as int) =~= Seq::<TaskView>::empty());
            assert(out@ =~= old(out)@ + emit_tasks(tv.skip(i as int)));
        }
    }
}

impl Index {
    /// Serializes this index. The caller says whether an index file already
    /// exists and whether overwriting was forced: an existing file is never
    /// clobbered unless forced, the rule that guards `init`.
    pub fn save(&self, exists: bool, force: bool) -> (r: Result<String, PmError>)
        ensures
            exists && !force ==> r == Err::<String, PmError>(PmError::IndexExists),
            force || !exists ==> (r matches Ok(text) && text@ == emit_index(self@)),
    {
        if exists && !force {
            return Err(PmError::IndexExists);
        }
        let mut out = String::new();
        out.append("meta:");
        out.append("\n");
        out.append("  name: ");
        out.append(self.meta.name.as_str());
        out.append("\n");
        out.append("tasks:");
        out.append("\n");
        emit_tasks_x(&mut out, &self.tasks, 0);
        proof {
            assert(task_views(self.tasks@).skip(0) =~= self@.tasks);
            assert(out@ =~= emit_index(self@));
        }
        Ok(out)
    }
}

// ---------------------------------------------------------------------------
// The reader
// ---------------------------------------------------------------------------

fn status_of_range(v: &Vec<char>, lo: usize, hi: usize) -> (r: Option<Status>)
    requires
        lo <= hi <= v.len(),
    ensures
        r == status_of_name(v@.subrange(lo as int, hi as int)),
{
    if range_eq_str(v, lo, hi, "None") {
        Some(Status::Initial)
    } else if range_eq_str(v, lo, hi, "Todo") {
        Some(Status::Todo)
    } else if range_eq_str(v, lo, hi, "Doing") {
        Some(Status::Doing)
    } else if range_eq_str(v, lo, hi, "Done") {
        Some(Status::Done)
    } else {
        None
    }
}

fn parse_change_x(s: &str, v: &Vec<char>, i: usize) -> (r: Option<(Change, usize)>)
    requires
        v@ == s@,
        i <= v.len(),
    ensures
        match r {
            Some(cj) => ({
                let (c, j) = cj;
                parse_change(v@, i as int) == Some((c@, j as int)) && i <= j <= v.len()
            }),
            None => parse_change(v@, i as int) is None,
        },
{
    match read_field_x(v, i, "  - from: ") {
        Some((a1, k1)) => match status_of_range(v, a1, k1) {
            Some(from) => match read_field_x(v, k1 + 1, "    to: ") {
                Some((a2, k2)) => match status_of_range(v, a2, k2) {
                    Some(to) => match read_field_x(v, k2 + 1, "    on: ") {
                        Some((a3, k3)) => {
                            let on = s.substring_char(a3, k3).to_owned();
                            Some((Change { from, to, on }, k3 + 1))
                        },
                        None => None,
                    },
                    None => None,
                },
                None => None,
            },
            None => None,
        },
        None => None,
    }
}

fn parse_changes_x(s: &str, v: &Vec<char>, i: usize, fuel: usize) -> (r: Option<
    (Vec<Change>, usize),
>)
    requires
        v@ == s@,
        i <= v.len(),
    ensures
        match r {
            Some(cj) => ({
                let (cs, j) = cj;
                parse_changes(v@, i as int, fuel as nat) == Some((change_views(cs@), j as int))
                    && i <= j <= v.len()
            }),
            None => parse_changes(v@, i as int, fuel as nat) is None,
        },
    decreases fuel,
{
    if !starts_with_at_x(v, i, "  - from: ") {
        let out: Vec<Change> = Vec::new();
        proof {
            assert(change_views(out@) =~= Seq::<ChangeView>::empty());
        }
        return Some((out, i));
    }
    if fuel == 0 {
        return None;
    }
    match parse_change_x(s, v, i) {
        Some((c, i2)) => match parse_changes_x(s, v, i2, fuel - 1) {
            Some((cs, i3)) => {
                let mut out: Vec<Change> = Vec::new();
                let ghost rest_views = change_views(cs@);
                out.push(c);
                let mut cs = cs;
                out.append(&mut cs);
                proof {
                    assert(change_views(out@) =~= seq![out@[0]@] + rest_views);
                }
                Some((out, i3))
            },
            None => None,
        },
        None => None,
    }
}

fn parse_priority_x(v: &Vec<char>, i: usize) -> (r: Option<(Option<u64>, usize)>)
    requires
        i <= v.len(),
    ensures
        match r {
            Some(pj) => ({
                let (p, j) = pj;
                parse_priority(v@, i as int) == Some((p, j as int)) && i <= j <= v.len()
            }),
            None => parse_priority(v@, i as int) is None,
        },
{
    if !starts_with_at_x(v, i, "  priority: ") {
        return Some((None, i));
    }
    match read_field_x(v, i, "  priority: ") {
        Some((a, k)) => {
            if range_eq_str(v, a, k, "null") || range_eq_str(v, a, k, "~") {
                Some((None, k + 1))
            } else {
                match parse_u64_range(v, a, k) {
                    Some(p) => Some((Some(p), k + 1)),
                    None => None,
                }
            }
        },
        None => None,
    }
}

fn parse_task_x(s: &str, v: &Vec<char>, i: usize, fuel: usize) -> (r: Option<(Task, usize)>)
    requires
        v@ == s@,
        i <= v.len(),
    ensures
        match r {
            Some(tj) => ({
                let (t, j) = tj;
                parse_task(v@, i as int, fuel as nat) == Some((t@, j as int)) && i <= j <= v.len()
            }),
            None => parse_task(v@, i as int, fuel as nat) is None,
        },
{
    match read_field_x(v, i, "- id: ") {
        Some((a1, k1)) => match parse_u64_range(v, a1, k1) {
            Some(id) => match read_field_x(v, k1 + 1, "  status: ") {
                Some((a2, k2)) => match status_of_range(v, a2, k2) {
                    Some(status) => match read_field_x(v, k2 + 1, "  changes:") {
                        Some((a3, k3)) => {
                            if range_eq_str(v, a3, k3, " []") {
                                match parse_priority_x(v, k3 + 1) {
                                    Some((priority, i4)) => {
                                        let t = Task {
                                            id,
                                            status,
                                            changes: Vec::new(),
                                            priority,
                                        };
                                        proof {
                                            assert(t@.changes =~= Seq::<ChangeView>::empty());
                                        }
                                        Some((t, i4))
                                    },
                                    None => None,
                                }
                            } else if range_eq_str(v, a3, k3, "") {
                                match parse_changes_x(s, v, k3 + 1, fuel) {
                                    Some((changes, i4)) => match parse_priority_x(v, i4) {
                                        Some((priority, i5)) => {
                                            let t = Task { id, status, changes, priority };
                                            proof {
                                                assert(t@.changes =~= change_views(t.changes@));
                                            }
                                            Some((t, i5))
                                        },
                                        None => None,
                                    },
                                    None => None,
                                }
                            } else {
                                None
                            }
                        },
                        None => None,
                    },
                    None => None,
                },
                None => None,
            },
            None => None,
        },
        None => None,
    }
}

fn parse_tasks_x(s: &str, v: &Vec<char>, i: usize, fuel: usize) -> (r: Option<(Vec<Task>, usize)>)
    requires
        v@ == s@,
        i <= v.len(),
    ensures
        match r {
            Some(tj) => ({
                let (ts, j) = tj;
                parse_tasks(v@, i as int, fuel as nat) == Some((task_views(ts@), j as int)) && i
                    <= j <= v.len()
            }),
            None => parse_tasks(v@, i as int, fuel as nat) is None,
        },
    decreases fuel,
{
    if !starts_with_at_x(v, i, "- id: ") {
        let out: Vec<Task> = Vec::new();
        proof {
            assert(task_views(out@) =~= Seq::<TaskView>::empty());
        }
        return Some((out, i));
    }
    if fuel == 0 {
        return None;
    }
    match parse_task_x(s, v, i, fuel) {
        Some((t, i2)) => match parse_tasks_x(s, v, i2, fuel - 1) {
            Some((ts, i3)) => {
                let mut out: Vec<Task> = Vec::new();
                let ghost rest_views = task_views(ts@);
                out.push(t);
                let mut ts = ts;
                out.append(&mut ts);
                proof {
                    assert(task_views(out@) =~= seq![out@[0]@] + rest_views);
                }
                Some((out, i3))
            },
            None => None,
        },
        None => None,
    }
}

pub(crate) fn skip_prelude_x(v: &Vec<char>, i: usize, fuel: usize) -> (r: usize)
    requires
        i <= v.len(),
    ensures
        r as int == skip_prelude(v@, i as int, fuel as nat),
        i <= r <= v.len(),
    decreases fuel,
{
    if fuel == 0 {
        return i;
    }
    match find_nl_x(v, i) {
        Some(k) => {
            proof {
                reveal_strlit("");
                let line = v@.subrange(i as int, k as int);
                if line.len() == 0 {
                    assert(line =~= ""@);
                }
            }
            if range_eq_str(v, i, k, "") || range_eq_str(v, i, k, "---") {
                skip_prelude_x(v, k + 1, fuel - 1)
            } else {
                i
            }
        },
        None => i,
    }
}

impl Index {
    /// Reads an index document back. Yields exactly the indexes that
    /// `parse_index_spec` accepts, and a parse error on every other text.
    pub fn load(contents: &str) -> (r: Result<Index, PmError>)
        ensures
            r is Ok <==> parse_index_spec(contents@) is Some,
            r matches Ok(ix) ==> Some(ix@) == parse_index_spec(contents@),
            r is Err ==> r == Err::<Index, PmError>(PmError::Parse),
    {
        let v = str_chars(contents);
        let i0 = skip_prelude_x(&v, 0, v.len());
        match read_field_x(&v, i0, "meta:") {
            Some((a0, k0)) => {
                if !range_eq_str(&v, a0, k0, "") {
                    return Err(PmError::Parse);
                }
                match read_field_x(&v, k0 + 1, "  name: ") {
                    Some((a1, k1)) => {
                        let name = contents.substring_char(a1, k1).to_owned();
                        match read_field_x(&v, k1 + 1, "tasks:") {
                            Some((a2, k2)) => {
                                if range_eq_str(&v, a2, k2, " []") {
                                    if k2 + 1 == v.len() {
                                        let ix = Index {
                                            meta: Meta { name },
                                            tasks: Vec::new(),
                                        };
                                        proof {
                                            assert(ix@.tasks =~= Seq::<TaskView>::empty());
                                        }
                                        Ok(ix)
                                    } else {
                                        Err(PmError::Parse)
                                    }
                                } else if range_eq_str(&v, a2, k2, "") {
                                    match parse_tasks_x(contents, &v, k2 + 1, v.len()) {
                                        Some((tasks, i4)) => {
                                            if i4 == v.len() {
                                                let ix = Index { meta: Meta { name }, tasks };
                                                proof {
                                                    assert(ix@.tasks =~= task_views(
                                                        ix.tasks@,
                                                    ));
                                                }
                                                Ok(ix)
                                            } else {
                                                Err(PmError::Parse)
                                            }
                                        },
                                        None => Err(PmError::Parse),
                                    }
                                } else {
                                    Err(PmError::Parse)
                                }
                            },
                            None => Err(PmError::Parse),
                        }
                    },
                    None => Err(PmError::Parse),
                }
            },
            None => Err(PmError::Parse),
        }
    }
}

// ---------------------------------------------------------------------------
// The round trip
// ---------------------------------------------------------------------------

proof fn lemma_parse_change_inv(s: Seq<char>, i: int, c: ChangeView, rest: Seq<char>)
    requires
        0 <= i <= s.len(),
        s.subrange(i, s.len() as int) == emit_change(c) + rest,
        no_newline(c.on),
    ensures
        parse_change(s, i) == Some((c, i + emit_change(c).len())),
        s.subrange(i + emit_change(c).len(), s.len() as int) == rest,
        emit_change(c).len() >= 3,
{
    reveal_strlit("\n");
    lemma_status_name_roundtrip(c.from);
    lemma_status_name_roundtrip(c.to);
    let p1 = "  - from: "@;
    let n1 = status_name_spec(c.from);
    let p2 = "    to: "@;
    let n2 = status_name_spec(c.to);
    let p3 = "    on: "@;
    let nl = seq!['\n'];
    let rest2 = p3 + c.on + nl + rest;
    let rest1 = p2 + n2 + nl + rest2;
    assert(s.subrange(i, s.len() as int) =~= p1 + n1 + nl + rest1);
    lemma_read_field_inv(s, i, p1, n1, rest1);
    let i1 = i + p1.len() + n1.len() + 1;
    lemma_read_field_inv(s, i1, p2, n2, rest2);
    let i2 = i1 + p2.len() + n2.len() + 1;
    lemma_read_field_inv(s, i2, p3, c.on, rest);
    let i3 = i2 + p3.len() + c.on.len() + 1;
    assert(i3 == i + emit_change(c).len());
    assert(ChangeView { from: c.from, to: c.to, on: c.on } == c);
}

proof fn lemma_parse_changes_inv(s: Seq<char>, i: int, cs: Seq<ChangeView>, rest: Seq<char>, fuel: nat)
    requires
        0 <= i <= s.len(),
        s.subrange(i, s.len() as int) == emit_changes(cs) + rest,
        forall|j: int| 0 <= j < cs.len() ==> no_newline((#[trigger] cs[j]).on),
        fuel >= s.len() - i,
        !starts_with_at(rest, 0, "  - from: "@),
    ensures
        parse_changes(s, i, fuel) == Some((cs, i + emit_changes(cs).len())),
        s.subrange(i + emit_changes(cs).len(), s.len() as int) == rest,
    decreases cs.len(),
{
    reveal_strlit("  - from: ");
    let p1 = "  - from: "@;
    if cs.len() == 0 {
        assert(s.subrange(i, s.len() as int) =~= rest);
        if starts_with_at(s, i, p1) {
            assert forall|j: int| 0 <= j < p1.len() implies rest.subrange(0, p1.len() as int)[j]
                == p1[j] by {
                assert(s.subrange(i, i + p1.len())[j] == p1[j]);
                assert(s.subrange(i, s.len() as int)[j] == s[i + j]);
            }
            assert(rest.subrange(0, p1.len() as int) =~= p1);
            assert(starts_with_at(rest, 0, p1));
        }
        assert(parse_changes(s, i, fuel) == Some((cs, i)));
        assert(emit_changes(cs).len() == 0);
    } else {
        let c0 = cs[0];
        let tail = cs.drop_first();
        let rest1 = emit_changes(tail) + rest;
        assert(emit_changes(cs) == emit_change(c0) + emit_changes(tail));
        assert(s.subrange(i, s.len() as int) =~= emit_change(c0) + rest1);
        lemma_parse_change_inv(s, i, c0, rest1);
        let i2 = i + emit_change(c0).len();
        // the block starts with its `from` line
        assert forall|j: int| 0 <= j < p1.len() implies s.subrange(i, i + p1.len())[j] == p1[j] by {
            let suf = s.subrange(i, s.len() as int);
            assert(suf[j] == s[i + j]);
            assert(suf[j] == p1[j]);
        }
        assert(s.subrange(i, i + p1.len()) =~= p1);
        assert(starts_with_at(s, i, p1));
        assert(fuel > 0);
        assert forall|j: int| 0 <= j < tail.len() implies no_newline((#[trigger] tail[j]).on) by {
            assert(tail[j] == cs[j + 1]);
        }
        lemma_parse_changes_inv(s, i2, tail, rest, (fuel - 1) as nat);
        assert(seq![c0] + tail =~= cs);
        assert(i2 + emit_changes(tail).len() == i + emit_changes(cs).len());
    }
}

proof fn lemma_parse_priority_inv(s: Seq<char>, i: int, pr: Option<u64>, rest: Seq<char>)
    requires
        0 <= i <= s.len(),
        s.subrange(i, s.len() as int) == "  priority: "@ + (match pr {
            Some(p) => dec_of(p as nat),
            None => "null"@,
        }) + "\n"@ + rest,
    ensures
        ({
            let c = match pr {
                Some(p) => dec_of(p as nat),
                None => "null"@,
            };
            &&& parse_priority(s, i) == Some((pr, i + "  priority: "@.len() + c.len() + 1))
            &&& s.subrange(i + "  priority: "@.len() + c.len() + 1, s.len() as int) == rest
        }),
{
    reveal_strlit("\n");
    reveal_strlit("null");
    reveal_strlit("~");
    let p = "  priority: "@;
    let nl = seq!['\n'];
    let c = match pr {
        Some(q) => dec_of(q as nat),
        None => "null"@,
    };
    if pr is Some {
        lemma_dec_of_val(pr.unwrap() as nat);
        lemma_dec_of_roundtrip(pr.unwrap());
    }
    assert(no_newline(c));
    assert(s.subrange(i, s.len() as int) =~= p + c + nl + rest);
    lemma_read_field_inv(s, i, p, c, rest);
    // the priority line is present
    assert forall|j: int| 0 <= j < p.len() implies s.subrange(i, i + p.len())[j] == p[j] by {
        let suf = s.subrange(i, s.len() as int);
        assert(suf[j] == s[i + j]);
        assert(suf[j] == p[j]);
    }
    assert(s.subrange(i, i + p.len()) =~= p);
    assert(starts_with_at(s, i, p));
    match pr {
        Some(q) => {
            // a digit string is neither `null` nor `~`
            assert(('0' as u32) == 48 && ('9' as u32) == 57);
            if c == "null"@ {
                assert(c[0] == 'n');
                assert(crate::text::is_digit(c[0]));
            }
            if c == "~"@ {
                assert(c[0] == '~');
                assert(crate::text::is_digit(c[0]));
            }
        },
        None => {},
    }
}

proof fn lemma_parse_task_inv(s: Seq<char>, i: int, t: TaskView, rest: Seq<char>, fuel: nat)
    requires
        0 <= i <= s.len(),
        s.subrange(i, s.len() as int) == emit_task(t) + rest,
        forall|j: int| 0 <= j < t.changes.len() ==> no_newline((#[trigger] t.changes[j]).on),
        fuel >= s.len() - i,
    ensures
        parse_task(s, i, fuel) == Some((t, i + emit_task(t).len())),
        s.subrange(i + emit_task(t).len(), s.len() as int) == rest,
        emit_task(t).len() >= 3,
{
    reveal_strlit("\n");
    reveal_strlit("");
    reveal_strlit(" []");
    reveal_strlit("  - from: ");
    reveal_strlit("  priority: ");
    lemma_dec_of_val(t.id as nat);
    lemma_dec_of_roundtrip(t.id);
    lemma_status_name_roundtrip(t.status);
    let p1 = "- id: "@;
    let d1 = dec_of(t.id as nat);
    let p2 = "  status: "@;
    let n2 = status_name_spec(t.status);
    let p3 = "  changes:"@;
    let p4 = "  priority: "@;
    let c4 = match t.priority {
        Some(p) => dec_of(p as nat),
        None => "null"@,
    };
    let nl = seq!['\n'];
    let rest4 = rest;
    let rest3p = p4 + c4 + nl + rest4;
    let rest3 = emit_changes(t.changes) + rest3p;
    let rest2 = p3 + ""@ + nl + rest3;
    let rest1 = p2 + n2 + nl + rest2;
    assert(s.subrange(i, s.len() as int) =~= p1 + d1 + nl + rest1);
    lemma_read_field_inv(s, i, p1, d1, rest1);
    let i1 = i + p1.len() + d1.len() + 1;
    lemma_read_field_inv(s, i1, p2, n2, rest2);
    let i2 = i1 + p2.len() + n2.len() + 1;
    assert(no_newline(""@));
    lemma_read_field_inv(s, i2, p3, ""@, rest3);
    let i3 = i2 + p3.len() + 0 + 1;
    // an empty changes content is not ` []`
    assert(""@.len() == 0 && " []"@.len() == 3);
    // the text after the change blocks is the priority line, not a change
    assert(!starts_with_at(rest3p, 0, "  - from: "@)) by {
        if starts_with_at(rest3p, 0, "  - from: "@) {
            assert(rest3p.subrange(0, 10)[2] == ("  - from: "@)[2]);
            assert(rest3p[2] == ("  - from: "@)[2]);
            assert(rest3p[2] == p4[2]);
        }
    }
    lemma_parse_changes_inv(s, i3, t.changes, rest3p, fuel);
    let i4 = i3 + emit_changes(t.changes).len();
    assert(s.subrange(i4, s.len() as int) =~= p4 + c4 + "\n"@ + rest4);
    lemma_parse_priority_inv(s, i4, t.priority, rest4);
    let i5 = i4 + p4.len() + c4.len() + 1;
    assert(i5 == i + emit_task(t).len());
    assert(TaskView { id: t.id, status: t.status, changes: t.changes, priority: t.priority }
        == t);
}

proof fn lemma_parse_tasks_inv(s: Seq<char>, i: int, ts: Seq<TaskView>, fuel: nat)
    requires
        0 <= i <= s.len(),
        s.subrange(i, s.len() as int) == emit_tasks(ts),
        forall|j: int, k: int|
            0 <= j < ts.len() && 0 <= k < ts[j].changes.len() ==> no_newline(
                (#[trigger] ts[j].changes[k]).on,
            ),
        fuel >= s.len() - i,
    ensures
        parse_tasks(s, i, fuel) == Some((ts, s.len() as int)),
    decreases ts.len(),
{
    reveal_strlit("- id: ");
    let p1 = "- id: "@;
    if ts.len() == 0 {
        assert(s.subrange(i, s.len() as int).len() == 0);
        assert(i == s.len());
        assert(!starts_with_at(s, i, p1));
        assert(parse_tasks(s, i, fuel) == Some((ts, i)));
    } else {
        let t0 = ts[0];
        let tail = ts.drop_first();
        let rest1 = emit_tasks(tail);
        assert(emit_tasks(ts) == emit_task(t0) + rest1);
        assert(s.subrange(i, s.len() as int) =~= emit_task(t0) + rest1);
        assert forall|k: int| 0 <= k < t0.changes.len() implies no_newline(
            (#[trigger] t0.changes[k]).on,
        ) by {
            assert(ts[0].changes[k].on == t0.changes[k].on);
        }
        lemma_parse_task_inv(s, i, t0, rest1, fuel);
        let i2 = i + emit_task(t0).len();
        // the block starts with its id line
        assert forall|j: int| 0 <= j < p1.len() implies s.subrange(i, i + p1.len())[j] == p1[j] by {
            let suf = s.subrange(i, s.len() as int);
            assert(suf[j] == s[i + j]);
            assert(suf[j] == p1[j]);
        }
        assert(s.subrange(i, i + p1.len()) =~= p1);
        assert(starts_with_at(s, i, p1));
        assert(fuel > 0);
        assert forall|j: int, k: int|
            0 <= j < tail.len() && 0 <= k < tail[j].changes.len() implies no_newline(
            (#[trigger] tail[j].changes[k]).on,
        ) by {
            assert(tail[j] == ts[j + 1]);
        }
        lemma_parse_tasks_inv(s, i2, tail, (fuel - 1) as nat);
        assert(seq![t0] + tail =~= ts);
    }
}

/// Round trip: a saved index document loads back to exactly the index it
/// was saved from, for every index whose free-text fields — the project
/// name and the change timestamps — are single lines (a name holding a
/// line break cannot survive a line-oriented format).
pub proof fn lemma_save_load_roundtrip(v: IndexView)
    requires
        index_line_safe(v),
    ensures
        parse_index_spec(emit_index(v)) == Some(v),
{
    reveal_strlit("\n");
    reveal_strlit("");
    reveal_strlit("---");
    reveal_strlit("meta:");
    reveal_strlit(" []");
    let s = emit_index(v);
    let pm = "meta:"@;
    let pn = "  name: "@;
    let pt = "tasks:"@;
    let nl = seq!['\n'];
    let rest2 = pt + ""@ + nl + emit_tasks(v.tasks);
    let rest1 = pn + v.name + nl + rest2;
    assert(s.subrange(0, s.len() as int) =~= pm + ""@ + nl + rest1);
    assert(no_newline(""@));
    lemma_read_field_inv(s, 0, pm, ""@, rest1);
    let i1: int = pm.len() as int + 1;
    lemma_read_field_inv(s, i1, pn, v.name, rest2);
    let i2: int = i1 + pn.len() + v.name.len() + 1;
    lemma_read_field_inv(s, i2, pt, ""@, emit_tasks(v.tasks));
    let i3: int = i2 + pt.len() + 0 + 1;
    lemma_parse_tasks_inv(s, i3, v.tasks, s.len() as nat);
    // nothing precedes `meta:`, so the prelude skip stays at the start
    assert(s[5] == '\n');
    assert forall|j: int| 0 <= j < 5 implies s[j] != '\n' by {
        assert(s.subrange(0, s.len() as int)[j] == s[j]);
        assert(s.subrange(0, s.len() as int)[j] == pm[j]);
        if j == 0 {
        } else if j == 1 {
        } else if j == 2 {
        } else if j == 3 {
        } else {
            assert(j == 4);
        }
    }
    lemma_find_nl_at(s, 0, 5);
    let line = s.subrange(0, 5);
    assert forall|j: int| 0 <= j < 5 implies line[j] == pm[j] by {
        assert(s.subrange(0, s.len() as int)[j] == s[j]);
        assert(s.subrange(0, s.len() as int)[j] == pm[j]);
    }
    assert(line =~= pm);
    assert(line.len() == 5 && ("---"@).len() == 3 && (""@).len() == 0);
    assert(s.len() >= 6);
    assert(skip_prelude(s, 0, s.len() as nat) == 0);
    // the branch on the `tasks:` content takes the list form
    assert(""@ != " []"@);
    assert(IndexView { name: v.name, tasks: v.tasks } == v);
}

} // verus!
