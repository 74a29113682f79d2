//! The per-task detail document: a free-text summary, a tag list and a
//! description, derived from the words of an `add` command. A word written
//! `:tag:` — a leading colon and a trailing colon — is a tag; every other
//! word belongs to the summary, in its original order.
use vstd::prelude::*;
use vstd::string::StrSliceExecFns;
use vstd::string::StringExecFns;
use crate::error::PmError;
use crate::index::Task;
use crate::text::{dec_of, no_newline, parse_u64_spec, read_field, starts_with_at};
use crate::text::{lemma_dec_of_roundtrip, lemma_dec_of_val, lemma_find_nl_at, lemma_read_field_inv};
use crate::text::{parse_u64_range, push_dec, range_eq_str, read_field_x, starts_with_at_x, str_chars};

verus! {

/// The views of a sequence of strings.
pub open spec fn words_of(entry: Seq<String>) -> Seq<Seq<char>> {
    entry.map_values(|s: String| s@)
}

/// A word that names a tag: it begins and ends with a colon.
pub open spec fn is_tag_word(w: Seq<char>) -> bool {
    w.len() >= 1 && w[0] == ':' && w[w.len() - 1] == ':'
}

/// Position of the first colon in `w` at or after `i`, or the end of `w`.
pub open spec fn colon_end(w: Seq<char>, i: int) -> int
    decreases w.len() - i,
{
    if i < 0 || i >= w.len() {
        w.len() as int
    } else if w[i] == ':' {
        i
    } else {
        colon_end(w, i + 1)
    }
}

/// The tag named by a tag word: the characters after the leading colon, up
/// to the next colon.
pub open spec fn tag_content(w: Seq<char>) -> Seq<char> {
    w.subrange(1, colon_end(w, 1))
}

/// The summary words: the non-tag words, in order.
pub open spec fn kept_words(ws: Seq<Seq<char>>) -> Seq<Seq<char>>
    decreases ws.len(),
{
    if ws.len() == 0 {
        Seq::empty()
    } else if is_tag_word(ws.last()) {
        kept_words(ws.drop_last())
    } else {
        kept_words(ws.drop_last()).push(ws.last())
    }
}

/// The tags: the contents of the tag words, in order.
pub open spec fn tag_list(ws: Seq<Seq<char>>) -> Seq<Seq<char>>
    decreases ws.len(),
{
    if ws.len() == 0 {
        Seq::empty()
    } else if is_tag_word(ws.last()) {
        tag_list(ws.drop_last()).push(tag_content(ws.last()))
    } else {
        tag_list(ws.drop_last())
    }
}

/// Words joined with single spaces.
pub open spec fn join_space(ws: Seq<Seq<char>>) -> Seq<char>
    decreases ws.len(),
{
    if ws.len() == 0 {
        Seq::empty()
    } else if ws.len() == 1 {
        ws[0]
    } else {
        join_space(ws.drop_last()) + " "@ + ws.last()
    }
}

/// The summary text derived from entry words.
pub open spec fn summary_spec(ws: Seq<Seq<char>>) -> Seq<char> {
    join_space(kept_words(ws))
}

/// The detail document a fresh task starts with.
pub open spec fn detail_new_spec(id: u64, ws: Seq<Seq<char>>) -> TaskDetailView {
    TaskDetailView {
        id,
        summary: summary_spec(ws),
        description: Seq::empty(),
        tags: tag_list(ws),
    }
}

/// The structured header of a detail document: everything but the free-text
/// description.
#[derive(Debug)]
pub struct TaskDetailHeader {
    pub id: u64,
    pub summary: String,
    pub tags: Vec<String>,
}

/// One detail document, keyed by the same id as its index entry.
#[derive(Debug)]
pub struct TaskDetail {
    pub id: u64,
    pub summary: String,
    pub description: String,
    pub tags: Vec<String>,
}

#[verifier::ext_equal]
pub ghost struct TaskDetailView {
    pub id: u64,
    pub summary: Seq<char>,
    pub description: Seq<char>,
    pub tags: Seq<Seq<char>>,
}

impl View for TaskDetail {
    type V = TaskDetailView;

    open spec fn view(&self) -> TaskDetailView {
        TaskDetailView {
            id: self.id,
            summary: self.summary@,
            description: self.description@,
            tags: self.tags@.map_values(|t: String| t@),
        }
    }
}

/// Position of the first colon in `w` at or after 1, or the end of `w`.
fn colon_end_x(w: &str) -> (e: usize)
    requires
        w@.len() >= 1,
    ensures
        e == colon_end(w@, 1),
        1 <= e <= w@.len(),
{
    let n = w.unicode_len();
    let mut j: usize = 1;
    while j < n
        invariant
            1 <= j <= n,
            n == w@.len(),
            colon_end(w@, 1) == colon_end(w@, j as int),
        decreases n - j,
    {
        if w.get_char(j) == ':' {
            return j;
        }
        j = j + 1;
    }
    n
}

impl TaskDetail {
    /// Builds the detail document for a new task from the entry words: tag
    /// words become tags with their colons stripped, the rest become the
    /// summary joined with single spaces, and the description starts empty.
    pub fn new(task_id: u64, entry: &Vec<String>) -> (r: TaskDetail)
        ensures
            r@ == detail_new_spec(task_id, words_of(entry@)),
    {
        let ghost all = words_of(entry@);
        let mut summary = String::new();
        let mut tags: Vec<String> = Vec::new();
        let mut any_kept = false;
        let mut i: usize = 0;
        while i < entry.len()
            invariant
                0 <= i <= entry@.len(),
                all == words_of(entry@),
                summary@ == join_space(kept_words(all.subrange(0, i as int))),
                any_kept == (kept_words(all.subrange(0, i as int)).len() > 0),
                tags@.map_values(|t: String| t@) == tag_list(all.subrange(0, i as int)),
            decreases entry@.len() - i,
        {
            let w: &String = &entry[i];
            let ghost pre = all.subrange(0, i as int);
            let ghost cur = all.subrange(0, i + 1);
            proof {
                assert(cur.drop_last() =~= pre);
                assert(cur.last() == w@);
            }
            let n = w.as_str().unicode_len();
            let tagged = n >= 1 && w.as_str().get_char(0) == ':' && w.as_str().get_char(n - 1)
                == ':';
            proof {
                assert(tagged == is_tag_word(w@));
            }
            if tagged {
                let e = colon_end_x(w.as_str());
                let tag = w.as_str().substring_char(1, e).to_owned();
                proof {
                    assert(tag@ == tag_content(w@));
                }
                tags.push(tag);
                proof {
                    assert(tags@.map_values(|t: String| t@) =~= tag_list(cur));
                }
            } else {
                let ghost ks = kept_words(pre);
                if any_kept {
                    summary.append(" ");
                }
                summary.append(w.as_str());
                any_kept = true;
                proof {
                    let ks2 = kept_words(cur);
                    assert(ks2 == ks.push(w@));
                    assert(ks2.drop_last() =~= ks);
                    if ks.len() == 0 {
                        assert(summary@ =~= join_space(ks2));
                    } else {
                        assert(summary@ =~= join_space(ks2));
                    }
                }
                proof {
                    assert(tags@.map_values(|t: String| t@) =~= tag_list(cur));
                }
            }
            i = i + 1;
        }
        proof {
            assert(all.subrange(0, entry@.len() as int) =~= all);
        }
        TaskDetail { id: task_id, summary, description: String::new(), tags }
    }

    /// The structured header of this document: the id, summary and tags,
    /// copied; the description is not part of the header.
    pub fn header(&self) -> (r: TaskDetailHeader)
        ensures
            r.id == self@.id,
            r.summary@ == self@.summary,
            r.tags@.map_values(|t: String| t@) == self@.tags,
    {
        let mut tags: Vec<String> = Vec::new();
        let mut i: usize = 0;
        while i < self.tags.len()
            invariant
                0 <= i <= self.tags.len(),
                tags@.len() == i,
                forall|j: int| 0 <= j < i ==> #[trigger] tags@[j]@ == self.tags@[j]@,
            decreases self.tags.len() - i,
        {
            let t = self.tags[i].clone();
            tags.push(t);
            i = i + 1;
        }
        proof {
            assert(tags@.map_values(|t: String| t@) =~= self.tags@.map_values(|t: String| t@));
        }
        TaskDetailHeader { id: self.id, summary: self.summary.clone(), tags }
    }
}

// ---------------------------------------------------------------------------
// The document text
// ---------------------------------------------------------------------------

/// One serialized tag line.
pub open spec fn emit_tags(ts: Seq<Seq<char>>) -> Seq<char>
    decreases ts.len(),
{
    if ts.len() == 0 {
        Seq::empty()
    } else {
        "- "@ + ts[0] + "\n"@ + emit_tags(ts.drop_first())
    }
}

/// The whole serialized detail document: a document marker, the header —
/// id, summary, tags — a separator line, then the free-text description
/// verbatim to the end of the file.
pub open spec fn emit_detail(d: TaskDetailView) -> Seq<char> {
    "---"@ + "\n"@ + "id: "@ + dec_of(d.id as nat) + "\n"@ + "summary: "@ + d.summary + "\n"@
        + "tags:"@ + "\n"@ + emit_tags(d.tags) + "---"@ + "\n"@ + d.description
}

/// The detail documents that round-trip: summary and tags each on a line
/// of their own. The description is free: it is the unparsed tail.
pub open spec fn detail_line_safe(d: TaskDetailView) -> bool {
    &&& no_newline(d.summary)
    &&& forall|i: int| 0 <= i < d.tags.len() ==> no_newline(#[trigger] d.tags[i])
}

/// Tags parsed while tag lines continue.
pub open spec fn parse_tags(s: Seq<char>, i: int, fuel: nat) -> Option<(Seq<Seq<char>>, int)>
    decreases fuel,
{
    if !starts_with_at(s, i, "- "@) {
        Some((Seq::empty(), i))
    } else if fuel == 0 {
        None
    } else {
        match read_field(s, i, "- "@) {
            Some((t, i2)) => match parse_tags(s, i2, (fuel - 1) as nat) {
                Some((ts, i3)) => Some((seq![t] + ts, i3)),
                None => None,
            },
            None => None,
        }
    }
}

/// The detail documents the reader accepts, and what they mean.
pub open spec fn parse_detail_spec(s: Seq<char>) -> Option<TaskDetailView> {
    let i0 = crate::codec::skip_prelude(s, 0, s.len() as nat);
    match read_field(s, i0, "id: "@) {
        Some((idc, i1)) => match parse_u64_spec(idc) {
            Some(id) => match read_field(s, i1, "summary: "@) {
                Some((summary, i2)) => match read_field(s, i2, "tags:"@) {
                    Some((tc, i3)) => {
                        let tr = if tc == " []"@ {
                            Some((Seq::<Seq<char>>::empty(), i3))
                        } else if tc == ""@ {
                            parse_tags(s, i3, s.len() as nat)
                        } else {
                            None
                        };
                        match tr {
                            Some((tags, i4)) => match read_field(s, i4, "---"@) {
                                Some((sc, i5)) => if sc == ""@ {
                                    Some(
                                        TaskDetailView {
                                            id,
                                            summary,
                                            description: s.subrange(i5, s.len() as int),
                                            tags,
                                        },
                                    )
                                } else {
                                    None
                                },
                                None => None,
                            },
                            None => None,
                        }
                    },
                    None => None,
                },
                None => None,
            },
            None => None,
        },
        None => None,
    }
}

fn emit_tags_x(out: &mut String, ts: &Vec<String>, i: usize)
    requires
        i <= ts.len(),
    ensures
        final(out)@ == old(out)@ + emit_tags(ts@.map_values(|t: String| t@).skip(i as int)),
    decreases ts.len() - i,
{
    let ghost tv = ts@.map_values(|t: String| t@);
    if i < ts.len() {
        out.append("- ");
        out.append(ts[i].as_str());
        out.append("\n");
        emit_tags_x(out, ts, i + 1);
        proof {
            assert(tv.skip(i as int).drop_first() =~= tv.skip(i + 1));
            assert(tv.skip(i as int)[0] == tv[i as int]);
            assert(out@ =~= old(out)@ + emit_tags(tv.skip(i as int)));
        }
    } else {
        proof {
            assert(tv.skip(i as int) =~= Seq::<Seq<char>>::empty());
            assert(out@ =~= old(out)@ + emit_tags(tv.skip(i as int)));
        }
    }
}

fn parse_tags_x(s: &str, v: &Vec<char>, i: usize, fuel: usize) -> (r: Option<(Vec<String>, usize)>)
    requires
        v@ == s@,
        i <= v.len(),
    ensures
        match r {
            Some(tj) => ({
                let (ts, j) = tj;
                parse_tags(v@, i as int, fuel as nat) == Some(
                    (ts@.map_values(|t: String| t@), j as int),
                ) && i <= j <= v.len()
            }),
            None => parse_tags(v@, i as int, fuel as nat) is None,
        },
    decreases fuel,
{
    if !starts_with_at_x(v, i, "- ") {
        let out: Vec<String> = Vec::new();
        proof {
            assert(out@.map_values(|t: String| t@) =~= Seq::<Seq<char>>::empty());
        }
        return Some((out, i));
    }
    if fuel == 0 {
        return None;
    }
    match read_field_x(v, i, "- ") {
        Some((a, k)) => {
            let tag = s.substring_char(a, k).to_owned();
            match parse_tags_x(s, v, k + 1, fuel - 1) {
                Some((ts, i3)) => {
                    let mut out: Vec<String> = Vec::new();
                    let ghost rest_views = ts@.map_values(|t: String| t@);
                    out.push(tag);
                    let mut ts = ts;
                    out.append(&mut ts);
                    proof {
                        assert(out@.map_values(|t: String| t@) =~= seq![out@[0]@] + rest_views);
                    }
                    Some((out, i3))
                },
                None => None,
            }
        },
        None => None,
    }
}

impl TaskDetail {
    /// Serializes this detail document. Detail files are rewritten freely,
    /// so unlike the index there is no overwrite guard.
    pub fn save(&self) -> (r: String)
        ensures
            r@ == emit_detail(self@),
    {
        let mut out = String::new();
        out.append("---");
        out.append("\n");
        out.append("id: ");
        push_dec(&mut out, self.id);
        out.append("\n");
        out.append("summary: ");
        out.append(self.summary.as_str());
        out.append("\n");
        out.append("tags:");
        out.append("\n");
        emit_tags_x(&mut out, &self.tags, 0);
        out.append("---");
        out.append("\n");
        out.append(self.description.as_str());
        proof {
            assert(self.tags@.map_values(|t: String| t@).skip(0) =~= self@.tags);
            assert(out@ =~= emit_detail(self@));
        }
        out
    }
}

impl Task {
    /// Reads a detail document back from the text of the file at this
    /// task's detail path. Yields exactly the documents that
    /// `parse_detail_spec` accepts, and a parse error on every other text.
    pub fn detail(&self, contents: &str) -> (r: Result<TaskDetail, PmError>)
        ensures
            r is Ok <==> parse_detail_spec(contents@) is Some,
            r matches Ok(d) ==> Some(d@) == parse_detail_spec(contents@),
            r is Err ==> r == Err::<TaskDetail, PmError>(PmError::Parse),
    {
        let v = str_chars(contents);
        let i0 = crate::codec::skip_prelude_x(&v, 0, v.len());
        match read_field_x(&v, i0, "id: ") {
            Some((a0, k0)) => match parse_u64_range(&v, a0, k0) {
                Some(id) => match read_field_x(&v, k0 + 1, "summary: ") {
                    Some((a1, k1)) => {
                        let summary = contents.substring_char(a1, k1).to_owned();
                        match read_field_x(&v, k1 + 1, "tags:") {
                            Some((a2, k2)) => {
                                let tr: Option<(Vec<String>, usize)> = if range_eq_str(
                                    &v,
                                    a2,
                                    k2,
                                    " []",
                                ) {
                                    let empty_tags: Vec<String> = Vec::new();
                                    proof {
                                        assert(empty_tags@.map_values(|t: String| t@)
                                            =~= Seq::<Seq<char>>::empty());
                                    }
                                    Some((empty_tags, k2 + 1))
                                } else if range_eq_str(&v, a2, k2, "") {
                                    parse_tags_x(contents, &v, k2 + 1, v.len())
                                } else {
                                    None
                                };
                                match tr {
                                    Some((tags, i4)) => match read_field_x(&v, i4, "---") {
                                        Some((a3, k3)) => {
                                            if !range_eq_str(&v, a3, k3, "") {
                                                return Err(PmError::Parse);
                                            }
                                            let n = contents.unicode_len();
                                            let description = contents.substring_char(
                                                k3 + 1,
                                                n,
                                            ).to_owned();
                                            Ok(TaskDetail { id, summary, description, tags })
                                        },
                                        None => Err(PmError::Parse),
                                    },
                                    None => Err(PmError::Parse),
                                }
                            },
                            None => Err(PmError::Parse),
                        }
                    },
                    None => Err(PmError::Parse),
                },
                None => Err(PmError::Parse),
            },
            None => Err(PmError::Parse),
        }
    }
}

proof fn lemma_parse_tags_inv(s: Seq<char>, i: int, ts: Seq<Seq<char>>, rest: Seq<char>, fuel: nat)
    requires
        0 <= i <= s.len(),
        s.subrange(i, s.len() as int) == emit_tags(ts) + rest,
        forall|j: int| 0 <= j < ts.len() ==> no_newline(#[trigger] ts[j]),
        fuel >= s.len() - i,
        !starts_with_at(rest, 0, "- "@),
    ensures
        parse_tags(s, i, fuel) == Some((ts, i + emit_tags(ts).len())),
        s.subrange(i + emit_tags(ts).len(), s.len() as int) == rest,
    decreases ts.len(),
{
    reveal_strlit("- ");
    reveal_strlit("\n");
    let p = "- "@;
    if ts.len() == 0 {
        assert(s.subrange(i, s.len() as int) =~= rest);
        if starts_with_at(s, i, p) {
            assert forall|j: int| 0 <= j < p.len() implies rest.subrange(0, p.len() as int)[j]
                == p[j] by {
                assert(s.subrange(i, i + p.len())[j] == p[j]);
                assert(s.subrange(i, s.len() as int)[j] == s[i + j]);
            }
            assert(rest.subrange(0, p.len() as int) =~= p);
            assert(starts_with_at(rest, 0, p));
        }
        assert(parse_tags(s, i, fuel) == Some((ts, i)));
        assert(emit_tags(ts).len() == 0);
    } else {
        let t0 = ts[0];
        let tail = ts.drop_first();
        let rest1 = emit_tags(tail) + rest;
        assert(emit_tags(ts) == p + t0 + "\n"@ + emit_tags(tail));
        assert(s.subrange(i, s.len() as int) =~= p + t0 + seq!['\n'] + rest1);
        lemma_read_field_inv(s, i, p, t0, rest1);
        let i2 = i + p.len() + t0.len() + 1;
        assert forall|j: int| 0 <= j < p.len() implies s.subrange(i, i + p.len())[j] == p[j] by {
            let suf = s.subrange(i, s.len() as int);
            assert(suf[j] == s[i + j]);
            assert(suf[j] == p[j]);
        }
        assert(s.subrange(i, i + p.len()) =~= p);
        assert(starts_with_at(s, i, p));
        assert(fuel > 0);
        assert forall|j: int| 0 <= j < tail.len() implies no_newline(#[trigger] tail[j]) by {
            assert(tail[j] == ts[j + 1]);
        }
        lemma_parse_tags_inv(s, i2, tail, rest, (fuel - 1) as nat);
        assert(seq![t0] + tail =~= ts);
        assert(i2 + emit_tags(tail).len() == i + emit_tags(ts).len());
    }
}

/// Round trip for detail documents: what `save` writes, `detail` reads
/// back unchanged — id, summary, tags and the description verbatim — for
/// every document whose summary and tags are single lines.
pub proof fn lemma_detail_roundtrip(d: TaskDetailView)
    requires
        detail_line_safe(d),
    ensures
        parse_detail_spec(emit_detail(d)) == Some(d),
{
    reveal_strlit("\n");
    reveal_strlit("");
    reveal_strlit("---");
    reveal_strlit("id: ");
    reveal_strlit("summary: ");
    reveal_strlit("tags:");
    reveal_strlit(" []");
    reveal_strlit("- ");
    lemma_dec_of_val(d.id as nat);
    lemma_dec_of_roundtrip(d.id);
    let s = emit_detail(d);
    let dd = dec_of(d.id as nat);
    let dl = dd.len() as int;
    let restsep = "---"@ + ""@ + seq!['\n'] + d.description;
    let rest3 = emit_tags(d.tags) + restsep;
    let rest2 = "tags:"@ + ""@ + seq!['\n'] + rest3;
    let rest1 = "summary: "@ + d.summary + seq!['\n'] + rest2;
    let rest0 = "id: "@ + dd + seq!['\n'] + rest1;
    assert(s.subrange(0, s.len() as int) =~= "---"@ + seq!['\n'] + rest0);
    // the document marker line is skipped
    assert(s[3] == '\n');
    assert forall|j: int| 0 <= j < 3 implies s[j] != '\n' by {
        assert(s.subrange(0, s.len() as int)[j] == s[j]);
        assert(s.subrange(0, s.len() as int)[j] == ("---"@)[j]);
        if j == 0 {
        } else if j == 1 {
        } else {
            assert(j == 2);
        }
    }
    lemma_find_nl_at(s, 0, 3);
    assert(s.subrange(0, 3) =~= "---"@);
    // the id line is not skipped: it is neither blank nor a marker
    assert(s.subrange(4, s.len() as int) =~= rest0) by {
        assert forall|j: int| 0 <= j < s.len() - 4 implies s.subrange(4, s.len() as int)[j]
            == rest0[j] by {
            assert(s.subrange(0, s.len() as int)[j + 4] == s[j + 4]);
            assert(s.subrange(0, s.len() as int)[j + 4] == rest0[j]);
        }
    }
    assert(s[8 + dl] == '\n');
    assert forall|j: int| 4 <= j < 8 + dl implies s[j] != '\n' by {
        assert(s.subrange(4, s.len() as int)[j - 4] == s[j]);
        assert(s.subrange(4, s.len() as int)[j - 4] == rest0[j - 4]);
        if j - 4 < 4 {
            let k = j - 4;
            assert(rest0[k] == ("id: "@)[k]);
            if k == 0 {
            } else if k == 1 {
            } else if k == 2 {
            } else {
                assert(k == 3);
            }
        } else {
            assert(rest0[j - 4] == dd[j - 8]);
        }
    }
    lemma_find_nl_at(s, 4, 8 + dl);
    assert(s.subrange(4, 8 + dl).len() == 4 + dl);
    assert((""@).len() == 0 && ("---"@).len() == 3);
    assert(crate::codec::skip_prelude(s, 4, (s.len() - 1) as nat) == 4);
    assert(s.len() >= 2);
    assert(crate::codec::skip_prelude(s, 0, s.len() as nat) == 4);
    // the header fields
    lemma_read_field_inv(s, 4, "id: "@, dd, rest1);
    let i1: int = 4 + 4 + dl + 1;
    lemma_read_field_inv(s, i1, "summary: "@, d.summary, rest2);
    let i2: int = i1 + 9 + d.summary.len() + 1;
    assert(no_newline(""@));
    lemma_read_field_inv(s, i2, "tags:"@, ""@, rest3);
    let i3: int = i2 + 5 + 0 + 1;
    assert(""@ != " []"@);
    // after the tag lines comes the separator, not a tag
    assert(!starts_with_at(restsep, 0, "- "@)) by {
        if starts_with_at(restsep, 0, "- "@) {
            assert(restsep.subrange(0, 2)[1] == ("- "@)[1]);
            assert(restsep[1] == ' ');
            assert(restsep[1] == ("---"@)[1]);
        }
    }
    lemma_parse_tags_inv(s, i3, d.tags, restsep, s.len() as nat);
    let i4: int = i3 + emit_tags(d.tags).len();
    lemma_read_field_inv(s, i4, "---"@, ""@, d.description);
    let i5: int = i4 + 3 + 0 + 1;
    assert(TaskDetailView {
        id: d.id,
        summary: d.summary,
        description: s.subrange(i5, s.len() as int),
        tags: d.tags,
    } =~= d);
}

} // verus!
