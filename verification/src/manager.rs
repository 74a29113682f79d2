//! The command layer over a loaded index: each operation mutates the
//! in-memory registry and hands back the text that must be persisted for
//! the mutation to take effect on disk. The caller writes the files.
use vstd::prelude::*;
use vstd::string::StringExecFns;
use crate::detail::{detail_new_spec, join_space, words_of, TaskDetail};
use crate::error::PmError;
use crate::index::{has_task, index_line_safe, index_wf, max_id, move_applied, spec_next_id, task_created};
use crate::index::{first_idx, ids_unique, Index, IndexView, Status};
use crate::codec::emit_index;
use crate::paths::pad3_of;
use crate::text::push_dec;

verus! {

/// One listing line of the per-status display: the zero-padded id and the
/// summary, and the tags — joined with spaces and wrapped in colons — when
/// there are any.
pub open spec fn show_line_spec(task_id: u64, summary: Seq<char>, tags: Seq<Seq<char>>) -> Seq<
    char,
> {
    if tags.len() == 0 {
        pad3_of(task_id as nat) + ": "@ + summary
    } else {
        pad3_of(task_id as nat) + ": "@ + summary + "\t\t:"@ + join_space(tags) + ":"@
    }
}

/// Formats one line of the per-status listing.
pub fn show_line(task_id: u64, summary: &str, tags: &Vec<String>) -> (r: String)
    ensures
        r@ == show_line_spec(task_id, summary@, tags@.map_values(|t: String| t@)),
{
    let ghost tv = tags@.map_values(|t: String| t@);
    let mut out = String::new();
    if task_id < 10 {
        out.append("00");
    } else if task_id < 100 {
        out.append("0");
    }
    push_dec(&mut out, task_id);
    out.append(": ");
    out.append(summary);
    if tags.len() > 0 {
        out.append("\t\t:");
        let mut i: usize = 0;
        while i < tags.len()
            invariant
                0 <= i <= tags.len(),
                tv == tags@.map_values(|t: String| t@),
                tags@.len() == tv.len(),
                out@ == pad3_of(task_id as nat) + ": "@ + summary@ + "\t\t:"@ + join_space(
                    tv.subrange(0, i as int),
                ),
            decreases tags.len() - i,
        {
            if i > 0 {
                out.append(" ");
            }
            out.append(tags[i].as_str());
            proof {
                let pre = tv.subrange(0, i as int);
                let cur = tv.subrange(0, i + 1);
                assert(cur.drop_last() =~= pre);
                assert(cur.last() == tv[i as int]);
                assert(out@ =~= pad3_of(task_id as nat) + ": "@ + summary@ + "\t\t:"@
                    + join_space(cur));
            }
            i = i + 1;
        }
        out.append(":");
        proof {
            assert(tv.subrange(0, tv.len() as int) =~= tv);
            assert(out@ =~= show_line_spec(task_id, summary@, tv));
        }
    } else {
        proof {
            assert(out@ =~= show_line_spec(task_id, summary@, tv));
        }
    }
    out
}

/// A registry over one loaded index.
pub struct Manager {
    pub index: Index,
}

impl Manager {
    /// Takes charge of a loaded index.
    pub fn new(index: Index) -> (r: Manager)
        ensures
            r.index == index,
    {
        Manager { index }
    }

    /// Creates a task from the entry words. Returns the serialized index
    /// and the new detail document's text, both of which the caller must
    /// write out — the index first, as creation is not transactional.
    pub fn add(&mut self, entry: &Vec<String>) -> (r: (String, TaskDetail))
        requires
            max_id(old(self).index@.tasks) < u64::MAX,
        ensures
            final(self).index@.name == old(self).index@.name,
            task_created(old(self).index@.tasks, final(self).index@.tasks),
            r.0@ == emit_index(final(self).index@),
            r.1@ == detail_new_spec(
                spec_next_id(old(self).index@.tasks) as u64,
                words_of(entry@),
            ),
            index_wf(old(self).index@) ==> index_wf(final(self).index@),
            index_line_safe(old(self).index@) ==> index_line_safe(final(self).index@),
    {
        let detail = self.index.create_task(entry);
        let text = self.index.save(true, true).unwrap();
        (text, detail)
    }

    /// Moves a task to a status and returns the serialized index to
    /// persist; moving a task to its current status records nothing but
    /// still reports the text to write. Fails exactly when no task has the
    /// id.
    pub fn move_task(&mut self, task_id: u64, status: Status) -> (r: Result<String, PmError>)
        ensures
            r is Ok <==> has_task(old(self).index@.tasks, task_id),
            r is Err ==> final(self).index@ == old(self).index@ && r == Err::<String, PmError>(
                PmError::TaskNotFound,
            ),
            r matches Ok(text) ==> final(self).index@.name == old(self).index@.name
                && move_applied(
                old(self).index@.tasks,
                final(self).index@.tasks,
                task_id,
                status,
            ) && text@ == emit_index(final(self).index@),
            index_wf(old(self).index@) ==> index_wf(final(self).index@),
            index_line_safe(old(self).index@) ==> index_line_safe(final(self).index@),
    {
        match self.index.move_task(task_id, status) {
            Ok(_) => Ok(self.index.save(true, true).unwrap()),
            Err(e) => Err(e),
        }
    }

    /// Removes the task from the index — the caller has already deleted
    /// the detail file — and returns the serialized index to persist. A
    /// missing index entry is not a fault: the deletion of the file was
    /// the operation that mattered.
    pub fn delete_task(&mut self, task_id: u64) -> (r: (bool, String))
        ensures
            r.0 <==> has_task(old(self).index@.tasks, task_id),
            !r.0 ==> final(self).index@ == old(self).index@,
            r.0 ==> final(self).index@.name == old(self).index@.name && final(self).index@.tasks
                == old(self).index@.tasks.remove(first_idx(old(self).index@.tasks, task_id, 0)),
            ids_unique(old(self).index@.tasks) ==> !has_task(final(self).index@.tasks, task_id),
            r.1@ == emit_index(final(self).index@),
            index_wf(old(self).index@) ==> index_wf(final(self).index@),
            index_line_safe(old(self).index@) ==> index_line_safe(final(self).index@),
    {
        let removed = self.index.delete_task(task_id);
        let text = self.index.save(true, true).unwrap();
        (removed, text)
    }

    /// Initializes a project: a fresh index serialized for writing, unless
    /// one already exists and overwriting was not forced.
    pub fn init(name: String, exists: bool, force: bool) -> (r: Result<String, PmError>)
        ensures
            exists && !force ==> r == Err::<String, PmError>(PmError::IndexExists),
            force || !exists ==> (r matches Ok(text) && text@ == emit_index(
                (IndexView { name: name@, tasks: Seq::empty() }),
            )),
    {
        let index = Index::new(name);
        index.save(exists, force)
    }
}

} // verus!
