//! Where the documents live under a project root: the index file and one
//! detail file per task, the task id zero-padded to at least three digits.
//! The root itself is found by the caller walking the ancestors of the
//! working directory; the choice among them is made here.
use vstd::prelude::*;
use vstd::string::StringExecFns;
use crate::text::{dec_of, push_dec};
use crate::index::Index;

verus! {

/// The task id as at least three digits, zero-padded.
pub open spec fn pad3_of(n: nat) -> Seq<char> {
    if n < 10 {
        "00"@ + dec_of(n)
    } else if n < 100 {
        "0"@ + dec_of(n)
    } else {
        dec_of(n)
    }
}

/// The index file's path under a project root.
pub open spec fn index_path_spec(root: Seq<char>) -> Seq<char> {
    root + "/pm/index.yml"@
}

/// A task's detail file path under a project root.
pub open spec fn detail_path_spec(root: Seq<char>, task_id: u64) -> Seq<char> {
    root + "/pm/tasks/"@ + pad3_of(task_id as nat) + ".md"@
}

/// The path of the index file for the project rooted at `root`.
pub fn find_index_path(root: &str) -> (r: String)
    ensures
        r@ == index_path_spec(root@),
{
    let mut out = root.to_owned();
    out.append("/pm/index.yml");
    out
}

/// Picks the project root among the ancestors of a starting directory:
/// `has_marker[k]` says whether the `k`-th ancestor, nearest first, holds
/// the version-control marker directory. The nearest marked ancestor wins;
/// `None` when the walk reached the filesystem root without a match.
pub fn find_project_root(has_marker: &Vec<bool>) -> (r: Option<usize>)
    ensures
        match r {
            Some(k) => k < has_marker.len() && has_marker@[k as int] && forall|j: int|
                0 <= j < k ==> !has_marker@[j],
            None => forall|j: int| 0 <= j < has_marker.len() ==> !has_marker@[j],
        },
{
    let mut k: usize = 0;
    while k < has_marker.len()
        invariant
            0 <= k <= has_marker.len(),
            forall|j: int| 0 <= j < k ==> !has_marker@[j],
        decreases has_marker.len() - k,
    {
        if has_marker[k] {
            return Some(k);
        }
        k = k + 1;
    }
    None
}

impl Index {
    /// The detail file path for a task id under `root`. Computed from the
    /// id alone: deleting works even when the index entry is already gone.
    pub fn detail_path(&self, root: &str, task_id: u64) -> (r: String)
        ensures
            r@ == detail_path_spec(root@, task_id),
    {
        let mut out = root.to_owned();
        out.append("/pm/tasks/");
        if task_id < 10 {
            out.append("00");
        } else if task_id < 100 {
            out.append("0");
        }
        push_dec(&mut out, task_id);
        out.append(".md");
        proof {
            assert(out@ =~= detail_path_spec(root@, task_id));
        }
        out
    }
}

} // verus!
