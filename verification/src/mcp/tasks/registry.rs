//! The in-process task engine's bookkeeping and decisions.
//!
//! A **task** is a background invocation of another tool. Tasks live in a map
//! keyed by agent instance hierarchy (AIH); ids are scoped per AIH, so
//! `wait`/`cancel` only see tasks created under the same AIH. On completion a
//! task either hands its result to a waiting `wait`, or, if no one waited
//! first, wakes the agent with a message. Cancellation is immediate and
//! silent. The worker's own handle (`H`) is kept opaque here.
use vstd::prelude::*;

use crate::text::string_views;

use crate::mcp::common::{id_for, well_formed_id, TextReply};
use crate::mcp::json::{encode_object_rows, json_object_rows, row_views, FieldView, JsonField};
use crate::mcp::list_tools::listing_body;
use crate::mcp::registry::{AihRegistry, EntryKey};

verus! {

/// The terminal state of a task.
#[derive(Clone)]
pub enum Outcome<R> {
    /// The underlying tool ran; `result` is its converted result and
    /// `is_error` its error flag.
    Completed { result: R, is_error: bool },
    /// The call could not be made (executor or argument failure).
    Failed(String),
    /// The task was cancelled before it finished.
    Cancelled,
}

/// The status `list` reports for a task with outcome `outcome` (`None` while
/// it still runs).
pub open spec fn status_of<R>(outcome: Option<Outcome<R>>) -> Seq<char> {
    match outcome {
        None => "running"@,
        Some(Outcome::Cancelled) => "cancelled"@,
        Some(Outcome::Failed(_)) => "error"@,
        Some(Outcome::Completed { is_error, .. }) => if is_error {
            "error"@
        } else {
            "completed"@
        },
    }
}

/// The listed status follows the outcome: a task still running is
/// "running", a cancelled one "cancelled", one that could not be run
/// "error", and a completed one "error" exactly when its tool's result
/// carries the error flag and "completed" otherwise. Distinct kinds of
/// outcome get distinct words.
pub proof fn lemma_status_follows_outcome<R>(result: R, is_error: bool, e: String)
    ensures
        status_of::<R>(None) == "running"@,
        status_of::<R>(Some(Outcome::Cancelled)) == "cancelled"@,
        status_of::<R>(Some(Outcome::Failed(e))) == "error"@,
        status_of(Some(Outcome::Completed { result, is_error })) == (if is_error { "error"@ } else { "completed"@ }),
        status_of(Some(Outcome::Completed { result, is_error: true })) != status_of(
            Some(Outcome::Completed { result, is_error: false }),
        ),
        status_of::<R>(None) != status_of::<R>(Some(Outcome::Cancelled)),
{
    reveal_strlit("error");
    reveal_strlit("completed");
    reveal_strlit("running");
    reveal_strlit("cancelled");
    assert("error"@[0] != "completed"@[0]);
    assert("running"@[0] != "cancelled"@[0]);
}

/// The status of a task, as `list` reports it.
pub fn task_status<R>(outcome: Option<&Outcome<R>>) -> (r: &'static str)
    ensures
        r@ == status_of(match outcome {
            Some(o) => Some(*o),
            None => None,
        }),
{
    match outcome {
        None => "running",
        Some(Outcome::Cancelled) => "cancelled",
        Some(Outcome::Failed(_)) => "error",
        Some(Outcome::Completed { is_error, .. }) => if *is_error {
            "error"
        } else {
            "completed"
        },
    }
}

/// The rows `list` reports: each task id with its status.
pub open spec fn task_rows<R>(items: Seq<(String, Option<&Outcome<R>>)>) -> Seq<(Seq<char>, FieldView)> {
    items.map_values(
        |it: (String, Option<&Outcome<R>>)|
            (
                it.0@,
                FieldView::Text(
                    status_of(
                        match it.1 {
                            Some(o) => Some(*o),
                            None => None,
                        },
                    ),
                ),
            ),
    )
}

/// The reply of `list`: a JSON array with one `{"task_id", "status"}` object
/// per item, in order; `items` pairs each live task id with its outcome so
/// far (`None` while it runs).
pub fn task_list_reply<R>(items: &Vec<(String, Option<&Outcome<R>>)>) -> (r: TextReply)
    ensures
        !r.is_error,
        r.text@ == json_object_rows("task_id"@, "status"@, task_rows(items@)),
{
    let mut rows: Vec<(String, JsonField)> = Vec::new();
    let mut i: usize = 0;
    while i < items.len()
        invariant
            i <= items@.len(),
            row_views(rows@) == task_rows(items@.take(i as int)),
        decreases items@.len() - i,
    {
        let (id, outcome) = &items[i];
        let status = task_status(*outcome);
        let row = (id.clone(), JsonField::Text(status.to_string()));
        proof {
            assert(items@.take(i + 1) =~= items@.take(i as int).push(items@[i as int]));
            assert(row_views(rows@.push(row)) =~= row_views(rows@).push((row.0@, row.1@)));
        }
        rows.push(row);
        proof {
            assert(row_views(rows@) =~= task_rows(items@.take(i + 1)));
        }
        i = i + 1;
    }
    proof {
        assert(items@.take(items@.len() as int) =~= items@);
    }
    proof {
        reveal_strlit("task_id");
        reveal_strlit("status");
        assert("task_id"@[0] != "status"@[0]);
    }
    let encoded = encode_object_rows("task_id", "status", &rows);
    TextReply::success(listing_body(encoded))
}

/// How a finished task ended, in the words of the completion message, or
/// `None` for a cancelled task (which stays silent).
pub open spec fn completion_kind<R>(outcome: Outcome<R>) -> Option<Seq<char>> {
    match outcome {
        Outcome::Cancelled => None,
        Outcome::Failed(_) => Some("with an error"@),
        Outcome::Completed { is_error, .. } => Some(
            if is_error {
                "with an error"@
            } else {
                "successfully"@
            },
        ),
    }
}

/// The completion message for task `id` that ended as `kind` says.
pub open spec fn nudge_text(id: Seq<char>, kind: Seq<char>) -> Seq<char> {
    "<quas-wex-exort>\nTask '"@ + id + "' has completed "@ + kind + ".\n</quas-wex-exort>"@
}

/// The message a finished task sends its agent: one is sent only when nobody
/// waited on the task and it was not cancelled.
pub open spec fn nudge_for<R>(id: Seq<char>, waited: bool, outcome: Outcome<R>) -> Option<Seq<char>> {
    if waited {
        None
    } else {
        match completion_kind(outcome) {
            Some(kind) => Some(nudge_text(id, kind)),
            None => None,
        }
    }
}

/// A task sends a completion message exactly when nobody waited on it (or
/// cancelled it) and it was not cancelled; the message names the task.
pub proof fn lemma_nudge_only_when_unclaimed<R>(id: Seq<char>, waited: bool, outcome: Outcome<R>)
    ensures
        nudge_for(id, waited, outcome) is Some <==> (!waited && !(outcome is Cancelled)),
        nudge_for(id, waited, outcome) matches Some(text) ==> text == nudge_text(id, completion_kind(outcome)->0),
{
}

/// The completion message tells the agent whether the tool's result was an
/// error: a task that finished with its error flag set (or that could not be
/// run) is announced as completed "with an error", one whose flag is off as
/// completed "successfully", and the two announcements always differ.
pub proof fn lemma_nudge_reports_error_flag<R>(id: Seq<char>, result: R, is_error: bool, e: String)
    ensures
        nudge_for(id, false, Outcome::Completed { result, is_error }) == Some(
            "<quas-wex-exort>\nTask '"@ + id + "' has completed "@ + (if is_error {
                "with an error"@
            } else {
                "successfully"@
            }) + ".\n</quas-wex-exort>"@,
        ),
        nudge_for(id, false, Outcome::<R>::Failed(e)) == Some(
            "<quas-wex-exort>\nTask '"@ + id + "' has completed with an error.\n</quas-wex-exort>"@,
        ),
        nudge_for(id, false, Outcome::Completed { result, is_error: true }) != nudge_for(
            id,
            false,
            Outcome::Completed { result, is_error: false },
        ),
{
    reveal_strlit("<quas-wex-exort>\nTask '");
    reveal_strlit("' has completed ");
    reveal_strlit("with an error");
    reveal_strlit("successfully");
    reveal_strlit(".\n</quas-wex-exort>");
    reveal_strlit("' has completed with an error.\n</quas-wex-exort>");
    let head = "<quas-wex-exort>\nTask '"@ + id + "' has completed "@;
    let bad = head + "with an error"@ + ".\n</quas-wex-exort>"@;
    let good = head + "successfully"@ + ".\n</quas-wex-exort>"@;
    assert("<quas-wex-exort>\nTask '"@ + id + "' has completed with an error.\n</quas-wex-exort>"@ =~= bad);
    assert(bad[head.len() as int] == 'w');
    assert(good[head.len() as int] == 's');
}

/// Decide the completion message of task `id` once it has finished as
/// `outcome`: `None` when the agent already waited on it (or cancelled it),
/// or when it was cancelled.
pub fn completion_nudge<R>(id: &str, waited: bool, outcome: &Outcome<R>) -> (r: Option<String>)
    ensures
        r is Some <==> nudge_for(id@, waited, *outcome) is Some,
        r matches Some(text) ==> Some(text@) == nudge_for(id@, waited, *outcome),
        (!waited && (outcome is Failed || (outcome matches Outcome::Completed { is_error: true, .. }))) ==> (r matches Some(text)
            && text@ == "<quas-wex-exort>\nTask '"@ + id@ + "' has completed with an error.\n</quas-wex-exort>"@),
        (!waited && (outcome matches Outcome::Completed { is_error: false, .. })) ==> (r matches Some(text)
            && text@ == "<quas-wex-exort>\nTask '"@ + id@ + "' has completed successfully.\n</quas-wex-exort>"@),
{
    if waited {
        return None;
    }
    let kind = match outcome {
        Outcome::Cancelled => {
            return None;
        },
        Outcome::Failed(_) => "with an error",
        Outcome::Completed { is_error, .. } => if *is_error {
            "with an error"
        } else {
            "successfully"
        },
    };
    let mut text = "<quas-wex-exort>\nTask '".to_string();
    text.append(id);
    text.append("' has completed ");
    text.append(kind);
    text.append(".\n</quas-wex-exort>");
    proof {
        reveal_strlit("' has completed ");
        reveal_strlit("with an error");
        reveal_strlit("successfully");
        reveal_strlit(".\n</quas-wex-exort>");
        reveal_strlit("' has completed with an error.\n</quas-wex-exort>");
        reveal_strlit("' has completed successfully.\n</quas-wex-exort>");
        let head = "<quas-wex-exort>\nTask '"@ + id@;
        assert(text@ =~= head + ("' has completed "@ + kind@ + ".\n</quas-wex-exort>"@));
        assert("' has completed "@ + "with an error"@ + ".\n</quas-wex-exort>"@
            =~= "' has completed with an error.\n</quas-wex-exort>"@);
        assert("' has completed "@ + "successfully"@ + ".\n</quas-wex-exort>"@
            =~= "' has completed successfully.\n</quas-wex-exort>"@);
    }
    Some(text)
}

/// What `wait` replies once the task's outcome is known (`None` when the task
/// ended without publishing one): the tool's own result when it ran,
/// otherwise an error text.
pub open spec fn wait_error_text<R>(outcome: Option<Outcome<R>>) -> Seq<char> {
    match outcome {
        None => "task ended unexpectedly"@,
        Some(Outcome::Failed(e)) => "task failed: "@ + e@,
        Some(Outcome::Cancelled) => "task was cancelled"@,
        Some(Outcome::Completed { .. }) => Seq::empty(),
    }
}

/// The reply of `wait` for a task that finished as `outcome`.
pub fn wait_reply<R>(outcome: Option<Outcome<R>>) -> (r: Result<R, TextReply>)
    ensures
        outcome matches Some(Outcome::Completed { result, .. }) ==> r == Ok::<R, TextReply>(result),
        !(outcome matches Some(Outcome::Completed { .. })) ==> (r matches Err(reply) && reply.is_error && reply.text@ == wait_error_text(outcome)),
{
    match outcome {
        None => Err(TextReply::error("task ended unexpectedly".to_string())),
        Some(Outcome::Completed { result, .. }) => Ok(result),
        Some(Outcome::Failed(e)) => {
            let mut text = "task failed: ".to_string();
            text.append(e.as_str());
            Err(TextReply::error(text))
        },
        Some(Outcome::Cancelled) => Err(TextReply::error("task was cancelled".to_string())),
    }
}

/// The per-process task registry, keyed by AIH then task id.
pub struct TaskRegistry<H> {
    by_aih: AihRegistry<H>,
}

impl<H> View for TaskRegistry<H> {
    type V = Map<EntryKey, H>;

    closed spec fn view(&self) -> Map<EntryKey, H> {
        self.by_aih@
    }
}

impl<H> TaskRegistry<H> {
    /// An empty registry.
    pub fn new() -> (r: Self)
        ensures
            r@ == Map::<EntryKey, H>::empty(),
    {
        TaskRegistry { by_aih: AihRegistry::new() }
    }

    /// Record a new task for `aih` whose worker is `handle`, and return its
    /// fresh id.
    pub fn create(&mut self, aih: String, handle: H) -> (id: String)
        ensures
            well_formed_id(id@),
            exists|n: u64| id@ == id_for(n),
            final(self)@ == old(self)@.insert((aih@, id@), handle),
    {
        self.by_aih.register(aih, handle)
    }

    /// Claim (remove) a task for `wait`: it immediately disappears from
    /// `list`, and any later `wait`/`cancel` for that id gets "task not
    /// found". The handle is handed back to await the result.
    pub fn claim(&mut self, aih: &str, id: &str) -> (r: Result<H, TextReply>)
        ensures
            final(self)@ == old(self)@.remove((aih@, id@)),
            old(self)@.contains_key((aih@, id@)) ==> r == Ok::<H, TextReply>(old(self)@[(aih@, id@)]),
            !old(self)@.contains_key((aih@, id@)) ==> (r matches Err(reply) && reply.is_error && reply.text@ == "task not found"@),
    {
        match self.by_aih.take(aih, id) {
            Some(handle) => Ok(handle),
            None => Err(TextReply::error("task not found".to_string())),
        }
    }

    /// Cancel a task: claim (remove) it and hand back its worker handle so
    /// the caller can stop it silently.
    pub fn cancel(&mut self, aih: &str, id: &str) -> (r: (TextReply, Option<H>))
        ensures
            final(self)@ == old(self)@.remove((aih@, id@)),
            old(self)@.contains_key((aih@, id@)) ==> {
                &&& !r.0.is_error
                &&& r.0.text@ == "cancelled"@
                &&& r.1 == Some(old(self)@[(aih@, id@)])
            },
            !old(self)@.contains_key((aih@, id@)) ==> {
                &&& r.0.is_error
                &&& r.0.text@ == "task not found"@
                &&& r.1 is None
            },
    {
        match self.by_aih.take(aih, id) {
            Some(handle) => (TextReply::success("cancelled".to_string()), Some(handle)),
            None => (TextReply::error("task not found".to_string()), None),
        }
    }

    /// The ids of the AIH's tasks, each once.
    pub fn list(&self, aih: &str) -> (r: Vec<String>)
        ensures
            string_views(r@).no_duplicates(),
            forall|id: Seq<char>| string_views(r@).contains(id) <==> self@.contains_key((aih@, id)),
    {
        self.by_aih.ids(aih)
    }

    /// The AIH's live tasks, each id once, paired with its worker handle.
    pub fn entries(&self, aih: &str) -> (r: Vec<(String, &H)>)
        ensures
            string_views(entry_ids(r@)).no_duplicates(),
            forall|id: Seq<char>| string_views(entry_ids(r@)).contains(id) <==> self@.contains_key((aih@, id)),
            forall|i: int| 0 <= i < r@.len() ==> *(#[trigger] r@[i]).1 == self@[(aih@, r@[i].0@)],
    {
        let ids = self.by_aih.ids(aih);
        let mut out: Vec<(String, &H)> = Vec::new();
        let mut i: usize = 0;
        while i < ids.len()
            invariant
                i <= ids@.len(),
                forall|id: Seq<char>| string_views(ids@).contains(id) <==> self@.contains_key((aih@, id)),
                out@.len() == i,
                entry_ids(out@) == ids@.take(i as int),
                forall|j: int| 0 <= j < out@.len() ==> *(#[trigger] out@[j]).1 == self@[(aih@, out@[j].0@)],
            decreases ids@.len() - i,
        {
            let id = ids[i].clone();
            proof {
                assert(string_views(ids@)[i as int] == id@);
                assert(string_views(ids@).contains(id@));
            }
            match self.by_aih.get(aih, id.as_str()) {
                Some(handle) => {
                    let ghost before = out@;
                    out.push((id, handle));
                    proof {
                        assert forall|j: int| 0 <= j < out@.len() implies *(#[trigger] out@[j]).1 == self@[(aih@, out@[j].0@)] by {
                            if j < i {
                                assert(out@[j] == before[j]);
                            }
                        }
                        assert(entry_ids(out@) =~= ids@.take(i + 1)) by {
                            assert(ids@.take(i + 1) =~= ids@.take(i as int).push(ids@[i as int]));
                            assert(entry_ids(out@) =~= entry_ids(before).push(out@[i as int].0));
                        }
                    }
                },
                None => {
                    assert(false);
                },
            }
            i = i + 1;
        }
        proof {
            assert(ids@.take(ids@.len() as int) =~= ids@);
        }
        out
    }

    /// The worker handle of task `id` under `aih`, if it is live.
    pub fn get(&self, aih: &str, id: &str) -> (r: Option<&H>)
        ensures
            r is Some <==> self@.contains_key((aih@, id@)),
            r matches Some(h) ==> *h == self@[(aih@, id@)],
    {
        self.by_aih.get(aih, id)
    }
}

/// The ids of listed entries.
pub open spec fn entry_ids<H>(entries: Seq<(String, &H)>) -> Seq<String> {
    entries.map_values(|e: (String, &H)| e.0)
}

} // verus!
