//! What delegation and the journal do, field by field.
use vstd::prelude::*;
use vstd::string::*;
use vstd::utf8::encode_utf8;

use super::{intent_payload, record_intents, StoreJournalView};
use super::job::{self, child_of, children_with, request_of};
use super::pen::{
    self, child_report, confinement, place_of, spawn_of, system_for, task_for, Mode, PlaceView,
    RanView, SpawnedView,
};
use super::todo;
use super::worktree::LocationView;
use crate::agent::journal::{RunOutcome, ToolIntentView};
use crate::ids::uuid_v5;
use crate::json::{JsonView, NumView};
use crate::llm::{MessageView, Usage};
use crate::path::components;
use crate::sandbox::{default_roots, CapabilitiesView};
use crate::store::{
    entry_in, lemma_session_in, record_in, session_in, PayloadView, SessionView, StoreErrorView,
    StoreView, TodoRowView, TodoView,
};
use crate::store::sessions::children;
use crate::store::status::{derived, AgentStatus};
use crate::store::todos::todo_in;
use crate::store::worker::{short, WorkerErrorView};
use crate::text::{dec, padded};
use crate::tools::ToolErrorView;

verus! {

// ── What an agent call asks for ─────────────────────────────────────────────

/// Whether a field is the boolean true.
pub open spec fn says_true(input: JsonView, key: Seq<char>) -> bool {
    input.get(key) == Some(JsonView::Bool(true))
}

proof fn lemma_modes_differ()
    ensures
        "inspect"@ != "work"@,
{
    reveal_strlit("inspect");
    reveal_strlit("work");
    assert("inspect"@.len() != "work"@.len());
}

/// A spawn is what its input asks for: the prompt as given; mode work where the
/// input says so, and inspect where it says so or nothing; a worktree and the
/// background just where their fields are the boolean true. It is refused for a
/// worktree outside work mode, and for nothing else.
pub proof fn law_spawn_is_as_asked(input: JsonView, prompt: Seq<char>)
    requires
        input.get("prompt"@) == Some(JsonView::Str(prompt)),
        input.get("mode"@) is None || input.get("mode"@) == Some(JsonView::Str("inspect"@))
            || input.get("mode"@) == Some(JsonView::Str("work"@)),
    ensures
        spawn_of(input) is Ok <==> (says_true(input, "worktree"@) ==> input.get("mode"@) == Some(
            JsonView::Str("work"@),
        )),
        spawn_of(input) matches Ok(spawn) ==> {
            &&& spawn.prompt == prompt
            &&& spawn.mode == (if input.get("mode"@) == Some(JsonView::Str("work"@)) {
                Mode::Work
            } else {
                Mode::Inspect
            })
            &&& spawn.worktree == says_true(input, "worktree"@)
            &&& spawn.background == says_true(input, "background"@)
        },
{
    lemma_modes_differ();
}

/// A spawn without a prompt, or with a mode that is neither of the two, is
/// refused.
pub proof fn law_malformed_spawn_is_refused(input: JsonView)
    ensures
        input.str_field("prompt"@) is None ==> spawn_of(input) is Err,
        input.get("mode"@) matches Some(JsonView::Str(m)) ==> m != "inspect"@ && m != "work"@
            ==> spawn_of(input) is Err,
{
}

/// A call runs beside others just where it cannot disturb the shared checkout:
/// it only inspects, or works in its own worktree, or in the background.
pub proof fn law_agent_calls_run_beside(input: JsonView)
    requires
        input.get("mode"@) is None || input.get("mode"@) == Some(JsonView::Str("inspect"@))
            || input.get("mode"@) == Some(JsonView::Str("work"@)),
    ensures
        pen::runs_beside(input) <==> input.get("mode"@) != Some(JsonView::Str("work"@))
            || says_true(input, "worktree"@) || says_true(input, "background"@),
{
    lemma_modes_differ();
}

// ── Spawning ────────────────────────────────────────────────────────────────

/// A spawn of a child that this process runs already changes nothing and runs
/// nothing; a new child within the budget is stored as given and runs; past the
/// budget it is refused and nothing is stored; a child that is there and did not
/// complete runs as it is stored.
pub proof fn law_spawn_decides(
    s: StoreView,
    child: SessionView,
    parent: Seq<char>,
    max_children: nat,
    in_flight: bool,
)
    ensures
        ({
            let (after, r) = s.spawn_child(child, parent, max_children, in_flight);
            let known = exists|i: int|
                0 <= i < s.sessions.len() && (#[trigger] s.sessions[i]).session.id == child.id;
            &&& in_flight ==> after == s && r is Ok && r->Ok_0 is Report
            &&& !in_flight && !known && children(s.sessions, parent).len() < max_children ==> {
                &&& r == Ok::<SpawnedView, crate::tools::ToolErrorView>(SpawnedView::Run(child))
                &&& after.sessions.len() == s.sessions.len() + 1
                &&& after.sessions.drop_last() == s.sessions
                &&& after.sessions.last().session == child
                &&& after.sessions.last().open_operation_id is None
                &&& after.sessions.last().leaf_id is None
                &&& after.entries == s.entries
                &&& after.records == s.records
            }
            &&& !in_flight && !known && children(s.sessions, parent).len() >= max_children ==> {
                &&& r is Err
                &&& after == s
            }
            &&& !in_flight && known ==> after == s
            &&& r is Ok && r->Ok_0 is Run ==> {
                let run = r->Ok_0->Run_0;
                &&& run.id == child.id
                &&& known ==> exists|i: int|
                    0 <= i < s.sessions.len() && (#[trigger] s.sessions[i]).session == run
            }
        }),
{
    lemma_session_in(s.sessions, child.id);
    let after = s.spawn_child(child, parent, max_children, in_flight).0;
    if session_in(s.sessions, child.id) is None {
        assert(s.sessions.push(crate::store::sessions::fresh_row(child)).drop_last()
            =~= s.sessions);
    }
}

/// The budget counts every child of the session and no other: a session counts
/// just where it names the parent.
pub proof fn law_children_are_those_of_the_parent(
    rows: Seq<crate::store::SessionRowView>,
    parent: Seq<char>,
    id: Seq<char>,
)
    ensures
        (exists|k: int|
            0 <= k < children(rows, parent).len() && (#[trigger] children(rows, parent)[k]).id == id)
            <==> (exists|i: int|
            0 <= i < rows.len() && (#[trigger] rows[i]).session.id == id
                && rows[i].session.parent_session_id == Some(parent)),
    decreases rows.len(),
{
    if rows.len() > 0 {
        let front = rows.drop_last();
        let all = children(rows, parent);
        let before = children(front, parent);
        law_children_are_those_of_the_parent(front, parent, id);
        if exists|k: int| 0 <= k < all.len() && (#[trigger] all[k]).id == id {
            let k = choose|k: int| 0 <= k < all.len() && (#[trigger] all[k]).id == id;
            if k < before.len() {
                assert(before[k].id == id);
                let i = choose|i: int|
                    0 <= i < front.len() && (#[trigger] front[i]).session.id == id
                        && front[i].session.parent_session_id == Some(parent);
                assert(rows[i] == front[i]);
            } else {
                assert(rows[rows.len() - 1] == rows.last());
            }
        }
        if exists|i: int|
            0 <= i < rows.len() && (#[trigger] rows[i]).session.id == id
                && rows[i].session.parent_session_id == Some(parent) {
            let i = choose|i: int|
                0 <= i < rows.len() && (#[trigger] rows[i]).session.id == id
                    && rows[i].session.parent_session_id == Some(parent);
            if i < front.len() {
                assert(front[i] == rows[i]);
                let k = choose|k: int| 0 <= k < before.len() && (#[trigger] before[k]).id == id;
                assert(all[k] == before[k]);
            } else {
                assert(all[all.len() - 1] == rows.last().session);
            }
        }
    }
}

/// Where a child runs: in the shared workspace where it has no worktree of its
/// own, in its worktree where that is there, in the restored one where only the
/// branch is left; where the worktree is lost or something else stands there, it
/// does not run.
pub proof fn law_child_runs_where_it_belongs(location: LocationView, workspace: Seq<char>)
    ensures
        location is Shared ==> place_of(location, workspace)->Ok_0 == PlaceView::At(workspace)
            && place_of(location, workspace) is Ok,
        location matches LocationView::Use(path) ==> place_of(location, workspace) is Ok
            && place_of(location, workspace)->Ok_0 == PlaceView::At(path),
        location matches LocationView::Recreate { path, branch } ==> place_of(
            location,
            workspace,
        ) is Ok && place_of(location, workspace)->Ok_0 == (PlaceView::Restore { path, branch }),
        location is Fail || location is Occupied ==> place_of(location, workspace) is Err,
{
}

/// A child in the shared workspace is confined as its parent is. One in its own
/// worktree may write there and in the git directories it needs, and not in the
/// parent's roots; the network is its parent's.
pub proof fn law_child_is_confined(
    parent: CapabilitiesView,
    cwd: Seq<char>,
    workspace: Seq<char>,
    tmpdir: Option<Seq<char>>,
    git_roots: Seq<Seq<char>>,
)
    ensures
        ({
            let c = confinement(parent, cwd, workspace, tmpdir, git_roots);
            let own = default_roots(cwd, tmpdir);
            &&& c.allow_network == parent.allow_network
            &&& components(cwd) == components(workspace) ==> c == parent
            &&& components(cwd) != components(workspace) ==> {
                &&& c.write_roots.len() == own.len() + git_roots.len()
                &&& forall|i: int| 0 <= i < own.len() ==> (#[trigger] c.write_roots[i]) == own[i]
                &&& forall|i: int|
                    0 <= i < git_roots.len() ==> c.write_roots[own.len() + i]
                        == #[trigger] git_roots[i]
            }
        }),
{
}

/// A child that starts fresh is given its prompt as it is; one with a transcript
/// is told to go on, whatever the prompt.
pub proof fn law_child_task(
    transcript: Seq<MessageView>,
    prompt: Seq<char>,
    other: Seq<char>,
)
    ensures
        task_for(Seq::empty(), prompt) == prompt,
        transcript.len() > 0 ==> task_for(transcript, prompt) == task_for(transcript, other),
        transcript.len() > 0 ==> task_for(transcript, prompt)
            == "The previous attempt above was interrupted. Continue and complete the original task, \
            then give your final report."@,
{
}

/// A child's system prompt begins with the session's, and only an inspecting
/// child is told that its tools read only.
pub proof fn law_child_system(base: Seq<char>)
    ensures
        base.is_prefix_of(system_for(base, Mode::Work)),
        system_for(base, Mode::Inspect) == system_for(base, Mode::Work)
            + " You have read-only tools."@,
        system_for(base, Mode::Work).len() > base.len(),
{
    reveal_strlit("");
    let rest = "\n\nYou are a bullpen relief agent handling one delegated task. Work it to completion \
            and end with a final report — your last message goes back to the coordinating agent, \
            which cannot see your intermediate steps."@;
    reveal_strlit("\n\nYou are a bullpen relief agent handling one delegated task. Work it to completion \
            and end with a final report — your last message goes back to the coordinating agent, \
            which cannot see your intermediate steps.");
    assert(system_for(base, Mode::Work) =~= base + rest);
    assert(system_for(base, Mode::Work).take(base.len() as int) =~= base);
}

/// A child's report is its answer and then who says so: its id, its mode, what
/// it used, and whether an interrupted run was recovered. Every other end is an
/// error that names the child, with the failure's words or the time it had.
pub proof fn law_child_report(
    child_id: Seq<char>,
    mode: Mode,
    usage: Usage,
    timeout_secs: nat,
    said: Seq<char>,
)
    ensures
        child_report(child_id, mode, RanView::Answered(said), usage, false, timeout_secs) matches Ok(
            r,
        ) && r == said + "\n\n[child "@ + short(child_id) + " · mode "@ + (match mode {
            Mode::Inspect => "inspect"@,
            Mode::Work => "work"@,
        }) + " · "@ + dec(usage.input_tokens as nat) + " in / "@ + dec(
            usage.output_tokens as nat,
        ) + " out tokens"@ + "]"@,
        child_report(child_id, mode, RanView::Answered(said), usage, true, timeout_secs) matches Ok(
            r,
        ) && r == said + "\n\n[child "@ + short(child_id) + " · mode "@ + (match mode {
            Mode::Inspect => "inspect"@,
            Mode::Work => "work"@,
        }) + " · "@ + dec(usage.input_tokens as nat) + " in / "@ + dec(
            usage.output_tokens as nat,
        ) + " out tokens"@ + " · recovered"@ + "]"@,
        forall|recovered: bool|
            (#[trigger] child_report(
                child_id,
                mode,
                RanView::Failed(said),
                usage,
                recovered,
                timeout_secs,
            )) matches Err(e) && e.words() == "child "@ + short(child_id) + " failed: "@ + said
                + " (session is saved and resumable)"@,
        forall|recovered: bool|
            (#[trigger] child_report(
                child_id,
                mode,
                RanView::TimedOut,
                usage,
                recovered,
                timeout_secs,
            )) is Err,
        forall|recovered: bool|
            (#[trigger] child_report(
                child_id,
                mode,
                RanView::Cancelled,
                usage,
                recovered,
                timeout_secs,
            )) is Err,
{
    reveal_strlit("");
    let head = said + "\n\n[child "@ + short(child_id) + " · mode "@ + mode.name() + " · "@ + dec(
        usage.input_tokens as nat,
    ) + " in / "@ + dec(usage.output_tokens as nat) + " out tokens"@;
    assert(head + ""@ + "]"@ =~= head + "]"@);
}

// ── Jobs ────────────────────────────────────────────────────────────────────

proof fn lemma_actions_differ()
    ensures
        "list"@ != "wait"@,
        "list"@ != "cancel"@,
        "wait"@ != "cancel"@,
{
    reveal_strlit("list");
    reveal_strlit("wait");
    reveal_strlit("cancel");
    assert("list"@[0] == 'l' && "wait"@[0] == 'w' && "cancel"@[0] == 'c');
}

/// A job call is read as it is written: its action, the id it names, and how
/// long to wait, where no more than the most is waited.
pub proof fn law_job_call_is_as_asked(input: JsonView, id: Seq<char>, n: int)
    ensures
        input.get("action"@) == Some(JsonView::Str("list"@)) ==> request_of(input) is Ok
            && request_of(input)->Ok_0 is List,
        input.get("action"@) == Some(JsonView::Str("cancel"@)) && input.get("id"@) == Some(
            JsonView::Str(id),
        ) ==> request_of(input) is Ok && request_of(input)->Ok_0 == (job::RequestView::Cancel {
            prefix: id,
        }),
        input.get("action"@) == Some(JsonView::Str("wait"@)) && input.get("id"@) == Some(
            JsonView::Str(id),
        ) ==> {
            &&& request_of(input) matches Ok(job::RequestView::Wait { prefix, timeout_secs })
            &&& prefix == id
            &&& input.get("timeout_seconds"@) is None ==> timeout_secs == job::DEFAULT_WAIT_SECS
            &&& input.get("timeout_seconds"@) == Some(JsonView::Num(NumView::Int(n))) && 0 <= n
                <= job::MAX_WAIT_SECS ==> timeout_secs == n
            &&& 0 <= timeout_secs <= job::MAX_WAIT_SECS
        },
        input.get("id"@) is None && (input.get("action"@) == Some(JsonView::Str("wait"@))
            || input.get("action"@) == Some(JsonView::Str("cancel"@))) ==> request_of(input) is Err,
        input.get("action"@) is None ==> request_of(input) is Err,
{
    lemma_actions_differ();
}

/// Listing and waiting run beside other calls; cancelling does not.
pub proof fn law_job_calls_run_beside(input: JsonView, action: Seq<char>)
    requires
        input.get("action"@) == Some(JsonView::Str(action)),
    ensures
        job::runs_beside(input) <==> action == "list"@ || action == "wait"@,
{
}

proof fn lemma_children_with(list: Seq<SessionView>, prefix: Seq<char>)
    ensures
        forall|k: int|
            0 <= k < children_with(list, prefix).len() ==> {
                &&& list.contains(#[trigger] children_with(list, prefix)[k])
                &&& prefix.is_prefix_of(children_with(list, prefix)[k].id)
            },
        forall|i: int|
            0 <= i < list.len() && prefix.is_prefix_of((#[trigger] list[i]).id) ==> children_with(
                list,
                prefix,
            ).contains(list[i]),
    decreases list.len(),
{
    if list.len() > 0 {
        let front = list.drop_last();
        let all = children_with(list, prefix);
        let before = children_with(front, prefix);
        lemma_children_with(front, prefix);
        assert forall|k: int| 0 <= k < all.len() implies list.contains(#[trigger] all[k])
            && prefix.is_prefix_of(all[k].id) by {
            if k < before.len() {
                assert(all[k] == before[k]);
                let i = choose|i: int| 0 <= i < front.len() && front[i] == before[k];
                assert(list[i] == all[k]);
            } else {
                assert(list[list.len() - 1] == all[k]);
            }
        }
        assert forall|i: int|
            0 <= i < list.len() && prefix.is_prefix_of((#[trigger] list[i]).id) implies all.contains(
            list[i],
        ) by {
            if i < front.len() {
                assert(front[i] == list[i]);
                assert(before.contains(front[i]));
                let k = choose|k: int| 0 <= k < before.len() && before[k] == front[i];
                assert(all[k] == list[i]);
            } else {
                assert(all[all.len() - 1] == list[i]);
            }
        }
    }
}

/// Whether no other id begins so.
pub open spec fn only_one_begins(list: Seq<SessionView>, prefix: Seq<char>, k: int) -> bool {
    forall|j: int|
        0 <= j < list.len() && j != k ==> !prefix.is_prefix_of((#[trigger] list[j]).id)
}

proof fn lemma_only_child(list: Seq<SessionView>, prefix: Seq<char>, k: int)
    requires
        0 <= k < list.len(),
        prefix.is_prefix_of(list[k].id),
        only_one_begins(list, prefix, k),
    ensures
        children_with(list, prefix) == seq![list[k]],
    decreases list.len(),
{
    let front = list.drop_last();
    if k < front.len() {
        assert(only_one_begins(front, prefix, k)) by {
            assert forall|j: int| 0 <= j < front.len() && j != k implies !prefix.is_prefix_of(
                (#[trigger] front[j]).id,
            ) by {
                assert(front[j] == list[j]);
            }
        }
        assert(front[k] == list[k]);
        lemma_only_child(front, prefix, k);
        assert(!prefix.is_prefix_of(list[list.len() - 1].id));
    } else {
        lemma_children_with(front, prefix);
        let before = children_with(front, prefix);
        if before.len() > 0 {
            assert(front.contains(before[0]));
            let j = choose|j: int| 0 <= j < front.len() && front[j] == before[0];
            assert(list[j] == front[j]);
            assert(!prefix.is_prefix_of(list[j].id));
        }
        assert(children_with(list, prefix) =~= seq![list[k]]);
    }
}

/// A job call finds a child only among the session's own, and only one whose id
/// begins as the call says; a child whose id alone begins so is found.
pub proof fn law_job_finds_the_child(list: Seq<SessionView>, prefix: Seq<char>)
    ensures
        child_of(list, prefix) matches Ok(child) ==> list.contains(child) && prefix.is_prefix_of(
            child.id,
        ),
        (forall|i: int| 0 <= i < list.len() ==> !prefix.is_prefix_of((#[trigger] list[i]).id))
            ==> child_of(list, prefix) is Err,
        forall|k: int|
            0 <= k < list.len() && prefix.is_prefix_of((#[trigger] list[k]).id) && only_one_begins(
                list,
                prefix,
                k,
            ) ==> child_of(list, prefix) == Ok::<SessionView, ToolErrorView>(list[k]),
{
    lemma_children_with(list, prefix);
    assert forall|k: int|
        0 <= k < list.len() && prefix.is_prefix_of((#[trigger] list[k]).id) && only_one_begins(
            list,
            prefix,
            k,
        ) implies child_of(list, prefix) == Ok::<SessionView, ToolErrorView>(list[k]) by {
        lemma_only_child(list, prefix, k);
    }
    let found = children_with(list, prefix);
    if found.len() == 1 {
        assert(list.contains(found[0]));
    }
    if forall|i: int| 0 <= i < list.len() ==> !prefix.is_prefix_of((#[trigger] list[i]).id) {
        if found.len() > 0 {
            assert(list.contains(found[0]));
            let i = choose|i: int| 0 <= i < list.len() && list[i] == found[0];
            assert(!prefix.is_prefix_of(list[i].id));
        }
    }
}

/// Waiting ends with the child: its answer where it completed, an error where it
/// failed or its process died, a timeout where the time is over, and nothing yet
/// while it works.
pub proof fn law_wait_ends_with_the_child(
    s: StoreView,
    child_id: Seq<char>,
    alive: bool,
    expired: bool,
    timeout_secs: u64,
    child: SessionView,
)
    requires
        s.get_session(child_id) == Ok::<SessionView, crate::store::StoreErrorView>(child),
    ensures
        ({
            let seen = s.look(child_id, alive, expired, timeout_secs);
            &&& child.status == "completed"@ ==> match s.path_messages(child_id) {
                Ok(messages) => {
                    &&& seen matches Some(Ok(said))
                    &&& said == pen::report(messages) + "\n\n[child "@ + short(child_id)
                        + " · completed]"@
                },
                Err(e) => seen is Some && seen->Some_0 is Err,
            }
            &&& child.status == "failed"@ ==> seen is Some && seen->Some_0 is Err
            &&& child.status == "running"@ && !alive ==> seen is Some && seen->Some_0 is Err
            &&& child.status == "running"@ && alive && !expired ==> seen is None
            &&& child.status == "running"@ && alive && expired ==> seen == Some(
                Err::<Seq<char>, crate::tools::ToolErrorView>(
                    crate::tools::ToolErrorView::Timeout(timeout_secs),
                ),
            )
        }),
{
    lemma_statuses_differ();
}

proof fn lemma_statuses_differ()
    ensures
        "completed"@ != "failed"@,
        "completed"@ != "running"@,
        "failed"@ != "running"@,
{
    reveal_strlit("completed");
    reveal_strlit("failed");
    reveal_strlit("running");
    assert("completed"@.len() == 9 && "failed"@.len() == 6 && "running"@.len() == 7);
}

/// A cancel succeeds just where a signal was given; otherwise it says that the
/// child runs elsewhere, or does not run.
pub proof fn law_cancel_is_told(child: SessionView, signalled: bool, alive: bool)
    ensures
        job::cancel_said(child, signalled, alive) is Ok <==> signalled,
        !signalled ==> (job::cancel_said(child, signalled, alive) matches Err(
            crate::tools::ToolErrorView::Failed(_),
        )) == (child.status == "running"@ && alive),
{
    lemma_statuses_differ();
    assert(derived(child.status, alive) == AgentStatus::Working <==> child.status == "running"@
        && alive);
}

// ── The journal ─────────────────────────────────────────────────────────────

proof fn lemma_intent_keys_differ()
    ensures
        "tool_use_id"@ != "name"@,
        "tool_use_id"@ != "input"@,
        "tool_use_id"@ != "replay_safe"@,
        "tool_use_id"@ != "results_entry_id"@,
        "name"@ != "input"@,
        "name"@ != "replay_safe"@,
        "name"@ != "results_entry_id"@,
        "input"@ != "replay_safe"@,
        "input"@ != "results_entry_id"@,
        "replay_safe"@ != "results_entry_id"@,
{
    reveal_strlit("tool_use_id");
    reveal_strlit("name");
    reveal_strlit("input");
    reveal_strlit("replay_safe");
    reveal_strlit("results_entry_id");
    assert("tool_use_id"@.len() == 11 && "name"@.len() == 4 && "input"@.len() == 5
        && "replay_safe"@.len() == 11 && "results_entry_id"@.len() == 16);
    assert("tool_use_id"@[0] == 't' && "replay_safe"@[0] == 'r');
}

/// What is recorded of an intent is the intent, and the entry its result will
/// have.
pub proof fn law_intent_is_recorded_whole(intent: ToolIntentView, results_entry: Seq<char>)
    ensures
        ({
            let body = intent_payload(intent, results_entry);
            &&& body.get("tool_use_id"@) == Some(JsonView::Str(intent.tool_use_id))
            &&& body.get("name"@) == Some(JsonView::Str(intent.name))
            &&& body.get("input"@) == Some(intent.input)
            &&& body.get("replay_safe"@) == Some(JsonView::Bool(intent.replay_safe))
            &&& body.get("results_entry_id"@) == Some(JsonView::Str(results_entry))
        }),
{
    lemma_intent_keys_differ();
}

/// A message that the journal takes becomes the session's newest entry, as it
/// was given.
pub open spec fn newest_message(
    before: StoreView,
    after: StoreView,
    session_id: Seq<char>,
    entry_id: Seq<char>,
    message: MessageView,
) -> bool {
    &&& after.entries.len() == before.entries.len() + 1
    &&& after.entries.drop_last() == before.entries
    &&& after.entries.last().session_id == session_id
    &&& after.entries.last().entry.id == entry_id
    &&& after.entries.last().entry.kind == "message"@
    &&& after.entries.last().entry.payload == PayloadView::Message(message)
    &&& after.entries.last().entry.parent_id == before.leaf(session_id)
    &&& after.leaf(session_id) == Some(entry_id)
}

proof fn lemma_newest(
    s: StoreView,
    session_id: Seq<char>,
    entry_id: Seq<char>,
    message: MessageView,
)
    requires
        s.append_entry(session_id, entry_id, "message"@, PayloadView::Message(message)).1 is Ok,
        !entry_in(s.entries, entry_id),
    ensures
        newest_message(
            s,
            s.append_entry(session_id, entry_id, "message"@, PayloadView::Message(message)).0,
            session_id,
            entry_id,
            message,
        ),
        s.append_entry(session_id, entry_id, "message"@, PayloadView::Message(message)).0.records
            == s.records,
{
    let n = s.append_entry(session_id, entry_id, "message"@, PayloadView::Message(message)).0;
    lemma_session_in(s.sessions, session_id);
    crate::store::lemma_same_ids(s.sessions, n.sessions, session_id);
    assert(n.entries.drop_last() =~= s.entries);
}

/// The start of a run records the run first and then the user's message, as it
/// is; the journal then knows the run.
pub proof fn law_run_start_is_recorded(
    j: StoreJournalView,
    s: StoreView,
    run_id: Seq<char>,
    entry_id: Seq<char>,
    user: MessageView,
)
    requires
        j.run_started(s, run_id, entry_id, user).2 is Ok,
        !entry_in(s.entries, entry_id),
        !record_in(s.records, run_id),
    ensures
        ({
            let (after, n, r) = j.run_started(s, run_id, entry_id, user);
            &&& after.run_id == Some(run_id)
            &&& after.session_id == j.session_id
            &&& n.records.len() == s.records.len() + 1
            &&& n.records.drop_last() == s.records
            &&& n.records.last().session_id == j.session_id
            &&& n.records.last().record.id == run_id
            &&& n.records.last().record.run_id == run_id
            &&& n.records.last().record.kind == "operation_started"@
            &&& newest_message(s, n, j.session_id, entry_id, user)
        }),
{
    let a = s.start_operation(j.session_id, run_id, JsonView::object()).0;
    let body = JsonView::object().with(
        "source_leaf_id"@,
        crate::store::log::leaf_json(s.leaf(j.session_id)),
    );
    let mid = s.append_record(j.session_id, run_id, run_id, "operation_started"@, body).0;
    lemma_session_in(s.sessions, j.session_id);
    crate::store::lemma_same_ids(s.sessions, mid.sessions, j.session_id);
    crate::store::lemma_same_ids(mid.sessions, a.sessions, j.session_id);
    assert(a.entries == s.entries);
    assert(a.leaf(j.session_id) == s.leaf(j.session_id));
    lemma_newest(a, j.session_id, entry_id, user);
    assert(a.records.drop_last() =~= s.records);
}

/// An assistant message is recorded as it is.
pub proof fn law_assistant_message_is_recorded(
    j: StoreJournalView,
    s: StoreView,
    entry_id: Seq<char>,
    message: MessageView,
)
    requires
        j.assistant_message(s, entry_id, message).1 is Ok,
        !entry_in(s.entries, entry_id),
    ensures
        newest_message(
            s,
            j.assistant_message(s, entry_id, message).0,
            j.session_id,
            entry_id,
            message,
        ),
{
    lemma_newest(s, j.session_id, entry_id, message);
}

/// Results are recorded as they are, under the entry that the batch named, and
/// only once.
pub proof fn law_results_are_recorded(
    j: StoreJournalView,
    s: StoreView,
    entry_id: Seq<char>,
    results: MessageView,
)
    requires
        j.pending_results_entry == Some(entry_id),
        j.tool_results(s, results).2 is Ok,
        !entry_in(s.entries, entry_id),
    ensures
        newest_message(s, j.tool_results(s, results).1, j.session_id, entry_id, results),
        j.tool_results(s, results).0.pending_results_entry is None,
        j.tool_results(s, results).0.run_id == j.run_id,
        j.tool_results(s, results).0.session_id == j.session_id,
{
    lemma_newest(s, j.session_id, entry_id, results);
}

/// Results without a batch, and anything before the run is started, are refused
/// and change nothing.
pub proof fn law_journal_needs_its_run(
    j: StoreJournalView,
    s: StoreView,
    entry_id: Seq<char>,
    message: MessageView,
    attempt: u32,
    intents: Seq<ToolIntentView>,
    outcome: RunOutcome,
    usage: Usage,
    now: Seq<char>,
)
    ensures
        j.run_id is None ==> {
            &&& j.step_attempt(s, attempt).0 == s && j.step_attempt(s, attempt).1 is Err
            &&& j.assistant_message(s, entry_id, message).0 == s
            &&& j.assistant_message(s, entry_id, message).1 is Err
            &&& j.tool_batch(s, entry_id, intents).1 == s
            &&& j.tool_batch(s, entry_id, intents).2 is Err
            &&& j.run_finished(s, outcome, usage, now).1 == s
            &&& j.run_finished(s, outcome, usage, now).2 is Err
        },
        j.pending_results_entry is None ==> {
            &&& j.tool_results(s, message).1 == s
            &&& j.tool_results(s, message).2 is Err
        },
{
}

/// A step is recorded with its number, under the run.
pub proof fn law_step_is_recorded(j: StoreJournalView, s: StoreView, run: Seq<char>, attempt: u32)
    requires
        j.run_id == Some(run),
        j.step_attempt(s, attempt).1 is Ok,
        !record_in(s.records, run + ":step:"@ + dec(attempt as nat)),
    ensures
        ({
            let n = j.step_attempt(s, attempt).0;
            &&& n.records.len() == s.records.len() + 1
            &&& n.records.drop_last() == s.records
            &&& n.records.last().session_id == j.session_id
            &&& n.records.last().record.run_id == run
            &&& n.records.last().record.kind == "step_attempt"@
            &&& n.records.last().record.payload.get("attempt"@) == Some(
                JsonView::Num(NumView::Int(attempt as int)),
            )
            &&& n.entries == s.entries
        }),
{
    let n = j.step_attempt(s, attempt).0;
    assert(n.records.drop_last() =~= s.records);
}

/// A batch is recorded one record per intent, in order, each whole and under the
/// run, and all name the same entry for their results, which the journal keeps.
pub proof fn law_batch_is_recorded(
    j: StoreJournalView,
    s: StoreView,
    run: Seq<char>,
    entry_id: Seq<char>,
    intents: Seq<ToolIntentView>,
    k: int,
)
    requires
        j.run_id == Some(run),
        j.tool_batch(s, entry_id, intents).2 is Ok,
        0 <= k < intents.len(),
        forall|i: int|
            0 <= i < intents.len() ==> !record_in(
                s.records,
                run + ":tool:"@ + (#[trigger] intents[i]).tool_use_id,
            ),
        forall|a: int, b: int|
            0 <= a < b < intents.len() ==> (#[trigger] intents[a]).tool_use_id != (
            #[trigger] intents[b]).tool_use_id,
    ensures
        ({
            let (after, n, r) = j.tool_batch(s, entry_id, intents);
            let row = n.records[s.records.len() + k];
            let body = row.record.payload;
            &&& after.pending_results_entry == Some(entry_id)
            &&& after.run_id == j.run_id
            &&& n.records.len() == s.records.len() + intents.len()
            &&& n.records.take(s.records.len() as int) == s.records
            &&& n.entries == s.entries
            &&& row.session_id == j.session_id
            &&& row.record.run_id == run
            &&& row.record.kind == "tool_started"@
            &&& body.get("tool_use_id"@) == Some(JsonView::Str(intents[k].tool_use_id))
            &&& body.get("name"@) == Some(JsonView::Str(intents[k].name))
            &&& body.get("input"@) == Some(intents[k].input)
            &&& body.get("replay_safe"@) == Some(JsonView::Bool(intents[k].replay_safe))
            &&& body.get("results_entry_id"@) == Some(JsonView::Str(entry_id))
        }),
{
    lemma_batch_records(s, j.session_id, run, entry_id, intents);
    law_intent_is_recorded_whole(intents[k], entry_id);
}

proof fn lemma_batch_records(
    s: StoreView,
    session_id: Seq<char>,
    run: Seq<char>,
    entry_id: Seq<char>,
    intents: Seq<ToolIntentView>,
)
    requires
        record_intents(s, session_id, run, entry_id, intents).1 is Ok,
        forall|i: int|
            0 <= i < intents.len() ==> !record_in(
                s.records,
                run + ":tool:"@ + (#[trigger] intents[i]).tool_use_id,
            ),
        forall|a: int, b: int|
            0 <= a < b < intents.len() ==> (#[trigger] intents[a]).tool_use_id != (
            #[trigger] intents[b]).tool_use_id,
    ensures
        ({
            let n = record_intents(s, session_id, run, entry_id, intents).0;
            &&& n.entries == s.entries
            &&& n.records.len() == s.records.len() + intents.len()
            &&& n.records.take(s.records.len() as int) == s.records
            &&& forall|k: int|
                #![trigger intents[k]]
                0 <= k < intents.len() ==> {
                    let row = n.records[s.records.len() + k];
                    &&& row.session_id == session_id
                    &&& row.record.id == run + ":tool:"@ + intents[k].tool_use_id
                    &&& row.record.run_id == run
                    &&& row.record.kind == "tool_started"@
                    &&& row.record.payload == intent_payload(intents[k], entry_id)
                }
        }),
    decreases intents.len(),
{
    let n = record_intents(s, session_id, run, entry_id, intents).0;
    if intents.len() == 0 {
        assert(n.records.take(s.records.len() as int) =~= s.records);
    } else {
        let front = intents.drop_last();
        let last = intents.last();
        let mid = record_intents(s, session_id, run, entry_id, front).0;
        assert forall|i: int| 0 <= i < front.len() implies !record_in(
            s.records,
            run + ":tool:"@ + (#[trigger] front[i]).tool_use_id,
        ) by {
            assert(front[i] == intents[i]);
        }
        assert forall|a: int, b: int| 0 <= a < b < front.len() implies (
        #[trigger] front[a]).tool_use_id != (#[trigger] front[b]).tool_use_id by {
            assert(front[a] == intents[a] && front[b] == intents[b]);
        }
        lemma_batch_records(s, session_id, run, entry_id, front);
        let id = run + ":tool:"@ + last.tool_use_id;
        assert(intents[intents.len() - 1] == last);
        assert(!record_in(mid.records, id)) by {
            if record_in(mid.records, id) {
                let i = choose|i: int|
                    0 <= i < mid.records.len() && (#[trigger] mid.records[i]).record.id == id;
                if i < s.records.len() {
                    assert(mid.records.take(s.records.len() as int)[i] == s.records[i]);
                    assert(record_in(s.records, id));
                } else {
                    let k = i - s.records.len();
                    assert(front[k] == intents[k]);
                    let other = run + ":tool:"@ + front[k].tool_use_id;
                    assert(mid.records[s.records.len() + k].record.id == other);
                    let lead = run + ":tool:"@;
                    assert(other.skip(lead.len() as int) =~= front[k].tool_use_id);
                    assert(id.skip(lead.len() as int) =~= last.tool_use_id);
                    assert(intents[k].tool_use_id != intents[intents.len() - 1].tool_use_id);
                }
            }
        }
        assert(n.records.take(s.records.len() as int) =~= mid.records.take(s.records.len() as int));
        assert forall|k: int| #![trigger intents[k]] 0 <= k < intents.len() implies {
            let row = n.records[s.records.len() + k];
            &&& row.session_id == session_id
            &&& row.record.id == run + ":tool:"@ + intents[k].tool_use_id
            &&& row.record.run_id == run
            &&& row.record.kind == "tool_started"@
            &&& row.record.payload == intent_payload(intents[k], entry_id)
        } by {
            if k < front.len() {
                assert(front[k] == intents[k]);
                assert(n.records[s.records.len() + k] == mid.records[s.records.len() + k]);
            }
        }
    }
}

/// The end of a run is recorded under the run with its outcome's name, and the
/// session takes the run's usage.
pub proof fn law_run_end_is_recorded(
    j: StoreJournalView,
    s: StoreView,
    run: Seq<char>,
    outcome: RunOutcome,
    usage: Usage,
    now: Seq<char>,
    i: int,
)
    requires
        j.run_id == Some(run),
        j.run_finished(s, outcome, usage, now).2 is Ok,
        !record_in(s.records, run + ":finished"@),
        session_in(s.sessions, j.session_id) == Some(i),
    ensures
        ({
            let (after, n, r) = j.run_finished(s, outcome, usage, now);
            &&& after.run_id is None
            &&& n.records.len() == s.records.len() + 1
            &&& n.records.drop_last() == s.records
            &&& n.records.last().session_id == j.session_id
            &&& n.records.last().record.run_id == run
            &&& n.records.last().record.kind == "operation_finished"@
            &&& n.records.last().record.payload.get("outcome"@) == Some(
                JsonView::Str(
                    match outcome {
                        RunOutcome::Completed => "completed"@,
                        RunOutcome::Truncated => "truncated"@,
                        RunOutcome::Failed => "failed"@,
                    },
                ),
            )
            &&& n.entries == s.entries
            &&& n.sessions[i].session.usage == usage
            &&& n.sessions[i].session.updated_at == now
            &&& n.sessions[i].session.id == j.session_id
            &&& s.sessions[i].session.title.len() > 0 ==> n.sessions[i].session.title
                == s.sessions[i].session.title
        }),
{
    let a = s.finish_operation(j.session_id, run, outcome.name()).0;
    let body = JsonView::object().with("outcome"@, JsonView::Str(outcome.name()));
    let mid = s.append_record(
        j.session_id,
        run + ":finished"@,
        run,
        "operation_finished"@,
        body,
    ).0;
    lemma_session_in(s.sessions, j.session_id);
    crate::store::lemma_same_ids(s.sessions, mid.sessions, j.session_id);
    crate::store::lemma_same_ids(mid.sessions, a.sessions, j.session_id);
    assert(a.records.drop_last() =~= s.records);
}

// ── The plan ────────────────────────────────────────────────────────────────

proof fn lemma_plan_actions_differ()
    ensures
        "add"@ != "start"@,
        "add"@ != "done"@,
        "add"@ != "remove"@,
        "add"@ != "list"@,
        "start"@ != "done"@,
        "start"@ != "remove"@,
        "start"@ != "list"@,
        "done"@ != "remove"@,
        "done"@ != "list"@,
        "remove"@ != "list"@,
{
    reveal_strlit("add");
    reveal_strlit("start");
    reveal_strlit("done");
    reveal_strlit("remove");
    reveal_strlit("list");
    assert("add"@.len() == 3 && "start"@.len() == 5 && "done"@.len() == 4 && "remove"@.len() == 6
        && "list"@.len() == 4);
    assert("done"@[0] == 'd' && "list"@[0] == 'l');
}

/// A plan call does what its action says to the item it names: starting and
/// finishing set the status, removing removes, listing changes nothing; a call
/// that is refused changes nothing either.
pub proof fn law_plan_call_does_what_it_says(
    s: StoreView,
    session_id: Seq<char>,
    call_id: Seq<char>,
    input: JsonView,
    action: Seq<char>,
    prefix: Seq<char>,
)
    requires
        input.get("action"@) == Some(JsonView::Str(action)),
    ensures
        ({
            let (n, r) = s.plan_action(session_id, call_id, input);
            let named = input.get("id"@) == Some(JsonView::Str(prefix));
            &&& action == "start"@ && named ==> {
                let (m, t) = s.set_todo_status(session_id, prefix, "in_progress"@);
                n == m && (r is Ok <==> t is Ok)
            }
            &&& action == "done"@ && named ==> {
                let (m, t) = s.set_todo_status(session_id, prefix, "completed"@);
                n == m && (r is Ok <==> t is Ok)
            }
            &&& action == "remove"@ && named ==> {
                let (m, t) = s.remove_todo(session_id, prefix);
                n == m && (r is Ok <==> t is Ok)
            }
            &&& action == "list"@ ==> n == s && r is Ok
            &&& input.get("id"@) is None && (action == "start"@ || action == "done"@ || action
                == "remove"@) ==> n == s && r is Err
            &&& action != "add"@ && action != "start"@ && action != "done"@ && action != "remove"@
                && action != "list"@ ==> n == s && r is Err
            &&& action == "add"@ && input.texts_field("items"@).len() == 0 ==> n == s && r is Err
            &&& todo::runs_beside(input) <==> action == "list"@
        }),
{
    lemma_plan_actions_differ();
}

/// Whether a row is a pending item of a session.
pub open spec fn pending_item(
    row: TodoRowView,
    session_id: Seq<char>,
    content: Seq<char>,
    id: Seq<char>,
) -> bool {
    &&& row.session_id == session_id
    &&& row.todo.content == content
    &&& row.todo.status == "pending"@
    &&& row.todo.id == id
}

/// Adding puts one pending item at the end of the plan for each text, in order
/// and with its words.
pub proof fn law_added_items_are_as_said(
    s: StoreView,
    session_id: Seq<char>,
    call_id: Seq<char>,
    items: Seq<Seq<char>>,
)
    requires
        session_in(s.sessions, session_id) is Some,
        forall|i: int|
            0 <= i < items.len() ==> !todo_in(
                s.todos,
                #[trigger] todo::todo_id_of(session_id, call_id, i),
            ),
        forall|i: int, j: int|
            0 <= i < j < items.len() ==> (#[trigger] todo::todo_id_of(session_id, call_id, i)) != (
            #[trigger] todo::todo_id_of(session_id, call_id, j)),
    ensures
        ({
            let (n, r) = s.add_items(session_id, call_id, items);
            &&& r is Ok
            &&& n.sessions == s.sessions
            &&& n.todos.len() == s.todos.len() + items.len()
            &&& n.todos.take(s.todos.len() as int) == s.todos
            &&& forall|i: int|
                #![trigger items[i]]
                0 <= i < items.len() ==> pending_item(
                    n.todos[s.todos.len() + i],
                    session_id,
                    items[i],
                    todo::todo_id_of(session_id, call_id, i),
                )
        }),
    decreases items.len(),
{
    let n = s.add_items(session_id, call_id, items).0;
    if items.len() == 0 {
        assert(n.todos.take(s.todos.len() as int) =~= s.todos);
    } else {
        let front = items.drop_last();
        law_added_items_are_as_said(s, session_id, call_id, front);
        let mid = s.add_items(session_id, call_id, front).0;
        let id = todo::todo_id_of(session_id, call_id, items.len() - 1);
        assert(!todo_in(mid.todos, id)) by {
            if todo_in(mid.todos, id) {
                let k = choose|k: int| 0 <= k < mid.todos.len() && (#[trigger] mid.todos[k]).todo.id
                    == id;
                if k < s.todos.len() {
                    assert(mid.todos.take(s.todos.len() as int)[k] == s.todos[k]);
                    assert(todo_in(s.todos, id));
                } else {
                    let i = k - s.todos.len();
                    assert(front[i] == items[i]);
                    assert(mid.todos[s.todos.len() + i].todo.id == todo::todo_id_of(
                        session_id,
                        call_id,
                        i,
                    ));
                }
            }
        }
        assert(n.todos.take(s.todos.len() as int) =~= mid.todos.take(s.todos.len() as int));
        assert forall|i: int| #![trigger items[i]] 0 <= i < items.len() implies pending_item(
            n.todos[s.todos.len() + i],
            session_id,
            items[i],
            todo::todo_id_of(session_id, call_id, i),
        ) by {
            if i < front.len() {
                assert(front[i] == items[i]);
                assert(n.todos[s.todos.len() + i] == mid.todos[s.todos.len() + i]);
            }
        }
    }
}

/// A plan is shown an item a line, in order: the beginning of its id, its mark
/// and its words; the head counts those that are done.
pub proof fn law_plan_is_shown(todos: Seq<TodoView>, t: TodoView)
    ensures
        todo::rendered(Seq::empty()) == "The plan is empty."@,
        todos.len() > 0 ==> todo::rendered(todos) == "Plan ("@ + dec(todo::done_count(todos))
            + " of "@ + dec(todos.len()) + " done):\n"@ + todo::plan_lines(todos),
        todo::plan_lines(todos.push(t)) == todo::plan_lines(todos) + ("  "@ + short(t.id) + " "@
            + (if t.status == "completed"@ {
            "[x]"@
        } else if t.status == "in_progress"@ {
            "[>]"@
        } else {
            "[ ]"@
        }) + " "@ + t.content + "\n"@),
        todo::done_count(todos.push(t)) == todo::done_count(todos) + (if t.status
            == "completed"@ {
            1nat
        } else {
            0nat
        }),
{
    assert(todos.push(t).drop_last() =~= todos);
}

// ── What is listed ──────────────────────────────────────────────────────────

/// Children are listed a line each, in order: the beginning of the id, the
/// derived state, the task, and whether it has a worktree; the head counts them.
pub proof fn law_children_are_listed(
    list: Seq<SessionView>,
    alive: Seq<bool>,
    child: SessionView,
    lives: bool,
)
    requires
        list.len() == alive.len(),
    ensures
        job::children_shown(Seq::empty(), Seq::empty())
            == "No children dispatched in this session."@,
        list.len() > 0 ==> job::children_shown(list, alive) == "Children ("@ + dec(list.len())
            + "):\n"@ + job::child_lines(list, alive),
        job::child_lines(list.push(child), alive.push(lives)) == job::child_lines(list, alive) + (
        "  "@ + short(child.id) + " "@ + padded(derived(child.status, lives).name(), 9) + " "@ + (
        if child.title.len() == 0 {
            "(no task recorded)"@
        } else {
            child.title
        }) + (if child.worktree_path is Some {
            " · worktree"@
        } else {
            ""@
        }) + "\n"@),
        AgentStatus::Idle.name() == "Idle"@,
        AgentStatus::Working.name() == "Working"@,
        AgentStatus::Completed.name() == "Completed"@,
        AgentStatus::Failed.name() == "Failed"@,
{
    assert(list.push(child).drop_last() =~= list);
    lemma_child_lines_front(list, alive.push(lives), alive);
}

proof fn lemma_child_lines_front(list: Seq<SessionView>, a: Seq<bool>, b: Seq<bool>)
    requires
        a.len() >= list.len(),
        b.len() >= list.len(),
        forall|i: int| 0 <= i < list.len() ==> a[i] == b[i],
    ensures
        job::child_lines(list, a) == job::child_lines(list, b),
    decreases list.len(),
{
    if list.len() > 0 {
        lemma_child_lines_front(list.drop_last(), a, b);
    }
}

/// A child's id follows from its parent and the call that made it, and from
/// nothing else; an item's from its session, call and place.
pub proof fn law_ids_follow_from_the_call(parent: Seq<char>, call: Seq<char>, index: int)
    requires
        0 <= index,
    ensures
        pen::child_id_of(parent, call) == uuid_v5(
            encode_utf8("bullpen:"@ + parent + ":"@ + call),
        ),
        todo::todo_id_of(parent, call, index) == uuid_v5(
            encode_utf8("bullpen-todo:"@ + parent + ":"@ + call + ":"@ + dec(index as nat)),
        ),
{
}

/// A store's error is told with its words, and a plan's in the plan's own.
pub proof fn law_store_errors_are_told(
    child_id: Seq<char>,
    e: StoreErrorView,
    w: WorkerErrorView,
    p: Seq<char>,
)
    ensures
        pen::store_failure(e).words() == "store: "@ + e.words(),
        pen::worker_failure(child_id, w).words() == "child "@ + short(child_id) + ": "@ + w.words(),
        todo::told(StoreErrorView::NotFound(p)) == ToolErrorView::InvalidInput(
            "no todo matches `"@ + p + "`"@,
        ),
        todo::told(StoreErrorView::Ambiguous(p)) is InvalidInput,
        !(e is NotFound) && !(e is Ambiguous) ==> todo::told(e) == ToolErrorView::Failed(
            "store: "@ + e.words(),
        ),
{
}

/// The journal takes what it is handed wherever its run is started and its
/// session has numbers left.
pub proof fn law_journal_takes_it(
    j: StoreJournalView,
    s: StoreView,
    run: Seq<char>,
    entry_id: Seq<char>,
    message: MessageView,
    attempt: u32,
    i: int,
)
    requires
        j.run_id == Some(run),
        session_in(s.sessions, j.session_id) == Some(i),
        s.sessions[i].next_seq < i64::MAX,
    ensures
        j.step_attempt(s, attempt).1 is Ok,
        j.assistant_message(s, entry_id, message).1 is Ok,
        j.pending_results_entry is Some ==> j.tool_results(s, message).2 is Ok,
{
}

/// A run begins in the journal where none is open and the session has two
/// numbers left.
pub proof fn law_journal_begins_the_run(
    j: StoreJournalView,
    s: StoreView,
    run_id: Seq<char>,
    entry_id: Seq<char>,
    user: MessageView,
    i: int,
)
    requires
        s.open_operations(j.session_id).len() == 0,
        session_in(s.sessions, j.session_id) == Some(i),
        s.sessions[i].next_seq + 1 < i64::MAX,
    ensures
        j.run_started(s, run_id, entry_id, user).2 is Ok,
{
    let a = s.start_operation(j.session_id, run_id, JsonView::object()).0;
    let body = JsonView::object().with(
        "source_leaf_id"@,
        crate::store::log::leaf_json(s.leaf(j.session_id)),
    );
    let mid = s.append_record(j.session_id, run_id, run_id, "operation_started"@, body).0;
    lemma_session_in(s.sessions, j.session_id);
    crate::store::lemma_same_ids(s.sessions, mid.sessions, j.session_id);
    crate::store::lemma_same_ids(mid.sessions, a.sessions, j.session_id);
}

/// A batch is taken where the session has a number left for each of its intents.
pub proof fn law_journal_takes_the_batch(
    s: StoreView,
    session_id: Seq<char>,
    run: Seq<char>,
    entry_id: Seq<char>,
    intents: Seq<ToolIntentView>,
    i: int,
)
    requires
        session_in(s.sessions, session_id) == Some(i),
        s.sessions[i].next_seq + intents.len() <= i64::MAX,
    ensures
        record_intents(s, session_id, run, entry_id, intents).1 is Ok,
        ({
            let n = record_intents(s, session_id, run, entry_id, intents).0;
            &&& session_in(n.sessions, session_id) == Some(i)
            &&& n.sessions[i].next_seq <= s.sessions[i].next_seq + intents.len()
        }),
    decreases intents.len(),
{
    lemma_session_in(s.sessions, session_id);
    if intents.len() > 0 {
        let front = intents.drop_last();
        law_journal_takes_the_batch(s, session_id, run, entry_id, front, i);
        let mid = record_intents(s, session_id, run, entry_id, front).0;
        let n = record_intents(s, session_id, run, entry_id, intents).0;
        lemma_session_in(mid.sessions, session_id);
        crate::store::lemma_same_ids(mid.sessions, n.sessions, session_id);
    }
}

/// A child whose last run completed is reported, with the answer that its
/// transcript ends on; it is not run again.
pub proof fn law_completed_child_is_reported(
    s: StoreView,
    child: SessionView,
    parent: Seq<char>,
    max_children: nat,
    messages: Seq<MessageView>,
)
    requires
        session_in(s.sessions, child.id) is Some,
        s.last_run_outcome(child.id) == Some("completed"@),
        s.path_messages(child.id) == Ok::<Seq<MessageView>, StoreErrorView>(messages),
    ensures
        s.spawn_child(child, parent, max_children, false).1 == Ok::<SpawnedView, ToolErrorView>(
            SpawnedView::Report(
                pen::report(messages) + "\n\n[child "@ + short(child.id)
                    + " · reattached to completed run]"@,
            ),
        ),
{
}

/// A child that is there and whose last run did not complete runs again.
pub proof fn law_uncompleted_child_runs_again(
    s: StoreView,
    child: SessionView,
    parent: Seq<char>,
    max_children: nat,
    i: int,
)
    requires
        session_in(s.sessions, child.id) == Some(i),
        s.last_run_outcome(child.id) != Some("completed"@),
    ensures
        s.spawn_child(child, parent, max_children, false) == (
            s,
            Ok::<SpawnedView, ToolErrorView>(SpawnedView::Run(s.sessions[i].session)),
        ),
{
}

/// What is refused is refused in words that say why.
pub proof fn law_refusals_say_why(
    mode: Seq<char>,
    action: Seq<char>,
    used: nat,
    max: nat,
    child_id: Seq<char>,
)
    ensures
        pen::unknown_mode(mode) == ToolErrorView::InvalidInput(
            "unknown mode `"@ + mode + "` (expected \"inspect\" or \"work\")"@,
        ),
        pen::budget_spent(used, max) == ToolErrorView::Failed(
            "child budget exhausted ("@ + dec(used) + " of "@ + dec(max)
                + " used for this session)"@,
        ),
        pen::in_flight_report(child_id) == "child "@ + short(child_id)
            + " is already running in the background; use the job tool to wait on or cancel it"@,
        todo::needs_id(action) == ToolErrorView::InvalidInput(
            "`"@ + action + "` needs an `id` prefix"@,
        ),
        super::not_started() == "journal used before run_started"@,
{
}

} // verus!
