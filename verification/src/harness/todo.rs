//! The todo tool: a durable session plan.
//!
//! The plan lives in the store, not in the model's context window. Two choices
//! carry the design:
//!
//! - **Deterministic item ids** make a replayed `add` converge on the same
//!   rows instead of duplicating them, so the whole tool is replay-safe.
//! - **The store owns the one-active-item invariant**: marking an item
//!   `in_progress` returns any other active item to `pending`.
//!
//! Every action returns the rendered plan, so the model always acts on the
//! current state rather than its memory of it.
use vstd::prelude::*;
use vstd::string::*;
use vstd::utf8::encode_utf8;

use crate::ids::{derived_id, is_uuid, uuid_v5};
use crate::json::{Json, JsonView};
use crate::llm::{ToolSpec, ToolSpecView};
use crate::store::{Store, StoreError, StoreErrorView, StoreView, Todo, TodoView};
use crate::store::todos::{plan, todo_in};
use crate::store::worker::{short, short_id};
use crate::text::{dec, decimal, lemma_step, same, views};
use crate::tools::{required, required_str, tool_outcome, Tool, ToolError, ToolErrorView};
use crate::tools::catalog::{self, todo_offer};

verus! {

/// What an item's id is derived from.
pub open spec fn todo_name(session_id: Seq<char>, call_id: Seq<char>, index: int) -> Seq<char> {
    "bullpen-todo:"@ + session_id + ":"@ + call_id + ":"@ + dec(index as nat)
}

/// An item's id.
pub open spec fn todo_id_of(session_id: Seq<char>, call_id: Seq<char>, index: int) -> Seq<char> {
    uuid_v5(encode_utf8(todo_name(session_id, call_id, index)))
}

/// Deterministic item identity: same session, same tool call and same index
/// give the same item. What makes a replayed `add` reattach instead of
/// duplicate.
pub fn todo_id(session_id: &str, call_id: &str, index: usize) -> (r: String)
    ensures
        r@ == todo_id_of(session_id@, call_id@, index as int),
        is_uuid(r@),
{
    let n = decimal(index as u64);
    let name = "bullpen-todo:".to_owned().concat(session_id).concat(":").concat(call_id).concat(
        ":",
    ).concat(n.as_str());
    derived_id(name.as_str())
}

/// What a failed store operation is told as.
pub open spec fn told(e: StoreErrorView) -> ToolErrorView {
    match e {
        StoreErrorView::NotFound(p) => ToolErrorView::InvalidInput(
            "no todo matches `"@ + p + "`"@,
        ),
        StoreErrorView::Ambiguous(p) => ToolErrorView::InvalidInput(
            "todo id `"@ + p + "` is ambiguous — use a longer prefix from the list"@,
        ),
        _ => ToolErrorView::Failed("store: "@ + e.words()),
    }
}

/// What a failed store operation is told as.
pub fn terr(e: StoreError) -> (r: ToolError)
    ensures
        r@ == told(e@),
{
    match &e {
        StoreError::NotFound(p) => ToolError::InvalidInput(
            "no todo matches `".to_owned().concat(p.as_str()).concat("`"),
        ),
        StoreError::Ambiguous(p) => ToolError::InvalidInput(
            "todo id `".to_owned().concat(p.as_str()).concat(
                "` is ambiguous — use a longer prefix from the list",
            ),
        ),
        _ => {
            let words = e.to_string();
            ToolError::Failed("store: ".to_owned().concat(words.as_str()))
        },
    }
}

// ── The plan in words ───────────────────────────────────────────────────────

/// How many items are completed.
pub open spec fn done_count(todos: Seq<TodoView>) -> nat
    decreases todos.len(),
{
    if todos.len() == 0 {
        0
    } else if todos.last().status == "completed"@ {
        done_count(todos.drop_last()) + 1
    } else {
        done_count(todos.drop_last())
    }
}

/// The mark of a status.
pub open spec fn mark_of(status: Seq<char>) -> Seq<char> {
    if status == "completed"@ {
        "[x]"@
    } else if status == "in_progress"@ {
        "[>]"@
    } else {
        "[ ]"@
    }
}

/// The lines of items.
pub open spec fn plan_lines(todos: Seq<TodoView>) -> Seq<char>
    decreases todos.len(),
{
    if todos.len() == 0 {
        Seq::empty()
    } else {
        let t = todos.last();
        plan_lines(todos.drop_last()) + ("  "@ + short(t.id) + " "@ + mark_of(t.status) + " "@
            + t.content + "\n"@)
    }
}

/// A plan in words.
pub open spec fn rendered(todos: Seq<TodoView>) -> Seq<char> {
    if todos.len() == 0 {
        "The plan is empty."@
    } else {
        "Plan ("@ + dec(done_count(todos)) + " of "@ + dec(todos.len()) + " done):\n"@ + plan_lines(
            todos,
        )
    }
}

proof fn lemma_done_count(todos: Seq<TodoView>)
    ensures
        done_count(todos) <= todos.len(),
    decreases todos.len(),
{
    if todos.len() > 0 {
        lemma_done_count(todos.drop_last());
    }
}

/// A plan in words.
pub fn render(todos: &Vec<Todo>) -> (r: String)
    ensures
        r@ == rendered(views(todos@)),
{
    if todos.len() == 0 {
        return "The plan is empty.".to_owned();
    }
    let ghost all = views(todos@);
    let mut done: usize = 0;
    let mut body = String::new();
    let mut i: usize = 0;
    proof {
        assert(body@ =~= plan_lines(all.take(0)));
    }
    while i < todos.len()
        invariant
            all == views(todos@),
            i <= todos@.len(),
            done <= i,
            done == done_count(all.take(i as int)),
            body@ == plan_lines(all.take(i as int)),
        decreases todos@.len() - i,
    {
        let t = &todos[i];
        proof {
            lemma_step(all, i as int);
            assert(all[i as int] == t@);
        }
        let completed = same(t.status.as_str(), "completed");
        if completed {
            done += 1;
        }
        let mark = if completed {
            "[x]"
        } else if same(t.status.as_str(), "in_progress") {
            "[>]"
        } else {
            "[ ]"
        };
        let id = short_id(t.id.as_str());
        let line = "  ".to_owned().concat(id.as_str()).concat(" ").concat(mark).concat(" ").concat(
            t.content.as_str(),
        ).concat("\n");
        body.append(line.as_str());
        i += 1;
    }
    proof {
        assert(all.take(i as int) =~= all);
    }
    let d = decimal(done as u64);
    let n = decimal(todos.len() as u64);
    "Plan (".to_owned().concat(d.as_str()).concat(" of ").concat(n.as_str()).concat(
        " done):\n",
    ).concat(body.as_str())
}

// ── Actions ─────────────────────────────────────────────────────────────────

/// What an action without its id is told.
pub open spec fn needs_id(action: Seq<char>) -> ToolErrorView {
    ToolErrorView::InvalidInput("`"@ + action + "` needs an `id` prefix"@)
}

impl StoreView {
    /// The state and result of adding items one by one; one that fails stops
    /// the rest.
    pub open spec fn add_items(
        self,
        session_id: Seq<char>,
        call_id: Seq<char>,
        items: Seq<Seq<char>>,
    ) -> (StoreView, Result<(), StoreErrorView>)
        decreases items.len(),
    {
        if items.len() == 0 {
            (self, Ok(()))
        } else {
            let (s, r) = self.add_items(session_id, call_id, items.drop_last());
            match r {
                Err(e) => (s, Err(e)),
                Ok(()) => s.add_todo(
                    session_id,
                    todo_id_of(session_id, call_id, items.len() - 1),
                    items.last(),
                ),
            }
        }
    }

    /// The state and result of an action on the plan.
    pub open spec fn plan_action(
        self,
        session_id: Seq<char>,
        call_id: Seq<char>,
        input: JsonView,
    ) -> (StoreView, Result<(), ToolErrorView>) {
        match required(input, "action"@) {
            Err(e) => (self, Err(e)),
            Ok(action) => if action == "add"@ {
                let items = input.texts_field("items"@);
                if items.len() == 0 {
                    (
                        self,
                        Err(
                            ToolErrorView::InvalidInput(
                                "`add` needs a non-empty `items` array of strings"@,
                            ),
                        ),
                    )
                } else {
                    let (s, r) = self.add_items(session_id, call_id, items);
                    (s, as_told(r))
                }
            } else if action == "start"@ || action == "done"@ {
                match input.str_field("id"@) {
                    None => (self, Err(needs_id(action))),
                    Some(prefix) => {
                        let status = if action == "start"@ {
                            "in_progress"@
                        } else {
                            "completed"@
                        };
                        let (s, r) = self.set_todo_status(session_id, prefix, status);
                        (s, as_told(r))
                    },
                }
            } else if action == "remove"@ {
                match input.str_field("id"@) {
                    None => (self, Err(needs_id(action))),
                    Some(prefix) => {
                        let (s, r) = self.remove_todo(session_id, prefix);
                        (s, as_told(r))
                    },
                }
            } else if action == "list"@ {
                (self, Ok(()))
            } else {
                (
                    self,
                    Err(
                        ToolErrorView::InvalidInput(
                            "unknown action `"@ + action
                                + "` (expected add, start, done, remove, or list)"@,
                        ),
                    ),
                )
            },
        }
    }

    /// The state and result of a call of the tool.
    pub open spec fn todo_call(
        self,
        session_id: Seq<char>,
        call_id: Seq<char>,
        input: JsonView,
    ) -> (StoreView, Result<Seq<char>, ToolErrorView>) {
        let (s, r) = self.plan_action(session_id, call_id, input);
        match r {
            Err(e) => (s, Err(e)),
            Ok(()) => (s, Ok(rendered(plan(s.todos, session_id)))),
        }
    }
}

/// A store result as the tool tells it.
pub open spec fn as_told(r: Result<(), StoreErrorView>) -> Result<(), ToolErrorView> {
    match r {
        Ok(()) => Ok(()),
        Err(e) => Err(told(e)),
    }
}

/// An item that cannot be added stops the rest.
proof fn lemma_add_stops(
    s: StoreView,
    session_id: Seq<char>,
    call_id: Seq<char>,
    items: Seq<Seq<char>>,
    n: int,
)
    requires
        0 <= n <= items.len(),
        s.add_items(session_id, call_id, items.take(n)).1 is Err,
    ensures
        s.add_items(session_id, call_id, items) == s.add_items(
            session_id,
            call_id,
            items.take(n),
        ),
    decreases items.len() - n,
{
    if n < items.len() {
        assert(items.take(n + 1).drop_last() =~= items.take(n));
        lemma_add_stops(s, session_id, call_id, items, n + 1);
    } else {
        assert(items.take(n) =~= items);
    }
}

fn add_all(store: &mut Store, session_id: &str, call_id: &str, items: &Vec<String>) -> (r: Result<
    (),
    ToolError,
>)
    ensures
        ({
            let (s, o) = old(store)@.add_items(session_id@, call_id@, views(items@));
            final(store)@ == s && tool_outcome(r) == as_told(o)
        }),
{
    let ghost start = store@;
    let ghost all = views(items@);
    let mut i: usize = 0;
    proof {
        assert(all.take(0) =~= Seq::<Seq<char>>::empty());
    }
    while i < items.len()
        invariant
            start == old(store)@,
            all == views(items@),
            i <= items@.len(),
            (store@, Ok::<(), StoreErrorView>(())) == start.add_items(
                session_id@,
                call_id@,
                all.take(i as int),
            ),
        decreases items@.len() - i,
    {
        proof {
            assert(all.take(i + 1).drop_last() =~= all.take(i as int));
            assert(all.take(i + 1).last() == all[i as int]);
            assert(all[i as int] == items@[i as int]@);
        }
        let id = todo_id(session_id, call_id, i);
        match store.add_todo(session_id, id.as_str(), items[i].as_str()) {
            Err(e) => {
                proof {
                    lemma_add_stops(start, session_id@, call_id@, all, i + 1);
                }
                return Err(terr(e));
            },
            Ok(()) => {},
        }
        i += 1;
    }
    proof {
        assert(all.take(i as int) =~= all);
    }
    Ok(())
}

fn act(store: &mut Store, session_id: &str, call_id: &str, input: &Json) -> (r: Result<
    (),
    ToolError,
>)
    ensures
        (final(store)@, tool_outcome(r)) == old(store)@.plan_action(session_id@, call_id@, input@),
{
    let action = match required_str(input, "action") {
        Err(e) => {
            return Err(e);
        },
        Ok(action) => action,
    };
    if same(action, "add") {
        let items = input.texts_field("items");
        if items.len() == 0 {
            return Err(
                ToolError::InvalidInput(
                    "`add` needs a non-empty `items` array of strings".to_owned(),
                ),
            );
        }
        return add_all(store, session_id, call_id, &items);
    }
    let moves = same(action, "start") || same(action, "done");
    if moves || same(action, "remove") {
        let prefix = match input.str_field("id") {
            Some(prefix) => prefix,
            None => {
                return Err(
                    ToolError::InvalidInput(
                        "`".to_owned().concat(action).concat("` needs an `id` prefix"),
                    ),
                );
            },
        };
        let done = if moves {
            let status = if same(action, "start") {
                "in_progress"
            } else {
                "completed"
            };
            store.set_todo_status(session_id, prefix, status)
        } else {
            store.remove_todo(session_id, prefix)
        };
        return match done {
            Ok(()) => Ok(()),
            Err(e) => Err(terr(e)),
        };
    }
    if same(action, "list") {
        Ok(())
    } else {
        Err(
            ToolError::InvalidInput(
                "unknown action `".to_owned().concat(action).concat(
                    "` (expected add, start, done, remove, or list)",
                ),
            ),
        )
    }
}

/// Whether a call can run beside others: reading the plan can ride alongside
/// anything; changes keep their order.
pub open spec fn runs_beside(input: JsonView) -> bool {
    input.str_field("action"@) == Some("list"@)
}

fn can_run_beside(input: &Json) -> (r: bool)
    ensures
        r == runs_beside(input@),
{
    match input.str_field("action") {
        Some(action) => same(action, "list"),
        None => false,
    }
}

/// The tool over a session's plan. A call can be repeated after a crash: adds
/// converge by their ids, status changes and removals say the same again.
#[derive(Debug)]
pub struct TodoTool {
    pub store_path: String,
    pub session_id: String,
}

impl TodoTool {
    /// The tool over the plan of a session in the store at a path.
    pub fn new(store_path: &str, session_id: &str) -> (r: Self)
        ensures
            r.store_path@ == store_path@,
            r.session_id@ == session_id@,
    {
        TodoTool { store_path: store_path.to_owned(), session_id: session_id.to_owned() }
    }

    /// One call of the tool: act on the plan, then show it.
    pub fn run(&self, store: &mut Store, call_id: &str, input: &Json) -> (r: Result<
        String,
        ToolError,
    >)
        ensures
            (final(store)@, tool_outcome(r)) == old(store)@.todo_call(
                self.session_id@,
                call_id@,
                input@,
            ),
    {
        match act(store, self.session_id.as_str(), call_id, input) {
            Err(e) => Err(e),
            Ok(()) => {
                let todos = store.list_todos(self.session_id.as_str());
                Ok(render(&todos))
            },
        }
    }
}

impl Tool for TodoTool {
    open spec fn offer(&self) -> ToolSpecView {
        todo_offer()
    }

    open spec fn overlaps(&self, input: JsonView) -> bool {
        runs_beside(input)
    }

    open spec fn replays(&self) -> bool {
        true
    }

    fn name(&self) -> (r: &'static str) {
        "todo"
    }

    fn spec(&self) -> (r: ToolSpec) {
        catalog::todo()
    }

    fn parallel_safe(&self, input: &Json) -> (r: bool) {
        can_run_beside(input)
    }

    fn replay_safe(&self) -> (r: bool) {
        true
    }
}

// ── Laws ────────────────────────────────────────────────────────────────────

/// What is in the plan stays there when items are added.
proof fn lemma_add_keeps(
    s: StoreView,
    session_id: Seq<char>,
    call_id: Seq<char>,
    items: Seq<Seq<char>>,
)
    ensures
        forall|id: Seq<char>| #[trigger] todo_in(s.todos, id) ==> todo_in(
            s.add_items(session_id, call_id, items).0.todos,
            id,
        ),
        s.add_items(session_id, call_id, items).1 is Ok ==> forall|k: int|
            0 <= k < items.len() ==> todo_in(
                s.add_items(session_id, call_id, items).0.todos,
                #[trigger] todo_id_of(session_id, call_id, k),
            ),
    decreases items.len(),
{
    if items.len() > 0 {
        lemma_add_keeps(s, session_id, call_id, items.drop_last());
        let (m, r) = s.add_items(session_id, call_id, items.drop_last());
        if r is Ok {
            let id = todo_id_of(session_id, call_id, items.len() - 1);
            let (n, o) = m.add_todo(session_id, id, items.last());
            assert forall|x: Seq<char>| #[trigger] todo_in(m.todos, x) implies todo_in(
                n.todos,
                x,
            ) by {
                let i = choose|i: int| 0 <= i < m.todos.len() && (#[trigger] m.todos[i]).todo.id == x;
                assert(n.todos[i].todo.id == x);
            }
            if o is Ok && !todo_in(m.todos, id) {
                assert(n.todos[m.todos.len() as int].todo.id == id);
            }
        }
    }
}

/// Adding items whose ids are all there changes nothing.
proof fn lemma_add_present(
    s: StoreView,
    session_id: Seq<char>,
    call_id: Seq<char>,
    items: Seq<Seq<char>>,
)
    requires
        forall|k: int|
            0 <= k < items.len() ==> todo_in(
                s.todos,
                #[trigger] todo_id_of(session_id, call_id, k),
            ),
    ensures
        s.add_items(session_id, call_id, items) == (s, Ok::<(), StoreErrorView>(())),
    decreases items.len(),
{
    if items.len() > 0 {
        lemma_add_present(s, session_id, call_id, items.drop_last());
        assert(todo_in(s.todos, todo_id_of(session_id, call_id, items.len() - 1)));
    }
}

/// A replayed `add` changes nothing: the same call on the plan it made leaves
/// the plan as it is and shows it again.
pub proof fn law_replayed_add_converges(
    s: StoreView,
    session_id: Seq<char>,
    call_id: Seq<char>,
    input: JsonView,
)
    requires
        input.str_field("action"@) == Some("add"@),
        s.todo_call(session_id, call_id, input).1 is Ok,
    ensures
        ({
            let (once, r) = s.todo_call(session_id, call_id, input);
            once.todo_call(session_id, call_id, input) == (once, r)
        }),
{
    let items = input.texts_field("items"@);
    let once = s.todo_call(session_id, call_id, input).0;
    lemma_add_keeps(s, session_id, call_id, items);
    lemma_add_present(once, session_id, call_id, items);
}

} // verus!
