//! A session's plan, one item of it in progress at most.
use vstd::prelude::*;
use vstd::string::*;

use super::{
    outcome, session_in, Store, StoreError, StoreErrorView, StoreView, Todo, TodoRow, TodoRowView,
    TodoView,
};
use crate::text::{lemma_step, same, starts_with, views};

verus! {

/// Whether some item has this id.
pub open spec fn todo_in(rows: Seq<TodoRowView>, id: Seq<char>) -> bool {
    exists|i: int| 0 <= i < rows.len() && (#[trigger] rows[i]).todo.id == id
}

/// The plan of a session, in the order the items were added.
pub open spec fn plan(rows: Seq<TodoRowView>, session_id: Seq<char>) -> Seq<TodoView>
    decreases rows.len(),
{
    if rows.len() == 0 {
        Seq::empty()
    } else {
        let before = plan(rows.drop_last(), session_id);
        if rows.last().session_id == session_id {
            before.push(rows.last().todo)
        } else {
            before
        }
    }
}

/// Whether a row is an item of the session whose id begins with the prefix.
pub open spec fn addressed(row: TodoRowView, session_id: Seq<char>, prefix: Seq<char>) -> bool {
    row.session_id == session_id && prefix.is_prefix_of(row.todo.id)
}

/// The places of the items that a prefix addresses.
pub open spec fn addressed_at(
    rows: Seq<TodoRowView>,
    session_id: Seq<char>,
    prefix: Seq<char>,
) -> Seq<int>
    decreases rows.len(),
{
    if rows.len() == 0 {
        Seq::empty()
    } else {
        let before = addressed_at(rows.drop_last(), session_id, prefix);
        if addressed(rows.last(), session_id, prefix) {
            before.push(rows.len() - 1)
        } else {
            before
        }
    }
}

/// The places are places of items that the prefix addresses.
pub proof fn lemma_addressed_at(rows: Seq<TodoRowView>, session_id: Seq<char>, prefix: Seq<char>)
    ensures
        forall|k: int|
            0 <= k < addressed_at(rows, session_id, prefix).len() ==> 0 <= #[trigger] addressed_at(
                rows,
                session_id,
                prefix,
            )[k] < rows.len() && addressed(
                rows[addressed_at(rows, session_id, prefix)[k]],
                session_id,
                prefix,
            ),
    decreases rows.len(),
{
    if rows.len() > 0 {
        lemma_addressed_at(rows.drop_last(), session_id, prefix);
        let before = addressed_at(rows.drop_last(), session_id, prefix);
        let now = addressed_at(rows, session_id, prefix);
        assert forall|k: int| 0 <= k < now.len() implies 0 <= #[trigger] now[k] < rows.len()
            && addressed(rows[now[k]], session_id, prefix) by {
            if k < before.len() {
                assert(now[k] == before[k]);
                assert(rows.drop_last()[before[k]] == rows[before[k]]);
            }
        }
    }
}

/// The place of the one item that a prefix addresses.
pub open spec fn address(rows: Seq<TodoRowView>, session_id: Seq<char>, prefix: Seq<char>) -> Result<
    int,
    StoreErrorView,
> {
    let found = addressed_at(rows, session_id, prefix);
    if found.len() == 0 {
        Err(StoreErrorView::NotFound(prefix))
    } else if found.len() == 1 {
        Ok(found[0])
    } else {
        Err(StoreErrorView::Ambiguous(prefix))
    }
}

/// A row after item `at` got `status`: another item of the session that was
/// in progress waits again when this one starts.
pub open spec fn after_status(
    rows: Seq<TodoRowView>,
    k: int,
    at: int,
    session_id: Seq<char>,
    status: Seq<char>,
) -> TodoRowView {
    let row = rows[k];
    if k == at {
        TodoRowView { todo: TodoView { status, ..row.todo }, ..row }
    } else if status == "in_progress"@ && row.session_id == session_id && row.todo.status
        == "in_progress"@ {
        TodoRowView { todo: TodoView { status: "pending"@, ..row.todo }, ..row }
    } else {
        row
    }
}

/// Whether at most one item of the session is in progress.
pub open spec fn one_active(rows: Seq<TodoRowView>, session_id: Seq<char>) -> bool {
    forall|i: int, j: int|
        0 <= i < rows.len() && 0 <= j < rows.len() && (#[trigger] rows[i]).session_id == session_id
            && (#[trigger] rows[j]).session_id == session_id && rows[i].todo.status
            == "in_progress"@ && rows[j].todo.status == "in_progress"@ ==> i == j
}

impl StoreView {
    /// The state and result of adding an item; an id that is there already
    /// adds nothing.
    pub open spec fn add_todo(self, session_id: Seq<char>, id: Seq<char>, content: Seq<char>) -> (
        StoreView,
        Result<(), StoreErrorView>,
    ) {
        if todo_in(self.todos, id) {
            (self, Ok(()))
        } else if session_in(self.sessions, session_id) is None {
            (self, Err(StoreErrorView::Db("FOREIGN KEY constraint failed"@)))
        } else {
            let row = TodoRowView {
                session_id,
                todo: TodoView { id, content, status: "pending"@ },
            };
            (StoreView { todos: self.todos.push(row), ..self }, Ok(()))
        }
    }

    /// The state and result of giving the addressed item a status.
    pub open spec fn set_todo_status(
        self,
        session_id: Seq<char>,
        prefix: Seq<char>,
        status: Seq<char>,
    ) -> (StoreView, Result<(), StoreErrorView>) {
        match address(self.todos, session_id, prefix) {
            Err(e) => (self, Err(e)),
            Ok(at) => (
                StoreView {
                    todos: Seq::new(
                        self.todos.len(),
                        |k: int| after_status(self.todos, k, at, session_id, status),
                    ),
                    ..self
                },
                Ok(()),
            ),
        }
    }

    /// The state and result of dropping the addressed item.
    pub open spec fn remove_todo(self, session_id: Seq<char>, prefix: Seq<char>) -> (
        StoreView,
        Result<(), StoreErrorView>,
    ) {
        match address(self.todos, session_id, prefix) {
            Err(e) => (self, Err(e)),
            Ok(at) => (StoreView { todos: self.todos.remove(at), ..self }, Ok(())),
        }
    }
}

impl Store {
    fn todo_exists(&self, id: &str) -> (r: bool)
        ensures
            r == todo_in(self@.todos, id@),
    {
        let mut i: usize = 0;
        while i < self.todos.len()
            invariant
                i <= self.todos@.len(),
                forall|j: int| 0 <= j < i ==> (#[trigger] self@.todos[j]).todo.id != id@,
            decreases self.todos@.len() - i,
        {
            if same(self.todos[i].todo.id.as_str(), id) {
                proof {
                    assert(self@.todos[i as int].todo.id == id@);
                }
                return true;
            }
            i += 1;
        }
        false
    }

    fn find_todo(&self, session_id: &str, prefix: &str) -> (r: Result<usize, StoreError>)
        ensures
            match r {
                Ok(i) => address(self@.todos, session_id@, prefix@) == Ok::<int, StoreErrorView>(
                    i as int,
                ) && i < self.todos@.len(),
                Err(e) => address(self@.todos, session_id@, prefix@) == Err::<
                    int,
                    StoreErrorView,
                >(e@),
            },
    {
        let mut found: Vec<usize> = Vec::new();
        let ghost rows = self@.todos;
        let mut i: usize = 0;
        proof {
            assert(found@.map_values(|k: usize| k as int) =~= addressed_at(
                rows.take(0),
                session_id@,
                prefix@,
            ));
        }
        while i < self.todos.len()
            invariant
                rows == self@.todos,
                i <= self.todos@.len(),
                found@.map_values(|k: usize| k as int) == addressed_at(
                    rows.take(i as int),
                    session_id@,
                    prefix@,
                ),
            decreases self.todos@.len() - i,
        {
            let row = &self.todos[i];
            proof {
                lemma_step(rows, i as int);
                assert(rows[i as int] == row@);
            }
            if same(row.session_id.as_str(), session_id) && starts_with(
                row.todo.id.as_str(),
                prefix,
            ) {
                let ghost before = found@;
                found.push(i);
                proof {
                    assert(found@.map_values(|k: usize| k as int) =~= before.map_values(
                        |k: usize| k as int,
                    ).push(i as int));
                }
            }
            i += 1;
        }
        proof {
            assert(rows.take(i as int) =~= rows);
            lemma_addressed_at(rows, session_id@, prefix@);
            assert(found@.map_values(|k: usize| k as int).len() == found@.len());
        }
        if found.len() == 0 {
            Err(StoreError::NotFound(prefix.to_owned()))
        } else if found.len() == 1 {
            proof {
                assert(found@.map_values(|k: usize| k as int)[0] == found@[0] as int);
            }
            Ok(found[0])
        } else {
            Err(StoreError::Ambiguous(prefix.to_owned()))
        }
    }

    /// Append an item to a session's plan. Idempotent on `id`.
    pub fn add_todo(&mut self, session_id: &str, id: &str, content: &str) -> (r: Result<
        (),
        StoreError,
    >)
        ensures
            (final(self)@, outcome(r)) == old(self)@.add_todo(session_id@, id@, content@),
    {
        if self.todo_exists(id) {
            return Ok(());
        }
        if self.session_index(session_id).is_none() {
            return Err(StoreError::Db("FOREIGN KEY constraint failed".to_owned()));
        }
        let ghost before = self@;
        self.todos.push(
            TodoRow {
                session_id: session_id.to_owned(),
                todo: Todo {
                    id: id.to_owned(),
                    content: content.to_owned(),
                    status: "pending".to_owned(),
                },
            },
        );
        proof {
            assert(self@.todos =~= before.add_todo(session_id@, id@, content@).0.todos);
        }
        Ok(())
    }

    /// Give the item that `prefix` addresses a status. Marking one item
    /// `in_progress` returns any other active item to `pending`.
    pub fn set_todo_status(&mut self, session_id: &str, prefix: &str, status: &str) -> (r: Result<
        (),
        StoreError,
    >)
        ensures
            (final(self)@, outcome(r)) == old(self)@.set_todo_status(
                session_id@,
                prefix@,
                status@,
            ),
    {
        let at = match self.find_todo(session_id, prefix) {
            Ok(at) => at,
            Err(e) => {
                return Err(e);
            },
        };
        let ghost before = self@;
        let starts = same(status, "in_progress");
        let mut k: usize = 0;
        while k < self.todos.len()
            invariant
                starts == (status@ == "in_progress"@),
                at < self.todos@.len(),
                k <= self.todos@.len(),
                self@.todos.len() == before.todos.len(),
                self@.sessions == before.sessions,
                self@.entries == before.entries,
                self@.records == before.records,
                self@.inputs == before.inputs,
                forall|j: int|
                    0 <= j < k ==> #[trigger] self@.todos[j] == after_status(
                        before.todos,
                        j,
                        at as int,
                        session_id@,
                        status@,
                    ),
                forall|j: int|
                    k <= j < self.todos@.len() ==> #[trigger] self@.todos[j] == before.todos[j],
            decreases self.todos@.len() - k,
        {
            let ghost mid = self@.todos;
            proof {
                assert(mid[k as int] == self.todos@[k as int]@);
            }
            if k == at {
                self.todos[k].todo.status = status.to_owned();
            } else if starts && same(self.todos[k].session_id.as_str(), session_id) && same(
                self.todos[k].todo.status.as_str(),
                "in_progress",
            ) {
                self.todos[k].todo.status = "pending".to_owned();
            }
            proof {
                assert(self@.todos =~= mid.update(k as int, self.todos@[k as int]@));
            }
            k += 1;
        }
        proof {
            assert(self@.todos =~= before.set_todo_status(session_id@, prefix@, status@).0.todos);
        }
        Ok(())
    }

    /// Drop the item that `prefix` addresses.
    pub fn remove_todo(&mut self, session_id: &str, prefix: &str) -> (r: Result<(), StoreError>)
        ensures
            (final(self)@, outcome(r)) == old(self)@.remove_todo(session_id@, prefix@),
    {
        let at = match self.find_todo(session_id, prefix) {
            Ok(at) => at,
            Err(e) => {
                return Err(e);
            },
        };
        let ghost before = self@;
        let _gone = self.todos.remove(at);
        proof {
            assert(self@.todos =~= before.todos.remove(at as int));
        }
        Ok(())
    }

    /// The plan of a session.
    pub fn list_todos(&self, session_id: &str) -> (r: Vec<Todo>)
        ensures
            views(r@) == plan(self@.todos, session_id@),
    {
        let mut out: Vec<Todo> = Vec::new();
        let ghost rows = self@.todos;
        let mut i: usize = 0;
        proof {
            assert(views(out@) =~= plan(rows.take(0), session_id@));
        }
        while i < self.todos.len()
            invariant
                rows == self@.todos,
                i <= self.todos@.len(),
                views(out@) == plan(rows.take(i as int), session_id@),
            decreases self.todos@.len() - i,
        {
            let row = &self.todos[i];
            proof {
                lemma_step(rows, i as int);
                assert(rows[i as int] == row@);
            }
            if same(row.session_id.as_str(), session_id) {
                let ghost before = out@;
                let c = row.todo.clone();
                let ghost cv = c@;
                out.push(c);
                proof {
                    assert(views(out@) =~= views(before).push(cv));
                }
            }
            i += 1;
        }
        proof {
            assert(rows.take(i as int) =~= rows);
        }
        out
    }
}

proof fn lemma_pending_is_not_active()
    ensures
        "pending"@ != "in_progress"@,
{
    reveal_strlit("in_progress");
    reveal_strlit("pending");
    assert("pending"@.len() != "in_progress"@.len());
}

/// At most one item of a session is in progress: changing the status of one
/// never makes two.
pub proof fn law_one_item_in_progress(
    s: StoreView,
    session_id: Seq<char>,
    prefix: Seq<char>,
    status: Seq<char>,
)
    requires
        one_active(s.todos, session_id),
    ensures
        one_active(s.set_todo_status(session_id, prefix, status).0.todos, session_id),
{
    let next = s.set_todo_status(session_id, prefix, status).0;
    if let Ok(at) = address(s.todos, session_id, prefix) {
        lemma_pending_is_not_active();
        lemma_addressed_at(s.todos, session_id, prefix);
        assert forall|i: int, j: int|
            0 <= i < next.todos.len() && 0 <= j < next.todos.len() && (
            #[trigger] next.todos[i]).session_id == session_id && (
            #[trigger] next.todos[j]).session_id == session_id && next.todos[i].todo.status
                == "in_progress"@ && next.todos[j].todo.status == "in_progress"@ implies i
            == j by {
            assert(next.todos[i] == after_status(s.todos, i, at, session_id, status));
            assert(next.todos[j] == after_status(s.todos, j, at, session_id, status));
            if status != "in_progress"@ {
                assert(s.todos[i].session_id == session_id);
                assert(s.todos[j].session_id == session_id);
            }
        }
    }
}

/// Adding and dropping items keeps at most one in progress.
pub proof fn law_plan_changes_keep_one_active(
    s: StoreView,
    session_id: Seq<char>,
    id: Seq<char>,
    content: Seq<char>,
    prefix: Seq<char>,
)
    requires
        one_active(s.todos, session_id),
    ensures
        one_active(s.add_todo(session_id, id, content).0.todos, session_id),
        one_active(s.remove_todo(session_id, prefix).0.todos, session_id),
{
    lemma_pending_is_not_active();
    let a = s.add_todo(session_id, id, content).0;
    assert forall|i: int, j: int|
        0 <= i < a.todos.len() && 0 <= j < a.todos.len() && (#[trigger] a.todos[i]).session_id
            == session_id && (#[trigger] a.todos[j]).session_id == session_id
            && a.todos[i].todo.status == "in_progress"@ && a.todos[j].todo.status
            == "in_progress"@ implies i == j by {
        if i < s.todos.len() && j < s.todos.len() {
            assert(s.todos[i].session_id == session_id);
            assert(s.todos[j].session_id == session_id);
        }
    }
    let r = s.remove_todo(session_id, prefix).0;
    if let Ok(at) = address(s.todos, session_id, prefix) {
        lemma_addressed_at(s.todos, session_id, prefix);
        assert forall|i: int, j: int|
            0 <= i < r.todos.len() && 0 <= j < r.todos.len() && (#[trigger] r.todos[i]).session_id
                == session_id && (#[trigger] r.todos[j]).session_id == session_id
                && r.todos[i].todo.status == "in_progress"@ && r.todos[j].todo.status
                == "in_progress"@ implies i == j by {
            let i2 = if i < at {
                i
            } else {
                i + 1
            };
            let j2 = if j < at {
                j
            } else {
                j + 1
            };
            assert(s.todos[i2].session_id == session_id);
            assert(s.todos[j2].session_id == session_id);
        }
    }
}

/// Adding the same item again changes nothing.
pub proof fn law_add_todo_is_idempotent(
    s: StoreView,
    session_id: Seq<char>,
    id: Seq<char>,
    content: Seq<char>,
    again: Seq<char>,
)
    ensures
        ({
            let (once, r) = s.add_todo(session_id, id, content);
            r is Ok ==> once.add_todo(session_id, id, again) == (
                once,
                Ok::<(), StoreErrorView>(()),
            )
        }),
{
    let (once, r) = s.add_todo(session_id, id, content);
    if r is Ok && !todo_in(s.todos, id) {
        assert(once.todos[s.todos.len() as int].todo.id == id);
    }
}

/// Starting an item leaves it the one item of its session in progress.
pub proof fn law_started_item_is_the_only_one(
    s: StoreView,
    session_id: Seq<char>,
    prefix: Seq<char>,
    i: int,
)
    requires
        address(s.todos, session_id, prefix) is Ok,
        0 <= i < s.todos.len(),
        s.todos[i].session_id == session_id,
    ensures
        ({
            let next = s.set_todo_status(session_id, prefix, "in_progress"@).0;
            next.todos[i].todo.status == "in_progress"@ <==> i == address(
                s.todos,
                session_id,
                prefix,
            )->Ok_0
        }),
{
    lemma_pending_is_not_active();
    lemma_addressed_at(s.todos, session_id, prefix);
}

/// A prefix addresses the same places whatever the statuses are.
proof fn lemma_same_places(
    a: Seq<TodoRowView>,
    b: Seq<TodoRowView>,
    session_id: Seq<char>,
    prefix: Seq<char>,
)
    requires
        a.len() == b.len(),
        forall|i: int|
            0 <= i < a.len() ==> (#[trigger] a[i]).session_id == b[i].session_id && a[i].todo.id
                == b[i].todo.id,
    ensures
        addressed_at(a, session_id, prefix) == addressed_at(b, session_id, prefix),
    decreases a.len(),
{
    if a.len() > 0 {
        assert(a[a.len() - 1].session_id == b[a.len() - 1].session_id);
        assert forall|i: int| 0 <= i < a.drop_last().len() implies (
        #[trigger] a.drop_last()[i]).session_id == b.drop_last()[i].session_id
            && a.drop_last()[i].todo.id == b.drop_last()[i].todo.id by {
            assert(a[i].session_id == b[i].session_id);
        }
        lemma_same_places(a.drop_last(), b.drop_last(), session_id, prefix);
    }
}

/// Saying the same status again changes nothing.
pub proof fn law_status_change_is_idempotent(
    s: StoreView,
    session_id: Seq<char>,
    prefix: Seq<char>,
    status: Seq<char>,
)
    ensures
        ({
            let (once, r) = s.set_todo_status(session_id, prefix, status);
            once.set_todo_status(session_id, prefix, status) == (once, r)
        }),
{
    let (once, r) = s.set_todo_status(session_id, prefix, status);
    if let Ok(at) = address(s.todos, session_id, prefix) {
        lemma_pending_is_not_active();
        lemma_addressed_at(s.todos, session_id, prefix);
        lemma_same_places(s.todos, once.todos, session_id, prefix);
        let twice = once.set_todo_status(session_id, prefix, status).0;
        assert(twice.todos =~= once.todos);
    }
}

} // verus!
