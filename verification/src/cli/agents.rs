//! One screen for every background session.
//!
//! The dashboard is a view over the store plus checks of which processes are
//! alive. Dispatching durably queues a prompt and starts a detached worker
//! (see [`crate::cli::bg`]); nothing here talks to it, so closing the
//! dashboard never stops one.
use vstd::prelude::*;
use vstd::string::*;

use super::{counts_of, shown_counts, shown_title, title_of};
use crate::llm::{Message, MessageView, Role};
use crate::store::{Session, SessionView};
use crate::store::status::{derived, AgentStatus};
use crate::store::worker::{short, short_id};
use crate::text::{
    at_most, byte_len, chars_of, dec, decimal, lemma_lex_total, lemma_lex_transitive, lemma_step,
    len_of, lex_le, lines, lines_of, opt_view, pad, padded, slice, trim, trimmed, views,
};

verus! {

// ── Rows ────────────────────────────────────────────────────────────────────

/// A session paired with its state.
#[derive(Debug)]
pub struct Row {
    pub session: Session,
    pub status: AgentStatus,
}

/// What a row is.
pub struct RowView {
    pub session: SessionView,
    pub status: AgentStatus,
}

impl View for Row {
    type V = RowView;

    open spec fn view(&self) -> RowView {
        RowView { session: self.session@, status: self.status }
    }
}

impl Clone for Row {
    fn clone(&self) -> (r: Self)
        ensures
            r@ == self@,
    {
        Row { session: self.session.clone(), status: self.status }
    }
}

/// Whether a row may stand before another: Working first, then Idle, then
/// Failed, then Completed, and within each the latest updated first.
pub open spec fn row_le(a: RowView, b: RowView) -> bool {
    a.status.rank() < b.status.rank() || (a.status.rank() == b.status.rank() && lex_le(
        b.session.updated_at,
        a.session.updated_at,
    ))
}

fn may_precede(a: &Row, b: &Row) -> (r: bool)
    ensures
        r == row_le(a@, b@),
{
    let x: u8 = a.status.group_rank();
    let y: u8 = b.status.group_rank();
    x < y || (x == y && at_most(b.session.updated_at.as_str(), a.session.updated_at.as_str()))
}

/// Where a row goes among rows in order: behind those that may precede it.
pub open spec fn row_place(rows: Seq<RowView>, row: RowView) -> int
    decreases rows.len(),
{
    if rows.len() == 0 || row_le(rows.last(), row) {
        rows.len() as int
    } else {
        row_place(rows.drop_last(), row)
    }
}

/// Rows in the dashboard's order; rows that stand alike keep theirs.
pub open spec fn arranged(rows: Seq<RowView>) -> Seq<RowView>
    decreases rows.len(),
{
    if rows.len() == 0 {
        Seq::empty()
    } else {
        let before = arranged(rows.drop_last());
        before.insert(row_place(before, rows.last()), rows.last())
    }
}

/// Group and order rows for display.
pub fn arrange(rows: &Vec<Row>) -> (r: Vec<Row>)
    ensures
        views(r@) == arranged(views(rows@)),
{
    let ghost all = views(rows@);
    let mut out: Vec<Row> = Vec::new();
    let mut i: usize = 0;
    proof {
        assert(views(out@) =~= arranged(all.take(0)));
    }
    while i < rows.len()
        invariant
            all == views(rows@),
            i <= rows@.len(),
            views(out@) == arranged(all.take(i as int)),
        decreases rows@.len() - i,
    {
        let ghost bv = views(out@);
        let ghost rv = rows@[i as int]@;
        proof {
            lemma_step(all, i as int);
            assert(all[i as int] == rv);
        }
        let mut at: usize = out.len();
        proof {
            assert(bv.take(at as int) =~= bv);
        }
        while at > 0 && !may_precede(&out[at - 1], &rows[i])
            invariant
                i < rows@.len(),
                bv == views(out@),
                rv == rows@[i as int]@,
                at <= out@.len(),
                row_place(bv, rv) == row_place(bv.take(at as int), rv),
            decreases at,
        {
            at -= 1;
            proof {
                lemma_step(bv, at as int);
                assert(bv[at as int] == out@[at as int]@);
            }
        }
        proof {
            if at > 0 {
                lemma_step(bv, at - 1);
                assert(bv[at - 1] == out@[at - 1]@);
            }
        }
        out.insert(at, rows[i].clone());
        proof {
            assert(views(out@) =~= bv.insert(at as int, rv));
        }
        i += 1;
    }
    proof {
        assert(all.take(i as int) =~= all);
    }
    out
}

/// Sessions with their states, given which of their processes are alive.
pub open spec fn rows_of(sessions: Seq<SessionView>, alive: Seq<bool>) -> Seq<RowView> {
    Seq::new(
        sessions.len(),
        |i: int|
            RowView { session: sessions[i], status: derived(sessions[i].status, alive[i]) },
    )
}

/// The dashboard's rows: all sessions with their states, in order.
pub fn load_rows(sessions: &Vec<Session>, alive: &Vec<bool>) -> (r: Vec<Row>)
    requires
        alive@.len() == sessions@.len(),
    ensures
        views(r@) == arranged(rows_of(views(sessions@), alive@)),
{
    let mut rows: Vec<Row> = Vec::new();
    let ghost want = rows_of(views(sessions@), alive@);
    let mut i: usize = 0;
    while i < sessions.len()
        invariant
            want == rows_of(views(sessions@), alive@),
            alive@.len() == sessions@.len(),
            i <= sessions@.len(),
            views(rows@) =~= want.take(i as int),
        decreases sessions@.len() - i,
    {
        let ghost before = rows@;
        let session = sessions[i].clone();
        let status = crate::store::status::derive(session.status.as_str(), alive[i]);
        let ghost rv = RowView { session: session@, status };
        proof {
            assert(views(sessions@)[i as int] == sessions@[i as int]@);
        }
        rows.push(Row { session, status });
        proof {
            assert(views(rows@) =~= views(before).push(rv));
            assert(want.take(i + 1) =~= want.take(i as int).push(want[i as int]));
        }
        i += 1;
    }
    proof {
        assert(views(rows@) =~= want);
    }
    arrange(&rows)
}

// ── Keys ────────────────────────────────────────────────────────────────────

/// The dashboard's state.
#[derive(Debug)]
pub struct App {
    pub rows: Vec<Row>,
    pub selected: usize,
    pub input: String,
    pub peek: bool,
    pub error: Option<String>,
}

/// What the dashboard's state is.
pub struct AppView {
    pub rows: Seq<RowView>,
    pub selected: int,
    pub input: Seq<char>,
    pub peek: bool,
    pub error: Option<Seq<char>>,
}

impl View for App {
    type V = AppView;

    open spec fn view(&self) -> AppView {
        AppView {
            rows: views(self.rows@),
            selected: self.selected as int,
            input: self.input@,
            peek: self.peek,
            error: opt_view(self.error),
        }
    }
}

/// A key that was pressed.
#[derive(Debug, Clone, Copy, PartialEq, Eq, Structural)]
pub enum Key {
    /// Control and `c`.
    Interrupt,
    Esc,
    Up,
    Down,
    Enter,
    Backspace,
    Char(char),
    Other,
}

/// What a key asks for.
#[derive(Debug)]
pub enum Action {
    Stay,
    Quit,
    /// Dispatch a session with this prompt.
    Dispatch(String),
}

/// What a key asks for.
pub enum ActionView {
    Stay,
    Quit,
    Dispatch(Seq<char>),
}

impl View for Action {
    type V = ActionView;

    open spec fn view(&self) -> ActionView {
        match self {
            Action::Stay => ActionView::Stay,
            Action::Quit => ActionView::Quit,
            Action::Dispatch(text) => ActionView::Dispatch(text@),
        }
    }
}

impl AppView {
    /// Whether the selection is on a row, or on the first place of no rows.
    pub open spec fn wf(self) -> bool {
        0 <= self.selected && (self.selected < self.rows.len() || self.selected == 0)
    }

    /// The dashboard before anything was loaded.
    pub open spec fn empty() -> AppView {
        AppView { rows: Seq::empty(), selected: 0, input: Seq::empty(), peek: false, error: None }
    }

    /// The selected session.
    pub open spec fn selected_session(self) -> Option<SessionView> {
        if 0 <= self.selected < self.rows.len() {
            Some(self.rows[self.selected].session)
        } else {
            None
        }
    }

    /// The dashboard with rows read anew; the selection stays on a row.
    pub open spec fn refreshed(self, rows: Seq<RowView>) -> AppView {
        AppView {
            rows,
            selected: if self.selected < rows.len() {
                self.selected
            } else if rows.len() > 0 {
                rows.len() - 1
            } else {
                0
            },
            ..self
        }
    }

    /// What a key does and asks for.
    pub open spec fn pressed(self, key: Key) -> (AppView, ActionView) {
        match key {
            Key::Interrupt => (self, ActionView::Quit),
            Key::Esc => if self.peek {
                (AppView { peek: false, ..self }, ActionView::Stay)
            } else if self.input.len() > 0 {
                (AppView { input: Seq::empty(), ..self }, ActionView::Stay)
            } else {
                (self, ActionView::Quit)
            },
            Key::Up => (
                AppView {
                    peek: false,
                    selected: if self.selected > 0 {
                        self.selected - 1
                    } else {
                        0
                    },
                    ..self
                },
                ActionView::Stay,
            ),
            Key::Down => (
                AppView {
                    peek: false,
                    selected: if self.selected + 1 < self.rows.len() {
                        self.selected + 1
                    } else {
                        self.selected
                    },
                    ..self
                },
                ActionView::Stay,
            ),
            Key::Enter => {
                let text = trim(self.input);
                if byte_len(text) >= 4 {
                    (AppView { input: Seq::empty(), ..self }, ActionView::Dispatch(text))
                } else if text.len() > 0 {
                    (
                        AppView { error: Some("prompt too short — describe the task"@), ..self },
                        ActionView::Stay,
                    )
                } else {
                    (self, ActionView::Stay)
                }
            },
            Key::Backspace => (
                AppView {
                    input: if self.input.len() > 0 {
                        self.input.drop_last()
                    } else {
                        self.input
                    },
                    ..self
                },
                ActionView::Stay,
            ),
            Key::Char(c) => if c == ' ' && self.input.len() == 0 {
                (
                    AppView { peek: !self.peek && self.selected_session() is Some, ..self },
                    ActionView::Stay,
                )
            } else {
                (AppView { input: self.input.push(c), ..self }, ActionView::Stay)
            },
            Key::Other => (self, ActionView::Stay),
        }
    }
}

impl App {
    /// The dashboard before anything was loaded.
    pub fn new() -> (r: Self)
        ensures
            r@ == AppView::empty(),
            r@.wf(),
    {
        let app = App {
            rows: Vec::new(),
            selected: 0,
            input: String::new(),
            peek: false,
            error: None,
        };
        proof {
            assert(views(app.rows@) =~= Seq::<RowView>::empty());
            assert(app.input@ =~= Seq::<char>::empty());
        }
        app
    }

    /// The selected session.
    pub fn selected_session(&self) -> (r: Option<&Session>)
        ensures
            match r {
                Some(s) => self@.selected_session() == Some(s@),
                None => self@.selected_session() is None,
            },
    {
        if self.selected < self.rows.len() {
            proof {
                assert(self@.rows[self.selected as int] == self.rows@[self.selected as int]@);
            }
            Some(&self.rows[self.selected].session)
        } else {
            None
        }
    }

    /// Take rows that were read anew.
    pub fn refresh(&mut self, rows: Vec<Row>)
        ensures
            final(self)@ == old(self)@.refreshed(views(rows@)),
            final(self)@.wf(),
    {
        self.rows = rows;
        if self.selected >= self.rows.len() {
            self.selected = if self.rows.len() > 0 {
                self.rows.len() - 1
            } else {
                0
            };
        }
    }

    /// Say that something failed.
    pub fn fail(&mut self, why: &str)
        ensures
            final(self)@ == (AppView { error: Some(why@), ..old(self)@ }),
    {
        self.error = Some(why.to_owned());
    }

    /// Say that a dispatch failed.
    pub fn dispatch_failed(&mut self, why: &str)
        ensures
            final(self)@ == (AppView { error: Some("dispatch failed: "@ + why@), ..old(self)@ }),
    {
        self.error = Some("dispatch failed: ".to_owned().concat(why));
    }

    /// Press a key.
    pub fn press(&mut self, key: Key) -> (r: Action)
        ensures
            (final(self)@, r@) == old(self)@.pressed(key),
    {
        let ghost was = self@;
        match key {
            Key::Interrupt => Action::Quit,
            Key::Esc => {
                if self.peek {
                    self.peek = false;
                    Action::Stay
                } else if !self.input.as_str().is_empty() {
                    self.input = String::new();
                    proof {
                        assert(self.input@ =~= Seq::<char>::empty());
                    }
                    Action::Stay
                } else {
                    Action::Quit
                }
            },
            Key::Up => {
                self.peek = false;
                if self.selected > 0 {
                    self.selected = self.selected - 1;
                }
                Action::Stay
            },
            Key::Down => {
                self.peek = false;
                if self.rows.len() > 0 && self.selected < self.rows.len() - 1 {
                    self.selected = self.selected + 1;
                }
                Action::Stay
            },
            Key::Enter => {
                let text = trimmed(self.input.as_str());
                if len_of(text.as_str()) >= 4 {
                    self.input = String::new();
                    proof {
                        assert(self.input@ =~= Seq::<char>::empty());
                    }
                    Action::Dispatch(text)
                } else {
                    if !text.as_str().is_empty() {
                        self.error = Some("prompt too short — describe the task".to_owned());
                    }
                    Action::Stay
                }
            },
            Key::Backspace => {
                let cs = chars_of(self.input.as_str());
                if cs.len() > 0 {
                    let shorter = slice(&cs, 0, cs.len() - 1);
                    proof {
                        assert(shorter@ =~= was.input.drop_last());
                    }
                    self.input = shorter;
                }
                Action::Stay
            },
            Key::Char(c) => {
                if c == ' ' && self.input.as_str().is_empty() {
                    let on_row = self.selected < self.rows.len();
                    self.peek = !self.peek && on_row;
                } else {
                    self.input.push(c);
                }
                Action::Stay
            },
            Key::Other => Action::Stay,
        }
    }
}

// ── Texts ───────────────────────────────────────────────────────────────────

/// How many rows are working.
pub open spec fn working_in(rows: Seq<RowView>) -> nat
    decreases rows.len(),
{
    if rows.len() == 0 {
        0
    } else {
        working_in(rows.drop_last()) + if rows.last().status == AgentStatus::Working {
            1nat
        } else {
            0
        }
    }
}

/// What the header says behind the name.
pub fn header(rows: &Vec<Row>) -> (r: String)
    ensures
        r@ == "· "@ + dec(rows@.len()) + " sessions · "@ + dec(working_in(views(rows@)))
            + " working"@,
{
    let ghost all = views(rows@);
    let mut working: usize = 0;
    let mut i: usize = 0;
    while i < rows.len()
        invariant
            all == views(rows@),
            i <= rows@.len(),
            working <= i,
            working == working_in(all.take(i as int)),
        decreases rows@.len() - i,
    {
        proof {
            lemma_step(all, i as int);
            assert(all[i as int] == rows@[i as int]@);
        }
        if rows[i].status == AgentStatus::Working {
            working += 1;
        }
        i += 1;
    }
    proof {
        assert(all.take(i as int) =~= all);
    }
    "· ".to_owned().concat(decimal(rows.len() as u64).as_str()).concat(" sessions · ").concat(
        decimal(working as u64).as_str(),
    ).concat(" working")
}

/// A line of the list.
#[derive(Debug)]
pub enum ListLine {
    /// The heading of a group.
    Group(AgentStatus),
    /// A session.
    Session { text: String, selected: bool },
}

/// What a line of the list is.
pub enum ListLineView {
    Group(AgentStatus),
    Session { text: Seq<char>, selected: bool },
}

impl View for ListLine {
    type V = ListLineView;

    open spec fn view(&self) -> ListLineView {
        match self {
            ListLine::Group(status) => ListLineView::Group(*status),
            ListLine::Session { text, selected } => ListLineView::Session {
                text: text@,
                selected: *selected,
            },
        }
    }
}

/// What is said where there are no sessions.
pub const NO_SESSIONS: &'static str = "  no sessions yet — type a task below and press Enter";

/// A title as far as the list shows it.
pub open spec fn clipped_title(title: Seq<char>) -> Seq<char> {
    if title.len() > 48 {
        title.take(48)
    } else {
        title
    }
}

/// A session's line.
pub open spec fn row_text(session: SessionView, selected: bool) -> Seq<char> {
    let marker = if selected {
        "› "@
    } else {
        "  "@
    };
    let child = if session.parent_session_id is Some {
        " ↳"@
    } else {
        ""@
    };
    marker + short(session.id) + "  "@ + padded(session.provider, 10) + "  "@ + counts_of(
        session.usage,
    ) + "  "@ + clipped_title(title_of(session)) + child
}

/// The lines of the list: each group under its heading.
pub open spec fn list_of(rows: Seq<RowView>, selected: int) -> Seq<ListLineView>
    decreases rows.len(),
{
    if rows.len() == 0 {
        Seq::empty()
    } else {
        let before = list_of(rows.drop_last(), selected);
        let row = rows.last();
        let headed = if rows.len() > 1 && rows[rows.len() - 2].status == row.status {
            before
        } else {
            before.push(ListLineView::Group(row.status))
        };
        let on = rows.len() - 1 == selected;
        headed.push(ListLineView::Session { text: row_text(row.session, on), selected: on })
    }
}

fn clip_title(title: String) -> (r: String)
    ensures
        r@ == clipped_title(title@),
{
    let cs = chars_of(title.as_str());
    if cs.len() > 48 {
        let head = slice(&cs, 0, 48);
        proof {
            assert(head@ =~= title@.take(48));
        }
        head
    } else {
        title
    }
}

/// A session's line.
pub fn row_line(session: &Session, selected: bool) -> (r: String)
    ensures
        r@ == row_text(session@, selected),
{
    let marker = if selected {
        "› "
    } else {
        "  "
    };
    let child = match session.parent_session_id {
        Some(_) => " ↳",
        None => "",
    };
    let title = clip_title(shown_title(session));
    marker.to_owned().concat(short_id(session.id.as_str()).as_str()).concat("  ").concat(
        pad(session.provider.as_str(), 10).as_str(),
    ).concat("  ").concat(shown_counts(session.usage).as_str()).concat("  ").concat(
        title.as_str(),
    ).concat(child)
}

/// The lines of the list.
pub fn list_lines(rows: &Vec<Row>, selected: usize) -> (r: Vec<ListLine>)
    ensures
        views(r@) == list_of(views(rows@), selected as int),
{
    let ghost all = views(rows@);
    let mut out: Vec<ListLine> = Vec::new();
    let mut i: usize = 0;
    proof {
        assert(views(out@) =~= list_of(all.take(0), selected as int));
    }
    while i < rows.len()
        invariant
            all == views(rows@),
            i <= rows@.len(),
            views(out@) == list_of(all.take(i as int), selected as int),
        decreases rows@.len() - i,
    {
        proof {
            lemma_step(all, i as int);
            assert(all[i as int] == rows@[i as int]@);
        }
        let grouped = i > 0 && rows[i - 1].status == rows[i].status;
        proof {
            if i > 0 {
                assert(all.take(i + 1)[i - 1] == rows@[i - 1]@);
            }
        }
        let ghost first = out@;
        if !grouped {
            out.push(ListLine::Group(rows[i].status));
            proof {
                assert(views(out@) =~= views(first).push(
                    ListLineView::Group(rows@[i as int].status),
                ));
            }
        }
        let ghost headed = out@;
        let on = i == selected;
        let text = row_line(&rows[i].session, on);
        let ghost lv = ListLineView::Session { text: text@, selected: on };
        out.push(ListLine::Session { text, selected: on });
        proof {
            assert(views(out@) =~= views(headed).push(lv));
        }
        i += 1;
    }
    proof {
        assert(all.take(i as int) =~= all);
    }
    out
}

/// The title of the input box.
pub fn input_title(error: Option<&str>) -> (r: String)
    ensures
        r@ == match error {
            Some(e) => " dispatch · "@ + e@ + " "@,
            None => " dispatch (Enter) · ↑↓ select · Space peek · Esc quit "@,
        },
{
    match error {
        Some(e) => " dispatch · ".to_owned().concat(e).concat(" "),
        None => " dispatch (Enter) · ↑↓ select · Space peek · Esc quit ".to_owned(),
    }
}

/// What stands in the input box while nothing is typed.
pub const PLACEHOLDER: &'static str = "describe a task…";

/// What the assistant said last.
pub open spec fn last_said(messages: Seq<MessageView>) -> Option<Seq<char>>
    decreases messages.len(),
{
    if messages.len() == 0 {
        None
    } else if messages.last().role == Role::Assistant {
        Some(messages.last().text())
    } else {
        last_said(messages.drop_last())
    }
}

/// What the peek panel shows of a transcript.
pub open spec fn latest_of(messages: Seq<MessageView>) -> Seq<char> {
    match last_said(messages) {
        Some(t) => if t.len() > 0 {
            t
        } else {
            "(no output yet)"@
        },
        None => "(no output yet)"@,
    }
}

/// What the peek panel shows of a transcript: the latest text of the
/// assistant.
pub fn latest(messages: &Vec<Message>) -> (r: String)
    ensures
        r@ == latest_of(views(messages@)),
{
    let ghost all = views(messages@);
    let mut n: usize = messages.len();
    proof {
        assert(all.take(n as int) =~= all);
    }
    while n > 0
        invariant
            all == views(messages@),
            n <= messages@.len(),
            last_said(all) == last_said(all.take(n as int)),
        decreases n,
    {
        n -= 1;
        proof {
            lemma_step(all, n as int);
            assert(all[n as int] == messages@[n as int]@);
        }
        if messages[n].role == Role::Assistant {
            let text = messages[n].text();
            if !text.as_str().is_empty() {
                return text;
            }
            return "(no output yet)".to_owned();
        }
    }
    "(no output yet)".to_owned()
}

/// What the peek panel shows where the transcript cannot be read.
pub fn unreadable(why: &str) -> (r: String)
    ensures
        r@ == "(could not read transcript: "@ + why@ + ")"@,
{
    "(could not read transcript: ".to_owned().concat(why).concat(")")
}

/// How a line of the peek panel is shown.
#[derive(Debug, Clone, Copy, PartialEq, Eq, Structural)]
pub enum Tone {
    Bold,
    Dim,
    Plain,
}

/// A line of the peek panel.
#[derive(Debug)]
pub struct PeekLine {
    pub tone: Tone,
    pub text: String,
}

/// What a line of the peek panel is.
pub struct PeekLineView {
    pub tone: Tone,
    pub text: Seq<char>,
}

impl View for PeekLine {
    type V = PeekLineView;

    open spec fn view(&self) -> PeekLineView {
        PeekLineView { tone: self.tone, text: self.text@ }
    }
}

/// A line of the peek panel.
pub open spec fn peek_line(tone: Tone, text: Seq<char>) -> PeekLineView {
    PeekLineView { tone, text }
}

/// The peek panel's lines: an isolated session says where its output is.
pub open spec fn peek_of(session: SessionView, latest: Seq<char>) -> Seq<PeekLineView> {
    let head = seq![
        peek_line(Tone::Bold, short(session.id) + "  ("@ + session.provider + ")"@),
    ];
    let place = match session.worktree_path {
        Some(path) => seq![peek_line(Tone::Dim, "worktree "@ + path)],
        None => Seq::empty(),
    };
    let body = lines(latest).map_values(|l: Seq<char>| peek_line(Tone::Plain, l));
    head + place + seq![peek_line(Tone::Plain, ""@)] + body + seq![
        peek_line(Tone::Plain, ""@),
        peek_line(Tone::Dim, "continue with:  bullpen run -r "@ + short(session.id) + " \"…\""@),
    ]
}

fn push_line(out: &mut Vec<PeekLine>, tone: Tone, text: String)
    ensures
        views(final(out)@) == views(old(out)@).push(peek_line(tone, text@)),
{
    let ghost before = out@;
    let ghost tv = text@;
    out.push(PeekLine { tone, text });
    proof {
        assert(views(out@) =~= views(before).push(peek_line(tone, tv)));
    }
}

/// The peek panel's lines.
pub fn peek_lines(session: &Session, latest: &str) -> (r: Vec<PeekLine>)
    ensures
        views(r@) == peek_of(session@, latest@),
{
    let mut out: Vec<PeekLine> = Vec::new();
    push_line(
        &mut out,
        Tone::Bold,
        short_id(session.id.as_str()).concat("  (").concat(session.provider.as_str()).concat(")"),
    );
    match &session.worktree_path {
        Some(path) => {
            push_line(&mut out, Tone::Dim, "worktree ".to_owned().concat(path.as_str()));
        },
        None => {},
    }
    push_line(&mut out, Tone::Plain, "".to_owned());
    let ghost top = views(out@);
    let ls = lines_of(latest);
    let ghost body = lines(latest@).map_values(|l: Seq<char>| peek_line(Tone::Plain, l));
    let mut i: usize = 0;
    while i < ls.len()
        invariant
            views(ls@) == lines(latest@),
            body == lines(latest@).map_values(|l: Seq<char>| peek_line(Tone::Plain, l)),
            i <= ls@.len(),
            views(out@) =~= top + body.take(i as int),
        decreases ls@.len() - i,
    {
        proof {
            assert(views(ls@)[i as int] == ls@[i as int]@);
            lemma_step(body, i as int);
        }
        push_line(&mut out, Tone::Plain, ls[i].clone());
        i += 1;
    }
    push_line(&mut out, Tone::Plain, "".to_owned());
    push_line(
        &mut out,
        Tone::Dim,
        "continue with:  bullpen run -r ".to_owned().concat(
            short_id(session.id.as_str()).as_str(),
        ).concat(" \"…\""),
    );
    proof {
        assert(views(ls@).len() == ls@.len());
        assert(body.take(i as int) =~= body);
        assert(views(out@) =~= peek_of(session@, latest@));
    }
    out
}

// ── Laws ────────────────────────────────────────────────────────────────────

/// Whether rows stand in the dashboard's order.
pub open spec fn is_arranged(rows: Seq<RowView>) -> bool {
    forall|i: int, j: int| 0 <= i <= j < rows.len() ==> row_le(#[trigger] rows[i], #[trigger] rows[j])
}

proof fn lemma_row_transitive(a: RowView, b: RowView, c: RowView)
    requires
        row_le(a, b),
        row_le(b, c),
    ensures
        row_le(a, c),
{
    if a.status.rank() == b.status.rank() && b.status.rank() == c.status.rank() {
        lemma_lex_transitive(
            c.session.updated_at,
            b.session.updated_at,
            a.session.updated_at,
            0,
        );
    }
}

proof fn lemma_row_total(a: RowView, b: RowView)
    ensures
        row_le(a, b) || row_le(b, a),
{
    lemma_lex_total(a.session.updated_at, b.session.updated_at, 0);
}

proof fn lemma_row_place(rows: Seq<RowView>, row: RowView)
    requires
        is_arranged(rows),
    ensures
        0 <= row_place(rows, row) <= rows.len(),
        forall|i: int| 0 <= i < row_place(rows, row) ==> row_le(#[trigger] rows[i], row),
        forall|i: int| row_place(rows, row) <= i < rows.len() ==> row_le(row, #[trigger] rows[i]),
    decreases rows.len(),
{
    if rows.len() > 0 {
        let rest = rows.drop_last();
        if row_le(rows.last(), row) {
            assert forall|i: int| 0 <= i < rows.len() implies row_le(#[trigger] rows[i], row) by {
                assert(row_le(rows[i], rows[rows.len() - 1]));
                lemma_row_transitive(rows[i], rows.last(), row);
            }
        } else {
            assert forall|i: int, j: int| 0 <= i <= j < rest.len() implies row_le(
                #[trigger] rest[i],
                #[trigger] rest[j],
            ) by {
                assert(row_le(rows[i], rows[j]));
            }
            lemma_row_place(rest, row);
            lemma_row_total(rows.last(), row);
            assert forall|i: int| 0 <= i < row_place(rows, row) implies row_le(
                #[trigger] rows[i],
                row,
            ) by {
                assert(rest[i] == rows[i]);
            }
            assert forall|i: int| row_place(rows, row) <= i < rows.len() implies row_le(
                row,
                #[trigger] rows[i],
            ) by {
                if i < rest.len() {
                    assert(rest[i] == rows[i]);
                }
            }
        }
    }
}

/// The dashboard shows every session once, working ones first, and within a
/// group the latest updated first.
pub proof fn law_dashboard_order(rows: Seq<RowView>)
    ensures
        is_arranged(arranged(rows)),
        arranged(rows).to_multiset() == rows.to_multiset(),
    decreases rows.len(),
{
    broadcast use vstd::seq_lib::group_to_multiset_ensures;

    if rows.len() == 0 {
        assert(rows =~= Seq::empty());
    } else {
        let rest = rows.drop_last();
        let row = rows.last();
        law_dashboard_order(rest);
        let before = arranged(rest);
        lemma_row_place(before, row);
        let at = row_place(before, row);
        let now = before.insert(at, row);
        assert forall|i: int, j: int| 0 <= i <= j < now.len() implies row_le(
            #[trigger] now[i],
            #[trigger] now[j],
        ) by {
            lemma_row_total(row, row);
            if i != at && j != at {
                let a = if i < at {
                    i
                } else {
                    i - 1
                };
                let b = if j < at {
                    j
                } else {
                    j - 1
                };
                assert(now[i] == before[a]);
                assert(now[j] == before[b]);
            } else if i == at && j != at {
                assert(now[j] == before[j - 1]);
            } else if j == at && i != at {
                assert(now[i] == before[i]);
            }
        }
        assert(now.remove(at) =~= before);
        assert(now[at] == row);
        assert(now.to_multiset().count(row) > 0);
        assert(now.to_multiset() =~= before.to_multiset().insert(row));
        assert(rest.push(row) =~= rows);
        vstd::seq_lib::to_multiset_build(rest, row);
    }
}

/// The selection never leaves the list, whatever is pressed and however the
/// list changes.
pub proof fn law_selection_stays_on_the_list(app: AppView, key: Key, rows: Seq<RowView>)
    requires
        app.wf(),
    ensures
        app.pressed(key).0.wf(),
        app.refreshed(rows).wf(),
{
}

/// A prompt that is dispatched is at least four bytes long and has no white
/// space at its ends.
pub proof fn law_dispatched_prompt_says_something(app: AppView, key: Key)
    requires
        app.pressed(key).1 is Dispatch,
    ensures
        key == Key::Enter,
        byte_len(app.pressed(key).1->Dispatch_0) >= 4,
        app.pressed(key).1->Dispatch_0 == trim(app.input),
        app.pressed(key).0.input.len() == 0,
{
}

} // verus!
