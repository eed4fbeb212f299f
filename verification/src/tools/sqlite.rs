//! SQLite databases behind the one read path.
//!
//! A database file (recognized by its magic header, not its extension) renders
//! as a schema overview — tables with their columns and row counts — and an
//! optional `query` runs read-only SQL against it. The engine itself, opened
//! by the caller, enforces read-only.
use vstd::prelude::*;
use vstd::string::*;

use super::{middle_cut, truncate_middle, ToolError, ToolErrorView};
use crate::text::{dec, dec_int, decimal, decimal_int, join, join_with, lemma_step, views};

verus! {

pub const MAX_ROWS: usize = 200;

pub const MAX_OUTPUT_BYTES: usize = 100_000;

/// The sixteen bytes every SQLite 3 database starts with.
pub open spec fn magic() -> Seq<u8> {
    seq![
        0x53u8,
        0x51u8,
        0x4cu8,
        0x69u8,
        0x74u8,
        0x65u8,
        0x20u8,
        0x66u8,
        0x6fu8,
        0x72u8,
        0x6du8,
        0x61u8,
        0x74u8,
        0x20u8,
        0x33u8,
        0x00u8,
    ]
}

/// Whether a file's head is that of a SQLite 3 database.
pub fn is_sqlite(head: &Vec<u8>) -> (r: bool)
    ensures
        r == magic().is_prefix_of(head@),
{
    let want: [u8; 16] = [
        0x53,
        0x51,
        0x4c,
        0x69,
        0x74,
        0x65,
        0x20,
        0x66,
        0x6f,
        0x72,
        0x6d,
        0x61,
        0x74,
        0x20,
        0x33,
        0x00,
    ];
    proof {
        assert(want@ =~= magic());
    }
    if head.len() < 16 {
        return false;
    }
    let mut i: usize = 0;
    while i < 16
        invariant
            i <= 16,
            want@ == magic(),
            head@.len() >= 16,
            forall|j: int| 0 <= j < i ==> #[trigger] head@[j] == magic()[j],
        decreases 16 - i,
    {
        if head[i] != want[i] {
            proof {
                if magic().is_prefix_of(head@) {
                    assert(head@.take(16)[i as int] == magic()[i as int]);
                }
            }
            return false;
        }
        i += 1;
    }
    proof {
        assert(head@.take(16) =~= magic());
    }
    true
}

/// What a database that cannot be read says.
pub fn db_err(path: &str, why: &str) -> (r: ToolError)
    ensures
        r@ == ToolErrorView::Failed("sqlite "@ + path@ + ": "@ + why@),
{
    ToolError::Failed("sqlite ".to_owned().concat(path).concat(": ").concat(why))
}

/// What a database that cannot be opened says.
pub fn open_failure(path: &str, why: &str) -> (r: ToolError)
    ensures
        r@ == ToolErrorView::Failed("cannot open "@ + path@ + ": "@ + why@),
{
    ToolError::Failed("cannot open ".to_owned().concat(path).concat(": ").concat(why))
}

/// A table: its name, how many rows it has (minus one where they could not be
/// counted), and its columns.
#[derive(Debug)]
pub struct Table {
    pub name: String,
    pub rows: i64,
    pub columns: Vec<String>,
}

/// A table, as a value.
pub struct TableView {
    pub name: Seq<char>,
    pub rows: int,
    pub columns: Seq<Seq<char>>,
}

impl View for Table {
    type V = TableView;

    open spec fn view(&self) -> TableView {
        TableView { name: self.name@, rows: self.rows as int, columns: views(self.columns@) }
    }
}

/// A table's line.
pub open spec fn table_line(t: TableView) -> Seq<char> {
    "  "@ + t.name + " ("@ + dec_int(t.rows) + " rows): "@ + join(t.columns, ", "@) + "\n"@
}

/// The lines of tables.
pub open spec fn table_lines(ts: Seq<TableView>) -> Seq<char>
    decreases ts.len(),
{
    if ts.len() == 0 {
        Seq::empty()
    } else {
        table_lines(ts.drop_last()) + table_line(ts.last())
    }
}

/// The default view of a database.
pub open spec fn schema_shown(path: Seq<char>, ts: Seq<TableView>) -> Seq<char> {
    if ts.len() == 0 {
        "SQLite database "@ + path + " (no tables)"@
    } else {
        middle_cut(
            "SQLite database "@ + path + " ("@ + dec(ts.len())
                + " table(s)) — pass `query` to run read-only SQL:\n"@ + table_lines(ts),
            MAX_OUTPUT_BYTES as int,
        )
    }
}

/// The default view: every table with its columns and row count.
pub fn overview(path: &str, tables: &Vec<Table>) -> (r: String)
    ensures
        r@ == schema_shown(path@, views(tables@)),
{
    if tables.len() == 0 {
        return "SQLite database ".to_owned().concat(path).concat(" (no tables)");
    }
    let n = decimal(tables.len() as u64);
    let mut out = "SQLite database ".to_owned().concat(path).concat(" (").concat(
        n.as_str(),
    ).concat(" table(s)) — pass `query` to run read-only SQL:\n");
    let ghost head = out@;
    let ghost all = views(tables@);
    let mut i: usize = 0;
    proof {
        assert(out@ =~= head + table_lines(all.take(0)));
    }
    while i < tables.len()
        invariant
            all == views(tables@),
            i <= tables@.len(),
            out@ == head + table_lines(all.take(i as int)),
        decreases tables@.len() - i,
    {
        let t = &tables[i];
        proof {
            lemma_step(all, i as int);
            assert(all[i as int] == t@);
        }
        let rows = decimal_int(t.rows);
        let columns = join_with(&t.columns, ", ");
        let line = "  ".to_owned().concat(t.name.as_str()).concat(" (").concat(
            rows.as_str(),
        ).concat(" rows): ").concat(columns.as_str()).concat("\n");
        out.append(line.as_str());
        proof {
            assert(out@ =~= head + table_lines(all.take(i + 1)));
        }
        i += 1;
    }
    proof {
        assert(all.take(i as int) =~= all);
    }
    truncate_middle(out, MAX_OUTPUT_BYTES)
}

/// A cell of a row; a real number comes as its text.
#[derive(Debug)]
pub enum Cell {
    Null,
    Integer(i64),
    Real(String),
    Text(String),
    Blob(u64),
}

/// A cell, as a value.
pub enum CellView {
    Null,
    Integer(int),
    Real(Seq<char>),
    Text(Seq<char>),
    Blob(int),
}

impl View for Cell {
    type V = CellView;

    open spec fn view(&self) -> CellView {
        match self {
            Cell::Null => CellView::Null,
            Cell::Integer(n) => CellView::Integer(*n as int),
            Cell::Real(t) => CellView::Real(t@),
            Cell::Text(t) => CellView::Text(t@),
            Cell::Blob(n) => CellView::Blob(*n as int),
        }
    }
}

/// A cell in words.
pub open spec fn cell_text(c: CellView) -> Seq<char> {
    match c {
        CellView::Null => "NULL"@,
        CellView::Integer(n) => dec_int(n),
        CellView::Real(t) => t,
        CellView::Text(t) => t,
        CellView::Blob(n) => "<blob "@ + dec(n as nat) + " bytes>"@,
    }
}

fn cell_words(c: &Cell) -> (r: String)
    ensures
        r@ == cell_text(c@),
{
    match c {
        Cell::Null => "NULL".to_owned(),
        Cell::Integer(n) => decimal_int(*n),
        Cell::Real(t) => t.clone(),
        Cell::Text(t) => t.clone(),
        Cell::Blob(n) => {
            let size = decimal(*n);
            "<blob ".to_owned().concat(size.as_str()).concat(" bytes>")
        },
    }
}

/// A row in words.
pub open spec fn row_text(cells: Seq<CellView>) -> Seq<char> {
    join(cells.map_values(|c: CellView| cell_text(c)), "\t"@)
}

/// A row in words.
pub fn row_words(cells: &Vec<Cell>) -> (r: String)
    ensures
        r@ == row_text(views(cells@)),
{
    let ghost all = views(cells@);
    let mut out: Vec<String> = Vec::new();
    let mut i: usize = 0;
    while i < cells.len()
        invariant
            all == views(cells@),
            i <= cells@.len(),
            out@.len() == i,
            forall|j: int| 0 <= j < i ==> #[trigger] out@[j]@ == cell_text(all[j]),
        decreases cells@.len() - i,
    {
        out.push(cell_words(&cells[i]));
        i += 1;
    }
    proof {
        let want = all.map_values(|c: CellView| cell_text(c));
        assert forall|j: int| 0 <= j < out@.len() implies #[trigger] views(out@)[j] == want[j] by {
            assert(out@[j]@ == cell_text(all[j]));
        }
        assert(views(out@) =~= want);
    }
    join_with(&out, "\t")
}

/// A query's answer so far: its column names, the rows that are rendered, and
/// how many rows there were.
#[derive(Debug)]
pub struct Answer {
    pub lines: Vec<String>,
    pub total: u64,
}

/// A query's answer so far, as a value.
pub struct AnswerView {
    pub lines: Seq<Seq<char>>,
    pub total: int,
}

impl View for Answer {
    type V = AnswerView;

    open spec fn view(&self) -> AnswerView {
        AnswerView { lines: views(self.lines@), total: self.total as int }
    }
}

impl AnswerView {
    /// The answer after one more row: past the cap it is counted, not rendered.
    pub open spec fn after(self, row: Seq<CellView>) -> AnswerView {
        AnswerView {
            lines: if self.total >= MAX_ROWS {
                self.lines
            } else {
                self.lines.push(row_text(row))
            },
            total: self.total + 1,
        }
    }

    /// The answer in words.
    pub open spec fn words(self) -> Seq<char> {
        let body = dec(self.total as nat) + " row(s):\n"@ + join(self.lines, "\n"@);
        middle_cut(
            if self.total > MAX_ROWS {
                body + "\n[rendered the first "@ + dec(MAX_ROWS as nat) + "]"@
            } else {
                body
            },
            MAX_OUTPUT_BYTES as int,
        )
    }
}

impl Answer {
    /// An answer without rows.
    pub fn new(names: &Vec<String>) -> (r: Self)
        ensures
            r@ == (AnswerView { lines: seq![join(views(names@), "\t"@)], total: 0 }),
    {
        let mut lines: Vec<String> = Vec::new();
        lines.push(join_with(names, "\t"));
        proof {
            assert(views(lines@) =~= seq![join(views(names@), "\t"@)]);
        }
        Answer { lines, total: 0 }
    }

    /// Take in one more row.
    pub fn push(&mut self, row: &Vec<Cell>)
        requires
            old(self).total < u64::MAX,
        ensures
            final(self)@ == old(self)@.after(views(row@)),
    {
        if self.total < MAX_ROWS as u64 {
            let ghost before = self.lines@;
            let words = row_words(row);
            let ghost wv = words@;
            self.lines.push(words);
            proof {
                assert(views(self.lines@) =~= views(before).push(wv));
            }
        }
        self.total = self.total + 1;
    }

    /// The answer in words: rows as tab-separated text under a header.
    pub fn render(&self) -> (r: String)
        ensures
            r@ == self@.words(),
    {
        let n = decimal(self.total);
        let body = join_with(&self.lines, "\n");
        let mut out = n.concat(" row(s):\n").concat(body.as_str());
        if self.total > MAX_ROWS as u64 {
            let cap = decimal(MAX_ROWS as u64);
            out = out.concat("\n[rendered the first ").concat(cap.as_str()).concat("]");
        }
        truncate_middle(out, MAX_OUTPUT_BYTES)
    }
}

} // verus!
