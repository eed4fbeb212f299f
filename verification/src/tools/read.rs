//! Reading through one path — a file, a directory, a URL — and writing.
use vstd::prelude::*;
use vstd::string::*;

use super::{
    middle_cut, required, required_str, resolve_path, tool_outcome, truncate_middle, ToolError,
    ToolErrorView,
};
use super::fs::{
    hashes_of, hashlines, line_hashes, shown, window_end, MAX_FETCH_BYTES, MAX_READ_BYTES,
};
use crate::json::{Json, JsonView};
use crate::path::{joined, parent, parent_of};
use crate::text::{
    at_most, byte_len, dec, decimal, lemma_step, len_of, lex_le, lines, lines_of, lossy_text,
    opt_view, read_lossy, same, starts_with, views,
};

verus! {

// ── Requests ────────────────────────────────────────────────────────────────

/// What a read is asked of, as a value.
pub enum TargetView {
    Url(Seq<char>),
    Path(Seq<char>),
}

/// What a read is asked of: a URL, or a path under the workspace.
#[derive(Debug)]
pub enum Target {
    Url(String),
    Path(String),
}

impl View for Target {
    type V = TargetView;

    open spec fn view(&self) -> TargetView {
        match self {
            Target::Url(u) => TargetView::Url(u@),
            Target::Path(p) => TargetView::Path(p@),
        }
    }
}

/// Whether a read's path is a URL.
pub open spec fn is_url(raw: Seq<char>) -> bool {
    "http://"@.is_prefix_of(raw) || "https://"@.is_prefix_of(raw)
}

/// What a read is asked of.
pub open spec fn target_of(workspace: Seq<char>, input: JsonView) -> Result<
    TargetView,
    ToolErrorView,
> {
    match required(input, "path"@) {
        Err(e) => Err(e),
        Ok(raw) => if is_url(raw) {
            Ok(TargetView::Url(raw))
        } else {
            Ok(TargetView::Path(joined(workspace, raw)))
        },
    }
}

/// What a read is asked of: a URL as it stands, any other path resolved
/// against the workspace.
pub fn read_target(workspace: &str, input: &Json) -> (r: Result<Target, ToolError>)
    ensures
        tool_outcome(r) == target_of(workspace@, input@),
{
    let raw = match required_str(input, "path") {
        Err(e) => {
            return Err(e);
        },
        Ok(raw) => raw,
    };
    if starts_with(raw, "http://") || starts_with(raw, "https://") {
        Ok(Target::Url(raw.to_owned()))
    } else {
        Ok(Target::Path(resolve_path(workspace, raw)))
    }
}

/// A write, as a value: where, what, and the directory to create first.
pub struct WriteView {
    pub path: Seq<char>,
    pub content: Seq<char>,
    pub parent: Option<Seq<char>>,
}

/// A write: where, what, and the directory to create first.
#[derive(Debug)]
pub struct Write {
    pub path: String,
    pub content: String,
    pub parent: Option<String>,
}

impl View for Write {
    type V = WriteView;

    open spec fn view(&self) -> WriteView {
        WriteView { path: self.path@, content: self.content@, parent: opt_view(self.parent) }
    }
}

/// The write a call asks for.
pub open spec fn write_of(workspace: Seq<char>, input: JsonView) -> Result<WriteView, ToolErrorView> {
    match required(input, "path"@) {
        Err(e) => Err(e),
        Ok(raw) => match required(input, "content"@) {
            Err(e) => Err(e),
            Ok(content) => Ok(
                WriteView {
                    path: joined(workspace, raw),
                    content,
                    parent: parent_of(joined(workspace, raw)),
                },
            ),
        },
    }
}

/// The write a call asks for.
pub fn write_request(workspace: &str, input: &Json) -> (r: Result<Write, ToolError>)
    ensures
        tool_outcome(r) == write_of(workspace@, input@),
{
    let raw = match required_str(input, "path") {
        Err(e) => {
            return Err(e);
        },
        Ok(raw) => raw,
    };
    let path = resolve_path(workspace, raw);
    let content = match required_str(input, "content") {
        Err(e) => {
            return Err(e);
        },
        Ok(content) => content,
    };
    let up = parent(path.as_str());
    Ok(Write { path, content: content.to_owned(), parent: up })
}

/// What a finished write says.
pub open spec fn wrote(path: Seq<char>, content: Seq<char>) -> Seq<char> {
    "wrote "@ + dec(byte_len(content)) + " bytes to "@ + path
}

/// What a finished write says.
pub fn write_message(path: &str, content: &str) -> (r: String)
    ensures
        r@ == wrote(path@, content@),
{
    let n = decimal(len_of(content) as u64);
    "wrote ".to_owned().concat(n.as_str()).concat(" bytes to ").concat(path)
}

/// What an operation on a path that failed says.
pub open spec fn cannot(verb: Seq<char>, path: Seq<char>, why: Seq<char>) -> ToolErrorView {
    ToolErrorView::Failed("cannot "@ + verb + " "@ + path + ": "@ + why)
}

/// What an operation on a path that failed says; `verb` is `read`, `write` or
/// `create`.
pub fn io_failure(verb: &str, path: &str, why: &str) -> (r: ToolError)
    ensures
        r@ == cannot(verb@, path@, why@),
{
    ToolError::Failed(
        "cannot ".to_owned().concat(verb).concat(" ").concat(path).concat(": ").concat(why),
    )
}

// ── Files ───────────────────────────────────────────────────────────────────

/// The first line (from one) a read asks for.
pub open spec fn offset_of(input: JsonView) -> int {
    match input.nat_field("offset"@) {
        Some(n) => if n < 1 {
            1
        } else {
            n
        },
        None => 1,
    }
}

/// How many lines a read asks for.
pub open spec fn limit_of(input: JsonView) -> int {
    match input.nat_field("limit"@) {
        Some(n) => n,
        None => u64::MAX as int,
    }
}

/// What reading a file's text shows.
pub open spec fn file_shown(text: Seq<char>, input: JsonView) -> Seq<char> {
    let ls = lines(text);
    let first = offset_of(input);
    let numbered = shown(
        ls,
        hashes_of(ls),
        first - 1,
        window_end(ls.len() as int, first, limit_of(input)),
    );
    if numbered.len() == 0 {
        "(empty selection: file has "@ + dec(ls.len()) + " lines)"@
    } else {
        middle_cut(numbered, MAX_READ_BYTES as int)
    }
}

/// What reading a file's text shows: the hashlines of the window asked for.
pub fn read_text(text: &str, input: &Json) -> (r: String)
    ensures
        r@ == file_shown(text@, input@),
{
    let first: u64 = match input.u64_field("offset") {
        Some(n) => if n < 1 {
            1
        } else {
            n
        },
        None => 1,
    };
    let limit: u64 = match input.u64_field("limit") {
        Some(n) => n,
        None => u64::MAX,
    };
    let ls = lines_of(text);
    let hashes = line_hashes(&ls);
    let numbered = hashlines(&ls, &hashes, first, limit);
    if numbered.as_str().is_empty() {
        let n = decimal(ls.len() as u64);
        return "(empty selection: file has ".to_owned().concat(n.as_str()).concat(" lines)");
    }
    truncate_middle(numbered, MAX_READ_BYTES)
}

/// What reading a file shows, from its bytes: malformed UTF-8 is replaced, not
/// refused.
pub fn read_bytes(bytes: &Vec<u8>, input: &Json) -> (r: String)
    ensures
        r@ == file_shown(lossy_text(bytes@), input@),
{
    let text = read_lossy(bytes);
    read_text(text.as_str(), input)
}

// ── URLs ────────────────────────────────────────────────────────────────────

/// Refuse a fetch where the sandbox, if there is one, denies the network.
pub fn check_network(allowed: Option<bool>) -> (r: Result<(), ToolError>)
    ensures
        match r {
            Ok(()) => allowed != Some(false),
            Err(e) => allowed == Some(false) && e@ == ToolErrorView::Failed(
                "sandbox: network access is disabled, so URLs cannot be fetched"@,
            ),
        },
{
    match allowed {
        Some(false) => Err(
            ToolError::Failed(
                "sandbox: network access is disabled, so URLs cannot be fetched".to_owned(),
            ),
        ),
        _ => Ok(()),
    }
}

/// Add a chunk to a body and say whether the body was clipped. Bounded while
/// streaming, not after: a response has no business filling memory just to be
/// truncated.
pub fn take_chunk(body: &mut Vec<u8>, chunk: &Vec<u8>) -> (r: bool)
    requires
        old(body)@.len() <= MAX_FETCH_BYTES,
    ensures
        r == (old(body)@.len() + chunk@.len() > MAX_FETCH_BYTES),
        final(body)@ == if r {
            (old(body)@ + chunk@).take(MAX_FETCH_BYTES as int)
        } else {
            old(body)@ + chunk@
        },
        final(body)@.len() <= MAX_FETCH_BYTES,
{
    let ghost start = body@;
    let mut i: usize = 0;
    while i < chunk.len() && body.len() < MAX_FETCH_BYTES
        invariant
            i <= chunk@.len(),
            body@ == start + chunk@.take(i as int),
            body@.len() <= MAX_FETCH_BYTES,
        decreases chunk@.len() - i,
    {
        body.push(chunk[i]);
        proof {
            lemma_step(chunk@, i as int);
            assert(body@ =~= start + chunk@.take(i + 1));
        }
        i += 1;
    }
    proof {
        if i < chunk@.len() {
            assert(body@ =~= (start + chunk@).take(MAX_FETCH_BYTES as int));
        } else {
            assert(chunk@.take(i as int) =~= chunk@);
        }
    }
    i < chunk.len()
}

/// What a response says: its body under its status, or the failure.
pub open spec fn response_shown(
    url: Seq<char>,
    code: int,
    status: Seq<char>,
    clipped: bool,
    body: Seq<char>,
) -> Result<Seq<char>, ToolErrorView> {
    if 200 <= code < 300 {
        let mark = if clipped {
            " (body clipped)"@
        } else {
            ""@
        };
        Ok(
            middle_cut(
                "GET "@ + url + " → "@ + status + mark + "\n\n"@ + body,
                MAX_READ_BYTES as int,
            ),
        )
    } else {
        Err(
            ToolErrorView::Failed(
                "GET "@ + url + " returned "@ + status + "\n"@ + middle_cut(body, 2000),
            ),
        )
    }
}

/// What a response says; `status` is its status line, `code` the number in it.
pub fn url_result(url: &str, code: u16, status: &str, clipped: bool, body: String) -> (r: Result<
    String,
    ToolError,
>)
    ensures
        tool_outcome(r) == response_shown(url@, code as int, status@, clipped, body@),
{
    if 200 <= code && code < 300 {
        let mark = if clipped {
            " (body clipped)"
        } else {
            ""
        };
        let out = "GET ".to_owned().concat(url).concat(" → ").concat(status).concat(mark).concat(
            "\n\n",
        ).concat(body.as_str());
        Ok(truncate_middle(out, MAX_READ_BYTES))
    } else {
        let cut = truncate_middle(body, 2000);
        Err(
            ToolError::Failed(
                "GET ".to_owned().concat(url).concat(" returned ").concat(status).concat(
                    "\n",
                ).concat(cut.as_str()),
            ),
        )
    }
}

/// What a response says whose body came as bytes.
pub fn fetched(url: &str, code: u16, status: &str, clipped: bool, body: &Vec<u8>) -> (r: Result<
    String,
    ToolError,
>)
    ensures
        tool_outcome(r) == response_shown(url@, code as int, status@, clipped, lossy_text(body@)),
{
    url_result(url, code, status, clipped, read_lossy(body))
}

// ── Directories ─────────────────────────────────────────────────────────────

/// What stands in a directory, as a value.
pub struct DirEntryView {
    pub is_dir: bool,
    pub name: Seq<char>,
    pub size: int,
}

/// What stands in a directory.
#[derive(Debug)]
pub struct DirEntry {
    pub is_dir: bool,
    pub name: String,
    pub size: u64,
}

impl View for DirEntry {
    type V = DirEntryView;

    open spec fn view(&self) -> DirEntryView {
        DirEntryView { is_dir: self.is_dir, name: self.name@, size: self.size as int }
    }
}

/// Directories first, then by name, then by size.
pub open spec fn listed_before(a: DirEntryView, b: DirEntryView) -> bool {
    if a.is_dir != b.is_dir {
        a.is_dir
    } else if a.name != b.name {
        lex_le(a.name, b.name)
    } else {
        a.size <= b.size
    }
}

/// Where an entry goes among entries in order.
pub open spec fn entry_place(es: Seq<DirEntryView>, e: DirEntryView) -> int
    decreases es.len(),
{
    if es.len() == 0 || listed_before(es.last(), e) {
        es.len() as int
    } else {
        entry_place(es.drop_last(), e)
    }
}

/// Entries in order.
pub open spec fn listing_order(es: Seq<DirEntryView>) -> Seq<DirEntryView>
    decreases es.len(),
{
    if es.len() == 0 {
        Seq::empty()
    } else {
        let before = listing_order(es.drop_last());
        before.insert(entry_place(before, es.last()), es.last())
    }
}

/// An entry's line in a listing.
pub open spec fn entry_line(e: DirEntryView) -> Seq<char> {
    if e.is_dir {
        "  "@ + e.name + "/\n"@
    } else {
        "  "@ + e.name + "  "@ + dec(e.size as nat) + " bytes\n"@
    }
}

/// The lines of entries.
pub open spec fn entry_lines(es: Seq<DirEntryView>) -> Seq<char>
    decreases es.len(),
{
    if es.len() == 0 {
        Seq::empty()
    } else {
        entry_lines(es.drop_last()) + entry_line(es.last())
    }
}

/// What reading a directory shows.
pub open spec fn dir_shown(path: Seq<char>, es: Seq<DirEntryView>) -> Seq<char> {
    if es.len() == 0 {
        "(empty directory "@ + path + ")"@
    } else {
        middle_cut(
            "directory "@ + path + " ("@ + dec(es.len()) + " entries):\n"@ + entry_lines(
                listing_order(es),
            ),
            MAX_READ_BYTES as int,
        )
    }
}

fn entry_goes_before(a: &DirEntry, b: &DirEntry) -> (r: bool)
    ensures
        r == listed_before(a@, b@),
{
    if a.is_dir != b.is_dir {
        a.is_dir
    } else if !same(a.name.as_str(), b.name.as_str()) {
        at_most(a.name.as_str(), b.name.as_str())
    } else {
        a.size <= b.size
    }
}

fn sort_entries(es: Vec<DirEntry>) -> (r: Vec<DirEntry>)
    ensures
        views(r@) == listing_order(views(es@)),
        r@.len() == es@.len(),
{
    let ghost all = views(es@);
    let mut rest = es;
    let mut out: Vec<DirEntry> = Vec::new();
    let mut i: usize = 0;
    let n: usize = rest.len();
    proof {
        assert(views(out@) =~= listing_order(all.take(0)));
        assert(all.skip(0) =~= all);
    }
    while i < n
        invariant
            n == all.len(),
            i <= n,
            views(rest@) == all.skip(i as int),
            views(out@) == listing_order(all.take(i as int)),
            out@.len() == i,
        decreases n - i,
    {
        proof {
            assert(rest@.len() == views(rest@).len());
        }
        let ghost held = rest@;
        let ghost rv = views(rest@);
        let ghost bv = views(out@);
        let e = rest.remove(0);
        let ghost ev = e@;
        proof {
            assert(ev == rv[0]);
            assert(ev == all[i as int]);
            assert forall|k: int| 0 <= k < rest@.len() implies #[trigger] views(rest@)[k] == all.skip(
                i + 1,
            )[k] by {
                assert(rest@[k] == held[k + 1]);
                assert(rv[k + 1] == all.skip(i as int)[k + 1]);
            }
            assert(views(rest@) =~= all.skip(i + 1));
            lemma_step(all, i as int);
        }
        let mut at: usize = out.len();
        proof {
            assert(bv.take(at as int) =~= bv);
        }
        while at > 0 && !entry_goes_before(&out[at - 1], &e)
            invariant
                bv == views(out@),
                ev == e@,
                at <= out@.len(),
                entry_place(bv, ev) == entry_place(bv.take(at as int), ev),
            decreases at,
        {
            at -= 1;
            proof {
                lemma_step(bv, at as int);
                assert(bv[at as int] == out@[at as int]@);
            }
        }
        proof {
            if at > 0 {
                lemma_step(bv, at - 1);
                assert(bv[at - 1] == out@[at - 1]@);
            }
        }
        out.insert(at, e);
        proof {
            assert(views(out@) =~= bv.insert(at as int, ev));
        }
        i += 1;
    }
    proof {
        assert(all.take(i as int) =~= all);
    }
    out
}

/// A directory as a sorted listing: directories first, sizes for files.
pub fn list_dir(path: &str, entries: Vec<DirEntry>) -> (r: String)
    ensures
        r@ == dir_shown(path@, views(entries@)),
{
    if entries.len() == 0 {
        return "(empty directory ".to_owned().concat(path).concat(")");
    }
    let n = decimal(entries.len() as u64);
    let sorted = sort_entries(entries);
    let ghost all = views(sorted@);
    let mut out = "directory ".to_owned().concat(path).concat(" (").concat(n.as_str()).concat(
        " entries):\n",
    );
    let ghost head = out@;
    let mut i: usize = 0;
    proof {
        assert(head + entry_lines(all.take(0)) =~= head);
    }
    while i < sorted.len()
        invariant
            all == views(sorted@),
            i <= sorted@.len(),
            out@ == head + entry_lines(all.take(i as int)),
        decreases sorted@.len() - i,
    {
        let e = &sorted[i];
        let ghost before = out@;
        proof {
            lemma_step(all, i as int);
            assert(all[i as int] == e@);
        }
        let line = if e.is_dir {
            "  ".to_owned().concat(e.name.as_str()).concat("/\n")
        } else {
            let size = decimal(e.size);
            "  ".to_owned().concat(e.name.as_str()).concat("  ").concat(size.as_str()).concat(
                " bytes\n",
            )
        };
        out.append(line.as_str());
        proof {
            assert(out@ =~= head + entry_lines(all.take(i + 1)));
        }
        i += 1;
    }
    proof {
        assert(all.take(i as int) =~= all);
    }
    truncate_middle(out, MAX_READ_BYTES)
}

/// Whether entries stand in order.
pub open spec fn is_listing(es: Seq<DirEntryView>) -> bool {
    forall|i: int, j: int| 0 <= i <= j < es.len() ==> listed_before(#[trigger] es[i], #[trigger] es[j])
}

proof fn lemma_listed_total(a: DirEntryView, b: DirEntryView)
    ensures
        listed_before(a, b) || listed_before(b, a),
        listed_before(a, a),
{
    crate::text::lemma_lex_total(a.name, b.name, 0);
}

proof fn lemma_listed_transitive(a: DirEntryView, b: DirEntryView, c: DirEntryView)
    requires
        listed_before(a, b),
        listed_before(b, c),
    ensures
        listed_before(a, c),
{
    if a.is_dir == b.is_dir && b.is_dir == c.is_dir && a.name != b.name && b.name != c.name {
        crate::text::lemma_lex_transitive(a.name, b.name, c.name, 0);
        if a.name == c.name {
            assert(a.name.take(0) =~= b.name.take(0));
            crate::text::lemma_lex_antisymmetric(a.name, b.name, 0);
        }
    }
}

proof fn lemma_entry_place(es: Seq<DirEntryView>, e: DirEntryView)
    requires
        is_listing(es),
    ensures
        0 <= entry_place(es, e) <= es.len(),
        forall|i: int| 0 <= i < entry_place(es, e) ==> listed_before(#[trigger] es[i], e),
        forall|i: int| entry_place(es, e) <= i < es.len() ==> listed_before(e, #[trigger] es[i]),
    decreases es.len(),
{
    if es.len() > 0 {
        let rest = es.drop_last();
        if listed_before(es.last(), e) {
            assert forall|i: int| 0 <= i < es.len() implies listed_before(#[trigger] es[i], e) by {
                assert(listed_before(es[i], es[es.len() - 1]));
                lemma_listed_transitive(es[i], es.last(), e);
            }
        } else {
            assert(is_listing(rest)) by {
                assert forall|i: int, j: int| 0 <= i <= j < rest.len() implies listed_before(
                    #[trigger] rest[i],
                    #[trigger] rest[j],
                ) by {
                    assert(listed_before(es[i], es[j]));
                }
            }
            lemma_entry_place(rest, e);
            lemma_listed_total(es.last(), e);
            assert forall|i: int| 0 <= i < entry_place(es, e) implies listed_before(
                #[trigger] es[i],
                e,
            ) by {
                assert(rest[i] == es[i]);
            }
            assert forall|i: int| entry_place(es, e) <= i < es.len() implies listed_before(
                e,
                #[trigger] es[i],
            ) by {
                if i < rest.len() {
                    assert(rest[i] == es[i]);
                }
            }
        }
    }
}

/// A directory reads as a sorted listing: whatever order the entries came in,
/// directories come first, then the names in order, and every entry is there
/// exactly as often as it was given.
pub proof fn law_listing_is_sorted(es: Seq<DirEntryView>)
    ensures
        is_listing(listing_order(es)),
        listing_order(es).to_multiset() == es.to_multiset(),
    decreases es.len(),
{
    broadcast use vstd::seq_lib::group_to_multiset_ensures;

    if es.len() == 0 {
        assert(es =~= Seq::empty());
    } else {
        let rest = es.drop_last();
        let e = es.last();
        law_listing_is_sorted(rest);
        let before = listing_order(rest);
        lemma_entry_place(before, e);
        let at = entry_place(before, e);
        let now = before.insert(at, e);
        assert forall|i: int, j: int| 0 <= i <= j < now.len() implies listed_before(
            #[trigger] now[i],
            #[trigger] now[j],
        ) by {
            lemma_listed_total(e, e);
            if i != at && j != at {
                let a = if i < at {
                    i
                } else {
                    i - 1
                };
                let b = if j < at {
                    j
                } else {
                    j - 1
                };
                assert(now[i] == before[a]);
                assert(now[j] == before[b]);
            } else if i == at && j != at {
                assert(now[j] == before[j - 1]);
            } else if j == at && i != at {
                assert(now[i] == before[i]);
            }
        }
        assert(now.remove(at) =~= before);
        assert(now[at] == e);
        assert(now.to_multiset().count(e) > 0);
        assert(now.to_multiset() =~= before.to_multiset().insert(e));
        assert(rest.push(e) =~= es);
        vstd::seq_lib::to_multiset_build(rest, e);
    }
}

} // verus!
