//! File read, write, and edit.
//!
//! Reads are **hashline**: every line carries a `line#hash` anchor (the first
//! four hex chars of the line's SHA-256), and an edit accepts a patch of hunks
//! addressed by those anchors. An anchor is a claim about content, not just a
//! position — so an edit against a file that drifted is *detected*, and when
//! the anchored line still exists uniquely elsewhere it is *recovered* rather
//! than misapplied. The exact-string mode stays for one-off replacements.
use vstd::prelude::*;
use vstd::string::*;
use vstd::utf8::encode_utf8;

use super::{required, required_str, tool_outcome, Tool, ToolError, ToolErrorView};
use super::catalog::{self, edit_file_offer, read_file_offer, write_file_offer};
use crate::hash::{hex, push_hex, sha256, sha256_of};
use crate::json::{items_view, Json, JsonView};
use crate::llm::{ToolSpec, ToolSpecView};
use crate::path::joined;
use crate::text::{
    bytes_of, chars_of, dec, decimal, decimal_wide, find, find_from, find_text, find_text_from,
    join, join_with, lemma_step, lines, lines_of, matches_at, number_of, parse_number, same, slice,
    split, split_on, stands_at, views,
};

verus! {

/// Reads files, directories, archives, databases and URLs.
#[derive(Debug, Clone, Copy)]
pub struct ReadFile;

impl Tool for ReadFile {
    open spec fn offer(&self) -> ToolSpecView {
        read_file_offer()
    }

    open spec fn overlaps(&self, input: JsonView) -> bool {
        true
    }

    open spec fn replays(&self) -> bool {
        true
    }

    fn name(&self) -> (r: &'static str) {
        "read_file"
    }

    fn spec(&self) -> (r: ToolSpec) {
        catalog::read_file()
    }

    fn parallel_safe(&self, _input: &Json) -> (r: bool) {
        true
    }

    fn replay_safe(&self) -> (r: bool) {
        true
    }
}

/// Writes whole files.
#[derive(Debug, Clone, Copy)]
pub struct WriteFile;

impl Tool for WriteFile {
    open spec fn offer(&self) -> ToolSpecView {
        write_file_offer()
    }

    open spec fn overlaps(&self, input: JsonView) -> bool {
        false
    }

    open spec fn replays(&self) -> bool {
        false
    }

    fn name(&self) -> (r: &'static str) {
        "write_file"
    }

    fn spec(&self) -> (r: ToolSpec) {
        catalog::write_file()
    }

    fn parallel_safe(&self, _input: &Json) -> (r: bool) {
        false
    }

    fn replay_safe(&self) -> (r: bool) {
        false
    }
}

/// Edits files in place.
#[derive(Debug, Clone, Copy)]
pub struct EditFile;

impl Tool for EditFile {
    open spec fn offer(&self) -> ToolSpecView {
        edit_file_offer()
    }

    open spec fn overlaps(&self, input: JsonView) -> bool {
        false
    }

    open spec fn replays(&self) -> bool {
        false
    }

    fn name(&self) -> (r: &'static str) {
        "edit_file"
    }

    fn spec(&self) -> (r: ToolSpec) {
        catalog::edit_file()
    }

    fn parallel_safe(&self, _input: &Json) -> (r: bool) {
        false
    }

    fn replay_safe(&self) -> (r: bool) {
        false
    }
}

/// How much of a file or a response is shown: 256 KiB.
pub const MAX_READ_BYTES: usize = 262_144;

/// How much of a URL body is kept: 2 MiB.
pub const MAX_FETCH_BYTES: usize = 2_097_152;

// ── Anchors ─────────────────────────────────────────────────────────────────

/// The anchor hash in a digest: its first two bytes, in hex.
pub open spec fn hash_in(digest: Seq<u8>) -> Seq<char> {
    hex(digest[0]) + hex(digest[1])
}

/// A line's anchor hash.
pub open spec fn hash_of(line: Seq<char>) -> Seq<char> {
    hash_in(sha256_of(encode_utf8(line)))
}

/// The anchor hash in a digest: its first two bytes, in hex.
pub fn digest_hash(digest: &Vec<u8>) -> (r: String)
    requires
        digest@.len() >= 2,
    ensures
        r@ == hash_in(digest@),
{
    let mut out = String::new();
    push_hex(&mut out, digest[0]);
    push_hex(&mut out, digest[1]);
    proof {
        assert(out@ =~= hash_in(digest@));
    }
    out
}

/// A line's anchor hash: the first two bytes of its SHA-256, in hex. Anchors
/// pair it with a line number, and recovery trusts it only when it matches
/// exactly one line — a four-hex-char collision inside one file therefore
/// degrades to an explicit error, never a wrong edit.
pub fn line_hash(line: &str) -> (r: String)
    ensures
        r@ == hash_of(line@),
{
    let bytes = bytes_of(line);
    let digest = sha256(bytes.as_slice());
    digest_hash(&digest)
}

/// The anchor hashes of lines.
pub open spec fn hashes_of(ls: Seq<Seq<char>>) -> Seq<Seq<char>> {
    ls.map_values(|l: Seq<char>| hash_of(l))
}

/// The anchor hashes of lines.
pub fn line_hashes(ls: &Vec<String>) -> (r: Vec<String>)
    ensures
        views(r@) == hashes_of(views(ls@)),
        r@.len() == ls@.len(),
{
    let mut out: Vec<String> = Vec::new();
    let ghost want = hashes_of(views(ls@));
    let mut i: usize = 0;
    while i < ls.len()
        invariant
            want == hashes_of(views(ls@)),
            i <= ls@.len(),
            out@.len() == i,
            views(out@) == want.take(i as int),
        decreases ls@.len() - i,
    {
        let ghost before = out@;
        let h = line_hash(ls[i].as_str());
        let ghost hv = h@;
        out.push(h);
        proof {
            lemma_step(want, i as int);
            assert(views(ls@)[i as int] == ls@[i as int]@);
            assert(views(out@) =~= views(before).push(hv));
        }
        i += 1;
    }
    proof {
        assert(want.take(i as int) =~= want);
    }
    out
}

/// One line as it is shown: its number, its hash, its content.
pub open spec fn hashline(n: int, hash: Seq<char>, line: Seq<char>) -> Seq<char> {
    dec(n as nat) + "#"@ + hash + "\t"@ + line + "\n"@
}

/// The lines `from..to` (from zero) as they are shown.
pub open spec fn shown(
    ls: Seq<Seq<char>>,
    hashes: Seq<Seq<char>>,
    from: int,
    to: int,
) -> Seq<char>
    decreases to - from,
{
    if to <= from {
        Seq::empty()
    } else {
        shown(ls, hashes, from, to - 1) + hashline(to, hashes[to - 1], ls[to - 1])
    }
}

/// Where a window of `limit` lines from line `first` (from one) ends.
pub open spec fn window_end(len: int, first: int, limit: int) -> int {
    if first - 1 >= len {
        first - 1
    } else if limit >= len - (first - 1) {
        len
    } else {
        first - 1 + limit
    }
}

/// Render a window of lines as hashline output, numbered from one.
pub fn hashlines(ls: &Vec<String>, hashes: &Vec<String>, first: u64, limit: u64) -> (r: String)
    requires
        1 <= first,
        hashes@.len() == ls@.len(),
    ensures
        r@ == shown(
            views(ls@),
            views(hashes@),
            first - 1,
            window_end(ls@.len() as int, first as int, limit as int),
        ),
{
    let mut out = String::new();
    if first - 1 >= ls.len() as u64 {
        proof {
            assert(out@ =~= shown(
                views(ls@),
                views(hashes@),
                first - 1,
                window_end(ls@.len() as int, first as int, limit as int),
            ));
        }
        return out;
    }
    let from: usize = (first - 1) as usize;
    let to: usize = if limit >= (ls.len() - from) as u64 {
        ls.len()
    } else {
        from + limit as usize
    };
    let ghost lv = views(ls@);
    let ghost hv = views(hashes@);
    let mut i: usize = from;
    while i < to
        invariant
            lv == views(ls@),
            hv == views(hashes@),
            hashes@.len() == ls@.len(),
            from <= i <= to <= ls@.len(),
            out@ == shown(lv, hv, from as int, i as int),
        decreases to - i,
    {
        let n = decimal((i + 1) as u64);
        let ghost before = out@;
        out.append(n.as_str());
        out.append("#");
        out.append(hashes[i].as_str());
        out.append("\t");
        out.append(ls[i].as_str());
        out.append("\n");
        proof {
            assert(lv[i as int] == ls@[i as int]@);
            assert(hv[i as int] == hashes@[i as int]@);
            assert(out@ =~= before + hashline(i + 1, hv[i as int], lv[i as int]));
        }
        i += 1;
    }
    out
}

/// A hexadecimal digit in either case.
pub open spec fn is_hexdigit(c: char) -> bool {
    '0' <= c <= '9' || 'a' <= c <= 'f' || 'A' <= c <= 'F'
}

/// An ASCII letter in lower case.
pub open spec fn lower(c: char) -> char {
    if 'A' <= c <= 'Z' {
        ((c as u8) + 32) as char
    } else {
        c
    }
}

/// An anchor: the line's number (from one) and its hash. Line 0 is the virtual
/// top of the file.
pub struct AnchorView {
    pub line: int,
    pub hash: Seq<char>,
}

/// A parsed anchor.
#[derive(Debug)]
pub struct Anchor {
    pub line: u64,
    pub hash: String,
}

impl View for Anchor {
    type V = AnchorView;

    open spec fn view(&self) -> AnchorView {
        AnchorView { line: self.line as int, hash: self.hash@ }
    }
}

/// The anchor that a token names.
pub open spec fn anchor_of(raw: Seq<char>) -> Option<AnchorView> {
    if raw == "0"@ {
        Some(AnchorView { line: 0, hash: Seq::empty() })
    } else {
        let k = find_from(raw, '#', 0);
        if k >= raw.len() {
            None
        } else {
            let hash = raw.skip(k + 1);
            match number_of(raw.take(k)) {
                Some(n) => if n != 0 && hash.len() == 4 && forall|i: int|
                    0 <= i < hash.len() ==> is_hexdigit(#[trigger] hash[i]) {
                    Some(AnchorView { line: n, hash: hash.map_values(|c: char| lower(c)) })
                } else {
                    None
                },
                None => None,
            }
        }
    }
}

/// What a token that is no anchor is told.
pub open spec fn bad_anchor(raw: Seq<char>) -> ToolErrorView {
    ToolErrorView::InvalidInput(
        "bad anchor `"@ + raw
            + "` — use the `line#hash` token from read_file (or \"0\" with insert_after for the top of the file)"@,
    )
}

/// The anchor that a token names, or what is wrong with it.
pub open spec fn anchor_verdict(raw: Seq<char>) -> Result<AnchorView, ToolErrorView> {
    match anchor_of(raw) {
        Some(a) => Ok(a),
        None => Err(bad_anchor(raw)),
    }
}

fn parse_hash(cs: &Vec<char>, from: usize) -> (r: Option<String>)
    requires
        from <= cs@.len(),
    ensures
        ({
            let hash = cs@.skip(from as int);
            let good = hash.len() == 4 && forall|i: int|
                0 <= i < hash.len() ==> is_hexdigit(#[trigger] hash[i]);
            match r {
                Some(h) => good && h@ == hash.map_values(|c: char| lower(c)),
                None => !good,
            }
        }),
{
    let ghost hash = cs@.skip(from as int);
    if cs.len() - from != 4 {
        return None;
    }
    let ghost want = hash.map_values(|c: char| lower(c));
    let mut out = String::new();
    let mut i: usize = from;
    while i < cs.len()
        invariant
            hash == cs@.skip(from as int),
            want == hash.map_values(|c: char| lower(c)),
            from <= i <= cs@.len(),
            out@ == want.take(i - from),
            forall|j: int| 0 <= j < i - from ==> is_hexdigit(#[trigger] hash[j]),
        decreases cs@.len() - i,
    {
        let c = cs[i];
        proof {
            assert(hash[i - from] == c);
            lemma_step(want, i - from);
        }
        if !(('0' <= c && c <= '9') || ('a' <= c && c <= 'f') || ('A' <= c && c <= 'F')) {
            return None;
        }
        let l = if 'A' <= c && c <= 'Z' {
            ((c as u8) + 32) as char
        } else {
            c
        };
        out.push(l);
        i += 1;
    }
    proof {
        assert(want.take(want.len() as int) =~= want);
    }
    Some(out)
}

/// Parse an anchor. Line 0 is the virtual top-of-file anchor, valid only for
/// `insert_after`.
pub fn parse_anchor(raw: &str) -> (r: Result<Anchor, ToolError>)
    ensures
        tool_outcome(r) == anchor_verdict(raw@),
{
    if same(raw, "0") {
        return Ok(Anchor { line: 0, hash: String::new() });
    }
    let cs = chars_of(raw);
    let k: usize = find(&cs, '#', 0);
    if k < cs.len() {
        let number = slice(&cs, 0, k);
        proof {
            assert(number@ =~= raw@.take(k as int));
        }
        match (parse_number(number.as_str()), parse_hash(&cs, k + 1)) {
            (Some(line), Some(hash)) => {
                if line != 0 {
                    return Ok(Anchor { line, hash });
                }
            },
            _ => {},
        }
    }
    Err(
        ToolError::InvalidInput(
            "bad anchor `".to_owned().concat(raw).concat(
                "` — use the `line#hash` token from read_file (or \"0\" with insert_after for the top of the file)",
            ),
        ),
    )
}

/// The places (from zero) where a hash stands.
pub open spec fn places(hashes: Seq<Seq<char>>, hash: Seq<char>) -> Seq<int>
    decreases hashes.len(),
{
    if hashes.len() == 0 {
        Seq::empty()
    } else {
        let before = places(hashes.drop_last(), hash);
        if hashes.last() == hash {
            before.push(hashes.len() - 1)
        } else {
            before
        }
    }
}

/// What `places` says: exactly the places where the hash stands, in order.
pub proof fn lemma_places(hashes: Seq<Seq<char>>, hash: Seq<char>)
    ensures
        forall|k: int|
            0 <= k < places(hashes, hash).len() ==> 0 <= #[trigger] places(hashes, hash)[k]
                < hashes.len() && hashes[places(hashes, hash)[k]] == hash,
        forall|i: int|
            0 <= i < hashes.len() && #[trigger] hashes[i] == hash ==> places(
                hashes,
                hash,
            ).contains(i),
    decreases hashes.len(),
{
    if hashes.len() > 0 {
        let rest = hashes.drop_last();
        lemma_places(rest, hash);
        let before = places(rest, hash);
        let now = places(hashes, hash);
        assert forall|k: int| 0 <= k < now.len() implies 0 <= #[trigger] now[k] < hashes.len()
            && hashes[now[k]] == hash by {
            if k < before.len() {
                assert(now[k] == before[k]);
                assert(rest[before[k]] == hashes[before[k]]);
            }
        }
        assert forall|i: int| 0 <= i < hashes.len() && #[trigger] hashes[i] == hash implies now.contains(
        i) by {
            if i < rest.len() {
                assert(rest[i] == hash);
                let k = choose|k: int| 0 <= k < before.len() && before[k] == i;
                assert(now[k] == i);
            } else {
                assert(now[now.len() - 1] == i);
            }
        }
    }
}

/// The first line of the context shown around a stale anchor.
pub open spec fn context_first(line: int, len: int) -> int {
    let last = if len < 1 {
        1
    } else {
        len
    };
    let center = if line < 1 {
        1
    } else if line > last {
        last
    } else {
        line
    };
    if center - 3 < 1 {
        1
    } else {
        center - 3
    }
}

/// What a stale anchor is told.
pub open spec fn stale_anchor(
    ls: Seq<Seq<char>>,
    hashes: Seq<Seq<char>>,
    a: AnchorView,
) -> ToolErrorView {
    let why = if places(hashes, a.hash).len() == 0 {
        "that line's content is no longer in the file"@
    } else {
        "that content now appears on several lines"@
    };
    let first = context_first(a.line, ls.len() as int);
    ToolErrorView::Failed(
        "stale anchor "@ + dec(a.line as nat) + "#"@ + a.hash + ": "@ + why
            + " — re-anchor from the current content:\n"@ + shown(
            ls,
            hashes,
            first - 1,
            window_end(ls.len() as int, first, 7),
        ),
    )
}

/// The line (from zero) an anchor leads to, and whether it moved. The hash
/// decides, the line number only locates.
pub open spec fn resolution(
    ls: Seq<Seq<char>>,
    hashes: Seq<Seq<char>>,
    a: AnchorView,
) -> Result<(int, bool), ToolErrorView> {
    if 1 <= a.line <= hashes.len() && hashes[a.line - 1] == a.hash {
        Ok((a.line - 1, false))
    } else if places(hashes, a.hash).len() == 1 {
        Ok((places(hashes, a.hash)[0], true))
    } else {
        Err(stale_anchor(ls, hashes, a))
    }
}

/// Resolve an anchor to a line (from zero): a line that *moved* (hash found on
/// exactly one other line) is followed there; a line that *changed* (hash on
/// zero or several lines) fails with fresh context to re-anchor from, never a
/// misapplied edit.
pub fn resolve_anchor(ls: &Vec<String>, hashes: &Vec<String>, a: &Anchor) -> (r: Result<
    (usize, bool),
    ToolError,
>)
    requires
        hashes@.len() == ls@.len(),
    ensures
        match r {
            Ok(v) => resolution(views(ls@), views(hashes@), a@) == Ok::<
                (int, bool),
                ToolErrorView,
            >((v.0 as int, v.1)) && v.0 < ls@.len(),
            Err(e) => resolution(views(ls@), views(hashes@), a@) == Err::<
                (int, bool),
                ToolErrorView,
            >(e@),
        },
{
    let ghost hv = views(hashes@);
    if a.line >= 1 && a.line <= hashes.len() as u64 {
        let i: usize = (a.line - 1) as usize;
        proof {
            assert(hv[i as int] == hashes@[i as int]@);
        }
        if same(hashes[i].as_str(), a.hash.as_str()) {
            return Ok((i, false));
        }
    }
    let mut found: Vec<usize> = Vec::new();
    let mut i: usize = 0;
    proof {
        assert(found@.map_values(|k: usize| k as int) =~= places(hv.take(0), a.hash@));
    }
    while i < hashes.len()
        invariant
            hv == views(hashes@),
            i <= hashes@.len(),
            found@.map_values(|k: usize| k as int) == places(hv.take(i as int), a.hash@),
        decreases hashes@.len() - i,
    {
        proof {
            lemma_step(hv, i as int);
            assert(hv[i as int] == hashes@[i as int]@);
        }
        if same(hashes[i].as_str(), a.hash.as_str()) {
            let ghost before = found@;
            found.push(i);
            proof {
                assert(found@.map_values(|k: usize| k as int) =~= before.map_values(
                    |k: usize| k as int,
                ).push(i as int));
            }
        }
        i += 1;
    }
    proof {
        assert(hv.take(i as int) =~= hv);
        lemma_places(hv, a.hash@);
        assert(found@.map_values(|k: usize| k as int).len() == found@.len());
        if found@.len() > 0 {
            assert(found@.map_values(|k: usize| k as int)[0] == found@[0] as int);
        }
    }
    if found.len() == 1 {
        return Ok((found[0], true));
    }
    let last: u64 = if ls.len() < 1 {
        1
    } else {
        ls.len() as u64
    };
    let center: u64 = if a.line < 1 {
        1
    } else if a.line > last {
        last
    } else {
        a.line
    };
    let first: u64 = if center < 4 {
        1
    } else {
        center - 3
    };
    let context = hashlines(ls, hashes, first, 7);
    let n = decimal(a.line);
    let why = if found.len() == 0 {
        "that line's content is no longer in the file"
    } else {
        "that content now appears on several lines"
    };
    Err(
        ToolError::Failed(
            "stale anchor ".to_owned().concat(n.as_str()).concat("#").concat(
                a.hash.as_str(),
            ).concat(": ").concat(why).concat(
                " — re-anchor from the current content:\n",
            ).concat(context.as_str()),
        ),
    )
}

// ── Hunks ───────────────────────────────────────────────────────────────────

/// One resolved hunk as a splice: replace `start..end` with `content`.
#[derive(Debug)]
pub struct Splice {
    pub start: usize,
    pub end: usize,
    pub content: Vec<String>,
}

/// A splice, as a value.
pub struct SpliceView {
    pub start: int,
    pub end: int,
    pub content: Seq<Seq<char>>,
}

impl View for Splice {
    type V = SpliceView;

    open spec fn view(&self) -> SpliceView {
        SpliceView {
            start: self.start as int,
            end: self.end as int,
            content: views(self.content@),
        }
    }
}

/// A message about a malformed hunk.
pub open spec fn invalid(message: Seq<char>) -> ToolErrorView {
    ToolErrorView::InvalidInput(message)
}

/// What a hunk does; `replace` where it does not say.
pub open spec fn hunk_op(hunk: JsonView) -> Seq<char> {
    match hunk.str_field("op"@) {
        Some(op) => op,
        None => "replace"@,
    }
}

/// The lines a hunk carries.
pub open spec fn hunk_content(hunk: JsonView) -> Option<Seq<Seq<char>>> {
    match hunk.str_field("content"@) {
        Some(text) => Some(split(text, '\n')),
        None => None,
    }
}

/// One for an anchor that moved, else zero.
pub open spec fn moved(m: bool) -> int {
    if m {
        1
    } else {
        0
    }
}

/// The splice of an insertion behind an anchor.
pub open spec fn insertion(
    ls: Seq<Seq<char>>,
    hashes: Seq<Seq<char>>,
    hunk: JsonView,
    a: AnchorView,
) -> Result<(SpliceView, int), ToolErrorView> {
    if hunk.str_field("to"@) is Some {
        Err(invalid("insert_after takes no `to` — it inserts at one point"@))
    } else {
        match hunk_content(hunk) {
            None => Err(invalid("insert_after needs `content`"@)),
            Some(content) => if a.line == 0 {
                Ok((SpliceView { start: 0, end: 0, content }, 0))
            } else {
                match resolution(ls, hashes, a) {
                    Err(e) => Err(e),
                    Ok((k, m)) => Ok(
                        (SpliceView { start: k + 1, end: k + 1, content }, moved(m)),
                    ),
                }
            },
        }
    }
}

/// The lines that a replacement or a deletion puts in.
pub open spec fn replacement(op: Seq<char>, content: Option<Seq<Seq<char>>>) -> Result<
    Seq<Seq<char>>,
    ToolErrorView,
> {
    if op == "replace"@ {
        match content {
            Some(c) => Ok(c),
            None => Err(invalid("replace needs `content`"@)),
        }
    } else {
        match content {
            None => Ok(Seq::empty()),
            Some(_) => Err(invalid("delete takes no `content` — use replace to substitute"@)),
        }
    }
}

/// The splice of a span from one line to the one its `to` anchor names.
pub open spec fn span(
    ls: Seq<Seq<char>>,
    hashes: Seq<Seq<char>>,
    start: int,
    count: int,
    to: Option<Seq<char>>,
    content: Seq<Seq<char>>,
) -> Result<(SpliceView, int), ToolErrorView> {
    match to {
        None => Ok((SpliceView { start, end: start + 1, content }, count)),
        Some(raw) => match anchor_verdict(raw) {
            Err(e) => Err(e),
            Ok(b) => if b.line == 0 {
                Err(invalid("`to` must be a real line anchor"@))
            } else {
                match resolution(ls, hashes, b) {
                    Err(e) => Err(e),
                    Ok((end, m)) => if end < start {
                        Err(
                            invalid(
                                "`to` anchor resolves above `anchor` ("@ + dec((end + 1) as nat)
                                    + " < "@ + dec((start + 1) as nat) + ")"@,
                            ),
                        )
                    } else {
                        Ok((SpliceView { start, end: end + 1, content }, count + moved(m)))
                    },
                }
            },
        },
    }
}

/// The splice of a replacement or a deletion.
pub open spec fn substitution(
    ls: Seq<Seq<char>>,
    hashes: Seq<Seq<char>>,
    hunk: JsonView,
    op: Seq<char>,
    a: AnchorView,
) -> Result<(SpliceView, int), ToolErrorView> {
    if a.line == 0 {
        Err(invalid("anchor \"0\" is only for insert_after"@))
    } else {
        match replacement(op, hunk_content(hunk)) {
            Err(e) => Err(e),
            Ok(content) => match resolution(ls, hashes, a) {
                Err(e) => Err(e),
                Ok((start, m)) => span(
                    ls,
                    hashes,
                    start,
                    moved(m),
                    hunk.str_field("to"@),
                    content,
                ),
            },
        }
    }
}

/// The splice a hunk stands for and how many of its anchors moved.
pub open spec fn hunk_splice(ls: Seq<Seq<char>>, hashes: Seq<Seq<char>>, hunk: JsonView) -> Result<
    (SpliceView, int),
    ToolErrorView,
> {
    let op = hunk_op(hunk);
    match hunk.str_field("anchor"@) {
        None => Err(invalid("each hunk needs an `anchor`"@)),
        Some(raw) => match anchor_verdict(raw) {
            Err(e) => Err(e),
            Ok(a) => if op == "insert_after"@ {
                insertion(ls, hashes, hunk, a)
            } else if op == "replace"@ || op == "delete"@ {
                substitution(ls, hashes, hunk, op, a)
            } else {
                Err(
                    invalid(
                        "unknown op `"@ + op + "` (expected replace, insert_after, or delete)"@,
                    ),
                )
            },
        },
    }
}

/// The splices of hunks, in their order, and how many anchors moved; the
/// first hunk that is wrong decides the error.
pub open spec fn hunk_splices(
    ls: Seq<Seq<char>>,
    hashes: Seq<Seq<char>>,
    hunks: Seq<JsonView>,
) -> Result<(Seq<SpliceView>, int), ToolErrorView>
    decreases hunks.len(),
{
    if hunks.len() == 0 {
        Ok((Seq::empty(), 0))
    } else {
        match hunk_splices(ls, hashes, hunks.drop_last()) {
            Err(e) => Err(e),
            Ok((before, n)) => match hunk_splice(ls, hashes, hunks.last()) {
                Err(e) => Err(e),
                Ok((s, m)) => Ok((before.push(s), n + m)),
            },
        }
    }
}

/// Whether `a` comes after `b`: by start, then by end.
pub open spec fn after(a: SpliceView, b: SpliceView) -> bool {
    a.start > b.start || (a.start == b.start && a.end > b.end)
}

/// Where a splice goes among splices in order.
pub open spec fn splice_place(ss: Seq<SpliceView>, s: SpliceView) -> int
    decreases ss.len(),
{
    if ss.len() == 0 || !after(ss.last(), s) {
        ss.len() as int
    } else {
        splice_place(ss.drop_last(), s)
    }
}

/// Splices by start and end; those that share both stay in order.
pub open spec fn in_order(ss: Seq<SpliceView>) -> Seq<SpliceView>
    decreases ss.len(),
{
    if ss.len() == 0 {
        Seq::empty()
    } else {
        let before = in_order(ss.drop_last());
        before.insert(splice_place(before, ss.last()), ss.last())
    }
}

/// Whether no splice touches the next: not even two insertions at one point,
/// whose order the input cannot express.
pub open spec fn apart(ss: Seq<SpliceView>) -> bool {
    forall|i: int, j: int|
        0 <= i && j == i + 1 && j < ss.len() ==> (#[trigger] ss[i]).end <= (
        #[trigger] ss[j]).start && ss[i].start != ss[j].start
}

/// The splices of a patch, in order, and how many anchors moved.
pub open spec fn patch_splices(
    ls: Seq<Seq<char>>,
    hashes: Seq<Seq<char>>,
    hunks: Seq<JsonView>,
) -> Result<(Seq<SpliceView>, int), ToolErrorView> {
    match hunk_splices(ls, hashes, hunks) {
        Err(e) => Err(e),
        Ok((ss, n)) => if apart(in_order(ss)) {
            Ok((in_order(ss), n))
        } else {
            Err(invalid("hunks overlap — merge them or patch in two calls"@))
        },
    }
}

/// The lines from `from` on with the splices put in.
pub open spec fn patched(ls: Seq<Seq<char>>, ss: Seq<SpliceView>, from: int) -> Seq<Seq<char>>
    decreases ss.len(),
{
    if ss.len() == 0 {
        ls.skip(from)
    } else {
        ls.subrange(from, ss[0].start) + ss[0].content + patched(ls, ss.drop_first(), ss[0].end)
    }
}

fn bad(message: &str) -> (r: ToolError)
    ensures
        r@ == invalid(message@),
{
    ToolError::InvalidInput(message.to_owned())
}

/// A splice, a count of moved anchors, or an error, as values.
pub open spec fn splice_outcome(r: Result<(Splice, usize), ToolError>) -> Result<
    (SpliceView, int),
    ToolErrorView,
> {
    match r {
        Ok(v) => Ok((v.0@, v.1 as int)),
        Err(e) => Err(e@),
    }
}

fn content_lines(hunk: &Json) -> (r: Option<Vec<String>>)
    ensures
        match r {
            Some(v) => hunk_content(hunk@) == Some(views(v@)),
            None => hunk_content(hunk@) is None,
        },
{
    match hunk.str_field("content") {
        Some(text) => Some(split_on(text, '\n')),
        None => None,
    }
}

fn insert_hunk(ls: &Vec<String>, hashes: &Vec<String>, hunk: &Json, a: &Anchor) -> (r: Result<
    (Splice, usize),
    ToolError,
>)
    requires
        hashes@.len() == ls@.len(),
    ensures
        splice_outcome(r) == insertion(views(ls@), views(hashes@), hunk@, a@),
        r matches Ok(v) ==> v.0.start <= v.0.end <= ls@.len() && v.1 <= 2,
{
    if hunk.str_field("to").is_some() {
        return Err(bad("insert_after takes no `to` — it inserts at one point"));
    }
    let content = match content_lines(hunk) {
        Some(content) => content,
        None => {
            return Err(bad("insert_after needs `content`"));
        },
    };
    if a.line == 0 {
        return Ok((Splice { start: 0, end: 0, content }, 0));
    }
    match resolve_anchor(ls, hashes, a) {
        Err(e) => Err(e),
        Ok((k, m)) => {
            proof {
                assert(ls@.len() == ls.len());
            }
            let count: usize = if m {
                1
            } else {
                0
            };
            Ok((Splice { start: k + 1, end: k + 1, content }, count))
        },
    }
}

fn span_hunk(
    ls: &Vec<String>,
    hashes: &Vec<String>,
    start: usize,
    count: usize,
    to: Option<&str>,
    content: Vec<String>,
) -> (r: Result<(Splice, usize), ToolError>)
    requires
        hashes@.len() == ls@.len(),
        start < ls@.len(),
        count <= 1,
    ensures
        splice_outcome(r) == span(
            views(ls@),
            views(hashes@),
            start as int,
            count as int,
            match to {
                Some(t) => Some(t@),
                None => None,
            },
            views(content@),
        ),
        r matches Ok(v) ==> v.0.start <= v.0.end <= ls@.len() && v.1 <= 2,
{
    proof {
        assert(ls@.len() == ls.len());
    }
    let raw = match to {
        None => {
            return Ok((Splice { start, end: start + 1, content }, count));
        },
        Some(raw) => raw,
    };
    let b = match parse_anchor(raw) {
        Err(e) => {
            return Err(e);
        },
        Ok(b) => b,
    };
    if b.line == 0 {
        return Err(bad("`to` must be a real line anchor"));
    }
    match resolve_anchor(ls, hashes, &b) {
        Err(e) => Err(e),
        Ok((end, m)) => {
            if end < start {
                let x = decimal((end + 1) as u64);
                let y = decimal((start + 1) as u64);
                return Err(
                    ToolError::InvalidInput(
                        "`to` anchor resolves above `anchor` (".to_owned().concat(
                            x.as_str(),
                        ).concat(" < ").concat(y.as_str()).concat(")"),
                    ),
                );
            }
            let more: usize = if m {
                1
            } else {
                0
            };
            Ok((Splice { start, end: end + 1, content }, count + more))
        },
    }
}

fn substitute_hunk(
    ls: &Vec<String>,
    hashes: &Vec<String>,
    hunk: &Json,
    op: &str,
    a: &Anchor,
) -> (r: Result<(Splice, usize), ToolError>)
    requires
        hashes@.len() == ls@.len(),
    ensures
        splice_outcome(r) == substitution(views(ls@), views(hashes@), hunk@, op@, a@),
        r matches Ok(v) ==> v.0.start <= v.0.end <= ls@.len() && v.1 <= 2,
{
    if a.line == 0 {
        return Err(bad("anchor \"0\" is only for insert_after"));
    }
    let given = content_lines(hunk);
    let content = if same(op, "replace") {
        match given {
            Some(c) => c,
            None => {
                return Err(bad("replace needs `content`"));
            },
        }
    } else {
        match given {
            None => {
                let none: Vec<String> = Vec::new();
                proof {
                    assert(views(none@) =~= Seq::<Seq<char>>::empty());
                }
                none
            },
            Some(_) => {
                return Err(bad("delete takes no `content` — use replace to substitute"));
            },
        }
    };
    match resolve_anchor(ls, hashes, a) {
        Err(e) => Err(e),
        Ok((start, m)) => {
            let count: usize = if m {
                1
            } else {
                0
            };
            span_hunk(ls, hashes, start, count, hunk.str_field("to"), content)
        },
    }
}

fn parse_hunk(ls: &Vec<String>, hashes: &Vec<String>, hunk: &Json) -> (r: Result<
    (Splice, usize),
    ToolError,
>)
    requires
        hashes@.len() == ls@.len(),
    ensures
        splice_outcome(r) == hunk_splice(views(ls@), views(hashes@), hunk@),
        r matches Ok(v) ==> v.0.start <= v.0.end <= ls@.len() && v.1 <= 2,
{
    let op = match hunk.str_field("op") {
        Some(op) => op,
        None => "replace",
    };
    let raw = match hunk.str_field("anchor") {
        Some(raw) => raw,
        None => {
            return Err(bad("each hunk needs an `anchor`"));
        },
    };
    let a = match parse_anchor(raw) {
        Err(e) => {
            return Err(e);
        },
        Ok(a) => a,
    };
    if same(op, "insert_after") {
        insert_hunk(ls, hashes, hunk, &a)
    } else if same(op, "replace") || same(op, "delete") {
        substitute_hunk(ls, hashes, hunk, op, &a)
    } else {
        Err(
            ToolError::InvalidInput(
                "unknown op `".to_owned().concat(op).concat(
                    "` (expected replace, insert_after, or delete)",
                ),
            ),
        )
    }
}

/// One hunk that is wrong spoils the patch.
proof fn lemma_hunk_error(
    ls: Seq<Seq<char>>,
    hashes: Seq<Seq<char>>,
    hunks: Seq<JsonView>,
    i: int,
)
    requires
        0 <= i < hunks.len(),
        hunk_splices(ls, hashes, hunks.take(i)) is Ok,
        hunk_splice(ls, hashes, hunks[i]) is Err,
    ensures
        hunk_splices(ls, hashes, hunks) == Err::<(Seq<SpliceView>, int), ToolErrorView>(
            hunk_splice(ls, hashes, hunks[i])->Err_0,
        ),
    decreases hunks.len(),
{
    if i == hunks.len() - 1 {
        assert(hunks.take(i) =~= hunks.drop_last());
    } else {
        assert(hunks.drop_last().take(i) =~= hunks.take(i));
        lemma_hunk_error(ls, hashes, hunks.drop_last(), i);
    }
}

/// Every splice lies within the file.
pub open spec fn within_file(ss: Seq<SpliceView>, len: int) -> bool {
    forall|i: int|
        0 <= i < ss.len() ==> 0 <= (#[trigger] ss[i]).start <= ss[i].end <= len
}

fn insert_splice(sorted: &mut Vec<Splice>, s: Splice, Ghost(len): Ghost<int>)
    requires
        within_file(views(old(sorted)@), len),
        within_file(seq![s@], len),
    ensures
        views(final(sorted)@) == views(old(sorted)@).insert(
            splice_place(views(old(sorted)@), s@),
            s@,
        ),
        within_file(views(final(sorted)@), len),
        final(sorted)@.len() == old(sorted)@.len() + 1,
{
    let ghost bv = views(sorted@);
    let ghost sv = s@;
    let mut n: usize = sorted.len();
    proof {
        assert(bv.take(n as int) =~= bv);
        assert(seq![sv][0] == sv);
    }
    while n > 0 && (sorted[n - 1].start > s.start || (sorted[n - 1].start == s.start && sorted[n
        - 1].end > s.end))
        invariant
            bv == views(sorted@),
            sv == s@,
            n <= sorted@.len(),
            splice_place(bv, sv) == splice_place(bv.take(n as int), sv),
        decreases n,
    {
        n -= 1;
        proof {
            lemma_step(bv, n as int);
            assert(bv[n as int] == sorted@[n as int]@);
        }
    }
    proof {
        if n > 0 {
            lemma_step(bv, n - 1);
            assert(bv[n - 1] == sorted@[n - 1]@);
        }
    }
    sorted.insert(n, s);
    proof {
        assert(views(sorted@) =~= bv.insert(n as int, sv));
        let nv = views(sorted@);
        assert forall|i: int| 0 <= i < nv.len() implies 0 <= (#[trigger] nv[i]).start <= nv[i].end
            <= len by {
            if i < n {
                assert(nv[i] == bv[i]);
            } else if i > n {
                assert(nv[i] == bv[i - 1]);
            }
        }
    }
}

/// Parse the hunks of a patch into splices, in order, that do not touch.
pub fn parse_hunks(ls: &Vec<String>, hashes: &Vec<String>, hunks: &Vec<Json>) -> (r: Result<
    (Vec<Splice>, u128),
    ToolError,
>)
    requires
        hashes@.len() == ls@.len(),
    ensures
        match r {
            Ok(v) => patch_splices(views(ls@), views(hashes@), items_view(hunks@)) == Ok::<
                (Seq<SpliceView>, int),
                ToolErrorView,
            >((views(v.0@), v.1 as int)) && within_file(views(v.0@), ls@.len() as int) && v.0@.len()
                == hunks@.len(),
            Err(e) => patch_splices(views(ls@), views(hashes@), items_view(hunks@)) == Err::<
                (Seq<SpliceView>, int),
                ToolErrorView,
            >(e@),
        },
{
    let ghost lv = views(ls@);
    let ghost hv = views(hashes@);
    let ghost all = items_view(hunks@);
    let mut sorted: Vec<Splice> = Vec::new();
    let ghost mut raw: Seq<SpliceView> = Seq::empty();
    let mut recovered: u128 = 0;
    let mut i: usize = 0;
    proof {
        assert(views(sorted@) =~= in_order(raw));
    }
    while i < hunks.len()
        invariant
            lv == views(ls@),
            hv == views(hashes@),
            all == items_view(hunks@),
            hashes@.len() == ls@.len(),
            i <= hunks@.len(),
            recovered <= 2 * i,
            hunk_splices(lv, hv, all.take(i as int)) == Ok::<
                (Seq<SpliceView>, int),
                ToolErrorView,
            >((raw, recovered as int)),
            views(sorted@) == in_order(raw),
            sorted@.len() == i,
            within_file(views(sorted@), ls@.len() as int),
            hunks@.len() == hunks.len(),
        decreases hunks@.len() - i,
    {
        proof {
            lemma_step(all, i as int);
            assert(all[i as int] == hunks@[i as int]@);
        }
        match parse_hunk(ls, hashes, &hunks[i]) {
            Err(e) => {
                proof {
                    lemma_hunk_error(lv, hv, all, i as int);
                }
                return Err(e);
            },
            Ok((s, m)) => {
                let ghost sv = s@;
                insert_splice(&mut sorted, s, Ghost(ls@.len() as int));
                proof {
                    raw = raw.push(sv);
                    assert(raw.drop_last() =~= hunk_splices(lv, hv, all.take(i as int))->Ok_0.0);
                }
                recovered += m as u128;
            },
        }
        i += 1;
    }
    proof {
        assert(all.take(i as int) =~= all);
    }
    let ghost sv = views(sorted@);
    let mut k: usize = 1;
    while k < sorted.len()
        invariant
            sv == views(sorted@),
            sv == in_order(raw),
            lv == views(ls@),
            hv == views(hashes@),
            all == items_view(hunks@),
            hunk_splices(lv, hv, all) == Ok::<(Seq<SpliceView>, int), ToolErrorView>(
                (raw, recovered as int),
            ),
            1 <= k,
            k <= sorted@.len() || sorted@.len() == 0,
            forall|a: int, b: int|
                0 <= a && b == a + 1 && b < k && b < sv.len() ==> (#[trigger] sv[a]).end <= (
                #[trigger] sv[b]).start && sv[a].start != sv[b].start,
        decreases sorted@.len() - k,
    {
        proof {
            assert(sv[k - 1] == sorted@[k - 1]@);
            assert(sv[k as int] == sorted@[k as int]@);
        }
        if sorted[k].start < sorted[k - 1].end || sorted[k].start == sorted[k - 1].start {
            return Err(bad("hunks overlap — merge them or patch in two calls"));
        }
        k += 1;
    }
    Ok((sorted, recovered))
}

/// The lines with the splices put in.
pub fn apply_splices(ls: &Vec<String>, ss: &Vec<Splice>) -> (r: Vec<String>)
    requires
        apart(views(ss@)),
        within_file(views(ss@), ls@.len() as int),
    ensures
        views(r@) == patched(views(ls@), views(ss@), 0),
{
    let mut out: Vec<String> = Vec::new();
    let ghost lv = views(ls@);
    let ghost sv = views(ss@);
    let mut from: usize = 0;
    let mut i: usize = 0;
    proof {
        assert(sv.skip(0) =~= sv);
        assert(views(out@) + patched(lv, sv, 0) =~= patched(lv, sv, 0));
    }
    while i < ss.len()
        invariant
            lv == views(ls@),
            sv == views(ss@),
            apart(sv),
            within_file(sv, ls@.len() as int),
            i <= ss@.len(),
            from <= ls@.len(),
            i > 0 ==> from == sv[i - 1].end,
            i == 0 ==> from == 0,
            views(out@) + patched(lv, sv.skip(i as int), from as int) == patched(lv, sv, 0),
        decreases ss@.len() - i,
    {
        let s = &ss[i];
        let ghost rest = sv.skip(i as int);
        let ghost before = views(out@);
        proof {
            assert(rest[0] == s@);
            assert(sv[i as int] == s@);
            assert(rest.drop_first() =~= sv.skip(i + 1));
            if i > 0 {
                assert(sv[i - 1].end <= sv[i as int].start);
            }
        }
        push_lines(&mut out, ls, from, s.start);
        push_lines(&mut out, &s.content, 0, s.content.len());
        proof {
            assert(views(s.content@).subrange(0, s.content@.len() as int) =~= views(s.content@));
            assert(views(out@) =~= before + lv.subrange(from as int, s.start as int) + views(
                s.content@,
            ));
            assert(views(out@) + patched(lv, sv.skip(i + 1), s.end as int) =~= before + patched(
                lv,
                rest,
                from as int,
            ));
        }
        from = s.end;
        i += 1;
    }
    let ghost before = views(out@);
    push_lines(&mut out, ls, from, ls.len());
    proof {
        assert(sv.skip(i as int) =~= Seq::<SpliceView>::empty());
        assert(lv.subrange(from as int, ls@.len() as int) =~= lv.skip(from as int));
    }
    out
}

fn push_lines(out: &mut Vec<String>, ls: &Vec<String>, from: usize, to: usize)
    requires
        from <= to <= ls@.len(),
    ensures
        views(final(out)@) == views(old(out)@) + views(ls@).subrange(from as int, to as int),
{
    let ghost start = views(out@);
    let ghost lv = views(ls@);
    let mut i: usize = from;
    proof {
        assert(start + lv.subrange(from as int, from as int) =~= start);
    }
    while i < to
        invariant
            lv == views(ls@),
            from <= i <= to <= ls@.len(),
            views(out@) == start + lv.subrange(from as int, i as int),
        decreases to - i,
    {
        let ghost before = out@;
        out.push(ls[i].clone());
        proof {
            assert(views(out@) =~= views(before).push(lv[i as int]));
            assert(lv.subrange(from as int, i + 1) =~= lv.subrange(from as int, i as int).push(
                lv[i as int],
            ));
            assert(views(out@) =~= start + lv.subrange(from as int, i + 1));
        }
        i += 1;
    }
}

// ── Edits ───────────────────────────────────────────────────────────────────

/// At how many places from `from` on `p` stands in `s`; the places may overlap.
pub open spec fn occurrences(s: Seq<char>, p: Seq<char>, from: int) -> nat
    decreases s.len() - from,
{
    if from < 0 || from >= s.len() {
        0
    } else if stands_at(s, p, from) {
        1 + occurrences(s, p, from + 1)
    } else {
        occurrences(s, p, from + 1)
    }
}

/// Nothing is counted exactly where nothing stands.
pub proof fn lemma_no_occurrence(s: Seq<char>, p: Seq<char>, from: int)
    requires
        0 <= from,
        p.len() > 0,
    ensures
        occurrences(s, p, from) == 0 <==> forall|j: int| from <= j ==> !#[trigger] stands_at(s, p, j),
    decreases s.len() - from,
{
    if from < s.len() {
        lemma_no_occurrence(s, p, from + 1);
        if !stands_at(s, p, from) && occurrences(s, p, from + 1) == 0 {
            assert forall|j: int| from <= j implies !#[trigger] stands_at(s, p, j) by {
                if j > from {
                    assert(from + 1 <= j);
                }
            }
        }
        if occurrences(s, p, from + 1) != 0 {
            let j = choose|j: int| from + 1 <= j && stands_at(s, p, j);
            assert(stands_at(s, p, j));
        }
    }
}

/// The places before the first one count for nothing.
pub proof fn lemma_first_occurrence(s: Seq<char>, p: Seq<char>, from: int)
    requires
        0 <= from,
        p.len() > 0,
    ensures
        match find_text_from(s, p, from) {
            Some(k) => from <= k < s.len() && occurrences(s, p, from) == 1 + occurrences(
                s,
                p,
                k + 1,
            ),
            None => occurrences(s, p, from) == 0,
        },
    decreases s.len() + 1 - from,
{
    if from < s.len() {
        if !stands_at(s, p, from) {
            lemma_first_occurrence(s, p, from + 1);
        }
    } else if from == s.len() {
        reveal_with_fuel(find_text_from, 2);
    }
}

/// `s` with what stands at `at`, `len` characters of it, replaced.
pub open spec fn replaced_at(s: Seq<char>, at: int, len: int, new: Seq<char>) -> Seq<char> {
    s.take(at) + new + s.skip(at + len)
}

/// An edited file, as a value: its new text and what the call says.
pub struct EditedView {
    pub text: Seq<char>,
    pub message: Seq<char>,
}

/// An edited file: its new text and what the call says.
#[derive(Debug)]
pub struct Edited {
    pub text: String,
    pub message: String,
}

impl View for Edited {
    type V = EditedView;

    open spec fn view(&self) -> EditedView {
        EditedView { text: self.text@, message: self.message@ }
    }
}

/// The exact-string edit: what stands at one place, and only one, is replaced.
pub open spec fn exact_edit(path: Seq<char>, text: Seq<char>, old: Seq<char>, new: Seq<char>) -> Result<
    EditedView,
    ToolErrorView,
> {
    let n = occurrences(text, old, 0);
    if old.len() == 0 {
        Err(invalid("old_string must not be empty"@))
    } else if n == 0 {
        Err(ToolErrorView::Failed("old_string not found in "@ + path))
    } else if n == 1 {
        Ok(
            EditedView {
                text: replaced_at(
                    text,
                    find_text_from(text, old, 0)->Some_0,
                    old.len() as int,
                    new,
                ),
                message: "edited "@ + path,
            },
        )
    } else {
        Err(
            ToolErrorView::Failed(
                "old_string appears "@ + dec(n) + " times in "@ + path
                    + "; provide more context to disambiguate"@,
            ),
        )
    }
}

/// What a patch says of the anchors it followed.
pub open spec fn moved_note(n: nat) -> Seq<char> {
    if n == 0 {
        Seq::empty()
    } else {
        " ("@ + dec(n) + " moved anchor(s) followed by content hash)"@
    }
}

/// Lines as a text that ends the way `text` did.
pub open spec fn relined(text: Seq<char>, ls: Seq<Seq<char>>) -> Seq<char> {
    let joined = join(ls, "\n"@);
    if text.len() > 0 && text.last() == '\n' && joined.len() > 0 {
        joined.push('\n')
    } else {
        joined
    }
}

/// The hashline edit: every hunk applies, or none does.
pub open spec fn patch_edit(path: Seq<char>, text: Seq<char>, patch: JsonView) -> Result<
    EditedView,
    ToolErrorView,
> {
    match patch.as_array() {
        None => Err(invalid("`patch` must be a non-empty array of hunks"@)),
        Some(hunks) => if hunks.len() == 0 {
            Err(invalid("`patch` must be a non-empty array of hunks"@))
        } else {
            let ls = lines(text);
            match patch_splices(ls, hashes_of(ls), hunks) {
                Err(e) => Err(e),
                Ok((ss, n)) => Ok(
                    EditedView {
                        text: relined(text, patched(ls, ss, 0)),
                        message: "edited "@ + path + ", "@ + dec(ss.len()) + " hunk(s)"@
                            + moved_note(n as nat),
                    },
                ),
            }
        },
    }
}

/// What an edit makes of a file's text.
pub open spec fn edit_result(path: Seq<char>, text: Seq<char>, input: JsonView) -> Result<
    EditedView,
    ToolErrorView,
> {
    match (input.get("old_string"@), input.get("patch"@)) {
        (Some(_), Some(_)) => Err(
            invalid("use either old_string/new_string or `patch`, not both"@),
        ),
        (Some(_), None) => match required(input, "old_string"@) {
            Err(e) => Err(e),
            Ok(old) => match required(input, "new_string"@) {
                Err(e) => Err(e),
                Ok(new) => exact_edit(path, text, old, new),
            },
        },
        (None, Some(patch)) => patch_edit(path, text, patch),
        (None, None) => Err(invalid("provide old_string/new_string or a `patch`"@)),
    }
}

/// At how many places `p` stands in `cs`; the places may overlap.
pub fn count_text(cs: &Vec<char>, p: &Vec<char>) -> (r: usize)
    requires
        p@.len() > 0,
    ensures
        r == occurrences(cs@, p@, 0),
{
    let mut n: usize = 0;
    let mut i: usize = 0;
    while i < cs.len()
        invariant
            n <= i <= cs@.len(),
            n + occurrences(cs@, p@, i as int) == occurrences(cs@, p@, 0),
        decreases cs@.len() - i,
    {
        if matches_at(cs, p, i) {
            n += 1;
        }
        i += 1;
    }
    n
}

fn edit_exact(path: &str, text: &str, old: &str, new: &str) -> (r: Result<Edited, ToolError>)
    ensures
        tool_outcome(r) == exact_edit(path@, text@, old@, new@),
{
    if old.is_empty() {
        return Err(bad("old_string must not be empty"));
    }
    let cs = chars_of(text);
    let ps = chars_of(old);
    let n: usize = count_text(&cs, &ps);
    if n > 1 {
        let times = decimal(n as u64);
        return Err(
            ToolError::Failed(
                "old_string appears ".to_owned().concat(times.as_str()).concat(
                    " times in ",
                ).concat(path).concat("; provide more context to disambiguate"),
            ),
        );
    }
    proof {
        lemma_first_occurrence(text@, old@, 0);
    }
    match find_text(&cs, &ps, 0) {
        None => Err(ToolError::Failed("old_string not found in ".to_owned().concat(path))),
        Some(k) => {
            proof {
                assert(cs@.len() == cs.len());
            }
            let head = slice(&cs, 0, k);
            let tail = slice(&cs, k + ps.len(), cs.len());
            let out = head.concat(new).concat(tail.as_str());
            proof {
                assert(cs@.subrange(0, k as int) =~= text@.take(k as int));
                assert(cs@.subrange(k + ps@.len(), cs@.len() as int) =~= text@.skip(
                    k + old@.len(),
                ));
            }
            Ok(Edited { text: out, message: "edited ".to_owned().concat(path) })
        },
    }
}

fn edit_patch(path: &str, text: &str, patch: &Json) -> (r: Result<Edited, ToolError>)
    ensures
        tool_outcome(r) == patch_edit(path@, text@, patch@),
{
    let hunks = match patch.as_array() {
        None => {
            return Err(bad("`patch` must be a non-empty array of hunks"));
        },
        Some(hunks) => hunks,
    };
    if hunks.len() == 0 {
        return Err(bad("`patch` must be a non-empty array of hunks"));
    }
    let ls = lines_of(text);
    let hashes = line_hashes(&ls);
    let (ss, n) = match parse_hunks(&ls, &hashes, hunks) {
        Err(e) => {
            return Err(e);
        },
        Ok(v) => v,
    };
    let out = apply_splices(&ls, &ss);
    let mut joined = join_with(&out, "\n");
    let cs = chars_of(text);
    if cs.len() > 0 && cs[cs.len() - 1] == '\n' && !joined.as_str().is_empty() {
        joined.push('\n');
    }
    let count = decimal(ss.len() as u64);
    let head = "edited ".to_owned().concat(path).concat(", ").concat(count.as_str()).concat(
        " hunk(s)",
    );
    let note = if n == 0 {
        String::new()
    } else {
        let followed = decimal_wide(n);
        " (".to_owned().concat(followed.as_str()).concat(
            " moved anchor(s) followed by content hash)",
        )
    };
    Ok(Edited { text: joined, message: head.concat(note.as_str()) })
}

/// What an edit makes of a file's text.
pub fn edit(path: &str, text: &str, input: &Json) -> (r: Result<Edited, ToolError>)
    ensures
        tool_outcome(r) == edit_result(path@, text@, input@),
{
    let old = input.get("old_string");
    let patch = input.get("patch");
    match (old, patch) {
        (Some(_), Some(_)) => Err(bad("use either old_string/new_string or `patch`, not both")),
        (Some(_), None) => {
            let old = match required_str(input, "old_string") {
                Err(e) => {
                    return Err(e);
                },
                Ok(old) => old,
            };
            let new = match required_str(input, "new_string") {
                Err(e) => {
                    return Err(e);
                },
                Ok(new) => new,
            };
            edit_exact(path, text, old, new)
        },
        (None, Some(patch)) => edit_patch(path, text, patch),
        (None, None) => Err(bad("provide old_string/new_string or a `patch`")),
    }
}

} // verus!
