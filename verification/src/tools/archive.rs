//! Archives behind the one read path.
//!
//! Zip, tar, and gzipped tar are recognized by their magic bytes — never their
//! extensions — and render as an entry listing like a directory read. Passing
//! `entry` extracts one member instead. Everything is bounded: the listing
//! caps its entry count, and an extracted member caps its bytes while they are
//! unpacked — an archive has no business unpacking further than the transcript
//! can carry.
use std::io::Read;

use vstd::prelude::*;
use vstd::slice::slice_subrange;
use vstd::string::*;

use super::{tool_outcome, ToolError, ToolErrorView};
use crate::text::{dec, decimal, ends_with, lemma_step, same, views};

verus! {

/// Listing cap; the true total is always reported.
pub const MAX_ENTRIES: usize = 1_000;

/// Extraction cap, as for file reads.
pub const MAX_ENTRY_BYTES: usize = 262_144;

/// How much of a file's head tells what it is.
pub const HEAD_BYTES: usize = 265;

/// A kind of archive.
#[derive(Debug, Clone, Copy, PartialEq, Eq, Structural)]
pub enum Kind {
    Zip,
    Tar,
    TarGz,
}

/// The kind of archive that begins with these bytes.
pub open spec fn kind_of(head: Seq<u8>) -> Option<Kind> {
    if seq![0x50u8, 0x4bu8, 0x03u8, 0x04u8].is_prefix_of(head) || seq![
        0x50u8,
        0x4bu8,
        0x05u8,
        0x06u8,
    ].is_prefix_of(head) {
        Some(Kind::Zip)
    } else if seq![0x1fu8, 0x8bu8].is_prefix_of(head) {
        Some(Kind::TarGz)
    } else if head.len() >= 262 && head.subrange(257, 262) == seq![
        0x75u8,
        0x73u8,
        0x74u8,
        0x61u8,
        0x72u8,
    ] {
        Some(Kind::Tar)
    } else {
        None
    }
}

/// Recognize an archive by its head: zip's `PK` local and empty headers,
/// gzip's two magic bytes, or tar's `ustar` at offset 257.
pub fn detect(head: &Vec<u8>) -> (r: Option<Kind>)
    ensures
        r == kind_of(head@),
{
    let n: usize = head.len();
    let ghost h = head@;
    let zip = n >= 4 && head[0] == 0x50 && head[1] == 0x4b && ((head[2] == 0x03 && head[3] == 0x04)
        || (head[2] == 0x05 && head[3] == 0x06));
    proof {
        let a = seq![0x50u8, 0x4bu8, 0x03u8, 0x04u8];
        let b = seq![0x50u8, 0x4bu8, 0x05u8, 0x06u8];
        if zip {
            if h[2] == 0x03 {
                assert(h.take(4) =~= a);
            } else {
                assert(h.take(4) =~= b);
            }
        } else if a.is_prefix_of(h) {
            assert(h.take(4)[0] == a[0] && h.take(4)[1] == a[1] && h.take(4)[2] == a[2] && h.take(
                4,
            )[3] == a[3]);
        } else if b.is_prefix_of(h) {
            assert(h.take(4)[0] == b[0] && h.take(4)[1] == b[1] && h.take(4)[2] == b[2] && h.take(
                4,
            )[3] == b[3]);
        }
    }
    if zip {
        return Some(Kind::Zip);
    }
    let gzip = n >= 2 && head[0] == 0x1f && head[1] == 0x8b;
    proof {
        let g = seq![0x1fu8, 0x8bu8];
        if gzip {
            assert(h.take(2) =~= g);
        } else if g.is_prefix_of(h) {
            assert(h.take(2)[0] == g[0] && h.take(2)[1] == g[1]);
        }
    }
    if gzip {
        return Some(Kind::TarGz);
    }
    let tar = n >= 262 && head[257] == 0x75 && head[258] == 0x73 && head[259] == 0x74 && head[260]
        == 0x61 && head[261] == 0x72;
    proof {
        let u = seq![0x75u8, 0x73u8, 0x74u8, 0x61u8, 0x72u8];
        if n >= 262 {
            let m = h.subrange(257, 262);
            if tar {
                assert(m =~= u);
            } else if m == u {
                assert(m[0] == u[0] && m[1] == u[1] && m[2] == u[2] && m[3] == u[3] && m[4]
                    == u[4]);
            }
        }
    }
    if tar {
        Some(Kind::Tar)
    } else {
        None
    }
}

/// What an archive that cannot be read says.
pub open spec fn broken(path: Seq<char>, why: Seq<char>) -> ToolErrorView {
    ToolErrorView::Failed("archive "@ + path + ": "@ + why)
}

/// What an archive that cannot be read says.
pub fn arch_err(path: &str, why: &str) -> (r: ToolError)
    ensures
        r@ == broken(path@, why@),
{
    ToolError::Failed("archive ".to_owned().concat(path).concat(": ").concat(why))
}

/// One listed member; directories render with a trailing slash.
#[derive(Debug)]
pub struct Entry {
    pub name: String,
    pub size: u64,
    pub is_dir: bool,
}

/// One listed member, as a value.
pub struct EntryView {
    pub name: Seq<char>,
    pub size: int,
    pub is_dir: bool,
}

impl View for Entry {
    type V = EntryView;

    open spec fn view(&self) -> EntryView {
        EntryView { name: self.name@, size: self.size as int, is_dir: self.is_dir }
    }
}

/// A kind's name.
pub open spec fn label(kind: Kind) -> Seq<char> {
    match kind {
        Kind::Zip => "zip"@,
        Kind::Tar => "tar"@,
        Kind::TarGz => "tar.gz"@,
    }
}

/// A member's name as it is listed: directories have a trailing slash.
pub open spec fn entry_name(e: EntryView) -> Seq<char> {
    if e.is_dir && !"/"@.is_suffix_of(e.name) {
        e.name + "/"@
    } else {
        e.name
    }
}

/// A member's line.
pub open spec fn entry_line(e: EntryView) -> Seq<char> {
    if e.is_dir {
        "  "@ + entry_name(e) + "\n"@
    } else {
        "  "@ + e.name + "  "@ + dec(e.size as nat) + " bytes\n"@
    }
}

/// The lines of members.
pub open spec fn entry_lines(es: Seq<EntryView>) -> Seq<char>
    decreases es.len(),
{
    if es.len() == 0 {
        Seq::empty()
    } else {
        entry_lines(es.drop_last()) + entry_line(es.last())
    }
}

/// A listing.
pub open spec fn listing(path: Seq<char>, kind: Kind, es: Seq<EntryView>) -> Seq<char> {
    if es.len() == 0 {
        "(empty "@ + label(kind) + " archive "@ + path + ")"@
    } else {
        let head = label(kind) + " archive "@ + path + " ("@ + dec(es.len())
            + " entries) — pass `entry` to read one:\n"@;
        if es.len() > MAX_ENTRIES {
            head + entry_lines(es.take(MAX_ENTRIES as int)) + ("[listed the first "@ + dec(
                MAX_ENTRIES as nat,
            ) + "]\n"@)
        } else {
            head + entry_lines(es)
        }
    }
}

/// A listing.
pub fn render(path: &str, kind: Kind, entries: &Vec<Entry>) -> (r: String)
    ensures
        r@ == listing(path@, kind, views(entries@)),
{
    let name = match kind {
        Kind::Zip => "zip",
        Kind::Tar => "tar",
        Kind::TarGz => "tar.gz",
    };
    let total: usize = entries.len();
    if total == 0 {
        return "(empty ".to_owned().concat(name).concat(" archive ").concat(path).concat(")");
    }
    let n = decimal(total as u64);
    let mut out = name.to_owned().concat(" archive ").concat(path).concat(" (").concat(
        n.as_str(),
    ).concat(" entries) — pass `entry` to read one:\n");
    let ghost head = out@;
    let ghost all = views(entries@);
    let shown: usize = if total > MAX_ENTRIES {
        MAX_ENTRIES
    } else {
        total
    };
    let mut i: usize = 0;
    proof {
        assert(out@ =~= head + entry_lines(all.take(0)));
    }
    while i < shown
        invariant
            all == views(entries@),
            shown <= entries@.len(),
            i <= shown,
            out@ == head + entry_lines(all.take(i as int)),
        decreases shown - i,
    {
        let e = &entries[i];
        proof {
            lemma_step(all, i as int);
            assert(all[i as int] == e@);
        }
        let line = if e.is_dir {
            let slash = if ends_with(e.name.as_str(), "/") {
                ""
            } else {
                "/"
            };
            let name = e.name.clone().concat(slash);
            proof {
                reveal_strlit("");
                assert(name@ =~= entry_name(e@));
            }
            "  ".to_owned().concat(name.as_str()).concat("\n")
        } else {
            let size = decimal(e.size);
            "  ".to_owned().concat(e.name.as_str()).concat("  ").concat(size.as_str()).concat(
                " bytes\n",
            )
        };
        out.append(line.as_str());
        proof {
            assert(out@ =~= head + entry_lines(all.take(i + 1)));
        }
        i += 1;
    }
    if total > MAX_ENTRIES {
        let cap = decimal(MAX_ENTRIES as u64);
        let note = "[listed the first ".to_owned().concat(cap.as_str()).concat("]\n");
        out.append(note.as_str());
    } else {
        proof {
            assert(all.take(i as int) =~= all);
        }
    }
    out
}

/// What a miss says: it names the listing rather than guessing.
pub open spec fn miss(path: Seq<char>, entry: Seq<char>) -> ToolErrorView {
    ToolErrorView::InvalidInput(
        "no entry `"@ + entry + "` in "@ + path
            + " — read the archive without `entry` to list them"@,
    )
}

/// What a miss says.
pub fn missing(path: &str, entry: &str) -> (r: ToolError)
    ensures
        r@ == miss(path@, entry@),
{
    ToolError::InvalidInput(
        "no entry `".to_owned().concat(entry).concat("` in ").concat(path).concat(
            " — read the archive without `entry` to list them",
        ),
    )
}

/// A member's bytes within the cap, and whether the cap cut them short.
pub open spec fn clipped_to_cap(bytes: Seq<u8>) -> (Seq<u8>, bool) {
    if bytes.len() > MAX_ENTRY_BYTES {
        (bytes.take(MAX_ENTRY_BYTES as int), true)
    } else {
        (bytes, false)
    }
}

/// A member's bytes within the cap, and whether the cap cut them short. One
/// byte past the cap is enough to tell.
pub fn clip(bytes: Vec<u8>) -> (r: (Vec<u8>, bool))
    ensures
        (r.0@, r.1) == clipped_to_cap(bytes@),
{
    let clipped = bytes.len() > MAX_ENTRY_BYTES;
    let mut out = bytes;
    if clipped {
        out.truncate(MAX_ENTRY_BYTES);
    }
    (out, clipped)
}

// ── The members of an archive ───────────────────────────────────────────────

/// Members as an archive hands them out: each, or why it could not be read.
pub type Members = Result<Vec<Result<Entry, String>>, String>;

/// Members as an archive hands them out, as a value.
pub type MembersView = Result<Seq<Result<EntryView, Seq<char>>>, Seq<char>>;

/// A member, or why it could not be read, as a value.
pub open spec fn member_view(m: Result<Entry, String>) -> Result<EntryView, Seq<char>> {
    match m {
        Ok(e) => Ok(e@),
        Err(e) => Err(e@),
    }
}

/// Members as an archive hands them out, as a value.
pub open spec fn members_view(r: Members) -> MembersView {
    match r {
        Ok(ms) => Ok(ms@.map_values(|m: Result<Entry, String>| member_view(m))),
        Err(e) => Err(e@),
    }
}

/// A member's bytes, or why they could not be read, as a value; nothing where
/// there is no such member.
pub open spec fn content_view(r: Option<Result<Vec<u8>, String>>) -> Option<
    Result<Seq<u8>, Seq<char>>,
> {
    match r {
        Some(Ok(bytes)) => Some(Ok(bytes@)),
        Some(Err(e)) => Some(Err(e@)),
        None => None,
    }
}

/// The members `zip` finds in these bytes, in the order of the archive's
/// directory.
pub uninterp spec fn zip_members(bytes: Seq<u8>) -> MembersView;

/// The first `limit` bytes `zip` unpacks of the member of a name.
pub uninterp spec fn zip_content(
    bytes: Seq<u8>,
    entry: Seq<char>,
    limit: u64,
) -> Option<Result<Seq<u8>, Seq<char>>>;

/// The members `tar` finds in these bytes, in order.
pub uninterp spec fn tar_members(bytes: Seq<u8>) -> MembersView;

/// The first `limit` bytes of the member that `tar` finds at a place.
pub uninterp spec fn tar_content(
    bytes: Seq<u8>,
    at: usize,
    limit: u64,
) -> Option<Result<Seq<u8>, Seq<char>>>;

/// The members `tar` finds, in order, in what `flate2` unpacks of these bytes.
pub uninterp spec fn targz_members(bytes: Seq<u8>) -> MembersView;

/// The first `limit` bytes of the member that `tar` finds at a place in what
/// `flate2` unpacks of these bytes.
pub uninterp spec fn targz_content(
    bytes: Seq<u8>,
    at: usize,
    limit: u64,
) -> Option<Result<Seq<u8>, Seq<char>>>;

/// `zip::ZipArchive::new` on the bytes, then `by_index` for each member, with
/// its `name`, `size` and `is_dir`. Claimed: the members, and what is said of
/// those that cannot be read, depend on the bytes alone.
#[verifier::external_body]
fn zip_entries(bytes: &[u8]) -> (r: Members)
    ensures
        members_view(r) == zip_members(bytes@),
{
    let cursor = std::io::Cursor::new(bytes);
    let mut archive = zip::ZipArchive::new(cursor).map_err(|e| e.to_string())?;
    let count = archive.len();
    let members = (0..count).map(|i| {
        let m = archive.by_index(i).map_err(|e| e.to_string())?;
        let name = m.name().map_err(|e| e.to_string())?.to_string();
        Ok(Entry { name, size: m.size(), is_dir: m.is_dir() })
    });
    Ok(members.collect())
}

/// `zip::ZipArchive::by_name`, and the member read through `take`. Claimed: the
/// first `limit` bytes of the member depend on the archive's bytes, the name
/// and the limit alone; nothing comes where `by_name` says that the file is not
/// found.
#[verifier::external_body]
fn zip_bytes(bytes: &[u8], entry: &str, limit: u64) -> (r: Option<Result<Vec<u8>, String>>)
    ensures
        content_view(r) == zip_content(bytes@, entry@, limit),
{
    let mut archive = match zip::ZipArchive::new(std::io::Cursor::new(bytes)) {
        Ok(archive) => archive,
        Err(e) => return Some(Err(e.to_string())),
    };
    let member = match archive.by_name(entry) {
        Ok(member) => member,
        Err(zip::result::ZipError::FileNotFound) => return None,
        Err(e) => return Some(Err(e.to_string())),
    };
    let mut out = Vec::new();
    let read = member.take(limit).read_to_end(&mut out);
    Some(read.map(|_| out).map_err(|e| e.to_string()))
}

// ── What a tar walk can count ───────────────────────────────────────────────

/// The size of a tar block: headers stand at multiples of it.
pub const BLOCK: usize = 512;

/// Whether `at` is where a whole block begins.
pub open spec fn block_at(b: Seq<u8>, at: int) -> bool {
    0 <= at && at % BLOCK as int == 0 && at + BLOCK <= b.len()
}

/// Whether the block at `at` bears the magic of a ustar or GNU header.
pub open spec fn tar_header(b: Seq<u8>, at: int) -> bool {
    b[at + 257] == 0x75 && b[at + 258] == 0x73 && b[at + 259] == 0x74 && b[at + 260] == 0x61 && b[at
        + 261] == 0x72
}

/// Whether the header at `at` is one of a sparse member whose map goes on in
/// further blocks.
pub open spec fn long_sparse(b: Seq<u8>, at: int) -> bool {
    tar_header(b, at) && b[at + 156] == 0x53 && b[at + 482] == 1
}

/// Whether the header at `at` is one of an extension that may say the size of
/// the next member.
pub open spec fn resizing(b: Seq<u8>, at: int) -> bool {
    tar_header(b, at) && b[at + 156] == 0x78
}

/// The number that the octal digits among `n` bytes say.
pub open spec fn octal(b: Seq<u8>, from: int, n: nat) -> nat
    decreases n,
{
    if n == 0 {
        0
    } else {
        let before = octal(b, from, (n - 1) as nat);
        let c = b[from + n - 1];
        if 0x30 <= c <= 0x37 {
            8 * before + (c - 0x30) as nat
        } else {
            before
        }
    }
}

/// How many of the twelve bytes of a field, from the `i`th on, stand before a
/// zero byte.
pub open spec fn before_zero(b: Seq<u8>, from: int, i: nat) -> nat
    decreases 12 - i,
{
    if i >= 12 || b[from + i] == 0 {
        i
    } else {
        before_zero(b, from, i + 1)
    }
}

/// The size that the header at `at` says: in binary where the first bit of the
/// field is set, else in octal.
#[verifier::opaque]
pub open spec fn declared(b: Seq<u8>, at: int) -> int {
    if b[at + 124] >= 0x80 {
        b[at + 128] * 0x100_0000_0000_0000 + b[at + 129] * 0x1_0000_0000_0000 + b[at + 130]
            * 0x100_0000_0000 + b[at + 131] * 0x1_0000_0000 + b[at + 132] * 0x100_0000 + b[at + 133]
            * 0x1_0000 + b[at + 134] * 0x100 + b[at + 135]
    } else {
        octal(b, at + 124, before_zero(b, at + 124, 0)) as int
    }
}

/// A size in whole blocks.
pub open spec fn in_blocks(size: int) -> int {
    (size + 511) / 512 * 512
}

/// Whether the member of the header at `at` ends where a `u64` can say, but may
/// end beyond that with the blocks of its map: they lie in the archive.
pub open spec fn endless(b: Seq<u8>, at: int) -> bool {
    long_sparse(b, at) && at + BLOCK + in_blocks(declared(b, at)) <= u64::MAX && in_blocks(
        declared(b, at),
    ) + b.len() > u64::MAX
}

/// Where the records of the extension at `at` end.
pub open spec fn records_end(b: Seq<u8>, at: int) -> int {
    if at + BLOCK + declared(b, at) <= b.len() {
        at + BLOCK + declared(b, at)
    } else {
        b.len() as int
    }
}

/// Whether the bytes from `i` to `end` begin with a size record's name.
pub open spec fn names_size(b: Seq<u8>, i: int, end: int) -> bool {
    i + 6 <= end && b[i] == 0x20 && b[i + 1] == 0x73 && b[i + 2] == 0x69 && b[i + 3] == 0x7a && b[i
        + 4] == 0x65 && b[i + 5] == 0x3d
}

/// Where the digits of the size record at `i` begin.
pub open spec fn digits_from(b: Seq<u8>, i: int, end: int) -> int {
    if i + 6 < end && b[i + 6] == 0x2b {
        i + 7
    } else {
        i + 6
    }
}

/// Whether the bytes from `j` to `k` are decimal digits.
pub open spec fn decimals(b: Seq<u8>, j: int, k: int) -> bool {
    forall|x: int| j <= x < k ==> 0x30 <= #[trigger] b[x] <= 0x39
}

/// The number that the decimal digits from `j` to `k` say.
pub open spec fn number(b: Seq<u8>, j: int, k: int) -> int
    decreases k - j,
{
    if k <= j {
        0
    } else {
        10 * number(b, j, k - 1) + (b[k - 1] - 0x30)
    }
}

/// Whether digits that begin at `j` say a size that, in whole blocks and with
/// the archive's length, a `u64` cannot hold.
pub open spec fn says_vast(b: Seq<u8>, j: int, end: int) -> bool {
    exists|k: int|
        j <= k <= end && #[trigger] decimals(b, j, k) && number(b, j, k) + BLOCK + b.len()
            > u64::MAX
}

/// Whether a size record at `i` says such a size.
pub open spec fn vast_record(b: Seq<u8>, i: int, end: int) -> bool {
    names_size(b, i, end) && says_vast(b, digits_from(b, i, end), end)
}

/// Whether the extension at `at` says such a size.
pub open spec fn vast_extension(b: Seq<u8>, at: int) -> bool {
    resizing(b, at) && exists|i: int|
        at + BLOCK <= i && #[trigger] vast_record(b, i, records_end(b, at))
}

/// Whether some block begins the map of a long sparse member.
pub open spec fn has_long_sparse(b: Seq<u8>) -> bool {
    exists|at: int| #[trigger] block_at(b, at) && long_sparse(b, at)
}

/// Whether some block begins an extension.
pub open spec fn has_resizing(b: Seq<u8>) -> bool {
    exists|at: int| #[trigger] block_at(b, at) && resizing(b, at)
}

/// Whether some block begins an extension that says a vast size.
pub open spec fn has_vast_extension(b: Seq<u8>) -> bool {
    exists|at: int| #[trigger] block_at(b, at) && vast_extension(b, at)
}

/// Whether the header at `at` is one that describes a later member.
pub open spec fn describing(b: Seq<u8>, at: int) -> bool {
    tar_header(b, at) && (b[at + 156] == 0x78 || b[at + 156] == 0x67 || b[at + 156] == 0x4c || b[at
        + 156] == 0x4b)
}

/// How many bytes follow a place.
pub open spec fn bytes_after(b: Seq<u8>, at: int) -> int {
    if at <= b.len() {
        b.len() - at
    } else {
        0
    }
}

/// Where the header stands that the one at `at` leads to: it is itself, or it
/// describes what follows it.
pub open spec fn described(b: Seq<u8>, at: int) -> int
    decreases bytes_after(b, at),
{
    if block_at(b, at) && describing(b, at) && declared(b, at) >= 0 {
        described(b, at + BLOCK + in_blocks(declared(b, at)))
    } else {
        at
    }
}

/// Whether an extension says a vast size for the member of the header at `at`.
pub open spec fn resized(b: Seq<u8>, at: int) -> bool {
    exists|x: int| #[trigger] block_at(b, x) && vast_extension(b, x) && described(b, x) == at
}

/// Whether the block at `at` would, as the header of a member, have an end that
/// cannot be counted: `tar` adds the blocks of a sparse member's map to where the
/// member ends, and that sum can pass what a `u64` holds only where the size is
/// that large, in the header itself or in an extension before it.
pub open spec fn suspicious(b: Seq<u8>, at: int) -> bool {
    at + 2 * BLOCK <= b.len() && long_sparse(b, at) && (endless(b, at) || resized(b, at))
}

/// Whether members end with one whose map could not be read on.
pub open spec fn map_cut_short(members: MembersView) -> bool {
    members matches Ok(ms) && ms.len() > 0 && ms.last() == Err::<EntryView, Seq<char>>(
        "failed to read extension"@,
    )
}

/// Whether the walk over an archive, cut off behind the block at `at`, finds a
/// map cut short: so it does where it reads that block as the header of a long
/// sparse member. A block within some member's content is walked past.
pub open spec fn reached(b: Seq<u8>, at: int) -> bool {
    map_cut_short(tar_members(b.take(at + BLOCK)))
}

/// Whether the walk over an archive can count the end of every member.
pub open spec fn countable(b: Seq<u8>) -> bool {
    &&& b.len() <= u64::MAX
    &&& forall|at: int| #[trigger] block_at(b, at) && suspicious(b, at) ==> !reached(b, at)
}

/// The archive cut off behind the first header from `at` on whose member's end
/// cannot be counted.
pub open spec fn cut_from(b: Seq<u8>, at: int) -> Seq<u8>
    decreases b.len() - at,
{
    if at + 2 * BLOCK > b.len() {
        b
    } else if suspicious(b, at) && reached(b, at) {
        b.take(at + BLOCK)
    } else {
        cut_from(b, at + BLOCK)
    }
}

/// As much of an archive as a walk can count: all of it, unless a header says
/// what cannot be counted.
pub open spec fn cut(b: Seq<u8>) -> Seq<u8> {
    cut_from(b, 0)
}

/// What is suspicious in the beginning of an archive is so in the whole.
proof fn lemma_suspicious_stays(b: Seq<u8>, n: int, at: int)
    requires
        0 <= n <= b.len(),
        block_at(b.take(n), at),
        suspicious(b.take(n), at),
    ensures
        block_at(b, at),
        suspicious(b, at),
        reached(b.take(n), at) == reached(b, at),
{
    let p = b.take(n);
    assert(p.subrange(at, at + BLOCK) =~= b.subrange(at, at + BLOCK));
    lemma_same_header(p, at, b, at);
    assert(p.take(at + BLOCK) =~= b.take(at + BLOCK));
    if resized(p, at) {
        let x = choose|x: int| #[trigger]
            block_at(p, x) && vast_extension(p, x) && described(p, x) == at;
        lemma_described_stays(b, n, x, at);
        assert(p.subrange(x, x + BLOCK) =~= b.subrange(x, x + BLOCK));
        lemma_same_header(p, x, b, x);
        let small = records_end(p, x);
        let end = records_end(b, x);
        lemma_declared(b, x);
        assert(small <= end && small <= n);
        let i = choose|i: int| x + BLOCK <= i && #[trigger] vast_record(p, i, small);
        let j = digits_from(p, i, small);
        let k = choose|k: int|
            j <= k <= small && #[trigger] decimals(p, j, k) && number(p, j, k) + BLOCK + p.len()
                > u64::MAX;
        lemma_same_number(p, b, j, k);
        assert(decimals(b, j, k)) by {
            assert forall|y: int| j <= y < k implies 0x30 <= #[trigger] b[y] <= 0x39 by {
                assert(p[y] == b[y]);
            }
        }
        if digits_from(b, i, end) != j {
            let m = digits_from(b, i, end);
            assert(j == i + 6 && m == i + 7);
            assert(i + 6 >= small);
            assert(k == j);
            assert(decimals(b, m, m));
            assert(number(b, m, m) == 0);
        }
        assert(says_vast(b, digits_from(b, i, end), end));
        assert(vast_record(b, i, end));
        assert(block_at(b, x) && vast_extension(b, x));
    }
}

proof fn lemma_described_stays(b: Seq<u8>, n: int, x: int, at: int)
    requires
        0 <= n <= b.len(),
        0 <= x,
        0 <= at,
        at + BLOCK <= n,
        long_sparse(b.take(n), at),
        described(b.take(n), x) == at,
    ensures
        described(b, x) == at,
    decreases bytes_after(b.take(n), x),
{
    let p = b.take(n);
    if block_at(p, x) {
        assert(p.subrange(x, x + BLOCK) =~= b.subrange(x, x + BLOCK));
        lemma_same_header(p, x, b, x);
        assert(p[x + 156] == b[x + 156]);
        if describing(p, x) && declared(p, x) >= 0 {
            lemma_described_stays(b, n, x + BLOCK + in_blocks(declared(p, x)), at);
        }
    } else {
        assert(x == at);
        assert(b[x + 156] == p[x + 156]);
    }
}

proof fn lemma_declared(b: Seq<u8>, at: int)
    ensures
        0 <= declared(b, at) <= u64::MAX,
{
    reveal(declared);
    lemma_before_zero(b, at + 124, 0);
    lemma_octal(b, at + 124, before_zero(b, at + 124, 0));
}

proof fn lemma_before_zero(b: Seq<u8>, from: int, i: nat)
    requires
        i <= 12,
    ensures
        i <= before_zero(b, from, i) <= 12,
    decreases 12 - i,
{
    if i < 12 && b[from + i] != 0 {
        lemma_before_zero(b, from, i + 1);
    }
}

proof fn lemma_same_number(a: Seq<u8>, b: Seq<u8>, j: int, k: int)
    requires
        0 <= j,
        k <= a.len() <= b.len(),
        a == b.take(a.len() as int),
    ensures
        number(a, j, k) == number(b, j, k),
    decreases k - j,
{
    if k > j {
        lemma_same_number(a, b, j, k - 1);
        assert(a[k - 1] == b[k - 1]);
    }
}

/// A beginning of which no header before its last block is one to stop at can
/// be counted.
proof fn lemma_beginning_is_countable(b: Seq<u8>, n: int)
    requires
        b.len() <= u64::MAX,
        0 <= n <= b.len(),
        forall|x: int| #[trigger]
            block_at(b, x) && x + 2 * BLOCK <= n && suspicious(b, x) ==> !reached(b, x),
    ensures
        countable(b.take(n)),
{
    let p = b.take(n);
    assert forall|x: int| #[trigger] block_at(p, x) && suspicious(p, x) implies !reached(p, x) by {
        lemma_suspicious_stays(b, n, x);
    }
}

/// Where nothing from `at` on is to stop at, nothing is cut off.
proof fn lemma_nothing_cut(b: Seq<u8>, at: int)
    requires
        0 <= at,
        at % BLOCK as int == 0,
        forall|x: int| #[trigger] block_at(b, x) && suspicious(b, x) ==> !reached(b, x),
    ensures
        cut_from(b, at) == b,
    decreases b.len() - at,
{
    if at + 2 * BLOCK <= b.len() {
        assert(block_at(b, at));
        lemma_nothing_cut(b, at + BLOCK);
    }
}

proof fn lemma_octal(b: Seq<u8>, from: int, n: nat)
    requires
        n <= 12,
    ensures
        octal(b, from, n) < 0x10_0000_0000,
        n < 12 ==> octal(b, from, n) < 0x2_0000_0000,
    decreases n,
{
    lemma_octal_below(b, from, n);
    reveal_with_fuel(eights, 13);
    if n < 12 {
        lemma_eights(n, 11);
    }
}

/// Eight to the power of `n`.
spec fn eights(n: nat) -> nat
    decreases n,
{
    if n == 0 {
        1
    } else {
        8 * eights((n - 1) as nat)
    }
}

proof fn lemma_eights(m: nat, n: nat)
    requires
        m <= n,
    ensures
        eights(m) <= eights(n),
    decreases n,
{
    if m < n {
        lemma_eights(m, (n - 1) as nat);
    }
}

proof fn lemma_octal_below(b: Seq<u8>, from: int, n: nat)
    ensures
        octal(b, from, n) < eights(n),
    decreases n,
{
    if n > 0 {
        lemma_octal_below(b, from, (n - 1) as nat);
    }
}

proof fn lemma_same_header(b: Seq<u8>, at: int, c: Seq<u8>, from: int)
    requires
        0 <= at,
        at + BLOCK <= b.len(),
        0 <= from,
        from + BLOCK <= c.len(),
        b.subrange(at, at + BLOCK) == c.subrange(from, from + BLOCK),
    ensures
        long_sparse(b, at) == long_sparse(c, from),
        resizing(b, at) == resizing(c, from),
        declared(b, at) == declared(c, from),
        tar_header(b, at) == tar_header(c, from),
{
    reveal(declared);
    let x = b.subrange(at, at + BLOCK);
    let y = c.subrange(from, from + BLOCK);
    assert forall|k: int| 0 <= k < BLOCK implies #[trigger] b[at + k] == c[from + k] by {
        assert(x[k] == b[at + k]);
        assert(y[k] == c[from + k]);
    }
    assert(b[at + 156] == c[from + 156]);
    assert(b[at + 257] == c[from + 257]);
    assert(b[at + 258] == c[from + 258]);
    assert(b[at + 259] == c[from + 259]);
    assert(b[at + 260] == c[from + 260]);
    assert(b[at + 261] == c[from + 261]);
    assert(b[at + 482] == c[from + 482]);
    assert(b[at + 124] == c[from + 124]);
    assert(b[at + 128] == c[from + 128]);
    assert(b[at + 129] == c[from + 129]);
    assert(b[at + 130] == c[from + 130]);
    assert(b[at + 131] == c[from + 131]);
    assert(b[at + 132] == c[from + 132]);
    assert(b[at + 133] == c[from + 133]);
    assert(b[at + 134] == c[from + 134]);
    assert(b[at + 135] == c[from + 135]);
    lemma_same_zero(b, at, c, from, 0);
    lemma_before_zero(b, at + 124, 0);
    lemma_same_octal(b, at, c, from, before_zero(b, at + 124, 0));
}

proof fn lemma_same_zero(b: Seq<u8>, at: int, c: Seq<u8>, from: int, i: nat)
    requires
        i <= 12,
        forall|k: int| 0 <= k < BLOCK ==> #[trigger] b[at + k] == c[from + k],
    ensures
        before_zero(b, at + 124, i) == before_zero(c, from + 124, i),
    decreases 12 - i,
{
    if i < 12 {
        assert(b[at + (124 + i)] == c[from + (124 + i)]);
        lemma_same_zero(b, at, c, from, i + 1);
    }
}

proof fn lemma_same_octal(b: Seq<u8>, at: int, c: Seq<u8>, from: int, n: nat)
    requires
        n <= 12,
        forall|k: int| 0 <= k < BLOCK ==> #[trigger] b[at + k] == c[from + k],
    ensures
        octal(b, at + 124, n) == octal(c, from + 124, n),
    decreases n,
{
    if n > 0 {
        lemma_same_octal(b, at, c, from, (n - 1) as nat);
        assert(b[at + (124 + n - 1)] == c[from + (124 + n - 1)]);
    }
}

fn is_header(b: &[u8], at: usize) -> (r: bool)
    requires
        at + BLOCK <= b@.len(),
    ensures
        r == tar_header(b@, at as int),
{
    proof {
        assert(b.len() == b@.len());
    }
    b[at + 257] == 0x75 && b[at + 258] == 0x73 && b[at + 259] == 0x74 && b[at + 260] == 0x61 && b[at
        + 261] == 0x72
}

fn octal_number(b: &[u8], from: usize) -> (r: u64)
    requires
        from + 12 <= b@.len(),
    ensures
        r == octal(b@, from as int, before_zero(b@, from as int, 0)),
{
    let mut v: u64 = 0;
    let mut n: usize = 0;
    proof {
        assert(b.len() == b@.len());
    }
    while n < 12 && b[from + n] != 0
        invariant
            b.len() == b@.len(),
            from + 12 <= b@.len(),
            n <= 12,
            v == octal(b@, from as int, n as nat),
            before_zero(b@, from as int, 0) == before_zero(b@, from as int, n as nat),
        decreases 12 - n,
    {
        let c = b[from + n];
        proof {
            lemma_octal(b@, from as int, n as nat);
            assert(from + (n + 1) - 1 == from + n);
        }
        if 0x30 <= c && c <= 0x37 {
            v = 8 * v + (c - 0x30) as u64;
        }
        n += 1;
    }
    v
}

fn declared_size(b: &[u8], at: usize) -> (r: u64)
    requires
        at + BLOCK <= b@.len(),
    ensures
        r == declared(b@, at as int),
{
    proof {
        reveal(declared);
        assert(b.len() == b@.len());
    }
    if b[at + 124] >= 0x80 {
        b[at + 128] as u64 * 0x100_0000_0000_0000 + b[at + 129] as u64 * 0x1_0000_0000_0000 + b[at
            + 130] as u64 * 0x100_0000_0000 + b[at + 131] as u64 * 0x1_0000_0000 + b[at
            + 132] as u64 * 0x100_0000 + b[at + 133] as u64 * 0x1_0000 + b[at + 134] as u64 * 0x100
            + b[at + 135] as u64
    } else {
        octal_number(b, at + 124)
    }
}

/// What the blocks of a tar stream have shown so far: whether a long sparse
/// member, whether an extension, and the largest size in whole blocks of a long
/// sparse member that ends where a `u64` can say.
struct Seen {
    long_sparse: bool,
    resizing: bool,
    widest: u64,
}

/// Whether a member's size in whole blocks is one to be seen.
spec fn wide(b: Seq<u8>, at: int) -> bool {
    long_sparse(b, at) && at + BLOCK + in_blocks(declared(b, at)) <= u64::MAX
}

/// Whether `seen` is what the first `n` bytes show.
spec fn shown(seen: Seen, b: Seq<u8>, n: int) -> bool {
    &&& seen.long_sparse == exists|at: int| #[trigger]
        block_at(b, at) && at + BLOCK <= n && long_sparse(b, at)
    &&& seen.resizing == exists|at: int| #[trigger]
        block_at(b, at) && at + BLOCK <= n && resizing(b, at)
    &&& forall|at: int| #[trigger]
        block_at(b, at) && at + BLOCK <= n && wide(b, at) ==> in_blocks(declared(b, at))
            <= seen.widest
    &&& seen.widest == 0 || exists|at: int| #[trigger]
        block_at(b, at) && at + BLOCK <= n && wide(b, at) && in_blocks(declared(b, at))
            == seen.widest
}

/// Look at the block that stands at `at` of `chunk` and at `place` of `all`.
fn see(seen: &mut Seen, chunk: &[u8], at: usize, place: u64, Ghost(all): Ghost<Seq<u8>>)
    requires
        at + BLOCK <= chunk@.len(),
        place + BLOCK <= u64::MAX,
        block_at(all, place as int),
        all.subrange(place as int, place + BLOCK) == chunk@.subrange(at as int, at + BLOCK),
        shown(*old(seen), all, place as int),
    ensures
        shown(*final(seen), all, place + BLOCK),
{
    let ghost before = *seen;
    proof {
        lemma_same_header(all, place as int, chunk@, at as int);
        assert(chunk.len() == chunk@.len());
    }
    if is_header(chunk, at) {
        if chunk[at + 156] == 0x53 && chunk[at + 482] == 1 {
            seen.long_sparse = true;
            let size = declared_size(chunk, at);
            let room: u64 = u64::MAX - place - BLOCK as u64;
            // The room is cut to whole blocks, as the size is filled up to them.
            if size <= room / 512 * 512 {
                let whole: u64 = (size + 511) / 512 * 512;
                if whole > seen.widest {
                    seen.widest = whole;
                }
            }
        }
        if chunk[at + 156] == 0x78 {
            seen.resizing = true;
        }
    }
    proof {
        assert forall|i: int| #[trigger] block_at(all, i) && i + BLOCK <= place + BLOCK implies i
            == place || i + BLOCK <= place by {
            assert(i % 512 == 0 && place % 512 == 0);
        }
        assert(block_at(all, place as int));
        if seen.widest == before.widest && seen.widest != 0 {
            let i = choose|i: int| #[trigger]
                block_at(all, i) && i + BLOCK <= place && wide(all, i) && in_blocks(
                    declared(all, i),
                ) == before.widest;
            assert(block_at(all, i));
        }
    }
}

proof fn lemma_shown(seen: Seen, b: Seq<u8>, n: int)
    requires
        shown(seen, b, n),
        n <= b.len() < n + BLOCK,
        n % BLOCK as int == 0,
        b.len() <= u64::MAX,
    ensures
        seen.long_sparse == has_long_sparse(b),
        seen.resizing == has_resizing(b),
        (seen.widest + b.len() > u64::MAX) == exists|at: int| #[trigger]
            block_at(b, at) && endless(b, at),
{
    assert forall|at: int| #[trigger] block_at(b, at) implies at + BLOCK <= n by {
        assert(at % 512 == 0 && n % 512 == 0);
    }
    if seen.widest + b.len() > u64::MAX {
        let at = choose|at: int| #[trigger]
            block_at(b, at) && at + BLOCK <= n && wide(b, at) && in_blocks(declared(b, at))
                == seen.widest;
        assert(block_at(b, at) && endless(b, at));
    }
}

/// More digits say no smaller a number.
proof fn lemma_number_grows(b: Seq<u8>, j: int, k: int, m: int)
    requires
        j <= k <= m,
        decimals(b, j, m),
    ensures
        0 <= number(b, j, k) <= number(b, j, m),
    decreases m - j,
{
    if m > j {
        assert(0x30 <= b[m - 1] <= 0x39);
        assert(decimals(b, j, m - 1));
        if k < m {
            lemma_number_grows(b, j, k, m - 1);
        } else {
            lemma_number_grows(b, j, m - 1, m - 1);
        }
    }
}

fn digits_say_vast(b: &[u8], j: usize, end: usize) -> (r: bool)
    requires
        j <= end <= b@.len(),
    ensures
        r == says_vast(b@, j as int, end as int),
{
    proof {
        assert(b.len() == b@.len());
    }
    let limit: u128 = u64::MAX as u128 - b.len() as u128;
    let mut v: u128 = 0;
    let mut k: usize = j;
    if BLOCK as u128 > limit {
        proof {
            assert(decimals(b@, j as int, j as int));
        }
        return true;
    }
    while k < end && 0x30 <= b[k] && b[k] <= 0x39
        invariant
            b.len() == b@.len(),
            limit == u64::MAX - b@.len(),
            j <= k <= end <= b@.len(),
            decimals(b@, j as int, k as int),
            v == number(b@, j as int, k as int),
            v + BLOCK <= limit,
        decreases end - k,
    {
        v = 10 * v + (b[k] - 0x30) as u128;
        k += 1;
        if v + BLOCK as u128 > limit {
            proof {
                assert(decimals(b@, j as int, k as int));
            }
            return true;
        }
    }
    proof {
        assert forall|m: int|
            j <= m <= end && #[trigger] decimals(b@, j as int, m) implies number(b@, j as int, m)
            + BLOCK + b@.len() <= u64::MAX by {
            if m > k {
                assert(0x30 <= b@[k as int] <= 0x39);
            }
            lemma_number_grows(b@, j as int, m, k as int);
        }
    }
    false
}

fn record_says_vast(b: &[u8], i: usize, end: usize) -> (r: bool)
    requires
        i <= end <= b@.len(),
    ensures
        r == vast_record(b@, i as int, end as int),
{
    proof {
        assert(b.len() == b@.len());
    }
    if end - i < 6 || !(b[i] == 0x20 && b[i + 1] == 0x73 && b[i + 2] == 0x69 && b[i + 3] == 0x7a
        && b[i + 4] == 0x65 && b[i + 5] == 0x3d) {
        return false;
    }
    if end - i > 6 && b[i + 6] == 0x2b {
        digits_say_vast(b, i + 7, end)
    } else {
        digits_say_vast(b, i + 6, end)
    }
}

fn extension_says_vast(b: &[u8], at: usize) -> (r: bool)
    requires
        at + BLOCK <= b@.len(),
    ensures
        r == vast_extension(b@, at as int),
{
    proof {
        assert(b.len() == b@.len());
    }
    if !(is_header(b, at) && b[at + 156] == 0x78) {
        return false;
    }
    let size = declared_size(b, at);
    let left: usize = b.len() - at - BLOCK;
    let end: usize = if size <= left as u64 {
        at + BLOCK + size as usize
    } else {
        b.len()
    };
    let mut i: usize = at + BLOCK;
    while i < end
        invariant
            at + BLOCK <= i,
            end <= b@.len(),
            end == records_end(b@, at as int),
            resizing(b@, at as int),
            i <= end,
            forall|x: int| at + BLOCK <= x < i ==> !#[trigger] vast_record(b@, x, end as int),
        decreases end - i,
    {
        if record_says_vast(b, i, end) {
            proof {
                assert(vast_record(b@, i as int, end as int));
            }
            return true;
        }
        i += 1;
    }
    proof {
        assert forall|x: int| at + BLOCK <= x implies !#[trigger] vast_record(
            b@,
            x,
            records_end(b@, at as int),
        ) by {
            if x < i {
                assert(!vast_record(b@, x, end as int));
            }
        }
    }
    false
}

fn some_extension_says_vast(b: &[u8]) -> (r: bool)
    ensures
        r == has_vast_extension(b@),
{
    let mut at: usize = 0;
    while b.len() - at >= BLOCK
        invariant
            at <= b@.len(),
            at % BLOCK == 0,
            forall|x: int| #[trigger]
                block_at(b@, x) && x + BLOCK <= at ==> !vast_extension(b@, x),
        decreases b@.len() - at,
    {
        if extension_says_vast(b, at) {
            proof {
                assert(block_at(b@, at as int));
            }
            return true;
        }
        proof {
            assert forall|x: int| #[trigger] block_at(b@, x) && x + BLOCK <= at + BLOCK implies x
                == at || x + BLOCK <= at by {
                assert(x % 512 == 0 && at % 512 == 0);
            }
        }
        at += BLOCK;
    }
    proof {
        assert forall|x: int| #[trigger] block_at(b@, x) implies x + BLOCK <= at by {
            assert(x % 512 == 0 && at % 512 == 0);
        }
    }
    false
}

fn described_at(b: &[u8], x: usize) -> (r: u128)
    requires
        x <= b@.len(),
        x % BLOCK == 0,
    ensures
        r == described(b@, x as int),
{
    let mut p: u128 = x as u128;
    proof {
        assert(b.len() == b@.len());
    }
    while p + BLOCK as u128 <= b.len() as u128
        invariant
            b.len() == b@.len(),
            p <= 2 * u64::MAX + 2048,
            p as int % BLOCK as int == 0,
            described(b@, x as int) == described(b@, p as int),
        decreases bytes_after(b@, p as int),
    {
        let at: usize = p as usize;
        if !(is_header(b, at) && (b[at + 156] == 0x78 || b[at + 156] == 0x67 || b[at + 156] == 0x4c
            || b[at + 156] == 0x4b)) {
            return p;
        }
        let size = declared_size(b, at);
        let whole: u128 = (size as u128 + 511) / 512 * 512;
        p = p + BLOCK as u128 + whole;
    }
    p
}

fn is_resized(b: &[u8], at: usize) -> (r: bool)
    ensures
        r == resized(b@, at as int),
{
    let mut x: usize = 0;
    while b.len() - x >= BLOCK
        invariant
            x <= b@.len(),
            x % BLOCK == 0,
            forall|y: int| #[trigger]
                block_at(b@, y) && y < x && vast_extension(b@, y) ==> described(b@, y) != at,
        decreases b@.len() - x,
    {
        if extension_says_vast(b, x) && described_at(b, x) == at as u128 {
            proof {
                assert(block_at(b@, x as int));
            }
            return true;
        }
        proof {
            assert forall|y: int| #[trigger] block_at(b@, y) && y < x + BLOCK implies y <= x by {
                assert(y % 512 == 0 && x % 512 == 0);
            }
        }
        x += BLOCK;
    }
    proof {
        assert forall|y: int| #[trigger] block_at(b@, y) implies y < x by {
            assert(y % 512 == 0 && x % 512 == 0);
        }
    }
    false
}

fn is_endless(b: &[u8], at: usize) -> (r: bool)
    requires
        at + BLOCK <= b@.len(),
        long_sparse(b@, at as int),
    ensures
        r == endless(b@, at as int),
{
    let size = declared_size(b, at);
    let whole: u128 = (size as u128 + 511) / 512 * 512;
    at as u128 + BLOCK as u128 + whole <= u64::MAX as u128 && whole + b.len() as u128
        > u64::MAX as u128
}

fn is_cut_short(members: &Members) -> (r: bool)
    ensures
        r == map_cut_short(members_view(*members)),
{
    match members {
        Err(_) => false,
        Ok(ms) => {
            let n: usize = ms.len();
            if n == 0 {
                return false;
            }
            proof {
                let all = members_view(*members)->Ok_0;
                assert(all.last() == member_view(ms@[n - 1]));
            }
            match &ms[n - 1] {
                Ok(_) => false,
                Err(e) => same(e.as_str(), "failed to read extension"),
            }
        },
    }
}

/// How much of a tar archive a walk can count.
fn tar_cut(bytes: &[u8]) -> (r: usize)
    ensures
        r <= bytes@.len(),
        bytes@.take(r as int) == cut(bytes@),
        countable(bytes@.take(r as int)),
{
    proof {
        assert(bytes.len() == bytes@.len());
    }
    let vast = some_extension_says_vast(bytes);
    let mut at: usize = 0;
    while bytes.len() - at >= 2 * BLOCK
        invariant
            bytes.len() == bytes@.len(),
            vast == has_vast_extension(bytes@),
            at <= bytes@.len(),
            at % BLOCK == 0,
            cut(bytes@) == cut_from(bytes@, at as int),
            forall|x: int| #[trigger]
                block_at(bytes@, x) && x < at && suspicious(bytes@, x) ==> !reached(bytes@, x),
        decreases bytes@.len() - at,
    {
        if is_header(bytes, at) && bytes[at + 156] == 0x53 && bytes[at + 482] == 1 && (is_endless(
            bytes,
            at,
        ) || (vast && is_resized(bytes, at))) {
            proof {
                lemma_beginning_is_countable(bytes@, at + BLOCK);
                assert(bytes@.subrange(0, at + BLOCK) =~= bytes@.take(at + BLOCK));
            }
            let members = tar_entries(slice_subrange(bytes, 0, at + BLOCK));
            if is_cut_short(&members) {
                return at + BLOCK;
            }
        }
        proof {
            assert forall|x: int| #[trigger] block_at(bytes@, x) && x < at + BLOCK implies x <= at by {
                assert(x % 512 == 0 && at % 512 == 0);
            }
        }
        at += BLOCK;
    }
    proof {
        let all = bytes@;
        assert(all.take(all.len() as int) =~= all);
        assert forall|x: int| #[trigger] block_at(all, x) && suspicious(all, x) implies !reached(
            all,
            x,
        ) by {
            assert(x % 512 == 0 && at % 512 == 0);
        }
    }
    bytes.len()
}

/// A gzip decoder of the `flate2` crate.
#[verifier::external_type_specification]
#[verifier::external_body]
#[verifier::reject_recursive_types(R)]
pub struct ExGzDecoder<R>(flate2::read::GzDecoder<R>);

/// What `flate2::read::GzDecoder` unpacks of these bytes, read block by block
/// until it ends or fails.
pub uninterp spec fn gz_unpacked(bytes: Seq<u8>) -> Seq<u8>;

/// What is left to be read of a decoder, block by block.
pub uninterp spec fn gz_left(decoder: flate2::read::GzDecoder<&[u8]>) -> Seq<u8>;

/// `flate2::read::GzDecoder::new` on the bytes. Claimed: what is left to be read
/// of it depends on the bytes alone.
#[verifier::external_body]
fn open_gz<'a>(bytes: &'a [u8]) -> (r: flate2::read::GzDecoder<&'a [u8]>)
    ensures
        gz_left(r) == gz_unpacked(bytes@),
{
    flate2::read::GzDecoder::new(bytes)
}

/// `flate2::read::GzDecoder`'s `read`, through `take` and `read_to_end`: the next
/// block, or less where the stream ends or fails first. The limit is always one
/// block, since how much comes before a failure may turn on how much is asked
/// for at once.
#[verifier::external_body]
fn read_gz(decoder: &mut flate2::read::GzDecoder<&[u8]>, limit: u64) -> (r: Vec<u8>)
    requires
        limit == BLOCK,
    ensures
        r@ == if gz_left(*old(decoder)).len() <= limit {
            gz_left(*old(decoder))
        } else {
            gz_left(*old(decoder)).take(limit as int)
        },
        r@.len() == limit ==> gz_left(*final(decoder)) == gz_left(*old(decoder)).skip(
            limit as int,
        ),
{
    let mut out = Vec::new();
    let _ = decoder.take(limit).read_to_end(&mut out);
    out
}

/// What a gzip stream unpacks to.
fn unpack(bytes: &[u8]) -> (r: Vec<u8>)
    ensures
        r@ == gz_unpacked(bytes@),
{
    let ghost all = gz_unpacked(bytes@);
    let mut out: Vec<u8> = Vec::new();
    let mut decoder = open_gz(bytes);
    proof {
        assert(all.skip(0) =~= all);
        assert(out@ =~= all.take(0));
    }
    loop
        invariant
            all == gz_unpacked(bytes@),
            out@.len() <= all.len(),
            out@ == all.take(out@.len() as int),
            gz_left(decoder) == all.skip(out@.len() as int),
        decreases all.len() - out@.len(),
    {
        let ghost n = out@.len() as int;
        let mut block = read_gz(&mut decoder, BLOCK as u64);
        let whole = block.len() == BLOCK;
        let ghost more = block@;
        out.append(&mut block);
        if !whole {
            proof {
                assert(out@ =~= all.take(n) + more);
                assert(out@ =~= all);
            }
            return out;
        }
        proof {
            assert(out@ =~= all.take(n + BLOCK));
            assert(all.skip(n).skip(BLOCK as int) =~= all.skip(n + BLOCK));
        }
    }
}

/// What a first look at a gzipped tar archive shows.
enum Glance {
    /// The walk over it can count every member's end.
    Plain,
    /// It has to be looked at whole.
    Doubtful,
    /// It unpacks to more than can be counted.
    Endless,
}

/// Look at a gzipped tar archive. The stream is unpacked a block at a time, and
/// no more of it is kept.
fn glance(bytes: &[u8]) -> (r: Glance)
    ensures
        match r {
            Glance::Plain => gz_unpacked(bytes@).len() <= u64::MAX && cut(gz_unpacked(bytes@))
                == gz_unpacked(bytes@) && countable(gz_unpacked(bytes@)),
            Glance::Doubtful => gz_unpacked(bytes@).len() <= u64::MAX,
            Glance::Endless => gz_unpacked(bytes@).len() > u64::MAX,
        },
{
    let ghost all = gz_unpacked(bytes@);
    let mut n: u64 = 0;
    let mut decoder = open_gz(bytes);
    let mut seen = Seen { long_sparse: false, resizing: false, widest: 0 };
    proof {
        assert(all.skip(0) =~= all);
    }
    loop
        invariant
            all == gz_unpacked(bytes@),
            n <= all.len(),
            n as int % BLOCK as int == 0,
            gz_left(decoder) == all.skip(n as int),
            shown(seen, all, n as int),
        decreases all.len() - n,
    {
        let block = read_gz(&mut decoder, BLOCK as u64);
        if block.len() as u64 > u64::MAX - n {
            return Glance::Endless;
        }
        if block.len() < BLOCK {
            let length: u64 = n + block.len() as u64;
            proof {
                assert(length == all.len());
                lemma_shown(seen, all, n as int);
            }
            if seen.widest > u64::MAX - length || (seen.long_sparse && seen.resizing) {
                return Glance::Doubtful;
            }
            proof {
                lemma_nothing_cut(all, 0);
            }
            return Glance::Plain;
        }
        proof {
            assert(block@.subrange(0, BLOCK as int) =~= all.subrange(n as int, n + BLOCK));
            assert(all.skip(n as int).skip(BLOCK as int) =~= all.skip(n + BLOCK));
        }
        see(&mut seen, block.as_slice(), 0, n, Ghost(all));
        n += BLOCK as u64;
    }
}

/// `tar::Archive::entries` on the bytes, with each entry's `path`, `size` and
/// type. Claimed: the members, and what is said of those that cannot be read,
/// depend on the bytes alone. The archive must be countable, since the walk adds
/// up where members end: a header that would take the sum beyond a `u64` must be
/// one that it does not read. Where it does read it, the walk over the archive
/// cut off behind it ends by saying that the map could not be read on.
#[verifier::external_body]
fn tar_entries(bytes: &[u8]) -> (r: Members)
    requires
        countable(bytes@),
    ensures
        members_view(r) == tar_members(bytes@),
{
    let mut archive = tar::Archive::new(bytes);
    let members = archive.entries().map_err(|e| e.to_string())?.map(|m| {
        let m = m.map_err(|e| e.to_string())?;
        let name = m.path().map_err(|e| e.to_string())?.display().to_string();
        Ok(Entry { name, size: m.size(), is_dir: m.header().entry_type().is_dir() })
    });
    Ok(members.collect())
}

/// The entry that `tar::Archive::entries` hands out at a place, read through
/// `take`. Claimed: its first `limit` bytes depend on the archive's bytes, the
/// place and the limit alone. The archive must be countable, as for
/// `tar_entries`.
#[verifier::external_body]
fn tar_bytes(bytes: &[u8], at: usize, limit: u64) -> (r: Option<Result<Vec<u8>, String>>)
    requires
        countable(bytes@),
    ensures
        content_view(r) == tar_content(bytes@, at, limit),
{
    let mut archive = tar::Archive::new(bytes);
    let mut members = match archive.entries() {
        Ok(members) => members,
        Err(e) => return Some(Err(e.to_string())),
    };
    let mut out = Vec::new();
    let read = members.nth(at)?.and_then(|m| m.take(limit).read_to_end(&mut out));
    Some(read.map(|_| out).map_err(|e| e.to_string()))
}

/// `tar::Archive::entries` on `flate2::read::GzDecoder` over the bytes, with
/// each entry's `path`, `size` and type. Claimed: the members, and what is said
/// of those that cannot be read, depend on the bytes alone. The archive must
/// be countable, as for `tar_entries`.
#[verifier::external_body]
fn targz_entries(bytes: &[u8]) -> (r: Members)
    requires
        countable(gz_unpacked(bytes@)),
    ensures
        members_view(r) == targz_members(bytes@),
{
    let mut archive = tar::Archive::new(flate2::read::GzDecoder::new(bytes));
    let members = archive.entries().map_err(|e| e.to_string())?.map(|m| {
        let m = m.map_err(|e| e.to_string())?;
        let name = m.path().map_err(|e| e.to_string())?.display().to_string();
        Ok(Entry { name, size: m.size(), is_dir: m.header().entry_type().is_dir() })
    });
    Ok(members.collect())
}

/// The entry that `tar::Archive::entries` hands out at a place, on
/// `flate2::read::GzDecoder` over the bytes and read through `take`. Claimed:
/// its first `limit` bytes depend on the archive's bytes, the place and the
/// limit alone. The archive must be countable, as for `tar_entries`.
#[verifier::external_body]
fn targz_bytes(bytes: &[u8], at: usize, limit: u64) -> (r: Option<Result<Vec<u8>, String>>)
    requires
        countable(gz_unpacked(bytes@)),
    ensures
        content_view(r) == targz_content(bytes@, at, limit),
{
    let mut archive = tar::Archive::new(flate2::read::GzDecoder::new(bytes));
    let mut members = match archive.entries() {
        Ok(members) => members,
        Err(e) => return Some(Err(e.to_string())),
    };
    let mut out = Vec::new();
    let read = members.nth(at)?.and_then(|m| m.take(limit).read_to_end(&mut out));
    Some(read.map(|_| out).map_err(|e| e.to_string()))
}

/// What is said of an archive that unpacks to more than can be counted.
pub open spec fn beyond_count() -> Seq<char> {
    "the unpacked archive is longer than can be counted"@
}

/// A tar archive as it is walked: as it is, or unpacked and cut off.
enum Walk {
    Cut(Vec<u8>),
    Gzipped,
    Endless,
}

/// Whether a gzipped archive is walked as it is.
pub open spec fn whole_gz(bytes: Seq<u8>) -> bool {
    cut(gz_unpacked(bytes)) == gz_unpacked(bytes)
}

/// How a gzipped tar archive is walked.
fn walk_of(bytes: &[u8]) -> (r: Walk)
    ensures
        match r {
            Walk::Endless => gz_unpacked(bytes@).len() > u64::MAX,
            Walk::Gzipped => gz_unpacked(bytes@).len() <= u64::MAX && whole_gz(bytes@) && countable(
                gz_unpacked(bytes@),
            ),
            Walk::Cut(part) => gz_unpacked(bytes@).len() <= u64::MAX && !whole_gz(bytes@) && part@
                == cut(gz_unpacked(bytes@)) && countable(part@),
        },
{
    match glance(bytes) {
        Glance::Plain => Walk::Gzipped,
        Glance::Endless => Walk::Endless,
        Glance::Doubtful => {
            let mut whole = unpack(bytes);
            let ghost all = whole@;
            let n = tar_cut(whole.as_slice());
            proof {
                assert(all.take(all.len() as int) =~= all);
            }
            if n == whole.len() {
                return Walk::Gzipped;
            }
            whole.truncate(n);
            proof {
                assert(whole@ =~= all.take(n as int));
            }
            Walk::Cut(whole)
        },
    }
}

/// The members of an archive of a kind.
pub open spec fn members_in(kind: Kind, bytes: Seq<u8>) -> MembersView {
    match kind {
        Kind::Zip => zip_members(bytes),
        Kind::Tar => tar_members(cut(bytes)),
        Kind::TarGz => if gz_unpacked(bytes).len() > u64::MAX {
            Err(beyond_count())
        } else if whole_gz(bytes) {
            targz_members(bytes)
        } else {
            tar_members(cut(gz_unpacked(bytes)))
        },
    }
}

/// The members of an archive of a kind.
fn members_of(kind: Kind, bytes: &[u8]) -> (r: Members)
    ensures
        members_view(r) == members_in(kind, bytes@),
{
    match kind {
        Kind::Zip => zip_entries(bytes),
        Kind::Tar => {
            let n = tar_cut(bytes);
            proof {
                assert(bytes@.subrange(0, n as int) =~= bytes@.take(n as int));
            }
            tar_entries(slice_subrange(bytes, 0, n))
        },
        Kind::TarGz => match walk_of(bytes) {
            Walk::Endless => Err("the unpacked archive is longer than can be counted".to_owned()),
            Walk::Gzipped => targz_entries(bytes),
            Walk::Cut(part) => tar_entries(part.as_slice()),
        },
    }
}

/// The members before the first that could not be read.
pub open spec fn readable(ms: Seq<Result<EntryView, Seq<char>>>) -> Result<
    Seq<EntryView>,
    Seq<char>,
>
    decreases ms.len(),
{
    if ms.len() == 0 {
        Ok(Seq::empty())
    } else {
        match (readable(ms.drop_last()), ms.last()) {
            (Err(e), _) => Err(e),
            (Ok(_), Err(e)) => Err(e),
            (Ok(es), Ok(e)) => Ok(es.push(e)),
        }
    }
}

/// What listing an archive shows, by its members: one that cannot be read fails
/// the listing.
pub open spec fn listed(path: Seq<char>, kind: Kind, members: MembersView) -> Result<
    Seq<char>,
    ToolErrorView,
> {
    match members {
        Err(e) => Err(broken(path, e)),
        Ok(ms) => match readable(ms) {
            Err(e) => Err(broken(path, e)),
            Ok(es) => Ok(listing(path, kind, es)),
        },
    }
}

/// A failure among the first members fails all.
proof fn lemma_failure_stays(ms: Seq<Result<EntryView, Seq<char>>>, n: int)
    requires
        0 <= n <= ms.len(),
        readable(ms.take(n)) is Err,
    ensures
        readable(ms) == readable(ms.take(n)),
    decreases ms.len() - n,
{
    if n == ms.len() {
        assert(ms.take(n) =~= ms);
    } else {
        lemma_step(ms, n);
        lemma_failure_stays(ms, n + 1);
    }
}

/// What listing an archive shows, by its members.
pub fn list_members(path: &str, kind: Kind, members: &Members) -> (r: Result<String, ToolError>)
    ensures
        tool_outcome(r) == listed(path@, kind, members_view(*members)),
{
    let ms = match members {
        Err(e) => {
            return Err(arch_err(path, e.as_str()));
        },
        Ok(ms) => ms,
    };
    let ghost all = members_view(*members)->Ok_0;
    let mut entries: Vec<Entry> = Vec::new();
    let mut i: usize = 0;
    proof {
        assert(views(entries@) =~= Seq::<EntryView>::empty());
    }
    while i < ms.len()
        invariant
            all == ms@.map_values(|m: Result<Entry, String>| member_view(m)),
            members_view(*members) == Ok::<Seq<Result<EntryView, Seq<char>>>, Seq<char>>(all),
            i <= ms@.len(),
            readable(all.take(i as int)) == Ok::<Seq<EntryView>, Seq<char>>(views(entries@)),
        decreases ms@.len() - i,
    {
        let ghost before = views(entries@);
        proof {
            lemma_step(all, i as int);
            assert(all[i as int] == member_view(ms@[i as int]));
        }
        match &ms[i] {
            Err(e) => {
                proof {
                    lemma_failure_stays(all, i + 1);
                }
                return Err(arch_err(path, e.as_str()));
            },
            Ok(e) => {
                let entry = Entry { name: e.name.clone(), size: e.size, is_dir: e.is_dir };
                entries.push(entry);
                proof {
                    assert(views(entries@) =~= before.push(e@));
                }
            },
        }
        i += 1;
    }
    proof {
        assert(all.take(i as int) =~= all);
    }
    Ok(render(path, kind, &entries))
}

/// The listing of an archive.
pub fn list(path: &str, kind: Kind, bytes: &[u8]) -> (r: Result<String, ToolError>)
    ensures
        tool_outcome(r) == listed(path@, kind, members_in(kind, bytes@)),
{
    let members = members_of(kind, bytes);
    list_members(path, kind, &members)
}

// ── One member ──────────────────────────────────────────────────────────────

/// The place of the first member from `from` on that has the name or could not
/// be read.
pub open spec fn stop_at(
    ms: Seq<Result<EntryView, Seq<char>>>,
    entry: Seq<char>,
    from: int,
) -> Option<int>
    decreases ms.len() - from,
{
    if from < 0 || from >= ms.len() {
        None
    } else if ms[from] is Err || ms[from]->Ok_0.name == entry {
        Some(from)
    } else {
        stop_at(ms, entry, from + 1)
    }
}

/// Where a member of a name is: its place, why the search ended before it, or
/// nothing where there is none.
pub open spec fn place_of(members: MembersView, entry: Seq<char>) -> Option<
    Result<int, Seq<char>>,
> {
    match members {
        Err(e) => Some(Err(e)),
        Ok(ms) => match stop_at(ms, entry, 0) {
            None => None,
            Some(i) => match ms[i] {
                Err(e) => Some(Err(e)),
                Ok(_) => Some(Ok(i)),
            },
        },
    }
}

/// The place of the first member of a name. The name must match exactly, and a
/// member before it that could not be read ends the search.
pub fn find_member(members: &Members, entry: &str) -> (r: Option<Result<usize, String>>)
    ensures
        match r {
            Some(Ok(i)) => place_of(members_view(*members), entry@) == Some(
                Ok::<int, Seq<char>>(i as int),
            ),
            Some(Err(e)) => place_of(members_view(*members), entry@) == Some(
                Err::<int, Seq<char>>(e@),
            ),
            None => place_of(members_view(*members), entry@) is None,
        },
{
    let ms = match members {
        Err(e) => {
            return Some(Err(e.clone()));
        },
        Ok(ms) => ms,
    };
    let ghost all = members_view(*members)->Ok_0;
    let mut i: usize = 0;
    while i < ms.len()
        invariant
            all == ms@.map_values(|m: Result<Entry, String>| member_view(m)),
            members_view(*members) == Ok::<Seq<Result<EntryView, Seq<char>>>, Seq<char>>(all),
            i <= ms@.len(),
            stop_at(all, entry@, 0) == stop_at(all, entry@, i as int),
        decreases ms@.len() - i,
    {
        proof {
            assert(all[i as int] == member_view(ms@[i as int]));
        }
        match &ms[i] {
            Err(e) => {
                return Some(Err(e.clone()));
            },
            Ok(e) => {
                if same(e.name.as_str(), entry) {
                    return Some(Ok(i));
                }
            },
        }
        i += 1;
    }
    None
}

/// What a member's content is within the cap.
pub open spec fn capped(
    path: Seq<char>,
    entry: Seq<char>,
    content: Option<Result<Seq<u8>, Seq<char>>>,
) -> Result<(Seq<u8>, bool), ToolErrorView> {
    match content {
        None => Err(miss(path, entry)),
        Some(Err(e)) => Err(broken(path, e)),
        Some(Ok(bytes)) => Ok(clipped_to_cap(bytes)),
    }
}

/// One byte past the cap: as much as is ever unpacked of a member.
pub const READ_LIMIT: u64 = 262_145;

/// A member of an archive, by its name.
pub open spec fn extracted(path: Seq<char>, kind: Kind, bytes: Seq<u8>, entry: Seq<char>) -> Result<
    (Seq<u8>, bool),
    ToolErrorView,
> {
    match kind {
        Kind::Zip => capped(path, entry, zip_content(bytes, entry, READ_LIMIT)),
        _ => match place_of(members_in(kind, bytes), entry) {
            None => Err(miss(path, entry)),
            Some(Err(e)) => Err(broken(path, e)),
            Some(Ok(i)) => capped(path, entry, content_in(kind, bytes, i as usize)),
        },
    }
}

/// The content of the member of a tar archive at a place.
pub open spec fn content_in(kind: Kind, bytes: Seq<u8>, at: usize) -> Option<
    Result<Seq<u8>, Seq<char>>,
> {
    if kind == Kind::Tar {
        tar_content(cut(bytes), at, READ_LIMIT)
    } else if whole_gz(bytes) {
        targz_content(bytes, at, READ_LIMIT)
    } else {
        tar_content(cut(gz_unpacked(bytes)), at, READ_LIMIT)
    }
}

/// An extraction's outcome, as a value.
pub open spec fn extraction(r: Result<(Vec<u8>, bool), ToolError>) -> Result<
    (Seq<u8>, bool),
    ToolErrorView,
> {
    match r {
        Ok(v) => Ok((v.0@, v.1)),
        Err(e) => Err(e@),
    }
}

/// What a member's content is within the cap.
pub fn cap_content(path: &str, entry: &str, content: Option<Result<Vec<u8>, String>>) -> (r: Result<
    (Vec<u8>, bool),
    ToolError,
>)
    ensures
        extraction(r) == capped(path@, entry@, content_view(content)),
{
    match content {
        None => Err(missing(path, entry)),
        Some(Err(e)) => Err(arch_err(path, e.as_str())),
        Some(Ok(bytes)) => Ok(clip(bytes)),
    }
}

/// Extract one member's bytes, within the cap. The name must match a listed
/// entry; a miss says so rather than guessing.
pub fn read_entry(path: &str, kind: Kind, bytes: &[u8], entry: &str) -> (r: Result<
    (Vec<u8>, bool),
    ToolError,
>)
    ensures
        extraction(r) == extracted(path@, kind, bytes@, entry@),
{
    match kind {
        Kind::Zip => cap_content(path, entry, zip_bytes(bytes, entry, READ_LIMIT)),
        Kind::Tar => {
            let n = tar_cut(bytes);
            proof {
                assert(bytes@.subrange(0, n as int) =~= bytes@.take(n as int));
            }
            read_tar(path, slice_subrange(bytes, 0, n), entry)
        },
        Kind::TarGz => match walk_of(bytes) {
            Walk::Endless => Err(
                arch_err(path, "the unpacked archive is longer than can be counted"),
            ),
            Walk::Cut(part) => read_tar(path, part.as_slice(), entry),
            Walk::Gzipped => {
                let members = targz_entries(bytes);
                match find_member(&members, entry) {
                    None => Err(missing(path, entry)),
                    Some(Err(e)) => Err(arch_err(path, e.as_str())),
                    Some(Ok(i)) => cap_content(path, entry, targz_bytes(bytes, i, READ_LIMIT)),
                }
            },
        },
    }
}

fn read_tar(path: &str, bytes: &[u8], entry: &str) -> (r: Result<(Vec<u8>, bool), ToolError>)
    requires
        countable(bytes@),
    ensures
        extraction(r) == (match place_of(tar_members(bytes@), entry@) {
            None => Err(miss(path@, entry@)),
            Some(Err(e)) => Err(broken(path@, e)),
            Some(Ok(i)) => capped(path@, entry@, tar_content(bytes@, i as usize, READ_LIMIT)),
        }),
{
    let members = tar_entries(bytes);
    match find_member(&members, entry) {
        None => Err(missing(path, entry)),
        Some(Err(e)) => Err(arch_err(path, e.as_str())),
        Some(Ok(i)) => cap_content(path, entry, tar_bytes(bytes, i, READ_LIMIT)),
    }
}

/// An archive without a long sparse member is walked as it is.
pub proof fn law_ordinary_archive_is_walked_whole(bytes: Seq<u8>)
    ensures
        !has_long_sparse(bytes) ==> members_in(Kind::Tar, bytes) == tar_members(bytes),
        !has_long_sparse(gz_unpacked(bytes)) && gz_unpacked(bytes).len() <= u64::MAX
            ==> members_in(Kind::TarGz, bytes) == targz_members(bytes),
{
    if !has_long_sparse(bytes) {
        lemma_nothing_cut(bytes, 0);
    }
    if !has_long_sparse(gz_unpacked(bytes)) {
        lemma_nothing_cut(gz_unpacked(bytes), 0);
    }
}

/// What is extracted fits the cap, and whatever does not fill it is whole.
pub proof fn law_extraction_is_capped(
    path: Seq<char>,
    kind: Kind,
    bytes: Seq<u8>,
    entry: Seq<char>,
)
    ensures
        extracted(path, kind, bytes, entry) matches Ok(v) ==> v.0.len() <= MAX_ENTRY_BYTES && (
        v.0.len() < MAX_ENTRY_BYTES ==> !v.1),
{
}

} // verus!
