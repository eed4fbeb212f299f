//! What holds of anchors and edits as a whole.
use vstd::prelude::*;

use super::ToolErrorView;
use super::fs::{
    after, anchor_of, apart, edit_result, exact_edit, hash_of, hashes_of, hunk_splice, hunk_splices,
    in_order, is_hexdigit, lemma_first_occurrence, lemma_no_occurrence, lemma_places, lower,
    moved_note, patched, places, replaced_at, resolution, splice_place, within_file, AnchorView,
    EditedView, SpliceView,
};
use crate::hash::{hex_digit, sha256_of};
use crate::json::JsonView;
use crate::text::{
    dec, find_from, find_text_from, join, lemma_decimal_reads_back, lemma_find_from,
    lemma_find_text_from, lines, number_of, split, stands_at,
};

verus! {

/// The anchor that a read shows for line `n` (from one) with this content.
pub open spec fn shown_anchor(n: nat, line: Seq<char>) -> Seq<char> {
    dec(n) + "#"@ + hash_of(line)
}

proof fn lemma_hash_digits(line: Seq<char>)
    ensures
        hash_of(line).len() == 4,
        forall|i: int| 0 <= i < 4 ==> is_hexdigit(#[trigger] hash_of(line)[i]),
        hash_of(line).map_values(|c: char| lower(c)) == hash_of(line),
{
    let digest = sha256_of(vstd::utf8::encode_utf8(line));
    let h = hash_of(line);
    let x = digest[0] as int;
    let y = digest[1] as int;
    assert(0 <= x / 16 < 16 && 0 <= x % 16 < 16);
    assert(0 <= y / 16 < 16 && 0 <= y % 16 < 16);
    assert(h =~= seq![hex_digit(x / 16), hex_digit(x % 16), hex_digit(y / 16), hex_digit(y % 16)]);
    assert forall|i: int| 0 <= i < 4 implies is_hexdigit(#[trigger] h[i]) && lower(h[i])
        == h[i] by {}
    assert(h.map_values(|c: char| lower(c)) =~= h);
}

/// The token a read shows for a line is an anchor, and while the line stays
/// where it is the anchor leads back to it, unmoved.
pub proof fn law_shown_anchor_leads_back(ls: Seq<Seq<char>>, i: int)
    requires
        0 <= i < ls.len(),
        ls.len() <= u64::MAX,
    ensures
        anchor_of(shown_anchor((i + 1) as nat, ls[i])) == Some(
            AnchorView { line: i + 1, hash: hash_of(ls[i]) },
        ),
        resolution(ls, hashes_of(ls), AnchorView { line: i + 1, hash: hash_of(ls[i]) }) == Ok::<
            (int, bool),
            ToolErrorView,
        >((i, false)),
{
    let n = (i + 1) as nat;
    let line = ls[i];
    let raw = shown_anchor(n, line);
    let digits = dec(n);
    lemma_decimal_reads_back(n);
    lemma_hash_digits(line);
    lemma_find_from(raw, '#', 0);
    reveal_strlit("#");
    reveal_strlit("0");
    let k = find_from(raw, '#', 0);
    assert(raw[digits.len() as int] == '#');
    assert forall|j: int| 0 <= j < digits.len() implies raw[j] != '#' by {
        assert(raw[j] == digits[j]);
    }
    assert(k == digits.len());
    assert(raw.take(k) =~= digits);
    assert(raw.skip(k + 1) =~= hash_of(line));
    assert(raw.len() == digits.len() + 5);
    assert(raw != "0"@);
    assert(digits[0] != '+');
    assert(number_of(digits) == Some(n as int));
}

/// An anchor never leads to a line with other content: where it resolves, the
/// line has the anchor's hash, and where it was followed there, no other line
/// has it.
pub proof fn law_anchors_never_misapply(
    ls: Seq<Seq<char>>,
    a: AnchorView,
    k: int,
    moved: bool,
)
    requires
        resolution(ls, hashes_of(ls), a) == Ok::<(int, bool), ToolErrorView>((k, moved)),
    ensures
        0 <= k < ls.len(),
        hash_of(ls[k]) == a.hash,
        !moved ==> k == a.line - 1,
        moved ==> forall|j: int| 0 <= j < ls.len() && j != k ==> hash_of(#[trigger] ls[j]) != a.hash,
{
    let hashes = hashes_of(ls);
    lemma_places(hashes, a.hash);
    if moved {
        let ps = places(hashes, a.hash);
        assert(ps[0] == k);
        assert forall|j: int| 0 <= j < ls.len() && j != k implies hash_of(#[trigger] ls[j])
            != a.hash by {
            if hashes[j] == a.hash {
                assert(ps.contains(j));
            }
        }
    }
}

/// How far splices move the line that stood at `i`.
pub open spec fn shift(ss: Seq<SpliceView>, i: int) -> int
    decreases ss.len(),
{
    if ss.len() == 0 || ss[0].end > i {
        0
    } else {
        ss[0].content.len() - (ss[0].end - ss[0].start) + shift(ss.drop_first(), i)
    }
}

/// Whether no splice takes out line `i`.
pub open spec fn untouched(ss: Seq<SpliceView>, i: int) -> bool {
    forall|k: int| 0 <= k < ss.len() ==> !((#[trigger] ss[k]).start <= i < ss[k].end)
}

/// The splices that are left once the first is done.
proof fn lemma_rest(ss: Seq<SpliceView>, len: int)
    requires
        ss.len() > 0,
        apart(ss),
        within_file(ss, len),
    ensures
        apart(ss.drop_first()),
        within_file(ss.drop_first(), len),
        ss.len() > 1 ==> ss[0].end <= ss[1].start,
{
    let rest = ss.drop_first();
    assert forall|i: int, j: int| 0 <= i && j == i + 1 && j < rest.len() implies (
    #[trigger] rest[i]).end <= (#[trigger] rest[j]).start && rest[i].start != rest[j].start by {
        assert(rest[i] == ss[i + 1]);
        assert(rest[j] == ss[j + 1]);
    }
    assert forall|i: int| 0 <= i < rest.len() implies 0 <= (#[trigger] rest[i]).start
        <= rest[i].end <= len by {
        assert(rest[i] == ss[i + 1]);
    }
}

proof fn lemma_untouched_from(
    ls: Seq<Seq<char>>,
    ss: Seq<SpliceView>,
    from: int,
    i: int,
)
    requires
        apart(ss),
        within_file(ss, ls.len() as int),
        0 <= from <= i < ls.len(),
        ss.len() > 0 ==> from <= ss[0].start,
        untouched(ss, i),
    ensures
        0 <= i - from + shift(ss, i) < patched(ls, ss, from).len(),
        patched(ls, ss, from)[i - from + shift(ss, i)] == ls[i],
    decreases ss.len(),
{
    if ss.len() > 0 {
        let first = ss[0];
        let rest = ss.drop_first();
        lemma_rest(ss, ls.len() as int);
        let tail = patched(ls, rest, first.end);
        if i < first.start {
            assert(patched(ls, ss, from)[i - from] == ls[i]);
        } else {
            assert(!(first.start <= i < first.end));
            assert(untouched(rest, i)) by {
                assert forall|k: int| 0 <= k < rest.len() implies !((#[trigger] rest[k]).start <= i
                    < rest[k].end) by {
                    assert(rest[k] == ss[k + 1]);
                }
            }
            lemma_untouched_from(ls, rest, first.end, i);
            let at = i - first.end + shift(rest, i);
            assert(patched(ls, ss, from)[(first.start - from) + first.content.len() + at]
                == tail[at]);
        }
    }
}

/// A patch changes the lines its hunks name and no others: every line that no
/// hunk takes out is still there, moved by what the hunks above it added and
/// took away.
pub proof fn law_patch_keeps_other_lines(ls: Seq<Seq<char>>, ss: Seq<SpliceView>, i: int)
    requires
        apart(ss),
        within_file(ss, ls.len() as int),
        0 <= i < ls.len(),
        untouched(ss, i),
    ensures
        0 <= i + shift(ss, i) < patched(ls, ss, 0).len(),
        patched(ls, ss, 0)[i + shift(ss, i)] == ls[i],
{
    lemma_untouched_from(ls, ss, 0, i);
}

/// What the hunks carry stands in the patched file, each at its place.
pub proof fn law_patch_puts_content_in(ls: Seq<Seq<char>>, ss: Seq<SpliceView>, from: int, k: int)
    requires
        apart(ss),
        within_file(ss, ls.len() as int),
        0 <= k < ss.len(),
        0 <= from <= ss[0].start,
    ensures
        exists|at: int|
            0 <= at && at + ss[k].content.len() <= patched(ls, ss, from).len()
                && #[trigger] patched(ls, ss, from).subrange(at, at + ss[k].content.len())
                == ss[k].content,
    decreases ss.len(),
{
    let first = ss[0];
    let rest = ss.drop_first();
    lemma_rest(ss, ls.len() as int);
    let whole = patched(ls, ss, from);
    let tail = patched(ls, rest, first.end);
    let lead = first.start - from;
    if k == 0 {
        assert(whole.subrange(lead, lead + first.content.len()) =~= first.content);
    } else {
        assert(ss[0].end <= ss[1].start);
        assert(rest[k - 1] == ss[k]);
        law_patch_puts_content_in(ls, rest, first.end, k - 1);
        let n = ss[k].content.len() as int;
        let at = choose|at: int|
            0 <= at && at + n <= tail.len() && #[trigger] tail.subrange(at, at + n)
                == ss[k].content;
        let there = lead + first.content.len() + at;
        assert(whole.subrange(there, there + n) =~= tail.subrange(at, at + n));
    }
}

/// An exact edit applies only where what it replaces stands at one place in the
/// text, overlapping places counted each, and it replaces just that.
pub proof fn law_exact_edit_replaces_one_place(
    path: Seq<char>,
    text: Seq<char>,
    old_text: Seq<char>,
    new_text: Seq<char>,
)
    requires
        exact_edit(path, text, old_text, new_text) is Ok,
    ensures
        exists|at: int| #[trigger]
            stands_at(text, old_text, at) && exact_edit(
                path,
                text,
                old_text,
                new_text,
            )->Ok_0.text == replaced_at(text, at, old_text.len() as int, new_text) && forall|j: int|
             j != at ==> !#[trigger] stands_at(text, old_text, j),
{
    lemma_find_text_from(text, old_text, 0);
    lemma_first_occurrence(text, old_text, 0);
    let at = find_text_from(text, old_text, 0)->Some_0;
    lemma_no_occurrence(text, old_text, at + 1);
    assert(stands_at(text, old_text, at));
    assert forall|j: int| j != at implies !#[trigger] stands_at(text, old_text, j) by {
        if j > at {
            assert(at + 1 <= j);
        } else if j >= 0 {
            assert(0 <= j < at);
        }
    }
}

/// An exact edit succeeds wherever what it replaces is not empty and stands at
/// exactly one place.
pub proof fn law_unambiguous_edit_applies(
    path: Seq<char>,
    text: Seq<char>,
    old_text: Seq<char>,
    new_text: Seq<char>,
    at: int,
)
    requires
        old_text.len() > 0,
        stands_at(text, old_text, at),
        forall|j: int| j != at ==> !#[trigger] stands_at(text, old_text, j),
    ensures
        exact_edit(path, text, old_text, new_text) matches Ok(edited) && edited.text == replaced_at(
            text,
            at,
            old_text.len() as int,
            new_text,
        ),
{
    lemma_find_text_from(text, old_text, 0);
    lemma_first_occurrence(text, old_text, 0);
    assert(find_text_from(text, old_text, 0) == Some(at)) by {
        match find_text_from(text, old_text, 0) {
            Some(k) => {
                assert(stands_at(text, old_text, k));
            },
            None => {
                assert(0 <= at);
            },
        }
    }
    lemma_no_occurrence(text, old_text, at + 1);
}

/// The places of a hash rise.
proof fn lemma_places_rise(hashes: Seq<Seq<char>>, hash: Seq<char>)
    ensures
        forall|i: int, j: int|
            0 <= i < j < places(hashes, hash).len() ==> #[trigger] places(hashes, hash)[i]
                < #[trigger] places(hashes, hash)[j],
    decreases hashes.len(),
{
    if hashes.len() > 0 {
        let rest = places(hashes.drop_last(), hash);
        let all = places(hashes, hash);
        lemma_places_rise(hashes.drop_last(), hash);
        lemma_places(hashes.drop_last(), hash);
        assert forall|i: int, j: int| 0 <= i < j < all.len() implies #[trigger] all[i]
            < #[trigger] all[j] by {
            assert(all[i] == rest[i]);
            if j < rest.len() {
                assert(all[j] == rest[j]);
            }
        }
    }
}

/// An anchor whose line moved is followed to the one line that has its content
/// now.
pub proof fn law_moved_anchor_is_followed(ls: Seq<Seq<char>>, a: AnchorView, k: int)
    requires
        !(1 <= a.line <= ls.len() && hash_of(ls[a.line - 1]) == a.hash),
        0 <= k < ls.len(),
        hash_of(ls[k]) == a.hash,
        forall|j: int| 0 <= j < ls.len() && j != k ==> hash_of(#[trigger] ls[j]) != a.hash,
    ensures
        resolution(ls, hashes_of(ls), a) == Ok::<(int, bool), ToolErrorView>((k, true)),
{
    let hashes = hashes_of(ls);
    let ps = places(hashes, a.hash);
    lemma_places(hashes, a.hash);
    lemma_places_rise(hashes, a.hash);
    assert(hashes[k] == a.hash);
    assert(ps.contains(k));
    assert forall|i: int| 0 <= i < ps.len() implies ps[i] == k by {
        assert(hashes[ps[i]] == hash_of(ls[ps[i]]));
    }
    assert(ps.len() == 1) by {
        if ps.len() > 1 {
            assert(ps[0] < ps[1]);
        }
    }
    if 1 <= a.line <= ls.len() {
        assert(hashes[a.line - 1] == hash_of(ls[a.line - 1]));
    }
}

/// An anchor whose content is gone from the file leads nowhere.
pub proof fn law_lost_anchor_is_refused(ls: Seq<Seq<char>>, a: AnchorView)
    requires
        forall|k: int| 0 <= k < ls.len() ==> hash_of(#[trigger] ls[k]) != a.hash,
    ensures
        resolution(ls, hashes_of(ls), a) is Err,
{
    let hashes = hashes_of(ls);
    let ps = places(hashes, a.hash);
    lemma_places(hashes, a.hash);
    if ps.len() > 0 {
        assert(hashes[ps[0]] == hash_of(ls[ps[0]]));
    }
    if 1 <= a.line <= ls.len() {
        assert(hashes[a.line - 1] == hash_of(ls[a.line - 1]));
    }
}

/// An anchor whose line moved and whose content stands on two lines leads
/// nowhere.
pub proof fn law_ambiguous_anchor_is_refused(ls: Seq<Seq<char>>, a: AnchorView, j: int, k: int)
    requires
        !(1 <= a.line <= ls.len() && hash_of(ls[a.line - 1]) == a.hash),
        0 <= j < k < ls.len(),
        hash_of(ls[j]) == a.hash,
        hash_of(ls[k]) == a.hash,
    ensures
        resolution(ls, hashes_of(ls), a) is Err,
{
    let hashes = hashes_of(ls);
    let ps = places(hashes, a.hash);
    lemma_places(hashes, a.hash);
    assert(hashes[j] == a.hash && hashes[k] == a.hash);
    assert(ps.contains(j) && ps.contains(k));
    if 1 <= a.line <= ls.len() {
        assert(hashes[a.line - 1] == hash_of(ls[a.line - 1]));
    }
}

/// The text of lines: one below the other, with a last newline just where the
/// text before had one and the lines hold anything.
pub open spec fn text_of_lines(before: Seq<char>, ls: Seq<Seq<char>>) -> Seq<char> {
    join(ls, "\n"@) + (if before.len() > 0 && before.last() == '\n' && join(ls, "\n"@).len() > 0 {
        seq!['\n']
    } else {
        Seq::empty()
    })
}

proof fn lemma_one_hunk(path: Seq<char>, text: Seq<char>, input: JsonView, hunk: JsonView)
    requires
        input.get("old_string"@) is None,
        input.get("patch"@) == Some(JsonView::Array(seq![hunk])),
    ensures
        ({
            let ls = lines(text);
            match hunk_splice(ls, hashes_of(ls), hunk) {
                Err(e) => edit_result(path, text, input) == Err::<EditedView, ToolErrorView>(e),
                Ok((s, n)) => {
                    &&& edit_result(path, text, input) is Ok
                    &&& edit_result(path, text, input)->Ok_0.text == text_of_lines(
                        text,
                        ls.subrange(0, s.start) + s.content + ls.skip(s.end),
                    )
                    &&& edit_result(path, text, input)->Ok_0.message == "edited "@ + path + ", "@
                        + dec(1) + " hunk(s)"@ + moved_note(n as nat)
                },
            }
        }),
{
    let ls = lines(text);
    let hashes = hashes_of(ls);
    let hunks = seq![hunk];
    reveal_with_fuel(hunk_splices, 3);
    reveal_with_fuel(in_order, 3);
    reveal_with_fuel(patched, 3);
    assert(hunks.drop_last() =~= Seq::<JsonView>::empty());
    assert(hunks.last() == hunk);
    if let Ok((s, n)) = hunk_splice(ls, hashes, hunk) {
        let ss = Seq::<SpliceView>::empty().push(s);
        assert(ss.drop_last() =~= Seq::<SpliceView>::empty());
        assert(in_order(ss) =~= seq![s]);
        let one = seq![s];
        assert(apart(one));
        assert(one.drop_first() =~= Seq::<SpliceView>::empty());
        let new = ls.subrange(0, s.start) + s.content + ls.skip(s.end);
        assert(patched(ls, one, 0) =~= new);
        let joined = join(new, "\n"@);
        assert(joined.push('\n') =~= joined + seq!['\n']);
        assert(joined + Seq::<char>::empty() =~= joined);
    }
}

/// One hunk that inserts after an anchor: the lines up to and with the one the
/// anchor leads to stay above, the lines of the content follow, and all that
/// stood below stays below. Anchor `0` inserts above the first line.
pub proof fn law_insert_after_inserts_below_the_anchor(
    path: Seq<char>,
    text: Seq<char>,
    input: JsonView,
    hunk: JsonView,
    anchor: Seq<char>,
    content: Seq<char>,
)
    requires
        input.get("old_string"@) is None,
        input.get("patch"@) == Some(JsonView::Array(seq![hunk])),
        hunk.get("op"@) == Some(JsonView::Str("insert_after"@)),
        hunk.get("anchor"@) == Some(JsonView::Str(anchor)),
        hunk.get("content"@) == Some(JsonView::Str(content)),
        hunk.get("to"@) is None,
    ensures
        ({
            let ls = lines(text);
            let new = split(content, '\n');
            let result = edit_result(path, text, input);
            &&& anchor == "0"@ ==> {
                &&& result is Ok
                &&& result->Ok_0.text == text_of_lines(text, new + ls)
            }
            &&& anchor != "0"@ ==> match anchor_of(anchor) {
                None => result is Err,
                Some(a) => match resolution(ls, hashes_of(ls), a) {
                    Err(e) => result == Err::<EditedView, ToolErrorView>(e),
                    Ok((k, m)) => {
                        &&& result is Ok
                        &&& result->Ok_0.text == text_of_lines(
                            text,
                            ls.take(k + 1) + new + ls.skip(k + 1),
                        )
                        &&& result->Ok_0.message == "edited "@ + path + ", 1 hunk(s)"@ + (if m {
                            " (1 moved anchor(s) followed by content hash)"@
                        } else {
                            ""@
                        })
                    },
                },
            }
        }),
{
    let ls = lines(text);
    lemma_one_hunk(path, text, input, hunk);
    lemma_one_hunk_words(path);
    if anchor == "0"@ {
        assert(ls.subrange(0, 0) + split(content, '\n') + ls.skip(0) =~= split(content, '\n') + ls);
    } else if let Some(a) = anchor_of(anchor) {
        assert(a.line != 0);
        if let Ok((k, m)) = resolution(ls, hashes_of(ls), a) {
            law_anchors_never_misapply(ls, a, k, m);
            assert(ls.subrange(0, k + 1) =~= ls.take(k + 1));
        }
    }
}

/// The numbers in what is said of a single hunk.
proof fn lemma_one_hunk_words(path: Seq<char>)
    ensures
        "edited "@ + path + ", "@ + dec(1) + " hunk(s)"@ + moved_note(0) == "edited "@ + path
            + ", 1 hunk(s)"@ + ""@,
        "edited "@ + path + ", "@ + dec(1) + " hunk(s)"@ + moved_note(1) == "edited "@ + path
            + ", 1 hunk(s)"@ + " (1 moved anchor(s) followed by content hash)"@,
{
    reveal_strlit(", ");
    reveal_strlit(" hunk(s)");
    reveal_strlit(", 1 hunk(s)");
    reveal_strlit("");
    reveal_strlit(" (");
    reveal_strlit(" moved anchor(s) followed by content hash)");
    reveal_strlit(" (1 moved anchor(s) followed by content hash)");
    reveal_with_fuel(dec, 2);
    assert(dec(1) =~= seq!['1']);
    assert(", "@ + seq!['1'] + " hunk(s)"@ =~= ", 1 hunk(s)"@);
    assert(" ("@ + seq!['1'] + " moved anchor(s) followed by content hash)"@
        =~= " (1 moved anchor(s) followed by content hash)"@);
    assert("edited "@ + path + ", "@ + dec(1) + " hunk(s)"@ =~= "edited "@ + path + (", "@ + seq![
        '1',
    ] + " hunk(s)"@));
    assert("edited "@ + path + ", 1 hunk(s)"@ + moved_note(0) =~= "edited "@ + path
        + ", 1 hunk(s)"@ + ""@);
}

/// One hunk that replaces or deletes: from the line its anchor leads to, to the
/// line its `to` leads to or that one line without it, the lines are taken out;
/// a replacement's content stands in their place; all else stays as it was. A
/// `to` above the anchor is refused.
pub proof fn law_replace_and_delete_take_out_the_span(
    path: Seq<char>,
    text: Seq<char>,
    input: JsonView,
    hunk: JsonView,
    anchor: Seq<char>,
    to: Option<Seq<char>>,
    content: Option<Seq<char>>,
    a: AnchorView,
    b: AnchorView,
    k: int,
    m: int,
    moved_a: bool,
    moved_b: bool,
)
    requires
        input.get("old_string"@) is None,
        input.get("patch"@) == Some(JsonView::Array(seq![hunk])),
        hunk.get("anchor"@) == Some(JsonView::Str(anchor)),
        anchor_of(anchor) == Some(a),
        a.line != 0,
        resolution(lines(text), hashes_of(lines(text)), a) == Ok::<(int, bool), ToolErrorView>(
            (k, moved_a),
        ),
        match content {
            Some(c) => hunk.get("content"@) == Some(JsonView::Str(c)) && (hunk.get("op"@) is None
                || hunk.get("op"@) == Some(JsonView::Str("replace"@))),
            None => hunk.get("content"@) is None && hunk.get("op"@) == Some(
                JsonView::Str("delete"@),
            ),
        },
        match to {
            Some(t) => {
                &&& hunk.get("to"@) == Some(JsonView::Str(t))
                &&& anchor_of(t) == Some(b)
                &&& b.line != 0
                &&& resolution(lines(text), hashes_of(lines(text)), b) == Ok::<
                    (int, bool),
                    ToolErrorView,
                >((m, moved_b))
            },
            None => hunk.get("to"@) is None && m == k,
        },
    ensures
        ({
            let ls = lines(text);
            let result = edit_result(path, text, input);
            let new = match content {
                Some(c) => split(c, '\n'),
                None => Seq::empty(),
            };
            &&& 0 <= k < ls.len()
            &&& 0 <= m < ls.len()
            &&& k <= m ==> {
                &&& result is Ok
                &&& result->Ok_0.text == text_of_lines(text, ls.take(k) + new + ls.skip(m + 1))
            }
            &&& m < k ==> result is Err
        }),
{
    let ls = lines(text);
    lemma_one_hunk(path, text, input, hunk);
    law_anchors_never_misapply(ls, a, k, moved_a);
    if to is Some {
        law_anchors_never_misapply(ls, b, m, moved_b);
    }
    reveal_strlit("replace");
    reveal_strlit("delete");
    reveal_strlit("insert_after");
    assert("delete"@.len() != "replace"@.len());
    assert("delete"@.len() != "insert_after"@.len());
    assert("replace"@.len() != "insert_after"@.len());
    assert(ls.subrange(0, k) =~= ls.take(k));
}

/// The tokens a read shows work as a patch's anchors: a hunk that inserts after
/// the token of line `i` puts its content right below that line.
pub proof fn law_shown_anchor_inserts_below_its_line(
    path: Seq<char>,
    text: Seq<char>,
    input: JsonView,
    hunk: JsonView,
    content: Seq<char>,
    i: int,
)
    requires
        0 <= i < lines(text).len() <= u64::MAX,
        input.get("old_string"@) is None,
        input.get("patch"@) == Some(JsonView::Array(seq![hunk])),
        hunk.get("op"@) == Some(JsonView::Str("insert_after"@)),
        hunk.get("anchor"@) == Some(JsonView::Str(shown_anchor((i + 1) as nat, lines(text)[i]))),
        hunk.get("content"@) == Some(JsonView::Str(content)),
        hunk.get("to"@) is None,
    ensures
        edit_result(path, text, input) matches Ok(edited) && edited.text == text_of_lines(
            text,
            lines(text).take(i + 1) + split(content, '\n') + lines(text).skip(i + 1),
        ),
{
    let ls = lines(text);
    let anchor = shown_anchor((i + 1) as nat, ls[i]);
    law_shown_anchor_leads_back(ls, i);
    reveal_strlit("0");
    lemma_hash_digits(ls[i]);
    assert(anchor.len() >= 5) by {
        reveal_strlit("#");
    }
    assert(anchor != "0"@);
    law_insert_after_inserts_below_the_anchor(path, text, input, hunk, anchor, content);
}

/// An edit is told by its input: with `old_string` and `new_string` it is exact,
/// with `patch` it is a patch, with both or neither it is refused.
pub proof fn law_edit_is_told_by_its_input(
    path: Seq<char>,
    text: Seq<char>,
    input: JsonView,
    old_text: Seq<char>,
    new_text: Seq<char>,
)
    ensures
        input.get("old_string"@) is Some && input.get("patch"@) is Some ==> edit_result(
            path,
            text,
            input,
        ) is Err,
        input.get("old_string"@) is None && input.get("patch"@) is None ==> edit_result(
            path,
            text,
            input,
        ) is Err,
        input.get("old_string"@) == Some(JsonView::Str(old_text)) && input.get("new_string"@)
            == Some(JsonView::Str(new_text)) && input.get("patch"@) is None ==> edit_result(
            path,
            text,
            input,
        ) == exact_edit(path, text, old_text, new_text),
        input.get("patch"@) == Some(JsonView::Array(Seq::empty())) ==> edit_result(
            path,
            text,
            input,
        ) is Err,
{
}

/// A hunk that is accepted names a span within the file.
proof fn lemma_splice_within(ls: Seq<Seq<char>>, hunk: JsonView)
    requires
        hunk_splice(ls, hashes_of(ls), hunk) is Ok,
    ensures
        ({
            let s = hunk_splice(ls, hashes_of(ls), hunk)->Ok_0.0;
            0 <= s.start <= s.end <= ls.len()
        }),
{
    let hashes = hashes_of(ls);
    let a = anchor_of(hunk.str_field("anchor"@)->0)->0;
    if let Ok((k, m)) = resolution(ls, hashes, a) {
        law_anchors_never_misapply(ls, a, k, m);
    }
    if let Some(t) = hunk.str_field("to"@) {
        if let Some(b) = anchor_of(t) {
            if let Ok((k, m)) = resolution(ls, hashes, b) {
                law_anchors_never_misapply(ls, b, k, m);
            }
        }
    }
}

/// The splices of hunks are the hunks' own, one for each, in order.
proof fn lemma_splices_of_hunks(ls: Seq<Seq<char>>, hunks: Seq<JsonView>)
    requires
        hunk_splices(ls, hashes_of(ls), hunks) is Ok,
    ensures
        ({
            let raw = hunk_splices(ls, hashes_of(ls), hunks)->Ok_0.0;
            &&& raw.len() == hunks.len()
            &&& forall|i: int|
                0 <= i < hunks.len() ==> hunk_splice(ls, hashes_of(ls), #[trigger] hunks[i]) is Ok
                    && hunk_splice(ls, hashes_of(ls), hunks[i])->Ok_0.0 == raw[i]
        }),
    decreases hunks.len(),
{
    if hunks.len() > 0 {
        let front = hunks.drop_last();
        lemma_splices_of_hunks(ls, front);
        let before = hunk_splices(ls, hashes_of(ls), front)->Ok_0.0;
        let raw = hunk_splices(ls, hashes_of(ls), hunks)->Ok_0.0;
        assert forall|i: int| 0 <= i < hunks.len() implies hunk_splice(
            ls,
            hashes_of(ls),
            #[trigger] hunks[i],
        ) is Ok && hunk_splice(ls, hashes_of(ls), hunks[i])->Ok_0.0 == raw[i] by {
            if i < front.len() {
                assert(front[i] == hunks[i]);
                assert(raw[i] == before[i]);
            }
        }
    }
}

proof fn lemma_in_order(ss: Seq<SpliceView>)
    ensures
        in_order(ss).len() == ss.len(),
        in_order(ss).to_multiset() == ss.to_multiset(),
    decreases ss.len(),
{
    broadcast use vstd::seq_lib::group_to_multiset_ensures;

    if ss.len() == 0 {
        assert(in_order(ss) =~= ss);
    } else {
        let before = in_order(ss.drop_last());
        lemma_in_order(ss.drop_last());
        lemma_splice_place(before, ss.last());
        assert(ss.drop_last().push(ss.last()) =~= ss);
    }
}

proof fn lemma_splice_place(ss: Seq<SpliceView>, s: SpliceView)
    ensures
        0 <= splice_place(ss, s) <= ss.len(),
    decreases ss.len(),
{
    if ss.len() > 0 {
        lemma_splice_place(ss.drop_last(), s);
    }
}

/// Splices that stand apart one by one stand apart altogether.
proof fn lemma_apart_all(ss: Seq<SpliceView>, len: int, i: int, j: int)
    requires
        apart(ss),
        within_file(ss, len),
        0 <= i < j < ss.len(),
    ensures
        ss[i].end <= ss[j].start,
    decreases j - i,
{
    if j == i + 1 {
    } else {
        lemma_apart_all(ss, len, i, j - 1);
        assert(ss[j - 1].start <= ss[j - 1].end);
        assert(ss[j - 1].end <= ss[j].start);
    }
}

/// A patch of several hunks does what each hunk asks for, all against the file
/// as it was: the spans are the hunks' own, each once, from the top down, and no
/// two touch the same line. The edited text is the file with each span replaced.
pub proof fn law_patch_applies_every_hunk(
    path: Seq<char>,
    text: Seq<char>,
    input: JsonView,
    hunks: Seq<JsonView>,
)
    requires
        input.get("old_string"@) is None,
        input.get("patch"@) == Some(JsonView::Array(hunks)),
        edit_result(path, text, input) is Ok,
    ensures
        exists|ss: Seq<SpliceView>| #[trigger]
            asked_for(lines(text), hunks, ss) && edit_result(path, text, input)->Ok_0.text
                == text_of_lines(text, patched(lines(text), ss, 0)),
{
    let ls = lines(text);
    let hashes = hashes_of(ls);
    let raw = hunk_splices(ls, hashes, hunks)->Ok_0.0;
    let ss = in_order(raw);
    lemma_splices_of_hunks(ls, hunks);
    lemma_in_order(raw);
    let own = Seq::new(hunks.len(), |i: int| hunk_splice(ls, hashes, hunks[i])->Ok_0.0);
    assert(own =~= raw) by {
        assert forall|i: int| 0 <= i < hunks.len() implies own[i] == raw[i] by {
            assert(hunk_splice(ls, hashes, hunks[i])->Ok_0.0 == raw[i]);
        }
    }
    assert forall|i: int| 0 <= i < ss.len() implies 0 <= (#[trigger] ss[i]).start <= ss[i].end
        <= ls.len() by {
        broadcast use vstd::seq_lib::group_to_multiset_ensures;

        assert(ss.contains(ss[i]));
        assert(ss.to_multiset().contains(ss[i]));
        assert(raw.contains(ss[i]));
        let k = choose|k: int| 0 <= k < raw.len() && raw[k] == ss[i];
        assert(hunk_splice(ls, hashes, hunks[k])->Ok_0.0 == raw[k]);
        lemma_splice_within(ls, hunks[k]);
    }
    assert(within_file(ss, ls.len() as int));
    assert forall|i: int, j: int| 0 <= i < j < ss.len() implies (#[trigger] ss[i]).end <= (
    #[trigger] ss[j]).start by {
        lemma_apart_all(ss, ls.len() as int, i, j);
    }
    assert(asked_for(ls, hunks, ss));
    let new = patched(ls, ss, 0);
    let joined = join(new, "\n"@);
    assert(joined.push('\n') =~= joined + seq!['\n']);
    assert(joined + Seq::<char>::empty() =~= joined);
}

/// Whether spans are those that hunks ask for in a file, from the top down and
/// apart.
pub open spec fn asked_for(
    ls: Seq<Seq<char>>,
    hunks: Seq<JsonView>,
    ss: Seq<SpliceView>,
) -> bool {
    &&& forall|i: int|
        0 <= i < hunks.len() ==> hunk_splice(ls, hashes_of(ls), #[trigger] hunks[i]) is Ok
    &&& ss.to_multiset() == Seq::new(
        hunks.len(),
        |i: int| hunk_splice(ls, hashes_of(ls), hunks[i])->Ok_0.0,
    ).to_multiset()
    &&& forall|i: int|
        0 <= i < ss.len() ==> 0 <= (#[trigger] ss[i]).start <= ss[i].end <= ls.len()
    &&& forall|i: int, j: int|
        0 <= i < j < ss.len() ==> (#[trigger] ss[i]).end <= (#[trigger] ss[j]).start
}

proof fn lemma_order_rises(ss: Seq<SpliceView>)
    ensures
        forall|i: int, j: int|
            0 <= i < j < in_order(ss).len() ==> !after(
                #[trigger] in_order(ss)[i],
                #[trigger] in_order(ss)[j],
            ),
    decreases ss.len(),
{
    if ss.len() > 0 {
        let before = in_order(ss.drop_last());
        let s = ss.last();
        let at = splice_place(before, s);
        lemma_order_rises(ss.drop_last());
        lemma_splice_place(before, s);
        lemma_place_divides(before, s);
        let all = in_order(ss);
        assert forall|i: int, j: int| 0 <= i < j < all.len() implies !after(
            #[trigger] all[i],
            #[trigger] all[j],
        ) by {
            let a = if i < at {
                i
            } else {
                i - 1
            };
            let b = if j < at {
                j
            } else {
                j - 1
            };
            if i != at {
                assert(all[i] == before[a]);
            }
            if j != at {
                assert(all[j] == before[b]);
            }
            if i != at && j != at {
                assert(!after(before[a], before[b]));
            }
        }
    }
}

proof fn lemma_place_divides(ss: Seq<SpliceView>, s: SpliceView)
    requires
        forall|i: int, j: int|
            0 <= i < j < ss.len() ==> !after(#[trigger] ss[i], #[trigger] ss[j]),
    ensures
        forall|i: int| 0 <= i < splice_place(ss, s) ==> !after(#[trigger] ss[i], s),
        forall|i: int| splice_place(ss, s) <= i < ss.len() ==> after(#[trigger] ss[i], s),
    decreases ss.len(),
{
    if ss.len() > 0 {
        if !after(ss.last(), s) {
            assert forall|i: int| 0 <= i < ss.len() implies !after(#[trigger] ss[i], s) by {
                if i < ss.len() - 1 {
                    assert(!after(ss[i], ss[ss.len() - 1]));
                }
            }
        } else {
            let front = ss.drop_last();
            assert forall|i: int, j: int| 0 <= i < j < front.len() implies !after(
                #[trigger] front[i],
                #[trigger] front[j],
            ) by {
                assert(!after(ss[i], ss[j]));
            }
            lemma_place_divides(front, s);
            lemma_splice_place(front, s);
            assert forall|i: int| 0 <= i < splice_place(ss, s) implies !after(
                #[trigger] ss[i],
                s,
            ) by {
                assert(front[i] == ss[i]);
            }
            assert forall|i: int| splice_place(ss, s) <= i < ss.len() implies after(
                #[trigger] ss[i],
                s,
            ) by {
                if i < front.len() {
                    assert(front[i] == ss[i]);
                }
            }
        }
    }
}

/// Whether of two spans one ends before the other begins, and they do not begin
/// together.
pub open spec fn clear_of(a: SpliceView, b: SpliceView) -> bool {
    a.start != b.start && (a.end <= b.start || b.end <= a.start)
}

proof fn lemma_order_keeps_clear(ss: Seq<SpliceView>)
    requires
        forall|i: int, j: int|
            0 <= i < j < ss.len() ==> clear_of(#[trigger] ss[i], #[trigger] ss[j]),
    ensures
        in_order(ss).len() == ss.len(),
        forall|i: int, j: int|
            0 <= i < j < in_order(ss).len() ==> clear_of(
                #[trigger] in_order(ss)[i],
                #[trigger] in_order(ss)[j],
            ),
        forall|i: int|
            0 <= i < in_order(ss).len() ==> ss.contains(#[trigger] in_order(ss)[i]),
    decreases ss.len(),
{
    if ss.len() > 0 {
        let front = ss.drop_last();
        let before = in_order(front);
        let s = ss.last();
        let at = splice_place(before, s);
        assert forall|i: int, j: int| 0 <= i < j < front.len() implies clear_of(
            #[trigger] front[i],
            #[trigger] front[j],
        ) by {
            assert(clear_of(ss[i], ss[j]));
        }
        lemma_order_keeps_clear(front);
        lemma_splice_place(before, s);
        let all = in_order(ss);
        assert forall|i: int| 0 <= i < before.len() implies clear_of(#[trigger] before[i], s)
            && ss.contains(before[i]) by {
            assert(front.contains(before[i]));
            let k = choose|k: int| 0 <= k < front.len() && front[k] == before[i];
            assert(ss[k] == before[i]);
            assert(clear_of(ss[k], ss[ss.len() - 1]));
        }
        assert forall|i: int| 0 <= i < all.len() implies ss.contains(#[trigger] all[i]) by {
            if i < at {
                assert(all[i] == before[i]);
            } else if i > at {
                assert(all[i] == before[i - 1]);
            } else {
                assert(ss[ss.len() - 1] == all[i]);
            }
        }
        assert forall|i: int, j: int| 0 <= i < j < all.len() implies clear_of(
            #[trigger] all[i],
            #[trigger] all[j],
        ) by {
            let a = if i < at {
                i
            } else {
                i - 1
            };
            let b = if j < at {
                j
            } else {
                j - 1
            };
            if i != at {
                assert(all[i] == before[a]);
            }
            if j != at {
                assert(all[j] == before[b]);
            }
            if i != at && j != at {
                assert(clear_of(before[a], before[b]));
            }
        }
    }
}

/// A patch is accepted where each of its hunks is and no two of them touch the
/// same lines.
pub proof fn law_patch_is_accepted(
    path: Seq<char>,
    text: Seq<char>,
    input: JsonView,
    hunks: Seq<JsonView>,
)
    requires
        input.get("old_string"@) is None,
        input.get("patch"@) == Some(JsonView::Array(hunks)),
        hunks.len() > 0,
        forall|i: int|
            0 <= i < hunks.len() ==> hunk_splice(
                lines(text),
                hashes_of(lines(text)),
                #[trigger] hunks[i],
            ) is Ok,
        forall|i: int, j: int|
            0 <= i < j < hunks.len() ==> clear_of(
                hunk_splice(lines(text), hashes_of(lines(text)), #[trigger] hunks[i])->Ok_0.0,
                hunk_splice(lines(text), hashes_of(lines(text)), #[trigger] hunks[j])->Ok_0.0,
            ),
    ensures
        edit_result(path, text, input) is Ok,
{
    let ls = lines(text);
    let hashes = hashes_of(ls);
    lemma_hunks_accepted(ls, hunks);
    lemma_splices_of_hunks(ls, hunks);
    let raw = hunk_splices(ls, hashes, hunks)->Ok_0.0;
    assert forall|i: int, j: int| 0 <= i < j < raw.len() implies clear_of(
        #[trigger] raw[i],
        #[trigger] raw[j],
    ) by {
        assert(raw[i] == hunk_splice(ls, hashes, hunks[i])->Ok_0.0);
        assert(raw[j] == hunk_splice(ls, hashes, hunks[j])->Ok_0.0);
    }
    lemma_order_keeps_clear(raw);
    lemma_order_rises(raw);
    let ss = in_order(raw);
    assert forall|i: int, j: int| 0 <= i && j == i + 1 && j < ss.len() implies (
    #[trigger] ss[i]).end <= (#[trigger] ss[j]).start && ss[i].start != ss[j].start by {
        assert(clear_of(ss[i], ss[j]));
        assert(!after(ss[i], ss[j]));
        assert(raw.contains(ss[j]));
        let k = choose|k: int| 0 <= k < raw.len() && raw[k] == ss[j];
        assert(raw[k] == hunk_splice(ls, hashes, hunks[k])->Ok_0.0);
        lemma_splice_within(ls, hunks[k]);
    }
    assert(apart(ss));
}

proof fn lemma_hunks_accepted(ls: Seq<Seq<char>>, hunks: Seq<JsonView>)
    requires
        forall|i: int|
            0 <= i < hunks.len() ==> hunk_splice(ls, hashes_of(ls), #[trigger] hunks[i]) is Ok,
    ensures
        hunk_splices(ls, hashes_of(ls), hunks) is Ok,
    decreases hunks.len(),
{
    if hunks.len() > 0 {
        let front = hunks.drop_last();
        assert forall|i: int| 0 <= i < front.len() implies hunk_splice(
            ls,
            hashes_of(ls),
            #[trigger] front[i],
        ) is Ok by {
            assert(front[i] == hunks[i]);
        }
        lemma_hunks_accepted(ls, front);
        assert(hunk_splice(ls, hashes_of(ls), hunks[hunks.len() - 1]) is Ok);
    }
}

} // verus!
