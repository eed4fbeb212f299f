//! What holds of texts taken apart and put together.
use vstd::prelude::*;

use crate::text::{
    all_digits, dec, dec_int, digit, is_space, join, lemma_decimal_reads_back, lemma_split_len,
    lex_le, lex_le_from, lines, number_of, padded, right_padded, split, strip_cr, trim, trim_end, trim_start, value_of,
};

verus! {

/// The pieces of a text, put together again with what separated them, are the
/// text; none of them holds the separator.
pub proof fn law_pieces_join_back(s: Seq<char>, sep: char)
    ensures
        join(split(s, sep), seq![sep]) == s,
        forall|i: int| 0 <= i < split(s, sep).len() ==> !(#[trigger] split(s, sep)[i]).contains(sep),
    decreases s.len(),
{
    let all = split(s, sep);
    let by = seq![sep];
    if s.len() == 0 {
        assert(all[0] == Seq::<char>::empty());
    } else {
        let front = s.drop_last();
        let before = split(front, sep);
        law_pieces_join_back(front, sep);
        lemma_split_len(front, sep);
        assert(front.push(s.last()) =~= s);
        if s.last() == sep {
            assert(all.drop_last() =~= before);
            assert(join(all, by) =~= front + by + Seq::<char>::empty());
        } else {
            let rest = before.drop_last();
            let last = before.last().push(s.last());
            assert(all.drop_last() =~= rest);
            if rest.len() == 0 {
                assert(before[0] == before.last());
                assert(join(all, by) == last);
            } else {
                assert(join(all, by) =~= (join(rest, by) + by + before.last()).push(s.last()));
            }
        }
        assert forall|i: int| 0 <= i < all.len() implies !(#[trigger] all[i]).contains(sep) by {
            if i < before.len() - 1 || (i < before.len() && s.last() == sep) {
                assert(all[i] == before[i]);
            } else if s.last() == sep {
                assert(all[i] == Seq::<char>::empty());
            } else {
                let last = before[before.len() - 1];
                assert(!last.contains(sep));
                if all[i].contains(sep) {
                    let k = choose|k: int| 0 <= k < all[i].len() && all[i][k] == sep;
                    assert(k < last.len());
                    assert(last[k] == sep);
                }
            }
        }
    }
}

/// Splitting goes on piece by piece.
proof fn lemma_split_more(s: Seq<char>, t: Seq<char>, sep: char)
    requires
        !t.contains(sep),
    ensures
        split(s + t, sep) == split(s, sep).drop_last().push(split(s, sep).last() + t),
    decreases t.len(),
{
    let before = split(s, sep);
    lemma_split_len(s, sep);
    if t.len() == 0 {
        assert(s + t =~= s);
        assert(before.last() + t =~= before.last());
        assert(before.drop_last().push(before.last()) =~= before);
    } else {
        let front = t.drop_last();
        assert(t[t.len() - 1] != sep);
        assert(!front.contains(sep)) by {
            if front.contains(sep) {
                let k = choose|k: int| 0 <= k < front.len() && front[k] == sep;
                assert(t[k] == sep);
            }
        }
        lemma_split_more(s, front, sep);
        let mid = split(s + front, sep);
        assert((s + t).drop_last() =~= s + front);
        assert((s + t).last() == t.last());
        assert(mid.drop_last() =~= before.drop_last());
        assert(mid.last().push(t.last()) =~= before.last() + t);
    }
}

/// Pieces that are put together are found again.
pub proof fn law_joined_pieces_split_back(parts: Seq<Seq<char>>, sep: char)
    requires
        parts.len() > 0,
        forall|i: int| 0 <= i < parts.len() ==> !(#[trigger] parts[i]).contains(sep),
    ensures
        split(join(parts, seq![sep]), sep) == parts,
    decreases parts.len(),
{
    let by = seq![sep];
    let last = parts.last();
    assert(!parts[parts.len() - 1].contains(sep));
    if parts.len() == 1 {
        let empty = Seq::<char>::empty();
        lemma_split_more(empty, last, sep);
        assert(empty + last =~= last);
        assert(split(empty, sep).drop_last().push(split(empty, sep).last() + last) =~= parts);
    } else {
        let front = parts.drop_last();
        assert forall|i: int| 0 <= i < front.len() implies !(#[trigger] front[i]).contains(sep) by {
            assert(front[i] == parts[i]);
        }
        law_joined_pieces_split_back(front, sep);
        let before = join(front, by);
        let s = before + by;
        assert(s.drop_last() =~= before);
        assert(split(s, sep) =~= front.push(Seq::<char>::empty()));
        lemma_split_more(s, last, sep);
        assert(Seq::<char>::empty() + last =~= last);
        assert(split(s, sep).drop_last() =~= front);
        assert(front.push(last) =~= parts);
    }
}

/// Lines written one below the other, each ended, are read as those lines; so
/// are lines whose last is not ended, where it is not empty.
pub proof fn law_written_lines_are_read(ls: Seq<Seq<char>>, last: Seq<char>)
    requires
        forall|i: int|
            0 <= i < ls.len() ==> !(#[trigger] ls[i]).contains('\n') && (ls[i].len() > 0
                ==> ls[i].last() != '\r'),
        !last.contains('\n'),
        last.len() > 0,
    ensures
        lines(join(ls.push(Seq::empty()), seq!['\n'])) == ls,
        lines(join(ls.push(last), seq!['\n'])) == ls.push(last),
{
    let ended = ls.push(Seq::<char>::empty());
    let open = ls.push(last);
    assert forall|i: int| 0 <= i < ended.len() implies !(#[trigger] ended[i]).contains('\n') by {
        if i < ls.len() {
            assert(ended[i] == ls[i]);
        }
    }
    assert forall|i: int| 0 <= i < open.len() implies !(#[trigger] open[i]).contains('\n') by {
        if i < ls.len() {
            assert(open[i] == ls[i]);
        }
    }
    law_joined_pieces_split_back(ended, '\n');
    law_joined_pieces_split_back(open, '\n');
    assert(ended.drop_last() =~= ls);
    assert(open.drop_last() =~= ls);
    assert(ls.map_values(|l: Seq<char>| strip_cr(l)) =~= ls);
}

/// A carriage return before a newline belongs to the line's end.
pub proof fn law_carriage_return_ends_the_line(line: Seq<char>)
    requires
        !line.contains('\n'),
    ensures
        lines(line.push('\r').push('\n')) == seq![line],
{
    let s = line.push('\r').push('\n');
    let t = line.push('\r');
    let parts = seq![t, Seq::<char>::empty()];
    assert(!t.contains('\n')) by {
        if t.contains('\n') {
            let k = choose|k: int| 0 <= k < t.len() && t[k] == '\n';
            assert(line[k] == '\n');
        }
    }
    assert forall|i: int| 0 <= i < parts.len() implies !(#[trigger] parts[i]).contains('\n') by {}
    law_joined_pieces_split_back(parts, '\n');
    assert(parts.drop_last() =~= seq![t]);
    assert(seq![t].drop_last() =~= Seq::<Seq<char>>::empty());
    reveal_with_fuel(join, 3);
    assert(join(parts, seq!['\n']) =~= s);
    assert(t.drop_last() =~= line);
    assert(parts.drop_last().map_values(|l: Seq<char>| strip_cr(l)) =~= seq![line]);
}

/// Whether a text is nothing but space.
pub open spec fn blank(s: Seq<char>) -> bool {
    forall|i: int| 0 <= i < s.len() ==> is_space(#[trigger] s[i])
}

proof fn lemma_trim_start(s: Seq<char>) -> (lead: Seq<char>)
    ensures
        blank(lead),
        s == lead + trim_start(s),
        trim_start(s).len() > 0 ==> !is_space(trim_start(s)[0]),
    decreases s.len(),
{
    if s.len() > 0 && is_space(s[0]) {
        let more = lemma_trim_start(s.drop_first());
        let lead = seq![s[0]] + more;
        let rest = s.drop_first();
        assert(rest == more + trim_start(s));
        assert(lead + trim_start(s) =~= seq![s[0]] + rest);
        assert(s =~= seq![s[0]] + rest);
        lead
    } else {
        assert(s =~= Seq::<char>::empty() + s);
        Seq::<char>::empty()
    }
}

proof fn lemma_trim_end(s: Seq<char>) -> (rest: Seq<char>)
    ensures
        blank(rest),
        s == trim_end(s) + rest,
        trim_end(s).len() > 0 ==> !is_space(trim_end(s).last()),
    decreases s.len(),
{
    if s.len() > 0 && is_space(s.last()) {
        let more = lemma_trim_end(s.drop_last());
        let rest = more.push(s.last());
        let front = s.drop_last();
        assert(front == trim_end(s) + more);
        assert(trim_end(s) + rest =~= front.push(s.last()));
        assert(s =~= front.push(s.last()));
        rest
    } else {
        assert(s =~= s + Seq::<char>::empty());
        Seq::<char>::empty()
    }
}

/// Trimming takes the space off both ends and nothing else.
pub proof fn law_trimming_takes_only_space(s: Seq<char>)
    ensures
        exists|lead: Seq<char>, rest: Seq<char>|
            #![trigger lead + trim(s) + rest]
            blank(lead) && blank(rest) && s == lead + trim(s) + rest,
        trim(s).len() > 0 ==> !is_space(trim(s)[0]) && !is_space(trim(s).last()),
        exists|rest: Seq<char>|
            #![trigger trim_end(s) + rest]
            blank(rest) && s == trim_end(s) + rest,
        trim_end(s).len() > 0 ==> !is_space(trim_end(s).last()),
{
    let lead = lemma_trim_start(s);
    let rest = lemma_trim_end(trim_start(s));
    assert(s =~= lead + trim(s) + rest);
    if trim(s).len() > 0 {
        assert(trim(s)[0] == trim_start(s)[0]);
    }
    let after = lemma_trim_end(s);
    assert(s == trim_end(s) + after);
}

/// A text that fills its column stays as it is; a shorter one is filled with
/// spaces up to the column, behind it or before it.
pub proof fn law_padding_fills_the_column(s: Seq<char>, width: int)
    ensures
        s.len() >= width ==> padded(s, width) == s && right_padded(s, width) == s,
        s.len() < width ==> {
            &&& padded(s, width).len() == width
            &&& padded(s, width).take(s.len() as int) == s
            &&& forall|i: int| s.len() <= i < width ==> #[trigger] padded(s, width)[i] == ' '
            &&& right_padded(s, width).len() == width
            &&& right_padded(s, width).skip(width - s.len()) == s
            &&& forall|i: int| 0 <= i < width - s.len() ==> #[trigger] right_padded(s, width)[i]
                == ' '
        },
    decreases width - s.len(),
{
    if s.len() < width {
        let more = s.push(' ');
        let less = seq![' '] + s;
        law_padding_fills_the_column(more, width);
        law_padding_fills_the_column(less, width);
        let p = padded(s, width);
        let q = right_padded(s, width);
        if more.len() < width {
            assert(p.take(more.len() as int) == more);
            assert(p.take(s.len() as int) =~= p.take(more.len() as int).take(s.len() as int));
            assert(more.take(s.len() as int) =~= s);
            assert(p[s.len() as int] == p.take(more.len() as int)[s.len() as int]);
            assert(q.skip(width - less.len()) == less);
            assert(q.skip(width - s.len()) =~= q.skip(width - less.len()).skip(1));
            assert(less.skip(1) =~= s);
            assert(q[width - less.len()] == q.skip(width - less.len())[0]);
        } else {
            assert(p == more);
            assert(p.take(s.len() as int) =~= s);
            assert(q == less);
            assert(q.skip(1) =~= s);
        }
    }
}

/// A number is written in decimal so that it reads back, with no zero in front.
pub proof fn law_number_reads_back(n: nat)
    ensures
        n <= u64::MAX ==> number_of(dec(n)) == Some(n as int),
        dec(n).len() > 1 ==> dec(n)[0] != '0',
        dec_int(n as int) == dec(n),
        n > 0 ==> dec_int(-n) == seq!['-'] + dec(n),
{
    lemma_decimal_reads_back(n);
    lemma_no_zero_in_front(n);
    assert(dec(n)[0] != '+');
}

proof fn lemma_no_zero_in_front(n: nat)
    ensures
        dec(n).len() > 0,
        n > 0 ==> dec(n)[0] != '0',
        dec(n).len() > 1 ==> n > 0,
    decreases n,
{
    if n >= 10 {
        lemma_no_zero_in_front(n / 10);
        assert(dec(n)[0] == dec(n / 10)[0]);
    } else {
        assert(dec(n)[0] == digit(n as int));
    }
}

/// A text reads as a number just where it is digits, at most after a plus sign,
/// and the number fits.
pub proof fn law_only_digits_read_as_a_number(s: Seq<char>)
    ensures
        number_of(s) is Some ==> s.len() > 0 && forall|i: int|
            1 <= i < s.len() ==> '0' <= #[trigger] s[i] <= '9',
        all_digits(s) && s.len() > 0 && value_of(s) <= u64::MAX ==> number_of(s) == Some(
            value_of(s) as int,
        ),
{
    if number_of(s) is Some && s[0] == '+' {
        let t = s.drop_first();
        assert forall|i: int| 1 <= i < s.len() implies '0' <= #[trigger] s[i] <= '9' by {
            assert(t[i - 1] == s[i]);
        }
    }
}

/// The order of texts is decided by the first place in which they differ; a text
/// comes before those it begins.
pub proof fn law_first_difference_decides(a: Seq<char>, b: Seq<char>, k: int)
    requires
        0 <= k <= a.len(),
        k <= b.len(),
        forall|i: int| 0 <= i < k ==> a[i] == b[i],
    ensures
        k == a.len() ==> lex_le(a, b),
        k == b.len() && k < a.len() ==> !lex_le(a, b),
        k < a.len() && k < b.len() && a[k] < b[k] ==> lex_le(a, b) && !lex_le(b, a),
{
    lemma_alike_so_far(a, b, 0, k);
    lemma_alike_so_far(b, a, 0, k);
}

proof fn lemma_alike_so_far(a: Seq<char>, b: Seq<char>, from: int, k: int)
    requires
        0 <= from <= k <= a.len(),
        k <= b.len(),
        forall|i: int| 0 <= i < k ==> a[i] == b[i],
    ensures
        lex_le_from(a, b, from) == lex_le_from(a, b, k),
    decreases k - from,
{
    if from < k {
        assert(a[from] == b[from]);
        lemma_alike_so_far(a, b, from + 1, k);
    }
}

} // verus!
