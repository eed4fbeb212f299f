//! Text as sequences of characters: the few operations the rest of the
//! library builds its strings with, each stated over `Seq<char>`.
use vstd::prelude::*;
use vstd::string::*;
use vstd::utf8::*;

verus! {

/// `String::push` appends one character at the end.
pub assume_specification[ std::string::String::push ](s: &mut std::string::String, ch: char)
    ensures
        final(s)@ == old(s)@.push(ch),
;

/// The views of the elements of a sequence, in order.
pub open spec fn views<T: View>(s: Seq<T>) -> Seq<T::V> {
    s.map_values(|x: T| x@)
}

/// The view under an `Option`.
pub open spec fn opt_view<T: View>(o: Option<T>) -> Option<T::V> {
    match o {
        Some(x) => Some(x@),
        None => None,
    }
}

/// The characters of a string.
pub fn chars_of(s: &str) -> (r: Vec<char>)
    ensures
        r@ == s@,
{
    let mut out: Vec<char> = Vec::new();
    for c in it: s.chars()
        invariant
            out@ == it.seq().take(it.index()),
            it.seq() == s@,
    {
        out.push(c);
        proof {
            assert(it.seq().take(it.index() + 1) =~= it.seq().take(it.index()).push(c));
        }
    }
    proof {
        assert(s@.take(s@.len() as int) =~= s@);
    }
    out
}

/// The string of the characters `from..to`.
pub fn slice(cs: &Vec<char>, from: usize, to: usize) -> (r: String)
    requires
        from <= to <= cs@.len(),
    ensures
        r@ == cs@.subrange(from as int, to as int),
{
    let mut out = String::new();
    let mut i: usize = from;
    while i < to
        invariant
            from <= i <= to <= cs@.len(),
            out@ == cs@.subrange(from as int, i as int),
        decreases to - i,
    {
        out.push(cs[i]);
        proof {
            assert(cs@.subrange(from as int, i + 1) =~= cs@.subrange(from as int, i as int).push(
                cs@[i as int],
            ));
        }
        i += 1;
    }
    out
}

/// Whether two strings hold the same characters.
pub fn same(a: &str, b: &str) -> (r: bool)
    ensures
        r == (a@ == b@),
{
    a.to_owned() == b.to_owned()
}

/// One more element of a prefix: what a left-to-right loop adds in a step.
pub proof fn lemma_step<A>(s: Seq<A>, i: int)
    requires
        0 <= i < s.len(),
    ensures
        s.take(i + 1) == s.take(i).push(s[i]),
        s.take(i + 1).drop_last() == s.take(i),
        s.take(i + 1).last() == s[i],
        s.take(i + 1).len() == i + 1,
        s.take(s.len() as int) == s,
        s.take(0).len() == 0,
{
    assert(s.take(i + 1) =~= s.take(i).push(s[i]));
    assert(s.take(i + 1).drop_last() =~= s.take(i));
    assert(s.take(s.len() as int) =~= s);
}

// ── Numbers ─────────────────────────────────────────────────────────────────

/// The decimal digit of value `d`.
pub open spec fn digit(d: int) -> char {
    ('0' as int + d) as char
}

/// A natural number in decimal, without leading zeros.
pub open spec fn dec(n: nat) -> Seq<char>
    decreases n,
{
    if n < 10 {
        seq![digit(n as int)]
    } else {
        dec(n / 10).push(digit((n % 10) as int))
    }
}

/// An integer in decimal, with a minus sign where it is negative.
pub open spec fn dec_int(n: int) -> Seq<char> {
    if n < 0 {
        seq!['-'] + dec((-n) as nat)
    } else {
        dec(n as nat)
    }
}

fn push_decimal(out: &mut String, n: u128)
    ensures
        final(out)@ == old(out)@ + dec(n as nat),
    decreases n,
{
    if n >= 10 {
        push_decimal(out, n / 10);
    }
    let d: u8 = (n % 10) as u8;
    let ghost before = out@;
    out.push((48 + d) as char);
    proof {
        assert((48 + d) as char == digit((n % 10) as int));
        if n >= 10 {
            assert(out@ =~= old(out)@ + dec(n as nat));
        } else {
            assert(out@ =~= old(out)@ + dec(n as nat));
        }
    }
}

/// `n` in decimal.
pub fn decimal(n: u64) -> (r: String)
    ensures
        r@ == dec(n as nat),
{
    let mut out = String::new();
    push_decimal(&mut out, n as u128);
    proof {
        assert(out@ =~= dec(n as nat));
    }
    out
}

/// A sum of lengths in decimal.
pub fn decimal_wide(n: u128) -> (r: String)
    ensures
        r@ == dec(n as nat),
{
    let mut out = String::new();
    push_decimal(&mut out, n);
    proof {
        assert(out@ =~= dec(n as nat));
    }
    out
}

/// `n` in decimal, with its sign.
pub fn decimal_int(n: i64) -> (r: String)
    ensures
        r@ == dec_int(n as int),
{
    if n < 0 {
        let mut out = String::new();
        out.push('-');
        let m: u64 = if n == i64::MIN {
            9223372036854775808
        } else {
            (-n) as u64
        };
        push_decimal(&mut out, m as u128);
        proof {
            assert(out@ =~= dec_int(n as int));
        }
        out
    } else {
        decimal(n as u64)
    }
}

/// Whether a text is made of decimal digits.
pub open spec fn all_digits(s: Seq<char>) -> bool {
    forall|i: int| 0 <= i < s.len() ==> '0' <= #[trigger] s[i] <= '9'
}

/// The value of decimal digits.
pub open spec fn value_of(s: Seq<char>) -> nat
    decreases s.len(),
{
    if s.len() == 0 {
        0
    } else {
        10 * value_of(s.drop_last()) + ((s.last() as int - '0' as int) as nat)
    }
}

/// The number a text says in decimal, if it fits 64 bits; a leading plus sign
/// is allowed.
pub open spec fn number_of(s: Seq<char>) -> Option<int> {
    let t = if s.len() > 0 && s[0] == '+' {
        s.drop_first()
    } else {
        s
    };
    if t.len() > 0 && all_digits(t) && value_of(t) <= u64::MAX {
        Some(value_of(t) as int)
    } else {
        None
    }
}

/// A longer run of digits has no smaller value.
proof fn lemma_value_grows(s: Seq<char>, i: int)
    requires
        all_digits(s),
        0 <= i <= s.len(),
    ensures
        value_of(s.take(i)) <= value_of(s),
    decreases s.len() - i,
{
    if i < s.len() {
        lemma_step(s, i);
        assert('0' <= s[i] <= '9');
        lemma_value_grows(s, i + 1);
    } else {
        assert(s.take(i) =~= s);
    }
}

/// The number a text says in decimal.
pub fn parse_number(s: &str) -> (r: Option<u64>)
    ensures
        match r {
            Some(n) => number_of(s@) == Some(n as int),
            None => number_of(s@) is None,
        },
{
    let cs = chars_of(s);
    let from: usize = if cs.len() > 0 && cs[0] == '+' {
        1
    } else {
        0
    };
    let ghost t = s@.skip(from as int);
    proof {
        assert(t =~= (if s@.len() > 0 && s@[0] == '+' {
            s@.drop_first()
        } else {
            s@
        }));
    }
    if from == cs.len() {
        return None;
    }
    let mut v: u64 = 0;
    let mut i: usize = from;
    while i < cs.len()
        invariant
            cs@ == s@,
            from <= i <= cs@.len(),
            t == s@.skip(from as int),
            t =~= (if s@.len() > 0 && s@[0] == '+' {
                s@.drop_first()
            } else {
                s@
            }),
            v == value_of(t.take(i - from)),
            forall|j: int| 0 <= j < i - from ==> '0' <= #[trigger] t[j] <= '9',
        decreases cs@.len() - i,
    {
        let c = cs[i];
        proof {
            assert(t[i - from] == c);
            lemma_step(t, i - from);
        }
        if !('0' <= c && c <= '9') {
            return None;
        }
        let d: u64 = (c as u32 - 48) as u64;
        if v > (u64::MAX - d) / 10 {
            proof {
                if all_digits(t) {
                    lemma_value_grows(t, i + 1 - from);
                }
            }
            return None;
        }
        v = v * 10 + d;
        i += 1;
    }
    proof {
        assert(t.take(t.len() as int) =~= t);
    }
    Some(v)
}

/// Printing a number and reading it back gives the number.
pub proof fn lemma_decimal_reads_back(n: nat)
    ensures
        all_digits(dec(n)),
        dec(n).len() > 0,
        value_of(dec(n)) == n,
    decreases n,
{
    reveal_with_fuel(value_of, 2);
    if n < 10 {
        assert(dec(n).drop_last() =~= Seq::<char>::empty());
        assert(dec(n).last() == digit(n as int));
    } else {
        lemma_decimal_reads_back(n / 10);
        assert(dec(n).drop_last() =~= dec(n / 10));
        assert(dec(n).last() == digit((n % 10) as int));
        assert forall|i: int| 0 <= i < dec(n).len() implies '0' <= #[trigger] dec(n)[i] <= '9' by {
            if i < dec(n / 10).len() {
                assert(dec(n)[i] == dec(n / 10)[i]);
            }
        }
    }
}

// ── Width ───────────────────────────────────────────────────────────────────

/// A text filled up with spaces to a width.
pub open spec fn padded(s: Seq<char>, width: int) -> Seq<char>
    decreases width - s.len(),
{
    if s.len() >= width {
        s
    } else {
        padded(s.push(' '), width)
    }
}

/// A text filled up with spaces to a width.
pub fn pad(s: &str, width: usize) -> (r: String)
    ensures
        r@ == padded(s@, width as int),
{
    let mut out = s.to_owned();
    let mut n: usize = chars_of(s).len();
    while n < width
        invariant
            n == out@.len(),
            padded(s@, width as int) == padded(out@, width as int),
        decreases width - n,
    {
        out.push(' ');
        n += 1;
    }
    out
}

/// A text moved to the right end of a width by spaces before it.
pub open spec fn right_padded(s: Seq<char>, width: int) -> Seq<char>
    decreases width - s.len(),
{
    if s.len() >= width {
        s
    } else {
        right_padded(seq![' '] + s, width)
    }
}

/// A text moved to the right end of a width by spaces before it.
pub fn pad_left(s: &str, width: usize) -> (r: String)
    ensures
        r@ == right_padded(s@, width as int),
{
    let mut out = s.to_owned();
    let mut n: usize = chars_of(s).len();
    while n < width
        invariant
            n == out@.len(),
            right_padded(s@, width as int) == right_padded(out@, width as int),
        decreases width - n,
    {
        let ghost before = out@;
        out = " ".to_owned().concat(out.as_str());
        proof {
            reveal_strlit(" ");
            assert(out@ =~= seq![' '] + before);
        }
        n += 1;
    }
    out
}

// ── Searching ───────────────────────────────────────────────────────────────

/// The first place at or after `from` where `s` holds `c`, or the end.
pub open spec fn find_from(s: Seq<char>, c: char, from: int) -> int
    decreases s.len() - from,
{
    if from < 0 || from >= s.len() {
        s.len() as int
    } else if s[from] == c {
        from
    } else {
        find_from(s, c, from + 1)
    }
}

/// What `find_from` says: everything before the place found differs from `c`.
pub proof fn lemma_find_from(s: Seq<char>, c: char, from: int)
    requires
        0 <= from <= s.len(),
    ensures
        from <= find_from(s, c, from) <= s.len(),
        forall|i: int| from <= i < find_from(s, c, from) ==> s[i] != c,
        find_from(s, c, from) < s.len() ==> s[find_from(s, c, from)] == c,
    decreases s.len() - from,
{
    if from < s.len() && s[from] != c {
        lemma_find_from(s, c, from + 1);
    }
}

/// The place of the first `c` at or after `from`.
pub fn find(cs: &Vec<char>, c: char, from: usize) -> (r: usize)
    requires
        from <= cs@.len(),
    ensures
        r == find_from(cs@, c, from as int),
        from <= r <= cs@.len(),
{
    let mut i: usize = from;
    while i < cs.len()
        invariant_except_break
            from <= i <= cs@.len(),
            find_from(cs@, c, from as int) == find_from(cs@, c, i as int),
        ensures
            from <= i <= cs@.len(),
            i == find_from(cs@, c, from as int),
        decreases cs@.len() - i,
    {
        if cs[i] == c {
            break;
        }
        i += 1;
    }
    i
}

/// Whether `p` stands in `s` at `at`.
pub open spec fn stands_at(s: Seq<char>, p: Seq<char>, at: int) -> bool {
    &&& 0 <= at
    &&& at + p.len() <= s.len()
    &&& s.subrange(at, at + p.len()) == p
}

/// Whether `s` holds `p` somewhere.
pub open spec fn holds(s: Seq<char>, p: Seq<char>) -> bool {
    exists|at: int| #[trigger] stands_at(s, p, at)
}

/// Whether `p` stands in `cs` at `at`.
pub fn matches_at(cs: &Vec<char>, p: &Vec<char>, at: usize) -> (r: bool)
    requires
        at <= cs@.len(),
    ensures
        r == stands_at(cs@, p@, at as int),
{
    if cs.len() - at < p.len() {
        return false;
    }
    let mut i: usize = 0;
    while i < p.len()
        invariant
            at + p.len() <= cs.len(),
            i <= p@.len(),
            forall|j: int| 0 <= j < i ==> cs@[at + j] == p@[j],
        decreases p@.len() - i,
    {
        if cs[at + i] != p[i] {
            proof {
                assert(cs@.subrange(at as int, at + p@.len())[i as int] != p@[i as int]);
            }
            return false;
        }
        i += 1;
    }
    proof {
        assert(cs@.subrange(at as int, at + p@.len()) =~= p@);
    }
    true
}

/// The first place at or after `from` where `p` stands in `s`, if any.
pub open spec fn find_text_from(s: Seq<char>, p: Seq<char>, from: int) -> Option<int>
    decreases s.len() + 1 - from,
{
    if from < 0 || from > s.len() {
        None
    } else if stands_at(s, p, from) {
        Some(from)
    } else {
        find_text_from(s, p, from + 1)
    }
}

/// What `find_text_from` says: the place found is the first.
pub proof fn lemma_find_text_from(s: Seq<char>, p: Seq<char>, from: int)
    requires
        0 <= from,
    ensures
        match find_text_from(s, p, from) {
            Some(k) => from <= k && stands_at(s, p, k) && forall|j: int|
                from <= j < k ==> !#[trigger] stands_at(s, p, j),
            None => forall|j: int| from <= j ==> !#[trigger] stands_at(s, p, j),
        },
    decreases s.len() + 1 - from,
{
    if from <= s.len() && !stands_at(s, p, from) {
        lemma_find_text_from(s, p, from + 1);
    }
}

/// The place of the first `p` at or after `from`.
pub fn find_text(cs: &Vec<char>, p: &Vec<char>, from: usize) -> (r: Option<usize>)
    requires
        from <= cs@.len(),
    ensures
        match r {
            Some(k) => find_text_from(cs@, p@, from as int) == Some(k as int) && from <= k && k
                + p@.len() <= cs@.len(),
            None => find_text_from(cs@, p@, from as int) is None,
        },
{
    let mut i: usize = from;
    loop
        invariant
            from <= i <= cs@.len(),
            find_text_from(cs@, p@, from as int) == find_text_from(cs@, p@, i as int),
        decreases cs@.len() - i,
    {
        if matches_at(cs, p, i) {
            return Some(i);
        }
        if i == cs.len() {
            proof {
                reveal_with_fuel(find_text_from, 2);
            }
            return None;
        }
        i += 1;
    }
}

/// Whether `s` begins with `p`.
pub fn starts_with(s: &str, p: &str) -> (r: bool)
    ensures
        r == p@.is_prefix_of(s@),
{
    let cs = chars_of(s);
    let ps = chars_of(p);
    let r = matches_at(&cs, &ps, 0);
    proof {
        if p@.len() <= s@.len() {
            assert(s@.subrange(0, p@.len() as int) =~= s@.take(p@.len() as int));
        }
    }
    r
}

/// Whether `s` ends with `p`.
pub fn ends_with(s: &str, p: &str) -> (r: bool)
    ensures
        r == p@.is_suffix_of(s@),
{
    let cs = chars_of(s);
    let ps = chars_of(p);
    if ps.len() > cs.len() {
        return false;
    }
    matches_at(&cs, &ps, cs.len() - ps.len())
}

/// Whether `s` holds `p` somewhere.
pub fn contains(s: &str, p: &str) -> (r: bool)
    ensures
        r == holds(s@, p@),
{
    let cs = chars_of(s);
    let ps = chars_of(p);
    let r = find_text(&cs, &ps, 0);
    proof {
        lemma_find_text_from(s@, p@, 0);
    }
    r.is_some()
}

// ── Splitting and joining ───────────────────────────────────────────────────

/// The pieces of `s` between occurrences of `sep`; always at least one.
pub open spec fn split(s: Seq<char>, sep: char) -> Seq<Seq<char>>
    decreases s.len(),
{
    if s.len() == 0 {
        seq![Seq::empty()]
    } else {
        let before = split(s.drop_last(), sep);
        if s.last() == sep {
            before.push(Seq::empty())
        } else {
            before.drop_last().push(before.last().push(s.last()))
        }
    }
}

/// A string always has at least one piece.
pub proof fn lemma_split_len(s: Seq<char>, sep: char)
    ensures
        split(s, sep).len() > 0,
    decreases s.len(),
{
    if s.len() > 0 {
        lemma_split_len(s.drop_last(), sep);
    }
}

/// The pieces of `s` between occurrences of `sep`.
pub fn split_on(s: &str, sep: char) -> (r: Vec<String>)
    ensures
        views(r@) == split(s@, sep),
        r@.len() > 0,
{
    let mut out: Vec<String> = Vec::new();
    let mut cur = String::new();
    let cs = chars_of(s);
    let mut i: usize = 0;
    proof {
        assert(views(out@).push(cur@) =~= split(s@.take(0), sep));
    }
    while i < cs.len()
        invariant
            cs@ == s@,
            i <= cs@.len(),
            views(out@).push(cur@) == split(s@.take(i as int), sep),
        decreases cs@.len() - i,
    {
        let ghost before = views(out@).push(cur@);
        proof {
            lemma_step(s@, i as int);
            assert(before.drop_last() =~= views(out@));
        }
        if cs[i] == sep {
            let ghost o = out@;
            out.push(cur);
            cur = String::new();
            proof {
                assert(views(out@) =~= before);
            }
        } else {
            cur.push(cs[i]);
        }
        i += 1;
    }
    proof {
        assert(s@.take(s@.len() as int) =~= s@);
    }
    let ghost o = out@;
    let ghost c = cur@;
    out.push(cur);
    proof {
        assert(views(out@) =~= views(o).push(c));
    }
    out
}

/// `line` without one trailing carriage return.
pub open spec fn strip_cr(line: Seq<char>) -> Seq<char> {
    if line.len() > 0 && line.last() == '\r' {
        line.drop_last()
    } else {
        line
    }
}

/// The lines of `s`: each ends at a line feed, with a carriage return before
/// it dropped; what follows the last line feed is a line only if not empty.
pub open spec fn lines(s: Seq<char>) -> Seq<Seq<char>> {
    let parts = split(s, '\n');
    let ended = parts.drop_last().map_values(|l: Seq<char>| strip_cr(l));
    if parts.last().len() == 0 {
        ended
    } else {
        ended.push(parts.last())
    }
}

fn without_cr(line: &String) -> (r: String)
    ensures
        r@ == strip_cr(line@),
{
    let cs = chars_of(line.as_str());
    if cs.len() > 0 && cs[cs.len() - 1] == '\r' {
        let r = slice(&cs, 0, cs.len() - 1);
        proof {
            assert(r@ =~= strip_cr(line@));
        }
        r
    } else {
        line.clone()
    }
}

/// The lines of `s`.
pub fn lines_of(s: &str) -> (r: Vec<String>)
    ensures
        views(r@) == lines(s@),
{
    let parts = split_on(s, '\n');
    let mut out: Vec<String> = Vec::new();
    let mut i: usize = 0;
    let ghost all = views(parts@);
    let ghost ended = all.drop_last().map_values(|l: Seq<char>| strip_cr(l));
    while i < parts.len() - 1
        invariant
            parts@.len() > 0,
            i <= parts@.len() - 1,
            all == views(parts@),
            ended == all.drop_last().map_values(|l: Seq<char>| strip_cr(l)),
            views(out@) == ended.take(i as int),
        decreases parts@.len() - i,
    {
        let ghost o = out@;
        let l = without_cr(&parts[i]);
        let ghost lv = l@;
        out.push(l);
        proof {
            lemma_step(ended, i as int);
            assert(all.drop_last()[i as int] == parts@[i as int]@);
            assert(views(out@) =~= views(o).push(lv));
        }
        i += 1;
    }
    let last = &parts[parts.len() - 1];
    proof {
        assert(ended.take(ended.len() as int) =~= ended);
        assert(all.last() == last@);
    }
    if !last.as_str().is_empty() {
        let ghost o = out@;
        out.push(last.clone());
        proof {
            assert(views(out@) =~= views(o).push(last@));
        }
    }
    out
}

/// `parts` with `sep` between each two.
pub open spec fn join(parts: Seq<Seq<char>>, sep: Seq<char>) -> Seq<char>
    decreases parts.len(),
{
    if parts.len() == 0 {
        Seq::empty()
    } else if parts.len() == 1 {
        parts[0]
    } else {
        join(parts.drop_last(), sep) + sep + parts.last()
    }
}

/// `parts` with `sep` between each two.
pub fn join_with(parts: &Vec<String>, sep: &str) -> (r: String)
    ensures
        r@ == join(views(parts@), sep@),
{
    let mut out = String::new();
    let mut i: usize = 0;
    let ghost all = views(parts@);
    while i < parts.len()
        invariant
            i <= parts@.len(),
            all == views(parts@),
            out@ == join(all.take(i as int), sep@),
        decreases parts@.len() - i,
    {
        proof {
            lemma_step(all, i as int);
        }
        if i > 0 {
            out.append(sep);
        }
        let ghost mid = out@;
        out.append(parts[i].as_str());
        proof {
            if i == 0 {
                assert(mid.len() == 0);
                assert(out@ =~= all.take(1)[0]);
            }
        }
        i += 1;
    }
    proof {
        assert(all.take(all.len() as int) =~= all);
    }
    out
}

// ── White space ─────────────────────────────────────────────────────────────

/// The characters with the Unicode property `White_Space`.
pub open spec fn is_space(c: char) -> bool {
    ||| '\u{9}' <= c <= '\u{d}'
    ||| c == ' '
    ||| c == '\u{85}'
    ||| c == '\u{a0}'
    ||| c == '\u{1680}'
    ||| '\u{2000}' <= c <= '\u{200a}'
    ||| c == '\u{2028}'
    ||| c == '\u{2029}'
    ||| c == '\u{202f}'
    ||| c == '\u{205f}'
    ||| c == '\u{3000}'
}

/// Whether `c` is white space.
pub fn space(c: char) -> (r: bool)
    ensures
        r == is_space(c),
{
    ('\u{9}' <= c && c <= '\u{d}') || c == ' ' || c == '\u{85}' || c == '\u{a0}' || c == '\u{1680}'
        || ('\u{2000}' <= c && c <= '\u{200a}') || c == '\u{2028}' || c == '\u{2029}' || c
        == '\u{202f}' || c == '\u{205f}' || c == '\u{3000}'
}

/// `s` without the white space it begins with.
pub open spec fn trim_start(s: Seq<char>) -> Seq<char>
    decreases s.len(),
{
    if s.len() > 0 && is_space(s[0]) {
        trim_start(s.drop_first())
    } else {
        s
    }
}

/// `s` without the white space it ends with.
pub open spec fn trim_end(s: Seq<char>) -> Seq<char>
    decreases s.len(),
{
    if s.len() > 0 && is_space(s.last()) {
        trim_end(s.drop_last())
    } else {
        s
    }
}

/// `s` without the white space around it.
pub open spec fn trim(s: Seq<char>) -> Seq<char> {
    trim_end(trim_start(s))
}

/// `s` without the white space it begins with.
pub fn trimmed_start(s: &str) -> (r: String)
    ensures
        r@ == trim_start(s@),
{
    let cs = chars_of(s);
    let mut i: usize = 0;
    proof {
        assert(s@.skip(0) =~= s@);
    }
    while i < cs.len() && space(cs[i])
        invariant
            cs@ == s@,
            i <= cs@.len(),
            trim_start(s@) == trim_start(s@.skip(i as int)),
        decreases cs@.len() - i,
    {
        proof {
            assert(s@.skip(i as int).drop_first() =~= s@.skip(i + 1));
        }
        i += 1;
    }
    let r = slice(&cs, i, cs.len());
    proof {
        assert(r@ =~= s@.skip(i as int));
    }
    r
}

/// `s` without the white space it ends with.
pub fn trimmed_end(s: &str) -> (r: String)
    ensures
        r@ == trim_end(s@),
{
    let cs = chars_of(s);
    let mut n: usize = cs.len();
    proof {
        assert(s@.take(s@.len() as int) =~= s@);
    }
    while n > 0 && space(cs[n - 1])
        invariant
            cs@ == s@,
            n <= cs@.len(),
            trim_end(s@) == trim_end(s@.take(n as int)),
        decreases n,
    {
        proof {
            assert(s@.take(n as int).drop_last() =~= s@.take(n - 1));
        }
        n -= 1;
    }
    let r = slice(&cs, 0, n);
    proof {
        assert(r@ =~= s@.take(n as int));
    }
    r
}

/// `s` without the white space around it.
pub fn trimmed(s: &str) -> (r: String)
    ensures
        r@ == trim(s@),
{
    let t = trimmed_start(s);
    trimmed_end(t.as_str())
}

// ── Bytes ───────────────────────────────────────────────────────────────────

/// How many bytes a character takes in UTF-8.
pub open spec fn width(c: char) -> nat {
    encode_scalar(c as u32).len()
}

/// How many bytes a text takes in UTF-8.
pub open spec fn byte_len(s: Seq<char>) -> nat {
    encode_utf8(s).len()
}

/// Encoding goes character by character.
pub proof fn lemma_encode_push(s: Seq<char>, c: char)
    ensures
        encode_utf8(s.push(c)) == encode_utf8(s) + encode_scalar(c as u32),
    decreases s.len(),
{
    reveal_with_fuel(encode_utf8, 2);
    if s.len() == 0 {
        assert(s.push(c).drop_first() =~= Seq::<char>::empty());
        assert(encode_utf8(s.push(c)) =~= encode_scalar(c as u32));
        assert(encode_utf8(s) =~= Seq::<u8>::empty());
        assert(encode_utf8(s) + encode_scalar(c as u32) =~= encode_scalar(c as u32));
    } else {
        lemma_encode_push(s.drop_first(), c);
        assert(s.push(c).drop_first() =~= s.drop_first().push(c));
        assert(encode_utf8(s.push(c)) =~= encode_utf8(s) + encode_scalar(c as u32));
    }
}

/// How many bytes `c` takes in UTF-8.
pub fn char_width(c: char) -> (r: usize)
    ensures
        r == width(c),
        1 <= r <= 4,
{
    let v: u32 = c as u32;
    if v < 0x80 {
        1
    } else if v < 0x800 {
        2
    } else if v < 0x10000 {
        3
    } else {
        4
    }
}

/// The bytes of a text in UTF-8.
pub fn bytes_of(s: &str) -> (r: Vec<u8>)
    ensures
        r@ == encode_utf8(s@),
{
    s.as_bytes_vec()
}

/// How many bytes a text takes in UTF-8.
pub fn len_of(s: &str) -> (r: usize)
    ensures
        r == byte_len(s@),
{
    let b = s.as_bytes();
    b.len()
}

/// The number of characters in the longest prefix of `s` that takes at most
/// `max` bytes: the character boundary at or below byte `max`.
pub open spec fn boundary_below(s: Seq<char>, max: int) -> int
    decreases s.len(),
{
    if byte_len(s) <= max || s.len() == 0 {
        s.len() as int
    } else {
        boundary_below(s.drop_last(), max)
    }
}

/// What `boundary_below` says: the prefix fits, and one more character would
/// not.
pub proof fn lemma_boundary_below(s: Seq<char>, max: int)
    requires
        0 <= max,
    ensures
        0 <= boundary_below(s, max) <= s.len(),
        byte_len(s.take(boundary_below(s, max))) <= max,
        boundary_below(s, max) < s.len() ==> byte_len(s.take(boundary_below(s, max) + 1)) > max,
    decreases s.len(),
{
    if byte_len(s) <= max || s.len() == 0 {
        assert(s.take(s.len() as int) =~= s);
    } else {
        let d = s.drop_last();
        lemma_boundary_below(d, max);
        let n = boundary_below(d, max);
        assert(s.take(n) =~= d.take(n));
        if n < d.len() {
            assert(s.take(n + 1) =~= d.take(n + 1));
        } else {
            assert(s.take(n + 1) =~= s);
        }
    }
}

/// Longer prefixes take more bytes.
pub proof fn lemma_byte_len_monotone(s: Seq<char>, a: int, b: int)
    requires
        0 <= a <= b <= s.len(),
    ensures
        byte_len(s.take(a)) + (b - a) <= byte_len(s.take(b)),
    decreases b - a,
{
    if a < b {
        lemma_byte_len_monotone(s, a, b - 1);
        lemma_encode_push(s.take(b - 1), s[b - 1]);
        assert(s.take(b) =~= s.take(b - 1).push(s[b - 1]));
    }
}

/// The number of characters in the longest prefix that takes at most `max`
/// bytes.
pub fn floor_boundary(cs: &Vec<char>, max: usize) -> (r: usize)
    ensures
        r == boundary_below(cs@, max as int),
        r <= cs@.len(),
        byte_len(cs@.take(r as int)) <= max,
{
    let mut used: usize = 0;
    let mut i: usize = 0;
    while i < cs.len()
        invariant_except_break
            i <= cs@.len(),
            used == byte_len(cs@.take(i as int)),
            used <= max,
        ensures
            i <= cs@.len(),
            byte_len(cs@.take(i as int)) <= max,
            i < cs@.len() ==> byte_len(cs@.take(i + 1)) > max,
        decreases cs@.len() - i,
    {
        let w: usize = char_width(cs[i]);
        proof {
            lemma_step(cs@, i as int);
            lemma_encode_push(cs@.take(i as int), cs@[i as int]);
        }
        if w > max - used {
            break;
        }
        used += w;
        i += 1;
    }
    proof {
        lemma_boundary_below(cs@, max as int);
        let n = boundary_below(cs@, max as int);
        if n < i {
            lemma_byte_len_monotone(cs@, n + 1, i as int);
        } else if (i as int) < n {
            lemma_byte_len_monotone(cs@, i + 1, n);
        }
    }
    i
}

// ── Order ───────────────────────────────────────────────────────────────────

/// Lexicographic order by character, from place `i` on.
pub open spec fn lex_le_from(a: Seq<char>, b: Seq<char>, i: int) -> bool
    decreases a.len() - i,
{
    if i < 0 || i >= a.len() {
        true
    } else if i >= b.len() {
        false
    } else if a[i] != b[i] {
        a[i] < b[i]
    } else {
        lex_le_from(a, b, i + 1)
    }
}

/// Lexicographic order by character, which is the order of the bytes in UTF-8.
pub open spec fn lex_le(a: Seq<char>, b: Seq<char>) -> bool {
    lex_le_from(a, b, 0)
}

/// Of two texts each at most the other, both are the same.
pub proof fn lemma_lex_antisymmetric(a: Seq<char>, b: Seq<char>, i: int)
    requires
        0 <= i <= a.len(),
        i <= b.len(),
        a.take(i) == b.take(i),
        lex_le_from(a, b, i),
        lex_le_from(b, a, i),
    ensures
        a == b,
    decreases a.len() - i,
{
    if i >= a.len() || i >= b.len() {
        assert(a.take(i) =~= a);
        assert(b.take(i) =~= b);
    } else {
        lemma_step(a, i);
        lemma_step(b, i);
        lemma_lex_antisymmetric(a, b, i + 1);
    }
}

/// Any two texts are ordered.
pub proof fn lemma_lex_total(a: Seq<char>, b: Seq<char>, i: int)
    requires
        0 <= i,
    ensures
        lex_le_from(a, b, i) || lex_le_from(b, a, i),
    decreases a.len() - i,
{
    if i < a.len() && i < b.len() && a[i] == b[i] {
        lemma_lex_total(a, b, i + 1);
    }
}

/// The order is transitive.
pub proof fn lemma_lex_transitive(a: Seq<char>, b: Seq<char>, c: Seq<char>, i: int)
    requires
        0 <= i,
        lex_le_from(a, b, i),
        lex_le_from(b, c, i),
    ensures
        lex_le_from(a, c, i),
    decreases a.len() - i,
{
    if i < a.len() && i < b.len() && i < c.len() && a[i] == b[i] && b[i] == c[i] {
        lemma_lex_transitive(a, b, c, i + 1);
    }
}

/// Whether `a` comes before or with `b`.
pub fn at_most(a: &str, b: &str) -> (r: bool)
    ensures
        r == lex_le(a@, b@),
{
    let x = chars_of(a);
    let y = chars_of(b);
    let mut i: usize = 0;
    while i < x.len()
        invariant
            x@ == a@,
            y@ == b@,
            i <= x@.len(),
            lex_le(a@, b@) == lex_le_from(a@, b@, i as int),
        decreases x@.len() - i,
    {
        if i >= y.len() {
            return false;
        }
        if x[i] != y[i] {
            return x[i] < y[i];
        }
        i += 1;
    }
    true
}

/// Where a text goes among texts in order.
pub open spec fn text_place(ts: Seq<Seq<char>>, t: Seq<char>) -> int
    decreases ts.len(),
{
    if ts.len() == 0 || lex_le(ts.last(), t) {
        ts.len() as int
    } else {
        text_place(ts.drop_last(), t)
    }
}

/// Texts in order.
pub open spec fn in_text_order(ts: Seq<Seq<char>>) -> Seq<Seq<char>>
    decreases ts.len(),
{
    if ts.len() == 0 {
        Seq::empty()
    } else {
        let before = in_text_order(ts.drop_last());
        before.insert(text_place(before, ts.last()), ts.last())
    }
}

/// Texts in order.
pub fn sort_texts(ts: &Vec<String>) -> (r: Vec<String>)
    ensures
        views(r@) == in_text_order(views(ts@)),
{
    let ghost all = views(ts@);
    let mut out: Vec<String> = Vec::new();
    let mut i: usize = 0;
    proof {
        assert(views(out@) =~= in_text_order(all.take(0)));
    }
    while i < ts.len()
        invariant
            all == views(ts@),
            i <= ts@.len(),
            views(out@) == in_text_order(all.take(i as int)),
        decreases ts@.len() - i,
    {
        let ghost bv = views(out@);
        let ghost tv = ts@[i as int]@;
        proof {
            lemma_step(all, i as int);
            assert(all[i as int] == tv);
        }
        let mut at: usize = out.len();
        proof {
            assert(bv.take(at as int) =~= bv);
        }
        while at > 0 && !at_most(out[at - 1].as_str(), ts[i].as_str())
            invariant
                i < ts@.len(),
                bv == views(out@),
                tv == ts@[i as int]@,
                at <= out@.len(),
                text_place(bv, tv) == text_place(bv.take(at as int), tv),
            decreases at,
        {
            at -= 1;
            proof {
                lemma_step(bv, at as int);
                assert(bv[at as int] == out@[at as int]@);
            }
        }
        proof {
            if at > 0 {
                lemma_step(bv, at - 1);
                assert(bv[at - 1] == out@[at - 1]@);
            }
        }
        out.insert(at, ts[i].clone());
        proof {
            assert(views(out@) =~= bv.insert(at as int, tv));
        }
        i += 1;
    }
    proof {
        assert(all.take(i as int) =~= all);
    }
    out
}

/// Whether texts stand in order.
pub open spec fn is_text_order(ts: Seq<Seq<char>>) -> bool {
    forall|i: int, j: int| 0 <= i <= j < ts.len() ==> lex_le(#[trigger] ts[i], #[trigger] ts[j])
}

proof fn lemma_text_place(ts: Seq<Seq<char>>, t: Seq<char>)
    requires
        is_text_order(ts),
    ensures
        0 <= text_place(ts, t) <= ts.len(),
        forall|i: int| 0 <= i < text_place(ts, t) ==> lex_le(#[trigger] ts[i], t),
        forall|i: int| text_place(ts, t) <= i < ts.len() ==> lex_le(t, #[trigger] ts[i]),
    decreases ts.len(),
{
    if ts.len() > 0 {
        let rest = ts.drop_last();
        if lex_le(ts.last(), t) {
            assert forall|i: int| 0 <= i < ts.len() implies lex_le(#[trigger] ts[i], t) by {
                assert(lex_le(ts[i], ts[ts.len() - 1]));
                lemma_lex_transitive(ts[i], ts.last(), t, 0);
            }
        } else {
            assert(is_text_order(rest)) by {
                assert forall|i: int, j: int| 0 <= i <= j < rest.len() implies lex_le(
                    #[trigger] rest[i],
                    #[trigger] rest[j],
                ) by {
                    assert(lex_le(ts[i], ts[j]));
                }
            }
            lemma_text_place(rest, t);
            lemma_lex_total(ts.last(), t, 0);
            assert forall|i: int| 0 <= i < text_place(ts, t) implies lex_le(
                #[trigger] ts[i],
                t,
            ) by {
                assert(rest[i] == ts[i]);
            }
            assert forall|i: int| text_place(ts, t) <= i < ts.len() implies lex_le(
                t,
                #[trigger] ts[i],
            ) by {
                if i < rest.len() {
                    assert(rest[i] == ts[i]);
                }
            }
        }
    }
}

/// Sorting puts texts in order and keeps each as often as it was there.
pub proof fn lemma_text_order(ts: Seq<Seq<char>>)
    ensures
        is_text_order(in_text_order(ts)),
        in_text_order(ts).to_multiset() == ts.to_multiset(),
    decreases ts.len(),
{
    broadcast use vstd::seq_lib::group_to_multiset_ensures;

    if ts.len() == 0 {
        assert(ts =~= Seq::empty());
    } else {
        let rest = ts.drop_last();
        let t = ts.last();
        lemma_text_order(rest);
        let before = in_text_order(rest);
        lemma_text_place(before, t);
        let at = text_place(before, t);
        let now = before.insert(at, t);
        assert forall|i: int, j: int| 0 <= i <= j < now.len() implies lex_le(
            #[trigger] now[i],
            #[trigger] now[j],
        ) by {
            lemma_lex_total(t, t, 0);
            if i != at && j != at {
                let a = if i < at {
                    i
                } else {
                    i - 1
                };
                let b = if j < at {
                    j
                } else {
                    j - 1
                };
                assert(now[i] == before[a]);
                assert(now[j] == before[b]);
            } else if i == at && j != at {
                assert(now[j] == before[j - 1]);
            } else if j == at && i != at {
                assert(now[i] == before[i]);
            }
        }
        assert(now.remove(at) =~= before);
        assert(now[at] == t);
        assert(now.to_multiset().count(t) > 0);
        assert(now.to_multiset() =~= before.to_multiset().insert(t));
        assert(rest.push(t) =~= ts);
        vstd::seq_lib::to_multiset_build(rest, t);
    }
}

// ── Bytes as text ───────────────────────────────────────────────────────────

/// Bytes read as UTF-8, each malformed part replaced.
pub uninterp spec fn lossy_text(bytes: Seq<u8>) -> Seq<char>;

/// `String::from_utf8_lossy`: bytes read as UTF-8. Bytes that are UTF-8 are
/// read as they are; what is put in place of others is left to `lossy_text`.
#[verifier::external_body]
pub(crate) fn read_lossy(bytes: &Vec<u8>) -> (r: String)
    ensures
        r@ == lossy_text(bytes@),
        valid_utf8(bytes@) ==> r@ == decode_utf8(bytes@),
{
    String::from_utf8_lossy(bytes).into_owned()
}

} // verus!
