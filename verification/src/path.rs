//! Paths as text: a slash separates components, a leading slash is the root.
use vstd::prelude::*;
use vstd::string::*;

use crate::text::{chars_of, lemma_split_len, lemma_step, same, slice, split, split_on, views};

verus! {

/// Whether a path begins at the root.
pub open spec fn is_absolute(p: Seq<char>) -> bool {
    p.len() > 0 && p[0] == '/'
}

/// Whether a path begins with the component `.`.
pub open spec fn begins_here(p: Seq<char>) -> bool {
    p.len() > 0 && p[0] == '.' && (p.len() == 1 || p[1] == '/')
}

/// How many characters the root, or a leading `.`, takes.
pub open spec fn base_len(p: Seq<char>) -> int {
    if is_absolute(p) || begins_here(p) {
        1
    } else {
        0
    }
}

/// `name` under `base`: an absolute name stands for itself.
pub open spec fn joined(base: Seq<char>, name: Seq<char>) -> Seq<char> {
    if is_absolute(name) {
        name
    } else if base.len() == 0 || base.last() == '/' {
        base + name
    } else {
        base + seq!['/'] + name
    }
}

/// The components among pieces: neither empty nor `.`.
pub open spec fn proper(pieces: Seq<Seq<char>>) -> Seq<Seq<char>>
    decreases pieces.len(),
{
    if pieces.len() == 0 {
        Seq::empty()
    } else {
        let before = proper(pieces.drop_last());
        if pieces.last().len() == 0 || pieces.last() == "."@ {
            before
        } else {
            before.push(pieces.last())
        }
    }
}

/// The components of a path; the root is a component of its own, and so is a
/// leading `.`.
pub open spec fn components(p: Seq<char>) -> Seq<Seq<char>> {
    let names = proper(split(p, '/'));
    if is_absolute(p) {
        seq!["/"@] + names
    } else if begins_here(p) {
        seq!["."@] + names
    } else {
        names
    }
}

/// Whether `p` lies at or under `base`, component by component.
pub open spec fn within(p: Seq<char>, base: Seq<char>) -> bool {
    components(base).is_prefix_of(components(p))
}

/// `name` under `base`.
pub fn join(base: &str, name: &str) -> (r: String)
    ensures
        r@ == joined(base@, name@),
{
    let n = chars_of(name);
    if n.len() > 0 && n[0] == '/' {
        return name.to_owned();
    }
    let b = chars_of(base);
    if b.len() == 0 || b[b.len() - 1] == '/' {
        base.to_owned().concat(name)
    } else {
        let mut out = base.to_owned();
        out.push('/');
        out.append(name);
        proof {
            assert(out@ =~= joined(base@, name@));
        }
        out
    }
}

/// Whether a path begins at the root.
pub fn absolute(p: &str) -> (r: bool)
    ensures
        r == is_absolute(p@),
{
    let cs = chars_of(p);
    cs.len() > 0 && cs[0] == '/'
}

/// The components of a path.
pub fn components_of(p: &str) -> (r: Vec<String>)
    ensures
        views(r@) == components(p@),
{
    let cs = chars_of(p);
    let pieces = split_on(p, '/');
    let mut out: Vec<String> = Vec::new();
    if cs.len() > 0 && cs[0] == '/' {
        out.push("/".to_owned());
    } else if cs.len() > 0 && cs[0] == '.' && (cs.len() == 1 || cs[1] == '/') {
        out.push(".".to_owned());
    }
    let ghost head = views(out@);
    let ghost all = views(pieces@);
    let mut i: usize = 0;
    proof {
        assert(views(out@) =~= head + proper(all.take(0)));
    }
    while i < pieces.len()
        invariant
            all == views(pieces@),
            i <= pieces@.len(),
            views(out@) == head + proper(all.take(i as int)),
        decreases pieces@.len() - i,
    {
        proof {
            lemma_step(all, i as int);
            assert(all[i as int] == pieces@[i as int]@);
        }
        if !pieces[i].as_str().is_empty() && !same(pieces[i].as_str(), ".") {
            let ghost before = out@;
            out.push(pieces[i].clone());
            proof {
                assert(views(out@) =~= views(before).push(all[i as int]));
                assert(views(before).push(all[i as int]) =~= head + proper(
                    all.take(i as int),
                ).push(all[i as int]));
            }
        }
        i += 1;
    }
    proof {
        assert(all.take(i as int) =~= all);
        assert(head + proper(all) =~= components(p@));
    }
    out
}

/// Whether `p` lies at or under `base`.
pub fn starts_with(p: &str, base: &str) -> (r: bool)
    ensures
        r == within(p@, base@),
{
    let a = components_of(p);
    let b = components_of(base);
    let ghost av = views(a@);
    let ghost bv = views(b@);
    if b.len() > a.len() {
        proof {
            assert(bv.len() > av.len());
        }
        return false;
    }
    let mut i: usize = 0;
    while i < b.len()
        invariant
            av == views(a@),
            bv == views(b@),
            av == components(p@),
            bv == components(base@),
            b@.len() <= a@.len(),
            i <= b@.len(),
            forall|j: int| 0 <= j < i ==> #[trigger] av[j] == bv[j],
        decreases b@.len() - i,
    {
        proof {
            assert(av[i as int] == a@[i as int]@);
            assert(bv[i as int] == b@[i as int]@);
        }
        if !same(a[i].as_str(), b[i].as_str()) {
            proof {
                assert(av.take(bv.len() as int)[i as int] != bv[i as int]);
            }
            return false;
        }
        i += 1;
    }
    proof {
        assert(av.take(bv.len() as int) =~= bv);
    }
    true
}

/// Whether two texts name one path.
pub fn same_path(a: &str, b: &str) -> (r: bool)
    ensures
        r == (components(a@) == components(b@)),
{
    let r = starts_with(a, b) && starts_with(b, a);
    proof {
        let x = components(a@);
        let y = components(b@);
        if r {
            assert(x.len() == y.len());
            assert(x.take(y.len() as int) =~= x);
        } else if x == y {
            assert(x.take(x.len() as int) =~= x);
        }
    }
    r
}

/// A path without what names no component at its end: slashes and `.`.
pub open spec fn trim_right(p: Seq<char>) -> Seq<char>
    decreases p.len(),
{
    if p.len() <= base_len(p) {
        p
    } else if p.last() == '/' {
        trim_right(p.drop_last())
    } else if p.last() == '.' && (p.len() - 1 == base_len(p) || p[p.len() - 2] == '/') {
        trim_right(p.drop_last())
    } else {
        p
    }
}

/// Where the last component begins.
pub open spec fn last_start(p: Seq<char>, i: int) -> int
    decreases i,
{
    if i <= 0 || i <= base_len(p) || p[i - 1] == '/' {
        i
    } else {
        last_start(p, i - 1)
    }
}

/// The path without its last component; a root or an empty path has none.
pub open spec fn parent_of(p: Seq<char>) -> Option<Seq<char>> {
    let t = trim_right(p);
    if t.len() > base_len(t) {
        Some(trim_right(t.take(last_start(t, t.len() as int))))
    } else if begins_here(t) {
        Some(Seq::empty())
    } else {
        None
    }
}

/// The last component, `..` too; a root, a lone `.` or an empty path has none.
pub open spec fn last_of(p: Seq<char>) -> Option<Seq<char>> {
    let t = trim_right(p);
    if t.len() > base_len(t) {
        Some(t.skip(last_start(t, t.len() as int)))
    } else {
        None
    }
}

proof fn lemma_last_start(p: Seq<char>, i: int)
    requires
        0 <= i <= p.len(),
    ensures
        0 <= last_start(p, i) <= i,
    decreases i,
{
    if i > 0 && i > base_len(p) && p[i - 1] != '/' {
        lemma_last_start(p, i - 1);
    }
}

fn trimmed_right(cs: &Vec<char>, len: usize) -> (n: usize)
    requires
        len <= cs@.len(),
    ensures
        n <= len,
        trim_right(cs@.take(len as int)) == cs@.take(n as int),
{
    let mut n: usize = len;
    loop
        invariant
            n <= len <= cs@.len(),
            trim_right(cs@.take(len as int)) == trim_right(cs@.take(n as int)),
        decreases n,
    {
        let ghost t = cs@.take(n as int);
        proof {
            if n > 0 {
                assert(t.drop_last() =~= cs@.take(n - 1));
                assert(t[0] == cs@[0]);
                assert(t.last() == cs@[n - 1]);
                if n > 1 {
                    assert(t[1] == cs@[1]);
                    assert(t[n - 2] == cs@[n - 2]);
                }
            }
        }
        if n == 0 {
            return n;
        }
        let base: usize = if cs[0] == '/' || (cs[0] == '.' && (n == 1 || cs[1] == '/')) {
            1
        } else {
            0
        };
        if n <= base {
            return n;
        }
        if cs[n - 1] == '/' {
            n -= 1;
        } else if cs[n - 1] == '.' && (n - 1 == base || cs[n - 2] == '/') {
            n -= 1;
        } else {
            return n;
        }
    }
}

/// Where the last component of the first `n` characters begins, if they hold
/// one beyond the root or a leading `.`.
fn last_component(cs: &Vec<char>, n: usize) -> (r: Option<usize>)
    requires
        n <= cs@.len(),
    ensures
        match r {
            Some(s) => n > base_len(cs@.take(n as int)) && s <= n && s == last_start(
                cs@.take(n as int),
                n as int,
            ),
            None => n <= base_len(cs@.take(n as int)),
        },
{
    let ghost t = cs@.take(n as int);
    if n == 0 {
        return None;
    }
    proof {
        assert(t[0] == cs@[0]);
        if n > 1 {
            assert(t[1] == cs@[1]);
        }
    }
    let base: usize = if cs[0] == '/' || (cs[0] == '.' && (n == 1 || cs[1] == '/')) {
        1
    } else {
        0
    };
    if n <= base {
        return None;
    }
    let mut i: usize = n;
    while i > base && cs[i - 1] != '/'
        invariant
            t == cs@.take(n as int),
            base == base_len(t),
            base <= i <= n <= cs@.len(),
            last_start(t, n as int) == last_start(t, i as int),
        decreases i,
    {
        proof {
            assert(t[i - 1] == cs@[i - 1]);
        }
        i -= 1;
    }
    proof {
        if i > base {
            assert(t[i - 1] == cs@[i - 1]);
        }
    }
    Some(i)
}

/// The path without its last component.
pub fn parent(p: &str) -> (r: Option<String>)
    ensures
        crate::text::opt_view(r) == parent_of(p@),
{
    let cs = chars_of(p);
    let n = trimmed_right(&cs, cs.len());
    let ghost t = trim_right(p@);
    proof {
        assert(p@.take(p@.len() as int) =~= p@);
        assert(t == cs@.take(n as int));
    }
    match last_component(&cs, n) {
        Some(s) => {
            let m = trimmed_right(&cs, s);
            let r = slice(&cs, 0, m);
            proof {
                assert(t.take(s as int) =~= cs@.take(s as int));
                assert(r@ =~= cs@.take(m as int));
            }
            Some(r)
        },
        None => {
            if n == 1 && cs[0] == '.' {
                let r = String::new();
                proof {
                    assert(t[0] == cs@[0]);
                    assert(r@ =~= Seq::<char>::empty());
                }
                Some(r)
            } else {
                proof {
                    if n > 0 {
                        assert(t[0] == cs@[0]);
                    }
                }
                None
            }
        },
    }
}

/// The last component, `..` too.
pub fn last(p: &str) -> (r: Option<String>)
    ensures
        crate::text::opt_view(r) == last_of(p@),
{
    let cs = chars_of(p);
    let n = trimmed_right(&cs, cs.len());
    let ghost t = trim_right(p@);
    proof {
        assert(p@.take(p@.len() as int) =~= p@);
        assert(t == cs@.take(n as int));
    }
    match last_component(&cs, n) {
        Some(s) => {
            let name = slice(&cs, s, n);
            proof {
                assert(name@ =~= t.skip(s as int));
            }
            Some(name)
        },
        None => None,
    }
}

proof fn lemma_trim_right(p: Seq<char>)
    ensures
        trim_right(p).len() <= p.len(),
        trim_right(p).len() <= base_len(trim_right(p)) || trim_right(p).last() != '/',
    decreases p.len(),
{
    if p.len() > base_len(p) {
        lemma_trim_right(p.drop_last());
    }
}

/// A parent is shorter than its child.
pub proof fn lemma_parent_is_shorter(p: Seq<char>)
    ensures
        parent_of(p) matches Some(q) ==> q.len() < p.len(),
{
    let t = trim_right(p);
    lemma_trim_right(p);
    if t.len() > base_len(t) {
        lemma_last_start(t, t.len() - 1);
        lemma_trim_right(t.take(last_start(t, t.len() as int)));
    }
}

proof fn lemma_split_join(a: Seq<char>, b: Seq<char>)
    ensures
        split(a + seq!['/'] + b, '/') == split(a, '/') + split(b, '/'),
    decreases b.len(),
{
    let whole = a + seq!['/'] + b;
    lemma_split_len(a, '/');
    if b.len() == 0 {
        assert(whole.drop_last() =~= a);
        assert(split(whole, '/') =~= split(a, '/') + split(b, '/'));
    } else {
        lemma_split_join(a, b.drop_last());
        lemma_split_len(b.drop_last(), '/');
        assert(whole.drop_last() =~= a + seq!['/'] + b.drop_last());
        assert(split(whole, '/') =~= split(a, '/') + split(b, '/'));
    }
}

proof fn lemma_proper_join(x: Seq<Seq<char>>, y: Seq<Seq<char>>)
    ensures
        proper(x + y) == proper(x) + proper(y),
    decreases y.len(),
{
    if y.len() == 0 {
        assert(x + y =~= x);
        assert(proper(x) + proper(y) =~= proper(x));
    } else {
        lemma_proper_join(x, y.drop_last());
        assert((x + y).drop_last() =~= x + y.drop_last());
        assert(proper(x + y) =~= proper(x) + proper(y));
    }
}

/// The names on both sides of a slash stand side by side.
proof fn lemma_names_join(a: Seq<char>, b: Seq<char>)
    ensures
        proper(split(a + seq!['/'] + b, '/')) == proper(split(a, '/')) + proper(split(b, '/')),
{
    lemma_split_join(a, b);
    lemma_proper_join(split(a, '/'), split(b, '/'));
}

/// Behind a slash, an empty piece or a `.` names nothing.
proof fn lemma_empty_piece(q: Seq<char>, m: Seq<char>, n: Seq<char>)
    requires
        q.len() > 0,
        q.last() == '/',
        m.len() == 0 || m == seq!['.'],
        n.len() > 0,
        !is_absolute(n),
    ensures
        components(q + m + seq!['/'] + n) == components(q + n),
{
    let a = q.drop_last();
    let x = q + m + seq!['/'] + n;
    let y = q + n;
    assert(y =~= a + seq!['/'] + n);
    assert(x =~= a + seq!['/'] + (m + seq!['/'] + n));
    lemma_names_join(a, n);
    lemma_names_join(a, m + seq!['/'] + n);
    lemma_names_join(m, n);
    reveal_strlit(".");
    assert("."@ =~= seq!['.']);
    reveal_with_fuel(split, 2);
    reveal_with_fuel(proper, 2);
    assert(Seq::<char>::empty().push('.') =~= seq!['.']);
    if m.len() > 0 {
        assert(m.drop_last() =~= Seq::<char>::empty());
        assert(split(m, '/') =~= seq![seq!['.']]);
        assert(split(m, '/').drop_last() =~= Seq::<Seq<char>>::empty());
    } else {
        assert(m =~= Seq::<char>::empty());
        assert(split(m, '/').drop_last() =~= Seq::<Seq<char>>::empty());
    }
    assert(proper(split(m, '/')) =~= Seq::<Seq<char>>::empty());
    assert(proper(split(x, '/')) =~= proper(split(y, '/')));
    assert(x[0] == y[0]);
    if q.len() > 1 {
        assert(x[1] == q[1] && y[1] == q[1]);
    }
}

/// A name stands at the same place under a path and under that path without
/// what names no component at its end.
pub proof fn lemma_trimmed_base(p: Seq<char>, n: Seq<char>)
    requires
        n.len() > 0,
        !is_absolute(n),
    ensures
        components(joined(trim_right(p), n)) == components(joined(p, n)),
    decreases p.len(),
{
    if p.len() <= base_len(p) {
    } else if p.last() == '/' {
        let q = p.drop_last();
        lemma_trimmed_base(q, n);
        if q.last() == '/' {
            lemma_empty_piece(q, Seq::empty(), n);
            assert(joined(p, n) =~= q + Seq::<char>::empty() + seq!['/'] + n);
        } else {
            assert(joined(p, n) =~= joined(q, n));
        }
    } else if p.last() == '.' && (p.len() - 1 == base_len(p) || p[p.len() - 2] == '/') {
        let q = p.drop_last();
        lemma_trimmed_base(q, n);
        lemma_empty_piece(q, seq!['.'], n);
        assert(joined(p, n) =~= q + seq!['.'] + seq!['/'] + n);
    }
}

/// The parent of a file in a directory is that directory, without what names no
/// component at its end.
pub proof fn lemma_parent_of_joined(d: Seq<char>, name: Seq<char>)
    requires
        name.len() > 0,
        name != "."@,
        forall|i: int| 0 <= i < name.len() ==> name[i] != '/',
    ensures
        parent_of(joined(d, name)) == Some(trim_right(d)),
{
    reveal_strlit(".");
    let lead = if d.len() == 0 || d.last() == '/' {
        d
    } else {
        d + seq!['/']
    };
    let p = joined(d, name);
    assert(p =~= lead + name);
    assert(p.last() == name.last());
    if name.len() == 1 {
        assert(name =~= seq![name[0]]);
        assert("."@ =~= seq!['.']);
    } else {
        assert(p[p.len() - 2] == name[name.len() - 2]);
    }
    assert(p[lead.len() as int] == name[0]);
    if lead.len() > 0 {
        assert(p[lead.len() - 1] == '/');
    }
    if name.len() > 1 {
        assert(p[lead.len() as int + 1] == name[1]);
    }
    assert(base_len(p) <= lead.len());
    assert(trim_right(p) == p);
    lemma_start_of_name(p, lead.len() as int, p.len() as int);
    assert(p.take(lead.len() as int) =~= lead);
    if d.len() > 0 && d.last() != '/' {
        assert(lead.drop_last() =~= d);
    }
}

proof fn lemma_start_of_name(p: Seq<char>, start: int, i: int)
    requires
        base_len(p) <= start <= i <= p.len(),
        start == 0 || start == base_len(p) || p[start - 1] == '/',
        forall|j: int| start <= j < p.len() ==> p[j] != '/',
    ensures
        last_start(p, i) == start,
    decreases i,
{
    if i > start {
        lemma_start_of_name(p, start, i - 1);
    }
}

/// A path lies within itself and within what it lies in lies in.
pub proof fn law_within_is_a_preorder(a: Seq<char>, b: Seq<char>, c: Seq<char>)
    ensures
        within(a, a),
        within(a, b) && within(b, c) ==> within(a, c),
{
    assert(components(a).take(components(a).len() as int) =~= components(a));
    if within(a, b) && within(b, c) {
        assert(components(a).take(components(c).len() as int) =~= components(b).take(
            components(c).len() as int,
        ));
    }
}

/// A plain name that is put below a directory is one more component after the
/// directory's own; the path lies within the directory.
pub proof fn law_joined_name_is_a_component(d: Seq<char>, name: Seq<char>)
    requires
        name.len() > 0,
        name != "."@,
        !name.contains('/'),
    ensures
        components(joined(d, name)) == components(d).push(name),
        within(joined(d, name), d),
{
    let p = joined(d, name);
    assert(name[0] != '/');
    assert forall|i: int| 0 <= i < name.len() implies name[i] != '/' by {}
    lemma_one_name(name);
    reveal_strlit(".");
    let none = Seq::<char>::empty();
    reveal_with_fuel(split, 2);
    reveal_with_fuel(proper, 2);
    assert(proper(split(none, '/')) =~= Seq::<Seq<char>>::empty()) by {
        assert(split(none, '/').drop_last() =~= Seq::<Seq<char>>::empty());
    }
    if d.len() == 0 {
        assert(d =~= none);
        assert(p =~= name);
        if name.len() == 1 {
            assert(name =~= seq![name[0]]);
            assert("."@ =~= seq!['.']);
        }
        assert(components(p) =~= components(d).push(name));
    } else if d.last() == '/' {
        let a = d.drop_last();
        assert(p =~= a + seq!['/'] + name);
        assert(d =~= a + seq!['/'] + none);
        lemma_names_join(a, name);
        lemma_names_join(a, none);
        assert(p[0] == d[0]);
        if d.len() > 1 {
            assert(p[1] == d[1]);
        } else {
            assert(d[0] == '/');
        }
        assert(components(p) =~= components(d).push(name));
    } else {
        lemma_names_join(d, name);
        assert(p[0] == d[0]);
        if d.len() > 1 {
            assert(p[1] == d[1]);
        } else {
            assert(p[1] == '/');
        }
        assert(components(p) =~= components(d).push(name));
    }
    assert(components(p).subrange(0, components(d).len() as int) =~= components(d));
}

proof fn lemma_one_name(name: Seq<char>)
    requires
        name.len() > 0,
        name != "."@,
        !name.contains('/'),
    ensures
        proper(split(name, '/')) == seq![name],
{
    lemma_unsplit(name);
    reveal_with_fuel(proper, 2);
    assert(seq![name].drop_last() =~= Seq::<Seq<char>>::empty());
    assert(proper(seq![name]) =~= seq![name]);
}

proof fn lemma_unsplit(name: Seq<char>)
    requires
        !name.contains('/'),
    ensures
        split(name, '/') == seq![name],
    decreases name.len(),
{
    if name.len() == 0 {
        assert(name =~= Seq::<char>::empty());
    } else {
        let front = name.drop_last();
        assert(name[name.len() - 1] != '/');
        assert(!front.contains('/')) by {
            if front.contains('/') {
                let k = choose|k: int| 0 <= k < front.len() && front[k] == '/';
                assert(name[k] == '/');
            }
        }
        lemma_unsplit(front);
        assert(front.push(name.last()) =~= name);
        assert(split(name, '/') =~= seq![name]);
    }
}

} // verus!
