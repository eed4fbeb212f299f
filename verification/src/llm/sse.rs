//! Minimal server-sent-events parsing over a fully buffered body.
//!
//! Turn results are presented whole, so streams are buffered and the `data:`
//! payloads extracted after the fact.
use vstd::prelude::*;
use vstd::string::*;

use crate::text::{
    chars_of, lemma_step, lines, lines_of, same, slice, starts_with, trim, trimmed, views,
};

verus! {

/// The payload a line carries, if it carries one.
pub open spec fn payload(line: Seq<char>) -> Option<Seq<char>> {
    let t = trim(line);
    if "data:"@.is_prefix_of(t) {
        let data = trim(t.skip("data:"@.len() as int));
        if data.len() == 0 || data == "[DONE]"@ {
            None
        } else {
            Some(data)
        }
    } else {
        None
    }
}

/// The payloads of lines, in order.
pub open spec fn payloads(ls: Seq<Seq<char>>) -> Seq<Seq<char>>
    decreases ls.len(),
{
    if ls.len() == 0 {
        Seq::empty()
    } else {
        let before = payloads(ls.drop_last());
        match payload(ls.last()) {
            Some(data) => before.push(data),
            None => before,
        }
    }
}

fn payload_of(line: &str) -> (r: Option<String>)
    ensures
        match r {
            Some(s) => payload(line@) == Some(s@),
            None => payload(line@) is None,
        },
{
    let t = trimmed(line);
    if !starts_with(t.as_str(), "data:") {
        return None;
    }
    let cs = chars_of(t.as_str());
    proof {
        reveal_strlit("data:");
        assert(t@.len() >= 5);
    }
    let rest = slice(&cs, 5, cs.len());
    proof {
        assert(rest@ =~= t@.skip(5));
    }
    let data = trimmed(rest.as_str());
    if data.as_str().is_empty() || same(data.as_str(), "[DONE]") {
        None
    } else {
        Some(data)
    }
}

/// The payload of every `data:` line, skipping blanks and `[DONE]`.
pub fn data_lines(body: &str) -> (r: Vec<String>)
    ensures
        views(r@) == payloads(lines(body@)),
{
    let ls = lines_of(body);
    let ghost all = views(ls@);
    let mut out: Vec<String> = Vec::new();
    let mut i: usize = 0;
    proof {
        assert(views(out@) =~= payloads(all.take(0)));
    }
    while i < ls.len()
        invariant
            all == views(ls@),
            i <= ls@.len(),
            views(out@) == payloads(all.take(i as int)),
        decreases ls@.len() - i,
    {
        proof {
            lemma_step(all, i as int);
            assert(all[i as int] == ls@[i as int]@);
        }
        match payload_of(ls[i].as_str()) {
            Some(data) => {
                let ghost before = out@;
                let ghost dv = data@;
                out.push(data);
                proof {
                    assert(views(out@) =~= views(before).push(dv));
                }
            },
            None => {},
        }
        i += 1;
    }
    proof {
        assert(all.take(i as int) =~= all);
    }
    out
}

} // verus!
