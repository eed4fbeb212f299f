//! Just enough JWT reading to pull claims out of OpenAI access tokens. No
//! signature verification — these tokens are consumed, not trusted.
use vstd::prelude::*;
use vstd::string::*;
use vstd::utf8::encode_utf8;

use super::{outcome, AuthError, AuthErrorView};
use crate::hash::{base64_bytes, base64_text, decode_base64, encode_base64, is_url_safe};
use crate::json::{json_of_bytes, json_text, parse_bytes, to_text, Json, JsonView};
use crate::text::{bytes_of, chars_of, lemma_step, slice, split, split_on, views};

verus! {

/// A text without the padding at its end.
pub open spec fn unpadded(s: Seq<char>) -> Seq<char>
    decreases s.len(),
{
    if s.len() > 0 && s.last() == '=' {
        unpadded(s.drop_last())
    } else {
        s
    }
}

fn unpad(s: &str) -> (r: String)
    ensures
        r@ == unpadded(s@),
{
    let cs = chars_of(s);
    let mut n: usize = cs.len();
    proof {
        assert(s@.take(n as int) =~= s@);
    }
    while n > 0 && cs[n - 1] == '='
        invariant
            cs@ == s@,
            n <= cs@.len(),
            unpadded(s@) == unpadded(s@.take(n as int)),
        decreases n,
    {
        n -= 1;
        proof {
            lemma_step(s@, n as int);
        }
    }
    proof {
        if n > 0 {
            assert(s@.take(n as int).last() == s@[n - 1]);
        }
        assert(cs@.subrange(0, n as int) =~= s@.take(n as int));
    }
    slice(&cs, 0, n)
}

/// The claims a token carries.
pub open spec fn claims_of(token: Seq<char>) -> Result<JsonView, AuthErrorView> {
    let parts = split(token, '.');
    if parts.len() < 2 {
        Err(AuthErrorView::Flow("access token is not a JWT"@))
    } else {
        match base64_bytes(unpadded(parts[1])) {
            Err(e) => Err(AuthErrorView::Flow("decode token payload: "@ + e)),
            Ok(raw) => match json_of_bytes(raw) {
                Err(e) => Err(AuthErrorView::Flow("parse token claims: "@ + e)),
                Ok(v) => Ok(v),
            },
        }
    }
}

/// The claims a token carries.
pub fn claims(token: &str) -> (r: Result<Json, AuthError>)
    ensures
        outcome(r) == claims_of(token@),
{
    let parts = split_on(token, '.');
    proof {
        assert(views(parts@).len() == parts@.len());
    }
    if parts.len() < 2 {
        return Err(AuthError::Flow("access token is not a JWT".to_owned()));
    }
    proof {
        assert(views(parts@)[1] == parts@[1]@);
    }
    let payload = unpad(parts[1].as_str());
    let raw = match decode_base64(payload.as_str()) {
        Err(e) => {
            return Err(AuthError::Flow("decode token payload: ".to_owned().concat(e.as_str())));
        },
        Ok(raw) => raw,
    };
    match parse_bytes(raw.as_slice()) {
        Err(e) => Err(AuthError::Flow("parse token claims: ".to_owned().concat(e.as_str()))),
        Ok(v) => Ok(v),
    }
}

/// The `exp` claim as unix seconds, when present.
pub open spec fn expiry_in(claims: JsonView) -> Option<int> {
    claims.nat_field("exp"@)
}

/// The `exp` claim as unix seconds, when present.
pub fn claimed_expiry(claims: &Json) -> (r: Option<u64>)
    ensures
        match r {
            Some(n) => expiry_in(claims@) == Some(n as int),
            None => expiry_in(claims@) is None,
        },
{
    claims.u64_field("exp")
}

/// The `exp` claim of a token as unix seconds, when present.
pub fn expiry(token: &str) -> (r: Option<u64>)
    ensures
        match r {
            Some(n) => claims_of(token@) is Ok && expiry_in(claims_of(token@)->Ok_0) == Some(
                n as int,
            ),
            None => claims_of(token@) is Err || expiry_in(claims_of(token@)->Ok_0) is None,
        },
{
    match claims(token) {
        Ok(c) => claimed_expiry(&c),
        Err(_) => None,
    }
}

/// The account id among claims.
pub open spec fn account_in(claims: JsonView) -> Option<Seq<char>> {
    match claims.get("https://api.openai.com/auth"@) {
        Some(auth) => match auth.str_field("chatgpt_account_id"@) {
            Some(s) => if s.len() > 0 {
                Some(s)
            } else {
                None
            },
            None => None,
        },
        None => None,
    }
}

/// The account id of a token.
pub open spec fn account_of(claims: Result<JsonView, AuthErrorView>) -> Result<
    Seq<char>,
    AuthErrorView,
> {
    match claims {
        Err(e) => Err(e),
        Ok(c) => match account_in(c) {
            Some(id) => Ok(id),
            None => Err(AuthErrorView::Flow("token missing chatgpt_account_id claim"@)),
        },
    }
}

/// The account id among claims that were read.
pub fn claimed_account(claims: Result<Json, AuthError>) -> (r: Result<String, AuthError>)
    ensures
        outcome(r) == account_of(outcome(claims)),
{
    let c = match claims {
        Err(e) => {
            return Err(e);
        },
        Ok(c) => c,
    };
    match c.get("https://api.openai.com/auth") {
        Some(auth) => match auth.str_field("chatgpt_account_id") {
            Some(s) => {
                if !s.is_empty() {
                    return Ok(s.to_owned());
                }
            },
            None => {},
        },
        None => {},
    }
    Err(AuthError::Flow("token missing chatgpt_account_id claim".to_owned()))
}

/// The ChatGPT account id required by the Codex subscription backend.
pub fn chatgpt_account_id(token: &str) -> (r: Result<String, AuthError>)
    ensures
        outcome(r) == account_of(claims_of(token@)),
{
    claimed_account(claims(token))
}

/// An unsigned token.
pub open spec fn crafted(header: Seq<char>, body: Seq<char>) -> Seq<char> {
    header + "."@ + body + ".sig"@
}

/// The header of an unsigned token.
pub open spec fn unsigned_header() -> Seq<char> {
    base64_text(encode_utf8("{\"alg\":\"none\"}"@))
}

/// Build an unsigned JWT with the given payload (tests and fixtures only).
pub fn craft_unsigned(payload: &Json) -> (r: String)
    ensures
        r@ == crafted(unsigned_header(), base64_text(encode_utf8(json_text(payload@)))),
        claims_of(r@) == match json_of_bytes(encode_utf8(json_text(payload@))) {
            Ok(v) => Ok::<JsonView, AuthErrorView>(v),
            Err(e) => Err(AuthErrorView::Flow("parse token claims: "@ + e)),
        },
{
    let text = to_text(payload);
    let plain = bytes_of("{\"alg\":\"none\"}");
    let header = encode_base64(plain.as_slice());
    let raw = bytes_of(text.as_str());
    let body = encode_base64(raw.as_slice());
    let ghost h = header@;
    let ghost b = body@;
    let token = header.concat(".").concat(body.as_str()).concat(".sig");
    proof {
        lemma_crafted(h, b);
        lemma_no_padding(b);
    }
    token
}

/// A URL-safe text has no padding.
proof fn lemma_no_padding(s: Seq<char>)
    requires
        forall|i: int| 0 <= i < s.len() ==> is_url_safe(#[trigger] s[i]),
    ensures
        unpadded(s) == s,
{
    if s.len() > 0 {
        assert(is_url_safe(s[s.len() - 1]));
    }
}

proof fn lemma_split_plain(s: Seq<char>)
    requires
        forall|i: int| 0 <= i < s.len() ==> #[trigger] s[i] != '.',
    ensures
        split(s, '.') == seq![s],
    decreases s.len(),
{
    if s.len() > 0 {
        lemma_split_plain(s.drop_last());
        let before = split(s.drop_last(), '.');
        assert(s[s.len() - 1] != '.');
        assert(before.drop_last().push(before.last().push(s.last())) =~= seq![s]) by {
            assert(s.drop_last().push(s.last()) =~= s);
        }
    } else {
        assert(s =~= Seq::<char>::empty());
    }
}

/// Splitting at one more dot and plain text behind it.
proof fn lemma_split_more(s: Seq<char>, t: Seq<char>)
    requires
        forall|i: int| 0 <= i < t.len() ==> #[trigger] t[i] != '.',
    ensures
        split(s + seq!['.'] + t, '.') == split(s, '.').push(t),
    decreases t.len(),
{
    let whole = s + seq!['.'] + t;
    if t.len() == 0 {
        assert(whole =~= s.push('.'));
        assert(whole.drop_last() =~= s);
        assert(t =~= Seq::<char>::empty());
    } else {
        lemma_split_more(s, t.drop_last());
        assert(whole.drop_last() =~= s + seq!['.'] + t.drop_last());
        assert(t[t.len() - 1] != '.');
        let before = split(whole.drop_last(), '.');
        assert(before == split(s, '.').push(t.drop_last()));
        assert(t.drop_last().push(t.last()) =~= t);
        assert(before.drop_last() =~= split(s, '.'));
    }
}

/// The middle part of a crafted token is its body.
proof fn lemma_crafted(header: Seq<char>, body: Seq<char>)
    requires
        forall|i: int| 0 <= i < header.len() ==> is_url_safe(#[trigger] header[i]),
        forall|i: int| 0 <= i < body.len() ==> is_url_safe(#[trigger] body[i]),
    ensures
        split(crafted(header, body), '.').len() == 3,
        split(crafted(header, body), '.')[1] == body,
{
    reveal_strlit(".");
    reveal_strlit(".sig");
    let sig = seq!['s', 'i', 'g'];
    assert forall|i: int| 0 <= i < header.len() implies #[trigger] header[i] != '.' by {
        assert(is_url_safe(header[i]));
    }
    assert forall|i: int| 0 <= i < body.len() implies #[trigger] body[i] != '.' by {
        assert(is_url_safe(body[i]));
    }
    lemma_split_plain(header);
    lemma_split_more(header, body);
    let two = header + seq!['.'] + body;
    lemma_split_more(two, sig);
    assert(crafted(header, body) =~= two + seq!['.'] + sig);
}

} // verus!
