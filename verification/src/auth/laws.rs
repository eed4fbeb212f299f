//! What the login flows take from the replies they get, field by field.
use vstd::prelude::*;
use vstd::string::*;
use vstd::utf8::encode_utf8;

use super::{AuthErrorView, CredentialView};
use super::codex::{
    approval_in, borrowed_of, credential_of, device_code_in, interval_in, is_fresh, is_pending,
    stored_in, token_reply_of, tokens_in, StoredView, TokenSetView,
};
use super::jwt::{account_in, account_of, claims_of, expiry_in, unpadded};
use super::openrouter::{
    answers_in, authorize_address, callback_of, key_in, query_of, response_of, second_word,
    url_encoded, url_text, CallbackView,
};
use super::pkce::challenge_of;
use crate::hash::{base64_bytes, base64_text, sha256_of};
use crate::json::{json_of, json_of_bytes, JsonView, NumView};
use crate::llm::ProviderErrorView;
use crate::text::{byte_len, dec, find_from, lemma_find_from, lines, number_of, split, trim};
use crate::text_laws::law_joined_pieces_split_back;

verus! {

// ── Tokens ──────────────────────────────────────────────────────────────────

/// A token is good until a minute before it runs out.
pub proof fn law_token_is_good_until_a_minute_before(expires_at: u64, now: u64)
    ensures
        is_fresh(expires_at, now) <==> expires_at > now + 60,
{
}

/// A stored login is used as it is while it is good, with its own account; after
/// that its refresh token is; a key is no such login, and neither is nothing.
pub proof fn law_stored_login_is_used(
    file: Map<Seq<char>, CredentialView>,
    now: u64,
    access_token: Seq<char>,
    refresh_token: Seq<char>,
    expires_at: u64,
    account_id: Seq<char>,
)
    ensures
        file.dom().contains("codex"@) && file["codex"@] == (CredentialView::Oauth {
            access_token,
            refresh_token,
            expires_at,
            account_id,
        }) ==> {
            &&& expires_at > now + 60 ==> stored_in(file, now) == Ok::<
                StoredView,
                ProviderErrorView,
            >(StoredView::Fresh(access_token, account_id))
            &&& expires_at <= now + 60 ==> stored_in(file, now) == Ok::<
                StoredView,
                ProviderErrorView,
            >(StoredView::Stale(refresh_token))
        },
        file.dom().contains("codex"@) && file["codex"@] is ApiKey ==> stored_in(file, now) is Err,
        !file.dom().contains("codex"@) ==> stored_in(file, now) is Err,
{
}

/// Tokens are read from the reply: the access token, which has to be there, the
/// refresh token, and how long they last.
pub proof fn law_tokens_are_read(
    status: Seq<char>,
    body: Seq<char>,
    v: JsonView,
    access: Seq<char>,
    refresh: Seq<char>,
    secs: int,
)
    requires
        v.get("access_token"@) == Some(JsonView::Str(access)),
        v.get("refresh_token"@) == Some(JsonView::Str(refresh)),
        v.get("expires_in"@) == Some(JsonView::Num(NumView::Int(secs))),
        0 <= secs,
    ensures
        access.len() > 0 ==> tokens_in(true, status, body, Ok(v)) == Ok::<
            TokenSetView,
            AuthErrorView,
        >(TokenSetView { access_token: access, refresh_token: refresh, expires_in: secs }),
        access.len() == 0 ==> tokens_in(true, status, body, Ok(v)) is Err,
        tokens_in(false, status, body, Ok(v)) is Err,
{
}

/// A login is its tokens, the account they name, and the moment they run out.
pub proof fn law_login_is_its_tokens(
    tokens: TokenSetView,
    account: Seq<char>,
    e: AuthErrorView,
    now: u64,
)
    requires
        0 <= tokens.expires_in,
        now + tokens.expires_in <= u64::MAX,
    ensures
        credential_of(tokens, Ok(account), now) == Some(
            Ok::<CredentialView, AuthErrorView>(
                CredentialView::Oauth {
                    access_token: tokens.access_token,
                    refresh_token: tokens.refresh_token,
                    expires_at: (now + tokens.expires_in) as u64,
                    account_id: account,
                },
            ),
        ),
        credential_of(tokens, Err(e), now) == Some(Err::<CredentialView, AuthErrorView>(e)),
{
}

/// A login that is borrowed is its file's token and account, where both say
/// anything and the token is good for another minute.
pub proof fn law_borrowed_login(
    path: Seq<char>,
    v: JsonView,
    tokens: JsonView,
    access: Seq<char>,
    account: Seq<char>,
    claimed: Result<Seq<char>, AuthErrorView>,
    expires: Option<int>,
    now: u64,
)
    requires
        v.get("tokens"@) == Some(tokens),
        tokens.get("access_token"@) == Some(JsonView::Str(access)),
        tokens.get("account_id"@) == Some(JsonView::Str(account)),
    ensures
        ({
            let good = access.len() > 0 && account.len() > 0 && match expires {
                Some(at) => at > now + 60,
                None => true,
            };
            let r = borrowed_of(path, v, claimed, expires, now);
            &&& r is Ok <==> good
            &&& good ==> r->Ok_0 == (access, account)
        }),
{
}

/// Where the file does not say whose the token is, the token does.
pub proof fn law_borrowed_account_is_claimed(
    path: Seq<char>,
    v: JsonView,
    tokens: JsonView,
    access: Seq<char>,
    account: Seq<char>,
    now: u64,
)
    requires
        v.get("tokens"@) == Some(tokens),
        tokens.get("access_token"@) == Some(JsonView::Str(access)),
        tokens.get("account_id"@) is None,
        access.len() > 0,
        account.len() > 0,
    ensures
        borrowed_of(path, v, Ok(account), None, now) == Ok::<
            (Seq<char>, Seq<char>),
            ProviderErrorView,
        >((access, account)),
        forall|e: AuthErrorView|
            (#[trigger] borrowed_of(path, v, Err(e), None, now)) is Err,
{
}

// ── The device flow ─────────────────────────────────────────────────────────

/// A device code is read from the reply: its id, the code to type, and how often
/// to ask, every five seconds where the reply does not say.
pub proof fn law_device_code_is_read(
    status: Seq<char>,
    body: Seq<char>,
    v: JsonView,
    id: Seq<char>,
    code: Seq<char>,
    secs: u64,
)
    requires
        v.get("device_auth_id"@) == Some(JsonView::Str(id)),
        v.get("user_code"@) == Some(JsonView::Str(code)),
    ensures
        ({
            let r = device_code_in(true, status, body, Ok(v));
            &&& r is Ok <==> id.len() > 0 && code.len() > 0
            &&& r matches Ok(d) ==> {
                &&& d.device_auth_id == id
                &&& d.user_code == code
                &&& v.get("interval"@) is None ==> d.interval == 5
                &&& v.get("interval"@) == Some(JsonView::Num(NumView::Int(secs as int))) && secs
                    > 0 ==> d.interval == secs
            }
        }),
        device_code_in(false, status, body, Ok(v)) is Err,
{
}

/// The interval may be written as a number or as its digits.
pub proof fn law_interval_is_read(v: JsonView, text: Seq<char>, n: int)
    ensures
        v.get("interval"@) == Some(JsonView::Str(text)) && number_of(trim(text)) == Some(n) && n
            != 0 ==> interval_in(v) == n,
        v.get("interval"@) == Some(JsonView::Num(NumView::Int(n))) && n > 0 ==> interval_in(v) == n,
        v.get("interval"@) == Some(JsonView::Num(NumView::Int(0))) ==> interval_in(v) == 5,
        v.get("interval"@) is None ==> interval_in(v) == 5,
{
}

/// An approval is the code and its verifier, both of which have to be there;
/// while the user has not answered, the server says forbidden or not found.
pub proof fn law_approval_is_read(
    status: u16,
    body: Seq<char>,
    v: JsonView,
    code: Seq<char>,
    verifier: Seq<char>,
)
    requires
        v.get("authorization_code"@) == Some(JsonView::Str(code)),
        v.get("code_verifier"@) == Some(JsonView::Str(verifier)),
    ensures
        ({
            let r = approval_in(status, body, Ok(v));
            &&& r is Ok <==> status < 400 && code.len() > 0 && verifier.len() > 0
            &&& r matches Ok(a) ==> a.authorization_code == code && a.code_verifier == verifier
        }),
        is_pending(status) <==> status == 403 || status == 404,
{
}

// ── What a token says ───────────────────────────────────────────────────────

/// A token's claims are its second part: the text between the first two dots,
/// decoded and read.
pub proof fn law_claims_are_the_second_part(
    header: Seq<char>,
    body: Seq<char>,
    signature: Seq<char>,
)
    requires
        !header.contains('.'),
        !body.contains('.'),
        !signature.contains('.'),
    ensures
        ({
            let token = header + seq!['.'] + body + seq!['.'] + signature;
            match base64_bytes(unpadded(body)) {
                Ok(raw) => match json_of_bytes(raw) {
                    Ok(v) => claims_of(token) == Ok::<JsonView, AuthErrorView>(v),
                    Err(_) => claims_of(token) is Err,
                },
                Err(_) => claims_of(token) is Err,
            }
        }),
{
    let token = header + seq!['.'] + body + seq!['.'] + signature;
    let parts = seq![header, body, signature];
    law_joined_pieces_split_back(parts, '.');
    reveal_with_fuel(crate::text::join, 4);
    assert(parts.drop_last() =~= seq![header, body]);
    assert(parts.drop_last().drop_last() =~= seq![header]);
    assert(crate::text::join(parts, seq!['.']) =~= token);
}

/// The account and the expiry are read where a token's claims say them; an empty
/// account is none.
pub proof fn law_claims_are_read(claims: JsonView, auth: JsonView, id: Seq<char>, at: int)
    ensures
        claims.get("https://api.openai.com/auth"@) == Some(auth) && auth.get("chatgpt_account_id"@)
            == Some(JsonView::Str(id)) && id.len() > 0 ==> account_in(claims) == Some(id)
            && account_of(Ok(claims)) == Ok::<Seq<char>, AuthErrorView>(id),
        claims.get("https://api.openai.com/auth"@) == Some(auth) && auth.get("chatgpt_account_id"@)
            == Some(JsonView::Str(Seq::empty())) ==> account_in(claims) is None,
        claims.get("https://api.openai.com/auth"@) is None ==> account_in(claims) is None
            && account_of(Ok(claims)) is Err,
        claims.get("exp"@) == Some(JsonView::Num(NumView::Int(at))) && 0 <= at ==> expiry_in(claims)
            == Some(at),
        claims.get("exp"@) is None ==> expiry_in(claims) is None,
{
}

/// The padding at a text's end goes, and nothing else.
pub proof fn law_padding_goes(s: Seq<char>)
    ensures
        unpadded(s.push('=')) == unpadded(s),
        s.len() > 0 && s.last() != '=' ==> unpadded(s) == s,
{
    assert(s.push('=').drop_last() =~= s);
}

/// A challenge is the digest of its verifier, written out.
pub proof fn law_challenge_is_the_digest(verifier: Seq<char>)
    ensures
        challenge_of(verifier) == base64_text(sha256_of(encode_utf8(verifier))),
{
}

// ── The browser flow ────────────────────────────────────────────────────────

/// The page to authorize at carries the challenge, and the address to come back
/// to where there is one.
pub proof fn law_authorize_address(challenge: Seq<char>, callback: Seq<char>)
    ensures
        authorize_address(challenge, Some(callback))
            == "https://openrouter.ai"@ + "/auth?callback_url="@ + url_encoded(
            encode_utf8(callback),
        ) + "&code_challenge="@ + challenge + "&code_challenge_method=S256"@,
        authorize_address(challenge, None)
            == "https://openrouter.ai"@ + "/auth?key_label=bullpen&code_challenge="@ + challenge
            + "&code_challenge_method=S256"@,
{
}

/// What the browser brings is read pair by pair: the code, where it says
/// anything, and the error, each the last that is given.
pub proof fn law_callback_pairs_are_read(pairs: Seq<Seq<char>>, value: Seq<char>)
    ensures
        answers_in(Seq::empty()) == (None::<Seq<char>>, None::<Seq<char>>),
        value.len() > 0 ==> answers_in(pairs.push("code="@ + value)) == (
            Some(url_text(value)),
            answers_in(pairs).1,
        ),
        answers_in(pairs.push("error="@ + value)) == (
            answers_in(pairs).0,
            Some(url_text(value)),
        ),
        answers_in(pairs.push("code="@)) == answers_in(pairs),
        !value.contains('=') ==> answers_in(pairs.push(value)) == answers_in(pairs),
{
    reveal_strlit("code=");
    reveal_strlit("error=");
    reveal_strlit("code");
    reveal_strlit("error");
    let a = "code="@ + value;
    let b = "error="@ + value;
    let c = "code="@;
    assert(pairs.push(a).drop_last() =~= pairs);
    assert(pairs.push(b).drop_last() =~= pairs);
    assert(pairs.push(c).drop_last() =~= pairs);
    assert(pairs.push(value).drop_last() =~= pairs);
    lemma_find_from(a, '=', 0);
    lemma_find_from(b, '=', 0);
    lemma_find_from(c, '=', 0);
    lemma_find_from(value, '=', 0);
    assert(a[4] == '=' && a[0] == 'c' && a[1] == 'o' && a[2] == 'd' && a[3] == 'e');
    assert(b[5] == '=' && b[0] == 'e' && b[1] == 'r' && b[2] == 'r' && b[3] == 'o' && b[4] == 'r');
    assert(c[4] == '=' && c[0] == 'c' && c[1] == 'o' && c[2] == 'd' && c[3] == 'e');
    assert(find_from(a, '=', 0) == 4);
    assert(find_from(b, '=', 0) == 5);
    assert(find_from(c, '=', 0) == 4);
    assert(a.take(4) =~= "code"@);
    assert(a.skip(5) =~= value);
    assert(b.take(5) =~= "error"@);
    assert(b.skip(6) =~= value);
    assert(c.take(4) =~= "code"@);
    assert(c.skip(5).len() == 0);
    assert("code"@.len() != "error"@.len());
}

/// A callback is told by the request's target: a code wins over an error, and a
/// request with neither is not the callback.
pub proof fn law_callback_is_told(request: Seq<char>, target: Seq<char>)
    requires
        lines(request).len() > 0,
        second_word(lines(request)[0]) == Some(target),
    ensures
        match answers_in(split(query_of(target), '&')) {
            (Some(code), _) => callback_of(request) == CallbackView::Code(code),
            (None, Some(e)) => callback_of(request) == CallbackView::Denied(e),
            (None, None) => callback_of(request) is Stray,
        },
{
}

/// A code ends the wait with it, a denial with its error; anything else is
/// waited past. Every request that can be read is answered.
pub proof fn law_callback_ends_the_wait(code: Seq<char>, e: Seq<char>)
    ensures
        CallbackView::Code(code).end() == Some(Ok::<Seq<char>, AuthErrorView>(code)),
        CallbackView::Denied(e).end() matches Some(Err(AuthErrorView::Flow(m))) && m
            == "authorization denied: "@ + e,
        CallbackView::Stray.end() is None,
        CallbackView::Unreadable.end() is None,
        CallbackView::Code(code).answer() is Some,
        CallbackView::Denied(e).answer() is Some,
        CallbackView::Stray.answer() is Some,
        CallbackView::Unreadable.answer() is None,
{
}

/// The query of a target is what follows its first question mark.
pub proof fn law_query_follows_the_mark(path: Seq<char>, query: Seq<char>)
    requires
        !path.contains('?'),
    ensures
        query_of(path + seq!['?'] + query) == query,
        query_of(path) == Seq::<char>::empty(),
{
    let t = path + seq!['?'] + query;
    lemma_find_from(t, '?', 0);
    lemma_find_from(path, '?', 0);
    assert(t[path.len() as int] == '?');
    assert forall|i: int| 0 <= i < path.len() implies t[i] != '?' by {
        assert(t[i] == path[i]);
    }
    assert(find_from(t, '?', 0) == path.len());
    assert(t.skip(path.len() as int + 1) =~= query);
}

/// A page is served with its length in bytes.
pub proof fn law_page_is_served(status: Seq<char>, body: Seq<char>)
    ensures
        ({
            let page = "<html><body style=\"font-family: sans-serif\"><p>"@ + body
                + "</p></body></html>"@;
            response_of(status, body) == "HTTP/1.1 "@ + status
                + "\r\nContent-Type: text/html\r\nContent-Length: "@ + dec(byte_len(page))
                + "\r\nConnection: close\r\n\r\n"@ + page
        }),
{
}

/// The key is read from a reply that succeeded and holds one.
pub proof fn law_key_is_read(status: Seq<char>, body: Seq<char>, v: JsonView, key: Seq<char>)
    ensures
        v.get("key"@) == Some(JsonView::Str(key)) ==> key_in(true, status, body, Ok(v)) == Ok::<
            Seq<char>,
            AuthErrorView,
        >(key),
        v.get("key"@) is None ==> key_in(true, status, body, Ok(v)) is Err,
        key_in(false, status, body, Ok(v)) is Err,
{
}

/// A reply with tokens becomes the login of the account that its access token
/// names.
pub proof fn law_token_reply_becomes_a_login(
    status: Seq<char>,
    body: Seq<char>,
    tokens: TokenSetView,
    account: Seq<char>,
    now: u64,
)
    requires
        tokens_in(true, status, body, json_of(body)) == Ok::<TokenSetView, AuthErrorView>(tokens),
        account_of(claims_of(tokens.access_token)) == Ok::<Seq<char>, AuthErrorView>(account),
        0 <= tokens.expires_in,
        now + tokens.expires_in <= u64::MAX,
    ensures
        token_reply_of(true, status, body, now) == Some(
            Ok::<CredentialView, AuthErrorView>(
                CredentialView::Oauth {
                    access_token: tokens.access_token,
                    refresh_token: tokens.refresh_token,
                    expires_at: (now + tokens.expires_in) as u64,
                    account_id: account,
                },
            ),
        ),
        token_reply_of(false, status, body, now) matches Some(Err(_)),
{
}

/// A fresh login keeps the refresh token it had where the reply brought none.
pub proof fn law_refresh_token_is_kept(
    access_token: Seq<char>,
    fresh: Seq<char>,
    held: Seq<char>,
    expires_at: u64,
    account_id: Seq<char>,
)
    ensures
        ({
            let login = CredentialView::Oauth {
                access_token,
                refresh_token: fresh,
                expires_at,
                account_id,
            };
            login.keeping(held) == (CredentialView::Oauth {
                access_token,
                refresh_token: (if fresh.len() == 0 {
                    held
                } else {
                    fresh
                }),
                expires_at,
                account_id,
            })
        }),
{
}

} // verus!
