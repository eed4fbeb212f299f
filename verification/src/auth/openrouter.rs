//! OpenRouter's OAuth flow with PKCE.
//!
//! The browser authorizes at OpenRouter and comes back to a callback on
//! localhost with a code, which is then exchanged for a plain API key; there
//! are no refresh tokens. Without a callback the code is shown on screen for
//! pasting.
use vstd::prelude::*;
use vstd::string::*;
use vstd::utf8::{
    decode_utf8, encode_utf8, encode_utf8_decode_utf8, encode_utf8_valid_utf8, is_ascii_chars,
    is_ascii_chars_encode_utf8, valid_utf8,
};

use super::{outcome, AuthError, AuthErrorView};
use crate::json::{json_of, parse, Json, JsonView};
use crate::text::{
    byte_len, bytes_of, chars_of, dec, decimal, find, find_from, is_space, lemma_step, len_of,
    lines, lines_of, lossy_text, read_lossy, same, slice, space, split, split_on, trim_start,
    trimmed_start, views,
};

verus! {

/// The provider's name in the credential store.
pub const PROVIDER: &'static str = "openrouter";

/// The host that authorizes and hands out keys.
pub const AUTH_HOST: &'static str = "https://openrouter.ai";

// ── URL coding ──────────────────────────────────────────────────────────────

/// A byte that stands for itself in a URL.
pub open spec fn is_plain(b: u8) -> bool {
    ||| 65 <= b <= 90
    ||| 97 <= b <= 122
    ||| 48 <= b <= 57
    ||| b == 45
    ||| b == 95
    ||| b == 46
    ||| b == 126
}

/// An upper-case hexadecimal digit of value `d`.
pub open spec fn upper_digit(d: int) -> char {
    if d < 10 {
        ('0' as int + d) as char
    } else {
        ('A' as int + (d - 10)) as char
    }
}

/// A byte as it stands in a URL.
pub open spec fn url_piece(b: u8) -> Seq<char> {
    if is_plain(b) {
        seq![b as char]
    } else {
        seq!['%', upper_digit(b as int / 16), upper_digit(b as int % 16)]
    }
}

/// Bytes as they stand in a URL.
pub open spec fn url_encoded(bytes: Seq<u8>) -> Seq<char>
    decreases bytes.len(),
{
    if bytes.len() == 0 {
        Seq::empty()
    } else {
        url_encoded(bytes.drop_last()) + url_piece(bytes.last())
    }
}

fn upper_char(d: u8) -> (r: char)
    requires
        d < 16,
    ensures
        r == upper_digit(d as int),
{
    if d < 10 {
        (48 + d) as char
    } else {
        (65 + (d - 10)) as char
    }
}

/// A text as it stands in a URL.
pub fn urlencode(s: &str) -> (r: String)
    ensures
        r@ == url_encoded(encode_utf8(s@)),
{
    let bytes = bytes_of(s);
    let ghost all = bytes@;
    let mut out = String::new();
    let mut i: usize = 0;
    while i < bytes.len()
        invariant
            all == bytes@,
            i <= bytes@.len(),
            out@ == url_encoded(all.take(i as int)),
        decreases bytes@.len() - i,
    {
        let b: u8 = bytes[i];
        proof {
            lemma_step(all, i as int);
        }
        let ghost before = out@;
        if (65 <= b && b <= 90) || (97 <= b && b <= 122) || (48 <= b && b <= 57) || b == 45 || b
            == 95 || b == 46 || b == 126 {
            out.push(b as char);
        } else {
            out.push('%');
            out.push(upper_char(b / 16));
            out.push(upper_char(b % 16));
        }
        proof {
            assert(out@ =~= before + url_piece(b));
        }
        i += 1;
    }
    proof {
        assert(all.take(i as int) =~= all);
    }
    out
}

/// The value of a hexadecimal digit.
pub open spec fn digit_value(b: u8) -> Option<int> {
    if 48 <= b <= 57 {
        Some(b - 48)
    } else if 65 <= b <= 70 {
        Some(b - 55)
    } else if 97 <= b <= 102 {
        Some(b - 87)
    } else {
        None
    }
}

/// The number two characters say in hexadecimal; the first may be a plus sign.
pub open spec fn pair_value(a: u8, b: u8) -> Option<int> {
    match (digit_value(a), digit_value(b)) {
        (Some(x), Some(y)) => Some(x * 16 + y),
        (None, Some(y)) => if a == 43 {
            Some(y)
        } else {
            None
        },
        _ => None,
    }
}

/// What the bytes of a URL stand for from place `i` on. A percent sign that no
/// number follows stands for itself, a plus sign for a blank.
pub open spec fn url_decoded(bytes: Seq<u8>, i: int) -> Seq<u8>
    decreases bytes.len() - i,
{
    if i < 0 || i >= bytes.len() {
        Seq::empty()
    } else if bytes[i] == 37 && i + 2 < bytes.len() {
        match pair_value(bytes[i + 1], bytes[i + 2]) {
            Some(v) => seq![v as u8] + url_decoded(bytes, i + 3),
            None => seq![37u8] + url_decoded(bytes, i + 1),
        }
    } else if bytes[i] == 43 {
        seq![32u8] + url_decoded(bytes, i + 1)
    } else {
        seq![bytes[i]] + url_decoded(bytes, i + 1)
    }
}

fn read_digit(b: u8) -> (r: Option<u8>)
    ensures
        match r {
            Some(v) => v < 16 && digit_value(b) == Some(v as int),
            None => digit_value(b) is None,
        },
{
    if 48 <= b && b <= 57 {
        Some((b - 48) as u8)
    } else if 65 <= b && b <= 70 {
        Some((b - 55) as u8)
    } else if 97 <= b && b <= 102 {
        Some((b - 87) as u8)
    } else {
        None
    }
}

fn read_pair(a: u8, b: u8) -> (r: Option<u8>)
    ensures
        match r {
            Some(v) => pair_value(a, b) == Some(v as int),
            None => pair_value(a, b) is None,
        },
{
    match read_digit(b) {
        None => None,
        Some(y) => match read_digit(a) {
            Some(x) => Some(x * 16 + y),
            None => if a == 43 {
                Some(y)
            } else {
                None
            },
        },
    }
}

/// The bytes that the bytes of a URL stand for.
pub fn decode_bytes(bytes: &Vec<u8>) -> (r: Vec<u8>)
    ensures
        r@ == url_decoded(bytes@, 0),
{
    let mut out: Vec<u8> = Vec::new();
    let mut i: usize = 0;
    while i < bytes.len()
        invariant
            i <= bytes@.len(),
            out@ + url_decoded(bytes@, i as int) == url_decoded(bytes@, 0),
        decreases bytes@.len() - i,
    {
        let ghost before = out@;
        let ghost at = i as int;
        let b: u8 = bytes[i];
        let mut taken: usize = 1;
        if b == 37 && bytes.len() - i > 2 {
            match read_pair(bytes[i + 1], bytes[i + 2]) {
                Some(v) => {
                    out.push(v);
                    taken = 3;
                },
                None => {
                    out.push(37);
                },
            }
        } else if b == 43 {
            out.push(32);
        } else {
            out.push(b);
        }
        i += taken;
        proof {
            assert(out@ + url_decoded(bytes@, i as int) =~= before + url_decoded(bytes@, at));
        }
    }
    proof {
        assert(out@ + url_decoded(bytes@, i as int) =~= out@);
    }
    out
}

/// The text that a part of a URL stands for.
pub open spec fn url_text(s: Seq<char>) -> Seq<char> {
    lossy_text(url_decoded(encode_utf8(s), 0))
}

/// The text that a part of a URL stands for.
pub fn urldecode(s: &str) -> (r: String)
    ensures
        r@ == url_text(s@),
        valid_utf8(url_decoded(encode_utf8(s@), 0)) ==> r@ == decode_utf8(
            url_decoded(encode_utf8(s@), 0),
        ),
{
    let bytes = bytes_of(s);
    let raw = decode_bytes(&bytes);
    read_lossy(&raw)
}

proof fn lemma_encoded_is_ascii(bytes: Seq<u8>)
    ensures
        is_ascii_chars(url_encoded(bytes)),
    decreases bytes.len(),
{
    if bytes.len() > 0 {
        lemma_encoded_is_ascii(bytes.drop_last());
        let before = url_encoded(bytes.drop_last());
        let piece = url_piece(bytes.last());
        assert forall|i: int| 0 <= i < url_encoded(bytes).len() implies '\0' <= #[trigger] url_encoded(
            bytes,
        )[i] <= '\u{7f}' by {
            if i < before.len() {
                assert(url_encoded(bytes)[i] == before[i]);
            } else {
                assert(url_encoded(bytes)[i] == piece[i - before.len()]);
            }
        }
    }
}

/// The encoding of a prefix is a prefix of the encoding.
proof fn lemma_encoded_prefix(bytes: Seq<u8>, k: int)
    requires
        0 <= k <= bytes.len(),
    ensures
        url_encoded(bytes.take(k)).len() <= url_encoded(bytes).len(),
        forall|j: int|
            0 <= j < url_encoded(bytes.take(k)).len() ==> url_encoded(bytes.take(k))[j]
                == #[trigger] url_encoded(bytes)[j],
    decreases bytes.len(),
{
    if k == bytes.len() {
        assert(bytes.take(k) =~= bytes);
    } else {
        lemma_encoded_prefix(bytes.drop_last(), k);
        assert(bytes.drop_last().take(k) =~= bytes.take(k));
    }
}

proof fn lemma_digit_reads_back(d: int)
    requires
        0 <= d < 16,
    ensures
        digit_value(upper_digit(d) as u8) == Some(d),
{
}

/// Decoding from where the `k`-th byte was put gives the bytes from there on.
proof fn lemma_decodes_from(bytes: Seq<u8>, k: int)
    requires
        0 <= k <= bytes.len(),
    ensures
        url_decoded(encode_utf8(url_encoded(bytes)), url_encoded(bytes.take(k)).len() as int)
            == bytes.skip(k),
    decreases bytes.len() - k,
{
    let text = url_encoded(bytes);
    let coded = encode_utf8(text);
    lemma_encoded_is_ascii(bytes);
    is_ascii_chars_encode_utf8(text);
    if k == bytes.len() {
        assert(bytes.take(k) =~= bytes);
        assert(bytes.skip(k) =~= Seq::<u8>::empty());
    } else {
        lemma_decodes_from(bytes, k + 1);
        lemma_step(bytes, k);
        let at = url_encoded(bytes.take(k)).len() as int;
        let b = bytes[k];
        let upto = url_encoded(bytes.take(k + 1));
        assert(upto == url_encoded(bytes.take(k)) + url_piece(b));
        lemma_encoded_prefix(bytes, k + 1);
        assert forall|j: int| 0 <= j < url_piece(b).len() implies coded[at + j] == #[trigger] url_piece(
            b,
        )[j] as u8 by {
            assert(upto[at + j] == url_piece(b)[j]);
            assert(text[at + j] == upto[at + j]);
        }
        assert(coded[at] == url_piece(b)[0] as u8);
        if !is_plain(b) {
            assert(coded[at + 1] == url_piece(b)[1] as u8);
            assert(coded[at + 2] == url_piece(b)[2] as u8);
            lemma_digit_reads_back(b as int / 16);
            lemma_digit_reads_back(b as int % 16);
            assert(coded[at] == 37);
            assert(pair_value(coded[at + 1], coded[at + 2]) == Some(b as int));
        } else {
            assert(coded[at] == b);
        }
        assert(bytes.skip(k) =~= seq![b] + bytes.skip(k + 1));
    }
}

/// What was put into a URL comes back out of it.
pub proof fn law_url_coding_reads_back(s: Seq<char>)
    ensures
        url_decoded(encode_utf8(url_encoded(encode_utf8(s))), 0) == encode_utf8(s),
        valid_utf8(encode_utf8(s)),
        decode_utf8(encode_utf8(s)) == s,
{
    lemma_decodes_from(encode_utf8(s), 0);
    assert(encode_utf8(s).take(0) =~= Seq::<u8>::empty());
    assert(encode_utf8(s).skip(0) =~= encode_utf8(s));
    encode_utf8_valid_utf8(s);
    encode_utf8_decode_utf8(s);
}

// ── Authorization ───────────────────────────────────────────────────────────

/// The address the browser starts at.
pub open spec fn authorize_address(challenge: Seq<char>, callback_url: Option<Seq<char>>) -> Seq<
    char,
> {
    match callback_url {
        Some(cb) => AUTH_HOST@ + "/auth?callback_url="@ + url_encoded(encode_utf8(cb))
            + "&code_challenge="@ + challenge + "&code_challenge_method=S256"@,
        None => AUTH_HOST@ + "/auth?key_label=bullpen&code_challenge="@ + challenge
            + "&code_challenge_method=S256"@,
    }
}

/// The browser URL that starts authorization. Without a callback the code is
/// displayed on screen for pasting.
pub fn authorize_url(challenge: &str, callback_url: Option<&str>) -> (r: String)
    ensures
        r@ == authorize_address(
            challenge@,
            match callback_url {
                Some(cb) => Some(cb@),
                None => None,
            },
        ),
{
    match callback_url {
        Some(cb) => {
            let coded = urlencode(cb);
            AUTH_HOST.to_owned().concat("/auth?callback_url=").concat(coded.as_str()).concat(
                "&code_challenge=",
            ).concat(challenge).concat("&code_challenge_method=S256")
        },
        None => AUTH_HOST.to_owned().concat("/auth?key_label=bullpen&code_challenge=").concat(
            challenge,
        ).concat("&code_challenge_method=S256"),
    }
}

// ── The callback ────────────────────────────────────────────────────────────

/// What a request to the callback's address is.
#[derive(Debug)]
pub enum Callback {
    /// No request line: left without an answer.
    Unreadable,
    /// Another request, such as the browser's for an icon.
    Stray,
    /// The callback, with the code.
    Code(String),
    /// The callback of an authorization that was not given.
    Denied(String),
}

/// What a request to the callback's address is.
pub enum CallbackView {
    Unreadable,
    Stray,
    Code(Seq<char>),
    Denied(Seq<char>),
}

impl View for Callback {
    type V = CallbackView;

    open spec fn view(&self) -> CallbackView {
        match self {
            Callback::Unreadable => CallbackView::Unreadable,
            Callback::Stray => CallbackView::Stray,
            Callback::Code(c) => CallbackView::Code(c@),
            Callback::Denied(e) => CallbackView::Denied(e@),
        }
    }
}

/// Where the word at the start of `s`, from `i` on, ends.
pub open spec fn word_end(s: Seq<char>, i: int) -> int
    decreases s.len() - i,
{
    if i < 0 || i >= s.len() || is_space(s[i]) {
        i
    } else {
        word_end(s, i + 1)
    }
}

/// The second word of a line: the target of a request.
pub open spec fn second_word(line: Seq<char>) -> Option<Seq<char>> {
    let first = trim_start(line);
    let rest = trim_start(first.skip(word_end(first, 0)));
    if rest.len() == 0 {
        None
    } else {
        Some(rest.take(word_end(rest, 0)))
    }
}

fn end_of_word(cs: &Vec<char>) -> (r: usize)
    ensures
        r == word_end(cs@, 0),
        r <= cs@.len(),
{
    let mut i: usize = 0;
    while i < cs.len() && !space(cs[i])
        invariant
            i <= cs@.len(),
            word_end(cs@, 0) == word_end(cs@, i as int),
        decreases cs@.len() - i,
    {
        i += 1;
    }
    i
}

fn target_of(line: &str) -> (r: Option<String>)
    ensures
        match r {
            Some(t) => second_word(line@) == Some(t@),
            None => second_word(line@) is None,
        },
{
    let first = trimmed_start(line);
    let cs = chars_of(first.as_str());
    let end: usize = end_of_word(&cs);
    let tail = slice(&cs, end, cs.len());
    proof {
        assert(tail@ =~= first@.skip(end as int));
    }
    let rest = trimmed_start(tail.as_str());
    let rs = chars_of(rest.as_str());
    if rs.len() == 0 {
        return None;
    }
    let stop: usize = end_of_word(&rs);
    proof {
        assert(rs@.subrange(0, stop as int) =~= rest@.take(stop as int));
    }
    Some(slice(&rs, 0, stop))
}

/// What follows the first question mark.
pub open spec fn query_of(target: Seq<char>) -> Seq<char> {
    let at = find_from(target, '?', 0);
    if at < target.len() {
        target.skip(at + 1)
    } else {
        Seq::empty()
    }
}

/// The last code that is not empty and the last error among the pairs of a
/// query.
pub open spec fn answers_in(pairs: Seq<Seq<char>>) -> (Option<Seq<char>>, Option<Seq<char>>)
    decreases pairs.len(),
{
    if pairs.len() == 0 {
        (None, None)
    } else {
        let (code, error) = answers_in(pairs.drop_last());
        let pair = pairs.last();
        let at = find_from(pair, '=', 0);
        if at >= pair.len() {
            (code, error)
        } else {
            let key = pair.take(at);
            let value = pair.skip(at + 1);
            if key == "code"@ && value.len() > 0 {
                (Some(url_text(value)), error)
            } else if key == "error"@ {
                (code, Some(url_text(value)))
            } else {
                (code, error)
            }
        }
    }
}

/// What a request says.
pub open spec fn callback_of(request: Seq<char>) -> CallbackView {
    if lines(request).len() == 0 {
        CallbackView::Unreadable
    } else {
        match second_word(lines(request)[0]) {
            None => CallbackView::Unreadable,
            Some(target) => match answers_in(split(query_of(target), '&')) {
                (Some(code), _) => CallbackView::Code(code),
                (None, Some(e)) => CallbackView::Denied(e),
                (None, None) => CallbackView::Stray,
            },
        }
    }
}

fn query_in(target: &str) -> (r: String)
    ensures
        r@ == query_of(target@),
{
    let cs = chars_of(target);
    let at: usize = find(&cs, '?', 0);
    if at < cs.len() {
        proof {
            assert(cs@.subrange(at + 1, cs@.len() as int) =~= target@.skip(at + 1));
        }
        slice(&cs, at + 1, cs.len())
    } else {
        String::new()
    }
}

fn read_answers(query: &str) -> (r: (Option<String>, Option<String>))
    ensures
        (crate::text::opt_view(r.0), crate::text::opt_view(r.1)) == answers_in(split(query@, '&')),
{
    let pairs = split_on(query, '&');
    let ghost all = views(pairs@);
    let mut code: Option<String> = None;
    let mut error: Option<String> = None;
    let mut i: usize = 0;
    proof {
        assert(all.take(0) =~= Seq::<Seq<char>>::empty());
    }
    while i < pairs.len()
        invariant
            all == views(pairs@),
            i <= pairs@.len(),
            (crate::text::opt_view(code), crate::text::opt_view(error)) == answers_in(
                all.take(i as int),
            ),
        decreases pairs@.len() - i,
    {
        proof {
            lemma_step(all, i as int);
            assert(all[i as int] == pairs@[i as int]@);
        }
        let cs = chars_of(pairs[i].as_str());
        let at: usize = find(&cs, '=', 0);
        if at < cs.len() {
            let key = slice(&cs, 0, at);
            let value = slice(&cs, at + 1, cs.len());
            proof {
                assert(key@ =~= cs@.take(at as int));
                assert(value@ =~= cs@.skip(at + 1));
            }
            if same(key.as_str(), "code") && value.as_str().unicode_len() > 0 {
                code = Some(urldecode(value.as_str()));
            } else if same(key.as_str(), "error") {
                error = Some(urldecode(value.as_str()));
            }
        }
        i += 1;
    }
    proof {
        assert(all.take(i as int) =~= all);
    }
    (code, error)
}

/// What the text of a request says.
pub fn callback(request: &str) -> (r: Callback)
    ensures
        r@ == callback_of(request@),
{
    let ls = lines_of(request);
    proof {
        assert(views(ls@).len() == ls@.len());
    }
    if ls.len() == 0 {
        return Callback::Unreadable;
    }
    proof {
        assert(views(ls@)[0] == ls@[0]@);
    }
    let target = match target_of(ls[0].as_str()) {
        None => {
            return Callback::Unreadable;
        },
        Some(t) => t,
    };
    let query = query_in(target.as_str());
    match read_answers(query.as_str()) {
        (Some(code), _) => Callback::Code(code),
        (None, Some(e)) => Callback::Denied(e),
        (None, None) => Callback::Stray,
    }
}

/// What the bytes of a request say.
pub fn read_request(bytes: &Vec<u8>) -> (r: Callback)
    ensures
        r@ == callback_of(lossy_text(bytes@)),
{
    let text = read_lossy(bytes);
    callback(text.as_str())
}

/// A page with one paragraph.
pub open spec fn page_of(body: Seq<char>) -> Seq<char> {
    "<html><body style=\"font-family: sans-serif\"><p>"@ + body + "</p></body></html>"@
}

/// An answer with a page.
pub open spec fn response_of(status: Seq<char>, body: Seq<char>) -> Seq<char> {
    "HTTP/1.1 "@ + status + "\r\nContent-Type: text/html\r\nContent-Length: "@ + dec(
        byte_len(page_of(body)),
    ) + "\r\nConnection: close\r\n\r\n"@ + page_of(body)
}

fn response(status: &str, body: &str) -> (r: String)
    ensures
        r@ == response_of(status@, body@),
{
    let page = "<html><body style=\"font-family: sans-serif\"><p>".to_owned().concat(body).concat(
        "</p></body></html>",
    );
    let n: usize = len_of(page.as_str());
    "HTTP/1.1 ".to_owned().concat(status).concat(
        "\r\nContent-Type: text/html\r\nContent-Length: ",
    ).concat(decimal(n as u64).as_str()).concat("\r\nConnection: close\r\n\r\n").concat(
        page.as_str(),
    )
}

impl CallbackView {
    /// What the browser is answered.
    pub open spec fn answer(self) -> Option<Seq<char>> {
        match self {
            CallbackView::Unreadable => None,
            CallbackView::Stray => Some(response_of("404 Not Found"@, "not the callback"@)),
            CallbackView::Code(_) => Some(
                response_of(
                    "200 OK"@,
                    "bullpen is connected to OpenRouter. You can close this tab."@,
                ),
            ),
            CallbackView::Denied(_) => Some(
                response_of(
                    "200 OK"@,
                    "Authorization was not completed. You can close this tab."@,
                ),
            ),
        }
    }

    /// How the wait for the callback ends, if this ends it.
    pub open spec fn end(self) -> Option<Result<Seq<char>, AuthErrorView>> {
        match self {
            CallbackView::Unreadable => None,
            CallbackView::Stray => None,
            CallbackView::Code(code) => Some(Ok(code)),
            CallbackView::Denied(e) => Some(
                Err(AuthErrorView::Flow("authorization denied: "@ + e)),
            ),
        }
    }
}

impl Callback {
    /// What the browser is answered; a request that cannot be read is not.
    pub fn answer(&self) -> (r: Option<String>)
        ensures
            crate::text::opt_view(r) == self@.answer(),
    {
        match self {
            Callback::Unreadable => None,
            Callback::Stray => Some(response("404 Not Found", "not the callback")),
            Callback::Code(_) => Some(
                response("200 OK", "bullpen is connected to OpenRouter. You can close this tab."),
            ),
            Callback::Denied(_) => Some(
                response("200 OK", "Authorization was not completed. You can close this tab."),
            ),
        }
    }

    /// How the wait for the callback ends; only the callback ends it.
    pub fn end(self) -> (r: Option<Result<String, AuthError>>)
        ensures
            match r {
                Some(end) => self@.end() == Some(outcome(end)),
                None => self@.end() is None,
            },
    {
        match self {
            Callback::Unreadable => None,
            Callback::Stray => None,
            Callback::Code(code) => Some(Ok(code)),
            Callback::Denied(e) => Some(
                Err(AuthError::Flow("authorization denied: ".to_owned().concat(e.as_str()))),
            ),
        }
    }
}

// ── The exchange ────────────────────────────────────────────────────────────

/// Where a code is exchanged for a key; `base` stands in for the host.
pub fn exchange_url(base: Option<&str>) -> (r: String)
    ensures
        r@ == match base {
            Some(b) => b@ + "/api/v1/auth/keys"@,
            None => AUTH_HOST@ + "/api/v1/auth/keys"@,
        },
{
    match base {
        Some(b) => b.to_owned().concat("/api/v1/auth/keys"),
        None => AUTH_HOST.to_owned().concat("/api/v1/auth/keys"),
    }
}

/// What is sent to exchange a code.
pub fn exchange_body(code: &str, verifier: &str) -> (r: Json)
    ensures
        r@ == JsonView::object().with("code"@, JsonView::Str(code@)).with(
            "code_verifier"@,
            JsonView::Str(verifier@),
        ).with("code_challenge_method"@, JsonView::Str("S256"@)),
{
    Json::object().with("code", Json::text(code)).with("code_verifier", Json::text(verifier)).with(
        "code_challenge_method",
        Json::text("S256"),
    )
}

/// The key in an answer, whose body was read as `parsed`.
pub open spec fn key_in(
    success: bool,
    status: Seq<char>,
    body: Seq<char>,
    parsed: Result<JsonView, Seq<char>>,
) -> Result<Seq<char>, AuthErrorView> {
    if !success {
        Err(AuthErrorView::Flow("openrouter key exchange failed ("@ + status + "): "@ + body))
    } else {
        let key = match parsed {
            Ok(v) => v.str_field("key"@),
            Err(_) => None,
        };
        match key {
            Some(k) => Ok(k),
            None => Err(AuthErrorView::Flow("key exchange response missing `key`: "@ + body)),
        }
    }
}

/// The key in an answer, whose body was read as `parsed`.
pub fn parsed_key(success: bool, status: &str, body: &str, parsed: Result<Json, String>) -> (r:
    Result<String, AuthError>)
    ensures
        outcome(r) == key_in(success, status@, body@, crate::json::result_view(parsed)),
{
    if !success {
        return Err(
            AuthError::Flow(
                "openrouter key exchange failed (".to_owned().concat(status).concat("): ").concat(
                    body,
                ),
            ),
        );
    }
    match parsed {
        Ok(v) => match v.str_field("key") {
            Some(k) => {
                return Ok(k.to_owned());
            },
            None => {},
        },
        Err(_) => {},
    }
    Err(AuthError::Flow("key exchange response missing `key`: ".to_owned().concat(body)))
}

/// The key in the answer to an exchange, given its status and body.
pub fn exchanged_key(success: bool, status: &str, body: &str) -> (r: Result<String, AuthError>)
    ensures
        outcome(r) == key_in(success, status@, body@, json_of(body@)),
{
    parsed_key(success, status, body, parse(body))
}

} // verus!
