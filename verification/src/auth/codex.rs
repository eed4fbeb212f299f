//! ChatGPT/Codex subscription auth.
//!
//! A device-code login: the user enters a code in a browser while the token
//! endpoint is polled, then the authorization is exchanged for tokens. Two
//! sources of tokens feed the Codex provider:
//!
//! - bullpen's own login, which owns its refresh token, is refreshed shortly
//!   before it expires, and whose rotations are kept in the credential store;
//! - the Codex CLI's own `auth.json`, which is only read. It is never
//!   refreshed: a rotation could invalidate the CLI's own session.
use vstd::prelude::*;
use vstd::string::*;

use super::{outcome, AuthError, AuthErrorView, AuthFile, Credential, CredentialView};
use super::jwt::{account_of, chatgpt_account_id, claims_of, expiry, expiry_in};
use crate::json::{json_of, json_of_bytes, parse, parse_bytes, result_view, Json, JsonView, Num};
use crate::llm::{ProviderError, ProviderErrorView};
use crate::llm::codex::CodexToken;
use crate::path::{join, joined};
use crate::text::{dec, decimal, number_of, parse_number, trim, trimmed};

verus! {

/// The provider's name in the credential store.
pub const PROVIDER: &'static str = "codex";

/// The client the login speaks for.
pub const CLIENT_ID: &'static str = "app_EMoamEEZ73f0CkXaXp7hrann";

/// The host that logs in.
pub const AUTH_BASE: &'static str = "https://auth.openai.com";

/// How long a login may take, in seconds.
pub const DEVICE_POLL_TIMEOUT: u64 = 900;

/// A token is refreshed when it expires within this many seconds.
pub const EXPIRY_SKEW_SECS: u64 = 60;

/// What the user is asked to do.
#[derive(Debug)]
pub struct DeviceCodePrompt {
    pub verification_url: String,
    pub user_code: String,
}

/// A login that the user has to approve.
#[derive(Debug)]
pub struct DeviceCode {
    pub device_auth_id: String,
    pub user_code: String,
    /// Seconds between two polls.
    pub interval: u64,
}

/// What a device code is.
pub struct DeviceCodeView {
    pub device_auth_id: Seq<char>,
    pub user_code: Seq<char>,
    pub interval: u64,
}

impl View for DeviceCode {
    type V = DeviceCodeView;

    open spec fn view(&self) -> DeviceCodeView {
        DeviceCodeView {
            device_auth_id: self.device_auth_id@,
            user_code: self.user_code@,
            interval: self.interval,
        }
    }
}

/// A login that the user approved.
#[derive(Debug)]
pub struct Approved {
    pub authorization_code: String,
    pub code_verifier: String,
}

/// What an approval is.
pub struct ApprovedView {
    pub authorization_code: Seq<char>,
    pub code_verifier: Seq<char>,
}

impl View for Approved {
    type V = ApprovedView;

    open spec fn view(&self) -> ApprovedView {
        ApprovedView {
            authorization_code: self.authorization_code@,
            code_verifier: self.code_verifier@,
        }
    }
}

// ── Addresses and requests ──────────────────────────────────────────────────

/// The device-code login at a host.
#[derive(Debug)]
pub struct CodexAuth {
    base: String,
}

impl View for CodexAuth {
    type V = Seq<char>;

    closed spec fn view(&self) -> Seq<char> {
        self.base@
    }
}

impl Default for CodexAuth {
    fn default() -> (r: Self)
        ensures
            r@ == AUTH_BASE@,
    {
        CodexAuth::new(AUTH_BASE)
    }
}

impl CodexAuth {
    /// The login at a host.
    pub fn new(base: &str) -> (r: Self)
        ensures
            r@ == base@,
    {
        CodexAuth { base: base.to_owned() }
    }

    /// Where the user enters which code.
    pub fn prompt(&self, device: &DeviceCode) -> (r: DeviceCodePrompt)
        ensures
            r.verification_url@ == self@ + "/codex/device"@,
            r.user_code@ == device@.user_code,
    {
        DeviceCodePrompt {
            verification_url: self.base.clone().concat("/codex/device"),
            user_code: device.user_code.clone(),
        }
    }

    /// Where a login begins.
    pub fn usercode_url(&self) -> (r: String)
        ensures
            r@ == self@ + "/api/accounts/deviceauth/usercode"@,
    {
        self.base.clone().concat("/api/accounts/deviceauth/usercode")
    }

    /// Where a login is polled.
    pub fn poll_url(&self) -> (r: String)
        ensures
            r@ == self@ + "/api/accounts/deviceauth/token"@,
    {
        self.base.clone().concat("/api/accounts/deviceauth/token")
    }

    /// Where tokens come from.
    pub fn token_url(&self) -> (r: String)
        ensures
            r@ == self@ + "/oauth/token"@,
    {
        self.base.clone().concat("/oauth/token")
    }

    /// The form that exchanges an approval for tokens.
    pub fn exchange_form(&self, approved: &Approved) -> (r: Vec<(String, String)>)
        ensures
            form_view(r@) == seq![
                ("grant_type"@, "authorization_code"@),
                ("client_id"@, CLIENT_ID@),
                ("code"@, approved@.authorization_code),
                ("code_verifier"@, approved@.code_verifier),
                ("redirect_uri"@, self@ + "/deviceauth/callback"@),
            ],
    {
        let redirect = self.base.clone().concat("/deviceauth/callback");
        let mut form: Vec<(String, String)> = Vec::new();
        form.push(field("grant_type", "authorization_code"));
        form.push(field("client_id", CLIENT_ID));
        form.push(field("code", approved.authorization_code.as_str()));
        form.push(field("code_verifier", approved.code_verifier.as_str()));
        form.push(field("redirect_uri", redirect.as_str()));
        proof {
            assert(form_view(form@) =~= seq![
                ("grant_type"@, "authorization_code"@),
                ("client_id"@, CLIENT_ID@),
                ("code"@, approved@.authorization_code),
                ("code_verifier"@, approved@.code_verifier),
                ("redirect_uri"@, self@ + "/deviceauth/callback"@),
            ]);
        }
        form
    }
}

/// What begins a login.
pub fn usercode_body() -> (r: Json)
    ensures
        r@ == JsonView::object().with("client_id"@, JsonView::Str(CLIENT_ID@)),
{
    Json::object().with("client_id", Json::text(CLIENT_ID))
}

/// What asks whether a login was approved.
pub fn poll_body(device: &DeviceCode) -> (r: Json)
    ensures
        r@ == JsonView::object().with(
            "device_auth_id"@,
            JsonView::Str(device@.device_auth_id),
        ).with("user_code"@, JsonView::Str(device@.user_code)),
{
    Json::object().with("device_auth_id", Json::text(device.device_auth_id.as_str())).with(
        "user_code",
        Json::text(device.user_code.as_str()),
    )
}

/// The fields of a form.
pub open spec fn form_view(form: Seq<(String, String)>) -> Seq<(Seq<char>, Seq<char>)> {
    form.map_values(|f: (String, String)| (f.0@, f.1@))
}

fn field(name: &str, value: &str) -> (r: (String, String))
    ensures
        r.0@ == name@,
        r.1@ == value@,
{
    (name.to_owned(), value.to_owned())
}

/// The form that refreshes tokens.
pub fn refresh_form(refresh_token: &str) -> (r: Vec<(String, String)>)
    ensures
        form_view(r@) == seq![
            ("grant_type"@, "refresh_token"@),
            ("refresh_token"@, refresh_token@),
            ("client_id"@, CLIENT_ID@),
        ],
{
    let mut form: Vec<(String, String)> = Vec::new();
    form.push(field("grant_type", "refresh_token"));
    form.push(field("refresh_token", refresh_token));
    form.push(field("client_id", CLIENT_ID));
    proof {
        assert(form_view(form@) =~= seq![
            ("grant_type"@, "refresh_token"@),
            ("refresh_token"@, refresh_token@),
            ("client_id"@, CLIENT_ID@),
        ]);
    }
    form
}

// ── The device code ─────────────────────────────────────────────────────────

/// The text of a string field, or the empty text.
pub open spec fn text_in(v: JsonView, key: Seq<char>) -> Seq<char> {
    match v.str_field(key) {
        Some(s) => s,
        None => Seq::empty(),
    }
}

fn read_text(v: &Json, key: &str) -> (r: String)
    ensures
        r@ == text_in(v@, key@),
{
    match v.str_field(key) {
        Some(s) => s.to_owned(),
        None => String::new(),
    }
}

/// The code for the user; the endpoint has been seen using both names.
pub open spec fn user_code_in(v: JsonView) -> Seq<char> {
    if v.get("user_code"@) is Some {
        text_in(v, "user_code"@)
    } else {
        text_in(v, "usercode"@)
    }
}

/// The seconds between polls, which come as a number or as a text; five where
/// they do not come or are none.
pub open spec fn interval_in(v: JsonView) -> int {
    let said = match v.get("interval"@) {
        Some(JsonView::Num(n)) => JsonView::Num(n).as_nat(),
        Some(JsonView::Str(s)) => number_of(trim(s)),
        _ => None,
    };
    match said {
        Some(n) => if n == 0 {
            5
        } else {
            n
        },
        None => 5,
    }
}

/// The device code in an answer, whose body was read as `parsed`.
pub open spec fn device_code_in(
    success: bool,
    status: Seq<char>,
    body: Seq<char>,
    parsed: Result<JsonView, Seq<char>>,
) -> Result<DeviceCodeView, AuthErrorView> {
    if !success {
        Err(AuthErrorView::Flow("device-code endpoint "@ + status + ": "@ + body))
    } else {
        match parsed {
            Err(e) => Err(
                AuthErrorView::Flow("decode device-code response: "@ + e + " ("@ + body + ")"@),
            ),
            Ok(v) => if text_in(v, "device_auth_id"@).len() == 0 || user_code_in(v).len() == 0 {
                Err(
                    AuthErrorView::Flow(
                        "device-code response missing device_auth_id or user_code: "@ + body,
                    ),
                )
            } else {
                Ok(
                    DeviceCodeView {
                        device_auth_id: text_in(v, "device_auth_id"@),
                        user_code: user_code_in(v),
                        interval: interval_in(v) as u64,
                    },
                )
            },
        }
    }
}

fn read_user_code(v: &Json) -> (r: String)
    ensures
        r@ == user_code_in(v@),
{
    match v.get("user_code") {
        Some(_) => read_text(v, "user_code"),
        None => read_text(v, "usercode"),
    }
}

fn read_interval(v: &Json) -> (r: u64)
    ensures
        r == interval_in(v@),
{
    let said: Option<u64> = match v.get("interval") {
        Some(i) => match i {
            Json::Num(_) => i.as_u64(),
            Json::Str(s) => {
                let t = trimmed(s.as_str());
                parse_number(t.as_str())
            },
            _ => None,
        },
        None => None,
    };
    match said {
        Some(n) => if n == 0 {
            5
        } else {
            n
        },
        None => 5,
    }
}

/// The device code in an answer, whose body was read as `parsed`.
pub fn parsed_device_code(
    success: bool,
    status: &str,
    body: &str,
    parsed: Result<Json, String>,
) -> (r: Result<DeviceCode, AuthError>)
    ensures
        outcome(r) == device_code_in(success, status@, body@, result_view(parsed)),
{
    if !success {
        return Err(
            AuthError::Flow(
                "device-code endpoint ".to_owned().concat(status).concat(": ").concat(body),
            ),
        );
    }
    let v = match parsed {
        Err(e) => {
            return Err(
                AuthError::Flow(
                    "decode device-code response: ".to_owned().concat(e.as_str()).concat(
                        " (",
                    ).concat(body).concat(")"),
                ),
            );
        },
        Ok(v) => v,
    };
    let device_auth_id = read_text(&v, "device_auth_id");
    let user_code = read_user_code(&v);
    if device_auth_id.as_str().is_empty() || user_code.as_str().is_empty() {
        return Err(
            AuthError::Flow(
                "device-code response missing device_auth_id or user_code: ".to_owned().concat(
                    body,
                ),
            ),
        );
    }
    let interval: u64 = read_interval(&v);
    Ok(DeviceCode { device_auth_id, user_code, interval })
}

/// The device code in the answer of the endpoint where a login begins.
pub fn device_code(success: bool, status: &str, body: &str) -> (r: Result<DeviceCode, AuthError>)
    ensures
        outcome(r) == device_code_in(success, status@, body@, json_of(body@)),
{
    parsed_device_code(success, status, body, parse(body))
}

// ── Polling ─────────────────────────────────────────────────────────────────

/// Whether the user has not answered yet.
pub open spec fn is_pending(status: u16) -> bool {
    status == 403 || status == 404
}

/// The approval in an answer, whose body was read as `parsed`.
pub open spec fn approval_in(
    status: u16,
    body: Seq<char>,
    parsed: Result<JsonView, Seq<char>>,
) -> Result<ApprovedView, AuthErrorView> {
    if status >= 400 {
        Err(
            AuthErrorView::Flow(
                "device-code token endpoint "@ + dec(status as nat) + ": "@ + body,
            ),
        )
    } else {
        match parsed {
            Err(e) => Err(
                AuthErrorView::Flow(
                    "decode device-code token response: "@ + e + " ("@ + body + ")"@,
                ),
            ),
            Ok(v) => if text_in(v, "authorization_code"@).len() == 0 || text_in(
                v,
                "code_verifier"@,
            ).len() == 0 {
                Err(AuthErrorView::Flow("device-code token response missing fields: "@ + body))
            } else {
                Ok(
                    ApprovedView {
                        authorization_code: text_in(v, "authorization_code"@),
                        code_verifier: text_in(v, "code_verifier"@),
                    },
                )
            },
        }
    }
}

/// The approval in an answer, whose body was read as `parsed`; none while the
/// user has not answered.
pub fn parsed_approval(status: u16, body: &str, parsed: Result<Json, String>) -> (r: Option<
    Result<Approved, AuthError>,
>)
    ensures
        match r {
            None => is_pending(status),
            Some(a) => !is_pending(status) && outcome(a) == approval_in(
                status,
                body@,
                result_view(parsed),
            ),
        },
{
    if status == 403 || status == 404 {
        return None;
    }
    if status >= 400 {
        return Some(
            Err(
                AuthError::Flow(
                    "device-code token endpoint ".to_owned().concat(
                        decimal(status as u64).as_str(),
                    ).concat(": ").concat(body),
                ),
            ),
        );
    }
    let v = match parsed {
        Err(e) => {
            return Some(
                Err(
                    AuthError::Flow(
                        "decode device-code token response: ".to_owned().concat(e.as_str()).concat(
                            " (",
                        ).concat(body).concat(")"),
                    ),
                ),
            );
        },
        Ok(v) => v,
    };
    let authorization_code = read_text(&v, "authorization_code");
    let code_verifier = read_text(&v, "code_verifier");
    if authorization_code.as_str().is_empty() || code_verifier.as_str().is_empty() {
        return Some(
            Err(
                AuthError::Flow(
                    "device-code token response missing fields: ".to_owned().concat(body),
                ),
            ),
        );
    }
    Some(Ok(Approved { authorization_code, code_verifier }))
}

/// The approval in the answer to a poll; none while the user has not answered.
pub fn approval(status: u16, body: &str) -> (r: Option<Result<Approved, AuthError>>)
    ensures
        match r {
            None => is_pending(status),
            Some(a) => !is_pending(status) && outcome(a) == approval_in(
                status,
                body@,
                json_of(body@),
            ),
        },
{
    parsed_approval(status, body, parse(body))
}

/// Whether waiting once more would take the login past its time, given the
/// nanoseconds since its first poll; if so, the error it ends with.
pub fn timed_out(elapsed: u64, interval: u64) -> (r: Option<AuthError>)
    ensures
        match r {
            Some(e) => elapsed + interval * 1_000_000_000 > DEVICE_POLL_TIMEOUT * 1_000_000_000
                && e@ == AuthErrorView::Flow(
                "device-code login timed out after "@ + dec(DEVICE_POLL_TIMEOUT as nat) + "s"@,
            ),
            None => elapsed + interval * 1_000_000_000 <= DEVICE_POLL_TIMEOUT * 1_000_000_000,
        },
{
    let ahead: u128 = elapsed as u128 + interval as u128 * 1_000_000_000;
    let limit: u128 = DEVICE_POLL_TIMEOUT as u128 * 1_000_000_000;
    if ahead > limit {
        Some(
            AuthError::Flow(
                "device-code login timed out after ".to_owned().concat(
                    decimal(DEVICE_POLL_TIMEOUT).as_str(),
                ).concat("s"),
            ),
        )
    } else {
        None
    }
}

// ── Tokens ──────────────────────────────────────────────────────────────────

/// The tokens of an answer.
#[derive(Debug)]
pub struct TokenSet {
    pub access_token: String,
    pub refresh_token: String,
    /// Seconds until the access token expires.
    pub expires_in: u64,
}

/// What a set of tokens is.
pub struct TokenSetView {
    pub access_token: Seq<char>,
    pub refresh_token: Seq<char>,
    pub expires_in: int,
}

impl View for TokenSet {
    type V = TokenSetView;

    open spec fn view(&self) -> TokenSetView {
        TokenSetView {
            access_token: self.access_token@,
            refresh_token: self.refresh_token@,
            expires_in: self.expires_in as int,
        }
    }
}

/// The tokens in an answer, whose body was read as `parsed`.
pub open spec fn tokens_in(
    success: bool,
    status: Seq<char>,
    body: Seq<char>,
    parsed: Result<JsonView, Seq<char>>,
) -> Result<TokenSetView, AuthErrorView> {
    if !success {
        Err(AuthErrorView::Flow("token endpoint "@ + status + ": "@ + body))
    } else {
        match parsed {
            Err(e) => Err(
                AuthErrorView::Flow("decode token response: "@ + e + " ("@ + body + ")"@),
            ),
            Ok(v) => if text_in(v, "access_token"@).len() == 0 {
                Err(AuthErrorView::Flow("token response missing access_token: "@ + body))
            } else {
                Ok(
                    TokenSetView {
                        access_token: text_in(v, "access_token"@),
                        refresh_token: text_in(v, "refresh_token"@),
                        expires_in: match v.nat_field("expires_in"@) {
                            Some(n) => n,
                            None => 0,
                        },
                    },
                )
            },
        }
    }
}

/// The tokens in an answer, whose body was read as `parsed`.
pub fn parsed_tokens(success: bool, status: &str, body: &str, parsed: Result<Json, String>) -> (r:
    Result<TokenSet, AuthError>)
    ensures
        outcome(r) == tokens_in(success, status@, body@, result_view(parsed)),
{
    if !success {
        return Err(
            AuthError::Flow("token endpoint ".to_owned().concat(status).concat(": ").concat(body)),
        );
    }
    let v = match parsed {
        Err(e) => {
            return Err(
                AuthError::Flow(
                    "decode token response: ".to_owned().concat(e.as_str()).concat(" (").concat(
                        body,
                    ).concat(")"),
                ),
            );
        },
        Ok(v) => v,
    };
    let access_token = read_text(&v, "access_token");
    if access_token.as_str().is_empty() {
        return Err(
            AuthError::Flow("token response missing access_token: ".to_owned().concat(body)),
        );
    }
    let refresh_token = read_text(&v, "refresh_token");
    let expires_in: u64 = match v.u64_field("expires_in") {
        Some(n) => n,
        None => 0,
    };
    Ok(TokenSet { access_token, refresh_token, expires_in })
}

/// The credential made of tokens that came at `now` and of their account;
/// none where the time they expire at cannot be written down.
pub open spec fn credential_of(
    tokens: TokenSetView,
    account: Result<Seq<char>, AuthErrorView>,
    now: u64,
) -> Option<Result<CredentialView, AuthErrorView>> {
    match account {
        Err(e) => Some(Err(e)),
        Ok(account_id) => if now + tokens.expires_in > u64::MAX {
            None
        } else {
            Some(
                Ok(
                    CredentialView::Oauth {
                        access_token: tokens.access_token,
                        refresh_token: tokens.refresh_token,
                        expires_at: (now + tokens.expires_in) as u64,
                        account_id,
                    },
                ),
            )
        },
    }
}

/// A result that may not be, as a value.
pub open spec fn reply_view(r: Option<Result<Credential, AuthError>>) -> Option<
    Result<CredentialView, AuthErrorView>,
> {
    match r {
        Some(x) => Some(outcome(x)),
        None => None,
    }
}

/// The credential made of tokens that came at `now` and of their account;
/// none where the time they expire at cannot be written down.
pub fn credential(tokens: TokenSet, account: Result<String, AuthError>, now: u64) -> (r: Option<
    Result<Credential, AuthError>,
>)
    ensures
        reply_view(r) == credential_of(tokens@, outcome(account), now),
{
    let account_id = match account {
        Err(e) => {
            return Some(Err(e));
        },
        Ok(id) => id,
    };
    match now.checked_add(tokens.expires_in) {
        None => None,
        Some(expires_at) => Some(
            Ok(
                Credential::Oauth {
                    access_token: tokens.access_token,
                    refresh_token: tokens.refresh_token,
                    expires_at,
                    account_id,
                },
            ),
        ),
    }
}

/// The credential in an answer of the token endpoint at `now`.
pub open spec fn token_reply_of(
    success: bool,
    status: Seq<char>,
    body: Seq<char>,
    now: u64,
) -> Option<Result<CredentialView, AuthErrorView>> {
    match tokens_in(success, status, body, json_of(body)) {
        Err(e) => Some(Err(e)),
        Ok(tokens) => credential_of(tokens, account_of(claims_of(tokens.access_token)), now),
    }
}

/// The credential in an answer of the token endpoint at `now`; none where the
/// time it expires at cannot be written down.
pub fn token_reply(success: bool, status: &str, body: &str, now: u64) -> (r: Option<
    Result<Credential, AuthError>,
>)
    ensures
        reply_view(r) == token_reply_of(success, status@, body@, now),
{
    let tokens = match parsed_tokens(success, status, body, parse(body)) {
        Err(e) => {
            return Some(Err(e));
        },
        Ok(t) => t,
    };
    let account = chatgpt_account_id(tokens.access_token.as_str());
    credential(tokens, account, now)
}

impl CredentialView {
    /// This credential with the refresh token it had, where it came without.
    pub open spec fn keeping(self, refresh_token: Seq<char>) -> CredentialView {
        match self {
            CredentialView::Oauth { access_token, refresh_token: fresh, expires_at, account_id } => if fresh.len()
                == 0 {
                CredentialView::Oauth { access_token, refresh_token, expires_at, account_id }
            } else {
                self
            },
            _ => self,
        }
    }
}

/// A refreshed credential: an answer may omit a new refresh token, and the old
/// one is then kept.
pub fn keep_refresh_token(credential: Credential, refresh_token: &str) -> (r: Credential)
    ensures
        r@ == credential@.keeping(refresh_token@),
{
    match credential {
        Credential::Oauth { access_token, refresh_token: fresh, expires_at, account_id } => {
            if fresh.as_str().is_empty() {
                Credential::Oauth {
                    access_token,
                    refresh_token: refresh_token.to_owned(),
                    expires_at,
                    account_id,
                }
            } else {
                Credential::Oauth { access_token, refresh_token: fresh, expires_at, account_id }
            }
        },
        Credential::ApiKey { key } => Credential::ApiKey { key },
    }
}

// ── Sources of tokens ───────────────────────────────────────────────────────

/// A failure of the login, as the provider reports it.
pub fn login_failure(e: &AuthError) -> (r: ProviderError)
    ensures
        r@ == ProviderErrorView::Failure("codex auth: "@ + e@.words()),
{
    ProviderError::Failure("codex auth: ".to_owned().concat(e.to_string().as_str()))
}

/// What bullpen's own login gives.
#[derive(Debug)]
pub enum Stored {
    /// A token that is good for a while.
    Fresh(CodexToken),
    /// The token to refresh with first.
    Stale(String),
}

/// Whether a token that expires at `expires_at` is good for a while.
pub open spec fn is_fresh(expires_at: u64, now: u64) -> bool {
    expires_at > now + EXPIRY_SKEW_SECS
}

fn fresh(expires_at: u64, now: u64) -> (r: bool)
    ensures
        r == is_fresh(expires_at, now),
{
    expires_at > EXPIRY_SKEW_SECS && expires_at - EXPIRY_SKEW_SECS > now
}

/// What bullpen's own login gives.
pub enum StoredView {
    Fresh(Seq<char>, Seq<char>),
    Stale(Seq<char>),
}

impl View for Stored {
    type V = StoredView;

    open spec fn view(&self) -> StoredView {
        match self {
            Stored::Fresh(t) => StoredView::Fresh(t.access_token@, t.account_id@),
            Stored::Stale(t) => StoredView::Stale(t@),
        }
    }
}

/// What bullpen's own login gave, as a value.
pub open spec fn stored_view(r: Result<Stored, ProviderError>) -> Result<
    StoredView,
    ProviderErrorView,
> {
    match r {
        Ok(s) => Ok(s@),
        Err(e) => Err(e@),
    }
}

/// What the credentials in the store give at `now`.
pub open spec fn stored_in(file: Map<Seq<char>, CredentialView>, now: u64) -> Result<
    StoredView,
    ProviderErrorView,
> {
    let missing = Err(
        ProviderErrorView::Failure("no codex credentials — run `bullpen login codex`"@),
    );
    if !file.dom().contains(PROVIDER@) {
        missing
    } else {
        match file[PROVIDER@] {
            CredentialView::ApiKey { .. } => missing,
            CredentialView::Oauth { access_token, refresh_token, expires_at, account_id } => if is_fresh(
                expires_at,
                now,
            ) {
                Ok(StoredView::Fresh(access_token, account_id))
            } else {
                Ok(StoredView::Stale(refresh_token))
            },
        }
    }
}

fn stored_token(file: &AuthFile, now: u64) -> (r: Result<Stored, ProviderError>)
    ensures
        stored_view(r) == stored_in(file@, now),
{
    match file.get(PROVIDER) {
        Some(c) => match c {
            Credential::Oauth { access_token, refresh_token, expires_at, account_id } => {
                if fresh(*expires_at, now) {
                    return Ok(
                        Stored::Fresh(
                            CodexToken {
                                access_token: access_token.clone(),
                                account_id: account_id.clone(),
                            },
                        ),
                    );
                }
                return Ok(Stored::Stale(refresh_token.clone()));
            },
            Credential::ApiKey { .. } => {},
        },
        None => {},
    }
    Err(ProviderError::Failure("no codex credentials — run `bullpen login codex`".to_owned()))
}

/// Bullpen's own login, kept in the credential store at a path. It is
/// refreshed shortly before it expires, and what a refresh gives is kept.
#[derive(Debug)]
pub struct StoredCodex {
    pub auth_path: String,
    pub auth: CodexAuth,
}

impl StoredCodex {
    /// The login in the store at a path, at the usual host.
    pub fn new(auth_path: &str) -> (r: Self)
        ensures
            r.auth_path@ == auth_path@,
            r.auth@ == AUTH_BASE@,
    {
        StoredCodex { auth_path: auth_path.to_owned(), auth: CodexAuth::default() }
    }

    /// What the login gives at `now`, where the store holds `file`.
    pub fn token(&self, file: &AuthFile, now: u64) -> (r: Result<Stored, ProviderError>)
        ensures
            stored_view(r) == stored_in(file@, now),
    {
        stored_token(file, now)
    }
}

/// Keep a refreshed credential and give its token.
pub fn adopt(file: &mut AuthFile, credential: Credential) -> (r: CodexToken)
    requires
        credential is Oauth,
    ensures
        final(file)@ == old(file)@.insert(PROVIDER@, credential@),
        r.access_token@ == credential@->Oauth_access_token,
        r.account_id@ == credential@->Oauth_account_id,
{
    let token = match &credential {
        Credential::Oauth { access_token, account_id, .. } => CodexToken {
            access_token: access_token.clone(),
            account_id: account_id.clone(),
        },
        Credential::ApiKey { key } => CodexToken {
            access_token: key.clone(),
            account_id: String::new(),
        },
    };
    file.set(PROVIDER, credential);
    token
}

/// The Codex CLI's own login, which is only read.
#[derive(Debug)]
pub struct CodexCliBorrow {
    path: String,
}

impl View for CodexCliBorrow {
    type V = Seq<char>;

    closed spec fn view(&self) -> Seq<char> {
        self.path@
    }
}

/// The access token of the Codex CLI's file.
pub open spec fn borrowed_access(v: JsonView) -> Seq<char> {
    match v.get("tokens"@) {
        Some(t) => text_in(t, "access_token"@),
        None => Seq::empty(),
    }
}

/// The account of the Codex CLI's file, or the one its token claims.
pub open spec fn borrowed_account(v: JsonView, claimed: Result<Seq<char>, AuthErrorView>) -> Seq<
    char,
> {
    let said = match v.get("tokens"@) {
        Some(t) => t.str_field("account_id"@),
        None => None,
    };
    match said {
        Some(a) => a,
        None => match claimed {
            Ok(a) => a,
            Err(_) => Seq::empty(),
        },
    }
}

/// When the claims of a token say that it expires.
pub open spec fn expiry_of(claims: Result<JsonView, AuthErrorView>) -> Option<int> {
    match claims {
        Ok(c) => expiry_in(c),
        Err(_) => None,
    }
}

/// The token of the Codex CLI's file at `path`, read as `v`, where the access
/// token claims the account and the expiry given.
pub open spec fn borrowed_of(
    path: Seq<char>,
    v: JsonView,
    account: Result<Seq<char>, AuthErrorView>,
    expires: Option<int>,
    now: u64,
) -> Result<(Seq<char>, Seq<char>), ProviderErrorView> {
    if borrowed_access(v).len() == 0 || borrowed_account(v, account).len() == 0 {
        Err(
            ProviderErrorView::Failure(
                path
                    + " has no usable subscription tokens — run `codex` to log in, or `bullpen \
                        login codex`"@,
            ),
        )
    } else if expires is Some && expires->0 <= now + EXPIRY_SKEW_SECS {
        Err(
            ProviderErrorView::Failure(
                "borrowed Codex CLI token is expired — run `codex` once to refresh it, or \
                    `bullpen login codex` for an independent session"@,
            ),
        )
    } else {
        Ok((borrowed_access(v), borrowed_account(v, account)))
    }
}

/// A token or the failure to get one, as a value.
pub open spec fn token_view(r: Result<CodexToken, ProviderError>) -> Result<
    (Seq<char>, Seq<char>),
    ProviderErrorView,
> {
    match r {
        Ok(t) => Ok((t.access_token@, t.account_id@)),
        Err(e) => Err(e@),
    }
}

/// The access token, and the account the file itself names.
fn read_borrowed(v: &Json) -> (r: (String, Option<String>))
    ensures
        r.0@ == borrowed_access(v@),
        match r.1 {
            Some(a) => v@.get("tokens"@) matches Some(t) && t.str_field("account_id"@) == Some(a@),
            None => v@.get("tokens"@) is None || v@.get("tokens"@)->0.str_field("account_id"@)
                is None,
        },
{
    match v.get("tokens") {
        Some(t) => {
            let access = read_text(t, "access_token");
            let account = match t.str_field("account_id") {
                Some(a) => Some(a.to_owned()),
                None => None,
            };
            (access, account)
        },
        None => (String::new(), None),
    }
}

/// The token of the Codex CLI's file at `path`, read as `v`, where the access
/// token claims the account and the expiry given.
pub fn borrowed(
    path: &str,
    v: &Json,
    account: Result<String, AuthError>,
    expires: Option<u64>,
    now: u64,
) -> (r: Result<CodexToken, ProviderError>)
    ensures
        token_view(r) == borrowed_of(
            path@,
            v@,
            outcome(account),
            match expires {
                Some(n) => Some(n as int),
                None => None,
            },
            now,
        ),
{
    let (access_token, named) = read_borrowed(v);
    let account_id = match named {
        Some(a) => a,
        None => match account {
            Ok(a) => a,
            Err(_) => String::new(),
        },
    };
    if access_token.as_str().is_empty() || account_id.as_str().is_empty() {
        return Err(
            ProviderError::Failure(
                path.to_owned().concat(
                    " has no usable subscription tokens — run `codex` to log in, or `bullpen \
                        login codex`",
                ),
            ),
        );
    }
    match expires {
        Some(exp) => {
            if !fresh(exp, now) {
                return Err(
                    ProviderError::Failure(
                        "borrowed Codex CLI token is expired — run `codex` once to refresh it, \
                            or `bullpen login codex` for an independent session".to_owned(),
                    ),
                );
            }
        },
        None => {},
    }
    Ok(CodexToken { access_token, account_id })
}

impl CodexCliBorrow {
    /// The login in the file at a path.
    pub fn new(path: &str) -> (r: Self)
        ensures
            r@ == path@,
    {
        CodexCliBorrow { path: path.to_owned() }
    }

    /// Where the Codex CLI keeps its own login.
    pub fn default_path(home: Option<&str>) -> (r: String)
        ensures
            r@ == joined(
                joined(
                    match home {
                        Some(h) => h@,
                        None => "."@,
                    },
                    ".codex"@,
                ),
                "auth.json"@,
            ),
    {
        let dir = match home {
            Some(h) => join(h, ".codex"),
            None => join(".", ".codex"),
        };
        join(dir.as_str(), "auth.json")
    }

    /// The file.
    pub fn path(&self) -> (r: &str)
        ensures
            r@ == self@,
    {
        self.path.as_str()
    }

    /// The file cannot be read.
    pub fn unreadable(&self, why: &str) -> (r: ProviderError)
        ensures
            r@ == ProviderErrorView::Failure("cannot read "@ + self@ + ": "@ + why@),
    {
        ProviderError::Failure(
            "cannot read ".to_owned().concat(self.path.as_str()).concat(": ").concat(why),
        )
    }

    /// The token of the file, which holds `raw`, at `now`.
    pub fn token(&self, raw: &Vec<u8>, now: u64) -> (r: Result<CodexToken, ProviderError>)
        ensures
            token_view(r) == match json_of_bytes(raw@) {
                Err(e) => Err::<(Seq<char>, Seq<char>), ProviderErrorView>(
                    ProviderErrorView::Failure("cannot parse "@ + self@ + ": "@ + e),
                ),
                Ok(v) => borrowed_of(
                    self@,
                    v,
                    account_of(claims_of(borrowed_access(v))),
                    expiry_of(claims_of(borrowed_access(v))),
                    now,
                ),
            },
    {
        let v = match parse_bytes(raw.as_slice()) {
            Err(e) => {
                return Err(
                    ProviderError::Failure(
                        "cannot parse ".to_owned().concat(self.path.as_str()).concat(": ").concat(
                            e.as_str(),
                        ),
                    ),
                );
            },
            Ok(v) => v,
        };
        let (access, _) = read_borrowed(&v);
        let account = chatgpt_account_id(access.as_str());
        let exp: Option<u64> = expiry(access.as_str());
        borrowed(self.path.as_str(), &v, account, exp, now)
    }
}

// ── Laws ────────────────────────────────────────────────────────────────────

/// A refresh never loses the way to refresh again: whatever the answer says,
/// a login that had a refresh token has one afterwards.
pub proof fn law_refresh_token_is_never_lost(credential: CredentialView, refresh_token: Seq<char>)
    requires
        credential is Oauth,
        refresh_token.len() > 0,
    ensures
        credential.keeping(refresh_token) is Oauth,
        credential.keeping(refresh_token)->Oauth_refresh_token.len() > 0,
        credential.keeping(refresh_token)->Oauth_access_token == credential->Oauth_access_token,
        credential.keeping(refresh_token)->Oauth_expires_at == credential->Oauth_expires_at,
        credential.keeping(refresh_token)->Oauth_account_id == credential->Oauth_account_id,
{
}

/// No token that expires within the skew is lent: one that is handed out from
/// the Codex CLI's file, and that says when it expires, is good for longer.
pub proof fn law_borrowed_token_is_good(
    path: Seq<char>,
    v: JsonView,
    account: Result<Seq<char>, AuthErrorView>,
    expires: Option<int>,
    now: u64,
)
    requires
        borrowed_of(path, v, account, expires, now) is Ok,
    ensures
        expires is Some ==> expires->0 > now + EXPIRY_SKEW_SECS,
        borrowed_of(path, v, account, expires, now)->Ok_0.0.len() > 0,
        borrowed_of(path, v, account, expires, now)->Ok_0.1.len() > 0,
{
}

} // verus!
