//! Credential acquisition and storage.
//!
//! Two credential shapes cover every supported provider: plain API keys and
//! OAuth token sets with refresh. They are kept in `auth.json` under bullpen's
//! home; whoever persists them writes the file atomically, for its owner only.
use vstd::prelude::*;
use vstd::string::*;

use crate::path::{join, joined};
use crate::text::{lemma_step, same};

pub mod codex;
pub mod jwt;
pub mod laws;
pub mod openrouter;
pub mod pkce;

verus! {

/// Why a login or a read of credentials failed.
#[derive(Debug)]
pub enum AuthError {
    Io(String),
    Transport(String),
    Flow(String),
    Corrupt(String),
    Missing(String),
}

/// What an error says.
pub enum AuthErrorView {
    Io(Seq<char>),
    Transport(Seq<char>),
    Flow(Seq<char>),
    Corrupt(Seq<char>),
    Missing(Seq<char>),
}

impl View for AuthError {
    type V = AuthErrorView;

    open spec fn view(&self) -> AuthErrorView {
        match self {
            AuthError::Io(m) => AuthErrorView::Io(m@),
            AuthError::Transport(m) => AuthErrorView::Transport(m@),
            AuthError::Flow(m) => AuthErrorView::Flow(m@),
            AuthError::Corrupt(m) => AuthErrorView::Corrupt(m@),
            AuthError::Missing(m) => AuthErrorView::Missing(m@),
        }
    }
}

impl AuthErrorView {
    /// The error in words.
    pub open spec fn words(self) -> Seq<char> {
        match self {
            AuthErrorView::Io(m) => "io error: "@ + m,
            AuthErrorView::Transport(m) => "transport error: "@ + m,
            AuthErrorView::Flow(m) => m,
            AuthErrorView::Corrupt(m) => "credential store is corrupt: "@ + m,
            AuthErrorView::Missing(m) => "no stored credential for `"@ + m + "`"@,
        }
    }
}

impl AuthError {
    /// The error in words.
    pub fn to_string(&self) -> (r: String)
        ensures
            r@ == self@.words(),
    {
        match self {
            AuthError::Io(m) => "io error: ".to_owned().concat(m.as_str()),
            AuthError::Transport(m) => "transport error: ".to_owned().concat(m.as_str()),
            AuthError::Flow(m) => m.clone(),
            AuthError::Corrupt(m) => "credential store is corrupt: ".to_owned().concat(m.as_str()),
            AuthError::Missing(m) => "no stored credential for `".to_owned().concat(
                m.as_str(),
            ).concat("`"),
        }
    }
}

/// The result of a step that may fail, as a value.
pub open spec fn outcome<T: View>(r: Result<T, AuthError>) -> Result<T::V, AuthErrorView> {
    match r {
        Ok(v) => Ok(v@),
        Err(e) => Err(e@),
    }
}

/// What a provider is reached with.
#[derive(Debug)]
pub enum Credential {
    ApiKey { key: String },
    Oauth {
        access_token: String,
        refresh_token: String,
        /// Unix seconds.
        expires_at: u64,
        account_id: String,
    },
}

/// What a credential is.
pub enum CredentialView {
    ApiKey { key: Seq<char> },
    Oauth {
        access_token: Seq<char>,
        refresh_token: Seq<char>,
        expires_at: u64,
        account_id: Seq<char>,
    },
}

impl View for Credential {
    type V = CredentialView;

    open spec fn view(&self) -> CredentialView {
        match self {
            Credential::ApiKey { key } => CredentialView::ApiKey { key: key@ },
            Credential::Oauth { access_token, refresh_token, expires_at, account_id } => CredentialView::Oauth {
                access_token: access_token@,
                refresh_token: refresh_token@,
                expires_at: *expires_at,
                account_id: account_id@,
            },
        }
    }
}

impl Clone for Credential {
    fn clone(&self) -> (r: Self)
        ensures
            r@ == self@,
    {
        match self {
            Credential::ApiKey { key } => Credential::ApiKey { key: key.clone() },
            Credential::Oauth { access_token, refresh_token, expires_at, account_id } => Credential::Oauth {
                access_token: access_token.clone(),
                refresh_token: refresh_token.clone(),
                expires_at: *expires_at,
                account_id: account_id.clone(),
            },
        }
    }
}

/// The credentials of providers, by name.
#[derive(Debug)]
pub struct AuthFile {
    providers: Vec<(String, Credential)>,
}

/// The credentials a list holds; of two for one name the later counts.
pub open spec fn credentials(list: Seq<(String, Credential)>) -> Map<Seq<char>, CredentialView>
    decreases list.len(),
{
    if list.len() == 0 {
        Map::empty()
    } else {
        credentials(list.drop_last()).insert(list.last().0@, list.last().1@)
    }
}

impl View for AuthFile {
    type V = Map<Seq<char>, CredentialView>;

    closed spec fn view(&self) -> Map<Seq<char>, CredentialView> {
        credentials(self.providers@)
    }
}

impl AuthFile {
    /// Where the credentials are kept under a home directory.
    pub fn default_path(home: &str) -> (r: String)
        ensures
            r@ == joined(home@, "auth.json"@),
    {
        join(home, "auth.json")
    }

    /// No credentials: what a missing file holds.
    pub fn new() -> (r: Self)
        ensures
            r@ == Map::<Seq<char>, CredentialView>::empty(),
    {
        AuthFile { providers: Vec::new() }
    }

    /// The credential of a provider.
    pub fn get(&self, provider: &str) -> (r: Option<&Credential>)
        ensures
            match r {
                Some(c) => self@.dom().contains(provider@) && self@[provider@] == c@,
                None => !self@.dom().contains(provider@),
            },
    {
        let ghost all = self.providers@;
        let mut n: usize = self.providers.len();
        proof {
            assert(all.take(n as int) =~= all);
        }
        while n > 0
            invariant
                all == self.providers@,
                n <= self.providers@.len(),
                self@.dom().contains(provider@) == credentials(all.take(n as int)).dom().contains(
                    provider@,
                ),
                self@.dom().contains(provider@) ==> self@[provider@] == credentials(
                    all.take(n as int),
                )[provider@],
            decreases n,
        {
            n -= 1;
            proof {
                lemma_step(all, n as int);
            }
            if same(self.providers[n].0.as_str(), provider) {
                return Some(&self.providers[n].1);
            }
        }
        None
    }

    /// Insert or replace a credential.
    pub fn set(&mut self, provider: &str, credential: Credential)
        ensures
            final(self)@ == old(self)@.insert(provider@, credential@),
    {
        let ghost before = self.providers@;
        let ghost cv = credential@;
        self.providers.push((provider.to_owned(), credential));
        proof {
            assert(self.providers@.drop_last() =~= before);
            assert(self@ =~= credentials(before).insert(provider@, cv));
        }
    }

    /// The credentials as a list; of two for one name the later counts.
    pub fn entries(&self) -> (r: &Vec<(String, Credential)>)
        ensures
            credentials(r@) == self@,
    {
        &self.providers
    }
}

/// What is stored is what is read, and storing one provider's credential
/// leaves the others alone.
pub proof fn law_stored_credential_reads_back(
    file: Map<Seq<char>, CredentialView>,
    provider: Seq<char>,
    credential: CredentialView,
    other: Seq<char>,
)
    ensures
        file.insert(provider, credential).dom().contains(provider),
        file.insert(provider, credential)[provider] == credential,
        other != provider ==> (file.insert(provider, credential).dom().contains(other)
            <==> file.dom().contains(other)),
        other != provider && file.dom().contains(other) ==> file.insert(
            provider,
            credential,
        )[other] == file[other],
{
}

} // verus!
