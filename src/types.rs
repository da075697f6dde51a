use vstd::prelude::*;

verus! {

/// What a `String` option holds, as characters.
pub open spec fn opt_view(o: Option<String>) -> Option<Seq<char>> {
    match o {
        Some(s) => Some(s@),
        None => None,
    }
}

/// Compares two optional strings by their characters.
pub fn opt_string_eq(a: &Option<String>, b: &Option<String>) -> (r: bool)
    ensures
        r == (opt_view(*a) == opt_view(*b)),
{
    match a {
        Some(x) => match b {
            Some(y) => x.eq(y),
            None => false,
        },
        None => b.is_none(),
    }
}

/// One registered OAuth client: where its tokens are issued, the identifier
/// sent on every request, and the refresh token last issued to it.
#[derive(Debug)]
pub struct AuthConfig {
    pub auth_url: String,
    pub client_id: String,
    pub refresh_token: Option<String>,
    pub secret: Option<String>,
}

pub struct AuthConfigView {
    pub auth_url: Seq<char>,
    pub client_id: Seq<char>,
    pub refresh_token: Option<Seq<char>>,
    pub secret: Option<Seq<char>>,
}

impl View for AuthConfig {
    type V = AuthConfigView;

    open spec fn view(&self) -> AuthConfigView {
        AuthConfigView {
            auth_url: self.auth_url@,
            client_id: self.client_id@,
            refresh_token: opt_view(self.refresh_token),
            secret: opt_view(self.secret),
        }
    }
}

impl AuthConfig {
    /// A field-by-field copy.
    pub fn duplicate(&self) -> (r: AuthConfig)
        ensures
            r@ == self@,
    {
        AuthConfig {
            auth_url: self.auth_url.clone(),
            client_id: self.client_id.clone(),
            refresh_token: match &self.refresh_token {
                Some(t) => Some(t.clone()),
                None => None,
            },
            secret: match &self.secret {
                Some(s) => Some(s.clone()),
                None => None,
            },
        }
    }
}

impl PartialEq for AuthConfig {
    fn eq(&self, o: &AuthConfig) -> (r: bool) {
        self.auth_url == o.auth_url && self.client_id == o.client_id && opt_string_eq(
            &self.refresh_token,
            &o.refresh_token,
        ) && opt_string_eq(&self.secret, &o.secret)
    }
}

impl vstd::std_specs::cmp::PartialEqSpecImpl for AuthConfig {
    open spec fn obeys_eq_spec() -> bool {
        true
    }

    open spec fn eq_spec(&self, o: &AuthConfig) -> bool {
        self@ == o@
    }
}

/// The registry that a sequence of (nickname, client) entries stands for: a
/// nickname maps to the client of its first entry.
pub open spec fn registry_of(es: Seq<(Seq<char>, AuthConfigView)>) -> Map<Seq<char>, AuthConfigView>
    decreases es.len(),
{
    if es.len() == 0 {
        Map::empty()
    } else {
        registry_of(es.drop_first()).insert(es[0].0, es[0].1)
    }
}

/// The entries of a registry, as characters and client views.
pub open spec fn entries_view(es: Seq<(String, AuthConfig)>) -> Seq<(Seq<char>, AuthConfigView)> {
    es.map_values(|e: (String, AuthConfig)| (e.0@, e.1@))
}

/// No nickname has two entries.
pub open spec fn unique_keys(es: Seq<(Seq<char>, AuthConfigView)>) -> bool {
    forall|a: int, b: int| 0 <= a < b < es.len() ==> es[a].0 != es[b].0
}

/// The client registry: nickname to client configuration.
///
/// Nicknames are case-sensitive and unique (`wf`): the registry's own
/// operations keep them so. Where `clients` was filled by hand with a
/// nickname more than once, its first entry is the one that counts.
#[derive(Debug)]
pub struct ConfigFile {
    pub clients: Vec<(String, AuthConfig)>,
}

impl View for ConfigFile {
    type V = Map<Seq<char>, AuthConfigView>;

    open spec fn view(&self) -> Map<Seq<char>, AuthConfigView> {
        registry_of(entries_view(self.clients@))
    }
}

impl ConfigFile {
    /// Each nickname has at most one entry.
    pub open spec fn wf(&self) -> bool {
        unique_keys(entries_view(self.clients@))
    }
}

impl Default for ConfigFile {
    fn default() -> (r: ConfigFile)
        ensures
            r@ == Map::<Seq<char>, AuthConfigView>::empty(),
            r.wf(),
            r.clients@.len() == 0,
    {
        ConfigFile { clients: Vec::new() }
    }
}

/// A decoded reply of the token endpoint.
#[derive(Debug)]
pub struct TokenResponse {
    pub access_token: String,
    pub refresh_token: Option<String>,
}

pub struct TokenResponseView {
    pub access_token: Seq<char>,
    pub refresh_token: Option<Seq<char>>,
}

impl View for TokenResponse {
    type V = TokenResponseView;

    open spec fn view(&self) -> TokenResponseView {
        TokenResponseView {
            access_token: self.access_token@,
            refresh_token: opt_view(self.refresh_token),
        }
    }
}

/// A source of a (username, password) pair, asked when no stored refresh
/// token can be used.
pub trait CredentialsProvider {
    fn get_credentials(&self) -> Result<(String, String), String>;
}

} // verus!
