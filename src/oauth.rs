use crate::types::{
    opt_view, AuthConfig, AuthConfigView, CredentialsProvider, TokenResponse, TokenResponseView,
};
use vstd::prelude::*;

verus! {

/// The characters of each string of a sequence.
pub open spec fn strings_view(v: Seq<String>) -> Seq<Seq<char>> {
    v.map_values(|s: String| s@)
}

/// The characters of each (name, value) pair of a form.
pub open spec fn pairs_view(v: Seq<(String, String)>) -> Seq<(Seq<char>, Seq<char>)> {
    v.map_values(|p: (String, String)| (p.0@, p.1@))
}

/// The token endpoint under an issuer's base URL.
pub open spec fn token_endpoint(auth_url: Seq<char>) -> Seq<char> {
    auth_url + "/protocol/openid-connect/token"@
}

/// Scopes joined by single spaces.
pub open spec fn join_scopes(s: Seq<Seq<char>>) -> Seq<char>
    decreases s.len(),
{
    if s.len() == 0 {
        Seq::empty()
    } else if s.len() == 1 {
        s[0]
    } else {
        join_scopes(s.drop_last()) + seq![' '] + s.last()
    }
}

/// The `scope` field of a grant request: present only for a non-empty scope list.
pub open spec fn scope_field(scopes: Seq<Seq<char>>) -> Seq<(Seq<char>, Seq<char>)> {
    if scopes.len() == 0 {
        Seq::empty()
    } else {
        seq![("scope"@, join_scopes(scopes))]
    }
}

/// A form-encoded POST to the token endpoint.
#[derive(Debug)]
pub struct TokenRequest {
    pub url: String,
    pub form: Vec<(String, String)>,
}

pub struct TokenRequestView {
    pub url: Seq<char>,
    pub form: Seq<(Seq<char>, Seq<char>)>,
}

impl View for TokenRequest {
    type V = TokenRequestView;

    open spec fn view(&self) -> TokenRequestView {
        TokenRequestView { url: self.url@, form: pairs_view(self.form@) }
    }
}

/// The refresh-token grant for `client`, spending `token`.
pub open spec fn refresh_request_of(
    client: AuthConfigView,
    token: Seq<char>,
    scopes: Seq<Seq<char>>,
) -> TokenRequestView {
    TokenRequestView {
        url: token_endpoint(client.auth_url),
        form: seq![
            ("grant_type"@, "refresh_token"@),
            ("client_id"@, client.client_id),
            ("refresh_token"@, token),
        ] + scope_field(scopes),
    }
}

/// The password grant for `client` with the given credentials.
pub open spec fn password_request_of(
    client: AuthConfigView,
    username: Seq<char>,
    password: Seq<char>,
    scopes: Seq<Seq<char>>,
) -> TokenRequestView {
    TokenRequestView {
        url: token_endpoint(client.auth_url),
        form: seq![
            ("grant_type"@, "password"@),
            ("client_id"@, client.client_id),
            ("username"@, username),
            ("password"@, password),
        ] + scope_field(scopes),
    }
}

/// Joins scopes with single spaces.
pub fn join_scope_list(scopes: &Vec<String>) -> (r: String)
    ensures
        r@ == join_scopes(strings_view(scopes@)),
{
    let mut out = String::new();
    let mut i: usize = 0;
    while i < scopes.len()
        invariant
            i <= scopes@.len(),
            out@ == join_scopes(strings_view(scopes@).take(i as int)),
        decreases scopes@.len() - i,
    {
        let ghost before = out@;
        if i > 0 {
            out.append(" ");
        }
        out.append(scopes[i].as_str());
        proof {
            reveal_strlit(" ");
            let s = strings_view(scopes@);
            assert(s.take(i + 1).drop_last() =~= s.take(i as int));
            if i == 0 {
                assert(before =~= Seq::<char>::empty());
                assert(out@ =~= s.take(1)[0]);
            } else {
                assert(out@ =~= before + seq![' '] + s.take(i + 1).last());
            }
        }
        i = i + 1;
    }
    proof {
        assert(strings_view(scopes@).take(scopes@.len() as int) =~= strings_view(scopes@));
    }
    out
}

fn form_field(name: &str, value: String) -> (r: (String, String))
    ensures
        r.0@ == name@,
        r.1@ == value@,
{
    (String::from_str(name), value)
}

/// Appends the `scope` field where `scopes` is non-empty.
fn push_scope_field(form: &mut Vec<(String, String)>, scopes: &Vec<String>)
    ensures
        pairs_view(final(form)@) == pairs_view(old(form)@) + scope_field(strings_view(scopes@)),
{
    if scopes.len() > 0 {
        form.push(form_field("scope", join_scope_list(scopes)));
        assert(pairs_view(form@) =~= pairs_view(old(form)@) + scope_field(strings_view(scopes@)));
    } else {
        assert(pairs_view(form@) =~= pairs_view(old(form)@) + scope_field(strings_view(scopes@)));
    }
}

fn endpoint_url(auth_url: &String) -> (r: String)
    ensures
        r@ == token_endpoint(auth_url@),
{
    let mut url = auth_url.clone();
    url.append("/protocol/openid-connect/token");
    url
}

/// Builds the refresh-token grant request.
pub fn refresh_request(client: &AuthConfig, token: &String, scopes: &Vec<String>) -> (r: TokenRequest)
    ensures
        r@ == refresh_request_of(client@, token@, strings_view(scopes@)),
{
    let mut form: Vec<(String, String)> = Vec::new();
    form.push(form_field("grant_type", String::from_str("refresh_token")));
    form.push(form_field("client_id", client.client_id.clone()));
    form.push(form_field("refresh_token", token.clone()));
    push_scope_field(&mut form, scopes);
    let r = TokenRequest { url: endpoint_url(&client.auth_url), form };
    assert(r@.form =~= refresh_request_of(client@, token@, strings_view(scopes@)).form);
    r
}

/// Builds the password grant request.
pub fn password_request(
    client: &AuthConfig,
    username: String,
    password: String,
    scopes: &Vec<String>,
) -> (r: TokenRequest)
    ensures
        r@ == password_request_of(client@, username@, password@, strings_view(scopes@)),
{
    let ghost (u, p) = (username@, password@);
    let mut form: Vec<(String, String)> = Vec::new();
    form.push(form_field("grant_type", String::from_str("password")));
    form.push(form_field("client_id", client.client_id.clone()));
    form.push(form_field("username", username));
    form.push(form_field("password", password));
    push_scope_field(&mut form, scopes);
    let r = TokenRequest { url: endpoint_url(&client.auth_url), form };
    assert(r@.form =~= password_request_of(client@, u, p, strings_view(scopes@)).form);
    r
}

/// Why an acquisition failed.
#[derive(Debug, Clone, Copy, PartialEq, Eq, Structural)]
pub enum AuthError {
    /// The HTTP exchange itself failed.
    Transport,
    /// The endpoint answered with a status outside 200..=299.
    Http(u16),
    /// The reply carried no readable `access_token`.
    Decode,
    /// The credentials provider could not supply a username and password.
    Credentials,
}

/// What came back from one grant request.
#[derive(Debug)]
pub enum GrantReply {
    /// No response was received.
    TransportFailed,
    /// A response with its status; `body` is `None` where the body is not a
    /// JSON object with a string `access_token`.
    Received { status: u16, body: Option<TokenResponse> },
}

pub enum GrantReplyView {
    TransportFailed,
    Received { status: u16, body: Option<TokenResponseView> },
}

impl View for GrantReply {
    type V = GrantReplyView;

    open spec fn view(&self) -> GrantReplyView {
        match self {
            GrantReply::TransportFailed => GrantReplyView::TransportFailed,
            GrantReply::Received { status, body } => GrantReplyView::Received {
                status: *status,
                body: match body {
                    Some(t) => Some(t@),
                    None => None,
                },
            },
        }
    }
}

pub open spec fn is_success(status: u16) -> bool {
    200 <= status < 300
}

/// The token a reply grants, or why it grants none.
pub open spec fn grant_outcome(r: GrantReplyView) -> Result<TokenResponseView, AuthError> {
    match r {
        GrantReplyView::TransportFailed => Err(AuthError::Transport),
        GrantReplyView::Received { status, body } => if !is_success(status) {
            Err(AuthError::Http(status))
        } else {
            match body {
                Some(t) => Ok(t),
                None => Err(AuthError::Decode),
            }
        },
    }
}

/// What the driver reports back to an acquisition.
#[derive(Debug)]
pub enum Event {
    /// The reply to the request of the last `Action::Send`.
    Replied(GrantReply),
    /// The credentials provider gave a username and a password.
    CredentialsGiven(String, String),
    /// The credentials provider failed.
    CredentialsFailed,
}

pub enum EventView {
    Replied(GrantReplyView),
    CredentialsGiven(Seq<char>, Seq<char>),
    CredentialsFailed,
}

impl View for Event {
    type V = EventView;

    open spec fn view(&self) -> EventView {
        match self {
            Event::Replied(r) => EventView::Replied(r@),
            Event::CredentialsGiven(u, p) => EventView::CredentialsGiven(u@, p@),
            Event::CredentialsFailed => EventView::CredentialsFailed,
        }
    }
}

/// What an acquisition asks its driver to do next.
#[derive(Debug)]
pub enum Action {
    /// Send this request and report the reply.
    Send(TokenRequest),
    /// Ask the credentials provider and report what it gave.
    AskCredentials,
    /// The acquisition is over, with this result.
    Finish(Result<String, AuthError>),
}

pub enum ActionView {
    Send(TokenRequestView),
    AskCredentials,
    Finish(Result<Seq<char>, AuthError>),
}

impl View for Action {
    type V = ActionView;

    open spec fn view(&self) -> ActionView {
        match self {
            Action::Send(r) => ActionView::Send(r@),
            Action::AskCredentials => ActionView::AskCredentials,
            Action::Finish(Ok(t)) => ActionView::Finish(Ok(t@)),
            Action::Finish(Err(e)) => ActionView::Finish(Err(*e)),
        }
    }
}

/// Where an acquisition stands.
#[derive(Debug)]
pub enum Phase {
    /// A refresh-token grant spending `used` is out.
    Refreshing { used: String },
    /// The credentials provider has been asked.
    AwaitingCredentials,
    /// A password grant is out.
    Exchanging,
    /// A result has been handed out.
    Finished,
}

pub enum PhaseView {
    Refreshing { used: Seq<char> },
    AwaitingCredentials,
    Exchanging,
    Finished,
}

impl View for Phase {
    type V = PhaseView;

    open spec fn view(&self) -> PhaseView {
        match self {
            Phase::Refreshing { used } => PhaseView::Refreshing { used: used@ },
            Phase::AwaitingCredentials => PhaseView::AwaitingCredentials,
            Phase::Exchanging => PhaseView::Exchanging,
            Phase::Finished => PhaseView::Finished,
        }
    }
}

/// One token acquisition for one client: first a refresh-token grant where
/// the client holds a refresh token, then, where that is impossible or
/// fails, a password grant with credentials from the provider.
#[derive(Debug)]
pub struct Acquisition {
    pub phase: Phase,
    /// Hand out the refresh token spent on a successful refresh grant in
    /// place of the access token it brought.
    pub want_refresh_token_output: bool,
    pub scopes: Vec<String>,
}

pub struct AcquisitionView {
    pub phase: PhaseView,
    pub want_refresh_token_output: bool,
    pub scopes: Seq<Seq<char>>,
}

impl View for Acquisition {
    type V = AcquisitionView;

    open spec fn view(&self) -> AcquisitionView {
        AcquisitionView {
            phase: self.phase@,
            want_refresh_token_output: self.want_refresh_token_output,
            scopes: strings_view(self.scopes@),
        }
    }
}

impl AcquisitionView {
    pub open spec fn in_phase(self, phase: PhaseView) -> AcquisitionView {
        AcquisitionView { phase, ..self }
    }
}

/// The client after a granted token: a refresh token in the reply replaces
/// the stored one; without one the stored one stays.
pub open spec fn rotated(client: AuthConfigView, t: TokenResponseView) -> AuthConfigView {
    match t.refresh_token {
        Some(r) => AuthConfigView { refresh_token: Some(r), ..client },
        None => client,
    }
}

/// The first phase and action of an acquisition.
pub open spec fn start_of(
    client: AuthConfigView,
    want_refresh_token_output: bool,
    scopes: Seq<Seq<char>>,
) -> (AcquisitionView, ActionView) {
    let s = AcquisitionView { phase: PhaseView::AwaitingCredentials, want_refresh_token_output, scopes };
    match client.refresh_token {
        Some(t) => (
            s.in_phase(PhaseView::Refreshing { used: t }),
            ActionView::Send(refresh_request_of(client, t, scopes)),
        ),
        None => (s, ActionView::AskCredentials),
    }
}

/// The events that an acquisition in state `s` waits for.
pub open spec fn accepts(s: AcquisitionView, e: EventView) -> bool {
    match s.phase {
        PhaseView::Refreshing { .. } => e is Replied,
        PhaseView::AwaitingCredentials => e is CredentialsGiven || e is CredentialsFailed,
        PhaseView::Exchanging => e is Replied,
        PhaseView::Finished => false,
    }
}

/// One step: the next state, the client after it, and the next action.
///
/// A failed refresh grant, of whatever kind, falls back to asking for
/// credentials; a failed password grant ends the acquisition with its error.
/// A successful refresh grant hands out the access token, or, where asked
/// for, the refresh token that was spent on it, even where the reply rotated
/// the stored one. A successful password grant always hands out the access
/// token.
pub open spec fn next(s: AcquisitionView, c: AuthConfigView, e: EventView) -> (
    AcquisitionView,
    AuthConfigView,
    ActionView,
) {
    let done = s.in_phase(PhaseView::Finished);
    match (s.phase, e) {
        (PhaseView::Refreshing { used }, EventView::Replied(r)) => match grant_outcome(r) {
            Ok(t) => (
                done,
                rotated(c, t),
                ActionView::Finish(
                    Ok(
                        if s.want_refresh_token_output {
                            used
                        } else {
                            t.access_token
                        },
                    ),
                ),
            ),
            Err(_) => (s.in_phase(PhaseView::AwaitingCredentials), c, ActionView::AskCredentials),
        },
        (PhaseView::AwaitingCredentials, EventView::CredentialsGiven(u, p)) => (
            s.in_phase(PhaseView::Exchanging),
            c,
            ActionView::Send(password_request_of(c, u, p, s.scopes)),
        ),
        (PhaseView::AwaitingCredentials, EventView::CredentialsFailed) => (
            done,
            c,
            ActionView::Finish(Err(AuthError::Credentials)),
        ),
        (PhaseView::Exchanging, EventView::Replied(r)) => match grant_outcome(r) {
            Ok(t) => (done, rotated(c, t), ActionView::Finish(Ok(t.access_token))),
            Err(err) => (done, c, ActionView::Finish(Err(err))),
        },
        // An event the state does not wait for; `step` requires `accepts`.
        _ => (s, c, ActionView::AskCredentials),
    }
}

pub open spec fn outcome_view(r: Result<TokenResponse, AuthError>) -> Result<TokenResponseView, AuthError> {
    match r {
        Ok(t) => Ok(t@),
        Err(e) => Err(e),
    }
}

/// Reads a grant reply: the token it grants, or why it grants none.
pub fn read_reply(reply: GrantReply) -> (r: Result<TokenResponse, AuthError>)
    ensures
        outcome_view(r) == grant_outcome(reply@),
{
    match reply {
        GrantReply::TransportFailed => Err(AuthError::Transport),
        GrantReply::Received { status, body } => {
            if status < 200 || status >= 300 {
                Err(AuthError::Http(status))
            } else {
                match body {
                    Some(t) => Ok(t),
                    None => Err(AuthError::Decode),
                }
            }
        },
    }
}

/// Stores the refresh token of a granted reply, if it carries one.
fn store_rotation(client: &mut AuthConfig, refresh_token: Option<String>)
    ensures
        final(client)@ == rotated(
            old(client)@,
            TokenResponseView { access_token: Seq::empty(), refresh_token: opt_view(refresh_token) },
        ),
{
    if let Some(r) = refresh_token {
        client.refresh_token = Some(r);
    }
}

impl Event {
    /// The event that reports what a credentials provider returned.
    pub fn from_credentials(given: Result<(String, String), String>) -> (r: Event)
        ensures
            match given {
                Ok((u, p)) => r@ == EventView::CredentialsGiven(u@, p@),
                Err(_) => r@ == EventView::CredentialsFailed,
            },
    {
        match given {
            Ok((u, p)) => Event::CredentialsGiven(u, p),
            Err(_) => Event::CredentialsFailed,
        }
    }
}

impl Acquisition {
    /// Begins an acquisition for `client`.
    pub fn start(client: &AuthConfig, want_refresh_token_output: bool, scopes: Vec<String>) -> (r: (
        Acquisition,
        Action,
    ))
        ensures
            (r.0@, r.1@) == start_of(client@, want_refresh_token_output, strings_view(scopes@)),
    {
        match &client.refresh_token {
            Some(t) => {
                let request = refresh_request(client, t, &scopes);
                let s = Acquisition {
                    phase: Phase::Refreshing { used: t.clone() },
                    want_refresh_token_output,
                    scopes,
                };
                (s, Action::Send(request))
            },
            None => {
                let s = Acquisition {
                    phase: Phase::AwaitingCredentials,
                    want_refresh_token_output,
                    scopes,
                };
                (s, Action::AskCredentials)
            },
        }
    }

    /// Whether the acquisition waits for `event`.
    pub fn accepts(&self, event: &Event) -> (r: bool)
        ensures
            r == accepts(self@, event@),
    {
        match &self.phase {
            Phase::Refreshing { .. } | Phase::Exchanging => matches!(event, Event::Replied(_)),
            Phase::AwaitingCredentials => !matches!(event, Event::Replied(_)),
            Phase::Finished => false,
        }
    }

    pub fn is_finished(&self) -> (r: bool)
        ensures
            r == (self@.phase is Finished),
    {
        matches!(self.phase, Phase::Finished)
    }

    /// Takes in what the driver reports and says what to do next; `client`
    /// is the client the acquisition was started for.
    pub fn step(&mut self, client: &mut AuthConfig, event: Event) -> (r: Action)
        requires
            accepts(old(self)@, event@),
        ensures
            (final(self)@, final(client)@, r@) == next(old(self)@, old(client)@, event@),
    {
        match event {
            Event::Replied(reply) => {
                let used = match &self.phase {
                    Phase::Refreshing { used } => Some(used.clone()),
                    _ => None,
                };
                let outcome = read_reply(reply);
                self.phase = Phase::Finished;
                match outcome {
                    Ok(t) => {
                        let access = t.access_token;
                        store_rotation(client, t.refresh_token);
                        match used {
                            Some(u) => {
                                if self.want_refresh_token_output {
                                    Action::Finish(Ok(u))
                                } else {
                                    Action::Finish(Ok(access))
                                }
                            },
                            None => Action::Finish(Ok(access)),
                        }
                    },
                    Err(e) => {
                        if used.is_some() {
                            self.phase = Phase::AwaitingCredentials;
                            Action::AskCredentials
                        } else {
                            Action::Finish(Err(e))
                        }
                    },
                }
            },
            Event::CredentialsGiven(username, password) => {
                self.phase = Phase::Exchanging;
                Action::Send(password_request(client, username, password, &self.scopes))
            },
            Event::CredentialsFailed => {
                self.phase = Phase::Finished;
                Action::Finish(Err(AuthError::Credentials))
            },
        }
    }

    /// Asks `provider` for credentials and takes in what it returned.
    pub fn supply_credentials<P: CredentialsProvider>(
        &mut self,
        client: &mut AuthConfig,
        provider: &P,
    ) -> (r: Action)
        requires
            old(self)@.phase is AwaitingCredentials,
        ensures
            exists|e: EventView|
                (e is CredentialsGiven || e is CredentialsFailed) && (final(self)@, final(client)@, r@)
                    == #[trigger] next(old(self)@, old(client)@, e),
    {
        let event = Event::from_credentials(provider.get_credentials());
        self.step(client, event)
    }
}

/// Feeds `events` in order to an acquisition in state `s` for client `c`,
/// up to the first event it does not wait for: the state and client after
/// them, and the actions asked for on the way.
pub open spec fn run(s: AcquisitionView, c: AuthConfigView, events: Seq<EventView>) -> (
    AcquisitionView,
    AuthConfigView,
    Seq<ActionView>,
)
    decreases events.len(),
{
    if events.len() == 0 || !accepts(s, events[0]) {
        (s, c, Seq::empty())
    } else {
        let (s1, c1, a) = next(s, c, events[0]);
        let (s2, c2, rest) = run(s1, c1, events.drop_first());
        (s2, c2, seq![a] + rest)
    }
}

/// How many times `actions` asks for credentials.
pub open spec fn credential_asks(actions: Seq<ActionView>) -> nat
    decreases actions.len(),
{
    if actions.len() == 0 {
        0
    } else {
        (if actions[0] is AskCredentials {
            1nat
        } else {
            0nat
        }) + credential_asks(actions.drop_first())
    }
}

proof fn lemma_asks_concat(a: ActionView, rest: Seq<ActionView>)
    ensures
        credential_asks(seq![a] + rest) == (if a is AskCredentials {
            1nat
        } else {
            0nat
        }) + credential_asks(rest),
{
    assert((seq![a] + rest).drop_first() =~= rest);
}

/// Once a password grant is out, or the acquisition is over, credentials
/// are never asked for again.
proof fn lemma_no_more_asks(s: AcquisitionView, c: AuthConfigView, events: Seq<EventView>)
    requires
        s.phase is Exchanging || s.phase is Finished,
    ensures
        credential_asks(run(s, c, events).2) == 0,
    decreases events.len(),
{
    if events.len() > 0 && accepts(s, events[0]) {
        let (s1, c1, a) = next(s, c, events[0]);
        lemma_no_more_asks(s1, c1, events.drop_first());
        lemma_asks_concat(a, run(s1, c1, events.drop_first()).2);
    }
}

/// After a finished acquisition no event is taken in and nothing is asked.
proof fn lemma_finished_is_final(s: AcquisitionView, c: AuthConfigView, events: Seq<EventView>)
    requires
        s.phase is Finished,
    ensures
        run(s, c, events) == (s, c, Seq::<ActionView>::empty()),
{
}

/// A client with a stored refresh token whose refresh grant succeeds never
/// has its credentials asked for: the acquisition ends at once with the
/// access token, or the spent refresh token where that was asked for,
/// whatever events follow.
pub proof fn refresh_success_never_asks(
    client: AuthConfigView,
    want_refresh_token_output: bool,
    scopes: Seq<Seq<char>>,
    status: u16,
    body: TokenResponseView,
    later: Seq<EventView>,
)
    requires
        client.refresh_token is Some,
        is_success(status),
    ensures
        ({
            let (s0, a0) = start_of(client, want_refresh_token_output, scopes);
            let reply = EventView::Replied(GrantReplyView::Received { status, body: Some(body) });
            let (s, c, actions) = run(s0, client, seq![reply] + later);
            &&& a0 == ActionView::Send(refresh_request_of(client, client.refresh_token->0, scopes))
            &&& actions == seq![
                ActionView::Finish(
                    Ok(
                        if want_refresh_token_output {
                            client.refresh_token->0
                        } else {
                            body.access_token
                        },
                    ),
                ),
            ]
            &&& credential_asks(seq![a0] + actions) == 0
            &&& c == rotated(client, body)
        }),
{
    let (s0, a0) = start_of(client, want_refresh_token_output, scopes);
    let reply = EventView::Replied(GrantReplyView::Received { status, body: Some(body) });
    let events = seq![reply] + later;
    assert(events[0] == reply);
    assert(events.drop_first() =~= later);
    let (s1, c1, a1) = next(s0, client, reply);
    lemma_finished_is_final(s1, c1, later);
    let actions = run(s0, client, events).2;
    assert(actions =~= seq![a1]);
    lemma_asks_concat(a0, actions);
    lemma_asks_concat(a1, Seq::empty());
}

/// A client without a stored refresh token has its credentials asked for
/// exactly once: first thing, and never again, whatever events follow.
pub proof fn no_refresh_token_asks_once(
    client: AuthConfigView,
    want_refresh_token_output: bool,
    scopes: Seq<Seq<char>>,
    events: Seq<EventView>,
)
    requires
        client.refresh_token is None,
    ensures
        ({
            let (s0, a0) = start_of(client, want_refresh_token_output, scopes);
            &&& a0 == ActionView::AskCredentials
            &&& credential_asks(run(s0, client, events).2) == 0
            &&& credential_asks(seq![a0] + run(s0, client, events).2) == 1
        }),
{
    let (s0, a0) = start_of(client, want_refresh_token_output, scopes);
    if events.len() > 0 && accepts(s0, events[0]) {
        let (s1, c1, a1) = next(s0, client, events[0]);
        lemma_no_more_asks(s1, c1, events.drop_first());
        lemma_asks_concat(a1, run(s1, c1, events.drop_first()).2);
    }
    lemma_asks_concat(a0, run(s0, client, events).2);
}

proof fn lemma_flag_irrelevant(
    s: AcquisitionView,
    c: AuthConfigView,
    events: Seq<EventView>,
    flag: bool,
)
    requires
        !(s.phase is Refreshing),
    ensures
        ({
            let t = AcquisitionView { want_refresh_token_output: flag, ..s };
            &&& run(s, c, events).1 == run(t, c, events).1
            &&& run(s, c, events).2 == run(t, c, events).2
        }),
    decreases events.len(),
{
    let t = AcquisitionView { want_refresh_token_output: flag, ..s };
    if events.len() > 0 && accepts(s, events[0]) {
        let (s1, c1, a1) = next(s, c, events[0]);
        let (t1, d1, b1) = next(t, c, events[0]);
        assert(t1 == AcquisitionView { want_refresh_token_output: flag, ..s1 });
        lemma_flag_irrelevant(s1, c1, events.drop_first(), flag);
    }
}

/// Without a stored refresh token the result goes by the password grant
/// alone: asking for the refresh token in place of the access token changes
/// neither the actions nor the stored client, whatever events follow.
pub proof fn password_path_ignores_refresh_flag(
    client: AuthConfigView,
    scopes: Seq<Seq<char>>,
    events: Seq<EventView>,
)
    requires
        client.refresh_token is None,
    ensures
        run(start_of(client, true, scopes).0, client, events).2 == run(
            start_of(client, false, scopes).0,
            client,
            events,
        ).2,
        run(start_of(client, true, scopes).0, client, events).1 == run(
            start_of(client, false, scopes).0,
            client,
            events,
        ).1,
{
    lemma_flag_irrelevant(start_of(client, true, scopes).0, client, events, false);
    assert(start_of(client, false, scopes).0 == AcquisitionView {
        want_refresh_token_output: false,
        ..start_of(client, true, scopes).0
    });
}

/// A refresh grant rejected with a status outside 200..=299 falls back to
/// the credentials provider; with the credentials it gives, a password grant
/// is sent, and the access token that grant brings is handed out.
pub proof fn rejected_refresh_falls_back(
    client: AuthConfigView,
    want_refresh_token_output: bool,
    scopes: Seq<Seq<char>>,
    refresh_status: u16,
    refresh_body: Option<TokenResponseView>,
    username: Seq<char>,
    password: Seq<char>,
    password_status: u16,
    granted: TokenResponseView,
)
    requires
        client.refresh_token is Some,
        !is_success(refresh_status),
        is_success(password_status),
    ensures
        ({
            let (s0, a0) = start_of(client, want_refresh_token_output, scopes);
            let events = seq![
                EventView::Replied(
                    GrantReplyView::Received { status: refresh_status, body: refresh_body },
                ),
                EventView::CredentialsGiven(username, password),
                EventView::Replied(
                    GrantReplyView::Received { status: password_status, body: Some(granted) },
                ),
            ];
            let (s, c, actions) = run(s0, client, events);
            &&& actions == seq![
                ActionView::AskCredentials,
                ActionView::Send(password_request_of(client, username, password, scopes)),
                ActionView::Finish(Ok(granted.access_token)),
            ]
            &&& c == rotated(client, granted)
            &&& s.phase is Finished
        }),
{
    let (s0, a0) = start_of(client, want_refresh_token_output, scopes);
    let e0 = EventView::Replied(GrantReplyView::Received { status: refresh_status, body: refresh_body });
    let e1 = EventView::CredentialsGiven(username, password);
    let e2 = EventView::Replied(GrantReplyView::Received { status: password_status, body: Some(granted) });
    let events = seq![e0, e1, e2];
    let (s1, c1, a1) = next(s0, client, e0);
    let (s2, c2, a2) = next(s1, c1, e1);
    let (s3, c3, a3) = next(s2, c2, e2);
    assert(events.drop_first() =~= seq![e1, e2]);
    assert(seq![e1, e2].drop_first() =~= seq![e2]);
    assert(seq![e2].drop_first() =~= Seq::<EventView>::empty());
    assert(run(s3, c3, Seq::<EventView>::empty()).2 =~= Seq::<ActionView>::empty());
    assert(run(s2, c2, seq![e2]).2 =~= seq![a3]);
    assert(run(s1, c1, seq![e1, e2]).2 =~= seq![a2, a3]);
    assert(run(s0, client, events).2 =~= seq![a1, a2, a3]);
}

} // verus!
