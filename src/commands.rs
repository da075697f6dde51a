use crate::config::{lists_registry, listing_view, ConfigManager};
use crate::oauth::{strings_view, Acquisition, Action, ActionView, AcquisitionView, start_of};
use crate::types::{AuthConfig, AuthConfigView, ConfigFile};
use vstd::prelude::*;

verus! {

/// How a retrieved token is printed.
#[derive(Clone, Copy, Debug, PartialEq, Eq, Structural)]
pub enum Format {
    /// As a JSON object holding an `Authorization: Bearer` header value.
    Header,
}

/// A lower-case hexadecimal digit.
pub open spec fn hex_digit(n: u32) -> char {
    seq!['0', '1', '2', '3', '4', '5', '6', '7', '8', '9', 'a', 'b', 'c', 'd', 'e', 'f'][n as int]
}

/// How one character stands inside a JSON string: quote and backslash
/// escaped, the control characters as their short escape or as `\u00xx`,
/// every other character as itself.
pub open spec fn json_escaped_char(c: char) -> Seq<char> {
    if c == '"' {
        seq!['\\', '"']
    } else if c == '\\' {
        seq!['\\', '\\']
    } else if c == '\u{8}' {
        seq!['\\', 'b']
    } else if c == '\t' {
        seq!['\\', 't']
    } else if c == '\n' {
        seq!['\\', 'n']
    } else if c == '\u{c}' {
        seq!['\\', 'f']
    } else if c == '\r' {
        seq!['\\', 'r']
    } else if (c as u32) < 0x20 {
        seq!['\\', 'u', '0', '0', hex_digit((c as u32) / 16), hex_digit((c as u32) % 16)]
    } else {
        seq![c]
    }
}

/// The compact JSON text of a string value holding `s`.
pub open spec fn json_text(s: Seq<char>) -> Seq<char> {
    seq!['"'] + s.map_values(|c: char| json_escaped_char(c)).flatten() + seq!['"']
}

/// No character of `s` is ESC, which starts a terminal escape sequence.
pub open spec fn free_of_escape(s: Seq<char>) -> bool {
    !s.contains('\u{1b}')
}

/// Every nickname, client id and URL of registry `m` is free of ESC.
pub open spec fn displayable(m: Map<Seq<char>, AuthConfigView>) -> bool {
    forall|k: Seq<char>|
        #[trigger] m.contains_key(k) ==> free_of_escape(k) && free_of_escape(m[k].client_id)
            && free_of_escape(m[k].auth_url)
}

/// The text that prettytable draws for a table of these rows of cells.
pub uninterp spec fn table_text(rows: Seq<Seq<Seq<char>>>) -> Seq<char>;

/// Relies on serde_json's `Display` for `Value::String`: the compact JSON
/// text of the string, quoted, with the escapes of `format_escaped_str` and
/// `write_char_escape` (ser.rs).
#[verifier::external_body]
fn json_string(s: &String) -> (r: String)
    ensures
        r@ == json_text(s@),
{
    serde_json::Value::String(s.clone()).to_string()
}

/// Relies on prettytable's `Table::from` over rows of cells, and on the
/// table's `Display`: the table drawn in its default format. A cell holding
/// ESC can make its width check (`display_width`) panic, so no cell may.
#[verifier::external_body]
fn draw_table(rows: Vec<Vec<String>>) -> (r: String)
    requires
        forall|i: int, j: int|
            0 <= i < rows@.len() && 0 <= j < rows@[i]@.len() ==> free_of_escape(
                #[trigger] rows@[i]@[j]@,
            ),
    ensures
        r@ == table_text(rows@.map_values(|row: Vec<String>| strings_view(row@))),
{
    prettytable::Table::from(rows).to_string()
}

/// A token as printed: the token itself, or a JSON object with the
/// `Authorization` header value that carries it.
pub open spec fn rendered_token(format: Option<Format>, token: Seq<char>) -> Seq<char> {
    match format {
        None => token,
        Some(Format::Header) => authorization_object_of(json_text("Bearer "@ + token)),
    }
}

/// A JSON object whose one member `Authorization` has the JSON text
/// `value_json` as its value.
pub open spec fn authorization_object_of(value_json: Seq<char>) -> Seq<char> {
    "{\"Authorization\":"@ + value_json + "}"@
}

/// Wraps the JSON text of a header value into the `Authorization` object.
pub fn authorization_object(value_json: &String) -> (r: String)
    ensures
        r@ == authorization_object_of(value_json@),
{
    let mut out = String::from_str("{\"Authorization\":");
    out.append(value_json.as_str());
    out.append("}");
    out
}

/// The rows of the client table: a header, then one row per client.
pub open spec fn table_rows(listing: Seq<(Seq<char>, AuthConfigView)>) -> Seq<Seq<Seq<char>>> {
    seq![seq!["Nickname"@, "ClientId"@, "URL"@]] + listing.map_values(
        |e: (Seq<char>, AuthConfigView)| seq![e.0, e.1.client_id, e.1.auth_url],
    )
}

fn copy_strings(v: &Vec<String>) -> (r: Vec<String>)
    ensures
        strings_view(r@) == strings_view(v@),
{
    let mut out: Vec<String> = Vec::new();
    let mut i: usize = 0;
    while i < v.len()
        invariant
            i <= v@.len(),
            strings_view(out@) == strings_view(v@).take(i as int),
        decreases v@.len() - i,
    {
        let ghost before = out@;
        let s = v[i].clone();
        assert(s@ == v@[i as int]@);
        out.push(s);
        assert(strings_view(out@) =~= strings_view(before).push(s@));
        assert(strings_view(v@).take(i + 1) =~= strings_view(v@).take(i as int).push(s@));
        i = i + 1;
    }
    assert(strings_view(v@).take(v@.len() as int) =~= strings_view(v@));
    out
}

fn cell_row(a: &String, b: &String, c: &String) -> (r: Vec<String>)
    ensures
        strings_view(r@) == seq![a@, b@, c@],
{
    let mut row: Vec<String> = Vec::new();
    row.push(a.clone());
    row.push(b.clone());
    row.push(c.clone());
    assert(strings_view(row@) =~= seq![a@, b@, c@]);
    row
}

proof fn lemma_row_free(row: Vec<String>, cells: Seq<Seq<char>>)
    requires
        strings_view(row@) == cells,
        forall|b: int| 0 <= b < cells.len() ==> free_of_escape(#[trigger] cells[b]),
    ensures
        forall|b: int| 0 <= b < row@.len() ==> free_of_escape(#[trigger] row@[b]@),
{
    assert forall|b: int| 0 <= b < row@.len() implies free_of_escape(#[trigger] row@[b]@) by {
        assert(strings_view(row@)[b] == row@[b]@);
    }
}

/// The client table: a header row, then nickname, client id and URL of
/// each registered client, in no promised order.
pub fn list_clients(config: &ConfigFile) -> (r: String)
    requires
        displayable(config@),
    ensures
        exists|listing: Seq<(Seq<char>, AuthConfigView)>|
            lists_registry(listing, config@) && r@ == #[trigger] table_text(table_rows(listing)),
{
    let clients = ConfigManager.list_clients(config);
    let ghost listing = listing_view(clients@);
    let mut rows: Vec<Vec<String>> = Vec::new();
    let header = cell_row(
        &String::from_str("Nickname"),
        &String::from_str("ClientId"),
        &String::from_str("URL"),
    );
    proof {
        reveal_strlit("Nickname");
        reveal_strlit("ClientId");
        reveal_strlit("URL");
        let cells = seq!["Nickname"@, "ClientId"@, "URL"@];
        assert(free_of_escape(cells[0]));
        assert(free_of_escape(cells[1]));
        assert(free_of_escape(cells[2]));
        lemma_row_free(header, cells);
    }
    rows.push(header);
    let mut i: usize = 0;
    while i < clients.len()
        invariant
            listing == listing_view(clients@),
            i <= clients@.len(),
            rows@.map_values(|row: Vec<String>| strings_view(row@)) == table_rows(
                listing.take(i as int),
            ),
            lists_registry(listing, config@),
            displayable(config@),
            forall|a: int, b: int|
                0 <= a < rows@.len() && 0 <= b < rows@[a]@.len() ==> free_of_escape(
                    #[trigger] rows@[a]@[b]@,
                ),
        decreases clients@.len() - i,
    {
        let (nickname, client) = clients[i];
        let ghost before = rows@;
        let row = cell_row(nickname, &client.client_id, &client.auth_url);
        proof {
            assert(listing[i as int] == (nickname@, client@));
            assert(config@.contains_key(listing[i as int].0));
            lemma_row_free(row, seq![nickname@, client.client_id@, client.auth_url@]);
        }
        let ghost earlier = rows@;
        rows.push(row);
        proof {
            assert forall|a: int, b: int|
                0 <= a < rows@.len() && 0 <= b < rows@[a]@.len() implies free_of_escape(
                #[trigger] rows@[a]@[b]@,
            ) by {
                if a < earlier.len() {
                    assert(rows@[a] == earlier[a]);
                }
            }
            let f = |row: Vec<String>| strings_view(row@);
            assert(rows@.map_values(f) =~= before.map_values(f).push(strings_view(row@)));
            assert(listing[i as int] == (nickname@, client@));
            assert(listing.take(i + 1) =~= listing.take(i as int).push(listing[i as int]));
        }
        assert(rows@.map_values(|row: Vec<String>| strings_view(row@)) =~= table_rows(
            listing.take(i + 1),
        ));
        i = i + 1;
    }
    assert(listing.take(clients@.len() as int) =~= listing);
    draw_table(rows)
}

/// Whether no character of `s` is ESC.
fn escape_free(s: &str) -> (r: bool)
    ensures
        r == free_of_escape(s@),
{
    let n = s.unicode_len();
    let mut i: usize = 0;
    while i < n
        invariant
            n == s@.len(),
            i <= n,
            forall|j: int| 0 <= j < i ==> s@[j] != '\u{1b}',
        decreases n - i,
    {
        if s.get_char(i) == '\u{1b}' {
            return false;
        }
        i = i + 1;
    }
    true
}

/// Whether the client table of `config` can be drawn: no nickname, client
/// id or URL holds ESC.
pub fn is_displayable(config: &ConfigFile) -> (r: bool)
    ensures
        r == displayable(config@),
{
    let clients = ConfigManager.list_clients(config);
    let ghost listing = listing_view(clients@);
    let mut i: usize = 0;
    while i < clients.len()
        invariant
            listing == listing_view(clients@),
            lists_registry(listing, config@),
            i <= listing.len(),
            forall|a: int|
                0 <= a < i ==> free_of_escape(#[trigger] listing[a].0) && free_of_escape(
                    listing[a].1.client_id,
                ) && free_of_escape(listing[a].1.auth_url),
        decreases listing.len() - i,
    {
        let (nickname, client) = clients[i];
        assert(listing[i as int] == (nickname@, client@));
        if !(escape_free(nickname.as_str()) && escape_free(client.client_id.as_str())
            && escape_free(client.auth_url.as_str())) {
            assert(config@.contains_key(listing[i as int].0));
            return false;
        }
        i = i + 1;
    }
    proof {
        assert forall|k: Seq<char>| #[trigger] config@.contains_key(k) implies free_of_escape(k)
            && free_of_escape(config@[k].client_id) && free_of_escape(config@[k].auth_url) by {
            let a = choose|a: int| 0 <= a < listing.len() && listing[a].0 == k;
            assert(free_of_escape(listing[a].0));
        }
    }
    true
}

/// Removes the client under `nickname`; true if there was one. Nothing
/// changes otherwise, so there is nothing to save.
pub fn delete_client(nickname: &str, config: &mut ConfigFile) -> (r: bool)
    ensures
        r == old(config)@.contains_key(nickname@),
        final(config)@ == old(config)@.remove(nickname@),
        !r ==> final(config).clients@ == old(config).clients@,
        old(config).wf() ==> final(config).wf(),
{
    ConfigManager.remove_client(config, nickname)
}

/// The client with its refresh token forgotten.
pub open spec fn logged_out(c: AuthConfigView) -> AuthConfigView {
    AuthConfigView { refresh_token: None, ..c }
}

/// Forgets the refresh token of the client under `nickname`, without any
/// network call; true if there is such a client.
pub fn logout_client(nickname: &str, config: &mut ConfigFile) -> (r: bool)
    ensures
        r == old(config)@.contains_key(nickname@),
        r ==> final(config)@ == old(config)@.insert(nickname@, logged_out(old(config)@[nickname@])),
        !r ==> *final(config) == *old(config),
        old(config).wf() ==> final(config).wf(),
{
    match ConfigManager.get_client_mut(config, nickname) {
        Some(client) => {
            client.refresh_token = None;
            true
        },
        None => false,
    }
}

/// Registers a client.
pub struct AddCommand {
    pub nickname: Option<String>,
    pub auth_url: String,
    pub client_id: String,
    pub secret: Option<String>,
}

impl AddCommand {
    /// The nickname the client goes under: the one given, else its client id.
    pub open spec fn target(&self) -> Seq<char> {
        match self.nickname {
            Some(n) => n@,
            None => self.client_id@,
        }
    }

    /// The client as registered: no refresh token yet.
    pub open spec fn registered(&self) -> AuthConfigView {
        AuthConfigView {
            auth_url: self.auth_url@,
            client_id: self.client_id@,
            refresh_token: None,
            secret: match self.secret {
                Some(s) => Some(s@),
                None => None,
            },
        }
    }

    /// Registers the client, replacing any under the same nickname, and
    /// returns that nickname.
    pub fn apply(&self, config: &mut ConfigFile) -> (r: String)
        ensures
            r@ == self.target(),
            final(config)@ == old(config)@.insert(self.target(), self.registered()),
            old(config).wf() ==> final(config).wf(),
    {
        let nickname = match &self.nickname {
            Some(n) => n.clone(),
            None => self.client_id.clone(),
        };
        let client = AuthConfig {
            auth_url: self.auth_url.clone(),
            client_id: self.client_id.clone(),
            refresh_token: None,
            secret: match &self.secret {
                Some(s) => Some(s.clone()),
                None => None,
            },
        };
        ConfigManager.add_client(config, nickname.clone(), client);
        nickname
    }
}

/// Removes a client.
pub struct DeleteCommand {
    pub nickname: String,
}

impl DeleteCommand {
    /// Removes the client; true if there was one.
    pub fn apply(&self, config: &mut ConfigFile) -> (r: bool)
        ensures
            r == old(config)@.contains_key(self.nickname@),
            final(config)@ == old(config)@.remove(self.nickname@),
            !r ==> final(config).clients@ == old(config).clients@,
            old(config).wf() ==> final(config).wf(),
    {
        delete_client(self.nickname.as_str(), config)
    }
}

/// Forgets a client's refresh token.
pub struct LogoutCommand {
    pub nickname: String,
}

impl LogoutCommand {
    /// Forgets the refresh token; true if there is such a client.
    pub fn apply(&self, config: &mut ConfigFile) -> (r: bool)
        ensures
            r == old(config)@.contains_key(self.nickname@),
            r ==> final(config)@ == old(config)@.insert(
                self.nickname@,
                logged_out(old(config)@[self.nickname@]),
            ),
            !r ==> *final(config) == *old(config),
            old(config).wf() ==> final(config).wf(),
    {
        logout_client(self.nickname.as_str(), config)
    }
}

/// Lists the registered clients.
pub struct ListCommand;

impl ListCommand {
    /// The client table.
    pub fn render(&self, config: &ConfigFile) -> (r: String)
        requires
            displayable(config@),
        ensures
            exists|listing: Seq<(Seq<char>, AuthConfigView)>|
                lists_registry(listing, config@) && r@ == #[trigger] table_text(table_rows(listing)),
    {
        list_clients(config)
    }
}

/// Retrieves a token for a registered client.
pub struct GetCommand {
    pub nickname: String,
    /// Print the refresh token spent on a refresh grant in place of the
    /// access token.
    pub refresh_token: bool,
    pub format: Option<Format>,
    pub scopes: Vec<String>,
}

impl GetCommand {
    /// Begins the acquisition for `client` with this command's flag and scopes.
    pub fn begin(&self, client: &AuthConfig) -> (r: (Acquisition, Action))
        ensures
            (r.0@, r.1@) == start_of(client@, self.refresh_token, strings_view(self.scopes@)),
    {
        Acquisition::start(client, self.refresh_token, copy_strings(&self.scopes))
    }

    /// The token as this command prints it.
    pub fn render(&self, token: &String) -> (r: String)
        ensures
            r@ == rendered_token(self.format, token@),
    {
        match self.format {
            None => token.clone(),
            Some(Format::Header) => {
                let mut value = String::from_str("Bearer ");
                value.append(token.as_str());
                authorization_object(&json_string(&value))
            },
        }
    }
}

} // verus!
