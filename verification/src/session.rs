//! The launcher's session: who is logged in, the game's page and action
//! address maps, the authenticated HTTP client, and whether a game launch
//! is under way. The decisions of logging in and out and of launching the
//! game are made here; the caller performs the network calls.
use vstd::prelude::*;
use crate::table::{StringTable, map_of_pairs};
use crate::numfmt::{i32_to_string, signed_decimal_spec};
use crate::text::{owned, push_str};

verus! {

broadcast use vstd::string::group_string_axioms;

/// The account data kept for launching the game.
pub struct AuthInfo {
    pub character_count: String,
    pub user_no: i32,
    pub user_name: String,
    pub auth_key: String,
}

/// The session as the contracts speak of it.
pub ghost struct SessionView {
    pub character_count: Seq<char>,
    pub user_no: i32,
    pub user_name: Seq<char>,
    pub auth_key: Seq<char>,
    pub acts: Map<Seq<char>, Seq<char>>,
    pub pages: Map<Seq<char>, Seq<char>>,
    pub authenticated: bool,
    pub launching: bool,
}

/// The state of a fresh launcher, and of one after logging out: no
/// account, empty maps, no client, no launch under way.
pub open spec fn logged_out_view() -> SessionView {
    SessionView {
        character_count: Seq::empty(),
        user_no: 0,
        user_name: Seq::empty(),
        auth_key: Seq::empty(),
        acts: Map::empty(),
        pages: Map::empty(),
        authenticated: false,
        launching: false,
    }
}

/// The map view of a table of strings.
pub open spec fn string_map_view(m: Map<Seq<char>, String>) -> Map<Seq<char>, Seq<char>> {
    m.map_values(|v: String| v@)
}

/// The session. `C` is the type of the authenticated HTTP client.
#[verifier::reject_recursive_types(C)]
pub struct LauncherSession<C> {
    auth: AuthInfo,
    acts_map: StringTable<String>,
    pages_map: StringTable<String>,
    client: Option<C>,
    launching: bool,
}

impl<C> View for LauncherSession<C> {
    type V = SessionView;

    closed spec fn view(&self) -> SessionView {
        SessionView {
            character_count: self.auth.character_count@,
            user_no: self.auth.user_no,
            user_name: self.auth.user_name@,
            auth_key: self.auth.auth_key@,
            acts: string_map_view(self.acts_map@),
            pages: string_map_view(self.pages_map@),
            authenticated: self.client is Some,
            launching: self.launching,
        }
    }
}

/// The result of asking the server for a fresh auth key before launching.
pub enum AuthKeyOutcome {
    /// The server answered with this key.
    Fetched(String),
    /// The request failed, with this error text.
    CallFailed(String),
    /// The answer could not be parsed, with this error text.
    ParseFailed(String),
}

/// What the game is started with.
pub struct LaunchTicket {
    pub account_name: String,
    pub characters_count: String,
    pub ticket: String,
}

/// The outcome of a launch attempt's first step, with `running` telling
/// whether the game already runs: the next state and the error, if any.
pub open spec fn begin_launch_spec(s: SessionView, running: bool) -> (SessionView, Option<Seq<char>>) {
    if s.launching {
        (s, Some("Game is already launching"@))
    } else if running {
        (s, Some("Game is already running"@))
    } else if !s.authenticated {
        (s, Some("Not authenticated. Please login first."@))
    } else {
        (SessionView { launching: true, ..s }, None)
    }
}

/// The state after the fresh auth key's outcome is known.
pub open spec fn auth_key_state_spec(s: SessionView, key: Option<Seq<char>>) -> SessionView {
    match key {
        Some(k) => SessionView { auth_key: k, ..s },
        None => SessionView { launching: false, ..s },
    }
}

impl<C> LauncherSession<C> {
    /// A fresh session.
    pub fn new() -> (s: Self)
        ensures
            s@ == logged_out_view(),
    {
        let s = LauncherSession {
            auth: AuthInfo {
                character_count: String::new(),
                user_no: 0,
                user_name: String::new(),
                auth_key: String::new(),
            },
            acts_map: StringTable::new(),
            pages_map: StringTable::new(),
            client: None,
            launching: false,
        };
        assert(s@.acts =~= Map::empty());
        assert(s@.pages =~= Map::empty());
        s
    }

    /// Records the account data handed over by the front end.
    pub fn set_auth_info(&mut self, auth_key: String, user_name: String, user_no: i32, character_count: String)
        ensures
            final(self)@ == (SessionView {
                auth_key: auth_key@,
                user_name: user_name@,
                user_no,
                character_count: character_count@,
                ..old(self)@
            }),
    {
        self.auth = AuthInfo { character_count, user_no, user_name, auth_key };
    }

    /// The account data.
    pub fn auth(&self) -> (a: &AuthInfo)
        ensures
            a.character_count@ == self@.character_count,
            a.user_no == self@.user_no,
            a.user_name@ == self@.user_name,
            a.auth_key@ == self@.auth_key,
    {
        &self.auth
    }

    /// The authenticated client that the session holds, if any.
    pub closed spec fn held_client(&self) -> Option<C> {
        self.client
    }

    /// Keeps the authenticated client for later requests.
    pub fn set_client(&mut self, client: C)
        ensures
            final(self)@ == (SessionView { authenticated: true, ..old(self)@ }),
            final(self).held_client() == Some(client),
    {
        self.client = Some(client);
    }

    /// The authenticated client, if any.
    pub fn client(&self) -> (c: Option<&C>)
        ensures
            c is Some == self@.authenticated,
            match c {
                Some(x) => self.held_client() == Some(*x),
                None => self.held_client() is None,
            },
    {
        match &self.client {
            Some(c) => Some(c),
            None => None,
        }
    }

    /// The authenticated client for refreshing the account data, or the
    /// message given when there is none.
    pub fn require_client(&self) -> (r: Result<&C, String>)
        ensures
            r is Ok == self@.authenticated,
            r matches Ok(x) ==> self.held_client() == Some(*x),
            r matches Err(m) ==> m@ == "User is not authenticated (no client)"@,
    {
        match &self.client {
            Some(c) => Ok(c),
            None => Err(owned("User is not authenticated (no client)")),
        }
    }

    /// Whether the game counts as running: it runs, or a launch is under way.
    pub fn game_status(&self, running: bool) -> (b: bool)
        ensures
            b == (running || self@.launching),
    {
        running || self.launching
    }

    /// Forgets that a launch is under way.
    pub fn reset_launch_state(&mut self)
        ensures
            final(self)@ == (SessionView { launching: false, ..old(self)@ }),
    {
        self.launching = false;
    }

    /// Logs out: no launch under way, no account, empty maps, no client.
    pub fn logout(&mut self)
        ensures
            final(self)@ == logged_out_view(),
    {
        self.launching = false;
        self.auth = AuthInfo {
            character_count: String::new(),
            user_no: 0,
            user_name: String::new(),
            auth_key: String::new(),
        };
        self.pages_map.clear();
        self.acts_map.clear();
        self.client = None;
        assert(self@.acts =~= Map::empty());
        assert(self@.pages =~= Map::empty());
    }

    /// Replaces the action address map by the given pairs, inserted in
    /// order (a later pair for a key wins).
    pub fn store_acts_map(&mut self, pairs: Vec<(String, String)>)
        ensures
            final(self)@ == (SessionView { acts: string_map_view(map_of_pairs(pairs@)), ..old(self)@ }),
    {
        self.acts_map = StringTable::from_pairs(pairs);
    }

    /// Replaces the page address map by the given pairs, inserted in order.
    pub fn store_pages_map(&mut self, pairs: Vec<(String, String)>)
        ensures
            final(self)@ == (SessionView { pages: string_map_view(map_of_pairs(pairs@)), ..old(self)@ }),
    {
        self.pages_map = StringTable::from_pairs(pairs);
    }

    /// The action address map, one pair per key.
    pub fn acts_pairs(&self) -> (v: Vec<(String, String)>)
        ensures
            string_map_view(map_of_pairs(v@)) == self@.acts,
            forall|i: int, j: int| 0 <= i < j < v@.len() ==> v@[i].0@ != v@[j].0@,
    {
        self.acts_map.to_pairs()
    }

    /// The page address map, one pair per key.
    pub fn pages_pairs(&self) -> (v: Vec<(String, String)>)
        ensures
            string_map_view(map_of_pairs(v@)) == self@.pages,
            forall|i: int, j: int| 0 <= i < j < v@.len() ==> v@[i].0@ != v@[j].0@,
    {
        self.pages_map.to_pairs()
    }

    /// The first step of launching the game, with `running` telling whether
    /// the game already runs. A launch already under way, a running game,
    /// or a missing login refuses the launch and leaves the state as it
    /// was; otherwise the launch is marked under way.
    pub fn begin_launch(&mut self, running: bool) -> (r: Result<(), String>)
        ensures
            final(self)@ == begin_launch_spec(old(self)@, running).0,
            match r {
                Ok(()) => begin_launch_spec(old(self)@, running).1 is None,
                Err(e) => begin_launch_spec(old(self)@, running).1 == Some(e@),
            },
    {
        if self.launching {
            return Err(owned("Game is already launching"));
        }
        if running {
            return Err(owned("Game is already running"));
        }
        if self.client.is_none() {
            return Err(owned("Not authenticated. Please login first."));
        }
        self.launching = true;
        Ok(())
    }

    /// The second step: the server's answer to the request for a fresh
    /// auth key. A fresh key is recorded and the game is to be started with
    /// the account number, the character count and that key; a failed
    /// request or answer ends the launch with its message.
    pub fn receive_auth_key(&mut self, outcome: AuthKeyOutcome) -> (r: Result<LaunchTicket, String>)
        ensures
            match outcome {
                AuthKeyOutcome::Fetched(k) => {
                    &&& final(self)@ == auth_key_state_spec(old(self)@, Some(k@))
                    &&& r matches Ok(t) && t.account_name@ == signed_decimal_spec(old(self)@.user_no as int)
                        && t.characters_count@ == old(self)@.character_count && t.ticket@ == k@
                },
                AuthKeyOutcome::CallFailed(e) => {
                    &&& final(self)@ == auth_key_state_spec(old(self)@, None)
                    &&& r matches Err(m) && m@ == "Failed to call GetAuthKeyAction: "@ + e@
                },
                AuthKeyOutcome::ParseFailed(e) => {
                    &&& final(self)@ == auth_key_state_spec(old(self)@, None)
                    &&& r matches Err(m) && m@ == "Failed to parse GetAuthKeyAction response: "@ + e@
                },
            },
    {
        match outcome {
            AuthKeyOutcome::Fetched(key) => {
                self.auth.auth_key = key.clone();
                let account_name = i32_to_string(self.auth.user_no);
                let characters_count = self.auth.character_count.clone();
                Ok(LaunchTicket { account_name, characters_count, ticket: key })
            },
            AuthKeyOutcome::CallFailed(e) => {
                self.launching = false;
                let mut m = owned("Failed to call GetAuthKeyAction: ");
                push_str(&mut m, e.as_str());
                Err(m)
            },
            AuthKeyOutcome::ParseFailed(e) => {
                self.launching = false;
                let mut m = owned("Failed to parse GetAuthKeyAction response: ");
                push_str(&mut m, e.as_str());
                Err(m)
            },
        }
    }

    /// The game's executable is missing: the launch ends, with the message
    /// naming the path as `shown_path` writes it.
    pub fn executable_missing(&mut self, shown_path: &str) -> (m: String)
        ensures
            final(self)@ == (SessionView { launching: false, ..old(self)@ }),
            m@ == "Game executable not found at: "@ + shown_path@,
    {
        self.launching = false;
        let mut m = owned("Game executable not found at: ");
        push_str(&mut m, shown_path);
        m
    }

    /// The game has exited (or failed to start): the launch is over.
    pub fn finish_launch(&mut self)
        ensures
            final(self)@ == (SessionView { launching: false, ..old(self)@ }),
    {
        self.launching = false;
    }
}


/// At most one launch is under way: once a launch attempt succeeds, every
/// further attempt is refused with "Game is already launching" until the
/// launch ends, and such a refusal changes nothing.
pub proof fn law_launch_exclusive(s: SessionView, running: bool, running_again: bool)
    requires
        begin_launch_spec(s, running).1 is None,
    ensures
        begin_launch_spec(s, running).0.launching,
        begin_launch_spec(begin_launch_spec(s, running).0, running_again)
            == (begin_launch_spec(s, running).0, Some("Game is already launching"@)),
{
}

/// A refused launch attempt leaves the session as it was.
pub proof fn law_refused_launch_changes_nothing(s: SessionView, running: bool)
    requires
        begin_launch_spec(s, running).1 is Some,
    ensures
        begin_launch_spec(s, running).0 == s,
{
}

/// A failed auth-key request after a successful first step leaves no launch
/// under way, and the session otherwise as it was before the attempt.
pub proof fn law_failed_auth_key_ends_launch(s: SessionView, running: bool)
    requires
        begin_launch_spec(s, running).1 is None,
    ensures
        auth_key_state_spec(begin_launch_spec(s, running).0, None) == s,
{
}

} // verus!
