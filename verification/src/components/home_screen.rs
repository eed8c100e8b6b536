//! The home screen: opening a local repository, cloning a remote one,
//! searching GitHub and signing in with the device flow.
use vstd::prelude::*;
use crate::auth::{AuthToken, DeviceFlowStart};
use crate::parser::opt_text;
use crate::search::SearchResult;
use crate::text::{chars_of, is_blank, push_all, range_is_blank};
use crate::updater::string_of_str;
use crate::url::{inject_token_into_url, url_with_token};

verus! {

/// The tabs of the home screen.
#[derive(Debug, Clone, Copy, PartialEq, Eq)]
pub enum Tab {
    Local,
    Remote,
    Search,
    /// The signed-in user's repositories; offered only while signed in.
    MyRepos,
}

/// Where the device-flow sign-in stands.
#[derive(Debug, Clone, PartialEq)]
pub enum OAuthState {
    Idle,
    RequestingCode,
    /// The user has to enter `user_code` at `verification_uri`.
    WaitingForUser { user_code: String, verification_uri: String, device_code: String, interval: u64 },
    Error(String),
}

/// What the home screen remembers.
#[derive(Debug)]
pub struct HomeState {
    pub tab: Tab,
    /// Error shown under the local and remote tabs.
    pub local_error: Option<String>,
    pub search_results: Vec<SearchResult>,
    pub is_searching: bool,
    pub search_error: Option<String>,
    pub is_cloning: bool,
    /// The URL being cloned.
    pub cloning_url: Option<String>,
    pub token: Option<AuthToken>,
    pub oauth: OAuthState,
}

/// What happened on the home screen.
#[derive(Debug)]
pub enum HomeEvent {
    SelectTab(Tab),
    /// The load button was pressed with this path.
    SubmitPath(String),
    /// A recently opened repository was clicked.
    OpenRecent(String),
    /// Opening a local repository failed with this message.
    LocalFailed(String),
    /// The clone button of the remote tab was pressed with this URL.
    SubmitRemote(String),
    /// The clone button of a search result was pressed.
    CloneRequested { url: String, name: String },
    CloneSucceeded,
    /// Cloning `name` failed with `error`.
    CloneFailed { name: String, error: String },
    /// The clone task stopped without an answer.
    ClonePanicked,
    /// A search was asked for with this text.
    SubmitSearch(String),
    SearchDone(Vec<SearchResult>),
    SearchFailed(String),
    /// The sign-in button was pressed.
    SignIn,
    CodeReceived(DeviceFlowStart),
    CodeFailed(String),
    SignedIn(AuthToken),
    PollFailed(String),
    /// The sign-in was cancelled or its error dismissed.
    ResetSignIn,
    SignOut,
}

/// Outside work to start after a home-screen event.
#[derive(Debug, PartialEq, Eq)]
pub enum HomeAction {
    Nothing,
    /// Show the loading screen, open the repository at `path`, and once it
    /// is open record it among the recently opened ones.
    LoadLocal { path: String },
    /// Clone `url` (which may carry the access token); `name` is what an
    /// error message calls it.
    Clone { url: String, name: String },
    Search { query: String, limit: u8 },
    RequestCode,
    /// Open `verification_uri` in the browser and poll for the token.
    AwaitUser { verification_uri: String, device_code: String, interval: u64 },
    /// Delete the stored access token.
    ClearToken,
}

/// Results asked for per search.
pub const SEARCH_LIMIT: u8 = 15;

// ── Messages ────────────────────────────────────────────────────────────────

pub open spec fn enter_path_msg() -> Seq<char> {
    "Please enter a path."@
}

pub open spec fn enter_url_msg() -> Seq<char> {
    "Please enter a URL."@
}

pub open spec fn clone_panicked_msg() -> Seq<char> {
    "Clone task panicked"@
}

/// `Error: <e>`
pub open spec fn local_failure_msg(e: Seq<char>) -> Seq<char> {
    "Error: "@ + e
}

/// `Clone failed for <name>: <e>`
pub open spec fn clone_failure_msg(name: Seq<char>, e: Seq<char>) -> Seq<char> {
    "Clone failed for "@ + name + ": "@ + e
}

// ── Specification of the transitions ────────────────────────────────────────

/// A clone starts: the remote tab's button with a URL, or a search result's
/// button, while nothing is being cloned.
pub open spec fn clone_starts(s: HomeState, e: HomeEvent) -> bool {
    match e {
        HomeEvent::SubmitRemote(u) => !s.is_cloning && u@.len() > 0,
        HomeEvent::CloneRequested { .. } => !s.is_cloning,
        _ => false,
    }
}

/// The URL and name of the clone that `e` starts.
pub open spec fn clone_request(e: HomeEvent) -> (Seq<char>, Seq<char>) {
    match e {
        HomeEvent::SubmitRemote(u) => (u@, u@),
        HomeEvent::CloneRequested { url, name } => (url@, name@),
        _ => (Seq::empty(), Seq::empty()),
    }
}

/// A search starts: a text that is not blank, while neither a search nor a
/// clone is running.
pub open spec fn search_starts(s: HomeState, e: HomeEvent) -> bool {
    match e {
        HomeEvent::SubmitSearch(q) => !s.is_searching && !s.is_cloning && !is_blank(q@),
        _ => false,
    }
}

/// A clone ended, one way or the other.
pub open spec fn clone_ends(e: HomeEvent) -> bool {
    e is CloneSucceeded || e is CloneFailed || e is ClonePanicked
}

/// The URL handed to the clone: with the access token when signed in.
pub open spec fn clone_url_for(s: HomeState, url: Seq<char>) -> Seq<char> {
    match s.token {
        Some(t) => url_with_token(url, t.access_token@),
        None => url,
    }
}

/// The tab shown after `e`.
pub open spec fn tab_after(s: HomeState, e: HomeEvent) -> Tab {
    match e {
        HomeEvent::SelectTab(t) => if t is MyRepos && s.token is None {
            s.tab
        } else {
            t
        },
        HomeEvent::SignOut => if s.tab is MyRepos {
            Tab::Search
        } else {
            s.tab
        },
        _ => s.tab,
    }
}

/// The local error shown after `e`.
pub open spec fn local_error_after(s: HomeState, e: HomeEvent) -> Option<Seq<char>> {
    match e {
        HomeEvent::SubmitPath(p) => if p@.len() == 0 {
            Some(enter_path_msg())
        } else {
            None
        },
        HomeEvent::OpenRecent(p) => if p@.len() == 0 {
            Some(enter_path_msg())
        } else {
            opt_text(s.local_error)
        },
        HomeEvent::LocalFailed(m) => Some(local_failure_msg(m@)),
        HomeEvent::SubmitRemote(u) => if s.is_cloning {
            opt_text(s.local_error)
        } else if u@.len() == 0 {
            Some(enter_url_msg())
        } else {
            None
        },
        HomeEvent::CloneRequested { .. } => if s.is_cloning {
            opt_text(s.local_error)
        } else {
            None
        },
        HomeEvent::CloneFailed { name, error } => if s.tab is Search {
            opt_text(s.local_error)
        } else {
            Some(clone_failure_msg(name@, error@))
        },
        _ => opt_text(s.local_error),
    }
}

/// The search error shown after `e`.
pub open spec fn search_error_after(s: HomeState, e: HomeEvent) -> Option<Seq<char>> {
    if clone_starts(s, e) || search_starts(s, e) {
        None
    } else {
        match e {
            HomeEvent::CloneFailed { name, error } => if s.tab is Search {
                Some(clone_failure_msg(name@, error@))
            } else {
                opt_text(s.search_error)
            },
            HomeEvent::ClonePanicked => Some(clone_panicked_msg()),
            HomeEvent::SearchFailed(m) => Some(m@),
            _ => opt_text(s.search_error),
        }
    }
}

/// The sign-in state after `e`.
pub open spec fn oauth_after(s: HomeState, e: HomeEvent) -> OAuthState {
    match e {
        HomeEvent::SignIn => if s.token is None && s.oauth is Idle {
            OAuthState::RequestingCode
        } else {
            s.oauth
        },
        HomeEvent::CodeReceived(st) => OAuthState::WaitingForUser {
            user_code: st.user_code,
            verification_uri: st.verification_uri,
            device_code: st.device_code,
            interval: st.interval,
        },
        HomeEvent::CodeFailed(m) => OAuthState::Error(m),
        HomeEvent::PollFailed(m) => OAuthState::Error(m),
        HomeEvent::SignedIn(_) => OAuthState::Idle,
        HomeEvent::ResetSignIn => OAuthState::Idle,
        HomeEvent::SignOut => OAuthState::Idle,
        _ => s.oauth,
    }
}

/// `a` is the work that event `e` starts in state `s`.
pub open spec fn action_for(s: HomeState, e: HomeEvent, a: HomeAction) -> bool {
    if clone_starts(s, e) {
        a matches HomeAction::Clone { url, name } && url@ == clone_url_for(s, clone_request(e).0)
            && name@ == clone_request(e).1
    } else if search_starts(s, e) {
        match e {
            HomeEvent::SubmitSearch(q) => a matches HomeAction::Search { query, limit } && query@ == q@ && limit
                == SEARCH_LIMIT,
            _ => false,
        }
    } else {
        match e {
            HomeEvent::SubmitPath(p) => if p@.len() == 0 {
                a is Nothing
            } else {
                a matches HomeAction::LoadLocal { path } && path@ == p@
            },
            HomeEvent::OpenRecent(p) => if p@.len() == 0 {
                a is Nothing
            } else {
                a matches HomeAction::LoadLocal { path } && path@ == p@
            },
            HomeEvent::SignIn => if s.token is None && s.oauth is Idle {
                a is RequestCode
            } else {
                a is Nothing
            },
            HomeEvent::CodeReceived(st) => a matches HomeAction::AwaitUser { verification_uri, device_code, interval }
                && verification_uri@ == st.verification_uri@ && device_code@ == st.device_code@
                && interval == st.interval,
            HomeEvent::SignOut => a is ClearToken,
            _ => a is Nothing,
        }
    }
}

/// The "my repositories" tab is shown only while signed in, and a clone is
/// running exactly when its URL is known.
pub open spec fn home_consistent(s: HomeState) -> bool {
    &&& s.tab is MyRepos ==> s.token is Some
    &&& s.is_cloning <==> s.cloning_url is Some
}

// ── Executable transitions ──────────────────────────────────────────────────

/// `prefix` followed by `rest`.
fn joined(prefix: &str, rest: &str) -> (r: String)
    ensures
        r@ == prefix@ + rest@,
{
    let mut r = string_of_str(prefix);
    let v = chars_of(rest);
    push_all(&mut r, v.as_slice());
    r
}

/// Whether `s` is empty or holds only whitespace.
fn blank(s: &str) -> (b: bool)
    ensures
        b == is_blank(s@),
{
    let v = chars_of(s);
    let b = range_is_blank(v.as_slice(), 0, v.len());
    assert(v@.subrange(0, v@.len() as int) =~= v@);
    b
}

impl HomeState {
    /// The home screen as first shown, signed in when `token` is stored.
    pub fn new(token: Option<AuthToken>) -> (s: HomeState)
        ensures
            s.tab is Local,
            s.local_error is None,
            s.search_results@.len() == 0,
            !s.is_searching,
            s.search_error is None,
            !s.is_cloning,
            s.cloning_url is None,
            s.token == token,
            s.oauth is Idle,
            home_consistent(s),
    {
        HomeState {
            tab: Tab::Local,
            local_error: None,
            search_results: Vec::new(),
            is_searching: false,
            search_error: None,
            is_cloning: false,
            cloning_url: None,
            token,
            oauth: OAuthState::Idle,
        }
    }

    /// The error shown under the local and remote tabs: this screen's own,
    /// else the one it was opened with.
    pub fn displayed_error(&self, initial: Option<String>) -> (r: Option<String>)
        ensures
            r == match self.local_error {
                Some(e) => Some(e),
                None => initial,
            },
    {
        match &self.local_error {
            Some(e) => Some(e.clone()),
            None => initial,
        }
    }

    /// Applies one event and says what outside work to start: empty paths
    /// and URLs are refused with a message, a clone or search starts only
    /// while the buttons for it are enabled, a clone failure is reported on
    /// the tab it started from, and signing out leaves the "my repositories"
    /// tab.
    pub fn handle(&mut self, event: HomeEvent) -> (act: HomeAction)
        ensures
            final(self).tab == tab_after(*old(self), event),
            opt_text(final(self).local_error) == local_error_after(*old(self), event),
            opt_text(final(self).search_error) == search_error_after(*old(self), event),
            search_starts(*old(self), event) ==> final(self).search_results@.len() == 0,
            event matches HomeEvent::SearchDone(rs) ==> final(self).search_results == rs,
            !search_starts(*old(self), event) && !(event is SearchDone) ==> final(self).search_results
                == old(self).search_results,
            final(self).is_searching == if search_starts(*old(self), event) {
                true
            } else if event is SearchDone || event is SearchFailed {
                false
            } else {
                old(self).is_searching
            },
            final(self).is_cloning == if clone_starts(*old(self), event) {
                true
            } else if clone_ends(event) {
                false
            } else {
                old(self).is_cloning
            },
            opt_text(final(self).cloning_url) == if clone_starts(*old(self), event) {
                Some(clone_request(event).0)
            } else if clone_ends(event) {
                None
            } else {
                opt_text(old(self).cloning_url)
            },
            final(self).token == match event {
                HomeEvent::SignedIn(t) => Some(t),
                HomeEvent::SignOut => None,
                _ => old(self).token,
            },
            final(self).oauth == oauth_after(*old(self), event),
            action_for(*old(self), event, act),
            home_consistent(*old(self)) ==> home_consistent(*final(self)),
    {
        match event {
            HomeEvent::SelectTab(t) => {
                if !(matches!(t, Tab::MyRepos) && self.token.is_none()) {
                    self.tab = t;
                }
                HomeAction::Nothing
            },
            HomeEvent::SubmitPath(p) => {
                if p.as_str().is_empty() {
                    self.local_error = Some(string_of_str("Please enter a path."));
                    HomeAction::Nothing
                } else {
                    self.local_error = None;
                    HomeAction::LoadLocal { path: p }
                }
            },
            HomeEvent::OpenRecent(p) => {
                if p.as_str().is_empty() {
                    self.local_error = Some(string_of_str("Please enter a path."));
                    HomeAction::Nothing
                } else {
                    HomeAction::LoadLocal { path: p }
                }
            },
            HomeEvent::LocalFailed(m) => {
                self.local_error = Some(joined("Error: ", m.as_str()));
                HomeAction::Nothing
            },
            HomeEvent::SubmitRemote(u) => {
                if self.is_cloning {
                    HomeAction::Nothing
                } else if u.as_str().is_empty() {
                    self.local_error = Some(string_of_str("Please enter a URL."));
                    HomeAction::Nothing
                } else {
                    let name = u.clone();
                    self.start_clone(u, name)
                }
            },
            HomeEvent::CloneRequested { url, name } => {
                if self.is_cloning {
                    HomeAction::Nothing
                } else {
                    self.start_clone(url, name)
                }
            },
            HomeEvent::CloneSucceeded => {
                self.is_cloning = false;
                self.cloning_url = None;
                HomeAction::Nothing
            },
            HomeEvent::CloneFailed { name, error } => {
                self.is_cloning = false;
                self.cloning_url = None;
                let mut msg = joined("Clone failed for ", name.as_str());
                let sep = chars_of(": ");
                push_all(&mut msg, sep.as_slice());
                let ev = chars_of(error.as_str());
                push_all(&mut msg, ev.as_slice());
                if matches!(self.tab, Tab::Search) {
                    self.search_error = Some(msg);
                } else {
                    self.local_error = Some(msg);
                }
                HomeAction::Nothing
            },
            HomeEvent::ClonePanicked => {
                self.is_cloning = false;
                self.cloning_url = None;
                self.search_error = Some(string_of_str("Clone task panicked"));
                HomeAction::Nothing
            },
            HomeEvent::SubmitSearch(q) => {
                if self.is_searching || self.is_cloning || blank(q.as_str()) {
                    HomeAction::Nothing
                } else {
                    self.search_error = None;
                    self.search_results = Vec::new();
                    self.is_searching = true;
                    HomeAction::Search { query: q, limit: SEARCH_LIMIT }
                }
            },
            HomeEvent::SearchDone(rs) => {
                self.search_results = rs;
                self.is_searching = false;
                HomeAction::Nothing
            },
            HomeEvent::SearchFailed(m) => {
                self.search_error = Some(m);
                self.is_searching = false;
                HomeAction::Nothing
            },
            HomeEvent::SignIn => {
                if self.token.is_none() && matches!(self.oauth, OAuthState::Idle) {
                    self.oauth = OAuthState::RequestingCode;
                    HomeAction::RequestCode
                } else {
                    HomeAction::Nothing
                }
            },
            HomeEvent::CodeReceived(st) => {
                let uri = st.verification_uri.clone();
                let code = st.device_code.clone();
                let interval = st.interval;
                self.oauth = OAuthState::WaitingForUser {
                    user_code: st.user_code,
                    verification_uri: st.verification_uri,
                    device_code: st.device_code,
                    interval: st.interval,
                };
                HomeAction::AwaitUser { verification_uri: uri, device_code: code, interval }
            },
            HomeEvent::CodeFailed(m) => {
                self.oauth = OAuthState::Error(m);
                HomeAction::Nothing
            },
            HomeEvent::SignedIn(t) => {
                self.token = Some(t);
                self.oauth = OAuthState::Idle;
                HomeAction::Nothing
            },
            HomeEvent::PollFailed(m) => {
                self.oauth = OAuthState::Error(m);
                HomeAction::Nothing
            },
            HomeEvent::ResetSignIn => {
                self.oauth = OAuthState::Idle;
                HomeAction::Nothing
            },
            HomeEvent::SignOut => {
                self.token = None;
                self.oauth = OAuthState::Idle;
                if matches!(self.tab, Tab::MyRepos) {
                    self.tab = Tab::Search;
                }
                HomeAction::ClearToken
            },
        }
    }

    /// Starts cloning `url`, called `name` in messages.
    fn start_clone(&mut self, url: String, name: String) -> (act: HomeAction)
        ensures
            final(self).tab == old(self).tab,
            final(self).local_error is None,
            final(self).search_error is None,
            final(self).search_results == old(self).search_results,
            final(self).is_searching == old(self).is_searching,
            final(self).is_cloning,
            opt_text(final(self).cloning_url) == Some(url@),
            final(self).token == old(self).token,
            final(self).oauth == old(self).oauth,
            act matches HomeAction::Clone { url: u, name: n } && u@ == clone_url_for(*old(self), url@)
                && n@ == name@,
    {
        self.local_error = None;
        self.search_error = None;
        let target = match &self.token {
            Some(t) => inject_token_into_url(url.as_str(), t.access_token.as_str()),
            None => url.clone(),
        };
        self.cloning_url = Some(url);
        self.is_cloning = true;
        HomeAction::Clone { url: target, name }
    }
}

} // verus!
