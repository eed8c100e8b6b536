//! The signed-in user's repositories: loading them with the profile,
//! listing them, and cloning one with the user's access token.
use vstd::prelude::*;
use crate::auth::{displayed_repos, shown_repos, GithubProfile, GithubRepo, RepoSort};
use crate::text::lowercase;
use crate::parser::opt_text;
use crate::text::{byte_prefix, chars_of, prefix_of_bytes, push_all, push_char, string_of_range, trim_start_pat, trim_start_pat_pos};
use crate::updater::string_of_str;

verus! {

/// Where loading the profile and repositories stands.
#[derive(Debug, Clone, PartialEq)]
pub enum LoadState {
    Idle,
    Loading,
    Loaded,
    Error(String),
}

/// What the repository list remembers.
#[derive(Debug)]
pub struct UserReposState {
    pub load: LoadState,
    pub profile: Option<GithubProfile>,
    pub repos: Vec<GithubRepo>,
    pub filter: String,
    pub sort: RepoSort,
    pub show_private: bool,
    /// Clone URL of the repository being cloned.
    pub cloning_url: Option<String>,
    pub clone_error: Option<String>,
}

/// What happened on the repository list.
#[derive(Debug)]
pub enum UserReposEvent {
    /// The list was opened: load the profile and the repositories.
    Start,
    /// Both requests answered.
    Fetched { profile: Result<GithubProfile, String>, repos: Result<Vec<GithubRepo>, String> },
    FilterChanged(String),
    SortChanged(RepoSort),
    TogglePrivate,
    /// The clone button of a repository was pressed.
    CloneRepo { clone_url: String, name: String },
    CloneSucceeded,
    CloneFailed(String),
    ClonePanicked,
}

/// Outside work to start after an event of the repository list.
#[derive(Debug, PartialEq, Eq)]
pub enum UserReposAction {
    Nothing,
    /// Ask for the profile and the repositories of the user.
    Fetch,
    /// Show `loading_message` and clone `url`.
    Clone { url: String, loading_message: String },
}

/// `"https://"`
pub open spec fn https_prefix() -> Seq<char> {
    "https://"@
}

/// The URL that clones `clone_url` with the user's access token: leading
/// `"https://"`s removed, then `https://<token>@` put in front.
pub open spec fn owner_clone_url_of(token: Seq<char>, clone_url: Seq<char>) -> Seq<char> {
    https_prefix() + token + seq!['@'] + trim_start_pat(clone_url, https_prefix())
}

/// `cloning <name>...`
pub open spec fn cloning_message(name: Seq<char>) -> Seq<char> {
    "cloning "@ + name + "..."@
}

/// `Clone failed: <e>`
pub open spec fn owner_clone_failure(e: Seq<char>) -> Seq<char> {
    "Clone failed: "@ + e
}

/// The load state after both requests answered: loaded when both
/// succeeded, else the error of the profile request, else that of the
/// repository request.
pub open spec fn fetched_state(profile: Result<GithubProfile, String>, repos: Result<Vec<GithubRepo>, String>) -> LoadState {
    match (profile, repos) {
        (Ok(_), Ok(_)) => LoadState::Loaded,
        (Err(e), _) => LoadState::Error(e),
        (Ok(_), Err(e)) => LoadState::Error(e),
    }
}

/// The URL that clones `clone_url` with `token` (see `owner_clone_url_of`).
pub fn owner_clone_url(token: &str, clone_url: &str) -> (r: String)
    ensures
        r@ == owner_clone_url_of(token@, clone_url@),
{
    let prefix = chars_of("https://");
    proof {
        reveal_strlit("https://");
    }
    let mut out = String::new();
    push_all(&mut out, prefix.as_slice());
    let t = chars_of(token);
    push_all(&mut out, t.as_slice());
    push_char(&mut out, '@');
    let v = chars_of(clone_url);
    let start = trim_start_pat_pos(v.as_slice(), 0, prefix.as_slice());
    assert(v@.skip(0) =~= v@);
    let rest = string_of_range(v.as_slice(), start, v.len());
    assert(rest@ =~= v@.skip(start as int));
    let rv = chars_of(rest.as_str());
    push_all(&mut out, rv.as_slice());
    out
}

// ── The date a repository was updated ───────────────────────────────────────

/// The date shown for a repository: the first ten bytes of its update time
/// (`YYYY-MM-DD`), or a dash when there are not ten bytes at a character
/// boundary or no update time.
pub open spec fn updated_text(updated: Option<Seq<char>>) -> Seq<char> {
    match updated {
        Some(s) => match byte_prefix(s, 10) {
            Some(p) => p,
            None => "—"@,
        },
        None => "—"@,
    }
}

/// The date shown for a repository (see `updated_text`).
pub fn updated_label(updated: Option<&str>) -> (r: String)
    ensures
        r@ == updated_text(match updated {
            Some(s) => Some(s@),
            None => None,
        }),
{
    match updated {
        Some(s) => {
            let v = chars_of(s);
            assert(v@.skip(0) =~= v@);
            match prefix_of_bytes(v.as_slice(), 0, 10) {
                Some(p) => p,
                None => string_of_str("—"),
            }
        },
        None => string_of_str("—"),
    }
}

// ── Events ──────────────────────────────────────────────────────────────────

impl UserReposState {
    /// The list before anything was loaded: every repository shown, in
    /// GitHub's order.
    pub fn new() -> (s: UserReposState)
        ensures
            s.load is Idle,
            s.profile is None,
            s.repos@.len() == 0,
            s.filter@.len() == 0,
            s.sort is Updated,
            s.show_private,
            s.cloning_url is None,
            s.clone_error is None,
    {
        UserReposState {
            load: LoadState::Idle,
            profile: None,
            repos: Vec::new(),
            filter: String::new(),
            sort: RepoSort::Updated,
            show_private: true,
            cloning_url: None,
            clone_error: None,
        }
    }

    /// The repositories shown: filtered by the filter text and the private
    /// switch, then ordered (see `shown_repos`).
    pub fn displayed(&self) -> (r: Vec<GithubRepo>)
        ensures
            r@ == shown_repos(self.repos@, lowercase(self.filter@), self.show_private, self.sort),
    {
        displayed_repos(&self.repos, self.filter.as_str(), self.show_private, self.sort)
    }

    /// Applies one event, with `token` the user's access token: opening the
    /// list loads it, both answers decide the load state, a clone starts only
    /// while no other runs and uses the token, and its failure is shown.
    pub fn handle(&mut self, event: UserReposEvent, token: &str) -> (act: UserReposAction)
        ensures
            final(self).load == match event {
                UserReposEvent::Start => LoadState::Loading,
                UserReposEvent::Fetched { profile, repos } => fetched_state(profile, repos),
                _ => old(self).load,
            },
            final(self).profile == match event {
                UserReposEvent::Fetched { profile: Ok(p), repos: Ok(_) } => Some(p),
                _ => old(self).profile,
            },
            final(self).repos == match event {
                UserReposEvent::Fetched { profile: Ok(_), repos: Ok(r) } => r,
                _ => old(self).repos,
            },
            final(self).filter@ == match event {
                UserReposEvent::FilterChanged(f) => f@,
                _ => old(self).filter@,
            },
            final(self).sort == match event {
                UserReposEvent::SortChanged(s) => s,
                _ => old(self).sort,
            },
            final(self).show_private == match event {
                UserReposEvent::TogglePrivate => !old(self).show_private,
                _ => old(self).show_private,
            },
            opt_text(final(self).cloning_url) == match event {
                UserReposEvent::CloneRepo { clone_url, .. } => if old(self).cloning_url is None {
                    Some(clone_url@)
                } else {
                    opt_text(old(self).cloning_url)
                },
                UserReposEvent::CloneSucceeded => None,
                UserReposEvent::CloneFailed(_) => None,
                UserReposEvent::ClonePanicked => None,
                _ => opt_text(old(self).cloning_url),
            },
            opt_text(final(self).clone_error) == match event {
                UserReposEvent::CloneRepo { .. } => if old(self).cloning_url is None {
                    None
                } else {
                    opt_text(old(self).clone_error)
                },
                UserReposEvent::CloneFailed(e) => Some(owner_clone_failure(e@)),
                UserReposEvent::ClonePanicked => Some("Clone task panicked"@),
                _ => opt_text(old(self).clone_error),
            },
            match event {
                UserReposEvent::Start => act is Fetch,
                UserReposEvent::CloneRepo { clone_url, name } => if old(self).cloning_url is None {
                    act matches UserReposAction::Clone { url, loading_message } && url@ == owner_clone_url_of(
                        token@,
                        clone_url@,
                    ) && loading_message@ == cloning_message(name@)
                } else {
                    act is Nothing
                },
                _ => act is Nothing,
            },
    {
        match event {
            UserReposEvent::Start => {
                self.load = LoadState::Loading;
                UserReposAction::Fetch
            },
            UserReposEvent::Fetched { profile, repos } => {
                match (profile, repos) {
                    (Ok(p), Ok(r)) => {
                        self.profile = Some(p);
                        self.repos = r;
                        self.load = LoadState::Loaded;
                    },
                    (Err(e), _) => {
                        self.load = LoadState::Error(e);
                    },
                    (Ok(_), Err(e)) => {
                        self.load = LoadState::Error(e);
                    },
                }
                UserReposAction::Nothing
            },
            UserReposEvent::FilterChanged(f) => {
                self.filter = f;
                UserReposAction::Nothing
            },
            UserReposEvent::SortChanged(s) => {
                self.sort = s;
                UserReposAction::Nothing
            },
            UserReposEvent::TogglePrivate => {
                self.show_private = !self.show_private;
                UserReposAction::Nothing
            },
            UserReposEvent::CloneRepo { clone_url, name } => {
                if self.cloning_url.is_some() {
                    UserReposAction::Nothing
                } else {
                    self.clone_error = None;
                    let url = owner_clone_url(token, clone_url.as_str());
                    self.cloning_url = Some(clone_url);
                    let mut msg = string_of_str("cloning ");
                    let nv = chars_of(name.as_str());
                    push_all(&mut msg, nv.as_slice());
                    let dots = chars_of("...");
                    push_all(&mut msg, dots.as_slice());
                    UserReposAction::Clone { url, loading_message: msg }
                }
            },
            UserReposEvent::CloneSucceeded => {
                self.cloning_url = None;
                UserReposAction::Nothing
            },
            UserReposEvent::CloneFailed(e) => {
                self.cloning_url = None;
                let mut msg = string_of_str("Clone failed: ");
                let ev = chars_of(e.as_str());
                push_all(&mut msg, ev.as_slice());
                self.clone_error = Some(msg);
                UserReposAction::Nothing
            },
            UserReposEvent::ClonePanicked => {
                self.cloning_url = None;
                self.clone_error = Some(string_of_str("Clone task panicked"));
                UserReposAction::Nothing
            },
        }
    }
}

} // verus!
