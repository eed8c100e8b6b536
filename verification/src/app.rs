//! What the application shows and remembers from one event to the next: the
//! current screen, the loaded repository, the selected commit, the search
//! query, the diffs loaded so far and the display settings.
use vstd::prelude::*;
use crate::parser::{change_models, copy_changes, CommitNode, DiffStats, FileChange, FileChangeModel, RepoTree};
use crate::components::tree_canvas::{BranchStyle, TreeDirection};
use crate::text::str_eq;
use crate::theme::{theme_by_name, theme_named, Theme};
use crate::updater::string_of_str;

verus! {

/// The screens of the application.
#[derive(Debug)]
pub enum Screen {
    Home,
    /// Loading a repository, with the message shown meanwhile.
    Loading(String),
    Tree,
    Settings,
    Stats,
    /// The full diff of one commit.
    Diff(Box<CommitNode>),
}

/// The diff loaded for one commit.
#[derive(Debug)]
pub struct CachedDiff {
    pub hash: String,
    pub files: Vec<FileChange>,
    pub stats: DiffStats,
}

/// What happened: a user's action or the end of some outside work.
#[derive(Debug)]
pub enum AppEvent {
    /// A repository finished loading.
    Loaded(RepoTree),
    /// Loading started, with the message to show meanwhile.
    Loading(String),
    /// Loading failed with this message.
    LoadFailed(String),
    /// The search box now holds this text.
    SearchChanged(String),
    GoHome,
    OpenSettings,
    OpenStats,
    /// Back from settings, statistics or a diff to the tree.
    BackToTree,
    /// Open the full diff of this commit.
    ViewDiff(CommitNode),
    /// This commit was clicked or reached with the arrow keys.
    Select(CommitNode),
    /// The selection was cleared (Escape).
    Deselect,
    /// The diff of commit `hash` was loaded.
    DiffLoaded { hash: String, files: Vec<FileChange>, stats: DiffStats },
    /// Loading a diff failed.
    DiffFailed,
    /// The commit-information panel was folded or unfolded.
    ToggleLeftPanel,
    /// The diff-statistics panel was folded or unfolded.
    ToggleRightPanel,
    ThemeChanged(String),
    FontSizeChanged(u32),
    ShowMergesChanged(bool),
    CrtOverlayChanged(bool),
    DirectionChanged(TreeDirection),
    BranchStyleChanged(BranchStyle),
}

/// Outside work the application has to start after an event.
#[derive(Debug, PartialEq, Eq)]
pub enum AppAction {
    Nothing,
    /// Load the diff of the commit with this hash, then report `DiffLoaded`
    /// or `DiffFailed`.
    LoadDiff(String),
}

/// The state of the application.
#[derive(Debug)]
pub struct AppState {
    pub screen: Screen,
    pub tree: Option<RepoTree>,
    pub selected: Option<CommitNode>,
    pub search_query: String,
    /// The error of the last failed load, shown on the home screen.
    pub clone_error: Option<String>,
    /// A diff is being loaded.
    pub diff_loading: bool,
    /// Diffs loaded so far; a later load of the same commit replaces the
    /// earlier one.
    pub diff_cache: Vec<CachedDiff>,
    pub left_open: bool,
    pub right_open: bool,
    pub theme_name: String,
    pub font_size: u32,
    pub show_merges: bool,
    pub crt_overlay: bool,
    pub tree_direction: TreeDirection,
    pub branch_style: BranchStyle,
}

// ── The diff cache ──────────────────────────────────────────────────────────

/// Index of the first entry of `c` for commit `h`.
pub open spec fn cache_index(c: Seq<CachedDiff>, h: Seq<char>) -> Option<int>
    decreases c.len(),
{
    if c.len() == 0 {
        None
    } else {
        match cache_index(c.drop_last(), h) {
            Some(i) => Some(i),
            None => if c.last().hash@ == h {
                Some(c.len() - 1)
            } else {
                None
            },
        }
    }
}

/// The diff that `c` holds for commit `h`, as plain values.
pub open spec fn cached_diff(c: Seq<CachedDiff>, h: Seq<char>) -> Option<(Seq<FileChangeModel>, DiffStats)> {
    match cache_index(c, h) {
        Some(i) => Some((change_models(c[i].files@), c[i].stats)),
        None => None,
    }
}

/// No commit has two entries in `c`.
pub open spec fn distinct_entries(c: Seq<CachedDiff>) -> bool {
    forall|i: int, j: int| 0 <= i < j < c.len() ==> c[i].hash@ != c[j].hash@
}

/// `cache_index` finds the first entry for `h`, and none when there is none.
proof fn lemma_cache_index(c: Seq<CachedDiff>, h: Seq<char>)
    ensures
        match cache_index(c, h) {
            Some(i) => 0 <= i < c.len() && c[i].hash@ == h && forall|j: int| 0 <= j < i ==> c[j].hash@ != h,
            None => forall|j: int| 0 <= j < c.len() ==> c[j].hash@ != h,
        },
    decreases c.len(),
{
    if c.len() > 0 {
        lemma_cache_index(c.drop_last(), h);
        assert forall|j: int| 0 <= j < c.len() - 1 implies c[j] == c.drop_last()[j] by {}
    }
}

/// The first entry for `h` is what `cache_index` finds.
proof fn lemma_cache_index_is(c: Seq<CachedDiff>, h: Seq<char>, i: int)
    requires
        0 <= i < c.len(),
        c[i].hash@ == h,
        forall|j: int| 0 <= j < i ==> c[j].hash@ != h,
    ensures
        cache_index(c, h) == Some(i),
{
    lemma_cache_index(c, h);
    if let Some(k) = cache_index(c, h) {
        if k < i {
        } else if k > i {
        }
    }
}

/// Index of the entry of `cache` for commit `h` (see `cache_index`).
fn find_cached(cache: &Vec<CachedDiff>, h: &str) -> (r: Option<usize>)
    ensures
        match r {
            Some(i) => i < cache@.len() && cache_index(cache@, h@) == Some(i as int),
            None => cache_index(cache@, h@) is None,
        },
{
    let mut i: usize = 0;
    while i < cache.len()
        invariant
            i <= cache@.len(),
            forall|j: int| 0 <= j < i ==> cache@[j].hash@ != h@,
        decreases cache@.len() - i,
    {
        if str_eq(cache[i].hash.as_str(), h) {
            proof {
                lemma_cache_index_is(cache@, h@, i as int);
            }
            return Some(i);
        }
        i += 1;
    }
    proof {
        lemma_cache_index(cache@, h@);
        if let Some(k) = cache_index(cache@, h@) {
            assert(cache@[k].hash@ == h@);
        }
    }
    None
}

/// Storing the diff of `h` at the first entry for `h` (or at the end, when
/// there is none) makes it the diff found for `h` and leaves every other
/// commit's diff as it was.
proof fn lemma_store(c: Seq<CachedDiff>, n: Seq<CachedDiff>, e: CachedDiff)
    requires
        match cache_index(c, e.hash@) {
            Some(i) => n == c.update(i, e),
            None => n == c.push(e),
        },
    ensures
        cached_diff(n, e.hash@) == Some((change_models(e.files@), e.stats)),
        forall|h: Seq<char>| h != e.hash@ ==> cached_diff(n, h) == cached_diff(c, h),
        distinct_entries(c) ==> distinct_entries(n),
{
    let h0 = e.hash@;
    lemma_cache_index(c, h0);
    match cache_index(c, h0) {
        Some(i) => {
            assert(n[i] == e);
            assert forall|j: int| 0 <= j < i implies n[j].hash@ != h0 by {
                assert(n[j] == c[j]);
            }
            lemma_cache_index_is(n, h0, i);
        },
        None => {
            assert(n[c.len() as int] == e);
            assert forall|j: int| 0 <= j < c.len() implies n[j].hash@ != h0 by {
                assert(n[j] == c[j]);
            }
            lemma_cache_index_is(n, h0, c.len() as int);
        },
    }
    assert forall|h: Seq<char>| h != h0 implies cached_diff(n, h) == cached_diff(c, h) by {
        lemma_cache_index(c, h);
        lemma_cache_index(n, h);
        match cache_index(c, h) {
            Some(k) => {
                assert(n[k] == c[k]);
                assert forall|j: int| 0 <= j < k implies n[j].hash@ != h by {
                    if n[j] != c[j] {
                        assert(n[j] == e);
                    }
                }
                lemma_cache_index_is(n, h, k);
            },
            None => {
                if let Some(k) = cache_index(n, h) {
                    if k < c.len() && n[k] == c[k] {
                        assert(c[k].hash@ == h);
                    } else {
                        assert(n[k] == e);
                    }
                }
            },
        }
    }
    if distinct_entries(c) {
        assert forall|i: int, j: int| 0 <= i < j < n.len() implies n[i].hash@ != n[j].hash@ by {
            if j == c.len() {
                assert(n[i] == c[i]);
            } else if n[i] == e && i < c.len() && n[i] != c[i] {
                assert(n[j] == c[j]);
            } else if n[j] == e && n[j] != c[j] {
                assert(n[i] == c[i]);
            }
        }
    }
}

// ── The selection ───────────────────────────────────────────────────────────

/// `n` is commit `base` showing the diff `files` with statistics `stats`.
pub open spec fn with_diff(n: CommitNode, base: CommitNode, files: Seq<FileChangeModel>, stats: DiffStats) -> bool {
    &&& n.hash == base.hash
    &&& n.short_hash == base.short_hash
    &&& n.message == base.message
    &&& n.full_message == base.full_message
    &&& n.author_name == base.author_name
    &&& n.author_email == base.author_email
    &&& n.timestamp == base.timestamp
    &&& n.branch_name == base.branch_name
    &&& n.color == base.color
    &&& n.parent_hashes == base.parent_hashes
    &&& n.is_merge == base.is_merge
    &&& n.is_head == base.is_head
    &&& n.tags == base.tags
    &&& change_models(n.files_changed@) == files
    &&& n.stats == stats
}

/// The commit selected after `event` is exactly as the event leaves it
/// (`cache` is the diff cache before the event).
pub open spec fn selection_after(old_sel: Option<CommitNode>, cache: Seq<CachedDiff>, event: AppEvent, new_sel: Option<CommitNode>) -> bool {
    match event {
        AppEvent::Loaded(_) => new_sel is None,
        AppEvent::Deselect => new_sel is None,
        AppEvent::Select(c) => match cached_diff(cache, c.hash@) {
            Some((files, stats)) => new_sel matches Some(n) && with_diff(n, c, files, stats),
            None => new_sel == Some(c),
        },
        AppEvent::DiffLoaded { hash, files, stats } => match old_sel {
            Some(s) => if s.hash@ == hash@ {
                new_sel matches Some(n) && with_diff(n, s, change_models(files@), stats)
            } else {
                new_sel == old_sel
            },
            None => new_sel is None,
        },
        _ => new_sel == old_sel,
    }
}

// ── Handling events ─────────────────────────────────────────────────────────

impl AppState {
    /// The state at start: the home screen, nothing loaded or selected.
    pub fn new() -> (s: AppState)
        ensures
            s.screen is Home,
            s.tree is None,
            s.selected is None,
            s.search_query@.len() == 0,
            s.clone_error is None,
            !s.diff_loading,
            s.diff_cache@.len() == 0,
            s.left_open && s.right_open,
            s.theme_name@ == "Terminal"@,
            s.font_size == 13,
            s.show_merges,
            !s.crt_overlay,
            s.tree_direction is Horizontal,
            s.branch_style is Curved,
    {
        AppState {
            screen: Screen::Home,
            tree: None,
            selected: None,
            search_query: String::new(),
            clone_error: None,
            diff_loading: false,
            diff_cache: Vec::new(),
            left_open: true,
            right_open: true,
            theme_name: string_of_str("Terminal"),
            font_size: 13,
            show_merges: true,
            crt_overlay: false,
            tree_direction: TreeDirection::Horizontal,
            branch_style: BranchStyle::Curved,
        }
    }

    /// The theme in use: the one named in the settings, or the default.
    pub fn theme(&self) -> (t: Theme)
        ensures
            t == theme_named(self.theme_name@),
    {
        theme_by_name(self.theme_name.as_str())
    }

    /// Applies one event: a loaded repository opens the tree with nothing
    /// selected and an empty search; a load in progress shows its message; a
    /// failed load goes home with the error; the navigation events change
    /// the screen; selecting a commit shows its diff at once when it was
    /// loaded before and otherwise asks for it; a loaded diff is stored and
    /// shown when its commit is still selected.
    #[verifier::spinoff_prover]
    #[verifier::rlimit(60)]
    pub fn handle(&mut self, event: AppEvent) -> (act: AppAction)
        ensures
            final(self).screen == match event {
                AppEvent::Loaded(_) => Screen::Tree,
                AppEvent::Loading(msg) => Screen::Loading(msg),
                AppEvent::LoadFailed(_) => Screen::Home,
                AppEvent::GoHome => Screen::Home,
                AppEvent::OpenSettings => Screen::Settings,
                AppEvent::OpenStats => Screen::Stats,
                AppEvent::BackToTree => Screen::Tree,
                AppEvent::ViewDiff(c) => Screen::Diff(Box::new(c)),
                _ => old(self).screen,
            },
            final(self).tree == match event {
                AppEvent::Loaded(t) => Some(t),
                _ => old(self).tree,
            },
            final(self).search_query@ == match event {
                AppEvent::Loaded(_) => Seq::<char>::empty(),
                AppEvent::GoHome => Seq::<char>::empty(),
                AppEvent::SearchChanged(q) => q@,
                _ => old(self).search_query@,
            },
            final(self).clone_error == match event {
                AppEvent::Loaded(_) => None,
                AppEvent::Loading(_) => None,
                AppEvent::LoadFailed(e) => Some(e),
                _ => old(self).clone_error,
            },
            selection_after(old(self).selected, old(self).diff_cache@, event, final(self).selected),
            final(self).diff_loading == match event {
                AppEvent::Select(c) => if cached_diff(old(self).diff_cache@, c.hash@) is Some {
                    old(self).diff_loading
                } else {
                    true
                },
                AppEvent::DiffLoaded { .. } => false,
                AppEvent::DiffFailed => false,
                _ => old(self).diff_loading,
            },
            match event {
                AppEvent::DiffLoaded { hash, files, stats } => {
                    &&& cached_diff(final(self).diff_cache@, hash@) == Some((change_models(files@), stats))
                    &&& forall|h: Seq<char>| h != hash@ ==> cached_diff(final(self).diff_cache@, h) == cached_diff(old(self).diff_cache@, h)
                    &&& distinct_entries(old(self).diff_cache@) ==> distinct_entries(final(self).diff_cache@)
                },
                _ => final(self).diff_cache == old(self).diff_cache,
            },
            final(self).left_open == match event {
                AppEvent::ToggleLeftPanel => !old(self).left_open,
                _ => old(self).left_open,
            },
            final(self).right_open == match event {
                AppEvent::ToggleRightPanel => !old(self).right_open,
                _ => old(self).right_open,
            },
            final(self).theme_name@ == match event {
                AppEvent::ThemeChanged(n) => n@,
                _ => old(self).theme_name@,
            },
            final(self).font_size == match event {
                AppEvent::FontSizeChanged(f) => f,
                _ => old(self).font_size,
            },
            final(self).show_merges == match event {
                AppEvent::ShowMergesChanged(b) => b,
                _ => old(self).show_merges,
            },
            final(self).crt_overlay == match event {
                AppEvent::CrtOverlayChanged(b) => b,
                _ => old(self).crt_overlay,
            },
            final(self).tree_direction == match event {
                AppEvent::DirectionChanged(d) => d,
                _ => old(self).tree_direction,
            },
            final(self).branch_style == match event {
                AppEvent::BranchStyleChanged(b) => b,
                _ => old(self).branch_style,
            },
            act == match event {
                AppEvent::Select(c) => if cached_diff(old(self).diff_cache@, c.hash@) is Some {
                    AppAction::Nothing
                } else {
                    AppAction::LoadDiff(c.hash)
                },
                _ => AppAction::Nothing,
            },
    {
        match event {
            AppEvent::Loaded(tree) => {
                self.clone_error = None;
                self.tree = Some(tree);
                self.selected = None;
                self.search_query = String::new();
                self.screen = Screen::Tree;
                AppAction::Nothing
            },
            AppEvent::Loading(msg) => {
                self.clone_error = None;
                self.screen = Screen::Loading(msg);
                AppAction::Nothing
            },
            AppEvent::LoadFailed(err) => {
                self.clone_error = Some(err);
                self.screen = Screen::Home;
                AppAction::Nothing
            },
            AppEvent::SearchChanged(q) => {
                self.search_query = q;
                AppAction::Nothing
            },
            AppEvent::GoHome => {
                self.search_query = String::new();
                self.screen = Screen::Home;
                AppAction::Nothing
            },
            AppEvent::OpenSettings => {
                self.screen = Screen::Settings;
                AppAction::Nothing
            },
            AppEvent::OpenStats => {
                self.screen = Screen::Stats;
                AppAction::Nothing
            },
            AppEvent::BackToTree => {
                self.screen = Screen::Tree;
                AppAction::Nothing
            },
            AppEvent::ViewDiff(c) => {
                self.screen = Screen::Diff(Box::new(c));
                AppAction::Nothing
            },
            AppEvent::Deselect => {
                self.selected = None;
                AppAction::Nothing
            },
            AppEvent::Select(c) => {
                match find_cached(&self.diff_cache, c.hash.as_str()) {
                    Some(i) => {
                        let files = copy_changes(&self.diff_cache[i].files);
                        let stats = self.diff_cache[i].stats;
                        let mut n = c;
                        n.files_changed = files;
                        n.stats = stats;
                        self.selected = Some(n);
                        AppAction::Nothing
                    },
                    None => {
                        let h = c.hash.clone();
                        self.selected = Some(c);
                        self.diff_loading = true;
                        AppAction::LoadDiff(h)
                    },
                }
            },
            AppEvent::DiffLoaded { hash, files, stats } => {
                let still_selected = match &self.selected {
                    Some(s) => str_eq(s.hash.as_str(), hash.as_str()),
                    None => false,
                };
                if still_selected {
                    let shown = copy_changes(&files);
                    let sel = self.selected.take();
                    if let Some(mut s) = sel {
                        s.files_changed = shown;
                        s.stats = stats;
                        self.selected = Some(s);
                    }
                }
                let ghost before = self.diff_cache@;
                let slot = find_cached(&self.diff_cache, hash.as_str());
                let entry = CachedDiff { hash, files, stats };
                let ghost stored = entry;
                match slot {
                    Some(i) => {
                        self.diff_cache.set(i, entry);
                    },
                    None => {
                        self.diff_cache.push(entry);
                    },
                }
                proof {
                    lemma_store(before, self.diff_cache@, stored);
                }
                self.diff_loading = false;
                AppAction::Nothing
            },
            AppEvent::DiffFailed => {
                self.diff_loading = false;
                AppAction::Nothing
            },
            AppEvent::ToggleLeftPanel => {
                self.left_open = !self.left_open;
                AppAction::Nothing
            },
            AppEvent::ToggleRightPanel => {
                self.right_open = !self.right_open;
                AppAction::Nothing
            },
            AppEvent::ThemeChanged(n) => {
                self.theme_name = n;
                AppAction::Nothing
            },
            AppEvent::FontSizeChanged(f) => {
                self.font_size = f;
                AppAction::Nothing
            },
            AppEvent::ShowMergesChanged(b) => {
                self.show_merges = b;
                AppAction::Nothing
            },
            AppEvent::CrtOverlayChanged(b) => {
                self.crt_overlay = b;
                AppAction::Nothing
            },
            AppEvent::DirectionChanged(d) => {
                self.tree_direction = d;
                AppAction::Nothing
            },
            AppEvent::BranchStyleChanged(b) => {
                self.branch_style = b;
                AppAction::Nothing
            },
        }
    }
}

// ── Laws ────────────────────────────────────────────────────────────────────

/// A diff read back from the cache is the one stored last for that commit,
/// and storing it changes no other commit's diff.
pub proof fn lemma_cache_read_after_store(c: Seq<CachedDiff>, n: Seq<CachedDiff>, e: CachedDiff, h: Seq<char>)
    requires
        match cache_index(c, e.hash@) {
            Some(i) => n == c.update(i, e),
            None => n == c.push(e),
        },
    ensures
        cached_diff(n, h) == if h == e.hash@ {
            Some((change_models(e.files@), e.stats))
        } else {
            cached_diff(c, h)
        },
{
    lemma_store(c, n, e);
}

} // verus!
