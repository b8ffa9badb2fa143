//! Opening a session for a checkout: the decisions taken between discovery, the pickers, Git's
//! answers and tmux.
use vstd::prelude::*;

use crate::config::{clone_presets, preset_views, Config, Preset, PresetView};
use crate::git::{
    changed_checkout_text, checkout_views, repository_columns, row_texts, repository_views, still_same_checkout, validate_checkout,
    BareRepository, BareView, Checkout, CheckoutView, GitError, Probe, ProbeView, Repository,
    RepositoryView,
};
use crate::layout::{
    chosen_layout, layout_choice_views, layout_error_text, preset_choices, select_preset,
    LayoutError,
};
use crate::naming::{session_name, session_name_for};
use crate::picker::{
    aligned_choices, choice_views, pick_index, picker_choices, rows_texts, IndexError,
};
use crate::seqs::{first_where, lemma_first_where_is};
use crate::switching::{session_for_worktree, worktree_test};
use crate::text::{
    chars_of, int_error_text, opt_str_text, opt_text, parse_unsigned, push_str, string_of, texts,
    IntError,
};
use crate::tmux::{session_views, Session, SessionView};

verus! {

/// Where opening a session has come to.
#[derive(Clone, Copy, Debug, PartialEq, Eq, Structural)]
pub enum OpenPhase {
    /// Waiting for the repositories that discovery found.
    Discovering,
    /// Waiting for the repository picker.
    PickingRepository,
    /// Waiting for the worktrees of the selected bare repository.
    ListingWorktrees,
    /// Waiting for the worktree picker.
    PickingWorktree,
    /// Waiting for what an explicitly given path is.
    Inspecting,
    /// Waiting for a fresh probe of the selected checkout.
    Validating,
    /// Waiting for the running sessions.
    ListingSessions,
    /// Waiting for the layout picker.
    PickingLayout,
    /// Waiting for a second fresh probe, after the layout was chosen.
    Revalidating,
    /// Waiting for the new session's id.
    Creating,
    /// Waiting for the client to show the session.
    Navigating,
    /// Nothing more to do.
    Over,
}

/// Why a session could not be opened.
#[derive(Debug)]
pub enum OpenError {
    /// No search roots are configured (in the configuration file named).
    NoRoots(String),
    /// Discovery found nothing (the configuration file named holds the roots).
    NoRepositories(String),
    /// The explicitly given path is not a checkout.
    NotACheckout(String),
    /// The picker answered an id that is not a number.
    BadId(IntError),
    UnknownRepository,
    UnknownWorktree,
    Changed(GitError),
    Layout(LayoutError),
    /// No preset has the name given.
    UnknownPreset(String),
}

/// A failure to open a session as the contracts see it.
pub enum OpenErrorView {
    NoRoots(Seq<char>),
    NoRepositories(Seq<char>),
    NotACheckout(Seq<char>),
    BadId(IntError),
    UnknownRepository,
    UnknownWorktree,
    Changed(Seq<char>),
    Layout(LayoutError),
    UnknownPreset(Seq<char>),
}

impl View for OpenError {
    type V = OpenErrorView;

    open spec fn view(&self) -> OpenErrorView {
        match self {
            OpenError::NoRoots(p) => OpenErrorView::NoRoots(p@),
            OpenError::NoRepositories(p) => OpenErrorView::NoRepositories(p@),
            OpenError::NotACheckout(p) => OpenErrorView::NotACheckout(p@),
            OpenError::BadId(e) => OpenErrorView::BadId(*e),
            OpenError::UnknownRepository => OpenErrorView::UnknownRepository,
            OpenError::UnknownWorktree => OpenErrorView::UnknownWorktree,
            OpenError::Changed(GitError::ChangedCheckout(w)) => OpenErrorView::Changed(w@),
            OpenError::Layout(e) => OpenErrorView::Layout(*e),
            OpenError::UnknownPreset(n) => OpenErrorView::UnknownPreset(n@),
        }
    }
}

/// The message of a failure to open a session.
pub open spec fn open_error_text(e: OpenErrorView) -> Seq<char> {
    match e {
        OpenErrorView::NoRoots(p) => "no search roots configured in "@ + p,
        OpenErrorView::NoRepositories(p) => "no Git repositories found; configure search roots in "@
            + p,
        OpenErrorView::NotACheckout(p) => "not a Git checkout: "@ + p,
        OpenErrorView::BadId(e) => int_error_text(e),
        OpenErrorView::UnknownRepository => "fzf selected an unknown repository"@,
        OpenErrorView::UnknownWorktree => "fzf selected an unknown worktree"@,
        OpenErrorView::Changed(w) => changed_checkout_text(w),
        OpenErrorView::Layout(e) => layout_error_text(e),
        OpenErrorView::UnknownPreset(n) => "unknown preset \""@ + n + "\""@,
    }
}

impl OpenError {
    /// The message that explains the failure.
    pub fn message(&self) -> (r: String)
        ensures
            r@ == open_error_text(self@),
    {
        match self {
            OpenError::NoRoots(p) => {
                let mut out = chars_of("no search roots configured in ");
                push_str(&mut out, p.as_str());
                string_of(out.as_slice())
            },
            OpenError::NoRepositories(p) => {
                let mut out = chars_of("no Git repositories found; configure search roots in ");
                push_str(&mut out, p.as_str());
                string_of(out.as_slice())
            },
            OpenError::NotACheckout(p) => {
                let mut out = chars_of("not a Git checkout: ");
                push_str(&mut out, p.as_str());
                string_of(out.as_slice())
            },
            OpenError::BadId(e) => e.message(),
            OpenError::UnknownRepository => String::from_str("fzf selected an unknown repository"),
            OpenError::UnknownWorktree => String::from_str("fzf selected an unknown worktree"),
            OpenError::Changed(e) => e.message(),
            OpenError::Layout(e) => e.message(),
            OpenError::UnknownPreset(n) => {
                let mut out = chars_of("unknown preset \"");
                push_str(&mut out, n.as_str());
                push_str(&mut out, "\"");
                string_of(out.as_slice())
            },
        }
    }
}

/// What the caller reports back: the answer to the last action.
pub enum OpenEvent {
    Repositories(Vec<Repository>),
    Inspected(Option<Repository>),
    Picked(Option<String>),
    Worktrees(Vec<Checkout>),
    Probed(Option<Probe>),
    Sessions(Vec<Session>),
    Created(String),
    Navigated,
}

/// An answer as the contracts see it.
pub enum OpenEventView {
    Repositories(Seq<RepositoryView>),
    Inspected(Option<RepositoryView>),
    Picked(Option<Seq<char>>),
    Worktrees(Seq<CheckoutView>),
    Probed(Option<ProbeView>),
    Sessions(Seq<SessionView>),
    Created(Seq<char>),
    Navigated,
}

impl View for OpenEvent {
    type V = OpenEventView;

    open spec fn view(&self) -> OpenEventView {
        match self {
            OpenEvent::Repositories(v) => OpenEventView::Repositories(repository_views(v@)),
            OpenEvent::Inspected(r) => OpenEventView::Inspected(
                match r {
                    Some(x) => Some(x@),
                    None => None,
                },
            ),
            OpenEvent::Picked(p) => OpenEventView::Picked(opt_text(*p)),
            OpenEvent::Worktrees(v) => OpenEventView::Worktrees(checkout_views(v@)),
            OpenEvent::Probed(p) => OpenEventView::Probed(
                match p {
                    Some(x) => Some(x@),
                    None => None,
                },
            ),
            OpenEvent::Sessions(v) => OpenEventView::Sessions(session_views(v@)),
            OpenEvent::Created(id) => OpenEventView::Created(id@),
            OpenEvent::Navigated => OpenEventView::Navigated,
        }
    }
}

/// What the caller does next.
#[derive(Debug)]
pub enum OpenAction {
    /// Discover the repositories under the configured roots.
    Discover,
    /// Tell what the given path is (`inspect` of its anchor facts).
    Inspect(String),
    /// Show a picker with this prompt and these entries.
    Pick(String, Vec<(String, String)>),
    /// List the active worktrees of a bare repository (`worktrees`).
    ListWorktrees(BareRepository),
    /// Probe a worktree afresh with Git.
    Probe(String),
    /// List the running sessions.
    ListSessions,
    /// Create a session with this name for this checkout and layout (see `Tmux::create`).
    Create(String, Checkout, Preset),
    /// Show the session with this id.
    Navigate(String),
    /// Done: with a note to print, or why it failed.
    Finished(Result<Option<String>, OpenError>),
}

/// An action as the contracts see it.
pub enum OpenActionView {
    Discover,
    Inspect(Seq<char>),
    Pick(Seq<char>, Seq<(Seq<char>, Seq<char>)>),
    ListWorktrees(BareView),
    Probe(Seq<char>),
    ListSessions,
    Create(Seq<char>, CheckoutView, PresetView),
    Navigate(Seq<char>),
    Finished(Result<Option<Seq<char>>, OpenErrorView>),
}

impl View for OpenAction {
    type V = OpenActionView;

    open spec fn view(&self) -> OpenActionView {
        match self {
            OpenAction::Discover => OpenActionView::Discover,
            OpenAction::Inspect(p) => OpenActionView::Inspect(p@),
            OpenAction::Pick(p, c) => OpenActionView::Pick(p@, choice_views(c@)),
            OpenAction::ListWorktrees(b) => OpenActionView::ListWorktrees(b@),
            OpenAction::Probe(w) => OpenActionView::Probe(w@),
            OpenAction::ListSessions => OpenActionView::ListSessions,
            OpenAction::Create(n, c, p) => OpenActionView::Create(n@, c@, p@),
            OpenAction::Navigate(id) => OpenActionView::Navigate(id@),
            OpenAction::Finished(Ok(note)) => OpenActionView::Finished(Ok(opt_text(*note))),
            OpenAction::Finished(Err(e)) => OpenActionView::Finished(Err(e@)),
        }
    }
}

/// The state of opening a session.
pub struct OpenView {
    pub nerd_fonts: bool,
    pub presets: Seq<PresetView>,
    /// Home directories that picker paths are shortened by.
    pub homes: Seq<Seq<char>>,
    /// The configuration file, named in errors.
    pub config_path: Seq<char>,
    /// The preset named on the command line, if any.
    pub preset_name: Option<Seq<char>>,
    /// The path given on the command line, if any (else empty).
    pub path: Seq<char>,
    pub phase: OpenPhase,
    pub repos: Seq<RepositoryView>,
    pub bare: Option<BareView>,
    pub checkouts: Seq<CheckoutView>,
    pub checkout: Option<CheckoutView>,
    pub sessions: Seq<SessionView>,
    pub layout: Option<PresetView>,
}

/// Picker rows of repositories.
pub open spec fn repository_rows(v: Seq<RepositoryView>, nerd_fonts: bool) -> Seq<Seq<Seq<char>>> {
    v.map_values(|r: RepositoryView| repository_columns(r, nerd_fonts))
}

/// Picker rows of checkouts.
pub open spec fn checkout_rows(v: Seq<CheckoutView>, nerd_fonts: bool) -> Seq<Seq<Seq<char>>> {
    v.map_values(|c: CheckoutView| repository_columns(RepositoryView::Checkout(c), nerd_fonts))
}

/// The names of sessions.
pub open spec fn session_names(v: Seq<SessionView>) -> Seq<Seq<char>> {
    v.map_values(|s: SessionView| s.name)
}

/// Whether a preset has the name `n`.
pub open spec fn preset_name_test(n: Seq<char>) -> spec_fn(PresetView) -> bool {
    |p: PresetView| p.name == n
}

/// The entry that a picked id names among `count` entries, or the error for it.
pub open spec fn pick_result(id: Seq<char>, count: int, unknown: OpenErrorView) -> Result<
    int,
    OpenErrorView,
> {
    match parse_unsigned(id, usize::MAX as nat) {
        Err(e) => Err(OpenErrorView::BadId(e)),
        Ok(n) => if n < count {
            Ok(n as int)
        } else {
            Err(unknown)
        },
    }
}

/// Ends with `result`.
pub open spec fn finish(v: OpenView, result: Result<Option<Seq<char>>, OpenErrorView>) -> (
    OpenView,
    OpenActionView,
) {
    (OpenView { phase: OpenPhase::Over, ..v }, OpenActionView::Finished(result))
}

/// Whether `e` answers what `phase` waits for.
pub open spec fn accepts(phase: OpenPhase, e: OpenEventView) -> bool {
    match phase {
        OpenPhase::Discovering => e is Repositories,
        OpenPhase::PickingRepository => e is Picked,
        OpenPhase::ListingWorktrees => e is Worktrees,
        OpenPhase::PickingWorktree => e is Picked,
        OpenPhase::Inspecting => e is Inspected,
        OpenPhase::Validating => e is Probed,
        OpenPhase::ListingSessions => e is Sessions,
        OpenPhase::PickingLayout => e is Picked,
        OpenPhase::Revalidating => e is Probed,
        OpenPhase::Creating => e is Created,
        OpenPhase::Navigating => e is Navigated,
        OpenPhase::Over => false,
    }
}

/// A selected checkout goes on only while a fresh probe shows it unchanged.
pub open spec fn checked(
    v: OpenView,
    p: Option<ProbeView>,
    next: (OpenView, OpenActionView),
) -> (OpenView, OpenActionView) {
    if p matches Some(q) && still_same_checkout(v.checkout.unwrap(), q) {
        next
    } else {
        finish(v, Err(OpenErrorView::Changed(v.checkout.unwrap().worktree)))
    }
}

/// The next state and action after event `e`. Discovery finding nothing is an error; a picker
/// cancelled ends quietly; a bare repository leads to a second picker of its worktrees (a note
/// when it has none); the checkout is probed afresh before its session is looked up; an existing
/// session of that worktree is shown as it is; else a layout is chosen (the named preset, or
/// the picker), the checkout probed again, and a session created under a free name and shown.
pub open spec fn open_next(v: OpenView, e: OpenEventView) -> (OpenView, OpenActionView) {
    match e {
        OpenEventView::Repositories(rs) => if rs.len() == 0 {
            finish(v, Err(OpenErrorView::NoRepositories(v.config_path)))
        } else {
            (
                OpenView { phase: OpenPhase::PickingRepository, repos: rs, ..v },
                OpenActionView::Pick(
                    "repository> "@,
                    picker_choices(repository_rows(rs, v.nerd_fonts), v.homes),
                ),
            )
        },
        OpenEventView::Picked(None) => finish(v, Ok(None)),
        OpenEventView::Picked(Some(id)) => if v.phase == OpenPhase::PickingRepository {
            match pick_result(id, v.repos.len() as int, OpenErrorView::UnknownRepository) {
                Err(err) => finish(v, Err(err)),
                Ok(n) => match v.repos[n] {
                    RepositoryView::Checkout(c) => (
                        OpenView { phase: OpenPhase::Validating, checkout: Some(c), ..v },
                        OpenActionView::Probe(c.worktree),
                    ),
                    RepositoryView::Bare(b) => (
                        OpenView { phase: OpenPhase::ListingWorktrees, bare: Some(b), ..v },
                        OpenActionView::ListWorktrees(b),
                    ),
                },
            }
        } else if v.phase == OpenPhase::PickingWorktree {
            match pick_result(id, v.checkouts.len() as int, OpenErrorView::UnknownWorktree) {
                Err(err) => finish(v, Err(err)),
                Ok(n) => (
                    OpenView { phase: OpenPhase::Validating, checkout: Some(v.checkouts[n]), ..v },
                    OpenActionView::Probe(v.checkouts[n].worktree),
                ),
            }
        } else {
            match chosen_layout(v.presets, Some(id)) {
                Err(le) => finish(v, Err(OpenErrorView::Layout(le))),
                Ok(None) => finish(v, Ok(None)),
                Ok(Some(p)) => (
                    OpenView { phase: OpenPhase::Revalidating, layout: Some(p), ..v },
                    OpenActionView::Probe(v.checkout.unwrap().worktree),
                ),
            }
        },
        OpenEventView::Worktrees(cs) => if cs.len() == 0 {
            finish(v, Ok(Some("no active worktrees in "@ + v.bare.unwrap().path)))
        } else {
            (
                OpenView { phase: OpenPhase::PickingWorktree, checkouts: cs, ..v },
                OpenActionView::Pick(
                    "worktree> "@,
                    picker_choices(checkout_rows(cs, v.nerd_fonts), v.homes),
                ),
            )
        },
        OpenEventView::Inspected(r) => match r {
            Some(RepositoryView::Checkout(c)) => (
                OpenView { phase: OpenPhase::Validating, checkout: Some(c), ..v },
                OpenActionView::Probe(c.worktree),
            ),
            _ => finish(v, Err(OpenErrorView::NotACheckout(v.path))),
        },
        OpenEventView::Probed(p) => if v.phase == OpenPhase::Validating {
            checked(v, p, (OpenView { phase: OpenPhase::ListingSessions, ..v }, OpenActionView::ListSessions))
        } else {
            checked(
                v,
                p,
                (
                    OpenView { phase: OpenPhase::Creating, ..v },
                    OpenActionView::Create(
                        session_name_for(v.checkout.unwrap(), session_names(v.sessions)),
                        v.checkout.unwrap(),
                        v.layout.unwrap(),
                    ),
                ),
            )
        },
        OpenEventView::Sessions(ss) => {
            let c = v.checkout.unwrap();
            match first_where(ss, worktree_test(c.worktree)) {
                Some(i) => (
                    OpenView { phase: OpenPhase::Navigating, ..v },
                    OpenActionView::Navigate(ss[i].id),
                ),
                None => match v.preset_name {
                    Some(name) => match first_where(v.presets, preset_name_test(name)) {
                        None => finish(v, Err(OpenErrorView::UnknownPreset(name))),
                        Some(i) => (
                            OpenView {
                                phase: OpenPhase::Revalidating,
                                sessions: ss,
                                layout: Some(v.presets[i]),
                                ..v
                            },
                            OpenActionView::Probe(c.worktree),
                        ),
                    },
                    None => (
                        OpenView { phase: OpenPhase::PickingLayout, sessions: ss, ..v },
                        OpenActionView::Pick("layout> "@, layout_choice_views(v.presets)),
                    ),
                },
            }
        },
        OpenEventView::Created(id) => (
            OpenView { phase: OpenPhase::Navigating, ..v },
            OpenActionView::Navigate(id),
        ),
        OpenEventView::Navigated => finish(v, Ok(None)),
    }
}


/// Opening a session (see `open_next`).
pub struct Opening {
    nerd_fonts: bool,
    presets: Vec<Preset>,
    homes: Vec<String>,
    config_path: String,
    preset_name: Option<String>,
    path: String,
    phase: OpenPhase,
    repos: Vec<Repository>,
    bare: Option<BareRepository>,
    checkouts: Vec<Checkout>,
    checkout: Option<Checkout>,
    sessions: Vec<Session>,
    layout: Option<Preset>,
}

impl View for Opening {
    type V = OpenView;

    closed spec fn view(&self) -> OpenView {
        OpenView {
            nerd_fonts: self.nerd_fonts,
            presets: preset_views(self.presets@),
            homes: texts(self.homes@),
            config_path: self.config_path@,
            preset_name: opt_text(self.preset_name),
            path: self.path@,
            phase: self.phase,
            repos: repository_views(self.repos@),
            bare: match self.bare {
                Some(b) => Some(b@),
                None => None,
            },
            checkouts: checkout_views(self.checkouts@),
            checkout: match self.checkout {
                Some(c) => Some(c@),
                None => None,
            },
            sessions: session_views(self.sessions@),
            layout: match self.layout {
                Some(p) => Some(p@),
                None => None,
            },
        }
    }
}

fn repository_rows_of(repos: &Vec<Repository>, nerd_fonts: bool) -> (r: Vec<[String; 4]>)
    ensures
        rows_texts(r@) == repository_rows(repository_views(repos@), nerd_fonts),
{
    let ghost want = repository_rows(repository_views(repos@), nerd_fonts);
    let mut rows: Vec<[String; 4]> = Vec::new();
    let mut i: usize = 0;
    while i < repos.len()
        invariant
            i <= repos@.len(),
            want == repository_rows(repository_views(repos@), nerd_fonts),
            rows_texts(rows@) == want.take(i as int),
        decreases repos@.len() - i,
    {
        let row = repos[i].columns(nerd_fonts);
        let ghost before = rows@;
        rows.push(row);
        assert(rows_texts(rows@) =~= rows_texts(before).push(row_texts(row)));
        assert(want.take(i + 1) =~= want.take(i as int).push(want[i as int]));
        i = i + 1;
    }
    assert(want.take(i as int) =~= want);
    rows
}

fn checkout_rows_of(checkouts: &Vec<Checkout>, nerd_fonts: bool) -> (r: Vec<[String; 4]>)
    ensures
        rows_texts(r@) == checkout_rows(checkout_views(checkouts@), nerd_fonts),
{
    let ghost want = checkout_rows(checkout_views(checkouts@), nerd_fonts);
    let mut rows: Vec<[String; 4]> = Vec::new();
    let mut i: usize = 0;
    while i < checkouts.len()
        invariant
            i <= checkouts@.len(),
            want == checkout_rows(checkout_views(checkouts@), nerd_fonts),
            rows_texts(rows@) == want.take(i as int),
        decreases checkouts@.len() - i,
    {
        let row = checkouts[i].columns(nerd_fonts);
        let ghost before = rows@;
        rows.push(row);
        assert(rows_texts(rows@) =~= rows_texts(before).push(row_texts(row)));
        assert(want.take(i + 1) =~= want.take(i as int).push(want[i as int]));
        i = i + 1;
    }
    assert(want.take(i as int) =~= want);
    rows
}

fn names_of(sessions: &Vec<Session>) -> (r: Vec<String>)
    ensures
        texts(r@) == session_names(session_views(sessions@)),
{
    let ghost want = session_names(session_views(sessions@));
    let mut r: Vec<String> = Vec::new();
    let mut i: usize = 0;
    while i < sessions.len()
        invariant
            i <= sessions@.len(),
            want == session_names(session_views(sessions@)),
            texts(r@) == want.take(i as int),
        decreases sessions@.len() - i,
    {
        let ghost before = r@;
        r.push(sessions[i].name.clone());
        assert(texts(r@) =~= texts(before).push(sessions@[i as int].name@));
        assert(want.take(i + 1) =~= want.take(i as int).push(want[i as int]));
        i = i + 1;
    }
    assert(want.take(i as int) =~= want);
    r
}

fn find_preset(presets: &Vec<Preset>, name: &String) -> (r: Option<usize>)
    ensures
        match first_where(preset_views(presets@), preset_name_test(name@)) {
            Some(i) => r matches Some(k) && k as int == i,
            None => r is None,
        },
        r matches Some(i) ==> i < presets@.len(),
{
    let ghost v = preset_views(presets@);
    let ghost t = preset_name_test(name@);
    let mut i: usize = 0;
    while i < presets.len()
        invariant
            i <= presets@.len(),
            v == preset_views(presets@),
            t == preset_name_test(name@),
            forall|k: int| 0 <= k < i ==> !t(#[trigger] v[k]),
        decreases presets@.len() - i,
    {
        assert(v[i as int] == presets@[i as int]@);
        if presets[i].name == *name {
            proof {
                lemma_first_where_is(v, t, i as int);
            }
            return Some(i);
        }
        i = i + 1;
    }
    proof {
        lemma_first_where_is(v, t, i as int);
    }
    None
}

fn index_error(e: IndexError, unknown: OpenError) -> (r: OpenError)
    ensures
        r@ == match e {
            IndexError::NotANumber(x) => OpenErrorView::BadId(x),
            IndexError::Unknown => unknown@,
        },
{
    match e {
        IndexError::NotANumber(x) => OpenError::BadId(x),
        IndexError::Unknown => unknown,
    }
}

impl Opening {
    /// The data each phase needs is there.
    pub closed spec fn wf(&self) -> bool {
        &&& (self.phase == OpenPhase::ListingWorktrees ==> self.bare is Some)
        &&& (self.phase == OpenPhase::Validating || self.phase == OpenPhase::ListingSessions
            || self.phase == OpenPhase::PickingLayout || self.phase == OpenPhase::Revalidating)
            ==> self.checkout is Some
        &&& self.phase == OpenPhase::Revalidating ==> self.layout is Some
    }

    fn finish(self, result: Result<Option<String>, OpenError>) -> (r: (Opening, OpenAction))
        ensures
            r.0.wf(),
            (r.0@, r.1@) == finish(
                self@,
                match result {
                    Ok(note) => Ok(opt_text(note)),
                    Err(e) => Err(e@),
                },
            ),
    {
        let mut o = self;
        o.phase = OpenPhase::Over;
        (o, OpenAction::Finished(result))
    }

    fn blank(
        config: &Config,
        config_path: String,
        homes: Vec<String>,
        preset_name: Option<String>,
        path: String,
        phase: OpenPhase,
    ) -> (r: Opening)
        ensures
            r@ == (OpenView {
                nerd_fonts: config@.nerd_fonts,
                presets: config@.presets,
                homes: texts(homes@),
                config_path: config_path@,
                preset_name: opt_text(preset_name),
                path: path@,
                phase,
                repos: seq![],
                bare: None,
                checkouts: seq![],
                checkout: None,
                sessions: seq![],
                layout: None,
            }),
    {
        let o = Opening {
            nerd_fonts: config.nerd_fonts,
            presets: clone_presets(&config.presets),
            homes,
            config_path,
            preset_name,
            path,
            phase,
            repos: Vec::new(),
            bare: None,
            checkouts: Vec::new(),
            checkout: None,
            sessions: Vec::new(),
            layout: None,
        };
        assert(repository_views(o.repos@) =~= Seq::<RepositoryView>::empty());
        assert(checkout_views(o.checkouts@) =~= Seq::<CheckoutView>::empty());
        assert(session_views(o.sessions@) =~= Seq::<SessionView>::empty());
        o
    }

    /// Starts opening a session through the pickers: an error when no search roots are
    /// configured, else discovery first. `config_path` names the configuration file in errors,
    /// `homes` shorten the paths shown.
    pub fn open(config: &Config, config_path: String, homes: Vec<String>) -> (r: (
        Opening,
        OpenAction,
    ))
        ensures
            r.0.wf(),
            r.0@ == (OpenView {
                nerd_fonts: config@.nerd_fonts,
                presets: config@.presets,
                homes: texts(homes@),
                config_path: config_path@,
                preset_name: None,
                path: seq![],
                phase: if config@.roots.len() == 0 {
                    OpenPhase::Over
                } else {
                    OpenPhase::Discovering
                },
                repos: seq![],
                bare: None,
                checkouts: seq![],
                checkout: None,
                sessions: seq![],
                layout: None,
            }),
            r.1@ == if config@.roots.len() == 0 {
                OpenActionView::Finished(Err(OpenErrorView::NoRoots(config_path@)))
            } else {
                OpenActionView::Discover
            },
    {
        if config.roots.len() == 0 {
            let p = config_path.clone();
            let o = Opening::blank(config, config_path, homes, None, String::new(), OpenPhase::Over);
            (o, OpenAction::Finished(Err(OpenError::NoRoots(p))))
        } else {
            let o = Opening::blank(
                config,
                config_path,
                homes,
                None,
                String::new(),
                OpenPhase::Discovering,
            );
            (o, OpenAction::Discover)
        }
    }

    /// Starts opening a session for the checkout at `path`, with the preset named `preset` (the
    /// layout picker when there is none): first, what `path` is.
    pub fn open_path(
        config: &Config,
        config_path: String,
        homes: Vec<String>,
        path: String,
        preset: Option<String>,
    ) -> (r: (Opening, OpenAction))
        ensures
            r.0.wf(),
            r.0@ == (OpenView {
                nerd_fonts: config@.nerd_fonts,
                presets: config@.presets,
                homes: texts(homes@),
                config_path: config_path@,
                preset_name: opt_text(preset),
                path: path@,
                phase: OpenPhase::Inspecting,
                repos: seq![],
                bare: None,
                checkouts: seq![],
                checkout: None,
                sessions: seq![],
                layout: None,
            }),
            r.1@ == OpenActionView::Inspect(path@),
    {
        let p = path.clone();
        let o = Opening::blank(config, config_path, homes, preset, path, OpenPhase::Inspecting);
        (o, OpenAction::Inspect(p))
    }

    /// Takes the answer to the last action and says what to do next (see `open_next`).
    pub fn step(self, event: OpenEvent) -> (r: (Opening, OpenAction))
        requires
            self.wf(),
            accepts(self@.phase, event@),
        ensures
            r.0.wf(),
            (r.0@, r.1@) == open_next(self@, event@),
    {
        let mut o = self;
        let ghost v = o@;
        match event {
            OpenEvent::Repositories(rs) => {
                if rs.len() == 0 {
                    let p = o.config_path.clone();
                    return o.finish(Err(OpenError::NoRepositories(p)));
                }
                let rows = repository_rows_of(&rs, o.nerd_fonts);
                let choices = aligned_choices(rows, &o.homes);
                o.repos = rs;
                o.phase = OpenPhase::PickingRepository;
                (o, OpenAction::Pick(String::from_str("repository> "), choices))
            },
            OpenEvent::Picked(None) => o.finish(Ok(None)),
            OpenEvent::Picked(Some(id)) => {
                if o.phase == OpenPhase::PickingRepository {
                    match pick_index(id.as_str(), o.repos.len()) {
                        Err(e) => o.finish(Err(index_error(e, OpenError::UnknownRepository))),
                        Ok(n) => {
                            assert(v.repos[n as int] == o.repos@[n as int]@);
                            match &o.repos[n] {
                                Repository::Checkout(c) => {
                                    let c = c.clone();
                                    let w = c.worktree.clone();
                                    o.checkout = Some(c);
                                    o.phase = OpenPhase::Validating;
                                    (o, OpenAction::Probe(w))
                                },
                                Repository::Bare(b) => {
                                    let b = b.clone();
                                    let b2 = b.clone();
                                    o.bare = Some(b);
                                    o.phase = OpenPhase::ListingWorktrees;
                                    (o, OpenAction::ListWorktrees(b2))
                                },
                            }
                        },
                    }
                } else if o.phase == OpenPhase::PickingWorktree {
                    match pick_index(id.as_str(), o.checkouts.len()) {
                        Err(e) => o.finish(Err(index_error(e, OpenError::UnknownWorktree))),
                        Ok(n) => {
                            assert(v.checkouts[n as int] == o.checkouts@[n as int]@);
                            let c = o.checkouts[n].clone();
                            let w = c.worktree.clone();
                            o.checkout = Some(c);
                            o.phase = OpenPhase::Validating;
                            (o, OpenAction::Probe(w))
                        },
                    }
                } else {
                    let picked = Some(id.as_str());
                    assert(opt_str_text(picked) == Some(id@));
                    match select_preset(&o.presets, picked) {
                        Err(le) => o.finish(Err(OpenError::Layout(le))),
                        Ok(None) => o.finish(Ok(None)),
                        Ok(Some(p)) => {
                            let w = o.checkout.as_ref().unwrap().worktree.clone();
                            assert(chosen_layout(v.presets, Some(id@)) == Ok::<Option<PresetView>, LayoutError>(Some(p@)));
                            o.layout = Some(p);
                            o.phase = OpenPhase::Revalidating;
                            (o, OpenAction::Probe(w))
                        },
                    }
                }
            },
            OpenEvent::Worktrees(cs) => {
                if cs.len() == 0 {
                    let mut note = chars_of("no active worktrees in ");
                    push_str(&mut note, o.bare.as_ref().unwrap().path.as_str());
                    let note = string_of(note.as_slice());
                    return o.finish(Ok(Some(note)));
                }
                let rows = checkout_rows_of(&cs, o.nerd_fonts);
                let choices = aligned_choices(rows, &o.homes);
                o.checkouts = cs;
                o.phase = OpenPhase::PickingWorktree;
                (o, OpenAction::Pick(String::from_str("worktree> "), choices))
            },
            OpenEvent::Inspected(r) => match r {
                Some(Repository::Checkout(c)) => {
                    let w = c.worktree.clone();
                    o.checkout = Some(c);
                    o.phase = OpenPhase::Validating;
                    (o, OpenAction::Probe(w))
                },
                _ => {
                    let p = o.path.clone();
                    o.finish(Err(OpenError::NotACheckout(p)))
                },
            },
            OpenEvent::Probed(p) => {
                let c = o.checkout.as_ref().unwrap();
                match validate_checkout(c, p.as_ref()) {
                    Err(e) => o.finish(Err(OpenError::Changed(e))),
                    Ok(()) => {
                        if o.phase == OpenPhase::Validating {
                            o.phase = OpenPhase::ListingSessions;
                            (o, OpenAction::ListSessions)
                        } else {
                            let names = names_of(&o.sessions);
                            let name = session_name(c, &names);
                            let c2 = c.clone();
                            let layout = o.layout.as_ref().unwrap().clone();
                            o.phase = OpenPhase::Creating;
                            (o, OpenAction::Create(name, c2, layout))
                        }
                    },
                }
            },
            OpenEvent::Sessions(ss) => {
                let w = o.checkout.as_ref().unwrap().worktree.clone();
                let slice = ss.as_slice();
                assert(session_views(slice@) == session_views(ss@));
                match session_for_worktree(slice, w.as_str()) {
                    Some(s) => {
                        proof {
                            crate::seqs::lemma_first_where(session_views(ss@), worktree_test(w@));
                            let i = first_where(session_views(ss@), worktree_test(w@)).unwrap();
                            assert(s.id@ == session_views(ss@)[i].id);
                        }
                        let id = s.id.clone();
                        o.phase = OpenPhase::Navigating;
                        (o, OpenAction::Navigate(id))
                    },
                    None => match &o.preset_name {
                        Some(name) => match find_preset(&o.presets, name) {
                            None => {
                                let n = name.clone();
                                o.finish(Err(OpenError::UnknownPreset(n)))
                            },
                            Some(i) => {
                                assert(v.presets[i as int] == o.presets@[i as int]@);
                                let p = o.presets[i].clone();
                                assert(first_where(v.presets, preset_name_test(name@)) == Some(i as int));
                                assert(p@ == v.presets[i as int]);
                                o.sessions = ss;
                                o.layout = Some(p);
                                o.phase = OpenPhase::Revalidating;
                                (o, OpenAction::Probe(w))
                            },
                        },
                        None => {
                            let choices = preset_choices(&o.presets);
                            o.sessions = ss;
                            o.phase = OpenPhase::PickingLayout;
                            (o, OpenAction::Pick(String::from_str("layout> "), choices))
                        },
                    },
                }
            },
            OpenEvent::Created(id) => {
                o.phase = OpenPhase::Navigating;
                (o, OpenAction::Navigate(id))
            },
            OpenEvent::Navigated => o.finish(Ok(None)),
        }
    }
}


/// Cancelling any picker ends quietly: nothing is created or shown.
pub proof fn lemma_cancel_is_quiet(v: OpenView)
    requires
        v.phase == OpenPhase::PickingRepository || v.phase == OpenPhase::PickingWorktree || v.phase
            == OpenPhase::PickingLayout,
    ensures
        open_next(v, OpenEventView::Picked(None)) == finish(v, Ok(None)),
{
}

/// A session is created only right after a fresh probe showed the selected checkout unchanged,
/// and under a name that no running session has.
pub proof fn lemma_creation_is_checked(v: OpenView, e: OpenEventView)
    requires
        accepts(v.phase, e),
        open_next(v, e).1 is Create,
    ensures
        v.phase == OpenPhase::Revalidating,
        e matches OpenEventView::Probed(Some(q)) && still_same_checkout(v.checkout.unwrap(), q),
        open_next(v, e).1 matches OpenActionView::Create(name, c, _) && c == v.checkout.unwrap()
            && !session_names(v.sessions).contains(name),
{
    crate::naming::lemma_session_name_is_free(v.checkout.unwrap(), session_names(v.sessions));
}

/// Running sessions are looked at, to reuse one, only right after a fresh probe showed the
/// selected checkout unchanged.
pub proof fn lemma_reuse_follows_a_fresh_probe(v: OpenView, e: OpenEventView)
    requires
        accepts(v.phase, e),
        open_next(v, e).1 is ListSessions,
    ensures
        v.phase == OpenPhase::Validating,
        e matches OpenEventView::Probed(Some(q)) && still_same_checkout(v.checkout.unwrap(), q),
{
}

/// When a running session stores the selected worktree, it is shown as it is: the first such
/// session, with no layout chosen and nothing created.
pub proof fn lemma_existing_session_is_reused(v: OpenView, ss: Seq<SessionView>, i: int)
    requires
        v.phase == OpenPhase::ListingSessions,
        v.checkout is Some,
        0 <= i < ss.len(),
        ss[i].worktree == Some(v.checkout.unwrap().worktree),
        forall|k: int| 0 <= k < i ==> ss[k].worktree != Some(v.checkout.unwrap().worktree),
    ensures
        open_next(v, OpenEventView::Sessions(ss)).1 == OpenActionView::Navigate(ss[i].id),
{
    lemma_first_where_is(ss, worktree_test(v.checkout.unwrap().worktree), i);
}

} // verus!
