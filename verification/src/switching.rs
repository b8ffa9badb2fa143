//! Choosing among running sessions.
use vstd::prelude::*;

use crate::git::row_texts;
use crate::picker::{aligned_choices, choice_views, pick_index, picker_choices, rows_texts, IndexError};
use crate::seqs::{first_where, lemma_first_where_is};
use crate::text::{
    chars_eq, chars_of, clone_opt, int_error_text, opt_str_text, opt_text, opt_text_eq, parse_unsigned,
    texts, IntError,
};
use crate::tmux::{session_columns, session_views, Session, SessionView};

verus! {

/// The text of optional characters.
pub open spec fn chars_view(c: Option<Vec<char>>) -> Option<Seq<char>> {
    match c {
        Some(c) => Some(c@),
        None => None,
    }
}

/// Whether a session has the id `c`.
pub open spec fn id_test(c: Option<Seq<char>>) -> spec_fn(SessionView) -> bool {
    |s: SessionView| Some(s.id) == c
}

/// Whether a session is offered (see `offered`).
pub open spec fn offered_test(
    current: Option<Seq<char>>,
    repo: Option<Seq<char>>,
    restrict: bool,
) -> spec_fn(SessionView) -> bool {
    |s: SessionView| offered(s, current, repo, restrict)
}

/// Whether a session stores the worktree `w`.
pub open spec fn worktree_test(w: Seq<char>) -> spec_fn(SessionView) -> bool {
    |s: SessionView| s.worktree == Some(w)
}

/// The repository of the current session, when only its repository's sessions are wanted.
pub open spec fn current_repo_of(
    v: Seq<SessionView>,
    current: Option<Seq<char>>,
    repo_only: bool,
) -> Option<Seq<char>> {
    if repo_only {
        match first_where(v, id_test(current)) {
            Some(i) => v[i].repo,
            None => None,
        }
    } else {
        None
    }
}

/// Whether some other session shares the current session's repository.
pub open spec fn restricted(
    v: Seq<SessionView>,
    current: Option<Seq<char>>,
    repo: Option<Seq<char>>,
) -> bool {
    match repo {
        Some(r) => exists|i: int|
            0 <= i < v.len() && Some(#[trigger] v[i].id) != current && v[i].repo == Some(r),
        None => false,
    }
}

/// A session is offered unless it is the current one, or a session of another repository
/// while the choice is restricted to the current repository.
pub open spec fn offered(
    s: SessionView,
    current: Option<Seq<char>>,
    repo: Option<Seq<char>>,
    restrict: bool,
) -> bool {
    Some(s.id) != current && (!restrict || s.repo == repo)
}

/// The sessions offered for switching, in their order.
pub open spec fn selectable(
    v: Seq<SessionView>,
    current: Option<Seq<char>>,
    repo_only: bool,
) -> Seq<SessionView> {
    let repo = current_repo_of(v, current, repo_only);
    let restrict = restricted(v, current, repo);
    v.filter(offered_test(current, repo, restrict))
}

fn is_current(s: &Session, current: &Option<Vec<char>>) -> (r: bool)
    ensures
        r == (Some(s@.id) == match current {
            Some(c) => Some(c@),
            None => None::<Seq<char>>,
        }),
{
    match current {
        Some(c) => chars_eq(chars_of(s.id.as_str()).as_slice(), c.as_slice()),
        None => false,
    }
}

/// Position of the current session.
fn find_current(sessions: &Vec<Session>, cur: &Option<Vec<char>>) -> (r: Option<usize>)
    ensures
        r matches Some(i) ==> i < sessions@.len() && first_where(
            session_views(sessions@),
            id_test(chars_view(*cur)),
        ) == Some(i as int),
        r is None ==> first_where(session_views(sessions@), id_test(chars_view(*cur))) is None,
{
    let ghost v = session_views(sessions@);
    let ghost c = match cur {
        Some(c) => Some(c@),
        None => None::<Seq<char>>,
    };
    let ghost p = id_test(c);
    let mut i: usize = 0;
    while i < sessions.len()
        invariant
            i <= sessions@.len(),
            v == session_views(sessions@),
            c == match cur {
                Some(c) => Some(c@),
                None => None::<Seq<char>>,
            },
            p == id_test(c),
            forall|k: int| 0 <= k < i ==> !p(#[trigger] v[k]),
        decreases sessions@.len() - i,
    {
        assert(v[i as int] == sessions@[i as int]@);
        if is_current(&sessions[i], cur) {
            proof {
                lemma_first_where_is(v, p, i as int);
            }
            return Some(i);
        }
        i = i + 1;
    }
    proof {
        lemma_first_where_is(v, p, i as int);
    }
    None
}

/// Whether a session other than the current one has repository `repo`.
fn shares_repo(sessions: &Vec<Session>, cur: &Option<Vec<char>>, repo: &Option<String>) -> (r: bool)
    requires
        repo is Some,
    ensures
        r == restricted(
            session_views(sessions@),
            match cur {
                Some(c) => Some(c@),
                None => None::<Seq<char>>,
            },
            opt_text(*repo),
        ),
{
    let ghost v = session_views(sessions@);
    let ghost c = match cur {
        Some(c) => Some(c@),
        None => None::<Seq<char>>,
    };
    let mut i: usize = 0;
    while i < sessions.len()
        invariant
            i <= sessions@.len(),
            v == session_views(sessions@),
            repo is Some,
            c == match cur {
                Some(c) => Some(c@),
                None => None::<Seq<char>>,
            },
            forall|k: int|
                0 <= k < i ==> !(Some(#[trigger] v[k].id) != c && v[k].repo == opt_text(*repo)),
        decreases sessions@.len() - i,
    {
        assert(v[i as int] == sessions@[i as int]@);
        if !is_current(&sessions[i], cur) && opt_text_eq(&sessions[i].repo, repo) {
            assert(Some(v[i as int].id) != c && v[i as int].repo == opt_text(*repo));
            return true;
        }
        i = i + 1;
    }
    false
}

/// Sessions to switch to: all but the current one; with `repo_only`, only those of the current
/// session's repository, unless it has no other session.
pub fn selectable_sessions(sessions: Vec<Session>, current: Option<&str>, repo_only: bool) -> (r: Vec<
    Session,
>)
    ensures
        session_views(r@) == selectable(session_views(sessions@), opt_str_text(current), repo_only),
{
    let ghost v = session_views(sessions@);
    let ghost cur = opt_str_text(current);
    let cur_chars: Option<Vec<char>> = match current {
        Some(c) => Some(chars_of(c)),
        None => None,
    };
    assert(cur == match cur_chars {
        Some(c) => Some(c@),
        None => None::<Seq<char>>,
    });
    let repo: Option<String> = if repo_only {
        match find_current(&sessions, &cur_chars) {
            Some(i) => clone_opt(&sessions[i].repo),
            None => None,
        }
    } else {
        None
    };
    let ghost repo_v = current_repo_of(v, cur, repo_only);
    assert(opt_text(repo) == repo_v);
    let restrict = match &repo {
        Some(_) => shares_repo(&sessions, &cur_chars, &repo),
        None => false,
    };
    assert(restrict == restricted(v, cur, repo_v));
    let ghost keep = offered_test(cur, repo_v, restrict);
    let mut out: Vec<Session> = Vec::new();
    let mut i: usize = 0;
    assert(v.take(0).filter(keep) =~= Seq::<SessionView>::empty()) by {
        reveal(Seq::filter);
    }
    while i < sessions.len()
        invariant
            i <= sessions@.len(),
            v == session_views(sessions@),
            opt_text(repo) == repo_v,
            cur == match cur_chars {
                Some(c) => Some(c@),
                None => None::<Seq<char>>,
            },
            keep == offered_test(cur, repo_v, restrict),
            session_views(out@) == v.take(i as int).filter(keep),
        decreases sessions@.len() - i,
    {
        let s = &sessions[i];
        assert(v[i as int] == s@);
        assert(v.take(i + 1).drop_last() =~= v.take(i as int));
        assert(v.take(i + 1).last() == s@);
        let keep_it = !is_current(s, &cur_chars) && (!restrict || opt_text_eq(&s.repo, &repo));
        assert(keep_it == keep(s@));
        reveal(Seq::filter);
        if keep_it {
            let ghost before = session_views(out@);
            out.push(s.clone());
            assert(session_views(out@) =~= before.push(s@));
            assert(v.take(i + 1).filter(keep) == v.take(i as int).filter(keep).push(s@));
        } else {
            assert(v.take(i + 1).filter(keep) == v.take(i as int).filter(keep));
        }
        i = i + 1;
    }
    assert(v.take(i as int) =~= v);
    out
}

/// The session whose stored worktree is `worktree`, if any (the first such).
pub fn session_for_worktree<'a>(sessions: &'a [Session], worktree: &str) -> (r: Option<&'a Session>)
    ensures
        match first_where(session_views(sessions@), worktree_test(worktree@)) {
            Some(i) => r matches Some(s) && s@ == sessions@[i]@,
            None => r is None,
        },
{
    let ghost v = session_views(sessions@);
    let ghost p = worktree_test(worktree@);
    let w = Some(String::from_str(worktree));
    let mut i: usize = 0;
    while i < sessions.len()
        invariant
            i <= sessions@.len(),
            v == session_views(sessions@),
            p == worktree_test(worktree@),
            opt_text(w) == Some(worktree@),
            forall|k: int| 0 <= k < i ==> !p(#[trigger] v[k]),
        decreases sessions@.len() - i,
    {
        assert(v[i as int] == sessions@[i as int]@);
        if opt_text_eq(&sessions[i].worktree, &w) {
            proof {
                lemma_first_where_is(v, p, i as int);
            }
            return Some(&sessions[i]);
        }
        i = i + 1;
    }
    proof {
        lemma_first_where_is(v, p, i as int);
    }
    None
}


/// Why there is nothing to switch to.
#[derive(Debug)]
pub enum SwitchError {
    /// No session is offered.
    NoSessions,
    /// The picker answered an id that is not a number.
    BadId(IntError),
    /// The picker answered an id that names no offered session.
    UnknownSession,
}

/// The message of a failure to switch.
pub open spec fn switch_error_text(e: SwitchError) -> Seq<char> {
    match e {
        SwitchError::NoSessions => "no matching tmux sessions"@,
        SwitchError::BadId(x) => int_error_text(x),
        SwitchError::UnknownSession => "fzf selected an unknown session"@,
    }
}

impl SwitchError {
    /// The message that explains the failure.
    pub fn message(&self) -> (r: String)
        ensures
            r@ == switch_error_text(*self),
    {
        match self {
            SwitchError::NoSessions => String::from_str("no matching tmux sessions"),
            SwitchError::BadId(x) => x.message(),
            SwitchError::UnknownSession => String::from_str("fzf selected an unknown session"),
        }
    }
}

/// Picker rows of sessions.
pub open spec fn session_rows(v: Seq<SessionView>, nerd_fonts: bool) -> Seq<Seq<Seq<char>>> {
    v.map_values(|s: SessionView| session_columns(s, nerd_fonts))
}

/// The sessions offered for switching (see `selectable`) with their picker entries; an error
/// when none is offered.
pub fn switch(
    sessions: Vec<Session>,
    current: Option<&str>,
    repo_only: bool,
    nerd_fonts: bool,
    homes: &Vec<String>,
) -> (r: Result<(Vec<Session>, Vec<(String, String)>), SwitchError>)
    ensures
        selectable(session_views(sessions@), opt_str_text(current), repo_only).len() == 0 <==> r is Err,
        r is Err ==> r matches Err(SwitchError::NoSessions),
        r matches Ok((ss, choices)) ==> session_views(ss@) == selectable(
            session_views(sessions@),
            opt_str_text(current),
            repo_only,
        ) && choice_views(choices@) == picker_choices(
            session_rows(session_views(ss@), nerd_fonts),
            texts(homes@),
        ),
{
    let offered = selectable_sessions(sessions, current, repo_only);
    if offered.len() == 0 {
        return Err(SwitchError::NoSessions);
    }
    let ghost ov = session_views(offered@);
    let mut rows: Vec<[String; 4]> = Vec::new();
    let mut i: usize = 0;
    while i < offered.len()
        invariant
            i <= offered@.len(),
            ov == session_views(offered@),
            rows_texts(rows@) == session_rows(ov, nerd_fonts).take(i as int),
        decreases offered@.len() - i,
    {
        let row = offered[i].columns(nerd_fonts);
        let ghost before = rows@;
        rows.push(row);
        assert(rows_texts(rows@) =~= rows_texts(before).push(row_texts(row)));
        assert(session_rows(ov, nerd_fonts).take(i + 1) =~= session_rows(ov, nerd_fonts).take(
            i as int,
        ).push(session_columns(ov[i as int], nerd_fonts)));
        i = i + 1;
    }
    assert(session_rows(ov, nerd_fonts).take(i as int) =~= session_rows(ov, nerd_fonts));
    let choices = aligned_choices(rows, homes);
    Ok((offered, choices))
}


/// The id of the offered session that the picker's answer `picked` names by its position.
pub fn switch_target(offered: &Vec<Session>, picked: &str) -> (r: Result<String, SwitchError>)
    ensures
        match parse_unsigned(picked@, usize::MAX as nat) {
            Err(x) => r matches Err(SwitchError::BadId(y)) && y == x,
            Ok(n) => if n < offered@.len() {
                r matches Ok(id) && id@ == offered@[n as int]@.id
            } else {
                r matches Err(SwitchError::UnknownSession)
            },
        },
{
    match pick_index(picked, offered.len()) {
        Err(IndexError::NotANumber(x)) => Err(SwitchError::BadId(x)),
        Err(IndexError::Unknown) => Err(SwitchError::UnknownSession),
        Ok(n) => Ok(offered[n].id.clone()),
    }
}


/// Why `grove close` cannot run.
#[derive(Debug)]
pub enum CloseError {
    NotInTmux,
}

impl CloseError {
    /// The message that explains the failure.
    pub fn message(&self) -> (r: String)
        ensures
            r@ == "grove close must be run inside tmux"@,
    {
        match self {
            CloseError::NotInTmux => String::from_str("grove close must be run inside tmux"),
        }
    }
}

/// `grove close` needs a client inside tmux, to switch before the old session goes.
pub fn close_allowed(inside_tmux: bool) -> (r: Result<(), CloseError>)
    ensures
        r is Ok <==> inside_tmux,
{
    if inside_tmux {
        Ok(())
    } else {
        Err(CloseError::NotInTmux)
    }
}

/// The sessions to switch to before closing the current one `current`, with their picker
/// entries (as for switching); nothing when there is no other session, which leaves the current
/// one open.
pub fn close(
    sessions: Vec<Session>,
    current: &str,
    repo_only: bool,
    nerd_fonts: bool,
    homes: &Vec<String>,
) -> (r: Option<(Vec<Session>, Vec<(String, String)>)>)
    ensures
        selectable(session_views(sessions@), Some(current@), repo_only).len() == 0 <==> r is None,
        r matches Some((ss, choices)) ==> session_views(ss@) == selectable(
            session_views(sessions@),
            Some(current@),
            repo_only,
        ) && choice_views(choices@) == picker_choices(
            session_rows(session_views(ss@), nerd_fonts),
            texts(homes@),
        ),
{
    let cur = Some(current);
    assert(opt_str_text(cur) == Some(current@));
    match switch(sessions, cur, repo_only, nerd_fonts, homes) {
        Ok(found) => Some(found),
        Err(_) => None,
    }
}


/// The current session is never offered; without `repo_only` every other session is.
pub proof fn lemma_current_never_offered(
    v: Seq<SessionView>,
    current: Option<Seq<char>>,
    repo_only: bool,
)
    ensures
        forall|i: int|
            0 <= i < selectable(v, current, repo_only).len() ==> Some(
                (#[trigger] selectable(v, current, repo_only)[i]).id,
            ) != current,
        !repo_only ==> forall|i: int|
            0 <= i < v.len() && Some(v[i].id) != current ==> #[trigger] selectable(
                v,
                current,
                false,
            ).contains(v[i]),
{
    let repo = current_repo_of(v, current, repo_only);
    let keep = offered_test(current, repo, restricted(v, current, repo));
    assert forall|i: int|
        0 <= i < selectable(v, current, repo_only).len() implies Some(
        (#[trigger] selectable(v, current, repo_only)[i]).id,
    ) != current by {
        v.lemma_filter_pred(keep, i);
    }
    if !repo_only {
        assert forall|i: int| 0 <= i < v.len() && Some(v[i].id) != current implies #[trigger] selectable(
            v,
            current,
            false,
        ).contains(v[i]) by {
            v.lemma_filter_contains(keep, i);
        }
    }
}

/// With `repo_only`, when no other session has the current session's repository, every other
/// session is offered, as without it.
pub proof fn lemma_repo_only_falls_back(v: Seq<SessionView>, current: Option<Seq<char>>)
    requires
        !restricted(v, current, current_repo_of(v, current, true)),
    ensures
        selectable(v, current, true) == selectable(v, current, false),
{
    let repo = current_repo_of(v, current, true);
    assert(!restricted(v, current, None));
    assert(offered_test(current, repo, false) =~= offered_test(current, None, false));
}

/// Where closing the current session has come to.
#[derive(Clone, Copy, Debug, PartialEq, Eq, Structural)]
pub enum ClosePhase {
    /// Waiting for the session picker.
    Picking,
    /// Waiting for the client to switch to the picked session.
    Switching,
    /// Waiting for the old session to be killed.
    Killing,
    /// Nothing more to do.
    Over,
}

/// Why closing the current session failed.
#[derive(Debug)]
pub enum CloseFailure {
    /// The picker answered an id that is not a number.
    BadId(IntError),
    /// The picker answered an id that names no session.
    UnknownSession,
    /// Switching the client failed, for the reason given; the old session is left.
    Switch(String),
    /// Killing the old session failed, for the reason given, after the client switched.
    Kill(String),
}

/// A failure to close as the contracts see it.
pub enum CloseFailureView {
    BadId(IntError),
    UnknownSession,
    Switch(Seq<char>),
    Kill(Seq<char>),
}

impl View for CloseFailure {
    type V = CloseFailureView;

    open spec fn view(&self) -> CloseFailureView {
        match self {
            CloseFailure::BadId(e) => CloseFailureView::BadId(*e),
            CloseFailure::UnknownSession => CloseFailureView::UnknownSession,
            CloseFailure::Switch(m) => CloseFailureView::Switch(m@),
            CloseFailure::Kill(m) => CloseFailureView::Kill(m@),
        }
    }
}

/// The message of a failure to close.
pub open spec fn close_failure_text(e: CloseFailureView) -> Seq<char> {
    match e {
        CloseFailureView::BadId(x) => int_error_text(x),
        CloseFailureView::UnknownSession => "fzf selected an unknown session"@,
        CloseFailureView::Switch(m) => m,
        CloseFailureView::Kill(m) => m,
    }
}

impl CloseFailure {
    /// The message that explains the failure.
    pub fn message(&self) -> (r: String)
        ensures
            r@ == close_failure_text(self@),
    {
        match self {
            CloseFailure::BadId(x) => x.message(),
            CloseFailure::UnknownSession => String::from_str("fzf selected an unknown session"),
            CloseFailure::Switch(m) => m.clone(),
            CloseFailure::Kill(m) => m.clone(),
        }
    }
}

/// What the caller reports back: the answer to the last action.
pub enum CloseEvent {
    /// The picker's answer; nothing when it was cancelled.
    Picked(Option<String>),
    /// The switch of the client: nothing when it succeeded, else why it failed.
    Switched(Option<String>),
    /// The kill of the old session: nothing when it succeeded, else why it failed.
    Killed(Option<String>),
}

/// An answer as the contracts see it.
pub enum CloseEventView {
    Picked(Option<Seq<char>>),
    Switched(Option<Seq<char>>),
    Killed(Option<Seq<char>>),
}

impl View for CloseEvent {
    type V = CloseEventView;

    open spec fn view(&self) -> CloseEventView {
        match self {
            CloseEvent::Picked(p) => CloseEventView::Picked(opt_text(*p)),
            CloseEvent::Switched(m) => CloseEventView::Switched(opt_text(*m)),
            CloseEvent::Killed(m) => CloseEventView::Killed(opt_text(*m)),
        }
    }
}

/// What the caller does next.
#[derive(Debug)]
pub enum CloseAction {
    /// Show a picker with this prompt and these entries.
    Pick(String, Vec<(String, String)>),
    /// Switch the client to the session with this id.
    Switch(String),
    /// Kill the session with this id.
    Kill(String),
    /// Done, or why it failed.
    Finished(Result<(), CloseFailure>),
}

/// An action as the contracts see it.
pub enum CloseActionView {
    Pick(Seq<char>, Seq<(Seq<char>, Seq<char>)>),
    Switch(Seq<char>),
    Kill(Seq<char>),
    Finished(Result<(), CloseFailureView>),
}

impl View for CloseAction {
    type V = CloseActionView;

    open spec fn view(&self) -> CloseActionView {
        match self {
            CloseAction::Pick(p, c) => CloseActionView::Pick(p@, choice_views(c@)),
            CloseAction::Switch(id) => CloseActionView::Switch(id@),
            CloseAction::Kill(id) => CloseActionView::Kill(id@),
            CloseAction::Finished(Ok(())) => CloseActionView::Finished(Ok(())),
            CloseAction::Finished(Err(e)) => CloseActionView::Finished(Err(e@)),
        }
    }
}

/// The state of closing a session.
pub struct CloseView {
    /// The session being closed.
    pub current: Seq<char>,
    /// The sessions offered to switch to.
    pub offered: Seq<SessionView>,
    pub phase: ClosePhase,
}

/// Whether `e` answers what `phase` waits for.
pub open spec fn close_accepts(phase: ClosePhase, e: CloseEventView) -> bool {
    match phase {
        ClosePhase::Picking => e is Picked,
        ClosePhase::Switching => e is Switched,
        ClosePhase::Killing => e is Killed,
        ClosePhase::Over => false,
    }
}

/// Ends with `result`.
pub open spec fn close_finish(v: CloseView, result: Result<(), CloseFailureView>) -> (
    CloseView,
    CloseActionView,
) {
    (CloseView { phase: ClosePhase::Over, ..v }, CloseActionView::Finished(result))
}

/// The next state and action after event `e`. A cancelled picker ends quietly; a picked session
/// is switched to; the old session is killed only once the switch succeeded; a failed switch
/// or kill ends with its reason.
pub open spec fn close_next(v: CloseView, e: CloseEventView) -> (CloseView, CloseActionView) {
    match e {
        CloseEventView::Picked(None) => close_finish(v, Ok(())),
        CloseEventView::Picked(Some(id)) => match parse_unsigned(id, usize::MAX as nat) {
            Err(x) => close_finish(v, Err(CloseFailureView::BadId(x))),
            Ok(n) => if n < v.offered.len() {
                (
                    CloseView { phase: ClosePhase::Switching, ..v },
                    CloseActionView::Switch(v.offered[n as int].id),
                )
            } else {
                close_finish(v, Err(CloseFailureView::UnknownSession))
            },
        },
        CloseEventView::Switched(None) => (
            CloseView { phase: ClosePhase::Killing, ..v },
            CloseActionView::Kill(v.current),
        ),
        CloseEventView::Switched(Some(m)) => close_finish(v, Err(CloseFailureView::Switch(m))),
        CloseEventView::Killed(None) => close_finish(v, Ok(())),
        CloseEventView::Killed(Some(m)) => close_finish(v, Err(CloseFailureView::Kill(m))),
    }
}

/// No session offered is the one being closed.
pub open spec fn others_offered(v: CloseView) -> bool {
    forall|i: int| 0 <= i < v.offered.len() ==> (#[trigger] v.offered[i]).id != v.current
}

/// Closing the current session for another one (see `close_next`).
pub struct Closing {
    current: String,
    offered: Vec<Session>,
    phase: ClosePhase,
}

impl View for Closing {
    type V = CloseView;

    closed spec fn view(&self) -> CloseView {
        CloseView {
            current: self.current@,
            offered: session_views(self.offered@),
            phase: self.phase,
        }
    }
}

impl Closing {
    /// Starts closing `current`: a picker of the sessions offered for switching (see
    /// `selectable`), or, when there is none, the end with nothing done.
    pub fn start(
        sessions: Vec<Session>,
        current: String,
        repo_only: bool,
        nerd_fonts: bool,
        homes: &Vec<String>,
    ) -> (r: (Closing, CloseAction))
        ensures
            others_offered(r.0@),
            r.0@.current == current@,
            r.0@.offered == selectable(session_views(sessions@), Some(current@), repo_only),
            r.0@.phase == if r.0@.offered.len() == 0 {
                ClosePhase::Over
            } else {
                ClosePhase::Picking
            },
            r.1@ == if r.0@.offered.len() == 0 {
                CloseActionView::Finished(Ok(()))
            } else {
                CloseActionView::Pick(
                    "session> "@,
                    picker_choices(session_rows(r.0@.offered, nerd_fonts), texts(homes@)),
                )
            },
    {
        proof {
            lemma_current_never_offered(session_views(sessions@), Some(current@), repo_only);
        }
        match close(sessions, current.as_str(), repo_only, nerd_fonts, homes) {
            None => {
                let c = Closing { current, offered: Vec::new(), phase: ClosePhase::Over };
                assert(session_views(c.offered@) =~= Seq::<SessionView>::empty());
                (c, CloseAction::Finished(Ok(())))
            },
            Some((offered, choices)) => {
                let c = Closing { current, offered, phase: ClosePhase::Picking };
                (c, CloseAction::Pick(String::from_str("session> "), choices))
            },
        }
    }

    /// Takes the answer to the last action and says what to do next (see `close_next`).
    pub fn step(self, event: CloseEvent) -> (r: (Closing, CloseAction))
        requires
            close_accepts(self@.phase, event@),
        ensures
            r.0@.current == self@.current,
            r.0@.offered == self@.offered,
            (r.0@, r.1@) == close_next(self@, event@),
    {
        let mut c = self;
        match event {
            CloseEvent::Picked(None) => {
                c.phase = ClosePhase::Over;
                (c, CloseAction::Finished(Ok(())))
            },
            CloseEvent::Picked(Some(id)) => match pick_index(id.as_str(), c.offered.len()) {
                Err(IndexError::NotANumber(x)) => {
                    c.phase = ClosePhase::Over;
                    (c, CloseAction::Finished(Err(CloseFailure::BadId(x))))
                },
                Err(IndexError::Unknown) => {
                    c.phase = ClosePhase::Over;
                    (c, CloseAction::Finished(Err(CloseFailure::UnknownSession)))
                },
                Ok(n) => {
                    let target = c.offered[n].id.clone();
                    c.phase = ClosePhase::Switching;
                    (c, CloseAction::Switch(target))
                },
            },
            CloseEvent::Switched(None) => {
                let current = c.current.clone();
                c.phase = ClosePhase::Killing;
                (c, CloseAction::Kill(current))
            },
            CloseEvent::Switched(Some(m)) => {
                c.phase = ClosePhase::Over;
                (c, CloseAction::Finished(Err(CloseFailure::Switch(m))))
            },
            CloseEvent::Killed(None) => {
                c.phase = ClosePhase::Over;
                (c, CloseAction::Finished(Ok(())))
            },
            CloseEvent::Killed(Some(m)) => {
                c.phase = ClosePhase::Over;
                (c, CloseAction::Finished(Err(CloseFailure::Kill(m))))
            },
        }
    }
}

/// The old session is killed only right after the client switched away from it successfully,
/// and it is the session being closed that is killed.
pub proof fn lemma_kill_follows_switch(v: CloseView, e: CloseEventView)
    requires
        close_accepts(v.phase, e),
        close_next(v, e).1 is Kill,
    ensures
        v.phase == ClosePhase::Switching,
        e == CloseEventView::Switched(None),
        close_next(v, e).1 == CloseActionView::Kill(v.current),
{
}

/// The client is switched only to an offered session, never to the one being closed.
pub proof fn lemma_switch_leaves_current(v: CloseView, e: CloseEventView)
    requires
        others_offered(v),
        close_accepts(v.phase, e),
        close_next(v, e).1 is Switch,
    ensures
        close_next(v, e).1 matches CloseActionView::Switch(t) && t != v.current && exists|i: int|
            0 <= i < v.offered.len() && v.offered[i].id == t,
{
    if let CloseEventView::Picked(Some(id)) = e {
        if let Ok(n) = parse_unsigned(id, usize::MAX as nat) {
            assert(v.offered[n as int].id != v.current);
        }
    }
}

/// Cancelling the picker, or a failed switch, ends the closing with no session killed.
pub proof fn lemma_cancel_or_failed_switch_keeps_current(v: CloseView, m: Seq<char>)
    ensures
        close_next(v, CloseEventView::Picked(None)).1 == CloseActionView::Finished(Ok(())),
        close_next(v, CloseEventView::Switched(Some(m))).1 == CloseActionView::Finished(
            Err(CloseFailureView::Switch(m)),
        ),
{
}

} // verus!
