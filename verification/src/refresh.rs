//! `grove refresh`: which configured default sessions are created, and which sessions are
//! killed first.
use vstd::prelude::*;

use crate::config::{default_views, Config, DefaultSession, DefaultSessionView};
use crate::text::texts;
use crate::tmux::{session_views, Session, SessionView};

verus! {

/// One step of a refresh: kill these sessions (by id), then create default session `default`.
#[derive(Debug)]
pub struct RefreshStep {
    pub kill: Vec<String>,
    pub default: usize,
}

/// A refresh step as the contracts see it.
pub struct RefreshStepView {
    pub kill: Seq<Seq<char>>,
    pub default: int,
}

impl View for RefreshStep {
    type V = RefreshStepView;

    open spec fn view(&self) -> RefreshStepView {
        RefreshStepView { kill: texts(self.kill@), default: self.default as int }
    }
}

/// Views of refresh steps.
pub open spec fn refresh_views(v: Seq<RefreshStep>) -> Seq<RefreshStepView> {
    v.map_values(|s: RefreshStep| s@)
}

/// Whether a session is named `n`.
pub open spec fn name_test(n: Seq<char>) -> spec_fn(SessionView) -> bool {
    |s: SessionView| s.name == n
}

/// The ids of the sessions named `n`, in their order.
pub open spec fn named_ids(v: Seq<SessionView>, n: Seq<char>) -> Seq<Seq<char>> {
    v.filter(name_test(n)).map_values(|s: SessionView| s.id)
}

/// The steps for the first `k` defaults, in configuration order: a default whose name a running
/// session has is skipped, unless `force`, which kills every session of that name before the
/// default is created.
pub open spec fn refresh_steps(
    defaults: Seq<DefaultSessionView>,
    v: Seq<SessionView>,
    force: bool,
    k: int,
) -> Seq<RefreshStepView>
    decreases k,
{
    if k <= 0 {
        seq![]
    } else {
        let prev = refresh_steps(defaults, v, force, k - 1);
        let ids = named_ids(v, defaults[k - 1].name);
        if ids.len() > 0 && !force {
            prev
        } else {
            prev.push(RefreshStepView { kill: ids, default: k - 1 })
        }
    }
}

/// Whether a refresh needs the running sessions at all: only when defaults are configured.
pub fn refresh_lists_sessions(config: &Config) -> (r: bool)
    ensures
        r == (config@.defaults.len() > 0),
{
    config.defaults.len() > 0
}

fn ids_named(sessions: &Vec<Session>, name: &String) -> (r: Vec<String>)
    ensures
        texts(r@) == named_ids(session_views(sessions@), name@),
{
    let ghost v = session_views(sessions@);
    let ghost t = name_test(name@);
    let mut r: Vec<String> = Vec::new();
    let mut i: usize = 0;
    assert(v.take(0).filter(t) =~= Seq::<SessionView>::empty()) by {
        reveal(Seq::filter);
    }
    while i < sessions.len()
        invariant
            i <= sessions@.len(),
            v == session_views(sessions@),
            t == name_test(name@),
            texts(r@) == v.take(i as int).filter(t).map_values(|s: SessionView| s.id),
        decreases sessions@.len() - i,
    {
        let s = &sessions[i];
        assert(v[i as int] == s@);
        assert(v.take(i + 1).drop_last() =~= v.take(i as int));
        assert(v.take(i + 1).last() == s@);
        reveal(Seq::filter);
        let ghost before = r@;
        if s.name == *name {
            r.push(s.id.clone());
            assert(v.take(i + 1).filter(t) == v.take(i as int).filter(t).push(s@));
            assert(texts(r@) =~= texts(before).push(s.id@));
            assert(v.take(i + 1).filter(t).map_values(|s: SessionView| s.id) =~= v.take(
                i as int,
            ).filter(t).map_values(|s: SessionView| s.id).push(s@.id));
        } else {
            assert(v.take(i + 1).filter(t) == v.take(i as int).filter(t));
        }
        i = i + 1;
    }
    assert(v.take(i as int) =~= v);
    r
}

/// The steps of a refresh of `defaults` while `sessions` run (see `refresh_steps`).
pub fn refresh_plan(defaults: &Vec<DefaultSession>, sessions: &Vec<Session>, force: bool) -> (r: Vec<
    RefreshStep,
>)
    ensures
        refresh_views(r@) == refresh_steps(
            default_views(defaults@),
            session_views(sessions@),
            force,
            defaults@.len() as int,
        ),
{
    let ghost dv = default_views(defaults@);
    let ghost sv = session_views(sessions@);
    let mut r: Vec<RefreshStep> = Vec::new();
    let mut k: usize = 0;
    while k < defaults.len()
        invariant
            k <= defaults@.len(),
            dv == default_views(defaults@),
            sv == session_views(sessions@),
            refresh_views(r@) == refresh_steps(dv, sv, force, k as int),
        decreases defaults@.len() - k,
    {
        let ids = ids_named(sessions, &defaults[k].name);
        assert(dv[k as int] == defaults@[k as int]@);
        if ids.len() > 0 && !force {
        } else {
            let ghost before = r@;
            let step = RefreshStep { kill: ids, default: k };
            r.push(step);
            assert(refresh_views(r@) =~= refresh_views(before).push(step@));
        }
        k = k + 1;
    }
    r
}

/// Without `--force`, a refresh kills nothing.
pub proof fn lemma_plain_refresh_kills_nothing(
    defaults: Seq<DefaultSessionView>,
    v: Seq<SessionView>,
    k: int,
)
    ensures
        forall|i: int|
            0 <= i < refresh_steps(defaults, v, false, k).len() ==> (#[trigger] refresh_steps(
                defaults,
                v,
                false,
                k,
            )[i]).kill.len() == 0,
    decreases k,
{
    if k > 0 {
        lemma_plain_refresh_kills_nothing(defaults, v, k - 1);
        let prev = refresh_steps(defaults, v, false, k - 1);
        let now = refresh_steps(defaults, v, false, k);
        assert forall|i: int| 0 <= i < now.len() implies (#[trigger] now[i]).kill.len() == 0 by {
            if i < prev.len() {
                assert(now[i] == prev[i]);
            }
        }
    }
}

/// With `--force`, every default is created, in configuration order.
pub proof fn lemma_forced_refresh_creates_all(
    defaults: Seq<DefaultSessionView>,
    v: Seq<SessionView>,
    k: int,
)
    requires
        k >= 0,
    ensures
        refresh_steps(defaults, v, true, k).len() == k,
        forall|i: int|
            0 <= i < k ==> (#[trigger] refresh_steps(defaults, v, true, k)[i]).default == i,
    decreases k,
{
    if k > 0 {
        lemma_forced_refresh_creates_all(defaults, v, k - 1);
    }
}


/// A refresh creates defaults in configuration order, each at most once.
pub proof fn lemma_refresh_follows_configuration(
    defaults: Seq<DefaultSessionView>,
    v: Seq<SessionView>,
    force: bool,
    k: int,
)
    ensures
        forall|i: int|
            0 <= i < refresh_steps(defaults, v, force, k).len() ==> 0 <= (
            #[trigger] refresh_steps(defaults, v, force, k)[i]).default < k,
        forall|i: int, j: int|
            0 <= i < j < refresh_steps(defaults, v, force, k).len() ==> (#[trigger] refresh_steps(
                defaults,
                v,
                force,
                k,
            )[i]).default < (#[trigger] refresh_steps(defaults, v, force, k)[j]).default,
    decreases k,
{
    if k > 0 {
        lemma_refresh_follows_configuration(defaults, v, force, k - 1);
        let prev = refresh_steps(defaults, v, force, k - 1);
        let now = refresh_steps(defaults, v, force, k);
        assert forall|i: int| 0 <= i < now.len() implies 0 <= (#[trigger] now[i]).default < k by {
            if i < prev.len() {
                assert(now[i] == prev[i]);
            }
        }
        assert forall|i: int, j: int| 0 <= i < j < now.len() implies (#[trigger] now[i]).default < (
        #[trigger] now[j]).default by {
            assert(now[i] == prev[i]);
            if j < prev.len() {
                assert(now[j] == prev[j]);
            }
        }
    }
}

/// What the caller does next while refreshing.
#[derive(Debug)]
pub enum RefreshAction {
    /// Kill the session with this id.
    Kill(String),
    /// Create configured default session number `n`.
    Create(usize),
    /// Done, or the first failure's reason.
    Finished(Result<(), String>),
}

/// A refresh action as the contracts see it.
pub enum RefreshActionView {
    Kill(Seq<char>),
    Create(int),
    Finished(Result<(), Seq<char>>),
}

impl View for RefreshAction {
    type V = RefreshActionView;

    open spec fn view(&self) -> RefreshActionView {
        match self {
            RefreshAction::Kill(id) => RefreshActionView::Kill(id@),
            RefreshAction::Create(n) => RefreshActionView::Create(*n as int),
            RefreshAction::Finished(Ok(())) => RefreshActionView::Finished(Ok(())),
            RefreshAction::Finished(Err(e)) => RefreshActionView::Finished(Err(e@)),
        }
    }
}

/// The state of a refresh: the plan, the step it is at, how many of that step's sessions are
/// killed, and whether it is over.
pub struct RefreshingView {
    pub steps: Seq<RefreshStepView>,
    pub step: int,
    pub kill: int,
    pub over: bool,
}

/// The action at a point of the plan: the step's next kill, else its creation; done after the
/// last step.
pub open spec fn refresh_action(steps: Seq<RefreshStepView>, step: int, kill: int) -> RefreshActionView {
    if step >= steps.len() {
        RefreshActionView::Finished(Ok(()))
    } else if kill < steps[step].kill.len() {
        RefreshActionView::Kill(steps[step].kill[kill])
    } else {
        RefreshActionView::Create(steps[step].default)
    }
}

/// The next state and action after the last action's `outcome` (its failure's reason, or
/// nothing when it succeeded): the first failure ends the refresh; otherwise it goes on with
/// the step's next kill, or after its creation with the next step.
pub open spec fn refresh_next(v: RefreshingView, outcome: Option<Seq<char>>) -> (
    RefreshingView,
    RefreshActionView,
) {
    match outcome {
        Some(e) => (RefreshingView { over: true, ..v }, RefreshActionView::Finished(Err(e))),
        None => {
            let (s, k) = if v.kill < v.steps[v.step].kill.len() {
                (v.step, v.kill + 1)
            } else {
                (v.step + 1, 0)
            };
            (
                RefreshingView { step: s, kill: k, over: s >= v.steps.len(), ..v },
                refresh_action(v.steps, s, k),
            )
        },
    }
}

/// Carrying out a refresh plan (see `refresh_next`).
pub struct Refreshing {
    steps: Vec<RefreshStep>,
    step: usize,
    kill: usize,
    over: bool,
}

impl View for Refreshing {
    type V = RefreshingView;

    closed spec fn view(&self) -> RefreshingView {
        RefreshingView {
            steps: refresh_views(self.steps@),
            step: self.step as int,
            kill: self.kill as int,
            over: self.over,
        }
    }
}

impl Refreshing {
    /// While not over, the refresh is at a step of the plan and within its kills.
    pub open spec fn wf(&self) -> bool {
        !self@.over ==> (0 <= self@.step < self@.steps.len() && 0 <= self@.kill
            <= self@.steps[self@.step].kill.len())
    }

    fn action(&self) -> (r: RefreshAction)
        requires
            self.step <= self.steps@.len(),
            self.step < self.steps@.len() ==> self.kill <= self.steps@[self.step as int].kill@.len(),
        ensures
            r@ == refresh_action(self@.steps, self@.step, self@.kill),
    {
        if self.step >= self.steps.len() {
            RefreshAction::Finished(Ok(()))
        } else if self.kill < self.steps[self.step].kill.len() {
            RefreshAction::Kill(self.steps[self.step].kill[self.kill].clone())
        } else {
            RefreshAction::Create(self.steps[self.step].default)
        }
    }

    /// Starts carrying out `plan`: its first action.
    pub fn start(plan: Vec<RefreshStep>) -> (r: (Refreshing, RefreshAction))
        ensures
            r.0.wf(),
            r.0@ == (RefreshingView {
                steps: refresh_views(plan@),
                step: 0,
                kill: 0,
                over: plan@.len() == 0,
            }),
            r.1@ == refresh_action(refresh_views(plan@), 0, 0),
    {
        let over = plan.len() == 0;
        let r = Refreshing { steps: plan, step: 0, kill: 0, over };
        let a = r.action();
        (r, a)
    }

    /// Takes the last action's outcome and says what to do next (see `refresh_next`).
    pub fn step(self, outcome: Option<String>) -> (r: (Refreshing, RefreshAction))
        requires
            self.wf(),
            !self@.over,
        ensures
            r.0.wf(),
            (r.0@, r.1@) == refresh_next(
                self@,
                match outcome {
                    Some(e) => Some(e@),
                    None => None,
                },
            ),
    {
        let mut r = self;
        assert(refresh_views(r.steps@).len() == r.steps@.len());
        match outcome {
            Some(e) => {
                r.over = true;
                (r, RefreshAction::Finished(Err(e)))
            },
            None => {
                let n = r.steps.len();
                assert(r.step < n);
                if r.kill < r.steps[r.step].kill.len() {
                    r.kill = r.kill + 1;
                } else {
                    r.step = r.step + 1;
                    r.kill = 0;
                }
                r.over = r.step >= r.steps.len();
                let a = r.action();
                (r, a)
            },
        }
    }
}

/// A refresh creates a default session only once every session of its step is killed, creates
/// exactly the plan's defaults in order, and ends at the first failure.
pub proof fn lemma_refresh_kills_before_it_creates(v: RefreshingView, outcome: Option<Seq<char>>)
    requires
        !v.over,
        0 <= v.step < v.steps.len(),
        0 <= v.kill <= v.steps[v.step].kill.len(),
    ensures
        outcome matches Some(e) ==> refresh_next(v, outcome).1 == RefreshActionView::Finished(
            Err(e),
        ) && refresh_next(v, outcome).0.over,
        refresh_next(v, outcome).1 matches RefreshActionView::Create(d) ==> ({
            let n = refresh_next(v, outcome).0;
            &&& outcome is None
            &&& n.kill == n.steps[n.step].kill.len()
            &&& d == n.steps[n.step].default
        }),
{
}

} // verus!
