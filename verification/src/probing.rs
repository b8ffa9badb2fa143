//! Probing a directory with Git: which questions are asked, in which order, and the probes
//! already made.
use vstd::prelude::*;

use crate::git::{clone_bytes, Probe, ProbeView};
use crate::path::opt_bytes;
use crate::text::{opt_text, texts};

verus! {

/// A question that probing a directory asks Git.
#[derive(Clone, Copy, Debug, PartialEq, Eq, Structural)]
pub enum ProbeQuestion {
    /// Its common Git directory, as an absolute path.
    CommonDir,
    /// Its own Git directory.
    GitDir,
    /// Its top-level worktree.
    TopLevel,
    /// Whether the repository is bare.
    IsBare,
}

/// The `git` arguments that ask `q`.
pub open spec fn question_args(q: ProbeQuestion) -> Seq<Seq<char>> {
    match q {
        ProbeQuestion::CommonDir => seq![
            "rev-parse"@,
            "--path-format=absolute"@,
            "--git-common-dir"@,
        ],
        ProbeQuestion::GitDir => seq!["rev-parse"@, "--absolute-git-dir"@],
        ProbeQuestion::TopLevel => seq!["rev-parse"@, "--show-toplevel"@],
        ProbeQuestion::IsBare => seq!["rev-parse"@, "--is-bare-repository"@],
    }
}

impl ProbeQuestion {
    /// The `git` arguments that ask this question (see `question_args`).
    pub fn git_args(&self) -> (r: Vec<String>)
        ensures
            texts(r@) == question_args(*self),
    {
        let mut r: Vec<String> = Vec::new();
        r.push(String::from_str("rev-parse"));
        match self {
            ProbeQuestion::CommonDir => {
                r.push(String::from_str("--path-format=absolute"));
                r.push(String::from_str("--git-common-dir"));
            },
            ProbeQuestion::GitDir => r.push(String::from_str("--absolute-git-dir")),
            ProbeQuestion::TopLevel => r.push(String::from_str("--show-toplevel")),
            ProbeQuestion::IsBare => r.push(String::from_str("--is-bare-repository")),
        }
        assert(texts(r@) =~= question_args(*self));
        r
    }
}

/// What to do next while probing: ask Git, or stop with the probe (nothing when Git could not
/// tell what the directory is).
#[derive(Debug)]
pub enum ProbeStep {
    Ask(ProbeQuestion),
    Done(Option<Probe>),
}

/// A probe step as the contracts see it.
pub enum ProbeStepView {
    Ask(ProbeQuestion),
    Done(Option<ProbeView>),
}

impl View for ProbeStep {
    type V = ProbeStepView;

    open spec fn view(&self) -> ProbeStepView {
        match self {
            ProbeStep::Ask(q) => ProbeStepView::Ask(*q),
            ProbeStep::Done(Some(p)) => ProbeStepView::Done(Some(p@)),
            ProbeStep::Done(None) => ProbeStepView::Done(None),
        }
    }
}

/// The state of a probe as the contracts see it: the question asked last and the paths
/// answered so far.
pub struct ProbingView {
    pub asked: ProbeQuestion,
    pub common: Option<(Seq<char>, Option<Seq<u8>>)>,
    pub git_dir: Option<(Seq<char>, Option<Seq<u8>>)>,
}

/// The next state and step after Git answered the last question with `answer` (nothing when it
/// failed); for a path, `bytes` are its bytes when it is not valid UTF-8 and `name_is_text`
/// tells whether its own name is valid Unicode. A probe
/// needs the common and the own Git directory; without a top-level worktree it asks whether the
/// repository is bare, and it is bare only when Git answers `true`.
pub open spec fn probe_next(
    v: ProbingView,
    answer: Option<Seq<char>>,
    bytes: Option<Seq<u8>>,
    name_is_text: bool,
) -> (ProbingView, ProbeStepView) {
    match v.asked {
        ProbeQuestion::CommonDir => match answer {
            None => (v, ProbeStepView::Done(None)),
            Some(c) => (
                ProbingView { asked: ProbeQuestion::GitDir, common: Some((c, bytes)), ..v },
                ProbeStepView::Ask(ProbeQuestion::GitDir),
            ),
        },
        ProbeQuestion::GitDir => match answer {
            None => (v, ProbeStepView::Done(None)),
            Some(g) => (
                ProbingView { asked: ProbeQuestion::TopLevel, git_dir: Some((g, bytes)), ..v },
                ProbeStepView::Ask(ProbeQuestion::TopLevel),
            ),
        },
        ProbeQuestion::TopLevel => match answer {
            Some(t) => (
                v,
                ProbeStepView::Done(
                    Some(
                        ProbeView {
                            common: v.common.unwrap().0,
                            git_dir: v.git_dir.unwrap().0,
                            top: Some(t),
                            common_bytes: v.common.unwrap().1,
                            git_dir_bytes: v.git_dir.unwrap().1,
                            top_bytes: bytes,
                            top_name_is_text: name_is_text,
                            bare: false,
                        },
                    ),
                ),
            ),
            None => (
                ProbingView { asked: ProbeQuestion::IsBare, ..v },
                ProbeStepView::Ask(ProbeQuestion::IsBare),
            ),
        },
        ProbeQuestion::IsBare => (
            v,
            ProbeStepView::Done(
                Some(
                    ProbeView {
                        common: v.common.unwrap().0,
                        git_dir: v.git_dir.unwrap().0,
                        top: None,
                        common_bytes: v.common.unwrap().1,
                        git_dir_bytes: v.git_dir.unwrap().1,
                        top_bytes: None,
                        top_name_is_text: true,
                        bare: answer == Some("true"@),
                    },
                ),
            ),
        ),
    }
}

/// Probing one directory (see `probe_next`).
#[derive(Debug)]
pub struct Probing {
    asked: ProbeQuestion,
    common: Option<(String, Option<Vec<u8>>)>,
    git_dir: Option<(String, Option<Vec<u8>>)>,
}

/// An answered path as the contracts see it.
pub open spec fn answered(p: Option<(String, Option<Vec<u8>>)>) -> Option<(Seq<char>, Option<Seq<u8>>)> {
    match p {
        Some((t, b)) => Some((t@, opt_bytes(b))),
        None => None,
    }
}

impl View for Probing {
    type V = ProbingView;

    closed spec fn view(&self) -> ProbingView {
        ProbingView { asked: self.asked, common: answered(self.common), git_dir: answered(self.git_dir) }
    }
}

impl Probing {
    /// The paths that the question asked last needs are there.
    pub closed spec fn wf(&self) -> bool {
        &&& (self.asked == ProbeQuestion::GitDir ==> self.common is Some)
        &&& (self.asked == ProbeQuestion::TopLevel || self.asked == ProbeQuestion::IsBare) ==> (
        self.common is Some && self.git_dir is Some)
    }

    /// Starts probing: first, the common directory.
    pub fn start() -> (r: (Probing, ProbeStep))
        ensures
            r.0.wf(),
            r.0@ == (ProbingView { asked: ProbeQuestion::CommonDir, common: None, git_dir: None }),
            r.1@ == ProbeStepView::Ask(ProbeQuestion::CommonDir),
    {
        (
            Probing { asked: ProbeQuestion::CommonDir, common: None, git_dir: None },
            ProbeStep::Ask(ProbeQuestion::CommonDir),
        )
    }

    /// Takes Git's answer to the last question and says what to do next (see `probe_next`).
    pub fn step(self, answer: Option<String>, bytes: Option<Vec<u8>>, name_is_text: bool) -> (r: (
        Probing,
        ProbeStep,
    ))
        requires
            self.wf(),
        ensures
            r.0.wf(),
            (r.0@, r.1@) == probe_next(self@, opt_text(answer), opt_bytes(bytes), name_is_text),
    {
        let mut p = self;
        match p.asked {
            ProbeQuestion::CommonDir => match answer {
                None => (p, ProbeStep::Done(None)),
                Some(c) => {
                    p.common = Some((c, bytes));
                    p.asked = ProbeQuestion::GitDir;
                    (p, ProbeStep::Ask(ProbeQuestion::GitDir))
                },
            },
            ProbeQuestion::GitDir => match answer {
                None => (p, ProbeStep::Done(None)),
                Some(g) => {
                    p.git_dir = Some((g, bytes));
                    p.asked = ProbeQuestion::TopLevel;
                    (p, ProbeStep::Ask(ProbeQuestion::TopLevel))
                },
            },
            ProbeQuestion::TopLevel => match answer {
                Some(t) => {
                    let (common, common_bytes) = p.common.as_ref().unwrap();
                    let (git_dir, git_dir_bytes) = p.git_dir.as_ref().unwrap();
                    let probe = Probe {
                        common: common.clone(),
                        git_dir: git_dir.clone(),
                        top: Some(t),
                        common_bytes: clone_bytes(common_bytes),
                        git_dir_bytes: clone_bytes(git_dir_bytes),
                        top_bytes: bytes,
                        top_name_is_text: name_is_text,
                        bare: false,
                    };
                    (p, ProbeStep::Done(Some(probe)))
                },
                None => {
                    p.asked = ProbeQuestion::IsBare;
                    (p, ProbeStep::Ask(ProbeQuestion::IsBare))
                },
            },
            ProbeQuestion::IsBare => {
                let t = Some(String::from_str("true"));
                let bare = crate::text::opt_text_eq(&answer, &t);
                let (common, common_bytes) = p.common.as_ref().unwrap();
                let (git_dir, git_dir_bytes) = p.git_dir.as_ref().unwrap();
                let probe = Probe {
                    common: common.clone(),
                    git_dir: git_dir.clone(),
                    top: None,
                    common_bytes: clone_bytes(common_bytes),
                    git_dir_bytes: clone_bytes(git_dir_bytes),
                    top_bytes: None,
                    top_name_is_text: true,
                    bare,
                };
                (p, ProbeStep::Done(Some(probe)))
            },
        }
    }
}

/// Git is asked about the top-level worktree only once it named both Git directories, and
/// whether the repository is bare only when there is no top-level worktree; a probe without
/// both Git directories is nothing.
pub proof fn lemma_questions_follow_answers(
    v: ProbingView,
    answer: Option<Seq<char>>,
    bytes: Option<Seq<u8>>,
    name_is_text: bool,
)
    ensures
        probe_next(v, answer, bytes, name_is_text).1 == ProbeStepView::Ask(ProbeQuestion::TopLevel)
            ==> (v.asked == ProbeQuestion::GitDir && answer is Some),
        probe_next(v, answer, bytes, name_is_text).1 == ProbeStepView::Ask(ProbeQuestion::IsBare) ==> (
        v.asked == ProbeQuestion::TopLevel && answer is None),
        (v.asked == ProbeQuestion::CommonDir || v.asked == ProbeQuestion::GitDir) && answer is None
            ==> probe_next(v, answer, bytes, name_is_text).1 == ProbeStepView::Done(None),
        probe_next(v, answer, bytes, name_is_text).1 matches ProbeStepView::Done(Some(p)) ==> (p.bare
            ==> p.top is None),
{
}

/// An optional probe as the contracts see it.
pub open spec fn probe_view(p: Option<Probe>) -> Option<ProbeView> {
    match p {
        Some(p) => Some(p@),
        None => None,
    }
}

/// The probe recorded for the directory whose canonical path has the bytes `key`: the first
/// entry with that key, if any.
pub open spec fn cached(entries: Seq<(Seq<u8>, Option<ProbeView>)>, key: Seq<u8>) -> Option<
    Option<ProbeView>,
>
    decreases entries.len(),
{
    if entries.len() == 0 {
        None
    } else if entries[0].0 == key {
        Some(entries[0].1)
    } else {
        cached(entries.drop_first(), key)
    }
}

/// The probes already made, each directory known by its canonical path's bytes; a directory is
/// probed once however often it is asked about.
pub struct ProbeCache {
    entries: Vec<(Vec<u8>, Option<Probe>)>,
}

impl View for ProbeCache {
    type V = Seq<(Seq<u8>, Option<ProbeView>)>;

    closed spec fn view(&self) -> Seq<(Seq<u8>, Option<ProbeView>)> {
        self.entries@.map_values(|e: (Vec<u8>, Option<Probe>)| (e.0@, probe_view(e.1)))
    }
}

fn clone_probe(p: &Option<Probe>) -> (r: Option<Probe>)
    ensures
        probe_view(r) == probe_view(*p),
{
    match p {
        Some(p) => Some(p.clone()),
        None => None,
    }
}

fn bytes_eq(a: &Vec<u8>, b: &Vec<u8>) -> (r: bool)
    ensures
        r == (a@ == b@),
{
    if a.len() != b.len() {
        return false;
    }
    let mut i: usize = 0;
    while i < a.len()
        invariant
            i <= a@.len() == b@.len(),
            a@.take(i as int) == b@.take(i as int),
        decreases a@.len() - i,
    {
        if a[i] != b[i] {
            assert(a@[i as int] != b@[i as int]);
            return false;
        }
        assert(a@.take(i + 1) =~= a@.take(i as int).push(a@[i as int]));
        assert(b@.take(i + 1) =~= b@.take(i as int).push(b@[i as int]));
        i = i + 1;
    }
    assert(a@ =~= a@.take(i as int));
    assert(b@ =~= b@.take(i as int));
    true
}

impl ProbeCache {
    /// No probe made yet.
    pub fn new() -> (r: ProbeCache)
        ensures
            forall|key: Seq<u8>| cached(r@, key) is None,
    {
        let r = ProbeCache { entries: Vec::new() };
        assert(r@ =~= Seq::<(Seq<u8>, Option<ProbeView>)>::empty());
        r
    }

    /// The probe recorded for the directory with canonical path `key`, if one was made.
    pub fn lookup(&self, key: &Vec<u8>) -> (r: Option<Option<Probe>>)
        ensures
            match (r, cached(self@, key@)) {
                (Some(a), Some(b)) => probe_view(a) == b,
                (None, None) => true,
                _ => false,
            },
    {
        let mut i: usize = 0;
        assert(self@.skip(0) =~= self@);
        while i < self.entries.len()
            invariant
                i <= self.entries@.len(),
                cached(self@, key@) == cached(self@.skip(i as int), key@),
            decreases self.entries@.len() - i,
        {
            let ghost rest = self@.skip(i as int);
            assert(rest[0] == self@[i as int]);
            assert(rest.drop_first() =~= self@.skip(i + 1));
            if bytes_eq(&self.entries[i].0, key) {
                return Some(clone_probe(&self.entries[i].1));
            }
            i = i + 1;
        }
        assert(self@.skip(i as int) =~= Seq::<(Seq<u8>, Option<ProbeView>)>::empty());
        None
    }

    /// Records the probe of the directory with canonical path `key`: it reads back from now on,
    /// and what was recorded for every other directory stays.
    pub fn record(&mut self, key: Vec<u8>, probe: Option<Probe>)
        ensures
            cached(final(self)@, key@) == Some(probe_view(probe)),
            forall|other: Seq<u8>| other != key@ ==> cached(final(self)@, other) == cached(old(self)@, other),
    {
        let ghost k = key@;
        let ghost v = probe_view(probe);
        let mut i: usize = 0;
        while i < self.entries.len()
            invariant
                i <= self.entries@.len(),
                self@ == old(self)@,
                forall|j: int| 0 <= j < i ==> (#[trigger] self@[j]).0 != k,
                k == key@,
                v == probe_view(probe),
            decreases self.entries@.len() - i,
        {
            if bytes_eq(&self.entries[i].0, &key) {
                let ghost before = self@;
                let ghost raw = self.entries@;
                let entry = (key, probe);
                assert(entry.0@ == k && probe_view(entry.1) == v);
                self.entries.set(i, entry);
                proof {
                    assert(self.entries@ == raw.update(i as int, entry));
                    assert forall|j: int| 0 <= j < self@.len() implies #[trigger] self@[j] == before.update(
                        i as int,
                        (k, v),
                    )[j] by {
                        if j != i {
                            assert(self.entries@[j] == raw[j]);
                        }
                    }
                    assert(self@ =~= before.update(i as int, (k, v)));
                    lemma_cached_update(before, i as int, k, v);
                }
                return;
            }
            i = i + 1;
        }
        let ghost before = self@;
        let ghost raw = self.entries@;
        let entry = (key, probe);
        assert(entry.0@ == k && probe_view(entry.1) == v);
        self.entries.push(entry);
        proof {
            assert(self.entries@ == raw.push(entry));
            assert forall|j: int| 0 <= j < self@.len() implies #[trigger] self@[j] == before.push((k, v))[j] by {
                if j < raw.len() {
                    assert(self.entries@[j] == raw[j]);
                }
            }
            assert(self@ =~= before.push((k, v)));
            lemma_cached_push(before, k, v);
        }
    }
}

/// Probing one directory, known by its canonical path's bytes, for a cache.
#[derive(Debug)]
pub struct ProbeRun {
    key: Vec<u8>,
    probing: Probing,
}

impl ProbeRun {
    /// The directory's canonical path's bytes.
    pub closed spec fn key(&self) -> Seq<u8> {
        self.key@
    }

    /// Where its probe has come to.
    pub closed spec fn state(&self) -> ProbingView {
        self.probing@
    }

    /// Its probe can take an answer.
    pub closed spec fn wf(&self) -> bool {
        self.probing.wf()
    }
}

/// What to do next while probing through the cache: ask Git, or stop with the probe.
#[derive(Debug)]
pub enum RunStep {
    Ask(ProbeRun, ProbeQuestion),
    Done(Option<Probe>),
}

impl ProbeCache {
    /// Starts probing a directory, known by its canonical path's bytes (`None` when the path
    /// could not be made canonical, which gives no probe). A directory already probed is
    /// answered from the cache, and Git is asked nothing; else Git is asked for the common
    /// directory. The cache does not change.
    pub fn begin(&self, key: Option<Vec<u8>>) -> (r: RunStep)
        ensures
            match key {
                None => r matches RunStep::Done(p) && p is None,
                Some(k) => match cached(self@, k@) {
                    Some(p) => r matches RunStep::Done(q) && probe_view(q) == p,
                    None => r matches RunStep::Ask(run, q) && q == ProbeQuestion::CommonDir
                        && run.wf() && run.key() == k@ && run.state() == (ProbingView {
                        asked: ProbeQuestion::CommonDir,
                        common: None,
                        git_dir: None,
                    }),
                },
            },
    {
        match key {
            None => RunStep::Done(None),
            Some(k) => match self.lookup(&k) {
                Some(p) => RunStep::Done(p),
                None => {
                    let (probing, _) = Probing::start();
                    RunStep::Ask(ProbeRun { key: k, probing }, ProbeQuestion::CommonDir)
                },
            },
        }
    }

    /// Takes Git's answer to the last question of `run` (see `probe_next`). When the probe is
    /// done it is recorded for the directory, and every other directory's record stays; until
    /// then the cache does not change. A bare probe has no top-level worktree.
    pub fn answer(
        &mut self,
        run: ProbeRun,
        answer: Option<String>,
        bytes: Option<Vec<u8>>,
        name_is_text: bool,
    ) -> (r: RunStep)
        requires
            run.wf(),
        ensures
            match probe_next(run.state(), opt_text(answer), opt_bytes(bytes), name_is_text) {
                (next, ProbeStepView::Ask(q)) => r matches RunStep::Ask(n, p) && p == q && n.wf()
                    && n.key() == run.key() && n.state() == next && final(self)@ == old(self)@,
                (_, ProbeStepView::Done(p)) => r matches RunStep::Done(q) && probe_view(q) == p
                    && cached(final(self)@, run.key()) == Some(p) && forall|other: Seq<u8>|
                    other != run.key() ==> cached(final(self)@, other) == cached(old(self)@, other),
            },
            r matches RunStep::Done(Some(p)) ==> (p.bare ==> p.top is None),
    {
        let ProbeRun { key, probing } = run;
        let (probing, step) = probing.step(answer, bytes, name_is_text);
        match step {
            ProbeStep::Ask(q) => RunStep::Ask(ProbeRun { key, probing }, q),
            ProbeStep::Done(p) => {
                let kept = clone_probe(&p);
                self.record(key, kept);
                RunStep::Done(p)
            },
        }
    }
}

proof fn lemma_cached_update(
    s: Seq<(Seq<u8>, Option<ProbeView>)>,
    i: int,
    k: Seq<u8>,
    v: Option<ProbeView>,
)
    requires
        0 <= i < s.len(),
        s[i].0 == k,
        forall|j: int| 0 <= j < i ==> (#[trigger] s[j]).0 != k,
    ensures
        cached(s.update(i, (k, v)), k) == Some(v),
        forall|other: Seq<u8>| other != k ==> cached(s.update(i, (k, v)), other) == cached(s, other),
    decreases i,
{
    let t = s.update(i, (k, v));
    if i > 0 {
        assert(t.drop_first() =~= s.drop_first().update(i - 1, (k, v)));
        assert forall|j: int| 0 <= j < i - 1 implies (#[trigger] s.drop_first()[j]).0 != k by {
            assert(s.drop_first()[j] == s[j + 1]);
        }
        lemma_cached_update(s.drop_first(), i - 1, k, v);
        assert(s[0].0 != k);
        assert(t[0] == s[0]);
        assert forall|other: Seq<u8>| other != k implies cached(t, other) == cached(s, other) by {
            if s[0].0 != other {
                assert(cached(t, other) == cached(t.drop_first(), other));
                assert(cached(s.drop_first().update(i - 1, (k, v)), other) == cached(
                    s.drop_first(),
                    other,
                ));
            }
        }
    } else {
        assert forall|other: Seq<u8>| other != k implies cached(t, other) == cached(s, other) by {
            assert(t.drop_first() =~= s.drop_first());
        }
    }
}

proof fn lemma_cached_push(s: Seq<(Seq<u8>, Option<ProbeView>)>, k: Seq<u8>, v: Option<ProbeView>)
    requires
        forall|j: int| 0 <= j < s.len() ==> (#[trigger] s[j]).0 != k,
    ensures
        cached(s.push((k, v)), k) == Some(v),
        forall|other: Seq<u8>| other != k ==> cached(s.push((k, v)), other) == cached(s, other),
    decreases s.len(),
{
    let t = s.push((k, v));
    if s.len() == 0 {
        assert(t.drop_first() =~= Seq::<(Seq<u8>, Option<ProbeView>)>::empty());
        assert(t[0] == (k, v));
        assert forall|other: Seq<u8>| other != k implies cached(t, other) == cached(s, other) by {
            assert(cached(t, other) == cached(t.drop_first(), other));
        }
    } else {
        assert(t.drop_first() =~= s.drop_first().push((k, v)));
        assert(t[0] == s[0]);
        assert(s[0].0 != k);
        assert forall|j: int| 0 <= j < s.drop_first().len() implies (#[trigger] s.drop_first()[j]).0 != k by {
            assert(s.drop_first()[j] == s[j + 1]);
        }
        lemma_cached_push(s.drop_first(), k, v);
        assert forall|other: Seq<u8>| other != k implies cached(t, other) == cached(s, other) by {
            if s[0].0 != other {
                assert(cached(t, other) == cached(t.drop_first(), other));
                assert(cached(s.drop_first().push((k, v)), other) == cached(s.drop_first(), other));
            }
        }
    }
}

} // verus!
