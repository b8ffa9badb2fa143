use grove::path::NameText;
use grove::config::{Config, Preset, Window};
use grove::git::{BareRepository, Checkout, Probe, Repository};
use grove::opening::{OpenAction, OpenEvent, Opening};
use grove::tmux::{CreateAction, Session, Tmux};

const HOME: &str = "/tmp/fixture";

fn path(rest: &str) -> String {
    format!("{HOME}/repos/{rest}")
}

fn ordinary() -> Checkout {
    Checkout {
        worktree_bytes: None,
        name_is_text: true,
        repo: path("ordinary/.git"),
        worktree: path("ordinary"),
        repo_name: "ordinary".into(),
        branch: Some("main".into()),
        linked: false,
    }
}

fn topic() -> Checkout {
    Checkout {
        worktree_bytes: None,
        name_is_text: true,
        repo: path("repo.git"),
        worktree: path("repo.git/feature/topic"),
        repo_name: "repo".into(),
        branch: Some("feature/topic".into()),
        linked: true,
    }
}

fn bare(name: &str) -> Repository {
    Repository::Bare(BareRepository { common_bytes: None, path_bytes: None, common_names: NameText::text(), common: path(name), path: path(name) })
}

fn discovered() -> Vec<Repository> {
    vec![Repository::Checkout(ordinary()), bare("repo.git"), bare("zzz.git")]
}

fn config(nerd_fonts: bool) -> Config {
    Config {
        roots: vec![path("")],
        max_depth: 1,
        nerd_fonts,
        presets: vec![Preset { name: "custom".into(), windows: Vec::<Window>::new() }],
        defaults: vec![],
    }
}

/// What Git reports for an unchanged checkout.
fn probe_of(c: &Checkout) -> Probe {
    let git_dir = if c.linked { format!("{}/worktrees/topic", c.repo) } else { c.repo.clone() };
    Probe { common_bytes: None, git_dir_bytes: None, top_bytes: None, top_name_is_text: true, common: c.repo.clone(), git_dir, top: Some(c.worktree.clone()), bare: false }
}

/// A session whose metadata stores `worktree`, under a name of its own.
fn reusable(worktree: &str) -> Session {
    Session {
        id: "$7".into(),
        name: "old manually named session".into(),
        repo: Some("repo".into()),
        worktree: Some(worktree.into()),
        label_meta: None,
        name_meta: None,
        branch: None,
        activity: 0,
    }
}

/// The answers that the pickers, Git and tmux give, in the order they are asked.
struct World {
    choices: Vec<&'static str>,
    sessions: Vec<Session>,
    inspected: Option<Repository>,
    /// The probe (counted from 1) at which the checkout turns out changed.
    changed_at: Option<usize>,
}

impl World {
    fn picking(choices: &[&'static str]) -> World {
        World { choices: choices.to_vec(), sessions: vec![], inspected: None, changed_at: None }
    }
}

/// What happened: the pickers shown, the Git and tmux requests made, and the outcome.
struct Run {
    prompts: Vec<String>,
    inputs: Vec<Vec<(String, String)>>,
    requests: Vec<String>,
    result: Result<Option<String>, String>,
}

impl Run {
    fn tmux(&self) -> Vec<&String> {
        self.requests
            .iter()
            .filter(|r| r.starts_with("list-sessions") || r.starts_with("create") || r.starts_with("navigate"))
            .collect()
    }

    fn created(&self) -> Option<&String> {
        self.requests.iter().find(|r| r.starts_with("create"))
    }
}

/// Every tmux command that creating a session issues when tmux accepts each one, each argument
/// followed by NUL.
fn created(name: &str, checkout: &Checkout, preset: &Preset) -> Vec<String> {
    let (mut creation, first) = Tmux::new(None, None).create(name, checkout, preset);
    let logged = |argv: &[String]| argv.iter().map(|a| format!("{a}\0")).collect::<String>();
    let mut commands = vec![logged(&first)];
    let mut reply = "$8\t@1\n".to_string();
    loop {
        let (next, action) = creation.step(Ok(reply));
        creation = next;
        match action {
            CreateAction::Run(argv) => commands.push(logged(&argv)),
            CreateAction::Finished(result) => {
                assert_eq!(result.unwrap(), "$8");
                return commands;
            }
        }
        reply = String::new();
    }
}

fn run(start: (Opening, OpenAction), mut world: World) -> Run {
    let known: Vec<Checkout> = vec![ordinary(), topic()];
    let (mut opening, mut action) = start;
    let mut out = Run { prompts: vec![], inputs: vec![], requests: vec![], result: Ok(None) };
    let mut probes = 0;
    let mut choices = world.choices.drain(..);
    loop {
        let event = match action {
            OpenAction::Discover => OpenEvent::Repositories(discovered()),
            OpenAction::Inspect(p) => {
                out.requests.push(format!("inspect {p}"));
                OpenEvent::Inspected(world.inspected.clone())
            }
            OpenAction::Pick(prompt, items) => {
                out.prompts.push(prompt);
                out.inputs.push(items);
                let choice = choices.next().expect("a picker answer");
                OpenEvent::Picked((choice != "cancel").then(|| choice.to_string()))
            }
            OpenAction::ListWorktrees(b) => {
                out.requests.push(format!("worktrees {}", b.path));
                let listed = if b.path.ends_with("repo.git") { vec![topic()] } else { vec![] };
                OpenEvent::Worktrees(listed)
            }
            OpenAction::Probe(w) => {
                probes += 1;
                out.requests.push(format!("probe {w}"));
                if world.changed_at == Some(probes) {
                    OpenEvent::Probed(None)
                } else {
                    OpenEvent::Probed(known.iter().find(|c| c.worktree == w).map(probe_of))
                }
            }
            OpenAction::ListSessions => {
                out.requests.push("list-sessions".into());
                OpenEvent::Sessions(world.sessions.clone())
            }
            OpenAction::Create(name, checkout, preset) => {
                out.requests.push(format!("create {}", created(&name, &checkout, &preset).join("\n")));
                OpenEvent::Created("$8".into())
            }
            OpenAction::Navigate(id) => {
                out.requests.push(format!("navigate {id}"));
                OpenEvent::Navigated
            }
            OpenAction::Finished(result) => {
                out.result = result.map_err(|e| e.message());
                return out;
            }
        };
        (opening, action) = opening.step(event);
    }
}

fn open(config: &Config, world: World) -> Run {
    run(Opening::open(config, "/c/grove/config.toml".into(), vec![HOME.into()]), world)
}

fn open_path(config: &Config, at: &str, preset: Option<&str>, world: World) -> Run {
    run(
        Opening::open_path(
            config,
            "/c/grove/config.toml".into(),
            vec![HOME.into()],
            at.into(),
            preset.map(str::to_owned),
        ),
        world,
    )
}

#[test]
fn cancellation_at_repository_worktree_and_layout_and_empty_bare_are_noops() {
    let config = config(true);
    for choices in [&["cancel"][..], &["1", "cancel"], &["0", "cancel"], &["1", "0", "cancel"]] {
        let done = open(&config, World::picking(choices));
        assert_eq!(done.result, Ok(None));
        assert_eq!(done.prompts.len(), choices.len());
        assert!(done.created().is_none());
        if choices.len() == 1 || choices == ["1", "cancel"] {
            assert!(done.tmux().is_empty());
        }
    }
    let done = open(&config, World::picking(&["2"]));
    assert!(done.result.as_ref().unwrap().as_ref().unwrap().contains("no active worktrees"));
    assert!(done.tmux().is_empty());
}

#[test]
fn normal_bypasses_worktree_picker_bare_uses_it_and_metadata_reuse_skips_layout() {
    for nerd_fonts in [true, false] {
        let config = config(nerd_fonts);
        let done = open(&config, World::picking(&["0", "0"]));
        assert_eq!(done.prompts, ["repository> ", "layout> "]);
        let initial: Vec<&String> = done.inputs[0].iter().map(|(_, label)| label).collect();
        let marker = if nerd_fonts { "\u{f418}" } else { "[bare]" };
        assert!(initial[1].starts_with(&format!("{marker}  repo  ")));
        let marker_width = if nerd_fonts { 1 } else { 6 };
        assert!(initial[0].starts_with(&format!("{}ordinary", " ".repeat(marker_width + 2))));
        assert_eq!(
            done.inputs[1],
            [("0".to_string(), "shell (one shell window)".to_string()), ("1".to_string(), "custom".to_string())]
        );
        assert!(initial[0].contains("~/repos/ordinary") && initial[1].contains("~/repos/repo.git"));
        assert!(initial.iter().all(|l| !l.contains("feature/topic") && !l.contains("branch:")));
        let created = done.created().unwrap();
        assert!(created.contains("-s\0ordinary\0"));
        assert!(created.contains(&format!("-c\0{}\0", path("ordinary"))));

        let done = open(&config, World::picking(&["1", "0", "0"]));
        assert_eq!(done.prompts, ["repository> ", "worktree> ", "layout> "]);
        let linked = &done.inputs[1][0].1;
        assert!(linked.starts_with("   repo/topic"));
        assert!(!linked.contains('\u{f418}') && !linked.contains("[bare]"));
        assert!(linked.contains("~/repos/repo.git/feature/topic"));
        let branch = grove::branch_label(Some("feature/topic"), nerd_fonts);
        assert!(linked.contains(&branch), "{linked}");
        let created = done.created().unwrap();
        assert!(created.contains("-s\0repo/topic\0"));
        assert!(created.contains(&format!("-c\0{}\0", path("repo.git/feature/topic"))));
    }
    let config = config(true);
    for (choices, worktree) in [(&["0"][..], path("ordinary")), (&["1", "0"][..], path("repo.git/feature/topic"))] {
        let mut world = World::picking(choices);
        world.sessions = vec![reusable(&worktree)];
        let done = open(&config, world);
        assert_eq!(done.result, Ok(None));
        assert_eq!(done.requests.last().unwrap(), "navigate $7");
        assert!(done.created().is_none());
        assert_eq!(done.prompts.len(), choices.len());
    }
}

#[test]
fn changed_checkout_is_rejected_after_checkout_and_layout_pickers() {
    let config = config(false);
    for linked in [false, true] {
        for layout in [false, true] {
            let mut choices = vec![if linked { "1" } else { "0" }];
            if linked {
                choices.push("0");
            }
            if layout {
                choices.push("0");
            }
            let worktree = if linked { path("repo.git/feature/topic") } else { path("ordinary") };
            let mut world = World::picking(&choices);
            if !layout {
                world.sessions = vec![reusable(&worktree)];
            }
            world.changed_at = Some(if layout { 2 } else { 1 });
            let done = open(&config, world);
            let error = done.result.as_ref().unwrap_err();
            assert!(error.contains("no longer the same non-bare Git worktree"), "{error}");
            assert!(error.contains("rerun grove and select it again"), "{error}");
            assert!(done.requests.iter().all(|r| !r.starts_with("create") && !r.starts_with("navigate")));
            if !layout {
                assert!(done.tmux().is_empty(), "validation must precede session reuse");
            }
        }
    }
}

#[test]
fn explicit_path_uses_named_preset_without_a_picker() {
    let config = Config { roots: vec![], ..config(false) };
    let mut world = World::picking(&[]);
    world.inspected = Some(Repository::Checkout(ordinary()));
    let done = open_path(&config, &path("ordinary"), Some("custom"), world);
    assert_eq!(done.result, Ok(None));
    assert!(done.prompts.is_empty());
    assert!(done.created().unwrap().contains(&format!("-s\0ordinary\0-c\0{}\0", path("ordinary"))));
    assert_eq!(done.requests.last().unwrap(), "navigate $8");
}

#[test]
fn explicit_linked_path_uses_linked_name_and_metadata() {
    let mut world = World::picking(&[]);
    world.inspected = Some(Repository::Checkout(topic()));
    let done = open_path(&config(false), &path("repo.git/feature/topic"), Some("custom"), world);
    assert_eq!(done.result, Ok(None));
    let created = done.created().unwrap();
    assert!(created.contains("-s\0repo/topic\0"), "{created}");
    let worktree: String = path("repo.git/feature/topic").bytes().map(|b| format!("{b:02x}")).collect();
    assert!(created.contains(&format!("@grove_worktree\0{worktree}\0")), "{created}");
}

#[test]
fn explicit_path_without_preset_selects_or_cancels_a_layout() {
    for (choice, creates) in [("1", true), ("cancel", false)] {
        let mut world = World::picking(&[choice]);
        world.inspected = Some(Repository::Checkout(ordinary()));
        let done = open_path(&config(false), &path("ordinary"), None, world);
        assert_eq!(done.result, Ok(None));
        assert_eq!(done.prompts, ["layout> "]);
        assert_eq!(done.created().is_some(), creates);
    }
}

#[test]
fn explicit_path_errors_and_reuses_before_preset_lookup() {
    let mut world = World::picking(&[]);
    world.inspected = Some(Repository::Checkout(ordinary()));
    let done = open_path(&config(false), &path("ordinary"), Some("missing"), world);
    assert!(done.result.as_ref().unwrap_err().contains("unknown preset \"missing\""));
    assert!(done.requests.iter().any(|r| r == "list-sessions"));
    assert!(done.created().is_none());

    let mut world = World::picking(&[]);
    world.inspected = Some(Repository::Checkout(ordinary()));
    world.sessions = vec![reusable(&path("ordinary"))];
    let done = open_path(&config(false), &path("ordinary"), Some("missing"), world);
    assert_eq!(done.result, Ok(None));
    assert_eq!(done.requests.last().unwrap(), "navigate $7");
    assert!(done.prompts.is_empty());
}

#[test]
fn explicit_path_preserves_collision_and_rejects_invalid_paths() {
    let mut world = World::picking(&[]);
    world.inspected = Some(Repository::Checkout(ordinary()));
    world.sessions = vec![Session {
        id: "$foreign".into(),
        name: "ordinary".into(),
        repo: None,
        worktree: None,
        label_meta: None,
        name_meta: None,
        branch: None,
        activity: 0,
    }];
    let done = open_path(&config(false), &path("ordinary"), Some("custom"), world);
    assert_eq!(done.result, Ok(None));
    assert!(done.created().unwrap().contains("-s\0ordinary-"));

    for (invalid, inspected) in [(path("repo.git"), Some(bare("repo.git"))), (HOME.to_string(), None)] {
        let mut world = World::picking(&[]);
        world.inspected = inspected;
        let done = open_path(&config(false), &invalid, Some("custom"), world);
        assert!(done.result.is_err());
        assert!(done.tmux().is_empty());
    }
}

#[test]
fn explicit_path_revalidates_after_layout_selection() {
    let mut world = World::picking(&["0"]);
    world.inspected = Some(Repository::Checkout(ordinary()));
    world.changed_at = Some(2);
    let done = open_path(&config(false), &path("ordinary"), None, world);
    assert!(done.result.as_ref().unwrap_err().contains("no longer the same non-bare Git worktree"));
    assert!(done.created().is_none());
}

#[test]
fn cancellation_after_checkout_disappears_remains_a_noop() {
    let config = config(false);
    for choices in [&["cancel"][..], &["1", "cancel"], &["0", "cancel"], &["1", "0", "cancel"]] {
        let mut world = World::picking(choices);
        // The checkout vanishes while the last picker waits; no probe follows a cancellation.
        world.changed_at = Some(2);
        let done = open(&config, world);
        assert_eq!(done.result, Ok(None));
        assert!(done.requests.iter().all(|r| !r.starts_with("create") && !r.starts_with("navigate")));
    }
}
