use grove::path::NameText;
use grove::config::{Config, DefaultSession, Pane, Preset, Window};
use grove::git::{BareRepository, Checkout, Probe, Repository, Visit, listed_worktrees, needs_resolution, visit};
use grove::opening::{OpenAction, OpenError, OpenEvent, Opening};
use grove::refresh::{refresh_lists_sessions, refresh_plan, RefreshAction, Refreshing};
use grove::picker::picker_input;
use grove::switching::{
    close, close_allowed, switch_target, CloseAction, CloseEvent, CloseFailure, Closing,
};
use grove::tmux::{CreateAction, Session, Tmux};
use unicode_width::UnicodeWidthStr;

fn session(id: &str, name: &str, worktree: Option<&str>) -> Session {
    Session {
        id: id.into(),
        name: name.into(),
        repo: None,
        worktree: worktree.map(str::to_owned),
        label_meta: None,
        name_meta: None,
        branch: None,
        activity: 0,
    }
}

fn config() -> Config {
    Config {
        roots: vec!["/repos".into()],
        nerd_fonts: false,
        presets: vec![Preset {
            name: "custom".into(),
            windows: vec![Window { name: "main".into(), panes: vec![] }],
        }],
        ..Config::default()
    }
}

fn ordinary() -> Checkout {
    Checkout {
        worktree_bytes: None,
        name_is_text: true,
        repo: "/repos/ordinary/.git".into(),
        worktree: "/repos/ordinary".into(),
        repo_name: "ordinary".into(),
        branch: Some("main".into()),
        linked: false,
    }
}

fn same_probe(c: &Checkout) -> Probe {
    Probe { common_bytes: None, git_dir_bytes: None, top_bytes: None, top_name_is_text: true, common: c.repo.clone(), git_dir: c.repo.clone(), top: Some(c.worktree.clone()), bare: false }
}

fn finished(action: OpenAction) -> Result<Option<String>, OpenError> {
    match action {
        OpenAction::Finished(result) => result,
        other => panic!("unexpected {other:?}"),
    }
}

#[test]
fn opening_without_roots_is_an_error() {
    let empty = Config::default();
    let (_, action) = Opening::open(&empty, "/c/grove/config.toml".into(), vec![]);
    let error = finished(action).unwrap_err();
    assert_eq!(error.message(), "no search roots configured in /c/grove/config.toml");
}

#[test]
fn opening_a_checkout_creates_a_session_after_two_probes() {
    let config = config();
    let (opening, action) = Opening::open(&config, "/c".into(), vec!["/repos".into()]);
    assert!(matches!(action, OpenAction::Discover));
    let repos = vec![
        Repository::Checkout(ordinary()),
        Repository::Bare(BareRepository { common_bytes: None, path_bytes: None, common_names: NameText::text(), common: "/repos/repo.git".into(), path: "/repos/repo.git".into() }),
    ];
    let (opening, action) = opening.step(OpenEvent::Repositories(repos));
    match &action {
        OpenAction::Pick(prompt, choices) => {
            assert_eq!(prompt, "repository> ");
            assert_eq!(choices[0], ("0".to_string(), "        ordinary  ~/ordinary".to_string()));
            assert_eq!(choices[1], ("1".to_string(), "[bare]  repo      ~/repo.git".to_string()));
        }
        other => panic!("unexpected {other:?}"),
    }
    let (opening, action) = opening.step(OpenEvent::Picked(Some("0".into())));
    assert!(matches!(&action, OpenAction::Probe(w) if w == "/repos/ordinary"));
    let (opening, action) = opening.step(OpenEvent::Probed(Some(same_probe(&ordinary()))));
    assert!(matches!(action, OpenAction::ListSessions));
    let running = vec![session("$1", "ordinary", None)];
    let (opening, action) = opening.step(OpenEvent::Sessions(running));
    match &action {
        OpenAction::Pick(prompt, choices) => {
            assert_eq!(prompt, "layout> ");
            assert_eq!(choices.len(), 2);
            assert_eq!(choices[1].1, "custom");
        }
        other => panic!("unexpected {other:?}"),
    }
    let (opening, action) = opening.step(OpenEvent::Picked(Some("1".into())));
    assert!(matches!(action, OpenAction::Probe(_)));
    let (opening, action) = opening.step(OpenEvent::Probed(Some(same_probe(&ordinary()))));
    match &action {
        OpenAction::Create(name, checkout, preset) => {
            assert!(name.starts_with("ordinary-"));
            assert_eq!(checkout, &ordinary());
            assert_eq!(preset.name, "custom");
        }
        other => panic!("unexpected {other:?}"),
    }
    let (opening, action) = opening.step(OpenEvent::Created("$9".into()));
    assert!(matches!(&action, OpenAction::Navigate(id) if id == "$9"));
    let (_, action) = opening.step(OpenEvent::Navigated);
    assert_eq!(finished(action).unwrap(), None);
}

#[test]
fn opening_reuses_the_session_of_the_worktree() {
    let config = config();
    let (opening, _) = Opening::open(&config, "/c".into(), vec![]);
    let (opening, _) = opening.step(OpenEvent::Repositories(vec![Repository::Checkout(ordinary())]));
    let (opening, _) = opening.step(OpenEvent::Picked(Some("0".into())));
    let (opening, _) = opening.step(OpenEvent::Probed(Some(same_probe(&ordinary()))));
    let running = vec![
        session("$3", "x", Some("/repos/other")),
        session("$7", "old manually named session", Some("/repos/ordinary")),
    ];
    let (_, action) = opening.step(OpenEvent::Sessions(running));
    assert!(matches!(&action, OpenAction::Navigate(id) if id == "$7"));
}

#[test]
fn opening_stops_quietly_or_with_the_reason() {
    let config = config();
    let bare = BareRepository { common_bytes: None, path_bytes: None, common_names: NameText::text(), common: "/repos/repo.git".into(), path: "/repos/repo.git".into() };
    let (opening, _) = Opening::open(&config, "/c".into(), vec![]);
    let (opening, _) = opening.step(OpenEvent::Repositories(vec![Repository::Bare(bare.clone())]));
    let (opening, action) = opening.step(OpenEvent::Picked(Some("0".into())));
    assert!(matches!(&action, OpenAction::ListWorktrees(b) if *b == bare));
    let (_, action) = opening.step(OpenEvent::Worktrees(vec![]));
    assert_eq!(finished(action).unwrap().as_deref(), Some("no active worktrees in /repos/repo.git"));

    let (opening, _) = Opening::open(&config, "/c".into(), vec![]);
    let (_, action) = opening.step(OpenEvent::Repositories(vec![]));
    assert_eq!(
        finished(action).unwrap_err().message(),
        "no Git repositories found; configure search roots in /c"
    );

    let (opening, _) = Opening::open(&config, "/c".into(), vec![]);
    let (opening, _) = opening.step(OpenEvent::Repositories(vec![Repository::Checkout(ordinary())]));
    let (_, action) = opening.step(OpenEvent::Picked(None));
    assert_eq!(finished(action).unwrap(), None);

    let (opening, _) = Opening::open(&config, "/c".into(), vec![]);
    let (opening, _) = opening.step(OpenEvent::Repositories(vec![Repository::Checkout(ordinary())]));
    let (_, action) = opening.step(OpenEvent::Picked(Some("4".into())));
    assert_eq!(finished(action).unwrap_err().message(), "fzf selected an unknown repository");

    let (opening, _) = Opening::open(&config, "/c".into(), vec![]);
    let (opening, _) = opening.step(OpenEvent::Repositories(vec![Repository::Checkout(ordinary())]));
    let (opening, _) = opening.step(OpenEvent::Picked(Some("0".into())));
    let (_, action) = opening.step(OpenEvent::Probed(None));
    assert!(finished(action).unwrap_err().message().contains("no longer the same non-bare Git worktree"));
}

#[test]
fn explicit_paths_use_the_named_preset_and_refuse_what_is_not_a_checkout() {
    let config = config();
    let (opening, action) = Opening::open_path(
        &config,
        "/c".into(),
        vec![],
        "/repos/ordinary".into(),
        Some("custom".into()),
    );
    assert!(matches!(&action, OpenAction::Inspect(p) if p == "/repos/ordinary"));
    let (opening, _) = opening.step(OpenEvent::Inspected(Some(Repository::Checkout(ordinary()))));
    let (opening, _) = opening.step(OpenEvent::Probed(Some(same_probe(&ordinary()))));
    let (opening, action) = opening.step(OpenEvent::Sessions(vec![]));
    assert!(matches!(action, OpenAction::Probe(_)));
    let (_, action) = opening.step(OpenEvent::Probed(Some(same_probe(&ordinary()))));
    assert!(matches!(&action, OpenAction::Create(name, _, preset) if name == "ordinary" && preset.name == "custom"));

    let (opening, _) = Opening::open_path(&config, "/c".into(), vec![], "/repos/ordinary".into(), Some("missing".into()));
    let (opening, _) = opening.step(OpenEvent::Inspected(Some(Repository::Checkout(ordinary()))));
    let (opening, _) = opening.step(OpenEvent::Probed(Some(same_probe(&ordinary()))));
    let (_, action) = opening.step(OpenEvent::Sessions(vec![]));
    assert_eq!(finished(action).unwrap_err().message(), "unknown preset \"missing\"");

    let (opening, _) = Opening::open_path(&config, "/c".into(), vec![], "/repos/repo.git".into(), None);
    let bare = BareRepository { common_bytes: None, path_bytes: None, common_names: NameText::text(), common: "/repos/repo.git".into(), path: "/repos/repo.git".into() };
    let (_, action) = opening.step(OpenEvent::Inspected(Some(Repository::Bare(bare))));
    assert!(matches!(finished(action), Err(OpenError::NotACheckout(p)) if p == "/repos/repo.git"));
}

fn default(name: &str, cwd: &str) -> DefaultSession {
    DefaultSession { name: name.into(), cwd: cwd.into(), windows: vec![] }
}

#[test]
fn refresh_creates_missing_defaults_without_fzf_or_git() {
    let config = Config {
        defaults: vec![default("first", "/tmp/default cwd"), default("second", "/tmp/default cwd")],
        ..Config::default()
    };
    let defaults = &config.defaults;
    assert!(refresh_lists_sessions(&config));
    let plan = refresh_plan(defaults, &listed(""), false);
    assert_eq!(plan.len(), 2);
    assert_eq!((plan[0].default, plan[1].default), (0, 1));
    assert!(plan.iter().all(|step| step.kill.is_empty()));
    let tmux = fake_tmux();
    let (_, first) = tmux.create_default(&defaults[plan[0].default]);
    let (_, second) = tmux.create_default(&defaults[plan[1].default]);
    assert!(first.windows(2).any(|w| w == ["-s", "first"]));
    assert!(second.windows(2).any(|w| w == ["-s", "second"]));
}

#[test]
fn refresh_skips_collisions_and_force_kills_ids_before_recreating() {
    let defaults = vec![default("main", "/tmp"), default("other", "/tmp")];
    let plan = refresh_plan(&defaults, &listed("$foreign:main::::::0\n"), false);
    assert_eq!(plan.len(), 1);
    assert_eq!(plan[0].default, 1);
    assert!(plan[0].kill.is_empty());
    let plan = refresh_plan(&defaults, &listed("$one:main::::::0\n$two:other::::::0\n"), true);
    assert_eq!(plan.len(), 2);
    assert_eq!(plan[0].kill, ["$one"]);
    assert_eq!(plan[0].default, 0);
    assert_eq!(plan[1].kill, ["$two"]);
    assert_eq!(plan[1].default, 1);
    let running = vec![session("$one", "main", None), session("$two", "other", None), session("$1b", "main", None)];
    let plan = refresh_plan(&defaults, &running, true);
    assert_eq!(plan[0].kill, ["$one", "$1b"]);
    assert_eq!(plan[1].kill, ["$two"]);
    assert!(!refresh_lists_sessions(&Config::default()));
    assert!(refresh_lists_sessions(&Config { defaults, ..Config::default() }));
}

#[test]
fn refresh_stops_at_first_creation_error_and_preserves_literal_argv() {
    let tmux = fake_tmux();
    let first = DefaultSession {
        name: "first".into(),
        cwd: "/tmp/fixture".into(),
        windows: vec![Window {
            name: "window".into(),
            panes: vec![Pane { command: vec!["echo space".into(), "界".into(), "$(literal)".into()] }],
        }],
    };
    let (creation, argv) = tmux.create_default(&first);
    assert!(argv.ends_with(&["--", "/usr/bin/env", "--", "echo space", "界", "$(literal)"].map(String::from)));
    let (_, action) = creation.step(Err("tmux new-session: failed".into()));
    assert!(matches!(action, CreateAction::Finished(Err(_))), "{action:?}");
}

#[test]
fn defaults_only_refresh_succeeds_but_open_requires_roots() {
    let roots_only = Config { roots: vec!["/tmp/fixture".into()], ..Config::default() };
    assert!(!refresh_lists_sessions(&roots_only));
    let defaults_only = Config { defaults: vec![default("main", "/tmp/fixture")], ..Config::default() };
    assert!(refresh_lists_sessions(&defaults_only));
    let (_, action) = Opening::open(&defaults_only, "/c/grove/config.toml".into(), vec![]);
    assert!(finished(action).unwrap_err().message().contains("no search roots configured"));
}

#[test]
fn default_sessions_are_created_without_metadata() {
    let tmux = Tmux::new(None, None);
    let default = DefaultSession {
        name: "first".into(),
        cwd: "/tmp/default cwd".into(),
        windows: vec![Window {
            name: "window".into(),
            panes: vec![Pane { command: vec!["echo space".into(), "界".into(), "$(literal)".into()] }],
        }],
    };
    let (creation, first) = tmux.create_default(&default);
    assert_eq!(
        first,
        [
            "new-session", "-d", "-P", "-F", "#{session_id}\t#{window_id}", "-s", "first", "-c",
            "/tmp/default cwd", "--", "/usr/bin/env", "--", "echo space", "界", "$(literal)"
        ]
    );
    let (creation, action) = creation.step(Ok("$2\t@5\n".into()));
    assert!(matches!(&action, CreateAction::Run(a) if a[0] == "rename-window" && a[3] == "window"));
    let (_, action) = creation.step(Ok(String::new()));
    assert!(matches!(action, CreateAction::Finished(Ok(id)) if id == "$2"));
}

#[test]
fn closing_needs_tmux_and_another_session() {
    assert!(close_allowed(true).is_ok());
    assert_eq!(close_allowed(false).unwrap_err().message(), "grove close must be run inside tmux");
    assert!(close(vec![session("$current", "c", None)], "$current", false, true, &vec![]).is_none());
    let (offered, _) = close(
        vec![session("$current", "c", None), session("$target", "t", None)],
        "$current",
        false,
        true,
        &vec![],
    )
    .unwrap();
    assert_eq!(offered.len(), 1);
    assert_eq!(offered[0].id, "$target");
}

fn two_sessions() -> Vec<Session> {
    vec![session("$current", "c", None), session("$target", "t", None)]
}

fn listed(listing: &str) -> Vec<Session> {
    Tmux::sessions(Ok(listing.into())).unwrap()
}

fn fake_tmux() -> Tmux {
    Tmux::new(Some("grove-fake-t".into()), None)
}

#[test]
fn close_switches_to_the_selected_stable_id_before_killing_current() {
    let sessions =
        listed("$current:human current:7265706f:::::2\n$target:unrelated label:7265706f:::::1\n");
    let (closing, action) = Closing::start(sessions, "$current".into(), false, true, &vec![]);
    let CloseAction::Pick(prompt, choices) = action else {
        panic!("{action:?}")
    };
    assert_eq!(prompt, "session> ");
    assert_eq!(choices.len(), 1);
    let (closing, action) = closing.step(CloseEvent::Picked(Some("0".into())));
    let CloseAction::Switch(target) = &action else {
        panic!("{action:?}")
    };
    let tmux = fake_tmux();
    assert_eq!(tmux.navigate(target, true), ["-L", "grove-fake-t", "switch-client", "-t", "$target"]);
    let (closing, action) = closing.step(CloseEvent::Switched(None));
    let CloseAction::Kill(old) = &action else {
        panic!("{action:?}")
    };
    assert_eq!(tmux.kill_session(old), ["-L", "grove-fake-t", "kill-session", "-t", "$current"]);
    let (_, action) = closing.step(CloseEvent::Killed(None));
    assert!(matches!(action, CloseAction::Finished(Ok(()))), "{action:?}");
}

#[test]
fn close_switch_failure_does_not_kill_current() {
    let sessions = listed("$current:current::::::2\n$target:target::::::1\n");
    let (closing, _) = Closing::start(sessions, "$current".into(), false, true, &vec![]);
    let (closing, action) = closing.step(CloseEvent::Picked(Some("0".into())));
    assert!(matches!(&action, CloseAction::Switch(id) if id == "$target"), "{action:?}");
    let failure = "tmux switch-client -t $target failed with exit status: 1";
    let (_, action) = closing.step(CloseEvent::Switched(Some(failure.into())));
    let CloseAction::Finished(Err(error)) = action else {
        panic!("{action:?}")
    };
    assert!(matches!(error, CloseFailure::Switch(_)));
    assert!(error.message().contains("tmux switch-client -t $target failed"));
}

#[test]
fn close_kill_failure_follows_successful_switch() {
    let sessions = listed("$current:current::::::2\n$target:target::::::1\n");
    let (closing, _) = Closing::start(sessions, "$current".into(), false, true, &vec![]);
    let (closing, action) = closing.step(CloseEvent::Picked(Some("0".into())));
    assert!(matches!(&action, CloseAction::Switch(id) if id == "$target"), "{action:?}");
    let (closing, action) = closing.step(CloseEvent::Switched(None));
    assert!(matches!(&action, CloseAction::Kill(id) if id == "$current"), "{action:?}");
    let failure = "tmux kill-session -t $current: session not found";
    let (_, action) = closing.step(CloseEvent::Killed(Some(failure.into())));
    let CloseAction::Finished(Err(error)) = action else {
        panic!("{action:?}")
    };
    assert!(matches!(error, CloseFailure::Kill(_)));
    assert!(error.message().contains("tmux kill-session -t $current"));
}

#[test]
fn close_cancellation_and_no_alternatives_are_noops() {
    let sessions = listed("$current:current::::::2\n$target:target::::::1\n");
    let (closing, _) = Closing::start(sessions, "$current".into(), false, true, &vec![]);
    let (_, action) = closing.step(CloseEvent::Picked(None));
    assert!(matches!(action, CloseAction::Finished(Ok(()))), "{action:?}");

    let (_, action) =
        Closing::start(listed("$current:current::::::2\n"), "$current".into(), false, true, &vec![]);
    assert!(matches!(action, CloseAction::Finished(Ok(()))), "{action:?}");
}

#[test]
fn close_outside_tmux_reports_a_clear_error() {
    let error = close_allowed(false).unwrap_err();
    assert!(error.message().contains("grove close must be run inside tmux"));
}

#[test]
fn switch_excludes_current_session_from_a_tmux_popup() {
    let sessions = listed("$current:current::::::2\n$target:target::::::1\n");
    let (offered, choices) = grove::switch(sessions, Some("$current"), false, true, &vec![]).unwrap();
    let input = picker_input(&choices).unwrap();
    assert!(input.contains("target") && !input.contains("current"), "{input:?}");
    let tmux = fake_tmux();
    assert_eq!(
        tmux.current_session_args(None),
        ["-L", "grove-fake-t", "display-message", "-p", "#{session_id}"]
    );
    let target = switch_target(&offered, "0").unwrap();
    assert_eq!(tmux.navigate(&target, true), ["-L", "grove-fake-t", "switch-client", "-t", "$target"]);
}

#[test]
fn session_runner_uses_isolated_current_session_and_configurable_rows() {
    let tmux = fake_tmux();
    assert_eq!(
        tmux.current_session_args(Some("%1")),
        ["-L", "grove-fake-t", "display-message", "-p", "-t", "%1", "#{session_id}"]
    );
    let listing = tmux.list_sessions_args();
    assert_eq!(&listing[..4], ["-L", "grove-fake-t", "list-sessions", "-F"]);
    let sessions = listed("$current:current:7265706f:::::2\n$target:target:7265706f:::::1\n");
    let (offered, _) = grove::switch(sessions, Some("$current"), false, true, &vec![]).unwrap();
    let target = switch_target(&offered, "0").unwrap();
    assert_eq!(tmux.navigate(&target, true), ["-L", "grove-fake-t", "switch-client", "-t", "$target"]);
}

#[test]
fn closing_reports_bad_picks_and_a_failed_kill() {
    for (id, message) in [
        ("x", "invalid digit found in string"),
        ("", "cannot parse integer from empty string"),
        ("1", "fzf selected an unknown session"),
    ] {
        let (closing, _) = Closing::start(two_sessions(), "$current".into(), false, true, &vec![]);
        let (_, action) = closing.step(CloseEvent::Picked(Some(id.into())));
        let CloseAction::Finished(Err(error)) = action else {
            panic!("{action:?}")
        };
        assert_eq!(error.message(), message);
    }
    let (closing, _) = Closing::start(two_sessions(), "$current".into(), false, true, &vec![]);
    let (closing, _) = closing.step(CloseEvent::Picked(Some("0".into())));
    let (closing, _) = closing.step(CloseEvent::Switched(None));
    let (_, action) = closing.step(CloseEvent::Killed(Some("tmux kill-session -t $current: no".into())));
    let CloseAction::Finished(Err(error)) = action else {
        panic!("{action:?}")
    };
    assert!(matches!(error, CloseFailure::Kill(_)));
    assert_eq!(error.message(), "tmux kill-session -t $current: no");
}

#[test]
fn discovery_visits_entries_by_rule() {
    assert_eq!(visit(1, Some(".git"), false, true), Visit::SkipDir);
    assert_eq!(visit(1, Some(".git"), false, false), Visit::Pass);
    assert_eq!(visit(0, Some(".git"), false, true), Visit::Examine);
    assert_eq!(visit(2, Some("refs"), true, true), Visit::SkipDir);
    assert_eq!(visit(2, Some("src"), false, false), Visit::Pass);
    let listed = listed_worktrees("worktree /b\0bare\0\0worktree /p\0prunable\0\0worktree /w\0\0");
    assert_eq!(listed.iter().map(needs_resolution).collect::<Vec<_>>(), [false, false, true]);
}

#[test]
fn switching_goes_to_the_session_the_picker_named() {
    let offered = two_sessions();
    assert_eq!(switch_target(&offered, "1").unwrap(), "$target");
    assert_eq!(switch_target(&offered, "0").unwrap(), "$current");
    for (id, message) in [
        ("2", "fzf selected an unknown session"),
        ("-1", "invalid digit found in string"),
        ("", "cannot parse integer from empty string"),
    ] {
        assert_eq!(switch_target(&offered, id).unwrap_err().message(), message);
    }
}

#[test]
fn repository_and_worktree_picker_columns_align() {
    let home = "/tmp/fixture";
    let bare = |name: &str| {
        let path = format!("{home}/repos/{name}");
        Repository::Bare(BareRepository { common_bytes: None, path_bytes: None, common_names: NameText::text(), common: path.clone(), path })
    };
    let linked = |dir: &str, branch: &str| Checkout {
        worktree_bytes: None,
        name_is_text: true,
        repo: format!("{home}/repos/repo.git"),
        worktree: format!("{home}/repos/repo.git/{dir}"),
        repo_name: "repo".into(),
        branch: Some(branch.into()),
        linked: true,
    };
    let repos = vec![
        Repository::Checkout(Checkout {
            worktree_bytes: None,
            name_is_text: true,
            repo: format!("{home}/repos/ordinary/.git"),
            worktree: format!("{home}/repos/ordinary"),
            repo_name: "ordinary".into(),
            branch: Some("main".into()),
            linked: false,
        }),
        bare("repo.git"),
        bare("zzz.git"),
    ];
    let worktrees = vec![linked("feature/topic", "feature/topic"), linked("界e\u{301}", "other")];

    let config = config();
    let (opening, _) = Opening::open(&config, "/c".into(), vec![home.into()]);
    let (opening, first) = opening.step(OpenEvent::Repositories(repos));
    let (opening, action) = opening.step(OpenEvent::Picked(Some("1".into())));
    assert!(matches!(&action, OpenAction::ListWorktrees(b) if b.path.ends_with("/repo.git")));
    let (opening, second) = opening.step(OpenEvent::Worktrees(worktrees));
    for (stage, action, count) in [(1, &first, 3), (2, &second, 2)] {
        let OpenAction::Pick(_, choices) = action else {
            panic!("{action:?}")
        };
        assert_eq!(choices.len(), count);
        for (i, (id, label)) in choices.iter().enumerate() {
            assert_eq!(id, &i.to_string());
            assert!(!label.ends_with(' '));
        }
        let path_columns: Vec<_> = choices
            .iter()
            .map(|(_, label)| label[..label.find("~/repos/").unwrap()].width())
            .collect();
        assert!(path_columns.iter().all(|column| *column == path_columns[0]));
        if stage == 2 {
            let branch_columns: Vec<_> = choices
                .iter()
                .map(|(_, label)| label[..label.find("branch:").unwrap()].width())
                .collect();
            assert_eq!(branch_columns[0], branch_columns[1]);
        }
    }
    let (_, action) = opening.step(OpenEvent::Picked(None));
    assert_eq!(finished(action).unwrap(), None);
}

#[test]
fn refreshing_kills_each_step_before_creating_and_stops_at_the_first_failure() {
    let defaults = vec![default("main", "/tmp"), default("other", "/tmp"), default("third", "/tmp")];
    let running = listed("$one:main::::::0\n$1b:main::::::0\n$two:other::::::0\n");
    let plan = refresh_plan(&defaults, &running, true);
    let (mut refreshing, mut action) = Refreshing::start(plan);
    let mut done = Vec::new();
    loop {
        match action {
            RefreshAction::Kill(id) => done.push(format!("kill {id}")),
            RefreshAction::Create(n) => done.push(format!("create {}", defaults[n].name)),
            RefreshAction::Finished(result) => {
                assert!(result.is_ok());
                break;
            }
        }
        (refreshing, action) = refreshing.step(None);
    }
    assert_eq!(
        done,
        ["kill $one", "kill $1b", "create main", "kill $two", "create other", "create third"]
    );

    let plan = refresh_plan(&defaults, &listed(""), false);
    let (refreshing, action) = Refreshing::start(plan);
    assert!(matches!(action, RefreshAction::Create(0)));
    let (_, action) = refreshing.step(Some("tmux new-session: failed".into()));
    assert!(matches!(action, RefreshAction::Finished(Err(e)) if e == "tmux new-session: failed"));

    let (_, action) = Refreshing::start(Vec::new());
    assert!(matches!(action, RefreshAction::Finished(Ok(()))));
}
