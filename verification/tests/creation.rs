use grove::config::{Pane, Preset, Window};
use grove::git::Checkout;
use grove::tmux::{hex, CreateAction, Creation, Tmux, TmuxError};

fn run(action: &CreateAction) -> Vec<String> {
    match action {
        CreateAction::Run(args) => args.clone(),
        CreateAction::Finished(_) => panic!("expected a command"),
    }
}

fn step(creation: Creation, reply: Result<&str, &str>) -> (Creation, CreateAction) {
    creation.step(reply.map(str::to_owned).map_err(str::to_owned))
}

#[test]
fn layout_metadata_literal_argv_and_base_index() {
    let tmux = Tmux::new(None, None);
    let checkout = Checkout {
        worktree_bytes: None,
        name_is_text: true,
        repo: "repo\t\nidentity".into(),
        worktree: "/tmp/literal #{path}".into(),
        repo_name: "repo".into(),
        branch: Some("main".into()),
        linked: true,
    };
    let preset = Preset {
        name: "x".into(),
        windows: vec![
            Window {
                name: "one".into(),
                panes: vec![
                    Pane { command: vec![] },
                    Pane { command: vec!["/bin/one executable".into()] },
                ],
            },
            Window {
                name: "two".into(),
                panes: vec![Pane {
                    command: vec![
                        "/bin/many executable".into(),
                        "space arg".into(),
                        "$(not-expanded)".into(),
                        ";".into(),
                        r"\;".into(),
                    ],
                }],
            },
        ],
    };
    let cwd = "/tmp/literal ##{path}";
    let (creation, first) = tmux.create("grove-test", &checkout, &preset);
    assert_eq!(
        first,
        [
            "new-session",
            "-d",
            "-P",
            "-F",
            "#{session_id}\t#{window_id}",
            "-s",
            "grove-test",
            "-c",
            cwd
        ]
    );
    let (creation, action) = step(creation, Ok("$1\t@1\n"));
    assert_eq!(run(&action), ["rename-window", "-t", "@1", "one"]);
    let mut creation = creation;
    for (key, value) in [
        ("@grove_repo", checkout.repo.clone()),
        ("@grove_worktree", checkout.worktree.clone()),
        ("@grove_label", checkout.base_label()),
        ("@grove_name", checkout.display_name()),
        ("@grove_branch", "main".to_string()),
    ] {
        let (next, action) = step(creation, Ok(""));
        assert_eq!(run(&action), ["set-option", "-t", "$1", key, &hex(&value)]);
        creation = next;
    }
    let (creation, action) = step(creation, Ok(""));
    assert_eq!(
        run(&action),
        [
            "split-window",
            "-d",
            "-t",
            "@1",
            "-c",
            cwd,
            "--",
            "/usr/bin/env",
            "--",
            "/bin/one executable"
        ]
    );
    let (creation, action) = step(creation, Ok(""));
    assert_eq!(
        run(&action),
        [
            "new-window",
            "-d",
            "-P",
            "-F",
            "#{window_id}",
            "-t",
            "$1",
            "-n",
            "two",
            "-c",
            cwd,
            "--",
            "/usr/bin/env",
            "--",
            "/bin/many executable",
            "space arg",
            "$(not-expanded)",
            r"\;",
            r"\\;"
        ]
    );
    let (_, action) = step(creation, Ok("@2\n"));
    assert!(matches!(action, CreateAction::Finished(Ok(id)) if id == "$1"));
}

#[test]
fn failed_layout_rolls_back_created_session() {
    let tmux = Tmux::new(Some("grove-test".into()), Some("/tmp/tmux.conf".into()));
    let checkout = Checkout {
        worktree_bytes: None,
        name_is_text: true,
        repo: "r".into(),
        worktree: "/tmp/dir".into(),
        repo_name: "r".into(),
        branch: None,
        linked: false,
    };
    let preset = Preset {
        name: "bad".into(),
        windows: vec![Window { name: "bad\0name".into(), panes: vec![] }],
    };
    let (creation, first) = tmux.create("rollback", &checkout, &preset);
    assert_eq!(&first[..4], ["-f", "/tmp/tmux.conf", "-L", "grove-test"]);
    assert_eq!(first[4], "new-session");
    let (creation, action) = step(creation, Ok("$9\t@3"));
    assert_eq!(
        run(&action),
        ["-f", "/tmp/tmux.conf", "-L", "grove-test", "rename-window", "-t", "@3", "bad\0name"]
    );
    let (creation, action) = step(creation, Err("tmux rename-window: bad name"));
    assert_eq!(
        run(&action),
        ["-f", "/tmp/tmux.conf", "-L", "grove-test", "kill-session", "-t", "$9"]
    );
    let (_, action) = step(creation, Ok(""));
    match action {
        CreateAction::Finished(Err(TmuxError::Command(message))) => {
            assert_eq!(message, "tmux rename-window: bad name")
        },
        other => panic!("unexpected {other:?}"),
    }
}

#[test]
fn failed_opening_kills_nothing() {
    let tmux = Tmux::new(None, None);
    let checkout = Checkout {
        worktree_bytes: None,
        name_is_text: true,
        repo: "r".into(),
        worktree: "/w".into(),
        repo_name: "r".into(),
        branch: None,
        linked: false,
    };
    let preset = Preset::shell();
    let (creation, first) = tmux.create("s", &checkout, &preset);
    assert_eq!(first.len(), 9);
    let (_, action) = step(creation, Err("tmux new-session: duplicate session"));
    assert!(matches!(action, CreateAction::Finished(Err(TmuxError::Command(m))) if m == "tmux new-session: duplicate session"));
    let (creation, _) = tmux.create("s", &checkout, &preset);
    let (_, action) = step(creation, Ok("$1 without a tab\n"));
    match action {
        CreateAction::Finished(Err(e)) => {
            assert_eq!(e.message(), "tmux did not return session and window IDs")
        },
        other => panic!("unexpected {other:?}"),
    }
}

#[test]
fn shell_layout_names_the_window_and_stores_metadata_only() {
    let tmux = Tmux::new(None, None);
    let checkout = Checkout {
        worktree_bytes: None,
        name_is_text: true,
        repo: "/r/.git".into(),
        worktree: "/r".into(),
        repo_name: "r".into(),
        branch: Some("main".into()),
        linked: false,
    };
    let empty = Preset { name: "empty".into(), windows: vec![] };
    let (creation, _) = tmux.create("r", &checkout, &empty);
    let (mut creation, action) = step(creation, Ok("$4\t@8\n"));
    assert_eq!(run(&action), ["rename-window", "-t", "@8", "shell"]);
    let mut commands = 0;
    loop {
        let (next, action) = step(creation, Ok(""));
        creation = next;
        match action {
            CreateAction::Run(args) => {
                assert_eq!(args[0], "set-option");
                commands += 1;
            },
            CreateAction::Finished(result) => {
                assert_eq!(result.unwrap(), "$4");
                break;
            },
        }
    }
    assert_eq!(commands, 4);
}

#[test]
fn tmux_commands_carry_the_client_settings() {
    let tmux = Tmux::new(Some("sock".into()), None);
    assert_eq!(tmux.kill_session("$1"), ["-L", "sock", "kill-session", "-t", "$1"]);
    assert_eq!(tmux.navigate("$2", true), ["-L", "sock", "switch-client", "-t", "$2"]);
    assert_eq!(tmux.navigate("$2", false), ["-L", "sock", "attach-session", "-t", "$2"]);
    assert_eq!(
        tmux.current_session_args(Some("%3")),
        ["-L", "sock", "display-message", "-p", "-t", "%3", "#{session_id}"]
    );
    assert_eq!(
        tmux.current_session_args(None),
        ["-L", "sock", "display-message", "-p", "#{session_id}"]
    );
    assert_eq!(Tmux::current_session(" $5\n"), "$5");
    assert_eq!(
        tmux.list_sessions_args()[2..4],
        ["list-sessions", "-F"]
    );
}

#[test]
fn created_session_lists_with_its_checkout_label_and_columns() {
    let tmux = Tmux::new(None, None);
    let checkout = Checkout {
        worktree_bytes: None,
        name_is_text: true,
        repo: "/srv/repo.git".into(),
        worktree: "/srv/repo.git/feature x".into(),
        repo_name: "repo".into(),
        branch: None,
        linked: true,
    };
    let preset = Preset { name: "shell".into(), windows: vec![] };
    let (mut creation, _) = tmux.create("repo/feature x", &checkout, &preset);
    let mut options = Vec::new();
    let mut reply = "$4\t@1\n".to_string();
    loop {
        let (next, action) = creation.step(Ok(reply));
        creation = next;
        match action {
            CreateAction::Run(args) => {
                if args[0] == "set-option" {
                    options.push((args[3].clone(), args[4].clone()));
                }
            }
            CreateAction::Finished(result) => {
                assert_eq!(result.unwrap(), "$4");
                break;
            }
        }
        reply = String::new();
    }
    let field = |key: &str| {
        options.iter().find(|(k, _)| k == key).map(|(_, v)| v.clone()).unwrap_or_default()
    };
    let line = format!(
        "$4:repo/feature x:{}:{}:{}:{}:{}:7\n",
        field("@grove_repo"),
        field("@grove_worktree"),
        field("@grove_label"),
        field("@grove_name"),
        field("@grove_branch")
    );
    let sessions = Tmux::sessions(Ok(line)).unwrap();
    assert_eq!(sessions.len(), 1);
    let session = &sessions[0];
    assert_eq!(session.repo.as_deref(), Some("/srv/repo.git"));
    assert_eq!(session.worktree.as_deref(), Some("/srv/repo.git/feature x"));
    assert_eq!(session.branch.as_deref(), Some("detached"));
    for nerd_fonts in [true, false] {
        assert_eq!(session.label(nerd_fonts), checkout.label(nerd_fonts));
        assert_eq!(session.columns(nerd_fonts), checkout.columns(nerd_fonts));
    }
}
