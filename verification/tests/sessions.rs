use grove::git::Checkout;
use grove::naming::session_name_with_digest;
use grove::session_name;
use grove::switching::{selectable_sessions, session_for_worktree};
use grove::tmux::{hex, recent_first, unhex, Session, Tmux, TmuxError};

fn session(id: &str, repo: Option<&str>) -> Session {
    Session {
        id: id.into(),
        name: id.into(),
        repo: repo.map(str::to_owned),
        worktree: None,
        label_meta: None,
        name_meta: None,
        branch: None,
        activity: 0,
    }
}

fn ids(sessions: &[Session]) -> Vec<&str> {
    sessions.iter().map(|session| session.id.as_str()).collect()
}

#[test]
fn selectable_sessions_filters_current_metadata_with_fallback() {
    let sessions = vec![
        session("$current", Some("/repo/.git")),
        session("$match", Some("/repo/.git")),
        session("$other", Some("/other/.git")),
        session("$foreign", None),
    ];
    for (current, repo_only, expected) in [
        (Some("$current"), true, vec!["$match"]),
        (
            Some("$current"),
            false,
            vec!["$match", "$other", "$foreign"],
        ),
        (Some("$foreign"), true, vec!["$current", "$match", "$other"]),
        (
            Some("$missing"),
            true,
            vec!["$current", "$match", "$other", "$foreign"],
        ),
    ] {
        assert_eq!(
            ids(&selectable_sessions(sessions.clone(), current, repo_only)),
            expected
        );
    }

    let no_match = vec![
        session("$current", Some("/repo/.git")),
        session("$other", Some("/other/.git")),
        session("$foreign", None),
    ];
    assert_eq!(
        ids(&selectable_sessions(no_match, Some("$current"), true)),
        ["$other", "$foreign"]
    );
}

#[test]
fn worktree_reuse_uses_metadata() {
    let sessions = vec![
        Session {
            id: "$1".into(),
            name: "unrelated name".into(),
            repo: Some("repo-a".into()),
            worktree: Some("/tmp/a".into()),
            label_meta: None,
            name_meta: None,
            branch: None,
            activity: 0,
        },
        Session {
            id: "$2".into(),
            name: "grove-looking".into(),
            repo: Some("repo-b".into()),
            worktree: Some("/tmp/b".into()),
            label_meta: None,
            name_meta: None,
            branch: None,
            activity: 0,
        },
        Session {
            id: "$3".into(),
            name: "foreign".into(),
            repo: None,
            worktree: None,
            label_meta: None,
            name_meta: None,
            branch: None,
            activity: 0,
        },
    ];
    assert_eq!(session_for_worktree(&sessions, "/tmp/a").unwrap().id, "$1");
    assert!(session_for_worktree(&sessions, "/tmp/c").is_none());
}

#[test]
fn sessions_are_most_recent_first() {
    let mut sessions = vec![
        Session {
            id: "$1".into(),
            name: "old".into(),
            repo: None,
            worktree: None,
            label_meta: None,
            name_meta: None,
            branch: None,
            activity: 1,
        },
        Session {
            id: "$2".into(),
            name: "new".into(),
            repo: None,
            worktree: None,
            label_meta: None,
            name_meta: None,
            branch: None,
            activity: 2,
        },
    ];
    recent_first(&mut sessions);
    assert_eq!(
        sessions.iter().map(|session| session.name.as_str()).collect::<Vec<_>>(),
        ["new", "old"]
    );
}

#[test]
fn equally_recent_sessions_keep_their_order() {
    let mut sessions = vec![session("$a", None), session("$b", None), session("$c", None)];
    sessions[1].activity = 5;
    recent_first(&mut sessions);
    assert_eq!(ids(&sessions), ["$b", "$a", "$c"]);
}

#[test]
fn session_names_have_exact_requested_shape_and_collide_by_path() {
    let mut checkout = Checkout {
        worktree_bytes: None,
        name_is_text: true,
        repo: "r".into(),
        worktree: "/tmp/tree".into(),
        repo_name: "same repo_日本-a_b".into(),
        branch: Some("main".into()),
        linked: false,
    };
    assert_eq!(session_name(&checkout, &Vec::new()), "same repo_日本-a_b");
    checkout.linked = true;
    assert_eq!(
        session_name(&checkout, &Vec::new()),
        "same repo_日本-a_b/tree"
    );
    checkout.branch = Some("feature".into());
    assert_eq!(
        session_name(&checkout, &Vec::new()),
        "same repo_日本-a_b/tree"
    );

    checkout.repo_name = "bad:.\nname".into();
    assert_eq!(session_name(&checkout, &Vec::new()), "bad---name/tree");
    checkout.repo_name = "same repo_日本-a_b".into();
    let collision = session_name(&checkout, &vec!["same repo_日本-a_b/tree".into()]);
    assert!(collision.starts_with("same repo_日本-a_b/tree-"));
    assert_eq!(collision.len(), "same repo_日本-a_b/tree-".len() + 10);
}

#[test]
fn colliding_names_take_the_first_free_numbered_hash() {
    let checkout = Checkout {
        worktree_bytes: None,
        name_is_text: true,
        repo: "r".into(),
        worktree: "/tmp/tree".into(),
        repo_name: "".into(),
        branch: None,
        linked: false,
    };
    assert_eq!(session_name(&checkout, &Vec::new()), "repo");
    let hashed = session_name(&checkout, &vec!["repo".into()]);
    assert_eq!(hashed, "repo-b4d8ee68ee");
    let second = session_name(&checkout, &vec!["repo".into(), hashed.clone()]);
    assert_eq!(second, format!("{hashed}-2"));
    let third = session_name(
        &checkout,
        &vec!["repo".into(), hashed.clone(), format!("{hashed}-2")],
    );
    assert_eq!(third, format!("{hashed}-3"));
}

#[test]
fn metadata_round_trips_through_hex() {
    for value in ["", "repo\t\nidentity", "界 #{path}", "a:b"] {
        let encoded = hex(value);
        assert!(encoded.chars().all(|c| c.is_ascii_hexdigit() && !c.is_ascii_uppercase()));
        assert_eq!(unhex(&encoded).as_deref(), Some(value));
    }
    assert_eq!(hex("A:"), "413a");
    assert_eq!(unhex("4"), None);
    assert_eq!(unhex("zz"), None);
    assert_eq!(unhex("ff"), None);
}

#[test]
fn session_listing_is_parsed_and_ordered_by_activity() {
    let listing = format!(
        "$1:one:{}:{}:::{}:10\n$2:two::::::20\n",
        hex("/r/.git"),
        hex("/w"),
        hex("main")
    );
    let sessions = Tmux::sessions(Ok(listing)).unwrap();
    assert_eq!(ids(&sessions), ["$2", "$1"]);
    assert_eq!(sessions[1].repo.as_deref(), Some("/r/.git"));
    assert_eq!(sessions[1].worktree.as_deref(), Some("/w"));
    assert_eq!(sessions[1].branch.as_deref(), Some("main"));
    assert_eq!(sessions[1].label_meta, None);
    assert_eq!(sessions[0].name, "two");
    assert!(matches!(
        Tmux::sessions(Ok("$1:one:::".into())),
        Err(TmuxError::InvalidSessionData)
    ));
    assert!(matches!(
        Tmux::sessions(Ok("$1:one::::::soon".into())),
        Err(TmuxError::InvalidActivity)
    ));
    assert!(Tmux::sessions(Err("no server running on /tmp/x".into()))
        .unwrap()
        .is_empty());
    assert!(Tmux::sessions(Err(
        "error connecting to /tmp/x (No such file or directory)".into()
    ))
    .unwrap()
    .is_empty());
    let failed = Tmux::sessions(Err("tmux list-sessions: boom".into())).unwrap_err();
    assert_eq!(failed.message(), "tmux list-sessions: boom");
}

#[test]
fn switching_offers_other_sessions_or_reports_none() {
    let sessions = vec![session("$current", None), session("$x", None)];
    let (offered, choices) =
        grove::switch(sessions.clone(), Some("$current"), false, true, &Vec::new()).unwrap();
    assert_eq!(ids(&offered), ["$x"]);
    assert_eq!(choices, [("0".to_string(), "   $x".to_string())]);
    let none = grove::switch(vec![session("$current", None)], Some("$current"), true, true, &Vec::new());
    assert_eq!(none.unwrap_err().message(), "no matching tmux sessions");
}

#[test]
fn given_digest_names_collisions_by_its_first_ten_hex_digits() {
    let checkout = Checkout {
        worktree_bytes: None,
        name_is_text: true,
        repo: "r".into(),
        worktree: "/w/feature".into(),
        repo_name: "proj".into(),
        branch: None,
        linked: true,
    };
    let digest: Vec<u8> = vec![0x01, 0xab, 0xff, 0x10, 0x9c, 0x77, 0x00];
    assert_eq!(
        session_name_with_digest(&checkout, &Vec::new(), &digest),
        "proj/feature"
    );
    let taken = vec!["proj/feature".to_string()];
    assert_eq!(
        session_name_with_digest(&checkout, &taken, &digest),
        "proj/feature-01abff109c"
    );
    let taken = vec![
        "proj/feature".to_string(),
        "proj/feature-01abff109c".to_string(),
        "proj/feature-01abff109c-2".to_string(),
    ];
    assert_eq!(
        session_name_with_digest(&checkout, &taken, &digest),
        "proj/feature-01abff109c-3"
    );
}
