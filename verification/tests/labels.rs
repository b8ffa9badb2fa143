use grove::path::NameText;
use grove::git::{display_name, BareRepository, Checkout, Repository};
use grove::tmux::Session;

#[test]
fn labels_distinguish_main_linked_and_font() {
    let main = Checkout {
        worktree_bytes: None,
        name_is_text: true,
        repo: "r".into(),
        worktree: "/tmp/repo".into(),
        repo_name: "repo".into(),
        branch: Some("main".into()),
        linked: false,
    };
    let linked = Checkout {
        worktree: "/tmp/wt".into(),
        branch: Some("feature".into()),
        linked: true,
        ..main.clone()
    };
    assert!(!main.label(true).contains("main"));
    assert!(linked.label(true).contains("/tmp/wt  \u{e0a0} feature"));
    assert!(linked.label(false).contains("/tmp/wt  branch: feature"));
    assert_eq!(main.columns(true), ["", "repo", "/tmp/repo", ""]);
    assert_eq!(
        linked.columns(true),
        ["", "repo/wt", "/tmp/wt", "\u{e0a0} feature"]
    );
    assert_eq!(
        linked.columns(false),
        ["", "repo/wt", "/tmp/wt", "branch: feature"]
    );
    let detached = Checkout {
        branch: None,
        ..linked
    };
    assert_eq!(detached.columns(false)[3], "branch: detached");
    let bare = Repository::Bare(BareRepository {
        common_bytes: None, path_bytes: None,
        common_names: NameText::text(),
        common: "/tmp/repo.git".into(),
        path: "/tmp/repo.git".into(),
    });
    assert_eq!(
        bare.columns(true),
        ["\u{f418}", "repo", "/tmp/repo.git", ""]
    );
    assert_eq!(bare.columns(false), ["[bare]", "repo", "/tmp/repo.git", ""]);
}

#[test]
fn session_labels_render_new_branch_metadata_and_preserve_old_labels() {
    let mut session = Session {
        id: "$1".into(),
        name: "name".into(),
        repo: None,
        worktree: None,
        label_meta: Some("base".into()),
        name_meta: None,
        branch: Some("feature".into()),
        activity: 0,
    };
    assert_eq!(session.label(true), "base  \u{e0a0} feature");
    assert_eq!(session.label(false), "base  branch: feature");
    session.label_meta = Some("old   frozen".into());
    session.branch = None;
    assert_eq!(session.label(false), "old   frozen");
    assert_eq!(session.columns(false), ["", "old   frozen", "", ""]);
    session.name_meta = Some("friendly/worktree".into());
    session.worktree = Some("/path with spaces/界".into());
    session.branch = Some("feature".into());
    for nerd_fonts in [true, false] {
        assert_eq!(
            session.columns(nerd_fonts),
            [
                String::new(),
                "friendly/worktree".into(),
                "/path with spaces/界".into(),
                grove::branch_label(Some("feature"), nerd_fonts),
            ]
        );
    }
    session.branch = None;
    assert_eq!(session.columns(false)[3], "");
    session.name_meta = None;
    session.label_meta = None;
    assert_eq!(session.columns(false), ["", "name", "", ""]);
}

#[test]
fn repository_names_follow_the_common_directory() {
    assert_eq!(grove::git::display_name("/x/repo.git", NameText::text()), "repo");
    assert_eq!(grove::git::display_name("/x/proj/.git", NameText::text()), "proj");
    assert_eq!(grove::git::display_name("/x/proj/.bare", NameText::text()), "proj");
    assert_eq!(grove::git::display_name("/x/plain", NameText::text()), "plain");
    assert_eq!(grove::git::display_name("/.git", NameText::text()), "repository");
    assert_eq!(grove::git::display_name("", NameText::text()), "repository");
}

#[test]
fn linked_worktree_names_use_the_worktree_directory() {
    let c = Checkout {
        worktree_bytes: None,
        name_is_text: true,
        repo: "/r/.git".into(),
        worktree: "/w/feature/".into(),
        repo_name: "r".into(),
        branch: None,
        linked: true,
    };
    assert_eq!(c.display_name(), "r/feature");
    assert_eq!(c.base_label(), "r/feature  /w/feature/");
    assert_eq!(c.label(false), "r/feature  /w/feature/  branch: detached");
    let root = Checkout { worktree: "/".into(), ..c.clone() };
    assert_eq!(root.display_name(), "r/worktree");
    let bare = Repository::Bare(BareRepository { common_bytes: None, path_bytes: None, common_names: NameText::text(), common: "/h/.bare".into(), path: "/h".into() });
    assert_eq!(bare.label(true), "h [bare]  /h");
    assert_eq!(bare.label(false), bare.label(true));
}

#[test]
fn sessions_show_stored_name_and_path_when_both_exist() {
    let session = Session {
        id: "$3".into(),
        name: "n".into(),
        repo: None,
        worktree: Some("/w".into()),
        label_meta: Some("lbl".into()),
        name_meta: None,
        branch: Some("b".into()),
        activity: 0,
    };
    assert_eq!(session.columns(false), ["", "lbl  branch: b", "", ""]);
    assert_eq!(grove::branch_label(None, true), "");
    assert_eq!(grove::branch_label(Some("x"), false), "branch: x");
}

#[test]
fn names_that_are_not_unicode_fall_back_to_words() {
    let checkout = Checkout {
        worktree_bytes: None,
        repo: "/r.git".into(),
        worktree: "/r.git/tree-\u{fffd}".into(),
        name_is_text: false,
        repo_name: "r".into(),
        branch: None,
        linked: true,
    };
    assert_eq!(checkout.display_name(), "r/worktree");
    assert_eq!(checkout.columns(false)[1], "r/worktree");
    assert_eq!(grove::session_name(&checkout, &Vec::new()), "r/worktree");
    let text = Checkout { name_is_text: true, ..checkout.clone() };
    assert_eq!(text.display_name(), "r/tree-\u{fffd}");

    let own = NameText { name: false, parent: true };
    let parent = NameText { name: true, parent: false };
    assert_eq!(display_name("/srv/proj-\u{fffd}.git", own), "repository");
    assert_eq!(display_name("/srv/proj-\u{fffd}.git", parent), "proj-\u{fffd}");
    assert_eq!(display_name("/srv/x\u{fffd}/.git", parent), "repository");
    assert_eq!(display_name("/srv/x\u{fffd}/.git", own), "repository");
    assert_eq!(display_name("/srv/x\u{fffd}/.bare", NameText::text()), "x\u{fffd}");
    let bare = Repository::Bare(BareRepository {
        common_bytes: None, path_bytes: None,
        common: "/srv/\u{fffd}.git".into(),
        common_names: own,
        path: "/srv/\u{fffd}.git".into(),
    });
    assert_eq!(bare.columns(false)[1], "repository");
}
