use grove::git::{
    branch_of_head, candidate_matches, descend, git_file_target, inspect, is_bare,
    listed_worktrees, output_without_newline, validate_checkout, worktrees, AnchorFacts,
    BareRepository, Checkout, Found, GitError, Probe, Repository,
};
use grove::path::{path_less, NameText};
use grove::probing::{ProbeCache, ProbeQuestion, ProbeStep, Probing, RunStep};

fn checkout(worktree: &str, repo: &str) -> Repository {
    Repository::Checkout(Checkout {
        worktree_bytes: None,
        name_is_text: true,
        repo: repo.into(),
        worktree: worktree.into(),
        repo_name: grove::git::display_name(repo, NameText::text()),
        branch: None,
        linked: false,
    })
}

fn bare(common: &str, path: &str) -> Repository {
    Repository::Bare(BareRepository { common_bytes: None, path_bytes: None, common_names: NameText::text(), common: common.into(), path: path.into() })
}

#[test]
fn discovery_skips_git_directories_and_bare_internals() {
    assert!(descend(0, Some(".git"), false));
    assert!(!descend(1, Some(".git"), false));
    assert!(!descend(2, Some("objects"), true));
    assert!(!descend(2, Some("logs"), true));
    assert!(descend(2, Some("objects"), false));
    assert!(descend(2, Some("src"), true));
    assert!(descend(3, None, true));
}

#[test]
fn anchors_are_checkouts_linked_worktrees_or_bare_repositories() {
    let plain = inspect(
        "/r".into(),
        None,
        NameText::text(),
        AnchorFacts::GitDirectory {
            git_dir_bytes: None,
            git_dir_names: NameText::text(),
            git_dir: Some("/r/.git".into()),
            head: Some("ref: refs/heads/main\n".into()),
        },
    );
    assert_eq!(
        plain,
        Some(Repository::Checkout(Checkout {
            worktree_bytes: None,
            name_is_text: true,
            repo: "/r/.git".into(),
            worktree: "/r".into(),
            repo_name: "r".into(),
            branch: Some("main".into()),
            linked: false,
        }))
    );
    let linked = inspect(
        "/w".into(),
        None,
        NameText::text(),
        AnchorFacts::GitFile {
            git_dir_bytes: None, common_bytes: None,
            git_dir_names: NameText::text(),
            common_names: NameText::text(),
            git_dir: Some("/r.git/worktrees/w".into()),
            marker: false,
            config: None,
            common: Some("/r.git".into()),
            head: Some("3f2a\n".into()),
        },
    );
    assert_eq!(
        linked,
        Some(Repository::Checkout(Checkout {
            worktree_bytes: None,
            name_is_text: true,
            repo: "/r.git".into(),
            worktree: "/w".into(),
            repo_name: "r".into(),
            branch: None,
            linked: true,
        }))
    );
    let pointer = inspect(
        "/hub".into(),
        None,
        NameText::text(),
        AnchorFacts::GitFile {
            git_dir_bytes: None, common_bytes: None,
            git_dir_names: NameText::text(),
            common_names: NameText::text(),
            git_dir: Some("/hub/.bare".into()),
            marker: true,
            config: Some("[core]\n\tbare = true\n".into()),
            common: None,
            head: None,
        },
    );
    assert_eq!(pointer, Some(bare("/hub/.bare", "/hub")));
    let configured_worktree = inspect(
        "/p".into(),
        None,
        NameText::text(),
        AnchorFacts::GitFile {
            git_dir_bytes: None, common_bytes: None,
            git_dir_names: NameText::text(),
            common_names: NameText::text(),
            git_dir: Some("/p/.bare".into()),
            marker: true,
            config: Some("[core]\n\tbare = false\n\tworktree = ..\n".into()),
            common: None,
            head: Some("ref: refs/heads/main".into()),
        },
    );
    assert!(matches!(configured_worktree, Some(Repository::Checkout(c)) if !c.linked && c.repo_name == "p"));
    let dangling = inspect(
        "/d".into(),
        None,
        NameText::text(),
        AnchorFacts::GitFile { git_dir_bytes: None, common_bytes: None, git_dir_names: NameText::text(), common_names: NameText::text(), git_dir: None, marker: false, config: None, common: None, head: None },
    );
    assert_eq!(dangling, None);
    assert_eq!(
        inspect("/x.git".into(), None, NameText::text(), AnchorFacts::Plain { marker: true, config: None }),
        Some(bare("/x.git", "/x.git"))
    );
    assert_eq!(
        inspect("/x".into(), None, NameText::text(), AnchorFacts::Plain { marker: false, config: None }),
        None
    );
}

#[test]
fn bare_setting_follows_the_core_section() {
    assert!(is_bare(None));
    assert!(is_bare(Some("")));
    assert!(!is_bare(Some("[core]\n  Bare = FALSE\n")));
    assert!(is_bare(Some("[other]\nbare = false\n[core]\nbare=true")));
    assert!(is_bare(Some("[remote]\nbare = false\n")));
    assert!(!is_bare(Some("[CORE]\nbare = no")));
}

#[test]
fn git_files_and_heads_are_read_like_git() {
    assert_eq!(git_file_target("gitdir: ../metadata.git\r\n\r\n").as_deref(), Some("../metadata.git"));
    assert_eq!(git_file_target("gitdir:x").as_deref(), None);
    assert_eq!(git_file_target(""), None);
    assert_eq!(branch_of_head("ref: refs/heads/feature/x \n").as_deref(), Some("feature/x"));
    assert_eq!(branch_of_head("0123abcd\n"), None);
    assert_eq!(output_without_newline("/a\nb\r\n".into()), "/a\nb\r");
    assert_eq!(output_without_newline("/a".into()), "/a");
}

#[test]
fn discovery_keeps_one_entry_per_identity() {
    let mut found = Found::new();
    found.add(checkout("/b", "/b/.git"));
    found.add(checkout("/a", "/a/.git"));
    found.add(checkout("/a/", "/other/.git"));
    found.add(bare("/h/.bare", "/h/.bare"));
    found.add(bare("/h/.bare", "/h"));
    found.add(bare("/h/.bare", "/h/zz"));
    assert_eq!(found.entries().len(), 3);
    assert_eq!(found.entries()[0], checkout("/a", "/a/.git"));
    assert_eq!(found.entries()[1], checkout("/b", "/b/.git"));
    assert_eq!(found.entries()[2], bare("/h/.bare", "/h"));
    let before = found.entries().clone();
    found.add(checkout("/b", "/b/.git"));
    assert_eq!(found.entries(), &before);
    let listed = found.by_label();
    let labels: Vec<_> = listed.iter().map(|r| r.label(false)).collect();
    assert_eq!(labels, ["a  /a", "b  /b", "h [bare]  /h"]);
}

#[test]
fn paths_order_by_components() {
    assert!(path_less("/a/b", "/a-b"));
    assert!(!path_less("/a-b", "/a/b"));
    assert!(path_less("/a", "/a/b"));
    assert!(!path_less("/a/", "/a"));
    assert!(!path_less("/a", "/a/"));
    assert!(path_less("/", "a"));
    assert!(path_less("..", "a"));
}

#[test]
fn worktree_listing_records_fields() {
    let listing = "worktree /r.git\0bare\0\0worktree /w one\0HEAD abc\0branch refs/heads/topic\0\0worktree /gone\0detached\0prunable gitdir file points to non-existent location\0\0";
    let listed = listed_worktrees(listing);
    assert_eq!(listed.len(), 3);
    assert!(listed[0].bare && !listed[0].prunable);
    assert_eq!(listed[1].path, "/w one");
    assert_eq!(listed[1].branch.as_deref(), Some("topic"));
    assert!(listed[2].prunable);
    assert_eq!(listed[2].branch, None);
    assert!(listed_worktrees("").is_empty());
    assert!(listed_worktrees("branch refs/heads/x\0").is_empty());
}

fn probe(common: &str, git_dir: &str, top: Option<&str>) -> Probe {
    Probe { common_bytes: None, git_dir_bytes: None, top_bytes: None, top_name_is_text: true, common: common.into(), git_dir: git_dir.into(), top: top.map(str::to_owned), bare: false }
}

#[test]
fn selected_bare_keeps_active_linked_worktrees_once() {
    let selected = BareRepository { common_bytes: None, path_bytes: None, common_names: NameText::text(), common: "/repo.git".into(), path: "/repo.git".into() };
    let listing = "worktree /repo.git\0bare\0\0worktree /z\0branch refs/heads/z\0\0worktree /a\0detached\0\0worktree /a\0detached\0\0worktree /foreign\0branch refs/heads/f\0\0worktree /stale\0branch refs/heads/s\0\0worktree /gone\0prunable\0\0worktree /missing\0\0";
    let listed = listed_worktrees(listing);
    let resolved = vec![
        Some((b"/repo.git".to_vec(), probe("/repo.git", "/repo.git", None))),
        Some((b"/z".to_vec(), probe("/repo.git", "/repo.git/worktrees/z", Some("/z")))),
        Some((b"/a".to_vec(), probe("/repo.git", "/repo.git/worktrees/a", Some("/a")))),
        Some((b"/a".to_vec(), probe("/repo.git", "/repo.git/worktrees/dup", Some("/a")))),
        Some((b"/foreign".to_vec(), probe("/foreign/.git", "/foreign/.git", Some("/foreign")))),
        Some((b"/stale".to_vec(), probe("/repo.git", "/repo.git/worktrees/s", Some("/")))),
        Some((b"/gone".to_vec(), probe("/repo.git", "/repo.git/worktrees/g", Some("/gone")))),
        None,
    ];
    let found = worktrees(&selected, &listed, &resolved);
    assert_eq!(found.len(), 2);
    assert_eq!(found[0].worktree, "/a");
    assert_eq!(found[0].branch, None);
    assert!(found[0].label(false).ends_with("branch: detached"));
    assert_eq!(found[1].worktree, "/z");
    assert_eq!(found[1].branch.as_deref(), Some("z"));
    assert!(found.iter().all(|c| c.linked && c.repo == "/repo.git" && c.repo_name == "repo"));
    assert!(!candidate_matches(&b"/stale".to_vec(), &resolved[5].as_ref().unwrap().1));
}

#[test]
fn changed_checkouts_are_refused() {
    let c = Checkout {
        worktree_bytes: None,
        name_is_text: true,
        repo: "/r/.git".into(),
        worktree: "/r".into(),
        repo_name: "r".into(),
        branch: None,
        linked: false,
    };
    assert!(validate_checkout(&c, Some(&probe("/r/.git", "/r/.git", Some("/r")))).is_ok());
    for p in [
        None,
        Some(probe("/r/.git", "/r/.git", None)),
        Some(probe("/other/.git", "/other/.git", Some("/r"))),
        Some(probe("/r/.git", "/r/.git/worktrees/r", Some("/r"))),
        Some(probe("/r/.git", "/r/.git", Some("/elsewhere"))),
        Some(Probe { bare: true, ..probe("/r/.git", "/r/.git", Some("/r")) }),
    ] {
        let err = validate_checkout(&c, p.as_ref()).unwrap_err();
        assert!(matches!(&err, GitError::ChangedCheckout(w) if w == "/r"));
        assert_eq!(
            err.message(),
            "selected checkout /r is no longer the same non-bare Git worktree; rerun grove and select it again"
        );
    }
    // A bare repository: no top-level worktree, and Git answers `true`.
    let (probing, step) = Probing::start();
    assert!(matches!(step, ProbeStep::Ask(ProbeQuestion::CommonDir)));
    let (probing, step) = probing.step(Some("/r.git".into()), None, true);
    assert!(matches!(step, ProbeStep::Ask(ProbeQuestion::GitDir)));
    let (probing, step) = probing.step(Some("/r.git".into()), None, true);
    assert!(matches!(step, ProbeStep::Ask(ProbeQuestion::TopLevel)));
    let (probing, step) = probing.step(None, None, true);
    assert!(matches!(step, ProbeStep::Ask(ProbeQuestion::IsBare)));
    let (_, step) = probing.step(Some("true".into()), None, true);
    let ProbeStep::Done(Some(probed)) = step else { panic!("{step:?}") };
    assert!(probed.bare);
    assert_eq!(probed.common, "/r.git");
    // Without a common directory Git is asked nothing more.
    let (probing, _) = Probing::start();
    assert!(matches!(probing.step(None, None, true).1, ProbeStep::Done(None)));
}

#[test]
fn discovery_entries_do_not_depend_on_the_order_found() {
    let entries = [
        checkout("/b", "/b/.git"),
        bare("/h/.bare", "/h/.bare"),
        checkout("/a", "/a/.git"),
        bare("/h/.bare", "/h"),
        bare("/z.git", "/z.git"),
    ];
    let forward = {
        let mut found = Found::new();
        for entry in entries.iter() {
            found.add(entry.clone());
        }
        found.entries().clone()
    };
    let backward = {
        let mut found = Found::new();
        for entry in entries.iter().rev().chain(entries.iter()) {
            found.add(entry.clone());
        }
        found.entries().clone()
    };
    assert_eq!(forward, backward);
    assert_eq!(
        forward,
        [checkout("/a", "/a/.git"), checkout("/b", "/b/.git"), bare("/h/.bare", "/h"), bare("/z.git", "/z.git")]
    );
}

#[test]
fn probing_asks_git_in_order_and_each_directory_once() {
    for question in [ProbeQuestion::CommonDir, ProbeQuestion::GitDir, ProbeQuestion::TopLevel, ProbeQuestion::IsBare] {
        assert_eq!(question.git_args()[0], "rev-parse");
    }
    assert_eq!(
        ProbeQuestion::CommonDir.git_args(),
        ["rev-parse", "--path-format=absolute", "--git-common-dir"]
    );
    assert_eq!(ProbeQuestion::TopLevel.git_args(), ["rev-parse", "--show-toplevel"]);
    let (probing, _) = Probing::start();
    let (probing, _) = probing.step(Some("/r/.git".into()), None, true);
    let (probing, _) = probing.step(Some("/r/.git/worktrees/w".into()), None, true);
    let (_, step) = probing.step(Some("/w/\u{fffd}".into()), None, false);
    let ProbeStep::Done(Some(linked)) = step else { panic!("{step:?}") };
    assert_eq!(linked.top.as_deref(), Some("/w/\u{fffd}"));
    assert!(!linked.top_name_is_text && !linked.bare);

    let mut cache = ProbeCache::new();
    let key = b"/w/\xff".to_vec();
    assert!(cache.lookup(&key).is_none());
    cache.record(key.clone(), Some(linked.clone()));
    cache.record(b"/other".to_vec(), None);
    assert_eq!(cache.lookup(&key), Some(Some(linked.clone())));
    assert_eq!(cache.lookup(&b"/other".to_vec()), Some(None));
    assert!(cache.lookup(&b"/w/\xfe".to_vec()).is_none());
    cache.record(key.clone(), None);
    assert_eq!(cache.lookup(&key), Some(None));
}

#[test]
fn paths_that_differ_only_in_invalid_bytes_stay_apart() {
    let text = "/r/\u{fffd}.git";
    let bare = |raw: &[u8]| {
        Repository::Bare(BareRepository {
            common: text.into(),
            common_bytes: Some(raw.to_vec()),
            common_names: NameText { name: false, parent: true },
            path: text.into(),
            path_bytes: Some(raw.to_vec()),
        })
    };
    let mut found = Found::new();
    found.add(bare(b"/r/\xff.git"));
    found.add(bare(b"/r/\xfe.git"));
    found.add(bare(b"/r/\xff.git"));
    assert_eq!(found.entries().len(), 2);
    // Byte order: 0xfe before 0xff, as `Path`s are ordered.
    assert_eq!(found.entries()[0], bare(b"/r/\xfe.git"));
    assert_eq!(found.entries()[1], bare(b"/r/\xff.git"));

    let checkout = Checkout {
        repo: "/r/.git".into(),
        worktree: "/w/\u{fffd}".into(),
        worktree_bytes: Some(b"/w/\xff".to_vec()),
        name_is_text: false,
        repo_name: "r".into(),
        branch: None,
        linked: false,
    };
    let probe = |top: &[u8]| Probe {
        common: "/r/.git".into(),
        git_dir: "/r/.git".into(),
        top: Some("/w/\u{fffd}".into()),
        common_bytes: None,
        git_dir_bytes: None,
        top_bytes: Some(top.to_vec()),
        top_name_is_text: false,
        bare: false,
    };
    assert!(validate_checkout(&checkout, Some(&probe(b"/w/\xff"))).is_ok());
    assert!(validate_checkout(&checkout, Some(&probe(b"/w/\xfe"))).is_err());
}

#[test]
fn each_directory_is_probed_once_through_the_cache() {
    let mut cache = ProbeCache::new();
    assert!(matches!(cache.begin(None), RunStep::Done(None)));
    let key = b"/w".to_vec();
    let RunStep::Ask(run, ProbeQuestion::CommonDir) = cache.begin(Some(key.clone())) else {
        panic!("the first question is the common directory")
    };
    let RunStep::Ask(run, ProbeQuestion::GitDir) = cache.answer(run, Some("/r/.git".into()), None, true)
    else {
        panic!("then the Git directory")
    };
    let RunStep::Ask(run, ProbeQuestion::TopLevel) = cache.answer(run, Some("/r/.git".into()), None, true)
    else {
        panic!("then the top level")
    };
    assert!(cache.lookup(&key).is_none());
    let RunStep::Done(Some(first)) = cache.answer(run, Some("/w".into()), None, true) else {
        panic!("a worktree with a top level is done")
    };
    assert_eq!(first.top.as_deref(), Some("/w"));
    assert!(!first.bare);
    // Asked again, the directory is answered from the cache, with no question to Git.
    let RunStep::Done(Some(again)) = cache.begin(Some(key.clone())) else {
        panic!("the probe is cached")
    };
    assert_eq!(again, first);

    // A bare repository: no top level, and Git answers `true`; a failed answer records nothing.
    let RunStep::Ask(run, _) = cache.begin(Some(b"/b.git".to_vec())) else { panic!() };
    let RunStep::Ask(run, _) = cache.answer(run, Some("/b.git".into()), None, true) else { panic!() };
    let RunStep::Ask(run, _) = cache.answer(run, Some("/b.git".into()), None, true) else { panic!() };
    let RunStep::Ask(run, ProbeQuestion::IsBare) = cache.answer(run, None, None, true) else { panic!() };
    let RunStep::Done(Some(bare)) = cache.answer(run, Some("true".into()), None, true) else { panic!() };
    assert!(bare.bare && bare.top.is_none());
    let RunStep::Ask(run, _) = cache.begin(Some(b"/plain".to_vec())) else { panic!() };
    assert!(matches!(cache.answer(run, None, None, true), RunStep::Done(None)));
    assert!(matches!(cache.begin(Some(b"/plain".to_vec())), RunStep::Done(None)));
}
