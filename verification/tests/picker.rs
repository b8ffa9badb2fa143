use grove::path::NameText;
use grove::git::{BareRepository, Checkout, Repository};
use grove::picker::{
    align_rows, aligned_choices_with_home, home_paths, pick_index, picker_args, picker_input, picker_result,
    IndexError, PickerError,
};
use grove::tmux::Session;
use unicode_width::UnicodeWidthStr;

fn homes(list: &[&str]) -> Vec<String> {
    list.iter().map(|h| h.to_string()).collect()
}

#[test]
fn bare_markers_align_separately_from_unicode_names_paths_and_branches() {
    let checkout = Checkout {
        worktree_bytes: None,
        name_is_text: true,
        repo: "/home/ann/repo/.git".into(),
        worktree: "/home/ann/e\u{301}".into(),
        repo_name: "e\u{301}".into(),
        branch: Some("main".into()),
        linked: false,
    };
    let repositories = [
        Repository::Bare(BareRepository {
            common_bytes: None, path_bytes: None,
            common_names: NameText::text(),
            common: "/home/ann/界.git".into(),
            path: "/home/ann/界.git".into(),
        }),
        Repository::Checkout(checkout.clone()),
        Repository::Checkout(Checkout {
            worktree: "/home/ann/短".into(),
            linked: true,
            ..checkout.clone()
        }),
        Repository::Checkout(Checkout {
            worktree: "/home/ann/long".into(),
            linked: true,
            ..checkout
        }),
    ];
    for nerd_fonts in [true, false] {
        let rows: Vec<_> = repositories
            .iter()
            .map(|repo| repo.columns(nerd_fonts))
            .collect();
        let marker = if nerd_fonts { "\u{f418}" } else { "[bare]" };
        assert_eq!(rows[0][0], marker);
        assert!(rows[1..].iter().all(|row| row[0].is_empty()));
        let choices = aligned_choices_with_home(rows.clone(), &homes(&["/home/ann"]));
        let name_column = marker.width() + 2;
        let path_column = name_column + rows.iter().map(|row| row[1].width()).max().unwrap() + 2;
        for (i, (id, label)) in choices.iter().enumerate() {
            assert_eq!(id, &i.to_string());
            assert_eq!(
                label[..label.find(&rows[i][1]).unwrap()].width(),
                name_column
            );
            assert_eq!(label[..label.find("~/").unwrap()].width(), path_column);
            assert!(!label.ends_with(' '));
            if i > 0 {
                assert!(label.starts_with(&" ".repeat(name_column)));
                assert!(!label.contains(marker));
            }
        }
        assert_eq!(choices[0].1, format!("{marker}  界      ~/界.git"));
        let branch = if nerd_fonts { "\u{e0a0}" } else { "branch:" };
        assert_eq!(
            choices[2].1[..choices[2].1.find(branch).unwrap()].width(),
            choices[3].1[..choices[3].1.find(branch).unwrap()].width()
        );
    }
}

#[test]
fn normal_only_repository_picker_reserves_a_blank_marker_slot() {
    let repository = Repository::Checkout(Checkout {
        worktree_bytes: None,
        name_is_text: true,
        repo: "/repo/.git".into(),
        worktree: "/repo".into(),
        repo_name: "界".into(),
        branch: Some("main".into()),
        linked: false,
    });
    for nerd_fonts in [true, false] {
        let columns = repository.columns(nerd_fonts);
        assert_eq!(columns, ["", "界", "/repo", ""]);
        assert_eq!(
            aligned_choices_with_home(vec![columns], &Vec::new()),
            [("0".to_string(), "   界  /repo".to_string())]
        );
    }
}

#[test]
fn home_paths_shorten_only_component_descendants() {
    let home_list = homes(&["/home/ann"]);
    for (path, expected) in [
        ("/home/ann", "~"),
        ("/home/ann/repo", "~/repo"),
        ("/home/ann/space 界\n", "~/space 界\\n"),
        ("/home/anna/repo", "/home/anna/repo"),
        ("/home/ann-other", "/home/ann-other"),
        ("/outside/repo", "/outside/repo"),
        ("", ""),
    ] {
        let rows = vec![[String::new(), String::new(), path.into(), String::new()]];
        let label = aligned_choices_with_home(rows, &home_list).remove(0).1;
        assert_eq!(label.trim_start(), expected);
    }
    for home in [None, Some(""), Some("relative")] {
        let home_list = home_paths(home, None, None, None);
        assert!(home_list.is_empty());
        let rows = vec![[
            String::new(),
            "repo".into(),
            "/home/ann/repo".into(),
            String::new(),
        ]];
        assert_eq!(
            aligned_choices_with_home(rows, &home_list)[0].1,
            "   repo  /home/ann/repo"
        );
    }
}

#[test]
fn symlinked_home_matches_both_lexical_and_canonical_paths() {
    let home_list = home_paths(Some("/tmp/home link"), None, Some("/tmp/real home"), None);
    assert_eq!(home_list, ["/tmp/home link", "/tmp/real home"]);
    for home in ["/tmp/home link", "/tmp/real home"] {
        let rows = vec![[
            String::new(),
            "repo".into(),
            format!("{home}/界 repo"),
            String::new(),
        ]];
        assert_eq!(
            aligned_choices_with_home(rows, &home_list)[0].1,
            "   repo  ~/界 repo"
        );
    }
    assert_eq!(home_paths(Some("/home/ann"), None, Some("/home/ann/"), None), ["/home/ann"]);
    assert_eq!(home_paths(Some("/home/ann"), None, None, None), ["/home/ann"]);
}

#[test]
fn shortened_paths_are_measured_after_escaping_by_terminal_width() {
    let rows = vec![
        [
            String::new(),
            "界".into(),
            "/long/home/短".into(),
            "branch: one".into(),
        ],
        [
            String::new(),
            "e\u{301}".into(),
            "/long/home/e\u{301}\t".into(),
            "branch: two".into(),
        ],
    ];
    let choices = aligned_choices_with_home(rows, &homes(&["/long/home"]));
    assert_eq!(choices[0], ("0".into(), "   界  ~/短   branch: one".into()));
    assert_eq!(
        choices[1],
        (
            "1".into(),
            "   e\u{301}   ~/e\u{301}\\t  branch: two".into()
        )
    );
    for (_, label) in choices {
        assert_eq!(label[..label.find('~').unwrap()].width(), 7);
        assert_eq!(label[..label.find("branch:").unwrap()].width(), 14);
    }
}

#[test]
fn session_shortening_preserves_names_branches_legacy_labels_and_identity() {
    let mut session = Session {
        id: "$7".into(),
        name: "actual name".into(),
        repo: Some("/home/ann/repo/.git".into()),
        worktree: Some("/home/ann/repo".into()),
        label_meta: Some("legacy  /home/ann/repo".into()),
        name_meta: Some("/home/ann/name".into()),
        branch: Some("/home/ann/branch".into()),
        activity: 0,
    };
    let home_list = homes(&["/home/ann"]);
    let choices = aligned_choices_with_home(vec![session.columns(false)], &home_list);
    assert_eq!(
        choices[0],
        (
            "0".into(),
            "   /home/ann/name  ~/repo  branch: /home/ann/branch".into()
        )
    );
    assert_eq!(session.id, "$7");
    assert_eq!(session.name, "actual name");
    assert_eq!(session.repo.as_deref(), Some("/home/ann/repo/.git"));
    assert_eq!(session.worktree.as_deref(), Some("/home/ann/repo"));
    session.name_meta = None;
    session.branch = None;
    let choices = aligned_choices_with_home(vec![session.columns(false)], &home_list);
    assert_eq!(choices[0].1, "   legacy  /home/ann/repo");
    session.label_meta = None;
    session.name = "/home/ann/foreign".into();
    let choices = aligned_choices_with_home(vec![session.columns(false)], &home_list);
    assert_eq!(choices[0].1, "   /home/ann/foreign");
}

#[test]
fn columns_align_by_terminal_width_without_trailing_padding() {
    let rows = vec![
        [
            String::new(),
            "界".into(),
            "/短".into(),
            "branch: one".into(),
        ],
        [
            String::new(),
            "e\u{301}".into(),
            "/long".into(),
            "branch: two".into(),
        ],
        [String::new(), "main".into(), "/m".into(), String::new()],
        [
            String::new(),
            "old label".into(),
            String::new(),
            String::new(),
        ],
    ];
    let choices = aligned_choices_with_home(rows, &Vec::new());
    assert_eq!(
        choices[0],
        ("0".into(), "   界         /短    branch: one".into())
    );
    assert_eq!(
        choices[1],
        ("1".into(), "   e\u{301}          /long  branch: two".into())
    );
    assert_eq!(choices[2].1, "   main       /m");
    assert_eq!(choices[3].1, "   old label");
    for (_, label) in &choices[..2] {
        assert_eq!(label[..label.find('/').unwrap()].width(), 14);
        assert_eq!(label[..label.find("branch:").unwrap()].width(), 21);
    }
    assert!(aligned_choices_with_home(Vec::new(), &Vec::new()).is_empty());
}

#[test]
fn displayed_controls_are_escaped_without_changing_picker_ids_or_nul_transport() {
    let rows = vec![[
        String::new(),
        "a\tb".into(),
        "/p\n\r\0\u{1b}".into(),
        String::new(),
    ]];
    let choices = aligned_choices_with_home(rows.clone(), &Vec::new());
    assert_eq!(choices[0].1, r"   a\tb  /p\n\r\u{0}\u{1b}");
    assert_eq!(rows[0][2], "/p\n\r\0\u{1b}");
    let input = picker_input(&choices).unwrap();
    assert_eq!(input, "0\t   a\\tb  /p\\n\\r\\u{0}\\u{1b}\0");
    let args = picker_args("test");
    assert_eq!(args[0], "--read0");
    assert_eq!(args[1], "--print0");
    assert_eq!(args[2], "--delimiter");
    assert_eq!(args[4], "--with-nth");
    assert_eq!(args[5], "2..");
    assert_eq!(
        picker_result(Some(0), true, "", input.into_bytes()).unwrap(),
        Some("0".into())
    );
}

#[test]
fn picker_cancellation_wins_over_early_stdin_close() {
    for code in [1, 130] {
        assert_eq!(
            picker_result(Some(code), false, "broken pipe", b"7\tx\0".to_vec()).unwrap(),
            None
        );
    }
}

#[test]
fn picker_preserves_machine_id_and_rejects_bad_output() {
    assert_eq!(
        picker_result(Some(0), true, "", b"7\tlabel with\nnewline\0".to_vec())
            .unwrap()
            .as_deref(),
        Some("7")
    );
    for body in [&b"missing-nul"[..], b"x\0y\0", b"no-tab\0"] {
        assert!(picker_result(Some(0), true, "", body.to_vec()).is_err());
    }
}

#[test]
fn picker_program_receives_nul_mode() {
    let args = picker_args("test");
    assert_eq!(
        args,
        [
            "--read0",
            "--print0",
            "--delimiter",
            "\t",
            "--with-nth",
            "2..",
            "--height",
            "100%",
            "--prompt",
            "test"
        ]
    );
    assert_eq!(
        picker_result(Some(0), true, "", b"0\tx\0".to_vec())
            .unwrap()
            .as_deref(),
        Some("0")
    );
}

#[test]
fn picker_errors_name_what_went_wrong() {
    let failed = picker_result(Some(2), false, "boom \n", Vec::new()).unwrap_err();
    assert!(matches!(&failed, PickerError::Failed(m) if m == "boom"));
    assert_eq!(failed.message(), "fzf failed: boom");
    let signalled = picker_result(None, false, "", Vec::new()).unwrap_err();
    assert_eq!(signalled.message(), "fzf failed: ");
    let bad_utf8 = picker_result(Some(0), true, "", vec![0xff, b'\t', 0]).unwrap_err();
    assert_eq!(bad_utf8.message(), "fzf returned non-UTF-8 output");
    let missing = picker_result(Some(0), true, "", b"0\tx".to_vec()).unwrap_err();
    assert_eq!(missing.message(), "fzf returned an invalid selection");
    let many = picker_result(Some(0), true, "", b"0\tx\x001\ty\0".to_vec()).unwrap_err();
    assert_eq!(many.message(), "fzf returned multiple selections");
    let no_tab = picker_result(Some(0), true, "", b"0\0".to_vec()).unwrap_err();
    assert!(matches!(no_tab, PickerError::Invalid));
    assert_eq!(picker_input(&Vec::new()), None);
}

#[test]
fn picked_ids_name_entries_by_position() {
    assert!(matches!(pick_index("2", 3), Ok(2)));
    assert!(matches!(pick_index("+0", 1), Ok(0)));
    assert!(matches!(pick_index("3", 3), Err(IndexError::Unknown)));
    assert!(matches!(pick_index("", 3), Err(IndexError::NotANumber(_))));
    assert!(matches!(pick_index("x1", 3), Err(IndexError::NotANumber(_))));
    assert!(matches!(
        pick_index("99999999999999999999999", 3),
        Err(IndexError::NotANumber(_))
    ));
}

#[test]
fn command_line_paths_must_be_absolute() {
    assert_eq!(grove::path::absolute_path("/checkout"), Ok("/checkout".to_string()));
    assert_eq!(
        grove::path::absolute_path("checkout"),
        Err("path must be absolute".to_string())
    );
    assert!(grove::path::absolute_path("").is_err());
}

fn row(fields: [&str; 4]) -> [String; 4] {
    fields.map(str::to_owned)
}

#[test]
fn rows_align_by_the_widths_they_are_given() {
    let shown = vec![
        row(["*", "ab", "/x", "main"]),
        row(["", "日本", "/longer", ""]),
        row(["", "", "", ""]),
    ];
    let widths = vec![[1, 2, 2, 4], [0, 4, 7, 0], [0, 0, 0, 0]];
    let choices = align_rows(&shown, &widths);
    assert_eq!(
        choices,
        vec![
            ("0".to_string(), "*  ab    /x       main".to_string()),
            ("1".to_string(), "   日本  /longer".to_string()),
            ("2".to_string(), "".to_string()),
        ]
    );
    let narrow = vec![[1, 2, 2, 4], [0, 2, 7, 0], [0, 0, 0, 0]];
    assert_eq!(align_rows(&shown, &narrow)[0].1, "*  ab  /x       main");
    assert!(align_rows(&Vec::new(), &Vec::new()).is_empty());
}

#[test]
fn one_column_characters_start_each_field_at_its_column() {
    let shown = vec![row(["*", "a", "/p", "x"]), row(["", "long", "/q", ""])];
    let widths = vec![[1, 1, 2, 1], [0, 4, 2, 0]];
    let choices = align_rows(&shown, &widths);
    assert_eq!(choices[0].1, "*  a     /p  x");
    assert_eq!(choices[1].1, "   long  /q");
    for (label, fields) in choices.iter().map(|c| &c.1).zip(&shown) {
        for (field, start) in fields.iter().zip([0, 3, 9, 13]) {
            if !field.is_empty() {
                assert_eq!(&label[start..start + field.len()], field);
            }
        }
        assert!(!label.ends_with(' '));
    }
}

#[test]
fn homes_that_are_not_unicode_never_shorten_paths() {
    let raw = b"/home/\xff".to_vec();
    assert_eq!(
        home_paths(Some("/home/\u{fffd}"), Some(raw.clone()), Some("/data/ann"), None),
        ["/data/ann"]
    );
    assert!(home_paths(Some("/home/\u{fffd}"), Some(raw.clone()), Some("/home/\u{fffd}"), Some(b"/home/\xfe".to_vec())).is_empty());
    let homes = home_paths(Some("/home/\u{fffd}"), Some(raw), None, None);
    let rows = vec![[String::new(), "repo".into(), "/home/\u{fffd}/repo".into(), String::new()]];
    assert_eq!(aligned_choices_with_home(rows, &homes)[0].1, "   repo  /home/\u{fffd}/repo");
}
