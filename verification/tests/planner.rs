use lkdots::config::{Config, ConfigFileEntry, ConfigFileStruct, Entry, Platfrom};
use lkdots::fsmodel::FsNode;
use lkdots::ops::{excute, link_file, link_file_or_dir, ExecError, Op, PlanError};
use lkdots::paths::{get_dir, join, relative_path, PathError};

fn entry(from: &str, to: &str, encrypt: bool) -> Entry {
    Entry {
        from: from.to_string(),
        to: to.to_string(),
        platforms: vec![Platfrom::Linux, Platfrom::Darwin, Platfrom::Window],
        encrypt,
    }
}

#[test]
fn example_entry_plans_one_symlink_and_mkdir() {
    // entries = [{from: "./src/app", to: "~/app" (expanded), encrypt: false}],
    // target absent, target parent missing.
    let e = entry("./src/app", "/home/user/app", false);
    let base = "/cfg".to_string();
    let ops = e
        .create_ops(&base, &FsNode::Dir(vec![]), None, false)
        .unwrap();
    assert_eq!(
        ops,
        vec![
            Op::Mkdirp("/home/user".to_string()),
            Op::Symlink(
                "/cfg/./src/app".to_string(),
                "/home/user/app".to_string(),
                "../../cfg/src/app".to_string()
            ),
        ]
    );
    // with the parent present there is no Mkdirp
    let ops = e
        .create_ops(&base, &FsNode::Dir(vec![]), None, true)
        .unwrap();
    assert_eq!(ops.len(), 1);
    assert!(matches!(ops[0], Op::Symlink(..)));
    // executing yields exactly the mutating operations
    let acts = excute(&ops).unwrap();
    assert_eq!(acts, ops);
}

#[test]
fn replanning_a_satisfied_link_yields_existed_only() {
    let from = "/dots/vimrc".to_string();
    let to = "/home/user/.vimrc".to_string();
    let tgt = FsNode::Link(Some(from.clone()));
    let mut ops = Vec::new();
    link_file_or_dir(&from, &FsNode::File, &to, Some(&tgt), true, &mut ops).unwrap();
    assert_eq!(ops, vec![Op::Existed(to.clone())]);
    // the second run performs zero filesystem writes
    let acts = excute(&ops).unwrap();
    assert_eq!(acts, Vec::<Op>::new());
}

#[test]
fn link_to_other_target_conflicts() {
    let from = "/dots/vimrc".to_string();
    let to = "/home/user/.vimrc".to_string();
    let tgt = FsNode::Link(Some("/somewhere/else".to_string()));
    let mut ops = Vec::new();
    link_file_or_dir(&from, &FsNode::File, &to, Some(&tgt), true, &mut ops).unwrap();
    assert_eq!(ops, vec![Op::Conflict(to.clone())]);
}

#[test]
fn broken_link_conflicts() {
    let from = "/dots/vimrc".to_string();
    let to = "/home/user/.vimrc".to_string();
    let tgt = FsNode::Link(None);
    let mut ops = Vec::new();
    link_file_or_dir(&from, &FsNode::File, &to, Some(&tgt), true, &mut ops).unwrap();
    assert_eq!(ops, vec![Op::Conflict(to.clone())]);
}

#[test]
fn foreign_file_conflicts_and_blocks_execution() {
    let from = "/dots/vimrc".to_string();
    let to = "/home/user/.vimrc".to_string();
    let mut ops = Vec::new();
    link_file_or_dir(&from, &FsNode::File, &to, Some(&FsNode::File), true, &mut ops).unwrap();
    assert_eq!(ops, vec![Op::Conflict(to.clone())]);
    match excute(&ops) {
        Err(ExecError::Conflicts(cs)) => assert_eq!(cs, vec![to]),
        Ok(_) => panic!("a conflicting plan must not execute"),
    }
}

#[test]
fn absent_directory_is_adopted_wholesale() {
    // a directory with many children still links as one symlink
    let from = "/dots/config".to_string();
    let to = "/home/user/.config".to_string();
    let src = FsNode::Dir(vec![
        ("a".to_string(), FsNode::File),
        ("b".to_string(), FsNode::File),
        ("sub".to_string(), FsNode::Dir(vec![("c".to_string(), FsNode::File)])),
    ]);
    let mut ops = Vec::new();
    link_file_or_dir(&from, &src, &to, None, true, &mut ops).unwrap();
    assert_eq!(
        ops,
        vec![Op::Symlink(from.clone(), to.clone(), "../../dots/config".to_string())]
    );
    // a missing parent adds exactly one Mkdirp in front
    let mut ops = Vec::new();
    link_file_or_dir(&from, &src, &to, None, false, &mut ops).unwrap();
    assert_eq!(ops.len(), 2);
    assert_eq!(ops[0], Op::Mkdirp("/home/user".to_string()));
    assert!(matches!(ops[1], Op::Symlink(..)));
}

#[test]
fn existing_directory_merges_per_child() {
    let from = "/dots/config".to_string();
    let to = "/home/user/.config".to_string();
    let src = FsNode::Dir(vec![
        ("a".to_string(), FsNode::File),
        ("b".to_string(), FsNode::File),
    ]);
    // child a is already linked; child b is absent
    let tgt = FsNode::Dir(vec![(
        "a".to_string(),
        FsNode::Link(Some("/dots/config/a".to_string())),
    )]);
    let mut ops = Vec::new();
    link_file_or_dir(&from, &src, &to, Some(&tgt), true, &mut ops).unwrap();
    assert_eq!(
        ops,
        vec![
            Op::Existed("/home/user/.config/a".to_string()),
            Op::Symlink(
                "/dots/config/b".to_string(),
                "/home/user/.config/b".to_string(),
                "../../../dots/config/b".to_string()
            ),
        ]
    );
    // the merge produces the same count as planning each child alone
    let mut alone = Vec::new();
    let ta = FsNode::Link(Some("/dots/config/a".to_string()));
    link_file_or_dir(
        &"/dots/config/a".to_string(),
        &FsNode::File,
        &"/home/user/.config/a".to_string(),
        Some(&ta),
        true,
        &mut alone,
    )
    .unwrap();
    link_file_or_dir(
        &"/dots/config/b".to_string(),
        &FsNode::File,
        &"/home/user/.config/b".to_string(),
        None,
        true,
        &mut alone,
    )
    .unwrap();
    assert_eq!(ops, alone);
}

#[test]
fn merging_into_directory_from_file_fails() {
    let from = "/dots/thing".to_string();
    let to = "/home/user/thing".to_string();
    let mut ops = Vec::new();
    let r = link_file_or_dir(
        &from,
        &FsNode::File,
        &to,
        Some(&FsNode::Dir(vec![])),
        true,
        &mut ops,
    );
    assert_eq!(r, Err(PlanError::SourceNotDirectory(from)));
    assert_eq!(ops, Vec::<Op>::new());
}

#[test]
fn encrypted_source_is_never_linked() {
    let from = "/dots/secret.key.enc".to_string();
    let to = "/home/user/secret.key.enc".to_string();
    let mut ops = Vec::new();
    link_file(&from, &to, true, &mut ops).unwrap();
    assert_eq!(ops, Vec::<Op>::new());
    // even with a missing parent nothing is planned
    let mut ops = Vec::new();
    link_file(&from, &to, false, &mut ops).unwrap();
    assert_eq!(ops, Vec::<Op>::new());
}

#[test]
fn target_without_parent_fails() {
    let from = "/dots/vimrc".to_string();
    let to = "noslash".to_string();
    let mut ops = Vec::new();
    let r = link_file(&from, &to, true, &mut ops);
    assert_eq!(r, Err(PlanError::NoParent(to)));
}

#[test]
fn anchored_source_ignores_base_dir() {
    let e = entry("/abs/path", "/home/user/p", false);
    let base = "/cfg".to_string();
    let ops = e
        .create_ops(&base, &FsNode::File, None, true)
        .unwrap();
    assert_eq!(
        ops,
        vec![Op::Symlink(
            "/abs/path".to_string(),
            "/home/user/p".to_string(),
            "../../abs/path".to_string()
        )]
    );
}

#[test]
fn match_platform_checks_membership() {
    let mut e = entry("/a", "/b", false);
    assert!(e.match_platform(Platfrom::Linux));
    assert!(e.match_platform(Platfrom::Darwin));
    e.platforms = vec![Platfrom::Window];
    assert!(!e.match_platform(Platfrom::Linux));
    assert!(e.match_platform(Platfrom::Window));
    e.platforms = vec![];
    assert!(!e.match_platform(Platfrom::Window));
}

#[test]
fn config_defaults_fill_platforms_and_encrypt() {
    let file = ConfigFileStruct {
        entries: vec![
            ConfigFileEntry {
                from: "a".to_string(),
                to: "b".to_string(),
                platforms: None,
                encrypt: None,
            },
            ConfigFileEntry {
                from: "c".to_string(),
                to: "d".to_string(),
                platforms: Some(vec![Platfrom::Darwin]),
                encrypt: Some(true),
            },
        ],
        gitignore: "/repo/.gitignore".to_string(),
    };
    let cfg = Config::from(file);
    assert_eq!(cfg.gitignore, "/repo/.gitignore");
    assert_eq!(cfg.entries.len(), 2);
    assert_eq!(
        cfg.entries[0].platforms,
        vec![Platfrom::Linux, Platfrom::Darwin, Platfrom::Window]
    );
    assert!(!cfg.entries[0].encrypt);
    assert_eq!(cfg.entries[1].platforms, vec![Platfrom::Darwin]);
    assert!(cfg.entries[1].encrypt);
}

#[test]
fn path_helpers_behave() {
    assert_eq!(
        join(&"/a/b".to_string(), &"c".to_string()),
        "/a/b/c".to_string()
    );
    assert_eq!(
        join(&"/a/b/".to_string(), &"c".to_string()),
        "/a/b/c".to_string()
    );
    assert_eq!(get_dir(&"/a/b".to_string(), true), Ok("/a/b".to_string()));
    assert_eq!(get_dir(&"/a/b".to_string(), false), Ok("/a".to_string()));
    assert_eq!(get_dir(&"/a".to_string(), false), Ok("/".to_string()));
    assert_eq!(get_dir(&"/".to_string(), false), Err(PathError::NoParent));
    assert_eq!(get_dir(&"rel".to_string(), false), Err(PathError::NoParent));
}

#[test]
fn relative_path_matches_known_differences() {
    assert_eq!(
        relative_path(&"/foo/bar/baz".to_string(), &"/foo/bar".to_string()),
        Ok("baz".to_string())
    );
    assert_eq!(
        relative_path(&"/foo/bar".to_string(), &"/foo/quux".to_string()),
        Ok("../bar".to_string())
    );
    assert_eq!(
        relative_path(&"/foo".to_string(), &"..".to_string()),
        Ok("/foo".to_string())
    );
}
