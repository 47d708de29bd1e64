use lkdots::config::{Config, Entry, Platfrom};
use lkdots::gitignore::{write_gitignore, GitignoreError};

fn entry(from: &str, encrypt: bool) -> Entry {
    Entry {
        from: from.to_string(),
        to: "/home/user/test_link".to_string(),
        platforms: vec![Platfrom::Linux],
        encrypt,
    }
}

fn test_config(encrypt: bool) -> Config {
    Config {
        entries: vec![entry("/tmp/t/test_file.txt", encrypt)],
        gitignore: "/tmp/t/.gitignore".to_string(),
    }
}

fn lines(v: &[&str]) -> Vec<String> {
    v.iter().map(|s| s.to_string()).collect()
}

#[test]
fn test_write_gitignore_simulate() {
    let config = test_config(true);
    // classification alone must succeed without any file present
    write_gitignore(&config, None).unwrap();
}

#[test]
fn test_write_gitignore_no_encrypt() {
    let config = test_config(false);
    // no encrypting entry and no existing block: nothing to write
    let r = write_gitignore(&config, None).unwrap();
    assert!(r.is_none());
}

#[test]
fn test_write_gitignore_with_encrypt() {
    let config = test_config(true);
    let out = write_gitignore(&config, None).unwrap().unwrap();
    let content = out.lines;
    assert!(content.contains(&"# lkdots start".to_string()));
    assert!(content.contains(&"# lkdots end".to_string()));
    assert!(content.contains(&"test_file.txt/*".to_string()));
    assert!(content.contains(&"!test_file.txt/*.enc".to_string()));
}

#[test]
fn test_write_gitignore_empty_entries() {
    let config = Config {
        entries: vec![],
        gitignore: "/tmp/t/.gitignore".to_string(),
    };
    let r = write_gitignore(&config, None).unwrap();
    assert!(r.is_none());
}

#[test]
fn test_write_gitignore_update_existing_section() {
    let existing = lines(&[
        "# existing entries",
        "*.log",
        "",
        "# lkdots start",
        "old_entry/*",
        "!old_entry/*.enc",
        "# lkdots end",
    ]);
    let config = test_config(true);
    let out = write_gitignore(&config, Some(&existing)).unwrap().unwrap();
    let content = out.lines;
    // entries outside the managed block survive
    assert!(content.contains(&"*.log".to_string()));
    assert!(content.contains(&"# lkdots start".to_string()));
    assert!(content.contains(&"# lkdots end".to_string()));
    // the block is regenerated wholesale
    assert!(!content.contains(&"old_entry/*".to_string()));
    assert!(content.contains(&"test_file.txt/*".to_string()));
    assert!(out.had_start && out.had_end);
}

#[test]
fn test_write_gitignore_simulate_with_existing_section() {
    let existing = lines(&["# lkdots start", "old_entry/*", "# lkdots end"]);
    let config = test_config(true);
    write_gitignore(&config, Some(&existing)).unwrap();
}

#[test]
fn test_write_gitignore_multiple_encrypt_entries() {
    let config = Config {
        entries: vec![entry("/tmp/t/test1.txt", true), entry("/tmp/t/test2.txt", true)],
        gitignore: "/tmp/t/.gitignore".to_string(),
    };
    let out = write_gitignore(&config, None).unwrap().unwrap();
    let content = out.lines.join("\n");
    assert!(content.contains("# lkdots start"));
    assert!(content.contains("# lkdots end"));
    assert!(content.contains("/*"));
    assert!(content.contains("!"));
    assert!(content.contains("test1.txt/*"));
    assert!(content.contains("test2.txt/*"));
}

#[test]
fn test_write_gitignore_preserves_other_content() {
    let existing = lines(&["# My project ignores", "*.log", "node_modules/", ".env"]);
    let config = test_config(true);
    let out = write_gitignore(&config, Some(&existing)).unwrap().unwrap();
    let content = out.lines;
    assert_eq!(&content[0..4], &existing[..]);
    assert!(content.contains(&"*.log".to_string()));
    assert!(content.contains(&"node_modules/".to_string()));
    assert!(content.contains(&".env".to_string()));
    assert!(content.contains(&"# My project ignores".to_string()));
}

#[test]
fn syncing_twice_is_byte_identical() {
    let existing = lines(&["*.log", "# lkdots start", "stale/*", "# lkdots end", "keep me"]);
    let config = Config {
        entries: vec![entry("/tmp/t/alpha", true), entry("/tmp/t/beta", true)],
        gitignore: "/tmp/t/.gitignore".to_string(),
    };
    let first = write_gitignore(&config, Some(&existing)).unwrap().unwrap();
    let second = write_gitignore(&config, Some(&first.lines)).unwrap().unwrap();
    assert_eq!(first.lines, second.lines);
    // outside lines kept verbatim, in order
    assert_eq!(first.lines[0], "*.log");
    assert_eq!(first.lines[1], "keep me");
}

#[test]
fn patterns_already_outside_are_not_duplicated() {
    let existing = lines(&["alpha/*", "other"]);
    let config = Config {
        entries: vec![entry("/tmp/t/alpha", true)],
        gitignore: "/tmp/t/.gitignore".to_string(),
    };
    let out = write_gitignore(&config, Some(&existing)).unwrap().unwrap();
    assert_eq!(out.new_entries, vec!["!alpha/*.enc".to_string()]);
    let occurrences = out.lines.iter().filter(|l| l.as_str() == "alpha/*").count();
    assert_eq!(occurrences, 1);
}

#[test]
fn gitignore_path_without_parent_fails() {
    let config = Config {
        entries: vec![entry("/tmp/t/alpha", true)],
        gitignore: "noslash".to_string(),
    };
    assert_eq!(
        write_gitignore(&config, None),
        Err(GitignoreError::NoParent("noslash".to_string()))
    );
}
