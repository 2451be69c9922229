use std::time::Duration;

use herostratus::achievement::sink::render;
use herostratus::achievement::Achievement;
use herostratus::cli::CheckArgs;
use herostratus::commands::check;
use herostratus::config::{exclude_all_rules_except, Config};
use herostratus::git::{Commit, EntryMode, ObjectId, Signature, TreeChange, WalkItem};

fn id_of(hex: &str) -> ObjectId {
    ObjectId::from_hex(hex).unwrap()
}

fn author() -> Signature {
    Signature {
        name: b"Herostratus".to_vec(),
        email: b"Herostratus@example.com".to_vec(),
        seconds: 1711656630,
        offset_minutes: 0,
    }
}

/// A history, oldest first: each commit has the one before it as its parent.
struct History {
    items: Vec<WalkItem>,
}

impl History {
    fn new() -> History {
        History { items: Vec::new() }
    }

    fn commit(&mut self, hex: &str, message: &[u8], changes: Vec<TreeChange>) {
        let parents = match self.items.last() {
            Some(parent) => vec![parent.commit.id],
            None => Vec::new(),
        };
        let tree = ObjectId::from_bytes([0xEE; 20]);
        let commit = Commit::from_message(id_of(hex), parents, author(), author(), message, tree);
        self.items.push(WalkItem { commit, changes });
    }

    /// What a walk from the newest commit shows.
    fn walk(&self) -> Vec<WalkItem> {
        self.items.iter().rev().cloned().collect()
    }
}

fn blob(n: u8) -> ObjectId {
    ObjectId::from_bytes([n; 20])
}

fn new_file(path: &str, n: u8) -> TreeChange {
    TreeChange::Addition {
        path: path.as_bytes().to_vec(),
        entry_mode: EntryMode::File,
        new_id: blob(n),
    }
}

fn edit(path: &str, n: u8, old: &str, new: &str) -> TreeChange {
    TreeChange::Modification {
        path: path.as_bytes().to_vec(),
        old_mode: EntryMode::File,
        new_mode: EntryMode::File,
        old_id: blob(n),
        new_id: blob(n + 1),
        old_content: old.as_bytes().to_vec(),
        new_content: new.as_bytes().to_vec(),
    }
}

fn args_of(depth: Option<usize>) -> CheckArgs {
    CheckArgs {
        path: ".".to_string(),
        reference: "origin/test".to_string(),
        depth,
        summary: false,
    }
}

/// What is printed for the achievements, a line for each.
fn printed(achievements: &[Achievement]) -> String {
    let lines: Vec<String> = achievements.iter().map(render).collect();
    lines.join("\n")
}

fn run(history: &History, config: Option<&Config>, depth: Option<usize>) -> (u64, String) {
    let (stat, achievements) = check(&args_of(depth), config, &history.walk(), Duration::ZERO);
    assert_eq!(stat.num_achievements_granted, achievements.len() as u64);
    (stat.num_commits_checked, printed(&achievements))
}

/// A branch whose newest commit is no fixup commit, but whose parent is.
fn fixup_branch() -> History {
    let mut history = History::new();
    let file = || vec![new_file("file", 1)];
    history.commit("b2829a2a7e2e1ab2a8b9ad7d3a6a2e6e5f0c1d01", b"Initial commit", file());
    history.commit("2721748d8fa0b0cc3302b41733d37e30161eabfd", b"fixup! Initial commit", file());
    history.commit("4e2d5c5e2f1c4a6b8d0e9f7a6b5c4d3e2f1a0b02", b"An ordinary commit", file());
    history.commit("a987013884fc7dafbe9eb080d7cbc8625408a85f", b"squash! A commit", file());
    history.commit("60b480b554dbd5266eec0f2378f72df5170a6702", b"amend! A commit", file());
    history.commit("7c1a3f5e9b2d4c6e8a0b1c3d5e7f9a1b3c5d7e03", b"The last commit", file());
    history
}

#[test]
fn search_depth() {
    let config = exclude_all_rules_except("H1-fixup");
    let history = fixup_branch();

    let (commits, stdout) = run(&history, Some(&config), Some(1));
    assert_eq!(commits, 1, "Found != 1 commits");
    assert_eq!(stdout, "");

    let (commits, stdout) = run(&history, Some(&config), Some(2));
    assert_eq!(commits, 2, "Found != 2 commits");
    assert_eq!(
        stdout,
        "Achievement { name: \"I meant to fix that up later, I swear!\", \
         commit: Sha1(60b480b554dbd5266eec0f2378f72df5170a6702) }"
    );
}

#[test]
fn check_search_current_repo_for_fixup_commits() {
    let config = exclude_all_rules_except("H1-fixup");
    let (commits, stdout) = run(&fixup_branch(), Some(&config), None);
    assert_eq!(commits, 6);

    // These are the three fixup! commits in the branch
    assert!(stdout.contains("60b480b554dbd5266eec0f2378f72df5170a6702"));
    assert!(stdout.contains("a987013884fc7dafbe9eb080d7cbc8625408a85f"));
    assert!(stdout.contains("2721748d8fa0b0cc3302b41733d37e30161eabfd"));
    assert_eq!(stdout.lines().count(), 3);
}

#[test]
fn h004_non_unicode() {
    let config = exclude_all_rules_except("H4-non-unicode");
    let mut history = History::new();
    let file = || vec![new_file("file", 1)];
    history.commit("1d3c5e7f9a1b3c5d7e9f1a3b5c7d9e1f3a5b7c04", b"Initial commit", file());
    history.commit(
        "0f64af5fd5f51a45943dcd3f8c0fb53b88974aec",
        b"\xE4\xF6\xFC is not encoded as UTF-8",
        file(),
    );
    history.commit(
        "9e8d7c6b5a4f3e2d1c0b9a8f7e6d5c4b3a2f1e05",
        "\u{e4}\u{f6}\u{fc} is encoded as UTF-8".as_bytes(),
        file(),
    );

    let (commits, stdout) = run(&history, Some(&config), None);
    assert_eq!(commits, 3);
    assert!(
        stdout.contains("0f64af5fd5f51a45943dcd3f8c0fb53b88974aec"),
        "Output did not contain hash: {stdout:?}"
    );
    assert_eq!(stdout.lines().count(), 1);
}

#[test]
fn h005_empty_commit() {
    let config = exclude_all_rules_except("H5-empty-commit");
    let mut history = History::new();
    let file = || vec![new_file("file", 1)];
    history.commit("3b5d7f9a1c3e5a7b9d1f3b5d7f9a1c3e5a7b9d06", b"Initial commit", file());
    history.commit("2dcecd66c21932043cf127b31218cb67c2b0f0a4", b"Nothing at all", Vec::new());
    history.commit("5f7a9c1e3b5d7f9a1c3e5a7b9d1f3b5d7f9a1c07", b"Something again", file());

    let (commits, stdout) = run(&history, Some(&config), None);
    assert_eq!(commits, 3);
    assert!(
        stdout.contains("2dcecd66c21932043cf127b31218cb67c2b0f0a4"),
        "Output did not contain hash: {stdout:?}"
    );
    assert_eq!(stdout.lines().count(), 1);
}

#[test]
fn h006_whitespace_only() {
    let mut history = History::new();
    history.commit("37f5c446079eff62dcca0c3ada2c6b8786b94d16", b"Initial empty commit", Vec::new());
    history.commit(
        "0eef8fb603dd80af0997b15832538347bd07c264",
        b"Add empty file",
        vec![new_file("file", 1)],
    );
    history.commit(
        "5caf531c4722da09c1c0b6dba1ab12b0f9770813",
        b"Add line to empty file",
        vec![edit("file", 1, "", "first line\n")],
    );
    history.commit(
        "10d071c0b3900d8f04e95212ce8d2c4eeebd4b1d",
        b"Add second line to file",
        vec![edit("file", 2, "first line\n", "first line\nsecond line\n")],
    );
    history.commit(
        "8ff39de70dc7b67524d9db9c73192c9d09d9540e",
        b"Add trailing whitespace",
        vec![edit("file", 3, "first line\nsecond line\n", "first line  \nsecond line\n")],
    );
    history.commit(
        "22ac84cc185282be9077da83c0ad3bfd52c1df58",
        b"Add indentation",
        vec![edit("file", 4, "first line  \nsecond line\n", "first line  \n    second line\n")],
    );
    history.commit(
        "7e6c42efee5d236890b65c9dfaaf7b42c2b8754a",
        b"Remove trailing whitespace",
        vec![edit("file", 5, "first line  \n    second line\n", "first line\n    second line\n")],
    );
    history.commit(
        "862ad9c83d8285ebb2eb738ab02e1a7569a1f44b",
        b"Dedent line",
        vec![edit("file", 6, "first line\n    second line\n", "first line\nsecond line\n")],
    );
    history.commit(
        "5e21807f70160a0a4cf625a5c72f4f9ebc327c1b",
        b"Add non-empty file",
        vec![new_file("other", 8)],
    );

    let (commits, stdout) = run(&history, None, None);
    assert_eq!(commits, 9);

    // Initial empty commit: this one is granted for being empty, not for its whitespace
    assert!(
        stdout.contains("37f5c446079eff62dcca0c3ada2c6b8786b94d16"),
        "Output did not contain hash: {stdout:?}"
    );
    // Add empty file
    assert!(!stdout.contains("0eef8fb603dd80af0997b15832538347bd07c264"));
    // Add line to empty file
    assert!(!stdout.contains("5caf531c4722da09c1c0b6dba1ab12b0f9770813"));
    // Add second line to file
    assert!(!stdout.contains("10d071c0b3900d8f04e95212ce8d2c4eeebd4b1d"));
    // Add trailing whitespace
    assert!(stdout.contains("8ff39de70dc7b67524d9db9c73192c9d09d9540e"));
    // Add indentation
    assert!(stdout.contains("22ac84cc185282be9077da83c0ad3bfd52c1df58"));
    // Remove trailing whitespace
    assert!(stdout.contains("7e6c42efee5d236890b65c9dfaaf7b42c2b8754a"));
    // Dedent line
    assert!(stdout.contains("862ad9c83d8285ebb2eb738ab02e1a7569a1f44b"));
    // Add non-empty file
    assert!(!stdout.contains("5e21807f70160a0a4cf625a5c72f4f9ebc327c1b"));

    let whitespace = "Whitespace Warrior";
    assert_eq!(stdout.lines().count(), 5);
    assert_eq!(stdout.lines().filter(|l| l.contains(whitespace)).count(), 4);
}
