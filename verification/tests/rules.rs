use herostratus::achievement::{grant_with_rules, Rule};
use herostratus::cache::EntryCache;
use herostratus::config::{H002Config, H003Config, RulesConfig};
use herostratus::git::{Commit, EntryMode, ObjectId, Signature, TreeChange, WalkItem};
use herostratus::rules::{
    subject_line_factory, BuiltinRule, EmptyCommit, Fixup, NonUnicode, SubjectLineLength,
    WhitespaceOnly,
};

fn oid(n: u8) -> ObjectId {
    ObjectId::from_bytes([n; 20])
}

fn signature() -> Signature {
    Signature {
        name: b"Herostratus".to_vec(),
        email: b"Herostratus@example.com".to_vec(),
        seconds: 1711656630,
        offset_minutes: 0,
    }
}

/// A repository of commits without changes, oldest first.
struct TempRepository {
    commits: Vec<Commit>,
}

fn with_empty_commits(messages: &[&str]) -> TempRepository {
    let mut repo = TempRepository {
        commits: Vec::new(),
    };
    for message in messages {
        add_empty_commit(&mut repo, message);
    }
    repo
}

fn simplest() -> TempRepository {
    with_empty_commits(&["Initial commit"])
}

fn add_empty_commit(repo: &mut TempRepository, message: &str) -> ObjectId {
    let id = oid(repo.commits.len() as u8 + 1);
    let parents = match repo.commits.last() {
        Some(parent) => vec![parent.id],
        None => Vec::new(),
    };
    repo.commits.push(Commit::from_message(
        id,
        parents,
        signature(),
        signature(),
        message.as_bytes(),
        oid(0xEE),
    ));
    id
}

/// What `HEAD` resolves to.
fn head(repo: &TempRepository) -> ObjectId {
    repo.commits.last().unwrap().id
}

/// The commits that `HEAD` reaches, newest first.
fn walk(repo: &TempRepository) -> Vec<WalkItem> {
    repo.commits
        .iter()
        .rev()
        .map(|commit| WalkItem {
            commit: commit.clone(),
            changes: Vec::new(),
        })
        .collect()
}

fn title_of(repo: &TempRepository, id: ObjectId) -> Vec<u8> {
    repo.commits
        .iter()
        .find(|c| c.id == id)
        .unwrap()
        .message_title
        .clone()
}

/// The rule on the shortest subject line alone, as it was before it shared a rule with the
/// longest.
fn shortest_subject_line() -> SubjectLineLength {
    let mut rule = SubjectLineLength::default();
    rule.disable_by_id(3);
    rule
}

/// The rule on the longest subject line alone.
fn longest_subject_line() -> SubjectLineLength {
    let mut rule = SubjectLineLength::default();
    rule.disable_by_id(2);
    rule
}

#[test]
fn h002_h003_subject_line_test_all_above_threshold() {
    let config = RulesConfig {
        h2_shortest_subject_line: Some(H002Config {
            length_threshold: 7,
        }),
        ..Default::default()
    };
    let repo = with_empty_commits(&["0123456789", "1234567890"]);
    let rules = vec![subject_line_factory(&config)];
    let mut cache = EntryCache::default();
    let achievements = grant_with_rules(&walk(&repo), &mut cache, None, rules);
    assert!(achievements.is_empty());
}

#[test]
fn h002_h003_subject_line_test_has_short_subject() {
    let repo = with_empty_commits(&["0123456789", "1234", "1234567", "12345"]);
    let rules = vec![SubjectLineLength::default()];
    let mut cache = EntryCache::default();
    let achievements = grant_with_rules(&walk(&repo), &mut cache, None, rules);
    assert_eq!(achievements.len(), 1);

    let oid = achievements[0].commit;
    let summary = title_of(&repo, oid);
    assert_eq!(summary, b"1234");
}

#[test]
fn h002_h003_subject_line_test_resets_state_between_repositories() {
    let repo1 = with_empty_commits(&["0123456789", "1234567", "234"]);
    let repo2 = with_empty_commits(&["1234567890", "2345671", "1234"]);

    let rules1 = vec![SubjectLineLength::default()];
    // grant_with_rules() consumes the rules Vec, so there _can't_ be any state held between
    // processing any two repositories
    let rules2 = vec![SubjectLineLength::default()];

    let mut cache1 = EntryCache::default();
    let achievements1 = grant_with_rules(&walk(&repo1), &mut cache1, None, rules1);
    let mut cache2 = EntryCache::default();
    let achievements2 = grant_with_rules(&walk(&repo2), &mut cache2, None, rules2);
    assert_eq!(achievements1.len(), 1);
    assert_eq!(achievements2.len(), 1);

    let oid = achievements1[0].commit;
    let summary = title_of(&repo1, oid);
    assert_eq!(summary, b"234");

    let oid = achievements2[0].commit;
    let summary = title_of(&repo2, oid);
    assert_eq!(summary, b"1234");
}

#[test]
fn h002_h003_subject_line_test_has_long_subject() {
    let config = RulesConfig {
        h3_longest_subject_line: Some(H003Config {
            length_threshold: 8,
        }),
        ..Default::default()
    };
    let repo = with_empty_commits(&[
        "1234",
        "1234567890", // 10
        "123456789",  // 9
    ]);
    let rules = vec![subject_line_factory(&config)];
    let mut cache = EntryCache::default();
    let achievements = grant_with_rules(&walk(&repo), &mut cache, None, rules);
    assert_eq!(achievements.len(), 2); // two achievements: one for the shortest and longest

    assert_eq!(achievements[0].name, "Brevity is the soul of wit");
    let oid = achievements[0].commit;
    let summary = title_of(&repo, oid);
    assert_eq!(summary, b"1234");

    assert_eq!(
        achievements[1].name,
        "50 characters was more of a suggestion anyways"
    );
    let oid = achievements[1].commit;
    let summary = title_of(&repo, oid);
    assert_eq!(summary, b"1234567890");
}

#[test]
fn test_shortest_on_first_run() {
    let mut cache = EntryCache::default();

    let config = RulesConfig {
        h2_shortest_subject_line: Some(H002Config {
            length_threshold: 8,
        }),
        ..Default::default()
    };
    let mut repo = with_empty_commits(&[
        "1234",
        "1234567890", // 10
        "123456789",  // 9
    ]);
    let rules = vec![subject_line_factory(&config)];
    let achievements = grant_with_rules(&walk(&repo), &mut cache, None, rules);
    assert_eq!(achievements.len(), 1);

    // Add another commit with a subject line shorter than the threshold, but longer than the
    // shortest so far
    add_empty_commit(&mut repo, "123456");

    let rules = vec![subject_line_factory(&config)];
    let achievements = grant_with_rules(&walk(&repo), &mut cache, None, rules);
    assert!(achievements.is_empty());
}

#[test]
fn test_shortest_on_second_run() {
    let mut cache = EntryCache::default();

    let config = RulesConfig {
        h2_shortest_subject_line: Some(H002Config {
            length_threshold: 8,
        }),
        ..Default::default()
    };
    let mut repo = with_empty_commits(&[
        "1234",
        "1234567890", // 10
        "123456789",  // 9
    ]);
    let rules = vec![subject_line_factory(&config)];
    let achievements = grant_with_rules(&walk(&repo), &mut cache, None, rules);
    assert_eq!(achievements.len(), 1);
    assert_eq!(cache.shortest_subject_line_length, Some(4));

    // Add another commit with a subject line shorter than the shortest so far
    let new_shortest = add_empty_commit(&mut repo, "123");

    let rules = vec![subject_line_factory(&config)];
    let achievements = grant_with_rules(&walk(&repo), &mut cache, None, rules);
    assert_eq!(achievements.len(), 1);
    assert_eq!(achievements[0].commit, new_shortest);
    assert_eq!(cache.shortest_subject_line_length, Some(3));
}

#[test]
fn h002_shortest_subject_line_test_all_above_threshold() {
    let repo = with_empty_commits(&["0123456789", "1234567890"]);
    let rules = vec![shortest_subject_line()];
    let mut cache = EntryCache::default();
    let achievements = grant_with_rules(&walk(&repo), &mut cache, None, rules);
    assert!(achievements.is_empty());
}

#[test]
fn h002_shortest_subject_line_test_has_short_subject() {
    let repo = with_empty_commits(&["0123456789", "1234", "1234567", "12345"]);
    let rules = vec![shortest_subject_line()];
    let mut cache = EntryCache::default();
    let achievements = grant_with_rules(&walk(&repo), &mut cache, None, rules);
    assert_eq!(achievements.len(), 1);

    let oid = achievements[0].commit;
    assert_eq!(title_of(&repo, oid), b"1234");
}

#[test]
fn h002_shortest_subject_line_test_resets_state_between_repositories() {
    let repo1 = with_empty_commits(&["0123456789", "1234567", "234"]);
    let repo2 = with_empty_commits(&["1234567890", "2345671", "1234"]);

    let rules1 = vec![shortest_subject_line()];
    let rules2 = vec![shortest_subject_line()];

    let mut cache1 = EntryCache::default();
    let mut cache2 = EntryCache::default();
    let achievements1 = grant_with_rules(&walk(&repo1), &mut cache1, None, rules1);
    let achievements2 = grant_with_rules(&walk(&repo2), &mut cache2, None, rules2);
    assert_eq!(achievements1.len(), 1);
    assert_eq!(achievements2.len(), 1);

    let oid = achievements1[0].commit;
    assert_eq!(title_of(&repo1, oid), b"234");

    let oid = achievements2[0].commit;
    assert_eq!(title_of(&repo2, oid), b"1234");
}

#[test]
fn h003_longest_subject_line_test_all_below_threshold() {
    let repo = with_empty_commits(&["0123456789", "1234567890"]);
    let rules = vec![longest_subject_line()];
    let mut cache = EntryCache::default();
    let achievements = grant_with_rules(&walk(&repo), &mut cache, None, rules);
    assert!(achievements.is_empty());
}

#[test]
fn h003_longest_subject_line_test_has_long_subject() {
    let repo = with_empty_commits(&[
        "1234",
        "0123456789012345678901234567890123456789012345678901234567890123456789012345678", // 79
        "0123456789012345678901234567890123456789012345678901234567890123456789012345",    // 76
    ]);
    let rules = vec![longest_subject_line()];
    let mut cache = EntryCache::default();
    let achievements = grant_with_rules(&walk(&repo), &mut cache, None, rules);
    assert_eq!(achievements.len(), 1);

    let oid = achievements[0].commit;
    assert_eq!(
        title_of(&repo, oid),
        b"0123456789012345678901234567890123456789012345678901234567890123456789012345678"
    );
}

#[test]
fn shortest_subject_line_with_threshold_ten() {
    // walk order: newest first
    let repo = with_empty_commits(&["12345", "1234567", "1234", "0123456789"]);
    let titles: Vec<Vec<u8>> = walk(&repo)
        .iter()
        .map(|item| item.commit.message_title.clone())
        .collect();
    assert_eq!(
        titles,
        [
            b"0123456789".to_vec(),
            b"1234".to_vec(),
            b"1234567".to_vec(),
            b"12345".to_vec()
        ]
    );
    let config = RulesConfig {
        h2_shortest_subject_line: Some(H002Config {
            length_threshold: 10,
        }),
        ..Default::default()
    };
    let rules = vec![subject_line_factory(&config)];
    let mut cache = EntryCache::default();
    let achievements = grant_with_rules(&walk(&repo), &mut cache, None, rules);
    assert_eq!(achievements.len(), 1);
    assert_eq!(achievements[0].name, "Brevity is the soul of wit");
    assert_eq!(title_of(&repo, achievements[0].commit), b"1234");
}

#[test]
fn shortest_and_longest_with_thresholds_eight() {
    let config = RulesConfig {
        h2_shortest_subject_line: Some(H002Config {
            length_threshold: 8,
        }),
        h3_longest_subject_line: Some(H003Config {
            length_threshold: 8,
        }),
        ..Default::default()
    };
    let repo = with_empty_commits(&["1234", "1234567890", "123456789"]);
    let rules = vec![subject_line_factory(&config)];
    let mut cache = EntryCache::default();
    let achievements = grant_with_rules(&walk(&repo), &mut cache, None, rules);
    assert_eq!(achievements.len(), 2);
    assert_eq!(achievements[0].name, "Brevity is the soul of wit");
    assert_eq!(title_of(&repo, achievements[0].commit), b"1234");
    assert_eq!(
        achievements[1].name,
        "50 characters was more of a suggestion anyways"
    );
    assert_eq!(title_of(&repo, achievements[1].commit), b"1234567890");
}

#[test]
fn of_two_equally_short_subject_lines_the_newer_wins() {
    let repo = with_empty_commits(&["abc", "xyz", "long enough to not count"]);
    let rules = vec![SubjectLineLength::default()];
    let mut cache = EntryCache::default();
    let achievements = grant_with_rules(&walk(&repo), &mut cache, None, rules);
    assert_eq!(achievements.len(), 1);
    assert_eq!(title_of(&repo, achievements[0].commit), b"xyz");
}

#[test]
fn fixup_prefixes() {
    // oldest first, so that the walk is: "WIP: experiment", "feat: normal", "fixup! feat: normal"
    let repo = with_empty_commits(&["fixup! feat: normal", "feat: normal", "WIP: experiment"]);
    let rules = vec![Fixup::default()];
    let mut cache = EntryCache::default();
    let achievements = grant_with_rules(&walk(&repo), &mut cache, None, rules);
    assert_eq!(achievements.len(), 2);
    // newest first
    assert_eq!(title_of(&repo, achievements[0].commit), b"WIP: experiment");
    assert_eq!(
        title_of(&repo, achievements[1].commit),
        b"fixup! feat: normal"
    );
    assert_eq!(
        achievements[0].name,
        "I meant to fix that up later, I swear!"
    );
}

#[test]
fn fixup_takes_each_of_its_markers() {
    let marked = [
        "fixup! x", "squash! x", "amend! x", "WIP", "TODO: x", "FIXME x", "DROPME", "wip: x",
        "todo x", "fixme", "dropme x",
    ];
    let unmarked = [
        "wip x", "wipe the floor", "Fixup! x", "a fixup! x", "", "fixup", "squash", "feat: WIP",
        "Todo",
    ];
    let mut rule = Fixup::default();
    for title in marked {
        let repo = with_empty_commits(&[title]);
        assert_eq!(rule.process(&repo.commits[0]).len(), 1, "{title:?}");
    }
    for title in unmarked {
        let repo = with_empty_commits(&[title]);
        assert!(rule.process(&repo.commits[0]).is_empty(), "{title:?}");
    }
}

fn commit_with_message(message: &[u8]) -> Commit {
    Commit::from_message(oid(1), Vec::new(), signature(), signature(), message, oid(0xEE))
}

#[test]
fn title_and_body_are_cut_at_the_first_line_feed() {
    let commit = commit_with_message(b"title\n\nbody\nmore");
    assert_eq!(commit.message_title, b"title");
    assert_eq!(commit.message_body, b"\nbody\nmore");
    let commit = commit_with_message(b"only a title");
    assert_eq!(commit.message_title, b"only a title");
    assert!(commit.message_body.is_empty());
    let commit = commit_with_message(b"\nbody");
    assert!(commit.message_title.is_empty());
    assert_eq!(commit.message_body, b"body");
    let commit = commit_with_message(b"");
    assert!(commit.message_title.is_empty());
    assert!(commit.message_body.is_empty());
    assert!(!commit.is_merge());
}

#[test]
fn non_unicode_message() {
    let mut rule = NonUnicode::default();
    assert!(rule.process(&commit_with_message(b"plain")).is_empty());
    assert!(rule
        .process(&commit_with_message("gr\u{fc}\u{df}e\n\n\u{1F600}".as_bytes()))
        .is_empty());
    let granted = rule.process(&commit_with_message(b"broken \xFF title"));
    assert_eq!(granted.len(), 1);
    assert_eq!(granted[0].name, "But ... How?!");
    assert_eq!(granted[0].commit, oid(1));
    assert_eq!(
        rule.process(&commit_with_message(b"title\n\nbroken \xC3 body"))
            .len(),
        1
    );
    // cut in the middle of a character
    assert_eq!(rule.process(&commit_with_message(b"\xE2\x82")).len(), 1);
}

fn modification(path: &str, old: &[u8], new: &[u8]) -> TreeChange {
    TreeChange::Modification {
        path: path.as_bytes().to_vec(),
        old_mode: EntryMode::File,
        new_mode: EntryMode::File,
        old_id: oid(0xA0),
        new_id: oid(0xA1),
        old_content: old.to_vec(),
        new_content: new.to_vec(),
    }
}

fn addition(path: &str) -> TreeChange {
    TreeChange::Addition {
        path: path.as_bytes().to_vec(),
        entry_mode: EntryMode::File,
        new_id: oid(0xA2),
    }
}

fn changed(id: u8, parents: Vec<ObjectId>, changes: Vec<TreeChange>) -> WalkItem {
    WalkItem {
        commit: Commit::from_message(
            oid(id),
            parents,
            signature(),
            signature(),
            b"change",
            oid(0xEE),
        ),
        changes,
    }
}

#[test]
fn empty_commit() {
    let history = vec![
        changed(3, vec![oid(2)], Vec::new()),
        changed(2, vec![oid(1)], vec![addition("b")]),
        changed(1, Vec::new(), vec![addition("a"), addition("c")]),
    ];
    let mut cache = EntryCache::default();
    let achievements = grant_with_rules(&history, &mut cache, None, vec![EmptyCommit::default()]);
    assert_eq!(achievements.len(), 1);
    assert_eq!(achievements[0].commit, oid(3));
    assert_eq!(achievements[0].name, "You can always add more later");
}

#[test]
fn whitespace_only() {
    let tree = TreeChange::Modification {
        path: b"dir".to_vec(),
        old_mode: EntryMode::Tree,
        new_mode: EntryMode::Tree,
        old_id: oid(0xB0),
        new_id: oid(0xB1),
        old_content: Vec::new(),
        new_content: Vec::new(),
    };
    let submodule = TreeChange::Modification {
        path: b"sub".to_vec(),
        old_mode: EntryMode::Submodule,
        new_mode: EntryMode::Submodule,
        old_id: oid(0xB2),
        new_id: oid(0xB3),
        old_content: Vec::new(),
        new_content: Vec::new(),
    };
    let history = vec![
        // whitespace only, in a file below a directory
        changed(
            6,
            vec![oid(5)],
            vec![tree.clone(), modification("dir/a", b"a b", b"a\n\tb ")],
        ),
        // nothing changed at all
        changed(5, vec![oid(4)], Vec::new()),
        // one file with whitespace only, one with more
        changed(
            4,
            vec![oid(3)],
            vec![
                modification("a", b"a b", b"ab"),
                modification("b", b"a b", b"a c"),
            ],
        ),
        // a file was added next to a whitespace change
        changed(
            3,
            vec![oid(2)],
            vec![modification("a", b"ab", b"a b"), addition("c")],
        ),
        // a submodule moved
        changed(2, vec![oid(1)], vec![submodule]),
        changed(1, Vec::new(), vec![addition("a")]),
    ];
    let mut cache = EntryCache::default();
    let achievements =
        grant_with_rules(&history, &mut cache, None, vec![WhitespaceOnly::default()]);
    assert_eq!(achievements.len(), 1);
    assert_eq!(achievements[0].commit, oid(6));
    assert_eq!(achievements[0].name, "Whitespace Warrior");
}

#[test]
fn changes_of_a_merge_are_not_shown_to_any_rule() {
    // The same changes on a commit with one parent and on a merge.
    let changes = vec![modification("a", b"a b", b"ab")];
    let plain = vec![changed(3, vec![oid(2)], changes.clone())];
    let merge = vec![changed(3, vec![oid(2), oid(1)], changes)];

    let rules = vec![
        BuiltinRule::EmptyCommit(EmptyCommit::default()),
        BuiltinRule::WhitespaceOnly(WhitespaceOnly::default()),
    ];
    let mut cache = EntryCache::default();
    let achievements = grant_with_rules(&plain, &mut cache, None, rules);
    assert_eq!(achievements.len(), 1);
    assert_eq!(achievements[0].name, "Whitespace Warrior");

    // On the merge no rule sees the change: to the one the commit looks empty, to the other
    // it does not look like a change of whitespace.
    let rules = vec![
        BuiltinRule::EmptyCommit(EmptyCommit::default()),
        BuiltinRule::WhitespaceOnly(WhitespaceOnly::default()),
    ];
    let mut cache = EntryCache::default();
    let achievements = grant_with_rules(&merge, &mut cache, None, rules);
    assert_eq!(achievements.len(), 1);
    assert_eq!(achievements[0].name, "You can always add more later");
}

#[test]
fn a_rule_that_cancelled_sees_no_more_changes_of_the_commit() {
    let item = changed(
        1,
        Vec::new(),
        vec![
            modification("a", b"a b", b"a c"),
            modification("b", b"a b", b"ab"),
        ],
    );
    let mut whitespace = WhitespaceOnly::default();
    whitespace.on_diff_start(&item.commit);
    assert!(whitespace
        .on_diff_change(&item.commit, &item.changes[0])
        .is_ok());
    assert!(whitespace.found_non_whitespace_difference);
    assert!(whitespace.on_diff_end(&item.commit).is_empty());
}

#[test]
fn only_a_rule_that_takes_changes_answers_anything_but_cancel() {
    let commit = commit_with_message(b"change");
    let change = modification("a", b"a b", b"a  b");
    let other = addition("b");

    let mut fixup = Fixup::default();
    let answer = fixup.on_diff_change(&commit, &change);
    assert!(matches!(answer, Ok(herostratus::achievement::DiffAction::Cancel)));
    let mut lengths = SubjectLineLength::default();
    let answer = lengths.on_diff_change(&commit, &change);
    assert!(matches!(answer, Ok(herostratus::achievement::DiffAction::Cancel)));
    let mut unicode = NonUnicode::default();
    let answer = unicode.on_diff_change(&commit, &change);
    assert!(matches!(answer, Ok(herostratus::achievement::DiffAction::Cancel)));
    let mut empty = EmptyCommit::default();
    let answer = empty.on_diff_change(&commit, &change);
    assert!(matches!(answer, Ok(herostratus::achievement::DiffAction::Cancel)));

    // a change of whitespace only leaves the question open, any other change settles it
    let mut whitespace = WhitespaceOnly::default();
    let answer = whitespace.on_diff_change(&commit, &change);
    assert!(matches!(answer, Ok(herostratus::achievement::DiffAction::Continue)));
    let answer = whitespace.on_diff_change(&commit, &other);
    assert!(matches!(answer, Ok(herostratus::achievement::DiffAction::Cancel)));

    // none of the rules that come with the program fails at a change
    for mut rule in herostratus::rules::builtin_rules_all() {
        assert!(rule.on_diff_change(&commit, &change).is_ok());
    }
}
