use herostratus::achievement::{grant_with_rules, AchievementDescriptor, Rule};
use herostratus::cache::EntryCache;
use herostratus::git::{Commit, ObjectId, Signature, WalkItem};
use herostratus::rules::test_rules::{
    AlwaysFail, FlexibleRule, ParticipationTrophy, ParticipationTrophy2, TestRule,
};

fn oid(n: u8) -> ObjectId {
    ObjectId::from_bytes([n; 20])
}

fn signature() -> Signature {
    Signature {
        name: b"Herostratus".to_vec(),
        email: b"Herostratus@example.com".to_vec(),
        seconds: 1711656630,
        offset_minutes: 0,
    }
}

/// A repository of commits without changes, oldest first.
struct TempRepository {
    commits: Vec<Commit>,
}

fn with_empty_commits(messages: &[&str]) -> TempRepository {
    let mut repo = TempRepository {
        commits: Vec::new(),
    };
    for message in messages {
        add_empty_commit(&mut repo, message);
    }
    repo
}

fn simplest() -> TempRepository {
    with_empty_commits(&["Initial commit"])
}

fn add_empty_commit(repo: &mut TempRepository, message: &str) -> ObjectId {
    let id = oid(repo.commits.len() as u8 + 1);
    let parents = match repo.commits.last() {
        Some(parent) => vec![parent.id],
        None => Vec::new(),
    };
    repo.commits.push(Commit::from_message(
        id,
        parents,
        signature(),
        signature(),
        message.as_bytes(),
        oid(0xEE),
    ));
    id
}

/// What `HEAD` resolves to.
fn head(repo: &TempRepository) -> ObjectId {
    repo.commits.last().unwrap().id
}

/// The commits that `HEAD` reaches, newest first.
fn walk(repo: &TempRepository) -> Vec<WalkItem> {
    repo.commits
        .iter()
        .rev()
        .map(|commit| WalkItem {
            commit: commit.clone(),
            changes: Vec::new(),
        })
        .collect()
}

fn title_of(repo: &TempRepository, id: ObjectId) -> Vec<u8> {
    repo.commits
        .iter()
        .find(|c| c.id == id)
        .unwrap()
        .message_title
        .clone()
}

#[test]
fn process_rules_test_no_rules() {
    let temp_repo = simplest();
    let rules: Vec<TestRule> = Vec::new();
    let mut cache = EntryCache::default();
    let achievements = grant_with_rules(&walk(&temp_repo), &mut cache, None, rules);
    assert!(achievements.is_empty());
}

#[test]
fn test_process_rules_test_no_rules() {
    let temp_repo = simplest();
    let rules: Vec<TestRule> = Vec::new();
    let mut cache = EntryCache::default();
    let achievements = grant_with_rules(&walk(&temp_repo), &mut cache, None, rules);
    assert!(achievements.is_empty());
}

#[test]
fn test_rule_test_no_rules() {
    let temp_repo = simplest();
    let rules: Vec<TestRule> = Vec::new();
    let mut cache = EntryCache::default();
    let achievements = grant_with_rules(&walk(&temp_repo), &mut cache, None, rules);
    assert!(achievements.is_empty());
}

#[test]
fn process_rules_test_iterator_no_matches() {
    let temp_repo = simplest();
    let rules = vec![TestRule::AlwaysFail(AlwaysFail::default())];
    let mut cache = EntryCache::default();
    let achievements = grant_with_rules(&walk(&temp_repo), &mut cache, None, rules);
    assert!(achievements.is_empty());
}

#[test]
fn test_process_rules_test_iterator_no_matches() {
    let temp_repo = simplest();
    let rules = vec![TestRule::AlwaysFail(AlwaysFail::default())];
    let mut cache = EntryCache::default();
    let achievements = grant_with_rules(&walk(&temp_repo), &mut cache, None, rules);
    assert!(achievements.is_empty());
}

#[test]
fn test_rule_test_iterator_no_matches() {
    let temp_repo = simplest();
    let rules = vec![TestRule::AlwaysFail(AlwaysFail::default())];
    let mut cache = EntryCache::default();
    let achievements = grant_with_rules(&walk(&temp_repo), &mut cache, None, rules);
    assert!(achievements.is_empty());
}

#[test]
fn process_rules_test_iterator_all_matches() {
    let temp_repo = simplest();

    let rules = vec![
        TestRule::AlwaysFail(AlwaysFail::default()),
        TestRule::ParticipationTrophy(ParticipationTrophy::default()),
    ];
    let mut cache = EntryCache::default();
    let achievements = grant_with_rules(&walk(&temp_repo), &mut cache, None, rules);
    assert_eq!(achievements.len(), 1);
}

#[test]
fn test_process_rules_test_iterator_all_matches() {
    let temp_repo = simplest();

    let rules = vec![
        TestRule::AlwaysFail(AlwaysFail::default()),
        TestRule::ParticipationTrophy(ParticipationTrophy::default()),
    ];
    let mut cache = EntryCache::default();
    let achievements = grant_with_rules(&walk(&temp_repo), &mut cache, None, rules);
    assert_eq!(achievements.len(), 1);
}

#[test]
fn test_rule_test_iterator_all_matches() {
    let temp_repo = simplest();

    let rules = vec![
        TestRule::AlwaysFail(AlwaysFail::default()),
        TestRule::ParticipationTrophy(ParticipationTrophy::default()),
    ];
    let mut cache = EntryCache::default();
    let achievements = grant_with_rules(&walk(&temp_repo), &mut cache, None, rules);
    assert_eq!(achievements.len(), 1);
}

#[test]
fn process_rules_test_awards_on_finalize() {
    let temp_repo = simplest();

    let rules = vec![TestRule::ParticipationTrophy2(ParticipationTrophy2::default())];
    let mut cache = EntryCache::default();
    let achievements = grant_with_rules(&walk(&temp_repo), &mut cache, None, rules);
    assert_eq!(achievements.len(), 1);

    let rev = head(&temp_repo);
    assert_eq!(cache.last_processed_commit.unwrap(), rev);
    assert_eq!(cache.last_processed_rules, [3]);
}

#[test]
fn test_process_rules_test_awards_on_finalize() {
    let temp_repo = simplest();

    let rules = vec![TestRule::ParticipationTrophy2(ParticipationTrophy2::default())];
    let mut cache = EntryCache::default();
    let achievements = grant_with_rules(&walk(&temp_repo), &mut cache, None, rules);
    assert_eq!(achievements.len(), 1);
}

#[test]
fn test_rule_test_awards_on_finalize() {
    let temp_repo = simplest();

    let rules = vec![TestRule::ParticipationTrophy2(ParticipationTrophy2::default())];
    let mut cache = EntryCache::default();
    let achievements = grant_with_rules(&walk(&temp_repo), &mut cache, None, rules);
    assert_eq!(achievements.len(), 1);
}

#[test]
fn test_early_exit_no_new_rules() {
    let mut temp_repo = simplest();
    let mut cache = EntryCache::default();

    let rules = vec![
        TestRule::AlwaysFail(AlwaysFail::default()),
        TestRule::ParticipationTrophy(ParticipationTrophy::default()),
    ];
    let achievements = grant_with_rules(&walk(&temp_repo), &mut cache, None, rules);
    assert_eq!(achievements.len(), 1);

    // Run the same rules again on the same repo; should early exit without granting any new
    // achievements.
    let rules = vec![
        TestRule::AlwaysFail(AlwaysFail::default()),
        TestRule::ParticipationTrophy(ParticipationTrophy::default()),
    ];
    let achievements = grant_with_rules(&walk(&temp_repo), &mut cache, None, rules);
    assert!(achievements.is_empty());

    // Add a new commit to the repo; will generate a single new achievement
    let new_commit = add_empty_commit(&mut temp_repo, "new-commit");
    let rules = vec![
        TestRule::AlwaysFail(AlwaysFail::default()),
        TestRule::ParticipationTrophy(ParticipationTrophy::default()),
    ];
    let achievements = grant_with_rules(&walk(&temp_repo), &mut cache, None, rules);
    assert_eq!(achievements.len(), 1);
    assert_eq!(achievements[0].commit, new_commit);
}

#[test]
fn test_continue_processing_with_new_rules() {
    let mut temp_repo = simplest();
    let first_commit = head(&temp_repo);
    let mut cache = EntryCache::default();

    let rules = vec![
        TestRule::AlwaysFail(AlwaysFail::default()), // 1
        TestRule::ParticipationTrophy(ParticipationTrophy::default()), // 2
    ];
    let achievements = grant_with_rules(&walk(&temp_repo), &mut cache, None, rules);
    assert_eq!(achievements.len(), 1);

    // Add a new commit to the repo
    let second_commit = add_empty_commit(&mut temp_repo, "new-commit");

    // Add a new rule; the new rule should process all commits; the old rules should only
    // process the newly added commit.
    let mut rules = vec![
        TestRule::AlwaysFail(AlwaysFail::default()), // 1
        TestRule::ParticipationTrophy(ParticipationTrophy::default()), // 2
        TestRule::ParticipationTrophy(ParticipationTrophy::default()), // 3
    ];
    rules[1].get_descriptors_mut()[0].id = 2;
    rules[1].get_descriptors_mut()[0].name = "first instance";
    rules[2].get_descriptors_mut()[0].id = 3;
    rules[2].get_descriptors_mut()[0].name = "second instance";

    let achievements = grant_with_rules(&walk(&temp_repo), &mut cache, None, rules);
    assert_eq!(achievements.len(), 3);

    // The new commit should get achievements from both the old and new rule instances
    assert_eq!(achievements[0].commit, second_commit);
    assert_eq!(achievements[0].name, "first instance");
    assert_eq!(achievements[1].commit, second_commit);
    assert_eq!(achievements[1].name, "second instance");

    // But the first commit should only get an achievement from the new rule instance
    assert_eq!(achievements[2].commit, first_commit);
    assert_eq!(achievements[2].name, "second instance");
}

#[test]
fn test_continue_processing_pathological_case() {
    let mut temp_repo = simplest();
    let first_commit = head(&temp_repo);
    let mut cache = EntryCache::default();

    let rules = vec![
        TestRule::AlwaysFail(AlwaysFail::default()), // 1
        TestRule::Flexible(FlexibleRule {
            descriptors: vec![
                AchievementDescriptor {
                    enabled: true,
                    id: 2,
                    human_id: "rule1",
                    name: "rule1",
                    description: "",
                },
                AchievementDescriptor {
                    enabled: false,
                    id: 3,
                    human_id: "rule2",
                    name: "rule2",
                    description: "",
                },
            ],
        }),
    ];
    let achievements = grant_with_rules(&walk(&temp_repo), &mut cache, None, rules);
    assert_eq!(cache.last_processed_rules, [1, 2]);
    assert_eq!(achievements.len(), 1);
    assert_eq!(achievements[0].commit, first_commit);
    assert_eq!(achievements[0].name, "rule1");

    // Add a new commit, and a new AchievementDescriptor to the existing Rule implementation
    let second_commit = add_empty_commit(&mut temp_repo, "new-commit");
    let rules = vec![
        TestRule::AlwaysFail(AlwaysFail::default()), // 1
        TestRule::Flexible(FlexibleRule {
            descriptors: vec![
                AchievementDescriptor {
                    enabled: true,
                    id: 2,
                    human_id: "rule1",
                    name: "rule1",
                    description: "",
                },
                AchievementDescriptor {
                    enabled: true,
                    id: 3,
                    human_id: "rule2",
                    name: "rule2",
                    description: "",
                },
            ],
        }),
    ];
    let achievements = grant_with_rules(&walk(&temp_repo), &mut cache, None, rules);

    // The new commit should get achievements from both the old and new rule instances
    assert_eq!(achievements[0].commit, second_commit);
    assert_eq!(achievements[0].name, "rule1");
    assert_eq!(achievements[1].commit, second_commit);
    assert_eq!(achievements[1].name, "rule2");

    // But the first commit should only get an achievement from the new rule instance
    assert_eq!(achievements[2].commit, first_commit);
    assert_eq!(achievements[2].name, "rule2");
    assert_eq!(achievements.len(), 3);

    // The rule with the id 1 had nothing new to do, was finalized early and left; the record
    // holds its id with those of the rule that went on.
    assert_eq!(cache.last_processed_rules, [1, 2, 3]);
    assert_eq!(cache.last_processed_commit, Some(second_commit));
}

#[test]
fn empty_repository_and_empty_rule_set() {
    let temp_repo = simplest();
    let rules: Vec<TestRule> = Vec::new();
    let mut cache = EntryCache::default();
    let achievements = grant_with_rules(&walk(&temp_repo), &mut cache, None, rules);
    assert!(achievements.is_empty());
    assert_eq!(cache.last_processed_commit, Some(head(&temp_repo)));
    assert!(cache.last_processed_rules.is_empty());
}

#[test]
fn incremental_no_op() {
    let temp_repo = with_empty_commits(&["one", "two", "three"]);
    let mut cache = EntryCache::default();

    let rules = vec![TestRule::ParticipationTrophy(ParticipationTrophy::default())];
    let achievements = grant_with_rules(&walk(&temp_repo), &mut cache, None, rules);
    assert_eq!(achievements.len(), 3);
    // newest first
    assert_eq!(achievements[0].commit, oid(3));
    assert_eq!(achievements[1].commit, oid(2));
    assert_eq!(achievements[2].commit, oid(1));
    assert_eq!(cache.last_processed_commit, Some(head(&temp_repo)));

    let rules = vec![TestRule::ParticipationTrophy(ParticipationTrophy::default())];
    let achievements = grant_with_rules(&walk(&temp_repo), &mut cache, None, rules);
    assert!(achievements.is_empty());
    assert_eq!(cache.last_processed_commit, Some(head(&temp_repo)));
    assert_eq!(cache.last_processed_rules, [2]);
}

#[test]
fn depth_caps_the_commits_that_are_looked_at() {
    let temp_repo = with_empty_commits(&["one", "two", "three"]);
    let mut cache = EntryCache::default();
    let rules = vec![TestRule::ParticipationTrophy(ParticipationTrophy::default())];
    let achievements = grant_with_rules(&walk(&temp_repo), &mut cache, Some(2), rules);
    assert_eq!(achievements.len(), 2);
    assert_eq!(achievements[0].commit, oid(3));
    assert_eq!(achievements[1].commit, oid(2));

    let mut cache = EntryCache::default();
    let rules = vec![TestRule::ParticipationTrophy(ParticipationTrophy::default())];
    let achievements = grant_with_rules(&walk(&temp_repo), &mut cache, Some(7), rules);
    assert_eq!(achievements.len(), 3);

    let mut cache = EntryCache::default();
    let rules = vec![TestRule::ParticipationTrophy(ParticipationTrophy::default())];
    let achievements = grant_with_rules(&walk(&temp_repo), &mut cache, Some(0), rules);
    assert!(achievements.is_empty());
    assert_eq!(cache.last_processed_commit, None);
}

#[test]
fn a_disabled_descriptor_grants_nothing() {
    let temp_repo = simplest();
    let mut rule = ParticipationTrophy::default();
    rule.disable_by_id(2);
    assert!(!rule.get_descriptors()[0].enabled);
    rule.enable_by_id(7);
    assert!(!rule.get_descriptors()[0].enabled);
    let mut cache = EntryCache::default();
    let achievements = grant_with_rules(&walk(&temp_repo), &mut cache, None, vec![rule]);
    assert!(achievements.is_empty());
    assert!(cache.last_processed_rules.is_empty());

    let mut rule = ParticipationTrophy::default();
    rule.disable_by_id(2);
    rule.enable_by_id(2);
    let achievements = grant_with_rules(&walk(&temp_repo), &mut cache, None, vec![rule]);
    assert_eq!(achievements.len(), 1);
    assert_eq!(title_of(&temp_repo, achievements[0].commit), b"Initial commit");
}

#[test]
fn a_third_run_in_a_row_grants_nothing_either() {
    let temp_repo = with_empty_commits(&["one", "two", "three"]);
    let mut cache = EntryCache::default();
    let rules = || {
        vec![
            TestRule::AlwaysFail(AlwaysFail::default()),
            TestRule::ParticipationTrophy(ParticipationTrophy::default()),
        ]
    };
    let achievements = grant_with_rules(&walk(&temp_repo), &mut cache, None, rules());
    assert_eq!(achievements.len(), 3);
    assert_eq!(cache.last_processed_rules, [1, 2]);

    for _ in 0..2 {
        let achievements = grant_with_rules(&walk(&temp_repo), &mut cache, None, rules());
        assert!(achievements.is_empty());
        assert_eq!(cache.last_processed_commit, Some(head(&temp_repo)));
        assert_eq!(cache.last_processed_rules, [1, 2]);
    }
}

#[test]
fn a_rule_that_leaves_where_the_last_run_began_stays_in_the_record() {
    let temp_repo = simplest();
    let rules = || {
        vec![
            TestRule::AlwaysFail(AlwaysFail::default()),
            TestRule::ParticipationTrophy(ParticipationTrophy::default()),
        ]
    };
    // the run before knew the second rule only
    let mut cache = EntryCache::default();
    cache.last_processed_commit = Some(head(&temp_repo));
    cache.last_processed_rules = vec![2];

    // the second rule is done where the walk begins, and the first goes on alone
    let achievements = grant_with_rules(&walk(&temp_repo), &mut cache, None, rules());
    assert!(achievements.is_empty());
    assert_eq!(cache.last_processed_commit, Some(head(&temp_repo)));
    assert_eq!(cache.last_processed_rules, [2, 1]);

    // so the next run has nothing to do
    let achievements = grant_with_rules(&walk(&temp_repo), &mut cache, None, rules());
    assert!(achievements.is_empty());
    assert_eq!(cache.last_processed_commit, Some(head(&temp_repo)));
    assert_eq!(cache.last_processed_rules, [1, 2]);
}

#[test]
fn two_runs_in_a_row_grant_nothing_the_second_time_whatever_the_record_held() {
    let temp_repo = simplest();
    let rules = || {
        vec![
            TestRule::AlwaysFail(AlwaysFail::default()), // 1
            TestRule::Flexible(FlexibleRule {
                descriptors: vec![
                    AchievementDescriptor {
                        enabled: true,
                        id: 2,
                        human_id: "rule1",
                        name: "rule1",
                        description: "",
                    },
                    AchievementDescriptor {
                        enabled: true,
                        id: 3,
                        human_id: "rule2",
                        name: "rule2",
                        description: "",
                    },
                ],
            }),
        ]
    };
    let mut cache = EntryCache::default();
    cache.last_processed_commit = Some(head(&temp_repo));
    cache.last_processed_rules = vec![2, 3];

    let achievements = grant_with_rules(&walk(&temp_repo), &mut cache, None, rules());
    assert!(achievements.is_empty());
    assert_eq!(cache.last_processed_rules, [2, 3, 1]);

    let achievements = grant_with_rules(&walk(&temp_repo), &mut cache, None, rules());
    assert!(achievements.is_empty());
    assert_eq!(cache.last_processed_rules, [1, 2, 3]);
}

#[test]
fn grant_runs_the_rules_that_the_configuration_lets_run() {
    let temp_repo = with_empty_commits(&["fixup! one", "two"]);
    let config = herostratus::config::exclude_all_rules_except("H1-fixup");
    let mut cache = EntryCache::default();
    let achievements =
        herostratus::achievement::grant(Some(&config), &walk(&temp_repo), &mut cache, None);
    assert_eq!(achievements.len(), 1);
    assert_eq!(achievements[0].name, "I meant to fix that up later, I swear!");
    assert_eq!(achievements[0].commit, oid(1));
    assert_eq!(cache.last_processed_commit, Some(head(&temp_repo)));
    assert_eq!(cache.last_processed_rules, [1]);

    // without a configuration every rule runs: both commits are empty
    let mut cache = EntryCache::default();
    let achievements = herostratus::achievement::grant(None, &walk(&temp_repo), &mut cache, None);
    assert_eq!(achievements.len(), 4);
    assert_eq!(cache.last_processed_rules, [1, 2, 3, 4, 5, 6]);
}
