use herostratus::achievement::sink::{render, SUMMARY_MARKER};
use herostratus::achievement::{
    process_rules, Achievement, Achievements, DiffAction, Rule, Step,
};
use herostratus::cache::EntryCache;
use herostratus::config::RepositoryConfig;
use herostratus::git::clone::{
    clone_credentials, clone_plan, count_commits_between, existing_clone_plan, fetch_refspecs,
    sync_action, ClonePlan, CredentialKind, ExistingClonePlan, RemoteRefKind, SyncAction,
};
use herostratus::git::{Commit, EntryMode, ObjectId, Signature, TreeChange, WalkItem};
use herostratus::rules::listing::{list_line, list_rules, sort_by_id};
use herostratus::rules::test_rules::{
    AlwaysFail, Faulty, FlexibleRule, ParticipationTrophy, ParticipationTrophy2, TestRule,
};
use herostratus::rules::{builtin_rules_all, BuiltinRule, EmptyCommit, WhitespaceOnly};

fn oid(n: u8) -> ObjectId {
    ObjectId::from_bytes([n; 20])
}

fn signature() -> Signature {
    Signature {
        name: b"Herostratus".to_vec(),
        email: b"Herostratus@example.com".to_vec(),
        seconds: 1711656630,
        offset_minutes: 0,
    }
}

fn modification(path: &str, old: &[u8], new: &[u8]) -> TreeChange {
    TreeChange::Modification {
        path: path.as_bytes().to_vec(),
        old_mode: EntryMode::File,
        new_mode: EntryMode::File,
        old_id: oid(0xA0),
        new_id: oid(0xA1),
        old_content: old.to_vec(),
        new_content: new.to_vec(),
    }
}

fn changed(id: u8, parents: Vec<ObjectId>, changes: Vec<TreeChange>) -> WalkItem {
    WalkItem {
        commit: Commit::from_message(
            oid(id),
            parents,
            signature(),
            signature(),
            b"change",
            oid(0xEE),
        ),
        changes,
    }
}

fn history() -> Vec<WalkItem> {
    vec![
        changed(
            4,
            vec![oid(3), oid(2)],
            vec![modification("a", b"a b", b"ab")],
        ),
        changed(
            3,
            vec![oid(2)],
            vec![
                modification("a", b"a b", b"ab"),
                modification("b", b"x", b"y"),
                modification("c", b"x", b"y"),
            ],
        ),
        changed(2, vec![oid(1)], Vec::new()),
        changed(1, Vec::new(), vec![modification("a", b"ab", b"a\nb")]),
    ]
}

fn rules_of_the_program() -> Vec<BuiltinRule> {
    vec![
        BuiltinRule::EmptyCommit(EmptyCommit::default()),
        BuiltinRule::WhitespaceOnly(WhitespaceOnly::default()),
    ]
}

/// Steps the engine through the walk, commit by commit with all changes at once.
fn run_whole(history: &[WalkItem], engine: &mut Achievements<BuiltinRule>) -> Vec<Achievement> {
    let mut out = Vec::new();
    let mut walk = history.iter();
    loop {
        match engine.next() {
            Step::Granted(a) => out.push(a),
            Step::NeedsCommit => match walk.next() {
                Some(item) => engine.feed_commit(item),
                None => engine.end_walk(),
            },
            Step::Finished(_) => return out,
        }
    }
}

/// Steps the engine through the walk, change by change, and counts the changes shown.
fn run_in_phases(
    history: &[WalkItem],
    engine: &mut Achievements<BuiltinRule>,
) -> (Vec<Achievement>, usize) {
    let mut out = Vec::new();
    let mut shown = 0;
    let mut walk = history.iter();
    loop {
        match engine.next() {
            Step::Granted(a) => out.push(a),
            Step::NeedsCommit => match walk.next() {
                Some(item) => {
                    if engine.begin_commit(&item.commit) {
                        for change in &item.changes {
                            shown += 1;
                            if engine.on_diff_change(&item.commit, change) == DiffAction::Cancel {
                                break;
                            }
                        }
                    }
                    engine.end_commit(&item.commit);
                }
                None => engine.end_walk(),
            },
            Step::Finished(_) => return (out, shown),
        }
    }
}

#[test]
fn stepping_by_phases_grants_what_stepping_by_commits_grants() {
    let history = history();
    let mut whole = process_rules(EntryCache::default(), rules_of_the_program());
    let by_commits = run_whole(&history, &mut whole);
    let mut phased = process_rules(EntryCache::default(), rules_of_the_program());
    let (by_phases, shown) = run_in_phases(&history, &mut phased);

    let seen = |grants: &[Achievement]| -> Vec<(&'static str, ObjectId)> {
        grants.iter().map(|a| (a.name, a.commit)).collect()
    };
    assert_eq!(seen(&by_commits), seen(&by_phases));
    assert_eq!(
        seen(&by_commits),
        [
            ("You can always add more later", oid(4)),
            ("You can always add more later", oid(2)),
            ("Whitespace Warrior", oid(1)),
        ]
    );
    // The merge shows nothing; the second commit shows two of its three changes, after which
    // both rules have cancelled; the third has none; the last shows its one.
    assert_eq!(shown, 3);
    assert_eq!(whole.num_commits_processed, 4);
    assert_eq!(phased.num_commits_processed, 4);
    assert_eq!(whole.num_achievements_generated, 3);
    assert_eq!(
        whole.into_cache().last_processed_commit,
        phased.into_cache().last_processed_commit
    );
}

#[test]
fn no_change_is_shown_outside_a_commit_or_within_a_merge() {
    let history = history();
    let mut engine = process_rules(EntryCache::default(), rules_of_the_program());
    let change = modification("a", b"a", b"b");
    // outside a commit
    assert_eq!(
        engine.on_diff_change(&history[1].commit, &change),
        DiffAction::Cancel
    );
    // within a merge
    assert!(!engine.begin_commit(&history[0].commit));
    assert!(engine.in_commit);
    assert_eq!(
        engine.on_diff_change(&history[0].commit, &change),
        DiffAction::Cancel
    );
    engine.end_commit(&history[0].commit);
    assert!(!engine.in_commit);
    // what is pending shows that no rule saw a change
    assert!(matches!(engine.next(), Step::Granted(a) if a.name == "You can always add more later"));
    assert!(matches!(engine.next(), Step::NeedsCommit));
    // ending a commit that was not begun does nothing
    engine.end_commit(&history[1].commit);
    assert!(matches!(engine.next(), Step::NeedsCommit));
}

#[test]
fn the_summary_is_given_once() {
    let history = history();
    let mut engine = process_rules(EntryCache::default(), rules_of_the_program());
    let _ = run_whole(&history, &mut engine);
    // run_whole has seen the first `Finished`
    assert!(matches!(engine.next(), Step::Finished(None)));
    assert!(matches!(engine.next(), Step::Finished(None)));

    let mut engine = process_rules(EntryCache::default(), rules_of_the_program());
    let mut walk = history.iter();
    let summary = loop {
        match engine.next() {
            Step::Granted(_) => {}
            Step::NeedsCommit => match walk.next() {
                Some(item) => engine.feed_commit(item),
                None => engine.end_walk(),
            },
            Step::Finished(summary) => break summary,
        }
    };
    let summary = summary.unwrap();
    assert_eq!(summary.num_commits_processed, 4);
    assert_eq!(summary.num_achievements_generated, 3);
    // a commit that comes after the end is not taken
    engine.feed_commit(&history[0]);
    assert!(matches!(engine.next(), Step::Finished(None)));
}

#[test]
fn an_engine_that_is_given_up_leaves_what_it_has() {
    let history = history();
    let mut engine = process_rules(EntryCache::default(), rules_of_the_program());
    assert!(matches!(engine.next(), Step::NeedsCommit));
    engine.feed_commit(&history[0]);
    assert!(!engine.diff_cache_is_due());
    let cache = engine.into_cache();
    assert_eq!(cache.last_processed_commit, Some(oid(4)));
    assert_eq!(cache.last_processed_rules, [5, 6]);

    let engine = process_rules(EntryCache::default(), rules_of_the_program());
    assert!(engine.diff_cache_is_due());
    assert_eq!(engine.get_enabled_rule_ids(), [5, 6]);
    let cache = engine.into_cache();
    assert_eq!(cache.last_processed_commit, None);
}

#[test]
fn the_cache_of_the_diff_is_due_every_fifty_commits() {
    let mut engine = process_rules(
        EntryCache::default(),
        vec![ParticipationTrophy::default()],
    );
    let mut due = Vec::new();
    for n in 1..=101u8 {
        let parents = if n == 1 { Vec::new() } else { vec![oid(n - 1)] };
        assert!(matches!(engine.next(), Step::NeedsCommit));
        engine.feed_commit(&changed(n, parents, Vec::new()));
        assert!(matches!(engine.next(), Step::Granted(_)));
        if engine.diff_cache_is_due() {
            due.push(n);
        }
    }
    assert_eq!(due, [50, 100]);
}

#[test]
fn a_rule_may_grant_what_no_commit_earned() {
    // This rule grants to the commit of all zeros when the walk ends, also when there was no
    // walk, and again on every run.
    let mut cache = EntryCache::default();
    for _ in 0..2 {
        let mut engine = process_rules(
            std::mem::take(&mut cache),
            vec![ParticipationTrophy2::default()],
        );
        assert!(matches!(engine.next(), Step::NeedsCommit));
        engine.end_walk();
        match engine.next() {
            Step::Granted(a) => {
                assert_eq!(a.commit, ObjectId::null());
                assert_eq!(a.name, "Always succeed at finalize");
            }
            _ => panic!("the rule grants when it is finalized"),
        }
        assert!(matches!(engine.next(), Step::Finished(Some(_))));
        cache = engine.into_cache();
        assert_eq!(cache.last_processed_rules, [3]);
    }
}

#[test]
fn achievements_are_written_with_name_and_commit() {
    let achievement = Achievement {
        name: "Whitespace Warrior",
        commit: ObjectId::from_hex("37f5c446079eff62dcca0c3ada2c6b8786b94d16").unwrap(),
    };
    assert_eq!(
        render(&achievement),
        "Achievement { name: \"Whitespace Warrior\", commit: Sha1(37f5c446079eff62dcca0c3ada2c6b8786b94d16) }"
    );
    assert_eq!(format!("{:?}", achievement.name), "\"Whitespace Warrior\"");
    let quoted = Achievement {
        name: "say \"hi\" \\ bye",
        commit: ObjectId::null(),
    };
    assert_eq!(
        render(&quoted),
        "Achievement { name: \"say \\\"hi\\\" \\\\ bye\", commit: Sha1(0000000000000000000000000000000000000000) }"
    );
    assert_eq!(SUMMARY_MARKER, "## Summary");
}

#[test]
fn rules_are_listed_in_the_order_of_their_ids() {
    let mut rules = builtin_rules_all();
    rules.reverse();
    let lines = list_rules(&rules);
    assert_eq!(
        lines,
        [
            "H1-fixup                 \tPrefix a commit message with a !fixup marker",
            "H2-shortest-subject-line \tThe shortest subject line",
            "H3-longest-subject-line  \tThe longest subject line",
            "H4-non-unicode           \tMake a commit message containing a non UTF-8 byte",
            "H5-empty-commit          \tCreate an empty commit containing no changes",
            "H6-whitespace-only       \tMake a whitespace-only change",
        ]
    );
    for (line, d) in lines
        .iter()
        .zip(builtin_rules_all().iter().flat_map(|r| r.get_descriptors()))
    {
        assert_eq!(*line, format!("{:25}\t{}", d.pretty_id(), d.description));
    }
}

#[test]
fn a_long_pretty_id_is_not_cut_and_equal_ids_keep_their_order() {
    let d = |id: usize, human_id: &'static str| herostratus::achievement::AchievementDescriptor {
        enabled: true,
        id,
        human_id,
        name: "",
        description: "d",
    };
    assert_eq!(
        list_line(&d(1234, "a-very-long-human-id-indeed")),
        "H1234-a-very-long-human-id-indeed\td"
    );
    assert_eq!(
        list_line(&d(1, "exactly-twenty-five-ch")),
        "H1-exactly-twenty-five-ch\td"
    );
    let sorted = sort_by_id(&vec![d(3, "c"), d(1, "x"), d(2, "b"), d(1, "y"), d(1, "z")]);
    let order: Vec<(usize, &str)> = sorted.iter().map(|d| (d.id, d.human_id)).collect();
    assert_eq!(
        order,
        [(1, "x"), (1, "y"), (1, "z"), (2, "b"), (3, "c")]
    );
    assert!(sort_by_id(&Vec::new()).is_empty());
}

#[test]
fn what_to_do_where_a_clone_is_in_the_way() {
    assert_eq!(clone_plan(false, false), ClonePlan::Clone);
    assert_eq!(clone_plan(false, true), ClonePlan::Clone);
    assert_eq!(clone_plan(true, true), ClonePlan::RemoveThenClone);
    assert_eq!(clone_plan(true, false), ClonePlan::InspectExisting);

    let url = "git@github.com:Notgnoshi/herostratus.git";
    assert_eq!(existing_clone_plan(Some(url), url), ExistingClonePlan::Pull);
    assert_eq!(
        existing_clone_plan(Some("https://github.com/Notgnoshi/herostratus.git"), url),
        ExistingClonePlan::DifferentRemote
    );
    assert_eq!(
        existing_clone_plan(None, url),
        ExistingClonePlan::MissingRemoteUrl
    );
}

#[test]
fn only_head_and_the_branch_are_fetched() {
    assert_eq!(fetch_refspecs(None), ["+HEAD:refs/remotes/origin/HEAD"]);
    assert_eq!(
        fetch_refspecs(Some("dev")),
        [
            "+HEAD:refs/remotes/origin/HEAD",
            "+refs/heads/dev:refs/heads/dev"
        ]
    );
    assert_eq!(
        fetch_refspecs(Some("test/fixup"))[1],
        "+refs/heads/test/fixup:refs/heads/test/fixup"
    );
}

#[test]
fn which_references_of_the_remote_are_synced() {
    let (symbolic, direct, peeled, unborn) = (
        RemoteRefKind::Symbolic,
        RemoteRefKind::Direct,
        RemoteRefKind::Peeled,
        RemoteRefKind::Unborn,
    );
    let (sync_symbolic, sync_direct, skip) = (
        SyncAction::SyncSymbolic,
        SyncAction::SyncDirect,
        SyncAction::Skip,
    );
    assert_eq!(sync_action(symbolic, b"HEAD", "HEAD"), sync_symbolic);
    assert_eq!(sync_action(symbolic, b"HEAD", "trunk"), sync_symbolic);
    assert_eq!(
        sync_action(symbolic, b"refs/remotes/origin/HEAD", "HEAD"),
        sync_symbolic
    );
    assert_eq!(sync_action(symbolic, b"refs/heads/main", "trunk"), skip);
    assert_eq!(sync_action(direct, b"refs/heads/trunk", "trunk"), sync_direct);
    assert_eq!(sync_action(peeled, b"refs/tags/v1", "v1"), sync_direct);
    assert_eq!(sync_action(direct, b"HEAD", "trunk"), skip);
    assert_eq!(sync_action(direct, b"refs/heads/trunk", "refs/heads/trunk2"), skip);
    assert_eq!(sync_action(direct, b"nk", "trunk"), skip);
    assert_eq!(sync_action(direct, b"anything", ""), sync_direct);
    assert_eq!(sync_action(unborn, b"HEAD", "HEAD"), skip);
    assert_eq!(sync_action(unborn, b"refs/heads/trunk", "trunk"), skip);
}

#[test]
fn commits_are_counted_up_to_where_the_reference_was() {
    let walk = vec![oid(5), oid(4), oid(3), oid(2), oid(1)];
    assert_eq!(count_commits_between(&walk, Some(oid(5)), oid(5)), 0);
    assert_eq!(count_commits_between(&walk, Some(oid(3)), oid(5)), 2);
    assert_eq!(count_commits_between(&walk, Some(oid(1)), oid(5)), 4);
    // the reference was not there before, or was somewhere else
    assert_eq!(count_commits_between(&walk, None, oid(5)), 5);
    assert_eq!(count_commits_between(&walk, Some(oid(9)), oid(5)), 5);
    assert_eq!(count_commits_between(&Vec::new(), None, oid(5)), 0);
}

#[test]
fn a_rule_that_fails_at_a_change_counts_as_one_that_cancels() {
    let item = changed(
        1,
        Vec::new(),
        vec![
            modification("a", b"a b", b"ab"),
            modification("b", b"a b", b"a  b"),
            modification("c", b"x", b"y"),
            modification("d", b"x", b"y"),
        ],
    );
    // Alone, the rule fails at the first change, and no more are wanted.
    let mut engine = process_rules(EntryCache::default(), vec![Faulty::default()]);
    assert!(engine.begin_commit(&item.commit));
    assert_eq!(
        engine.on_diff_change(&item.commit, &item.changes[0]),
        DiffAction::Cancel
    );
    engine.end_commit(&item.commit);
    assert_eq!(engine.rules[0].changes_seen, 1);
    assert!(matches!(engine.next(), Step::Granted(a) if a.name == "Always fail at a change"));

    // Beside a rule that goes on, the changes go on, but not to the rule that failed.
    let rules = vec![
        TestRule::Faulty(Faulty::default()),
        TestRule::Faulty(Faulty::default()),
    ];
    let mut engine = process_rules(EntryCache::default(), rules);
    assert!(engine.begin_commit(&item.commit));
    // keep the second rule interested, as a rule that goes on would be
    assert_eq!(
        engine.on_diff_change(&item.commit, &item.changes[0]),
        DiffAction::Cancel
    );
    assert_eq!(engine.rule_diff_interest, [false, false]);
    engine.rule_diff_interest[1] = true;
    assert_eq!(
        engine.on_diff_change(&item.commit, &item.changes[1]),
        DiffAction::Cancel
    );
    engine.end_commit(&item.commit);
    let seen: Vec<usize> = engine
        .rules
        .iter()
        .map(|rule| match rule {
            TestRule::Faulty(rule) => rule.changes_seen,
            _ => 0,
        })
        .collect();
    assert_eq!(seen, [1, 2]);

    // The rules that come with the program go on past the first change of whitespace.
    let mut engine = process_rules(EntryCache::default(), rules_of_the_program());
    assert!(engine.begin_commit(&item.commit));
    assert_eq!(
        engine.on_diff_change(&item.commit, &item.changes[0]),
        DiffAction::Continue
    );
    assert_eq!(
        engine.on_diff_change(&item.commit, &item.changes[1]),
        DiffAction::Continue
    );
    assert_eq!(
        engine.on_diff_change(&item.commit, &item.changes[2]),
        DiffAction::Cancel
    );
    engine.end_commit(&item.commit);
    assert!(matches!(engine.next(), Step::NeedsCommit));
}

#[test]
fn rules_of_several_kinds_run_together_in_their_order() {
    let item = changed(1, Vec::new(), vec![modification("a", b"a", b"b")]);
    let rules = vec![
        TestRule::Faulty(Faulty::default()),
        TestRule::ParticipationTrophy(ParticipationTrophy::default()),
        TestRule::Flexible(FlexibleRule {
            descriptors: Vec::new(),
        }),
        TestRule::ParticipationTrophy2(ParticipationTrophy2::default()),
    ];
    let mut cache = EntryCache::default();
    let achievements =
        herostratus::achievement::grant_with_rules(&vec![item], &mut cache, None, rules);
    let names: Vec<&str> = achievements.iter().map(|a| a.name).collect();
    // what `process` grants, then what the end of the diff grants, then what is granted when
    // the walk has ended
    assert_eq!(
        names,
        [
            "Always succeed",
            "Always fail at a change",
            "Always succeed at finalize"
        ]
    );
    assert_eq!(cache.last_processed_rules, [4, 2, 3]);
}

fn remote(url: &str) -> RepositoryConfig {
    RepositoryConfig {
        url: url.to_string(),
        ..Default::default()
    }
}

#[test]
fn how_to_authenticate_follows_from_the_url_and_the_configuration() {
    let https = remote("https://example.com/repo.git");
    assert_eq!(
        clone_credentials(&https, None),
        (CredentialKind::CredentialHelper, "git".to_string())
    );
    let with_password = RepositoryConfig {
        https_password: Some("SECRET-REDACTED".to_string()),
        remote_username: Some("me".to_string()),
        ..https
    };
    assert_eq!(
        clone_credentials(&with_password, Some("you")),
        (CredentialKind::UserPassword, "me".to_string())
    );

    let ssh = remote("ssh://git@example.com/repo.git");
    assert_eq!(
        clone_credentials(&ssh, Some("git")),
        (CredentialKind::SshAgent, "git".to_string())
    );
    let scp = RepositoryConfig {
        ssh_private_key: Some("/keys/id".to_string()),
        ..remote("someone@example.com:repo.git")
    };
    assert_eq!(
        clone_credentials(&scp, Some("someone")),
        (CredentialKind::SshKey, "someone".to_string())
    );

    assert_eq!(
        clone_credentials(&remote("file:///tmp/repo"), None),
        (CredentialKind::Default, "git".to_string())
    );
    assert_eq!(
        clone_credentials(&remote("http://example.com/repo"), None).0,
        CredentialKind::Default
    );
}

#[test]
fn object_ids_are_ordered_byte_by_byte() {
    let mut low = [7u8; 20];
    let mut high = [7u8; 20];
    low[19] = 1;
    high[19] = 2;
    assert!(ObjectId::from_bytes(low) < ObjectId::from_bytes(high));
    high[0] = 6;
    assert!(ObjectId::from_bytes(low) > ObjectId::from_bytes(high));
    assert!(ObjectId::from_bytes(low) <= ObjectId::from_bytes(low));
    assert!(ObjectId::from_bytes(low) >= ObjectId::from_bytes(low));
    assert!(ObjectId::null() < ObjectId::from_bytes([0xFF; 20]));
    assert_eq!(
        ObjectId::from_bytes(low).partial_cmp(&ObjectId::from_bytes(low)),
        Some(std::cmp::Ordering::Equal)
    );
    // the order of the bytes is the order of the hexadecimal renderings
    let a = ObjectId::from_hex("0fffffffffffffffffffffffffffffffffffffff").unwrap();
    let b = ObjectId::from_hex("a000000000000000000000000000000000000000").unwrap();
    assert!(a < b);
    assert!(a.to_hex() < b.to_hex());
}

#[test]
fn of_the_test_rules_only_the_faulty_one_fails_at_a_change() {
    let item = changed(1, Vec::new(), vec![modification("a", b"a", b"b")]);
    let change = &item.changes[0];
    let rules = vec![
        TestRule::AlwaysFail(AlwaysFail::default()),
        TestRule::ParticipationTrophy(ParticipationTrophy::default()),
        TestRule::ParticipationTrophy2(ParticipationTrophy2::default()),
        TestRule::Flexible(FlexibleRule {
            descriptors: Vec::new(),
        }),
    ];
    for mut rule in rules {
        let answer = rule.on_diff_change(&item.commit, change);
        assert!(matches!(answer, Ok(DiffAction::Cancel)));
    }
    let mut faulty = TestRule::Faulty(Faulty::default());
    let error = faulty.on_diff_change(&item.commit, change).unwrap_err();
    assert_eq!(error.message, "this rule fails on every change");
}

#[test]
fn a_bounded_run_asks_for_no_more_commits_than_it_may_take() {
    let items = history();
    let mut run = herostratus::achievement::BoundedRun::begin(
        EntryCache::default(),
        rules_of_the_program(),
        Some(2),
    );
    let mut fed = 0;
    let mut granted = Vec::new();
    let summary = loop {
        assert!(run.is_well_formed());
        match run.next() {
            Step::Granted(achievement) => granted.push(achievement),
            Step::NeedsCommit => {
                run.feed_commit(&items[fed]);
                fed += 1;
            }
            Step::Finished(summary) => break summary.unwrap(),
        }
    };
    assert_eq!(fed, 2);
    assert_eq!(run.commits_left, Some(0));
    assert_eq!(summary.num_commits_processed, 2);
    assert_eq!(summary.num_achievements_generated, granted.len() as u64);

    // stepping comes to what a run over the same commits comes to
    let mut cache = EntryCache::default();
    let whole = herostratus::achievement::grant_with_rules(
        &items,
        &mut cache,
        Some(2),
        rules_of_the_program(),
    );
    let names = |all: &[Achievement]| -> Vec<(&'static str, ObjectId)> {
        all.iter().map(|a| (a.name, a.commit)).collect()
    };
    assert_eq!(names(&granted), names(&whole));
    let record = run.into_cache();
    assert_eq!(record.last_processed_commit, cache.last_processed_commit);
    assert_eq!(record.last_processed_rules, cache.last_processed_rules);

    // a run that may take no commit ends at once, and records no commit
    let mut none = herostratus::achievement::BoundedRun::begin(
        EntryCache::default(),
        rules_of_the_program(),
        Some(0),
    );
    loop {
        match none.next() {
            Step::Granted(_) => {}
            Step::NeedsCommit => panic!("no commit may be taken"),
            Step::Finished(_) => break,
        }
    }
    assert_eq!(none.into_cache().last_processed_commit, None);
}
