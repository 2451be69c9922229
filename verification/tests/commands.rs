use std::time::Duration;

use herostratus::cache::{EntryCache, GlobalCache};
use herostratus::cli::{
    Action, AddArgs, Args, CheckAllArgs, CheckArgs, Command, FetchAllArgs, LogLevel, RemoveArgs,
};
use herostratus::commands::{
    add, args_to_config, check, check_all, check_impl, fetch_action, fetch_all, merge_stats,
    reference_name, remove, repository_name, repository_name_of_path, AddError, CheckStat,
    FetchAction, FetchStat, Fetched, RepositoryWalk,
};
use herostratus::config::{config_path, Config, RepositoryConfig};
use herostratus::git::clone::UrlError;
use herostratus::git::{Commit, ObjectId, Signature, WalkItem};

fn oid(n: u8) -> ObjectId {
    ObjectId::from_bytes([n; 20])
}

fn signature() -> Signature {
    Signature {
        name: b"Herostratus".to_vec(),
        email: b"Herostratus@example.com".to_vec(),
        seconds: 1711656630,
        offset_minutes: 0,
    }
}

/// A repository of commits without changes, oldest first.
struct TempRepository {
    commits: Vec<Commit>,
}

fn with_empty_commits(messages: &[&str]) -> TempRepository {
    let mut repo = TempRepository {
        commits: Vec::new(),
    };
    for message in messages {
        add_empty_commit(&mut repo, message);
    }
    repo
}

fn simplest() -> TempRepository {
    with_empty_commits(&["Initial commit"])
}

fn add_empty_commit(repo: &mut TempRepository, message: &str) -> ObjectId {
    let id = oid(repo.commits.len() as u8 + 1);
    let parents = match repo.commits.last() {
        Some(parent) => vec![parent.id],
        None => Vec::new(),
    };
    repo.commits.push(Commit::from_message(
        id,
        parents,
        signature(),
        signature(),
        message.as_bytes(),
        oid(0xEE),
    ));
    id
}

/// What `HEAD` resolves to.
fn head(repo: &TempRepository) -> ObjectId {
    repo.commits.last().unwrap().id
}

/// The commits that `HEAD` reaches, newest first.
fn walk(repo: &TempRepository) -> Vec<WalkItem> {
    repo.commits
        .iter()
        .rev()
        .map(|commit| WalkItem {
            commit: commit.clone(),
            changes: Vec::new(),
        })
        .collect()
}

fn add_args(url: &str) -> AddArgs {
    AddArgs {
        url: url.to_string(),
        branch: None,
        path: None,
        name: None,
        force: false,
        skip_clone: true,
        remote_username: None,
        ssh_private_key: None,
        ssh_public_key: None,
        ssh_passphrase: None,
        https_password: None,
    }
}

#[test]
fn add_names_the_repository_after_the_end_of_the_url() {
    let mut config = Config::default();
    let args = add_args("git@github.com:Notgnoshi/herostratus.git");
    add(&args, &mut config, "/data").unwrap();
    assert_eq!(config.repositories.len(), 1);
    let (name, repo) = &config.repositories[0];
    assert_eq!(name, "herostratus.git");
    assert_eq!(repo.path, "/data/git/Notgnoshi/herostratus.git");
    assert_eq!(repo.url, "git@github.com:Notgnoshi/herostratus.git");
    assert_eq!(repo.reference, None);
    assert!(config.is_well_formed());
}

#[test]
fn add_the_same_repo_twice_replaces_it_unless_it_is_named_otherwise() {
    let mut config = Config::default();
    let args = add_args("git@github.com:Notgnoshi/herostratus.git");
    add(&args, &mut config, "/data").unwrap();
    let mut again = add_args("https://github.com/Notgnoshi/herostratus.git");
    again.branch = Some("test/fixup".to_string());
    add(&again, &mut config, "/data").unwrap();
    assert_eq!(config.repositories.len(), 1);
    assert_eq!(
        config.repositories[0].1.url,
        "https://github.com/Notgnoshi/herostratus.git"
    );
    assert_eq!(
        config.repositories[0].1.reference.as_deref(),
        Some("test/fixup")
    );

    again.name = Some("unique-name".to_string());
    add(&again, &mut config, "/data").unwrap();
    assert_eq!(config.repositories.len(), 2);
    assert_eq!(config.repositories[1].0, "unique-name");
    assert!(config.is_well_formed());
}

#[test]
fn add_takes_the_path_and_the_credentials_that_are_given() {
    let mut args = add_args("ssh://git@example.com/path.git");
    args.path = Some("/somewhere/else".to_string());
    args.remote_username = Some("me".to_string());
    args.ssh_private_key = Some("/keys/id".to_string());
    args.ssh_public_key = Some("/keys/id.pub".to_string());
    args.ssh_passphrase = Some("SECRET-REDACTED".to_string());
    args.https_password = Some("SECRET-REDACTED".to_string());
    let repo = args_to_config(&args, "/data").unwrap();
    assert_eq!(repo.path, "/somewhere/else");
    assert_eq!(repo.remote_username.as_deref(), Some("me"));
    assert_eq!(repo.ssh_private_key.as_deref(), Some("/keys/id"));
    assert_eq!(repo.ssh_public_key.as_deref(), Some("/keys/id.pub"));
    assert_eq!(repo.ssh_passphrase.as_deref(), Some("SECRET-REDACTED"));
    assert_eq!(repo.https_password.as_deref(), Some("SECRET-REDACTED"));
    assert_eq!(repository_name(&args).unwrap(), "path.git");
}

#[test]
fn add_fails_without_a_name_or_a_path() {
    let mut config = Config::default();
    assert_eq!(
        add(&add_args("domain:path"), &mut config, "/data"),
        Err(AddError::MissingName)
    );
    assert_eq!(
        add(&add_args("svn://example.com/path"), &mut config, "/data"),
        Err(AddError::Url(UrlError::UnsupportedProtocol))
    );
    assert_eq!(
        add(&add_args("some/local/path"), &mut config, "/data"),
        Err(AddError::Url(UrlError::MissingColon))
    );
    assert!(config.repositories.is_empty());

    let mut named = add_args("domain:path");
    named.name = Some("name".to_string());
    assert_eq!(add(&named, &mut config, "/data"), Ok(()));
    assert_eq!(config.repositories[0].0, "name");
    assert_eq!(config.repositories[0].1.path, "/data/git/path");
}

#[test]
fn remove_by_url_or_path() {
    let mut config = Config::default();
    add(&add_args("https://example.com/a"), &mut config, "/data").unwrap();
    add(&add_args("https://example.com/b"), &mut config, "/data").unwrap();
    add(&add_args("https://example.com/c"), &mut config, "/data").unwrap();

    let nothing = RemoveArgs {
        url: None,
        path: None,
    };
    assert_eq!(remove(&nothing, &mut config), 0);
    assert_eq!(config.repositories.len(), 3);

    let by_url = RemoveArgs {
        url: Some("https://example.com/b".to_string()),
        path: None,
    };
    assert_eq!(remove(&by_url, &mut config), 1);
    let names: Vec<&str> = config.repositories.iter().map(|r| r.0.as_str()).collect();
    assert_eq!(names, ["a", "c"]);

    let by_both = RemoveArgs {
        url: Some("https://example.com/a".to_string()),
        path: Some("/data/git/c".to_string()),
    };
    assert_eq!(remove(&by_both, &mut config), 2);
    assert!(config.repositories.is_empty());
}

#[test]
fn the_configuration_file_lies_in_the_data_dir() {
    assert_eq!(config_path("/data"), "/data/config.toml");
    assert_eq!(config_path("/data/"), "/data/config.toml");
    assert_eq!(config_path(""), "config.toml");
    assert_eq!(config_path("relative/dir"), "relative/dir/config.toml");
}

#[test]
fn the_name_of_a_repository_is_the_end_of_its_path() {
    assert_eq!(repository_name_of_path("/home/me/herostratus"), "herostratus");
    assert_eq!(repository_name_of_path("/home/me/herostratus/"), "herostratus");
    assert_eq!(repository_name_of_path("herostratus.git///"), "herostratus.git");
    assert_eq!(repository_name_of_path("name"), "name");
    assert_eq!(repository_name_of_path("/"), "");
    assert_eq!(repository_name_of_path(""), "");
    assert_eq!(repository_name_of_path("."), "");
    assert_eq!(repository_name_of_path(".."), "");
    assert_eq!(repository_name_of_path("a/.."), "");
}

fn check_args(depth: Option<usize>) -> CheckArgs {
    CheckArgs {
        path: "/repos/example/".to_string(),
        reference: "HEAD".to_string(),
        depth,
        summary: false,
    }
}

#[test]
fn check_counts_commits_and_achievements() {
    let repo = with_empty_commits(&["fixup! a", "plain", "WIP: b", "also plain"]);
    let elapsed = Duration::from_millis(5);
    let (stat, achievements) = check(&check_args(None), None, &walk(&repo), elapsed);
    assert_eq!(stat.name, "example");
    assert_eq!(stat.num_commits_checked, 4);
    assert_eq!(stat.elapsed, elapsed);
    // every commit is empty, two have a marker, one has the shortest subject line
    let names: Vec<&str> = achievements.iter().map(|a| a.name).collect();
    assert_eq!(
        names,
        [
            "You can always add more later",
            "I meant to fix that up later, I swear!",
            "You can always add more later",
            "You can always add more later",
            "I meant to fix that up later, I swear!",
            "You can always add more later",
            "Brevity is the soul of wit",
        ]
    );
    assert_eq!(stat.num_achievements_granted, 7);
    assert_eq!(achievements[0].commit, oid(4));
    assert_eq!(achievements[1].commit, oid(3));
    assert_eq!(achievements[6].commit, oid(2));

    let (stat, achievements) = check(&check_args(Some(1)), None, &walk(&repo), elapsed);
    assert_eq!(stat.num_commits_checked, 1);
    assert_eq!(achievements.len(), 1);
}

#[test]
fn check_is_stateless_and_check_impl_is_not() {
    let repo = with_empty_commits(&["fixup! a"]);
    let config = herostratus::config::exclude_all_rules_except("H1-fixup");
    let elapsed = Duration::ZERO;
    for _ in 0..2 {
        let (stat, achievements) =
            check(&check_args(None), Some(&config), &walk(&repo), elapsed);
        assert_eq!(achievements.len(), 1);
        assert_eq!(stat.num_achievements_granted, 1);
    }

    let mut cache = EntryCache::default();
    let (_, first) = check_impl(Some(&config), "name", &walk(&repo), &mut cache, None, elapsed);
    assert_eq!(first.len(), 1);
    assert_eq!(cache.last_processed_commit, Some(oid(1)));
    assert_eq!(cache.last_processed_rules, [1]);
    let (stat, second) =
        check_impl(Some(&config), "name", &walk(&repo), &mut cache, None, elapsed);
    assert!(second.is_empty());
    assert_eq!(stat.num_commits_checked, 0);
    assert_eq!(stat.name, "name");
}

fn fetch_stat(name: &str, fetched: Option<u64>, millis: u64) -> FetchStat {
    FetchStat {
        name: name.to_string(),
        num_commits_fetched: fetched,
        elapsed: Duration::from_millis(millis),
    }
}

fn check_stat(name: &str, commits: u64, achievements: u64, millis: u64) -> CheckStat {
    CheckStat {
        name: name.to_string(),
        num_commits_checked: commits,
        num_achievements_granted: achievements,
        elapsed: Duration::from_millis(millis),
    }
}

#[test]
fn merge_stats_joins_by_name() {
    let fetch = vec![
        fetch_stat("a", Some(3), 10),
        fetch_stat("b", None, 20),
        fetch_stat("a", Some(5), 30),
    ];
    let check = vec![
        check_stat("b", 7, 1, 40),
        check_stat("c", 8, 2, 50),
        check_stat("a", 9, 3, 60),
    ];
    let merged = merge_stats(fetch, check);
    assert_eq!(merged.len(), 3);

    assert_eq!(merged[0].name, "b");
    assert_eq!(merged[0].num_commits_fetched, None);
    assert_eq!(merged[0].fetch_duration, Some(Duration::from_millis(20)));
    assert_eq!(merged[0].num_commits_checked, 7);
    assert_eq!(merged[0].num_achievements_granted, 1);
    assert_eq!(merged[0].check_duration, Duration::from_millis(40));

    assert_eq!(merged[1].name, "c");
    assert_eq!(merged[1].num_commits_fetched, None);
    assert_eq!(merged[1].fetch_duration, None);

    // of two fetches of one name the last counts
    assert_eq!(merged[2].name, "a");
    assert_eq!(merged[2].num_commits_fetched, Some(5));
    assert_eq!(merged[2].fetch_duration, Some(Duration::from_millis(30)));
    assert_eq!(merged[2].num_commits_checked, 9);

    assert!(merge_stats(vec![fetch_stat("a", None, 1)], Vec::new()).is_empty());
}

fn repository(path: &str, reference: Option<&str>) -> RepositoryConfig {
    RepositoryConfig {
        path: path.to_string(),
        reference: reference.map(|r| r.to_string()),
        url: format!("file://{path}"),
        ..Default::default()
    }
}

#[test]
fn fetch_all_tells_what_was_done_to_each_repository() {
    assert_eq!(fetch_action(true), FetchAction::Pull);
    assert_eq!(fetch_action(false), FetchAction::Clone);

    let config = Config {
        repositories: vec![
            ("one".to_string(), repository("/one", None)),
            ("two".to_string(), repository("/two", Some("main"))),
        ],
        rules: None,
    };
    let results = vec![
        (Fetched::Pulled(4), Duration::from_millis(1)),
        (Fetched::Cloned, Duration::from_millis(2)),
        (Fetched::Pulled(9), Duration::from_millis(3)),
    ];
    let stats = fetch_all(&config, &results);
    assert_eq!(stats.len(), 2);
    assert_eq!(stats[0].name, "one");
    assert_eq!(stats[0].num_commits_fetched, Some(4));
    assert_eq!(stats[0].elapsed, Duration::from_millis(1));
    assert_eq!(stats[1].name, "two");
    assert_eq!(stats[1].num_commits_fetched, None);
    assert_eq!(stats[1].elapsed, Duration::from_millis(2));

    assert_eq!(fetch_all(&config, &results[..1].to_vec()).len(), 1);
    assert_eq!(reference_name(&config.repositories[0].1), "HEAD");
    assert_eq!(reference_name(&config.repositories[1].1), "main");
}

#[test]
fn check_all_checks_each_repository_with_its_own_record() {
    let config = Config {
        repositories: vec![
            ("one".to_string(), repository("/one", None)),
            ("gone".to_string(), repository("/gone", None)),
            ("two".to_string(), repository("/two", Some("main"))),
        ],
        rules: herostratus::config::exclude_all_rules_except("fixup").rules,
    };
    let one = with_empty_commits(&["fixup! a", "b"]);
    let mut two = with_empty_commits(&["a", "WIP b", "TODO c"]);
    let args = CheckAllArgs {
        no_fetch: true,
        depth: None,
        summary: false,
    };
    let walks = vec![
        Some(RepositoryWalk {
            items: walk(&one),
            elapsed: Duration::from_millis(1),
        }),
        None,
        Some(RepositoryWalk {
            items: walk(&two),
            elapsed: Duration::from_millis(2),
        }),
    ];
    let mut cache = GlobalCache::in_memory();
    let fetch = vec![fetch_stat("two", Some(3), 7)];
    let (stats, achievements) = check_all(&args, &config, &walks, &mut cache, fetch);

    assert_eq!(stats.len(), 2);
    assert_eq!(stats[0].name, "one");
    assert_eq!(stats[0].num_commits_checked, 2);
    assert_eq!(stats[0].num_achievements_granted, 1);
    assert_eq!(stats[0].num_commits_fetched, None);
    assert_eq!(stats[0].fetch_duration, None);
    assert_eq!(stats[0].check_duration, Duration::from_millis(1));
    assert_eq!(stats[1].name, "two");
    assert_eq!(stats[1].num_commits_checked, 3);
    assert_eq!(stats[1].num_achievements_granted, 2);
    assert_eq!(stats[1].num_commits_fetched, Some(3));
    assert_eq!(stats[1].fetch_duration, Some(Duration::from_millis(7)));

    let commits: Vec<ObjectId> = achievements.iter().map(|a| a.commit).collect();
    assert_eq!(commits, [oid(1), oid(3), oid(2)]);

    let keys: Vec<&str> = cache.entry_caches.iter().map(|e| e.0.as_str()).collect();
    assert_eq!(keys, ["one#HEAD", "two#main"]);
    assert_eq!(cache.entry_caches[0].1.last_processed_commit, Some(oid(2)));
    assert_eq!(cache.entry_caches[1].1.last_processed_commit, Some(oid(3)));
    assert_eq!(cache.entry_caches[1].1.last_processed_rules, [1]);

    // A second check finds only what is new.
    add_empty_commit(&mut two, "fixup! d");
    let walks = vec![
        Some(RepositoryWalk {
            items: walk(&one),
            elapsed: Duration::ZERO,
        }),
        None,
        Some(RepositoryWalk {
            items: walk(&two),
            elapsed: Duration::ZERO,
        }),
    ];
    let (stats, achievements) = check_all(&args, &config, &walks, &mut cache, Vec::new());
    assert_eq!(stats.len(), 2);
    assert_eq!(stats[0].num_commits_checked, 0);
    assert_eq!(stats[1].num_commits_checked, 1);
    assert_eq!(achievements.len(), 1);
    assert_eq!(achievements[0].commit, oid(4));
    assert_eq!(cache.entry_caches.len(), 2);
    assert_eq!(cache.entry_caches[1].1.last_processed_commit, Some(oid(4)));
}

fn args(command: Option<Command>) -> Args {
    Args {
        log_level: LogLevel::Info,
        data_dir: None,
        get_data_dir: false,
        get_config: false,
        list_rules: false,
        color: false,
        command,
    }
}

#[test]
fn queries_go_before_subcommands() {
    assert_eq!(args(None).action(), Action::MissingSubcommand);
    assert_eq!(
        args(Some(Command::Check(check_args(None)))).action(),
        Action::Check
    );
    assert_eq!(
        args(Some(Command::FetchAll(FetchAllArgs {}))).action(),
        Action::Stateful
    );
    assert_eq!(
        args(Some(Command::Add(add_args("a:b")))).action(),
        Action::Stateful
    );
    let mut all = args(Some(Command::Check(check_args(None))));
    all.list_rules = true;
    assert_eq!(all.action(), Action::ListRules);
    all.get_config = true;
    assert_eq!(all.action(), Action::PrintConfig);
    all.get_data_dir = true;
    assert_eq!(all.action(), Action::PrintDataDir);
}

fn repository_named<'a>(config: &'a Config, name: &str) -> &'a RepositoryConfig {
    &config
        .repositories
        .iter()
        .find(|(n, _)| n == name)
        .unwrap()
        .1
}

#[test]
fn add_add_the_same_repo_twice() {
    let data_dir = "/data";
    let clone_dir = "/data/git/Notgnoshi/herostratus.git";
    let mut config = Config::default();

    let url1 = "git@github.com:Notgnoshi/herostratus.git";
    add(&add_args(url1), &mut config, data_dir).unwrap();
    assert_eq!(config.repositories.len(), 1);
    assert_eq!(config.repositories[0].0, "herostratus.git");
    assert_eq!(config.repositories[0].1.path, clone_dir);
    assert_eq!(config.repositories[0].1.url, url1);

    let url2 = "https://github.com/Notgnoshi/herostratus.git";
    add(&add_args(url2), &mut config, data_dir).unwrap();

    // The URL gets replaced, because the name didn't change
    assert_eq!(config.repositories.len(), 1);
    assert_eq!(config.repositories[0].0, "herostratus.git");
    assert_eq!(config.repositories[0].1.path, clone_dir);
    assert_eq!(config.repositories[0].1.url, url2);

    // Adding the same URL again with a different name adds a second instance with the same clone
    // dir
    let url3 = "https://github.com/Notgnoshi/herostratus.git";
    let mut args = add_args(url3);
    args.name = Some("unique-name".to_string());
    add(&args, &mut config, data_dir).unwrap();

    assert_eq!(config.repositories.len(), 2);
    assert_eq!(
        repository_named(&config, "herostratus.git").path,
        repository_named(&config, "unique-name").path
    );
}

#[test]
fn test_two_branches_share_one_bare_repo() {
    let data_dir = "/data";
    let clone_dir = "/data/git/Notgnoshi/herostratus.git";
    let mut config = Config::default();

    let url = "https://github.com/Notgnoshi/herostratus.git";
    let mut args = add_args(url);
    args.name = Some("herostratus-1".to_string());
    args.branch = Some("test/simple".to_string());
    add(&args, &mut config, data_dir).unwrap();

    assert_eq!(config.repositories.len(), 1);
    assert_eq!(config.repositories[0].0, "herostratus-1");
    assert_eq!(config.repositories[0].1.path, clone_dir);
    assert_eq!(
        config.repositories[0].1.reference.as_deref(),
        Some("test/simple")
    );
    assert_eq!(config.repositories[0].1.url, url);

    let mut args = add_args(url);
    args.name = Some("herostratus-2".to_string());
    args.branch = Some("test/fixup".to_string());
    add(&args, &mut config, data_dir).unwrap();

    let config1 = repository_named(&config, "herostratus-1");
    let config2 = repository_named(&config, "herostratus-2");
    assert_eq!(config1.reference.as_deref(), Some("test/simple"));
    assert_eq!(config2.reference.as_deref(), Some("test/fixup"));
    assert_eq!(config1.path, config2.path);
    assert_eq!(config1.url, config2.url);
}

#[test]
fn early_exit_cache() {
    let mut upstream = with_empty_commits(&["commit1"]);
    let first_commit = head(&upstream);
    let mut config = Config::default();
    let mut args = add_args("file:///upstream");
    args.name = Some("upstream".to_string());
    add(&args, &mut config, "/data").unwrap();
    let mut cache = GlobalCache::from_data_dir("/data", None);
    let all = CheckAllArgs {
        no_fetch: true,
        depth: None,
        summary: false,
    };

    config.rules = Some(herostratus::config::RulesConfig {
        exclude: Some(vec!["all".into()]),
        includes: Some(vec!["H5-empty-commit".into()]),
        ..Default::default()
    });
    let walks = vec![Some(RepositoryWalk {
        items: walk(&upstream),
        elapsed: Duration::ZERO,
    })];
    let (_, achievements) = check_all(&all, &config, &walks, &mut cache, Vec::new());
    assert!(
        achievements.iter().any(|a| a.commit == first_commit),
        "First commit should grant an achievement"
    );

    // Add a new commit, and enable a new rule
    let second_commit = add_empty_commit(&mut upstream, "fixup!");
    config.rules = Some(herostratus::config::RulesConfig {
        exclude: Some(vec!["all".into()]),
        includes: Some(vec!["H5-empty-commit".into(), "H1-fixup".into()]),
        ..Default::default()
    });
    let walks = vec![Some(RepositoryWalk {
        items: walk(&upstream),
        elapsed: Duration::ZERO,
    })];
    let (_, achievements) = check_all(&all, &config, &walks, &mut cache, Vec::new());

    // H5 should not be re-granted, and the new Rule doesn't grant an achievement for the first
    // commit
    assert!(
        !achievements.iter().any(|a| a.commit == first_commit),
        "First commit is not granted an achievement"
    );
    assert_eq!(
        achievements
            .iter()
            .filter(|a| a.commit == second_commit)
            .count(),
        2,
        "Second commit should grant two achievements"
    );
}
