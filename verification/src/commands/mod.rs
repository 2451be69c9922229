//! What the subcommands compute.
mod add;
mod check;
mod fetch_all;
mod remove;

pub use add::{
    add, args_to_config, clone_path_of_args, describes, name_of_args, repository_name, AddError,
};
pub use check::{
    begin_check, check, check_all, check_impl, check_spec, check_stat, checked_all,
    checked_count, fetch_of, file_name_of,
    lemma_check_twice_grants_nothing, lemma_checked_achievements_are_earned, merge_stats, merged,
    reports, reports_all, repository_name_of_path, without_trailing_slashes, CheckAllStat,
    CheckOutcome, CheckStat, RepositoryWalk,
};
pub use fetch_all::{
    fetch_action, fetch_all, reference_name, reference_of, tells, FetchAction, FetchStat, Fetched,
};
pub use remove::{names, remove, without_named};
