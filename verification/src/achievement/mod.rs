//! What an achievement is, what a rule is, and the engine that runs rules
//! over a walk of commits.
#[allow(clippy::module_inception)]
mod achievement;
mod bounded;
pub mod earned;
pub mod guarantees;
mod model;
mod process_rules;
pub mod rerun;
pub mod sink;

pub use achievement::{
    disabled_everywhere, enabled_ids, grant_under, granted_under, lemma_own_ids_match,
    pretty_id_of, set_enabled, short_id_of, toggled, Achievement, AchievementDescriptor,
    DiffAction, Rule, RuleError,
};
pub use bounded::{bounded_step, one_less, BoundedRun};
pub use model::{
    all_with, capped, change_dispatched, change_shown, changes_dispatched, changes_shown,
    commit_begun, commit_ended, commit_fed, counted, covered, diff_dispatched, diff_end_grant,
    diff_ended, diff_spec, diff_started, drained, early_exit_spec, enabled_rule_ids,
    finalize_all_spec, fini_all, grants_of, initial_state, interests, leaving_ids, models,
    next_spec,
    none_interested, prefinalize, process_commit_spec, retained, run_spec, stamped, summary_of,
    walk_ended, wants_changes, with_all, EngineView, RunSummary, Step,
};
pub use process_rules::{
    grant, grant_with_rules, process_rules, retain_active, run_rules, Achievements,
};
