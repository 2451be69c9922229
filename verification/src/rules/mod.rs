//! The rules that come with the program.
mod builtin;
pub mod catalog;
mod h001_fixup;
mod h002_h003_subject_line;
mod h004_non_unicode;
mod h005_empty_commit;
mod h006_whitespace_only;
pub mod listing;
pub mod test_rules;

pub use builtin::{BuiltinRule, BuiltinRuleView};
pub use h001_fixup::{fixup_descriptor, is_fixup_title, Fixup};
pub use h002_h003_subject_line::{
    fresh_subject_line_length, holds_extremes, lemma_subject_lines,
    longest_subject_line_descriptor, shortest_subject_line_descriptor, shown_commits, subject_at,
    subject_length, subject_line_factory, thresholds_of, SubjectLineLength, SubjectLineLengthView,
};
pub use h004_non_unicode::{is_non_unicode, non_unicode_descriptor, NonUnicode};
pub use h005_empty_commit::{empty_commit_descriptor, EmptyCommit, EmptyCommitView};
pub use h006_whitespace_only::{
    whitespace_only_descriptor, whitespace_verdict, WhitespaceOnly, WhitespaceOnlyView,
};

use vstd::prelude::*;

use crate::achievement::{models, retain_active, retained, AchievementDescriptor, Rule};
use crate::config::{Config, RulesConfig};
use crate::utils::text::str_eq;

verus! {

/// Makes one of the rules that come with the program.
///
/// The factories stand in the order of the ids of their rules; that is the
/// order in which rules are shown a commit.
#[derive(Clone, Copy, Debug, PartialEq, Eq, Structural)]
pub enum RuleFactory {
    Fixup,
    SubjectLineLength,
    NonUnicode,
    EmptyCommit,
    WhitespaceOnly,
}

impl RuleFactory {
    /// The rule that a factory makes from a configuration, all of its
    /// descriptors enabled.
    pub open spec fn built(self, config: RulesConfig) -> BuiltinRuleView {
        match self {
            RuleFactory::Fixup => BuiltinRuleView::Fixup(seq![fixup_descriptor()]),
            RuleFactory::SubjectLineLength => BuiltinRuleView::SubjectLineLength(
                fresh_subject_line_length(thresholds_of(config).0, thresholds_of(config).1),
            ),
            RuleFactory::NonUnicode => BuiltinRuleView::NonUnicode(seq![non_unicode_descriptor()]),
            RuleFactory::EmptyCommit => BuiltinRuleView::EmptyCommit(
                EmptyCommitView {
                    descriptors: seq![empty_commit_descriptor()],
                    found_any_change: false,
                },
            ),
            RuleFactory::WhitespaceOnly => BuiltinRuleView::WhitespaceOnly(
                WhitespaceOnlyView {
                    descriptors: seq![whitespace_only_descriptor()],
                    found_non_whitespace_difference: false,
                    found_any_change: false,
                },
            ),
        }
    }

    /// Makes the rule.
    pub fn build(&self, config: &RulesConfig) -> (rule: BuiltinRule)
        ensures
            rule@ == self.built(*config),
    {
        match self {
            RuleFactory::Fixup => BuiltinRule::Fixup(Fixup::default()),
            RuleFactory::SubjectLineLength => BuiltinRule::SubjectLineLength(
                subject_line_factory(config),
            ),
            RuleFactory::NonUnicode => BuiltinRule::NonUnicode(NonUnicode::default()),
            RuleFactory::EmptyCommit => BuiltinRule::EmptyCommit(EmptyCommit::default()),
            RuleFactory::WhitespaceOnly => BuiltinRule::WhitespaceOnly(WhitespaceOnly::default()),
        }
    }
}

/// The factories of all rules that come with the program.
pub open spec fn registered() -> Seq<RuleFactory> {
    seq![
        RuleFactory::Fixup,
        RuleFactory::SubjectLineLength,
        RuleFactory::NonUnicode,
        RuleFactory::EmptyCommit,
        RuleFactory::WhitespaceOnly,
    ]
}

/// The factories of all rules that come with the program.
pub fn registry() -> (factories: Vec<RuleFactory>)
    ensures
        factories@ == registered(),
{
    let mut factories: Vec<RuleFactory> = Vec::new();
    factories.push(RuleFactory::Fixup);
    factories.push(RuleFactory::SubjectLineLength);
    factories.push(RuleFactory::NonUnicode);
    factories.push(RuleFactory::EmptyCommit);
    factories.push(RuleFactory::WhitespaceOnly);
    assert(factories@ =~= registered());
    factories
}

/// Whether an entry of the list of exclusions names a descriptor: `all`
/// names every one.
pub open spec fn excludes(token: Seq<char>, d: AchievementDescriptor) -> bool {
    token == "all"@ || d.matches(token)
}

/// Whether one of the first `n` exclusions names a descriptor.
pub open spec fn excluded_by_first(tokens: Seq<String>, n: int, d: AchievementDescriptor) -> bool {
    exists|i: int| 0 <= i < n && i < tokens.len() && excludes(#[trigger] tokens[i]@, d)
}

/// Whether one of the first `n` inclusions names a descriptor.
pub open spec fn included_by_first(tokens: Seq<String>, n: int, d: AchievementDescriptor) -> bool {
    exists|i: int| 0 <= i < n && i < tokens.len() && d.matches(#[trigger] tokens[i]@)
}

/// A descriptor after the filter was applied to it: enabled where an
/// inclusion names it, else disabled where an exclusion names it, else as it
/// was.
pub open spec fn filtered(
    d: AchievementDescriptor,
    exclusions: Seq<String>,
    inclusions: Seq<String>,
) -> AchievementDescriptor {
    AchievementDescriptor {
        enabled: if included_by_first(inclusions, inclusions.len() as int, d) {
            true
        } else if excluded_by_first(exclusions, exclusions.len() as int, d) {
            false
        } else {
            d.enabled
        },
        ..d
    }
}

/// A rule after the filter was applied to each of its descriptors.
pub open spec fn filtered_rule<R: Rule>(
    m: R::V,
    exclusions: Seq<String>,
    inclusions: Seq<String>,
) -> R::V {
    R::with_descriptors(
        m,
        Seq::new(
            R::descriptors(m).len(),
            |i: int| filtered(R::descriptors(m)[i], exclusions, inclusions),
        ),
    )
}

/// The rules that run: those of `rules` that have a descriptor left enabled
/// after the filter was applied to all, in order.
pub open spec fn selected<R: Rule>(
    rules: Seq<R::V>,
    exclusions: Seq<String>,
    inclusions: Seq<String>,
) -> Seq<R::V> {
    retained::<R>(
        Seq::new(rules.len(), |i: int| filtered_rule::<R>(rules[i], exclusions, inclusions)),
    )
}

/// The options of the rules in a configuration; without a configuration, or
/// with one that says nothing of rules, those that hold by default.
pub open spec fn rules_config_of(config: Option<&Config>) -> RulesConfig {
    match config {
        Some(c) => match c.rules {
            Some(r) => r,
            None => RulesConfig {
                exclude: None,
                includes: None,
                h2_shortest_subject_line: None,
                h3_longest_subject_line: None,
            },
        },
        None => RulesConfig {
            exclude: None,
            includes: None,
            h2_shortest_subject_line: None,
            h3_longest_subject_line: None,
        },
    }
}

/// The entries of a list that may be missing.
pub open spec fn entries_of(list: Option<Vec<String>>) -> Seq<String> {
    match list {
        Some(entries) => entries@,
        None => Seq::empty(),
    }
}

/// All rules that come with the program, as they are made from `config`.
pub open spec fn all_built(config: RulesConfig) -> Seq<BuiltinRuleView> {
    Seq::new(registered().len(), |i: int| registered()[i].built(config))
}

/// The rules that the configuration lets run.
pub open spec fn rules_of(config: Option<&Config>) -> Seq<BuiltinRuleView> {
    selected::<BuiltinRule>(
        all_built(rules_config_of(config)),
        entries_of(rules_config_of(config).exclude),
        entries_of(rules_config_of(config).includes),
    )
}

/// Whether one of the exclusions names a descriptor.
fn is_excluded(d: &AchievementDescriptor, exclusions: &Vec<String>) -> (r: bool)
    ensures
        r == excluded_by_first(exclusions@, exclusions@.len() as int, *d),
{
    let mut i: usize = 0;
    while i < exclusions.len()
        invariant
            i <= exclusions@.len(),
            !excluded_by_first(exclusions@, i as int, *d),
        decreases exclusions@.len() - i,
    {
        let token = exclusions[i].as_str();
        if str_eq(token, "all") || d.id_matches(token) {
            return true;
        }
        i += 1;
    }
    false
}

/// Whether one of the inclusions names a descriptor.
fn is_included(d: &AchievementDescriptor, inclusions: &Vec<String>) -> (r: bool)
    ensures
        r == included_by_first(inclusions@, inclusions@.len() as int, *d),
{
    let mut i: usize = 0;
    while i < inclusions.len()
        invariant
            i <= inclusions@.len(),
            !included_by_first(inclusions@, i as int, *d),
        decreases inclusions@.len() - i,
    {
        if d.id_matches(inclusions[i].as_str()) {
            return true;
        }
        i += 1;
    }
    false
}

/// Applies the filter to each descriptor of a rule.
pub fn apply_filter<R: Rule>(rule: &mut R, exclusions: &Vec<String>, inclusions: &Vec<String>)
    ensures
        final(rule)@ == filtered_rule::<R>(old(rule)@, exclusions@, inclusions@),
{
    let ds = rule.get_descriptors_mut();
    let ghost orig = ds@;
    let mut i: usize = 0;
    while i < ds.len()
        invariant
            ds@.len() == orig.len(),
            i <= ds@.len(),
            forall|j: int| 0 <= j < i ==> ds@[j] == filtered(orig[j], exclusions@, inclusions@),
            forall|j: int| i <= j < ds@.len() ==> ds@[j] == orig[j],
        decreases ds@.len() - i,
    {
        let d = ds[i];
        if is_included(&d, inclusions) {
            ds[i].enabled = true;
        } else if is_excluded(&d, exclusions) {
            ds[i].enabled = false;
        }
        i += 1;
    }
    assert(ds@ =~= Seq::new(orig.len(), |i: int| filtered(orig[i], exclusions@, inclusions@)));
}

/// Applies the filter to every rule, and keeps the rules that have a
/// descriptor left enabled.
pub fn select_rules<R: Rule>(
    rules: Vec<R>,
    exclusions: &Vec<String>,
    inclusions: &Vec<String>,
) -> (out: Vec<R>)
    ensures
        models(out@) == selected::<R>(models(rules@), exclusions@, inclusions@),
{
    let mut rules = rules;
    let ghost before = models(rules@);
    let mut i: usize = 0;
    while i < rules.len()
        invariant
            i <= rules@.len(),
            rules@.len() == before.len(),
            forall|j: int|
                0 <= j < i ==> (#[trigger] rules@[j])@ == filtered_rule::<R>(
                    before[j],
                    exclusions@,
                    inclusions@,
                ),
            forall|j: int| i <= j < rules@.len() ==> (#[trigger] rules@[j])@ == before[j],
        decreases rules@.len() - i,
    {
        apply_filter(&mut rules[i], exclusions, inclusions);
        i += 1;
    }
    assert(models(rules@) =~= Seq::new(
        before.len(),
        |i: int| filtered_rule::<R>(before[i], exclusions@, inclusions@),
    ));
    retain_active(&mut rules);
    rules
}

/// A new instance of each rule that comes with the program and that the
/// configuration lets run, in the order of the registry.
///
/// Every rule is made with all descriptors enabled. Then each descriptor
/// that an exclusion names is disabled, and after that each that an
/// inclusion names is enabled. A rule of which no descriptor is left
/// enabled does not run.
pub fn builtin_rules(config: Option<&Config>) -> (rules: Vec<BuiltinRule>)
    ensures
        models(rules@) == rules_of(config),
{
    let default_rules_config = RulesConfig::default();
    let rules_config: &RulesConfig = match config {
        Some(c) => match &c.rules {
            Some(r) => r,
            None => &default_rules_config,
        },
        None => &default_rules_config,
    };
    let none: Vec<String> = Vec::new();
    let exclusions: &Vec<String> = match &rules_config.exclude {
        Some(entries) => entries,
        None => &none,
    };
    let inclusions: &Vec<String> = match &rules_config.includes {
        Some(entries) => entries,
        None => &none,
    };
    let factories = registry();
    let mut rules: Vec<BuiltinRule> = Vec::new();
    let mut i: usize = 0;
    while i < factories.len()
        invariant
            i <= factories@.len(),
            factories@ == registered(),
            rules@.len() == i,
            forall|j: int|
                0 <= j < i ==> (#[trigger] rules@[j])@ == registered()[j].built(*rules_config),
        decreases factories@.len() - i,
    {
        rules.push(factories[i].build(rules_config));
        i += 1;
    }
    assert(models(rules@) =~= all_built(*rules_config));
    select_rules(rules, exclusions, inclusions)
}

/// A new instance of every rule that comes with the program.
pub fn builtin_rules_all() -> (rules: Vec<BuiltinRule>)
    ensures
        models(rules@) == rules_of(None),
{
    builtin_rules(None)
}

} // verus!
