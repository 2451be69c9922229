//! What holds of the descriptors of the rules that come with the program.
use vstd::prelude::*;

use crate::achievement::earned::{grants_as, grants_honestly, ids_tell_apart, well_granted};
use crate::achievement::guarantees::lemma_retained_are_among;
use crate::achievement::rerun::quiet_when_fresh;
use crate::achievement::{
    disabled_everywhere, granted_under, pretty_id_of, retained, AchievementDescriptor, Rule,
};
use crate::cache::EntryCacheView;
use crate::config::RulesConfig;
use crate::git::{Commit, CommitId};
use crate::rules::builtin::{BuiltinRule, BuiltinRuleView};
use crate::rules::h001_fixup::fixup_descriptor;
use crate::rules::h002_h003_subject_line::{
    longest_subject_line_descriptor, shortest_subject_line_descriptor,
};
use crate::rules::h004_non_unicode::non_unicode_descriptor;
use crate::rules::h005_empty_commit::empty_commit_descriptor;
use crate::rules::h006_whitespace_only::whitespace_only_descriptor;
use crate::rules::{all_built, filtered_rule, registered, selected};
use crate::utils::text::{decimal, digit_char};

verus! {

/// The descriptors of all rules that come with the program, in the order of
/// the registry.
pub open spec fn builtin_descriptors() -> Seq<AchievementDescriptor> {
    seq![
        fixup_descriptor(),
        shortest_subject_line_descriptor(),
        longest_subject_line_descriptor(),
        non_unicode_descriptor(),
        empty_commit_descriptor(),
        whitespace_only_descriptor(),
    ]
}

/// The descriptors of `rules`, rule by rule.
pub open spec fn all_descriptors<R: Rule>(rules: Seq<R::V>) -> Seq<AchievementDescriptor>
    decreases rules.len(),
{
    if rules.len() == 0 {
        Seq::empty()
    } else {
        all_descriptors::<R>(rules.drop_last()) + R::descriptors(rules.last())
    }
}

/// Whether the descriptors differ from one another in each of their five
/// identifiers, and have the ids from 1 on without a gap, in order.
pub open spec fn is_catalog(ds: Seq<AchievementDescriptor>) -> bool {
    &&& forall|i: int| 0 <= i < ds.len() ==> (#[trigger] ds[i]).id == i + 1
    &&& forall|i: int, j: int|
        0 <= i < ds.len() && 0 <= j < ds.len() && i != j ==> {
            &&& (#[trigger] ds[i]).id != (#[trigger] ds[j]).id
            &&& ds[i].human_id@ != ds[j].human_id@
            &&& pretty_id_of(ds[i]) != pretty_id_of(ds[j])
            &&& ds[i].name@ != ds[j].name@
            &&& ds[i].description@ != ds[j].description@
        }
}

/// The rules that come with the program own the descriptors of
/// [`builtin_descriptors`], whatever the configuration.
pub proof fn lemma_builtin_descriptors(config: RulesConfig)
    ensures
        all_descriptors::<BuiltinRule>(all_built(config)) == builtin_descriptors(),
{
    let rules = all_built(config);
    assert(rules.len() == 5);
    let r4 = rules.drop_last();
    let r3 = r4.drop_last();
    let r2 = r3.drop_last();
    let r1 = r2.drop_last();
    let r0 = r1.drop_last();
    assert(r0.len() == 0);
    assert(all_descriptors::<BuiltinRule>(r0) =~= Seq::empty());
    assert(r1.last() == registered()[0].built(config));
    assert(all_descriptors::<BuiltinRule>(r1) =~= seq![fixup_descriptor()]);
    assert(r2.last() == registered()[1].built(config));
    assert(all_descriptors::<BuiltinRule>(r2) =~= seq![
        fixup_descriptor(),
        shortest_subject_line_descriptor(),
        longest_subject_line_descriptor(),
    ]);
    assert(r3.last() == registered()[2].built(config));
    assert(all_descriptors::<BuiltinRule>(r3) =~= seq![
        fixup_descriptor(),
        shortest_subject_line_descriptor(),
        longest_subject_line_descriptor(),
        non_unicode_descriptor(),
    ]);
    assert(r4.last() == registered()[3].built(config));
    assert(all_descriptors::<BuiltinRule>(r4) =~= seq![
        fixup_descriptor(),
        shortest_subject_line_descriptor(),
        longest_subject_line_descriptor(),
        non_unicode_descriptor(),
        empty_commit_descriptor(),
    ]);
    assert(rules.last() == registered()[4].built(config));
    assert(all_descriptors::<BuiltinRule>(rules) =~= builtin_descriptors());
}

/// The five identifiers of a descriptor with an id below ten begin as its id
/// says.
proof fn lemma_pretty_id_begins(d: AchievementDescriptor)
    requires
        d.id < 10,
    ensures
        pretty_id_of(d).len() >= 2,
        pretty_id_of(d)[1] == digit_char(d.id as int),
{
    assert(decimal(d.id as nat) =~= seq![digit_char(d.id as int)]);
}

/// Any two descriptors of the rules that come with the program differ in
/// their id, their human id, their pretty id, their name and their
/// description; and the ids are those from 1 on, without a gap.
pub proof fn lemma_catalog_identifiers_differ()
    ensures
        is_catalog(builtin_descriptors()),
{
    let ds = builtin_descriptors();
    reveal_strlit("fixup");
    reveal_strlit("shortest-subject-line");
    reveal_strlit("longest-subject-line");
    reveal_strlit("non-unicode");
    reveal_strlit("empty-commit");
    reveal_strlit("whitespace-only");
    reveal_strlit("I meant to fix that up later, I swear!");
    reveal_strlit("Brevity is the soul of wit");
    reveal_strlit("50 characters was more of a suggestion anyways");
    reveal_strlit("But ... How?!");
    reveal_strlit("You can always add more later");
    reveal_strlit("Whitespace Warrior");
    reveal_strlit("Prefix a commit message with a !fixup marker");
    reveal_strlit("The shortest subject line");
    reveal_strlit("The longest subject line");
    reveal_strlit("Make a commit message containing a non UTF-8 byte");
    reveal_strlit("Create an empty commit containing no changes");
    reveal_strlit("Make a whitespace-only change");
    lemma_pretty_id_begins(ds[0]);
    lemma_pretty_id_begins(ds[1]);
    lemma_pretty_id_begins(ds[2]);
    lemma_pretty_id_begins(ds[3]);
    lemma_pretty_id_begins(ds[4]);
    lemma_pretty_id_begins(ds[5]);
    // The descriptions of the first and of the fifth are of one length, and begin otherwise.
    assert(ds[0].description@[0] != ds[4].description@[0]);
    assert forall|i: int, j: int| 0 <= i < ds.len() && 0 <= j < ds.len() && i != j implies {
        &&& (#[trigger] ds[i]).id != (#[trigger] ds[j]).id
        &&& ds[i].human_id@ != ds[j].human_id@
        &&& pretty_id_of(ds[i]) != pretty_id_of(ds[j])
        &&& ds[i].name@ != ds[j].name@
        &&& ds[i].description@ != ds[j].description@
    } by {
        assert(ds[i].human_id@.len() != ds[j].human_id@.len());
        assert(ds[i].name@.len() != ds[j].name@.len());
        assert(pretty_id_of(ds[i])[1] != pretty_id_of(ds[j])[1]);
        if (i == 0 && j == 4) || (i == 4 && j == 0) {
        } else {
            assert(ds[i].description@.len() != ds[j].description@.len());
        }
    }
}

/// The commits that a rule holds to grant to when it is finalized: those
/// with the shortest and the longest subject line so far.
pub open spec fn builtin_held(m: BuiltinRuleView) -> Set<CommitId> {
    match m {
        BuiltinRuleView::SubjectLineLength(v) => Set::new(
            |id: CommitId| v.shortest_so_far == Some(id) || v.longest_so_far == Some(id),
        ),
        _ => Set::empty(),
    }
}

/// What is granted under a descriptor is granted under a descriptor that is
/// enabled, to the commit that is named.
proof fn lemma_granted_under(ds: Seq<AchievementDescriptor>, index: int, commit: CommitId)
    ensures
        well_granted(ds, granted_under(ds, index, commit), set![commit]),
{
    let grants = granted_under(ds, index, commit);
    assert forall|k: int| 0 <= k < grants.len() implies set![commit].contains(
        (#[trigger] grants[k]).commit,
    ) && grants_as(ds, grants[k].name) by {
        assert(ds[index].enabled && ds[index].name == grants[k].name);
    }
}

/// The rules that come with the program grant honestly.
pub proof fn lemma_builtin_rules_grant_honestly()
    ensures
        grants_honestly::<BuiltinRule>(|m: BuiltinRuleView| builtin_held(m)),
{
    let held = |m: BuiltinRuleView| builtin_held(m);
    assert forall|m: BuiltinRuleView, ds: Seq<AchievementDescriptor>|
        held(#[trigger] BuiltinRule::with_descriptors(m, ds)) == held(m) by {
        assert(builtin_held(BuiltinRule::with_descriptors(m, ds)) =~= builtin_held(m));
    }
    assert forall|m: BuiltinRuleView, cache: EntryCacheView|
        held(#[trigger] BuiltinRule::init_cache_spec(m, cache)) == held(m) by {
        assert(builtin_held(BuiltinRule::init_cache_spec(m, cache)) =~= builtin_held(m));
    }
    assert forall|m: BuiltinRuleView, c: Commit|
        held((#[trigger] BuiltinRule::process_spec(m, c)).0).subset_of(held(m).insert(c.id))
            && well_granted(
            BuiltinRule::descriptors(m),
            BuiltinRule::process_spec(m, c).1,
            set![c.id],
        ) by {
        lemma_granted_under(BuiltinRule::descriptors(m), 0, c.id);
    }
    assert forall|m: BuiltinRuleView, c: Commit|
        held((#[trigger] BuiltinRule::diff_end_spec(m, c)).0).subset_of(held(m).insert(c.id))
            && well_granted(
            BuiltinRule::descriptors(m),
            BuiltinRule::diff_end_spec(m, c).1,
            set![c.id],
        ) by {
        lemma_granted_under(BuiltinRule::descriptors(m), 0, c.id);
    }
    assert forall|m: BuiltinRuleView|
        held((#[trigger] BuiltinRule::finalize_spec(m)).0).subset_of(held(m)) && well_granted(
            BuiltinRule::descriptors(m),
            BuiltinRule::finalize_spec(m).1,
            held(m),
        ) by {
        match m {
            BuiltinRuleView::SubjectLineLength(v) => {
                let ds = v.descriptors;
                let grants = BuiltinRule::finalize_spec(m).1;
                assert forall|k: int| 0 <= k < grants.len() implies held(m).contains(
                    (#[trigger] grants[k]).commit,
                ) && grants_as(ds, grants[k].name) by {
                    let short = match v.shortest_so_far {
                        Some(oid) => granted_under(ds, 0, oid),
                        None => Seq::empty(),
                    };
                    if k < short.len() {
                        assert(grants[k] == short[k]);
                        assert(ds[0].enabled && ds[0].name == grants[k].name);
                    } else {
                        assert(ds[1].enabled && ds[1].name == grants[k].name);
                    }
                }
            },
            _ => {},
        }
    }
}

/// Each of the rules that come with the program grants nothing when it is
/// finalized before it has seen a commit, whatever filter was applied to it.
pub proof fn lemma_builtin_rules_quiet_when_fresh(
    config: RulesConfig,
    exclusions: Seq<String>,
    inclusions: Seq<String>,
)
    ensures
        forall|i: int|
            0 <= i < selected::<BuiltinRule>(all_built(config), exclusions, inclusions).len()
                ==> quiet_when_fresh::<BuiltinRule>(
                #[trigger] selected::<BuiltinRule>(all_built(config), exclusions, inclusions)[i],
            ),
{
    let built = all_built(config);
    let filtered = Seq::new(
        built.len(),
        |i: int| filtered_rule::<BuiltinRule>(built[i], exclusions, inclusions),
    );
    assert forall|i: int| 0 <= i < filtered.len() implies quiet_when_fresh::<BuiltinRule>(
        #[trigger] filtered[i],
    ) by {
        assert(built[i] == registered()[i].built(config));
    }
    lemma_retained_are_among::<BuiltinRule>(filtered);
    let kept = retained::<BuiltinRule>(filtered);
    assert forall|i: int| 0 <= i < kept.len() implies quiet_when_fresh::<BuiltinRule>(
        #[trigger] kept[i],
    ) by {
        let k = choose|k: int| 0 <= k < filtered.len() && filtered[k] == kept[i];
        assert(quiet_when_fresh::<BuiltinRule>(filtered[k]));
    }
}

/// Each rule that runs has a descriptor that is enabled, whatever the rules
/// and the filter.
pub proof fn lemma_selected_rules_are_enabled<R: Rule>(
    rules: Seq<R::V>,
    exclusions: Seq<String>,
    inclusions: Seq<String>,
)
    ensures
        forall|i: int|
            0 <= i < selected::<R>(rules, exclusions, inclusions).len() ==> !disabled_everywhere(
                R::descriptors(#[trigger] selected::<R>(rules, exclusions, inclusions)[i]),
            ),
{
    lemma_retained_are_among::<R>(
        Seq::new(rules.len(), |i: int| filtered_rule::<R>(rules[i], exclusions, inclusions)),
    );
}

/// The id of the descriptor at `index` of the rule at `place` in the
/// registry.
spec fn id_in_registry(place: int, index: int) -> int {
    if place == 0 {
        1
    } else if place == 1 {
        2 + index
    } else {
        place + 2
    }
}

/// Among the rules that the filter lets run, two descriptors with the same
/// id are the same.
pub proof fn lemma_builtin_ids_tell_apart(
    config: RulesConfig,
    exclusions: Seq<String>,
    inclusions: Seq<String>,
)
    ensures
        ids_tell_apart::<BuiltinRule>(
            selected::<BuiltinRule>(all_built(config), exclusions, inclusions),
        ),
{
    let built = all_built(config);
    let filtered = Seq::new(
        built.len(),
        |i: int| filtered_rule::<BuiltinRule>(built[i], exclusions, inclusions),
    );
    assert forall|a: int, j: int|
        0 <= a < filtered.len() && 0 <= j < BuiltinRule::descriptors(
            filtered[a],
        ).len() implies (#[trigger] BuiltinRule::descriptors(filtered[a])[j]).id
        == id_in_registry(a, j) && j < 2 && (a != 1 ==> j == 0) by {
        assert(built[a] == registered()[a].built(config));
    }
    lemma_retained_are_among::<BuiltinRule>(filtered);
    let kept = retained::<BuiltinRule>(filtered);
    assert forall|i: int, j: int, k: int, l: int|
        0 <= i < kept.len() && 0 <= j < BuiltinRule::descriptors(kept[i]).len() && 0 <= k
            < kept.len() && 0 <= l < BuiltinRule::descriptors(kept[k]).len() && (
        #[trigger] BuiltinRule::descriptors(kept[i])[j]).id == (#[trigger] BuiltinRule::descriptors(
            kept[k],
        )[l]).id implies BuiltinRule::descriptors(kept[i])[j] == BuiltinRule::descriptors(
        kept[k],
    )[l] by {
        let a = choose|a: int| 0 <= a < filtered.len() && filtered[a] == kept[i];
        let b = choose|b: int| 0 <= b < filtered.len() && filtered[b] == kept[k];
        assert(BuiltinRule::descriptors(filtered[a])[j].id == id_in_registry(a, j));
        assert(BuiltinRule::descriptors(filtered[b])[l].id == id_in_registry(b, l));
        assert(a == b && j == l);
    }
}

/// None of the rules that come with the program holds a commit when it is
/// made, whatever filter was applied to it.
pub proof fn lemma_builtin_rules_hold_nothing(
    config: RulesConfig,
    exclusions: Seq<String>,
    inclusions: Seq<String>,
)
    ensures
        forall|i: int|
            0 <= i < selected::<BuiltinRule>(all_built(config), exclusions, inclusions).len()
                ==> builtin_held(
                #[trigger] selected::<BuiltinRule>(all_built(config), exclusions, inclusions)[i],
            ) == Set::<CommitId>::empty(),
{
    let built = all_built(config);
    let filtered = Seq::new(
        built.len(),
        |i: int| filtered_rule::<BuiltinRule>(built[i], exclusions, inclusions),
    );
    assert forall|i: int| 0 <= i < filtered.len() implies builtin_held(#[trigger] filtered[i])
        == Set::<CommitId>::empty() by {
        assert(built[i] == registered()[i].built(config));
        assert(builtin_held(filtered[i]) =~= Set::<CommitId>::empty());
    }
    lemma_retained_are_among::<BuiltinRule>(filtered);
    let kept = retained::<BuiltinRule>(filtered);
    assert forall|i: int| 0 <= i < kept.len() implies builtin_held(#[trigger] kept[i]) == Set::<
        CommitId,
    >::empty() by {
        let k = choose|k: int| 0 <= k < filtered.len() && filtered[k] == kept[i];
        assert(builtin_held(filtered[k]) == Set::<CommitId>::empty());
    }
}

} // verus!
