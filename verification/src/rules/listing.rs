//! The list of rules that the program prints.
use vstd::prelude::*;
use vstd::seq_lib::*;

use crate::achievement::{models, pretty_id_of, AchievementDescriptor, Rule};
use crate::rules::catalog::all_descriptors;
use crate::utils::text::{chars_of, push_all, push_decimal, string_from_chars};

verus! {

/// How many of the descriptors at the front have an id that is not above
/// `id`, where the descriptors are in the order of their ids.
pub open spec fn insertion_point(sorted: Seq<AchievementDescriptor>, id: usize) -> int
    decreases sorted.len(),
{
    if sorted.len() == 0 || sorted[0].id > id {
        0
    } else {
        1 + insertion_point(sorted.skip(1), id)
    }
}

/// The descriptors in the order of their ids; those of one id stay in the
/// order in which they came.
pub open spec fn sorted_by_id(ds: Seq<AchievementDescriptor>) -> Seq<AchievementDescriptor>
    decreases ds.len(),
{
    if ds.len() == 0 {
        Seq::empty()
    } else {
        let front = sorted_by_id(ds.drop_last());
        front.insert(insertion_point(front, ds.last().id), ds.last())
    }
}

/// Whether the ids of the descriptors do not fall from one to the next.
pub open spec fn in_id_order(ds: Seq<AchievementDescriptor>) -> bool {
    forall|i: int, j: int| 0 <= i <= j < ds.len() ==> (#[trigger] ds[i]).id <= (#[trigger] ds[j]).id
}

/// The insertion point lies within the descriptors or just behind them. No
/// id before it is above `id`, and the id at it is.
pub proof fn lemma_insertion_point(sorted: Seq<AchievementDescriptor>, id: usize)
    requires
        in_id_order(sorted),
    ensures
        0 <= insertion_point(sorted, id) <= sorted.len(),
        forall|i: int| 0 <= i < insertion_point(sorted, id) ==> (#[trigger] sorted[i]).id <= id,
        forall|i: int|
            insertion_point(sorted, id) <= i < sorted.len() ==> (#[trigger] sorted[i]).id > id,
    decreases sorted.len(),
{
    if sorted.len() == 0 || sorted[0].id > id {
        assert forall|i: int| 0 <= i < sorted.len() implies (#[trigger] sorted[i]).id > id by {
            assert(sorted[0].id <= sorted[i].id);
        }
    } else {
        let rest = sorted.skip(1);
        assert forall|i: int, j: int| 0 <= i <= j < rest.len() implies (#[trigger] rest[i]).id <= (
        #[trigger] rest[j]).id by {
            assert(sorted[i + 1].id <= sorted[j + 1].id);
        }
        lemma_insertion_point(rest, id);
        assert forall|i: int| 0 <= i < insertion_point(sorted, id) implies (
        #[trigger] sorted[i]).id <= id by {
            if i > 0 {
                assert(rest[i - 1].id <= id);
            }
        }
        assert forall|i: int| insertion_point(sorted, id) <= i < sorted.len() implies (
        #[trigger] sorted[i]).id > id by {
            assert(rest[i - 1].id > id);
        }
    }
}

/// The sorted descriptors are the same descriptors, each as often as
/// before, and their ids do not fall.
pub proof fn lemma_sorted_by_id(ds: Seq<AchievementDescriptor>)
    ensures
        in_id_order(sorted_by_id(ds)),
        sorted_by_id(ds).to_multiset() == ds.to_multiset(),
        sorted_by_id(ds).len() == ds.len(),
    decreases ds.len(),
{
    broadcast use {to_multiset_build, to_multiset_insert};

    if ds.len() == 0 {
        assert(ds =~= Seq::empty());
    } else {
        let front = sorted_by_id(ds.drop_last());
        lemma_sorted_by_id(ds.drop_last());
        let d = ds.last();
        let at = insertion_point(front, d.id);
        lemma_insertion_point(front, d.id);
        let out = front.insert(at, d);
        assert forall|i: int, j: int| 0 <= i <= j < out.len() implies (#[trigger] out[i]).id <= (
        #[trigger] out[j]).id by {
            let a = if i < at {
                front[i]
            } else if i == at {
                d
            } else {
                front[i - 1]
            };
            let b = if j < at {
                front[j]
            } else if j == at {
                d
            } else {
                front[j - 1]
            };
            assert(out[i] == a);
            assert(out[j] == b);
            if i < at && j > at {
                assert(front[i].id <= d.id);
                assert(front[j - 1].id > d.id);
            }
        }
        assert(ds.drop_last().push(d) =~= ds);
        assert(out.to_multiset() =~= front.to_multiset().insert(d));
        assert(ds.to_multiset() =~= ds.drop_last().to_multiset().insert(d));
    }
}

/// Brings descriptors into the order of their ids.
pub fn sort_by_id(ds: &Vec<AchievementDescriptor>) -> (out: Vec<AchievementDescriptor>)
    ensures
        out@ == sorted_by_id(ds@),
{
    let mut out: Vec<AchievementDescriptor> = Vec::new();
    let mut i: usize = 0;
    assert(ds@.take(0) =~= Seq::empty());
    while i < ds.len()
        invariant
            i <= ds@.len(),
            out@ == sorted_by_id(ds@.take(i as int)),
        decreases ds@.len() - i,
    {
        let d = ds[i];
        proof {
            lemma_sorted_by_id(ds@.take(i as int));
            assert(ds@.take(i + 1).drop_last() =~= ds@.take(i as int));
        }
        let mut at: usize = 0;
        assert(out@.skip(0) =~= out@);
        while at < out.len() && out[at].id <= d.id
            invariant
                at <= out@.len(),
                insertion_point(out@, d.id) == at + insertion_point(out@.skip(at as int), d.id),
            decreases out@.len() - at,
        {
            assert(out@.skip(at as int).skip(1) =~= out@.skip(at + 1));
            at += 1;
        }
        assert(insertion_point(out@, d.id) == at) by {
            if at < out@.len() {
                assert(out@.skip(at as int)[0] == out@[at as int]);
            }
        };
        out.insert(at, d);
        i += 1;
    }
    assert(ds@.take(ds@.len() as int) =~= ds@);
    out
}

/// `text`, with blanks behind it where it is shorter than `width`.
pub open spec fn padded(text: Seq<char>, width: nat) -> Seq<char> {
    if text.len() < width {
        text + Seq::new((width - text.len()) as nat, |i: int| ' ')
    } else {
        text
    }
}

/// The line that lists a descriptor: its pretty id on 25 columns, a tab, and
/// its description.
pub open spec fn listed(d: AchievementDescriptor) -> Seq<char> {
    padded(pretty_id_of(d), 25) + seq!['\t'] + d.description@
}

/// The line that lists a descriptor.
pub fn list_line(d: &AchievementDescriptor) -> (line: String)
    ensures
        line@ == listed(*d),
{
    let mut out: Vec<char> = Vec::new();
    out.push('H');
    push_decimal(d.id, &mut out);
    out.push('-');
    push_all(&mut out, &chars_of(d.human_id));
    assert(out@ =~= pretty_id_of(*d));
    let ghost pretty = out@;
    while out.len() < 25
        invariant
            pretty.len() <= out@.len(),
            out@.len() <= 25 || out@ == pretty,
            out@ == pretty + Seq::new((out@.len() - pretty.len()) as nat, |i: int| ' '),
        decreases 25 - out@.len(),
    {
        let ghost before = out@;
        out.push(' ');
        assert(out@ =~= pretty + Seq::new((out@.len() - pretty.len()) as nat, |i: int| ' '));
    }
    assert(out@ =~= padded(pretty, 25));
    out.push('\t');
    push_all(&mut out, &chars_of(d.description));
    assert(out@ =~= listed(*d));
    string_from_chars(&out)
}

/// The descriptors of rules, rule by rule.
pub fn collect_descriptors<R: Rule>(rules: &Vec<R>) -> (out: Vec<AchievementDescriptor>)
    ensures
        out@ == all_descriptors::<R>(models(rules@)),
{
    let mut out: Vec<AchievementDescriptor> = Vec::new();
    let mut i: usize = 0;
    assert(models(rules@).take(0) =~= Seq::empty());
    while i < rules.len()
        invariant
            i <= rules@.len(),
            out@ == all_descriptors::<R>(models(rules@).take(i as int)),
        decreases rules@.len() - i,
    {
        let ds = rules[i].get_descriptors();
        let ghost base = out@;
        let mut j: usize = 0;
        while j < ds.len()
            invariant
                j <= ds@.len(),
                out@ == base + ds@.take(j as int),
            decreases ds@.len() - j,
        {
            out.push(ds[j]);
            assert(out@ =~= base + ds@.take(j + 1));
            j += 1;
        }
        assert(ds@.take(ds@.len() as int) =~= ds@);
        assert(models(rules@).take(i + 1).drop_last() =~= models(rules@).take(i as int));
        i += 1;
    }
    assert(models(rules@).take(rules@.len() as int) =~= models(rules@));
    out
}

/// The list of the descriptors of rules: one line for each, in the order of
/// their ids.
pub fn list_rules<R: Rule>(rules: &Vec<R>) -> (lines: Vec<String>)
    ensures
        lines@.len() == all_descriptors::<R>(models(rules@)).len(),
        forall|i: int|
            0 <= i < lines@.len() ==> (#[trigger] lines@[i])@ == listed(
                sorted_by_id(all_descriptors::<R>(models(rules@)))[i],
            ),
{
    let ds = collect_descriptors(rules);
    proof {
        lemma_sorted_by_id(ds@);
    }
    let sorted = sort_by_id(&ds);
    let mut lines: Vec<String> = Vec::new();
    let mut i: usize = 0;
    while i < sorted.len()
        invariant
            i <= sorted@.len(),
            lines@.len() == i,
            forall|k: int| 0 <= k < i ==> (#[trigger] lines@[k])@ == listed(sorted@[k]),
        decreases sorted@.len() - i,
    {
        lines.push(list_line(&sorted[i]));
        i += 1;
    }
    lines
}

} // verus!
