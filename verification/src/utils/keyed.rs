//! Lists of values under text keys.
use vstd::prelude::*;

use crate::utils::text::{chars_eq, chars_of};

verus! {

/// The index of the first of `entries` with the key `key`, or their number
/// where none has it.
pub open spec fn index_of_key<V>(entries: Seq<(String, V)>, key: Seq<char>) -> int
    decreases entries.len(),
{
    if entries.len() == 0 {
        0
    } else if entries[0].0@ == key {
        0
    } else {
        1 + index_of_key(entries.skip(1), key)
    }
}

/// The index of a key lies within the entries or just behind them; no entry
/// before it has the key, and the entry at it has.
pub proof fn lemma_index_of_key<V>(entries: Seq<(String, V)>, key: Seq<char>)
    ensures
        0 <= index_of_key(entries, key) <= entries.len(),
        forall|i: int| 0 <= i < index_of_key(entries, key) ==> (#[trigger] entries[i]).0@ != key,
        index_of_key(entries, key) < entries.len() ==> entries[index_of_key(entries, key)].0@
            == key,
    decreases entries.len(),
{
    if entries.len() == 0 || entries[0].0@ == key {
    } else {
        let rest = entries.skip(1);
        lemma_index_of_key(rest, key);
        assert forall|i: int| 0 <= i < index_of_key(entries, key) implies (#[trigger] entries[i]).0@
            != key by {
            if i > 0 {
                assert(rest[i - 1] == entries[i]);
            }
        }
        if index_of_key(entries, key) < entries.len() {
            assert(rest[index_of_key(rest, key)] == entries[index_of_key(entries, key)]);
        }
    }
}

/// The keys of `entries`, in order.
pub open spec fn keys_of<V>(entries: Seq<(String, V)>) -> Seq<Seq<char>> {
    Seq::new(entries.len(), |i: int| entries[i].0@)
}

/// The index of the first entry with the key `key`, or the number of entries.
pub fn find_key<V>(entries: &Vec<(String, V)>, key: &Vec<char>) -> (index: usize)
    ensures
        index == index_of_key(entries@, key@),
        index <= entries@.len(),
{
    proof {
        lemma_index_of_key(entries@, key@);
    }
    let mut i: usize = 0;
    while i < entries.len()
        invariant
            i <= entries@.len(),
            i <= index_of_key(entries@, key@) <= entries@.len(),
            forall|j: int|
                0 <= j < index_of_key(entries@, key@) ==> (#[trigger] entries@[j]).0@ != key@,
            index_of_key(entries@, key@) < entries@.len() ==> entries@[index_of_key(
                entries@,
                key@,
            )].0@ == key@,
        decreases entries@.len() - i,
    {
        let candidate = chars_of(entries[i].0.as_str());
        if chars_eq(&candidate, key) {
            return i;
        }
        i += 1;
    }
    i
}

/// Whether an entry with the key is held shows in the index of the key.
pub proof fn lemma_key_is_held<V>(entries: Seq<(String, V)>, key: Seq<char>)
    ensures
        keys_of(entries).contains(key) == (index_of_key(entries, key) < entries.len()),
{
    lemma_index_of_key(entries, key);
    let i = index_of_key(entries, key);
    if i < entries.len() {
        assert(keys_of(entries)[i] == key);
    }
    if keys_of(entries).contains(key) {
        let k = choose|k: int| 0 <= k < keys_of(entries).len() && keys_of(entries)[k] == key;
        assert(entries[k].0@ == key);
    }
}

/// Whether no key occurs twice among the entries.
pub fn keys_are_distinct<V>(entries: &Vec<(String, V)>) -> (r: bool)
    ensures
        r == keys_of(entries@).no_duplicates(),
{
    let mut i: usize = 0;
    while i < entries.len()
        invariant
            i <= entries@.len(),
            forall|a: int, b: int|
                0 <= a < i && 0 <= b < entries@.len() && a != b ==> keys_of(entries@)[a] != keys_of(
                    entries@,
                )[b],
        decreases entries@.len() - i,
    {
        let key = chars_of(entries[i].0.as_str());
        let mut j: usize = i + 1;
        while j < entries.len()
            invariant
                i < j <= entries@.len(),
                key@ == entries@[i as int].0@,
                forall|b: int| i < b < j ==> keys_of(entries@)[b] != key@,
            decreases entries@.len() - j,
        {
            let other = chars_of(entries[j].0.as_str());
            if chars_eq(&key, &other) {
                assert(keys_of(entries@)[i as int] == keys_of(entries@)[j as int]);
                return false;
            }
            j += 1;
        }
        assert forall|a: int, b: int|
            0 <= a < i + 1 && 0 <= b < entries@.len() && a != b implies keys_of(entries@)[a]
            != keys_of(entries@)[b] by {
            if a == i {
                if b < i {
                    assert(keys_of(entries@)[b] != keys_of(entries@)[a]);
                }
            }
        }
        i += 1;
    }
    true
}

/// The first `n` of `entries` without those whose key an earlier one has.
pub open spec fn distinct_entries<V>(entries: Seq<(String, V)>, n: int) -> Seq<
    (String, V),
>
    decreases n,
{
    if n <= 0 {
        Seq::empty()
    } else if keys_of(distinct_entries(entries, n - 1)).contains(entries[n - 1].0@) {
        distinct_entries(entries, n - 1)
    } else {
        distinct_entries(entries, n - 1).push(entries[n - 1])
    }
}

/// The index of the first of `keys` that is `key`, or their number where
/// none is.
pub open spec fn first_index(keys: Seq<Seq<char>>, key: Seq<char>) -> int
    decreases keys.len(),
{
    if keys.len() == 0 {
        0
    } else if keys[0] == key {
        0
    } else {
        1 + first_index(keys.skip(1), key)
    }
}

/// The index of a key among entries is its first index among their keys.
pub proof fn lemma_index_is_first<V>(entries: Seq<(String, V)>, key: Seq<char>)
    ensures
        index_of_key(entries, key) == first_index(keys_of(entries), key),
    decreases entries.len(),
{
    if entries.len() > 0 {
        lemma_index_is_first(entries.skip(1), key);
        assert(keys_of(entries).skip(1) =~= keys_of(entries.skip(1)));
    }
}

/// The entries with `value` under the key of `key`: in place of the value
/// that was under it, or behind all entries where none was.
pub open spec fn inserted<V>(entries: Seq<(String, V)>, key: String, value: V) -> Seq<(String, V)> {
    let i = index_of_key(entries, key@);
    if i < entries.len() {
        entries.update(i, (entries[i].0, value))
    } else {
        entries.push((key, value))
    }
}

/// Puts `value` under `key`.
pub fn insert_entry<V>(entries: &mut Vec<(String, V)>, key: String, value: V)
    ensures
        final(entries)@ == inserted(old(entries)@, key, value),
        keys_of(old(entries)@).no_duplicates() ==> keys_of(final(entries)@).no_duplicates(),
{
    let ghost before = entries@;
    let chars = chars_of(key.as_str());
    proof {
        lemma_index_of_key(before, chars@);
        lemma_key_is_held(before, chars@);
    }
    let index = find_key(entries, &chars);
    if index < entries.len() {
        entries[index].1 = value;
        assert(entries@ =~= inserted(before, key, value));
        assert(keys_of(entries@) =~= keys_of(before));
    } else {
        entries.push((key, value));
        assert(keys_of(entries@) =~= keys_of(before).push(chars@));
    }
}

/// The index of the last `c` in `text`, or -1 where it holds none.
pub open spec fn last_index_of(text: Seq<char>, c: char) -> int
    decreases text.len(),
{
    if text.len() == 0 {
        -1
    } else if text.last() == c {
        text.len() - 1
    } else {
        last_index_of(text.drop_last(), c)
    }
}

/// The index of the last `c` in `text`, where it holds one.
pub fn rfind_char(text: &Vec<char>, c: char) -> (index: Option<usize>)
    ensures
        index is Some == (last_index_of(text@, c) >= 0),
        index is None ==> last_index_of(text@, c) == -1,
        index matches Some(i) ==> i == last_index_of(text@, c) && i < text@.len() && i < usize::MAX,
{
    let mut n: usize = text.len();
    assert(text@.take(n as int) =~= text@);
    while n > 0
        invariant
            n <= text@.len(),
            last_index_of(text@, c) == last_index_of(text@.take(n as int), c),
        decreases n,
    {
        assert(text@.take(n as int).drop_last() =~= text@.take(n - 1));
        if text[n - 1] == c {
            return Some(n - 1);
        }
        n -= 1;
    }
    None
}

} // verus!
