//! Duplicate detection: which canonical URIs are carried by more than one
//! input, and by which.

use crate::ordered_map::{find_key, has_key, index_of_key, keys_distinct, value_of, OrderedMap};
use vstd::prelude::*;

verus! {

/// The test "this entry carries `uri`".
pub open spec fn carries(uri: Seq<char>) -> spec_fn((Seq<char>, Seq<char>)) -> bool {
    |entry: (Seq<char>, Seq<char>)| entry.1 == uri
}

/// The name of an entry.
pub open spec fn name_of() -> spec_fn((Seq<char>, Seq<char>)) -> Seq<char> {
    |entry: (Seq<char>, Seq<char>)| entry.0
}

/// The names of the entries that carry `uri`, in the order of the entries.
/// An entry is a name with its canonical URI.
pub open spec fn names_with(entries: Seq<(Seq<char>, Seq<char>)>, uri: Seq<char>) -> Seq<
    Seq<char>,
> {
    entries.filter(carries(uri)).map_values(name_of())
}

/// The names recorded as duplicates of `uri`: those of all entries that
/// carry it but the first.
pub open spec fn later_names(entries: Seq<(Seq<char>, Seq<char>)>, uri: Seq<char>) -> Seq<
    Seq<char>,
> {
    names_with(entries, uri).drop_first()
}

/// The URIs that more than one entry carries, each listed once, in the
/// order in which the second entry of each stands.
pub open spec fn repeated_uris(entries: Seq<(Seq<char>, Seq<char>)>) -> Seq<Seq<char>>
    decreases entries.len(),
{
    if entries.len() == 0 {
        Seq::empty()
    } else {
        let earlier = entries.drop_last();
        let uri = entries.last().1;
        if names_with(earlier, uri).len() == 1 {
            repeated_uris(earlier).push(uri)
        } else {
            repeated_uris(earlier)
        }
    }
}

/// The group of a repeated URI: the URI with its duplicates.
pub open spec fn group_of(entries: Seq<(Seq<char>, Seq<char>)>) -> spec_fn(Seq<char>) -> (
    Seq<char>,
    Seq<Seq<char>>,
) {
    |uri: Seq<char>| (uri, later_names(entries, uri))
}

/// The duplicate groups of a sequence of entries: one for each URI that
/// more than one entry carries, holding the names of all those entries but
/// the first.
pub open spec fn duplicate_groups(entries: Seq<(Seq<char>, Seq<char>)>) -> Seq<
    (Seq<char>, Seq<Seq<char>>),
> {
    repeated_uris(entries).map_values(group_of(entries))
}

/// Appending an entry appends its name to the names of its own URI and
/// leaves those of every other URI as they were.
pub proof fn lemma_names_with_push(
    entries: Seq<(Seq<char>, Seq<char>)>,
    entry: (Seq<char>, Seq<char>),
    uri: Seq<char>,
)
    ensures
        names_with(entries.push(entry), uri) == if entry.1 == uri {
            names_with(entries, uri).push(entry.0)
        } else {
            names_with(entries, uri)
        },
{
    entries.lemma_filter_push(entry, carries(uri));
    if entry.1 == uri {
        assert(entries.filter(carries(uri)).push(entry).map_values(name_of()) =~= entries.filter(
            carries(uri),
        ).map_values(name_of()).push(entry.0));
    }
}

/// What appending one entry does to the list of repeated URIs.
proof fn lemma_repeated_uris_push(
    entries: Seq<(Seq<char>, Seq<char>)>,
    entry: (Seq<char>, Seq<char>),
)
    ensures
        repeated_uris(entries.push(entry)) == if names_with(entries, entry.1).len() == 1 {
            repeated_uris(entries).push(entry.1)
        } else {
            repeated_uris(entries)
        },
{
    assert(entries.push(entry).drop_last() =~= entries);
}

/// A URI is listed as repeated exactly when at least two entries carry it.
pub proof fn lemma_repeated_iff_shared(entries: Seq<(Seq<char>, Seq<char>)>, uri: Seq<char>)
    ensures
        repeated_uris(entries).contains(uri) <==> names_with(entries, uri).len() >= 2,
    decreases entries.len(),
{
    if entries.len() == 0 {
        assert(entries.filter(carries(uri)).len() == 0) by {
            entries.lemma_filter_len(carries(uri));
        }
    } else {
        let earlier = entries.drop_last();
        let last = entries.last();
        assert(earlier.push(last) =~= entries);
        lemma_repeated_iff_shared(earlier, uri);
        lemma_repeated_iff_shared(earlier, last.1);
        lemma_names_with_push(earlier, last, uri);
        lemma_repeated_uris_push(earlier, last);
        let before = repeated_uris(earlier);
        if names_with(earlier, last.1).len() == 1 {
            let after = before.push(last.1);
            assert(after[before.len() as int] == last.1);
            if before.contains(uri) {
                let k = choose|k: int| 0 <= k < before.len() && before[k] == uri;
                assert(after[k] == uri);
            }
        }
    }
}

/// No URI is listed as repeated twice.
pub proof fn lemma_repeated_uris_distinct(entries: Seq<(Seq<char>, Seq<char>)>)
    ensures
        repeated_uris(entries).no_duplicates(),
    decreases entries.len(),
{
    if entries.len() > 0 {
        let earlier = entries.drop_last();
        let last = entries.last();
        lemma_repeated_uris_distinct(earlier);
        lemma_repeated_iff_shared(earlier, last.1);
    }
}

/// The keys of the duplicate groups are the repeated URIs, so no two groups
/// share a key.
pub proof fn lemma_groups_keys_distinct(entries: Seq<(Seq<char>, Seq<char>)>)
    ensures
        keys_distinct(duplicate_groups(entries)),
{
    lemma_repeated_uris_distinct(entries);
}

/// A URI has a duplicate group exactly when at least two entries carry it,
/// and the group then holds the names of all of them but the first.
pub proof fn lemma_group_of_shared(entries: Seq<(Seq<char>, Seq<char>)>, uri: Seq<char>)
    ensures
        has_key(duplicate_groups(entries), uri) <==> names_with(entries, uri).len() >= 2,
        has_key(duplicate_groups(entries), uri) ==> value_of(duplicate_groups(entries), uri)
            == later_names(entries, uri),
{
    lemma_repeated_iff_shared(entries, uri);
    let uris = repeated_uris(entries);
    let groups = duplicate_groups(entries);
    if uris.contains(uri) {
        let k = choose|k: int| 0 <= k < uris.len() && uris[k] == uri;
        assert(groups[k].0 == uri);
    }
    if has_key(groups, uri) {
        let k = index_of_key(groups, uri);
        assert(uris[k] == uri);
    }
}

/// What appending one entry does to the duplicate groups: the first entry
/// of a URI changes nothing, the second opens a group with its name, each
/// later one adds its name to the group that is there.
pub proof fn lemma_duplicate_groups_push(
    entries: Seq<(Seq<char>, Seq<char>)>,
    entry: (Seq<char>, Seq<char>),
)
    ensures
        ({
            let before = duplicate_groups(entries);
            let after = duplicate_groups(entries.push(entry));
            let count = names_with(entries, entry.1).len();
            &&& count == 0 ==> after == before
            &&& count == 1 ==> after == before.push((entry.1, seq![entry.0]))
            &&& count >= 2 ==> has_key(before, entry.1) && after == before.update(
                index_of_key(before, entry.1),
                (entry.1, value_of(before, entry.1).push(entry.0)),
            )
        }),
{
    let longer = entries.push(entry);
    let before = duplicate_groups(entries);
    let after = duplicate_groups(longer);
    let uris = repeated_uris(entries);
    let count = names_with(entries, entry.1).len();
    lemma_repeated_uris_push(entries, entry);
    lemma_repeated_iff_shared(entries, entry.1);
    lemma_names_with_push(entries, entry, entry.1);
    assert forall|k: int| 0 <= k < uris.len() && uris[k] != entry.1 implies later_names(
        longer,
        #[trigger] uris[k],
    ) == later_names(entries, uris[k]) by {
        lemma_names_with_push(entries, entry, uris[k]);
    }
    if count == 0 {
        assert(after =~= before);
    } else if count == 1 {
        assert(later_names(longer, entry.1) =~= seq![entry.0]);
        assert(after =~= before.push((entry.1, seq![entry.0])));
    } else {
        lemma_group_of_shared(entries, entry.1);
        lemma_groups_keys_distinct(entries);
        let g = index_of_key(before, entry.1);
        assert(later_names(longer, entry.1) =~= later_names(entries, entry.1).push(entry.0));
        assert forall|k: int| 0 <= k < uris.len() && k != g implies uris[k] != entry.1 by {
            assert(before[k].0 == uris[k]);
            assert(before[g].0 == entry.1);
        }
        assert(after =~= before.update(g, (entry.1, value_of(before, entry.1).push(entry.0))));
    }
}

/// An entry is listed among the names of its URI, at the place given by
/// the number of earlier entries that carry the same URI.
pub proof fn lemma_name_at_rank(entries: Seq<(Seq<char>, Seq<char>)>, i: int)
    requires
        0 <= i < entries.len(),
    ensures
        names_with(entries.take(i), entries[i].1).len() < names_with(entries, entries[i].1).len(),
        names_with(entries, entries[i].1)[names_with(entries.take(i), entries[i].1).len() as int]
            == entries[i].0,
    decreases entries.len(),
{
    let earlier = entries.drop_last();
    let last = entries.last();
    assert(earlier.push(last) =~= entries);
    lemma_names_with_push(earlier, last, entries[i].1);
    if i == entries.len() - 1 {
        assert(entries.take(i) =~= earlier);
    } else {
        lemma_name_at_rank(earlier, i);
        assert(entries.take(i) =~= earlier.take(i));
    }
}

/// Every name listed for a URI is the name of an entry that carries it: the
/// name at place `k` belongs to the entry before which exactly `k` entries
/// carry the URI.
pub proof fn lemma_entry_of_name(entries: Seq<(Seq<char>, Seq<char>)>, uri: Seq<char>, k: int) -> (i:
    int)
    requires
        0 <= k < names_with(entries, uri).len(),
    ensures
        0 <= i < entries.len(),
        entries[i] == (names_with(entries, uri)[k], uri),
        names_with(entries.take(i), uri).len() == k,
    decreases entries.len(),
{
    if entries.len() == 0 {
        entries.lemma_filter_len(carries(uri));
        0
    } else {
        let earlier = entries.drop_last();
        let last = entries.last();
        assert(earlier.push(last) =~= entries);
        lemma_names_with_push(earlier, last, uri);
        if last.1 == uri && k == names_with(earlier, uri).len() {
            assert(entries.take(entries.len() - 1) =~= earlier);
            entries.len() - 1
        } else {
            let i = lemma_entry_of_name(earlier, uri, k);
            assert(entries.take(i) =~= earlier.take(i));
            i
        }
    }
}

/// Every group holds at least one name.
pub proof fn lemma_groups_are_nonempty(entries: Seq<(Seq<char>, Seq<char>)>, g: int)
    requires
        0 <= g < duplicate_groups(entries).len(),
    ensures
        duplicate_groups(entries)[g].1.len() >= 1,
{
    let uri = repeated_uris(entries)[g];
    lemma_repeated_iff_shared(entries, uri);
}

/// An entry whose URI an earlier entry carries is listed in the group of
/// that URI.
pub proof fn lemma_later_is_listed(entries: Seq<(Seq<char>, Seq<char>)>, first: int, i: int)
    requires
        0 <= first < i < entries.len(),
        entries[first].1 == entries[i].1,
    ensures
        has_key(duplicate_groups(entries), entries[i].1),
        value_of(duplicate_groups(entries), entries[i].1).contains(entries[i].0),
{
    let uri = entries[i].1;
    let names = names_with(entries, uri);
    let rank = names_with(entries.take(i), uri).len() as int;
    assert(entries.take(i)[first] == entries[first]);
    lemma_name_at_rank(entries.take(i), first);
    lemma_name_at_rank(entries, i);
    lemma_group_of_shared(entries, uri);
    assert(names.drop_first()[rank - 1] == entries[i].0);
}

/// Where the names are distinct, the first entry that carries a URI is
/// listed in no group.
pub proof fn lemma_first_is_never_listed(entries: Seq<(Seq<char>, Seq<char>)>, i: int, g: int)
    requires
        keys_distinct(entries),
        0 <= i < entries.len(),
        forall|j: int| 0 <= j < i ==> (#[trigger] entries[j]).1 != entries[i].1,
        0 <= g < duplicate_groups(entries).len(),
    ensures
        !duplicate_groups(entries)[g].1.contains(entries[i].0),
{
    let uri = repeated_uris(entries)[g];
    let names = names_with(entries, uri);
    let listed = duplicate_groups(entries)[g].1;
    lemma_repeated_iff_shared(entries, uri);
    assert(listed == names.drop_first());
    if listed.contains(entries[i].0) {
        let k = choose|k: int| 0 <= k < listed.len() && listed[k] == entries[i].0;
        assert(names[k + 1] == entries[i].0);
        let at = lemma_entry_of_name(entries, uri, k + 1);
        if at < i {
            assert(entries[at].0 != entries[i].0);
        } else if i < at {
            assert(entries[i].0 != entries[at].0);
        }
        let before = lemma_entry_of_name(entries.take(i), uri, 0);
        assert(entries[before].1 == entries[i].1);
    }
}

/// There are no duplicate groups exactly when the URIs of the entries are
/// all distinct.
pub proof fn lemma_no_groups_iff_distinct(entries: Seq<(Seq<char>, Seq<char>)>)
    ensures
        duplicate_groups(entries).len() == 0 <==> forall|i: int, j: int|
            0 <= i < j < entries.len() ==> (#[trigger] entries[i]).1 != (#[trigger] entries[j]).1,
{
    if exists|i: int, j: int|
        0 <= i < j < entries.len() && (#[trigger] entries[i]).1 == (#[trigger] entries[j]).1 {
        let (i, j) = choose|i: int, j: int|
            0 <= i < j < entries.len() && (#[trigger] entries[i]).1 == (#[trigger] entries[j]).1;
        lemma_later_is_listed(entries, i, j);
    } else {
        if repeated_uris(entries).len() > 0 {
            let uri = repeated_uris(entries)[0];
            lemma_repeated_iff_shared(entries, uri);
            let i = lemma_entry_of_name(entries, uri, 0);
            let j = lemma_entry_of_name(entries, uri, 1);
            lemma_name_at_rank(entries, i);
            if i < j {
                assert(entries[i].1 == entries[j].1);
            } else if j < i {
                assert(entries[j].1 == entries[i].1);
            }
        }
    }
}

/// The names of a concatenation are the names of its parts, one after the
/// other.
pub proof fn lemma_names_with_add(
    left: Seq<(Seq<char>, Seq<char>)>,
    right: Seq<(Seq<char>, Seq<char>)>,
    uri: Seq<char>,
)
    ensures
        names_with(left + right, uri) == names_with(left, uri) + names_with(right, uri),
{
    Seq::filter_distributes_over_add(left, right, carries(uri));
    assert((left.filter(carries(uri)) + right.filter(carries(uri))).map_values(name_of())
        =~= left.filter(carries(uri)).map_values(name_of()) + right.filter(
        carries(uri),
    ).map_values(name_of()));
}

/// The number of entries that carry a URI does not depend on their order.
pub proof fn lemma_count_of_reordered(
    entries: Seq<(Seq<char>, Seq<char>)>,
    reordered: Seq<(Seq<char>, Seq<char>)>,
    uri: Seq<char>,
)
    requires
        entries.to_multiset() == reordered.to_multiset(),
    ensures
        names_with(entries, uri).len() == names_with(reordered, uri).len(),
    decreases entries.len(),
{
    entries.to_multiset_ensures();
    reordered.to_multiset_ensures();
    if entries.len() == 0 {
        entries.lemma_filter_len(carries(uri));
        reordered.lemma_filter_len(carries(uri));
    } else {
        let last = entries.last();
        let earlier = entries.drop_last();
        earlier.to_multiset_ensures();
        assert(earlier.push(last) =~= entries);
        assert(entries[entries.len() - 1] == last);
        assert(entries.contains(last));
        assert(entries.to_multiset().count(last) > 0);
        assert(reordered.to_multiset().count(last) > 0);
        assert(reordered.contains(last));
        let at = choose|at: int| 0 <= at < reordered.len() && reordered[at] == last;
        let rest = reordered.remove(at);
        assert(entries.to_multiset() =~= earlier.to_multiset().insert(last));
        assert(earlier.to_multiset() =~= entries.to_multiset().remove(last));
        assert(rest.to_multiset() =~= reordered.to_multiset().remove(last));
        lemma_count_of_reordered(earlier, rest, uri);
        lemma_names_with_push(earlier, last, uri);
        let front = reordered.take(at);
        let back = reordered.skip(at + 1);
        assert(rest =~= front + back);
        assert(reordered =~= front.push(last) + back);
        lemma_names_with_add(front, back, uri);
        lemma_names_with_add(front.push(last), back, uri);
        lemma_names_with_push(front, last, uri);
    }
}

/// The number of duplicate groups does not depend on the order of the
/// entries.
pub proof fn lemma_group_count_of_reordered(
    entries: Seq<(Seq<char>, Seq<char>)>,
    reordered: Seq<(Seq<char>, Seq<char>)>,
)
    requires
        entries.to_multiset() == reordered.to_multiset(),
    ensures
        duplicate_groups(entries).len() == duplicate_groups(reordered).len(),
{
    let uris = repeated_uris(entries);
    let others = repeated_uris(reordered);
    lemma_repeated_uris_distinct(entries);
    lemma_repeated_uris_distinct(reordered);
    assert forall|uri: Seq<char>| uris.to_set().contains(uri) == others.to_set().contains(
        uri,
    ) by {
        lemma_repeated_iff_shared(entries, uri);
        lemma_repeated_iff_shared(reordered, uri);
        lemma_count_of_reordered(entries, reordered, uri);
    }
    assert(uris.to_set() =~= others.to_set());
    uris.unique_seq_to_set();
    others.unique_seq_to_set();
}

/// Which URIs have a duplicate group, and how many names each group holds,
/// does not depend on the order of the entries. (Which names a group holds
/// does: the entry that comes first is the one left out.)
pub proof fn lemma_groups_of_reordered(
    entries: Seq<(Seq<char>, Seq<char>)>,
    reordered: Seq<(Seq<char>, Seq<char>)>,
    uri: Seq<char>,
)
    requires
        entries.to_multiset() == reordered.to_multiset(),
    ensures
        has_key(duplicate_groups(entries), uri) <==> has_key(duplicate_groups(reordered), uri),
        has_key(duplicate_groups(entries), uri) ==> value_of(duplicate_groups(entries), uri).len()
            == value_of(duplicate_groups(reordered), uri).len(),
        duplicate_groups(entries).len() == duplicate_groups(reordered).len(),
{
    lemma_count_of_reordered(entries, reordered, uri);
    lemma_group_of_shared(entries, uri);
    lemma_group_of_shared(reordered, uri);
    lemma_group_count_of_reordered(entries, reordered);
}

/// Whether one of `list` reads as `text` does.
fn contains_text(list: &Vec<String>, text: &String) -> (present: bool)
    ensures
        present == exists|k: int| 0 <= k < list@.len() && (#[trigger] list@[k])@ == text@,
{
    let mut k: usize = 0;
    while k < list.len()
        invariant
            k <= list@.len(),
            forall|j: int| 0 <= j < k ==> (#[trigger] list@[j])@ != text@,
        decreases list@.len() - k,
    {
        if list[k] == *text {
            return true;
        }
        k += 1;
    }
    false
}

/// Finds the canonical URIs that more than one input carries.
///
/// The inputs are walked in their order. The first input that carries a URI
/// is not recorded; each later one is added, by name, to the group of that
/// URI. A URI with a single input gets no group.
pub fn find_duplicates(inputs: OrderedMap<String>) -> (duplicates: OrderedMap<Vec<String>>)
    ensures
        duplicates@ == duplicate_groups(inputs@),
{
    let ghost all = inputs@;
    let entries = inputs.into_entries();
    let ghost raw = entries@;
    let mut seen: Vec<String> = Vec::new();
    let mut groups: Vec<(String, Vec<String>)> = Vec::new();
    proof {
        assert(all.take(0) =~= Seq::empty());
        assert(groups.deep_view() =~= duplicate_groups(all.take(0)));
        assert forall|uri: Seq<char>| #[trigger] names_with(all.take(0), uri).len() == 0 by {
            all.take(0).lemma_filter_len(carries(uri));
        }
    }
    for entry in it: entries
        invariant
            it.seq() == raw,
            all.len() == raw.len(),
            forall|k: int| 0 <= k < raw.len() ==> (#[trigger] all[k]) == (raw[k].0@, raw[k].1@),
            groups.deep_view() == duplicate_groups(all.take(it.index())),
            forall|k: int|
                0 <= k < seen@.len() ==> names_with(all.take(it.index()), (#[trigger] seen@[k])@).len()
                    >= 1,
            forall|uri: Seq<char>| #[trigger]
                names_with(all.take(it.index()), uri).len() >= 1 ==> exists|k: int|
                    0 <= k < seen@.len() && (#[trigger] seen@[k])@ == uri,
    {
        let ghost done = all.take(it.index());
        let ghost step = all[it.index()];
        let (input_name, input_uri) = entry;
        proof {
            assert(all.take(it.index() + 1) =~= done.push(step));
            assert(step == (input_name@, input_uri@));
            lemma_duplicate_groups_push(done, step);
            lemma_groups_keys_distinct(done);
            lemma_group_of_shared(done, step.1);
            assert forall|uri: Seq<char>| #[trigger]
                names_with(done.push(step), uri) == if step.1 == uri {
                    names_with(done, uri).push(step.0)
                } else {
                    names_with(done, uri)
                } by {
                lemma_names_with_push(done, step, uri);
            }
        }
        if contains_text(&seen, &input_uri) {
            match find_key(&groups, &input_uri) {
                Some(g) => {
                    proof {
                        assert(groups.deep_view()[g as int].0 == step.1);
                        crate::ordered_map::lemma_lookup_at(groups.deep_view(), g as int);
                    }
                    let ghost before = groups.deep_view();
                    let ghost before_raw = groups@;
                    groups[g].1.push(input_name);
                    proof {
                        assert(groups@.len() == before_raw.len());
                        assert(groups@[g as int].0 == before_raw[g as int].0);
                        assert(groups@[g as int].1@ == before_raw[g as int].1@.push(input_name));
                        assert(forall|k: int|
                            0 <= k < before_raw.len() && k != g ==> groups@[k] == before_raw[k]);
                        assert(groups@[g as int].1.deep_view() =~= before[g as int].1.push(
                            step.0,
                        ));
                        assert(groups.deep_view() =~= before.update(
                            g as int,
                            (step.1, before[g as int].1.push(step.0)),
                        ));
                    }
                },
                None => {
                    proof {
                        assert forall|k: int| 0 <= k < groups.deep_view().len() implies (
                        #[trigger] groups.deep_view()[k]).0 != step.1 by {
                            assert(groups@[k].0@ != input_uri@);
                        }
                    }
                    let ghost before = groups.deep_view();
                    let mut names = Vec::new();
                    names.push(input_name);
                    assert(names.deep_view() =~= seq![step.0]);
                    groups.push((input_uri, names));
                    assert(groups.deep_view() =~= before.push((step.1, seq![step.0])));
                },
            }
        } else {
            let ghost seen_before = seen@;
            seen.push(input_uri);
            proof {
                assert(seen@[seen_before.len() as int]@ == step.1);
                assert forall|uri: Seq<char>| #[trigger]
                    names_with(done.push(step), uri).len() >= 1 implies exists|k: int|
                    0 <= k < seen@.len() && (#[trigger] seen@[k])@ == uri by {
                    if uri != step.1 {
                        assert(names_with(done, uri).len() >= 1);
                        let k = choose|k: int|
                            0 <= k < seen_before.len() && (#[trigger] seen_before[k])@ == uri;
                        assert(seen@[k]@ == uri);
                    }
                }
            }
        }
    }
    proof {
        assert(all.take(all.len() as int) =~= all);
        lemma_groups_keys_distinct(all);
    }
    OrderedMap::from_distinct(groups)
}

} // verus!
