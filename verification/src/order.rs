use vstd::prelude::*;
use crate::text::{code, code_of};

verus! {

/// Whether `a` stands before `b`, or is equal to it, in dictionary order,
/// judged from position `from` on: the first position at which the two differ
/// decides, and a sequence stands before every longer one that it begins.
pub open spec fn lex_le_from(a: Seq<int>, b: Seq<int>, from: int) -> bool
    decreases a.len() - from,
{
    if from >= a.len() {
        true
    } else if from >= b.len() {
        false
    } else if a[from] != b[from] {
        a[from] < b[from]
    } else {
        lex_le_from(a, b, from + 1)
    }
}

/// Whether `a` stands before `b`, or is equal to it, in dictionary order.
pub open spec fn lex_le(a: Seq<int>, b: Seq<int>) -> bool {
    lex_le_from(a, b, 0)
}

/// Of two sequences one stands before the other, or they are equal.
pub proof fn lemma_lex_total(a: Seq<int>, b: Seq<int>)
    ensures
        lex_le(a, b) || lex_le(b, a),
{
    lemma_lex_total_from(a, b, 0);
}

proof fn lemma_lex_total_from(a: Seq<int>, b: Seq<int>, from: int)
    requires
        0 <= from,
    ensures
        lex_le_from(a, b, from) || lex_le_from(b, a, from),
    decreases a.len() - from,
{
    if from < a.len() && from < b.len() && a[from] == b[from] {
        lemma_lex_total_from(a, b, from + 1);
    }
}

/// Two sequences that each stand no later than the other are equal.
pub proof fn lemma_lex_antisymmetric(a: Seq<int>, b: Seq<int>)
    requires
        lex_le(a, b),
        lex_le(b, a),
    ensures
        a == b,
{
    lemma_lex_antisymmetric_from(a, b, 0);
    assert(a.skip(0) == a);
    assert(b.skip(0) == b);
}

proof fn lemma_lex_antisymmetric_from(a: Seq<int>, b: Seq<int>, from: int)
    requires
        0 <= from <= a.len(),
        from <= b.len(),
        lex_le_from(a, b, from),
        lex_le_from(b, a, from),
    ensures
        a.skip(from) == b.skip(from),
    decreases a.len() - from,
{
    if from < a.len() && from < b.len() {
        lemma_lex_antisymmetric_from(a, b, from + 1);
        assert(a.skip(from) == seq![a[from]] + a.skip(from + 1));
        assert(b.skip(from) == seq![b[from]] + b.skip(from + 1));
    } else {
        assert(a.skip(from) == b.skip(from));
    }
}

/// What stands no later than something that stands no later than a third
/// stands no later than the third.
pub proof fn lemma_lex_transitive(a: Seq<int>, b: Seq<int>, c: Seq<int>)
    requires
        lex_le(a, b),
        lex_le(b, c),
    ensures
        lex_le(a, c),
{
    lemma_lex_transitive_from(a, b, c, 0);
}

proof fn lemma_lex_transitive_from(a: Seq<int>, b: Seq<int>, c: Seq<int>, from: int)
    requires
        0 <= from,
        lex_le_from(a, b, from),
        lex_le_from(b, c, from),
    ensures
        lex_le_from(a, c, from),
    decreases a.len() - from,
{
    if from < a.len() && from < b.len() && from < c.len() && a[from] == b[from] && b[from]
        == c[from] {
        lemma_lex_transitive_from(a, b, c, from + 1);
    }
}

/// Every sequence stands no later than itself.
pub proof fn lemma_lex_reflexive(a: Seq<int>)
    ensures
        lex_le(a, a),
{
    lemma_lex_reflexive_from(a, 0);
}

proof fn lemma_lex_reflexive_from(a: Seq<int>, from: int)
    requires
        0 <= from,
    ensures
        lex_le_from(a, a, from),
    decreases a.len() - from,
{
    if from < a.len() {
        lemma_lex_reflexive_from(a, from + 1);
    }
}

/// The code points of a text, by which texts are ordered.
pub open spec fn codes(text: Seq<char>) -> Seq<int> {
    text.map_values(|c: char| code(c))
}

/// Whether the text `a` stands no later than the text `b` when texts are
/// ordered by their code points.
pub fn text_le(a: &Vec<char>, b: &Vec<char>) -> (le: bool)
    ensures
        le == lex_le(codes(a@), codes(b@)),
{
    let mut at: usize = 0;
    loop
        invariant
            at <= a.len(),
            at <= b.len(),
            lex_le(codes(a@), codes(b@)) == lex_le_from(codes(a@), codes(b@), at as int),
        decreases a.len() - at,
    {
        if at >= a.len() {
            return true;
        }
        if at >= b.len() {
            return false;
        }
        let left: u32 = code_of(a[at]);
        let right: u32 = code_of(b[at]);
        if left != right {
            return left < right;
        }
        at += 1;
    }
}

/// Where `item` goes in `sorted` so that it comes after everything that
/// stands no later than it: directly behind the last such element.
pub open spec fn slot_for<T>(sorted: Seq<T>, item: T, key: spec_fn(T) -> Seq<int>) -> int
    decreases sorted.len(),
{
    if sorted.len() == 0 {
        0
    } else if lex_le(key(sorted.last()), key(item)) {
        sorted.len() as int
    } else {
        slot_for(sorted.drop_last(), item, key)
    }
}

/// The elements of `items` in the order of their keys. Elements with equal
/// keys keep the order in which they stood.
pub open spec fn sorted_by_key<T>(items: Seq<T>, key: spec_fn(T) -> Seq<int>) -> Seq<T>
    decreases items.len(),
{
    if items.len() == 0 {
        Seq::empty()
    } else {
        let before = sorted_by_key(items.drop_last(), key);
        before.insert(slot_for(before, items.last(), key), items.last())
    }
}

/// Whether the keys of `items` never go down from one element to the next.
pub open spec fn ordered_by_key<T>(items: Seq<T>, key: spec_fn(T) -> Seq<int>) -> bool {
    forall|i: int, j: int|
        0 <= i < j < items.len() ==> lex_le(#[trigger] key(items[i]), #[trigger] key(items[j]))
}

/// The slot for an item lies within the sequence; in an ordered sequence all
/// that comes before the slot stands no later than the item, and all that
/// comes from the slot on stands later.
pub proof fn lemma_slot_for<T>(items: Seq<T>, item: T, key: spec_fn(T) -> Seq<int>)
    requires
        ordered_by_key(items, key),
    ensures
        0 <= slot_for(items, item, key) <= items.len(),
        forall|i: int|
            0 <= i < slot_for(items, item, key) ==> lex_le(#[trigger] key(items[i]), key(item)),
        forall|i: int|
            slot_for(items, item, key) <= i < items.len() ==> !lex_le(
                #[trigger] key(items[i]),
                key(item),
            ),
    decreases items.len(),
{
    if items.len() > 0 {
        if lex_le(key(items.last()), key(item)) {
            assert forall|i: int| 0 <= i < items.len() implies lex_le(
                #[trigger] key(items[i]),
                key(item),
            ) by {
                if i < items.len() - 1 {
                    assert(lex_le(key(items[i]), key(items[items.len() - 1])));
                    lemma_lex_transitive(key(items[i]), key(items.last()), key(item));
                }
            }
        } else {
            let rest = items.drop_last();
            assert(ordered_by_key(rest, key)) by {
                assert forall|i: int, j: int| 0 <= i < j < rest.len() implies lex_le(
                    #[trigger] key(rest[i]),
                    #[trigger] key(rest[j]),
                ) by {
                    assert(rest[i] == items[i] && rest[j] == items[j]);
                }
            }
            lemma_slot_for(rest, item, key);
            assert forall|i: int| 0 <= i < slot_for(items, item, key) implies lex_le(
                #[trigger] key(items[i]),
                key(item),
            ) by {
                assert(items[i] == rest[i]);
            }
            assert forall|i: int| slot_for(items, item, key) <= i < items.len() implies !lex_le(
                #[trigger] key(items[i]),
                key(item),
            ) by {
                if i < rest.len() {
                    assert(items[i] == rest[i]);
                }
            }
        }
    }
}

/// Sorting puts the keys in order and neither adds nor loses an element.
pub proof fn lemma_sorted<T>(items: Seq<T>, key: spec_fn(T) -> Seq<int>)
    ensures
        ordered_by_key(sorted_by_key(items, key), key),
        sorted_by_key(items, key).len() == items.len(),
        sorted_by_key(items, key).to_multiset() == items.to_multiset(),
    decreases items.len(),
{
    broadcast use vstd::seq_lib::group_to_multiset_ensures;

    if items.len() > 0 {
        let rest = items.drop_last();
        let item = items.last();
        lemma_sorted(rest, key);
        let before = sorted_by_key(rest, key);
        lemma_slot_for(before, item, key);
        let slot = slot_for(before, item, key);
        let after = before.insert(slot, item);
        assert forall|i: int, j: int| 0 <= i < j < after.len() implies lex_le(
            #[trigger] key(after[i]),
            #[trigger] key(after[j]),
        ) by {
            if j < slot {
                assert(after[i] == before[i] && after[j] == before[j]);
            } else if j == slot {
                assert(after[i] == before[i]);
            } else if i < slot {
                assert(after[i] == before[i] && after[j] == before[j - 1]);
                if i == j - 1 {
                } else {
                    assert(lex_le(key(before[i]), key(before[j - 1])));
                }
            } else if i == slot {
                assert(after[j] == before[j - 1]);
                assert(!lex_le(key(before[j - 1]), key(item)));
                lemma_lex_total(key(before[j - 1]), key(item));
            } else {
                assert(after[i] == before[i - 1] && after[j] == before[j - 1]);
            }
        }
        assert(items == rest.push(item));
        assert(after.remove(slot) == before);
        assert(after[slot] == item);
        assert(after.to_multiset() == before.to_multiset().insert(item));
    } else {
        assert(sorted_by_key(items, key) == items);
    }
}

/// Sorting what stands for the elements gives what stands for the sorted
/// elements, as long as each stand-in has the key of its element.
pub proof fn lemma_sorted_map<T, U>(
    items: Seq<T>,
    key: spec_fn(T) -> Seq<int>,
    see: spec_fn(T) -> U,
    seen_key: spec_fn(U) -> Seq<int>,
)
    requires
        forall|i: int| 0 <= i < items.len() ==> key(#[trigger] items[i]) == seen_key(see(items[i])),
    ensures
        sorted_by_key(items, key).map_values(see) == sorted_by_key(
            items.map_values(see),
            seen_key,
        ),
    decreases items.len(),
{
    broadcast use vstd::seq_lib::group_to_multiset_ensures;

    let seen = items.map_values(see);
    if items.len() > 0 {
        let rest = items.drop_last();
        let item = items.last();
        lemma_sorted_map(rest, key, see, seen_key);
        assert(seen.drop_last() == rest.map_values(see));
        assert(seen.last() == see(item));
        let before = sorted_by_key(rest, key);
        let seen_before = sorted_by_key(seen.drop_last(), seen_key);
        assert(seen_before == before.map_values(see));
        lemma_sorted(rest, key);
        assert forall|i: int| 0 <= i < before.len() implies key(#[trigger] before[i]) == seen_key(
            see(before[i]),
        ) by {
            assert(before.to_multiset().count(before[i]) > 0);
            assert(rest.contains(before[i]));
        }
        lemma_slot_for_map(before, item, key, see, seen_key);
        lemma_slot_for(before, item, key);
        let slot = slot_for(before, item, key);
        assert(before.insert(slot, item).map_values(see) == seen_before.insert(slot, see(item)));
    } else {
        assert(sorted_by_key(items, key).map_values(see) == Seq::<U>::empty());
    }
}

/// The slot of a stand-in among stand-ins is the slot of its element among
/// the elements, as long as each stand-in has the key of its element.
proof fn lemma_slot_for_map<T, U>(
    items: Seq<T>,
    item: T,
    key: spec_fn(T) -> Seq<int>,
    see: spec_fn(T) -> U,
    seen_key: spec_fn(U) -> Seq<int>,
)
    requires
        forall|i: int| 0 <= i < items.len() ==> key(#[trigger] items[i]) == seen_key(see(items[i])),
        key(item) == seen_key(see(item)),
    ensures
        slot_for(items, item, key) == slot_for(items.map_values(see), see(item), seen_key),
    decreases items.len(),
{
    if items.len() > 0 {
        assert(items.map_values(see).drop_last() == items.drop_last().map_values(see));
        assert(key(items[items.len() - 1]) == seen_key(see(items[items.len() - 1])));
        lemma_slot_for_map(items.drop_last(), item, key, see, seen_key);
    }
}

/// Whether no two elements of `items` have the same key.
pub open spec fn keys_differ<T>(items: Seq<T>, key: spec_fn(T) -> Seq<int>) -> bool {
    forall|i: int, j: int|
        0 <= i < j < items.len() ==> key(#[trigger] items[i]) != key(#[trigger] items[j])
}

/// Two ordered sequences that hold the same elements, none of them with the
/// key of another, are the same sequence.
pub proof fn lemma_ordered_is_unique<T>(one: Seq<T>, other: Seq<T>, key: spec_fn(T) -> Seq<int>)
    requires
        ordered_by_key(one, key),
        ordered_by_key(other, key),
        keys_differ(one, key),
        one.to_multiset() == other.to_multiset(),
    ensures
        one == other,
    decreases one.len(),
{
    broadcast use vstd::seq_lib::group_to_multiset_ensures;

    assert(one.len() == other.len()) by {
        assert(one.to_multiset().len() == one.len());
        assert(other.to_multiset().len() == other.len());
    }
    if one.len() > 0 {
        let last = one.len() - 1;
        let a = one[last];
        let b = other[last];
        assert(other.contains(b));
        assert(one.to_multiset().count(b) > 0);
        assert(one.contains(b));
        let i = choose|i: int| 0 <= i < one.len() && one[i] == b;
        assert(one.contains(a));
        assert(other.to_multiset().count(a) > 0);
        assert(other.contains(a));
        let j = choose|j: int| 0 <= j < other.len() && other[j] == a;
        assert(lex_le(key(b), key(a))) by {
            if i < last {
                assert(lex_le(key(one[i]), key(one[last])));
            } else {
                lemma_lex_reflexive(key(a));
            }
        }
        assert(lex_le(key(a), key(b))) by {
            if j < last {
                assert(lex_le(key(other[j]), key(other[last])));
            } else {
                lemma_lex_reflexive(key(b));
            }
        }
        lemma_lex_antisymmetric(key(a), key(b));
        assert(i == last) by {
            if i < last {
                assert(key(one[i]) != key(one[last]));
            }
        }
        assert(a == b);
        let one_rest = one.drop_last();
        let other_rest = other.drop_last();
        assert(one_rest == one.remove(last));
        assert(other_rest == other.remove(last));
        assert(one_rest.to_multiset() == other_rest.to_multiset());
        assert(ordered_by_key(one_rest, key)) by {
            assert forall|p: int, q: int| 0 <= p < q < one_rest.len() implies lex_le(
                #[trigger] key(one_rest[p]),
                #[trigger] key(one_rest[q]),
            ) by {
                assert(one_rest[p] == one[p] && one_rest[q] == one[q]);
            }
        }
        assert(ordered_by_key(other_rest, key)) by {
            assert forall|p: int, q: int| 0 <= p < q < other_rest.len() implies lex_le(
                #[trigger] key(other_rest[p]),
                #[trigger] key(other_rest[q]),
            ) by {
                assert(other_rest[p] == other[p] && other_rest[q] == other[q]);
            }
        }
        assert(keys_differ(one_rest, key)) by {
            assert forall|p: int, q: int| 0 <= p < q < one_rest.len() implies key(
                #[trigger] one_rest[p],
            ) != key(#[trigger] one_rest[q]) by {
                assert(one_rest[p] == one[p] && one_rest[q] == one[q]);
            }
        }
        lemma_ordered_is_unique(one_rest, other_rest, key);
        assert(one == one_rest.push(a));
        assert(other == other_rest.push(b));
    }
}

/// Elements of which none has the key of another keep that property in
/// whatever order they are put.
pub proof fn lemma_keys_differ_in_any_order<T>(
    one: Seq<T>,
    other: Seq<T>,
    key: spec_fn(T) -> Seq<int>,
)
    requires
        keys_differ(one, key),
        one.to_multiset() == other.to_multiset(),
    ensures
        keys_differ(other, key),
{
    broadcast use vstd::seq_lib::group_to_multiset_ensures;

    assert forall|i: int, j: int| 0 <= i < j < other.len() implies key(#[trigger] other[i]) != key(
        #[trigger] other[j],
    ) by {
        let a = other[i];
        let b = other[j];
        assert(other.contains(a) && other.contains(b));
        assert(one.to_multiset().count(a) > 0 && one.to_multiset().count(b) > 0);
        assert(one.contains(a) && one.contains(b));
        let p = choose|p: int| 0 <= p < one.len() && one[p] == a;
        let q = choose|q: int| 0 <= q < one.len() && one[q] == b;
        if p == q {
            // the same element stands twice in `other`, so it stands twice in `one`
            assert(a == b);
            lemma_twice(other, i, j);
            assert(one.to_multiset().count(a) >= 2);
            lemma_found_twice(one, a);
            let (u, v) = choose|u: int, v: int|
                0 <= u < v < one.len() && one[u] == a && one[v] == a;
            assert(key(one[u]) != key(one[v]));
        } else if p < q {
            assert(key(one[p]) != key(one[q]));
        } else {
            assert(key(one[q]) != key(one[p]));
        }
    }
}

/// What stands at two places of a sequence is counted twice at least.
proof fn lemma_twice<T>(items: Seq<T>, i: int, j: int)
    requires
        0 <= i < j < items.len(),
        items[i] == items[j],
    ensures
        items.to_multiset().count(items[i]) >= 2,
{
    broadcast use vstd::seq_lib::group_to_multiset_ensures;

    let item = items[i];
    let rest = items.remove(j);
    assert(rest[i] == item);
    assert(rest.contains(item));
    assert(rest.to_multiset().count(item) > 0);
    assert(rest.to_multiset() == items.to_multiset().remove(item));
}

/// What is counted twice at least stands at two places of the sequence.
proof fn lemma_found_twice<T>(items: Seq<T>, item: T)
    requires
        items.to_multiset().count(item) >= 2,
    ensures
        exists|u: int, v: int| 0 <= u < v < items.len() && items[u] == item && items[v] == item,
{
    broadcast use vstd::seq_lib::group_to_multiset_ensures;

    assert(items.contains(item));
    let v = choose|v: int| 0 <= v < items.len() && items[v] == item;
    let rest = items.remove(v);
    assert(rest.to_multiset() == items.to_multiset().remove(item));
    assert(rest.to_multiset().count(item) > 0);
    assert(rest.contains(item));
    let u = choose|u: int| 0 <= u < rest.len() && rest[u] == item;
    if u < v {
        assert(items[u] == item);
    } else {
        assert(items[u + 1] == item);
        assert(0 <= v < u + 1 < items.len() && items[v] == item && items[u + 1] == item);
    }
}

/// Sorting gives the same sequence for the same elements in whatever order
/// they come, as long as none has the key of another.
pub proof fn lemma_sorted_in_any_order<T>(one: Seq<T>, other: Seq<T>, key: spec_fn(T) -> Seq<int>)
    requires
        keys_differ(one, key),
        one.to_multiset() == other.to_multiset(),
    ensures
        sorted_by_key(one, key) == sorted_by_key(other, key),
{
    lemma_sorted(one, key);
    lemma_sorted(other, key);
    lemma_keys_differ_in_any_order(one, sorted_by_key(one, key), key);
    lemma_ordered_is_unique(sorted_by_key(one, key), sorted_by_key(other, key), key);
}

/// The test that an element has the key `wanted`.
pub open spec fn has_key<T>(key: spec_fn(T) -> Seq<int>, wanted: Seq<int>) -> spec_fn(T) -> bool {
    |item: T| key(item) == wanted
}

/// Where nothing passes a test, nothing is left by it.
proof fn lemma_filter_nothing<T>(items: Seq<T>, test: spec_fn(T) -> bool)
    requires
        forall|i: int| 0 <= i < items.len() ==> !test(#[trigger] items[i]),
    ensures
        items.filter(test) == Seq::<T>::empty(),
    decreases items.len(),
{
    reveal(Seq::filter);
    if items.len() > 0 {
        let rest = items.drop_last();
        assert forall|i: int| 0 <= i < rest.len() implies !test(#[trigger] rest[i]) by {
            assert(rest[i] == items[i]);
        }
        lemma_filter_nothing(rest, test);
    }
}

/// Sorting is stable: the elements that share a key stand in the sorted
/// sequence in the order in which they stood before.
pub proof fn lemma_sorted_is_stable<T>(
    items: Seq<T>,
    key: spec_fn(T) -> Seq<int>,
    wanted: Seq<int>,
)
    ensures
        sorted_by_key(items, key).filter(has_key(key, wanted)) == items.filter(
            has_key(key, wanted),
        ),
    decreases items.len(),
{
    reveal(Seq::filter);
    let test = has_key(key, wanted);
    if items.len() > 0 {
        let rest = items.drop_last();
        let item = items.last();
        lemma_sorted_is_stable(rest, key, wanted);
        lemma_sorted(rest, key);
        let before = sorted_by_key(rest, key);
        lemma_slot_for(before, item, key);
        let slot = slot_for(before, item, key);
        let head = before.take(slot);
        let tail = before.skip(slot);
        let after = before.insert(slot, item);
        assert(before == head + tail);
        assert(after == head.push(item) + tail);
        Seq::filter_distributes_over_add(head, tail, test);
        Seq::filter_distributes_over_add(head.push(item), tail, test);
        assert(head.push(item).drop_last() == head);
        if test(item) {
            assert forall|i: int| 0 <= i < tail.len() implies !test(#[trigger] tail[i]) by {
                assert(tail[i] == before[slot + i]);
                assert(!lex_le(key(before[slot + i]), key(item)));
                lemma_lex_reflexive(key(item));
            }
            lemma_filter_nothing(tail, test);
            assert(head.filter(test) + Seq::<T>::empty() == head.filter(test));
            assert(head.filter(test).push(item) + Seq::<T>::empty() == head.filter(test).push(
                item,
            ));
        }
    }
}

/// Things that are put in order by a key. The keys are compared as
/// sequences of integers in dictionary order.
pub trait Keyed: Sized {
    /// The key by which the thing is ordered.
    spec fn key(&self) -> Seq<int>;

    /// Whether this thing's key stands no later than the other's.
    fn no_later_than(&self, other: &Self) -> (le: bool)
        ensures
            le == lex_le(self.key(), other.key()),
    ;
}

/// The key of a thing that has one.
pub open spec fn key_of<T: Keyed>() -> spec_fn(T) -> Seq<int> {
    |item: T| item.key()
}

/// The slot for an item is found by walking back from the end past
/// everything that stands later than the item.
proof fn lemma_slot_for_step<T>(items: Seq<T>, item: T, key: spec_fn(T) -> Seq<int>, upto: int)
    requires
        0 < upto <= items.len(),
        !lex_le(key(items[upto - 1]), key(item)),
    ensures
        slot_for(items.take(upto), item, key) == slot_for(items.take(upto - 1), item, key),
{
    assert(items.take(upto).drop_last() == items.take(upto - 1));
}

/// Puts `items` in the order of their keys. Elements with equal keys keep
/// the order in which they came.
pub fn sort_by_key<T: Keyed>(items: Vec<T>) -> (out: Vec<T>)
    ensures
        out@ == sorted_by_key(items@, key_of::<T>()),
{
    let ghost all = items@;
    let ghost key = key_of::<T>();
    let mut out: Vec<T> = Vec::new();
    for item in it: items
        invariant
            it.seq() == all,
            key == key_of::<T>(),
            out@ == sorted_by_key(all.take(it.index() as int), key),
    {
        let ghost before = out@;
        let mut slot: usize = out.len();
        proof {
            assert(before.take(slot as int) == before);
        }
        while slot > 0 && !out[slot - 1].no_later_than(&item)
            invariant
                out@ == before,
                key == key_of::<T>(),
                slot <= out.len(),
                slot_for(before, item, key) == slot_for(before.take(slot as int), item, key),
            decreases slot,
        {
            proof {
                lemma_slot_for_step(before, item, key, slot as int);
            }
            slot -= 1;
        }
        proof {
            if slot > 0 {
                assert(before.take(slot as int).last() == before[slot - 1]);
            }
            assert(slot_for(before, item, key) == slot);
            assert(all.take(it.index() + 1).drop_last() == all.take(it.index() as int));
        }
        out.insert(slot, item);
    }
    proof {
        assert(all.take(all.len() as int) == all);
    }
    out
}

} // verus!
