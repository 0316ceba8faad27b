//! The order of strings, and sorted lists of distinct strings.

use vstd::prelude::*;

verus! {

/// `a` and `b` agree before `i`, and there `a` ends or holds the smaller character.
pub open spec fn smaller_at(a: Seq<char>, b: Seq<char>, i: int) -> bool {
    &&& 0 <= i <= a.len()
    &&& i < b.len()
    &&& a.take(i) == b.take(i)
    &&& i < a.len() ==> a[i] < b[i]
}

/// The lexicographic order of strings by their characters' code points.
pub open spec fn precedes(a: Seq<char>, b: Seq<char>) -> bool {
    exists|i: int| smaller_at(a, b, i)
}

/// Each string of the list precedes all that come after it.
pub open spec fn ascending(list: Seq<Seq<char>>) -> bool {
    forall|i: int, j: int| 0 <= i < j < list.len() ==> precedes(#[trigger] list[i], #[trigger] list[j])
}

/// `list` holds what `entries` holds, once each and in order.
pub open spec fn is_sorted_distinct(list: Seq<Seq<char>>, entries: Seq<Seq<char>>) -> bool {
    &&& ascending(list)
    &&& forall|e: Seq<char>| #[trigger] list.contains(e) <==> entries.contains(e)
}

/// What `entries` holds, once each and in order.
pub open spec fn sorted_distinct(entries: Seq<Seq<char>>) -> Seq<Seq<char>> {
    choose|list: Seq<Seq<char>>| is_sorted_distinct(list, entries)
}

/// No string precedes itself.
pub proof fn lemma_precedes_irreflexive(a: Seq<char>)
    ensures
        !precedes(a, a),
{
}

/// The order is transitive.
pub proof fn lemma_precedes_transitive(a: Seq<char>, b: Seq<char>, c: Seq<char>)
    requires
        precedes(a, b),
        precedes(b, c),
    ensures
        precedes(a, c),
{
    let i = choose|i: int| smaller_at(a, b, i);
    let j = choose|j: int| smaller_at(b, c, j);
    let k = if i <= j {
        i
    } else {
        j
    };
    assert(a.take(k) =~= a.take(i).take(k));
    assert(b.take(k) =~= b.take(i).take(k));
    assert(b.take(k) =~= b.take(j).take(k));
    assert(c.take(k) =~= c.take(j).take(k));
    if i < j {
        assert(b[i] == b.take(j)[i]);
        assert(c[i] == c.take(j)[i]);
    } else if j < i {
        assert(a[j] == a.take(i)[j]);
        assert(b[j] == b.take(i)[j]);
    }
    assert(smaller_at(a, c, k));
}

/// The strings differ, and the other does not precede the one.
proof fn lemma_precedes_asymmetric(a: Seq<char>, b: Seq<char>)
    requires
        precedes(a, b),
    ensures
        a != b,
        !precedes(b, a),
{
    lemma_precedes_irreflexive(a);
    if precedes(b, a) {
        lemma_precedes_transitive(a, b, a);
    }
}

/// Of two different strings one precedes the other.
proof fn lemma_precedes_total(a: Seq<char>, b: Seq<char>)
    ensures
        a == b || precedes(a, b) || precedes(b, a),
{
    assert(a.take(0) =~= b.take(0));
    lemma_precedes_total_from(a, b, 0);
}

proof fn lemma_precedes_total_from(a: Seq<char>, b: Seq<char>, i: int)
    requires
        0 <= i <= a.len(),
        i <= b.len(),
        a.take(i) == b.take(i),
    ensures
        a == b || precedes(a, b) || precedes(b, a),
    decreases a.len() - i,
{
    if i == a.len() && i == b.len() {
        assert(a =~= a.take(i));
        assert(b =~= b.take(i));
    } else if i == a.len() {
        assert(smaller_at(a, b, i));
    } else if i == b.len() {
        assert(smaller_at(b, a, i));
    } else if a[i] < b[i] {
        assert(smaller_at(a, b, i));
    } else if b[i] < a[i] {
        assert(smaller_at(b, a, i));
    } else {
        assert(a.take(i + 1) =~= a.take(i).push(a[i]));
        assert(b.take(i + 1) =~= b.take(i).push(b[i]));
        lemma_precedes_total_from(a, b, i + 1);
    }
}

/// Two ascending lists that hold the same strings are equal.
proof fn lemma_ascending_unique(a: Seq<Seq<char>>, b: Seq<Seq<char>>)
    requires
        ascending(a),
        ascending(b),
        forall|e: Seq<char>| #[trigger] a.contains(e) <==> b.contains(e),
    ensures
        a == b,
    decreases a.len(),
{
    if a.len() == 0 {
        if b.len() > 0 {
            assert(b.contains(b[0]));
            assert(a.contains(b[0]));
        }
        assert(a =~= b);
    } else {
        assert(a.contains(a[0]));
        assert(b.contains(a[0]));
        let j = choose|j: int| 0 <= j < b.len() && b[j] == a[0];
        assert(b.contains(b[0]));
        assert(a.contains(b[0]));
        let i = choose|i: int| 0 <= i < a.len() && a[i] == b[0];
        if i > 0 && j > 0 {
            assert(precedes(a[0], a[i]));
            assert(precedes(b[0], b[j]));
            lemma_precedes_transitive(a[0], b[0], a[0]);
            lemma_precedes_irreflexive(a[0]);
        }
        assert(a[0] == b[0]);
        let ta = a.skip(1);
        let tb = b.skip(1);
        assert forall|x: int, y: int| 0 <= x < y < ta.len() implies precedes(#[trigger] ta[x], #[trigger] ta[y]) by {
            assert(ta[x] == a[x + 1] && ta[y] == a[y + 1]);
        }
        assert forall|x: int, y: int| 0 <= x < y < tb.len() implies precedes(#[trigger] tb[x], #[trigger] tb[y]) by {
            assert(tb[x] == b[x + 1] && tb[y] == b[y + 1]);
        }
        assert forall|e: Seq<char>| #[trigger] ta.contains(e) <==> tb.contains(e) by {
            lemma_tail_contains(a, e);
            lemma_tail_contains(b, e);
            assert(a.contains(e) <==> b.contains(e));
        }
        lemma_ascending_unique(ta, tb);
        assert(a =~= seq![a[0]] + ta);
        assert(b =~= seq![b[0]] + tb);
    }
}

proof fn lemma_tail_contains(list: Seq<Seq<char>>, e: Seq<char>)
    requires
        ascending(list),
        list.len() > 0,
    ensures
        list.skip(1).contains(e) <==> list.contains(e) && e != list[0],
{
    let tail = list.skip(1);
    if tail.contains(e) {
        let k = choose|k: int| 0 <= k < tail.len() && tail[k] == e;
        assert(list[k + 1] == e);
        assert(precedes(list[0], list[k + 1]));
        lemma_precedes_irreflexive(e);
    }
    if list.contains(e) && e != list[0] {
        let k = choose|k: int| 0 <= k < list.len() && list[k] == e;
        assert(tail[k - 1] == e);
    }
}

/// An ascending list with `e` put where it belongs.
proof fn lemma_insert_exists(list: Seq<Seq<char>>, e: Seq<char>) -> (longer: Seq<Seq<char>>)
    requires
        ascending(list),
    ensures
        ascending(longer),
        forall|x: Seq<char>| #[trigger] longer.contains(x) <==> list.contains(x) || x == e,
    decreases list.len(),
{
    if list.len() == 0 {
        let longer = seq![e];
        assert forall|x: Seq<char>| #[trigger] longer.contains(x) <==> list.contains(x) || x == e by {
            assert(longer[0] == e);
        }
        longer
    } else if list[0] == e {
        list
    } else {
        lemma_precedes_total(e, list[0]);
        let tail = list.skip(1);
        assert forall|x: int, y: int| 0 <= x < y < tail.len() implies precedes(#[trigger] tail[x], #[trigger] tail[y]) by {
            assert(tail[x] == list[x + 1] && tail[y] == list[y + 1]);
        }
        let (head, rest) = if precedes(e, list[0]) {
            (e, list)
        } else {
            (list[0], lemma_insert_exists(tail, e))
        };
        let longer = seq![head] + rest;
        assert forall|x: Seq<char>| #[trigger] longer.contains(x) <==> x == head || rest.contains(x) by {
            if longer.contains(x) {
                let k = choose|k: int| 0 <= k < longer.len() && longer[k] == x;
                if k > 0 {
                    assert(rest[k - 1] == x);
                }
            }
            if rest.contains(x) {
                let k = choose|k: int| 0 <= k < rest.len() && rest[k] == x;
                assert(longer[k + 1] == x);
            }
            assert(longer[0] == head);
        }
        assert forall|x: Seq<char>| #[trigger] longer.contains(x) <==> list.contains(x) || x == e by {
            lemma_tail_contains(list, x);
            assert(longer.contains(x) <==> x == head || rest.contains(x));
        }
        assert forall|y: int| 0 <= y < rest.len() implies precedes(head, #[trigger] rest[y]) by {
            assert(rest.contains(rest[y]));
            if head == e {
                if y > 0 {
                    lemma_precedes_transitive(e, list[0], list[y]);
                }
            } else {
                if rest[y] != e {
                    assert(tail.contains(rest[y]));
                    let k = choose|k: int| 0 <= k < tail.len() && tail[k] == rest[y];
                    assert(precedes(list[0], list[k + 1]));
                }
            }
        }
        assert forall|x: int, y: int| 0 <= x < y < longer.len() implies precedes(#[trigger] longer[x], #[trigger] longer[y]) by {
            assert(longer[y] == rest[y - 1]);
            if x > 0 {
                assert(longer[x] == rest[x - 1]);
            }
        }
        longer
    }
}

/// Every list of strings can be sorted and freed of duplicates.
pub proof fn lemma_sorted_distinct(entries: Seq<Seq<char>>)
    ensures
        is_sorted_distinct(sorted_distinct(entries), entries),
    decreases entries.len(),
{
    if entries.len() == 0 {
        assert forall|e: Seq<char>| #[trigger] entries.contains(e) <==> entries.contains(e) by {}
        assert(is_sorted_distinct(entries, entries));
    } else {
        let shorter = entries.drop_last();
        lemma_sorted_distinct(shorter);
        let list = lemma_insert_exists(sorted_distinct(shorter), entries.last());
        assert forall|e: Seq<char>| #[trigger] list.contains(e) <==> entries.contains(e) by {
            assert(sorted_distinct(shorter).contains(e) <==> shorter.contains(e));
            lemma_contains_last(entries, e);
        }
        assert(is_sorted_distinct(list, entries));
    }
}

/// A list holds what it holds before its last string, and that string.
pub proof fn lemma_contains_last(entries: Seq<Seq<char>>, e: Seq<char>)
    requires
        entries.len() > 0,
    ensures
        entries.contains(e) <==> entries.drop_last().contains(e) || e == entries.last(),
{
    let shorter = entries.drop_last();
    if entries.contains(e) {
        let k = choose|k: int| 0 <= k < entries.len() && entries[k] == e;
        if k < shorter.len() {
            assert(shorter[k] == e);
        }
    }
    if shorter.contains(e) {
        let k = choose|k: int| 0 <= k < shorter.len() && shorter[k] == e;
        assert(entries[k] == e);
    }
    assert(entries[entries.len() - 1] == entries.last());
}

/// What is sorted and distinct is the one sorted list.
pub proof fn lemma_sorted_distinct_unique(list: Seq<Seq<char>>, entries: Seq<Seq<char>>)
    requires
        is_sorted_distinct(list, entries),
    ensures
        list == sorted_distinct(entries),
{
    lemma_sorted_distinct(entries);
    let other = sorted_distinct(entries);
    assert forall|e: Seq<char>| #[trigger] list.contains(e) <==> other.contains(e) by {
        assert(other.contains(e) <==> entries.contains(e));
    }
    lemma_ascending_unique(list, other);
}

/// The sorted list depends only on which strings there are, not on their order or number.
pub proof fn lemma_sorted_distinct_same(a: Seq<Seq<char>>, b: Seq<Seq<char>>)
    requires
        forall|e: Seq<char>| #[trigger] a.contains(e) <==> b.contains(e),
    ensures
        sorted_distinct(a) == sorted_distinct(b),
{
    lemma_sorted_distinct(a);
    let list = sorted_distinct(a);
    assert forall|e: Seq<char>| #[trigger] list.contains(e) <==> b.contains(e) by {
        assert(a.contains(e) <==> b.contains(e));
    }
    lemma_sorted_distinct_unique(list, b);
}

/// How two strings compare.
pub(crate) enum StringOrder {
    Less,
    Equal,
    Greater,
}

/// Compares two strings by their characters' code points.
pub(crate) fn order_of(a: &str, b: &str) -> (order: StringOrder)
    ensures
        order is Less <==> precedes(a@, b@),
        order is Equal <==> a@ == b@,
        order is Greater <==> precedes(b@, a@),
{
    let mut rest_a = a.chars();
    let mut rest_b = b.chars();
    let ghost mut i: int = 0;
    loop
        invariant
            0 <= i <= a@.len(),
            i <= b@.len(),
            a@.take(i) == b@.take(i),
            vstd::std_specs::iter::IteratorSpec::remaining(&rest_a) == a@.skip(i),
            vstd::std_specs::iter::IteratorSpec::remaining(&rest_b) == b@.skip(i),
        decreases a@.len() - i,
    {
        match (rest_a.next(), rest_b.next()) {
            (Some(c), Some(d)) => {
                assert(c == a@[i] && d == b@[i]);
                if c < d {
                    proof {
                        assert(smaller_at(a@, b@, i));
                        lemma_precedes_asymmetric(a@, b@);
                    }
                    return StringOrder::Less;
                }
                if d < c {
                    proof {
                        assert(smaller_at(b@, a@, i));
                        lemma_precedes_asymmetric(b@, a@);
                    }
                    return StringOrder::Greater;
                }
                proof {
                    assert(a@.take(i + 1) =~= a@.take(i).push(c));
                    assert(b@.take(i + 1) =~= b@.take(i).push(d));
                    assert(a@.skip(i).drop_first() =~= a@.skip(i + 1));
                    assert(b@.skip(i).drop_first() =~= b@.skip(i + 1));
                    i = i + 1;
                }
            },
            (None, Some(_)) => {
                proof {
                    assert(smaller_at(a@, b@, i));
                    lemma_precedes_asymmetric(a@, b@);
                }
                return StringOrder::Less;
            },
            (Some(_), None) => {
                proof {
                    assert(smaller_at(b@, a@, i));
                    lemma_precedes_asymmetric(b@, a@);
                }
                return StringOrder::Greater;
            },
            (None, None) => {
                proof {
                    assert(a@ =~= a@.take(i));
                    assert(b@ =~= b@.take(i));
                    lemma_precedes_irreflexive(a@);
                }
                return StringOrder::Equal;
            },
        }
    }
}

/// Puts a string into an ascending list, at the place that keeps the list ascending. A string
/// that the list holds already is not added again.
pub(crate) fn insert_distinct<'a>(list: &mut Vec<&'a str>, entry: &'a str)
    requires
        ascending(old(list).deep_view()),
    ensures
        ascending(final(list).deep_view()),
        forall|e: Seq<char>| #[trigger] final(list).deep_view().contains(e)
            <==> old(list).deep_view().contains(e) || e == entry@,
{
    let ghost before = list.deep_view();
    let mut low: usize = 0;
    let mut high: usize = list.len();
    while low < high
        invariant
            list.deep_view() == before,
            *list == *old(list),
            ascending(before),
            low <= high <= list.len(),
            forall|i: int| 0 <= i < low ==> precedes(#[trigger] before[i], entry@),
            forall|i: int| high <= i < before.len() ==> precedes(entry@, #[trigger] before[i]),
        decreases high - low,
    {
        let middle: usize = low + (high - low) / 2;
        assert(before[middle as int] == list@[middle as int]@);
        match order_of(list[middle], entry) {
            StringOrder::Less => {
                proof {
                    assert forall|i: int| 0 <= i <= middle implies precedes(#[trigger] before[i], entry@) by {
                        if i < middle {
                            lemma_precedes_transitive(before[i], before[middle as int], entry@);
                        }
                    }
                }
                low = middle + 1;
            },
            StringOrder::Equal => {
                assert(before.contains(before[middle as int]));
                return;
            },
            StringOrder::Greater => {
                proof {
                    assert forall|i: int| middle <= i < before.len() implies precedes(entry@, #[trigger] before[i]) by {
                        if middle < i {
                            lemma_precedes_transitive(entry@, before[middle as int], before[i]);
                        }
                    }
                }
                high = middle;
            },
        }
    }
    list.insert(low, entry);
    proof {
        let after = list.deep_view();
        assert(after =~= before.insert(low as int, entry@));
        assert forall|e: Seq<char>| #[trigger] after.contains(e) <==> before.contains(e) || e == entry@ by {
            if before.contains(e) {
                let k = choose|k: int| 0 <= k < before.len() && before[k] == e;
                assert(after[if k < low { k } else { k + 1 }] == e);
            }
            assert(after[low as int] == entry@);
        }
    }
}

/// Sorts the strings and drops the duplicates.
pub(crate) fn sort_distinct<'a>(entries: &Vec<&'a str>) -> (list: Vec<&'a str>)
    ensures
        list.deep_view() == sorted_distinct(entries.deep_view()),
{
    let ghost all = entries.deep_view();
    let mut list: Vec<&'a str> = Vec::new();
    let mut n: usize = 0;
    assert(all.take(0) =~= list.deep_view());
    while n < entries.len()
        invariant
            n <= entries.len(),
            all == entries.deep_view(),
            is_sorted_distinct(list.deep_view(), all.take(n as int)),
        decreases entries.len() - n,
    {
        let ghost before = list.deep_view();
        insert_distinct(&mut list, entries[n]);
        proof {
            let shorter = all.take(n as int);
            let longer = all.take(n + 1);
            assert(longer.drop_last() =~= shorter);
            assert forall|e: Seq<char>| #[trigger] list.deep_view().contains(e) <==> longer.contains(e) by {
                assert(before.contains(e) <==> shorter.contains(e));
                lemma_contains_last(longer, e);
            }
        }
        n = n + 1;
    }
    proof {
        assert(all.take(n as int) =~= all);
        lemma_sorted_distinct_unique(list.deep_view(), all);
    }
    list
}

/// One string precedes another if and only if, at the first place where they part, the one ends or
/// holds the character with the smaller code point.
pub proof fn law_precedes(a: Seq<char>, b: Seq<char>)
    ensures
        precedes(a, b) <==> exists|i: int|
            {
                &&& 0 <= i <= a.len() && i < b.len()
                &&& #[trigger] a.subrange(0, i) == b.subrange(0, i)
                &&& i == a.len() || (a[i] as int) < (b[i] as int)
            },
{
    if precedes(a, b) {
        let i = choose|i: int| smaller_at(a, b, i);
        assert(a.subrange(0, i) =~= a.take(i));
        assert(b.subrange(0, i) =~= b.take(i));
    }
    if exists|i: int|
        {
            &&& 0 <= i <= a.len() && i < b.len()
            &&& #[trigger] a.subrange(0, i) == b.subrange(0, i)
            &&& i == a.len() || (a[i] as int) < (b[i] as int)
        } {
        let i = choose|i: int|
            {
                &&& 0 <= i <= a.len() && i < b.len()
                &&& #[trigger] a.subrange(0, i) == b.subrange(0, i)
                &&& i == a.len() || (a[i] as int) < (b[i] as int)
            };
        assert(a.subrange(0, i) =~= a.take(i));
        assert(b.subrange(0, i) =~= b.take(i));
        assert(smaller_at(a, b, i));
    }
}

/// Sorting keeps every string, adds none, and leaves each string before all that are greater.
pub proof fn law_sorted_distinct(entries: Seq<Seq<char>>)
    ensures
        forall|e: Seq<char>| #[trigger] sorted_distinct(entries).contains(e) <==> entries.contains(e),
        forall|i: int, j: int|
            0 <= i < j < sorted_distinct(entries).len() ==> precedes(
                #[trigger] sorted_distinct(entries)[i],
                #[trigger] sorted_distinct(entries)[j],
            ),
{
    lemma_sorted_distinct(entries);
}

} // verus!
