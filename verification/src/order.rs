//! Stable orders: which item stands where when items are sorted.
use vstd::prelude::*;

use crate::text::chars_of;

verus! {

/// Whether `a` comes before `b`, compared character by character.
pub open spec fn less(a: Seq<char>, b: Seq<char>) -> bool
    decreases a.len(),
{
    if b.len() == 0 {
        false
    } else if a.len() == 0 {
        true
    } else if a[0] == b[0] {
        less(a.skip(1), b.skip(1))
    } else {
        a[0] < b[0]
    }
}

/// Whether `a` comes before `b`, compared character by character.
pub fn is_less(a: &str, b: &str) -> (r: bool)
    ensures
        r == less(a@, b@),
{
    let x = chars_of(a);
    let y = chars_of(b);
    let mut i: usize = 0;
    assert(a@.skip(0) =~= a@);
    assert(b@.skip(0) =~= b@);
    while i < x.len() && i < y.len() && x[i] == y[i]
        invariant
            i <= x@.len(),
            i <= y@.len(),
            x@ == a@,
            y@ == b@,
            less(a@, b@) == less(a@.skip(i as int), b@.skip(i as int)),
        decreases x@.len() - i,
    {
        assert(a@.skip(i as int).skip(1) =~= a@.skip(i + 1));
        assert(b@.skip(i as int).skip(1) =~= b@.skip(i + 1));
        i = i + 1;
    }
    if i >= y.len() {
        false
    } else if i >= x.len() {
        true
    } else {
        x[i] < y[i]
    }
}

/// The order with `item` put in: behind everything that it does not go before.
pub open spec fn put_in(
    order: Seq<int>,
    item: int,
    before: spec_fn(int, int) -> bool,
) -> Seq<int>
    decreases order.len(),
{
    if order.len() == 0 || !before(item, order.last()) {
        order.push(item)
    } else {
        put_in(order.drop_last(), item, before).push(order.last())
    }
}

/// The first `n` items in the order that `before` gives.
pub open spec fn ordered(n: nat, before: spec_fn(int, int) -> bool) -> Seq<int>
    decreases n,
{
    if n == 0 {
        Seq::empty()
    } else {
        put_in(ordered((n - 1) as nat, before), n - 1, before)
    }
}

/// Whether `before` is an order in which some items may be level.
pub open spec fn is_order(n: nat, before: spec_fn(int, int) -> bool) -> bool {
    &&& forall|a: int| 0 <= a < n ==> !#[trigger] before(a, a)
    &&& forall|a: int, b: int, c: int|
        0 <= a < n && 0 <= b < n && 0 <= c < n && #[trigger] before(a, b) && #[trigger] before(b, c)
            ==> before(a, c)
    &&& forall|a: int, b: int, c: int|
        0 <= a < n && 0 <= b < n && 0 <= c < n && #[trigger] before(a, c) ==> #[trigger] before(a, b)
            || before(b, c)
}

/// Whether the items stand in order, and level items by their number.
pub open spec fn in_order(order: Seq<int>, before: spec_fn(int, int) -> bool) -> bool {
    forall|i: int, j: int|
        0 <= i < j < order.len() ==> !before(#[trigger] order[j], #[trigger] order[i]) && (before(
            order[i],
            order[j],
        ) || order[i] < order[j])
}

proof fn put_in_holds(order: Seq<int>, item: int, before: spec_fn(int, int) -> bool, x: int)
    ensures
        put_in(order, item, before).contains(x) <==> order.contains(x) || x == item,
        put_in(order, item, before).len() == order.len() + 1,
    decreases order.len(),
{
    let after = put_in(order, item, before);
    if order.len() == 0 || !before(item, order.last()) {
        if order.contains(x) {
            let i = choose|i: int| 0 <= i < order.len() && order[i] == x;
            assert(after[i] == x);
        }
        assert(after[order.len() as int] == item);
        if after.contains(x) {
            let i = choose|i: int| 0 <= i < after.len() && after[i] == x;
            if i < order.len() {
                assert(order[i] == x);
            }
        }
    } else {
        let init = order.drop_last();
        let inner = put_in(init, item, before);
        put_in_holds(init, item, before, x);
        if after.contains(x) {
            let i = choose|i: int| 0 <= i < after.len() && after[i] == x;
            if i < inner.len() {
                assert(inner[i] == x);
                if init.contains(x) {
                    let k = choose|k: int| 0 <= k < init.len() && init[k] == x;
                    assert(order[k] == x);
                }
            } else {
                assert(order[order.len() - 1] == x);
            }
        }
        if order.contains(x) || x == item {
            if x == order.last() {
                assert(after[inner.len() as int] == x);
            } else {
                if order.contains(x) {
                    let k = choose|k: int| 0 <= k < order.len() && order[k] == x;
                    assert(init[k] == x);
                }
                let i = choose|i: int| 0 <= i < inner.len() && inner[i] == x;
                assert(after[i] == x);
            }
        }
    }
}

proof fn put_in_keeps_order(
    order: Seq<int>,
    item: int,
    before: spec_fn(int, int) -> bool,
    n: nat,
)
    requires
        is_order(n, before),
        0 <= item < n,
        in_order(order, before),
        forall|i: int| 0 <= i < order.len() ==> 0 <= #[trigger] order[i] < item,
    ensures
        in_order(put_in(order, item, before), before),
    decreases order.len(),
{
    let after = put_in(order, item, before);
    if order.len() == 0 || !before(item, order.last()) {
        assert forall|i: int, j: int| 0 <= i < j < after.len() implies !before(
            #[trigger] after[j],
            #[trigger] after[i],
        ) && (before(after[i], after[j]) || after[i] < after[j]) by {
            if j < order.len() {
                assert(after[i] == order[i] && after[j] == order[j]);
            } else {
                assert(after[i] == order[i]);
                let last = order.last();
                if i < order.len() - 1 {
                    assert(!before(order[order.len() - 1], order[i]));
                    if before(item, order[i]) {
                        assert(before(item, last) || before(last, order[i]));
                    }
                }
            }
        }
    } else {
        let init = order.drop_last();
        let last = order.last();
        assert(last == order[order.len() - 1]);
        assert forall|i: int| 0 <= i < init.len() implies 0 <= #[trigger] init[i] < item by {
            assert(init[i] == order[i]);
        }
        assert forall|i: int, j: int| 0 <= i < j < init.len() implies !before(
            #[trigger] init[j],
            #[trigger] init[i],
        ) && (before(init[i], init[j]) || init[i] < init[j]) by {
            assert(init[i] == order[i] && init[j] == order[j]);
        }
        put_in_keeps_order(init, item, before, n);
        let inner = put_in(init, item, before);
        assert forall|i: int, j: int| 0 <= i < j < after.len() implies !before(
            #[trigger] after[j],
            #[trigger] after[i],
        ) && (before(after[i], after[j]) || after[i] < after[j]) by {
            if j < inner.len() {
                assert(after[i] == inner[i] && after[j] == inner[j]);
            } else {
                let x = after[i];
                assert(x == inner[i]);
                put_in_holds(init, item, before, x);
                assert(inner.contains(x));
                if x == item {
                    if before(last, item) {
                        assert(before(last, last));
                    }
                } else {
                    let k = choose|k: int| 0 <= k < init.len() && init[k] == x;
                    assert(order[k] == x);
                }
            }
        }
    }
}

/// An order holds each item once, in the order that `before` gives, and level items by
/// their number.
pub proof fn ordered_is_sorted(n: nat, before: spec_fn(int, int) -> bool)
    requires
        is_order(n, before),
    ensures
        ordered(n, before).len() == n,
        forall|x: int| #[trigger] ordered(n, before).contains(x) <==> 0 <= x < n,
        in_order(ordered(n, before), before),
    decreases n,
{
    if n > 0 {
        let m = (n - 1) as nat;
        assert(is_order(m, before)) by {
            assert forall|a: int, b: int, c: int|
                0 <= a < m && 0 <= b < m && 0 <= c < m && #[trigger] before(a, b)
                    && #[trigger] before(b, c) implies before(a, c) by {
                assert(0 <= a < n && 0 <= b < n && 0 <= c < n);
            }
        }
        ordered_is_sorted(m, before);
        let inner = ordered(m, before);
        assert forall|i: int| 0 <= i < inner.len() implies 0 <= #[trigger] inner[i] < n - 1 by {
            assert(inner.contains(inner[i]));
        }
        put_in_keeps_order(inner, n - 1, before, n);
        assert forall|x: int| #[trigger] ordered(n, before).contains(x) <==> 0 <= x < n by {
            put_in_holds(inner, n - 1, before, x);
            assert(inner.contains(x) <==> 0 <= x < m);
        }
        put_in_holds(inner, n - 1, before, 0);
    } else {
        assert forall|x: int| !#[trigger] ordered(n, before).contains(x) by {
        }
    }
}

/// The order of items by falling score: more comes before less.
pub open spec fn by_score(scores: Seq<usize>) -> spec_fn(int, int) -> bool {
    |a: int, b: int| scores[a] > scores[b]
}

/// The order of items by their names.
pub open spec fn by_name(names: Seq<Seq<char>>) -> spec_fn(int, int) -> bool {
    |a: int, b: int| less(names[a], names[b])
}

/// The indices of an order as numbers.
pub open spec fn as_ints(order: Seq<usize>) -> Seq<int> {
    order.map_values(|i: usize| i as int)
}

/// Places the items by falling score.
pub fn rank_by_score(scores: &Vec<usize>) -> (r: Vec<usize>)
    ensures
        as_ints(r@) == ordered(scores@.len(), by_score(scores@)),
        forall|k: int| 0 <= k < r@.len() ==> #[trigger] r@[k] < scores@.len(),
{
    let mut order: Vec<usize> = Vec::new();
    let ghost before = by_score(scores@);
    let mut i: usize = 0;
    assert(as_ints(order@) =~= Seq::empty());
    while i < scores.len()
        invariant
            i <= scores@.len(),
            before == by_score(scores@),
            as_ints(order@) == ordered(i as nat, before),
            forall|k: int| 0 <= k < order@.len() ==> #[trigger] order@[k] < i,
        decreases scores@.len() - i,
    {
        let ghost start = order@;
        let mut at: usize = order.len();
        assert(as_ints(start.take(at as int)) =~= as_ints(start));
        assert(as_ints(start.skip(at as int)) =~= Seq::empty());
        assert(put_in(as_ints(start), i as int, before) =~= put_in(
            as_ints(start.take(at as int)),
            i as int,
            before,
        ) + as_ints(start.skip(at as int)));
        while at > 0 && scores[i] > scores[order[at - 1]]
            invariant
                i < scores@.len(),
                at <= order@.len(),
                order@ == start,
                before == by_score(scores@),
                forall|k: int| 0 <= k < order@.len() ==> #[trigger] order@[k] < i,
                put_in(as_ints(start), i as int, before) == put_in(
                    as_ints(start.take(at as int)),
                    i as int,
                    before,
                ) + as_ints(start.skip(at as int)),
            decreases at,
        {
            proof {
                let head = as_ints(start.take(at as int));
                assert(head.last() == start[at - 1]);
                assert(head.drop_last() =~= as_ints(start.take(at - 1)));
                let tail = as_ints(start.skip(at as int));
                assert(put_in(head.drop_last(), i as int, before).push(head.last()) + tail =~= put_in(
                    head.drop_last(),
                    i as int,
                    before,
                ) + as_ints(start.skip(at - 1)));
            }
            at = at - 1;
        }
        proof {
            let head = as_ints(start.take(at as int));
            if at > 0 {
                assert(head.last() == start[at - 1]);
            }
            assert(put_in(head, i as int, before) == head.push(i as int));
        }
        order.insert(at, i);
        proof {
            assert(as_ints(order@) =~= as_ints(start.take(at as int)).push(i as int) + as_ints(
                start.skip(at as int),
            ));
            assert forall|k: int| 0 <= k < order@.len() implies #[trigger] order@[k] < i + 1 by {
                if k < at {
                    assert(order@[k] == start[k]);
                } else if k > at {
                    assert(order@[k] == start[k - 1]);
                }
            }
        }
        i = i + 1;
    }
    order
}

/// Places the items by their names.
pub fn rank_by_name(names: &Vec<String>) -> (r: Vec<usize>)
    ensures
        as_ints(r@) == ordered(names@.len(), by_name(names.deep_view())),
        forall|k: int| 0 <= k < r@.len() ==> #[trigger] r@[k] < names@.len(),
{
    let mut order: Vec<usize> = Vec::new();
    let ghost before = by_name(names.deep_view());
    let mut i: usize = 0;
    assert(as_ints(order@) =~= Seq::empty());
    while i < names.len()
        invariant
            i <= names@.len(),
            before == by_name(names.deep_view()),
            as_ints(order@) == ordered(i as nat, before),
            forall|k: int| 0 <= k < order@.len() ==> #[trigger] order@[k] < i,
        decreases names@.len() - i,
    {
        let ghost start = order@;
        let mut at: usize = order.len();
        assert(as_ints(start.take(at as int)) =~= as_ints(start));
        assert(as_ints(start.skip(at as int)) =~= Seq::empty());
        assert(put_in(as_ints(start), i as int, before) =~= put_in(
            as_ints(start.take(at as int)),
            i as int,
            before,
        ) + as_ints(start.skip(at as int)));
        while at > 0 && is_less(names[i].as_str(), names[order[at - 1]].as_str())
            invariant
                i < names@.len(),
                at <= order@.len(),
                order@ == start,
                before == by_name(names.deep_view()),
                forall|k: int| 0 <= k < order@.len() ==> #[trigger] order@[k] < i,
                put_in(as_ints(start), i as int, before) == put_in(
                    as_ints(start.take(at as int)),
                    i as int,
                    before,
                ) + as_ints(start.skip(at as int)),
            decreases at,
        {
            proof {
                let head = as_ints(start.take(at as int));
                assert(head.last() == start[at - 1]);
                assert(head.drop_last() =~= as_ints(start.take(at - 1)));
                let tail = as_ints(start.skip(at as int));
                assert(put_in(head.drop_last(), i as int, before).push(head.last()) + tail =~= put_in(
                    head.drop_last(),
                    i as int,
                    before,
                ) + as_ints(start.skip(at - 1)));
            }
            at = at - 1;
        }
        proof {
            let head = as_ints(start.take(at as int));
            if at > 0 {
                assert(head.last() == start[at - 1]);
            }
            assert(put_in(head, i as int, before) == head.push(i as int));
        }
        order.insert(at, i);
        proof {
            assert(as_ints(order@) =~= as_ints(start.take(at as int)).push(i as int) + as_ints(
                start.skip(at as int),
            ));
            assert forall|k: int| 0 <= k < order@.len() implies #[trigger] order@[k] < i + 1 by {
                if k < at {
                    assert(order@[k] == start[k]);
                } else if k > at {
                    assert(order@[k] == start[k - 1]);
                }
            }
        }
        i = i + 1;
    }
    order
}

/// Nothing comes before itself.
pub proof fn less_is_strict(a: Seq<char>)
    ensures
        !less(a, a),
    decreases a.len(),
{
    if a.len() > 0 {
        less_is_strict(a.skip(1));
    }
}

/// What comes before something comes before whatever follows that.
pub proof fn less_is_transitive(a: Seq<char>, b: Seq<char>, c: Seq<char>)
    ensures
        less(a, b) && less(b, c) ==> less(a, c),
        less(a, c) ==> less(a, b) || less(b, c),
    decreases a.len(),
{
    if a.len() > 0 && b.len() > 0 && c.len() > 0 {
        less_is_transitive(a.skip(1), b.skip(1), c.skip(1));
    }
}

/// Names are ordered, so that sorting by name sorts.
pub proof fn names_are_ordered(names: Seq<Seq<char>>)
    ensures
        is_order(names.len(), by_name(names)),
{
    let before = by_name(names);
    assert forall|a: int| 0 <= a < names.len() implies !#[trigger] before(a, a) by {
        less_is_strict(names[a]);
    }
    assert forall|a: int, b: int, c: int|
        0 <= a < names.len() && 0 <= b < names.len() && 0 <= c < names.len() && #[trigger] before(
            a,
            b,
        ) && #[trigger] before(b, c) implies before(a, c) by {
        less_is_transitive(names[a], names[b], names[c]);
    }
    assert forall|a: int, b: int, c: int|
        0 <= a < names.len() && 0 <= b < names.len() && 0 <= c < names.len() && #[trigger] before(
            a,
            c,
        ) implies #[trigger] before(a, b) || before(b, c) by {
        less_is_transitive(names[a], names[b], names[c]);
    }
}

/// Scores are ordered, so that ranking by score ranks.
pub proof fn scores_are_ordered(scores: Seq<usize>)
    ensures
        is_order(scores.len(), by_score(scores)),
{
}

/// Of two different texts one comes before the other.
pub proof fn less_is_total(a: Seq<char>, b: Seq<char>)
    ensures
        less(a, b) || less(b, a) || a == b,
    decreases a.len(),
{
    if a.len() > 0 && b.len() > 0 {
        less_is_total(a.skip(1), b.skip(1));
        if a[0] == b[0] && a.skip(1) == b.skip(1) {
            assert forall|i: int| 0 <= i < a.len() implies a[i] == b[i] by {
                if i > 0 {
                    assert(a[i] == a.skip(1)[i - 1]);
                    assert(b[i] == b.skip(1)[i - 1]);
                }
            }
            assert(a.len() == a.skip(1).len() + 1);
            assert(b.len() == b.skip(1).len() + 1);
            assert(a =~= b);
        }
    } else if a.len() == 0 && b.len() == 0 {
        assert(a =~= b);
    }
}

/// Whether `names` lists the members of a set, each once and in order.
pub open spec fn lists(names: Seq<Seq<char>>, keys: Set<Seq<char>>) -> bool {
    &&& forall|i: int, j: int|
        0 <= i < j < names.len() ==> less(#[trigger] names[i], #[trigger] names[j])
    &&& forall|key: Seq<char>| #[trigger] names.contains(key) <==> keys.contains(key)
}

/// There is one ordered list of the members of a set.
pub proof fn lists_are_unique(a: Seq<Seq<char>>, b: Seq<Seq<char>>, keys: Set<Seq<char>>)
    requires
        lists(a, keys),
        lists(b, keys),
    ensures
        a == b,
    decreases a.len(),
{
    if a.len() == 0 || b.len() == 0 {
        if a.len() > 0 {
            assert(a.contains(a[0]));
            assert(b.contains(a[0]));
        }
        if b.len() > 0 {
            assert(b.contains(b[0]));
            assert(a.contains(b[0]));
        }
        assert(a =~= b);
    } else {
        let m = a.len() - 1;
        let n = b.len() - 1;
        assert(a.contains(a[m]) && b.contains(b[n]));
        assert(b.contains(a[m]) && a.contains(b[n]));
        let i = choose|i: int| 0 <= i < a.len() && a[i] == b[n];
        let j = choose|j: int| 0 <= j < b.len() && b[j] == a[m];
        if a[m] != b[n] {
            assert(less(a[i], a[m]));
            assert(less(b[j], b[n]));
            less_is_transitive(a[m], b[n], a[m]);
            less_is_strict(a[m]);
        }
        let last = a[m];
        let fewer = keys.remove(last);
        one_fewer_is_listed(a, keys);
        one_fewer_is_listed(b, keys);
        lists_are_unique(a.drop_last(), b.drop_last(), fewer);
        assert(a =~= a.drop_last().push(last));
        assert(b =~= b.drop_last().push(last));
    }
}

proof fn one_fewer_is_listed(names: Seq<Seq<char>>, keys: Set<Seq<char>>)
    requires
        lists(names, keys),
        names.len() > 0,
    ensures
        lists(names.drop_last(), keys.remove(names.last())),
{
    let before = names.drop_last();
    assert forall|i: int, j: int| 0 <= i < j < before.len() implies less(
        #[trigger] before[i],
        #[trigger] before[j],
    ) by {
        assert(before[i] == names[i] && before[j] == names[j]);
    }
    assert forall|key: Seq<char>| #[trigger] before.contains(key) <==> keys.remove(
        names.last(),
    ).contains(key) by {
        if before.contains(key) {
            let i = choose|i: int| 0 <= i < before.len() && before[i] == key;
            assert(names[i] == key);
            assert(names.contains(key));
            assert(less(names[i], names[names.len() - 1]));
            less_is_strict(key);
        }
        if keys.contains(key) && key != names.last() {
            assert(names.contains(key));
            let i = choose|i: int| 0 <= i < names.len() && names[i] == key;
            assert(before[i] == key);
        }
    }
}

/// The names in order.
pub fn in_name_order(names: &Vec<String>) -> (r: Vec<String>)
    requires
        forall|i: int, j: int|
            0 <= i < j < names@.len() ==> (#[trigger] names@[i])@ != (#[trigger] names@[j])@,
    ensures
        lists(r.deep_view(), names.deep_view().to_set()),
{
    let order = rank_by_name(names);
    let ghost all = names.deep_view();
    let ghost ints = as_ints(order@);
    proof {
        names_are_ordered(all);
        ordered_is_sorted(all.len(), by_name(all));
        assert(ints.len() == order@.len());
    }
    let mut out: Vec<String> = Vec::new();
    let mut k: usize = 0;
    while k < order.len()
        invariant
            k <= order@.len(),
            all == names.deep_view(),
            forall|j: int| 0 <= j < order@.len() ==> #[trigger] order@[j] < names@.len(),
            out@.len() == k,
            forall|j: int| 0 <= j < k ==> (#[trigger] out@[j])@ == all[order@[j] as int],
        decreases order@.len() - k,
    {
        out.push(names[order[k]].clone());
        k = k + 1;
    }
    proof {
        let sorted = out.deep_view();
        assert forall|j: int| 0 <= j < sorted.len() implies #[trigger] sorted[j] == all[ints[j]] by {
            assert(sorted[j] == out@[j]@);
        }
        assert forall|i: int, j: int| 0 <= i < j < sorted.len() implies less(
            #[trigger] sorted[i],
            #[trigger] sorted[j],
        ) by {
            assert(ints.contains(ints[i]) && ints.contains(ints[j]));
            assert(!by_name(all)(ints[j], ints[i]));
            assert(ints[i] != ints[j]);
            assert(all[ints[i]] == names@[ints[i]]@ && all[ints[j]] == names@[ints[j]]@);
            assert(all[ints[i]] != all[ints[j]]);
            less_is_total(sorted[i], sorted[j]);
        }
        assert forall|key: Seq<char>| #[trigger] sorted.contains(key) <==> all.to_set().contains(
            key,
        ) by {
            if sorted.contains(key) {
                let j = choose|j: int| 0 <= j < sorted.len() && sorted[j] == key;
                assert(ints.contains(ints[j]));
                assert(all[ints[j]] == key);
            }
            if all.contains(key) {
                let i = choose|i: int| 0 <= i < all.len() && all[i] == key;
                assert(ints.contains(i));
                let j = choose|j: int| 0 <= j < ints.len() && ints[j] == i;
                assert(sorted[j] == key);
            }
        }
    }
    out
}

} // verus!
