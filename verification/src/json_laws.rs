//! What an object holds once it was printed.
use vstd::prelude::*;

use crate::json::{
    JsonView, entry, entry_forms, entry_push, entry_put, map_entries, value_form,
};
use crate::order::{less, less_is_strict, less_is_total, less_is_transitive};

verus! {

/// The text that stands under a key, or nothing.
pub open spec fn text_under(json: JsonView, key: Seq<char>) -> Seq<char> {
    match json.at(key) {
        JsonView::Text(t) => t,
        _ => Seq::empty(),
    }
}

/// The items that stand under a key, or none.
pub open spec fn list_under(json: JsonView, key: Seq<char>) -> Seq<JsonView> {
    match json.at(key) {
        JsonView::Array(items) => items,
        _ => Seq::empty(),
    }
}

/// Whether a text stands under a key, or nothing.
pub open spec fn text_or_nothing(json: JsonView, key: Seq<char>) -> bool {
    json.at(key) is Null || json.at(key) is Text
}

/// Whether a count stands under a key, or nothing.
pub open spec fn count_or_nothing(json: JsonView, key: Seq<char>) -> bool {
    json.at(key) is Null || json.at(key).unsigned() is Some
}

/// What stands in `entries` under `key`: the last entry with that key.
pub open spec fn last_entry(entries: Seq<(Seq<char>, JsonView)>, key: Seq<char>) -> Option<JsonView>
    decreases entries.len(),
{
    if entries.len() == 0 {
        None
    } else if entries.last().0 == key {
        Some(entries.last().1)
    } else {
        last_entry(entries.drop_last(), key)
    }
}

/// An entry put behind others is the last one with its key.
pub broadcast proof fn last_entry_push(
    fields: Seq<(Seq<char>, JsonView)>,
    key: Seq<char>,
    value: JsonView,
    wanted: Seq<char>,
)
    ensures
        #[trigger] last_entry(fields.push((key, value)), wanted) == if key == wanted {
            Some(value)
        } else {
            last_entry(fields, wanted)
        },
{
    assert(fields.push((key, value)).drop_last() =~= fields);
}

/// Whether entries stand in the order of their keys, each key once.
pub open spec fn by_key(entries: Seq<(Seq<char>, JsonView)>) -> bool {
    forall|i: int, j: int|
        0 <= i < j < entries.len() ==> less((#[trigger] entries[i]).0, (#[trigger] entries[j]).0)
}

proof fn front_is_by_key(entries: Seq<(Seq<char>, JsonView)>)
    requires
        by_key(entries),
        entries.len() > 0,
    ensures
        by_key(entries.drop_last()),
        forall|i: int|
            0 <= i < entries.len() - 1 ==> less(
                (#[trigger] entries.drop_last()[i]).0,
                entries.last().0,
            ),
{
    let front = entries.drop_last();
    assert forall|i: int, j: int| 0 <= i < j < front.len() implies less(
        (#[trigger] front[i]).0,
        (#[trigger] front[j]).0,
    ) by {
        assert(front[i] == entries[i] && front[j] == entries[j]);
    }
    assert forall|i: int| 0 <= i < front.len() implies less(
        (#[trigger] front[i]).0,
        entries.last().0,
    ) by {
        assert(front[i] == entries[i] && entries.last() == entries[entries.len() - 1]);
    }
}

proof fn pushed_is_by_key(entries: Seq<(Seq<char>, JsonView)>, item: (Seq<char>, JsonView))
    requires
        by_key(entries),
        forall|i: int| 0 <= i < entries.len() ==> less((#[trigger] entries[i]).0, item.0),
    ensures
        by_key(entries.push(item)),
{
    let more = entries.push(item);
    assert forall|i: int, j: int| 0 <= i < j < more.len() implies less(
        (#[trigger] more[i]).0,
        (#[trigger] more[j]).0,
    ) by {
        assert(more[i] == entries[i]);
        if j < entries.len() {
            assert(more[j] == entries[j]);
        }
    }
}

proof fn later_keys_are_missing(entries: Seq<(Seq<char>, JsonView)>, key: Seq<char>)
    requires
        forall|i: int| 0 <= i < entries.len() ==> less((#[trigger] entries[i]).0, key),
    ensures
        last_entry(entries, key) is None,
    decreases entries.len(),
{
    if entries.len() > 0 {
        let front = entries.drop_last();
        less_is_strict(key);
        assert(less(entries[entries.len() - 1].0, key));
        assert forall|i: int| 0 <= i < front.len() implies less((#[trigger] front[i]).0, key) by {
            assert(front[i] == entries[i]);
        }
        later_keys_are_missing(front, key);
    }
}

proof fn putting_keeps_order(
    entries: Seq<(Seq<char>, JsonView)>,
    item: (Seq<char>, JsonView),
    key: Seq<char>,
)
    requires
        by_key(entries),
    ensures
        by_key(entry_put(entries, item)),
        forall|i: int|
            0 <= i < entry_put(entries, item).len() ==> (#[trigger] entry_put(entries, item)[i]).0
                == item.0 || exists|k: int|
                0 <= k < entries.len() && (#[trigger] entries[k]).0 == entry_put(
                    entries,
                    item,
                )[i].0,
        last_entry(entry_put(entries, item), key) == if key == item.0 {
            Some(item.1)
        } else {
            last_entry(entries, key)
        },
    decreases entries.len(),
{
    let put = entry_put(entries, item);
    if entries.len() == 0 {
        assert(put.drop_last() =~= entries);
        pushed_is_by_key(entries, item);
    } else {
        let front = entries.drop_last();
        let last = entries.last();
        front_is_by_key(entries);
        if less(last.0, item.0) {
            assert(put.drop_last() =~= entries);
            assert forall|i: int| 0 <= i < entries.len() implies less(
                (#[trigger] entries[i]).0,
                item.0,
            ) by {
                if i < front.len() {
                    assert(less(front[i].0, last.0));
                    less_is_transitive(entries[i].0, last.0, item.0);
                }
            }
            pushed_is_by_key(entries, item);
            assert forall|i: int| 0 <= i < put.len() implies (#[trigger] put[i]).0 == item.0
                || exists|k: int|
                0 <= k < entries.len() && (#[trigger] entries[k]).0 == put[i].0 by {
                if i < entries.len() {
                    assert(put[i] == entries[i]);
                }
            }
        } else if last.0 == item.0 {
            assert(put.drop_last() =~= front);
            assert forall|i: int| 0 <= i < front.len() implies less(
                (#[trigger] front[i]).0,
                item.0,
            ) by {
                assert(less(front[i].0, last.0));
            }
            pushed_is_by_key(front, item);
            assert forall|i: int| 0 <= i < put.len() implies (#[trigger] put[i]).0 == item.0
                || exists|k: int|
                0 <= k < entries.len() && (#[trigger] entries[k]).0 == put[i].0 by {
                if i < front.len() {
                    assert(put[i] == entries[i]);
                }
            }
        } else {
            let before = entry_put(front, item);
            putting_keeps_order(front, item, key);
            less_is_total(last.0, item.0);
            assert(put.drop_last() =~= before);
            assert forall|i: int| 0 <= i < before.len() implies less(
                (#[trigger] before[i]).0,
                last.0,
            ) by {
                if before[i].0 != item.0 {
                    let k = choose|k: int|
                        0 <= k < front.len() && (#[trigger] front[k]).0 == before[i].0;
                    assert(less(front[k].0, last.0));
                }
            }
            pushed_is_by_key(before, last);
            assert forall|i: int| 0 <= i < put.len() implies (#[trigger] put[i]).0 == item.0
                || exists|k: int|
                0 <= k < entries.len() && (#[trigger] entries[k]).0 == put[i].0 by {
                if i < before.len() {
                    assert(put[i] == before[i]);
                    if before[i].0 != item.0 {
                        let k = choose|k: int|
                            0 <= k < front.len() && (#[trigger] front[k]).0 == before[i].0;
                        assert(entries[k].0 == put[i].0);
                    }
                } else {
                    assert(entries[entries.len() - 1].0 == put[i].0);
                }
            }
        }
    }
}

proof fn first_is_last(entries: Seq<(Seq<char>, JsonView)>, key: Seq<char>)
    requires
        by_key(entries),
    ensures
        entry(entries, key) == last_entry(entries, key),
    decreases entries.len(),
{
    if entries.len() > 0 {
        let front = entries.drop_last();
        let last = entries.last();
        front_is_by_key(entries);
        first_is_last(front, key);
        assert(front.push((last.0, last.1)) =~= entries);
        entry_push(front, last.0, last.1, key);
        if last.0 == key {
            later_keys_are_missing(front, key);
        }
    }
}

/// The entries that an object keeps stand in the order of their keys, each key once, and
/// under each key stands what was put there last.
pub proof fn objects_keep_the_last_of_each_key(
    entries: Seq<(Seq<char>, JsonView)>,
    key: Seq<char>,
)
    ensures
        by_key(map_entries(entries)),
        entry(map_entries(entries), key) == last_entry(entries, key),
        last_entry(map_entries(entries), key) == last_entry(entries, key),
    decreases entries.len(),
{
    if entries.len() > 0 {
        let front = entries.drop_last();
        objects_keep_the_last_of_each_key(front, key);
        putting_keeps_order(map_entries(front), entries.last(), key);
    }
    first_is_last(map_entries(entries), key);
}

proof fn forms_are_found(entries: Seq<(Seq<char>, JsonView)>, key: Seq<char>)
    ensures
        last_entry(entry_forms(entries), key) == match last_entry(entries, key) {
            Some(value) => Some(value_form(value)),
            None => None,
        },
    decreases entries.len(),
{
    if entries.len() > 0 {
        forms_are_found(entries.drop_last(), key);
        assert(entry_forms(entries).drop_last() =~= entry_forms(entries.drop_last()));
        assert(entry_forms(entries).last() == (
            entries.last().0,
            value_form(entries.last().1),
        ));
    }
}

/// What a printed object holds under a key is what it was given there last.
pub proof fn printed_objects_hold_their_entries(
    entries: Seq<(Seq<char>, JsonView)>,
    key: Seq<char>,
)
    ensures
        value_form(JsonView::Object(entries)).get(key) == match last_entry(entries, key) {
            Some(value) => Some(value_form(value)),
            None => None,
        },
{
    forms_are_found(entries, key);
    objects_keep_the_last_of_each_key(entry_forms(entries), key);
}

} // verus!
