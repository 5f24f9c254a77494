//! What a history and a listing promise of the arrivals that they show.

use vstd::prelude::*;

use crate::history;
use crate::history::Objects;
use crate::error::{StoreErrorKind, StoreErrorView};
use crate::model::ObjectView;
use crate::retention;
use crate::retention::well_keyed;
use crate::store;
use crate::store::EntryView;
use crate::text;
use crate::time;

verus! {

/// Whether one text comes before another in a dictionary of code points: at the
/// first difference it holds the lesser character, or it ends there.
pub open spec fn precedes(one: Seq<char>, other: Seq<char>) -> bool {
    exists|at: int| #[trigger] parts_at(one, other, at)
}

/// Whether two texts part at a place, the first one going before.
pub open spec fn parts_at(one: Seq<char>, other: Seq<char>, at: int) -> bool {
    &&& 0 <= at <= one.len()
    &&& at < other.len()
    &&& forall|i: int| 0 <= i < at ==> #[trigger] one[i] == other[i]
    &&& at == one.len() || one[at] < other[at]
}

/// Texts are ordered as in a dictionary.
pub proof fn texts_are_ordered_as_in_a_dictionary(one: Seq<char>, other: Seq<char>)
    ensures
        text::lex_less(one, other) <==> precedes(one, other),
    decreases one.len(),
{
    if one.len() > 0 && other.len() > 0 && one[0] == other[0] {
        let a = one.drop_first();
        let b = other.drop_first();
        texts_are_ordered_as_in_a_dictionary(a, b);
        if precedes(a, b) {
            let at = choose|at: int| #[trigger] parts_at(a, b, at);
            assert forall|i: int| 0 <= i < at + 1 implies #[trigger] one[i] == other[i] by {
                if i > 0 {
                    assert(one[i] == a[i - 1] && other[i] == b[i - 1]);
                }
            }
            if at < a.len() {
                assert(one[at + 1] == a[at] && other[at + 1] == b[at]);
            }
            assert(parts_at(one, other, at + 1));
        }
        if precedes(one, other) {
            let at = choose|at: int| #[trigger] parts_at(one, other, at);
            assert(at > 0);
            assert forall|i: int| 0 <= i < at - 1 implies #[trigger] a[i] == b[i] by {
                assert(one[i + 1] == a[i] && other[i + 1] == b[i]);
            }
            if at < one.len() {
                assert(one[at] == a[at - 1] && other[at] == b[at - 1]);
            }
            assert(parts_at(a, b, at - 1));
        }
    } else if other.len() > 0 {
        if one.len() == 0 || one[0] < other[0] {
            assert(parts_at(one, other, 0));
        }
        if precedes(one, other) {
            let at = choose|at: int| #[trigger] parts_at(one, other, at);
            if at > 0 {
                assert(one[0] == other[0]);
            }
        }
    }
}

/// Whether an arrival is newer than another, or as new with the lesser key.
pub open spec fn newer(one: ObjectView, other: ObjectView) -> bool {
    one.at > other.at || (one.at == other.at && precedes(one.key, other.key))
}

/// Whether an arrival is older than another, or as old with the lesser key.
pub open spec fn older(one: ObjectView, other: ObjectView) -> bool {
    one.at < other.at || (one.at == other.at && precedes(one.key, other.key))
}

/// Whether an observation is the last one of its key in a listing.
pub open spec fn is_last(listing: Seq<ObjectView>, place: int) -> bool {
    &&& 0 <= place < listing.len()
    &&& forall|i: int|
        place < i < listing.len() ==> (#[trigger] listing[i]).key != listing[place].key
}

proof fn last_observation_is_found(listing: Seq<ObjectView>, place: int)
    requires
        is_last(listing, place),
    ensures
        history::contents(listing).contains_key(listing[place].key),
        history::contents(listing)[listing[place].key] == listing[place],
    decreases listing.len(),
{
    let front = listing.drop_last();
    if place < front.len() {
        assert forall|i: int| place < i < front.len() implies (#[trigger] front[i]).key
            != front[place].key by {
            assert(front[i] == listing[i]);
        }
        last_observation_is_found(front, place);
        assert(listing[listing.len() - 1].key != listing[place].key);
    }
}

proof fn unlisted_keys_are_absent(listing: Seq<ObjectView>, key: Seq<char>)
    requires
        forall|i: int| 0 <= i < listing.len() ==> (#[trigger] listing[i]).key != key,
    ensures
        !history::contents(listing).contains_key(key),
{
    history::contents_are_observations(listing);
    if history::contents(listing).contains_key(key) {
        let i = choose|i: int|
            0 <= i < listing.len() && listing[i] == history::contents(listing)[key];
        assert(listing[i].key == key);
    }
}

/// What is known of an object after a listing is what was observed last: the last
/// of its entries in the listing, or what was known if it has none.
pub proof fn last_observation_counts(
    old: Objects,
    listing: Seq<ObjectView>,
    key: Seq<char>,
    place: int,
)
    ensures
        is_last(listing, place) && listing[place].key == key ==> history::known_after(
            old,
            listing,
        ).contains_key(key) && history::known_after(old, listing)[key] == listing[place],
        (forall|i: int| 0 <= i < listing.len() ==> (#[trigger] listing[i]).key != key) ==> {
            &&& history::known_after(old, listing).contains_key(key) == old.contains_key(key)
            &&& old.contains_key(key) ==> history::known_after(old, listing)[key] == old[key]
        },
{
    if is_last(listing, place) && listing[place].key == key {
        last_observation_is_found(listing, place);
    }
    if forall|i: int| 0 <= i < listing.len() ==> (#[trigger] listing[i]).key != key {
        unlisted_keys_are_absent(listing, key);
    }
}

/// A history that is full keeps the newest: whatever it drops is older than all
/// that it keeps or, if as new, has a greater key. It drops only what does not
/// fit, and what it keeps it keeps as known.
pub proof fn the_newest_are_kept(
    old: Objects,
    listing: Seq<ObjectView>,
    capacity: nat,
    kept: Seq<char>,
    dropped: Seq<char>,
)
    requires
        well_keyed(old),
    ensures
        ({
            let known = history::known_after(old, listing);
            let after = history::history_after(old, listing, capacity);
            &&& after.contains_key(kept) ==> known.contains_key(kept) && after[kept] == known[kept]
            &&& after.contains_key(kept) && known.contains_key(dropped) && !after.contains_key(
                dropped,
            ) ==> newer(known[kept], known[dropped])
            &&& known.contains_key(dropped) && !after.contains_key(dropped) ==> after.dom().len()
                == capacity
            &&& after.dom().finite()
            &&& after.dom().len() <= capacity
        }),
{
    let known = history::known_after(old, listing);
    let after = history::history_after(old, listing, capacity);
    retention::known_is_well_keyed(old, listing);
    retention::history_holds_last_observations(old, listing, capacity, kept);
    retention::capacity_bounds_the_history(old, listing, capacity);
    kept_as_known(old, listing, capacity, kept);
    if after.contains_key(kept) && known.contains_key(dropped) && !after.contains_key(dropped) {
        retention::kept_objects_are_the_newest(old, listing, capacity, kept, dropped);
        texts_are_ordered_as_in_a_dictionary(known[kept].key, known[dropped].key);
    }
    if known.contains_key(dropped) && !after.contains_key(dropped) {
        assert forall|key: Seq<char>| after.dom().contains(key) implies known.dom().contains(
            key,
        ) by {
            kept_as_known(old, listing, capacity, key);
        }
        assert(after.dom().subset_of(known.dom().remove(dropped)));
        vstd::set_lib::lemma_len_subset(after.dom(), known.dom().remove(dropped));
    }
}

proof fn kept_as_known(old: Objects, listing: Seq<ObjectView>, capacity: nat, key: Seq<char>)
    requires
        well_keyed(old),
    ensures
        history::history_after(old, listing, capacity).contains_key(key) ==> history::known_after(
            old,
            listing,
        ).contains_key(key) && history::history_after(old, listing, capacity)[key]
            == history::known_after(old, listing)[key],
{
    let known = history::known_after(old, listing);
    let after = history::history_after(old, listing, capacity);
    retention::known_is_well_keyed(old, listing);
    retention::every_collection_has_a_listing(known);
    let all = history::newest_listing(known);
    let top = history::first(all, capacity);
    history::contents_are_observations(top);
    if after.contains_key(key) {
        let i = choose|i: int| 0 <= i < top.len() && top[i] == after[key];
        assert(all[i] == after[key]);
        assert(all.contains(all[i]));
    }
}

/// Objects are listed once each, newest or oldest first, equal arrivals in the
/// order of their keys.
pub proof fn listings_are_in_order(objects: Objects, i: int, j: int)
    requires
        well_keyed(objects),
    ensures
        ({
            let newest = history::newest_listing(objects);
            let oldest = history::oldest_listing(objects);
            &&& newest.len() == objects.dom().len()
            &&& oldest.len() == objects.dom().len()
            &&& 0 <= i < j < newest.len() ==> newer(newest[i], newest[j])
            &&& 0 <= i < j < oldest.len() ==> older(oldest[i], oldest[j])
            &&& 0 <= i < newest.len() ==> objects.contains_key(newest[i].key)
                && objects[newest[i].key] == newest[i]
            &&& 0 <= i < oldest.len() ==> objects.contains_key(oldest[i].key)
                && objects[oldest[i].key] == oldest[i]
            &&& forall|key: Seq<char>| #[trigger]
                objects.contains_key(key) ==> newest.contains(objects[key]) && oldest.contains(
                    objects[key],
                )
        }),
{
    retention::every_collection_has_a_listing(objects);
    let newest = history::newest_listing(objects);
    let oldest = history::oldest_listing(objects);
    if 0 <= i < newest.len() {
        assert(newest.contains(newest[i]));
        assert(oldest.contains(oldest[i]));
    }
    if 0 <= i < j < newest.len() {
        assert(history::newest_order()(newest[i], newest[j]));
        assert(history::oldest_order()(oldest[i], oldest[j]));
        texts_are_ordered_as_in_a_dictionary(newest[i].key, newest[j].key);
        texts_are_ordered_as_in_a_dictionary(oldest[i].key, oldest[j].key);
    }
}

/// Changes are told newest first, evictions oldest first.
pub proof fn updates_are_in_order(
    old: Objects,
    listing: Seq<ObjectView>,
    capacity: nat,
    i: int,
    j: int,
)
    requires
        well_keyed(old),
    ensures
        ({
            let changes = history::changes_after(old, listing, capacity);
            let evicted = history::evicted_after(old, listing, capacity);
            &&& 0 <= i < j < changes.len() ==> newer(changes[i].object, changes[j].object)
            &&& 0 <= i < j < evicted.len() ==> older(evicted[i], evicted[j])
        }),
{
    let known = history::known_after(old, listing);
    let kept = history::history_after(old, listing, capacity);
    let changed = history::changed(old, listing, kept);
    let out = history::pushed_out(old, listing, capacity);
    retention::known_is_well_keyed(old, listing);
    history::contents_are_observations(listing);
    assert(changed.dom() =~= history::contents(listing).dom().intersect(changed.dom()));
    assert(well_keyed(changed));
    assert(out.dom() =~= known.dom().intersect(out.dom()));
    assert(well_keyed(out));
    listings_are_in_order(changed, i, j);
    listings_are_in_order(out, i, j);
}

/// A cadence that is asked for goes before the configured one.
pub proof fn asked_cadence_goes_first(asked: u64, configured: Option<u64>)
    ensures
        history::effective_cadence(Some(asked), configured) == Some(asked),
        history::effective_cadence(None, configured) == configured,
{
}

/// A listing of at most some objects shows the newest of them, newest first;
/// whatever it leaves out is older or, if as new, has a greater key.
pub proof fn listings_show_the_newest(
    objects: Seq<ObjectView>,
    limit: nat,
    i: int,
    j: int,
    left_out: ObjectView,
)
    requires
        history::distinct_keys(objects),
    ensures
        ({
            let shown = store::retained_after(Seq::empty(), objects, limit);
            &&& shown.len() == if limit < objects.len() {
                limit
            } else {
                objects.len()
            }
            &&& 0 <= i < shown.len() ==> objects.contains(shown[i])
            &&& 0 <= i < j < shown.len() ==> newer(shown[i], shown[j])
            &&& 0 <= i < shown.len() && objects.contains(left_out) && !shown.contains(left_out)
                ==> newer(shown[i], left_out)
        }),
{
    let all = history::contents(objects);
    let shown = store::retained_after(Seq::empty(), objects, limit);
    let ranked = history::newest_listing(all);
    store::listing_keeps_the_newest(objects, limit);
    history::contents_are_observations(objects);
    history::contents_of_distinct(objects);
    listings_are_in_order(all, i, j);
    if 0 <= i < shown.len() {
        assert(shown[i] == ranked[i]);
        assert(objects.contains(shown[i]));
        if objects.contains(left_out) && !shown.contains(left_out) {
            assert(all.contains_key(left_out.key));
            assert(ranked.contains(left_out));
            let k = choose|k: int| 0 <= k < ranked.len() && ranked[k] == left_out;
            if k < shown.len() {
                assert(shown[k] == left_out);
            }
            listings_are_in_order(all, i, k);
        }
    }
}

/// An entry reads as the object that it states: its key, the instant of its last
/// change, its size, or zero if it states none, and what else it carries. It is
/// refused without a key, without an instant or one off the calendar, and with a
/// negative size; only something left out is worth another try.
pub proof fn entries_read_as_they_state(entry: EntryView)
    ensures
        match store::read_entry(entry) {
            Ok(object) => {
                &&& entry.key == Some(object.key)
                &&& entry.last_modified matches Some((seconds, nanos)) && object.at
                    == 1_000_000_000 * seconds + nanos && nanos < 1_000_000_000
                    && time::on_time_line(object.at)
                &&& match entry.size {
                    Some(size) => object.size == size,
                    None => object.size == 0,
                }
                &&& object.etag == entry.etag
                &&& object.storage_class == entry.storage_class
            },
            Err(error) => {
                &&& error.kind == StoreErrorKind::InvalidResponse
                &&& error.retryable <==> entry.key is None || entry.last_modified is None
                &&& {
                    ||| entry.key is None
                    ||| entry.last_modified is None
                    ||| (entry.last_modified->0).1 >= 1_000_000_000
                    ||| !time::on_time_line(1_000_000_000 * (entry.last_modified->0).0)
                    ||| entry.size is Some && entry.size->0 < 0
                }
            },
        },
{
}

proof fn entries_read_in_turn(entries: Seq<EntryView>)
    ensures
        match store::read_entries(entries) {
            Ok(objects) => {
                &&& objects.len() == entries.len()
                &&& forall|i: int|
                    0 <= i < entries.len() ==> store::read_entry(#[trigger] entries[i]) == Ok::<
                        ObjectView,
                        StoreErrorView,
                    >(objects[i])
            },
            Err(error) => exists|i: int|
                {
                    &&& 0 <= i < entries.len()
                    &&& store::read_entry(#[trigger] entries[i]) == Err::<
                        ObjectView,
                        StoreErrorView,
                    >(error)
                    &&& forall|j: int| 0 <= j < i ==> store::read_entry(#[trigger] entries[j]) is Ok
                },
        },
    decreases entries.len(),
{
    if entries.len() > 0 {
        let front = entries.drop_last();
        entries_read_in_turn(front);
        assert forall|i: int| 0 <= i < front.len() implies #[trigger] front[i] == entries[i] by {}
        match store::read_entries(front) {
            Err(error) => {
                let i = choose|i: int|
                    {
                        &&& 0 <= i < front.len()
                        &&& store::read_entry(#[trigger] front[i]) == Err::<
                            ObjectView,
                            StoreErrorView,
                        >(error)
                        &&& forall|j: int|
                            0 <= j < i ==> store::read_entry(#[trigger] front[j]) is Ok
                    };
                assert(entries[i] == front[i]);
                assert forall|j: int| 0 <= j < i implies store::read_entry(
                    #[trigger] entries[j],
                ) is Ok by {
                    assert(front[j] == entries[j]);
                }
            },
            Ok(objects) => {
                let last = entries.len() - 1;
                assert forall|j: int| 0 <= j < last implies store::read_entry(#[trigger] entries[j])
                    == Ok::<ObjectView, StoreErrorView>(objects[j]) by {
                    assert(front[j] == entries[j]);
                }
                assert(entries[last] == entries.last());
            },
        }
    }
}

/// A page reads as the objects of its entries, in their order, or as what is
/// wrong with the first faulty one. It is the last page unless it says that more
/// follow; then it has to say where.
pub proof fn pages_read_entry_by_entry(
    entries: Seq<EntryView>,
    truncated: Option<bool>,
    token: Option<Seq<char>>,
)
    ensures
        match store::read_page(entries, truncated, token) {
            Ok((objects, next)) => {
                &&& objects.len() == entries.len()
                &&& forall|i: int|
                    0 <= i < entries.len() ==> store::read_entry(#[trigger] entries[i]) == Ok::<
                        ObjectView,
                        StoreErrorView,
                    >(objects[i])
                &&& truncated == Some(true) ==> token is Some && next == token
                &&& truncated != Some(true) ==> next is None
            },
            Err(error) => {
                ||| exists|i: int|
                    {
                        &&& 0 <= i < entries.len()
                        &&& store::read_entry(#[trigger] entries[i]) == Err::<
                            ObjectView,
                            StoreErrorView,
                        >(error)
                        &&& forall|j: int|
                            0 <= j < i ==> store::read_entry(#[trigger] entries[j]) is Ok
                    }
                ||| {
                    &&& forall|i: int|
                        0 <= i < entries.len() ==> store::read_entry(#[trigger] entries[i]) is Ok
                    &&& truncated == Some(true)
                    &&& token is None
                    &&& error.kind == StoreErrorKind::InvalidResponse
                    &&& error.retryable
                }
            },
        },
{
    entries_read_in_turn(entries);
}

} // verus!
