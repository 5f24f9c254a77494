//! What holds of every history: listings exist, capacity bounds them, and
//! neither the order nor the repetition of observations matters.

use vstd::prelude::*;

use crate::history;
use crate::history::Objects;
use crate::model::{ChangeView, ObjectChangeKind, ObjectView};
use crate::sorting;

verus! {

/// Whether a finite collection files every object under its own key.
pub open spec fn well_keyed(objects: Objects) -> bool {
    &&& objects.dom().finite()
    &&& forall|key: Seq<char>| #[trigger]
        objects.contains_key(key) ==> objects[key].key == key
}

/// Picking values out of a strictly ordered sequence keeps it so.
pub proof fn picking_keeps_order(
    sequence: Seq<ObjectView>,
    wanted: spec_fn(ObjectView) -> bool,
    before: spec_fn(ObjectView, ObjectView) -> bool,
)
    requires
        sorting::strictly_in_order(sequence, before),
    ensures
        sorting::strictly_in_order(sequence.filter(wanted), before),
        forall|x: ObjectView| #[trigger]
            sequence.filter(wanted).contains(x) <==> sequence.contains(x) && wanted(x),
    decreases sequence.len(),
{
    reveal(Seq::filter);
    if sequence.len() > 0 {
        let front = sequence.drop_last();
        let last = sequence.last();
        picking_keeps_order(front, wanted, before);
        let picked = sequence.filter(wanted);
        assert forall|x: ObjectView| #[trigger] front.contains(x) implies sequence.contains(x)
            && before(x, last) by {
            let i = choose|i: int| 0 <= i < front.len() && front[i] == x;
            assert(sequence[i] == x);
            assert(sequence[sequence.len() - 1] == last);
        }
        assert forall|x: ObjectView| #[trigger] sequence.contains(x) implies front.contains(x) || x
            == last by {
            let i = choose|i: int| 0 <= i < sequence.len() && sequence[i] == x;
            if i < front.len() {
                assert(front[i] == x);
            }
        }
        assert(sequence.contains(last));
        if wanted(last) {
            assert(picked == front.filter(wanted).push(last));
            assert forall|i: int, j: int|
                #![trigger picked[i], picked[j]]
                0 <= i < j < picked.len() implies before(picked[i], picked[j]) by {
                if j == picked.len() - 1 {
                    assert(front.filter(wanted).contains(picked[i]));
                }
            }
            assert forall|x: ObjectView| #[trigger] picked.contains(x) <==> sequence.contains(x)
                && wanted(x) by {
                if picked.contains(x) {
                    let i = choose|i: int| 0 <= i < picked.len() && picked[i] == x;
                    if i < front.filter(wanted).len() {
                        assert(front.filter(wanted).contains(x));
                    }
                }
                if sequence.contains(x) && wanted(x) {
                    if front.contains(x) {
                        let i = choose|i: int|
                            0 <= i < front.filter(wanted).len() && front.filter(wanted)[i] == x;
                        assert(picked[i] == x);
                    } else {
                        assert(picked[picked.len() - 1] == x);
                    }
                }
            }
        } else {
            assert(picked == front.filter(wanted));
        }
    }
}

/// Whether an order is strict and decides between any two keys.
pub open spec fn decides(before: spec_fn(ObjectView, ObjectView) -> bool) -> bool {
    &&& forall|x: ObjectView| !#[trigger] before(x, x)
    &&& forall|x: ObjectView, y: ObjectView, z: ObjectView| #[trigger]
        before(x, y) && #[trigger] before(y, z) ==> before(x, z)
    &&& forall|x: ObjectView, y: ObjectView|
        x.key != y.key ==> #[trigger] before(x, y) || before(y, x)
}

/// Both orders by arrival are strict and decide between any two keys.
pub proof fn arrival_orders_decide()
    ensures
        decides(history::newest_order()),
        decides(history::oldest_order()),
{
    let newest = history::newest_order();
    let oldest = history::oldest_order();
    assert forall|x: ObjectView| !#[trigger] newest(x, x) by {
        history::keys_chain(x.key, x.key, x.key);
    }
    assert forall|x: ObjectView, y: ObjectView, z: ObjectView| #[trigger]
        newest(x, y) && #[trigger] newest(y, z) implies newest(x, z) by {
        history::keys_chain(x.key, y.key, z.key);
    }
    assert forall|x: ObjectView, y: ObjectView| x.key != y.key implies #[trigger] newest(x, y)
        || newest(y, x) by {
        history::keys_chain(x.key, y.key, x.key);
    }
    assert forall|x: ObjectView| !#[trigger] oldest(x, x) by {
        history::keys_chain(x.key, x.key, x.key);
    }
    assert forall|x: ObjectView, y: ObjectView, z: ObjectView| #[trigger]
        oldest(x, y) && #[trigger] oldest(y, z) implies oldest(x, z) by {
        history::keys_chain(x.key, y.key, z.key);
    }
    assert forall|x: ObjectView, y: ObjectView| x.key != y.key implies #[trigger] oldest(x, y)
        || oldest(y, x) by {
        history::keys_chain(x.key, y.key, x.key);
    }
}

/// A listing has room for one more object.
proof fn room_for_one_more(
    sequence: Seq<ObjectView>,
    objects: Objects,
    object: ObjectView,
    before: spec_fn(ObjectView, ObjectView) -> bool,
)
    requires
        decides(before),
        history::lists(sequence, objects, before),
        !objects.contains_key(object.key),
    ensures
        exists|longer: Seq<ObjectView>|
            history::lists(longer, objects.insert(object.key, object), before) && longer.len()
                == sequence.len() + 1,
{
    let earlier = |x: ObjectView| before(x, object);
    let later = |x: ObjectView| !before(x, object);
    picking_keeps_order(sequence, earlier, before);
    picking_keeps_order(sequence, later, before);
    let front = sequence.filter(earlier);
    let back = sequence.filter(later);
    let longer = front + seq![object] + back;
    assert forall|x: ObjectView| #[trigger] front.contains(x) implies before(x, object) by {
        assert(earlier(x));
    }
    assert forall|x: ObjectView| #[trigger] back.contains(x) implies before(object, x) by {
        assert(later(x));
        assert(sequence.contains(x));
        assert(before(x, object) || before(object, x));
    }
    assert forall|i: int, j: int|
        #![trigger longer[i], longer[j]]
        0 <= i < j < longer.len() implies before(longer[i], longer[j]) by {
        let n = front.len();
        if i < n {
            assert(front.contains(front[i]));
        }
        if i > n {
            assert(back.contains(back[i - n - 1]));
        }
        if j > n {
            assert(back.contains(back[j - n - 1]));
        }
        if i < n && j > n {
            assert(before(longer[i], object));
            assert(before(object, longer[j]));
        }
    }
    let larger = objects.insert(object.key, object);
    assert forall|x: ObjectView| #[trigger] longer.contains(x) <==> (larger.contains_key(x.key)
        && larger[x.key] == x) by {
        if longer.contains(x) {
            let i = choose|i: int| 0 <= i < longer.len() && longer[i] == x;
            if i < front.len() {
                assert(front.contains(front[i]));
                assert(sequence.contains(x));
            } else if i > front.len() {
                assert(back.contains(back[i - front.len() - 1]));
                assert(sequence.contains(x));
            }
        }
        if larger.contains_key(x.key) && larger[x.key] == x {
            if x.key == object.key {
                assert(longer[front.len() as int] == x);
            } else {
                assert(sequence.contains(x));
                if before(x, object) {
                    assert(earlier(x));
                    assert(front.contains(x));
                    let i = choose|i: int| 0 <= i < front.len() && front[i] == x;
                    assert(longer[i] == x);
                } else {
                    assert(later(x));
                    assert(back.contains(x));
                    let i = choose|i: int| 0 <= i < back.len() && back[i] == x;
                    assert(longer[front.len() + 1 + i] == x);
                }
            }
        }
    }
    both_parts_cover(sequence, earlier, later);
    assert(history::lists(longer, larger, before));
}

/// Two complementary choices from a sequence add up to it.
proof fn both_parts_cover(
    sequence: Seq<ObjectView>,
    wanted: spec_fn(ObjectView) -> bool,
    unwanted: spec_fn(ObjectView) -> bool,
)
    requires
        forall|x: ObjectView| #[trigger] wanted(x) == !unwanted(x),
    ensures
        sequence.filter(wanted).len() + sequence.filter(unwanted).len() == sequence.len(),
    decreases sequence.len(),
{
    reveal(Seq::filter);
    if sequence.len() > 0 {
        both_parts_cover(sequence.drop_last(), wanted, unwanted);
        assert(wanted(sequence.last()) == !unwanted(sequence.last()));
    }
}

/// Every finite collection of objects can be listed in an order.
proof fn can_be_listed(
    objects: Objects,
    before: spec_fn(ObjectView, ObjectView) -> bool,
) -> (listing: Seq<ObjectView>)
    requires
        well_keyed(objects),
        decides(before),
    ensures
        history::lists(listing, objects, before),
        listing.len() == objects.dom().len(),
    decreases objects.dom().len(),
{
    if objects.dom().len() == 0 {
        let none = Seq::<ObjectView>::empty();
        assert forall|x: ObjectView| #[trigger] none.contains(x) <==> (objects.contains_key(x.key)
            && objects[x.key] == x) by {
            if objects.dom().contains(x.key) {
                assert(objects.dom() =~= Set::empty());
            }
        }
        none
    } else {
        let key = objects.dom().choose();
        let fewer = objects.remove(key);
        let shorter = can_be_listed(fewer, before);
        room_for_one_more(shorter, fewer, objects[key], before);
        assert(fewer.insert(key, objects[key]) =~= objects);
        choose|longer: Seq<ObjectView>|
            history::lists(longer, objects, before) && longer.len() == shorter.len() + 1
    }
}

/// Every finite collection of objects has its listings, newest first and oldest
/// first.
pub proof fn every_collection_has_a_listing(objects: Objects)
    requires
        well_keyed(objects),
    ensures
        history::lists(history::newest_listing(objects), objects, history::newest_order()),
        history::newest_listing(objects).len() == objects.dom().len(),
        history::lists(history::oldest_listing(objects), objects, history::oldest_order()),
        history::oldest_listing(objects).len() == objects.dom().len(),
{
    arrival_orders_decide();
    let newest = can_be_listed(objects, history::newest_order());
    history::newest_listing_is_unique(newest, objects);
    let oldest = can_be_listed(objects, history::oldest_order());
    history::oldest_listing_is_unique(oldest, objects);
}

/// A strictly ordered listing repeats no key.
proof fn listings_have_distinct_keys(sequence: Seq<ObjectView>, objects: Objects)
    requires
        history::lists(sequence, objects, history::newest_order()),
    ensures
        history::distinct_keys(sequence),
{
    arrival_orders_decide();
    assert forall|i: int, j: int|
        #![trigger sequence[i], sequence[j]]
        0 <= i < j < sequence.len() implies sequence[i].key != sequence[j].key by {
        assert(history::newest_order()(sequence[i], sequence[j]));
        assert(sequence.contains(sequence[i]));
        assert(sequence.contains(sequence[j]));
    }
}

/// The first objects of a newest-first listing, seen as a collection.
proof fn retained_facts(objects: Objects, capacity: nat)
    requires
        well_keyed(objects),
    ensures
        ({
            let listing = history::first(history::newest_listing(objects), capacity);
            let kept = history::retained(objects, capacity);
            &&& well_keyed(kept)
            &&& history::lists(listing, kept, history::newest_order())
            &&& forall|key: Seq<char>| #[trigger]
                kept.contains_key(key) ==> objects.contains_key(key) && kept[key] == objects[key]
            &&& kept.dom().len() == listing.len()
        }),
{
    let before = history::newest_order();
    let all = history::newest_listing(objects);
    let listing = history::first(all, capacity);
    let kept = history::retained(objects, capacity);
    every_collection_has_a_listing(objects);
    listings_have_distinct_keys(all, objects);
    assert(history::distinct_keys(listing)) by {
        assert forall|i: int, j: int|
            #![trigger listing[i], listing[j]]
            0 <= i < j < listing.len() implies listing[i].key != listing[j].key by {
            assert(listing[i] == all[i] && listing[j] == all[j]);
        }
    }
    history::contents_of_distinct(listing);
    history::contents_are_observations(listing);
    assert(sorting::strictly_in_order(listing, before)) by {
        assert forall|i: int, j: int|
            #![trigger listing[i], listing[j]]
            0 <= i < j < listing.len() implies before(listing[i], listing[j]) by {
            assert(listing[i] == all[i] && listing[j] == all[j]);
        }
    }
    assert forall|key: Seq<char>| #[trigger] kept.contains_key(key) implies objects.contains_key(
        key,
    ) && kept[key] == objects[key] by {
        let i = choose|i: int| 0 <= i < listing.len() && listing[i] == kept[key];
        assert(all[i] == kept[key]);
        assert(all.contains(kept[key]));
    }
}

/// A history never holds more than its capacity, and no fewer objects than fit.
pub proof fn capacity_bounds_the_history(
    old: Objects,
    listing: Seq<ObjectView>,
    capacity: nat,
)
    requires
        well_keyed(old),
    ensures
        history::history_after(old, listing, capacity).dom().len() == if capacity
            < history::known_after(old, listing).dom().len() {
            capacity
        } else {
            history::known_after(old, listing).dom().len()
        },
{
    known_is_well_keyed(old, listing);
    every_collection_has_a_listing(history::known_after(old, listing));
    retained_facts(history::known_after(old, listing), capacity);
}

/// What is known after a listing is again a finite, well-keyed collection.
pub proof fn known_is_well_keyed(old: Objects, listing: Seq<ObjectView>)
    requires
        well_keyed(old),
    ensures
        well_keyed(history::known_after(old, listing)),
{
    history::contents_are_observations(listing);
    let known = history::known_after(old, listing);
    assert(known.dom() =~= old.dom().union(history::contents(listing).dom()));
}

/// A history stays a finite, well-keyed collection, and says of each object
/// what was last observed of it.
pub proof fn history_holds_last_observations(
    old: Objects,
    listing: Seq<ObjectView>,
    capacity: nat,
    key: Seq<char>,
)
    requires
        well_keyed(old),
    ensures
        well_keyed(history::history_after(old, listing, capacity)),
        history::history_after(old, listing, capacity).contains_key(key)
            ==> history::history_after(old, listing, capacity)[key] == (if history::contents(
            listing,
        ).contains_key(key) {
            history::contents(listing)[key]
        } else {
            old[key]
        }),
{
    known_is_well_keyed(old, listing);
    retained_facts(history::known_after(old, listing), capacity);
}

/// Retention keeps the newest arrivals: whatever is kept comes before whatever
/// is dropped.
pub proof fn kept_objects_are_the_newest(
    old: Objects,
    listing: Seq<ObjectView>,
    capacity: nat,
    kept: Seq<char>,
    dropped: Seq<char>,
)
    requires
        well_keyed(old),
        history::history_after(old, listing, capacity).contains_key(kept),
        history::known_after(old, listing).contains_key(dropped),
        !history::history_after(old, listing, capacity).contains_key(dropped),
    ensures
        history::newest_before(
            history::known_after(old, listing)[kept],
            history::known_after(old, listing)[dropped],
        ),
{
    let known = history::known_after(old, listing);
    let before = history::newest_order();
    known_is_well_keyed(old, listing);
    every_collection_has_a_listing(known);
    retained_facts(known, capacity);
    let all = history::newest_listing(known);
    let top = history::first(all, capacity);
    assert(known[kept].key == kept);
    assert(top.contains(known[kept]));
    assert(all.contains(known[dropped]));
    let i = choose|i: int| 0 <= i < top.len() && top[i] == known[kept];
    let j = choose|j: int| 0 <= j < all.len() && all[j] == known[dropped];
    if j < top.len() {
        assert(top[j] == known[dropped]);
        assert(top.contains(known[dropped]));
    }
    assert(before(all[i], all[j]));
}

/// A smaller collection that still holds the newest objects of a larger one
/// retains the same.
proof fn retention_ignores_the_rest(larger: Objects, smaller: Objects, capacity: nat)
    requires
        well_keyed(larger),
        well_keyed(smaller),
        forall|key: Seq<char>| #[trigger]
            smaller.contains_key(key) ==> larger.contains_key(key) && larger[key] == smaller[key],
        forall|key: Seq<char>| #[trigger]
            history::retained(larger, capacity).contains_key(key) ==> smaller.contains_key(key),
    ensures
        history::retained(smaller, capacity) == history::retained(larger, capacity),
{
    let before = history::newest_order();
    let all = history::newest_listing(larger);
    let top = history::first(all, capacity);
    every_collection_has_a_listing(larger);
    retained_facts(larger, capacity);
    let present = |x: ObjectView| smaller.contains_key(x.key) && smaller[x.key] == x;
    picking_keeps_order(all, present, before);
    let fewer = all.filter(present);
    assert forall|x: ObjectView| #[trigger] fewer.contains(x) <==> (smaller.contains_key(x.key)
        && smaller[x.key] == x) by {
        if smaller.contains_key(x.key) && smaller[x.key] == x {
            assert(larger.contains_key(x.key) && larger[x.key] == x);
            assert(all.contains(x));
            assert(present(x));
        }
        if fewer.contains(x) {
            assert(present(x));
        }
    }
    assert(history::lists(fewer, smaller, before));
    history::newest_listing_is_unique(fewer, smaller);
    let rest = all.skip(top.len() as int);
    assert(all =~= top + rest);
    Seq::filter_distributes_over_add(top, rest, present);
    assert forall|i: int| 0 <= i < top.len() implies present(#[trigger] top[i]) by {
        assert(top.contains(top[i]));
    }
    whole_choice(top, present);
    assert(fewer =~= top + rest.filter(present));
    if capacity < fewer.len() {
        assert(fewer.take(capacity as int) =~= top) by {
            rest.lemma_filter_len(present);
        }
    } else {
        rest.lemma_filter_len(present);
        assert(fewer =~= top);
    }
}

/// A choice that takes everything changes nothing.
pub proof fn whole_choice(sequence: Seq<ObjectView>, wanted: spec_fn(ObjectView) -> bool)
    requires
        forall|i: int| 0 <= i < sequence.len() ==> wanted(#[trigger] sequence[i]),
    ensures
        sequence.filter(wanted) == sequence,
    decreases sequence.len(),
{
    reveal(Seq::filter);
    if sequence.len() > 0 {
        let front = sequence.drop_last();
        assert forall|i: int| 0 <= i < front.len() implies wanted(#[trigger] front[i]) by {
            assert(sequence[i] == front[i]);
        }
        whole_choice(front, wanted);
        assert(wanted(sequence[sequence.len() - 1]));
        assert(sequence =~= front.push(sequence.last()));
    }
}

/// A choice that takes nothing leaves nothing.
pub proof fn empty_choice(sequence: Seq<ObjectView>, wanted: spec_fn(ObjectView) -> bool)
    requires
        forall|i: int| 0 <= i < sequence.len() ==> !wanted(#[trigger] sequence[i]),
    ensures
        sequence.filter(wanted) == Seq::<ObjectView>::empty(),
    decreases sequence.len(),
{
    reveal(Seq::filter);
    if sequence.len() > 0 {
        let front = sequence.drop_last();
        assert forall|i: int| 0 <= i < front.len() implies !wanted(#[trigger] front[i]) by {
            assert(sequence[i] == front[i]);
        }
        empty_choice(front, wanted);
        assert(!wanted(sequence[sequence.len() - 1]));
    }
}

/// Applying the same listing again changes nothing and reports nothing, even
/// where the listing holds more objects than fit.
pub proof fn repeated_listing_is_ignored(old: Objects, listing: Seq<ObjectView>, capacity: nat)
    requires
        well_keyed(old),
    ensures
        ({
            let once = history::history_after(old, listing, capacity);
            &&& history::history_after(once, listing, capacity) == once
            &&& history::changes_after(once, listing, capacity) == Seq::<ChangeView>::empty()
            &&& history::evicted_after(once, listing, capacity) == Seq::<ObjectView>::empty()
        }),
{
    let known = history::known_after(old, listing);
    let once = history::history_after(old, listing, capacity);
    let again = history::known_after(once, listing);
    known_is_well_keyed(old, listing);
    retained_facts(known, capacity);
    known_is_well_keyed(once, listing);
    retention_ignores_the_rest(known, again, capacity);
    let none = Seq::<ObjectView>::empty();
    let changed = history::changed(once, listing, once);
    assert(changed =~= Map::empty());
    assert(history::lists(none, changed, history::newest_order()));
    history::newest_listing_is_unique(none, changed);
    assert(history::changes_after(once, listing, capacity) =~= Seq::<ChangeView>::empty());
    let out = history::pushed_out(once, listing, capacity);
    assert(out =~= Map::empty());
    assert(history::lists(none, out, history::oldest_order()));
    history::oldest_listing_is_unique(none, out);
}

/// The order of a listing without repeated keys does not matter: neither to
/// what is retained nor to what is reported.
pub proof fn listing_order_is_ignored(
    old: Objects,
    one: Seq<ObjectView>,
    other: Seq<ObjectView>,
    capacity: nat,
)
    requires
        history::distinct_keys(one),
        history::distinct_keys(other),
        forall|object: ObjectView| #[trigger] one.contains(object) <==> other.contains(object),
    ensures
        history::history_after(old, one, capacity) == history::history_after(old, other, capacity),
        history::changes_after(old, one, capacity) == history::changes_after(old, other, capacity),
        history::evicted_after(old, one, capacity) == history::evicted_after(old, other, capacity),
{
    history::contents_of_distinct(one);
    history::contents_of_distinct(other);
    history::contents_are_observations(one);
    history::contents_are_observations(other);
    let a = history::contents(one);
    let b = history::contents(other);
    assert forall|key: Seq<char>| a.contains_key(key) == b.contains_key(key) by {
        if a.contains_key(key) {
            assert(other.contains(a[key]));
        }
        if b.contains_key(key) {
            assert(one.contains(b[key]));
        }
    }
    assert forall|key: Seq<char>| #[trigger] a.contains_key(key) implies a[key] == b[key] by {
        assert(other.contains(a[key]));
    }
    assert(a =~= b);
}

/// The objects reported as evicted are exactly the formerly retained ones that no
/// longer fit, each as it was last seen.
pub proof fn evictions_were_retained(old: Objects, listing: Seq<ObjectView>, capacity: nat)
    requires
        well_keyed(old),
    ensures
        forall|object: ObjectView| #[trigger]
            history::evicted_after(old, listing, capacity).contains(object) <==> {
                &&& old.contains_key(object.key)
                &&& !history::history_after(old, listing, capacity).contains_key(object.key)
                &&& history::known_after(old, listing)[object.key] == object
            },
{
    let known = history::known_after(old, listing);
    let out = history::pushed_out(old, listing, capacity);
    known_is_well_keyed(old, listing);
    assert(out.dom() =~= known.dom().intersect(out.dom()));
    assert(well_keyed(out));
    every_collection_has_a_listing(out);
}

/// The changes reported are exactly the objects now retained that were unknown
/// before, as additions, or known otherwise, as updates with what was known.
pub proof fn changes_are_new_or_different(old: Objects, listing: Seq<ObjectView>, capacity: nat)
    requires
        well_keyed(old),
    ensures
        ({
            let kept = history::history_after(old, listing, capacity);
            let changes = history::changes_after(old, listing, capacity);
            &&& forall|i: int|
                0 <= i < changes.len() ==> {
                    let change = #[trigger] changes[i];
                    &&& kept.contains_key(change.object.key)
                    &&& kept[change.object.key] == change.object
                    &&& match change.kind {
                        ObjectChangeKind::Added => !old.contains_key(change.object.key)
                            && change.previous is None,
                        ObjectChangeKind::Updated => old.contains_key(change.object.key)
                            && change.previous == Some(old[change.object.key])
                            && old[change.object.key] != change.object,
                    }
                }
            &&& forall|key: Seq<char>| #[trigger]
                kept.contains_key(key) && !(old.contains_key(key) && old[key] == kept[key])
                    ==> exists|i: int|
                    0 <= i < changes.len() && (#[trigger] changes[i]).object == kept[key]
        }),
{
    let known = history::known_after(old, listing);
    let kept = history::history_after(old, listing, capacity);
    let changed = history::changed(old, listing, kept);
    let changes = history::changes_after(old, listing, capacity);
    let order = history::newest_listing(changed);
    known_is_well_keyed(old, listing);
    retained_facts(known, capacity);
    history::contents_are_observations(listing);
    assert(changed.dom() =~= history::contents(listing).dom().intersect(changed.dom()));
    assert(well_keyed(changed));
    every_collection_has_a_listing(changed);
    assert forall|i: int| 0 <= i < changes.len() implies {
        let change = #[trigger] changes[i];
        &&& change == history::described(old, order[i])
        &&& changed.contains_key(order[i].key)
        &&& changed[order[i].key] == order[i]
    } by {
        assert(order.contains(order[i]));
    }
    assert forall|key: Seq<char>| #[trigger]
        kept.contains_key(key) && !(old.contains_key(key) && old[key] == kept[key]) implies exists|
        i: int,
    |
        0 <= i < changes.len() && (#[trigger] changes[i]).object == kept[key] by {
        assert(known.contains_key(key) && known[key] == kept[key]);
        assert(changed.contains_key(key) && changed[key] == kept[key]);
        assert(order.contains(kept[key]));
        let i = choose|i: int| 0 <= i < order.len() && order[i] == kept[key];
        assert(changes[i] == history::described(old, order[i]));
    }
}

} // verus!
