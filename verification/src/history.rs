//! The rolling arrival history of one watcher.

use vstd::prelude::*;

use crate::error::ConfigError;
use crate::model;
use crate::model::{
    clone_objects, ArrivalInterval, ArrivalStatistics, ChangeView, HistorySnapshot, HistoryUpdate,
    ObjectChange, ObjectChangeKind, ObjectView, S3Object,
};
use crate::retention;
use crate::sorting;
use crate::sorting::{reversed, sort, Order};
use crate::statistics;
use crate::statistics::{intervals_for, statistics_for};
use crate::text;
use crate::text::text_less;
use crate::time::Timestamp;

verus! {

/// Objects by key.
pub type Objects = Map<Seq<char>, ObjectView>;

/// Later arrivals first; among equal arrivals the lesser key first.
pub open spec fn newest_before(a: ObjectView, b: ObjectView) -> bool {
    a.at > b.at || (a.at == b.at && text::lex_less(a.key, b.key))
}

/// Earlier arrivals first; among equal arrivals the lesser key first.
pub open spec fn oldest_before(a: ObjectView, b: ObjectView) -> bool {
    a.at < b.at || (a.at == b.at && text::lex_less(a.key, b.key))
}

/// [`newest_before`] as a value.
pub open spec fn newest_order() -> spec_fn(ObjectView, ObjectView) -> bool {
    |a: ObjectView, b: ObjectView| newest_before(a, b)
}

/// [`oldest_before`] as a value.
pub open spec fn oldest_order() -> spec_fn(ObjectView, ObjectView) -> bool {
    |a: ObjectView, b: ObjectView| oldest_before(a, b)
}

/// The order of [`newest_before`].
pub struct NewestFirst;

/// The order of [`oldest_before`].
pub struct OldestFirst;

pub proof fn keys_chain(a: Seq<char>, b: Seq<char>, c: Seq<char>)
    ensures
        !text::lex_less(a, a),
        text::lex_less(a, b) && text::lex_less(b, c) ==> text::lex_less(a, c),
        !text::lex_less(b, a) && !text::lex_less(c, b) ==> !text::lex_less(c, a),
        text::lex_less(a, b) ==> !text::lex_less(b, a),
        a != b ==> text::lex_less(a, b) || text::lex_less(b, a),
{
    text::lex_less_irreflexive(a);
    text::lex_less_irreflexive(b);
    text::lex_less_irreflexive(c);
    text::lex_less_total(a, b);
    text::lex_less_total(b, c);
    text::lex_less_total(a, c);
    if text::lex_less(a, b) && text::lex_less(b, c) {
        text::lex_less_transitive(a, b, c);
    }
    if text::lex_less(a, b) && text::lex_less(b, a) {
        text::lex_less_transitive(a, b, a);
    }
    if text::lex_less(c, a) && text::lex_less(a, b) {
        text::lex_less_transitive(c, a, b);
    }
}

impl Order<S3Object> for NewestFirst {
    open spec fn before(a: S3Object, b: S3Object) -> bool {
        newest_before(a@, b@)
    }

    proof fn is_strict(a: S3Object, b: S3Object, c: S3Object) {
        keys_chain(a@.key, b@.key, c@.key);
    }

    fn is_before(a: &S3Object, b: &S3Object) -> (result: bool) {
        b.last_modified.is_before(&a.last_modified) || (a.last_modified.is_same(&b.last_modified)
            && text_less(a.key.as_str(), b.key.as_str()))
    }
}

impl Order<S3Object> for OldestFirst {
    open spec fn before(a: S3Object, b: S3Object) -> bool {
        oldest_before(a@, b@)
    }

    proof fn is_strict(a: S3Object, b: S3Object, c: S3Object) {
        keys_chain(a@.key, b@.key, c@.key);
    }

    fn is_before(a: &S3Object, b: &S3Object) -> (result: bool) {
        a.last_modified.is_before(&b.last_modified) || (a.last_modified.is_same(&b.last_modified)
            && text_less(a.key.as_str(), b.key.as_str()))
    }
}

/// The last observation of every key.
pub open spec fn contents(objects: Seq<ObjectView>) -> Objects
    decreases objects.len(),
{
    if objects.len() == 0 {
        Map::empty()
    } else {
        contents(objects.drop_last()).insert(objects.last().key, objects.last())
    }
}

/// Whether a sequence holds exactly the objects of a map, in a strict order.
pub open spec fn lists(
    sequence: Seq<ObjectView>,
    objects: Objects,
    before: spec_fn(ObjectView, ObjectView) -> bool,
) -> bool {
    &&& sorting::strictly_in_order(sequence, before)
    &&& forall|object: ObjectView| #[trigger]
        sequence.contains(object) <==> (objects.contains_key(object.key) && objects[object.key]
            == object)
}

/// The objects, newest arrival first.
pub open spec fn newest_listing(objects: Objects) -> Seq<ObjectView> {
    choose|sequence: Seq<ObjectView>| lists(sequence, objects, newest_order())
}

/// The objects, oldest arrival first.
pub open spec fn oldest_listing(objects: Objects) -> Seq<ObjectView> {
    choose|sequence: Seq<ObjectView>| lists(sequence, objects, oldest_order())
}

/// A newest-first listing is determined by the objects that it lists.
pub proof fn newest_listing_is_unique(sequence: Seq<ObjectView>, objects: Objects)
    requires
        lists(sequence, objects, newest_order()),
    ensures
        sequence == newest_listing(objects),
{
    assert forall|x: ObjectView| !#[trigger] newest_order()(x, x) by {
        keys_chain(x.key, x.key, x.key);
    }
    assert forall|x: ObjectView, y: ObjectView, z: ObjectView| #[trigger]
        newest_order()(x, y) && #[trigger] newest_order()(y, z) implies newest_order()(x, z) by {
        keys_chain(x.key, y.key, z.key);
    }
    let other = newest_listing(objects);
    assert(lists(other, objects, newest_order()));
    assert forall|x: ObjectView| sequence.contains(x) <==> other.contains(x) by {}
    sorting::strict_order_is_unique(sequence, other, newest_order());
}

/// An oldest-first listing is determined by the objects that it lists.
pub proof fn oldest_listing_is_unique(sequence: Seq<ObjectView>, objects: Objects)
    requires
        lists(sequence, objects, oldest_order()),
    ensures
        sequence == oldest_listing(objects),
{
    assert forall|x: ObjectView| !#[trigger] oldest_order()(x, x) by {
        keys_chain(x.key, x.key, x.key);
    }
    assert forall|x: ObjectView, y: ObjectView, z: ObjectView| #[trigger]
        oldest_order()(x, y) && #[trigger] oldest_order()(y, z) implies oldest_order()(x, z) by {
        keys_chain(x.key, y.key, z.key);
    }
    let other = oldest_listing(objects);
    assert(lists(other, objects, oldest_order()));
    assert forall|x: ObjectView| sequence.contains(x) <==> other.contains(x) by {}
    sorting::strict_order_is_unique(sequence, other, oldest_order());
}

/// Whether no key occurs twice.
pub open spec fn distinct_keys(objects: Seq<ObjectView>) -> bool {
    forall|i: int, j: int|
        #![trigger objects[i], objects[j]]
        0 <= i < j < objects.len() ==> objects[i].key != objects[j].key
}

/// Every entry of [`contents`] is an observation under its own key.
pub proof fn contents_are_observations(objects: Seq<ObjectView>)
    ensures
        forall|key: Seq<char>| #[trigger]
            contents(objects).contains_key(key) ==> contents(objects)[key].key == key
                && objects.contains(contents(objects)[key]),
        forall|i: int|
            0 <= i < objects.len() ==> contents(objects).contains_key((#[trigger] objects[i]).key),
        contents(objects).dom().finite(),
        contents(objects).dom().len() <= objects.len(),
    decreases objects.len(),
{
    if objects.len() > 0 {
        let front = objects.drop_last();
        contents_are_observations(front);
        assert forall|key: Seq<char>| #[trigger]
            contents(objects).contains_key(key) implies contents(objects)[key].key == key
            && objects.contains(contents(objects)[key]) by {
            if key == objects.last().key {
                assert(objects[objects.len() - 1] == objects.last());
            } else {
                assert(contents(front).contains_key(key));
                let i = choose|i: int| 0 <= i < front.len() && front[i] == contents(front)[key];
                assert(objects[i] == front[i]);
            }
        }
        assert forall|i: int| 0 <= i < objects.len() implies contents(objects).contains_key(
            (#[trigger] objects[i]).key,
        ) by {
            if i < front.len() {
                assert(objects[i] == front[i]);
            }
        }
    }
}

/// Without repeated keys, [`contents`] holds exactly the sequence's objects.
pub proof fn contents_of_distinct(objects: Seq<ObjectView>)
    requires
        distinct_keys(objects),
    ensures
        forall|object: ObjectView| #[trigger]
            objects.contains(object) <==> (contents(objects).contains_key(object.key) && contents(
                objects,
            )[object.key] == object),
        contents(objects).dom().len() == objects.len(),
    decreases objects.len(),
{
    contents_are_observations(objects);
    if objects.len() > 0 {
        let front = objects.drop_last();
        let last = objects.last();
        contents_of_distinct(front);
        contents_are_observations(front);
        if contents(front).contains_key(last.key) {
            let i = choose|i: int| 0 <= i < front.len() && front[i] == contents(front)[last.key];
            assert(objects[i].key == objects[objects.len() - 1].key);
        }
        assert forall|object: ObjectView| #[trigger]
            objects.contains(object) implies contents(objects)[object.key] == object by {
            let i = choose|i: int| 0 <= i < objects.len() && objects[i] == object;
            if i < front.len() {
                assert(front[i] == object);
                assert(front.contains(object));
            }
        }
    }
}

/// The last observations of two listings in a row.
proof fn contents_of_both(first: Seq<ObjectView>, second: Seq<ObjectView>)
    ensures
        contents(first + second) == contents(first).union_prefer_right(contents(second)),
    decreases second.len(),
{
    if second.len() == 0 {
        assert(first + second =~= first);
        assert(contents(first).union_prefer_right(contents(second)) =~= contents(first));
    } else {
        contents_of_both(first, second.drop_last());
        assert((first + second).drop_last() =~= first + second.drop_last());
        assert(contents(first).union_prefer_right(contents(second)) =~= contents(
            first,
        ).union_prefer_right(contents(second.drop_last())).insert(
            second.last().key,
            second.last(),
        ));
    }
}

/// The last observation of every key of a list of objects.
pub open spec fn index(objects: Seq<S3Object>) -> Objects {
    contents(model::objects_view(objects))
}

/// Whether objects stand in ascending order of their keys, none of them twice.
pub open spec fn by_key(objects: Seq<S3Object>) -> bool {
    forall|i: int, j: int|
        #![trigger objects[i], objects[j]]
        0 <= i < j < objects.len() ==> text::lex_less(objects[i].key@, objects[j].key@)
}

proof fn by_key_is_distinct(objects: Seq<S3Object>)
    requires
        by_key(objects),
    ensures
        distinct_keys(model::objects_view(objects)),
{
    let views = model::objects_view(objects);
    assert forall|i: int, j: int|
        #![trigger views[i], views[j]]
        0 <= i < j < views.len() implies views[i].key != views[j].key by {
        assert(text::lex_less(objects[i].key@, objects[j].key@));
        text::lex_less_irreflexive(views[i].key);
    }
}

/// What an index of ordered objects holds, object by object.
proof fn index_holds(objects: Seq<S3Object>)
    requires
        by_key(objects),
    ensures
        forall|i: int|
            0 <= i < objects.len() ==> index(objects).contains_key((#[trigger] objects[i]).key@)
                && index(objects)[objects[i].key@] == objects[i]@,
        forall|key: Seq<char>| #[trigger]
            index(objects).contains_key(key) ==> exists|i: int|
                0 <= i < objects.len() && (#[trigger] objects[i]).key@ == key,
        index(objects).dom().finite(),
        index(objects).dom().len() == objects.len(),
{
    let views = model::objects_view(objects);
    by_key_is_distinct(objects);
    contents_of_distinct(views);
    contents_are_observations(views);
    assert forall|i: int| 0 <= i < objects.len() implies index(objects).contains_key(
        (#[trigger] objects[i]).key@,
    ) && index(objects)[objects[i].key@] == objects[i]@ by {
        assert(views[i] == objects[i]@);
        assert(views.contains(views[i]));
    }
    assert forall|key: Seq<char>| #[trigger] index(objects).contains_key(key) implies exists|i: int|
        0 <= i < objects.len() && (#[trigger] objects[i]).key@ == key by {
        let i = choose|i: int| 0 <= i < views.len() && views[i] == contents(views)[key];
        assert(objects[i].key@ == key);
    }
}

proof fn index_of_push(objects: Seq<S3Object>, object: S3Object)
    ensures
        index(objects.push(object)) == index(objects).insert(object.key@, object@),
{
    let views = model::objects_view(objects.push(object));
    assert(views.drop_last() =~= model::objects_view(objects));
    assert(views.last() == object@);
}

/// Where a key stands in ordered objects.
fn find(objects: &Vec<S3Object>, key: &str) -> (at: Option<usize>)
    requires
        by_key(objects@),
    ensures
        match at {
            Some(i) => i < objects@.len() && objects@[i as int].key@ == key@,
            None => forall|i: int| 0 <= i < objects@.len() ==> (#[trigger] objects@[i]).key@ != key@,
        },
        at is Some == index(objects@).contains_key(key@),
        at matches Some(i) ==> index(objects@)[key@] == objects@[i as int]@,
{
    proof {
        index_holds(objects@);
    }
    let mut low: usize = 0;
    let mut high: usize = objects.len();
    while low < high
        invariant
            by_key(objects@),
            low <= high <= objects@.len(),
            forall|i: int| 0 <= i < low ==> text::lex_less((#[trigger] objects@[i]).key@, key@),
            forall|i: int|
                high <= i < objects@.len() ==> text::lex_less(key@, (#[trigger] objects@[i]).key@),
            forall|i: int|
                0 <= i < objects@.len() ==> index(objects@).contains_key(
                    (#[trigger] objects@[i]).key@,
                ) && index(objects@)[objects@[i].key@] == objects@[i]@,
            forall|key: Seq<char>| #[trigger]
                index(objects@).contains_key(key) ==> exists|i: int|
                    0 <= i < objects@.len() && (#[trigger] objects@[i]).key@ == key,
        decreases high - low,
    {
        let middle: usize = low + (high - low) / 2;
        let candidate = objects[middle].key.as_str();
        if text_less(candidate, key) {
            proof {
                assert forall|i: int| 0 <= i <= middle implies text::lex_less(
                    (#[trigger] objects@[i]).key@,
                    key@,
                ) by {
                    keys_chain(objects@[i].key@, objects@[middle as int].key@, key@);
                }
            }
            low = middle + 1;
        } else if text_less(key, candidate) {
            proof {
                assert forall|i: int| middle <= i < objects@.len() implies text::lex_less(
                    key@,
                    (#[trigger] objects@[i]).key@,
                ) by {
                    keys_chain(key@, objects@[middle as int].key@, objects@[i].key@);
                }
            }
            high = middle;
        } else {
            proof {
                keys_chain(candidate@, key@, key@);
            }
            return Some(middle);
        }
    }
    assert forall|i: int| 0 <= i < objects@.len() implies (#[trigger] objects@[i]).key@ != key@ by {
        keys_chain(key@, objects@[i].key@, key@);
    }
    None
}

/// The keys of `objects` are all less than `key`.
pub open spec fn keys_below(objects: Seq<S3Object>, key: Seq<char>) -> bool {
    forall|i: int| 0 <= i < objects.len() ==> text::lex_less((#[trigger] objects[i]).key@, key)
}

proof fn index_is_below(objects: Seq<S3Object>, key: Seq<char>)
    requires
        by_key(objects),
        keys_below(objects, key),
    ensures
        !index(objects).contains_key(key),
{
    index_holds(objects);
    text::lex_less_irreflexive(key);
}

/// The order of the objects does not matter to their index.
proof fn index_of_reverse(objects: Seq<S3Object>)
    requires
        distinct_keys(model::objects_view(objects)),
    ensures
        index(objects.reverse()) == index(objects),
{
    let views = model::objects_view(objects);
    let back = model::objects_view(objects.reverse());
    assert(back =~= views.reverse());
    assert forall|i: int, j: int|
        #![trigger back[i], back[j]]
        0 <= i < j < back.len() implies back[i].key != back[j].key by {
        assert(back[i] == views[views.len() - 1 - i]);
        assert(back[j] == views[views.len() - 1 - j]);
    }
    contents_of_distinct(views);
    contents_of_distinct(back);
    contents_are_observations(views);
    contents_are_observations(back);
    assert forall|object: ObjectView| views.contains(object) == back.contains(object) by {
        if views.contains(object) {
            let i = choose|i: int| 0 <= i < views.len() && views[i] == object;
            assert(back[views.len() - 1 - i] == object);
        }
        if back.contains(object) {
            let i = choose|i: int| 0 <= i < back.len() && back[i] == object;
            assert(views[views.len() - 1 - i] == object);
        }
    }
    assert forall|key: Seq<char>|
        contents(views).contains_key(key) == contents(back).contains_key(key) by {
        if contents(views).contains_key(key) {
            assert(back.contains(contents(views)[key]));
        }
        if contents(back).contains_key(key) {
            assert(views.contains(contents(back)[key]));
        }
    }
    assert forall|key: Seq<char>| #[trigger] contents(views).contains_key(key) implies contents(
        views,
    )[key] == contents(back)[key] by {
        assert(back.contains(contents(views)[key]));
    }
    assert(contents(views) =~= contents(back));
}

/// Joins two ordered lists; where both hold a key, the second one's object stays.
fn merge_by_key(left: Vec<S3Object>, right: Vec<S3Object>) -> (result: Vec<S3Object>)
    requires
        by_key(left@),
        by_key(right@),
    ensures
        by_key(result@),
        index(result@) == index(left@).union_prefer_right(index(right@)),
{
    let ghost goal = index(left@).union_prefer_right(index(right@));
    let mut left: Vec<S3Object> = left;
    let mut right: Vec<S3Object> = right;
    let mut backwards: Vec<S3Object> = Vec::new();
    proof {
        assert(model::objects_view(backwards@) =~= Seq::empty());
        assert(goal =~= index(left@).union_prefer_right(index(right@)).union_prefer_right(
            index(backwards@),
        ));
    }
    while left.len() > 0 || right.len() > 0
        invariant
            by_key(left@),
            by_key(right@),
            forall|i: int, j: int|
                #![trigger backwards@[i], backwards@[j]]
                0 <= i < j < backwards@.len() ==> text::lex_less(
                    backwards@[j].key@,
                    backwards@[i].key@,
                ),
            forall|j: int|
                0 <= j < backwards@.len() ==> keys_below(left@, (#[trigger] backwards@[j]).key@)
                    && keys_below(right@, backwards@[j].key@),
            goal == index(left@).union_prefer_right(index(right@)).union_prefer_right(
                index(backwards@),
            ),
        decreases left@.len() + right@.len(),
    {
        let ghost lefts = left@;
        let ghost rights = right@;
        let ghost outs = backwards@;
        let take_left: bool = left.len() > 0 && (right.len() == 0 || !text_less(
            left[left.len() - 1].key.as_str(),
            right[right.len() - 1].key.as_str(),
        ));
        let take_right: bool = right.len() > 0 && (left.len() == 0 || !text_less(
            right[right.len() - 1].key.as_str(),
            left[left.len() - 1].key.as_str(),
        ));
        let ghost top: S3Object = if take_right {
            rights.last()
        } else {
            lefts.last()
        };
        proof {
            if lefts.len() > 0 && rights.len() > 0 {
                keys_chain(lefts.last().key@, rights.last().key@, lefts.last().key@);
            }
            index_of_push(outs, top);
            assert forall|j: int| 0 <= j < outs.len() implies text::lex_less(
                top.key@,
                (#[trigger] outs[j]).key@,
            ) by {
                if take_right {
                    assert(keys_below(rights, outs[j].key@));
                } else {
                    assert(keys_below(lefts, outs[j].key@));
                }
            }
            assert(!index(outs).contains_key(top.key@)) by {
                contents_are_observations(model::objects_view(outs));
                let views = model::objects_view(outs);
                if index(outs).contains_key(top.key@) {
                    let j = choose|j: int|
                        0 <= j < views.len() && views[j] == contents(views)[top.key@];
                    assert(outs[j].key@ == top.key@);
                    text::lex_less_irreflexive(top.key@);
                }
            }
            if lefts.len() > 0 {
                assert(lefts =~= lefts.drop_last().push(lefts.last()));
                index_of_push(lefts.drop_last(), lefts.last());
                index_is_below(lefts.drop_last(), lefts.last().key@);
            }
            if rights.len() > 0 {
                assert(rights =~= rights.drop_last().push(rights.last()));
                index_of_push(rights.drop_last(), rights.last());
                index_is_below(rights.drop_last(), rights.last().key@);
            }
            if take_left && !take_right {
                assert forall|i: int| 0 <= i < rights.len() implies text::lex_less(
                    (#[trigger] rights[i]).key@,
                    top.key@,
                ) by {
                    keys_chain(rights[i].key@, rights.last().key@, top.key@);
                }
                index_is_below(rights, top.key@);
            }
            if take_right && !take_left {
                assert forall|i: int| 0 <= i < lefts.len() implies text::lex_less(
                    (#[trigger] lefts[i]).key@,
                    top.key@,
                ) by {
                    keys_chain(lefts[i].key@, lefts.last().key@, top.key@);
                }
                index_is_below(lefts, top.key@);
            }
        }
        if take_right {
            let item = right.pop();
            if take_left {
                let _ = left.pop();
            }
            if let Some(object) = item {
                backwards.push(object);
            }
        } else {
            let item = left.pop();
            if let Some(object) = item {
                backwards.push(object);
            }
        }
        assert(backwards@ == outs.push(top));
        assert(keys_below(left@, top.key@));
        assert(keys_below(right@, top.key@));
        assert(goal =~= index(left@).union_prefer_right(index(right@)).union_prefer_right(
            index(backwards@),
        ));
    }
    proof {
        assert(model::objects_view(left@) =~= Seq::empty());
        assert(model::objects_view(right@) =~= Seq::empty());
        assert(goal =~= index(backwards@));
        let views = model::objects_view(backwards@);
        assert forall|i: int, j: int|
            #![trigger views[i], views[j]]
            0 <= i < j < views.len() implies views[i].key != views[j].key by {
            assert(text::lex_less(backwards@[j].key@, backwards@[i].key@));
            text::lex_less_irreflexive(views[i].key);
        }
        index_of_reverse(backwards@);
    }
    reversed(backwards)
}

/// Orders observations by key, keeping the last one of every key.
fn order_by_key(objects: Vec<S3Object>) -> (result: Vec<S3Object>)
    ensures
        by_key(result@),
        index(result@) == index(objects@),
    decreases objects@.len(),
{
    if objects.len() <= 1 {
        return objects;
    }
    let ghost all = objects@;
    let mut front: Vec<S3Object> = objects;
    let middle: usize = front.len() / 2;
    let back: Vec<S3Object> = front.split_off(middle);
    proof {
        contents_of_both(model::objects_view(front@), model::objects_view(back@));
        assert(model::objects_view(all) =~= model::objects_view(front@) + model::objects_view(
            back@,
        ));
    }
    merge_by_key(order_by_key(front), order_by_key(back))
}

/// At most the first `count` of a sequence.
pub open spec fn first<T>(sequence: Seq<T>, count: nat) -> Seq<T> {
    if count < sequence.len() {
        sequence.take(count as int)
    } else {
        sequence
    }
}

/// The newest objects that a history of some capacity keeps.
pub open spec fn retained(objects: Objects, capacity: nat) -> Objects {
    contents(first(newest_listing(objects), capacity))
}

/// The objects known once a listing has been seen.
pub open spec fn known_after(old: Objects, listing: Seq<ObjectView>) -> Objects {
    old.union_prefer_right(contents(listing))
}

/// What a history holds once a listing has been applied.
pub open spec fn history_after(old: Objects, listing: Seq<ObjectView>, capacity: nat) -> Objects {
    retained(known_after(old, listing), capacity)
}

/// The listed objects that are kept and that were unknown or said otherwise.
pub open spec fn changed(old: Objects, listing: Seq<ObjectView>, kept: Objects) -> Objects {
    contents(listing).restrict(
        Set::new(
            |key: Seq<char>|
                contents(listing).contains_key(key) && kept.contains_key(key) && !(
                old.contains_key(key) && old[key] == contents(listing)[key]),
        ),
    )
}

/// How a changed object is reported.
pub open spec fn described(old: Objects, object: ObjectView) -> ChangeView {
    if old.contains_key(object.key) {
        ChangeView {
            kind: ObjectChangeKind::Updated,
            object,
            previous: Some(old[object.key]),
        }
    } else {
        ChangeView { kind: ObjectChangeKind::Added, object, previous: None }
    }
}

/// The changes that a listing makes, newest first.
pub open spec fn changes_after(old: Objects, listing: Seq<ObjectView>, capacity: nat) -> Seq<
    ChangeView,
> {
    newest_listing(changed(old, listing, history_after(old, listing, capacity))).map_values(
        |object: ObjectView| described(old, object),
    )
}

/// The formerly retained objects that a listing pushes out.
pub open spec fn pushed_out(old: Objects, listing: Seq<ObjectView>, capacity: nat) -> Objects {
    let kept = history_after(old, listing, capacity);
    known_after(old, listing).restrict(
        Set::new(|key: Seq<char>| old.contains_key(key) && !kept.contains_key(key)),
    )
}

/// The formerly retained objects that a listing pushes out, oldest first.
pub open spec fn evicted_after(old: Objects, listing: Seq<ObjectView>, capacity: nat) -> Seq<
    ObjectView,
> {
    oldest_listing(pushed_out(old, listing, capacity))
}

/// Sorting keeps keys distinct and changes neither the objects nor their number.
proof fn sorting_keeps_objects(input: Seq<S3Object>, output: Seq<S3Object>)
    requires
        by_key(input),
        output.to_multiset() == input.to_multiset(),
        output.len() == input.len(),
        forall|object: S3Object| output.contains(object) <==> input.contains(object),
    ensures
        distinct_keys(model::objects_view(output)),
        forall|object: ObjectView| #[trigger]
            model::objects_view(output).contains(object) <==> (index(input).contains_key(object.key)
                && index(input)[object.key] == object),
{
    index_holds(input);
    by_key_is_distinct(input);
    let views = model::objects_view(output);
    assert(input.no_duplicates()) by {
        assert forall|i: int, j: int| 0 <= i < input.len() && 0 <= j < input.len() && i != j implies
            input[i] != input[j] by {
            if i < j {
                text::lex_less_irreflexive(input[i].key@);
            } else {
                text::lex_less_irreflexive(input[j].key@);
            }
        }
    }
    input.lemma_multiset_has_no_duplicates();
    output.lemma_multiset_has_no_duplicates_conv();
    assert forall|i: int, j: int|
        #![trigger views[i], views[j]]
        0 <= i < j < views.len() implies views[i].key != views[j].key by {
        assert(output.contains(output[i]));
        assert(output.contains(output[j]));
        let p = choose|p: int| 0 <= p < input.len() && input[p] == output[i];
        let q = choose|q: int| 0 <= q < input.len() && input[q] == output[j];
        assert(p != q);
        if p < q {
            keys_chain(input[p].key@, input[q].key@, input[p].key@);
        } else {
            keys_chain(input[q].key@, input[p].key@, input[q].key@);
        }
    }
    assert forall|object: ObjectView| #[trigger] views.contains(object) <==> (index(
        input,
    ).contains_key(object.key) && index(input)[object.key] == object) by {
        if views.contains(object) {
            let i = choose|i: int| 0 <= i < views.len() && views[i] == object;
            assert(output.contains(output[i]));
            let p = choose|p: int| 0 <= p < input.len() && input[p] == output[i];
            assert(input[p]@ == object);
        }
        if index(input).contains_key(object.key) && index(input)[object.key] == object {
            let p = choose|p: int| 0 <= p < input.len() && (#[trigger] input[p]).key@ == object.key;
            assert(input[p]@ == object);
            assert(output.contains(input[p]));
            let i = choose|i: int| 0 <= i < output.len() && output[i] == input[p];
            assert(views[i] == object);
        }
    }
}

/// The objects of an ordered list, newest first.
fn list_newest(objects: Vec<S3Object>) -> (listing: Vec<S3Object>)
    requires
        by_key(objects@),
    ensures
        model::objects_view(listing@) == newest_listing(index(objects@)),
        lists(model::objects_view(listing@), index(objects@), newest_order()),
        listing@.len() == objects@.len(),
{
    let ghost input = objects@;
    let listing = sort::<S3Object, NewestFirst>(objects);
    proof {
        sorting_keeps_objects(input, listing@);
        let views = model::objects_view(listing@);
        assert forall|i: int, j: int|
            #![trigger views[i], views[j]]
            0 <= i < j < views.len() implies newest_order()(views[i], views[j]) by {
            assert(!NewestFirst::before(listing@[j], listing@[i]));
            keys_chain(views[i].key, views[j].key, views[i].key);
        }
        newest_listing_is_unique(views, index(input));
    }
    listing
}

/// The objects of an ordered list, oldest first.
fn list_oldest(objects: Vec<S3Object>) -> (listing: Vec<S3Object>)
    requires
        by_key(objects@),
    ensures
        model::objects_view(listing@) == oldest_listing(index(objects@)),
        lists(model::objects_view(listing@), index(objects@), oldest_order()),
        listing@.len() == objects@.len(),
{
    let ghost input = objects@;
    let listing = sort::<S3Object, OldestFirst>(objects);
    proof {
        sorting_keeps_objects(input, listing@);
        let views = model::objects_view(listing@);
        assert forall|i: int, j: int|
            #![trigger views[i], views[j]]
            0 <= i < j < views.len() implies oldest_order()(views[i], views[j]) by {
            assert(!OldestFirst::before(listing@[j], listing@[i]));
            keys_chain(views[i].key, views[j].key, views[i].key);
        }
        oldest_listing_is_unique(views, index(input));
    }
    listing
}

/// Copies of objects say the same, so they are ordered and indexed alike.
proof fn same_views_same_index(a: Seq<S3Object>, b: Seq<S3Object>)
    requires
        model::objects_view(a) == model::objects_view(b),
        by_key(a),
    ensures
        by_key(b),
        index(b) == index(a),
{
    assert(a.len() == model::objects_view(a).len());
    assert(b.len() == model::objects_view(b).len());
    assert forall|i: int, j: int|
        #![trigger b[i], b[j]]
        0 <= i < j < b.len() implies text::lex_less(b[i].key@, b[j].key@) by {
        assert(b[i]@ == model::objects_view(b)[i]);
        assert(b[j]@ == model::objects_view(b)[j]);
        assert(a[i]@ == model::objects_view(a)[i]);
        assert(a[j]@ == model::objects_view(a)[j]);
        assert(text::lex_less(a[i].key@, a[j].key@));
    }
}

/// In-memory arrival history bounded by object count.
///
/// Object keys are identities. A second observation with changed metadata is
/// an update, while an identical observation is ignored. Retention always
/// keeps the newest arrivals; ties are resolved by key so results do not
/// depend on pagination or input order.
#[derive(Debug)]
pub struct RollingHistory {
    capacity: usize,
    expected_interval_seconds: Option<u64>,
    objects: Vec<S3Object>,
}

impl View for RollingHistory {
    type V = Objects;

    closed spec fn view(&self) -> Objects {
        index(self.objects@)
    }
}

impl RollingHistory {
    #[verifier::type_invariant]
    closed spec fn well_formed(self) -> bool {
        &&& self.capacity > 0
        &&& self.expected_interval_seconds != Some(0u64)
        &&& by_key(self.objects@)
        &&& self.objects@.len() <= self.capacity
    }

    /// The most objects that the history holds.
    pub closed spec fn limit(&self) -> usize {
        self.capacity
    }

    /// The configured cadence, if any.
    pub closed spec fn cadence(&self) -> Option<u64> {
        self.expected_interval_seconds
    }

    /// An empty history that learns its cadence.
    pub fn new(capacity: usize) -> (result: Result<Self, ConfigError>)
        ensures
            match result {
                Ok(history) => {
                    &&& capacity > 0
                    &&& history@ == Map::<Seq<char>, ObjectView>::empty()
                    &&& history.limit() == capacity
                    &&& history.cadence() is None
                },
                Err(error) => capacity == 0 && error == ConfigError::ZeroHistoryCapacity,
            },
    {
        Self::with_expected_interval(capacity, None)
    }

    /// An empty history with a configured cadence.
    pub fn with_expected_interval(
        capacity: usize,
        expected_interval_seconds: Option<u64>,
    ) -> (result: Result<Self, ConfigError>)
        ensures
            match result {
                Ok(history) => {
                    &&& capacity > 0
                    &&& expected_interval_seconds != Some(0u64)
                    &&& history@ == Map::<Seq<char>, ObjectView>::empty()
                    &&& history.limit() == capacity
                    &&& history.cadence() == expected_interval_seconds
                },
                Err(error) => if capacity == 0 {
                    error == ConfigError::ZeroHistoryCapacity
                } else {
                    expected_interval_seconds == Some(0u64) && error
                        == ConfigError::ZeroExpectedInterval
                },
            },
    {
        if capacity == 0 {
            return Err(ConfigError::ZeroHistoryCapacity);
        }
        if let Some(seconds) = expected_interval_seconds {
            if seconds == 0 {
                return Err(ConfigError::ZeroExpectedInterval);
            }
        }
        let objects: Vec<S3Object> = Vec::new();
        assert(model::objects_view(objects@) =~= Seq::empty());
        Ok(RollingHistory { capacity, expected_interval_seconds, objects })
    }

    /// A history with the same settings that holds nothing.
    pub fn emptied(&self) -> (history: Self)
        ensures
            history@ == Map::<Seq<char>, ObjectView>::empty(),
            history.limit() == self.limit(),
            history.cadence() == self.cadence(),
    {
        proof {
            use_type_invariant(self);
        }
        let objects: Vec<S3Object> = Vec::new();
        assert(model::objects_view(objects@) =~= Seq::empty());
        RollingHistory {
            capacity: self.capacity,
            expected_interval_seconds: self.expected_interval_seconds,
            objects,
        }
    }

    /// The most objects that the history holds.
    pub fn capacity(&self) -> (capacity: usize)
        ensures
            capacity == self.limit(),
            capacity > 0,
    {
        proof {
            use_type_invariant(self);
        }
        self.capacity
    }

    /// The configured cadence, if any.
    pub fn expected_interval_seconds(&self) -> (seconds: Option<u64>)
        ensures
            seconds == self.cadence(),
            seconds != Some(0u64),
    {
        proof {
            use_type_invariant(self);
        }
        self.expected_interval_seconds
    }

    /// Replaces the configured cadence; a cadence of zero is refused.
    pub fn set_expected_interval_seconds(
        &mut self,
        expected_interval_seconds: Option<u64>,
    ) -> (result: Result<(), ConfigError>)
        ensures
            final(self)@ == old(self)@,
            final(self).limit() == old(self).limit(),
            match result {
                Ok(()) => {
                    &&& expected_interval_seconds != Some(0u64)
                    &&& final(self).cadence() == expected_interval_seconds
                },
                Err(error) => {
                    &&& expected_interval_seconds == Some(0u64)
                    &&& error == ConfigError::ZeroExpectedInterval
                    &&& final(self).cadence() == old(self).cadence()
                },
            },
    {
        proof {
            use_type_invariant(&*self);
        }
        if let Some(seconds) = expected_interval_seconds {
            if seconds == 0 {
                return Err(ConfigError::ZeroExpectedInterval);
            }
        }
        self.expected_interval_seconds = expected_interval_seconds;
        Ok(())
    }

    /// The number of objects held, each under its own key and never more than the
    /// capacity.
    pub fn len(&self) -> (length: usize)
        ensures
            retention::well_keyed(self@),
            length == self@.dom().len(),
            length <= self.limit(),
    {
        proof {
            use_type_invariant(self);
            index_holds(self.objects@);
            assert forall|key: Seq<char>| #[trigger] self@.contains_key(key) implies self@[key].key
                == key by {
                let i = choose|i: int|
                    0 <= i < self.objects@.len() && (#[trigger] self.objects@[i]).key@ == key;
                assert(self@[self.objects@[i].key@] == self.objects@[i]@);
            }
        }
        self.objects.len()
    }

    /// Whether no object is held.
    pub fn is_empty(&self) -> (result: bool)
        ensures
            result == (self@ == Map::<Seq<char>, ObjectView>::empty()),
    {
        proof {
            use_type_invariant(self);
            index_holds(self.objects@);
            if self.objects@.len() == 0 {
                assert(model::objects_view(self.objects@) =~= Seq::empty());
            } else {
                assert(self@.contains_key(self.objects@[0].key@));
            }
        }
        self.objects.len() == 0
    }

    /// Whether an object with this key is held.
    pub fn contains_key(&self, key: &str) -> (result: bool)
        ensures
            result == self@.contains_key(key@),
    {
        proof {
            use_type_invariant(self);
        }
        find(&self.objects, key).is_some()
    }

    /// The object with this key.
    pub fn get(&self, key: &str) -> (object: Option<&S3Object>)
        ensures
            match object {
                Some(held) => self@.contains_key(key@) && held@ == self@[key@],
                None => !self@.contains_key(key@),
            },
    {
        proof {
            use_type_invariant(self);
        }
        match find(&self.objects, key) {
            Some(i) => Some(&self.objects[i]),
            None => None,
        }
    }

    /// The objects, newest first, with key-ascending tie breaking.
    pub fn objects(&self) -> (objects: Vec<S3Object>)
        ensures
            model::objects_view(objects@) == newest_listing(self@),
            lists(model::objects_view(objects@), self@, newest_order()),
            objects@.len() <= self.limit(),
    {
        proof {
            use_type_invariant(self);
        }
        let copy = clone_objects(&self.objects);
        proof {
            assert(model::objects_view(copy@).len() == model::objects_view(self.objects@).len());
            same_views_same_index(self.objects@, copy@);
        }
        list_newest(copy)
    }

    /// The objects, oldest first, with key-ascending tie breaking.
    pub fn chronological_objects(&self) -> (objects: Vec<S3Object>)
        ensures
            model::objects_view(objects@) == oldest_listing(self@),
            lists(model::objects_view(objects@), self@, oldest_order()),
            objects@.len() <= self.limit(),
    {
        proof {
            use_type_invariant(self);
        }
        let copy = clone_objects(&self.objects);
        proof {
            assert(model::objects_view(copy@).len() == model::objects_view(self.objects@).len());
            same_views_same_index(self.objects@, copy@);
        }
        list_oldest(copy)
    }

    /// Applies one observation.
    pub fn upsert(&mut self, object: S3Object) -> (update: HistoryUpdate)
        ensures
            final(self).limit() == old(self).limit(),
            final(self).cadence() == old(self).cadence(),
            final(self)@ == history_after(old(self)@, seq![object@], old(self).limit() as nat),
            model::changes_view(update.changes@) == changes_after(
                old(self)@,
                seq![object@],
                old(self).limit() as nat,
            ),
            model::objects_view(update.evicted@) == evicted_after(
                old(self)@,
                seq![object@],
                old(self).limit() as nat,
            ),
    {
        let mut objects: Vec<S3Object> = Vec::new();
        let ghost view = object@;
        objects.push(object);
        assert(model::objects_view(objects@) =~= seq![view]);
        self.upsert_many(objects)
    }

    /// Atomically applies a listing and enforces the configured capacity.
    /// Duplicate keys within the input use the final observation.
    pub fn upsert_many(&mut self, objects: Vec<S3Object>) -> (update: HistoryUpdate)
        ensures
            final(self).limit() == old(self).limit(),
            final(self).cadence() == old(self).cadence(),
            final(self)@ == history_after(
                old(self)@,
                model::objects_view(objects@),
                old(self).limit() as nat,
            ),
            model::changes_view(update.changes@) == changes_after(
                old(self)@,
                model::objects_view(objects@),
                old(self).limit() as nat,
            ),
            model::objects_view(update.evicted@) == evicted_after(
                old(self)@,
                model::objects_view(objects@),
                old(self).limit() as nat,
            ),
    {
        proof {
            use_type_invariant(&*self);
        }
        let ghost listing = model::objects_view(objects@);
        let ghost before = self@;
        let capacity: usize = self.capacity;
        let incoming = order_by_key(objects);
        let known = merge_known(&self.objects, &incoming);
        let kept = keep_newest(&known, capacity);
        let changes = describe_changes(&self.objects, &incoming, &kept);
        let evicted = list_evicted(&self.objects, &known, &kept);
        self.objects = kept;
        HistoryUpdate { changes, evicted }
    }

    /// The intervals between consecutive arrivals, oldest first.
    pub fn intervals(&self) -> (intervals: Vec<ArrivalInterval>)
        ensures
            intervals@.map_values(|interval: ArrivalInterval| interval@)
                == statistics::intervals_of(oldest_listing(self@)),
    {
        intervals_for(&self.chronological_objects())
    }

    /// The statistics at an instant. A given cadence takes precedence over the
    /// configured one.
    pub fn statistics_at(
        &self,
        as_of: Timestamp,
        expected_interval_seconds: Option<u64>,
    ) -> (result: ArrivalStatistics)
        ensures
            result@ == statistics::statistics_of(
                oldest_listing(self@),
                as_of@,
                effective_cadence(expected_interval_seconds, self.cadence()),
            ),
    {
        let expected: Option<u64> = match expected_interval_seconds {
            Some(seconds) => Some(seconds),
            None => self.expected_interval_seconds,
        };
        statistics_for(&self.chronological_objects(), as_of, expected)
    }

    /// The statistics now, which the result dates.
    pub fn statistics(&self, expected_interval_seconds: Option<u64>) -> (result: ArrivalStatistics)
        ensures
            result@ == statistics::statistics_of(
                oldest_listing(self@),
                result.as_of@,
                effective_cadence(expected_interval_seconds, self.cadence()),
            ),
    {
        self.statistics_at(Timestamp::now(), expected_interval_seconds)
    }

    /// The whole history as one value at an instant.
    pub fn snapshot_at(
        &self,
        as_of: Timestamp,
        expected_interval_seconds: Option<u64>,
    ) -> (snapshot: HistorySnapshot)
        ensures
            model::objects_view(snapshot.objects@) == newest_listing(self@),
            snapshot.intervals@.map_values(|interval: ArrivalInterval| interval@)
                == statistics::intervals_of(oldest_listing(self@)),
            snapshot.statistics@ == statistics::statistics_of(
                oldest_listing(self@),
                as_of@,
                effective_cadence(expected_interval_seconds, self.cadence()),
            ),
    {
        HistorySnapshot {
            objects: self.objects(),
            intervals: self.intervals(),
            statistics: self.statistics_at(as_of, expected_interval_seconds),
        }
    }

    /// The whole history as one value now.
    pub fn snapshot(&self, expected_interval_seconds: Option<u64>) -> (snapshot: HistorySnapshot)
        ensures
            model::objects_view(snapshot.objects@) == newest_listing(self@),
            snapshot.intervals@.map_values(|interval: ArrivalInterval| interval@)
                == statistics::intervals_of(oldest_listing(self@)),
            snapshot.statistics@ == statistics::statistics_of(
                oldest_listing(self@),
                snapshot.statistics.as_of@,
                effective_cadence(expected_interval_seconds, self.cadence()),
            ),
    {
        self.snapshot_at(Timestamp::now(), expected_interval_seconds)
    }
}

/// A cadence that is asked for takes precedence over the configured one.
pub open spec fn effective_cadence(asked: Option<u64>, configured: Option<u64>) -> Option<u64> {
    if asked is Some {
        asked
    } else {
        configured
    }
}

fn merge_known(held: &Vec<S3Object>, incoming: &Vec<S3Object>) -> (known: Vec<S3Object>)
    requires
        by_key(held@),
        by_key(incoming@),
    ensures
        by_key(known@),
        index(known@) == index(held@).union_prefer_right(index(incoming@)),
{
    let first = clone_objects(held);
    let second = clone_objects(incoming);
    proof {
        same_views_same_index(held@, first@);
        same_views_same_index(incoming@, second@);
    }
    merge_by_key(first, second)
}

/// The newest objects, in key order.
fn keep_newest(known: &Vec<S3Object>, capacity: usize) -> (kept: Vec<S3Object>)
    requires
        by_key(known@),
    ensures
        by_key(kept@),
        index(kept@) == retained(index(known@), capacity as nat),
        kept@.len() <= capacity,
{
    let copy = clone_objects(known);
    proof {
        same_views_same_index(known@, copy@);
    }
    let mut ranked = list_newest(copy);
    let ghost all = model::objects_view(ranked@);
    ranked.truncate(capacity);
    proof {
        assert(model::objects_view(ranked@) =~= first(all, capacity as nat));
        contents_are_observations(model::objects_view(ranked@));
    }
    let kept = order_by_key(ranked);
    proof {
        index_holds(kept@);
    }
    kept
}

/// The objects that are wanted, in key order.
fn pick<P: Fn(&S3Object) -> bool>(
    source: &Vec<S3Object>,
    wanted: P,
    Ghost(goal): Ghost<Objects>,
) -> (picked: Vec<S3Object>)
    requires
        by_key(source@),
        goal.submap_of(index(source@)),
        forall|j: int|
            0 <= j < source@.len() ==> call_requires(wanted, (&#[trigger] source@[j],)),
        forall|j: int, answer: bool|
            0 <= j < source@.len() && #[trigger] call_ensures(wanted, (&source@[j],), answer)
                ==> answer == goal.contains_key(source@[j].key@),
    ensures
        by_key(picked@),
        index(picked@) == goal,
{
    let mut picked: Vec<S3Object> = Vec::new();
    let mut i: usize = 0;
    proof {
        index_holds(source@);
        assert(model::objects_view(picked@) =~= Seq::empty());
    }
    while i < source.len()
        invariant
            by_key(source@),
            goal.submap_of(index(source@)),
            forall|j: int|
                0 <= j < source@.len() ==> call_requires(wanted, (&#[trigger] source@[j],)),
            forall|j: int, answer: bool|
                0 <= j < source@.len() && #[trigger] call_ensures(wanted, (&source@[j],), answer)
                    ==> answer == goal.contains_key(source@[j].key@),
            forall|j: int|
                0 <= j < source@.len() ==> index(source@).contains_key((#[trigger] source@[j]).key@)
                    && index(source@)[source@[j].key@] == source@[j]@,
            i <= source@.len(),
            by_key(picked@),
            i < source@.len() ==> keys_below(picked@, source@[i as int].key@),
            forall|k: int|
                0 <= k < picked@.len() ==> goal.contains_key((#[trigger] picked@[k]).key@)
                    && goal[picked@[k].key@] == picked@[k]@,
            forall|j: int|
                0 <= j < i && goal.contains_key((#[trigger] source@[j]).key@) ==> index(
                    picked@,
                ).contains_key(source@[j].key@),
        decreases source@.len() - i,
    {
        let object = &source[i];
        let ghost earlier = picked@;
        if wanted(object) {
            let copy = object.clone();
            proof {
                index_of_push(earlier, copy);
            }
            picked.push(copy);
        }
        proof {
            if i + 1 < source@.len() {
                assert forall|k: int| 0 <= k < picked@.len() implies text::lex_less(
                    (#[trigger] picked@[k]).key@,
                    source@[i + 1].key@,
                ) by {
                    keys_chain(picked@[k].key@, source@[i as int].key@, source@[i + 1].key@);
                    assert(text::lex_less(source@[i as int].key@, source@[i + 1].key@));
                }
            }
        }
        i += 1;
    }
    proof {
        index_holds(picked@);
        assert forall|key: Seq<char>| goal.contains_key(key) == index(picked@).contains_key(key) by {
            if goal.contains_key(key) {
                assert(index(source@).contains_key(key));
                let j = choose|j: int| 0 <= j < source@.len() && (#[trigger] source@[j]).key@ == key;
                assert(goal.contains_key(source@[j].key@));
            }
            if index(picked@).contains_key(key) {
                let k = choose|k: int| 0 <= k < picked@.len() && (#[trigger] picked@[k]).key@ == key;
                assert(goal.contains_key(picked@[k].key@));
            }
        }
        assert forall|key: Seq<char>| #[trigger] goal.contains_key(key) implies goal[key] == index(
            picked@,
        )[key] by {
            let k = choose|k: int| 0 <= k < picked@.len() && (#[trigger] picked@[k]).key@ == key;
            assert(goal[picked@[k].key@] == picked@[k]@);
        }
        assert(goal =~= index(picked@));
    }
    picked
}

/// The changes among incoming objects, newest first.
fn describe_changes(
    held: &Vec<S3Object>,
    incoming: &Vec<S3Object>,
    kept: &Vec<S3Object>,
) -> (changes: Vec<ObjectChange>)
    requires
        by_key(held@),
        by_key(incoming@),
        by_key(kept@),
    ensures
        forall|listing: Seq<ObjectView>|
            contents(listing) == index(incoming@) ==> model::changes_view(changes@)
                == newest_listing(#[trigger] changed(index(held@), listing, index(kept@))).map_values(
                |object: ObjectView| described(index(held@), object),
            ),
{
    let ghost old = index(held@);
    let ghost goal = changed(old, model::objects_view(incoming@), index(kept@));
    let wanted = |object: &S3Object| -> (answer: bool)
        ensures
            answer == (index(kept@).contains_key(object.key@) && !(index(held@).contains_key(
                object.key@,
            ) && index(held@)[object.key@] == object@)),
        {
            let same: bool = match find(held, object.key.as_str()) {
                Some(at) => held[at].is_identical(object),
                None => false,
            };
            !same && find(kept, object.key.as_str()).is_some()
        };
    proof {
        index_holds(incoming@);
    }
    let picked = pick(incoming, wanted, Ghost(goal));
    let ordered = list_newest(picked);
    let mut changes: Vec<ObjectChange> = Vec::new();
    let mut next: usize = 0;
    while next < ordered.len()
        invariant
            by_key(held@),
            old == index(held@),
            next <= ordered@.len(),
            changes@.len() == next,
            forall|k: int|
                0 <= k < next ==> (#[trigger] changes@[k])@ == described(old, ordered@[k]@),
        decreases ordered@.len() - next,
    {
        let object = ordered[next].clone();
        let change = match find(held, object.key.as_str()) {
            Some(at) => ObjectChange {
                kind: ObjectChangeKind::Updated,
                object,
                previous: Some(held[at].clone()),
            },
            None => ObjectChange { kind: ObjectChangeKind::Added, object, previous: None },
        };
        changes.push(change);
        next += 1;
    }
    proof {
        assert(model::changes_view(changes@) =~= newest_listing(goal).map_values(
            |object: ObjectView| described(old, object),
        )) by {
            let views = model::objects_view(ordered@);
            assert forall|k: int| 0 <= k < changes@.len() implies model::changes_view(changes@)[k]
                == described(old, newest_listing(goal)[k]) by {
                assert(views[k] == ordered@[k]@);
                assert(changes@[k]@ == described(old, ordered@[k]@));
            }
        }
        assert forall|listing: Seq<ObjectView>| contents(listing) == index(incoming@) implies
            #[trigger] changed(old, listing, index(kept@)) == goal by {
            assert(changed(old, listing, index(kept@)) =~= goal);
        }
    }
    changes
}

/// The held objects that are no longer kept, as they are now known, oldest first.
fn list_evicted(
    held: &Vec<S3Object>,
    known: &Vec<S3Object>,
    kept: &Vec<S3Object>,
) -> (evicted: Vec<S3Object>)
    requires
        by_key(held@),
        by_key(known@),
        by_key(kept@),
    ensures
        model::objects_view(evicted@) == oldest_listing(
            index(known@).restrict(
                Set::new(
                    |key: Seq<char>|
                        index(held@).contains_key(key) && !index(kept@).contains_key(key),
                ),
            ),
        ),
{
    let ghost goal = index(known@).restrict(
        Set::new(
            |key: Seq<char>| index(held@).contains_key(key) && !index(kept@).contains_key(key),
        ),
    );
    let wanted = |object: &S3Object| -> (answer: bool)
        ensures
            answer == (index(held@).contains_key(object.key@) && !index(kept@).contains_key(
                object.key@,
            )),
        { find(kept, object.key.as_str()).is_none() && find(held, object.key.as_str()).is_some() };
    proof {
        index_holds(known@);
    }
    let picked = pick(known, wanted, Ghost(goal));
    list_oldest(picked)
}

} // verus!
