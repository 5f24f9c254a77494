//! Listings: what is read from an object store, what is kept of it and which
//! page is read next.

use vstd::prelude::*;

use crate::download::RequestMeter;
use crate::error::{StoreError, StoreErrorKind, StoreErrorView};
use crate::history;
use crate::model;
use crate::model::{ObjectView, RequestCounts, S3Object};
use crate::retention;
use crate::sorting;
use crate::sorting::reversed;
use crate::text;
use crate::text::text_less;
use crate::time;
use crate::time::Timestamp;

verus! {

/// A ranked sequence with one more object in its place; an object of the same
/// rank gives way.
pub open spec fn ranked_with(ranked: Seq<ObjectView>, object: ObjectView) -> Seq<ObjectView> {
    ranked.filter(|other: ObjectView| history::newest_before(other, object)) + seq![object]
        + ranked.filter(|other: ObjectView| history::newest_before(object, other))
}

/// A ranked sequence after one more object has been seen.
pub open spec fn retained_with(ranked: Seq<ObjectView>, object: ObjectView, limit: nat) -> Seq<
    ObjectView,
> {
    let longer = ranked_with(ranked, object);
    if longer.len() > limit {
        longer.drop_last()
    } else {
        longer
    }
}

/// A ranked sequence after a run of objects has been seen.
pub open spec fn retained_after(
    ranked: Seq<ObjectView>,
    objects: Seq<ObjectView>,
    limit: nat,
) -> Seq<ObjectView>
    decreases objects.len(),
{
    if objects.len() == 0 {
        ranked
    } else {
        retained_with(
            retained_after(ranked, objects.drop_last(), limit),
            objects.last(),
            limit,
        )
    }
}

/// The newest objects seen so far, newest first.
#[derive(Debug)]
pub struct RankedObjects {
    objects: Vec<S3Object>,
}

impl View for RankedObjects {
    type V = Seq<ObjectView>;

    closed spec fn view(&self) -> Seq<ObjectView> {
        model::objects_view(self.objects@)
    }
}

proof fn split_by_rank(ranked: Seq<ObjectView>, object: ObjectView, place: int, skip: int)
    requires
        sorting::strictly_in_order(ranked, history::newest_order()),
        0 <= place <= skip <= ranked.len(),
        forall|i: int|
            0 <= i < place ==> history::newest_before(#[trigger] ranked[i], object),
        forall|i: int|
            place <= i < skip ==> !history::newest_before(#[trigger] ranked[i], object)
                && !history::newest_before(object, ranked[i]),
        forall|i: int|
            skip <= i < ranked.len() ==> history::newest_before(object, #[trigger] ranked[i]),
    ensures
        ranked_with(ranked, object) == ranked.take(place) + seq![object] + ranked.skip(skip),
{
    let earlier = |other: ObjectView| history::newest_before(other, object);
    let later = |other: ObjectView| history::newest_before(object, other);
    let front = ranked.take(place);
    let middle = ranked.subrange(place, skip);
    let back = ranked.skip(skip);
    assert(ranked =~= front + middle + back);
    Seq::filter_distributes_over_add(front + middle, back, earlier);
    Seq::filter_distributes_over_add(front, middle, earlier);
    Seq::filter_distributes_over_add(front + middle, back, later);
    Seq::filter_distributes_over_add(front, middle, later);
    assert forall|i: int| 0 <= i < front.len() implies earlier(#[trigger] front[i]) && !later(
        front[i],
    ) by {
        history::keys_chain(ranked[i].key, object.key, ranked[i].key);
    }
    assert forall|i: int| 0 <= i < middle.len() implies !earlier(#[trigger] middle[i]) && !later(
        middle[i],
    ) by {
        assert(middle[i] == ranked[place + i]);
    }
    assert forall|i: int| 0 <= i < back.len() implies later(#[trigger] back[i]) && !earlier(
        back[i],
    ) by {
        assert(back[i] == ranked[skip + i]);
        history::keys_chain(ranked[skip + i].key, object.key, ranked[skip + i].key);
    }
    retention::whole_choice(front, earlier);
    retention::empty_choice(front, later);
    retention::empty_choice(middle, earlier);
    retention::empty_choice(middle, later);
    retention::whole_choice(back, later);
    retention::empty_choice(back, earlier);
    assert(ranked.filter(earlier) =~= front);
    assert(ranked.filter(later) =~= back);
}

impl RankedObjects {
    #[verifier::type_invariant]
    closed spec fn well_formed(self) -> bool {
        sorting::strictly_in_order(model::objects_view(self.objects@), history::newest_order())
    }

    /// Nothing seen yet.
    pub fn new() -> (newest: Self)
        ensures
            newest@ == Seq::<ObjectView>::empty(),
    {
        let objects: Vec<S3Object> = Vec::new();
        assert(model::objects_view(objects@) =~= Seq::empty());
        RankedObjects { objects }
    }

    /// The number of objects kept.
    pub fn len(&self) -> (length: usize)
        ensures
            length == self@.len(),
    {
        assert(self@.len() == self.objects@.len());
        self.objects.len()
    }
}

fn comes_before(a: &S3Object, b: &S3Object) -> (result: bool)
    ensures
        result == history::newest_before(a@, b@),
{
    b.last_modified.is_before(&a.last_modified) || (a.last_modified.is_same(&b.last_modified)
        && text_less(a.key.as_str(), b.key.as_str()))
}

/// Keeps an object if it is among the newest; the oldest gives way once there
/// are more than `max_objects`.
pub fn retain_newest(newest: &mut RankedObjects, object: S3Object, max_objects: usize)
    ensures
        final(newest)@ == retained_with(old(newest)@, object@, max_objects as nat),
{
    proof {
        use_type_invariant(&*newest);
    }
    let ghost ranked = newest@;
    let ghost before = history::newest_order();
    let mut objects: Vec<S3Object> = Vec::new();
    std::mem::swap(&mut objects, &mut newest.objects);
    let ghost all = objects@;
    let mut low: usize = 0;
    let mut high: usize = objects.len();
    while low < high
        invariant
            objects@ == all,
            ranked == model::objects_view(all),
            sorting::strictly_in_order(ranked, history::newest_order()),
            low <= high <= all.len(),
            forall|i: int|
                0 <= i < low ==> history::newest_before(#[trigger] ranked[i], object@),
            forall|i: int|
                high <= i < ranked.len() ==> !history::newest_before(#[trigger] ranked[i], object@),
        decreases high - low,
    {
        let middle: usize = low + (high - low) / 2;
        assert(ranked[middle as int] == all[middle as int]@);
        if comes_before(&objects[middle], &object) {
            proof {
                retention::arrival_orders_decide();
                assert forall|i: int| 0 <= i <= middle implies history::newest_before(
                    #[trigger] ranked[i],
                    object@,
                ) by {
                    if i < middle {
                        assert(history::newest_order()(ranked[i], ranked[middle as int]));
                        assert(history::newest_order()(ranked[middle as int], object@));
                        assert(history::newest_order()(ranked[i], object@));
                    }
                }
            }
            low = middle + 1;
        } else {
            proof {
                retention::arrival_orders_decide();
                assert forall|i: int| middle <= i < ranked.len() implies !history::newest_before(
                    #[trigger] ranked[i],
                    object@,
                ) by {
                    if middle < i && history::newest_before(ranked[i], object@) {
                        assert(history::newest_order()(ranked[middle as int], ranked[i]));
                        assert(history::newest_order()(ranked[i], object@));
                        assert(history::newest_order()(ranked[middle as int], object@));
                    }
                }
            }
            high = middle;
        }
    }
    let same: bool = low < objects.len() && !comes_before(&object, &objects[low]);
    let ghost skip: int = if same {
        low + 1
    } else {
        low as int
    };
    proof {
        assert(low < ranked.len() ==> ranked[low as int] == all[low as int]@);
        assert forall|i: int| skip <= i < ranked.len() implies history::newest_before(
            object@,
            #[trigger] ranked[i],
        ) by {
            retention::arrival_orders_decide();
            if low < i {
                assert(history::newest_order()(ranked[low as int], ranked[i]));
            }
            history::keys_chain(object@.key, ranked[low as int].key, ranked[i].key);
            history::keys_chain(ranked[low as int].key, object@.key, ranked[i].key);
        }
        split_by_rank(ranked, object@, low as int, skip);
    }
    let ghost view = object@;
    if same {
        objects.set(low, object);
    } else {
        objects.insert(low, object);
    }
    assert(model::objects_view(objects@) =~= ranked_with(ranked, view));
    proof {
        ranking_stays_strict(ranked, view);
    }
    if objects.len() > max_objects {
        let _ = objects.pop();
        assert(model::objects_view(objects@) =~= ranked_with(ranked, view).drop_last());
    }
    assert(sorting::strictly_in_order(model::objects_view(objects@), before));
    newest.objects = objects;
}

/// Ranking one more object keeps the order strict.
proof fn ranking_stays_strict(ranked: Seq<ObjectView>, object: ObjectView)
    requires
        sorting::strictly_in_order(ranked, history::newest_order()),
    ensures
        sorting::strictly_in_order(ranked_with(ranked, object), history::newest_order()),
        forall|other: ObjectView| #[trigger]
            ranked_with(ranked, object).contains(other) <==> other == object || (ranked.contains(
                other,
            ) && (history::newest_before(other, object) || history::newest_before(object, other))),
{
    let before = history::newest_order();
    retention::arrival_orders_decide();
    let earlier = |other: ObjectView| history::newest_before(other, object);
    let later = |other: ObjectView| history::newest_before(object, other);
    retention::picking_keeps_order(ranked, earlier, before);
    retention::picking_keeps_order(ranked, later, before);
    let front = ranked.filter(earlier);
    let back = ranked.filter(later);
    let all = ranked_with(ranked, object);
    assert forall|i: int| 0 <= i < front.len() implies before(#[trigger] front[i], object) by {
        assert(front.contains(front[i]));
        assert(earlier(front[i]));
    }
    assert forall|i: int| 0 <= i < back.len() implies before(object, #[trigger] back[i]) by {
        assert(back.contains(back[i]));
        assert(later(back[i]));
    }
    assert forall|i: int, j: int|
        #![trigger all[i], all[j]]
        0 <= i < j < all.len() implies before(all[i], all[j]) by {
        let n = front.len();
        if i < n {
            assert(all[i] == front[i]);
        }
        if i > n {
            assert(all[i] == back[i - n - 1]);
        }
        if j < n {
            assert(all[j] == front[j]);
        }
        if j > n {
            assert(all[j] == back[j - n - 1]);
        }
        if i < n && j > n {
            assert(before(all[i], object));
            assert(before(object, all[j]));
        }
    }
    assert forall|other: ObjectView| #[trigger] all.contains(other) <==> other == object || (
    ranked.contains(other) && (history::newest_before(other, object) || history::newest_before(
        object,
        other,
    ))) by {
        if all.contains(other) {
            let i = choose|i: int| 0 <= i < all.len() && all[i] == other;
            if i < front.len() {
                assert(front.contains(front[i]));
                assert(earlier(other));
            } else if i > front.len() {
                assert(back.contains(back[i - front.len() - 1]));
                assert(later(other));
            }
        }
        if other == object {
            assert(all[front.len() as int] == other);
        } else if ranked.contains(other) && history::newest_before(other, object) {
            assert(earlier(other));
            assert(front.contains(other));
            let i = choose|i: int| 0 <= i < front.len() && front[i] == other;
            assert(all[i] == other);
        } else if ranked.contains(other) && history::newest_before(object, other) {
            assert(later(other));
            assert(back.contains(other));
            let i = choose|i: int| 0 <= i < back.len() && back[i] == other;
            assert(all[front.len() + 1 + i] == other);
        }
    }
}

/// The objects kept, newest first.
pub fn finish_newest(newest: RankedObjects) -> (objects: Vec<S3Object>)
    ensures
        model::objects_view(objects@) == newest@,
        sorting::strictly_in_order(newest@, history::newest_order()),
{
    proof {
        use_type_invariant(&newest);
    }
    newest.objects
}

/// Where an object of another key falls in a ranked sequence.
proof fn rank_place(ranked: Seq<ObjectView>, object: ObjectView) -> (place: int)
    requires
        sorting::strictly_in_order(ranked, history::newest_order()),
        forall|i: int| 0 <= i < ranked.len() ==> (#[trigger] ranked[i]).key != object.key,
    ensures
        0 <= place <= ranked.len(),
        forall|i: int| 0 <= i < place ==> history::newest_before(#[trigger] ranked[i], object),
        forall|i: int|
            place <= i < ranked.len() ==> history::newest_before(object, #[trigger] ranked[i]),
        ranked_with(ranked, object) == ranked.take(place) + seq![object] + ranked.skip(place),
    decreases ranked.len(),
{
    retention::arrival_orders_decide();
    let place = if ranked.len() == 0 {
        0
    } else {
        let front = ranked.drop_last();
        assert(sorting::strictly_in_order(front, history::newest_order()));
        let last = ranked[ranked.len() - 1];
        if history::newest_before(last, object) {
            assert forall|i: int| 0 <= i < ranked.len() implies history::newest_before(
                #[trigger] ranked[i],
                object,
            ) by {
                if i < ranked.len() - 1 {
                    assert(history::newest_order()(ranked[i], last));
                    assert(history::newest_order()(last, object));
                    assert(history::newest_order()(ranked[i], object));
                }
            }
            ranked.len() as int
        } else {
            history::keys_chain(last.key, object.key, last.key);
            let place = rank_place(front, object);
            assert forall|i: int| 0 <= i < place implies history::newest_before(
                #[trigger] ranked[i],
                object,
            ) by {
                assert(ranked[i] == front[i]);
            }
            assert forall|i: int| place <= i < ranked.len() implies history::newest_before(
                object,
                #[trigger] ranked[i],
            ) by {
                if i < front.len() {
                    assert(ranked[i] == front[i]);
                }
            }
            place
        }
    };
    split_by_rank(ranked, object, place, place);
    place
}

/// Keeping only the newest along the way loses nothing of the newest.
proof fn trimming_early_is_safe(ranked: Seq<ObjectView>, object: ObjectView, limit: nat)
    requires
        sorting::strictly_in_order(ranked, history::newest_order()),
        forall|i: int| 0 <= i < ranked.len() ==> (#[trigger] ranked[i]).key != object.key,
    ensures
        retained_with(history::first(ranked, limit), object, limit) == history::first(
            ranked_with(ranked, object),
            limit,
        ),
{
    let top = history::first(ranked, limit);
    assert forall|i: int| 0 <= i < top.len() implies (#[trigger] top[i]).key != object.key by {
        assert(top[i] == ranked[i]);
    }
    assert(sorting::strictly_in_order(top, history::newest_order())) by {
        assert forall|i: int, j: int|
            #![trigger top[i], top[j]]
            0 <= i < j < top.len() implies history::newest_order()(top[i], top[j]) by {
            assert(top[i] == ranked[i] && top[j] == ranked[j]);
        }
    }
    let place = rank_place(ranked, object);
    let near = rank_place(top, object);
    assert(near == if place < top.len() {
        place
    } else {
        top.len() as int
    }) by {
        if near < place && near < top.len() {
            assert(history::newest_before(object, top[near]));
            assert(history::newest_before(ranked[near], object));
            history::keys_chain(object.key, ranked[near].key, object.key);
        }
        if place < near {
            assert(history::newest_before(top[place], object));
            assert(history::newest_before(object, ranked[place]));
            history::keys_chain(object.key, ranked[place].key, object.key);
        }
    }
    let short = ranked_with(top, object);
    let whole = ranked_with(ranked, object);
    assert(short.len() == top.len() + 1);
    assert(whole.len() == ranked.len() + 1);
    if ranked.len() > limit {
        assert(short.drop_last() =~= whole.take(limit as int));
    } else {
        assert(top == ranked);
        if whole.len() > limit {
            assert(whole.drop_last() =~= whole.take(limit as int));
        }
    }
}

/// What is kept of a listing without repeated keys is the newest of it, newest
/// first, however its objects arrive.
pub proof fn listing_keeps_the_newest(objects: Seq<ObjectView>, limit: nat)
    requires
        history::distinct_keys(objects),
    ensures
        retained_after(Seq::empty(), objects, limit) == history::first(
            history::newest_listing(history::contents(objects)),
            limit,
        ),
    decreases objects.len(),
{
    let before = history::newest_order();
    let all = history::contents(objects);
    history::contents_are_observations(objects);
    if objects.len() == 0 {
        retention::every_collection_has_a_listing(all);
        assert(history::newest_listing(all) =~= Seq::empty());
    } else {
        let front = objects.drop_last();
        let last = objects.last();
        assert(history::distinct_keys(front)) by {
            assert forall|i: int, j: int|
                #![trigger front[i], front[j]]
                0 <= i < j < front.len() implies front[i].key != front[j].key by {
                assert(front[i] == objects[i] && front[j] == objects[j]);
            }
        }
        let fewer = history::contents(front);
        history::contents_are_observations(front);
        listing_keeps_the_newest(front, limit);
        retention::every_collection_has_a_listing(fewer);
        let ranked = history::newest_listing(fewer);
        assert(!fewer.contains_key(last.key)) by {
            if fewer.contains_key(last.key) {
                let i = choose|i: int| 0 <= i < front.len() && front[i] == fewer[last.key];
                assert(objects[i].key == objects[objects.len() - 1].key);
            }
        }
        assert forall|i: int| 0 <= i < ranked.len() implies (#[trigger] ranked[i]).key
            != last.key by {
            assert(ranked.contains(ranked[i]));
        }
        trimming_early_is_safe(ranked, last, limit);
        ranking_stays_strict(ranked, last);
        let longer = ranked_with(ranked, last);
        assert forall|object: ObjectView| #[trigger] longer.contains(object) <==> (
        all.contains_key(object.key) && all[object.key] == object) by {
            if ranked.contains(object) {
                let i = choose|i: int| 0 <= i < ranked.len() && ranked[i] == object;
                assert(ranked[i].key != last.key);
                history::keys_chain(object.key, last.key, object.key);
            }
            if all.contains_key(object.key) && all[object.key] == object && object.key
                != last.key {
                assert(fewer.contains_key(object.key));
                assert(ranked.contains(object));
            }
        }
        assert(history::lists(longer, all, before));
        history::newest_listing_is_unique(longer, all);
    }
}

/// The pages of a listing may be taken one after the other.
pub proof fn pages_add_up(
    ranked: Seq<ObjectView>,
    first: Seq<ObjectView>,
    second: Seq<ObjectView>,
    limit: nat,
)
    ensures
        retained_after(retained_after(ranked, first, limit), second, limit) == retained_after(
            ranked,
            first + second,
            limit,
        ),
    decreases second.len(),
{
    if second.len() == 0 {
        assert(first + second =~= first);
    } else {
        pages_add_up(ranked, first, second.drop_last(), limit);
        assert((first + second).drop_last() =~= first + second.drop_last());
    }
}

/// Never more than the limit is held while a listing goes on.
pub proof fn listing_stays_bounded(ranked: Seq<ObjectView>, object: ObjectView, limit: nat)
    requires
        ranked.len() <= limit,
    ensures
        retained_with(ranked, object, limit).len() <= limit,
{
    let earlier = |other: ObjectView| history::newest_before(other, object);
    let later = |other: ObjectView| history::newest_before(object, other);
    disjoint_choices_fit(ranked, object);
    assert(ranked_with(ranked, object).len() == ranked.filter(earlier).len() + 1 + ranked.filter(
        later,
    ).len());
}

proof fn disjoint_choices_fit(ranked: Seq<ObjectView>, object: ObjectView)
    ensures
        ranked.filter(|other: ObjectView| history::newest_before(other, object)).len()
            + ranked.filter(|other: ObjectView| history::newest_before(object, other)).len()
            <= ranked.len(),
    decreases ranked.len(),
{
    reveal(Seq::filter);
    if ranked.len() > 0 {
        disjoint_choices_fit(ranked.drop_last(), object);
        history::keys_chain(ranked.last().key, object.key, ranked.last().key);
    }
}

/// One object of a listing page as the service states it.
#[derive(Clone, Debug, PartialEq, Eq)]
pub struct ListedEntry {
    pub key: Option<String>,
    /// Seconds since 1970-01-01T00:00:00Z and nanoseconds past them.
    pub last_modified: Option<(i64, u32)>,
    pub size: Option<i64>,
    pub etag: Option<String>,
    pub storage_class: Option<String>,
}

/// What a [`ListedEntry`] states.
pub struct EntryView {
    pub key: Option<Seq<char>>,
    pub last_modified: Option<(i64, u32)>,
    pub size: Option<i64>,
    pub etag: Option<Seq<char>>,
    pub storage_class: Option<Seq<char>>,
}

impl View for ListedEntry {
    type V = EntryView;

    open spec fn view(&self) -> EntryView {
        EntryView {
            key: text::optional_view(self.key),
            last_modified: self.last_modified,
            size: self.size,
            etag: text::optional_view(self.etag),
            storage_class: text::optional_view(self.storage_class),
        }
    }
}

/// An invalid response of the service.
pub open spec fn invalid_response(message: Seq<char>, retryable: bool) -> StoreErrorView {
    StoreErrorView { kind: StoreErrorKind::InvalidResponse, message, retryable }
}

/// How an entry reads as an object.
pub open spec fn read_entry(entry: EntryView) -> Result<ObjectView, StoreErrorView> {
    if entry.key is None {
        Err(invalid_response("ListObjectsV2 returned an object without a key"@, true))
    } else if entry.last_modified is None {
        Err(
            invalid_response(
                "ListObjectsV2 returned "@ + entry.key->0 + " without LastModified"@,
                true,
            ),
        )
    } else if !valid_instant(entry.last_modified->0) {
        Err(invalid_response("invalid LastModified for "@ + entry.key->0, false))
    } else if entry.size is Some && entry.size->0 < 0 {
        Err(
            invalid_response(
                "ListObjectsV2 returned a negative size for "@ + entry.key->0,
                false,
            ),
        )
    } else {
        Ok(
            ObjectView {
                key: entry.key->0,
                at: (entry.last_modified->0).0 * 1_000_000_000 + (entry.last_modified->0).1,
                size: if entry.size is Some {
                    entry.size->0 as u64
                } else {
                    0
                },
                etag: entry.etag,
                storage_class: entry.storage_class,
            },
        )
    }
}

/// Whether seconds and nanoseconds name an instant.
pub open spec fn valid_instant(modified: (i64, u32)) -> bool {
    time::FIRST_SECOND <= modified.0 <= time::LAST_SECOND && modified.1 < time::NANOS_PER_SECOND
}

/// Reads one entry of a listing.
pub fn listed_object(entry: ListedEntry) -> (result: Result<S3Object, StoreError>)
    ensures
        match result {
            Ok(object) => read_entry(entry@) == Ok::<ObjectView, StoreErrorView>(object@),
            Err(error) => read_entry(entry@) == Err::<ObjectView, StoreErrorView>(error@),
        },
{
    let key = match entry.key {
        Some(key) => key,
        None => {
            return Err(
                StoreError::new(
                    StoreErrorKind::InvalidResponse,
                    "ListObjectsV2 returned an object without a key".to_owned(),
                    true,
                ),
            );
        },
    };
    let (seconds, nanos) = match entry.last_modified {
        Some(modified) => modified,
        None => {
            return Err(
                StoreError::new(
                    StoreErrorKind::InvalidResponse,
                    "ListObjectsV2 returned ".to_owned().concat(key.as_str()).concat(
                        " without LastModified",
                    ),
                    true,
                ),
            );
        },
    };
    let last_modified = match Timestamp::new(seconds, nanos) {
        Some(at) => at,
        None => {
            return Err(
                StoreError::new(
                    StoreErrorKind::InvalidResponse,
                    "invalid LastModified for ".to_owned().concat(key.as_str()),
                    false,
                ),
            );
        },
    };
    let size: i64 = match entry.size {
        Some(bytes) => bytes,
        None => 0,
    };
    if size < 0 {
        return Err(
            StoreError::new(
                StoreErrorKind::InvalidResponse,
                "ListObjectsV2 returned a negative size for ".to_owned().concat(key.as_str()),
                false,
            ),
        );
    }
    Ok(
        S3Object {
            key,
            last_modified,
            size: size as u64,
            etag: entry.etag,
            storage_class: entry.storage_class,
        },
    )
}

/// How the entries of a page read, or the first thing wrong with one.
pub open spec fn read_entries(entries: Seq<EntryView>) -> Result<Seq<ObjectView>, StoreErrorView>
    decreases entries.len(),
{
    if entries.len() == 0 {
        Ok(Seq::empty())
    } else {
        match read_entries(entries.drop_last()) {
            Err(error) => Err(error),
            Ok(objects) => match read_entry(entries.last()) {
                Err(error) => Err(error),
                Ok(object) => Ok(objects.push(object)),
            },
        }
    }
}

/// The objects of a page's entries ahead of the first with something wrong.
pub open spec fn readable(entries: Seq<EntryView>) -> Seq<ObjectView>
    decreases entries.len(),
{
    match read_entries(entries) {
        Ok(objects) => objects,
        Err(_) => if entries.len() == 0 {
            Seq::empty()
        } else {
            readable(entries.drop_last())
        },
    }
}

proof fn first_fault_decides(entries: Seq<EntryView>, count: int)
    requires
        0 <= count <= entries.len(),
        read_entries(entries.take(count)) is Err,
    ensures
        read_entries(entries) == read_entries(entries.take(count)),
        readable(entries) == readable(entries.take(count)),
    decreases entries.len() - count,
{
    if count < entries.len() {
        assert(entries.take(count + 1).drop_last() =~= entries.take(count));
        first_fault_decides(entries, count + 1);
    } else {
        assert(entries.take(count) =~= entries);
    }
}

/// One page of a listing.
#[derive(Clone, Debug, PartialEq, Eq)]
pub struct ListPage {
    pub entries: Vec<ListedEntry>,
    pub is_truncated: Option<bool>,
    pub next_continuation_token: Option<String>,
}

/// What a page's entries state.
pub open spec fn entries_view(entries: Seq<ListedEntry>) -> Seq<EntryView> {
    entries.map_values(|entry: ListedEntry| entry@)
}

/// What a listing does after a page.
#[derive(Clone, Debug, PartialEq, Eq)]
pub enum ListingStep {
    /// Ask for the next page with this token.
    Continue(String),
    Done,
}

/// What a [`ListingStep`] says: the token to go on with, if any.
impl View for ListingStep {
    type V = Option<Seq<char>>;

    open spec fn view(&self) -> Option<Seq<char>> {
        match *self {
            ListingStep::Continue(token) => Some(token@),
            ListingStep::Done => None,
        }
    }
}

/// How a page reads: its objects and the token to go on with.
pub open spec fn read_page(
    entries: Seq<EntryView>,
    is_truncated: Option<bool>,
    token: Option<Seq<char>>,
) -> Result<(Seq<ObjectView>, Option<Seq<char>>), StoreErrorView> {
    match read_entries(entries) {
        Err(error) => Err(error),
        Ok(objects) => if is_truncated != Some(true) {
            Ok((objects, None))
        } else if token is Some {
            Ok((objects, token))
        } else {
            Err(
                invalid_response(
                    "ListObjectsV2 was truncated but returned no continuation token"@,
                    true,
                ),
            )
        },
    }
}

/// What came of the request for a page.
pub type PageReading = Result<(Seq<ObjectView>, Option<Seq<char>>), StoreErrorView>;

/// How the response to the request for a page reads; a failed request reads as
/// its error.
pub open spec fn arrival(page: Result<ListPage, StoreError>) -> PageReading {
    match page {
        Ok(given) => read_page(
            entries_view(given.entries@),
            given.is_truncated,
            text::optional_view(given.next_continuation_token),
        ),
        Err(error) => Err(error@),
    }
}

/// Whether a listing goes on with another page.
pub open spec fn goes_on(reading: PageReading) -> bool {
    reading is Ok && (reading->Ok_0).1 is Some
}

/// The requests counted once one more page has been requested.
pub open spec fn with_one_page(counts: RequestCounts) -> RequestCounts {
    RequestCounts { list_requests: counts.list_requests.wrapping_add(1), ..counts }
}

/// The requests counted once a listing has begun and responses have arrived.
pub open spec fn counted_after(counts: RequestCounts, readings: Seq<PageReading>) -> RequestCounts
    decreases readings.len(),
{
    if readings.len() == 0 {
        with_one_page(counts)
    } else {
        let earlier = counted_after(counts, readings.drop_last());
        if goes_on(readings.last()) {
            with_one_page(earlier)
        } else {
            earlier
        }
    }
}

/// A listing counts every page once, a failing one too: as many as have arrived,
/// and the one still awaited if it goes on. Counters start over after 2^64 - 1.
pub proof fn pages_are_counted_once(counts: RequestCounts, readings: Seq<PageReading>)
    requires
        forall|i: int| 0 <= i < readings.len() - 1 ==> goes_on(#[trigger] readings[i]),
    ensures
        counted_after(counts, readings).get_requests == counts.get_requests,
        counted_after(counts, readings).list_requests == (counts.list_requests + readings.len() + if
            readings.len() == 0 || goes_on(readings.last()) {
            1int
        } else {
            0int
        }) % 0x1_0000_0000_0000_0000,
    decreases readings.len(),
{
    if readings.len() > 0 {
        let front = readings.drop_last();
        assert forall|i: int| 0 <= i < front.len() - 1 implies goes_on(#[trigger] front[i]) by {
            assert(readings[i] == front[i]);
        }
        pages_are_counted_once(counts, front);
        if front.len() > 0 {
            assert(front.last() == readings[readings.len() - 2]);
        }
    }
}

/// A listing under way.
///
/// Pages come in key order, not in order of arrival, so every page is visited
/// but only the newest objects are kept.
#[derive(Debug)]
pub struct Listing {
    newest: RankedObjects,
    max_objects: usize,
}

impl View for Listing {
    type V = Seq<ObjectView>;

    closed spec fn view(&self) -> Seq<ObjectView> {
        self.newest@
    }
}

impl Listing {
    /// The most objects that the listing keeps.
    pub closed spec fn limit(&self) -> nat {
        self.max_objects as nat
    }

    /// A listing that keeps at most `max_objects`, of which there must be one.
    pub fn new(max_objects: usize) -> (result: Result<Self, StoreError>)
        ensures
            match result {
                Ok(listing) => {
                    &&& max_objects > 0
                    &&& listing@ == Seq::<ObjectView>::empty()
                    &&& listing.limit() == max_objects
                },
                Err(error) => max_objects == 0 && error@ == (StoreErrorView {
                    kind: StoreErrorKind::Other,
                    message: "object listing limit must be greater than zero"@,
                    retryable: false,
                }),
            },
    {
        if max_objects == 0 {
            return Err(
                StoreError::new(
                    StoreErrorKind::Other,
                    "object listing limit must be greater than zero".to_owned(),
                    false,
                ),
            );
        }
        Ok(Listing { newest: RankedObjects::new(), max_objects })
    }

    /// Takes a page in and says how to go on. Of a page with something wrong, the
    /// entries ahead of it are taken in.
    pub fn accept_page(&mut self, page: ListPage) -> (result: Result<ListingStep, StoreError>)
        ensures
            final(self).limit() == old(self).limit(),
            ({
                let reading = read_page(
                    entries_view(page.entries@),
                    page.is_truncated,
                    text::optional_view(page.next_continuation_token),
                );
                match result {
                    Ok(step) => {
                        &&& reading is Ok
                        &&& step@ == (reading->Ok_0).1
                        &&& readable(entries_view(page.entries@)) == (reading->Ok_0).0
                    },
                    Err(error) => reading is Err && error@ == reading->Err_0,
                }
            }),
            final(self)@ == retained_after(
                old(self)@,
                readable(entries_view(page.entries@)),
                old(self).limit(),
            ),
    {
        let ghost before = self@;
        let ghost all = entries_view(page.entries@);
        let truncated: bool = match page.is_truncated {
            Some(flag) => flag,
            None => false,
        };
        let mut entries = reversed(page.entries);
        let ghost total = all.len() as int;
        let ghost mut taken: int = 0;
        let ghost mut objects: Seq<ObjectView> = Seq::empty();
        assert(all.take(0) =~= Seq::empty());
        assert(entries_view(entries@) =~= all.reverse());
        while entries.len() > 0
            invariant
                0 <= taken <= total,
                total == all.len(),
                all == entries_view(page.entries@),
                entries@.len() == total - taken,
                forall|i: int|
                    0 <= i < entries@.len() ==> (#[trigger] entries@[i])@ == all[total - 1 - i],
                read_entries(all.take(taken)) == Ok::<Seq<ObjectView>, StoreErrorView>(objects),
                self.newest@ == retained_after(before, objects, self.max_objects as nat),
                self.max_objects == old(self).max_objects,
                before == old(self)@,
            decreases entries@.len(),
        {
            if let Some(entry) = entries.pop() {
                proof {
                    assert(entry@ == all[taken]);
                    assert(all.take(taken + 1).drop_last() =~= all.take(taken));
                    assert(all.take(taken + 1).last() == entry@);
                }
                match listed_object(entry) {
                    Ok(object) => {
                        let ghost view = object@;
                        retain_newest(&mut self.newest, object, self.max_objects);
                        proof {
                            assert(objects.push(view).drop_last() =~= objects);
                            objects = objects.push(view);
                            taken = taken + 1;
                        }
                    },
                    Err(error) => {
                        proof {
                            first_fault_decides(all, taken + 1);
                            assert(readable(all.take(taken)) == objects);
                        }
                        return Err(error);
                    },
                }
            }
        }
        assert(all.take(taken) =~= all);
        if !truncated {
            return Ok(ListingStep::Done);
        }
        match page.next_continuation_token {
            Some(token) => Ok(ListingStep::Continue(token)),
            None => Err(
                StoreError::new(
                    StoreErrorKind::InvalidResponse,
                    "ListObjectsV2 was truncated but returned no continuation token".to_owned(),
                    true,
                ),
            ),
        }
    }

    /// Begins a listing whose first page is requested now, and counts that request.
    pub fn begin(max_objects: usize, meter: &mut RequestMeter) -> (result: Result<Self, StoreError>)
        ensures
            match result {
                Ok(listing) => {
                    &&& max_objects > 0
                    &&& listing@ == Seq::<ObjectView>::empty()
                    &&& listing.limit() == max_objects
                    &&& final(meter)@ == with_one_page(old(meter)@)
                },
                Err(error) => {
                    &&& max_objects == 0
                    &&& error@ == (StoreErrorView {
                        kind: StoreErrorKind::Other,
                        message: "object listing limit must be greater than zero"@,
                        retryable: false,
                    })
                    &&& final(meter)@ == old(meter)@
                },
            },
    {
        let listing = match Listing::new(max_objects) {
            Ok(listing) => listing,
            Err(error) => {
                return Err(error);
            },
        };
        meter.count_list();
        Ok(listing)
    }

    /// Takes in what came of the last request. Where the listing goes on, the next
    /// page is requested now, and that request is counted: each page counts once,
    /// and before it is known whether it fails, because a request that fails after
    /// reaching S3 is still billable.
    pub fn page_arrived(
        &mut self,
        page: Result<ListPage, StoreError>,
        meter: &mut RequestMeter,
    ) -> (result: Result<ListingStep, StoreError>)
        ensures
            final(self).limit() == old(self).limit(),
            final(self)@ == match page {
                Ok(given) => retained_after(
                    old(self)@,
                    readable(entries_view(given.entries@)),
                    old(self).limit(),
                ),
                Err(_) => old(self)@,
            },
            match result {
                Ok(step) => {
                    &&& arrival(page) is Ok
                    &&& step@ == (arrival(page)->Ok_0).1
                    &&& final(self)@ == retained_after(
                        old(self)@,
                        (arrival(page)->Ok_0).0,
                        old(self).limit(),
                    )
                },
                Err(error) => arrival(page) is Err && error@ == arrival(page)->Err_0,
            },
            final(meter)@ == if goes_on(arrival(page)) {
                with_one_page(old(meter)@)
            } else {
                old(meter)@
            },
    {
        let page = match page {
            Ok(page) => page,
            Err(error) => {
                return Err(error);
            },
        };
        let result = self.accept_page(page);
        if let Ok(ListingStep::Continue(_)) = &result {
            meter.count_list();
        }
        result
    }

    /// The objects kept, newest first.
    pub fn finish(self) -> (objects: Vec<S3Object>)
        ensures
            model::objects_view(objects@) == self@,
    {
        finish_newest(self.newest)
    }
}

} // verus!
