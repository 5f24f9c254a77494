//! What the single steps of the library come to, call by call.

use vstd::prelude::*;

use crate::arrivals;
use crate::arrivals::newer;
use crate::cli;
use crate::cli::ByArrival;
use crate::conduct;
use crate::conduct::says_something;
use crate::digits;
use crate::error::{ConfigError, TemplateError, UriFault};
use crate::history;
use crate::history::RollingHistory;
use crate::model;
use crate::model::{
    ArrivalStatistics, HistoryUpdate, ObjectChange, ObjectChangeKind, S3Object, WatcherConfig,
};
use crate::output;
use crate::output::DurationTexts;
use crate::periods;
use crate::protocol::{DataView, ErrorObject, RequestId};
use crate::retention;
use crate::runtime::{CoreRuntime, StartPlan};
use crate::service;
use crate::service::WatchDefinition;
use crate::sorting;
use crate::sorting::Order;
use crate::template;
use crate::template::{DateTemplate, Field, Granularity};
use crate::text;
use crate::time;
use crate::time::{Timestamp, Zone};
use crate::transport;
use crate::transport::{Connection, LineOutcome, ProtocolLine};
use crate::uri;
use crate::uri::S3Uri;
use crate::wording;

verus! {

/// Texts are compared character by character.
pub proof fn texts_are_compared(
    left: &str,
    right: &str,
    less: bool,
    same: bool,
    leads: bool,
    at: int,
)
    requires
        call_ensures(text::text_less, (left, right), less),
        call_ensures(text::text_eq, (left, right), same),
        call_ensures(text::starts_with, (left, right), leads),
    ensures
        same <==> left@ == right@,
        leads <==> exists|after: Seq<char>| left@ == #[trigger] (right@ + after),
        0 <= at < left@.len() && at < right@.len() && left@.take(at) == right@.take(at) && left@[at]
            != right@[at] ==> (less <==> left@[at] < right@[at]),
        left@.len() < right@.len() && right@.take(left@.len() as int) == left@ ==> less,
        right@.len() <= left@.len() && left@.take(right@.len() as int) == right@ ==> !less,
{
    wording::occurrences_split_a_text(left@, right@);
    arrivals::texts_are_ordered_as_in_a_dictionary(left@, right@);
    if 0 <= at < left@.len() && at < right@.len() && left@.take(at) == right@.take(at)
        && left@[at] != right@[at] {
        first_difference_decides(left@, right@, at);
    }
    if left@.len() < right@.len() && right@.take(left@.len() as int) == left@ {
        shorter_texts_lead(left@, right@);
    }
    if right@.len() <= left@.len() && left@.take(right@.len() as int) == right@ {
        shorter_texts_lead(right@, left@);
    }
}

proof fn first_difference_decides(left: Seq<char>, right: Seq<char>, at: int)
    requires
        0 <= at < left.len(),
        at < right.len(),
        left.take(at) == right.take(at),
        left[at] != right[at],
    ensures
        text::lex_less(left, right) <==> left[at] < right[at],
    decreases at,
{
    if at > 0 {
        assert(left.take(at)[0] == right.take(at)[0]);
        assert(left[0] == left.take(at)[0] && right[0] == right.take(at)[0]);
        let (a, b) = (left.drop_first(), right.drop_first());
        assert(a.take(at - 1) =~= left.take(at).drop_first());
        assert(b.take(at - 1) =~= right.take(at).drop_first());
        assert(a[at - 1] == left[at] && b[at - 1] == right[at]);
        first_difference_decides(a, b, at - 1);
    }
}

proof fn shorter_texts_lead(short: Seq<char>, long: Seq<char>)
    requires
        short.len() <= long.len(),
        long.take(short.len() as int) == short,
    ensures
        text::lex_less(short, long) <==> short.len() < long.len(),
        !text::lex_less(long, short),
    decreases short.len(),
{
    if short.len() > 0 {
        assert(long.take(short.len() as int)[0] == short[0]);
        let (a, b) = (short.drop_first(), long.drop_first());
        assert(b.take(a.len() as int) =~= long.take(short.len() as int).drop_first());
        shorter_texts_lead(a, b);
    }
}

/// White space beyond ASCII is that of Unicode: next line and the no-break space,
/// the Ogham space, the spaces from en quad to hair space, the line and paragraph
/// separators, two narrow ones and the ideographic one. Control characters beyond
/// ASCII are those up to 159.
pub proof fn unicode_classes(c: char, space: bool, control: bool)
    requires
        c as u32 >= 128,
        call_ensures(text::is_white_space, (c,), space),
        call_ensures(text::is_control, (c,), control),
    ensures
        space <==> {
            let code = c as u32;
            ||| code == 0x85
            ||| code == 0xa0
            ||| code == 0x1680
            ||| 0x2000 <= code <= 0x200a
            ||| code == 0x2028
            ||| code == 0x2029
            ||| code == 0x202f
            ||| code == 0x205f
            ||| code == 0x3000
        },
        control <==> (c as u32) < 160,
{
}

/// A text is blank if it has nothing but white space, and has a control character
/// if one of its characters is one.
pub proof fn texts_are_looked_through(value: &str, blank: bool, controlled: bool)
    requires
        call_ensures(text::is_blank, (value,), blank),
        call_ensures(text::contains_control, (value,), controlled),
    ensures
        blank <==> forall|i: int|
            0 <= i < value@.len() ==> text::white_space(#[trigger] value@[i]),
        controlled <==> exists|i: int| 0 <= i < value@.len() && text::control(#[trigger] value@[i]),
{
}

/// A history starts empty, keeps as many objects as it is made for, at least one,
/// and judges by the cadence that it is given, if any but zero.
pub proof fn histories_start_empty(
    capacity: usize,
    cadence: Option<u64>,
    result: Result<RollingHistory, ConfigError>,
    key: Seq<char>,
)
    requires
        call_ensures(RollingHistory::with_expected_interval, (capacity, cadence), result),
    ensures
        result is Ok <==> capacity > 0 && (cadence matches Some(seconds) ==> seconds > 0),
        result matches Ok(made) ==> {
            &&& !made@.contains_key(key)
            &&& made.limit() == capacity
            &&& made.cadence() == cadence
        },
        result matches Err(error) ==> (error is ZeroHistoryCapacity <==> capacity == 0) && (
        error is ZeroExpectedInterval <==> capacity > 0),
{
}

/// What a history holds can be asked for by key, counted, and listed by arrival
/// in either direction.
pub proof fn histories_can_be_read(
    held: RollingHistory,
    key: &str,
    found: Option<&S3Object>,
    there: bool,
    count: usize,
    newest: Vec<S3Object>,
    oldest: Vec<S3Object>,
    i: int,
    j: int,
)
    requires
        call_ensures(RollingHistory::get, (&held, key), found),
        call_ensures(RollingHistory::contains_key, (&held, key), there),
        call_ensures(RollingHistory::len, (&held,), count),
        call_ensures(RollingHistory::objects, (&held,), newest),
        call_ensures(RollingHistory::chronological_objects, (&held,), oldest),
    ensures
        there <==> held@.contains_key(key@),
        found is Some <==> there,
        found matches Some(object) ==> object@ == held@[key@],
        count == held@.dom().len(),
        newest@.len() == count,
        oldest@.len() == count,
        0 <= i < count ==> held@.contains_key(newest@[i]@.key) && held@[newest@[i]@.key]
            == newest@[i]@,
        0 <= i < count ==> held@.contains_key(oldest@[i]@.key) && held@[oldest@[i]@.key]
            == oldest@[i]@,
        0 <= i < j < count ==> newer(newest@[i]@, newest@[j]@),
        0 <= i < j < count ==> arrivals::older(oldest@[i]@, oldest@[j]@),
{
    retention::every_collection_has_a_listing(held@);
    arrivals::listings_are_in_order(held@, i, j);
    let a = model::objects_view(newest@);
    let b = model::objects_view(oldest@);
    assert(a.len() == newest@.len() && b.len() == oldest@.len());
    if 0 <= i < count {
        assert(a[i] == newest@[i]@ && a.contains(a[i]));
        assert(b[i] == oldest@[i]@ && b.contains(b[i]));
        if i < j < count {
            assert(a[j] == newest@[j]@);
            assert(b[j] == oldest@[j]@);
        }
    }
}

/// A configuration is accepted if it says who it is and asks for nothing that is
/// zero.
pub proof fn configurations_are_checked(config: &WatcherConfig, result: Result<(), ConfigError>)
    requires
        call_ensures(WatcherConfig::validate, (config,), result),
    ensures
        result is Ok <==> {
            &&& says_something(config.id@)
            &&& says_something(config.name@)
            &&& config.poll_interval_seconds > 0
            &&& config.expected_interval_seconds matches Some(seconds) ==> seconds > 0
            &&& config.max_history > 0
        },
        result matches Err(ConfigError::EmptyId) <==> !says_something(config.id@),
        result matches Err(ConfigError::EmptyName) ==> !says_something(config.name@),
        result matches Err(ConfigError::ZeroPollInterval) ==> config.poll_interval_seconds == 0,
        result matches Err(ConfigError::ZeroExpectedInterval)
            ==> config.expected_interval_seconds == Some(0u64),
        result matches Err(ConfigError::ZeroHistoryCapacity) ==> config.max_history == 0,
{
    conduct::sound_configurations_are_accepted(*config);
}

/// A limit may be from 1 to 1,000, an identifier must say something, and a
/// refusal is one of parameters.
pub proof fn parameters_are_checked(
    limit: usize,
    id: &str,
    limited: Result<(), ErrorObject>,
    named: Result<(), ErrorObject>,
)
    requires
        call_ensures(service::validate_limit, (limit,), limited),
        call_ensures(service::validate_watcher_id, (id,), named),
    ensures
        limited is Ok <==> 1 <= limit <= 1_000,
        named is Ok <==> says_something(id@),
        limited matches Err(error) ==> error@.code == -32602 && error@.message
            == "Invalid params"@ && error@.data is Some,
        named matches Err(error) ==> error@.code == -32602 && error@.message == "Invalid params"@
            && error@.data == Some(DataView::Detail("watcherId cannot be empty"@)),
{
    if text::blank(id@) {
        assert(!says_something(id@));
    } else {
        let i = choose|i: int| 0 <= i < id@.len() && !text::white_space(#[trigger] id@[i]);
        assert(says_something(id@));
    }
}

/// A start is planned under its identifier with what the definition asks for, and
/// with the backend's own profile and region where it asks for none.
pub proof fn starts_are_planned_as_defined<F>(
    backend: CoreRuntime<F>,
    definition: &WatchDefinition,
    id: String,
    cancelled: bool,
    plan: StartPlan,
)
    requires
        call_ensures(
            CoreRuntime::<F>::plan_start,
            (&backend, definition, id, cancelled),
            Ok::<StartPlan, ErrorObject>(plan),
        ),
    ensures
        !cancelled,
        !backend@.contains_key(id@),
        plan.config.id@ == id@,
        uri::read_uri(definition.target@) == Ok::<uri::UriView, UriFault>(plan.config.target@),
        definition.name matches Some(given) ==> plan.config.name@ == given@,
        definition.profile matches Some(given) ==> text::optional_view(plan.config.profile) == Some(
            given@,
        ),
        definition.profile is None ==> text::optional_view(plan.config.profile)
            == backend.profile(),
        definition.region matches Some(given) ==> text::optional_view(plan.config.region) == Some(
            given@,
        ),
        definition.region is None ==> text::optional_view(plan.config.region) == backend.region(),
        plan.config.poll_interval_seconds == definition.poll_interval_seconds,
        plan.config.expected_interval_seconds == definition.expected_interval_seconds,
        plan.config.max_history == definition.history_limit,
        plan.config.lookback_periods == definition.lookback_periods,
{
}

/// The watcher to stop is the one that is there now.
pub proof fn watchers_are_found<F>(
    backend: CoreRuntime<F>,
    id: &str,
    result: Result<u64, ErrorObject>,
)
    requires
        call_ensures(CoreRuntime::<F>::find_serial, (&backend, id), result),
    ensures
        result is Ok <==> backend@.contains_key(id@),
        result matches Ok(serial) ==> backend@[id@].serial == serial,
        result matches Err(error) ==> error@.code == -32001 && error@.message
            == "Watcher not found: "@ + id@ && error@.data is None,
{
}

/// Changes are announced by name, oldest arrival first.
pub proof fn changes_come_in_order_of_arrival(
    kind: ObjectChangeKind,
    name: &'static str,
    changes: Vec<ObjectChange>,
    ordered: Vec<ObjectChange>,
    i: int,
    j: int,
)
    requires
        call_ensures(cli::change_event, (kind,), name),
        call_ensures(cli::in_arrival_order, (changes,), ordered),
    ensures
        kind is Added ==> name@ == "object.added"@,
        kind is Updated ==> name@ == "object.updated"@,
        ordered@.len() == changes@.len(),
        ordered@.to_multiset() == changes@.to_multiset(),
        0 <= i < j < ordered@.len() ==> ordered@[i].object.last_modified@
            <= ordered@[j].object.last_modified@,
{
    sorting::sorted_is_in_order::<ObjectChange, ByArrival>(changes@);
    if 0 <= i < j < ordered@.len() {
        assert(!ByArrival::before(ordered@[j], ordered@[i]));
    }
}

/// A target that is no URI is refused in the words of its fault.
pub proof fn targets_are_read_or_refused(target: &str, result: Result<S3Uri, String>)
    requires
        call_ensures(cli::parse_target, (target,), result),
    ensures
        result matches Ok(read) ==> uri::read_uri(target@) == Ok::<uri::UriView, UriFault>(read@),
        result matches Err(message) ==> uri::read_uri(target@) matches Err(fault) && message@
            == match fault {
            UriFault::InvalidScheme => "S3 URI must start with s3://"@,
            UriFault::MissingBucket => "S3 URI is missing a bucket name"@,
            UriFault::InvalidBucket(bucket) => "invalid S3 bucket name: "@ + bucket,
            UriFault::InvalidKey => "S3 object key/prefix contains a control character"@,
        },
{
}

/// An hour is finer than a day, a day than a month, and a month than a year; of two
/// units the finer one counts. Each placeholder stands for its unit.
pub proof fn units_are_ordered(
    left: Granularity,
    right: Granularity,
    unit: Granularity,
    field: Field,
    own: Granularity,
)
    requires
        call_ensures(template::finer_of, (left, right), unit),
        call_ensures(Field::granularity, (field,), own),
    ensures
        unit == left || unit == right,
        unit is Hour <==> left is Hour || right is Hour,
        unit is Year <==> left is Year && right is Year,
        unit is Day <==> (left is Day || right is Day) && left !is Hour && right !is Hour,
        field == Field::Year4 || field == Field::Year2 ==> own is Year,
        field == Field::Month2 || field == Field::Month1 ==> own is Month,
        field == Field::Day2 || field == Field::Day1 ==> own is Day,
        field == Field::Hour2 || field == Field::Hour1 ==> own is Hour,
{
}

/// A month has the days that the calendar gives it.
pub proof fn months_have_their_days(year: i32, month: u32, days: u32)
    requires
        1 <= month <= 12,
        call_ensures(time::days_in_month, (year, month), days),
    ensures
        month != 2 && (month + month / 8) % 2 == 1 ==> days == 31,
        month != 2 && (month + month / 8) % 2 == 0 ==> days == 30,
        month == 2 ==> days == if year as int % 4 == 0 && (year as int % 100 != 0 || year as int
            % 400 == 0) {
            29u32
        } else {
            28u32
        },
{
}

/// A zone that is listed is taken by its name; another is refused by it. In UTC
/// the wall clock shows the instant itself, elsewhere one less than a day away.
pub proof fn zones_are_known_by_name(
    name: &str,
    result: Result<Zone, TemplateError>,
    at: Timestamp,
    local: Timestamp,
)
    requires
        call_ensures(template::parse_time_zone, (name,), result),
    ensures
        result is Ok <==> time::zone_listed(name@),
        result matches Ok(zone) ==> zone@ == name@,
        result matches Ok(zone) ==> (call_ensures(Zone::wall_clock, (&zone, &at), local) ==> {
            &&& name@ == "UTC"@ ==> local@ == at@
            &&& at@ - 86_400_000_000_000 < local@ < at@ + 86_400_000_000_000
            &&& (local@ - at@) % 1_000_000_000 == 0
        }),
        result matches Err(error) ==> name@ != "UTC"@ && (error matches
            TemplateError::UnknownTimeZone(told) && told@ == name@),
{
}

/// The time between two instants is counted in whole milliseconds, and never
/// backwards.
pub proof fn time_between_is_whole_milliseconds(
    earlier: &Timestamp,
    later: &Timestamp,
    millis: u64,
)
    requires
        call_ensures(time::millis_between, (earlier, later), millis),
    ensures
        later@ >= earlier@ ==> 1_000_000 * millis <= later@ - earlier@ < 1_000_000 * (millis + 1),
        later@ <= earlier@ ==> millis == 0,
{
    wording::elapsed_time_is_whole_milliseconds(earlier@, later@);
}

/// A request can be cancelled until it is answered; what is no JSON or no request
/// is answered without an identifier.
pub proof fn unknown_requests_are_answered_without_identifier(
    connection: Connection,
    id: &RequestId,
    there: bool,
    detail: &str,
    unread: LineOutcome,
    misshapen: LineOutcome,
)
    requires
        call_ensures(Connection::can_cancel, (&connection, id), there),
        call_ensures(transport::line_reply, (detail,), unread),
        call_ensures(transport::shape_reply, (detail,), misshapen),
    ensures
        there <==> exists|i: int|
            0 <= i < connection@.in_flight.len() && connection@.in_flight[i] == id@,
        unread matches LineOutcome::Reply { id: to, error } && to is Null && error@.code == -32700
            && error@.message == "Parse error"@ && error@.data == Some(DataView::Detail(detail@)),
        misshapen matches LineOutcome::Reply { id: to, error } && to is Null && error@.code
            == -32600 && error@.message == "Invalid JSON-RPC request"@ && error@.data == Some(
            DataView::Detail(detail@),
        ),
{
}

/// Two objects are the same if all that is known of them is.
pub proof fn objects_are_told_apart(one: &S3Object, other: &S3Object, same: bool)
    requires
        call_ensures(S3Object::is_identical, (one, other), same),
    ensures
        same ==> one.key@ == other.key@ && one.size == other.size && one.last_modified@
            == other.last_modified@ && text::optional_view(one.etag) == text::optional_view(
            other.etag,
        ) && text::optional_view(one.storage_class) == text::optional_view(other.storage_class),
        one.key@ != other.key@ ==> !same,
        one@ == other@ ==> same,
{
}

/// Numbers are written with their digits, negative ones behind a minus sign, and
/// filled up with zeroes as asked; what is written reads back, with a plus sign
/// before it or without.
pub proof fn numbers_are_written_and_read(
    value: u64,
    signed: i64,
    code: u32,
    plain: String,
    minus: String,
    hex: String,
    given: &str,
    read: Option<u64>,
)
    requires
        call_ensures(digits::decimal_text, (value as u128,), plain),
        call_ensures(digits::signed_text, (signed,), minus),
        call_ensures(digits::hex_text, (code,), hex),
        call_ensures(digits::parse_unsigned, (given,), read),
    ensures
        periods::is_number(plain@, 10),
        periods::reading(plain@, 10) == value,
        signed >= 0 ==> periods::reading(minus@, 10) == signed,
        signed < 0 ==> minus@.len() > 0 && minus@[0] == '-' && periods::reading(minus@.skip(1), 10)
            == -signed,
        periods::is_number(hex@, 16),
        periods::reading(hex@, 16) == code,
        given@ == plain@ || given@ == seq!['+'] + plain@ ==> read == Some(value),
        given@.len() == 0 ==> read is None,
{
    periods::written_numbers_read_back(value as nat, 10);
    periods::written_numbers_read_back(code as nat, 16);
    wording::decimals_hold_digits(value as nat);
    assert(digits::decimal_digit(plain@[0]));
    if signed >= 0 {
        periods::written_numbers_read_back(signed as nat, 10);
    } else {
        periods::written_numbers_read_back((-signed) as nat, 10);
        assert(minus@.skip(1) =~= digits::decimal((-signed) as nat));
    }
    if given@ == seq!['+'] + plain@ {
        assert(given@.drop_first() =~= plain@);
    }
}

/// The lines printed are those of the report on the statistics.
pub proof fn reports_are_of_the_statistics(
    statistics: &ArrivalStatistics,
    durations: &DurationTexts,
    lines: Vec<String>,
    i: int,
)
    requires
        call_ensures(output::print_statistics, (statistics, durations), lines),
    ensures
        ({
            let report = output::statistics_report(
                statistics.object_count as nat,
                match statistics.last_arrival {
                    Some(at) => Some(at@),
                    None => None,
                },
                statistics.health.status,
                statistics.health.cadence_source,
                *durations,
            );
            &&& lines@.len() == report.len()
            &&& 0 <= i < lines@.len() ==> lines@[i]@ == report[i]
        }),
{
    let shown = lines@.map_values(|line: String| line@);
    assert(shown.len() == lines@.len());
    if 0 <= i < lines@.len() {
        assert(shown[i] == lines@[i]@);
    }
}

/// A template resolves as far back as the calendar reaches.
pub proof fn templates_reach_back(
    parsed: DateTemplate,
    at: &Timestamp,
    lookback: u32,
    result: bool,
)
    requires
        call_ensures(DateTemplate::reaches, (&parsed, at, lookback), result),
    ensures
        template::finest(parsed@) == Some(Granularity::Hour) ==> (result <==> at@ / 1_000_000_000
            - 3_600 * lookback >= -8_334_601_228_800),
        template::finest(parsed@) == Some(Granularity::Day) ==> (result <==> at@ / 1_000_000_000
            - 86_400 * lookback >= -8_334_601_228_800),
        template::finest(parsed@) == Some(Granularity::Month) || template::finest(parsed@) == Some(
            Granularity::Year,
        ) ==> result,
{
}

/// One object is taken in as a listing of that object alone would be.
pub proof fn single_objects_are_taken_in(
    held: &mut RollingHistory,
    object: S3Object,
    update: HistoryUpdate,
    key: Seq<char>,
)
    requires
        retention::well_keyed(old(held)@),
        call_ensures(RollingHistory::upsert, (held, object), update),
    ensures
        final(held).limit() == old(held).limit(),
        final(held).cadence() == old(held).cadence(),
        final(held)@.contains_key(key) ==> final(held)@[key] == if key == object.key@ {
            object@
        } else {
            old(held)@[key]
        },
        final(held)@.contains_key(key) ==> key == object.key@ || old(held)@.contains_key(key),
        update.changes@.len() <= 1,
        update.changes@.len() == 1 ==> update.changes@[0]@.object == object@,
        update.changes@.len() == 1 <==> final(held)@.contains_key(object.key@) && !(old(
            held,
        )@.contains_key(object.key@) && old(held)@[object.key@] == object@),
{
    let listing = seq![object@];
    let was = old(held)@;
    let capacity = old(held).limit() as nat;
    retention::history_holds_last_observations(was, listing, capacity, key);
    retention::history_holds_last_observations(was, listing, capacity, object.key@);
    retention::changes_are_new_or_different(was, listing, capacity);
    arrivals::the_newest_are_kept(was, listing, capacity, key, key);
    arrivals::the_newest_are_kept(was, listing, capacity, object.key@, key);
    reveal_with_fuel(history::contents, 2);
    assert(listing.drop_last() =~= Seq::empty());
    let changes = model::changes_view(update.changes@);
    assert(changes.len() == update.changes@.len());
    assert forall|i: int| 0 <= i < changes.len() implies (#[trigger] changes[i]).object
        == object@ by {
        assert(final(held)@[changes[i].object.key] == changes[i].object);
        retention::history_holds_last_observations(
            was,
            listing,
            capacity,
            changes[i].object.key,
        );
        arrivals::the_newest_are_kept(
            was,
            listing,
            capacity,
            changes[i].object.key,
            changes[i].object.key,
        );
    }
    if changes.len() >= 2 {
        arrivals::updates_are_in_order(was, listing, capacity, 0, 1);
        assert(changes[0].object == object@ && changes[1].object == object@);
    }
    if changes.len() >= 1 {
        assert(changes[0] == update.changes@[0]@);
    }
}

/// An update is empty if nothing was added, altered or evicted; a history if it
/// holds no object.
pub proof fn nothing_is_empty(
    update: &HistoryUpdate,
    held: &RollingHistory,
    unchanged: bool,
    empty: bool,
    key: Seq<char>,
)
    requires
        call_ensures(HistoryUpdate::is_empty, (update,), unchanged),
        call_ensures(RollingHistory::is_empty, (held,), empty),
    ensures
        unchanged <==> update.changes@.len() == 0 && update.evicted@.len() == 0,
        empty ==> !held@.contains_key(key),
        held@.contains_key(key) ==> !empty,
{
}

/// Sorting keeps every value, puts none before one that it does not precede, and
/// leaves those that tie in the order in which they came.
pub proof fn sorting_is_stable<T, O: Order<T>>(
    items: Vec<T>,
    result: Vec<T>,
    i: int,
    j: int,
    value: T,
)
    requires
        call_ensures(sorting::sort::<T, O>, (items,), result),
    ensures
        result@.to_multiset() == items@.to_multiset(),
        0 <= i < j < result@.len() ==> !O::before(result@[j], result@[i]),
        result@.filter(|other: T| !O::before(value, other) && !O::before(other, value))
            == items@.filter(|other: T| !O::before(value, other) && !O::before(other, value)),
{
    assert(sorting::ties::<T, O>(result@, value) == sorting::ties::<T, O>(items@, value));
}

/// The input ends where nothing is left; a line that is too long is refused as
/// one, without an identifier, and only a whole line holds a message.
pub proof fn lines_are_read_or_refused(line: &ProtocolLine, outcome: LineOutcome)
    requires
        call_ensures(transport::read_line, (line,), outcome),
    ensures
        line is Eof <==> outcome is End,
        line is TooLarge ==> (outcome matches LineOutcome::Reply { id, error } && id is Null
            && error@.code == -32600 && error@.message == "Request exceeds maximum line length"@
            && error@.data is None),
        outcome is Message ==> line is Complete,
        outcome matches LineOutcome::Reply { id, error } ==> {
            &&& id is Null
            &&& line is Complete ==> error@.code == -32700 && error@.message == "Parse error"@
        },
{
}

/// A start that names its watcher is planned under that name.
pub proof fn starts_keep_their_names<F>(
    backend: CoreRuntime<F>,
    definition: &WatchDefinition,
    cancelled: bool,
    plan: StartPlan,
)
    requires
        call_ensures(
            CoreRuntime::<F>::watch_start,
            (&backend, definition, cancelled),
            Ok::<StartPlan, ErrorObject>(plan),
        ),
    ensures
        !cancelled,
        definition.id matches Some(id) ==> plan.config.id@ == id@,
        !backend@.contains_key(plan.config.id@),
        backend@.dom().len() < 32,
        plan.config.poll_interval_seconds == definition.poll_interval_seconds,
        plan.config.max_history == definition.history_limit,
{
}

/// A name for a file is portable as stated of names.
pub proof fn file_names_are_checked(value: &str, portable: bool, stem: Seq<char>)
    requires
        wording::is_stem(value@, stem),
        call_ensures(cli::is_portable_file_name, (value,), portable),
    ensures
        portable ==> value@ != "."@ && value@ != ".."@ && text::raised(stem) != "CON"@
            && text::raised(stem) != "NUL"@,
        portable ==> forall|i: int|
            0 <= i < value@.len() ==> #[trigger] value@[i] != '/' && value@[i] != '\\',
        portable <==> cli::portable(value@),
{
    wording::portable_names_are_plain(value@, stem);
}

} // verus!
