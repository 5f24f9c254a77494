//! The command line: its options, how they read, and what each command works
//! with.

use std::path::PathBuf;

use vstd::prelude::*;

use crate::digits;
use crate::digits::{decimal_text, parse_unsigned};
use crate::error::{StoreError, TemplateFault, UriFault};
use crate::history;
use crate::history::NewestFirst;
use crate::model::{ObjectChange, ObjectChangeKind, S3Object, WatcherConfig};
use crate::sorting;
use crate::sorting::{reversed, sort, Order};
use crate::template;
use crate::template::DateTemplate;
use crate::text;
use crate::text::{
    chars_of, find_char, is_control, lower_chars, matches_at, text_between, text_eq, text_of, trim_text,
    upper_chars,
};
use crate::time;
use crate::time::{millis_between, Timestamp, FIRST_SECOND};
use crate::uri;
use crate::uri::{S3Uri, UriView};

verus! {

/// Seconds between polls unless given.
pub const DEFAULT_POLL_INTERVAL: u64 = 30;

/// Objects retained, listed or printed unless given.
pub const DEFAULT_HISTORY_LIMIT: usize = 10_000;

/// The most objects that can be asked for.
pub const MAX_HISTORY_LIMIT: usize = 100_000;

/// The recent window of the history command unless given, in seconds.
pub const DEFAULT_HISTORY_WINDOW: u64 = 86_400;

/// The options that every command takes, and the command.
#[derive(Debug)]
pub struct Cli {
    /// AWS named profile. The normal AWS credential chain when omitted.
    pub profile: Option<String>,
    /// AWS region override. The normal AWS region chain when omitted.
    pub region: Option<String>,
    /// Emit machine-readable JSON instead of human-readable text.
    pub json: bool,
    pub command: Command,
}

/// What to do.
#[derive(Debug)]
pub enum Command {
    /// Continuously watch a bucket prefix for newly arrived objects.
    Watch(WatchArgs),
    /// Show bounded recent object-arrival history.
    History(HistoryArgs),
    /// Calculate arrival-frequency statistics.
    Stats(QueryArgs),
    /// List objects under a bucket or prefix.
    List(QueryArgs),
    /// Download one S3 object to disk.
    Download(DownloadArgs),
    /// Run the persistent JSON-RPC backend.
    Serve(ServeArgs),
}

/// The options of a watch. Durations are seconds.
#[derive(Debug)]
pub struct WatchArgs {
    /// S3 bucket or prefix URI, for example `s3://bucket/feed/`.
    pub target: String,
    pub interval: u64,
    /// Expected feed interval used for health evaluation.
    pub expected_interval: Option<u64>,
    /// Maximum number of objects retained in memory.
    pub history_limit: usize,
    /// Earlier periods to also watch when the target carries date placeholders.
    pub lookback: u32,
}

/// The options of a history.
#[derive(Debug)]
pub struct HistoryArgs {
    /// S3 bucket or prefix URI.
    pub target: String,
    /// Only objects modified during this many recent seconds.
    pub last: u64,
    /// Maximum objects to print.
    pub limit: usize,
    /// Earlier periods to also read when the target carries date placeholders.
    pub lookback: u32,
}

/// The options of a query.
#[derive(Debug)]
pub struct QueryArgs {
    /// S3 bucket or prefix URI.
    pub target: String,
    /// Maximum objects to retrieve and retain.
    pub limit: usize,
    /// Earlier periods to also read when the target carries date placeholders.
    pub lookback: u32,
}

/// The options of a download.
#[derive(Debug)]
pub struct DownloadArgs {
    /// Full S3 object URI.
    pub target: String,
    /// Local destination path. The object's file name when omitted.
    pub destination: Option<PathBuf>,
    /// Replace an existing destination file.
    pub overwrite: bool,
}

/// The options of the backend.
#[derive(Debug)]
pub struct ServeArgs {
    /// Newline-delimited JSON-RPC 2.0 over stdin/stdout.
    pub stdio: bool,
}

/// The number of leading decimal digits.
pub open spec fn leading_digits(text: Seq<char>) -> nat
    decreases text.len(),
{
    if text.len() == 0 || !digits::decimal_digit(text[0]) {
        0
    } else {
        1 + leading_digits(text.skip(1))
    }
}

proof fn leading_digits_are_digits(text: Seq<char>)
    ensures
        leading_digits(text) <= text.len(),
        forall|i: int| 0 <= i < leading_digits(text) ==> digits::decimal_digit(#[trigger] text[i]),
        leading_digits(text) < text.len() ==> !digits::decimal_digit(
            text[leading_digits(text) as int],
        ),
    decreases text.len(),
{
    if text.len() > 0 && digits::decimal_digit(text[0]) {
        let rest = text.skip(1);
        leading_digits_are_digits(rest);
        assert forall|i: int| 0 <= i < leading_digits(text) implies digits::decimal_digit(
            #[trigger] text[i],
        ) by {
            if i > 0 {
                assert(rest[i - 1] == text[i]);
            }
        }
        if leading_digits(text) < text.len() {
            assert(text[leading_digits(text) as int] == rest[leading_digits(rest) as int]);
        }
    }
}

/// The seconds that a duration unit stands for.
pub open spec fn unit_seconds(unit: Seq<char>) -> Option<nat> {
    if unit == ""@ || unit == "s"@ || unit == "sec"@ || unit == "secs"@ || unit == "second"@ || unit
        == "seconds"@ {
        Some(1)
    } else if unit == "m"@ || unit == "min"@ || unit == "mins"@ || unit == "minute"@ || unit
        == "minutes"@ {
        Some(60)
    } else if unit == "h"@ || unit == "hr"@ || unit == "hrs"@ || unit == "hour"@ || unit
        == "hours"@ {
        Some(3_600)
    } else if unit == "d"@ || unit == "day"@ || unit == "days"@ {
        Some(86_400)
    } else {
        None
    }
}

fn seconds_of_unit(unit: &str) -> (seconds: Option<u64>)
    ensures
        match seconds {
            Some(value) => unit_seconds(unit@) == Some(value as nat) && 1 <= value <= 86_400,
            None => unit_seconds(unit@) is None,
        },
{
    if text_eq(unit, "") || text_eq(unit, "s") || text_eq(unit, "sec") || text_eq(unit, "secs")
        || text_eq(unit, "second") || text_eq(unit, "seconds") {
        Some(1)
    } else if text_eq(unit, "m") || text_eq(unit, "min") || text_eq(unit, "mins") || text_eq(
        unit,
        "minute",
    ) || text_eq(unit, "minutes") {
        Some(60)
    } else if text_eq(unit, "h") || text_eq(unit, "hr") || text_eq(unit, "hrs") || text_eq(
        unit,
        "hour",
    ) || text_eq(unit, "hours") {
        Some(3_600)
    } else if text_eq(unit, "d") || text_eq(unit, "day") || text_eq(unit, "days") {
        Some(86_400)
    } else {
        None
    }
}

/// How a text reads as a duration in seconds, or what is wrong with it.
pub open spec fn read_duration(input: Seq<char>) -> Result<nat, Seq<char>> {
    let text = text::trimmed(input);
    let split = leading_digits(text) as int;
    let value = digits::digits_value(text.take(split));
    let unit = unit_seconds(text::lowered(text.skip(split)));
    if text.len() == 0 {
        Err("duration cannot be empty"@)
    } else if split == 0 || value > u64::MAX {
        Err("invalid duration: "@ + text)
    } else if unit is None {
        Err("unsupported duration unit in "@ + text)
    } else if value * unit->0 > u64::MAX {
        Err("duration is too large: "@ + text)
    } else if value == 0 {
        Err("duration must be greater than zero"@)
    } else {
        Ok(value * unit->0)
    }
}

/// Reads a duration such as `30`, `5m` or `2days`, in seconds.
pub fn parse_duration(input: &str) -> (result: Result<u64, String>)
    ensures
        match result {
            Ok(seconds) => read_duration(input@) == Ok::<nat, Seq<char>>(seconds as nat) && seconds
                > 0,
            Err(message) => read_duration(input@) == Err::<nat, Seq<char>>(message@),
        },
{
    let trimmed = trim_text(input);
    let characters = chars_of(trimmed.as_str());
    if characters.len() == 0 {
        return Err("duration cannot be empty".to_owned());
    }
    let ghost all = characters@;
    let mut split: usize = 0;
    proof {
        assert(all.skip(0) =~= all);
    }
    while split < characters.len() && '0' <= characters[split] && characters[split] <= '9'
        invariant
            characters@ == all,
            split <= all.len(),
            leading_digits(all) == split + leading_digits(all.skip(split as int)),
        decreases all.len() - split,
    {
        assert(all.skip(split as int)[0] == all[split as int]);
        assert(all.skip(split as int).skip(1) =~= all.skip(split + 1));
        split += 1;
    }
    proof {
        if split < all.len() {
            assert(all.skip(split as int)[0] == all[split as int]);
        }
        assert(leading_digits(all) == split);
        leading_digits_are_digits(all);
    }
    let number = text_between(&characters, 0, split);
    let unit = text_between(&characters, split, characters.len());
    proof {
        assert(number@ =~= all.take(split as int));
        assert(unit@ =~= all.skip(split as int));
        assert(digits::all_digits(number@));
        if split > 0 {
            assert(digits::decimal_digit(number@[0]));
        }
    }
    let value: u64 = match parse_unsigned(number.as_str()) {
        Some(value) => value,
        None => {
            return Err("invalid duration: ".to_owned().concat(trimmed.as_str()));
        },
    };
    let lowered = text_of(&lower_chars(&chars_of(unit.as_str())));
    let multiplier: u64 = match seconds_of_unit(lowered.as_str()) {
        Some(multiplier) => multiplier,
        None => {
            return Err("unsupported duration unit in ".to_owned().concat(trimmed.as_str()));
        },
    };
    let seconds: u64 = match value.checked_mul(multiplier) {
        Some(seconds) => seconds,
        None => {
            return Err("duration is too large: ".to_owned().concat(trimmed.as_str()));
        },
    };
    proof {
        assert((value > 0) == (value * multiplier > 0)) by (nonlinear_arith)
            requires
                multiplier >= 1,
        ;
    }
    if seconds == 0 {
        return Err("duration must be greater than zero".to_owned());
    }
    Ok(seconds)
}

/// How a text reads as a history limit, or what is wrong with it.
pub open spec fn read_history_limit(input: Seq<char>) -> Result<nat, Seq<char>> {
    match digits::unsigned_value(input) {
        Some(value) if value <= usize::MAX => if 1 <= value <= MAX_HISTORY_LIMIT {
            Ok(value)
        } else {
            Err(
                "history limit must be between 1 and "@ + digits::decimal(
                    MAX_HISTORY_LIMIT as nat,
                ),
            )
        },
        _ => Err("invalid history limit: "@ + input),
    }
}

/// Reads a history limit.
pub fn parse_history_limit(input: &str) -> (result: Result<usize, String>)
    ensures
        match result {
            Ok(limit) => read_history_limit(input@) == Ok::<nat, Seq<char>>(limit as nat),
            Err(message) => read_history_limit(input@) == Err::<nat, Seq<char>>(message@),
        },
{
    match parse_unsigned(input) {
        Some(value) if value <= usize::MAX as u64 => {
            let limit: usize = value as usize;
            if limit < 1 || limit > MAX_HISTORY_LIMIT {
                return Err(
                    "history limit must be between 1 and ".to_owned().concat(
                        decimal_text(MAX_HISTORY_LIMIT as u128).as_str(),
                    ),
                );
            }
            Ok(limit)
        },
        _ => Err("invalid history limit: ".to_owned().concat(input)),
    }
}

/// Reads a target, or says what is wrong with it.
pub fn parse_target(target: &str) -> (result: Result<S3Uri, String>)
    ensures
        match result {
            Ok(uri) => uri::read_uri(target@) == Ok::<UriView, UriFault>(uri@),
            Err(message) => uri::read_uri(target@) is Err && message@ == uri::read_uri(
                target@,
            )->Err_0.text(),
        },
{
    match S3Uri::parse(target) {
        Ok(uri) => Ok(uri),
        Err(error) => Err(error.message()),
    }
}

/// A text without the slashes at its end.
pub open spec fn without_trailing_slashes(text: Seq<char>) -> Seq<char>
    decreases text.len(),
{
    if text.len() > 0 && text.last() == '/' {
        without_trailing_slashes(text.drop_last())
    } else {
        text
    }
}

/// What stands behind the last slash of a text.
pub open spec fn last_component(text: Seq<char>) -> Seq<char>
    decreases text.len(),
{
    if text.len() == 0 || text.last() == '/' {
        Seq::empty()
    } else {
        last_component(text.drop_last()).push(text.last())
    }
}

/// The last component of a key, trailing slashes aside.
pub open spec fn file_name_of(key: Seq<char>) -> Seq<char> {
    last_component(without_trailing_slashes(key))
}

/// A character that some file system does not take in a name.
pub open spec fn unportable(c: char) -> bool {
    text::control(c) || c == '<' || c == '>' || c == ':' || c == '"' || c == '/' || c == '\\' || c
        == '|' || c == '?' || c == '*'
}

/// The part of a name before its first dot, in capitals.
pub open spec fn stem_of(name: Seq<char>) -> Seq<char> {
    text::raised(name.take(text::position(name, '.') as int))
}

/// A name that some file system reserves for a device.
pub open spec fn reserved(stem: Seq<char>) -> bool {
    ||| stem == "CON"@
    ||| stem == "PRN"@
    ||| stem == "AUX"@
    ||| stem == "NUL"@
    ||| stem.len() == 4 && (text::occurs_at(stem, "COM"@, 0) || text::occurs_at(stem, "LPT"@, 0))
        && '1' <= stem[3] <= '9'
}

/// Whether a name can be used for a file everywhere.
pub open spec fn portable(name: Seq<char>) -> bool {
    &&& name != "."@
    &&& name != ".."@
    &&& !(name.len() > 0 && (name.last() == ' ' || name.last() == '.'))
    &&& forall|i: int| 0 <= i < name.len() ==> !unportable(#[trigger] name[i])
    &&& !reserved(stem_of(name))
}

fn is_reserved(stem: &Vec<char>) -> (result: bool)
    ensures
        result == reserved(stem@),
{
    let written = text_of(stem);
    if text_eq(written.as_str(), "CON") || text_eq(written.as_str(), "PRN") || text_eq(
        written.as_str(),
        "AUX",
    ) || text_eq(written.as_str(), "NUL") {
        return true;
    }
    if stem.len() != 4 {
        return false;
    }
    let com = chars_of("COM");
    let lpt = chars_of("LPT");
    (matches_at(stem, &com, 0) || matches_at(stem, &lpt, 0)) && '1' <= stem[3] && stem[3] <= '9'
}

/// Whether a name can be used for a file everywhere.
pub fn is_portable_file_name(value: &str) -> (result: bool)
    ensures
        result == portable(value@),
{
    if text_eq(value, ".") || text_eq(value, "..") {
        return false;
    }
    let characters = chars_of(value);
    let length: usize = characters.len();
    if length > 0 && (characters[length - 1] == ' ' || characters[length - 1] == '.') {
        return false;
    }
    let mut i: usize = 0;
    while i < length
        invariant
            characters@ == value@,
            length == characters@.len(),
            i <= length,
            forall|j: int| 0 <= j < i ==> !unportable(#[trigger] value@[j]),
        decreases length - i,
    {
        let c = characters[i];
        if is_control(c) || c == '<' || c == '>' || c == ':' || c == '"' || c == '/' || c == '\\' || c
            == '|' || c == '?' || c == '*' {
            assert(unportable(value@[i as int]));
            return false;
        }
        i += 1;
    }
    let dot: usize = find_char(&characters, '.', 0);
    let stem = text_between(&characters, 0, dot);
    proof {
        assert(value@.skip(0) =~= value@);
        assert(stem@ =~= value@.take(dot as int));
    }
    let raised = upper_chars(&chars_of(stem.as_str()));
    !is_reserved(&raised)
}

/// The local file name to download an object to, or why there is none.
pub fn default_destination(source: &S3Uri) -> (result: Result<String, String>)
    ensures
        ({
            let name = file_name_of(source@.prefix);
            match result {
                Ok(file_name) => file_name@ == name && name.len() > 0 && portable(name),
                Err(message) => if name.len() == 0 {
                    message@ == "download requires a full S3 object URI"@
                } else {
                    !portable(name) && message@
                        == "object name is unsafe as a default path; provide an explicit destination"@
                },
            }
        }),
{
    let characters = chars_of(source.prefix.as_str());
    let ghost key = characters@;
    let mut end: usize = characters.len();
    assert(key.take(end as int) =~= key);
    while end > 0 && characters[end - 1] == '/'
        invariant
            characters@ == key,
            end <= key.len(),
            without_trailing_slashes(key) == without_trailing_slashes(key.take(end as int)),
        decreases end,
    {
        assert(key.take(end as int).drop_last() =~= key.take(end - 1));
        end -= 1;
    }
    let ghost shown = key.take(end as int);
    assert(without_trailing_slashes(key) == shown);
    let mut start: usize = end;
    assert(shown.take(end as int) =~= shown);
    assert(last_component(shown) =~= last_component(shown.take(start as int)) + shown.subrange(
        start as int,
        end as int,
    ));
    while start > 0 && characters[start - 1] != '/'
        invariant
            characters@ == key,
            shown == key.take(end as int),
            start <= end <= key.len(),
            last_component(shown) == last_component(shown.take(start as int)) + shown.subrange(
                start as int,
                end as int,
            ),
        decreases start,
    {
        proof {
            let part = shown.take(start as int);
            assert(part.drop_last() =~= shown.take(start - 1));
            assert(part.last() == key[start - 1]);
            assert(last_component(part) + shown.subrange(start as int, end as int)
                =~= last_component(shown.take(start - 1)) + shown.subrange(
                start - 1,
                end as int,
            ));
        }
        start -= 1;
    }
    proof {
        let part = shown.take(start as int);
        if start > 0 {
            assert(part.last() == key[start - 1]);
        }
        assert(last_component(part) =~= Seq::empty());
        assert(last_component(shown) =~= key.subrange(start as int, end as int));
    }
    let file_name = text_between(&characters, start, end);
    if file_name.as_str().is_empty() {
        return Err("download requires a full S3 object URI".to_owned());
    }
    if !is_portable_file_name(file_name.as_str()) {
        return Err(
            "object name is unsafe as a default path; provide an explicit destination".to_owned(),
        );
    }
    Ok(file_name)
}

/// A default destination is a plain name: it names neither another directory
/// nor a device.
pub proof fn default_destinations_stay_in_place(name: Seq<char>)
    requires
        portable(name),
    ensures
        forall|i: int| 0 <= i < name.len() ==> name[i] != '/' && name[i] != '\\' && name[i] != ':',
        name != "."@,
        name != ".."@,
        !reserved(stem_of(name)),
{
    assert forall|i: int| 0 <= i < name.len() implies name[i] != '/' && name[i] != '\\' && name[i]
        != ':' by {
        assert(!unportable(name[i]));
    }
}

/// The prefixes that a query reads at an instant.
pub open spec fn queried_prefixes(
    prefix: Seq<char>,
    at: int,
    lookback: nat,
) -> Result<Seq<Seq<char>>, TemplateFault> {
    match template::read_template(prefix) {
        Err(fault) => Err(fault),
        Ok(tokens) => if template::finest(tokens) is None {
            Ok(seq![prefix])
        } else {
            Ok(template::resolved(tokens, at, lookback))
        },
    }
}

/// Whether the time line reaches far enough back from an instant to resolve a
/// target.
pub fn can_resolve_targets(target: &S3Uri, at: &Timestamp, lookback: u32) -> (result: bool)
    ensures
        result == (template::read_template(target@.prefix) matches Ok(tokens)
            ==> template::reaches_back(tokens, at@ / 1_000_000_000, lookback as int)),
{
    match DateTemplate::parse(target.prefix.as_str()) {
        Ok(Some(template)) => template.reaches(at, lookback),
        _ => true,
    }
}

/// Resolves date placeholders, if any, to the concrete prefixes to read.
pub fn resolve_targets(target: &S3Uri, at: Timestamp, lookback: u32) -> (result: Result<
    Vec<S3Uri>,
    String,
>)
    requires
        template::read_template(target@.prefix) matches Ok(tokens) ==> template::reaches_back(
            tokens,
            at@ / 1_000_000_000,
            lookback as int,
        ),
    ensures
        match (result, queried_prefixes(target@.prefix, at@, lookback as nat)) {
            (Ok(targets), Ok(prefixes)) => targets@.map_values(|uri: S3Uri| uri@)
                == uri::in_bucket(target@.bucket, prefixes),
            (Err(message), Err(fault)) => message@ == fault.text(),
            _ => false,
        },
{
    match DateTemplate::parse(target.prefix.as_str()) {
        Err(error) => Err(error.message()),
        Ok(None) => {
            let targets = vec![target.copy()];
            assert(targets@.map_values(|uri: S3Uri| uri@) =~= uri::in_bucket(
                target@.bucket,
                seq![target@.prefix],
            ));
            Ok(targets)
        },
        Ok(Some(template)) => Ok(target.with_prefixes(&template.resolve(at, lookback))),
    }
}

/// The newest objects, newest first.
pub fn newest_objects(objects: Vec<S3Object>, limit: usize) -> (result: Vec<S3Object>)
    ensures
        result@ == history::first(
            sorting::sorted::<S3Object, NewestFirst>(objects@),
            limit as nat,
        ),
        sorting::sorted::<S3Object, NewestFirst>(objects@).len() == objects@.len(),
        result@.len() <= limit,
{
    let mut result = sort::<S3Object, NewestFirst>(objects);
    let ghost all = result@;
    result.truncate(limit);
    assert(result@ =~= history::first(all, limit as nat));
    result
}

/// The start of a window of recent seconds.
///
/// The greatest window is that of chrono's durations.
pub fn history_cutoff(now: &Timestamp, last: u64) -> (result: Result<Timestamp, String>)
    requires
        last <= MAX_WINDOW_SECONDS ==> now@ / 1_000_000_000 - last >= FIRST_SECOND,
    ensures
        match result {
            Ok(cutoff) => last <= MAX_WINDOW_SECONDS && cutoff@ == now@ - last * 1_000_000_000,
            Err(message) => last > MAX_WINDOW_SECONDS && message@
                == "Source duration value is out of range for the target type"@,
        },
{
    if last > MAX_WINDOW_SECONDS {
        return Err("Source duration value is out of range for the target type".to_owned());
    }
    Ok(now.minus_seconds(last))
}

/// The longest window that can be asked for, in seconds.
pub const MAX_WINDOW_SECONDS: u64 = 9_223_372_036_854_775;

/// The newest objects since an instant, newest first.
pub fn recent_objects(objects: Vec<S3Object>, cutoff: &Timestamp, limit: usize) -> (result: Vec<
    S3Object,
>)
    ensures
        result@ == history::first(
            sorting::sorted::<S3Object, NewestFirst>(
                objects@.filter(|object: S3Object| object.last_modified@ >= cutoff@),
            ),
            limit as nat,
        ),
{
    let ghost all = objects@;
    let ghost wanted = |object: S3Object| object.last_modified@ >= cutoff@;
    let mut rest = reversed(objects);
    let mut kept: Vec<S3Object> = Vec::new();
    let ghost mut taken: int = 0;
    proof {
        reveal(Seq::filter);
        assert(all.take(0).filter(wanted) =~= Seq::empty());
        assert(all.skip(0) =~= all);
    }
    while rest.len() > 0
        invariant
            0 <= taken <= all.len(),
            rest@ == all.skip(taken).reverse(),
            wanted == (|object: S3Object| object.last_modified@ >= cutoff@),
            kept@ == all.take(taken).filter(wanted),
        decreases rest@.len(),
    {
        let ghost before = rest@;
        if let Some(object) = rest.pop() {
            proof {
                assert(before.last() == all[taken]);
                assert(all.take(taken + 1).drop_last() =~= all.take(taken));
                assert(all.take(taken + 1).last() == object);
                assert(rest@ =~= all.skip(taken + 1).reverse());
                reveal(Seq::filter);
            }
            if !object.last_modified.is_before(cutoff) {
                kept.push(object);
            }
            proof {
                taken = taken + 1;
            }
        }
    }
    assert(all.take(taken) =~= all);
    newest_objects(kept, limit)
}

/// Changes in the order in which their objects arrived.
pub struct ByArrival;

impl Order<ObjectChange> for ByArrival {
    open spec fn before(a: ObjectChange, b: ObjectChange) -> bool {
        a.object.last_modified@ < b.object.last_modified@
    }

    proof fn is_strict(a: ObjectChange, b: ObjectChange, c: ObjectChange) {
    }

    fn is_before(a: &ObjectChange, b: &ObjectChange) -> (result: bool) {
        a.object.last_modified.is_before(&b.object.last_modified)
    }
}

/// The changes of a poll in the order in which a watch prints them: oldest
/// arrival first, ties as they were reported.
pub fn in_arrival_order(changes: Vec<ObjectChange>) -> (result: Vec<ObjectChange>)
    ensures
        result@ == sorting::sorted::<ObjectChange, ByArrival>(changes@),
{
    sort::<ObjectChange, ByArrival>(changes)
}

/// The event name of a change.
pub fn change_event(kind: ObjectChangeKind) -> (name: &'static str)
    ensures
        name@ == event_name(kind),
{
    if kind == ObjectChangeKind::Added {
        "object.added"
    } else {
        "object.updated"
    }
}

/// An object as a watch announces it.
#[derive(Debug, PartialEq, Eq)]
pub struct Arrival {
    /// What happened to it.
    pub event: &'static str,
    pub object: S3Object,
    /// Milliseconds since the arrival announced before it, if there was one; none
    /// have passed if it is the older of the two.
    pub since_previous: Option<u64>,
}

/// The event name of a change.
pub open spec fn event_name(kind: ObjectChangeKind) -> Seq<char> {
    if kind == ObjectChangeKind::Added {
        "object.added"@
    } else {
        "object.updated"@
    }
}

/// When the object announced before the `i`-th of the changes arrived, given that
/// of the object announced before all of them.
pub open spec fn arrival_before(
    changes: Seq<ObjectChange>,
    previous: Option<int>,
    i: int,
) -> Option<int> {
    if i == 0 {
        previous
    } else {
        Some(changes[i - 1].object.last_modified@)
    }
}

/// Whether an arrival announces a change after one at a known time.
pub open spec fn announces(
    arrival: Arrival,
    change: ObjectChange,
    previous: Option<int>,
) -> bool {
    &&& arrival.event@ == event_name(change.kind)
    &&& arrival.object == change.object
    &&& arrival.since_previous == match previous {
        Some(at) => Some(time::elapsed_millis(at, change.object.last_modified@) as u64),
        None => None,
    }
}

/// The changes of a poll as a watch announces them: oldest arrival first, each
/// with the time since the one before it. Also gives the arrival announced last,
/// from which the next poll counts on.
pub fn announce(changes: Vec<ObjectChange>, previous: Option<Timestamp>) -> (result: (
    Vec<Arrival>,
    Option<Timestamp>,
))
    ensures
        ({
            let ordered = sorting::sorted::<ObjectChange, ByArrival>(changes@);
            let before = match previous {
                Some(at) => Some(at@),
                None => None,
            };
            &&& result.0@.len() == ordered.len()
            &&& forall|i: int|
                0 <= i < ordered.len() ==> announces(
                    #[trigger] result.0@[i],
                    ordered[i],
                    arrival_before(ordered, before, i),
                )
            &&& match result.1 {
                Some(at) => Some(at@) == arrival_before(ordered, before, ordered.len() as int),
                None => arrival_before(ordered, before, ordered.len() as int) is None,
            }
        }),
{
    let ordered = in_arrival_order(changes);
    let ghost all = ordered@;
    let ghost before = match previous {
        Some(at) => Some(at@),
        None => None,
    };
    let mut last: Option<Timestamp> = previous;
    let mut arrivals: Vec<Arrival> = Vec::new();
    for change in iter: ordered
        invariant
            iter.seq() == all,
            arrivals@.len() == iter.index(),
            forall|i: int|
                0 <= i < iter.index() ==> announces(
                    #[trigger] arrivals@[i],
                    all[i],
                    arrival_before(all, before, i),
                ),
            match last {
                Some(at) => Some(at@) == arrival_before(all, before, iter.index() as int),
                None => arrival_before(all, before, iter.index() as int) is None,
            },
    {
        let arrived = change.object.last_modified;
        let since_previous: Option<u64> = match &last {
            Some(at) => Some(millis_between(at, &arrived)),
            None => None,
        };
        let event = change_event(change.kind);
        arrivals.push(Arrival { event, object: change.object, since_previous });
        last = Some(arrived);
    }
    (arrivals, last)
}

/// How a download from the command line ends: with what came of it, unless it was
/// cancelled.
pub fn download_outcome<T>(result: Result<T, StoreError>, cancelled: bool) -> (outcome: Result<
    T,
    String,
>)
    ensures
        match outcome {
            Ok(value) => result == Ok::<T, StoreError>(value) && !cancelled,
            Err(message) => match result {
                Ok(_) => cancelled && message@ == "download cancelled"@,
                Err(error) => message@ == error.message@,
            },
        },
{
    match result {
        Ok(value) => {
            if cancelled {
                Err("download cancelled".to_owned())
            } else {
                Ok(value)
            }
        },
        Err(error) => Err(error.message),
    }
}

/// The configuration of the statistics command.
pub fn stats_config(
    target: S3Uri,
    profile: Option<String>,
    region: Option<String>,
    args: &QueryArgs,
) -> (config: WatcherConfig)
    ensures
        config.id@ == "stats"@,
        config.name@ == uri::uri_text(target@),
        config.target == target,
        config.profile == profile,
        config.region == region,
        config.poll_interval_seconds == DEFAULT_POLL_INTERVAL,
        config.expected_interval_seconds is None,
        config.max_history == args.limit,
        config.lookback_periods == args.lookback,
        config.time_zone is None,
{
    WatcherConfig {
        id: "stats".to_owned(),
        name: target.to_text(),
        target,
        profile,
        region,
        poll_interval_seconds: DEFAULT_POLL_INTERVAL,
        expected_interval_seconds: None,
        max_history: args.limit,
        lookback_periods: args.lookback,
        time_zone: None,
    }
}

/// The configuration of the watch command.
pub fn watch_config(
    target: S3Uri,
    profile: Option<String>,
    region: Option<String>,
    args: &WatchArgs,
) -> (config: WatcherConfig)
    ensures
        config.id@ == "cli"@,
        config.name@ == uri::uri_text(target@),
        config.target == target,
        config.profile == profile,
        config.region == region,
        config.poll_interval_seconds == args.interval,
        config.expected_interval_seconds == args.expected_interval,
        config.max_history == args.history_limit,
        config.lookback_periods == args.lookback,
        config.time_zone is None,
{
    WatcherConfig {
        id: "cli".to_owned(),
        name: target.to_text(),
        target,
        profile,
        region,
        poll_interval_seconds: args.interval,
        expected_interval_seconds: args.expected_interval,
        max_history: args.history_limit,
        lookback_periods: args.lookback,
        time_zone: None,
    }
}

} // verus!
