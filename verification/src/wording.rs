//! What texts promise: how they are searched, trimmed and read, and what the
//! words of a failure mean.

use vstd::prelude::*;

use crate::cli;
use crate::digits;
use crate::error;
use crate::error::StoreErrorKind;
use crate::periods;
use crate::text;
use crate::time;

verus! {

/// Whether a text holds another somewhere.
pub open spec fn holds(whole: Seq<char>, part: Seq<char>) -> bool {
    exists|before: Seq<char>, after: Seq<char>| whole == #[trigger] (before + part + after)
}

/// A text occurs in another exactly if that is the text with something before
/// and after it, and begins it exactly if nothing comes before.
pub proof fn occurrences_split_a_text(whole: Seq<char>, part: Seq<char>)
    ensures
        text::occurs(whole, part) <==> holds(whole, part),
        text::begins_with(whole, part) <==> exists|after: Seq<char>| whole == #[trigger] (part
            + after),
{
    if text::occurs(whole, part) {
        let at = choose|at: int| #[trigger] text::occurs_at(whole, part, at);
        let before = whole.take(at);
        let after = whole.skip(at + part.len());
        assert(whole =~= before + part + after) by {
            assert forall|i: int| at <= i < at + part.len() implies whole[i] == part[i - at] by {
                assert(whole.subrange(at, at + part.len())[i - at] == part[i - at]);
            }
        }
        assert(whole == before + part + after);
    }
    if holds(whole, part) {
        let (before, after) = choose|before: Seq<char>, after: Seq<char>|
            whole == #[trigger] (before + part + after);
        assert(whole.subrange(before.len() as int, before.len() as int + part.len()) =~= part);
        assert(text::occurs_at(whole, part, before.len() as int));
    }
    if text::begins_with(whole, part) {
        let after = whole.skip(part.len() as int);
        assert(whole =~= part + after) by {
            assert forall|i: int| 0 <= i < part.len() implies whole[i] == part[i] by {
                assert(whole.subrange(0, part.len() as int)[i] == part[i]);
            }
        }
    }
    if exists|after: Seq<char>| whole == #[trigger] (part + after) {
        let after = choose|after: Seq<char>| whole == #[trigger] (part + after);
        assert(whole.subrange(0, part.len() as int) =~= part);
    }
}

/// Trimming takes white space off both ends and nothing else.
pub proof fn trimming_takes_white_space_off(value: Seq<char>)
    ensures
        exists|before: Seq<char>, after: Seq<char>|
            {
                &&& value == #[trigger] (before + text::trimmed(value) + after)
                &&& forall|i: int| 0 <= i < before.len() ==> text::white_space(#[trigger] before[i])
                &&& forall|i: int| 0 <= i < after.len() ==> text::white_space(#[trigger] after[i])
            },
        text::trimmed(value).len() > 0 ==> !text::white_space(text::trimmed(value)[0])
            && !text::white_space(text::trimmed(value).last()),
    decreases value.len(),
{
    let none = Seq::<char>::empty();
    if value.len() == 0 {
        assert(value =~= none + text::trimmed(value) + none);
    } else if text::white_space(value[0]) {
        let rest = value.drop_first();
        trimming_takes_white_space_off(rest);
        let (before, after) = choose|before: Seq<char>, after: Seq<char>|
            {
                &&& rest == #[trigger] (before + text::trimmed(rest) + after)
                &&& forall|i: int| 0 <= i < before.len() ==> text::white_space(#[trigger] before[i])
                &&& forall|i: int| 0 <= i < after.len() ==> text::white_space(#[trigger] after[i])
            };
        let longer = seq![value[0]] + before;
        assert forall|i: int| 0 <= i < longer.len() implies text::white_space(
            #[trigger] longer[i],
        ) by {
            if i > 0 {
                assert(longer[i] == before[i - 1]);
            }
        }
        assert(value =~= seq![value[0]] + rest);
        assert(value =~= longer + text::trimmed(value) + after);
    } else if text::white_space(value.last()) {
        let rest = value.drop_last();
        trimming_takes_white_space_off(rest);
        let (before, after) = choose|before: Seq<char>, after: Seq<char>|
            {
                &&& rest == #[trigger] (before + text::trimmed(rest) + after)
                &&& forall|i: int| 0 <= i < before.len() ==> text::white_space(#[trigger] before[i])
                &&& forall|i: int| 0 <= i < after.len() ==> text::white_space(#[trigger] after[i])
            };
        let longer = after.push(value.last());
        assert forall|i: int| 0 <= i < longer.len() implies text::white_space(
            #[trigger] longer[i],
        ) by {
            if i < after.len() {
                assert(longer[i] == after[i]);
            }
        }
        assert(value =~= rest.push(value.last()));
        assert(value =~= before + text::trimmed(value) + longer);
    } else {
        assert(value =~= none + text::trimmed(value) + none);
    }
}

/// Of the ASCII characters, white space is the blank and the five from the tab
/// to the carriage return; control characters are those below the blank and the
/// last one.
pub proof fn ascii_classes(c: char)
    requires
        (c as u32) < 128,
    ensures
        text::white_space(c) <==> c as u32 == 32 || 9 <= c as u32 <= 13,
        text::control(c) <==> (c as u32) < 32 || c as u32 == 127,
{
}

/// Changing the case changes ASCII letters only, and only their case.
pub proof fn case_changes_letters_only(value: Seq<char>, i: int)
    requires
        0 <= i < value.len(),
    ensures
        text::lowered(value).len() == value.len(),
        text::raised(value).len() == value.len(),
        ({
            let c = value[i] as u32;
            &&& text::lowered(value)[i] as u32 == if 65 <= c <= 90 {
                (c + 32) as u32
            } else {
                c
            }
            &&& text::raised(value)[i] as u32 == if 97 <= c <= 122 {
                (c - 32) as u32
            } else {
                c
            }
        }),
{
}

/// The whole milliseconds between two instants, and nothing backwards.
pub proof fn elapsed_time_is_whole_milliseconds(earlier: int, later: int)
    ensures
        ({
            let millis = time::elapsed_millis(earlier, later) as int;
            if later >= earlier {
                1_000_000 * millis <= later - earlier < 1_000_000 * (millis + 1)
            } else {
                millis == 0
            }
        }),
{
}

/// Whether any of some words occurs in a text.
pub open spec fn holds_any(whole: Seq<char>, words: Seq<Seq<char>>) -> bool {
    exists|i: int| 0 <= i < words.len() && holds(whole, #[trigger] words[i])
}

proof fn mentions_are_occurrences(whole: Seq<char>, words: Seq<Seq<char>>)
    ensures
        error::mentions(whole, words) <==> holds_any(whole, words),
{
    assert forall|i: int| 0 <= i < words.len() implies text::occurs(whole, #[trigger] words[i])
        == holds(whole, words[i]) by {
        occurrences_split_a_text(whole, words[i]);
    }
    if error::mentions(whole, words) {
        let i = choose|i: int| 0 <= i < words.len() && text::occurs(whole, #[trigger] words[i]);
        assert(holds(whole, words[i]));
    }
    if holds_any(whole, words) {
        let i = choose|i: int| 0 <= i < words.len() && holds(whole, #[trigger] words[i]);
        assert(text::occurs(whole, words[i]));
    }
}

/// A failed call is put in its category by the words of the service's code and of
/// the error's messages, whatever their case: first what speaks of credentials,
/// then of refused access, of something missing, of the connection. Only the
/// last, and what says nothing of the kind, is worth another try.
pub proof fn failures_are_told_by_their_words(
    operation: Seq<char>,
    code: Seq<char>,
    service_message: Option<Seq<char>>,
    chain: Seq<char>,
)
    ensures
        ({
            let failure = error::service_failure(operation, code, service_message, chain);
            let words = text::lowered(code + " "@ + chain);
            let credentials = holds_any(
                words,
                seq![
                    "expiredtoken"@,
                    "expired token"@,
                    "invalidclienttokenid"@,
                    "invalidaccesskeyid"@,
                    "signaturedoesnotmatch"@,
                    "tokenrefreshrequired"@,
                    "unrecognizedclient"@,
                    "credential"@,
                ],
            );
            let denied = holds_any(
                words,
                seq!["accessdenied"@, "access denied"@, "forbidden"@, "allaccessdisabled"@],
            );
            let missing = holds_any(
                words,
                seq!["nosuchbucket"@, "nosuchkey"@, "no such key"@, "not found"@, "notfound"@],
            );
            let network = holds_any(
                words,
                seq!["timeout"@, "dispatch failure"@, "connection"@, "connect"@, "dns"@],
            );
            &&& failure.kind == StoreErrorKind::Authentication <==> credentials
            &&& failure.kind == StoreErrorKind::AccessDenied <==> denied && !credentials
            &&& failure.kind == StoreErrorKind::NotFound <==> missing && !denied && !credentials
            &&& failure.kind == StoreErrorKind::Network <==> network && !missing && !denied
                && !credentials
            &&& failure.kind == StoreErrorKind::Other <==> !network && !missing && !denied
                && !credentials
            &&& failure.retryable <==> !missing && !denied && !credentials
        }),
{
    let words = text::lowered(code + " "@ + chain);
    mentions_are_occurrences(words, error::authentication_words());
    mentions_are_occurrences(words, error::denial_words());
    mentions_are_occurrences(words, error::absence_words());
    mentions_are_occurrences(words, error::network_words());
}

/// The message of a failed call names the operation, the service's code if there
/// is one, and what the service says, without white space around it, or else the
/// messages of the error.
pub proof fn failure_messages_are_concise(
    operation: Seq<char>,
    code: Seq<char>,
    service_message: Option<Seq<char>>,
    chain: Seq<char>,
)
    ensures
        ({
            let failure = error::service_failure(operation, code, service_message, chain);
            let said = service_message is Some && !text::blank(service_message->0);
            let detail = if said {
                text::trimmed(service_message->0)
            } else {
                chain
            };
            &&& code.len() == 0 ==> failure.message == operation + " failed: "@ + detail
            &&& code.len() > 0 ==> failure.message == operation + " failed: "@ + code + ": "@
                + detail
        }),
{
    if service_message is Some {
        text::trimmed_is_empty_exactly_when_blank(service_message->0);
    }
}

/// The text of an error begins with its own message and goes on with what its
/// sources add: each message that it does not hold yet, after a colon.
pub proof fn chains_tell_everything_once(messages: Seq<String>, next: String, i: int)
    ensures
        error::chain_text(seq![next]) == next@,
        messages.len() > 0 ==> error::chain_text(messages.push(next)) == if holds(
            error::chain_text(messages),
            next@,
        ) {
            error::chain_text(messages)
        } else {
            error::chain_text(messages) + ": "@ + next@
        },
        0 <= i < messages.len() ==> holds(error::chain_text(messages), messages[i]@),
    decreases messages.len(),
{
    assert(messages.push(next).drop_last() =~= messages);
    occurrences_split_a_text(error::chain_text(messages), next@);
    if 0 <= i < messages.len() {
        let front = messages.drop_last();
        let last = messages.last();
        let all = error::chain_text(messages);
        let none = Seq::<char>::empty();
        if messages.len() == 1 {
            assert(all =~= none + messages[i]@ + none);
        } else {
            let head = error::chain_text(front);
            occurrences_split_a_text(head, last@);
            if i < front.len() {
                chains_tell_everything_once(front, last, i);
                assert(front[i] == messages[i]);
                let (before, after) = choose|before: Seq<char>, after: Seq<char>|
                    head == #[trigger] (before + messages[i]@ + after);
                if all != head {
                    assert(all =~= before + messages[i]@ + (after + ": "@ + last@));
                }
            } else if all == head {
                assert(holds(head, last@));
            } else {
                assert(all =~= (head + ": "@) + last@ + none);
            }
        }
    }
}

proof fn digits_are_counted(number: Seq<char>, rest: Seq<char>)
    requires
        digits::all_digits(number),
        rest.len() == 0 || !digits::decimal_digit(rest[0]),
    ensures
        cli::leading_digits(number + rest) == number.len(),
    decreases number.len(),
{
    let whole = number + rest;
    if number.len() == 0 {
        assert(whole =~= rest);
    } else {
        let next = number.skip(1);
        assert(digits::decimal_digit(number[0]));
        assert forall|i: int| 0 <= i < next.len() implies digits::decimal_digit(
            #[trigger] next[i],
        ) by {
            assert(next[i] == number[i + 1]);
        }
        digits_are_counted(next, rest);
        assert(whole.skip(1) =~= next + rest);
        assert(whole[0] == number[0]);
    }
}

/// A number is written in decimal digits that stand for it.
pub proof fn decimals_hold_digits(value: nat)
    ensures
        digits::all_digits(digits::decimal(value)),
        digits::digits_value(digits::decimal(value)) == value,
        digits::decimal(value).len() > 0,
    decreases value,
{
    let number = digits::decimal(value);
    periods::written_numbers_read_back(value, 10);
    assert forall|i: int| 0 <= i < number.len() implies digits::decimal_digit(
        #[trigger] number[i],
    ) by {
        assert(0 <= periods::figure(number[i]) < 10);
    }
    if value < 10 {
        assert(number.drop_last() =~= Seq::empty());
        reveal_with_fuel(digits::digits_value, 2);
    } else {
        decimals_hold_digits(value / 10);
        assert(number.drop_last() =~= digits::decimal(value / 10));
    }
}

/// Whether a text consists of ASCII letters.
pub open spec fn is_word(value: Seq<char>) -> bool {
    forall|i: int|
        0 <= i < value.len() ==> 'a' <= (#[trigger] value[i]) <= 'z' || 'A' <= value[i] <= 'Z'
}

/// The seconds that a word for a unit of time stands for, in whatever case; a
/// number alone counts seconds.
pub open spec fn means(unit: Seq<char>, seconds: nat) -> bool {
    let word = text::lowered(unit);
    ||| seconds == 1 && (word.len() == 0 || word == "s"@ || word == "sec"@ || word == "secs"@ || word
        == "second"@ || word == "seconds"@)
    ||| seconds == 60 && (word == "m"@ || word == "min"@ || word == "mins"@ || word == "minute"@
        || word == "minutes"@)
    ||| seconds == 60 * 60 && (word == "h"@ || word == "hr"@ || word == "hrs"@ || word == "hour"@
        || word == "hours"@)
    ||| seconds == 24 * 60 * 60 && (word == "d"@ || word == "day"@ || word == "days"@)
}

proof fn units_differ(unit: Seq<char>, seconds: nat)
    ensures
        means(unit, seconds) <==> cli::unit_seconds(text::lowered(unit)) == Some(seconds),
{
    reveal_strlit("");
    reveal_strlit("s");
    reveal_strlit("sec");
    reveal_strlit("secs");
    reveal_strlit("second");
    reveal_strlit("seconds");
    reveal_strlit("m");
    reveal_strlit("min");
    reveal_strlit("mins");
    reveal_strlit("minute");
    reveal_strlit("minutes");
    reveal_strlit("h");
    reveal_strlit("hr");
    reveal_strlit("hrs");
    reveal_strlit("hour");
    reveal_strlit("hours");
    reveal_strlit("d");
    reveal_strlit("day");
    reveal_strlit("days");
    let word = text::lowered(unit);
    assert(word.len() == 0 ==> word =~= ""@);
    assert("s"@[0] == 's' && "sec"@[0] == 's' && "secs"@[0] == 's' && "second"@[0] == 's');
    assert("seconds"@[0] == 's' && "m"@[0] == 'm' && "min"@[0] == 'm' && "mins"@[0] == 'm');
    assert("minute"@[0] == 'm' && "minutes"@[0] == 'm' && "h"@[0] == 'h' && "hr"@[0] == 'h');
    assert("hrs"@[0] == 'h' && "hour"@[0] == 'h' && "hours"@[0] == 'h' && "d"@[0] == 'd');
    assert("day"@[0] == 'd' && "days"@[0] == 'd');
}

/// A duration is a number and a unit: it lasts that number of units. It is
/// refused if it is nothing, more than fits, or in a unit that there is not.
pub proof fn durations_read_in_their_unit(value: nat, unit: Seq<char>, seconds: nat)
    requires
        is_word(unit),
    ensures
        ({
            let written = digits::decimal(value) + unit;
            let read = cli::read_duration(written);
            &&& value > u64::MAX ==> read == Err::<nat, Seq<char>>("invalid duration: "@ + written)
            &&& value <= u64::MAX && means(unit, seconds) ==> read == if value * seconds
                > u64::MAX {
                Err::<nat, Seq<char>>("duration is too large: "@ + written)
            } else if value == 0 {
                Err::<nat, Seq<char>>("duration must be greater than zero"@)
            } else {
                Ok::<nat, Seq<char>>(value * seconds)
            }
            &&& value <= u64::MAX && (forall|other: nat| !means(unit, other)) ==> read == Err::<
                nat,
                Seq<char>,
            >("unsupported duration unit in "@ + written)
        }),
{
    let number = digits::decimal(value);
    let written = number + unit;
    decimals_hold_digits(value);
    digits_are_counted(number, unit);
    assert(digits::decimal_digit(number[0]) && digits::decimal_digit(number[number.len() - 1]));
    assert(written[0] == number[0]);
    assert(written.last() == if unit.len() > 0 {
        unit[unit.len() - 1]
    } else {
        number[number.len() - 1]
    });
    assert(text::trimmed(written) == written);
    assert(written.take(number.len() as int) =~= number);
    assert(written.skip(number.len() as int) =~= unit);
    units_differ(unit, seconds);
    match cli::unit_seconds(text::lowered(unit)) {
        Some(found) => {
            units_differ(unit, found);
            assert(means(unit, found));
        },
        None => {},
    }
}

/// White space around a duration makes no difference.
pub proof fn durations_may_stand_apart(value: Seq<char>)
    ensures
        cli::read_duration(value) == cli::read_duration(text::trimmed(value)),
{
    trimming_takes_white_space_off(value);
    assert(text::trimmed(text::trimmed(value)) == text::trimmed(value));
}

/// A history limit is a number from 1 to 100,000.
pub proof fn history_limits_are_bounded(value: nat)
    ensures
        ({
            let read = cli::read_history_limit(digits::decimal(value));
            &&& 1 <= value <= 100_000 ==> read == Ok::<nat, Seq<char>>(value)
            &&& value < 1 || value > 100_000 ==> read is Err
        }),
{
    decimals_hold_digits(value);
    let number = digits::decimal(value);
    assert(digits::decimal_digit(number[0]));
}

/// Whether a text consists of slashes.
pub open spec fn is_slashes(value: Seq<char>) -> bool {
    forall|i: int| 0 <= i < value.len() ==> #[trigger] value[i] == '/'
}

/// Whether a text holds no slash.
pub open spec fn is_component(value: Seq<char>) -> bool {
    forall|i: int| 0 <= i < value.len() ==> #[trigger] value[i] != '/'
}

proof fn slashes_are_dropped(value: Seq<char>, slashes: Seq<char>)
    requires
        is_slashes(slashes),
        value.len() == 0 || value.last() != '/',
    ensures
        cli::without_trailing_slashes(value + slashes) == value,
    decreases slashes.len(),
{
    let whole = value + slashes;
    if slashes.len() == 0 {
        assert(whole =~= value);
    } else {
        assert(slashes[slashes.len() - 1] == '/');
        assert(whole.drop_last() =~= value + slashes.drop_last());
        slashes_are_dropped(value, slashes.drop_last());
    }
}

proof fn component_is_found(before: Seq<char>, name: Seq<char>)
    requires
        before.len() == 0 || before.last() == '/',
        is_component(name),
    ensures
        cli::last_component(before + name) == name,
    decreases name.len(),
{
    let whole = before + name;
    if name.len() == 0 {
        assert(whole =~= before);
        assert(cli::last_component(whole) =~= name);
    } else {
        assert(name[name.len() - 1] != '/');
        assert(whole.drop_last() =~= before + name.drop_last());
        component_is_found(before, name.drop_last());
        assert(cli::last_component(whole) =~= name);
    }
}

/// The file name of a key is its last part between slashes, slashes at its end
/// aside.
pub proof fn file_names_are_the_last_part(before: Seq<char>, name: Seq<char>, slashes: Seq<char>)
    requires
        before.len() == 0 || before.last() == '/',
        is_component(name),
        name.len() > 0,
        is_slashes(slashes),
    ensures
        cli::file_name_of(before + name + slashes) == name,
        cli::file_name_of(slashes).len() == 0,
{
    assert(name[name.len() - 1] != '/');
    slashes_are_dropped(before + name, slashes);
    component_is_found(before, name);
    let none = Seq::<char>::empty();
    slashes_are_dropped(none, slashes);
    assert(none + slashes =~= slashes);
}

/// The part of a name before its first dot, if it has one.
pub open spec fn is_stem(name: Seq<char>, stem: Seq<char>) -> bool {
    &&& forall|i: int| 0 <= i < stem.len() ==> #[trigger] stem[i] != '.'
    &&& name == stem || exists|rest: Seq<char>| name == stem + "."@ + rest
}

/// A name is portable if it names no directory, ends in neither a blank nor a
/// dot, holds no character that some system reserves, and is, up to its first dot
/// and in whatever case, no device: the console, the printer, the auxiliary
/// device, the null device, or one of nine serial or nine parallel ports.
pub proof fn portable_names_are_plain(name: Seq<char>, stem: Seq<char>)
    requires
        is_stem(name, stem),
    ensures
        ({
            let device = text::raised(stem);
            let port = device.len() == 4 && (device.take(3) == "COM"@ || device.take(3) == "LPT"@)
                && 49 <= device[3] as u32 <= 57;
            cli::portable(name) <==> {
                &&& name != "."@
                &&& name != ".."@
                &&& name.len() == 0 || (name.last() != ' ' && name.last() != '.')
                &&& forall|i: int|
                    0 <= i < name.len() ==> !text::control(#[trigger] name[i]) && name[i] != '<'
                        && name[i] != '>' && name[i] != ':' && name[i] != '"' && name[i] != '/'
                        && name[i] != '\\' && name[i] != '|' && name[i] != '?' && name[i] != '*'
                &&& device != "CON"@
                &&& device != "PRN"@
                &&& device != "AUX"@
                &&& device != "NUL"@
                &&& !port
            }
        }),
{
    reveal_strlit(".");
    reveal_strlit("COM");
    reveal_strlit("LPT");
    if name == stem {
        text::position_is_first(name, '.');
        assert(name.take(name.len() as int) =~= name);
        assert(text::position(name, '.') == name.len());
    } else {
        let rest = choose|rest: Seq<char>| name == stem + "."@ + rest;
        assert forall|i: int| 0 <= i < stem.len() implies name[i] != '.' by {
            assert(name[i] == stem[i]);
        }
        assert(name[stem.len() as int] == '.');
        text::position_found(name, '.', stem.len() as int);
        assert(name.take(stem.len() as int) =~= stem);
    }
    assert(cli::stem_of(name) == text::raised(stem));
    let device = text::raised(stem);
    if device.len() == 4 {
        assert(device.subrange(0, 3) =~= device.take(3));
    }
    if cli::portable(name) {
        assert forall|i: int| 0 <= i < name.len() implies !text::control(#[trigger] name[i])
            && name[i] != '<' && name[i] != '>' && name[i] != ':' && name[i] != '"' && name[i]
            != '/' && name[i] != '\\' && name[i] != '|' && name[i] != '?' && name[i] != '*' by {
            assert(!cli::unportable(name[i]));
        }
    }
}

} // verus!
