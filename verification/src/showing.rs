//! What output promises to whoever reads it.

use vstd::prelude::*;

use crate::digits;
use crate::model::{CadenceSource, FeedHealthStatus, ObjectView};
use crate::output;
use crate::output::DurationTexts;
use crate::periods;
use crate::text;
use crate::time;

verus! {

/// The bytes of a binary unit and its name.
pub open spec fn binary(power: int) -> (nat, Seq<char>) {
    if power == 1 {
        (1_024, "KiB"@)
    } else if power == 2 {
        (1_024 * 1_024, "MiB"@)
    } else if power == 3 {
        (1_024 * 1_024 * 1_024, "GiB"@)
    } else {
        (1_024 * 1_024 * 1_024 * 1_024, "TiB"@)
    }
}

/// Whether a text gives a number of bytes in a unit, in tenths.
pub open spec fn gives(shown: Seq<char>, power: int, tenths: nat) -> bool {
    shown == digits::decimal(tenths / 10) + "."@ + digits::decimal(tenths % 10) + " "@ + binary(
        power,
    ).1
}

proof fn rounding_is_near(value: nat, divisor: nat)
    requires
        divisor > 0,
    ensures
        2 * output::rounded_quotient(value, divisor) * divisor <= 2 * value + divisor,
        2 * output::rounded_quotient(value, divisor) * divisor + divisor >= 2 * value,
{
    let whole = value / divisor;
    let rest = value % divisor;
    vstd::arithmetic::div_mod::lemma_fundamental_div_mod(value as int, divisor as int);
    assert(whole * divisor + rest == value && 0 <= rest < divisor) by (nonlinear_arith)
        requires
            value == divisor * whole + rest,
            0 <= rest < divisor,
    ;
    assert((whole + 1) * divisor == whole * divisor + divisor) by (nonlinear_arith);
    assert(2 * (whole + 1) * divisor == 2 * ((whole + 1) * divisor)) by (nonlinear_arith);
    assert(2 * whole * divisor == 2 * (whole * divisor)) by (nonlinear_arith);
}

/// Fewer than 1024 bytes are shown exactly. More are shown in the largest binary
/// unit that they fill, rounded to the nearest tenth.
pub proof fn sizes_are_shown_to_a_tenth(bytes: nat, power: int)
    requires
        bytes < 0x20_0000_0000_0000,
    ensures
        bytes < 1_024 ==> output::bytes_text(bytes) == digits::decimal(bytes) + " B"@,
        1 <= power <= 4 && binary(power).0 <= bytes && (power < 4 ==> bytes < binary(power + 1).0)
            ==> exists|tenths: nat|
            {
                &&& #[trigger] gives(output::bytes_text(bytes), power, tenths)
                &&& 2 * tenths * binary(power).0 <= 20 * bytes + binary(power).0
                &&& 2 * tenths * binary(power).0 + binary(power).0 >= 20 * bytes
            },
{
    assert(output::float_step(bytes) == 1);
    assert(output::as_float(bytes) == bytes) by {
        assert(bytes / 1 == bytes && bytes % 1 == 0);
    }
    if 1 <= power <= 4 && binary(power).0 <= bytes && (power < 4 ==> bytes < binary(
        power + 1,
    ).0) {
        let unit = output::binary_unit(bytes);
        assert(unit == power);
        let size = output::unit_size(unit);
        assert(size == binary(power).0);
        let tenths = output::rounded_quotient(10 * bytes, size);
        rounding_is_near(10 * bytes, size);
        assert(gives(output::bytes_text(bytes), power, tenths));
    }
}

proof fn steps_are_fine(value: nat)
    requires
        value >= 0x20_0000_0000_0000,
    ensures
        output::float_step(value) * 0x10_0000_0000_0000 <= value,
        output::float_step(value) > 0,
    decreases value,
{
    if value / 2 >= 0x20_0000_0000_0000 {
        steps_are_fine(value / 2);
    } else {
        assert(output::float_step(value / 2) == 1);
    }
}

/// A whole number is held as a float exactly up to 53 bits, and beyond that to
/// the nearest of neighbours that lie close together for its magnitude.
pub proof fn floats_are_near(value: nat)
    ensures
        value < 0x20_0000_0000_0000 ==> output::as_float(value) == value,
        value >= 0x20_0000_0000_0000 ==> {
            &&& 0x20_0000_0000_0000 * output::as_float(value) <= 0x20_0000_0000_0001 * value
            &&& 0x20_0000_0000_0000 * output::as_float(value) >= 0x1f_ffff_ffff_ffff * value
        },
{
    if value < 0x20_0000_0000_0000 {
        assert(output::float_step(value) == 1);
        assert(value / 1 == value && value % 1 == 0);
    } else {
        let step = output::float_step(value);
        steps_are_fine(value);
        rounding_is_near(value, step);
        let near = output::as_float(value);
        let quotient = output::rounded_quotient(value, step);
        assert(2 * quotient * step == 2 * (quotient * step)) by (nonlinear_arith);
        assert(2 * near <= 2 * value + step && 2 * near + step >= 2 * value);
    }
}

/// A text is shown character by character.
pub proof fn texts_are_shown_in_turn(one: Seq<char>, other: Seq<char>)
    ensures
        output::shown(one + other) == output::shown(one) + output::shown(other),
    decreases other.len(),
{
    if other.len() == 0 {
        assert(one + other =~= one);
        assert(output::shown(one) + output::shown(other) =~= output::shown(one));
    } else {
        let front = other.drop_last();
        texts_are_shown_in_turn(one, front);
        assert((one + other).drop_last() =~= one + front);
        assert((one + other).last() == other.last());
        assert(output::shown(one + other) =~= output::shown(one) + output::shown(other));
    }
}

/// A character stands for itself unless it is a control character: the tab, the
/// carriage return and the newline are shown as a letter behind a backslash, the
/// others by their code in hexadecimal.
pub proof fn controls_are_shown_by_their_code(c: char)
    ensures
        !text::control(c) ==> output::shown(seq![c]) == seq![c],
        c as u32 == 9 ==> output::shown(seq![c]) == seq!['\\', 't'],
        c as u32 == 10 ==> output::shown(seq![c]) == seq!['\\', 'n'],
        c as u32 == 13 ==> output::shown(seq![c]) == seq!['\\', 'r'],
        text::control(c) && c as u32 != 9 && c as u32 != 10 && c as u32 != 13 ==> exists|
            code: Seq<char>,
        |
            {
                &&& output::shown(seq![c]) == seq!['\\', 'u', '{'] + code + seq!['}']
                &&& #[trigger] periods::is_number(code, 16)
                &&& periods::reading(code, 16) == c as int
            },
{
    let single = seq![c];
    assert(single.drop_last() =~= Seq::empty());
    assert(single.last() == c);
    reveal_with_fuel(output::shown, 2);
    reveal_strlit("\\t");
    reveal_strlit("\\r");
    reveal_strlit("\\n");
    reveal_strlit("\\u{");
    reveal_strlit("}");
    if !text::control(c) {
        assert(output::shown(single) =~= seq![c]);
    } else if c == '\t' {
        assert(output::shown(single) =~= seq!['\\', 't']);
    } else if c == '\r' {
        assert(output::shown(single) =~= seq!['\\', 'r']);
    } else if c == '\n' {
        assert(output::shown(single) =~= seq!['\\', 'n']);
    } else {
        let code = digits::in_base(c as nat, 16);
        periods::written_numbers_read_back(c as nat, 16);
        assert(output::shown(single) =~= seq!['\\', 'u', '{'] + code + seq!['}']);
    }
}

/// Alignment fills a text up to a width with blanks, on one side, and never cuts
/// it.
pub proof fn alignment_fills_with_blanks(value: Seq<char>, width: nat, i: int)
    ensures
        ({
            let left = output::left_aligned(value, width as int);
            let right = output::right_aligned(value, width as int);
            let length = if width > value.len() {
                width
            } else {
                value.len()
            };
            &&& left.len() == length
            &&& right.len() == length
            &&& 0 <= i < value.len() ==> left[i] == value[i] && right[length - value.len() + i]
                == value[i]
            &&& value.len() <= i < length ==> left[i] == ' '
            &&& 0 <= i < length - value.len() ==> right[i] == ' '
        }),
{
}

/// A listing has a head and one line for each object, in order: when it was last
/// changed, its size and its key, apart from each other. Without objects it says
/// so.
pub proof fn tables_show_every_object(objects: Seq<ObjectView>, i: int)
    ensures
        ({
            let table = output::object_table(objects);
            &&& objects.len() == 0 ==> table == seq!["No objects found."@]
            &&& objects.len() > 0 ==> table.len() == objects.len() + 1
            &&& 0 <= i < objects.len() ==> exists|gap: Seq<char>|
                {
                    &&& table[i + 1] == time::civil_text(
                        time::civil_of(objects[i].at / 1_000_000_000),
                    ) + #[trigger] (gap + output::bytes_text(objects[i].size as nat)) + "  "@
                        + output::shown(objects[i].key)
                    &&& gap.len() >= 1
                    &&& forall|j: int| 0 <= j < gap.len() ==> #[trigger] gap[j] == ' '
                }
        }),
{
    if 0 <= i < objects.len() {
        reveal_strlit(" ");
        reveal_strlit("  ");
        let table = output::object_table(objects);
        let when = time::civil_text(time::civil_of(objects[i].at / 1_000_000_000));
        let size = output::bytes_text(objects[i].size as nat);
        let gap = digits::repeated(' ', 24 - when.len()) + " "@ + digits::repeated(
            ' ',
            10 - size.len(),
        );
        assert(table[i + 1] == output::object_row(objects[i]));
        assert(output::object_row(objects[i]) =~= when + (gap + size) + "  "@ + output::shown(
            objects[i].key,
        ));
    }
}

/// A duration, or a dash where there is none.
pub open spec fn or_dash(duration: Option<String>) -> Seq<char> {
    match duration {
        Some(given) => given@,
        None => "—"@,
    }
}

/// A report gives every number under its own name, and the expected cadence, if
/// one is known, with where it comes from.
pub proof fn reports_name_their_numbers(
    count: nat,
    last_arrival: Option<int>,
    status: FeedHealthStatus,
    source: Option<CadenceSource>,
    durations: DurationTexts,
)
    ensures
        ({
            let report = output::statistics_report(count, last_arrival, status, source, durations);
            &&& report.len() == if durations.expected_interval is Some {
                9nat
            } else {
                8nat
            }
            &&& report[0] == "Objects          "@ + digits::decimal(count)
            &&& last_arrival is None ==> report[1] == "Last arrival     "@ + "—"@
            &&& last_arrival matches Some(at) ==> report[1] == "Last arrival     "@
                + time::rfc3339_text(at) + "Z"@
            &&& report[2] == "Mean interval    "@ + or_dash(durations.mean_interval)
            &&& report[3] == "Median interval  "@ + or_dash(durations.median_interval)
            &&& report[4] == "P95 interval     "@ + or_dash(durations.p95_interval)
            &&& report[5] == "Largest gap      "@ + or_dash(durations.largest_gap)
            &&& report[6] == "Current gap      "@ + or_dash(durations.current_gap)
            &&& durations.expected_interval matches Some(expected) ==> exists|rest: Seq<char>|
                report[8] == #[trigger] ("Expected cadence "@ + expected@ + rest)
        }),
{
    reveal_strlit("Mean interval");
    reveal_strlit("Mean interval    ");
    reveal_strlit("Median interval");
    reveal_strlit("Median interval  ");
    reveal_strlit("P95 interval");
    reveal_strlit("P95 interval     ");
    reveal_strlit("Largest gap");
    reveal_strlit("Largest gap      ");
    reveal_strlit("Current gap");
    reveal_strlit("Current gap      ");
    assert(output::left_aligned("Mean interval"@, 17) =~= "Mean interval    "@);
    assert(output::left_aligned("Median interval"@, 17) =~= "Median interval  "@);
    assert(output::left_aligned("P95 interval"@, 17) =~= "P95 interval     "@);
    assert(output::left_aligned("Largest gap"@, 17) =~= "Largest gap      "@);
    assert(output::left_aligned("Current gap"@, 17) =~= "Current gap      "@);
    let report = output::statistics_report(count, last_arrival, status, source, durations);
    if last_arrival is Some {
        assert(report[1] =~= "Last arrival     "@ + time::rfc3339_text(last_arrival->0) + "Z"@);
    }
    if durations.expected_interval is Some {
        let rest = match source {
            Some(known) => " ("@ + output::titled(output::source_name(known)) + ")"@,
            None => ""@,
        };
        assert(report[8] == "Expected cadence "@ + (durations.expected_interval->0)@ + rest);
    }
}

} // verus!
