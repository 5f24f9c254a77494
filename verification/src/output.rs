//! What the commands print.

use vstd::prelude::*;

use crate::digits;
use crate::digits::{decimal_text, hex_text, repeat_char};
use crate::model;
use crate::model::{ArrivalStatistics, CadenceSource, FeedHealthStatus, ObjectView, S3Object};
use crate::text;
use crate::text::{chars_of, is_control, text_between};
use crate::time;

verus! {

/// The distance between neighbouring values of a 64-bit float at a magnitude,
/// for whole numbers.
pub open spec fn float_step(value: nat) -> nat
    decreases value,
{
    if value < 0x20_0000_0000_0000 {
        1
    } else {
        2 * float_step(value / 2)
    }
}

/// A quotient rounded to the nearest whole number, halves to the even one.
pub open spec fn rounded_quotient(value: nat, divisor: nat) -> nat {
    let whole = value / divisor;
    let rest = value % divisor;
    if 2 * rest > divisor || (2 * rest == divisor && whole % 2 == 1) {
        whole + 1
    } else {
        whole
    }
}

/// A whole number as a 64-bit float holds it.
pub open spec fn as_float(value: nat) -> nat {
    rounded_quotient(value, float_step(value)) * float_step(value)
}

/// The number of times that 1024 goes into a number, at most four times.
pub open spec fn binary_unit(value: nat) -> nat {
    if value < 0x400 {
        0
    } else if value < 0x10_0000 {
        1
    } else if value < 0x4000_0000 {
        2
    } else if value < 0x100_0000_0000 {
        3
    } else {
        4
    }
}

/// The size of a binary unit.
pub open spec fn unit_size(unit: nat) -> nat {
    if unit == 0 {
        1
    } else if unit == 1 {
        0x400
    } else if unit == 2 {
        0x10_0000
    } else if unit == 3 {
        0x4000_0000
    } else {
        0x100_0000_0000
    }
}

/// The name of a binary unit.
pub open spec fn unit_name(unit: nat) -> Seq<char> {
    if unit == 0 {
        "B"@
    } else if unit == 1 {
        "KiB"@
    } else if unit == 2 {
        "MiB"@
    } else if unit == 3 {
        "GiB"@
    } else {
        "TiB"@
    }
}

/// A number of bytes as shown to a user: exactly below 1024, and else with one
/// decimal in the largest fitting unit.
pub open spec fn bytes_text(bytes: nat) -> Seq<char> {
    let value = as_float(bytes);
    let unit = binary_unit(value);
    if unit == 0 {
        digits::decimal(bytes) + " B"@
    } else {
        let tenths = rounded_quotient(10 * value, unit_size(unit));
        digits::decimal(tenths / 10) + "."@ + digits::decimal(tenths % 10) + " "@ + unit_name(unit)
    }
}

proof fn float_steps(value: nat)
    requires
        value <= u64::MAX,
    ensures
        1 <= float_step(value) <= 0x800,
{
    reveal_with_fuel(float_step, 13);
}

fn step_of(value: u64) -> (step: u128)
    ensures
        step == float_step(value as nat),
        1 <= step <= 0x800,
{
    proof {
        float_steps(value as nat);
        assert(float_step(value as nat) == 1 * float_step(value as nat));
    }
    let mut rest: u64 = value;
    let mut step: u128 = 1;
    while rest >= 0x20_0000_0000_0000
        invariant
            float_step(value as nat) == step * float_step(rest as nat),
            1 <= float_step(value as nat) <= 0x800,
            step >= 1,
        decreases rest,
    {
        proof {
            let inner = float_step((rest / 2) as nat);
            assert(float_step(rest as nat) == 2 * inner);
            assert(step * (2 * inner) == (2 * step) * inner) by (nonlinear_arith);
            assert(inner >= 1 && step * (2 * inner) <= 0x800 ==> step <= 0x400) by (nonlinear_arith)
                requires
                    step >= 1,
            ;
            assert(inner >= 1) by {
                if inner == 0 {
                    assert(step * (2 * inner) == 0) by (nonlinear_arith)
                        requires
                            inner == 0,
                    ;
                }
            }
        }
        rest = rest / 2;
        step = 2 * step;
    }
    assert(float_step(rest as nat) == 1);
    assert(step * 1 == step);
    step
}

fn round_quotient(value: u128, divisor: u128) -> (quotient: u128)
    requires
        0 < divisor <= 0x100_0000_0000,
        value <= 0x1_0000_0000_0000_0000_0000,
    ensures
        quotient == rounded_quotient(value as nat, divisor as nat),
{
    let whole: u128 = value / divisor;
    let rest: u128 = value % divisor;
    proof {
        assert(whole <= value) by (nonlinear_arith)
            requires
                whole == value / divisor,
                divisor > 0,
        ;
    }
    if 2 * rest > divisor || (2 * rest == divisor && whole % 2 == 1) {
        whole + 1
    } else {
        whole
    }
}

/// Writes a number of bytes for a user.
pub fn format_bytes(bytes: u64) -> (text: String)
    ensures
        text@ == bytes_text(bytes as nat),
{
    let step: u128 = step_of(bytes);
    let near: u128 = round_quotient(bytes as u128, step);
    proof {
        let whole = bytes as nat / step as nat;
        assert(near <= whole + 1);
        assert(near * step <= bytes + 0x800) by (nonlinear_arith)
            requires
                near <= whole + 1,
                whole == bytes as nat / step as nat,
                0 < step <= 0x800,
        ;
    }
    let value: u128 = near * step;
    let (unit, size, name): (u8, u128, &'static str) = if value < 0x400 {
        (0, 1, "B")
    } else if value < 0x10_0000 {
        (1, 0x400, "KiB")
    } else if value < 0x4000_0000 {
        (2, 0x10_0000, "MiB")
    } else if value < 0x100_0000_0000 {
        (3, 0x4000_0000, "GiB")
    } else {
        (4, 0x100_0000_0000, "TiB")
    };
    if unit == 0 {
        return decimal_text(bytes as u128).concat(" B");
    }
    let tenths: u128 = round_quotient(10 * value, size);
    decimal_text(tenths / 10).concat(".").concat(decimal_text(tenths % 10).as_str()).concat(
        " ",
    ).concat(name)
}

/// What std's `char::to_uppercase` gives for a character.
pub uninterp spec fn upper_form(c: char) -> Seq<char>;

/// The capitals of a character through std's `char::to_uppercase`. Trusted: they
/// depend on the character alone, are named `upper_form`, and are the ASCII
/// capital for an ASCII character.
#[verifier::external_body]
fn upper_case(c: char) -> (capitals: String)
    ensures
        capitals@ == upper_form(c),
        c <= '\u{7f}' ==> capitals@ == seq![text::upper_ascii(c)],
{
    c.to_uppercase().to_string()
}

/// A text with its first character in capitals.
pub open spec fn titled(value: Seq<char>) -> Seq<char> {
    if value.len() == 0 {
        value
    } else {
        upper_form(value[0]) + value.skip(1)
    }
}

/// A text with its first character in capitals.
pub fn title_case(value: &str) -> (text: String)
    ensures
        text@ == titled(value@),
        value@.len() > 0 && value@[0] <= '\u{7f}' ==> text@ == seq![text::upper_ascii(value@[0])]
            + value@.skip(1),
{
    let characters = chars_of(value);
    if characters.len() == 0 {
        let empty = String::new();
        assert(empty@ =~= titled(value@));
        return empty;
    }
    let first = upper_case(characters[0]);
    let rest = text_between(&characters, 1, characters.len());
    assert(rest@ =~= value@.skip(1));
    first.concat(rest.as_str())
}

/// How a control character is shown.
pub open spec fn escaped(c: char) -> Seq<char> {
    if c == '\t' {
        "\\t"@
    } else if c == '\r' {
        "\\r"@
    } else if c == '\n' {
        "\\n"@
    } else {
        "\\u{"@ + digits::in_base(c as nat, 16) + "}"@
    }
}

/// A text as shown on a terminal: control characters are escaped.
pub open spec fn shown(value: Seq<char>) -> Seq<char>
    decreases value.len(),
{
    if value.len() == 0 {
        Seq::empty()
    } else if text::control(value.last()) {
        shown(value.drop_last()) + escaped(value.last())
    } else {
        shown(value.drop_last()).push(value.last())
    }
}

fn escape(c: char) -> (text: String)
    ensures
        text@ == escaped(c),
{
    if c == '\t' {
        "\\t".to_owned()
    } else if c == '\r' {
        "\\r".to_owned()
    } else if c == '\n' {
        "\\n".to_owned()
    } else {
        "\\u{".to_owned().concat(hex_text(c as u32).as_str()).concat("}")
    }
}

/// A text as shown on a terminal.
pub fn terminal_text(value: &str) -> (output: String)
    ensures
        output@ == shown(value@),
{
    let characters = chars_of(value);
    let mut output = String::new();
    let mut i: usize = 0;
    assert(output@ =~= shown(value@.take(0)));
    while i < characters.len()
        invariant
            characters@ == value@,
            i <= characters@.len(),
            output@ == shown(value@.take(i as int)),
        decreases characters@.len() - i,
    {
        let c = characters[i];
        proof {
            assert(value@.take(i + 1).drop_last() =~= value@.take(i as int));
            assert(value@.take(i + 1).last() == c);
        }
        if is_control(c) {
            output.append(escape(c).as_str());
            assert(output@ =~= shown(value@.take(i as int)) + escaped(c));
        } else {
            output.push(c);
        }
        i += 1;
    }
    assert(value@.take(i as int) =~= value@);
    output
}

/// Nothing shown on a terminal controls it.
pub proof fn shown_text_holds_no_controls(value: Seq<char>)
    ensures
        !text::has_control(shown(value)),
    decreases value.len(),
{
    if value.len() > 0 {
        let front = value.drop_last();
        let c = value.last();
        shown_text_holds_no_controls(front);
        if text::control(c) {
            escapes_are_printable(c);
        }
        let all = shown(value);
        assert forall|i: int| 0 <= i < all.len() implies !text::control(#[trigger] all[i]) by {
            if i < shown(front).len() {
                assert(all[i] == shown(front)[i]);
            } else if text::control(c) {
                assert(all[i] == escaped(c)[i - shown(front).len()]);
            }
        }
    }
}

proof fn escapes_are_printable(c: char)
    ensures
        !text::has_control(escaped(c)),
{
    reveal_strlit("\\t");
    reveal_strlit("\\r");
    reveal_strlit("\\n");
    reveal_strlit("\\u{");
    reveal_strlit("}");
    hex_is_printable(c as nat);
    let hex = digits::in_base(c as nat, 16);
    let all = escaped(c);
    assert forall|i: int| 0 <= i < all.len() implies !text::control(#[trigger] all[i]) by {
        if c != '\t' && c != '\r' && c != '\n' {
            if 3 <= i < 3 + hex.len() {
                assert(all[i] == hex[i - 3]);
            }
        }
    }
}

proof fn hex_is_printable(value: nat)
    ensures
        !text::has_control(digits::in_base(value, 16)),
    decreases value,
{
    let all = digits::in_base(value, 16);
    if value >= 16 {
        hex_is_printable(value / 16);
        let front = digits::in_base(value / 16, 16);
        assert forall|i: int| 0 <= i < all.len() implies !text::control(#[trigger] all[i]) by {
            if i < front.len() {
                assert(all[i] == front[i]);
            }
        }
    }
}

/// A text filled with spaces on its right.
pub open spec fn left_aligned(value: Seq<char>, width: int) -> Seq<char> {
    value + digits::repeated(' ', width - value.len())
}

/// A text filled with spaces on its left.
pub open spec fn right_aligned(value: Seq<char>, width: int) -> Seq<char> {
    digits::repeated(' ', width - value.len()) + value
}

fn align_left(value: &str, width: usize) -> (text: String)
    ensures
        text@ == left_aligned(value@, width as int),
{
    let length: usize = chars_of(value).len();
    if length < width {
        value.to_owned().concat(repeat_char(' ', width - length).as_str())
    } else {
        let text = value.to_owned();
        assert(text@ =~= left_aligned(value@, width as int));
        text
    }
}

fn align_right(value: &str, width: usize) -> (text: String)
    ensures
        text@ == right_aligned(value@, width as int),
{
    let length: usize = chars_of(value).len();
    if length < width {
        repeat_char(' ', width - length).concat(value)
    } else {
        let text = value.to_owned();
        assert(text@ =~= right_aligned(value@, width as int));
        text
    }
}

/// The row of an object in a listing.
pub open spec fn object_row(object: ObjectView) -> Seq<char> {
    left_aligned(time::civil_text(time::civil_of(object.at / 1_000_000_000)), 24) + " "@
        + right_aligned(bytes_text(object.size as nat), 10) + "  "@ + shown(object.key)
}

/// The head of a listing.
pub open spec fn object_header() -> Seq<char> {
    left_aligned("LAST MODIFIED (UTC)"@, 24) + " "@ + right_aligned("SIZE"@, 10) + "  KEY"@
}

/// The lines of a listing.
pub open spec fn object_table(objects: Seq<ObjectView>) -> Seq<Seq<char>> {
    if objects.len() == 0 {
        seq!["No objects found."@]
    } else {
        seq![object_header()] + objects.map_values(|object: ObjectView| object_row(object))
    }
}

fn object_line(object: &S3Object) -> (line: String)
    ensures
        line@ == object_row(object@),
{
    let date = object.last_modified.date_time_text();
    let size = format_bytes(object.size);
    align_left(date.as_str(), 24).concat(" ").concat(align_right(size.as_str(), 10).as_str()).concat(
        "  ",
    ).concat(terminal_text(object.key.as_str()).as_str())
}

/// The lines that a listing prints.
pub fn print_objects(objects: &Vec<S3Object>) -> (lines: Vec<String>)
    ensures
        lines@.map_values(|line: String| line@) == object_table(model::objects_view(objects@)),
{
    let ghost views = model::objects_view(objects@);
    let mut lines: Vec<String> = Vec::new();
    if objects.len() == 0 {
        lines.push("No objects found.".to_owned());
        assert(views.len() == 0);
        assert(lines@.map_values(|line: String| line@) =~= object_table(views));
        return lines;
    }
    let head = align_left("LAST MODIFIED (UTC)", 24).concat(" ").concat(
        align_right("SIZE", 10).as_str(),
    ).concat("  KEY");
    lines.push(head);
    let mut i: usize = 0;
    while i < objects.len()
        invariant
            views == model::objects_view(objects@),
            i <= objects@.len(),
            lines@.len() == i + 1,
            lines@[0]@ == object_header(),
            forall|j: int| 0 <= j < i ==> (#[trigger] lines@[j + 1])@ == object_row(views[j]),
        decreases objects@.len() - i,
    {
        let ghost before = lines@;
        lines.push(object_line(&objects[i]));
        assert(views[i as int] == objects@[i as int]@);
        assert forall|j: int| 0 <= j < i + 1 implies (#[trigger] lines@[j + 1])@ == object_row(
            views[j],
        ) by {
            if j < i {
                assert(lines@[j + 1] == before[j + 1]);
            }
        }
        i += 1;
    }
    proof {
        let table = object_table(views);
        assert(views.len() == objects@.len());
        assert forall|j: int| 0 <= j < lines@.len() implies lines@[j]@ == #[trigger] table[j] by {
            if j > 0 {
                assert(lines@[(j - 1) + 1]@ == object_row(views[j - 1]));
            }
        }
        assert(lines@.map_values(|line: String| line@) =~= table);
    }
    lines
}

/// The line that an arrival prints; `delta` is the time since the previous
/// arrival, if any, as shown to a user.
pub fn print_arrival(object: &S3Object, delta: Option<&str>) -> (line: String)
    ensures
        line@ == time::clock_text(time::civil_of(object@.at / 1_000_000_000)) + "  "@
            + right_aligned(bytes_text(object.size as nat), 10) + "  "@ + shown(object@.key) + (
        match delta {
            Some(shown_delta) => "  Δ "@ + shown_delta@,
            None => ""@,
        }),
{
    let clock = object.last_modified.clock_text();
    let size = format_bytes(object.size);
    let line = clock.concat("  ").concat(align_right(size.as_str(), 10).as_str()).concat(
        "  ",
    ).concat(terminal_text(object.key.as_str()).as_str());
    match delta {
        Some(shown_delta) => line.concat("  Δ ".to_owned().concat(shown_delta).as_str()),
        None => line.concat(""),
    }
}

/// Durations as shown to a user.
#[derive(Clone, Debug, PartialEq, Eq)]
pub struct DurationTexts {
    pub mean_interval: Option<String>,
    pub median_interval: Option<String>,
    pub p95_interval: Option<String>,
    pub largest_gap: Option<String>,
    pub current_gap: Option<String>,
    pub expected_interval: Option<String>,
}

/// A labelled duration, or a dash where there is none.
pub open spec fn interval_row(label: Seq<char>, duration: Option<String>) -> Seq<char> {
    left_aligned(label, 17) + match duration {
        Some(shown_duration) => shown_duration@,
        None => "—"@,
    }
}

fn interval_line(label: &str, duration: &Option<String>) -> (line: String)
    ensures
        line@ == interval_row(label@, *duration),
{
    let head = align_left(label, 17);
    match duration {
        Some(shown_duration) => head.concat(shown_duration.as_str()),
        None => head.concat("—"),
    }
}

/// A timing status by name.
pub open spec fn status_name(status: FeedHealthStatus) -> Seq<char> {
    match status {
        FeedHealthStatus::Unknown => "unknown"@,
        FeedHealthStatus::Healthy => "healthy"@,
        FeedHealthStatus::Late => "late"@,
    }
}

/// A cadence source by name.
pub open spec fn source_name(source: CadenceSource) -> Seq<char> {
    match source {
        CadenceSource::Configured => "configured"@,
        CadenceSource::Learned => "learned"@,
    }
}

/// The lines of a statistics report.
pub open spec fn statistics_report(
    count: nat,
    last_arrival: Option<int>,
    status: FeedHealthStatus,
    source: Option<CadenceSource>,
    durations: DurationTexts,
) -> Seq<Seq<char>> {
    let rows = seq![
        "Objects          "@ + digits::decimal(count),
        "Last arrival     "@ + match last_arrival {
            Some(at) => time::rfc3339_text(at) + "Z"@,
            None => "—"@,
        },
        interval_row("Mean interval"@, durations.mean_interval),
        interval_row("Median interval"@, durations.median_interval),
        interval_row("P95 interval"@, durations.p95_interval),
        interval_row("Largest gap"@, durations.largest_gap),
        interval_row("Current gap"@, durations.current_gap),
        "Health           "@ + titled(status_name(status)),
    ];
    match durations.expected_interval {
        Some(expected) => rows.push(
            "Expected cadence "@ + expected@ + match source {
                Some(known) => " ("@ + titled(source_name(known)) + ")"@,
                None => ""@,
            },
        ),
        None => rows,
    }
}

/// The lines that a statistics report prints; the durations are those of the
/// statistics as shown to a user.
pub fn print_statistics(statistics: &ArrivalStatistics, durations: &DurationTexts) -> (lines: Vec<
    String,
>)
    ensures
        lines@.map_values(|line: String| line@) == statistics_report(
            statistics.object_count as nat,
            model::instant(statistics.last_arrival),
            statistics.health.status,
            statistics.health.cadence_source,
            *durations,
        ),
{
    let mut lines: Vec<String> = Vec::new();
    lines.push(
        "Objects          ".to_owned().concat(
            decimal_text(statistics.object_count as u128).as_str(),
        ),
    );
    let last = match statistics.last_arrival {
        Some(at) => at.to_rfc3339_zulu(),
        None => "—".to_owned(),
    };
    lines.push("Last arrival     ".to_owned().concat(last.as_str()));
    lines.push(interval_line("Mean interval", &durations.mean_interval));
    lines.push(interval_line("Median interval", &durations.median_interval));
    lines.push(interval_line("P95 interval", &durations.p95_interval));
    lines.push(interval_line("Largest gap", &durations.largest_gap));
    lines.push(interval_line("Current gap", &durations.current_gap));
    let status = match statistics.health.status {
        FeedHealthStatus::Unknown => "unknown",
        FeedHealthStatus::Healthy => "healthy",
        FeedHealthStatus::Late => "late",
    };
    lines.push("Health           ".to_owned().concat(title_case(status).as_str()));
    if let Some(expected) = &durations.expected_interval {
        let line = "Expected cadence ".to_owned().concat(expected.as_str());
        let source = match statistics.health.cadence_source {
            Some(CadenceSource::Configured) => {
                " (".to_owned().concat(title_case("configured").as_str()).concat(")")
            },
            Some(CadenceSource::Learned) => {
                " (".to_owned().concat(title_case("learned").as_str()).concat(")")
            },
            None => "".to_owned(),
        };
        lines.push(line.concat(source.as_str()));
    }
    assert(lines@.map_values(|line: String| line@) =~= statistics_report(
        statistics.object_count as nat,
        model::instant(statistics.last_arrival),
        statistics.health.status,
        statistics.health.cadence_source,
        *durations,
    ));
    lines
}

/// A text without control characters is shown as it is.
pub proof fn plain_text_is_shown_as_it_is(value: Seq<char>)
    requires
        !text::has_control(value),
    ensures
        shown(value) == value,
    decreases value.len(),
{
    if value.len() > 0 {
        let front = value.drop_last();
        assert(!text::has_control(front)) by {
            assert forall|i: int| 0 <= i < front.len() implies !text::control(
                #[trigger] front[i],
            ) by {
                assert(front[i] == value[i]);
            }
        }
        plain_text_is_shown_as_it_is(front);
        assert(!text::control(value[value.len() - 1]));
        assert(front.push(value.last()) =~= value);
    } else {
        assert(shown(value) =~= value);
    }
}

} // verus!
