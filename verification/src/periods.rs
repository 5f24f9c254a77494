//! What date templates promise: every placeholder can be read back, and every
//! prefix is that of its period.

use vstd::prelude::*;

use crate::digits;
use crate::error::TemplateFault;
use crate::template;
use crate::template::{Field, Granularity, Token};
use crate::time;
use crate::time::Civil;

verus! {

/// The value of a digit character.
pub open spec fn figure(c: char) -> int {
    if c == '0' {
        0
    } else if c == '1' {
        1
    } else if c == '2' {
        2
    } else if c == '3' {
        3
    } else if c == '4' {
        4
    } else if c == '5' {
        5
    } else if c == '6' {
        6
    } else if c == '7' {
        7
    } else if c == '8' {
        8
    } else if c == '9' {
        9
    } else if c == 'a' {
        10
    } else if c == 'b' {
        11
    } else if c == 'c' {
        12
    } else if c == 'd' {
        13
    } else if c == 'e' {
        14
    } else if c == 'f' {
        15
    } else {
        -1
    }
}

/// The number that digits stand for in a base, read from the left.
pub open spec fn reading(text: Seq<char>, base: int) -> int {
    text.fold_left(0, |sum: int, c: char| sum * base + figure(c))
}

/// Whether a text consists of digits of a base.
pub open spec fn is_number(text: Seq<char>, base: int) -> bool {
    &&& text.len() > 0
    &&& forall|i: int| 0 <= i < text.len() ==> 0 <= figure(#[trigger] text[i]) < base
}

proof fn digit_is_a_figure(value: nat)
    requires
        value < 16,
    ensures
        figure(digits::digit(value)) == value,
{
}

/// A number that is written in a base reads back as itself. It has no zeroes in
/// front.
pub proof fn written_numbers_read_back(value: nat, base: nat)
    requires
        2 <= base <= 16,
    ensures
        is_number(digits::in_base(value, base), base as int),
        reading(digits::in_base(value, base), base as int) == value,
        digits::in_base(value, base).len() > 1 ==> digits::in_base(value, base)[0] != '0',
        value < base ==> digits::in_base(value, base).len() == 1,
        value >= base ==> digits::in_base(value, base).len() > 1,
    decreases value,
{
    let text = digits::in_base(value, base);
    let step = |sum: int, c: char| sum * base + figure(c);
    if value < base {
        digit_is_a_figure(value);
        assert(text.drop_last() =~= Seq::empty());
        reveal_with_fuel(Seq::fold_left, 2);
        assert(0int * base + figure(text[0]) == value) by (nonlinear_arith)
            requires
                figure(text[0]) == value,
        ;
    } else {
        let high = value / base;
        let low = value % base;
        assert(0 < high < value && low < base && high * base + low == value) by (nonlinear_arith)
            requires
                high == value / base,
                low == value % base,
                2 <= base <= value,
        ;
        written_numbers_read_back(high, base);
        digit_is_a_figure(low);
        let front = digits::in_base(high, base);
        assert(text.drop_last() =~= front);
        assert forall|i: int| 0 <= i < text.len() implies 0 <= figure(#[trigger] text[i])
            < base by {
            if i < front.len() {
                assert(text[i] == front[i]);
            }
        }
        assert(text[0] == front[0]);
        if front.len() == 1 && front[0] == '0' {
            assert(front.drop_last() =~= Seq::empty());
            reveal_with_fuel(Seq::fold_left, 2);
            assert(reading(front, base as int) == 0int * base + 0);
            assert(0int * base == 0) by (nonlinear_arith);
        }
    }
}

proof fn zeroes_read_as_nothing(count: nat, rest: Seq<char>)
    requires
        is_number(rest, 10),
    ensures
        is_number(digits::repeated('0', count as int) + rest, 10),
        reading(digits::repeated('0', count as int) + rest, 10) == reading(rest, 10),
    decreases rest.len(),
{
    let zeroes = digits::repeated('0', count as int);
    let all = zeroes + rest;
    assert forall|i: int| 0 <= i < all.len() implies 0 <= figure(#[trigger] all[i]) < 10 by {
        if i >= zeroes.len() {
            assert(all[i] == rest[i - zeroes.len()]);
        }
    }
    assert(all.drop_last() =~= zeroes + rest.drop_last());
    if rest.len() == 1 {
        assert(rest.drop_last() =~= Seq::empty());
        assert(zeroes + rest.drop_last() =~= zeroes);
        only_zeroes(count);
        reveal_with_fuel(Seq::fold_left, 2);
    } else {
        let front = rest.drop_last();
        assert forall|i: int| 0 <= i < front.len() implies 0 <= figure(#[trigger] front[i])
            < 10 by {
            assert(front[i] == rest[i]);
        }
        zeroes_read_as_nothing(count, front);
    }
}

proof fn only_zeroes(count: nat)
    ensures
        reading(digits::repeated('0', count as int), 10) == 0,
    decreases count,
{
    let zeroes = digits::repeated('0', count as int);
    if count > 0 {
        only_zeroes((count - 1) as nat);
        assert(zeroes.drop_last() =~= digits::repeated('0', count - 1));
    }
}

/// A padded number reads back as itself and has its width, or more if it needs
/// more.
pub proof fn padded_numbers_read_back(value: nat, width: nat)
    ensures
        is_number(digits::zero_padded(value as int, width as int), 10),
        reading(digits::zero_padded(value as int, width as int), 10) == value,
        digits::zero_padded(value as int, width as int).len() == if digits::decimal(value).len()
            > width {
            digits::decimal(value).len()
        } else {
            width
        },
{
    let plain = digits::decimal(value);
    written_numbers_read_back(value, 10);
    let count = if width > plain.len() {
        (width - plain.len()) as nat
    } else {
        0
    };
    zeroes_read_as_nothing(count, plain);
    assert(digits::zero_padded(value as int, width as int) =~= digits::repeated('0', count as int)
        + plain);
}

proof fn number_of_digits(value: nat)
    ensures
        digits::decimal(value).len() == 1 <==> value < 10,
        digits::decimal(value).len() == 2 <==> 10 <= value < 100,
        digits::decimal(value).len() <= 4 <==> value < 10_000,
{
    written_numbers_read_back(value, 10);
    written_numbers_read_back(value / 10, 10);
    written_numbers_read_back(value / 100, 10);
    written_numbers_read_back(value / 1_000, 10);
    reveal_with_fuel(digits::in_base, 6);
    assert(value / 10 / 10 == value / 100);
    assert(value / 100 / 10 == value / 1_000);
    if value >= 10_000 {
        written_numbers_read_back(value / 10_000, 10);
        assert(value / 1_000 / 10 == value / 10_000);
    }
}

/// Whether a placeholder writes a number, with as many digits as it has letters
/// or, if it has one letter, without padding.
pub open spec fn writes(name: Seq<char>, civil: Civil, value: int) -> bool {
    match template::field_named(name) {
        Some(field) => {
            let text = field.text(civil);
            &&& is_number(text, 10)
            &&& reading(text, 10) == value
            &&& name.len() > 1 ==> text.len() == name.len()
            &&& name.len() == 1 && text.len() > 1 ==> text[0] != '0'
        },
        None => false,
    }
}

/// What a placeholder writes reads back as the part of the date that it names:
/// the year or its last two digits, the month, the day, the hour from 0 to 23.
/// The padded forms have a fixed width, the others no padding.
pub proof fn placeholders_write_their_part(civil: Civil)
    requires
        civil.valid(),
        0 <= civil.year <= 9_999,
    ensures
        writes("yyyy"@, civil, civil.year as int),
        writes("yy"@, civil, civil.year as int % 100),
        writes("MM"@, civil, civil.month as int),
        writes("M"@, civil, civil.month as int),
        writes("dd"@, civil, civil.day as int),
        writes("d"@, civil, civil.day as int),
        writes("HH"@, civil, civil.hour as int),
        writes("H"@, civil, civil.hour as int),
{
    names_name_fields();
    reveal_strlit("yyyy");
    reveal_strlit("yy");
    reveal_strlit("MM");
    reveal_strlit("M");
    reveal_strlit("dd");
    reveal_strlit("d");
    reveal_strlit("HH");
    reveal_strlit("H");
    let year = civil.year as nat;
    let short = (civil.year as int % 100) as nat;
    number_of_digits(year);
    number_of_digits(short);
    number_of_digits(civil.month as nat);
    number_of_digits(civil.day as nat);
    number_of_digits(civil.hour as nat);
    padded_numbers_read_back(year, 4);
    padded_numbers_read_back(short, 2);
    padded_numbers_read_back(civil.month as nat, 2);
    padded_numbers_read_back(civil.day as nat, 2);
    padded_numbers_read_back(civil.hour as nat, 2);
    written_numbers_read_back(civil.month as nat, 10);
    written_numbers_read_back(civil.day as nat, 10);
    written_numbers_read_back(civil.hour as nat, 10);
}

proof fn names_name_fields()
    ensures
        template::field_named("yyyy"@) == Some(Field::Year4),
        template::field_named("yy"@) == Some(Field::Year2),
        template::field_named("MM"@) == Some(Field::Month2),
        template::field_named("M"@) == Some(Field::Month1),
        template::field_named("dd"@) == Some(Field::Day2),
        template::field_named("d"@) == Some(Field::Day1),
        template::field_named("HH"@) == Some(Field::Hour2),
        template::field_named("H"@) == Some(Field::Hour1),
{
    reveal_strlit("yyyy");
    reveal_strlit("yy");
    reveal_strlit("MM");
    reveal_strlit("M");
    reveal_strlit("dd");
    reveal_strlit("d");
    reveal_strlit("HH");
    reveal_strlit("H");
    assert("yyyy"@.len() == 4 && "yy"@.len() == 2 && "MM"@.len() == 2 && "M"@.len() == 1);
    assert("dd"@.len() == 2 && "d"@.len() == 1 && "HH"@.len() == 2 && "H"@.len() == 1);
    assert("MM"@[0] == 'M' && "dd"@[0] == 'd' && "HH"@[0] == 'H' && "yy"@[0] == 'y');
    assert("M"@[0] == 'M' && "d"@[0] == 'd' && "H"@[0] == 'H');
}

proof fn pieces_are_written_in_turn(left: Seq<Token>, right: Seq<Token>, civil: Civil)
    ensures
        template::written(left + right, civil) == template::written(left, civil)
            + template::written(right, civil),
    decreases right.len(),
{
    if right.len() == 0 {
        assert(left + right =~= left);
        assert(template::written(left, civil) + template::written(right, civil)
            =~= template::written(left, civil));
    } else {
        let front = right.drop_last();
        pieces_are_written_in_turn(left, front, civil);
        assert((left + right).drop_last() =~= left + front);
        assert((left + right).last() == right.last());
        assert(template::written(left, civil) + (template::written(front, civil)
            + template::token_text(right.last(), civil)) =~= (template::written(left, civil)
            + template::written(front, civil)) + template::token_text(right.last(), civil));
    }
}

proof fn literals_are_written_as_they_stand(text: Seq<char>, civil: Civil)
    ensures
        template::written(template::as_tokens(text), civil) == text,
    decreases text.len(),
{
    let tokens = template::as_tokens(text);
    if text.len() > 0 {
        let front = text.drop_last();
        literals_are_written_as_they_stand(front, civil);
        assert forall|i: int| 0 <= i < front.len() implies #[trigger] template::as_tokens(front)[i]
            == tokens[i] by {
            assert(front.subrange(i, i + 1) =~= text.subrange(i, i + 1));
        }
        assert(tokens.drop_last() =~= template::as_tokens(front));
        assert(text.subrange(text.len() - 1, text.len() as int) =~= seq![text.last()]);
        assert(front + seq![text.last()] =~= text);
    } else {
        assert(template::written(tokens, civil) =~= text);
    }
}

/// A template is written piece by piece: the text before a placeholder as it
/// stands, the part of the date that the placeholder names, then the rest.
pub proof fn templates_are_written_in_turn(
    before: Seq<char>,
    name: Seq<char>,
    rest: Seq<char>,
    civil: Civil,
)
    requires
        template::field_named(name) is Some,
        template::read_template(rest) is Ok,
    ensures
        ({
            let text = template::escaped(before) + "{"@ + name + "}"@ + rest;
            let tokens = template::read_template(text);
            &&& tokens is Ok
            &&& template::finest(tokens->Ok_0) is Some
            &&& template::written(tokens->Ok_0, civil) == before + template::field_named(
                name,
            )->0.text(civil) + template::written(template::read_template(rest)->Ok_0, civil)
        }),
{
    reveal_strlit("{");
    reveal_strlit("}");
    let field = template::field_named(name)->0;
    let tail = "{"@ + name + "}"@ + rest;
    let text = template::escaped(before) + "{"@ + name + "}"@ + rest;
    assert(text =~= template::escaped(before) + tail);
    let later = template::read_template(rest)->Ok_0;
    no_braces_in_names(name);
    assert(tail.len() > 1 && tail[0] == '{' && tail[1] == name[0]);
    let behind = tail.skip(1);
    assert forall|i: int| 0 <= i < name.len() implies behind[i] != '}' by {
        assert(behind[i] == name[i]);
    }
    assert(behind[name.len() as int] == '}');
    crate::text::position_found(behind, '}', name.len() as int);
    assert(tail.subrange(1, name.len() as int + 1) =~= name);
    assert(tail.skip(name.len() as int + 2) =~= rest);
    let middle = seq![Token::Field(field)] + later;
    assert(template::read_template(tail) == Ok::<Seq<Token>, TemplateFault>(middle));
    escapes_lead(before, tail);
    let all = template::as_tokens(before) + middle;
    pieces_are_written_in_turn(template::as_tokens(before), middle, civil);
    pieces_are_written_in_turn(seq![Token::Field(field)], later, civil);
    literals_are_written_as_they_stand(before, civil);
    let single = seq![Token::Field(field)];
    assert(single.drop_last() =~= Seq::empty());
    reveal_with_fuel(template::written, 2);
    assert(template::written(single, civil) =~= field.text(civil));
    assert(template::written(all, civil) =~= before + field.text(civil) + template::written(
        later,
        civil,
    ));
    template::granularity_is_the_finest(all);
    assert(all[before.len() as int] == Token::Field(field));
}

proof fn no_braces_in_names(name: Seq<char>)
    requires
        template::field_named(name) is Some,
    ensures
        name.len() > 0,
        forall|i: int| 0 <= i < name.len() ==> #[trigger] name[i] != '{' && name[i] != '}',
{
    reveal_strlit("yyyy");
    reveal_strlit("yy");
    reveal_strlit("MM");
    reveal_strlit("M");
    reveal_strlit("dd");
    reveal_strlit("d");
    reveal_strlit("HH");
    reveal_strlit("H");
}

proof fn escapes_lead(before: Seq<char>, tail: Seq<char>)
    ensures
        template::read_template(template::escaped(before) + tail) == match template::read_template(
            tail,
        ) {
            Ok(rest) => Ok::<Seq<Token>, TemplateFault>(template::as_tokens(before) + rest),
            Err(fault) => Err(fault),
        },
    decreases before.len(),
{
    let whole = template::escaped(before) + tail;
    if before.len() == 0 {
        assert(whole =~= tail);
        if let Ok(rest) = template::read_template(tail) {
            assert(template::as_tokens(before) + rest =~= rest);
        }
    } else {
        let next = before.skip(1);
        escapes_lead(next, tail);
        let one = Token::Literal(before.take(1));
        assert(whole.take(1) =~= before.take(1));
        if before[0] == '{' || before[0] == '}' {
            assert(whole.skip(2) =~= template::escaped(next) + tail);
        } else {
            assert(whole.skip(1) =~= template::escaped(next) + tail);
        }
        assert(seq![one] + template::as_tokens(next) =~= template::as_tokens(before)) by {
            assert(before.subrange(0, 1) =~= before.take(1));
            assert forall|i: int| 0 <= i < before.len() implies (seq![one]
                + template::as_tokens(next))[i] == template::as_tokens(before)[i] by {
                if i > 0 {
                    assert(next.subrange(i - 1, i) =~= before.subrange(i, i + 1));
                }
            }
        }
        if let Ok(rest) = template::read_template(tail) {
            assert(seq![one] + (template::as_tokens(next) + rest) =~= template::as_tokens(before)
                + rest);
        }
    }
}

/// A faulty template is refused with what is wrong in it: a name that no part of
/// a date has, minutes meant as months, a brace that is not closed, one that
/// closes nothing.
pub proof fn faulty_templates_say_what_is_wrong(
    before: Seq<char>,
    name: Seq<char>,
    rest: Seq<char>,
)
    requires
        forall|i: int| 0 <= i < name.len() ==> #[trigger] name[i] != '{' && name[i] != '}',
    ensures
        template::field_named(name) is None ==> template::read_template(
            template::escaped(before) + "{"@ + name + "}"@ + rest,
        ) == Err::<Seq<Token>, TemplateFault>(
            if name == "mm"@ || name == "m"@ {
                TemplateFault::MinutesNotMonths
            } else {
                TemplateFault::UnknownPlaceholder(name)
            },
        ),
        template::read_template(template::escaped(before) + "{"@ + name) == Err::<
            Seq<Token>,
            TemplateFault,
        >(TemplateFault::UnclosedPlaceholder),
        template::read_template(template::escaped(before) + "}"@ + name) == Err::<
            Seq<Token>,
            TemplateFault,
        >(TemplateFault::UnmatchedBrace),
        template::field_named("mm"@) is None,
        template::field_named("m"@) is None,
{
    reveal_strlit("{");
    reveal_strlit("}");
    let unknown = "{"@ + name + "}"@ + rest;
    assert(template::escaped(before) + "{"@ + name + "}"@ + rest =~= template::escaped(before)
        + unknown);
    let behind = unknown.skip(1);
    assert forall|i: int| 0 <= i < name.len() implies behind[i] != '}' by {
        assert(behind[i] == name[i]);
    }
    assert(behind[name.len() as int] == '}');
    crate::text::position_found(behind, '}', name.len() as int);
    assert(unknown.subrange(1, name.len() as int + 1) =~= name);
    if name.len() > 0 {
        assert(unknown[1] == name[0]);
    } else {
        assert(unknown[1] == '}');
    }
    escapes_lead(before, unknown);
    let open = "{"@ + name;
    assert(template::escaped(before) + "{"@ + name =~= template::escaped(before) + open);
    assert(open.skip(1) =~= name);
    crate::text::position_is_first(name, '}');
    if name.len() > 0 {
        assert(open[1] == name[0]);
    }
    assert(template::read_template(open) == Err::<Seq<Token>, TemplateFault>(
        TemplateFault::UnclosedPlaceholder,
    ));
    escapes_lead(before, open);
    let close = "}"@ + name;
    assert(template::escaped(before) + "}"@ + name =~= template::escaped(before) + close);
    if name.len() > 0 {
        assert(close[1] == name[0]);
    }
    assert(template::read_template(close) == Err::<Seq<Token>, TemplateFault>(
        TemplateFault::UnmatchedBrace,
    ));
    escapes_lead(before, close);
    reveal_strlit("mm");
    reveal_strlit("m");
    reveal_strlit("yyyy");
    reveal_strlit("yy");
    reveal_strlit("MM");
    reveal_strlit("M");
    reveal_strlit("dd");
    reveal_strlit("d");
    reveal_strlit("HH");
    reveal_strlit("H");
    assert("mm"@[0] == 'm' && "m"@[0] == 'm' && "mm"@.len() == 2 && "m"@.len() == 1);
    assert("yy"@[0] == 'y' && "MM"@[0] == 'M' && "dd"@[0] == 'd' && "HH"@[0] == 'H');
    assert("M"@[0] == 'M' && "d"@[0] == 'd' && "H"@[0] == 'H' && "yyyy"@.len() == 4);
}

/// A template varies by the finest part of the date that it holds.
pub proof fn templates_vary_by_their_finest_part(tokens: Seq<Token>)
    ensures
        ({
            let hourly = holds(tokens, Field::Hour2) || holds(tokens, Field::Hour1);
            let daily = holds(tokens, Field::Day2) || holds(tokens, Field::Day1);
            let monthly = holds(tokens, Field::Month2) || holds(tokens, Field::Month1);
            let yearly = holds(tokens, Field::Year4) || holds(tokens, Field::Year2);
            template::finest(tokens) == if hourly {
                Some(Granularity::Hour)
            } else if daily {
                Some(Granularity::Day)
            } else if monthly {
                Some(Granularity::Month)
            } else if yearly {
                Some(Granularity::Year)
            } else {
                None
            }
        }),
    decreases tokens.len(),
{
    if tokens.len() > 0 {
        let front = tokens.drop_last();
        let last = tokens.last();
        templates_vary_by_their_finest_part(front);
        assert forall|field: Field| #[trigger] holds(tokens, field) == (holds(front, field) || last
            == Token::Field(field)) by {
            held_in_front_or_last(tokens, field);
        }
    }
}

proof fn held_in_front_or_last(tokens: Seq<Token>, field: Field)
    requires
        tokens.len() > 0,
    ensures
        holds(tokens, field) == (holds(tokens.drop_last(), field) || tokens.last() == Token::Field(
            field,
        )),
{
    let front = tokens.drop_last();
    if holds(front, field) {
        let i = choose|i: int| 0 <= i < front.len() && #[trigger] front[i] == Token::Field(field);
        assert(tokens[i] == Token::Field(field));
    }
    if holds(tokens, field) {
        let i = choose|i: int| 0 <= i < tokens.len() && #[trigger] tokens[i] == Token::Field(field);
        if i < front.len() {
            assert(front[i] == Token::Field(field));
        }
    }
    if tokens.last() == Token::Field(field) {
        assert(tokens[tokens.len() - 1] == Token::Field(field));
    }
}

/// Whether a template holds a field.
pub open spec fn holds(tokens: Seq<Token>, field: Field) -> bool {
    exists|i: int| 0 <= i < tokens.len() && #[trigger] tokens[i] == Token::Field(field)
}

/// Whether one date is another but for an hour of that day.
pub open spec fn same_day(one: Civil, other: Civil) -> bool {
    one.year == other.year && one.month == other.month && one.day == other.day
}

/// A template with an hour writes different hours of one day as different
/// prefixes.
pub proof fn hours_are_told_apart(tokens: Seq<Token>, one: Civil, other: Civil)
    requires
        one.valid(),
        other.valid(),
        same_day(one, other),
        one.hour != other.hour,
        holds(tokens, Field::Hour2) || holds(tokens, Field::Hour1),
    ensures
        template::written(tokens, one) != template::written(tokens, other),
{
    if one.hour < other.hour {
        later_hours_are_longer_or_differ(tokens, one, other);
    } else {
        later_hours_are_longer_or_differ(tokens, other, one);
    }
}

proof fn hour_texts(one: Civil, other: Civil)
    requires
        one.valid(),
        other.valid(),
        one.hour < other.hour,
    ensures
        Field::Hour2.text(one).len() == 2,
        Field::Hour2.text(other).len() == 2,
        Field::Hour2.text(one) != Field::Hour2.text(other),
        Field::Hour1.text(one) != Field::Hour1.text(other),
        Field::Hour1.text(one).len() == if one.hour < 10 {
            1nat
        } else {
            2nat
        },
        Field::Hour1.text(other).len() == if other.hour < 10 {
            1nat
        } else {
            2nat
        },
{
    number_of_digits(one.hour as nat);
    number_of_digits(other.hour as nat);
    padded_numbers_read_back(one.hour as nat, 2);
    padded_numbers_read_back(other.hour as nat, 2);
    written_numbers_read_back(one.hour as nat, 10);
    written_numbers_read_back(other.hour as nat, 10);
}

proof fn later_hours_are_longer_or_differ(tokens: Seq<Token>, one: Civil, other: Civil)
    requires
        one.valid(),
        other.valid(),
        same_day(one, other),
        one.hour < other.hour,
    ensures
        template::written(tokens, one).len() <= template::written(tokens, other).len(),
        holds(tokens, Field::Hour1) && one.hour < 10 <= other.hour ==> template::written(
            tokens,
            one,
        ).len() < template::written(tokens, other).len(),
        !(holds(tokens, Field::Hour1) && one.hour < 10 <= other.hour) ==> template::written(
            tokens,
            one,
        ).len() == template::written(tokens, other).len(),
        holds(tokens, Field::Hour2) || holds(tokens, Field::Hour1) ==> template::written(
            tokens,
            one,
        ) != template::written(tokens, other),
    decreases tokens.len(),
{
    if tokens.len() > 0 {
        let front = tokens.drop_last();
        let last = tokens.last();
        later_hours_are_longer_or_differ(front, one, other);
        hour_texts(one, other);
        held_in_front_or_last(tokens, Field::Hour1);
        held_in_front_or_last(tokens, Field::Hour2);
        let a = template::written(front, one);
        let b = template::written(front, other);
        let x = template::token_text(last, one);
        let y = template::token_text(last, other);
        if template::written(tokens, one) == template::written(tokens, other) {
            if a.len() == b.len() {
                assert(a =~= (a + x).take(a.len() as int));
                assert(b =~= (b + y).take(b.len() as int));
                assert(x =~= (a + x).skip(a.len() as int));
                assert(y =~= (b + y).skip(b.len() as int));
            }
        }
    }
}

/// A date that lies a number of periods before another: hours in time, days on
/// the calendar at the same time of day, months and years with the day kept or,
/// in a shorter month, its last one.
pub open spec fn lies_back(unit: Granularity, now: Civil, then: Civil, steps: int) -> bool {
    let same_clock = now.hour == then.hour && now.minute == then.minute && now.second
        == then.second;
    let months = 12 * now.year + now.month - (12 * then.year + then.month);
    let length = time::month_length(then.year as int, then.month as int);
    let same_day = then.day == now.day || (then.day < now.day && then.day == length);
    match unit {
        Granularity::Hour => now.second_number() - then.second_number() == 3_600 * steps,
        Granularity::Day => same_clock && time::day_number(
            now.year as int,
            now.month as int,
            now.day as int,
        ) - time::day_number(then.year as int, then.month as int, then.day as int) == steps,
        Granularity::Month => same_clock && same_day && months == steps,
        Granularity::Year => same_clock && same_day && months == 12 * steps,
    }
}

proof fn stepping_lands(unit: Granularity, at: int, now: Civil, then: Civil, steps: int)
    requires
        now.valid(),
        then.valid(),
        now.second_number() == at / 1_000_000_000,
        steps >= 0,
        lies_back(unit, now, then, steps),
    ensures
        time::civil_of(template::stepped(unit, at, steps) / 1_000_000_000) == then,
{
    let moment = template::stepped(unit, at, steps);
    time::calendar_reading_is_unique(now, time::civil_of(at / 1_000_000_000));
    assert(moment / 1_000_000_000 == then.second_number()) by {
        if steps == 0 {
            match unit {
                Granularity::Hour => {},
                Granularity::Day => {},
                _ => {
                    assert(now.month == then.month && now.year == then.year);
                },
            }
        } else {
            match unit {
                Granularity::Hour => {
                    assert((at - steps * 3600 * 1_000_000_000) / 1_000_000_000 == at / 1_000_000_000
                        - steps * 3600);
                },
                Granularity::Day => {
                    assert((at - steps * 86400 * 1_000_000_000) / 1_000_000_000 == at
                        / 1_000_000_000 - steps * 86400);
                },
                Granularity::Month => {
                    let months = now.year * 12 + now.month - 1 - steps;
                    assert(months / 12 == then.year && months % 12 + 1 == then.month);
                },
                Granularity::Year => {
                    assert(now.month == then.month && now.year - steps == then.year);
                },
            }
        }
    }
    time::calendar_reading_is_unique(then, time::civil_of(moment / 1_000_000_000));
}

/// The prefix of an earlier period is what the template writes on a date that
/// lies so many periods back; the first prefix is that of the date itself.
pub proof fn earlier_periods_are_written_as_of_their_date(
    tokens: Seq<Token>,
    at: int,
    now: Civil,
    then: Civil,
    steps: int,
    lookback: nat,
)
    requires
        now.valid(),
        then.valid(),
        now.second_number() == at / 1_000_000_000,
        0 <= steps <= lookback,
        template::finest(tokens) is Some,
        lies_back(template::finest(tokens)->0, now, then, steps),
    ensures
        template::period_text(tokens, at, steps) == template::written(tokens, then),
        template::resolved(tokens, at, lookback).contains(template::written(tokens, then)),
        template::resolved(tokens, at, lookback)[0] == template::written(tokens, now),
{
    let unit = template::finest(tokens)->0;
    stepping_lands(unit, at, now, then, steps);
    stepping_lands(unit, at, now, now, 0);
    template::resolved_prefixes_cover_the_lookback(tokens, at, lookback);
    assert(template::resolved(tokens, at, lookback).contains(
        template::period_text(tokens, at, steps),
    ));
}

/// On a zone's wall clock too, the prefix of an earlier period is what the
/// template writes on the date that the clock shows: hours are stepped back in
/// time, longer periods on the calendar.
pub proof fn zoned_periods_are_written_as_of_their_date(
    tokens: Seq<Token>,
    at: int,
    zone: Seq<char>,
    now: Civil,
    then: Civil,
    steps: int,
    lookback: nat,
)
    requires
        now.valid(),
        then.valid(),
        now.second_number() == at / 1_000_000_000 + time::zone_offset(zone, at / 1_000_000_000),
        0 <= steps <= lookback,
        template::finest(tokens) is Some,
        template::finest(tokens)->0 == Granularity::Hour ==> then.second_number() == at
            / 1_000_000_000 - 3_600 * steps + time::zone_offset(
            zone,
            at / 1_000_000_000 - 3_600 * steps,
        ),
        template::finest(tokens)->0 != Granularity::Hour ==> lies_back(
            template::finest(tokens)->0,
            now,
            then,
            steps,
        ),
    ensures
        template::period_text_in(tokens, at, steps, zone) == template::written(tokens, then),
        template::resolved_in(tokens, at, lookback, zone).contains(
            template::written(tokens, then),
        ),
        template::resolved_in(tokens, at, lookback, zone)[0] == template::written(tokens, now),
{
    let unit = template::finest(tokens)->0;
    let second = at / 1_000_000_000;
    let shown = template::on_wall(zone, at);
    let offset = time::zone_offset(zone, second);
    assert((at + offset * 1_000_000_000) / 1_000_000_000 == second + offset);
    if unit == Granularity::Hour {
        let earlier = at - steps * 3600 * 1_000_000_000;
        assert(earlier / 1_000_000_000 == second - steps * 3600);
        let there = time::zone_offset(zone, second - steps * 3600);
        assert((earlier + there * 1_000_000_000) / 1_000_000_000 == second - steps * 3600 + there);
        time::calendar_reading_is_unique(then, time::civil_of(second - steps * 3600 + there));
        time::calendar_reading_is_unique(now, time::civil_of(second + offset));
    } else {
        stepping_lands(unit, shown, now, then, steps);
        stepping_lands(unit, shown, now, now, 0);
    }
    template::zoned_prefixes_cover_the_lookback(tokens, at, lookback, zone);
    assert(template::resolved_in(tokens, at, lookback, zone).contains(
        template::period_text_in(tokens, at, steps, zone),
    ));
}

} // verus!
