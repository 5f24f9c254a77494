//! Date placeholders in a feed target, so a date-partitioned feed does not need
//! a new definition every day.
//!
//! `s3://bucket/trades/{yyyy}/{MM}/{dd}/` resolves to today's prefix at every
//! poll, and `s3://bucket/trades/{yyyy}{MM}{dd}/` gives the compact `20260812`
//! form from the same placeholders. Placeholders resolve in UTC unless a time
//! zone is given.

use vstd::prelude::*;

use crate::digits;
use crate::digits::{decimal_text, zero_padded_text};
use crate::error::{TemplateError, TemplateFault};
use crate::text;
use crate::text::{chars_of, find_char, text_between, text_eq};
use crate::time;
use crate::time::{days_in_month, Civil, Timestamp, Zone, FIRST_SECOND, FIRST_YEAR, LAST_SECOND, LAST_YEAR};

verus! {

/// The finest unit a template varies by, which is what "one period back" means.
#[derive(Clone, Copy, Debug, PartialEq, Eq, Structural)]
pub enum Granularity {
    Hour,
    Day,
    Month,
    Year,
}

/// A part of a date.
#[derive(Clone, Copy, Debug, PartialEq, Eq, Structural)]
pub enum Field {
    Year4,
    Year2,
    Month2,
    Month1,
    Day2,
    Day1,
    Hour2,
    Hour1,
}

/// The field that a placeholder names.
pub open spec fn field_named(name: Seq<char>) -> Option<Field> {
    if name == "yyyy"@ {
        Some(Field::Year4)
    } else if name == "yy"@ {
        Some(Field::Year2)
    } else if name == "MM"@ {
        Some(Field::Month2)
    } else if name == "M"@ {
        Some(Field::Month1)
    } else if name == "dd"@ {
        Some(Field::Day2)
    } else if name == "d"@ {
        Some(Field::Day1)
    } else if name == "HH"@ {
        Some(Field::Hour2)
    } else if name == "H"@ {
        Some(Field::Hour1)
    } else {
        None
    }
}

impl Field {
    /// The unit by which the field varies.
    pub open spec fn unit(self) -> Granularity {
        match self {
            Field::Year4 | Field::Year2 => Granularity::Year,
            Field::Month2 | Field::Month1 => Granularity::Month,
            Field::Day2 | Field::Day1 => Granularity::Day,
            Field::Hour2 | Field::Hour1 => Granularity::Hour,
        }
    }

    /// How the field of a date is written.
    pub open spec fn text(self, civil: Civil) -> Seq<char> {
        match self {
            Field::Year4 => digits::zero_padded(civil.year as int, 4),
            Field::Year2 => digits::zero_padded(civil.year as int % 100, 2),
            Field::Month2 => digits::zero_padded(civil.month as int, 2),
            Field::Month1 => digits::decimal(civil.month as nat),
            Field::Day2 => digits::zero_padded(civil.day as int, 2),
            Field::Day1 => digits::decimal(civil.day as nat),
            Field::Hour2 => digits::zero_padded(civil.hour as int, 2),
            Field::Hour1 => digits::decimal(civil.hour as nat),
        }
    }

    /// The field that a placeholder names.
    pub fn parse(name: &str) -> (field: Option<Field>)
        ensures
            field == field_named(name@),
    {
        if text_eq(name, "yyyy") {
            Some(Field::Year4)
        } else if text_eq(name, "yy") {
            Some(Field::Year2)
        } else if text_eq(name, "MM") {
            Some(Field::Month2)
        } else if text_eq(name, "M") {
            Some(Field::Month1)
        } else if text_eq(name, "dd") {
            Some(Field::Day2)
        } else if text_eq(name, "d") {
            Some(Field::Day1)
        } else if text_eq(name, "HH") {
            Some(Field::Hour2)
        } else if text_eq(name, "H") {
            Some(Field::Hour1)
        } else {
            None
        }
    }

    /// The unit by which the field varies.
    pub fn granularity(self) -> (unit: Granularity)
        ensures
            unit == self.unit(),
    {
        match self {
            Field::Year4 | Field::Year2 => Granularity::Year,
            Field::Month2 | Field::Month1 => Granularity::Month,
            Field::Day2 | Field::Day1 => Granularity::Day,
            Field::Hour2 | Field::Hour1 => Granularity::Hour,
        }
    }

    /// Writes the field of a date.
    pub fn render(self, civil: &Civil) -> (text: String)
        ensures
            text@ == self.text(*civil),
    {
        match self {
            Field::Year4 => zero_padded_text(civil.year as i64, 4),
            Field::Year2 => zero_padded_text(year_of_century(civil.year) as i64, 2),
            Field::Month2 => zero_padded_text(civil.month as i64, 2),
            Field::Month1 => decimal_text(civil.month as u128),
            Field::Day2 => zero_padded_text(civil.day as i64, 2),
            Field::Day1 => decimal_text(civil.day as u128),
            Field::Hour2 => zero_padded_text(civil.hour as i64, 2),
            Field::Hour1 => decimal_text(civil.hour as u128),
        }
    }
}

fn year_of_century(year: i32) -> (short: i32)
    ensures
        short == year as int % 100,
{
    let rest: i32 = year % 100;
    if rest < 0 {
        rest + 100
    } else {
        rest
    }
}

/// How fine a unit is.
pub open spec fn fineness(unit: Granularity) -> int {
    match unit {
        Granularity::Year => 0,
        Granularity::Month => 1,
        Granularity::Day => 2,
        Granularity::Hour => 3,
    }
}

/// The finer of two units.
pub open spec fn finer(left: Granularity, right: Granularity) -> Granularity {
    if fineness(right) > fineness(left) {
        right
    } else {
        left
    }
}

fn rank(unit: Granularity) -> (place: u8)
    ensures
        place == fineness(unit),
{
    match unit {
        Granularity::Year => 0,
        Granularity::Month => 1,
        Granularity::Day => 2,
        Granularity::Hour => 3,
    }
}

/// The finer of two units.
pub fn finer_of(left: Granularity, right: Granularity) -> (unit: Granularity)
    ensures
        unit == finer(left, right),
{
    if rank(right) > rank(left) {
        right
    } else {
        left
    }
}

/// One step of a template: a single character as it stands, or a part of the date.
pub enum Token {
    Literal(Seq<char>),
    Field(Field),
}

/// The fault of a placeholder that names no field. Minutes are the usual
/// confusion, and silently treating `{mm}` as a month would produce a plausible
/// wrong prefix.
pub open spec fn name_fault(name: Seq<char>) -> TemplateFault {
    if name == "mm"@ || name == "m"@ {
        TemplateFault::MinutesNotMonths
    } else {
        TemplateFault::UnknownPlaceholder(name)
    }
}

/// Puts a token in front of what the rest of a text reads as.
pub open spec fn led_by(
    token: Token,
    rest: Result<Seq<Token>, TemplateFault>,
) -> Result<Seq<Token>, TemplateFault> {
    match rest {
        Ok(tokens) => Ok(seq![token] + tokens),
        Err(fault) => Err(fault),
    }
}

/// How a text reads as a template. A doubled brace stands for itself, a name in
/// braces for a field, and everything else for itself.
pub open spec fn read_template(text: Seq<char>) -> Result<Seq<Token>, TemplateFault>
    decreases text.len(),
{
    if text.len() == 0 {
        Ok(Seq::empty())
    } else if text.len() > 1 && text[0] == '{' && text[1] == '{' {
        led_by(Token::Literal(text.take(1)), read_template(text.skip(2)))
    } else if text.len() > 1 && text[0] == '}' && text[1] == '}' {
        led_by(Token::Literal(text.take(1)), read_template(text.skip(2)))
    } else if text[0] == '{' {
        let close = text::position(text.skip(1), '}') as int;
        if close >= text.len() - 1 {
            Err(TemplateFault::UnclosedPlaceholder)
        } else {
            let name = text.subrange(1, close + 1);
            match field_named(name) {
                Some(field) => led_by(Token::Field(field), read_template(text.skip(close + 2))),
                None => Err(name_fault(name)),
            }
        }
    } else if text[0] == '}' {
        Err(TemplateFault::UnmatchedBrace)
    } else {
        led_by(Token::Literal(text.take(1)), read_template(text.skip(1)))
    }
}

/// The finest unit that occurs in a template, if it holds a placeholder.
pub open spec fn finest(tokens: Seq<Token>) -> Option<Granularity>
    decreases tokens.len(),
{
    if tokens.len() == 0 {
        None
    } else {
        let front = finest(tokens.drop_last());
        match tokens.last() {
            Token::Literal(_) => front,
            Token::Field(field) => match front {
                Some(unit) => Some(finer(unit, field.unit())),
                None => Some(field.unit()),
            },
        }
    }
}

/// What one token stands for on a date.
pub open spec fn token_text(token: Token, civil: Civil) -> Seq<char> {
    match token {
        Token::Literal(text) => text,
        Token::Field(field) => field.text(civil),
    }
}

/// What a template stands for on a date.
pub open spec fn written(tokens: Seq<Token>, civil: Civil) -> Seq<char>
    decreases tokens.len(),
{
    if tokens.len() == 0 {
        Seq::empty()
    } else {
        written(tokens.drop_last(), civil) + token_text(tokens.last(), civil)
    }
}

/// The characters of a text as tokens.
pub open spec fn as_tokens(text: Seq<char>) -> Seq<Token> {
    Seq::new(text.len(), |i: int| Token::Literal(text.subrange(i, i + 1)))
}

proof fn as_tokens_push(text: Seq<char>, c: char)
    ensures
        as_tokens(text.push(c)) == as_tokens(text).push(Token::Literal(seq![c])),
{
    let longer = text.push(c);
    assert forall|i: int| 0 <= i < text.len() implies #[trigger] as_tokens(longer)[i] == as_tokens(
        text,
    )[i] by {
        assert(longer.subrange(i, i + 1) =~= text.subrange(i, i + 1));
    }
    assert(longer.subrange(text.len() as int, longer.len() as int) =~= seq![c]);
    assert(as_tokens(longer) =~= as_tokens(text).push(Token::Literal(seq![c])));
}

proof fn literal_tokens(tokens: Seq<Token>, text: Seq<char>, civil: Civil)
    ensures
        finest(tokens + as_tokens(text)) == finest(tokens),
        written(tokens + as_tokens(text), civil) == written(tokens, civil) + text,
    decreases text.len(),
{
    let all = tokens + as_tokens(text);
    if text.len() == 0 {
        assert(all =~= tokens);
        assert(written(tokens, civil) + text =~= written(tokens, civil));
    } else {
        let c = text.last();
        literal_tokens(tokens, text.drop_last(), civil);
        assert(text.drop_last().push(c) =~= text);
        as_tokens_push(text.drop_last(), c);
        assert(all.drop_last() =~= tokens + as_tokens(text.drop_last()));
        assert(all.last() == Token::Literal(seq![c]));
        assert(written(tokens, civil) + text =~= written(tokens, civil) + text.drop_last()
            + seq![text.last()]);
    }
}

#[derive(Clone, Debug, PartialEq, Eq)]
enum Segment {
    Literal(String),
    Field(Field),
}

spec fn segment_tokens(segment: Segment) -> Seq<Token> {
    match segment {
        Segment::Literal(text) => as_tokens(text@),
        Segment::Field(field) => seq![Token::Field(field)],
    }
}

spec fn flatten(segments: Seq<Segment>) -> Seq<Token>
    decreases segments.len(),
{
    if segments.len() == 0 {
        Seq::empty()
    } else {
        flatten(segments.drop_last()) + segment_tokens(segments.last())
    }
}

proof fn flatten_push(segments: Seq<Segment>, segment: Segment)
    ensures
        flatten(segments.push(segment)) == flatten(segments) + segment_tokens(segment),
{
    assert(segments.push(segment).drop_last() =~= segments);
}

/// A key prefix containing at least one date placeholder.
#[derive(Debug, PartialEq, Eq)]
pub struct DateTemplate {
    segments: Vec<Segment>,
    granularity: Granularity,
}

impl View for DateTemplate {
    type V = Seq<Token>;

    closed spec fn view(&self) -> Seq<Token> {
        flatten(self.segments@)
    }
}

/// What a parsed part and the rest of a text amount to.
spec fn continued(
    done: Seq<Token>,
    rest: Result<Seq<Token>, TemplateFault>,
) -> Result<Seq<Token>, TemplateFault> {
    match rest {
        Ok(tokens) => Ok(done + tokens),
        Err(fault) => Err(fault),
    }
}

proof fn continued_step(
    done: Seq<Token>,
    token: Token,
    rest: Result<Seq<Token>, TemplateFault>,
)
    ensures
        continued(done, led_by(token, rest)) == continued(done.push(token), rest),
{
    if rest is Ok {
        assert(done + (seq![token] + rest->Ok_0) =~= done.push(token) + rest->Ok_0);
    }
}

impl DateTemplate {
    #[verifier::type_invariant]
    closed spec fn well_formed(self) -> bool {
        finest(flatten(self.segments@)) == Some(self.granularity)
    }

    /// Reads a key prefix.
    ///
    /// Returns `Ok(None)` when the prefix holds no placeholders, so an ordinary
    /// target stays exactly as it is.
    pub fn parse(prefix: &str) -> (result: Result<Option<Self>, TemplateError>)
        ensures
            match result {
                Ok(Some(template)) => {
                    &&& read_template(prefix@) == Ok::<Seq<Token>, TemplateFault>(template@)
                    &&& finest(template@) is Some
                },
                Ok(None) => read_template(prefix@) is Ok && finest(read_template(prefix@)->Ok_0)
                    is None,
                Err(error) => read_template(prefix@) == Err::<Seq<Token>, TemplateFault>(error@),
            },
    {
        let characters = chars_of(prefix);
        let ghost all = characters@;
        let mut segments: Vec<Segment> = Vec::new();
        let mut literal: String = String::new();
        let mut unit: Option<Granularity> = None;
        let mut i: usize = 0;
        proof {
            assert(all.skip(0) =~= all);
            assert(as_tokens(literal@) =~= Seq::empty());
            let done = flatten(segments@) + as_tokens(literal@);
            assert(done =~= Seq::<Token>::empty());
            if read_template(all) is Ok {
                assert(done + read_template(all)->Ok_0 =~= read_template(all)->Ok_0);
            }
        }
        while i < characters.len()
            invariant
                all == prefix@,
                characters@ == all,
                i <= all.len(),
                read_template(all) == continued(
                    flatten(segments@) + as_tokens(literal@),
                    read_template(all.skip(i as int)),
                ),
                finest(flatten(segments@)) == unit,
            decreases all.len() - i,
        {
            let ghost rest = all.skip(i as int);
            let ghost done = flatten(segments@) + as_tokens(literal@);
            let c = characters[i];
            let doubled: bool = i + 1 < characters.len() && characters[i + 1] == c;
            if doubled && (c == '{' || c == '}') {
                proof {
                    assert(rest.skip(2) =~= all.skip(i + 2));
                    assert(rest.take(1) =~= seq![c]);
                    continued_step(done, Token::Literal(seq![c]), read_template(all.skip(i + 2)));
                    as_tokens_push(literal@, c);
                    assert(done.push(Token::Literal(seq![c])) =~= flatten(segments@) + as_tokens(
                        literal@.push(c),
                    ));
                }
                literal.push(c);
                i += 2;
            } else if c == '{' {
                let close: usize = find_char(&characters, '}', i + 1);
                proof {
                    assert(rest.skip(1) =~= all.skip(i + 1));
                }
                if close >= characters.len() {
                    return Err(TemplateError::UnclosedPlaceholder);
                }
                let name = text_between(&characters, i + 1, close);
                proof {
                    assert(rest.subrange(1, close - i) =~= all.subrange(i + 1, close as int));
                    assert(rest.skip(close + 1 - i) =~= all.skip(close + 1));
                }
                let field = match Field::parse(name.as_str()) {
                    Some(field) => field,
                    None => {
                        if text_eq(name.as_str(), "mm") || text_eq(name.as_str(), "m") {
                            return Err(TemplateError::MinutesNotMonths);
                        }
                        return Err(TemplateError::UnknownPlaceholder(name));
                    },
                };
                proof {
                    continued_step(done, Token::Field(field), read_template(all.skip(close + 1)));
                    flatten_push(segments@, Segment::Literal(literal));
                    literal_tokens(flatten(segments@), literal@, arbitrary());
                }
                if !literal.as_str().is_empty() {
                    segments.push(Segment::Literal(literal));
                    literal = String::new();
                } else {
                    proof {
                        assert(done =~= flatten(segments@));
                    }
                    literal = String::new();
                }
                assert(flatten(segments@) == done);
                let next = field.granularity();
                unit = Some(
                    match unit {
                        Some(current) => finer_of(current, next),
                        None => next,
                    },
                );
                proof {
                    flatten_push(segments@, Segment::Field(field));
                    assert(flatten(segments@) + segment_tokens(Segment::Field(field))
                        =~= done.push(Token::Field(field)));
                    assert(done.push(Token::Field(field)).drop_last() =~= done);
                }
                segments.push(Segment::Field(field));
                proof {
                    assert(flatten(segments@) + as_tokens(literal@) =~= done.push(
                        Token::Field(field),
                    ));
                }
                i = close + 1;
            } else if c == '}' {
                return Err(TemplateError::UnmatchedBrace);
            } else {
                proof {
                    assert(rest.skip(1) =~= all.skip(i + 1));
                    assert(rest.take(1) =~= seq![c]);
                    continued_step(done, Token::Literal(seq![c]), read_template(all.skip(i + 1)));
                    as_tokens_push(literal@, c);
                    assert(done.push(Token::Literal(seq![c])) =~= flatten(segments@) + as_tokens(
                        literal@.push(c),
                    ));
                }
                literal.push(c);
                i += 1;
            }
        }
        let ghost tokens = flatten(segments@) + as_tokens(literal@);
        proof {
            assert(all.skip(i as int) =~= Seq::empty());
            assert(tokens + Seq::<Token>::empty() =~= tokens);
            literal_tokens(flatten(segments@), literal@, arbitrary());
            flatten_push(segments@, Segment::Literal(literal));
        }
        if !literal.as_str().is_empty() {
            segments.push(Segment::Literal(literal));
        } else {
            assert(tokens =~= flatten(segments@));
        }
        assert(flatten(segments@) == tokens);
        match unit {
            None => Ok(None),
            Some(granularity) => Ok(Some(DateTemplate { segments, granularity })),
        }
    }

    /// The finest unit that the template varies by.
    pub fn granularity(&self) -> (unit: Granularity)
        ensures
            finest(self@) == Some(unit),
    {
        proof {
            use_type_invariant(self);
        }
        self.granularity
    }

    /// Whether the time line reaches back over so many periods from an instant.
    pub fn reaches(&self, at: &Timestamp, lookback: u32) -> (result: bool)
        ensures
            result == reaches_back(self@, at@ / 1_000_000_000, lookback as int),
    {
        let seconds: i128 = at.seconds() as i128;
        let steps: i128 = lookback as i128;
        match self.granularity() {
            Granularity::Hour => seconds - steps * 3600 >= FIRST_SECOND as i128,
            Granularity::Day => seconds - steps * 86400 >= FIRST_SECOND as i128,
            _ => true,
        }
    }

    /// The prefixes to watch: the period containing `at`, plus `lookback`
    /// earlier ones.
    ///
    /// The lookback exists because a rollover is not clean: files for yesterday
    /// can still land after midnight.
    ///
    /// Newest first, deduplicated.
    pub fn resolve(&self, at: Timestamp, lookback: u32) -> (prefixes: Vec<String>)
        requires
            reaches_back(self@, at@ / 1_000_000_000, lookback as int),
        ensures
            prefixes@.map_values(|prefix: String| prefix@) == resolved(
                self@,
                at@,
                lookback as nat,
            ),
    {
        let mut prefixes: Vec<String> = Vec::new();
        prefixes.push(self.render(&at));
        assert(prefixes@.map_values(|prefix: String| prefix@) =~= resolved(self@, at@, 0));
        let mut step: u32 = 0;
        while step < lookback
            invariant
                step <= lookback,
                reaches_back(self@, at@ / 1_000_000_000, lookback as int),
                prefixes@.map_values(|prefix: String| prefix@) == resolved(
                    self@,
                    at@,
                    step as nat,
                ),
            decreases lookback - step,
        {
            step += 1;
            let moment = self.step_back(&at, step);
            add_once(&mut prefixes, self.render(&moment));
        }
        prefixes
    }

    /// The prefixes to watch for a feed that is partitioned by a zone's wall
    /// clock. Hours are stepped back in real time, longer periods on the
    /// calendar that the zone shows.
    pub fn resolve_in(&self, at: Timestamp, lookback: u32, zone: &Zone) -> (prefixes: Vec<String>)
        requires
            reaches_back(self@, at@ / 1_000_000_000 - 86400, lookback as int),
            FIRST_SECOND + 86400 <= at@ / 1_000_000_000 <= LAST_SECOND - 86400,
        ensures
            prefixes@.map_values(|prefix: String| prefix@) == resolved_in(
                self@,
                at@,
                lookback as nat,
                zone@,
            ),
            zone@ == "UTC"@ ==> prefixes@.map_values(|prefix: String| prefix@) == resolved(
                self@,
                at@,
                lookback as nat,
            ),
    {
        let mut prefixes: Vec<String> = Vec::new();
        let now = zone.wall_clock(&at);
        prefixes.push(self.render(&now));
        assert(zone@ == "UTC"@ ==> prefixes@.map_values(|prefix: String| prefix@) =~= resolved(
            self@,
            at@,
            0,
        ));
        assert(prefixes@.map_values(|prefix: String| prefix@) =~= resolved_in(
            self@,
            at@,
            0,
            zone@,
        ));
        let mut step: u32 = 0;
        while step < lookback
            invariant
                step <= lookback,
                reaches_back(self@, at@ / 1_000_000_000 - 86400, lookback as int),
                FIRST_SECOND + 86400 <= at@ / 1_000_000_000 <= LAST_SECOND - 86400,
                now@ == on_wall(zone@, at@),
                at@ - 86400 * 1_000_000_000 < now@,
                zone@ == "UTC"@ ==> now@ == at@,
                zone@ == "UTC"@ ==> prefixes@.map_values(|prefix: String| prefix@) == resolved(
                    self@,
                    at@,
                    step as nat,
                ),
                prefixes@.map_values(|prefix: String| prefix@) == resolved_in(
                    self@,
                    at@,
                    step as nat,
                    zone@,
                ),
            decreases lookback - step,
        {
            step += 1;
            let moment = match self.granularity() {
                Granularity::Hour => {
                    let earlier = at.minus_seconds(3600 * (step as u64));
                    zone.wall_clock(&earlier)
                },
                _ => self.step_back(&now, step),
            };
            add_once(&mut prefixes, self.render(&moment));
        }
        prefixes
    }

    /// Writes the template out for a date.
    fn render(&self, at: &Timestamp) -> (text: String)
        ensures
            text@ == written(self@, time::civil_of(at@ / 1_000_000_000)),
    {
        let civil = at.civil();
        let mut text = String::new();
        let mut i: usize = 0;
        while i < self.segments.len()
            invariant
                i <= self.segments@.len(),
                text@ == written(flatten(self.segments@.take(i as int)), civil),
            decreases self.segments@.len() - i,
        {
            let ghost part = self.segments@.take(i as int);
            proof {
                assert(self.segments@.take(i + 1) =~= part.push(self.segments@[i as int]));
                flatten_push(part, self.segments@[i as int]);
            }
            match &self.segments[i] {
                Segment::Literal(literal) => {
                    proof {
                        literal_tokens(flatten(part), literal@, civil);
                    }
                    text.append(literal.as_str());
                },
                Segment::Field(field) => {
                    let written_field = field.render(&civil);
                    proof {
                        let tokens = flatten(part) + seq![Token::Field(*field)];
                        assert(tokens.drop_last() =~= flatten(part));
                    }
                    text.append(written_field.as_str());
                },
            }
            i += 1;
        }
        assert(self.segments@.take(i as int) =~= self.segments@);
        text
    }

    /// Calendar arithmetic, not duration subtraction: months and years are not
    /// fixed numbers of seconds.
    fn step_back(&self, at: &Timestamp, steps: u32) -> (moment: Timestamp)
        requires
            reaches_back(self@, at@ / 1_000_000_000, steps as int),
        ensures
            moment@ == stepped(finest(self@)->0, at@, steps as int),
    {
        proof {
            use_type_invariant(self);
        }
        if steps == 0 {
            return *at;
        }
        match self.granularity {
            Granularity::Hour => at.minus_seconds(3600 * (steps as u64)),
            Granularity::Day => at.minus_seconds(86400 * (steps as u64)),
            Granularity::Month => {
                let civil = at.civil();
                let months: i64 = (civil.year as i64) * 12 + (civil.month as i64) - 1 - (
                steps as i64);
                let mut year: i64 = months / 12;
                let mut month: i64 = months % 12;
                if month < 0 {
                    month += 12;
                    year -= 1;
                }
                assert(year == months as int / 12 && month == months as int % 12);
                moved_to(at, &civil, year, (month + 1) as u32)
            },
            Granularity::Year => {
                let civil = at.civil();
                let year: i64 = (civil.year as i64) - (steps as i64);
                moved_to(at, &civil, year, civil.month)
            },
        }
    }
}

/// The instant with the same time of day in another month; the day is clamped
/// to that month. The instant itself where the calendar does not reach.
fn moved_to(at: &Timestamp, civil: &Civil, year: i64, month: u32) -> (moment: Timestamp)
    requires
        civil.valid(),
        1 <= month <= 12,
    ensures
        moment@ == moved(*civil, year as int, month as int, at@),
{
    if year < FIRST_YEAR as i64 || year > LAST_YEAR as i64 {
        return *at;
    }
    let last: u32 = days_in_month(year as i32, month);
    let day: u32 = if civil.day < last {
        civil.day
    } else {
        last
    };
    let target = Civil {
        year: year as i32,
        month,
        day,
        hour: civil.hour,
        minute: civil.minute,
        second: civil.second,
    };
    match Timestamp::from_civil(target) {
        Some(moment) => moment,
        None => *at,
    }
}

/// Appends a prefix unless it is already there.
fn add_once(prefixes: &mut Vec<String>, prefix: String)
    ensures
        final(prefixes)@.map_values(|held: String| held@) == with_once(
            old(prefixes)@.map_values(|held: String| held@),
            prefix@,
        ),
{
    let ghost views = prefixes@.map_values(|held: String| held@);
    let mut i: usize = 0;
    while i < prefixes.len()
        invariant
            i <= prefixes@.len(),
            views == prefixes@.map_values(|held: String| held@),
            *prefixes == *old(prefixes),
            forall|j: int| 0 <= j < i ==> #[trigger] views[j] != prefix@,
        decreases prefixes@.len() - i,
    {
        if text_eq(prefixes[i].as_str(), prefix.as_str()) {
            assert(views[i as int] == prefix@);
            assert(views.contains(prefix@));
            return;
        }
        assert(views[i as int] == prefixes@[i as int]@);
        i += 1;
    }
    let ghost text = prefix@;
    prefixes.push(prefix);
    assert(!views.contains(text));
    assert(prefixes@.map_values(|held: String| held@) =~= views.push(text));
}

/// A sequence with a value appended unless it is already there.
pub open spec fn with_once(values: Seq<Seq<char>>, value: Seq<char>) -> Seq<Seq<char>> {
    if values.contains(value) {
        values
    } else {
        values.push(value)
    }
}

/// The same time of day in another month, with the day clamped to that month, in
/// nanoseconds; `at` itself where the calendar does not reach.
pub open spec fn moved(civil: Civil, year: int, month: int, at: int) -> int {
    if FIRST_YEAR <= year <= LAST_YEAR {
        let last = time::month_length(year, month);
        let target = Civil {
            year: year as i32,
            month: month as u32,
            day: if civil.day < last {
                civil.day
            } else {
                last as u32
            },
            hour: civil.hour,
            minute: civil.minute,
            second: civil.second,
        };
        target.second_number() * 1_000_000_000
    } else {
        at
    }
}

/// The instant a number of periods before another.
pub open spec fn stepped(unit: Granularity, at: int, steps: int) -> int {
    let civil = time::civil_of(at / 1_000_000_000);
    if steps == 0 {
        at
    } else {
        match unit {
            Granularity::Hour => at - steps * 3600 * 1_000_000_000,
            Granularity::Day => at - steps * 86400 * 1_000_000_000,
            Granularity::Month => {
                let months = civil.year * 12 + civil.month - 1 - steps;
                moved(civil, months / 12, months % 12 + 1, at)
            },
            Granularity::Year => moved(civil, civil.year - steps, civil.month as int, at),
        }
    }
}

/// Whether the time line reaches far enough back to step hours or days.
pub open spec fn reaches_back(tokens: Seq<Token>, seconds: int, steps: int) -> bool {
    match finest(tokens) {
        Some(Granularity::Hour) => seconds - steps * 3600 >= FIRST_SECOND,
        Some(Granularity::Day) => seconds - steps * 86400 >= FIRST_SECOND,
        _ => true,
    }
}

/// What a template stands for a number of periods before an instant.
pub open spec fn period_text(tokens: Seq<Token>, at: int, steps: int) -> Seq<char> {
    written(tokens, time::civil_of(stepped(finest(tokens)->0, at, steps) / 1_000_000_000))
}

/// The prefixes of the period at an instant and of those before it, newest
/// first, none of them twice.
pub open spec fn resolved(tokens: Seq<Token>, at: int, lookback: nat) -> Seq<Seq<char>>
    decreases lookback,
{
    if lookback == 0 {
        seq![period_text(tokens, at, 0)]
    } else {
        with_once(
            resolved(tokens, at, (lookback - 1) as nat),
            period_text(tokens, at, lookback as int),
        )
    }
}

/// What a zone's wall clock shows at an instant, read as if it were UTC.
pub open spec fn on_wall(zone: Seq<char>, at: int) -> int {
    at + time::zone_offset(zone, at / 1_000_000_000) * 1_000_000_000
}

/// What a template stands for a number of periods back on a zone's wall clock.
pub open spec fn period_text_in(tokens: Seq<Token>, at: int, steps: int, zone: Seq<char>) -> Seq<
    char,
> {
    let moment = match finest(tokens) {
        Some(Granularity::Hour) => on_wall(zone, at - steps * 3600 * 1_000_000_000),
        _ => stepped(finest(tokens)->0, on_wall(zone, at), steps),
    };
    written(tokens, time::civil_of(moment / 1_000_000_000))
}

/// The prefixes of the period on a zone's wall clock and of those before it,
/// newest first, none of them twice.
pub open spec fn resolved_in(
    tokens: Seq<Token>,
    at: int,
    lookback: nat,
    zone: Seq<char>,
) -> Seq<Seq<char>>
    decreases lookback,
{
    if lookback == 0 {
        seq![period_text_in(tokens, at, 0, zone)]
    } else {
        with_once(
            resolved_in(tokens, at, (lookback - 1) as nat, zone),
            period_text_in(tokens, at, lookback as int, zone),
        )
    }
}

/// The zone of an IANA name.
pub fn parse_time_zone(name: &str) -> (result: Result<Zone, TemplateError>)
    ensures
        match result {
            Ok(zone) => time::zone_listed(name@) && zone@ == name@,
            Err(error) => !time::zone_listed(name@) && name@ != "UTC"@ && error@ == TemplateFault::UnknownTimeZone(
                name@,
            ),
        },
{
    match Zone::named(name) {
        Some(zone) => Ok(zone),
        None => Err(TemplateError::UnknownTimeZone(name.to_owned())),
    }
}

/// The prefixes start with the current period, cover every earlier one asked
/// for, hold nothing else and no prefix twice.
pub proof fn resolved_prefixes_cover_the_lookback(tokens: Seq<Token>, at: int, lookback: nat)
    ensures
        resolved(tokens, at, lookback).len() > 0,
        resolved(tokens, at, lookback)[0] == period_text(tokens, at, 0),
        resolved(tokens, at, lookback).no_duplicates(),
        forall|steps: int|
            0 <= steps <= lookback ==> resolved(tokens, at, lookback).contains(
                #[trigger] period_text(tokens, at, steps),
            ),
        forall|prefix: Seq<char>| #[trigger]
            resolved(tokens, at, lookback).contains(prefix) ==> exists|steps: int|
                0 <= steps <= lookback && prefix == #[trigger] period_text(tokens, at, steps),
        resolved(tokens, at, lookback).len() <= lookback + 1,
    decreases lookback,
{
    let all = resolved(tokens, at, lookback);
    if lookback == 0 {
        let only = period_text(tokens, at, 0);
        assert(all =~= seq![only]);
        assert(all[0] == only);
        assert forall|steps: int| 0 <= steps <= lookback implies all.contains(
            #[trigger] period_text(tokens, at, steps),
        ) by {
            assert(steps == 0);
        }
    } else {
        let before = (lookback - 1) as nat;
        resolved_prefixes_cover_the_lookback(tokens, at, before);
        let fewer = resolved(tokens, at, before);
        let next = period_text(tokens, at, lookback as int);
        if !fewer.contains(next) {
            assert(all == fewer.push(next));
            assert(all[all.len() - 1] == next);
        }
        assert forall|prefix: Seq<char>| #[trigger] fewer.contains(prefix) implies all.contains(
            prefix,
        ) by {
            let i = choose|i: int| 0 <= i < fewer.len() && fewer[i] == prefix;
            assert(all[i] == prefix);
        }
        assert forall|steps: int| 0 <= steps <= lookback implies all.contains(
            #[trigger] period_text(tokens, at, steps),
        ) by {
            if steps <= before {
                assert(fewer.contains(period_text(tokens, at, steps)));
            }
        }
        assert forall|prefix: Seq<char>| #[trigger] all.contains(prefix) implies exists|steps: int|
            0 <= steps <= lookback && prefix == #[trigger] period_text(tokens, at, steps) by {
            let i = choose|i: int| 0 <= i < all.len() && all[i] == prefix;
            if i < fewer.len() {
                assert(fewer[i] == prefix);
                assert(fewer.contains(prefix));
            }
        }
    }
}

/// A text with every brace doubled.
pub open spec fn escaped(text: Seq<char>) -> Seq<char>
    decreases text.len(),
{
    if text.len() == 0 {
        text
    } else if text[0] == '{' || text[0] == '}' {
        text.take(1) + text.take(1) + escaped(text.skip(1))
    } else {
        text.take(1) + escaped(text.skip(1))
    }
}

/// A key may still contain braces: doubled, they stand for themselves, and such
/// a text is no template.
pub proof fn doubled_braces_are_literal(text: Seq<char>)
    ensures
        read_template(escaped(text)) == Ok::<Seq<Token>, TemplateFault>(as_tokens(text)),
        finest(as_tokens(text)) is None,
    decreases text.len(),
{
    literal_tokens(Seq::empty(), text, arbitrary());
    assert(Seq::<Token>::empty() + as_tokens(text) =~= as_tokens(text));
    if text.len() == 0 {
        assert(as_tokens(text) =~= Seq::empty());
    } else {
        let rest = text.skip(1);
        let whole = escaped(text);
        doubled_braces_are_literal(rest);
        assert(whole.take(1) =~= text.take(1));
        let one = Token::Literal(text.take(1));
        if text[0] == '{' || text[0] == '}' {
            assert(whole.skip(2) =~= escaped(rest));
        } else {
            assert(whole.skip(1) =~= escaped(rest));
        }
        assert(seq![one] + as_tokens(rest) =~= as_tokens(text)) by {
            assert forall|i: int| 0 <= i < rest.len() implies #[trigger] as_tokens(rest)[i]
                == as_tokens(text)[i + 1] by {
                assert(rest.subrange(i, i + 1) =~= text.subrange(i + 1, i + 2));
            }
            assert(text.subrange(0, 1) =~= text.take(1));
            assert forall|i: int| 0 <= i < text.len() implies (seq![one] + as_tokens(rest))[i]
                == as_tokens(text)[i] by {
                if i > 0 {
                    assert(as_tokens(rest)[i - 1] == as_tokens(text)[i]);
                }
            }
        }
    }
}

/// A text without braces is its own escape, so an ordinary prefix is no
/// template.
pub proof fn plain_text_is_its_own_escape(text: Seq<char>)
    requires
        forall|i: int| 0 <= i < text.len() ==> #[trigger] text[i] != '{' && text[i] != '}',
    ensures
        escaped(text) == text,
    decreases text.len(),
{
    if text.len() > 0 {
        let rest = text.skip(1);
        assert forall|i: int| 0 <= i < rest.len() implies #[trigger] rest[i] != '{' && rest[i]
            != '}' by {
            assert(rest[i] == text[i + 1]);
        }
        plain_text_is_its_own_escape(rest);
        assert(text.take(1) + rest =~= text);
    }
}

/// The granularity is that of the finest placeholder.
pub proof fn granularity_is_the_finest(tokens: Seq<Token>)
    ensures
        forall|i: int|
            0 <= i < tokens.len() && (#[trigger] tokens[i]) is Field ==> finest(tokens) is Some
                && fineness(finest(tokens)->0) >= fineness(tokens[i]->Field_0.unit()),
        finest(tokens) is Some ==> exists|i: int|
            0 <= i < tokens.len() && (#[trigger] tokens[i]) is Field && finest(tokens) == Some(
                tokens[i]->Field_0.unit(),
            ),
    decreases tokens.len(),
{
    if tokens.len() > 0 {
        let front = tokens.drop_last();
        granularity_is_the_finest(front);
        assert forall|i: int| 0 <= i < tokens.len() && (#[trigger] tokens[i]) is Field implies
            finest(tokens) is Some && fineness(finest(tokens)->0) >= fineness(
            tokens[i]->Field_0.unit(),
        ) by {
            if i < front.len() {
                assert(front[i] == tokens[i]);
            }
        }
        if finest(tokens) is Some {
            if finest(front) == finest(tokens) {
                let i = choose|i: int|
                    0 <= i < front.len() && (#[trigger] front[i]) is Field && finest(front) == Some(
                        front[i]->Field_0.unit(),
                    );
                assert(tokens[i] == front[i]);
            } else {
                assert(tokens[tokens.len() - 1] is Field);
            }
        }
    }
}

/// Stepping back months lands that many months earlier at the same time of day,
/// on the same day or the last one of a shorter month.
pub proof fn month_steps_stay_in_their_month(at: int, civil: Civil, steps: int)
    requires
        civil.valid(),
        civil.second_number() == at / 1_000_000_000,
        steps > 0,
        (civil.year * 12 + civil.month - 1 - steps) / 12 >= FIRST_YEAR,
    ensures
        ({
            let moment = stepped(Granularity::Month, at, steps);
            let earlier = time::civil_of(moment / 1_000_000_000);
            let length = time::month_length(earlier.year as int, earlier.month as int);
            &&& earlier.year * 12 + earlier.month == civil.year * 12 + civil.month - steps
            &&& earlier.day == if civil.day < length {
                civil.day as int
            } else {
                length
            }
            &&& earlier.hour == civil.hour
            &&& earlier.minute == civil.minute
            &&& earlier.second == civil.second
        }),
{
    time::calendar_reading_is_unique(civil, time::civil_of(at / 1_000_000_000));
    let months = civil.year * 12 + civil.month - 1 - steps;
    let year = months / 12;
    let month = months % 12 + 1;
    let last = time::month_length(year, month);
    let target = Civil {
        year: year as i32,
        month: month as u32,
        day: if civil.day < last {
            civil.day
        } else {
            last as u32
        },
        hour: civil.hour,
        minute: civil.minute,
        second: civil.second,
    };
    assert(target.valid());
    let moment = stepped(Granularity::Month, at, steps);
    assert(moment == target.second_number() * 1_000_000_000);
    assert(moment / 1_000_000_000 == target.second_number());
    time::calendar_reading_is_unique(target, time::civil_of(moment / 1_000_000_000));
}

/// Prefixes come newest first: looking further back only appends.
pub proof fn longer_lookbacks_only_append(
    tokens: Seq<Token>,
    at: int,
    shorter: nat,
    longer: nat,
    zone: Seq<char>,
)
    requires
        shorter <= longer,
    ensures
        resolved(tokens, at, shorter).is_prefix_of(resolved(tokens, at, longer)),
        resolved_in(tokens, at, shorter, zone).is_prefix_of(
            resolved_in(tokens, at, longer, zone),
        ),
    decreases longer,
{
    if shorter < longer {
        longer_lookbacks_only_append(tokens, at, shorter, (longer - 1) as nat, zone);
        let fewer = resolved(tokens, at, (longer - 1) as nat);
        let all = resolved(tokens, at, longer);
        assert(all.subrange(0, fewer.len() as int) =~= fewer);
        assert(all.subrange(0, resolved(tokens, at, shorter).len() as int) =~= fewer.subrange(
            0,
            resolved(tokens, at, shorter).len() as int,
        ));
        let fewer = resolved_in(tokens, at, (longer - 1) as nat, zone);
        let all = resolved_in(tokens, at, longer, zone);
        assert(all.subrange(0, fewer.len() as int) =~= fewer);
        assert(all.subrange(0, resolved_in(tokens, at, shorter, zone).len() as int)
            =~= fewer.subrange(0, resolved_in(tokens, at, shorter, zone).len() as int));
    }
}

/// On a zone's wall clock too, the prefixes start with the current period, cover
/// every earlier one asked for, hold nothing else and no prefix twice.
pub proof fn zoned_prefixes_cover_the_lookback(
    tokens: Seq<Token>,
    at: int,
    lookback: nat,
    zone: Seq<char>,
)
    ensures
        resolved_in(tokens, at, lookback, zone).len() > 0,
        resolved_in(tokens, at, lookback, zone)[0] == period_text_in(tokens, at, 0, zone),
        resolved_in(tokens, at, lookback, zone).no_duplicates(),
        forall|steps: int|
            0 <= steps <= lookback ==> resolved_in(tokens, at, lookback, zone).contains(
                #[trigger] period_text_in(tokens, at, steps, zone),
            ),
        forall|prefix: Seq<char>| #[trigger]
            resolved_in(tokens, at, lookback, zone).contains(prefix) ==> exists|steps: int|
                0 <= steps <= lookback && prefix == #[trigger] period_text_in(
                    tokens,
                    at,
                    steps,
                    zone,
                ),
        resolved_in(tokens, at, lookback, zone).len() <= lookback + 1,
    decreases lookback,
{
    let all = resolved_in(tokens, at, lookback, zone);
    if lookback == 0 {
        let only = period_text_in(tokens, at, 0, zone);
        assert(all =~= seq![only]);
        assert(all[0] == only);
        assert forall|steps: int| 0 <= steps <= lookback implies all.contains(
            #[trigger] period_text_in(tokens, at, steps, zone),
        ) by {
            assert(steps == 0);
        }
    } else {
        let before = (lookback - 1) as nat;
        zoned_prefixes_cover_the_lookback(tokens, at, before, zone);
        let fewer = resolved_in(tokens, at, before, zone);
        let next = period_text_in(tokens, at, lookback as int, zone);
        if !fewer.contains(next) {
            assert(all == fewer.push(next));
            assert(all[all.len() - 1] == next);
        }
        assert forall|prefix: Seq<char>| #[trigger] fewer.contains(prefix) implies all.contains(
            prefix,
        ) by {
            let i = choose|i: int| 0 <= i < fewer.len() && fewer[i] == prefix;
            assert(all[i] == prefix);
        }
        assert forall|steps: int| 0 <= steps <= lookback implies all.contains(
            #[trigger] period_text_in(tokens, at, steps, zone),
        ) by {
            if steps <= before {
                assert(fewer.contains(period_text_in(tokens, at, steps, zone)));
            }
        }
        assert forall|prefix: Seq<char>| #[trigger] all.contains(prefix) implies exists|steps: int|
            0 <= steps <= lookback && prefix == #[trigger] period_text_in(
                tokens,
                at,
                steps,
                zone,
            ) by {
            let i = choose|i: int| 0 <= i < all.len() && all[i] == prefix;
            if i < fewer.len() {
                assert(fewer[i] == prefix);
                assert(fewer.contains(prefix));
            }
        }
    }
}

} // verus!
