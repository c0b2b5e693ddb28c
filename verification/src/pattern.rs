use crate::error::PatternError;
use crate::expression::utils::ParserCombinator;
use crate::grammar::{
    decimal, digits_end, is_digit, parse_count, parse_item, parse_items, parse_pattern,
    parse_repeater, parse_sequence, prepend, reads, DataModel, Parsed, PatternModel, CLOSE_COUNT,
    CLOSE_GROUP, DIGIT_NINE, DIGIT_ZERO, OPEN_COUNT, OPEN_GROUP, STAR,
};
use crate::repeater::Repeater;
use vstd::prelude::*;
use vstd::string::StringSliceAdditionalSpecFns;

verus! {

/// The content of a pattern element: the index of a stream, or a group of
/// elements.
#[derive(PartialEq, Debug)]
pub enum PatternData {
    Single(usize),
    Group(Vec<Pattern>),
}

/// A pattern element as it is written: its content and its repeater.
#[derive(PartialEq, Debug)]
pub struct Pattern {
    pub data: PatternData,
    pub repeater: Repeater,
}

/// The mathematical value of `data`.
pub open spec fn data_view(data: PatternData) -> DataModel
    decreases data,
{
    match data {
        PatternData::Single(index) => DataModel::Single(index),
        PatternData::Group(children) => DataModel::Group(
            Seq::new(
                children.len() as nat,
                |i: int|
                    if 0 <= i < children.len() {
                        data_view(children[i].data).with(children[i].repeater)
                    } else {
                        arbitrary()
                    },
            ),
        ),
    }
}

impl View for PatternData {
    type V = DataModel;

    open spec fn view(&self) -> DataModel {
        data_view(*self)
    }
}

impl View for Pattern {
    type V = PatternModel;

    open spec fn view(&self) -> PatternModel {
        self.data@.with(self.repeater)
    }
}

/// The views of `patterns`, in order.
pub open spec fn patterns_view(patterns: Seq<Pattern>) -> Seq<PatternModel> {
    patterns.map_values(|pattern: Pattern| pattern@)
}

/// A longer run of digits writes a number that is no smaller.
proof fn lemma_decimal_grows(text: Seq<u8>, from: int, mid: int, end: int)
    requires
        0 <= from <= mid <= end <= text.len(),
        forall|i: int| from <= i < end ==> is_digit(#[trigger] text[i]),
    ensures
        decimal(text.subrange(from, mid)) <= decimal(text.subrange(from, end)),
    decreases end - mid,
{
    if mid < end {
        lemma_decimal_grows(text, from, mid, end - 1);
        assert(text.subrange(from, end).drop_last() =~= text.subrange(from, end - 1));
    }
}

/// From `pos` up to where the digits end, every byte is a digit.
proof fn lemma_digits_end(text: Seq<u8>, pos: int)
    requires
        0 <= pos <= text.len(),
    ensures
        pos <= digits_end(text, pos) <= text.len(),
        forall|i: int| pos <= i < digits_end(text, pos) ==> is_digit(#[trigger] text[i]),
    decreases text.len() - pos,
{
    if pos < text.len() && is_digit(text[pos]) {
        lemma_digits_end(text, pos + 1);
    }
}

/// Reads the count in the braces that open at `open`.
fn read_count(bytes: &[u8], open: usize) -> (outcome: Result<(usize, usize), PatternError>)
    requires
        open < bytes.len(),
    ensures
        match parse_count(bytes@, open as int) {
            Ok((count, after)) => outcome == Ok::<(usize, usize), PatternError>(
                (count, after as usize),
            ) && open < after <= bytes.len(),
            Err(fault) => outcome == Err::<(usize, usize), PatternError>(fault),
        },
{
    let mut at: usize = open + 1;
    let mut count: usize = 0;
    while at < bytes.len() && DIGIT_ZERO <= bytes[at] && bytes[at] <= DIGIT_NINE
        invariant
            open + 1 <= at <= bytes.len(),
            digits_end(bytes@, open + 1) == digits_end(bytes@, at as int),
            count == decimal(bytes@.subrange(open + 1, at as int)),
        decreases bytes.len() - at,
    {
        let digit: usize = (bytes[at] - DIGIT_ZERO) as usize;
        proof {
            assert(bytes@.subrange(open + 1, at + 1).drop_last() =~= bytes@.subrange(
                open + 1,
                at as int,
            ));
            lemma_digits_end(bytes@, at + 1);
            lemma_digits_end(bytes@, open + 1);
            lemma_decimal_grows(bytes@, open + 1, at + 1, digits_end(bytes@, open + 1));
        }
        if count > (usize::MAX - digit) / 10 {
            return Err(PatternError::MalformedCount { at: open });
        }
        count = count * 10 + digit;
        at += 1;
    }
    if at > open + 1 && at < bytes.len() && bytes[at] == CLOSE_COUNT && count >= 1 {
        Ok((count, at + 1))
    } else {
        Err(PatternError::MalformedCount { at: open })
    }
}

/// Reads the repeater at `pos`, if one is written there.
pub(crate) fn read_repeater(bytes: &[u8], pos: usize) -> (outcome: Result<(Repeater, usize), PatternError>)
    requires
        pos <= bytes.len(),
    ensures
        match parse_repeater(bytes@, pos as int) {
            Ok((repeater, after)) => outcome == Ok::<(Repeater, usize), PatternError>(
                (repeater, after as usize),
            ) && pos <= after <= bytes.len(),
            Err(fault) => outcome == Err::<(Repeater, usize), PatternError>(fault),
        },
{
    if pos < bytes.len() && bytes[pos] == STAR {
        Ok((Repeater::Infinite, pos + 1))
    } else if pos < bytes.len() && bytes[pos] == OPEN_COUNT {
        match read_count(bytes, pos) {
            Ok((count, after)) => Ok((Repeater::Finite(count), after)),
            Err(fault) => Err(fault),
        }
    } else {
        Ok((Repeater::Finite(1), pos))
    }
}

/// Reads the element at `pos`.
fn read_item(bytes: &[u8], pos: usize) -> (outcome: Result<(Pattern, usize), PatternError>)
    requires
        pos < bytes.len(),
    ensures
        reads(outcome, parse_item(bytes@, pos as int)),
        outcome matches Ok((_, after)) ==> pos < after <= bytes.len(),
    decreases bytes.len() - pos, 0nat,
{
    let first: u8 = bytes[pos];
    if DIGIT_ZERO <= first && first <= DIGIT_NINE {
        match read_repeater(bytes, pos + 1) {
            Ok((repeater, after)) => Ok(
                (Pattern { data: PatternData::Single((first - DIGIT_ZERO) as usize), repeater }, after),
            ),
            Err(fault) => Err(fault),
        }
    } else if first == OPEN_GROUP {
        match read_items(bytes, pos + 1) {
            Ok((children, stop)) => {
                if stop < bytes.len() && bytes[stop] == CLOSE_GROUP {
                    let ghost read = patterns_view(children@);
                    let data = PatternData::Group(children);
                    proof {
                        assert(data@->Group_0 =~= read);
                    }
                    match read_repeater(bytes, stop + 1) {
                        Ok((repeater, after)) => Ok((Pattern { data, repeater }, after)),
                        Err(fault) => Err(fault),
                    }
                } else {
                    Err(PatternError::UnclosedGroup { at: pos })
                }
            },
            Err(fault) => Err(fault),
        }
    } else {
        Err(PatternError::UnexpectedByte { at: pos })
    }
}

/// Reads the elements from `pos` up to the end of the text or to a closing
/// parenthesis.
fn read_items(bytes: &[u8], pos: usize) -> (outcome: Result<(Vec<Pattern>, usize), PatternError>)
    requires
        pos <= bytes.len(),
    ensures
        match parse_items(bytes@, pos as int) {
            Ok((items, stop)) => outcome matches Ok((read, next)) && patterns_view(read@) == items
                && next == stop,
            Err(fault) => outcome == Err::<(Vec<Pattern>, usize), PatternError>(fault),
        },
        outcome matches Ok((_, stop)) ==> pos <= stop <= bytes.len(),
    decreases bytes.len() - pos, 1nat,
{
    let mut items: Vec<Pattern> = Vec::new();
    let mut at: usize = pos;
    while at < bytes.len() && bytes[at] != CLOSE_GROUP
        invariant
            pos <= at <= bytes.len(),
            parse_items(bytes@, pos as int) == prepend(
                patterns_view(items@),
                parse_items(bytes@, at as int),
            ),
        decreases bytes.len() - at,
    {
        match read_item(bytes, at) {
            Ok((item, after)) => {
                proof {
                    let rest = parse_items(bytes@, after as int);
                    assert(patterns_view(items@.push(item)) =~= patterns_view(items@) + seq![item@]);
                    if let Ok((more, stop)) = rest {
                        assert((patterns_view(items@) + seq![item@]) + more =~= patterns_view(
                            items@,
                        ) + (seq![item@] + more));
                    }
                }
                items.push(item);
                at = after;
            },
            Err(fault) => {
                return Err(fault);
            },
        }
    }
    proof {
        assert(patterns_view(items@) + Seq::<PatternModel>::empty() =~= patterns_view(items@));
    }
    Ok((items, at))
}

impl Pattern {
    /// Reads the one element that starts at `pos`, with its repeater, and
    /// says where it ends.
    pub fn element_at(bytes: &[u8], pos: usize) -> (outcome: Result<(Pattern, usize), PatternError>)
        ensures
            reads(outcome, parse_item(bytes@, pos as int)),
            outcome matches Ok((_, after)) ==> pos < after <= bytes.len(),
    {
        if pos < bytes.len() {
            read_item(bytes, pos)
        } else {
            Err(PatternError::UnexpectedByte { at: pos })
        }
    }

    /// Reads the elements from `pos` up to the end of the text or to a
    /// closing parenthesis, as one group that runs once, and says where
    /// they end.
    pub fn sequence_at(bytes: &[u8], pos: usize) -> (outcome: Result<(Pattern, usize), PatternError>)
        ensures
            reads(outcome, parse_sequence(bytes@, pos as int)),
    {
        if pos > bytes.len() {
            let data = PatternData::Group(Vec::new());
            proof {
                assert(data@->Group_0 =~= Seq::<PatternModel>::empty());
            }
            return Ok((Pattern { data, repeater: Repeater::Finite(1) }, pos));
        }
        match read_items(bytes, pos) {
            Ok((items, stop)) => {
                let ghost read = patterns_view(items@);
                let data = PatternData::Group(items);
                proof {
                    assert(data@->Group_0 =~= read);
                }
                Ok((Pattern { data, repeater: Repeater::Finite(1) }, stop))
            },
            Err(fault) => Err(fault),
        }
    }

    /// Reads a pattern from its text, given as bytes.
    pub fn from_bytes(bytes: &[u8]) -> (outcome: Result<Pattern, PatternError>)
        ensures
            match parse_pattern(bytes@) {
                Ok(pattern) => outcome matches Ok(read) && read@ == pattern,
                Err(fault) => outcome == Err::<Pattern, PatternError>(fault),
            },
    {
        match Pattern::sequence_at(bytes, 0) {
            Ok((pattern, stop)) => {
                if stop < bytes.len() {
                    Err(PatternError::UnexpectedByte { at: stop })
                } else {
                    Ok(pattern)
                }
            },
            Err(fault) => Err(fault),
        }
    }

    /// Reads a pattern from its text: digits name streams, parentheses
    /// group, and a star or a count in braces after an element repeats it.
    pub fn from(pattern: &str) -> (outcome: Result<Pattern, PatternError>)
        ensures
            match parse_pattern(pattern.spec_bytes()) {
                Ok(parsed) => outcome matches Ok(read) && read@ == parsed,
                Err(fault) => outcome == Err::<Pattern, PatternError>(fault),
            },
    {
        Pattern::from_bytes(pattern.as_bytes())
    }
}

impl ParserCombinator for Pattern {
    /// One element, with its repeater, at the start of the text.
    open spec fn grammar(text: Seq<u8>) -> Parsed<PatternModel> {
        parse_item(text, 0)
    }

    fn parse(input: &str) -> (outcome: Result<(Pattern, usize), PatternError>) {
        Pattern::element_at(input.as_bytes(), 0)
    }
}

} // verus!
