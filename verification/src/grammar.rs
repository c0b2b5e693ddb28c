use crate::error::PatternError;
use crate::repeater::Repeater;
use vstd::prelude::*;

verus! {

/// The mathematical value of a pattern element's content.
pub enum DataModel {
    Single(usize),
    Group(Seq<PatternModel>),
}

/// The mathematical value of a pattern element: its content and how often
/// it repeats.
pub struct PatternModel {
    pub data: DataModel,
    pub repeater: Repeater,
}

impl DataModel {
    /// The element with this content and `repeater`.
    pub open spec fn with(self, repeater: Repeater) -> PatternModel {
        PatternModel { data: self, repeater }
    }
}

pub const OPEN_GROUP: u8 = 40;

pub const CLOSE_GROUP: u8 = 41;

pub const STAR: u8 = 42;

pub const DIGIT_ZERO: u8 = 48;

pub const DIGIT_NINE: u8 = 57;

pub const OPEN_COUNT: u8 = 123;

pub const CLOSE_COUNT: u8 = 125;

/// Whether `byte` is an ASCII decimal digit.
pub open spec fn is_digit(byte: u8) -> bool {
    DIGIT_ZERO <= byte <= DIGIT_NINE
}

/// The first position from `pos` on that does not hold a digit.
pub open spec fn digits_end(text: Seq<u8>, pos: int) -> int
    decreases text.len() - pos,
{
    if 0 <= pos < text.len() && is_digit(text[pos]) {
        digits_end(text, pos + 1)
    } else {
        pos
    }
}

/// The number that the digits `text` write in base ten.
pub open spec fn decimal(text: Seq<u8>) -> nat
    decreases text.len(),
{
    if text.len() == 0 {
        0
    } else {
        (decimal(text.drop_last()) * 10 + (text.last() - DIGIT_ZERO)) as nat
    }
}

/// What a parser reports: the value read and the position after it, or the
/// fault.
pub type Parsed<V> = Result<(V, int), PatternError>;

/// A count in braces, the opening brace at `open`.
pub open spec fn parse_count(text: Seq<u8>, open: int) -> Parsed<usize> {
    let end = digits_end(text, open + 1);
    let count = decimal(text.subrange(open + 1, end));
    if open + 1 < end < text.len() && text[end] == CLOSE_COUNT && 1 <= count <= usize::MAX {
        Ok((count as usize, end + 1))
    } else {
        Err(PatternError::MalformedCount { at: open as usize })
    }
}

/// The repeater written at `pos`: a star, a count in braces, or nothing,
/// which stands for one cycle.
pub open spec fn parse_repeater(text: Seq<u8>, pos: int) -> Parsed<Repeater> {
    if 0 <= pos < text.len() && text[pos] == STAR {
        Ok((Repeater::Infinite, pos + 1))
    } else if 0 <= pos < text.len() && text[pos] == OPEN_COUNT {
        match parse_count(text, pos) {
            Ok((count, after)) => Ok((Repeater::Finite(count), after)),
            Err(fault) => Err(fault),
        }
    } else {
        Ok((Repeater::Finite(1), pos))
    }
}

/// The element written at `pos`: a digit or a group in parentheses, then
/// its repeater.
pub open spec fn parse_item(text: Seq<u8>, pos: int) -> Parsed<PatternModel>
    decreases text.len() - pos, 0nat,
{
    if !(0 <= pos < text.len()) {
        Err(PatternError::UnexpectedByte { at: pos as usize })
    } else if is_digit(text[pos]) {
        match parse_repeater(text, pos + 1) {
            Ok((repeater, after)) => Ok(
                (
                    PatternModel {
                        data: DataModel::Single((text[pos] - DIGIT_ZERO) as usize),
                        repeater,
                    },
                    after,
                ),
            ),
            Err(fault) => Err(fault),
        }
    } else if text[pos] == OPEN_GROUP {
        match parse_items(text, pos + 1) {
            Ok((children, stop)) => {
                if 0 <= stop < text.len() && text[stop] == CLOSE_GROUP {
                    match parse_repeater(text, stop + 1) {
                        Ok((repeater, after)) => Ok(
                            (PatternModel { data: DataModel::Group(children), repeater }, after),
                        ),
                        Err(fault) => Err(fault),
                    }
                } else {
                    Err(PatternError::UnclosedGroup { at: pos as usize })
                }
            },
            Err(fault) => Err(fault),
        }
    } else {
        Err(PatternError::UnexpectedByte { at: pos as usize })
    }
}

/// The elements written from `pos` on, up to the end of the text or to a
/// closing parenthesis, whichever comes first.
pub open spec fn parse_items(text: Seq<u8>, pos: int) -> Parsed<Seq<PatternModel>>
    decreases text.len() - pos, 1nat,
{
    if !(0 <= pos < text.len()) || text[pos] == CLOSE_GROUP {
        Ok((Seq::empty(), pos))
    } else {
        match parse_item(text, pos) {
            Ok((first, after)) => {
                if pos < after <= text.len() {
                    prepend(seq![first], parse_items(text, after))
                } else {
                    Err(PatternError::UnexpectedByte { at: pos as usize })
                }
            },
            Err(fault) => Err(fault),
        }
    }
}

/// `rest`, with `front` put before the elements it read.
pub open spec fn prepend(front: Seq<PatternModel>, rest: Parsed<Seq<PatternModel>>) -> Parsed<
    Seq<PatternModel>,
> {
    match rest {
        Ok((items, stop)) => Ok((front + items, stop)),
        Err(fault) => Err(fault),
    }
}

/// The elements written from `pos` on, up to the end of the text or to a
/// closing parenthesis, as one group that runs once.
pub open spec fn parse_sequence(text: Seq<u8>, pos: int) -> Parsed<PatternModel> {
    match parse_items(text, pos) {
        Ok((items, stop)) => Ok((DataModel::Group(items).with(Repeater::Finite(1)), stop)),
        Err(fault) => Err(fault),
    }
}

/// The pattern that `text` writes: a sequence of elements that takes up the
/// whole text, as one group that runs once.
pub open spec fn parse_pattern(text: Seq<u8>) -> Result<PatternModel, PatternError> {
    match parse_sequence(text, 0) {
        Ok((pattern, stop)) => {
            if stop < text.len() {
                Err(PatternError::UnexpectedByte { at: stop as usize })
            } else {
                Ok(pattern)
            }
        },
        Err(fault) => Err(fault),
    }
}

/// A parser's result with `change` applied to the value read.
pub open spec fn map_parsed<A, B>(parsed: Parsed<A>, change: spec_fn(A) -> B) -> Parsed<B> {
    match parsed {
        Ok((value, after)) => Ok((change(value), after)),
        Err(fault) => Err(fault),
    }
}

/// Whether what a parser returned is what the grammar says of the text.
pub open spec fn reads<X: View>(
    outcome: Result<(X, usize), PatternError>,
    parsed: Parsed<X::V>,
) -> bool {
    match parsed {
        Ok((value, after)) => outcome matches Ok((read, next)) && read@ == value && next == after,
        Err(fault) => outcome == Err::<(X, usize), PatternError>(fault),
    }
}

} // verus!
