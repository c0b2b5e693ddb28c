use crate::error::PatternError;
use crate::grammar::{
    decimal, digits_end, is_digit, parse_count, parse_item, parse_items, parse_pattern,
    parse_repeater, DataModel, PatternModel, CLOSE_COUNT, CLOSE_GROUP, DIGIT_ZERO, OPEN_COUNT,
    OPEN_GROUP, STAR,
};
use crate::repeater::Repeater;
use vstd::prelude::*;

verus! {

/// Whether `pattern` can be written down: stream indices are single digits
/// and counts are positive.
pub open spec fn writable(pattern: PatternModel) -> bool
    decreases pattern,
{
    &&& pattern.repeater matches Repeater::Finite(count) ==> count >= 1
    &&& match pattern.data {
        DataModel::Single(index) => index <= 9,
        DataModel::Group(elements) => forall|i: int|
            0 <= i < elements.len() ==> writable(#[trigger] elements[i]),
    }
}

/// The digits of `number` in base ten, without leading zeros.
pub open spec fn write_number(number: nat) -> Seq<u8>
    decreases number,
{
    if number < 10 {
        seq![(DIGIT_ZERO + number) as u8]
    } else {
        write_number(number / 10).push((DIGIT_ZERO + number % 10) as u8)
    }
}

/// The text of `repeater`: nothing for a single cycle, a count in braces
/// for more, a star for no bound.
pub open spec fn write_repeater(repeater: Repeater) -> Seq<u8> {
    match repeater {
        Repeater::Finite(count) => if count == 1 {
            Seq::empty()
        } else {
            seq![OPEN_COUNT] + write_number(count as nat) + seq![CLOSE_COUNT]
        },
        Repeater::Infinite => seq![STAR],
    }
}

/// The text of the element `pattern`.
pub open spec fn write_item(pattern: PatternModel) -> Seq<u8>
    decreases pattern, 0nat,
{
    (match pattern.data {
        DataModel::Single(index) => seq![(DIGIT_ZERO + index) as u8],
        DataModel::Group(elements) => seq![OPEN_GROUP] + write_from(elements, 0) + seq![
            CLOSE_GROUP,
        ],
    }) + write_repeater(pattern.repeater)
}

/// The texts of the elements from `from` on, one after the other.
pub open spec fn write_from(elements: Seq<PatternModel>, from: nat) -> Seq<u8>
    decreases elements, elements.len() - from,
{
    if from >= elements.len() {
        Seq::empty()
    } else {
        write_item(elements[from as int]) + write_from(elements, from + 1)
    }
}

/// Whether `part` stands in `text` at `pos`.
pub open spec fn stands_at(text: Seq<u8>, pos: int, part: Seq<u8>) -> bool {
    &&& 0 <= pos
    &&& pos + part.len() <= text.len()
    &&& text.subrange(pos, pos + part.len()) == part
}

/// Where two parts stand one after the other as a whole, each stands in its
/// place.
proof fn lemma_stands_apart(text: Seq<u8>, pos: int, first: Seq<u8>, second: Seq<u8>)
    requires
        stands_at(text, pos, first + second),
    ensures
        stands_at(text, pos, first),
        stands_at(text, pos + first.len(), second),
{
    let whole = first + second;
    assert(text.subrange(pos, pos + first.len()) =~= whole.subrange(0, first.len() as int));
    assert(whole.subrange(0, first.len() as int) =~= first);
    assert(text.subrange(pos + first.len(), pos + first.len() + second.len())
        =~= whole.subrange(first.len() as int, whole.len() as int));
    assert(whole.subrange(first.len() as int, whole.len() as int) =~= second);
}

/// The byte at `pos + i` of a text in which `part` stands at `pos`.
proof fn lemma_stands_byte(text: Seq<u8>, pos: int, part: Seq<u8>, i: int)
    requires
        stands_at(text, pos, part),
        0 <= i < part.len(),
    ensures
        text[pos + i] == part[i],
{
    assert(text.subrange(pos, pos + part.len())[i] == text[pos + i]);
}

/// A written number is made of digits, and reads back as the number.
proof fn lemma_write_number(number: nat)
    ensures
        write_number(number).len() >= 1,
        forall|i: int| 0 <= i < write_number(number).len() ==> is_digit(#[trigger] write_number(number)[i]),
        decimal(write_number(number)) == number,
    decreases number,
{
    if number < 10 {
        let digits = write_number(number);
        assert(digits.drop_last() =~= Seq::<u8>::empty());
        assert(decimal(digits.drop_last()) == 0);
    } else {
        lemma_write_number(number / 10);
        let digits = write_number(number);
        assert(digits.drop_last() =~= write_number(number / 10));
    }
}

/// Digits that stand at `pos` and are followed by no digit end where they
/// end.
proof fn lemma_digits_stand(text: Seq<u8>, pos: int, digits: Seq<u8>)
    requires
        stands_at(text, pos, digits),
        forall|i: int| 0 <= i < digits.len() ==> is_digit(#[trigger] digits[i]),
        pos + digits.len() == text.len() || !is_digit(text[pos + digits.len()]),
    ensures
        digits_end(text, pos) == pos + digits.len(),
    decreases digits.len(),
{
    if digits.len() > 0 {
        lemma_stands_byte(text, pos, digits, 0);
        assert(digits.subrange(0, 1) + digits.subrange(1, digits.len() as int) =~= digits);
        lemma_stands_apart(
            text,
            pos,
            digits.subrange(0, 1),
            digits.subrange(1, digits.len() as int),
        );
        lemma_digits_stand(text, pos + 1, digits.subrange(1, digits.len() as int));
    }
}

/// A written repeater reads back as the repeater, where what follows it
/// cannot be taken for a repeater.
proof fn lemma_read_written_repeater(text: Seq<u8>, pos: int, repeater: Repeater)
    requires
        stands_at(text, pos, write_repeater(repeater)),
        repeater matches Repeater::Finite(count) ==> count >= 1,
        ({
            let after = pos + write_repeater(repeater).len();
            after == text.len() || (text[after] != STAR && text[after] != OPEN_COUNT)
        }),
    ensures
        parse_repeater(text, pos) == Ok::<(Repeater, int), PatternError>(
            (repeater, pos + write_repeater(repeater).len()),
        ),
{
    let written = write_repeater(repeater);
    match repeater {
        Repeater::Infinite => {
            lemma_stands_byte(text, pos, written, 0);
        },
        Repeater::Finite(count) => {
            if count != 1 {
                let digits = write_number(count as nat);
                lemma_write_number(count as nat);
                lemma_stands_byte(text, pos, written, 0);
                lemma_stands_byte(text, pos, written, written.len() - 1);
                assert(written =~= seq![OPEN_COUNT] + (digits + seq![CLOSE_COUNT]));
                lemma_stands_apart(text, pos, seq![OPEN_COUNT], digits + seq![CLOSE_COUNT]);
                lemma_stands_apart(text, pos + 1, digits, seq![CLOSE_COUNT]);
                lemma_digits_stand(text, pos + 1, digits);
                assert(parse_count(text, pos) == Ok::<(usize, int), PatternError>(
                    (count, pos + written.len()),
                ));
            }
        },
    }
}

/// A written element starts with a digit or an opening parenthesis.
proof fn lemma_written_item_starts(pattern: PatternModel)
    requires
        writable(pattern),
    ensures
        write_item(pattern).len() >= 1,
        is_digit(write_item(pattern)[0]) || write_item(pattern)[0] == OPEN_GROUP,
{
}

/// A written element reads back as the element, where what follows it
/// cannot be taken for a repeater.
proof fn lemma_read_written_item(text: Seq<u8>, pos: int, pattern: PatternModel)
    requires
        writable(pattern),
        stands_at(text, pos, write_item(pattern)),
        ({
            let after = pos + write_item(pattern).len();
            after == text.len() || (text[after] != STAR && text[after] != OPEN_COUNT)
        }),
    ensures
        parse_item(text, pos) == Ok::<(PatternModel, int), PatternError>(
            (pattern, pos + write_item(pattern).len()),
        ),
    decreases pattern, 0nat,
{
    let written = write_item(pattern);
    let tail = write_repeater(pattern.repeater);
    lemma_written_item_starts(pattern);
    lemma_stands_byte(text, pos, written, 0);
    match pattern.data {
        DataModel::Single(index) => {
            lemma_stands_apart(text, pos, seq![(DIGIT_ZERO + index) as u8], tail);
            lemma_read_written_repeater(text, pos + 1, pattern.repeater);
        },
        DataModel::Group(elements) => {
            let inner = write_from(elements, 0);
            assert(written =~= seq![OPEN_GROUP] + (inner + (seq![CLOSE_GROUP] + tail)));
            lemma_stands_apart(text, pos, seq![OPEN_GROUP], inner + (seq![CLOSE_GROUP] + tail));
            lemma_stands_apart(text, pos + 1, inner, seq![CLOSE_GROUP] + tail);
            lemma_stands_apart(text, pos + 1 + inner.len(), seq![CLOSE_GROUP], tail);
            lemma_stands_byte(text, pos + 1 + inner.len(), seq![CLOSE_GROUP], 0);
            lemma_read_written_items(text, pos + 1, elements, 0);
            assert(elements.subrange(0, elements.len() as int) =~= elements);
            lemma_read_written_repeater(text, pos + 2 + inner.len(), pattern.repeater);
        },
    }
}

/// Written elements read back as the elements, where the text ends after
/// them or a closing parenthesis follows.
proof fn lemma_read_written_items(text: Seq<u8>, pos: int, elements: Seq<PatternModel>, from: nat)
    requires
        from <= elements.len(),
        forall|i: int| 0 <= i < elements.len() ==> writable(#[trigger] elements[i]),
        stands_at(text, pos, write_from(elements, from)),
        ({
            let after = pos + write_from(elements, from).len();
            after == text.len() || text[after] == CLOSE_GROUP
        }),
    ensures
        parse_items(text, pos) == Ok::<(Seq<PatternModel>, int), PatternError>(
            (elements.subrange(from as int, elements.len() as int), pos + write_from(elements, from).len()),
        ),
    decreases elements, elements.len() - from,
{
    if from >= elements.len() {
        assert(elements.subrange(from as int, elements.len() as int) =~= Seq::<PatternModel>::empty());
    } else {
        let first = elements[from as int];
        let written = write_item(first);
        let rest = write_from(elements, from + 1);
        lemma_written_item_starts(first);
        lemma_stands_apart(text, pos, written, rest);
        lemma_stands_byte(text, pos, written, 0);
        let after = pos + written.len();
        if from + 1 < elements.len() {
            lemma_written_item_starts(elements[from as int + 1]);
            lemma_stands_byte(text, after, rest, 0);
        }
        lemma_read_written_item(text, pos, first);
        lemma_read_written_items(text, after, elements, from + 1);
        assert(seq![first] + elements.subrange(from as int + 1, elements.len() as int)
            =~= elements.subrange(from as int, elements.len() as int));
    }
}

/// Writing and reading agree: the text of a sequence of writable elements
/// reads back as the pattern that runs those elements once.
pub proof fn lemma_written_pattern_reads_back(elements: Seq<PatternModel>)
    requires
        forall|i: int| 0 <= i < elements.len() ==> writable(#[trigger] elements[i]),
    ensures
        parse_pattern(write_from(elements, 0)) == Ok::<PatternModel, PatternError>(
            PatternModel { data: DataModel::Group(elements), repeater: Repeater::Finite(1) },
        ),
{
    let text = write_from(elements, 0);
    assert(text.subrange(0, text.len() as int) =~= text);
    lemma_read_written_items(text, 0, elements, 0);
    assert(elements.subrange(0, elements.len() as int) =~= elements);
}

/// Whatever element is read from a text can be written down.
proof fn lemma_read_item_is_writable(text: Seq<u8>, pos: int)
    ensures
        parse_item(text, pos) matches Ok((pattern, _)) ==> writable(pattern),
    decreases text.len() - pos, 0nat,
{
    if 0 <= pos < text.len() && text[pos] == OPEN_GROUP {
        lemma_read_items_are_writable(text, pos + 1);
    }
}

/// Whatever elements are read from a text can be written down.
proof fn lemma_read_items_are_writable(text: Seq<u8>, pos: int)
    ensures
        parse_items(text, pos) matches Ok((elements, _)) ==> forall|i: int|
            0 <= i < elements.len() ==> writable(#[trigger] elements[i]),
    decreases text.len() - pos, 1nat,
{
    if 0 <= pos < text.len() && text[pos] != CLOSE_GROUP {
        lemma_read_item_is_writable(text, pos);
        if let Ok((first, after)) = parse_item(text, pos) {
            if pos < after <= text.len() {
                lemma_read_items_are_writable(text, after);
            }
        }
    }
}

/// Reading settles on one text for each pattern: a pattern that is read
/// from any text is read again from its own written form.
pub proof fn lemma_read_pattern_has_written_form(text: Seq<u8>)
    requires
        parse_pattern(text) is Ok,
    ensures
        parse_pattern(text)->Ok_0.data matches DataModel::Group(elements) && parse_pattern(
            write_from(elements, 0),
        ) == parse_pattern(text),
{
    lemma_read_items_are_writable(text, 0);
    let elements = parse_items(text, 0)->Ok_0.0;
    lemma_written_pattern_reads_back(elements);
}

} // verus!
