use imex::{
    IMEx, IMExIterator, IMExVal, ParserCombinator, Pattern, PatternData, PatternError,
    QuantifiedIMExVal, Quantifier, Repeater,
};

#[test]
fn repeater_parses_star_count_or_nothing() {
    assert_eq!(Repeater::parse("*0"), Ok((Repeater::Infinite, 1)));
    assert_eq!(Repeater::parse("{42}0"), Ok((Repeater::Finite(42), 4)));
    assert_eq!(Repeater::parse("0{42}"), Ok((Repeater::Finite(1), 0)));
    assert_eq!(Repeater::parse(""), Ok((Repeater::Finite(1), 0)));
    assert_eq!(Repeater::parse("{4"), Err(PatternError::MalformedCount { at: 0 }));
}

#[test]
fn pattern_parses_one_element_and_leaves_the_rest() {
    assert_eq!(
        Pattern::parse("7*(1)"),
        Ok((
            Pattern {
                data: PatternData::Single(7),
                repeater: Repeater::Infinite,
            },
            2
        ))
    );
    assert_eq!(Pattern::parse(""), Err(PatternError::UnexpectedByte { at: 0 }));
    assert_eq!(Pattern::parse(")"), Err(PatternError::UnexpectedByte { at: 0 }));
    assert_eq!(Pattern::parse("(1"), Err(PatternError::UnclosedGroup { at: 0 }));
}

#[test]
fn quantified_val_parses_one_element() {
    assert_eq!(
        QuantifiedIMExVal::parse("3{2}4"),
        Ok((
            QuantifiedIMExVal::from(IMExVal::stream_ref(3), Quantifier::Bounded(2)),
            4
        ))
    );
    assert_eq!(
        QuantifiedIMExVal::parse("x"),
        Err(PatternError::UnexpectedByte { at: 0 })
    );
}

#[test]
fn imex_parses_up_to_a_closing_parenthesis() {
    let (mut imex, stop) = IMEx::parse("01)2").unwrap();
    assert_eq!(stop, 2);

    let mut streams = vec!["a".chars(), "b".chars()];
    assert_eq!(imex.iterate(&mut streams), Ok(Some('a')));
    assert_eq!(imex.iterate(&mut streams), Ok(Some('b')));
    assert_eq!(imex.iterate(&mut streams), Ok(None));

    assert_eq!(IMEx::parse("0(1)*"), Ok((IMEx::try_from("0(1)*").unwrap(), 5)));
    assert_eq!(IMEx::parse("0x"), Err(PatternError::UnexpectedByte { at: 1 }));
}

#[test]
fn sequence_at_reads_the_inside_of_a_group() {
    assert_eq!(
        Pattern::sequence_at(b"(12)3", 1),
        Ok((
            Pattern {
                data: PatternData::Group(vec![
                    Pattern {
                        data: PatternData::Single(1),
                        repeater: Repeater::Finite(1),
                    },
                    Pattern {
                        data: PatternData::Single(2),
                        repeater: Repeater::Finite(1),
                    },
                ]),
                repeater: Repeater::Finite(1),
            },
            3
        ))
    );
    assert_eq!(
        Pattern::sequence_at(b"12", 7),
        Ok((
            Pattern {
                data: PatternData::Group(vec![]),
                repeater: Repeater::Finite(1),
            },
            7
        ))
    );
}
