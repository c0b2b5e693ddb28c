use imex::{Pattern, PatternData, PatternError, Repeater};

#[test]
fn empty_string_gives_empty_group_pattern() {
    let p = Pattern::from("").unwrap();

    assert_eq!(
        p,
        Pattern {
            data: PatternData::Group(vec![]),
            repeater: Repeater::Finite(1),
        }
    );
}

#[test]
fn repeats_gives_repeating_patterns() {
    let p = Pattern::from("13{3}9*1").unwrap();

    assert_eq!(
        p,
        Pattern {
            data: PatternData::Group(vec![
                Pattern {
                    data: PatternData::Single(1),
                    repeater: Repeater::Finite(1),
                },
                Pattern {
                    data: PatternData::Single(3),
                    repeater: Repeater::Finite(3),
                },
                Pattern {
                    data: PatternData::Single(9),
                    repeater: Repeater::Infinite,
                },
                Pattern {
                    data: PatternData::Single(1),
                    repeater: Repeater::Finite(1),
                },
            ]),
            repeater: Repeater::Finite(1),
        }
    );
}

#[test]
fn parens_gives_group_patterns() {
    let p = Pattern::from("1(1)(9)*(4){4}(1(1))()").unwrap();

    assert_eq!(
        p,
        Pattern {
            data: PatternData::Group(vec![
                Pattern {
                    data: PatternData::Single(1),
                    repeater: Repeater::Finite(1),
                },
                Pattern {
                    data: PatternData::Group(vec![Pattern {
                        data: PatternData::Single(1),
                        repeater: Repeater::Finite(1),
                    }]),
                    repeater: Repeater::Finite(1),
                },
                Pattern {
                    data: PatternData::Group(vec![Pattern {
                        data: PatternData::Single(9),
                        repeater: Repeater::Finite(1),
                    }]),
                    repeater: Repeater::Infinite,
                },
                Pattern {
                    data: PatternData::Group(vec![Pattern {
                        data: PatternData::Single(4),
                        repeater: Repeater::Finite(1),
                    }]),
                    repeater: Repeater::Finite(4),
                },
                Pattern {
                    data: PatternData::Group(vec![
                        Pattern {
                            data: PatternData::Single(1),
                            repeater: Repeater::Finite(1),
                        },
                        Pattern {
                            data: PatternData::Group(vec![Pattern {
                                data: PatternData::Single(1),
                                repeater: Repeater::Finite(1),
                            }]),
                            repeater: Repeater::Finite(1),
                        }
                    ]),
                    repeater: Repeater::Finite(1),
                },
                Pattern {
                    data: PatternData::Group(vec![]),
                    repeater: Repeater::Finite(1),
                }
            ]),
            repeater: Repeater::Finite(1),
        }
    );
}

#[test]
fn bad_chars_fails() {
    Pattern::from("0O0").unwrap_err();

    Pattern::from("^[0]+$").unwrap_err();

    Pattern::from("123*4{5}(x)*").unwrap_err();
}

#[test]
fn too_many_closed_parens_fails() {
    Pattern::from("0(1)2)3(4)5").unwrap_err();

    Pattern::from("0{1}2}3{4}5").unwrap_err();

    Pattern::from("0(1)2(3))").unwrap_err();
}

#[test]
fn too_many_open_parens_fails() {
    Pattern::from("0(1)2(3(4)5").unwrap_err();

    Pattern::from("0{1}2{3{4}5").unwrap_err();

    Pattern::from("((0)1(2)3").unwrap_err();
}

#[test]
fn mismatched_parens_fails() {
    Pattern::from(")(").unwrap_err();

    Pattern::from("(3{)}").unwrap_err();
}

#[test]
fn bad_repeat_targets_fails() {
    Pattern::from("(*4)").unwrap_err();

    Pattern::from("({6}6)").unwrap_err();

    Pattern::from("*2").unwrap_err();

    Pattern::from("{4}4").unwrap_err();

    Pattern::from("5{5}*").unwrap_err();

    Pattern::from("5*{5}").unwrap_err();

    Pattern::from("5{*5}").unwrap_err();
}

#[test]
fn bad_repeat_brace_contents_fails() {
    Pattern::from("5{5*}").unwrap_err();

    Pattern::from("6{(6)}").unwrap_err();

    Pattern::from("7{7{7}}").unwrap_err();
}

#[test]
fn unexpected_byte_is_reported_where_it_stands() {
    assert_eq!(Pattern::from("0O0"), Err(PatternError::UnexpectedByte { at: 1 }));
    assert_eq!(Pattern::from("*2"), Err(PatternError::UnexpectedByte { at: 0 }));
    assert_eq!(Pattern::from("5{5}*"), Err(PatternError::UnexpectedByte { at: 4 }));
    assert_eq!(Pattern::from("(*4)"), Err(PatternError::UnexpectedByte { at: 1 }));
    assert_eq!(Pattern::from("0\u{e9}"), Err(PatternError::UnexpectedByte { at: 1 }));
}

#[test]
fn stray_closing_parenthesis_is_an_unexpected_byte() {
    assert_eq!(Pattern::from(")("), Err(PatternError::UnexpectedByte { at: 0 }));
    assert_eq!(Pattern::from("0(1)2)3(4)5"), Err(PatternError::UnexpectedByte { at: 5 }));
    assert_eq!(Pattern::from("0(1)2(3))"), Err(PatternError::UnexpectedByte { at: 8 }));
}

#[test]
fn unclosed_group_is_reported_at_its_opening() {
    assert_eq!(Pattern::from("0(1)2(3(4)5"), Err(PatternError::UnclosedGroup { at: 5 }));
    assert_eq!(Pattern::from("((0)1(2)3"), Err(PatternError::UnclosedGroup { at: 0 }));
    assert_eq!(Pattern::from("("), Err(PatternError::UnclosedGroup { at: 0 }));
}

#[test]
fn malformed_count_is_reported_at_its_brace() {
    assert_eq!(Pattern::from("5{5*}"), Err(PatternError::MalformedCount { at: 1 }));
    assert_eq!(Pattern::from("5{}"), Err(PatternError::MalformedCount { at: 1 }));
    assert_eq!(Pattern::from("5{12"), Err(PatternError::MalformedCount { at: 1 }));
    assert_eq!(Pattern::from("7{7{7}}"), Err(PatternError::MalformedCount { at: 1 }));
    assert_eq!(Pattern::from("(3{)}"), Err(PatternError::MalformedCount { at: 2 }));
}

#[test]
fn count_must_be_positive() {
    assert_eq!(Pattern::from("5{0}"), Err(PatternError::MalformedCount { at: 1 }));
    assert_eq!(Pattern::from("5{000}"), Err(PatternError::MalformedCount { at: 1 }));
}

#[test]
fn count_must_fit_the_machine_word() {
    assert_eq!(
        Pattern::from("5{340282366920938463463374607431768211456}"),
        Err(PatternError::MalformedCount { at: 1 })
    );
    let largest = format!("5{{{}}}", usize::MAX);
    assert_eq!(
        Pattern::from(&largest),
        Ok(Pattern {
            data: PatternData::Group(vec![Pattern {
                data: PatternData::Single(5),
                repeater: Repeater::Finite(usize::MAX),
            }]),
            repeater: Repeater::Finite(1),
        })
    );
}

#[test]
fn count_may_have_many_digits_and_leading_zeros() {
    assert_eq!(
        Pattern::from("2{0120}"),
        Ok(Pattern {
            data: PatternData::Group(vec![Pattern {
                data: PatternData::Single(2),
                repeater: Repeater::Finite(120),
            }]),
            repeater: Repeater::Finite(1),
        })
    );
}

#[test]
fn explicit_single_count_reads_as_no_count() {
    assert_eq!(Pattern::from("(01){1}2{1}"), Pattern::from("(01)2"));
}

#[test]
fn from_bytes_reads_what_from_reads() {
    assert_eq!(Pattern::from_bytes(b"0(12){3}"), Pattern::from("0(12){3}"));
    assert_eq!(
        Pattern::from_bytes(&[48, 255]),
        Err(PatternError::UnexpectedByte { at: 1 })
    );
}

#[test]
fn element_at_reads_one_element_and_says_where_it_ends() {
    assert_eq!(
        Pattern::element_at(b"3{12}4", 0),
        Ok((
            Pattern {
                data: PatternData::Single(3),
                repeater: Repeater::Finite(12),
            },
            5
        ))
    );
    assert_eq!(
        Pattern::element_at(b"3{12}4", 5),
        Ok((
            Pattern {
                data: PatternData::Single(4),
                repeater: Repeater::Finite(1),
            },
            6
        ))
    );
    assert_eq!(
        Pattern::element_at(b"3{12}4", 6),
        Err(PatternError::UnexpectedByte { at: 6 })
    );
    assert_eq!(
        Pattern::element_at(b"x(0)*y", 1),
        Ok((
            Pattern {
                data: PatternData::Group(vec![Pattern {
                    data: PatternData::Single(0),
                    repeater: Repeater::Finite(1),
                }]),
                repeater: Repeater::Infinite,
            },
            5
        ))
    );
}
