use imex::{IMEx, IMExError, IMExIterator, IMExVal, Pattern, QuantifiedIMExVal, Quantifier, Repeater};
use std::str::Lines;

fn drain<'a>(imex: &mut IMEx, streams: &mut Vec<Lines<'a>>) -> Result<Vec<&'a str>, IMExError> {
    let mut merged = Vec::new();
    while let Some(item) = imex.iterate(streams)? {
        merged.push(item);
    }
    Ok(merged)
}

#[test]
fn stream_then_group_of_three_cycles() {
    let mut imex = IMEx::try_from("0(12){3}").unwrap();
    let mut streams = vec![
        "0\n0\n0\n0\n0".lines(),
        "1\n1\n1\n1\n1".lines(),
        "2\n2\n2\n2\n2\n2".lines(),
    ];

    assert_eq!(drain(&mut imex, &mut streams), Ok(vec!["0", "1", "2", "1", "2", "1", "2"]));
    assert_eq!(imex.iterate(&mut streams), Ok(None));
    assert_eq!(streams[0].next(), Some("0"));
    assert_eq!(streams[1].next(), Some("1"));
    assert_eq!(streams[2].next(), Some("2"));
}

#[test]
fn bounded_pattern_leaves_streams_unfinished() {
    let mut imex = IMEx::try_from("01(10){3}").unwrap();
    let mut streams = vec!["0\n0\n0\n0\n0".lines(), "1\n1\n1\n1\n1".lines()];

    assert_eq!(
        drain(&mut imex, &mut streams),
        Ok(vec!["0", "1", "1", "0", "1", "0", "1", "0"])
    );
}

#[test]
fn bounded_elements_repeat_their_count() {
    let mut imex = IMEx::try_from("0{3}1(01){5}").unwrap();
    let mut streams = vec!["0\n0\n0\n0\n0\n0\n0\n0".lines(), "1\n1\n1\n1\n1\n1".lines()];

    assert_eq!(
        drain(&mut imex, &mut streams),
        Ok(vec!["0", "0", "0", "1", "0", "1", "0", "1", "0", "1", "0", "1", "0", "1"])
    );
}

#[test]
fn unbounded_elements_stop_when_a_cycle_is_empty() {
    let mut imex = IMEx::try_from("0*(12)*").unwrap();
    let mut streams = vec![
        "0\n0\n0".lines(),
        "1\n1\n1".lines(),
        "2\n2\n2\n2\n2".lines(),
    ];

    assert_eq!(
        drain(&mut imex, &mut streams),
        Ok(vec!["0", "0", "0", "1", "2", "1", "2", "1", "2", "2", "2"])
    );
}

#[test]
fn references_within_range_merge_without_error() {
    let mut imex = IMEx::try_from("0120").unwrap();
    let mut streams = vec![
        "0\n0\n0".lines(),
        "1\n1\n1".lines(),
        "2\n2\n2\n2\n2".lines(),
    ];

    assert_eq!(drain(&mut imex, &mut streams), Ok(vec!["0", "1", "2", "0"]));
}

#[test]
fn out_of_range_reference_is_an_error_not_exhaustion() {
    let mut imex = IMEx::try_from("5").unwrap();
    let mut streams = vec!["0\n0".lines(), "1\n1".lines()];

    assert_eq!(imex.iterate(&mut streams), Err(IMExError::StreamOutOfRange { index: 5 }));
    assert_eq!(imex.iterate(&mut streams), Err(IMExError::StreamOutOfRange { index: 5 }));
    assert_eq!(streams[0].next(), Some("0"));
    assert_eq!(streams[1].next(), Some("1"));
}

#[test]
fn out_of_range_reference_fails_when_it_is_reached() {
    let mut imex = IMEx::try_from("012").unwrap();
    let mut streams = vec!["a".lines(), "b".lines()];

    assert_eq!(imex.iterate(&mut streams), Ok(Some("a")));
    assert_eq!(imex.iterate(&mut streams), Ok(Some("b")));
    assert_eq!(imex.iterate(&mut streams), Err(IMExError::StreamOutOfRange { index: 2 }));
}

#[test]
fn empty_pattern_gives_empty_merge_of_any_streams() {
    let mut imex = IMEx::try_from("").unwrap();
    let mut streams = vec!["0\n0\n0".lines(), "1\n1\n1".lines()];

    assert_eq!(drain(&mut imex, &mut streams), Ok(Vec::<&str>::new()));
    assert_eq!(streams[0].next(), Some("0"));
}

#[test]
fn empty_streams_merge_to_nothing() {
    let mut imex = IMEx::try_from("0120").unwrap();
    let mut streams = vec!["".lines(), "".lines(), "".lines()];

    assert_eq!(drain(&mut imex, &mut streams), Ok(Vec::<&str>::new()));
}

#[test]
fn empty_stream_list_passes_only_for_the_empty_pattern() {
    let mut streams: Vec<Lines> = vec![];

    let mut imex = IMEx::try_from("0120").unwrap();
    assert_eq!(imex.iterate(&mut streams), Err(IMExError::StreamOutOfRange { index: 0 }));

    let mut imex = IMEx::try_from("").unwrap();
    assert_eq!(drain(&mut imex, &mut streams), Ok(Vec::<&str>::new()));
}

#[test]
fn bounded_stream_ref_yields_at_most_its_count() {
    let mut node = QuantifiedIMExVal::from(IMExVal::stream_ref(0), Quantifier::Bounded(2));
    let mut streams = vec!["abcd".chars()];

    assert_eq!(node.iterate(&mut streams), Ok(Some('a')));
    assert_eq!(node.iterate(&mut streams), Ok(Some('b')));
    assert_eq!(node.iterate(&mut streams), Ok(None));
    assert_eq!(node.iterate(&mut streams), Ok(None));
    assert_eq!(streams[0].next(), Some('c'));
}

#[test]
fn bounded_stream_ref_stops_with_its_stream() {
    let mut node = QuantifiedIMExVal::from(IMExVal::stream_ref(0), Quantifier::Bounded(5));
    let mut streams = vec!["ab".chars()];

    assert_eq!(node.iterate(&mut streams), Ok(Some('a')));
    assert_eq!(node.iterate(&mut streams), Ok(Some('b')));
    assert_eq!(node.iterate(&mut streams), Ok(None));
    assert_eq!(node.iterate(&mut streams), Ok(None));
}

#[test]
fn unbounded_stream_ref_yields_the_whole_stream() {
    let mut node = QuantifiedIMExVal::from(IMExVal::stream_ref(1), Quantifier::Unbounded);
    let mut streams = vec!["xy".chars(), "abc".chars()];

    assert_eq!(node.iterate(&mut streams), Ok(Some('a')));
    assert_eq!(node.iterate(&mut streams), Ok(Some('b')));
    assert_eq!(node.iterate(&mut streams), Ok(Some('c')));
    assert_eq!(node.iterate(&mut streams), Ok(None));
    assert_eq!(node.iterate(&mut streams), Ok(None));
    assert_eq!(streams[0].next(), Some('x'));
}

#[test]
fn zero_budget_yields_nothing() {
    let mut node = QuantifiedIMExVal::from(IMExVal::stream_ref(0), Quantifier::Bounded(0));
    let mut streams = vec!["ab".chars()];

    assert_eq!(node.iterate(&mut streams), Ok(None));
    assert_eq!(streams[0].next(), Some('a'));
}

#[test]
fn group_pass_is_its_children_in_order() {
    let children = vec![
        QuantifiedIMExVal::from(IMExVal::stream_ref(1), Quantifier::Bounded(2)),
        QuantifiedIMExVal::from(IMExVal::stream_ref(0), Quantifier::Unbounded),
        QuantifiedIMExVal::from(IMExVal::stream_ref(1), Quantifier::Bounded(1)),
    ];
    let mut group = IMExVal::group(children);
    let mut streams = vec!["ab".chars(), "xyz".chars()];

    assert_eq!(group.iterate(&mut streams), Ok(Some('x')));
    assert_eq!(group.iterate(&mut streams), Ok(Some('y')));
    assert_eq!(group.iterate(&mut streams), Ok(Some('a')));
    assert_eq!(group.iterate(&mut streams), Ok(Some('b')));
    assert_eq!(group.iterate(&mut streams), Ok(Some('z')));
    assert_eq!(group.iterate(&mut streams), Ok(None));
    assert_eq!(group.iterate(&mut streams), Ok(None));
}

#[test]
fn stream_ref_instance_is_used_up_by_one_pull() {
    let mut val = IMExVal::stream_ref(0);
    let mut streams = vec!["ab".chars()];

    assert_eq!(val.iterate(&mut streams), Ok(Some('a')));
    assert_eq!(val, IMExVal::StreamRef { index: 0, spent: true });
    assert_eq!(val.iterate(&mut streams), Ok(None));
    assert_eq!(streams[0].next(), Some('b'));
}

#[test]
fn quantified_group_stops_after_an_empty_cycle() {
    let mut imex = IMEx::try_from("(01){9}").unwrap();
    let mut streams = vec!["a".lines(), "b\nc".lines()];

    assert_eq!(drain(&mut imex, &mut streams), Ok(vec!["a", "b", "c"]));
    assert_eq!(imex.iterate(&mut streams), Ok(None));
}

#[test]
fn exhaustion_is_final_even_when_streams_are_refilled() {
    let mut imex = IMEx::try_from("0*").unwrap();
    let mut streams = vec!["a".lines()];

    assert_eq!(drain(&mut imex, &mut streams), Ok(vec!["a"]));
    let mut refilled = vec!["b\nc".lines()];
    assert_eq!(imex.iterate(&mut refilled), Ok(None));
    assert_eq!(imex.iterate(&mut refilled), Ok(None));
    assert_eq!(refilled[0].next(), Some("b"));
}

#[test]
fn clone_of_a_fresh_expression_runs_from_the_start() {
    let mut first = IMEx::try_from("0{2}").unwrap();
    let mut second = first.clone();
    let mut streams = vec!["abcd".chars()];

    assert_eq!(first.iterate(&mut streams), Ok(Some('a')));
    assert_eq!(first.iterate(&mut streams), Ok(Some('b')));
    assert_eq!(first.iterate(&mut streams), Ok(None));
    assert_eq!(second.iterate(&mut streams), Ok(Some('c')));
    assert_eq!(second.iterate(&mut streams), Ok(Some('d')));
    assert_eq!(second.iterate(&mut streams), Ok(None));
}

#[test]
fn request_cycle_spends_a_bounded_budget() {
    let mut budget = Quantifier::Bounded(2);

    assert!(budget.request_cycle());
    assert_eq!(budget, Quantifier::Bounded(1));
    assert!(budget.request_cycle());
    assert_eq!(budget, Quantifier::Bounded(0));
    assert!(!budget.request_cycle());
    assert_eq!(budget, Quantifier::Bounded(0));
    assert!(!budget.request_cycle());
}

#[test]
fn request_cycle_never_spends_an_unbounded_budget() {
    let mut budget = Quantifier::Unbounded;

    assert!(budget.request_cycle());
    assert!(budget.request_cycle());
    assert_eq!(budget, Quantifier::Unbounded);
}

#[test]
fn repeater_gives_its_budget() {
    assert_eq!(Repeater::Finite(3).quantifier(), Quantifier::Bounded(3));
    assert_eq!(Repeater::Infinite.quantifier(), Quantifier::Unbounded);
}

#[test]
fn expression_from_pattern_mirrors_the_pattern() {
    let pattern = Pattern::from("1(2)*").unwrap();
    let node = QuantifiedIMExVal::from_pattern(&pattern);

    let expected = QuantifiedIMExVal::from(
        IMExVal::group(vec![
            QuantifiedIMExVal::from(IMExVal::stream_ref(1), Quantifier::Bounded(1)),
            QuantifiedIMExVal::from(
                IMExVal::group(vec![QuantifiedIMExVal::from(
                    IMExVal::stream_ref(2),
                    Quantifier::Bounded(1),
                )]),
                Quantifier::Unbounded,
            ),
        ]),
        Quantifier::Bounded(1),
    );
    assert_eq!(node, expected);
    assert_eq!(IMEx::from_pattern(&pattern), IMEx::new(IMExVal::group(vec![
        QuantifiedIMExVal::from(IMExVal::stream_ref(1), Quantifier::Bounded(1)),
        QuantifiedIMExVal::from(
            IMExVal::group(vec![QuantifiedIMExVal::from(
                IMExVal::stream_ref(2),
                Quantifier::Bounded(1),
            )]),
            Quantifier::Unbounded,
        ),
    ])));
}

#[test]
fn budget_is_spent_between_cycles_not_within_them() {
    let mut imex = IMEx::try_from("(01){2}").unwrap();
    let mut streams = vec!["1\n2\n3".lines(), "x".lines()];

    assert_eq!(drain(&mut imex, &mut streams), Ok(vec!["1", "x", "2"]));
    assert_eq!(streams[0].next(), Some("3"));
}

#[test]
fn nested_groups_repeat_inside_out() {
    let mut imex = IMEx::try_from("((0){2}1)*").unwrap();
    let mut streams = vec!["a\nb\nc\nd\ne".lines(), "x\ny".lines()];

    assert_eq!(
        drain(&mut imex, &mut streams),
        Ok(vec!["a", "b", "x", "c", "d", "y", "e"])
    );
}

#[test]
fn group_instance_cannot_be_reused_after_its_pass() {
    let mut group = IMExVal::group(vec![QuantifiedIMExVal::from(
        IMExVal::stream_ref(0),
        Quantifier::Bounded(1),
    )]);
    let mut streams = vec!["ab".chars()];

    assert_eq!(group.iterate(&mut streams), Ok(Some('a')));
    assert_eq!(group.iterate(&mut streams), Ok(None));
    assert_eq!(group.iterate(&mut streams), Ok(None));
    assert_eq!(streams[0].next(), Some('b'));
}
