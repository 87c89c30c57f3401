use fedimint_bridge::gateway::{
    select_gateway, FeeSchedule, GatewayCandidate, GatewaySelection, SelectionStep, FEE_BASE_MSAT,
    FEE_PROPORTIONAL_MILLIONTHS,
};

fn candidate(tag: u8, vetted: bool, base: u32, proportional: u32, private: bool) -> GatewayCandidate {
    GatewayCandidate {
        gateway_id: [tag; 33],
        vetted,
        fees: FeeSchedule { base_msat: base, proportional_millionths: proportional },
        supports_private_payments: private,
    }
}

fn cheap(tag: u8) -> GatewayCandidate {
    candidate(tag, false, 0, 0, false)
}

fn costly(tag: u8, private: bool) -> GatewayCandidate {
    candidate(tag, false, 1_000, 100, private)
}

fn vetted(tag: u8) -> GatewayCandidate {
    candidate(tag, true, 0, 0, false)
}

/// Runs a selection to its end with answers taken from the registry, and
/// returns the choice with the candidates asked about, in order.
fn drive(registry: &[(GatewayCandidate, bool)]) -> (Option<usize>, Vec<usize>) {
    let mut selection = GatewaySelection::new(registry.iter().map(|entry| entry.0).collect());
    let mut asked = Vec::new();
    let mut answer = None;
    loop {
        match selection.advance(answer) {
            SelectionStep::Resolve(i) => {
                asked.push(i);
                answer = Some(registry[i].1);
            }
            SelectionStep::Done(chosen) => return (chosen, asked),
        }
    }
}

#[test]
fn thresholds_are_one_thousand_and_one_hundred() {
    assert_eq!(FEE_BASE_MSAT, 1_000);
    assert_eq!(FEE_PROPORTIONAL_MILLIONTHS, 100);
    assert!(FeeSchedule { base_msat: 1_000, proportional_millionths: 100 }.meets_threshold());
    assert!(!FeeSchedule { base_msat: 999, proportional_millionths: 100 }.meets_threshold());
    assert!(!FeeSchedule { base_msat: 1_000, proportional_millionths: 99 }.meets_threshold());
    assert!(FeeSchedule { base_msat: u32::MAX, proportional_millionths: u32::MAX }.meets_threshold());
    assert!(!FeeSchedule { base_msat: 0, proportional_millionths: 0 }.meets_threshold());
}

#[test]
fn empty_registry_has_no_gateway() {
    assert_eq!(select_gateway(&vec![]), None);
    assert_eq!(drive(&[]), (None, vec![]));
}

#[test]
fn first_vetted_candidate_that_resolves_is_chosen() {
    let registry = vec![(costly(1, true), true), (vetted(2), true), (vetted(3), true)];
    assert_eq!(select_gateway(&registry), Some(1));
}

#[test]
fn vetted_candidate_that_does_not_resolve_is_passed_over() {
    let registry = vec![(vetted(1), false), (cheap(2), true), (vetted(3), true)];
    assert_eq!(select_gateway(&registry), Some(2));
}

#[test]
fn vetted_candidate_beats_any_fee_choice_made_before_it() {
    let registry = vec![(costly(1, true), true), (costly(2, true), true), (vetted(3), true)];
    assert_eq!(select_gateway(&registry), Some(2));
}

#[test]
fn later_candidate_with_fees_at_the_thresholds_replaces_an_earlier_one() {
    let registry = vec![(costly(1, false), true), (costly(2, false), true), (cheap(3), true)];
    assert_eq!(select_gateway(&registry), Some(1));
    let registry = vec![(costly(1, true), true), (costly(2, true), true)];
    assert_eq!(select_gateway(&registry), Some(1));
    let registry = vec![(costly(1, false), true), (costly(2, true), true)];
    assert_eq!(select_gateway(&registry), Some(1));
}

#[test]
fn gateway_with_private_payments_is_kept_over_one_without() {
    let registry = vec![(costly(1, true), true), (costly(2, false), true)];
    assert_eq!(select_gateway(&registry), Some(0));
    let registry =
        vec![(costly(1, false), true), (costly(2, true), true), (costly(3, false), true)];
    assert_eq!(select_gateway(&registry), Some(1));
}

#[test]
fn candidate_below_a_threshold_is_not_chosen_for_its_fees() {
    let below_base = candidate(1, false, 999, 100, true);
    let below_proportional = candidate(2, false, 1_000, 99, true);
    let registry = vec![(below_base, true), (below_proportional, true), (costly(3, false), true)];
    assert_eq!(select_gateway(&registry), Some(2));
}

#[test]
fn candidate_chosen_for_its_fees_has_to_resolve() {
    let registry = vec![(costly(1, true), false), (costly(2, false), true), (costly(3, true), false)];
    assert_eq!(select_gateway(&registry), Some(1));
}

#[test]
fn fallback_is_the_first_candidate_that_resolves() {
    let registry = vec![(cheap(1), false), (cheap(2), true), (cheap(3), true)];
    assert_eq!(select_gateway(&registry), Some(1));
    let registry = vec![(cheap(1), true)];
    assert_eq!(select_gateway(&registry), Some(0));
}

#[test]
fn no_gateway_where_none_resolves() {
    let registry = vec![(vetted(1), false), (costly(2, true), false), (cheap(3), false)];
    assert_eq!(select_gateway(&registry), None);
}

#[test]
fn selection_is_the_same_every_time() {
    let registry = vec![
        (cheap(1), true),
        (vetted(2), false),
        (costly(3, false), true),
        (costly(4, true), true),
        (costly(5, false), true),
    ];
    let first = select_gateway(&registry);
    for _ in 0..10 {
        assert_eq!(select_gateway(&registry), first);
        assert_eq!(drive(&registry).0, first);
    }
    assert_eq!(first, Some(3));
}

#[test]
fn candidates_are_resolved_in_the_order_of_the_rules() {
    // A vetted candidate that meets the thresholds is asked about twice.
    let both = candidate(1, true, 2_000, 200, false);
    let registry = vec![(both, false), (cheap(2), true), (costly(3, false), false)];
    assert_eq!(drive(&registry), (Some(1), vec![0, 0, 2, 0, 1]));

    let registry = vec![(cheap(1), true), (vetted(2), true), (vetted(3), true)];
    assert_eq!(drive(&registry), (Some(1), vec![1]));

    let registry = vec![(costly(1, false), true), (cheap(2), true)];
    assert_eq!(drive(&registry), (Some(0), vec![0]));

    let registry = vec![(cheap(1), false), (cheap(2), false)];
    assert_eq!(drive(&registry), (None, vec![0, 1]));
}

#[test]
fn question_is_repeated_until_it_is_answered() {
    let mut selection = GatewaySelection::new(vec![vetted(1), cheap(2)]);
    assert_eq!(selection.advance(None), SelectionStep::Resolve(0));
    assert_eq!(selection.advance(None), SelectionStep::Resolve(0));
    assert_eq!(selection.advance(Some(true)), SelectionStep::Done(Some(0)));
    assert_eq!(selection.advance(Some(false)), SelectionStep::Done(Some(0)));
    assert_eq!(selection.advance(None), SelectionStep::Done(Some(0)));
}

#[test]
fn answer_that_nothing_asked_for_is_ignored() {
    let mut selection = GatewaySelection::new(vec![cheap(1), cheap(2)]);
    assert_eq!(selection.advance(Some(true)), SelectionStep::Resolve(0));
    assert_eq!(selection.advance(Some(false)), SelectionStep::Resolve(1));
    assert_eq!(selection.advance(Some(true)), SelectionStep::Done(Some(1)));
}

#[test]
fn selection_keeps_its_candidates() {
    let listed = vec![vetted(7), cheap(8)];
    let selection = GatewaySelection::new(listed.clone());
    assert_eq!(selection.candidates(), &listed);
}
