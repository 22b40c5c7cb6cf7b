use backend_rove::hedge::{hedge_action, hedge_next, HedgeAction, HedgeEvent, HedgePhase, Source};

fn after(twin: bool, events: &[HedgeEvent]) -> HedgeAction {
    let mut phase = HedgePhase::Headers { twin };
    for event in events {
        phase = hedge_next(phase, *event);
    }
    hedge_action(phase)
}

const UP: HedgeEvent = HedgeEvent::Head { from: Source::Primary, success: true };
const TWIN_UP: HedgeEvent = HedgeEvent::Head { from: Source::Twin, success: true };

#[test]
fn a_prompt_response_needs_no_twin() {
    assert_eq!(after(true, &[]), HedgeAction::AwaitHead { limit_ms: Some(400) });
    assert_eq!(after(true, &[UP]), HedgeAction::AwaitFirst { limit_ms: 400 });
    assert_eq!(
        after(true, &[UP, HedgeEvent::First { from: Source::Primary, some: true }]),
        HedgeAction::Use { from: Source::Primary, first: true, hedged: false }
    );
    assert_eq!(
        after(true, &[UP, HedgeEvent::First { from: Source::Primary, some: false }]),
        HedgeAction::Use { from: Source::Primary, first: false, hedged: false }
    );
}

#[test]
fn slow_headers_are_raced() {
    assert_eq!(after(true, &[HedgeEvent::Late]), HedgeAction::RaceHeads);
    assert_eq!(
        after(true, &[HedgeEvent::Late, TWIN_UP]),
        HedgeAction::Use { from: Source::Twin, first: false, hedged: true }
    );
    assert_eq!(
        after(true, &[HedgeEvent::Late, UP]),
        HedgeAction::Use { from: Source::Primary, first: false, hedged: true }
    );
    assert_eq!(
        after(true, &[HedgeEvent::Late, HedgeEvent::Failed { from: Source::Twin }]),
        HedgeAction::GiveUp
    );
}

#[test]
fn a_slow_first_byte_is_raced() {
    assert_eq!(
        after(true, &[UP, HedgeEvent::Late]),
        HedgeAction::AwaitTwin { limit_ms: 2000 }
    );
    assert_eq!(after(true, &[UP, HedgeEvent::Late, TWIN_UP]), HedgeAction::RaceFirst);
    assert_eq!(
        after(
            true,
            &[UP, HedgeEvent::Late, TWIN_UP, HedgeEvent::First { from: Source::Twin, some: true }]
        ),
        HedgeAction::Use { from: Source::Twin, first: true, hedged: true }
    );
    for miss in [
        HedgeEvent::Late,
        HedgeEvent::Failed { from: Source::Twin },
        HedgeEvent::Head { from: Source::Twin, success: false },
    ] {
        assert_eq!(
            after(true, &[UP, HedgeEvent::Late, miss]),
            HedgeAction::AwaitFirstOfPrimary
        );
        assert_eq!(
            after(
                true,
                &[UP, HedgeEvent::Late, miss, HedgeEvent::First { from: Source::Primary, some: true }]
            ),
            HedgeAction::Use { from: Source::Primary, first: true, hedged: true }
        );
    }
}

#[test]
fn a_refusal_returns_at_once() {
    let refused = HedgeEvent::Head { from: Source::Primary, success: false };
    let used = HedgeAction::Use { from: Source::Primary, first: false, hedged: false };
    assert_eq!(after(true, &[refused]), used);
    assert_eq!(after(true, &[HedgeEvent::Late, refused]), used);
    assert_eq!(after(true, &[refused, HedgeEvent::Late, TWIN_UP]), used);
    assert_eq!(
        after(true, &[HedgeEvent::Failed { from: Source::Primary }]),
        HedgeAction::GiveUp
    );
}

#[test]
fn without_a_twin_nothing_is_late() {
    assert_eq!(after(false, &[]), HedgeAction::AwaitHead { limit_ms: None });
    assert_eq!(after(false, &[HedgeEvent::Late]), HedgeAction::AwaitHead { limit_ms: None });
    assert_eq!(
        after(false, &[UP]),
        HedgeAction::Use { from: Source::Primary, first: false, hedged: true }
    );
}
