//! Hedged requests: a response whose headers or whose first byte are late gets
//! a twin request, and whichever responds first wins. This kills tail latency
//! at twice the cost, on slow starts only.

use vstd::prelude::*;

verus! {

/// How long headers, and then the first byte, may take before the twin is
/// sent.
pub const HEDGE_DELAY_MS: u64 = 400;

/// How long the headers of a twin may take that was sent for a late first
/// byte.
pub const TWIN_WAIT_MS: u64 = 2000;

/// Which of the two requests.
#[derive(Clone, Copy, Debug, PartialEq, Eq, Structural)]
pub enum Source {
    Primary,
    Twin,
}

/// Where a hedged request stands.
#[derive(Clone, Copy, Debug, PartialEq, Eq, Structural)]
pub enum HedgePhase {
    /// The primary is sent; whether there is a twin to send.
    Headers { twin: bool },
    /// Both are sent; the first headers win.
    HeadersRaced,
    /// The primary responds; its first byte is awaited, and the twin unused.
    FirstByte,
    /// The first byte is late; the twin is sent, and its headers awaited.
    TwinHeaders,
    /// Both respond; the first byte wins.
    FirstByteRaced,
    /// The twin failed; only the primary's first byte is awaited.
    PrimaryOnly,
    /// The response to use, whether its first piece is there already, and
    /// whether a twin was needed.
    Won { from: Source, first: bool, hedged: bool },
    /// There is no response.
    Lost,
}

/// What happened.
#[derive(Clone, Copy, Debug, PartialEq, Eq, Structural)]
pub enum HedgeEvent {
    /// Headers came, with a success status or another.
    Head { from: Source, success: bool },
    /// A request failed.
    Failed { from: Source },
    /// The time for what is awaited is over.
    Late,
    /// The first piece of a body came, or will not come.
    First { from: Source, some: bool },
}

/// What to do next.
#[derive(Clone, Copy, Debug, PartialEq, Eq, Structural)]
pub enum HedgeAction {
    /// Await the primary's headers, for a limited time or not.
    AwaitHead { limit_ms: Option<u64> },
    /// Send the twin; await the headers of either.
    RaceHeads,
    /// Await the primary's first piece for a limited time.
    AwaitFirst { limit_ms: u64 },
    /// Send the twin; await its headers for a limited time.
    AwaitTwin { limit_ms: u64 },
    /// Await the first piece of either.
    RaceFirst,
    /// Await the primary's first piece.
    AwaitFirstOfPrimary,
    /// Use this response.
    Use { from: Source, first: bool, hedged: bool },
    /// Give up.
    GiveUp,
}

/// The next phase. A status that is no success is final, for a twin would fail
/// alike; an event that the phase does not await changes nothing.
pub open spec fn hedge_step(phase: HedgePhase, event: HedgeEvent) -> HedgePhase {
    match (phase, event) {
        (HedgePhase::Headers { twin }, HedgeEvent::Head { from: Source::Primary, success }) => {
            if !success {
                HedgePhase::Won { from: Source::Primary, first: false, hedged: false }
            } else if twin {
                HedgePhase::FirstByte
            } else {
                HedgePhase::Won { from: Source::Primary, first: false, hedged: true }
            }
        },
        (HedgePhase::Headers { twin: _ }, HedgeEvent::Failed { from: Source::Primary }) =>
            HedgePhase::Lost,
        (HedgePhase::Headers { twin: true }, HedgeEvent::Late) => HedgePhase::HeadersRaced,
        (HedgePhase::HeadersRaced, HedgeEvent::Head { from, success }) => HedgePhase::Won {
            from,
            first: false,
            hedged: success,
        },
        (HedgePhase::HeadersRaced, HedgeEvent::Failed { from: _ }) => HedgePhase::Lost,
        (HedgePhase::FirstByte, HedgeEvent::First { from: Source::Primary, some }) =>
            HedgePhase::Won { from: Source::Primary, first: some, hedged: false },
        (HedgePhase::FirstByte, HedgeEvent::Late) => HedgePhase::TwinHeaders,
        (HedgePhase::TwinHeaders, HedgeEvent::Head { from: Source::Twin, success }) => {
            if success {
                HedgePhase::FirstByteRaced
            } else {
                HedgePhase::PrimaryOnly
            }
        },
        (HedgePhase::TwinHeaders, HedgeEvent::Failed { from: Source::Twin }) =>
            HedgePhase::PrimaryOnly,
        (HedgePhase::TwinHeaders, HedgeEvent::Late) => HedgePhase::PrimaryOnly,
        (HedgePhase::FirstByteRaced, HedgeEvent::First { from, some }) => HedgePhase::Won {
            from,
            first: some,
            hedged: true,
        },
        (HedgePhase::PrimaryOnly, HedgeEvent::First { from: Source::Primary, some }) =>
            HedgePhase::Won { from: Source::Primary, first: some, hedged: true },
        _ => phase,
    }
}

/// What to do in a phase.
pub open spec fn hedge_awaits(phase: HedgePhase) -> HedgeAction {
    match phase {
        HedgePhase::Headers { twin } => HedgeAction::AwaitHead {
            limit_ms: if twin {
                Some(HEDGE_DELAY_MS)
            } else {
                None
            },
        },
        HedgePhase::HeadersRaced => HedgeAction::RaceHeads,
        HedgePhase::FirstByte => HedgeAction::AwaitFirst { limit_ms: HEDGE_DELAY_MS },
        HedgePhase::TwinHeaders => HedgeAction::AwaitTwin { limit_ms: TWIN_WAIT_MS },
        HedgePhase::FirstByteRaced => HedgeAction::RaceFirst,
        HedgePhase::PrimaryOnly => HedgeAction::AwaitFirstOfPrimary,
        HedgePhase::Won { from, first, hedged } => HedgeAction::Use { from, first, hedged },
        HedgePhase::Lost => HedgeAction::GiveUp,
    }
}

/// The next phase of a hedged request.
pub fn hedge_next(phase: HedgePhase, event: HedgeEvent) -> (r: HedgePhase)
    ensures
        r == hedge_step(phase, event),
{
    match (phase, event) {
        (HedgePhase::Headers { twin }, HedgeEvent::Head { from: Source::Primary, success }) => {
            if !success {
                HedgePhase::Won { from: Source::Primary, first: false, hedged: false }
            } else if twin {
                HedgePhase::FirstByte
            } else {
                HedgePhase::Won { from: Source::Primary, first: false, hedged: true }
            }
        },
        (HedgePhase::Headers { twin: _ }, HedgeEvent::Failed { from: Source::Primary }) =>
            HedgePhase::Lost,
        (HedgePhase::Headers { twin: true }, HedgeEvent::Late) => HedgePhase::HeadersRaced,
        (HedgePhase::HeadersRaced, HedgeEvent::Head { from, success }) => HedgePhase::Won {
            from,
            first: false,
            hedged: success,
        },
        (HedgePhase::HeadersRaced, HedgeEvent::Failed { from: _ }) => HedgePhase::Lost,
        (HedgePhase::FirstByte, HedgeEvent::First { from: Source::Primary, some }) =>
            HedgePhase::Won { from: Source::Primary, first: some, hedged: false },
        (HedgePhase::FirstByte, HedgeEvent::Late) => HedgePhase::TwinHeaders,
        (HedgePhase::TwinHeaders, HedgeEvent::Head { from: Source::Twin, success }) => {
            if success {
                HedgePhase::FirstByteRaced
            } else {
                HedgePhase::PrimaryOnly
            }
        },
        (HedgePhase::TwinHeaders, HedgeEvent::Failed { from: Source::Twin }) =>
            HedgePhase::PrimaryOnly,
        (HedgePhase::TwinHeaders, HedgeEvent::Late) => HedgePhase::PrimaryOnly,
        (HedgePhase::FirstByteRaced, HedgeEvent::First { from, some }) => HedgePhase::Won {
            from,
            first: some,
            hedged: true,
        },
        (HedgePhase::PrimaryOnly, HedgeEvent::First { from: Source::Primary, some }) =>
            HedgePhase::Won { from: Source::Primary, first: some, hedged: true },
        (phase, _) => phase,
    }
}

/// What to do in a phase.
pub fn hedge_action(phase: HedgePhase) -> (r: HedgeAction)
    ensures
        r == hedge_awaits(phase),
{
    match phase {
        HedgePhase::Headers { twin } => HedgeAction::AwaitHead {
            limit_ms: if twin {
                Some(HEDGE_DELAY_MS)
            } else {
                None
            },
        },
        HedgePhase::HeadersRaced => HedgeAction::RaceHeads,
        HedgePhase::FirstByte => HedgeAction::AwaitFirst { limit_ms: HEDGE_DELAY_MS },
        HedgePhase::TwinHeaders => HedgeAction::AwaitTwin { limit_ms: TWIN_WAIT_MS },
        HedgePhase::FirstByteRaced => HedgeAction::RaceFirst,
        HedgePhase::PrimaryOnly => HedgeAction::AwaitFirstOfPrimary,
        HedgePhase::Won { from, first, hedged } => HedgeAction::Use { from, first, hedged },
        HedgePhase::Lost => HedgeAction::GiveUp,
    }
}

/// The phase after several events.
pub open spec fn hedge_after(phase: HedgePhase, events: Seq<HedgeEvent>) -> HedgePhase
    decreases events.len(),
{
    if events.len() == 0 {
        phase
    } else {
        hedge_after(hedge_step(phase, events[0]), events.drop_first())
    }
}

/// Whether a step sends the twin.
pub open spec fn sends_twin(before: HedgePhase, after: HedgePhase) -> bool {
    before != after && (after == HedgePhase::HeadersRaced || after == HedgePhase::TwinHeaders)
}

/// The number of twins that are sent in the course of some events.
pub open spec fn twins(phase: HedgePhase, events: Seq<HedgeEvent>) -> nat
    decreases events.len(),
{
    if events.len() == 0 {
        0
    } else {
        let next = hedge_step(phase, events[0]);
        (if sends_twin(phase, next) {
            1nat
        } else {
            0nat
        }) + twins(next, events.drop_first())
    }
}

/// Whether the twin can still be sent.
spec fn twin_left(phase: HedgePhase) -> bool {
    match phase {
        HedgePhase::Headers { twin } => twin,
        HedgePhase::FirstByte => true,
        _ => false,
    }
}

proof fn lemma_twins(phase: HedgePhase, events: Seq<HedgeEvent>)
    ensures
        twins(phase, events) <= if twin_left(phase) {
            1nat
        } else {
            0nat
        },
    decreases events.len(),
{
    if events.len() > 0 {
        lemma_twins(hedge_step(phase, events[0]), events.drop_first());
    }
}

/// Whatever happens, at most one twin is sent, and none where there is none.
pub proof fn law_at_most_one_twin(twin: bool, events: Seq<HedgeEvent>)
    ensures
        twins(HedgePhase::Headers { twin }, events) <= if twin {
            1nat
        } else {
            0nat
        },
{
    lemma_twins(HedgePhase::Headers { twin }, events);
}

/// A request that settles without a twin having been sent is not reported as
/// hedged, if there was a twin to send.
pub proof fn law_hedged_means_twin_sent(events: Seq<HedgeEvent>)
    ensures
        hedge_after(HedgePhase::Headers { twin: true }, events) matches HedgePhase::Won {
            hedged,
            ..
        } ==> hedged ==> twins(HedgePhase::Headers { twin: true }, events) == 1,
{
    lemma_hedged(HedgePhase::Headers { twin: true }, events);
}

proof fn lemma_hedged(phase: HedgePhase, events: Seq<HedgeEvent>)
    requires
        phase == (HedgePhase::Headers { twin: true }) || phase == HedgePhase::FirstByte || phase
            == HedgePhase::Lost || (phase matches HedgePhase::Won { hedged, .. } && !hedged),
    ensures
        hedge_after(phase, events) matches HedgePhase::Won {
            hedged,
            ..
        } ==> hedged ==> twins(phase, events) == 1,
    decreases events.len(),
{
    if events.len() > 0 {
        let next = hedge_step(phase, events[0]);
        lemma_twins(phase, events);
        if sends_twin(phase, next) {
        } else {
            lemma_hedged(next, events.drop_first());
        }
    }
}

/// A status that is no success is used at once, and not reported as hedged.
pub proof fn law_refusal_is_final(phase: HedgePhase, from: Source)
    requires
        phase is Headers && from == Source::Primary || phase is HeadersRaced,
    ensures
        hedge_step(phase, HedgeEvent::Head { from, success: false }) == (HedgePhase::Won {
            from,
            first: false,
            hedged: false,
        }),
{
}

/// A settled request stays settled.
pub proof fn law_settled_stays_settled(phase: HedgePhase, event: HedgeEvent)
    requires
        phase is Won || phase is Lost,
    ensures
        hedge_step(phase, event) == phase,
{
}

/// Time is limited exactly where running out of it changes something: 400
/// milliseconds for the first headers, if there is a twin, and for the first
/// byte, and two seconds for the headers of a twin that is sent late.
pub proof fn law_limits_are_those_that_matter(phase: HedgePhase)
    ensures
        hedge_step(phase, HedgeEvent::Late) != phase <==> match hedge_awaits(phase) {
            HedgeAction::AwaitHead { limit_ms } => limit_ms is Some,
            HedgeAction::AwaitFirst { limit_ms: _ } => true,
            HedgeAction::AwaitTwin { limit_ms: _ } => true,
            _ => false,
        },
        match hedge_awaits(phase) {
            HedgeAction::AwaitHead { limit_ms } => limit_ms matches Some(ms) ==> ms == 400,
            HedgeAction::AwaitFirst { limit_ms } => limit_ms == 400,
            HedgeAction::AwaitTwin { limit_ms } => limit_ms == 2000,
            _ => true,
        },
{
}

/// Whether a response has come from a source, among some events.
pub open spec fn has_responded(events: Seq<HedgeEvent>, from: Source) -> bool {
    exists|i: int|
        0 <= i < events.len() && (#[trigger] events[i] matches HedgeEvent::Head { from: source, .. }
            && source == from)
}

/// Whether the first piece of a body has come from a source, among some events.
pub open spec fn has_begun(events: Seq<HedgeEvent>, from: Source) -> bool {
    exists|i: int|
        0 <= i < events.len() && #[trigger] events[i] == (HedgeEvent::First { from, some: true })
}

/// What is known of the phase that some events lead to.
spec fn earned(phase: HedgePhase, events: Seq<HedgeEvent>) -> bool {
    match phase {
        HedgePhase::FirstByte => has_responded(events, Source::Primary),
        HedgePhase::TwinHeaders => has_responded(events, Source::Primary),
        HedgePhase::PrimaryOnly => has_responded(events, Source::Primary),
        HedgePhase::FirstByteRaced => has_responded(events, Source::Primary) && has_responded(
            events,
            Source::Twin,
        ),
        HedgePhase::Won { from, first, .. } => has_responded(events, from) && (first ==> has_begun(
            events,
            from,
        )),
        _ => true,
    }
}

/// The phase after events, from the front or from the back.
proof fn lemma_after_push(phase: HedgePhase, events: Seq<HedgeEvent>, last: HedgeEvent)
    ensures
        hedge_after(phase, events.push(last)) == hedge_step(hedge_after(phase, events), last),
    decreases events.len(),
{
    let all = events.push(last);
    if events.len() == 0 {
        reveal_with_fuel(hedge_after, 2);
        assert(all.drop_first() =~= Seq::empty());
    } else {
        assert(all.drop_first() =~= events.drop_first().push(last));
        lemma_after_push(hedge_step(phase, events[0]), events.drop_first(), last);
    }
}

proof fn lemma_earned(twin: bool, events: Seq<HedgeEvent>)
    ensures
        earned(hedge_after(HedgePhase::Headers { twin }, events), events),
    decreases events.len(),
{
    if events.len() > 0 {
        let before = events.drop_last();
        let last = events.last();
        lemma_earned(twin, before);
        assert(before.push(last) =~= events);
        lemma_after_push(HedgePhase::Headers { twin }, before, last);
        lemma_more_events(before, last, Source::Primary);
        lemma_more_events(before, last, Source::Twin);
        assert(events[events.len() - 1] == last);
    }
}

proof fn lemma_more_events(events: Seq<HedgeEvent>, last: HedgeEvent, from: Source)
    ensures
        has_responded(events, from) ==> has_responded(events.push(last), from),
        has_begun(events, from) ==> has_begun(events.push(last), from),
        (last matches HedgeEvent::Head { from: source, .. } && source == from) ==> has_responded(
            events.push(last),
            from,
        ),
        last == (HedgeEvent::First { from, some: true }) ==> has_begun(events.push(last), from),
{
    let all = events.push(last);
    assert(all[events.len() as int] == last);
    if has_responded(events, from) {
        let i = choose|i: int|
            0 <= i < events.len() && (#[trigger] events[i] matches HedgeEvent::Head {
                from: source,
                ..
            } && source == from);
        assert(all[i] == events[i]);
    }
    if has_begun(events, from) {
        let i = choose|i: int|
            0 <= i < events.len() && #[trigger] events[i] == (HedgeEvent::First {
                from,
                some: true,
            });
        assert(all[i] == events[i]);
    }
}

/// The response that is used is one that has come; and its first piece is said
/// to be there only where it has come, from the same source.
pub proof fn law_what_is_used_has_come(twin: bool, events: Seq<HedgeEvent>)
    ensures
        hedge_after(HedgePhase::Headers { twin }, events) matches HedgePhase::Won {
            from,
            first,
            ..
        } ==> has_responded(events, from) && (first ==> has_begun(events, from)),
{
    lemma_earned(twin, events);
}

/// In a race the first to come is used: the first headers with whatever status
/// they have, or the first piece of a body; the request is then hedged, if it
/// was not refused.
pub proof fn law_the_first_to_come_is_used(from: Source, success: bool, some: bool)
    ensures
        hedge_step(HedgePhase::HeadersRaced, HedgeEvent::Head { from, success }) == (
        HedgePhase::Won { from, first: false, hedged: success }),
        hedge_step(HedgePhase::FirstByteRaced, HedgeEvent::First { from, some }) == (
        HedgePhase::Won { from, first: some, hedged: true }),
        hedge_step(
            HedgePhase::PrimaryOnly,
            HedgeEvent::First { from: Source::Primary, some },
        ) == (HedgePhase::Won { from: Source::Primary, first: some, hedged: true }),
        hedge_step(
            HedgePhase::FirstByte,
            HedgeEvent::First { from: Source::Primary, some },
        ) == (HedgePhase::Won { from: Source::Primary, first: some, hedged: false }),
{
}

/// A request is lost only by a failure, and only before anything responded:
/// a twin that fails later, or does not come, leaves the primary.
pub proof fn law_when_a_request_is_lost(phase: HedgePhase, event: HedgeEvent)
    requires
        !(phase is Lost),
    ensures
        hedge_step(phase, event) is Lost <==> (event matches HedgeEvent::Failed { from } && (
        phase is HeadersRaced || phase is Headers && from == Source::Primary)),
        phase is TwinHeaders && (event == HedgeEvent::Late || event == (HedgeEvent::Failed {
            from: Source::Twin,
        }) || event == (HedgeEvent::Head { from: Source::Twin, success: false })) ==> hedge_step(
            phase,
            event,
        ) == HedgePhase::PrimaryOnly,
{
}

/// The twin is sent exactly when the time for what the primary owes is over, as
/// long as it was not sent.
pub proof fn law_when_the_twin_is_sent(phase: HedgePhase, event: HedgeEvent)
    ensures
        sends_twin(phase, hedge_step(phase, event)) <==> event == HedgeEvent::Late && (phase == (
        HedgePhase::Headers { twin: true }) || phase == HedgePhase::FirstByte),
        sends_twin(phase, hedge_step(phase, event)) ==> hedge_awaits(hedge_step(phase, event)) == (
        if phase is Headers {
            HedgeAction::RaceHeads
        } else {
            HedgeAction::AwaitTwin { limit_ms: 2000 }
        }),
{
}

/// A primary that responds well is waited for, if there is a twin, until its
/// first byte; a twin that responds well is raced against it.
pub proof fn law_good_responses_are_waited_for(twin: bool, success: bool)
    ensures
        ({
            let primary = hedge_step(
                HedgePhase::Headers { twin },
                HedgeEvent::Head { from: Source::Primary, success },
            );
            let late = hedge_step(
                HedgePhase::TwinHeaders,
                HedgeEvent::Head { from: Source::Twin, success },
            );
            &&& success && twin <==> hedge_awaits(primary) is AwaitFirst
            &&& !(success && twin) ==> hedge_awaits(primary) == (HedgeAction::Use {
                from: Source::Primary,
                first: false,
                hedged: success,
            })
            &&& success <==> hedge_awaits(late) == HedgeAction::RaceFirst
            &&& !success <==> hedge_awaits(late) == HedgeAction::AwaitFirstOfPrimary
        }),
{
}

} // verus!
