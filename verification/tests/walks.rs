use mtg_engine::card::{CardDefId, CardsBuilder};
use mtg_engine::game::new_state;
use mtg_engine::{
    CombatStep, PlayerAction, PlayerConfig, SequenceFrame, SequenceStep, StackFrame, State,
    TickEvent,
};

#[test]
fn builder_records_exactly_the_ids_handed_out() {
    let mut builder = CardsBuilder::default();
    let dids = [CardDefId(0), CardDefId(2), CardDefId(1), CardDefId(2)];
    let mut cards = Vec::new();
    for did in dids {
        cards.push(builder.next(did));
        assert_eq!(builder.lookup.len(), builder.next_id as usize);
    }
    assert_eq!(builder.next_id, 4);
    for k in 0..4u32 {
        assert!(builder.lookup.contains_key(&k));
    }
    assert!(!builder.lookup.contains_key(&4));
    for (card, did) in cards.iter().zip(dids) {
        assert_eq!(builder.lookup[&card.id().0], did);
    }
    let mut ids: Vec<u32> = cards.iter().map(|c| c.id().0).collect();
    ids.dedup();
    assert_eq!(ids.len(), 4);
}

#[test]
fn combat_steps_are_walked_frame_by_frame() {
    let mut state = new_state();
    state.state_stack = vec![StackFrame::CombatStep(SequenceFrame::<CombatStep>::begin())];
    let order = [
        CombatStep::Begin,
        CombatStep::DeclareAttackers,
        CombatStep::DeclareBlockers,
        CombatStep::CombatDamage,
        CombatStep::End,
    ];
    let steps = [SequenceStep::Begin, SequenceStep::Eval, SequenceStep::End];
    let mut seen = Vec::new();
    while let Some(frame) = state.state_stack.pop() {
        match frame {
            StackFrame::CombatStep(f) => seen.push((f.seq, f.step)),
            _ => panic!("a combat step pushed another frame"),
        }
        frame.eval(&mut state);
    }
    let expected: Vec<(CombatStep, SequenceStep)> = order
        .iter()
        .flat_map(|c| steps.iter().map(move |s| (*c, *s)))
        .collect();
    assert_eq!(seen, expected);
    assert!(state.state_stack.is_empty());
}

fn check_shape(state: &State) {
    let n = state.players.len();
    assert!(state.state_stack.len() <= 3);
    let priorities: Vec<_> = state
        .state_stack
        .iter()
        .filter_map(|f| match f {
            StackFrame::Priority(p) => Some(*p),
            _ => None,
        })
        .collect();
    assert!(priorities.len() <= 1);
    for p in priorities {
        assert!(p.active < n);
        assert!(p.last_actor.map_or(true, |a| a < n));
    }
    if let Some(first) = state.state_stack.first() {
        assert!(matches!(first, StackFrame::Phase(_)));
    }
}

#[test]
fn every_state_of_a_game_has_the_shape_of_the_turn() {
    let mut state = State::new(vec![
        PlayerConfig { library: vec![CardDefId(0); 3], hand: vec![] },
        PlayerConfig { library: vec![CardDefId(0); 3], hand: vec![] },
        PlayerConfig { library: vec![CardDefId(0); 3], hand: vec![] },
    ]);
    check_shape(&state);
    for _ in 0..600 {
        assert!(state.can_tick());
        let event = state.tick();
        check_shape(&state);
        if let TickEvent::Priority(p) = event {
            assert!(p < 3);
            state.input(p, PlayerAction::PassPriority).unwrap();
            check_shape(&state);
        }
    }
}

#[test]
fn a_round_of_passes_leaves_no_priority_frame() {
    let mut state = State::new(vec![
        PlayerConfig::default(),
        PlayerConfig::default(),
        PlayerConfig::default(),
    ]);
    loop {
        if let TickEvent::Priority(_) = state.tick() {
            break;
        }
    }
    // Upkeep of player 0's turn: players 0, 1 and 2 pass in turn.
    for k in 0..3usize {
        state.input(k, PlayerAction::PassPriority).unwrap();
        assert!(state.can_tick());
        let event = state.tick();
        if k < 2 {
            assert_eq!(event, TickEvent::Priority(k + 1));
        }
    }
    assert!(!state
        .state_stack
        .iter()
        .any(|f| matches!(f, StackFrame::Priority(_))));
}

#[test]
fn phases_are_walked_in_order_with_their_contents_evaluated_away() {
    // Walk a turn's phases from a fresh stack, passing priority whenever a
    // player gets it, and record the phase frames seen at the bottom.
    let mut state = mtg_engine::State::new(vec![PlayerConfig {
        library: vec![CardDefId(0); 2],
        hand: vec![],
    }]);
    state.current_player = 0;
    state.state_stack = vec![StackFrame::Phase(SequenceFrame::<mtg_engine::Phase>::begin())];
    let mut seen = Vec::new();
    while let Some(frame) = state.state_stack.pop() {
        if state.state_stack.is_empty() {
            if let StackFrame::Phase(f) = frame {
                seen.push((f.seq, f.step));
            }
        }
        if let StackFrame::Priority(_) = frame {
            // Everybody passes: the frame goes.
            continue;
        }
        frame.eval(&mut state);
    }
    let mut expected = Vec::new();
    for p in [
        mtg_engine::Phase::Begin,
        mtg_engine::Phase::PreCombat,
        mtg_engine::Phase::Combat,
        mtg_engine::Phase::PostCombat,
        mtg_engine::Phase::End,
    ] {
        for s in [SequenceStep::Begin, SequenceStep::Eval, SequenceStep::End] {
            expected.push((p, s));
        }
    }
    assert_eq!(seen, expected);
}

#[test]
fn when_everybody_has_passed_the_priority_frame_goes() {
    let mut state = State::new(vec![PlayerConfig::default(), PlayerConfig::default()]);
    loop {
        if let TickEvent::Priority(_) = state.tick() {
            break;
        }
    }
    state.input(0, PlayerAction::PassPriority).unwrap();
    assert_eq!(state.tick(), TickEvent::Priority(1));
    // Player 1 holds priority and player 0 acted last.
    state.input(1, PlayerAction::PassPriority).unwrap();
    assert!(state.can_tick());
    let event = state.tick();
    assert_eq!(event, TickEvent::EndBeginStep(mtg_engine::BeginStep::Upkeep));
    assert!(!state.state_stack.iter().any(|f| matches!(f, StackFrame::Priority(_))));
}
