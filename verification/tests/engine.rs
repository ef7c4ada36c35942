use mtg_engine::card::{Card, CardDefId, CardId};
use mtg_engine::game::{new_state, to_player_action, Action, ActionError};
use mtg_engine::{
    BeginStep, CombatStep, EndStep, Phase, PlayerAction, PlayerConfig, Priority, StackFrame,
    State, TickEvent,
};

fn tick(state: &mut State) -> TickEvent {
    assert!(state.can_tick());
    state.tick()
}

/// Ticks until a player gets priority, returning the events on the way.
fn run_until_input(state: &mut State) -> Vec<TickEvent> {
    let mut events = Vec::new();
    for _ in 0..100 {
        let event = tick(state);
        events.push(event);
        if event.awaits_input() {
            return events;
        }
    }
    panic!("no player got priority within 100 ticks");
}

fn pass(state: &mut State, player: usize) {
    state.input(player, PlayerAction::PassPriority).unwrap();
}

fn all_ids(state: &State) -> Vec<u32> {
    let mut ids = Vec::new();
    for p in &state.players {
        for zone in [&p.library, &p.hand, &p.battlefield, &p.graveyard, &p.command] {
            for card in zone.iter() {
                ids.push(card.id().0);
            }
        }
    }
    ids
}

#[test]
fn new_numbers_cards_player_after_player() {
    let state = State::new(vec![
        PlayerConfig { library: vec![CardDefId(0), CardDefId(0)], hand: vec![CardDefId(0)] },
        PlayerConfig { library: vec![CardDefId(0)], hand: vec![] },
        PlayerConfig { library: vec![], hand: vec![CardDefId(0), CardDefId(0)] },
    ]);
    let ids = |cards: &Vec<Card>| cards.iter().map(|c| c.id().0).collect::<Vec<_>>();
    assert_eq!(ids(&state.players[0].library), vec![0, 1]);
    assert_eq!(ids(&state.players[0].hand), vec![2]);
    assert_eq!(ids(&state.players[1].library), vec![3]);
    assert!(state.players[1].hand.is_empty());
    assert!(state.players[2].library.is_empty());
    assert_eq!(ids(&state.players[2].hand), vec![4, 5]);
    assert_eq!(state.current_player, 2);
    assert_eq!(state.current_phase, Phase::Begin);
    assert!(state.state_stack.is_empty());
    assert!(state.actions.is_empty());
    assert!(state.game_stack.is_empty());
    assert_eq!(state.card_defs.len(), 1);
}

#[test]
fn standard_game_has_two_libraries_of_five() {
    let state = new_state();
    assert_eq!(state.players.len(), 2);
    assert_eq!(state.current_player, 1);
    for (i, p) in state.players.iter().enumerate() {
        let ids: Vec<u32> = p.library.iter().map(|c| c.id().0).collect();
        let expected: Vec<u32> = (0..5).map(|k| 5 * i as u32 + k).collect();
        assert_eq!(ids, expected);
        assert!(p.library.iter().all(|c| c.def() == CardDefId(0)));
        assert!(p.hand.is_empty());
    }
}

#[test]
fn first_turn_runs_through_the_beginning_steps() {
    let mut state = new_state();
    let events = run_until_input(&mut state);
    assert_eq!(
        events,
        vec![
            TickEvent::BeginTurn(0),
            TickEvent::BeginPhase(Phase::Begin),
            TickEvent::BeginBeginStep(BeginStep::Untap),
            TickEvent::SelectUntap,
            TickEvent::Untap,
            TickEvent::EndBeginStep(BeginStep::Untap),
            TickEvent::BeginBeginStep(BeginStep::Upkeep),
            TickEvent::Priority(0),
        ]
    );
    pass(&mut state, 0);
    assert_eq!(tick(&mut state), TickEvent::Priority(1));
    pass(&mut state, 1);
    let events = run_until_input(&mut state);
    assert_eq!(
        events,
        vec![
            TickEvent::EndBeginStep(BeginStep::Upkeep),
            TickEvent::BeginBeginStep(BeginStep::Draw),
            TickEvent::Draw(CardId(4)),
            TickEvent::Priority(0),
        ]
    );
    assert_eq!(state.players[0].library.len(), 4);
    assert_eq!(state.players[0].hand.len(), 1);
    assert_eq!(state.players[0].hand[0].id(), CardId(4));
}

/// Passes priority round the table until the next event that asks for input.
fn pass_round(state: &mut State) -> Vec<TickEvent> {
    let mut events = Vec::new();
    loop {
        let holder = match state.state_stack.last() {
            Some(StackFrame::Priority(p)) => p.active,
            _ => panic!("nobody holds priority"),
        };
        pass(state, holder);
        let mut more = run_until_input(state);
        let done = !matches!(more.as_slice(), [TickEvent::Priority(_)]);
        events.append(&mut more);
        if done {
            return events;
        }
    }
}

#[test]
fn turn_goes_through_every_phase_and_then_to_the_next_player() {
    let mut state = new_state();
    run_until_input(&mut state);
    let mut events = Vec::new();
    for _ in 0..6 {
        events.append(&mut pass_round(&mut state));
    }
    assert!(events.contains(&TickEvent::BeginPhase(Phase::PreCombat)));
    let expected_tail = [
        TickEvent::EndPhase(Phase::PreCombat),
        TickEvent::BeginPhase(Phase::Combat),
        TickEvent::CombatStep(CombatStep::Begin),
        TickEvent::CombatStep(CombatStep::DeclareAttackers),
        TickEvent::CombatStep(CombatStep::DeclareBlockers),
        TickEvent::CombatStep(CombatStep::CombatDamage),
        TickEvent::CombatStep(CombatStep::End),
        TickEvent::EndPhase(Phase::Combat),
        TickEvent::BeginPhase(Phase::PostCombat),
    ];
    let start = events
        .iter()
        .position(|e| *e == TickEvent::EndPhase(Phase::PreCombat))
        .unwrap();
    assert_eq!(&events[start..start + expected_tail.len()], &expected_tail);
    let end_steps = [
        TickEvent::EndPhase(Phase::PostCombat),
        TickEvent::BeginPhase(Phase::End),
        TickEvent::EndStep(EndStep::End),
        TickEvent::EndStep(EndStep::Cleanup),
        TickEvent::EndPhase(Phase::End),
        TickEvent::BeginTurn(1),
    ];
    let start = events
        .iter()
        .position(|e| *e == TickEvent::EndPhase(Phase::PostCombat))
        .unwrap();
    assert_eq!(&events[start..start + end_steps.len()], &end_steps);
    assert_eq!(state.current_player, 1);
}

#[test]
fn lands_are_played_from_hand_to_battlefield() {
    let mut state = State::new(vec![
        PlayerConfig { library: vec![CardDefId(0)], hand: vec![CardDefId(0), CardDefId(0)] },
        PlayerConfig::default(),
    ]);
    run_until_input(&mut state);
    for _ in 0..2 {
        pass_round(&mut state);
    }
    // Pre-combat main phase, player 0 holds priority.
    assert_eq!(state.current_phase, Phase::PreCombat);
    assert!(matches!(
        state.state_stack.last(),
        Some(StackFrame::Priority(Priority { active: 0, last_actor: None }))
    ));
    state.input(0, PlayerAction::PlayLand(CardId(2))).unwrap();
    assert!(state.can_tick());
    assert_eq!(state.tick(), TickEvent::PlayCard(0, CardId(2)));
    let hand: Vec<u32> = state.players[0].hand.iter().map(|c| c.id().0).collect();
    let field: Vec<u32> = state.players[0].battlefield.iter().map(|c| c.id().0).collect();
    assert_eq!(hand, vec![1, 0]);
    assert_eq!(field, vec![2]);
    assert!(state.actions.is_empty());
    // Priority is still with player 0.
    assert_eq!(tick(&mut state), TickEvent::Priority(0));
}

#[test]
fn actions_that_cannot_be_performed_are_refused_before_the_tick() {
    let mut state = State::new(vec![
        PlayerConfig { library: vec![CardDefId(0)], hand: vec![CardDefId(0)] },
        PlayerConfig::default(),
    ]);
    assert!(state.can_tick());
    run_until_input(&mut state);
    // Upkeep: not a main phase, so no land.
    state.input(0, PlayerAction::PlayLand(CardId(1))).unwrap();
    assert!(!state.can_tick());
    state.actions.clear();
    // Player 1 does not hold priority.
    state.input(1, PlayerAction::PassPriority).unwrap();
    assert!(!state.can_tick());
    state.actions.clear();
    // No such player.
    state.input(7, PlayerAction::PassPriority).unwrap();
    assert!(!state.can_tick());
    state.actions.clear();
    state.input(0, PlayerAction::PassPriority).unwrap();
    assert!(state.can_tick());
    // A land not in hand.
    let mut state = new_state();
    run_until_input(&mut state);
    state.input(0, PlayerAction::PlayLand(CardId(9))).unwrap();
    assert!(!state.can_tick());
    // No players at all.
    let empty = State {
        card_defs: vec![],
        players: vec![],
        current_player: 0,
        current_phase: Phase::Begin,
        game_stack: vec![],
        state_stack: vec![],
        actions: vec![],
    };
    assert!(!empty.can_tick());
}

#[test]
fn players_lose_when_drawing_from_an_empty_library() {
    let mut state = State::new(vec![PlayerConfig::default()]);
    let mut events = run_until_input(&mut state);
    loop {
        events.append(&mut pass_round(&mut state));
        if events.contains(&TickEvent::LoseGame(0)) {
            break;
        }
    }
    assert!(state.players[0].hand.is_empty());
}

#[test]
fn cards_are_never_lost_or_duplicated() {
    let mut state = new_state();
    run_until_input(&mut state);
    for _ in 0..40 {
        pass_round(&mut state);
        let mut ids = all_ids(&state);
        ids.sort();
        assert_eq!(ids, (0..10).collect::<Vec<u32>>());
        if state.players.iter().any(|p| p.library.is_empty()) {
            break;
        }
    }
}

#[test]
fn a_lone_player_passes_twice_to_end_priority() {
    let mut state = State::new(vec![PlayerConfig::default()]);
    assert_eq!(run_until_input(&mut state).last(), Some(&TickEvent::Priority(0)));
    pass(&mut state, 0);
    assert_eq!(tick(&mut state), TickEvent::Priority(0));
    assert!(matches!(
        state.state_stack.last(),
        Some(StackFrame::Priority(Priority { active: 0, last_actor: Some(0) }))
    ));
    pass(&mut state, 0);
    assert_eq!(tick(&mut state), TickEvent::EndBeginStep(BeginStep::Upkeep));
}

#[test]
fn priority_goes_round_three_players() {
    let mut state = State::new(vec![
        PlayerConfig::default(),
        PlayerConfig::default(),
        PlayerConfig::default(),
    ]);
    assert_eq!(run_until_input(&mut state).last(), Some(&TickEvent::Priority(0)));
    pass(&mut state, 0);
    assert_eq!(tick(&mut state), TickEvent::Priority(1));
    pass(&mut state, 1);
    assert_eq!(tick(&mut state), TickEvent::Priority(2));
    pass(&mut state, 2);
    assert_eq!(tick(&mut state), TickEvent::EndBeginStep(BeginStep::Upkeep));
}

#[test]
fn turns_pass_round_in_order() {
    let mut state = State::new(vec![
        PlayerConfig { library: vec![CardDefId(0); 3], hand: vec![] },
        PlayerConfig { library: vec![CardDefId(0); 3], hand: vec![] },
        PlayerConfig { library: vec![CardDefId(0); 3], hand: vec![] },
    ]);
    let mut turns = Vec::new();
    let mut events = run_until_input(&mut state);
    for _ in 0..60 {
        events.append(&mut pass_round(&mut state));
    }
    for e in events {
        if let TickEvent::BeginTurn(p) = e {
            turns.push(p);
        }
    }
    assert_eq!(&turns[..4], &[0, 1, 2, 0]);
}

#[test]
fn inputs_are_performed_first_in_first_out() {
    let mut state = new_state();
    run_until_input(&mut state);
    assert!(state.input(0, PlayerAction::PassPriority).is_ok());
    assert!(state.input(1, PlayerAction::PassPriority).is_ok());
    assert_eq!(state.actions.len(), 2);
    assert_eq!(state.actions[1].player, 0);
    assert_eq!(tick(&mut state), TickEvent::Priority(1));
    assert_eq!(state.actions.len(), 1);
    assert_eq!(tick(&mut state), TickEvent::EndBeginStep(BeginStep::Upkeep));
}

#[test]
fn main_phases_are_the_two_main_ones() {
    assert!(!Phase::Begin.is_main());
    assert!(Phase::PreCombat.is_main());
    assert!(!Phase::Combat.is_main());
    assert!(Phase::PostCombat.is_main());
    assert!(!Phase::End.is_main());
}

#[test]
fn only_priority_awaits_input() {
    assert!(TickEvent::Priority(3).awaits_input());
    assert!(!TickEvent::BeginTurn(0).awaits_input());
    assert!(!TickEvent::LoseGame(0).awaits_input());
}

#[test]
fn command_line_actions_become_player_actions() {
    assert_eq!(to_player_action(Action::Pass, None), Ok(PlayerAction::PassPriority));
    assert_eq!(
        to_player_action(Action::Pass, Some(4)),
        Err(ActionError::PassTakesNoCardId(4))
    );
    assert_eq!(
        to_player_action(Action::PlayLand, Some(4)),
        Ok(PlayerAction::PlayLand(CardId(4)))
    );
    assert_eq!(
        to_player_action(Action::PlayLand, None),
        Err(ActionError::PlayLandNeedsCardId)
    );
}

#[test]
fn action_errors_say_what_went_wrong() {
    assert_eq!(
        ActionError::PassTakesNoCardId(4).message(),
        "Pass does not take a card ID; got 4"
    );
    assert_eq!(
        ActionError::PassTakesNoCardId(1234567890).message(),
        "Pass does not take a card ID; got 1234567890"
    );
    assert_eq!(
        ActionError::PassTakesNoCardId(0).message(),
        "Pass does not take a card ID; got 0"
    );
    assert_eq!(
        ActionError::PlayLandNeedsCardId.message(),
        "PlayLand requires a card ID, e.g. `mtg action 1 PlayLand 4`"
    );
}
