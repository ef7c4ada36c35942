//! The game state, the frames of the internal state stack, and the events a
//! tick reports.

use crate::card::{
    is_card_catalogue, summon_cards_into_existence, Card, CardDef, CardDefId, CardId, CardsBuilder,
};
use crate::model::{
    cards_before, eval_frame, frame_ok, holds_card, initial_player, initial_players,
    is_first_card_index, lemma_card_index, lemma_card_index_unique, lemma_cards_before_monotonic,
    lemma_eval_frame_weight, lemma_tick_ok, reify, run_frames, run_frames_ok, stack_weight,
    PlayerModel, StateModel,
};
use crate::sequence::{BeginStep, CombatStep, EndStep, Phase, Sequence, SequenceFrame, UntapEvent};
use vstd::prelude::*;

verus! {

pub type PlayerId = usize;

pub type PermanentId = ();

pub struct State {
    /// Global list of card definitions.
    pub card_defs: Vec<CardDef>,
    /// State data for all players.
    pub players: Vec<Player>,
    /// The player whose turn is current in progress.
    pub current_player: PlayerId,
    /// The phase of the current turn.
    pub current_phase: Phase,
    /// The state of the in-game stack (not to be confused with internal stack,
    /// which is different).
    pub game_stack: Vec<()>,
    /// Internal state stack, which is, confusingly, different from the in-game stack.
    pub state_stack: Vec<StackFrame>,
    /// Queue of pending actions, listed in reverse order.
    ///
    /// Last item is the next action to process, so we can `pop` elements to
    /// process them in order.
    pub actions: Vec<PendingAction>,
}

/// The players as values.
pub open spec fn player_views(players: Seq<Player>) -> Seq<PlayerModel> {
    players.map_values(|p: Player| p@)
}

impl View for State {
    type V = StateModel;

    open spec fn view(&self) -> StateModel {
        StateModel {
            card_defs: self.card_defs@,
            players: player_views(self.players@),
            current_player: self.current_player,
            current_phase: self.current_phase,
            game_stack: self.game_stack@,
            state_stack: self.state_stack@,
            actions: self.actions@,
        }
    }
}

/// The position of the first card in `hand` with identifier `cid`.
fn find_card(hand: &Vec<Card>, cid: CardId) -> (pos: Option<usize>)
    ensures
        match pos {
            Some(i) => is_first_card_index(hand@, cid, i as int),
            None => !holds_card(hand@, cid),
        },
{
    let n = hand.len();
    let mut i: usize = 0;
    while i < n
        invariant
            n == hand@.len(),
            i <= n,
            forall|j: int| 0 <= j < i ==> hand@[j].id != cid,
        decreases n - i,
    {
        if hand[i].id.0 == cid.0 {
            return Some(i);
        }
        i = i + 1;
    }
    None
}

/// Makes cards of the definitions `dids`, in order, with identifiers from
/// `builder`.
fn reify_cards(builder: &mut CardsBuilder, dids: &Vec<CardDefId>) -> (cards: Vec<Card>)
    requires
        old(builder).next_id + dids@.len() <= u32::MAX,
    ensures
        cards@ == reify(dids@, old(builder).next_id as nat),
        final(builder).next_id == old(builder).next_id + dids@.len(),
{
    let n = dids.len();
    let mut cards: Vec<Card> = Vec::new();
    let mut k: usize = 0;
    while k < n
        invariant
            n == dids@.len(),
            k <= n,
            builder.next_id == old(builder).next_id + k,
            old(builder).next_id + n <= u32::MAX,
            cards@ == reify(dids@.take(k as int), old(builder).next_id as nat),
        decreases n - k,
    {
        let card = builder.next(dids[k]);
        cards.push(card);
        k = k + 1;
        assert(cards@ =~= reify(dids@.take(k as int), old(builder).next_id as nat));
    }
    assert(dids@.take(n as int) =~= dids@);
    cards
}

impl State {
    /// Starts a game: each player's library and hand are made into cards with
    /// identifiers numbered consecutively from 0, player after player, library
    /// before hand. The last player is current, so that the first tick hands
    /// the turn to the first player.
    pub fn new(players: Vec<PlayerConfig>) -> (state: Self)
        requires
            players@.len() >= 1,
            cards_before(players@, players@.len() as int) <= u32::MAX,
        ensures
            is_card_catalogue(state.card_defs@),
            state@.players == initial_players(players@),
            state.current_player == players@.len() - 1,
            state.current_phase == Phase::Begin,
            state.game_stack@.len() == 0,
            state.state_stack@.len() == 0,
            state.actions@.len() == 0,
            state@.is_consistent(),
    {
        let n = players.len();
        let current_player = n - 1;
        let card_defs = summon_cards_into_existence();
        let mut builder = CardsBuilder::default();
        let mut reified: Vec<Player> = Vec::new();
        let mut i: usize = 0;
        while i < n
            invariant
                n == players@.len(),
                i <= n,
                builder.next_id == cards_before(players@, i as int),
                cards_before(players@, n as int) <= u32::MAX,
                reified@.len() == i,
                player_views(reified@) == initial_players(players@).take(i as int),
            decreases n - i,
        {
            proof {
                lemma_cards_before_monotonic(players@, i + 1, n as int);
            }
            let library = reify_cards(&mut builder, &players[i].library);
            let hand = reify_cards(&mut builder, &players[i].hand);
            let mut player = Player::default();
            player.library = library;
            player.hand = hand;
            assert(player@.library == initial_player(players@[i as int], cards_before(players@, i as int)).library);
            assert(player@.hand == initial_player(players@[i as int], cards_before(players@, i as int)).hand);
            assert(player@ == initial_player(players@[i as int], cards_before(players@, i as int)));
            let ghost prev = reified@;
            reified.push(player);
            i = i + 1;
            assert forall|k: int| 0 <= k < i implies #[trigger] player_views(reified@)[k]
                == initial_players(players@).take(i as int)[k] by {
                if k < i - 1 {
                    assert(reified@[k] == prev[k]);
                    assert(player_views(prev)[k] == initial_players(players@).take(i - 1)[k]);
                }
            }
            assert(player_views(reified@) =~= initial_players(players@).take(i as int));
        }
        assert(initial_players(players@).take(n as int) =~= initial_players(players@));
        State {
            card_defs,
            players: reified,
            current_player,
            current_phase: Phase::Begin,
            state_stack: Vec::new(),
            actions: Vec::new(),
            game_stack: Vec::new(),
        }
    }

    /// Advances the game: performs the next pending action, then evaluates
    /// frames of the state stack until one reports an event, starting the next
    /// player's turn when the stack runs empty.
    pub fn tick(&mut self) -> (event: TickEvent)
        requires
            old(self)@.tick_ok(),
        ensures
            (final(self)@, event) == old(self)@.tick_model(),
    {
        let ghost pre = self@;
        if let Some(PendingAction { player: pid, action }) = self.actions.pop() {
            match action {
                PlayerAction::PlayLand(card_id) => {
                    proof {
                        lemma_card_index(pre.players[pid as int].hand, card_id);
                    }
                    let found = find_card(&self.players[pid].hand, card_id);
                    let card_index = found.unwrap();
                    proof {
                        lemma_card_index_unique(pre.players[pid as int].hand, card_id, card_index as int);
                    }
                    let card = self.players[pid].hand.remove(card_index);
                    self.players[pid].battlefield.push(card);
                    proof {
                        let pm = pre.players[pid as int];
                        let post = PlayerModel {
                            hand: pm.hand.remove(card_index as int),
                            battlefield: pm.battlefield.push(pm.hand[card_index as int]),
                            ..pm
                        };
                        assert(player_views(self.players@) =~= pre.players.update(
                            pid as int,
                            post,
                        ));
                    }
                    return TickEvent::PlayCard(pid, card_id);
                },
                PlayerAction::PassPriority => {
                    let len = self.state_stack.len();
                    let top = self.state_stack[len - 1];
                    if let StackFrame::Priority(priority) = top {
                        let active = priority.active;
                        let n = self.players.len();
                        assert(n == pre.players.len());
                        let next = (active + 1) % n;
                        let done = match priority.last_actor {
                            Some(a) => a == next,
                            None => false,
                        };
                        if done {
                            self.state_stack.pop();
                        } else {
                            let last = match priority.last_actor {
                                Some(a) => a,
                                None => active,
                            };
                            self.state_stack[len - 1] = StackFrame::Priority(
                                Priority { active: next, last_actor: Some(last) },
                            );
                        }
                    }
                    proof {
                        let s0 = StateModel { actions: pre.actions.drop_last(), ..pre };
                        assert(self@.state_stack =~= s0.pass_priority().state_stack);
                    }
                },
            }
        }
        let ghost goal = run_frames(self@);
        loop
            invariant
                run_frames_ok(self@),
                run_frames(self@) == goal,
                pre.tick_model() == goal,
                pre == old(self)@,
            decreases stack_weight(self@.state_stack),
        {
            let ghost before = self@;
            match self.state_stack.pop() {
                None => {
                    let n = self.players.len();
                    assert(n == self@.players.len());
                    let next = (self.current_player + 1) % n;
                    self.current_player = next;
                    self.push_sequence::<Phase>();
                    return TickEvent::BeginTurn(next);
                },
                Some(frame) => {
                    proof {
                        lemma_eval_frame_weight(frame, before.pop_frame());
                    }
                    let event = frame.eval(self);
                    if let Some(e) = event {
                        return e;
                    }
                },
            }
        }
    }

    /// Whether the state is well formed (there are players and the current
    /// player is one of them) and the next pending action, if any, may be
    /// performed. Then `tick` may be called.
    pub fn can_tick(&self) -> (b: bool)
        ensures
            b == (self@.wf() && self@.next_action_ok()),
            b ==> self@.tick_ok(),
    {
        let n = self.players.len();
        assert(n == self@.players.len());
        if n == 0 || self.current_player >= n {
            return false;
        }
        proof {
            if self@.next_action_ok() {
                lemma_tick_ok(self@);
            }
        }
        let len = self.actions.len();
        if len == 0 {
            return true;
        }
        let pa = self.actions[len - 1];
        let pid = pa.player;
        if pid >= n {
            return false;
        }
        let depth = self.state_stack.len();
        let has_priority = if depth == 0 {
            false
        } else {
            match self.state_stack[depth - 1] {
                StackFrame::Priority(p) => p.active == pid,
                _ => false,
            }
        };
        match pa.action {
            PlayerAction::PassPriority => has_priority,
            PlayerAction::PlayLand(cid) => {
                let ghost hand = self@.players[pid as int].hand;
                match find_card(&self.players[pid].hand, cid) {
                    None => false,
                    Some(i) => {
                        proof {
                            lemma_card_index_unique(hand, cid, i as int);
                        }
                        let did = self.players[pid].hand[i].def;
                        did.0 < self.card_defs.len() && self.card_defs[did.0].is_land()
                            && self.current_player == pid && self.current_phase.is_main()
                            && has_priority && self.game_stack.len() == 0
                    },
                }
            },
        }
    }

    /// Enqueues a player action to be processed at the next `tick`, behind
    /// all actions already pending.
    pub fn input(&mut self, player: PlayerId, action: PlayerAction) -> (r: Result<(), ()>)
        ensures
            final(self)@ == (StateModel {
                actions: seq![PendingAction { player, action }] + old(self)@.actions,
                ..old(self)@
            }),
            r == Ok::<(), ()>(()),
    {
        self.actions.insert(0, PendingAction { player, action });
        proof {
            assert(seq![PendingAction { player, action }] + old(self)@.actions =~= old(self)@.actions.insert(
                0,
                PendingAction { player, action },
            ));
        }
        Ok(())
    }

    /// Pushes a frame on top of the internal state stack.
    pub fn push(&mut self, frame: StackFrame)
        ensures
            final(self)@ == old(self)@.push_frame(frame),
    {
        self.state_stack.push(frame);
    }

    /// Pushes the first step of the sequence `T`, about to begin.
    pub fn push_sequence<T: Sequence>(&mut self)
        ensures
            final(self)@ == old(self)@.push_frame(T::spec_frame(SequenceFrame::<T>::spec_begin())),
    {
        let frame = T::frame(SequenceFrame::<T>::begin());
        self.push(frame);
    }
}

#[derive(Debug, Clone, Copy)]
pub enum StackFrame {
    Phase(SequenceFrame<Phase>),
    BeginStep(SequenceFrame<BeginStep>),
    UntapEvent(SequenceFrame<UntapEvent>),
    CombatStep(SequenceFrame<CombatStep>),
    EndStep(SequenceFrame<EndStep>),
    MainPhase(MainPhase),
    Priority(Priority),
}

impl StackFrame {
    /// Evaluates this frame, which has just been popped off the state stack.
    pub fn eval(&self, state: &mut State) -> (event: Option<TickEvent>)
        requires
            frame_ok(*self, old(state)@),
        ensures
            (final(state)@, event) == eval_frame(*self, old(state)@),
    {
        match self {
            StackFrame::Phase(frame) => frame.eval(state),
            StackFrame::BeginStep(frame) => frame.eval(state),
            StackFrame::UntapEvent(frame) => frame.eval(state),
            StackFrame::MainPhase(frame) => frame.eval(state),
            StackFrame::CombatStep(frame) => frame.eval(state),
            StackFrame::EndStep(frame) => frame.eval(state),
            StackFrame::Priority(frame) => frame.eval(state),
        }
    }
}

#[derive(Debug, Clone, Copy)]
pub struct MainPhase;

impl MainPhase {
    /// A main phase gives the current player priority.
    pub fn eval(&self, state: &mut State) -> (event: Option<TickEvent>)
        ensures
            final(state)@ == old(state)@.push_frame(
                StackFrame::Priority(Priority { active: old(state).current_player, last_actor: None }),
            ),
            event == None::<TickEvent>,
    {
        let active = state.current_player;
        state.push(StackFrame::Priority(Priority { active, last_actor: None }));
        None
    }
}

#[derive(Debug, Clone, Copy, PartialEq, Eq, Structural)]
pub enum TickEvent {
    /// A player has gained priority.
    Priority(PlayerId),
    /// All players have passed priority and the priority rotation has ended.
    EndPriority,
    BeginTurn(PlayerId),
    EndTurn(PlayerId),
    BeginPhase(Phase),
    EndPhase(Phase),
    BeginBeginStep(BeginStep),
    EndBeginStep(BeginStep),
    SelectUntap,
    Untap,
    Draw(CardId),
    CombatStep(CombatStep),
    EndStep(EndStep),
    /// A card entered the battlefield.
    PlayCard(PlayerId, CardId),
    /// A player had to draw from an empty library and loses the game.
    LoseGame(PlayerId),
}

impl TickEvent {
    /// Whether the game now waits for a player's input: a player holds
    /// priority.
    pub fn awaits_input(&self) -> (b: bool)
        ensures
            b == (*self is Priority),
    {
        matches!(self, TickEvent::Priority(_))
    }
}

#[derive(Debug, Clone, Copy, PartialEq, Eq, Structural)]
pub struct Priority {
    pub active: PlayerId,
    pub last_actor: Option<PlayerId>,
}

impl Priority {
    /// Nothing happens on tick: the frame stays in place until a player passes
    /// priority or otherwise acts.
    pub fn eval(&self, state: &mut State) -> (event: Option<TickEvent>)
        ensures
            final(state)@ == old(state)@.push_frame(StackFrame::Priority(*self)),
            event == Some(TickEvent::Priority(self.active)),
    {
        state.push(StackFrame::Priority(*self));
        Some(TickEvent::Priority(self.active))
    }
}

pub struct Player {
    /// Cards in the player's library, listed from bottom to top.
    pub library: Vec<Card>,
    pub hand: Vec<Card>,
    pub battlefield: Vec<Card>,
    pub graveyard: Vec<Card>,
    pub exile: (),
    pub command: Vec<Card>,
}

impl View for Player {
    type V = PlayerModel;

    open spec fn view(&self) -> PlayerModel {
        PlayerModel {
            library: self.library@,
            hand: self.hand@,
            battlefield: self.battlefield@,
            graveyard: self.graveyard@,
            command: self.command@,
        }
    }
}

impl Default for Player {
    fn default() -> (p: Self)
        ensures
            p@ == PlayerModel::empty(),
    {
        Player {
            library: Vec::new(),
            hand: Vec::new(),
            battlefield: Vec::new(),
            graveyard: Vec::new(),
            exile: (),
            command: Vec::new(),
        }
    }
}

pub struct PlayerConfig {
    pub library: Vec<CardDefId>,
    pub hand: Vec<CardDefId>,
}

impl Default for PlayerConfig {
    fn default() -> (c: Self)
        ensures
            c.library@.len() == 0,
            c.hand@.len() == 0,
    {
        PlayerConfig { library: Vec::new(), hand: Vec::new() }
    }
}

#[derive(Debug, Clone, Copy, PartialEq, Eq, Structural)]
pub enum PlayerAction {
    PassPriority,
    PlayLand(CardId),
}

#[derive(Debug, Clone, Copy, PartialEq, Eq, Structural)]
pub struct PendingAction {
    pub player: PlayerId,
    pub action: PlayerAction,
}

} // verus!
