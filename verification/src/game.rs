//! Setting up the standard game, and turning a command-line action into a
//! player action.

use crate::card::{is_card_catalogue, Card, CardDefId, CardId};
use crate::model::{cards_before, PlayerModel};
use crate::sequence::Phase;
use crate::state::{PlayerAction, PlayerConfig, State};
use vstd::prelude::*;

verus! {

/// A library of five copies of the first card definition.
fn library() -> (dids: Vec<CardDefId>)
    ensures
        dids@ == Seq::new(5, |k: int| CardDefId(0)),
{
    let dids = vec![CardDefId(0), CardDefId(0), CardDefId(0), CardDefId(0), CardDefId(0)];
    assert(dids@ =~= Seq::new(5, |k: int| CardDefId(0)));
    dids
}

/// Player `i` of the standard game: five Mountains in the library, numbered
/// from `5 * i`, and nothing anywhere else.
pub open spec fn standard_player(i: int) -> PlayerModel {
    PlayerModel {
        library: Seq::new(5, |k: int| Card { id: CardId((5 * i + k) as u32), def: CardDefId(0) }),
        ..PlayerModel::empty()
    }
}

/// The standard game: two players with a library of five Mountains each.
pub fn new_state() -> (state: State)
    ensures
        is_card_catalogue(state.card_defs@),
        state@.players == seq![standard_player(0), standard_player(1)],
        state.current_player == 1,
        state.current_phase == Phase::Begin,
        state.game_stack@.len() == 0,
        state.state_stack@.len() == 0,
        state.actions@.len() == 0,
        state@.is_consistent(),
{
    let first = PlayerConfig { library: library(), hand: Vec::new() };
    let second = PlayerConfig { library: library(), hand: Vec::new() };
    let ghost lib0 = first.library@;
    let ghost lib1 = second.library@;
    let configs = vec![first, second];
    let ghost cfgs = configs@;
    assert(cfgs[0].library@ == lib0 && cfgs[1].library@ == lib1);
    assert(cards_before(cfgs, 0) == 0);
    assert(cards_before(cfgs, 1) == 5);
    assert(cards_before(cfgs, 2) == 10);
    let state = State::new(configs);
    assert(state@.players =~= seq![standard_player(0), standard_player(1)]) by {
        assert(state@.players[0].library =~= standard_player(0).library);
        assert(state@.players[1].library =~= standard_player(1).library);
        assert(state@.players[0].hand =~= standard_player(0).hand);
        assert(state@.players[1].hand =~= standard_player(1).hand);
    }
    state
}

/// An action as named on the command line.
#[derive(Debug, Clone, Copy, PartialEq, Eq, Structural)]
pub enum Action {
    Pass,
    PlayLand,
}

/// Why a command-line action does not make a player action.
#[derive(Debug, Clone, Copy, PartialEq, Eq, Structural)]
pub enum ActionError {
    /// Passing takes no card identifier, and this one was given.
    PassTakesNoCardId(u32),
    /// Playing a land needs the identifier of the card to play.
    PlayLandNeedsCardId,
}

/// Turns a command-line action, with its optional card identifier, into a
/// player action.
pub fn to_player_action(action: Action, card_id: Option<u32>) -> (r: Result<PlayerAction, ActionError>)
    ensures
        r == match (action, card_id) {
            (Action::Pass, None) => Ok(PlayerAction::PassPriority),
            (Action::Pass, Some(id)) => Err(ActionError::PassTakesNoCardId(id)),
            (Action::PlayLand, Some(id)) => Ok(PlayerAction::PlayLand(CardId(id))),
            (Action::PlayLand, None) => Err(ActionError::PlayLandNeedsCardId),
        },
{
    match action {
        Action::Pass => {
            if let Some(card_id) = card_id {
                Err(ActionError::PassTakesNoCardId(card_id))
            } else {
                Ok(PlayerAction::PassPriority)
            }
        },
        Action::PlayLand => match card_id {
            Some(card_id) => Ok(PlayerAction::PlayLand(CardId(card_id))),
            None => Err(ActionError::PlayLandNeedsCardId),
        },
    }
}

/// The character of decimal digit `d`.
pub open spec fn digit_char(d: nat) -> char {
    (48 + d) as char
}

/// The decimal numeral of `n`, without leading zeros.
pub open spec fn decimal(n: nat) -> Seq<char>
    decreases n,
{
    if n < 10 {
        seq![digit_char(n)]
    } else {
        decimal(n / 10).push(digit_char(n % 10))
    }
}

/// The number that a string of decimal digits stands for.
pub open spec fn numeral_value(t: Seq<char>) -> int
    decreases t.len(),
{
    if t.len() == 0 {
        0
    } else {
        numeral_value(t.drop_last()) * 10 + ((t.last() as u32) as int - 48)
    }
}

/// The numeral of `n` is made of decimal digits, begins with a zero only when
/// it is the numeral of zero, and reads back as `n`.
pub proof fn decimal_reads_back(n: nat)
    ensures
        decimal(n).len() > 0,
        forall|i: int| 0 <= i < decimal(n).len() ==> '0' <= #[trigger] decimal(n)[i] <= '9',
        decimal(n)[0] == '0' ==> n == 0,
        numeral_value(decimal(n)) == n,
    decreases n,
{
    let t = decimal(n);
    assert((digit_char(n % 10) as u32) as int == 48 + n % 10);
    assert(numeral_value(t) == numeral_value(t.drop_last()) * 10 + ((t.last() as u32) as int - 48));
    if n >= 10 {
        decimal_reads_back(n / 10);
        assert(t.drop_last() =~= decimal(n / 10));
        assert(t.last() == digit_char(n % 10));
        assert(numeral_value(decimal(n / 10)) * 10 + n % 10 == n);
        assert(decimal(n / 10)[0] == t[0]);
        assert(forall|i: int| 0 <= i < decimal(n / 10).len() ==> t[i] == decimal(n / 10)[i]);
    } else {
        assert(t.drop_last() =~= Seq::<char>::empty());
    }
}

/// The text of decimal digit `d`.
fn digit_str(d: u32) -> (s: &'static str)
    requires
        d < 10,
    ensures
        s@ == seq![digit_char(d as nat)],
{
    match d {
        0 => {
            proof {
                reveal_strlit("0");
            }
            "0"
        },
        1 => {
            proof {
                reveal_strlit("1");
            }
            "1"
        },
        2 => {
            proof {
                reveal_strlit("2");
            }
            "2"
        },
        3 => {
            proof {
                reveal_strlit("3");
            }
            "3"
        },
        4 => {
            proof {
                reveal_strlit("4");
            }
            "4"
        },
        5 => {
            proof {
                reveal_strlit("5");
            }
            "5"
        },
        6 => {
            proof {
                reveal_strlit("6");
            }
            "6"
        },
        7 => {
            proof {
                reveal_strlit("7");
            }
            "7"
        },
        8 => {
            proof {
                reveal_strlit("8");
            }
            "8"
        },
        _ => {
            proof {
                reveal_strlit("9");
            }
            "9"
        },
    }
}

/// Appends the decimal numeral of `n` to `text`.
fn push_decimal(text: &mut String, n: u32)
    ensures
        final(text)@ == old(text)@ + decimal(n as nat),
    decreases n,
{
    if n >= 10 {
        push_decimal(text, n / 10);
    }
    text.append(digit_str(n % 10));
    proof {
        if n >= 10 {
            assert(old(text)@ + decimal(n as nat) =~= old(text)@ + decimal((n / 10) as nat) + seq![
                digit_char((n % 10) as nat),
            ]);
        } else {
            assert(n % 10 == n);
        }
    }
}

impl ActionError {
    /// What the error says.
    pub open spec fn spec_message(self) -> Seq<char> {
        match self {
            ActionError::PassTakesNoCardId(id) => "Pass does not take a card ID; got "@ + decimal(
                id as nat,
            ),
            ActionError::PlayLandNeedsCardId => "PlayLand requires a card ID, e.g. `mtg action 1 PlayLand 4`"@,
        }
    }

    /// The message that tells the user what went wrong.
    pub fn message(&self) -> (m: String)
        ensures
            m@ == self.spec_message(),
    {
        match self {
            ActionError::PassTakesNoCardId(id) => {
                let mut m = "Pass does not take a card ID; got ".to_owned();
                push_decimal(&mut m, *id);
                m
            },
            ActionError::PlayLandNeedsCardId => {
                "PlayLand requires a card ID, e.g. `mtg action 1 PlayLand 4`".to_owned()
            },
        }
    }
}

} // verus!
