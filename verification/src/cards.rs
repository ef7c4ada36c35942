//! The card definitions the game knows about.

use crate::card::{
    is_card_catalogue, AbilityCost, AbilityEffect, ActivatedAbility, CardDef, CardType, Color,
    ManaCost, TargetCost,
};
use vstd::prelude::*;

verus! {

/// Builds the global list of card definitions.
pub fn summon_cards_into_existence() -> (defs: Vec<CardDef>)
    ensures
        is_card_catalogue(defs@),
{
    let name = "Mountain".to_owned();
    let mountain = CardDef {
        name,
        cost: vec![ManaCost::Nonexistent],
        types: vec![CardType::Land],
        color_indicator: Vec::new(),
        activated_abilities: ActivatedAbility {
            cost: vec![AbilityCost::Tap(TargetCost::TargetSelf)],
            effect: AbilityEffect::GetMana { color: Color::Red, quantity: 1 },
        },
    };
    let defs = vec![mountain];
    assert(defs@[0].cost@ == seq![ManaCost::Nonexistent]);
    assert(defs@[0].types@ == seq![CardType::Land]);
    assert(defs@[0].activated_abilities.cost@ == seq![AbilityCost::Tap(TargetCost::TargetSelf)]);
    defs
}

} // verus!
