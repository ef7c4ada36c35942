//! Cards: their definitions, the identifiers of cards in play, and the
//! bookkeeping that ties each card in play to its definition.

use std::collections::HashMap;
use vstd::prelude::*;

pub use crate::cards::summon_cards_into_existence;

verus! {

broadcast use vstd::std_specs::hash::group_hash_axioms;

/// Hands out fresh card identifiers and remembers, for each one, which
/// definition it was made from. The map is keyed by the identifier's number.
pub struct CardsBuilder {
    pub next_id: u32,
    pub lookup: HashMap<u32, CardDefId>,
}

/// `lookup` records exactly the identifiers below `next_id`: its keys are
/// the numbers `0 .. next_id`, so it holds `next_id` entries.
pub open spec fn records_ids_below(lookup: Map<u32, CardDefId>, next_id: u32) -> bool {
    &&& lookup.dom().finite()
    &&& lookup.dom().len() == next_id
    &&& forall|k: u32| lookup.contains_key(k) <==> k < next_id
}

impl CardsBuilder {
    /// Every identifier handed out so far, and no other, has its definition
    /// recorded.
    pub open spec fn wf(self) -> bool {
        records_ids_below(self.lookup@, self.next_id)
    }
}

impl Default for CardsBuilder {
    fn default() -> (b: Self)
        ensures
            b.next_id == 0,
            b.lookup@ == Map::<u32, CardDefId>::empty(),
            b.wf(),
    {
        CardsBuilder { next_id: 0, lookup: HashMap::new() }
    }
}

impl CardsBuilder {
    /// Makes a new card of definition `did` under the next unused identifier,
    /// and records that identifier's definition.
    pub fn next(&mut self, did: CardDefId) -> (card: Card)
        requires
            old(self).next_id < u32::MAX,
        ensures
            card == (Card { id: CardId(old(self).next_id), def: did }),
            final(self).next_id == old(self).next_id + 1,
            final(self).lookup@ == old(self).lookup@.insert(old(self).next_id, did),
            old(self).wf() ==> final(self).wf() && !old(self).lookup@.contains_key(card.id.0),
    {
        proof {
            if self.wf() {
                crate::laws::builder_records_every_card(self.lookup@, self.next_id, did);
            }
        }
        let id = CardId(self.next_id);
        self.next_id = self.next_id + 1;
        self.lookup.insert(id.0, did);
        Card { id, def: did }
    }
}

/// The global list of card definitions, together with the definition of each
/// card in play (keyed by the number of its identifier).
pub struct Cards {
    /// Global list of card definitions.
    pub card_defs: Vec<CardDef>,
    pub card_def_lookup: HashMap<u32, CardDefId>,
}

impl Cards {
    /// Takes over the identifiers recorded by `builder`, with a fresh list of
    /// card definitions.
    pub fn new(builder: CardsBuilder) -> (cards: Self)
        ensures
            is_card_catalogue(cards.card_defs@),
            cards.card_def_lookup@ == builder.lookup@,
    {
        Cards { card_defs: summon_cards_into_existence(), card_def_lookup: builder.lookup }
    }

    /// Replaces the card definitions with a fresh list; the identifiers stay.
    pub fn reload_card_defs(&mut self)
        ensures
            is_card_catalogue(final(self).card_defs@),
            final(self).card_def_lookup@ == old(self).card_def_lookup@,
    {
        self.card_defs = summon_cards_into_existence();
    }

    /// The definition of the card in play with identifier `cid`.
    pub fn def_for(&self, cid: CardId) -> (def: &CardDef)
        requires
            self.card_def_lookup@.contains_key(cid.0),
            self.card_def_lookup@[cid.0].0 < self.card_defs@.len(),
        ensures
            *def == self.card_defs@[self.card_def_lookup@[cid.0].0 as int],
    {
        let did = *self.card_def_lookup.get(&cid.0).unwrap();
        &self.card_defs[did.0]
    }
}

/// Like the info that appears on the card, the info about the card used in the game.
#[derive(Debug)]
pub struct CardDef {
    pub name: String,
    pub cost: Vec<ManaCost>,
    pub types: Vec<CardType>,
    /// Some cards have an additional color indicator, separate from their mana
    /// colors. These are generally cards with no mana cost or only colorless
    /// mana cost.
    pub color_indicator: Vec<Color>,
    pub activated_abilities: ActivatedAbility,
}

/// Whether `def` has the type land.
pub open spec fn is_land(def: CardDef) -> bool {
    exists|i: int| 0 <= i < def.types@.len() && def.types@[i] is Land
}

impl CardDef {
    /// Whether one of the card's types is land.
    pub fn is_land(&self) -> (b: bool)
        ensures
            b == is_land(*self),
    {
        let n = self.types.len();
        let mut i: usize = 0;
        while i < n
            invariant
                n == self.types@.len(),
                i <= n,
                forall|j: int| 0 <= j < i ==> !(self.types@[j] is Land),
            decreases n - i,
        {
            if let CardType::Land = self.types[i] {
                return true;
            }
            i = i + 1;
        }
        false
    }
}

/// Just the index of the card definition within the global card definition list.
#[derive(Debug, Clone, Copy, PartialEq, Eq, Structural, Hash)]
pub struct CardDefId(pub usize);

/// Unique identifier for a card in play.
#[derive(Debug, Clone, Copy, PartialEq, Eq, Structural, Hash)]
pub struct CardId(pub u32);

/// A card as it appears in like the library or the hand.
///
/// Does not implement [`Clone`] so that we can use ownership to model the
/// uniqueness of each card, ensuring we never accidentally duplicate the card.
#[derive(Debug)]
pub struct Card {
    pub id: CardId,
    pub def: CardDefId,
}

impl Card {
    pub fn id(&self) -> (id: CardId)
        ensures
            id == self.id,
    {
        self.id
    }

    /// Index of the card's definition in the global definition list.
    pub fn def(&self) -> (def: CardDefId)
        ensures
            def == self.def,
    {
        self.def
    }
}

#[derive(Debug, PartialEq, Eq)]
pub enum CardType {
    Land,
    Creature { subtypes: Vec<String> },
    Sorcery,
    Artifact,
    Enchantment,
}

#[derive(Debug, Clone, Copy, PartialEq, Eq, Structural)]
pub enum ManaCost {
    /// No mana cost, generally means the card can't be played normally.
    ///
    /// CR: 202.1b Some objects have no mana cost, e.g. lands.
    Nonexistent,
    /// A fixed number of mana of a specified color.
    Fixed { color: ColorCost, quantity: u8 },
    /// A variable amount of mana based on a query of the game state.
    Query,
    /// A variable amount of mana based on some user choice.
    Input,
}

/// CR 202.2a The five colors.
/// CR 202.2b Colorless mana.
#[derive(Debug, Clone, Copy, PartialEq, Eq, Structural)]
pub enum Color {
    White,
    Blue,
    Black,
    Red,
    Green,
    Colorless,
}

#[derive(Debug, Clone, Copy, PartialEq, Eq, Structural)]
pub enum ColorCost {
    Single(Color),
    Hybrid(Color, Color),
    Phyrexian(Color),
    Snow,
}

#[derive(Debug)]
pub struct ActivatedAbility {
    pub cost: Vec<AbilityCost>,
    pub effect: AbilityEffect,
}

#[derive(Debug, Clone, Copy, PartialEq, Eq, Structural)]
pub enum AbilityCost {
    Mana(ManaCost),
    Tap(TargetCost),
}

#[derive(Debug, Clone, Copy, PartialEq, Eq, Structural)]
pub enum TargetCost {
    TargetSelf,
}

#[derive(Debug, Clone, Copy, PartialEq, Eq, Structural)]
pub enum AbilityEffect {
    GetMana { color: Color, quantity: u8 },
}

/// The definition of the basic land Mountain: no mana cost, type land, no
/// color indicator, and "tap: add one red mana".
pub open spec fn is_mountain(def: CardDef) -> bool {
    &&& def.name@ == "Mountain"@
    &&& def.cost@ == seq![ManaCost::Nonexistent]
    &&& def.types@ == seq![CardType::Land]
    &&& def.color_indicator@ == Seq::<Color>::empty()
    &&& def.activated_abilities.cost@ == seq![AbilityCost::Tap(TargetCost::TargetSelf)]
    &&& def.activated_abilities.effect == (AbilityEffect::GetMana { color: Color::Red, quantity: 1 })
}

/// The global list of card definitions: Mountain, at index 0.
pub open spec fn is_card_catalogue(defs: Seq<CardDef>) -> bool {
    defs.len() == 1 && is_mountain(defs[0])
}

} // verus!
