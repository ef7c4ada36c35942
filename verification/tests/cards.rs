use mtg_engine::card::{
    summon_cards_into_existence, AbilityCost, AbilityEffect, CardDefId, CardId, CardType, Cards,
    CardsBuilder, Color, ManaCost, TargetCost,
};

#[test]
fn catalogue_holds_a_mountain() {
    let defs = summon_cards_into_existence();
    assert_eq!(defs.len(), 1);
    let mountain = &defs[0];
    assert_eq!(mountain.name, "Mountain");
    assert_eq!(mountain.cost, vec![ManaCost::Nonexistent]);
    assert_eq!(mountain.types, vec![CardType::Land]);
    assert!(mountain.color_indicator.is_empty());
    assert_eq!(
        mountain.activated_abilities.cost,
        vec![AbilityCost::Tap(TargetCost::TargetSelf)]
    );
    assert_eq!(
        mountain.activated_abilities.effect,
        AbilityEffect::GetMana { color: Color::Red, quantity: 1 }
    );
    assert!(mountain.is_land());
}

#[test]
fn builder_numbers_cards_and_records_definitions() {
    let mut builder = CardsBuilder::default();
    let first = builder.next(CardDefId(0));
    let second = builder.next(CardDefId(3));
    assert_eq!(first.id(), CardId(0));
    assert_eq!(first.def(), CardDefId(0));
    assert_eq!(second.id(), CardId(1));
    assert_eq!(second.def(), CardDefId(3));
    assert_eq!(builder.next_id, 2);
    assert_eq!(builder.lookup.get(&0), Some(&CardDefId(0)));
    assert_eq!(builder.lookup.get(&1), Some(&CardDefId(3)));
    assert_eq!(builder.lookup.len(), 2);
}

#[test]
fn def_for_gives_back_the_recorded_definition() {
    let mut builder = CardsBuilder::default();
    let first = builder.next(CardDefId(0));
    let second = builder.next(CardDefId(0));
    let cards = Cards::new(builder);
    assert_eq!(cards.card_defs.len(), 1);
    assert_eq!(cards.def_for(first.id()).name, "Mountain");
    assert_eq!(cards.def_for(second.id()).name, "Mountain");
    assert_eq!(cards.card_def_lookup.len(), 2);
}

#[test]
fn reloading_definitions_keeps_identifiers() {
    let mut builder = CardsBuilder::default();
    let card = builder.next(CardDefId(0));
    let mut cards = Cards::new(builder);
    cards.card_defs.clear();
    cards.reload_card_defs();
    assert_eq!(cards.card_defs.len(), 1);
    assert_eq!(cards.card_def_lookup.get(&card.id().0), Some(&CardDefId(0)));
    assert_eq!(cards.def_for(card.id()).name, "Mountain");
}

#[test]
fn creature_type_is_not_land() {
    let mut defs = summon_cards_into_existence();
    defs[0].types = vec![CardType::Creature { subtypes: vec!["Goblin".to_string()] }];
    assert!(!defs[0].is_land());
    defs[0].types.push(CardType::Land);
    assert!(defs[0].is_land());
}
