use lor_engine::cards::code2card;
use lor_engine::{Card, CardIndex, Error, Player};

fn bannermen(n: usize) -> Vec<Card> {
    let mut deck = Vec::new();
    for _ in 0..n {
        deck.push(code2card("01DE001").unwrap());
    }
    deck
}

fn slot(player: usize, card: usize) -> CardIndex {
    CardIndex::new(player, card)
}

#[test]
fn it_works() {
    assert_eq!(2 + 2, 4);
}

#[test]
fn card_index_keeps_its_parts() {
    let r = CardIndex::new(1, 7);
    assert_eq!(r.player_index(), 1);
    assert_eq!(r.card_index(), 7);
    assert_eq!(r, slot(1, 7));
    assert_ne!(r, slot(0, 7));
    assert_eq!(CardIndex::default(), slot(0, 0));
}

#[test]
fn fresh_player_has_every_card_on_the_stack() {
    let p = Player::from_cards(0, bannermen(3));
    assert_eq!(p.index(), 0);
    assert_eq!(p.deck().len(), 3);
    assert_eq!(p.stack_len(), 3);
    assert_eq!(p.stack_top(), Some(slot(0, 0)));
    assert!(p.hands().is_empty());
    assert!(p.summons().is_empty());
    assert!(p.graveyard().is_empty());
    assert_eq!(p.mana(), 0);
    assert_eq!(p.mana_cap(), i32::MAX);
    assert_eq!(p.spell_mana(), 0);
}

#[test]
fn default_player_is_empty() {
    let p = Player::default();
    assert_eq!(p.index(), 0);
    assert!(p.deck().is_empty());
    assert_eq!(p.stack_top(), None);
    assert_eq!(p.stack_len(), 0);
}

#[test]
fn draw_takes_the_slots_in_deck_order() {
    let mut p = Player::from_cards(1, bannermen(3));
    assert_eq!(p.draw(), Ok(slot(1, 0)));
    assert_eq!(p.draw(), Ok(slot(1, 1)));
    assert_eq!(p.hands(), &vec![slot(1, 0), slot(1, 1)]);
    assert_eq!(p.stack_top(), Some(slot(1, 2)));
    assert_eq!(p.stack_len(), 1);
}

#[test]
fn draw_from_empty_stack_leaves_the_hand() {
    let mut p = Player::from_cards(0, bannermen(1));
    assert_eq!(p.draw(), Ok(slot(0, 0)));
    let hand_before = p.hands().clone();
    assert_eq!(p.draw(), Err(Error::NoCardsInStack));
    assert_eq!(p.hands(), &hand_before);
    assert_eq!(p.hands(), &vec![slot(0, 0)]);
    assert_eq!(p.stack_len(), 0);
    assert!(p.summons().is_empty());
    assert!(p.graveyard().is_empty());
}

#[test]
fn summon_moves_the_card_and_takes_its_cost() {
    let mut p = Player::from_cards(0, bannermen(2));
    p.draw().unwrap();
    p.draw().unwrap();
    p.charge_mana(5).unwrap();
    assert_eq!(p.summon(slot(0, 0)), Ok(()));
    assert_eq!(p.mana(), 1);
    assert_eq!(p.hands(), &vec![slot(0, 1)]);
    assert_eq!(p.summons(), &vec![slot(0, 0)]);
    assert!(p.in_play(slot(0, 0)));
    assert!(!p.in_hand(slot(0, 0)));
    assert!(p.in_hand(slot(0, 1)));
}

#[test]
fn summon_with_too_little_mana_changes_nothing() {
    let mut p = Player::from_cards(0, bannermen(1));
    p.draw().unwrap();
    p.charge_mana(2).unwrap();
    assert_eq!(p.card(slot(0, 0)).cost, 4);
    assert_eq!(p.summon(slot(0, 0)), Err(Error::NotEnoughMana));
    assert_eq!(p.mana(), 2);
    assert_eq!(p.hands(), &vec![slot(0, 0)]);
    assert!(p.summons().is_empty());
}

#[test]
fn summon_of_a_card_not_in_hand_changes_nothing() {
    let mut p = Player::from_cards(0, bannermen(2));
    p.draw().unwrap();
    p.charge_mana(10).unwrap();
    assert_eq!(
        p.summon(slot(0, 1)),
        Err(Error::CardIndexNotFoundInHands(slot(0, 1)))
    );
    assert_eq!(
        p.summon(slot(1, 0)),
        Err(Error::CardIndexNotFoundInHands(slot(1, 0)))
    );
    assert_eq!(p.mana(), 10);
    assert_eq!(p.hands(), &vec![slot(0, 0)]);
    assert!(p.summons().is_empty());
    assert_eq!(p.stack_len(), 1);
}

#[test]
fn missing_hand_card_comes_before_missing_mana() {
    let mut p = Player::from_cards(0, bannermen(1));
    assert_eq!(
        p.summon(slot(0, 0)),
        Err(Error::CardIndexNotFoundInHands(slot(0, 0)))
    );
}

#[test]
fn summon_keeps_the_order_of_the_rest_of_the_hand() {
    let mut p = Player::from_cards(0, bannermen(3));
    p.draw().unwrap();
    p.draw().unwrap();
    p.draw().unwrap();
    p.charge_mana(4).unwrap();
    p.summon(slot(0, 1)).unwrap();
    assert_eq!(p.hands(), &vec![slot(0, 0), slot(0, 2)]);
    assert_eq!(p.summons(), &vec![slot(0, 1)]);
}

#[test]
fn kill_moves_the_card_to_the_graveyard() {
    let mut p = Player::from_cards(0, bannermen(2));
    p.draw().unwrap();
    p.draw().unwrap();
    p.charge_mana(8).unwrap();
    p.summon(slot(0, 0)).unwrap();
    p.summon(slot(0, 1)).unwrap();
    assert_eq!(p.kill(slot(0, 0)), Ok(()));
    assert_eq!(p.summons(), &vec![slot(0, 1)]);
    assert_eq!(p.graveyard(), &vec![slot(0, 0)]);
    assert_eq!(p.mana(), 0);
}

#[test]
fn kill_of_a_card_not_in_play_changes_nothing() {
    let mut p = Player::from_cards(0, bannermen(1));
    p.draw().unwrap();
    assert_eq!(
        p.kill(slot(0, 0)),
        Err(Error::CardIndexNotFoundInSummons(slot(0, 0)))
    );
    assert_eq!(p.hands(), &vec![slot(0, 0)]);
    assert!(p.summons().is_empty());
    assert!(p.graveyard().is_empty());
}

#[test]
fn killed_card_cannot_be_killed_or_summoned_again() {
    let mut p = Player::from_cards(0, bannermen(1));
    p.draw().unwrap();
    p.charge_mana(8).unwrap();
    p.summon(slot(0, 0)).unwrap();
    p.kill(slot(0, 0)).unwrap();
    assert_eq!(
        p.kill(slot(0, 0)),
        Err(Error::CardIndexNotFoundInSummons(slot(0, 0)))
    );
    assert_eq!(
        p.summon(slot(0, 0)),
        Err(Error::CardIndexNotFoundInHands(slot(0, 0)))
    );
    assert_eq!(p.mana(), 4);
}

#[test]
fn charge_and_consume_mana() {
    let mut p = Player::from_cards(0, bannermen(0));
    assert_eq!(p.charge_mana(7), Ok(()));
    assert_eq!(p.mana(), 7);
    assert_eq!(p.consume_mana(3), Ok(()));
    assert_eq!(p.mana(), 4);
    assert_eq!(p.consume_mana(5), Err(Error::NotEnoughMana));
    assert_eq!(p.mana(), 4);
    assert_eq!(p.consume_mana(4), Ok(()));
    assert_eq!(p.mana(), 0);
}

#[test]
fn mana_pool_stays_between_zero_and_its_cap() {
    let mut p = Player::from_cards(0, bannermen(0));
    assert_eq!(p.set_mana_cap(10), Ok(()));
    assert_eq!(p.mana_cap(), 10);
    assert_eq!(p.charge_mana(10), Ok(()));
    assert_eq!(p.charge_mana(1), Err(Error::ManaOverFlow));
    assert_eq!(p.mana(), 10);
    assert_eq!(p.consume_mana(-1), Err(Error::ManaOverFlow));
    assert_eq!(p.mana(), 10);
    assert_eq!(p.charge_mana(-11), Err(Error::NotEnoughMana));
    assert_eq!(p.mana(), 10);
    assert_eq!(p.charge_mana(-4), Ok(()));
    assert_eq!(p.mana(), 6);
    assert_eq!(p.consume_mana(-4), Ok(()));
    assert_eq!(p.mana(), 10);
    assert_eq!(p.set_mana_cap(9), Err(Error::ManaOverFlow));
    assert_eq!(p.mana_cap(), 10);
    assert_eq!(p.set_mana_cap(-1), Err(Error::ManaOverFlow));
}

#[test]
fn uncapped_pool_overflows_at_the_machine_limit() {
    let mut p = Player::from_cards(0, bannermen(0));
    assert_eq!(p.charge_mana(i32::MAX), Ok(()));
    assert_eq!(p.charge_mana(1), Err(Error::ManaOverFlow));
    assert_eq!(p.mana(), i32::MAX);
    assert_eq!(p.consume_mana(i32::MIN), Err(Error::ManaOverFlow));
    assert_eq!(p.mana(), i32::MAX);
}

#[test]
fn every_card_is_in_one_zone_only() {
    let mut p = Player::from_cards(0, bannermen(4));
    p.charge_mana(8).unwrap();
    p.draw().unwrap();
    p.draw().unwrap();
    p.draw().unwrap();
    p.summon(slot(0, 0)).unwrap();
    p.summon(slot(0, 1)).unwrap();
    p.kill(slot(0, 0)).unwrap();
    for i in 0..4 {
        let r = slot(0, i);
        let mut zones = 0;
        if p.stack_top() == Some(r) {
            zones += 1;
        }
        zones += p.hands().iter().filter(|x| **x == r).count();
        zones += p.summons().iter().filter(|x| **x == r).count();
        zones += p.graveyard().iter().filter(|x| **x == r).count();
        assert_eq!(zones, 1);
    }
    assert_eq!(p.graveyard(), &vec![slot(0, 0)]);
    assert_eq!(p.summons(), &vec![slot(0, 1)]);
    assert_eq!(p.hands(), &vec![slot(0, 2)]);
    assert_eq!(p.stack_top(), Some(slot(0, 3)));
}
