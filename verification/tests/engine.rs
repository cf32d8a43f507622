use lor_engine::cards::code2card;
use lor_engine::game::DEFAULT_RESOLUTION_DEPTH;
use lor_engine::{
    ActiveEffect, Card, CardIndex, Duration, Effect, Error, Event, Expiry, Game, Ledger, Player,
    User,
};
use std::cell::RefCell;

struct Script {
    choices: RefCell<Vec<Option<CardIndex>>>,
}

impl User for Script {
    fn pick(&self, cards: &[CardIndex]) -> CardIndex {
        cards[0]
    }

    fn pick_or_pass(&self, _cards: &[CardIndex]) -> Option<CardIndex> {
        let mut left = self.choices.borrow_mut();
        if left.is_empty() {
            None
        } else {
            left.remove(0)
        }
    }
}

fn script(choices: Vec<Option<CardIndex>>) -> Box<dyn User> {
    Box::new(Script {
        choices: RefCell::new(choices),
    })
}

fn bannermen(n: usize) -> Vec<Card> {
    let mut deck = Vec::new();
    for _ in 0..n {
        deck.push(code2card("01DE001").unwrap());
    }
    deck
}

fn slot(player: usize, card: usize) -> CardIndex {
    CardIndex::new(player, card)
}

fn game_of(first: Player, second: Player) -> Game {
    Game::new(first, second, script(vec![]), script(vec![]))
}

/// Seat 0 has two cards in play and a third in hand, with 4 mana.
fn bannerman_table() -> Game {
    let mut a = Player::from_cards(0, bannermen(4));
    a.charge_mana(8).unwrap();
    a.draw().unwrap();
    a.draw().unwrap();
    a.draw().unwrap();
    a.summon(slot(0, 0)).unwrap();
    a.summon(slot(0, 1)).unwrap();
    a.charge_mana(4).unwrap();
    let b = Player::from_cards(1, bannermen(2));
    game_of(a, b)
}

fn bonus(target: CardIndex, source: CardIndex) -> ActiveEffect {
    ActiveEffect {
        effect: Effect {
            target_card_index: target,
            attack_point: 1,
            defense_point: 1,
            cost: 0,
            keyword: None,
            duration: Duration::CardPlaying(source),
        },
        rounds_left: 0,
    }
}

fn timed(target: CardIndex, attack: i32, rounds: i32) -> Effect {
    Effect {
        target_card_index: target,
        attack_point: attack,
        defense_point: 0,
        cost: 0,
        keyword: None,
        duration: Duration::Turn(rounds),
    }
}

#[test]
fn new_game_starts_idle_in_round_zero() {
    let g = game_of(
        Player::from_cards(0, bannermen(1)),
        Player::from_cards(1, bannermen(1)),
    );
    assert_eq!(g.round(), 0);
    assert_eq!(g.current_seat(), 0);
    assert!(g.pending().is_empty());
    assert_eq!(g.effects().len(), 0);
    assert!(g.traps().is_empty());
    assert_eq!(g.current_turn_player().index(), 0);
    assert_eq!(g.owner(slot(1, 0)).index(), 1);
    assert_eq!(g.card(slot(1, 0)).name, "Vanguard Bannerman");
    assert_eq!(DEFAULT_RESOLUTION_DEPTH, 256);
}

#[test]
fn default_effect_changes_nothing() {
    let e = Effect::default();
    assert_eq!(e.target_card_index, slot(0, 0));
    assert_eq!(e.attack_point, 0);
    assert_eq!(e.defense_point, 0);
    assert_eq!(e.cost, 0);
    assert_eq!(e.keyword, None);
    assert_eq!(e.duration, Duration::Permanent);
}

#[test]
fn bannerman_cascade_with_self_among_allies() {
    let mut g = bannerman_table();
    let bannerman = slot(0, 2);
    assert_eq!(g.consume_event(Event::Summon(bannerman)), Ok(()));
    let a = g.owner(bannerman);
    assert_eq!(a.mana(), 0);
    assert_eq!(a.summons(), &vec![slot(0, 0), slot(0, 1), bannerman]);
    assert!(a.hands().is_empty());
    assert_eq!(
        g.effects().entries(),
        &vec![
            bonus(slot(0, 0), bannerman),
            bonus(slot(0, 1), bannerman),
            bonus(bannerman, bannerman),
        ]
    );
    assert!(g.pending().is_empty());
    assert_eq!(g.attack_of(slot(0, 0)), 4);
    assert_eq!(g.defense_of(slot(0, 0)), 4);
    assert_eq!(g.attack_of(slot(0, 1)), 4);
    assert_eq!(g.attack_of(bannerman), 4);
    assert_eq!(g.defense_of(bannerman), 4);
    assert_eq!(g.attack_of(slot(0, 3)), 3);
    assert_eq!(g.attack_of(slot(1, 0)), 3);
    assert_eq!(g.cost_of(bannerman), 4);
}

#[test]
fn bannerman_cascade_without_self_among_allies() {
    let mut g = bannerman_table();
    g.set_allies_include_self(false);
    let bannerman = slot(0, 2);
    assert_eq!(g.consume_event(Event::Summon(bannerman)), Ok(()));
    assert_eq!(g.owner(bannerman).mana(), 0);
    assert_eq!(
        g.owner(bannerman).summons(),
        &vec![slot(0, 0), slot(0, 1), bannerman]
    );
    assert_eq!(
        g.effects().entries(),
        &vec![bonus(slot(0, 0), bannerman), bonus(slot(0, 1), bannerman)]
    );
    assert_eq!(g.attack_of(slot(0, 0)), 4);
    assert_eq!(g.attack_of(slot(0, 1)), 4);
    assert_eq!(g.attack_of(bannerman), 3);
    assert_eq!(g.defense_of(bannerman), 3);
}

#[test]
fn propagation_queues_one_grant_per_ally() {
    let mut g = bannerman_table();
    let bannerman = slot(0, 2);
    let e = Event::Summon(bannerman);
    assert_eq!(g.apply_event(&e), Ok(()));
    assert!(g.pending().is_empty());
    assert_eq!(g.propagate_event(&e), Ok(()));
    assert_eq!(
        g.pending(),
        &vec![
            Event::Grant(bonus(slot(0, 0), bannerman).effect),
            Event::Grant(bonus(slot(0, 1), bannerman).effect),
            Event::Grant(bonus(bannerman, bannerman).effect),
        ]
    );
    assert_eq!(g.effects().len(), 0);
    assert_eq!(g.resolve(), Ok(()));
    assert!(g.pending().is_empty());
    assert_eq!(g.effects().len(), 3);
}

#[test]
fn card_reacts_to_its_own_summon_only() {
    let mut g = bannerman_table();
    let bannerman = slot(0, 2);
    let card = code2card("01DE001").unwrap();
    assert_eq!(card.react(&Event::Summon(slot(0, 1)), bannerman, &g), None);
    assert_eq!(card.react(&Event::RoundStart, bannerman, &g), None);
    assert_eq!(card.react(&Event::Dead(bannerman), bannerman, &g), None);
    assert_eq!(card.react(&Event::Draw(bannerman), bannerman, &g), None);
    assert_eq!(card.react(&Event::PassTurn, bannerman, &g), None);
    assert_eq!(
        card.react(&Event::Summon(bannerman), bannerman, &g),
        Some(vec![
            Event::Grant(bonus(slot(0, 0), bannerman).effect),
            Event::Grant(bonus(slot(0, 1), bannerman).effect),
        ])
    );
    assert_eq!(
        card.keywords[0].react(&Event::Summon(bannerman), bannerman, &g),
        None
    );
    g.set_allies_include_self(false);
    assert_eq!(
        card.react(&Event::Summon(slot(0, 0)), slot(0, 0), &g),
        Some(vec![Event::Grant(bonus(slot(0, 1), slot(0, 0)).effect)])
    );
}

#[test]
fn cards_of_the_other_player_do_not_react() {
    let a = Player::from_cards(0, bannermen(1));
    let mut b = Player::from_cards(1, bannermen(2));
    b.charge_mana(8).unwrap();
    b.draw().unwrap();
    b.draw().unwrap();
    b.summon(slot(1, 0)).unwrap();
    let mut g = game_of(a, b);
    assert_eq!(g.current_seat(), 0);
    assert_eq!(g.consume_event(Event::Summon(slot(1, 1))), Ok(()));
    assert_eq!(g.owner(slot(1, 1)).summons(), &vec![slot(1, 0), slot(1, 1)]);
    assert_eq!(g.owner(slot(1, 1)).mana(), 0);
    assert_eq!(g.effects().len(), 0);
}

#[test]
fn summon_event_with_too_little_mana_changes_nothing() {
    let mut a = Player::from_cards(0, bannermen(1));
    a.draw().unwrap();
    a.charge_mana(2).unwrap();
    let mut g = game_of(a, Player::from_cards(1, bannermen(0)));
    assert_eq!(
        g.consume_event(Event::Summon(slot(0, 0))),
        Err(Error::NotEnoughMana)
    );
    let a = g.owner(slot(0, 0));
    assert_eq!(a.mana(), 2);
    assert_eq!(a.hands(), &vec![slot(0, 0)]);
    assert!(a.summons().is_empty());
    assert_eq!(g.effects().len(), 0);
    assert!(g.pending().is_empty());
}

#[test]
fn round_start_with_empty_stacks_fails_and_changes_nothing() {
    let mut g = game_of(
        Player::from_cards(0, bannermen(0)),
        Player::from_cards(1, bannermen(0)),
    );
    assert_eq!(
        g.consume_event(Event::RoundStart),
        Err(Error::NoCardsInStack)
    );
    assert!(g.owner(slot(0, 0)).hands().is_empty());
    assert!(g.owner(slot(1, 0)).hands().is_empty());
    assert_eq!(g.round(), 0);
}

#[test]
fn round_start_draws_for_neither_if_one_stack_is_empty() {
    let mut g = game_of(
        Player::from_cards(0, bannermen(2)),
        Player::from_cards(1, bannermen(0)),
    );
    g.apply_effect(timed(slot(0, 0), 2, 1));
    assert_eq!(g.apply_event(&Event::RoundStart), Err(Error::NoCardsInStack));
    assert!(g.owner(slot(0, 0)).hands().is_empty());
    assert_eq!(g.owner(slot(0, 0)).stack_len(), 2);
    assert_eq!(g.effects().len(), 1);
    assert_eq!(
        g.consume_event(Event::RoundStart),
        Err(Error::NoCardsInStack)
    );
    assert_eq!(g.owner(slot(0, 0)).stack_len(), 2);
    assert_eq!(g.effects().len(), 1);
}

#[test]
fn round_start_draws_for_both_players() {
    let mut g = game_of(
        Player::from_cards(0, bannermen(2)),
        Player::from_cards(1, bannermen(1)),
    );
    assert_eq!(g.consume_event(Event::RoundStart), Ok(()));
    assert_eq!(g.owner(slot(0, 0)).hands(), &vec![slot(0, 0)]);
    assert_eq!(g.owner(slot(1, 0)).hands(), &vec![slot(1, 0)]);
    assert_eq!(g.owner(slot(0, 0)).stack_len(), 1);
    assert_eq!(g.owner(slot(1, 0)).stack_len(), 0);
}

#[test]
fn draw_event_draws_for_the_owner() {
    let mut g = game_of(
        Player::from_cards(0, bannermen(1)),
        Player::from_cards(1, bannermen(1)),
    );
    assert_eq!(g.consume_event(Event::Draw(slot(1, 0))), Ok(()));
    assert!(g.owner(slot(0, 0)).hands().is_empty());
    assert_eq!(g.owner(slot(1, 0)).hands(), &vec![slot(1, 0)]);
    assert_eq!(
        g.consume_event(Event::Draw(slot(1, 0))),
        Err(Error::NoCardsInStack)
    );
    assert_eq!(g.owner(slot(1, 0)).hands(), &vec![slot(1, 0)]);
}

#[test]
fn pass_turn_goes_round() {
    let mut g = game_of(
        Player::from_cards(0, bannermen(0)),
        Player::from_cards(1, bannermen(0)),
    );
    assert_eq!(g.consume_event(Event::PassTurn), Ok(()));
    assert_eq!(g.current_seat(), 1);
    assert_eq!(g.round(), 0);
    assert_eq!(g.current_turn_player().index(), 1);
    assert_eq!(g.consume_event(Event::PassTurn), Ok(()));
    assert_eq!(g.current_seat(), 0);
    assert_eq!(g.round(), 1);
}

#[test]
fn death_undoes_what_the_card_granted() {
    let mut g = bannerman_table();
    let bannerman = slot(0, 2);
    let before = (
        g.attack_of(slot(0, 0)),
        g.defense_of(slot(0, 0)),
        g.attack_of(slot(0, 1)),
        g.defense_of(slot(0, 1)),
    );
    assert_eq!(before, (3, 3, 3, 3));
    g.consume_event(Event::Summon(bannerman)).unwrap();
    assert_eq!(g.attack_of(slot(0, 0)), 4);
    assert_eq!(g.consume_event(Event::Dead(bannerman)), Ok(()));
    let after = (
        g.attack_of(slot(0, 0)),
        g.defense_of(slot(0, 0)),
        g.attack_of(slot(0, 1)),
        g.defense_of(slot(0, 1)),
    );
    assert_eq!(after, before);
    assert_eq!(g.effects().len(), 0);
    assert_eq!(g.owner(bannerman).graveyard(), &vec![bannerman]);
    assert_eq!(g.owner(bannerman).summons(), &vec![slot(0, 0), slot(0, 1)]);
}

#[test]
fn death_leaves_the_effects_of_other_cards() {
    let mut g = bannerman_table();
    let bannerman = slot(0, 2);
    g.apply_effect(Effect {
        target_card_index: slot(0, 0),
        attack_point: 5,
        defense_point: -1,
        cost: 2,
        keyword: None,
        duration: Duration::Permanent,
    });
    g.apply_effect(bonus(slot(0, 0), slot(0, 1)).effect);
    g.consume_event(Event::Summon(bannerman)).unwrap();
    assert_eq!(g.attack_of(slot(0, 0)), 3 + 5 + 1 + 1);
    assert_eq!(g.defense_of(slot(0, 0)), 3 - 1 + 1 + 1);
    assert_eq!(g.cost_of(slot(0, 0)), 6);
    g.consume_event(Event::Dead(bannerman)).unwrap();
    assert_eq!(g.attack_of(slot(0, 0)), 3 + 5 + 1);
    assert_eq!(g.defense_of(slot(0, 0)), 3 - 1 + 1);
    assert_eq!(g.effects().len(), 2);
    g.consume_event(Event::Dead(slot(0, 1))).unwrap();
    assert_eq!(g.attack_of(slot(0, 0)), 8);
    assert_eq!(g.effects().len(), 1);
}

#[test]
fn death_of_a_card_not_in_play_changes_nothing() {
    let mut g = bannerman_table();
    g.apply_effect(bonus(slot(0, 0), slot(0, 2)).effect);
    assert_eq!(
        g.consume_event(Event::Dead(slot(0, 2))),
        Err(Error::CardIndexNotFoundInSummons(slot(0, 2)))
    );
    assert_eq!(g.effects().len(), 1);
    assert_eq!(g.owner(slot(0, 2)).hands(), &vec![slot(0, 2)]);
    assert!(g.owner(slot(0, 2)).graveyard().is_empty());
}

#[test]
fn grant_event_counts_at_once() {
    let mut g = bannerman_table();
    assert_eq!(
        g.consume_event(Event::Grant(timed(slot(1, 1), -2, 3))),
        Ok(())
    );
    assert_eq!(g.attack_of(slot(1, 1)), 1);
    assert_eq!(g.attack_of(slot(1, 0)), 3);
    assert_eq!(
        g.effects().entries(),
        &vec![ActiveEffect {
            effect: timed(slot(1, 1), -2, 3),
            rounds_left: 3
        }]
    );
}

#[test]
fn timed_effects_count_round_starts() {
    let mut g = game_of(
        Player::from_cards(0, bannermen(5)),
        Player::from_cards(1, bannermen(5)),
    );
    g.apply_effect(timed(slot(0, 0), 2, 2));
    g.apply_effect(timed(slot(0, 0), 10, 1));
    g.apply_effect(timed(slot(0, 0), 100, 0));
    g.apply_effect(Effect {
        duration: Duration::Battle,
        ..timed(slot(0, 0), 1000, 0)
    });
    assert_eq!(g.attack_of(slot(0, 0)), 3 + 1112);
    g.consume_event(Event::RoundStart).unwrap();
    assert_eq!(g.attack_of(slot(0, 0)), 3 + 1002);
    assert_eq!(
        g.effects().entries()[0],
        ActiveEffect {
            effect: timed(slot(0, 0), 2, 2),
            rounds_left: 1
        }
    );
    g.consume_event(Event::RoundStart).unwrap();
    assert_eq!(g.attack_of(slot(0, 0)), 3 + 1000);
    g.end_battle();
    assert_eq!(g.attack_of(slot(0, 0)), 3);
    assert_eq!(g.effects().len(), 0);
}

#[test]
fn permanent_effects_stay() {
    let mut g = bannerman_table();
    g.apply_effect(Effect {
        duration: Duration::Permanent,
        ..timed(slot(0, 0), 7, 0)
    });
    g.consume_event(Event::RoundStart).unwrap();
    g.end_battle();
    g.filter_expired_effects(Expiry::CardLeft(slot(0, 0)));
    assert_eq!(g.effects().len(), 1);
    assert_eq!(g.attack_of(slot(0, 0)), 10);
}

#[test]
fn ledger_sweeps_and_sums() {
    let mut l = Ledger::new();
    assert_eq!(l.len(), 0);
    l.grant(bonus(slot(0, 0), slot(0, 1)).effect);
    l.grant(bonus(slot(0, 0), slot(0, 2)).effect);
    l.grant(bonus(slot(0, 1), slot(0, 1)).effect);
    l.grant(Effect {
        cost: -1,
        ..timed(slot(0, 0), i32::MAX, 1)
    });
    assert_eq!(l.attack_bonus(slot(0, 0)), 2 + i32::MAX as i128);
    assert_eq!(l.defense_bonus(slot(0, 0)), 2);
    assert_eq!(l.cost_bonus(slot(0, 0)), -1);
    assert_eq!(l.attack_bonus(slot(1, 0)), 0);
    let copy = l.snapshot();
    assert_eq!(l.expire_and_revert(Expiry::CardLeft(slot(0, 1))), 2);
    assert_eq!(l.len(), 2);
    assert_eq!(l.entries()[0], bonus(slot(0, 0), slot(0, 2)));
    assert_eq!(l.attack_bonus(slot(0, 1)), 0);
    assert_eq!(l.expire_and_revert(Expiry::BattleEnd), 0);
    assert_eq!(l.expire_and_revert(Expiry::RoundStart), 1);
    assert_eq!(l.attack_bonus(slot(0, 0)), 1);
    assert_eq!(copy.len(), 4);
}

#[test]
fn cascade_over_the_depth_fails_and_restores_the_game() {
    let mut g = bannerman_table();
    let bannerman = slot(0, 2);
    g.set_max_depth(3);
    assert_eq!(
        g.consume_event(Event::Summon(bannerman)),
        Err(Error::ResolutionDepthExceeded)
    );
    let a = g.owner(bannerman);
    assert_eq!(a.mana(), 4);
    assert_eq!(a.hands(), &vec![bannerman]);
    assert_eq!(a.summons(), &vec![slot(0, 0), slot(0, 1)]);
    assert_eq!(g.effects().len(), 0);
    assert!(g.pending().is_empty());
    g.set_max_depth(4);
    assert_eq!(g.consume_event(Event::Summon(bannerman)), Ok(()));
    assert_eq!(g.effects().len(), 3);
}

#[test]
fn depth_zero_resolves_nothing() {
    let mut g = bannerman_table();
    g.set_max_depth(0);
    assert_eq!(
        g.consume_event(Event::PassTurn),
        Err(Error::ResolutionDepthExceeded)
    );
    assert_eq!(g.current_seat(), 0);
}

#[test]
fn admits_tells_foreign_references() {
    let g = bannerman_table();
    assert!(g.admits(&Event::RoundStart));
    assert!(g.admits(&Event::PassTurn));
    assert!(g.admits(&Event::Summon(slot(1, 99))));
    assert!(!g.admits(&Event::Summon(slot(2, 0))));
    assert!(!g.admits(&Event::Draw(slot(2, 0))));
    assert!(!g.admits(&Event::Dead(slot(7, 0))));
    assert!(g.admits(&Event::Grant(timed(slot(1, 1), 1, 1))));
    assert!(!g.admits(&Event::Grant(timed(slot(1, 2), 1, 1))));
    assert!(!g.admits(&Event::Grant(timed(slot(2, 0), 1, 1))));
}

#[test]
fn owner_mut_reaches_the_player() {
    let mut g = bannerman_table();
    g.owner_mut(slot(1, 0)).charge_mana(3).unwrap();
    assert_eq!(g.owner(slot(1, 0)).mana(), 3);
    assert_eq!(g.owner(slot(0, 0)).mana(), 4);
}

#[test]
fn decide_summons_or_passes() {
    let mut g = bannerman_table();
    assert_eq!(
        g.decide(Some(slot(0, 3))),
        Err(Error::CardIndexNotFoundInHands(slot(0, 3)))
    );
    assert_eq!(
        g.decide(Some(slot(1, 0))),
        Err(Error::CardIndexNotFoundInHands(slot(1, 0)))
    );
    assert_eq!(g.decide(Some(slot(0, 2))), Ok(false));
    assert_eq!(g.owner(slot(0, 2)).summons().len(), 3);
    assert_eq!(
        g.decide(Some(slot(0, 2))),
        Err(Error::CardIndexNotFoundInHands(slot(0, 2)))
    );
    assert_eq!(g.decide(None), Ok(true));
    assert_eq!(g.current_seat(), 1);
}

#[test]
fn turn_follows_the_choices_until_the_pass() {
    let mut a = Player::from_cards(0, bannermen(3));
    a.charge_mana(8).unwrap();
    a.draw().unwrap();
    a.draw().unwrap();
    a.draw().unwrap();
    let b = Player::from_cards(1, bannermen(0));
    let mut g = Game::new(
        a,
        b,
        script(vec![Some(slot(0, 1)), Some(slot(0, 0)), None]),
        script(vec![]),
    );
    assert_eq!(g.turn(), Ok(()));
    assert_eq!(g.current_seat(), 1);
    assert_eq!(g.round(), 0);
    let a = g.owner(slot(0, 0));
    assert_eq!(a.summons(), &vec![slot(0, 1), slot(0, 0)]);
    assert_eq!(a.hands(), &vec![slot(0, 2)]);
    assert_eq!(a.mana(), 0);
    assert_eq!(g.effects().len(), 3);
    assert_eq!(g.attack_of(slot(0, 1)), 5);
    assert_eq!(g.attack_of(slot(0, 0)), 4);
    assert_eq!(g.turn(), Ok(()));
    assert_eq!(g.current_seat(), 0);
    assert_eq!(g.round(), 1);
}

#[test]
fn turn_stops_at_the_first_failing_choice() {
    let mut a = Player::from_cards(0, bannermen(3));
    a.charge_mana(4).unwrap();
    a.draw().unwrap();
    a.draw().unwrap();
    let b = Player::from_cards(1, bannermen(0));
    let mut g = Game::new(
        a,
        b,
        script(vec![Some(slot(0, 0)), Some(slot(0, 1)), None]),
        script(vec![]),
    );
    assert_eq!(g.turn(), Err(Error::NotEnoughMana));
    assert_eq!(g.current_seat(), 0);
    let a = g.owner(slot(0, 0));
    assert_eq!(a.summons(), &vec![slot(0, 0)]);
    assert_eq!(a.hands(), &vec![slot(0, 1)]);
    assert_eq!(a.mana(), 0);
}

#[test]
fn same_choices_give_the_same_game() {
    let mut ends = Vec::new();
    for _ in 0..2 {
        let mut a = Player::from_cards(0, bannermen(3));
        a.charge_mana(12).unwrap();
        let mut b = Player::from_cards(1, bannermen(2));
        b.charge_mana(4).unwrap();
        let mut g = Game::new(
            a,
            b,
            script(vec![Some(slot(0, 0)), None]),
            script(vec![Some(slot(1, 0)), None]),
        );
        g.consume_event(Event::RoundStart).unwrap();
        g.turn().unwrap();
        g.turn().unwrap();
        g.consume_event(Event::RoundStart).unwrap();
        g.consume_event(Event::Dead(slot(0, 0))).unwrap();
        let mut zones = Vec::new();
        for seat in 0..2 {
            let p = g.owner(slot(seat, 0));
            zones.push((
                p.hands().clone(),
                p.summons().clone(),
                p.graveyard().clone(),
                p.stack_top(),
                p.mana(),
            ));
        }
        ends.push((
            zones,
            g.effects().entries().clone(),
            g.round(),
            g.current_seat(),
            g.attack_of(slot(1, 0)),
        ));
    }
    assert_eq!(ends[0], ends[1]);
    assert_eq!(ends[0].2, 1);
    assert_eq!(ends[0].4, 4);
}
