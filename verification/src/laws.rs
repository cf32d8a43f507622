use crate::errors::Error;
use crate::game::{
    lemma_consume_summon, lemma_drain_keeps_seats, lemma_only_summons_are_answered,
    lemma_step_wf, turn_account, GameView,
};
use crate::ledger::{
    attack_bonus, cost_bonus, defense_bonus, enter, expires, lemma_bonus_push, lemma_sweep_idle,
    lemma_sweep_members, lemma_sweep_push, lemma_sweep_reverts, sweep, swept, ActiveEffect,
    Expiry,
};
use crate::model::{CardIndex, Duration, Effect, Event};
use crate::player::PlayerView;
use crate::seqs::lemma_take_out;
use vstd::prelude::*;

verus! {

/// A summon is all or nothing. Where it goes through, the card was in the
/// hand, it has left the hand for the end of the battlefield, exactly its
/// printed cost has left the pool, and the draw stack and the graveyard are
/// as they were. It fails, naming the reason, exactly where the card is not in
/// the hand or the pool cannot pay: too little mana for the cost, or, for a
/// cost below zero, a pool that would rise above its cap.
pub proof fn law_summon_all_or_nothing(p: PlayerView, r: CardIndex)
    requires
        p.wf(),
    ensures
        match p.summon(r) {
            Ok(q) => {
                &&& p.hand.contains(r)
                &&& !q.hand.contains(r)
                &&& q.hand.len() == p.hand.len() - 1
                &&& q.battlefield == p.battlefield.push(r)
                &&& q.mana == p.mana - p.deck[r.card_index as int].cost
                &&& q.stack == p.stack
                &&& q.graveyard == p.graveyard
                &&& q.deck == p.deck
            },
            Err(e) => {
                &&& e == Error::CardIndexNotFoundInHands(r) <==> !p.hand.contains(r)
                &&& e == Error::NotEnoughMana <==> p.hand.contains(r) && p.mana
                    < p.deck[r.card_index as int].cost
                &&& e == Error::ManaOverFlow <==> p.hand.contains(r) && p.mana
                    >= p.deck[r.card_index as int].cost && p.mana - p.deck[r.card_index as int].cost
                    > p.mana_cap
            },
        },
{
    if p.summon(r) is Ok {
        let at = p.hand.index_of(r);
        assert(0 <= at < p.hand.len() && p.hand[at] == r);
        lemma_take_out(p.hand, at);
    }
}

/// A draw from an empty draw stack fails with `NoCardsInStack`, and a draw
/// fails in no other case.
pub proof fn law_draw_fails_on_empty_stack(p: PlayerView)
    ensures
        p.stack.len() == 0 <==> p.draw() is Err,
        p.draw() is Err ==> p.draw() == Err::<PlayerView, Error>(Error::NoCardsInStack),
{
}

/// In a consistent game a card is in at most one zone, both players taken
/// together.
pub proof fn law_zone_exclusivity(g: GameView, r: CardIndex)
    requires
        g.wf(),
    ensures
        g.players[0].zone_count(r) + g.players[1].zone_count(r) <= 1,
{
    assert(g.players[0].zone_count(r) <= 1);
    assert(g.players[1].zone_count(r) <= 1);
    if g.players[0].zone_count(r) > 0 {
        assert(g.players[0].owns(r));
    }
    if g.players[1].zone_count(r) > 0 {
        assert(g.players[1].owns(r));
    }
}

/// Every state that a resolved event leads to is consistent: an event with
/// all that it sets off keeps a consistent game consistent, and leaves it
/// idle when it was.
pub proof fn law_consume_keeps_consistent(g: GameView, e: Event)
    requires
        g.wf(),
        g.admits(e),
        g.consume(e) is Ok,
    ensures
        g.consume(e).unwrap().wf(),
        g.consume(e).unwrap().queue.len() == 0,
        g.consume(e).unwrap().same_table(g),
{
    lemma_step_wf(g, e);
    let h = g.step(e).unwrap();
    lemma_drain_keeps_seats(h, (g.max_depth - 1) as nat);
    let end = h.drain((g.max_depth - 1) as nat).unwrap();
    assert(end.same_table(g)) by {
        assert forall|i: int| 0 <= i < end.players.len() implies {
            &&& (#[trigger] end.players[i]).index == g.players[i].index
            &&& end.players[i].deck == g.players[i].deck
            &&& end.players[i].mana_cap == g.players[i].mana_cap
        } by {
            assert(h.players[i].index == g.players[i].index);
        }
    }
}

/// Every state that decisions lead to is consistent.
pub proof fn law_replay_keeps_consistent(g: GameView, choices: Seq<Option<CardIndex>>)
    requires
        g.wf(),
        g.round + choices.len() <= usize::MAX,
        g.replay(choices) is Ok,
    ensures
        g.replay(choices).unwrap().wf(),
        g.replay(choices).unwrap().round <= g.round + choices.len(),
    decreases choices.len(),
{
    if choices.len() > 0 {
        law_replay_keeps_consistent(g, choices.drop_last());
        let h = g.replay(choices.drop_last()).unwrap();
        match choices.last() {
            None => {
                law_consume_keeps_consistent(h, Event::PassTurn);
                lemma_step_wf(h, Event::PassTurn);
                lemma_drain_keeps_seats(
                    h.step(Event::PassTurn).unwrap(),
                    (h.max_depth - 1) as nat,
                );
            },
            Some(c) => {
                assert(h.players[h.current].zone_count(c) > 0);
                law_consume_keeps_consistent(h, Event::Summon(c));
                lemma_consume_summon(h, c);
            },
        }
    }
}

/// A grant counts once: the sums for the target rise by the deltas of the
/// effect, and the sums for every other card stay.
pub proof fn law_grant_counts_once(ledger: Seq<ActiveEffect>, effect: Effect, r: CardIndex)
    ensures
        attack_bonus(ledger.push(enter(effect)), r) == attack_bonus(ledger, r) + if r
            == effect.target_card_index {
            effect.attack_point as int
        } else {
            0
        },
        defense_bonus(ledger.push(enter(effect)), r) == defense_bonus(ledger, r) + if r
            == effect.target_card_index {
            effect.defense_point as int
        } else {
            0
        },
        cost_bonus(ledger.push(enter(effect)), r) == cost_bonus(ledger, r) + if r
            == effect.target_card_index {
            effect.cost as int
        } else {
            0
        },
{
    lemma_bonus_push(ledger, enter(effect), r);
}

/// An effect that lasts while a card is in play is undone when that card
/// leaves: the ledger is then what it would be had the effect never been
/// granted, and holds no effect tied to that card. If no other effect was
/// tied to the card, the ledger, and so every card's stats, are what they
/// were before the grant.
pub proof fn law_effect_reversal(ledger: Seq<ActiveEffect>, effect: Effect, source: CardIndex)
    requires
        effect.duration == Duration::CardPlaying(source),
    ensures
        sweep(ledger.push(enter(effect)), Expiry::CardLeft(source)) == sweep(
            ledger,
            Expiry::CardLeft(source),
        ),
        forall|i: int|
            0 <= i < sweep(ledger.push(enter(effect)), Expiry::CardLeft(source)).len() ==> (
            #[trigger] sweep(ledger.push(enter(effect)), Expiry::CardLeft(source))[i]).effect.duration
                != Duration::CardPlaying(source),
        !sweep(ledger.push(enter(effect)), Expiry::CardLeft(source)).contains(enter(effect)),
        (forall|i: int|
            0 <= i < ledger.len() ==> (#[trigger] ledger[i]).effect.duration
                != Duration::CardPlaying(source)) ==> sweep(
            ledger.push(enter(effect)),
            Expiry::CardLeft(source),
        ) == ledger,
{
    let t = Expiry::CardLeft(source);
    let after = sweep(ledger.push(enter(effect)), t);
    lemma_sweep_push(ledger, enter(effect), t);
    lemma_sweep_members(ledger, t);
    assert forall|i: int| 0 <= i < after.len() implies (#[trigger] after[i]).effect.duration
        != Duration::CardPlaying(source) by {
        assert(!expires(after[i], t));
    }
    if after.contains(enter(effect)) {
        let i = choose|i: int| 0 <= i < after.len() && after[i] == enter(effect);
        assert(after[i].effect.duration != Duration::CardPlaying(source));
    }
    if forall|i: int|
        0 <= i < ledger.len() ==> (#[trigger] ledger[i]).effect.duration != Duration::CardPlaying(
            source,
        ) {
        lemma_sweep_idle(ledger, t);
    }
}

/// The round trip in the game: an effect is granted for as long as `source`
/// is in play, then `source` dies. The game is then what the death alone
/// would have made of it, and the effect is gone from the ledger. If no
/// other effect was tied to `source`, attack, defense and cost of every card
/// are what they were before the grant.
pub proof fn law_grant_then_death(g: GameView, effect: Effect, source: CardIndex, r: CardIndex)
    requires
        g.wf(),
        g.knows(r),
        source.player_index < 2,
        effect.duration == Duration::CardPlaying(source),
        g.apply(Event::Grant(effect)).unwrap().apply(Event::Dead(source)) is Ok,
    ensures
        g.apply(Event::Grant(effect)).unwrap().apply(Event::Dead(source)) == g.apply(
            Event::Dead(source),
        ),
        !g.apply(Event::Grant(effect)).unwrap().apply(
            Event::Dead(source),
        ).unwrap().ledger.contains(enter(effect)),
        (forall|i: int|
            0 <= i < g.ledger.len() ==> (#[trigger] g.ledger[i]).effect.duration
                != Duration::CardPlaying(source)) ==> {
            let end = g.apply(Event::Grant(effect)).unwrap().apply(Event::Dead(source)).unwrap();
            &&& end.ledger == g.ledger
            &&& end.attack_of(r) == g.attack_of(r)
            &&& end.defense_of(r) == g.defense_of(r)
            &&& end.cost_of(r) == g.cost_of(r)
        },
{
    law_effect_reversal(g.ledger, effect, source);
    let granted = g.apply(Event::Grant(effect)).unwrap();
    let end = granted.apply(Event::Dead(source)).unwrap();
    let seat = source.player_index as int;
    assert(end.players =~= g.apply(Event::Dead(source)).unwrap().players);
    if forall|i: int|
        0 <= i < g.ledger.len() ==> (#[trigger] g.ledger[i]).effect.duration
            != Duration::CardPlaying(source) {
        assert(end.ledger == g.ledger);
        assert(end.players[r.player_index as int].deck == g.players[r.player_index as int].deck);
        assert(end.card(r) == g.card(r));
    }
}

/// Whatever has happened since an effect was granted: once the card it is
/// tied to has died, no effect tied to that card is in the ledger, and the
/// sums of every card have lost what the removed effects had added, once,
/// and nothing else.
pub proof fn law_death_reverts(g: GameView, source: CardIndex, r: CardIndex)
    requires
        g.wf(),
        g.queue.len() == 0,
        g.knows(r),
        source.player_index < 2,
        g.consume(Event::Dead(source)) is Ok,
    ensures
        g.consume(Event::Dead(source)) == g.apply(Event::Dead(source)),
        g.consume(Event::Dead(source)).unwrap().ledger == sweep(
            g.ledger,
            Expiry::CardLeft(source),
        ),
        forall|i: int|
            0 <= i < g.consume(Event::Dead(source)).unwrap().ledger.len() ==> (
            #[trigger] g.consume(Event::Dead(source)).unwrap().ledger[i]).effect.duration
                != Duration::CardPlaying(source),
        g.consume(Event::Dead(source)).unwrap().attack_of(r) + attack_bonus(
            swept(g.ledger, Expiry::CardLeft(source)),
            r,
        ) == g.attack_of(r),
        g.consume(Event::Dead(source)).unwrap().defense_of(r) + defense_bonus(
            swept(g.ledger, Expiry::CardLeft(source)),
            r,
        ) == g.defense_of(r),
        g.consume(Event::Dead(source)).unwrap().cost_of(r) + cost_bonus(
            swept(g.ledger, Expiry::CardLeft(source)),
            r,
        ) == g.cost_of(r),
{
    let e = Event::Dead(source);
    let t = Expiry::CardLeft(source);
    let landed = g.apply(e).unwrap();
    lemma_only_summons_are_answered(landed, landed.reacting(), e);
    assert(landed.propagate(e).queue =~= Seq::<Event>::empty());
    assert(landed.propagate(e) == landed);
    let end = g.consume(e).unwrap();
    assert(end == landed);
    lemma_sweep_members(g.ledger, t);
    assert forall|i: int| 0 <= i < end.ledger.len() implies (#[trigger] end.ledger[i]).effect.duration
        != Duration::CardPlaying(source) by {
        assert(!expires(end.ledger[i], t));
    }
    lemma_sweep_reverts(g.ledger, t, r);
    assert(end.players[r.player_index as int].deck == g.players[r.player_index as int].deck);
}

/// Nothing in the engine is left to chance: the same game and the same event
/// give the same outcome.
pub proof fn law_consume_is_determined(a: GameView, b: GameView, e: Event, f: Event)
    requires
        a == b,
        e == f,
    ensures
        a.consume(e) == b.consume(f),
{
}

/// The same game and the same decisions give the same outcome.
pub proof fn law_replay_is_determined(
    a: GameView,
    b: GameView,
    first: Seq<Option<CardIndex>>,
    second: Seq<Option<CardIndex>>,
)
    requires
        a == b,
        first =~= second,
    ensures
        a.replay(first) == b.replay(second),
{
}

/// Two turns played from the same game with the same decisions end alike: in
/// the same result and the same game.
pub proof fn law_turn_is_determined(
    start: GameView,
    choices: Seq<Option<CardIndex>>,
    res_a: Result<(), Error>,
    end_a: GameView,
    res_b: Result<(), Error>,
    end_b: GameView,
)
    requires
        turn_account(start, choices, res_a, end_a),
        turn_account(start, choices, res_b, end_b),
    ensures
        res_a == res_b,
        end_a == end_b,
{
    let before = start.replay(choices.drop_last()).unwrap();
    let outcome = before.decide(choices.last());
    match res_a {
        Ok(()) => {
            assert(outcome == Ok::<GameView, Error>(end_a));
            match res_b {
                Ok(()) => {
                    assert(res_a matches Ok(u) && u == ());
                    assert(res_b matches Ok(u) && u == ());
                },
                Err(y) => {
                    assert(outcome == Err::<GameView, Error>(y));
                },
            }
        },
        Err(x) => {
            assert(outcome == Err::<GameView, Error>(x));
            match res_b {
                Ok(()) => {
                    assert(outcome == Ok::<GameView, Error>(end_b));
                },
                Err(y) => {
                    assert(outcome == Err::<GameView, Error>(y));
                },
            }
        },
    }
}

} // verus!
