use crate::errors::Error;
use crate::ledger::{enter, sweep, ActiveEffect, Expiry, Ledger};
use crate::model::{
    deck_view, Card, CardIndex, CardView, Duration, Effect, Event, Keyword, Reaction,
};
use crate::player::{Player, PlayerView, ZoneSnapshot};
use vstd::prelude::*;

verus! {

/// Number of events that one decision may set off, unless the game is told
/// otherwise.
pub const DEFAULT_RESOLUTION_DEPTH: usize = 256;

/// The one who decides for a player. The engine never looks into how a
/// choice is made, and takes no choice on trust.
pub trait User {
    /// Chooses one of the candidates.
    fn pick(&self, cards: &[CardIndex]) -> CardIndex;

    /// Chooses one of the candidates, or passes.
    fn pick_or_pass(&self, cards: &[CardIndex]) -> Option<CardIndex>;
}

/// The resolution engine: both players, the effect ledger and the queue of
/// pending events.
pub struct Game {
    turn: usize,
    current_player_turn: usize,
    players: [Player; 2],
    users: [Box<dyn User>; 2],
    effects: Ledger,
    traps: Vec<Card>,
    events: Vec<Event>,
    allies_include_self: bool,
    max_depth: usize,
}

/// A game as a mathematical value. The head of `queue` is the event that is
/// resolved next.
pub struct GameView {
    pub round: int,
    pub current: int,
    pub players: Seq<PlayerView>,
    pub ledger: Seq<ActiveEffect>,
    pub traps: Seq<CardView>,
    pub queue: Seq<Event>,
    pub allies_include_self: bool,
    pub max_depth: nat,
}

/// The event that grants `ally` the deltas for as long as `source` is in play.
pub open spec fn ally_grant(source: CardIndex, attack_point: i32, defense_point: i32) -> spec_fn(
    CardIndex,
) -> Event {
    |ally: CardIndex|
        Event::Grant(
            Effect {
                target_card_index: ally,
                attack_point,
                defense_point,
                cost: 0,
                keyword: None,
                duration: Duration::CardPlaying(source),
            },
        )
}

pub open spec fn other_than(me: CardIndex) -> spec_fn(CardIndex) -> bool {
    |r: CardIndex| r != me
}

/// The events of a reaction, none where there is no reaction.
pub open spec fn flat(o: Option<Seq<Event>>) -> Seq<Event> {
    match o {
        Some(s) => s,
        None => Seq::empty(),
    }
}

impl GameView {
    /// The game at its start: round 0, the turn of seat 0, nothing granted,
    /// nothing pending.
    pub open spec fn start(first: PlayerView, second: PlayerView) -> GameView {
        GameView {
            round: 0,
            current: 0,
            players: seq![first, second],
            ledger: Seq::empty(),
            traps: Seq::empty(),
            queue: Seq::empty(),
            allies_include_self: true,
            max_depth: DEFAULT_RESOLUTION_DEPTH as nat,
        }
    }

    /// `r` names a card of this game.
    pub open spec fn knows(self, r: CardIndex) -> bool {
        r.player_index < 2 && r.card_index < self.players[r.player_index as int].deck.len()
    }

    /// The template of `r`.
    pub open spec fn card(self, r: CardIndex) -> CardView {
        self.players[r.player_index as int].deck[r.card_index as int]
    }

    /// An event as reactions produce them: a grant to a card of this game.
    pub open spec fn settled(self, e: Event) -> bool {
        e matches Event::Grant(effect) && self.knows(effect.target_card_index)
    }

    /// The game is consistent: both players are, each in their seat, and
    /// every pending event came from a reaction.
    pub open spec fn wf(self) -> bool {
        &&& self.players.len() == 2
        &&& self.players[0].wf()
        &&& self.players[0].index == 0
        &&& self.players[1].wf()
        &&& self.players[1].index == 1
        &&& 0 <= self.current < 2
        &&& 0 <= self.round <= usize::MAX
        &&& self.max_depth <= usize::MAX
        &&& forall|i: int| 0 <= i < self.queue.len() ==> self.settled(#[trigger] self.queue[i])
    }

    /// The event speaks of this game's seats and cards, and the round counter
    /// has room for it.
    pub open spec fn admits(self, e: Event) -> bool {
        match e {
            Event::RoundStart => true,
            Event::Draw(r) => r.player_index < 2,
            Event::Summon(r) => r.player_index < 2,
            Event::Dead(r) => r.player_index < 2,
            Event::Grant(effect) => self.knows(effect.target_card_index),
            Event::PassTurn => self.current == 1 ==> self.round < usize::MAX,
        }
    }

    pub open spec fn with_player(self, seat: int, p: PlayerView) -> GameView {
        GameView { players: self.players.update(seat, p), ..self }
    }

    /// What does not change while events are resolved: the seats, the decks,
    /// the caps, the traps and the settings.
    pub open spec fn same_table(self, other: GameView) -> bool {
        &&& self.players.len() == other.players.len()
        &&& forall|i: int|
            0 <= i < self.players.len() ==> {
                &&& (#[trigger] self.players[i]).index == other.players[i].index
                &&& self.players[i].deck == other.players[i].deck
                &&& self.players[i].mana_cap == other.players[i].mana_cap
            }
        &&& self.traps == other.traps
        &&& self.allies_include_self == other.allies_include_self
        &&& self.max_depth == other.max_depth
    }

    /// Attack of `r` as it stands: the printed value and the deltas of the
    /// active effects on `r`.
    pub open spec fn attack_of(self, r: CardIndex) -> int {
        self.card(r).attack_point + crate::ledger::attack_bonus(self.ledger, r)
    }

    /// Defense of `r` as it stands.
    pub open spec fn defense_of(self, r: CardIndex) -> int {
        self.card(r).defense_point + crate::ledger::defense_bonus(self.ledger, r)
    }

    /// Cost of `r` as it stands.
    pub open spec fn cost_of(self, r: CardIndex) -> int {
        self.card(r).cost + crate::ledger::cost_bonus(self.ledger, r)
    }

    /// The state after the event has landed, or the failure that leaves the
    /// state as it is.
    pub open spec fn apply(self, e: Event) -> Result<GameView, Error> {
        match e {
            Event::RoundStart => match self.players[0].draw() {
                Err(x) => Err(x),
                Ok(first) => match self.players[1].draw() {
                    Err(x) => Err(x),
                    Ok(second) => Ok(
                        GameView {
                            players: seq![first, second],
                            ledger: sweep(self.ledger, Expiry::RoundStart),
                            ..self
                        },
                    ),
                },
            },
            Event::Draw(r) => match self.players[r.player_index as int].draw() {
                Err(x) => Err(x),
                Ok(p) => Ok(self.with_player(r.player_index as int, p)),
            },
            Event::Summon(r) => match self.players[r.player_index as int].summon(r) {
                Err(x) => Err(x),
                Ok(p) => Ok(self.with_player(r.player_index as int, p)),
            },
            Event::Dead(r) => match self.players[r.player_index as int].kill(r) {
                Err(x) => Err(x),
                Ok(p) => Ok(
                    GameView {
                        ledger: sweep(self.ledger, Expiry::CardLeft(r)),
                        ..self.with_player(r.player_index as int, p)
                    },
                ),
            },
            Event::Grant(effect) => Ok(GameView { ledger: self.ledger.push(enter(effect)), ..self }),
            Event::PassTurn => Ok(
                GameView {
                    current: 1 - self.current,
                    round: if self.current == 1 {
                        self.round + 1
                    } else {
                        self.round
                    },
                    ..self
                },
            ),
        }
    }

    /// The allies of `me`: the cards on its owner's battlefield, oldest
    /// summon first; `me` among them only if the game is set so.
    pub open spec fn allies(self, me: CardIndex) -> Seq<CardIndex> {
        let field = self.players[me.player_index as int].battlefield;
        if self.allies_include_self {
            field
        } else {
            field.filter(other_than(me))
        }
    }

    /// What the card `me` answers to the event through one reaction.
    pub open spec fn react(self, reaction: Reaction, e: Event, me: CardIndex) -> Option<
        Seq<Event>,
    > {
        match reaction {
            Reaction::Silent => None,
            Reaction::GrantAllies { attack_point, defense_point } => if e == Event::Summon(me) {
                Some(self.allies(me).map_values(ally_grant(me, attack_point, defense_point)))
            } else {
                None
            },
        }
    }

    /// What the keywords answer, in their order on the template.
    pub open spec fn keyword_reactions(self, ks: Seq<Keyword>, e: Event, me: CardIndex) -> Seq<
        Event,
    >
        decreases ks.len(),
    {
        if ks.len() == 0 {
            Seq::empty()
        } else {
            self.keyword_reactions(ks.drop_last(), e, me) + flat(
                self.react(ks.last().reaction, e, me),
            )
        }
    }

    /// What the card `me` answers: its template first, then its keywords.
    pub open spec fn card_reactions(self, e: Event, me: CardIndex) -> Seq<Event> {
        flat(self.react(self.card(me).reaction, e, me)) + self.keyword_reactions(
            self.card(me).keywords,
            e,
            me,
        )
    }

    /// What these cards answer, card after card.
    pub open spec fn reactions_of(self, cards: Seq<CardIndex>, e: Event) -> Seq<Event>
        decreases cards.len(),
    {
        if cards.len() == 0 {
            Seq::empty()
        } else {
            self.reactions_of(cards.drop_last(), e) + self.card_reactions(e, cards.last())
        }
    }

    /// The cards that may react: those of the player whose turn it is, the
    /// battlefield before the hand, each oldest first.
    pub open spec fn reacting(self) -> Seq<CardIndex> {
        self.players[self.current].battlefield + self.players[self.current].hand
    }

    /// Everything that is answered to the event, in reaction order.
    pub open spec fn reactions(self, e: Event) -> Seq<Event> {
        self.reactions_of(self.reacting(), e)
    }

    /// The state after the answers to the event have joined the queue.
    pub open spec fn propagate(self, e: Event) -> GameView {
        GameView { queue: self.queue + self.reactions(e), ..self }
    }

    /// One event resolved: it lands, then the answers to it are queued.
    pub open spec fn step(self, e: Event) -> Result<GameView, Error> {
        match self.apply(e) {
            Err(x) => Err(x),
            Ok(g) => Ok(g.propagate(e)),
        }
    }

    pub open spec fn pop(self) -> GameView {
        GameView { queue: self.queue.drop_first(), ..self }
    }

    /// The queue resolved head first until it is empty, with at most `fuel`
    /// events.
    pub open spec fn drain(self, fuel: nat) -> Result<GameView, Error>
        decreases fuel,
    {
        if self.queue.len() == 0 {
            Ok(self)
        } else if fuel == 0 {
            Err(Error::ResolutionDepthExceeded)
        } else {
            match self.pop().step(self.queue.first()) {
                Err(x) => Err(x),
                Ok(g) => g.drain((fuel - 1) as nat),
            }
        }
    }

    /// The event and everything it sets off resolved, within the depth that
    /// the game allows for one decision.
    pub open spec fn consume(self, e: Event) -> Result<GameView, Error> {
        if self.max_depth == 0 {
            Err(Error::ResolutionDepthExceeded)
        } else {
            match self.step(e) {
                Err(x) => Err(x),
                Ok(g) => g.drain((self.max_depth - 1) as nat),
            }
        }
    }
}

impl GameView {
    /// One decision of the player whose turn it is: to pass, which ends the
    /// turn, or to summon a card of the hand.
    pub open spec fn decide(self, choice: Option<CardIndex>) -> Result<GameView, Error> {
        match choice {
            None => self.consume(Event::PassTurn),
            Some(c) => if self.players[self.current].hand.contains(c) {
                self.consume(Event::Summon(c))
            } else {
                Err(Error::CardIndexNotFoundInHands(c))
            },
        }
    }

    /// The state after these decisions, in their order, or the first failure.
    pub open spec fn replay(self, choices: Seq<Option<CardIndex>>) -> Result<GameView, Error>
        decreases choices.len(),
    {
        if choices.len() == 0 {
            Ok(self)
        } else {
            match self.replay(choices.drop_last()) {
                Err(x) => Err(x),
                Ok(g) => g.decide(choices.last()),
            }
        }
    }
}

/// What a turn did, told by the decisions that were taken in it: all but the
/// last were summons that went through; the last either passed the turn, or
/// failed and left the state that the summons before it had led to.
pub open spec fn turn_account(
    start: GameView,
    choices: Seq<Option<CardIndex>>,
    res: Result<(), Error>,
    end: GameView,
) -> bool {
    &&& choices.len() > 0
    &&& forall|i: int| 0 <= i < choices.len() - 1 ==> (#[trigger] choices[i]) is Some
    &&& match start.replay(choices.drop_last()) {
        Err(_) => false,
        Ok(g) => match res {
            Ok(()) => choices.last() is None && g.decide(choices.last()) == Ok::<
                GameView,
                Error,
            >(end),
            Err(x) => g.decide(choices.last()) == Err::<GameView, Error>(x) && end == g,
        },
    }
}

impl View for Game {
    type V = GameView;

    closed spec fn view(&self) -> GameView {
        GameView {
            round: self.turn as int,
            current: self.current_player_turn as int,
            players: seq![self.players[0]@, self.players[1]@],
            ledger: self.effects@,
            traps: deck_view(self.traps@),
            queue: self.events@,
            allies_include_self: self.allies_include_self,
            max_depth: self.max_depth as nat,
        }
    }
}

/// An event that lands leaves each player consistent and the table as it was.
pub proof fn lemma_apply_wf(g: GameView, e: Event)
    requires
        g.wf(),
        g.admits(e),
        g.apply(e) is Ok,
    ensures
        g.apply(e).unwrap().wf(),
        g.apply(e).unwrap().same_table(g),
        g.apply(e).unwrap().queue == g.queue,
{
    let h = g.apply(e).unwrap();
    match e {
        Event::RoundStart => {
            crate::player::lemma_draw_wf(g.players[0]);
            crate::player::lemma_draw_wf(g.players[1]);
        },
        Event::Draw(r) => {
            crate::player::lemma_draw_wf(g.players[r.player_index as int]);
        },
        Event::Summon(r) => {
            crate::player::lemma_summon_wf(g.players[r.player_index as int], r);
        },
        Event::Dead(r) => {
            crate::player::lemma_kill_wf(g.players[r.player_index as int], r);
        },
        Event::Grant(effect) => {},
        Event::PassTurn => {},
    }
    assert forall|i: int| 0 <= i < h.queue.len() implies h.settled(#[trigger] h.queue[i]) by {
        assert(g.settled(g.queue[i]));
    }
}

/// Whatever a reaction answers is a grant to a card of the game.
pub proof fn lemma_react_settled(g: GameView, reaction: Reaction, e: Event, me: CardIndex)
    requires
        g.wf(),
        me.player_index < 2,
    ensures
        forall|i: int|
            0 <= i < flat(g.react(reaction, e, me)).len() ==> g.settled(
                #[trigger] flat(g.react(reaction, e, me))[i],
            ),
{
    let out = flat(g.react(reaction, e, me));
    let owner = g.players[me.player_index as int];
    assert forall|i: int| 0 <= i < out.len() implies g.settled(#[trigger] out[i]) by {
        let ally = g.allies(me)[i];
        if !g.allies_include_self {
            owner.battlefield.lemma_filter_len(other_than(me));
            assert(owner.battlefield.filter(other_than(me)).contains(ally));
            owner.battlefield.lemma_filter_contains_rev(other_than(me), ally);
        } else {
            assert(owner.battlefield[i] == ally);
        }
        assert(owner.battlefield.contains(ally));
        assert(owner.zone_count(ally) > 0);
    }
}

/// Whatever the keywords of a card answer is a grant to a card of the game.
pub proof fn lemma_keywords_settled(g: GameView, ks: Seq<Keyword>, e: Event, me: CardIndex)
    requires
        g.wf(),
        me.player_index < 2,
    ensures
        forall|i: int|
            0 <= i < g.keyword_reactions(ks, e, me).len() ==> g.settled(
                #[trigger] g.keyword_reactions(ks, e, me)[i],
            ),
    decreases ks.len(),
{
    if ks.len() > 0 {
        lemma_keywords_settled(g, ks.drop_last(), e, me);
        lemma_react_settled(g, ks.last().reaction, e, me);
        let head = g.keyword_reactions(ks.drop_last(), e, me);
        let tail = flat(g.react(ks.last().reaction, e, me));
        assert forall|i: int| 0 <= i < g.keyword_reactions(ks, e, me).len() implies g.settled(
            #[trigger] g.keyword_reactions(ks, e, me)[i],
        ) by {
            if i < head.len() {
                assert(g.settled(head[i]));
            } else {
                assert(g.settled(tail[i - head.len()]));
            }
        }
    }
}

/// Whatever cards of the game answer is a grant to a card of the game.
pub proof fn lemma_cards_settled(g: GameView, cards: Seq<CardIndex>, e: Event)
    requires
        g.wf(),
        forall|i: int| 0 <= i < cards.len() ==> (#[trigger] cards[i]).player_index < 2,
    ensures
        forall|i: int|
            0 <= i < g.reactions_of(cards, e).len() ==> g.settled(
                #[trigger] g.reactions_of(cards, e)[i],
            ),
    decreases cards.len(),
{
    if cards.len() > 0 {
        let me = cards.last();
        assert(cards[cards.len() - 1].player_index < 2);
        assert forall|i: int| 0 <= i < cards.drop_last().len() implies (
        #[trigger] cards.drop_last()[i]).player_index < 2 by {
            assert(cards[i].player_index < 2);
        }
        lemma_cards_settled(g, cards.drop_last(), e);
        lemma_react_settled(g, g.card(me).reaction, e, me);
        lemma_keywords_settled(g, g.card(me).keywords, e, me);
        let head = g.reactions_of(cards.drop_last(), e);
        let own = flat(g.react(g.card(me).reaction, e, me));
        let by_keywords = g.keyword_reactions(g.card(me).keywords, e, me);
        assert forall|i: int| 0 <= i < g.reactions_of(cards, e).len() implies g.settled(
            #[trigger] g.reactions_of(cards, e)[i],
        ) by {
            if i < head.len() {
                assert(g.settled(head[i]));
            } else if i < head.len() + own.len() {
                assert(g.settled(own[i - head.len()]));
            } else {
                assert(g.settled(by_keywords[i - head.len() - own.len()]));
            }
        }
    }
}

/// No card answers an event other than a summon.
pub proof fn lemma_only_summons_are_answered(g: GameView, cards: Seq<CardIndex>, e: Event)
    requires
        !(e is Summon),
    ensures
        g.reactions_of(cards, e) == Seq::<Event>::empty(),
    decreases cards.len(),
{
    if cards.len() > 0 {
        lemma_only_summons_are_answered(g, cards.drop_last(), e);
        lemma_keywords_silent(g, g.card(cards.last()).keywords, e, cards.last());
        assert(g.reactions_of(cards, e) =~= Seq::<Event>::empty());
    }
}

/// No keyword answers an event other than a summon.
pub proof fn lemma_keywords_silent(g: GameView, ks: Seq<Keyword>, e: Event, me: CardIndex)
    requires
        !(e is Summon),
    ensures
        g.keyword_reactions(ks, e, me) == Seq::<Event>::empty(),
    decreases ks.len(),
{
    if ks.len() > 0 {
        lemma_keywords_silent(g, ks.drop_last(), e, me);
        assert(g.keyword_reactions(ks, e, me) =~= Seq::<Event>::empty());
    }
}

/// The cards that may react are cards of the player whose turn it is.
pub proof fn lemma_reacting_owned(g: GameView)
    requires
        g.wf(),
    ensures
        forall|i: int|
            0 <= i < g.reacting().len() ==> g.players[g.current].owns(#[trigger] g.reacting()[i]),
{
    let p = g.players[g.current];
    assert forall|i: int| 0 <= i < g.reacting().len() implies p.owns(#[trigger] g.reacting()[i]) by {
        let r = g.reacting()[i];
        if i < p.battlefield.len() {
            assert(p.battlefield[i] == r);
        } else {
            assert(p.hand[i - p.battlefield.len()] == r);
        }
        assert(p.zone_count(r) > 0);
    }
}

/// Queueing the answers to an event keeps the game consistent and the table
/// as it was.
pub proof fn lemma_propagate_wf(g: GameView, e: Event)
    requires
        g.wf(),
    ensures
        g.propagate(e).wf(),
        g.propagate(e).same_table(g),
{
    let h = g.propagate(e);
    lemma_reacting_owned(g);
    lemma_cards_settled(g, g.reacting(), e);
    assert forall|i: int| 0 <= i < h.queue.len() implies h.settled(#[trigger] h.queue[i]) by {
        if i < g.queue.len() {
            assert(g.settled(g.queue[i]));
        } else {
            assert(g.settled(g.reactions(e)[i - g.queue.len()]));
        }
    }
}

/// An event that is resolved leaves the game consistent and the table as it
/// was: in every state that events lead to, no card is in two zones.
pub proof fn lemma_step_wf(g: GameView, e: Event)
    requires
        g.wf(),
        g.admits(e),
        g.step(e) is Ok,
    ensures
        g.step(e).unwrap().wf(),
        g.step(e).unwrap().same_table(g),
{
    lemma_apply_wf(g, e);
    lemma_propagate_wf(g.apply(e).unwrap(), e);
}

/// Taking the head off the queue keeps the game consistent, and the head is
/// an event that the game admits.
pub proof fn lemma_pop_wf(g: GameView)
    requires
        g.wf(),
        g.queue.len() > 0,
    ensures
        g.pop().wf(),
        g.pop().same_table(g),
        g.pop().admits(g.queue.first()),
{
    let h = g.pop();
    assert(g.settled(g.queue[0]));
    assert forall|i: int| 0 <= i < h.queue.len() implies h.settled(#[trigger] h.queue[i]) by {
        assert(g.settled(g.queue[i + 1]));
    }
}

/// Resolving a queue of grants changes neither a zone nor a pool, nor the
/// turn or the round, and leaves the game consistent and idle.
pub proof fn lemma_drain_keeps_seats(g: GameView, fuel: nat)
    requires
        g.wf(),
        g.drain(fuel) is Ok,
    ensures
        g.drain(fuel).unwrap().players == g.players,
        g.drain(fuel).unwrap().current == g.current,
        g.drain(fuel).unwrap().round == g.round,
        g.drain(fuel).unwrap().queue.len() == 0,
        g.drain(fuel).unwrap().wf(),
        g.drain(fuel).unwrap().same_table(g),
    decreases fuel,
{
    if g.queue.len() > 0 {
        let e = g.queue.first();
        lemma_pop_wf(g);
        lemma_step_wf(g.pop(), e);
        let h = g.pop().step(e).unwrap();
        lemma_drain_keeps_seats(h, (fuel - 1) as nat);
    }
}

/// A summon that goes through, with everything it sets off, moves the card
/// from its owner's hand to the battlefield, takes its cost from the pool
/// and changes no other zone or pool, nor the turn or the round.
pub proof fn lemma_consume_summon(g: GameView, r: CardIndex)
    requires
        g.wf(),
        r.player_index < 2,
        g.consume(Event::Summon(r)) is Ok,
    ensures
        g.players[r.player_index as int].summon(r) is Ok,
        g.consume(Event::Summon(r)).unwrap().players == g.players.update(
            r.player_index as int,
            g.players[r.player_index as int].summon(r).unwrap(),
        ),
        g.consume(Event::Summon(r)).unwrap().current == g.current,
        g.consume(Event::Summon(r)).unwrap().round == g.round,
        g.consume(Event::Summon(r)).unwrap().queue.len() == 0,
        g.consume(Event::Summon(r)).unwrap().wf(),
{
    let e = Event::Summon(r);
    lemma_step_wf(g, e);
    lemma_drain_keeps_seats(g.step(e).unwrap(), (g.max_depth - 1) as nat);
}

fn copy_events(v: &Vec<Event>) -> (res: Vec<Event>)
    ensures
        res@ == v@,
{
    let mut out: Vec<Event> = Vec::new();
    let mut i: usize = 0;
    while i < v.len()
        invariant
            i <= v.len(),
            out@ == v@.take(i as int),
        decreases v.len() - i,
    {
        out.push(v[i]);
        proof {
            assert(v@.take(i + 1) =~= v@.take(i as int).push(v@[i as int]));
        }
        i += 1;
    }
    proof {
        assert(v@.take(v@.len() as int) =~= v@);
    }
    out
}

/// What events can change, copied, to put it back when a cascade fails.
struct Checkpoint {
    first: ZoneSnapshot,
    second: ZoneSnapshot,
    effects: Ledger,
    events: Vec<Event>,
    turn: usize,
    current_player_turn: usize,
}

impl Checkpoint {
    spec fn of(&self, g: GameView) -> bool {
        &&& self.first@ == g.players[0].zones_view()
        &&& self.second@ == g.players[1].zones_view()
        &&& self.effects@ == g.ledger
        &&& self.events@ == g.queue
        &&& self.turn == g.round
        &&& self.current_player_turn == g.current
    }
}

impl Reaction {
    /// What the card `me` answers to the event through this reaction: `None`
    /// where it does not react.
    pub fn react(&self, e: &Event, me: CardIndex, game: &Game) -> (res: Option<Vec<Event>>)
        requires
            game.wf(),
            me.player_index < 2,
        ensures
            match res {
                Some(v) => game@.react(*self, *e, me) == Some(v@),
                None => game@.react(*self, *e, me) is None,
            },
    {
        match self {
            Reaction::Silent => None,
            Reaction::GrantAllies { attack_point, defense_point } => {
                let summoned = match e {
                    Event::Summon(target) => *target == me,
                    _ => false,
                };
                if !summoned {
                    return None;
                }
                let field = game.owner(me).summons();
                let with_self = game.allies_include_self;
                let n = field.len();
                let mut out: Vec<Event> = Vec::new();
                let mut i: usize = 0;
                let ghost grant = ally_grant(me, *attack_point, *defense_point);
                proof {
                    reveal(Seq::filter);
                    assert(field@.take(0) =~= Seq::empty());
                    assert(field@.take(0).filter(other_than(me)) =~= Seq::empty());
                    assert(out@ =~= Seq::<CardIndex>::empty().map_values(grant));
                }
                while i < n
                    invariant
                        n == field@.len(),
                        i <= n,
                        grant == ally_grant(me, *attack_point, *defense_point),
                        out@ == if with_self {
                            field@.take(i as int).map_values(grant)
                        } else {
                            field@.take(i as int).filter(other_than(me)).map_values(grant)
                        },
                    decreases n - i,
                {
                    let ally = field[i];
                    proof {
                        let seen = field@.take(i as int);
                        assert(field@.take(i + 1) =~= seen.push(ally));
                        seen.lemma_filter_push(ally, other_than(me));
                        assert(seen.push(ally).map_values(grant) =~= seen.map_values(grant).push(
                            grant(ally),
                        ));
                        assert(seen.filter(other_than(me)).push(ally).map_values(grant)
                            =~= seen.filter(other_than(me)).map_values(grant).push(grant(ally)));
                    }
                    if with_self || ally != me {
                        out.push(
                            Event::Grant(
                                Effect {
                                    target_card_index: ally,
                                    attack_point: *attack_point,
                                    defense_point: *defense_point,
                                    cost: 0,
                                    keyword: None,
                                    duration: Duration::CardPlaying(me),
                                },
                            ),
                        );
                    }
                    i += 1;
                }
                proof {
                    assert(field@.take(n as int) =~= field@);
                }
                Some(out)
            },
        }
    }
}

impl Keyword {
    /// What the card `me` answers to the event through this keyword.
    pub fn react(&self, e: &Event, me: CardIndex, game: &Game) -> (res: Option<Vec<Event>>)
        requires
            game.wf(),
            me.player_index < 2,
        ensures
            match res {
                Some(v) => game@.react(self.reaction, *e, me) == Some(v@),
                None => game@.react(self.reaction, *e, me) is None,
            },
    {
        self.reaction.react(e, me, game)
    }
}

impl Card {
    /// What the card `me`, printed from this template, answers to the event
    /// by itself, its keywords aside.
    pub fn react(&self, e: &Event, me: CardIndex, game: &Game) -> (res: Option<Vec<Event>>)
        requires
            game.wf(),
            me.player_index < 2,
        ensures
            match res {
                Some(v) => game@.react(self@.reaction, *e, me) == Some(v@),
                None => game@.react(self@.reaction, *e, me) is None,
            },
    {
        self.reaction.react(e, me, game)
    }
}

impl Game {
    /// The game is consistent, see [`GameView::wf`].
    pub open spec fn wf(&self) -> bool {
        self@.wf()
    }

    /// Seats two players and those who decide for them.
    pub fn new(
        first: Player,
        second: Player,
        first_user: Box<dyn User>,
        second_user: Box<dyn User>,
    ) -> (g: Game)
        requires
            first.wf(),
            second.wf(),
            first@.index == 0,
            second@.index == 1,
        ensures
            g@ == GameView::start(first@, second@),
            g.wf(),
    {
        let g = Game {
            turn: 0,
            current_player_turn: 0,
            players: [first, second],
            users: [first_user, second_user],
            effects: Ledger::new(),
            traps: Vec::new(),
            events: Vec::new(),
            allies_include_self: true,
            max_depth: DEFAULT_RESOLUTION_DEPTH,
        };
        proof {
            assert(g@.traps =~= Seq::<CardView>::empty());
        }
        g
    }

    /// Sets whether a card counts among its own allies.
    pub fn set_allies_include_self(&mut self, with_self: bool)
        requires
            old(self).wf(),
        ensures
            final(self)@ == (GameView { allies_include_self: with_self, ..old(self)@ }),
            final(self).wf(),
    {
        self.allies_include_self = with_self;
        proof {
            assert forall|i: int| 0 <= i < self@.queue.len() implies self@.settled(
                #[trigger] self@.queue[i],
            ) by {
                assert(old(self)@.settled(old(self)@.queue[i]));
            }
        }
    }

    /// Sets the number of events that one decision may set off.
    pub fn set_max_depth(&mut self, depth: usize)
        requires
            old(self).wf(),
        ensures
            final(self)@ == (GameView { max_depth: depth as nat, ..old(self)@ }),
            final(self).wf(),
    {
        self.max_depth = depth;
        proof {
            assert forall|i: int| 0 <= i < self@.queue.len() implies self@.settled(
                #[trigger] self@.queue[i],
            ) by {
                assert(old(self)@.settled(old(self)@.queue[i]));
            }
        }
    }

    /// The round number.
    pub fn round(&self) -> (r: usize)
        ensures
            r == self@.round,
    {
        self.turn
    }

    /// Seat of the player whose turn it is.
    pub fn current_seat(&self) -> (r: usize)
        ensures
            r == self@.current,
    {
        self.current_player_turn
    }

    /// The active effects.
    pub fn effects(&self) -> (r: &Ledger)
        ensures
            r@ == self@.ledger,
    {
        &self.effects
    }

    /// The pending events, the next one first.
    pub fn pending(&self) -> (r: &Vec<Event>)
        ensures
            r@ == self@.queue,
    {
        &self.events
    }

    /// The trap cards.
    pub fn traps(&self) -> (r: &Vec<Card>)
        ensures
            deck_view(r@) == self@.traps,
    {
        &self.traps
    }

    /// The player who owns `card_index`.
    pub fn owner(&self, card_index: CardIndex) -> (p: &Player)
        requires
            card_index.player_index < 2,
        ensures
            p@ == self@.players[card_index.player_index as int],
    {
        &self.players[card_index.player_index]
    }

    /// The template of `card_index`.
    pub fn card(&self, card_index: CardIndex) -> (c: &Card)
        requires
            self@.knows(card_index),
        ensures
            c@ == self@.card(card_index),
    {
        self.owner(card_index).card(card_index)
    }

    /// The player whose turn it is.
    pub fn current_turn_player(&self) -> (p: &Player)
        requires
            self.wf(),
        ensures
            p@ == self@.players[self@.current],
    {
        &self.players[self.current_player_turn]
    }

    /// Whether the event speaks of this game's seats and cards and the round
    /// counter has room for it.
    pub fn admits(&self, e: &Event) -> (b: bool)
        requires
            self.wf(),
        ensures
            b == self@.admits(*e),
    {
        match e {
            Event::RoundStart => true,
            Event::Draw(r) => r.player_index < 2,
            Event::Summon(r) => r.player_index < 2,
            Event::Dead(r) => r.player_index < 2,
            Event::Grant(effect) => {
                let r = effect.target_card_index;
                r.player_index < 2 && r.card_index < self.players[r.player_index].deck().len()
            },
            Event::PassTurn => self.current_player_turn != 1 || self.turn < usize::MAX,
        }
    }

    /// Lets the event land, or fails and changes nothing.
    pub fn apply_event(&mut self, e: &Event) -> (res: Result<(), Error>)
        requires
            old(self).wf(),
            old(self)@.admits(*e),
        ensures
            final(self).wf(),
            match old(self)@.apply(*e) {
                Ok(g) => res is Ok && final(self)@ == g,
                Err(x) => res == Err::<(), Error>(x) && final(self)@ == old(self)@,
            },
    {
        proof {
            if old(self)@.apply(*e) is Ok {
                lemma_apply_wf(old(self)@, *e);
            }
        }
        match e {
            Event::RoundStart => {
                if self.players[0].stack_len() == 0 || self.players[1].stack_len() == 0 {
                    return Err(Error::NoCardsInStack);
                }
                self.effects.expire_and_revert(Expiry::RoundStart);
                let _ = self.players[0].draw();
                let _ = self.players[1].draw();
                proof {
                    assert(self@.players =~= old(self)@.apply(*e).unwrap().players);
                }
                Ok(())
            },
            Event::Draw(r) => {
                let seat = r.player_index;
                match self.players[seat].draw() {
                    Err(x) => {
                        proof {
                            assert(self@.players =~= old(self)@.players);
                        }
                        Err(x)
                    },
                    Ok(_) => {
                        proof {
                            assert(self@.players =~= old(self)@.apply(*e).unwrap().players);
                        }
                        Ok(())
                    },
                }
            },
            Event::Summon(r) => {
                let seat = r.player_index;
                match self.players[seat].summon(*r) {
                    Err(x) => {
                        proof {
                            assert(self@.players =~= old(self)@.players);
                        }
                        Err(x)
                    },
                    Ok(()) => {
                        proof {
                            assert(self@.players =~= old(self)@.apply(*e).unwrap().players);
                        }
                        Ok(())
                    },
                }
            },
            Event::Dead(r) => {
                let seat = r.player_index;
                match self.players[seat].kill(*r) {
                    Err(x) => {
                        proof {
                            assert(self@.players =~= old(self)@.players);
                        }
                        Err(x)
                    },
                    Ok(()) => {
                        self.effects.expire_and_revert(Expiry::CardLeft(*r));
                        proof {
                            assert(self@.players =~= old(self)@.apply(*e).unwrap().players);
                        }
                        Ok(())
                    },
                }
            },
            Event::Grant(effect) => {
                self.apply_effect(*effect);
                Ok(())
            },
            Event::PassTurn => {
                if self.current_player_turn == 1 {
                    self.turn = self.turn + 1;
                    self.current_player_turn = 0;
                } else {
                    self.current_player_turn = 1;
                }
                Ok(())
            },
        }
    }

    /// Grants the effect: it joins the ledger, and from now on its deltas
    /// count for its target.
    pub fn apply_effect(&mut self, effect: Effect)
        requires
            old(self).wf(),
        ensures
            final(self)@ == (GameView {
                ledger: old(self)@.ledger.push(enter(effect)),
                ..old(self)@
            }),
            final(self).wf(),
    {
        self.effects.grant(effect);
        proof {
            assert forall|i: int| 0 <= i < self@.queue.len() implies self@.settled(
                #[trigger] self@.queue[i],
            ) by {
                assert(old(self)@.settled(old(self)@.queue[i]));
            }
        }
    }

    /// Sweeps the ledger on the given occasion: what expires leaves, and its
    /// deltas no longer count.
    pub fn filter_expired_effects(&mut self, t: Expiry)
        requires
            old(self).wf(),
        ensures
            final(self)@ == (GameView { ledger: sweep(old(self)@.ledger, t), ..old(self)@ }),
            final(self).wf(),
    {
        self.effects.expire_and_revert(t);
        proof {
            assert forall|i: int| 0 <= i < self@.queue.len() implies self@.settled(
                #[trigger] self@.queue[i],
            ) by {
                assert(old(self)@.settled(old(self)@.queue[i]));
            }
        }
    }

    /// Ends the current battle: the effects that last for the battle leave.
    pub fn end_battle(&mut self)
        requires
            old(self).wf(),
        ensures
            final(self)@ == (GameView {
                ledger: sweep(old(self)@.ledger, Expiry::BattleEnd),
                ..old(self)@
            }),
            final(self).wf(),
    {
        self.filter_expired_effects(Expiry::BattleEnd);
    }

    /// Attack of `r` as it stands.
    pub fn attack_of(&self, r: CardIndex) -> (v: i128)
        requires
            self@.knows(r),
        ensures
            v == self@.attack_of(r),
    {
        let entries = self.effects.len();
        let bonus = self.effects.attack_bonus(r);
        proof {
            assert(entries <= usize::MAX);
            crate::ledger::lemma_bonus_bounds(self@.ledger, r);
        }
        self.card(r).attack_point as i128 + bonus
    }

    /// Defense of `r` as it stands.
    pub fn defense_of(&self, r: CardIndex) -> (v: i128)
        requires
            self@.knows(r),
        ensures
            v == self@.defense_of(r),
    {
        let entries = self.effects.len();
        let bonus = self.effects.defense_bonus(r);
        proof {
            assert(entries <= usize::MAX);
            crate::ledger::lemma_bonus_bounds(self@.ledger, r);
        }
        self.card(r).defense_point as i128 + bonus
    }

    /// Cost of `r` as it stands.
    pub fn cost_of(&self, r: CardIndex) -> (v: i128)
        requires
            self@.knows(r),
        ensures
            v == self@.cost_of(r),
    {
        let entries = self.effects.len();
        let bonus = self.effects.cost_bonus(r);
        proof {
            assert(entries <= usize::MAX);
            crate::ledger::lemma_bonus_bounds(self@.ledger, r);
        }
        self.card(r).cost as i128 + bonus
    }
    /// Appends to `out` what the card `me` answers to the event: its template
    /// first, then its keywords.
    fn answers_of(&self, e: &Event, me: CardIndex, out: &mut Vec<Event>)
        requires
            self.wf(),
            self@.knows(me),
        ensures
            final(out)@ == old(out)@ + self@.card_reactions(*e, me),
    {
        let card = self.card(me);
        match card.react(e, me, self) {
            Some(mut answer) => {
                out.append(&mut answer);
            },
            None => {},
        }
        let n = card.keywords.len();
        let mut j: usize = 0;
        let ghost own = flat(self@.react(card@.reaction, *e, me));
        proof {
            assert(card.keywords@.take(0) =~= Seq::empty());
            assert(out@ =~= old(out)@ + own + self@.keyword_reactions(
                card.keywords@.take(0),
                *e,
                me,
            ));
        }
        while j < n
            invariant
                self.wf(),
                me.player_index < 2,
                n == card.keywords@.len(),
                j <= n,
                out@ == old(out)@ + own + self@.keyword_reactions(
                    card.keywords@.take(j as int),
                    *e,
                    me,
                ),
            decreases n - j,
        {
            let ghost seen = card.keywords@.take(j as int);
            let ghost before = out@;
            proof {
                assert(card.keywords@.take(j + 1).drop_last() =~= seen);
                assert(card.keywords@.take(j + 1).last() == card.keywords@[j as int]);
            }
            match card.keywords[j].react(e, me, self) {
                Some(mut answer) => {
                    out.append(&mut answer);
                },
                None => {},
            }
            proof {
                let next = flat(self@.react(card.keywords@[j as int].reaction, *e, me));
                assert(out@ =~= before + next);
                assert(out@ =~= old(out)@ + own + (self@.keyword_reactions(seen, *e, me) + next));
            }
            j += 1;
        }
        proof {
            assert(card.keywords@.take(n as int) =~= card.keywords@);
            assert(out@ =~= old(out)@ + (own + self@.keyword_reactions(card@.keywords, *e, me)));
        }
    }

    /// Asks every card that may react for its answer to the event and
    /// appends the answers, in reaction order, to the queue.
    pub fn propagate_event(&mut self, e: &Event) -> (res: Result<(), Error>)
        requires
            old(self).wf(),
        ensures
            res is Ok,
            final(self)@ == old(self)@.propagate(*e),
            final(self).wf(),
    {
        let seat = self.current_player_turn;
        let mut fresh: Vec<Event> = Vec::new();
        let ghost field = self@.players[seat as int].battlefield;
        let ghost hand = self@.players[seat as int].hand;
        proof {
            lemma_reacting_owned(self@);
            assert(field.take(0) =~= Seq::empty());
        }
        let field_len = self.players[seat].summons().len();
        let mut i: usize = 0;
        while i < field_len
            invariant
                self.wf(),
                *self == *old(self),
                seat == self@.current,
                field == self@.players[seat as int].battlefield,
                hand == self@.players[seat as int].hand,
                field_len == field.len(),
                i <= field_len,
                forall|k: int|
                    0 <= k < self@.reacting().len() ==> self@.players[self@.current].owns(
                        #[trigger] self@.reacting()[k],
                    ),
                fresh@ == self@.reactions_of(field.take(i as int), *e),
            decreases field_len - i,
        {
            let me = self.players[seat].summons()[i];
            proof {
                assert(self@.reacting()[i as int] == me);
                assert(field.take(i + 1).drop_last() =~= field.take(i as int));
                assert(field.take(i + 1).last() == me);
            }
            self.answers_of(e, me, &mut fresh);
            i += 1;
        }
        proof {
            assert(field.take(field_len as int) =~= field);
            assert(field + hand.take(0) =~= field);
        }
        let hand_len = self.players[seat].hands().len();
        let mut j: usize = 0;
        while j < hand_len
            invariant
                self.wf(),
                *self == *old(self),
                seat == self@.current,
                field == self@.players[seat as int].battlefield,
                hand == self@.players[seat as int].hand,
                hand_len == hand.len(),
                j <= hand_len,
                forall|k: int|
                    0 <= k < self@.reacting().len() ==> self@.players[self@.current].owns(
                        #[trigger] self@.reacting()[k],
                    ),
                fresh@ == self@.reactions_of(field + hand.take(j as int), *e),
            decreases hand_len - j,
        {
            let me = self.players[seat].hands()[j];
            proof {
                assert(self@.reacting()[field.len() + j] == me);
                assert((field + hand.take(j + 1)).drop_last() =~= field + hand.take(j as int));
                assert((field + hand.take(j + 1)).last() == me);
            }
            self.answers_of(e, me, &mut fresh);
            j += 1;
        }
        proof {
            assert(hand.take(hand_len as int) =~= hand);
            lemma_propagate_wf(self@, *e);
        }
        self.events.append(&mut fresh);
        Ok(())
    }

    fn checkpoint(&self) -> (cp: Checkpoint)
        ensures
            cp.of(self@),
    {
        Checkpoint {
            first: self.players[0].snapshot(),
            second: self.players[1].snapshot(),
            effects: self.effects.snapshot(),
            events: copy_events(&self.events),
            turn: self.turn,
            current_player_turn: self.current_player_turn,
        }
    }

    fn rollback(&mut self, cp: Checkpoint, Ghost(before): Ghost<GameView>)
        requires
            cp.of(before),
            before.wf(),
            old(self)@.same_table(before),
        ensures
            final(self)@ == before,
    {
        proof {
            assert(self@.players[0].with_zones(cp.first@) == before.players[0]);
            assert(self@.players[1].with_zones(cp.second@) == before.players[1]);
        }
        self.players[0].restore(cp.first);
        self.players[1].restore(cp.second);
        self.effects = cp.effects;
        self.events = cp.events;
        self.turn = cp.turn;
        self.current_player_turn = cp.current_player_turn;
        proof {
            assert(self@.players =~= before.players);
        }
    }

    /// Resolves the queue head first with at most `fuel` events. A failure
    /// puts back the state that the checkpoint holds.
    fn run(&mut self, fuel: usize, cp: Checkpoint, Ghost(before): Ghost<GameView>) -> (res: Result<
        (),
        Error,
    >)
        requires
            old(self).wf(),
            cp.of(before),
            before.wf(),
            old(self)@.same_table(before),
        ensures
            final(self).wf(),
            match old(self)@.drain(fuel as nat) {
                Ok(g) => res is Ok && final(self)@ == g,
                Err(x) => res == Err::<(), Error>(x) && final(self)@ == before,
            },
    {
        let mut left = fuel;
        while self.events.len() > 0
            invariant
                self.wf(),
                cp.of(before),
                before.wf(),
                self@.same_table(before),
                self@.drain(left as nat) == old(self)@.drain(fuel as nat),
            decreases left,
        {
            if left == 0 {
                self.rollback(cp, Ghost(before));
                return Err(Error::ResolutionDepthExceeded);
            }
            let ghost top = self@;
            proof {
                lemma_pop_wf(top);
            }
            let e = self.events.remove(0);
            proof {
                assert(self@.queue =~= top.queue.drop_first());
                assert(self@ == top.pop());
                if top.pop().apply(e) is Ok {
                    lemma_apply_wf(top.pop(), e);
                    lemma_propagate_wf(top.pop().apply(e).unwrap(), e);
                }
            }
            match self.apply_event(&e) {
                Err(x) => {
                    self.rollback(cp, Ghost(before));
                    return Err(x);
                },
                Ok(()) => {},
            }
            let _ = self.propagate_event(&e);
            left = left - 1;
        }
        Ok(())
    }

    /// Resolves the event and everything it sets off: the event lands, the
    /// answers to it are queued, and the queue is resolved head first until
    /// it is empty. If any event of the cascade fails, or the cascade is
    /// longer than the game allows, the failure is returned and the game is as
    /// it was before the call.
    pub fn consume_event(&mut self, e: Event) -> (res: Result<(), Error>)
        requires
            old(self).wf(),
            old(self)@.admits(e),
        ensures
            final(self).wf(),
            match old(self)@.consume(e) {
                Ok(g) => res is Ok && final(self)@ == g,
                Err(x) => res == Err::<(), Error>(x) && final(self)@ == old(self)@,
            },
    {
        if self.max_depth == 0 {
            return Err(Error::ResolutionDepthExceeded);
        }
        let cp = self.checkpoint();
        let ghost before = self@;
        proof {
            if before.apply(e) is Ok {
                lemma_apply_wf(before, e);
                lemma_propagate_wf(before.apply(e).unwrap(), e);
            }
        }
        match self.apply_event(&e) {
            Err(x) => {
                return Err(x);
            },
            Ok(()) => {},
        }
        let _ = self.propagate_event(&e);
        let fuel = self.max_depth - 1;
        self.run(fuel, cp, Ghost(before))
    }

    /// Resolves the pending events head first until the queue is empty. If
    /// any of them fails, or they are more than the game allows for one
    /// decision, the failure is returned and the game is as it was before
    /// the call.
    pub fn resolve(&mut self) -> (res: Result<(), Error>)
        requires
            old(self).wf(),
        ensures
            final(self).wf(),
            match old(self)@.drain(old(self)@.max_depth) {
                Ok(g) => res is Ok && final(self)@ == g,
                Err(x) => res == Err::<(), Error>(x) && final(self)@ == old(self)@,
            },
    {
        let cp = self.checkpoint();
        let ghost before = self@;
        let fuel = self.max_depth;
        self.run(fuel, cp, Ghost(before))
    }
    /// The player who owns `card_index`, to change in place. The game is as
    /// consistent afterwards as the player is left.
    pub fn owner_mut(&mut self, card_index: CardIndex) -> (p: &mut Player)
        requires
            card_index.player_index < 2,
        ensures
            p@ == old(self)@.players[card_index.player_index as int],
            final(self)@.players =~= old(self)@.players.update(
                card_index.player_index as int,
                final(p)@,
            ),
            final(self)@ == (GameView { players: final(self)@.players, ..old(self)@ }),
    {
        &mut self.players[card_index.player_index]
    }

    /// Carries out one decision of the player whose turn it is. `None`
    /// passes the turn, and the answer is `true`: the turn is over.
    /// `Some` summons that card of the hand, with everything that sets off,
    /// and the answer is `false`. A choice that is not in the hand is refused
    /// like any summon of a card that is not there. After a failure the game
    /// is as it was.
    pub fn decide(&mut self, choice: Option<CardIndex>) -> (res: Result<bool, Error>)
        requires
            old(self).wf(),
            choice is None && old(self)@.current == 1 ==> old(self)@.round < usize::MAX,
        ensures
            final(self).wf(),
            match old(self)@.decide(choice) {
                Ok(g) => res == Ok::<bool, Error>(choice is None) && final(self)@ == g,
                Err(x) => res == Err::<bool, Error>(x) && final(self)@ == old(self)@,
            },
    {
        match choice {
            None => match self.consume_event(Event::PassTurn) {
                Ok(()) => Ok(true),
                Err(x) => Err(x),
            },
            Some(c) => {
                if !self.players[self.current_player_turn].in_hand(c) {
                    return Err(Error::CardIndexNotFoundInHands(c));
                }
                proof {
                    let p = self@.players[self@.current];
                    assert(p.zone_count(c) > 0);
                }
                match self.consume_event(Event::Summon(c)) {
                    Ok(()) => Ok(false),
                    Err(x) => Err(x),
                }
            },
        }
    }

    /// Plays the turn of the player whose turn it is: asks the one who
    /// decides for them, hand in hand, for a card to summon or a pass, and
    /// carries each decision out, until a pass ends the turn or a decision
    /// fails. Whatever was chosen, the outcome is the one that the choices
    /// made determine.
    pub fn turn(&mut self) -> (res: Result<(), Error>)
        requires
            old(self).wf(),
            old(self)@.current == 1 ==> old(self)@.round < usize::MAX,
        ensures
            final(self).wf(),
            exists|choices: Seq<Option<CardIndex>>|
                turn_account(old(self)@, choices, res, final(self)@),
    {
        let seat = self.current_player_turn;
        let ghost mut log: Seq<Option<CardIndex>> = Seq::empty();
        loop
            invariant
                self.wf(),
                seat == self@.current,
                self@.round == old(self)@.round,
                seat == 1 ==> old(self)@.round < usize::MAX,
                old(self)@.replay(log) == Ok::<GameView, Error>(self@),
                forall|i: int| 0 <= i < log.len() ==> (#[trigger] log[i]) is Some,
            decreases self@.players[seat as int].hand.len(),
        {
            let choice = self.users[seat].pick_or_pass(self.players[seat].hands().as_slice());
            let ghost here = self@;
            let ghost told = log.push(choice);
            proof {
                assert(told.drop_last() =~= log);
                assert forall|i: int| 0 <= i < told.len() - 1 implies (#[trigger] told[i]) is Some by {
                    assert(log[i] is Some);
                }
                if let Some(c) = choice {
                    if here.decide(choice) is Ok {
                        assert(here.players[here.current].zone_count(c) > 0);
                        lemma_consume_summon(here, c);
                        crate::seqs::lemma_take_out(
                            here.players[here.current].hand,
                            here.players[here.current].hand.index_of(c),
                        );
                    }
                }
            }
            match self.decide(choice) {
                Err(x) => {
                    proof {
                        assert(turn_account(old(self)@, told, Err::<(), Error>(x), self@));
                    }
                    return Err(x);
                },
                Ok(over) => {
                    if over {
                        proof {
                            assert(turn_account(old(self)@, told, Ok::<(), Error>(()), self@));
                        }
                        return Ok(());
                    }
                    proof {
                        log = told;
                    }
                },
            }
        }
    }
}

} // verus!
