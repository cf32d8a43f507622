use crate::errors::Error;
use crate::model::{deck_view, Card, CardIndex, CardView};
use crate::seqs::{lemma_index_of_unique, lemma_put_in, lemma_take_out};
use vstd::prelude::*;

verus! {

/// One player's state: the deck list, the four zones and the mana pool.
pub struct Player {
    index: usize,
    deck: Vec<Card>,
    stack: Vec<CardIndex>,
    cemetry: Vec<CardIndex>,
    hands: Vec<CardIndex>,
    summons: Vec<CardIndex>,
    mana: i32,
    mana_cap: i32,
    spell_mana: u32,
}

/// A player's state as a mathematical value. The top of the draw stack is
/// the last element of `stack`.
pub struct PlayerView {
    pub index: usize,
    pub deck: Seq<CardView>,
    pub stack: Seq<CardIndex>,
    pub hand: Seq<CardIndex>,
    pub battlefield: Seq<CardIndex>,
    pub graveyard: Seq<CardIndex>,
    pub mana: int,
    pub mana_cap: int,
    pub spell_mana: int,
}

/// What of a player's state an event can change: the zones and the pools.
pub struct ZonesView {
    pub stack: Seq<CardIndex>,
    pub hand: Seq<CardIndex>,
    pub battlefield: Seq<CardIndex>,
    pub graveyard: Seq<CardIndex>,
    pub mana: int,
    pub spell_mana: int,
}

/// A copy of a player's zones and pools, to put back later.
pub struct ZoneSnapshot {
    stack: Vec<CardIndex>,
    cemetry: Vec<CardIndex>,
    hands: Vec<CardIndex>,
    summons: Vec<CardIndex>,
    mana: i32,
    spell_mana: u32,
}

impl View for ZoneSnapshot {
    type V = ZonesView;

    closed spec fn view(&self) -> ZonesView {
        ZonesView {
            stack: self.stack@,
            hand: self.hands@,
            battlefield: self.summons@,
            graveyard: self.cemetry@,
            mana: self.mana as int,
            spell_mana: self.spell_mana as int,
        }
    }
}

impl PlayerView {
    /// The number of zones that hold `r`: each zone counts once.
    pub open spec fn zone_count(self, r: CardIndex) -> nat {
        let in_stack: nat = if self.stack.contains(r) { 1 } else { 0 };
        let in_hand: nat = if self.hand.contains(r) { 1 } else { 0 };
        let in_battlefield: nat = if self.battlefield.contains(r) { 1 } else { 0 };
        let in_graveyard: nat = if self.graveyard.contains(r) { 1 } else { 0 };
        in_stack + in_hand + in_battlefield + in_graveyard
    }

    /// `r` names a slot of this player's deck.
    pub open spec fn owns(self, r: CardIndex) -> bool {
        r.player_index == self.index && r.card_index < self.deck.len()
    }

    /// No reference occurs twice: neither within a zone nor in two zones.
    pub open spec fn exclusive(self) -> bool {
        &&& self.stack.no_duplicates()
        &&& self.hand.no_duplicates()
        &&& self.battlefield.no_duplicates()
        &&& self.graveyard.no_duplicates()
        &&& forall|r: CardIndex| (#[trigger] self.zone_count(r)) <= 1
    }

    /// The state is consistent: zones are exclusive, they hold one reference
    /// for each slot of the deck and none that the player does not own, and
    /// the pools are within their limits.
    pub open spec fn wf(self) -> bool {
        &&& self.exclusive()
        &&& forall|r: CardIndex| (#[trigger] self.zone_count(r)) > 0 ==> self.owns(r)
        &&& self.stack.len() + self.hand.len() + self.battlefield.len() + self.graveyard.len()
            == self.deck.len()
        &&& 0 <= self.mana <= self.mana_cap <= i32::MAX
        &&& 0 <= self.spell_mana <= u32::MAX
    }

    /// A player who has not played yet: every slot of the deck is on the draw
    /// stack, slot 0 on top, and the pools are empty and uncapped.
    pub open spec fn fresh(index: usize, deck: Seq<CardView>) -> PlayerView {
        PlayerView {
            index,
            deck,
            stack: Seq::new(
                deck.len(),
                |i: int| CardIndex { player_index: index, card_index: (deck.len() - 1 - i) as usize },
            ),
            hand: Seq::empty(),
            battlefield: Seq::empty(),
            graveyard: Seq::empty(),
            mana: 0,
            mana_cap: i32::MAX as int,
            spell_mana: 0,
        }
    }

    pub open spec fn zones_view(self) -> ZonesView {
        ZonesView {
            stack: self.stack,
            hand: self.hand,
            battlefield: self.battlefield,
            graveyard: self.graveyard,
            mana: self.mana,
            spell_mana: self.spell_mana,
        }
    }

    pub open spec fn with_zones(self, z: ZonesView) -> PlayerView {
        PlayerView {
            stack: z.stack,
            hand: z.hand,
            battlefield: z.battlefield,
            graveyard: z.graveyard,
            mana: z.mana,
            spell_mana: z.spell_mana,
            ..self
        }
    }

    /// Adds `n` to the pool. The pool stays between zero and its cap.
    pub open spec fn charge_mana(self, n: int) -> Result<PlayerView, Error> {
        if self.mana + n > self.mana_cap {
            Err(Error::ManaOverFlow)
        } else if self.mana + n < 0 {
            Err(Error::NotEnoughMana)
        } else {
            Ok(PlayerView { mana: self.mana + n, ..self })
        }
    }

    /// Takes `n` from the pool. The pool stays between zero and its cap.
    pub open spec fn consume_mana(self, n: int) -> Result<PlayerView, Error> {
        if self.mana < n {
            Err(Error::NotEnoughMana)
        } else if self.mana - n > self.mana_cap {
            Err(Error::ManaOverFlow)
        } else {
            Ok(PlayerView { mana: self.mana - n, ..self })
        }
    }

    /// Moves the top of the draw stack to the hand.
    pub open spec fn draw(self) -> Result<PlayerView, Error> {
        if self.stack.len() == 0 {
            Err(Error::NoCardsInStack)
        } else {
            Ok(
                PlayerView {
                    stack: self.stack.drop_last(),
                    hand: self.hand.push(self.stack.last()),
                    ..self
                },
            )
        }
    }

    /// Pays the printed cost of `r` and moves it from the hand to the
    /// battlefield.
    pub open spec fn summon(self, r: CardIndex) -> Result<PlayerView, Error> {
        if !self.hand.contains(r) {
            Err(Error::CardIndexNotFoundInHands(r))
        } else {
            match self.consume_mana(self.deck[r.card_index as int].cost) {
                Err(e) => Err(e),
                Ok(paid) => Ok(
                    PlayerView {
                        hand: self.hand.remove(self.hand.index_of(r)),
                        battlefield: self.battlefield.push(r),
                        ..paid
                    },
                ),
            }
        }
    }

    /// Moves `r` from the battlefield to the graveyard.
    pub open spec fn kill(self, r: CardIndex) -> Result<PlayerView, Error> {
        if !self.battlefield.contains(r) {
            Err(Error::CardIndexNotFoundInSummons(r))
        } else {
            Ok(
                PlayerView {
                    battlefield: self.battlefield.remove(self.battlefield.index_of(r)),
                    graveyard: self.graveyard.push(r),
                    ..self
                },
            )
        }
    }

    /// Sets the cap of the pool, unless the pool is above it already.
    pub open spec fn set_mana_cap(self, cap: int) -> Result<PlayerView, Error> {
        if cap < self.mana {
            Err(Error::ManaOverFlow)
        } else {
            Ok(PlayerView { mana_cap: cap, ..self })
        }
    }
}

/// A fresh player is consistent.
pub proof fn lemma_fresh_wf(index: usize, deck: Seq<CardView>)
    requires
        deck.len() <= usize::MAX,
    ensures
        PlayerView::fresh(index, deck).wf(),
{
    let p = PlayerView::fresh(index, deck);
    assert forall|r: CardIndex| (#[trigger] p.zone_count(r)) <= 1 by {}
    assert forall|r: CardIndex| (#[trigger] p.zone_count(r)) > 0 implies p.owns(r) by {
        assert(p.stack.contains(r));
        let j = choose|j: int| 0 <= j < p.stack.len() && p.stack[j] == r;
        assert(p.stack[j] == r);
    }
}

/// A consistent state stays consistent when only the pools change, within
/// their limits.
pub proof fn lemma_same_zones_wf(p: PlayerView, q: PlayerView)
    requires
        p.wf(),
        q.index == p.index,
        q.deck == p.deck,
        q.stack == p.stack,
        q.hand == p.hand,
        q.battlefield == p.battlefield,
        q.graveyard == p.graveyard,
        0 <= q.mana <= q.mana_cap <= i32::MAX,
        0 <= q.spell_mana <= u32::MAX,
    ensures
        q.wf(),
{
    assert forall|r: CardIndex| (#[trigger] q.zone_count(r)) <= 1 && (q.zone_count(r) > 0
        ==> q.owns(r)) by {
        assert(q.zone_count(r) == p.zone_count(r));
    }
}

/// A draw keeps the state consistent.
pub proof fn lemma_draw_wf(p: PlayerView)
    requires
        p.wf(),
        p.draw() is Ok,
    ensures
        p.draw().unwrap().wf(),
{
    let q = p.draw().unwrap();
    let top = p.stack.last();
    let at = p.stack.len() - 1;
    assert(p.stack.drop_last() =~= p.stack.remove(at));
    lemma_take_out(p.stack, at);
    lemma_index_of_unique(p.stack, at);
    assert(p.zone_count(top) <= 1);
    lemma_put_in(p.hand, top);
    assert forall|r: CardIndex| (#[trigger] q.zone_count(r)) <= 1 && (q.zone_count(r) > 0
        ==> q.owns(r)) by {
        assert(p.zone_count(r) <= 1);
        assert(q.zone_count(r) == p.zone_count(r));
    }
}

/// A summon keeps the state consistent.
pub proof fn lemma_summon_wf(p: PlayerView, r: CardIndex)
    requires
        p.wf(),
        p.summon(r) is Ok,
    ensures
        p.summon(r).unwrap().wf(),
{
    let q = p.summon(r).unwrap();
    let at = p.hand.index_of(r);
    assert(0 <= at < p.hand.len() && p.hand[at] == r);
    lemma_take_out(p.hand, at);
    assert(p.zone_count(r) <= 1);
    lemma_put_in(p.battlefield, r);
    assert forall|x: CardIndex| (#[trigger] q.zone_count(x)) <= 1 && (q.zone_count(x) > 0
        ==> q.owns(x)) by {
        assert(p.zone_count(x) <= 1);
        assert(q.zone_count(x) == p.zone_count(x));
    }
}

/// A death keeps the state consistent.
pub proof fn lemma_kill_wf(p: PlayerView, r: CardIndex)
    requires
        p.wf(),
        p.kill(r) is Ok,
    ensures
        p.kill(r).unwrap().wf(),
{
    let q = p.kill(r).unwrap();
    let at = p.battlefield.index_of(r);
    assert(0 <= at < p.battlefield.len() && p.battlefield[at] == r);
    lemma_take_out(p.battlefield, at);
    assert(p.zone_count(r) <= 1);
    lemma_put_in(p.graveyard, r);
    assert forall|x: CardIndex| (#[trigger] q.zone_count(x)) <= 1 && (q.zone_count(x) > 0
        ==> q.owns(x)) by {
        assert(p.zone_count(x) <= 1);
        assert(q.zone_count(x) == p.zone_count(x));
    }
}

/// In a consistent state no reference is in two zones, and none is twice in
/// one.
pub proof fn lemma_zone_exclusivity(p: PlayerView, r: CardIndex)
    requires
        p.wf(),
    ensures
        !(p.stack.contains(r) && p.hand.contains(r)),
        !(p.stack.contains(r) && p.battlefield.contains(r)),
        !(p.stack.contains(r) && p.graveyard.contains(r)),
        !(p.hand.contains(r) && p.battlefield.contains(r)),
        !(p.hand.contains(r) && p.graveyard.contains(r)),
        !(p.battlefield.contains(r) && p.graveyard.contains(r)),
        p.stack.no_duplicates(),
        p.hand.no_duplicates(),
        p.battlefield.no_duplicates(),
        p.graveyard.no_duplicates(),
{
    assert(p.zone_count(r) <= 1);
}

/// The references of all four zones in one sequence: draw stack, hand,
/// battlefield, graveyard.
pub open spec fn all_zones(p: PlayerView) -> Seq<CardIndex> {
    p.stack + p.hand + p.battlefield + p.graveyard
}

/// In a consistent state every card of the deck is in exactly one zone.
pub proof fn lemma_exactly_one_zone(p: PlayerView, r: CardIndex)
    requires
        p.wf(),
        p.owns(r),
    ensures
        p.zone_count(r) == 1,
{
    let z = all_zones(p);
    let n = p.deck.len() as int;
    assert forall|i: int| 0 <= i < z.len() implies p.zone_count(#[trigger] z[i]) > 0 by {
        let x = z[i];
        if i < p.stack.len() {
            assert(p.stack[i] == x);
        } else if i < p.stack.len() + p.hand.len() {
            assert(p.hand[i - p.stack.len()] == x);
        } else if i < p.stack.len() + p.hand.len() + p.battlefield.len() {
            assert(p.battlefield[i - p.stack.len() - p.hand.len()] == x);
        } else {
            assert(p.graveyard[i - p.stack.len() - p.hand.len() - p.battlefield.len()] == x);
        }
    }
    assert(z.no_duplicates()) by {
        assert forall|i: int, j: int| 0 <= i < p.stack.len() && 0 <= j < p.hand.len() implies p.stack[i]
            != p.hand[j] by {
            assert(p.zone_count(p.stack[i]) <= 1);
        }
        vstd::seq_lib::lemma_no_dup_in_concat(p.stack, p.hand);
        let sh = p.stack + p.hand;
        assert forall|i: int, j: int| 0 <= i < sh.len() && 0 <= j < p.battlefield.len() implies sh[i]
            != p.battlefield[j] by {
            assert(p.zone_count(p.battlefield[j]) <= 1);
            if i < p.stack.len() {
                assert(p.stack[i] == sh[i]);
            } else {
                assert(p.hand[i - p.stack.len()] == sh[i]);
            }
        }
        vstd::seq_lib::lemma_no_dup_in_concat(sh, p.battlefield);
        let shb = sh + p.battlefield;
        assert forall|i: int, j: int| 0 <= i < shb.len() && 0 <= j < p.graveyard.len() implies shb[i]
            != p.graveyard[j] by {
            assert(p.zone_count(p.graveyard[j]) <= 1);
            assert(z[i] == shb[i]);
            assert(p.zone_count(z[i]) > 0);
            if i < p.stack.len() {
                assert(p.stack[i] == shb[i]);
            } else if i < p.stack.len() + p.hand.len() {
                assert(p.hand[i - p.stack.len()] == shb[i]);
            } else {
                assert(p.battlefield[i - p.stack.len() - p.hand.len()] == shb[i]);
            }
        }
        vstd::seq_lib::lemma_no_dup_in_concat(shb, p.graveyard);
    }
    let slots = z.map_values(|x: CardIndex| x.card_index as int);
    assert(slots.no_duplicates()) by {
        assert forall|i: int, j: int| 0 <= i < slots.len() && 0 <= j < slots.len() && i
            != j implies slots[i] != slots[j] by {
            assert(p.owns(z[i]) && p.owns(z[j]));
            assert(z[i] != z[j]);
        }
    }
    slots.unique_seq_to_set();
    vstd::set_lib::lemma_int_range(0, n);
    let all = vstd::set_lib::set_int_range(0, n);
    assert(slots.to_set().subset_of(all)) by {
        assert forall|v: int| slots.to_set().contains(v) implies all.contains(v) by {
            let i = choose|i: int| 0 <= i < slots.len() && slots[i] == v;
            assert(p.owns(z[i]));
        }
    }
    vstd::set_lib::lemma_len_subset(slots.to_set(), all);
    vstd::set_lib::lemma_subset_equality(slots.to_set(), all);
    assert(all.contains(r.card_index as int));
    assert(slots.to_set().contains(r.card_index as int));
    assert(slots.contains(r.card_index as int));
    let i = choose|i: int| 0 <= i < slots.len() && slots[i] == r.card_index as int;
    assert(p.owns(z[i]));
    assert(z[i] == r);
    assert(p.zone_count(z[i]) > 0);
    assert(p.zone_count(r) <= 1);
}

fn position(v: &Vec<CardIndex>, r: CardIndex) -> (res: Option<usize>)
    ensures
        match res {
            Some(i) => i < v@.len() && v@[i as int] == r,
            None => !v@.contains(r),
        },
{
    let mut i: usize = 0;
    while i < v.len()
        invariant
            i <= v.len(),
            forall|j: int| 0 <= j < i ==> v@[j] != r,
        decreases v.len() - i,
    {
        if v[i] == r {
            return Some(i);
        }
        i += 1;
    }
    None
}

fn copy_refs(v: &Vec<CardIndex>) -> (res: Vec<CardIndex>)
    ensures
        res@ == v@,
{
    let mut out: Vec<CardIndex> = Vec::new();
    let mut i: usize = 0;
    while i < v.len()
        invariant
            i <= v.len(),
            out@ == v@.take(i as int),
        decreases v.len() - i,
    {
        out.push(v[i]);
        assert(v@.take(i + 1) =~= v@.take(i as int).push(v@[i as int]));
        i += 1;
    }
    assert(v@.take(v@.len() as int) =~= v@);
    out
}

impl View for Player {
    type V = PlayerView;

    closed spec fn view(&self) -> PlayerView {
        PlayerView {
            index: self.index,
            deck: deck_view(self.deck@),
            stack: self.stack@,
            hand: self.hands@,
            battlefield: self.summons@,
            graveyard: self.cemetry@,
            mana: self.mana as int,
            mana_cap: self.mana_cap as int,
            spell_mana: self.spell_mana as int,
        }
    }
}

impl Player {
    /// The state is consistent, see [`PlayerView::wf`].
    pub open spec fn wf(&self) -> bool {
        self@.wf()
    }

    /// Seats a player with the given deck list: every card is on the draw
    /// stack, the card of slot 0 on top.
    pub fn from_cards(index: usize, deck: Vec<Card>) -> (p: Player)
        ensures
            p@ == PlayerView::fresh(index, deck_view(deck@)),
            p.wf(),
    {
        let n = deck.len();
        let mut stack: Vec<CardIndex> = Vec::new();
        let mut k: usize = n;
        while k > 0
            invariant
                k <= n,
                stack@.len() == n - k,
                forall|i: int|
                    0 <= i < stack@.len() ==> stack@[i] == (CardIndex {
                        player_index: index,
                        card_index: (n - 1 - i) as usize,
                    }),
            decreases k,
        {
            k -= 1;
            stack.push(CardIndex::new(index, k));
        }
        let p = Player {
            index,
            deck,
            stack,
            cemetry: Vec::new(),
            hands: Vec::new(),
            summons: Vec::new(),
            mana: 0,
            mana_cap: i32::MAX,
            spell_mana: 0,
        };
        proof {
            let f = PlayerView::fresh(index, deck_view(p.deck@));
            assert(p@.stack =~= f.stack);
            assert(p@.hand =~= f.hand);
            assert(p@.battlefield =~= f.battlefield);
            assert(p@.graveyard =~= f.graveyard);
            lemma_fresh_wf(index, deck_view(p.deck@));
        }
        p
    }

    /// Seat of this player.
    pub fn index(&self) -> (r: usize)
        ensures
            r == self@.index,
    {
        self.index
    }

    /// The deck list, slot by slot.
    pub fn deck(&self) -> (r: &Vec<Card>)
        ensures
            deck_view(r@) == self@.deck,
    {
        &self.deck
    }

    /// The template in the slot that `card_index` names.
    pub fn card(&self, card_index: CardIndex) -> (r: &Card)
        requires
            card_index.card_index < self@.deck.len(),
        ensures
            r@ == self@.deck[card_index.card_index as int],
    {
        &self.deck[card_index.card_index()]
    }

    /// The battlefield, oldest summon first.
    pub fn summons(&self) -> (r: &Vec<CardIndex>)
        ensures
            r@ == self@.battlefield,
    {
        &self.summons
    }

    /// The hand, oldest draw first.
    pub fn hands(&self) -> (r: &Vec<CardIndex>)
        ensures
            r@ == self@.hand,
    {
        &self.hands
    }

    /// The graveyard, oldest death first.
    pub fn graveyard(&self) -> (r: &Vec<CardIndex>)
        ensures
            r@ == self@.graveyard,
    {
        &self.cemetry
    }

    /// The card that the next draw takes, if the draw stack holds any.
    pub fn stack_top(&self) -> (r: Option<CardIndex>)
        ensures
            r == if self@.stack.len() > 0 {
                Some(self@.stack.last())
            } else {
                None
            },
    {
        let n = self.stack.len();
        if n == 0 {
            None
        } else {
            Some(self.stack[n - 1])
        }
    }

    /// Whether `card_index` is in the hand.
    pub fn in_hand(&self, card_index: CardIndex) -> (b: bool)
        ensures
            b == self@.hand.contains(card_index),
    {
        position(&self.hands, card_index).is_some()
    }

    /// Whether `card_index` is on the battlefield.
    pub fn in_play(&self, card_index: CardIndex) -> (b: bool)
        ensures
            b == self@.battlefield.contains(card_index),
    {
        position(&self.summons, card_index).is_some()
    }

    /// Number of cards on the draw stack.
    pub fn stack_len(&self) -> (r: usize)
        ensures
            r == self@.stack.len(),
    {
        self.stack.len()
    }

    pub fn mana(&self) -> (r: i32)
        ensures
            r == self@.mana,
    {
        self.mana
    }

    pub fn mana_cap(&self) -> (r: i32)
        ensures
            r == self@.mana_cap,
    {
        self.mana_cap
    }

    pub fn spell_mana(&self) -> (r: u32)
        ensures
            r == self@.spell_mana,
    {
        self.spell_mana
    }

    /// Moves the top of the draw stack to the hand and returns it. With an
    /// empty draw stack nothing changes.
    pub fn draw(&mut self) -> (res: Result<CardIndex, Error>)
        requires
            old(self).wf(),
        ensures
            final(self).wf(),
            match old(self)@.draw() {
                Ok(p) => res == Ok::<CardIndex, Error>(old(self)@.stack.last()) && final(self)@
                    == p,
                Err(e) => res == Err::<CardIndex, Error>(e) && *final(self) == *old(self),
            },
    {
        let n = self.stack.len();
        if n == 0 {
            return Err(Error::NoCardsInStack);
        }
        let top = self.stack.remove(n - 1);
        self.hands.push(top);
        proof {
            assert(old(self)@.stack.remove(n - 1) =~= old(self)@.stack.drop_last());
            lemma_draw_wf(old(self)@);
        }
        Ok(top)
    }

    /// Pays the printed cost of `card_index` and moves it from the hand to the
    /// battlefield, or fails and changes nothing.
    pub fn summon(&mut self, card_index: CardIndex) -> (res: Result<(), Error>)
        requires
            old(self).wf(),
        ensures
            final(self).wf(),
            match old(self)@.summon(card_index) {
                Ok(p) => res is Ok && final(self)@ == p,
                Err(e) => res == Err::<(), Error>(e) && *final(self) == *old(self),
            },
    {
        match position(&self.hands, card_index) {
            None => Err(Error::CardIndexNotFoundInHands(card_index)),
            Some(at) => {
                proof {
                    lemma_index_of_unique(self@.hand, at as int);
                    assert(self@.zone_count(card_index) > 0);
                }
                let cost = self.deck[card_index.card_index()].cost;
                match self.consume_mana(cost) {
                    Err(e) => Err(e),
                    Ok(()) => {
                        self.hands.remove(at);
                        self.summons.push(card_index);
                        proof {
                            lemma_summon_wf(old(self)@, card_index);
                        }
                        Ok(())
                    },
                }
            },
        }
    }

    /// Moves `card_index` from the battlefield to the graveyard, or fails and
    /// changes nothing.
    pub fn kill(&mut self, card_index: CardIndex) -> (res: Result<(), Error>)
        requires
            old(self).wf(),
        ensures
            final(self).wf(),
            match old(self)@.kill(card_index) {
                Ok(p) => res is Ok && final(self)@ == p,
                Err(e) => res == Err::<(), Error>(e) && *final(self) == *old(self),
            },
    {
        match position(&self.summons, card_index) {
            None => Err(Error::CardIndexNotFoundInSummons(card_index)),
            Some(at) => {
                proof {
                    lemma_index_of_unique(self@.battlefield, at as int);
                }
                self.summons.remove(at);
                self.cemetry.push(card_index);
                proof {
                    lemma_kill_wf(old(self)@, card_index);
                }
                Ok(())
            },
        }
    }

    /// Adds `mana` to the pool, or fails and changes nothing.
    pub fn charge_mana(&mut self, mana: i32) -> (res: Result<(), Error>)
        requires
            old(self).wf(),
        ensures
            final(self).wf(),
            match old(self)@.charge_mana(mana as int) {
                Ok(p) => res is Ok && final(self)@ == p,
                Err(e) => res == Err::<(), Error>(e) && *final(self) == *old(self),
            },
    {
        let sum: i64 = self.mana as i64 + mana as i64;
        if sum > self.mana_cap as i64 {
            Err(Error::ManaOverFlow)
        } else if sum < 0 {
            Err(Error::NotEnoughMana)
        } else {
            self.mana = sum as i32;
            proof {
                lemma_same_zones_wf(old(self)@, self@);
            }
            Ok(())
        }
    }

    /// Takes `mana` from the pool, or fails and changes nothing.
    pub fn consume_mana(&mut self, mana: i32) -> (res: Result<(), Error>)
        requires
            old(self).wf(),
        ensures
            final(self).wf(),
            match old(self)@.consume_mana(mana as int) {
                Ok(p) => res is Ok && final(self)@ == p,
                Err(e) => res == Err::<(), Error>(e) && *final(self) == *old(self),
            },
    {
        let rest: i64 = self.mana as i64 - mana as i64;
        if rest < 0 {
            Err(Error::NotEnoughMana)
        } else if rest > self.mana_cap as i64 {
            Err(Error::ManaOverFlow)
        } else {
            self.mana = rest as i32;
            proof {
                lemma_same_zones_wf(old(self)@, self@);
            }
            Ok(())
        }
    }

    /// Sets the cap of the pool, or fails and changes nothing where the pool
    /// is above the new cap.
    pub fn set_mana_cap(&mut self, cap: i32) -> (res: Result<(), Error>)
        requires
            old(self).wf(),
        ensures
            final(self).wf(),
            match old(self)@.set_mana_cap(cap as int) {
                Ok(p) => res is Ok && final(self)@ == p,
                Err(e) => res == Err::<(), Error>(e) && *final(self) == *old(self),
            },
    {
        if cap < self.mana {
            Err(Error::ManaOverFlow)
        } else {
            self.mana_cap = cap;
            proof {
                lemma_same_zones_wf(old(self)@, self@);
            }
            Ok(())
        }
    }

    /// Copies the zones and the pools.
    pub(crate) fn snapshot(&self) -> (s: ZoneSnapshot)
        ensures
            s@ == self@.zones_view(),
    {
        ZoneSnapshot {
            stack: copy_refs(&self.stack),
            cemetry: copy_refs(&self.cemetry),
            hands: copy_refs(&self.hands),
            summons: copy_refs(&self.summons),
            mana: self.mana,
            spell_mana: self.spell_mana,
        }
    }

    /// Puts copied zones and pools back.
    pub(crate) fn restore(&mut self, s: ZoneSnapshot)
        requires
            old(self)@.with_zones(s@).wf(),
        ensures
            final(self)@ == old(self)@.with_zones(s@),
            final(self).wf(),
    {
        self.stack = s.stack;
        self.cemetry = s.cemetry;
        self.hands = s.hands;
        self.summons = s.summons;
        self.mana = s.mana;
        self.spell_mana = s.spell_mana;
    }
}

impl Default for Player {
    /// The player of seat 0 with an empty deck.
    fn default() -> (p: Player)
        ensures
            p@ == PlayerView::fresh(0, Seq::empty()),
            p.wf(),
    {
        let p = Player::from_cards(0, Vec::new());
        proof {
            assert(p@.deck =~= Seq::<CardView>::empty());
            assert(p@.stack =~= PlayerView::fresh(0, Seq::empty()).stack);
        }
        p
    }
}

} // verus!
