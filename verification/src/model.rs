use vstd::prelude::*;

verus! {

/// Stable key of one physical card: the seat of its owner and the card's slot
/// in that owner's deck list. The key stays the same while the card moves
/// from zone to zone.
#[derive(Clone, Copy, PartialEq, Eq, Structural, Debug, Default, Hash)]
pub struct CardIndex {
    pub player_index: usize,
    pub card_index: usize,
}

impl CardIndex {
    pub fn new(player_index: usize, card_index: usize) -> (r: CardIndex)
        ensures
            r.player_index == player_index,
            r.card_index == card_index,
    {
        CardIndex { player_index, card_index }
    }

    /// Seat of the owning player.
    pub fn player_index(&self) -> (r: usize)
        ensures
            r == self.player_index,
    {
        self.player_index
    }

    /// Slot in the owner's deck list.
    pub fn card_index(&self) -> (r: usize)
        ensures
            r == self.card_index,
    {
        self.card_index
    }
}

#[derive(Clone, Copy, PartialEq, Eq, Structural, Debug)]
pub enum Faction {
    Demacia,
    Ionia,
}

#[derive(Clone, Copy, PartialEq, Eq, Structural, Debug)]
pub enum CardType {
    Spell,
    Follower,
    Champion,
}

#[derive(Clone, Copy, PartialEq, Eq, Structural, Debug)]
pub enum SubType {
    Elite,
    /// The card has no subtype.
    Absent,
}

#[derive(Clone, Copy, PartialEq, Eq, Structural, Debug)]
pub enum Rarity {
    Rare,
    Epic,
    Normal,
}

/// How long an effect stays in the ledger.
#[derive(Clone, Copy, PartialEq, Eq, Structural, Debug)]
pub enum Duration {
    /// For this many round starts.
    Turn(i32),
    /// Until the named card leaves the battlefield.
    CardPlaying(CardIndex),
    /// Until the current battle ends.
    Battle,
    /// Until removed explicitly.
    Permanent,
}

/// What a card or a keyword does when it observes an event.
#[derive(Clone, Copy, PartialEq, Eq, Structural, Debug)]
pub enum Reaction {
    /// Never reacts.
    Silent,
    /// When the card itself is summoned, every ally on its owner's
    /// battlefield is granted these deltas for as long as the card is in play.
    GrantAllies { attack_point: i32, defense_point: i32 },
}

/// A named ability attached to a card template.
#[derive(Clone, Copy, PartialEq, Eq, Debug)]
pub struct Keyword {
    pub name: &'static str,
    pub description: &'static str,
    pub reaction: Reaction,
}

/// A timed, additive modifier of one card's stats.
#[derive(Clone, Copy, PartialEq, Eq, Debug)]
pub struct Effect {
    pub target_card_index: CardIndex,
    pub attack_point: i32,
    pub defense_point: i32,
    pub cost: i32,
    pub keyword: Option<Keyword>,
    pub duration: Duration,
}

impl Effect {
    /// The effect that changes nothing, on the card in slot 0 of seat 0, forever.
    pub open spec fn neutral() -> Effect {
        Effect {
            target_card_index: CardIndex { player_index: 0, card_index: 0 },
            attack_point: 0,
            defense_point: 0,
            cost: 0,
            keyword: None,
            duration: Duration::Permanent,
        }
    }
}

impl Default for Effect {
    fn default() -> (r: Effect)
        ensures
            r == Effect::neutral(),
    {
        Effect {
            target_card_index: CardIndex { player_index: 0, card_index: 0 },
            attack_point: 0,
            defense_point: 0,
            cost: 0,
            keyword: None,
            duration: Duration::Permanent,
        }
    }
}

/// A game occurrence. The set is closed.
#[derive(Clone, Copy, PartialEq, Eq, Debug)]
pub enum Event {
    RoundStart,
    Draw(CardIndex),
    Summon(CardIndex),
    Grant(Effect),
    Dead(CardIndex),
    PassTurn,
}

/// An immutable card template.
#[derive(Clone, PartialEq, Eq, Debug)]
pub struct Card {
    pub cardtype: CardType,
    pub subtype: SubType,
    pub name: &'static str,
    pub description: &'static str,
    pub keywords: Vec<Keyword>,
    pub faction: Faction,
    pub attack_point: i32,
    pub defense_point: i32,
    pub cost: i32,
    pub rarity: Rarity,
    pub reaction: Reaction,
}

/// A card template as a mathematical value.
pub struct CardView {
    pub cardtype: CardType,
    pub subtype: SubType,
    pub name: Seq<char>,
    pub description: Seq<char>,
    pub keywords: Seq<Keyword>,
    pub faction: Faction,
    pub attack_point: int,
    pub defense_point: int,
    pub cost: int,
    pub rarity: Rarity,
    pub reaction: Reaction,
}

impl View for Card {
    type V = CardView;

    open spec fn view(&self) -> CardView {
        CardView {
            cardtype: self.cardtype,
            subtype: self.subtype,
            name: self.name@,
            description: self.description@,
            keywords: self.keywords@,
            faction: self.faction,
            attack_point: self.attack_point as int,
            defense_point: self.defense_point as int,
            cost: self.cost as int,
            rarity: self.rarity,
            reaction: self.reaction,
        }
    }
}

/// The views of a deck's cards, slot by slot.
pub open spec fn deck_view(deck: Seq<Card>) -> Seq<CardView> {
    deck.map_values(|c: Card| c@)
}

} // verus!
