use crate::cards::{catalog, code2card};
use crate::codes::{card_code, card_code_spec};
use crate::decoder::{decode_deck, deck_of_code, is_varint_safe, varint_safe, DeckEntry};
use crate::errors::{Error, ErrorView};
use crate::model::{deck_view, Card, CardView};
use crate::player::{Player, PlayerView};
use vstd::prelude::*;

verus! {

/// The cards that one line of a decoded deck stands for: as many copies of
/// the catalog's template as the line counts. The faction is checked first;
/// the catalog is asked only where there is a copy to make.
pub open spec fn copies(entry: DeckEntry) -> Result<Seq<CardView>, ErrorView> {
    match card_code_spec(entry.set, entry.faction, entry.number) {
        None => Err(ErrorView::InvalidFactionInteger(entry.faction)),
        Some(code) => if entry.count <= 0 {
            Ok(Seq::empty())
        } else {
            match catalog(code) {
                None => Err(ErrorView::CardCodeNotFound { code }),
                Some(card) => Ok(Seq::new(entry.count as nat, |i: int| card)),
            }
        },
    }
}

/// The deck list of a decoded deck, line after line, or the failure of the
/// first line that fails.
pub open spec fn expand(entries: Seq<DeckEntry>) -> Result<Seq<CardView>, ErrorView>
    decreases entries.len(),
{
    if entries.len() == 0 {
        Ok(Seq::empty())
    } else {
        match expand(entries.drop_last()) {
            Err(e) => Err(e),
            Ok(head) => match copies(entries.last()) {
                Err(e) => Err(e),
                Ok(tail) => Ok(head + tail),
            },
        }
    }
}

/// The deck list that a deck code stands for. A code in which a number runs
/// over five bytes is not handed to the decoder and counts as rejected.
pub open spec fn deck_list(code: Seq<char>) -> Result<Seq<CardView>, ErrorView> {
    if !varint_safe(code) {
        Err(ErrorView::LorDeckCodesError)
    } else {
        match deck_of_code(code) {
            None => Err(ErrorView::LorDeckCodesError),
            Some(entries) => expand(entries),
        }
    }
}

/// Appends to the deck the cards of one line.
fn push_copies(deck: &mut Vec<Card>, entry: &DeckEntry) -> (res: Result<(), Error>)
    ensures
        match copies(*entry) {
            Ok(cards) => res is Ok && deck_view(final(deck)@) == deck_view(old(deck)@) + cards,
            Err(e) => res matches Err(x) && x@ == e,
        },
{
    let code = match card_code(entry.set, entry.faction, entry.number) {
        Err(e) => {
            return Err(e);
        },
        Ok(code) => code,
    };
    let mut made: i32 = 0;
    proof {
        assert(deck_view(deck@) =~= deck_view(old(deck)@) + Seq::<CardView>::empty());
    }
    while made < entry.count
        invariant
            0 <= made,
            entry.count > 0 ==> made <= entry.count,
            entry.count <= 0 ==> made == 0,
            code@ == card_code_spec(entry.set, entry.faction, entry.number).unwrap(),
            card_code_spec(entry.set, entry.faction, entry.number) is Some,
            made > 0 ==> catalog(code@) is Some,
            deck_view(deck@) == deck_view(old(deck)@) + Seq::new(
                made as nat,
                |i: int| catalog(code@).unwrap(),
            ),
        decreases entry.count - made,
    {
        let ghost so_far = deck@;
        match code2card(code.as_str()) {
            Err(e) => {
                return Err(e);
            },
            Ok(card) => {
                deck.push(card);
                proof {
                    assert(deck_view(deck@) =~= deck_view(so_far).push(card@));
                    assert(deck_view(deck@) =~= deck_view(old(deck)@) + Seq::new(
                        (made + 1) as nat,
                        |i: int| catalog(code@).unwrap(),
                    ));
                }
            },
        }
        made = made + 1;
    }
    proof {
        let card = catalog(code@).unwrap();
        if entry.count <= 0 {
            assert(Seq::new(made as nat, |i: int| card) =~= Seq::<CardView>::empty());
        } else {
            assert(Seq::new(made as nat, |i: int| catalog(code@).unwrap()) =~= Seq::new(
                entry.count as nat,
                |i: int| card,
            ));
        }
    }
    Ok(())
}

impl Player {
    /// Seats a player with the deck that the lines of a decoded deck stand
    /// for, in their order.
    pub fn from_entries(index: usize, entries: &Vec<DeckEntry>) -> (res: Result<Player, Error>)
        ensures
            match expand(entries@) {
                Ok(deck) => res matches Ok(p) && p@ == PlayerView::fresh(index, deck) && p.wf(),
                Err(e) => res matches Err(x) && x@ == e,
            },
    {
        let mut deck: Vec<Card> = Vec::new();
        let n = entries.len();
        let mut i: usize = 0;
        proof {
            assert(entries@.take(0) =~= Seq::empty());
            assert(deck_view(deck@) =~= Seq::<CardView>::empty());
        }
        while i < n
            invariant
                n == entries@.len(),
                i <= n,
                expand(entries@.take(i as int)) == Ok::<Seq<CardView>, ErrorView>(
                    deck_view(deck@),
                ),
            decreases n - i,
        {
            proof {
                assert(entries@.take(i + 1).drop_last() =~= entries@.take(i as int));
                assert(entries@.take(i + 1).last() == entries@[i as int]);
            }
            match push_copies(&mut deck, &entries[i]) {
                Err(e) => {
                    proof {
                        lemma_expand_fails(entries@, i + 1);
                    }
                    return Err(e);
                },
                Ok(()) => {},
            }
            i += 1;
        }
        proof {
            assert(entries@.take(n as int) =~= entries@);
        }
        Ok(Player::from_cards(index, deck))
    }

    /// Seats a player with the deck that a deck code stands for.
    pub fn new(index: usize, deck_code: &str) -> (res: Result<Player, Error>)
        ensures
            match deck_list(deck_code@) {
                Ok(deck) => res matches Ok(p) && p@ == PlayerView::fresh(index, deck) && p.wf(),
                Err(e) => res matches Err(x) && x@ == e,
            },
    {
        if !is_varint_safe(deck_code) {
            return Err(Error::LorDeckCodesError);
        }
        match decode_deck(deck_code) {
            Err(_) => Err(Error::LorDeckCodesError),
            Ok(entries) => Player::from_entries(index, &entries),
        }
    }
}

/// Once a line fails, the deck fails with it, whatever follows.
pub proof fn lemma_expand_fails(entries: Seq<DeckEntry>, upto: int)
    requires
        0 <= upto <= entries.len(),
        expand(entries.take(upto)) is Err,
    ensures
        expand(entries) == expand(entries.take(upto)),
    decreases entries.len() - upto,
{
    if upto < entries.len() {
        assert(entries.take(upto + 1).drop_last() =~= entries.take(upto));
        lemma_expand_fails(entries, upto + 1);
    } else {
        assert(entries.take(upto) =~= entries);
    }
}

} // verus!
