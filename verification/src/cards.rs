use crate::errors::{Error, ErrorView};
use crate::keywords::{cant_block, cant_block_spec};
use crate::model::{Card, CardType, CardView, Faction, Rarity, Reaction, SubType};
use vstd::prelude::*;
use vstd::string::StringExecFns;

verus! {

/// Template of the Vanguard Bannerman.
pub open spec fn vanguard_bannerman() -> CardView {
    CardView {
        cardtype: CardType::Follower,
        subtype: SubType::Elite,
        name: "Vanguard Bannerman"@,
        description: "Allegiance: Grant all allies +1|+1"@,
        keywords: seq![cant_block_spec()],
        faction: Faction::Demacia,
        attack_point: 3,
        defense_point: 3,
        cost: 4,
        rarity: Rarity::Rare,
        reaction: Reaction::GrantAllies { attack_point: 1, defense_point: 1 },
    }
}

/// The catalog: the template printed under a card code, if there is one.
pub open spec fn catalog(code: Seq<char>) -> Option<CardView> {
    if code == "01DE001"@ {
        Some(vanguard_bannerman())
    } else {
        None
    }
}

fn same_text(a: &str, b: &str) -> (r: bool)
    ensures
        r == (a@ == b@),
{
    String::from_str(a) == String::from_str(b)
}

/// Looks a card code up in the catalog.
pub fn code2card(code: &str) -> (res: Result<Card, Error>)
    ensures
        match catalog(code@) {
            Some(template) => res matches Ok(card) && card@ == template,
            None => res matches Err(e) && e@ == (ErrorView::CardCodeNotFound { code: code@ }),
        },
{
    if same_text(code, "01DE001") {
        let keywords = vec![cant_block()];
        assert(keywords@ =~= seq![cant_block_spec()]);
        Ok(
            Card {
                cardtype: CardType::Follower,
                subtype: SubType::Elite,
                name: "Vanguard Bannerman",
                description: "Allegiance: Grant all allies +1|+1",
                keywords,
                faction: Faction::Demacia,
                attack_point: 3,
                defense_point: 3,
                cost: 4,
                rarity: Rarity::Rare,
                reaction: Reaction::GrantAllies { attack_point: 1, defense_point: 1 },
            },
        )
    } else {
        Err(Error::CardCodeNotFound { code: String::from_str(code) })
    }
}

} // verus!
