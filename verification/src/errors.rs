use crate::model::CardIndex;
use vstd::prelude::*;

verus! {

/// Everything that can go wrong in the engine. No failure is swallowed: each
/// one travels unchanged to the caller of the operation that met it.
#[derive(Debug, Clone, PartialEq, Eq)]
pub enum Error {
    /// The catalog holds no card under this code.
    CardCodeNotFound { code: String },
    /// A decoded deck names a faction outside the known table.
    InvalidFactionInteger(u32),
    /// The deck code could not be decoded.
    LorDeckCodesError,
    /// The card is not in its owner's hand.
    CardIndexNotFoundInHands(CardIndex),
    /// The card is not on its owner's battlefield.
    CardIndexNotFoundInSummons(CardIndex),
    /// A draw met an empty draw stack.
    NoCardsInStack,
    /// The mana pool would leave the range from zero to its cap at the top.
    ManaOverFlow,
    /// The mana pool does not cover the spend.
    NotEnoughMana,
    /// One decision set off more events than the engine resolves for it.
    ResolutionDepthExceeded,
}

/// An [`Error`] with its text as a sequence of characters.
pub enum ErrorView {
    CardCodeNotFound { code: Seq<char> },
    InvalidFactionInteger(u32),
    LorDeckCodesError,
    CardIndexNotFoundInHands(CardIndex),
    CardIndexNotFoundInSummons(CardIndex),
    NoCardsInStack,
    ManaOverFlow,
    NotEnoughMana,
    ResolutionDepthExceeded,
}

impl View for Error {
    type V = ErrorView;

    open spec fn view(&self) -> ErrorView {
        match *self {
            Error::CardCodeNotFound { code } => ErrorView::CardCodeNotFound { code: code@ },
            Error::InvalidFactionInteger(n) => ErrorView::InvalidFactionInteger(n),
            Error::LorDeckCodesError => ErrorView::LorDeckCodesError,
            Error::CardIndexNotFoundInHands(r) => ErrorView::CardIndexNotFoundInHands(r),
            Error::CardIndexNotFoundInSummons(r) => ErrorView::CardIndexNotFoundInSummons(r),
            Error::NoCardsInStack => ErrorView::NoCardsInStack,
            Error::ManaOverFlow => ErrorView::ManaOverFlow,
            Error::NotEnoughMana => ErrorView::NotEnoughMana,
            Error::ResolutionDepthExceeded => ErrorView::ResolutionDepthExceeded,
        }
    }
}

} // verus!
