use lordeckcodes::LorError;
use vstd::prelude::*;
use vstd::string::StrSliceExecFns;

verus! {

/// The failure of the deck code decoder. Nothing is read from it.
#[verifier::external_type_specification]
#[verifier::external_body]
pub struct ExLorError(LorError);

/// One line of a decoded deck: a card identity and the number of its copies.
#[derive(Clone, Copy, PartialEq, Eq, Debug)]
pub struct DeckEntry {
    pub set: u32,
    pub faction: u32,
    pub number: u32,
    pub count: i32,
}

/// What the decoder makes of a deck code: the lines of the deck in the order
/// of the code, or nothing where it rejects the code.
pub uninterp spec fn deck_of_code(code: Seq<char>) -> Option<Seq<DeckEntry>>;

/// The five bits that a symbol of the code's alphabet stands for: `A` to `Z`
/// for 0 to 25, `2` to `7` for 26 to 31. Any other character counts as 0.
pub open spec fn symbol_value(c: char) -> int {
    if 'A' <= c <= 'Z' {
        c as int - 'A' as int
    } else if '2' <= c <= '7' {
        c as int - '2' as int + 26
    } else {
        0
    }
}

/// Weight of the bit that stands `shift` places from the right.
pub open spec fn bit_weight(shift: int) -> int {
    if shift == 0 {
        1
    } else if shift == 1 {
        2
    } else if shift == 2 {
        4
    } else if shift == 3 {
        8
    } else {
        16
    }
}

/// Byte `k` of the text that the symbols spell, five bits each, first bit
/// first, has its top bit set.
pub open spec fn top_bit(code: Seq<char>, k: int) -> bool {
    &&& 0 <= k
    &&& (8 * k) / 5 < code.len()
    &&& (symbol_value(code[(8 * k) / 5]) / bit_weight(4 - (8 * k) % 5)) % 2 == 1
}

/// Five bytes in a row from byte `k` on have their top bit set.
pub open spec fn long_run(code: Seq<char>, k: int) -> bool {
    top_bit(code, k) && top_bit(code, k + 1) && top_bit(code, k + 2) && top_bit(code, k + 3)
        && top_bit(code, k + 4)
}

/// After its first byte, the text that the code spells has no five bytes in
/// a row with the top bit set: no number in it runs over five bytes.
pub open spec fn varint_safe(code: Seq<char>) -> bool {
    forall|k: int| 1 <= k ==> !#[trigger] long_run(code, k)
}

fn symbol_bits(c: char) -> (v: u32)
    ensures
        v == symbol_value(c),
        v < 32,
{
    if 'A' <= c && c <= 'Z' {
        c as u32 - 'A' as u32
    } else if '2' <= c && c <= '7' {
        c as u32 - '2' as u32 + 26
    } else {
        0
    }
}

fn weight_of(shift: u128) -> (w: u32)
    requires
        shift <= 4,
    ensures
        w == bit_weight(shift as int),
        w > 0,
{
    if shift == 0 {
        1
    } else if shift == 1 {
        2
    } else if shift == 2 {
        4
    } else if shift == 3 {
        8
    } else {
        16
    }
}

/// Whether no number in the text that the code spells runs over five bytes.
pub fn is_varint_safe(code: &str) -> (b: bool)
    ensures
        b == varint_safe(code@),
{
    let n = code.unicode_len();
    let bytes = ((n as u128 * 5 + 7) / 8) as usize;
    let mut run: usize = 0;
    let mut k: usize = 1;
    while k < bytes
        invariant
            n == code@.len(),
            bytes == (n * 5 + 7) / 8,
            1 <= k,
            run <= 4,
            run < k,
            forall|i: int| k - run <= i < k ==> top_bit(code@, i),
            run + 1 < k ==> !top_bit(code@, k - run - 1),
            forall|j: int| 1 <= j && j + 4 < k ==> !#[trigger] long_run(code@, j),
        decreases bytes - k,
    {
        let bit: u128 = k as u128 * 8;
        let at = (bit / 5) as usize;
        let shift = 4 - bit % 5;
        let top = (symbol_bits(code.get_char(at)) / weight_of(shift)) % 2 == 1;
        assert(top == top_bit(code@, k as int));
        if top {
            run = run + 1;
            if run == 5 {
                proof {
                    assert(long_run(code@, k - 4));
                }
                return false;
            }
        } else {
            run = 0;
        }
        proof {
            assert forall|j: int| 1 <= j && j + 4 < k + 1 implies !#[trigger] long_run(
                code@,
                j,
            ) by {
                if j + 4 == k {
                    if top {
                        assert(!top_bit(code@, k - (run - 1) - 1));
                    }
                }
            }
        }
        k = k + 1;
    }
    proof {
        assert forall|j: int| 1 <= j implies !#[trigger] long_run(code@, j) by {
            if j + 4 >= k {
                assert((8 * (j + 4)) / 5 >= (8 * k) / 5);
                assert(!top_bit(code@, j + 4));
            }
        }
    }
    true
}

/// Decodes a deck code with `lordeckcodes::encoder::deck_from_code` and
/// copies each line of the deck it returns, in order: set, faction and number
/// of the card, and the count. Believed of the decoder: the same code gives
/// the same outcome every time, a deck or a rejection, and it does not panic
/// on a code in which no number runs over five bytes.
#[verifier::external_body]
pub(crate) fn decode_deck(code: &str) -> (res: Result<Vec<DeckEntry>, LorError>)
    requires
        varint_safe(code@),
    ensures
        match res {
            Ok(entries) => deck_of_code(code@) == Some(entries@),
            Err(_) => deck_of_code(code@) is None,
        },
{
    let deck = lordeckcodes::encoder::deck_from_code(code)?;
    let mut entries = Vec::new();
    for line in deck.cards() {
        let card = line.card();
        entries.push(
            DeckEntry {
                set: card.set(),
                faction: card.faction(),
                number: card.number(),
                count: line.count(),
            },
        );
    }
    Ok(entries)
}

} // verus!
