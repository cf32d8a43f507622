use crate::errors::Error;
use vstd::prelude::*;
use vstd::string::StrSliceExecFns;
use vstd::string::StringExecFns;

verus! {

/// The token of a faction number in a card code, for the six known factions.
pub open spec fn faction_token(n: u32) -> Option<Seq<char>> {
    if n == 0 {
        Some("DE"@)
    } else if n == 1 {
        Some("FR"@)
    } else if n == 2 {
        Some("IO"@)
    } else if n == 3 {
        Some("NX"@)
    } else if n == 4 {
        Some("PZ"@)
    } else if n == 5 {
        Some("SI"@)
    } else {
        None
    }
}

/// The character of a decimal digit.
pub open spec fn digit_char(d: int) -> char {
    if d == 0 {
        '0'
    } else if d == 1 {
        '1'
    } else if d == 2 {
        '2'
    } else if d == 3 {
        '3'
    } else if d == 4 {
        '4'
    } else if d == 5 {
        '5'
    } else if d == 6 {
        '6'
    } else if d == 7 {
        '7'
    } else if d == 8 {
        '8'
    } else {
        '9'
    }
}

/// A number in decimal digits, without leading zeros.
pub open spec fn decimal(n: nat) -> Seq<char>
    decreases n,
{
    if n < 10 {
        seq![digit_char(n as int)]
    } else {
        decimal(n / 10).push(digit_char((n % 10) as int))
    }
}

/// A run of zeros.
pub open spec fn zeros(len: nat) -> Seq<char> {
    Seq::new(len, |i: int| '0')
}

/// A number in decimal digits, with zeros in front up to `width` digits. A
/// number that needs more digits keeps them all.
pub open spec fn padded(n: nat, width: nat) -> Seq<char> {
    if decimal(n).len() >= width {
        decimal(n)
    } else {
        zeros((width - decimal(n).len()) as nat) + decimal(n)
    }
}

/// The catalog code of a card identity: the set in two digits, the token of
/// the faction, the card number in three digits.
pub open spec fn card_code_spec(set: u32, faction: u32, number: u32) -> Option<Seq<char>> {
    match faction_token(faction) {
        Some(token) => Some(padded(set as nat, 2) + token + padded(number as nat, 3)),
        None => None,
    }
}

/// The token of a faction number, or `InvalidFactionInteger` for a number
/// outside the table.
pub fn faction_int_to_str(faction: u32) -> (res: Result<&'static str, Error>)
    ensures
        match faction_token(faction) {
            Some(token) => res matches Ok(s) && s@ == token,
            None => res == Err::<&'static str, Error>(Error::InvalidFactionInteger(faction)),
        },
{
    match faction {
        0 => Ok("DE"),
        1 => Ok("FR"),
        2 => Ok("IO"),
        3 => Ok("NX"),
        4 => Ok("PZ"),
        5 => Ok("SI"),
        _ => Err(Error::InvalidFactionInteger(faction)),
    }
}

fn digit_text(d: u32) -> (s: &'static str)
    requires
        d < 10,
    ensures
        s@ == seq![digit_char(d as int)],
{
    proof {
        reveal_strlit("0");
        reveal_strlit("1");
        reveal_strlit("2");
        reveal_strlit("3");
        reveal_strlit("4");
        reveal_strlit("5");
        reveal_strlit("6");
        reveal_strlit("7");
        reveal_strlit("8");
        reveal_strlit("9");
    }
    let s = match d {
        0 => "0",
        1 => "1",
        2 => "2",
        3 => "3",
        4 => "4",
        5 => "5",
        6 => "6",
        7 => "7",
        8 => "8",
        _ => "9",
    };
    assert(s@ =~= seq![digit_char(d as int)]);
    s
}

fn decimal_text(n: u32) -> (s: String)
    ensures
        s@ == decimal(n as nat),
    decreases n,
{
    if n < 10 {
        String::from_str(digit_text(n))
    } else {
        let mut s = decimal_text(n / 10);
        s.append(digit_text(n % 10));
        assert(s@ =~= decimal((n / 10) as nat).push(digit_char((n % 10) as int)));
        s
    }
}

/// Writes a number in decimal digits, with zeros in front up to `width`
/// digits.
pub fn pad_decimal(n: u32, width: usize) -> (s: String)
    ensures
        s@ == padded(n as nat, width as nat),
{
    let digits = decimal_text(n);
    let len = digits.as_str().unicode_len();
    if len >= width {
        return digits;
    }
    let mut s = String::new();
    let mut i: usize = len;
    proof {
        assert(s@ =~= zeros(0));
    }
    while i < width
        invariant
            len <= i <= width,
            s@ == zeros((i - len) as nat),
        decreases width - i,
    {
        s.append("0");
        proof {
            reveal_strlit("0");
            assert(s@ =~= zeros((i + 1 - len) as nat));
        }
        i += 1;
    }
    s.append(digits.as_str());
    s
}

/// Writes the catalog code of a card identity, or fails with
/// `InvalidFactionInteger` for a faction number outside the table.
pub fn card_code(set: u32, faction: u32, number: u32) -> (res: Result<String, Error>)
    ensures
        match card_code_spec(set, faction, number) {
            Some(code) => res matches Ok(s) && s@ == code,
            None => res == Err::<String, Error>(Error::InvalidFactionInteger(faction)),
        },
{
    let mut code = pad_decimal(set, 2);
    match faction_int_to_str(faction) {
        Err(e) => Err(e),
        Ok(token) => {
            code.append(token);
            let number_text = pad_decimal(number, 3);
            code.append(number_text.as_str());
            Ok(code)
        },
    }
}

} // verus!
