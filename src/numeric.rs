use vstd::prelude::*;
use vstd::string::*;

verus! {

/// The value of `c` as a digit in `radix` (at most 36), if it is one:
/// `0-9`, then `a-z` or `A-Z` for ten and above.
pub open spec fn digit_value(c: char, radix: nat) -> Option<nat> {
    let u = c as u32;
    if 0x30 <= u <= 0x39 && ((u - 0x30) as nat) < radix {
        Some((u - 0x30) as nat)
    } else if 0x61 <= u <= 0x7a && ((u - 0x61 + 10) as nat) < radix {
        Some((u - 0x61 + 10) as nat)
    } else if 0x41 <= u <= 0x5a && ((u - 0x41 + 10) as nat) < radix {
        Some((u - 0x41 + 10) as nat)
    } else {
        None
    }
}

/// Every character of `s` is a digit in `radix`.
pub open spec fn all_digits(s: Seq<char>, radix: nat) -> bool {
    forall|i: int| 0 <= i < s.len() ==> (#[trigger] digit_value(s[i], radix)) is Some
}

/// The number that the digits of `s` write in `radix`, most significant first.
pub open spec fn digits_value(s: Seq<char>, radix: nat) -> nat
    decreases s.len(),
{
    if s.len() == 0 {
        0
    } else {
        digits_value(s.drop_last(), radix) * radix + digit_value(s.last(), radix).unwrap()
    }
}

/// `s` without one leading `+`, if it has one.
pub open spec fn unsigned_digits(s: Seq<char>) -> Seq<char> {
    if s.len() > 0 && s[0] == '+' {
        s.drop_first()
    } else {
        s
    }
}

/// How std reads an unsigned integer of at most `max` from text in `radix`:
/// an optional `+`, then one or more digits, nothing else.
pub open spec fn parse_unsigned(s: Seq<char>, radix: nat, max: nat) -> Option<nat> {
    let t = unsigned_digits(s);
    if t.len() > 0 && all_digits(t, radix) && digits_value(t, radix) <= max {
        Some(digits_value(t, radix))
    } else {
        None
    }
}

/// How std reads a `u32` in hexadecimal: an optional leading `+`, then one or
/// more hex digits of either case, of a value below 2^32.
pub open spec fn hex_u32(s: Seq<char>) -> Option<u32> {
    match parse_unsigned(s, 16, 0xffff_ffff) {
        Some(v) => Some(v as u32),
        None => None,
    }
}

/// A port number written in decimal.
pub open spec fn decimal_u16(s: Seq<char>) -> Option<u16> {
    match parse_unsigned(s, 10, 0xffff) {
        Some(v) => Some(v as u16),
        None => None,
    }
}

/// Relies on `u32::from_str_radix` with radix 16: an optional `+` and then
/// hex digits of either case, whose value fits in 32 bits; anything else is an error.
#[verifier::external_body]
pub(crate) fn parse_hex_u32(s: &str) -> (r: Option<u32>)
    ensures
        r == hex_u32(s@),
{
    u32::from_str_radix(s, 16).ok()
}

/// Relies on `<u16 as FromStr>::from_str`: an optional `+` and then decimal
/// digits whose value fits in 16 bits; the error is rendered by its `Display`.
#[verifier::external_body]
fn parse_u16(s: &str) -> (r: Result<u16, String>)
    ensures
        r is Ok <==> decimal_u16(s@) is Some,
        r is Ok ==> Some(r->Ok_0) == decimal_u16(s@),
{
    match s.parse::<u16>() {
        Ok(v) => Ok(v),
        Err(e) => Err(e.to_string()),
    }
}

/// Reads a listening port: a decimal number from 1 to 65535.
pub fn port_in_range(s: &str) -> (r: Result<u16, String>)
    ensures
        r is Ok <==> (decimal_u16(s@) is Some && decimal_u16(s@).unwrap() >= 1),
        r is Ok ==> Some(r->Ok_0) == decimal_u16(s@),
        decimal_u16(s@) == Some(0u16) ==> r is Err && r->Err_0@ == "Port not in range 1-65535"@,
        decimal_u16(s@) is None ==> r is Err && r->Err_0@.take(s@.len() + 24int) == seq!['`'] + s@
            + "` isn't a port number: "@,
{
    match parse_u16(s) {
        Ok(port) => {
            if port >= 1 {
                Ok(port)
            } else {
                Err(String::from_str("Port not in range 1-65535"))
            }
        },
        Err(e) => {
            let head = String::from_str("`");
            proof {
                reveal_strlit("`");
                reveal_strlit("` isn't a port number: ");
            }
            let prefix = head.concat(s).concat("` isn't a port number: ");
            assert(prefix@ =~= seq!['`'] + s@ + "` isn't a port number: "@);
            let m = prefix.concat(e.as_str());
            assert(m@.take(s@.len() + 24int) =~= prefix@);
            Err(m)
        },
    }
}

} // verus!
