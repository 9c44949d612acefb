use vstd::prelude::*;
use vstd::string::*;
use crate::address::{Ipv4, ipv4_of_value, lemma_value_of_octets};
use crate::text::ascii_lower_char;
use crate::numeric::{hex_u32, parse_hex_u32, digit_value, digits_value, all_digits, unsigned_digits, parse_unsigned};

verus! {

/// Why an encoded name could not be read back into two addresses.
#[derive(Clone, Copy, Debug, PartialEq, Eq, Structural)]
pub enum DecodeError {
    /// Fewer than two `.` separators: no room for two address labels.
    MalformedLabelCount,
    /// One of the two address labels is not a 32-bit hexadecimal number.
    MalformedHex,
}

impl DecodeError {
    /// The description of the failure, the same for every kind.
    pub fn message(&self) -> (r: String)
        ensures
            r@ == "incorrect format, multi-level subdomain is required"@,
    {
        String::from_str("incorrect format, multi-level subdomain is required")
    }
}

/// The lower-case hexadecimal digit for `n` (below 16).
pub open spec fn hex_digit(n: u8) -> char {
    seq!['0', '1', '2', '3', '4', '5', '6', '7', '8', '9', 'a', 'b', 'c', 'd', 'e', 'f'][n as int]
}

/// Two lower-case hexadecimal digits for each byte, high nibble first.
pub open spec fn hex_of(bytes: Seq<u8>) -> Seq<char> {
    Seq::new(
        bytes.len() * 2,
        |i: int| if i % 2 == 0 { hex_digit(bytes[i / 2] / 16) } else { hex_digit(bytes[i / 2] % 16) },
    )
}

/// The name that carries `primary` and `secondary` under `domain`:
/// `<hex(primary)>.<hex(secondary)>.<domain>`.
pub open spec fn encoded_name(primary: Ipv4, secondary: Ipv4, domain: Seq<char>) -> Seq<char> {
    hex_of(primary.octet_seq()) + seq!['.'] + hex_of(secondary.octet_seq()) + seq!['.'] + domain
}

/// The index of the first `.` in `s` at or after `from`, or the length of `s`.
pub open spec fn next_dot(s: Seq<char>, from: int) -> int
    decreases s.len() - from,
{
    if from < 0 || from >= s.len() {
        s.len() as int
    } else if s[from] == '.' {
        from
    } else {
        next_dot(s, from + 1)
    }
}

/// An address label read as a number: hex digits of either case and nothing
/// else, of a value below 2^32.
pub open spec fn label_value(label: Seq<char>) -> Option<u32> {
    if label.len() > 0 && label[0] == '+' {
        None
    } else {
        hex_u32(label)
    }
}

/// What a name decodes to: its first two labels read as hexadecimal
/// addresses, when it has at least two `.` separators.
pub open spec fn decoded(s: Seq<char>) -> Result<(Ipv4, Ipv4), DecodeError> {
    let d0 = next_dot(s, 0);
    let d1 = next_dot(s, d0 + 1);
    if d0 >= s.len() || d1 >= s.len() {
        Err(DecodeError::MalformedLabelCount)
    } else {
        match (label_value(s.subrange(0, d0)), label_value(s.subrange(d0 + 1, d1))) {
            (Some(p), Some(q)) => Ok((ipv4_of_value(p), ipv4_of_value(q))),
            _ => Err(DecodeError::MalformedHex),
        }
    }
}

/// Relies on `hex::encode`: two lower-case hex digits per byte, in order.
#[verifier::external_body]
fn hex_encode(bytes: [u8; 4]) -> (r: String)
    ensures
        r@ == hex_of(bytes@),
{
    hex::encode(bytes)
}

/// The name `<hex(primary)>.<hex(secondary)>.<domain>`, each address as
/// eight lower-case hex digits.
pub fn encode(primary: Ipv4, secondary: Ipv4, domain: &str) -> (r: String)
    ensures
        r@ == encoded_name(primary, secondary, domain@),
{
    let hp = hex_encode(primary.octets());
    let hs = hex_encode(secondary.octets());
    proof {
        reveal_strlit(".");
    }
    let r = hp.concat(".").concat(hs.as_str()).concat(".").concat(domain);
    assert(r@ =~= encoded_name(primary, secondary, domain@));
    r
}

/// The index of the first `.` in `s` at or after `from`, or `n`, the length of `s`.
pub(crate) fn find_dot(s: &str, from: usize, n: usize) -> (r: usize)
    requires
        n == s@.len(),
        from <= n,
    ensures
        r == next_dot(s@, from as int),
        from <= r <= n,
{
    let mut i: usize = from;
    while i < n
        invariant
            n == s@.len(),
            from <= i <= n,
            next_dot(s@, from as int) == next_dot(s@, i as int),
        decreases n - i,
    {
        if s.get_char(i) == '.' {
            return i;
        }
        i = i + 1;
    }
    i
}

/// Reads the two addresses from the first two labels of `name`.
pub fn decode(name: &str) -> (r: Result<(Ipv4, Ipv4), DecodeError>)
    ensures
        r == decoded(name@),
{
    let n = name.unicode_len();
    let d0 = find_dot(name, 0, n);
    if d0 == n {
        return Err(DecodeError::MalformedLabelCount);
    }
    let d1 = find_dot(name, d0 + 1, n);
    if d1 == n {
        return Err(DecodeError::MalformedLabelCount);
    }
    let primary = match read_label(name.substring_char(0, d0)) {
        Some(v) => Ipv4::from_u32(v),
        None => return Err(DecodeError::MalformedHex),
    };
    let secondary = match read_label(name.substring_char(d0 + 1, d1)) {
        Some(v) => Ipv4::from_u32(v),
        None => return Err(DecodeError::MalformedHex),
    };
    Ok((primary, secondary))
}

/// Reads one address label: hex digits only, no sign.
fn read_label(label: &str) -> (r: Option<u32>)
    ensures
        r == label_value(label@),
{
    if label.unicode_len() > 0 && label.get_char(0) == '+' {
        return None;
    }
    parse_hex_u32(label)
}

pub(crate) proof fn lemma_next_dot_skips(s: Seq<char>, from: int, to: int)
    requires
        0 <= from <= to <= s.len(),
        forall|i: int| from <= i < to ==> s[i] != '.',
    ensures
        next_dot(s, from) == next_dot(s, to),
    decreases to - from,
{
    if from < to {
        lemma_next_dot_skips(s, from + 1, to);
    }
}

proof fn lemma_hex_digit(n: u8)
    requires
        n < 16,
    ensures
        digit_value(hex_digit(n), 16) == Some(n as nat),
        hex_digit(n) != '.',
        hex_digit(n) != '+',
        hex_digit(n) != 'n',
        ascii_lower_char(hex_digit(n)) == hex_digit(n),
{
    assert(0 <= n < 16);
}

/// The eight digits of an address read back, as hexadecimal, to its number.
proof fn lemma_hex_of_address(p: Ipv4)
    ensures
        hex_of(p.octet_seq()).len() == 8,
        forall|i: int| 0 <= i < 8 ==> #[trigger] hex_of(p.octet_seq())[i] != '.',
        hex_u32(hex_of(p.octet_seq())) == Some(p.value() as u32),
        label_value(hex_of(p.octet_seq())) == Some(p.value() as u32),
        forall|i: int| 0 <= i < 8 ==> #[trigger] ascii_lower_char(hex_of(p.octet_seq())[i])
            == hex_of(p.octet_seq())[i],
        hex_of(p.octet_seq())[0] != 'n',
{
    let h = hex_of(p.octet_seq());
    let (a, b, c, d) = (p.a, p.b, p.c, p.d);
    lemma_hex_digit(a / 16);
    lemma_hex_digit(a % 16);
    lemma_hex_digit(b / 16);
    lemma_hex_digit(b % 16);
    lemma_hex_digit(c / 16);
    lemma_hex_digit(c % 16);
    lemma_hex_digit(d / 16);
    lemma_hex_digit(d % 16);
    let digits = seq![
        hex_digit(a / 16), hex_digit(a % 16), hex_digit(b / 16), hex_digit(b % 16),
        hex_digit(c / 16), hex_digit(c % 16), hex_digit(d / 16), hex_digit(d % 16),
    ];
    assert(h =~= digits);
    assert(unsigned_digits(h) == h);
    assert(all_digits(h, 16));
    reveal_with_fuel(digits_value, 9);
    assert(digits_value(h, 16) == p.value()) by {
        assert(digits.drop_last() =~= digits.subrange(0, 7));
        assert(digits.subrange(0, 7).drop_last() =~= digits.subrange(0, 6));
        assert(digits.subrange(0, 6).drop_last() =~= digits.subrange(0, 5));
        assert(digits.subrange(0, 5).drop_last() =~= digits.subrange(0, 4));
        assert(digits.subrange(0, 4).drop_last() =~= digits.subrange(0, 3));
        assert(digits.subrange(0, 3).drop_last() =~= digits.subrange(0, 2));
        assert(digits.subrange(0, 2).drop_last() =~= digits.subrange(0, 1));
        assert(digits.subrange(0, 1).drop_last() =~= Seq::<char>::empty());
    }
    lemma_value_of_octets(a, b, c, d);
    assert(parse_unsigned(h, 16, 0xffff_ffff) == Some(p.value()));
}

/// Where the separators of an encoded name fall: after the eight digits of
/// each address.
pub(crate) proof fn lemma_encoded_layout(primary: Ipv4, secondary: Ipv4, domain: Seq<char>)
    ensures
        ({
            let s = encoded_name(primary, secondary, domain);
            &&& s.len() == 18 + domain.len()
            &&& next_dot(s, 0) == 8
            &&& next_dot(s, 9) == 17
            &&& s.subrange(0, 8) == hex_of(primary.octet_seq())
            &&& s.subrange(9, 17) == hex_of(secondary.octet_seq())
            &&& s.subrange(18, s.len() as int) == domain
            &&& s[8] == '.' && s[17] == '.'
            &&& s[0] != 'n'
            &&& forall|i: int| 0 <= i < 18 ==> #[trigger] ascii_lower_char(s[i]) == s[i]
        }),
        label_value(hex_of(primary.octet_seq())) == Some(primary.value() as u32),
        label_value(hex_of(secondary.octet_seq())) == Some(secondary.value() as u32),
{
    let hp = hex_of(primary.octet_seq());
    let hs = hex_of(secondary.octet_seq());
    let s = encoded_name(primary, secondary, domain);
    lemma_hex_of_address(primary);
    lemma_hex_of_address(secondary);
    assert(s.subrange(0, 8) =~= hp);
    assert(s.subrange(9, 17) =~= hs);
    assert(s.subrange(18, s.len() as int) =~= domain);
    assert(forall|i: int| 0 <= i < 8 ==> s[i] == hp[i]);
    assert(forall|i: int| 9 <= i < 17 ==> s[i] == hs[i - 9]);
    assert(ascii_lower_char('.') == '.');
    lemma_next_dot_skips(s, 0, 8);
    lemma_next_dot_skips(s, 9, 17);
}

/// Decoding the name that `encode` makes for two addresses gives back
/// exactly those two addresses, whatever the domain.
pub proof fn lemma_decode_encode(primary: Ipv4, secondary: Ipv4, domain: Seq<char>)
    ensures
        decoded(encoded_name(primary, secondary, domain)) == Ok::<(Ipv4, Ipv4), DecodeError>(
            (primary, secondary),
        ),
{
    lemma_encoded_layout(primary, secondary, domain);
    lemma_value_of_octets(primary.a, primary.b, primary.c, primary.d);
    lemma_value_of_octets(secondary.a, secondary.b, secondary.c, secondary.d);
}

/// The first `.` at or after `from` lies between `from` and the end.
pub(crate) proof fn lemma_next_dot_bounds(s: Seq<char>, from: int)
    requires
        0 <= from,
    ensures
        from <= next_dot(s, from) || next_dot(s, from) == s.len(),
        next_dot(s, from) <= s.len(),
        next_dot(s, from) < s.len() ==> s[next_dot(s, from)] == '.',
    decreases s.len() - from,
{
    if from < s.len() && s[from] != '.' {
        lemma_next_dot_bounds(s, from + 1);
    }
}

} // verus!
