use vstd::prelude::*;

verus! {

/// An IPv4 address as its four octets, most significant first.
#[derive(Clone, Copy, Debug, PartialEq, Eq, Structural)]
pub struct Ipv4 {
    pub a: u8,
    pub b: u8,
    pub c: u8,
    pub d: u8,
}

/// The address as a 32-bit number in network order.
pub open spec fn octets_value(a: u8, b: u8, c: u8, d: u8) -> nat {
    (a as nat) * 16777216 + (b as nat) * 65536 + (c as nat) * 256 + (d as nat)
}

/// The address whose 32-bit number is `v`.
pub open spec fn ipv4_of_value(v: u32) -> Ipv4 {
    Ipv4 {
        a: (v / 16777216) as u8,
        b: ((v / 65536) % 256) as u8,
        c: ((v / 256) % 256) as u8,
        d: (v % 256) as u8,
    }
}

pub(crate) proof fn lemma_value_of_octets(a: u8, b: u8, c: u8, d: u8)
    ensures
        octets_value(a, b, c, d) < 0x1_0000_0000,
        ipv4_of_value(octets_value(a, b, c, d) as u32) == (Ipv4 { a, b, c, d }),
{
    let v: u32 = ((a as u32) * 16777216 + (b as u32) * 65536 + (c as u32) * 256 + (d as u32)) as u32;
    assert((a as u32) * 16777216 + (b as u32) * 65536 + (c as u32) * 256 + (d as u32) < 0x1_0000_0000)
        by (bit_vector);
    assert(v / 16777216 == a && (v / 65536) % 256 == b && (v / 256) % 256 == c && v % 256 == d)
        by (bit_vector)
        requires
            v == ((a as u32) * 16777216 + (b as u32) * 65536 + (c as u32) * 256 + (d as u32)) as u32,
    ;
}

proof fn lemma_octets_of_value(v: u32)
    ensures
        ({
            let p = ipv4_of_value(v);
            octets_value(p.a, p.b, p.c, p.d) == v
        }),
{
    assert(v == (v / 16777216) * 16777216 + ((v / 65536) % 256) * 65536 + ((v / 256) % 256) * 256
        + v % 256) by (bit_vector);
}

impl Ipv4 {
    /// The address as a 32-bit number in network order.
    pub open spec fn value(self) -> nat {
        octets_value(self.a, self.b, self.c, self.d)
    }

    /// The four octets in order.
    pub open spec fn octet_seq(self) -> Seq<u8> {
        seq![self.a, self.b, self.c, self.d]
    }

    /// The address made of four octets, most significant first.
    pub fn new(a: u8, b: u8, c: u8, d: u8) -> (r: Ipv4)
        ensures
            r == (Ipv4 { a, b, c, d }),
    {
        Ipv4 { a, b, c, d }
    }

    /// The loopback address 127.0.0.1.
    pub fn localhost() -> (r: Ipv4)
        ensures
            r == loopback(),
    {
        Ipv4 { a: 127, b: 0, c: 0, d: 1 }
    }

    /// The address whose network-order number is `v`.
    pub fn from_u32(v: u32) -> (r: Ipv4)
        ensures
            r == ipv4_of_value(v),
            r.value() == v,
    {
        proof {
            lemma_octets_of_value(v);
        }
        Ipv4 {
            a: (v / 16777216) as u8,
            b: ((v / 65536) % 256) as u8,
            c: ((v / 256) % 256) as u8,
            d: (v % 256) as u8,
        }
    }

    /// The network-order number of the address.
    pub fn to_u32(&self) -> (r: u32)
        ensures
            r == self.value(),
            ipv4_of_value(r) == *self,
    {
        proof {
            lemma_value_of_octets(self.a, self.b, self.c, self.d);
        }
        (self.a as u32) * 16777216 + (self.b as u32) * 65536 + (self.c as u32) * 256 + (self.d as u32)
    }

    /// The four octets in order.
    pub fn octets(&self) -> (r: [u8; 4])
        ensures
            r@ == self.octet_seq(),
    {
        let r = [self.a, self.b, self.c, self.d];
        assert(r@ =~= self.octet_seq());
        r
    }

    /// Whether two addresses are the same.
    pub fn same_as(&self, other: &Ipv4) -> (r: bool)
        ensures
            r == (*self == *other),
    {
        self.a == other.a && self.b == other.b && self.c == other.c && self.d == other.d
    }
}

/// The loopback address 127.0.0.1, kept as a testing allowance.
pub open spec fn loopback() -> Ipv4 {
    Ipv4 { a: 127, b: 0, c: 0, d: 1 }
}

} // verus!
