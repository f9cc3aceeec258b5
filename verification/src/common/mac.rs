//! Ethernet addresses.

use vstd::prelude::*;
use vstd::string::*;
use vstd::utf8::*;
use crate::ber::laws;
use crate::ber::{text_of, utf8_text};
use crate::common::{agrees, Error};

verus! {

/// An Ethernet address.
#[derive(Clone, Copy, Debug, PartialEq, Eq, PartialOrd, Ord, Hash)]
pub struct MacAddr(pub [u8; 6]);

impl View for MacAddr {
    type V = Seq<u8>;

    open spec fn view(&self) -> Seq<u8> {
        self.0@
    }
}

impl Default for MacAddr {
    fn default() -> (r: MacAddr)
        ensures
            r@ == seq![0u8, 0u8, 0u8, 0u8, 0u8, 0u8],
    {
        let r = MacAddr([0, 0, 0, 0, 0, 0]);
        assert(r@ =~= seq![0u8, 0u8, 0u8, 0u8, 0u8, 0u8]);
        r
    }
}

/// What a hexadecimal digit counts for, in either case.
pub open spec fn hex_value(c: u8) -> Option<u8> {
    if 48 <= c <= 57 {
        Some((c - 48) as u8)
    } else if 65 <= c <= 70 {
        Some((c - 55) as u8)
    } else if 97 <= c <= 102 {
        Some((c - 87) as u8)
    } else {
        None
    }
}

/// A hexadecimal digit, in upper case.
pub open spec fn hex_digit(n: u8) -> u8 {
    if n < 10 {
        (48 + n) as u8
    } else {
        (55 + n) as u8
    }
}

/// Whether octets spell an address: six pairs of hexadecimal digits with `-` between them.
pub open spec fn spells_mac(b: Seq<u8>) -> bool {
    &&& b.len() == 17
    &&& forall|i: int|
        0 <= i < 6 ==> hex_value(#[trigger] b[3 * i]) is Some && hex_value(b[3 * i + 1]) is Some
    &&& forall|i: int| 0 <= i < 5 ==> #[trigger] b[3 * i + 2] == 45
}

/// The address that octets spell.
pub open spec fn mac_of(b: Seq<u8>) -> Seq<u8> {
    Seq::new(
        6,
        |i: int| (hex_value(b[3 * i])->Some_0 * 16 + hex_value(b[3 * i + 1])->Some_0) as u8,
    )
}

/// How an address is written: upper case, with `-` between the pairs.
pub open spec fn mac_octets(m: Seq<u8>) -> Seq<u8> {
    Seq::new(
        17,
        |i: int|
            if i % 3 == 0 {
                hex_digit((m[i / 3] / 16) as u8)
            } else if i % 3 == 1 {
                hex_digit((m[i / 3] % 16) as u8)
            } else {
                45
            },
    )
}

/// What the text of an address says.
pub open spec fn parsed_mac(s: Seq<char>) -> Result<Seq<u8>, Error> {
    if spells_mac(encode_utf8(s)) {
        Ok(mac_of(encode_utf8(s)))
    } else {
        Err(Error::InvalidValue("not a MAC address"))
    }
}

fn hex(c: u8) -> (r: Option<u8>)
    ensures
        r == hex_value(c),
        r matches Some(v) ==> v < 16,
{
    if 48 <= c && c <= 57 {
        Some(c - 48)
    } else if 65 <= c && c <= 70 {
        Some(c - 55)
    } else if 97 <= c && c <= 102 {
        Some(c - 87)
    } else {
        None
    }
}

fn digit_of(n: u8) -> (r: u8)
    requires
        n < 16,
    ensures
        r == hex_digit(n),
        r < 128,
{
    if n < 10 {
        48 + n
    } else {
        55 + n
    }
}

impl MacAddr {
    /// The first GOOSE multicast address.
    pub fn goose_base() -> (r: MacAddr)
        ensures
            r@ == seq![0x01u8, 0x0C, 0xCD, 0x01, 0x00, 0x00],
    {
        let r = MacAddr([0x01, 0x0C, 0xCD, 0x01, 0x00, 0x00]);
        assert(r@ =~= seq![0x01u8, 0x0C, 0xCD, 0x01, 0x00, 0x00]);
        r
    }

    /// The first sampled-value multicast address.
    pub fn sv_base() -> (r: MacAddr)
        ensures
            r@ == seq![0x01u8, 0x0C, 0xCD, 0x04, 0x00, 0x00],
    {
        let r = MacAddr([0x01, 0x0C, 0xCD, 0x04, 0x00, 0x00]);
        assert(r@ =~= seq![0x01u8, 0x0C, 0xCD, 0x04, 0x00, 0x00]);
        r
    }

    /// Whether this is an address of the GOOSE multicast range.
    pub fn is_goose_multicast(&self) -> (r: bool)
        ensures
            r == (self@.take(4) == seq![0x01u8, 0x0C, 0xCD, 0x01]),
    {
        let r = self.0[0] == 0x01 && self.0[1] == 0x0C && self.0[2] == 0xCD && self.0[3] == 0x01;
        proof {
            let w = seq![0x01u8, 0x0C, 0xCD, 0x01];
            if r {
                assert(self@.take(4) =~= w);
            } else if self@.take(4) == w {
                assert(self@[0] == w[0] && self@[1] == w[1]);
                assert(self@[2] == w[2] && self@[3] == w[3]);
            }
        }
        r
    }

    /// Whether this is an address of the sampled-value multicast range.
    pub fn is_sv_multicast(&self) -> (r: bool)
        ensures
            r == (self@.take(4) == seq![0x01u8, 0x0C, 0xCD, 0x04]),
    {
        let r = self.0[0] == 0x01 && self.0[1] == 0x0C && self.0[2] == 0xCD && self.0[3] == 0x04;
        proof {
            let w = seq![0x01u8, 0x0C, 0xCD, 0x04];
            if r {
                assert(self@.take(4) =~= w);
            } else if self@.take(4) == w {
                assert(self@[0] == w[0] && self@[1] == w[1]);
                assert(self@[2] == w[2] && self@[3] == w[3]);
            }
        }
        r
    }

    /// Read an address written as six pairs of hexadecimal digits with `-` between them.
    pub fn parse(text: &str) -> (r: Result<MacAddr, Error>)
        ensures
            agrees(r, parsed_mac(text@)),
    {
        let b = text.as_bytes();
        if b.len() != 17 {
            return Err(Error::InvalidValue("not a MAC address"));
        }
        let mut out: [u8; 6] = [0, 0, 0, 0, 0, 0];
        let mut i: usize = 0;
        while i < 6
            invariant
                i <= 6,
                b@.len() == 17,
                b@ == encode_utf8(text@),
                out@.len() == 6,
                forall|j: int|
                    0 <= j < i ==> hex_value(#[trigger] b@[3 * j]) is Some && hex_value(
                        b@[3 * j + 1],
                    ) is Some,
                forall|j: int| 0 <= j < i && j < 5 ==> #[trigger] b@[3 * j + 2] == 45,
                forall|j: int| 0 <= j < i ==> #[trigger] out@[j] == mac_of(b@)[j],
            decreases 6 - i,
        {
            match (hex(b[3 * i]), hex(b[3 * i + 1])) {
                (Some(high), Some(low)) => {
                    out[i] = high * 16 + low;
                },
                _ => {
                    return Err(Error::InvalidValue("not a MAC address"));
                },
            }
            if i < 5 && b[3 * i + 2] != 45 {
                return Err(Error::InvalidValue("not a MAC address"));
            }
            i += 1;
        }
        let r = MacAddr(out);
        assert(r@ =~= mac_of(b@));
        Ok(r)
    }

    /// The address in upper case, with `-` between the pairs.
    pub fn to_text(&self) -> (r: String)
        ensures
            r@ == text_of(mac_octets(self@)),
    {
        let mut b: Vec<u8> = Vec::new();
        let mut i: usize = 0;
        while i < 17
            invariant
                i <= 17,
                b@.len() == i,
                forall|j: int|
                    0 <= j < i ==> #[trigger] b@[j] == mac_octets(self@)[j] && b@[j] < 128,
            decreases 17 - i,
        {
            let c: u8 = if i % 3 == 0 {
                digit_of(self.0[i / 3] / 16)
            } else if i % 3 == 1 {
                digit_of(self.0[i / 3] % 16)
            } else {
                45
            };
            b.push(c);
            i += 1;
        }
        assert(b@ =~= mac_octets(self@));
        proof {
            laws::lemma_ascii_utf8(b@);
        }
        match utf8_text(&b) {
            Some(s) => s.to_owned(),
            None => String::new(),
        }
    }
}

/// What is written reads back.
pub proof fn lemma_mac_round_trip(m: Seq<u8>)
    requires
        m.len() == 6,
    ensures
        spells_mac(mac_octets(m)),
        mac_of(mac_octets(m)) == m,
{
    let b = mac_octets(m);
    assert forall|i: int| 0 <= i < 6 implies hex_value(#[trigger] b[3 * i]) == Some(
        (m[i] / 16) as u8,
    ) && hex_value(b[3 * i + 1]) == Some((m[i] % 16) as u8) by {
        assert((3 * i) / 3 == i && (3 * i + 1) / 3 == i);
        assert((3 * i) % 3 == 0 && (3 * i + 1) % 3 == 1);
    }
    assert forall|i: int| 0 <= i < 6 implies mac_of(b)[i] == m[i] by {
        assert(hex_value(b[3 * i]) is Some);
    }
    assert(mac_of(b) =~= m);
}

} // verus!
