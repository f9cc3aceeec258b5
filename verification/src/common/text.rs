//! Numbers and addresses as text.

use vstd::prelude::*;
use vstd::utf8::*;
use crate::common::{decimal, default_limits, signed_decimal, Error};
use crate::common::mac::{mac_octets, parsed_mac};

verus! {

/// The number that decimal digits stand for.
pub open spec fn number_in(s: Seq<char>) -> int
    decreases s.len(),
{
    if s.len() == 0 {
        0
    } else {
        10 * number_in(s.drop_last()) + (s.last() as int - '0' as int)
    }
}

/// A number is written in digits, without a leading zero but for zero itself, and they stand for
/// that number.
pub proof fn lemma_decimal(n: nat)
    ensures
        ({
            let s = decimal(n);
            &&& s.len() >= 1
            &&& forall|i: int| 0 <= i < s.len() ==> '0' <= #[trigger] s[i] <= '9'
            &&& s[0] == '0' ==> n == 0 && s.len() == 1
            &&& number_in(s) == n
        }),
    decreases n,
{
    let s = decimal(n);
    if n < 10 {
        assert(s.drop_last() =~= Seq::<char>::empty());
        assert(number_in(Seq::<char>::empty()) == 0);
    } else {
        lemma_decimal(n / 10);
        assert(s.drop_last() =~= decimal(n / 10));
        assert(s[0] == decimal(n / 10)[0]);
        assert forall|i: int| 0 <= i < s.len() implies '0' <= #[trigger] s[i] <= '9' by {
            if i < s.len() - 1 {
                assert(s[i] == decimal(n / 10)[i]);
            }
        }
    }
}

/// A negative number is a minus sign and its size; any other is its size alone.
pub proof fn lemma_signed(n: int)
    ensures
        n >= 0 ==> number_in(signed_decimal(n)) == n && signed_decimal(n)[0] != '-',
        n < 0 ==> signed_decimal(n)[0] == '-' && number_in(signed_decimal(n).skip(1)) == -n,
{
    if n < 0 {
        lemma_decimal((-n) as nat);
        assert(signed_decimal(n).skip(1) =~= decimal((-n) as nat));
    } else {
        lemma_decimal(n as nat);
        assert('0' <= decimal(n as nat)[0]);
    }
}

/// Whether an octet is a hexadecimal digit, of either case, that counts for `v`.
pub open spec fn counts_for(c: u8, v: int) -> bool {
    ||| 0 <= v <= 9 && c == '0' as int + v
    ||| 10 <= v <= 15 && c == 'A' as int + (v - 10)
    ||| 10 <= v <= 15 && c == 'a' as int + (v - 10)
}

/// Whether an octet is no hexadecimal digit.
pub open spec fn no_digit(c: u8) -> bool {
    forall|v: int| !counts_for(c, v)
}

/// The text of an address is seventeen octets: two hexadecimal digits for each of the six, the higher
/// first, with a hyphen between one and the next. Anything else is no address.
pub proof fn lemma_address_read(s: Seq<char>)
    ensures
        ({
            let b = encode_utf8(s);
            match parsed_mac(s) {
                Ok(m) => {
                    &&& b.len() == 17
                    &&& m.len() == 6
                    &&& forall|i: int|
                        0 <= i < 6 ==> counts_for(b[3 * i], (#[trigger] m[i] / 16) as int)
                            && counts_for(b[3 * i + 1], (m[i] % 16) as int)
                    &&& forall|i: int| 0 <= i < 5 ==> #[trigger] b[3 * i + 2] == 0x2D
                },
                Err(e) => {
                    &&& e == Error::InvalidValue("not a MAC address")
                    &&& b.len() != 17 || (exists|i: int|
                        0 <= i < 6 && (no_digit(#[trigger] b[3 * i]) || no_digit(b[3 * i + 1]))) || (
                    exists|i: int| 0 <= i < 5 && #[trigger] b[3 * i + 2] != 0x2D)
                },
            }
        }),
{
    let b = encode_utf8(s);
    if let Ok(m) = parsed_mac(s) {
        assert forall|i: int| 0 <= i < 6 implies counts_for(b[3 * i], (#[trigger] m[i] / 16) as int)
            && counts_for(b[3 * i + 1], (m[i] % 16) as int) by {
            assert(crate::common::mac::hex_value(b[3 * i]) is Some);
        }
    } else if b.len() == 17 {
        if forall|i: int| 0 <= i < 5 ==> #[trigger] b[3 * i + 2] == 45 {
            let i = choose|i: int|
                0 <= i < 6 && !(crate::common::mac::hex_value(#[trigger] b[3 * i]) is Some
                    && crate::common::mac::hex_value(b[3 * i + 1]) is Some);
            assert(no_digit(b[3 * i]) || no_digit(b[3 * i + 1]));
        }
    }
}

/// An address is written with digits of upper case.
pub proof fn lemma_address_written(m: Seq<u8>, i: int)
    requires
        m.len() == 6,
        0 <= i < 6,
    ensures
        mac_octets(m).len() == 17,
        ({
            let (high, low) = (mac_octets(m)[3 * i], mac_octets(m)[3 * i + 1]);
            &&& counts_for(high, (m[i] / 16) as int) && high <= 'F' as int
            &&& counts_for(low, (m[i] % 16) as int) && low <= 'F' as int
        }),
        i < 5 ==> mac_octets(m)[3 * i + 2] == 0x2D,
{
    assert((3 * i) / 3 == i && (3 * i + 1) / 3 == i && (3 * i + 2) / 3 == i);
    assert((3 * i) % 3 == 0 && (3 * i + 1) % 3 == 1 && (3 * i + 2) % 3 == 2);
}

/// What is decoded where nothing else is said: sixteen levels, 65535 octets of one primitive, 512
/// members of a data set and 16384 of a list.
pub proof fn lemma_usual_limits()
    ensures
        default_limits().max_depth == 16,
        default_limits().max_primitive_len == 65535,
        default_limits().max_dataset_members == 512,
        default_limits().max_list_items == 16384,
{
}

} // verus!
