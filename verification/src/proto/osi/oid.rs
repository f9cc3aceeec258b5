//! Object identifiers, as the OSI layers exchange them.
//!
//! An identifier is kept as its encoded contents octets, so that a decoded PDU encodes as it
//! arrived.

use vstd::prelude::*;
use vstd::string::*;
use crate::ber::{base128, push_base128, read_base128};
use crate::ber::laws;
use crate::common::{decimal, push_decimal, push_text};

verus! {

/// An object identifier's contents octets.
#[derive(Clone, Copy, Debug, PartialEq, Eq, Hash)]
pub struct Oid<'a>(pub &'a [u8]);

impl<'a> View for Oid<'a> {
    type V = Seq<u8>;

    open spec fn view(&self) -> Seq<u8> {
        self.0@
    }
}

/// `2.2.1.0.1`: the ACSE abstract syntax.
pub open spec fn acse_syntax() -> Seq<u8> {
    seq![0x52u8, 0x01, 0x00, 0x01]
}

/// `1.0.9506.2.1`: the MMS abstract syntax.
pub open spec fn mms_syntax() -> Seq<u8> {
    seq![0x28u8, 0xCA, 0x22, 0x02, 0x01]
}

/// `1.0.9506.2.3`: the MMS application context.
pub open spec fn mms_context_name() -> Seq<u8> {
    seq![0x28u8, 0xCA, 0x22, 0x02, 0x03]
}

/// `2.1.1`: BER.
pub open spec fn ber_syntax() -> Seq<u8> {
    seq![0x51u8, 0x01]
}

/// `2.2.3.1`: the ACSE password mechanism.
pub open spec fn password_mechanism() -> Seq<u8> {
    seq![0x52u8, 0x03, 0x01]
}

impl<'a> Oid<'a> {
    /// `2.2.1.0.1`: the ACSE abstract syntax.
    pub fn acse_abstract_syntax() -> (r: Oid<'static>)
        ensures
            r@ == acse_syntax(),
    {
        let r: Oid<'static> = Oid(&[0x52, 0x01, 0x00, 0x01]);
        assert(r@ =~= acse_syntax());
        r
    }

    /// `1.0.9506.2.1`: the MMS abstract syntax.
    pub fn mms_abstract_syntax() -> (r: Oid<'static>)
        ensures
            r@ == mms_syntax(),
    {
        let r: Oid<'static> = Oid(&[0x28, 0xCA, 0x22, 0x02, 0x01]);
        assert(r@ =~= mms_syntax());
        r
    }

    /// `1.0.9506.2.3`: the MMS application context, which an AARQ names.
    pub fn mms_application_context() -> (r: Oid<'static>)
        ensures
            r@ == mms_context_name(),
    {
        let r: Oid<'static> = Oid(&[0x28, 0xCA, 0x22, 0x02, 0x03]);
        assert(r@ =~= mms_context_name());
        r
    }

    /// `1.0.9506.1.1`: the ISO 9506 application context, which some devices still send.
    pub fn mms_application_context_9506() -> (r: Oid<'static>)
        ensures
            r@ == seq![0x28u8, 0xCA, 0x22, 0x01, 0x01],
    {
        let r: Oid<'static> = Oid(&[0x28, 0xCA, 0x22, 0x01, 0x01]);
        assert(r@ =~= seq![0x28u8, 0xCA, 0x22, 0x01, 0x01]);
        r
    }

    /// `2.1.1`: BER, the only transfer syntax of this profile.
    pub fn ber() -> (r: Oid<'static>)
        ensures
            r@ == ber_syntax(),
    {
        let r: Oid<'static> = Oid(&[0x51, 0x01]);
        assert(r@ =~= ber_syntax());
        r
    }

    /// `2.2.3.1`: the ACSE password authentication mechanism.
    pub fn password_mechanism() -> (r: Oid<'static>)
        ensures
            r@ == password_mechanism(),
    {
        let r: Oid<'static> = Oid(&[0x52, 0x03, 0x01]);
        assert(r@ =~= password_mechanism());
        r
    }

    /// The arcs, decoded. A malformed identifier ends the walk.
    pub fn arcs(&self) -> (r: Arcs<'a>)
        ensures
            r.remaining() == arcs_of(self@),
    {
        Arcs { rest: self.0, pending: None, first: true }
    }

    /// The identifier in dotted notation.
    pub fn to_text(&self) -> (r: String)
        ensures
            r@ == dotted_from(arcs_of(self@), 0),
    {
        let arcs = self.arcs().collect();
        let mut out = String::new();
        let mut i: usize = 0;
        assert(out@ + dotted_from(arcs@, 0) =~= dotted_from(arcs@, 0));
        while i < arcs.len()
            invariant
                i <= arcs.len(),
                out@ + dotted_from(arcs@, i as nat) == dotted_from(arcs@, 0),
            decreases arcs.len() - i,
        {
            let ghost before = out@;
            if i > 0 {
                push_text(&mut out, ".");
            }
            push_decimal(&mut out, arcs[i] as u64);
            proof {
                let rest = dotted_from(arcs@, (i + 1) as nat);
                let d = decimal(arcs@[i as int] as nat);
                if i == 0 {
                    assert(out@ + rest =~= before + (d + rest));
                } else {
                    assert(out@ + rest =~= before + ("."@ + (d + rest)));
                }
            }
            i += 1;
        }
        assert(out@ + dotted_from(arcs@, i as nat) =~= out@);
        out
    }
}

/// The arcs from index `i` on, each behind a dot but the first of all.
pub open spec fn dotted_from(arcs: Seq<u32>, i: nat) -> Seq<char>
    decreases arcs.len() - i,
{
    if i < arcs.len() {
        if i == 0 {
            decimal(arcs[0] as nat) + dotted_from(arcs, 1)
        } else {
            "."@ + (decimal(arcs[i as int] as nat) + dotted_from(arcs, i + 1))
        }
    } else {
        Seq::empty()
    }
}

/// The arcs after the first two: one per subidentifier, up to the first malformed one.
pub open spec fn later_arcs(b: Seq<u8>) -> Seq<u32>
    decreases b.len(),
    via later_arcs_shrink
{
    match read_base128(b, 0) {
        Err(_) => Seq::empty(),
        Ok((v, rest)) => seq![v] + later_arcs(rest),
    }
}

#[via_fn]
proof fn later_arcs_shrink(b: Seq<u8>) {
    laws::lemma_base128_shrinks(b);
}

/// The two arcs that the first subidentifier spells: forty times the first and the second,
/// the first being at most two.
pub open spec fn first_arcs(v: u32) -> (u32, u32) {
    if v >= 80 {
        (2, (v - 80) as u32)
    } else {
        ((v / 40) as u32, (v % 40) as u32)
    }
}

/// The arcs of an identifier.
pub open spec fn arcs_of(b: Seq<u8>) -> Seq<u32> {
    match read_base128(b, 0) {
        Err(_) => Seq::empty(),
        Ok((v, rest)) => seq![first_arcs(v).0] + (seq![first_arcs(v).1] + later_arcs(rest)),
    }
}

/// The arcs of an [`Oid`], in order.
#[derive(Clone, Debug)]
pub struct Arcs<'a> {
    /// The octets not walked yet.
    rest: &'a [u8],
    /// The second half of the first subidentifier.
    pending: Option<u32>,
    /// Whether the first subidentifier is still to come.
    first: bool,
}

impl<'a> Arcs<'a> {
    /// The arcs still to come.
    pub closed spec fn remaining(&self) -> Seq<u32> {
        match self.pending {
            Some(v) => seq![v] + if self.first {
                arcs_of(self.rest@)
            } else {
                later_arcs(self.rest@)
            },
            None => if self.first {
                arcs_of(self.rest@)
            } else {
                later_arcs(self.rest@)
            },
        }
    }

    /// The next arc.
    pub fn next(&mut self) -> (r: Option<u32>)
        ensures
            match r {
                Some(v) => old(self).remaining().len() > 0 && v == old(self).remaining()[0]
                    && final(self).remaining() == old(self).remaining().skip(1),
                None => old(self).remaining().len() == 0 && final(self).remaining().len() == 0,
            },
    {
        if let Some(second) = self.pending {
            self.pending = None;
            assert(self.remaining() =~= old(self).remaining().skip(1));
            return Some(second);
        }
        match crate::ber::take_base128(self.rest) {
            Some((value, rest)) => {
                self.rest = rest;
                if self.first {
                    self.first = false;
                    let (a, b): (u32, u32) = if value >= 80 {
                        (2, value - 80)
                    } else {
                        (value / 40, value % 40)
                    };
                    self.pending = Some(b);
                    assert(self.remaining() =~= old(self).remaining().skip(1));
                    Some(a)
                } else {
                    assert(self.remaining() =~= old(self).remaining().skip(1));
                    Some(value)
                }
            },
            None => {
                None
            },
        }
    }

    /// Every arc still to come.
    pub fn collect(self) -> (r: Vec<u32>)
        ensures
            r@ == self.remaining(),
    {
        let mut arcs = self;
        let mut out: Vec<u32> = Vec::new();
        let ghost all = arcs.remaining();
        assert(out@ + arcs.remaining() =~= all);
        loop
            invariant_except_break
                out@ + arcs.remaining() == all,
            ensures
                out@ == all,
            decreases arcs.remaining().len(),
        {
            let ghost before = arcs.remaining();
            match arcs.next() {
                Some(v) => {
                    let ghost had = out@;
                    out.push(v);
                    assert(had.push(v) + before.skip(1) =~= had + before);
                },
                None => {
                    assert(out@ + before =~= out@);
                    break;
                },
            }
        }
        out
    }
}

/// The contents octets of the arcs from index `i` on.
pub open spec fn arcs_from(arcs: Seq<u32>, i: nat) -> Seq<u8>
    decreases arcs.len() - i,
{
    if i < arcs.len() {
        base128(arcs[i as int] as nat) + arcs_from(arcs, i + 1)
    } else {
        Seq::empty()
    }
}

/// Whether arcs have an encoding: there are two, the first is at most two, the second is below
/// forty unless the first is two, and together they fit 32 bits.
pub open spec fn encodable(arcs: Seq<u32>) -> bool {
    &&& arcs.len() >= 2
    &&& arcs[0] <= 2
    &&& arcs[0] < 2 ==> arcs[1] < 40
    &&& arcs[0] * 40 + arcs[1] <= u32::MAX
}

/// The contents octets of arcs.
pub open spec fn oid_octets(arcs: Seq<u32>) -> Seq<u8> {
    base128((arcs[0] * 40 + arcs[1]) as nat) + arcs_from(arcs, 2)
}

/// Encode `arcs` as the contents octets of an OBJECT IDENTIFIER.
///
/// `None` for arcs that have no encoding.
pub fn encode(arcs: &[u32]) -> (r: Option<Vec<u8>>)
    ensures
        match r {
            Some(b) => encodable(arcs@) && b@ == oid_octets(arcs@),
            None => !encodable(arcs@),
        },
{
    if arcs.len() < 2 {
        return None;
    }
    let first: u32 = arcs[0];
    let second: u32 = arcs[1];
    if first > 2 || (first < 2 && second >= 40) {
        return None;
    }
    let combined: u64 = first as u64 * 40 + second as u64;
    if combined > u32::MAX as u64 {
        return None;
    }
    let mut out: Vec<u8> = Vec::new();
    push_base128(&mut out, combined as u32);
    let mut i: usize = 2;
    assert(out@ =~= base128(combined as nat));
    while i < arcs.len()
        invariant
            2 <= i <= arcs.len(),
            out@ + arcs_from(arcs@, i as nat) == oid_octets(arcs@),
        decreases arcs.len() - i,
    {
        let ghost before = out@;
        push_base128(&mut out, arcs[i]);
        proof {
            let rest = arcs_from(arcs@, (i + 1) as nat);
            assert(out@ + rest =~= before + (base128(arcs@[i as int] as nat) + rest));
        }
        i += 1;
    }
    assert(out@ + arcs_from(arcs@, i as nat) =~= out@);
    Some(out)
}

proof fn lemma_later_arcs(arcs: Seq<u32>, i: nat)
    requires
        i <= arcs.len(),
    ensures
        later_arcs(arcs_from(arcs, i)) == arcs.skip(i as int),
    decreases arcs.len() - i,
{
    if i < arcs.len() {
        lemma_later_arcs(arcs, i + 1);
        laws::lemma_base128(arcs[i as int] as nat, arcs_from(arcs, i + 1));
        assert(seq![arcs[i as int]] + arcs.skip(i + 1int) =~= arcs.skip(i as int));
    } else {
        assert(later_arcs(arcs_from(arcs, i)) =~= arcs.skip(i as int));
    }
}

/// Arcs that have an encoding survive it.
pub proof fn lemma_arcs_round_trip(arcs: Seq<u32>)
    requires
        encodable(arcs),
    ensures
        arcs_of(oid_octets(arcs)) == arcs,
{
    let v = (arcs[0] * 40 + arcs[1]) as nat;
    laws::lemma_base128(v, arcs_from(arcs, 2));
    lemma_later_arcs(arcs, 2);
    assert(first_arcs(v as u32) == (arcs[0], arcs[1]));
    assert(seq![arcs[0]] + (seq![arcs[1]] + arcs.skip(2)) =~= arcs);
}

} // verus!
