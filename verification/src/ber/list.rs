//! Lists of elements of one kind.

use vstd::prelude::*;
use crate::ber::laws;
use crate::ber::{first_fault, tlv, wrote, Cursor, CursorModel, Encoder, Tag, Tlv, TlvModel};
use crate::common::{agrees, sat_add, Error, Limits};

verus! {

/// Something that is encoded as one element.
pub trait Element<'a>: View + Sized {
    /// What an element reads as.
    spec fn read(t: TlvModel, limits: Limits) -> Result<Self::V, Error>;

    /// Why a value has no encoding.
    spec fn fault(m: Self::V) -> Option<Error>;

    /// The tag a value is encoded under.
    spec fn tag_of(m: Self::V) -> Tag;

    /// The contents octets of a value.
    spec fn contents_of(m: Self::V) -> Seq<u8>;

    /// Whether a decoder with these limits takes the encoding for the same value.
    spec fn fits(m: Self::V, limits: Limits) -> bool;

    /// Whether two values differ at most in where their elements stood.
    spec fn same(a: Self::V, b: Self::V) -> bool;

    /// Decode one element.
    fn read_element(t: &Tlv<'a>, limits: &Limits) -> (r: Result<Self, Error>)
        ensures
            agrees(r, Self::read(t@, *limits)),
    ;

    /// Encode one element.
    fn write_element(&self, e: &mut Encoder) -> (r: Result<(), Error>)
        ensures
            wrote(
                r,
                old(e)@,
                final(e)@,
                Self::fault(self@),
                tlv(Self::tag_of(self@), Self::contents_of(self@)),
            ),
    ;

    /// What is written reads back.
    proof fn round_trip(m: Self::V, limits: Limits, offset: usize)
        requires
            Self::fault(m) is None,
            Self::fits(m, limits),
            Self::contents_of(m).len() <= u64::MAX,
        ensures
            Self::read(
                laws::element_at(Self::tag_of(m), Self::contents_of(m), offset),
                limits,
            ) matches Ok(x) && Self::same(x, m),
    ;

    /// What was read can be written, and reads back.
    proof fn decoded(t: TlvModel, limits: Limits)
        ensures
            Self::read(t, limits) matches Ok(m) ==> Self::fault(m) is None && Self::fits(m, limits),
    ;

    /// Values that differ only in where their elements stood have one encoding.
    proof fn same_octets(a: Self::V, b: Self::V)
        requires
            Self::same(a, b),
        ensures
            Self::tag_of(a) == Self::tag_of(b),
            Self::contents_of(a) == Self::contents_of(b),
    ;
}

/// The views of a list.
pub open spec fn views<T: View>(s: Seq<T>) -> Seq<T::V> {
    Seq::new(s.len(), |i: int| s[i]@)
}

/// A decoded list agrees with its model.
pub open spec fn agrees_list<T: View>(
    r: Result<Vec<T>, Error>,
    s: Result<Seq<T::V>, Error>,
) -> bool {
    match r {
        Ok(v) => s == Ok::<Seq<T::V>, Error>(views(v@)),
        Err(e) => s == Err::<Seq<T::V>, Error>(e),
    }
}

/// A bound on the length of a list, and the name it is reported under.
#[derive(Clone, Copy, Debug)]
pub struct Bound {
    /// The name.
    pub limit: &'static str,
    /// The most elements the list may have.
    pub max: usize,
}

/// The elements a cursor still holds, after `acc`. The number of elements is checked before
/// each is decoded.
pub open spec fn listed<'a, T: Element<'a>>(
    c: CursorModel,
    limits: Limits,
    bound: Option<Bound>,
    acc: Seq<T::V>,
) -> Result<Seq<T::V>, Error>
    decreases c.bytes.len(),
    via listed_shrinks::<'a, T>
{
    if c.bytes.len() == 0 {
        Ok(acc)
    } else if bound matches Some(b) && acc.len() >= b.max {
        Err(Error::LimitExceeded { limit: bound->Some_0.limit, value: sat_add(1, acc.len()) })
    } else {
        match c.first() {
            Err(e) => Err(e),
            Ok(t) => match T::read(t, limits) {
                Err(e) => Err(e),
                Ok(v) => listed::<T>(c.rest(), limits, bound, acc.push(v)),
            },
        }
    }
}

#[via_fn]
proof fn listed_shrinks<'a, T: Element<'a>>(
    c: CursorModel,
    limits: Limits,
    bound: Option<Bound>,
    acc: Seq<T::V>,
) {
    laws::lemma_progress(c);
}

/// Decode every element of a cursor onto the end of a list.
pub fn extend_list<'a, T: Element<'a>>(
    c: Cursor<'a>,
    limits: &Limits,
    bound: Option<Bound>,
    list: Vec<T>,
) -> (r: Result<Vec<T>, Error>)
    ensures
        agrees_list(r, listed::<T>(c@, *limits, bound, views(list@))),
{
    let mut out: Vec<T> = list;
    let mut cur = c;
    while !cur.is_empty()
        invariant
            listed::<T>(c@, *limits, bound, views(list@)) == listed::<T>(
                cur@,
                *limits,
                bound,
                views(out@),
            ),
        decreases cur@.bytes.len(),
    {
        if let Some(b) = bound {
            if out.len() >= b.max {
                return Err(
                    Error::LimitExceeded { limit: b.limit, value: out.len().saturating_add(1) },
                );
            }
        }
        proof {
            laws::lemma_progress(cur@);
        }
        let t = cur.next_required()?;
        let v = T::read_element(&t, limits)?;
        let ghost before = views(out@);
        out.push(v);
        assert(views(out@) =~= before.push(v@));
    }
    Ok(out)
}

/// Decode every element of a cursor.
pub fn read_list<'a, T: Element<'a>>(
    c: Cursor<'a>,
    limits: &Limits,
    bound: Option<Bound>,
) -> (r: Result<Vec<T>, Error>)
    ensures
        agrees_list(r, listed::<T>(c@, *limits, bound, Seq::empty())),
{
    let list: Vec<T> = Vec::new();
    assert(views(list@) =~= Seq::<T::V>::empty());
    extend_list(c, limits, bound, list)
}

/// The encoding of the elements from index `i` on, back to back.
pub open spec fn list_from<'a, T: Element<'a>>(s: Seq<T::V>, i: nat) -> Seq<u8>
    decreases s.len() - i,
{
    if i < s.len() {
        tlv(T::tag_of(s[i as int]), T::contents_of(s[i as int])) + list_from::<T>(s, i + 1)
    } else {
        Seq::empty()
    }
}

/// The first fault of the elements from index `i` on.
pub open spec fn list_fault_from<'a, T: Element<'a>>(s: Seq<T::V>, i: nat) -> Option<Error>
    decreases s.len() - i,
{
    if i < s.len() {
        first_fault(T::fault(s[i as int]), list_fault_from::<T>(s, i + 1))
    } else {
        None
    }
}

/// The encoding of a list, back to back.
pub open spec fn list_bytes<'a, T: Element<'a>>(s: Seq<T::V>) -> Seq<u8> {
    list_from::<T>(s, 0)
}

/// The first fault of a list.
pub open spec fn list_fault<'a, T: Element<'a>>(s: Seq<T::V>) -> Option<Error> {
    list_fault_from::<T>(s, 0)
}

/// Encode a list, back to back.
pub fn write_list<'a, T: Element<'a>>(items: &[T]) -> (r: Result<Encoder, Error>)
    ensures
        match list_fault::<T>(views(items@)) {
            None => r matches Ok(e) && e@ == list_bytes::<T>(views(items@)),
            Some(f) => r == Err::<Encoder, Error>(f),
        },
{
    let mut e = Encoder::new();
    let ghost all = views(items@);
    let mut i: usize = 0;
    while i < items.len()
        invariant
            i <= items.len(),
            all == views(items@),
            e@ + list_from::<T>(all, i as nat) == list_bytes::<T>(all),
            list_fault::<T>(all) == list_fault_from::<T>(all, i as nat),
        decreases items.len() - i,
    {
        let ghost before = e@;
        assert(all[i as int] == items@[i as int]@);
        items[i].write_element(&mut e)?;
        proof {
            let v = all[i as int];
            let rest = list_from::<T>(all, (i + 1) as nat);
            assert(e@ + rest =~= before + (tlv(T::tag_of(v), T::contents_of(v)) + rest));
        }
        i += 1;
    }
    assert(e@ + list_from::<T>(all, i as nat) =~= e@);
    Ok(e)
}

/// Whether every element of a list is the same as its counterpart.
pub open spec fn same_list<'a, T: Element<'a>>(a: Seq<T::V>, b: Seq<T::V>) -> bool {
    a.len() == b.len() && forall|i: int| 0 <= i < a.len() ==> T::same(#[trigger] a[i], b[i])
}

/// Whether a decoder with these limits takes every element of a list.
pub open spec fn list_fits<'a, T: Element<'a>>(
    s: Seq<T::V>,
    limits: Limits,
    bound: Option<Bound>,
) -> bool {
    &&& bound matches Some(b) ==> s.len() <= b.max
    &&& forall|i: int| 0 <= i < s.len() ==> T::fits(#[trigger] s[i], limits)
}

proof fn lemma_list_from<'a, T: Element<'a>>(
    s: Seq<T::V>,
    i: nat,
    limits: Limits,
    bound: Option<Bound>,
    offset: usize,
    acc: Seq<T::V>,
)
    requires
        i <= s.len(),
        list_fault_from::<T>(s, i) is None,
        list_fits::<T>(s, limits, bound),
        acc.len() == i,
        forall|j: int| 0 <= j < i ==> T::same(#[trigger] acc[j], s[j]),
        list_from::<T>(s, i).len() <= u64::MAX,
    ensures
        listed::<T>(
            CursorModel { bytes: list_from::<T>(s, i), offset },
            limits,
            bound,
            acc,
        ) matches Ok(x) && same_list::<T>(x, s),
    decreases s.len() - i,
{
    if i < s.len() {
        let v = s[i as int];
        let rest = list_from::<T>(s, i + 1);
        let tag = T::tag_of(v);
        let value = T::contents_of(v);
        laws::lemma_tlv_len(tag, value);
        T::round_trip(v, limits, offset);
        laws::lemma_first(tag, value, rest, offset);
        let next = laws::cursor_after(tag, value, rest, offset);
        let x = T::read(laws::element_at(tag, value, offset), limits)->Ok_0;
        lemma_list_from::<T>(s, i + 1, limits, bound, next.offset, acc.push(x));
    }
}

/// A list that has an encoding and stays within its bounds reads back element by element.
pub proof fn lemma_list_round_trip<'a, T: Element<'a>>(
    s: Seq<T::V>,
    limits: Limits,
    bound: Option<Bound>,
    offset: usize,
)
    requires
        list_fault::<T>(s) is None,
        list_fits::<T>(s, limits, bound),
        list_bytes::<T>(s).len() <= u64::MAX,
    ensures
        listed::<T>(
            CursorModel { bytes: list_bytes::<T>(s), offset },
            limits,
            bound,
            Seq::empty(),
        ) matches Ok(x) && same_list::<T>(x, s),
{
    lemma_list_from::<T>(s, 0, limits, bound, offset, Seq::empty());
}

proof fn lemma_list_refused_from<'a, T: Element<'a>>(
    s: Seq<T::V>,
    i: nat,
    limits: Limits,
    bound: Bound,
    offset: usize,
    acc: Seq<T::V>,
)
    requires
        i < s.len(),
        acc.len() <= bound.max < acc.len() + s.len() - i,
        list_fault_from::<T>(s, i) is None,
        forall|j: int| i <= j < s.len() ==> T::fits(#[trigger] s[j], limits),
        list_from::<T>(s, i).len() <= u64::MAX,
    ensures
        listed::<T>(
            CursorModel { bytes: list_from::<T>(s, i), offset },
            limits,
            Some(bound),
            acc,
        ) == Err::<Seq<T::V>, Error>(
            Error::LimitExceeded { limit: bound.limit, value: sat_add(1, bound.max as nat) },
        ),
    decreases s.len() - i,
{
    broadcast use laws::lemma_tlv_len;

    let v = s[i as int];
    let rest = list_from::<T>(s, i + 1);
    laws::lemma_first(T::tag_of(v), T::contents_of(v), rest, offset);
    if acc.len() < bound.max {
        T::round_trip(v, limits, offset);
        let t = laws::element_at(T::tag_of(v), T::contents_of(v), offset);
        let next = laws::cursor_after(T::tag_of(v), T::contents_of(v), rest, offset);
        lemma_list_refused_from::<T>(
            s,
            i + 1,
            limits,
            bound,
            next.offset,
            acc.push(T::read(t, limits)->Ok_0),
        );
    }
}

/// A list with more elements than its bound is refused, however good each of them is.
pub proof fn lemma_list_refused<'a, T: Element<'a>>(
    s: Seq<T::V>,
    limits: Limits,
    bound: Bound,
    offset: usize,
)
    requires
        s.len() > bound.max,
        list_fault::<T>(s) is None,
        forall|j: int| 0 <= j < s.len() ==> T::fits(#[trigger] s[j], limits),
        list_bytes::<T>(s).len() <= u64::MAX,
    ensures
        listed::<T>(
            CursorModel { bytes: list_bytes::<T>(s), offset },
            limits,
            Some(bound),
            Seq::empty(),
        ) == Err::<Seq<T::V>, Error>(
            Error::LimitExceeded { limit: bound.limit, value: sat_add(1, bound.max as nat) },
        ),
{
    lemma_list_refused_from::<T>(s, 0, limits, bound, offset, Seq::empty());
}

/// A list of values without a fault has none from any index on.
pub proof fn lemma_faultless<'a, T: Element<'a>>(s: Seq<T::V>, i: nat)
    requires
        forall|j: int| 0 <= j < s.len() ==> T::fault(#[trigger] s[j]) is None,
    ensures
        list_fault_from::<T>(s, i) is None,
    decreases s.len() - i,
{
    if i < s.len() {
        lemma_faultless::<T>(s, i + 1);
        assert(T::fault(s[i as int]) is None);
    }
}

proof fn lemma_list_decoded_from<'a, T: Element<'a>>(
    c: CursorModel,
    limits: Limits,
    bound: Option<Bound>,
    acc: Seq<T::V>,
)
    requires
        bound matches Some(b) ==> acc.len() <= b.max,
        forall|j: int|
            0 <= j < acc.len() ==> T::fault(#[trigger] acc[j]) is None && T::fits(acc[j], limits),
    ensures
        listed::<T>(c, limits, bound, acc) matches Ok(x) ==> list_fault::<T>(x) is None
            && list_fits::<T>(x, limits, bound),
    decreases c.bytes.len(),
{
    if c.bytes.len() == 0 {
        lemma_faultless::<T>(acc, 0);
    } else {
        laws::lemma_progress(c);
        if let Ok(t) = c.first() {
            T::decoded(t, limits);
            if let Ok(v) = T::read(t, limits) {
                if bound matches Some(b) ==> acc.len() < b.max {
                    lemma_list_decoded_from::<T>(c.rest(), limits, bound, acc.push(v));
                }
            }
        }
    }
}

/// A list that was decoded can be written, and reads back.
pub proof fn lemma_list_decoded<'a, T: Element<'a>>(
    c: CursorModel,
    limits: Limits,
    bound: Option<Bound>,
)
    ensures
        listed::<T>(c, limits, bound, Seq::empty()) matches Ok(x) ==> list_fault::<T>(x) is None
            && list_fits::<T>(x, limits, bound),
{
    lemma_list_decoded_from::<T>(c, limits, bound, Seq::empty());
}

proof fn lemma_same_octets_from<'a, T: Element<'a>>(a: Seq<T::V>, b: Seq<T::V>, i: nat)
    requires
        same_list::<T>(a, b),
    ensures
        list_from::<T>(a, i) == list_from::<T>(b, i),
    decreases a.len() - i,
{
    if i < a.len() {
        assert(T::same(a[i as int], b[i as int]));
        T::same_octets(a[i as int], b[i as int]);
        lemma_same_octets_from::<T>(a, b, i + 1);
    }
}

/// Lists that differ only in where their elements stood have one encoding.
pub proof fn lemma_same_octets<'a, T: Element<'a>>(a: Seq<T::V>, b: Seq<T::V>)
    requires
        same_list::<T>(a, b),
    ensures
        list_bytes::<T>(a) == list_bytes::<T>(b),
{
    lemma_same_octets_from::<T>(a, b, 0);
}

} // verus!
