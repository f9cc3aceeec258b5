//! `AlternateAccess`: naming one part of a named variable.
//!
//! A reference such as `phsAHar(2).cVal.mag.f` travels as the name of the whole variable and a
//! chain of selectors beside it. A step with more after it is tagged `[0]` to `[3]` inside a
//! `selectAlternateAccess`; the last step carries the same four alternatives as `[1]` to `[4]`.
//! A selection that picks two things at once is refused, never narrowed to its first.

use vstd::prelude::*;
use vstd::string::*;
use vstd::utf8::*;
use crate::ber::laws;
use crate::ber::list::views;
use crate::ber::{
    bad, ctx, ctx_cons, first_fault, octets_of, sint_octets, text_fault, tlv, univ, wrote, Class,
    Cursor, Encoder, Tag, Tlv, TlvModel, UNIVERSAL_SEQUENCE,
};
pub use crate::common::Selector;
use crate::common::{agrees, decimal, push_decimal, push_text, DecodeReason, Error, SelectorModel};

verus! {

/// How deep a chain of selectors may go.
pub const MAX_DEPTH: usize = 16;

/// The chain of selectors an `alternateAccess` names, outermost first.
///
/// An empty path is no alternate access at all and is never encoded.
#[derive(Clone, Debug, PartialEq, Eq)]
pub struct Path<'a> {
    /// The steps.
    steps: Vec<Selector<'a>>,
}

impl<'a> View for Path<'a> {
    type V = Seq<SelectorModel>;

    closed spec fn view(&self) -> Seq<SelectorModel> {
        views(self.steps@)
    }
}

impl<'a> Default for Path<'a> {
    fn default() -> (r: Path<'a>)
        ensures
            r@ == Seq::<SelectorModel>::empty(),
    {
        let r = Path { steps: Vec::new() };
        assert(r@ =~= Seq::<SelectorModel>::empty());
        r
    }
}

/// The tag number a selector takes as the last step.
pub open spec fn last_number(s: SelectorModel) -> u32 {
    match s {
        SelectorModel::Component(_) => 1,
        SelectorModel::Index(_) => 2,
        SelectorModel::IndexRange { .. } => 3,
        SelectorModel::AllElements => 4,
    }
}

fn last_tag(s: &Selector<'_>) -> (r: u32)
    ensures
        r == last_number(s@),
{
    match s {
        Selector::Component(_) => 1,
        Selector::Index(_) => 2,
        Selector::IndexRange { .. } => 3,
        Selector::AllElements => 4,
    }
}

/// The selection an element holds, where `as_last` is the number it would carry as a last step.
pub open spec fn selector_of(t: TlvModel, as_last: u32) -> Result<SelectorModel, Error> {
    if t.tag.class != Class::Context {
        bad(DecodeReason::UnexpectedTag, t.offset)
    } else if as_last == 1 {
        match t.visible() {
            Ok(s) => Ok(SelectorModel::Component(s)),
            Err(e) => Err(e),
        }
    } else if as_last == 2 {
        match t.unsigned32() {
            Ok(i) => Ok(SelectorModel::Index(i)),
            Err(e) => Err(e),
        }
    } else if as_last == 3 {
        let c = t.children();
        match c.tagged(ctx(0)) {
            Err(e) => Err(e),
            Ok(l) => match l.unsigned32() {
                Err(e) => Err(e),
                Ok(low) => match c.rest().tagged(ctx(1)) {
                    Err(e) => Err(e),
                    Ok(n) => match n.unsigned32() {
                        Err(e) => Err(e),
                        Ok(count) => Ok(SelectorModel::IndexRange { low, count }),
                    },
                },
            },
        }
    } else if as_last == 4 {
        Ok(SelectorModel::AllElements)
    } else {
        bad(DecodeReason::UnexpectedTag, t.offset)
    }
}

/// The tag number after `n`.
pub open spec fn tag_after(n: u32) -> u32 {
    if n == u32::MAX {
        0
    } else {
        (n + 1) as u32
    }
}

/// The steps an `AlternateAccess` holds at this depth. Each level holds exactly one selection.
pub open spec fn steps_of(t: TlvModel, depth: nat) -> Result<Seq<SelectorModel>, Error>
    decreases MAX_DEPTH - depth,
{
    let c = t.children();
    if depth >= MAX_DEPTH {
        Err(Error::LimitExceeded { limit: "alternate_access_depth", value: (depth + 1) as usize })
    } else {
        match c.first() {
            Err(e) => Err(e),
            Ok(first) => if c.rest().bytes.len() != 0 {
                bad(DecodeReason::BadValue, first.offset)
            } else if first.tag == ctx_cons(0) {
                let inner = first.children();
                match inner.first() {
                    Err(e) => Err(e),
                    Ok(selection) => match selector_of(
                        selection,
                        tag_after(selection.tag.number),
                    ) {
                        Err(e) => Err(e),
                        Ok(s) => match inner.rest().tagged(univ(16, true)) {
                            Err(e) => Err(e),
                            Ok(rest) => match inner.rest().rest().finish() {
                                Err(e) => Err(e),
                                Ok(_) => match steps_of(rest, depth + 1) {
                                    Err(e) => Err(e),
                                    Ok(more) => Ok(seq![s] + more),
                                },
                            },
                        },
                    },
                }
            } else {
                match selector_of(first, first.tag.number) {
                    Err(e) => Err(e),
                    Ok(s) => Ok(seq![s]),
                }
            },
        }
    }
}

/// The tag of a selector under number `n`.
pub open spec fn selector_tag(s: SelectorModel, n: u32) -> Tag {
    if s is IndexRange {
        ctx_cons(n)
    } else {
        ctx(n)
    }
}

/// The contents octets of a selector.
pub open spec fn selector_contents(s: SelectorModel) -> Seq<u8> {
    match s {
        SelectorModel::Component(name) => octets_of(name),
        SelectorModel::Index(i) => sint_octets(i as int),
        SelectorModel::IndexRange { low, count } => tlv(ctx(0), sint_octets(low as int)) + tlv(
            ctx(1),
            sint_octets(count as int),
        ),
        SelectorModel::AllElements => Seq::empty(),
    }
}

/// Why a selector has no encoding.
pub open spec fn selector_fault(s: SelectorModel) -> Option<Error> {
    match s {
        SelectorModel::Component(name) => text_fault(name),
        _ => None,
    }
}

/// The encoding of a chain of steps.
pub open spec fn steps_bytes(s: Seq<SelectorModel>) -> Seq<u8>
    decreases s.len(),
{
    if s.len() == 0 {
        Seq::empty()
    } else if s.len() == 1 {
        tlv(selector_tag(s[0], last_number(s[0])), selector_contents(s[0]))
    } else {
        tlv(
            ctx_cons(0),
            tlv(selector_tag(s[0], (last_number(s[0]) - 1) as u32), selector_contents(s[0])) + tlv(
                univ(16, true),
                steps_bytes(s.skip(1)),
            ),
        )
    }
}

/// The first fault of a chain of steps.
pub open spec fn steps_fault(s: Seq<SelectorModel>) -> Option<Error>
    decreases s.len(),
{
    if s.len() == 0 {
        None
    } else {
        first_fault(selector_fault(s[0]), steps_fault(s.skip(1)))
    }
}

/// The `alternateAccess [5]` of a path; an empty path has none.
pub open spec fn path_bytes(s: Seq<SelectorModel>) -> Seq<u8> {
    if s.len() == 0 {
        Seq::empty()
    } else {
        tlv(ctx_cons(5), steps_bytes(s))
    }
}

/// How one step is shown.
pub open spec fn selector_text(s: SelectorModel) -> Seq<char> {
    match s {
        SelectorModel::Component(name) => "."@ + name,
        SelectorModel::Index(i) => "("@ + decimal(i as nat) + ")"@,
        SelectorModel::IndexRange { low, count } => "("@ + decimal(low as nat) + ".."@ + decimal(
            low as nat + count as nat,
        ) + ")"@,
        SelectorModel::AllElements => "(*)"@,
    }
}

/// How the steps from `i` on are shown.
pub open spec fn steps_text(s: Seq<SelectorModel>, i: nat) -> Seq<char>
    decreases s.len() - i,
{
    if i < s.len() {
        selector_text(s[i as int]) + steps_text(s, i + 1)
    } else {
        Seq::empty()
    }
}

fn push_selector(out: &mut String, s: &Selector<'_>)
    ensures
        final(out)@ == old(out)@ + selector_text(s@),
{
    match s {
        Selector::Component(name) => {
            push_text(out, ".");
            push_text(out, name);
        },
        Selector::Index(i) => {
            push_text(out, "(");
            push_decimal(out, *i as u64);
            push_text(out, ")");
        },
        Selector::IndexRange { low, count } => {
            push_text(out, "(");
            push_decimal(out, *low as u64);
            push_text(out, "..");
            push_decimal(out, *low as u64 + *count as u64);
            push_text(out, ")");
        },
        Selector::AllElements => push_text(out, "(*)"),
    }
    assert(out@ =~= old(out)@ + selector_text(s@));
}

impl<'a> Path<'a> {
    /// A path from its steps.
    pub fn new(steps: Vec<Selector<'a>>) -> (r: Path<'a>)
        ensures
            r@ == views(steps@),
    {
        Path { steps }
    }

    /// The steps, outermost first.
    pub fn steps(&self) -> (r: &[Selector<'a>])
        ensures
            views(r@) == self@,
    {
        self.steps.as_slice()
    }

    /// Whether this names nothing, in which case the whole variable is meant.
    pub fn is_empty(&self) -> (r: bool)
        ensures
            r == (self@.len() == 0),
    {
        self.steps.len() == 0
    }

    /// A copy of this path.
    pub fn duplicate(&self) -> (r: Path<'a>)
        ensures
            r@ == self@,
    {
        let mut steps: Vec<Selector<'a>> = Vec::new();
        let mut i: usize = 0;
        while i < self.steps.len()
            invariant
                i <= self.steps.len(),
                steps@ == self.steps@.take(i as int),
            decreases self.steps.len() - i,
        {
            steps.push(self.steps[i]);
            i += 1;
            assert(steps@ =~= self.steps@.take(i as int));
        }
        assert(steps@ =~= self.steps@);
        Path { steps }
    }

    /// Decode an `alternateAccess [5]` element.
    pub fn parse(t: &Tlv<'a>) -> (r: Result<Path<'a>, Error>)
        ensures
            agrees(r, steps_of(t@, 0)),
    {
        let mut steps: Vec<Selector<'a>> = Vec::new();
        Path::parse_into(t, &mut steps, 0)?;
        assert(views(Seq::<Selector<'a>>::empty()) + steps_of(t@, 0)->Ok_0 =~= steps_of(
            t@,
            0,
        )->Ok_0);
        Ok(Path { steps })
    }

    fn parse_into(t: &Tlv<'a>, out: &mut Vec<Selector<'a>>, depth: usize) -> (r: Result<(), Error>)
        requires
            depth <= MAX_DEPTH,
        ensures
            match r {
                Ok(_) => steps_of(t@, depth as nat) matches Ok(s) && views(final(out)@) == views(
                    old(out)@,
                ) + s,
                Err(e) => steps_of(t@, depth as nat) == Err::<Seq<SelectorModel>, Error>(e),
            },
        decreases MAX_DEPTH - depth,
    {
        if depth >= MAX_DEPTH {
            return Err(
                Error::LimitExceeded { limit: "alternate_access_depth", value: depth + 1 },
            );
        }
        let mut c = t.children();
        let first = c.next_required()?;
        if !c.is_empty() {
            return Err(Error::decode(DecodeReason::BadValue, first.offset));
        }
        if first.tag == Tag::context_constructed(0) {
            let mut inner = first.children();
            let selection = inner.next_required()?;
            let s = Path::selector(&selection, selection.tag.number.wrapping_add(1))?;
            let rest = inner.next_tag(Tag::universal(UNIVERSAL_SEQUENCE, true))?;
            inner.finish()?;
            let ghost before = views(out@);
            out.push(s);
            assert(views(out@) =~= before.push(s@));
            Path::parse_into(&rest, out, depth + 1)?;
            proof {
                let more = steps_of(rest@, (depth + 1) as nat)->Ok_0;
                assert(before.push(s@) + more =~= before + (seq![s@] + more));
            }
            return Ok(());
        }
        let s = Path::selector(&first, first.tag.number)?;
        let ghost before = views(out@);
        out.push(s);
        assert(views(out@) =~= before + seq![s@]);
        Ok(())
    }

    fn selector(t: &Tlv<'a>, as_last: u32) -> (r: Result<Selector<'a>, Error>)
        ensures
            agrees(r, selector_of(t@, as_last)),
    {
        if t.tag.class != Class::Context {
            return Err(Error::decode(DecodeReason::UnexpectedTag, t.offset));
        }
        match as_last {
            1 => Ok(Selector::Component(t.visible_string()?)),
            2 => Ok(Selector::Index(t.unsigned_lenient_u32()?)),
            3 => {
                let mut c = t.children();
                let low: u32 = c.next_tag(Tag::context(0))?.unsigned_lenient_u32()?;
                let count: u32 = c.next_tag(Tag::context(1))?.unsigned_lenient_u32()?;
                Ok(Selector::IndexRange { low, count })
            },
            4 => Ok(Selector::AllElements),
            _ => Err(Error::decode(DecodeReason::UnexpectedTag, t.offset)),
        }
    }

    /// Encode this path as the `alternateAccess [5]` element of a variable list item.
    pub fn write(&self, e: &mut Encoder) -> (r: Result<(), Error>)
        ensures
            wrote(r, old(e)@, final(e)@, steps_fault(self@), path_bytes(self@)),
    {
        if self.steps.len() == 0 {
            assert(old(e)@ + path_bytes(self@) =~= old(e)@);
            return Ok(());
        }
        let mut body = Encoder::new();
        assert(self@.skip(0) =~= self@);
        Path::write_steps(&self.steps, 0, &mut body)?;
        assert(body@ =~= steps_bytes(self@));
        e.constructed(Tag::context_constructed(5), &body);
        Ok(())
    }

    fn write_steps(steps: &Vec<Selector<'a>>, at: usize, e: &mut Encoder) -> (r: Result<(), Error>)
        requires
            at < steps.len(),
        ensures
            wrote(
                r,
                old(e)@,
                final(e)@,
                steps_fault(views(steps@).skip(at as int)),
                steps_bytes(views(steps@).skip(at as int)),
            ),
        decreases steps.len() - at,
    {
        let ghost s = views(steps@).skip(at as int);
        reveal_with_fuel(steps_fault, 2);
        let first = &steps[at];
        assert(s[0] == first@);
        assert(s.skip(1) =~= views(steps@).skip(at + 1));
        if at + 1 == steps.len() {
            return Path::write_selector(first, last_tag(first), e);
        }
        let mut rest = Encoder::new();
        let mut body = Encoder::new();
        Path::write_selector(first, last_tag(first) - 1, &mut body)?;
        Path::write_steps(steps, at + 1, &mut rest)?;
        assert(rest@ =~= steps_bytes(s.skip(1)));
        body.constructed(Tag::universal(UNIVERSAL_SEQUENCE, true), &rest);
        assert(body@ =~= tlv(
            selector_tag(s[0], (last_number(s[0]) - 1) as u32),
            selector_contents(s[0]),
        ) + tlv(univ(16, true), steps_bytes(s.skip(1))));
        e.constructed(Tag::context_constructed(0), &body);
        Ok(())
    }

    fn write_selector(s: &Selector<'a>, tag: u32, e: &mut Encoder) -> (r: Result<(), Error>)
        ensures
            wrote(
                r,
                old(e)@,
                final(e)@,
                selector_fault(s@),
                tlv(selector_tag(s@, tag), selector_contents(s@)),
            ),
    {
        match s {
            Selector::Component(name) => e.visible_string(Tag::context(tag), name)?,
            Selector::Index(i) => e.unsigned(Tag::context(tag), *i as u64),
            Selector::IndexRange { low, count } => {
                let mut body = Encoder::new();
                body.unsigned(Tag::context(0), *low as u64);
                body.unsigned(Tag::context(1), *count as u64);
                assert(body@ =~= selector_contents(s@));
                e.constructed(Tag::context_constructed(tag), &body);
            },
            Selector::AllElements => e.null(Tag::context(tag)),
        }
        Ok(())
    }

    /// The path as it is written in a reference, such as `(2).cVal.mag.f`.
    pub fn to_text(&self) -> (r: String)
        ensures
            r@ == steps_text(self@, 0),
    {
        let mut out = String::new();
        let mut i: usize = 0;
        while i < self.steps.len()
            invariant
                i <= self.steps.len(),
                out@ + steps_text(self@, i as nat) == steps_text(self@, 0),
            decreases self.steps.len() - i,
        {
            let ghost before = out@;
            push_selector(&mut out, &self.steps[i]);
            proof {
                let rest = steps_text(self@, (i + 1) as nat);
                assert(out@ + rest =~= before + (selector_text(self@[i as int]) + rest));
            }
            i += 1;
        }
        assert(out@ + steps_text(self@, i as nat) =~= out@);
        out
    }
}

/// The `alternateAccess [5]` of a variable list item, if it has one.
pub fn next_alternate<'a>(c: &mut Cursor<'a>) -> (r: Result<Option<Path<'a>>, Error>)
    ensures
        match old(c)@.optional(ctx_cons(5)) {
            Err(e) => r == Err::<Option<Path<'a>>, Error>(e),
            Ok(None) => r matches Ok(None),
            Ok(Some(t)) => match r {
                Ok(None) => false,
                Ok(Some(p)) => steps_of(t, 0) == Ok::<Seq<SelectorModel>, Error>(p@),
                Err(e) => steps_of(t, 0) == Err::<Seq<SelectorModel>, Error>(e),
            },
        },
        final(c)@ == old(c)@.skip_optional(ctx_cons(5)),
{
    match c.next_if_tag(Tag::context_constructed(5))? {
        Some(t) => Ok(Some(Path::parse(&t)?)),
        None => Ok(None),
    }
}

proof fn lemma_selector_round_trip(s: SelectorModel, n: u32, offset: usize)
    requires
        selector_fault(s) is None,
        selector_contents(s).len() <= u64::MAX,
    ensures
        selector_of(
            laws::element_at(selector_tag(s, n), selector_contents(s), offset),
            last_number(s),
        ) == Ok::<SelectorModel, Error>(s),
{
    broadcast use laws::lemma_tlv_len;

    let t = laws::element_at(selector_tag(s, n), selector_contents(s), offset);
    match s {
        SelectorModel::Component(name) => laws::lemma_ascii_text(name),
        SelectorModel::Index(i) => laws::lemma_unsigned_field(ctx(n), i as u64, offset),
        SelectorModel::IndexRange { low, count } => {
            let at = t.value_offset;
            let l = sint_octets(low as int);
            let k = sint_octets(count as int);
            laws::lemma_first(ctx(0), l, tlv(ctx(1), k), at);
            laws::lemma_unsigned_field(ctx(0), low as u64, at);
            let next = laws::cursor_after(ctx(0), l, tlv(ctx(1), k), at);
            laws::lemma_only(ctx(1), k, next.offset);
            laws::lemma_unsigned_field(ctx(1), count as u64, next.offset);
        },
        SelectorModel::AllElements => {},
    }
}

/// A chain of at most [`MAX_DEPTH`] steps reads back as it was.
pub proof fn lemma_path_round_trip(s: Seq<SelectorModel>, tag: Tag, depth: nat, offset: usize)
    requires
        1 <= s.len() <= MAX_DEPTH - depth,
        steps_fault(s) is None,
        steps_bytes(s).len() <= u64::MAX,
    ensures
        steps_of(laws::element_at(tag, steps_bytes(s), offset), depth) == Ok::<
            Seq<SelectorModel>,
            Error,
        >(s),
    decreases s.len(),
{
    broadcast use laws::lemma_tlv_len;

    let t = laws::element_at(tag, steps_bytes(s), offset);
    let at = t.value_offset;
    let value = selector_contents(s[0]);
    if s.len() == 1 {
        let st = selector_tag(s[0], last_number(s[0]));
        laws::lemma_only(st, value, at);
        lemma_selector_round_trip(s[0], last_number(s[0]), at);
        assert(seq![s[0]] =~= s);
    } else {
        let st = selector_tag(s[0], (last_number(s[0]) - 1) as u32);
        let more = steps_bytes(s.skip(1));
        let rest = tlv(univ(16, true), more);
        let body = tlv(st, value) + rest;
        laws::lemma_only(ctx_cons(0), body, at);
        let first = laws::element_at(ctx_cons(0), body, at);
        laws::lemma_first(st, value, rest, first.value_offset);
        lemma_selector_round_trip(s[0], (last_number(s[0]) - 1) as u32, first.value_offset);
        let next = laws::cursor_after(st, value, rest, first.value_offset);
        laws::lemma_only(univ(16, true), more, next.offset);
        lemma_path_round_trip(s.skip(1), univ(16, true), depth + 1, next.offset);
        assert(seq![s[0]] + s.skip(1) =~= s);
    }
}

/// A chain of more steps than [`MAX_DEPTH`] leaves room for is refused for its depth.
pub proof fn lemma_path_refused(s: Seq<SelectorModel>, tag: Tag, depth: nat, offset: usize)
    requires
        depth <= MAX_DEPTH,
        s.len() > MAX_DEPTH - depth,
        steps_fault(s) is None,
        steps_bytes(s).len() <= u64::MAX,
    ensures
        steps_of(laws::element_at(tag, steps_bytes(s), offset), depth) == Err::<
            Seq<SelectorModel>,
            Error,
        >(
            Error::LimitExceeded {
                limit: "alternate_access_depth",
                value: (MAX_DEPTH + 1) as usize,
            },
        ),
    decreases MAX_DEPTH - depth,
{
    broadcast use laws::lemma_tlv_len;

    if depth < MAX_DEPTH {
        let at = laws::element_at(tag, steps_bytes(s), offset).value_offset;
        let value = selector_contents(s[0]);
        let st = selector_tag(s[0], (last_number(s[0]) - 1) as u32);
        let more = steps_bytes(s.skip(1));
        let rest = tlv(univ(16, true), more);
        let body = tlv(st, value) + rest;
        laws::lemma_only(ctx_cons(0), body, at);
        let first = laws::element_at(ctx_cons(0), body, at);
        laws::lemma_first(st, value, rest, first.value_offset);
        lemma_selector_round_trip(s[0], (last_number(s[0]) - 1) as u32, first.value_offset);
        let next = laws::cursor_after(st, value, rest, first.value_offset);
        laws::lemma_only(univ(16, true), more, next.offset);
        lemma_path_refused(s.skip(1), univ(16, true), depth + 1, next.offset);
    }
}

/// A chain that is written reads back as it was if it has at most [`MAX_DEPTH`] steps, and is
/// refused for its depth if it has more.
pub proof fn lemma_path_limit(s: Seq<SelectorModel>, tag: Tag, offset: usize)
    requires
        s.len() >= 1,
        steps_fault(s) is None,
        steps_bytes(s).len() <= u64::MAX,
    ensures
        steps_of(laws::element_at(tag, steps_bytes(s), offset), 0) == if s.len() <= MAX_DEPTH {
            Ok::<Seq<SelectorModel>, Error>(s)
        } else {
            Err(
                Error::LimitExceeded {
                    limit: "alternate_access_depth",
                    value: (MAX_DEPTH + 1) as usize,
                },
            )
        },
{
    if s.len() <= MAX_DEPTH {
        lemma_path_round_trip(s, tag, 0, offset);
    } else {
        lemma_path_refused(s, tag, 0, offset);
    }
}

/// No path that decodes is longer than [`MAX_DEPTH`], and none is empty.
pub proof fn lemma_path_bounded(t: TlvModel, depth: nat)
    requires
        depth <= MAX_DEPTH,
    ensures
        steps_of(t, depth) matches Ok(s) ==> 1 <= s.len() <= MAX_DEPTH - depth,
    decreases MAX_DEPTH - depth,
{
    if depth < MAX_DEPTH {
        let c = t.children();
        if let Ok(first) = c.first() {
            if let Ok(rest) = first.children().rest().tagged(univ(16, true)) {
                lemma_path_bounded(rest, depth + 1);
            }
        }
    }
}

/// A path that was decoded has an encoding.
pub proof fn lemma_path_decoded(t: TlvModel, depth: nat)
    requires
        depth <= MAX_DEPTH,
    ensures
        steps_of(t, depth) matches Ok(s) ==> steps_fault(s) is None,
    decreases MAX_DEPTH - depth,
{
    if depth < MAX_DEPTH {
        let c = t.children();
        if let Ok(first) = c.first() {
            laws::lemma_visible_decoded(first);
            let inner = first.children();
            if let Ok(selection) = inner.first() {
                laws::lemma_visible_decoded(selection);
            }
            if let Ok(rest) = inner.rest().tagged(univ(16, true)) {
                lemma_path_decoded(rest, depth + 1);
            }
            if let Ok(s) = steps_of(t, depth) {
                reveal_with_fuel(steps_fault, 2);
                if first.tag == ctx_cons(0) {
                    let more = steps_of(inner.rest().tagged(univ(16, true))->Ok_0, depth + 1)->Ok_0;
                    assert(s.skip(1) =~= more);
                }
            }
        }
    }
}

} // verus!
