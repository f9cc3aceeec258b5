//! MMS journals, which are the logs of IEC 61850.
//!
//! `QueryLogByTime`, `QueryLogAfterEntry` and the log's own entries map onto the single
//! `ReadJournal` service.

use vstd::prelude::*;
use vstd::slice::*;
use vstd::utf8::*;
use crate::ber::laws;
use crate::ber::list::{
    lemma_list_decoded, lemma_list_round_trip, lemma_same_octets, list_bytes, list_fault, list_fits,
    listed, read_list, same_list, views, write_list, Element,
};
use crate::ber::{
    bad, be_fixed, be_nat, be_u64, ctx, ctx_cons, octets_of, opt_view, text_fault, tlv, univ,
    Encoder, Tag, Tlv, TlvModel, UNIVERSAL_SEQUENCE,
};
use crate::common::{
    agrees, entry_octets, entry_time_from, entry_time_of, lemma_entry_time_round_trip, DecodeReason,
    EntryTime, Error, Limits,
};
use crate::proto::data::{data_of, DataModel, DataView};
use crate::proto::mms::names::same_element;
use crate::proto::mms::variables::{bound_members, members_bound};

verus! {

/// An MMS `TimeOfDay`: four octets of milliseconds since midnight, or six that add the day.
///
/// The width is kept, so that a decoded entry encodes as it arrived.
#[derive(Clone, Copy, Debug, Default, PartialEq, Eq, PartialOrd, Ord, Hash, Structural)]
pub struct TimeOfDay {
    /// The time itself. A four-octet value has no days.
    pub time: EntryTime,
    /// True when the wire form carried the day count.
    pub dated: bool,
}

impl View for TimeOfDay {
    type V = TimeOfDay;

    open spec fn view(&self) -> TimeOfDay {
        *self
    }
}

/// The time that contents octets carry.
pub open spec fn time_of(b: Seq<u8>) -> Result<TimeOfDay, Error> {
    if b.len() == 4 {
        Ok(
            TimeOfDay {
                time: EntryTime { millis_of_day: be_nat(b) as u32, days_since_1984: 0 },
                dated: false,
            },
        )
    } else if b.len() == 6 {
        Ok(TimeOfDay { time: entry_time_from(b), dated: true })
    } else {
        bad(DecodeReason::BadValue, 0)
    }
}

/// The wire octets of a time: four when undated, six when dated.
pub open spec fn time_octets(t: TimeOfDay) -> Seq<u8> {
    if t.dated {
        entry_octets(t.time)
    } else {
        be_fixed(t.time.millis_of_day as nat, 4)
    }
}

/// Whether a time is one the wire can carry: an undated one has no days.
pub open spec fn time_fits(t: TimeOfDay) -> bool {
    t.dated || t.time.days_since_1984 == 0
}

/// A time keeps the width it arrived in.
pub proof fn lemma_time_round_trip(t: TimeOfDay)
    requires
        time_fits(t),
    ensures
        time_of(time_octets(t)) == Ok::<TimeOfDay, Error>(t),
{
    if t.dated {
        lemma_entry_time_round_trip(t.time);
    } else {
        laws::lemma_be_fixed(t.time.millis_of_day as nat, 4);
        laws::lemma_pow256();
    }
}

impl TimeOfDay {
    /// A dated (six-octet) time.
    pub fn dated(time: EntryTime) -> (r: TimeOfDay)
        ensures
            r == (TimeOfDay { time, dated: true }),
    {
        TimeOfDay { time, dated: true }
    }

    /// From Unix milliseconds, as the six-octet form.
    pub fn from_unix_millis(millis: u64) -> (r: TimeOfDay)
        ensures
            r == (TimeOfDay { time: entry_time_of(millis), dated: true }),
    {
        TimeOfDay::dated(EntryTime::from_unix_millis(millis))
    }

    /// Decode from the contents octets of a `TimeOfDay`.
    pub fn from_octets(bytes: &[u8]) -> (r: Result<TimeOfDay, Error>)
        ensures
            agrees(r, time_of(bytes@)),
    {
        if bytes.len() == 4 {
            proof {
                laws::lemma_be_nat_bound(bytes@);
                laws::lemma_pow256();
            }
            let millis_of_day: u32 = be_u64(bytes) as u32;
            return Ok(
                TimeOfDay { time: EntryTime { millis_of_day, days_since_1984: 0 }, dated: false },
            );
        }
        match EntryTime::from_octets(bytes) {
            Some(time) => Ok(TimeOfDay::dated(time)),
            None => Err(Error::decode(DecodeReason::BadValue, 0)),
        }
    }

    /// The wire octets: four when undated, six when dated.
    pub fn to_octets(self) -> (r: Vec<u8>)
        ensures
            r@ == time_octets(self),
    {
        let six = self.time.to_octets();
        if self.dated {
            six
        } else {
            proof {
                laws::lemma_be_fixed(self.time.millis_of_day as nat, 4);
                lemma_entry_time_round_trip(self.time);
            }
            let r = slice_to_vec(slice_subrange(&six, 0, 4));
            assert(r@ =~= time_octets(self));
            r
        }
    }
}

/// Where a `ReadJournal` should start.
#[derive(Clone, Copy, Debug, PartialEq, Eq)]
pub enum RangeStart<'a> {
    /// `startingTime [0]`: every entry from this moment on.
    Time(TimeOfDay),
    /// `startingEntry [1]`: every entry from this `EntryID` on.
    Entry(&'a [u8]),
}

/// What a [`RangeStart`] stands for.
pub enum RangeStartModel {
    Time(TimeOfDay),
    Entry(Seq<u8>),
}

impl<'a> View for RangeStart<'a> {
    type V = RangeStartModel;

    open spec fn view(&self) -> RangeStartModel {
        match *self {
            RangeStart::Time(t) => RangeStartModel::Time(t),
            RangeStart::Entry(b) => RangeStartModel::Entry(b@),
        }
    }
}

/// Where a `ReadJournal` should stop.
#[derive(Clone, Copy, Debug, PartialEq, Eq, Structural)]
pub enum RangeStop {
    /// `endingTime [0]`.
    Time(TimeOfDay),
    /// `numberOfEntries [1]`.
    Count(i32),
}

impl View for RangeStop {
    type V = RangeStop;

    open spec fn view(&self) -> RangeStop {
        *self
    }
}

/// The entry a `QueryLogAfterEntry` resumes after: an `EntryID` and the time it was made.
#[derive(Clone, Copy, Debug, PartialEq, Eq)]
pub struct AfterEntry<'a> {
    /// `timeSpecification`.
    pub time: TimeOfDay,
    /// `entrySpecification`: the `EntryID`.
    pub entry_id: &'a [u8],
}

/// What an [`AfterEntry`] stands for.
pub struct AfterEntryModel {
    pub time: TimeOfDay,
    pub entry_id: Seq<u8>,
}

impl<'a> View for AfterEntry<'a> {
    type V = AfterEntryModel;

    open spec fn view(&self) -> AfterEntryModel {
        AfterEntryModel { time: self.time, entry_id: self.entry_id@ }
    }
}

// ---- entries ---------------------------------------------------------------------------

/// One value inside a journal entry: the reference of a data attribute and what it was.
#[derive(Clone, Copy, Debug, PartialEq)]
pub struct JournalVariable<'a> {
    /// `variableTag`: the data attribute's reference.
    pub tag: &'a str,
    /// `valueSpecification`, as its encoded element.
    pub value: Tlv<'a>,
}

/// What a [`JournalVariable`] stands for.
pub struct JournalVariableModel {
    pub tag: Seq<char>,
    pub value: TlvModel,
}

impl<'a> View for JournalVariable<'a> {
    type V = JournalVariableModel;

    open spec fn view(&self) -> JournalVariableModel {
        JournalVariableModel { tag: self.tag@, value: self.value@ }
    }
}

impl<'a> JournalVariable<'a> {
    /// The value, decoded.
    pub fn value(&self) -> (r: Option<DataView<'a>>)
        ensures
            match r {
                Some(d) => data_of(self@.value) == Ok::<DataModel, Error>(d@),
                None => data_of(self@.value) is Err,
            },
    {
        match DataView::from_tlv(self.value) {
            Ok(d) => Some(d),
            Err(_) => None,
        }
    }
}

impl<'a> Element<'a> for JournalVariable<'a> {
    open spec fn read(t: TlvModel, limits: Limits) -> Result<JournalVariableModel, Error> {
        match t.expect(univ(16, true)) {
            Err(e) => Err(e),
            Ok(t) => {
                let m = t.children();
                match m.visible(ctx(0)) {
                    Err(e) => Err(e),
                    Ok(tag) => match m.rest().wrapped(ctx_cons(1)) {
                        Err(e) => Err(e),
                        Ok(value) => match data_of(value) {
                            Err(e) => Err(e),
                            Ok(_) => Ok(JournalVariableModel { tag, value }),
                        },
                    },
                }
            },
        }
    }

    open spec fn fault(m: JournalVariableModel) -> Option<Error> {
        text_fault(m.tag)
    }

    open spec fn tag_of(m: JournalVariableModel) -> Tag {
        univ(16, true)
    }

    open spec fn contents_of(m: JournalVariableModel) -> Seq<u8> {
        tlv(ctx(0), octets_of(m.tag)) + tlv(ctx_cons(1), tlv(m.value.tag, m.value.value))
    }

    open spec fn fits(m: JournalVariableModel, limits: Limits) -> bool {
        data_of(m.value) is Ok
    }

    open spec fn same(a: JournalVariableModel, b: JournalVariableModel) -> bool {
        a.tag == b.tag && same_element(a.value, b.value)
    }

    fn read_element(t: &Tlv<'a>, limits: &Limits) -> (r: Result<Self, Error>) {
        let t = (*t).expect(Tag::universal(UNIVERSAL_SEQUENCE, true))?;
        let mut m = t.children();
        let tag = m.next_tag(Tag::context(0))?.visible_string()?;
        let value = m.next_tag(Tag::context_constructed(1))?.children().next_required()?;
        DataView::from_tlv(value)?;
        Ok(JournalVariable { tag, value })
    }

    fn write_element(&self, e: &mut Encoder) -> (r: Result<(), Error>) {
        let mut value = Encoder::new();
        value.primitive(self.value.tag, self.value.value);
        assert(value@ =~= tlv(self.value.tag, self.value.value@));
        let mut body = Encoder::new();
        body.visible_string(Tag::context(0), self.tag)?;
        body.constructed(Tag::context_constructed(1), &value);
        assert(body@ =~= Self::contents_of(self@));
        e.constructed(Tag::universal(UNIVERSAL_SEQUENCE, true), &body);
        Ok(())
    }

    proof fn round_trip(m: JournalVariableModel, limits: Limits, offset: usize) {
        broadcast use laws::lemma_tlv_len;

        let c = laws::element_at(univ(16, true), Self::contents_of(m), offset).children();
        let rest = tlv(ctx_cons(1), tlv(m.value.tag, m.value.value));
        laws::lemma_visible(ctx(0), m.tag, rest, c.offset);
        assert(rest + Seq::empty() =~= rest);
        laws::lemma_wrapped(
            ctx_cons(1),
            m.value.tag,
            m.value.value,
            Seq::empty(),
            c.rest().offset,
        );
    }

    proof fn decoded(t: TlvModel, limits: Limits) {
        laws::lemma_required_decoded(t.children(), ctx(0));
    }

    proof fn same_octets(a: JournalVariableModel, b: JournalVariableModel) {
    }
}

/// One entry of a log.
#[derive(Clone, Debug, PartialEq)]
pub struct JournalEntry<'a> {
    /// `entryIdentifier`: the `EntryID` a client resumes after.
    pub entry_id: &'a [u8],
    /// `occurenceTime`: when the entry was made.
    pub occurred: TimeOfDay,
    /// The values the entry recorded. Empty for an annotation-only entry.
    pub variables: Vec<JournalVariable<'a>>,
    /// `annotation`, for the entries that carry text instead of values.
    pub annotation: Option<&'a str>,
    /// `originatingApplication`, kept encoded so that the entry encodes as it arrived.
    pub origin: Option<Tlv<'a>>,
}

/// What a [`JournalEntry`] stands for.
pub struct JournalEntryModel {
    pub entry_id: Seq<u8>,
    pub occurred: TimeOfDay,
    pub variables: Seq<JournalVariableModel>,
    pub annotation: Option<Seq<char>>,
    pub origin: Option<TlvModel>,
}

impl<'a> View for JournalEntry<'a> {
    type V = JournalEntryModel;

    open spec fn view(&self) -> JournalEntryModel {
        JournalEntryModel {
            entry_id: self.entry_id@,
            occurred: self.occurred,
            variables: views(self.variables@),
            annotation: opt_view(self.annotation),
            origin: opt_view(self.origin),
        }
    }
}

/// What the contents of an entry say: the values, or an annotation.
pub open spec fn form_of(form: TlvModel, limits: Limits) -> Result<
    (Seq<JournalVariableModel>, Option<Seq<char>>),
    Error,
> {
    if form.tag == ctx_cons(2) {
        let f = form.children();
        match f.optional(ctx_cons(0)) {
            Err(e) => Err(e),
            Ok(_) => match f.skip_optional(ctx_cons(0)).optional(ctx_cons(1)) {
                Err(e) => Err(e),
                Ok(None) => Ok((Seq::empty(), None)),
                Ok(Some(list)) => match listed::<JournalVariable<'static>>(
                    list.children(),
                    limits,
                    members_bound(limits),
                    Seq::empty(),
                ) {
                    Err(e) => Err(e),
                    Ok(v) => Ok((v, None)),
                },
            },
        }
    } else if form.tag == ctx(3) {
        match form.visible() {
            Err(e) => Err(e),
            Ok(a) => Ok((Seq::empty(), Some(a))),
        }
    } else {
        bad(DecodeReason::UnexpectedTag, form.offset)
    }
}

/// The entry that a `JournalEntry` element holds.
pub open spec fn entry_of(t: TlvModel, limits: Limits) -> Result<JournalEntryModel, Error> {
    match t.expect(univ(16, true)) {
        Err(e) => Err(e),
        Ok(t) => {
            let c = t.children();
            match c.tagged(ctx(0)) {
                Err(e) => Err(e),
                Ok(id) => if id.value.len() > limits.max_primitive_len {
                    Err(
                        Error::LimitExceeded {
                            limit: "max_primitive_len",
                            value: id.value.len() as usize,
                        },
                    )
                } else {
                    let c1 = c.rest();
                    match c1.optional(ctx_cons(1)) {
                        Err(e) => Err(e),
                        Ok(origin) => match c1.skip_optional(ctx_cons(1)).tagged(ctx_cons(2)) {
                            Err(e) => Err(e),
                            Ok(content) => {
                                let cc = content.children();
                                match cc.tagged(ctx(0)) {
                                    Err(e) => Err(e),
                                    Ok(when) => match time_of(when.value) {
                                        Err(e) => Err(e),
                                        Ok(occurred) => match cc.rest().optional(ctx_cons(1)) {
                                            Err(e) => Err(e),
                                            Ok(_) => match cc.rest().skip_optional(
                                                ctx_cons(1),
                                            ).first() {
                                                Err(e) => Err(e),
                                                Ok(form) => match form_of(form, limits) {
                                                    Err(e) => Err(e),
                                                    Ok((variables, annotation)) => Ok(
                                                        JournalEntryModel {
                                                            entry_id: id.value,
                                                            occurred,
                                                            variables,
                                                            annotation,
                                                            origin,
                                                        },
                                                    ),
                                                },
                                            },
                                        },
                                    },
                                }
                            },
                        },
                    }
                },
            }
        },
    }
}

/// The form of an entry: an annotation where there is one, else the values.
pub open spec fn form_bytes(m: JournalEntryModel) -> Seq<u8> {
    match m.annotation {
        Some(a) => tlv(ctx(3), octets_of(a)),
        None => tlv(
            ctx_cons(2),
            tlv(ctx_cons(1), list_bytes::<JournalVariable<'static>>(m.variables)),
        ),
    }
}

/// The element an entry kept for its originator.
pub open spec fn origin_bytes(o: Option<TlvModel>) -> Seq<u8> {
    match o {
        Some(t) => tlv(t.tag, t.value),
        None => Seq::empty(),
    }
}

impl<'a> JournalEntry<'a> {
    /// An entry recording values.
    pub fn new(entry_id: &'a [u8], occurred: TimeOfDay, variables: Vec<JournalVariable<'a>>) -> (r:
        JournalEntry<'a>)
        ensures
            r@ == (JournalEntryModel {
                entry_id: entry_id@,
                occurred,
                variables: views(variables@),
                annotation: None,
                origin: None,
            }),
    {
        JournalEntry { entry_id, occurred, variables, annotation: None, origin: None }
    }

    /// An entry recording text instead of values.
    pub fn annotated(entry_id: &'a [u8], occurred: TimeOfDay, annotation: &'a str) -> (r:
        JournalEntry<'a>)
        ensures
            r@ == (JournalEntryModel {
                entry_id: entry_id@,
                occurred,
                variables: Seq::empty(),
                annotation: Some(annotation@),
                origin: None,
            }),
    {
        let r = JournalEntry {
            entry_id,
            occurred,
            variables: Vec::new(),
            annotation: Some(annotation),
            origin: None,
        };
        assert(r@.variables =~= Seq::<JournalVariableModel>::empty());
        r
    }
}

fn parse_form<'a>(form: &Tlv<'a>, limits: &Limits) -> (r: Result<
    (Vec<JournalVariable<'a>>, Option<&'a str>),
    Error,
>)
    ensures
        match r {
            Ok((v, a)) => form_of(form@, *limits) == Ok::<
                (Seq<JournalVariableModel>, Option<Seq<char>>),
                Error,
            >((views(v@), opt_view(a))),
            Err(e) => form_of(form@, *limits) == Err::<
                (Seq<JournalVariableModel>, Option<Seq<char>>),
                Error,
            >(e),
        },
{
    let none: Vec<JournalVariable<'a>> = Vec::new();
    assert(views(none@) =~= Seq::<JournalVariableModel>::empty());
    if form.tag == Tag::context_constructed(2) {
        let mut f = form.children();
        f.next_if_tag(Tag::context_constructed(0))?;
        match f.next_if_tag(Tag::context_constructed(1))? {
            Some(list) => {
                let v = read_list::<JournalVariable<'a>>(
                    list.children(),
                    limits,
                    bound_members(limits),
                )?;
                Ok((v, None))
            },
            None => Ok((none, None)),
        }
    } else if form.tag == Tag::context(3) {
        Ok((none, Some(form.visible_string()?)))
    } else {
        Err(Error::decode(DecodeReason::UnexpectedTag, form.offset))
    }
}

proof fn lemma_form_decoded(form: TlvModel, limits: Limits)
    ensures
        form_of(form, limits) matches Ok((v, a)) ==> {
            &&& list_fault::<JournalVariable<'static>>(v) is None
            &&& list_fits::<JournalVariable<'static>>(v, limits, members_bound(limits))
            &&& a matches Some(a) ==> text_fault(a) is None && v.len() == 0
        },
{
    laws::lemma_visible_decoded(form);
    let f = form.children();
    if let Ok(Some(list)) = f.skip_optional(ctx_cons(0)).optional(ctx_cons(1)) {
        lemma_list_decoded::<JournalVariable<'static>>(
            list.children(),
            limits,
            members_bound(limits),
        );
    }
}

impl<'a> Element<'a> for JournalEntry<'a> {
    open spec fn read(t: TlvModel, limits: Limits) -> Result<JournalEntryModel, Error> {
        entry_of(t, limits)
    }

    open spec fn fault(m: JournalEntryModel) -> Option<Error> {
        match m.annotation {
            Some(a) => text_fault(a),
            None => list_fault::<JournalVariable<'static>>(m.variables),
        }
    }

    open spec fn tag_of(m: JournalEntryModel) -> Tag {
        univ(16, true)
    }

    open spec fn contents_of(m: JournalEntryModel) -> Seq<u8> {
        tlv(ctx(0), m.entry_id) + (origin_bytes(m.origin) + tlv(
            ctx_cons(2),
            tlv(ctx(0), time_octets(m.occurred)) + form_bytes(m),
        ))
    }

    open spec fn fits(m: JournalEntryModel, limits: Limits) -> bool {
        &&& m.entry_id.len() <= limits.max_primitive_len
        &&& time_fits(m.occurred)
        &&& m.annotation is Some ==> m.variables.len() == 0
        &&& m.origin matches Some(o) ==> o.tag == ctx_cons(1)
        &&& list_fits::<JournalVariable<'static>>(m.variables, limits, members_bound(limits))
    }

    open spec fn same(a: JournalEntryModel, b: JournalEntryModel) -> bool {
        &&& a.entry_id == b.entry_id
        &&& a.occurred == b.occurred
        &&& same_list::<JournalVariable<'static>>(a.variables, b.variables)
        &&& a.annotation == b.annotation
        &&& match (a.origin, b.origin) {
            (Some(x), Some(y)) => same_element(x, y),
            (None, None) => true,
            _ => false,
        }
    }

    fn read_element(t: &Tlv<'a>, limits: &Limits) -> (r: Result<Self, Error>) {
        let t = (*t).expect(Tag::universal(UNIVERSAL_SEQUENCE, true))?;
        let mut c = t.children();
        let entry_id = c.next_tag(Tag::context(0))?.value;
        if entry_id.len() > limits.max_primitive_len {
            return Err(Error::LimitExceeded { limit: "max_primitive_len", value: entry_id.len() });
        }
        let origin = c.next_if_tag(Tag::context_constructed(1))?;
        let content = c.next_tag(Tag::context_constructed(2))?;
        let mut cc = content.children();
        let occurred = TimeOfDay::from_octets(cc.next_tag(Tag::context(0))?.value)?;
        cc.next_if_tag(Tag::context_constructed(1))?;
        let form = cc.next_required()?;
        let (variables, annotation) = parse_form(&form, limits)?;
        Ok(JournalEntry { entry_id, occurred, variables, annotation, origin })
    }

    fn write_element(&self, e: &mut Encoder) -> (r: Result<(), Error>) {
        let mut content = Encoder::new();
        content.primitive(Tag::context(0), &self.occurred.to_octets());
        match self.annotation {
            Some(a) => content.visible_string(Tag::context(3), a)?,
            None => {
                let list = write_list(self.variables.as_slice())?;
                let mut data = Encoder::new();
                data.constructed(Tag::context_constructed(1), &list);
                assert(data@ =~= tlv(ctx_cons(1), list@));
                content.constructed(Tag::context_constructed(2), &data);
            },
        }
        assert(content@ =~= tlv(ctx(0), time_octets(self.occurred)) + form_bytes(self@));
        let mut body = Encoder::new();
        body.primitive(Tag::context(0), self.entry_id);
        if let Some(o) = self.origin {
            body.primitive(o.tag, o.value);
        }
        body.constructed(Tag::context_constructed(2), &content);
        assert(body@ =~= Self::contents_of(self@));
        e.constructed(Tag::universal(UNIVERSAL_SEQUENCE, true), &body);
        Ok(())
    }

    proof fn round_trip(m: JournalEntryModel, limits: Limits, offset: usize) {
        broadcast use laws::lemma_tlv_len;

        let c = laws::element_at(univ(16, true), Self::contents_of(m), offset).children();
        let time = time_octets(m.occurred);
        let inner = tlv(ctx(0), time) + form_bytes(m);
        let content = tlv(ctx_cons(2), inner);
        let rest = origin_bytes(m.origin) + content;
        laws::lemma_first(ctx(0), m.entry_id, rest, c.offset);
        let c1 = c.rest();
        assert(content + Seq::empty() =~= content);
        laws::lemma_lacks(ctx_cons(2), inner, Seq::empty(), ctx_cons(1));
        match m.origin {
            Some(o) => laws::lemma_present(o.tag, o.value, content, c1.offset),
            None => {
                assert(rest =~= content);
                laws::lemma_absent(content, ctx_cons(1), c1.offset);
            },
        }
        let c2 = c1.skip_optional(ctx_cons(1));
        assert(c2.bytes == content);
        laws::lemma_only(ctx_cons(2), inner, c2.offset);
        let cc = laws::element_at(ctx_cons(2), inner, c2.offset).children();
        laws::lemma_first(ctx(0), time, form_bytes(m), cc.offset);
        lemma_time_round_trip(m.occurred);
        let cc1 = cc.rest();
        match m.annotation {
            Some(a) => {
                laws::lemma_ascii_text(a);
                laws::lemma_only(ctx(3), octets_of(a), cc1.offset);
                assert(m.variables =~= Seq::<JournalVariableModel>::empty());
            },
            None => {
                let list = list_bytes::<JournalVariable<'static>>(m.variables);
                let data = tlv(ctx_cons(1), list);
                laws::lemma_only(ctx_cons(2), data, cc1.offset);
                let f = laws::element_at(ctx_cons(2), data, cc1.offset).children();
                laws::lemma_only(ctx_cons(1), list, f.offset);
                let at = laws::element_at(ctx_cons(1), list, f.offset).value_offset;
                lemma_list_round_trip::<JournalVariable<'static>>(
                    m.variables,
                    limits,
                    members_bound(limits),
                    at,
                );
            },
        }
    }

    proof fn decoded(t: TlvModel, limits: Limits) {
        let c = t.children();
        if let Ok(content) = c.rest().skip_optional(ctx_cons(1)).tagged(ctx_cons(2)) {
            let cc = content.children();
            if let Ok(form) = cc.rest().skip_optional(ctx_cons(1)).first() {
                lemma_form_decoded(form, limits);
            }
        }
    }

    proof fn same_octets(a: JournalEntryModel, b: JournalEntryModel) {
        lemma_same_octets::<JournalVariable<'static>>(a.variables, b.variables);
    }
}

} // verus!
