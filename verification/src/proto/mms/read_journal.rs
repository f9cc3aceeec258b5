//! The `ReadJournal` request.

use vstd::prelude::*;
use vstd::utf8::*;
use crate::ber::laws;
use crate::ber::list::{
    agrees_list, lemma_faultless, list_bytes, list_fault, list_fault_from, list_from, views,
    write_list,
};
use crate::ber::{
    bad, ctx, ctx_cons, first_fault, octets_of, opt_view, sint_octets, text_fault, tlv, wrote,
    Cursor, CursorModel, Encoder, Tag, Tlv, TlvModel,
};
use crate::common::{agrees, agrees_opt, sat_add, DecodeReason, Error, Limits};
use crate::proto::mms::journal::{
    lemma_time_round_trip, time_fits, time_octets, time_of, AfterEntry, AfterEntryModel, RangeStart,
    RangeStartModel, RangeStop, TimeOfDay,
};
use crate::proto::mms::names::{
    identifier_tag, lemma_name_decoded, lemma_name_round_trip, name_bytes, name_contents,
    name_fault, name_of, name_tag, ObjectName, ObjectNameModel,
};

verus! {

/// The service number of `readJournal`.
pub const SERVICE_READ_JOURNAL: u32 = 65;

/// A `ReadJournal` request: `QueryLogByTime` sets `start` and `stop`, `QueryLogAfterEntry` sets
/// `after`, and a request that sets neither reads the whole log.
#[derive(Debug, PartialEq)]
pub struct ReadJournal<'a> {
    /// The journal: the logical device and the log name.
    pub name: Option<ObjectName<'a>>,
    /// Where to start.
    pub start: Option<RangeStart<'a>>,
    /// Where to stop.
    pub stop: Option<RangeStop>,
    /// Restrict the answer to these variable tags. Empty means all of them.
    pub variables: Vec<&'a str>,
    /// Resume after this entry.
    pub after: Option<AfterEntry<'a>>,
}

/// What a [`ReadJournal`] stands for.
pub struct ReadJournalModel {
    pub name: Option<ObjectNameModel>,
    pub start: Option<RangeStartModel>,
    pub stop: Option<RangeStop>,
    pub variables: Seq<Seq<char>>,
    pub after: Option<AfterEntryModel>,
}

impl<'a> View for ReadJournal<'a> {
    type V = ReadJournalModel;

    open spec fn view(&self) -> ReadJournalModel {
        ReadJournalModel {
            name: opt_view(self.name),
            start: opt_view(self.start),
            stop: self.stop,
            variables: views(self.variables@),
            after: opt_view(self.after),
        }
    }
}

/// The request for the whole of no log in particular.
pub open spec fn empty_request() -> ReadJournalModel {
    ReadJournalModel {
        name: None,
        start: None,
        stop: None,
        variables: Seq::empty(),
        after: None,
    }
}

impl<'a> Default for ReadJournal<'a> {
    fn default() -> (r: ReadJournal<'a>)
        ensures
            r@ == empty_request(),
    {
        let r = ReadJournal {
            name: None,
            start: None,
            stop: None,
            variables: Vec::new(),
            after: None,
        };
        assert(r@.variables =~= Seq::<Seq<char>>::empty());
        r
    }
}

// ---- decoding --------------------------------------------------------------------------

/// The journal's name, if it is there.
pub open spec fn journal_name(c: CursorModel) -> Result<Option<ObjectNameModel>, Error> {
    match c.optional(ctx_cons(0)) {
        Err(e) => Err(e),
        Ok(None) => Ok(None),
        Ok(Some(n)) => match n.children().first() {
            Err(e) => Err(e),
            Ok(n) => match name_of(n) {
                Err(e) => Err(e),
                Ok(name) => Ok(Some(name)),
            },
        },
    }
}

/// Where to start, if that is there.
pub open spec fn range_start(c: CursorModel) -> Result<Option<RangeStartModel>, Error> {
    match c.optional(ctx_cons(1)) {
        Err(e) => Err(e),
        Ok(None) => Ok(None),
        Ok(Some(r)) => match r.children().first() {
            Err(e) => Err(e),
            Ok(inner) => if inner.tag.number == 0 {
                match time_of(inner.value) {
                    Err(e) => Err(e),
                    Ok(t) => Ok(Some(RangeStartModel::Time(t))),
                }
            } else if inner.tag.number == 1 {
                Ok(Some(RangeStartModel::Entry(inner.value)))
            } else {
                bad(DecodeReason::UnexpectedTag, inner.offset)
            },
        },
    }
}

/// Where to stop, if that is there.
pub open spec fn range_stop(c: CursorModel) -> Result<Option<RangeStop>, Error> {
    match c.optional(ctx_cons(2)) {
        Err(e) => Err(e),
        Ok(None) => Ok(None),
        Ok(Some(r)) => match r.children().first() {
            Err(e) => Err(e),
            Ok(inner) => if inner.tag.number == 0 {
                match time_of(inner.value) {
                    Err(e) => Err(e),
                    Ok(t) => Ok(Some(RangeStop::Time(t))),
                }
            } else if inner.tag.number == 1 {
                match inner.integer32() {
                    Err(e) => Err(e),
                    Ok(n) => Ok(Some(RangeStop::Count(n))),
                }
            } else {
                bad(DecodeReason::UnexpectedTag, inner.offset)
            },
        },
    }
}

/// The texts a cursor still holds, after `acc`, whatever their tags. Their number is checked
/// before each is decoded.
pub open spec fn texts_of(c: CursorModel, limits: Limits, acc: Seq<Seq<char>>) -> Result<
    Seq<Seq<char>>,
    Error,
>
    decreases c.bytes.len(),
    via texts_shrink
{
    if c.bytes.len() == 0 {
        Ok(acc)
    } else if acc.len() >= limits.max_dataset_members {
        Err(Error::LimitExceeded { limit: "max_dataset_members", value: sat_add(1, acc.len()) })
    } else {
        match c.first() {
            Err(e) => Err(e),
            Ok(t) => match t.visible() {
                Err(e) => Err(e),
                Ok(s) => texts_of(c.rest(), limits, acc.push(s)),
            },
        }
    }
}

#[via_fn]
proof fn texts_shrink(c: CursorModel, limits: Limits, acc: Seq<Seq<char>>) {
    laws::lemma_progress(c);
}

/// The variable tags asked for; none means all.
pub open spec fn variable_tags(c: CursorModel, limits: Limits) -> Result<Seq<Seq<char>>, Error> {
    match c.optional(ctx_cons(4)) {
        Err(e) => Err(e),
        Ok(None) => Ok(Seq::empty()),
        Ok(Some(list)) => texts_of(list.children(), limits, Seq::empty()),
    }
}

/// The entry to resume after, if it is there.
pub open spec fn resume_point(c: CursorModel) -> Result<Option<AfterEntryModel>, Error> {
    match c.optional(ctx_cons(5)) {
        Err(e) => Err(e),
        Ok(None) => Ok(None),
        Ok(Some(a)) => {
            let m = a.children();
            match m.tagged(ctx(0)) {
                Err(e) => Err(e),
                Ok(t) => match time_of(t.value) {
                    Err(e) => Err(e),
                    Ok(time) => match m.rest().tagged(ctx(1)) {
                        Err(e) => Err(e),
                        Ok(id) => Ok(Some(AfterEntryModel { time, entry_id: id.value })),
                    },
                },
            }
        },
    }
}

/// The request an element holds.
pub open spec fn read_journal_of(t: TlvModel, limits: Limits) -> Result<ReadJournalModel, Error> {
    let c0 = t.children();
    let c1 = c0.skip_optional(ctx_cons(0));
    let c2 = c1.skip_optional(ctx_cons(1));
    let c3 = c2.skip_optional(ctx_cons(2));
    let c4 = c3.skip_optional(ctx_cons(4));
    match journal_name(c0) {
        Err(e) => Err(e),
        Ok(name) => match range_start(c1) {
            Err(e) => Err(e),
            Ok(start) => match range_stop(c2) {
                Err(e) => Err(e),
                Ok(stop) => match variable_tags(c3, limits) {
                    Err(e) => Err(e),
                    Ok(variables) => match resume_point(c4) {
                        Err(e) => Err(e),
                        Ok(after) => Ok(
                            ReadJournalModel { name, start, stop, variables, after },
                        ),
                    },
                },
            },
        },
    }
}

fn next_name<'a>(c: &mut Cursor<'a>) -> (r: Result<Option<ObjectName<'a>>, Error>)
    ensures
        agrees_opt(r, journal_name(old(c)@)),
        final(c)@ == old(c)@.skip_optional(ctx_cons(0)),
{
    match c.next_if_tag(Tag::context_constructed(0))? {
        Some(n) => {
            let n = n.children().next_required()?;
            Ok(Some(ObjectName::parse(&n)?))
        },
        None => Ok(None),
    }
}

fn next_start<'a>(c: &mut Cursor<'a>) -> (r: Result<Option<RangeStart<'a>>, Error>)
    ensures
        agrees_opt(r, range_start(old(c)@)),
        final(c)@ == old(c)@.skip_optional(ctx_cons(1)),
{
    match c.next_if_tag(Tag::context_constructed(1))? {
        Some(r) => {
            let inner = r.children().next_required()?;
            match inner.tag.number {
                0 => Ok(Some(RangeStart::Time(TimeOfDay::from_octets(inner.value)?))),
                1 => Ok(Some(RangeStart::Entry(inner.value))),
                _ => Err(Error::decode(DecodeReason::UnexpectedTag, inner.offset)),
            }
        },
        None => Ok(None),
    }
}

fn next_stop(c: &mut Cursor<'_>) -> (r: Result<Option<RangeStop>, Error>)
    ensures
        agrees_opt(r, range_stop(old(c)@)),
        final(c)@ == old(c)@.skip_optional(ctx_cons(2)),
{
    match c.next_if_tag(Tag::context_constructed(2))? {
        Some(r) => {
            let inner = r.children().next_required()?;
            match inner.tag.number {
                0 => Ok(Some(RangeStop::Time(TimeOfDay::from_octets(inner.value)?))),
                1 => Ok(Some(RangeStop::Count(inner.integer_i32()?))),
                _ => Err(Error::decode(DecodeReason::UnexpectedTag, inner.offset)),
            }
        },
        None => Ok(None),
    }
}

fn next_tags<'a>(c: &mut Cursor<'a>, limits: &Limits) -> (r: Result<Vec<&'a str>, Error>)
    ensures
        agrees_list(r, variable_tags(old(c)@, *limits)),
        final(c)@ == old(c)@.skip_optional(ctx_cons(4)),
{
    let mut out: Vec<&'a str> = Vec::new();
    assert(views(out@) =~= Seq::<Seq<char>>::empty());
    if let Some(list) = c.next_if_tag(Tag::context_constructed(4))? {
        let mut m = list.children();
        while !m.is_empty()
            invariant
                texts_of(list@.children(), *limits, Seq::empty()) == texts_of(
                    m@,
                    *limits,
                    views(out@),
                ),
                variable_tags(old(c)@, *limits) == texts_of(
                    list@.children(),
                    *limits,
                    Seq::empty(),
                ),
                c@ == old(c)@.skip_optional(ctx_cons(4)),
            decreases m@.bytes.len(),
        {
            proof {
                laws::lemma_progress(m@);
            }
            if out.len() >= limits.max_dataset_members {
                return Err(
                    Error::LimitExceeded {
                        limit: "max_dataset_members",
                        value: out.len().saturating_add(1),
                    },
                );
            }
            let s = m.next_required()?.visible_string()?;
            let ghost before = views(out@);
            out.push(s);
            assert(views(out@) =~= before.push(s@));
        }
    }
    Ok(out)
}

fn next_after<'a>(c: &mut Cursor<'a>) -> (r: Result<Option<AfterEntry<'a>>, Error>)
    ensures
        agrees_opt(r, resume_point(old(c)@)),
        final(c)@ == old(c)@.skip_optional(ctx_cons(5)),
{
    match c.next_if_tag(Tag::context_constructed(5))? {
        Some(a) => {
            let mut m = a.children();
            let time = TimeOfDay::from_octets(m.next_tag(Tag::context(0))?.value)?;
            let entry_id = m.next_tag(Tag::context(1))?.value;
            Ok(Some(AfterEntry { time, entry_id }))
        },
        None => Ok(None),
    }
}

// ---- encoding --------------------------------------------------------------------------

/// The encoding of the journal's name.
pub open spec fn journal_name_bytes(n: Option<ObjectNameModel>) -> Seq<u8> {
    match n {
        Some(n) => tlv(ctx_cons(0), name_bytes(n)),
        None => Seq::empty(),
    }
}

/// The tag and contents of a starting point.
pub open spec fn start_bytes(s: RangeStartModel) -> Seq<u8> {
    match s {
        RangeStartModel::Time(t) => tlv(ctx(0), time_octets(t)),
        RangeStartModel::Entry(id) => tlv(ctx(1), id),
    }
}

/// The encoding of the starting point.
pub open spec fn range_start_bytes(s: Option<RangeStartModel>) -> Seq<u8> {
    match s {
        Some(s) => tlv(ctx_cons(1), start_bytes(s)),
        None => Seq::empty(),
    }
}

/// The tag and contents of a stopping point.
pub open spec fn stop_bytes(s: RangeStop) -> Seq<u8> {
    match s {
        RangeStop::Time(t) => tlv(ctx(0), time_octets(t)),
        RangeStop::Count(n) => tlv(ctx(1), sint_octets(n as int)),
    }
}

/// The encoding of the stopping point.
pub open spec fn range_stop_bytes(s: Option<RangeStop>) -> Seq<u8> {
    match s {
        Some(s) => tlv(ctx_cons(2), stop_bytes(s)),
        None => Seq::empty(),
    }
}

/// The encoding of the variable tags.
pub open spec fn tags_bytes(v: Seq<Seq<char>>) -> Seq<u8> {
    if v.len() == 0 {
        Seq::empty()
    } else {
        tlv(ctx_cons(4), list_bytes::<&'static str>(v))
    }
}

/// The encoding of the entry to resume after.
pub open spec fn after_bytes(a: Option<AfterEntryModel>) -> Seq<u8> {
    match a {
        Some(a) => tlv(ctx_cons(5), tlv(ctx(0), time_octets(a.time)) + tlv(ctx(1), a.entry_id)),
        None => Seq::empty(),
    }
}

/// The contents octets of a request.
pub open spec fn read_journal_contents(m: ReadJournalModel) -> Seq<u8> {
    journal_name_bytes(m.name) + (range_start_bytes(m.start) + (range_stop_bytes(m.stop) + (
    tags_bytes(m.variables) + after_bytes(m.after))))
}

/// Why a request has no encoding.
pub open spec fn read_journal_fault(m: ReadJournalModel) -> Option<Error> {
    first_fault(
        match m.name {
            Some(n) => name_fault(n),
            None => None,
        },
        list_fault::<&'static str>(m.variables),
    )
}

impl<'a> ReadJournal<'a> {
    /// Every entry of `name` from `from` onward, up to `to` where that is given.
    pub fn by_time(name: ObjectName<'a>, from: TimeOfDay, to: Option<TimeOfDay>) -> (r: ReadJournal<
        'a,
    >)
        ensures
            r@ == (ReadJournalModel {
                name: Some(name@),
                start: Some(RangeStartModel::Time(from)),
                stop: match to {
                    Some(t) => Some(RangeStop::Time(t)),
                    None => None,
                },
                ..empty_request()
            }),
    {
        let mut r = ReadJournal::default();
        r.name = Some(name);
        r.start = Some(RangeStart::Time(from));
        r.stop = match to {
            Some(t) => Some(RangeStop::Time(t)),
            None => None,
        };
        r
    }

    /// Every entry of `name` after `after`.
    pub fn after_entry(name: ObjectName<'a>, after: AfterEntry<'a>) -> (r: ReadJournal<'a>)
        ensures
            r@ == (ReadJournalModel {
                name: Some(name@),
                after: Some(after@),
                ..empty_request()
            }),
    {
        let mut r = ReadJournal::default();
        r.name = Some(name);
        r.after = Some(after);
        r
    }

    /// Decode the contents of a `readJournal [65]` request, enforcing `limits` on its variables.
    pub fn parse(t: &Tlv<'a>, limits: &Limits) -> (r: Result<ReadJournal<'a>, Error>)
        ensures
            agrees(r, read_journal_of(t@, *limits)),
    {
        let mut c = t.children();
        let name = next_name(&mut c)?;
        let start = next_start(&mut c)?;
        let stop = next_stop(&mut c)?;
        let variables = next_tags(&mut c, limits)?;
        let after = next_after(&mut c)?;
        Ok(ReadJournal { name, start, stop, variables, after })
    }

    /// Encode this request as a whole `readJournal [65]`.
    pub fn write(&self, e: &mut Encoder) -> (r: Result<(), Error>)
        ensures
            wrote(
                r,
                old(e)@,
                final(e)@,
                read_journal_fault(self@),
                tlv(ctx_cons(65), read_journal_contents(self@)),
            ),
    {
        let mut body = Encoder::new();
        if let Some(n) = &self.name {
            let mut inner = Encoder::new();
            n.write(&mut inner)?;
            assert(inner@ =~= name_bytes(n@));
            body.constructed(Tag::context_constructed(0), &inner);
        }
        if let Some(s) = &self.start {
            let mut inner = Encoder::new();
            match s {
                RangeStart::Time(t) => inner.primitive(Tag::context(0), &t.to_octets()),
                RangeStart::Entry(id) => inner.primitive(Tag::context(1), id),
            }
            assert(inner@ =~= start_bytes(s@));
            body.constructed(Tag::context_constructed(1), &inner);
        }
        if let Some(s) = &self.stop {
            let mut inner = Encoder::new();
            match s {
                RangeStop::Time(t) => inner.primitive(Tag::context(0), &t.to_octets()),
                RangeStop::Count(n) => inner.integer(Tag::context(1), *n as i64),
            }
            assert(inner@ =~= stop_bytes(*s));
            body.constructed(Tag::context_constructed(2), &inner);
        }
        let list = write_list(self.variables.as_slice())?;
        if self.variables.len() > 0 {
            body.constructed(Tag::context_constructed(4), &list);
        }
        if let Some(a) = &self.after {
            let mut inner = Encoder::new();
            inner.primitive(Tag::context(0), &a.time.to_octets());
            inner.primitive(Tag::context(1), a.entry_id);
            assert(inner@ =~= tlv(ctx(0), time_octets(a.time)) + tlv(ctx(1), a.entry_id@));
            body.constructed(Tag::context_constructed(5), &inner);
        }
        assert(body@ =~= read_journal_contents(self@));
        e.constructed(Tag::context_constructed(SERVICE_READ_JOURNAL), &body);
        Ok(())
    }

    /// A copy of this request.
    pub fn duplicate(&self) -> (r: ReadJournal<'a>)
        ensures
            r@ == self@,
    {
        let mut variables: Vec<&'a str> = Vec::new();
        let mut i: usize = 0;
        while i < self.variables.len()
            invariant
                i <= self.variables.len(),
                variables@ == self.variables@.take(i as int),
            decreases self.variables.len() - i,
        {
            variables.push(self.variables[i]);
            i += 1;
            assert(variables@ =~= self.variables@.take(i as int));
        }
        assert(variables@ =~= self.variables@);
        ReadJournal {
            name: self.name,
            start: self.start,
            stop: self.stop,
            variables,
            after: self.after,
        }
    }
}

impl<'a> Clone for ReadJournal<'a> {
    fn clone(&self) -> (r: ReadJournal<'a>)
        ensures
            r@ == self@,
    {
        self.duplicate()
    }
}

// ---- laws ------------------------------------------------------------------------------

/// Whether the wire can carry the times of a request, and a decoder with these limits takes its
/// variables.
pub open spec fn read_journal_fits(m: ReadJournalModel, limits: Limits) -> bool {
    &&& m.variables.len() <= limits.max_dataset_members
    &&& m.start matches Some(RangeStartModel::Time(t)) ==> time_fits(t)
    &&& m.stop matches Some(RangeStop::Time(t)) ==> time_fits(t)
    &&& m.after matches Some(a) ==> time_fits(a.time)
}

proof fn lemma_texts_round_trip(
    v: Seq<Seq<char>>,
    i: nat,
    limits: Limits,
    offset: usize,
    acc: Seq<Seq<char>>,
)
    requires
        i <= v.len(),
        acc.len() + v.len() - i <= limits.max_dataset_members,
        list_fault_from::<&'static str>(v, i) is None,
        list_from::<&'static str>(v, i).len() <= u64::MAX,
    ensures
        texts_of(
            CursorModel { bytes: list_from::<&'static str>(v, i), offset },
            limits,
            acc,
        ) == Ok::<Seq<Seq<char>>, Error>(acc + v.skip(i as int)),
    decreases v.len() - i,
{
    broadcast use laws::lemma_tlv_len;

    if i < v.len() {
        let s = v[i as int];
        let rest = list_from::<&'static str>(v, i + 1);
        laws::lemma_ascii_text(s);
        laws::lemma_first(identifier_tag(), octets_of(s), rest, offset);
        let next = laws::cursor_after(identifier_tag(), octets_of(s), rest, offset);
        lemma_texts_round_trip(v, i + 1, limits, next.offset, acc.push(s));
        assert(acc.push(s) + v.skip(i + 1int) =~= acc + v.skip(i as int));
    } else {
        assert(acc + v.skip(i as int) =~= acc);
    }
}

/// Fields that stand under a higher number, or none at all, lack a tag.
proof fn lemma_lacks_after(m: ReadJournalModel, n: u32)
    requires
        read_journal_contents(m).len() <= u64::MAX,
    ensures
        n <= 4 ==> lacks_all(after_bytes(m.after), n),
        n <= 2 ==> lacks_all(tags_bytes(m.variables) + after_bytes(m.after), n),
        n <= 1 ==> lacks_all(
            range_stop_bytes(m.stop) + (tags_bytes(m.variables) + after_bytes(m.after)),
            n,
        ),
        n == 0 ==> lacks_all(
            range_start_bytes(m.start) + (range_stop_bytes(m.stop) + (tags_bytes(m.variables)
                + after_bytes(m.after))),
            n,
        ),
{
    broadcast use laws::lemma_tlv_len;

    let a = after_bytes(m.after);
    let t = tags_bytes(m.variables) + a;
    let s = range_stop_bytes(m.stop) + t;
    if let Some(x) = m.after {
        let v = tlv(ctx(0), time_octets(x.time)) + tlv(ctx(1), x.entry_id);
        assert(a + Seq::empty() =~= a);
        if n != 5 {
            laws::lemma_lacks(ctx_cons(5), v, Seq::empty(), ctx_cons(n));
        }
    }
    if m.variables.len() > 0 {
        if n != 4 {
            laws::lemma_lacks(
                ctx_cons(4),
                list_bytes::<&'static str>(m.variables),
                a,
                ctx_cons(n),
            );
        }
    } else {
        assert(t =~= a);
    }
    if let Some(x) = m.stop {
        if n != 2 {
            laws::lemma_lacks(ctx_cons(2), stop_bytes(x), t, ctx_cons(n));
        }
    } else {
        assert(s =~= t);
    }
    if let Some(x) = m.start {
        if n != 1 {
            laws::lemma_lacks(ctx_cons(1), start_bytes(x), s, ctx_cons(n));
        }
    } else {
        assert(range_start_bytes(m.start) + s =~= s);
    }
}

/// Whether octets do not start with a constructed `[n]`.
pub open spec fn lacks_all(r: Seq<u8>, n: u32) -> bool {
    laws::lacks(r, ctx_cons(n))
}

proof fn lemma_name_field(n: Option<ObjectNameModel>, r: Seq<u8>, offset: usize)
    requires
        n matches Some(x) ==> name_fault(x) is None,
        journal_name_bytes(n).len() <= u64::MAX,
        lacks_all(r, 0),
    ensures
        ({
            let c = CursorModel { bytes: journal_name_bytes(n) + r, offset };
            journal_name(c) == Ok::<Option<ObjectNameModel>, Error>(n) && c.skip_optional(
                ctx_cons(0),
            ).bytes == r
        }),
{
    broadcast use laws::lemma_tlv_len;

    match n {
        Some(x) => {
            laws::lemma_present(ctx_cons(0), name_bytes(x), r, offset);
            let at = laws::element_at(ctx_cons(0), name_bytes(x), offset).value_offset;
            laws::lemma_only(name_tag(x), name_contents(x), at);
            lemma_name_round_trip(x, at);
        },
        None => {
            assert(journal_name_bytes(n) + r =~= r);
            laws::lemma_absent(r, ctx_cons(0), offset);
        },
    }
}

proof fn lemma_start_field(s: Option<RangeStartModel>, r: Seq<u8>, offset: usize)
    requires
        s matches Some(RangeStartModel::Time(t)) ==> time_fits(t),
        range_start_bytes(s).len() <= u64::MAX,
        lacks_all(r, 1),
    ensures
        ({
            let c = CursorModel { bytes: range_start_bytes(s) + r, offset };
            range_start(c) == Ok::<Option<RangeStartModel>, Error>(s) && c.skip_optional(
                ctx_cons(1),
            ).bytes == r
        }),
{
    broadcast use laws::lemma_tlv_len;

    match s {
        Some(x) => {
            laws::lemma_present(ctx_cons(1), start_bytes(x), r, offset);
            let at = laws::element_at(ctx_cons(1), start_bytes(x), offset).value_offset;
            match x {
                RangeStartModel::Time(t) => {
                    laws::lemma_only(ctx(0), time_octets(t), at);
                    lemma_time_round_trip(t);
                },
                RangeStartModel::Entry(id) => laws::lemma_only(ctx(1), id, at),
            }
        },
        None => {
            assert(range_start_bytes(s) + r =~= r);
            laws::lemma_absent(r, ctx_cons(1), offset);
        },
    }
}

proof fn lemma_stop_field(s: Option<RangeStop>, r: Seq<u8>, offset: usize)
    requires
        s matches Some(RangeStop::Time(t)) ==> time_fits(t),
        range_stop_bytes(s).len() <= u64::MAX,
        lacks_all(r, 2),
    ensures
        ({
            let c = CursorModel { bytes: range_stop_bytes(s) + r, offset };
            range_stop(c) == Ok::<Option<RangeStop>, Error>(s) && c.skip_optional(
                ctx_cons(2),
            ).bytes == r
        }),
{
    broadcast use laws::lemma_tlv_len;

    match s {
        Some(x) => {
            laws::lemma_present(ctx_cons(2), stop_bytes(x), r, offset);
            let at = laws::element_at(ctx_cons(2), stop_bytes(x), offset).value_offset;
            match x {
                RangeStop::Time(t) => {
                    laws::lemma_only(ctx(0), time_octets(t), at);
                    lemma_time_round_trip(t);
                },
                RangeStop::Count(n) => {
                    laws::lemma_integer_field(ctx(1), n as i64, at);
                    laws::lemma_only(ctx(1), sint_octets(n as int), at);
                },
            }
        },
        None => {
            assert(range_stop_bytes(s) + r =~= r);
            laws::lemma_absent(r, ctx_cons(2), offset);
        },
    }
}

proof fn lemma_tags_field(v: Seq<Seq<char>>, limits: Limits, r: Seq<u8>, offset: usize)
    requires
        v.len() <= limits.max_dataset_members,
        list_fault::<&'static str>(v) is None,
        tags_bytes(v).len() <= u64::MAX,
        lacks_all(r, 4),
    ensures
        ({
            let c = CursorModel { bytes: tags_bytes(v) + r, offset };
            variable_tags(c, limits) == Ok::<Seq<Seq<char>>, Error>(v) && c.skip_optional(
                ctx_cons(4),
            ).bytes == r
        }),
{
    broadcast use laws::lemma_tlv_len;

    if v.len() > 0 {
        let list = list_bytes::<&'static str>(v);
        laws::lemma_present(ctx_cons(4), list, r, offset);
        let at = laws::element_at(ctx_cons(4), list, offset).value_offset;
        lemma_texts_round_trip(v, 0, limits, at, Seq::empty());
        assert(Seq::<Seq<char>>::empty() + v.skip(0) =~= v);
    } else {
        assert(tags_bytes(v) + r =~= r);
        laws::lemma_absent(r, ctx_cons(4), offset);
        assert(v =~= Seq::<Seq<char>>::empty());
    }
}

proof fn lemma_after_field(a: Option<AfterEntryModel>, offset: usize)
    requires
        a matches Some(x) ==> time_fits(x.time),
        after_bytes(a).len() <= u64::MAX,
    ensures
        resume_point(CursorModel { bytes: after_bytes(a), offset }) == Ok::<
            Option<AfterEntryModel>,
            Error,
        >(a),
{
    broadcast use laws::lemma_tlv_len;

    if let Some(x) = a {
        let id = tlv(ctx(1), x.entry_id);
        let v = tlv(ctx(0), time_octets(x.time)) + id;
        assert(after_bytes(a) + Seq::empty() =~= after_bytes(a));
        laws::lemma_present(ctx_cons(5), v, Seq::empty(), offset);
        let at = laws::element_at(ctx_cons(5), v, offset).children();
        laws::lemma_first(ctx(0), time_octets(x.time), id, at.offset);
        lemma_time_round_trip(x.time);
        laws::lemma_only(ctx(1), x.entry_id, at.rest().offset);
    }
}

/// A request that has an encoding and stays within the limits reads back as it was.
pub proof fn lemma_read_journal_round_trip(
    m: ReadJournalModel,
    limits: Limits,
    tag: Tag,
    offset: usize,
)
    requires
        read_journal_fault(m) is None,
        read_journal_fits(m, limits),
        read_journal_contents(m).len() <= u64::MAX,
    ensures
        read_journal_of(laws::element_at(tag, read_journal_contents(m), offset), limits) == Ok::<
            ReadJournalModel,
            Error,
        >(m),
{
    let a = after_bytes(m.after);
    let t = tags_bytes(m.variables) + a;
    let s = range_stop_bytes(m.stop) + t;
    let r = range_start_bytes(m.start) + s;
    lemma_lacks_after(m, 0);
    lemma_lacks_after(m, 1);
    lemma_lacks_after(m, 2);
    lemma_lacks_after(m, 4);
    let c0 = laws::element_at(tag, read_journal_contents(m), offset).children();
    lemma_name_field(m.name, r, c0.offset);
    let c1 = c0.skip_optional(ctx_cons(0));
    lemma_start_field(m.start, s, c1.offset);
    let c2 = c1.skip_optional(ctx_cons(1));
    lemma_stop_field(m.stop, t, c2.offset);
    let c3 = c2.skip_optional(ctx_cons(2));
    lemma_tags_field(m.variables, limits, a, c3.offset);
    let c4 = c3.skip_optional(ctx_cons(4));
    lemma_after_field(m.after, c4.offset);
}

proof fn lemma_texts_decoded(c: CursorModel, limits: Limits, acc: Seq<Seq<char>>)
    requires
        acc.len() <= limits.max_dataset_members,
        forall|j: int| 0 <= j < acc.len() ==> text_fault(#[trigger] acc[j]) is None,
    ensures
        texts_of(c, limits, acc) matches Ok(v) ==> list_fault::<&'static str>(v) is None && v.len()
            <= limits.max_dataset_members,
    decreases c.bytes.len(),
{
    if c.bytes.len() == 0 {
        lemma_faultless::<&'static str>(acc, 0);
    } else if acc.len() < limits.max_dataset_members {
        laws::lemma_progress(c);
        if let Ok(t) = c.first() {
            laws::lemma_visible_decoded(t);
            if let Ok(s) = t.visible() {
                lemma_texts_decoded(c.rest(), limits, acc.push(s));
            }
        }
    }
}

/// A request that was decoded has an encoding, and reads back.
pub proof fn lemma_read_journal_decoded(t: TlvModel, limits: Limits)
    ensures
        read_journal_of(t, limits) matches Ok(m) ==> read_journal_fault(m) is None
            && read_journal_fits(m, limits),
{
    let c0 = t.children();
    let c3 = c0.skip_optional(ctx_cons(0)).skip_optional(ctx_cons(1)).skip_optional(ctx_cons(2));
    if let Ok(Some(n)) = c0.optional(ctx_cons(0)) {
        if let Ok(n) = n.children().first() {
            lemma_name_decoded(n);
        }
    }
    match c3.optional(ctx_cons(4)) {
        Ok(Some(list)) => lemma_texts_decoded(list.children(), limits, Seq::empty()),
        _ => lemma_faultless::<&'static str>(Seq::empty(), 0),
    }
}

} // verus!
