//! The file services: `FileDirectory`, `FileOpen`, `FileRead`, `FileClose` and `FileDelete`.

use vstd::prelude::*;
use vstd::string::*;
use vstd::utf8::*;
use crate::ber::laws;
use crate::ber::list::{views, Element};
use crate::ber::{
    ctx, ctx_cons, first_fault, octets_of, opt_text_bytes, opt_text_fault, opt_view, sint_octets,
    text_fault, tlv, univ, wrote, Cursor, CursorModel, Encoder, Tag, Tlv, TlvModel,
    UNIVERSAL_GRAPHIC_STRING, UNIVERSAL_SEQUENCE,
};
use crate::common::{agrees, push_text, Error, Limits};

verus! {

/// The most components a file name may have.
pub const MAX_COMPONENTS: usize = 32;

/// `GraphicString`, the type a file-name component is.
pub open spec fn graphic_tag() -> Tag {
    univ(25, false)
}

/// `GraphicString`, the type a file-name component is.
pub fn tag_graphic_string() -> (r: Tag)
    ensures
        r == graphic_tag(),
{
    Tag::universal(UNIVERSAL_GRAPHIC_STRING, false)
}

/// A borrowed `FileName`: the encoded contents of the `SEQUENCE OF GraphicString`.
///
/// The encoded form is kept because most servers put the whole path in one component while
/// some split it, and either has to encode as it arrived.
#[derive(Clone, Copy, Debug, Default, PartialEq, Eq)]
pub struct FileName<'a>(&'a [u8]);

impl<'a> View for FileName<'a> {
    type V = Seq<u8>;

    closed spec fn view(&self) -> Seq<u8> {
        self.0@
    }
}

/// The components a cursor holds. A component that does not decode ends them.
pub open spec fn parts_of(c: CursorModel) -> Seq<Seq<char>>
    decreases c.bytes.len(),
    via parts_shrink
{
    match c.first() {
        Err(_) => Seq::empty(),
        Ok(t) => match t.visible() {
            Err(_) => Seq::empty(),
            Ok(s) => seq![s] + parts_of(c.rest()),
        },
    }
}

#[via_fn]
proof fn parts_shrink(c: CursorModel) {
    laws::lemma_progress(c);
}

/// The components from index `i` on, each behind a `/` but the first of all.
pub open spec fn joined_from(parts: Seq<Seq<char>>, i: nat) -> Seq<char>
    decreases parts.len() - i,
{
    if i < parts.len() {
        if i == 0 {
            parts[0] + joined_from(parts, 1)
        } else {
            "/"@ + (parts[i as int] + joined_from(parts, i + 1))
        }
    } else {
        Seq::empty()
    }
}

/// Whether every component a cursor still holds is acceptable, after `n` others.
pub open spec fn parts_check(c: CursorModel, limits: Limits, n: nat) -> Result<(), Error>
    decreases c.bytes.len(),
    via parts_check_shrinks
{
    if c.bytes.len() == 0 {
        Ok(())
    } else {
        match c.first() {
            Err(e) => Err(e),
            Ok(t) => if t.value.len() > limits.max_primitive_len {
                Err(
                    Error::LimitExceeded {
                        limit: "max_primitive_len",
                        value: t.value.len() as usize,
                    },
                )
            } else {
                match t.visible() {
                    Err(e) => Err(e),
                    Ok(_) => if n + 1 > MAX_COMPONENTS {
                        Err(
                            Error::LimitExceeded {
                                limit: "file name components",
                                value: (n + 1) as usize,
                            },
                        )
                    } else {
                        parts_check(c.rest(), limits, n + 1)
                    },
                }
            },
        }
    }
}

#[via_fn]
proof fn parts_check_shrinks(c: CursorModel, limits: Limits, n: nat) {
    laws::lemma_progress(c);
}

/// The file name an element holds.
pub open spec fn file_name_of(t: TlvModel, limits: Limits) -> Result<Seq<u8>, Error> {
    match parts_check(t.children(), limits, 0) {
        Err(e) => Err(e),
        Ok(_) => Ok(t.value),
    }
}

impl<'a> FileName<'a> {
    /// A file name over already-encoded contents octets.
    pub fn from_encoded(contents: &'a [u8]) -> (r: FileName<'a>)
        ensures
            r@ == contents@,
    {
        FileName(contents)
    }

    /// The encoded contents octets.
    pub fn as_encoded(&self) -> (r: &'a [u8])
        ensures
            r@ == self@,
    {
        self.0
    }

    /// The components, in order. A malformed component ends them.
    pub fn components(&self) -> (r: Vec<&'a str>)
        ensures
            views(r@) == parts_of(CursorModel { bytes: self@, offset: 0 }),
    {
        let mut out: Vec<&'a str> = Vec::new();
        let mut c = Cursor::new(self.0);
        let ghost all = parts_of(c@);
        assert(views(out@) + parts_of(c@) =~= all);
        loop
            invariant_except_break
                views(out@) + parts_of(c@) == all,
            invariant
                all == parts_of(CursorModel { bytes: self@, offset: 0 }),
            ensures
                views(out@) == all,
            decreases c@.bytes.len(),
        {
            proof {
                laws::lemma_progress(c@);
            }
            let ghost at = c@;
            match c.next_required() {
                Err(_) => {
                    assert(views(out@) + parts_of(c@) =~= views(out@));
                    break;
                },
                Ok(t) => match t.visible_string() {
                    Err(_) => {
                        assert(views(out@) + parts_of(at) =~= views(out@));
                        break;
                    },
                    Ok(s) => {
                        let ghost before = views(out@);
                        out.push(s);
                        assert(views(out@) =~= before.push(s@));
                        assert(before.push(s@) + parts_of(c@) =~= before + (seq![s@] + parts_of(
                            c@,
                        )));
                    },
                },
            }
        }
        out
    }

    /// The components joined with `/`.
    pub fn display(&self) -> (r: String)
        ensures
            r@ == joined_from(parts_of(CursorModel { bytes: self@, offset: 0 }), 0),
    {
        let parts = self.components();
        let ghost all = views(parts@);
        let mut out = String::new();
        let mut i: usize = 0;
        assert(out@ + joined_from(all, 0) =~= joined_from(all, 0));
        while i < parts.len()
            invariant
                i <= parts.len(),
                all == views(parts@),
                out@ + joined_from(all, i as nat) == joined_from(all, 0),
            decreases parts.len() - i,
        {
            let ghost before = out@;
            if i > 0 {
                push_text(&mut out, "/");
            }
            push_text(&mut out, parts[i]);
            proof {
                let rest = joined_from(all, (i + 1) as nat);
                assert(all[i as int] == parts@[i as int]@);
                if i == 0 {
                    assert(out@ + rest =~= before + (all[0] + rest));
                } else {
                    assert(out@ + rest =~= before + ("/"@ + (all[i as int] + rest)));
                }
            }
            i += 1;
        }
        assert(out@ + joined_from(all, i as nat) =~= out@);
        out
    }

    /// Decode from an element whose contents are the `SEQUENCE OF`, checking every component.
    pub fn parse(t: &Tlv<'a>, limits: &Limits) -> (r: Result<FileName<'a>, Error>)
        ensures
            agrees(r, file_name_of(t@, *limits)),
    {
        let mut n: usize = 0;
        let mut c = t.children();
        while !c.is_empty()
            invariant
                n <= MAX_COMPONENTS,
                parts_check(t@.children(), *limits, 0) == parts_check(c@, *limits, n as nat),
            decreases c@.bytes.len(),
        {
            proof {
                laws::lemma_progress(c@);
            }
            let part = c.next_required()?;
            if part.value.len() > limits.max_primitive_len {
                return Err(
                    Error::LimitExceeded { limit: "max_primitive_len", value: part.value.len() },
                );
            }
            part.visible_string()?;
            n += 1;
            if n > MAX_COMPONENTS {
                return Err(Error::LimitExceeded { limit: "file name components", value: n });
            }
        }
        Ok(FileName(t.value))
    }

    /// Write the contents octets into `e`; the caller writes the enclosing tag.
    pub fn write_contents(&self, e: &mut Encoder)
        ensures
            final(e)@ == old(e)@ + self@,
    {
        e.raw(self.0);
    }
}

/// The encoding of the components from index `i` on.
pub open spec fn components_bytes(parts: Seq<Seq<char>>, i: nat) -> Seq<u8>
    decreases parts.len() - i,
{
    if i < parts.len() {
        tlv(graphic_tag(), octets_of(parts[i as int])) + components_bytes(parts, i + 1)
    } else {
        Seq::empty()
    }
}

/// The first fault of the components from index `i` on.
pub open spec fn components_fault(parts: Seq<Seq<char>>, i: nat) -> Option<Error>
    decreases parts.len() - i,
{
    if i < parts.len() {
        first_fault(text_fault(parts[i as int]), components_fault(parts, i + 1))
    } else {
        None
    }
}

/// An owned `FileName`.
#[derive(Clone, Debug, Default, PartialEq, Eq)]
pub struct FileNameBuf(Vec<u8>);

impl View for FileNameBuf {
    type V = Seq<u8>;

    closed spec fn view(&self) -> Seq<u8> {
        self.0@
    }
}

impl FileNameBuf {
    /// One component holding the whole path.
    pub fn from_path(path: &str) -> (r: Result<FileNameBuf, Error>)
        ensures
            match text_fault(path@) {
                None => r matches Ok(n) && n@ == tlv(graphic_tag(), octets_of(path@)),
                Some(f) => r == Err::<FileNameBuf, Error>(f),
            },
    {
        let mut e = Encoder::new();
        e.visible_string(tag_graphic_string(), path)?;
        assert(e@ =~= tlv(graphic_tag(), octets_of(path@)));
        Ok(FileNameBuf(e.into_vec()))
    }

    /// Several components.
    pub fn from_components(parts: &[&str]) -> (r: Result<FileNameBuf, Error>)
        ensures
            match components_fault(views(parts@), 0) {
                None => r matches Ok(n) && n@ == components_bytes(views(parts@), 0),
                Some(f) => r == Err::<FileNameBuf, Error>(f),
            },
    {
        let mut e = Encoder::new();
        let ghost all = views(parts@);
        let mut i: usize = 0;
        assert(e@ + components_bytes(all, 0) =~= components_bytes(all, 0));
        while i < parts.len()
            invariant
                i <= parts.len(),
                all == views(parts@),
                e@ + components_bytes(all, i as nat) == components_bytes(all, 0),
                components_fault(all, 0) == components_fault(all, i as nat),
            decreases parts.len() - i,
        {
            let ghost before = e@;
            assert(all[i as int] == parts@[i as int]@);
            e.visible_string(tag_graphic_string(), parts[i])?;
            proof {
                let rest = components_bytes(all, (i + 1) as nat);
                assert(e@ + rest =~= before + (tlv(graphic_tag(), octets_of(all[i as int]))
                    + rest));
            }
            i += 1;
        }
        assert(e@ + components_bytes(all, i as nat) =~= e@);
        Ok(FileNameBuf(e.into_vec()))
    }

    /// Borrow it for a request.
    pub fn as_name(&self) -> (r: FileName<'_>)
        ensures
            r@ == self@,
    {
        FileName(self.0.as_slice())
    }
}

// ---- attributes ------------------------------------------------------------------------

/// `FileAttributes`: how big the file is, and when it was last written.
#[derive(Clone, Copy, Debug, Default, PartialEq, Eq)]
pub struct FileAttributes<'a> {
    /// `sizeOfFile`, in octets.
    pub size: u32,
    /// `lastModified` as the `GeneralizedTime` text the server sent.
    pub last_modified: Option<&'a str>,
}

/// What [`FileAttributes`] stand for.
pub struct FileAttributesModel {
    pub size: u32,
    pub last_modified: Option<Seq<char>>,
}

impl<'a> View for FileAttributes<'a> {
    type V = FileAttributesModel;

    open spec fn view(&self) -> FileAttributesModel {
        FileAttributesModel { size: self.size, last_modified: opt_view(self.last_modified) }
    }
}

/// The attributes an element holds.
pub open spec fn attributes_of(t: TlvModel) -> Result<FileAttributesModel, Error> {
    let c = t.children();
    match c.unsigned32(ctx(0)) {
        Err(e) => Err(e),
        Ok(size) => match c.rest().opt_visible(ctx(1)) {
            Err(e) => Err(e),
            Ok(last_modified) => Ok(FileAttributesModel { size, last_modified }),
        },
    }
}

/// The contents octets of attributes.
pub open spec fn attributes_contents(a: FileAttributesModel) -> Seq<u8> {
    tlv(ctx(0), sint_octets(a.size as int)) + opt_text_bytes(ctx(1), a.last_modified)
}

impl<'a> FileAttributes<'a> {
    /// Decode the attributes of a file.
    pub fn parse(t: &Tlv<'a>) -> (r: Result<FileAttributes<'a>, Error>)
        ensures
            agrees(r, attributes_of(t@)),
    {
        let mut c = t.children();
        let size: u32 = c.next_tag(Tag::context(0))?.unsigned_lenient_u32()?;
        let last_modified = c.next_opt_visible(Tag::context(1))?;
        Ok(FileAttributes { size, last_modified })
    }

    /// Encode the attributes under `tag`.
    pub fn write(&self, tag: Tag, e: &mut Encoder) -> (r: Result<(), Error>)
        ensures
            wrote(
                r,
                old(e)@,
                final(e)@,
                opt_text_fault(self@.last_modified),
                tlv(tag, attributes_contents(self@)),
            ),
    {
        let mut body = Encoder::new();
        body.unsigned(Tag::context(0), self.size as u64);
        body.opt_visible_string(Tag::context(1), self.last_modified)?;
        assert(body@ =~= attributes_contents(self@));
        e.constructed(tag, &body);
        Ok(())
    }
}

/// Attributes that have an encoding read back as they were.
pub proof fn lemma_attributes_round_trip(a: FileAttributesModel, tag: Tag, offset: usize)
    requires
        opt_text_fault(a.last_modified) is None,
        attributes_contents(a).len() <= u64::MAX,
    ensures
        attributes_of(laws::element_at(tag, attributes_contents(a), offset)) == Ok::<
            FileAttributesModel,
            Error,
        >(a),
{
    let c = laws::element_at(tag, attributes_contents(a), offset).children();
    let rest = opt_text_bytes(ctx(1), a.last_modified);
    laws::lemma_unsigned32(ctx(0), a.size, rest, c.offset);
    assert(rest + Seq::empty() =~= rest);
    laws::lemma_opt_text(ctx(1), a.last_modified, Seq::empty(), c.rest().offset);
}

// ---- directories -----------------------------------------------------------------------

/// Where the entries of a `listOfDirectoryEntry [0]` are.
///
/// The field is explicitly tagged, so they are inside an inner `SEQUENCE`; a server that tags
/// it implicitly puts them directly under `[0]`. A first child that is a `SEQUENCE` and is
/// empty or starts with another `SEQUENCE` is the wrapper.
pub open spec fn directory_cursor(list: TlvModel) -> CursorModel {
    match list.children().first() {
        Err(_) => list.children(),
        Ok(first) => if first.tag != univ(16, true) {
            list.children()
        } else if first.value.len() == 0 {
            first.children()
        } else {
            match first.children().first() {
                Ok(inner) => if inner.tag == univ(16, true) {
                    first.children()
                } else {
                    list.children()
                },
                Err(_) => list.children(),
            }
        },
    }
}

/// The cursor over the entries of a `listOfDirectoryEntry [0]`, in either tagging.
pub fn directory_entries<'a>(list: &Tlv<'a>) -> (r: Cursor<'a>)
    ensures
        r@ == directory_cursor(list@),
{
    let first = match list.children().next_required() {
        Ok(first) => first,
        Err(_) => return list.children(),
    };
    if first.tag != Tag::universal(UNIVERSAL_SEQUENCE, true) {
        return list.children();
    }
    match first.children().next() {
        None => first.children(),
        Some(Ok(inner)) => if inner.tag == Tag::universal(UNIVERSAL_SEQUENCE, true) {
            first.children()
        } else {
            list.children()
        },
        Some(Err(_)) => list.children(),
    }
}

/// One entry of a `FileDirectory` response.
#[derive(Clone, Copy, Debug, Default, PartialEq, Eq)]
pub struct DirectoryEntry<'a> {
    /// The file.
    pub name: FileName<'a>,
    /// Its size and modification time.
    pub attributes: FileAttributes<'a>,
}

/// What a [`DirectoryEntry`] stands for.
pub struct DirectoryEntryModel {
    pub name: Seq<u8>,
    pub attributes: FileAttributesModel,
}

impl<'a> View for DirectoryEntry<'a> {
    type V = DirectoryEntryModel;

    open spec fn view(&self) -> DirectoryEntryModel {
        DirectoryEntryModel { name: self.name@, attributes: self.attributes@ }
    }
}

/// Whether a decoder with these limits takes a file name.
pub open spec fn file_name_fits(name: Seq<u8>, limits: Limits) -> bool {
    parts_check(CursorModel { bytes: name, offset: 0 }, limits, 0) is Ok
}

proof fn lemma_parts_check_offset(bytes: Seq<u8>, limits: Limits, n: nat, a: usize, b: usize)
    ensures
        parts_check(CursorModel { bytes, offset: a }, limits, n) is Ok <==> parts_check(
            CursorModel { bytes, offset: b },
            limits,
            n,
        ) is Ok,
    decreases bytes.len(),
{
    let ca = CursorModel { bytes, offset: a };
    let cb = CursorModel { bytes, offset: b };
    laws::lemma_progress(ca);
    if ca.first() is Ok {
        lemma_parts_check_offset(
            ca.rest().bytes,
            limits,
            n + 1,
            ca.rest().offset,
            cb.rest().offset,
        );
    }
}

/// A file name a decoder takes reads back as it was.
pub proof fn lemma_file_name_round_trip(name: Seq<u8>, limits: Limits, tag: Tag, offset: usize)
    requires
        file_name_fits(name, limits),
    ensures
        file_name_of(laws::element_at(tag, name, offset), limits) == Ok::<Seq<u8>, Error>(name),
{
    let c = laws::element_at(tag, name, offset).children();
    lemma_parts_check_offset(name, limits, 0, 0, c.offset);
}

/// A file name that was decoded reads back.
pub proof fn lemma_file_name_decoded(t: TlvModel, limits: Limits)
    ensures
        file_name_of(t, limits) matches Ok(name) ==> file_name_fits(name, limits),
{
    lemma_parts_check_offset(t.value, limits, 0, 0, t.children().offset);
}

/// Attributes that were decoded have an encoding.
pub proof fn lemma_attributes_decoded(t: TlvModel)
    ensures
        attributes_of(t) matches Ok(a) ==> opt_text_fault(a.last_modified) is None,
{
    laws::lemma_opt_visible_decoded(t.children().rest(), ctx(1));
}

impl<'a> Element<'a> for DirectoryEntry<'a> {
    open spec fn read(t: TlvModel, limits: Limits) -> Result<DirectoryEntryModel, Error> {
        match t.expect(univ(16, true)) {
            Err(e) => Err(e),
            Ok(t) => {
                let c = t.children();
                match c.tagged(ctx_cons(0)) {
                    Err(e) => Err(e),
                    Ok(n) => match file_name_of(n, limits) {
                        Err(e) => Err(e),
                        Ok(name) => match c.rest().tagged(ctx_cons(1)) {
                            Err(e) => Err(e),
                            Ok(a) => match attributes_of(a) {
                                Err(e) => Err(e),
                                Ok(attributes) => Ok(DirectoryEntryModel { name, attributes }),
                            },
                        },
                    },
                }
            },
        }
    }

    open spec fn fault(m: DirectoryEntryModel) -> Option<Error> {
        opt_text_fault(m.attributes.last_modified)
    }

    open spec fn tag_of(m: DirectoryEntryModel) -> Tag {
        univ(16, true)
    }

    open spec fn contents_of(m: DirectoryEntryModel) -> Seq<u8> {
        tlv(ctx_cons(0), m.name) + tlv(ctx_cons(1), attributes_contents(m.attributes))
    }

    open spec fn fits(m: DirectoryEntryModel, limits: Limits) -> bool {
        file_name_fits(m.name, limits)
    }

    open spec fn same(a: DirectoryEntryModel, b: DirectoryEntryModel) -> bool {
        a == b
    }

    fn read_element(t: &Tlv<'a>, limits: &Limits) -> (r: Result<Self, Error>) {
        let t = (*t).expect(Tag::universal(UNIVERSAL_SEQUENCE, true))?;
        let mut c = t.children();
        let n = c.next_tag(Tag::context_constructed(0))?;
        let name = FileName::parse(&n, limits)?;
        let a = c.next_tag(Tag::context_constructed(1))?;
        let attributes = FileAttributes::parse(&a)?;
        Ok(DirectoryEntry { name, attributes })
    }

    fn write_element(&self, e: &mut Encoder) -> (r: Result<(), Error>) {
        let mut body = Encoder::new();
        body.primitive(Tag::context_constructed(0), self.name.0);
        self.attributes.write(Tag::context_constructed(1), &mut body)?;
        assert(body@ =~= Self::contents_of(self@));
        e.constructed(Tag::universal(UNIVERSAL_SEQUENCE, true), &body);
        Ok(())
    }

    proof fn round_trip(m: DirectoryEntryModel, limits: Limits, offset: usize) {
        broadcast use laws::lemma_tlv_len;

        let c = laws::element_at(univ(16, true), Self::contents_of(m), offset).children();
        let attributes = attributes_contents(m.attributes);
        laws::lemma_first(ctx_cons(0), m.name, tlv(ctx_cons(1), attributes), c.offset);
        lemma_file_name_round_trip(m.name, limits, ctx_cons(0), c.offset);
        laws::lemma_only(ctx_cons(1), attributes, c.rest().offset);
        lemma_attributes_round_trip(m.attributes, ctx_cons(1), c.rest().offset);
    }

    proof fn decoded(t: TlvModel, limits: Limits) {
        let c = t.children();
        if let Ok(n) = c.tagged(ctx_cons(0)) {
            lemma_file_name_decoded(n, limits);
        }
        if let Ok(a) = c.rest().tagged(ctx_cons(1)) {
            lemma_attributes_decoded(a);
        }
    }

    proof fn same_octets(a: DirectoryEntryModel, b: DirectoryEntryModel) {
    }
}

/// A path is one component, and reads back as the path.
pub proof fn lemma_path_is_one_component(path: Seq<char>)
    requires
        is_ascii_chars(path),
        path.len() <= u64::MAX,
    ensures
        parts_of(CursorModel { bytes: tlv(graphic_tag(), octets_of(path)), offset: 0 }) == seq![
            path,
        ],
        joined_from(seq![path], 0) == path,
{
    laws::lemma_ascii_text(path);
    laws::lemma_only(graphic_tag(), octets_of(path), 0);
    let c = CursorModel { bytes: tlv(graphic_tag(), octets_of(path)), offset: 0 };
    assert(c.rest().first() is Err);
    assert(parts_of(c.rest()) == Seq::<Seq<char>>::empty());
    assert(parts_of(c) =~= seq![path]);
    reveal_with_fuel(joined_from, 2);
    assert(joined_from(seq![path], 0) =~= path);
}

/// Several components read back in order.
pub proof fn lemma_components_read_back(parts: Seq<Seq<char>>, i: nat, offset: usize)
    requires
        i <= parts.len(),
        components_fault(parts, i) is None,
        components_bytes(parts, i).len() <= u64::MAX,
    ensures
        parts_of(CursorModel { bytes: components_bytes(parts, i), offset }) == parts.skip(i as int),
    decreases parts.len() - i,
{
    broadcast use laws::lemma_tlv_len;

    let c = CursorModel { bytes: components_bytes(parts, i), offset };
    if i < parts.len() {
        let p = parts[i as int];
        laws::lemma_ascii_text(p);
        laws::lemma_first(graphic_tag(), octets_of(p), components_bytes(parts, i + 1), offset);
        lemma_components_read_back(parts, i + 1, c.rest().offset);
        assert(seq![p] + parts.skip(i + 1int) =~= parts.skip(i as int));
    } else {
        assert(parts_of(c) =~= parts.skip(i as int));
    }
}

} // verus!
