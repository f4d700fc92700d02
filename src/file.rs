use crate::errors::{Hoi4Error, Hoi4ErrorKind};
use crate::extraction::Encoding;
use crate::flavor::FlavorText;
use crate::melt::{bytes_eq, fault_of, lit, melt, melt_spec, MeltFault, MeltOptions, MeltedDocument};
use crate::resolver::resolver_names;
use crate::writer::{rendered, TextOp};
use vstd::prelude::*;

verus! {

/// The header of a text save.
pub open spec fn text_header() -> Seq<u8> {
    lit("HOI4txt")
}

/// The header of a binary save.
pub open spec fn binary_header() -> Seq<u8> {
    lit("HOI4bin")
}

/// The encoding that the first seven bytes of a save name, if any.
pub open spec fn header_encoding(data: Seq<u8>) -> Option<Encoding> {
    if data.len() < 7 {
        None
    } else if data.take(7) == text_header() {
        Some(Encoding::Plaintext)
    } else if data.take(7) == binary_header() {
        Some(Encoding::Binary)
    } else {
        None
    }
}

/// What melted output starts with: the text header and a line feed.
pub open spec fn melted_header() -> Seq<u8> {
    lit("HOI4txt\n")
}

enum FileHeader {
    Text,
    Binary,
}

/// The kind of save that the header names, and the bytes after it.
fn file_header(data: &[u8]) -> (r: Option<(FileHeader, &[u8])>)
    ensures
        match r {
            Some((FileHeader::Text, rest)) => header_encoding(data@) == Some(Encoding::Plaintext)
                && rest@ == data@.skip(7),
            Some((FileHeader::Binary, rest)) => header_encoding(data@) == Some(Encoding::Binary)
                && rest@ == data@.skip(7),
            None => header_encoding(data@) is None,
        },
{
    let txt = "HOI4txt".as_bytes();
    let bin = "HOI4bin".as_bytes();
    proof {
        reveal_strlit("HOI4txt");
        reveal_strlit("HOI4bin");
        vstd::string::is_ascii_spec_bytes("HOI4txt");
        vstd::string::is_ascii_spec_bytes("HOI4bin");
    }
    assert(txt@.len() == 7);
    if data.len() < 7 {
        return None;
    }
    let header = vstd::slice::slice_subrange(data, 0, 7);
    let rest = vstd::slice::slice_subrange(data, 7, data.len());
    assert(header@ =~= data@.take(7));
    assert(rest@ =~= data@.skip(7));
    if bytes_eq(header, txt) {
        Some((FileHeader::Text, rest))
    } else if bytes_eq(header, bin) {
        Some((FileHeader::Binary, rest))
    } else {
        None
    }
}

/// Entrypoint for parsing HOI4 saves
///
/// Only consumes enough data to determine encoding of the file
pub struct Hoi4File {}

impl Hoi4File {
    /// Parse a HOI4 file from a slice of data
    pub fn from_slice(data: &[u8]) -> (r: Result<Hoi4SliceFile<'_>, Hoi4Error>)
        ensures
            match header_encoding(data@) {
                Some(Encoding::Plaintext) => r matches Ok(f) && f.kind matches Hoi4SliceFileKind::Text(
                    t,
                ) && t@ == data@.skip(7),
                Some(Encoding::Binary) => r matches Ok(f) && f.kind matches Hoi4SliceFileKind::Binary(
                    b,
                ) && b.inner()@ == data@.skip(7),
                None => r matches Err(e) && e@ is UnknownHeader,
            },
    {
        match file_header(data) {
            Some((FileHeader::Text, rest)) => Ok(
                Hoi4SliceFile { kind: Hoi4SliceFileKind::Text(Hoi4Text(rest)) },
            ),
            Some((FileHeader::Binary, rest)) => Ok(
                Hoi4SliceFile { kind: Hoi4SliceFileKind::Binary(Hoi4Binary(rest)) },
            ),
            None => Err(Hoi4Error::new(Hoi4ErrorKind::UnknownHeader)),
        }
    }
}

/// A save held in memory, by encoding.
#[derive(Debug, Clone)]
pub enum Hoi4SliceFileKind<'a> {
    Text(Hoi4Text<'a>),
    Binary(Hoi4Binary<&'a [u8]>),
}

/// A save held in memory.
#[derive(Debug, Clone)]
pub struct Hoi4SliceFile<'a> {
    pub kind: Hoi4SliceFileKind<'a>,
}

impl<'a> Hoi4SliceFile<'a> {
    pub fn kind(&self) -> (r: &Hoi4SliceFileKind<'a>)
        ensures
            *r == self.kind,
    {
        &self.kind
    }

    pub fn kind_mut(&mut self) -> (r: &mut Hoi4SliceFileKind<'a>)
        ensures
            *r == old(self).kind,
            final(self).kind == *final(r),
    {
        &mut self.kind
    }

    pub fn encoding(&self) -> (r: Encoding)
        ensures
            r == (if self.kind is Text {
                Encoding::Plaintext
            } else {
                Encoding::Binary
            }),
    {
        match &self.kind {
            Hoi4SliceFileKind::Text(_) => Encoding::Plaintext,
            Hoi4SliceFileKind::Binary(_) => Encoding::Binary,
        }
    }

    /// Writes the save as text to `output`: a text save exactly as it is, a
    /// binary save as the text header, a line feed, the melted body and a
    /// final line feed. A binary melt fails exactly when the core melt does,
    /// with its fault, after the header line.
    pub fn melt<F: FlavorText>(
        &self,
        options: MeltOptions,
        resolver: &jomini::binary::BasicTokenResolver,
        flavor: &F,
        output: &mut Vec<u8>,
    ) -> (r: Result<MeltedDocument, Hoi4Error>)
        ensures
            self.kind matches Hoi4SliceFileKind::Text(t) ==> r matches Ok(doc) && doc.unknown()
                == Set::<u16>::empty() && final(output)@ == old(output)@ + text_header() + t@,
            self.kind matches Hoi4SliceFileKind::Binary(b) ==> {
                &&& melt_spec(b.inner()@, resolver_names(*resolver), options) is Ok <==> r is Ok
                &&& r matches Ok(doc) ==> melt_spec(
                    b.inner()@,
                    resolver_names(*resolver),
                    options,
                ) == Ok::<(Seq<TextOp>, Set<u16>), MeltFault>((doc.writes(), doc.unknown()))
                &&& r matches Ok(doc) ==> final(output)@ == old(output)@ + melted_header()
                    + rendered(doc.writes(), doc.float_texts()) + seq![10u8]
                &&& r matches Err(e) ==> (fault_of(e@) matches Some(f) && melt_spec(
                    b.inner()@,
                    resolver_names(*resolver),
                    options,
                ) == Err::<(Seq<TextOp>, Set<u16>), MeltFault>(f))
                &&& r is Err ==> final(output)@ == old(output)@ + melted_header()
                &&& final(output)@.subrange(old(output)@.len() as int, old(output)@.len() + 8int)
                    == melted_header()
            },
    {
        match &self.kind {
            Hoi4SliceFileKind::Text(data) => {
                output.extend_from_slice("HOI4txt".as_bytes());
                output.extend_from_slice(data.0);
                Ok(MeltedDocument::new())
            },
            Hoi4SliceFileKind::Binary(data) => {
                let header = "HOI4txt\n".as_bytes();
                proof {
                    reveal_strlit("HOI4txt\n");
                    vstd::string::is_ascii_spec_bytes("HOI4txt\n");
                }
                assert(header@.len() == 8);
                output.extend_from_slice(header);
                let ghost start = output@;
                assert(output@.subrange(old(output)@.len() as int, old(output)@.len() + 8int)
                    =~= header@);
                let doc = melt(data.0, output, resolver, options, flavor)?;
                output.push(10u8);
                assert(output@.subrange(old(output)@.len() as int, old(output)@.len() + 8int)
                    =~= header@);
                Ok(doc)
            },
        }
    }
}

/// A Hoi4 text save
#[derive(Debug, Clone)]
pub struct Hoi4Text<'a>(&'a [u8]);

impl<'a> View for Hoi4Text<'a> {
    type V = Seq<u8>;

    closed spec fn view(&self) -> Seq<u8> {
        self.0@
    }
}

impl<'a> Hoi4Text<'a> {
    /// The text after the header.
    pub fn get_ref(&self) -> (r: &'a [u8])
        ensures
            r@ == self@,
    {
        self.0
    }
}

/// A save in the text format, read from `R`.
#[derive(Debug)]
pub struct Hoi4TextReader<R>(R);

impl<R> Hoi4TextReader<R> {
    pub closed spec fn inner(&self) -> R {
        self.0
    }

    pub fn from_reader(reader: R) -> (r: Self)
        ensures
            r.inner() == reader,
    {
        Hoi4TextReader(reader)
    }

    pub fn as_ref(&self) -> (r: Hoi4TextReader<&R>)
        ensures
            *r.inner() == self.inner(),
    {
        Hoi4TextReader(&self.0)
    }

    /// The reader, given back.
    pub fn into_inner(self) -> (r: R)
        ensures
            r == self.inner(),
    {
        self.0
    }
}

/// A save in the binary format, held in `R`.
#[derive(Debug, Clone)]
pub struct Hoi4Binary<R>(R);

impl<R> Hoi4Binary<R> {
    pub closed spec fn inner(&self) -> R {
        self.0
    }

    pub fn get_ref(&self) -> (r: &R)
        ensures
            *r == self.inner(),
    {
        &self.0
    }

    pub fn as_ref(&self) -> (r: Hoi4Binary<&R>)
        ensures
            *r.inner() == self.inner(),
    {
        Hoi4Binary(&self.0)
    }
}

impl<'a> Hoi4Binary<&'a [u8]> {
    /// Melts the binary body into text appended to `output`, as [`melt`] does.
    pub fn melt<F: FlavorText>(
        &self,
        options: MeltOptions,
        resolver: &jomini::binary::BasicTokenResolver,
        flavor: &F,
        output: &mut Vec<u8>,
    ) -> (r: Result<MeltedDocument, Hoi4Error>)
        ensures
            r matches Ok(doc) ==> melt_spec(self.inner()@, resolver_names(*resolver), options)
                == Ok::<(Seq<TextOp>, Set<u16>), MeltFault>((doc.writes(), doc.unknown())),
            melt_spec(self.inner()@, resolver_names(*resolver), options) is Ok <==> r is Ok,
            r matches Ok(doc) ==> final(output)@ == old(output)@ + rendered(
                doc.writes(),
                doc.float_texts(),
            ),
            r is Err ==> final(output)@ == old(output)@,
            r matches Err(e) ==> (fault_of(e@) matches Some(f) && melt_spec(
                self.inner()@,
                resolver_names(*resolver),
                options,
            ) == Err::<(Seq<TextOp>, Set<u16>), MeltFault>(f)),
            old(output)@.len() <= final(output)@.len(),
            final(output)@.subrange(0, old(output)@.len() as int) == old(output)@,
    {
        melt(self.0, output, resolver, options, flavor)
    }
}

} // verus!
