use vstd::prelude::*;

verus! {

#[verifier::external_type_specification]
#[verifier::external_body]
pub struct ExJominiError(jomini::Error);

#[verifier::external_type_specification]
#[verifier::external_body]
pub struct ExIoError(std::io::Error);

/// Specific type of error
#[derive(Debug)]
pub enum Hoi4ErrorKind {
    /// The underlying parser failed.
    Parse(jomini::Error),
    /// A typed record did not have the expected shape.
    Deserialize(jomini::Error),
    /// The text writer refused a write.
    Writer(jomini::Error),
    /// A binary token that the resolver does not know.
    UnknownToken { token_id: u16 },
    /// A message from the deserialization layer.
    DeserializeImpl { msg: String },
    /// A value written under a `date` key that decodes to no date.
    InvalidDate(i32),
    /// The first seven bytes name neither encoding.
    UnknownHeader,
    /// Reading or writing failed.
    Io(std::io::Error),
    /// The input ended inside a token.
    Eof,
}

/// A Hoi4 Error: the kind, boxed so that results stay one pointer wide.
#[derive(Debug)]
pub struct Hoi4Error(Box<Hoi4ErrorKind>);

impl View for Hoi4Error {
    type V = Hoi4ErrorKind;

    closed spec fn view(&self) -> Hoi4ErrorKind {
        *self.0
    }
}

impl Hoi4Error {
    /// Wraps an error kind.
    pub fn new(kind: Hoi4ErrorKind) -> (r: Hoi4Error)
        ensures
            r@ == kind,
    {
        Hoi4Error(Box::new(kind))
    }

    /// Return the specific type of error
    pub fn kind(&self) -> (r: &Hoi4ErrorKind)
        ensures
            *r == self@,
    {
        &self.0
    }

    /// The specific type of error, taken out.
    pub fn into_kind(self) -> (r: Hoi4ErrorKind)
        ensures
            r == self@,
    {
        *self.0
    }
}

impl From<Hoi4ErrorKind> for Hoi4Error {
    fn from(err: Hoi4ErrorKind) -> (r: Hoi4Error)
        ensures
            r@ == err,
    {
        Hoi4Error::new(err)
    }
}

impl vstd::std_specs::convert::FromSpecImpl<Hoi4ErrorKind> for Hoi4Error {
    open spec fn obeys_from_spec() -> bool {
        true
    }

    closed spec fn from_spec(v: Hoi4ErrorKind) -> Hoi4Error {
        Hoi4Error(Box::new(v))
    }
}

} // verus!
