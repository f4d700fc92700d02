use crate::errors::Hoi4ErrorKind;
use crate::flavor::FlavorText;
use vstd::prelude::*;

verus! {

#[verifier::external_type_specification]
#[verifier::external_body]
#[verifier::reject_recursive_types(W)]
pub struct ExTextWriter<W>(jomini::TextWriter<W>);

/// One write made to the text writer.
pub enum TextOp {
    /// `{`
    Start,
    /// `}`
    End,
    /// `=`
    Equal,
    Unquoted(Seq<u8>),
    Quoted(Seq<u8>),
    I32(i32),
    U32(u32),
    U64(u64),
    I64(i64),
    Bool(bool),
    /// A 32 bit flavored float, by its raw integer.
    F32(i32),
    /// A 64 bit flavored float, by its raw integer.
    F64(i64),
}

/// Where the text writer stands: what the next write will be.
#[derive(PartialEq, Eq, Structural)]
pub enum WriteState {
    /// A key of an object.
    Key,
    /// The value after `=`.
    ObjectValue,
    /// A value right after a key, with `=` put in between.
    KeyValueSeparator,
    /// An element of an array.
    ArrayValue,
    /// The first item after `{`: object or array is not known yet.
    FirstUnknown,
    /// The second item of such a container.
    SecondUnknown,
}

/// The text writer's state: where it stands, whether the current container
/// is an object, and for each open container whether the one around it is.
pub struct WriterModel {
    pub state: WriteState,
    pub in_object: bool,
    pub stack: Seq<bool>,
}

/// A writer that has written nothing: at a key of the top level object.
pub open spec fn fresh_model() -> WriterModel {
    WriterModel { state: WriteState::Key, in_object: true, stack: Seq::empty() }
}

/// Where the writer stands after writing a scalar.
pub open spec fn after_scalar(s: WriteState) -> WriteState {
    match s {
        WriteState::Key => WriteState::KeyValueSeparator,
        WriteState::ObjectValue => WriteState::Key,
        WriteState::KeyValueSeparator => WriteState::Key,
        WriteState::ArrayValue => WriteState::ArrayValue,
        WriteState::FirstUnknown => WriteState::SecondUnknown,
        WriteState::SecondUnknown => WriteState::ArrayValue,
    }
}

/// The writer's state after one more successful write.
pub open spec fn model_step(m: WriterModel, op: TextOp) -> WriterModel {
    match op {
        TextOp::Start => WriterModel {
            state: WriteState::FirstUnknown,
            in_object: false,
            stack: m.stack.push(m.in_object),
        },
        TextOp::End => if m.stack.len() == 0 {
            m
        } else {
            let outer = m.stack.last();
            WriterModel {
                state: if outer {
                    WriteState::Key
                } else {
                    WriteState::ArrayValue
                },
                in_object: outer,
                stack: m.stack.drop_last(),
            }
        },
        TextOp::Equal => WriterModel { state: WriteState::ObjectValue, in_object: true, ..m },
        _ => WriterModel { state: after_scalar(m.state), ..m },
    }
}

/// The state of a fresh writer after the successful `writes`.
pub open spec fn model_after(writes: Seq<TextOp>) -> WriterModel
    decreases writes.len(),
{
    if writes.len() == 0 {
        fresh_model()
    } else {
        model_step(model_after(writes.drop_last()), writes.last())
    }
}

/// Whether the writer takes a key next.
pub open spec fn expects_key_after(writes: Seq<TextOp>) -> bool {
    model_after(writes).state == WriteState::Key
}

/// Whether the writer stands just after a `{` whose kind is not known yet.
pub open spec fn unknown_start_after(writes: Seq<TextOp>) -> bool {
    model_after(writes).state == WriteState::FirstUnknown
}

/// How many containers the writer has open.
pub open spec fn depth_after(writes: Seq<TextOp>) -> nat {
    model_after(writes).stack.len()
}

/// The bytes that a fresh text writer (tab indented) produces from `writes`,
/// where the float writes, in order, write the texts `float_texts` as they are.
pub uninterp spec fn rendered(writes: Seq<TextOp>, float_texts: Seq<Seq<u8>>) -> Seq<u8>;

/// The text writer of a melt, with the writes it carried out and the texts of
/// the floats among them.
pub struct TextSink {
    wtr: jomini::TextWriter<Vec<u8>>,
    writes: Ghost<Seq<TextOp>>,
    floats: Ghost<Seq<Seq<u8>>>,
}

impl View for TextSink {
    type V = Seq<TextOp>;

    closed spec fn view(&self) -> Seq<TextOp> {
        self.writes@
    }
}

impl TextSink {
    /// The texts written for the float writes, in order.
    pub closed spec fn float_texts(&self) -> Seq<Seq<u8>> {
        self.floats@
    }
}

/// Relies on TextWriterBuilder (new, indent_char, indent_factor, from_writer) to
/// make a writer into a new buffer.
#[verifier::external_body]
fn new_writer(indent_char: u8, indent_factor: u8) -> jomini::TextWriter<Vec<u8>> {
    jomini::TextWriterBuilder::new().indent_char(indent_char).indent_factor(indent_factor).from_writer(
        Vec::new(),
    )
}

/// Relies on TextWriter::write_start to write `{`; the buffer never refuses
/// bytes, so it succeeds.
#[verifier::external_body]
fn writer_start(w: &mut jomini::TextWriter<Vec<u8>>) -> (r: Result<(), jomini::Error>)
    ensures
        r is Ok,
{
    w.write_start()
}

/// Relies on TextWriter::write_operator to write `=`; the buffer never refuses
/// bytes, so it succeeds.
#[verifier::external_body]
fn writer_equal(w: &mut jomini::TextWriter<Vec<u8>>) -> (r: Result<(), jomini::Error>)
    ensures
        r is Ok,
{
    w.write_operator(jomini::text::Operator::Equal)
}

/// Relies on TextWriter::write_unquoted to write bytes as they are; the buffer never refuses
/// bytes, so it succeeds.
#[verifier::external_body]
fn writer_unquoted(w: &mut jomini::TextWriter<Vec<u8>>, data: &[u8]) -> (r: Result<(), jomini::Error>)
    ensures
        r is Ok,
{
    w.write_unquoted(data)
}

/// Relies on TextWriter::write_quoted to write bytes in quotes; the buffer never refuses
/// bytes, so it succeeds.
#[verifier::external_body]
fn writer_quoted(w: &mut jomini::TextWriter<Vec<u8>>, data: &[u8]) -> (r: Result<(), jomini::Error>)
    ensures
        r is Ok,
{
    w.write_quoted(data)
}

/// Relies on TextWriter::write_i32 to write an integer; the buffer never refuses
/// bytes, so it succeeds.
#[verifier::external_body]
fn writer_i32(w: &mut jomini::TextWriter<Vec<u8>>, x: i32) -> (r: Result<(), jomini::Error>)
    ensures
        r is Ok,
{
    w.write_i32(x)
}

/// Relies on TextWriter::write_u32 to write an integer; the buffer never refuses
/// bytes, so it succeeds.
#[verifier::external_body]
fn writer_u32(w: &mut jomini::TextWriter<Vec<u8>>, x: u32) -> (r: Result<(), jomini::Error>)
    ensures
        r is Ok,
{
    w.write_u32(x)
}

/// Relies on TextWriter::write_u64 to write an integer; the buffer never refuses
/// bytes, so it succeeds.
#[verifier::external_body]
fn writer_u64(w: &mut jomini::TextWriter<Vec<u8>>, x: u64) -> (r: Result<(), jomini::Error>)
    ensures
        r is Ok,
{
    w.write_u64(x)
}

/// Relies on TextWriter::write_i64 to write an integer; the buffer never refuses
/// bytes, so it succeeds.
#[verifier::external_body]
fn writer_i64(w: &mut jomini::TextWriter<Vec<u8>>, x: i64) -> (r: Result<(), jomini::Error>)
    ensures
        r is Ok,
{
    w.write_i64(x)
}

/// Relies on TextWriter::write_bool to write `yes` or `no`; the buffer never refuses
/// bytes, so it succeeds.
#[verifier::external_body]
fn writer_bool(w: &mut jomini::TextWriter<Vec<u8>>, x: bool) -> (r: Result<(), jomini::Error>)
    ensures
        r is Ok,
{
    w.write_bool(x)
}

/// Relies on TextWriter::write_end: it fails exactly when no container is
/// open (its depth stack is empty), and then changes nothing. The sink's
/// writer received exactly the sink's writes.
#[verifier::external_body]
fn sink_end(s: &mut TextSink) -> (r: Result<(), jomini::Error>)
    ensures
        r is Ok <==> depth_after(old(s)@) > 0,
        final(s)@ == old(s)@,
        final(s).float_texts() == old(s).float_texts(),
{
    s.wtr.write_end()
}

/// Relies on TextWriter::into_inner: the buffer holds what the writer wrote
/// for the sink's writes.
#[verifier::external_body]
fn sink_bytes(s: TextSink) -> (r: Vec<u8>)
    ensures
        r@ == rendered(s@, s.float_texts()),
{
    s.wtr.into_inner()
}

/// Relies on TextWriter::expecting_key: true in the Key (and FirstKey) state;
/// the sink's writer received exactly the sink's writes.
#[verifier::external_body]
fn sink_expecting_key(s: &TextSink) -> (r: bool)
    ensures
        r == expects_key_after(s@),
{
    s.wtr.expecting_key()
}

/// Relies on TextWriter::at_unknown_start: true in the FirstUnknown state;
/// the sink's writer received exactly the sink's writes.
#[verifier::external_body]
fn sink_at_unknown_start(s: &TextSink) -> (r: bool)
    ensures
        r == unknown_start_after(s@),
{
    s.wtr.at_unknown_start()
}

impl TextSink {
    /// A writer that has received nothing, indenting by one tab (byte 9) per level.
    pub fn new() -> (r: TextSink)
        ensures
            r@ == Seq::<TextOp>::empty(),
            r.float_texts() == Seq::<Seq<u8>>::empty(),
    {
        TextSink { wtr: new_writer(9u8, 1u8), writes: Ghost(Seq::empty()), floats: Ghost(Seq::empty()) }
    }

    /// Whether the next write would be a key.
    pub fn expecting_key(&self) -> (r: bool)
        ensures
            r == expects_key_after(self@),
    {
        sink_expecting_key(self)
    }

    /// Whether the writer stands at the start of a container of unknown kind.
    pub fn at_unknown_start(&self) -> (r: bool)
        ensures
            r == unknown_start_after(self@),
    {
        sink_at_unknown_start(self)
    }

    /// The bytes written.
    pub fn into_bytes(self) -> (r: Vec<u8>)
        ensures
            r@ == rendered(self@, self.float_texts()),
    {
        sink_bytes(self)
    }

    /// Writes `{`.
    pub fn start(&mut self)
        ensures
            final(self)@ == old(self)@.push(TextOp::Start),
            final(self).float_texts() == old(self).float_texts(),
    {
        let _ = writer_start(&mut self.wtr);
        self.writes = Ghost(self.writes@.push(TextOp::Start));
    }

    /// Writes `=`.
    pub fn equal(&mut self)
        ensures
            final(self)@ == old(self)@.push(TextOp::Equal),
            final(self).float_texts() == old(self).float_texts(),
    {
        let _ = writer_equal(&mut self.wtr);
        self.writes = Ghost(self.writes@.push(TextOp::Equal));
    }

    /// Writes bytes as they are.
    pub fn unquoted(&mut self, data: &[u8])
        ensures
            final(self)@ == old(self)@.push(TextOp::Unquoted(data@)),
            final(self).float_texts() == old(self).float_texts(),
    {
        let _ = writer_unquoted(&mut self.wtr, data);
        self.writes = Ghost(self.writes@.push(TextOp::Unquoted(data@)));
    }

    /// Writes bytes in quotes.
    pub fn quoted(&mut self, data: &[u8])
        ensures
            final(self)@ == old(self)@.push(TextOp::Quoted(data@)),
            final(self).float_texts() == old(self).float_texts(),
    {
        let _ = writer_quoted(&mut self.wtr, data);
        self.writes = Ghost(self.writes@.push(TextOp::Quoted(data@)));
    }

    /// Writes an integer.
    pub fn i32(&mut self, x: i32)
        ensures
            final(self)@ == old(self)@.push(TextOp::I32(x)),
            final(self).float_texts() == old(self).float_texts(),
    {
        let _ = writer_i32(&mut self.wtr, x);
        self.writes = Ghost(self.writes@.push(TextOp::I32(x)));
    }

    /// Writes an integer.
    pub fn u32(&mut self, x: u32)
        ensures
            final(self)@ == old(self)@.push(TextOp::U32(x)),
            final(self).float_texts() == old(self).float_texts(),
    {
        let _ = writer_u32(&mut self.wtr, x);
        self.writes = Ghost(self.writes@.push(TextOp::U32(x)));
    }

    /// Writes an integer.
    pub fn u64(&mut self, x: u64)
        ensures
            final(self)@ == old(self)@.push(TextOp::U64(x)),
            final(self).float_texts() == old(self).float_texts(),
    {
        let _ = writer_u64(&mut self.wtr, x);
        self.writes = Ghost(self.writes@.push(TextOp::U64(x)));
    }

    /// Writes an integer.
    pub fn i64(&mut self, x: i64)
        ensures
            final(self)@ == old(self)@.push(TextOp::I64(x)),
            final(self).float_texts() == old(self).float_texts(),
    {
        let _ = writer_i64(&mut self.wtr, x);
        self.writes = Ghost(self.writes@.push(TextOp::I64(x)));
    }

    /// Writes `yes` or `no`.
    pub fn bool(&mut self, x: bool)
        ensures
            final(self)@ == old(self)@.push(TextOp::Bool(x)),
            final(self).float_texts() == old(self).float_texts(),
    {
        let _ = writer_bool(&mut self.wtr, x);
        self.writes = Ghost(self.writes@.push(TextOp::Bool(x)));
    }

    /// Writes `}`; fails, writing nothing, when no container is open.
    pub fn end(&mut self) -> (r: Result<(), Hoi4ErrorKind>)
        ensures
            r is Ok <==> depth_after(old(self)@) > 0,
            r is Ok ==> final(self)@ == old(self)@.push(TextOp::End),
            r is Err ==> final(self)@ == old(self)@,
            r matches Err(e) ==> e is Writer,
            final(self).float_texts() == old(self).float_texts(),
    {
        match sink_end(self) {
            Ok(()) => {
                self.writes = Ghost(self.writes@.push(TextOp::End));
                Ok(())
            },
            Err(e) => Err(Hoi4ErrorKind::Writer(e)),
        }
    }

    /// Writes a 32 bit flavored float as the flavor renders it.
    pub fn flavored32<F: FlavorText>(&mut self, flavor: &F, raw: i32)
        ensures
            final(self)@ == old(self)@.push(TextOp::F32(raw)),
            final(self).float_texts().len() == old(self).float_texts().len() + 1,
            final(self).float_texts().drop_last() == old(self).float_texts(),
    {
        let text = flavor.f32_text(raw);
        let _ = writer_unquoted(&mut self.wtr, text.as_slice());
        self.writes = Ghost(self.writes@.push(TextOp::F32(raw)));
        self.floats = Ghost(self.floats@.push(text@));
        assert(self.floats@.drop_last() =~= old(self).floats@);
    }

    /// Writes a 64 bit flavored float as the flavor renders it.
    pub fn flavored64<F: FlavorText>(&mut self, flavor: &F, raw: i64)
        ensures
            final(self)@ == old(self)@.push(TextOp::F64(raw)),
            final(self).float_texts().len() == old(self).float_texts().len() + 1,
            final(self).float_texts().drop_last() == old(self).float_texts(),
    {
        let text = flavor.f64_text(raw);
        let _ = writer_unquoted(&mut self.wtr, text.as_slice());
        self.writes = Ghost(self.writes@.push(TextOp::F64(raw)));
        self.floats = Ghost(self.floats@.push(text@));
        assert(self.floats@.drop_last() =~= old(self).floats@);
    }
}

} // verus!
