use crate::binary::{read_token, token_at, BinaryToken};
use crate::date::{date_from_binary, game_text, Date};
use crate::errors::{Hoi4Error, Hoi4ErrorKind};
use crate::flavor::FlavorText;
use crate::resolver::{resolve_name, resolver_names};
use crate::writer::{depth_after, expects_key_after, rendered, unknown_start_after, TextOp, TextSink};
use std::collections::HashSet;
use vstd::prelude::*;
use vstd::string::StringSliceAdditionalSpecFns;
use vstd::utf8::encode_utf8;

verus! {

broadcast use vstd::std_specs::hash::group_hash_axioms;

/// What to do with a token id that the resolver does not know.
#[derive(Debug, Clone, Copy, PartialEq, Eq, Structural)]
pub enum FailedResolveStrategy {
    /// Fail the melt.
    Error,
    /// Write `__unknown_0x<hex>` and record the id.
    Stringify,
    /// Drop it where it is a key (with its value); elsewhere as `Stringify`.
    Ignore,
}

/// Options of a melt.
#[derive(Debug, Clone, Copy, PartialEq, Eq, Structural)]
pub struct MeltOptions {
    pub verbatim: bool,
    pub on_failed_resolve: FailedResolveStrategy,
}

impl MeltOptions {
    /// Ironman keys elided, unknown tokens ignored.
    pub fn new() -> (r: MeltOptions)
        ensures
            r == (MeltOptions { verbatim: false, on_failed_resolve: FailedResolveStrategy::Ignore }),
    {
        MeltOptions { verbatim: false, on_failed_resolve: FailedResolveStrategy::Ignore }
    }

    /// Whether ironman keys are written as any other key.
    pub fn verbatim(self, verbatim: bool) -> (r: MeltOptions)
        ensures
            r == (MeltOptions { verbatim, ..self }),
    {
        MeltOptions { verbatim, ..self }
    }

    /// What to do with unknown tokens.
    pub fn on_failed_resolve(self, on_failed_resolve: FailedResolveStrategy) -> (r: MeltOptions)
        ensures
            r == (MeltOptions { on_failed_resolve, ..self }),
    {
        MeltOptions { on_failed_resolve, ..self }
    }
}

impl Default for MeltOptions {
    fn default() -> (r: MeltOptions)
        ensures
            r == (MeltOptions { verbatim: false, on_failed_resolve: FailedResolveStrategy::Ignore }),
    {
        MeltOptions::new()
    }
}

/// Output from melting a binary save to plaintext
pub struct MeltedDocument {
    unknown_tokens: HashSet<u16>,
    writes: Ghost<Seq<TextOp>>,
    float_texts: Ghost<Seq<Seq<u8>>>,
}

impl MeltedDocument {
    /// A document with no unknown tokens and no writes.
    pub fn new() -> (r: MeltedDocument)
        ensures
            r.unknown() == Set::<u16>::empty(),
            r.writes() == Seq::<TextOp>::empty(),
    {
        MeltedDocument {
            unknown_tokens: HashSet::new(),
            writes: Ghost(Seq::empty()),
            float_texts: Ghost(Seq::empty()),
        }
    }

    /// The writes to the text writer that made the melted body.
    pub closed spec fn writes(&self) -> Seq<TextOp> {
        self.writes@
    }

    /// The texts the flavor gave for the float writes, in order.
    pub closed spec fn float_texts(&self) -> Seq<Seq<u8>> {
        self.float_texts@
    }

    /// The spec view of the unknown tokens.
    pub closed spec fn unknown(&self) -> Set<u16> {
        self.unknown_tokens@
    }

    /// The list of unknown tokens that the provided resolver accumulated
    pub fn unknown_tokens(&self) -> (r: &HashSet<u16>)
        ensures
            r@ == self.unknown(),
    {
        &self.unknown_tokens
    }
}

impl Default for MeltedDocument {
    fn default() -> (r: MeltedDocument)
        ensures
            r.unknown() == Set::<u16>::empty(),
            r.writes() == Seq::<TextOp>::empty(),
    {
        MeltedDocument::new()
    }
}

/// How the melter passes over a key it drops together with its value.
#[derive(Debug, Clone, Copy, PartialEq, Eq, Structural)]
pub enum Skip {
    /// Nothing is being dropped.
    Off,
    /// A key was dropped; an `=` may follow.
    AwaitEqual,
    /// The value of a dropped key comes next.
    AwaitValue,
    /// Inside the container that is a dropped value, this many levels deep.
    Depth(usize),
}

/// The state a melt carries from one token to the next.
#[derive(Debug, Clone, Copy, PartialEq, Eq)]
pub struct MeltState {
    /// The last key names a number that is never a date.
    pub known_number: bool,
    /// The last key is `date`.
    pub known_date: bool,
    /// The last key is `save_version`.
    pub save_version: bool,
    /// Token `0x000d` carries an eight byte scaled integer.
    pub scaled: bool,
    /// A quoted string held back until it is known to be a key or a value.
    pub quoted: Option<(usize, usize)>,
    pub skip: Skip,
}

/// The state at the start of a melt.
pub open spec fn initial_state() -> MeltState {
    MeltState {
        known_number: false,
        known_date: false,
        save_version: false,
        scaled: false,
        quoted: None,
        skip: Skip::Off,
    }
}

/// Why a melt stops.
#[derive(Debug)]
pub enum MeltFault {
    Eof,
    /// A `}` with no container open.
    UnbalancedClose,
    UnknownToken(u16),
    InvalidDate(i32),
}

/// The result of one token.
pub enum Outcome {
    Fault(MeltFault),
    Next(MeltState, Seq<TextOp>, Set<u16>),
}

/// The fault that an error kind reports, if any.
pub open spec fn fault_of(e: Hoi4ErrorKind) -> Option<MeltFault> {
    match e {
        Hoi4ErrorKind::Eof => Some(MeltFault::Eof),
        Hoi4ErrorKind::UnknownToken { token_id } => Some(MeltFault::UnknownToken(token_id)),
        Hoi4ErrorKind::InvalidDate(x) => Some(MeltFault::InvalidDate(x)),
        Hoi4ErrorKind::Writer(_) => Some(MeltFault::UnbalancedClose),
        _ => None,
    }
}

/// The bytes of a text literal.
pub open spec fn lit(s: &str) -> Seq<u8> {
    s.spec_bytes()
}

/// Whether `s` ends with `suffix`.
pub open spec fn ends_with(s: Seq<u8>, suffix: Seq<u8>) -> bool {
    s.len() >= suffix.len() && s.subrange(s.len() - suffix.len(), s.len() as int) == suffix
}

/// Keys whose integer values are plain numbers, never dates.
pub open spec fn is_number_key(name: Seq<u8>) -> bool {
    ends_with(name, lit("seed")) || name == lit("total") || name == lit("available") || name
        == lit("locked")
}

/// Keys that mark an ironman save.
pub open spec fn is_ironman_key(name: Seq<u8>) -> bool {
    name == lit("is_ironman") || name == lit("ironman")
}

/// Token ids that only pad the stream.
pub open spec fn is_padding(id: u16) -> bool {
    id == 0 || id == 0xffff
}

/// The lowercase hexadecimal digits of `n`, without leading zeros.
pub open spec fn hex_digits(n: nat) -> Seq<u8>
    decreases n,
{
    if n < 16 {
        seq![hex_digit(n)]
    } else {
        hex_digits(n / 16).push(hex_digit(n % 16))
    }
}

/// The lowercase hexadecimal digit of `d`.
pub open spec fn hex_digit(d: nat) -> u8 {
    if d < 10 {
        (48 + d) as u8
    } else {
        (87 + d) as u8
    }
}

/// The text written for a token id that the resolver does not know.
pub open spec fn unknown_text(id: u16) -> Seq<u8> {
    lit("__unknown_0x") + hex_digits(id as nat)
}

/// Integer division rounding towards zero.
pub open spec fn truncated_div(x: int, d: int) -> int {
    if x < 0 {
        -((-x) / d)
    } else {
        x / d
    }
}

/// The write of a date.
pub open spec fn date_op(d: Date) -> TextOp {
    TextOp::Unquoted(encode_utf8(game_text(d)))
}

/// A 32 bit integer: a save version, a known number, a date or a number.
pub open spec fn on_int(
    x: i32,
    st: MeltState,
    ops: Seq<TextOp>,
    unk: Set<u16>,
    strategy: FailedResolveStrategy,
) -> Outcome {
    if st.save_version {
        Outcome::Next(MeltState { scaled: x >= 30, ..st }, ops.push(TextOp::I32(x)), unk)
    } else if st.known_number {
        Outcome::Next(MeltState { known_number: false, ..st }, ops.push(TextOp::I32(x)), unk)
    } else if st.known_date {
        let st2 = MeltState { known_date: false, ..st };
        match date_from_binary(x as int) {
            Some(d) => Outcome::Next(st2, ops.push(date_op(d)), unk),
            None => if strategy == FailedResolveStrategy::Error {
                Outcome::Fault(MeltFault::InvalidDate(x))
            } else {
                Outcome::Next(st2, ops.push(TextOp::I32(x)), unk)
            },
        }
    } else {
        match date_from_binary(x as int) {
            Some(d) => Outcome::Next(st, ops.push(date_op(d)), unk),
            None => Outcome::Next(st, ops.push(TextOp::I32(x)), unk),
        }
    }
}

/// An identifier token.
pub open spec fn on_id(
    id: u16,
    st: MeltState,
    ops: Seq<TextOp>,
    unk: Set<u16>,
    names: Map<u16, Seq<u8>>,
    options: MeltOptions,
) -> Outcome {
    let key = expects_key_after(ops);
    let dropped = MeltState { skip: Skip::AwaitEqual, ..st };
    if is_padding(id) {
        if key {
            Outcome::Next(dropped, ops, unk)
        } else {
            Outcome::Next(st, ops, unk)
        }
    } else if names.contains_key(id) {
        let name = names[id];
        if !options.verbatim && is_ironman_key(name) && key {
            Outcome::Next(dropped, ops, unk)
        } else {
            let st2 = if key {
                MeltState {
                    known_number: is_number_key(name),
                    known_date: name == lit("date"),
                    save_version: name == lit("save_version"),
                    ..st
                }
            } else {
                st
            };
            Outcome::Next(st2, ops.push(TextOp::Unquoted(name)), unk)
        }
    } else if options.on_failed_resolve == FailedResolveStrategy::Error {
        Outcome::Fault(MeltFault::UnknownToken(id))
    } else if options.on_failed_resolve == FailedResolveStrategy::Ignore && key {
        Outcome::Next(dropped, ops, unk)
    } else {
        Outcome::Next(st, ops.push(TextOp::Unquoted(unknown_text(id))), unk.insert(id))
    }
}

/// A token met while nothing is being dropped, after a held back quoted
/// string went out.
pub open spec fn on_live(
    s: Seq<u8>,
    tok: BinaryToken,
    st: MeltState,
    ops: Seq<TextOp>,
    unk: Set<u16>,
    names: Map<u16, Seq<u8>>,
    options: MeltOptions,
) -> Outcome {
    match tok {
        BinaryToken::Equal => Outcome::Next(st, ops.push(TextOp::Equal), unk),
        BinaryToken::Open => Outcome::Next(st, ops.push(TextOp::Start), unk),
        BinaryToken::Close => if depth_after(ops) == 0 {
            Outcome::Fault(MeltFault::UnbalancedClose)
        } else {
            Outcome::Next(st, ops.push(TextOp::End), unk)
        },
        BinaryToken::U32(x) => Outcome::Next(st, ops.push(TextOp::U32(x)), unk),
        BinaryToken::U64(x) => Outcome::Next(st, ops.push(TextOp::U64(x)), unk),
        BinaryToken::I64(x) => Outcome::Next(st, ops.push(TextOp::I64(x)), unk),
        BinaryToken::Bool(x) => Outcome::Next(st, ops.push(TextOp::Bool(x)), unk),
        BinaryToken::F32(x) => Outcome::Next(st, ops.push(TextOp::F32(x)), unk),
        BinaryToken::F64(x) => Outcome::Next(st, ops.push(TextOp::F64(x)), unk),
        BinaryToken::Scaled(x) => Outcome::Next(
            st,
            ops.push(TextOp::I64(truncated_div(x as int, 100000) as i64)),
            unk,
        ),
        BinaryToken::I32(x) => on_int(x, st, ops, unk, options.on_failed_resolve),
        BinaryToken::Unquoted(a, b) => Outcome::Next(
            st,
            ops.push(TextOp::Unquoted(s.subrange(a as int, b as int))),
            unk,
        ),
        BinaryToken::Quoted(a, b) => if unknown_start_after(ops) {
            Outcome::Next(MeltState { quoted: Some((a, b)), ..st }, ops, unk)
        } else if expects_key_after(ops) {
            Outcome::Next(st, ops.push(TextOp::Unquoted(s.subrange(a as int, b as int))), unk)
        } else {
            Outcome::Next(st, ops.push(TextOp::Quoted(s.subrange(a as int, b as int))), unk)
        },
        BinaryToken::Id(id) => on_id(id, st, ops, unk, names, options),
    }
}

/// The writes after a held back quoted string goes out before `tok`: bare
/// when `tok` is `=` (it was a key), quoted otherwise.
pub open spec fn flushed(s: Seq<u8>, tok: BinaryToken, st: MeltState, ops: Seq<TextOp>) -> Seq<
    TextOp,
> {
    match st.quoted {
        Some((a, b)) => if tok == BinaryToken::Equal {
            ops.push(TextOp::Unquoted(s.subrange(a as int, b as int)))
        } else {
            ops.push(TextOp::Quoted(s.subrange(a as int, b as int)))
        },
        None => ops,
    }
}

/// One token of the melt.
#[verifier::opaque]
pub open spec fn on_token(
    s: Seq<u8>,
    tok: BinaryToken,
    st: MeltState,
    ops: Seq<TextOp>,
    unk: Set<u16>,
    names: Map<u16, Seq<u8>>,
    options: MeltOptions,
) -> Outcome {
    match st.skip {
        Skip::AwaitEqual => if tok == BinaryToken::Equal {
            Outcome::Next(MeltState { skip: Skip::AwaitValue, ..st }, ops, unk)
        } else {
            on_live(s, tok, MeltState { skip: Skip::Off, ..st }, ops, unk, names, options)
        },
        Skip::AwaitValue => if tok == BinaryToken::Open {
            Outcome::Next(MeltState { skip: Skip::Depth(1), ..st }, ops, unk)
        } else {
            Outcome::Next(MeltState { skip: Skip::Off, ..st }, ops, unk)
        },
        Skip::Depth(n) => if tok == BinaryToken::Open {
            Outcome::Next(MeltState { skip: Skip::Depth((n + 1) as usize), ..st }, ops, unk)
        } else if tok == BinaryToken::Close {
            if n <= 1 {
                Outcome::Next(MeltState { skip: Skip::Off, ..st }, ops, unk)
            } else {
                Outcome::Next(MeltState { skip: Skip::Depth((n - 1) as usize), ..st }, ops, unk)
            }
        } else {
            Outcome::Next(st, ops, unk)
        },
        Skip::Off => on_live(
            s,
            tok,
            MeltState { quoted: None, ..st },
            flushed(s, tok, st, ops),
            unk,
            names,
            options,
        ),
    }
}

/// The melt of the tokens of `s` from `pos` on: the writes made and the
/// unknown tokens recorded, or why it stops.
pub open spec fn melt_run(
    s: Seq<u8>,
    pos: int,
    st: MeltState,
    ops: Seq<TextOp>,
    unk: Set<u16>,
    names: Map<u16, Seq<u8>>,
    options: MeltOptions,
) -> Result<(Seq<TextOp>, Set<u16>), MeltFault>
    decreases s.len() - pos,
{
    if pos >= s.len() {
        Ok((ops, unk))
    } else {
        match token_at(s, pos, st.scaled) {
            None => Err(MeltFault::Eof),
            Some((tok, next)) => match on_token(s, tok, st, ops, unk, names, options) {
                Outcome::Fault(f) => Err(f),
                Outcome::Next(st2, ops2, unk2) => if next > pos {
                    melt_run(s, next, st2, ops2, unk2, names, options)
                } else {
                    Ok((ops2, unk2))
                },
            },
        }
    }
}

/// The melt of a whole binary body.
pub open spec fn melt_spec(s: Seq<u8>, names: Map<u16, Seq<u8>>, options: MeltOptions) -> Result<
    (Seq<TextOp>, Set<u16>),
    MeltFault,
> {
    melt_run(s, 0, initial_state(), Seq::empty(), Set::empty(), names, options)
}

/// Whether the string ranges a token holds lie within `len` bytes.
pub open spec fn token_in_bounds(tok: BinaryToken, len: int) -> bool {
    match tok {
        BinaryToken::Quoted(a, b) => a <= b <= len,
        BinaryToken::Unquoted(a, b) => a <= b <= len,
        _ => true,
    }
}

/// Whether a held back quoted string lies within `len` bytes.
pub open spec fn state_in_bounds(st: MeltState, len: int) -> bool {
    &&& (st.quoted matches Some((a, b)) ==> a <= b <= len)
    &&& (st.skip matches Skip::Depth(n) ==> n <= len)
}

proof fn lemma_token_bounds(s: Seq<u8>, pos: int, scaled: bool)
    requires
        token_at(s, pos, scaled) is Some,
        s.len() <= usize::MAX,
    ensures
        token_in_bounds(token_at(s, pos, scaled).unwrap().0, s.len() as int),
        pos + 2 <= token_at(s, pos, scaled).unwrap().1 <= s.len(),
{
}

/// Whether two byte strings are equal.
pub(crate) fn bytes_eq(a: &[u8], b: &[u8]) -> (r: bool)
    ensures
        r == (a@ == b@),
{
    if a.len() != b.len() {
        return false;
    }
    let mut i: usize = 0;
    while i < a.len()
        invariant
            a@.len() == b@.len(),
            i <= a@.len(),
            forall|k: int| 0 <= k < i ==> a@[k] == b@[k],
        decreases a@.len() - i,
    {
        if a[i] != b[i] {
            return false;
        }
        i = i + 1;
    }
    assert(a@ =~= b@);
    true
}

/// Whether `a` ends with `b`.
fn bytes_ends_with(a: &[u8], b: &[u8]) -> (r: bool)
    ensures
        r == ends_with(a@, b@),
{
    if a.len() < b.len() {
        return false;
    }
    let tail = vstd::slice::slice_subrange(a, a.len() - b.len(), a.len());
    bytes_eq(tail, b)
}

/// Whether the key names a plain number.
fn is_number_key_exec(name: &[u8]) -> (r: bool)
    ensures
        r == is_number_key(name@),
{
    bytes_ends_with(name, "seed".as_bytes()) || bytes_eq(name, "total".as_bytes()) || bytes_eq(
        name,
        "available".as_bytes(),
    ) || bytes_eq(name, "locked".as_bytes())
}

/// Appends the lowercase hexadecimal digits of `n`.
fn push_hex(v: &mut Vec<u8>, n: u16)
    ensures
        final(v)@ == old(v)@ + hex_digits(n as nat),
    decreases n,
{
    let ghost start = v@;
    if n >= 16 {
        push_hex(v, n / 16);
    }
    let d = (n % 16) as u8;
    if d < 10 {
        v.push(48 + d);
    } else {
        v.push(87 + d);
    }
    assert(v@ =~= start + hex_digits(n as nat));
}

/// The text written for a token id that the resolver does not know.
fn unknown_name(id: u16) -> (r: Vec<u8>)
    ensures
        r@ == unknown_text(id),
{
    let mut v = vstd::slice::slice_to_vec("__unknown_0x".as_bytes());
    push_hex(&mut v, id);
    v
}

/// Writes a 32 bit integer as `on_int` says.
fn melt_int(
    x: i32,
    st: MeltState,
    sink: &mut TextSink,
    Ghost(unk): Ghost<Set<u16>>,
    strategy: FailedResolveStrategy,
) -> (r: Result<MeltState, Hoi4ErrorKind>)
    ensures
        r matches Ok(st2) ==> on_int(x, st, old(sink)@, unk, strategy) == Outcome::Next(
            st2,
            final(sink)@,
            unk,
        ),
        r matches Err(e) ==> (fault_of(e) matches Some(f) && on_int(
            x,
            st,
            old(sink)@,
            unk,
            strategy,
        ) == Outcome::Fault(f)),
        r matches Ok(st2) ==> st2.quoted == st.quoted && st2.skip == st.skip,
{
    if st.save_version {
        sink.i32(x);
        Ok(MeltState { scaled: x >= 30, ..st })
    } else if st.known_number {
        sink.i32(x);
        Ok(MeltState { known_number: false, ..st })
    } else if st.known_date {
        match Date::from_binary(x) {
            Some(d) => {
                let text = d.game_fmt();
                sink.unquoted(text.as_str().as_bytes());
            },
            None => {
                if strategy == FailedResolveStrategy::Error {
                    return Err(Hoi4ErrorKind::InvalidDate(x));
                }
                sink.i32(x);
            },
        }
        Ok(MeltState { known_date: false, ..st })
    } else {
        match Date::from_binary_heuristic(x) {
            Some(d) => {
                let text = d.game_fmt();
                sink.unquoted(text.as_str().as_bytes());
            },
            None => {
                sink.i32(x);
            },
        }
        Ok(st)
    }
}

/// Writes an identifier token as `on_id` says.
fn melt_id(
    id: u16,
    st: MeltState,
    sink: &mut TextSink,
    unknown: &mut HashSet<u16>,
    resolver: &jomini::binary::BasicTokenResolver,
    options: MeltOptions,
) -> (r: Result<MeltState, Hoi4ErrorKind>)
    ensures
        r matches Ok(st2) ==> on_id(
            id,
            st,
            old(sink)@,
            old(unknown)@,
            resolver_names(*resolver),
            options,
        ) == Outcome::Next(st2, final(sink)@, final(unknown)@),
        r matches Err(e) ==> (fault_of(e) matches Some(f) && on_id(
            id,
            st,
            old(sink)@,
            old(unknown)@,
            resolver_names(*resolver),
            options,
        ) == Outcome::Fault(f)),
        r matches Ok(st2) ==> st2.quoted == st.quoted && (st2.skip == st.skip || st2.skip
            == Skip::AwaitEqual),
{
    let key = sink.expecting_key();
    let dropped = MeltState { skip: Skip::AwaitEqual, ..st };
    if id == 0 || id == 0xffff {
        return Ok(if key { dropped } else { st });
    }
    match resolve_name(resolver, id) {
        Some(name) => {
            if !options.verbatim && (bytes_eq(name, "is_ironman".as_bytes()) || bytes_eq(
                name,
                "ironman".as_bytes(),
            )) && key {
                return Ok(dropped);
            }
            sink.unquoted(name);
            if key {
                let known_number = is_number_key_exec(name);
                let known_date = bytes_eq(name, "date".as_bytes());
                let save_version = bytes_eq(name, "save_version".as_bytes());
                Ok(MeltState { known_number, known_date, save_version, ..st })
            } else {
                Ok(st)
            }
        },
        None => {
            if options.on_failed_resolve == FailedResolveStrategy::Error {
                return Err(Hoi4ErrorKind::UnknownToken { token_id: id });
            }
            if options.on_failed_resolve == FailedResolveStrategy::Ignore && key {
                return Ok(dropped);
            }
            unknown.insert(id);
            let text = unknown_name(id);
            sink.unquoted(text.as_slice());
            Ok(st)
        },
    }
}

/// Writes a token met while nothing is being dropped, as `on_live` says.
fn melt_live<F: FlavorText>(
    data: &[u8],
    tok: BinaryToken,
    st: MeltState,
    sink: &mut TextSink,
    unknown: &mut HashSet<u16>,
    resolver: &jomini::binary::BasicTokenResolver,
    options: MeltOptions,
    flavor: &F,
) -> (r: Result<MeltState, Hoi4ErrorKind>)
    requires
        token_in_bounds(tok, data@.len() as int),
    ensures
        r matches Ok(st2) ==> on_live(
            data@,
            tok,
            st,
            old(sink)@,
            old(unknown)@,
            resolver_names(*resolver),
            options,
        ) == Outcome::Next(st2, final(sink)@, final(unknown)@),
        r matches Err(e) ==> (fault_of(e) matches Some(f) && on_live(
            data@,
            tok,
            st,
            old(sink)@,
            old(unknown)@,
            resolver_names(*resolver),
            options,
        ) == Outcome::Fault(f)),
        r matches Ok(st2) ==> (st2.quoted == st.quoted || (tok matches BinaryToken::Quoted(a, b)
            && st2.quoted == Some((a, b)))),
        r matches Ok(st2) ==> (st2.skip == st.skip || st2.skip == Skip::AwaitEqual),
{
    match tok {
        BinaryToken::Equal => {
            sink.equal();
            Ok(st)
        },
        BinaryToken::Open => {
            sink.start();
            Ok(st)
        },
        BinaryToken::Close => {
            sink.end()?;
            Ok(st)
        },
        BinaryToken::U32(x) => {
            sink.u32(x);
            Ok(st)
        },
        BinaryToken::U64(x) => {
            sink.u64(x);
            Ok(st)
        },
        BinaryToken::I64(x) => {
            sink.i64(x);
            Ok(st)
        },
        BinaryToken::Bool(x) => {
            sink.bool(x);
            Ok(st)
        },
        BinaryToken::F32(x) => {
            sink.flavored32(flavor, x);
            Ok(st)
        },
        BinaryToken::F64(x) => {
            sink.flavored64(flavor, x);
            Ok(st)
        },
        BinaryToken::Scaled(x) => {
            let q: i64 = if x < 0 {
                -(((-(x as i128)) / 100000) as i64)
            } else {
                x / 100000
            };
            sink.i64(q);
            Ok(st)
        },
        BinaryToken::I32(x) => melt_int(x, st, sink, Ghost(unknown@), options.on_failed_resolve),
        BinaryToken::Unquoted(a, b) => {
            sink.unquoted(vstd::slice::slice_subrange(data, a, b));
            Ok(st)
        },
        BinaryToken::Quoted(a, b) => {
            if sink.at_unknown_start() {
                Ok(MeltState { quoted: Some((a, b)), ..st })
            } else if sink.expecting_key() {
                sink.unquoted(vstd::slice::slice_subrange(data, a, b));
                Ok(st)
            } else {
                sink.quoted(vstd::slice::slice_subrange(data, a, b));
                Ok(st)
            }
        },
        BinaryToken::Id(id) => melt_id(id, st, sink, unknown, resolver, options),
    }
}

/// Handles one token as `on_token` says.
fn melt_token<F: FlavorText>(
    data: &[u8],
    tok: BinaryToken,
    st: MeltState,
    sink: &mut TextSink,
    unknown: &mut HashSet<u16>,
    resolver: &jomini::binary::BasicTokenResolver,
    options: MeltOptions,
    flavor: &F,
) -> (r: Result<MeltState, Hoi4ErrorKind>)
    requires
        token_in_bounds(tok, data@.len() as int),
        state_in_bounds(st, data@.len() as int),
        st.skip matches Skip::Depth(n) ==> n < data@.len(),
        0 < data@.len() <= usize::MAX,
    ensures
        r matches Ok(st2) ==> on_token(
            data@,
            tok,
            st,
            old(sink)@,
            old(unknown)@,
            resolver_names(*resolver),
            options,
        ) == Outcome::Next(st2, final(sink)@, final(unknown)@),
        r matches Err(e) ==> (fault_of(e) matches Some(f) && on_token(
            data@,
            tok,
            st,
            old(sink)@,
            old(unknown)@,
            resolver_names(*resolver),
            options,
        ) == Outcome::Fault(f)),
        r matches Ok(st2) ==> state_in_bounds(st2, data@.len() as int),
        r matches Ok(st2) ==> (st2.skip matches Skip::Depth(m) ==> m <= 1 + match st.skip {
            Skip::Depth(n) => n as int,
            _ => 0,
        }),
{
    proof {
        reveal(on_token);
    }
    match st.skip {
        Skip::AwaitEqual => {
            if tok == BinaryToken::Equal {
                Ok(MeltState { skip: Skip::AwaitValue, ..st })
            } else {
                melt_live(
                    data,
                    tok,
                    MeltState { skip: Skip::Off, ..st },
                    sink,
                    unknown,
                    resolver,
                    options,
                    flavor,
                )
            }
        },
        Skip::AwaitValue => {
            if tok == BinaryToken::Open {
                Ok(MeltState { skip: Skip::Depth(1), ..st })
            } else {
                Ok(MeltState { skip: Skip::Off, ..st })
            }
        },
        Skip::Depth(n) => {
            if tok == BinaryToken::Open {
                Ok(MeltState { skip: Skip::Depth(n + 1), ..st })
            } else if tok == BinaryToken::Close {
                if n <= 1 {
                    Ok(MeltState { skip: Skip::Off, ..st })
                } else {
                    Ok(MeltState { skip: Skip::Depth(n - 1), ..st })
                }
            } else {
                Ok(st)
            }
        },
        Skip::Off => {
            if let Some((a, b)) = st.quoted {
                let text = vstd::slice::slice_subrange(data, a, b);
                if tok == BinaryToken::Equal {
                    sink.unquoted(text);
                } else {
                    sink.quoted(text);
                }
            }
            melt_live(
                data,
                tok,
                MeltState { quoted: None, ..st },
                sink,
                unknown,
                resolver,
                options,
                flavor,
            )
        },
    }
}

/// Melts a binary body (the bytes after the header) into text, appended to
/// `output`. Floats are written as `flavor` renders them. The melt succeeds
/// exactly when `melt_spec` does, and otherwise fails with its fault and
/// leaves `output` as it was.
pub fn melt<F: FlavorText>(
    input: &[u8],
    output: &mut Vec<u8>,
    resolver: &jomini::binary::BasicTokenResolver,
    options: MeltOptions,
    flavor: &F,
) -> (r: Result<MeltedDocument, Hoi4Error>)
    ensures
        melt_spec(input@, resolver_names(*resolver), options) is Ok <==> r is Ok,
        r matches Ok(doc) ==> melt_spec(input@, resolver_names(*resolver), options) == Ok::<
            (Seq<TextOp>, Set<u16>),
            MeltFault,
        >((doc.writes(), doc.unknown())),
        r matches Ok(doc) ==> final(output)@ == old(output)@ + rendered(
            doc.writes(),
            doc.float_texts(),
        ),
        r matches Err(e) ==> (fault_of(e@) matches Some(f) && melt_spec(
            input@,
            resolver_names(*resolver),
            options,
        ) == Err::<(Seq<TextOp>, Set<u16>), MeltFault>(f)),
        r is Err ==> final(output)@ == old(output)@,
{
    let ghost names = resolver_names(*resolver);
    let mut sink = TextSink::new();
    let mut unknown: HashSet<u16> = HashSet::new();
    let mut st = MeltState {
        known_number: false,
        known_date: false,
        save_version: false,
        scaled: false,
        quoted: None,
        skip: Skip::Off,
    };
    let mut pos: usize = 0;
    while pos < input.len()
        invariant
            names == resolver_names(*resolver),
            pos <= input@.len(),
            state_in_bounds(st, input@.len() as int),
            st.skip matches Skip::Depth(n) ==> n <= pos,
            melt_run(input@, pos as int, st, sink@, unknown@, names, options) == melt_spec(
                input@,
                names,
                options,
            ),
        decreases input@.len() - pos,
    {
        match read_token(input, pos, st.scaled) {
            None => {
                assert(melt_run(input@, pos as int, st, sink@, unknown@, names, options) == Err::<
                    (Seq<TextOp>, Set<u16>),
                    MeltFault,
                >(MeltFault::Eof));
                return Err(Hoi4Error::new(Hoi4ErrorKind::Eof));
            },
            Some((tok, next)) => {
                proof {
                    lemma_token_bounds(input@, pos as int, st.scaled);
                }
                let ghost ops0 = sink@;
                let ghost unk0 = unknown@;
                let ghost st0 = st;
                let ghost pos0 = pos;
                match melt_token(input, tok, st, &mut sink, &mut unknown, resolver, options, flavor) {
                    Ok(st2) => {
                        st = st2;
                        pos = next;
                        assert(token_at(input@, pos0 as int, st0.scaled) == Some((tok, next as int)));
                        assert(next as int > pos0 as int);
                        assert(melt_run(input@, pos0 as int, st0, ops0, unk0, names, options)
                            == melt_run(input@, pos as int, st, sink@, unknown@, names, options));
                    },
                    Err(e) => {
                        assert(melt_run(input@, pos0 as int, st0, ops0, unk0, names, options)
                            == Err::<(Seq<TextOp>, Set<u16>), MeltFault>(fault_of(e).unwrap()));
                        return Err(Hoi4Error::new(e));
                    },
                }
            },
        }
    }
    let ghost writes = sink@;
    let ghost floats = sink.float_texts();
    let bytes = sink.into_bytes();
    let ghost before = output@;
    output.extend_from_slice(bytes.as_slice());
    Ok(MeltedDocument { unknown_tokens: unknown, writes: Ghost(writes), float_texts: Ghost(floats) })
}

} // verus!
