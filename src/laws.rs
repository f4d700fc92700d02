use crate::binary::{token_at, BinaryToken};
use crate::melt::{
    is_ironman_key, is_padding, Skip,
    flushed, melt_run, melt_spec, on_id, on_int, on_live, on_token, unknown_text,
    FailedResolveStrategy, MeltFault, MeltOptions, MeltState, Outcome,
};
use crate::writer::{expects_key_after, TextOp};
use vstd::prelude::*;

verus! {

/// The writes after a token that did not stop the melt.
pub open spec fn next_ops(o: Outcome) -> Seq<TextOp> {
    match o {
        Outcome::Next(_, ops, _) => ops,
        Outcome::Fault(_) => Seq::empty(),
    }
}

/// The unknown tokens after a token that did not stop the melt.
pub open spec fn next_unknown(o: Outcome) -> Set<u16> {
    match o {
        Outcome::Next(_, _, unk) => unk,
        Outcome::Fault(_) => Set::empty(),
    }
}

/// `a` is a prefix of `b`.
pub open spec fn extends(a: Seq<TextOp>, b: Seq<TextOp>) -> bool {
    a.len() <= b.len() && b.take(a.len() as int) == a
}

/// Token `id` was written as `__unknown_0x<hex>` at some write `i`; under
/// `Ignore` only where the writer expected no key.
pub open spec fn written_as_unknown(
    ops: Seq<TextOp>,
    id: u16,
    strategy: FailedResolveStrategy,
) -> bool {
    exists|i: int| #[trigger] unknown_at(ops, id, strategy, i)
}

/// Write `i` is `__unknown_0x<hex>` for `id`; under `Ignore` the writer
/// expected no key there.
pub open spec fn unknown_at(
    ops: Seq<TextOp>,
    id: u16,
    strategy: FailedResolveStrategy,
    i: int,
) -> bool {
    &&& 0 <= i < ops.len()
    &&& ops[i] == TextOp::Unquoted(unknown_text(id))
    &&& strategy == FailedResolveStrategy::Ignore ==> !expects_key_after(ops.take(i))
}

/// What holds of the unknown tokens a melt has recorded so far.
pub open spec fn recorded_well(
    ops: Seq<TextOp>,
    unk: Set<u16>,
    names: Map<u16, Seq<u8>>,
    strategy: FailedResolveStrategy,
) -> bool {
    &&& strategy == FailedResolveStrategy::Error ==> unk == Set::<u16>::empty()
    &&& forall|id: u16|
        #[trigger] unk.contains(id) ==> !names.contains_key(id) && written_as_unknown(
            ops,
            id,
            strategy,
        )
}

proof fn lemma_extends_keeps(
    ops: Seq<TextOp>,
    ops2: Seq<TextOp>,
    unk: Set<u16>,
    names: Map<u16, Seq<u8>>,
    strategy: FailedResolveStrategy,
)
    requires
        extends(ops, ops2),
        recorded_well(ops, unk, names, strategy),
    ensures
        recorded_well(ops2, unk, names, strategy),
{
    assert forall|id: u16| #[trigger] unk.contains(id) implies written_as_unknown(
        ops2,
        id,
        strategy,
    ) by {
        assert(written_as_unknown(ops, id, strategy));
        let i = choose|i: int| unknown_at(ops, id, strategy, i);
        assert(ops2.take(ops.len() as int)[i] == ops2[i]);
        assert(ops2[i] == ops[i]);
        assert(ops2.take(i) =~= ops2.take(ops.len() as int).take(i));
        assert(ops2.take(i) =~= ops.take(i));
        assert(unknown_at(ops2, id, strategy, i));
    }
}

proof fn lemma_push_extends(ops: Seq<TextOp>, op: TextOp)
    ensures
        extends(ops, ops.push(op)),
{
    assert(ops.push(op).take(ops.len() as int) =~= ops);
}

proof fn lemma_extends_refl(ops: Seq<TextOp>)
    ensures
        extends(ops, ops),
{
    assert(ops.take(ops.len() as int) =~= ops);
}

proof fn lemma_extends_trans(a: Seq<TextOp>, b: Seq<TextOp>, c: Seq<TextOp>)
    requires
        extends(a, b),
        extends(b, c),
    ensures
        extends(a, c),
{
    assert(c.take(a.len() as int) =~= b.take(a.len() as int));
}

proof fn lemma_on_live_records(
    s: Seq<u8>,
    tok: BinaryToken,
    st: MeltState,
    ops: Seq<TextOp>,
    unk: Set<u16>,
    names: Map<u16, Seq<u8>>,
    options: MeltOptions,
)
    requires
        recorded_well(ops, unk, names, options.on_failed_resolve),
        on_live(s, tok, st, ops, unk, names, options) is Next,
    ensures
        extends(ops, next_ops(on_live(s, tok, st, ops, unk, names, options))),
        recorded_well(
            next_ops(on_live(s, tok, st, ops, unk, names, options)),
            next_unknown(on_live(s, tok, st, ops, unk, names, options)),
            names,
            options.on_failed_resolve,
        ),
{
    let strategy = options.on_failed_resolve;
    let ops2 = next_ops(on_live(s, tok, st, ops, unk, names, options));
    let unk2 = next_unknown(on_live(s, tok, st, ops, unk, names, options));
    if ops2 == ops {
        lemma_extends_refl(ops);
    } else {
        assert(ops2.len() == ops.len() + 1 && ops2 == ops.push(ops2.last())) by {
            match tok {
                BinaryToken::I32(x) => {
                    assert(on_int(x, st, ops, unk, strategy) is Next);
                },
                BinaryToken::Id(id) => {
                    assert(on_id(id, st, ops, unk, names, options) is Next);
                },
                _ => {},
            }
        }
        lemma_push_extends(ops, ops2.last());
    }
    lemma_extends_keeps(ops, ops2, unk, names, strategy);
    if unk2 != unk {
        let id = match tok {
            BinaryToken::Id(id) => id,
            _ => 0,
        };
        assert(unk2 == unk.insert(id));
        assert(!names.contains_key(id));
        assert(ops2 == ops.push(TextOp::Unquoted(unknown_text(id))));
        assert(ops2.take(ops.len() as int) =~= ops);
        assert(strategy == FailedResolveStrategy::Ignore ==> !expects_key_after(ops));
        assert(written_as_unknown(ops2, id, strategy)) by {
            let i = ops.len() as int;
            assert(ops2[i] == TextOp::Unquoted(unknown_text(id)));
            assert(ops2.take(i) == ops);
            assert(unknown_at(ops2, id, strategy, i));
        }
        assert(strategy != FailedResolveStrategy::Error);
    }
}

proof fn lemma_on_token_records(
    s: Seq<u8>,
    tok: BinaryToken,
    st: MeltState,
    ops: Seq<TextOp>,
    unk: Set<u16>,
    names: Map<u16, Seq<u8>>,
    options: MeltOptions,
)
    requires
        recorded_well(ops, unk, names, options.on_failed_resolve),
        on_token(s, tok, st, ops, unk, names, options) is Next,
    ensures
        extends(ops, next_ops(on_token(s, tok, st, ops, unk, names, options))),
        recorded_well(
            next_ops(on_token(s, tok, st, ops, unk, names, options)),
            next_unknown(on_token(s, tok, st, ops, unk, names, options)),
            names,
            options.on_failed_resolve,
        ),
{
    reveal(on_token);
    let strategy = options.on_failed_resolve;
    lemma_extends_refl(ops);
    match st.skip {
        crate::melt::Skip::Off => {
            let f = flushed(s, tok, st, ops);
            if f != ops {
                lemma_push_extends(ops, f.last());
                assert(f == ops.push(f.last()));
            }
            lemma_extends_keeps(ops, f, unk, names, strategy);
            let st1 = MeltState { quoted: None, ..st };
            lemma_on_live_records(s, tok, st1, f, unk, names, options);
            lemma_extends_trans(ops, f, next_ops(on_live(s, tok, st1, f, unk, names, options)));
        },
        crate::melt::Skip::AwaitEqual => {
            if tok != BinaryToken::Equal {
                let st1 = MeltState { skip: crate::melt::Skip::Off, ..st };
                lemma_on_live_records(s, tok, st1, ops, unk, names, options);
            }
        },
        _ => {},
    }
}

/// The unknown tokens recorded from `pos` on keep `recorded_well`.
proof fn lemma_run_records(
    s: Seq<u8>,
    pos: int,
    st: MeltState,
    ops: Seq<TextOp>,
    unk: Set<u16>,
    names: Map<u16, Seq<u8>>,
    options: MeltOptions,
)
    requires
        recorded_well(ops, unk, names, options.on_failed_resolve),
        melt_run(s, pos, st, ops, unk, names, options) is Ok,
    ensures
        ({
            let (ops2, unk2) = melt_run(s, pos, st, ops, unk, names, options).unwrap();
            recorded_well(ops2, unk2, names, options.on_failed_resolve)
        }),
    decreases s.len() - pos,
{
    if pos < s.len() {
        let (tok, next) = token_at(s, pos, st.scaled).unwrap();
        lemma_on_token_records(s, tok, st, ops, unk, names, options);
        if let Outcome::Next(st2, ops2, unk2) = on_token(s, tok, st, ops, unk, names, options) {
            if next > pos {
                lemma_run_records(s, next, st2, ops2, unk2, names, options);
            }
        }
    }
}

proof fn lemma_melt_records(s: Seq<u8>, names: Map<u16, Seq<u8>>, options: MeltOptions)
    requires
        melt_spec(s, names, options) is Ok,
    ensures
        recorded_well(
            melt_spec(s, names, options).unwrap().0,
            melt_spec(s, names, options).unwrap().1,
            names,
            options.on_failed_resolve,
        ),
{
    assert(recorded_well(Seq::empty(), Set::empty(), names, options.on_failed_resolve));
    lemma_run_records(
        s,
        0,
        crate::melt::initial_state(),
        Seq::empty(),
        Set::empty(),
        names,
        options,
    );
}

/// Under `Error`, a melt that succeeds records no unknown token.
pub proof fn lemma_error_policy_records_nothing(
    s: Seq<u8>,
    names: Map<u16, Seq<u8>>,
    options: MeltOptions,
)
    requires
        options.on_failed_resolve == FailedResolveStrategy::Error,
        melt_spec(s, names, options) is Ok,
    ensures
        melt_spec(s, names, options).unwrap().1 == Set::<u16>::empty(),
{
    lemma_melt_records(s, names, options);
}

/// Under `Stringify`, every recorded unknown token is one the resolver does
/// not know, and the melt wrote it as `__unknown_0x<hex>`.
pub proof fn lemma_stringify_writes_recorded(
    s: Seq<u8>,
    names: Map<u16, Seq<u8>>,
    options: MeltOptions,
    id: u16,
)
    requires
        options.on_failed_resolve == FailedResolveStrategy::Stringify,
        melt_spec(s, names, options) is Ok,
        melt_spec(s, names, options).unwrap().1.contains(id),
    ensures
        !names.contains_key(id),
        melt_spec(s, names, options).unwrap().0.contains(TextOp::Unquoted(unknown_text(id))),
{
    lemma_melt_records(s, names, options);
    let ops = melt_spec(s, names, options).unwrap().0;
    assert(written_as_unknown(ops, id, options.on_failed_resolve));
    let i = choose|i: int| unknown_at(ops, id, options.on_failed_resolve, i);
    assert(ops[i] == TextOp::Unquoted(unknown_text(id)));
}

/// Under `Ignore`, no unknown token in key position is recorded: each
/// recorded one was written where the writer expected a value.
pub proof fn lemma_ignore_records_no_key(
    s: Seq<u8>,
    names: Map<u16, Seq<u8>>,
    options: MeltOptions,
    id: u16,
)
    requires
        options.on_failed_resolve == FailedResolveStrategy::Ignore,
        melt_spec(s, names, options) is Ok,
        melt_spec(s, names, options).unwrap().1.contains(id),
    ensures
        !names.contains_key(id),
        exists|i: int|
            0 <= i < melt_spec(s, names, options).unwrap().0.len() && melt_spec(
                s,
                names,
                options,
            ).unwrap().0[i] == TextOp::Unquoted(unknown_text(id)) && !expects_key_after(
                #[trigger] melt_spec(s, names, options).unwrap().0.take(i),
            ),
{
    lemma_melt_records(s, names, options);
    let ops = melt_spec(s, names, options).unwrap().0;
    assert(written_as_unknown(ops, id, options.on_failed_resolve));
    let i = choose|i: int| unknown_at(ops, id, options.on_failed_resolve, i);
    assert(ops.take(i) == melt_spec(s, names, options).unwrap().0.take(i));
}

proof fn lemma_unknown_fault_token(
    s: Seq<u8>,
    tok: BinaryToken,
    st: MeltState,
    ops: Seq<TextOp>,
    unk: Set<u16>,
    names: Map<u16, Seq<u8>>,
    options: MeltOptions,
    id: u16,
)
    requires
        on_token(s, tok, st, ops, unk, names, options) == Outcome::Fault(
            MeltFault::UnknownToken(id),
        ),
    ensures
        !names.contains_key(id),
        options.on_failed_resolve == FailedResolveStrategy::Error,
{
    reveal(on_token);
}

/// A melt that stops at an unknown token stops only under `Error`, and only
/// at a token the resolver does not know; so under `Error` a body whose
/// identifiers all resolve never fails for an unknown token.
pub proof fn lemma_unknown_token_fault(
    s: Seq<u8>,
    names: Map<u16, Seq<u8>>,
    options: MeltOptions,
    id: u16,
)
    requires
        melt_spec(s, names, options) == Err::<(Seq<TextOp>, Set<u16>), MeltFault>(
            MeltFault::UnknownToken(id),
        ),
    ensures
        !names.contains_key(id),
        options.on_failed_resolve == FailedResolveStrategy::Error,
{
    lemma_run_unknown_fault(
        s,
        0,
        crate::melt::initial_state(),
        Seq::empty(),
        Set::empty(),
        names,
        options,
        id,
    );
}

proof fn lemma_run_unknown_fault(
    s: Seq<u8>,
    pos: int,
    st: MeltState,
    ops: Seq<TextOp>,
    unk: Set<u16>,
    names: Map<u16, Seq<u8>>,
    options: MeltOptions,
    id: u16,
)
    requires
        melt_run(s, pos, st, ops, unk, names, options) == Err::<(Seq<TextOp>, Set<u16>), MeltFault>(
            MeltFault::UnknownToken(id),
        ),
    ensures
        !names.contains_key(id),
        options.on_failed_resolve == FailedResolveStrategy::Error,
    decreases s.len() - pos,
{
    if pos < s.len() {
        let (tok, next) = token_at(s, pos, st.scaled).unwrap();
        match on_token(s, tok, st, ops, unk, names, options) {
            Outcome::Fault(f) => {
                lemma_unknown_fault_token(s, tok, st, ops, unk, names, options, id);
            },
            Outcome::Next(st2, ops2, unk2) => {
                if next > pos {
                    lemma_run_unknown_fault(s, next, st2, ops2, unk2, names, options, id);
                }
            },
        }
    }
}

/// A key that the melt drops writes and records nothing, and the melt then
/// passes over its `=` and value: padding in key position, an ironman key when
/// not verbatim, and under `Ignore` a key the resolver does not know.
pub proof fn lemma_dropped_key_writes_nothing(
    s: Seq<u8>,
    id: u16,
    st: MeltState,
    ops: Seq<TextOp>,
    unk: Set<u16>,
    names: Map<u16, Seq<u8>>,
    options: MeltOptions,
)
    requires
        st.skip == Skip::Off,
        st.quoted is None,
        expects_key_after(ops),
        is_padding(id) || (!names.contains_key(id) && options.on_failed_resolve
            == FailedResolveStrategy::Ignore) || (names.contains_key(id) && !options.verbatim
            && is_ironman_key(names[id])),
    ensures
        on_token(s, BinaryToken::Id(id), st, ops, unk, names, options) == Outcome::Next(
            MeltState { skip: Skip::AwaitEqual, ..st },
            ops,
            unk,
        ),
{
    reveal(on_token);
    assert(MeltState { quoted: None, ..st } == st);
}

/// While the `=` and value of a dropped key are passed over (a whole `{ }`
/// group included), no token writes or records anything.
pub proof fn lemma_skipping_writes_nothing(
    s: Seq<u8>,
    tok: BinaryToken,
    st: MeltState,
    ops: Seq<TextOp>,
    unk: Set<u16>,
    names: Map<u16, Seq<u8>>,
    options: MeltOptions,
)
    requires
        st.skip is AwaitValue || st.skip is Depth || (st.skip == Skip::AwaitEqual && tok
            == BinaryToken::Equal),
    ensures
        on_token(s, tok, st, ops, unk, names, options) is Next,
        next_ops(on_token(s, tok, st, ops, unk, names, options)) == ops,
        next_unknown(on_token(s, tok, st, ops, unk, names, options)) == unk,
{
    reveal(on_token);
}

/// A fresh writer takes a key first.
pub proof fn lemma_fresh_writer_expects_key()
    ensures
        expects_key_after(Seq::<TextOp>::empty()),
{
}

} // verus!
