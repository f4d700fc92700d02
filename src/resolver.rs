use jomini::binary::TokenResolver;
use vstd::prelude::*;

verus! {

#[verifier::external_type_specification]
#[verifier::external_body]
pub struct ExBasicTokenResolver(jomini::binary::BasicTokenResolver);

/// The names that a resolver holds, by token id, as bytes.
pub uninterp spec fn resolver_names(r: jomini::binary::BasicTokenResolver) -> Map<u16, Seq<u8>>;

/// Relies on BasicTokenResolver::resolve: the name stored for a token, if any.
#[verifier::external_body]
pub(crate) fn resolve_name(r: &jomini::binary::BasicTokenResolver, id: u16) -> (res: Option<&[u8]>)
    ensures
        match res {
            Some(name) => resolver_names(*r).contains_key(id) && name@ == resolver_names(*r)[id],
            None => !resolver_names(*r).contains_key(id),
        },
{
    r.resolve(id).map(str::as_bytes)
}

} // verus!
