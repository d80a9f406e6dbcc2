//! The calls into `ckb_types` that the library relies on: script hashing and
//! the layout of a transaction witness.

use ckb_types::packed;
use ckb_types::prelude::{Builder, Entity, Pack};
use vstd::prelude::*;

use crate::molecule::{opt_fixvec, table};

verus! {

/// The hash that identifies a script with these fields.
pub uninterp spec fn script_hash_of(code_hash: Seq<u8>, hash_type: u8, args: Seq<u8>) -> Seq<u8>;

/// Relies on `ckb_types::packed::Script::calc_script_hash`: the 32-byte hash
/// of the script built from `code_hash`, `hash_type` and `args`.
#[verifier::external_body]
pub(crate) fn calc_script_hash(code_hash: &[u8; 32], hash_type: u8, args: &[u8]) -> (r: [u8; 32])
    ensures
        r@ == script_hash_of(code_hash@, hash_type, args@),
{
    let script = packed::Script::new_builder()
        .code_hash(code_hash.pack())
        .hash_type(packed::Byte::new(hash_type))
        .args(args.pack())
        .build();
    let mut r = [0u8; 32];
    r.copy_from_slice(script.calc_script_hash().as_slice());
    r
}

/// The serialised witness with the given lock and input-type fields and no
/// output-type field.
pub open spec fn witness_args_layout(lock: Option<Seq<u8>>, input_type: Option<Seq<u8>>) -> Seq<u8> {
    table(seq![opt_fixvec(lock), opt_fixvec(input_type), seq![]])
}

/// Relies on `ckb_types::packed::WitnessArgs`'s builder and `as_bytes`: a table
/// of three optional byte vectors (lock, input type, output type).
#[verifier::external_body]
pub(crate) fn witness_args(lock: Option<&[u8]>, input_type: Option<&[u8]>) -> (r: Vec<u8>)
    requires
        match lock {
            Some(l) => l@.len(),
            None => 0,
        } + match input_type {
            Some(t) => t@.len(),
            None => 0,
        } + 24 <= u32::MAX,
    ensures
        r@ == witness_args_layout(
            match lock {
                Some(l) => Some(l@),
                None => None,
            },
            match input_type {
                Some(t) => Some(t@),
                None => None,
            },
        ),
{
    packed::WitnessArgs::new_builder()
        .lock(lock.map(<[u8] as Pack<packed::Bytes>>::pack).pack())
        .input_type(input_type.map(<[u8] as Pack<packed::Bytes>>::pack).pack())
        .build()
        .as_bytes()
        .to_vec()
}

} // verus!
