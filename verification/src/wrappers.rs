//! The calls this library makes into outside crates, each with the contract it relies on.
use vstd::prelude::*;

use crate::ids::bytes_value;

verus! {

/// The text that base64 gives for `data` in its standard alphabet, with `=` padding.
pub uninterp spec fn base64_standard(data: Seq<u8>) -> Seq<char>;

/// The text that base64 gives for `data` in its standard alphabet, without padding.
pub uninterp spec fn base64_standard_no_pad(data: Seq<u8>) -> Seq<char>;

/// The bytes that standard base64 text decodes to, or `None` where the text is not valid
/// standard base64.
pub uninterp spec fn base64_decoded(text: Seq<char>) -> Option<Seq<u8>>;

/// The bytes that base64 text without padding decodes to, or `None` where the text is not
/// valid standard base64 without padding.
pub uninterp spec fn base64_decoded_no_pad(text: Seq<char>) -> Option<Seq<u8>>;

/// Calls `base64::encode`: the result is the standard, padded base64 text of `data`.
/// The crate panics only where the output length would overflow `usize`, which no slice can
/// reach: a slice holds at most `isize::MAX` bytes.
#[verifier::external_body]
pub(crate) fn encode_standard(data: &[u8]) -> (r: String)
    ensures
        r@ == base64_standard(data@),
{
    base64::encode(data)
}

/// Calls `base64::encode_config` with `base64::STANDARD_NO_PAD`: the result is the standard
/// base64 text of `data` without padding. As with `encode_standard`, the crate's overflow
/// panic lies beyond the length of any slice.
#[verifier::external_body]
pub(crate) fn encode_standard_no_pad(data: &[u8]) -> (r: String)
    ensures
        r@ == base64_standard_no_pad(data@),
{
    base64::encode_config(data, base64::STANDARD_NO_PAD)
}

/// Calls `base64::decode` on the UTF-8 bytes of `text`: `Some` with the decoded bytes where
/// the text is valid standard base64, `None` where the crate reports an error. The crate's
/// length-overflow panics lie beyond the length of any string, which is at most `isize::MAX`
/// bytes.
#[verifier::external_body]
pub(crate) fn decode_standard(text: &str) -> (r: Option<Vec<u8>>)
    ensures
        match r {
            Some(v) => base64_decoded(text@) == Some(v@),
            None => base64_decoded(text@) is None,
        },
{
    match base64::decode(text) {
        Ok(v) => Some(v),
        Err(_) => None,
    }
}

/// Calls `base64::decode_config` with `base64::STANDARD_NO_PAD` on the UTF-8 bytes of
/// `text`: `Some` with the decoded bytes where the text is valid standard base64 without
/// padding, `None` where the crate reports an error. Its length-overflow panics lie beyond the
/// length of any string.
#[verifier::external_body]
pub(crate) fn decode_standard_no_pad(text: &str) -> (r: Option<Vec<u8>>)
    ensures
        match r {
            Some(v) => base64_decoded_no_pad(text@) == Some(v@),
            None => base64_decoded_no_pad(text@) is None,
        },
{
    match base64::decode_config(text, base64::STANDARD_NO_PAD) {
        Ok(v) => Some(v),
        Err(_) => None,
    }
}

/// Calls `rusty_ulid::generate_ulid_bytes`: sixteen bytes of a fresh ULID, made of the clock
/// and a random number. Nothing is stated of their value.
#[verifier::external_body]
pub(crate) fn generate_ulid_bytes() -> (r: [u8; 16]) {
    rusty_ulid::generate_ulid_bytes()
}

/// The `i`-th sixteen-byte entity of a packed entity list.
pub open spec fn entity(list: Seq<u8>, i: int) -> Seq<u8> {
    list.subrange(16 * i, 16 * i + 16)
}

/// The number of whole sixteen-byte entities in a packed entity list.
pub open spec fn entity_count(list: Seq<u8>) -> int {
    list.len() as int / 16
}

/// A packed list of sixteen-byte entities, sorted strictly by their bytes.
pub open spec fn entities_ascending(list: Seq<u8>) -> bool {
    &&& list.len() % 16 == 0
    &&& forall|i: int, j: int|
        0 <= i < j < entity_count(list) ==> bytes_value(entity(list, i)) < bytes_value(
            entity(list, j),
        )
}

/// Whether `e` is one of the entities of a packed list.
pub open spec fn has_entity(list: Seq<u8>, e: Seq<u8>) -> bool {
    exists|i: int| 0 <= i < entity_count(list) && #[trigger] entity(list, i) == e
}

/// Calls `inverted_index_util::entity_list::insert_entity_mut::<U16>`, which inserts the
/// sixteen-byte `entity` into a packed, sorted list of sixteen-byte entities at its sorted place,
/// unless it is there already. On a strictly sorted list the crate's binary search finds that
/// place, so the list stays strictly sorted and holds exactly its old entities and `entity`.
/// The crate asserts the two lengths that `requires` states.
#[verifier::external_body]
pub(crate) fn insert_entity16(list: &mut Vec<u8>, entity: &[u8])
    requires
        entity@.len() == 16,
        entities_ascending(old(list)@),
    ensures
        entities_ascending(final(list)@),
        forall|e: Seq<u8>|
            e.len() == 16 ==> (has_entity(final(list)@, e) <==> (has_entity(old(list)@, e) || e
                == entity@)),
{
    inverted_index_util::entity_list::insert_entity_mut::<typenum::consts::U16>(list, entity)
}

/// Each whole entity of a packed list is sixteen bytes long and lies within the list.
pub proof fn lemma_entity_bounds(list: Seq<u8>, i: int)
    requires
        0 <= i < entity_count(list),
    ensures
        16 * i + 16 <= list.len(),
        entity(list, i).len() == 16,
{
    let n = list.len() as int;
    assert(16 * i + 16 <= n) by (nonlinear_arith)
        requires
            0 <= i < n / 16,
            n >= 0,
    ;
}

/// An entity of a packed list is sixteen bytes long.
pub proof fn lemma_has_entity_len(list: Seq<u8>, e: Seq<u8>)
    requires
        has_entity(list, e),
    ensures
        e.len() == 16,
{
    let i = choose|i: int| 0 <= i < entity_count(list) && #[trigger] entity(list, i) == e;
    lemma_entity_bounds(list, i);
}

} // verus!
