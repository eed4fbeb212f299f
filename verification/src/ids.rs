//! Identifiers: random ones for what happens once, derived ones for what a
//! replay must find again.
use vstd::prelude::*;
use vstd::utf8::encode_utf8;

verus! {

/// A lower-case hexadecimal digit.
pub open spec fn is_hex(c: char) -> bool {
    '0' <= c <= '9' || 'a' <= c <= 'f'
}

/// The hyphenated form of a UUID: lower-case hexadecimal digits in groups of
/// eight, four, four, four and twelve.
pub open spec fn is_uuid(s: Seq<char>) -> bool {
    &&& s.len() == 36
    &&& forall|i: int|
        0 <= i < 36 ==> if i == 8 || i == 13 || i == 18 || i == 23 {
            #[trigger] s[i] == '-'
        } else {
            is_hex(s[i])
        }
}

/// `uuid::Uuid::new_v5` in the OID namespace, in hyphenated form: a hash of
/// the name's bytes.
pub uninterp spec fn uuid_v5(name: Seq<u8>) -> Seq<char>;

/// `uuid::Uuid::new_v4`: a random UUID in its hyphenated form.
#[verifier::external_body]
pub(crate) fn random_id() -> (r: String)
    ensures
        is_uuid(r@),
{
    uuid::Uuid::new_v4().to_string()
}

/// `uuid::Uuid::new_v5` in the OID namespace: the same name gives the same
/// UUID, in its hyphenated form. That different names give different UUIDs
/// is a matter of the hash, and not said.
#[verifier::external_body]
pub(crate) fn derived_id(name: &str) -> (r: String)
    ensures
        r@ == uuid_v5(encode_utf8(name@)),
        is_uuid(r@),
{
    uuid::Uuid::new_v5(&uuid::Uuid::NAMESPACE_OID, name.as_bytes()).to_string()
}

} // verus!
