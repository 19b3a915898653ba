//! Fresh random identifiers.

use vstd::prelude::*;

verus! {

/// A lower-case hexadecimal digit.
pub open spec fn is_lower_hex(c: char) -> bool {
    ('0' <= c <= '9') || ('a' <= c <= 'f')
}

/// Whether `t` has the shape of a version-4 UUID in its simple form:
/// 32 lower-case hex digits, the version digit `4` at index 12.
pub open spec fn is_simple_v4(t: Seq<char>) -> bool {
    &&& t.len() == 32
    &&& forall|i: int| 0 <= i < 32 ==> #[trigger] is_lower_hex(t[i])
    &&& t[12] == '4'
}

/// Whether `t` has the shape of a version-4 UUID in its hyphenated form:
/// 36 characters, `-` at 8, 13, 18 and 23, lower-case hex digits elsewhere,
/// the version digit `4` at index 14.
pub open spec fn is_hyphenated_v4(t: Seq<char>) -> bool {
    &&& t.len() == 36
    &&& forall|i: int|
        0 <= i < 36 ==> if i == 8 || i == 13 || i == 18 || i == 23 {
            #[trigger] t[i] == '-'
        } else {
            is_lower_hex(t[i])
        }
    &&& t[14] == '4'
}

/// A random version-4 UUID in its simple form
/// (`uuid::Uuid::new_v4().simple().to_string()`). The bytes come from the
/// system's random source: the contract states only their shape, which the
/// crate's formatter fixes (two lower-case hex digits per byte, version nibble 4).
#[verifier::external_body]
pub(crate) fn new_v4_simple() -> (t: String)
    ensures
        is_simple_v4(t@),
{
    uuid::Uuid::new_v4().simple().to_string()
}

/// A random version-4 UUID in its hyphenated form
/// (`uuid::Uuid::new_v4().to_string()`). As for `new_v4_simple`, only the
/// shape is stated: the digits themselves are random.
#[verifier::external_body]
pub(crate) fn new_v4_hyphenated() -> (t: String)
    ensures
        is_hyphenated_v4(t@),
{
    uuid::Uuid::new_v4().to_string()
}

} // verus!
