use vstd::prelude::*;

verus! {

/// A lower-case hexadecimal digit.
pub open spec fn hex_lower(c: char) -> bool {
    ('0' <= c && c <= '9') || ('a' <= c && c <= 'f')
}

/// The hyphenated lower-case text of a version 4 UUID: 36 characters, hyphens at 8, 13,
/// 18 and 23, hexadecimal digits elsewhere, `4` at 14 and one of `8`, `9`, `a`, `b` at 19.
pub open spec fn uuid_v4_text(s: Seq<char>) -> bool {
    &&& s.len() == 36
    &&& forall|i: int|
        0 <= i < 36 ==> if i == 8 || i == 13 || i == 18 || i == 23 {
            #[trigger] s[i] == '-'
        } else {
            hex_lower(s[i])
        }
    &&& s[14] == '4'
    &&& s[19] == '8' || s[19] == '9' || s[19] == 'a' || s[19] == 'b'
}

/// `uuid::Uuid::new_v4().to_string()`: a random version 4 UUID (RFC 4122 variant) in
/// its hyphenated lower-case form. Nothing is said of which one comes out.
#[verifier::external_body]
fn random_uuid() -> (r: String)
    ensures
        uuid_v4_text(r@),
{
    uuid::Uuid::new_v4().to_string()
}

/// A fresh id for a run: a random version 4 UUID.
pub fn new_run_id() -> (r: String)
    ensures
        uuid_v4_text(r@),
{
    random_uuid()
}

} // verus!
