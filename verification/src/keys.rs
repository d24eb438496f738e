use vstd::prelude::*;

verus! {

/// A lower-case hexadecimal digit.
pub open spec fn is_lower_hex(c: char) -> bool {
    ('0' <= c && c <= '9') || ('a' <= c && c <= 'f')
}

/// The hyphenated lower-case text of a random (version 4, RFC 4122 variant)
/// UUID: `xxxxxxxx-xxxx-4xxx-Vxxx-xxxxxxxxxxxx` with `V` one of `8 9 a b`.
pub open spec fn is_uuid_v4_text(s: Seq<char>) -> bool {
    &&& s.len() == 36
    &&& forall|i: int|
        0 <= i < 36 ==> if i == 8 || i == 13 || i == 18 || i == 23 {
            #[trigger] s[i] == '-'
        } else {
            is_lower_hex(s[i])
        }
    &&& s[14] == '4'
    &&& (s[19] == '8' || s[19] == '9' || s[19] == 'a' || s[19] == 'b')
}

/// Calls `uuid::Uuid::new_v4` and formats the UUID with `to_string`.
/// Claimed: the text is hyphenated lower-case hex with the version digit `4`
/// and an RFC 4122 variant digit (uuid sets those bits and formats with
/// `LowerHex`). The value itself is random: nothing more is stated.
#[verifier::external_body]
fn random_uuid_text() -> (s: String)
    ensures
        is_uuid_v4_text(s@),
{
    uuid::Uuid::new_v4().to_string()
}

/// A fresh random key under which an uploaded document is stored.
pub fn document_key() -> (s: String)
    ensures
        is_uuid_v4_text(s@),
{
    random_uuid_text()
}

/// The file name of an image stored under `uuid`: the UUID text followed by
/// `.jpg`, nothing cut and nothing added.
pub fn image_file_name(uuid: &str) -> (s: String)
    ensures
        s@ == uuid@ + ".jpg"@,
        s@.take(uuid@.len() as int) == uuid@,
{
    let r = uuid.to_owned().concat(".jpg");
    assert(r@.take(uuid@.len() as int) =~= uuid@);
    r
}

/// A fresh random file name for an uploaded image: a random UUID followed by
/// `.jpg`. Which UUID comes out is left to chance; the name is built from it
/// by `image_file_name`.
pub fn image_key() -> (s: String)
    ensures
        s@.len() == 40,
        is_uuid_v4_text(s@.take(36)),
        s@.skip(36) == ".jpg"@,
{
    let key = random_uuid_text();
    let r = image_file_name(key.as_str());
    assert(r@.skip(36) =~= ".jpg"@);
    proof {
        reveal_strlit(".jpg");
    }
    r
}

} // verus!
