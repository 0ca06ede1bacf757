//! Rules that request arguments must meet.

use crate::api::ApiError;
use crate::text::{id_char, is_id_char};
use vstd::prelude::*;
use vstd::string::*;

verus! {

/// The shortest identifier accepted.
pub const ID_MIN_LEN: usize = 3;

/// The longest identifier accepted.
pub const ID_MAX_LEN: usize = 32;

/// An identifier is 3 to 32 characters long and made of ASCII letters, ASCII
/// digits and underscores only.
pub open spec fn valid_id(s: Seq<char>) -> bool {
    &&& ID_MIN_LEN <= s.len() <= ID_MAX_LEN
    &&& forall|i: int| 0 <= i < s.len() ==> is_id_char(#[trigger] s[i])
}

/// Decides whether `id` is an acceptable identifier.
pub fn is_valid_identifier(id: &str) -> (r: bool)
    ensures
        r == valid_id(id@),
{
    let n: usize = id.unicode_len();
    if n < ID_MIN_LEN || n > ID_MAX_LEN {
        return false;
    }
    let mut i: usize = 0;
    while i < n
        invariant
            n == id@.len(),
            i <= n,
            forall|j: int| 0 <= j < i ==> is_id_char(#[trigger] id@[j]),
        decreases n - i,
    {
        if !id_char(id.get_char(i)) {
            return false;
        }
        i += 1;
    }
    true
}

/// Accepts `id` when it is a valid identifier and rejects it as an invalid
/// argument otherwise.
pub fn identifier(id: &str) -> (r: Result<(), ApiError>)
    ensures
        r is Ok <==> valid_id(id@),
        r matches Err(e) ==> e matches ApiError::InvalidArguments(why) && why@
            == "identifier must be 3 to 32 characters long and hold only letters, digits and underscores"@,
{
    if is_valid_identifier(id) {
        Ok(())
    } else {
        Err(
            ApiError::InvalidArguments(
                String::from_str(
                    "identifier must be 3 to 32 characters long and hold only letters, digits and underscores",
                ),
            ),
        )
    }
}

} // verus!
