use vstd::prelude::*;
use vstd::string::StringExecFns;

verus! {

#[verifier::external_type_specification]
#[verifier::external_body]
pub struct ExUlid(ulid::Ulid);

/// Relies on `ulid::Ulid::new`: a fresh identifier drawn from the clock and a
/// random source, so nothing is promised of its value.
pub assume_specification[ ulid::Ulid::new ]() -> ulid::Ulid;

/// Relies on `ulid::Ulid::to_string`: the canonical Crockford base32 text,
/// always `ULID_LEN` (26) characters long.
pub assume_specification[ ulid::Ulid::to_string ](u: &ulid::Ulid) -> (r: String)
    ensures
        r@.len() == 26,
;

/// Text that starts every button identity.
pub open spec fn button_prefix() -> Seq<char> {
    seq!['B', 'U', 'T', 'T', 'O', 'N', '-']
}

/// A new identity for a button: the prefix followed by a fresh ULID.
pub fn new_button_id() -> (r: String)
    ensures
        r@.len() == 33,
        r@.subrange(0, 7) == button_prefix(),
{
    let mut id = String::from_str("BUTTON-");
    proof {
        reveal_strlit("BUTTON-");
    }
    let suffix = ulid::Ulid::new().to_string();
    id.append(suffix.as_str());
    assert(id@.subrange(0, 7) =~= button_prefix());
    id
}

} // verus!
