//! What a desktop notification says after a recovery.
use crate::text;
use crate::text::trim;
use vstd::prelude::*;

verus! {

/// The text of the notification, given what the kernel calls the client's
/// process, if that is known.
pub open spec fn body_text(process: Option<Seq<char>>) -> Seq<char> {
    match process {
        Some(name) => text::trimmed(name) + " reconnected after the compositor restarted."@,
        None => "A client reconnected after the compositor restarted."@,
    }
}

/// The text of the notification; see [`body_text`].
pub fn recovered_body(process: Option<&str>) -> (r: String)
    ensures
        r@ == body_text(
            match process {
                Some(name) => Some(name@),
                None => None,
            },
        ),
{
    match process {
        Some(name) => {
            let mut body = trim(name);
            body.append(" reconnected after the compositor restarted.");
            body
        },
        None => "A client reconnected after the compositor restarted.".to_owned(),
    }
}

} // verus!
