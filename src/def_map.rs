//! The text shown by the command that dumps the definitions around the cursor.
use vstd::prelude::*;

verus! {

/// The dump of the definitions around the cursor, or a note that the cursor
/// is not inside a function body when there is none.
pub fn view_def_map(def_map: Option<String>) -> (r: String)
    ensures
        match def_map {
            Some(s) => r@ == s@,
            None => r@ == "Not inside a function body"@,
        },
{
    match def_map {
        Some(s) => s,
        None => "Not inside a function body".to_owned(),
    }
}

} // verus!
