//! Small facts about strings shared by the scanner and the statements.
use vstd::prelude::*;

verus! {

/// Whether a string equals a literal.
pub fn same_text(s: &String, lit: &str) -> (b: bool)
    ensures
        b == (s@ == lit@),
{
    let t = String::from_str(lit);
    *s == t
}

} // verus!
