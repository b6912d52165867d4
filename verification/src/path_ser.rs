use vstd::prelude::*;

verus! {

// Paths are stored as their UTF-8 text so that a graph can move between
// operating systems; these two functions are the single place where that
// representation is chosen.

/// The stored form of a path given as text.
pub fn str_to_buf(s: &str) -> (res: String)
    ensures
        res@ == s@,
{
    String::from_str(s)
}

/// The text of a stored path.
pub fn buf_to_str(buf: &String) -> (res: String)
    ensures
        res@ == buf@,
{
    buf.clone()
}

} // verus!
