//! Small helpers for moving between `Vec<char>` and `String`.

use vstd::prelude::*;

verus! {

/// Relies on `String::push`: it appends the given character to the end of
/// the string.
#[verifier::external_body]
fn push_char(s: &mut String, c: char)
    ensures
        final(s)@ == old(s)@.push(c),
{
    s.push(c);
}

/// Build a `String` holding exactly the given characters.
pub fn chars_to_string(v: &Vec<char>) -> (r: String)
    ensures
        r@ == v@,
{
    let mut s = String::new();
    proof {
        assert(s@ =~= v@.subrange(0, 0));
    }
    let mut j: usize = 0;
    while j < v.len()
        invariant
            j <= v@.len(),
            s@ == v@.subrange(0, j as int),
        decreases v@.len() - j,
    {
        push_char(&mut s, v[j]);
        j += 1;
        proof {
            assert(s@ =~= v@.subrange(0, j as int));
        }
    }
    proof {
        assert(s@ =~= v@);
    }
    s
}

} // verus!
