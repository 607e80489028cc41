use vstd::prelude::*;

verus! {

/// Contract for `String::push` of the standard library, taken on trust and
/// not proved here: the call appends the one character `ch` to the end of
/// the string, so that the string afterwards is the string before it with
/// `ch` added as its last character.
pub assume_specification[ String::push ](s: &mut String, ch: char)
    ensures
        final(s)@ == old(s)@.push(ch),
;

} // verus!
