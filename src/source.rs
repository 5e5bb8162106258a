use vstd::prelude::*;
use vstd::std_specs::iter::IteratorSpec;

verus! {

/// A bounded character stream that can be read at any position.
pub trait RandomAccess {
    /// The characters of the stream, in order. Left unspecified by default,
    /// for implementations written outside verified code.
    closed spec fn content(&self) -> Seq<char> {
        arbitrary()
    }

    /// The character at position `i`, or `None` at or past the end.
    fn read_at_position(&self, i: u64) -> (r: Option<char>)
        ensures
            r == (if (i as int) < self.content().len() {
                Some(self.content()[i as int])
            } else {
                None::<char>
            }),
    ;
}

/// The characters of `s`, in order.
pub fn chars_of(s: &str) -> (r: Vec<char>)
    ensures
        r@ == s@,
{
    broadcast use vstd::string::axiom_spec_iter, vstd::string::next_postcondition;
    let mut it = s.chars();
    let mut v: Vec<char> = Vec::new();
    loop
        invariant
            it.obeys_prophetic_iter_laws(),
            v@ + it.remaining() == s@,
        ensures
            v@ == s@,
        decreases s@.len() - v@.len(),
    {
        match it.next() {
            Some(c) => {
                v.push(c);
            },
            None => {
                assert(v@ + it.remaining() =~= v@);
                break;
            },
        }
    }
    v
}

/// Relies on std's `String: FromIterator<&char>` (`Iterator::collect`): the
/// string holds the given characters, in order.
#[verifier::external_body]
pub(crate) fn string_of_chars(v: &Vec<char>) -> (r: String)
    ensures
        r@ == v@,
{
    v.iter().collect()
}

impl RandomAccess for String {
    open spec fn content(&self) -> Seq<char> {
        self@
    }

    fn read_at_position(&self, i: u64) -> (r: Option<char>) {
        let chars = chars_of(self.as_str());
        if (i as usize as u64) == i && (i as usize) < chars.len() {
            Some(chars[i as usize])
        } else {
            None
        }
    }
}

} // verus!
