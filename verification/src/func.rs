//! The naming rule shared by database names, collection names and schema
//! field names: one policy, applied everywhere a name is accepted.
use vstd::prelude::*;

verus! {

pub open spec fn spec_alpha(c: char) -> bool {
    ('a' <= c && c <= 'z') || ('A' <= c && c <= 'Z')
}

pub open spec fn spec_name_char(c: char) -> bool {
    spec_alpha(c) || ('0' <= c && c <= '9') || c == '-'
}

/// The naming rule: 3 to 21 characters, the first alphabetic, the rest
/// letters, digits or hyphens.
pub open spec fn valid_name(s: Seq<char>) -> bool {
    &&& 3 <= s.len() <= 21
    &&& spec_alpha(s[0])
    &&& forall|i: int| 1 <= i < s.len() ==> spec_name_char(s[i])
}

/// A valid name never contains the key codec's reserved delimiter, so merging
/// validated names is reversible.
pub proof fn lemma_valid_name_no_hash(s: Seq<char>)
    requires
        valid_name(s),
    ensures
        !crate::util::has_hash(s),
{
    assert forall|i: int| 0 <= i < s.len() implies s[i] != '#' by {
        if i == 0 {
            assert(spec_alpha(s[0]));
        } else {
            assert(spec_name_char(s[i]));
        }
    }
}

/// A valid name never contains a colon, so database marker keys, which start
/// with a `database::` prefix, are never collection keys.
pub proof fn lemma_valid_name_no_colon(s: Seq<char>)
    requires
        valid_name(s),
    ensures
        forall|i: int| 0 <= i < s.len() ==> s[i] != ':',
{
    assert forall|i: int| 0 <= i < s.len() implies s[i] != ':' by {
        if i == 0 {
            assert(spec_alpha(s[0]));
        } else {
            assert(spec_name_char(s[i]));
        }
    }
}

fn name_char_ok(c: char, first: bool) -> (r: bool)
    ensures
        r == if first {
            spec_alpha(c)
        } else {
            spec_name_char(c)
        },
{
    let alpha = ('a' <= c && c <= 'z') || ('A' <= c && c <= 'Z');
    if first {
        alpha
    } else {
        alpha || ('0' <= c && c <= '9') || c == '-'
    }
}

/// Whether a string satisfies the naming rule.
pub fn str_name_ok(s: &str) -> (r: bool)
    ensures
        r == valid_name(s@),
{
    let n = s.unicode_len();
    if n < 3 || n > 21 {
        return false;
    }
    let mut i: usize = 0;
    while i < n
        invariant
            0 <= i <= n,
            n == s@.len(),
            3 <= n <= 21,
            i > 0 ==> spec_alpha(s@[0]),
            forall|j: int| 1 <= j < i ==> spec_name_char(s@[j]),
        decreases n - i,
    {
        let c = s.get_char(i);
        if !name_char_ok(c, i == 0) {
            return false;
        }
        i = i + 1;
    }
    true
}

/// Accepts a present name that satisfies the naming rule and returns it
/// unchanged; rejects an absent name and any string the rule refuses.
pub fn is_naming_ok(name: &Option<String>) -> (r: Option<String>)
    ensures
        match r {
            Some(s) => name matches Some(n) && valid_name(n@) && s@ == n@,
            None => !(name matches Some(n) && valid_name(n@)),
        },
{
    match name {
        None => None,
        Some(some) => {
            if str_name_ok(some.as_str()) {
                Some(some.clone())
            } else {
                None
            }
        },
    }
}

} // verus!
