//! Name normalization: from the name of a recipe to the key under which it
//! is filed.

use vstd::prelude::*;

verus! {

/// ASCII letters, upper and lower case.
pub open spec fn is_ascii_letter(c: char) -> bool {
    ('a' <= c && c <= 'z') || ('A' <= c && c <= 'Z')
}

/// ASCII whitespace: space, tab, line feed, form feed, carriage return.
pub open spec fn is_ascii_space(c: char) -> bool {
    c == ' ' || c == '\t' || c == '\n' || c == '\x0C' || c == '\r'
}

/// ASCII punctuation: the four runs of printable characters that are neither
/// letters, digits nor the space.
pub open spec fn is_ascii_punct(c: char) -> bool {
    ('!' <= c && c <= '/') || (':' <= c && c <= '@') || ('[' <= c && c <= '`') || ('{' <= c
        && c <= '~')
}

/// What one character of a name contributes to its key: a letter stands for
/// itself, whitespace and punctuation become an underscore, anything else
/// contributes nothing.
pub open spec fn key_char(c: char) -> Option<char> {
    if is_ascii_letter(c) {
        Some(c)
    } else if is_ascii_space(c) || is_ascii_punct(c) {
        Some('_')
    } else {
        None
    }
}

/// The key of a name: the contributions of its characters, in order.
pub open spec fn normalized(name: Seq<char>) -> Seq<char> {
    name.filter_map(|c: char| key_char(c))
}

/// Executable form of [`key_char`].
pub fn key_char_of(c: char) -> (r: Option<char>)
    ensures
        r == key_char(c),
{
    if (c >= 'a' && c <= 'z') || (c >= 'A' && c <= 'Z') {
        Some(c)
    } else if c == ' ' || c == '\t' || c == '\n' || c == '\x0C' || c == '\r' {
        Some('_')
    } else if (c >= '!' && c <= '/') || (c >= ':' && c <= '@') || (c >= '[' && c <= '`') || (c
        >= '{' && c <= '~') {
        Some('_')
    } else {
        None
    }
}

/// Normalizes a recipe name into the key under which it is filed.
pub fn prep_name_for_file(name: &str) -> (key: String)
    ensures
        key@ == normalized(name@),
{
    let mut key = String::new();
    for c in it: name.chars()
        invariant
            it.seq() == name@,
            key@ == normalized(name@.take(it.index() as int)),
    {
        proof {
            name@.lemma_filter_map_take_succ(|c: char| key_char(c), it.index() as int);
        }
        match key_char_of(c) {
            Some(k) => key.push(k),
            None => {},
        }
    }
    proof {
        assert(name@.take(name@.len() as int) =~= name@);
    }
    key
}

} // verus!
