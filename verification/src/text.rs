//! Character-level helpers for labels and identifiers.

use vstd::prelude::*;
use vstd::string::*;

verus! {

/// `String::push` appends one character to the end of the string and leaves
/// the characters before it as they were.
pub assume_specification[ String::push ](s: &mut String, c: char)
    ensures
        final(s)@ == old(s)@.push(c),
;

/// A separator of words inside an identifier becomes a space; every other
/// character stays.
pub open spec fn word_char(c: char) -> char {
    if c == '_' {
        ' '
    } else {
        c
    }
}

/// An identifier as it is read aloud: the same characters, with each
/// underscore turned into a space.
pub open spec fn words(ident: Seq<char>) -> Seq<char> {
    ident.map_values(|c: char| word_char(c))
}

/// Renders an identifier for a narrative.
pub fn ident_to_string(ident: &str) -> (text: String)
    ensures
        text@ == words(ident@),
{
    let n: usize = ident.unicode_len();
    let mut text = String::new();
    let mut i: usize = 0;
    while i < n
        invariant
            n == ident@.len(),
            i <= n,
            text@ == words(ident@.take(i as int)),
        decreases n - i,
    {
        let c = ident.get_char(i);
        text.push(if c == '_' { ' ' } else { c });
        assert(words(ident@.take(i + 1)) =~= words(ident@.take(i as int)).push(word_char(c)));
        i += 1;
    }
    assert(ident@.take(n as int) =~= ident@);
    text
}

/// The part of `label` behind `prefix`, where `label` starts with it.
pub fn strip_prefix(label: &str, prefix: &str) -> (rest: Option<String>)
    ensures
        match rest {
            Some(tail) => prefix@.is_prefix_of(label@) && tail@ == label@.skip(
                prefix@.len() as int,
            ),
            None => !prefix@.is_prefix_of(label@),
        },
{
    let n: usize = label.unicode_len();
    let m: usize = prefix.unicode_len();
    if n < m {
        return None;
    }
    let mut i: usize = 0;
    while i < m
        invariant
            n == label@.len(),
            m == prefix@.len(),
            m <= n,
            i <= m,
            forall|k: int| 0 <= k < i ==> label@[k] == prefix@[k],
        decreases m - i,
    {
        if label.get_char(i) != prefix.get_char(i) {
            return None;
        }
        i += 1;
    }
    assert(prefix@ =~= label@.subrange(0, m as int));
    let mut tail = String::new();
    let mut j: usize = m;
    while j < n
        invariant
            n == label@.len(),
            m <= j <= n,
            tail@ == label@.subrange(m as int, j as int),
        decreases n - j,
    {
        tail.push(label.get_char(j));
        assert(label@.subrange(m as int, j + 1) =~= label@.subrange(m as int, j as int).push(
            label@[j as int],
        ));
        j += 1;
    }
    assert(label@.subrange(m as int, n as int) =~= label@.skip(m as int));
    Some(tail)
}

} // verus!
