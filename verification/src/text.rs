//! Character-level helpers shared by the template and plural compilers.

use vstd::prelude::*;

verus! {

broadcast use vstd::string::group_string_axioms;

/// A character allowed in a placeholder name: ASCII letter, ASCII digit or `_`.
pub open spec fn is_ident_char(c: char) -> bool {
    c == '_' || ('a' <= c && c <= 'z') || ('A' <= c && c <= 'Z') || ('0' <= c && c <= '9')
}

/// Every character of `s` is allowed in a placeholder name (the empty name included).
pub open spec fn is_ident(s: Seq<char>) -> bool {
    forall|i: int| 0 <= i < s.len() ==> #[trigger] is_ident_char(s[i])
}

/// The first position at or after `i` that holds `c`, or `s.len()` when there is none.
pub open spec fn index_of_from(s: Seq<char>, c: char, i: int) -> int
    decreases s.len() - i,
{
    if i >= s.len() {
        s.len() as int
    } else if s[i] == c {
        i
    } else {
        index_of_from(s, c, i + 1)
    }
}

/// What `index_of_from` gives: a position in range with no `c` before it.
pub proof fn lemma_index_of_from(s: Seq<char>, c: char, i: int)
    requires
        0 <= i <= s.len(),
    ensures
        i <= index_of_from(s, c, i) <= s.len(),
        forall|k: int| i <= k < index_of_from(s, c, i) ==> s[k] != c,
        index_of_from(s, c, i) < s.len() ==> s[index_of_from(s, c, i)] == c,
    decreases s.len() - i,
{
    if i < s.len() && s[i] != c {
        lemma_index_of_from(s, c, i + 1);
    }
}

/// Checks if a string is made of ASCII alphanumerics and `_`.
///
/// Used to validate placeholder names.
pub fn is_identifier(s: &str) -> (b: bool)
    ensures
        b == is_ident(s@),
{
    let chars = chars_of(s);
    is_identifier_chars(&chars)
}

/// `is_identifier` on a sequence of characters.
pub(crate) fn is_identifier_chars(chars: &Vec<char>) -> (b: bool)
    ensures
        b == is_ident(chars@),
{
    let n = chars.len();
    for i in 0..n
        invariant
            n == chars@.len(),
            forall|k: int| 0 <= k < i ==> #[trigger] is_ident_char(chars@[k]),
    {
        let c = chars[i];
        if !(c == '_' || ('a' <= c && c <= 'z') || ('A' <= c && c <= 'Z') || ('0' <= c && c
            <= '9')) {
            assert(!is_ident_char(chars@[i as int]));
            return false;
        }
    }
    true
}

/// The characters of `s`, in order.
pub fn chars_of(s: &str) -> (v: Vec<char>)
    ensures
        v@ == s@,
{
    let mut v: Vec<char> = Vec::new();
    for c in it: s.chars()
        invariant
            it.seq() == s@,
            v@ == it.seq().take(it.index()),
    {
        v.push(c);
    }
    v
}

/// The first position at or after `from` that holds `c`, or `v.len()`.
pub fn find_char(v: &Vec<char>, c: char, from: usize) -> (r: usize)
    requires
        from <= v@.len(),
    ensures
        r == index_of_from(v@, c, from as int),
{
    let mut k = from;
    while k < v.len() && v[k] != c
        invariant
            from <= k <= v@.len(),
            index_of_from(v@, c, k as int) == index_of_from(v@, c, from as int),
        decreases v@.len() - k,
    {
        k = k + 1;
    }
    k
}

/// A copy of `v[from..to]`.
pub fn sub_chars(v: &Vec<char>, from: usize, to: usize) -> (r: Vec<char>)
    requires
        from <= to <= v@.len(),
    ensures
        r@ == v@.subrange(from as int, to as int),
{
    let mut r: Vec<char> = Vec::new();
    let mut k = from;
    while k < to
        invariant
            from <= k <= to <= v@.len(),
            r@ == v@.subrange(from as int, k as int),
        decreases to - k,
    {
        r.push(v[k]);
        k = k + 1;
        assert(r@ =~= v@.subrange(from as int, k as int));
    }
    r
}

/// A string holding `v[from..to]`.
pub fn string_of(v: &Vec<char>, from: usize, to: usize) -> (s: String)
    requires
        from <= to <= v@.len(),
    ensures
        s@ == v@.subrange(from as int, to as int),
{
    let mut s = String::new();
    let mut k = from;
    while k < to
        invariant
            from <= k <= to <= v@.len(),
            s@ == v@.subrange(from as int, k as int),
        decreases to - k,
    {
        push_char(&mut s, v[k]);
        k = k + 1;
        assert(s@ =~= v@.subrange(from as int, k as int));
    }
    s
}

/// Appends one character.
///
/// Calls `String::push`, which std documents as appending the character
/// to the end of the string.
#[verifier::external_body]
pub(crate) fn push_char(s: &mut String, c: char)
    ensures
        final(s)@ == old(s)@.push(c),
{
    s.push(c);
}

/// String equality.
///
/// Calls `<str as PartialEq>::eq`, which std documents as comparing the two
/// strings character by character.
#[verifier::external_body]
pub(crate) fn str_eq(a: &str, b: &str) -> (r: bool)
    ensures
        r == (a@ == b@),
{
    a == b
}

} // verus!
