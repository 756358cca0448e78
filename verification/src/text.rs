//! Moving between strings and sequences of characters.

use vstd::prelude::*;

verus! {

/// Joining three sequences gives the same whichever pair is joined first.
pub broadcast proof fn lemma_concat_assoc<A>(a: Seq<A>, b: Seq<A>, c: Seq<A>)
    ensures
        #[trigger] ((a + b) + c) == a + (b + c),
{
    assert(((a + b) + c) =~= a + (b + c));
}

/// Joining the empty sequence to the end of a sequence changes nothing.
pub broadcast proof fn lemma_concat_empty<A>(a: Seq<A>)
    ensures
        #[trigger] (a + Seq::<A>::empty()) == a,
{
    assert((a + Seq::<A>::empty()) =~= a);
}

/// Appends one character to a string.
///
/// Stands for `String::push` of the standard library, which adds the
/// character at the end and changes nothing before it.
#[verifier::external_body]
pub(crate) fn push_char(s: &mut String, c: char)
    ensures
        final(s)@ == old(s)@.push(c),
{
    s.push(c)
}

/// The character with the number `n`, if there is one.
///
/// Stands for `char::from_u32` of the standard library, which gives the
/// character for every code point that is no surrogate and nothing for any
/// other number.
#[verifier::external_body]
pub(crate) fn char_from_code(n: u32) -> (r: Option<char>)
    ensures
        r == (if n <= 0xD7FF || (0xE000 <= n && n <= 0x10FFFF) {
            Some(n as char)
        } else {
            None
        }),
{
    char::from_u32(n)
}

/// The characters of `s`, in order.
pub fn to_chars(s: &str) -> (v: Vec<char>)
    ensures
        v@ == s@,
{
    let mut v: Vec<char> = Vec::new();
    for c in it: s.chars()
        invariant
            it.seq() == s@,
            v@ == s@.take(it.index() as int),
    {
        v.push(c);
        assert(s@.take(it.index() + 1) =~= s@.take(it.index() as int).push(c));
    }
    assert(s@.take(s@.len() as int) =~= s@);
    v
}

/// Appends the characters of `s` to `out`.
pub fn append_str(out: &mut Vec<char>, s: &str)
    ensures
        final(out)@ == old(out)@ + s@,
{
    let ghost base = out@;
    for c in it: s.chars()
        invariant
            it.seq() == s@,
            out@ == base + s@.take(it.index() as int),
    {
        out.push(c);
        assert(s@.take(it.index() + 1) =~= s@.take(it.index() as int).push(c));
    }
    assert(s@.take(s@.len() as int) =~= s@);
}

/// Appends the characters `s[from..to]` to `out`.
pub fn append_chars(out: &mut Vec<char>, s: &[char], from: usize, to: usize)
    requires
        from <= to <= s@.len(),
    ensures
        final(out)@ == old(out)@ + s@.subrange(from as int, to as int),
{
    let ghost base = out@;
    let mut i: usize = from;
    proof {
        assert(base + s@.subrange(from as int, from as int) =~= base);
    }
    while i < to
        invariant
            from <= i <= to <= s@.len(),
            out@ == base + s@.subrange(from as int, i as int),
        decreases to - i,
    {
        out.push(s[i]);
        assert(base + s@.subrange(from as int, i + 1) =~= (base + s@.subrange(
            from as int,
            i as int,
        )).push(s@[i as int]));
        i += 1;
    }
}

/// The string made of the characters `v[from..to]`.
pub fn from_chars(v: &[char], from: usize, to: usize) -> (s: String)
    requires
        from <= to <= v@.len(),
    ensures
        s@ == v@.subrange(from as int, to as int),
{
    let mut s = String::new();
    let mut i: usize = from;
    while i < to
        invariant
            from <= i <= to <= v@.len(),
            s@ == v@.subrange(from as int, i as int),
        decreases to - i,
    {
        push_char(&mut s, v[i]);
        assert(v@.subrange(from as int, i + 1) =~= v@.subrange(from as int, i as int).push(v@[i as int]));
        i += 1;
    }
    s
}

/// Whether the text `t` stands at place `i` of `s`.
pub open spec fn has_text(s: Seq<char>, i: int, t: Seq<char>) -> bool {
    0 <= i && i + t.len() <= s.len() && s.subrange(i, i + t.len()) == t
}

/// Whether the text `word` stands at `pos`.
pub fn starts_with_at(s: &[char], pos: usize, word: &str) -> (r: bool)
    ensures
        r == has_text(s@, pos as int, word@),
        r ==> pos + word@.len() <= usize::MAX,
{
    if pos > s.len() {
        return false;
    }
    let mut i: usize = pos;
    for c in it: word.chars()
        invariant
            it.seq() == word@,
            pos <= i <= s@.len(),
            i == pos + it.index(),
            s@.subrange(pos as int, i as int) == word@.take(it.index() as int),
    {
        if i >= s.len() || s[i] != c {
            proof {
                if pos + word@.len() <= s@.len() {
                    assert(s@.subrange(pos as int, pos + word@.len())[i - pos] == s@[i as int]);
                }
            }
            return false;
        }
        assert(s@.subrange(pos as int, i + 1) =~= word@.take(it.index() + 1));
        i += 1;
    }
    assert(word@.take(word@.len() as int) =~= word@);
    true
}

/// Whether `a` is the text `word`.
pub fn same_text(a: &[char], word: &str) -> (r: bool)
    ensures
        r == (a@ == word@),
{
    let r = starts_with_at(a, 0, word) && a.len() == word.unicode_len();
    proof {
        if r {
            assert(a@.subrange(0, a@.len() as int) =~= a@);
        }
        if a@ == word@ {
            assert(a@.subrange(0, a@.len() as int) =~= a@);
        }
    }
    r
}

/// Whether two strings hold the same characters.
pub fn equal(a: &str, b: &str) -> (r: bool)
    ensures
        r == (a@ == b@),
{
    let chars = to_chars(a);
    same_text(&chars, b)
}

} // verus!
