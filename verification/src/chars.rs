//! Strings as sequences of characters: taking them apart, trimming them, and
//! building them again.

use vstd::prelude::*;

verus! {

broadcast use vstd::string::axiom_spec_iter;

/// The characters of `s`.
pub fn chars_of(s: &str) -> (r: Vec<char>)
    ensures
        r@ == s@,
{
    let mut v: Vec<char> = Vec::new();
    for c in it: s.chars()
        invariant
            v@ == it.seq().take(it.index() as int),
    {
        v.push(c);
    }
    v
}

/// `String::push`: appends one character.
#[verifier::external_body]
fn string_push(s: &mut String, c: char)
    ensures
        final(s)@ == old(s)@.push(c),
{
    s.push(c)
}

/// The string of the characters `v[from..to]`.
pub fn string_from_chars(v: &Vec<char>, from: usize, to: usize) -> (r: String)
    requires
        from <= to <= v.len(),
    ensures
        r@ == v@.subrange(from as int, to as int),
{
    let mut s = String::new();
    let mut i = from;
    while i < to
        invariant
            from <= i <= to <= v.len(),
            s@ == v@.subrange(from as int, i as int),
        decreases to - i,
    {
        string_push(&mut s, v[i]);
        assert(v@.subrange(from as int, i + 1) =~= v@.subrange(from as int, i as int).push(v@[i as int]));
        i = i + 1;
    }
    s
}

/// Unicode `White_Space`, the whitespace that `str::trim` removes.
pub open spec fn is_white_space(c: char) -> bool {
    let v = c as u32;
    (9 <= v <= 13) || v == 32 || v == 0x85 || v == 0xA0 || v == 0x1680 || (0x2000 <= v <= 0x200A)
        || v == 0x2028 || v == 0x2029 || v == 0x202F || v == 0x205F || v == 0x3000
}

/// `s` without the characters that satisfy `f` at its start and at its end.
pub open spec fn strip_both(s: Seq<char>, f: spec_fn(char) -> bool) -> Seq<char>
    decreases s.len(),
{
    if s.len() > 0 && f(s[0]) {
        strip_both(s.drop_first(), f)
    } else if s.len() > 0 && f(s.last()) {
        strip_both(s.drop_last(), f)
    } else {
        s
    }
}

/// `s` without the whitespace at its start and at its end, as `str::trim` gives it.
pub open spec fn trimmed(s: Seq<char>) -> Seq<char> {
    strip_both(s, strip_class(false))
}

/// `s` without the double quotes at its start and at its end, as
/// `str::trim_matches('"')` gives it.
pub open spec fn unquoted(s: Seq<char>) -> Seq<char> {
    strip_both(s, strip_class(true))
}

/// The character class used for stripping: double quotes, or whitespace.
pub open spec fn strip_class(quotes: bool) -> spec_fn(char) -> bool {
    if quotes {
        |c: char| c == '"'
    } else {
        |c: char| is_white_space(c)
    }
}

fn in_strip_class(c: char, quotes: bool) -> (r: bool)
    ensures
        r == (strip_class(quotes))(c),
{
    if quotes {
        c == '"'
    } else {
        let v = c as u32;
        (9 <= v && v <= 13) || v == 32 || v == 0x85 || v == 0xA0 || v == 0x1680 || (0x2000 <= v
            && v <= 0x200A) || v == 0x2028 || v == 0x2029 || v == 0x202F || v == 0x205F || v
            == 0x3000
    }
}

proof fn lemma_strip_leading(s: Seq<char>, a: int, f: spec_fn(char) -> bool)
    requires
        0 <= a <= s.len(),
        forall|i: int| 0 <= i < a ==> f(#[trigger] s[i]),
    ensures
        strip_both(s, f) == strip_both(s.skip(a), f),
    decreases a,
{
    if a > 0 {
        assert(s.drop_first().skip(a - 1) =~= s.skip(a));
        assert forall|i: int| 0 <= i < a - 1 implies f(#[trigger] s.drop_first()[i]) by {
            assert(s.drop_first()[i] == s[i + 1]);
        }
        lemma_strip_leading(s.drop_first(), a - 1, f);
    } else {
        assert(s.skip(0) =~= s);
    }
}

proof fn lemma_strip_trailing(t: Seq<char>, b: int, f: spec_fn(char) -> bool)
    requires
        0 <= b <= t.len(),
        t.len() == 0 || !f(t[0]),
        forall|i: int| b <= i < t.len() ==> f(#[trigger] t[i]),
    ensures
        strip_both(t, f) == strip_both(t.take(b), f),
    decreases t.len() - b,
{
    if b < t.len() {
        assert(b >= 1);
        assert(t.drop_last().take(b) =~= t.take(b));
        assert forall|i: int| b <= i < t.drop_last().len() implies f(#[trigger] t.drop_last()[i]) by {
            assert(t.drop_last()[i] == t[i]);
        }
        lemma_strip_trailing(t.drop_last(), b, f);
    } else {
        assert(t.take(b) =~= t);
    }
}

/// `v[from..to]` without the characters of the class at either end.
pub fn strip_chars(v: &Vec<char>, from: usize, to: usize, quotes: bool) -> (r: String)
    requires
        from <= to <= v.len(),
    ensures
        r@ == strip_both(v@.subrange(from as int, to as int), strip_class(quotes)),
{
    let ghost f = strip_class(quotes);
    let mut a = from;
    while a < to && in_strip_class(v[a], quotes)
        invariant
            from <= a <= to <= v.len(),
            f == strip_class(quotes),
            forall|i: int| from <= i < a ==> f(#[trigger] v@[i]),
        decreases to - a,
    {
        a = a + 1;
    }
    let mut b = to;
    while b > a && in_strip_class(v[b - 1], quotes)
        invariant
            a <= b <= to <= v.len(),
            f == strip_class(quotes),
            forall|i: int| b <= i < to ==> f(#[trigger] v@[i]),
        decreases b - a,
    {
        b = b - 1;
    }
    proof {
        let s = v@.subrange(from as int, to as int);
        assert forall|i: int| 0 <= i < a - from implies f(#[trigger] s[i]) by {
            assert(s[i] == v@[i + from]);
        }
        lemma_strip_leading(s, a - from, f);
        let t = v@.subrange(a as int, to as int);
        assert(s.skip(a - from) =~= t);
        assert forall|i: int| b - a <= i < t.len() implies f(#[trigger] t[i]) by {
            assert(t[i] == v@[i + a]);
        }
        lemma_strip_trailing(t, b - a, f);
        let u = t.take(b - a);
        assert(u =~= v@.subrange(a as int, b as int));
    }
    string_from_chars(v, a, b)
}

} // verus!
