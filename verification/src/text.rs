//! Characters and strings: ASCII lower-casing, whitespace, and the
//! lexicographic order on strings.

use vstd::prelude::*;

verus! {

/// The ASCII lower-case form of a character: `'A'..='Z'` move to
/// `'a'..='z'`, every other character stays as it is.
pub open spec fn lower_char(c: char) -> char {
    if 'A' <= c && c <= 'Z' {
        ((c as u8) + 32) as char
    } else {
        c
    }
}

/// The ASCII lower-case form of a string, character by character.
pub open spec fn lower(s: Seq<char>) -> Seq<char> {
    s.map_values(|c: char| lower_char(c))
}

/// Lower-casing twice is lower-casing once.
pub proof fn lemma_lower_idempotent(s: Seq<char>)
    ensures
        lower(lower(s)) == lower(s),
{
    assert(lower(lower(s)) =~= lower(s));
}

/// Whether a character is whitespace: whether it has the Unicode property
/// `White_Space`, as `char::is_whitespace` of the standard library tells.
/// Which characters these are is not stated here.
pub uninterp spec fn whitespace(c: char) -> bool;

/// Taken on trust of `char::is_whitespace`: what it returns depends on the
/// character alone, and is what [`whitespace`] names.
pub assume_specification[ char::is_whitespace ](c: char) -> (r: bool)
    ensures
        r == whitespace(c),
;

/// Taken on trust of `String::push`: it appends the character to the end
/// of the string and leaves what stood before it as it was.
pub assume_specification[ String::push ](s: &mut String, c: char)
    ensures
        final(s)@ == old(s)@.push(c),
;

/// Computes [`lower_char`].
pub fn to_lower_char(c: char) -> (r: char)
    ensures
        r == lower_char(c),
{
    if 'A' <= c && c <= 'Z' {
        ((c as u8) + 32) as char
    } else {
        c
    }
}

/// Computes [`lower`].
pub fn to_lower(s: &str) -> (r: String)
    ensures
        r@ == lower(s@),
{
    let mut out = String::new();
    for c in it: s.chars()
        invariant
            it.seq() == s@,
            out@ == lower(s@.take(it.index())),
    {
        proof {
            let i = it.index();
            assert(s@.take(i + 1) == s@.take(i).push(c));
            assert(lower(s@.take(i + 1)) == lower(s@.take(i)).push(lower_char(c)));
        }
        out.push(to_lower_char(c));
    }
    proof {
        assert(s@.take(s@.len() as int) == s@);
    }
    out
}

/// The strict lexicographic order on strings, characters compared by
/// code point. A proper prefix comes before any of its extensions.
pub open spec fn lex_lt(a: Seq<char>, b: Seq<char>) -> bool
    decreases a.len(),
{
    if b.len() == 0 {
        false
    } else if a.len() == 0 {
        true
    } else if a[0] == b[0] {
        lex_lt(a.drop_first(), b.drop_first())
    } else {
        a[0] < b[0]
    }
}

/// No string comes before itself.
pub proof fn lemma_lex_irreflexive(a: Seq<char>)
    ensures
        !lex_lt(a, a),
    decreases a.len(),
{
    if a.len() > 0 {
        lemma_lex_irreflexive(a.drop_first());
    }
}

/// Of two strings at most one comes before the other.
pub proof fn lemma_lex_asymmetric(a: Seq<char>, b: Seq<char>)
    requires
        lex_lt(a, b),
    ensures
        !lex_lt(b, a),
    decreases a.len(),
{
    if a.len() > 0 && b.len() > 0 && a[0] == b[0] {
        lemma_lex_asymmetric(a.drop_first(), b.drop_first());
    }
}

/// The order is transitive.
pub proof fn lemma_lex_transitive(a: Seq<char>, b: Seq<char>, c: Seq<char>)
    requires
        lex_lt(a, b),
        lex_lt(b, c),
    ensures
        lex_lt(a, c),
    decreases a.len(),
{
    if a.len() > 0 && b.len() > 0 && c.len() > 0 && a[0] == b[0] && b[0] == c[0] {
        lemma_lex_transitive(a.drop_first(), b.drop_first(), c.drop_first());
    }
}

/// The order is total: two different strings are ordered one way or the
/// other.
pub proof fn lemma_lex_total(a: Seq<char>, b: Seq<char>)
    ensures
        lex_lt(a, b) || a == b || lex_lt(b, a),
    decreases a.len(),
{
    if a.len() == 0 || b.len() == 0 {
        if a.len() == 0 && b.len() == 0 {
            assert(a =~= b);
        }
    } else if a[0] == b[0] {
        lemma_lex_total(a.drop_first(), b.drop_first());
        if a.drop_first() == b.drop_first() {
            assert(a =~= seq![a[0]] + a.drop_first());
            assert(b =~= seq![b[0]] + b.drop_first());
        }
    }
}

/// How one value stands to another in a strict total order.
#[derive(Clone, Copy, Debug, PartialEq, Eq, Structural)]
pub enum Relation {
    Before,
    Same,
    After,
}

/// How `a` stands to `b` in the lexicographic order.
pub open spec fn relate(a: Seq<char>, b: Seq<char>) -> Relation {
    if lex_lt(a, b) {
        Relation::Before
    } else if a == b {
        Relation::Same
    } else {
        Relation::After
    }
}

/// Computes [`relate`] in one pass over both strings.
pub fn compare_words(a: &str, b: &str) -> (r: Relation)
    ensures
        r == relate(a@, b@),
        r is After ==> lex_lt(b@, a@),
{
    let mut ia = a.chars();
    let mut ib = b.chars();
    let ghost mut i: int = 0;
    proof {
        assert(a@.skip(0) == a@);
        assert(b@.skip(0) == b@);
    }
    loop
        invariant
            0 <= i <= a@.len(),
            i <= b@.len(),
            vstd::std_specs::iter::IteratorSpec::remaining(&ia) == a@.skip(i),
            vstd::std_specs::iter::IteratorSpec::remaining(&ib) == b@.skip(i),
            relate(a@, b@) == relate(a@.skip(i), b@.skip(i)),
            lex_lt(b@, a@) == lex_lt(b@.skip(i), a@.skip(i)),
        decreases a@.len() - i,
    {
        let ghost ra = a@.skip(i);
        let ghost rb = b@.skip(i);
        let ca = ia.next();
        let cb = ib.next();
        match (ca, cb) {
            (None, None) => {
                assert(ra =~= rb);
                return Relation::Same;
            },
            (None, Some(_)) => {
                return Relation::Before;
            },
            (Some(_), None) => {
                return Relation::After;
            },
            (Some(x), Some(y)) => {
                if x < y {
                    return Relation::Before;
                } else if y < x {
                    return Relation::After;
                }
                proof {
                    assert(ra.drop_first() == a@.skip(i + 1));
                    assert(rb.drop_first() == b@.skip(i + 1));
                    assert(ra == seq![x] + ra.drop_first());
                    assert(rb == seq![y] + rb.drop_first());
                    assert(ra == rb <==> ra.drop_first() == rb.drop_first());
                    i = i + 1;
                }
            },
        }
    }
}

/// Whether two strings hold the same text.
pub fn same_text(a: &str, b: &str) -> (r: bool)
    ensures
        r == (a@ == b@),
{
    proof {
        lemma_lex_irreflexive(a@);
    }
    match compare_words(a, b) {
        Relation::Same => true,
        _ => false,
    }
}

} // verus!
