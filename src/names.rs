//! Field names and their order: the byte-wise order of their UTF-8 text,
//! the same order in which `str` compares.

use vstd::prelude::*;
use vstd::utf8::{encode_utf8, encode_utf8_decode_utf8};

verus! {

/// The bytes by which a name is ordered.
pub open spec fn name_key(s: Seq<char>) -> Seq<u8> {
    encode_utf8(s)
}

/// `a` comes strictly before `b` in lexicographic byte order.
pub open spec fn lex_lt(a: Seq<u8>, b: Seq<u8>) -> bool
    decreases a.len(),
{
    if a.len() == 0 {
        b.len() > 0
    } else if b.len() == 0 {
        false
    } else if a[0] != b[0] {
        a[0] < b[0]
    } else {
        lex_lt(a.drop_first(), b.drop_first())
    }
}

/// Name `a` comes strictly before name `b`.
pub open spec fn name_lt(a: Seq<char>, b: Seq<char>) -> bool {
    lex_lt(name_key(a), name_key(b))
}

/// No byte string comes before itself.
pub proof fn lemma_lex_irreflexive(a: Seq<u8>)
    ensures
        !lex_lt(a, a),
    decreases a.len(),
{
    if a.len() > 0 {
        lemma_lex_irreflexive(a.drop_first());
    }
}

/// Of two byte strings, at most one comes before the other.
pub proof fn lemma_lex_asymmetric(a: Seq<u8>, b: Seq<u8>)
    ensures
        !(lex_lt(a, b) && lex_lt(b, a)),
    decreases a.len(),
{
    if a.len() > 0 && b.len() > 0 && a[0] == b[0] {
        lemma_lex_asymmetric(a.drop_first(), b.drop_first());
    }
}

/// The byte order is transitive.
pub proof fn lemma_lex_transitive(a: Seq<u8>, b: Seq<u8>, c: Seq<u8>)
    requires
        lex_lt(a, b),
        lex_lt(b, c),
    ensures
        lex_lt(a, c),
    decreases a.len(),
{
    if a.len() > 0 && b.len() > 0 && c.len() > 0 && a[0] == b[0] && b[0] == c[0] {
        lemma_lex_transitive(a.drop_first(), b.drop_first(), c.drop_first());
    }
}

/// Of two different byte strings, one comes before the other.
pub proof fn lemma_lex_total(a: Seq<u8>, b: Seq<u8>)
    ensures
        a != b ==> lex_lt(a, b) || lex_lt(b, a),
    decreases a.len(),
{
    if a.len() > 0 && b.len() > 0 && a[0] == b[0] {
        lemma_lex_total(a.drop_first(), b.drop_first());
        if a.drop_first() == b.drop_first() {
            assert(a =~= seq![a[0]] + a.drop_first());
            assert(b =~= seq![b[0]] + b.drop_first());
        }
    } else if a.len() == 0 && b.len() == 0 {
        assert(a =~= b);
    }
}

/// A common prefix does not decide the order.
proof fn lemma_lex_skip(a: Seq<u8>, b: Seq<u8>, i: int)
    requires
        0 <= i <= a.len(),
        i <= b.len(),
        a.take(i) == b.take(i),
    ensures
        lex_lt(a, b) == lex_lt(a.skip(i), b.skip(i)),
    decreases i,
{
    if i > 0 {
        assert(a[0] == a.take(i)[0]);
        assert(b[0] == b.take(i)[0]);
        assert(a.drop_first().take(i - 1) =~= a.take(i).drop_first());
        assert(b.drop_first().take(i - 1) =~= b.take(i).drop_first());
        lemma_lex_skip(a.drop_first(), b.drop_first(), i - 1);
        assert(a.drop_first().skip(i - 1) =~= a.skip(i));
        assert(b.drop_first().skip(i - 1) =~= b.skip(i));
    } else {
        assert(a.skip(0) =~= a);
        assert(b.skip(0) =~= b);
    }
}

/// Names with the same bytes are the same name.
pub proof fn lemma_name_key_injective(a: Seq<char>, b: Seq<char>)
    ensures
        name_key(a) == name_key(b) ==> a == b,
{
    encode_utf8_decode_utf8(a);
    encode_utf8_decode_utf8(b);
}

/// Compares two names: negative, zero or positive as `a` comes before, equals,
/// or comes after `b`.
pub fn compare_names(a: &str, b: &str) -> (r: i8)
    ensures
        r < 0 <==> name_lt(a@, b@),
        r == 0 <==> a@ == b@,
        r > 0 <==> name_lt(b@, a@),
{
    let ab = a.as_bytes();
    let bb = b.as_bytes();
    let ghost ka = name_key(a@);
    let ghost kb = name_key(b@);
    let mut i: usize = 0;
    while i < ab.len() && i < bb.len() && ab[i] == bb[i]
        invariant
            ab@ == ka,
            bb@ == kb,
            0 <= i <= ka.len(),
            i <= kb.len(),
            ka.take(i as int) == kb.take(i as int),
        decreases ab.len() - i,
    {
        assert(ka.take(i + 1) =~= ka.take(i as int).push(ka[i as int]));
        assert(kb.take(i + 1) =~= kb.take(i as int).push(kb[i as int]));
        i = i + 1;
    }
    proof {
        lemma_lex_skip(ka, kb, i as int);
        lemma_lex_skip(kb, ka, i as int);
        lemma_name_key_injective(a@, b@);
        lemma_lex_irreflexive(ka);
        lemma_lex_asymmetric(ka, kb);
        let sa = ka.skip(i as int);
        let sb = kb.skip(i as int);
        if i == ab.len() && i == bb.len() {
            assert(ka =~= ka.take(i as int));
            assert(kb =~= kb.take(i as int));
        }
        if i < ab.len() && i < bb.len() {
            assert(sa[0] == ka[i as int]);
            assert(sb[0] == kb[i as int]);
            assert(ka != kb);
        }
        if i == ab.len() && i < bb.len() {
            assert(ka.len() != kb.len());
        }
        if i < ab.len() && i == bb.len() {
            assert(ka.len() != kb.len());
        }
    }
    if i == ab.len() && i == bb.len() {
        0
    } else if i == ab.len() {
        -1
    } else if i == bb.len() {
        1
    } else if ab[i] < bb[i] {
        -1
    } else {
        1
    }
}

} // verus!
