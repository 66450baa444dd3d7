use vstd::prelude::*;
use vstd::string::StrSliceExecFns;

verus! {

/// Lexicographic (codepoint) order on character sequences: `a` sorts no
/// later than `b`. A strict prefix sorts before every extension of itself.
pub open spec fn lex_le(a: Seq<char>, b: Seq<char>) -> bool
    decreases a.len(),
{
    if a.len() == 0 {
        true
    } else if b.len() == 0 {
        false
    } else if a[0] == b[0] {
        lex_le(a.drop_first(), b.drop_first())
    } else {
        (a[0] as u32) < (b[0] as u32)
    }
}

/// Any two sequences are ordered one way or the other.
pub proof fn lemma_lex_le_total(a: Seq<char>, b: Seq<char>)
    ensures
        lex_le(a, b) || lex_le(b, a),
    decreases a.len(),
{
    if a.len() != 0 && b.len() != 0 {
        if a[0] == b[0] {
            lemma_lex_le_total(a.drop_first(), b.drop_first());
        } else {
            vstd::utf8::char_u32_cast(a[0], a[0] as u32);
            vstd::utf8::char_u32_cast(b[0], b[0] as u32);
        }
    }
}

/// Mutually ordered sequences are equal.
pub proof fn lemma_lex_le_antisym(a: Seq<char>, b: Seq<char>)
    requires
        lex_le(a, b),
        lex_le(b, a),
    ensures
        a =~= b,
    decreases a.len(),
{
    if a.len() == 0 {
        assert(b.len() == 0);
    } else {
        assert(b.len() != 0);
        if a[0] == b[0] {
            lemma_lex_le_antisym(a.drop_first(), b.drop_first());
            assert forall|i: int| 0 <= i < a.len() implies a[i] == b[i] by {
                if i > 0 {
                    assert(a.drop_first()[i - 1] == b.drop_first()[i - 1]);
                }
            }
        }
    }
}

/// The order is transitive.
pub proof fn lemma_lex_le_trans(a: Seq<char>, b: Seq<char>, c: Seq<char>)
    requires
        lex_le(a, b),
        lex_le(b, c),
    ensures
        lex_le(a, c),
    decreases a.len(),
{
    if a.len() != 0 && b.len() != 0 && c.len() != 0 {
        vstd::utf8::char_u32_cast(a[0], a[0] as u32);
        vstd::utf8::char_u32_cast(b[0], b[0] as u32);
        vstd::utf8::char_u32_cast(c[0], c[0] as u32);
        if a[0] == b[0] && b[0] == c[0] {
            lemma_lex_le_trans(a.drop_first(), b.drop_first(), c.drop_first());
        }
    }
}

/// Sequences that agree on their first `i` characters compare however
/// their remainders compare.
proof fn lemma_lex_le_skip(a: Seq<char>, b: Seq<char>, i: int)
    requires
        0 <= i <= a.len(),
        i <= b.len(),
        forall|j: int| 0 <= j < i ==> a[j] == b[j],
    ensures
        lex_le(a, b) == lex_le(a.skip(i), b.skip(i)),
    decreases i,
{
    if i > 0 {
        assert(a[0] == b[0]);
        assert(forall|j: int| 0 <= j < i - 1 ==> a.drop_first()[j] == b.drop_first()[j]);
        lemma_lex_le_skip(a.drop_first(), b.drop_first(), i - 1);
        assert(a.drop_first().skip(i - 1) =~= a.skip(i));
        assert(b.drop_first().skip(i - 1) =~= b.skip(i));
    } else {
        assert(a.skip(0) =~= a);
        assert(b.skip(0) =~= b);
    }
}

/// Decides `lex_le` on string slices.
pub fn str_le(a: &str, b: &str) -> (r: bool)
    ensures
        r == lex_le(a@, b@),
{
    let a_len = a.unicode_len();
    let b_len = b.unicode_len();
    let mut i: usize = 0;
    loop
        invariant
            i <= a_len,
            i <= b_len,
            a_len == a@.len(),
            b_len == b@.len(),
            forall|j: int| 0 <= j < i ==> a@[j] == b@[j],
        decreases a_len - i,
    {
        proof {
            lemma_lex_le_skip(a@, b@, i as int);
        }
        if i == a_len {
            assert(a@.skip(i as int).len() == 0);
            return true;
        }
        if i == b_len {
            assert(b@.skip(i as int).len() == 0);
            assert(!lex_le(a@.skip(i as int), b@.skip(i as int)));
            return false;
        }
        let ca = a.get_char(i);
        let cb = b.get_char(i);
        if ca != cb {
            assert(a@.skip(i as int)[0] == ca);
            assert(b@.skip(i as int)[0] == cb);
            return (ca as u32) < (cb as u32);
        }
        i = i + 1;
    }
}

} // verus!
