use vstd::prelude::*;

verus! {

/// Strict lexicographic order on character sequences, comparing character
/// codes position by position. This is the order the store sorts text
/// columns by.
pub open spec fn str_lt(a: Seq<char>, b: Seq<char>) -> bool
    decreases a.len(),
{
    if b.len() == 0 {
        false
    } else if a.len() == 0 {
        true
    } else if a[0] != b[0] {
        (a[0] as int) < (b[0] as int)
    } else {
        str_lt(a.skip(1), b.skip(1))
    }
}

/// Reflexive closure of `str_lt`.
pub open spec fn str_le(a: Seq<char>, b: Seq<char>) -> bool {
    !str_lt(b, a)
}

/// Any two character sequences are ordered or equal.
pub proof fn lemma_str_lt_trichotomy(a: Seq<char>, b: Seq<char>)
    ensures
        str_lt(a, b) || str_lt(b, a) || a == b,
    decreases a.len(),
{
    if a.len() == 0 && b.len() == 0 {
        assert(a =~= b);
    } else if a.len() > 0 && b.len() > 0 && a[0] == b[0] {
        lemma_str_lt_trichotomy(a.skip(1), b.skip(1));
        if !str_lt(a, b) && !str_lt(b, a) {
            assert(a.skip(1) == b.skip(1));
            assert forall|i: int| 0 <= i < a.len() implies a[i] == b[i] by {
                if i >= 1 {
                    assert(a[i] == a.skip(1)[i - 1]);
                    assert(b[i] == b.skip(1)[i - 1]);
                }
            }
            assert(a =~= b);
        }
    } else if a.len() > 0 && b.len() > 0 {
        // The head characters differ, so their codes differ and one side
        // is strictly smaller.
        assert((a[0] as int) != (b[0] as int));
    }
}

/// `str_lt` is transitive.
pub proof fn lemma_str_lt_trans(a: Seq<char>, b: Seq<char>, c: Seq<char>)
    requires
        str_lt(a, b),
        str_lt(b, c),
    ensures
        str_lt(a, c),
    decreases a.len(),
{
    if a.len() == 0 {
        // c is non-empty because str_lt(b, c) holds, so str_lt(a, c) holds.
    } else {
        // a, b, c are all non-empty here.
        if a[0] == b[0] && b[0] == c[0] {
            lemma_str_lt_trans(a.skip(1), b.skip(1), c.skip(1));
        } else {
            // The head codes satisfy a[0] <= b[0] <= c[0] with one strict step.
            assert((a[0] as int) < (c[0] as int));
            assert(a[0] != c[0]);
        }
    }
}

/// `str_le` is transitive.
pub proof fn lemma_str_le_trans(a: Seq<char>, b: Seq<char>, c: Seq<char>)
    requires
        str_le(a, b),
        str_le(b, c),
    ensures
        str_le(a, c),
{
    if str_lt(c, a) {
        lemma_str_lt_trichotomy(a, b);
        if str_lt(a, b) {
            lemma_str_lt_trans(c, a, b);
        }
    }
}

/// A strict step followed by a non-strict step stays strict.
pub proof fn lemma_str_lt_le_trans(a: Seq<char>, b: Seq<char>, c: Seq<char>)
    requires
        str_lt(a, b),
        str_le(b, c),
    ensures
        str_lt(a, c),
{
    if !str_lt(a, c) {
        lemma_str_lt_trichotomy(a, c);
        if str_lt(c, a) {
            lemma_str_lt_trans(c, a, b);
        }
    }
}

/// A non-strict step followed by a strict step stays strict.
pub proof fn lemma_str_le_lt_trans(a: Seq<char>, b: Seq<char>, c: Seq<char>)
    requires
        str_le(a, b),
        str_lt(b, c),
    ensures
        str_lt(a, c),
{
    if !str_lt(a, c) {
        lemma_str_lt_trichotomy(a, c);
        if str_lt(c, a) {
            lemma_str_lt_trans(b, c, a);
        } else {
            lemma_str_lt_trichotomy(a, b);
            if str_lt(a, b) {
                lemma_str_lt_trans(a, b, c);
            }
        }
    }
}

/// Result of comparing two strings in the store's order.
#[derive(Clone, Copy, PartialEq, Eq, Structural, Debug)]
pub enum StrOrd {
    Less,
    Equal,
    Greater,
}

/// Compares two strings in the lexicographic order `str_lt`.
pub fn cmp_str(a: &str, b: &str) -> (r: StrOrd)
    ensures
        (r is Less) == str_lt(a@, b@),
        (r is Greater) == str_lt(b@, a@),
        (r is Equal) == (a@ == b@),
{
    let alen = a.unicode_len();
    let blen = b.unicode_len();
    let mut i: usize = 0;
    assert(a@.skip(0) =~= a@);
    assert(b@.skip(0) =~= b@);
    while i < alen && i < blen
        invariant
            i <= alen,
            i <= blen,
            alen == a@.len(),
            blen == b@.len(),
            forall|k: int| 0 <= k < i ==> a@[k] == b@[k],
            str_lt(a@, b@) == str_lt(a@.skip(i as int), b@.skip(i as int)),
            str_lt(b@, a@) == str_lt(b@.skip(i as int), a@.skip(i as int)),
        decreases alen - i,
    {
        let ca = a.get_char(i);
        let cb = b.get_char(i);
        assert(a@.skip(i as int)[0] == a@[i as int]);
        assert(b@.skip(i as int)[0] == b@[i as int]);
        if ca == cb {
            assert(a@.skip(i as int).skip(1) =~= a@.skip(i + 1));
            assert(b@.skip(i as int).skip(1) =~= b@.skip(i + 1));
            i = i + 1;
        } else if (ca as u32) < (cb as u32) {
            return StrOrd::Less;
        } else {
            assert((cb as u32) < (ca as u32));
            return StrOrd::Greater;
        }
    }
    if alen == blen {
        assert(a@ =~= b@);
        StrOrd::Equal
    } else if alen < blen {
        assert(a@.skip(i as int).len() == 0);
        StrOrd::Less
    } else {
        assert(b@.skip(i as int).len() == 0);
        StrOrd::Greater
    }
}

} // verus!
