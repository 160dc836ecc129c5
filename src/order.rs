use vstd::prelude::*;
use vstd::relations::total_ordering;

verus! {

/// Lexicographic order on names, character by character.
pub open spec fn name_le(a: Seq<char>, b: Seq<char>) -> bool
    decreases a.len(),
{
    if a.len() == 0 {
        true
    } else if b.len() == 0 {
        false
    } else if a[0] != b[0] {
        (a[0] as int) < (b[0] as int)
    } else {
        name_le(a.drop_first(), b.drop_first())
    }
}

/// The order on slots of a pattern: by name, and slots of the same name by
/// their position in the input.
pub open spec fn key_le(a: (Seq<char>, int), b: (Seq<char>, int)) -> bool {
    (name_le(a.0, b.0) && a.0 != b.0) || (a.0 == b.0 && a.1 <= b.1)
}

/// A name is a first character followed by the rest.
proof fn lemma_split(a: Seq<char>)
    requires
        a.len() > 0,
    ensures
        a == seq![a[0]] + a.drop_first(),
{
    assert(a =~= seq![a[0]] + a.drop_first());
}

pub proof fn lemma_name_le_refl(a: Seq<char>)
    ensures
        name_le(a, a),
    decreases a.len(),
{
    if a.len() > 0 {
        lemma_name_le_refl(a.drop_first());
    }
}

pub proof fn lemma_name_le_antisym(a: Seq<char>, b: Seq<char>)
    requires
        name_le(a, b),
        name_le(b, a),
    ensures
        a == b,
    decreases a.len(),
{
    if a.len() == 0 {
        assert(a =~= b);
    } else {
        lemma_name_le_antisym(a.drop_first(), b.drop_first());
        lemma_split(a);
        lemma_split(b);
    }
}

pub proof fn lemma_name_le_trans(a: Seq<char>, b: Seq<char>, c: Seq<char>)
    requires
        name_le(a, b),
        name_le(b, c),
    ensures
        name_le(a, c),
    decreases a.len(),
{
    if a.len() > 0 && b.len() > 0 && c.len() > 0 && a[0] == b[0] && b[0] == c[0] {
        lemma_name_le_trans(a.drop_first(), b.drop_first(), c.drop_first());
    }
}

pub proof fn lemma_name_le_total(a: Seq<char>, b: Seq<char>)
    ensures
        name_le(a, b) || name_le(b, a),
    decreases a.len(),
{
    if a.len() > 0 && b.len() > 0 {
        if a[0] == b[0] {
            lemma_name_le_total(a.drop_first(), b.drop_first());
        } else {
            assert((a[0] as int) != (b[0] as int));
        }
    }
}

/// The order on slots is total.
pub proof fn lemma_key_le_total_ordering()
    ensures
        total_ordering(|a: (Seq<char>, int), b: (Seq<char>, int)| key_le(a, b)),
{
    let r = |a: (Seq<char>, int), b: (Seq<char>, int)| key_le(a, b);
    assert forall|a: (Seq<char>, int)| #[trigger] r(a, a) by {
        lemma_name_le_refl(a.0);
    }
    assert forall|a: (Seq<char>, int), b: (Seq<char>, int)| #[trigger] r(a, b) && #[trigger] r(b, a) implies a == b by {
        if a.0 != b.0 {
            lemma_name_le_antisym(a.0, b.0);
        }
    }
    assert forall|a: (Seq<char>, int), b: (Seq<char>, int), c: (Seq<char>, int)|
        #[trigger] r(a, b) && #[trigger] r(b, c) implies r(a, c) by {
        if a.0 != b.0 && b.0 != c.0 {
            lemma_name_le_trans(a.0, b.0, c.0);
            if a.0 == c.0 {
                lemma_name_le_antisym(a.0, b.0);
            }
        }
    }
    assert forall|a: (Seq<char>, int), b: (Seq<char>, int)| #[trigger] r(a, b) || #[trigger] r(b, a) by {
        lemma_name_le_total(a.0, b.0);
    }
}

/// Whether the name `a` comes before or equals the name `b`.
pub fn names_le(a: &str, b: &str) -> (r: bool)
    ensures
        r == name_le(a@, b@),
{
    let n = a.unicode_len();
    let m = b.unicode_len();
    let mut i: usize = 0;
    assert(a@.subrange(0, n as int) =~= a@);
    assert(b@.subrange(0, m as int) =~= b@);
    while i < n && i < m && a.get_char(i) == b.get_char(i)
        invariant
            n == a@.len(),
            m == b@.len(),
            i <= n,
            i <= m,
            name_le(a@, b@) == name_le(a@.subrange(i as int, n as int), b@.subrange(i as int, m as int)),
        decreases n - i,
    {
        assert(a@.subrange(i as int, n as int).drop_first() =~= a@.subrange(i as int + 1, n as int));
        assert(b@.subrange(i as int, m as int).drop_first() =~= b@.subrange(i as int + 1, m as int));
        i = i + 1;
    }
    if i == n {
        true
    } else if i == m {
        false
    } else {
        (a.get_char(i) as u32) < (b.get_char(i) as u32)
    }
}

} // verus!
