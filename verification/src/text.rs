//! Comparing texts character by character, and splitting a text at a separator.
use vstd::prelude::*;

verus! {

/// Whether the two texts hold the same characters (`a == b` on `str`).
pub fn text_equals(a: &str, b: &str) -> (r: bool)
    ensures
        r == (a@ == b@),
{
    let n = a.unicode_len();
    if n != b.unicode_len() {
        return false;
    }
    let mut i: usize = 0;
    while i < n
        invariant
            i <= n,
            n == a@.len(),
            n == b@.len(),
            forall|j: int| 0 <= j < i ==> a@[j] == b@[j],
        decreases n - i,
    {
        if a.get_char(i) != b.get_char(i) {
            return false;
        }
        i = i + 1;
    }
    assert(a@ =~= b@);
    true
}

/// Two texts that each put the separator `c` right after a part that holds no `c`
/// split there alike: the parts before it are equal, and so are the rests.
pub proof fn lemma_split_at_separator(a1: Seq<char>, b1: Seq<char>, a2: Seq<char>, b2: Seq<char>, c: char)
    requires
        a1 + seq![c] + b1 == a2 + seq![c] + b2,
        !a1.contains(c),
        !a2.contains(c),
    ensures
        a1 == a2,
        b1 == b2,
{
    let s1 = a1 + seq![c] + b1;
    let s2 = a2 + seq![c] + b2;
    if a1.len() < a2.len() {
        assert(s1[a1.len() as int] == c);
        assert(s2[a1.len() as int] == a2[a1.len() as int]);
        assert(a2.contains(c));
    } else if a2.len() < a1.len() {
        assert(s2[a2.len() as int] == c);
        assert(s1[a2.len() as int] == a1[a2.len() as int]);
        assert(a1.contains(c));
    } else {
        assert(a1 =~= s1.subrange(0, a1.len() as int));
        assert(a2 =~= s2.subrange(0, a2.len() as int));
        assert(b1 =~= s1.subrange(a1.len() as int + 1, s1.len() as int));
        assert(b2 =~= s2.subrange(a2.len() as int + 1, s2.len() as int));
    }
}

/// Two texts that start with parts of the same length split there alike.
pub proof fn lemma_split_at_length(a1: Seq<char>, b1: Seq<char>, a2: Seq<char>, b2: Seq<char>)
    requires
        a1 + b1 == a2 + b2,
        a1.len() == a2.len(),
    ensures
        a1 == a2,
        b1 == b2,
{
    assert(a1 =~= (a1 + b1).subrange(0, a1.len() as int));
    assert(a2 =~= (a2 + b2).subrange(0, a2.len() as int));
    assert(b1 =~= (a1 + b1).subrange(a1.len() as int, (a1 + b1).len() as int));
    assert(b2 =~= (a2 + b2).subrange(a2.len() as int, (a2 + b2).len() as int));
}

} // verus!
