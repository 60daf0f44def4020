//! Lexicographic order on character sequences, the order in which `String`s
//! compare, and lists of names kept in that order.

use vstd::prelude::*;

verus! {

/// `a` comes strictly before `b` in lexicographic order of code points.
pub open spec fn chars_lt(a: Seq<char>, b: Seq<char>) -> bool
    decreases a.len(),
{
    if a.len() == 0 {
        b.len() > 0
    } else if b.len() == 0 {
        false
    } else if a[0] != b[0] {
        a[0] < b[0]
    } else {
        chars_lt(a.drop_first(), b.drop_first())
    }
}

/// Nothing comes before itself.
pub proof fn lemma_chars_lt_irreflexive(a: Seq<char>)
    ensures
        !chars_lt(a, a),
    decreases a.len(),
{
    if a.len() > 0 {
        lemma_chars_lt_irreflexive(a.drop_first());
    }
}

/// Of two different sequences, one comes before the other, and never both.
pub proof fn lemma_chars_lt_total(a: Seq<char>, b: Seq<char>)
    ensures
        a != b ==> (chars_lt(a, b) || chars_lt(b, a)),
        !(chars_lt(a, b) && chars_lt(b, a)),
    decreases a.len(),
{
    if a.len() > 0 && b.len() > 0 && a[0] == b[0] {
        lemma_chars_lt_total(a.drop_first(), b.drop_first());
        if a != b {
            assert(a.drop_first() != b.drop_first()) by {
                if a.drop_first() == b.drop_first() {
                    assert(a =~= seq![a[0]] + a.drop_first());
                    assert(b =~= seq![b[0]] + b.drop_first());
                }
            }
        }
    } else if a.len() == 0 && b.len() == 0 {
        assert(a =~= b);
    }
}

/// The order is transitive.
pub proof fn lemma_chars_lt_transitive(a: Seq<char>, b: Seq<char>, c: Seq<char>)
    requires
        chars_lt(a, b),
        chars_lt(b, c),
    ensures
        chars_lt(a, c),
    decreases a.len(),
{
    if a.len() > 0 && b.len() > 0 && c.len() > 0 && a[0] == b[0] && b[0] == c[0] {
        lemma_chars_lt_transitive(a.drop_first(), b.drop_first(), c.drop_first());
    }
}

/// The list is in strictly increasing lexicographic order: sorted and without
/// duplicates.
pub open spec fn strictly_sorted(s: Seq<Seq<char>>) -> bool {
    forall|i: int, j: int| 0 <= i < j < s.len() ==> chars_lt(#[trigger] s[i], #[trigger] s[j])
}

/// The views of a list of character vectors.
pub open spec fn char_views(v: Seq<Vec<char>>) -> Seq<Seq<char>> {
    v.map_values(|x: Vec<char>| x@)
}

/// Whether `a` comes strictly before `b`.
pub fn chars_less(a: &[char], b: &[char]) -> (res: bool)
    ensures
        res == chars_lt(a@, b@),
{
    let mut i: usize = 0;
    assert(a@.skip(0) =~= a@);
    assert(b@.skip(0) =~= b@);
    while i < a.len() && i < b.len() && a[i] == b[i]
        invariant
            i <= a.len(),
            i <= b.len(),
            chars_lt(a@, b@) == chars_lt(a@.skip(i as int), b@.skip(i as int)),
        decreases a.len() - i,
    {
        assert(a@.skip(i as int).drop_first() =~= a@.skip(i + 1));
        assert(b@.skip(i as int).drop_first() =~= b@.skip(i + 1));
        i = i + 1;
    }
    assert(i < a.len() ==> a@.skip(i as int)[0] == a@[i as int]);
    assert(i < b.len() ==> b@.skip(i as int)[0] == b@[i as int]);
    if i == a.len() {
        i < b.len()
    } else if i == b.len() {
        false
    } else {
        a[i] < b[i]
    }
}

/// Whether `a` and `b` hold the same characters.
pub fn chars_equal(a: &[char], b: &[char]) -> (res: bool)
    ensures
        res == (a@ == b@),
{
    if a.len() != b.len() {
        return false;
    }
    let mut i: usize = 0;
    while i < a.len()
        invariant
            i <= a.len() == b.len(),
            forall|j: int| 0 <= j < i ==> a@[j] == b@[j],
        decreases a.len() - i,
    {
        if a[i] != b[i] {
            return false;
        }
        i = i + 1;
    }
    assert(a@ =~= b@);
    true
}

/// A copy of a character vector.
pub fn copy_chars(a: &[char]) -> (res: Vec<char>)
    ensures
        res@ == a@,
{
    let mut v: Vec<char> = Vec::new();
    let mut i: usize = 0;
    while i < a.len()
        invariant
            i <= a.len(),
            v@ == a@.take(i as int),
        decreases a.len() - i,
    {
        v.push(a[i]);
        i = i + 1;
        assert(v@ == a@.take(i as int));
    }
    assert(a@.take(i as int) =~= a@);
    v
}

/// Where `name` stands in the strictly sorted list `names`, or where it would be
/// inserted: the number of entries that come before it, and whether the entry at
/// that index equals it.
pub fn find_slot(names: &Vec<Vec<char>>, name: &[char]) -> (res: (usize, bool))
    requires
        strictly_sorted(char_views(names@)),
    ensures
        res.0 <= names.len(),
        forall|i: int| 0 <= i < res.0 ==> chars_lt(#[trigger] names@[i]@, name@),
        res.1 ==> res.0 < names.len() && names@[res.0 as int]@ == name@,
        !res.1 ==> forall|i: int| res.0 <= i < names.len() ==> chars_lt(name@, #[trigger] names@[i]@),
{
    let mut i: usize = 0;
    while i < names.len() && chars_less(names[i].as_slice(), name)
        invariant
            i <= names.len(),
            forall|j: int| 0 <= j < i ==> chars_lt(#[trigger] names@[j]@, name@),
        decreases names.len() - i,
    {
        i = i + 1;
    }
    if i < names.len() && chars_equal(names[i].as_slice(), name) {
        (i, true)
    } else {
        proof {
            if i < names.len() {
                lemma_chars_lt_total(names@[i as int]@, name@);
                assert forall|j: int| i <= j < names.len() implies chars_lt(name@, #[trigger] names@[j]@) by {
                    if j > i {
                        assert(chars_lt(char_views(names@)[i as int], char_views(names@)[j]));
                        lemma_chars_lt_transitive(name@, names@[i as int]@, names@[j]@);
                    }
                }
            }
        }
        (i, false)
    }
}

/// Adds `name` to the strictly sorted list `names` unless it is there already.
pub fn insert_sorted(names: &mut Vec<Vec<char>>, name: Vec<char>)
    requires
        strictly_sorted(char_views(old(names)@)),
    ensures
        strictly_sorted(char_views(final(names)@)),
        char_views(final(names)@).to_set() == char_views(old(names)@).to_set().insert(name@),
{
    let ghost old_views = char_views(names@);
    let (i, found) = find_slot(names, name.as_slice());
    if found {
        assert(old_views.to_set().insert(name@) =~= old_views.to_set()) by {
            assert(old_views[i as int] == name@);
            assert(old_views.contains(name@));
        }
        return;
    }
    let ghost nv = name@;
    names.insert(i, name);
    let ghost new_views = char_views(names@);
    assert(new_views =~= old_views.insert(i as int, nv));
    proof {
        old_views.insert_ensures(i as int, nv);
        assert forall|a: int, b: int| 0 <= a < b < new_views.len() implies chars_lt(
            #[trigger] new_views[a],
            #[trigger] new_views[b],
        ) by {
            if b < i {
            } else if a < i && b == i {
                assert(chars_lt(names@[a]@, nv));
            } else if a < i && b > i {
                assert(new_views[b] == old_views[b - 1]);
                assert(new_views[a] == old_views[a]);
            } else if a == i {
                assert(new_views[b] == old_views[b - 1]);
            } else {
                assert(new_views[b] == old_views[b - 1]);
                assert(new_views[a] == old_views[a - 1]);
            }
        }
        assert(new_views.to_set() =~= old_views.to_set().insert(nv)) by {
            assert forall|x: Seq<char>| new_views.to_set().contains(x) implies old_views.to_set().insert(nv).contains(x) by {
                let k = choose|k: int| 0 <= k < new_views.len() && new_views[k] == x;
                if k < i {
                    assert(old_views[k] == x);
                } else if k > i {
                    assert(old_views[k - 1] == x);
                }
            }
            assert forall|x: Seq<char>| old_views.to_set().insert(nv).contains(x) implies new_views.to_set().contains(x) by {
                if x == nv {
                    assert(new_views[i as int] == nv);
                } else {
                    let k = choose|k: int| 0 <= k < old_views.len() && old_views[k] == x;
                    if k < i {
                        assert(new_views[k] == x);
                    } else {
                        assert(new_views[k + 1] == x);
                    }
                }
            }
        }
    }
}

} // verus!
