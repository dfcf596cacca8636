//! Lists of strings read as lists of character sequences, and the few facts
//! about such lists that the set tables rest on.

use vstd::prelude::*;

verus! {

/// The character sequences that a list of strings stands for, in order.
pub open spec fn names(v: Seq<String>) -> Seq<Seq<char>> {
    v.map_values(|s: String| s@)
}

/// Appending a string appends its character sequence.
pub proof fn lemma_names_push(v: Seq<String>, s: String)
    ensures
        names(v.push(s)) == names(v).push(s@),
{
    assert(names(v.push(s)) =~= names(v).push(s@));
}

/// Taking out the string at `i` takes out the character sequence at `i`.
pub proof fn lemma_names_remove(v: Seq<String>, i: int)
    requires
        0 <= i < v.len(),
    ensures
        names(v.remove(i)) == names(v).remove(i),
{
    assert(names(v.remove(i)) =~= names(v).remove(i));
}

/// A list extended by a new element holds what it held before and that element.
pub proof fn lemma_push_set<A>(s: Seq<A>, x: A)
    ensures
        s.push(x).to_set() == s.to_set().insert(x),
        s.no_duplicates() && !s.contains(x) ==> s.push(x).no_duplicates(),
{
    let p = s.push(x);
    assert forall|y: A| p.to_set().contains(y) <==> s.to_set().insert(x).contains(y) by {
        if p.contains(y) {
            let i = choose|i: int| 0 <= i < p.len() && p[i] == y;
            if i < s.len() {
                assert(s[i] == y);
            }
        }
        if s.contains(y) {
            let i = choose|i: int| 0 <= i < s.len() && s[i] == y;
            assert(p[i] == y);
        }
        if y == x {
            assert(p[s.len() as int] == y);
        }
    }
    assert(p.to_set() =~= s.to_set().insert(x));
    if s.no_duplicates() && !s.contains(x) {
        assert forall|i: int, j: int| 0 <= i < p.len() && 0 <= j < p.len() && i != j implies p[i]
            != p[j] by {
            if i < s.len() && j < s.len() {
            } else if i < s.len() {
                assert(s[i] != x);
            } else {
                assert(s[j] != x);
            }
        }
    }
}

/// A list without repeats that loses the element at `i` holds what it held
/// before but that element, and still has no repeats.
pub proof fn lemma_remove_set<A>(s: Seq<A>, i: int)
    requires
        s.no_duplicates(),
        0 <= i < s.len(),
    ensures
        s.remove(i).no_duplicates(),
        s.remove(i).to_set() == s.to_set().remove(s[i]),
{
    let r = s.remove(i);
    assert forall|a: int| 0 <= a < r.len() implies r[a] == s[if a < i { a } else { a + 1 }] by {}
    assert forall|a: int, b: int| 0 <= a < r.len() && 0 <= b < r.len() && a != b implies r[a]
        != r[b] by {
        let a2 = if a < i { a } else { a + 1 };
        let b2 = if b < i { b } else { b + 1 };
        assert(r[a] == s[a2] && r[b] == s[b2]);
    }
    assert forall|y: A| r.to_set().contains(y) <==> s.to_set().remove(s[i]).contains(y) by {
        if r.contains(y) {
            let a = choose|a: int| 0 <= a < r.len() && r[a] == y;
            let a2 = if a < i { a } else { a + 1 };
            assert(s[a2] == y);
        }
        if s.contains(y) && y != s[i] {
            let a = choose|a: int| 0 <= a < s.len() && s[a] == y;
            let a2 = if a < i { a } else { a - 1 };
            assert(r[a2] == y);
        }
    }
    assert(r.to_set() =~= s.to_set().remove(s[i]));
}

/// Where `name` first stands in `v`, if it stands there at all.
pub fn position(v: &Vec<String>, name: &String) -> (r: Option<usize>)
    ensures
        match r {
            Some(i) => i < v.len() && v[i as int]@ == name@ && forall|j: int|
                0 <= j < i ==> v[j]@ != name@,
            None => !names(v@).contains(name@),
        },
{
    let mut i: usize = 0;
    while i < v.len()
        invariant
            i <= v.len(),
            forall|j: int| 0 <= j < i ==> v[j]@ != name@,
        decreases v.len() - i,
    {
        if v[i] == *name {
            return Some(i);
        }
        i += 1;
    }
    None
}

/// A copy of `v`, string by string.
pub fn copy_names(v: &Vec<String>) -> (r: Vec<String>)
    ensures
        names(r@) == names(v@),
{
    let mut out: Vec<String> = Vec::new();
    let mut i: usize = 0;
    while i < v.len()
        invariant
            i <= v.len(),
            out.len() == i,
            forall|j: int| 0 <= j < i ==> out[j]@ == v[j]@,
        decreases v.len() - i,
    {
        out.push(v[i].clone());
        i += 1;
    }
    assert(names(out@) =~= names(v@));
    out
}

/// Whether no string of `v` stands in it twice.
pub fn all_distinct(v: &Vec<String>) -> (r: bool)
    ensures
        r == names(v@).no_duplicates(),
{
    let mut i: usize = 0;
    while i < v.len()
        invariant
            i <= v.len(),
            forall|a: int, b: int| 0 <= a < b < i ==> v[a]@ != v[b]@,
        decreases v.len() - i,
    {
        let mut j: usize = 0;
        while j < i
            invariant
                j <= i,
                i < v.len(),
                forall|a: int| 0 <= a < j ==> v[a]@ != v[i as int]@,
            decreases i - j,
        {
            if v[j] == v[i] {
                assert(names(v@)[j as int] == names(v@)[i as int]);
                return false;
            }
            j += 1;
        }
        i += 1;
    }
    assert forall|a: int, b: int|
        0 <= a < v.len() && 0 <= b < v.len() && a != b implies names(v@)[a] != names(v@)[b] by {
        if a < b {
            assert(v[a]@ != v[b]@);
        } else {
            assert(v[b]@ != v[a]@);
        }
    }
    true
}

} // verus!
