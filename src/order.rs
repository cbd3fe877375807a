//! Migration identifiers and their order.
use vstd::prelude::*;

verus! {

/// Lexicographic order on character sequences, comparing code points.
pub open spec fn lex_le(a: Seq<char>, b: Seq<char>) -> bool
    decreases a.len(),
{
    if a.len() == 0 {
        true
    } else if b.len() == 0 {
        false
    } else if a[0] != b[0] {
        (a[0] as u32) < (b[0] as u32)
    } else {
        lex_le(a.drop_first(), b.drop_first())
    }
}

/// Every sequence comes no later than itself.
pub proof fn lemma_lex_le_refl(a: Seq<char>)
    ensures
        lex_le(a, a),
    decreases a.len(),
{
    if a.len() > 0 {
        lemma_lex_le_refl(a.drop_first());
    }
}

pub open spec fn lex_lt(a: Seq<char>, b: Seq<char>) -> bool {
    lex_le(a, b) && a != b
}

/// The identifiers held by a sequence of strings.
pub open spec fn ids_of(v: Seq<String>) -> Seq<Seq<char>> {
    v.map_values(|s: String| s@)
}

/// Strictly ascending: the apply order.
pub open spec fn ascending(s: Seq<Seq<char>>) -> bool {
    forall|i: int, j: int| 0 <= i < j < s.len() ==> lex_lt(#[trigger] s[i], #[trigger] s[j])
}

/// Strictly descending: the revert order.
pub open spec fn descending(s: Seq<Seq<char>>) -> bool {
    forall|i: int, j: int| 0 <= i < j < s.len() ==> lex_lt(#[trigger] s[j], #[trigger] s[i])
}

/// Relies on `slice::sort` for `String`, whose `Ord` compares the UTF-8 bytes
/// lexicographically and so orders code points alike: the same strings come
/// back in non-decreasing order.
#[verifier::external_body]
fn sort_strings(v: &mut Vec<String>)
    ensures
        ids_of(final(v)@).to_multiset() == ids_of(old(v)@).to_multiset(),
        forall|i: int, j: int|
            0 <= i < j < final(v)@.len() ==> lex_le(#[trigger] final(v)@[i]@, #[trigger] final(v)@[j]@),
{
    v.sort();
}

/// Puts distinct migration identifiers (directory names) into apply order.
pub fn sorted_ids(names: Vec<String>) -> (r: Vec<String>)
    requires
        ids_of(names@).no_duplicates(),
    ensures
        ascending(ids_of(r@)),
        ids_of(r@).to_multiset() == ids_of(names@).to_multiset(),
        forall|x: Seq<char>| #[trigger] ids_of(r@).contains(x) <==> ids_of(names@).contains(x),
{
    let mut r = names;
    sort_strings(&mut r);
    proof {
        let a = ids_of(names@);
        let b = ids_of(r@);
        a.to_multiset_ensures();
        b.to_multiset_ensures();
        a.lemma_multiset_has_no_duplicates();
        b.lemma_multiset_has_no_duplicates_conv();
        assert forall|x: Seq<char>| b.contains(x) <==> a.contains(x) by {
            assert(b.to_multiset().count(x) == a.to_multiset().count(x));
        }
        assert forall|i: int, j: int| 0 <= i < j < b.len() implies lex_lt(#[trigger] b[i], #[trigger] b[j]) by {
            assert(lex_le(r@[i]@, r@[j]@));
        }
    }
    r
}

/// Membership after a push.
pub proof fn lemma_push_contains(s: Seq<Seq<char>>, y: Seq<char>)
    ensures
        forall|x: Seq<char>| #[trigger] s.push(y).contains(x) <==> (s.contains(x) || x == y),
{
    assert forall|x: Seq<char>| #[trigger] s.push(y).contains(x) <==> (s.contains(x) || x == y) by {
        if s.contains(x) {
            let k = choose|k: int| 0 <= k < s.len() && s[k] == x;
            assert(s.push(y)[k] == x);
        }
        if x == y {
            assert(s.push(y)[s.len() as int] == x);
        }
        if s.push(y).contains(x) {
            let k = choose|k: int| 0 <= k < s.len() + 1 && s.push(y)[k] == x;
            if k < s.len() {
                assert(s[k] == x);
            }
        }
    }
}

/// Whether `s` is among the identifiers of `v`.
pub fn contains_id(v: &Vec<String>, s: &String) -> (r: bool)
    ensures
        r == ids_of(v@).contains(s@),
{
    let mut i: usize = 0;
    while i < v.len()
        invariant
            i <= v@.len(),
            forall|k: int| 0 <= k < i ==> v@[k]@ != s@,
        decreases v@.len() - i,
    {
        if v[i] == *s {
            assert(ids_of(v@)[i as int] == s@);
            return true;
        }
        i = i + 1;
    }
    proof {
        if ids_of(v@).contains(s@) {
            let k = choose|k: int| 0 <= k < ids_of(v@).len() && ids_of(v@)[k] == s@;
            assert(v@[k]@ == s@);
        }
    }
    false
}

/// The migrations of an ordered catalog that the ledger does not report as
/// applied, in ascending order.
pub fn pending(catalog: &Vec<String>, applied: &Vec<String>) -> (r: Vec<String>)
    requires
        ascending(ids_of(catalog@)),
    ensures
        ascending(ids_of(r@)),
        forall|x: Seq<char>|
            ids_of(r@).contains(x) <==> (ids_of(catalog@).contains(x) && !ids_of(applied@).contains(x)),
{
    let ghost c = ids_of(catalog@);
    let ghost a = ids_of(applied@);
    let mut r: Vec<String> = Vec::new();
    let mut i: usize = 0;
    while i < catalog.len()
        invariant
            i <= catalog@.len(),
            c == ids_of(catalog@),
            a == ids_of(applied@),
            ascending(c),
            ascending(ids_of(r@)),
            forall|k: int, m: int|
                0 <= k < r@.len() && i <= m < c.len() ==> lex_lt(#[trigger] r@[k]@, #[trigger] c[m]),
            forall|x: Seq<char>|
                #[trigger] ids_of(r@).contains(x) <==> (c.subrange(0, i as int).contains(x) && !a.contains(x)),
        decreases catalog@.len() - i,
    {
        let ghost before = r@;
        let taken = contains_id(applied, &catalog[i]);
        assert(c[i as int] == catalog@[i as int]@);
        if !taken {
            r.push(catalog[i].clone());
            assert(ids_of(r@) =~= ids_of(before).push(c[i as int]));
            assert forall|k: int, m: int|
                0 <= k < r@.len() && i + 1 <= m < c.len() implies lex_lt(#[trigger] r@[k]@, #[trigger] c[m]) by {
                if k < before.len() {
                    assert(lex_lt(before[k]@, c[m]));
                } else {
                    assert(lex_lt(c[i as int], c[m]));
                }
            }
            assert forall|k: int, l: int|
                0 <= k < l < r@.len() implies lex_lt(#[trigger] ids_of(r@)[k], #[trigger] ids_of(r@)[l]) by {
                if l < before.len() {
                    assert(lex_lt(ids_of(before)[k], ids_of(before)[l]));
                } else {
                    assert(lex_lt(before[k]@, c[i as int]));
                }
            }
        }
        assert(c.subrange(0, i + 1) =~= c.subrange(0, i as int).push(c[i as int]));
        proof {
            lemma_push_contains(c.subrange(0, i as int), c[i as int]);
            lemma_push_contains(ids_of(before), c[i as int]);
            if taken {
                assert(ids_of(r@) =~= ids_of(before));
            }
            assert forall|x: Seq<char>|
                ids_of(r@).contains(x) <==> (c.subrange(0, i + 1).contains(x) && !a.contains(x)) by {
                assert(c.subrange(0, i + 1).contains(x) <==> (c.subrange(0, i as int).contains(x) || x == c[i as int]));
                assert(ids_of(before).contains(x) <==> (c.subrange(0, i as int).contains(x) && !a.contains(x)));
                if !taken {
                    assert(ids_of(r@).contains(x) <==> (ids_of(before).contains(x) || x == c[i as int]));
                }
            }
        }
        i = i + 1;
    }
    assert(c.subrange(0, i as int) =~= c);
    r
}

} // verus!
