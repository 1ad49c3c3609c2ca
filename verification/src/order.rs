//! Codepoint-lexicographic order on strings, with an executable comparison.
//! Subject groups and prefix lists are sorted by this order.

use vstd::prelude::*;

verus! {

/// Strict lexicographic order on character sequences, comparing codepoints.
pub open spec fn lex_lt(a: Seq<char>, b: Seq<char>) -> bool
    decreases a.len(),
{
    if b.len() == 0 {
        false
    } else if a.len() == 0 {
        true
    } else if (a[0] as u32) < (b[0] as u32) {
        true
    } else if (b[0] as u32) < (a[0] as u32) {
        false
    } else {
        lex_lt(a.skip(1), b.skip(1))
    }
}

/// Non-strict companion of `lex_lt`.
pub open spec fn lex_le(a: Seq<char>, b: Seq<char>) -> bool {
    !lex_lt(b, a)
}

/// `lex_lt` is a strict total order: for any two sequences exactly one of
/// `a < b`, `a == b`, `b < a` holds.
pub proof fn lemma_lex_trichotomy(a: Seq<char>, b: Seq<char>)
    ensures
        lex_lt(a, b) ==> !lex_lt(b, a),
        lex_lt(a, b) ==> a != b,
        a == b ==> !lex_lt(a, b),
        !lex_lt(a, b) && !lex_lt(b, a) ==> a == b,
    decreases a.len(),
{
    if a.len() > 0 && b.len() > 0 {
        if (a[0] as u32) == (b[0] as u32) {
            vstd::utf8::char_u32_cast(a[0], a[0] as u32);
            vstd::utf8::char_u32_cast(b[0], b[0] as u32);
            assert(a[0] == b[0]);
            lemma_lex_trichotomy(a.skip(1), b.skip(1));
            if a.skip(1) == b.skip(1) {
                assert forall|k: int| 0 <= k < a.len() implies a[k] == b[k] by {
                    if k > 0 {
                        assert(a[k] == a.skip(1)[k - 1]);
                        assert(b[k] == b.skip(1)[k - 1]);
                    }
                }
                assert(a =~= b);
            }
            if a == b {
                assert(a.skip(1) =~= b.skip(1));
            }
        }
    } else {
        if a == b {
            assert(a.len() == b.len());
        }
    }
}

/// `lex_lt` is transitive.
pub proof fn lemma_lex_lt_trans(a: Seq<char>, b: Seq<char>, c: Seq<char>)
    requires
        lex_lt(a, b),
        lex_lt(b, c),
    ensures
        lex_lt(a, c),
    decreases a.len(),
{
    if a.len() > 0 {
        if (a[0] as u32) == (b[0] as u32) && (b[0] as u32) == (c[0] as u32) {
            lemma_lex_lt_trans(a.skip(1), b.skip(1), c.skip(1));
        }
    }
}

/// Executable strict comparison, faithful to `lex_lt` on the views.
pub fn str_lt(a: &str, b: &str) -> (r: bool)
    ensures
        r == lex_lt(a@, b@),
{
    let alen: usize = a.unicode_len();
    let blen: usize = b.unicode_len();
    let mut i: usize = 0;
    proof {
        assert(a@.skip(0) =~= a@);
        assert(b@.skip(0) =~= b@);
    }
    loop
        invariant
            alen == a@.len(),
            blen == b@.len(),
            i <= alen,
            i <= blen,
            lex_lt(a@, b@) == lex_lt(a@.skip(i as int), b@.skip(i as int)),
        decreases alen - i,
    {
        if i == alen {
            return blen > alen;
        }
        if i == blen {
            assert(!lex_lt(a@.skip(i as int), b@.skip(i as int)));
            return false;
        }
        let ca = a.get_char(i);
        let cb = b.get_char(i);
        if (ca as u32) < (cb as u32) {
            assert(lex_lt(a@.skip(i as int), b@.skip(i as int)));
            return true;
        }
        if (cb as u32) < (ca as u32) {
            assert(!lex_lt(a@.skip(i as int), b@.skip(i as int)));
            return false;
        }
        proof {
            assert(a@.skip(i as int).skip(1) =~= a@.skip(i + 1));
            assert(b@.skip(i as int).skip(1) =~= b@.skip(i + 1));
        }
        i = i + 1;
    }
}

/// Executable prefix test, faithful to `Seq::is_prefix_of` on the views.
pub fn str_starts_with(s: &str, prefix: &str) -> (r: bool)
    ensures
        r == prefix@.is_prefix_of(s@),
{
    let slen: usize = s.unicode_len();
    let plen: usize = prefix.unicode_len();
    if plen > slen {
        return false;
    }
    let mut i: usize = 0;
    while i < plen
        invariant
            plen <= slen,
            i <= plen,
            slen == s@.len(),
            plen == prefix@.len(),
            forall|k: int| 0 <= k < i ==> s@[k] == prefix@[k],
        decreases plen - i,
    {
        if s.get_char(i) as u32 != prefix.get_char(i) as u32 {
            proof {
                vstd::utf8::char_u32_cast(s@[i as int], s@[i as int] as u32);
                vstd::utf8::char_u32_cast(prefix@[i as int], prefix@[i as int] as u32);
                assert(s@[i as int] != prefix@[i as int]);
                assert(s@.subrange(0, plen as int)[i as int] == s@[i as int]);
                assert(!prefix@.is_prefix_of(s@));
            }
            return false;
        }
        i = i + 1;
    }
    proof {
        assert(prefix@ =~= s@.subrange(0, plen as int));
    }
    true
}

/// The characters of `s` from position `from` on, as an owned string.
pub fn str_skip_chars(s: &str, from: usize) -> (r: String)
    requires
        from <= s@.len(),
    ensures
        r@ == s@.skip(from as int),
{
    let len: usize = s.unicode_len();
    let tail: &str = s.substring_char(from, len);
    proof {
        assert(s@.subrange(from as int, len as int) =~= s@.skip(from as int));
    }
    String::from_str(tail)
}

/// A sequence of strings in non-decreasing lexicographic order.
pub open spec fn lex_sorted(s: Seq<Seq<char>>) -> bool {
    forall|i: int, j: int| 0 <= i < j < s.len() ==> lex_le(s[i], s[j])
}

/// The views of a sequence of owned strings.
pub open spec fn str_views(s: Seq<String>) -> Seq<Seq<char>> {
    s.map_values(|x: String| x@)
}

/// Inserting an element anywhere in a sequence inserts it into the
/// sequence's multiset of elements.
pub proof fn lemma_insert_to_multiset<A>(s: Seq<A>, p: int, x: A)
    requires
        0 <= p <= s.len(),
    ensures
        s.insert(p, x).to_multiset() =~= s.to_multiset().insert(x),
{
    broadcast use vstd::seq_lib::group_to_multiset_ensures;

    let pre = s.take(p);
    let post = s.skip(p);
    assert(s.insert(p, x) =~= pre + (seq![x] + post));
    assert(s =~= pre + post);
    vstd::seq_lib::lemma_multiset_commutative(pre, seq![x] + post);
    vstd::seq_lib::lemma_multiset_commutative(seq![x], post);
    vstd::seq_lib::lemma_multiset_commutative(pre, post);
    assert(seq![x] =~= Seq::<A>::empty().push(x));
    assert(Seq::<A>::empty().push(x).to_multiset() =~= Seq::<A>::empty().to_multiset().insert(x));
}

/// Sorts a list of strings into non-decreasing lexicographic order; the
/// result is a permutation of the input.
pub fn sort_strings(v: &Vec<String>) -> (r: Vec<String>)
    ensures
        lex_sorted(str_views(r@)),
        str_views(r@).to_multiset() == str_views(v@).to_multiset(),
        r@.len() == v@.len(),
{
    let mut r: Vec<String> = Vec::new();
    let mut i: usize = 0;
    proof {
        assert(str_views(v@.take(0)) =~= Seq::<Seq<char>>::empty());
        assert(str_views(r@) =~= Seq::<Seq<char>>::empty());
    }
    while i < v.len()
        invariant
            i <= v@.len(),
            lex_sorted(str_views(r@)),
            str_views(r@).to_multiset() == str_views(v@.take(i as int)).to_multiset(),
            r@.len() == i,
        decreases v@.len() - i,
    {
        let x: String = v[i].clone();
        let ghost old_r = r@;
        let mut p: usize = 0;
        while p < r.len() && str_lt(r[p].as_str(), x.as_str())
            invariant
                p <= r@.len(),
                r@ == old_r,
                forall|k: int| 0 <= k < p ==> lex_lt(str_views(r@)[k], x@),
            decreases r@.len() - p,
        {
            assert(str_views(r@)[p as int] == r@[p as int]@);
            p = p + 1;
        }
        if p < r.len() {
            assert(str_views(r@)[p as int] == r@[p as int]@);
            assert(!lex_lt(r@[p as int]@, x@));
        }
        r.insert(p, x);
        proof {
            let dv_old = str_views(old_r);
            let dv_new = str_views(r@);
            assert(dv_new =~= dv_old.insert(p as int, x@)) by {
                assert(r@ == old_r.insert(p as int, v@[i as int]));
                assert forall|k: int| 0 <= k < dv_new.len() implies dv_new[k] == dv_old.insert(
                    p as int,
                    x@,
                )[k] by {
                    if k < p {
                        assert(r@[k] == old_r[k]);
                    } else if k == p {
                        assert(r@[k] == v@[i as int]);
                    } else {
                        assert(r@[k] == old_r[k - 1]);
                    }
                }
            }
            lemma_insert_to_multiset(dv_old, p as int, x@);
            assert(str_views(v@.take(i + 1)) =~= str_views(v@.take(i as int)).push(x@));
            broadcast use vstd::seq_lib::group_to_multiset_ensures;

            assert forall|m: int, n: int| 0 <= m < n < dv_new.len() implies lex_le(
                dv_new[m],
                dv_new[n],
            ) by {
                lemma_lex_trichotomy(dv_new[m], dv_new[n]);
                if n < p {
                    assert(dv_new[m] == dv_old[m] && dv_new[n] == dv_old[n]);
                } else if m > p {
                    assert(dv_new[m] == dv_old[m - 1] && dv_new[n] == dv_old[n - 1]);
                } else if m < p && n > p {
                    assert(dv_new[m] == dv_old[m] && dv_new[n] == dv_old[n - 1]);
                } else if m == p {
                    assert(dv_new[m] == x@ && dv_new[n] == dv_old[n - 1]);
                    assert(!lex_lt(dv_old[p as int], x@));
                    if lex_lt(dv_old[n - 1], x@) {
                        if p < n - 1 {
                            assert(lex_le(dv_old[p as int], dv_old[n - 1]));
                            if lex_lt(dv_old[p as int], x@) {
                            } else {
                                lemma_lex_trichotomy(dv_old[p as int], dv_old[n - 1]);
                                if dv_old[p as int] == dv_old[n - 1] {
                                } else {
                                    lemma_lex_lt_trans(dv_old[p as int], dv_old[n - 1], x@);
                                }
                            }
                        }
                        assert(false);
                    }
                    lemma_lex_trichotomy(x@, dv_old[n - 1]);
                } else {
                    assert(n == p);
                    assert(dv_new[m] == dv_old[m] && dv_new[n] == x@);
                    assert(lex_lt(dv_old[m], x@));
                }
            }
        }
        i = i + 1;
    }
    proof {
        assert(v@.take(i as int) =~= v@);
    }
    r
}

} // verus!
