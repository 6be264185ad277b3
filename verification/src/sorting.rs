//! Sorting texts and dropping duplicates, in the order `String` compares
//! (byte-wise on UTF-8, which is the order of code points).

use vstd::prelude::*;

verus! {

/// Is `a` before `b` in lexicographic order of code points?
pub open spec fn lex_lt(a: Seq<char>, b: Seq<char>) -> bool
    decreases a.len(),
{
    if a.len() == 0 {
        b.len() > 0
    } else if b.len() == 0 {
        false
    } else if a[0] != b[0] {
        (a[0] as u32) < (b[0] as u32)
    } else {
        lex_lt(a.drop_first(), b.drop_first())
    }
}

pub proof fn lemma_lex_trichotomy(a: Seq<char>, b: Seq<char>)
    ensures
        a == b || lex_lt(a, b) || lex_lt(b, a),
        !(lex_lt(a, b) && lex_lt(b, a)),
        !lex_lt(a, a),
    decreases a.len(),
{
    if a.len() > 0 && b.len() > 0 {
        if a[0] == b[0] {
            lemma_lex_trichotomy(a.drop_first(), b.drop_first());
            if a.drop_first() == b.drop_first() {
                assert(a =~= seq![a[0]] + a.drop_first());
                assert(b =~= seq![b[0]] + b.drop_first());
            }
        } else {
            vstd::utf8::char_u32_cast(a[0], a[0] as u32);
            vstd::utf8::char_u32_cast(b[0], b[0] as u32);
            assert((a[0] as u32) != (b[0] as u32));
        }
    }
    if a.len() > 0 {
        lemma_lex_trichotomy(a.drop_first(), a.drop_first());
    }
}

pub proof fn lemma_lex_transitive(a: Seq<char>, b: Seq<char>, c: Seq<char>)
    requires
        lex_lt(a, b),
        lex_lt(b, c),
    ensures
        lex_lt(a, c),
    decreases a.len(),
{
    if a.len() > 0 && b.len() > 0 && c.len() > 0 {
        if a[0] == b[0] && b[0] == c[0] {
            lemma_lex_transitive(a.drop_first(), b.drop_first(), c.drop_first());
        }
    }
}

/// Every text is before the next ones: sorted, without duplicates.
pub open spec fn strictly_sorted(s: Seq<Seq<char>>) -> bool {
    forall|i: int, j: int| 0 <= i < j < s.len() ==> lex_lt(#[trigger] s[i], #[trigger] s[j])
}

/// Compares two texts: is `a` before `b`?
pub fn text_lt(a: &str, b: &str) -> (r: bool)
    ensures
        r == lex_lt(a@, b@),
{
    let n = a.unicode_len();
    let m = b.unicode_len();
    let mut i: usize = 0;
    proof {
        assert(a@.subrange(0, n as int) =~= a@);
        assert(b@.subrange(0, m as int) =~= b@);
    }
    while i < n && i < m
        invariant
            n == a@.len(),
            m == b@.len(),
            i <= n,
            i <= m,
            lex_lt(a@, b@) == lex_lt(a@.subrange(i as int, n as int), b@.subrange(i as int, m as int)),
        decreases n - i,
    {
        let x = a.get_char(i);
        let y = b.get_char(i);
        if x != y {
            return (x as u32) < (y as u32);
        }
        proof {
            assert(a@.subrange(i as int, n as int).drop_first() =~= a@.subrange(i + 1, n as int));
            assert(b@.subrange(i as int, m as int).drop_first() =~= b@.subrange(i + 1, m as int));
        }
        i = i + 1;
    }
    i < m
}

/// The views of a list of strings.
pub open spec fn texts_of(v: Seq<String>) -> Seq<Seq<char>> {
    Seq::new(v.len(), |i: int| v[i]@)
}

/// The texts sorted, each kept once (`sort` then `dedup`).
pub fn sort_dedup(v: Vec<String>) -> (r: Vec<String>)
    ensures
        strictly_sorted(texts_of(r@)),
        forall|x: Seq<char>| texts_of(r@).contains(x) <==> texts_of(v@).contains(x),
{
    let ghost vt = texts_of(v@);
    let mut out: Vec<String> = Vec::new();
    let mut k: usize = 0;
    proof {
        assert(vt.take(0) =~= Seq::<Seq<char>>::empty());
    }
    while k < v.len()
        invariant
            k <= v.len(),
            vt == texts_of(v@),
            strictly_sorted(texts_of(out@)),
            forall|x: Seq<char>| texts_of(out@).contains(x) <==> vt.take(k as int).contains(x),
        decreases v.len() - k,
    {
        let w = v[k].as_str();
        let ghost ot = texts_of(out@);
        let mut p: usize = 0;
        while p < out.len() && text_lt(out[p].as_str(), w)
            invariant
                p <= out.len(),
                ot == texts_of(out@),
                forall|i: int| 0 <= i < p ==> lex_lt(#[trigger] ot[i], w@),
            decreases out.len() - p,
        {
            p = p + 1;
        }
        proof {
            assert(vt.take(k + 1) =~= vt.take(k as int).push(w@));
            assert forall|x: Seq<char>| vt.take(k + 1).contains(x) <==> (vt.take(k as int).contains(x)
                || x == w@) by {
                if vt.take(k + 1).contains(x) {
                    let i = choose|i: int| 0 <= i < k + 1 && #[trigger] vt.take(k + 1)[i] == x;
                    if i < k {
                        assert(vt.take(k as int)[i] == x);
                    }
                }
                if vt.take(k as int).contains(x) {
                    let i = choose|i: int| 0 <= i < k && #[trigger] vt.take(k as int)[i] == x;
                    assert(vt.take(k + 1)[i] == x);
                }
                if x == w@ {
                    assert(vt.take(k + 1)[k as int] == x);
                }
            }
        }
        let same = p < out.len() && crate::json::str_eq(out[p].as_str(), w);
        if same {
            proof {
                assert(ot[p as int] == w@);
                assert(ot.contains(w@));
            }
        } else {
            proof {
                if p < out.len() {
                    lemma_lex_trichotomy(ot[p as int], w@);
                }
            }
            out.insert(p, v[k].clone());
            proof {
                let nt = texts_of(out@);
                assert(nt =~= ot.insert(p as int, w@));
                assert forall|i: int, j: int| 0 <= i < j < nt.len() implies lex_lt(
                    #[trigger] nt[i],
                    #[trigger] nt[j],
                ) by {
                    if j < p {
                        assert(nt[i] == ot[i] && nt[j] == ot[j]);
                    } else if j == p {
                        assert(nt[i] == ot[i]);
                    } else if i == p {
                        assert(nt[j] == ot[j - 1]);
                        if j - 1 > p {
                            lemma_lex_transitive(w@, ot[p as int], ot[j - 1]);
                        }
                    } else if i < p {
                        assert(nt[i] == ot[i]);
                        assert(nt[j] == ot[j - 1]);
                    } else {
                        assert(nt[i] == ot[i - 1]);
                        assert(nt[j] == ot[j - 1]);
                    }
                }
                assert forall|x: Seq<char>| nt.contains(x) <==> (ot.contains(x) || x == w@) by {
                    if nt.contains(x) {
                        let i = choose|i: int| 0 <= i < nt.len() && #[trigger] nt[i] == x;
                        if i < p {
                            assert(ot[i] == x);
                        } else if i > p {
                            assert(ot[i - 1] == x);
                        }
                    }
                    if x == w@ {
                        assert(nt[p as int] == x);
                    }
                    if ot.contains(x) {
                        let i = choose|i: int| 0 <= i < ot.len() && #[trigger] ot[i] == x;
                        if i < p {
                            assert(nt[i] == x);
                        } else {
                            assert(nt[i + 1] == x);
                        }
                    }
                }
            }
        }
        k = k + 1;
    }
    proof {
        assert(vt.take(v.len() as int) =~= vt);
    }
    out
}

} // verus!
