//! Network interface enumeration. The caller lists the names its OS reports
//! (Linux: the entries of `/sys/class/net`; FreeBSD: the words of
//! `ifconfig -l`); loopback is filtered out and the rest is sorted and
//! de-duplicated. A failed listing just yields no names, and the admin types
//! the interface by hand.

use vstd::prelude::*;
use crate::domain::platform::Os;
use crate::text::{
    chars_lt, chars_of, has_prefix_at, is_whitespace, is_ws, lemma_lex_irreflexive,
    lemma_lex_transitive, lemma_lex_trichotomy, lex_lt, starts_with, string_from, string_views,
    views,
};

verus! {

/// The words of `s` after the pending (unterminated) word `cur`.
pub open spec fn words_from(s: Seq<char>, cur: Seq<char>) -> Seq<Seq<char>>
    decreases s.len(),
{
    if s.len() == 0 {
        if cur.len() == 0 {
            seq![]
        } else {
            seq![cur]
        }
    } else if is_ws(s[0]) {
        if cur.len() == 0 {
            words_from(s.drop_first(), seq![])
        } else {
            seq![cur] + words_from(s.drop_first(), seq![])
        }
    } else {
        words_from(s.drop_first(), cur.push(s[0]))
    }
}

/// `str::split_whitespace`: the maximal runs of non-whitespace characters.
pub open spec fn words(s: Seq<char>) -> Seq<Seq<char>> {
    words_from(s, seq![])
}

proof fn lemma_words_from_step(s: Seq<char>, i: int, cur: Seq<char>)
    requires
        0 <= i < s.len(),
    ensures
        words_from(s.skip(i), cur) == if is_ws(s[i]) {
            if cur.len() == 0 {
                words_from(s.skip(i + 1), seq![])
            } else {
                seq![cur] + words_from(s.skip(i + 1), seq![])
            }
        } else {
            words_from(s.skip(i + 1), cur.push(s[i]))
        },
{
    assert(s.skip(i).drop_first() == s.skip(i + 1));
    assert(s.skip(i)[0] == s[i]);
}

/// The interface names in the output of `ifconfig -l`.
pub fn from_ifconfig(stdout: &str) -> (names: Vec<String>)
    ensures
        string_views(names@) == words(stdout@),
{
    let v = chars_of(stdout);
    let mut names: Vec<String> = Vec::new();
    let mut cur: Vec<char> = Vec::new();
    let mut i: usize = 0;
    proof {
        assert(v@.skip(0) == v@);
    }
    while i < v.len()
        invariant
            v@ == stdout@,
            i <= v.len(),
            string_views(names@) + words_from(v@.skip(i as int), cur@) == words(v@),
        decreases v.len() - i,
    {
        proof {
            lemma_words_from_step(v@, i as int, cur@);
        }
        if is_whitespace(v[i]) {
            if cur.len() > 0 {
                let ghost old_names = string_views(names@);
                names.push(string_from(&cur));
                proof {
                    assert(string_views(names@) == old_names.push(cur@));
                    assert(old_names + (seq![cur@] + words_from(v@.skip(i + 1), seq![]))
                        == old_names.push(cur@) + words_from(v@.skip(i + 1), seq![]));
                }
                cur = Vec::new();
                proof {
                    assert(cur@ == Seq::<char>::empty());
                }
            } else {
                proof {
                    assert(cur@ == Seq::<char>::empty());
                }
            }
        } else {
            let ghost old_cur = cur@;
            cur.push(v[i]);
            proof {
                assert(cur@ == old_cur.push(v@[i as int]));
            }
        }
        i += 1;
    }
    proof {
        assert(v@.skip(v@.len() as int).len() == 0);
    }
    if cur.len() > 0 {
        let ghost old_names = string_views(names@);
        names.push(string_from(&cur));
        proof {
            assert(string_views(names@) == old_names.push(cur@));
        }
    } else {
        proof {
            assert(string_views(names@) + seq![] == string_views(names@));
        }
    }
    names
}

/// Loopback devices (`lo`, `lo0`, …).
pub open spec fn is_loopback(name: Seq<char>) -> bool {
    starts_with(name, "lo"@)
}

/// Every name sorts strictly before the names after it: sorted, no repeats.
pub open spec fn strictly_sorted(s: Seq<Seq<char>>) -> bool {
    forall|i: int, j: int| 0 <= i < j < s.len() ==> lex_lt(#[trigger] s[i], #[trigger] s[j])
}

/// The names offered for `os`: the non-loopback names listed, when the OS is
/// one whose interfaces are enumerated.
pub open spec fn offered(os: Os, listed: Seq<Seq<char>>, name: Seq<char>) -> bool {
    (os == Os::Linux || os == Os::FreeBsd) && listed.contains(name) && !is_loopback(name)
}

/// Insert `x` into the strictly sorted `v`, unless it is already there.
fn insert_sorted(v: &mut Vec<Vec<char>>, x: Vec<char>)
    requires
        strictly_sorted(views(old(v)@)),
    ensures
        strictly_sorted(views(final(v)@)),
        forall|y: Seq<char>|
            #[trigger] views(final(v)@).contains(y) <==> (views(old(v)@).contains(y) || y == x@),
{
    let ghost old_v = views(v@);
    let mut p: usize = 0;
    while p < v.len() && chars_lt(&v[p], &x)
        invariant
            p <= v.len(),
            views(v@) == old_v,
            forall|k: int| 0 <= k < p ==> lex_lt(#[trigger] old_v[k], x@),
        decreases v.len() - p,
    {
        proof {
            assert(old_v[p as int] == v@[p as int]@);
        }
        p += 1;
    }
    if p < v.len() {
        proof {
            assert(old_v[p as int] == v@[p as int]@);
            lemma_lex_trichotomy(old_v[p as int], x@);
        }
        if crate::text::chars_eq(&v[p], &x) {
            proof {
                assert forall|y: Seq<char>| #[trigger]
                    views(v@).contains(y) <==> (old_v.contains(y) || y == x@) by {
                    if y == x@ {
                        assert(old_v[p as int] == y);
                    }
                }
            }
            return;
        }
    }
    let ghost xv = x@;
    v.insert(p, x);
    proof {
        let nv = views(v@);
        assert(nv =~= old_v.insert(p as int, xv));
        assert forall|i: int, j: int| 0 <= i < j < nv.len() implies lex_lt(
            #[trigger] nv[i],
            #[trigger] nv[j],
        ) by {
            if j < p {
                assert(nv[i] == old_v[i] && nv[j] == old_v[j]);
            } else if j == p {
                assert(nv[i] == old_v[i]);
            } else if i == p {
                assert(nv[j] == old_v[j - 1]);
                if j - 1 > p {
                    assert(lex_lt(old_v[p as int], old_v[j - 1]));
                    lemma_lex_transitive(xv, old_v[p as int], old_v[j - 1]);
                }
            } else if i < p {
                assert(nv[i] == old_v[i]);
                assert(nv[j] == old_v[j - 1]);
                if j - 1 >= p {
                    assert(lex_lt(old_v[i], xv));
                    assert(lex_lt(xv, old_v[p as int]));
                    lemma_lex_transitive(old_v[i], xv, old_v[p as int]);
                    if j - 1 > p {
                        lemma_lex_transitive(old_v[i], old_v[p as int], old_v[j - 1]);
                    }
                }
            } else {
                assert(nv[i] == old_v[i - 1]);
                assert(nv[j] == old_v[j - 1]);
            }
        }
        assert forall|y: Seq<char>| #[trigger]
            nv.contains(y) <==> (old_v.contains(y) || y == xv) by {
            if nv.contains(y) {
                let k = choose|k: int| 0 <= k < nv.len() && #[trigger] nv[k] == y;
                if k < p {
                    assert(old_v[k] == y);
                } else if k > p {
                    assert(old_v[k - 1] == y);
                }
            }
            if old_v.contains(y) {
                let k = choose|k: int| 0 <= k < old_v.len() && #[trigger] old_v[k] == y;
                if k < p {
                    assert(nv[k] == y);
                } else {
                    assert(nv[k + 1] == y);
                }
            }
            if y == xv {
                assert(nv[p as int] == y);
            }
        }
    }
}

/// The interfaces to offer on `os`, from the names its listing reported:
/// loopback removed, sorted, duplicates dropped. Only Linux and FreeBSD
/// interfaces are enumerated.
pub fn detect(os: Os, listed: &Vec<String>) -> (names: Vec<String>)
    ensures
        strictly_sorted(string_views(names@)),
        forall|n: Seq<char>|
            #[trigger] string_views(names@).contains(n) <==> offered(os, string_views(listed@), n),
{
    let mut out: Vec<Vec<char>> = Vec::new();
    let enumerated = match os {
        Os::Linux | Os::FreeBsd => true,
        _ => false,
    };
    let lo = chars_of("lo");
    proof {
        reveal_strlit("lo");
    }
    let ghost lv = string_views(listed@);
    if enumerated {
        let mut i: usize = 0;
        while i < listed.len()
            invariant
                enumerated == (os == Os::Linux || os == Os::FreeBsd),
                enumerated,
                lo@ == "lo"@,
                lv == string_views(listed@),
                i <= listed.len(),
                strictly_sorted(views(out@)),
                forall|n: Seq<char>| #[trigger]
                    views(out@).contains(n) <==> (lv.take(i as int).contains(n) && !is_loopback(
                        n,
                    )),
            decreases listed.len() - i,
        {
            let name = chars_of(listed[i].as_str());
            proof {
                assert(lv[i as int] == name@);
                assert(lv.take(i + 1) =~= lv.take(i as int).push(name@));
                assert forall|n: Seq<char>| #[trigger]
                    lv.take(i + 1).contains(n) <==> (lv.take(i as int).contains(n) || n
                        == name@) by {
                    if lv.take(i + 1).contains(n) {
                        let k = choose|k: int| 0 <= k < i + 1 && #[trigger] lv.take(i + 1)[k] == n;
                        if k < i {
                            assert(lv.take(i as int)[k] == n);
                        }
                    }
                    if lv.take(i as int).contains(n) {
                        let k = choose|k: int| 0 <= k < i && #[trigger] lv.take(i as int)[k] == n;
                        assert(lv.take(i + 1)[k] == n);
                    }
                    if n == name@ {
                        assert(lv.take(i + 1)[i as int] == n);
                    }
                }
            }
            let skip = has_prefix_at(&name, 0, name.len(), &lo);
            proof {
                assert(name@.subrange(0, name@.len() as int) =~= name@);
            }
            if !skip {
                insert_sorted(&mut out, name);
            }
            i += 1;
        }
        proof {
            assert(lv.take(listed@.len() as int) =~= lv);
        }
    }
    let mut names: Vec<String> = Vec::new();
    let mut j: usize = 0;
    while j < out.len()
        invariant
            j <= out.len(),
            string_views(names@) == views(out@).take(j as int),
        decreases out.len() - j,
    {
        let ghost before = string_views(names@);
        names.push(string_from(&out[j]));
        proof {
            assert(string_views(names@) =~= before.push(out@[j as int]@));
            assert(views(out@).take(j + 1) =~= views(out@).take(j as int).push(out@[j as int]@));
        }
        j += 1;
    }
    proof {
        assert(views(out@).take(out@.len() as int) =~= views(out@));
        if !enumerated {
            assert(views(out@) =~= Seq::<Seq<char>>::empty());
        }
    }
    names
}

} // verus!
