//! Text primitives shared by the document code: the character-level model of
//! trimming, prefixes, line splitting, line joining and literal replacement,
//! each with an executable counterpart proved equal to it.
//!
//! Strings are handled as their `Seq<char>` views. The executable functions work
//! on `Vec<char>` buffers and convert at the edges.

use vstd::prelude::*;

verus! {

// ---------------------------------------------------------------------------
// Specifications
// ---------------------------------------------------------------------------

/// `char::is_whitespace`: the Unicode `White_Space` property.
pub open spec fn is_ws(c: char) -> bool {
    ||| c == ' '
    ||| ('\u{9}' <= c && c <= '\u{d}')
    ||| c == '\u{85}'
    ||| c == '\u{a0}'
    ||| c == '\u{1680}'
    ||| ('\u{2000}' <= c && c <= '\u{200a}')
    ||| c == '\u{2028}'
    ||| c == '\u{2029}'
    ||| c == '\u{202f}'
    ||| c == '\u{205f}'
    ||| c == '\u{3000}'
}

/// `str::trim_start`.
pub open spec fn trim_start(s: Seq<char>) -> Seq<char>
    decreases s.len(),
{
    if s.len() > 0 && is_ws(s[0]) {
        trim_start(s.drop_first())
    } else {
        s
    }
}

/// `str::trim_end`.
pub open spec fn trim_end(s: Seq<char>) -> Seq<char>
    decreases s.len(),
{
    if s.len() > 0 && is_ws(s.last()) {
        trim_end(s.drop_last())
    } else {
        s
    }
}

/// `str::trim`.
pub open spec fn trim(s: Seq<char>) -> Seq<char> {
    trim_end(trim_start(s))
}

/// `s` begins with `p`.
pub open spec fn starts_with(s: Seq<char>, p: Seq<char>) -> bool {
    p.len() <= s.len() && s.subrange(0, p.len() as int) == p
}

/// `s` ends with a newline character.
pub open spec fn ends_with_newline(s: Seq<char>) -> bool {
    s.len() > 0 && s.last() == '\n'
}

/// Drop one trailing carriage return.
pub open spec fn strip_cr(s: Seq<char>) -> Seq<char> {
    if s.len() > 0 && s.last() == '\r' {
        s.drop_last()
    } else {
        s
    }
}

/// The lines of `s` after the pending (unterminated) text `cur`.
pub open spec fn lines_from(s: Seq<char>, cur: Seq<char>) -> Seq<Seq<char>>
    decreases s.len(),
{
    if s.len() == 0 {
        if cur.len() == 0 {
            seq![]
        } else {
            seq![cur]
        }
    } else if s[0] == '\n' {
        seq![strip_cr(cur)] + lines_from(s.drop_first(), seq![])
    } else {
        lines_from(s.drop_first(), cur.push(s[0]))
    }
}

/// `str::lines`: split at `\n` (dropping a `\r` right before it); a final line
/// terminator does not start an extra empty line.
pub open spec fn lines(s: Seq<char>) -> Seq<Seq<char>> {
    lines_from(s, seq![])
}

/// Join with `\n` between consecutive lines (`[String]::join("\n")`).
pub open spec fn join_lines(ls: Seq<Seq<char>>) -> Seq<char>
    decreases ls.len(),
{
    if ls.len() == 0 {
        seq![]
    } else if ls.len() == 1 {
        ls[0]
    } else {
        join_lines(ls.drop_last()) + seq!['\n'] + ls.last()
    }
}

/// `str::replace`: every non-overlapping occurrence of the non-empty `pat`,
/// scanning left to right, is replaced by `rep`.
pub open spec fn replace_all(s: Seq<char>, pat: Seq<char>, rep: Seq<char>) -> Seq<char>
    decreases s.len(),
{
    if s.len() == 0 {
        seq![]
    } else if pat.len() > 0 && starts_with(s, pat) {
        rep + replace_all(s.skip(pat.len() as int), pat, rep)
    } else {
        seq![s[0]] + replace_all(s.drop_first(), pat, rep)
    }
}

/// The character views of a sequence of buffers.
pub open spec fn views(v: Seq<Vec<char>>) -> Seq<Seq<char>> {
    Seq::new(v.len(), |i: int| v[i]@)
}

// ---------------------------------------------------------------------------
// Conversions
// ---------------------------------------------------------------------------

/// `String::push`.
#[verifier::external_body]
pub fn push_char(s: &mut String, c: char)
    ensures
        final(s)@ == old(s)@.push(c),
{
    s.push(c);
}

/// The characters of `s`.
pub fn chars_of(s: &str) -> (v: Vec<char>)
    ensures
        v@ == s@,
{
    let mut v: Vec<char> = Vec::new();
    for c in it: s.chars()
        invariant
            it.seq() == s@,
            v@ == it.seq().take(it.index() as int),
        ensures
            v@ == s@,
    {
        proof {
            assert(it.seq().take(it.index() + 1) == it.seq().take(it.index() as int).push(c));
        }
        v.push(c);
    }
    v
}

/// The string holding exactly the characters of `v`.
pub fn string_from(v: &Vec<char>) -> (s: String)
    ensures
        s@ == v@,
{
    let mut s = String::new();
    let mut i: usize = 0;
    while i < v.len()
        invariant
            i <= v.len(),
            s@ == v@.take(i as int),
        decreases v.len() - i,
    {
        proof {
            assert(v@.take(i + 1) == v@.take(i as int).push(v@[i as int]));
        }
        push_char(&mut s, v[i]);
        i += 1;
    }
    proof {
        assert(v@.take(v@.len() as int) == v@);
    }
    s
}

/// Append all of `src` to `dst`.
pub fn extend(dst: &mut Vec<char>, src: &Vec<char>)
    ensures
        final(dst)@ == old(dst)@ + src@,
{
    let ghost start = dst@;
    let mut i: usize = 0;
    while i < src.len()
        invariant
            i <= src.len(),
            dst@ == start + src@.take(i as int),
        decreases src.len() - i,
    {
        proof {
            assert(src@.take(i + 1) == src@.take(i as int).push(src@[i as int]));
        }
        dst.push(src[i]);
        i += 1;
    }
    proof {
        assert(src@.take(src@.len() as int) == src@);
    }
}

/// A copy of the characters `v[lo..hi]`.
pub fn copy_range(v: &Vec<char>, lo: usize, hi: usize) -> (out: Vec<char>)
    requires
        lo <= hi <= v.len(),
    ensures
        out@ == v@.subrange(lo as int, hi as int),
{
    let mut out: Vec<char> = Vec::new();
    let mut i: usize = lo;
    while i < hi
        invariant
            lo <= i <= hi <= v.len(),
            out@ == v@.subrange(lo as int, i as int),
        decreases hi - i,
    {
        proof {
            assert(v@.subrange(lo as int, i + 1) == v@.subrange(lo as int, i as int).push(
                v@[i as int],
            ));
        }
        out.push(v[i]);
        i += 1;
    }
    out
}

// ---------------------------------------------------------------------------
// Character tests, trimming, prefixes
// ---------------------------------------------------------------------------

pub fn is_whitespace(c: char) -> (b: bool)
    ensures
        b == is_ws(c),
{
    c == ' ' || ('\u{9}' <= c && c <= '\u{d}') || c == '\u{85}' || c == '\u{a0}' || c
        == '\u{1680}' || ('\u{2000}' <= c && c <= '\u{200a}') || c == '\u{2028}' || c
        == '\u{2029}' || c == '\u{202f}' || c == '\u{205f}' || c == '\u{3000}'
}

/// The start of `trim_start(v[lo..hi])` within `v`.
pub fn trim_start_at(v: &Vec<char>, lo: usize, hi: usize) -> (r: usize)
    requires
        lo <= hi <= v.len(),
    ensures
        lo <= r <= hi,
        trim_start(v@.subrange(lo as int, hi as int)) == v@.subrange(r as int, hi as int),
{
    let mut i = lo;
    while i < hi && is_whitespace(v[i])
        invariant
            lo <= i <= hi <= v.len(),
            trim_start(v@.subrange(lo as int, hi as int)) == trim_start(
                v@.subrange(i as int, hi as int),
            ),
        decreases hi - i,
    {
        proof {
            assert(v@.subrange(i as int, hi as int).drop_first() == v@.subrange(
                i + 1,
                hi as int,
            ));
        }
        i += 1;
    }
    i
}

/// The end of `trim_end(v[lo..hi])` within `v`.
pub fn trim_end_at(v: &Vec<char>, lo: usize, hi: usize) -> (r: usize)
    requires
        lo <= hi <= v.len(),
    ensures
        lo <= r <= hi,
        trim_end(v@.subrange(lo as int, hi as int)) == v@.subrange(lo as int, r as int),
{
    let mut j = hi;
    while j > lo && is_whitespace(v[j - 1])
        invariant
            lo <= j <= hi <= v.len(),
            trim_end(v@.subrange(lo as int, hi as int)) == trim_end(
                v@.subrange(lo as int, j as int),
            ),
        decreases j - lo,
    {
        proof {
            assert(v@.subrange(lo as int, j as int).drop_last() == v@.subrange(
                lo as int,
                j - 1,
            ));
        }
        j -= 1;
    }
    j
}

/// Whether `v[lo..hi]` begins with `p`.
pub fn has_prefix_at(v: &Vec<char>, lo: usize, hi: usize, p: &Vec<char>) -> (b: bool)
    requires
        lo <= hi <= v.len(),
    ensures
        b == starts_with(v@.subrange(lo as int, hi as int), p@),
{
    if p.len() > hi - lo {
        return false;
    }
    let mut k: usize = 0;
    while k < p.len()
        invariant
            p.len() <= hi - lo,
            lo <= hi <= v.len(),
            k <= p.len(),
            forall|m: int| 0 <= m < k ==> v@[lo + m] == p@[m],
        decreases p.len() - k,
    {
        if v[lo + k] != p[k] {
            proof {
                assert(v@.subrange(lo as int, hi as int).subrange(0, p@.len() as int)[k as int]
                    != p@[k as int]);
            }
            return false;
        }
        k += 1;
    }
    proof {
        assert(v@.subrange(lo as int, hi as int).subrange(0, p@.len() as int) =~= p@);
    }
    true
}

// ---------------------------------------------------------------------------
// Lines
// ---------------------------------------------------------------------------

proof fn lemma_lines_from_step(s: Seq<char>, i: int, cur: Seq<char>)
    requires
        0 <= i < s.len(),
    ensures
        s[i] == '\n' ==> lines_from(s.skip(i), cur) == seq![strip_cr(cur)] + lines_from(
            s.skip(i + 1),
            seq![],
        ),
        s[i] != '\n' ==> lines_from(s.skip(i), cur) == lines_from(s.skip(i + 1), cur.push(s[i])),
{
    assert(s.skip(i).drop_first() == s.skip(i + 1));
    assert(s.skip(i)[0] == s[i]);
}

/// Characters without a line break only extend the pending line.
pub proof fn lemma_lines_from_plain(x: Seq<char>, rest: Seq<char>, cur: Seq<char>)
    requires
        !x.contains('\n'),
    ensures
        lines_from(x + rest, cur) == lines_from(rest, cur + x),
    decreases x.len(),
{
    if x.len() == 0 {
        assert(x + rest =~= rest);
        assert(cur + x =~= cur);
    } else {
        assert((x + rest).drop_first() =~= x.drop_first() + rest);
        assert((x + rest)[0] == x[0]);
        assert(!x.drop_first().contains('\n')) by {
            if x.drop_first().contains('\n') {
                let j = choose|j: int| 0 <= j < x.drop_first().len() && x.drop_first()[j] == '\n';
                assert(x[j + 1] == '\n');
            }
        }
        assert(x[0] != '\n');
        lemma_lines_from_plain(x.drop_first(), rest, cur.push(x[0]));
        assert(cur.push(x[0]) + x.drop_first() =~= cur + x);
    }
}

/// Lines without line breaks, joined and ended with a newline, split back
/// into themselves (each without one trailing carriage return).
pub proof fn lemma_lines_join_nl(ls: Seq<Seq<char>>, rest: Seq<char>)
    requires
        ls.len() > 0,
        forall|i: int| 0 <= i < ls.len() ==> !(#[trigger] ls[i]).contains('\n'),
    ensures
        lines_from(join_lines(ls) + seq!['\n'] + rest, seq![]) == Seq::new(
            ls.len(),
            |i: int| strip_cr(ls[i]),
        ) + lines_from(rest, seq![]),
    decreases ls.len(),
{
    if ls.len() == 1 {
        assert(join_lines(ls) == ls[0]);
        lemma_lines_from_plain(ls[0], seq!['\n'] + rest, seq![]);
        assert(ls[0] + seq!['\n'] + rest =~= ls[0] + (seq!['\n'] + rest));
        assert(seq![] + ls[0] =~= ls[0]);
        assert((seq!['\n'] + rest).drop_first() =~= rest);
        assert(Seq::new(ls.len(), |i: int| strip_cr(ls[i])) =~= seq![strip_cr(ls[0])]);
    } else {
        let init = ls.drop_last();
        let last = ls.last();
        assert(join_lines(ls) == join_lines(init) + seq!['\n'] + last);
        let rest2 = last + seq!['\n'] + rest;
        assert(join_lines(ls) + seq!['\n'] + rest =~= join_lines(init) + seq!['\n'] + rest2);
        assert forall|i: int| 0 <= i < init.len() implies !(#[trigger] init[i]).contains('\n') by {
            assert(init[i] == ls[i]);
        }
        lemma_lines_join_nl(init, rest2);
        assert(!last.contains('\n')) by {
            assert(last == ls[ls.len() - 1]);
        }
        lemma_lines_from_plain(last, seq!['\n'] + rest, seq![]);
        assert(rest2 =~= last + (seq!['\n'] + rest));
        assert(seq![] + last =~= last);
        assert((seq!['\n'] + rest).drop_first() =~= rest);
        assert(lines_from(seq!['\n'] + rest, last) == seq![strip_cr(last)] + lines_from(rest, seq![]));
        assert(Seq::new(ls.len(), |i: int| strip_cr(ls[i])) =~= Seq::new(
            init.len(),
            |i: int| strip_cr(init[i]),
        ) + seq![strip_cr(last)]);
    }
}

/// Lines without line breaks whose last one is not empty, joined, split back
/// into themselves (all but the last without one trailing carriage return).
pub proof fn lemma_lines_join_end(ls: Seq<Seq<char>>)
    requires
        ls.len() > 0,
        ls.last().len() > 0,
        forall|i: int| 0 <= i < ls.len() ==> !(#[trigger] ls[i]).contains('\n'),
    ensures
        lines(join_lines(ls)) == Seq::new((ls.len() - 1) as nat, |i: int| strip_cr(ls[i])).push(ls.last()),
{
    let last = ls.last();
    assert(!last.contains('\n')) by {
        assert(last == ls[ls.len() - 1]);
    }
    lemma_lines_from_plain(last, seq![], seq![]);
    assert(last + seq![] =~= last);
    assert(seq![] + last =~= last);
    assert(lines_from(seq![], last) == seq![last]);
    if ls.len() == 1 {
        assert(join_lines(ls) == ls[0]);
        assert(Seq::new((ls.len() - 1) as nat, |i: int| strip_cr(ls[i])).push(ls.last()) =~= seq![last]);
    } else {
        let init = ls.drop_last();
        assert(join_lines(ls) == join_lines(init) + seq!['\n'] + last);
        assert forall|i: int| 0 <= i < init.len() implies !(#[trigger] init[i]).contains('\n') by {
            assert(init[i] == ls[i]);
        }
        lemma_lines_join_nl(init, last);
        assert(Seq::new((ls.len() - 1) as nat, |i: int| strip_cr(ls[i])) =~= Seq::new(
            init.len(),
            |i: int| strip_cr(init[i]),
        ));
    }
}

/// The lines split from `s` after the pending `cur` have no line breaks; when
/// `s` does not end with one, there is a last line and it is not empty.
pub proof fn lemma_lines_from_shape(s: Seq<char>, cur: Seq<char>)
    requires
        !cur.contains('\n'),
    ensures
        forall|i: int|
            0 <= i < lines_from(s, cur).len() ==> !(#[trigger] lines_from(s, cur)[i]).contains('\n'),
        (s.len() > 0 && s.last() != '\n') || (s.len() == 0 && cur.len() > 0) ==> lines_from(s, cur).len() > 0
            && lines_from(s, cur).last().len() > 0,
        s.len() > 0 && s.last() == '\n' ==> lines_from(s, cur).len() > 0,
    decreases s.len(),
{
    if s.len() == 0 {
    } else if s[0] == '\n' {
        let r = lines_from(s.drop_first(), seq![]);
        lemma_lines_from_shape(s.drop_first(), seq![]);
        assert(!strip_cr(cur).contains('\n')) by {
            if strip_cr(cur).contains('\n') {
                let j = choose|j: int| 0 <= j < strip_cr(cur).len() && strip_cr(cur)[j] == '\n';
                assert(cur[j] == '\n');
            }
        }
        assert forall|i: int| 0 <= i < lines_from(s, cur).len() implies !(#[trigger] lines_from(
            s,
            cur,
        )[i]).contains('\n') by {
            if i > 0 {
                assert(lines_from(s, cur)[i] == r[i - 1]);
            }
        }
        if s.len() > 1 {
            assert(s.drop_first().last() == s.last());
        }
    } else {
        assert(!cur.push(s[0]).contains('\n')) by {
            if cur.push(s[0]).contains('\n') {
                let j = choose|j: int| 0 <= j < cur.push(s[0]).len() && cur.push(s[0])[j] == '\n';
                if j < cur.len() {
                    assert(cur[j] == '\n');
                }
            }
        }
        lemma_lines_from_shape(s.drop_first(), cur.push(s[0]));
        if s.len() > 1 {
            assert(s.drop_first().last() == s.last());
        }
    }
}

/// Joining keeps every line whole: none is longer than the joined text.
pub proof fn lemma_join_len(ls: Seq<Seq<char>>)
    ensures
        forall|i: int| 0 <= i < ls.len() ==> (#[trigger] ls[i]).len() <= join_lines(ls).len(),
    decreases ls.len(),
{
    if ls.len() > 1 {
        lemma_join_len(ls.drop_last());
        assert forall|i: int| 0 <= i < ls.len() implies (#[trigger] ls[i]).len() <= join_lines(ls).len() by {
            if i < ls.len() - 1 {
                assert(ls[i] == ls.drop_last()[i]);
            }
        }
    }
}

/// Trimming the start of a sequence with one more character.
pub proof fn lemma_trim_start_push(s: Seq<char>, c: char)
    ensures
        trim_start(s.push(c)) == if trim_start(s).len() > 0 {
            trim_start(s).push(c)
        } else {
            trim_start(seq![c])
        },
    decreases s.len(),
{
    if s.len() == 0 {
        assert(s.push(c) =~= seq![c]);
    } else {
        assert(s.push(c)[0] == s[0]);
        assert(s.push(c).drop_first() =~= s.drop_first().push(c));
        if is_ws(s[0]) {
            lemma_trim_start_push(s.drop_first(), c);
        }
    }
}

/// A trailing whitespace character does not change the trimmed text.
pub proof fn lemma_trim_push_ws(s: Seq<char>, c: char)
    requires
        is_ws(c),
    ensures
        trim(s.push(c)) == trim(s),
{
    lemma_trim_start_push(s, c);
    if trim_start(s).len() > 0 {
        let t = trim_start(s).push(c);
        assert(t.drop_last() =~= trim_start(s));
    } else {
        assert(seq![c].drop_first().len() == 0);
        assert(trim_start(seq![c]) == trim_start(seq![c].drop_first()));
    }
}

/// `str::lines`, as character buffers.
pub fn split_lines(v: &Vec<char>) -> (ls: Vec<Vec<char>>)
    ensures
        views(ls@) == lines(v@),
{
    let mut ls: Vec<Vec<char>> = Vec::new();
    let mut cur: Vec<char> = Vec::new();
    let mut i: usize = 0;
    proof {
        assert(v@.skip(0) == v@);
    }
    while i < v.len()
        invariant
            i <= v.len(),
            views(ls@) + lines_from(v@.skip(i as int), cur@) == lines(v@),
        decreases v.len() - i,
    {
        proof {
            lemma_lines_from_step(v@, i as int, cur@);
        }
        if v[i] == '\n' {
            let ghost old_ls = views(ls@);
            let mut line = cur;
            if line.len() > 0 && line[line.len() - 1] == '\r' {
                line.pop();
            }
            proof {
                assert(line@ == strip_cr(cur@));
            }
            ls.push(line);
            proof {
                assert(views(ls@) == old_ls.push(line@));
                assert(old_ls + (seq![line@] + lines_from(v@.skip(i + 1), seq![]))
                    == old_ls.push(line@) + lines_from(v@.skip(i + 1), seq![]));
            }
            cur = Vec::new();
        } else {
            cur.push(v[i]);
        }
        i += 1;
    }
    proof {
        assert(v@.skip(v@.len() as int).len() == 0);
    }
    if cur.len() > 0 {
        let ghost old_ls = views(ls@);
        ls.push(cur);
        proof {
            assert(views(ls@) == old_ls.push(ls@.last()@));
        }
    } else {
        proof {
            assert(views(ls@) + seq![] == views(ls@));
        }
    }
    ls
}

/// Extend `out` with `next` joined after the lines already joined into it.
pub fn push_joined(out: &mut Vec<char>, k: usize, next: &Vec<char>, Ghost(done): Ghost<
    Seq<Seq<char>>,
>)
    requires
        old(out)@ == join_lines(done),
        done.len() == k,
    ensures
        final(out)@ == join_lines(done.push(next@)),
{
    if k > 0 {
        out.push('\n');
    }
    extend(out, next);
    proof {
        assert(done.push(next@).drop_last() == done);
        if k == 0 {
            assert(done.push(next@).len() == 1);
        }
    }
}

// ---------------------------------------------------------------------------
// Replacement
// ---------------------------------------------------------------------------

/// `str::replace` with a non-empty pattern.
pub fn replace_all_chars(s: &Vec<char>, pat: &Vec<char>, rep: &Vec<char>) -> (out: Vec<char>)
    ensures
        out@ == replace_all(s@, pat@, rep@),
{
    let mut out: Vec<char> = Vec::new();
    let mut i: usize = 0;
    proof {
        assert(s@.skip(0) == s@);
    }
    while i < s.len()
        invariant
            i <= s.len(),
            out@ + replace_all(s@.skip(i as int), pat@, rep@) == replace_all(s@, pat@, rep@),
        decreases s.len() - i,
    {
        let ghost rest = s@.skip(i as int);
        let m = pat.len() > 0 && has_prefix_at(s, i, s.len(), pat);
        proof {
            assert(s@.subrange(i as int, s@.len() as int) == rest);
        }
        if m {
            let ghost before = out@;
            extend(&mut out, rep);
            proof {
                assert(rest.skip(pat@.len() as int) == s@.skip(i + pat@.len()));
                assert(before + (rep@ + replace_all(rest.skip(pat@.len() as int), pat@, rep@))
                    == (before + rep@) + replace_all(rest.skip(pat@.len() as int), pat@, rep@));
            }
            i = i + pat.len();
        } else {
            let ghost before = out@;
            out.push(s[i]);
            proof {
                assert(rest[0] == s@[i as int]);
                assert(rest.drop_first() == s@.skip(i + 1));
                assert(before + (seq![rest[0]] + replace_all(rest.drop_first(), pat@, rep@))
                    == before.push(rest[0]) + replace_all(rest.drop_first(), pat@, rep@));
            }
            i = i + 1;
        }
    }
    proof {
        assert(s@.skip(s@.len() as int).len() == 0);
        assert(out@ + seq![] == out@);
    }
    out
}

/// `s.replace(pat, rep)` on strings, for a non-empty pattern.
pub fn replace_str(s: &str, pat: &str, rep: &str) -> (out: String)
    ensures
        out@ == replace_all(s@, pat@, rep@),
{
    let sv = chars_of(s);
    let pv = chars_of(pat);
    let rv = chars_of(rep);
    let ov = replace_all_chars(&sv, &pv, &rv);
    string_from(&ov)
}


// ---------------------------------------------------------------------------
// Comparison, search, paths, separators
// ---------------------------------------------------------------------------

/// Whether the two strings hold the same characters.
pub fn str_eq(a: &str, b: &str) -> (r: bool)
    ensures
        r == (a@ == b@),
{
    let av = chars_of(a);
    let bv = chars_of(b);
    if av.len() != bv.len() {
        return false;
    }
    let mut i: usize = 0;
    while i < av.len()
        invariant
            av@ == a@,
            bv@ == b@,
            av.len() == bv.len(),
            i <= av.len(),
            forall|k: int| 0 <= k < i ==> av@[k] == bv@[k],
        decreases av.len() - i,
    {
        if av[i] != bv[i] {
            proof {
                assert(a@[i as int] != b@[i as int]);
            }
            return false;
        }
        i += 1;
    }
    proof {
        assert(av@ =~= bv@);
    }
    true
}

/// `needle` occurs somewhere in `hay` (`str::contains`).
pub open spec fn contains_seq(hay: Seq<char>, needle: Seq<char>) -> bool {
    exists|i: int| 0 <= i <= hay.len() - needle.len() && #[trigger] hay.subrange(i, i + needle.len())
        == needle
}

pub fn contains_str(hay: &str, needle: &str) -> (r: bool)
    ensures
        r == contains_seq(hay@, needle@),
{
    let hv = chars_of(hay);
    let nv = chars_of(needle);
    if nv.len() > hv.len() {
        proof {
            assert forall|k: int|
                0 <= k <= hay@.len() - needle@.len() implies #[trigger] hay@.subrange(
                k,
                k + needle@.len(),
            ) != needle@ by {}
        }
        return false;
    }
    let last = hv.len() - nv.len();
    let mut i: usize = 0;
    while i <= last
        invariant
            nv.len() <= hv.len(),
            last == hv.len() - nv.len(),
            i <= last,
            hv@ == hay@,
            nv@ == needle@,
            forall|k: int| 0 <= k < i ==> #[trigger] hv@.subrange(k, k + nv@.len()) != nv@,
        decreases last - i,
    {
        proof {
            assert(hv@.subrange(i as int, hv@.len() as int).subrange(0, nv@.len() as int)
                == hv@.subrange(i as int, i + nv@.len()));
        }
        if has_prefix_at(&hv, i, hv.len(), &nv) {
            proof {
                assert(hay@.subrange(i as int, i + needle@.len()) == needle@);
            }
            return true;
        }
        if i == last {
            proof {
                assert forall|k: int|
                    0 <= k <= hay@.len() - needle@.len() implies #[trigger] hay@.subrange(
                    k,
                    k + needle@.len(),
                ) != needle@ by {
                    assert(hv@.subrange(k, k + nv@.len()) != nv@);
                }
            }
            return false;
        }
        i += 1;
    }
    false
}

/// `Path::join` with a relative component: a `/` is inserted unless the base is
/// empty or already ends with one.
pub open spec fn path_join(dir: Seq<char>, rel: Seq<char>) -> Seq<char> {
    if dir.len() == 0 || dir.last() == '/' {
        dir + rel
    } else {
        dir + seq!['/'] + rel
    }
}

/// `str::trim`, as a new string.
pub fn trimmed(s: &str) -> (t: String)
    ensures
        t@ == trim(s@),
{
    let v = chars_of(s);
    let a = trim_start_at(&v, 0, v.len());
    let e = trim_end_at(&v, a, v.len());
    proof {
        assert(v@.subrange(0, v@.len() as int) =~= s@);
    }
    string_from(&copy_range(&v, a, e))
}

pub fn join_path(dir: &str, rel: &str) -> (p: String)
    ensures
        p@ == path_join(dir@, rel@),
{
    let dv = chars_of(dir);
    let mut out = copy_range(&dv, 0, dv.len());
    proof {
        assert(dv@.subrange(0, dv@.len() as int) == dv@);
    }
    if dv.len() > 0 && dv[dv.len() - 1] != '/' {
        out.push('/');
    }
    let rv = chars_of(rel);
    extend(&mut out, &rv);
    string_from(&out)
}

/// The pieces of `s` after the pending piece `cur`, split at `sep`.
pub open spec fn split_from(s: Seq<char>, sep: char, cur: Seq<char>) -> Seq<Seq<char>>
    decreases s.len(),
{
    if s.len() == 0 {
        seq![cur]
    } else if s[0] == sep {
        seq![cur] + split_from(s.drop_first(), sep, seq![])
    } else {
        split_from(s.drop_first(), sep, cur.push(s[0]))
    }
}

/// `str::split(sep)`: always at least one piece.
pub open spec fn split(s: Seq<char>, sep: char) -> Seq<Seq<char>> {
    split_from(s, sep, seq![])
}

/// `[String]::join(sep)`.
pub open spec fn join_sep(ls: Seq<Seq<char>>, sep: char) -> Seq<char>
    decreases ls.len(),
{
    if ls.len() == 0 {
        seq![]
    } else if ls.len() == 1 {
        ls[0]
    } else {
        join_sep(ls.drop_last(), sep) + seq![sep] + ls.last()
    }
}

proof fn lemma_split_from_step(s: Seq<char>, i: int, sep: char, cur: Seq<char>)
    requires
        0 <= i < s.len(),
    ensures
        s[i] == sep ==> split_from(s.skip(i), sep, cur) == seq![cur] + split_from(
            s.skip(i + 1),
            sep,
            seq![],
        ),
        s[i] != sep ==> split_from(s.skip(i), sep, cur) == split_from(
            s.skip(i + 1),
            sep,
            cur.push(s[i]),
        ),
{
    assert(s.skip(i).drop_first() == s.skip(i + 1));
    assert(s.skip(i)[0] == s[i]);
}

/// `str::split(sep)`, as character buffers.
pub fn split_chars(v: &Vec<char>, sep: char) -> (ps: Vec<Vec<char>>)
    ensures
        views(ps@) == split(v@, sep),
        ps@.len() >= 1,
{
    let mut ps: Vec<Vec<char>> = Vec::new();
    let mut cur: Vec<char> = Vec::new();
    let mut i: usize = 0;
    proof {
        assert(v@.skip(0) == v@);
    }
    while i < v.len()
        invariant
            i <= v.len(),
            views(ps@) + split_from(v@.skip(i as int), sep, cur@) == split(v@, sep),
        decreases v.len() - i,
    {
        proof {
            lemma_split_from_step(v@, i as int, sep, cur@);
        }
        if v[i] == sep {
            let ghost old_ps = views(ps@);
            let ghost c = cur@;
            ps.push(cur);
            proof {
                assert(views(ps@) == old_ps.push(c));
                assert(old_ps + (seq![c] + split_from(v@.skip(i + 1), sep, seq![])) == old_ps.push(
                    c,
                ) + split_from(v@.skip(i + 1), sep, seq![]));
            }
            cur = Vec::new();
        } else {
            cur.push(v[i]);
        }
        i += 1;
    }
    proof {
        assert(v@.skip(v@.len() as int).len() == 0);
    }
    let ghost old_ps = views(ps@);
    let ghost c = cur@;
    ps.push(cur);
    proof {
        assert(views(ps@) == old_ps.push(c));
    }
    ps
}

/// Extend `out` with `next`, placing `sep` after the pieces already joined.
pub fn push_sep_joined(
    out: &mut Vec<char>,
    k: usize,
    sep: char,
    next: &Vec<char>,
    Ghost(done): Ghost<Seq<Seq<char>>>,
)
    requires
        old(out)@ == join_sep(done, sep),
        done.len() == k,
    ensures
        final(out)@ == join_sep(done.push(next@), sep),
{
    if k > 0 {
        out.push(sep);
    }
    extend(out, next);
    proof {
        assert(done.push(next@).drop_last() == done);
        if k == 0 {
            assert(done.push(next@).len() == 1);
        }
    }
}

/// The first index of `c` in `s`, if any.
pub open spec fn first_index_of(s: Seq<char>, c: char, i: int) -> bool {
    0 <= i < s.len() && s[i] == c && forall|m: int| 0 <= m < i ==> s[m] != c
}

/// `str::split_once(c)`: the text before and after the first `c`.
pub open spec fn split_once_spec(s: Seq<char>, c: char) -> Option<(Seq<char>, Seq<char>)> {
    if exists|i: int| first_index_of(s, c, i) {
        let i = choose|i: int| first_index_of(s, c, i);
        Some((s.take(i), s.skip(i + 1)))
    } else {
        None
    }
}

/// Splitting `a`, `c`, `b` at the first `c` gives `a` and `b` back when `a`
/// has no `c`.
pub proof fn lemma_split_once_join(a: Seq<char>, c: char, b: Seq<char>)
    requires
        !a.contains(c),
    ensures
        split_once_spec(a + seq![c] + b, c) == Some((a, b)),
{
    let s = a + seq![c] + b;
    assert(first_index_of(s, c, a.len() as int)) by {
        assert forall|m: int| 0 <= m < a.len() implies s[m] != c by {
            assert(s[m] == a[m]);
        }
    }
    let i = choose|i: int| first_index_of(s, c, i);
    if i < a.len() {
        assert(s[i] == a[i]);
    } else if i > a.len() {
        assert(s[a.len() as int] == c);
    }
    assert(s.take(a.len() as int) =~= a);
    assert(s.skip(a.len() as int + 1) =~= b);
}

pub fn split_once(s: &str, c: char) -> (r: Option<(String, String)>)
    ensures
        r matches Some(p) ==> split_once_spec(s@, c) == Some((p.0@, p.1@)),
        r is None ==> split_once_spec(s@, c) is None,
{
    let v = chars_of(s);
    let mut i: usize = 0;
    while i < v.len()
        invariant
            v@ == s@,
            i <= v.len(),
            forall|m: int| 0 <= m < i ==> v@[m] != c,
        decreases v.len() - i,
    {
        if v[i] == c {
            let a = copy_range(&v, 0, i);
            let b = copy_range(&v, i + 1, v.len());
            proof {
                assert(first_index_of(s@, c, i as int));
                let k = choose|k: int| first_index_of(s@, c, k);
                assert(k == i) by {
                    if k < i {
                        assert(v@[k] != c);
                    }
                    if k > i {
                        assert(s@[i as int] == c);
                    }
                }
                assert(a@ == s@.take(i as int));
                assert(b@ == s@.skip(i + 1));
            }
            return Some((string_from(&a), string_from(&b)));
        }
        i += 1;
    }
    None
}


/// The character views of a sequence of strings.
pub open spec fn string_views(v: Seq<String>) -> Seq<Seq<char>> {
    Seq::new(v.len(), |i: int| v[i]@)
}

/// Whether two buffers hold the same characters.
pub fn chars_eq(a: &Vec<char>, b: &Vec<char>) -> (r: bool)
    ensures
        r == (a@ == b@),
{
    if a.len() != b.len() {
        return false;
    }
    let mut i: usize = 0;
    while i < a.len()
        invariant
            a.len() == b.len(),
            i <= a.len(),
            forall|k: int| 0 <= k < i ==> a@[k] == b@[k],
        decreases a.len() - i,
    {
        if a[i] != b[i] {
            proof {
                assert(a@[i as int] != b@[i as int]);
            }
            return false;
        }
        i += 1;
    }
    proof {
        assert(a@ =~= b@);
    }
    true
}

/// Whether `x` is one of the buffers in `v`.
pub fn contains_chars(v: &Vec<Vec<char>>, x: &Vec<char>) -> (r: bool)
    ensures
        r == views(v@).contains(x@),
{
    let mut i: usize = 0;
    while i < v.len()
        invariant
            i <= v.len(),
            forall|k: int| 0 <= k < i ==> v@[k]@ != x@,
        decreases v.len() - i,
    {
        if chars_eq(&v[i], x) {
            proof {
                assert(views(v@)[i as int] == x@);
            }
            return true;
        }
        i += 1;
    }
    proof {
        assert forall|k: int| 0 <= k < views(v@).len() implies views(v@)[k] != x@ by {
            assert(views(v@)[k] == v@[k]@);
        }
    }
    false
}


// ---------------------------------------------------------------------------
// Ordering
// ---------------------------------------------------------------------------

/// `a` sorts strictly before `b`, character by character (the order of `str`).
pub open spec fn lex_lt(a: Seq<char>, b: Seq<char>) -> bool
    decreases a.len(),
{
    if a.len() == 0 {
        b.len() > 0
    } else if b.len() == 0 {
        false
    } else if a[0] != b[0] {
        a[0] < b[0]
    } else {
        lex_lt(a.drop_first(), b.drop_first())
    }
}

pub proof fn lemma_lex_irreflexive(a: Seq<char>)
    ensures
        !lex_lt(a, a),
    decreases a.len(),
{
    if a.len() > 0 {
        lemma_lex_irreflexive(a.drop_first());
    }
}

pub proof fn lemma_lex_trichotomy(a: Seq<char>, b: Seq<char>)
    ensures
        a == b || lex_lt(a, b) || lex_lt(b, a),
        !(lex_lt(a, b) && lex_lt(b, a)),
    decreases a.len(),
{
    if a.len() > 0 && b.len() > 0 {
        if a[0] == b[0] {
            lemma_lex_trichotomy(a.drop_first(), b.drop_first());
            if a.drop_first() == b.drop_first() {
                assert(a =~= seq![a[0]] + a.drop_first());
                assert(b =~= seq![b[0]] + b.drop_first());
            }
        }
    } else if a.len() == 0 && b.len() == 0 {
        assert(a =~= b);
    }
}

pub proof fn lemma_lex_transitive(a: Seq<char>, b: Seq<char>, c: Seq<char>)
    requires
        lex_lt(a, b),
        lex_lt(b, c),
    ensures
        lex_lt(a, c),
    decreases a.len(),
{
    if a.len() > 0 && b.len() > 0 && c.len() > 0 {
        if a[0] == b[0] && b[0] == c[0] {
            lemma_lex_transitive(a.drop_first(), b.drop_first(), c.drop_first());
        }
    }
}

/// `a` sorts strictly before `b`.
pub fn chars_lt(a: &Vec<char>, b: &Vec<char>) -> (r: bool)
    ensures
        r == lex_lt(a@, b@),
{
    let mut i: usize = 0;
    proof {
        assert(a@.skip(0) =~= a@);
        assert(b@.skip(0) =~= b@);
    }
    while i < a.len() && i < b.len()
        invariant
            i <= a.len(),
            i <= b.len(),
            a@.take(i as int) == b@.take(i as int),
            lex_lt(a@, b@) == lex_lt(a@.skip(i as int), b@.skip(i as int)),
        decreases a.len() - i,
    {
        proof {
            assert(a@.skip(i as int)[0] == a@[i as int]);
            assert(b@.skip(i as int)[0] == b@[i as int]);
            assert(a@.skip(i as int).drop_first() =~= a@.skip(i + 1));
            assert(b@.skip(i as int).drop_first() =~= b@.skip(i + 1));
        }
        if a[i] != b[i] {
            return a[i] < b[i];
        }
        proof {
            assert(a@.take(i + 1) =~= a@.take(i as int).push(a@[i as int]));
            assert(b@.take(i + 1) =~= b@.take(i as int).push(b@[i as int]));
        }
        i += 1;
    }
    proof {
        assert(a@.skip(i as int).len() == a.len() - i);
        assert(b@.skip(i as int).len() == b.len() - i);
    }
    i < b.len()
}


/// `[String]::join(sep)` with a separator string.
pub open spec fn join_with(ls: Seq<Seq<char>>, sep: Seq<char>) -> Seq<char>
    decreases ls.len(),
{
    if ls.len() == 0 {
        seq![]
    } else if ls.len() == 1 {
        ls[0]
    } else {
        join_with(ls.drop_last(), sep) + sep + ls.last()
    }
}

/// `items.join(sep)`.
pub fn join_strings(items: &Vec<String>, sep: &str) -> (out: String)
    ensures
        out@ == join_with(string_views(items@), sep@),
{
    let sv = chars_of(sep);
    let mut out: Vec<char> = Vec::new();
    let mut i: usize = 0;
    while i < items.len()
        invariant
            sv@ == sep@,
            i <= items.len(),
            out@ == join_with(string_views(items@).take(i as int), sep@),
        decreases items.len() - i,
    {
        let piece = chars_of(items[i].as_str());
        let ghost before = string_views(items@).take(i as int);
        proof {
            assert(string_views(items@).take(i + 1) =~= before.push(piece@));
            assert(before.push(piece@).drop_last() =~= before);
        }
        if i > 0 {
            extend(&mut out, &sv);
        }
        extend(&mut out, &piece);
        proof {
            if i == 0 {
                assert(before.push(piece@).len() == 1);
                assert(out@ =~= piece@);
            }
        }
        i += 1;
    }
    proof {
        assert(string_views(items@).take(items@.len() as int) =~= string_views(items@));
    }
    string_from(&out)
}


/// `a` followed by `b`, as a new string.
pub fn cat(a: &str, b: &str) -> (s: String)
    ensures
        s@ == a@ + b@,
{
    let mut s = a.to_owned();
    s.append(b);
    s
}


/// `s` ends with `suf`.
pub open spec fn ends_with(s: Seq<char>, suf: Seq<char>) -> bool {
    suf.len() <= s.len() && s.subrange(s.len() - suf.len(), s.len() as int) == suf
}

/// `str::strip_suffix`.
pub open spec fn strip_suffix(s: Seq<char>, suf: Seq<char>) -> Option<Seq<char>> {
    if ends_with(s, suf) {
        Some(s.subrange(0, s.len() - suf.len()))
    } else {
        None
    }
}

/// `str::strip_suffix`: `s` without `suf`, when it ends with it.
pub fn strip_suffix_of(s: &str, suf: &str) -> (r: Option<String>)
    ensures
        match r {
            Some(t) => strip_suffix(s@, suf@) == Some(t@),
            None => strip_suffix(s@, suf@) is None,
        },
{
    let v = chars_of(s);
    let p = chars_of(suf);
    if p.len() > v.len() {
        return None;
    }
    let start = v.len() - p.len();
    let mut k: usize = 0;
    while k < p.len()
        invariant
            v@ == s@,
            p@ == suf@,
            start + p.len() == v.len(),
            k <= p.len(),
            forall|m: int| 0 <= m < k ==> v@[start + m] == p@[m],
        decreases p.len() - k,
    {
        if v[start + k] != p[k] {
            proof {
                assert(v@.subrange(start as int, v@.len() as int)[k as int] != p@[k as int]);
            }
            return None;
        }
        k += 1;
    }
    proof {
        assert(v@.subrange(start as int, v@.len() as int) =~= p@);
    }
    let kept = copy_range(&v, 0, start);
    Some(string_from(&kept))
}


/// `k` without the occurrences of `x`.
pub open spec fn without(k: Seq<Seq<char>>, x: Seq<char>) -> Seq<Seq<char>> {
    k.filter(|y: Seq<char>| y != x)
}

proof fn lemma_without_step(k: Seq<Seq<char>>, x: Seq<char>)
    requires
        k.len() > 0,
    ensures
        without(k, x) == if k.last() != x {
            without(k.drop_last(), x).push(k.last())
        } else {
            without(k.drop_last(), x)
        },
{
    reveal(Seq::filter);
}

/// What dropping one value leaves: the other values.
pub proof fn lemma_without_contains(k: Seq<Seq<char>>, x: Seq<char>, p: Seq<char>)
    ensures
        without(k, x).contains(p) <==> (k.contains(p) && p != x),
    decreases k.len(),
{
    if k.len() > 0 {
        let init = k.drop_last();
        lemma_without_contains(init, x, p);
        lemma_without_step(k, x);
        let fi = without(init, x);
        let f = without(k, x);
        if k.contains(p) && !init.contains(p) {
            let q = choose|q: int| 0 <= q < k.len() && k[q] == p;
            if q < init.len() {
                assert(init[q] == p);
            }
        }
        if init.contains(p) {
            let q = choose|q: int| 0 <= q < init.len() && init[q] == p;
            assert(k[q] == p);
        }
        if k.last() != x {
            if f.contains(p) && !fi.contains(p) {
                let q = choose|q: int| 0 <= q < f.len() && f[q] == p;
                if q < fi.len() {
                    assert(fi[q] == p);
                }
            }
            if fi.contains(p) {
                let q = choose|q: int| 0 <= q < fi.len() && fi[q] == p;
                assert(f[q] == p);
            }
            if p == k.last() {
                assert(f[f.len() - 1] == p);
                assert(k[k.len() - 1] == p);
            }
        }
    } else {
        reveal(Seq::filter);
        assert(without(k, x).len() == 0);
    }
}

/// Dropping one value keeps a strictly sorted list strictly sorted.
pub proof fn lemma_without_sorted(k: Seq<Seq<char>>, x: Seq<char>)
    requires
        forall|i: int, j: int| 0 <= i < j < k.len() ==> lex_lt(#[trigger] k[i], #[trigger] k[j]),
    ensures
        forall|i: int, j: int|
            0 <= i < j < without(k, x).len() ==> lex_lt(#[trigger] without(k, x)[i], #[trigger] without(k, x)[j]),
    decreases k.len(),
{
    if k.len() > 0 {
        let init = k.drop_last();
        assert forall|i: int, j: int| 0 <= i < j < init.len() implies lex_lt(#[trigger] init[i], #[trigger] init[j]) by {
            assert(init[i] == k[i] && init[j] == k[j]);
        }
        lemma_without_sorted(init, x);
        lemma_without_step(k, x);
        let fi = without(init, x);
        let f = without(k, x);
        if k.last() != x {
            assert forall|i: int| 0 <= i < fi.len() implies lex_lt(#[trigger] fi[i], k.last()) by {
                lemma_without_contains(init, x, fi[i]);
                assert(fi.contains(fi[i]));
                let q = choose|q: int| 0 <= q < init.len() && init[q] == fi[i];
                assert(k[q] == init[q]);
            }
            assert forall|i: int, j: int| 0 <= i < j < f.len() implies lex_lt(#[trigger] f[i], #[trigger] f[j]) by {
                if j < fi.len() {
                    assert(f[i] == fi[i] && f[j] == fi[j]);
                } else {
                    assert(f[i] == fi[i]);
                }
            }
        }
    } else {
        reveal(Seq::filter);
        assert(without(k, x).len() == 0);
    }
}

} // verus!
