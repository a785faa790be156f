//! Capture plugin selection. The wise plugin is force-enabled whenever the wise
//! component is selected; the list is emitted as `plugins=` (native) or
//! `ARKIME__plugins=` (docker).

use vstd::prelude::*;
use crate::text::{
    chars_of, contains_chars, copy_range, join_sep, push_sep_joined, split, split_chars,
    string_from, trim, trim_end_at, trim_start_at, views,
};

verus! {

/// The wise integration plugin, force-enabled when the wise component is on.
pub const WISE_PLUGIN: &'static str = "wise.so";

/// A small curated set of commonly enabled plugins, in display order.
pub open spec fn spec_known_plugins() -> Seq<Seq<char>> {
    seq![WISE_PLUGIN@, "ja4plus.amd64.so"@, "entropy.so"@, "suricata.so"@]
}

pub fn known_plugins() -> (v: Vec<&'static str>)
    ensures
        v@.len() == 4,
        forall|i: int| 0 <= i < 4 ==> #[trigger] v@[i]@ == spec_known_plugins()[i],
{
    vec![WISE_PLUGIN, "ja4plus.amd64.so", "entropy.so", "suricata.so"]
}

/// Keep the first occurrence of each non-empty item, in order.
pub open spec fn dedup_nonempty(items: Seq<Seq<char>>) -> Seq<Seq<char>>
    decreases items.len(),
{
    if items.len() == 0 {
        seq![]
    } else {
        let d = dedup_nonempty(items.drop_last());
        let x = items.last();
        if x.len() > 0 && !d.contains(x) {
            d.push(x)
        } else {
            d
        }
    }
}

/// The candidate items: `wise.so` first when required, then the trimmed
/// `;`-separated pieces of `list`.
pub open spec fn finalize_items(list: Seq<char>, wise_required: bool) -> Seq<Seq<char>> {
    let head: Seq<Seq<char>> = if wise_required { seq![WISE_PLUGIN@] } else { seq![] };
    head + split(list, ';').map_values(|p: Seq<char>| trim(p))
}

/// The finalized list: the distinct non-empty candidates, in order, joined
/// with `;`.
pub open spec fn finalize_spec(list: Seq<char>, wise_required: bool) -> Seq<char> {
    join_sep(dedup_nonempty(finalize_items(list, wise_required)), ';')
}

/// Add `x` to the de-duplicated `out` (built from `done`).
fn push_unique(out: &mut Vec<Vec<char>>, x: Vec<char>, Ghost(done): Ghost<Seq<Seq<char>>>)
    requires
        views(old(out)@) == dedup_nonempty(done),
    ensures
        views(final(out)@) == dedup_nonempty(done.push(x@)),
{
    proof {
        assert(done.push(x@).drop_last() == done);
    }
    if x.len() > 0 && !contains_chars(out, &x) {
        let ghost before = views(out@);
        let ghost xv = x@;
        out.push(x);
        proof {
            assert(views(out@) == before.push(xv));
        }
    }
}

/// Merge a `;`-separated plugin list with the wise requirement, de-duplicating
/// while preserving order. `wise_required` forces `wise.so` to the front.
pub fn finalize(list: &str, wise_required: bool) -> (out: String)
    ensures
        out@ == finalize_spec(list@, wise_required),
{
    let ghost items = finalize_items(list@, wise_required);
    let ghost head: Seq<Seq<char>> = if wise_required { seq![WISE_PLUGIN@] } else { seq![] };
    let mut acc: Vec<Vec<char>> = Vec::new();
    if wise_required {
        let w = chars_of(WISE_PLUGIN);
        assert(views(acc@) =~= Seq::<Seq<char>>::empty());
        push_unique(&mut acc, w, Ghost(Seq::<Seq<char>>::empty()));
        proof {
            assert(Seq::<Seq<char>>::empty().push(WISE_PLUGIN@) == head);
        }
    }
    assert(views(acc@) == dedup_nonempty(head)) by {
        if !wise_required {
            assert(views(acc@) =~= Seq::<Seq<char>>::empty());
        }
    }
    let lv = chars_of(list);
    let pieces = split_chars(&lv, ';');
    let ghost trimmed = split(list@, ';').map_values(|p: Seq<char>| trim(p));
    proof {
        assert(items == head + trimmed);
        assert(head + trimmed.take(0) == head);
    }
    let mut j: usize = 0;
    while j < pieces.len()
        invariant
            views(pieces@) == split(list@, ';'),
            trimmed == split(list@, ';').map_values(|p: Seq<char>| trim(p)),
            j <= pieces.len(),
            views(acc@) == dedup_nonempty(head + trimmed.take(j as int)),
        decreases pieces.len() - j,
    {
        let p = &pieces[j];
        let a = trim_start_at(p, 0, p.len());
        let e = trim_end_at(p, a, p.len());
        let t = copy_range(p, a, e);
        proof {
            assert(p@.subrange(0, p@.len() as int) == p@);
            assert(views(pieces@)[j as int] == p@);
            assert(t@ == trimmed[j as int]);
            assert(head + trimmed.take(j + 1) == (head + trimmed.take(j as int)).push(t@));
        }
        push_unique(&mut acc, t, Ghost(head + trimmed.take(j as int)));
        j += 1;
    }
    proof {
        assert(trimmed.take(trimmed.len() as int) == trimmed);
    }
    let mut out: Vec<char> = Vec::new();
    let mut k: usize = 0;
    while k < acc.len()
        invariant
            k <= acc.len(),
            out@ == join_sep(views(acc@).take(k as int), ';'),
        decreases acc.len() - k,
    {
        proof {
            assert(views(acc@).take(k + 1) == views(acc@).take(k as int).push(acc@[k as int]@));
        }
        push_sep_joined(&mut out, k, ';', &acc[k], Ghost(views(acc@).take(k as int)));
        k += 1;
    }
    proof {
        assert(views(acc@).take(acc@.len() as int) == views(acc@));
    }
    string_from(&out)
}

/// The finalized items are non-empty and pairwise distinct.
pub proof fn lemma_dedup_distinct_nonempty(items: Seq<Seq<char>>)
    ensures
        forall|i: int|
            0 <= i < dedup_nonempty(items).len() ==> #[trigger] dedup_nonempty(items)[i].len() > 0,
        forall|i: int, j: int|
            0 <= i < j < dedup_nonempty(items).len() ==> dedup_nonempty(items)[i]
                != dedup_nonempty(items)[j],
    decreases items.len(),
{
    if items.len() > 0 {
        lemma_dedup_distinct_nonempty(items.drop_last());
        let d = dedup_nonempty(items.drop_last());
        let x = items.last();
        if x.len() > 0 && !d.contains(x) {
            assert forall|i: int, j: int|
                0 <= i < j < d.push(x).len() implies d.push(x)[i] != d.push(x)[j] by {
                if j == d.len() {
                    assert(d.contains(d[i]));
                }
            }
        }
    }
}

/// Nothing is lost or invented: a non-empty candidate appears in the result,
/// and every item of the result is a candidate.
pub proof fn lemma_dedup_same_items(items: Seq<Seq<char>>)
    ensures
        forall|x: Seq<char>| #[trigger]
            items.contains(x) && x.len() > 0 ==> dedup_nonempty(items).contains(x),
        forall|x: Seq<char>| #[trigger] dedup_nonempty(items).contains(x) ==> items.contains(x),
    decreases items.len(),
{
    if items.len() > 0 {
        let rest = items.drop_last();
        lemma_dedup_same_items(rest);
        let d = dedup_nonempty(rest);
        let x = items.last();
        assert forall|y: Seq<char>| #[trigger] items.contains(y) && y.len() > 0 implies dedup_nonempty(
            items,
        ).contains(y) by {
            let i = choose|i: int| 0 <= i < items.len() && items[i] == y;
            if i < items.len() - 1 {
                assert(rest[i] == y);
                assert(rest.contains(y));
                assert(d.contains(y));
                if x.len() > 0 && !d.contains(x) {
                    let k = choose|k: int| 0 <= k < d.len() && d[k] == y;
                    assert(d.push(x)[k] == y);
                }
            } else {
                if !d.contains(x) {
                    assert(d.push(x)[d.len() as int] == x);
                }
            }
        }
        assert forall|y: Seq<char>| #[trigger] dedup_nonempty(items).contains(y) implies items.contains(
            y,
        ) by {
            let dd = dedup_nonempty(items);
            let k = choose|k: int| 0 <= k < dd.len() && dd[k] == y;
            if k < d.len() {
                assert(d[k] == y);
                assert(d.contains(y));
                assert(rest.contains(y));
                let i = choose|i: int| 0 <= i < rest.len() && rest[i] == y;
                assert(items[i] == y);
            } else {
                assert(items[items.len() - 1] == y);
            }
        }
    }
}

/// When the first candidate is non-empty it stays first; in particular
/// `wise.so` leads the list whenever it is required.
pub proof fn lemma_dedup_keeps_first(items: Seq<Seq<char>>)
    requires
        items.len() > 0,
        items[0].len() > 0,
    ensures
        dedup_nonempty(items).len() > 0,
        dedup_nonempty(items)[0] == items[0],
    decreases items.len(),
{
    if items.len() == 1 {
        assert(items.drop_last().len() == 0);
        assert(dedup_nonempty(items.drop_last()) == Seq::<Seq<char>>::empty());
    } else {
        lemma_dedup_keeps_first(items.drop_last());
    }
}

/// With the wise component on, the finalized list starts with `wise.so`.
pub proof fn lemma_finalize_wise_first(list: Seq<char>)
    ensures
        dedup_nonempty(finalize_items(list, true)).len() > 0,
        dedup_nonempty(finalize_items(list, true))[0] == WISE_PLUGIN@,
{
    reveal_strlit("wise.so");
    lemma_dedup_keeps_first(finalize_items(list, true));
}

} // verus!
