//! The laws of the sweep: every emitted gap lies inside the window and
//! before the next one, gaps never overlap the busy intervals they were
//! carved around, together the gaps and the busy intervals tile the
//! window exactly, and the result is insensitive to the order in which
//! the busy intervals are supplied.

use vstd::prelude::*;
use vstd::relations::sorted_by;
use vstd::seq_lib::lemma_sorted_unique;

use crate::finder::find::gaps;
use crate::finder::find::ival_leq;
use crate::finder::find::ival_order;
use crate::finder::find::lemma_ival_order_total;
use crate::finder::find::sorted_models;
use crate::finder::find::spec_find;
use crate::periods::block::covers_window;
use crate::periods::block::inside_window;
use crate::periods::block::overlaps_window_end;
use crate::periods::block::overlaps_window_start;
use crate::periods::period::all_valid;
use crate::periods::period::ival_disjoint;
use crate::periods::period::ival_has_point;
use crate::periods::period::ival_valid;
use crate::periods::period::Interval;

verus! {

/// Dropping the first busy interval keeps the rest valid, and — when they
/// are sorted — keeps them sorted and no earlier than the first.
proof fn lemma_tail(blocks: Seq<Interval>)
    requires
        all_valid(blocks),
        blocks.len() > 0,
    ensures
        all_valid(blocks.drop_first()),
        sorted_by(blocks, ival_order()) ==> sorted_by(blocks.drop_first(), ival_order()),
        sorted_by(blocks, ival_order()) ==> forall|j: int|
            0 <= j < blocks.drop_first().len() ==> ival_leq(
                blocks[0],
                #[trigger] blocks.drop_first()[j],
            ),
{
    let rest = blocks.drop_first();
    let leq = ival_order();
    assert forall|i: int| 0 <= i < rest.len() implies ival_valid(#[trigger] rest[i]) by {
        assert(rest[i] == blocks[i + 1]);
    }
    if sorted_by(blocks, leq) {
        assert forall|p: int, q: int| 0 <= p < q < rest.len() implies #[trigger] leq(
            rest[p],
            rest[q],
        ) by {
            assert(rest[p] == blocks[p + 1] && rest[q] == blocks[q + 1]);
            assert(leq(blocks[p + 1], blocks[q + 1]));
        }
        assert forall|j: int| 0 <= j < rest.len() implies ival_leq(
            blocks[0],
            #[trigger] rest[j],
        ) by {
            assert(leq(blocks[0], blocks[j + 1]));
        }
    }
}

/// Every gap is non-empty, lies inside the window, and ends no later than
/// the next gap begins.
proof fn lemma_gaps_bounds(lo: int, hi: int, blocks: Seq<Interval>)
    requires
        all_valid(blocks),
    ensures
        forall|k: int| 0 <= k < gaps(lo, hi, blocks).len() ==> lo <= (
        #[trigger] gaps(lo, hi, blocks)[k]).start && ival_valid(gaps(lo, hi, blocks)[k]) && gaps(
            lo,
            hi,
            blocks,
        )[k].end <= hi,
        forall|k: int, l: int| 0 <= k < l < gaps(lo, hi, blocks).len() ==> (
        #[trigger] gaps(lo, hi, blocks)[k]).end <= (#[trigger] gaps(lo, hi, blocks)[l]).start,
    decreases blocks.len(),
{
    let g = gaps(lo, hi, blocks);
    if blocks.len() == 0 {
    } else {
        let b = blocks[0];
        let t = Interval { start: lo, end: hi };
        let rest = blocks.drop_first();
        lemma_tail(blocks);
        assert(ival_valid(b));
        if covers_window(b, t) {
            assert(g.len() == 0);
        } else if overlaps_window_start(b, t) {
            lemma_gaps_bounds(b.end, hi, rest);
            let gr = gaps(b.end, hi, rest);
            assert(g == gr);
            assert(lo <= b.end);
            assert forall|k: int| 0 <= k < g.len() implies lo <= (#[trigger] g[k]).start
                && ival_valid(g[k]) && g[k].end <= hi by {
                assert(b.end <= gr[k].start && ival_valid(gr[k]) && gr[k].end <= hi);
            }
            assert forall|k: int, l: int| 0 <= k < l < g.len() implies (#[trigger] g[k]).end <= (
            #[trigger] g[l]).start by {
                assert(gr[k].end <= gr[l].start);
            }
        } else if inside_window(b, t) {
            lemma_gaps_bounds(b.end, hi, rest);
            let gr = gaps(b.end, hi, rest);
            let e = Interval { start: lo, end: b.start };
            assert(g == seq![e] + gr);
            assert(lo < b.start);
            assert(g[0] == e);
            assert(forall|k: int| 1 <= k < g.len() ==> #[trigger] g[k] == gr[k - 1]);
            assert forall|k: int| 0 <= k < g.len() implies lo <= (#[trigger] g[k]).start
                && ival_valid(g[k]) && g[k].end <= hi by {
                if k == 0 {
                    assert(b.start <= hi);
                } else {
                    assert(b.end <= gr[k - 1].start && ival_valid(gr[k - 1]) && gr[k - 1].end
                        <= hi);
                }
            }
            assert forall|k: int, l: int| 0 <= k < l < g.len() implies (#[trigger] g[k]).end <= (
            #[trigger] g[l]).start by {
                if k == 0 {
                    assert(b.end <= gr[l - 1].start);
                } else {
                    assert(gr[k - 1].end <= gr[l - 1].start);
                }
            }
        } else if overlaps_window_end(b, t) {
            assert(g == seq![Interval { start: lo, end: b.start }]);
            assert(lo < b.start);
            assert(b.start <= hi);
        } else {
            lemma_gaps_bounds(lo, hi, rest);
            let gr = gaps(lo, hi, rest);
            assert(g == gr);
            assert forall|k: int| 0 <= k < g.len() implies lo <= (#[trigger] g[k]).start
                && ival_valid(g[k]) && g[k].end <= hi by {
                assert(lo <= gr[k].start && ival_valid(gr[k]) && gr[k].end <= hi);
            }
            assert forall|k: int, l: int| 0 <= k < l < g.len() implies (#[trigger] g[k]).end <= (
            #[trigger] g[l]).start by {
                assert(gr[k].end <= gr[l].start);
            }
        }
    }
}

/// A consumed window leaves no gaps at all.
proof fn lemma_gaps_collapsed(lo: int, hi: int, blocks: Seq<Interval>)
    requires
        all_valid(blocks),
        lo >= hi,
    ensures
        gaps(lo, hi, blocks) == Seq::<Interval>::empty(),
    decreases blocks.len(),
{
    if blocks.len() == 0 {
    } else {
        let b = blocks[0];
        let t = Interval { start: lo, end: hi };
        let rest = blocks.drop_first();
        lemma_tail(blocks);
        assert(ival_valid(b));
        if covers_window(b, t) {
        } else if overlaps_window_start(b, t) {
            lemma_gaps_collapsed(b.end, hi, rest);
        } else if inside_window(b, t) {
            assert(false);
        } else if overlaps_window_end(b, t) {
            assert(false);
        } else {
            lemma_gaps_collapsed(lo, hi, rest);
        }
    }
}

/// When the busy intervals are consumed in sorted order, every gap is
/// disjoint from every busy interval.
proof fn lemma_gaps_disjoint(lo: int, hi: int, blocks: Seq<Interval>)
    requires
        all_valid(blocks),
        sorted_by(blocks, ival_order()),
    ensures
        forall|k: int, j: int|
            0 <= k < gaps(lo, hi, blocks).len() && 0 <= j < blocks.len() ==> ival_disjoint(
                #[trigger] gaps(lo, hi, blocks)[k],
                #[trigger] blocks[j],
            ),
    decreases blocks.len(),
{
    let g = gaps(lo, hi, blocks);
    if blocks.len() == 0 {
    } else {
        let b = blocks[0];
        let t = Interval { start: lo, end: hi };
        let rest = blocks.drop_first();
        lemma_tail(blocks);
        assert(ival_valid(b));
        if covers_window(b, t) {
        } else if overlaps_window_start(b, t) {
            lemma_gaps_disjoint(b.end, hi, rest);
            lemma_gaps_bounds(b.end, hi, rest);
            let gr = gaps(b.end, hi, rest);
            assert(g == gr);
            assert forall|k: int, j: int| 0 <= k < g.len() && 0 <= j < blocks.len()
                implies ival_disjoint(#[trigger] g[k], #[trigger] blocks[j]) by {
                if j == 0 {
                    assert(b.end <= gr[k].start);
                } else {
                    assert(ival_disjoint(gr[k], rest[j - 1]));
                }
            }
        } else if inside_window(b, t) {
            lemma_gaps_disjoint(b.end, hi, rest);
            lemma_gaps_bounds(b.end, hi, rest);
            let gr = gaps(b.end, hi, rest);
            let e = Interval { start: lo, end: b.start };
            assert(g == seq![e] + gr);
            assert(g[0] == e);
            assert(forall|k: int| 1 <= k < g.len() ==> #[trigger] g[k] == gr[k - 1]);
            assert forall|k: int, j: int| 0 <= k < g.len() && 0 <= j < blocks.len()
                implies ival_disjoint(#[trigger] g[k], #[trigger] blocks[j]) by {
                if k == 0 {
                    if j > 0 {
                        assert(ival_leq(b, rest[j - 1]));
                    }
                } else {
                    if j == 0 {
                        assert(b.end <= gr[k - 1].start);
                    } else {
                        assert(ival_disjoint(gr[k - 1], rest[j - 1]));
                    }
                }
            }
        } else if overlaps_window_end(b, t) {
            let e = Interval { start: lo, end: b.start };
            assert(g == seq![e]);
            assert forall|k: int, j: int| 0 <= k < g.len() && 0 <= j < blocks.len()
                implies ival_disjoint(#[trigger] g[k], #[trigger] blocks[j]) by {
                if j > 0 {
                    assert(ival_leq(b, rest[j - 1]));
                }
            }
        } else {
            lemma_gaps_disjoint(lo, hi, rest);
            lemma_gaps_bounds(lo, hi, rest);
            let gr = gaps(lo, hi, rest);
            assert(g == gr);
            if lo >= hi {
                lemma_gaps_collapsed(lo, hi, blocks);
            } else {
                assert(b.end <= lo || hi <= b.start);
                assert forall|k: int, j: int| 0 <= k < g.len() && 0 <= j < blocks.len()
                    implies ival_disjoint(#[trigger] g[k], #[trigger] blocks[j]) by {
                    if j == 0 {
                        assert(lo <= gr[k].start && ival_valid(gr[k]) && gr[k].end <= hi);
                    } else {
                        assert(ival_disjoint(gr[k], rest[j - 1]));
                    }
                }
            }
        }
    }
}

/// Sorting the busy intervals into canonical order keeps them valid.
proof fn lemma_sorted_models_valid(ms: Seq<Interval>)
    requires
        all_valid(ms),
    ensures
        all_valid(sorted_models(ms)),
        sorted_by(sorted_models(ms), ival_order()),
        sorted_models(ms).to_multiset() == ms.to_multiset(),
    decreases ms.len(),
{
    lemma_ival_order_total();
    ms.lemma_sort_by_ensures(ival_order());
    let sm = sorted_models(ms);
    assert forall|i: int| 0 <= i < sm.len() implies ival_valid(#[trigger] sm[i]) by {
        assert(sm.contains(sm[i]));
        assert(ms.contains(sm[i]));
        let j = choose|j: int| 0 <= j < ms.len() && ms[j] == sm[i];
        assert(ival_valid(ms[j]));
    }
}

/// When the busy intervals are consumed in sorted order, a point of the
/// window lies in some gap exactly when it lies in no busy interval.
proof fn lemma_gaps_cover(lo: int, hi: int, blocks: Seq<Interval>, t: int)
    requires
        all_valid(blocks),
        sorted_by(blocks, ival_order()),
        lo <= t < hi,
    ensures
        (exists|k: int|
            0 <= k < gaps(lo, hi, blocks).len() && ival_has_point(
                #[trigger] gaps(lo, hi, blocks)[k],
                t,
            )) <==> !(exists|j: int|
            0 <= j < blocks.len() && ival_has_point(#[trigger] blocks[j], t)),
    decreases blocks.len(),
{
    let g = gaps(lo, hi, blocks);
    if blocks.len() == 0 {
        assert(ival_has_point(g[0], t));
    } else {
        let b = blocks[0];
        let w = Interval { start: lo, end: hi };
        let rest = blocks.drop_first();
        lemma_tail(blocks);
        assert(ival_valid(b));
        if covers_window(b, w) {
            assert(g.len() == 0);
            assert(ival_has_point(blocks[0], t));
        } else if overlaps_window_start(b, w) {
            lemma_gaps_bounds(b.end, hi, rest);
            let gr = gaps(b.end, hi, rest);
            assert(g == gr);
            if t < b.end {
                assert(ival_has_point(blocks[0], t));
                assert forall|k: int| 0 <= k < g.len() implies !ival_has_point(
                    #[trigger] g[k],
                    t,
                ) by {
                    assert(b.end <= gr[k].start);
                }
            } else {
                lemma_gaps_cover(b.end, hi, rest, t);
                assert(!ival_has_point(b, t));
                if exists|j: int| 0 <= j < rest.len() && ival_has_point(#[trigger] rest[j], t) {
                    let j0 = choose|j: int|
                        0 <= j < rest.len() && ival_has_point(#[trigger] rest[j], t);
                    assert(ival_has_point(blocks[j0 + 1], t));
                }
                if exists|j: int| 0 <= j < blocks.len() && ival_has_point(#[trigger] blocks[j], t) {
                    let j0 = choose|j: int|
                        0 <= j < blocks.len() && ival_has_point(#[trigger] blocks[j], t);
                    assert(j0 > 0);
                    assert(ival_has_point(rest[j0 - 1], t));
                }
            }
        } else if inside_window(b, w) {
            lemma_gaps_bounds(b.end, hi, rest);
            let gr = gaps(b.end, hi, rest);
            let e = Interval { start: lo, end: b.start };
            assert(g == seq![e] + gr);
            assert(g[0] == e);
            assert(forall|k: int| 1 <= k < g.len() ==> #[trigger] g[k] == gr[k - 1]);
            if t < b.start {
                assert(ival_has_point(g[0], t));
                assert forall|j: int| 0 <= j < blocks.len() implies !ival_has_point(
                    #[trigger] blocks[j],
                    t,
                ) by {
                    if j > 0 {
                        assert(ival_leq(b, rest[j - 1]));
                    }
                }
            } else if t < b.end {
                assert(ival_has_point(blocks[0], t));
                assert forall|k: int| 0 <= k < g.len() implies !ival_has_point(
                    #[trigger] g[k],
                    t,
                ) by {
                    if k > 0 {
                        assert(b.end <= gr[k - 1].start);
                    }
                }
            } else {
                lemma_gaps_cover(b.end, hi, rest, t);
                assert(!ival_has_point(b, t));
                assert(!ival_has_point(e, t));
                if exists|k: int| 0 <= k < gr.len() && ival_has_point(#[trigger] gr[k], t) {
                    let k0 = choose|k: int|
                        0 <= k < gr.len() && ival_has_point(#[trigger] gr[k], t);
                    assert(ival_has_point(g[k0 + 1], t));
                }
                if exists|k: int| 0 <= k < g.len() && ival_has_point(#[trigger] g[k], t) {
                    let k0 = choose|k: int| 0 <= k < g.len() && ival_has_point(#[trigger] g[k], t);
                    assert(k0 > 0);
                    assert(ival_has_point(gr[k0 - 1], t));
                }
                if exists|j: int| 0 <= j < rest.len() && ival_has_point(#[trigger] rest[j], t) {
                    let j0 = choose|j: int|
                        0 <= j < rest.len() && ival_has_point(#[trigger] rest[j], t);
                    assert(ival_has_point(blocks[j0 + 1], t));
                }
                if exists|j: int| 0 <= j < blocks.len() && ival_has_point(#[trigger] blocks[j], t) {
                    let j0 = choose|j: int|
                        0 <= j < blocks.len() && ival_has_point(#[trigger] blocks[j], t);
                    assert(j0 > 0);
                    assert(ival_has_point(rest[j0 - 1], t));
                }
            }
        } else if overlaps_window_end(b, w) {
            let e = Interval { start: lo, end: b.start };
            assert(g == seq![e]);
            if t < b.start {
                assert(ival_has_point(g[0], t));
                assert forall|j: int| 0 <= j < blocks.len() implies !ival_has_point(
                    #[trigger] blocks[j],
                    t,
                ) by {
                    if j > 0 {
                        assert(ival_leq(b, rest[j - 1]));
                    }
                }
            } else {
                assert(ival_has_point(blocks[0], t));
                assert(!ival_has_point(e, t));
            }
        } else {
            assert(b.end <= lo || hi <= b.start);
            assert(!ival_has_point(b, t));
            lemma_gaps_cover(lo, hi, rest, t);
            let gr = gaps(lo, hi, rest);
            assert(g == gr);
            if exists|j: int| 0 <= j < rest.len() && ival_has_point(#[trigger] rest[j], t) {
                let j0 = choose|j: int| 0 <= j < rest.len() && ival_has_point(#[trigger] rest[j], t);
                assert(ival_has_point(blocks[j0 + 1], t));
            }
            if exists|j: int| 0 <= j < blocks.len() && ival_has_point(#[trigger] blocks[j], t) {
                let j0 = choose|j: int|
                    0 <= j < blocks.len() && ival_has_point(#[trigger] blocks[j], t);
                assert(j0 > 0);
                assert(ival_has_point(rest[j0 - 1], t));
            }
        }
    }
}

/// Law: every free interval of the result is disjoint from every busy
/// interval of the query, and from every other free interval.
pub proof fn lemma_no_overlap(w: Interval, ms: Seq<Interval>)
    requires
        all_valid(ms),
    ensures
        forall|k: int, j: int|
            0 <= k < spec_find(w, ms).len() && 0 <= j < ms.len() ==> ival_disjoint(
                #[trigger] spec_find(w, ms)[k],
                #[trigger] ms[j],
            ),
        forall|k: int, l: int|
            0 <= k < l < spec_find(w, ms).len() ==> ival_disjoint(
                #[trigger] spec_find(w, ms)[k],
                #[trigger] spec_find(w, ms)[l],
            ),
{
    broadcast use vstd::seq_lib::group_to_multiset_ensures;

    let sm = sorted_models(ms);
    let g = spec_find(w, ms);
    lemma_sorted_models_valid(ms);
    lemma_gaps_disjoint(w.start, w.end, sm);
    lemma_gaps_bounds(w.start, w.end, sm);
    assert(g == gaps(w.start, w.end, sm));
    assert forall|k: int, j: int| 0 <= k < g.len() && 0 <= j < ms.len() implies ival_disjoint(
        #[trigger] g[k],
        #[trigger] ms[j],
    ) by {
        assert(ms.contains(ms[j]));
        assert(ms.to_multiset().count(ms[j]) > 0);
        assert(sm.to_multiset().count(ms[j]) > 0);
        assert(sm.contains(ms[j]));
        let i = choose|i: int| 0 <= i < sm.len() && sm[i] == ms[j];
        assert(ival_disjoint(gaps(w.start, w.end, sm)[k], sm[i]));
    }
    assert forall|k: int, l: int| 0 <= k < l < g.len() implies ival_disjoint(
        #[trigger] g[k],
        #[trigger] g[l],
    ) by {
        assert(gaps(w.start, w.end, sm)[k].end <= gaps(w.start, w.end, sm)[l].start);
        assert(ival_valid(gaps(w.start, w.end, sm)[k]));
    }
}

/// Law: a point of the window lies in some free interval of the result
/// exactly when it lies in no busy interval of the query — together they
/// tile the window, with no gap and no double counting.
pub proof fn lemma_coverage(w: Interval, ms: Seq<Interval>, t: int)
    requires
        all_valid(ms),
        w.start <= t < w.end,
    ensures
        (exists|k: int|
            0 <= k < spec_find(w, ms).len() && ival_has_point(#[trigger] spec_find(w, ms)[k], t))
            <==> !(exists|j: int| 0 <= j < ms.len() && ival_has_point(#[trigger] ms[j], t)),
{
    broadcast use vstd::seq_lib::group_to_multiset_ensures;

    let sm = sorted_models(ms);
    let g = spec_find(w, ms);
    lemma_sorted_models_valid(ms);
    lemma_gaps_cover(w.start, w.end, sm, t);
    assert(g == gaps(w.start, w.end, sm));
    if exists|j: int| 0 <= j < ms.len() && ival_has_point(#[trigger] ms[j], t) {
        let j0 = choose|j: int| 0 <= j < ms.len() && ival_has_point(#[trigger] ms[j], t);
        assert(ms.contains(ms[j0]));
        assert(sm.to_multiset().count(ms[j0]) > 0);
        assert(sm.contains(ms[j0]));
        let i = choose|i: int| 0 <= i < sm.len() && sm[i] == ms[j0];
        assert(ival_has_point(sm[i], t));
    }
    if exists|i: int| 0 <= i < sm.len() && ival_has_point(#[trigger] sm[i], t) {
        let i0 = choose|i: int| 0 <= i < sm.len() && ival_has_point(#[trigger] sm[i], t);
        assert(sm.contains(sm[i0]));
        assert(ms.to_multiset().count(sm[i0]) > 0);
        assert(ms.contains(sm[i0]));
        let j = choose|j: int| 0 <= j < ms.len() && ms[j] == sm[i0];
        assert(ival_has_point(ms[j], t));
    }
}

/// Law: the free intervals of the result are strictly increasing in
/// start instant, and each lies non-empty inside the window.
pub proof fn lemma_output_ordered(w: Interval, ms: Seq<Interval>)
    requires
        all_valid(ms),
    ensures
        forall|k: int, l: int|
            0 <= k < l < spec_find(w, ms).len() ==> (#[trigger] spec_find(w, ms)[k]).start < (
            #[trigger] spec_find(w, ms)[l]).start,
        forall|k: int|
            0 <= k < spec_find(w, ms).len() ==> w.start <= (#[trigger] spec_find(w, ms)[k]).start
                && ival_valid(spec_find(w, ms)[k]) && spec_find(w, ms)[k].end <= w.end,
{
    let sm = sorted_models(ms);
    let g = spec_find(w, ms);
    lemma_sorted_models_valid(ms);
    lemma_gaps_bounds(w.start, w.end, sm);
    assert(g == gaps(w.start, w.end, sm));
    assert forall|k: int, l: int| 0 <= k < l < g.len() implies (#[trigger] g[k]).start < (
    #[trigger] g[l]).start by {
        assert(gaps(w.start, w.end, sm)[k].end <= gaps(w.start, w.end, sm)[l].start);
        assert(ival_valid(gaps(w.start, w.end, sm)[k]));
    }
}

/// Law: the result depends only on the collection of busy intervals, not
/// on the order in which they are supplied.
pub proof fn lemma_order_insensitive(w: Interval, ms1: Seq<Interval>, ms2: Seq<Interval>)
    requires
        ms1.to_multiset() == ms2.to_multiset(),
    ensures
        spec_find(w, ms1) == spec_find(w, ms2),
{
    lemma_ival_order_total();
    ms1.lemma_sort_by_ensures(ival_order());
    ms2.lemma_sort_by_ensures(ival_order());
    lemma_sorted_unique(sorted_models(ms1), sorted_models(ms2), ival_order());
}

} // verus!
