use vstd::pervasive::unreached;
use vstd::prelude::*;
use vstd::relations::sorted_by;
use vstd::relations::total_ordering;
use vstd::seq_lib::lemma_sorted_unique;
use vstd::string::StringExecFns;

use crate::periods::block::covers_window;
use crate::periods::block::inside_window;
use crate::periods::block::overlaps_window_end;
use crate::periods::block::overlaps_window_start;
use crate::periods::block::Block;
use crate::periods::period::all_valid;
use crate::periods::period::model_of;
use crate::periods::period::models_of;
use crate::periods::period::Input;
use crate::periods::period::Interval;
use crate::periods::period::Output;
use crate::periods::period::Period;
use crate::periods::period::PeriodError;
use crate::periods::slot::Slot;
use crate::periods::span::Span;

verus! {

/// Error surfaced by the sweep: some caller record could not be
/// normalized into a busy block.
#[derive(Debug, Clone, Copy, PartialEq, Eq, Structural)]
pub enum SlotError {
    InvalidPeriod(PeriodError),
}

impl SlotError {
    /// Human-readable description of the error.
    pub fn message(&self) -> (r: String)
        ensures
            r@ == "Invalid blocks. Check your arguments are valid."@,
    {
        String::from_str("Invalid blocks. Check your arguments are valid.")
    }
}

/// Lexicographic order on model intervals: by start instant, ties broken
/// by end instant.
pub open spec fn ival_leq(a: Interval, b: Interval) -> bool {
    a.start < b.start || (a.start == b.start && a.end <= b.end)
}

/// `ival_leq` packaged as a relation value, for use with ordering lemmas.
pub open spec fn ival_order() -> spec_fn(Interval, Interval) -> bool {
    |a: Interval, b: Interval| ival_leq(a, b)
}

/// The canonical arrangement of a collection of busy intervals: sorted by
/// start instant, ties broken by end instant.
pub open spec fn sorted_models(ms: Seq<Interval>) -> Seq<Interval> {
    ms.sort_by(ival_order())
}

/// `ival_leq` orders the model intervals totally.
pub proof fn lemma_ival_order_total()
    ensures
        total_ordering(ival_order()),
{
    let leq = ival_order();
    assert forall|a: Interval, b: Interval| #[trigger] leq(a, b) && #[trigger] leq(b, a)
        implies a == b by {
        assert(a.start == b.start && a.end == b.end);
    }
}

/// Compares two blocks in the canonical order.
fn block_le(a: &Block, b: &Block) -> (r: bool)
    ensures
        r == ival_leq(model_of(*a), model_of(*b)),
{
    a.start().secs < b.start().secs
        || (a.start().secs == b.start().secs && a.end().secs <= b.end().secs)
}

/// Inserting an element into a sequence inserts its value into the
/// sequence's multiset.
proof fn lemma_insert_to_multiset(s: Seq<Interval>, j: int, v: Interval)
    requires
        0 <= j <= s.len(),
    ensures
        s.insert(j, v).to_multiset() =~= s.to_multiset().insert(v),
{
    broadcast use vstd::seq_lib::group_to_multiset_ensures;

    let s2 = s.insert(j, v);
    assert(s2.remove(j) =~= s);
    assert(s2[j] == v);
    assert(s2.to_multiset().remove(v) =~= s.to_multiset());
    assert(s2.contains(v));
    assert(s2.to_multiset().count(v) > 0);
    assert forall|x: Interval|
        s2.to_multiset().count(x) == #[trigger] s.to_multiset().insert(v).count(x) by {
        if x == v {
            assert(s2.to_multiset().remove(v).count(v) == s2.to_multiset().count(v) - 1);
        } else {
            assert(s2.to_multiset().remove(v).count(x) == s2.to_multiset().count(x));
        }
    }
}

/// Taking models commutes with inserting an element.
proof fn lemma_models_insert(s: Seq<Block>, j: int, b: Block)
    requires
        0 <= j <= s.len(),
    ensures
        models_of(s.insert(j, b)) =~= models_of(s).insert(j, model_of(b)),
{
}

/// Taking models commutes with pushing an element.
proof fn lemma_models_push<P: Period>(s: Seq<P>, p: P)
    ensures
        models_of(s.push(p)) =~= models_of(s).push(model_of(p)),
{
}

/// Sorts blocks into the canonical order by insertion.
fn sort_blocks(blocks: Vec<Block>) -> (r: Vec<Block>)
    ensures
        models_of(r@) == sorted_models(models_of(blocks@)),
{
    broadcast use vstd::seq_lib::group_to_multiset_ensures;

    let ghost ms = models_of(blocks@);
    let mut r: Vec<Block> = Vec::new();
    let mut idx: usize = 0;
    proof {
        assert(models_of(blocks@.subrange(0, 0)) =~= Seq::<Interval>::empty());
        assert(models_of(r@) =~= Seq::<Interval>::empty());
        assert(Seq::<Interval>::empty().to_multiset() =~= models_of(r@).to_multiset());
    }
    while idx < blocks.len()
        invariant
            0 <= idx <= blocks.len(),
            ms == models_of(blocks@),
            sorted_by(models_of(r@), ival_order()),
            models_of(r@).to_multiset() == models_of(blocks@.subrange(0, idx as int)).to_multiset(),
        decreases blocks.len() - idx,
    {
        let x = blocks[idx];
        let mut j: usize = 0;
        while j < r.len() && block_le(&r[j], &x)
            invariant
                0 <= j <= r.len(),
                forall|t: int| 0 <= t < j ==> ival_leq(#[trigger] models_of(r@)[t], model_of(x)),
            decreases r.len() - j,
        {
            j += 1;
        }
        proof {
            broadcast use vstd::seq_lib::group_to_multiset_ensures;

            let rm = models_of(r@);
            let xm = model_of(x);
            let leq = ival_order();
            lemma_models_insert(r@, j as int, x);
            lemma_insert_to_multiset(rm, j as int, xm);
            assert forall|u: int, v: int| 0 <= u < v < rm.insert(j as int, xm).len()
                implies ival_leq(
                    #[trigger] rm.insert(j as int, xm)[u],
                    #[trigger] rm.insert(j as int, xm)[v],
                ) by {
                let s2 = rm.insert(j as int, xm);
                assert forall|p: int, q: int|
                    0 <= p < q < rm.len() implies ival_leq(#[trigger] rm[p], #[trigger] rm[q]) by {
                    assert(leq(rm[p], rm[q]));
                }
                if v < j {
                    assert(s2[u] == rm[u] && s2[v] == rm[v]);
                } else if u > j {
                    assert(s2[u] == rm[u - 1] && s2[v] == rm[v - 1]);
                } else if u == j {
                    assert(s2[u] == xm && s2[v] == rm[v - 1]);
                    assert(ival_leq(xm, rm[j as int]));
                    assert(ival_leq(rm[j as int], rm[v - 1]));
                } else if v == j {
                    assert(s2[u] == rm[u] && s2[v] == xm);
                } else {
                    assert(s2[u] == rm[u] && s2[v] == rm[v - 1]);
                    assert(v - 1 >= j);
                    assert(ival_leq(rm[u], xm));
                    assert(ival_leq(xm, rm[j as int]));
                    assert(ival_leq(rm[j as int], rm[v - 1]));
                }
            }
            let pre = blocks@.subrange(0, idx as int);
            let post = blocks@.subrange(0, idx as int + 1);
            assert(post =~= pre.push(blocks@[idx as int]));
            lemma_models_push(pre, blocks@[idx as int]);
            let pm = model_of(blocks@[idx as int]);
            assert(models_of(post) == models_of(pre).push(pm));
            assert(models_of(pre).push(pm).to_multiset() =~= models_of(pre).to_multiset().insert(
                pm,
            ));
            assert(rm.insert(j as int, xm).to_multiset() =~= models_of(post).to_multiset());
        }
        r.insert(j, x);
        idx += 1;
    }
    proof {
        assert(blocks@.subrange(0, blocks@.len() as int) =~= blocks@);
        ms.lemma_sort_by_ensures(ival_order());
        lemma_ival_order_total();
        lemma_sorted_unique(models_of(r@), sorted_models(ms), ival_order());
    }
    r
}

/// The gaps that the sweep leaves of the window `[lo, hi)` once the given
/// busy intervals are consumed, in the order the blocks are given.
///
/// Each block is classified by the first of five mutually exclusive,
/// ordered relations: it covers the whole window (the sweep stops with
/// nothing free), it occupies the window's leading edge (the window is
/// trimmed), it lies inside the window (the gap before it is emitted and
/// the window trimmed), it occupies the trailing edge (the gap before it
/// is emitted and the sweep stops), or it lies outside the window (it is
/// skipped).
pub open spec fn gaps(lo: int, hi: int, blocks: Seq<Interval>) -> Seq<Interval>
    decreases blocks.len(),
{
    if blocks.len() == 0 {
        if lo < hi {
            seq![Interval { start: lo, end: hi }]
        } else {
            Seq::empty()
        }
    } else {
        let b = blocks[0];
        let t = Interval { start: lo, end: hi };
        if covers_window(b, t) {
            Seq::empty()
        } else if overlaps_window_start(b, t) {
            gaps(b.end, hi, blocks.drop_first())
        } else if inside_window(b, t) {
            seq![Interval { start: lo, end: b.start }] + gaps(b.end, hi, blocks.drop_first())
        } else if overlaps_window_end(b, t) {
            seq![Interval { start: lo, end: b.start }]
        } else {
            gaps(lo, hi, blocks.drop_first())
        }
    }
}

/// What the sweep returns for a window and a collection of busy
/// intervals: the gaps of the window, with the blocks consumed in the
/// canonical order.
pub open spec fn spec_find(w: Interval, ms: Seq<Interval>) -> Seq<Interval> {
    gaps(w.start, w.end, sorted_models(ms))
}

/// Computes the free slots of the window `span` once the given busy
/// blocks are subtracted, in left-to-right temporal order. Never fails.
pub fn find_slots(span: Span, blocks: Vec<Block>) -> (r: Vec<Slot>)
    ensures
        models_of(r@) == spec_find(span@, models_of(blocks@)),
{
    let sorted = sort_blocks(blocks);
    let ghost bm = models_of(sorted@);
    let ghost lo0 = span@.start;
    let ghost hi = span@.end;
    let mut slots: Vec<Slot> = Vec::new();
    let mut target = span;
    let mut i: usize = 0;
    proof {
        assert(bm.skip(0) =~= bm);
        assert(models_of(slots@) =~= Seq::<Interval>::empty());
    }
    while i < sorted.len()
        invariant_except_break
            0 <= i <= sorted.len(),
            bm == models_of(sorted@),
            target@.end == hi,
            models_of(slots@) + gaps(target@.start, hi, bm.skip(i as int)) =~= gaps(lo0, hi, bm),
        ensures
            target@.end == hi,
            models_of(slots@) + (if target@.start < hi {
                seq![Interval { start: target@.start, end: hi }]
            } else {
                Seq::<Interval>::empty()
            }) =~= gaps(lo0, hi, bm),
        decreases sorted.len() - i,
    {
        let block = sorted[i];
        let ghost t0 = target@.start;
        let ghost rest = bm.skip(i as int);
        proof {
            use_type_invariant(&block);
            assert(rest[0] == bm[i as int]);
            assert(rest.drop_first() =~= bm.skip(i as int + 1));
        }
        if block.contains(&target) {
            proof {
                assert(gaps(t0, hi, rest) =~= Seq::<Interval>::empty());
            }
            target.terminate();
            break;
        }
        if block.overlaps_at_start(&target) {
            target.shorten(&block);
            i += 1;
            continue;
        }
        if block.is_contained_in(&target) {
            let slot = match Slot::create_from(&target, &block) {
                Ok(s) => s,
                Err(_) => unreached(),
            };
            proof {
                lemma_models_push(slots@, slot);
                assert(gaps(t0, hi, rest) == seq![slot@] + gaps(
                    block@.end,
                    hi,
                    rest.drop_first(),
                ));
                assert(models_of(slots@).push(slot@) + gaps(block@.end, hi, bm.skip(
                    i as int + 1,
                )) =~= models_of(slots@) + gaps(t0, hi, rest));
            }
            slots.push(slot);
            target.shorten(&block);
            i += 1;
            continue;
        }
        if block.overlaps_at_end(&target) {
            let slot = match Slot::create_from(&target, &block) {
                Ok(s) => s,
                Err(_) => unreached(),
            };
            proof {
                lemma_models_push(slots@, slot);
                assert(gaps(t0, hi, rest) == seq![slot@]);
                assert(models_of(slots@).push(slot@) =~= models_of(slots@) + gaps(t0, hi, rest));
            }
            slots.push(slot);
            target.terminate();
            break;
        }
        proof {
            assert(gaps(t0, hi, rest) == gaps(t0, hi, rest.drop_first()));
        }
        i += 1;
    }
    if !target.remain() {
        proof {
            assert(models_of(slots@) =~= gaps(lo0, hi, bm));
        }
        return slots;
    }
    let last = match target.to_slot() {
        Ok(s) => s,
        Err(_) => unreached(),
    };
    proof {
        lemma_models_push(slots@, last);
        assert(models_of(slots@).push(last@) =~= models_of(slots@) + seq![last@]);
    }
    slots.push(last);
    slots
}

/// Finds the free gaps of the window `span` that remain once every
/// caller record in `inputs` is subtracted as a busy period.
///
/// Every record is first normalized into a busy block; a single failed
/// conversion aborts the whole sweep, so no partial result is ever
/// returned. The sweep itself cannot fail, so the call succeeds exactly
/// when every record converts — in particular, always on an empty
/// collection. On success the emitted records describe, in
/// left-to-right temporal order, exactly the parts of the window that
/// no busy period covers.
pub fn find<In: Input, Out: Output>(span: Span, inputs: Vec<In>) -> (r: Result<Vec<Out>, SlotError>)
    ensures
        inputs@.len() == 0 ==> r is Ok,
        r is Ok <==> (forall|t: int| 0 <= t < inputs@.len() ==> (#[trigger] inputs@[t]).converts()),
        r is Ok ==> all_valid(models_of(inputs@)) && models_of(r.unwrap()@) == spec_find(
            span@,
            models_of(inputs@),
        ),
        r matches Err(e) ==> e == SlotError::InvalidPeriod(PeriodError::InvalidTime),
{
    let ghost ims = models_of(inputs@);
    let mut blocks: Vec<Block> = Vec::new();
    let mut i: usize = 0;
    proof {
        assert(models_of(blocks@) =~= models_of(inputs@.subrange(0, 0)));
    }
    while i < inputs.len()
        invariant
            0 <= i <= inputs.len(),
            models_of(blocks@) == models_of(inputs@.subrange(0, i as int)),
            all_valid(models_of(inputs@.subrange(0, i as int))),
            forall|t: int| 0 <= t < i ==> (#[trigger] inputs@[t]).converts(),
        decreases inputs.len() - i,
    {
        let b = match inputs[i].to_block() {
            Ok(b) => b,
            Err(e) => {
                proof {
                    assert(!inputs@[i as int].converts());
                }
                return Err(SlotError::InvalidPeriod(e));
            },
        };
        proof {
            let pre = inputs@.subrange(0, i as int);
            let post = inputs@.subrange(0, i as int + 1);
            lemma_models_push(blocks@, b);
            lemma_models_push(pre, inputs@[i as int]);
            assert(post =~= pre.push(inputs@[i as int]));
            assert(models_of(blocks@.push(b)) =~= models_of(post));
            assert forall|t: int| 0 <= t < models_of(post).len()
                implies crate::periods::period::ival_valid(#[trigger] models_of(post)[t]) by {
                if t < models_of(pre).len() {
                    assert(models_of(post)[t] == models_of(pre)[t]);
                } else {
                    assert(models_of(post)[t] == model_of(inputs@[i as int]));
                }
            }
        }
        blocks.push(b);
        i += 1;
    }
    proof {
        assert(inputs@.subrange(0, inputs@.len() as int) =~= inputs@);
    }
    let slots = find_slots(span, blocks);
    let mut out: Vec<Out> = Vec::new();
    let mut k: usize = 0;
    proof {
        assert(models_of(out@) =~= models_of(slots@).subrange(0, 0));
    }
    while k < slots.len()
        invariant
            0 <= k <= slots.len(),
            models_of(out@) == models_of(slots@).subrange(0, k as int),
            models_of(slots@) == spec_find(span@, ims),
        decreases slots.len() - k,
    {
        let o = Out::create_from_slot(slots[k]);
        proof {
            lemma_models_push(out@, o);
            assert(models_of(slots@).subrange(0, k as int + 1) =~= models_of(slots@).subrange(
                0,
                k as int,
            ).push(models_of(slots@)[k as int]));
            assert(models_of(slots@)[k as int] == slots@[k as int]@);
            assert(models_of(out@.push(o)) =~= models_of(slots@).subrange(0, k as int + 1));
        }
        out.push(o);
        k += 1;
    }
    proof {
        assert(models_of(slots@).subrange(0, slots@.len() as int) =~= models_of(slots@));
    }
    Ok(out)
}

} // verus!
