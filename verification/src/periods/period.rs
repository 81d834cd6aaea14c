use vstd::prelude::*;
use vstd::string::StringExecFns;

use super::block::Block;
use super::instant::render_period;
use super::instant::render_text;
use super::instant::renderable;
use super::instant::Instant;
use super::slot::Slot;

verus! {

/// Error raised whenever a period would be constructed with
/// `start >= end`.
#[derive(Debug, Clone, Copy, PartialEq, Eq, Structural)]
pub enum PeriodError {
    InvalidTime,
}

impl PeriodError {
    /// Human-readable description of the error.
    pub fn message(&self) -> (r: String)
        ensures
            r@ == "Start time must be before end time."@,
    {
        String::from_str("Start time must be before end time.")
    }
}

/// Mathematical model of a period: a pair of instants on the integer
/// time line. Every period type of the library views as one of these.
pub ghost struct Interval {
    pub start: int,
    pub end: int,
}

/// A model interval is valid when it is strictly ordered.
pub open spec fn ival_valid(iv: Interval) -> bool {
    iv.start < iv.end
}

/// Two model intervals are disjoint when neither reaches into the other.
pub open spec fn ival_disjoint(a: Interval, b: Interval) -> bool {
    a.end <= b.start || b.end <= a.start
}

/// Whether the point `t` lies inside the model interval (half-open).
pub open spec fn ival_has_point(iv: Interval, t: int) -> bool {
    iv.start <= t < iv.end
}

/// Anything that behaves as a period: it exposes a start and an end
/// instant. `Block`, `Span` and `Slot` all implement it, and so do the
/// caller record types fed to the sweep.
pub trait Period: Sized {
    /// The start instant, as a point on the integer time line. The
    /// default leaves it unconstrained; a verified implementation
    /// overrides it with the record's actual start.
    open spec fn spec_start(&self) -> int {
        vstd::pervasive::arbitrary()
    }

    /// The end instant, as a point on the integer time line. The
    /// default leaves it unconstrained; a verified implementation
    /// overrides it with the record's actual end.
    open spec fn spec_end(&self) -> int {
        vstd::pervasive::arbitrary()
    }

    /// Start instant of the period.
    fn start(&self) -> (r: Instant)
        ensures
            r@ == self.spec_start(),
    ;

    /// End instant of the period.
    fn end(&self) -> (r: Instant)
        ensures
            r@ == self.spec_end(),
    ;

    /// Renders the period's start and end instants and its duration.
    fn to_string(&self) -> (r: String)
        requires
            renderable(self.spec_start(), self.spec_end()),
        ensures
            r@ == render_text(self.spec_start(), self.spec_end()),
    {
        render_period(self.start(), self.end())
    }
}

/// Whether every model interval in the sequence is valid.
pub open spec fn all_valid(ms: Seq<Interval>) -> bool {
    forall|i: int| 0 <= i < ms.len() ==> ival_valid(#[trigger] ms[i])
}

/// The model of a period: the pair of its start and end instants.
pub open spec fn model_of<P: Period>(p: P) -> Interval {
    Interval { start: p.spec_start(), end: p.spec_end() }
}

/// The models of a sequence of periods, in order.
pub open spec fn models_of<P: Period>(s: Seq<P>) -> Seq<Interval> {
    s.map_values(|p: P| model_of(p))
}

/// The joined text of a collection of periods: each period's rendering,
/// in the collection's given order, separated by a newline and a space.
pub open spec fn joined_text(ms: Seq<Interval>) -> Seq<char>
    decreases ms.len(),
{
    if ms.len() == 0 {
        Seq::empty()
    } else if ms.len() == 1 {
        render_text(ms[0].start, ms[0].end)
    } else {
        render_text(ms[0].start, ms[0].end) + "\n "@ + joined_text(ms.drop_first())
    }
}

/// Appending a period to a collection appends its rendering to the
/// joined text, behind a separator when the collection was not empty.
proof fn lemma_joined_push(ms: Seq<Interval>, x: Interval)
    ensures
        joined_text(ms.push(x)) == joined_text(ms) + (if ms.len() == 0 {
            render_text(x.start, x.end)
        } else {
            "\n "@ + render_text(x.start, x.end)
        }),
    decreases ms.len(),
{
    let whole = ms.push(x);
    if ms.len() == 0 {
        assert(whole[0] == x);
        assert(joined_text(ms) + render_text(x.start, x.end) =~= render_text(x.start, x.end));
    } else {
        lemma_joined_push(ms.drop_first(), x);
        assert(whole.drop_first() =~= ms.drop_first().push(x));
        assert(whole[0] == ms[0]);
        if ms.len() == 1 {
            assert(joined_text(whole) == render_text(ms[0].start, ms[0].end) + "\n "@
                + joined_text(seq![x]));
            assert(joined_text(ms) + ("\n "@ + render_text(x.start, x.end)) =~= render_text(
                ms[0].start,
                ms[0].end,
            ) + "\n "@ + render_text(x.start, x.end));
        } else {
            assert(joined_text(ms) + ("\n "@ + render_text(x.start, x.end)) =~= render_text(
                ms[0].start,
                ms[0].end,
            ) + "\n "@ + (joined_text(ms.drop_first()) + ("\n "@ + render_text(x.start, x.end))));
        }
    }
}

/// A collection of periods that can be rendered as one text.
pub trait PeriodVec {
    /// Whether every period in the collection can be rendered.
    spec fn spec_renderable(&self) -> bool;

    /// The text of the collection: the renderings of its periods in
    /// their given order, joined by a newline and a space.
    spec fn spec_text(&self) -> Seq<char>;

    /// Renders every period, in order, joined by a newline and a space.
    fn to_string(&self) -> (r: String)
        requires
            self.spec_renderable(),
        ensures
            r@ == self.spec_text(),
    ;
}

impl<T: Period> PeriodVec for Vec<T> {
    open spec fn spec_renderable(&self) -> bool {
        forall|i: int|
            0 <= i < self@.len() ==> renderable(
                (#[trigger] self@[i]).spec_start(),
                self@[i].spec_end(),
            )
    }

    open spec fn spec_text(&self) -> Seq<char> {
        joined_text(models_of(self@))
    }

    fn to_string(&self) -> (r: String) {
        let mut s = String::new();
        let mut i: usize = 0;
        proof {
            assert(models_of(self@).subrange(0, 0) =~= Seq::<Interval>::empty());
        }
        while i < self.len()
            invariant
                0 <= i <= self.len(),
                self.spec_renderable(),
                s@ == joined_text(models_of(self@).subrange(0, i as int)),
            decreases self.len() - i,
        {
            if i > 0 {
                s.append("\n ");
            }
            let piece = self[i].to_string();
            s.append(piece.as_str());
            proof {
                let m = models_of(self@)[i as int];
                let pre = models_of(self@).subrange(0, i as int);
                let post = models_of(self@).subrange(0, i as int + 1);
                assert(post =~= pre.push(m));
                lemma_joined_push(pre, m);
                assert(s@ =~= joined_text(post));
            }
            i += 1;
        }
        proof {
            assert(models_of(self@).subrange(0, self@.len() as int) =~= models_of(self@));
        }
        s
    }
}

/// A caller record that the sweep can consume: it can be normalized into
/// a busy block.
pub trait Input: Period {
    /// Whether the conversion of this record succeeds. The default
    /// leaves it unconstrained; a verified implementation overrides it
    /// with its actual success condition (for one that builds the block
    /// from the record's own instants, that they are strictly ordered).
    open spec fn converts(&self) -> bool {
        vstd::pervasive::arbitrary()
    }

    /// Converts the record into a busy block. It succeeds exactly on the
    /// records that `converts` admits, and on success the block spans
    /// exactly the record's own instants (so those are strictly ordered).
    fn to_block(&self) -> (r: Result<Block, PeriodError>)
        ensures
            r is Ok <==> self.converts(),
            r is Ok ==> r.unwrap()@ == model_of(*self) && self.spec_start() < self.spec_end(),
    ;
}

/// A caller record that the sweep can produce: it can be materialized
/// from a free slot.
pub trait Output: Period {
    /// Builds the record from an emitted free slot, copying the slot's
    /// instants verbatim. The mapping is total: it never fails.
    fn create_from_slot(slot: Slot) -> (r: Self)
        ensures
            model_of(r) == slot@,
    ;
}

} // verus!
