//! The sketch itself: for each site that the sweep line has passed, the part
//! of its sampled arc that runs through the visible surface, as a chain of
//! segments.
//!
//! An arc starts at the first sample that lies strictly between the top edge
//! and the sweep line. From there on every pair of neighbouring samples gives
//! a segment. The arc ends with the first later sample that lies beyond the
//! top edge, or with the last sample of the grid.

use vstd::prelude::*;
use crate::parabola::{above_top, arc_point_at, in_view, sample_arc, ArcPoint, Segment, Site};
use crate::sampling::{
    lemma_grid_in_range, lemma_grid_membership, lemma_grid_rises, sample_count, sample_x,
};

verus! {

/// Index of the first sample, from `i` on, at which the arc is in view; `n`
/// where there is none.
pub open spec fn first_in_view(site: Site, sweep_y: int, x_min: int, step: int, i: nat, n: nat) -> nat
    decreases n - i,
{
    if i >= n {
        n
    } else if in_view(site, sweep_y, sample_x(x_min, step, i as int)) {
        i
    } else {
        first_in_view(site, sweep_y, x_min, step, i + 1, n)
    }
}

/// Index of the first sample, from `i` on, at which the arc is beyond the top
/// edge; `n` where there is none.
pub open spec fn first_above_top(site: Site, sweep_y: int, x_min: int, step: int, i: nat, n: nat) -> nat
    decreases n - i,
{
    if i >= n {
        n
    } else if above_top(site, sweep_y, sample_x(x_min, step, i as int)) {
        i
    } else {
        first_above_top(site, sweep_y, x_min, step, i + 1, n)
    }
}

/// Index of the last sample of an arc that starts at the sample `start`, on a
/// grid of `n` samples.
pub open spec fn arc_end(site: Site, sweep_y: int, x_min: int, step: int, start: nat, n: nat) -> nat {
    let exit = first_above_top(site, sweep_y, x_min, step, start + 1, n);
    if exit < n {
        exit
    } else {
        (n - 1) as nat
    }
}

/// The segment from the sample `i` to the sample `i + 1`.
pub open spec fn segment_at(site: Site, sweep_y: int, x_min: int, step: int, i: int) -> Segment {
    Segment {
        from: arc_point_at(site, sweep_y, sample_x(x_min, step, i)),
        to: arc_point_at(site, sweep_y, sample_x(x_min, step, i + 1)),
    }
}

/// The sketched arc of one site: empty for a site on the sweep line or not
/// yet passed by it, and where no sample is in view.
pub open spec fn site_arc(site: Site, sweep_y: i32, x_min: i32, x_max: i32, step: u32) -> Seq<Segment> {
    let n = sample_count(x_min as int, x_max as int, step as int);
    let start = first_in_view(site, sweep_y as int, x_min as int, step as int, 0, n);
    if site.y >= sweep_y || start >= n {
        Seq::empty()
    } else {
        let end = arc_end(site, sweep_y as int, x_min as int, step as int, start, n);
        Seq::new(
            (end - start) as nat,
            |k: int| segment_at(site, sweep_y as int, x_min as int, step as int, start + k),
        )
    }
}

/// The whole sketch: the arcs of the sites, one after the other, in the order
/// of the sites.
pub open spec fn beach_lines(sites: Seq<Site>, sweep_y: i32, x_min: i32, x_max: i32, step: u32) -> Seq<Segment>
    decreases sites.len(),
{
    if sites.len() == 0 {
        Seq::empty()
    } else {
        beach_lines(sites.drop_last(), sweep_y, x_min, x_max, step) + site_arc(
            sites.last(),
            sweep_y,
            x_min,
            x_max,
            step,
        )
    }
}

/// Sketches the arc of one site over the grid from `x_min` to `x_max`: the
/// segments between neighbouring samples, from the first sample in view to
/// the first later sample beyond the top edge, or to the end of the grid. A
/// site on the sweep line or beyond it has no arc, and a grid without a
/// stride has no samples.
pub fn render_site_arc(site: Site, sweep_y: i32, x_min: i32, x_max: i32, step: u32) -> (arc: Vec<Segment>)
    ensures
        arc@ == site_arc(site, sweep_y, x_min, x_max, step),
{
    let mut arc: Vec<Segment> = Vec::new();
    if site.y >= sweep_y || step == 0 {
        assert(arc@ =~= site_arc(site, sweep_y, x_min, x_max, step));
        return arc;
    }
    let ghost sw: int = sweep_y as int;
    let ghost xm: int = x_min as int;
    let ghost st: int = step as int;
    let ghost n: nat = sample_count(xm, x_max as int, st);
    let ghost mut i: nat = 0;
    let mut x: i64 = x_min as i64;
    let mut seeking: bool = true;
    while seeking && x <= (x_max as i64)
        invariant
            step > 0,
            sw == sweep_y,
            xm == x_min,
            st == step,
            n == sample_count(xm, x_max as int, st),
            i <= n,
            x == sample_x(xm, st, i as int),
            first_in_view(site, sw, xm, st, 0, n) == first_in_view(site, sw, xm, st, i, n),
            !seeking ==> i < n && in_view(site, sw, sample_x(xm, st, i as int)),
        decreases n - i + (if seeking { 1int } else { 0int }),
    {
        proof {
            lemma_grid_membership(xm, x_max as int, st, i as int);
            lemma_grid_in_range(xm, x_max as int, st, i as int);
            lemma_grid_rises(xm, st, i as int);
        }
        let p: ArcPoint = sample_arc(site, sweep_y, x as i32);
        if p.is_visible(sweep_y) {
            seeking = false;
        } else {
            x = x + (step as i64);
            proof {
                i = i + 1;
            }
        }
    }
    proof {
        lemma_grid_membership(xm, x_max as int, st, i as int);
    }
    if seeking {
        assert(arc@ =~= site_arc(site, sweep_y, x_min, x_max, step));
        return arc;
    }
    proof {
        lemma_grid_in_range(xm, x_max as int, st, i as int);
        lemma_grid_rises(xm, st, i as int);
    }
    let ghost start: nat = i;
    let mut prev: ArcPoint = sample_arc(site, sweep_y, x as i32);
    let mut open: bool = true;
    x = x + (step as i64);
    proof {
        i = i + 1;
    }
    while open && x <= (x_max as i64)
        invariant
            step > 0,
            sw == sweep_y,
            xm == x_min,
            st == step,
            n == sample_count(xm, x_max as int, st),
            start < i <= n,
            x == sample_x(xm, st, i as int),
            prev == arc_point_at(site, sw, sample_x(xm, st, i - 1)),
            arc@.len() == i - 1 - start,
            forall|k: int| 0 <= k < arc@.len() ==> arc@[k] == segment_at(site, sw, xm, st, start + k),
            open ==> first_above_top(site, sw, xm, st, start + 1, n) == first_above_top(
                site,
                sw,
                xm,
                st,
                i,
                n,
            ),
            !open ==> first_above_top(site, sw, xm, st, start + 1, n) == i - 1,
        decreases n - i + (if open { 1int } else { 0int }),
    {
        proof {
            lemma_grid_membership(xm, x_max as int, st, i as int);
            lemma_grid_in_range(xm, x_max as int, st, i as int);
            lemma_grid_rises(xm, st, i as int);
        }
        let p: ArcPoint = sample_arc(site, sweep_y, x as i32);
        arc.push(Segment { from: prev, to: p });
        prev = p;
        if p.is_beyond_top() {
            open = false;
        }
        x = x + (step as i64);
        proof {
            i = i + 1;
        }
    }
    proof {
        lemma_grid_membership(xm, x_max as int, st, i as int);
    }
    assert(arc@ =~= site_arc(site, sweep_y, x_min, x_max, step));
    arc
}

/// Sketches the beach line: the arc of every site that the sweep line has
/// passed, in the order of the sites. A site on the sweep line, whose arc has
/// no ordinate, contributes nothing.
pub fn render_beach_lines(sites: &Vec<Site>, sweep_y: i32, x_min: i32, x_max: i32, step: u32) -> (segments: Vec<Segment>)
    ensures
        segments@ == beach_lines(sites@, sweep_y, x_min, x_max, step),
{
    let mut segments: Vec<Segment> = Vec::new();
    let mut i: usize = 0;
    while i < sites.len()
        invariant
            i <= sites@.len(),
            segments@ == beach_lines(sites@.take(i as int), sweep_y, x_min, x_max, step),
        decreases sites@.len() - i,
    {
        let mut arc: Vec<Segment> = render_site_arc(sites[i], sweep_y, x_min, x_max, step);
        segments.append(&mut arc);
        proof {
            assert(sites@.take(i + 1).drop_last() =~= sites@.take(i as int));
        }
        i = i + 1;
    }
    proof {
        assert(sites@.take(i as int) =~= sites@);
    }
    segments
}

} // verus!
