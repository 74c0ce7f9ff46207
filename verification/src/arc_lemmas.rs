//! What holds of every sketch, stated over the definitions that the
//! contracts of the sketching functions use.

use vstd::prelude::*;
use crate::beach_line::{
    arc_end, beach_lines, first_above_top, first_in_view, segment_at, site_arc,
};
use crate::parabola::{
    above_top, arc_den, arc_num, in_view, lemma_arc_num_bounds,
    lemma_in_view_only_behind_sweep_line, Segment, Site,
};
use crate::sampling::{lemma_grid_in_range, lemma_grid_rises, sample_count, sample_x};

verus! {

/// `first_in_view` yields an index from `i` to `n`; below `n` the arc is in
/// view there, and nowhere between `i` and it.
pub proof fn lemma_first_in_view(site: Site, sweep_y: int, x_min: int, step: int, i: nat, n: nat)
    requires
        i <= n,
    ensures
        i <= first_in_view(site, sweep_y, x_min, step, i, n) <= n,
        first_in_view(site, sweep_y, x_min, step, i, n) < n ==> in_view(
            site,
            sweep_y,
            sample_x(x_min, step, first_in_view(site, sweep_y, x_min, step, i, n) as int),
        ),
        forall|j: int|
            i <= j < first_in_view(site, sweep_y, x_min, step, i, n) ==> !in_view(
                site,
                sweep_y,
                #[trigger] sample_x(x_min, step, j),
            ),
    decreases n - i,
{
    if i < n && !in_view(site, sweep_y, sample_x(x_min, step, i as int)) {
        lemma_first_in_view(site, sweep_y, x_min, step, i + 1, n);
    }
}

/// `first_above_top` yields an index from `i` to `n`; below `n` the arc is
/// beyond the top edge there, and nowhere between `i` and it.
pub proof fn lemma_first_above_top(site: Site, sweep_y: int, x_min: int, step: int, i: nat, n: nat)
    requires
        i <= n,
    ensures
        i <= first_above_top(site, sweep_y, x_min, step, i, n) <= n,
        first_above_top(site, sweep_y, x_min, step, i, n) < n ==> above_top(
            site,
            sweep_y,
            sample_x(x_min, step, first_above_top(site, sweep_y, x_min, step, i, n) as int),
        ),
        forall|j: int|
            i <= j < first_above_top(site, sweep_y, x_min, step, i, n) ==> !above_top(
                site,
                sweep_y,
                #[trigger] sample_x(x_min, step, j),
            ),
    decreases n - i,
{
    if i < n && !above_top(site, sweep_y, sample_x(x_min, step, i as int)) {
        lemma_first_above_top(site, sweep_y, x_min, step, i + 1, n);
    }
}

/// Where an arc has segments, it starts at a sample that is not the last of
/// the grid and ends at a later sample of the grid, and its site lies behind
/// the sweep line.
pub proof fn lemma_arc_span(site: Site, sweep_y: i32, x_min: i32, x_max: i32, step: u32)
    requires
        site_arc(site, sweep_y, x_min, x_max, step).len() > 0,
    ensures
        site.y < sweep_y,
        step > 0,
        ({
            let n = sample_count(x_min as int, x_max as int, step as int);
            let start = first_in_view(site, sweep_y as int, x_min as int, step as int, 0, n);
            let end = arc_end(site, sweep_y as int, x_min as int, step as int, start, n);
            &&& start < end < n
            &&& site_arc(site, sweep_y, x_min, x_max, step).len() == end - start
        }),
{
    let n = sample_count(x_min as int, x_max as int, step as int);
    let start = first_in_view(site, sweep_y as int, x_min as int, step as int, 0, n);
    lemma_first_in_view(site, sweep_y as int, x_min as int, step as int, 0, n);
    lemma_first_above_top(site, sweep_y as int, x_min as int, step as int, start + 1, n);
}

/// An arc has segments exactly where the arc is in view at a sample other
/// than the last of the grid. In particular it has none for a site on the
/// sweep line or beyond it, whose arc is nowhere in view.
pub proof fn lemma_arc_nonempty_iff_in_view(site: Site, sweep_y: i32, x_min: i32, x_max: i32, step: u32)
    ensures
        site_arc(site, sweep_y, x_min, x_max, step).len() > 0 <==> exists|i: int|
            0 <= i && i + 1 < sample_count(x_min as int, x_max as int, step as int) && in_view(
                site,
                sweep_y as int,
                #[trigger] sample_x(x_min as int, step as int, i),
            ),
        site.y >= sweep_y ==> forall|x: int| !in_view(site, sweep_y as int, x),
{
    let n = sample_count(x_min as int, x_max as int, step as int);
    let start = first_in_view(site, sweep_y as int, x_min as int, step as int, 0, n);
    lemma_first_in_view(site, sweep_y as int, x_min as int, step as int, 0, n);
    if site_arc(site, sweep_y, x_min, x_max, step).len() > 0 {
        lemma_arc_span(site, sweep_y, x_min, x_max, step);
        assert(0 <= start && start + 1 < n && in_view(
            site,
            sweep_y as int,
            sample_x(x_min as int, step as int, start as int),
        ));
    }
    if exists|i: int|
        0 <= i && i + 1 < n && in_view(
            site,
            sweep_y as int,
            #[trigger] sample_x(x_min as int, step as int, i),
        ) {
        let i = choose|i: int|
            0 <= i && i + 1 < n && in_view(
                site,
                sweep_y as int,
                #[trigger] sample_x(x_min as int, step as int, i),
            );
        lemma_in_view_only_behind_sweep_line(
            site,
            sweep_y as int,
            sample_x(x_min as int, step as int, i),
        );
        assert(start <= i);
        lemma_first_above_top(site, sweep_y as int, x_min as int, step as int, start + 1, n);
    }
    assert forall|x: int| site.y >= sweep_y implies !in_view(site, sweep_y as int, x) by {
        lemma_in_view_only_behind_sweep_line(site, sweep_y as int, x);
    }
}

/// Every point of an arc lies on the parabola, and its ordinate is a number:
/// the denominator is that of the parabola and is negative, the numerator is
/// that of the parabola at the point's abscissa.
pub proof fn lemma_arc_points_on_parabola(site: Site, sweep_y: i32, x_min: i32, x_max: i32, step: u32, k: int)
    requires
        0 <= k < site_arc(site, sweep_y, x_min, x_max, step).len(),
    ensures
        ({
            let segment = site_arc(site, sweep_y, x_min, x_max, step)[k];
            &&& segment.from.is_finite() && segment.to.is_finite()
            &&& segment.from.den == arc_den(site, sweep_y as int) < 0
            &&& segment.to.den == arc_den(site, sweep_y as int)
            &&& segment.from.num == arc_num(site, sweep_y as int, segment.from.x as int)
            &&& segment.to.num == arc_num(site, sweep_y as int, segment.to.x as int)
        }),
{
    let n = sample_count(x_min as int, x_max as int, step as int);
    let start = first_in_view(site, sweep_y as int, x_min as int, step as int, 0, n);
    lemma_arc_span(site, sweep_y, x_min, x_max, step);
    lemma_grid_in_range(x_min as int, x_max as int, step as int, start + k);
    lemma_grid_in_range(x_min as int, x_max as int, step as int, start + k + 1);
    let segment = site_arc(site, sweep_y, x_min, x_max, step)[k];
    assert(segment == segment_at(site, sweep_y as int, x_min as int, step as int, start + k));
    lemma_arc_num_bounds(site, sweep_y, segment.from.x);
    lemma_arc_num_bounds(site, sweep_y, segment.to.x);
}

/// An arc is a chain that follows the grid: each segment leads from one
/// abscissa of the grid to the next, one stride to the right, and starts
/// where the segment before it ends.
pub proof fn lemma_arc_follows_grid(site: Site, sweep_y: i32, x_min: i32, x_max: i32, step: u32, k: int)
    requires
        0 <= k < site_arc(site, sweep_y, x_min, x_max, step).len(),
    ensures
        ({
            let arc = site_arc(site, sweep_y, x_min, x_max, step);
            &&& x_min <= arc[k].from.x < arc[k].to.x <= x_max
            &&& arc[k].to.x == arc[k].from.x + step
            &&& arc[k].from.x == arc[0].from.x + k * step
            &&& k + 1 < arc.len() ==> arc[k + 1].from == arc[k].to
        }),
{
    let n = sample_count(x_min as int, x_max as int, step as int);
    let start = first_in_view(site, sweep_y as int, x_min as int, step as int, 0, n);
    let arc = site_arc(site, sweep_y, x_min, x_max, step);
    lemma_arc_span(site, sweep_y, x_min, x_max, step);
    lemma_grid_in_range(x_min as int, x_max as int, step as int, start as int);
    lemma_grid_in_range(x_min as int, x_max as int, step as int, start + k);
    lemma_grid_in_range(x_min as int, x_max as int, step as int, start + k + 1);
    lemma_grid_rises(x_min as int, step as int, start + k);
    assert(arc[k] == segment_at(site, sweep_y as int, x_min as int, step as int, start + k));
    assert(arc[0] == segment_at(site, sweep_y as int, x_min as int, step as int, start as int));
    assert((start + k) * step == start * step + k * step) by (nonlinear_arith);
    if k + 1 < arc.len() {
        assert(arc[k + 1] == segment_at(
            site,
            sweep_y as int,
            x_min as int,
            step as int,
            start + (k + 1),
        ));
    }
}

/// An arc starts at the first sample of the grid at which it is in view, and
/// runs on as long as no sample lies beyond the top edge: only its last point
/// can lie there, and where it does not, it is the last sample of the grid.
pub proof fn lemma_arc_shape(site: Site, sweep_y: i32, x_min: i32, x_max: i32, step: u32, k: int)
    requires
        0 <= k < site_arc(site, sweep_y, x_min, x_max, step).len(),
    ensures
        ({
            let arc = site_arc(site, sweep_y, x_min, x_max, step);
            &&& arc[0].from.visible(sweep_y as int)
            &&& forall|i: int|
                0 <= i && sample_x(x_min as int, step as int, i) < arc[0].from.x ==> !in_view(
                    site,
                    sweep_y as int,
                    #[trigger] sample_x(x_min as int, step as int, i),
                )
            &&& !arc[k].from.beyond_top()
            &&& k + 1 < arc.len() ==> !arc[k].to.beyond_top()
            &&& k + 1 == arc.len() ==> arc[k].to.beyond_top() || arc[k].to.x + step > x_max
        }),
{
    let sw = sweep_y as int;
    let xm = x_min as int;
    let st = step as int;
    let n = sample_count(xm, x_max as int, st);
    let start = first_in_view(site, sw, xm, st, 0, n);
    let end = arc_end(site, sw, xm, st, start, n);
    let arc = site_arc(site, sweep_y, x_min, x_max, step);
    lemma_arc_span(site, sweep_y, x_min, x_max, step);
    lemma_first_in_view(site, sw, xm, st, 0, n);
    lemma_first_above_top(site, sw, xm, st, start + 1, n);
    lemma_arc_points_on_parabola(site, sweep_y, x_min, x_max, step, 0);
    lemma_arc_points_on_parabola(site, sweep_y, x_min, x_max, step, k);
    lemma_arc_follows_grid(site, sweep_y, x_min, x_max, step, 0);
    lemma_arc_follows_grid(site, sweep_y, x_min, x_max, step, k);
    lemma_grid_in_range(xm, x_max as int, st, start as int);
    lemma_grid_in_range(xm, x_max as int, st, start + k);
    lemma_grid_in_range(xm, x_max as int, st, start + k + 1);
    assert(arc[0] == segment_at(site, sw, xm, st, start as int));
    assert(arc[k] == segment_at(site, sw, xm, st, start + k));
    assert(arc[0].from.x == sample_x(xm, st, start as int));
    assert(arc[k].from.x == sample_x(xm, st, start + k));
    assert(arc[k].to.x == sample_x(xm, st, start + k + 1));
    assert forall|i: int| 0 <= i && sample_x(xm, st, i) < arc[0].from.x implies !in_view(
        site,
        sw,
        #[trigger] sample_x(xm, st, i),
    ) by {
        assert(i < start) by (nonlinear_arith)
            requires
                st > 0,
                xm + i * st < xm + start * st,
        ;
    }
    if k == 0 {
        lemma_in_view_only_behind_sweep_line(site, sw, sample_x(xm, st, start as int));
    } else {
        assert(!above_top(site, sw, sample_x(xm, st, start + k)));
    }
    if k + 1 < arc.len() {
        assert(!above_top(site, sw, sample_x(xm, st, start + k + 1)));
    } else {
        if end == n - 1 && !above_top(site, sw, sample_x(xm, st, end as int)) {
            lemma_grid_rises(xm, st, end as int);
        }
    }
}

/// Every segment of a sketch belongs to the arc of one of the sites: the
/// result names the site's index and the segment's index within that arc.
pub proof fn lemma_segment_origin(sites: Seq<Site>, sweep_y: i32, x_min: i32, x_max: i32, step: u32, k: int) -> (origin: (int, int))
    requires
        0 <= k < beach_lines(sites, sweep_y, x_min, x_max, step).len(),
    ensures
        0 <= origin.0 < sites.len(),
        0 <= origin.1 < site_arc(sites[origin.0], sweep_y, x_min, x_max, step).len(),
        beach_lines(sites, sweep_y, x_min, x_max, step)[k] == site_arc(
            sites[origin.0],
            sweep_y,
            x_min,
            x_max,
            step,
        )[origin.1],
    decreases sites.len(),
{
    let head = beach_lines(sites.drop_last(), sweep_y, x_min, x_max, step);
    if k < head.len() {
        lemma_segment_origin(sites.drop_last(), sweep_y, x_min, x_max, step, k)
    } else {
        (sites.len() - 1, k - head.len())
    }
}

/// No segment of a sketch has an endpoint without an ordinate, wherever the
/// sites lie: on the sweep line too. Each segment leads one stride to the
/// right within the sampled range.
pub proof fn lemma_sketch_segments_sound(sites: Seq<Site>, sweep_y: i32, x_min: i32, x_max: i32, step: u32)
    ensures
        forall|k: int|
            0 <= k < beach_lines(sites, sweep_y, x_min, x_max, step).len() ==> {
                let segment = #[trigger] beach_lines(sites, sweep_y, x_min, x_max, step)[k];
                &&& segment.from.is_finite()
                &&& segment.to.is_finite()
                &&& x_min <= segment.from.x < segment.to.x <= x_max
                &&& segment.to.x == segment.from.x + step
            },
{
    assert forall|k: int| 0 <= k < beach_lines(sites, sweep_y, x_min, x_max, step).len() implies {
        let segment = #[trigger] beach_lines(sites, sweep_y, x_min, x_max, step)[k];
        &&& segment.from.is_finite()
        &&& segment.to.is_finite()
        &&& x_min <= segment.from.x < segment.to.x <= x_max
        &&& segment.to.x == segment.from.x + step
    } by {
        let origin = lemma_segment_origin(sites, sweep_y, x_min, x_max, step, k);
        lemma_arc_points_on_parabola(sites[origin.0], sweep_y, x_min, x_max, step, origin.1);
        lemma_arc_follows_grid(sites[origin.0], sweep_y, x_min, x_max, step, origin.1);
    }
}

/// A site on the sweep line has no arc, and neither has one that the sweep
/// line has not passed.
pub proof fn lemma_no_arc_unless_passed(site: Site, sweep_y: i32, x_min: i32, x_max: i32, step: u32)
    requires
        site.y >= sweep_y,
    ensures
        site_arc(site, sweep_y, x_min, x_max, step) == Seq::<Segment>::empty(),
{
}

/// An empty range gives an empty sketch.
pub proof fn lemma_empty_range_empty_sketch(sites: Seq<Site>, sweep_y: i32, x_min: i32, x_max: i32, step: u32)
    requires
        x_min > x_max,
    ensures
        beach_lines(sites, sweep_y, x_min, x_max, step) == Seq::<Segment>::empty(),
    decreases sites.len(),
{
    if sites.len() > 0 {
        lemma_empty_range_empty_sketch(sites.drop_last(), sweep_y, x_min, x_max, step);
        assert(site_arc(sites.last(), sweep_y, x_min, x_max, step) =~= Seq::<Segment>::empty());
        assert(beach_lines(sites, sweep_y, x_min, x_max, step) =~= Seq::<Segment>::empty());
    }
}

/// The sketch of several sites is the sketch of the first ones followed by
/// the sketch of the others: the arcs do not depend on each other.
pub proof fn lemma_sketch_of_concatenation(first: Seq<Site>, others: Seq<Site>, sweep_y: i32, x_min: i32, x_max: i32, step: u32)
    ensures
        beach_lines(first + others, sweep_y, x_min, x_max, step) == beach_lines(
            first,
            sweep_y,
            x_min,
            x_max,
            step,
        ) + beach_lines(others, sweep_y, x_min, x_max, step),
    decreases others.len(),
{
    let whole = beach_lines(first + others, sweep_y, x_min, x_max, step);
    let left = beach_lines(first, sweep_y, x_min, x_max, step);
    let right = beach_lines(others, sweep_y, x_min, x_max, step);
    if others.len() == 0 {
        assert(first + others =~= first);
        assert(whole =~= left + right);
    } else {
        assert((first + others).drop_last() =~= first + others.drop_last());
        assert((first + others).last() == others.last());
        lemma_sketch_of_concatenation(first, others.drop_last(), sweep_y, x_min, x_max, step);
        assert(whole =~= left + right);
    }
}

/// Sketching is a function of its inputs: two sketches that both meet the
/// contract of `render_beach_lines` for equal sites, sweep line, range and
/// stride are equal, segment by segment.
pub proof fn lemma_sketch_repeatable(
    first: Seq<Segment>,
    second: Seq<Segment>,
    sites_first: Seq<Site>,
    sites_second: Seq<Site>,
    sweep_y: i32,
    x_min: i32,
    x_max: i32,
    step: u32,
)
    requires
        sites_first == sites_second,
        first == beach_lines(sites_first, sweep_y, x_min, x_max, step),
        second == beach_lines(sites_second, sweep_y, x_min, x_max, step),
    ensures
        first == second,
        first.len() == second.len(),
        forall|k: int| 0 <= k < first.len() ==> first[k] == second[k],
{
}

} // verus!
