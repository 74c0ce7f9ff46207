//! The set of sites: scattered at random over the surface and kept in rising
//! order of `y`.

use vstd::prelude::*;
use rand::Rng;
use crate::parabola::Site;

verus! {

/// The sites stand in rising order of `y`.
pub open spec fn sorted_by_y(sites: Seq<Site>) -> bool {
    forall|i: int, j: int| 0 <= i <= j < sites.len() ==> sites[i].y <= sites[j].y
}

/// Every site lies on a surface of the given size, its edges included.
pub open spec fn on_surface(sites: Seq<Site>, width: int, height: int) -> bool {
    forall|i: int|
        0 <= i < sites.len() ==> 0 <= (#[trigger] sites[i]).x <= width && 0 <= sites[i].y <= height
}

/// Index of the first site, from `i` on, that lies below the row `y`; the
/// number of sites where there is none.
pub open spec fn first_below(sites: Seq<Site>, y: int, i: nat) -> nat
    decreases sites.len() - i,
{
    if i >= sites.len() {
        sites.len()
    } else if sites[i as int].y > y {
        i
    } else {
        first_below(sites, y, i + 1)
    }
}

/// Calls `rand::Rng::gen_range` on the generator of the current thread
/// (`rand::thread_rng`) with the inclusive range from 0 to `limit`. The
/// contract claims only what holds of every draw: the value lies in that
/// range. The range is never empty, so the call does not panic.
#[verifier::external_body]
fn random_coordinate(limit: i32) -> (value: i32)
    requires
        0 <= limit,
    ensures
        0 <= value <= limit,
{
    rand::thread_rng().gen_range(0..=limit)
}

/// Puts `site` among `sites`, behind every site that does not lie below it
/// and before the first that does. Sites in rising order stay in rising
/// order.
pub fn insert_by_y(sites: &mut Vec<Site>, site: Site)
    ensures
        final(sites)@ == old(sites)@.insert(first_below(old(sites)@, site.y as int, 0) as int, site),
        sorted_by_y(old(sites)@) ==> sorted_by_y(final(sites)@),
{
    let ghost before: Seq<Site> = sites@;
    let n: usize = sites.len();
    let mut at: usize = 0;
    let mut seeking: bool = true;
    while seeking && at < n
        invariant
            at <= n,
            n == sites@.len(),
            sites@ == before,
            first_below(before, site.y as int, 0) == first_below(before, site.y as int, at as nat),
            forall|j: int| 0 <= j < at ==> before[j].y <= site.y,
            !seeking ==> at < n && before[at as int].y > site.y,
        decreases n - at + (if seeking { 1int } else { 0int }),
    {
        if sites[at].y > site.y {
            seeking = false;
        } else {
            at = at + 1;
        }
    }
    sites.insert(at, site);
    proof {
        if sorted_by_y(before) {
            lemma_insert_keeps_order(before, site);
        }
    }
}

/// Scatters `count` sites at random over a surface of the given size and
/// returns them in rising order of `y`. Which sites they are is left to
/// chance; that they are `count`, lie on the surface and are ordered is not.
pub fn random_sites(count: u16, width: u16, height: u16) -> (sites: Vec<Site>)
    ensures
        sites@.len() == count,
        on_surface(sites@, width as int, height as int),
        sorted_by_y(sites@),
{
    let mut sites: Vec<Site> = Vec::new();
    let mut made: u16 = 0;
    while made < count
        invariant
            made <= count,
            sites@.len() == made,
            on_surface(sites@, width as int, height as int),
            sorted_by_y(sites@),
        decreases count - made,
    {
        let x: i32 = random_coordinate(width as i32);
        let y: i32 = random_coordinate(height as i32);
        let site: Site = Site { x, y };
        let ghost before: Seq<Site> = sites@;
        insert_by_y(&mut sites, site);
        proof {
            let at: int = first_below(before, y as int, 0) as int;
            lemma_first_below(before, y as int, 0);
            assert forall|i: int| 0 <= i < sites@.len() implies 0 <= (#[trigger] sites@[i]).x
                <= width && 0 <= sites@[i].y <= height by {
                if i < at {
                    assert(sites@[i] == before[i]);
                } else if i > at {
                    assert(sites@[i] == before[i - 1]);
                }
            }
        }
        made = made + 1;
    }
    sites
}

/// `first_below` yields an index from `i` to the number of sites; the site
/// there, if there is one, lies below the row `y`, and none between `i` and
/// it does.
pub proof fn lemma_first_below(sites: Seq<Site>, y: int, i: nat)
    requires
        i <= sites.len(),
    ensures
        i <= first_below(sites, y, i) <= sites.len(),
        first_below(sites, y, i) < sites.len() ==> sites[first_below(sites, y, i) as int].y > y,
        forall|j: int| i <= j < first_below(sites, y, i) ==> (#[trigger] sites[j]).y <= y,
    decreases sites.len() - i,
{
    if i < sites.len() && sites[i as int].y <= y {
        lemma_first_below(sites, y, i + 1);
    }
}

/// A site put at its place among sites in rising order leaves them in rising
/// order.
pub proof fn lemma_insert_keeps_order(sites: Seq<Site>, site: Site)
    requires
        sorted_by_y(sites),
    ensures
        sorted_by_y(sites.insert(first_below(sites, site.y as int, 0) as int, site)),
{
    let at: int = first_below(sites, site.y as int, 0) as int;
    let after: Seq<Site> = sites.insert(at, site);
    lemma_first_below(sites, site.y as int, 0);
    assert forall|i: int, j: int| 0 <= i <= j < after.len() implies after[i].y <= after[j].y by {
        if i < at && j > at {
            assert(after[j] == sites[j - 1]);
        } else if i == at && j > at {
            assert(after[j] == sites[j - 1]);
            assert(sites[at].y <= sites[j - 1].y);
        } else if i > at {
            assert(after[i] == sites[i - 1]);
            assert(after[j] == sites[j - 1]);
        }
    }
}

/// The given sites in rising order of `y`; sites of one row keep the order
/// in which they were given.
pub open spec fn ordered(sites: Seq<Site>) -> Seq<Site>
    decreases sites.len(),
{
    if sites.len() == 0 {
        Seq::empty()
    } else {
        let head = ordered(sites.drop_last());
        head.insert(first_below(head, sites.last().y as int, 0) as int, sites.last())
    }
}

/// `ordered` keeps the sites, each as often as it was given, and puts them
/// in rising order.
pub proof fn lemma_ordered(sites: Seq<Site>)
    ensures
        ordered(sites).len() == sites.len(),
        ordered(sites).to_multiset() == sites.to_multiset(),
        sorted_by_y(ordered(sites)),
    decreases sites.len(),
{
    if sites.len() == 0 {
        assert(sites =~= Seq::<Site>::empty());
    } else {
        let head = ordered(sites.drop_last());
        lemma_ordered(sites.drop_last());
        lemma_first_below(head, sites.last().y as int, 0);
        lemma_insert_keeps_order(head, sites.last());
        vstd::seq_lib::to_multiset_insert(
            head,
            first_below(head, sites.last().y as int, 0) as int,
            sites.last(),
        );
        vstd::seq_lib::to_multiset_build(sites.drop_last(), sites.last());
        assert(sites.drop_last().push(sites.last()) =~= sites);
    }
}

/// Puts the given sites in rising order of `y`.
pub fn order_by_y(sites: &Vec<Site>) -> (result: Vec<Site>)
    ensures
        result@ == ordered(sites@),
        result@.len() == sites@.len(),
        result@.to_multiset() == sites@.to_multiset(),
        sorted_by_y(result@),
{
    let mut result: Vec<Site> = Vec::new();
    let mut i: usize = 0;
    while i < sites.len()
        invariant
            i <= sites@.len(),
            result@ == ordered(sites@.take(i as int)),
        decreases sites@.len() - i,
    {
        insert_by_y(&mut result, sites[i]);
        proof {
            assert(sites@.take(i + 1).drop_last() =~= sites@.take(i as int));
        }
        i = i + 1;
    }
    proof {
        assert(sites@.take(i as int) =~= sites@);
        lemma_ordered(sites@);
    }
    result
}

} // verus!
