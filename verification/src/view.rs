//! The state of one sketch view, and what it does on each notification of
//! its host: the sites, the sweep line that follows the pointer, and the
//! frame to draw.

use vstd::prelude::*;
use crate::beach_line::{beach_lines, render_beach_lines};
use crate::input::{invalidated_rows, rows_between};
use crate::parabola::{Segment, Site};
use crate::sampling::{extent_of, sample_extent, DEFAULT_STEP};
use crate::sites::{on_surface, random_sites, sorted_by_y};

verus! {

/// Width and height of the surface that a new view scatters its sites over,
/// until the host tells its size.
pub const INITIAL_EXTENT: u16 = 100;

/// Radius of the mark that shows a site.
pub const MARKER_RADIUS: u32 = 2;

/// The sweep line as it is drawn: the row `y`, from `x_from` to `x_to`.
#[derive(Clone, Copy, Debug, PartialEq, Eq, Structural)]
pub struct SweepLine {
    pub y: i32,
    pub x_from: i32,
    pub x_to: i32,
}

/// All that one repaint draws, in the order in which it is drawn: a mark for
/// each site, the sweep line, the arcs.
#[derive(Clone, Debug, PartialEq, Eq)]
pub struct Frame {
    pub markers: Vec<Site>,
    pub sweep_line: SweepLine,
    pub arcs: Vec<Segment>,
}

/// A notification of the host.
#[derive(Clone, Copy, Debug, PartialEq, Eq, Structural)]
pub enum Message {
    /// The surface asks to be repainted; the clip rectangle reaches from
    /// `clip_left` to `clip_right`.
    Paint { clip_left: i32, clip_right: i32 },
    /// The pointer has moved to `(x, y)`.
    PointerMoved { x: u16, y: u16 },
    /// The surface has a new size.
    Resized { width: u16, height: u16 },
    /// Anything else.
    Other,
}

/// What the host is to do after a notification.
#[derive(Clone, Debug, PartialEq, Eq)]
pub enum Action {
    /// Draw this frame.
    Draw(Frame),
    /// Mark the rows from `top` to `bottom` as stale.
    InvalidateRows { top: i32, bottom: i32 },
    /// Release the drawing resources, make them anew for the surface's new
    /// size, and mark the whole surface as stale.
    RebuildSurface,
    /// Leave the notification to the host's default handling.
    Default,
}

/// One sketch view.
pub struct Voronoi {
    site_count: u16,
    sites: Vec<Site>,
    sweep_line: i32,
}

/// What a view is, to its contracts.
pub ghost struct VoronoiView {
    pub site_count: nat,
    pub sites: Seq<Site>,
    pub sweep_line: int,
}

impl View for Voronoi {
    type V = VoronoiView;

    closed spec fn view(&self) -> VoronoiView {
        VoronoiView {
            site_count: self.site_count as nat,
            sites: self.sites@,
            sweep_line: self.sweep_line as int,
        }
    }
}

/// The frame of a view with these sites and this sweep line, for a clip
/// rectangle from `clip_left` to `clip_right`.
pub open spec fn frame_matches(frame: Frame, sites: Seq<Site>, sweep_line: i32, clip_left: i32, clip_right: i32) -> bool {
    let extent = extent_of(clip_left as int, clip_right as int, DEFAULT_STEP as int);
    &&& frame.markers@ == sites
    &&& frame.sweep_line == (SweepLine { y: sweep_line, x_from: 0, x_to: clip_right })
    &&& frame.arcs@ == beach_lines(sites, sweep_line, extent.0 as i32, extent.1 as i32, DEFAULT_STEP)
}

impl Voronoi {
    /// The view holds as many sites as it was made for, in rising order of
    /// `y`.
    pub open spec fn wf(&self) -> bool {
        &&& self@.sites.len() == self@.site_count
        &&& sorted_by_y(self@.sites)
    }

    /// A view of `sites` sites, scattered over the initial surface, with the
    /// sweep line at the top edge.
    pub fn new(sites: u16) -> (view: Self)
        ensures
            view.wf(),
            view@.site_count == sites,
            view@.sweep_line == 0,
            on_surface(view@.sites, INITIAL_EXTENT as int, INITIAL_EXTENT as int),
    {
        Voronoi {
            site_count: sites,
            sites: random_sites(sites, INITIAL_EXTENT, INITIAL_EXTENT),
            sweep_line: 0,
        }
    }

    /// How many sites the view holds.
    pub fn site_count(&self) -> (count: u16)
        ensures
            count == self@.site_count,
    {
        self.site_count
    }

    /// The sites.
    pub fn sites(&self) -> (sites: &Vec<Site>)
        ensures
            sites@ == self@.sites,
    {
        &self.sites
    }

    /// The row of the sweep line.
    pub fn sweep_line(&self) -> (y: i32)
        ensures
            y == self@.sweep_line,
    {
        self.sweep_line
    }

    /// Replaces the sites by the given ones, put in rising order of `y`
    /// (sites on one row keep their order). The number of sites that the view
    /// holds from now on is theirs.
    pub fn set_sites(&mut self, sites: &Vec<Site>)
        requires
            sites@.len() <= u16::MAX,
        ensures
            final(self).wf(),
            final(self)@.sites == crate::sites::ordered(sites@),
            final(self)@.site_count == sites@.len(),
            final(self)@.sweep_line == old(self)@.sweep_line,
    {
        self.sites = crate::sites::order_by_y(sites);
        self.site_count = sites.len() as u16;
    }

    /// Scatters the sites anew over a surface of the given size. Their number
    /// and the sweep line stay.
    pub fn random_sites(&mut self, width: u16, height: u16)
        ensures
            final(self).wf(),
            final(self)@.site_count == old(self)@.site_count,
            final(self)@.sweep_line == old(self)@.sweep_line,
            on_surface(final(self)@.sites, width as int, height as int),
    {
        self.sites = random_sites(self.site_count, width, height);
    }

    /// Moves the sweep line to the row `y` and returns the rows that are
    /// stale now: those between the line's old and new place.
    pub fn move_sweep_line(&mut self, y: i32) -> (rows: (i32, i32))
        ensures
            final(self)@.sweep_line == y,
            final(self)@.sites == old(self)@.sites,
            final(self)@.site_count == old(self)@.site_count,
            (rows.0 as int, rows.1 as int) == rows_between(old(self)@.sweep_line, y as int),
    {
        let previous: i32 = self.sweep_line;
        self.sweep_line = y;
        invalidated_rows(previous, y)
    }

    /// The frame to draw for a clip rectangle from `clip_left` to
    /// `clip_right`: the sites, the sweep line across the surface, and the
    /// beach line sampled over the rectangle widened by one stride.
    pub fn render(&self, clip_left: i32, clip_right: i32) -> (frame: Frame)
        ensures
            frame_matches(frame, self@.sites, self@.sweep_line as i32, clip_left, clip_right),
    {
        let extent: (i32, i32) = sample_extent(clip_left, clip_right, DEFAULT_STEP);
        let arcs: Vec<Segment> = render_beach_lines(
            &self.sites,
            self.sweep_line,
            extent.0,
            extent.1,
            DEFAULT_STEP,
        );
        let mut markers: Vec<Site> = Vec::new();
        let mut i: usize = 0;
        while i < self.sites.len()
            invariant
                i <= self.sites@.len(),
                markers@ == self.sites@.take(i as int),
            decreases self.sites@.len() - i,
        {
            markers.push(self.sites[i]);
            proof {
                assert(self.sites@.take(i + 1) =~= self.sites@.take(i as int).push(self.sites@[i as int]));
            }
            i = i + 1;
        }
        proof {
            assert(self.sites@.take(i as int) =~= self.sites@);
        }
        Frame {
            markers,
            sweep_line: SweepLine { y: self.sweep_line, x_from: 0, x_to: clip_right },
            arcs,
        }
    }

    /// Takes one notification of the host and says what the host is to do.
    ///
    /// A repaint draws the current frame. A move of the pointer puts the
    /// sweep line on the pointer's row and marks the rows between the old and
    /// the new line as stale. A new size scatters the sites anew over the
    /// surface and has the drawing resources rebuilt. Anything else is left
    /// to the host.
    pub fn message_handler(&mut self, message: Message) -> (action: Action)
        ensures
            final(self)@.site_count == old(self)@.site_count,
            old(self).wf() ==> final(self).wf(),
            match message {
                Message::Paint { clip_left, clip_right } => {
                    &&& final(self)@ == old(self)@
                    &&& action is Draw
                    &&& frame_matches(
                        action->Draw_0,
                        old(self)@.sites,
                        old(self)@.sweep_line as i32,
                        clip_left,
                        clip_right,
                    )
                },
                Message::PointerMoved { x, y } => {
                    &&& final(self)@.sites == old(self)@.sites
                    &&& final(self)@.sweep_line == y
                    &&& action is InvalidateRows
                    &&& (action->top as int, action->bottom as int) == rows_between(
                        old(self)@.sweep_line,
                        y as int,
                    )
                },
                Message::Resized { width, height } => {
                    &&& final(self)@.sweep_line == old(self)@.sweep_line
                    &&& final(self)@.sites.len() == old(self)@.site_count
                    &&& sorted_by_y(final(self)@.sites)
                    &&& on_surface(final(self)@.sites, width as int, height as int)
                    &&& action is RebuildSurface
                },
                Message::Other => {
                    &&& final(self)@ == old(self)@
                    &&& action is Default
                },
            },
    {
        match message {
            Message::Paint { clip_left, clip_right } => Action::Draw(
                self.render(clip_left, clip_right),
            ),
            Message::PointerMoved { x: _, y } => {
                let rows: (i32, i32) = self.move_sweep_line(y as i32);
                Action::InvalidateRows { top: rows.0, bottom: rows.1 }
            },
            Message::Resized { width, height } => {
                self.random_sites(width, height);
                Action::RebuildSurface
            },
            Message::Other => Action::Default,
        }
    }
}

} // verus!
