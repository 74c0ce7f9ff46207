use voronoi::beach_line::{render_beach_lines, render_site_arc};
use voronoi::parabola::{sample_arc, ArcPoint, Segment, Site};
use voronoi::sampling::{sample_extent, sample_positions, DEFAULT_STEP};

fn ordinate(p: &ArcPoint) -> f64 {
    p.num as f64 / p.den as f64
}

fn closed_form(site: &Site, sweep_y: i32, x: i32) -> f64 {
    let sx = site.x as f64;
    let sy = site.y as f64;
    let sw = sweep_y as f64;
    let x = x as f64;
    1.0 / (2.0 * (sy - sw)) * ((x - sx) * (x - sx)) + (sy + sw) / 2.0
}

fn in_view(site: &Site, sweep_y: i32, x: i32) -> bool {
    if site.y == sweep_y {
        return false;
    }
    let y = closed_form(site, sweep_y, x);
    y > 0.0 && y < sweep_y as f64
}

#[test]
fn single_site_whole_range_in_view() {
    let site = Site { x: 50, y: 20 };
    let segments = render_beach_lines(&vec![site], 80, 0, 100, 5);
    assert_eq!(segments.len(), 20);
    for (k, s) in segments.iter().enumerate() {
        assert_eq!(s.from.x, 5 * k as i32);
        assert_eq!(s.to.x, 5 * k as i32 + 5);
        assert_eq!(s.from.den, -120);
        assert_eq!(s.to.den, -120);
        assert!((ordinate(&s.from) - closed_form(&site, 80, s.from.x)).abs() < 1e-9);
        assert!((ordinate(&s.to) - closed_form(&site, 80, s.to.x)).abs() < 1e-9);
        assert!(ordinate(&s.from) > 0.0 && ordinate(&s.from) < 80.0);
    }
    assert_eq!(segments[0].from, ArcPoint { x: 0, num: -3500, den: -120 });
    assert_eq!(segments[9].to, ArcPoint { x: 50, num: -6000, den: -120 });
    assert_eq!(ordinate(&segments[9].to), 50.0);
    assert_eq!(segments[19].to, ArcPoint { x: 100, num: -3500, den: -120 });
}

#[test]
fn single_site_arc_enters_and_leaves() {
    let site = Site { x: 50, y: 20 };
    let segments = render_beach_lines(&vec![site], 80, -100, 200, 5);
    assert_eq!(segments.len(), 31);
    assert_eq!(segments[0].from, ArcPoint { x: -25, num: 5625 - 6000, den: -120 });
    assert_eq!(segments[30].from.x, 125);
    assert_eq!(segments[30].to, ArcPoint { x: 130, num: 6400 - 6000, den: -120 });
    assert!(ordinate(&segments[0].from) > 0.0);
    assert!(ordinate(&segments[30].from) > 0.0);
    assert!(ordinate(&segments[30].to) < 0.0);
    for s in segments.iter() {
        assert!(ordinate(&s.from) > 0.0 && ordinate(&s.from) < 80.0);
    }
}

#[test]
fn site_on_sweep_line_has_no_arc() {
    let segments = render_beach_lines(&vec![Site { x: 50, y: 50 }], 50, 0, 100, 5);
    assert!(segments.is_empty());
    assert!(render_site_arc(Site { x: 50, y: 50 }, 50, 0, 100, 5).is_empty());
}

#[test]
fn two_sites_two_groups() {
    let a = Site { x: 20, y: 10 };
    let b = Site { x: 80, y: 10 };
    let segments = render_beach_lines(&vec![a, b], 90, 0, 100, 5);
    assert_eq!(segments.len(), 40);
    let first = render_site_arc(a, 90, 0, 100, 5);
    let second = render_site_arc(b, 90, 0, 100, 5);
    assert_eq!(first.len(), 20);
    assert_eq!(second.len(), 20);
    assert_eq!(&segments[..20], &first[..]);
    assert_eq!(&segments[20..], &second[..]);
    for s in &segments[..20] {
        assert_eq!(s.from.num, ((s.from.x - 20) * (s.from.x - 20) - 8000) as i128);
        assert_eq!(s.from.den, -160);
    }
    for s in &segments[20..] {
        assert_eq!(s.from.num, ((s.from.x - 80) * (s.from.x - 80) - 8000) as i128);
        assert_eq!(s.from.den, -160);
    }
    assert_eq!(segments[19].to.x, 100);
    assert_eq!(segments[20].from.x, 0);
}

#[test]
fn two_sites_wider_range() {
    let a = Site { x: 20, y: 10 };
    let b = Site { x: 80, y: 10 };
    let segments = render_beach_lines(&vec![a, b], 90, 0, 200, 5);
    assert_eq!(segments.len(), 22 + 34);
    assert_eq!(segments[21].to.x, 110);
    assert!(ordinate(&segments[21].to) < 0.0);
    assert_eq!(segments[22].from.x, 0);
    assert_eq!(segments[55].to.x, 170);
    assert!(ordinate(&segments[55].to) < 0.0);
}

#[test]
fn empty_range_no_segments() {
    let sites = vec![Site { x: 50, y: 20 }, Site { x: 10, y: 5 }];
    assert!(render_beach_lines(&sites, 80, 100, 0, 5).is_empty());
    assert!(render_beach_lines(&sites, 80, 1, 0, 1).is_empty());
}

#[test]
fn no_sites_no_segments() {
    assert!(render_beach_lines(&Vec::new(), 80, 0, 100, 5).is_empty());
}

#[test]
fn site_beyond_sweep_line_has_no_arc() {
    let site = Site { x: 50, y: 90 };
    assert!(render_site_arc(site, 80, 0, 100, 5).is_empty());
    for x in 0..=100 {
        assert!(!sample_arc(site, 80, x).is_visible(80));
    }
    let mixed = render_beach_lines(&vec![site, Site { x: 50, y: 20 }, Site { x: 1, y: 80 }], 80, 0, 100, 5);
    assert_eq!(mixed, render_site_arc(Site { x: 50, y: 20 }, 80, 0, 100, 5));
}

#[test]
fn arc_touching_the_top_edge_is_not_in_view() {
    // The vertex of this arc lies on the top edge, the rest beyond it.
    let site = Site { x: 0, y: -10 };
    let p = sample_arc(site, 10, 0);
    assert_eq!(p, ArcPoint { x: 0, num: 0, den: -40 });
    assert!(!p.is_visible(10));
    assert!(!p.is_beyond_top());
    assert!(render_site_arc(site, 10, -50, 50, 5).is_empty());
}

#[test]
fn single_sample_in_view_gives_no_segment() {
    // Only the last sample of the grid is in view.
    let site = Site { x: 100, y: 20 };
    assert!(in_view(&site, 21, 100));
    assert!(!in_view(&site, 21, 90));
    assert!(render_site_arc(site, 21, 0, 100, 10).is_empty());
    // One sample more, and a segment leads out of the view.
    let arc = render_site_arc(site, 21, 0, 110, 10);
    assert_eq!(arc.len(), 1);
    assert_eq!(arc[0].from.x, 100);
    assert_eq!(arc[0].to.x, 110);
    assert!(arc[0].to.is_beyond_top());
}

#[test]
fn arc_ends_with_the_first_sample_beyond_the_top() {
    let site = Site { x: 50, y: 20 };
    // In view for |x - 50| < 6.4 only.
    let arc = render_site_arc(site, 21, 0, 100, 2);
    assert_eq!(arc.first().unwrap().from.x, 44);
    assert_eq!(arc.last().unwrap().to.x, 58);
    assert_eq!(arc.len(), 7);
    assert!(arc.last().unwrap().to.is_beyond_top());
    assert!(!arc.last().unwrap().from.is_beyond_top());
}

#[test]
fn arc_is_nonempty_exactly_where_a_sample_before_the_last_is_in_view() {
    let ranges = [(0, 100, 5u32), (0, 100, 20), (1, 100, 20), (40, 60, 7), (-30, 30, 3), (90, 10, 5), (50, 50, 1)];
    let sites = [
        Site { x: 50, y: 20 },
        Site { x: 50, y: 50 },
        Site { x: 50, y: 70 },
        Site { x: 0, y: 0 },
        Site { x: -200, y: 3 },
        Site { x: 41, y: 48 },
    ];
    for &(x_min, x_max, step) in ranges.iter() {
        for site in sites.iter() {
            for sweep_y in [21, 50, 51, 80] {
                let xs = sample_positions(x_min, x_max, step);
                let expected = xs.len() >= 2
                    && xs[..xs.len() - 1].iter().any(|&x| sample_arc(*site, sweep_y, x).is_visible(sweep_y));
                let arc = render_site_arc(*site, sweep_y, x_min, x_max, step);
                assert_eq!(!arc.is_empty(), expected);
                if site.y >= sweep_y {
                    assert!(arc.is_empty());
                }
            }
        }
    }
}

#[test]
fn visibility_agrees_with_the_closed_form() {
    let site = Site { x: 50, y: 20 };
    for x in -100..=200 {
        let p = sample_arc(site, 80, x);
        let y = closed_form(&site, 80, x);
        assert_eq!(p.is_visible(80), y > 0.0 && y < 80.0);
        assert_eq!(p.is_beyond_top(), y < 0.0);
        assert!((ordinate(&p) - y).abs() < 1e-9);
    }
}

#[test]
fn no_segment_without_an_ordinate() {
    let sites = vec![
        Site { x: 50, y: 50 },
        Site { x: 10, y: 49 },
        Site { x: 20, y: 50 },
        Site { x: 30, y: 51 },
        Site { x: 70, y: 0 },
    ];
    let segments = render_beach_lines(&sites, 50, 0, 100, 5);
    assert!(!segments.is_empty());
    for s in segments.iter() {
        assert!(s.from.den != 0 && s.to.den != 0);
        assert!(ordinate(&s.from).is_finite() && ordinate(&s.to).is_finite());
    }
}

#[test]
fn rendering_twice_gives_the_same_segments() {
    let sites = vec![Site { x: 20, y: 10 }, Site { x: 80, y: 10 }, Site { x: 50, y: 60 }];
    let first = render_beach_lines(&sites, 90, 0, 300, 5);
    let second = render_beach_lines(&sites, 90, 0, 300, 5);
    assert_eq!(first, second);
}

#[test]
fn segments_follow_the_grid_from_left_to_right() {
    let arc = render_site_arc(Site { x: 50, y: 20 }, 80, -100, 200, 7);
    assert!(!arc.is_empty());
    for (k, s) in arc.iter().enumerate() {
        assert_eq!(s.to.x, s.from.x + 7);
        assert_eq!(s.from.x, arc[0].from.x + 7 * k as i32);
        assert_eq!((s.from.x + 100) % 7, 0);
        if k + 1 < arc.len() {
            assert_eq!(arc[k + 1].from, s.to);
        }
    }
}

#[test]
fn extreme_coordinates_do_not_overflow() {
    let site = Site { x: i32::MIN, y: i32::MIN };
    let p = sample_arc(site, i32::MAX, i32::MAX);
    let dx = i32::MAX as i128 - i32::MIN as i128;
    let a = i32::MIN as i128 - i32::MAX as i128;
    let b = i32::MIN as i128 + i32::MAX as i128;
    assert_eq!(p.num, dx * dx + a * b);
    assert_eq!(p.den, 2 * (i32::MIN as i64 - i32::MAX as i64));
    let arc = render_site_arc(site, i32::MAX, i32::MAX - 10, i32::MAX, 4);
    for s in arc.iter() {
        assert!(s.from.den != 0);
    }
    let q = Segment { from: p, to: p };
    assert_eq!(q.from, q.to);
}

#[test]
fn no_stride_no_samples() {
    assert_eq!(sample_positions(0, 10, 0), Vec::<i32>::new());
    assert!(render_site_arc(Site { x: 50, y: 20 }, 80, 0, 100, 0).is_empty());
    assert!(render_beach_lines(&vec![Site { x: 50, y: 20 }], 80, 0, 100, 0).is_empty());
}

#[test]
fn grid_positions() {
    assert_eq!(sample_positions(0, 12, 5), vec![0, 5, 10]);
    assert_eq!(sample_positions(0, 10, 5), vec![0, 5, 10]);
    assert_eq!(sample_positions(3, 3, 5), vec![3]);
    assert_eq!(sample_positions(4, 3, 1), Vec::<i32>::new());
    assert_eq!(sample_positions(-7, 2, 3), vec![-7, -4, -1, 2]);
    assert_eq!(sample_positions(0, 100, 5).len(), 21);
    assert_eq!(sample_positions(i32::MAX - 3, i32::MAX, 2), vec![i32::MAX - 3, i32::MAX - 1]);
    assert_eq!(sample_positions(i32::MIN, i32::MAX, u32::MAX), vec![i32::MIN, i32::MAX]);
}

#[test]
fn extent_is_one_stride_wider() {
    assert_eq!(DEFAULT_STEP, 5);
    assert_eq!(sample_extent(0, 800, 5), (0, 805));
    assert_eq!(sample_extent(10, 800, 5), (5, 805));
    assert_eq!(sample_extent(5, 800, 5), (0, 805));
    assert_eq!(sample_extent(-20, 800, 5), (0, 805));
    assert_eq!(sample_extent(0, i32::MAX - 2, 5), (0, i32::MAX));
    assert_eq!(sample_extent(0, -20, 5), (0, -15));
}
