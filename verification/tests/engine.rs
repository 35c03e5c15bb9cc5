use pagepal::folder::Folder;
use pagepal::layout::{candidate_box, search, Candidate, Stats};
use pagepal::pages::page;
use pagepal::picture::{contains, Orientation, Picture};
use pagepal::place::{fit_scale, place, Frac};
use pagepal::EngineError;

fn pic(name: &str, w: u32, h: u32, size: u64) -> Picture {
    Picture::new(format!("file:///pics/{}", name), w, h, size)
}

fn sample_page() -> Vec<Picture> {
    vec![
        pic("a.jpg", 100, 150, 10),
        pic("b.jpg", 120, 150, 20),
        pic("c.jpg", 90, 200, 30),
        pic("d.jpg", 110, 180, 40),
    ]
}

#[test]
fn box_arithmetic_two_columns() {
    // rows (100,150)+(120,150) and (90,200)+(110,180): box (220, 350)
    let c = candidate_box(&sample_page(), 2);
    assert_eq!(c, Candidate { cols: 2, box_w: 220, box_h: 350 });
}

#[test]
fn box_arithmetic_one_column() {
    let c = candidate_box(&sample_page(), 1);
    assert_eq!(c, Candidate { cols: 1, box_w: 120, box_h: 680 });
}

#[test]
fn search_picks_best_candidate() {
    // candidates n = 1, 2, 3; exact errors 496000/81600, 192000/77000,
    // 180000/117800: three columns fit the 800x400 viewport best
    let s = search(&sample_page(), 4, 800, 400).unwrap();
    assert_eq!(
        s,
        Stats { cols: 3, box_w: 310, box_h: 380, err_num: 180000, err_den: 117800 }
    );
}

#[test]
fn search_is_deterministic() {
    let a = search(&sample_page(), 4, 800, 400).unwrap();
    for _ in 0..10 {
        let b = search(&sample_page(), 4, 800, 400).unwrap();
        assert_eq!(a, b);
    }
}

#[test]
fn search_degenerate_viewport() {
    assert_eq!(
        search(&sample_page(), 4, 0, 400),
        Err(EngineError::DegenerateViewport)
    );
    assert_eq!(
        search(&sample_page(), 4, 800, 0),
        Err(EngineError::DegenerateViewport)
    );
}

#[test]
fn search_empty_page() {
    let unmeasured = vec![pic("x.jpg", 0, 0, 5), pic("y.jpg", 0, 0, 6)];
    assert_eq!(search(&unmeasured, 2, 800, 400), Err(EngineError::EmptyPage));
}

#[test]
fn search_skips_unmeasured_items() {
    let mut items = sample_page();
    items.insert(2, pic("pending.jpg", 0, 0, 1));
    let s = search(&items, 5, 800, 400).unwrap();
    // the unmeasured item must not disturb the measured four; with a page
    // size of five the candidate range reaches n = 4, whose single row
    // (420, 200) has error |800*200 - 400*420| / (420*200) = 8000/84000,
    // the smallest of the range
    let measured: Vec<Picture> = items.iter().filter(|p| p.w > 0).cloned().collect();
    assert_eq!(candidate_box(&measured, 4), Candidate { cols: 4, box_w: 420, box_h: 200 });
    assert_eq!(
        s,
        Stats { cols: 4, box_w: 420, box_h: 200, err_num: 8000, err_den: 84000 }
    );
}

#[test]
fn page_selection() {
    let items: Vec<Picture> = (0..10).map(|i| pic(&format!("{}.jpg", i), 10, 10, 1)).collect();
    let p0 = page(&items, 3, 0).unwrap();
    assert_eq!(p0.len(), 3);
    assert_eq!(p0[0].path, "file:///pics/0.jpg");
    let p3 = page(&items, 3, 3).unwrap();
    assert_eq!(p3.len(), 1);
    assert_eq!(p3[0].path, "file:///pics/9.jpg");
    assert!(matches!(page(&items, 3, 4), Err(EngineError::OutOfRange)));
    let empty: Vec<Picture> = Vec::new();
    assert!(matches!(page(&empty, 3, 0), Err(EngineError::OutOfRange)));
}

#[test]
fn pages_cover_everything_once() {
    let items: Vec<Picture> = (0..10).map(|i| pic(&format!("{}.jpg", i), 10, 10, 1)).collect();
    let mut seen: Vec<String> = Vec::new();
    for i in 0..4 {
        for p in page(&items, 3, i).unwrap() {
            seen.push(p.path.clone());
        }
    }
    let all: Vec<String> = items.iter().map(|p| p.path.clone()).collect();
    assert_eq!(seen, all);
}

#[test]
fn scale_is_positive_and_exact() {
    let sc = fit_scale(800, 400, 310, 380);
    assert_eq!(sc, Frac { num: 400, den: 380 });
    assert!(sc.num >= 1 && sc.den >= 1);
    let sc2 = fit_scale(800, 400, 220, 350);
    // 800/220 ~ 3.64 vs 400/350 ~ 1.14: the vertical fit binds
    assert_eq!(sc2, Frac { num: 400, den: 350 });
}

#[test]
fn placement_forward() {
    let slots = place(&sample_page(), 310, 380, 800, 400, true).unwrap();
    assert_eq!(slots.len(), 4);
    // gap = 800*380 - 310*400 = 180000 over a shared denominator 760
    let xs: Vec<u64> = slots.iter().map(|s| s.x.num).collect();
    let ys: Vec<u64> = slots.iter().map(|s| s.y.num).collect();
    assert_eq!(xs, vec![180000, 260000, 356000, 180000]);
    assert_eq!(ys, vec![0, 0, 0, 160000]);
    for s in &slots {
        assert_eq!(s.x.den, 760);
        assert_eq!(s.y.den, 760);
    }
    let items: Vec<usize> = slots.iter().map(|s| s.item).collect();
    assert_eq!(items, vec![0, 1, 2, 3]);
}

#[test]
fn placement_reverse_mirrors_rows() {
    let fwd = place(&sample_page(), 310, 380, 800, 400, true).unwrap();
    let rev = place(&sample_page(), 310, 380, 800, 400, false).unwrap();
    let widths = [100u64, 120, 90, 110];
    // same rows: identical y; x mirrored about the row width
    for (i, (f, r)) in fwd.iter().zip(rev.iter()).enumerate() {
        assert_eq!(f.y, r.y);
        let row_w: u64 = if i < 3 { 310 } else { 110 };
        // unscaled: x_fwd + width + x_rev == row_w, scaled by 2 * 400
        let f_off = f.x.num - 180000;
        let r_off = r.x.num - 180000;
        assert_eq!(f_off + 2 * widths[i] * 400 + r_off, 2 * row_w * 400);
    }
    let rx: Vec<u64> = rev.iter().map(|s| s.x.num).collect();
    assert_eq!(rx, vec![348000, 252000, 180000, 180000]);
}

#[test]
fn placement_origins_distinct() {
    let slots = place(&sample_page(), 310, 380, 800, 400, true).unwrap();
    for i in 0..slots.len() {
        for j in 0..slots.len() {
            if i != j {
                assert!(slots[i].x.num != slots[j].x.num || slots[i].y.num != slots[j].y.num);
            }
        }
    }
}

#[test]
fn placement_skips_unmeasured() {
    let mut items = sample_page();
    items.insert(1, pic("pending.jpg", 0, 0, 1));
    let slots = place(&items, 310, 380, 800, 400, true).unwrap();
    assert_eq!(slots.len(), 4);
    let idx: Vec<usize> = slots.iter().map(|s| s.item).collect();
    assert_eq!(idx, vec![0, 2, 3, 4]);
}

#[test]
fn placement_degenerate_viewport() {
    assert_eq!(
        place(&sample_page(), 310, 380, 0, 400, true),
        Err(EngineError::DegenerateViewport)
    );
}

#[test]
fn extension_filter() {
    assert!(contains("jpg"));
    assert!(contains("jpeg"));
    assert!(contains("bmp"));
    assert!(contains("png"));
    assert!(!contains("gif"));
    assert!(!contains("JPG"));
    assert!(!contains(""));
}

#[test]
fn orientation_codes() {
    let mut p = pic("a.jpg", 10, 10, 1);
    assert_eq!(p.flip(), Orientation::Horizontal);
    p.set_flip(1);
    assert_eq!(p.flip(), Orientation::Normal);
    p.set_flip(2);
    assert_eq!(p.flip(), Orientation::Horizontal);
    p.set_flip(7);
    assert_eq!(p.flip(), Orientation::Normal);
}

#[test]
fn folder_from_location() {
    let f = Folder::new("file:///home/someone/pictures").unwrap();
    assert_eq!(f.scheme(), "file");
    assert_eq!(f.path(), "/home/someone/pictures");
    assert_eq!(f.batch, 2);
    assert_eq!(f.index, 0);
    assert!(f.changed);
    assert!(f.direction);
    assert!(Folder::new("not a url at all").is_none());
    let h = Folder::new("https://example.org/gallery?page=2").unwrap();
    assert_eq!(h.scheme(), "https");
    assert_eq!(h.path(), "/gallery");
}

#[test]
fn folder_insert_is_idempotent_update() {
    let mut f = Folder::new("file:///pics").unwrap();
    f.add_pic(pic("a.jpg", 100, 150, 10));
    f.add_pic(pic("b.jpg", 120, 150, 20));
    assert_eq!(f.items.len(), 2);
    // same path again: an update in place, not a duplicate
    f.add_pic(pic("a.jpg", 640, 480, 99));
    assert_eq!(f.items.len(), 2);
    assert_eq!(f.items[0].w, 640);
    assert_eq!(f.items[0].size, 99);
    assert_eq!(f.items[1].w, 120);
}

#[test]
fn more_is_bounded() {
    // ten items, page size 2, on page 1: the page size may grow to 3,
    // bounded by 10 / 1 = 10 and by the single-step increment
    let mut f = Folder::new("file:///pics").unwrap();
    for i in 0..10 {
        f.add_pic(pic(&format!("{}.jpg", i), 10, 10, 1));
    }
    f.index = 1;
    f.more();
    assert_eq!(f.batch, 3);
    assert!(f.changed);
}

#[test]
fn more_on_empty_folder_keeps_batch_positive() {
    let mut f = Folder::new("file:///pics").unwrap();
    f.more();
    assert_eq!(f.batch, 1);
}

#[test]
fn less_floors_at_one() {
    let mut f = Folder::new("file:///pics").unwrap();
    f.batch = 5;
    f.less();
    assert_eq!(f.batch, 3);
    f.less();
    assert_eq!(f.batch, 1);
    f.less();
    assert_eq!(f.batch, 1);
    assert!(f.changed);
}

#[test]
fn prev_page_stays_at_zero() {
    let mut f = Folder::new("file:///pics").unwrap();
    assert_eq!(f.index, 0);
    f.prev_page();
    assert_eq!(f.index, 0);
}

#[test]
fn next_page_saturates_at_last_page() {
    let mut f = Folder::new("file:///pics").unwrap();
    for i in 0..5 {
        f.add_pic(pic(&format!("{}.jpg", i), 10, 10, 1));
    }
    // batch 2, five items: pages 0..2
    f.next_page();
    assert_eq!(f.index, 1);
    f.next_page();
    assert_eq!(f.index, 2);
    f.next_page();
    assert_eq!(f.index, 2);
}

#[test]
fn toggle_direction_flips() {
    let mut f = Folder::new("file:///pics").unwrap();
    assert!(f.direction);
    f.toggle_direction();
    assert!(!f.direction);
    f.toggle_direction();
    assert!(f.direction);
}

#[test]
fn refresh_lays_out_and_cleans() {
    let mut f = Folder::new("file:///pics").unwrap();
    for p in sample_page() {
        f.add_pic(p);
    }
    f.batch = 4;
    assert!(f.changed);
    f.refresh(800, 400).unwrap();
    assert!(!f.changed);
    assert_eq!(
        f.stats,
        Stats { cols: 3, box_w: 310, box_h: 380, err_num: 180000, err_den: 117800 }
    );
    assert_eq!(f.size, 100);
    assert_eq!(f.maxdim, (420, 680));
}

#[test]
fn refresh_reports_out_of_range() {
    let mut f = Folder::new("file:///pics").unwrap();
    f.add_pic(pic("a.jpg", 100, 150, 10));
    f.index = 7;
    assert_eq!(f.refresh(800, 400), Err(EngineError::OutOfRange));
    let mut empty = Folder::new("file:///pics").unwrap();
    assert_eq!(empty.refresh(800, 400), Err(EngineError::OutOfRange));
}

#[test]
fn layout_at_dimension_bound_ties_break_to_fewest_columns() {
    // two squares at the engine's dimension bound; one and two columns
    // give mirrored boxes with the same fit error, so the tie falls to
    // the earliest candidate, one column — with no overflow anywhere
    let d = pagepal::MAX_DIM;
    let items = vec![pic("big1.png", d, d, 1), pic("big2.png", d, d, 1)];
    let s = search(&items, 2, d, d).unwrap();
    assert_eq!(s.cols, 1);
    assert_eq!((s.box_w, s.box_h), (d as u64, 2 * d as u64));
    let e = d as u128;
    assert_eq!((s.err_num, s.err_den), (e * e, 2 * e * e));
}

#[test]
fn aggregates_saturate_at_the_counter_limit() {
    let mut f = Folder::new("file:///pics").unwrap();
    f.add_pic(pic("a.bin", 0, 0, u64::MAX));
    f.add_pic(pic("b.bin", 0, 0, u64::MAX));
    // nothing is measured, so the cycle reports an empty page, but the
    // aggregates are still recounted — and the byte total saturates
    assert_eq!(f.refresh(800, 400), Err(EngineError::EmptyPage));
    assert_eq!(f.size, u64::MAX);
    assert_eq!(f.maxdim, (0, 0));
}

#[test]
fn folder_stats_degenerate_viewport() {
    let mut f = Folder::new("file:///pics").unwrap();
    f.add_pic(pic("a.jpg", 100, 150, 10));
    assert_eq!(f.folder_stats(0, 400), Err(EngineError::DegenerateViewport));
}
