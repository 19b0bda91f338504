use meme_guard::detect::RawRow;
use meme_guard::detect::arg_best;
use meme_guard::detect::decode_rows;
use meme_guard::detector::clamp_box;
use meme_guard::detector::classify_rows;
use meme_guard::detector::detect_objects;
use meme_guard::detector::peak_confidence;
use meme_guard::detector::select_drawn;
use meme_guard::geometry::BBox;

fn row(xc: u32, yc: u32, w: u32, h: u32, scores: Vec<u32>) -> RawRow {
    RawRow { xc, yc, w, h, scores }
}

// One row decoded against a 1280 x 480 image: every rescaled edge has an
// exact expected value.
#[test]
fn decode_rescales_exactly() {
    let rows = vec![row(320000, 320000, 100000, 50000, vec![9000, 100])];
    let cands = decode_rows(&rows, 1280, 480);
    assert_eq!(cands.len(), 1);
    let c = &cands[0];
    assert_eq!(c.label, 0);
    assert_eq!(c.conf, 9000);
    // x: center 320 px and width 100 px in 640-space double on a 1280 px image.
    assert_eq!(c.bbox.x1, 540000);
    assert_eq!(c.bbox.x2, 740000);
    // y: center 320 px and height 50 px shrink by 480/640.
    assert_eq!(c.bbox.y1, 221250);
    assert_eq!(c.bbox.y2, 258750);
}

// The detection floor is exclusive below 0.3: a best score of 0.2999 is
// dropped, 0.3 exactly is kept.
#[test]
fn detection_floor_boundary() {
    let rows = vec![
        row(320000, 320000, 10000, 10000, vec![2999]),
        row(320000, 320000, 10000, 10000, vec![3000]),
    ];
    let cands = decode_rows(&rows, 640, 640);
    assert_eq!(cands.len(), 1);
    assert_eq!(cands[0].conf, 3000);
}

// The best class of a row is the first one reaching the maximum score.
#[test]
fn arg_best_prefers_first_on_tie() {
    assert_eq!(arg_best(&vec![100, 900, 900, 50]), 1);
    assert_eq!(arg_best(&vec![900]), 0);
    assert_eq!(arg_best(&vec![100, 200, 900]), 2);
}

// Classification mode takes the primary-class score of every row, even
// where another class scores higher.
#[test]
fn classify_reads_primary_class_of_all_rows() {
    let rows = vec![
        row(0, 0, 0, 0, vec![5000, 9000]),
        row(0, 0, 0, 0, vec![4000, 100]),
    ];
    assert_eq!(classify_rows(&rows), 5000);
    assert_eq!(classify_rows(&Vec::new()), 0);
}

// A box hanging over every border is clamped to the image, edges still
// ordered.
#[test]
fn clamp_box_restores_bounds() {
    let b = BBox { x1: -5000, y1: -1, x2: 99000000, y2: 3000 };
    let r = clamp_box(&b, 100, 50);
    assert_eq!(r.x1, 0);
    assert_eq!(r.y1, 0);
    assert_eq!(r.x2, 100000);
    assert_eq!(r.y2, 3000);
    assert!(0 <= r.x1 && r.x1 <= r.x2 && r.x2 <= 100000);
    assert!(0 <= r.y1 && r.y1 <= r.y2 && r.y2 <= 50000);
}

// The full annotation pipeline on raw rows: the low-confidence heavy
// overlapper is suppressed, the far box survives.
#[test]
fn pipeline_decodes_sorts_and_suppresses() {
    let rows = vec![
        // center 100 px, 100 px square at the origin area, weaker.
        row(100000, 50000, 100000, 100000, vec![5000]),
        // nearly the same box, stronger: wins the overlap.
        row(101000, 50000, 100000, 100000, vec![9000]),
        // far away along x in the same band, kept independently.
        row(500000, 50000, 100000, 100000, vec![4000]),
    ];
    let kept = detect_objects(&rows, 640, 640);
    assert_eq!(kept.len(), 2);
    assert_eq!(kept[0].conf, 9000);
    assert_eq!(kept[1].conf, 4000);
}

// Benign-labelled candidates are not drawn and do not count toward the
// reported confidence.
#[test]
fn benign_label_excluded_from_drawing() {
    let rows = vec![
        row(100000, 100000, 50000, 50000, vec![100, 9500]),
        row(400000, 100000, 50000, 50000, vec![8000, 200]),
    ];
    let kept = detect_objects(&rows, 640, 640);
    assert_eq!(kept.len(), 2);
    let drawn = select_drawn(&kept, Some(1));
    assert_eq!(drawn.len(), 1);
    assert_eq!(drawn[0].label, 0);
    assert_eq!(peak_confidence(&drawn), 8000);
    let all = select_drawn(&kept, None);
    assert_eq!(all.len(), 2);
    assert_eq!(peak_confidence(&all), 9500);
    assert_eq!(peak_confidence(&Vec::new()), 0);
}
