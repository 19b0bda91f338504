use meme_guard::detect::Candidate;
use meme_guard::geometry::BBox;
use meme_guard::geometry::suppressed_by;
use meme_guard::nms::run_nms;
use meme_guard::nms::sort_desc;

fn cand(x1: i64, y1: i64, x2: i64, y2: i64, label: usize, conf: u32) -> Candidate {
    Candidate { bbox: BBox { x1, y1, x2, y2 }, label, conf }
}

// Two candidates at IoU 0.71 with confidences 0.9 and 0.5: only the 0.9
// box survives suppression.
#[test]
fn high_overlap_keeps_only_strongest() {
    // 171 x 10 px boxes shifted by 29 px: inter 1.42e9, union 2.0e9, IoU 0.71.
    let a = cand(0, 0, 171000, 10000, 0, 9000);
    let b = cand(29000, 0, 200000, 10000, 0, 5000);
    assert!(suppressed_by(&a.bbox, &b.bbox));
    let kept = run_nms(sort_desc(&vec![a, b]));
    assert_eq!(kept.len(), 1);
    assert_eq!(kept[0].conf, 9000);
    assert_eq!(kept[0].bbox, a.bbox);
}

// The same pair at IoU 0.69 stays below the threshold: both are kept.
#[test]
fn low_overlap_keeps_both() {
    // 169 x 10 px boxes shifted by 31 px: inter 1.38e9, union 2.0e9, IoU 0.69.
    let a = cand(0, 0, 169000, 10000, 0, 9000);
    let b = cand(31000, 0, 200000, 10000, 0, 5000);
    assert!(!suppressed_by(&a.bbox, &b.bbox));
    let kept = run_nms(sort_desc(&vec![a, b]));
    assert_eq!(kept.len(), 2);
    assert_eq!(kept[0].conf, 9000);
    assert_eq!(kept[1].conf, 5000);
}

// Identical input lists, tie confidences included, give the same kept
// set in the same order.
#[test]
fn nms_is_deterministic() {
    let mk = || {
        vec![
            cand(0, 0, 100000, 100000, 0, 7000),
            cand(10000, 0, 110000, 100000, 1, 7000),
            cand(500000, 500000, 600000, 600000, 0, 7000),
            cand(0, 0, 100000, 100000, 2, 3000),
        ]
    };
    let first = run_nms(sort_desc(&mk()));
    let second = run_nms(sort_desc(&mk()));
    assert_eq!(first, second);
}

// Every pair of kept boxes stays under the 0.7 overlap threshold.
#[test]
fn kept_boxes_never_overlap_much() {
    let input = vec![
        cand(0, 0, 100000, 100000, 0, 9500),
        cand(5000, 5000, 105000, 105000, 0, 9000),
        cand(90000, 90000, 200000, 200000, 0, 8000),
        cand(0, 0, 400000, 400000, 0, 7000),
        cand(350000, 350000, 450000, 450000, 0, 6000),
    ];
    let n = input.len();
    let kept = run_nms(sort_desc(&input));
    assert!(kept.len() <= n);
    for i in 0..kept.len() {
        for j in 0..kept.len() {
            if i != j {
                assert!(!suppressed_by(&kept[i].bbox, &kept[j].bbox));
            }
        }
    }
}

// A suppressed run never keeps more candidates than arrived.
#[test]
fn suppression_never_grows_the_list() {
    for shift in [0i64, 20000, 40000, 300000] {
        let input = vec![
            cand(0, 0, 100000, 100000, 0, 9000),
            cand(shift, 0, shift + 100000, 100000, 0, 8000),
            cand(2 * shift, 0, 2 * shift + 100000, 100000, 0, 7000),
        ];
        let kept = run_nms(sort_desc(&input));
        assert!(kept.len() <= input.len());
        assert!(!kept.is_empty());
    }
}

// Ties in confidence keep their input order through the stable sort.
#[test]
fn sort_is_stable_on_ties() {
    let input = vec![
        cand(0, 0, 10000, 10000, 3, 5000),
        cand(0, 0, 10000, 10000, 1, 8000),
        cand(0, 0, 10000, 10000, 2, 5000),
        cand(0, 0, 10000, 10000, 0, 5000),
    ];
    let sorted = sort_desc(&input);
    let labels: Vec<usize> = sorted.iter().map(|c| c.label).collect();
    assert_eq!(labels, vec![1, 3, 2, 0]);
}

// A box is suppressed by an identical box (IoU 1), and boxes disjoint
// along an axis are not suppressed.
#[test]
fn overlap_edge_cases() {
    let a = BBox { x1: 0, y1: 0, x2: 10000, y2: 10000 };
    assert!(suppressed_by(&a, &a));
    let far = BBox { x1: 900000, y1: 0, x2: 910000, y2: 10000 };
    assert!(!suppressed_by(&a, &far));
}
