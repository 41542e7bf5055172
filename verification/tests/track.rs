use owntrack_rs::csv;
use owntrack_rs::db::{GpsPoint, TrackData};
use owntrack_rs::geo::Degrees;
use owntrack_rs::stats::{bounding_box, elevation_gain, elevation_range, speed_range, track_stats, BoundingBox, Range};
use owntrack_rs::track::{assemble, assemble_tracks, filter_accurate, is_within_accuracy, segments, Mode};

fn point(n: i64, accuracy: Option<i32>) -> GpsPoint {
    GpsPoint {
        y: Degrees { e7: 470000000 + n },
        x: Degrees { e7: 94000000 - n },
        ts: format!("2025-02-19 06:46:{:02}+00", n),
        speed: None,
        elevation: None,
        accuracy,
        v_accuracy: None,
        cog: None,
        annotations: "{}".to_string(),
    }
}

fn stamps(points: &[GpsPoint]) -> Vec<String> {
    points.iter().map(|p| p.ts.clone()).collect()
}

#[test]
fn inaccurate_point_is_left_out() {
    assert!(!is_within_accuracy(&point(1, Some(250))));
    assert!(!is_within_accuracy(&point(1, Some(200))));
    assert!(is_within_accuracy(&point(1, Some(199))));
    assert!(is_within_accuracy(&point(1, Some(0))));
    assert!(is_within_accuracy(&point(1, None)));
    let points = vec![point(1, Some(10)), point(2, Some(250)), point(3, None), point(4, Some(200))];
    let kept = filter_accurate(&points);
    assert_eq!(stamps(&kept), vec!["2025-02-19 06:46:01+00", "2025-02-19 06:46:03+00"]);
}

#[test]
fn three_points_give_two_segments() {
    let points = vec![point(1, None), point(2, None), point(3, None)];
    let segs = segments(&points, 7);
    assert_eq!(segs.len(), 2);
    assert_eq!(segs[0].first.ts, points[0].ts);
    assert_eq!(segs[0].second.ts, points[1].ts);
    assert_eq!(segs[1].first.ts, points[1].ts);
    assert_eq!(segs[1].second.ts, points[2].ts);
    assert_eq!(segs[0].track_no, 7);
    assert_eq!(segs[1].track_no, 7);
}

#[test]
fn fewer_than_two_points_give_no_segment() {
    assert_eq!(segments(&vec![], 0).len(), 0);
    assert_eq!(segments(&vec![point(1, None)], 0).len(), 0);
}

#[test]
fn segmented_mode_pairs_the_kept_points() {
    let points = vec![point(1, None), point(2, Some(250)), point(3, None), point(4, Some(5))];
    let lines = assemble(&points, Mode::Segmented, 3);
    assert_eq!(lines.len(), 2);
    assert_eq!(stamps(&lines[0].points), vec![points[0].ts.clone(), points[2].ts.clone()]);
    assert_eq!(stamps(&lines[1].points), vec![points[2].ts.clone(), points[3].ts.clone()]);
    assert_eq!(lines[0].track_no, 3);
    assert_eq!(lines[1].track_no, 3);
}

#[test]
fn whole_mode_gives_one_line() {
    let points = vec![point(1, None), point(2, Some(250)), point(3, None)];
    let lines = assemble(&points, Mode::Whole, 0);
    assert_eq!(lines.len(), 1);
    assert_eq!(stamps(&lines[0].points), vec![points[0].ts.clone(), points[2].ts.clone()]);
    let lines = assemble(&vec![], Mode::Whole, 0);
    assert_eq!(lines.len(), 1);
    assert_eq!(lines[0].points.len(), 0);
}

#[test]
fn lines_of_several_tracks_carry_their_track_index() {
    let tracks = vec![
        TrackData {
            user: "a".to_string(),
            device: "d".to_string(),
            date: "2025-02-19".to_string(),
            points: vec![point(1, None), point(2, None), point(3, None)],
        },
        TrackData {
            user: "b".to_string(),
            device: "e".to_string(),
            date: "2025-02-19".to_string(),
            points: vec![point(4, None), point(5, None)],
        },
    ];
    let lines = assemble_tracks(&tracks, Mode::Segmented);
    let numbers: Vec<usize> = lines.iter().map(|l| l.track_no).collect();
    assert_eq!(numbers, vec![0, 0, 1]);
    let lines = assemble_tracks(&tracks, Mode::Whole);
    let numbers: Vec<usize> = lines.iter().map(|l| l.track_no).collect();
    assert_eq!(numbers, vec![0, 1]);
    assert_eq!(lines[1].points.len(), 2);
}

#[test]
fn statistics_of_no_points() {
    let stats = track_stats(&vec![]);
    assert_eq!(stats.bbox, None);
    assert_eq!(stats.elevation, None);
    assert_eq!(stats.speed, None);
    assert_eq!(stats.elevation_gain, 0);
    assert_eq!(stats.legs, 0);
    assert_eq!(track_stats(&vec![point(1, None)]).legs, 0);
}

#[test]
fn bounding_box_holds_all_points() {
    let points = vec![point(5, None), point(-3, None), point(9, None)];
    assert_eq!(
        bounding_box(&points),
        Some(BoundingBox {
            min_x: Degrees { e7: 94000000 - 9 },
            min_y: Degrees { e7: 470000000 - 3 },
            max_x: Degrees { e7: 94000000 + 3 },
            max_y: Degrees { e7: 470000000 + 9 },
        })
    );
    assert_eq!(track_stats(&points).legs, 2);
}

#[test]
fn ranges_take_the_present_values() {
    let mut points = vec![point(1, None), point(2, None), point(3, None), point(4, None)];
    assert_eq!(elevation_range(&points), None);
    assert_eq!(speed_range(&points), None);
    points[0].elevation = Some(500);
    points[2].elevation = Some(480);
    points[3].elevation = Some(530);
    points[1].speed = Some(12);
    assert_eq!(elevation_range(&points), Some(Range { min: 480, max: 530 }));
    assert_eq!(speed_range(&points), Some(Range { min: 12, max: 12 }));
    assert_eq!(elevation_gain(&points), 50);
    points[1].elevation = Some(510);
    assert_eq!(elevation_gain(&points), 60);
}

#[test]
fn csv_row_leaves_absent_values_empty() {
    let p = GpsPoint {
        y: Degrees { e7: 470500000 },
        x: Degrees { e7: 94400000 },
        ts: "2025-02-19 06:46:54+00".to_string(),
        speed: None,
        elevation: None,
        accuracy: None,
        v_accuracy: None,
        cog: None,
        annotations: "{}".to_string(),
    };
    assert_eq!(csv::row(&p), "2025-02-19 06:46:54+00,47.0500000,9.4400000,,,,,\n");
}

#[test]
fn csv_document_has_header_and_rows() {
    let p = GpsPoint {
        y: Degrees { e7: -470500001 },
        x: Degrees { e7: 94400000 },
        ts: "2025-02-19 06:46:54+00".to_string(),
        speed: Some(12),
        elevation: Some(-5),
        accuracy: Some(250),
        v_accuracy: Some(3),
        cog: Some(270),
        annotations: "{}".to_string(),
    };
    assert_eq!(
        csv::render(&vec![p.copy(), p]),
        "timestamp,latitude,longitude,speed,elevation,accuracy,v_accuracy,cog\n\
         2025-02-19 06:46:54+00,-47.0500001,9.4400000,12,-5,250,3,270\n\
         2025-02-19 06:46:54+00,-47.0500001,9.4400000,12,-5,250,3,270\n"
    );
    assert_eq!(
        csv::render(&vec![]),
        "timestamp,latitude,longitude,speed,elevation,accuracy,v_accuracy,cog\n"
    );
}

#[test]
fn segmented_mode_on_three_points() {
    let points = vec![point(1, None), point(2, None), point(3, None)];
    let lines = assemble(&points, Mode::Segmented, 5);
    assert_eq!(lines.len(), 2);
    assert_eq!(stamps(&lines[0].points), vec![points[0].ts.clone(), points[1].ts.clone()]);
    assert_eq!(stamps(&lines[1].points), vec![points[1].ts.clone(), points[2].ts.clone()]);
    assert_eq!((lines[0].track_no, lines[1].track_no), (5, 5));
}
