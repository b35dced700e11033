use image::{Rgba, RgbaImage};

use snapbar::detector::analysis::AnalysisFrame;
use snapbar::detector::color::Color;
use snapbar::detector::exclusion::{covered_length, trim_excluded_edge_regions, Span};
use snapbar::detector::margins::{background_run, line_matches_background, Margin};
use snapbar::detector::mask::{close_short_gaps, connected_components, Component, Mask};
use snapbar::detector::picture::{Axis, Picture};
use snapbar::detector::projection::{
    best_dense_run, detect_projection_candidate, smooth_counts, ContentCandidate,
};
use snapbar::detector::select::{
    choose_visual_candidate, is_plausible_rect, score_candidate, select_content_rect,
    specificity_bonus,
};
use snapbar::detector::separator::{detect_separator, separator_side, SeparatorSide};
use snapbar::detector::teams::{crop_by_triple_separator, detect_teams_candidate};
use snapbar::detector::theme::estimate_theme_background;
use snapbar::detector::visual::detect_component_candidate;
use snapbar::geometry::PixelRect;
use snapbar::single::{from_int, ratio, Single};

fn picture(image: &RgbaImage) -> Picture {
    Picture::from_raw(image.width(), image.height(), image.as_raw().clone())
        .expect("the buffer has the size of the image")
}

fn fill(image: &mut RgbaImage, rect: PixelRect, color: [u8; 3]) {
    for y in rect.y..rect.bottom().min(image.height()) {
        for x in rect.x..rect.right().min(image.width()) {
            image.put_pixel(x, y, Rgba([color[0], color[1], color[2], 255]));
        }
    }
}

fn number(value: Single) -> f32 {
    let size = value.mantissa as f32 * 2.0_f32.powi(value.exponent as i32);
    if value.negative {
        -size
    } else {
        size
    }
}

#[test]
fn pictures_need_buffers_of_their_size() {
    assert!(Picture::from_raw(2, 2, vec![0; 16]).is_some());
    assert!(Picture::from_raw(2, 2, vec![0; 15]).is_none());
}

#[test]
fn analysis_works_on_a_small_copy() {
    let mut image = RgbaImage::from_pixel(1280, 720, Rgba([20, 20, 20, 255]));
    fill(&mut image, PixelRect::new(320, 180, 640, 360), [220, 220, 220]);
    let frame = AnalysisFrame::new(&picture(&image)).expect("the picture is large enough");
    assert_eq!((frame.width, frame.height, frame.threshold), (320, 180, 24));
    assert_eq!(frame.distance.len(), 320 * 180);
    assert!(frame.active.is_on(160, 90));
    assert_eq!(frame.distance[90 * 320 + 160], 200);
    assert!(!frame.active.is_on(40, 90));
    assert_eq!(frame.distance[90 * 320 + 40], 0);
    assert!(!frame.active.is_on(0, 0));

    let same = RgbaImage::from_fn(320, 180, |x, y| {
        Rgba([(x % 7) as u8 * 30, (y % 5) as u8 * 40, 9, 255])
    });
    let direct = AnalysisFrame::from_small(&picture(&same));
    let copied = AnalysisFrame::new(&picture(&same)).expect("the picture is large enough");
    assert_eq!(direct.distance, copied.distance);
    assert_eq!(direct.active.cells, copied.active.cells);

    let tiny = RgbaImage::from_pixel(159, 720, Rgba([20, 20, 20, 255]));
    assert!(AnalysisFrame::new(&picture(&tiny)).is_none());
}

#[test]
fn small_copies_are_those_of_the_triangle_filter() {
    let image = RgbaImage::from_fn(960, 540, |x, y| {
        Rgba([(x / 4) as u8, (y / 3) as u8, ((x + y) / 6) as u8, 255])
    });
    let small =
        image::imageops::resize(&image, 320, 180, image::imageops::FilterType::Triangle);
    let expected = AnalysisFrame::from_small(&picture(&small));
    let found = AnalysisFrame::new(&picture(&image)).expect("the picture is large enough");
    assert_eq!(found.distance, expected.distance);
    assert_eq!(found.active.cells, expected.active.cells);
}

#[test]
fn short_gaps_are_closed() {
    let mut flags = vec![false, true, false, false, true, false, false, false, true, false];
    close_short_gaps(&mut flags, 2);
    assert_eq!(
        flags,
        vec![false, true, true, true, true, false, false, false, true, false]
    );
}

#[test]
fn components_are_listed_by_their_first_cells() {
    let rows = ["##..#", ".#..#", "....#", "#...."];
    let cells: Vec<bool> = rows.iter().flat_map(|row| row.chars().map(|c| c == '#')).collect();
    let mask = Mask { width: 5, height: 4, cells };
    assert_eq!(
        connected_components(&mask),
        vec![
            Component { min_x: 0, min_y: 0, max_x: 1, max_y: 1, pixel_count: 3 },
            Component { min_x: 4, min_y: 0, max_x: 4, max_y: 2, pixel_count: 3 },
            Component { min_x: 0, min_y: 3, max_x: 0, max_y: 3, pixel_count: 1 },
        ]
    );
}

#[test]
fn counts_are_smoothed_by_their_neighbours() {
    let counts: Vec<u32> = vec![3, 0, 7, 100, 41];
    let found: Vec<f32> = smooth_counts(&counts, 1).into_iter().map(number).collect();
    assert_eq!(found, vec![1.5, 10.0 / 3.0, 107.0 / 3.0, 148.0 / 3.0, 70.5]);
    assert!(smooth_counts(&Vec::new(), 2).is_empty());
}

#[test]
fn the_longest_dense_run_wins() {
    let values: Vec<Single> = [9, 9, 9, 0, 0, 0, 9, 0, 9, 9, 9, 9, 0, 0, 0, 0]
        .into_iter()
        .map(from_int)
        .collect();
    let run = best_dense_run(&values, 10, ratio(5, 10), 3).expect("two runs are long enough");
    assert_eq!((run.start, run.end), (6, 12));
    assert_eq!(number(run.mean_ratio), 45.0 / 60.0);
    assert!(best_dense_run(&values, 10, ratio(5, 10), 7).is_none());
}

#[test]
fn covered_lines_are_counted_once() {
    let span = |start, end| Span { start, end };
    assert_eq!(covered_length(&Vec::new()), 0);
    assert_eq!(covered_length(&vec![span(5, 9)]), 4);
    assert_eq!(covered_length(&vec![span(8, 12), span(5, 9), span(20, 22)]), 9);
    assert_eq!(covered_length(&vec![span(0, u32::MAX), span(3, 4)]), u32::MAX);
}

#[test]
fn exclusions_at_the_edges_are_cut_off() {
    let rect = PixelRect::new(100, 70, 1400, 760);
    assert_eq!(trim_excluded_edge_regions(rect, &Vec::new()), rect);
    assert_eq!(
        trim_excluded_edge_regions(rect, &vec![PixelRect::new(0, 0, 300, 900)]),
        PixelRect::new(300, 70, 1200, 760)
    );
    assert_eq!(
        trim_excluded_edge_regions(rect, &vec![PixelRect::new(100, 70, 1400, 100)]),
        PixelRect::new(100, 170, 1400, 660)
    );
    assert_eq!(
        trim_excluded_edge_regions(rect, &vec![PixelRect::new(100, 730, 1400, 100)]),
        PixelRect::new(100, 70, 1400, 660)
    );
    let distant = vec![PixelRect::new(0, 0, 90, 60), PixelRect::new(1600, 0, 50, 900)];
    assert_eq!(trim_excluded_edge_regions(rect, &distant), rect);
    let both = vec![PixelRect::new(0, 0, 500, 900), PixelRect::new(1100, 0, 500, 900)];
    assert_eq!(trim_excluded_edge_regions(rect, &both), rect);
}

#[test]
fn margins_are_read_line_by_line() {
    let mut image = RgbaImage::from_pixel(300, 200, Rgba([0x47, 0x47, 0x47, 255]));
    fill(&mut image, PixelRect::new(20, 30, 260, 150), [250, 10, 10]);
    let frame = picture(&image);
    let all = PixelRect::new(0, 0, 300, 200);
    let gray = Color::new(0x47, 0x47, 0x47);
    assert!(line_matches_background(&frame, all, Axis::Horizontal, 29, Margin::Stage(gray)));
    assert!(!line_matches_background(&frame, all, Axis::Horizontal, 30, Margin::Stage(gray)));
    let run = |axis, from_start| background_run(&frame, all, axis, from_start, Margin::Uniform(gray), 100);
    assert_eq!(run(Axis::Horizontal, true), 30);
    assert_eq!(run(Axis::Horizontal, false), 20);
    assert_eq!(run(Axis::Vertical, true), 20);
    assert_eq!(run(Axis::Vertical, false), 20);
}

#[test]
fn theme_background_is_the_median_gray() {
    let image = RgbaImage::from_pixel(400, 300, Rgba([0x49, 0x49, 0x49, 255]));
    let all = PixelRect::new(0, 0, 400, 300);
    let found = estimate_theme_background(&picture(&image), all).expect("a gray is known");
    assert_eq!(found.gray, 0x49);
    let expected = (1.0_f32 / 0.28).min(1.0) * 0.64 + (1.0 - 2.0_f32 / 30.0).clamp(0.0, 1.0) * 0.36;
    assert_eq!(number(found.confidence), expected.min(1.0));

    let light = RgbaImage::from_pixel(400, 300, Rgba([0xb0, 0xb0, 0xb0, 255]));
    let found = estimate_theme_background(&picture(&light), all).expect("a gray is known");
    assert_eq!(found.gray, 0xb0);

    let other = RgbaImage::from_pixel(400, 300, Rgba([255, 255, 255, 255]));
    assert!(estimate_theme_background(&picture(&other), all).is_none());
}

#[test]
fn separators_have_a_side() {
    let rect = PixelRect::new(0, 0, 1600, 900);
    let side = |axis, start, end| separator_side(rect, axis, start, end).map(|found| found.0);
    assert_eq!(side(Axis::Vertical, 1240, 1246), Some(SeparatorSide::Right));
    assert_eq!(side(Axis::Vertical, 300, 306), Some(SeparatorSide::Left));
    assert_eq!(side(Axis::Vertical, 797, 803), None);
    assert_eq!(side(Axis::Horizontal, 200, 206), Some(SeparatorSide::Top));
    assert_eq!(side(Axis::Horizontal, 800, 806), None);
    let (_, score) = separator_side(rect, Axis::Vertical, 1240, 1246).expect("it has a side");
    let center = (1240.0_f32 + 1246.0) / 2.0 / 1600.0;
    assert_eq!(number(score), 0.72 + (center - 0.54) * 0.25);
}

#[test]
fn a_separator_parts_the_stage_from_the_participants() {
    let mut image = RgbaImage::from_pixel(1600, 900, Rgba([0x47, 0x47, 0x47, 255]));
    fill(&mut image, PixelRect::new(1240, 0, 2, 900), [0xa8, 0xa8, 0xa8]);
    fill(&mut image, PixelRect::new(1242, 0, 2, 900), [0x9b, 0x9b, 0x9b]);
    fill(&mut image, PixelRect::new(1244, 0, 2, 900), [0xa8, 0xa8, 0xa8]);
    let frame = picture(&image);
    let all = PixelRect::new(0, 0, 1600, 900);
    let line = detect_separator(&frame, all, Axis::Vertical).expect("a separator is there");
    assert_eq!((line.start, line.end, line.side), (1240, 1246, SeparatorSide::Right));
    assert!(detect_separator(&frame, all, Axis::Horizontal).is_none());
    let stage = crop_by_triple_separator(&frame, all);
    assert_eq!(stage.rect, PixelRect::new(0, 0, 1240, 900));
    assert_eq!(stage.confidence, line.score);
    assert!(detect_teams_candidate(&frame, PixelRect::new(0, 0, 159, 900)).is_none());
    assert!(detect_teams_candidate(&frame, PixelRect::new(1, 0, 1600, 900)).is_none());
}

#[test]
fn a_component_in_the_middle_is_a_candidate() {
    let mut image = RgbaImage::from_pixel(1280, 720, Rgba([20, 20, 20, 255]));
    let content = PixelRect::new(320, 180, 640, 360);
    fill(&mut image, content, [220, 220, 220]);
    let frame = picture(&image);
    let analysis = AnalysisFrame::new(&frame).expect("the picture is large enough");
    let component = detect_component_candidate(&frame, &analysis).expect("one component");
    assert_eq!(component.rect, content);
    let projection = detect_projection_candidate(&frame, &analysis).expect("one projection");
    assert_eq!(projection.rect, PixelRect::new(320, 180, 640, 372));
}

#[test]
fn plausible_rects_are_large_parts_of_the_picture() {
    let plausible = |x, y, width, height| {
        is_plausible_rect(PixelRect::new(x, y, width, height), 1280, 720)
    };
    assert!(plausible(100, 80, 900, 500));
    assert!(!plausible(400, 80, 900, 500));
    assert!(!plausible(0, 0, 1280, 720));
    assert!(!plausible(0, 0, 181, 600));
    assert!(!plausible(0, 0, 200, 719));
    assert!(!is_plausible_rect(PixelRect::new(0, 0, 100, 100), 0, 720));
    assert!(!is_plausible_rect(PixelRect::new(u32::MAX, 0, 400, 300), 1280, 720));
}

#[test]
fn bonus_is_that_of_single_precision() {
    for step in 1..100_u32 {
        let rect = PixelRect::new(0, 0, step * 12, step * 7);
        let share = (u64::from(rect.width) * u64::from(rect.height)) as f32 / 921_600.0;
        let expected = if (0.16..=0.82).contains(&share) {
            0.08 * (1.0 - ((share - 0.48_f32).abs() / 0.48).min(1.0))
        } else if share > 0.96 {
            -0.10
        } else {
            0.0
        };
        assert_eq!(number(specificity_bonus(rect, 1280, 720)), expected);
    }
    assert_eq!(number(specificity_bonus(PixelRect::new(0, 0, 9, 9), 0, 720)), 0.0);
}

#[test]
fn overlapping_candidates_support_each_other() {
    let image = RgbaImage::from_pixel(1280, 720, Rgba([24, 24, 28, 255]));
    let frame = picture(&image);
    let first = ContentCandidate::new(PixelRect::new(100, 80, 900, 500), ratio(7, 10));
    let inner = ContentCandidate::new(PixelRect::new(110, 90, 800, 450), ratio(6, 10));
    let far = ContentCandidate::new(PixelRect::new(1000, 600, 200, 100), ratio(9, 10));
    let candidates = vec![first, inner, far, ContentCandidate::exclusion(inner.rect)];
    let bonus = number(specificity_bonus(first.rect, 1280, 720));
    let score = number(score_candidate(&frame, &candidates, first, None));
    assert_eq!(score, 0.7_f32 + bonus + 0.12_f32 * 1.0);
    let seen = ContentCandidate::new(first.rect, ratio(9, 10));
    let supported = number(score_candidate(&frame, &candidates, first, Some(seen)));
    assert_eq!(supported, score + 0.12_f32 * 0.9 * 1.0);
}

#[test]
fn the_stage_wins_where_it_is_more_specific() {
    let visual = ContentCandidate::new(PixelRect::new(0, 0, 1000, 600), ratio(9, 10));
    let inside = ContentCandidate::new(PixelRect::new(0, 0, 900, 600), ratio(8, 10));
    let beside = ContentCandidate::new(PixelRect::new(900, 0, 900, 600), ratio(8, 10));
    assert_eq!(choose_visual_candidate(Some(visual), Some(inside)), Some(inside));
    assert_eq!(choose_visual_candidate(Some(visual), Some(beside)), Some(visual));
    assert_eq!(choose_visual_candidate(None, Some(beside)), Some(beside));
    assert_eq!(choose_visual_candidate(Some(visual), None), Some(visual));
    assert_eq!(choose_visual_candidate(None, None), None);
}

#[test]
fn unsure_candidates_and_exclusions_are_not_chosen() {
    let image = RgbaImage::from_pixel(1280, 720, Rgba([24, 24, 28, 255]));
    let frame = picture(&image);
    let rect = PixelRect::new(120, 80, 960, 540);
    let unsure = ContentCandidate::new(rect, ratio(54, 100));
    let excluded = ContentCandidate::exclusion(rect);
    assert_eq!(select_content_rect(&frame, &vec![unsure, excluded], false), None);
    assert_eq!(ContentCandidate::new(rect, from_int(7)).confidence, from_int(1));
    assert_eq!(ContentCandidate::new(rect, ratio(1, 2).neg()).confidence, from_int(0));
}
