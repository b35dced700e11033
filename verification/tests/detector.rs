use image::{Rgba, RgbaImage};

use snapbar::detector::margins::refine_uniform_margins;
use snapbar::detector::picture::Picture;
use snapbar::detector::projection::ContentCandidate;
use snapbar::detector::select::select_content_rect;
use snapbar::detector::teams::refine_teams_rect;
use snapbar::detector::visual::detect_visual_candidate;
use snapbar::geometry::PixelRect;
use snapbar::single::ratio;

fn picture(image: &RgbaImage) -> Picture {
    Picture::from_raw(image.width(), image.height(), image.as_raw().clone())
        .expect("the buffer has the size of the image")
}



#[test]
fn semantic_candidate_is_used_for_dark_content() {
    let image = RgbaImage::from_pixel(1280, 720, Rgba([18, 18, 20, 255]));
    let expected = PixelRect::new(120, 80, 960, 540);
    let detected = select_content_rect(
        &picture(&image),
        &vec![ContentCandidate::new(expected, ratio(92, 100))],
        false,
    );

    assert_eq!(detected, Some(expected));
}

#[test]
fn participants_panel_is_removed_from_semantic_stage() {
    let image = RgbaImage::from_pixel(1600, 900, Rgba([24, 24, 28, 255]));
    let stage = PixelRect::new(100, 70, 1400, 760);
    let participants = PixelRect::new(1220, 80, 280, 740);
    let detected = select_content_rect(
        &picture(&image),
        &vec![
            ContentCandidate::new(stage, ratio(91, 100)),
            ContentCandidate::exclusion(participants),
        ],
        false,
    )
    .expect("shared content should remain");

    assert_eq!(detected, PixelRect::new(100, 70, 1120, 760));
}

#[test]
fn stacked_participant_tiles_form_one_excluded_side_band() {
    let image = RgbaImage::from_pixel(1600, 900, Rgba([24, 24, 28, 255]));
    let stage = PixelRect::new(100, 70, 1400, 760);
    let detected = select_content_rect(
        &picture(&image),
        &vec![
            ContentCandidate::new(stage, ratio(91, 100)),
            ContentCandidate::exclusion(PixelRect::new(1240, 90, 260, 220)),
            ContentCandidate::exclusion(PixelRect::new(1240, 320, 260, 220)),
            ContentCandidate::exclusion(PixelRect::new(1240, 550, 260, 240)),
        ],
        false,
    )
    .expect("shared content should remain");

    assert_eq!(detected, PixelRect::new(100, 70, 1140, 760));
}

#[test]
fn isolated_negative_button_does_not_crop_the_stage() {
    let image = RgbaImage::from_pixel(1600, 900, Rgba([24, 24, 28, 255]));
    let stage = PixelRect::new(100, 70, 1400, 760);
    let detected = select_content_rect(
        &picture(&image),
        &vec![
            ContentCandidate::new(stage, ratio(91, 100)),
            ContentCandidate::exclusion(PixelRect::new(1420, 760, 80, 70)),
        ],
        false,
    );

    assert_eq!(detected, Some(stage));
}

#[test]
fn visual_detection_scales_with_window_resolution() {
    for (width, height) in [(800, 600), (1920, 1080), (480, 320)] {
        let expected = PixelRect::new(
            width * 8 / 100,
            height * 12 / 100,
            width * 72 / 100,
            height * 72 / 100,
        );
        let image = mock_teams_window(width, height, expected);
        let detected = select_content_rect(&picture(&image), &Vec::new(), true)
            .expect("content should be detected");
        let intersection = detected
            .intersection(expected)
            .expect("detected content should overlap the expected region");
        let union = detected.area() + expected.area() - intersection.area();
        let intersection_over_union = intersection.area() as f32 / union as f32;

        assert!(
            intersection_over_union >= 0.86,
            "detected={detected:?}, expected={expected:?}, iou={intersection_over_union}"
        );
    }
}

#[test]
fn ambiguous_uniform_frame_fails_closed() {
    let image = RgbaImage::from_pixel(1280, 720, Rgba([24, 24, 28, 255]));

    assert_eq!(select_content_rect(&picture(&image), &Vec::new(), true), None);
}

#[test]
fn semantic_rect_trims_matching_letterbox_bands() {
    let mut image = RgbaImage::from_pixel(1000, 700, Rgba([24, 24, 28, 255]));
    fill_rect(
        &mut image,
        PixelRect::new(100, 100, 800, 500),
        Rgba([230, 230, 232, 255]),
    );
    fill_rect(
        &mut image,
        PixelRect::new(100, 100, 800, 40),
        Rgba([24, 24, 28, 255]),
    );
    fill_rect(
        &mut image,
        PixelRect::new(100, 560, 800, 40),
        Rgba([24, 24, 28, 255]),
    );

    let detected = select_content_rect(
        &picture(&image),
        &vec![ContentCandidate::new(
            PixelRect::new(100, 100, 800, 500),
            ratio(95, 100),
        )],
        false,
    )
    .expect("semantic content should be detected");

    assert_eq!(detected, PixelRect::new(100, 140, 800, 420));
}

#[test]
fn strict_mode_rejects_visual_only_detection() {
    let expected = PixelRect::new(80, 72, 720, 432);
    let image = mock_teams_window(1000, 600, expected);

    assert_eq!(select_content_rect(&picture(&image), &Vec::new(), false), None);
}

fn mock_teams_window(width: u32, height: u32, content: PixelRect) -> RgbaImage {
    let mut image = RgbaImage::from_pixel(width, height, Rgba([28, 28, 32, 255]));
    fill_rect(
        &mut image,
        PixelRect::new(0, 0, width, height * 7 / 100),
        Rgba([35, 35, 39, 255]),
    );
    fill_rect(
        &mut image,
        PixelRect::new(0, height * 91 / 100, width, height * 9 / 100),
        Rgba([33, 33, 37, 255]),
    );
    fill_rect(&mut image, content, Rgba([235, 235, 238, 255]));

    let side_x = width * 82 / 100;
    fill_rect(
        &mut image,
        PixelRect::new(side_x, height / 10, width * 15 / 100, height * 78 / 100),
        Rgba([66, 66, 72, 255]),
    );
    let marker_width = (content.width / 10).max(4);
    let marker_height = (content.height / 18).max(3);
    for row in 0..3 {
        for column in 0..4 {
            let x = content.x + content.width * (column * 2 + 1) / 10;
            let y = content.y + content.height * (row * 2 + 1) / 7;
            fill_rect(
                &mut image,
                PixelRect::new(x, y, marker_width, marker_height),
                Rgba([80 + column as u8 * 20, 110 + row as u8 * 20, 160, 255]),
            );
        }
    }
    image
}




#[test]
fn dark_vertical_triple_border_excludes_participants() {
    let mut image = RgbaImage::from_pixel(1600, 900, Rgba([0x47, 0x47, 0x47, 255]));
    let shared = PixelRect::new(90, 72, 1120, 792);
    draw_dark_window(&mut image, shared);
    draw_vertical_separator(&mut image, 1240, 0xa8, 0x9b);
    draw_participant_column(&mut image, 1250, 330);

    let detected = refine_teams_rect(&picture(&image), PixelRect::new(0, 0, 1600, 900));
    assert!(detected.x >= 75 && detected.x <= 105, "{detected:?}");
    assert!(
        detected.right() >= 1190 && detected.right() <= 1225,
        "{detected:?}"
    );
    assert!(detected.bottom() >= 850, "{detected:?}");
}

#[test]
fn light_horizontal_triple_border_excludes_top_strip() {
    let mut image = RgbaImage::from_pixel(1440, 900, Rgba([0xb2, 0xb2, 0xb2, 255]));
    for column in 0..3 {
        fill_rect(
            &mut image,
            PixelRect::new(220 + column * 350, 24, 300, 130),
            Rgba([185, 184, 186, 255]),
        );
    }
    draw_horizontal_separator(&mut image, 170, 0x72, 0x60);
    let shared = PixelRect::new(120, 184, 1200, 690);
    draw_light_window(&mut image, shared);

    let detected = refine_teams_rect(&picture(&image), PixelRect::new(0, 0, 1440, 900));
    assert!(detected.y >= 175 && detected.y <= 195, "{detected:?}");
    assert!(detected.x >= 105 && detected.x <= 135, "{detected:?}");
    assert!(detected.bottom() >= 860, "{detected:?}");
}

#[test]
fn non_fullscreen_dark_window_uses_known_background_margin() {
    let mut image = RgbaImage::from_pixel(1280, 720, Rgba([0x47, 0x47, 0x47, 255]));
    let shared = PixelRect::new(170, 90, 940, 600);
    draw_dark_window(&mut image, shared);

    let detected = refine_teams_rect(&picture(&image), PixelRect::new(0, 0, 1280, 720));
    assert_eq!(detected, shared);
}

#[test]
fn shared_taskbar_is_not_trimmed_as_teams_background() {
    let mut image = RgbaImage::from_pixel(1280, 720, Rgba([0x47, 0x47, 0x47, 255]));
    let shared = PixelRect::new(140, 70, 1000, 620);
    draw_dark_window(&mut image, shared);

    let detected = refine_teams_rect(&picture(&image), PixelRect::new(0, 0, 1280, 720));
    assert_eq!(detected.bottom(), shared.bottom());
}

#[test]
fn short_internal_three_tone_rule_is_ignored() {
    let mut image = RgbaImage::from_pixel(1280, 720, Rgba([0x47, 0x47, 0x47, 255]));
    let shared = PixelRect::new(120, 70, 1040, 620);
    draw_dark_window(&mut image, shared);
    fill_rect(
        &mut image,
        PixelRect::new(300, 280, 240, 2),
        Rgba([0xa8, 0xa8, 0xa8, 255]),
    );
    fill_rect(
        &mut image,
        PixelRect::new(300, 282, 240, 2),
        Rgba([0x9b, 0x9b, 0x9b, 255]),
    );
    fill_rect(
        &mut image,
        PixelRect::new(300, 284, 240, 2),
        Rgba([0xa8, 0xa8, 0xa8, 255]),
    );

    let detected = refine_teams_rect(&picture(&image), PixelRect::new(0, 0, 1280, 720));
    assert_eq!(detected, shared);
}

fn draw_vertical_separator(image: &mut RgbaImage, x: u32, outer: u8, inner: u8) {
    let height = image.height();
    fill_rect(
        image,
        PixelRect::new(x, 0, 2, height),
        Rgba([outer, outer, outer, 255]),
    );
    fill_rect(
        image,
        PixelRect::new(x + 2, 0, 2, height),
        Rgba([inner, inner, inner, 255]),
    );
    fill_rect(
        image,
        PixelRect::new(x + 4, 0, 2, height),
        Rgba([outer, outer, outer, 255]),
    );
}

fn draw_horizontal_separator(image: &mut RgbaImage, y: u32, outer: u8, inner: u8) {
    let width = image.width();
    fill_rect(
        image,
        PixelRect::new(0, y, width, 2),
        Rgba([outer, outer, outer, 255]),
    );
    fill_rect(
        image,
        PixelRect::new(0, y + 2, width, 2),
        Rgba([inner, inner, inner, 255]),
    );
    fill_rect(
        image,
        PixelRect::new(0, y + 4, width, 2),
        Rgba([outer, outer, outer, 255]),
    );
}

fn draw_dark_window(image: &mut RgbaImage, rect: PixelRect) {
    fill_rect(image, rect, Rgba([38, 38, 40, 255]));
    fill_rect(
        image,
        PixelRect::new(rect.x, rect.y, rect.width, 34),
        Rgba([54, 54, 57, 255]),
    );
    fill_rect(
        image,
        PixelRect::new(rect.x + 1, rect.y + 35, rect.width - 2, rect.height - 76),
        Rgba([66, 66, 68, 255]),
    );
    draw_taskbar(
        image,
        PixelRect::new(rect.x, rect.bottom() - 40, rect.width, 40),
    );
}

fn draw_light_window(image: &mut RgbaImage, rect: PixelRect) {
    fill_rect(image, rect, Rgba([247, 247, 248, 255]));
    fill_rect(
        image,
        PixelRect::new(rect.x, rect.y, rect.width, 36),
        Rgba([231, 234, 238, 255]),
    );
    fill_rect(
        image,
        PixelRect::new(rect.x + 1, rect.y + 37, rect.width - 2, rect.height - 82),
        Rgba([250, 250, 251, 255]),
    );
    draw_taskbar(
        image,
        PixelRect::new(rect.x, rect.bottom() - 44, rect.width, 44),
    );
}

fn draw_taskbar(image: &mut RgbaImage, rect: PixelRect) {
    fill_rect(image, rect, Rgba([31, 31, 34, 255]));
    let icon_size = (rect.height / 2).max(8);
    let start = rect.x + rect.width / 3;
    for index in 0..7 {
        let x = start + index * (icon_size + 8);
        fill_rect(
            image,
            PixelRect::new(
                x,
                rect.y + (rect.height - icon_size) / 2,
                icon_size,
                icon_size,
            ),
            Rgba([70 + index as u8 * 18, 120, 205, 255]),
        );
    }
}

fn draw_participant_column(image: &mut RgbaImage, x: u32, width: u32) {
    for row in 0..3 {
        let tile = PixelRect::new(x + 18, 70 + row * 260, width - 36, 220);
        fill_rect(image, tile, Rgba([61, 58 + row as u8 * 8, 62, 255]));
        fill_rect(
            image,
            PixelRect::new(tile.x + tile.width / 2 - 45, tile.y + 45, 90, 90),
            Rgba([120 + row as u8 * 18, 105, 95, 255]),
        );
    }
}




#[test]
fn projection_removes_top_participant_strip_and_keeps_taskbar() {
    let mut image = RgbaImage::from_pixel(1600, 900, Rgba([28, 28, 31, 255]));
    fill_rect(
        &mut image,
        PixelRect::new(0, 180, 1600, 720),
        Rgba([238, 240, 244, 255]),
    );
    fill_rect(
        &mut image,
        PixelRect::new(0, 860, 1600, 40),
        Rgba([35, 35, 38, 255]),
    );
    add_taskbar_icons(&mut image, PixelRect::new(0, 860, 1600, 40));
    for column in 0..3 {
        fill_rect(
            &mut image,
            PixelRect::new(250 + column * 360, 20, 320, 140),
            Rgba([70 + column as u8 * 18, 62, 66, 255]),
        );
    }

    let detected = refine_uniform_margins(&picture(&image), PixelRect::new(0, 0, 1600, 900));
    assert!(detected.y >= 160 && detected.y <= 200, "{detected:?}");
    assert!(detected.width >= 1520, "{detected:?}");
    assert_eq!(detected.bottom(), 900, "{detected:?}");
}

#[test]
fn tiles_close_to_the_shared_surface_are_cut_off_with_their_strip() {
    let mut image = RgbaImage::from_pixel(1600, 900, Rgba([28, 28, 31, 255]));
    fill_rect(
        &mut image,
        PixelRect::new(0, 180, 1600, 720),
        Rgba([238, 240, 244, 255]),
    );
    fill_rect(
        &mut image,
        PixelRect::new(0, 860, 1600, 40),
        Rgba([35, 35, 38, 255]),
    );
    add_taskbar_icons(&mut image, PixelRect::new(0, 860, 1600, 40));
    for column in 0..3 {
        fill_rect(
            &mut image,
            PixelRect::new(250 + column * 360, 20, 320, 152),
            Rgba([70 + column as u8 * 18, 62, 66, 255]),
        );
    }

    let detected = refine_uniform_margins(&picture(&image), PixelRect::new(0, 0, 1600, 900));
    assert!(detected.y >= 160 && detected.y <= 200, "{detected:?}");
    assert_eq!(detected.bottom(), 900, "{detected:?}");
}

#[test]
fn light_tiles_close_to_the_shared_surface_are_cut_off_with_their_strip() {
    let mut image = RgbaImage::from_pixel(1600, 900, Rgba([244, 245, 247, 255]));
    fill_rect(
        &mut image,
        PixelRect::new(0, 180, 1600, 720),
        Rgba([15, 92, 168, 255]),
    );
    fill_rect(
        &mut image,
        PixelRect::new(0, 860, 1600, 40),
        Rgba([238, 239, 242, 255]),
    );
    add_taskbar_icons(&mut image, PixelRect::new(0, 860, 1600, 40));
    for column in 0..3 {
        fill_rect(
            &mut image,
            PixelRect::new(250 + column * 360, 20, 320, 152),
            Rgba([150 + column as u8 * 18, 120, 110, 255]),
        );
    }

    let detected = refine_uniform_margins(&picture(&image), PixelRect::new(0, 0, 1600, 900));
    assert!(detected.y >= 160 && detected.y <= 200, "{detected:?}");
    assert_eq!(detected.bottom(), 900, "{detected:?}");
}

#[test]
fn large_side_participant_strip_is_removed_and_taskbar_is_kept() {
    let mut image = RgbaImage::from_pixel(2048, 740, Rgba([28, 28, 31, 255]));
    let shared = PixelRect::new(286, 0, 1198, 740);
    fill_rect(&mut image, shared, Rgba([238, 240, 244, 255]));
    fill_rect(
        &mut image,
        PixelRect::new(shared.x, 300, shared.width, 408),
        Rgba([9, 54, 113, 255]),
    );
    fill_rect(
        &mut image,
        PixelRect::new(shared.x, 708, shared.width, 32),
        Rgba([35, 35, 38, 255]),
    );
    add_taskbar_icons(&mut image, PixelRect::new(shared.x, 708, shared.width, 32));
    for row in 0..3 {
        fill_rect(
            &mut image,
            PixelRect::new(1772, 140 + row * 155, 276, 150),
            Rgba([62, 58 + row as u8 * 10, 60, 255]),
        );
        fill_rect(
            &mut image,
            PixelRect::new(1870, 175 + row * 155, 72, 72),
            Rgba([145, 105, 92, 255]),
        );
    }

    let detected = refine_uniform_margins(&picture(&image), PixelRect::new(0, 0, 2048, 740));
    assert!(detected.x >= 270 && detected.x <= 300, "{detected:?}");
    assert!(
        detected.right() >= 1465 && detected.right() <= 1500,
        "{detected:?}"
    );
    assert_eq!(detected.y, 0, "{detected:?}");
    assert_eq!(detected.bottom(), 740, "{detected:?}");
}

#[test]
fn projection_stops_after_taskbar_before_teams_margin() {
    let mut image = RgbaImage::from_pixel(1600, 900, Rgba([28, 28, 31, 255]));
    let shared = PixelRect::new(160, 70, 1080, 760);
    fill_rect(&mut image, shared, Rgba([238, 240, 244, 255]));
    fill_rect(
        &mut image,
        PixelRect::new(160, 790, 1080, 40),
        Rgba([35, 35, 38, 255]),
    );
    add_taskbar_icons(&mut image, PixelRect::new(160, 790, 1080, 40));
    for row in 0..3 {
        fill_rect(
            &mut image,
            PixelRect::new(1320, 90 + row * 245, 240, 220),
            Rgba([68, 62 + row as u8 * 12, 66, 255]),
        );
    }

    let candidate = detect_visual_candidate(&picture(&image)).expect("shared surface should be found");
    assert!(
        candidate.rect.x >= 140 && candidate.rect.x <= 180,
        "{candidate:?}"
    );
    assert!(candidate.rect.right() <= 1260, "{candidate:?}");
    assert!(candidate.rect.bottom() >= 815, "{candidate:?}");
    assert!(candidate.rect.bottom() <= 845, "{candidate:?}");
}

#[test]
fn light_mode_side_participant_strip_is_removed_and_taskbar_is_kept() {
    let mut image = RgbaImage::from_pixel(1920, 900, Rgba([244, 245, 247, 255]));
    let shared = PixelRect::new(180, 0, 1240, 900);
    fill_rect(&mut image, shared, Rgba([252, 252, 253, 255]));
    fill_rect(
        &mut image,
        PixelRect::new(shared.x, 70, shared.width, 78),
        Rgba([234, 239, 248, 255]),
    );
    fill_rect(
        &mut image,
        PixelRect::new(shared.x, 148, shared.width, 702),
        Rgba([15, 92, 168, 255]),
    );
    fill_rect(
        &mut image,
        PixelRect::new(shared.x, 850, shared.width, 50),
        Rgba([238, 239, 242, 255]),
    );
    add_taskbar_icons(&mut image, PixelRect::new(shared.x, 850, shared.width, 50));

    for row in 0..3 {
        let tile = PixelRect::new(1450, 90 + row * 250, 430, 220);
        fill_rect(&mut image, tile, Rgba([249, 249, 250, 255]));
        fill_rect(
            &mut image,
            PixelRect::new(tile.x, tile.y, tile.width, 2),
            Rgba([218, 219, 224, 255]),
        );
        fill_rect(
            &mut image,
            PixelRect::new(tile.x + 165, tile.y + 54, 100, 100),
            Rgba([112 + row as u8 * 18, 145, 190, 255]),
        );
        fill_rect(
            &mut image,
            PixelRect::new(tile.x + 24, tile.bottom() - 32, 180, 10),
            Rgba([88, 89, 94, 255]),
        );
    }

    let detected = refine_uniform_margins(&picture(&image), PixelRect::new(0, 0, 1920, 900));
    assert!(detected.x >= 165 && detected.x <= 195, "{detected:?}");
    assert!(
        detected.right() >= 1400 && detected.right() <= 1440,
        "{detected:?}"
    );
    assert_eq!(detected.y, 0, "{detected:?}");
    assert_eq!(detected.bottom(), 900, "{detected:?}");
}

#[test]
fn uniform_dark_content_is_not_shrunk_without_a_boundary() {
    let image = RgbaImage::from_pixel(1280, 720, Rgba([24, 24, 28, 255]));
    let rect = PixelRect::new(100, 80, 1000, 560);
    assert_eq!(refine_uniform_margins(&picture(&image), rect), rect);
}

fn add_taskbar_icons(image: &mut RgbaImage, taskbar: PixelRect) {
    let icon_size = (taskbar.height / 2).max(8);
    let start = taskbar.x + taskbar.width / 4;
    let gap = icon_size + (icon_size / 2).max(4);
    for index in 0..8 {
        let x = start + index * gap;
        if x + icon_size >= taskbar.right() {
            break;
        }
        fill_rect(
            image,
            PixelRect::new(
                x,
                taskbar.y + (taskbar.height - icon_size) / 2,
                icon_size,
                icon_size,
            ),
            Rgba([80 + index as u8 * 12, 125, 210, 255]),
        );
    }
}

fn fill_rect(image: &mut RgbaImage, rect: PixelRect, color: Rgba<u8>) {
    let right = rect.right().min(image.width());
    let bottom = rect.bottom().min(image.height());
    for y in rect.y..bottom {
        for x in rect.x..right {
            image.put_pixel(x, y, color);
        }
    }
}
