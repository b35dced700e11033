use snapbar::accessibility::ControlType;
use snapbar::detector::scoring::{
    candidate_key, candidate_to_content_candidate, element_role, element_search_text,
    is_uia_candidate_rect, touching_edge_count, ElementRole, UiaAccumulator,
};
use snapbar::geometry::{PixelRect, WindowGeometry};
use snapbar::single::{ratio, Single};

fn geometry(image_width: u32, image_height: u32) -> WindowGeometry {
    WindowGeometry {
        screen_left: 0,
        screen_top: 0,
        screen_width: image_width,
        screen_height: image_height,
        image_width,
        image_height,
    }
}

fn number(value: Single) -> f32 {
    let size = value.mantissa as f32 * 2.0_f32.powi(value.exponent as i32);
    if value.negative {
        -size
    } else {
        size
    }
}

#[test]
fn shared_content_semantics_beat_generic_meeting_stage() {
    let geometry = WindowGeometry {
        screen_left: 0,
        screen_top: 0,
        screen_width: 1600,
        screen_height: 900,
        image_width: 1600,
        image_height: 900,
    };
    let shared = UiaAccumulator {
        rect: PixelRect::new(140, 90, 1180, 700),
        hits: 24,
        nearest_leaf_distance: 0,
        role: ElementRole::Custom,
        text: "shared content canvas".to_string(),
        is_content_element: true,
    };
    let stage = UiaAccumulator {
        rect: PixelRect::new(0, 40, 1600, 820),
        hits: 40,
        nearest_leaf_distance: 3,
        role: ElementRole::Pane,
        text: "meeting stage".to_string(),
        is_content_element: true,
    };

    let shared_confidence = candidate_to_content_candidate(&shared, geometry)
        .expect("shared candidate")
        .confidence;
    let stage_confidence = candidate_to_content_candidate(&stage, geometry)
        .expect("stage candidate")
        .confidence;

    assert!(stage_confidence.lt(shared_confidence));
    assert!(shared_confidence.ge(ratio(8, 10)));
}

fn expected_confidence(candidate: &UiaAccumulator, width: u32, height: u32) -> f32 {
    let rect = candidate.rect;
    let area_ratio = (u64::from(rect.width) * u64::from(rect.height)) as f32
        / (u64::from(width) * u64::from(height)) as f32;
    let dx = ((rect.x as f32 + rect.width as f32 / 2.0) / width as f32 - 0.5).abs() * 2.0;
    let dy = ((rect.y as f32 + rect.height as f32 / 2.0) / height as f32 - 0.5).abs() * 2.0;
    let centrality = 1.0 - ((dx * dx + dy * dy).sqrt() / 2.0_f32.sqrt()).clamp(0.0, 1.0);
    let strong = candidate.text.contains("shared content");
    let weak = candidate.text.contains("stage") || candidate.text.contains("画面");
    let negative = candidate.text.contains("chat");
    let mut confidence = 0.05;
    confidence += if (0.10..=0.92).contains(&area_ratio) {
        0.14
    } else if (0.05..=0.98).contains(&area_ratio) {
        0.06
    } else {
        -0.15
    };
    confidence += 0.07 * (1.0 - ((area_ratio - 0.48_f32).abs() / 0.48).min(1.0));
    confidence += centrality * 0.12;
    confidence += candidate.hits.min(18) as f32 / 18.0 * 0.20;
    confidence += 0.12 / (1.0 + candidate.nearest_leaf_distance as f32 * 0.55);
    confidence += match candidate.role {
        ElementRole::Image => 0.14,
        ElementRole::Chrome => -0.35,
        ElementRole::Pane => 0.08,
        _ => 0.02,
    };
    if candidate.is_content_element {
        confidence += 0.05;
    }
    if rect.width as f32 / width as f32 >= 0.35 {
        confidence += 0.04;
    }
    if rect.height as f32 / height as f32 >= 0.35 {
        confidence += 0.04;
    }
    if strong {
        confidence += 0.38;
    } else if weak {
        confidence += 0.13;
    }
    if negative {
        confidence -= 0.32;
    }
    confidence -= match touching_edge_count(rect, geometry(width, height)) {
        4 | 3 => 0.28,
        2 => 0.12,
        1 => 0.03,
        _ => 0.0,
    };
    if area_ratio > 0.96 && !strong {
        confidence -= 0.20;
    }
    confidence.clamp(0.0, 1.0)
}

#[test]
fn confidence_is_that_of_single_precision() {
    let texts = ["", "shared content", "main stage", "画面", "shared content chat", "chat"];
    let roles = [ElementRole::Image, ElementRole::Chrome, ElementRole::Pane, ElementRole::Other];
    for step in 0..40_u32 {
        let rect = PixelRect::new(step * 7, step * 3, 1600 - step * 37, 900 - step * 20);
        for (index, text) in texts.iter().enumerate() {
            let candidate = UiaAccumulator {
                rect,
                hits: step,
                nearest_leaf_distance: step % 5,
                role: roles[index % 4],
                text: text.to_string(),
                is_content_element: step % 2 == 0,
            };
            let found = candidate_to_content_candidate(&candidate, geometry(1600, 900))
                .expect("the image has pixels");
            assert_eq!(found.rect, rect);
            assert!(!found.is_exclusion);
            assert_eq!(number(found.confidence), expected_confidence(&candidate, 1600, 900));
        }
    }
}

#[test]
fn an_image_without_pixels_gives_no_candidate() {
    let candidate = UiaAccumulator {
        rect: PixelRect::new(0, 0, 100, 100),
        hits: 1,
        nearest_leaf_distance: 0,
        role: ElementRole::Image,
        text: String::new(),
        is_content_element: true,
    };
    assert!(candidate_to_content_candidate(&candidate, geometry(0, 900)).is_none());
}

#[test]
fn roles_follow_the_control_type() {
    assert_eq!(element_role(Some(ControlType::Image)), ElementRole::Image);
    assert_eq!(element_role(Some(ControlType::Thumb)), ElementRole::Interactive);
    assert_eq!(element_role(Some(ControlType::MenuItem)), ElementRole::Chrome);
    assert_eq!(element_role(Some(ControlType::Window)), ElementRole::Other);
    assert_eq!(element_role(None), ElementRole::Other);
}

#[test]
fn search_text_joins_and_lowers() {
    assert_eq!(
        element_search_text("Shared Content", "ID-1", "Pane", "", "Hilfe Ä"),
        "shared content id-1 pane  hilfe ä"
    );
}

#[test]
fn candidate_rects_have_a_least_size() {
    let window = geometry(1600, 900);
    assert!(is_uia_candidate_rect(PixelRect::new(0, 0, 400, 200), window));
    assert!(!is_uia_candidate_rect(PixelRect::new(0, 0, 159, 600), window));
    assert!(!is_uia_candidate_rect(PixelRect::new(0, 0, 600, 89), window));
    assert!(!is_uia_candidate_rect(PixelRect::new(0, 0, 300, 100), window));
    assert!(is_uia_candidate_rect(PixelRect::new(0, 0, 80, 45), geometry(0, 0)));
    assert_eq!(candidate_key(PixelRect::new(10, 11, 12, 14)), (3, 3, 4, 4));
    assert_eq!(touching_edge_count(PixelRect::new(0, 40, 1600, 820), window), 2);
    assert_eq!(touching_edge_count(PixelRect::new(0, 0, 1600, 900), window), 4);
    assert_eq!(touching_edge_count(PixelRect::new(200, 100, 900, 500), window), 0);
}
