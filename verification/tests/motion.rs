use snapbar::bar::motion::{
    disclosure_presentation_progress, disclosure_spring_config, disclosure_surface_alpha,
    expanded_control_gap, inline_disclosure_progress, island_content_motion, smoothstep_between,
    spring_position_for_progress, DisclosureAnimationState, IslandLayout, Spring,
};
use snapbar::single::{from_int, ratio, Single};

fn number(value: Single) -> f32 {
    let size = value.mantissa as f32 * 2.0_f32.powi(value.exponent as i32);
    if value.negative {
        -size
    } else {
        size
    }
}

fn hundredths(value: u64) -> Single {
    ratio(value, 100)
}

#[test]
fn presenter_surface_is_visible_before_hover_while_titlebar_surface_stays_transparent() {
    assert_eq!(number(disclosure_surface_alpha(true, from_int(0))), 1.0);
    assert_eq!(number(disclosure_surface_alpha(true, from_int(1))), 1.0);
    assert_eq!(number(disclosure_surface_alpha(false, from_int(0))), 1.0 / 255.0);
    assert_eq!(number(disclosure_surface_alpha(false, hundredths(10))), 1.0);
}

#[test]
fn disclosure_retarget_keeps_position_but_starts_a_fresh_spring_generation() {
    let mut animation = DisclosureAnimationState::default();
    animation.retarget(hundredths(63), false);

    assert_eq!(animation.generation, 1);
    assert_eq!(number(animation.start), 0.63);

    animation.retarget(hundredths(41), false);
    assert_eq!(animation.generation, 2);
    assert_eq!(number(animation.start), 0.41);
}

#[test]
fn expanded_controls_begin_fanning_before_the_old_disclosure_threshold() {
    assert_eq!(number(expanded_control_gap(from_int(0))), 0.0);
    assert!(number(expanded_control_gap(hundredths(42))) > 0.0);
    assert!(number(smoothstep_between(hundredths(16), hundredths(86), hundredths(42))) > 0.0);
}

#[test]
fn inline_disclosure_keeps_a_bounded_elastic_settle() {
    assert_eq!(number(inline_disclosure_progress(from_int(1))), 1.0);
    assert!(number(inline_disclosure_progress(hundredths(104))) < 1.0);
    assert!(number(inline_disclosure_progress(hundredths(104))) > 0.96);
    assert!(number(inline_disclosure_progress(hundredths(120))) <= 1.0);
}

#[test]
fn expanded_controls_fan_out_without_moving_the_capture_anchor() {
    let capture_center = |gap: f32| {
        let controls_width = 82.0 + 30.0 * 4.0 + gap * 4.0;
        -controls_width / 2.0 + 82.0 + gap + 30.0 + gap + 30.0 / 2.0
    };

    assert_eq!(number(expanded_control_gap(from_int(0))), 0.0);
    assert_eq!(number(expanded_control_gap(from_int(1))), 6.0);
    assert_eq!(capture_center(0.0), capture_center(6.0));
}

#[test]
fn reversals_keep_the_visible_frame() {
    for is_inline in [false, true] {
        for position in [0_u64, 350, 920, 1000, 1008, 1020, 1040] {
            let first = disclosure_presentation_progress(ratio(position, 1000), is_inline);
            let mut progress = first;
            let mut animation = DisclosureAnimationState::default();
            for _ in 0..20 {
                animation.retarget(progress, is_inline);
                progress = disclosure_presentation_progress(animation.start, is_inline);
                assert!((number(progress) - number(first)).abs() < 0.000_01);
            }
        }
    }
    for step in 0..=100 {
        let progress = hundredths(step);
        let start = spring_position_for_progress(progress, false);
        assert_eq!(start, progress);
        assert_eq!(disclosure_presentation_progress(start, false), progress);
    }
}

#[test]
fn springs_depend_on_the_presentation() {
    assert_eq!(disclosure_spring_config(true, true), Spring { stiffness: 360, damping: 28 });
    assert_eq!(disclosure_spring_config(false, true), Spring { stiffness: 450, damping: 40 });
    assert_eq!(disclosure_spring_config(false, false), Spring { stiffness: 900, damping: 46 });
}

fn smooth(start: f32, end: f32, value: f32) -> f32 {
    let phase = ((value - start) / (end - start)).clamp(0.0, 1.0);
    phase * phase * (3.0 - 2.0 * phase)
}

#[test]
fn contents_move_as_in_single_precision() {
    let layout = IslandLayout {
        idle_center_y: from_int(15),
        expanded_center_y: from_int(22),
        idle_status_x: ratio(21, 2).neg(),
        expanded_status_x: from_int(104).neg(),
    };
    for step in 0..=104_u64 {
        let progress = step as f32 / 100.0;
        let motion = island_content_motion(layout, hundredths(step), hundredths(step / 2));
        let drop = (step / 2) as f32 / 100.0;
        let status = smooth(0.0, 0.48, progress);
        assert_eq!(number(motion.center_y), 15.0 + (22.0 - 15.0) * drop);
        assert_eq!(number(motion.status_center_x), -10.5 + (-104.0 - -10.5) * status);
        assert_eq!(number(motion.status_center_y), 15.0 + (22.0 - 15.0) * status);
        assert_eq!(number(motion.capture_form), drop);
        assert_eq!(number(motion.details_alpha), smooth(0.48, 0.92, progress));
        assert_eq!(number(motion.auxiliary_alpha), smooth(0.15, 0.90, progress));
        assert_eq!(
            number(motion.auxiliary_inset),
            (30.0 + 6.0 - 22.0) * (1.0 - smooth(0.15, 1.0, progress))
        );
    }
}

#[test]
fn the_layout_follows_the_sizes_of_the_bar() {
    let layout = IslandLayout::new(from_int(84), from_int(42), from_int(32), from_int(44));
    assert_eq!(number(layout.idle_center_y), 16.0);
    assert_eq!(number(layout.expanded_center_y), 22.0);
    assert_eq!(number(layout.idle_status_x), -21.0);
    let shift = -84.0_f32 / 2.0 + 42.0 + 42.0 / 2.0 - 26.0;
    assert_eq!(number(layout.expanded_status_x), shift - 226.0 / 2.0 + 1.0 + 4.0 + 6.0 / 2.0);
    let start = island_content_motion(layout, from_int(0), from_int(0));
    assert_eq!(start.status_center_x, layout.idle_status_x);
    let end = island_content_motion(layout, from_int(1), from_int(1));
    assert_eq!(end.status_center_x, layout.expanded_status_x);
    assert_eq!(end.center_y, layout.expanded_center_y);
}
