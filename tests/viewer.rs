use file_viewer::files::{exceeds_size_limit, is_image_extension, push_recent, MAX_RECENT_FILES};
use file_viewer::gate::FeatureGate;
use file_viewer::text::{count_lines, line_number_label};
use file_viewer::theme::{
    default_follow_system_true, default_rounding, follow_system, normalized_rounding, Theme,
};

#[test]
fn feature_gate_boundary() {
    assert!(FeatureGate::new(500_000, 1).is_big);
    assert!(!FeatureGate::new(499_999, 1).is_big);
    assert!(!FeatureGate::new(1_000, 49_999).is_big);
    assert!(FeatureGate::new(1_000, 50_000).is_big);
}

#[test]
fn highlight_threshold_is_independent() {
    let g = FeatureGate::new(200_000, 10);
    assert!(g.highlighting_allowed);
    assert!(g.syntax());
    let g = FeatureGate::new(200_001, 10);
    assert!(!g.highlighting_allowed);
    assert!(!g.is_big);
    assert!(!g.syntax());
    assert!(g.line_numbers(true));
}

#[test]
fn big_buffer_suppresses_line_numbers_and_syntax() {
    let g = FeatureGate::new(600_000, 10);
    assert!(!g.line_numbers(true));
    assert!(!g.syntax());
    assert!(!g.needs_annotation(true, ""));
    assert!(g.needs_annotation(true, "q"));
    let small = FeatureGate::new(10, 1);
    assert!(small.needs_annotation(false, ""));
}

#[test]
fn gate_from_text() {
    let g = FeatureGate::for_text("a\nb\n");
    assert!(!g.is_big);
    assert!(g.highlighting_allowed);
    let many = "\n".repeat(50_000);
    assert!(FeatureGate::for_text(&many).is_big);
    let fewer = "\n".repeat(49_999);
    assert!(!FeatureGate::for_text(&fewer).is_big);
}

#[test]
fn line_counts_follow_str_lines() {
    for t in ["", "a", "a\n", "a\nb", "a\r\nb\n", "\n\n", "x\n\ny"] {
        assert_eq!(count_lines(t), t.lines().count());
    }
}

#[test]
fn theme_names_and_darkness() {
    assert_eq!(Theme::SolarizedLight.name(), "Solarized Light");
    assert_eq!(Theme::GruvboxDark.name(), "Gruvbox Dark");
    assert!(Theme::Allison.is_dark());
    assert!(Theme::Dracula.is_dark());
    assert!(!Theme::Sepia.is_dark());
    assert!(!Theme::Light.is_dark());
    assert_eq!(Theme::default(), Theme::Dark);
    assert_eq!(Theme::Dark.panel_rgb(), (22, 22, 24));
}

#[test]
fn theme_follows_dark_mode() {
    assert_eq!(Theme::Sepia.reconciled(true), Theme::Dark);
    assert_eq!(Theme::Dracula.reconciled(true), Theme::Dracula);
    assert_eq!(Theme::Dracula.reconciled(false), Theme::Light);
    assert_eq!(follow_system(true, false, Theme::Sepia), (true, Theme::Dark));
    assert_eq!(follow_system(true, true, Theme::Dracula), (true, Theme::Dracula));
}

#[test]
fn setting_defaults() {
    assert!(default_follow_system_true());
    assert_eq!(default_rounding(), 6);
    assert_eq!(normalized_rounding(0), 6);
    assert_eq!(normalized_rounding(3), 3);
}

#[test]
fn recent_files_dedupe_and_cap() {
    let mut list: Vec<String> = vec!["a".to_string(), "b".to_string(), "c".to_string()];
    push_recent(&mut list, "a".to_string());
    assert_eq!(list, vec!["b", "c", "a"]);
    let mut long: Vec<String> = (0..MAX_RECENT_FILES).map(|i| i.to_string()).collect();
    push_recent(&mut long, "new".to_string());
    assert_eq!(long.len(), MAX_RECENT_FILES);
    assert_eq!(long[0], "1");
    assert_eq!(long.last().unwrap(), "new");
}

#[test]
fn file_rules() {
    assert!(is_image_extension("png"));
    assert!(is_image_extension("webp"));
    assert!(!is_image_extension("rs"));
    assert!(!is_image_extension("PNG"));
    assert!(exceeds_size_limit(10_000_001));
    assert!(!exceeds_size_limit(10_000_000));
}

#[test]
fn line_number_labels_are_right_aligned() {
    let s = |i: usize| -> String { line_number_label(i).into_iter().collect() };
    assert_eq!(s(0), "   1 ");
    assert_eq!(s(9), "  10 ");
    assert_eq!(s(998), " 999 ");
    assert_eq!(s(9998), "9999 ");
    assert_eq!(s(12344), "12345 ");
    for i in [0usize, 7, 41, 99_999] {
        assert_eq!(s(i), format!("{:>4} ", i + 1));
    }
}
