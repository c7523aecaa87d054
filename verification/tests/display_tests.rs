use pwgen_rs::cli::Separator;
use pwgen_rs::display::PasswordDisplay;
use pwgen_rs::EntropyInfo;
use pwgen_rs::GeneratedPassword;
use pwgen_rs::StrengthLevel;

#[test]
fn test_progress_bar_plain() {
    let display = PasswordDisplay::new(false, false);
    let bar = display.render_progress_bar(50, 20, StrengthLevel::Moderate);
    assert_eq!(bar, format!("[{}{}]", "█".repeat(10), "░".repeat(10)));
}

#[test]
fn test_progress_bar_full_and_empty() {
    let display = PasswordDisplay::new(false, false);
    assert_eq!(
        display.render_progress_bar(100, 20, StrengthLevel::VeryStrong),
        format!("[{}]", "█".repeat(20))
    );
    assert_eq!(
        display.render_progress_bar(0, 20, StrengthLevel::VeryWeak),
        format!("[{}]", "░".repeat(20))
    );
}

#[test]
fn test_progress_bar_colored() {
    let display = PasswordDisplay::new(true, false);
    let bar = display.render_progress_bar(0, 2, StrengthLevel::VeryWeak);
    assert_eq!(bar, "\u{1b}[31m░░\u{1b}[39m");
    let strong = display.render_progress_bar(0, 2, StrengthLevel::VeryStrong);
    assert_eq!(strong, "\u{1b}[1m\u{1b}[92m░░\u{1b}[39m\u{1b}[0m");
}

#[test]
fn test_colored_strength_label() {
    let display = PasswordDisplay::new(true, false);
    assert_eq!(
        display.colored_strength_label(StrengthLevel::VeryWeak),
        "\u{1b}[31mVery Weak\u{1b}[39m"
    );
    assert_eq!(
        display.colored_strength_label(StrengthLevel::Strong),
        "\u{1b}[32mStrong\u{1b}[39m"
    );
}

#[test]
fn test_show_lines_quiet() {
    let display = PasswordDisplay::new(false, true);
    let password = GeneratedPassword {
        value: "hunter2".to_string(),
        entropy: EntropyInfo::new(20000, "test"),
    };
    let lines = display.show_lines(&password);
    assert_eq!(lines, vec!["hunter2".to_string()]);
}

#[test]
fn test_show_lines_plain() {
    let display = PasswordDisplay::new(false, false);
    let password = GeneratedPassword {
        value: "hunter2".to_string(),
        entropy: EntropyInfo::new(64000, "test"),
    };
    let lines = display.show_lines(&password);
    assert_eq!(lines.len(), 3);
    assert_eq!(lines[0], "  Password: hunter2");
    assert_eq!(
        lines[1],
        format!("  Strength: [{}{}] 64.0 bits (Moderate)", "█".repeat(10), "░".repeat(10))
    );
    assert_eq!(lines[2], "");
}

#[test]
fn test_header_lines() {
    let display = PasswordDisplay::new(false, false);
    let lines = display.header_lines("Numeric PIN", 3);
    assert_eq!(lines.len(), 3);
    assert_eq!(lines[0], "");
    assert_eq!(lines[1], "Generating 3 Numeric PIN password(s):");
    assert_eq!(lines[2], "");

    let quiet = PasswordDisplay::new(false, true);
    assert!(quiet.header_lines("Numeric PIN", 3).is_empty());
}

#[test]
fn test_separator_as_str() {
    assert_eq!(Separator::Dash.as_str(), "-");
    assert_eq!(Separator::Space.as_str(), " ");
    assert_eq!(Separator::Dot.as_str(), ".");
    assert_eq!(Separator::Underscore.as_str(), "_");
    assert_eq!(Separator::Empty.as_str(), "");
}

#[test]
fn test_bits_rendering_rounds() {
    let display = PasswordDisplay::new(false, false);
    let password = GeneratedPassword {
        value: "x".to_string(),
        entropy: EntropyInfo::new(19932, "test"),
    };
    let lines = display.show_lines(&password);
    // 19.932 bits rounds to one decimal as 19.9.
    assert!(lines[1].contains("19.9 bits"), "line: {}", lines[1]);
}
