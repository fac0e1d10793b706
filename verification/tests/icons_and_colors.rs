//! Tests for the icon and color name rules.
use fancy_tree::color::AnsiColor;
use fancy_tree::color::Color;
use fancy_tree::color::ColorChoice;
use fancy_tree::colors;
use fancy_tree::icons;

#[test]
fn icon_for_double_extension() {
    assert_eq!(Some("\u{ea98}"), icons::for_path("example.tar.gz"));
}

#[test]
fn icon_for_images() {
    assert_eq!(Some("\u{f1c5}"), icons::for_path("example.gif"));
    assert_eq!(Some("\u{f1c5}"), icons::for_path("example.jpeg"));
    assert_eq!(Some("\u{f1c5}"), icons::for_path("example.jpg"));
    assert_eq!(Some("\u{f1c5}"), icons::for_path("example.png"));
}

#[test]
fn icon_for_filenames() {
    assert_eq!(Some("\u{eaa4}"), icons::for_path("README.md"));
    assert_eq!(Some("\u{e60a}"), icons::for_path("LICENSE"));
    assert_eq!(Some("\u{e672}"), icons::for_path("package-lock.json"));
    assert_eq!(None, icons::for_path("mystery.xyz"));
}

#[test]
fn icon_for_license_glob() {
    // Exercises the real glob matcher, case folding included.
    assert_eq!(Some("\u{e60a}"), icons::for_path("LICENSE-MIT"));
    assert_eq!(Some("\u{e60a}"), icons::for_path("licence-apache"));
    assert_eq!(None, icons::for_path("LICENSEXMIT"));
}

#[test]
fn color_for_double_extension() {
    assert_eq!(Some(Color::Ansi(AnsiColor::Green)), colors::for_path("foo.tar.gz"));
}

#[test]
fn color_for_extension_and_filename() {
    assert_eq!(Some(Color::Ansi(AnsiColor::Cyan)), colors::for_path("photo.png"));
    assert_eq!(Some(Color::Ansi(AnsiColor::Red)), colors::for_path(".git"));
    assert_eq!(Some(Color::Ansi(AnsiColor::Yellow)), colors::for_path("LICENSE-MIT"));
    assert_eq!(None, colors::for_path("mystery.xyz"));
}

#[test]
fn ansi_names_round_trip() {
    let all = [
        AnsiColor::Black,
        AnsiColor::Red,
        AnsiColor::Green,
        AnsiColor::Yellow,
        AnsiColor::Blue,
        AnsiColor::Magenta,
        AnsiColor::Cyan,
        AnsiColor::White,
        AnsiColor::BrightBlack,
        AnsiColor::BrightRed,
        AnsiColor::BrightGreen,
        AnsiColor::BrightYellow,
        AnsiColor::BrightBlue,
        AnsiColor::BrightMagenta,
        AnsiColor::BrightCyan,
        AnsiColor::BrightWhite,
    ];
    for ansi in all {
        let name = ansi.ansi_name();
        assert_eq!(Some(Color::Ansi(ansi)), Color::from_ansi_name(name));
    }
    assert_eq!(None, Color::from_ansi_name("??unused??"));
}

#[test]
fn color_choice_from_string() {
    assert_eq!(Some(ColorChoice::Always), ColorChoice::from_string("always"));
    assert_eq!(Some(ColorChoice::Never), ColorChoice::from_string("never"));
    assert_eq!(Some(ColorChoice::Auto), ColorChoice::from_string("auto"));
    assert_eq!(None, ColorChoice::from_string("sometimes"));
}

#[test]
fn color_choice_resolution() {
    assert!(ColorChoice::Always.resolve(false));
    assert!(!ColorChoice::Never.resolve(true));
    assert!(ColorChoice::Auto.resolve(true));
    assert!(!ColorChoice::Auto.resolve(false));
}
