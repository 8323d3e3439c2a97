//! Tests of the registry's observable guarantees: the escape codes that
//! registered attributes produce, fallback resolution, replacement,
//! order-independence, and the misuse failure.

use stylesheet::StyleColor::Blue;
use stylesheet::StyleColor::Red;
use stylesheet::StyleColor::White;
use stylesheet::StyleProperties;
use stylesheet::StyleTransformation::Blink;
use stylesheet::StyleTransformation::Bold;
use stylesheet::StyleTransformation::Italic;
use stylesheet::StyleTransformation::Underlined;
use stylesheet::Stylesheet;
use stylesheet::StylesheetMisuse;
use stylesheet::default_style_name;

const BOLD_CODE: &str = "\u{1b}[1m";
const ITALIC_CODE: &str = "\u{1b}[3m";
const UNDERLINED_CODE: &str = "\u{1b}[4m";
const BLINK_CODE: &str = "\u{1b}[5m";
const RED_FG_CODE: &str = "\u{1b}[31m";
const WHITE_BG_CODE: &str = "\u{1b}[47m";
const RESET_CODE: &str = "\u{1b}[0m";

#[test]
fn danger_style_renders_all_requested_codes() {
    let mut sheet = Stylesheet::new();
    sheet.add_style(
        "danger",
        StyleProperties {
            transformation: [Bold, Blink].to_vec(),
            color: Some(Red),
            background: Some(White),
        },
    );
    let out = sheet.render("danger", "ALERT");
    assert!(out.contains("ALERT"));
    assert!(out.contains(BOLD_CODE));
    assert!(out.contains(BLINK_CODE));
    assert!(out.contains(RED_FG_CODE));
    assert!(out.contains(WHITE_BG_CODE));
    assert!(!out.ends_with('\n'));
    // the exact composition: foreground, background, transformations, the
    // message, and one reset
    assert_eq!(out, format!("{RED_FG_CODE}{WHITE_BG_CODE}{BOLD_CODE}{BLINK_CODE}ALERT{RESET_CODE}"));
    // a name that was never registered renders with no styling codes at all
    let out = sheet.render("missing", "hi");
    assert_eq!(out, "hi");
}

#[test]
fn unknown_name_renders_as_default() {
    let mut sheet = Stylesheet::new();
    sheet.add_style(
        "info",
        StyleProperties { transformation: [].to_vec(), color: Some(Blue), background: None },
    );
    assert_eq!(
        sheet.render("never_registered", "some message"),
        sheet.render(default_style_name(), "some message"),
    );
    assert_eq!(
        sheet.render_line("never_registered", "some message"),
        sheet.render_line(default_style_name(), "some message"),
    );
}

#[test]
fn transformation_order_is_irrelevant() {
    let mut first = Stylesheet::new();
    first.add_style(
        "fancy",
        StyleProperties {
            transformation: [Bold, Underlined].to_vec(),
            color: Some(Red),
            background: None,
        },
    );
    let mut second = Stylesheet::new();
    second.add_style(
        "fancy",
        StyleProperties {
            transformation: [Underlined, Bold].to_vec(),
            color: Some(Red),
            background: None,
        },
    );
    assert_eq!(first.render("fancy", "text"), second.render("fancy", "text"));
}

#[test]
fn readding_a_name_replaces_the_style() {
    let mut sheet = Stylesheet::new();
    sheet.add_style(
        "x",
        StyleProperties { transformation: [Bold].to_vec(), color: None, background: None },
    );
    sheet.add_style(
        "x",
        StyleProperties { transformation: [Italic].to_vec(), color: None, background: None },
    );
    let out = sheet.render("x", "text");
    assert!(out.contains(ITALIC_CODE));
    assert!(!out.contains(BOLD_CODE));
}

#[test]
fn adding_to_a_frozen_stylesheet_is_a_misuse() {
    let mut sheet = Stylesheet::new();
    sheet.add_style(
        "kept",
        StyleProperties { transformation: [Bold].to_vec(), color: None, background: None },
    );
    sheet.freeze();
    let before = sheet.render("kept", "text");
    let res = sheet.try_add_style(
        "test",
        StyleProperties { transformation: [].to_vec(), color: None, background: None },
    );
    assert_eq!(res, Err(StylesheetMisuse::MutateAfterFreeze));
    // the failed attempt did not alter the registry's contents
    assert_eq!(sheet.len(), 2);
    assert!(!sheet.contains("test"));
    assert!(sheet.contains("kept"));
    assert_eq!(sheet.render("kept", "text"), before);
}

#[test]
#[should_panic(expected = "FATAL:")]
fn freeze_and_try_to_modify() {
    let mut sheet = Stylesheet::new();
    sheet.freeze();
    // adding to a frozen stylesheet is a fatal misuse: callers abort loudly
    let res = sheet.try_add_style(
        "test",
        StyleProperties { transformation: [].to_vec(), color: None, background: None },
    );
    if res.is_err() {
        panic!("FATAL: Trying to add a style to a frozen Stylesheet");
    }
}

#[test]
fn line_variant_appends_after_the_styled_content() {
    let mut sheet = Stylesheet::new();
    sheet.add_style(
        "danger",
        StyleProperties {
            transformation: [Bold, Blink].to_vec(),
            color: Some(Red),
            background: Some(White),
        },
    );
    let line = sheet.render_line("danger", "ALERT");
    assert_eq!(line, format!("{}\n", sheet.render("danger", "ALERT")));
    assert!(line.ends_with(&format!("{RESET_CODE}\n")));
}

#[test]
fn freezing_changes_no_rendering() {
    let mut sheet = Stylesheet::new();
    sheet.add_style(
        "note",
        StyleProperties {
            transformation: [Underlined].to_vec(),
            color: Some(Blue),
            background: None,
        },
    );
    let before = sheet.render("note", "m");
    sheet.freeze();
    let after_once = sheet.render("note", "m");
    sheet.freeze();
    let after_twice = sheet.render("note", "m");
    assert_eq!(before, after_once);
    assert_eq!(after_once, after_twice);
}

#[test]
fn explicit_default_color_renders_plain() {
    let mut sheet = Stylesheet::new();
    sheet.add_style(
        "plain",
        StyleProperties {
            transformation: [].to_vec(),
            color: Some(stylesheet::StyleColor::DefaultColor),
            background: Some(stylesheet::StyleColor::DefaultColor),
        },
    );
    // an explicit default color is observably identical to no color
    assert_eq!(sheet.render("plain", "text"), "text");
}

#[test]
fn colors_map_to_their_codes() {
    let mut sheet = Stylesheet::new();
    sheet.add_style(
        "go",
        StyleProperties {
            transformation: [].to_vec(),
            color: Some(stylesheet::StyleColor::Green),
            background: Some(stylesheet::StyleColor::Cyan),
        },
    );
    sheet.add_style(
        "shout",
        StyleProperties {
            transformation: [].to_vec(),
            color: Some(stylesheet::StyleColor::Yellow),
            background: Some(stylesheet::StyleColor::Black),
        },
    );
    sheet.add_style(
        "calm",
        StyleProperties {
            transformation: [].to_vec(),
            color: Some(stylesheet::StyleColor::Magenta),
            background: Some(stylesheet::StyleColor::Blue),
        },
    );
    assert_eq!(sheet.render("go", "m"), format!("\u{1b}[32m\u{1b}[46mm{RESET_CODE}"));
    assert_eq!(sheet.render("shout", "m"), format!("\u{1b}[33m\u{1b}[40mm{RESET_CODE}"));
    assert_eq!(sheet.render("calm", "m"), format!("\u{1b}[35m\u{1b}[44mm{RESET_CODE}"));
}

#[test]
fn every_transformation_has_its_code() {
    let mut sheet = Stylesheet::new();
    sheet.add_style(
        "all",
        StyleProperties {
            transformation: [Blink, Bold, Italic, Underlined].to_vec(),
            color: None,
            background: None,
        },
    );
    let out = sheet.render("all", "m");
    assert!(out.contains(BLINK_CODE));
    assert!(out.contains(BOLD_CODE));
    assert!(out.contains(ITALIC_CODE));
    assert!(out.contains(UNDERLINED_CODE));
}
