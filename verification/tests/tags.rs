use addons::tag::Tag;
use addons::text::whitespace;

fn tag(name: &str, value: &str) -> Option<Tag> {
    Some(Tag(name.to_string(), value.to_string()))
}

#[test]
fn tag_line_declares_name_and_value() {
    assert_eq!(Tag::from_line("## Version: 1.2.3"), tag("Version", "1.2.3"));
}

#[test]
fn blank_lines_declare_nothing() {
    assert_eq!(Tag::from_line(""), None);
    assert_eq!(Tag::from_line("   "), None);
    assert_eq!(Tag::from_line("\t \r\n"), None);
    assert_eq!(Tag::from_line("\u{a0}\u{2003}\u{3000}"), None);
}

#[test]
fn lines_without_leading_marker_declare_nothing() {
    assert_eq!(Tag::from_line("Core.lua"), None);
    assert_eq!(Tag::from_line("# Version: 1.2.3"), None);
    assert_eq!(Tag::from_line("Version: 1.2.3"), None);
    assert_eq!(Tag::from_line("x ## Version: 1.2.3"), None);
    assert_eq!(Tag::from_line("libs\\embeds.xml ## Title: no"), None);
    assert_eq!(Tag::from_line("#@no-lib-strip@ ## Title: no"), None);
}

#[test]
fn tag_line_without_separator_declares_nothing() {
    assert_eq!(Tag::from_line("## Title"), None);
    assert_eq!(Tag::from_line("## Title:NoSpace"), None);
    assert_eq!(Tag::from_line("##"), None);
    assert_eq!(Tag::from_line("## Notes: "), None);
    assert_eq!(Tag::from_line("## Notes:   \t"), None);
}

#[test]
fn surrounding_white_space_is_dropped() {
    assert_eq!(Tag::from_line("  ## Author: Jo \t"), tag("Author", "Jo"));
    assert_eq!(Tag::from_line("\u{2003}##\u{a0}Author: Jo\u{3000}"), tag("Author", "Jo"));
    assert_eq!(Tag::from_line("##Author: Jo"), tag("Author", "Jo"));
    assert_eq!(Tag::from_line("##    Author: Jo\r"), tag("Author", "Jo"));
}

#[test]
fn value_keeps_its_inner_white_space() {
    assert_eq!(Tag::from_line("## Notes:   two  words"), tag("Notes", "  two  words"));
    assert_eq!(Tag::from_line("## My Tag : v"), tag("My Tag ", "v"));
    assert_eq!(Tag::from_line("## My Tag: v"), tag("My Tag", "v"));
}

#[test]
fn line_is_cut_at_the_first_separator() {
    assert_eq!(Tag::from_line("## Notes: a: b: c"), tag("Notes", "a: b: c"));
    assert_eq!(Tag::from_line("## X-Url: http://a.b/c"), tag("X-Url", "http://a.b/c"));
    assert_eq!(Tag::from_line("## a:b: c"), tag("a:b", "c"));
    assert_eq!(Tag::from_line("## : v"), tag("", "v"));
    assert_eq!(Tag::from_line("## a:: b"), tag("a:", "b"));
}

#[test]
fn one_leading_byte_order_mark_is_dropped() {
    assert_eq!(Tag::from_line("\u{feff}## Interface: 11302"), tag("Interface", "11302"));
    assert_eq!(Tag::from_line("  \u{feff}## Interface: 11302"), tag("Interface", "11302"));
    assert_eq!(Tag::from_line("\u{feff}\u{feff}## Interface: 11302"), None);
    assert_eq!(Tag::from_line("\u{feff} ## Interface: 11302"), None);
    assert_eq!(Tag::from_line("\u{feff}Core.lua"), None);
    assert_eq!(
        Tag::from_line("## Interface: 11302\u{feff}"),
        tag("Interface", "11302\u{feff}")
    );
}

#[test]
fn marker_is_dropped_once() {
    assert_eq!(Tag::from_line("#### Title: x"), tag("## Title", "x"));
    assert_eq!(Tag::from_line("#### X: y"), tag("## X", "y"));
    assert_eq!(Tag::from_line("### Title: x"), tag("# Title", "x"));
    assert_eq!(Tag::from_line("## ## Title: x"), tag("## Title", "x"));
    assert_eq!(Tag::from_line("####"), None);
    assert_eq!(Tag::from_line("##  ##: v"), tag("##", "v"));
}

#[test]
fn text_beyond_ascii_is_kept() {
    assert_eq!(Tag::from_line("## Title-deDE: Größe: ä"), tag("Title-deDE", "Größe: ä"));
    assert_eq!(Tag::from_line("## Notes: 插件 \u{1f600}"), tag("Notes", "插件 \u{1f600}"));
}

#[test]
fn tag_line_reads_as_the_standard_library_splits_it() {
    let lines = [
        "## Version: 1.2.3",
        "  ##   Notes: some: thing  ",
        "## Dependencies: A, B",
        "## Title:x",
        "##\tSavedVariables: DB\t",
        "#### Title: x",
        "### Title: x",
        "no marker: here",
    ];
    for line in lines {
        let expected = match line.trim().strip_prefix("##") {
            Some(rest) => {
                let mut parts = rest.trim_start().splitn(2, ": ");
                match (parts.next(), parts.next()) {
                    (Some(name), Some(value)) => tag(name, value),
                    _ => None,
                }
            }
            None => None,
        };
        assert_eq!(Tag::from_line(line), expected);
    }
}

#[test]
fn white_space_is_what_the_standard_library_calls_white_space() {
    let mut code: u32 = 0;
    while code <= 0x10ffff {
        if let Some(c) = char::from_u32(code) {
            assert_eq!(whitespace(c), c.is_whitespace());
        }
        code += 1;
    }
}
