use moss::alias::replace_aliases;
use moss::package::{Flags, Meta, Package};
use moss::render::{
    Segment, Update, color_diff, decimal_width, export_filename, fmt_version,
    package_display_width, spaces, to_segments, u64_to_string, update_display_width,
};
use moss::state::{Format, Revision};

fn args(words: &[&str]) -> Vec<String> {
    words.iter().map(|s| s.to_string()).collect()
}

#[test]
fn aliases_expand_in_place() {
    assert_eq!(
        replace_aliases(args(&["moss", "it", "nano"])),
        args(&["moss", "install", "nano"])
    );
    assert_eq!(
        replace_aliases(args(&["moss", "li"])),
        args(&["moss", "list", "installed"])
    );
    assert_eq!(replace_aliases(args(&["moss", "up"])), args(&["moss", "sync"]));
    // no alias: unchanged
    assert_eq!(
        replace_aliases(args(&["moss", "install", "up-tool"])),
        args(&["moss", "install", "up-tool"])
    );
}

#[test]
fn aliases_table_order_wins() {
    // "li" stands before "up" in the table, so it is the one expanded
    assert_eq!(
        replace_aliases(args(&["moss", "up", "li"])),
        args(&["moss", "up", "list", "installed"])
    );
}

#[test]
fn decimal_rendering() {
    assert_eq!(u64_to_string(0), "0");
    assert_eq!(u64_to_string(7), "7");
    assert_eq!(u64_to_string(90210), "90210");
    assert_eq!(u64_to_string(u64::MAX), "18446744073709551615");
    assert_eq!(decimal_width(0), 1);
    assert_eq!(decimal_width(999), 3);
    assert_eq!(decimal_width(1000), 4);
}

#[test]
fn spaces_run() {
    assert_eq!(spaces(0), "");
    assert_eq!(spaces(4), "    ");
}

#[test]
fn segments_split_versions() {
    let segs = to_segments("1.2-rc3");
    let mut texts: Vec<String> = Vec::new();
    for seg in segs {
        match &seg {
            Segment::Delim(c) => texts.push(format!("d:{c}")),
            Segment::Section(s) => texts.push(format!("s:{s}")),
        }
    }
    assert_eq!(texts, vec!["s:1", "d:.", "s:2", "d:-", "s:rc3"]);
}

#[test]
fn segment_to_section() {
    assert_eq!(
        Segment::Section("ab".to_string()).to_section(),
        Some("ab".to_string())
    );
    assert_eq!(Segment::Delim('.').to_section(), None);
}

#[test]
fn color_diff_marks_changed_sections() {
    // equal sections are dimmed, the changed one is highlighted
    let out = color_diff("1.2-3", "1.2-4", false);
    assert_eq!(
        out,
        "\u{1b}[2m1\u{1b}[0m.\u{1b}[2m2\u{1b}[0m-\u{1b}[1;32m4\u{1b}[0m"
    );
    let out_red = color_diff("1.2-4", "1.2-3", true);
    assert_eq!(
        out_red,
        "\u{1b}[2m1\u{1b}[0m.\u{1b}[2m2\u{1b}[0m-\u{1b}[31m3\u{1b}[0m"
    );
}

#[test]
fn color_diff_handles_extra_sections() {
    // sections of the second string with no counterpart are highlighted
    let out = color_diff("1", "1.2", false);
    assert_eq!(out, "\u{1b}[2m1\u{1b}[0m.\u{1b}[1;32m2\u{1b}[0m");
}

fn meta(name: &str, version: &str, release: u64) -> Meta {
    Meta {
        name: name.to_string(),
        version_identifier: version.to_string(),
        source_release: release,
        build_release: 1,
        providers: vec![name.to_string()],
        dependencies: vec![],
    }
}

#[test]
fn version_formatting_and_widths() {
    let m = meta("nano", "7.2", 14);
    assert_eq!(fmt_version(&m), "7.2-14");
    let p = Package {
        id: "nano-1".to_string(),
        meta: meta("nano", "7.2", 14),
        flags: Flags::new(),
        priority: 0,
    };
    // name (4) + version (3) + release digits (2) + padding (3)
    assert_eq!(package_display_width(&p), 12);
    let q = Package {
        id: "nano-2".to_string(),
        meta: meta("nano", "7.3", 2),
        flags: Flags::new(),
        priority: 0,
    };
    let u = Update { old: p, new: q };
    // new name (4) + old version+release (3+2) + new version+release
    // (3+1) + padding (3) + arrow allowance (6)
    assert_eq!(update_display_width(&u), 22);
}

#[test]
fn format_sizes() {
    let f = Format {
        name: "nano".to_string(),
        revision: Revision {
            version: "7.2".to_string(),
            release: 14,
        },
        explicit: true,
    };
    assert_eq!(f.revision.size(), 5);
    assert_eq!(f.size(), 9);
}

#[test]
fn export_filenames() {
    let host = "box".to_string();
    assert_eq!(
        export_filename(Some(&host), 12),
        "system-model-box-fstxn-12.kdl"
    );
    assert_eq!(export_filename(None, 3), "system-model-fstxn-3.kdl");
}
