use frona_server::markdown::{to_signal, SignalBodyRange, SignalStyle};
use frona_server::split::{MarkdownSplitter, SignalSplitter};

fn r(start: u32, length: u32, style: SignalStyle) -> SignalBodyRange {
    SignalBodyRange { start, length, style }
}

#[test]
fn signal_plain_text_has_no_ranges() {
    let out = to_signal("hello world");
    assert_eq!(out.body, "hello world");
    assert!(out.ranges.is_empty());
}

#[test]
fn signal_bold_strips_asterisks_and_emits_range() {
    let out = to_signal("**hello** world");
    assert_eq!(out.body, "hello world");
    assert_eq!(out.ranges, vec![r(0, 5, SignalStyle::Bold)]);
}

#[test]
fn signal_italic_strips_asterisks() {
    let out = to_signal("*hello* world");
    assert_eq!(out.body, "hello world");
    assert_eq!(out.ranges, vec![r(0, 5, SignalStyle::Italic)]);
}

#[test]
fn signal_strikethrough() {
    let out = to_signal("~~gone~~");
    assert_eq!(out.body, "gone");
    assert_eq!(out.ranges, vec![r(0, 4, SignalStyle::Strikethrough)]);
}

#[test]
fn signal_inline_code_is_monospace() {
    let out = to_signal("run `cargo test` first");
    assert_eq!(out.body, "run cargo test first");
    assert_eq!(out.ranges, vec![r(4, 10, SignalStyle::Monospace)]);
}

#[test]
fn signal_nested_bold_italic_overlaps() {
    let out = to_signal("**_both_**");
    assert_eq!(out.body, "both");
    let bold_range = out.ranges.iter().find(|r| r.style == SignalStyle::Bold);
    let italic_range = out.ranges.iter().find(|r| r.style == SignalStyle::Italic);
    assert_eq!(bold_range, Some(&r(0, 4, SignalStyle::Bold)));
    assert_eq!(italic_range, Some(&r(0, 4, SignalStyle::Italic)));
    assert_eq!(out.ranges[0].style, SignalStyle::Italic);
}

#[test]
fn signal_fenced_code_block_is_monospace() {
    let md = "```\nlet x = 1;\n```";
    let out = to_signal(md);
    assert!(out.body.contains("let x = 1;"));
    let mono = out.ranges.iter().find(|r| r.style == SignalStyle::Monospace);
    assert!(mono.is_some(), "expected MONOSPACE range, got {:?}", out.ranges);
    assert_eq!(out.ranges, vec![r(0, 10, SignalStyle::Monospace)]);
}

#[test]
fn signal_link_with_text_becomes_text_parens_url() {
    let out = to_signal("see [docs](https://example.com)");
    assert_eq!(out.body, "see docs (https://example.com)");
    assert!(out.ranges.is_empty());
}

#[test]
fn signal_bare_link_passes_through() {
    let out = to_signal("[https://example.com](https://example.com)");
    assert_eq!(out.body, "https://example.com");
    assert!(out.ranges.is_empty());
}

#[test]
fn signal_heading_renders_as_plain_text() {
    let out = to_signal("# Title\n\nbody");
    assert_eq!(out.body, "Title\n\nbody");
    assert!(out.ranges.is_empty());
}

#[test]
fn signal_list_renders_with_bullets() {
    let md = "- one\n- two\n- three";
    let out = to_signal(md);
    assert_eq!(out.body, "- one\n- two\n- three");
    assert!(out.ranges.is_empty());
}

#[test]
fn signal_emoji_uses_utf16_offsets() {
    let out = to_signal("🚀 **boom**");
    assert_eq!(out.body, "🚀 boom");
    assert_eq!(out.ranges, vec![r(3, 4, SignalStyle::Bold)]);
}

#[test]
fn signal_empty_input_yields_empty() {
    let out = to_signal("");
    assert_eq!(out.body, "");
    assert!(out.ranges.is_empty());
}

#[test]
fn signal_bold_in_middle_of_text() {
    let out = to_signal("before **mid** after");
    assert_eq!(out.body, "before mid after");
    assert_eq!(out.ranges, vec![r(7, 3, SignalStyle::Bold)]);
}

#[test]
fn signal_heading_then_list_keeps_bullets_attached() {
    let md = "## Heading\n\n- one\n- two";
    let out = to_signal(md);
    assert_eq!(out.body, "Heading\n\n- one\n- two");
}

#[test]
fn signal_collapse_shifts_later_ranges() {
    let out = to_signal("```\na\n\n\n\nb\n```\n\n**x**");
    assert_eq!(out.body, "a\n\nb\n\nx");
    // The bold range opened before the pending blank line was written, so
    // it covers that newline too.
    assert_eq!(
        out.ranges,
        vec![r(0, 4, SignalStyle::Monospace), r(5, 2, SignalStyle::Bold)]
    );
}

#[test]
fn signal_returns_balanced_ranges_per_chunk() {
    let splitter = SignalSplitter::new(MarkdownSplitter::new(30, None));
    let text = "**hello** there\n\n**world** howdy\n\n**end** of text here";
    let signals = splitter.split(text);
    assert!(signals.len() >= 2);
    for s in &signals {
        let utf16_len = s.body.encode_utf16().count();
        for r in &s.ranges {
            let end = (r.start + r.length) as usize;
            assert!(
                end <= utf16_len,
                "range past body end: start={} length={} body_len={}",
                r.start,
                r.length,
                utf16_len
            );
        }
    }
}

#[test]
fn signal_cross_boundary_bold_degrades_to_plain_text() {
    let splitter = SignalSplitter::new(MarkdownSplitter::new(20, None));
    let text = "**bold across\n\nboundary** end";
    let signals = splitter.split(text);
    assert!(signals.len() >= 2);
    let total_bold_ranges: usize = signals
        .iter()
        .flat_map(|s| &s.ranges)
        .filter(|r| matches!(r.style, SignalStyle::Bold))
        .count();
    assert_eq!(total_bold_ranges, 0);
}

#[test]
fn signal_body_has_no_triple_newline_or_trailing_whitespace() {
    let t = to_signal("# A\n\n\n\n\n**b**  \n\n\n\n- c\n\n\n   ");
    assert!(!t.body.contains("\n\n\n"), "{:?}", t.body);
    assert!(!t.body.ends_with(char::is_whitespace), "{:?}", t.body);
}
