use frona_server::markdown::{
    fence_tables,
    markdown_events, render_plain, render_whatsapp, to_plain, to_whatsapp, MdEvent, MdTag,
    MdTagKind,
};

#[test]
fn wa_bold_uses_single_asterisk() {
    assert_eq!(to_whatsapp("**Navigation**"), "*Navigation*");
}

#[test]
fn wa_italic_uses_underscore() {
    assert_eq!(to_whatsapp("*italic* and _also_"), "_italic_ and _also_");
}

#[test]
fn wa_strikethrough_uses_single_tilde() {
    assert_eq!(to_whatsapp("~~gone~~"), "~gone~");
}

#[test]
fn wa_empty_bullet_is_dropped() {
    let md = "**Heading**\n\n* \n\n* real item";
    let out = to_whatsapp(md);
    for line in out.lines() {
        let t = line.trim();
        assert!(t != "*" && t != "* ", "stray bullet line in output: {out:?}");
    }
    assert!(out.contains("real item"), "real-item text missing: {out:?}");
    assert!(out.contains("*Heading*"), "heading missing: {out:?}");
}

#[test]
fn wa_tight_list_keeps_bullets() {
    let out = to_whatsapp("* one\n* two\n* three");
    assert!(out.contains("* one"), "tight bullet one missing: {out:?}");
    assert!(out.contains("* two"), "tight bullet two missing: {out:?}");
    assert!(out.contains("* three"), "tight bullet three missing: {out:?}");
}

#[test]
fn wa_link_with_distinct_url_renders_text_and_url() {
    assert_eq!(to_whatsapp("see [docs](https://x.com)"), "see docs: https://x.com");
}

#[test]
fn wa_heading_code_and_quote() {
    assert_eq!(to_whatsapp("# Title\n\nbody"), "*Title*\n\nbody");
    assert_eq!(to_whatsapp("run `ls` now"), "run `ls` now");
    // The quote marker goes out before the quoted paragraph opens its line.
    assert_eq!(to_whatsapp("> quoted"), "> \nquoted");
    assert_eq!(to_whatsapp("```\ncode\n```"), "```\ncode\n```");
}

#[test]
fn plain_passes_through() {
    assert_eq!(to_plain("hello world"), "hello world");
}

#[test]
fn strips_emphasis() {
    assert_eq!(to_plain("**bold** and *italic* and ~~strike~~"), "bold and italic and strike");
}

#[test]
fn inline_code_keeps_content_no_backticks() {
    assert_eq!(to_plain("call `fn()` to do it"), "call fn() to do it");
}

#[test]
fn fenced_code_block_preserves_content() {
    let md = "```\nlet x = 1;\n```";
    assert_eq!(to_plain(md), "let x = 1;");
}

#[test]
fn link_with_distinct_url_renders_text_and_url() {
    let md = "see [docs](https://example.com/d)";
    assert_eq!(to_plain(md), "see docs (https://example.com/d)");
}

#[test]
fn link_with_matching_url_drops_url() {
    let md = "[https://example.com](https://example.com)";
    assert_eq!(to_plain(md), "https://example.com");
}

#[test]
fn bullet_list_preserves_dashes() {
    let md = "- one\n- two\n- three";
    assert_eq!(to_plain(md), "- one\n- two\n- three");
}

#[test]
fn ordered_list_keeps_numbers() {
    let md = "1. first\n2. second";
    assert_eq!(to_plain(md), "1. first\n2. second");
}

#[test]
fn nested_list_is_indented() {
    assert_eq!(to_plain("- a\n  - b"), "- a\n  - b");
}

#[test]
fn heading_keeps_text_drops_hash() {
    let md = "# Title\n\nbody text";
    assert_eq!(to_plain(md), "Title\n\nbody text");
}

#[test]
fn blockquote_drops_marker() {
    let md = "> quoted line";
    assert_eq!(to_plain(md), "quoted line");
}

#[test]
fn horizontal_rule_disappears() {
    let md = "above\n\n---\n\nbelow";
    assert_eq!(to_plain(md), "above\n\nbelow");
}

#[test]
fn nested_emphasis_collapses_correctly() {
    assert_eq!(to_plain("***strong italic***"), "strong italic");
}

#[test]
fn paragraph_breaks_become_blank_lines() {
    let md = "first paragraph\n\nsecond paragraph";
    assert_eq!(to_plain(md), "first paragraph\n\nsecond paragraph");
}

#[test]
fn image_renders_its_alt_text() {
    assert_eq!(to_plain("![a cat](cat.png)"), "a cat");
}

#[test]
fn plain_collapses_newline_runs() {
    assert_eq!(to_plain("```\na\n\n\n\nb\n```"), "a\n\nb");
}

#[test]
fn events_model_the_parser_output() {
    let events = markdown_events("**a** [b](u)");
    assert_eq!(
        events,
        vec![
            MdEvent::Start(MdTag::Paragraph),
            MdEvent::Start(MdTag::Strong),
            MdEvent::Text("a".into()),
            MdEvent::End(MdTagKind::Strong),
            MdEvent::Text(" ".into()),
            MdEvent::Start(MdTag::Link("u".into())),
            MdEvent::Text("b".into()),
            MdEvent::End(MdTagKind::Link),
            MdEvent::End(MdTagKind::Paragraph),
        ]
    );
}

#[test]
fn renderers_take_events_directly() {
    let events = vec![
        MdEvent::Start(MdTag::List(Some(7))),
        MdEvent::Start(MdTag::Item),
        MdEvent::Text("x".into()),
        MdEvent::End(MdTagKind::Item),
        MdEvent::Start(MdTag::Item),
        MdEvent::Text("y".into()),
        MdEvent::End(MdTagKind::Item),
        MdEvent::End(MdTagKind::List),
    ];
    assert_eq!(render_plain(&events), "7. x\n8. y");
    assert_eq!(render_whatsapp(&events), "7. x\n8. y");
}

#[test]
fn fence_tables_wraps_top_level_table() {
    let input = "Intro\n\n| a | b |\n| - | - |\n| 1 | 2 |\n\nOutro";
    let fenced = fence_tables(input);
    assert_eq!(
        fenced,
        "Intro\n\n```\n| a | b |\n| - | - |\n| 1 | 2 |\n```\n\nOutro"
    );
}

#[test]
fn fence_tables_realigns_ragged_columns() {
    let input = "| Col A | B |\n| - | - |\n| 1 | 2 |";
    let fenced = fence_tables(input);
    assert_eq!(fenced, "```\n| Col A | B |\n| -     | - |\n| 1     | 2 |\n```");
}

#[test]
fn fence_tables_leaves_plain_text_untouched() {
    let input = "no tables here, just a | pipe";
    assert_eq!(fence_tables(input), input);
}

#[test]
fn fence_tables_skips_tables_already_inside_code_fences() {
    let input = "```\n| a | b |\n| - | - |\n```\n";
    assert_eq!(fence_tables(input), input);
}

#[test]
fn table_converts_to_monospace_block_without_escaped_pipes() {
    let input = "Here you go:\n\n| a | b |\n| - | - |\n| 1 | 2 |";
    let out = telegram_markdown_v2::convert_with_strategy(
        &fence_tables(input),
        telegram_markdown_v2::UnsupportedTagsStrategy::Escape,
    )
    .unwrap();
    assert!(out.contains("```"), "table must render as code block: {out}");
    assert!(!out.contains("\\|"), "no escaped pipes outside code: {out}");
}

#[test]
fn rendered_text_has_no_triple_newline_or_trailing_whitespace() {
    let input = "# Title\n\n\n\n\nPara one  \n\n\n\n- a\n-\n- b\n\n\n```\ncode\n\n\n\n```\n\n\n   ";
    for out in [to_plain(input), to_whatsapp(input)] {
        assert!(!out.contains("\n\n\n"), "{out:?}");
        assert!(!out.ends_with(char::is_whitespace), "{out:?}");
    }
}

#[test]
fn whatsapp_lines_are_never_lone_markers_or_blank_with_spaces() {
    let inputs = [
        "**Heading**\n\n* \n\n* real item",
        "- \n-\n- kept\n\n  \n\ntext",
        "1. one\n2.\n\n* \n* two",
        "> \n\n*   \n\nend   ",
    ];
    for input in inputs {
        let out = to_whatsapp(input);
        for line in out.lines() {
            let t = line.trim();
            assert!(t != "*" && t != "-", "lone marker line in {out:?}");
            assert!(!(t.is_empty() && !line.is_empty()), "whitespace-only line in {out:?}");
        }
    }
}
