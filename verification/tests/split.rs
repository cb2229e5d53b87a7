use frona_server::split::{
    append_overflow, avoid_split_after_backslash, fence_depth_at, find_boundary,
    silent_split_plain, split_markdown_aware, MarkdownSplitter, PlainSplitter,
    TelegramMarkdownV2Splitter,
};

const OVERFLOW_PREFIX: &str = "\n\nFull reply: ";

#[test]
fn find_boundary_empty_returns_zero() {
    assert_eq!(find_boundary("", 100), 0);
}

#[test]
fn find_boundary_under_target_returns_len() {
    assert_eq!(find_boundary("hello", 100), 5);
}

#[test]
fn find_boundary_prefers_paragraph_break() {
    let text = "para1\n\npara2 more text";
    assert_eq!(find_boundary(text, 12), 7);
    assert_eq!(&text[..7], "para1\n\n");
    assert_eq!(&text[7..], "para2 more text");
}

#[test]
fn find_boundary_falls_back_to_newline() {
    assert_eq!(find_boundary("line one\nline two longer", 15), 9);
}

#[test]
fn find_boundary_falls_back_to_space() {
    assert_eq!(find_boundary("abc def ghi", 8), 8);
}

#[test]
fn find_boundary_falls_back_to_char_boundary_on_single_long_word() {
    assert_eq!(find_boundary("abcdefghijklmnop", 8), 8);
}

#[test]
fn find_boundary_respects_multibyte_char_boundary() {
    let text = "héllo wörld extra";
    let cut = find_boundary(text, 8);
    assert!(text.is_char_boundary(cut));
    assert!(cut <= 8);
}

#[test]
fn find_boundary_backs_off_a_split_character() {
    // "é" occupies bytes 1..3; a target of 2 falls inside it.
    assert_eq!(find_boundary("hé", 2), 1);
}

#[test]
fn fence_depth_no_fences_is_safe() {
    let text = "just plain prose, no markers";
    let state = fence_depth_at(text, text.len());
    assert!(state.is_safe());
}

#[test]
fn fence_depth_inside_block_fence() {
    let text = "intro\n```\ncode here";
    let state = fence_depth_at(text, text.len());
    assert!(state.block.is_some(), "should be inside an open block fence");
    assert_eq!(state.block.unwrap().marker, b'`');
    assert_eq!(state.block.unwrap().open_len, 3);
}

#[test]
fn fence_depth_after_close_returns_to_safe() {
    let text = "intro\n```\ncode\n```\nafter";
    let state = fence_depth_at(text, text.len());
    assert!(state.is_safe(), "after closing fence should be safe");
}

#[test]
fn fence_depth_nested_three_backtick_inside_four_backtick_is_content() {
    let text = "````\n```\nstill inside\n````\nafter";
    let state = fence_depth_at(text, text.len());
    assert!(state.is_safe());
}

#[test]
fn fence_depth_variable_length_requires_matching_close() {
    let text = "````\n```\n````\nafter";
    let state = fence_depth_at(text, text.len());
    assert!(state.is_safe());
}

#[test]
fn fence_depth_tilde_tracked_independently_from_backtick() {
    let text = "~~~\ncode\n~~~\nafter";
    let state = fence_depth_at(text, text.len());
    assert!(state.is_safe());

    let mixed = "~~~\n```\nstill inside\n~~~\nafter";
    let state2 = fence_depth_at(mixed, mixed.len());
    assert!(state2.is_safe());
}

#[test]
fn fence_depth_inline_backtick_open_and_close() {
    let text = "before `code` after";
    let state = fence_depth_at(text, text.len());
    assert!(state.is_safe());
}

#[test]
fn fence_depth_inside_inline_backtick_span() {
    let text = "before `code midway";
    let state = fence_depth_at(text, text.len());
    assert_eq!(state.inline_open, Some(1));
}

#[test]
fn fence_depth_multi_backtick_inline_matches_by_length() {
    let text = "before ``has ` inside`` after";
    let state = fence_depth_at(text, text.len());
    assert!(state.is_safe());
}

#[test]
fn fence_depth_inline_reset_at_line_break() {
    let text = "broken `unclosed\nnext line";
    let state = fence_depth_at(text, text.len());
    assert!(state.is_safe());
}

#[test]
fn fence_depth_block_fence_wins_over_inline_scanning() {
    let text = "```\n`should not count`\n";
    let state = fence_depth_at(text, text.len());
    assert!(state.block.is_some());
    assert_eq!(state.inline_open, None);
}

#[test]
fn fence_depth_stops_at_the_cursor() {
    let text = "intro\n```\ncode";
    assert!(fence_depth_at(text, 5).is_safe());
    assert!(fence_depth_at(text, text.len()).block.is_some());
}

#[test]
fn append_overflow_truncates_body_and_appends_link() {
    let body = "a".repeat(1000);
    let url = "https://app.host/s/8Dbcv_bu";
    let out = append_overflow(&body, url, 100);
    assert!(out.len() <= 100, "must fit total_limit: {}", out.len());
    assert!(out.ends_with(url), "ends with the overflow URL");
    assert!(out.contains("\n\nFull reply: "), "carries the suffix prefix");
}

#[test]
fn append_overflow_prefers_paragraph_boundary_inside_budget() {
    let body = "first paragraph content goes here\n\nsecond paragraph stuff";
    let url = "https://x/s/y";
    let total_limit = body.find("\n\n").unwrap() + 2 + OVERFLOW_PREFIX.len() + url.len();
    let out = append_overflow(body, url, total_limit);
    assert_eq!(
        out,
        format!("first paragraph content goes here{OVERFLOW_PREFIX}{url}")
    );
}

#[test]
fn append_overflow_zero_body_budget_emits_just_the_link() {
    let url = "https://x/s/y";
    let total = OVERFLOW_PREFIX.len() + url.len();
    let out = append_overflow("anything at all", url, total);
    assert_eq!(out, format!("{OVERFLOW_PREFIX}{url}"));
}

#[test]
fn append_overflow_limit_below_suffix_still_emits_the_link() {
    let url = "https://x/s/y";
    let out = append_overflow("body", url, 3);
    assert_eq!(out, format!("{OVERFLOW_PREFIX}{url}"));
}

#[test]
fn silent_split_under_limit_returns_one_chunk() {
    assert_eq!(silent_split_plain("hello", 100), vec!["hello".to_string()]);
}

#[test]
fn silent_split_breaks_on_paragraph_boundary() {
    let text = "para one\n\npara two\n\npara three";
    let chunks = silent_split_plain(text, 12);
    for (i, c) in chunks.iter().enumerate() {
        assert!(
            c.len() <= 12 || i == chunks.len() - 1,
            "chunk {i} too large: {c:?}"
        );
    }
    assert_eq!(chunks.join(""), text);
}

#[test]
fn silent_split_multibyte_safe() {
    let text = "éàü ".repeat(100);
    let chunks = silent_split_plain(&text, 30);
    assert_eq!(chunks.join(""), text);
}

#[test]
fn silent_split_exact_pieces() {
    assert_eq!(
        silent_split_plain("aaaa bbbb cccc", 6),
        vec!["aaaa ".to_string(), "bbbb ".to_string(), "cccc".to_string()]
    );
}

#[test]
fn plain_splitter_blank_text_is_nothing() {
    let s = PlainSplitter::new(100, Some(200));
    assert!(s.split("  \n ", "https://x/s/y").is_empty());
    assert!(!s.needs_share_link("  \n "));
}

#[test]
fn plain_splitter_overflow_becomes_one_linked_chunk() {
    let s = PlainSplitter::new(40, Some(50));
    let text = "a".repeat(60);
    assert!(s.needs_share_link(&text));
    let chunks = s.split(&text, "https://x/s/y");
    assert_eq!(chunks.len(), 1);
    assert!(chunks[0].len() <= 40);
    assert!(chunks[0].ends_with("\n\nFull reply: https://x/s/y"));
}

#[test]
fn plain_splitter_without_hard_limit_splits_silently() {
    let s = PlainSplitter::new(6, None);
    let text = "aaaa bbbb cccc";
    assert!(!s.needs_share_link(text));
    assert_eq!(s.split(text, "unused").join(""), text);
}

#[test]
fn markdown_under_limit_returns_one_chunk() {
    let splitter = MarkdownSplitter::new(2000, None);
    assert_eq!(splitter.split("hello world"), vec!["hello world".to_string()]);
}

#[test]
fn markdown_splits_on_newline_boundary() {
    let splitter = MarkdownSplitter::new(2000, None);
    let line = "a".repeat(500);
    let blob = format!("{line}\n{line}\n{line}\n{line}\n{line}");
    let chunks = splitter.split(&blob);
    assert!(chunks.len() >= 2, "expected ≥2 chunks, got {}", chunks.len());
    for c in &chunks {
        assert!(c.len() <= 2000, "chunk exceeds limit: {}", c.len());
    }
}

#[test]
fn markdown_empty_input_returns_empty_vec() {
    let splitter = MarkdownSplitter::new(2000, None);
    assert_eq!(splitter.split(""), Vec::<String>::new());
    assert_eq!(splitter.split("   \n\n  "), Vec::<String>::new());
}

#[test]
fn markdown_close_and_reopen_inside_block_fence() {
    let splitter = MarkdownSplitter::new(30, None);
    let code = "x".repeat(80);
    let text = format!("```\n{code}\n```");
    let chunks = splitter.split(&text);
    assert!(chunks.len() >= 2);
    for c in &chunks {
        let opens = c.matches("```").count();
        assert!(opens >= 2, "chunk must contain both open and close: {c}");
    }
}

#[test]
fn markdown_backtracks_past_inline_backtick_span() {
    let splitter = MarkdownSplitter::new(20, None);
    let text = "prefix `inline span` suffix";
    let chunks = splitter.split(text);
    for c in &chunks {
        let open_runs: Vec<_> = c.match_indices('`').collect();
        assert!(
            open_runs.len() % 2 == 0,
            "chunk has unbalanced backticks: {c}"
        );
    }
}

#[test]
fn markdown_preserves_tilde_fence_across_split() {
    let splitter = MarkdownSplitter::new(40, None);
    let code = "y".repeat(80);
    let text = format!("~~~\n{code}\n~~~");
    let chunks = splitter.split(&text);
    for c in &chunks {
        assert!(c.contains("~~~"), "tilde fence missing in chunk: {c}");
    }
}

#[test]
fn markdown_split_without_fences_reassembles() {
    let text = "one two three four five six seven eight nine ten";
    let chunks = split_markdown_aware(text, 12);
    assert!(chunks.len() >= 2);
    assert_eq!(chunks.join(""), text);
}

fn ends_with_unbalanced_backslash(s: &str) -> bool {
    let bytes = s.as_bytes();
    let mut count = 0;
    let mut i = bytes.len();
    while i > 0 && bytes[i - 1] == b'\\' {
        count += 1;
        i -= 1;
    }
    count % 2 == 1
}

#[test]
fn telegram_v2_never_splits_after_lone_backslash() {
    let splitter = TelegramMarkdownV2Splitter::new(10, None);
    let text = "abcdef\\.gh more text after".to_string();
    let chunks = splitter.split(&text);
    for c in &chunks {
        assert!(
            !ends_with_unbalanced_backslash(c),
            "chunk ends mid-escape: {c:?}"
        );
    }
}

#[test]
fn telegram_v2_double_backslash_is_safe_to_split_after() {
    let raw = "abcd\\\\efghij more".to_string();
    assert_eq!(avoid_split_after_backslash(&raw, 6), 6);
}

#[test]
fn telegram_v2_lone_backslash_keeps_the_escaped_char() {
    let raw = "abcde\\.fgh";
    assert_eq!(avoid_split_after_backslash(raw, 6), 7);
}

#[test]
fn telegram_v2_inherits_block_fence_close_reopen() {
    let splitter = TelegramMarkdownV2Splitter::new(30, None);
    let code = "x".repeat(80);
    let text = format!("```\n{code}\n```");
    let chunks = splitter.split(&text);
    for c in &chunks {
        let opens = c.matches("```").count();
        assert!(opens >= 2, "each chunk must be a complete code block: {c}");
    }
}

fn without_close(chunk: &str) -> &str {
    for close in ["\n```", "\n~~~"] {
        if let Some(body) = chunk.strip_suffix(close) {
            return body;
        }
    }
    chunk
}

#[test]
fn markdown_chunks_fit_before_their_fence_close() {
    let text = format!("intro line\n```rust\n{}```\nafter the block", "let x = 1;\n".repeat(30));
    let limit = 60;
    let chunks = MarkdownSplitter::new(limit, None).split(&text);
    assert!(chunks.len() > 1);
    for c in &chunks {
        assert!(without_close(c).len() <= limit, "{c:?}");
    }
}

#[test]
fn telegram_v2_chunks_pass_the_limit_by_at_most_an_escaped_char() {
    let text = "ab\\*cd\\_ef\\.gh ".repeat(20);
    let limit = 13;
    let chunks = TelegramMarkdownV2Splitter::new(limit, None).split(&text);
    for c in &chunks {
        assert!(without_close(c).len() <= limit + 4, "{c:?}");
    }
}

#[test]
fn markdown_chunks_of_fence_free_text_join_back_within_the_limit() {
    let text = "Some `code` here and a longer paragraph.\n\nAnother one with more words in it. ".repeat(6);
    let limit = 37;
    let chunks = MarkdownSplitter::new(limit, None).split(&text);
    assert_eq!(chunks.concat(), text);
    assert!(chunks.iter().all(|c| !c.is_empty() && c.len() <= limit));
}

#[test]
fn telegram_v2_chunks_end_on_whole_escapes() {
    let texts = [
        "a\\.b\\\\c\\_d ".repeat(30),
        "\\\\\\\\\\\\xyz\\\\".repeat(7),
        "use `code` and ```x``` or `y` \\* done\\\\".repeat(5),
    ];
    for text in texts {
        for limit in 4..14 {
            let chunks = TelegramMarkdownV2Splitter::new(limit, None).split(&text);
            for c in &chunks {
                let run = c.bytes().rev().take_while(|&b| b == b'\\').count();
                assert!(run % 2 == 0, "limit {limit}: {c:?}");
            }
        }
    }
}

#[test]
fn find_boundary_cuts_inside_a_multibyte_run_after_its_start() {
    let text = "🎉🎉🎉";
    for target in 4..text.len() {
        let r = find_boundary(text, target);
        assert!(r > 0 && r <= target && text.is_char_boundary(r), "target {target}: {r}");
    }
    assert_eq!(find_boundary(text, 3), 0);
    assert_eq!(find_boundary(text, text.len()), text.len());
}

#[test]
fn markdown_chunks_reassemble_with_inline_triple_backtick_spans() {
    let text = "call ```f(x)``` then `g` and ```h``` with `k` ".repeat(6);
    for limit in 4..40 {
        let chunks = MarkdownSplitter::new(limit, None).split(&text);
        assert_eq!(chunks.concat(), text, "limit {limit}");
        assert!(chunks.iter().all(|c| !c.is_empty() && c.len() <= limit));
    }
}

#[test]
fn a_chunk_starting_at_a_mid_line_fence_run_opens_a_fence() {
    let chunks = MarkdownSplitter::new(10, None).split("aaaa ```bbbbbbbbbbbbbb");
    assert_eq!(chunks, vec!["aaaa ", "```bbbbbbb\n```", "bbbbbbb"]);
}
