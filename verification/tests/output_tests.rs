use rsmap::output::{code_block, display_module_path, indent, tree_entry, truncate};

#[test]
fn test_indent() {
    assert_eq!(indent("hello\nworld", 4), "    hello\n    world");
}

#[test]
fn test_tree_entry() {
    assert_eq!(
        tree_entry("crate::engine::eval", "Expression evaluator", 2),
        "    - eval — Expression evaluator"
    );
}

#[test]
fn test_display_module_path() {
    assert_eq!(display_module_path("crate::engine::eval"), "engine::eval");
    assert_eq!(display_module_path("crate"), "crate");
}

#[test]
fn indent_leaves_empty_lines_empty() {
    assert_eq!(indent("a\n\nb", 2), "  a\n\n  b");
    assert_eq!(indent("", 3), "");
    assert_eq!(indent("x", 0), "x");
}

#[test]
fn indent_drops_the_last_line_feed_and_carriage_returns() {
    assert_eq!(indent("a\nb\n", 1), " a\n b");
    assert_eq!(indent("a\r\nb", 1), " a\n b");
    assert_eq!(indent("a\n\n", 1), " a\n");
    assert_eq!(indent("a\rb", 1), " a\rb");
}

#[test]
fn tree_entry_without_description() {
    assert_eq!(tree_entry("crate", "", 0), "- crate");
    assert_eq!(tree_entry("crate::config", "", 1), "  - config");
}

#[test]
fn tree_entry_takes_what_follows_the_last_separator() {
    assert_eq!(tree_entry("a:::b", "", 0), "- b");
    assert_eq!(tree_entry("a::", "d", 0), "-  — d");
    assert_eq!(tree_entry("a:b", "", 0), "- a:b");
}

#[test]
fn display_module_path_strips_one_prefix_only() {
    assert_eq!(display_module_path("crate::crate::x"), "crate::x");
    assert_eq!(display_module_path("crate::"), "");
    assert_eq!(display_module_path("mycrate::x"), "mycrate::x");
    assert_eq!(display_module_path(""), "");
}

#[test]
fn truncate_keeps_short_texts() {
    assert_eq!(truncate("hello", 5), "hello");
    assert_eq!(truncate("hello", 10), "hello");
    assert_eq!(truncate("", 0), "");
}

#[test]
fn truncate_cuts_three_bytes_before_the_limit() {
    assert_eq!(truncate("hello world", 8), "hello...");
    assert_eq!(truncate("hello world", 3), "...");
    assert_eq!(truncate("hello world", 1), "...");
    assert_eq!(truncate("héllo world", 6), "hé...");
}

#[test]
fn code_block_fences_the_code() {
    assert_eq!(code_block("fn f();", "rust"), "```rust\nfn f();\n```");
    assert_eq!(code_block("", ""), "```\n\n```");
}

#[test]
fn formatting_agrees_with_the_standard_library() {
    let alphabet = ['a', ':', ' ', '\n', '\r'];
    let mut texts = vec![String::new()];
    let mut last = vec![String::new()];
    for _ in 0..5 {
        let mut next = Vec::new();
        for s in &last {
            for c in alphabet {
                let mut t = s.clone();
                t.push(c);
                next.push(t);
            }
        }
        texts.extend(next.iter().cloned());
        last = next;
    }
    for s in &texts {
        let expected_indent = s
            .lines()
            .map(|line| {
                if line.is_empty() {
                    String::new()
                } else {
                    format!("   {}", line)
                }
            })
            .collect::<Vec<_>>()
            .join("\n");
        assert_eq!(indent(s, 3), expected_indent, "{:?}", s);
        let short = s.rsplit("::").next().unwrap_or(s);
        assert_eq!(tree_entry(s, "", 1), format!("  - {}", short), "{:?}", s);
        assert_eq!(tree_entry(s, "d", 0), format!("- {} — d", short), "{:?}", s);
        assert_eq!(
            display_module_path(s),
            s.strip_prefix("crate::").unwrap_or(s),
            "{:?}",
            s
        );
        for max in 0..7 {
            let expected = if s.len() <= max {
                s.to_string()
            } else {
                format!("{}...", &s[..max.saturating_sub(3)])
            };
            assert_eq!(truncate(s, max), expected, "{:?} {}", s, max);
        }
    }
}
