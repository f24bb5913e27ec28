//! Tests of the token classifier and the test-section detector on
//! real parsed sources: the parser collaborator turns the text into
//! the library's token list and node tree, and the library does the
//! classification.

use ra_ap_syntax::ast::HasAttrs;
use ra_ap_syntax::{ast, AstNode, SourceFile, SyntaxKind, SyntaxNode};
use ruloc::classify::{analyze_lines, Token, TokenKind};
use ruloc::detect::{classify_lines, find_test_sections, is_test_node, Attr, Node, NodeKind};
use ruloc::stats::LineType;

/// Parses a source text into the library's token list.
fn parse_tokens(content: &str) -> Vec<Token> {
    let parse = SourceFile::parse(content, ra_ap_syntax::Edition::CURRENT);
    let root = parse.syntax_node();
    root.descendants_with_tokens()
        .filter_map(|e| e.into_token())
        .map(|t| {
            let kind = match t.kind() {
                SyntaxKind::COMMENT => TokenKind::Comment,
                SyntaxKind::WHITESPACE => TokenKind::Whitespace,
                _ => TokenKind::Other,
            };
            let range = t.text_range();
            Token {
                kind,
                start: u32::from(range.start()) as usize,
                end: u32::from(range.end()) as usize,
                text: t.text().to_string(),
            }
        })
        .collect()
}

/// Converts one parsed node, with its annotations and children, into
/// the library's tree.
fn convert_node(n: &SyntaxNode) -> Node {
    let mut attrs: Vec<Attr> = Vec::new();
    let kind = if let Some(func) = ast::Fn::cast(n.clone()) {
        for attr in func.attrs() {
            if let Some(path) = attr.path() {
                attrs.push(Attr {
                    name: path.to_string(),
                    args: attr.token_tree().map(|tt| tt.syntax().text().to_string()),
                });
            }
        }
        NodeKind::Function
    } else if let Some(module) = ast::Module::cast(n.clone()) {
        for attr in module.attrs() {
            if let Some(path) = attr.path() {
                attrs.push(Attr {
                    name: path.to_string(),
                    args: attr.token_tree().map(|tt| tt.syntax().text().to_string()),
                });
            }
        }
        NodeKind::Module
    } else {
        NodeKind::Other
    };
    let range = n.text_range();
    Node {
        kind,
        start: u32::from(range.start()) as usize,
        end: u32::from(range.end()) as usize,
        attrs,
        children: n.children().map(|c| convert_node(&c)).collect(),
    }
}

/// Parses a source text into the library's tree.
fn parse_root(content: &str) -> Node {
    let parse = SourceFile::parse(content, ra_ap_syntax::Edition::CURRENT);
    convert_node(&parse.syntax_node())
}

fn analyze_lines_str(content: &str) -> Vec<LineType> {
    analyze_lines(content.as_bytes(), &parse_tokens(content))
}

fn classify_lines_str(content: &str) -> Vec<bool> {
    classify_lines(content.as_bytes(), &parse_root(content))
}

#[test]
fn test_analyze_lines_blank() {
    let content = "\n\n  \n\t\n";
    let line_types = analyze_lines_str(content);
    assert_eq!(line_types.len(), 4);
    assert!(line_types.iter().all(|&t| t == LineType::Blank));
}

#[test]
fn test_analyze_lines_line_comments() {
    let content = "// comment 1\n// comment 2\n/// doc comment";
    let line_types = analyze_lines_str(content);
    assert_eq!(line_types.len(), 3);
    assert_eq!(line_types[0], LineType::Comment);
    assert_eq!(line_types[1], LineType::Comment);
    assert_eq!(line_types[2], LineType::Rustdoc);
}

#[test]
fn test_analyze_lines_block_comment() {
    let content = "/* start\nmiddle\nend */";
    let line_types = analyze_lines_str(content);
    assert_eq!(line_types.len(), 3);
    assert!(line_types.iter().all(|&t| t == LineType::Comment));
}

#[test]
fn test_analyze_lines_code() {
    let content = "fn main() {\n    println!(\"hello\");\n}";
    let line_types = analyze_lines_str(content);
    assert_eq!(line_types.len(), 3);
    assert!(line_types.iter().all(|&t| t == LineType::Code));
}

#[test]
fn test_analyze_lines_mixed() {
    let content = "// comment\n\nfn main() {}";
    let line_types = analyze_lines_str(content);
    assert_eq!(line_types.len(), 3);
    assert_eq!(line_types[0], LineType::Comment);
    assert_eq!(line_types[1], LineType::Blank);
    assert_eq!(line_types[2], LineType::Code);
}

#[test]
fn test_empty_file_analysis() {
    let content = "";
    let line_types = analyze_lines_str(content);
    assert_eq!(line_types.len(), 0);
}

#[test]
fn test_analyze_lines_empty_content() {
    let content = "";
    let line_types = analyze_lines_str(content);
    assert_eq!(line_types.len(), 0);
}

#[test]
fn test_analyze_lines_multiline_block_comment() {
    let content = "code line\n/* comment start\ncomment middle\ncomment end */\nmore code";
    let line_types = analyze_lines_str(content);
    assert_eq!(line_types.len(), 5);
    assert_eq!(line_types[0], LineType::Code);
    assert_eq!(line_types[1], LineType::Comment);
    assert_eq!(line_types[2], LineType::Comment);
    assert_eq!(line_types[3], LineType::Comment);
    assert_eq!(line_types[4], LineType::Code);
}

#[test]
fn test_analyze_lines_single_line_block_comment() {
    let content = "/* single line block comment */\ncode();\n";
    let line_types = analyze_lines_str(content);
    assert_eq!(line_types.len(), 2);
    assert_eq!(line_types[0], LineType::Comment);
    assert_eq!(line_types[1], LineType::Code);
}

#[test]
fn test_analyze_lines_code_after_block_comment() {
    let content = "/* comment */ code();";
    let line_types = analyze_lines_str(content);
    assert_eq!(line_types.len(), 1);
    assert_eq!(line_types[0], LineType::Comment);
}

#[test]
fn test_analyze_lines_mixed_comments() {
    let content = "// Line comment\n/* Block start\nStill in block\nBlock end */\n// Another line comment\ncode();";
    let line_types = analyze_lines_str(content);
    assert_eq!(line_types.len(), 6);
    assert_eq!(line_types[0], LineType::Comment);
    assert_eq!(line_types[1], LineType::Comment);
    assert_eq!(line_types[2], LineType::Comment);
    assert_eq!(line_types[3], LineType::Comment);
    assert_eq!(line_types[4], LineType::Comment);
    assert_eq!(line_types[5], LineType::Code);
}

#[test]
fn test_analyze_lines_with_tabs() {
    let content = "\t\t// Indented comment\n\t\tfn code() {}\n";
    let line_types = analyze_lines_str(content);
    assert_eq!(line_types.len(), 2);
    assert_eq!(line_types[0], LineType::Comment);
    assert_eq!(line_types[1], LineType::Code);
}

#[test]
fn test_analyze_lines_rustdoc() {
    let content =
        "/// This is a rustdoc comment\n//! Module doc\n/** Block rustdoc */\n/*! Block module doc */";
    let line_types = analyze_lines_str(content);
    assert_eq!(line_types.len(), 4);
    assert_eq!(line_types[0], LineType::Rustdoc);
    assert_eq!(line_types[1], LineType::Rustdoc);
    assert_eq!(line_types[2], LineType::Rustdoc);
    assert_eq!(line_types[3], LineType::Rustdoc);
}

#[test]
fn test_analyze_lines_mixed_rustdoc_comments() {
    let content = "/// Rustdoc\n// Regular\n//! Module doc\n/* Block */\n/** Block rustdoc */";
    let line_types = analyze_lines_str(content);
    assert_eq!(line_types.len(), 5);
    assert_eq!(line_types[0], LineType::Rustdoc);
    assert_eq!(line_types[1], LineType::Comment);
    assert_eq!(line_types[2], LineType::Rustdoc);
    assert_eq!(line_types[3], LineType::Comment);
    assert_eq!(line_types[4], LineType::Rustdoc);
}

#[test]
fn test_analyze_lines_multiline_rustdoc_block() {
    let content = "/** Start rustdoc\nContinued rustdoc\nEnd rustdoc */\ncode();";
    let line_types = analyze_lines_str(content);
    assert_eq!(line_types.len(), 4);
    assert_eq!(line_types[0], LineType::Rustdoc);
    assert_eq!(line_types[1], LineType::Rustdoc);
    assert_eq!(line_types[2], LineType::Rustdoc);
    assert_eq!(line_types[3], LineType::Code);
}

#[test]
fn test_analyze_lines_module_rustdoc() {
    let content = "//! Module level documentation\n//! Continued\n\nfn main() {}";
    let line_types = analyze_lines_str(content);
    assert_eq!(line_types.len(), 4);
    assert_eq!(line_types[0], LineType::Rustdoc);
    assert_eq!(line_types[1], LineType::Rustdoc);
    assert_eq!(line_types[2], LineType::Blank);
    assert_eq!(line_types[3], LineType::Code);
}

#[test]
fn test_analyze_lines_rustdoc_block_multiline() {
    let content = "/*!\n * Module doc\n * More doc\n */";
    let line_types = analyze_lines_str(content);
    assert_eq!(line_types.len(), 4);
    assert!(line_types.iter().all(|&t| t == LineType::Rustdoc));
}

#[test]
fn test_analyze_lines_edge_cases() {
    let content = "";
    let line_types = analyze_lines_str(content);
    assert_eq!(line_types.len(), 0);

    let content = "\n\n\n";
    let line_types = analyze_lines_str(content);
    assert_eq!(line_types.len(), 3);
    assert!(line_types.iter().all(|&t| t == LineType::Blank));

    let content = "fn test() {} // comment";
    let line_types = analyze_lines_str(content);
    assert_eq!(line_types.len(), 1);
    assert_eq!(line_types[0], LineType::Comment);
}

#[test]
fn test_analyze_lines_offset_mapping() {
    let content = "line1\nline2\nline3";
    let line_types = analyze_lines_str(content);
    assert_eq!(line_types.len(), 3);
    assert!(line_types.iter().all(|&t| t == LineType::Code));
}

#[test]
fn test_analyze_lines_long_lines() {
    let long_comment = format!("// {}", "x".repeat(5000));
    let long_code = format!("fn test() {{ {} }}", "x".repeat(5000));
    let content = format!("{}\n{}", long_comment, long_code);
    let line_types = analyze_lines_str(&content);
    assert_eq!(line_types.len(), 2);
    assert_eq!(line_types[0], LineType::Comment);
    assert_eq!(line_types[1], LineType::Code);
}

#[test]
fn test_analyze_lines_comment_in_string() {
    let content = "let s = \"// not a comment\";";
    let line_types = analyze_lines_str(content);
    assert_eq!(line_types.len(), 1);
    assert_eq!(line_types[0], LineType::Code);
}

#[test]
fn test_classify_lines_no_tests() {
    let content = "fn main() {\n    println!(\"hello\");\n}";
    let is_test = classify_lines_str(content);
    assert_eq!(is_test.len(), 3);
    assert!(is_test.iter().all(|&x| !x));
}

#[test]
fn test_classify_lines_with_test_function() {
    let content = "\nfn production() {}\n\n#[test]\nfn test_something() {\n    assert!(true);\n}\n";
    let is_test = classify_lines_str(content);
    assert!(!is_test.is_empty());
    assert!(is_test.iter().any(|&x| x));
}

#[test]
fn test_classify_lines_with_test_module() {
    let content = "\nfn production() {}\n\n#[cfg(test)]\nmod tests {\n    #[test]\n    fn test_it() {}\n}\n";
    let is_test = classify_lines_str(content);
    assert!(!is_test.is_empty());
    assert!(is_test.iter().any(|&x| x));
}

#[test]
fn test_classify_lines_mixed() {
    let code = "\nfn production() {}\n\n#[cfg(test)]\nmod tests {\n    fn helper() {}\n\n    #[test]\n    fn test_fn() {}\n}\n";
    let result = classify_lines_str(code);
    assert!(result.iter().any(|&is_test| is_test));
    assert!(result.iter().any(|&is_test| !is_test));
}

#[test]
fn test_classify_lines_production_and_test_mixed() {
    let code = "\nfn production() {}\n\n#[test]\nfn test_func() {\n    assert!(true);\n}\n\nfn more_production() {}\n";
    let result = classify_lines_str(code);
    assert!(result.iter().any(|&is_test| is_test));
    assert!(result.iter().any(|&is_test| !is_test));
}

#[test]
fn test_classify_lines_nested_test_modules() {
    let code = "\nfn production() {}\n\n#[cfg(test)]\nmod tests {\n    #[cfg(test)]\n    mod nested {\n        #[test]\n        fn inner() {}\n    }\n}\n";
    let result = classify_lines_str(code);
    assert!(result.iter().any(|&is_test| is_test));
    assert!(result.iter().any(|&is_test| !is_test));
}

#[test]
fn test_classify_lines_empty() {
    let result = classify_lines_str("");
    assert_eq!(result.len(), 0);
}

#[test]
fn test_classify_lines_all_production() {
    let content = "fn prod1() {}\nfn prod2() {}\nfn prod3() {}";
    let result = classify_lines_str(content);
    assert!(result.iter().all(|&is_test| !is_test));
}

#[test]
fn test_classify_lines_complex_cfg_test() {
    let content = "\n// Production code\nfn prod() {}\n\n#[cfg(test)]\nfn test_helper() {}\n\n#[cfg(test)]\nmod tests {\n    #[test]\n    fn test1() {}\n}\n";
    let is_test = classify_lines_str(content);
    let test_count = is_test.iter().filter(|&&x| x).count();
    let prod_count = is_test.iter().filter(|&&x| !x).count();
    assert!(test_count > 0, "Should detect test lines");
    assert!(prod_count > 0, "Should detect production lines");
}

#[test]
fn test_is_test_node_regular_function() {
    let root = parse_root("fn regular_function() {}");
    assert!(!is_test_node(&root));
}

#[test]
fn test_is_test_node_test_function() {
    let root = parse_root("#[test]\nfn test_something() {}");
    fn find_test_fn(n: &Node) -> bool {
        (n.kind == NodeKind::Function && is_test_node(n)) || n.children.iter().any(find_test_fn)
    }
    assert!(find_test_fn(&root), "Should have found a test node");
}

#[test]
fn test_is_test_node_normal_code() {
    let root = parse_root("fn regular_function() {}");
    fn no_test_nodes(n: &Node) -> bool {
        !is_test_node(n) && n.children.iter().all(no_test_nodes)
    }
    assert!(no_test_nodes(&root));
}

#[test]
fn test_is_test_node_with_cfg_test_module() {
    let root = parse_root("#[cfg(test)]\nmod tests {}");
    fn find_cfg_module(n: &Node) -> bool {
        (n.kind == NodeKind::Module && n.attrs.iter().any(|a| a.name == "cfg"))
            || n.children.iter().any(find_cfg_module)
    }
    assert!(find_cfg_module(&root));
}

#[test]
fn test_is_test_node_cfg_test_detection() {
    let code = "\n#[cfg(test)]\nmod tests {\n    fn helper() {}\n}\n";
    let root = parse_root(code);
    fn find_test(n: &Node) -> bool {
        is_test_node(n) || n.children.iter().any(find_test)
    }
    assert!(find_test(&root), "Should detect #[cfg(test)] module as test node");
}

#[test]
fn test_is_test_node_cfg_test_on_function() {
    let code = "\n#[cfg(test)]\nfn helper_function() {\n    println!(\"test helper\");\n}\n";
    let root = parse_root(code);
    fn find_test_fn(n: &Node) -> bool {
        (n.kind == NodeKind::Function && is_test_node(n)) || n.children.iter().any(find_test_fn)
    }
    assert!(find_test_fn(&root), "Should detect #[cfg(test)] on function");
}

#[test]
fn test_find_test_sections_function() {
    let content = "\nfn production() {}\n\n#[test]\nfn test_one() {}\n\n#[test]\nfn test_two() {}\n";
    let root = parse_root(content);
    let mut sections = Vec::new();
    find_test_sections(&root, &mut sections, content.as_bytes());
    assert_eq!(sections.len(), 2);
}

#[test]
fn test_find_test_sections_multiple_annotations() {
    let content = "\nfn production() {}\n\n#[test]\nfn test_alpha() {\n    assert!(true);\n}\n\n#[test]\nfn test_beta() {\n    assert!(false || true);\n}\n";
    let root = parse_root(content);
    let mut sections = Vec::new();
    find_test_sections(&root, &mut sections, content.as_bytes());
    assert!(sections.len() >= 2);
}

#[test]
fn test_find_test_sections_nested_modules() {
    let content = "\n#[cfg(test)]\nmod tests {\n    mod inner {\n        #[test]\n        fn test() {}\n    }\n}";
    let root = parse_root(content);
    let mut sections = Vec::new();
    find_test_sections(&root, &mut sections, content.as_bytes());
    assert!(!sections.is_empty());
}

#[test]
fn test_code_section_ranges() {
    let content = "\nfn prod() {}\n\n#[test]\nfn test1() {}\n\n#[test]\nfn test2() {}\n";
    let root = parse_root(content);
    let mut sections = Vec::new();
    find_test_sections(&root, &mut sections, content.as_bytes());
    assert!(sections.len() >= 2);
    for section in &sections {
        assert!(section.end_line >= section.start_line);
    }
}

/// A nested test-qualified function inside a test-qualified module is
/// subsumed: the detector returns the outer module's section alone.
#[test]
fn test_find_test_sections_subsumes_nested() {
    let content = "fn top() {}\n\n#[cfg(test)]\nmod tests {\n    #[test]\n    fn test_inner() {}\n}\n";
    let root = parse_root(content);
    let mut sections = Vec::new();
    find_test_sections(&root, &mut sections, content.as_bytes());
    assert_eq!(sections.len(), 1);
}

/// A line comment followed by one statement line classifies as one
/// comment line and one code line, all production.
#[test]
fn test_comment_then_statement_is_production() {
    let content = "// note\nlet x = 1;";
    let line_types = analyze_lines_str(content);
    assert_eq!(line_types, vec![LineType::Comment, LineType::Code]);
    let mask = classify_lines_str(content);
    assert_eq!(mask, vec![false, false]);
    let stats = ruloc::analyze::analyze_content(
        "a.rs".to_string(),
        content.as_bytes(),
        &parse_tokens(content),
        &parse_root(content),
    );
    assert_eq!(stats.production, stats.total);
    assert_eq!(stats.test.all_lines, 0);
}

/// Three blank lines reduce to three lines, all blank.
#[test]
fn test_three_blank_lines() {
    let content = "\n\n\n";
    let line_types = analyze_lines_str(content);
    assert_eq!(line_types.len(), 3);
    let stats = ruloc::classify::compute_line_stats(&line_types, 3);
    assert_eq!(stats.all_lines, 3);
    assert_eq!(stats.blank_lines, 3);
    assert_eq!(stats.comment_lines, 0);
    assert_eq!(stats.rustdoc_lines, 0);
    assert_eq!(stats.code_lines, 0);
}

/// The analysis of a whole file: production and test parts add up to
/// the total, field by field.
#[test]
fn test_analyze_content_partition() {
    let content = "//! Docs\n\nfn prod() {\n    // note\n    work();\n}\n\n#[cfg(test)]\nmod tests {\n    #[test]\n    fn t() {}\n}\n";
    let stats = ruloc::analyze::analyze_content(
        "lib.rs".to_string(),
        content.as_bytes(),
        &parse_tokens(content),
        &parse_root(content),
    );
    assert_eq!(stats.path, "lib.rs");
    assert_eq!(stats.total.all_lines, stats.production.all_lines + stats.test.all_lines);
    assert_eq!(stats.total.blank_lines, stats.production.blank_lines + stats.test.blank_lines);
    assert_eq!(
        stats.total.comment_lines,
        stats.production.comment_lines + stats.test.comment_lines
    );
    assert_eq!(
        stats.total.rustdoc_lines,
        stats.production.rustdoc_lines + stats.test.rustdoc_lines
    );
    assert_eq!(stats.total.code_lines, stats.production.code_lines + stats.test.code_lines);
    assert!(stats.test.code_lines > 0);
    assert!(stats.production.code_lines > 0);
    assert!(stats.total.rustdoc_lines > 0);
    assert!(stats.total.blank_lines > 0);
}

/// An empty file reduces to all-zero counts.
#[test]
fn test_analyze_content_empty() {
    let stats = ruloc::analyze::analyze_content(
        "empty.rs".to_string(),
        b"",
        &parse_tokens(""),
        &parse_root(""),
    );
    assert_eq!(stats.total.all_lines, 0);
    assert_eq!(stats.total.code_lines, 0);
    assert_eq!(stats.production.all_lines, 0);
    assert_eq!(stats.test.all_lines, 0);
}

/// Runs the whole analysis on in-memory content.
fn analyze_str(path: &str, content: &str) -> ruloc::stats::FileStats {
    ruloc::analyze::analyze_content(
        path.to_string(),
        content.as_bytes(),
        &parse_tokens(content),
        &parse_root(content),
    )
}

#[test]
fn test_analyze_file_only_comments() {
    let content = "// Comment 1\n// Comment 2\n/* Block comment */\n";
    let stats = analyze_str("test_only_comments.rs", content);
    assert_eq!(stats.total.comment_lines, 3);
    assert_eq!(stats.total.code_lines, 0);
}

#[test]
fn test_analyze_file_only_whitespace() {
    let content = "   \n\t\n  \t  \n";
    let stats = analyze_str("test_whitespace.rs", content);
    assert_eq!(stats.total.blank_lines, 3);
    assert_eq!(stats.total.code_lines, 0);
}

#[test]
fn test_analyze_file_empty() {
    let stats = analyze_str("test_empty.rs", "");
    assert_eq!(stats.total.all_lines, 0);
    assert_eq!(stats.total.code_lines, 0);
    assert_eq!(stats.production.all_lines, 0);
    assert_eq!(stats.test.all_lines, 0);
}

#[test]
fn test_analyze_file_invalid_rust() {
    let invalid_code = "fn broken( {}\nthis is not rust\n";
    let stats = analyze_str("test_invalid.rs", invalid_code);
    assert_eq!(stats.total.all_lines, 2);
}

#[test]
fn test_analyze_file_nested_tests() {
    let content = "\nfn prod() {}\n\n#[cfg(test)]\nmod tests {\n    #[cfg(test)]\n    mod nested {\n        #[test]\n        fn inner_test() {}\n    }\n}\n";
    let stats = analyze_str("test_nested.rs", content);
    assert!(stats.test.code_lines > 0);
}

#[test]
fn test_analyze_file_cfg_test_module() {
    let content = "\nfn production_code() {}\n\n#[cfg(test)]\nmod test_module {\n    #[test]\n    fn test_helper() {}\n}\n";
    let stats = analyze_str("test_cfg_module.rs", content);
    assert!(stats.total.all_lines > 0);
    assert!(stats.production.code_lines > 0);
}

#[test]
fn test_analyze_file_integration() {
    let content = "\n// Production code\nfn hello() {\n    println!(\"hello\");\n}\n\n#[cfg(test)]\nmod tests {\n    #[test]\n    fn test_hello() {\n        assert!(true);\n    }\n}\n";
    let stats = analyze_str("test_ruloc.rs", content);
    assert!(stats.total.all_lines > 0);
    assert!(stats.production.code_lines > 0);
    assert!(stats.test.code_lines > 0);
}

#[test]
fn test_analyze_file_large_file() {
    let mut content = String::new();
    for i in 0..1000 {
        content.push_str(&format!("// Line {}\n", i));
    }
    let stats = analyze_str("test_large_file.rs", &content);
    assert_eq!(stats.total.all_lines, 1000);
    assert_eq!(stats.total.comment_lines, 1000);
}

#[test]
fn test_analyze_file_mixed_content() {
    let content = "\n// Header comment\n\nfn production() {\n    // Inner comment\n    println!(\"hello\");\n}\n\n#[test]\nfn test() {\n\n    assert!(true);\n}\n";
    let stats = analyze_str("test_mixed_content.rs", content);
    assert!(stats.total.blank_lines > 0);
    assert!(stats.total.comment_lines > 0);
    assert!(stats.total.code_lines > 0);
    assert!(stats.production.code_lines > 0);
    assert!(stats.test.code_lines > 0);
}

#[test]
fn test_analyze_file_production_and_test() {
    let content = "\nfn production() {\n    println!(\"production\");\n}\n\n#[cfg(test)]\nmod tests {\n    #[test]\n    fn test_it() {\n        assert!(true);\n    }\n}\n";
    let stats = analyze_str("test_prod_test.rs", content);
    assert!(stats.production.code_lines > 0);
    assert!(stats.test.code_lines > 0);
}

#[test]
fn test_analyze_file_with_rustdoc() {
    let content = "/// Module documentation\n//! Crate documentation\n/// Function documentation\nfn documented_function() {\n    // Regular comment\n}\n\n/** Block rustdoc */\nfn another_function() {}\n\n#[cfg(test)]\nmod tests {\n    /// Test function doc\n    #[test]\n    fn test_it() {}\n}";
    let stats = analyze_str("test_rustdoc.rs", content);
    assert!(stats.total.rustdoc_lines > 0);
    assert!(stats.production.rustdoc_lines > 0);
}

#[test]
fn test_analyze_file_comprehensive_content() {
    let content = "\n//! Module docs\n\n// Regular comment\n\n/// Rustdoc for function\nfn production_fn() {\n    // Implementation\n    println!(\"prod\");\n}\n\n#[cfg(test)]\nmod tests {\n    /// Test docs\n    #[test]\n    fn test_something() {\n        assert!(true);\n    }\n\n    #[cfg(test)]\n    fn helper() {}\n}\n";
    let stats = analyze_str("comprehensive.rs", content);
    assert!(stats.total.all_lines > 0);
    assert!(stats.production.all_lines > 0);
    assert!(stats.test.all_lines > 0);
    assert!(stats.total.rustdoc_lines > 0);
    assert!(stats.total.comment_lines > 0);
    assert!(stats.total.blank_lines > 0);
}
