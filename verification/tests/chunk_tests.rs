use brainjar::config::KbType;
use brainjar::chunk::{chunk_code, chunk_file, chunk_markdown, chunk_text, is_code_boundary, Chunk, MAX_CHUNK_CHARS, MIN_CHUNK_CHARS};

// ─── Markdown ────────────────────────────────────────────────────────────

#[test]
fn test_chunk_markdown_empty() {
    let chunks = chunk_markdown("");
    assert!(chunks.is_empty());
}

#[test]
fn test_chunk_markdown_tiny_content_returns_single_chunk() {
    let content = "# Hello\nWorld\n";
    let chunks = chunk_markdown(content);
    assert!(!chunks.is_empty());
}

#[test]
fn test_chunk_markdown_headings_split() {
    let content = "# Introduction\n\
                   This is the intro paragraph with enough text to meet the minimum chunk size requirement.\n\
                   \n\
                   # Methods\n\
                   This is the methods section with enough content to qualify as a chunk.\n";
    let chunks = chunk_markdown(content);
    assert!(chunks.len() >= 2, "Expected at least 2 chunks, got {}", chunks.len());
    assert!(chunks.iter().any(|c| c.chunk_type == "heading_section"));
}

#[test]
fn test_chunk_markdown_code_block_tagged() {
    let content = "Intro paragraph that is long enough to meet the minimum size requirement here.\n\
                   \n\
                   ```rust\n\
                   fn main() {\n\
                       println!(\"hello\");\n\
                   }\n\
                   ```\n\
                   \n\
                   After code block with enough content to be a proper paragraph chunk.\n";
    let chunks = chunk_markdown(content);
    assert!(chunks.iter().any(|c| c.chunk_type == "code_block"), "Expected a code_block chunk");
}

#[test]
fn test_chunk_markdown_frontmatter_extracted() {
    let content = "---\ntitle: My Doc\ndate: 2024-01-01\nauthor: test\nstatus: draft\ntags: [rust, test]\n---\n\
                   \n\
                   # Body\n\
                   This is the body of the document with enough text to qualify as a chunk.\n";
    let chunks = chunk_markdown(content);
    assert!(chunks.iter().any(|c| c.chunk_type == "frontmatter"), "Expected frontmatter chunk");
}

#[test]
fn test_chunk_markdown_line_numbers_1indexed() {
    let content = "# Title\nLine 2\nLine 3\nLine 4\nLine 5\nLine 6\nLine 7\nLine 8\nLine 9\nLine 10\n";
    let chunks = chunk_markdown(content);
    assert!(!chunks.is_empty());
    assert!(chunks[0].line_start >= 1);
    assert!(chunks[0].line_end >= chunks[0].line_start);
}

#[test]
fn test_chunk_markdown_line_numbers_accurate() {
    let content = "# Heading\nContent line 1\nContent line 2\nContent line 3\n";
    let chunks = chunk_markdown(content);
    for chunk in &chunks {
        assert!(chunk.line_start >= 1, "line_start must be >= 1");
        assert!(chunk.line_end >= chunk.line_start, "line_end must be >= line_start");
    }
}

#[test]
fn test_chunk_markdown_no_duplicate_content() {
    let content = "# Heading One\n\
                   Content for heading one that is long enough to be chunked properly.\n\
                   \n\
                   # Heading Two\n\
                   Content for heading two that is long enough to be chunked properly.\n";
    let chunks = chunk_markdown(content);
    let all_content: String = chunks.iter().map(|c| c.content.clone()).collect::<Vec<_>>().join("\n---SEPARATOR---\n");
    assert_eq!(all_content.matches("Heading One").count(), 1, "Heading One appears multiple times");
}

// ─── Code ────────────────────────────────────────────────────────────────

#[test]
fn test_chunk_code_empty() {
    let chunks = chunk_code("");
    assert!(chunks.is_empty());
}

#[test]
fn test_chunk_code_rust_fn_boundary() {
    let content = "use std::fmt;\n\n\
                   fn first_function() {\n\
                       // does something with enough lines to qualify\n\
                       println!(\"hello\");\n\
                       let x = 42;\n\
                       let y = x + 1;\n\
                   }\n\
                   \n\
                   fn second_function() {\n\
                       // another function with enough content here\n\
                       println!(\"world\");\n\
                       let a = 1;\n\
                       let b = 2;\n\
                   }\n";
    let chunks = chunk_code(content);
    assert!(chunks.len() >= 2, "Expected at least 2 chunks for 2 functions, got {}", chunks.len());
}

#[test]
fn test_chunk_code_python_def_boundary() {
    let content = "import os\n\
                   import sys\n\
                   \n\
                   def first_function(x, y):\n\
                       \"\"\"First function docstring.\"\"\"\n\
                       result = x + y\n\
                       return result\n\
                   \n\
                   def second_function(a, b):\n\
                       \"\"\"Second function docstring.\"\"\"\n\
                       result = a * b\n\
                       return result\n";
    let chunks = chunk_code(content);
    assert!(chunks.len() >= 2, "Expected at least 2 chunks for 2 Python defs, got {}", chunks.len());
}

#[test]
fn test_chunk_code_line_numbers() {
    let content = "fn foo() {\n    let x = 1;\n    println!(\"{}\", x);\n    let y = 2;\n    let z = 3;\n}\n\
                   fn bar() {\n    let a = 4;\n    println!(\"{}\", a);\n    let b = 5;\n    let c = 6;\n}\n";
    let chunks = chunk_code(content);
    for chunk in &chunks {
        assert!(chunk.line_start >= 1);
        assert!(chunk.line_end >= chunk.line_start);
    }
}

#[test]
fn test_chunk_code_fallback_single_chunk() {
    let content = "x = 1\ny = 2\n";
    let chunks = chunk_code(content);
    assert!(!chunks.is_empty() || content.trim().len() < MIN_CHUNK_CHARS);
}

// ─── Text ────────────────────────────────────────────────────────────────

#[test]
fn test_chunk_text_empty() {
    let chunks = chunk_text("");
    assert!(chunks.is_empty());
}

#[test]
fn test_chunk_text_paragraph_split() {
    let content = "First paragraph has enough content to qualify as a chunk by itself here.\n\
                   More first paragraph content to ensure minimum size is met.\n\
                   \n\
                   Second paragraph also has enough content to qualify as its own chunk.\n\
                   More second paragraph content to ensure minimum size is met.\n";
    let chunks = chunk_text(content);
    assert!(chunks.len() >= 2, "Expected 2 paragraph chunks, got {}", chunks.len());
    for chunk in &chunks {
        assert_eq!(chunk.chunk_type, "paragraph");
    }
}

#[test]
fn test_chunk_text_single_paragraph() {
    let content = "This is a single paragraph with enough text to qualify.\nIt continues here.\n";
    let chunks = chunk_text(content);
    assert!(!chunks.is_empty());
}

#[test]
fn test_chunk_text_min_size_enforced() {
    let content = "Hi.\n";
    let chunks = chunk_text(content);
    assert!(chunks.is_empty() || chunks[0].content == content.trim_end_matches('\n') || !chunks.is_empty());
}

#[test]
fn test_chunk_text_line_numbers_accurate() {
    let content = "Para one line one.\nPara one line two.\nPara one line three.\n\
                   \n\
                   Para two line one.\nPara two line two.\nPara two line three.\n";
    let chunks = chunk_text(content);
    for chunk in &chunks {
        assert!(chunk.line_start >= 1);
        assert!(chunk.line_end >= chunk.line_start);
    }
}

// ─── Dispatcher ──────────────────────────────────────────────────────────

#[test]
fn test_chunk_file_dispatches_markdown() {
    let content = "# Title\nThis is a markdown document with enough content to qualify as a chunk.\n";
    let chunks = chunk_file("notes/hello.md", content, None);
    assert!(!chunks.is_empty());
    assert!(chunks.iter().any(|c| c.chunk_type == "heading_section" || c.chunk_type == "paragraph"));
}

#[test]
fn test_chunk_file_dispatches_rust() {
    let content = "fn main() {\n    println!(\"hello world and more content here\");\n    let x = 42;\n    let y = x + 1;\n    println!(\"{}\", y);\n}\n";
    let chunks = chunk_file("src/main.rs", content, None);
    assert!(!chunks.is_empty());
}

#[test]
fn test_chunk_file_dispatches_text() {
    let content = "This is a plain text file.\nIt has multiple lines of content.\nEnough to be a proper chunk.\n";
    let chunks = chunk_file("notes/readme.txt", content, None);
    assert!(!chunks.is_empty());
}

#[test]
fn test_chunk_file_ts_uses_code_strategy() {
    let content = "function hello() {\n  console.log('hello world with enough content');\n  return 42;\n}\n\
                   function world() {\n  console.log('another function here');\n  return 99;\n}\n";
    let chunks = chunk_file("app.ts", content, None);
    assert!(!chunks.is_empty());
}

// ─── Edge cases ──────────────────────────────────────────────────────────

#[test]
fn test_chunk_large_content_stays_under_max() {
    let mut content = String::new();
    for i in 0..100 {
        content.push_str(&format!("# Section {}\n", i));
        for j in 0..20 {
            content.push_str(&format!("Line {} of section {}. Adding more words to hit chunk size.\n", j, i));
        }
        content.push('\n');
    }
    let chunks = chunk_markdown(&content);
    for chunk in &chunks {
        assert!(chunk.content.len() <= MAX_CHUNK_CHARS * 2, "Chunk too large: {} chars", chunk.content.len());
    }
}

#[test]
fn test_chunk_markdown_no_overlap() {
    let content = "# Section A\n\
                   This is section A content with enough text here.\n\
                   More content for section A.\n\
                   \n\
                   # Section B\n\
                   This is section B content with enough text here.\n\
                   More content for section B.\n";
    let chunks = chunk_markdown(content);
    let mut last_end = 0usize;
    for chunk in &chunks {
        assert!(
            chunk.line_start > last_end || last_end == 0,
            "Overlapping chunks: last_end={}, line_start={}",
            last_end,
            chunk.line_start
        );
        last_end = chunk.line_end;
    }
}

#[test]
fn test_chunk_code_is_code_boundary() {
    assert!(is_code_boundary("fn foo() {"));
    assert!(is_code_boundary("pub fn bar(x: i32) -> i32 {"));
    assert!(is_code_boundary("async fn process() {"));
    assert!(is_code_boundary("impl MyStruct {"));
    assert!(is_code_boundary("struct Config {"));
    assert!(is_code_boundary("def my_function(x):"));
    assert!(is_code_boundary("class MyClass:"));
    assert!(is_code_boundary("function hello() {"));
    assert!(is_code_boundary("func main() {"));
    assert!(!is_code_boundary("let x = 5;"));
    assert!(!is_code_boundary("  // comment"));
    assert!(!is_code_boundary("return value;"));
}

// ─── Content-loss regression tests ───────────────────────────────────────

fn assert_all_words_present(content: &str, chunks: &[Chunk]) {
    let all_text: String = chunks.iter().map(|c| c.content.as_str()).collect::<Vec<_>>().join(" ");
    for word in content.split_whitespace() {
        let clean = word.trim_matches(|c: char| !c.is_alphanumeric());
        if !clean.is_empty() {
            assert!(all_text.contains(clean), "Word '{}' from source not found in any chunk", clean);
        }
    }
}

#[test]
fn test_no_content_lost_markdown() {
    let content = "# Short Title\n\n## Section One\n\nSome paragraph text here that is long enough to be its own chunk.\n";
    let chunks = chunk_file("test.md", content, None);
    assert_all_words_present(content, &chunks);
}

#[test]
fn test_no_content_lost_code() {
    let content = "// Copyright\n\nfn first_function() {\n    // This function does something meaningful here.\n    let x = 42;\n    println!(\"{}\", x);\n}\n\nfn second_function() {\n    // This function also does something meaningful.\n    let y = 99;\n    println!(\"{}\", y);\n}\n";
    let chunks = chunk_file("test.rs", content, None);
    assert_all_words_present(content, &chunks);
}

#[test]
fn test_no_content_lost_text() {
    let content = "Hi.\n\nThis is a longer paragraph with enough content to qualify as its own chunk.\nIt continues here with more words.\n\nAnother short one.\n\nAnd a final paragraph that is long enough to stand on its own as a proper chunk.\n";
    let chunks = chunk_file("notes.txt", content, None);
    assert_all_words_present(content, &chunks);
}

#[test]
fn test_short_h1_merged_into_first_section() {
    let content = "# Atlas Architecture\n\n## Ingestion Layer\n\nSome content about the ingestion layer that is long enough.\n";
    let chunks = chunk_file("architecture.md", content, None);
    let all_text: String = chunks.iter().map(|c| c.content.as_str()).collect::<Vec<_>>().join(" ");
    assert!(all_text.contains("Architecture"), "Expected 'Architecture' to appear in some chunk, but all_text was: {:?}", all_text);
    assert!(all_text.contains("Atlas"), "Expected 'Atlas' to appear in some chunk");
}

#[test]
fn test_merge_preserves_line_numbers() {
    let content = "# Short Title\n\n## Section\n\nThis section has enough content to qualify on its own as a chunk.\n";
    let chunks = chunk_file("test.md", content, None);
    assert!(!chunks.is_empty(), "Expected at least one chunk");
    let first = &chunks[0];
    assert_eq!(first.line_start, 1, "Merged chunk should start at line 1");
    assert!(first.line_end >= 3, "Merged chunk line_end should cover the section heading");
}

#[test]
fn test_single_short_chunk_not_discarded() {
    let content = "# Hi\n";
    let chunks = chunk_file("test.md", content, None);
    assert!(!chunks.is_empty(), "A file with only a short title must not produce zero chunks");
    let all_text: String = chunks.iter().map(|c| c.content.as_str()).collect::<Vec<_>>().join(" ");
    assert!(all_text.contains("Hi"), "The title word must appear in output");
}

#[test]
fn test_chunk_fallback_for_unsupported_ext() {
    let content = "some unknown content here that should be handled gracefully\n";
    let chunks = chunk_file("src/Foo.unknownext", content, Some(&KbType::Code));
    let _ = chunks;
}
