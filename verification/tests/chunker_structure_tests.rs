use deepseeker::chunker::MarkdownChunker;

#[test]
fn test_basic_chunking() {
    let markdown = r#"
# Main Title

This is some introductory text that should be chunked.

## Section 1

Some content under section 1.

```python
def hello():
    print("This code block should NEVER be split")
    print("Even if it's very long")
    return "complete"
```

More text after the code block.

### Subsection 1.1

Nested content here.
"#;

    let mut chunker = MarkdownChunker::new();
    let chunks = chunker.chunk(markdown).unwrap();

    // Should have multiple chunks
    assert!(chunks.len() > 0);

    // Find the code block chunk
    let code_chunk = chunks.iter().find(|c| c.chunk_type == "code");
    assert!(code_chunk.is_some());

    let code_chunk = code_chunk.unwrap();
    assert_eq!(code_chunk.language, Some("python".to_string()));
    assert!(code_chunk.content.contains("def hello()"));
    assert!(code_chunk.content.contains("return \"complete\""));

    // Code chunk should have proper header context
    assert!(code_chunk.headers.contains(&"Main Title".to_string()));
    assert!(code_chunk.headers.contains(&"Section 1".to_string()));
}

#[test]
fn test_header_hierarchy() {
    let markdown = r#"
# H1

Content under H1.

## H2

Content under H2.

### H3

Content under H3.

## Another H2

This should reset H3 context.
"#;

    let mut chunker = MarkdownChunker::new();
    let chunks = chunker.chunk(markdown).unwrap();

    // Check that headers are properly maintained
    for chunk in chunks {
        println!("Headers: {:?}, Content: {}", chunk.headers, chunk.content);
    }
}

#[test]
fn test_complex_nested_headers_with_code() {
    let markdown = r#"
# DeepSeeker - AI Search Engine

A local-first neural search engine for your documentation.

## Installation

### Prerequisites

Before installing, ensure you have:

```bash
node --version  # v18+
cargo --version # 1.70+
```

### Build from source

Clone and install:

```bash
git clone https://github.com/user/deepseeker
cd deepseeker
cargo build --release
```

## Architecture

### Core Components

#### Search Engine

The search engine uses hybrid retrieval:

```python
def hybrid_search(query, alpha=0.7):
    bm25_score = fts5_search(query)
    vec_score = vector_search(embed(query))
    return alpha * vec_score + (1 - alpha) * bm25_score
```

#### Indexer

Processes markdown with structure awareness.

### Database Schema

```sql
CREATE TABLE chunks (
    id INTEGER PRIMARY KEY,
    content TEXT,
    embedding BLOB
);
```
"#;

    let mut chunker = MarkdownChunker::new();
    let chunks = chunker.chunk(markdown).unwrap();

    // Find the Python code chunk
    let python_chunk = chunks.iter().find(|c|
        c.chunk_type == "code" && c.language == Some("python".to_string())
    );
    assert!(python_chunk.is_some());

    let python_chunk = python_chunk.unwrap();
    // Should preserve full header hierarchy
    assert!(python_chunk.headers.contains(&"DeepSeeker - AI Search Engine".to_string()));
    assert!(python_chunk.headers.contains(&"Architecture".to_string()));
    assert!(python_chunk.headers.contains(&"Core Components".to_string()));
    assert!(python_chunk.headers.contains(&"Search Engine".to_string()));

    // Code should be intact
    assert!(python_chunk.content.contains("def hybrid_search"));
    assert!(python_chunk.content.contains("return alpha"));
}

#[test]
fn test_multiple_code_blocks_same_header() {
    let markdown = r#"
# API Documentation

## Authentication

### JWT Token

Generate token:

```javascript
const token = jwt.sign({ userId: 123 }, SECRET_KEY);
```

Verify token:

```javascript
const decoded = jwt.verify(token, SECRET_KEY);
```

Usage in requests:

```bash
curl -H "Authorization: Bearer $TOKEN" https://api.example.com
```
"#;

    let mut chunker = MarkdownChunker::new();
    let chunks = chunker.chunk(markdown).unwrap();

    let code_chunks: Vec<_> = chunks.iter().filter(|c| c.chunk_type == "code").collect();
    assert_eq!(code_chunks.len(), 3);

    // All should have same header context
    for chunk in &code_chunks {
        assert!(chunk.headers.contains(&"API Documentation".to_string()));
        assert!(chunk.headers.contains(&"Authentication".to_string()));
        assert!(chunk.headers.contains(&"JWT Token".to_string()));
    }
}

#[test]
fn test_deep_nesting() {
    let markdown = r#"
# Project

## Module A

### Component X

#### Subcomponent Alpha

This is deeply nested content.

```rust
fn deeply_nested() {
    println!("Found me!");
}
```

## Module B

Content under Module B should not have Module A context.
"#;

    let mut chunker = MarkdownChunker::new();
    let chunks = chunker.chunk(markdown).unwrap();

    // Find code chunk
    let code_chunk = chunks.iter().find(|c| c.chunk_type == "code");
    assert!(code_chunk.is_some());

    let code_chunk = code_chunk.unwrap();
    assert_eq!(code_chunk.headers.len(), 4);
    assert_eq!(code_chunk.headers[0], "Project");
    assert_eq!(code_chunk.headers[1], "Module A");
    assert_eq!(code_chunk.headers[2], "Component X");
    assert_eq!(code_chunk.headers[3], "Subcomponent Alpha");

    // Module B content should reset context
    let module_b_chunks: Vec<_> = chunks.iter()
        .filter(|c| c.headers.last() == Some(&"Module B".to_string()))
        .collect();

    for chunk in &module_b_chunks {
        assert!(!chunk.headers.contains(&"Module A".to_string()));
        assert!(!chunk.headers.contains(&"Component X".to_string()));
    }
}

#[test]
fn test_code_block_special_chars() {
    let markdown = r#"
# Regex Examples

## Pattern Matching

```regex
^[a-zA-Z0-9._%+-]+@[a-zA-Z0-9.-]+\.[a-zA-Z]{2,}$
```

Special characters should be preserved.
"#;

    let mut chunker = MarkdownChunker::new();
    let chunks = chunker.chunk(markdown).unwrap();

    let code_chunk = chunks.iter().find(|c| c.chunk_type == "code");
    assert!(code_chunk.is_some());

    let code_chunk = code_chunk.unwrap();
    assert!(code_chunk.content.contains("[a-zA-Z0-9._%+-]+"));
    assert!(code_chunk.content.contains("\\.[a-zA-Z]{2,}$"));
}

#[test]
fn test_empty_code_blocks() {
    let markdown = r#"
# Test

```python
```

Content after empty block.
"#;

    let mut chunker = MarkdownChunker::new();
    let chunks = chunker.chunk(markdown).unwrap();

    // Empty code blocks should not create chunks
    let code_chunks: Vec<_> = chunks.iter().filter(|c| c.chunk_type == "code").collect();
    assert_eq!(code_chunks.len(), 0);
}

#[test]
fn test_indented_code_blocks() {
    let markdown = r#"
# Example

Regular text.

    indented code block
    line 2
    line 3

More text.
"#;

    let mut chunker = MarkdownChunker::new();
    let chunks = chunker.chunk(markdown).unwrap();

    let code_chunks: Vec<_> = chunks.iter().filter(|c| c.chunk_type == "code").collect();
    assert_eq!(code_chunks.len(), 1);

    // Indented blocks have no language
    assert_eq!(code_chunks[0].language, None);
    assert!(code_chunks[0].content.contains("indented code block"));
}

#[test]
fn test_header_context_reset() {
    let markdown = r#"
# Main

## Section A

### Subsection A1

Content A1.

```python
# Code under A1
print("A1")
```

## Section B

### Subsection B1

Content B1.

```python
# Code under B1
print("B1")
```
"#;

    let mut chunker = MarkdownChunker::new();
    let chunks = chunker.chunk(markdown).unwrap();

    let code_chunks: Vec<_> = chunks.iter().filter(|c| c.chunk_type == "code").collect();
    assert_eq!(code_chunks.len(), 2);

    // First code block
    assert_eq!(code_chunks[0].headers, vec!["Main", "Section A", "Subsection A1"]);

    // Second code block (context should reset at Section B)
    assert_eq!(code_chunks[1].headers, vec!["Main", "Section B", "Subsection B1"]);
    assert!(!code_chunks[1].headers.contains(&"Section A".to_string()));
}

#[test]
fn test_mixed_content_types() {
    let markdown = r#"
# Tutorial

## Step 1: Setup

Install dependencies:

```bash
npm install
```

## Step 2: Configuration

Edit your `config.json`:

```json
{
  "port": 3000,
  "host": "localhost"
}
```

Some inline `code snippet` here.

## Step 3: Run

Execute the server:

```bash
npm start
```
"#;

    let mut chunker = MarkdownChunker::new();
    let chunks = chunker.chunk(markdown).unwrap();

    // Should have 3 code blocks
    let code_chunks: Vec<_> = chunks.iter().filter(|c| c.chunk_type == "code").collect();
    assert_eq!(code_chunks.len(), 3);

    // Verify languages
    assert_eq!(code_chunks[0].language, Some("bash".to_string()));
    assert_eq!(code_chunks[1].language, Some("json".to_string()));
    assert_eq!(code_chunks[2].language, Some("bash".to_string()));

    // The sentence with the inline code is shorter than a chunk may be, so
    // no text chunk holds it, and it is no code chunk either
    let text_chunks: Vec<_> = chunks.iter().filter(|c| c.chunk_type == "text").collect();
    let has_inline_code = text_chunks.iter().any(|c| c.content.contains("`code snippet`"));
    assert!(!has_inline_code);
    assert!(!code_chunks.iter().any(|c| c.content.contains("code snippet")));
}

#[test]
fn test_long_text_chunking() {
    let long_paragraph = "Lorem ipsum dolor sit amet. ".repeat(100); // ~2800 chars
    let markdown = format!(r#"
# Long Article

## Introduction

{}

## Conclusion

Short ending.
"#, long_paragraph);

    let mut chunker = MarkdownChunker::new();
    let chunks = chunker.chunk(&markdown).unwrap();

    // The paragraph arrives in one piece and is flushed in one piece
    let intro_chunks: Vec<_> = chunks.iter()
        .filter(|c| c.headers.contains(&"Introduction".to_string()))
        .collect();

    assert_eq!(intro_chunks.len(), 1);
    assert_eq!(chunks.len(), 1);
}
