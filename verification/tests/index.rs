use project_x::index::chunker::{ChunkType, CodeChunker};
use project_x::index::embedder::EmbeddingGenerator;

#[test]
fn test_chunker_creates_successfully() {
    let chunker = CodeChunker::new();
    assert!(chunker.is_ok());
}

#[test]
fn test_chunk_function_extraction() {
    let chunker = CodeChunker::new().expect("Failed to create chunker");

    let rust_code = r#"
fn hello_world() {
    println!("Hello, world!");
}

fn add(a: i32, b: i32) -> i32 {
    a + b
}
"#;

    let chunks = chunker.chunk_code(rust_code, "test.rs").expect("Failed to chunk code");

    let function_chunks: Vec<_> =
        chunks.iter().filter(|c| c.chunk_type == ChunkType::Function).collect();
    assert_eq!(function_chunks.len(), 2, "Should extract 2 functions");

    let hello_fn = function_chunks.iter().find(|c| c.name == "hello_world");
    assert!(hello_fn.is_some(), "Should find hello_world function");

    let add_fn = function_chunks.iter().find(|c| c.name == "add");
    assert!(add_fn.is_some(), "Should find add function");

    if let Some(hello) = hello_fn {
        assert!(hello.code.contains("println!"), "Function code should contain implementation");
        assert!(hello.start_line > 0, "Start line should be positive");
        assert!(hello.end_line >= hello.start_line, "End line should be >= start line");
    }
}

#[test]
fn test_chunk_struct_extraction() {
    let chunker = CodeChunker::new().expect("Failed to create chunker");

    let rust_code = r#"
struct Point {
    x: f64,
    y: f64,
}

struct Rectangle {
    width: u32,
    height: u32,
}
"#;

    let chunks = chunker.chunk_code(rust_code, "test.rs").expect("Failed to chunk code");

    let struct_chunks: Vec<_> =
        chunks.iter().filter(|c| c.chunk_type == ChunkType::Struct).collect();
    assert_eq!(struct_chunks.len(), 2, "Should extract 2 structs");

    let point_struct = struct_chunks.iter().find(|c| c.name == "Point");
    assert!(point_struct.is_some(), "Should find Point struct");

    let rect_struct = struct_chunks.iter().find(|c| c.name == "Rectangle");
    assert!(rect_struct.is_some(), "Should find Rectangle struct");
}

#[test]
fn test_chunk_impl_extraction() {
    let chunker = CodeChunker::new().expect("Failed to create chunker");

    let rust_code = r#"
struct Point {
    x: f64,
    y: f64,
}

impl Point {
    fn new(x: f64, y: f64) -> Self {
        Point { x, y }
    }

    fn distance(&self) -> f64 {
        (self.x * self.x + self.y * self.y).sqrt()
    }
}
"#;

    let chunks = chunker.chunk_code(rust_code, "test.rs").expect("Failed to chunk code");

    let impl_chunks: Vec<_> = chunks.iter().filter(|c| c.chunk_type == ChunkType::Impl).collect();
    assert_eq!(impl_chunks.len(), 1, "Should extract 1 impl block");

    let impl_chunk = &impl_chunks[0];
    assert!(impl_chunk.code.contains("fn new"), "Impl should contain new function");
    assert!(impl_chunk.code.contains("fn distance"), "Impl should contain distance function");
}

#[test]
fn test_chunk_enum_extraction() {
    let chunker = CodeChunker::new().expect("Failed to create chunker");

    let rust_code = "\nenum Color {\n    Red,\n    Green,\n    Blue,\n    RGB(u8, u8, u8),\n}\n";

    let chunks = chunker.chunk_code(rust_code, "test.rs").expect("Failed to chunk code");

    let enum_chunks: Vec<_> = chunks.iter().filter(|c| c.chunk_type == ChunkType::Enum).collect();
    assert_eq!(enum_chunks.len(), 1, "Should extract 1 enum");

    let color_enum = &enum_chunks[0];
    assert_eq!(color_enum.name, "Color", "Enum name should be Color");
    assert!(color_enum.code.contains("Red"), "Enum should contain Red variant");
    assert!(color_enum.code.contains("RGB"), "Enum should contain RGB variant");
}

#[test]
fn test_chunk_invalid_syntax() {
    let chunker = CodeChunker::new().expect("Failed to create chunker");

    let invalid_rust = "\nfn incomplete_function( {\n    // missing closing brace and parameters\n";

    let result = chunker.chunk_code(invalid_rust, "invalid.rs");

    assert!(result.is_ok(), "Should handle invalid syntax gracefully");

    let chunks = result.unwrap();
    println!("Extracted {} chunks from invalid syntax", chunks.len());
}

#[test]
fn test_chunk_empty_file() {
    let chunker = CodeChunker::new().expect("Failed to create chunker");

    let empty_code = "";
    let chunks = chunker.chunk_code(empty_code, "empty.rs").expect("Failed to chunk empty code");

    assert!(chunks.is_empty(), "Empty file should produce no chunks");
}

#[test]
fn test_chunk_line_numbers_accuracy() {
    let chunker = CodeChunker::new().expect("Failed to create chunker");

    let rust_code = r#"// Line 1
// Line 2
fn first_function() {  // Line 3
    println!("test");  // Line 4
}                      // Line 5
// Line 6
fn second_function() { // Line 7
    let x = 42;        // Line 8
}                      // Line 9"#;

    let chunks = chunker.chunk_code(rust_code, "test.rs").expect("Failed to chunk code");

    let first_fn = chunks.iter().find(|c| c.name == "first_function").expect(
        "Should find first function",
    );
    assert_eq!(first_fn.start_line, 3, "First function should start at line 3");
    assert_eq!(first_fn.end_line, 5, "First function should end at line 5");

    let second_fn = chunks.iter().find(|c| c.name == "second_function").expect(
        "Should find second function",
    );
    assert_eq!(second_fn.start_line, 7, "Second function should start at line 7");
    assert_eq!(second_fn.end_line, 9, "Second function should end at line 9");
}

#[test]
fn test_chunk_file_path_preservation() {
    let chunker = CodeChunker::new().expect("Failed to create chunker");

    let rust_code = r#"fn test() {}"#;
    let test_path = "src/test/example.rs";

    let chunks = chunker.chunk_code(rust_code, test_path).expect("Failed to chunk code");

    assert!(!chunks.is_empty(), "Should extract at least one chunk");
    assert_eq!(chunks[0].file_path, test_path, "File path should be preserved in chunk");
}

// Embedding Generator Tests

#[test]
fn test_embedding_generator_creates_successfully() {
    let generator = EmbeddingGenerator::new(128);
    assert!(generator.is_ok());

    let generator = generator.unwrap();
    assert_eq!(generator.get_dimension(), 128);
}

#[test]
fn test_embedding_generator_zero_dimension_fails() {
    let result = EmbeddingGenerator::new(0);
    assert!(result.is_err());
    assert!(result.unwrap_err().to_string().contains("dimension must be greater than 0"));
}

#[test]
fn test_embedding_generator_default() {
    let generator = EmbeddingGenerator::default();
    assert_eq!(generator.get_dimension(), 384);
}

#[test]
fn test_normalized_text_lowercases_and_filters() {
    let generator = EmbeddingGenerator::new(8).unwrap();
    let normalized = generator.normalized_text("Fn Main() { x1! }");
    assert_eq!(normalized, "fn main  x1 ");
}
