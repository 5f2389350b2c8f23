use shell_engine::OutputBuffer;

#[test]
fn basic_push_take() {
    let mut buffer = OutputBuffer::new(1024);
    assert!(buffer.is_empty());

    buffer.push("hello ".to_string());
    buffer.push("world".to_string());

    assert!(!buffer.is_empty());
    assert_eq!(buffer.take(), "hello world");
    assert!(buffer.is_empty());
}

#[test]
fn capacity_truncation() {
    let mut buffer = OutputBuffer::new(10);

    buffer.push("hello ".to_string());
    assert_eq!(buffer.truncated_bytes(), 0);

    buffer.push("world!".to_string());

    assert_eq!(buffer.truncated_bytes(), 6);
    assert_eq!(buffer.take(), "world!");
}

#[test]
fn test_output_buffer_basic() {
    let mut buffer = OutputBuffer::new(1024);
    assert!(buffer.is_empty());

    buffer.push("hello ".to_string());
    buffer.push("world".to_string());

    assert!(!buffer.is_empty());
    assert_eq!(buffer.take(), "hello world");
    assert!(buffer.is_empty());
}

#[test]
fn test_output_buffer_capacity_truncation() {
    let mut buffer = OutputBuffer::new(10);

    buffer.push("hello ".to_string());
    assert_eq!(buffer.truncated_bytes(), 0);

    buffer.push("world!".to_string());

    assert_eq!(buffer.truncated_bytes(), 6);
    assert_eq!(buffer.take(), "world!");
}

#[test]
fn push_says_whether_there_is_news() {
    let mut buffer = OutputBuffer::new(4);
    assert!(!buffer.push(String::new()));
    assert!(buffer.is_empty());
    assert!(buffer.push("ab".to_string()));
}

#[test]
fn oversized_chunk_empties_the_buffer() {
    let mut buffer = OutputBuffer::new(4);
    buffer.push("abc".to_string());
    assert!(buffer.push("12345".to_string()));
    assert!(buffer.is_empty());
    assert_eq!(buffer.truncated_bytes(), 8);
    assert_eq!(buffer.take(), "");
}

#[test]
fn oldest_chunks_leave_first() {
    let mut buffer = OutputBuffer::new(6);
    for chunk in ["aa", "bb", "cc", "ddd"] {
        buffer.push(chunk.to_string());
    }
    assert_eq!(buffer.truncated_bytes(), 4);
    assert_eq!(buffer.take(), "ccddd");
    assert_eq!(buffer.truncated_bytes(), 4);
}

#[test]
fn capacity_is_in_bytes() {
    let mut buffer = OutputBuffer::new(4);
    buffer.push("\u{e9}\u{e9}".to_string());
    assert_eq!(buffer.truncated_bytes(), 0);
    buffer.push("x".to_string());
    assert_eq!(buffer.truncated_bytes(), 4);
    assert_eq!(buffer.take(), "x");
}

#[test]
fn every_byte_is_accounted_for() {
    let mut buffer = OutputBuffer::new(8);
    let mut pushed = 0;
    let mut taken = 0;
    for (i, chunk) in ["abc", "defgh", "ij", "klmnopqrs", "t", "uvw"].iter().enumerate() {
        buffer.push(chunk.to_string());
        pushed += chunk.len();
        if i % 3 == 2 {
            taken += buffer.take().len();
        }
    }
    assert!(buffer.is_empty());
    assert_eq!(pushed, taken + buffer.truncated_bytes());
}
