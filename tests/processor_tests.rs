use mine_kb::processor::{DocumentProcessor, ProcessingError, clean_text};
use mine_kb::models::document::DocumentChunk;

#[test]
fn test_document_processor_creation() {
    let processor = DocumentProcessor::new();
    assert_eq!(processor.max_chunk_size, 1000);
    assert_eq!(processor.chunk_overlap, 100);

    let processor = DocumentProcessor::with_chunk_settings(500, 50);
    assert_eq!(processor.max_chunk_size, 500);
    assert_eq!(processor.chunk_overlap, 50);
}

#[test]
fn test_sentence_splitting() {
    let processor = DocumentProcessor::new();
    let text = "This is sentence one. This is sentence two! Is this sentence three?";
    let sentences = processor.split_into_sentences(text);
    assert_eq!(sentences.len(), 3);
    assert!(sentences[0].contains("sentence one"));
    assert!(sentences[1].contains("sentence two"));
    assert!(sentences[2].contains("sentence three"));
}

#[test]
fn test_token_estimation() {
    let processor = DocumentProcessor::new();
    let text = "This is a test";
    let tokens = processor.estimate_token_count(text);
    assert!(tokens >= 3 && tokens <= 5);
}

#[test]
fn test_supported_extensions() {
    let extensions = DocumentProcessor::get_supported_extensions();
    assert!(extensions.contains(&"txt"));
    assert!(extensions.contains(&"md"));
    assert!(extensions.contains(&"pdf"));
}

#[test]
fn test_file_support_check() {
    let processor = DocumentProcessor::new();
    assert!(processor.is_supported_file("test.txt"));
    assert!(processor.is_supported_file("test.md"));
    assert!(processor.is_supported_file("test.PDF"));
    assert!(!processor.is_supported_file("test.exe"));
    assert!(!processor.is_supported_file("test"));
}

#[test]
fn test_subprocess_creation() {}

#[test]
fn token_estimate_rounds_up() {
    let processor = DocumentProcessor::new();
    assert_eq!(processor.estimate_token_count(""), 0);
    assert_eq!(processor.estimate_token_count("abcd"), 1);
    assert_eq!(processor.estimate_token_count("abcde"), 2);
    assert_eq!(DocumentChunk::estimate_token_count("This is a test"), 4);
}

#[test]
fn sentences_need_more_than_three_characters() {
    let processor = DocumentProcessor::new();
    let sentences = processor.split_into_sentences("Hi. There you go. Done");
    assert_eq!(sentences, vec!["Hi. There you go.".to_string(), "Done".to_string()]);
}

#[test]
fn text_without_boundaries_is_grouped_by_lines() {
    let processor = DocumentProcessor::new();
    let text = "alpha beta gamma delta epsilon zeta eta\ntheta iota\nkappa lambda mu nu xi omicron pi rho sigma\ntau";
    let groups = processor.split_into_sentences(text);
    assert_eq!(groups.len(), 2);
    assert_eq!(groups[0], "alpha beta gamma delta epsilon zeta eta\ntheta iota");
    assert_eq!(groups[1], "kappa lambda mu nu xi omicron pi rho sigma\ntau");
}

#[test]
fn blank_text_has_no_sentences() {
    let processor = DocumentProcessor::new();
    assert!(processor.split_into_sentences(" \n\t ").is_empty());
}

#[test]
fn cleaning_collapses_spaces_within_lines_only() {
    let cleaned = clean_text("  a \t b  \n\n| x |  y |\r\n   \nlast   line  ");
    assert_eq!(cleaned, "a b\n| x | y |\nlast line");
}

#[test]
fn chunks_are_numbered_and_inside_the_text() {
    let processor = DocumentProcessor::with_chunk_settings(20, 5);
    let text = "The first sentence here holds a fair number of words in it. The second sentence also holds quite a few words of its own. A third one closes the passage with a few more words.";
    let chunks = processor.create_chunks(&"doc-1".to_string(), text).unwrap();
    assert!(chunks.len() >= 2);
    for (i, c) in chunks.iter().enumerate() {
        assert_eq!(c.chunk_index, i as u32);
        assert_eq!(c.document_id, "doc-1");
        assert!(c.start_offset < c.end_offset);
        assert!(c.end_offset <= text.chars().count() as u64);
        assert!(c.token_count >= 10 && c.token_count <= 1000);
    }
}

#[test]
fn overlap_seeds_the_next_chunk() {
    let processor = DocumentProcessor::with_chunk_settings(20, 2);
    let prev: Vec<char> = "one two three four".chars().collect();
    let sentence: Vec<char> = "Next sentence.".chars().collect();
    let seed: String = processor.create_overlap_content(&prev, &sentence).into_iter().collect();
    assert_eq!(seed, "three four Next sentence.");
    let short: Vec<char> = "one two".chars().collect();
    let seed: String = processor.create_overlap_content(&short, &sentence).into_iter().collect();
    assert_eq!(seed, "Next sentence.");
}

#[test]
fn overlap_start_saturates_at_zero() {
    let processor = DocumentProcessor::new();
    assert_eq!(processor.calculate_overlap_start(100, 30), 70);
    assert_eq!(processor.calculate_overlap_start(10, 30), 0);
}

#[test]
fn short_text_gives_no_valid_chunks() {
    let processor = DocumentProcessor::new();
    let r = processor.create_chunks(&"d".to_string(), "Too short.");
    assert_eq!(r.unwrap_err(), ProcessingError::NoValidChunks);
}

#[test]
fn process_text_cleans_then_chunks() {
    let processor = DocumentProcessor::new();
    let r = processor.process_text(&"d".to_string(), "  This   is the first sentence of a document.  \n\n It has a second sentence as well. ").unwrap();
    assert_eq!(r.chunks.len(), 1);
    assert_eq!(r.chunks[0].content, "This is the first sentence of a document. It has a second sentence as well.");
    assert_eq!(r.total_tokens, r.chunks[0].token_count as u64);
}

#[test]
fn file_checks_cover_each_error() {
    let processor = DocumentProcessor::new();
    assert_eq!(processor.validate_file(false, false, 10), Err(ProcessingError::FileNotFound));
    assert_eq!(processor.validate_file(true, false, 10), Err(ProcessingError::NotAFile));
    assert_eq!(processor.validate_file(true, true, 0), Err(ProcessingError::EmptyFile));
    assert_eq!(processor.validate_file(true, true, 52428801), Err(ProcessingError::FileTooLarge(52428801)));
    assert_eq!(processor.validate_file(true, true, 52428800), Ok(()));
}

#[test]
fn rtf_control_words_and_braces_are_removed() {
    let rtf = "{\\rtf1\\ansi\\deff0 {\\fonttbl {\\f0 Times;}}\\f0\\fs24 Hello \\b World\\b0 !}";
    assert_eq!(mine_kb::processor::strip_rtf_formatting(rtf), "Times;Hello World!");
    assert_eq!(mine_kb::processor::extract_rtf_text("{\\pard  a   b\\par\n c}"), "a bc");
}
