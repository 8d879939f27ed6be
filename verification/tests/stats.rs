use bladeink_compiler::ast::Node;
use bladeink_compiler::stats::{count_words_in_str, Stats};
use bladeink_compiler::story::ParsedStory;

#[test]
fn parsed_stats_count_words_from_root_content() {
    let story = ParsedStory::new(vec![], vec![Node::Text("one two\nthree".to_string())], vec![]);
    let stats = Stats::generate_from_parsed(&story);
    assert_eq!(3, stats.words);
}

#[test]
fn words_are_counted_per_text() {
    let mut count = 0;
    count_words_in_str("  a\tb\r\nc ", &mut count);
    assert_eq!(count, 3);
    count_words_in_str("", &mut count);
    assert_eq!(count, 3);
    let story = ParsedStory::new(vec![], vec![Node::Text("a".to_string()), Node::Newline, Node::Text("b c".to_string())], vec![]);
    let stats = Stats::generate_from_parsed(&story);
    assert_eq!(stats.words, 3);
    assert_eq!(stats.knots + stats.stitches + stats.functions, 0);
}
