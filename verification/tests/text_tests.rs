use mike_dev_blog::text::{
    estimate_reading_time, extract_excerpt, extract_meta_description, post_summary,
    summary_reading_time, truncate_text,
};

#[test]
fn reading_time_empty_is_one_minute() {
    assert_eq!(estimate_reading_time(""), 1);
}

#[test]
fn reading_time_450_words_is_two_minutes() {
    let content = "word ".repeat(450);
    assert_eq!(estimate_reading_time(&content), 2);
}

#[test]
fn reading_time_one_word() {
    assert_eq!(estimate_reading_time("hello"), 1);
}

#[test]
fn reading_time_226_words_rounds_up() {
    let content = "w ".repeat(226);
    assert_eq!(estimate_reading_time(&content), 2);
}

#[test]
fn summary_reading_time_uses_200_wpm_and_no_floor() {
    assert_eq!(summary_reading_time(""), 0);
    let content = "word ".repeat(401);
    assert_eq!(summary_reading_time(&content), 3);
    let content = "word ".repeat(200);
    assert_eq!(summary_reading_time(&content), 1);
}

#[test]
fn excerpt_of_exactly_160_chars_is_unchanged() {
    let text = "x".repeat(160);
    assert_eq!(extract_excerpt(&text, 160), text);
}

#[test]
fn excerpt_breaks_at_word_boundary() {
    assert_eq!(extract_excerpt("hello world foo", 10), "hello...");
}

#[test]
fn excerpt_hard_truncates_without_boundary() {
    assert_eq!(extract_excerpt("abcdefghijklmnop", 10), "abcdefghij...");
}

#[test]
fn excerpt_strips_tags_and_collapses_whitespace() {
    assert_eq!(
        extract_excerpt("<p>Hello   <strong>world</strong></p>", 160),
        "Hello world"
    );
}

#[test]
fn excerpt_strips_list_tags() {
    assert_eq!(
        extract_excerpt("<ul><li>one</li><li>two</li></ul>", 160),
        "one two"
    );
}

#[test]
fn excerpt_drops_control_characters() {
    assert_eq!(extract_excerpt("a\u{0007}b  c", 160), "ab c");
}

#[test]
fn meta_description_truncates_at_160() {
    let content = "word ".repeat(40);
    let expected = format!("{}word...", "word ".repeat(31));
    assert_eq!(extract_meta_description(&content), expected);
}

#[test]
fn meta_description_short_content_unchanged() {
    assert_eq!(extract_meta_description("<h1>Title</h1>rest"), "Title rest");
}

#[test]
fn truncate_text_short_is_unchanged() {
    assert_eq!(truncate_text("hello", 10), "hello");
}

#[test]
fn truncate_text_long_gets_ellipsis() {
    assert_eq!(truncate_text("hello world", 5), "hello...");
}

#[test]
fn post_summary_short_content_unchanged() {
    assert_eq!(post_summary("short content"), "short content");
}

#[test]
fn post_summary_breaks_at_last_space() {
    let content = format!("{} {}", "a".repeat(150), "b".repeat(99));
    let expected = format!("{}...", "a".repeat(150));
    assert_eq!(post_summary(&content), expected);
}

#[test]
fn post_summary_hard_truncates_without_space() {
    let content = "c".repeat(250);
    let expected = format!("{}...", "c".repeat(200));
    assert_eq!(post_summary(&content), expected);
}
