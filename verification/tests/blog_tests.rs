use mike_dev_blog::blog::BlogPost;
use mike_dev_blog::text::estimate_reading_time;

#[test]
fn new_post_keeps_its_fields_and_starts_unpublished() {
    let post = BlogPost::new(
        "A Title".to_string(),
        "Some content".to_string(),
        "An Author".to_string(),
        vec!["rust".to_string(), "web".to_string()],
        Some("https://example.invalid/cover.png".to_string()),
    );
    assert_eq!(post.title, "A Title");
    assert_eq!(post.content, "Some content");
    assert_eq!(post.author, "An Author");
    assert_eq!(post.tags, vec!["rust".to_string(), "web".to_string()]);
    assert_eq!(
        post.image_url,
        Some("https://example.invalid/cover.png".to_string())
    );
    assert!(!post.published);
}

#[test]
fn new_post_has_fresh_id_and_matching_timestamps() {
    let post = BlogPost::new(
        "t".to_string(),
        "c".to_string(),
        "a".to_string(),
        Vec::new(),
        None,
    );
    assert_eq!(post.id.chars().count(), 36);
    assert_eq!(post.created_at, post.updated_at);
    let other = BlogPost::new(
        "t".to_string(),
        "c".to_string(),
        "a".to_string(),
        Vec::new(),
        None,
    );
    assert_ne!(post.id, other.id);
}

#[test]
fn new_post_id_has_the_hyphenated_v4_shape() {
    let post = BlogPost::new(
        "t".to_string(),
        "c".to_string(),
        "a".to_string(),
        Vec::new(),
        None,
    );
    let chars: Vec<char> = post.id.chars().collect();
    assert_eq!(chars.len(), 36);
    for (i, c) in chars.iter().enumerate() {
        if i == 8 || i == 13 || i == 18 || i == 23 {
            assert_eq!(*c, '-');
        } else {
            assert!(c.is_ascii_hexdigit() && !c.is_ascii_uppercase());
        }
    }
    assert_eq!(chars[14], '4');
}

#[test]
fn post_content_drives_the_reading_time() {
    let content = "word ".repeat(300);
    let post = BlogPost::new(
        "t".to_string(),
        content,
        "a".to_string(),
        Vec::new(),
        None,
    );
    assert_eq!(estimate_reading_time(&post.content), 2);
}
