use mike_dev_blog::books::{Book, BookCategory};
use mike_dev_blog::catalog::{filter_books, sort_books, CategoryGroup};

fn book(title: &str, author: &str, category: BookCategory, rating: u32, tags: &[&str]) -> Book {
    Book {
        id: format!("id-{}", title),
        title: title.to_string(),
        author: author.to_string(),
        description: format!("a book about {}", title),
        category,
        rating,
        isbn: None,
        amazon_url: None,
        goodreads_url: None,
        cover_image_url: None,
        publication_year: None,
        pages: None,
        personal_review: None,
        key_takeaways: Vec::new(),
        recommended_for: Vec::new(),
        tags: tags.iter().map(|t| t.to_string()).collect(),
        added_date: 0,
        last_updated: 0,
    }
}

fn titles(group: &CategoryGroup) -> Vec<String> {
    group.books.iter().map(|b| b.title.clone()).collect()
}

#[test]
fn no_filter_groups_everything_sorted_by_rating() {
    let books = vec![
        book("Low Rust", "a", BookCategory::Rust, 30, &[]),
        book("Python One", "b", BookCategory::Python, 40, &[]),
        book("High Rust", "c", BookCategory::Rust, 50, &[]),
    ];
    let groups = filter_books(books, "", None);
    assert_eq!(groups.len(), 2);
    assert_eq!(groups[0].category, BookCategory::Rust);
    assert_eq!(titles(&groups[0]), vec!["High Rust", "Low Rust"]);
    assert_eq!(groups[1].category, BookCategory::Python);
    assert_eq!(titles(&groups[1]), vec!["Python One"]);
}

#[test]
fn query_matching_one_title_returns_single_group() {
    let books = vec![
        book("Rust in Action", "a", BookCategory::Rust, 45, &[]),
        book("Clean Code", "b", BookCategory::CodeCraftsmanshipEssentials, 48, &[]),
    ];
    let groups = filter_books(books, "rust", None);
    assert_eq!(groups.len(), 1);
    assert_eq!(groups[0].category, BookCategory::Rust);
    assert_eq!(titles(&groups[0]), vec!["Rust in Action"]);
}

#[test]
fn query_is_case_insensitive_both_ways() {
    let books = vec![book("Rust in Action", "a", BookCategory::Rust, 45, &[])];
    let groups = filter_books(books, "RUST", None);
    assert_eq!(groups.len(), 1);
    assert_eq!(titles(&groups[0]), vec!["Rust in Action"]);
}

#[test]
fn query_matches_author_description_and_tags() {
    let books = vec![
        book("T1", "Jane Smith", BookCategory::Python, 30, &[]),
        book("T2", "x", BookCategory::Python, 30, &["kubernetes"]),
        book("T3", "y", BookCategory::Python, 30, &[]),
    ];
    let by_author = filter_books(books.clone(), "smith", None);
    assert_eq!(titles(&by_author[0]), vec!["T1"]);
    let by_tag = filter_books(books.clone(), "kuber", None);
    assert_eq!(titles(&by_tag[0]), vec!["T2"]);
    let by_description = filter_books(books, "about t3", None);
    assert_eq!(titles(&by_description[0]), vec!["T3"]);
}

#[test]
fn category_filter_drops_other_categories() {
    let books = vec![
        book("R", "a", BookCategory::Rust, 30, &[]),
        book("P", "b", BookCategory::Python, 40, &[]),
    ];
    let groups = filter_books(books, "", Some(BookCategory::Python));
    assert_eq!(groups.len(), 1);
    assert_eq!(groups[0].category, BookCategory::Python);
    assert_eq!(titles(&groups[0]), vec!["P"]);
}

#[test]
fn query_ignores_surrounding_whitespace() {
    let books = vec![book("Rust in Action", "a", BookCategory::Rust, 45, &[])];
    let spaced = filter_books(books.clone(), "  rust  ", None);
    assert_eq!(spaced.len(), 1);
    assert_eq!(titles(&spaced[0]), vec!["Rust in Action"]);
    let wild = filter_books(books, "\t RUST \n", None);
    assert_eq!(wild.len(), 1);
    assert_eq!(titles(&wild[0]), vec!["Rust in Action"]);
}

#[test]
fn whitespace_only_query_matches_everything() {
    let books = vec![
        book("R", "a", BookCategory::Rust, 30, &[]),
        book("P", "b", BookCategory::Python, 40, &[]),
    ];
    let groups = filter_books(books, "   ", None);
    assert_eq!(groups.len(), 2);
}

#[test]
fn no_matches_is_an_empty_result() {
    let books = vec![book("R", "a", BookCategory::Rust, 30, &[])];
    let groups = filter_books(books, "nothing matches this", None);
    assert!(groups.is_empty());
}

#[test]
fn equal_ratings_keep_encounter_order() {
    let books = vec![
        book("A", "a", BookCategory::Rust, 45, &[]),
        book("B", "b", BookCategory::Rust, 45, &[]),
    ];
    let groups = filter_books(books, "", None);
    assert_eq!(titles(&groups[0]), vec!["A", "B"]);
}

#[test]
fn sort_is_stable_around_unequal_ratings() {
    let sorted = sort_books(vec![
        book("A", "a", BookCategory::Rust, 45, &[]),
        book("Top", "t", BookCategory::Rust, 50, &[]),
        book("B", "b", BookCategory::Rust, 45, &[]),
        book("Bottom", "z", BookCategory::Rust, 10, &[]),
    ]);
    let names: Vec<String> = sorted.iter().map(|b| b.title.clone()).collect();
    assert_eq!(names, vec!["Top", "A", "B", "Bottom"]);
}

#[test]
fn groups_follow_canonical_category_order() {
    let books = vec![
        book("S", "a", BookCategory::SoftwareArchitecturesAndPatterns, 10, &[]),
        book("D", "b", BookCategory::DockerKubernetes, 20, &[]),
        book("P", "c", BookCategory::Python, 30, &[]),
    ];
    let groups = filter_books(books, "", None);
    let cats: Vec<BookCategory> = groups.iter().map(|g| g.category).collect();
    assert_eq!(
        cats,
        vec![
            BookCategory::Python,
            BookCategory::DockerKubernetes,
            BookCategory::SoftwareArchitecturesAndPatterns,
        ]
    );
}
