use mike_dev_blog::books::{star_display, Book, BookCategory};

#[test]
fn display_names_are_the_seven_fixed_ones() {
    assert_eq!(BookCategory::Rust.display_name(), "Rust Programming Professional");
    assert_eq!(BookCategory::Python.display_name(), "Python Expert");
    assert_eq!(
        BookCategory::CodeCraftsmanshipEssentials.display_name(),
        "Code Craftsmanship Essentials"
    );
    assert_eq!(BookCategory::DockerKubernetes.display_name(), "Docker & Kubernetes");
    assert_eq!(
        BookCategory::EventDrivenArchitecture.display_name(),
        "Event-Driven Architecture"
    );
    assert_eq!(
        BookCategory::ModernDevOpsAndDelivery.display_name(),
        "Modern DevOps and Delivery"
    );
    assert_eq!(
        BookCategory::SoftwareArchitecturesAndPatterns.display_name(),
        "Software Architectures and Patterns"
    );
}

#[test]
fn db_names_are_stable_machine_names() {
    assert_eq!(BookCategory::Rust.db_name(), "rust");
    assert_eq!(BookCategory::Python.db_name(), "python");
    assert_eq!(
        BookCategory::CodeCraftsmanshipEssentials.db_name(),
        "code-craftsmanship-essentials"
    );
    assert_eq!(BookCategory::DockerKubernetes.db_name(), "docker-kubernetes");
    assert_eq!(
        BookCategory::EventDrivenArchitecture.db_name(),
        "event-driven-architecture"
    );
    assert_eq!(
        BookCategory::ModernDevOpsAndDelivery.db_name(),
        "modern-devops-and-delivery"
    );
    assert_eq!(
        BookCategory::SoftwareArchitecturesAndPatterns.db_name(),
        "software-architectures-and-patterns"
    );
}

#[test]
fn color_classes_match_their_categories() {
    assert_eq!(BookCategory::Rust.color_class(), "bg-orange-100 text-orange-800");
    assert_eq!(BookCategory::Python.color_class(), "bg-blue-100 text-blue-800");
    assert_eq!(
        BookCategory::CodeCraftsmanshipEssentials.color_class(),
        "bg-green-100 text-green-800"
    );
    assert_eq!(
        BookCategory::DockerKubernetes.color_class(),
        "bg-purple-100 text-purple-800"
    );
    assert_eq!(
        BookCategory::EventDrivenArchitecture.color_class(),
        "bg-yellow-100 text-yellow-800"
    );
    assert_eq!(
        BookCategory::ModernDevOpsAndDelivery.color_class(),
        "bg-teal-100 text-teal-800"
    );
    assert_eq!(
        BookCategory::SoftwareArchitecturesAndPatterns.color_class(),
        "bg-gray-100 text-gray-800"
    );
}

#[test]
fn all_categories_lists_the_seven_in_order() {
    let cats = BookCategory::all_categories();
    assert_eq!(
        cats,
        vec![
            BookCategory::Rust,
            BookCategory::Python,
            BookCategory::CodeCraftsmanshipEssentials,
            BookCategory::DockerKubernetes,
            BookCategory::EventDrivenArchitecture,
            BookCategory::ModernDevOpsAndDelivery,
            BookCategory::SoftwareArchitecturesAndPatterns,
        ]
    );
}

#[test]
fn star_display_floors_and_half_fills() {
    // 4.5 stars: four filled, one half.
    assert_eq!(star_display(45), (4, true));
    // 4.4 stars: four filled, no half.
    assert_eq!(star_display(44), (4, false));
    // A full five stars leaves no room for a half.
    assert_eq!(star_display(50), (5, false));
    // Unrated shows nothing filled.
    assert_eq!(star_display(0), (0, false));
    assert_eq!(star_display(5), (0, true));
}

#[test]
fn default_book_is_blank_and_unrated() {
    let b = Book::default();
    assert_eq!(b.title, "");
    assert_eq!(b.author, "");
    assert_eq!(b.description, "");
    assert_eq!(b.category, BookCategory::Python);
    assert_eq!(b.rating, 0);
    assert!(b.isbn.is_none());
    assert!(b.personal_review.is_none());
    assert!(b.key_takeaways.is_empty());
    assert!(b.recommended_for.is_empty());
    assert!(b.tags.is_empty());
    assert_eq!(b.id.chars().count(), 36);
    assert_eq!(b.added_date, b.last_updated);
}
