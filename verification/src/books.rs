//! The book-recommendation catalog's data model: a closed set of seven
//! categories with stable machine names, display names and colour
//! classes, and the book record itself. Ratings are carried in tenths
//! of a star (0 meaning unrated, 50 a full five stars), which the
//! five-star display reads as a floor of filled stars plus a half star
//! for a fractional part of at least one half.

use vstd::prelude::*;

use crate::dates::{now_ts, ts_in_range};
use crate::ids::fresh_uuid_string;

verus! {

/// The seven fixed book categories.
#[derive(Debug, Clone, Copy, PartialEq, Eq, Hash, Structural)]
pub enum BookCategory {
    Rust,
    Python,
    CodeCraftsmanshipEssentials,
    DockerKubernetes,
    EventDrivenArchitecture,
    ModernDevOpsAndDelivery,
    SoftwareArchitecturesAndPatterns,
}

/// The categories in their canonical order.
pub open spec fn all_categories_spec() -> Seq<BookCategory> {
    seq![
        BookCategory::Rust,
        BookCategory::Python,
        BookCategory::CodeCraftsmanshipEssentials,
        BookCategory::DockerKubernetes,
        BookCategory::EventDrivenArchitecture,
        BookCategory::ModernDevOpsAndDelivery,
        BookCategory::SoftwareArchitecturesAndPatterns,
    ]
}

pub open spec fn display_name_of(c: BookCategory) -> Seq<char> {
    match c {
        BookCategory::Rust => "Rust Programming Professional"@,
        BookCategory::Python => "Python Expert"@,
        BookCategory::CodeCraftsmanshipEssentials => "Code Craftsmanship Essentials"@,
        BookCategory::DockerKubernetes => "Docker & Kubernetes"@,
        BookCategory::EventDrivenArchitecture => "Event-Driven Architecture"@,
        BookCategory::ModernDevOpsAndDelivery => "Modern DevOps and Delivery"@,
        BookCategory::SoftwareArchitecturesAndPatterns => "Software Architectures and Patterns"@,
    }
}

pub open spec fn db_name_of(c: BookCategory) -> Seq<char> {
    match c {
        BookCategory::Rust => "rust"@,
        BookCategory::Python => "python"@,
        BookCategory::CodeCraftsmanshipEssentials => "code-craftsmanship-essentials"@,
        BookCategory::DockerKubernetes => "docker-kubernetes"@,
        BookCategory::EventDrivenArchitecture => "event-driven-architecture"@,
        BookCategory::ModernDevOpsAndDelivery => "modern-devops-and-delivery"@,
        BookCategory::SoftwareArchitecturesAndPatterns => "software-architectures-and-patterns"@,
    }
}

pub open spec fn color_class_of(c: BookCategory) -> Seq<char> {
    match c {
        BookCategory::Rust => "bg-orange-100 text-orange-800"@,
        BookCategory::Python => "bg-blue-100 text-blue-800"@,
        BookCategory::CodeCraftsmanshipEssentials => "bg-green-100 text-green-800"@,
        BookCategory::DockerKubernetes => "bg-purple-100 text-purple-800"@,
        BookCategory::EventDrivenArchitecture => "bg-yellow-100 text-yellow-800"@,
        BookCategory::ModernDevOpsAndDelivery => "bg-teal-100 text-teal-800"@,
        BookCategory::SoftwareArchitecturesAndPatterns => "bg-gray-100 text-gray-800"@,
    }
}

impl BookCategory {
    /// The human-readable name shown for this category.
    pub fn display_name(&self) -> (r: &'static str)
        ensures
            r@ == display_name_of(*self),
    {
        match self {
            BookCategory::Rust => "Rust Programming Professional",
            BookCategory::Python => "Python Expert",
            BookCategory::CodeCraftsmanshipEssentials => "Code Craftsmanship Essentials",
            BookCategory::DockerKubernetes => "Docker & Kubernetes",
            BookCategory::EventDrivenArchitecture => "Event-Driven Architecture",
            BookCategory::ModernDevOpsAndDelivery => "Modern DevOps and Delivery",
            BookCategory::SoftwareArchitecturesAndPatterns => "Software Architectures and Patterns",
        }
    }

    /// The stable machine name used for storage and filtering.
    pub fn db_name(&self) -> (r: &'static str)
        ensures
            r@ == db_name_of(*self),
    {
        match self {
            BookCategory::Rust => "rust",
            BookCategory::Python => "python",
            BookCategory::CodeCraftsmanshipEssentials => "code-craftsmanship-essentials",
            BookCategory::DockerKubernetes => "docker-kubernetes",
            BookCategory::EventDrivenArchitecture => "event-driven-architecture",
            BookCategory::ModernDevOpsAndDelivery => "modern-devops-and-delivery",
            BookCategory::SoftwareArchitecturesAndPatterns => "software-architectures-and-patterns",
        }
    }

    /// The presentation colour classes for this category's badge.
    pub fn color_class(&self) -> (r: &'static str)
        ensures
            r@ == color_class_of(*self),
    {
        match self {
            BookCategory::Rust => "bg-orange-100 text-orange-800",
            BookCategory::Python => "bg-blue-100 text-blue-800",
            BookCategory::CodeCraftsmanshipEssentials => "bg-green-100 text-green-800",
            BookCategory::DockerKubernetes => "bg-purple-100 text-purple-800",
            BookCategory::EventDrivenArchitecture => "bg-yellow-100 text-yellow-800",
            BookCategory::ModernDevOpsAndDelivery => "bg-teal-100 text-teal-800",
            BookCategory::SoftwareArchitecturesAndPatterns => "bg-gray-100 text-gray-800",
        }
    }

    /// Every category, in the canonical order: the sole authoritative
    /// enumeration source.
    pub fn all_categories() -> (r: Vec<BookCategory>)
        ensures
            r@ == all_categories_spec(),
    {
        let mut r: Vec<BookCategory> = Vec::new();
        r.push(BookCategory::Rust);
        r.push(BookCategory::Python);
        r.push(BookCategory::CodeCraftsmanshipEssentials);
        r.push(BookCategory::DockerKubernetes);
        r.push(BookCategory::EventDrivenArchitecture);
        r.push(BookCategory::ModernDevOpsAndDelivery);
        r.push(BookCategory::SoftwareArchitecturesAndPatterns);
        proof {
            assert(r@ =~= all_categories_spec());
        }
        r
    }
}

/// A catalog record for one recommended book. The rating is stored in
/// tenths of a star: 0 means unrated, and valid ratings run from 10
/// (one star) to 50 (five stars).
#[derive(Debug, Clone, PartialEq)]
pub struct Book {
    pub id: String,
    pub title: String,
    pub author: String,
    pub description: String,
    pub category: BookCategory,
    pub rating: u32,
    pub isbn: Option<String>,
    pub amazon_url: Option<String>,
    pub goodreads_url: Option<String>,
    pub cover_image_url: Option<String>,
    pub publication_year: Option<i32>,
    pub pages: Option<i32>,
    pub personal_review: Option<String>,
    pub key_takeaways: Vec<String>,
    pub recommended_for: Vec<String>,
    pub tags: Vec<String>,
    pub added_date: i64,
    pub last_updated: i64,
}

impl Book {
    /// A well-formed rating fits on the five-star scale.
    pub open spec fn rating_valid(&self) -> bool {
        self.rating <= 50
    }
}

impl Default for Book {
    /// A blank record: fresh identifier, current timestamps, empty
    /// text fields, unrated, in the Python category.
    fn default() -> (r: Book)
        ensures
            r.title@.len() == 0,
            r.author@.len() == 0,
            r.description@.len() == 0,
            r.category == BookCategory::Python,
            r.rating == 0,
            r.isbn is None,
            r.amazon_url is None,
            r.goodreads_url is None,
            r.cover_image_url is None,
            r.publication_year is None,
            r.pages is None,
            r.personal_review is None,
            r.key_takeaways@.len() == 0,
            r.recommended_for@.len() == 0,
            r.tags@.len() == 0,
            r.id@.len() == 36,
            r.added_date == r.last_updated,
            ts_in_range(r.added_date),
    {
        let now = now_ts();
        Book {
            id: fresh_uuid_string(),
            title: String::new(),
            author: String::new(),
            description: String::new(),
            category: BookCategory::Python,
            rating: 0,
            isbn: None,
            amazon_url: None,
            goodreads_url: None,
            cover_image_url: None,
            publication_year: None,
            pages: None,
            personal_review: None,
            key_takeaways: Vec::new(),
            recommended_for: Vec::new(),
            tags: Vec::new(),
            added_date: now,
            last_updated: now,
        }
    }
}

/// How a rating shows on the five-star scale: the number of fully
/// filled stars, and whether a half star follows them.
pub fn star_display(rating: u32) -> (r: (u32, bool))
    requires
        rating <= 50,
    ensures
        r.0 == rating / 10,
        r.1 == (rating / 10 < 5 && rating % 10 >= 5),
{
    let filled = rating / 10;
    let half = filled < 5 && rating % 10 >= 5;
    (filled, half)
}

} // verus!
