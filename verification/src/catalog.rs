//! The catalog filter: given a collection of books, a free-text query
//! and an optional category, produces the grouped, sorted, filtered
//! view the book list renders. Matching is case-insensitive and
//! ignores whitespace around the query, over title, author,
//! description and tags; groups follow the canonical category order;
//! inside a group books sort by rating, highest first, with ties
//! keeping their encounter order.

use vstd::prelude::*;

use crate::books::{all_categories_spec, Book, BookCategory};
use crate::strutil::{
    all_spaces, chars_to_string, contains_seq, contains_str, lemma_trim_back_pad,
    lemma_trim_front_all_spaces, lemma_trim_front_concat, lemma_trim_front_empty,
    lemma_trim_front_pad, lower_of, lowercase, str_to_chars, trim_chars, trim_front, trim_spec,
};

verus! {

/// Whether a book passes the optional category filter.
pub open spec fn category_matches(b: Book, cat: Option<BookCategory>) -> bool {
    match cat {
        Option::None => true,
        Option::Some(c) => b.category == c,
    }
}

/// Whether a book matches the lower-cased query `q`: an empty query
/// matches everything, otherwise `q` must occur in the lower-cased
/// title, author, description, or some tag.
pub open spec fn query_matches(b: Book, q: Seq<char>) -> bool {
    ||| q.len() == 0
    ||| contains_seq(lower_of(b.title@), q)
    ||| contains_seq(lower_of(b.author@), q)
    ||| contains_seq(lower_of(b.description@), q)
    ||| exists|i: int| 0 <= i < b.tags@.len() && contains_seq(#[trigger] lower_of(b.tags@[i]@), q)
}

pub open spec fn retain_pred(q: Seq<char>, cat: Option<BookCategory>) -> spec_fn(Book) -> bool {
    |b: Book| category_matches(b, cat) && query_matches(b, q)
}

/// The books that survive both filters, in their input order.
pub open spec fn retained(books: Seq<Book>, q: Seq<char>, cat: Option<BookCategory>) -> Seq<
    Book,
> {
    books.filter(retain_pred(q, cat))
}

pub open spec fn cat_is(c: BookCategory) -> spec_fn(Book) -> bool {
    |b: Book| b.category == c
}

pub open spec fn rating_is(v: u32) -> spec_fn(Book) -> bool {
    |b: Book| b.rating == v
}

/// Places `x` behind every book rated at least as high: the insertion
/// step of a stable descending sort.
pub open spec fn insert_desc(x: Book, s: Seq<Book>) -> Seq<Book>
    decreases s.len(),
{
    if s.len() == 0 {
        seq![x]
    } else if s[0].rating >= x.rating {
        seq![s[0]] + insert_desc(x, s.drop_first())
    } else {
        seq![x] + s
    }
}

/// Stable insertion sort by rating, highest first: books inserted
/// later go behind earlier books of equal rating.
pub open spec fn sort_by_rating(s: Seq<Book>) -> Seq<Book>
    decreases s.len(),
{
    if s.len() == 0 {
        Seq::empty()
    } else {
        insert_desc(s.last(), sort_by_rating(s.drop_last()))
    }
}

/// Ratings never increase along the sequence.
pub open spec fn sorted_desc(s: Seq<Book>) -> bool {
    forall|i: int, j: int| 0 <= i < j < s.len() ==> s[i].rating >= s[j].rating
}

proof fn lemma_insert_desc_len(x: Book, s: Seq<Book>)
    ensures
        insert_desc(x, s).len() == s.len() + 1,
    decreases s.len(),
{
    if s.len() > 0 && s[0].rating >= x.rating {
        lemma_insert_desc_len(x, s.drop_first());
    }
}

pub proof fn lemma_sort_len(s: Seq<Book>)
    ensures
        sort_by_rating(s).len() == s.len(),
    decreases s.len(),
{
    if s.len() > 0 {
        lemma_sort_len(s.drop_last());
        lemma_insert_desc_len(s.last(), sort_by_rating(s.drop_last()));
    }
}

proof fn lemma_insert_desc_sorted(x: Book, s: Seq<Book>)
    requires
        sorted_desc(s),
    ensures
        sorted_desc(insert_desc(x, s)),
    decreases s.len(),
{
    if s.len() == 0 {
    } else if s[0].rating >= x.rating {
        let rest = s.drop_first();
        assert(sorted_desc(rest));
        lemma_insert_desc_sorted(x, rest);
        lemma_insert_desc_len(x, rest);
        let out = seq![s[0]] + insert_desc(x, rest);
        let inner = insert_desc(x, rest);
        assert forall|i: int, j: int| 0 <= i < j < out.len() implies out[i].rating
            >= out[j].rating by {
            if i == 0 {
                // `s[0]` outranks `x` and every element of `rest`.
                if j - 1 < rest.len() && inner[j - 1] == x {
                } else {
                    lemma_insert_desc_mem(x, rest, j - 1);
                }
            } else {
                assert(inner[i - 1].rating >= inner[j - 1].rating);
            }
        }
    } else {
        let out = seq![x] + s;
        assert forall|i: int, j: int| 0 <= i < j < out.len() implies out[i].rating
            >= out[j].rating by {
            if i == 0 {
                if j == 1 {
                } else {
                    assert(s[0].rating >= s[j - 1].rating);
                }
            }
        }
    }
}

/// Every element of `insert_desc(x, s)` is `x` or an element of `s`,
/// and elements of `s` never outrank what stands before them there.
proof fn lemma_insert_desc_mem(x: Book, s: Seq<Book>, k: int)
    requires
        0 <= k < insert_desc(x, s).len(),
    ensures
        insert_desc(x, s)[k] == x || (exists|m: int|
            0 <= m < s.len() && insert_desc(x, s)[k] == s[m]),
    decreases s.len(),
{
    if s.len() == 0 {
    } else if s[0].rating >= x.rating {
        if k == 0 {
            assert(insert_desc(x, s)[0] == s[0]);
        } else {
            lemma_insert_desc_len(x, s.drop_first());
            lemma_insert_desc_mem(x, s.drop_first(), k - 1);
            if insert_desc(x, s.drop_first())[k - 1] == x {
            } else {
                let m = choose|m: int|
                    0 <= m < s.drop_first().len() && insert_desc(x, s.drop_first())[k - 1]
                        == s.drop_first()[m];
                assert(insert_desc(x, s)[k] == s[m + 1]);
            }
        }
    } else {
        if k == 0 {
        } else {
            assert(insert_desc(x, s)[k] == s[k - 1]);
        }
    }
}

pub proof fn lemma_sort_sorted(s: Seq<Book>)
    ensures
        sorted_desc(sort_by_rating(s)),
    decreases s.len(),
{
    if s.len() > 0 {
        lemma_sort_sorted(s.drop_last());
        lemma_insert_desc_sorted(s.last(), sort_by_rating(s.drop_last()));
    }
}

proof fn lemma_filter_single(x: Book, pred: spec_fn(Book) -> bool)
    ensures
        seq![x].filter(pred) == if pred(x) {
            seq![x]
        } else {
            Seq::<Book>::empty()
        },
{
    reveal_with_fuel(Seq::<_>::filter, 2);
    assert(seq![x].drop_last() =~= Seq::<Book>::empty());
}

proof fn lemma_insert_desc_filter_rating(x: Book, s: Seq<Book>, v: u32)
    requires
        sorted_desc(s),
    ensures
        insert_desc(x, s).filter(rating_is(v)) == s.filter(rating_is(v)) + if x.rating == v {
            seq![x]
        } else {
            Seq::<Book>::empty()
        },
    decreases s.len(),
{
    let pred = rating_is(v);
    let tail = if x.rating == v {
        seq![x]
    } else {
        Seq::<Book>::empty()
    };
    if s.len() == 0 {
        lemma_filter_single(x, pred);
        reveal_with_fuel(Seq::<_>::filter, 1);
        assert(s.filter(pred) =~= Seq::<Book>::empty());
        assert(s.filter(pred) + tail =~= tail);
    } else if s[0].rating >= x.rating {
        let rest = s.drop_first();
        assert(sorted_desc(rest));
        lemma_insert_desc_filter_rating(x, rest, v);
        lemma_filter_single(s[0], pred);
        Seq::<Book>::filter_distributes_over_add(seq![s[0]], insert_desc(x, rest), pred);
        Seq::<Book>::filter_distributes_over_add(seq![s[0]], rest, pred);
        assert(seq![s[0]] + rest =~= s);
        assert(seq![s[0]].filter(pred) + (rest.filter(pred) + tail) =~= (seq![s[0]].filter(pred)
            + rest.filter(pred)) + tail);
    } else {
        // Everything in `s` is rated below `x`; if `x` is rated `v`,
        // nothing in `s` is.
        Seq::<Book>::filter_distributes_over_add(seq![x], s, pred);
        lemma_filter_single(x, pred);
        if x.rating == v {
            assert forall|k: int| 0 <= k < s.len() implies s[k].rating != v by {
                if k > 0 {
                    assert(s[0].rating >= s[k].rating);
                }
            }
            lemma_filter_none(s, pred);
            assert(seq![x].filter(pred) + s.filter(pred) =~= s.filter(pred) + tail);
        } else {
            assert(seq![x].filter(pred) + s.filter(pred) =~= s.filter(pred) + tail);
        }
    }
}

proof fn lemma_filter_none(s: Seq<Book>, pred: spec_fn(Book) -> bool)
    requires
        forall|k: int| 0 <= k < s.len() ==> !pred(s[k]),
    ensures
        s.filter(pred) == Seq::<Book>::empty(),
    decreases s.len(),
{
    reveal_with_fuel(Seq::<_>::filter, 1);
    if s.len() > 0 {
        lemma_filter_none(s.drop_last(), pred);
    }
}

/// Stability of the sort: for every rating value, the books carrying
/// it keep their relative order. Together with sortedness this pins
/// the sort down to the stable one.
pub proof fn lemma_sort_stable(s: Seq<Book>, v: u32)
    ensures
        sort_by_rating(s).filter(rating_is(v)) == s.filter(rating_is(v)),
    decreases s.len(),
{
    let pred = rating_is(v);
    if s.len() == 0 {
        reveal_with_fuel(Seq::<_>::filter, 1);
    } else {
        let front = s.drop_last();
        let x = s.last();
        lemma_sort_stable(front, v);
        lemma_sort_sorted(front);
        lemma_insert_desc_filter_rating(x, sort_by_rating(front), v);
        lemma_filter_single(x, pred);
        Seq::<Book>::filter_distributes_over_add(front, seq![x], pred);
        assert(front + seq![x] =~= s);
        assert(sort_by_rating(front).filter(pred) + (if x.rating == v {
            seq![x]
        } else {
            Seq::<Book>::empty()
        }) =~= front.filter(pred) + seq![x].filter(pred));
    }
}

/// Filtering with an empty query and no category keeps every book:
/// the catalog view is then just the grouping and sorting of the whole
/// collection.
pub proof fn lemma_empty_query_retains_all(books: Seq<Book>, q: Seq<char>)
    requires
        q.len() == 0,
    ensures
        retained(books, q, Option::None) == books,
    decreases books.len(),
{
    reveal_with_fuel(Seq::<_>::filter, 1);
    if books.len() > 0 {
        lemma_empty_query_retains_all(books.drop_last(), q);
        assert(retained(books, q, Option::None) =~= books);
    }
}

/// One category's slice of the filtered catalog.
#[derive(Debug, Clone, PartialEq)]
pub struct CategoryGroup {
    pub category: BookCategory,
    pub books: Vec<Book>,
}

/// The mathematical shape of a group: its category and book sequence.
pub struct GroupModel {
    pub category: BookCategory,
    pub books: Seq<Book>,
}

impl View for CategoryGroup {
    type V = GroupModel;

    open spec fn view(&self) -> GroupModel {
        GroupModel { category: self.category, books: self.books@ }
    }
}

/// The groups from canonical position `i` on: one group per category
/// that retains at least one book, its books sorted by rating.
pub open spec fn groups_from(i: int, pool: Seq<Book>) -> Seq<GroupModel>
    decreases 7 - i,
{
    if i < 0 || i >= 7 {
        Seq::empty()
    } else {
        let c = all_categories_spec()[i];
        let sub = pool.filter(cat_is(c));
        let rest = groups_from(i + 1, pool);
        if sub.len() > 0 {
            seq![GroupModel { category: c, books: sort_by_rating(sub) }] + rest
        } else {
            rest
        }
    }
}

/// What the catalog filter returns: retained books, grouped by
/// category in canonical order, sorted inside each group.
pub open spec fn filtered_catalog(
    books: Seq<Book>,
    q: Seq<char>,
    cat: Option<BookCategory>,
) -> Seq<GroupModel> {
    groups_from(0, retained(books, q, cat))
}

proof fn lemma_insert_desc_at(x: Book, s: Seq<Book>, pos: int)
    requires
        0 <= pos <= s.len(),
        forall|k: int| 0 <= k < pos ==> s[k].rating >= x.rating,
        pos < s.len() ==> s[pos as int].rating < x.rating,
    ensures
        insert_desc(x, s) == s.take(pos) + seq![x] + s.skip(pos),
    decreases pos,
{
    if pos == 0 {
        if s.len() == 0 {
            assert(s.take(0) + seq![x] + s.skip(0) =~= seq![x]);
        } else {
            assert(s.take(0) + seq![x] + s.skip(0) =~= seq![x] + s);
        }
    } else {
        let rest = s.drop_first();
        assert(forall|k: int| 0 <= k < pos - 1 ==> rest[k].rating >= x.rating);
        lemma_insert_desc_at(x, rest, pos - 1);
        assert(seq![s[0]] + (rest.take(pos - 1) + seq![x] + rest.skip(pos - 1)) =~= s.take(pos)
            + seq![x] + s.skip(pos));
    }
}

/// Sorts books by rating, highest first, keeping the encounter order
/// of equal ratings.
pub fn sort_books(books: Vec<Book>) -> (r: Vec<Book>)
    ensures
        r@ == sort_by_rating(books@),
{
    let ghost orig = books@;
    let mut input = books;
    let mut out: Vec<Book> = Vec::new();
    let mut i: usize = 0;
    let total = input.len();
    proof {
        assert(orig.take(0int) =~= Seq::<Book>::empty());
        assert(input@ =~= orig.skip(0));
        assert(orig.len() == total);
    }
    while input.len() > 0
        invariant
            i <= orig.len(),
            orig.len() <= usize::MAX,
            input@ == orig.skip(i as int),
            out@ == sort_by_rating(orig.take(i as int)),
        decreases input@.len(),
    {
        let b = input.remove(0);
        proof {
            assert(orig.skip(i as int)[0] == orig[i as int]);
            assert(orig.skip(i as int).remove(0) =~= orig.skip(i + 1));
        }
        let mut pos: usize = 0;
        while pos < out.len() && out[pos].rating >= b.rating
            invariant
                pos <= out@.len(),
                forall|k: int| 0 <= k < pos ==> out@[k].rating >= b.rating,
            decreases out@.len() - pos,
        {
            pos = pos + 1;
        }
        proof {
            lemma_insert_desc_at(b, out@, pos as int);
            assert(out@.insert(pos as int, b) =~= out@.take(pos as int) + seq![b] + out@.skip(
                pos as int,
            ));
            assert(orig.take(i + 1).last() == orig[i as int]);
            assert(orig.take(i + 1).drop_last() =~= orig.take(i as int));
        }
        out.insert(pos, b);
        i = i + 1;
    }
    proof {
        assert(orig.take(i as int) =~= orig);
    }
    out
}

/// Whether `b` matches the already lower-cased query `q_low`.
fn book_matches(b: &Book, q_low: &str) -> (r: bool)
    ensures
        r == query_matches(*b, q_low@),
{
    if q_low.unicode_len() == 0 {
        return true;
    }
    let title_low = lowercase(b.title.as_str());
    if contains_str(title_low.as_str(), q_low) {
        return true;
    }
    let author_low = lowercase(b.author.as_str());
    if contains_str(author_low.as_str(), q_low) {
        return true;
    }
    let description_low = lowercase(b.description.as_str());
    if contains_str(description_low.as_str(), q_low) {
        return true;
    }
    let n = b.tags.len();
    let mut i: usize = 0;
    while i < n
        invariant
            n == b.tags@.len(),
            i <= n,
            forall|k: int| 0 <= k < i ==> !contains_seq(#[trigger] lower_of(b.tags@[k]@), q_low@),
        decreases n - i,
    {
        let tag_low = lowercase(b.tags[i].as_str());
        if contains_str(tag_low.as_str(), q_low) {
            return true;
        }
        i = i + 1;
    }
    false
}

/// The models of a group sequence.
pub open spec fn group_models(s: Seq<CategoryGroup>) -> Seq<GroupModel> {
    s.map_values(|g: CategoryGroup| g@)
}

/// Every element of the sorted sequence comes from the input.
proof fn lemma_sort_mem(s: Seq<Book>, k: int)
    requires
        0 <= k < sort_by_rating(s).len(),
    ensures
        exists|m: int| 0 <= m < s.len() && sort_by_rating(s)[k] == s[m],
    decreases s.len(),
{
    lemma_sort_len(s);
    let front = s.drop_last();
    let x = s.last();
    lemma_sort_len(front);
    lemma_insert_desc_mem(x, sort_by_rating(front), k);
    if sort_by_rating(s)[k] == x {
        assert(sort_by_rating(s)[k] == s[s.len() - 1]);
    } else {
        let m0 = choose|m0: int|
            0 <= m0 < sort_by_rating(front).len() && sort_by_rating(s)[k] == sort_by_rating(
                front,
            )[m0];
        lemma_sort_mem(front, m0);
        let m = choose|m: int| 0 <= m < front.len() && sort_by_rating(front)[m0] == front[m];
        assert(sort_by_rating(s)[k] == s[m]);
    }
}

/// Well-formedness of one group: non-empty, all books of its own
/// category, sorted by rating highest first.
pub open spec fn group_wf(g: GroupModel) -> bool {
    &&& g.books.len() > 0
    &&& sorted_desc(g.books)
    &&& forall|bi: int| 0 <= bi < g.books.len() ==> (#[trigger] g.books[bi]).category == g.category
}

proof fn lemma_groups_from_wf(i: int, pool: Seq<Book>)
    ensures
        forall|gi: int|
            0 <= gi < groups_from(i, pool).len() ==> group_wf(#[trigger] groups_from(i, pool)[gi]),
    decreases 7 - i,
{
    if 0 <= i < 7 {
        let c = all_categories_spec()[i];
        let sub = pool.filter(cat_is(c));
        lemma_groups_from_wf(i + 1, pool);
        if sub.len() > 0 {
            let g = GroupModel { category: c, books: sort_by_rating(sub) };
            lemma_sort_len(sub);
            lemma_sort_sorted(sub);
            assert forall|bi: int| 0 <= bi < g.books.len() implies (#[trigger] g.books[bi]).category
                == g.category by {
                lemma_sort_mem(sub, bi);
                let m = choose|m: int| 0 <= m < sub.len() && sort_by_rating(sub)[bi] == sub[m];
                Seq::<Book>::lemma_filter_pred(pool, cat_is(c), m);
            }
            assert(group_wf(g));
            assert forall|gi: int| 0 <= gi < groups_from(i, pool).len() implies group_wf(
                #[trigger] groups_from(i, pool)[gi],
            ) by {
                if gi == 0 {
                } else {
                    assert(groups_from(i, pool)[gi] == groups_from(i + 1, pool)[gi - 1]);
                }
            }
        } else {
            assert forall|gi: int| 0 <= gi < groups_from(i, pool).len() implies group_wf(
                #[trigger] groups_from(i, pool)[gi],
            ) by {
                assert(groups_from(i, pool)[gi] == groups_from(i + 1, pool)[gi]);
            }
        }
    }
}

/// Every group the catalog filter returns is non-empty, holds only
/// books of its own category, and is sorted by rating, highest first,
/// whatever the query and category filter were.
pub proof fn lemma_catalog_groups_well_formed(
    books: Seq<Book>,
    q: Seq<char>,
    cat: Option<BookCategory>,
)
    ensures
        forall|gi: int|
            0 <= gi < filtered_catalog(books, q, cat).len() ==> group_wf(
                #[trigger] filtered_catalog(books, q, cat)[gi],
            ),
{
    lemma_groups_from_wf(0, retained(books, q, cat));
}

/// With an empty query and no category filter the catalog view is the
/// whole collection, grouped by category and sorted inside each group.
pub proof fn lemma_catalog_no_filter(books: Seq<Book>, q: Seq<char>)
    requires
        q.len() == 0,
    ensures
        filtered_catalog(books, q, Option::None) == groups_from(0, books),
{
    lemma_empty_query_retains_all(books, q);
}

/// A member of a filtered sequence is a member of the sequence.
proof fn lemma_filter_member(t: Seq<Book>, pred: spec_fn(Book) -> bool, x: Book)
    requires
        t.filter(pred).contains(x),
    ensures
        t.contains(x),
    decreases t.len(),
{
    reveal_with_fuel(Seq::<_>::filter, 1);
    if t.len() > 0 {
        if pred(t.last()) && x == t.last() {
            assert(t[t.len() - 1] == x);
        } else {
            let out = t.filter(pred);
            let front_out = t.drop_last().filter(pred);
            if pred(t.last()) {
                let i = choose|i: int| 0 <= i < out.len() && out[i] == x;
                assert(front_out.contains(x)) by {
                    assert(front_out[i] == x);
                }
            }
            lemma_filter_member(t.drop_last(), pred, x);
            let j = choose|j: int| 0 <= j < t.drop_last().len() && t.drop_last()[j] == x;
            assert(t[j] == x);
        }
    }
}

/// Sorting changes no membership.
proof fn lemma_sort_contains(s: Seq<Book>, b: Book)
    ensures
        sort_by_rating(s).contains(b) <==> s.contains(b),
{
    let pred = rating_is(b.rating);
    lemma_sort_stable(s, b.rating);
    if s.contains(b) {
        let i = choose|i: int| 0 <= i < s.len() && s[i] == b;
        s.lemma_filter_contains(pred, i);
        lemma_filter_member(sort_by_rating(s), pred, b);
    }
    if sort_by_rating(s).contains(b) {
        let i = choose|i: int| 0 <= i < sort_by_rating(s).len() && sort_by_rating(s)[i] == b;
        sort_by_rating(s).lemma_filter_contains(pred, i);
        lemma_filter_member(s, pred, b);
    }
}

proof fn lemma_groups_from_contains(i: int, pool: Seq<Book>, b: Book)
    requires
        0 <= i <= 7,
    ensures
        (exists|gi: int|
            0 <= gi < groups_from(i, pool).len() && (#[trigger] groups_from(i, pool)[gi])
                .books.contains(b)) <==> (exists|ci: int|
            i <= ci < 7 && pool.filter(cat_is(#[trigger] all_categories_spec()[ci])).contains(b)),
    decreases 7 - i,
{
    if i < 7 {
        lemma_groups_from_contains(i + 1, pool, b);
        let c = all_categories_spec()[i];
        let sub = pool.filter(cat_is(c));
        let here = groups_from(i, pool);
        let rest = groups_from(i + 1, pool);
        lemma_sort_contains(sub, b);
        if exists|gi: int|
            0 <= gi < here.len() && (#[trigger] here[gi]).books.contains(b) {
            let gi = choose|gi: int| 0 <= gi < here.len() && (#[trigger] here[gi]).books.contains(b);
            if sub.len() > 0 && gi == 0 {
                assert(pool.filter(cat_is(all_categories_spec()[i])).contains(b));
            } else {
                let shift: int = if sub.len() > 0 {
                    1
                } else {
                    0
                };
                assert(rest[gi - shift] == here[gi]);
                assert(exists|gj: int|
                    0 <= gj < rest.len() && (#[trigger] rest[gj]).books.contains(b)) by {
                    assert((rest[gi - shift]).books.contains(b));
                }
            }
        }
        if exists|ci: int|
            i <= ci < 7 && pool.filter(cat_is(#[trigger] all_categories_spec()[ci])).contains(b) {
            let ci = choose|ci: int|
                i <= ci < 7 && pool.filter(cat_is(#[trigger] all_categories_spec()[ci])).contains(
                    b,
                );
            if ci == i {
                assert(sub.len() > 0);
                assert((here[0]).books.contains(b));
            } else {
                let gj = choose|gj: int|
                    0 <= gj < rest.len() && (#[trigger] rest[gj]).books.contains(b);
                let shift: int = if sub.len() > 0 {
                    1
                } else {
                    0
                };
                assert(here[gj + shift] == rest[gj]);
                assert((here[gj + shift]).books.contains(b));
            }
        }
    }
}

/// Whitespace padding around the query never changes the catalog:
/// matching sees only the trimmed, lower-cased query, so a query with
/// any whitespace added in front or behind filters exactly as the
/// bare query does.
pub proof fn lemma_query_whitespace_insensitive(
    books: Seq<Book>,
    q: Seq<char>,
    pad_front: Seq<char>,
    pad_back: Seq<char>,
    cat: Option<BookCategory>,
)
    requires
        all_spaces(pad_front),
        all_spaces(pad_back),
    ensures
        filtered_catalog(books, lower_of(trim_spec(pad_front + q + pad_back)), cat)
            == filtered_catalog(books, lower_of(trim_spec(q)), cat),
{
    let padded = pad_front + q + pad_back;
    assert(padded =~= pad_front + (q + pad_back));
    lemma_trim_front_pad(pad_front, q + pad_back);
    if trim_front(q).len() == 0 {
        lemma_trim_front_empty(q);
        assert forall|i: int| 0 <= i < (q + pad_back).len() implies is_space_at(
            q + pad_back,
            i,
        ) by {
            if i < q.len() {
                assert((q + pad_back)[i] == q[i]);
            } else {
                assert((q + pad_back)[i] == pad_back[i - q.len()]);
            }
        }
        lemma_trim_front_all_spaces(q + pad_back);
        assert(trim_spec(padded) =~= trim_spec(q));
    } else {
        lemma_trim_front_concat(q, pad_back);
        lemma_trim_back_pad(trim_front(q), pad_back);
    }
}

/// Whether the character at `i` is whitespace: a helper shape for
/// quantified reasoning about padded sequences.
spec fn is_space_at(s: Seq<char>, i: int) -> bool {
    crate::strutil::is_space(s[i])
}

/// The catalog view holds exactly the books that survive the filters:
/// a book stands in some group if and only if it was retained, so
/// grouping and sorting lose nothing and invent nothing.
pub proof fn lemma_catalog_exactly_the_retained(
    books: Seq<Book>,
    q: Seq<char>,
    cat: Option<BookCategory>,
    b: Book,
)
    ensures
        (exists|gi: int|
            0 <= gi < filtered_catalog(books, q, cat).len() && (#[trigger] filtered_catalog(
                books,
                q,
                cat,
            )[gi]).books.contains(b)) <==> retained(books, q, cat).contains(b),
{
    let pool = retained(books, q, cat);
    lemma_groups_from_contains(0, pool, b);
    if exists|ci: int|
        0 <= ci < 7 && pool.filter(cat_is(#[trigger] all_categories_spec()[ci])).contains(b) {
        let ci = choose|ci: int|
            0 <= ci < 7 && pool.filter(cat_is(#[trigger] all_categories_spec()[ci])).contains(b);
        lemma_filter_member(pool, cat_is(all_categories_spec()[ci]), b);
    }
    if pool.contains(b) {
        let i = choose|i: int| 0 <= i < pool.len() && pool[i] == b;
        let ci: int = match b.category {
            BookCategory::Rust => 0,
            BookCategory::Python => 1,
            BookCategory::CodeCraftsmanshipEssentials => 2,
            BookCategory::DockerKubernetes => 3,
            BookCategory::EventDrivenArchitecture => 4,
            BookCategory::ModernDevOpsAndDelivery => 5,
            BookCategory::SoftwareArchitecturesAndPatterns => 6,
        };
        assert(all_categories_spec()[ci] == b.category);
        pool.lemma_filter_contains(cat_is(all_categories_spec()[ci]), i);
        assert(pool.filter(cat_is(all_categories_spec()[ci])).contains(b));
    }
}

/// Filters `books` by an optional category and a free-text query —
/// case-insensitive, and insensitive to whitespace around the query —
/// groups the survivors by category in canonical order, and sorts each
/// group by rating, highest first, ties keeping their encounter order.
/// Categories that retain no book get no group; an empty result is a
/// valid outcome, not an error.
pub fn filter_books(books: Vec<Book>, query: &str, category: Option<BookCategory>) -> (r: Vec<
    CategoryGroup,
>)
    ensures
        group_models(r@) == filtered_catalog(books@, lower_of(trim_spec(query@)), category),
{
    let ghost orig = books@;
    let query_chars = str_to_chars(query);
    let trimmed = trim_chars(&query_chars);
    let trimmed_s = chars_to_string(&trimmed);
    let q_low = lowercase(trimmed_s.as_str());

    // First pass: keep the books that match both filters.
    let mut input = books;
    let mut kept: Vec<Book> = Vec::new();
    let total = input.len();
    let mut i: usize = 0;
    proof {
        reveal_with_fuel(Seq::<_>::filter, 1);
        assert(orig.take(0int).filter(retain_pred(q_low@, category)) =~= Seq::<Book>::empty());
        assert(input@ =~= orig.skip(0));
        assert(orig.len() == total);
    }
    while input.len() > 0
        invariant
            i <= orig.len(),
            orig.len() == total,
            input@ == orig.skip(i as int),
            kept@ == orig.take(i as int).filter(retain_pred(q_low@, category)),
        decreases input@.len(),
    {
        let ghost pred = retain_pred(q_low@, category);
        let b = input.remove(0);
        proof {
            assert(orig.skip(i as int)[0] == orig[i as int]);
            assert(orig.skip(i as int).remove(0) =~= orig.skip(i + 1));
        }
        let cat_ok = match category {
            Option::None => true,
            Option::Some(c) => b.category == c,
        };
        let keep = cat_ok && book_matches(&b, q_low.as_str());
        proof {
            assert(keep == pred(b));
            assert(orig.take(i + 1) =~= orig.take(i as int) + seq![orig[i as int]]);
            Seq::<Book>::filter_distributes_over_add(orig.take(i as int), seq![b], pred);
            lemma_filter_single(b, pred);
        }
        if keep {
            kept.push(b);
        }
        i = i + 1;
    }
    proof {
        assert(orig.take(total as int) =~= orig);
        assert(kept@ == retained(orig, q_low@, category));
    }

    // Second pass: partition the survivors by category.
    let ghost pool = kept@;
    let mut bucket_rust: Vec<Book> = Vec::new();
    let mut bucket_python: Vec<Book> = Vec::new();
    let mut bucket_craft: Vec<Book> = Vec::new();
    let mut bucket_docker: Vec<Book> = Vec::new();
    let mut bucket_event: Vec<Book> = Vec::new();
    let mut bucket_devops: Vec<Book> = Vec::new();
    let mut bucket_arch: Vec<Book> = Vec::new();
    let mut rest = kept;
    let total2 = rest.len();
    let mut j: usize = 0;
    proof {
        reveal_with_fuel(Seq::<_>::filter, 1);
        assert forall|c: BookCategory| #[trigger]
            pool.take(0int).filter(cat_is(c)) =~= Seq::<Book>::empty() by {
            assert(pool.take(0int) =~= Seq::<Book>::empty());
        }
        assert(rest@ =~= pool.skip(0));
        assert(pool.len() == total2);
    }
    while rest.len() > 0
        invariant
            j <= pool.len(),
            pool.len() == total2,
            rest@ == pool.skip(j as int),
            bucket_rust@ == pool.take(j as int).filter(cat_is(BookCategory::Rust)),
            bucket_python@ == pool.take(j as int).filter(cat_is(BookCategory::Python)),
            bucket_craft@ == pool.take(j as int).filter(
                cat_is(BookCategory::CodeCraftsmanshipEssentials),
            ),
            bucket_docker@ == pool.take(j as int).filter(cat_is(BookCategory::DockerKubernetes)),
            bucket_event@ == pool.take(j as int).filter(
                cat_is(BookCategory::EventDrivenArchitecture),
            ),
            bucket_devops@ == pool.take(j as int).filter(
                cat_is(BookCategory::ModernDevOpsAndDelivery),
            ),
            bucket_arch@ == pool.take(j as int).filter(
                cat_is(BookCategory::SoftwareArchitecturesAndPatterns),
            ),
        decreases rest@.len(),
    {
        let b = rest.remove(0);
        proof {
            assert(pool.skip(j as int)[0] == pool[j as int]);
            assert(pool.skip(j as int).remove(0) =~= pool.skip(j + 1));
            assert(pool.take(j + 1) =~= pool.take(j as int) + seq![pool[j as int]]);
            assert forall|c: BookCategory| #[trigger]
                pool.take(j + 1).filter(cat_is(c)) == pool.take(j as int).filter(cat_is(c)) + (
                if b.category == c {
                    seq![b]
                } else {
                    Seq::<Book>::empty()
                }) by {
                Seq::<Book>::filter_distributes_over_add(pool.take(j as int), seq![b], cat_is(c));
                lemma_filter_single(b, cat_is(c));
            }
        }
        match b.category {
            BookCategory::Rust => bucket_rust.push(b),
            BookCategory::Python => bucket_python.push(b),
            BookCategory::CodeCraftsmanshipEssentials => bucket_craft.push(b),
            BookCategory::DockerKubernetes => bucket_docker.push(b),
            BookCategory::EventDrivenArchitecture => bucket_event.push(b),
            BookCategory::ModernDevOpsAndDelivery => bucket_devops.push(b),
            BookCategory::SoftwareArchitecturesAndPatterns => bucket_arch.push(b),
        }
        j = j + 1;
    }
    proof {
        assert(pool.take(total2 as int) =~= pool);
    }

    // Sort each group and lay the non-empty ones out in canonical
    // category order.
    let mut buckets: Vec<Vec<Book>> = Vec::new();
    buckets.push(sort_books(bucket_rust));
    buckets.push(sort_books(bucket_python));
    buckets.push(sort_books(bucket_craft));
    buckets.push(sort_books(bucket_docker));
    buckets.push(sort_books(bucket_event));
    buckets.push(sort_books(bucket_devops));
    buckets.push(sort_books(bucket_arch));
    proof {
        assert(all_categories_spec()[0] == BookCategory::Rust);
        assert(all_categories_spec()[1] == BookCategory::Python);
        assert(all_categories_spec()[2] == BookCategory::CodeCraftsmanshipEssentials);
        assert(all_categories_spec()[3] == BookCategory::DockerKubernetes);
        assert(all_categories_spec()[4] == BookCategory::EventDrivenArchitecture);
        assert(all_categories_spec()[5] == BookCategory::ModernDevOpsAndDelivery);
        assert(all_categories_spec()[6] == BookCategory::SoftwareArchitecturesAndPatterns);
    }
    let cats = BookCategory::all_categories();
    let mut result: Vec<CategoryGroup> = Vec::new();
    let mut k: usize = 0;
    proof {
        assert(group_models(result@) =~= Seq::<GroupModel>::empty());
    }
    while k < 7
        invariant
            k <= 7,
            cats@ == all_categories_spec(),
            buckets@.len() == 7 - k,
            forall|m: int|
                0 <= m < buckets@.len() ==> #[trigger] buckets@[m]@ == sort_by_rating(
                    pool.filter(cat_is(all_categories_spec()[k + m])),
                ),
            groups_from(0, pool) == group_models(result@) + groups_from(k as int, pool),
        decreases 7 - k,
    {
        let ghost before_buckets = buckets@;
        let bkt = buckets.remove(0);
        let c = cats[k];
        let ghost sub = pool.filter(cat_is(all_categories_spec()[k as int]));
        proof {
            assert(bkt@ == sort_by_rating(sub));
            assert forall|m: int| 0 <= m < buckets@.len() implies #[trigger] buckets@[m]@
                == sort_by_rating(pool.filter(cat_is(all_categories_spec()[k + 1 + m]))) by {
                assert(buckets@[m] == before_buckets[m + 1]);
            }
            lemma_sort_len(sub);
        }
        if bkt.len() > 0 {
            let g = CategoryGroup { category: c, books: bkt };
            let ghost before = result@;
            result.push(g);
            proof {
                assert(seq![g@] + groups_from(k + 1, pool) =~= groups_from(k as int, pool));
                assert(group_models(result@) =~= group_models(before) + seq![g@]);
                assert((group_models(before) + seq![g@]) + groups_from(k + 1, pool)
                    =~= group_models(before) + (seq![g@] + groups_from(k + 1, pool)));
            }
        } else {
            proof {
                assert(groups_from(k + 1, pool) =~= groups_from(k as int, pool));
            }
        }
        k = k + 1;
    }
    proof {
        assert(groups_from(7, pool) =~= Seq::<GroupModel>::empty());
        assert(group_models(result@) + groups_from(7, pool) =~= group_models(result@));
    }
    result
}

} // verus!
