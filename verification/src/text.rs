//! Text metrics over blog content: reading-time estimation, excerpt and
//! meta-description extraction, and plain truncation. Tag removal is
//! literal substitution, not HTML parsing; whitespace runs (and control
//! characters) collapse to single spaces before truncation at a word
//! boundary.

use vstd::prelude::*;

use crate::strutil::{
    chars_to_string, is_ctrl, is_space, push_str_chars, push_subrange, replace_all, replace_seq,
    space_char, str_to_chars,
};

verus! {

/// One step of whitespace collapsing: `inword` says whether the last
/// character already written out belongs to a word still being copied,
/// and `started` whether any word has been written at all.
pub open spec fn collapse_from(s: Seq<char>, inword: bool, started: bool) -> Seq<char>
    decreases s.len(),
{
    if s.len() == 0 {
        Seq::empty()
    } else {
        let c = s[0];
        let rest = s.drop_first();
        if is_space(c) {
            collapse_from(rest, false, started)
        } else if inword {
            seq![c] + collapse_from(rest, true, started)
        } else if started {
            seq![' ', c] + collapse_from(rest, true, true)
        } else {
            seq![c] + collapse_from(rest, true, true)
        }
    }
}

/// The words of `s` joined by single spaces: what splitting on
/// whitespace and re-joining produces.
pub open spec fn collapse_ws(s: Seq<char>) -> Seq<char> {
    collapse_from(s, false, false)
}

/// Collapses whitespace runs in `v` to single spaces and drops leading
/// and trailing whitespace.
pub fn collapse_whitespace(v: &Vec<char>) -> (r: Vec<char>)
    ensures
        r@ == collapse_ws(v@),
{
    let n = v.len();
    let mut out: Vec<char> = Vec::new();
    let mut inword = false;
    let mut started = false;
    let mut i: usize = 0;
    proof {
        assert(v@.skip(0) =~= v@);
    }
    while i < n
        invariant
            n == v@.len(),
            i <= n,
            collapse_ws(v@) == out@ + collapse_from(v@.skip(i as int), inword, started),
        decreases n - i,
    {
        let ghost suf = v@.skip(i as int);
        proof {
            assert(suf[0] == v@[i as int]);
            assert(suf.drop_first() =~= v@.skip(i + 1));
        }
        let c = v[i];
        if space_char(c) {
            inword = false;
        } else if inword {
            out.push(c);
        } else if started {
            out.push(' ');
            out.push(c);
            inword = true;
        } else {
            out.push(c);
            inword = true;
            started = true;
        }
        i = i + 1;
    }
    proof {
        assert(v@.skip(n as int) =~= Seq::<char>::empty());
    }
    out
}

/// Keeps the characters that whitespace collapsing should see: anything
/// that is not a control character, and control characters that count
/// as whitespace.
pub open spec fn keep_in_text(c: char) -> bool {
    !is_ctrl(c) || is_space(c)
}

fn filter_text(v: &Vec<char>) -> (r: Vec<char>)
    ensures
        r@ == v@.filter(|c: char| keep_in_text(c)),
{
    let n = v.len();
    let mut out: Vec<char> = Vec::new();
    let mut i: usize = 0;
    proof {
        reveal_with_fuel(Seq::<_>::filter, 2);
        assert(v@.take(0int).filter(|c: char| keep_in_text(c)) =~= Seq::<char>::empty());
    }
    while i < n
        invariant
            n == v@.len(),
            i <= n,
            out@ == v@.take(i as int).filter(|c: char| keep_in_text(c)),
        decreases n - i,
    {
        let c = v[i];
        let keep = !crate::strutil::ctrl_char(c) || space_char(c);
        if keep {
            out.push(c);
        }
        i = i + 1;
        proof {
            reveal_with_fuel(Seq::<_>::filter, 2);
            let pred = |c: char| keep_in_text(c);
            assert(v@.take(i as int) =~= v@.take(i - 1) + seq![v@[i - 1]]);
            Seq::<char>::filter_distributes_over_add(v@.take(i - 1), seq![v@[i - 1]], pred);
            assert(seq![v@[i - 1]].drop_last() =~= Seq::<char>::empty());
            assert(seq![v@[i - 1]].filter(pred) =~= (if pred(v@[i - 1]) {
                seq![v@[i - 1]]
            } else {
                Seq::<char>::empty()
            }));
        }
    }
    proof {
        assert(v@.take(n as int) =~= v@);
    }
    out
}

/// The tag-stripping substitutions applied to HTML content before an
/// excerpt or meta description is taken: a fixed list of structural
/// tags is removed by literal replacement, block-closing tags leaving a
/// space behind.
pub open spec fn strip_tags(s: Seq<char>) -> Seq<char> {
    let s = replace_seq(s, "<p>"@, ""@);
    let s = replace_seq(s, "</p>"@, " "@);
    let s = replace_seq(s, "<br>"@, " "@);
    let s = replace_seq(s, "<br/>"@, " "@);
    let s = replace_seq(s, "<h1>"@, ""@);
    let s = replace_seq(s, "</h1>"@, " "@);
    let s = replace_seq(s, "<h2>"@, ""@);
    let s = replace_seq(s, "</h2>"@, " "@);
    let s = replace_seq(s, "<h3>"@, ""@);
    let s = replace_seq(s, "</h3>"@, " "@);
    let s = replace_seq(s, "<strong>"@, ""@);
    let s = replace_seq(s, "</strong>"@, ""@);
    let s = replace_seq(s, "<em>"@, ""@);
    let s = replace_seq(s, "</em>"@, ""@);
    let s = replace_seq(s, "<ul>"@, ""@);
    let s = replace_seq(s, "</ul>"@, ""@);
    let s = replace_seq(s, "<li>"@, ""@);
    let s = replace_seq(s, "</li>"@, " "@);
    let s = replace_seq(s, "<ol>"@, ""@);
    let s = replace_seq(s, "</ol>"@, ""@);
    s
}

fn strip_tags_exec(v: Vec<char>) -> (r: Vec<char>)
    ensures
        r@ == strip_tags(v@),
{
    let s = replace_all(&v, "<p>", "");
    let s = replace_all(&s, "</p>", " ");
    let s = replace_all(&s, "<br>", " ");
    let s = replace_all(&s, "<br/>", " ");
    let s = replace_all(&s, "<h1>", "");
    let s = replace_all(&s, "</h1>", " ");
    let s = replace_all(&s, "<h2>", "");
    let s = replace_all(&s, "</h2>", " ");
    let s = replace_all(&s, "<h3>", "");
    let s = replace_all(&s, "</h3>", " ");
    let s = replace_all(&s, "<strong>", "");
    let s = replace_all(&s, "</strong>", "");
    let s = replace_all(&s, "<em>", "");
    let s = replace_all(&s, "</em>", "");
    let s = replace_all(&s, "<ul>", "");
    let s = replace_all(&s, "</ul>", "");
    let s = replace_all(&s, "<li>", "");
    let s = replace_all(&s, "</li>", " ");
    let s = replace_all(&s, "<ol>", "");
    let s = replace_all(&s, "</ol>", "");
    s
}

/// The plain text a piece of HTML content reduces to: tags stripped,
/// non-whitespace control characters dropped, whitespace collapsed.
pub open spec fn clean_text(s: Seq<char>) -> Seq<char> {
    collapse_ws(strip_tags(s).filter(|c: char| keep_in_text(c)))
}

pub open spec fn has_char(s: Seq<char>, c: char) -> bool {
    exists|i: int| 0 <= i < s.len() && s[i] == c
}

/// The largest index of `c` in `s`, or `-1` when `c` does not occur.
pub open spec fn last_index_of(s: Seq<char>, c: char) -> int
    decreases s.len(),
{
    if s.len() == 0 {
        -1
    } else if s.last() == c {
        s.len() - 1
    } else {
        last_index_of(s.drop_last(), c)
    }
}

proof fn lemma_last_index_at(s: Seq<char>, c: char, idx: int)
    requires
        0 <= idx < s.len(),
        s[idx] == c,
        forall|k: int| idx < k < s.len() ==> s[k] != c,
    ensures
        last_index_of(s, c) == idx,
    decreases s.len(),
{
    if idx == s.len() - 1 {
    } else {
        assert(s.last() != c);
        assert(s.drop_last()[idx] == c);
        lemma_last_index_at(s.drop_last(), c, idx);
    }
}

proof fn lemma_no_char(s: Seq<char>, c: char)
    requires
        forall|k: int| 0 <= k < s.len() ==> s[k] != c,
    ensures
        !has_char(s, c),
{
}

/// Truncation to at most `max` characters, breaking at the last space
/// before the limit when there is one, with an ellipsis marker appended
/// whenever anything was cut off.
pub open spec fn truncate_boundary(t: Seq<char>, max: int) -> Seq<char> {
    if t.len() <= max {
        t
    } else {
        let p = t.take(max);
        if has_char(p, ' ') {
            p.take(last_index_of(p, ' ')) + "..."@
        } else {
            p + "..."@
        }
    }
}

fn truncate_boundary_exec(t: &Vec<char>, max: usize) -> (r: Vec<char>)
    ensures
        r@ == truncate_boundary(t@, max as int),
{
    let n = t.len();
    if n <= max {
        let mut out: Vec<char> = Vec::new();
        push_subrange(&mut out, t, 0, n);
        proof {
            assert(t@.subrange(0, n as int) =~= t@);
        }
        return out;
    }
    let ghost p = t@.take(max as int);
    // Scan backwards through the first `max` characters for a space.
    let mut j: usize = max;
    let mut found = false;
    let mut cut: usize = 0;
    loop
        invariant_except_break
            max < n == t@.len(),
            p == t@.take(max as int),
            j <= max,
            !found,
            forall|k: int| j <= k < max ==> p[k] != ' ',
        ensures
            found ==> cut < max && p[cut as int] == ' ' && forall|k: int|
                cut < k < max ==> p[k] != ' ',
            !found ==> forall|k: int| 0 <= k < max ==> p[k] != ' ',
        decreases j,
    {
        if j == 0 {
            break;
        }
        proof {
            assert(p[j - 1] == t@[j - 1]);
        }
        if t[j - 1] == ' ' {
            found = true;
            cut = j - 1;
            break;
        }
        j = j - 1;
    }
    let mut out: Vec<char> = Vec::new();
    if found {
        proof {
            lemma_last_index_at(p, ' ', cut as int);
            assert(p.take(cut as int) =~= t@.subrange(0, cut as int));
        }
        push_subrange(&mut out, t, 0, cut);
    } else {
        proof {
            lemma_no_char(p, ' ');
            assert(p =~= t@.subrange(0, max as int));
        }
        push_subrange(&mut out, t, 0, max);
    }
    push_str_chars(&mut out, "...");
    out
}

/// The number of whitespace-separated words in `s`, counting from a
/// position where `inword` says whether a word is already underway.
pub open spec fn count_words_from(s: Seq<char>, inword: bool) -> nat
    decreases s.len(),
{
    if s.len() == 0 {
        0
    } else if is_space(s[0]) {
        count_words_from(s.drop_first(), false)
    } else if inword {
        count_words_from(s.drop_first(), true)
    } else {
        1 + count_words_from(s.drop_first(), true)
    }
}

/// The number of whitespace-separated words in `s`.
pub open spec fn word_count_of(s: Seq<char>) -> nat {
    count_words_from(s, false)
}

/// Counts the whitespace-separated words of `s`.
pub fn word_count(s: &str) -> (r: usize)
    ensures
        r == word_count_of(s@),
{
    let n = s.unicode_len();
    let mut count: usize = 0;
    let mut inword = false;
    let mut i: usize = 0;
    proof {
        assert(s@.skip(0) =~= s@);
    }
    while i < n
        invariant
            n == s@.len(),
            i <= n,
            count <= i,
            word_count_of(s@) == count + count_words_from(s@.skip(i as int), inword),
        decreases n - i,
    {
        let ghost suf = s@.skip(i as int);
        proof {
            assert(suf[0] == s@[i as int]);
            assert(suf.drop_first() =~= s@.skip(i + 1));
        }
        let c = s.get_char(i);
        if space_char(c) {
            inword = false;
        } else if !inword {
            count = count + 1;
            inword = true;
        }
        i = i + 1;
    }
    proof {
        assert(s@.skip(n as int) =~= Seq::<char>::empty());
    }
    count
}

/// Reading time in whole minutes at 225 words per minute, rounded up,
/// never below one minute. This speed is the one the blog detail view
/// uses.
pub open spec fn reading_time_of(s: Seq<char>) -> int {
    let t = (word_count_of(s) + 224) as int / 225;
    if t < 1 {
        1
    } else {
        t
    }
}

/// Estimates how many minutes reading `content` takes, at 225 words
/// per minute, rounded up, with a minimum of one minute.
pub fn estimate_reading_time(content: &str) -> (r: usize)
    ensures
        r == reading_time_of(content@),
{
    let w = word_count(content);
    let t = w / 225 + (if w % 225 != 0 {
        1
    } else {
        0
    });
    proof {
        assert((w + 224) / 225 == w / 225 + (if w % 225 == 0 {
            0int
        } else {
            1int
        })) by (nonlinear_arith);
    }
    if t < 1 {
        1
    } else {
        t
    }
}

/// Reading time in whole minutes at 200 words per minute, rounded up,
/// with no minimum: the speed the blog list summary uses.
pub open spec fn summary_reading_time_of(s: Seq<char>) -> int {
    (word_count_of(s) + 199) as int / 200
}

/// Estimates reading time as the blog list summary shows it: 200 words
/// per minute, rounded up, and zero for empty content.
pub fn summary_reading_time(content: &str) -> (r: usize)
    ensures
        r == summary_reading_time_of(content@),
{
    let w = word_count(content);
    let t = w / 200 + (if w % 200 != 0 {
        1
    } else {
        0
    });
    proof {
        assert((w + 199) / 200 == w / 200 + (if w % 200 == 0 {
            0int
        } else {
            1int
        })) by (nonlinear_arith);
    }
    t
}

/// The excerpt of `s` at limit `max`: tags stripped, text collapsed,
/// then truncated at a word boundary with an ellipsis marker.
pub open spec fn excerpt_of(s: Seq<char>, max: int) -> Seq<char> {
    truncate_boundary(clean_text(s), max)
}

/// Extracts a plain-text excerpt of at most `max_length` characters
/// from HTML content, breaking at the last space before the limit and
/// appending an ellipsis marker when the text was cut.
pub fn extract_excerpt(html_content: &str, max_length: usize) -> (r: String)
    ensures
        r@ == excerpt_of(html_content@, max_length as int),
{
    let chars = str_to_chars(html_content);
    let stripped = strip_tags_exec(chars);
    let filtered = filter_text(&stripped);
    let collapsed = collapse_whitespace(&filtered);
    let truncated = truncate_boundary_exec(&collapsed, max_length);
    chars_to_string(&truncated)
}

/// Extracts a meta description: the same cleaning as an excerpt, fixed
/// at the 160-character search-snippet limit.
pub fn extract_meta_description(content: &str) -> (r: String)
    ensures
        r@ == excerpt_of(content@, 160),
{
    extract_excerpt(content, 160)
}

/// The blog-card summary of raw content: at most 200 characters,
/// broken at the last space when one exists, with an ellipsis marker
/// appended when the content was longer.
pub fn post_summary(content: &str) -> (r: String)
    ensures
        r@ == truncate_boundary(content@, 200),
{
    let chars = str_to_chars(content);
    let truncated = truncate_boundary_exec(&chars, 200);
    chars_to_string(&truncated)
}

/// Truncates `text` to at most `max_length` characters, appending an
/// ellipsis marker when anything was cut off.
pub fn truncate_text(text: &str, max_length: usize) -> (r: String)
    ensures
        text@.len() <= max_length ==> r@ == text@,
        text@.len() > max_length ==> r@ == text@.take(max_length as int) + "..."@,
{
    let n = text.unicode_len();
    if n <= max_length {
        let r = text.to_owned();
        r
    } else {
        let prefix = text.substring_char(0, max_length);
        let mut r = prefix.to_owned();
        r.append("...");
        proof {
            assert(text@.subrange(0, max_length as int) =~= text@.take(max_length as int));
        }
        r
    }
}

} // verus!
