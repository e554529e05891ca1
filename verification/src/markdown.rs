//! The editor-preview converter: a lightweight markup dialect becomes
//! HTML. Triple-backtick fenced code blocks with a language tag turn
//! into the same `<pre><code class="language-X">` blocks the enhancer
//! recognizes, with the code HTML-escaped (language tags are runs of
//! ASCII letters, digits or underscores); then the basic inline
//! markers are substituted literally and blank lines become paragraph
//! breaks. The substitutions are the literal, order-sensitive ones the
//! editor applies; they make no attempt at balanced pairs.

use vstd::prelude::*;

use crate::enhance::{
    block_close, block_open, encode_text, encode_text_spec, lemma_word_run_val, tpl_gt, word_run,
};
use crate::strutil::{
    chars_to_string, is_word_char, push_str_chars, push_subrange, replace_all, replace_seq,
    str_to_chars, vec_matches_at, word_char,
};

verus! {

/// The opening of a fenced code block.
pub open spec fn fence_open() -> Seq<char> {
    "```"@
}

/// What ends a fenced code block: a newline followed by three
/// backticks.
pub open spec fn fence_close() -> Seq<char> {
    "\n```"@
}

fn fence_open_str() -> (r: &'static str)
    ensures
        r@ == fence_open(),
{
    "```"
}

fn fence_close_str() -> (r: &'static str)
    ensures
        r@ == fence_close(),
{
    "\n```"
}

/// The earliest position at or after `p` where the closing fence
/// starts, or `-1` when there is none.
pub open spec fn find_fence_close(s: Seq<char>, p: int) -> int
    decreases s.len() - p when p <= s.len()
{
    if p < 0 || p > s.len() {
        -1
    } else if p + fence_close().len() <= s.len() && s.subrange(p, p + fence_close().len() as int)
        == fence_close() {
        p
    } else if p >= s.len() {
        -1
    } else {
        find_fence_close(s, p + 1)
    }
}

proof fn lemma_find_fence_close_bounds(s: Seq<char>, p: int)
    requires
        0 <= p <= s.len(),
    ensures
        find_fence_close(s, p) == -1 || (p <= find_fence_close(s, p) && find_fence_close(s, p)
            + fence_close().len() <= s.len()),
    decreases s.len() - p,
{
    if p + fence_close().len() <= s.len() && s.subrange(p, p + fence_close().len() as int)
        == fence_close() {
    } else if p >= s.len() {
    } else {
        lemma_find_fence_close_bounds(s, p + 1);
    }
}

/// The components of a fenced block at the head of `s`.
pub struct FenceParse {
    pub lang_len: int,
    pub close_at: int,
}

/// Tries to recognize a fenced code block at the very start of `s`:
/// three backticks, a language tag, a newline, then the least content
/// ending in a closing fence.
pub open spec fn parse_fence(s: Seq<char>) -> Option<FenceParse> {
    let pre = fence_open();
    if s.len() >= pre.len() && s.take(pre.len() as int) == pre {
        let k = word_run(s, pre.len() as int);
        if k >= 1 && pre.len() + k + 1 <= s.len() && s[pre.len() + k] == '\n' {
            let q = find_fence_close(s, pre.len() + k + 1);
            if q >= 0 {
                Option::Some(FenceParse { lang_len: k, close_at: q })
            } else {
                Option::None
            }
        } else {
            Option::None
        }
    } else {
        Option::None
    }
}

proof fn lemma_parse_fence_bounds(s: Seq<char>)
    requires
        parse_fence(s) is Some,
    ensures
        ({
            let fp = parse_fence(s).unwrap();
            &&& fp.lang_len >= 1
            &&& fence_open().len() + fp.lang_len + 1 <= fp.close_at
            &&& fp.close_at + fence_close().len() <= s.len()
            &&& fence_close().len() >= 1
            &&& fence_open().len() >= 1
        }),
{
    reveal_strlit("```");
    reveal_strlit("\n```");
    let pre = fence_open();
    let k = word_run(s, pre.len() as int);
    lemma_find_fence_close_bounds(s, pre.len() + k + 1);
}

/// What one fenced block becomes.
pub open spec fn fence_rendered(lang: Seq<char>, code: Seq<char>) -> Seq<char> {
    block_open() + lang + tpl_gt() + encode_text_spec(code) + block_close()
}

/// The fence conversion pass: each fenced block is rewritten, scanning
/// left to right, and everything else is copied unchanged.
pub open spec fn fences_converted(s: Seq<char>) -> Seq<char>
    decreases s.len()
        via fences_converted_decreases
{
    match parse_fence(s) {
        Option::Some(fp) => {
            let pre_len = fence_open().len() as int;
            let lang = s.subrange(pre_len, pre_len + fp.lang_len);
            let code = s.subrange(pre_len + fp.lang_len + 1, fp.close_at);
            fence_rendered(lang, code) + fences_converted(
                s.skip(fp.close_at + fence_close().len() as int),
            )
        },
        Option::None => {
            if s.len() == 0 {
                Seq::empty()
            } else {
                seq![s[0]] + fences_converted(s.drop_first())
            }
        },
    }
}

#[via_fn]
proof fn fences_converted_decreases(s: Seq<char>) {
    if parse_fence(s) is Some {
        lemma_parse_fence_bounds(s);
    }
}

/// The whole conversion: fences first, then the literal inline
/// substitutions, paragraph breaks on blank lines, a surrounding
/// paragraph, and removal of empty paragraphs.
pub open spec fn markdown_to_html(s: Seq<char>) -> Seq<char> {
    let x = fences_converted(s);
    let x = replace_seq(x, "**"@, "<strong>"@);
    let x = replace_seq(x, "**"@, "</strong>"@);
    let x = replace_seq(x, "*"@, "<em>"@);
    let x = replace_seq(x, "*"@, "</em>"@);
    let x = replace_seq(x, "\n\n"@, "</p><p>"@);
    let x = "<p>"@ + x + "</p>"@;
    replace_seq(x, "<p></p>"@, ""@)
}

/// Searches `v` for a fenced block starting exactly at `i`, returning
/// the absolute end of the language tag and the absolute start of the
/// closing fence.
#[verifier::loop_isolation(false)]
fn try_parse_fence_at(v: &Vec<char>, i: usize) -> (r: Option<(usize, usize)>)
    requires
        i <= v@.len(),
    ensures
        r is None ==> parse_fence(v@.skip(i as int)) is None,
        r matches Some((le, q)) ==> {
            &&& i + fence_open().len() <= le
            &&& le + 1 <= q
            &&& q + fence_close().len() <= v@.len()
            &&& parse_fence(v@.skip(i as int)) == Option::Some(
                FenceParse { lang_len: le - i - fence_open().len(), close_at: q - i },
            )
        },
{
    let ghost s = v@.skip(i as int);
    let n = v.len();
    let pre = fence_open_str();
    let pre_len = pre.unicode_len();
    let close = fence_close_str();
    let close_len = close.unicode_len();
    proof {
        assert(s.len() == n - i);
    }
    if pre_len > n - i {
        return None;
    }
    if !vec_matches_at(v, i, pre, pre_len) {
        proof {
            assert(s.take(fence_open().len() as int) =~= v@.subrange(i as int, i + pre_len));
        }
        return None;
    }
    proof {
        assert(s.take(fence_open().len() as int) =~= v@.subrange(i as int, i + pre_len));
    }
    let start = i + pre_len;
    let mut e: usize = start;
    while e < n && word_char(v[e])
        invariant
            start <= e <= n,
            forall|m: int| start <= m < e ==> is_word_char(v@[m]),
        decreases n - e,
    {
        e = e + 1;
    }
    let k = e - start;
    proof {
        assert forall|m: int| fence_open().len() <= m < fence_open().len() + k implies is_word_char(
            s[m],
        ) by {
            assert(s[m] == v@[i + m]);
        }
        if e < n {
            assert(s[fence_open().len() + k as int] == v@[e as int]);
        }
        lemma_word_run_val(s, fence_open().len() as int, k as int);
    }
    if k == 0 {
        return None;
    }
    if n - e < 1 || v[e] != '\n' {
        proof {
            if e < n {
                assert(s[fence_open().len() + k as int] == v@[e as int]);
            }
        }
        return None;
    }
    proof {
        assert(s[fence_open().len() + k as int] == v@[e as int]);
    }
    let mut p: usize = e + 1;
    let ghost p0 = p;
    loop
        invariant
            e + 1 <= p <= n,
            find_fence_close(s, p0 - i) == find_fence_close(s, p - i),
        decreases n - p,
    {
        if close_len <= n - p && vec_matches_at(v, p, close, close_len) {
            proof {
                assert(s.subrange(p - i, p - i + fence_close().len() as int) =~= v@.subrange(
                    p as int,
                    p + close_len,
                ));
                assert(find_fence_close(s, p - i) == p - i);
            }
            return Some((e, p));
        }
        proof {
            if close_len <= n - p {
                assert(s.subrange(p - i, p - i + fence_close().len() as int) =~= v@.subrange(
                    p as int,
                    p + close_len,
                ));
            }
        }
        if p >= n {
            proof {
                assert(find_fence_close(s, p - i) == -1);
            }
            return None;
        }
        proof {
            assert(find_fence_close(s, p - i) == find_fence_close(s, p + 1 - i));
        }
        p = p + 1;
    }
}

fn convert_fences(content: &str) -> (r: Vec<char>)
    ensures
        r@ == fences_converted(content@),
{
    let chars = str_to_chars(content);
    let n = chars.len();
    let pre_len = fence_open_str().unicode_len();
    let close_len = fence_close_str().unicode_len();
    let gt = crate::enhance::tpl_gt_str();
    let mut out: Vec<char> = Vec::new();
    let mut i: usize = 0;
    proof {
        assert(chars@.skip(0) =~= chars@);
    }
    while i < n
        invariant
            i <= n,
            n == chars@.len(),
            chars@ == content@,
            pre_len == fence_open().len(),
            close_len == fence_close().len(),
            gt@ == tpl_gt(),
            fences_converted(content@) == out@ + fences_converted(chars@.skip(i as int)),
        decreases n - i,
    {
        let ghost suf = chars@.skip(i as int);
        match try_parse_fence_at(&chars, i) {
            Some((le, q)) => {
                let ghost fp = parse_fence(suf).unwrap();
                proof {
                    lemma_parse_fence_bounds(suf);
                }
                let lang_start = i + pre_len;
                let mut code_vec: Vec<char> = Vec::new();
                push_subrange(&mut code_vec, &chars, le + 1, q);
                let code_s = chars_to_string(&code_vec);
                let encoded = encode_text(code_s.as_str());
                let ghost out0 = out@;
                push_str_chars(&mut out, crate::enhance::block_open_str());
                push_subrange(&mut out, &chars, lang_start, le);
                push_str_chars(&mut out, gt);
                push_str_chars(&mut out, encoded.as_str());
                push_str_chars(&mut out, crate::enhance::block_close_str());
                proof {
                    let pre_g = fence_open().len() as int;
                    let lang_g = suf.subrange(pre_g, pre_g + fp.lang_len);
                    let code_g = suf.subrange(pre_g + fp.lang_len + 1, fp.close_at);
                    assert(lang_g =~= chars@.subrange(lang_start as int, le as int));
                    assert(code_g =~= chars@.subrange(le + 1, q as int));
                    assert(out@ =~= out0 + fence_rendered(lang_g, code_g));
                    assert(suf.skip(fp.close_at + fence_close().len() as int) =~= chars@.skip(
                        q + close_len,
                    ));
                    assert(fences_converted(suf) == fence_rendered(lang_g, code_g)
                        + fences_converted(chars@.skip(q + close_len)));
                    assert(out0 + (fence_rendered(lang_g, code_g) + fences_converted(
                        chars@.skip(q + close_len),
                    )) =~= (out0 + fence_rendered(lang_g, code_g)) + fences_converted(
                        chars@.skip(q + close_len),
                    ));
                }
                i = q + close_len;
            },
            None => {
                proof {
                    assert(suf[0] == chars@[i as int]);
                    assert(suf.drop_first() =~= chars@.skip(i + 1));
                }
                out.push(chars[i]);
                i = i + 1;
            },
        }
    }
    proof {
        assert(chars@.skip(n as int) =~= Seq::<char>::empty());
    }
    out
}

/// Converts the editor's lightweight markup into HTML: fenced code
/// blocks, literal bold/italic marker substitution, and paragraph
/// breaks on blank lines.
pub fn convert_markdown_to_html(content: &str) -> (r: String)
    ensures
        r@ == markdown_to_html(content@),
{
    let x = convert_fences(content);
    let x = replace_all(&x, "**", "<strong>");
    let x = replace_all(&x, "**", "</strong>");
    let x = replace_all(&x, "*", "<em>");
    let x = replace_all(&x, "*", "</em>");
    let x = replace_all(&x, "\n\n", "</p><p>");
    let mut y: Vec<char> = Vec::new();
    push_str_chars(&mut y, "<p>");
    let ghost x_view = x@;
    let xn = x.len();
    push_subrange(&mut y, &x, 0, xn);
    proof {
        assert(x_view.subrange(0, xn as int) =~= x_view);
    }
    push_str_chars(&mut y, "</p>");
    let z = replace_all(&y, "<p></p>", "");
    chars_to_string(&z)
}

} // verus!
