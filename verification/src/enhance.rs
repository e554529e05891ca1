//! The code-block enhancer: rewrites stored HTML code blocks of the
//! shape `<pre><code class="language-X">...</code></pre>` into a
//! presentation-ready block with a language label header, a copy
//! affordance, and the code re-escaped (entity-decoded first so that
//! escaping is not applied twice). Text outside recognized blocks
//! passes through unchanged. A recognized block sits on one line: its
//! code may not contain a newline before the closing tags, and its
//! language tag is a run of ASCII letters, digits or underscores —
//! tags in other scripts are not recognized.

use vstd::prelude::*;

use crate::strutil::{
    chars_to_string, is_word_char, push_str_chars, push_subrange, str_eq, str_to_chars,
    vec_matches_at, word_char,
};

verus! {

/// The opening of a recognized code block.
pub open spec fn block_open() -> Seq<char> {
    "<pre><code class=\"language-"@
}

/// The closing of a recognized code block.
pub open spec fn block_close() -> Seq<char> {
    "</code></pre>"@
}

pub fn block_open_str() -> (r: &'static str)
    ensures
        r@ == block_open(),
{
    "<pre><code class=\"language-"
}

pub fn block_close_str() -> (r: &'static str)
    ensures
        r@ == block_close(),
{
    "</code></pre>"
}

/// The length of the maximal run of word characters at `i`.
pub open spec fn word_run(s: Seq<char>, i: int) -> int
    decreases s.len() - i when i <= s.len()
{
    if i < 0 || i >= s.len() {
        0
    } else if is_word_char(s[i]) {
        1 + word_run(s, i + 1)
    } else {
        0
    }
}

pub proof fn lemma_word_run_val(s: Seq<char>, i: int, k: int)
    requires
        0 <= i,
        i + k <= s.len(),
        0 <= k,
        forall|m: int| i <= m < i + k ==> is_word_char(s[m]),
        i + k == s.len() || !is_word_char(s[i + k]),
    ensures
        word_run(s, i) == k,
    decreases k,
{
    if k > 0 {
        lemma_word_run_val(s, i + 1, k - 1);
    }
}

/// The earliest position at or after `p` where the closing tags start,
/// with no newline in between; `-1` when the line ends or runs out
/// first.
pub open spec fn find_close(s: Seq<char>, p: int) -> int
    decreases s.len() - p when p <= s.len()
{
    if p < 0 || p > s.len() {
        -1
    } else if p + block_close().len() <= s.len() && s.subrange(p, p + block_close().len() as int)
        == block_close() {
        p
    } else if p >= s.len() {
        -1
    } else if s[p] == '\n' {
        -1
    } else {
        find_close(s, p + 1)
    }
}

proof fn lemma_find_close_bounds(s: Seq<char>, p: int)
    requires
        0 <= p <= s.len(),
    ensures
        find_close(s, p) == -1 || (p <= find_close(s, p) && find_close(s, p)
            + block_close().len() <= s.len() && s.subrange(
            find_close(s, p),
            find_close(s, p) + block_close().len() as int,
        ) == block_close()),
    decreases s.len() - p,
{
    if p + block_close().len() <= s.len() && s.subrange(p, p + block_close().len() as int)
        == block_close() {
    } else if p >= s.len() {
    } else if s[p] == '\n' {
    } else {
        lemma_find_close_bounds(s, p + 1);
    }
}

/// The components of a recognized block at the head of `s`: the length
/// of its language tag, and where its closing tags start.
pub struct BlockParse {
    pub lang_len: int,
    pub close_at: int,
}

/// Tries to recognize a code block at the very start of `s`.
pub open spec fn parse_block(s: Seq<char>) -> Option<BlockParse> {
    let pre = block_open();
    if s.len() >= pre.len() && s.take(pre.len() as int) == pre {
        let k = word_run(s, pre.len() as int);
        if k >= 1 && pre.len() + k + 2 <= s.len() && s[pre.len() + k] == '"' && s[pre.len() + k
            + 1] == '>' {
            let q = find_close(s, pre.len() + k + 2);
            if q >= 0 {
                Option::Some(BlockParse { lang_len: k, close_at: q })
            } else {
                Option::None
            }
        } else {
            Option::None
        }
    } else {
        Option::None
    }
}

proof fn lemma_parse_block_bounds(s: Seq<char>)
    requires
        parse_block(s) is Some,
    ensures
        ({
            let bp = parse_block(s).unwrap();
            &&& bp.lang_len >= 1
            &&& block_open().len() + bp.lang_len + 2 <= bp.close_at
            &&& bp.close_at + block_close().len() <= s.len()
            &&& block_close().len() >= 1
            &&& block_open().len() >= 1
        }),
{
    reveal_strlit("<pre><code class=\"language-");
    reveal_strlit("</code></pre>");
    let pre = block_open();
    let k = word_run(s, pre.len() as int);
    lemma_find_close_bounds(s, pre.len() + k + 2);
}

/// Searches `v` for a recognized block starting exactly at `i`,
/// returning the absolute end of the language tag and the absolute
/// start of the closing tags.
#[verifier::loop_isolation(false)]
fn try_parse_at(v: &Vec<char>, i: usize) -> (r: Option<(usize, usize)>)
    requires
        i <= v@.len(),
    ensures
        r is None ==> parse_block(v@.skip(i as int)) is None,
        r matches Some((le, q)) ==> {
            &&& i + block_open().len() <= le
            &&& le + 2 <= q
            &&& q + block_close().len() <= v@.len()
            &&& parse_block(v@.skip(i as int)) == Option::Some(
                BlockParse {
                    lang_len: le - i - block_open().len(),
                    close_at: q - i,
                },
            )
        },
{
    let ghost s = v@.skip(i as int);
    let n = v.len();
    let pre = block_open_str();
    let pre_len = pre.unicode_len();
    let close = block_close_str();
    let close_len = close.unicode_len();
    proof {
        assert(s.len() == n - i);
    }
    if pre_len > n - i {
        return None;
    }
    if !vec_matches_at(v, i, pre, pre_len) {
        proof {
            assert(s.take(block_open().len() as int) =~= v@.subrange(i as int, i + pre_len));
        }
        return None;
    }
    proof {
        assert(s.take(block_open().len() as int) =~= v@.subrange(i as int, i + pre_len));
    }
    // The language tag: the maximal word-character run.
    let start = i + pre_len;
    let mut e: usize = start;
    while e < n && word_char(v[e])
        invariant
            start <= e <= n,
            n == v@.len(),
            forall|m: int| start <= m < e ==> is_word_char(v@[m]),
        decreases n - e,
    {
        e = e + 1;
    }
    let k = e - start;
    proof {
        assert forall|m: int| block_open().len() <= m < block_open().len() + k implies is_word_char(
            s[m],
        ) by {
            assert(s[m] == v@[i + m]);
        }
        if e < n {
            assert(s[block_open().len() + k as int] == v@[e as int]);
        }
        lemma_word_run_val(s, block_open().len() as int, k as int);
    }
    if k == 0 {
        return None;
    }
    if n - e < 2 || v[e] != '"' || v[e + 1] != '>' {
        proof {
            if e + 2 <= n {
                assert(s[block_open().len() + k as int] == v@[e as int]);
                assert(s[block_open().len() + k + 1] == v@[e + 1]);
            }
        }
        return None;
    }
    proof {
        assert(s[block_open().len() + k as int] == v@[e as int]);
        assert(s[block_open().len() + k + 1] == v@[e + 1]);
    }
    // Find the closing tags on this line.
    let mut p: usize = e + 2;
    let ghost p0 = p;
    loop
        invariant
            e + 2 <= p <= n,
            find_close(s, p0 - i) == find_close(s, p - i),
        decreases n - p,
    {
        if close_len <= n - p && vec_matches_at(v, p, close, close_len) {
            proof {
                assert(s.subrange(p - i, p - i + block_close().len() as int) =~= v@.subrange(
                    p as int,
                    p + close_len,
                ));
                assert(find_close(s, p - i) == p - i);
            }
            return Some((e, p));
        }
        proof {
            if close_len <= n - p {
                assert(s.subrange(p - i, p - i + block_close().len() as int) =~= v@.subrange(
                    p as int,
                    p + close_len,
                ));
            }
        }
        if p >= n {
            proof {
                assert(find_close(s, p - i) == -1);
            }
            return None;
        }
        proof {
            assert(s[p - i] == v@[p as int]);
        }
        if v[p] == '\n' {
            proof {
                assert(find_close(s, p - i) == -1);
            }
            return None;
        }
        proof {
            assert(find_close(s, p - i) == find_close(s, p + 1 - i));
        }
        p = p + 1;
    }
}


/// The language labels the enhancer knows; anything else shows as
/// "Code".
pub open spec fn display_label_of(lang: Seq<char>) -> Seq<char> {
    if lang == "rust"@ {
        "Rust"@
    } else if lang == "python"@ {
        "Python"@
    } else if lang == "javascript"@ {
        "JavaScript"@
    } else if lang == "typescript"@ {
        "TypeScript"@
    } else if lang == "json"@ {
        "JSON"@
    } else if lang == "yaml"@ {
        "YAML"@
    } else if lang == "toml"@ {
        "TOML"@
    } else if lang == "bash"@ || lang == "shell"@ {
        "Shell"@
    } else if lang == "html"@ {
        "HTML"@
    } else if lang == "css"@ {
        "CSS"@
    } else if lang == "sql"@ {
        "SQL"@
    } else {
        "Code"@
    }
}

/// The human-readable label for a code block's language tag.
pub fn get_language_display_name(lang: &str) -> (r: &'static str)
    ensures
        r@ == display_label_of(lang@),
{
    if str_eq(lang, "rust") {
        "Rust"
    } else if str_eq(lang, "python") {
        "Python"
    } else if str_eq(lang, "javascript") {
        "JavaScript"
    } else if str_eq(lang, "typescript") {
        "TypeScript"
    } else if str_eq(lang, "json") {
        "JSON"
    } else if str_eq(lang, "yaml") {
        "YAML"
    } else if str_eq(lang, "toml") {
        "TOML"
    } else if str_eq(lang, "bash") || str_eq(lang, "shell") {
        "Shell"
    } else if str_eq(lang, "html") {
        "HTML"
    } else if str_eq(lang, "css") {
        "CSS"
    } else if str_eq(lang, "sql") {
        "SQL"
    } else {
        "Code"
    }
}

/// How one character of code text is HTML-escaped.
pub open spec fn encode_char(c: char) -> Seq<char> {
    if c == '&' {
        "&amp;"@
    } else if c == '<' {
        "&lt;"@
    } else if c == '>' {
        "&gt;"@
    } else {
        seq![c]
    }
}

/// The HTML-escaped form of a text: `&`, `<` and `>` become entities,
/// everything else passes through.
pub open spec fn encode_text_spec(s: Seq<char>) -> Seq<char>
    decreases s.len(),
{
    if s.len() == 0 {
        Seq::empty()
    } else {
        encode_char(s[0]) + encode_text_spec(s.drop_first())
    }
}

/// The result of `html_escape::decode_html_entities`, which depends on
/// the input characters alone.
pub uninterp spec fn decoded_entities(s: Seq<char>) -> Seq<char>;

/// Relies on html_escape::encode_text: `&`, `<` and `>` become
/// `&amp;`, `&lt;` and `&gt;`, and every other character passes
/// through unchanged.
#[verifier::external_body]
pub(crate) fn encode_text(s: &str) -> (r: String)
    ensures
        r@ == encode_text_spec(s@),
{
    html_escape::encode_text(s).into_owned()
}

/// Relies on html_escape::decode_html_entities: the decoding is a
/// function of the input characters alone, and an empty string stays
/// empty.
#[verifier::external_body]
fn decode_entities(s: &str) -> (r: String)
    ensures
        r@ == decoded_entities(s@),
        s@.len() == 0 ==> r@.len() == 0,
{
    html_escape::decode_html_entities(s).into_owned()
}

pub open spec fn tpl_head() -> Seq<char> {
    "<div class=\"code-block-wrapper my-8 rounded-lg overflow-hidden shadow-lg border border-gray-200\">\n                <div class=\"code-block-header bg-gray-800 text-gray-300 px-4 py-3 text-sm font-medium flex items-center justify-between\">\n                    <span class=\"language-label font-semibold\">"@
}

pub open spec fn tpl_mid() -> Seq<char> {
    "</span>\n                    <button class=\"copy-button text-gray-400 hover:text-white transition-colors p-1 rounded hover:bg-gray-700\" \n                            onclick=\"copyCode(this)\" title=\"Copy to clipboard\">\n                        <svg class=\"w-4 h-4\" fill=\"none\" stroke=\"currentColor\" viewBox=\"0 0 24 24\">\n                            <path stroke-linecap=\"round\" stroke-linejoin=\"round\" stroke-width=\"2\" \n                                  d=\"M8 16H6a2 2 0 01-2-2V6a2 2 0 012-2h8a2 2 0 012 2v2m-6 12h8a2 2 0 002-2v-8a2 2 0 00-2-2h-8a2 2 0 00-2 2v8a2 2 0 002 2z\">\n                            </path>\n                        </svg>\n                    </button>\n                </div>\n                <pre class=\"language-"@
}

pub open spec fn tpl_pre() -> Seq<char> {
    " !mt-0 !rounded-t-none !border-0\">\n                    <code class=\"language-"@
}

pub open spec fn tpl_gt() -> Seq<char> {
    "\">"@
}

pub open spec fn tpl_tail() -> Seq<char> {
    "</code>\n                </pre>\n            </div>"@
}

fn tpl_head_str() -> (r: &'static str)
    ensures
        r@ == tpl_head(),
{
    "<div class=\"code-block-wrapper my-8 rounded-lg overflow-hidden shadow-lg border border-gray-200\">\n                <div class=\"code-block-header bg-gray-800 text-gray-300 px-4 py-3 text-sm font-medium flex items-center justify-between\">\n                    <span class=\"language-label font-semibold\">"
}

fn tpl_mid_str() -> (r: &'static str)
    ensures
        r@ == tpl_mid(),
{
    "</span>\n                    <button class=\"copy-button text-gray-400 hover:text-white transition-colors p-1 rounded hover:bg-gray-700\" \n                            onclick=\"copyCode(this)\" title=\"Copy to clipboard\">\n                        <svg class=\"w-4 h-4\" fill=\"none\" stroke=\"currentColor\" viewBox=\"0 0 24 24\">\n                            <path stroke-linecap=\"round\" stroke-linejoin=\"round\" stroke-width=\"2\" \n                                  d=\"M8 16H6a2 2 0 01-2-2V6a2 2 0 012-2h8a2 2 0 012 2v2m-6 12h8a2 2 0 002-2v-8a2 2 0 00-2-2h-8a2 2 0 00-2 2v8a2 2 0 002 2z\">\n                            </path>\n                        </svg>\n                    </button>\n                </div>\n                <pre class=\"language-"
}

fn tpl_pre_str() -> (r: &'static str)
    ensures
        r@ == tpl_pre(),
{
    " !mt-0 !rounded-t-none !border-0\">\n                    <code class=\"language-"
}

pub fn tpl_gt_str() -> (r: &'static str)
    ensures
        r@ == tpl_gt(),
{
    "\">"
}

fn tpl_tail_str() -> (r: &'static str)
    ensures
        r@ == tpl_tail(),
{
    "</code>\n                </pre>\n            </div>"
}

/// What one recognized block becomes: a wrapper with a header naming
/// the language and offering a copy action, then the code re-escaped
/// inside fresh `<pre><code>` tags.
pub open spec fn rendered_block(lang: Seq<char>, code: Seq<char>) -> Seq<char> {
    tpl_head() + display_label_of(lang) + tpl_mid() + lang + tpl_pre() + lang + tpl_gt()
        + encode_text_spec(decoded_entities(code)) + tpl_tail()
}

/// The enhanced form of `s`: each recognized code block is rewritten,
/// scanning left to right, and everything else is copied unchanged.
pub open spec fn enhance_spec(s: Seq<char>) -> Seq<char>
    decreases s.len()
        via enhance_spec_decreases
{
    match parse_block(s) {
        Option::Some(bp) => {
            let pre_len = block_open().len() as int;
            let lang = s.subrange(pre_len, pre_len + bp.lang_len);
            let code = s.subrange(pre_len + bp.lang_len + 2, bp.close_at);
            rendered_block(lang, code) + enhance_spec(
                s.skip(bp.close_at + block_close().len() as int),
            )
        },
        Option::None => {
            if s.len() == 0 {
                Seq::empty()
            } else {
                seq![s[0]] + enhance_spec(s.drop_first())
            }
        },
    }
}

#[via_fn]
proof fn enhance_spec_decreases(s: Seq<char>) {
    if parse_block(s) is Some {
        lemma_parse_block_bounds(s);
    }
}


/// Rewrites every recognized code block in `content` for display,
/// scanning left to right; text outside blocks, and content with no
/// block at all, passes through unchanged.
pub fn enhance_code_blocks_for_prism(content: &str) -> (r: String)
    ensures
        r@ == enhance_spec(content@),
{
    let chars = str_to_chars(content);
    let n = chars.len();
    let pre_len = block_open_str().unicode_len();
    let close_len = block_close_str().unicode_len();
    let mut out: Vec<char> = Vec::new();
    let mut i: usize = 0;
    proof {
        assert(chars@.skip(0) =~= chars@);
    }
    while i < n
        invariant
            i <= n,
            n == chars@.len(),
            chars@ == content@,
            pre_len == block_open().len(),
            close_len == block_close().len(),
            enhance_spec(content@) == out@ + enhance_spec(chars@.skip(i as int)),
        decreases n - i,
    {
        let ghost suf = chars@.skip(i as int);
        match try_parse_at(&chars, i) {
            Some((le, q)) => {
                let ghost bp = parse_block(suf).unwrap();
                proof {
                    lemma_parse_block_bounds(suf);
                }
                let lang_start = i + pre_len;
                let mut lang_vec: Vec<char> = Vec::new();
                push_subrange(&mut lang_vec, &chars, lang_start, le);
                let lang_s = chars_to_string(&lang_vec);
                let disp = get_language_display_name(lang_s.as_str());
                let mut code_vec: Vec<char> = Vec::new();
                push_subrange(&mut code_vec, &chars, le + 2, q);
                let code_s = chars_to_string(&code_vec);
                let decoded = decode_entities(code_s.as_str());
                let encoded = encode_text(decoded.as_str());
                let ghost out0 = out@;
                push_str_chars(&mut out, tpl_head_str());
                push_str_chars(&mut out, disp);
                push_str_chars(&mut out, tpl_mid_str());
                push_str_chars(&mut out, lang_s.as_str());
                push_str_chars(&mut out, tpl_pre_str());
                push_str_chars(&mut out, lang_s.as_str());
                push_str_chars(&mut out, tpl_gt_str());
                push_str_chars(&mut out, encoded.as_str());
                push_str_chars(&mut out, tpl_tail_str());
                proof {
                    let pre_g = block_open().len() as int;
                    let lang_g = suf.subrange(pre_g, pre_g + bp.lang_len);
                    let code_g = suf.subrange(pre_g + bp.lang_len + 2, bp.close_at);
                    assert(lang_g =~= chars@.subrange(lang_start as int, le as int));
                    assert(code_g =~= chars@.subrange(le + 2, q as int));
                    assert(out@ =~= out0 + rendered_block(lang_g, code_g));
                    assert(suf.skip(bp.close_at + block_close().len() as int) =~= chars@.skip(
                        q + close_len,
                    ));
                    assert(enhance_spec(suf) == rendered_block(lang_g, code_g) + enhance_spec(
                        chars@.skip(q + close_len),
                    ));
                    assert(out0 + (rendered_block(lang_g, code_g) + enhance_spec(
                        chars@.skip(q + close_len),
                    )) =~= (out0 + rendered_block(lang_g, code_g)) + enhance_spec(
                        chars@.skip(q + close_len),
                    ));
                }
                i = q + close_len;
            },
            None => {
                proof {
                    assert(suf[0] == chars@[i as int]);
                    assert(suf.drop_first() =~= chars@.skip(i + 1));
                }
                out.push(chars[i]);
                i = i + 1;
            },
        }
    }
    proof {
        assert(chars@.skip(n as int) =~= Seq::<char>::empty());
    }
    chars_to_string(&out)
}

/// No suffix of `s` begins a recognizable code block.
pub open spec fn no_block_from(s: Seq<char>) -> bool {
    forall|k: int| 0 <= k <= s.len() ==> parse_block(#[trigger] s.skip(k)) is None
}

/// Text in which no code block is recognizable passes through the
/// enhancer unchanged.
pub proof fn lemma_enhance_no_block_identity(s: Seq<char>)
    requires
        no_block_from(s),
    ensures
        enhance_spec(s) == s,
    decreases s.len(),
{
    assert(s.skip(0) =~= s);
    assert(parse_block(s.skip(0)) is None);
    if s.len() == 0 {
        assert(enhance_spec(s) =~= s);
    } else {
        let rest = s.drop_first();
        assert forall|k: int| 0 <= k <= rest.len() implies parse_block(
            #[trigger] rest.skip(k),
        ) is None by {
            assert(rest.skip(k) =~= s.skip(k + 1));
            assert(parse_block(s.skip(k + 1)) is None);
        }
        lemma_enhance_no_block_identity(rest);
        assert(enhance_spec(s) =~= seq![s[0]] + rest);
        assert(seq![s[0]] + rest =~= s);
    }
}

/// Applying the enhancer twice adds nothing when its first pass left
/// no unenhanced block behind: no block is wrapped a second time.
pub proof fn lemma_enhance_idempotent(s: Seq<char>)
    requires
        no_block_from(enhance_spec(s)),
    ensures
        enhance_spec(enhance_spec(s)) == enhance_spec(s),
{
    lemma_enhance_no_block_identity(enhance_spec(s));
}

} // verus!
