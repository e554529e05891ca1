//! The HTML sanitizer: the stored content and the enhancer's output
//! pass through ammonia's whitelist-based cleaner before display. The
//! whitelist is ammonia's default tag set plus the structural tags the
//! code-block chrome needs, and the chrome's attributes are allowed
//! generically. The contract states the safety property the pipeline
//! depends on: no tag outside the allow-list survives into the output,
//! and malformed input degrades to a cleaned string, never a panic.

use vstd::prelude::*;

use crate::enhance::{enhance_code_blocks_for_prism, enhance_spec};
verus! {

/// The tags ammonia's default whitelist keeps.
pub open spec fn default_tag(name: Seq<char>) -> bool {
    ||| name == "a"@
    ||| name == "abbr"@
    ||| name == "acronym"@
    ||| name == "area"@
    ||| name == "article"@
    ||| name == "aside"@
    ||| name == "b"@
    ||| name == "bdi"@
    ||| name == "bdo"@
    ||| name == "blockquote"@
    ||| name == "br"@
    ||| name == "caption"@
    ||| name == "center"@
    ||| name == "cite"@
    ||| name == "code"@
    ||| name == "col"@
    ||| name == "colgroup"@
    ||| name == "data"@
    ||| name == "dd"@
    ||| name == "del"@
    ||| name == "details"@
    ||| name == "dfn"@
    ||| name == "div"@
    ||| name == "dl"@
    ||| name == "dt"@
    ||| name == "em"@
    ||| name == "figcaption"@
    ||| name == "figure"@
    ||| name == "footer"@
    ||| name == "h1"@
    ||| name == "h2"@
    ||| name == "h3"@
    ||| name == "h4"@
    ||| name == "h5"@
    ||| name == "h6"@
    ||| name == "header"@
    ||| name == "hgroup"@
    ||| name == "hr"@
    ||| name == "i"@
    ||| name == "img"@
    ||| name == "ins"@
    ||| name == "kbd"@
    ||| name == "li"@
    ||| name == "map"@
    ||| name == "mark"@
    ||| name == "nav"@
    ||| name == "ol"@
    ||| name == "p"@
    ||| name == "pre"@
    ||| name == "q"@
    ||| name == "rp"@
    ||| name == "rt"@
    ||| name == "rtc"@
    ||| name == "ruby"@
    ||| name == "s"@
    ||| name == "samp"@
    ||| name == "small"@
    ||| name == "span"@
    ||| name == "strike"@
    ||| name == "strong"@
    ||| name == "sub"@
    ||| name == "summary"@
    ||| name == "sup"@
    ||| name == "table"@
    ||| name == "tbody"@
    ||| name == "td"@
    ||| name == "th"@
    ||| name == "thead"@
    ||| name == "time"@
    ||| name == "tr"@
    ||| name == "tt"@
    ||| name == "u"@
    ||| name == "ul"@
    ||| name == "var"@
    ||| name == "wbr"@
}

/// The extra structural tags the code-block chrome introduces.
pub open spec fn extra_tag(name: Seq<char>) -> bool {
    ||| name == "div"@
    ||| name == "span"@
    ||| name == "button"@
    ||| name == "svg"@
    ||| name == "path"@
}

/// Everything `sanitize_html` may leave in its output.
pub open spec fn allowed_tag(name: Seq<char>) -> bool {
    default_tag(name) || extra_tag(name)
}

/// The extra tags handed to the sanitizer, as character sequences.
pub open spec fn chrome_tags() -> Seq<Seq<char>> {
    seq!["div"@, "span"@, "button"@, "svg"@, "path"@]
}

/// The generic attributes the chrome needs beyond ammonia's defaults.
pub open spec fn chrome_attrs() -> Seq<Seq<char>> {
    seq![
        "class"@,
        "onclick"@,
        "stroke"@,
        "fill"@,
        "viewBox"@,
        "stroke-linecap"@,
        "stroke-linejoin"@,
        "stroke-width"@,
    ]
}

/// Characters a serialized tag name consists of.
pub open spec fn is_tag_name_char(c: char) -> bool {
    let u = c as u32;
    (0x41 <= u && u <= 0x5A) || (0x61 <= u && u <= 0x7A) || (0x30 <= u && u <= 0x39)
}

/// The maximal tag-name run starting at `i`.
pub open spec fn tag_name_at(s: Seq<char>, i: int) -> Seq<char>
    decreases s.len() - i when i <= s.len()
{
    if i < 0 || i >= s.len() || !is_tag_name_char(s[i]) {
        Seq::empty()
    } else {
        seq![s[i]] + tag_name_at(s, i + 1)
    }
}

/// Where the scan through serialized HTML stands: ordinary text, the
/// inside of a tag, or a double-quoted attribute value.
pub enum ScanMode {
    Text,
    Tag,
    Quoted,
}

/// Walks serialized HTML from `i` in `mode` and demands that every
/// tag opened in text position carries an allowed name. Attribute
/// values are skipped, since a `<` may legitimately sit inside them.
pub open spec fn tags_ok_from(
    s: Seq<char>,
    i: int,
    mode: ScanMode,
    allowed: spec_fn(Seq<char>) -> bool,
) -> bool
    decreases s.len() - i when i <= s.len()
{
    if i < 0 || i >= s.len() {
        true
    } else {
        match mode {
            ScanMode::Text => {
                if s[i] == '<' {
                    let j = if i + 1 < s.len() && s[i + 1] == '/' {
                        i + 2
                    } else {
                        i + 1
                    };
                    allowed(tag_name_at(s, j)) && tags_ok_from(s, i + 1, ScanMode::Tag, allowed)
                } else {
                    tags_ok_from(s, i + 1, ScanMode::Text, allowed)
                }
            },
            ScanMode::Tag => {
                if s[i] == '>' {
                    tags_ok_from(s, i + 1, ScanMode::Text, allowed)
                } else if s[i] == '"' {
                    tags_ok_from(s, i + 1, ScanMode::Quoted, allowed)
                } else {
                    tags_ok_from(s, i + 1, ScanMode::Tag, allowed)
                }
            },
            ScanMode::Quoted => {
                if s[i] == '"' {
                    tags_ok_from(s, i + 1, ScanMode::Tag, allowed)
                } else {
                    tags_ok_from(s, i + 1, ScanMode::Quoted, allowed)
                }
            },
        }
    }
}

/// Every tag name in serialized HTML `s` satisfies `allowed`.
pub open spec fn tags_ok(s: Seq<char>, allowed: spec_fn(Seq<char>) -> bool) -> bool {
    tags_ok_from(s, 0, ScanMode::Text, allowed)
}

/// Characters an attribute-name run consists of in serialized HTML:
/// anything up to the delimiters the serializer writes around names.
pub open spec fn is_attr_name_char(c: char) -> bool {
    c != ' ' && c != '=' && c != '>' && c != '"'
}

/// The maximal attribute-name run starting at `i`.
pub open spec fn attr_name_at(s: Seq<char>, i: int) -> Seq<char>
    decreases s.len() - i when i <= s.len()
{
    if i < 0 || i >= s.len() || !is_attr_name_char(s[i]) {
        Seq::empty()
    } else {
        seq![s[i]] + attr_name_at(s, i + 1)
    }
}

/// Walks serialized HTML from `i` in `mode` and demands that every
/// attribute name — the run the serializer writes after a space inside
/// a tag, outside quoted values — satisfies `allowed`.
pub open spec fn attrs_ok_from(
    s: Seq<char>,
    i: int,
    mode: ScanMode,
    allowed: spec_fn(Seq<char>) -> bool,
) -> bool
    decreases s.len() - i when i <= s.len()
{
    if i < 0 || i >= s.len() {
        true
    } else {
        match mode {
            ScanMode::Text => {
                if s[i] == '<' {
                    attrs_ok_from(s, i + 1, ScanMode::Tag, allowed)
                } else {
                    attrs_ok_from(s, i + 1, ScanMode::Text, allowed)
                }
            },
            ScanMode::Tag => {
                if s[i] == '>' {
                    attrs_ok_from(s, i + 1, ScanMode::Text, allowed)
                } else if s[i] == '"' {
                    attrs_ok_from(s, i + 1, ScanMode::Quoted, allowed)
                } else if s[i] == ' ' {
                    allowed(attr_name_at(s, i + 1)) && attrs_ok_from(
                        s,
                        i + 1,
                        ScanMode::Tag,
                        allowed,
                    )
                } else {
                    attrs_ok_from(s, i + 1, ScanMode::Tag, allowed)
                }
            },
            ScanMode::Quoted => {
                if s[i] == '"' {
                    attrs_ok_from(s, i + 1, ScanMode::Tag, allowed)
                } else {
                    attrs_ok_from(s, i + 1, ScanMode::Quoted, allowed)
                }
            },
        }
    }
}

/// Every attribute name in serialized HTML `s` satisfies `allowed`.
pub open spec fn attrs_ok(s: Seq<char>, allowed: spec_fn(Seq<char>) -> bool) -> bool {
    attrs_ok_from(s, 0, ScanMode::Text, allowed)
}

/// The attribute names ammonia's default whitelists keep, as one set:
/// the generic lang/title, every per-tag attribute, the `rel` it sets
/// on links itself, and the three namespaced spellings the HTML
/// parser's foreign-content adjustment can give those same names
/// inside SVG content.
pub open spec fn default_attr(name: Seq<char>) -> bool {
    ||| name == "lang"@
    ||| name == "title"@
    ||| name == "href"@
    ||| name == "hreflang"@
    ||| name == "dir"@
    ||| name == "cite"@
    ||| name == "align"@
    ||| name == "char"@
    ||| name == "charoff"@
    ||| name == "span"@
    ||| name == "datetime"@
    ||| name == "size"@
    ||| name == "width"@
    ||| name == "alt"@
    ||| name == "height"@
    ||| name == "src"@
    ||| name == "start"@
    ||| name == "summary"@
    ||| name == "colspan"@
    ||| name == "headers"@
    ||| name == "rowspan"@
    ||| name == "scope"@
    ||| name == "rel"@
    ||| name == "xml:lang"@
    ||| name == "xlink:href"@
    ||| name == "xlink:title"@
}

/// The extra generic attributes the code-block chrome needs.
pub open spec fn extra_attr(name: Seq<char>) -> bool {
    ||| name == "class"@
    ||| name == "onclick"@
    ||| name == "stroke"@
    ||| name == "fill"@
    ||| name == "viewBox"@
    ||| name == "stroke-linecap"@
    ||| name == "stroke-linejoin"@
    ||| name == "stroke-width"@
}

/// Every attribute name `sanitize_html` may leave in its output.
pub open spec fn allowed_attr(name: Seq<char>) -> bool {
    default_attr(name) || extra_attr(name)
}

/// The tag predicate the sanitizer's contracts speak of.
pub open spec fn allowed_tag_pred() -> spec_fn(Seq<char>) -> bool {
    |name: Seq<char>| allowed_tag(name)
}

/// The attribute predicate the sanitizer's contracts speak of.
pub open spec fn allowed_attr_pred() -> spec_fn(Seq<char>) -> bool {
    |name: Seq<char>| allowed_attr(name)
}

/// What ammonia's cleaner returns for the given input and whitelist
/// additions: a function of those alone.
pub uninterp spec fn sanitized(
    html: Seq<char>,
    extra_tags: Seq<Seq<char>>,
    extra_attrs: Seq<Seq<char>>,
) -> Seq<char>;

/// Relies on ammonia's `Builder::clean`: it parses with html5ever,
/// drops every element not on the whitelist (default tags plus the
/// chrome tags) while keeping its text, and serializes with text
/// escaped and attribute values double-quoted — so in the output every
/// tag position carries a whitelisted name and every attribute name is
/// on the attribute whitelist. Attributes are filtered by local name,
/// so inside SVG content the parser's foreign-content adjustment can
/// keep `xml:lang`, `xlink:href` and `xlink:title`, whose prefixed
/// spellings the whitelist therefore includes. The contract is stated only for the
/// chrome configuration, which the `requires` pins: other additions
/// could trip ammonia's configuration asserts (a tag it strips with
/// content, or an attribute colliding with the `rel` it manages), or
/// whitelist a raw-text element whose children the serializer leaves
/// unescaped. With this configuration it never panics, and its result
/// depends only on the input.
#[verifier::external_body]
fn ammonia_clean(html: &str, extra_tags: &Vec<String>, extra_attrs: &Vec<String>) -> (r: String)
    requires
        extra_tags@.map_values(|t: String| t@) == chrome_tags(),
        extra_attrs@.map_values(|t: String| t@) == chrome_attrs(),
    ensures
        r@ == sanitized(html@, chrome_tags(), chrome_attrs()),
        tags_ok(r@, allowed_tag_pred()),
        attrs_ok(r@, allowed_attr_pred()),
{
    let tags: Vec<&str> = extra_tags.iter().map(|t| t.as_str()).collect();
    let attrs: Vec<&str> = extra_attrs.iter().map(|t| t.as_str()).collect();
    ammonia::Builder::default().add_tags(tags).add_generic_attributes(attrs).clean(
        html,
    ).to_string()
}

/// Sanitizes untrusted HTML: only the allow-listed tags survive, and
/// only allow-listed attribute names remain on them, the chrome's
/// attributes being allowed generically; any other tag is stripped but
/// its text kept. Malformed input degrades to a cleaned string — this
/// function cannot fail.
pub fn sanitize_html(html: &str) -> (r: String)
    ensures
        r@ == sanitized(html@, chrome_tags(), chrome_attrs()),
        tags_ok(r@, allowed_tag_pred()),
        attrs_ok(r@, allowed_attr_pred()),
{
    let mut tags: Vec<String> = Vec::new();
    tags.push(String::from_str("div"));
    tags.push(String::from_str("span"));
    tags.push(String::from_str("button"));
    tags.push(String::from_str("svg"));
    tags.push(String::from_str("path"));
    let mut attrs: Vec<String> = Vec::new();
    attrs.push(String::from_str("class"));
    attrs.push(String::from_str("onclick"));
    attrs.push(String::from_str("stroke"));
    attrs.push(String::from_str("fill"));
    attrs.push(String::from_str("viewBox"));
    attrs.push(String::from_str("stroke-linecap"));
    attrs.push(String::from_str("stroke-linejoin"));
    attrs.push(String::from_str("stroke-width"));
    proof {
        assert(tags@.map_values(|t: String| t@) =~= chrome_tags());
        assert(attrs@.map_values(|t: String| t@) =~= chrome_attrs());
    }
    ammonia_clean(html, &tags, &attrs)
}

/// The full display pipeline for stored blog content: enhance the code
/// blocks first (the sanitizer's allow-list depends on the structure
/// they introduce), then sanitize.
pub fn process_blog_content(content: &str) -> (r: String)
    ensures
        r@ == sanitized(enhance_spec(content@), chrome_tags(), chrome_attrs()),
        tags_ok(r@, allowed_tag_pred()),
        attrs_ok(r@, allowed_attr_pred()),
{
    let enhanced = enhance_code_blocks_for_prism(content);
    sanitize_html(enhanced.as_str())
}

} // verus!
