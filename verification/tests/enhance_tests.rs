use mike_dev_blog::enhance::{enhance_code_blocks_for_prism, get_language_display_name};

fn expected_block(label: &str, lang: &str, code: &str) -> String {
    format!(
        r#"<div class="code-block-wrapper my-8 rounded-lg overflow-hidden shadow-lg border border-gray-200">
                <div class="code-block-header bg-gray-800 text-gray-300 px-4 py-3 text-sm font-medium flex items-center justify-between">
                    <span class="language-label font-semibold">{}</span>
                    <button class="copy-button text-gray-400 hover:text-white transition-colors p-1 rounded hover:bg-gray-700" 
                            onclick="copyCode(this)" title="Copy to clipboard">
                        <svg class="w-4 h-4" fill="none" stroke="currentColor" viewBox="0 0 24 24">
                            <path stroke-linecap="round" stroke-linejoin="round" stroke-width="2" 
                                  d="M8 16H6a2 2 0 01-2-2V6a2 2 0 012-2h8a2 2 0 012 2v2m-6 12h8a2 2 0 002-2v-8a2 2 0 00-2-2h-8a2 2 0 00-2 2v8a2 2 0 002 2z">
                            </path>
                        </svg>
                    </button>
                </div>
                <pre class="language-{} !mt-0 !rounded-t-none !border-0">
                    <code class="language-{}">{}</code>
                </pre>
            </div>"#,
        label, lang, lang, code
    )
}

#[test]
fn enhance_without_blocks_is_identity() {
    assert_eq!(
        enhance_code_blocks_for_prism("hello <b>world</b>"),
        "hello <b>world</b>"
    );
    assert_eq!(enhance_code_blocks_for_prism(""), "");
}

#[test]
fn enhance_rewrites_a_rust_block() {
    let input = "<pre><code class=\"language-rust\">let x = 1;</code></pre>";
    let expected = expected_block("Rust", "rust", "let x = 1;");
    assert_eq!(enhance_code_blocks_for_prism(input), expected);
}

#[test]
fn enhance_keeps_surrounding_text() {
    let input = "before <pre><code class=\"language-json\">{}</code></pre> after";
    let expected = format!("before {} after", expected_block("JSON", "json", "{}"));
    assert_eq!(enhance_code_blocks_for_prism(input), expected);
}

#[test]
fn enhance_reescapes_raw_code_characters() {
    let input = "<pre><code class=\"language-rust\">a < b && c > d</code></pre>";
    let expected = expected_block("Rust", "rust", "a &lt; b &amp;&amp; c &gt; d");
    assert_eq!(enhance_code_blocks_for_prism(input), expected);
}

#[test]
fn enhance_decodes_entities_before_reencoding() {
    // &quot; decodes to a plain quote, which the re-encoding leaves
    // alone: the block does not keep stale entities alive.
    let input = "<pre><code class=\"language-sql\">say &quot;hi&quot;</code></pre>";
    let expected = expected_block("SQL", "sql", "say \"hi\"");
    assert_eq!(enhance_code_blocks_for_prism(input), expected);
}

#[test]
fn enhance_unknown_language_shows_code_label() {
    let input = "<pre><code class=\"language-brainfuzz\">x</code></pre>";
    let expected = expected_block("Code", "brainfuzz", "x");
    assert_eq!(enhance_code_blocks_for_prism(input), expected);
}

#[test]
fn enhance_ignores_blocks_spanning_lines() {
    // The recognized shape sits on one line; a newline before the
    // closing tags leaves the text untouched.
    let input = "<pre><code class=\"language-rust\">let x = 1;\nlet y = 2;</code></pre>";
    assert_eq!(enhance_code_blocks_for_prism(input), input);
}

#[test]
fn enhance_twice_adds_nothing() {
    let input = "intro <pre><code class=\"language-python\">print(1)</code></pre> outro";
    let once = enhance_code_blocks_for_prism(input);
    let twice = enhance_code_blocks_for_prism(&once);
    assert_eq!(twice, once);
    // No nested duplicate headers appear.
    assert_eq!(once.matches("code-block-header").count(), 1);
    assert_eq!(twice.matches("code-block-header").count(), 1);
}

#[test]
fn display_names_match_the_table() {
    assert_eq!(get_language_display_name("rust"), "Rust");
    assert_eq!(get_language_display_name("python"), "Python");
    assert_eq!(get_language_display_name("javascript"), "JavaScript");
    assert_eq!(get_language_display_name("typescript"), "TypeScript");
    assert_eq!(get_language_display_name("json"), "JSON");
    assert_eq!(get_language_display_name("yaml"), "YAML");
    assert_eq!(get_language_display_name("toml"), "TOML");
    assert_eq!(get_language_display_name("bash"), "Shell");
    assert_eq!(get_language_display_name("shell"), "Shell");
    assert_eq!(get_language_display_name("html"), "HTML");
    assert_eq!(get_language_display_name("css"), "CSS");
    assert_eq!(get_language_display_name("sql"), "SQL");
    assert_eq!(get_language_display_name("cobol"), "Code");
}
