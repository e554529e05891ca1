use mike_dev_blog::markdown::convert_markdown_to_html;

#[test]
fn fenced_block_becomes_code_html() {
    let out = convert_markdown_to_html("```rust\nlet x = 1;\n```");
    assert_eq!(
        out,
        "<p><pre><code class=\"language-rust\">let x = 1;</code></pre></p>"
    );
}

#[test]
fn fenced_block_escapes_code_text() {
    let out = convert_markdown_to_html("```rust\na < b && c > d\n```");
    assert_eq!(
        out,
        "<p><pre><code class=\"language-rust\">a &lt; b &amp;&amp; c &gt; d</code></pre></p>"
    );
}

#[test]
fn fenced_block_keeps_inner_newlines() {
    let out = convert_markdown_to_html("```python\na = 1\nb = 2\n```");
    assert_eq!(
        out,
        "<p><pre><code class=\"language-python\">a = 1\nb = 2</code></pre></p>"
    );
}

#[test]
fn blank_lines_become_paragraph_breaks() {
    let out = convert_markdown_to_html("first\n\nsecond");
    assert_eq!(out, "<p>first</p><p>second</p>");
}

#[test]
fn bold_markers_substitute_literally() {
    // The substitutions are literal and order-sensitive: every `**`
    // becomes an opening tag, with no attempt at balanced pairs.
    let out = convert_markdown_to_html("**bold**");
    assert_eq!(out, "<p><strong>bold<strong></p>");
}

#[test]
fn italic_markers_substitute_literally() {
    let out = convert_markdown_to_html("*it*");
    assert_eq!(out, "<p><em>it<em></p>");
}

#[test]
fn text_without_fences_is_wrapped_in_a_paragraph() {
    let out = convert_markdown_to_html("just text");
    assert_eq!(out, "<p>just text</p>");
}

#[test]
fn empty_input_gives_no_empty_paragraph() {
    let out = convert_markdown_to_html("");
    assert_eq!(out, "");
}

#[test]
fn unterminated_fence_passes_through() {
    let out = convert_markdown_to_html("```rust\nlet x = 1;");
    assert_eq!(out, "<p>```rust\nlet x = 1;</p>");
}
