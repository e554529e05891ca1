use mike_dev_blog::sanitize::{process_blog_content, sanitize_html};

#[test]
fn script_tags_are_removed_entirely() {
    let out = sanitize_html("<script>alert('x')</script><p>hi</p>");
    assert_eq!(out, "<p>hi</p>");
}

#[test]
fn unknown_tags_are_stripped_but_text_kept() {
    let out = sanitize_html("<blink>hello</blink> world");
    assert_eq!(out, "hello world");
}

#[test]
fn chrome_tags_and_attributes_survive() {
    let input = "<div class=\"wrap\"><button onclick=\"copyCode(this)\">copy</button></div>";
    let out = sanitize_html(input);
    assert_eq!(out, input);
}

#[test]
fn links_gain_the_managed_rel_attribute() {
    let out = sanitize_html("<a href=\"https://example.invalid/\">l</a>");
    assert_eq!(
        out,
        "<a href=\"https://example.invalid/\" rel=\"noopener noreferrer\">l</a>"
    );
}

#[test]
fn disallowed_attributes_are_dropped() {
    let out = sanitize_html("<p style=\"color:red\" class=\"x\">t</p>");
    assert_eq!(out, "<p class=\"x\">t</p>");
}

#[test]
fn namespaced_svg_attributes_with_allowed_locals_survive() {
    // Inside SVG content the parser gives these attributes their
    // namespaced spelling; filtering goes by the local name.
    let out = sanitize_html("<svg xml:lang=\"en\">x</svg>");
    assert_eq!(out, "<svg xml:lang=\"en\">x</svg>");
    let out = sanitize_html("<svg xlink:title=\"t\">x</svg>");
    assert_eq!(out, "<svg xlink:title=\"t\">x</svg>");
}

#[test]
fn event_handlers_on_disallowed_shapes_do_not_leak_scripts() {
    let out = sanitize_html("<img src=\"x\" onerror=\"alert(1)\">ok");
    assert!(!out.contains("onerror"));
    assert!(out.contains("ok"));
}

#[test]
fn stray_angle_brackets_are_escaped_not_kept() {
    let out = sanitize_html("a < b");
    assert_eq!(out, "a &lt; b");
}

#[test]
fn malformed_html_degrades_without_panicking() {
    let out = sanitize_html("<p><em>unclosed <div <div <<<");
    assert!(!out.contains("<div"));
}

#[test]
fn pipeline_enhances_then_sanitizes() {
    let input = "<pre><code class=\"language-rust\">let x = 1;</code></pre>";
    let out = process_blog_content(input);
    assert!(out.contains("code-block-wrapper"));
    assert!(out.contains("language-label"));
    assert!(out.contains("Rust"));
    assert!(out.contains("onclick=\"copyCode(this)\""));
    assert!(out.contains("let x = 1;"));
}

#[test]
fn pipeline_never_lets_scripts_through() {
    let input = "<script>evil()</script><pre><code class=\"language-js\">x</code></pre>";
    let out = process_blog_content(input);
    assert!(!out.contains("<script"));
    assert!(!out.contains("evil()"));
}
