use openwarrant::board::{escape, html};

#[test]
fn untrusted_record_text_cannot_become_html() {
    let escaped = escape("<script src=\"https://example.invalid\">'&</script>");
    assert!(!escaped.contains('<'));
    assert!(!escaped.contains('>'));
    assert!(!escaped.contains('\''));
    assert!(escaped.contains("&lt;script"));
    assert!(escaped.contains("&quot;"));
}

#[test]
fn the_page_escapes_both_texts() {
    let page = html("a<b", "NOT READY\n[\"x&y\"]");
    assert!(page.contains("<pre>a&lt;b</pre>"));
    assert!(page.contains("<pre>NOT READY\n[&quot;x&amp;y&quot;]</pre>"));
    assert!(page.ends_with("</pre></body></html>\n"));
}
