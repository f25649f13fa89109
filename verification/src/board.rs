//! The read-only master board as an offline HTML page. Record text is
//! untrusted: every character HTML gives meaning to is escaped before it is
//! placed in the page.

use vstd::prelude::*;

use crate::text::{chars_of, push_str, string_of};

verus! {

/// The escape of one character.
pub open spec fn escape_char(c: char) -> Seq<char> {
    if c == '&' {
        "&amp;"@
    } else if c == '<' {
        "&lt;"@
    } else if c == '>' {
        "&gt;"@
    } else if c == '"' {
        "&quot;"@
    } else if c == '\'' {
        "&#39;"@
    } else {
        seq![c]
    }
}

/// `s` with each of `& < > " '` replaced by its entity.
pub open spec fn spec_escape(s: Seq<char>) -> Seq<char>
    decreases s.len(),
{
    if s.len() == 0 {
        seq![]
    } else {
        spec_escape(s.drop_last()) + escape_char(s.last())
    }
}

/// Text made safe to place in an HTML page.
pub fn escape(text: &str) -> (r: String)
    ensures
        r@ == spec_escape(text@),
{
    let v = chars_of(text);
    let mut out: Vec<char> = Vec::new();
    let mut i: usize = 0;
    proof {
        reveal_strlit("&amp;");
        reveal_strlit("&lt;");
        reveal_strlit("&gt;");
        reveal_strlit("&quot;");
        reveal_strlit("&#39;");
    }
    while i < v.len()
        invariant
            i <= v.len(),
            v@ == text@,
            out@ == spec_escape(v@.take(i as int)),
        decreases v.len() - i,
    {
        let c = v[i];
        proof {
            assert(v@.take(i + 1).drop_last() =~= v@.take(i as int));
            assert(v@.take(i + 1).last() == c);
        }
        if c == '&' {
            push_str(&mut out, "&amp;");
        } else if c == '<' {
            push_str(&mut out, "&lt;");
        } else if c == '>' {
            push_str(&mut out, "&gt;");
        } else if c == '"' {
            push_str(&mut out, "&quot;");
        } else if c == '\'' {
            push_str(&mut out, "&#39;");
        } else {
            out.push(c);
        }
        i = i + 1;
    }
    proof {
        assert(v@.take(v.len() as int) =~= v@);
    }
    string_of(&out)
}

/// Escaped text holds none of `< > " '`: record text cannot open a tag or
/// leave an attribute.
pub proof fn lemma_escaped_text_is_inert(s: Seq<char>)
    ensures
        !spec_escape(s).contains('<'),
        !spec_escape(s).contains('>'),
        !spec_escape(s).contains('"'),
        !spec_escape(s).contains('\''),
    decreases s.len(),
{
    reveal_strlit("&amp;");
    reveal_strlit("&lt;");
    reveal_strlit("&gt;");
    reveal_strlit("&quot;");
    reveal_strlit("&#39;");
    if s.len() > 0 {
        lemma_escaped_text_is_inert(s.drop_last());
        let a = spec_escape(s.drop_last());
        let b = escape_char(s.last());
        assert forall|c: char| (a + b).contains(c) implies a.contains(c) || b.contains(c) by {
            let i = choose|i: int| 0 <= i < (a + b).len() && (a + b)[i] == c;
            if i < a.len() {
                assert(a[i] == c);
            } else {
                assert(b[i - a.len()] == c);
            }
        }
    }
}

pub open spec fn page_head() -> Seq<char> {
    "<!doctype html><html lang=\"en\"><meta charset=\"utf-8\"><meta http-equiv=\"Content-Security-Policy\" content=\"default-src 'none'; base-uri 'none'; form-action 'none'\"><meta name=\"viewport\" content=\"width=device-width, initial-scale=1\"><title>OpenWarrant board</title><body><h1>OpenWarrant board</h1><p>Offline, read-only snapshot. No signing or network actions.</p><pre>"@
}

/// The page: the rendered board and the diagnostics, each escaped, in a
/// document that loads nothing and submits nothing.
pub open spec fn spec_html(board_text: Seq<char>, diagnostics_text: Seq<char>) -> Seq<char> {
    page_head() + spec_escape(board_text) + "</pre><h2>Diagnostics</h2><pre>"@ + spec_escape(
        diagnostics_text,
    ) + "</pre></body></html>\n"@
}

/// The board as an HTML page, from its rendered text and the report's
/// verdict line with its diagnostics.
pub fn html(board_text: &str, diagnostics_text: &str) -> (r: String)
    ensures
        r@ == spec_html(board_text@, diagnostics_text@),
{
    let mut out = chars_of(
        "<!doctype html><html lang=\"en\"><meta charset=\"utf-8\"><meta http-equiv=\"Content-Security-Policy\" content=\"default-src 'none'; base-uri 'none'; form-action 'none'\"><meta name=\"viewport\" content=\"width=device-width, initial-scale=1\"><title>OpenWarrant board</title><body><h1>OpenWarrant board</h1><p>Offline, read-only snapshot. No signing or network actions.</p><pre>",
    );
    push_str(&mut out, escape(board_text).as_str());
    push_str(&mut out, "</pre><h2>Diagnostics</h2><pre>");
    push_str(&mut out, escape(diagnostics_text).as_str());
    push_str(&mut out, "</pre></body></html>\n");
    string_of(&out)
}

} // verus!
