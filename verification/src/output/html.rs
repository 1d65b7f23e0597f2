//! HTML output: an SVG chart wrapped in a self-contained page with hover
//! tooltips and no external resources.

use vstd::prelude::*;
use crate::text::{chars_of, append_str, push_chars, push_char};

verus! {

/// Everything before the page title.
pub const PAGE_HEAD: &'static str = r#"<!DOCTYPE html>
<html lang="en">
<head>
<meta charset="utf-8">
<meta name="viewport" content="width=device-width, initial-scale=1">
<title>"#;

/// From the end of the title to the page background colour.
pub const PAGE_STYLE: &'static str = r#"</title>
<style>
body {
  margin: 0;
  background: "#;

/// From the background colour to the embedded SVG.
pub const PAGE_BODY: &'static str = r#";
  display: flex;
  justify-content: center;
  align-items: center;
  min-height: 100vh;
  font-family: -apple-system, BlinkMacSystemFont, 'Segoe UI', Roboto, sans-serif;
}
.chart-container {
  position: relative;
}
.tooltip {
  position: absolute;
  display: none;
  background: rgba(0, 0, 0, 0.85);
  color: #fff;
  padding: 4px 8px;
  border-radius: 4px;
  font-size: 12px;
  pointer-events: none;
  white-space: nowrap;
  z-index: 10;
}
svg {
  max-width: 100%;
  height: auto;
}
</style>
</head>
<body>
<div class="chart-container">
"#;

/// From the SVG to the background colour that tooltips skip.
pub const PAGE_SCRIPT: &'static str = r#"
<div class="tooltip" id="tooltip"></div>
</div>
<script>
(function() {
  var tooltip = document.getElementById('tooltip');
  var container = document.querySelector('.chart-container');
  var svg = container.querySelector('svg');
  if (!svg) return;

  // Find all tspan elements with text content (potential data labels)
  var tspans = svg.querySelectorAll('tspan');

  function showTooltip(evt, text) {
    tooltip.textContent = text;
    tooltip.style.display = 'block';
    var rect = container.getBoundingClientRect();
    tooltip.style.left = (evt.clientX - rect.left + 10) + 'px';
    tooltip.style.top = (evt.clientY - rect.top - 30) + 'px';
  }

  function hideTooltip() {
    tooltip.style.display = 'none';
  }

  // Attach hover listeners to tspan elements that contain visible text
  tspans.forEach(function(el) {
    var text = el.textContent.trim();
    if (text.length > 0 && text.length < 40) {
      el.style.cursor = 'pointer';
      el.addEventListener('mouseenter', function(e) {
        showTooltip(e, text);
      });
      el.addEventListener('mousemove', function(e) {
        showTooltip(e, text);
      });
      el.addEventListener('mouseleave', hideTooltip);
    }
  });

  // Also handle rect elements with non-background fills (chart bars)
  var rects = svg.querySelectorAll('rect');
  rects.forEach(function(el) {
    var fill = el.getAttribute('fill');
    if (fill && fill !== '"#;

/// The rest of the page.
pub const PAGE_END: &'static str = r#"' && el.getAttribute('width') !== '100%') {
      el.style.cursor = 'pointer';
      el.addEventListener('mouseenter', function(e) {
        var w = parseFloat(el.getAttribute('width')) || 0;
        var h = parseFloat(el.getAttribute('height')) || 0;
        showTooltip(e, Math.round(w) + '\u{00d7}' + Math.round(h));
      });
      el.addEventListener('mousemove', function(e) {
        var w = parseFloat(el.getAttribute('width')) || 0;
        var h = parseFloat(el.getAttribute('height')) || 0;
        showTooltip(e, Math.round(w) + '\u{00d7}' + Math.round(h));
      });
      el.addEventListener('mouseleave', hideTooltip);
    }
  });
})();
</script>
</body>
</html>"#;

/// The HTML form of one character: `&`, `<`, `>` and `"` become entities.
pub open spec fn escape_char(c: char) -> Seq<char> {
    if c == '&' {
        "&amp;"@
    } else if c == '<' {
        "&lt;"@
    } else if c == '>' {
        "&gt;"@
    } else if c == '"' {
        "&quot;"@
    } else {
        seq![c]
    }
}

/// `s` with markup characters replaced by entities.
pub open spec fn escape_spec(s: Seq<char>) -> Seq<char>
    decreases s.len(),
{
    if s.len() == 0 {
        Seq::empty()
    } else {
        escape_spec(s.drop_last()) + escape_char(s.last())
    }
}

/// Escapes HTML special characters in text content.
pub fn html_escape(s: &str) -> (r: String)
    ensures r@ == escape_spec(s@),
{
    let cs = chars_of(s);
    let mut out = String::new();
    let mut i: usize = 0;
    while i < cs.len()
        invariant
            i <= cs@.len(),
            cs@ == s@,
            out@ == escape_spec(s@.take(i as int)),
        decreases cs@.len() - i,
    {
        let c = cs[i];
        assert(s@.take(i + 1).drop_last() =~= s@.take(i as int));
        assert(s@.take(i + 1).last() == c);
        if c == '&' {
            append_str(&mut out, "&amp;");
        } else if c == '<' {
            append_str(&mut out, "&lt;");
        } else if c == '>' {
            append_str(&mut out, "&gt;");
        } else if c == '"' {
            append_str(&mut out, "&quot;");
        } else {
            push_char(&mut out, c);
            assert(out@ =~= escape_spec(s@.take(i as int)) + seq![c]);
        }
        i = i + 1;
    }
    assert(s@.take(i as int) =~= s@);
    out
}

/// The page for an SVG chart, its title and background colour.
pub open spec fn html_page(svg: Seq<char>, title: Seq<char>, bg_color: Seq<char>) -> Seq<char> {
    PAGE_HEAD@ + escape_spec(title) + PAGE_STYLE@ + bg_color + PAGE_BODY@ + svg + PAGE_SCRIPT@
        + bg_color + PAGE_END@
}

/// Wraps an SVG string in a complete, self-contained HTML5 document: viewport
/// meta, inline CSS, the SVG inline, and an inline script for hover tooltips.
pub fn wrap_svg_in_html(svg: &str, title: &str, bg_color: &str) -> (r: String)
    ensures r@ == html_page(svg@, title@, bg_color@),
{
    let escaped_title = html_escape(title);
    let mut out = String::new();
    append_str(&mut out, PAGE_HEAD);
    append_str(&mut out, escaped_title.as_str());
    append_str(&mut out, PAGE_STYLE);
    append_str(&mut out, bg_color);
    append_str(&mut out, PAGE_BODY);
    append_str(&mut out, svg);
    append_str(&mut out, PAGE_SCRIPT);
    append_str(&mut out, bg_color);
    append_str(&mut out, PAGE_END);
    assert(out@ =~= html_page(svg@, title@, bg_color@));
    out
}


/// Escaped text holds no markup characters: no `<`, `>` or `"` survives.
pub proof fn law_escaped_text_has_no_markup(s: Seq<char>)
    ensures
        forall|i: int| 0 <= i < escape_spec(s).len() ==> {
            let c = #[trigger] escape_spec(s)[i];
            c != '<' && c != '>' && c != '"'
        },
    decreases s.len(),
{
    reveal_strlit("&amp;");
    reveal_strlit("&lt;");
    reveal_strlit("&gt;");
    reveal_strlit("&quot;");
    if s.len() > 0 {
        law_escaped_text_has_no_markup(s.drop_last());
        let p = escape_spec(s.drop_last());
        let e = escape_char(s.last());
        assert forall|i: int| 0 <= i < escape_spec(s).len() implies {
            let c = #[trigger] escape_spec(s)[i];
            c != '<' && c != '>' && c != '"'
        } by {
            if i < p.len() {
                assert(escape_spec(s)[i] == p[i]);
            } else {
                assert(escape_spec(s)[i] == e[i - p.len()]);
            }
        }
    }
}

} // verus!
