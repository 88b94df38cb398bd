//! Fixed text of the exported HTML timeline page.

use vstd::prelude::*;

verus! {

/// Start of a timeline item, up to its search text.
pub const ITEM_OPEN: &'static str = r##"<div class="item" data-search=""##;

/// After the search text, up to the screenshot number.
pub const ITEM_AFTER_SEARCH: &'static str = r##"">
                <div class="marker"></div>
                <div class="card">
                    <div class="meta">
                        <span class="id">Screenshot #"##;

/// After the number, up to the timestamp.
pub const ITEM_AFTER_ID: &'static str = r##"</span>
                        <span class="ts">"##;

/// After the timestamp, up to the width.
pub const ITEM_AFTER_TS: &'static str = r##"</span>
                        <span class="dim">"##;

/// Between width and height.
pub const ITEM_BETWEEN_DIMS: &'static str = r##"x"##;

/// After the height, up to the link target.
pub const ITEM_AFTER_DIMS: &'static str = r##"</span>
                    </div>
                    <a class="thumb" href=""##;

/// After the link target, up to the image source.
pub const ITEM_AFTER_HREF: &'static str = r##"" target="_blank" title="In neuem Tab oeffnen">
                        <img src=""##;

/// After the image source, up to the alternative text number.
pub const ITEM_AFTER_SRC: &'static str = r##"" alt="Screenshot #"##;

/// After the alternative text number, up to the OCR block.
pub const ITEM_AFTER_ALT: &'static str = r##"" loading="lazy">
                    </a>
                    <div class="ocr">"##;

/// End of a timeline item.
pub const ITEM_CLOSE: &'static str = r##"</div>
                </div>
            </div>"##;

/// Start of the timeline page, up to the count in its title.
pub const PAGE_OPEN: &'static str = r##"<!DOCTYPE html>
<html lang="de">
<head>
<meta charset="UTF-8">
<meta name="viewport" content="width=device-width, initial-scale=1.0">
<title>Recall Timeline ("##;

/// After the title count: styles and header, up to the count shown.
pub const PAGE_AFTER_TITLE_COUNT: &'static str = r##" Screenshots)</title>
<style>
  * { box-sizing: border-box; margin: 0; padding: 0; }
  body {
    font-family: system-ui, -apple-system, "Segoe UI", sans-serif;
    background: #0f1115;
    color: #e6e8eb;
    padding: 24px 16px 64px;
  }
  header {
    max-width: 1000px;
    margin: 0 auto 32px;
    text-align: center;
  }
  header h1 { font-size: 1.6rem; font-weight: 600; margin-bottom: 8px; }
  header p { color: #8b919c; font-size: 0.9rem; }
  #search {
    display: block;
    width: 100%;
    max-width: 480px;
    margin: 16px auto 0;
    padding: 10px 14px;
    font-size: 1rem;
    color: #e6e8eb;
    background: #171a21;
    border: 1px solid #2a2f3a;
    border-radius: 8px;
  }
  #search:focus { outline: none; border-color: #4a7cf7; }
  #no-results { display: none; text-align: center; color: #8b919c; padding: 40px 0; }
  .timeline { position: relative; max-width: 1000px; margin: 0 auto; }
  .timeline::before {
    content: "";
    position: absolute;
    left: 50%;
    top: 0;
    bottom: 0;
    width: 2px;
    background: #2a2f3a;
    transform: translateX(-50%);
  }
  .item {
    position: relative;
    width: 50%;
    padding: 0 32px 40px;
  }
  .item:nth-child(even) { left: 50%; padding-left: 48px; padding-right: 0; }
  .item .marker {
    position: absolute;
    top: 24px;
    right: -8px;
    width: 16px;
    height: 16px;
    border-radius: 50%;
    background: #4a7cf7;
    border: 3px solid #0f1115;
    box-shadow: 0 0 0 2px #4a7cf7;
  }
  .item:nth-child(even) .marker { right: auto; left: -8px; }
  .card {
    background: #171a21;
    border: 1px solid #232837;
    border-radius: 12px;
    overflow: hidden;
    transition: border-color 0.2s;
  }
  .card:hover { border-color: #3a4150; }
  .meta {
    display: flex;
    justify-content: space-between;
    align-items: center;
    gap: 8px;
    padding: 10px 14px;
    font-size: 0.8rem;
    background: #1c2029;
  }
  .meta .id { font-weight: 600; color: #4a7cf7; }
  .meta .ts { color: #8b919c; font-family: ui-monospace, Consolas, monospace; }
  .meta .dim { color: #6d7480; }
  .thumb img {
    display: block;
    width: 100%;
    height: auto;
    max-height: 420px;
    object-fit: cover;
    object-position: top;
    background: #000;
  }
  .ocr { padding: 12px 14px; font-size: 0.85rem; }
  .ocr-text {
    white-space: pre-wrap;
    word-break: break-word;
    font-family: ui-monospace, Consolas, monospace;
    color: #c6cbd3;
    display: -webkit-box;
    -webkit-line-clamp: 3;
    -webkit-box-orient: vertical;
    overflow: hidden;
  }
  .ocr.expanded .ocr-text {
    -webkit-line-clamp: unset;
    display: block;
  }
  .ocr-more {
    display: block;
    margin-top: 8px;
    padding: 0;
    border: none;
    background: none;
    color: #4a7cf7;
    font-size: 0.8rem;
    font-family: inherit;
    cursor: pointer;
  }
  .ocr-more:hover { text-decoration: underline; }
  .ocr-more[hidden] { display: none; }
  .ocr em { color: #8b919c; }
  @media (max-width: 720px) {
    .timeline::before { left: 8px; transform: none; }
    .item, .item:nth-child(even) { width: 100%; left: 0; padding: 0 0 32px 32px; }
    .item .marker, .item:nth-child(even) .marker { left: 0; right: auto; }
  }
</style>
</head>
<body>
<header>
  <h1>Recall Timeline</h1>
  <p>"##;

/// After the shown count: search box, up to the items.
pub const PAGE_AFTER_HEADER_COUNT: &'static str = r##" Screenshots</p>
  <input type="text" id="search" placeholder="OCR-Text filtern ..." autocomplete="off">
</header>
<div class="timeline" id="timeline">"##;

/// After the items: empty-result note, filter script and page end.
pub const PAGE_CLOSE: &'static str = r##"</div>
<div id="no-results">Keine Treffer fuer den Suchbegriff.</div>
<script>
  const input = document.getElementById("search");
  const items = Array.from(document.querySelectorAll(".item"));
  const none = document.getElementById("no-results");
  input.addEventListener("input", () => {
    const q = input.value.trim().toLowerCase();
    let visible = 0;
    for (const it of items) {
      const show = q === "" || it.dataset.search.toLowerCase().includes(q);
      it.style.display = show ? "" : "none";
      if (show) visible++;
    }
    none.style.display = visible === 0 ? "block" : "none";
  });
  const blocks = Array.from(document.querySelectorAll(".ocr"));
  for (const blk of blocks) {
    const text = blk.querySelector(".ocr-text");
    const btn = blk.querySelector(".ocr-more");
    if (!text || !btn) continue;
    if (text.scrollHeight <= text.clientHeight) { btn.hidden = true; continue; }
    btn.addEventListener("click", () => {
      const expanded = blk.classList.toggle("expanded");
      btn.textContent = expanded ? "Weniger ..." : "Mehr ...";
    });
  }
</script>
</body>
</html>"##;

/// Shown instead of the OCR block when no text was recognized.
pub const OCR_NONE: &'static str = "<em>Kein OCR-Text erkannt.</em>";

/// Start of the OCR block, before the escaped text.
pub const OCR_TEXT_OPEN: &'static str = "<pre class=\"ocr-text\">";

/// End of the OCR block, with the button that expands long texts.
pub const OCR_TEXT_CLOSE: &'static str = "</pre><button class=\"ocr-more\" type=\"button\">Mehr ...</button>";

} // verus!
