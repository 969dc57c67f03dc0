//! The templates of the label sheet and of the index page.

use vstd::prelude::*;

verus! {

/// The label sheet template. It defines the Avery L7163-compatible page
/// geometry and a `shipping-label` function, and lays out `sys.inputs.pages`.
pub const LABEL_SHEET_TEMPLATE: &'static str = r##"
#set page(
  paper: "a4",
  margin: (top: 15.15mm, bottom: 10mm, left: 4.65mm, right: 4.65mm),
)
#set text(size: 10pt)
#set par(leading: 0.45em, spacing: 0.45em)

#let shipping-label(cell) = box(width: 99.09mm, height: 38.1mm, inset: 5mm, clip: true, {
  if cell.kind == "placeholder" {
    emph(cell.text)
  } else {
    strong(cell.name)
    for line in cell.lines {
      linebreak()
      line
    }
    if cell.no_address {
      linebreak()
      emph[No address on file]
    }
  }
})

#for (index, cells) in sys.inputs.pages.enumerate() {
  if index > 0 {
    pagebreak()
  }
  grid(
    columns: (99.09mm, 99.09mm),
    column-gutter: 2.5mm,
    rows: 38.1mm,
    ..cells.map(shipping-label),
  )
}
"##;

/// The index page template. `%%DEFAULT_DATE%%` (two months before today) and
/// `%%TODAY%%` are filled in for each request.
pub const INDEX_HTML_TEMPLATE: &'static str = r##"<!doctype html>
<html lang="en">
  <head>
    <meta charset="utf-8">
    <meta name="viewport" content="width=device-width, initial-scale=1">
    <title>Shipping labels</title>
    <link rel="stylesheet" href="https://cdn.jsdelivr.net/npm/@picocss/pico@2/css/pico.min.css">
  </head>
  <body>
    <main class="container">
      <h1>Shipping labels</h1>
      <form id="report" action="/report" target="preview">
        <label>
          Customers with an active subscription since
          <input type="date" name="start_date" value="%%DEFAULT_DATE%%" max="%%TODAY%%" required>
        </label>
        <button type="submit">Preview</button>
        <button type="submit" formtarget="_blank">Open PDF</button>
        <button type="submit" formaction="/report/csv" formtarget="_self">Download CSV</button>
      </form>
      <iframe
        name="preview"
        title="Shipping labels"
        src="/report?start_date=%%DEFAULT_DATE%%"
        width="100%"
        height="900"
      ></iframe>
    </main>
  </body>
</html>
"##;

} // verus!
