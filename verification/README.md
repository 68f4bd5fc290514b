# umya_spreadsheet structures, verified

Spreadsheet (SpreadsheetML) structures with their contracts proved by Verus:
optional attribute values (`values`), columns (`column`), pivot data fields
(`data_field`), the stylesheet lists of differential formats, fills and recently
used colors (`differential_formats`, `fills`, `mru_colors`), the shared string
table (`shared_string_table`), and two enumerated attribute types (`enums`).

Supporting modules: `decimal` (integer text as `to_string` writes it and as
`str::parse` reads it), `text`, `styles` (the style parts the lists hold),
`xml` (tag attributes and element text, through quick-xml), `reading` (what to
do with each event while a list is read), and `digest` (MD5 hash codes).

`app/` holds what does not belong in the verified crate: pulling events from a
`quick_xml::Reader`, writing into a `quick_xml::Writer`, the floating-point column
width, and the serde forms of the structures.
