//! The label sheets as a PDF, set by Typst.

use typst::foundations::{Dict, IntoValue};
use typst_as_lib::typst_kit_options::TypstKitFontOptions;
use typst_as_lib::{TypstEngine, TypstTemplateMainFile};
use typst_layout::PagedDocument;
use typst_pdf::PdfOptions;
use vstd::prelude::*;
use vstd::string::*;

use crate::labels::{self, LabelCell, LabelText};
use crate::templates::LABEL_SHEET_TEMPLATE;
use crate::text;

verus! {

/// A dictionary of Typst.
#[verifier::external_type_specification]
#[verifier::external_body]
pub struct ExDict(Dict);

/// A Typst engine.
#[verifier::external_type_specification]
#[verifier::external_body]
#[verifier::reject_recursive_types(T)]
pub struct ExTypstEngine<T>(TypstEngine<T>);

/// The kind of an engine that has its main file.
#[verifier::external_type_specification]
#[verifier::external_body]
pub struct ExTypstTemplateMainFile(TypstTemplateMainFile);

/// A laid out document.
#[verifier::external_type_specification]
#[verifier::external_body]
pub struct ExPagedDocument(PagedDocument);

/// A value that the label sheet template reads.
pub enum InputValue {
    Text(Seq<char>),
    Flag(bool),
    Array(Seq<InputValue>),
    Fields(Map<Seq<char>, InputValue>),
}

/// The entries of a dictionary that the label sheet template reads.
pub type Entries = Map<Seq<char>, InputValue>;

/// What a Typst dictionary holds.
pub uninterp spec fn dict_entries(dict: Dict) -> Entries;

/// An array of texts.
pub open spec fn text_array(texts: Seq<Seq<char>>) -> InputValue {
    InputValue::Array(texts.map_values(|text: Seq<char>| InputValue::Text(text)))
}

/// An array of dictionaries.
pub open spec fn field_array(dicts: Seq<Entries>) -> InputValue {
    InputValue::Array(dicts.map_values(|entries: Entries| InputValue::Fields(entries)))
}

/// An array of arrays of dictionaries.
pub open spec fn page_array(pages: Seq<Seq<Entries>>) -> InputValue {
    InputValue::Array(pages.map_values(|page: Seq<Entries>| field_array(page)))
}

/// The entries of the dictionaries of the pages.
pub open spec fn pages_entries(pages: Seq<Vec<Dict>>) -> Seq<Seq<Entries>> {
    pages.map_values(|page: Vec<Dict>| page@.map_values(|cell: Dict| dict_entries(cell)))
}

/// Typst's `Dict::new`: a dictionary without entries.
#[verifier::external_body]
fn new_dict() -> (dict: Dict)
    ensures
        dict_entries(dict) == Entries::empty(),
{
    Dict::new()
}

/// Typst's `Dict::insert` with a string: the key gets the string as its value,
/// and the other entries stay.
#[verifier::external_body]
fn insert_text(dict: &mut Dict, key: &str, value: String)
    ensures
        dict_entries(*final(dict)) == dict_entries(*old(dict)).insert(
            key@,
            InputValue::Text(value@),
        ),
{
    dict.insert(key.into(), value.into_value());
}

/// Typst's `Dict::insert` with an array of strings: the key gets the array of
/// the strings in order as its value, and the other entries stay.
#[verifier::external_body]
fn insert_lines(dict: &mut Dict, key: &str, value: Vec<String>)
    ensures
        dict_entries(*final(dict)) == dict_entries(*old(dict)).insert(
            key@,
            text_array(text::contents(value@)),
        ),
{
    dict.insert(key.into(), value.into_value());
}

/// Typst's `Dict::insert` with a boolean: the key gets it as its value, and the
/// other entries stay.
#[verifier::external_body]
fn insert_flag(dict: &mut Dict, key: &str, value: bool)
    ensures
        dict_entries(*final(dict)) == dict_entries(*old(dict)).insert(
            key@,
            InputValue::Flag(value),
        ),
{
    dict.insert(key.into(), value.into_value());
}

/// Typst's `Dict::insert` with an array of arrays of dictionaries: the key gets
/// it as its value, in order, and the other entries stay.
#[verifier::external_body]
fn insert_pages(dict: &mut Dict, key: &str, value: Vec<Vec<Dict>>)
    ensures
        dict_entries(*final(dict)) == dict_entries(*old(dict)).insert(
            key@,
            page_array(pages_entries(value@)),
        ),
{
    dict.insert(key.into(), value.into_value());
}

/// The entries that a label is handed to the template as.
pub open spec fn label_entries(label: LabelText) -> Entries {
    match label {
        LabelText::Placeholder(message) => Entries::empty().insert(
            "kind"@,
            InputValue::Text("placeholder"@),
        ).insert("text"@, InputValue::Text(message)),
        LabelText::Customer { name, lines, no_address } => Entries::empty().insert(
            "kind"@,
            InputValue::Text("customer"@),
        ).insert("name"@, InputValue::Text(name)).insert("lines"@, text_array(lines)).insert(
            "no_address"@,
            InputValue::Flag(no_address),
        ),
    }
}

/// The entries that the labels of the sheets are handed to the template as.
pub open spec fn sheet_entries(pages: Seq<Seq<LabelText>>) -> Entries {
    Entries::empty().insert(
        "pages"@,
        page_array(
            pages.map_values(
                |page: Seq<LabelText>| page.map_values(|label: LabelText| label_entries(label)),
            ),
        ),
    )
}

impl LabelCell {
    /// The label as the dictionary that the template reads.
    pub fn into_value(self) -> (r: Dict)
        ensures
            dict_entries(r) == label_entries(self@),
            match self {
                LabelCell::Placeholder(message) => {
                    &&& dict_entries(r).dom() == set!["kind"@, "text"@]
                    &&& dict_entries(r)["kind"@] == InputValue::Text("placeholder"@)
                    &&& dict_entries(r)["text"@] == InputValue::Text(message@)
                },
                LabelCell::Customer { name, lines, no_address } => {
                    &&& dict_entries(r).dom() == set!["kind"@, "name"@, "lines"@, "no_address"@]
                    &&& dict_entries(r)["kind"@] == InputValue::Text("customer"@)
                    &&& dict_entries(r)["name"@] == InputValue::Text(name@)
                    &&& dict_entries(r)["no_address"@] == InputValue::Flag(no_address)
                    &&& dict_entries(r)["lines"@] matches InputValue::Array(texts)
                    &&& texts.len() == lines@.len()
                    &&& forall|i: int|
                        0 <= i < lines@.len() ==> #[trigger] texts[i] == InputValue::Text(
                            lines@[i]@,
                        )
                },
            },
    {
        proof {
            law_template_gets_the_label(self@);
            labels::law_label_text_is_the_cells(self);
        }
        let mut dict = new_dict();
        match self {
            LabelCell::Placeholder(message) => {
                insert_text(&mut dict, "kind", "placeholder".to_owned());
                insert_text(&mut dict, "text", message);
            },
            LabelCell::Customer { name, lines, no_address } => {
                insert_text(&mut dict, "kind", "customer".to_owned());
                insert_text(&mut dict, "name", name);
                insert_lines(&mut dict, "lines", lines);
                insert_flag(&mut dict, "no_address", no_address);
            },
        }
        dict
    }
}

/// The dictionaries of the labels of a sheet, in order.
fn page_values(cells: Vec<LabelCell>) -> (r: Vec<Dict>)
    ensures
        r@.map_values(|cell: Dict| dict_entries(cell)) == labels::page_text(cells@).map_values(
            |label: LabelText| label_entries(label),
        ),
{
    let ghost all = cells@;
    let mut values: Vec<Dict> = Vec::new();
    for cell in it: cells
        invariant
            it.seq() == all,
            values@.len() == it.index(),
            forall|i: int|
                0 <= i < values@.len() ==> dict_entries(#[trigger] values@[i]) == label_entries(
                    all[i]@,
                ),
    {
        values.push(cell.into_value());
    }
    assert(values@.map_values(|cell: Dict| dict_entries(cell)) =~= labels::page_text(
        all,
    ).map_values(|label: LabelText| label_entries(label)));
    values
}

/// The input of the template: the labels of the sheets under the key `pages`.
pub fn report_input(pages: Vec<Vec<LabelCell>>) -> (r: Dict)
    ensures
        dict_entries(r) == sheet_entries(labels::sheet_text(pages@)),
        dict_entries(r).dom() == set!["pages"@],
        dict_entries(r)["pages"@] matches InputValue::Array(sheets) && {
            &&& sheets.len() == pages@.len()
            &&& forall|p: int|
                0 <= p < pages@.len() ==> (#[trigger] sheets[p] matches InputValue::Array(cells)
                    && cells.len() == pages@[p]@.len() && forall|i: int|
                    0 <= i < cells.len() ==> #[trigger] cells[i] == InputValue::Fields(
                        label_entries(pages@[p]@[i]@),
                    ))
        },
{
    proof {
        law_template_gets_the_sheets(labels::sheet_text(pages@));
    }
    let ghost all = pages@;
    let ghost expected = labels::sheet_text(all).map_values(
        |page: Seq<LabelText>| page.map_values(|label: LabelText| label_entries(label)),
    );
    let mut values: Vec<Vec<Dict>> = Vec::new();
    for page in it: pages
        invariant
            it.seq() == all,
            expected == labels::sheet_text(all).map_values(
                |page: Seq<LabelText>| page.map_values(|label: LabelText| label_entries(label)),
            ),
            values@.len() == it.index(),
            forall|p: int|
                0 <= p < values@.len() ==> (#[trigger] values@[p])@.map_values(
                    |cell: Dict| dict_entries(cell),
                ) == expected[p],
    {
        values.push(page_values(page));
    }
    assert(pages_entries(values@) =~= expected);
    let mut dict = new_dict();
    insert_pages(&mut dict, "pages", values);
    dict
}

/// Whether building an engine with a main file, and with the fonts of the
/// system and those embedded in Typst or without them, may give this engine.
pub uninterp spec fn engine_may_be(
    main_file: Seq<char>,
    system_fonts: bool,
    embedded_fonts: bool,
    engine: TypstEngine<TypstTemplateMainFile>,
) -> bool;

/// typst-as-lib's `TypstEngine::builder` with a main file and the fonts to
/// search: the engine is one that these may give. Nothing more is claimed of it,
/// since the fonts of a system are its own.
#[verifier::external_body]
fn engine_for(main_file: &str, system_fonts: bool, embedded_fonts: bool) -> (r: TypstEngine<
    TypstTemplateMainFile,
>)
    ensures
        engine_may_be(main_file@, system_fonts, embedded_fonts, r),
{
    let fonts = TypstKitFontOptions::default()
        .include_system_fonts(system_fonts)
        .include_embedded_fonts(embedded_fonts);
    TypstEngine::builder().main_file(main_file).search_fonts_with(fonts).build()
}

/// Builds an engine for the label sheet template, with Typst's embedded fonts
/// alone, so that rendering needs no network or system font access.
pub fn build_typst_engine() -> (r: TypstEngine<TypstTemplateMainFile>)
    ensures
        engine_may_be(LABEL_SHEET_TEMPLATE@, false, true, r),
{
    engine_for(LABEL_SHEET_TEMPLATE, false, true)
}

/// Whether compiling with an engine and an input may come out like this: with
/// a document, or with an error that reads as given.
pub uninterp spec fn compiles_to(
    engine: TypstEngine<TypstTemplateMainFile>,
    input: Entries,
    outcome: Result<PagedDocument, Seq<char>>,
) -> bool;

/// typst-as-lib's `TypstEngine::compile_with_input`, with an error as its
/// `Display` form: the outcome is one that the engine may give for the entries
/// of the input. It is not claimed to be the only one, since an engine has the
/// clock. The engine is one for the label sheet template: with others the call
/// may panic, as where a template asks for the date at an offset that is out of
/// range.
#[verifier::external_body]
fn compile_document(engine: &TypstEngine<TypstTemplateMainFile>, input: Dict) -> (r: Result<
    PagedDocument,
    String,
>)
    requires
        engine_may_be(LABEL_SHEET_TEMPLATE@, false, true, *engine),
    ensures
        compiles_to(*engine, dict_entries(input), read_outcome(r)),
{
    engine.compile_with_input(input).output.map_err(|err| format!("{err}"))
}

/// Whether exporting a document may come out like this: with the bytes of a
/// file, or with an error that reads as given.
pub uninterp spec fn exports_to(
    document: PagedDocument,
    outcome: Result<Seq<u8>, Seq<char>>,
) -> bool;

/// `typst_pdf::pdf` with the default options, with an error as its `Debug`
/// form: the outcome is one that the document may give, and a file that is
/// exported starts with the signature of a PDF.
#[verifier::external_body]
fn export_pdf(document: &PagedDocument) -> (r: Result<Vec<u8>, String>)
    ensures
        exports_to(*document, read_bytes(r)),
        r matches Ok(pdf) ==> is_pdf(pdf@),
{
    typst_pdf::pdf(document, &PdfOptions::default()).map_err(|err| format!("{err:?}"))
}

/// A file that starts with `%PDF-`.
pub open spec fn is_pdf(bytes: Seq<u8>) -> bool {
    seq![0x25u8, 0x50u8, 0x44u8, 0x46u8, 0x2du8].is_prefix_of(bytes)
}

/// An outcome, with the text of its error.
pub open spec fn read_outcome<T>(outcome: Result<T, String>) -> Result<T, Seq<char>> {
    match outcome {
        Ok(value) => Ok(value),
        Err(message) => Err(message@),
    }
}

/// The bytes of an outcome, or the text of its error.
pub open spec fn read_bytes(outcome: Result<Vec<u8>, String>) -> Result<Seq<u8>, Seq<char>> {
    match outcome {
        Ok(bytes) => Ok(bytes@),
        Err(message) => Err(message@),
    }
}

/// What is said where the template does not compile.
pub open spec fn compile_failure(detail: Seq<char>) -> Seq<char> {
    "typst compilation failed: "@ + detail
}

/// What is said where the document cannot be exported.
pub open spec fn export_failure(detail: Seq<char>) -> Seq<char> {
    "typst PDF export failed: "@ + detail
}

/// What comes of the rendering of a document that was compiled.
pub open spec fn exported(outcome: Result<Seq<u8>, Seq<char>>) -> Result<Seq<u8>, Seq<char>> {
    match outcome {
        Ok(pdf) => Ok(pdf),
        Err(detail) => Err(export_failure(detail)),
    }
}

/// Whether rendering with an engine and an input may come out like this.
pub open spec fn renders_to(
    engine: TypstEngine<TypstTemplateMainFile>,
    input: Entries,
    outcome: Result<Seq<u8>, Seq<char>>,
) -> bool {
    ||| exists|detail: Seq<char>|
        {
            &&& #[trigger] compiles_to(engine, input, Err(detail))
            &&& outcome == Err::<Seq<u8>, Seq<char>>(compile_failure(detail))
        }
    ||| exists|document: PagedDocument, written: Result<Seq<u8>, Seq<char>>|
        {
            &&& #[trigger] compiles_to(engine, input, Ok(document))
            &&& #[trigger] exports_to(document, written)
            &&& outcome == exported(written)
        }
}

/// The outcome of a rendering, from that of the compilation and, where it
/// succeeded, that of the export.
pub fn rendering_outcome(compiled: Result<Result<Vec<u8>, String>, String>) -> (r: Result<
    Vec<u8>,
    String,
>)
    ensures
        match compiled {
            Ok(Ok(pdf)) => r == Ok::<Vec<u8>, String>(pdf),
            Ok(Err(detail)) => r matches Err(message) && message@ == export_failure(detail@),
            Err(detail) => r matches Err(message) && message@ == compile_failure(detail@),
        },
        match compiled {
            Ok(Ok(pdf)) => r == Ok::<Vec<u8>, String>(pdf),
            Ok(Err(detail)) => r matches Err(message) && message@ == "typst PDF export failed: "@
                + detail@,
            Err(detail) => r matches Err(message) && message@ == "typst compilation failed: "@
                + detail@,
        },
{
    match compiled {
        Ok(Ok(pdf)) => Ok(pdf),
        Ok(Err(detail)) => Err("typst PDF export failed: ".to_owned().concat(detail.as_str())),
        Err(detail) => Err("typst compilation failed: ".to_owned().concat(detail.as_str())),
    }
}

/// Compiles the label sheet template with `pages` injected as `sys.inputs` and
/// exports the result to PDF bytes. The engine is one that
/// [`build_typst_engine`] gives.
///
/// Which document Typst makes of the labels is not stated, nor on which labels
/// it succeeds.
pub fn render_label_sheet_pdf(
    engine: &TypstEngine<TypstTemplateMainFile>,
    pages: Vec<Vec<LabelCell>>,
) -> (r: Result<Vec<u8>, String>)
    requires
        engine_may_be(LABEL_SHEET_TEMPLATE@, false, true, *engine),
    ensures
        renders_to(*engine, sheet_entries(labels::sheet_text(pages@)), read_bytes(r)),
        r matches Ok(pdf) ==> is_pdf(pdf@),
{
    let ghost input = sheet_entries(labels::sheet_text(pages@));
    let outcome = compile_document(engine, report_input(pages));
    assert(compiles_to(*engine, input, read_outcome(outcome)));
    match outcome {
        Err(detail) => rendering_outcome(Err(detail)),
        Ok(document) => {
            let written = export_pdf(&document);
            assert(exports_to(document, read_bytes(written)));
            rendering_outcome(Ok(written))
        },
    }
}

proof fn lemma_keys()
    ensures
        "kind"@ != "name"@,
        "kind"@ != "lines"@,
        "kind"@ != "no_address"@,
        "kind"@ != "text"@,
        "name"@ != "lines"@,
        "name"@ != "no_address"@,
        "lines"@ != "no_address"@,
{
    reveal_strlit("kind");
    reveal_strlit("name");
    reveal_strlit("lines");
    reveal_strlit("no_address");
    reveal_strlit("text");
    assert("kind"@[0] != "name"@[0]);
    assert("kind"@[0] != "text"@[0]);
    assert("kind"@.len() != "lines"@.len());
    assert("kind"@.len() != "no_address"@.len());
    assert("name"@.len() != "lines"@.len());
    assert("name"@.len() != "no_address"@.len());
    assert("lines"@.len() != "no_address"@.len());
}

/// The template gets the whole label and nothing else: of a customer's label the
/// name, the flag, and as many texts as the label has lines, each the line at
/// its place, however many there are; of a message the message.
pub proof fn law_template_gets_the_label(label: LabelText)
    ensures
        match label {
            LabelText::Placeholder(message) => {
                &&& label_entries(label).dom() == set!["kind"@, "text"@]
                &&& label_entries(label)["kind"@] == InputValue::Text("placeholder"@)
                &&& label_entries(label)["text"@] == InputValue::Text(message)
            },
            LabelText::Customer { name, lines, no_address } => {
                &&& label_entries(label).dom() == set!["kind"@, "name"@, "lines"@, "no_address"@]
                &&& label_entries(label)["kind"@] == InputValue::Text("customer"@)
                &&& label_entries(label)["name"@] == InputValue::Text(name)
                &&& label_entries(label)["no_address"@] == InputValue::Flag(no_address)
                &&& label_entries(label)["lines"@] matches InputValue::Array(texts)
                &&& texts.len() == lines.len()
                &&& forall|i: int|
                    0 <= i < lines.len() ==> #[trigger] texts[i] == InputValue::Text(lines[i])
            },
        },
{
    lemma_keys();
    match label {
        LabelText::Placeholder(message) => {
            assert(label_entries(label).dom() =~= set!["kind"@, "text"@]);
        },
        LabelText::Customer { name, lines, no_address } => {
            assert(label_entries(label).dom() =~= set!["kind"@, "name"@, "lines"@, "no_address"@]);
        },
    }
}

/// Labels that the template cannot tell apart are the same.
pub proof fn law_template_tells_labels_apart(label: LabelText, other: LabelText)
    requires
        label_entries(label) == label_entries(other),
    ensures
        label == other,
{
    law_template_gets_the_label(label);
    law_template_gets_the_label(other);
    reveal_strlit("placeholder");
    reveal_strlit("customer");
    assert("placeholder"@.len() != "customer"@.len());
    match (label, other) {
        (
            LabelText::Customer { name, lines, no_address },
            LabelText::Customer { name: other_name, lines: other_lines, no_address: other_flag },
        ) => {
            let texts = label_entries(label)["lines"@]->Array_0;
            assert forall|i: int| 0 <= i < lines.len() implies lines[i] == other_lines[i] by {
                assert(texts[i] == InputValue::Text(lines[i]));
                assert(texts[i] == InputValue::Text(other_lines[i]));
            }
            assert(lines =~= other_lines);
        },
        _ => {},
    }
}

/// The template gets all sheets and nothing else, each with all of its labels in
/// their places.
pub proof fn law_template_gets_the_sheets(pages: Seq<Seq<LabelText>>)
    ensures
        sheet_entries(pages).dom() == set!["pages"@],
        sheet_entries(pages)["pages"@] matches InputValue::Array(sheets) && {
            &&& sheets.len() == pages.len()
            &&& forall|p: int|
                0 <= p < pages.len() ==> (#[trigger] sheets[p] matches InputValue::Array(cells)
                    && cells.len() == pages[p].len() && forall|i: int|
                    0 <= i < cells.len() ==> #[trigger] cells[i] == InputValue::Fields(
                        label_entries(pages[p][i]),
                    ))
        },
{
    assert(sheet_entries(pages).dom() =~= set!["pages"@]);
}

/// What comes of a rendering comes of the compilation with that engine and that
/// input: the exported bytes of a document it may give, or an error that says
/// which of the two steps failed and how.
pub proof fn law_rendering_is_compiling_and_exporting(
    engine: TypstEngine<TypstTemplateMainFile>,
    input: Entries,
    outcome: Result<Seq<u8>, Seq<char>>,
)
    requires
        renders_to(engine, input, outcome),
    ensures
        outcome matches Ok(pdf) ==> exists|document: PagedDocument|
            {
                &&& #[trigger] compiles_to(engine, input, Ok(document))
                &&& exports_to(document, Ok(pdf))
            },
        outcome matches Err(message) ==> {
            ||| exists|detail: Seq<char>|
                {
                    &&& #[trigger] compiles_to(engine, input, Err(detail))
                    &&& message == "typst compilation failed: "@ + detail
                }
            ||| exists|document: PagedDocument, detail: Seq<char>|
                {
                    &&& #[trigger] compiles_to(engine, input, Ok(document))
                    &&& #[trigger] exports_to(document, Err(detail))
                    &&& message == "typst PDF export failed: "@ + detail
                }
        },
{
    if exists|detail: Seq<char>|
        {
            &&& #[trigger] compiles_to(engine, input, Err(detail))
            &&& outcome == Err::<Seq<u8>, Seq<char>>(compile_failure(detail))
        } {
    } else {
        let (document, written) = choose|
            document: PagedDocument,
            written: Result<Seq<u8>, Seq<char>>,
        |
            {
                &&& #[trigger] compiles_to(engine, input, Ok(document))
                &&& #[trigger] exports_to(document, written)
                &&& outcome == exported(written)
            };
        match written {
            Ok(pdf) => {
                assert(exports_to(document, Ok(pdf)));
            },
            Err(detail) => {
                assert(exports_to(document, Err(detail)));
            },
        }
    }
}

} // verus!
