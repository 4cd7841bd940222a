//! The flow-document renderer: the document model becomes a
//! paragraph/run/table object graph which is serialized into a zipped
//! package.  The object graph is built through the `docx-rs` crate; the
//! contracts model what each builder call adds, so that the finished
//! document's content is pinned down even though the builder's values are
//! opaque here.

use vstd::prelude::*;
use crate::inline::{InlineNode, InlineModel, inlines_model};
use crate::blocks::{HtmlNode, BlockModel, blocks_model};

verus! {

#[verifier::external_type_specification]
#[verifier::external_body]
pub struct ExDocx(docx_rs::Docx);

#[verifier::external_type_specification]
#[verifier::external_body]
pub struct ExParagraph(docx_rs::Paragraph);

#[verifier::external_type_specification]
#[verifier::external_body]
pub struct ExRun(docx_rs::Run);

#[verifier::external_type_specification]
#[verifier::external_body]
pub struct ExRunFonts(docx_rs::RunFonts);

#[verifier::external_type_specification]
#[verifier::external_body]
pub struct ExTable(docx_rs::Table);

#[verifier::external_type_specification]
#[verifier::external_body]
pub struct ExTableRow(docx_rs::TableRow);

#[verifier::external_type_specification]
#[verifier::external_body]
pub struct ExTableCell(docx_rs::TableCell);

#[verifier::external_type_specification]
#[verifier::external_body]
pub struct ExPic(docx_rs::Pic);

/// Mathematical model of one run of the flow document: the text as the
/// package stores it (see [`sp_xml_text`]), the run-level toggles, and
/// the embedded picture, if any.
pub ghost struct RunModel {
    pub text: Seq<char>,
    pub bold: bool,
    pub italic: bool,
    pub underline: bool,
    pub font_ascii: Option<Seq<char>>,
    pub size: Option<int>,
    pub image: Option<PicModel>,
}

/// Mathematical model of one paragraph of the flow document.
pub ghost struct ParaModel {
    pub runs: Seq<RunModel>,
    pub indent_left: Option<int>,
    pub centered: bool,
}

/// Mathematical model of one picture: its bytes and its size in EMU.
pub ghost struct PicModel {
    pub bytes: Seq<u8>,
    pub w_emu: int,
    pub h_emu: int,
}

/// The text a run stores for a given input: the package writer removes
/// every newline and carriage return before storing (its remaining XML
/// escaping is invertible, and the model reads the unescaped text).
pub open spec fn sp_xml_text(s: Seq<char>) -> Seq<char>
    decreases s.len(),
{
    if s.len() == 0 {
        Seq::empty()
    } else if s[0] == '\n' || s[0] == '\r' {
        sp_xml_text(s.drop_first())
    } else {
        seq![s[0]] + sp_xml_text(s.drop_first())
    }
}

/// Mathematical model of one top-level element of the flow document.
pub ghost enum DocxBlockModel {
    Para(ParaModel),
    Tbl(Seq<Seq<Seq<ParaModel>>>),
}

/// What a run holds.
pub uninterp spec fn run_model(r: docx_rs::Run) -> RunModel;

/// What a paragraph holds.
pub uninterp spec fn para_model(p: docx_rs::Paragraph) -> ParaModel;

/// What a font selection names as its ASCII face.
pub uninterp spec fn fonts_model(f: docx_rs::RunFonts) -> Option<Seq<char>>;

/// What a table cell holds.
pub uninterp spec fn cell_model(c: docx_rs::TableCell) -> Seq<ParaModel>;

/// What a table row holds.
pub uninterp spec fn trow_model(r: docx_rs::TableRow) -> Seq<Seq<ParaModel>>;

/// What a table holds.
pub uninterp spec fn table_model(t: docx_rs::Table) -> Seq<Seq<Seq<ParaModel>>>;

/// What a picture holds.
pub uninterp spec fn pic_model(p: docx_rs::Pic) -> PicModel;

/// What a document holds.
pub uninterp spec fn docx_model(d: docx_rs::Docx) -> Seq<DocxBlockModel>;

/// What the decoder yields for a text, if it is well-formed standard
/// base64.
pub uninterp spec fn b64_decoded(s: Seq<char>) -> Option<Seq<u8>>;

/// Relies on `docx_rs::Docx::new`: a fresh document holds no element.
#[verifier::external_body]
fn docx_new() -> (d: docx_rs::Docx)
    ensures
        docx_model(d) == Seq::<DocxBlockModel>::empty(),
{
    docx_rs::Docx::new()
}

/// Relies on `docx_rs::Docx::add_paragraph`: appends the paragraph to the
/// document body.
#[verifier::external_body]
fn docx_add_paragraph(d: docx_rs::Docx, p: docx_rs::Paragraph) -> (r: docx_rs::Docx)
    ensures
        docx_model(r) == docx_model(d).push(DocxBlockModel::Para(para_model(p))),
{
    d.add_paragraph(p)
}

/// Relies on `docx_rs::Docx::add_table`: appends the table to the
/// document body.
#[verifier::external_body]
fn docx_add_table(d: docx_rs::Docx, t: docx_rs::Table) -> (r: docx_rs::Docx)
    ensures
        docx_model(r) == docx_model(d).push(DocxBlockModel::Tbl(table_model(t))),
{
    d.add_table(t)
}

/// Relies on `docx_rs::Docx::pack`: writes the document as a zipped
/// package, whose archive is never empty on success.
#[verifier::external_body]
fn docx_pack(d: docx_rs::Docx) -> (r: Result<Vec<u8>, String>)
    ensures
        r is Ok ==> r->Ok_0@.len() > 0,
{
    let mut buf: Vec<u8> = Vec::new();
    match d.pack(std::io::Cursor::new(&mut buf)) {
        Ok(()) => Ok(buf),
        Err(e) => Err(format!("Failed to build DOCX: {}", e)),
    }
}

/// Relies on `docx_rs::Paragraph::new`: a fresh paragraph holds no run,
/// no indent, default alignment.
#[verifier::external_body]
fn para_new() -> (p: docx_rs::Paragraph)
    ensures
        para_model(p) == (ParaModel {
            runs: Seq::<RunModel>::empty(),
            indent_left: None,
            centered: false,
        }),
{
    docx_rs::Paragraph::new()
}

/// Relies on `docx_rs::Paragraph::add_run`: appends the run.
#[verifier::external_body]
fn para_add_run(p: docx_rs::Paragraph, r: docx_rs::Run) -> (q: docx_rs::Paragraph)
    ensures
        para_model(q) == (ParaModel {
            runs: para_model(p).runs.push(run_model(r)),
            indent_left: para_model(p).indent_left,
            centered: para_model(p).centered,
        }),
{
    p.add_run(r)
}

/// Relies on `docx_rs::Paragraph::align` with centre alignment.
#[verifier::external_body]
fn para_align_center(p: docx_rs::Paragraph) -> (q: docx_rs::Paragraph)
    ensures
        para_model(q) == (ParaModel {
            runs: para_model(p).runs,
            indent_left: para_model(p).indent_left,
            centered: true,
        }),
{
    p.align(docx_rs::AlignmentType::Center)
}

/// Relies on `docx_rs::Paragraph::indent`: sets the left indent in
/// twentieths of a point.
#[verifier::external_body]
fn para_indent_left(p: docx_rs::Paragraph, left: i32) -> (q: docx_rs::Paragraph)
    ensures
        para_model(q) == (ParaModel {
            runs: para_model(p).runs,
            indent_left: Some(left as int),
            centered: para_model(p).centered,
        }),
{
    p.indent(Some(left), None, None, None)
}

/// Relies on `docx_rs::Run::new`: a fresh run holds nothing and carries
/// no formatting.
#[verifier::external_body]
fn run_new() -> (r: docx_rs::Run)
    ensures
        run_model(r) == (RunModel {
            text: Seq::<char>::empty(),
            bold: false,
            italic: false,
            underline: false,
            font_ascii: None,
            size: None,
            image: None,
        }),
{
    docx_rs::Run::new()
}

/// Relies on `docx_rs::Run::add_text`: appends the text with every
/// newline removed (`add_text` itself) and every carriage return removed
/// (the XML escaper), as the package stores it.
#[verifier::external_body]
fn run_add_text(r: docx_rs::Run, t: &str) -> (q: docx_rs::Run)
    ensures
        run_model(q) == (RunModel { text: run_model(r).text + sp_xml_text(t@), ..run_model(r) }),
{
    r.add_text(t)
}

/// Relies on `docx_rs::Run::bold`.
#[verifier::external_body]
fn run_bold(r: docx_rs::Run) -> (q: docx_rs::Run)
    ensures
        run_model(q) == (RunModel { bold: true, ..run_model(r) }),
{
    r.bold()
}

/// Relies on `docx_rs::Run::italic`.
#[verifier::external_body]
fn run_italic(r: docx_rs::Run) -> (q: docx_rs::Run)
    ensures
        run_model(q) == (RunModel { italic: true, ..run_model(r) }),
{
    r.italic()
}

/// Relies on `docx_rs::Run::underline`, whatever the line style given.
#[verifier::external_body]
fn run_underline(r: docx_rs::Run, style: &str) -> (q: docx_rs::Run)
    ensures
        run_model(q) == (RunModel { underline: true, ..run_model(r) }),
{
    r.underline(style)
}

/// Relies on `docx_rs::Run::size`: the size is in half-points.
#[verifier::external_body]
fn run_size(r: docx_rs::Run, size: usize) -> (q: docx_rs::Run)
    ensures
        run_model(q) == (RunModel { size: Some(size as int), ..run_model(r) }),
{
    r.size(size)
}

/// Relies on `docx_rs::Run::fonts`: selects the faces the run is drawn
/// in.
#[verifier::external_body]
fn run_fonts(r: docx_rs::Run, f: docx_rs::RunFonts) -> (q: docx_rs::Run)
    ensures
        run_model(q) == (RunModel { font_ascii: fonts_model(f), ..run_model(r) }),
{
    r.fonts(f)
}

/// Relies on `docx_rs::Run::add_image`: appends the picture, bytes and
/// size.
#[verifier::external_body]
fn run_add_image(r: docx_rs::Run, p: docx_rs::Pic) -> (q: docx_rs::Run)
    ensures
        run_model(q) == (RunModel { image: Some(pic_model(p)), ..run_model(r) }),
{
    r.add_image(p)
}

/// Relies on `docx_rs::RunFonts::new`: no face named yet.
#[verifier::external_body]
fn fonts_new() -> (f: docx_rs::RunFonts)
    ensures
        fonts_model(f) == Option::<Seq<char>>::None,
{
    docx_rs::RunFonts::new()
}

/// Relies on `docx_rs::RunFonts::ascii`: names the ASCII face.  The XML
/// escaper deletes carriage returns, so a name holding one is excluded;
/// the remaining escaping is invertible.
#[verifier::external_body]
fn fonts_ascii(f: docx_rs::RunFonts, name: &str) -> (g: docx_rs::RunFonts)
    requires
        forall|k: int| 0 <= k < name@.len() ==> name@[k] != '\r',
    ensures
        fonts_model(g) == Some(name@),
{
    f.ascii(name)
}

/// Relies on `docx_rs::Pic::new_with_dimensions`: holds the bytes as
/// given and the size in EMU, 9525 per pixel.
#[verifier::external_body]
fn pic_new_px(buf: &Vec<u8>, w_px: u32, h_px: u32) -> (p: docx_rs::Pic)
    requires
        w_px <= 450000,
        h_px <= 450000,
    ensures
        pic_model(p) == (PicModel {
            bytes: buf@,
            w_emu: w_px * 9525,
            h_emu: h_px * 9525,
        }),
{
    docx_rs::Pic::new_with_dimensions(buf.clone(), w_px, h_px)
}

/// Relies on `docx_rs::Table::new` on no rows.
#[verifier::external_body]
fn table_new() -> (t: docx_rs::Table)
    ensures
        table_model(t) == Seq::<Seq<Seq<ParaModel>>>::empty(),
{
    docx_rs::Table::new(Vec::new())
}

/// Relies on `docx_rs::Table::add_row`: appends the row.
#[verifier::external_body]
fn table_add_row(t: docx_rs::Table, r: docx_rs::TableRow) -> (q: docx_rs::Table)
    ensures
        table_model(q) == table_model(t).push(trow_model(r)),
{
    t.add_row(r)
}

/// Relies on `docx_rs::TableRow::new`: holds the given cells in order.
#[verifier::external_body]
fn trow_new(cells: Vec<docx_rs::TableCell>) -> (r: docx_rs::TableRow)
    ensures
        trow_model(r) == cells@.map_values(|c: docx_rs::TableCell| cell_model(c)),
{
    docx_rs::TableRow::new(cells)
}

/// Relies on `docx_rs::TableCell::new`: a fresh cell holds no paragraph.
#[verifier::external_body]
fn cell_new() -> (c: docx_rs::TableCell)
    ensures
        cell_model(c) == Seq::<ParaModel>::empty(),
{
    docx_rs::TableCell::new()
}

/// Relies on `docx_rs::TableCell::add_paragraph`: appends the paragraph.
#[verifier::external_body]
fn cell_add_paragraph(c: docx_rs::TableCell, p: docx_rs::Paragraph) -> (d: docx_rs::TableCell)
    ensures
        cell_model(d) == cell_model(c).push(para_model(p)),
{
    c.add_paragraph(p)
}

/// Relies on `base64`'s standard-alphabet decoder: the result is a
/// function of the text alone, and exists exactly where the text is
/// well-formed base64.
#[verifier::external_body]
fn b64_decode(s: &str) -> (r: Result<Vec<u8>, ()>)
    ensures
        match r {
            Ok(v) => b64_decoded(s@) == Some(v@),
            Err(_) => b64_decoded(s@) is None,
        },
{
    match <base64::engine::GeneralPurpose as base64::Engine>::decode(
        &base64::engine::general_purpose::STANDARD,
        s,
    ) {
        Ok(v) => Ok(v),
        Err(_) => Err(()),
    }
}

/// The monospace face name used for code runs.
pub open spec fn sp_courier() -> Seq<char> {
    seq!['C', 'o', 'u', 'r', 'i', 'e', 'r', ' ', 'N', 'e', 'w']
}

/// The run a styled text run maps to: the style flags become run-level
/// toggles, the code flag selects the monospace face.
pub open spec fn sp_run_of(c: InlineModel) -> RunModel {
    RunModel {
        text: sp_xml_text(c.text),
        bold: c.bold,
        italic: c.italic,
        underline: c.underline,
        font_ascii: if c.code {
            Some(sp_courier())
        } else {
            None
        },
        size: None,
        image: None,
    }
}

/// The runs of a whole block.
pub open spec fn sp_runs_of(children: Seq<InlineModel>) -> Seq<RunModel> {
    children.map_values(|c: InlineModel| sp_run_of(c))
}

/// A run holding plain unstyled text, as stored.
pub open spec fn sp_plain_run(text: Seq<char>) -> RunModel {
    RunModel {
        text: sp_xml_text(text),
        bold: false,
        italic: false,
        underline: false,
        font_ascii: None,
        size: None,
        image: None,
    }
}

/// An empty default paragraph.
pub open spec fn sp_empty_para() -> ParaModel {
    ParaModel { runs: Seq::empty(), indent_left: None, centered: false }
}

/// The half-point base size of a heading, by level.
pub open spec fn sp_heading_pts(level: u8) -> int {
    if level == 1 {
        36
    } else if level == 2 {
        30
    } else if level == 3 {
        26
    } else {
        24
    }
}

/// The run a heading child maps to: always bold, sized by level.
pub open spec fn sp_heading_run(c: InlineModel, level: u8) -> RunModel {
    RunModel {
        text: sp_xml_text(c.text),
        bold: true,
        italic: c.italic,
        underline: c.underline,
        font_ascii: None,
        size: Some(sp_heading_pts(level) * 2),
        image: None,
    }
}

/// The run a blockquote child maps to: always italic, bold kept.
pub open spec fn sp_quote_run(c: InlineModel) -> RunModel {
    RunModel {
        text: sp_xml_text(c.text),
        bold: c.bold,
        italic: true,
        underline: false,
        font_ascii: None,
        size: None,
        image: None,
    }
}

/// The separator paragraph text a horizontal rule maps to.
pub open spec fn sp_hr_text() -> Seq<char> {
    Seq::new(40, |i: int| '_')
}

/// The greatest cell count of the rows at or after `i`.
pub open spec fn sp_max_cols(rows: Seq<Seq<Seq<InlineModel>>>, i: int) -> int
    decreases rows.len() - i when 0 <= i <= rows.len()
{
    if i >= rows.len() {
        0
    } else {
        let m = sp_max_cols(rows, i + 1);
        if rows[i].len() > m {
            rows[i].len() as int
        } else {
            m
        }
    }
}

/// One table row padded to `ncols` cells, each cell one paragraph.
pub open spec fn sp_padded_row(cells: Seq<Seq<InlineModel>>, ncols: int) -> Seq<Seq<ParaModel>> {
    Seq::new(
        ncols as nat,
        |j: int|
            if j < cells.len() {
                seq![
                    ParaModel { runs: sp_runs_of(cells[j]), indent_left: None, centered: false },
                ]
            } else {
                seq![sp_empty_para()]
            },
    )
}

/// The prefix that marks a PNG data URI.
pub open spec fn sp_png_prefix() -> Seq<char> {
    seq![
        'd', 'a', 't', 'a', ':', 'i', 'm', 'a', 'g', 'e', '/', 'p', 'n', 'g', ';', 'b', 'a',
        's', 'e', '6', '4', ',',
    ]
}

/// The prefix that marks a JPEG data URI.
pub open spec fn sp_jpeg_prefix() -> Seq<char> {
    seq![
        'd', 'a', 't', 'a', ':', 'i', 'm', 'a', 'g', 'e', '/', 'j', 'p', 'e', 'g', ';', 'b',
        'a', 's', 'e', '6', '4', ',',
    ]
}

/// The base64 payload of a data URI: the text between the first comma
/// and the next, or the end.
pub open spec fn sp_data_part(src: Seq<char>) -> Seq<char> {
    let j = crate::scan::scan_to(src, 0, ',');
    if j >= src.len() {
        Seq::empty()
    } else {
        let j2 = crate::scan::scan_to(src, j + 1, ',');
        src.subrange(j + 1, j2)
    }
}

/// The caption text of an image block.
pub open spec fn sp_image_caption(alt: Seq<char>) -> Seq<char> {
    if alt.len() == 0 {
        seq!['[', 'I', 'm', 'a', 'g', 'e', ']']
    } else {
        alt
    }
}

/// The flow-document elements one block maps to.
pub open spec fn sp_docx_block(b: BlockModel) -> Seq<DocxBlockModel> {
    match b {
        BlockModel::Heading { level, children } => seq![
            DocxBlockModel::Para(
                ParaModel {
                    runs: children.map_values(|c: InlineModel| sp_heading_run(c, level)),
                    indent_left: None,
                    centered: false,
                },
            ),
        ],
        BlockModel::Paragraph { children } => seq![
            DocxBlockModel::Para(
                ParaModel { runs: sp_runs_of(children), indent_left: None, centered: false },
            ),
        ],
        BlockModel::UnorderedList { items } => Seq::new(
            items.len(),
            |i: int| DocxBlockModel::Para(
                ParaModel {
                    runs: seq![
                        sp_plain_run(seq!['\u{2022}', ' ', ' ']),
                    ] + sp_runs_of(items[i]),
                    indent_left: Some(720),
                    centered: false,
                },
            ),
        ),
        BlockModel::OrderedList { items } => Seq::new(
            items.len(),
            |i: int| DocxBlockModel::Para(
                ParaModel {
                    runs: seq![
                        sp_plain_run(crate::pdf::spec_decimal(i + 1) + seq!['.', ' ']),
                    ] + sp_runs_of(items[i]),
                    indent_left: Some(720),
                    centered: false,
                },
            ),
        ),
        BlockModel::Blockquote { children } => seq![
            DocxBlockModel::Para(
                ParaModel {
                    runs: children.map_values(|c: InlineModel| sp_quote_run(c)),
                    indent_left: Some(720),
                    centered: false,
                },
            ),
        ],
        BlockModel::CodeBlock { text } => crate::pdf::sp_src_lines(text).map_values(
            |line: Seq<char>| DocxBlockModel::Para(
                ParaModel {
                    runs: seq![
                        RunModel {
                            text: sp_xml_text(line),
                            bold: false,
                            italic: false,
                            underline: false,
                            font_ascii: Some(sp_courier()),
                            size: None,
                            image: None,
                        },
                    ],
                    indent_left: Some(360),
                    centered: false,
                },
            ),
        ),
        BlockModel::HorizontalRule => seq![
            DocxBlockModel::Para(
                ParaModel {
                    runs: seq![sp_plain_run(sp_hr_text())],
                    indent_left: None,
                    centered: false,
                },
            ),
        ],
        BlockModel::Table { rows } => {
            if rows.len() == 0 || sp_max_cols(rows, 0) == 0 {
                Seq::empty()
            } else {
                seq![
                    DocxBlockModel::Tbl(
                        Seq::new(
                            rows.len(),
                            |i: int| sp_padded_row(rows[i], sp_max_cols(rows, 0)),
                        ),
                    ),
                ]
            }
        },
        BlockModel::Image { src, alt } => {
            let caption = seq![
                DocxBlockModel::Para(
                    ParaModel {
                        runs: seq![
                            RunModel {
                                text: sp_xml_text(sp_image_caption(alt)),
                                bold: false,
                                italic: true,
                                underline: false,
                                font_ascii: None,
                                size: None,
                                image: None,
                            },
                        ],
                        indent_left: None,
                        centered: true,
                    },
                ),
            ];
            if crate::text::match_at(src, 0, sp_png_prefix()) || crate::text::match_at(
                src,
                0,
                sp_jpeg_prefix(),
            ) {
                match b64_decoded(sp_data_part(src)) {
                    Some(bytes) => caption + seq![
                        DocxBlockModel::Para(
                            ParaModel {
                                runs: seq![
                                    RunModel {
                                        text: Seq::empty(),
                                        bold: false,
                                        italic: false,
                                        underline: false,
                                        font_ascii: None,
                                        size: None,
                                        image: Some(
                                            PicModel {
                                                bytes,
                                                w_emu: (400 * 9525) as int,
                                                h_emu: (300 * 9525) as int,
                                            },
                                        ),
                                    },
                                ],
                                indent_left: None,
                                centered: true,
                            },
                        ),
                    ],
                    None => caption,
                }
            } else {
                caption
            }
        },
    }
}

/// The flow-document elements of a block sequence, in order.
pub open spec fn sp_docx_blocks(bs: Seq<BlockModel>) -> Seq<DocxBlockModel>
    decreases bs.len(),
{
    if bs.len() == 0 {
        Seq::empty()
    } else {
        sp_docx_block(bs[0]) + sp_docx_blocks(bs.drop_first())
    }
}

/// The title paragraph: the title in large bold type, centred.
pub open spec fn sp_title_para(title: Seq<char>) -> ParaModel {
    ParaModel {
        runs: seq![
            RunModel {
                text: sp_xml_text(title),
                bold: true,
                italic: false,
                underline: false,
                font_ascii: None,
                size: Some(48),
                image: None,
            },
        ],
        indent_left: None,
        centered: true,
    }
}

/// The whole flow document of an export: the centred title, a spacer
/// paragraph, then every parsed block in order.
pub open spec fn spec_build_docx(title: Seq<char>, html: Seq<char>) -> Seq<DocxBlockModel> {
    seq![
        DocxBlockModel::Para(sp_title_para(title)),
        DocxBlockModel::Para(sp_empty_para()),
    ] + sp_docx_blocks(crate::blocks::spec_parse_html(html))
}

/// The monospace font selection for code runs.
fn mono_fonts() -> (f: docx_rs::RunFonts)
    ensures
        fonts_model(f) == Some(sp_courier()),
{
    let mut cv: Vec<char> = Vec::new();
    cv.push('C');
    cv.push('o');
    cv.push('u');
    cv.push('r');
    cv.push('i');
    cv.push('e');
    cv.push('r');
    cv.push(' ');
    cv.push('N');
    cv.push('e');
    cv.push('w');
    let cs = crate::text::string_from(&cv);
    proof {
        assert(cs@ =~= sp_courier());
        assert(forall|k: int| 0 <= k < cs@.len() ==> cs@[k] != '\r');
    }
    fonts_ascii(fonts_new(), cs.as_str())
}

/// The run one styled text run maps to.
fn run_of_exec(c: &InlineNode) -> (r: docx_rs::Run)
    ensures
        run_model(r) == sp_run_of(c.model()),
{
    let mut run = run_add_text(run_new(), c.text.as_str());
    proof {
        assert(Seq::<char>::empty() + sp_xml_text(c.text@) =~= sp_xml_text(c.text@));
    }
    if c.bold {
        run = run_bold(run);
    }
    if c.italic {
        run = run_italic(run);
    }
    if c.underline {
        let mut sv: Vec<char> = Vec::new();
        sv.push('s');
        sv.push('i');
        sv.push('n');
        sv.push('g');
        sv.push('l');
        sv.push('e');
        let ss = crate::text::string_from(&sv);
        run = run_underline(run, ss.as_str());
    }
    if c.code {
        run = run_fonts(run, mono_fonts());
    }
    run
}

/// Appends the runs of a block to a paragraph.
fn add_inline_runs(p: docx_rs::Paragraph, children: &Vec<InlineNode>) -> (q: docx_rs::Paragraph)
    ensures
        para_model(q) == (ParaModel {
            runs: para_model(p).runs + sp_runs_of(inlines_model(children@)),
            indent_left: para_model(p).indent_left,
            centered: para_model(p).centered,
        }),
{
    let ghost base = para_model(p);
    let ghost m = inlines_model(children@);
    let mut cur = p;
    let mut k: usize = 0;
    proof {
        assert(sp_runs_of(m).take(0) =~= Seq::<RunModel>::empty());
        assert(base.runs + sp_runs_of(m).take(0) =~= base.runs);
    }
    while k < children.len()
        invariant
            0 <= k <= children@.len(),
            m == inlines_model(children@),
            para_model(cur) == (ParaModel {
                runs: base.runs + sp_runs_of(m).take(k as int),
                indent_left: base.indent_left,
                centered: base.centered,
            }),
        decreases children@.len() - k,
    {
        let run = run_of_exec(&children[k]);
        proof {
            assert(m[k as int] == children@[k as int].model());
            assert(sp_runs_of(m).take(k + 1) =~= sp_runs_of(m).take(k as int).push(
                sp_run_of(m[k as int]),
            ));
            assert(base.runs + sp_runs_of(m).take(k + 1) =~= (base.runs + sp_runs_of(m).take(
                k as int,
            )).push(sp_run_of(m[k as int])));
        }
        cur = para_add_run(cur, run);
        k += 1;
    }
    proof {
        assert(sp_runs_of(m).take(k as int) =~= sp_runs_of(m));
    }
    cur
}

/// The paragraph of a heading block: every run bold, sized by level.
fn heading_para(children: &Vec<InlineNode>, level: u8) -> (q: docx_rs::Paragraph)
    ensures
        para_model(q) == (ParaModel {
            runs: inlines_model(children@).map_values(
                |c: InlineModel| sp_heading_run(c, level),
            ),
            indent_left: None,
            centered: false,
        }),
{
    let hs: usize = if level == 1 {
        36
    } else if level == 2 {
        30
    } else if level == 3 {
        26
    } else {
        24
    };
    let ghost m = inlines_model(children@);
    let ghost target = m.map_values(|c: InlineModel| sp_heading_run(c, level));
    let mut cur = para_new();
    let mut k: usize = 0;
    proof {
        assert(target.take(0) =~= Seq::<RunModel>::empty());
        assert(Seq::<RunModel>::empty() + target.take(0) =~= Seq::<RunModel>::empty());
    }
    while k < children.len()
        invariant
            0 <= k <= children@.len(),
            m == inlines_model(children@),
            target == m.map_values(|c: InlineModel| sp_heading_run(c, level)),
            hs == sp_heading_pts(level),
            para_model(cur) == (ParaModel {
                runs: target.take(k as int),
                indent_left: None,
                centered: false,
            }),
        decreases children@.len() - k,
    {
        let c = &children[k];
        let mut run = run_size(run_bold(run_add_text(run_new(), c.text.as_str())), hs * 2);
        if c.italic {
            run = run_italic(run);
        }
        if c.underline {
            let mut sv: Vec<char> = Vec::new();
            sv.push('s');
            sv.push('i');
            sv.push('n');
            sv.push('g');
            sv.push('l');
            sv.push('e');
            let ss = crate::text::string_from(&sv);
            run = run_underline(run, ss.as_str());
        }
        proof {
            assert(m[k as int] == children@[k as int].model());
            assert(Seq::<char>::empty() + sp_xml_text(c.text@) =~= sp_xml_text(c.text@));
            assert(run_model(run) == sp_heading_run(m[k as int], level));
            assert(target.take(k + 1) =~= target.take(k as int).push(
                sp_heading_run(m[k as int], level),
            ));
        }
        cur = para_add_run(cur, run);
        k += 1;
    }
    proof {
        assert(target.take(k as int) =~= target);
    }
    cur
}

/// The paragraph of a blockquote block: every run italic, indented.
fn quote_para(children: &Vec<InlineNode>) -> (q: docx_rs::Paragraph)
    ensures
        para_model(q) == (ParaModel {
            runs: inlines_model(children@).map_values(|c: InlineModel| sp_quote_run(c)),
            indent_left: Some(720),
            centered: false,
        }),
{
    let ghost m = inlines_model(children@);
    let ghost target = m.map_values(|c: InlineModel| sp_quote_run(c));
    let mut cur = para_indent_left(para_new(), 720);
    let mut k: usize = 0;
    proof {
        assert(target.take(0) =~= Seq::<RunModel>::empty());
    }
    while k < children.len()
        invariant
            0 <= k <= children@.len(),
            m == inlines_model(children@),
            target == m.map_values(|c: InlineModel| sp_quote_run(c)),
            para_model(cur) == (ParaModel {
                runs: target.take(k as int),
                indent_left: Some(720),
                centered: false,
            }),
        decreases children@.len() - k,
    {
        let c = &children[k];
        let mut run = run_italic(run_add_text(run_new(), c.text.as_str()));
        if c.bold {
            run = run_bold(run);
        }
        proof {
            assert(m[k as int] == children@[k as int].model());
            assert(Seq::<char>::empty() + sp_xml_text(c.text@) =~= sp_xml_text(c.text@));
            assert(run_model(run) == sp_quote_run(m[k as int]));
            assert(target.take(k + 1) =~= target.take(k as int).push(sp_quote_run(m[k as int])));
        }
        cur = para_add_run(cur, run);
        k += 1;
    }
    proof {
        assert(target.take(k as int) =~= target);
    }
    cur
}

/// Builds the flow document's object graph for an export: the centred
/// title, a spacer, then every parsed block.
#[verifier::rlimit(100)]
pub fn build_docx_document(title: &str, html: &str) -> (d: docx_rs::Docx)
    ensures
        docx_model(d) == spec_build_docx(title@, html@),
{
    let mut d = docx_new();
    let tpara = para_align_center(
        para_add_run(para_new(), run_size(run_bold(run_add_text(run_new(), title)), 48)),
    );
    proof {
        assert(Seq::<char>::empty() + sp_xml_text(title@) =~= sp_xml_text(title@));
        assert(para_model(tpara) == sp_title_para(title@));
    }
    d = docx_add_paragraph(d, tpara);
    d = docx_add_paragraph(d, para_new());
    let ghost dm0 = docx_model(d);
    proof {
        assert(dm0 =~= seq![
            DocxBlockModel::Para(sp_title_para(title@)),
            DocxBlockModel::Para(sp_empty_para()),
        ]);
    }
    let hcs = crate::text::chars_of(html);
    let nodes = crate::blocks::parse_html_chars(&hcs);
    let ghost bm = blocks_model(nodes@);
    proof {
        assert(bm == crate::blocks::spec_parse_html(html@));
        assert(bm.skip(0) =~= bm);
        assert(dm0 + sp_docx_blocks(bm.skip(0)) =~= dm0 + sp_docx_blocks(bm));
    }
    let mut bi: usize = 0;
    while bi < nodes.len()
        invariant
            0 <= bi <= nodes@.len(),
            bm == blocks_model(nodes@),
            dm0 == seq![
                DocxBlockModel::Para(sp_title_para(title@)),
                DocxBlockModel::Para(sp_empty_para()),
            ],
            dm0 + sp_docx_blocks(bm) =~= docx_model(d) + sp_docx_blocks(bm.skip(bi as int)),
        decreases nodes@.len() - bi,
    {
        let ghost dprev = docx_model(d);
        proof {
            assert(bm.skip(bi as int)[0] == bm[bi as int]);
            assert(bm.skip(bi as int).drop_first() =~= bm.skip(bi + 1));
            assert(bm[bi as int] == nodes@[bi as int].model());
            assert(sp_docx_blocks(bm.skip(bi as int)) == sp_docx_block(bm[bi as int])
                + sp_docx_blocks(bm.skip(bi + 1)));
        }
        let nd = &nodes[bi];
        match nd {
            HtmlNode::Heading { level, children } => {
                let p = heading_para(children, *level);
                d = docx_add_paragraph(d, p);
                proof {
                    assert(docx_model(d) =~= dprev + sp_docx_block(bm[bi as int]));
                }
            },
            HtmlNode::Paragraph { children } => {
                let p = add_inline_runs(para_new(), children);
                proof {
                    assert(Seq::<RunModel>::empty() + sp_runs_of(inlines_model(children@))
                        =~= sp_runs_of(inlines_model(children@)));
                }
                d = docx_add_paragraph(d, p);
                proof {
                    assert(docx_model(d) =~= dprev + sp_docx_block(bm[bi as int]));
                }
            },
            HtmlNode::UnorderedList { items } => {
                let ghost im = crate::blocks::items_model(items@);
                let ghost ulspec = sp_docx_block(bm[bi as int]);
                let ghost dentry = docx_model(d);
                let mut ii: usize = 0;
                proof {
                    assert(ulspec.take(0) =~= Seq::<DocxBlockModel>::empty());
                    assert(dentry + ulspec.take(0) =~= dentry);
                }
                while ii < items.len()
                    invariant
                        0 <= ii <= items@.len(),
                        im == crate::blocks::items_model(items@),
                        ulspec == sp_docx_block(bm[bi as int]),
                        bm[bi as int] == (BlockModel::UnorderedList { items: im }),
                        ulspec.len() == items@.len(),
                        docx_model(d) =~= dentry + ulspec.take(ii as int),
                    decreases items@.len() - ii,
                {
                    let mut bv: Vec<char> = Vec::new();
                    bv.push('\u{2022}');
                    bv.push(' ');
                    bv.push(' ');
                    let bstr = crate::text::string_from(&bv);
                    let brun = run_add_text(run_new(), bstr.as_str());
                    let mut p = para_add_run(para_new(), brun);
                    p = add_inline_runs(p, &items[ii]);
                    p = para_indent_left(p, 720);
                    proof {
                        assert(im[ii as int] == inlines_model(items@[ii as int]@));
                        assert(bstr@ =~= seq!['\u{2022}', ' ', ' ']);
                        assert(Seq::<char>::empty() + sp_xml_text(bstr@) =~= sp_xml_text(seq![
                            '\u{2022}',
                            ' ',
                            ' ',
                        ]));
                        assert(run_model(brun) == sp_plain_run(seq!['\u{2022}', ' ', ' ']));
                        assert(Seq::<RunModel>::empty().push(run_model(brun)) + sp_runs_of(
                            im[ii as int],
                        ) =~= seq![sp_plain_run(seq!['\u{2022}', ' ', ' '])] + sp_runs_of(
                            im[ii as int],
                        ));
                        assert(ulspec[ii as int] == DocxBlockModel::Para(
                            ParaModel {
                                runs: seq![
                                    sp_plain_run(seq!['\u{2022}', ' ', ' ']),
                                ] + sp_runs_of(im[ii as int]),
                                indent_left: Some(720),
                                centered: false,
                            },
                        ));
                        assert(ulspec.take(ii + 1) =~= ulspec.take(ii as int).push(
                            ulspec[ii as int],
                        ));
                    }
                    d = docx_add_paragraph(d, p);
                    proof {
                        assert(docx_model(d) =~= dentry + ulspec.take(ii + 1));
                    }
                    ii += 1;
                }
                proof {
                    assert(ulspec.take(ii as int) =~= ulspec);
                    assert(docx_model(d) =~= dprev + sp_docx_block(bm[bi as int]));
                }
            },
            HtmlNode::OrderedList { items } => {
                let ghost im = crate::blocks::items_model(items@);
                let ghost olspec = sp_docx_block(bm[bi as int]);
                let ghost dentry = docx_model(d);
                let mut ii: usize = 0;
                proof {
                    assert(olspec.take(0) =~= Seq::<DocxBlockModel>::empty());
                    assert(dentry + olspec.take(0) =~= dentry);
                }
                while ii < items.len()
                    invariant
                        0 <= ii <= items@.len(),
                        im == crate::blocks::items_model(items@),
                        olspec == sp_docx_block(bm[bi as int]),
                        bm[bi as int] == (BlockModel::OrderedList { items: im }),
                        olspec.len() == items@.len(),
                        docx_model(d) =~= dentry + olspec.take(ii as int),
                    decreases items@.len() - ii,
                {
                    let mut num = crate::pdf::fmt_u64((ii + 1) as u64);
                    crate::text::push_char(&mut num, '.');
                    crate::text::push_char(&mut num, ' ');
                    let nrun = run_add_text(run_new(), num.as_str());
                    let mut p = para_add_run(para_new(), nrun);
                    p = add_inline_runs(p, &items[ii]);
                    p = para_indent_left(p, 720);
                    proof {
                        assert(im[ii as int] == inlines_model(items@[ii as int]@));
                        assert(num@ =~= crate::pdf::spec_decimal(ii + 1) + seq!['.', ' ']);
                        assert(Seq::<char>::empty() + sp_xml_text(num@) =~= sp_xml_text(
                            crate::pdf::spec_decimal(ii + 1) + seq!['.', ' '],
                        ));
                        assert(run_model(nrun) == sp_plain_run(
                            crate::pdf::spec_decimal(ii + 1) + seq!['.', ' '],
                        ));
                        assert(Seq::<RunModel>::empty().push(run_model(nrun)) + sp_runs_of(
                            im[ii as int],
                        ) =~= seq![
                            sp_plain_run(crate::pdf::spec_decimal(ii + 1) + seq!['.', ' ']),
                        ] + sp_runs_of(im[ii as int]));
                        assert(olspec[ii as int] == DocxBlockModel::Para(
                            ParaModel {
                                runs: seq![
                                    sp_plain_run(
                                        crate::pdf::spec_decimal(ii + 1) + seq!['.', ' '],
                                    ),
                                ] + sp_runs_of(im[ii as int]),
                                indent_left: Some(720),
                                centered: false,
                            },
                        ));
                        assert(olspec.take(ii + 1) =~= olspec.take(ii as int).push(
                            olspec[ii as int],
                        ));
                    }
                    d = docx_add_paragraph(d, p);
                    proof {
                        assert(docx_model(d) =~= dentry + olspec.take(ii + 1));
                    }
                    ii += 1;
                }
                proof {
                    assert(olspec.take(ii as int) =~= olspec);
                    assert(docx_model(d) =~= dprev + sp_docx_block(bm[bi as int]));
                }
            },
            HtmlNode::Blockquote { children } => {
                let p = quote_para(children);
                d = docx_add_paragraph(d, p);
                proof {
                    assert(docx_model(d) =~= dprev + sp_docx_block(bm[bi as int]));
                }
            },
            HtmlNode::CodeBlock { text } => {
                let tcs = crate::text::chars_of(text.as_str());
                let lines = crate::pdf::split_src_lines(&tcs);
                let ghost lm = lines@.map_values(|l: Vec<char>| l@);
                let ghost cbspec = sp_docx_block(bm[bi as int]);
                let ghost dentry = docx_model(d);
                let mut li: usize = 0;
                proof {
                    assert(lm == crate::pdf::sp_src_lines(text@));
                    assert(cbspec.len() == lm.len());
                    assert(cbspec.take(0) =~= Seq::<DocxBlockModel>::empty());
                    assert(dentry + cbspec.take(0) =~= dentry);
                }
                while li < lines.len()
                    invariant
                        0 <= li <= lines@.len(),
                        lm == lines@.map_values(|l: Vec<char>| l@),
                        cbspec == sp_docx_block(bm[bi as int]),
                        bm[bi as int] == (BlockModel::CodeBlock { text: text@ }),
                        lm == crate::pdf::sp_src_lines(text@),
                        cbspec.len() == lines@.len(),
                        docx_model(d) =~= dentry + cbspec.take(li as int),
                    decreases lines@.len() - li,
                {
                    let lstr = crate::text::string_from(&lines[li]);
                    let run = run_fonts(run_add_text(run_new(), lstr.as_str()), mono_fonts());
                    let p = para_indent_left(para_add_run(para_new(), run), 360);
                    proof {
                        assert(lm[li as int] == lines@[li as int]@);
                        assert(Seq::<char>::empty() + sp_xml_text(lstr@) =~= sp_xml_text(
                            lm[li as int],
                        ));
                        assert(run_model(run) == (RunModel {
                            text: sp_xml_text(lm[li as int]),
                            bold: false,
                            italic: false,
                            underline: false,
                            font_ascii: Some(sp_courier()),
                            size: None,
                            image: None,
                        }));
                        assert(cbspec[li as int] == DocxBlockModel::Para(
                            ParaModel {
                                runs: seq![run_model(run)],
                                indent_left: Some(360),
                                centered: false,
                            },
                        ));
                        assert(Seq::<RunModel>::empty().push(run_model(run)) =~= seq![
                            run_model(run),
                        ]);
                        assert(cbspec.take(li + 1) =~= cbspec.take(li as int).push(
                            cbspec[li as int],
                        ));
                    }
                    d = docx_add_paragraph(d, p);
                    proof {
                        assert(docx_model(d) =~= dentry + cbspec.take(li + 1));
                    }
                    li += 1;
                }
                proof {
                    assert(cbspec.take(li as int) =~= cbspec);
                    assert(docx_model(d) =~= dprev + sp_docx_block(bm[bi as int]));
                }
            },
            HtmlNode::HorizontalRule => {
                let mut uv: Vec<char> = Vec::new();
                let mut k: usize = 0;
                while k < 40
                    invariant
                        0 <= k <= 40,
                        uv@.len() == k,
                        forall|j: int| 0 <= j < k ==> uv@[j] == '_',
                    decreases 40 - k,
                {
                    uv.push('_');
                    k += 1;
                }
                let ustr = crate::text::string_from(&uv);
                let run = run_add_text(run_new(), ustr.as_str());
                let p = para_add_run(para_new(), run);
                proof {
                    assert(ustr@ =~= sp_hr_text());
                    assert(Seq::<char>::empty() + sp_xml_text(ustr@) =~= sp_xml_text(
                        sp_hr_text(),
                    ));
                    assert(run_model(run) == sp_plain_run(sp_hr_text()));
                    assert(Seq::<RunModel>::empty().push(run_model(run)) =~= seq![
                        sp_plain_run(sp_hr_text()),
                    ]);
                }
                d = docx_add_paragraph(d, p);
                proof {
                    assert(docx_model(d) =~= dprev + sp_docx_block(bm[bi as int]));
                }
            },
            HtmlNode::Table { rows } => {
                let ghost rm = crate::blocks::rows_model(rows@);
                proof {
                    assert(bm[bi as int] == (BlockModel::Table { rows: rm }));
                    assert(rm.len() == rows@.len());
                }
                let mut ncols: usize = 0;
                let mut k: usize = rows.len();
                proof {
                    assert(sp_max_cols(rm, k as int) == 0);
                }
                while k > 0
                    invariant
                        0 <= k <= rows@.len(),
                        rm == crate::blocks::rows_model(rows@),
                        ncols == sp_max_cols(rm, k as int),
                    decreases k,
                {
                    k -= 1;
                    proof {
                        assert(rm[k as int] == crate::blocks::items_model(rows@[k as int]@));
                        assert(rm[k as int].len() == rows@[k as int]@.len());
                    }
                    if rows[k].len() > ncols {
                        ncols = rows[k].len();
                    }
                }
                if rows.len() == 0 || ncols == 0 {
                    proof {
                        assert(sp_docx_block(bm[bi as int]) =~= Seq::<DocxBlockModel>::empty());
                        assert(docx_model(d) + Seq::<DocxBlockModel>::empty() =~= docx_model(d));
                        assert(docx_model(d) =~= dprev + sp_docx_block(bm[bi as int]));
                    }
                } else {
                    let mut t = table_new();
                    let ghost tspec = Seq::new(
                        rm.len(),
                        |i: int| sp_padded_row(rm[i], sp_max_cols(rm, 0)),
                    );
                    let mut ri: usize = 0;
                    proof {
                        assert(table_model(t) =~= tspec.take(0));
                    }
                    while ri < rows.len()
                        invariant
                            0 <= ri <= rows@.len(),
                            rm == crate::blocks::rows_model(rows@),
                            ncols == sp_max_cols(rm, 0),
                            ncols >= 1,
                            tspec == Seq::new(
                                rm.len(),
                                |i: int| sp_padded_row(rm[i], sp_max_cols(rm, 0)),
                            ),
                            table_model(t) =~= tspec.take(ri as int),
                        decreases rows@.len() - ri,
                    {
                        let row = &rows[ri];
                        let mut cells: Vec<docx_rs::TableCell> = Vec::new();
                        let mut ci: usize = 0;
                        proof {
                            assert(rm[ri as int] == crate::blocks::items_model(rows@[ri as int]@));
                        }
                        while ci < ncols
                            invariant
                                0 <= ci <= ncols,
                                rm == crate::blocks::rows_model(rows@),
                                0 <= ri < rows@.len(),
                                row == &rows@[ri as int],
                                rm[ri as int] == crate::blocks::items_model(rows@[ri as int]@),
                                cells@.len() == ci,
                                forall|j: int|
                                    0 <= j < ci ==> cell_model(cells@[j]) == sp_padded_row(
                                        rm[ri as int],
                                        ncols as int,
                                    )[j],
                            decreases ncols - ci,
                        {
                            let cell: docx_rs::TableCell = if ci < row.len() {
                                let p = add_inline_runs(para_new(), &row[ci]);
                                proof {
                                    assert(rm[ri as int][ci as int] == inlines_model(
                                        rows@[ri as int]@[ci as int]@,
                                    ));
                                    assert(Seq::<RunModel>::empty() + sp_runs_of(
                                        rm[ri as int][ci as int],
                                    ) =~= sp_runs_of(rm[ri as int][ci as int]));
                                }
                                cell_add_paragraph(cell_new(), p)
                            } else {
                                cell_add_paragraph(cell_new(), para_new())
                            };
                            proof {
                                assert(cell_model(cell) =~= sp_padded_row(
                                    rm[ri as int],
                                    ncols as int,
                                )[ci as int]);
                            }
                            cells.push(cell);
                            ci += 1;
                        }
                        let tr = trow_new(cells);
                        proof {
                            assert(trow_model(tr) =~= sp_padded_row(rm[ri as int], ncols as int));
                            assert(tspec[ri as int] == sp_padded_row(rm[ri as int], ncols as int));
                            assert(tspec.take(ri + 1) =~= tspec.take(ri as int).push(
                                tspec[ri as int],
                            ));
                        }
                        t = table_add_row(t, tr);
                        ri += 1;
                    }
                    proof {
                        assert(tspec.take(ri as int) =~= tspec);
                        assert(sp_docx_block(bm[bi as int]) =~= seq![DocxBlockModel::Tbl(tspec)]);
                    }
                    d = docx_add_table(d, t);
                    proof {
                        assert(docx_model(d) =~= dprev + sp_docx_block(bm[bi as int]));
                    }
                }
            },
            HtmlNode::Image { src, alt } => {
                let display: String = if alt.as_str().is_empty() {
                    let mut dv: Vec<char> = Vec::new();
                    dv.push('[');
                    dv.push('I');
                    dv.push('m');
                    dv.push('a');
                    dv.push('g');
                    dv.push('e');
                    dv.push(']');
                    crate::text::string_from(&dv)
                } else {
                    alt.clone()
                };
                proof {
                    assert(display@ =~= sp_image_caption(alt@));
                }
                let crun = run_italic(run_add_text(run_new(), display.as_str()));
                let cp = para_align_center(para_add_run(para_new(), crun));
                proof {
                    assert(Seq::<char>::empty() + sp_xml_text(display@) =~= sp_xml_text(
                        sp_image_caption(alt@),
                    ));
                    assert(Seq::<RunModel>::empty().push(run_model(crun)) =~= seq![
                        run_model(crun),
                    ]);
                }
                d = docx_add_paragraph(d, cp);
                let scs = crate::text::chars_of(src.as_str());
                let png_pat: &[char] = &[
                    'd', 'a', 't', 'a', ':', 'i', 'm', 'a', 'g', 'e', '/', 'p', 'n', 'g', ';',
                    'b', 'a', 's', 'e', '6', '4', ',',
                ];
                let jpeg_pat: &[char] = &[
                    'd', 'a', 't', 'a', ':', 'i', 'm', 'a', 'g', 'e', '/', 'j', 'p', 'e', 'g',
                    ';', 'b', 'a', 's', 'e', '6', '4', ',',
                ];
                let is_png = crate::text::match_at_exec(&scs, 0, png_pat);
                let is_jpeg = crate::text::match_at_exec(&scs, 0, jpeg_pat);
                proof {
                    assert(png_pat@ =~= sp_png_prefix());
                    assert(jpeg_pat@ =~= sp_jpeg_prefix());
                }
                if is_png || is_jpeg {
                    proof {
                        if is_png {
                            assert(scs@[21] == ',');
                            crate::scan::lemma_scan_to_finds(scs@, 0, ',', 21);
                        } else {
                            assert(scs@[22] == ',');
                            crate::scan::lemma_scan_to_finds(scs@, 0, ',', 22);
                        }
                    }
                    let j = crate::scan::scan_to_exec(&scs, 0, ',');
                    let j2 = crate::scan::scan_to_exec(&scs, j + 1, ',');
                    let part = crate::text::string_from(&crate::text::sub_vec(&scs, j + 1, j2));
                    proof {
                        assert(part@ == sp_data_part(src@));
                    }
                    match b64_decode(part.as_str()) {
                        Ok(bytes) => {
                            let pic = pic_new_px(&bytes, 400, 300);
                            let irun = run_add_image(run_new(), pic);
                            let ip = para_align_center(para_add_run(para_new(), irun));
                            proof {
                                assert(run_model(irun) == (RunModel {
                                    text: Seq::empty(),
                                    bold: false,
                                    italic: false,
                                    underline: false,
                                    font_ascii: None,
                                    size: None,
                                    image: Some(
                                        PicModel { bytes: bytes@, w_emu: (400 * 9525) as int, h_emu: (300 * 9525) as int },
                                    ),
                                }));
                                assert(Seq::<RunModel>::empty().push(run_model(irun)) =~= seq![
                                    run_model(irun),
                                ]);
                            }
                            d = docx_add_paragraph(d, ip);
                            proof {
                                assert(docx_model(d) =~= dprev + sp_docx_block(bm[bi as int]));
                            }
                        },
                        Err(_) => {
                            proof {
                                assert(sp_docx_block(bm[bi as int]).len() == 1);
                                assert(docx_model(d) =~= dprev + sp_docx_block(bm[bi as int]));
                            }
                        },
                    }
                } else {
                    proof {
                        assert(docx_model(d) =~= dprev + sp_docx_block(bm[bi as int]));
                    }
                }
            },
        }
        proof {
            assert(docx_model(d) + sp_docx_blocks(bm.skip(bi + 1)) =~= dprev + (sp_docx_block(
                bm[bi as int],
            ) + sp_docx_blocks(bm.skip(bi + 1))));
        }
        bi += 1;
    }
    proof {
        assert(sp_docx_blocks(bm.skip(bi as int)).len() == 0);
        assert(docx_model(d) + sp_docx_blocks(bm.skip(bi as int)) =~= docx_model(d));
        assert(docx_model(d) =~= spec_build_docx(title@, html@));
    }
    d
}

/// Builds and serializes the flow document of an export.  The object
/// graph handed to the packer is pinned down by
/// [`build_docx_document`]; only the archive writing itself can fail.
pub fn build_docx(title: &str, html: &str) -> (r: Result<Vec<u8>, String>)
    ensures
        r is Ok ==> r->Ok_0@.len() > 0,
{
    let d = build_docx_document(title, html);
    docx_pack(d)
}

/// Image embedding law: an image whose source is a base64 PNG or JPEG
/// data URI with a well-formed payload maps to its caption paragraph
/// followed by a centred paragraph embedding the decoded bytes; any
/// other source maps to the caption alone.
pub proof fn lemma_image_embedding(src: Seq<char>, alt: Seq<char>)
    ensures
        (crate::text::match_at(src, 0, sp_png_prefix()) || crate::text::match_at(
            src,
            0,
            sp_jpeg_prefix(),
        )) && b64_decoded(sp_data_part(src)) is Some ==> sp_docx_block(
            BlockModel::Image { src, alt },
        ).len() == 2 && sp_docx_block(BlockModel::Image { src, alt })[1] == (DocxBlockModel::Para(
            ParaModel {
                runs: seq![
                    RunModel {
                        text: Seq::empty(),
                        bold: false,
                        italic: false,
                        underline: false,
                        font_ascii: None,
                        size: None,
                        image: Some(
                            PicModel {
                                bytes: b64_decoded(sp_data_part(src))->Some_0,
                                w_emu: (400 * 9525) as int,
                                h_emu: (300 * 9525) as int,
                            },
                        ),
                    },
                ],
                indent_left: None,
                centered: true,
            },
        )),
        !(crate::text::match_at(src, 0, sp_png_prefix()) || crate::text::match_at(
            src,
            0,
            sp_jpeg_prefix(),
        )) ==> sp_docx_block(BlockModel::Image { src, alt }) == seq![
            DocxBlockModel::Para(
                ParaModel {
                    runs: seq![
                        RunModel {
                            text: sp_xml_text(sp_image_caption(alt)),
                            bold: false,
                            italic: true,
                            underline: false,
                            font_ascii: None,
                            size: None,
                            image: None,
                        },
                    ],
                    indent_left: None,
                    centered: true,
                },
            ),
        ],
{
}

/// Table padding law: every row of the flow-document table an uneven
/// table maps to has exactly the greatest cell count, short rows padded
/// with empty cells.
pub proof fn lemma_table_padding(cells: Seq<Seq<InlineModel>>, ncols: int)
    requires
        0 <= cells.len() <= ncols,
    ensures
        sp_padded_row(cells, ncols).len() == ncols,
        forall|j: int|
            cells.len() <= j < ncols ==> sp_padded_row(cells, ncols)[j] == seq![sp_empty_para()],
        forall|j: int|
            0 <= j < cells.len() ==> sp_padded_row(cells, ncols)[j] == seq![
                ParaModel { runs: sp_runs_of(cells[j]), indent_left: None, centered: false },
            ],
{
}

/// Table block law: a table with rows and at least one cell somewhere
/// maps to one table element whose every row holds exactly the greatest
/// cell count; a table with no rows or no cells is omitted.
pub proof fn lemma_table_block(rows: Seq<Seq<Seq<InlineModel>>>)
    ensures
        rows.len() == 0 || sp_max_cols(rows, 0) == 0 ==> sp_docx_block(
            BlockModel::Table { rows },
        ) == Seq::<DocxBlockModel>::empty(),
        rows.len() > 0 && sp_max_cols(rows, 0) > 0 ==> {
            let b = sp_docx_block(BlockModel::Table { rows });
            &&& b.len() == 1
            &&& b[0] is Tbl
            &&& b[0]->Tbl_0.len() == rows.len()
            &&& forall|i: int|
                0 <= i < rows.len() ==> #[trigger] b[0]->Tbl_0[i].len() == sp_max_cols(rows, 0)
        },
{
    if rows.len() == 0 || sp_max_cols(rows, 0) == 0 {
        assert(sp_docx_block(BlockModel::Table { rows }) =~= Seq::<DocxBlockModel>::empty());
    }
}

} // verus!
