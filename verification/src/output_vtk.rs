//! VTK XML unstructured-grid output (`mesh.vtu`), written with `quick-xml`.
//!
//! The document is first built as a sequence of [`XmlEvent`]s — declaration,
//! nested elements and the ASCII data blocks — and then rendered by
//! `quick_xml::Writer` with two-space indentation.  Point coordinates are
//! floating-point and are formatted by the caller, one `"x y"` text per node.
use vstd::prelude::*;

use quick_xml::events::{BytesDecl, BytesEnd, BytesStart, BytesText, Event};

use crate::error::MeshError;
use crate::output_text::push_usize_field;
use crate::scanline_rasterizer::QuadMesh;
use crate::text::{nat_text, int_text, push_int, push_nat, push_str, string_of};

verus! {

/// One event of an XML document.
#[derive(Debug, Clone)]
pub enum XmlEvent {
    /// `<?xml version="1.0" encoding="UTF-8"?>`
    Decl,
    /// Character data (escaped when written).
    Text(String),
    /// An opening tag with its attributes in order.
    Start { name: String, attrs: Vec<(String, String)> },
    /// A closing tag.
    End(String),
}

/// What an XML event holds.
pub enum XmlView {
    Decl,
    Text(Seq<char>),
    Start(Seq<char>, Seq<(Seq<char>, Seq<char>)>),
    End(Seq<char>),
}

pub open spec fn xml_view(e: XmlEvent) -> XmlView {
    match e {
        XmlEvent::Decl => XmlView::Decl,
        XmlEvent::Text(t) => XmlView::Text(t@),
        XmlEvent::Start { name, attrs } => XmlView::Start(
            name@,
            attrs@.map_values(|a: (String, String)| (a.0@, a.1@)),
        ),
        XmlEvent::End(n) => XmlView::End(n@),
    }
}

pub open spec fn xml_views(v: Seq<XmlEvent>) -> Seq<XmlView> {
    v.map_values(|e: XmlEvent| xml_view(e))
}

// ---------------------------------------------------------------------------
// quick-xml
// ---------------------------------------------------------------------------

/// `quick_xml::Writer`, the XML serializer.
#[verifier::external_type_specification]
#[verifier::external_body]
#[verifier::reject_recursive_types(W)]
pub struct ExXmlWriter<W>(quick_xml::Writer<W>);

/// `quick_xml::Error`, the serializer's error.
#[verifier::external_type_specification]
#[verifier::external_body]
pub struct ExXmlError(quick_xml::Error);

/// The events a writer holds, in the order they were written.
pub uninterp spec fn xml_document(w: quick_xml::Writer<Vec<u8>>) -> Seq<XmlView>;

/// The bytes that `quick_xml::Writer::new_with_indent(_, b' ', 2)` produces
/// for a sequence of events.
pub uninterp spec fn xml_render(events: Seq<XmlView>) -> Seq<u8>;

/// Calls `quick_xml::Writer::new_with_indent(Vec::new(), b' ', 2)`: a writer
/// into an empty buffer, indenting nested tags by two spaces.  It holds no
/// events.
#[verifier::external_body]
fn xml_writer() -> (w: quick_xml::Writer<Vec<u8>>)
    ensures
        xml_document(w) == Seq::<XmlView>::empty(),
{
    quick_xml::Writer::new_with_indent(Vec::new(), b' ', 2)
}

/// Calls `quick_xml::Writer::write_event` with the `quick_xml` event that
/// `e` describes (`BytesDecl::new("1.0", Some("UTF-8"), None)`,
/// `BytesText::new`, `BytesStart::new(..).with_attributes(..)`,
/// `BytesEnd::new`).  The writer fails only when writing to its sink
/// fails, and writing to a `Vec<u8>` does not fail, so the call succeeds
/// and the writer holds one more event, `e`.
#[verifier::external_body]
fn write_xml_event(w: &mut quick_xml::Writer<Vec<u8>>, e: &XmlEvent) -> (r: Result<(), quick_xml::Error>)
    ensures
        r is Ok,
        xml_document(*final(w)) == xml_document(*old(w)).push(xml_view(*e)),
{
    match e {
        XmlEvent::Decl => w.write_event(Event::Decl(BytesDecl::new("1.0", Some("UTF-8"), None))),
        XmlEvent::Text(t) => w.write_event(Event::Text(BytesText::new(t.as_str()))),
        XmlEvent::Start { name, attrs } => w.write_event(Event::Start(
            BytesStart::new(name.as_str()).with_attributes(attrs.iter().map(|(k, v)| (k.as_str(), v.as_str()))),
        )),
        XmlEvent::End(n) => w.write_event(Event::End(BytesEnd::new(n.as_str()))),
    }
}

/// Calls `quick_xml::Writer::into_inner`: the bytes written, which are the
/// rendering of the events the writer holds.
#[verifier::external_body]
fn xml_bytes(w: quick_xml::Writer<Vec<u8>>) -> (b: Vec<u8>)
    ensures
        b@ == xml_render(xml_document(w)),
{
    w.into_inner()
}

/// Converts a `quick_xml::Error` into an I/O error carrying its message
/// (`std::io::Error::other(e.to_string())`).
#[verifier::external_body]
fn xml_error_to_io(e: quick_xml::Error) -> std::io::Error {
    std::io::Error::other(e.to_string())
}

/// Renders a document with `quick-xml` into memory. Writing to memory does
/// not fail, so the result is always `Ok` with the rendering of the events;
/// the `Result` keeps the writer's error path, mapped to [`MeshError::Io`].
pub fn render_xml(events: &Vec<XmlEvent>) -> (r: Result<Vec<u8>, MeshError>)
    ensures
        r is Ok && r->Ok_0@ == xml_render(xml_views(events@)),
{
    let mut w = xml_writer();
    let mut k: usize = 0;
    while k < events.len()
        invariant
            k <= events@.len(),
            xml_document(w) == xml_views(events@.take(k as int)),
        decreases events.len() - k,
    {
        match write_xml_event(&mut w, &events[k]) {
            Ok(()) => {},
            Err(e) => return Err(MeshError::Io(xml_error_to_io(e))),
        }
        proof {
            assert(xml_views(events@.take(k + 1)) =~= xml_views(events@.take(k as int)).push(
                xml_view(events@[k as int]),
            ));
        }
        k = k + 1;
    }
    proof {
        assert(events@.take(events@.len() as int) == events@);
    }
    Ok(xml_bytes(w))
}

// ---------------------------------------------------------------------------
// The VTU document
// ---------------------------------------------------------------------------

/// Indentation of a data line.
pub open spec fn data_indent() -> Seq<char> {
    "          "@
}

/// A data block: a newline, one indented line per item, and the indentation
/// of the closing tag.
pub open spec fn data_block(items: Seq<Seq<char>>) -> Seq<char> {
    "\n"@ + block_lines(items, items.len()) + "        "@
}

pub open spec fn block_lines(items: Seq<Seq<char>>, k: nat) -> Seq<char>
    decreases k,
{
    if k == 0 {
        seq![]
    } else {
        block_lines(items, (k - 1) as nat) + data_indent() + items[k - 1] + "\n"@
    }
}

/// Connectivity item of an element: its four node numbers, 0-based.
pub open spec fn connectivity_item(el: [usize; 4]) -> Seq<char> {
    nat_text((el@[0] - 1) as nat) + " "@ + nat_text((el@[1] - 1) as nat) + " "@ + nat_text(
        (el@[2] - 1) as nat,
    ) + " "@ + nat_text((el@[3] - 1) as nat)
}

pub open spec fn attr(k: Seq<char>, v: Seq<char>) -> (Seq<char>, Seq<char>) {
    (k, v)
}

pub open spec fn data_array(ty: Seq<char>, name: Seq<char>) -> XmlView {
    XmlView::Start(
        "DataArray"@,
        seq![attr("type"@, ty), attr("Name"@, name), attr("format"@, "ascii"@)],
    )
}

/// The events of the VTU document of a mesh whose node `k` has coordinate
/// text `points[k]`.
pub open spec fn vtu_events(points: Seq<Seq<char>>, elements: Seq<[usize; 4]>, tags: Seq<i32>) -> Seq<XmlView> {
    let end_da = XmlView::End("DataArray"@);
    seq![
        XmlView::Decl,
        XmlView::Text("\n"@),
        XmlView::Start(
            "VTKFile"@,
            seq![
                attr("type"@, "UnstructuredGrid"@),
                attr("version"@, "0.1"@),
                attr("byte_order"@, "LittleEndian"@),
            ],
        ),
        XmlView::Start("UnstructuredGrid"@, seq![]),
        XmlView::Start(
            "Piece"@,
            seq![
                attr("NumberOfPoints"@, nat_text(points.len())),
                attr("NumberOfCells"@, nat_text(elements.len())),
            ],
        ),
        XmlView::Start("Points"@, seq![]),
        XmlView::Start(
            "DataArray"@,
            seq![
                attr("type"@, "Float64"@),
                attr("NumberOfComponents"@, "3"@),
                attr("format"@, "ascii"@),
            ],
        ),
        XmlView::Text(data_block(Seq::new(points.len(), |k: int| points[k] + " 0.0"@))),
        end_da,
        XmlView::End("Points"@),
        XmlView::Start("Cells"@, seq![]),
        data_array("Int64"@, "connectivity"@),
        XmlView::Text(data_block(Seq::new(elements.len(), |k: int| connectivity_item(elements[k])))),
        end_da,
        data_array("Int64"@, "offsets"@),
        XmlView::Text(data_block(Seq::new(elements.len(), |k: int| nat_text((4 * (k + 1)) as nat)))),
        end_da,
        data_array("UInt8"@, "types"@),
        XmlView::Text(data_block(Seq::new(elements.len(), |k: int| "9"@))),
        end_da,
        XmlView::End("Cells"@),
        XmlView::Start("CellData"@, seq![attr("Scalars"@, "region_tag"@)]),
        data_array("Int32"@, "region_tag"@),
        XmlView::Text(data_block(Seq::new(tags.len(), |k: int| int_text(tags[k] as int)))),
        end_da,
        XmlView::End("CellData"@),
        XmlView::End("Piece"@),
        XmlView::End("UnstructuredGrid"@),
        XmlView::End("VTKFile"@),
    ]
}

fn pair(k: &str, v: &str) -> (p: (String, String))
    ensures
        p.0@ == k@,
        p.1@ == v@,
{
    (string_of(k), string_of(v))
}

fn start(name: &str, attrs: Vec<(String, String)>) -> (e: XmlEvent)
    ensures
        xml_view(e) == XmlView::Start(name@, attrs@.map_values(|a: (String, String)| (a.0@, a.1@))),
{
    XmlEvent::Start { name: string_of(name), attrs }
}

fn end(name: &str) -> (e: XmlEvent)
    ensures
        xml_view(e) == XmlView::End(name@),
{
    XmlEvent::End(string_of(name))
}

fn data_array_event(ty: &str, name: &str) -> (e: XmlEvent)
    ensures
        xml_view(e) == data_array(ty@, name@),
{
    let mut attrs: Vec<(String, String)> = Vec::new();
    attrs.push(pair("type", ty));
    attrs.push(pair("Name", name));
    attrs.push(pair("format", "ascii"));
    let e = start("DataArray", attrs);
    proof {
        assert(attrs@.map_values(|a: (String, String)| (a.0@, a.1@)) =~= seq![
            attr("type"@, ty@),
            attr("Name"@, name@),
            attr("format"@, "ascii"@),
        ]);
    }
    e
}

/// The data block of the element connectivity, node numbers 0-based.
#[verifier::spinoff_prover]
#[verifier::rlimit(40)]
fn connectivity_block(elements: &Vec<[usize; 4]>) -> (s: String)
    requires
        forall|e: int, k: int| 0 <= e < elements@.len() && 0 <= k < 4 ==> #[trigger] elements@[e]@[k] >= 1,
    ensures
        s@ == data_block(Seq::new(elements@.len(), |k: int| connectivity_item(elements@[k]))),
{
    let ghost items = Seq::new(elements@.len(), |k: int| connectivity_item(elements@[k]));
    let mut s = string_of("\n");
    let mut k: usize = 0;
    while k < elements.len()
        invariant
            k <= elements@.len(),
            items == Seq::new(elements@.len(), |k: int| connectivity_item(elements@[k])),
            forall|e: int, i: int| 0 <= e < elements@.len() && 0 <= i < 4 ==> #[trigger] elements@[e]@[i] >= 1,
            s@ == "\n"@ + block_lines(items, k as nat),
        decreases elements.len() - k,
    {
        let el = elements[k];
        proof {
            assert(el@[0] >= 1 && el@[1] >= 1 && el@[2] >= 1 && el@[3] >= 1) by {
                assert(elements@[k as int]@[0] >= 1);
                assert(elements@[k as int]@[1] >= 1);
                assert(elements@[k as int]@[2] >= 1);
                assert(elements@[k as int]@[3] >= 1);
            }
        }
        push_str(&mut s, "          ");
        push_nat(&mut s, (el[0] - 1) as u64);
        push_str(&mut s, " ");
        push_nat(&mut s, (el[1] - 1) as u64);
        push_str(&mut s, " ");
        push_nat(&mut s, (el[2] - 1) as u64);
        push_str(&mut s, " ");
        push_nat(&mut s, (el[3] - 1) as u64);
        push_str(&mut s, "\n");
        proof {
            assert(s@ =~= "\n"@ + block_lines(items, (k + 1) as nat));
        }
        k = k + 1;
    }
    push_str(&mut s, "        ");
    s
}

fn offsets_block(n: usize) -> (s: String)
    requires
        n <= usize::MAX / 4,
    ensures
        s@ == data_block(Seq::new(n as nat, |k: int| nat_text((4 * (k + 1)) as nat))),
{
    let ghost items = Seq::new(n as nat, |k: int| nat_text((4 * (k + 1)) as nat));
    let mut s = string_of("\n");
    let mut k: usize = 0;
    while k < n
        invariant
            k <= n <= usize::MAX / 4,
            items == Seq::new(n as nat, |k: int| nat_text((4 * (k + 1)) as nat)),
            s@ == "\n"@ + block_lines(items, k as nat),
        decreases n - k,
    {
        push_str(&mut s, "          ");
        push_nat(&mut s, ((k + 1) * 4) as u64);
        push_str(&mut s, "\n");
        proof {
            assert(s@ =~= "\n"@ + block_lines(items, (k + 1) as nat));
        }
        k = k + 1;
    }
    push_str(&mut s, "        ");
    s
}

fn types_block(n: usize) -> (s: String)
    ensures
        s@ == data_block(Seq::new(n as nat, |k: int| "9"@)),
{
    let ghost items = Seq::new(n as nat, |k: int| "9"@);
    let mut s = string_of("\n");
    let mut k: usize = 0;
    while k < n
        invariant
            k <= n,
            items == Seq::new(n as nat, |k: int| "9"@),
            s@ == "\n"@ + block_lines(items, k as nat),
        decreases n - k,
    {
        push_str(&mut s, "          9\n");
        proof {
            reveal_strlit("          9\n");
            reveal_strlit("          ");
            reveal_strlit("9");
            reveal_strlit("\n");
            assert(s@ =~= "\n"@ + block_lines(items, (k + 1) as nat));
        }
        k = k + 1;
    }
    push_str(&mut s, "        ");
    s
}

fn tags_block(tags: &Vec<i32>) -> (s: String)
    ensures
        s@ == data_block(Seq::new(tags@.len(), |k: int| int_text(tags@[k] as int))),
{
    let ghost items = Seq::new(tags@.len(), |k: int| int_text(tags@[k] as int));
    let mut s = string_of("\n");
    let mut k: usize = 0;
    while k < tags.len()
        invariant
            k <= tags@.len(),
            items == Seq::new(tags@.len(), |k: int| int_text(tags@[k] as int)),
            s@ == "\n"@ + block_lines(items, k as nat),
        decreases tags.len() - k,
    {
        push_str(&mut s, "          ");
        push_int(&mut s, tags[k] as i64);
        push_str(&mut s, "\n");
        proof {
            assert(s@ =~= "\n"@ + block_lines(items, (k + 1) as nat));
        }
        k = k + 1;
    }
    push_str(&mut s, "        ");
    s
}

fn points_block(points: &Vec<String>) -> (s: String)
    ensures
        s@ == data_block(Seq::new(points@.len(), |k: int| points@[k]@ + " 0.0"@)),
{
    let ghost items = Seq::new(points@.len(), |k: int| points@[k]@ + " 0.0"@);
    let mut s = string_of("\n");
    let mut k: usize = 0;
    while k < points.len()
        invariant
            k <= points@.len(),
            items == Seq::new(points@.len(), |k: int| points@[k]@ + " 0.0"@),
            s@ == "\n"@ + block_lines(items, k as nat),
        decreases points.len() - k,
    {
        push_str(&mut s, "          ");
        push_str(&mut s, points[k].as_str());
        push_str(&mut s, " 0.0");
        push_str(&mut s, "\n");
        proof {
            assert(s@ =~= "\n"@ + block_lines(items, (k + 1) as nat));
        }
        k = k + 1;
    }
    push_str(&mut s, "        ");
    s
}

fn push_ev(ev: &mut Vec<XmlEvent>, e: XmlEvent)
    ensures
        xml_views(final(ev)@) == xml_views(old(ev)@).push(xml_view(e)),
{
    let ghost before = ev@;
    ev.push(e);
    proof {
        assert(xml_views(ev@) =~= xml_views(before).push(xml_view(e)));
    }
}

/// The events of the VTU document of `mesh`, node `k` having the coordinate
/// text `points[k]` (`"x y"`).
pub fn vtu_document(points: &Vec<String>, mesh: &QuadMesh) -> (events: Vec<XmlEvent>)
    requires
        mesh.elements@.len() <= usize::MAX / 4,
        forall|e: int, k: int| 0 <= e < mesh.elements@.len() && 0 <= k < 4 ==> #[trigger] mesh.elements@[e]@[k] >= 1,
    ensures
        xml_views(events@) == vtu_events(
            points@.map_values(|p: String| p@),
            mesh.elements@,
            mesh.region_tags@,
        ),
{
    let ghost pv = points@.map_values(|p: String| p@);
    let ghost want = vtu_events(pv, mesh.elements@, mesh.region_tags@);
    let nelem = mesh.elements.len();
    let mut ev: Vec<XmlEvent> = Vec::new();
    push_ev(&mut ev, XmlEvent::Decl);
    push_ev(&mut ev, XmlEvent::Text(string_of("\n")));
    let mut a: Vec<(String, String)> = Vec::new();
    a.push(pair("type", "UnstructuredGrid"));
    a.push(pair("version", "0.1"));
    a.push(pair("byte_order", "LittleEndian"));
    proof {
        assert(a@.map_values(|a: (String, String)| (a.0@, a.1@)) =~= seq![
            attr("type"@, "UnstructuredGrid"@),
            attr("version"@, "0.1"@),
            attr("byte_order"@, "LittleEndian"@),
        ]);
    }
    push_ev(&mut ev, start("VTKFile", a));
    let e0: Vec<(String, String)> = Vec::new();
    proof {
        assert(e0@.map_values(|a: (String, String)| (a.0@, a.1@)) =~= Seq::<(Seq<char>, Seq<char>)>::empty());
    }
    push_ev(&mut ev, start("UnstructuredGrid", e0));
    let mut np = String::new();
    push_nat(&mut np, points.len() as u64);
    let mut nc = String::new();
    push_nat(&mut nc, nelem as u64);
    let mut a: Vec<(String, String)> = Vec::new();
    a.push((string_of("NumberOfPoints"), np));
    a.push((string_of("NumberOfCells"), nc));
    proof {
        assert(a@.map_values(|a: (String, String)| (a.0@, a.1@)) =~= seq![
            attr("NumberOfPoints"@, nat_text(pv.len())),
            attr("NumberOfCells"@, nat_text(mesh.elements@.len())),
        ]);
    }
    push_ev(&mut ev, start("Piece", a));
    let e1: Vec<(String, String)> = Vec::new();
    proof {
        assert(e1@.map_values(|a: (String, String)| (a.0@, a.1@)) =~= Seq::<(Seq<char>, Seq<char>)>::empty());
    }
    push_ev(&mut ev, start("Points", e1));
    let mut a: Vec<(String, String)> = Vec::new();
    a.push(pair("type", "Float64"));
    a.push(pair("NumberOfComponents", "3"));
    a.push(pair("format", "ascii"));
    proof {
        assert(a@.map_values(|a: (String, String)| (a.0@, a.1@)) =~= seq![
            attr("type"@, "Float64"@),
            attr("NumberOfComponents"@, "3"@),
            attr("format"@, "ascii"@),
        ]);
    }
    push_ev(&mut ev, start("DataArray", a));
    let pb = points_block(points);
    proof {
        assert(Seq::new(points@.len(), |k: int| points@[k]@ + " 0.0"@) =~= Seq::new(
            pv.len(),
            |k: int| pv[k] + " 0.0"@,
        ));
    }
    push_ev(&mut ev, XmlEvent::Text(pb));
    push_ev(&mut ev, end("DataArray"));
    push_ev(&mut ev, end("Points"));
    let e2: Vec<(String, String)> = Vec::new();
    proof {
        assert(e2@.map_values(|a: (String, String)| (a.0@, a.1@)) =~= Seq::<(Seq<char>, Seq<char>)>::empty());
    }
    push_ev(&mut ev, start("Cells", e2));
    push_ev(&mut ev, data_array_event("Int64", "connectivity"));
    push_ev(&mut ev, XmlEvent::Text(connectivity_block(&mesh.elements)));
    push_ev(&mut ev, end("DataArray"));
    push_ev(&mut ev, data_array_event("Int64", "offsets"));
    push_ev(&mut ev, XmlEvent::Text(offsets_block(nelem)));
    push_ev(&mut ev, end("DataArray"));
    push_ev(&mut ev, data_array_event("UInt8", "types"));
    push_ev(&mut ev, XmlEvent::Text(types_block(nelem)));
    push_ev(&mut ev, end("DataArray"));
    push_ev(&mut ev, end("Cells"));
    let mut a: Vec<(String, String)> = Vec::new();
    a.push(pair("Scalars", "region_tag"));
    proof {
        assert(a@.map_values(|a: (String, String)| (a.0@, a.1@)) =~= seq![attr("Scalars"@, "region_tag"@)]);
    }
    push_ev(&mut ev, start("CellData", a));
    push_ev(&mut ev, data_array_event("Int32", "region_tag"));
    push_ev(&mut ev, XmlEvent::Text(tags_block(&mesh.region_tags)));
    push_ev(&mut ev, end("DataArray"));
    push_ev(&mut ev, end("CellData"));
    push_ev(&mut ev, end("Piece"));
    push_ev(&mut ev, end("UnstructuredGrid"));
    push_ev(&mut ev, end("VTKFile"));
    proof {
        assert(xml_views(ev@) =~= want);
    }
    ev
}

} // verus!
