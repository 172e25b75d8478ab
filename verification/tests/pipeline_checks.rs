//! The structured mesh pipeline on small polygons: parsing, the scanline
//! fill, the quad mesh, the writers, and the assignment of holes. The
//! floating-point steps (grid sizing, crossings, coordinates, winding) are
//! done here as the command-line program does them.

use meshgen::error::MeshError;
use meshgen::geometry_core::{assign_holes, BoundaryFacts, WindingOrder};
use meshgen::input_parser::{
    parse_geometry_layout, parse_i32, parse_project_text, parse_usize, tokenize, Edge, FloatClass,
};
use meshgen::output_tecplot::{ch3_output, ch4_output};
use meshgen::output_text::{ch2_output, fmt_5i6, fmt_6i9, OutLine};
use meshgen::output_vtk::{render_xml, vtu_document};
use meshgen::scanline_rasterizer::{build_quad_mesh, rasterize_crossings, QuadMesh, Raster};

// ---------------------------------------------------------------------------
// Floating-point helpers
// ---------------------------------------------------------------------------

struct Input {
    dx: f64,
    dy: f64,
    nodes: Vec<(f64, f64)>,
    edges: Vec<Edge>,
}

struct Grid {
    xm0: f64,
    ym0: f64,
    xmin: f64,
    ymin: f64,
    nx: usize,
    ny: usize,
    dx: f64,
    dy: f64,
}

fn compute_grid(input: &Input) -> Grid {
    let (mut xmin, mut xmax, mut ymin, mut ymax) =
        (f64::INFINITY, f64::NEG_INFINITY, f64::INFINITY, f64::NEG_INFINITY);
    for &(x, y) in &input.nodes {
        if x > xmax {
            xmax = x;
        }
        if x < xmin {
            xmin = x;
        }
        if y > ymax {
            ymax = y;
        }
        if y < ymin {
            ymin = y;
        }
    }
    let (dx, dy) = (input.dx, input.dy);
    let xm0 = xmin - dx / 2.0 - 0.012549;
    let ym0 = ymin - dy / 2.0 - 0.05497;
    let nx = ((xmax + dx / 2.0 - xm0) / dx + 0.5) as usize;
    let ny = ((ymax + dy / 2.0 - ym0) / dy + 0.5) as usize;
    Grid { xm0, ym0, xmin, ymin, nx, ny, dx, dy }
}

fn cross(v0: f64, a1: f64, b1: f64, a2: f64, b2: f64) -> Option<f64> {
    let lo = b1.min(b2);
    let hi = b1.max(b2);
    if v0 > lo && v0 <= hi {
        let r1 = (b2 - v0) / (b2 - b1);
        Some(r1 * a1 + (1.0 - r1) * a2)
    } else {
        None
    }
}

fn sort_by_coordinate(v: &mut Vec<(f64, i32)>) {
    v.sort_by(|a, b| a.0.partial_cmp(&b.0).unwrap_or(std::cmp::Ordering::Equal));
}

fn crossings(input: &Input, g: &Grid) -> (Vec<Vec<(usize, i32)>>, Vec<Vec<(usize, i32)>>) {
    let mut rows = Vec::new();
    for j in 1..=g.ny {
        let y0 = (j - 1) as f64 * g.dy + g.ym0 + g.dy / 2.0;
        let mut xs: Vec<(f64, i32)> = Vec::new();
        for e in &input.edges {
            let (x1, y1) = input.nodes[e.k1];
            let (x2, y2) = input.nodes[e.k2];
            if let Some(x) = cross(y0, x1, y1, x2, y2) {
                xs.push((x, e.kp));
            }
        }
        sort_by_coordinate(&mut xs);
        rows.push(xs.iter().map(|&(x, k)| (((x - g.xm0 - g.dx / 2.0) / g.dx) as usize, k)).collect());
    }
    let mut cols = Vec::new();
    for i in 1..=g.nx {
        let x0 = (i - 1) as f64 * g.dx + g.xm0 + g.dx / 2.0;
        let mut ys: Vec<(f64, i32)> = Vec::new();
        for e in &input.edges {
            let (x1, y1) = input.nodes[e.k1];
            let (x2, y2) = input.nodes[e.k2];
            if let Some(y) = cross(x0, y1, x1, y2, x2) {
                ys.push((y, e.kp));
            }
        }
        sort_by_coordinate(&mut ys);
        cols.push(ys.iter().map(|&(y, k)| (((y - g.ym0 - g.dy / 2.0) / g.dy) as usize, k)).collect());
    }
    (rows, cols)
}

fn rasterize(input: &Input) -> (Grid, Raster) {
    let g = compute_grid(input);
    let (rows, cols) = crossings(input, &g);
    let r = rasterize_crossings(g.nx, g.ny, &rows, &cols).expect("closed boundary fills");
    (g, r)
}

fn point_of(g: &Grid, l1: usize, l2: usize) -> (f64, f64) {
    (g.xmin + (l1 as f64 - 1.5) * g.dx, g.ymin + (l2 as f64 - 1.5) * g.dy)
}

fn render(lines: &[OutLine], g: &Grid, decimals: usize) -> String {
    let mut out = String::new();
    for l in lines {
        match l {
            OutLine::Text(t) => out.push_str(t),
            OutLine::Spacing => out.push_str(&format!(" {}  {}", g.dx, g.dy)),
            OutLine::Point(a, b) => {
                let (x, y) = point_of(g, *a, *b);
                out.push_str(&format!("{:11.*}{:11.*}", decimals, x, decimals, y));
            }
        }
        out.push('\n');
    }
    out
}

fn edge(k1: usize, k2: usize, kp: i32) -> Edge {
    Edge { k1, k2, kp }
}

fn rect_input(dx: f64, dy: f64) -> Input {
    Input {
        dx,
        dy,
        nodes: vec![(0.0, 0.0), (10.0, 0.0), (10.0, 8.0), (0.0, 8.0)],
        edges: vec![edge(0, 1, 1), edge(1, 2, 1), edge(2, 3, 1), edge(3, 0, 1)],
    }
}

fn small_rect() -> (Grid, Raster, QuadMesh) {
    let input = Input {
        dx: 1.0,
        dy: 1.0,
        nodes: vec![(0.0, 0.0), (4.0, 0.0), (4.0, 4.0), (0.0, 4.0)],
        edges: vec![edge(0, 1, 1), edge(1, 2, 1), edge(2, 3, 1), edge(3, 0, 1)],
    };
    let (g, r) = rasterize(&input);
    let q = build_quad_mesh(&r);
    (g, r, q)
}

// ---------------------------------------------------------------------------
// Scanline fill
// ---------------------------------------------------------------------------

#[test]
fn rasterize_rectangle_interior_is_one() {
    let (_, state) = rasterize(&rect_input(1.0, 1.0));
    let any_nonzero = state.matr.iter().any(|col| col.iter().any(|&v| v > 0));
    assert!(any_nonzero, "rasterized rectangle must have some active cells");
}

#[test]
fn rasterize_row_and_col_records_nonempty() {
    let (_, state) = rasterize(&rect_input(1.0, 1.0));
    assert!(!state.row_records.is_empty(), "X-pass must produce at least one RowRecord");
    assert!(!state.col_records.is_empty(), "Y-pass must produce at least one ColRecord");
}

#[test]
fn rasterize_row_record_bounds() {
    let (_, state) = rasterize(&rect_input(1.0, 1.0));
    for rr in &state.row_records {
        assert!(rr.i1 >= 1 && rr.i1 <= state.nx, "i1 out of bounds: {}", rr.i1);
        assert!(rr.i2 >= 1 && rr.i2 <= state.nx, "i2 out of bounds: {}", rr.i2);
        assert!(rr.i1 <= rr.i2, "i1 > i2");
        assert!(rr.j0 >= 1 && rr.j0 <= state.ny, "j0 out of bounds: {}", rr.j0);
    }
}

#[test]
fn rasterize_col_record_bounds() {
    let (_, state) = rasterize(&rect_input(1.0, 1.0));
    for cr in &state.col_records {
        assert!(cr.j1 >= 1 && cr.j1 <= state.ny, "j1 out of bounds: {}", cr.j1);
        assert!(cr.j2 >= 1 && cr.j2 <= state.ny, "j2 out of bounds: {}", cr.j2);
        assert!(cr.j1 <= cr.j2, "j1 > j2");
        assert!(cr.i0 >= 1 && cr.i0 <= state.nx, "i0 out of bounds: {}", cr.i0);
    }
}

#[test]
fn rasterize_ypass_preserves_boundary_tags() {
    let (_, state) = rasterize(&rect_input(1.0, 1.0));
    for col in 0..state.nx {
        for row in 0..state.ny {
            let v = state.matr[col][row];
            assert!(v >= 0, "matr cell must be non-negative");
        }
    }
}

#[test]
fn rectangle_fill_is_exact() {
    // 10 x 8 rectangle with unit cells: columns 2..=11 and rows 2..=9 are inside.
    let (g, state) = rasterize(&rect_input(1.0, 1.0));
    assert_eq!((g.nx, g.ny), (11, 9));
    for col in 0..g.nx {
        for row in 0..g.ny {
            let inside = (1..=10).contains(&col) && (1..=8).contains(&row);
            assert_eq!(state.matr[col][row], if inside { 1 } else { 0 }, "cell ({col}, {row})");
        }
    }
    assert_eq!(state.row_records.len(), 8);
    assert_eq!(state.col_records.len(), 10);
}

#[test]
fn column_pass_keeps_row_tags() {
    // Left edge tagged 5: its row-span end cells keep tag 5 unless a column span ends there.
    let input = Input {
        dx: 1.0,
        dy: 1.0,
        nodes: vec![(0.0, 0.0), (4.0, 0.0), (4.0, 4.0), (0.0, 4.0)],
        edges: vec![edge(0, 1, 1), edge(1, 2, 1), edge(2, 3, 1), edge(3, 0, 5)],
    };
    let (_, state) = rasterize(&input);
    for rr in &state.row_records {
        assert_eq!(rr.kn_left, 5);
        let col = rr.i1 - 1;
        let row = rr.j0 - 1;
        let ends_col_span = state
            .col_records
            .iter()
            .any(|c| c.i0 - 1 == col && (c.j1 - 1 == row || c.j2 - 1 == row));
        if !ends_col_span {
            assert_eq!(state.matr[col][row], 5);
        }
    }
}

#[test]
fn odd_row_scanline_is_an_error() {
    let rows = vec![vec![(0usize, 2i32)], vec![(0, 2), (2, 3)]];
    let cols = vec![vec![(0usize, 2i32)], vec![], vec![], vec![]];
    match rasterize_crossings(4, 2, &rows, &cols) {
        Err(MeshError::OddIntersectionCount { scanline, axis, count }) => {
            assert_eq!((scanline, axis, count), (1, "x", 1));
        }
        other => panic!("expected an odd x-scanline error, got {other:?}"),
    }
}

#[test]
fn odd_column_scanline_is_an_error() {
    let rows = vec![vec![(0usize, 2i32), (2, 3)], vec![]];
    let cols = vec![vec![], vec![], vec![(0usize, 2i32), (1, 2), (1, 4)], vec![(0, 2)]];
    match rasterize_crossings(4, 2, &rows, &cols) {
        Err(MeshError::OddIntersectionCount { scanline, axis, count }) => {
            assert_eq!((scanline, axis, count), (3, "y", 3));
        }
        other => panic!("expected an odd y-scanline error, got {other:?}"),
    }
}

#[test]
fn even_scanlines_fill() {
    let rows = vec![vec![], vec![(0usize, 2i32), (2, 3)]];
    let cols = vec![vec![], vec![], vec![], vec![]];
    let r = rasterize_crossings(4, 2, &rows, &cols).expect("even counts fill");
    assert_eq!(r.row_records.len(), 1);
    let rr = &r.row_records[0];
    assert_eq!((rr.i1, rr.i2, rr.j0, rr.kn_left, rr.kn_right), (2, 3, 2, 2, 3));
    assert_eq!(r.matr[1][1], 2);
    assert_eq!(r.matr[2][1], 3);
    assert_eq!(r.matr[0][1], 0);
}

#[test]
fn span_past_grid_is_dropped() {
    let rows = vec![vec![(0usize, 2i32), (9, 2)], vec![(usize::MAX, 2), (usize::MAX, 2)]];
    let cols = vec![vec![], vec![], vec![]];
    let r = rasterize_crossings(3, 2, &rows, &cols).expect("even counts fill");
    assert!(r.row_records.is_empty());
    assert!(r.matr.iter().all(|c| c.iter().all(|&v| v == 0)));
}

// ---------------------------------------------------------------------------
// Quad mesh
// ---------------------------------------------------------------------------

#[test]
fn build_plot_data_nonempty_for_active_rectangle() {
    let (_, state) = rasterize(&rect_input(1.0, 1.0));
    let plot = build_quad_mesh(&state);
    assert!(!plot.corners.is_empty(), "PlotData must have nodes");
    assert!(!plot.elements.is_empty(), "PlotData must have elements");
    assert_eq!(plot.elements.len(), plot.region_tags.len(), "element count must match region_tag count");
    assert_eq!(plot.elements.len(), plot.elem_ij.len(), "element count must match elem_ij count");
}

#[test]
fn build_plot_data_element_connectivity_swap() {
    let (_, state) = rasterize(&rect_input(1.0, 1.0));
    let plot = build_quad_mesh(&state);
    for (e, elem) in plot.elements.iter().enumerate() {
        for &nid in elem.iter() {
            assert!(nid >= 1 && nid <= plot.corners.len(), "element {} has invalid node index {}", e, nid);
        }
        let mut sorted = elem.to_vec();
        sorted.sort();
        sorted.dedup();
        assert_eq!(sorted.len(), 4, "element {} must have 4 distinct node indices", e);
    }
}

#[test]
fn build_plot_data_region_tags_match_matr() {
    let (_, state) = rasterize(&rect_input(1.0, 1.0));
    let plot = build_quad_mesh(&state);
    for (e, &(col, row)) in plot.elem_ij.iter().enumerate() {
        let expected_tag = state.matr[col - 1][row - 1];
        assert_eq!(plot.region_tags[e], expected_tag, "region_tag mismatch for element {} at ({},{})", e, col, row);
    }
}

#[test]
fn first_cell_numbering_and_swap() {
    let (_, _, q) = small_rect();
    // First active cell is (2, 2); its corners are visited (2,2), (2,3), (3,2), (3,3).
    assert_eq!(q.elem_ij[0], (2, 2));
    assert_eq!(&q.corners[0..4], &[(2, 2), (2, 3), (3, 2), (3, 3)]);
    assert_eq!(q.elements[0], [1, 2, 4, 3]);
    // The cell above shares two corners.
    assert_eq!(q.elem_ij[1], (2, 3));
    assert_eq!(q.elements[1], [2, 5, 6, 4]);
    assert_eq!(q.elements.len(), 16);
    assert_eq!(q.corners.len(), 25);
}

// ---------------------------------------------------------------------------
// Writers
// ---------------------------------------------------------------------------

#[test]
fn fmt_5i6_width() {
    let s = fmt_5i6(1, 2, 3, 4, 5);
    assert_eq!(s.len(), 30, "5i6 must be exactly 30 chars: {s:?}");
}

#[test]
fn fmt_5i6_content() {
    assert_eq!(fmt_5i6(1, 2, 3, 4, 5), "     1     2     3     4     5");
}

#[test]
fn fmt_5i6_negative() {
    assert_eq!(fmt_5i6(-1, 0, 1, -99, 100), "    -1     0     1   -99   100");
}

#[test]
fn fmt_6i9_width() {
    let s = fmt_6i9(1, 2, 3, 4, 5, 6);
    assert_eq!(s.len(), 54, "6i9 must be exactly 54 chars: {s:?}");
}

#[test]
fn fmt_6i9_content() {
    assert_eq!(
        fmt_6i9(1, 2, 3, 4, 5, 6),
        "        1        2        3        4        5        6"
    );
}

#[test]
fn values_too_wide_print_asterisks() {
    assert_eq!(fmt_5i6(1234567, 0, 0, 0, 0), "******     0     0     0     0");
    assert_eq!(fmt_5i6(i64::MIN, 0, -99999, -100000, 999999), "******     0-99999******999999");
    assert_eq!(fmt_6i9(1_000_000_000, 999_999_999, 0, 0, 0, -99_999_999).len(), 54);
    assert_eq!(
        fmt_6i9(1_000_000_000, 999_999_999, 0, 0, 0, -99_999_999),
        "*********999999999        0        0        0-99999999"
    );
}

#[test]
fn ch2_layout() {
    let (g, r, q) = small_rect();
    let text = render(&ch2_output(&r, &q), &g, 1);
    let lines: Vec<&str> = text.lines().collect();
    assert_eq!(lines[0], " 1  1");
    assert_eq!(lines[1], format!(" {}  {}", g.nx, g.ny));
    assert_eq!(lines[2], format!(" {}", r.row_records.len()));
    let rr = &r.row_records[0];
    assert_eq!(lines[3], fmt_5i6(rr.i1 as i64, rr.i2 as i64, rr.j0 as i64, rr.kn_left as i64, rr.kn_right as i64));
    let after_rows = 3 + r.row_records.len();
    assert_eq!(lines[after_rows], format!(" {}", r.col_records.len()));
    let counts = after_rows + 1 + r.col_records.len();
    assert_eq!(lines[counts], format!(" {}  {}", q.corners.len(), q.elements.len()));
    assert_eq!(lines[counts + 1], "        0.5        0.5");
    let first_elem = counts + 1 + q.corners.len();
    assert_eq!(lines[first_elem], fmt_6i9(1, 2, 4, 3, 2, 2));
    assert_eq!(lines.len(), first_elem + q.elements.len());
}

#[test]
fn write_geom3_round_trip() {
    let (g, r, q) = small_rect();
    let content = render(&ch2_output(&r, &q), &g, 1);
    assert!(content.contains('1'), "file must contain grid spacing");
    let nro = r.row_records.len();
    assert!(content.contains(&format!(" {}", nro)), "file must contain nro={}", nro);
    let nnode = q.corners.len();
    assert!(content.contains(&format!("{}", nnode)), "file must mention nnode={}", nnode);
}

#[test]
fn ch3_header_line() {
    let (g, _, q) = small_rect();
    let text = render(&ch3_output(&q), &g, 4);
    assert!(text.starts_with("VARIABLES=X  Y\n"), "ch3 must start with VARIABLES=X  Y");
}

#[test]
fn ch3_zone_header_contains_nnode_nelem() {
    let (g, _, q) = small_rect();
    let text = render(&ch3_output(&q), &g, 4);
    assert!(text.contains(&format!("N={:6}", q.corners.len())));
    assert!(text.contains(&format!("E={:6}", q.elements.len())));
    assert!(text.contains("F=FEPOINT ET=QUADRILATERAL"));
}

#[test]
fn ch3_first_coord_line_is_22_chars() {
    let (g, _, q) = small_rect();
    let text = render(&ch3_output(&q), &g, 4);
    let line = text.lines().nth(2).expect("must have coord line");
    assert_eq!(line.len(), 22, "coord line must be 22 chars: {line:?}");
    let last = text.lines().last().unwrap();
    let e = q.elements.last().unwrap();
    assert_eq!(last, format!("{:9}{:9}{:9}{:9}", e[0], e[1], e[2], e[3]));
}

#[test]
fn ch4_header_line() {
    let (g, r, _) = small_rect();
    let text = render(&ch4_output(&r), &g, 4);
    assert!(text.starts_with("VARIABLES=X  Y\n"));
}

#[test]
fn ch4_main_zone_header_field_widths() {
    let (g, r, _) = small_rect();
    let text = render(&ch4_output(&r), &g, 4);
    let expected = format!("ZONE T=\" Main \" I={:3} J={:3} F=POINT", g.nx + 1, g.ny + 1);
    assert!(text.contains(&expected), "ch4 must contain main zone header: {expected:?}");
}

#[test]
fn ch4_coord_lines_are_22_chars() {
    let (g, r, _) = small_rect();
    let text = render(&ch4_output(&r), &g, 4);
    for line in text.lines().skip(2) {
        if line.starts_with("ZONE") {
            continue;
        }
        assert_eq!(line.len(), 22, "ch4 coord line must be 22 chars: {line:?}");
    }
    assert_eq!(text.lines().nth(2).unwrap(), "    -0.5000    -0.5000");
}

#[test]
fn ch4_nro_zones_present() {
    let (g, r, _) = small_rect();
    let text = render(&ch4_output(&r), &g, 4);
    let nro = text.lines().filter(|l| l.contains("NRO")).count();
    assert_eq!(nro, r.row_records.len(), "ch4 must have one NRO zone per row record");
    let nco = text.lines().filter(|l| l.contains("NCO")).count();
    assert_eq!(nco, r.col_records.len());
}

fn small_vtu() -> (QuadMesh, String) {
    let (g, _, q) = small_rect();
    let points: Vec<String> = q
        .corners
        .iter()
        .map(|&(a, b)| {
            let (x, y) = point_of(&g, a, b);
            format!("{} {}", x, y)
        })
        .collect();
    let bytes = render_xml(&vtu_document(&points, &q)).expect("render");
    (q, String::from_utf8(bytes).unwrap())
}

fn data_block<'a>(content: &'a str, name: &str) -> &'a str {
    let start = content.find(&format!("Name=\"{}\"", name)).expect("DataArray missing");
    let block = &content[start..];
    let data_start = block.find('>').unwrap() + 1;
    let data_end = block.find("</DataArray>").unwrap();
    &block[data_start..data_end]
}

#[test]
fn vtu_is_well_formed_xml() {
    let (q, content) = small_vtu();
    let mut reader = quick_xml::Reader::from_str(&content);
    reader.check_end_names(true);
    let mut depth = 0i32;
    loop {
        match reader.read_event() {
            Ok(quick_xml::events::Event::Start(_)) => depth += 1,
            Ok(quick_xml::events::Event::End(_)) => depth -= 1,
            Ok(quick_xml::events::Event::Eof) => break,
            Err(e) => panic!("XML parse error: {e}"),
            _ => {}
        }
    }
    assert_eq!(depth, 0, "XML must be balanced (depth=0 at EOF)");
    assert!(content.starts_with("<?xml version=\"1.0\" encoding=\"UTF-8\"?>"));
    assert!(content.contains(&format!("NumberOfPoints=\"{}\"", q.corners.len())));
    assert!(content.contains(&format!("NumberOfCells=\"{}\"", q.elements.len())));
    assert_eq!(content.matches("<DataArray").count(), 5);
    assert!(content.trim_end().ends_with("</VTKFile>"));
}

#[test]
fn vtu_cell_types_all_nine() {
    let (_, content) = small_vtu();
    for tok in data_block(&content, "types").split_whitespace() {
        assert_eq!(tok, "9", "all cell types must be 9 (VTK_QUAD), found: {tok}");
    }
}

#[test]
fn vtu_region_tag_count_matches_elements() {
    let (q, content) = small_vtu();
    let count = data_block(&content, "region_tag").split_whitespace().count();
    assert_eq!(count, q.elements.len());
}

#[test]
fn vtu_connectivity_is_zero_based() {
    let (_, content) = small_vtu();
    let values: Vec<i64> =
        data_block(&content, "connectivity").split_whitespace().map(|s| s.parse().unwrap()).collect();
    assert!(values.iter().all(|&v| v >= 0), "connectivity must be non-negative");
    assert!(values.contains(&0), "connectivity must contain index 0");
    assert!(content.contains("          0 1 3 2\n"));
}

#[test]
fn vtu_offsets_are_multiples_of_four() {
    let (_, content) = small_vtu();
    for (i, tok) in data_block(&content, "offsets").split_whitespace().enumerate() {
        let v: usize = tok.parse().unwrap();
        assert_eq!(v, (i + 1) * 4, "offset[{i}] must be {}", (i + 1) * 4);
    }
}

// ---------------------------------------------------------------------------
// Parsing
// ---------------------------------------------------------------------------

#[test]
fn test_parse_project_happy_path() {
    let cfg = parse_project_text("test_poly.txt\nfortran_reference.txt\noutplot1.plt\noutplot2.plt\n").expect("should parse");
    assert_eq!(cfg.geometry_file, "test_poly.txt");
    assert_eq!(cfg.ch2_file, "fortran_reference.txt");
    assert_eq!(cfg.ch3_file, "outplot1.plt");
    assert_eq!(cfg.ch4_file, "outplot2.plt");
}

#[test]
fn test_parse_project_trims_whitespace() {
    let cfg = parse_project_text("  file_a.txt  \n  file_b.txt  \n  file_c.txt  \n  file_d.txt  \n").expect("should parse");
    assert_eq!(cfg.geometry_file, "file_a.txt");
    assert_eq!(cfg.ch4_file, "file_d.txt");
}

#[test]
fn test_parse_project_truncates_at_80_chars() {
    let long_line = "a".repeat(90);
    let content = format!("{long_line}\nb.txt\nc.txt\nd.txt\n");
    let cfg = parse_project_text(&content).expect("should parse");
    assert_eq!(cfg.geometry_file.len(), 80);
}

#[test]
fn test_parse_project_empty_line_is_error() {
    let err = parse_project_text("file_a.txt\n\nfile_c.txt\nfile_d.txt\n").expect_err("should fail on empty line");
    match err {
        MeshError::Parse { line, msg } => {
            assert_eq!(line, 2);
            assert!(msg.contains("empty path"), "msg was: {msg}");
        }
        other => panic!("unexpected error: {other:?}"),
    }
}

#[test]
fn test_parse_project_too_few_lines() {
    let err = parse_project_text("file_a.txt\nfile_b.txt\n").expect_err("should fail with too few lines");
    assert!(matches!(err, MeshError::Parse { line: 3, .. }));
}

#[test]
fn project_crlf_lines() {
    let cfg = parse_project_text("a\r\nb\r\nc\r\nd").expect("should parse");
    assert_eq!((cfg.geometry_file.as_str(), cfg.ch4_file.as_str()), ("a", "d"));
}

fn float_class(t: &str) -> FloatClass {
    match t.parse::<f64>() {
        Err(_) => FloatClass::Unparsable,
        Ok(v) if !v.is_finite() => FloatClass::NonFinite,
        Ok(v) if v <= 0.0 => FloatClass::NonPositive,
        Ok(_) => FloatClass::Positive,
    }
}

fn parse_geometry(text: &str) -> Result<Input, MeshError> {
    let toks = tokenize(text);
    let cls: Vec<FloatClass> = toks.iter().map(|t| float_class(&t.text)).collect();
    let layout = parse_geometry_layout(&toks, &cls)?;
    let f = |i: usize| toks[i].text.parse::<f64>().unwrap();
    Ok(Input {
        dx: f(layout.dx_token),
        dy: f(layout.dy_token),
        nodes: layout.node_tokens.iter().map(|&(a, b)| (f(a), f(b))).collect(),
        edges: layout.edges.clone(),
    })
}

const SAMPLE_GEOM: &str = "\
1. 1.
10
0. 0.
10. 0.
10. 8.
12. 11.
3.0 8.
2. 2.
4. 2.
4. 4.
3. 5.
2. 5.
10
1 2 1
2 3 1
3 4 1
4 5 1
5 1 1
6 7 2
7 8 2
8 9 2
9 10 2
10 6 2
";

#[test]
fn test_parse_geometry_happy_path() {
    let mesh = parse_geometry(SAMPLE_GEOM).expect("should parse");
    assert_eq!(mesh.dx, 1.0);
    assert_eq!(mesh.dy, 1.0);
    assert_eq!(mesh.nodes.len(), 10);
    assert_eq!(mesh.edges.len(), 10);
    assert_eq!(mesh.nodes[0], (0.0, 0.0));
    assert_eq!(mesh.nodes[9], (2.0, 5.0));
    assert_eq!(mesh.edges[0], Edge { k1: 0, k2: 1, kp: 1 });
    assert_eq!(mesh.edges[9], Edge { k1: 9, k2: 5, kp: 2 });
}

#[test]
fn test_parse_geometry_dx_dy_positive() {
    let err = parse_geometry("0. 1.\n1\n0. 0.\n1\n1 1 1\n").err().expect("dx=0 should fail");
    assert!(matches!(err, MeshError::Parse { line: 1, .. }));
}

#[test]
fn test_parse_geometry_negative_dy_is_error() {
    let err = parse_geometry("1. -1.\n1\n0. 0.\n1\n1 1 1\n").err().expect("dy<0 should fail");
    assert!(matches!(err, MeshError::Parse { .. }));
}

#[test]
fn test_parse_geometry_node_index_out_of_range() {
    let err = parse_geometry("1. 1.\n2\n0. 0.\n1. 1.\n1\n1 5 1\n").err().expect("out-of-range index should fail");
    assert!(matches!(err, MeshError::NodeIndexOutOfRange { edge: 0, node: 4 }));
}

#[test]
fn test_parse_geometry_kp_must_be_positive() {
    let err = parse_geometry("1. 1.\n2\n0. 0.\n1. 1.\n1\n1 2 0\n").err().expect("kp=0 should fail");
    match err {
        MeshError::Parse { msg, .. } => assert!(msg.contains("kp must be >= 1")),
        other => panic!("unexpected: {other:?}"),
    }
}

#[test]
fn test_parse_geometry_blank_lines_skipped() {
    let mesh = parse_geometry("1. 1.\n\n2\n\n0. 0.\n1. 1.\n\n1\n1 2 1\n").expect("blank lines should be skipped");
    assert_eq!(mesh.nodes.len(), 2);
    assert_eq!(mesh.edges.len(), 1);
}

#[test]
fn geometry_errors_name_the_token() {
    match parse_geometry("1. 1.\n2\n0. zz\n") {
        Err(MeshError::Parse { line, msg }) => {
            assert_eq!(line, 3);
            assert_eq!(msg, "expected f64 for node y, got \"zz\"");
        }
        _ => panic!("expected a parse error"),
    }
    match parse_geometry("1. 1.\n1\n0. 0.\n") {
        Err(MeshError::Parse { line, msg }) => {
            assert_eq!(line, 2);
            assert_eq!(msg, "unexpected end of file");
        }
        _ => panic!("expected end of file"),
    }
    match parse_geometry("1. 1.\n1\ninf 0.\n0\n") {
        Err(MeshError::Parse { msg, .. }) => assert_eq!(msg, "node x coordinate is not finite"),
        _ => panic!("expected a non-finite coordinate"),
    }
}

#[test]
fn integer_fields_parse_like_std() {
    assert_eq!(parse_usize("+17", 1, "n").unwrap(), 17);
    assert_eq!(parse_i32("-2147483648", 1, "k").unwrap(), i32::MIN);
    match parse_i32("2147483648", 4, "kp") {
        Err(MeshError::Parse { line, msg }) => {
            assert_eq!(line, 4);
            assert_eq!(msg, "expected integer for kp, got \"2147483648\"");
        }
        _ => panic!("expected overflow to be rejected"),
    }
    match parse_usize("-1", 2, "nele") {
        Err(MeshError::Parse { msg, .. }) => assert_eq!(msg, "expected non-negative integer for nele, got \"-1\""),
        _ => panic!("expected a sign to be rejected"),
    }
}

// ---------------------------------------------------------------------------
// Holes
// ---------------------------------------------------------------------------

fn signed_area(p: &[(f64, f64)]) -> f64 {
    let n = p.len();
    let mut a = 0.0;
    for i in 0..n {
        let (x1, y1) = p[i];
        let (x2, y2) = p[(i + 1) % n];
        a += (x2 - x1) * (y2 + y1);
    }
    -a / 2.0
}

fn winding(p: &[(f64, f64)]) -> WindingOrder {
    let a = signed_area(p);
    if a > 1e-10 {
        WindingOrder::CCW
    } else if a < -1e-10 {
        WindingOrder::CW
    } else {
        WindingOrder::Degenerate
    }
}

fn centroid(p: &[(f64, f64)]) -> (f64, f64) {
    let n = p.len() as f64;
    let (sx, sy) = p.iter().fold((0.0, 0.0), |(a, b), &(x, y)| (a + x, b + y));
    (sx / n, sy / n)
}

fn inside(pt: (f64, f64), poly: &[(f64, f64)]) -> bool {
    let n = poly.len();
    let mut c = 0;
    for i in 0..n {
        let (x1, y1) = poly[i];
        let (x2, y2) = poly[(i + 1) % n];
        if let Some(x) = cross(pt.1, x1, y1, x2, y2) {
            if x > pt.0 {
                c += 1;
            }
        }
    }
    c % 2 == 1
}

fn facts(bs: &[(Vec<(f64, f64)>, i32)]) -> (Vec<BoundaryFacts>, Vec<Vec<bool>>) {
    let areas: Vec<f64> = bs.iter().map(|(p, _)| signed_area(p).abs()).collect();
    let fs = bs
        .iter()
        .enumerate()
        .map(|(i, (p, tag))| BoundaryFacts {
            winding: winding(p),
            region_tag: *tag,
            area_rank: if areas[i].is_finite() {
                Some(areas.iter().filter(|a| a.is_finite() && **a < areas[i]).count() as u64)
            } else {
                None
            },
        })
        .collect();
    let ins = bs
        .iter()
        .map(|(h, _)| bs.iter().map(|(o, _)| inside(centroid(h), o)).collect())
        .collect();
    (fs, ins)
}

#[test]
fn assign_holes_one_outer_one_hole() {
    let outer = (vec![(0.0, 0.0), (10.0, 0.0), (10.0, 10.0), (0.0, 10.0)], 1);
    let hole = (vec![(2.0, 2.0), (2.0, 4.0), (4.0, 4.0), (4.0, 2.0)], 2);
    let (f, ins) = facts(&[outer, hole]);
    let groups = assign_holes(&f, &ins).expect("assign_holes must succeed");
    assert_eq!(groups.len(), 1, "should produce exactly one PolygonGroup");
    assert_eq!(f[groups[0].outer].region_tag, 1, "outer region_tag must match");
    assert_eq!(groups[0].holes.len(), 1, "outer must have exactly one hole assigned");
}

#[test]
fn assign_holes_orphaned_hole_returns_error() {
    let orphan = (vec![(2.0, 2.0), (2.0, 4.0), (4.0, 4.0), (4.0, 2.0)], 99);
    let (f, ins) = facts(&[orphan]);
    match assign_holes(&f, &ins) {
        Err(MeshError::OrphanedHole { hole_region_tag }) => {
            assert_eq!(hole_region_tag, 99, "orphaned hole error must carry the correct region_tag");
        }
        other => panic!("expected OrphanedHole error, got {other:?}"),
    }
}

#[test]
fn assign_holes_two_outers_no_holes() {
    let a = (vec![(0.0, 0.0), (5.0, 0.0), (5.0, 5.0), (0.0, 5.0)], 1);
    let b = (vec![(10.0, 0.0), (15.0, 0.0), (15.0, 5.0), (10.0, 5.0)], 2);
    let (f, ins) = facts(&[a, b]);
    let groups = assign_holes(&f, &ins).expect("assign_holes must succeed");
    assert_eq!(groups.len(), 2, "should produce two PolygonGroups");
    assert!(groups[0].holes.is_empty(), "first group must have no holes");
    assert!(groups[1].holes.is_empty(), "second group must have no holes");
}

#[test]
fn hole_goes_to_smallest_enclosing_outer() {
    let big = (vec![(0.0, 0.0), (20.0, 0.0), (20.0, 20.0), (0.0, 20.0)], 1);
    let small = (vec![(5.0, 5.0), (15.0, 5.0), (15.0, 15.0), (5.0, 15.0)], 2);
    let hole = (vec![(9.0, 9.0), (9.0, 11.0), (11.0, 11.0), (11.0, 9.0)], 3);
    let far_hole = (vec![(1.0, 1.0), (1.0, 2.0), (2.0, 2.0), (2.0, 1.0)], 4);
    let (f, ins) = facts(&[big, small, hole, far_hole]);
    let groups = assign_holes(&f, &ins).expect("assign_holes must succeed");
    assert_eq!(groups.len(), 2);
    assert_eq!((groups[0].outer, groups[0].holes.clone()), (0, vec![3]));
    assert_eq!((groups[1].outer, groups[1].holes.clone()), (1, vec![2]));
}

#[test]
fn written_integers_read_back() {
    for v in [0i64, 7, -42, 999_999, -99_999] {
        let line = fmt_5i6(v, 1, 2, 3, 4);
        let first = line.split_whitespace().next().unwrap();
        if v >= 0 {
            assert_eq!(parse_usize(first, 1, "n").unwrap() as i64, v);
        }
        if v >= i32::MIN as i64 && v <= i32::MAX as i64 {
            assert_eq!(parse_i32(first, 1, "k").unwrap() as i64, v);
        }
    }
}

fn mesh_counts(input: &Input) -> (usize, usize, usize, usize) {
    let (g, r) = rasterize(input);
    let q = build_quad_mesh(&r);
    (g.nx, g.ny, q.corners.len(), q.elements.len())
}

fn polygon_edges(first: usize, n: usize, kp: i32) -> Vec<Edge> {
    (0..n).map(|i| edge(first + i, first + (i + 1) % n, kp)).collect()
}

#[test]
fn unit_square_example_summary() {
    let input = parse_geometry(meshgen::templates::STRUCTURED_TEMPLATE).expect("template parses");
    assert_eq!(mesh_counts(&input), (11, 12, 121, 100));
}

#[test]
fn c_channel_example_counts() {
    let input = Input {
        dx: 0.25,
        dy: 0.25,
        nodes: vec![(0.0, 0.0), (6.0, 0.0), (6.0, 1.5), (1.5, 1.5), (1.5, 3.5), (6.0, 3.5), (6.0, 5.0), (0.0, 5.0)],
        edges: polygon_edges(0, 8, 1),
    };
    let (_, _, nodes, elements) = mesh_counts(&input);
    assert_eq!((nodes, elements), (399, 336));
}

#[test]
fn two_holes_example_counts() {
    let mut edges = polygon_edges(0, 4, 1);
    edges.extend(polygon_edges(4, 4, 2));
    edges.extend(polygon_edges(8, 4, 3));
    let input = Input {
        dx: 0.25,
        dy: 0.25,
        nodes: vec![
            (0.0, 0.0), (10.0, 0.0), (10.0, 6.0), (0.0, 6.0),
            (1.0, 1.0), (1.0, 3.0), (3.0, 3.0), (3.0, 1.0),
            (6.0, 2.0), (6.0, 5.0), (9.0, 5.0), (9.0, 2.0),
        ],
        edges,
    };
    let (_, _, nodes, elements) = mesh_counts(&input);
    assert_eq!((nodes, elements), (855, 752));
}
