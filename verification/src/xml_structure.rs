//! The nesting of XML documents: which elements are open after each event,
//! and the well-formedness of the VTU document.
use vstd::prelude::*;

use crate::output_vtk::{connectivity_item, data_array, data_block, vtu_events, XmlView};
use crate::text::{int_text, lemma_nat_text_round_trip, nat_text, unsigned_value};

verus! {

/// The elements left open after the first `k` events, innermost last, or
/// `None` once an end tag does not close the innermost open element.
pub open spec fn open_elements(ev: Seq<XmlView>, k: nat) -> Option<Seq<Seq<char>>>
    decreases k,
{
    if k == 0 {
        Some(seq![])
    } else {
        match open_elements(ev, (k - 1) as nat) {
            None => None,
            Some(st) => match ev[k - 1] {
                XmlView::Start(n, _) => Some(st.push(n)),
                XmlView::End(n) => if st.len() > 0 && st.last() == n {
                    Some(st.drop_last())
                } else {
                    None
                },
                _ => Some(st),
            },
        }
    }
}

/// Every end tag closes the innermost open element, and none is left open.
pub open spec fn balanced(ev: Seq<XmlView>) -> bool {
    open_elements(ev, ev.len()) == Some(Seq::<Seq<char>>::empty())
}

/// The outermost open element is `VTKFile`.
pub open spec fn within_root(open: Option<Seq<Seq<char>>>) -> bool {
    match open {
        Some(st) => st.len() >= 1 && st[0] == "VTKFile"@,
        None => false,
    }
}

/// The VTU document is well formed: it starts with the XML declaration,
/// its tags are balanced, and everything after the declaration lies inside
/// the one `VTKFile` element.
pub proof fn lemma_vtu_well_formed(points: Seq<Seq<char>>, elements: Seq<[usize; 4]>, tags: Seq<i32>)
    ensures
        vtu_events(points, elements, tags)[0] == XmlView::Decl,
        balanced(vtu_events(points, elements, tags)),
        forall|k: int|
            3 <= k < vtu_events(points, elements, tags).len() ==> within_root(
                #[trigger] open_elements(vtu_events(points, elements, tags), k as nat),
            ),
{
    let ev = vtu_events(points, elements, tags);
    assert(ev.len() == 29);
    assert(ev[0] == XmlView::Decl);
    assert(open_elements(ev, 0) == Some(Seq::<Seq<char>>::empty()));
    assert(open_elements(ev, 1) == Some(Seq::<Seq<char>>::empty()));
    assert(open_elements(ev, 2) == Some(Seq::<Seq<char>>::empty()));
    assert(open_elements(ev, 3) == Some(seq!["VTKFile"@]));
    assert(open_elements(ev, 4) == Some(seq!["VTKFile"@, "UnstructuredGrid"@]));
    assert(open_elements(ev, 5) == Some(seq!["VTKFile"@, "UnstructuredGrid"@, "Piece"@]));
    assert(open_elements(ev, 6) == Some(seq!["VTKFile"@, "UnstructuredGrid"@, "Piece"@, "Points"@]));
    assert(open_elements(ev, 7) == Some(seq!["VTKFile"@, "UnstructuredGrid"@, "Piece"@, "Points"@, "DataArray"@]));
    assert(open_elements(ev, 8) == Some(seq!["VTKFile"@, "UnstructuredGrid"@, "Piece"@, "Points"@, "DataArray"@]));
    assert(open_elements(ev, 9) == Some(seq!["VTKFile"@, "UnstructuredGrid"@, "Piece"@, "Points"@]));
    assert(open_elements(ev, 10) == Some(seq!["VTKFile"@, "UnstructuredGrid"@, "Piece"@]));
    assert(open_elements(ev, 11) == Some(seq!["VTKFile"@, "UnstructuredGrid"@, "Piece"@, "Cells"@]));
    assert(open_elements(ev, 12) == Some(seq!["VTKFile"@, "UnstructuredGrid"@, "Piece"@, "Cells"@, "DataArray"@]));
    assert(open_elements(ev, 13) == Some(seq!["VTKFile"@, "UnstructuredGrid"@, "Piece"@, "Cells"@, "DataArray"@]));
    assert(open_elements(ev, 14) == Some(seq!["VTKFile"@, "UnstructuredGrid"@, "Piece"@, "Cells"@]));
    assert(open_elements(ev, 15) == Some(seq!["VTKFile"@, "UnstructuredGrid"@, "Piece"@, "Cells"@, "DataArray"@]));
    assert(open_elements(ev, 16) == Some(seq!["VTKFile"@, "UnstructuredGrid"@, "Piece"@, "Cells"@, "DataArray"@]));
    assert(open_elements(ev, 17) == Some(seq!["VTKFile"@, "UnstructuredGrid"@, "Piece"@, "Cells"@]));
    assert(open_elements(ev, 18) == Some(seq!["VTKFile"@, "UnstructuredGrid"@, "Piece"@, "Cells"@, "DataArray"@]));
    assert(open_elements(ev, 19) == Some(seq!["VTKFile"@, "UnstructuredGrid"@, "Piece"@, "Cells"@, "DataArray"@]));
    assert(open_elements(ev, 20) == Some(seq!["VTKFile"@, "UnstructuredGrid"@, "Piece"@, "Cells"@]));
    assert(open_elements(ev, 21) == Some(seq!["VTKFile"@, "UnstructuredGrid"@, "Piece"@]));
    assert(open_elements(ev, 22) == Some(seq!["VTKFile"@, "UnstructuredGrid"@, "Piece"@, "CellData"@]));
    assert(open_elements(ev, 23) == Some(seq!["VTKFile"@, "UnstructuredGrid"@, "Piece"@, "CellData"@, "DataArray"@]));
    assert(open_elements(ev, 24) == Some(seq!["VTKFile"@, "UnstructuredGrid"@, "Piece"@, "CellData"@, "DataArray"@]));
    assert(open_elements(ev, 25) == Some(seq!["VTKFile"@, "UnstructuredGrid"@, "Piece"@, "CellData"@]));
    assert(open_elements(ev, 26) == Some(seq!["VTKFile"@, "UnstructuredGrid"@, "Piece"@]));
    assert(open_elements(ev, 27) == Some(seq!["VTKFile"@, "UnstructuredGrid"@]));
    assert(open_elements(ev, 28) == Some(seq!["VTKFile"@]));
    assert(open_elements(ev, 29) == Some(Seq::<Seq<char>>::empty()));
    assert forall|k: int| 3 <= k < ev.len() implies within_root(#[trigger] open_elements(ev, k as nat)) by {
        if k == 3 {
            assert(open_elements(ev, 3nat) == open_elements(ev, k as nat));
        } else if k == 4 {
            assert(open_elements(ev, 4nat) == open_elements(ev, k as nat));
        } else if k == 5 {
            assert(open_elements(ev, 5nat) == open_elements(ev, k as nat));
        } else if k == 6 {
            assert(open_elements(ev, 6nat) == open_elements(ev, k as nat));
        } else if k == 7 {
            assert(open_elements(ev, 7nat) == open_elements(ev, k as nat));
        } else if k == 8 {
            assert(open_elements(ev, 8nat) == open_elements(ev, k as nat));
        } else if k == 9 {
            assert(open_elements(ev, 9nat) == open_elements(ev, k as nat));
        } else if k == 10 {
            assert(open_elements(ev, 10nat) == open_elements(ev, k as nat));
        } else if k == 11 {
            assert(open_elements(ev, 11nat) == open_elements(ev, k as nat));
        } else if k == 12 {
            assert(open_elements(ev, 12nat) == open_elements(ev, k as nat));
        } else if k == 13 {
            assert(open_elements(ev, 13nat) == open_elements(ev, k as nat));
        } else if k == 14 {
            assert(open_elements(ev, 14nat) == open_elements(ev, k as nat));
        } else if k == 15 {
            assert(open_elements(ev, 15nat) == open_elements(ev, k as nat));
        } else if k == 16 {
            assert(open_elements(ev, 16nat) == open_elements(ev, k as nat));
        } else if k == 17 {
            assert(open_elements(ev, 17nat) == open_elements(ev, k as nat));
        } else if k == 18 {
            assert(open_elements(ev, 18nat) == open_elements(ev, k as nat));
        } else if k == 19 {
            assert(open_elements(ev, 19nat) == open_elements(ev, k as nat));
        } else if k == 20 {
            assert(open_elements(ev, 20nat) == open_elements(ev, k as nat));
        } else if k == 21 {
            assert(open_elements(ev, 21nat) == open_elements(ev, k as nat));
        } else if k == 22 {
            assert(open_elements(ev, 22nat) == open_elements(ev, k as nat));
        } else if k == 23 {
            assert(open_elements(ev, 23nat) == open_elements(ev, k as nat));
        } else if k == 24 {
            assert(open_elements(ev, 24nat) == open_elements(ev, k as nat));
        } else if k == 25 {
            assert(open_elements(ev, 25nat) == open_elements(ev, k as nat));
        } else if k == 26 {
            assert(open_elements(ev, 26nat) == open_elements(ev, k as nat));
        } else if k == 27 {
            assert(open_elements(ev, 27nat) == open_elements(ev, k as nat));
        } else if k == 28 {
            assert(open_elements(ev, 28nat) == open_elements(ev, k as nat));
        }
    }
}

/// The connectivity items of the cells: each element's four node numbers,
/// 0-based, separated by spaces.
pub open spec fn connectivity_items(elements: Seq<[usize; 4]>) -> Seq<Seq<char>> {
    Seq::new(elements.len(), |k: int| connectivity_item(elements[k]))
}

/// The offset items: the running count of node numbers after each cell.
pub open spec fn offset_items(n: nat) -> Seq<Seq<char>> {
    Seq::new(n, |k: int| nat_text((4 * (k + 1)) as nat))
}

/// The cell type items: `9` (a quadrilateral) for every cell.
pub open spec fn type_items(n: nat) -> Seq<Seq<char>> {
    Seq::new(n, |k: int| "9"@)
}

/// The region tag items, one per tag.
pub open spec fn tag_items(tags: Seq<i32>) -> Seq<Seq<char>> {
    Seq::new(tags.len(), |k: int| int_text(tags[k] as int))
}

/// The cell data of the VTU document: the `connectivity` array lists one
/// item per element with its node numbers made 0-based, the `offsets`
/// array holds `4, 8, 12, …` (one per element, each reading back as
/// `4 (k + 1)`), the `types` array holds `9` once per element, and the
/// `region_tag` array holds one tag per element.
pub proof fn lemma_vtu_cell_data(points: Seq<Seq<char>>, elements: Seq<[usize; 4]>, tags: Seq<i32>)
    ensures
        ({
            let ev = vtu_events(points, elements, tags);
            let n = elements.len();
            &&& ev[11] == data_array("Int64"@, "connectivity"@)
            &&& ev[12] == XmlView::Text(data_block(connectivity_items(elements)))
            &&& ev[14] == data_array("Int64"@, "offsets"@)
            &&& ev[15] == XmlView::Text(data_block(offset_items(n)))
            &&& ev[17] == data_array("UInt8"@, "types"@)
            &&& ev[18] == XmlView::Text(data_block(type_items(n)))
            &&& ev[22] == data_array("Int32"@, "region_tag"@)
            &&& ev[23] == XmlView::Text(data_block(tag_items(tags)))
            &&& connectivity_items(elements).len() == n
            &&& offset_items(n).len() == n
            &&& type_items(n).len() == n
            &&& tag_items(tags).len() == tags.len()
            &&& forall|k: int|
                0 <= k < n ==> #[trigger] connectivity_items(elements)[k] == nat_text(
                    (elements[k]@[0] - 1) as nat,
                ) + " "@ + nat_text((elements[k]@[1] - 1) as nat) + " "@ + nat_text(
                    (elements[k]@[2] - 1) as nat,
                ) + " "@ + nat_text((elements[k]@[3] - 1) as nat)
            &&& forall|k: int| 0 <= k < n ==> unsigned_value(#[trigger] offset_items(n)[k]) == Some((4 * (k + 1)) as nat)
            &&& forall|k: int| 0 <= k < n ==> #[trigger] type_items(n)[k] == "9"@
        }),
{
    let n = elements.len();
    assert forall|k: int| 0 <= k < n implies unsigned_value(#[trigger] offset_items(n)[k]) == Some((4 * (k + 1)) as nat) by {
        lemma_nat_text_round_trip((4 * (k + 1)) as nat);
    }
}

} // verus!
