use vstd::prelude::*;

verus! {

/// The number of colours in the face palette.
pub const PALETTE_LEN: usize = 6;

/// Entry `k` of the face palette: red, green, blue, yellow, magenta, cyan.
pub open spec fn palette_entry(k: int) -> Seq<u8> {
    if k == 0 {
        seq![255u8, 100u8, 100u8]
    } else if k == 1 {
        seq![100u8, 255u8, 100u8]
    } else if k == 2 {
        seq![100u8, 100u8, 255u8]
    } else if k == 3 {
        seq![255u8, 255u8, 100u8]
    } else if k == 4 {
        seq![255u8, 100u8, 255u8]
    } else {
        seq![100u8, 255u8, 255u8]
    }
}

/// The palette entry used for triangle `index` of a mesh: the two triangles
/// of each pair share an entry, and the entries are cycled pair by pair.
pub open spec fn face_entry(index: int) -> int {
    (index / 2) % (PALETTE_LEN as int)
}

/// The solid colour of triangle `index` of a mesh. Pairs of triangles share
/// a colour, so each face of a cube, made of two triangles, gets a distinct
/// solid colour.
pub fn face_color(index: usize) -> (color: [u8; 3])
    ensures
        color@ == palette_entry(face_entry(index as int)),
{
    let k = (index / 2) % PALETTE_LEN;
    let color: [u8; 3] = if k == 0 {
        [255, 100, 100]
    } else if k == 1 {
        [100, 255, 100]
    } else if k == 2 {
        [100, 100, 255]
    } else if k == 3 {
        [255, 255, 100]
    } else if k == 4 {
        [255, 100, 255]
    } else {
        [100, 255, 255]
    };
    assert(color@ =~= palette_entry(k as int));
    color
}

/// The two triangles of a pair get the same colour, and the six pairs
/// `0..12` (the faces of a cube) get six different colours.
pub proof fn lemma_faces_distinct(i: int, j: int)
    requires
        0 <= i < 6,
        0 <= j < 6,
    ensures
        palette_entry(face_entry(2 * i)) == palette_entry(face_entry(2 * i + 1)),
        i != j ==> palette_entry(face_entry(2 * i)) != palette_entry(face_entry(2 * j)),
{
    assert(face_entry(2 * i) == i);
    assert(face_entry(2 * i + 1) == i);
    assert(face_entry(2 * j) == j);
    if i != j {
        let a = palette_entry(i);
        let b = palette_entry(j);
        assert(a[0] != b[0] || a[1] != b[1] || a[2] != b[2]);
    }
}

} // verus!
