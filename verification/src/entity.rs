use vstd::prelude::*;

use crate::inventory::Player;

verus! {

/// The index of the `j`-th corner drawn for a cube (two triangles per face,
/// four corners per face, faces in order): `0 1 2 0 2 3`, then the same four
/// corners higher for each next face.
pub open spec fn cube_index(j: int) -> int {
    let k = j % 6;
    let corner: int = if k == 0 || k == 3 {
        0
    } else if k == 1 {
        1
    } else if k == 2 || k == 4 {
        2
    } else {
        3
    };
    4 * (j / 6) + corner
}

fn cube_index_exec(j: u16) -> (r: u16)
    requires
        j < 36,
    ensures
        r == cube_index(j as int),
        r < 24,
{
    let k = j % 6;
    let corner: u16 = if k == 0 || k == 3 {
        0
    } else if k == 1 {
        1
    } else if k == 2 || k == 4 {
        2
    } else {
        3
    };
    4 * (j / 6) + corner
}

impl Player {
    /// The index list of the player model: six boxes (head, body, two arms, two
    /// legs), each drawn like a cube from its own 24 corners.
    pub fn create_indices() -> (indices: Vec<u16>)
        ensures
            indices.len() == 216,
            forall|i: int, j: int|
                0 <= i < 6 && 0 <= j < 36 ==> #[trigger] indices@[i * 36 + j] == cube_index(j) + 24 * i,
    {
        let mut indices: Vec<u16> = Vec::new();
        let mut j: u16 = 0;
        while j < 36
            invariant
                j <= 36,
                indices.len() == j,
                forall|j2: int| 0 <= j2 < j ==> #[trigger] indices@[j2] == cube_index(j2),
            decreases 36 - j,
        {
            indices.push(cube_index_exec(j));
            j = j + 1;
        }
        let mut i: u16 = 1;
        while i <= 5
            invariant
                1 <= i <= 6,
                indices.len() == 36 * i,
                forall|i2: int, j2: int|
                    0 <= i2 < i && 0 <= j2 < 36 ==> #[trigger] indices@[i2 * 36 + j2] == cube_index(j2) + 24 * i2,
            decreases 6 - i,
        {
            let mut j: usize = 0;
            while j < 36
                invariant
                    1 <= i <= 5,
                    j <= 36,
                    indices.len() == 36 * i + j,
                    forall|i2: int, j2: int|
                        0 <= i2 < i && 0 <= j2 < 36 ==> #[trigger] indices@[i2 * 36 + j2] == cube_index(j2) + 24 * i2,
                    forall|j2: int| 0 <= j2 < j ==> #[trigger] indices@[i * 36 + j2] == cube_index(j2) + 24 * i,
                decreases 36 - j,
            {
                proof {
                    assert(indices@[0 * 36 + j] == cube_index(j as int));
                }
                let base = indices[j];
                assert(base < 24);
                let ghost before = indices@;
                indices.push(base + i * 24);
                proof {
                    assert forall|i2: int, j2: int| 0 <= i2 < i && 0 <= j2 < 36 implies #[trigger] indices@[i2 * 36 + j2]
                        == cube_index(j2) + 24 * i2 by {
                        assert(i2 * 36 + j2 < i * 36) by (nonlinear_arith)
                            requires
                                i2 < i,
                                j2 < 36,
                        ;
                        assert(0 <= i2 * 36) by (nonlinear_arith)
                            requires
                                0 <= i2,
                        ;
                        assert(before[i2 * 36 + j2] == indices@[i2 * 36 + j2]);
                    }
                }
                j = j + 1;
            }
            i = i + 1;
        }
        indices
    }
}

} // verus!
