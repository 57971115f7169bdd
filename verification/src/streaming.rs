use vstd::prelude::*;

use crate::coord::ChunkCoord;
use crate::realm::RealmData;

verus! {

/// What the world does when the player's chunk is `new_coord`.
#[derive(Clone, Copy, Debug, PartialEq, Eq, Structural)]
pub enum ChunkUpdate {
    /// The player is still in the centre chunk.
    Stay,
    /// The player moved to a neighbouring chunk: shift the loaded square by
    /// `dx`, `dz` (each -1, 0 or 1).
    Shift { dx: i32, dz: i32 },
    /// The player jumped further: load the whole square around the new chunk.
    Reload,
}

/// Whether the square of chunks within `r + 1` of `c` has `i32` coordinates.
pub open spec fn square_fits(c: ChunkCoord, r: int) -> bool {
    &&& 0 <= r
    &&& i32::MIN < c.x - r - 1
    &&& c.x + r + 1 < i32::MAX
    &&& i32::MIN < c.z - r - 1
    &&& c.z + r + 1 < i32::MAX
}

/// The `(new, old)` pair number `i` of a shift of the square of radius `r`
/// around `c` by `xo`, `zo`: first the row entering along `z` (when `zo` is
/// not 0), from low to high `x`, then the column entering along `x` (when `xo`
/// is not 0), from low to high `z`.
pub open spec fn shift_pair(c: ChunkCoord, r: int, xo: int, zo: int, i: int) -> (ChunkCoord, ChunkCoord) {
    let w = 2 * r + 1;
    let nz = if zo != 0 {
        w
    } else {
        0
    };
    if i < nz {
        let x = (c.x - r + i) as i32;
        (ChunkCoord { x, z: (c.z + (r + 1) * zo) as i32 }, ChunkCoord { x, z: (c.z - r * zo) as i32 })
    } else {
        let z = (c.z - r + (i - nz)) as i32;
        (ChunkCoord { x: (c.x + (r + 1) * xo) as i32, z }, ChunkCoord { x: (c.x - r * xo) as i32, z })
    }
}

/// The number of pairs of such a shift.
pub open spec fn shift_len(r: int, xo: int, zo: int) -> int {
    (if zo != 0 {
        2 * r + 1
    } else {
        0
    }) + (if xo != 0 {
        2 * r + 1
    } else {
        0
    })
}

proof fn lemma_unit_mul(a: int, u: int)
    requires
        -1 <= u <= 1,
    ensures
        a * u == if u == 1 {
            a
        } else if u == -1 {
            -a
        } else {
            0
        },
{
    if u == 1 {
    } else if u == -1 {
        assert(a * u == -a) by (nonlinear_arith)
            requires
                u == -1,
        ;
    } else {
    }
}

/// Whether chunk `p` lies in the square of radius `r` around `c`.
pub open spec fn in_square(c: ChunkCoord, r: int, p: ChunkCoord) -> bool {
    &&& c.x - r <= p.x <= c.x + r
    &&& c.z - r <= p.z <= c.z + r
}

/// The centre `c` moved by `xo`, `zo`.
pub open spec fn moved_centre(c: ChunkCoord, xo: int, zo: int) -> ChunkCoord {
    ChunkCoord { x: (c.x + xo) as i32, z: (c.z + zo) as i32 }
}

/// A shift along one axis swaps exactly the chunks that differ between the
/// two squares: every new chunk of the plan lies in the moved square and not
/// in the old one, every old chunk of the plan lies in the old square and not
/// in the moved one, and every chunk that enters (leaves) the square is the
/// new (old) chunk of some pair.
pub proof fn lemma_shift_moves_square(c: ChunkCoord, r: int, xo: int, zo: int)
    requires
        square_fits(c, r),
        -1 <= xo <= 1,
        -1 <= zo <= 1,
        (xo == 0) != (zo == 0),
    ensures
        forall|i: int|
            0 <= i < shift_len(r, xo, zo) ==> {
                &&& in_square(moved_centre(c, xo, zo), r, (#[trigger] shift_pair(c, r, xo, zo, i)).0)
                &&& !in_square(c, r, shift_pair(c, r, xo, zo, i).0)
                &&& in_square(c, r, shift_pair(c, r, xo, zo, i).1)
                &&& !in_square(moved_centre(c, xo, zo), r, shift_pair(c, r, xo, zo, i).1)
            },
        forall|p: ChunkCoord|
            #![trigger in_square(moved_centre(c, xo, zo), r, p)]
            in_square(moved_centre(c, xo, zo), r, p) && !in_square(c, r, p) ==> exists|i: int|
                0 <= i < shift_len(r, xo, zo) && (#[trigger] shift_pair(c, r, xo, zo, i)).0 == p,
        forall|q: ChunkCoord|
            #![trigger in_square(c, r, q)]
            in_square(c, r, q) && !in_square(moved_centre(c, xo, zo), r, q) ==> exists|i: int|
                0 <= i < shift_len(r, xo, zo) && (#[trigger] shift_pair(c, r, xo, zo, i)).1 == q,
{
    lemma_unit_mul(r + 1, xo);
    lemma_unit_mul(r, xo);
    lemma_unit_mul(r + 1, zo);
    lemma_unit_mul(r, zo);
    let m = moved_centre(c, xo, zo);
    assert forall|p: ChunkCoord| in_square(m, r, p) && !in_square(c, r, p) implies exists|i: int|
        0 <= i < shift_len(r, xo, zo) && (#[trigger] shift_pair(c, r, xo, zo, i)).0 == p by {
        let i = if zo != 0 {
            p.x - c.x + r
        } else {
            p.z - c.z + r
        };
        assert(shift_pair(c, r, xo, zo, i).0 == p);
    }
    assert forall|q: ChunkCoord| in_square(c, r, q) && !in_square(m, r, q) implies exists|i: int|
        0 <= i < shift_len(r, xo, zo) && (#[trigger] shift_pair(c, r, xo, zo, i)).1 == q by {
        let i = if zo != 0 {
            q.x - c.x + r
        } else {
            q.z - c.z + r
        };
        assert(shift_pair(c, r, xo, zo, i).1 == q);
    }
}

impl RealmData {
    /// Decides how the loaded square follows the player into chunk `new_coord`.
    pub fn plan_update(&self, new_coord: ChunkCoord) -> (u: ChunkUpdate)
        requires
            crate::coord::valid_chunk_coord(self.center_chunk_pos),
            crate::coord::valid_chunk_coord(new_coord),
        ensures
            ({
                let dx = new_coord.x - self.center_chunk_pos.x;
                let dz = new_coord.z - self.center_chunk_pos.z;
                &&& dx == 0 && dz == 0 ==> u == ChunkUpdate::Stay
                &&& !(dx == 0 && dz == 0) && -1 <= dx <= 1 && -1 <= dz <= 1 ==> u == (ChunkUpdate::Shift {
                    dx: dx as i32,
                    dz: dz as i32,
                })
                &&& !(-1 <= dx <= 1 && -1 <= dz <= 1) ==> u == ChunkUpdate::Reload
            }),
    {
        let dx = new_coord.x - self.center_chunk_pos.x;
        let dz = new_coord.z - self.center_chunk_pos.z;
        if dx == 0 && dz == 0 {
            ChunkUpdate::Stay
        } else if dx >= -1 && dx <= 1 && dz >= -1 && dz <= 1 {
            ChunkUpdate::Shift { dx, dz }
        } else {
            ChunkUpdate::Reload
        }
    }

    /// The chunks that enter and leave the loaded square when it moves by
    /// `x_offset`, `z_offset` from the current centre, as `(new, old)` pairs:
    /// each new chunk is to be loaded, and its old one unloaded once it is.
    pub fn shift_plan(&self, x_offset: i32, z_offset: i32) -> (plan: Vec<(ChunkCoord, ChunkCoord)>)
        requires
            -1 <= x_offset <= 1,
            -1 <= z_offset <= 1,
            square_fits(self.center_chunk_pos, self.chunk_rad as int),
        ensures
            plan.len() == shift_len(self.chunk_rad as int, x_offset as int, z_offset as int),
            forall|i: int|
                0 <= i < plan.len() ==> #[trigger] plan@[i] == shift_pair(
                    self.center_chunk_pos,
                    self.chunk_rad as int,
                    x_offset as int,
                    z_offset as int,
                    i,
                ),
    {
        let c = self.center_chunk_pos;
        let r = self.chunk_rad;
        let ghost w = 2 * r + 1;
        let mut plan: Vec<(ChunkCoord, ChunkCoord)> = Vec::new();
        if z_offset != 0 {
            let new_z = if z_offset > 0 {
                c.z + (r + 1)
            } else {
                c.z - (r + 1)
            };
            let old_z = if z_offset > 0 {
                c.z - r
            } else {
                c.z + r
            };
            proof {
                lemma_unit_mul(r + 1, z_offset as int);
                lemma_unit_mul(r as int, z_offset as int);
            }
            let mut x = -r;
            while x <= r
                invariant
                    -r <= x <= r + 1,
                    z_offset != 0,
                    square_fits(c, r as int),
                    c == self.center_chunk_pos,
                    r == self.chunk_rad,
                    new_z == c.z + (r + 1) * z_offset,
                    old_z == c.z - r * z_offset,
                    plan.len() == x + r,
                    forall|i: int|
                        0 <= i < plan.len() ==> #[trigger] plan@[i] == shift_pair(c, r as int, x_offset as int, z_offset as int, i),
                decreases r + 1 - x,
            {
                plan.push((ChunkCoord { x: c.x + x, z: new_z }, ChunkCoord { x: c.x + x, z: old_z }));
                x = x + 1;
            }
        }
        let ghost nz = plan.len();
        if x_offset != 0 {
            let new_x = if x_offset > 0 {
                c.x + (r + 1)
            } else {
                c.x - (r + 1)
            };
            let old_x = if x_offset > 0 {
                c.x - r
            } else {
                c.x + r
            };
            proof {
                lemma_unit_mul(r + 1, x_offset as int);
                lemma_unit_mul(r as int, x_offset as int);
            }
            let mut z = -r;
            while z <= r
                invariant
                    -r <= z <= r + 1,
                    x_offset != 0,
                    square_fits(c, r as int),
                    c == self.center_chunk_pos,
                    r == self.chunk_rad,
                    new_x == c.x + (r + 1) * x_offset,
                    old_x == c.x - r * x_offset,
                    nz == (if z_offset != 0 {
                        2 * r + 1
                    } else {
                        0
                    }),
                    plan.len() == nz + z + r,
                    forall|i: int|
                        0 <= i < plan.len() ==> #[trigger] plan@[i] == shift_pair(c, r as int, x_offset as int, z_offset as int, i),
                decreases r + 1 - z,
            {
                plan.push((ChunkCoord { x: new_x, z: c.z + z }, ChunkCoord { x: old_x, z: c.z + z }));
                z = z + 1;
            }
        }
        plan
    }

    /// The square of chunks of the current radius around `new_coord`, row by
    /// row: entry `a * (2r + 1) + b` is `(new_coord.x - r + a, new_coord.z - r + b)`.
    pub fn reload_plan(&self, new_coord: &ChunkCoord) -> (plan: Vec<ChunkCoord>)
        requires
            square_fits(*new_coord, self.chunk_rad as int),
        ensures
            plan.len() == (2 * self.chunk_rad + 1) * (2 * self.chunk_rad + 1),
            forall|a: int, b: int|
                0 <= a < 2 * self.chunk_rad + 1 && 0 <= b < 2 * self.chunk_rad + 1 ==> #[trigger] plan@[a * (2
                    * self.chunk_rad + 1) + b] == (ChunkCoord {
                    x: (new_coord.x - self.chunk_rad + a) as i32,
                    z: (new_coord.z - self.chunk_rad + b) as i32,
                }),
    {
        let r = self.chunk_rad;
        let c = *new_coord;
        let ghost w: int = 2 * r + 1;
        let mut plan: Vec<ChunkCoord> = Vec::new();
        let mut relative_x = -r;
        while relative_x <= r
            invariant
                -r <= relative_x <= r + 1,
                square_fits(c, r as int),
                r == self.chunk_rad,
                c == *new_coord,
                w == 2 * r + 1,
                plan.len() == (relative_x + r) * w,
                forall|a: int, b: int|
                    0 <= a < relative_x + r && 0 <= b < w ==> #[trigger] plan@[a * w + b] == (ChunkCoord {
                        x: (c.x - r + a) as i32,
                        z: (c.z - r + b) as i32,
                    }),
            decreases r + 1 - relative_x,
        {
            let ghost a0: int = relative_x + r;
            let mut relative_z = -r;
            while relative_z <= r
                invariant
                    -r <= relative_x <= r,
                    -r <= relative_z <= r + 1,
                    square_fits(c, r as int),
                    r == self.chunk_rad,
                    c == *new_coord,
                    w == 2 * r + 1,
                    a0 == relative_x + r,
                    plan.len() == a0 * w + relative_z + r,
                    forall|a: int, b: int|
                        0 <= a < a0 && 0 <= b < w ==> #[trigger] plan@[a * w + b] == (ChunkCoord {
                            x: (c.x - r + a) as i32,
                            z: (c.z - r + b) as i32,
                        }),
                    forall|b: int|
                        0 <= b < relative_z + r ==> #[trigger] plan@[a0 * w + b] == (ChunkCoord {
                            x: (c.x - r + a0) as i32,
                            z: (c.z - r + b) as i32,
                        }),
                decreases r + 1 - relative_z,
            {
                let ghost before = plan@;
                plan.push(ChunkCoord::new(c.x + relative_x, c.z + relative_z));
                proof {
                    assert forall|a: int, b: int| 0 <= a < a0 && 0 <= b < w implies #[trigger] plan@[a * w + b]
                        == (ChunkCoord { x: (c.x - r + a) as i32, z: (c.z - r + b) as i32 }) by {
                        assert(a * w + b < a0 * w) by (nonlinear_arith)
                            requires
                                0 <= a < a0,
                                0 <= b < w,
                        ;
                        assert(0 <= a * w + b) by (nonlinear_arith)
                            requires
                                0 <= a,
                                0 <= b,
                                0 < w,
                        ;
                        assert(before[a * w + b] == plan@[a * w + b]);
                    }
                    assert forall|b: int| 0 <= b < relative_z + 1 + r implies #[trigger] plan@[a0 * w + b]
                        == (ChunkCoord { x: (c.x - r + a0) as i32, z: (c.z - r + b) as i32 }) by {
                        assert(0 <= a0 * w) by (nonlinear_arith)
                            requires
                                0 <= a0,
                                0 < w,
                        ;
                        if b < relative_z + r {
                            assert(before[a0 * w + b] == plan@[a0 * w + b]);
                        }
                    }
                }
                relative_z = relative_z + 1;
            }
            proof {
                assert((a0 + 1) * w == a0 * w + w) by (nonlinear_arith);
                assert forall|a: int, b: int| 0 <= a < a0 + 1 && 0 <= b < w implies #[trigger] plan@[a * w + b]
                    == (ChunkCoord { x: (c.x - r + a) as i32, z: (c.z - r + b) as i32 }) by {
                    if a == a0 {
                    }
                }
            }
            relative_x = relative_x + 1;
        }
        plan
    }
}

/// The state a shift of the loaded square leaves: the centre chunk, the last
/// shift, and whether that shift still waits for chunks.
#[derive(Clone, Copy, Debug, PartialEq, Eq, Structural)]
pub struct ShiftOutcome {
    pub centre: ChunkCoord,
    pub pre_dx: i32,
    pub pre_dz: i32,
    pub is_loading: bool,
}

/// Ends a shift of the loaded square around `centre` by `dx`, `dz`: the
/// shift is remembered, it is still loading unless every entering chunk was
/// loaded, and only then does the centre move by the shift.
pub fn finish_shift(centre: ChunkCoord, dx: i32, dz: i32, loaded_all: bool) -> (r: ShiftOutcome)
    requires
        loaded_all ==> i32::MIN <= centre.x + dx <= i32::MAX,
        loaded_all ==> i32::MIN <= centre.z + dz <= i32::MAX,
    ensures
        r.pre_dx == dx,
        r.pre_dz == dz,
        r.is_loading == !loaded_all,
        loaded_all ==> r.centre == (ChunkCoord { x: (centre.x + dx) as i32, z: (centre.z + dz) as i32 }),
        !loaded_all ==> r.centre == centre,
{
    let centre = if loaded_all {
        ChunkCoord { x: centre.x + dx, z: centre.z + dz }
    } else {
        centre
    };
    ShiftOutcome { centre, pre_dx: dx, pre_dz: dz, is_loading: !loaded_all }
}

} // verus!
