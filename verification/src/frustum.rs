//! The precise view-frustum containment test.
//!
//! A frustum is six planes — near, far, top, bottom, left, right — each an
//! inward-facing half-space given by a point and a normal. A box counts as
//! visible when no plane fully separates it from the frustum: for every
//! plane, at least one of the box's eight corners has non-negative signed
//! distance. The test is conservative: it can admit a box near a corner of
//! the frustum, but it never rejects a box that intersects it.
//!
//! All arithmetic is exact. Directions come in as fixed-point vectors
//! scaled by `DIR_SCALE`; plane points live in world space scaled by
//! `DIR_SCALE`, and normals are unnormalized cross products — only the
//! sign of a signed distance matters, so no normalization is needed, and
//! each side plane takes the viewer position itself as its point, which
//! lies on it. The near-plane offsets `h_near` and `w_near` are the half
//! extents of the near rectangle, precomputed by the host from field of
//! view and aspect ratio.

use vstd::prelude::*;

use crate::vec3::{lemma_mul_bound, Vector3i, DIR_SCALE};

verus! {

/// Bound on the coordinates a frustum or tested box may reach.
pub const FRUSTUM_POS_LIMIT: i64 = 1048576;

/// Bound on the near-rectangle half extents and the near and far
/// distances.
pub const FRUSTUM_DIST_LIMIT: i64 = 65536;

/// One half-space: the points at non-negative signed distance, measured
/// along `normal` from `point`. Coordinates are world space scaled by
/// `DIR_SCALE`.
#[derive(Clone, Copy, PartialEq, Eq, Structural, Debug)]
pub struct Plane {
    pub point: Vector3i,
    pub normal: Vector3i,
}

/// An axis-aligned box in world space, as its two extreme corners.
#[derive(Clone, Copy, PartialEq, Eq, Structural, Debug)]
pub struct Aabb {
    pub min: Vector3i,
    pub max: Vector3i,
}

/// A view frustum: six inward-facing planes.
#[derive(Clone, Copy, PartialEq, Eq, Structural, Debug)]
pub struct ViewFrustum {
    pub near: Plane,
    pub far: Plane,
    pub top: Plane,
    pub bottom: Plane,
    pub left: Plane,
    pub right: Plane,
}

impl Plane {
    /// Field bounds under which a signed distance cannot overflow.
    pub open spec fn wf(self) -> bool {
        self.point.within(0x20000000) && self.normal.within(0x4000000000000000)
    }

    /// Signed distance of the world point `v` from the plane, scaled by
    /// the plane normal's magnitude: positive on the side the normal
    /// points to.
    pub open spec fn spec_distance(self, vx: int, vy: int, vz: int) -> int {
        (vx * DIR_SCALE - self.point.x) * self.normal.x + (vy * DIR_SCALE - self.point.y)
            * self.normal.y + (vz * DIR_SCALE - self.point.z) * self.normal.z
    }

    /// Signed distance of a world point from the plane.
    pub fn distance(&self, v: &Vector3i) -> (r: i128)
        requires
            self.wf(),
            v.within(FRUSTUM_POS_LIMIT as int),
        ensures
            r == self.spec_distance(v.x as int, v.y as int, v.z as int),
    {
        let dx = v.x as i128 * 128 - self.point.x as i128;
        let dy = v.y as i128 * 128 - self.point.y as i128;
        let dz = v.z as i128 * 128 - self.point.z as i128;
        proof {
            lemma_mul_bound(dx as int, self.normal.x as int, 0x40000000, 0x4000000000000000);
            lemma_mul_bound(dy as int, self.normal.y as int, 0x40000000, 0x4000000000000000);
            lemma_mul_bound(dz as int, self.normal.z as int, 0x40000000, 0x4000000000000000);
        }
        dx * self.normal.x as i128 + dy * self.normal.y as i128 + dz * self.normal.z as i128
    }
}

impl Aabb {
    /// The box's corners are ordered and in range.
    pub open spec fn wf(self) -> bool {
        &&& self.min.within(FRUSTUM_POS_LIMIT as int)
        &&& self.max.within(FRUSTUM_POS_LIMIT as int)
        &&& self.min.x <= self.max.x
        &&& self.min.y <= self.max.y
        &&& self.min.z <= self.max.z
    }

    /// Corner `j` of the box, the three bits of `j` choosing min or max
    /// along each axis.
    pub open spec fn spec_corner(self, j: int) -> (int, int, int) {
        (
            if j % 2 == 0 {
                self.min.x as int
            } else {
                self.max.x as int
            },
            if (j / 2) % 2 == 0 {
                self.min.y as int
            } else {
                self.max.y as int
            },
            if (j / 4) % 2 == 0 {
                self.min.z as int
            } else {
                self.max.z as int
            },
        )
    }
}

/// Some corner of the box lies on the inner side of the plane.
pub open spec fn spec_some_corner_inside(p: Plane, b: Aabb) -> bool {
    exists|j: int|
        0 <= j < 8 && p.spec_distance(
            #[trigger] b.spec_corner(j).0,
            b.spec_corner(j).1,
            b.spec_corner(j).2,
        ) >= 0
}

/// No plane of the frustum fully separates the box: the standard
/// conservative visibility test.
pub open spec fn spec_frustum_contains(f: ViewFrustum, b: Aabb) -> bool {
    &&& spec_some_corner_inside(f.near, b)
    &&& spec_some_corner_inside(f.far, b)
    &&& spec_some_corner_inside(f.top, b)
    &&& spec_some_corner_inside(f.bottom, b)
    &&& spec_some_corner_inside(f.left, b)
    &&& spec_some_corner_inside(f.right, b)
}

/// Whether some corner of `b` lies on the inner side of `p`.
fn some_corner_inside(p: &Plane, b: &Aabb) -> (r: bool)
    requires
        p.wf(),
        b.wf(),
    ensures
        r == spec_some_corner_inside(*p, *b),
{
    let mut j: usize = 0;
    while j < 8
        invariant
            p.wf(),
            b.wf(),
            j <= 8,
            forall|jj: int|
                0 <= jj < j ==> p.spec_distance(
                    #[trigger] b.spec_corner(jj).0,
                    b.spec_corner(jj).1,
                    b.spec_corner(jj).2,
                ) < 0,
        decreases 8 - j,
    {
        let cx = if j % 2 == 0 {
            b.min.x
        } else {
            b.max.x
        };
        let cy = if (j / 2) % 2 == 0 {
            b.min.y
        } else {
            b.max.y
        };
        let cz = if (j / 4) % 2 == 0 {
            b.min.z
        } else {
            b.max.z
        };
        let corner = Vector3i { x: cx, y: cy, z: cz };
        if p.distance(&corner) >= 0 {
            proof {
                assert(b.spec_corner(j as int).0 == cx as int);
            }
            return true;
        }
        j += 1;
    }
    false
}

impl ViewFrustum {
    /// Every plane's fields are in range.
    pub open spec fn wf(self) -> bool {
        &&& self.near.wf()
        &&& self.far.wf()
        &&& self.top.wf()
        &&& self.bottom.wf()
        &&& self.left.wf()
        &&& self.right.wf()
    }

    /// Whether the box is classified visible: no plane fully separates it
    /// from the frustum. A box crossing or touching the frustum is always
    /// admitted; a box entirely behind any single plane is always
    /// rejected.
    pub fn contains_box(&self, bounds: &Aabb) -> (r: bool)
        requires
            self.wf(),
            bounds.wf(),
        ensures
            r == spec_frustum_contains(*self, *bounds),
    {
        some_corner_inside(&self.near, bounds) && some_corner_inside(&self.far, bounds)
            && some_corner_inside(&self.top, bounds) && some_corner_inside(&self.bottom, bounds)
            && some_corner_inside(&self.left, bounds) && some_corner_inside(&self.right, bounds)
    }
}

/// The frustum of a viewer at `pos` looking along `dir` with head up along
/// `up`: near and far planes at the two view distances, and four side
/// planes through the viewer position, their normals built from the
/// unnormalized camera basis `x = up × z`, `y = z × x` with `z = -dir`.
pub open spec fn spec_frustum(
    pos: Vector3i,
    dir: Vector3i,
    up: Vector3i,
    h_near: i64,
    w_near: i64,
    near: i64,
    far: i64,
) -> ViewFrustum {
    let zx = -dir.x;
    let zy = -dir.y;
    let zz = -dir.z;
    let xx = up.y * zz - up.z * zy;
    let xy = up.z * zx - up.x * zz;
    let xz = up.x * zy - up.y * zx;
    let yx = zy * xz - zz * xy;
    let yy = zz * xx - zx * xz;
    let yz = zx * xy - zy * xx;
    let apex = Vector3i {
        x: (pos.x * DIR_SCALE) as i64,
        y: (pos.y * DIR_SCALE) as i64,
        z: (pos.z * DIR_SCALE) as i64,
    };
    let s2 = DIR_SCALE * DIR_SCALE;
    let tvx = s2 * near * dir.x + h_near * yx;
    let tvy = s2 * near * dir.y + h_near * yy;
    let tvz = s2 * near * dir.z + h_near * yz;
    let bvx = s2 * near * dir.x - h_near * yx;
    let bvy = s2 * near * dir.y - h_near * yy;
    let bvz = s2 * near * dir.z - h_near * yz;
    let lvx = DIR_SCALE * near * dir.x - w_near * xx;
    let lvy = DIR_SCALE * near * dir.y - w_near * xy;
    let lvz = DIR_SCALE * near * dir.z - w_near * xz;
    let rvx = DIR_SCALE * near * dir.x + w_near * xx;
    let rvy = DIR_SCALE * near * dir.y + w_near * xy;
    let rvz = DIR_SCALE * near * dir.z + w_near * xz;
    ViewFrustum {
        near: Plane {
            point: Vector3i {
                x: (apex.x + near * dir.x) as i64,
                y: (apex.y + near * dir.y) as i64,
                z: (apex.z + near * dir.z) as i64,
            },
            normal: dir,
        },
        far: Plane {
            point: Vector3i {
                x: (apex.x + far * dir.x) as i64,
                y: (apex.y + far * dir.y) as i64,
                z: (apex.z + far * dir.z) as i64,
            },
            normal: Vector3i { x: zx as i64, y: zy as i64, z: zz as i64 },
        },
        top: Plane {
            point: apex,
            normal: Vector3i {
                x: (tvy * xz - tvz * xy) as i64,
                y: (tvz * xx - tvx * xz) as i64,
                z: (tvx * xy - tvy * xx) as i64,
            },
        },
        bottom: Plane {
            point: apex,
            normal: Vector3i {
                x: (xy * bvz - xz * bvy) as i64,
                y: (xz * bvx - xx * bvz) as i64,
                z: (xx * bvy - xy * bvx) as i64,
            },
        },
        left: Plane {
            point: apex,
            normal: Vector3i {
                x: (lvy * yz - lvz * yy) as i64,
                y: (lvz * yx - lvx * yz) as i64,
                z: (lvx * yy - lvy * yx) as i64,
            },
        },
        right: Plane {
            point: apex,
            normal: Vector3i {
                x: (yy * rvz - yz * rvy) as i64,
                y: (yz * rvx - yx * rvz) as i64,
                z: (yx * rvy - yy * rvx) as i64,
            },
        },
    }
}

/// Inputs under which the construction stays exact.
pub open spec fn spec_frustum_args_wf(
    pos: Vector3i,
    dir: Vector3i,
    up: Vector3i,
    h_near: i64,
    w_near: i64,
    near: i64,
    far: i64,
) -> bool {
    &&& pos.within(FRUSTUM_POS_LIMIT as int)
    &&& dir.within(2 * DIR_SCALE)
    &&& up.within(2 * DIR_SCALE)
    &&& 0 <= h_near <= FRUSTUM_DIST_LIMIT
    &&& 0 <= w_near <= FRUSTUM_DIST_LIMIT
    &&& 0 <= near <= far <= FRUSTUM_DIST_LIMIT
}

impl ViewFrustum {
    /// Builds the view frustum of a viewer.
    pub fn new(
        pos: Vector3i,
        dir: Vector3i,
        up: Vector3i,
        h_near: i64,
        w_near: i64,
        near: i64,
        far: i64,
    ) -> (r: ViewFrustum)
        requires
            spec_frustum_args_wf(pos, dir, up, h_near, w_near, near, far),
        ensures
            r == spec_frustum(pos, dir, up, h_near, w_near, near, far),
            r.wf(),
    {
        let zx = -dir.x;
        let zy = -dir.y;
        let zz = -dir.z;
        proof {
            lemma_mul_bound(up.y as int, zz as int, 256, 256);
            lemma_mul_bound(up.z as int, zy as int, 256, 256);
            lemma_mul_bound(up.z as int, zx as int, 256, 256);
            lemma_mul_bound(up.x as int, zz as int, 256, 256);
            lemma_mul_bound(up.x as int, zy as int, 256, 256);
            lemma_mul_bound(up.y as int, zx as int, 256, 256);
        }
        let xx = up.y * zz - up.z * zy;
        let xy = up.z * zx - up.x * zz;
        let xz = up.x * zy - up.y * zx;
        proof {
            lemma_mul_bound(zy as int, xz as int, 256, 0x20000);
            lemma_mul_bound(zz as int, xy as int, 256, 0x20000);
            lemma_mul_bound(zz as int, xx as int, 256, 0x20000);
            lemma_mul_bound(zx as int, xz as int, 256, 0x20000);
            lemma_mul_bound(zx as int, xy as int, 256, 0x20000);
            lemma_mul_bound(zy as int, xx as int, 256, 0x20000);
        }
        let yx = zy * xz - zz * xy;
        let yy = zz * xx - zx * xz;
        let yz = zx * xy - zy * xx;
        let apex = Vector3i { x: pos.x * DIR_SCALE, y: pos.y * DIR_SCALE, z: pos.z * DIR_SCALE };
        let s2 = DIR_SCALE * DIR_SCALE;
        proof {
            assert(s2 == 16384);
            lemma_mul_bound(s2 as int, near as int, 16384, 0x10000);
            lemma_mul_bound(DIR_SCALE as int, near as int, 128, 0x10000);
            lemma_mul_bound((s2 * near) as int, dir.x as int, 0x40000000, 256);
            lemma_mul_bound((s2 * near) as int, dir.y as int, 0x40000000, 256);
            lemma_mul_bound((s2 * near) as int, dir.z as int, 0x40000000, 256);
            lemma_mul_bound(h_near as int, yx as int, 0x10000, 0x4000000);
            lemma_mul_bound(h_near as int, yy as int, 0x10000, 0x4000000);
            lemma_mul_bound(h_near as int, yz as int, 0x10000, 0x4000000);
            lemma_mul_bound((DIR_SCALE * near) as int, dir.x as int, 0x800000, 256);
            lemma_mul_bound((DIR_SCALE * near) as int, dir.y as int, 0x800000, 256);
            lemma_mul_bound((DIR_SCALE * near) as int, dir.z as int, 0x800000, 256);
            lemma_mul_bound(w_near as int, xx as int, 0x10000, 0x20000);
            lemma_mul_bound(w_near as int, xy as int, 0x10000, 0x20000);
            lemma_mul_bound(w_near as int, xz as int, 0x10000, 0x20000);
            lemma_mul_bound(near as int, dir.x as int, 0x10000, 256);
            lemma_mul_bound(near as int, dir.y as int, 0x10000, 256);
            lemma_mul_bound(near as int, dir.z as int, 0x10000, 256);
            lemma_mul_bound(far as int, dir.x as int, 0x10000, 256);
            lemma_mul_bound(far as int, dir.y as int, 0x10000, 256);
            lemma_mul_bound(far as int, dir.z as int, 0x10000, 256);
        }
        let tvx = s2 * near * dir.x + h_near * yx;
        let tvy = s2 * near * dir.y + h_near * yy;
        let tvz = s2 * near * dir.z + h_near * yz;
        let bvx = s2 * near * dir.x - h_near * yx;
        let bvy = s2 * near * dir.y - h_near * yy;
        let bvz = s2 * near * dir.z - h_near * yz;
        let lvx = DIR_SCALE * near * dir.x - w_near * xx;
        let lvy = DIR_SCALE * near * dir.y - w_near * xy;
        let lvz = DIR_SCALE * near * dir.z - w_near * xz;
        let rvx = DIR_SCALE * near * dir.x + w_near * xx;
        let rvy = DIR_SCALE * near * dir.y + w_near * xy;
        let rvz = DIR_SCALE * near * dir.z + w_near * xz;
        proof {
            lemma_mul_bound(tvy as int, xz as int, 0x80000000000, 0x20000);
            lemma_mul_bound(tvz as int, xy as int, 0x80000000000, 0x20000);
            lemma_mul_bound(tvz as int, xx as int, 0x80000000000, 0x20000);
            lemma_mul_bound(tvx as int, xz as int, 0x80000000000, 0x20000);
            lemma_mul_bound(tvx as int, xy as int, 0x80000000000, 0x20000);
            lemma_mul_bound(tvy as int, xx as int, 0x80000000000, 0x20000);
            lemma_mul_bound(xy as int, bvz as int, 0x20000, 0x80000000000);
            lemma_mul_bound(xz as int, bvy as int, 0x20000, 0x80000000000);
            lemma_mul_bound(xz as int, bvx as int, 0x20000, 0x80000000000);
            lemma_mul_bound(xx as int, bvz as int, 0x20000, 0x80000000000);
            lemma_mul_bound(xx as int, bvy as int, 0x20000, 0x80000000000);
            lemma_mul_bound(xy as int, bvx as int, 0x20000, 0x80000000000);
            lemma_mul_bound(lvy as int, yz as int, 0x400000000, 0x4000000);
            lemma_mul_bound(lvz as int, yy as int, 0x400000000, 0x4000000);
            lemma_mul_bound(lvz as int, yx as int, 0x400000000, 0x4000000);
            lemma_mul_bound(lvx as int, yz as int, 0x400000000, 0x4000000);
            lemma_mul_bound(lvx as int, yy as int, 0x400000000, 0x4000000);
            lemma_mul_bound(lvy as int, yx as int, 0x400000000, 0x4000000);
            lemma_mul_bound(yy as int, rvz as int, 0x4000000, 0x400000000);
            lemma_mul_bound(yz as int, rvy as int, 0x4000000, 0x400000000);
            lemma_mul_bound(yz as int, rvx as int, 0x4000000, 0x400000000);
            lemma_mul_bound(yx as int, rvz as int, 0x4000000, 0x400000000);
            lemma_mul_bound(yx as int, rvy as int, 0x4000000, 0x400000000);
            lemma_mul_bound(yy as int, rvx as int, 0x4000000, 0x400000000);
        }
        ViewFrustum {
            near: Plane {
                point: Vector3i {
                    x: apex.x + near * dir.x,
                    y: apex.y + near * dir.y,
                    z: apex.z + near * dir.z,
                },
                normal: dir,
            },
            far: Plane {
                point: Vector3i {
                    x: apex.x + far * dir.x,
                    y: apex.y + far * dir.y,
                    z: apex.z + far * dir.z,
                },
                normal: Vector3i { x: zx, y: zy, z: zz },
            },
            top: Plane {
                point: apex,
                normal: Vector3i {
                    x: tvy * xz - tvz * xy,
                    y: tvz * xx - tvx * xz,
                    z: tvx * xy - tvy * xx,
                },
            },
            bottom: Plane {
                point: apex,
                normal: Vector3i {
                    x: xy * bvz - xz * bvy,
                    y: xz * bvx - xx * bvz,
                    z: xx * bvy - xy * bvx,
                },
            },
            left: Plane {
                point: apex,
                normal: Vector3i {
                    x: lvy * yz - lvz * yy,
                    y: lvz * yx - lvx * yz,
                    z: lvx * yy - lvy * yx,
                },
            },
            right: Plane {
                point: apex,
                normal: Vector3i {
                    x: yy * rvz - yz * rvy,
                    y: yz * rvx - yx * rvz,
                    z: yx * rvy - yy * rvx,
                },
            },
        }
    }
}

/// Whether the box is visible to a viewer with the given pose and frustum
/// shape.
pub fn is_box_visible(
    pos: Vector3i,
    dir: Vector3i,
    up: Vector3i,
    h_near: i64,
    w_near: i64,
    near: i64,
    far: i64,
    bounds: &Aabb,
) -> (r: bool)
    requires
        spec_frustum_args_wf(pos, dir, up, h_near, w_near, near, far),
        bounds.wf(),
    ensures
        r == spec_frustum_contains(
            spec_frustum(pos, dir, up, h_near, w_near, near, far),
            *bounds,
        ),
{
    let f = ViewFrustum::new(pos, dir, up, h_near, w_near, near, far);
    f.contains_box(bounds)
}

/// A box entirely behind one plane of the frustum — every corner at
/// negative signed distance — is never classified visible. In particular
/// a box entirely behind the far plane, or entirely on the viewer's side
/// of the near plane, is rejected.
pub proof fn lemma_separating_plane_rejects(f: ViewFrustum, b: Aabb, p: Plane)
    requires
        p == f.near || p == f.far || p == f.top || p == f.bottom || p == f.left || p == f.right,
        forall|j: int|
            0 <= j < 8 ==> p.spec_distance(
                #[trigger] b.spec_corner(j).0,
                b.spec_corner(j).1,
                b.spec_corner(j).2,
            ) < 0,
    ensures
        !spec_frustum_contains(f, b),
{
    if spec_frustum_contains(f, b) {
        assert(spec_some_corner_inside(p, b));
        let j = choose|j: int|
            0 <= j < 8 && p.spec_distance(
                #[trigger] b.spec_corner(j).0,
                b.spec_corner(j).1,
                b.spec_corner(j).2,
            ) >= 0;
        assert(false);
    }
}

/// A degenerate box at the viewer position is always classified visible
/// when the near distance is zero: the viewer stands on the near plane,
/// ahead of the far plane, and on every side plane.
/// A plane through a point is at distance zero from it.
proof fn lemma_zero_distance(p: Plane, vx: int, vy: int, vz: int)
    requires
        p.point.x == vx * 128,
        p.point.y == vy * 128,
        p.point.z == vz * 128,
    ensures
        p.spec_distance(vx, vy, vz) == 0,
{
    assert((vx * 128 - p.point.x) * p.normal.x + (vy * 128 - p.point.y) * p.normal.y + (vz * 128
        - p.point.z) * p.normal.z == 0) by (nonlinear_arith)
        requires
            p.point.x == vx * 128,
            p.point.y == vy * 128,
            p.point.z == vz * 128,
    ;
}

/// A degenerate box at the viewer position is always classified visible
/// when the near distance is zero: the viewer stands on the near plane,
/// ahead of the far plane, and on every side plane. With a positive near
/// distance the point would fall on the viewer's side of the near plane
/// and be rejected.
pub proof fn lemma_viewer_point_visible(
    pos: Vector3i,
    dir: Vector3i,
    up: Vector3i,
    h_near: i64,
    w_near: i64,
    far: i64,
    b: Aabb,
)
    requires
        spec_frustum_args_wf(pos, dir, up, h_near, w_near, 0, far),
        b.min == pos,
        b.max == pos,
    ensures
        spec_frustum_contains(spec_frustum(pos, dir, up, h_near, w_near, 0, far), b),
{
    let f = spec_frustum(pos, dir, up, h_near, w_near, 0, far);
    let px = pos.x as int;
    let py = pos.y as int;
    let pz = pos.z as int;
    lemma_mul_bound(0, dir.x as int, 0, 256);
    lemma_mul_bound(0, dir.y as int, 0, 256);
    lemma_mul_bound(0, dir.z as int, 0, 256);
    lemma_mul_bound(far as int, dir.x as int, 0x10000, 256);
    lemma_mul_bound(far as int, dir.y as int, 0x10000, 256);
    lemma_mul_bound(far as int, dir.z as int, 0x10000, 256);
    assert(b.spec_corner(0) == (px, py, pz));
    assert(f.near.point.x == px * 128 && f.near.point.y == py * 128 && f.near.point.z == pz
        * 128);
    lemma_zero_distance(f.near, px, py, pz);
    lemma_zero_distance(f.top, px, py, pz);
    lemma_zero_distance(f.bottom, px, py, pz);
    lemma_zero_distance(f.left, px, py, pz);
    lemma_zero_distance(f.right, px, py, pz);
    assert(f.far.spec_distance(px, py, pz) >= 0) by (nonlinear_arith)
        requires
            far >= 0,
            f.far.point.x == px * 128 + far * dir.x,
            f.far.point.y == py * 128 + far * dir.y,
            f.far.point.z == pz * 128 + far * dir.z,
            f.far.normal.x == -dir.x,
            f.far.normal.y == -dir.y,
            f.far.normal.z == -dir.z,
    ;
    assert(spec_some_corner_inside(f.near, b)) by {
        assert(b.spec_corner(0).0 == px);
    }
    assert(spec_some_corner_inside(f.far, b)) by {
        assert(b.spec_corner(0).0 == px);
    }
    assert(spec_some_corner_inside(f.top, b)) by {
        assert(b.spec_corner(0).0 == px);
    }
    assert(spec_some_corner_inside(f.bottom, b)) by {
        assert(b.spec_corner(0).0 == px);
    }
    assert(spec_some_corner_inside(f.left, b)) by {
        assert(b.spec_corner(0).0 == px);
    }
    assert(spec_some_corner_inside(f.right, b)) by {
        assert(b.spec_corner(0).0 == px);
    }
}

} // verus!
