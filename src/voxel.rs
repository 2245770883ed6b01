//! A fixed-capacity uniform grid of buckets over 3D points.
//!
//! The grid has `cells_x * cells_y * cells_z` cells, each a bucket of
//! `max_density` slots, all allocated up front. A cell `(x, y, z)` has the
//! linear index `x + y * cells_x + z * cells_x * cells_y`, and its bucket
//! starts at slot `index * max_density`. Positions are carried through
//! untouched; where a position falls in the grid is decided by the caller,
//! which hands the index the cell coordinates.
use vstd::prelude::*;

verus! {

/// One slot of the index: a position and whether the slot is in use.
#[derive(Clone, Copy, Debug)]
pub struct VoxelItem {
    pub position: glam::Vec3,
    pub occupied: bool,
}

impl VoxelItem {
    /// An item at `position`, not yet stored in any slot.
    pub fn new(position: glam::Vec3) -> (r: VoxelItem)
        ensures
            r.position == position,
            !r.occupied,
    {
        VoxelItem { position, occupied: false }
    }
}

/// The item as a slot holds it after it was stored.
pub open spec fn placed(item: VoxelItem) -> VoxelItem {
    VoxelItem { position: item.position, occupied: true }
}

/// A slot in use that holds `position`.
pub open spec fn stored(position: glam::Vec3) -> VoxelItem {
    VoxelItem { position, occupied: true }
}

pub open spec fn occupied_pred() -> spec_fn(VoxelItem) -> bool {
    |it: VoxelItem| it.occupied
}

/// Why the index refused an operation.
#[derive(Clone, Copy, Debug, PartialEq, Eq, Structural)]
pub enum VoxelError {
    /// The cell lies outside the grid.
    OutOfBounds,
    /// Every slot of the cell's bucket is in use.
    CellFull,
    /// The grid's slot count does not fit in memory's address range.
    TooLarge,
    /// A read-back result array is shorter than the index it belongs to.
    ResultsTooShort,
}

/// A position together with the cell of the grid it falls in.
#[derive(Clone, Copy, Debug)]
pub struct CellPoint {
    pub x: usize,
    pub y: usize,
    pub z: usize,
    pub position: glam::Vec3,
}

/// The value a nearest-neighbour query writes for a query slot that found
/// no stored item in its neighbourhood.
pub const NOT_FOUND: u32 = 0xFFFF;

/// What a nearest-neighbour pass wrote for query slot `s`: the slot of
/// the nearest stored item, or nothing.
pub open spec fn neighbour_at(results: Seq<u32>, s: int) -> Option<u32> {
    if results[s] == NOT_FOUND {
        None
    } else {
        Some(results[s])
    }
}

/// For each query point, the slot of its nearest stored item, read from the
/// per-slot results of a nearest-neighbour pass at the query's slot
/// `slots[k]`. Refused whole when a slot lies beyond the results.
pub fn neighbours_of_queries(results: &Vec<u32>, slots: &Vec<usize>) -> (r: Result<
    Vec<Option<u32>>,
    VoxelError,
>)
    ensures
        r is Ok <==> forall|k: int| 0 <= k < slots@.len() ==> #[trigger] slots@[k] < results@.len(),
        r is Err ==> r == Err::<Vec<Option<u32>>, VoxelError>(VoxelError::ResultsTooShort),
        r matches Ok(n) ==> n@.len() == slots@.len() && forall|k: int|
            0 <= k < n@.len() ==> #[trigger] n@[k] == neighbour_at(results@, slots@[k] as int),
{
    let mut out: Vec<Option<u32>> = Vec::new();
    let mut k: usize = 0;
    while k < slots.len()
        invariant
            k <= slots@.len(),
            out@.len() == k,
            forall|j: int| 0 <= j < k ==> #[trigger] slots@[j] < results@.len(),
            forall|j: int|
                0 <= j < k ==> #[trigger] out@[j] == neighbour_at(results@, slots@[j] as int),
        decreases slots@.len() - k,
    {
        let s = slots[k];
        if s >= results.len() {
            return Err(VoxelError::ResultsTooShort);
        }
        let v = results[s];
        out.push(if v == NOT_FOUND { None } else { Some(v) });
        k += 1;
    }
    Ok(out)
}

pub open spec fn same_cell(p: CellPoint, x: int, y: int, z: int) -> bool {
    p.x == x && p.y == y && p.z == z
}

/// How many of `points` fall in cell `(x, y, z)`.
pub open spec fn count_in_cell(points: Seq<CellPoint>, x: int, y: int, z: int) -> nat
    decreases points.len(),
{
    if points.len() == 0 {
        0
    } else {
        count_in_cell(points.drop_last(), x, y, z) + if same_cell(points.last(), x, y, z) {
            1nat
        } else {
            0nat
        }
    }
}

proof fn lemma_count_prefix_le(points: Seq<CellPoint>, a: int, x: int, y: int, z: int)
    requires
        0 <= a <= points.len(),
    ensures
        count_in_cell(points.take(a), x, y, z) <= count_in_cell(points, x, y, z),
    decreases points.len() - a,
{
    if a < points.len() {
        lemma_count_prefix_le(points, a + 1, x, y, z);
        assert(points.take(a + 1).drop_last() =~= points.take(a));
    } else {
        assert(points.take(a) =~= points);
    }
}

/// Relies on glam::Vec3::ZERO: the position that empty slots hold.
#[verifier::external_body]
fn origin() -> glam::Vec3 {
    glam::Vec3::ZERO
}

/// The dense voxel index.
pub struct DenseVoxel {
    width_steps: usize,
    length_steps: usize,
    height_steps: usize,
    max_density: u32,
    data_on_cpu: Vec<VoxelItem>,
}

proof fn lemma_cell_in_range(cx: int, cy: int, cz: int, d: int, x: int, y: int, z: int)
    requires
        0 <= x < cx,
        0 <= y < cy,
        0 <= z < cz,
        0 <= d,
    ensures
        0 <= x + y * cx + z * cx * cy < cx * cy * cz,
        0 <= (x + y * cx + z * cx * cy) * d,
        (x + y * cx + z * cx * cy) * d + d <= cx * cy * cz * d,
{
    assert(0 <= y * cx <= (cy - 1) * cx) by (nonlinear_arith)
        requires
            0 <= y < cy,
            0 < cx,
    ;
    assert((cy - 1) * cx == cx * cy - cx) by (nonlinear_arith);
    assert(0 <= z * cx * cy <= (cz - 1) * (cx * cy)) by (nonlinear_arith)
        requires
            0 <= z < cz,
            0 < cx,
            0 < cy,
    ;
    assert((cz - 1) * (cx * cy) == cx * cy * cz - cx * cy) by (nonlinear_arith);
    let c = x + y * cx + z * cx * cy;
    assert(0 <= c * d) by (nonlinear_arith)
        requires
            0 <= c,
            0 <= d,
    ;
    assert(c * d + d <= cx * cy * cz * d) by (nonlinear_arith)
        requires
            0 <= c < cx * cy * cz,
            0 <= d,
    ;
}

proof fn lemma_filter_all_occupied(s: Seq<VoxelItem>)
    requires
        forall|j: int| 0 <= j < s.len() ==> #[trigger] s[j].occupied,
    ensures
        s.filter(occupied_pred()) == s,
    decreases s.len(),
{
    reveal_with_fuel(Seq::filter, 1);
    if s.len() > 0 {
        lemma_filter_all_occupied(s.drop_last());
        assert(s.drop_last().push(s.last()) =~= s);
    }
}

/// Splits a bucket at slot `k`, every slot before which is in use: its
/// stored items are that prefix, then slot `k` if in use, then what the
/// rest holds.
proof fn lemma_filter_split(b: Seq<VoxelItem>, k: int)
    requires
        0 <= k < b.len(),
        forall|j: int| 0 <= j < k ==> #[trigger] b[j].occupied,
    ensures
        b.filter(occupied_pred()) == b.subrange(0, k) + seq![b[k]].filter(occupied_pred()) + b.subrange(
            k + 1,
            b.len() as int,
        ).filter(occupied_pred()),
{
    let pre = b.subrange(0, k);
    let mid = seq![b[k]];
    let post = b.subrange(k + 1, b.len() as int);
    assert(b =~= pre + mid + post);
    Seq::filter_distributes_over_add(pre + mid, post, occupied_pred());
    Seq::filter_distributes_over_add(pre, mid, occupied_pred());
    lemma_filter_all_occupied(pre);
}

proof fn lemma_filter_none_occupied(s: Seq<VoxelItem>)
    requires
        forall|j: int| 0 <= j < s.len() ==> !(#[trigger] s[j]).occupied,
    ensures
        s.filter(occupied_pred()).len() == 0,
    decreases s.len(),
{
    reveal_with_fuel(Seq::filter, 1);
    if s.len() > 0 {
        lemma_filter_none_occupied(s.drop_last());
    }
}

proof fn lemma_filter_keeps_all(s: Seq<VoxelItem>)
    ensures
        s.filter(occupied_pred()).len() == s.len() <==> forall|j: int|
            0 <= j < s.len() ==> #[trigger] s[j].occupied,
    decreases s.len(),
{
    reveal_with_fuel(Seq::filter, 1);
    if s.len() > 0 {
        let dl = s.drop_last();
        lemma_filter_keeps_all(dl);
        dl.lemma_filter_len(occupied_pred());
        if !s.last().occupied {
            assert(!s[s.len() - 1].occupied);
        } else if dl.filter(occupied_pred()).len() == dl.len() {
            assert forall|j: int| 0 <= j < s.len() implies #[trigger] s[j].occupied by {
                if j < s.len() - 1 {
                    assert(dl[j] == s[j]);
                }
            }
        } else {
            let j0 = choose|j: int| 0 <= j < dl.len() && !(#[trigger] dl[j]).occupied;
            assert(!s[j0].occupied);
        }
    }
}

impl DenseVoxel {
    /// Number of cells along X.
    pub closed spec fn cells_x(&self) -> int {
        self.width_steps as int
    }

    /// Number of cells along Y.
    pub closed spec fn cells_y(&self) -> int {
        self.length_steps as int
    }

    /// Number of cells along Z.
    pub closed spec fn cells_z(&self) -> int {
        self.height_steps as int
    }

    /// Slots per cell.
    pub closed spec fn density(&self) -> int {
        self.max_density as int
    }

    /// Every slot of the index, bucket after bucket.
    pub closed spec fn slots(&self) -> Seq<VoxelItem> {
        self.data_on_cpu@
    }

    pub open spec fn capacity_spec(&self) -> int {
        self.cells_x() * self.cells_y() * self.cells_z() * self.density()
    }

    pub open spec fn wf(&self) -> bool {
        &&& self.slots().len() == self.capacity_spec()
        &&& self.capacity_spec() <= usize::MAX
    }

    pub open spec fn same_grid(&self, other: &DenseVoxel) -> bool {
        &&& self.cells_x() == other.cells_x()
        &&& self.cells_y() == other.cells_y()
        &&& self.cells_z() == other.cells_z()
        &&& self.density() == other.density()
    }

    pub open spec fn in_grid(&self, x: int, y: int, z: int) -> bool {
        0 <= x < self.cells_x() && 0 <= y < self.cells_y() && 0 <= z < self.cells_z()
    }

    /// Linear index of cell `(x, y, z)`.
    pub open spec fn cell_index(&self, x: int, y: int, z: int) -> int {
        x + y * self.cells_x() + z * self.cells_x() * self.cells_y()
    }

    /// First slot of the bucket of cell `(x, y, z)`.
    pub open spec fn bucket_start(&self, x: int, y: int, z: int) -> int {
        self.cell_index(x, y, z) * self.density()
    }

    pub open spec fn bucket(&self, x: int, y: int, z: int) -> Seq<VoxelItem> {
        let s = self.bucket_start(x, y, z);
        self.slots().subrange(s, s + self.density())
    }

    /// The items stored in cell `(x, y, z)`, in slot order; none outside
    /// the grid.
    pub open spec fn items_in_cell(&self, x: int, y: int, z: int) -> Seq<VoxelItem> {
        if self.in_grid(x, y, z) {
            self.bucket(x, y, z).filter(occupied_pred())
        } else {
            Seq::empty()
        }
    }

    pub open spec fn cell_full(&self, x: int, y: int, z: int) -> bool {
        let s = self.bucket_start(x, y, z);
        forall|j: int| s <= j < s + self.density() ==> #[trigger] self.slots()[j].occupied
    }

    /// The cell whose bucket holds slot `i`.
    pub open spec fn cell_of_slot(&self, i: int) -> (int, int, int) {
        let per_z: int = self.cells_x() * self.cells_y() * self.density();
        let per_y: int = self.cells_x() * self.density();
        let rest: int = i % per_z;
        ((rest % per_y) / (self.density()), rest / per_y, i / per_z)
    }

    /// Slot `i` is where an insertion into cell `(x, y, z)` lands: the first
    /// slot of that cell's bucket not in use.
    pub open spec fn first_free_in_cell(&self, x: int, y: int, z: int, i: int) -> bool {
        let s = self.bucket_start(x, y, z);
        &&& s <= i < s + self.density()
        &&& !self.slots()[i].occupied
        &&& forall|j: int| s <= j < i ==> #[trigger] self.slots()[j].occupied
    }

    pub proof fn lemma_cell_of_slot_in_grid(&self, i: int)
        requires
            self.wf(),
            0 <= i < self.capacity_spec(),
        ensures
            self.in_grid(self.cell_of_slot(i).0, self.cell_of_slot(i).1, self.cell_of_slot(i).2),
            self.cells_x() >= 1,
            self.cells_y() >= 1,
            self.cells_z() >= 1,
            self.density() >= 1,
    {
        let cx = self.cells_x();
        let cy = self.cells_y();
        let cz = self.cells_z();
        let d = self.density();
        assert(cx >= 1 && cy >= 1 && cz >= 1 && d >= 1) by (nonlinear_arith)
            requires
                0 <= i < cx * cy * cz * d,
                cx >= 0,
                cy >= 0,
                cz >= 0,
                d >= 0,
        ;
        let per_z = cx * cy * d;
        let per_y = cx * d;
        assert(per_z >= 1 && per_y >= 1 && per_z == per_y * cy) by (nonlinear_arith)
            requires
                cx >= 1,
                cy >= 1,
                d >= 1,
                per_z == cx * cy * d,
                per_y == cx * d,
        ;
        let rest = i % per_z;
        assert(i / per_z < cz) by {
            vstd::arithmetic::div_mod::lemma_div_is_ordered(i, cx * cy * cz * d - 1, per_z);
            assert(cx * cy * cz * d - 1 == (cz - 1) * per_z + (per_z - 1)) by (nonlinear_arith)
                requires
                    per_z == cx * cy * d,
            ;
            vstd::arithmetic::div_mod::lemma_fundamental_div_mod_converse(
                cx * cy * cz * d - 1,
                per_z,
                cz - 1,
                per_z - 1,
            );
        }
        vstd::arithmetic::div_mod::lemma_div_pos_is_pos(i, per_z);
        assert(rest / per_y < cy) by {
            vstd::arithmetic::div_mod::lemma_div_is_ordered(rest, per_z - 1, per_y);
            assert(per_z - 1 == (cy - 1) * per_y + (per_y - 1)) by (nonlinear_arith)
                requires
                    per_z == per_y * cy,
            ;
            vstd::arithmetic::div_mod::lemma_fundamental_div_mod_converse(
                per_z - 1,
                per_y,
                cy - 1,
                per_y - 1,
            );
        }
        vstd::arithmetic::div_mod::lemma_div_pos_is_pos(rest, per_y);
        let r2 = rest % per_y;
        assert(r2 / d < cx) by {
            vstd::arithmetic::div_mod::lemma_div_is_ordered(r2, per_y - 1, d);
            assert(per_y - 1 == (cx - 1) * d + (d - 1)) by (nonlinear_arith)
                requires
                    per_y == cx * d,
            ;
            vstd::arithmetic::div_mod::lemma_fundamental_div_mod_converse(
                per_y - 1,
                d,
                cx - 1,
                d - 1,
            );
        }
        vstd::arithmetic::div_mod::lemma_div_pos_is_pos(r2, d);
    }

    /// A stored item is found again in its cell: after `item` went into slot
    /// `i`, the first free slot of cell `(x, y, z)`, the cell's items are
    /// those it held before with `item` added once, at the place of slot `i`
    /// in the bucket.
    pub proof fn lemma_added_item_in_cell(
        before: &DenseVoxel,
        after: &DenseVoxel,
        x: int,
        y: int,
        z: int,
        i: int,
        item: VoxelItem,
    )
        requires
            before.wf(),
            before.in_grid(x, y, z),
            before.first_free_in_cell(x, y, z, i),
            after.same_grid(before),
            after.slots() == before.slots().update(i, placed(item)),
        ensures
            after.items_in_cell(x, y, z) == before.items_in_cell(x, y, z).insert(
                i - before.bucket_start(x, y, z),
                placed(item),
            ),
            after.items_in_cell(x, y, z).contains(placed(item)),
            after.items_in_cell(x, y, z).len() == before.items_in_cell(x, y, z).len() + 1,
    {
        before.lemma_bucket_in_range(x, y, z);
        let s = before.bucket_start(x, y, z);
        let d = before.density();
        let k = i - s;
        let b0 = before.bucket(x, y, z);
        let b1 = after.bucket(x, y, z);
        assert(b1 =~= b0.update(k, placed(item)));
        assert forall|j: int| 0 <= j < k implies #[trigger] b0[j].occupied by {
            assert(before.slots()[s + j].occupied);
        }
        assert forall|j: int| 0 <= j < k implies #[trigger] b1[j].occupied by {
            assert(b1[j] == b0[j]);
        }
        lemma_filter_split(b0, k);
        lemma_filter_split(b1, k);
        reveal_with_fuel(Seq::filter, 2);
        assert(seq![b0[k]].drop_last() =~= Seq::<VoxelItem>::empty());
        assert(seq![b1[k]].drop_last() =~= Seq::<VoxelItem>::empty());
        assert(seq![b0[k]].filter(occupied_pred()) =~= Seq::<VoxelItem>::empty());
        assert(seq![b1[k]].filter(occupied_pred()) =~= seq![placed(item)]);
        assert(b1.subrange(k + 1, d) =~= b0.subrange(k + 1, d));
        assert(b1.subrange(0, k) =~= b0.subrange(0, k));
        let rest = b0.subrange(k + 1, d).filter(occupied_pred());
        assert(b0.subrange(0, k) + Seq::<VoxelItem>::empty() + rest =~= b0.subrange(0, k) + rest);
        assert((b0.subrange(0, k) + rest).insert(k, placed(item)) =~= b0.subrange(0, k) + seq![
            placed(item),
        ] + rest);
        assert(after.items_in_cell(x, y, z)[k] == placed(item));
        assert(before.items_in_cell(x, y, z).len() >= k);
    }

    /// Every slot of the bucket of cell `(x, y, z)` leads back to that cell.
    pub proof fn lemma_slot_round_trip(&self, x: int, y: int, z: int, k: int)
        requires
            self.wf(),
            self.in_grid(x, y, z),
            0 <= k < self.density(),
        ensures
            self.cell_of_slot(self.bucket_start(x, y, z) + k) == (x, y, z),
    {
        let cx = self.cells_x();
        let cy = self.cells_y();
        let d = self.density();
        let per_z = cx * cy * d;
        let per_y = cx * d;
        let i = self.bucket_start(x, y, z) + k;
        lemma_cell_in_range(cx, cy, self.cells_z(), d, x, y, z);
        let r1 = (x + y * cx) * d + k;
        let r2 = x * d + k;
        assert(i == z * per_z + r1 && r1 == y * per_y + r2) by (nonlinear_arith)
            requires
                i == (x + y * cx + z * cx * cy) * d + k,
                per_z == cx * cy * d,
                per_y == cx * d,
                r1 == (x + y * cx) * d + k,
                r2 == x * d + k,
        ;
        assert(0 <= r2 < per_y && 0 <= r1 < per_z) by (nonlinear_arith)
            requires
                0 <= x < cx,
                0 <= y < cy,
                0 <= k < d,
                per_z == cx * cy * d,
                per_y == cx * d,
                r1 == y * per_y + r2,
                r2 == x * d + k,
        ;
        vstd::arithmetic::div_mod::lemma_fundamental_div_mod_converse(i, per_z, z, r1);
        vstd::arithmetic::div_mod::lemma_fundamental_div_mod_converse(r1, per_y, y, r2);
        vstd::arithmetic::div_mod::lemma_fundamental_div_mod_converse(r2, d, x, k);
    }

    /// A cell holds `max_density` items exactly when every slot of its
    /// bucket is in use, the case in which `add_item` refuses it.
    pub proof fn lemma_full_iff_at_density(&self, x: int, y: int, z: int)
        requires
            self.wf(),
            self.in_grid(x, y, z),
        ensures
            self.items_in_cell(x, y, z).len() == self.density() <==> self.cell_full(x, y, z),
    {
        self.lemma_bucket_in_range(x, y, z);
        let s = self.bucket_start(x, y, z);
        let b = self.bucket(x, y, z);
        lemma_filter_keeps_all(b);
        if self.cell_full(x, y, z) {
            assert forall|j: int| 0 <= j < b.len() implies #[trigger] b[j].occupied by {
                assert(self.slots()[s + j].occupied);
            }
        }
        if forall|j: int| 0 <= j < b.len() ==> #[trigger] b[j].occupied {
            assert forall|j: int| s <= j < s + self.density() implies #[trigger] self.slots()[j].occupied by {
                assert(b[j - s] == self.slots()[j]);
            }
        }
    }

    pub proof fn lemma_bucket_in_range(&self, x: int, y: int, z: int)
        requires
            self.in_grid(x, y, z),
        ensures
            0 <= self.bucket_start(x, y, z),
            self.bucket_start(x, y, z) + self.density() <= self.capacity_spec(),
    {
        lemma_cell_in_range(
            self.cells_x(),
            self.cells_y(),
            self.cells_z(),
            self.density(),
            x,
            y,
            z,
        );
    }

    /// An empty index of `width_steps * length_steps * height_steps` cells
    /// with `max_density` slots each.
    pub fn new(width_steps: usize, length_steps: usize, height_steps: usize, max_density: u32) -> (r:
        Result<DenseVoxel, VoxelError>)
        ensures
            width_steps * length_steps * height_steps * max_density <= usize::MAX <==> r is Ok,
            r is Err ==> r == Err::<DenseVoxel, VoxelError>(VoxelError::TooLarge),
            r matches Ok(v) ==> {
                &&& v.wf()
                &&& v.cells_x() == width_steps
                &&& v.cells_y() == length_steps
                &&& v.cells_z() == height_steps
                &&& v.density() == max_density
                &&& forall|i: int| 0 <= i < v.slots().len() ==> !(#[trigger] v.slots()[i]).occupied
            },
    {
        let total = if width_steps == 0 || length_steps == 0 || height_steps == 0 || max_density
            == 0 {
            Some(0usize)
        } else {
            match width_steps.checked_mul(length_steps) {
                Some(a) => match a.checked_mul(height_steps) {
                    Some(b) => b.checked_mul(max_density as usize),
                    None => None,
                },
                None => None,
            }
        };
        proof {
            let w = width_steps as int;
            let l = length_steps as int;
            let h = height_steps as int;
            let m = max_density as int;
            if w == 0 || l == 0 || h == 0 || m == 0 {
                assert(w * l * h * m == 0) by (nonlinear_arith)
                    requires
                        w == 0 || l == 0 || h == 0 || m == 0,
                ;
            } else {
                assert(w * l * h * m >= w * l * h >= w * l) by (nonlinear_arith)
                    requires
                        w >= 1,
                        l >= 1,
                        h >= 1,
                        m >= 1,
                ;
            }
        }
        let total = match total {
            Some(t) => t,
            None => {
                return Err(VoxelError::TooLarge);
            },
        };
        let empty = VoxelItem { position: origin(), occupied: false };
        let mut data_on_cpu: Vec<VoxelItem> = Vec::new();
        let mut i: usize = 0;
        while i < total
            invariant
                i <= total,
                !empty.occupied,
                data_on_cpu@.len() == i,
                forall|j: int| 0 <= j < i ==> !(#[trigger] data_on_cpu@[j]).occupied,
            decreases total - i,
        {
            data_on_cpu.push(empty);
            i += 1;
        }
        Ok(DenseVoxel { width_steps, length_steps, height_steps, max_density, data_on_cpu })
    }

    /// Number of cells along X.
    pub fn width_steps(&self) -> (r: usize)
        ensures
            r == self.cells_x(),
    {
        self.width_steps
    }

    /// Number of cells along Y.
    pub fn length_steps(&self) -> (r: usize)
        ensures
            r == self.cells_y(),
    {
        self.length_steps
    }

    /// Number of cells along Z.
    pub fn height_steps(&self) -> (r: usize)
        ensures
            r == self.cells_z(),
    {
        self.height_steps
    }

    /// Slots per cell.
    pub fn max_density(&self) -> (r: u32)
        ensures
            r == self.density(),
    {
        self.max_density
    }

    /// Total number of slots.
    pub fn capacity(&self) -> (r: usize)
        requires
            self.wf(),
        ensures
            r == self.capacity_spec(),
    {
        self.data_on_cpu.len()
    }

    /// Every slot, bucket after bucket.
    pub fn data(&self) -> (r: &Vec<VoxelItem>)
        ensures
            r@ == self.slots(),
    {
        &self.data_on_cpu
    }

    /// First slot of the bucket of cell `(x, y, z)`.
    pub fn index(&self, x: usize, y: usize, z: usize) -> (r: usize)
        requires
            self.wf(),
            self.in_grid(x as int, y as int, z as int),
        ensures
            r == self.bucket_start(x as int, y as int, z as int),
    {
        proof {
            self.lemma_bucket_in_range(x as int, y as int, z as int);
            lemma_cell_in_range(
                self.cells_x(),
                self.cells_y(),
                self.cells_z(),
                self.density(),
                x as int,
                y as int,
                z as int,
            );
            let cx = self.cells_x();
            let cy = self.cells_y();
            let cz = self.cells_z();
            let d = self.density();
            assert(y * cx <= cx * cy * cz && z * cx <= cx * cy * cz && z * cx * cy <= cx * cy * cz)
                by (nonlinear_arith)
                requires
                    0 <= x < cx,
                    0 <= y < cy,
                    0 <= z < cz,
            ;
            if d > 0 {
                assert(cx * cy * cz <= cx * cy * cz * d) by (nonlinear_arith)
                    requires
                        0 <= cx * cy * cz,
                        1 <= d,
                ;
            }
        }
        if self.max_density == 0 {
            return 0;
        }
        let w = self.width_steps;
        let cell = x + y * w + z * w * self.length_steps;
        cell * self.max_density as usize
    }

    /// Stores `item` in the first free slot of cell `(x, y, z)` and returns
    /// that slot. A cell outside the grid, or one whose bucket is full, is
    /// refused and the index is left as it was.
    pub fn add_item(&mut self, x: usize, y: usize, z: usize, item: VoxelItem) -> (r: Result<
        usize,
        VoxelError,
    >)
        requires
            old(self).wf(),
        ensures
            final(self).wf(),
            final(self).same_grid(old(self)),
            !old(self).in_grid(x as int, y as int, z as int) ==> r == Err::<usize, VoxelError>(
                VoxelError::OutOfBounds,
            ),
            old(self).in_grid(x as int, y as int, z as int) && old(self).cell_full(
                x as int,
                y as int,
                z as int,
            ) ==> r == Err::<usize, VoxelError>(VoxelError::CellFull),
            r is Err ==> final(self).slots() == old(self).slots(),
            old(self).in_grid(x as int, y as int, z as int) && !old(self).cell_full(
                x as int,
                y as int,
                z as int,
            ) ==> r is Ok,
            r matches Ok(i) ==> old(self).first_free_in_cell(x as int, y as int, z as int, i as int)
                && final(self).slots() == old(self).slots().update(i as int, placed(item)),
    {
        if x >= self.width_steps || y >= self.length_steps || z >= self.height_steps {
            return Err(VoxelError::OutOfBounds);
        }
        let start = self.index(x, y, z);
        proof {
            self.lemma_bucket_in_range(x as int, y as int, z as int);
        }
        let d = self.max_density as usize;
        let mut k: usize = 0;
        while k < d
            invariant
                self.wf(),
                *self == *old(self),
                old(self).in_grid(x as int, y as int, z as int),
                start == old(self).bucket_start(x as int, y as int, z as int),
                d == old(self).density(),
                start + d <= old(self).slots().len(),
                k <= d,
                forall|j: int| start <= j < start + k ==> #[trigger] self.slots()[j].occupied,
            decreases d - k,
        {
            if !self.data_on_cpu[start + k].occupied {
                let stored = VoxelItem { position: item.position, occupied: true };
                self.data_on_cpu.set(start + k, stored);
                return Ok(start + k);
            }
            k += 1;
        }
        Err(VoxelError::CellFull)
    }

    /// The items stored in cell `(x, y, z)`, in slot order; none for a cell
    /// outside the grid.
    pub fn get_items_in_cell(&self, x: usize, y: usize, z: usize) -> (r: Vec<VoxelItem>)
        requires
            self.wf(),
        ensures
            r@ == self.items_in_cell(x as int, y as int, z as int),
    {
        let mut items: Vec<VoxelItem> = Vec::new();
        if x >= self.width_steps || y >= self.length_steps || z >= self.height_steps {
            return items;
        }
        let start = self.index(x, y, z);
        proof {
            self.lemma_bucket_in_range(x as int, y as int, z as int);
        }
        let d = self.max_density as usize;
        let ghost bucket = self.bucket(x as int, y as int, z as int);
        let mut k: usize = 0;
        while k < d
            invariant
                self.wf(),
                start == self.bucket_start(x as int, y as int, z as int),
                d == self.density(),
                start + d <= self.slots().len(),
                bucket == self.bucket(x as int, y as int, z as int),
                k <= d,
                items@ == bucket.subrange(0, k as int).filter(occupied_pred()),
            decreases d - k,
        {
            let it = self.data_on_cpu[start + k];
            proof {
                let pre = bucket.subrange(0, k as int);
                let next = bucket.subrange(0, k + 1);
                assert(next.drop_last() =~= pre);
                assert(next.last() == it);
                reveal_with_fuel(Seq::filter, 1);
            }
            if it.occupied {
                items.push(it);
            }
            k += 1;
        }
        proof {
            assert(bucket.subrange(0, d as int) =~= bucket);
        }
        items
    }

    /// The cell `(x, y, z)` whose bucket holds slot `index`.
    pub fn from_index(&self, index: usize) -> (r: (usize, usize, usize))
        requires
            self.wf(),
            index < self.capacity_spec(),
        ensures
            (r.0 as int, r.1 as int, r.2 as int) == self.cell_of_slot(index as int),
            self.in_grid(r.0 as int, r.1 as int, r.2 as int),
    {
        proof {
            self.lemma_cell_of_slot_in_grid(index as int);
            let cx = self.cells_x();
            let cy = self.cells_y();
            let cz = self.cells_z();
            let d = self.density();
            assert(cx * d <= cx * cy * d <= cx * cy * cz * d && cx * cy <= cx * cy * d && 1 <= cx * d)
                by (nonlinear_arith)
                requires
                    cx >= 1,
                    cy >= 1,
                    cz >= 1,
                    d >= 1,
            ;
        }
        let per_z = self.width_steps * self.length_steps * self.max_density as usize;
        let per_y = self.width_steps * self.max_density as usize;
        let z = index / per_z;
        let rest = index % per_z;
        let y = rest / per_y;
        let x = (rest % per_y) / self.max_density as usize;
        (x, y, z)
    }


    /// Whether every point of `points` falls in the grid and no cell gets
    /// more points than it has slots.
    pub open spec fn fits(&self, points: Seq<CellPoint>) -> bool {
        forall|k: int|
            0 <= k < points.len() ==> self.in_grid(
                (#[trigger] points[k]).x as int,
                points[k].y as int,
                points[k].z as int,
            ) && count_in_cell(points, points[k].x as int, points[k].y as int, points[k].z as int)
                <= self.density()
    }

    /// An empty index on the same grid, with each of `points` stored in its
    /// cell in order, and the slot each one went to. Refused when a point
    /// falls outside the grid or a cell overflows.
    pub fn prepare_query_points(&self, points: &Vec<CellPoint>) -> (r: Result<
        (DenseVoxel, Vec<usize>),
        VoxelError,
    >)
        requires
            self.wf(),
        ensures
            r is Ok <==> self.fits(points@),
            r is Err ==> r == Err::<(DenseVoxel, Vec<usize>), VoxelError>(VoxelError::OutOfBounds)
                || r == Err::<(DenseVoxel, Vec<usize>), VoxelError>(VoxelError::CellFull),
            r matches Ok(res) ==> {
                let (q, slots) = res;
                &&& q.wf()
                &&& q.same_grid(self)
                &&& slots@.len() == points@.len()
                &&& slots@.no_duplicates()
                &&& forall|k: int|
                    0 <= k < points@.len() ==> {
                        &&& (#[trigger] slots@[k]) < q.capacity_spec()
                        &&& q.slots()[slots@[k] as int] == stored(points@[k].position)
                        &&& q.cell_of_slot(slots@[k] as int) == (
                            points@[k].x as int,
                            points@[k].y as int,
                            points@[k].z as int,
                        )
                    }
                &&& forall|i: int|
                    0 <= i < q.capacity_spec() && (#[trigger] q.slots()[i]).occupied ==> slots@.contains(
                        i as usize,
                    )
            },
    {
        let mut q = match DenseVoxel::new(
            self.width_steps,
            self.length_steps,
            self.height_steps,
            self.max_density,
        ) {
            Ok(q) => q,
            Err(e) => {
                return Err(e);
            },
        };
        let mut slots: Vec<usize> = Vec::new();
        let mut k: usize = 0;
        proof {
            assert forall|x: int, y: int, z: int| q.in_grid(x, y, z) implies (
            #[trigger] q.items_in_cell(x, y, z)).len() == count_in_cell(points@.take(0), x, y, z) by {
                q.lemma_bucket_in_range(x, y, z);
                let b = q.bucket(x, y, z);
                assert forall|j: int| 0 <= j < b.len() implies !(#[trigger] b[j]).occupied by {
                    assert(b[j] == q.slots()[q.bucket_start(x, y, z) + j]);
                }
                lemma_filter_none_occupied(b);
            }
        }
        while k < points.len()
            invariant
                self.wf(),
                q.wf(),
                q.same_grid(self),
                k <= points@.len(),
                slots@.len() == k,
                slots@.no_duplicates(),
                forall|j: int|
                    0 <= j < k ==> {
                        &&& (#[trigger] slots@[j]) < q.capacity_spec()
                        &&& q.slots()[slots@[j] as int] == stored(points@[j].position)
                        &&& q.cell_of_slot(slots@[j] as int) == (
                            points@[j].x as int,
                            points@[j].y as int,
                            points@[j].z as int,
                        )
                    },
                forall|i: int|
                    0 <= i < q.capacity_spec() && (#[trigger] q.slots()[i]).occupied ==> slots@.contains(
                        i as usize,
                    ),
                forall|j: int|
                    0 <= j < k ==> q.in_grid(
                        (#[trigger] points@[j]).x as int,
                        points@[j].y as int,
                        points@[j].z as int,
                    ),
                forall|x: int, y: int, z: int|
                    q.in_grid(x, y, z) ==> (#[trigger] q.items_in_cell(x, y, z)).len()
                        == count_in_cell(points@.take(k as int), x, y, z),
            decreases points@.len() - k,
        {
            let p = points[k];
            let item = VoxelItem::new(p.position);
            let ghost before = q;
            let ghost pre = points@.take(k as int);
            let ghost post = points@.take(k + 1);
            proof {
                assert(post.drop_last() =~= pre);
                assert(post.last() == p);
            }
            match q.add_item(p.x, p.y, p.z, item) {
                Ok(i) => {
                    proof {
                        let (px, py, pz) = (p.x as int, p.y as int, p.z as int);
                        before.lemma_bucket_in_range(px, py, pz);
                        DenseVoxel::lemma_added_item_in_cell(&before, &q, px, py, pz, i as int, item);
                        before.lemma_slot_round_trip(px, py, pz, i - before.bucket_start(px, py, pz));
                        assert forall|x: int, y: int, z: int| q.in_grid(x, y, z) implies (
                        #[trigger] q.items_in_cell(x, y, z)).len() == count_in_cell(post, x, y, z) by {
                            if x == px && y == py && z == pz {
                                assert(same_cell(post.last(), x, y, z));
                                assert(count_in_cell(post, x, y, z) == count_in_cell(pre, x, y, z) + 1);
                                assert(before.items_in_cell(x, y, z).len() == count_in_cell(pre, x, y, z));
                                assert(q.items_in_cell(x, y, z).len() == before.items_in_cell(x, y, z).len() + 1);
                            } else {
                                assert(!same_cell(post.last(), x, y, z));
                                assert(count_in_cell(post, x, y, z) == count_in_cell(pre, x, y, z));
                                assert(before.items_in_cell(x, y, z).len() == count_in_cell(pre, x, y, z));
                                before.lemma_bucket_in_range(x, y, z);
                                let s2 = before.bucket_start(x, y, z);
                                if s2 <= i < s2 + before.density() {
                                    before.lemma_slot_round_trip(x, y, z, i - s2);
                                }
                                assert(q.bucket(x, y, z) =~= before.bucket(x, y, z));
                                assert(q.items_in_cell(x, y, z) == before.items_in_cell(x, y, z));
                            }
                        }
                        assert forall|j: int| 0 <= j < k implies q.slots()[(#[trigger] slots@[j]) as int]
                            == before.slots()[slots@[j] as int] by {
                            assert(before.slots()[slots@[j] as int].occupied);
                        }
                    }
                    let ghost old_slots = slots@;
                    slots.push(i);
                    proof {
                        assert forall|ii: int|
                            0 <= ii < q.capacity_spec() && (#[trigger] q.slots()[ii]).occupied implies slots@.contains(
                            ii as usize,
                        ) by {
                            if ii == i as int {
                                assert(slots@[k as int] == i);
                            } else {
                                assert(before.slots()[ii].occupied);
                                assert(old_slots.contains(ii as usize));
                                let jj = choose|jj: int|
                                    0 <= jj < old_slots.len() && old_slots[jj] == ii as usize;
                                assert(slots@[jj] == old_slots[jj]);
                            }
                        }
                        assert forall|a: int, b: int|
                            0 <= a < slots@.len() && 0 <= b < slots@.len() && a != b implies slots@[a]
                            != slots@[b] by {
                            if a == k as int {
                                assert(before.slots()[slots@[b] as int].occupied);
                            } else if b == k as int {
                                assert(before.slots()[slots@[a] as int].occupied);
                            }
                        }
                    }
                },
                Err(e) => {
                    proof {
                        let (px, py, pz) = (p.x as int, p.y as int, p.z as int);
                        lemma_count_prefix_le(points@, k + 1, px, py, pz);
                        assert(points@[k as int] == p);
                        if before.in_grid(px, py, pz) {
                            before.lemma_full_iff_at_density(px, py, pz);
                        }
                    }
                    return Err(e);
                },
            }
            k += 1;
        }
        proof {
            assert(points@.take(points@.len() as int) =~= points@);
            assert forall|kk: int| 0 <= kk < points@.len() implies self.in_grid(
                (#[trigger] points@[kk]).x as int,
                points@[kk].y as int,
                points@[kk].z as int,
            ) && count_in_cell(
                points@,
                points@[kk].x as int,
                points@[kk].y as int,
                points@[kk].z as int,
            ) <= self.density() by {
                let (px, py, pz) = (points@[kk].x as int, points@[kk].y as int, points@[kk].z as int);
                q.lemma_bucket_in_range(px, py, pz);
                q.bucket(px, py, pz).lemma_filter_len(occupied_pred());
                assert(q.items_in_cell(px, py, pz).len() == count_in_cell(points@, px, py, pz));
            }
        }
        Ok((q, slots))
    }

}

} // verus!
