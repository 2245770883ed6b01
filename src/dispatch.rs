//! How a batched query is laid out on the compute backend: the dispatch
//! shape for a set of beams, and the sizes of the buffers it reads back.
use vstd::arithmetic::div_mod::lemma_fundamental_div_mod_converse;
use vstd::prelude::*;

verus! {

/// Shape of one compute dispatch over `num_lidar_beams` beams.
#[derive(Debug, Clone, Copy, PartialEq, Eq, Structural)]
pub struct WorkGroupParameters {
    pub width: u32,
    pub height: u32,
    pub depth: u32,
    pub num_lidar_beams: u32,
}

/// Why a batch cannot be laid out.
#[derive(Debug, Clone, Copy, PartialEq, Eq, Structural)]
pub enum DispatchError {
    /// The batch holds no element.
    NoPoints,
    /// The batch holds more elements than the product of the largest
    /// dimensions the backend accepts.
    TooManyPoints,
}

/// Ceiling of `a / b`.
pub open spec fn ceil_div(a: int, b: int) -> int {
    (a + b - 1) / b
}

pub open spec fn min_int(a: int, b: int) -> int {
    if a <= b { a } else { b }
}

/// The layout that `distribute_workgroup` chooses: fill X first, then spill
/// what is left into Y, then into Z.
pub open spec fn layout_spec(n: int, max_x: int, max_y: int, max_z: int) -> (int, int, int) {
    let width = min_int(n, max_x);
    let rest_x = ceil_div(n, width);
    let height = if rest_x > 1 { min_int(rest_x, max_y) } else { 1 };
    let rest_y = if rest_x > 1 { ceil_div(rest_x, height) } else { rest_x };
    let depth = if rest_y > 1 { min_int(rest_y, max_z) } else { 1 };
    (width, height, depth)
}

/// The outcome of `distribute_workgroup`: no layout for an empty batch or
/// one beyond the capacity `max_x * max_y * max_z`, else `layout_spec`.
pub open spec fn distribute_spec(n: int, max_x: int, max_y: int, max_z: int) -> Result<
    WorkGroupParameters,
    DispatchError,
> {
    if n == 0 {
        Err(DispatchError::NoPoints)
    } else if n > max_x * max_y * max_z {
        Err(DispatchError::TooManyPoints)
    } else {
        let (w, h, d) = layout_spec(n, max_x, max_y, max_z);
        Ok(WorkGroupParameters { width: w as u32, height: h as u32, depth: d as u32, num_lidar_beams: n as u32 })
    }
}

proof fn lemma_ceil_div(a: int, b: int)
    requires
        a >= 0,
        b > 0,
    ensures
        ceil_div(a, b) == a / b + if a % b == 0 { 0int } else { 1int },
        a > 0 ==> 1 <= ceil_div(a, b) <= a,
{
    let q = a / b;
    let r = a % b;
    vstd::arithmetic::div_mod::lemma_fundamental_div_mod(a, b);
    assert(0 <= q) by {
        vstd::arithmetic::div_mod::lemma_div_pos_is_pos(a, b);
    }
    assert(q * b <= a);
    assert(q <= q * b) by (nonlinear_arith)
        requires
            q >= 0,
            b >= 1,
    ;
    if r == 0 {
        lemma_fundamental_div_mod_converse(a + b - 1, b, q, b - 1);
        assert(a > 0 ==> q >= 1) by (nonlinear_arith)
            requires
                a == b * q,
                b >= 1,
        ;
    } else {
        assert(a + b - 1 == (q + 1) * b + (r - 1)) by (nonlinear_arith)
            requires
                a == b * q + r,
        ;
        lemma_fundamental_div_mod_converse(a + b - 1, b, q + 1, r - 1);
    }
}

/// Spreads `num_points` elements over up to three dispatch dimensions,
/// filling X before Y and Y before Z, each within its backend maximum.
pub fn distribute_workgroup(num_points: u32, max_x: u32, max_y: u32, max_z: u32) -> (r: Result<
    WorkGroupParameters,
    DispatchError,
>)
    ensures
        r == distribute_spec(num_points as int, max_x as int, max_y as int, max_z as int),
{
    if num_points == 0 {
        return Err(DispatchError::NoPoints);
    }
    assert(max_x * max_y <= u32::MAX * u32::MAX) by (nonlinear_arith)
        requires
            max_x <= u32::MAX,
            max_y <= u32::MAX,
    ;
    let cap: u64 = max_x as u64 * max_y as u64;
    assert(cap * max_z <= u64::MAX * u32::MAX) by (nonlinear_arith)
        requires
            cap <= u64::MAX,
            max_z <= u32::MAX,
    ;
    if (cap as u128) * (max_z as u128) < (num_points as u128) {
        return Err(DispatchError::TooManyPoints);
    }
    proof {
        let (x, y, z) = (max_x as int, max_y as int, max_z as int);
        assert(x > 0 && y > 0 && z > 0) by (nonlinear_arith)
            requires
                0 < num_points <= x * y * z,
                x >= 0,
                y >= 0,
                z >= 0,
        ;
    }
    let width = if num_points <= max_x { num_points } else { max_x };
    proof {
        lemma_ceil_div(num_points as int, width as int);
    }
    let mut remaining = num_points / width + if num_points % width == 0 { 0 } else { 1 };
    let mut height: u32 = 1;
    let mut depth: u32 = 1;
    if remaining > 1 {
        height = if remaining <= max_y { remaining } else { max_y };
        proof {
            lemma_ceil_div(remaining as int, height as int);
        }
        remaining = remaining / height + if remaining % height == 0 { 0 } else { 1 };
    }
    if remaining > 1 {
        depth = if remaining <= max_z { remaining } else { max_z };
    }
    Ok(WorkGroupParameters { width, height, depth, num_lidar_beams: num_points })
}

proof fn lemma_ceil_div_bounds(a: int, b: int, k: int)
    requires
        a >= 0,
        b > 0,
    ensures
        ceil_div(a, b) * b >= a,
        a <= b * k ==> ceil_div(a, b) <= k,
        ceil_div(b, b) == 1,
{
    lemma_ceil_div(a, b);
    lemma_ceil_div(b, b);
    vstd::arithmetic::div_mod::lemma_fundamental_div_mod(a, b);
    vstd::arithmetic::div_mod::lemma_fundamental_div_mod_converse(b, b, 1, 0);
    let c = ceil_div(a, b);
    assert(c * b >= a && (c - 1) * b < a) by (nonlinear_arith)
        requires
            a == b * (a / b) + a % b,
            0 <= a % b < b,
            c == a / b + if a % b == 0 { 0int } else { 1int },
    ;
    if a <= b * k {
        assert(c <= k) by (nonlinear_arith)
            requires
                (c - 1) * b < a,
                a <= b * k,
                b > 0,
        ;
    }
}

/// The layout covers the whole batch, and keeps each dimension between one
/// and the backend's maximum for it.
pub proof fn lemma_layout_covers(n: int, max_x: int, max_y: int, max_z: int)
    requires
        max_x > 0,
        max_y > 0,
        max_z > 0,
        0 < n <= max_x * max_y * max_z,
    ensures
        ({
            let (w, h, d) = layout_spec(n, max_x, max_y, max_z);
            &&& 1 <= w <= max_x
            &&& 1 <= h <= max_y
            &&& 1 <= d <= max_z
            &&& w * h * d >= n
        }),
{
    let (w, h, d) = layout_spec(n, max_x, max_y, max_z);
    if n <= max_x {
        lemma_ceil_div_bounds(n, n, 1);
    } else {
        let r1 = ceil_div(n, max_x);
        lemma_ceil_div_bounds(n, max_x, max_y * max_z);
        assert(n <= max_x * (max_y * max_z)) by (nonlinear_arith)
            requires
                n <= max_x * max_y * max_z,
        ;
        assert(r1 > 1) by (nonlinear_arith)
            requires
                r1 * max_x >= n,
                n > max_x,
                max_x > 0,
        ;
        if r1 <= max_y {
            lemma_ceil_div_bounds(r1, r1, 1);
            assert(w * h * d == max_x * r1);
        } else {
            let r2 = ceil_div(r1, max_y);
            lemma_ceil_div_bounds(r1, max_y, max_z);
            assert(r2 > 1) by (nonlinear_arith)
                requires
                    r2 * max_y >= r1,
                    r1 > max_y,
                    max_y > 0,
            ;
            assert(w * h * d >= n) by (nonlinear_arith)
                requires
                    w == max_x,
                    h == max_y,
                    d == r2,
                    r2 * max_y >= r1,
                    r1 * max_x >= n,
                    max_x > 0,
            ;
        }
    }
}

/// Size in bytes of a read-back buffer of `count` results of
/// `bytes_per_result` bytes each; none when it exceeds what a buffer
/// address can hold.
pub fn result_buffer_size(count: usize, bytes_per_result: u64) -> (r: Option<u64>)
    ensures
        count * bytes_per_result <= u64::MAX ==> r == Some((count * bytes_per_result) as u64),
        count * bytes_per_result > u64::MAX ==> r is None,
{
    if count as u128 > u64::MAX as u128 {
        if bytes_per_result == 0 {
            return Some(0);
        }
        assert(count * bytes_per_result >= count) by (nonlinear_arith)
            requires
                bytes_per_result >= 1,
                count >= 0,
        ;
        return None;
    }
    (count as u64).checked_mul(bytes_per_result)
}

/// Number of pixels of a `width` by `height` image.
pub fn pixel_count(width: u32, height: u32) -> (r: u64)
    ensures
        r == width * height,
{
    assert(width * height <= u32::MAX * u32::MAX) by (nonlinear_arith)
        requires
            width <= u32::MAX,
            height <= u32::MAX,
    ;
    width as u64 * height as u64
}

/// Workgroups of eight by eight pixels that cover a `width` by `height`
/// image, partial groups at the edges included.
pub fn depth_dispatch(width: u32, height: u32) -> (r: (u32, u32, u32))
    ensures
        r.0 == ceil_div(width as int, 8),
        r.1 == ceil_div(height as int, 8),
        r.2 == 1,
        r.0 * 8 >= width,
        r.1 * 8 >= height,
{
    proof {
        lemma_ceil_div(width as int, 8);
        lemma_ceil_div(height as int, 8);
    }
    let gx = width / 8 + if width % 8 == 0 { 0 } else { 1 };
    let gy = height / 8 + if height % 8 == 0 { 0 } else { 1 };
    (gx, gy, 1)
}

} // verus!
