//! Web-Mercator tile addressing: quadkey encoding, bounding-box tile-index
//! ranges (with the antimeridian split), and row-major tile enumeration.
//!
//! All functions here work on integer tile coordinates. The projection from
//! degrees to tile indices is floating-point and lives outside the crate;
//! callers hand in the tile coordinates it produced.

use vstd::arithmetic::div_mod::lemma_div_denominator;
use vstd::arithmetic::div_mod::lemma_mod_breakdown;
use vstd::arithmetic::div_mod::lemma_small_mod;
use vstd::arithmetic::power2::lemma2_to64;
use vstd::arithmetic::power2::lemma_pow2_adds;
use vstd::arithmetic::power2::lemma_pow2_pos;
use vstd::arithmetic::power2::pow2;
use vstd::bits::lemma_u32_low_bits_mask_is_mod;
use vstd::bits::lemma_u32_shl_is_mul;
use vstd::bits::lemma_u32_shr_is_div;
use vstd::bits::lemma_low_bits_mask_values;
use vstd::prelude::*;
use vstd::string::StringExecFns;

verus! {

/// An inclusive rectangle of tile indices at one zoom level. A bounding box
/// that crosses the antimeridian decomposes into two disjoint ranges.
#[derive(Clone, Copy, Debug, PartialEq, Eq, Structural)]
pub struct TileRange {
    pub x_min: i32,
    pub x_max: i32,
    pub y_min: i32,
    pub y_max: i32,
}

/// The quadkey character for one x bit and one y bit: bit(x) + 2*bit(y),
/// drawn as a base-4 digit.
pub open spec fn quad_digit_char(xb: nat, yb: nat) -> char {
    if xb == 0 && yb == 0 {
        '0'
    } else if xb == 1 && yb == 0 {
        '1'
    } else if xb == 0 && yb == 1 {
        '2'
    } else {
        '3'
    }
}

/// The quadkey digits for the low `z` bits of `x` and `y`, most significant
/// bit first.
pub open spec fn quadkey_digits(x: nat, y: nat, z: nat) -> Seq<char>
    decreases z,
{
    if z == 0 {
        Seq::<char>::empty()
    } else {
        quadkey_digits(x / 2, y / 2, (z - 1) as nat).push(quad_digit_char(x % 2, y % 2))
    }
}

/// A quadkey has one digit per zoom level.
pub proof fn lemma_quadkey_len(x: nat, y: nat, z: nat)
    ensures
        quadkey_digits(x, y, z).len() == z,
    decreases z,
{
    if z > 0 {
        lemma_quadkey_len(x / 2, y / 2, (z - 1) as nat);
    }
}

/// Whether `c` is one of the four quadkey digit characters.
pub open spec fn is_quad_digit(c: char) -> bool {
    c == '0' || c == '1' || c == '2' || c == '3'
}

/// Every character of a quadkey is a base-4 digit.
pub proof fn lemma_quadkey_chars(x: nat, y: nat, z: nat)
    ensures
        forall|i: int|
            0 <= i < quadkey_digits(x, y, z).len() ==> is_quad_digit(
                #[trigger] quadkey_digits(x, y, z)[i],
            ),
    decreases z,
{
    if z > 0 {
        lemma_quadkey_chars(x / 2, y / 2, (z - 1) as nat);
        let prefix = quadkey_digits(x / 2, y / 2, (z - 1) as nat);
        assert(quadkey_digits(x, y, z) == prefix.push(quad_digit_char(x % 2, y % 2)));
        assert forall|i: int| 0 <= i < quadkey_digits(x, y, z).len() implies is_quad_digit(
            #[trigger] quadkey_digits(x, y, z)[i],
        ) by {
            if i < prefix.len() {
                assert(quadkey_digits(x, y, z)[i] == prefix[i]);
            } else {
                assert(quadkey_digits(x, y, z)[i] == quad_digit_char(x % 2, y % 2));
            }
        }
    }
}

/// The x bit a quadkey digit character encodes.
pub open spec fn x_bit_of(c: char) -> nat {
    if c == '1' || c == '3' {
        1
    } else {
        0
    }
}

/// The y bit a quadkey digit character encodes.
pub open spec fn y_bit_of(c: char) -> nat {
    if c == '2' || c == '3' {
        1
    } else {
        0
    }
}

/// The x coordinate read back out of quadkey digits.
pub open spec fn quadkey_decode_x(q: Seq<char>) -> nat
    decreases q.len(),
{
    if q.len() == 0 {
        0
    } else {
        2 * quadkey_decode_x(q.drop_last()) + x_bit_of(q.last())
    }
}

/// The y coordinate read back out of quadkey digits.
pub open spec fn quadkey_decode_y(q: Seq<char>) -> nat
    decreases q.len(),
{
    if q.len() == 0 {
        0
    } else {
        2 * quadkey_decode_y(q.drop_last()) + y_bit_of(q.last())
    }
}

/// Decoding a quadkey recovers the low `z` bits of both coordinates.
pub proof fn lemma_quadkey_decode(x: nat, y: nat, z: nat)
    ensures
        quadkey_decode_x(quadkey_digits(x, y, z)) == x % pow2(z),
        quadkey_decode_y(quadkey_digits(x, y, z)) == y % pow2(z),
    decreases z,
{
    lemma_pow2_pos(z);
    if z == 0 {
        assert(pow2(0) == 1) by {
            lemma2_to64();
        }
    } else {
        lemma_quadkey_decode(x / 2, y / 2, (z - 1) as nat);
        let prefix = quadkey_digits(x / 2, y / 2, (z - 1) as nat);
        let d = quad_digit_char(x % 2, y % 2);
        let q = quadkey_digits(x, y, z);
        assert(q == prefix.push(d));
        assert(q.drop_last() =~= prefix);
        assert(q.last() == d);
        assert(x_bit_of(d) == x % 2);
        assert(y_bit_of(d) == y % 2);
        assert(pow2(z) == 2 * pow2((z - 1) as nat)) by {
            lemma_pow2_adds(1, (z - 1) as nat);
            lemma2_to64();
        }
        lemma_pow2_pos((z - 1) as nat);
        lemma_mod_breakdown(x as int, 2, pow2((z - 1) as nat) as int);
        lemma_mod_breakdown(y as int, 2, pow2((z - 1) as nat) as int);
        assert(quadkey_decode_x(q) == 2 * ((x / 2) % pow2((z - 1) as nat)) + x % 2);
        assert(quadkey_decode_y(q) == 2 * ((y / 2) % pow2((z - 1) as nat)) + y % 2);
    }
}

/// Quadkeys are injective over the tile coordinates of one zoom level: two
/// tiles within the `2^z` by `2^z` grid with the same quadkey are the same
/// tile.
pub proof fn lemma_quadkey_injective(x1: nat, y1: nat, x2: nat, y2: nat, z: nat)
    requires
        x1 < pow2(z),
        y1 < pow2(z),
        x2 < pow2(z),
        y2 < pow2(z),
        quadkey_digits(x1, y1, z) == quadkey_digits(x2, y2, z),
    ensures
        x1 == x2,
        y1 == y2,
{
    lemma_pow2_pos(z);
    lemma_quadkey_decode(x1, y1, z);
    lemma_quadkey_decode(x2, y2, z);
    lemma_small_mod(x1, pow2(z));
    lemma_small_mod(y1, pow2(z));
    lemma_small_mod(x2, pow2(z));
    lemma_small_mod(y2, pow2(z));
}

fn quad_digit_str(xb: u32, yb: u32) -> (r: &'static str)
    requires
        xb < 2,
        yb < 2,
    ensures
        r@ == seq![quad_digit_char(xb as nat, yb as nat)],
{
    if xb == 0 && yb == 0 {
        proof {
            reveal_strlit("0");
            assert("0"@ =~= seq![quad_digit_char(0, 0)]);
        }
        "0"
    } else if xb == 1 && yb == 0 {
        proof {
            reveal_strlit("1");
            assert("1"@ =~= seq![quad_digit_char(1, 0)]);
        }
        "1"
    } else if xb == 0 && yb == 1 {
        proof {
            reveal_strlit("2");
            assert("2"@ =~= seq![quad_digit_char(0, 1)]);
        }
        "2"
    } else {
        proof {
            reveal_strlit("3");
            assert("3"@ =~= seq![quad_digit_char(1, 1)]);
        }
        "3"
    }
}

/// Encodes a tile coordinate as its quadkey: `z` base-4 digits, most
/// significant first, each digit combining one bit of `x` and one of `y`.
pub fn tile_xy_to_quadkey(x: i32, y: i32, z: u32) -> (q: String)
    requires
        z <= 30,
        0 <= x < pow2(z as nat),
        0 <= y < pow2(z as nat),
    ensures
        q@ == quadkey_digits(x as nat, y as nat, z as nat),
        q@.len() == z,
        forall|i: int| 0 <= i < q@.len() ==> is_quad_digit(#[trigger] q@[i]),
{
    let xu = x as u32;
    let yu = y as u32;
    let mut q = String::new();
    let mut i: u32 = z;
    proof {
        lemma_pow2_pos(z as nat);
        lemma_small_mod(x as nat, pow2(z as nat));
        lemma_small_mod(y as nat, pow2(z as nat));
        // x / pow2(z) == 0 since x < pow2(z)
        assert(xu as nat / pow2(z as nat) == 0) by {
            vstd::arithmetic::div_mod::lemma_basic_div(xu as int, pow2(z as nat) as int);
        }
        assert(yu as nat / pow2(z as nat) == 0) by {
            vstd::arithmetic::div_mod::lemma_basic_div(yu as int, pow2(z as nat) as int);
        }
    }
    while i > 0
        invariant
            i <= z,
            z <= 30,
            xu == x,
            yu == y,
            0 <= x < pow2(z as nat),
            0 <= y < pow2(z as nat),
            q@ == quadkey_digits(
                xu as nat / pow2(i as nat),
                yu as nat / pow2(i as nat),
                (z - i) as nat,
            ),
        decreases i,
    {
        let shift = i - 1;
        let xb = (xu >> shift) & 1;
        let yb = (yu >> shift) & 1;
        proof {
            lemma_u32_shr_is_div(xu, shift);
            lemma_u32_shr_is_div(yu, shift);
            lemma_low_bits_mask_values();
            lemma_u32_low_bits_mask_is_mod(xu >> shift, 1);
            lemma_u32_low_bits_mask_is_mod(yu >> shift, 1);
            assert(pow2(1) == 2) by {
                lemma2_to64();
            }
            assert(xb as nat == (xu as nat / pow2(shift as nat)) % 2);
            assert(yb as nat == (yu as nat / pow2(shift as nat)) % 2);
            // Dividing by pow2(shift) then by 2 is dividing by pow2(i).
            lemma_pow2_pos(shift as nat);
            lemma_div_denominator(xu as int, pow2(shift as nat) as int, 2);
            lemma_div_denominator(yu as int, pow2(shift as nat) as int, 2);
            assert(pow2(i as nat) == pow2(shift as nat) * 2) by {
                lemma_pow2_adds(shift as nat, 1);
                lemma2_to64();
            }
            assert((xu as nat / pow2(shift as nat)) / 2 == xu as nat / pow2(i as nat));
            assert((yu as nat / pow2(shift as nat)) / 2 == yu as nat / pow2(i as nat));
            assert(quadkey_digits(
                xu as nat / pow2(shift as nat),
                yu as nat / pow2(shift as nat),
                (z - shift) as nat,
            ) == quadkey_digits(
                xu as nat / pow2(i as nat),
                yu as nat / pow2(i as nat),
                (z - i) as nat,
            ).push(
                quad_digit_char(
                    (xu as nat / pow2(shift as nat)) % 2,
                    (yu as nat / pow2(shift as nat)) % 2,
                ),
            ));
        }
        q.append(quad_digit_str(xb, yb));
        i = shift;
    }
    proof {
        assert(pow2(0) == 1) by {
            lemma2_to64();
        }
        assert(xu as nat / 1 == xu as nat);
        assert(yu as nat / 1 == yu as nat);
        lemma_quadkey_len(x as nat, y as nat, z as nat);
        lemma_quadkey_chars(x as nat, y as nat, z as nat);
    }
    q
}

/// The smaller of two tile indices.
pub open spec fn min2(a: i32, b: i32) -> i32 {
    if a <= b {
        a
    } else {
        b
    }
}

/// The larger of two tile indices.
pub open spec fn max2(a: i32, b: i32) -> i32 {
    if a >= b {
        a
    } else {
        b
    }
}

/// The smallest of the four corner evaluations.
pub open spec fn min4(a: i32, b: i32, c: i32, d: i32) -> i32 {
    min2(min2(a, b), min2(c, d))
}

/// The largest of the four corner evaluations.
pub open spec fn max4(a: i32, b: i32, c: i32, d: i32) -> i32 {
    max2(max2(a, b), max2(c, d))
}

/// The last tile index on one axis at zoom `z`.
pub open spec fn last_tile_index(z: u32) -> int {
    pow2(z as nat) - 1
}

fn min2_exec(a: i32, b: i32) -> (r: i32)
    ensures
        r == min2(a, b),
{
    if a <= b {
        a
    } else {
        b
    }
}

fn max2_exec(a: i32, b: i32) -> (r: i32)
    ensures
        r == max2(a, b),
{
    if a >= b {
        a
    } else {
        b
    }
}

/// Assembles the tile-index ranges of a bounding box from the tile
/// coordinates of its corners.
///
/// `x_lo` and `x_hi` are the tile-x of the western and eastern edge;
/// `y1`..`y4` are the tile-y evaluated at all four corner combinations, and
/// the shared y bounds are their conservative minimum and maximum.
/// `crosses` says whether the box crosses the antimeridian (decided by the
/// caller from the wrapped corner longitudes in their given order): if not,
/// one range spans `x_lo..x_hi`; if so, two ranges share the y bounds, one
/// running east from `x_lo` to the last tile index and one running from
/// index zero to `x_hi`, so together they touch both edges of the grid.
pub fn bbox_tile_ranges(
    x_lo: i32,
    x_hi: i32,
    y1: i32,
    y2: i32,
    y3: i32,
    y4: i32,
    crosses: bool,
    z: u32,
) -> (r: Vec<TileRange>)
    requires
        z <= 30,
    ensures
        !crosses ==> r@.len() == 1 && r@[0] == (TileRange {
            x_min: x_lo,
            x_max: x_hi,
            y_min: min4(y1, y2, y3, y4),
            y_max: max4(y1, y2, y3, y4),
        }),
        crosses ==> r@.len() == 2 && r@[0] == (TileRange {
            x_min: x_lo,
            x_max: last_tile_index(z) as i32,
            y_min: min4(y1, y2, y3, y4),
            y_max: max4(y1, y2, y3, y4),
        }) && r@[1] == (TileRange {
            x_min: 0,
            x_max: x_hi,
            y_min: min4(y1, y2, y3, y4),
            y_max: max4(y1, y2, y3, y4),
        }),
        // every range comes back with ordered y bounds
        forall|k: int| 0 <= k < r@.len() ==> #[trigger] r@[k].y_min <= r@[k].y_max,
        // a box that does not cross the antimeridian yields exactly one
        // range, normalized on both axes when the edge order is kept
        !crosses && x_lo <= x_hi ==> r@.len() == 1 && r@[0].x_min <= r@[0].x_max,
        // a crossing box yields two ranges that touch both grid edges, and
        // their x spans are disjoint whenever the eastern remainder ends
        // before the western part begins
        crosses ==> r@[0].x_max == last_tile_index(z) && r@[1].x_min == 0,
        crosses && x_hi < x_lo ==> r@[1].x_max < r@[0].x_min,
{
    let y_min = min2_exec(min2_exec(y1, y2), min2_exec(y3, y4));
    let y_max = max2_exec(max2_exec(y1, y2), max2_exec(y3, y4));
    if !crosses {
        let range = TileRange { x_min: x_lo, x_max: x_hi, y_min, y_max };
        let mut r: Vec<TileRange> = Vec::new();
        r.push(range);
        r
    } else {
        proof {
            lemma2_to64();
            if (z as nat) < 30 {
                vstd::arithmetic::power2::lemma_pow2_strictly_increases(z as nat, 30);
            }
            lemma_u32_shl_is_mul(1u32, z);
        }
        let last: u32 = (1u32 << z) - 1;
        let east = TileRange { x_min: x_lo, x_max: last as i32, y_min, y_max };
        let west = TileRange { x_min: 0, x_max: x_hi, y_min, y_max };
        let mut r: Vec<TileRange> = Vec::new();
        r.push(east);
        r.push(west);
        r
    }
}

/// How many tile columns a range spans.
pub open spec fn range_width(r: TileRange) -> nat {
    if r.x_min <= r.x_max {
        (r.x_max - r.x_min + 1) as nat
    } else {
        0
    }
}

/// How many tile rows a range spans.
pub open spec fn range_height(r: TileRange) -> nat {
    if r.y_min <= r.y_max {
        (r.y_max - r.y_min + 1) as nat
    } else {
        0
    }
}

/// One row of a range: every x paired with the given y, west to east.
pub open spec fn range_row(r: TileRange, y: i32) -> Seq<(i32, i32)> {
    Seq::new(range_width(r), |i: int| ((r.x_min + i) as i32, y))
}

/// The first `k` rows of a range, concatenated.
pub open spec fn range_rows(r: TileRange, k: nat) -> Seq<(i32, i32)>
    decreases k,
{
    if k == 0 {
        Seq::<(i32, i32)>::empty()
    } else {
        range_rows(r, (k - 1) as nat) + range_row(r, (r.y_min + k - 1) as i32)
    }
}

/// All tiles of a range in row-major order: y in the outer loop, x in the
/// inner loop.
pub open spec fn range_tiles(r: TileRange) -> Seq<(i32, i32)> {
    range_rows(r, range_height(r))
}

proof fn lemma_range_rows_len(r: TileRange, k: nat)
    ensures
        range_rows(r, k).len() == k * range_width(r),
    decreases k,
{
    if k == 0 {
        assert(0 * range_width(r) == 0) by (nonlinear_arith);
    } else {
        lemma_range_rows_len(r, (k - 1) as nat);
        assert((k - 1) * range_width(r) + range_width(r) == k * range_width(r))
            by (nonlinear_arith);
    }
}

/// A range expands to exactly one tile per cell of its rectangle.
pub proof fn lemma_range_tiles_len(r: TileRange)
    ensures
        range_tiles(r).len() == range_width(r) * range_height(r),
{
    lemma_range_rows_len(r, range_height(r));
    assert(range_height(r) * range_width(r) == range_width(r) * range_height(r))
        by (nonlinear_arith);
}

/// The tiles of a list of ranges, concatenated in range order.
pub open spec fn tiles_in_ranges(rs: Seq<TileRange>) -> Seq<(i32, i32)>
    decreases rs.len(),
{
    if rs.len() == 0 {
        Seq::<(i32, i32)>::empty()
    } else {
        range_tiles(rs[0]) + tiles_in_ranges(rs.drop_first())
    }
}

proof fn lemma_tiles_in_ranges_push(rs: Seq<TileRange>, r: TileRange)
    ensures
        tiles_in_ranges(rs.push(r)) == tiles_in_ranges(rs) + range_tiles(r),
    decreases rs.len(),
{
    if rs.len() == 0 {
        let e = Seq::<TileRange>::empty();
        assert(rs.push(r)[0] == r);
        assert(rs.push(r).drop_first() =~= e);
        assert(tiles_in_ranges(e) == Seq::<(i32, i32)>::empty());
        assert(tiles_in_ranges(rs.push(r)) == range_tiles(r) + tiles_in_ranges(e));
        assert(tiles_in_ranges(rs) == Seq::<(i32, i32)>::empty());
        assert(range_tiles(r) + Seq::<(i32, i32)>::empty() =~= Seq::<(i32, i32)>::empty()
            + range_tiles(r));
    } else {
        assert(rs.push(r).drop_first() =~= rs.drop_first().push(r));
        lemma_tiles_in_ranges_push(rs.drop_first(), r);
        assert(rs.push(r)[0] == rs[0]);
        assert((range_tiles(rs[0]) + tiles_in_ranges(rs.drop_first())) + range_tiles(r)
            =~= range_tiles(rs[0]) + (tiles_in_ranges(rs.drop_first()) + range_tiles(r)));
    }
}

/// Expands tile-index ranges into the concrete tile list: for each range in
/// order, rows from north to south, each row west to east.
pub fn iter_tiles_in_ranges(ranges: &Vec<TileRange>) -> (tiles: Vec<(i32, i32)>)
    ensures
        tiles@ == tiles_in_ranges(ranges@),
{
    let mut tiles: Vec<(i32, i32)> = Vec::new();
    let mut k: usize = 0;
    while k < ranges.len()
        invariant
            k <= ranges.len(),
            tiles@ == tiles_in_ranges(ranges@.take(k as int)),
        decreases ranges.len() - k,
    {
        let r = ranges[k];
        let h: u64 = if r.y_min <= r.y_max {
            ((r.y_max as i64) - (r.y_min as i64) + 1) as u64
        } else {
            0
        };
        let w: u64 = if r.x_min <= r.x_max {
            ((r.x_max as i64) - (r.x_min as i64) + 1) as u64
        } else {
            0
        };
        proof {
            assert(h as nat == range_height(r));
            assert(w as nat == range_width(r));
        }
        let ghost base = tiles_in_ranges(ranges@.take(k as int));
        let mut row: u64 = 0;
        while row < h
            invariant
                row <= h,
                h as nat == range_height(r),
                w as nat == range_width(r),
                tiles@ == base + range_rows(r, row as nat),
            decreases h - row,
        {
            let y: i32 = ((r.y_min as i64) + (row as i64)) as i32;
            proof {
                assert(r.y_min + row <= r.y_max);
            }
            let mut col: u64 = 0;
            while col < w
                invariant
                    col <= w,
                    w as nat == range_width(r),
                    row < h,
                    h as nat == range_height(r),
                    y as int == r.y_min + row,
                    tiles@ == base + range_rows(r, row as nat) + range_row(r, y).take(
                        col as int,
                    ),
                decreases w - col,
            {
                let x: i32 = ((r.x_min as i64) + (col as i64)) as i32;
                proof {
                    assert(r.x_min + col <= r.x_max);
                }
                tiles.push((x, y));
                proof {
                    assert(range_row(r, y)[col as int] == (x, y));
                    assert(range_row(r, y).take(col + 1) =~= range_row(r, y).take(
                        col as int,
                    ).push((x, y)));
                    assert((base + range_rows(r, row as nat) + range_row(r, y).take(
                        col as int,
                    )).push((x, y)) =~= base + range_rows(r, row as nat) + range_row(
                        r,
                        y,
                    ).take(col + 1));
                }
                col = col + 1;
            }
            proof {
                assert(range_row(r, y).take(w as int) =~= range_row(r, y));
                assert(range_rows(r, (row + 1) as nat) == range_rows(r, row as nat)
                    + range_row(r, (r.y_min + row + 1 - 1) as i32));
                assert((r.y_min + row + 1 - 1) as i32 == y);
                assert(base + range_rows(r, row as nat) + range_row(r, y) =~= base
                    + range_rows(r, (row + 1) as nat));
            }
            row = row + 1;
        }
        proof {
            assert(range_rows(r, h as nat) == range_tiles(r));
            assert(ranges@.take(k + 1) =~= ranges@.take(k as int).push(ranges@[k as int]));
            lemma_tiles_in_ranges_push(ranges@.take(k as int), r);
        }
        k = k + 1;
    }
    proof {
        assert(ranges@.take(ranges@.len() as int) =~= ranges@);
    }
    tiles
}

} // verus!
