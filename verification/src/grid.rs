//! Grid sharding: validates the split factor and maps a tile coordinate to
//! its output subdirectory under a `g`-by-`g` grid.

use crate::errors::UsageError;
use crate::naming::dec_pad2;
use crate::naming::is_dec_digit;
use crate::naming::lemma_dec_pad2_len;
use crate::naming::tile_file_name;
use crate::naming::tile_file_name_spec;
use crate::naming::u64_to_dec_pad2;
use vstd::prelude::*;
use vstd::string::StringExecFns;

verus! {

/// Whether `n` is the square of some integer.
pub open spec fn is_perfect_square(n: nat) -> bool {
    exists|r: nat| #[trigger] (r * r) == n
}

fn square_lt(g: usize, bound: usize) -> (b: bool)
    ensures
        b == ((g as int) * (g as int) < bound as int),
{
    proof {
        assert((g as u128) * (g as u128) <= 0xFFFFFFFFFFFFFFFEFFFFFFFFFFFFFFFFu128)
            by (nonlinear_arith)
            requires
                (g as u128) <= 0xFFFFFFFFFFFFFFFFu128,
        ;
    }
    (g as u128) * (g as u128) < (bound as u128)
}

fn square_eq(g: usize, bound: usize) -> (b: bool)
    ensures
        b == ((g as int) * (g as int) == bound as int),
{
    proof {
        assert((g as u128) * (g as u128) <= 0xFFFFFFFFFFFFFFFEFFFFFFFFFFFFFFFFu128)
            by (nonlinear_arith)
            requires
                (g as u128) <= 0xFFFFFFFFFFFFFFFFu128,
        ;
    }
    (g as u128) * (g as u128) == (bound as u128)
}

/// Validates the grid split factor: accepted exactly when it is a positive
/// perfect square, in which case the grid size is its integer square root.
pub fn validate_and_get_grid_size(split: usize) -> (r: Result<usize, UsageError>)
    ensures
        r matches Ok(g) ==> 1 <= g && g * g == split,
        split == 0 ==> r == Err::<usize, UsageError>(UsageError::SplitZero),
        split >= 1 && is_perfect_square(split as nat) ==> r is Ok,
        split >= 1 && !is_perfect_square(split as nat) ==> r == Err::<usize, UsageError>(
            UsageError::SplitNotSquare,
        ),
{
    if split == 0 {
        return Err(UsageError::SplitZero);
    }
    let mut g: usize = 1;
    proof {
        assert forall|h: nat| h < 1 implies #[trigger] (h * h) < split by {
            assert(h == 0);
        }
    }
    while square_lt(g, split)
        invariant
            1 <= g <= split,
            forall|h: nat| h < g ==> #[trigger] (h * h) < split,
        decreases split - g,
    {
        proof {
            assert(g <= g * g) by (nonlinear_arith)
                requires
                    g >= 1,
            ;
        }
        g = g + 1;
    }
    if square_eq(g, split) {
        proof {
            assert((g as nat) * (g as nat) == split as nat);
        }
        Ok(g)
    } else {
        proof {
            assert(forall|h: nat| #[trigger] (h * h) == split as nat ==> false) by {
                assert forall|h: nat| #[trigger] (h * h) == split as nat implies false by {
                    if h < g {
                        assert(h * h < split);
                    } else {
                        assert(h * h >= g * g) by (nonlinear_arith)
                            requires
                                h >= g,
                        ;
                    }
                }
            }
        }
        Err(UsageError::SplitNotSquare)
    }
}

/// The magnitude of a tile index.
pub open spec fn abs_int(v: int) -> nat {
    if v < 0 {
        (-v) as nat
    } else {
        v as nat
    }
}

/// The output subfolder of a tile under a `g`-by-`g` grid: empty for the
/// trivial grid, otherwise the two padded grid coordinates joined by an
/// underscore, each the tile index's magnitude modulo the grid size.
pub open spec fn subfolder_spec(x: int, y: int, g: nat) -> Seq<char> {
    if g == 1 {
        Seq::<char>::empty()
    } else {
        dec_pad2(abs_int(x) % g) + seq!['_'] + dec_pad2(abs_int(y) % g)
    }
}

fn abs_i32(v: i32) -> (r: u64)
    ensures
        r as nat == abs_int(v as int),
{
    if v >= 0 {
        v as u64
    } else {
        (-(v as i64)) as u64
    }
}

/// Maps a tile coordinate to its output subfolder under the grid split.
pub fn get_tile_subfolder(x: i32, y: i32, grid_size: usize) -> (s: String)
    requires
        1 <= grid_size,
    ensures
        s@ == subfolder_spec(x as int, y as int, grid_size as nat),
        grid_size == 1 ==> s@ == Seq::<char>::empty(),
{
    if grid_size == 1 {
        return String::new();
    }
    let g = grid_size as u64;
    let gx = abs_i32(x) % g;
    let gy = abs_i32(y) % g;
    let mut s = u64_to_dec_pad2(gx);
    proof {
        reveal_strlit("_");
        assert("_"@ =~= seq!['_']);
    }
    s.append("_");
    let tail = u64_to_dec_pad2(gy);
    s.append(tail.as_str());
    s
}

/// With a real grid of at most one hundred columns, the subfolder is always
/// two two-digit parts joined by an underscore, and each part is the tile
/// index's magnitude modulo the grid size, so both parts stay below the
/// grid size.
pub proof fn lemma_subfolder_shape(x: int, y: int, g: nat)
    requires
        2 <= g <= 100,
    ensures
        subfolder_spec(x, y, g).len() == 5,
        subfolder_spec(x, y, g)[2] == '_',
        is_dec_digit(subfolder_spec(x, y, g)[0]),
        is_dec_digit(subfolder_spec(x, y, g)[1]),
        is_dec_digit(subfolder_spec(x, y, g)[3]),
        is_dec_digit(subfolder_spec(x, y, g)[4]),
        abs_int(x) % g < g,
        abs_int(y) % g < g,
        subfolder_spec(x, y, g) == dec_pad2(abs_int(x) % g) + seq!['_'] + dec_pad2(
            abs_int(y) % g,
        ),
{
    let px = abs_int(x) % g;
    let py = abs_int(y) % g;
    lemma_dec_pad2_len(px);
    lemma_dec_pad2_len(py);
    assert(subfolder_spec(x, y, g)[2] == '_');
    assert(subfolder_spec(x, y, g)[0] == dec_pad2(px)[0]);
    assert(subfolder_spec(x, y, g)[1] == dec_pad2(px)[1]);
    assert(subfolder_spec(x, y, g)[3] == dec_pad2(py)[0]);
    assert(subfolder_spec(x, y, g)[4] == dec_pad2(py)[1]);
}

/// The path of a tile's file relative to the output root: directly under
/// the root for the trivial grid, inside its grid subfolder otherwise.
pub open spec fn tile_rel_path_spec(z: u32, x: i32, y: i32, g: nat) -> Seq<char> {
    if g == 1 {
        tile_file_name_spec(z, x, y)
    } else {
        subfolder_spec(x as int, y as int, g) + seq!['/'] + tile_file_name_spec(z, x, y)
    }
}

/// Builds the output path of one tile relative to the output root.
pub fn tile_relative_path(z: u32, x: i32, y: i32, grid_size: usize) -> (s: String)
    requires
        1 <= grid_size,
    ensures
        s@ == tile_rel_path_spec(z, x, y, grid_size as nat),
{
    if grid_size == 1 {
        tile_file_name(z, x, y)
    } else {
        let mut s = get_tile_subfolder(x, y, grid_size);
        proof {
            reveal_strlit("/");
            assert("/"@ =~= seq!['/']);
        }
        s.append("/");
        let name = tile_file_name(z, x, y);
        s.append(name.as_str());
        s
    }
}

} // verus!
