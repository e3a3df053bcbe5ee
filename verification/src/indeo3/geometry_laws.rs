//! Laws of the geometry banks: where the leaves that a bank places lie.
//!
//! The nodes of one level below a strip tile it from left to right. The
//! banks follow that tiling, vertically up to the first node under four
//! rows and horizontally level by level up to the first level with a node
//! under four pixels; past it a position can run up to one strip width
//! too far right, and no further.
use super::geometry_bank::{
    child_extent, children_tile_their_node, chroma_extent, extent, extent_is_bounded, folded_slot,
    full_rule, last_rule, last_strip_width, pow2_ceil, quarter_code, strip_count, strip_slot,
    x_position, y_position, BankRule, GeometryBank, PlaneBanks, UNDER_FOUR_CODE, UNDER_FOUR_YPOS,
};
use super::plane_model::{leaf_rect, leaves_fit, rect_fits};
use vstd::prelude::*;

verus! {

/// The samples left of heap node `k` on its level, below the node of the
/// level that starts at `level` which it belongs to.
pub open spec fn left_of(k: int, level: int, seed: int) -> int
    decreases k,
{
    if k < 2 * level || k < 2 {
        0
    } else {
        left_of(k / 2, level, seed) + if k % 2 == 1 {
            extent(k - 1, level, seed)
        } else {
            0
        }
    }
}

/// Heap node `k` is the last one on its level below the node of the level
/// that starts at `level` which it belongs to.
pub open spec fn is_last(k: int, level: int) -> bool
    decreases k,
{
    k < 2 * level || k < 2 || (k % 2 == 1 && is_last(k / 2, level))
}

/// The nodes of a level tile the extent above them: a node ends inside it,
/// the next node begins where it ends, and the last one ends with it.
pub proof fn levels_tile_their_extent(k: int, level: int, seed: int)
    requires
        1 <= level <= k,
        seed >= 0,
    ensures
        0 <= left_of(k, level, seed),
        0 <= extent(k, level, seed),
        left_of(k, level, seed) + extent(k, level, seed) <= seed,
        is_last(k, level) ==> left_of(k, level, seed) + extent(k, level, seed) == seed && left_of(
            k + 1,
            level,
            seed,
        ) == 0,
        !is_last(k, level) ==> left_of(k + 1, level, seed) == left_of(k, level, seed) + extent(
            k,
            level,
            seed,
        ),
    decreases k,
{
    if k < 2 * level {
        assert(left_of(k, level, seed) == 0);
        assert(extent(k, level, seed) == seed);
        if k + 1 == 2 * level {
            assert((k + 1) / 2 == level);
            assert((k + 1) % 2 == 0);
            assert(left_of(level, level, seed) == 0);
        }
        assert(left_of(k + 1, level, seed) == 0);
    } else {
        let m = k / 2;
        levels_tile_their_extent(m, level, seed);
        children_tile_their_node(extent(m, level, seed));
        if k % 2 == 1 {
            assert((k - 1) / 2 == m);
            assert(extent(k - 1, level, seed) == child_extent(extent(m, level, seed), false));
            assert((k + 1) / 2 == m + 1);
            assert(left_of(k + 1, level, seed) == left_of(m + 1, level, seed));
        } else {
            assert((k + 1) / 2 == m);
            assert(left_of(k + 1, level, seed) == left_of(m, level, seed) + extent(
                k,
                level,
                seed,
            ));
        }
    }
}

/// A vertical position is that of the tiling, or marks a node that a leaf
/// is refused on.
pub proof fn rows_follow_the_tiling(k: int, height: int)
    requires
        1 <= k,
        height >= 0,
    ensures
        y_position(k, height) == 0xb0 * left_of(k, 1, height) || (y_position(k, height)
            >= UNDER_FOUR_YPOS && y_position(k, height) % 0xb0 == 143),
    decreases k,
{
    if k >= 2 && extent(k, 1, height) >= 4 {
        rows_follow_the_tiling(k - 1, height);
        levels_tile_their_extent(k - 1, 1, height);
        levels_tile_their_extent(k, 1, height);
    }
}

/// The place of heap node `k` in the tree below the node of the level that
/// starts at `level` which it belongs to.
pub open spec fn inner_index(k: int, level: int) -> int
    decreases k,
{
    if k < 2 * level || k < 2 {
        1
    } else {
        2 * inner_index(k / 2, level) + k % 2
    }
}

/// A power of two.
pub open spec fn is_pow(n: int) -> bool
    decreases n,
{
    n == 1 || (n > 1 && n % 2 == 0 && is_pow(n / 2))
}

/// The first index of the level of heap index `h`.
pub open spec fn level_of(h: int) -> int
    decreases h,
{
    if h < 2 {
        1
    } else {
        2 * level_of(h / 2)
    }
}

proof fn lemma_level(h: int)
    requires
        h >= 1,
    ensures
        is_pow(level_of(h)),
        level_of(h) <= h < 2 * level_of(h),
    decreases h,
{
    if h >= 2 {
        lemma_level(h / 2);
    }
}

proof fn lemma_between_powers(n: int, j: int)
    requires
        is_pow(n),
        n < j < 2 * n,
    ensures
        !is_pow(j),
    decreases n,
{
    if is_pow(j) {
        if n > 1 {
            lemma_between_powers(n / 2, j / 2);
        }
    }
}

proof fn lemma_level_is_unique(h: int, n: int)
    requires
        is_pow(n),
        n <= h < 2 * n,
    ensures
        level_of(h) == n,
    decreases h,
{
    if n > 1 {
        lemma_level_is_unique(h / 2, n / 2);
    }
}

/// The extent of a node depends on its place below its strip alone.
proof fn lemma_inner_extent(k: int, level: int, seed: int)
    requires
        1 <= level <= k,
    ensures
        inner_index(k, level) >= 1,
        extent(k, level, seed) == extent(inner_index(k, level), 1, seed),
    decreases k,
{
    if k >= 2 * level {
        lemma_inner_extent(k / 2, level, seed);
        let h = inner_index(k / 2, level);
        assert((2 * h + k % 2) / 2 == h);
        assert((2 * h + k % 2) % 2 == k % 2);
    }
}

/// The place of the next node: one further on the same level, or the start
/// of the same level or of the next one.
proof fn lemma_next_inner(k: int, level: int)
    requires
        1 <= level <= k,
    ensures
        inner_index(k, level) >= 1,
        is_last(k, level) ==> is_pow(inner_index(k, level) + 1) && (inner_index(k + 1, level)
            == inner_index(k, level) + 1 || 2 * inner_index(k + 1, level) == inner_index(k, level)
            + 1),
        !is_last(k, level) ==> inner_index(k + 1, level) == inner_index(k, level) + 1 && !is_pow(
            inner_index(k, level) + 1,
        ),
    decreases k,
{
    if k < 2 * level {
        assert(is_pow(2)) by {
            assert(is_pow(1));
        }
        if k + 1 == 2 * level {
            assert((k + 1) / 2 == level && (k + 1) % 2 == 0);
            assert(inner_index(level, level) == 1);
        }
    } else {
        let m = k / 2;
        lemma_next_inner(m, level);
        let h = inner_index(m, level);
        if k % 2 == 1 {
            assert((k + 1) / 2 == m + 1 && (k + 1) % 2 == 0);
            assert(inner_index(k + 1, level) == 2 * inner_index(m + 1, level));
            assert((2 * h + 2) / 2 == h + 1);
            assert(is_pow(2 * h + 2) == is_pow(h + 1));
        } else {
            assert((k + 1) / 2 == m && (k + 1) % 2 == 1);
            assert((2 * h + 1) % 2 == 1);
        }
    }
}

/// A node under four pixels stands on the level of `h`, at or before it.
pub open spec fn narrow_so_far(h: int, seed: int) -> bool
    decreases h,
{
    extent(h, 1, seed) < 4 || (h > 1 && !is_pow(h) && narrow_so_far(h - 1, seed))
}

/// A node under four pixels stands on the level of `h`.
pub open spec fn narrow_level(h: int, seed: int) -> bool {
    narrow_so_far(2 * level_of(h) - 1, seed)
}

/// What is narrow so far stays narrow to the end of the level.
proof fn lemma_narrow_stays(q: int, e: int, n: int, seed: int)
    requires
        is_pow(n),
        n <= q <= e < 2 * n,
        narrow_so_far(q, seed),
    ensures
        narrow_so_far(e, seed),
    decreases e - q,
{
    if q < e {
        lemma_narrow_stays(q, e - 1, n, seed);
        lemma_between_powers(n, e);
    }
}

/// A narrow node of a level that is narrow so far.
proof fn narrow_node(e: int, n: int, seed: int) -> (q: int)
    requires
        is_pow(n),
        n <= e < 2 * n,
        narrow_so_far(e, seed),
    ensures
        n <= q <= e,
        extent(q, 1, seed) < 4,
    decreases e,
{
    if extent(e, 1, seed) < 4 {
        e
    } else {
        narrow_node(e - 1, n, seed)
    }
}

/// Below a narrow level there are narrow levels.
proof fn lemma_narrow_descends(n: int, seed: int)
    requires
        is_pow(n),
        seed >= 0,
        narrow_so_far(2 * n - 1, seed),
    ensures
        narrow_so_far(4 * n - 1, seed),
{
    let q = narrow_node(2 * n - 1, n, seed);
    assert(q >= 1) by {
        lemma_pow_positive(n);
    }
    extent_is_bounded(q, 1, seed);
    let p = extent(q, 1, seed);
    assert((2 * q) / 2 == q && (2 * q) % 2 == 0);
    assert(extent(2 * q, 1, seed) == child_extent(p, false));
    assert(child_extent(p, false) < 4);
    assert(narrow_so_far(2 * q, seed));
    assert(is_pow(2 * n)) by {
        lemma_pow_positive(n);
        assert((2 * n) / 2 == n && (2 * n) % 2 == 0);
    }
    lemma_narrow_stays(2 * q, 4 * n - 1, 2 * n, seed);
}

proof fn lemma_pow_positive(n: int)
    requires
        is_pow(n),
    ensures
        n >= 1,
{
}

/// A horizontal position is that of the tiling while no level is narrow,
/// and never further right than one strip width past it.
pub proof fn columns_follow_the_tiling(k: int, level: int, seed: int)
    requires
        1 <= level <= k,
        seed >= 0,
    ensures
        0 <= x_position(k, level, seed) <= seed + left_of(k, level, seed),
        narrow_so_far(inner_index(k, level), seed) ==> x_position(k, level, seed) <= left_of(
            k,
            level,
            seed,
        ),
        !narrow_level(inner_index(k, level), seed) ==> x_position(k, level, seed) == left_of(
            k,
            level,
            seed,
        ),
    decreases k,
{
    let h = inner_index(k, level);
    levels_tile_their_extent(k, level, seed);
    lemma_inner_extent(k, level, seed);
    lemma_level(h);
    if narrow_so_far(h, seed) {
        lemma_narrow_stays(h, 2 * level_of(h) - 1, level_of(h), seed);
    }
    if k == level {
        if k >= 2 && extent(k, level, seed) >= 4 {
            assert(extent(k - 1, level, seed) == 0);
            assert(x_position(k - 1, level, seed) == 0);
        }
        assert(x_position(k, level, seed) == 0);
    } else if extent(k, level, seed) >= 4 {
        let g = inner_index(k - 1, level);
        columns_follow_the_tiling(k - 1, level, seed);
        levels_tile_their_extent(k - 1, level, seed);
        lemma_inner_extent(k - 1, level, seed);
        lemma_next_inner(k - 1, level);
        lemma_level(g);
        if !is_last(k - 1, level) {
            let n = level_of(g);
            if h == 2 * n {
                assert(is_pow(h)) by {
                    assert((2 * n) / 2 == n && (2 * n) % 2 == 0);
                }
            }
            lemma_level_is_unique(h, n);
            assert(narrow_so_far(h, seed) == narrow_so_far(g, seed));
        } else {
            let n = level_of(g);
            assert(g + 1 == 2 * n) by {
                if g + 1 < 2 * n {
                    lemma_between_powers(n, g + 1);
                }
            }
            assert((2 * n) / 2 == n && (2 * n) % 2 == 0);
            assert(is_pow(2 * n));
            if h == g + 1 {
                lemma_level_is_unique(h, 2 * n);
                if narrow_so_far(2 * n - 1, seed) {
                    lemma_narrow_descends(n, seed);
                }
            } else {
                assert(h == n);
                lemma_level_is_unique(h, n);
            }
        }
    }
}

proof fn lemma_pow2_ceil_positive(n: int)
    ensures
        pow2_ceil(n) >= 1,
    decreases n,
{
    if n > 1 {
        lemma_pow2_ceil_positive((n + 1) / 2);
    }
}

/// The columns of a leaf end at most two strip widths into its strip.
proof fn lemma_leaf_columns(k: int, level: int, strip: int)
    requires
        0 <= k,
        1 <= level,
        strip >= 0,
        quarter_code(k, extent(k, level, strip)) != UNDER_FOUR_CODE,
    ensures
        x_position(k, level, strip) + 4 * quarter_code(k, extent(k, level, strip)) <= 2 * strip,
{
    if k >= level {
        columns_follow_the_tiling(k, level, strip);
        levels_tile_their_extent(k, level, strip);
    } else {
        assert(extent(k, level, strip) == 0);
    }
}

/// The rows of a leaf lie in the plane.
proof fn lemma_leaf_rows(k: int, height: int)
    requires
        0 <= k,
        height >= 0,
        quarter_code(k, extent(k, 1, height)) != UNDER_FOUR_CODE,
        y_position(k, height) < UNDER_FOUR_YPOS,
    ensures
        y_position(k, height) / 0xb0 + 4 * quarter_code(k, extent(k, 1, height)) <= height,
{
    if k >= 1 {
        rows_follow_the_tiling(k, height);
        levels_tile_their_extent(k, 1, height);
    }
}

/// Every leaf that the banks of a plane can place lies in a strip buffer
/// with one row above the plane's rows and one below them.
pub proof fn banks_place_leaves_in_their_strips(
    banks: PlaneBanks,
    width: int,
    height: int,
    full_strip: int,
    luma_width: int,
    strips: Seq<Seq<u8>>,
)
    requires
        banks.built_for(width, height, full_strip, luma_width),
        0 < full_strip <= 0xb0,
        height >= 0,
        forall|i: int| 0 <= i < strips.len() ==> (#[trigger] strips[i]).len() == (height + 2) * 0xb0,
    ensures
        leaves_fit(banks, strips),
{
    let full = full_rule(width, height, full_strip, luma_width);
    let last = last_rule(width, height, full_strip, luma_width);
    let residual = last_strip_width(width, full_strip);
    lemma_pow2_ceil_positive(strip_count(width, full_strip));
    assert(1 <= residual <= full_strip) by {
        let used = if width < 1 {
            1
        } else {
            width
        };
        vstd::arithmetic::div_mod::lemma_mod_bound(used - 1, full_strip);
    }
    assert forall|cl: int, ch: int| 0 <= cl < 256 && 0 <= ch < 256 implies match #[trigger] leaf_rect(
        banks,
        strips.len() as int,
        cl,
        ch,
    ) {
        Ok(cell) => rect_fits(cell, strips[cell.strip as int].len() as int),
        Err(_) => true,
    } by {
        if let Ok(cell) = leaf_rect(banks, strips.len() as int, cl, ch) {
            let slot = banks.full.strip@[ch];
            let bank = banks.slot_bank(slot as int);
            let rule = if slot + 1 >= banks.nstrips {
                last
            } else {
                full
            };
            assert(bank.follows(rule));
            assert(bank.h4@[cl] == quarter_code(cl, extent(cl, 1, height)));
            assert(bank.w4@[ch] == quarter_code(ch, extent(ch, rule.l_level(), rule.this_strip)));
            assert(bank.xpos@[ch] == x_position(ch, rule.l_level(), rule.this_strip));
            assert(bank.ypos@[cl] == y_position(cl, height));
            lemma_leaf_columns(ch, rule.l_level(), rule.this_strip);
            lemma_leaf_rows(cl, height);
            assert(strips[cell.strip as int].len() == (height + 2) * 0xb0);
        }
    }
}

/// The entries of a bank, one after the other: a node of four pixels or
/// more has its extent in groups of four and begins where the node before
/// it ends, or at 0 where that is the end of the plane or strip; a lesser
/// node, below the root, carries 99 groups, the row address 999999 and
/// column 0. Entry 0 is empty.
pub proof fn entries_follow_one_another(bank: GeometryBank, rule: BankRule, k: int)
    requires
        bank.follows(rule),
        1 <= k < 256,
        rule.height >= 0,
    ensures
        ({
            let h = extent(k, 1, rule.height);
            let level = if rule.wide {
                2
            } else {
                rule.p_level
            };
            let w = extent(k, level, rule.this_strip);
            let above = bank.ypos@[k - 1] + 176 * extent(k - 1, 1, rule.height);
            let before = bank.xpos@[k - 1] + extent(k - 1, level, rule.this_strip);
            &&& k == 1 ==> bank.ypos@[k] == 0 && bank.xpos@[k] == 0
            &&& k >= 2 && h < 4 ==> bank.h4@[k] == 99 && bank.ypos@[k] == 999999
            &&& k >= 2 && w < 4 ==> bank.w4@[k] == 99 && bank.xpos@[k] == 0
            &&& k == 1 || h >= 4 ==> bank.h4@[k] == h / 4 % 256
            &&& k == 1 || w >= 4 ==> bank.w4@[k] == w / 4 % 256
            &&& k >= 2 && h >= 4 ==> bank.ypos@[k] == if above == 176 * rule.height {
                0
            } else {
                above
            }
            &&& k >= 2 && w >= 4 ==> bank.xpos@[k] == if before == rule.this_strip {
                0
            } else {
                before
            }
        }),
        bank.h4@[0] == 0,
        bank.w4@[0] == 0,
        bank.ypos@[0] == 0,
        bank.xpos@[0] == 0,
        bank.strip@[0] == 0,
{
    assert(bank.h4@[k] == quarter_code(k, extent(k, 1, rule.height)));
    assert(bank.h4@[0] == 0);
    assert(bank.ypos@[k - 1] == y_position(k - 1, rule.height));
}

/// The strips of a bank's entries: above the level of the strips they are
/// strip 2, at that level the strips in order, below it that of the node
/// above. In a three-strip picture the fourth strip is strip 2.
pub proof fn entries_name_their_strips(bank: GeometryBank, rule: BankRule, k: int)
    requires
        bank.follows(rule),
        1 <= k < 256,
        rule.p_level >= 1,
    ensures
        k < rule.p_level ==> bank.strip@[k] == 2,
        rule.p_level <= k < 2 * rule.p_level ==> bank.strip@[k] == if k == rule.p_level + 3 && (
        rule.wide || rule.fold) {
            2
        } else {
            k - rule.p_level
        },
        2 * rule.p_level <= k ==> bank.strip@[k] == bank.strip@[k / 2],
{
    let own = folded_slot(strip_slot(k, rule.p_level, rule.wide), rule.fold);
    let above = folded_slot(strip_slot(k / 2, rule.p_level, rule.wide), rule.fold);
    assert(bank.strip@[k] == own);
    assert(bank.strip@[k / 2] == above);
}

/// The strip buffers of a plane: all but the last read the full-strip
/// bank; the picture with three strips is the one wider than 320 and not
/// than 480, and of its two banks the last one starts its own columns at
/// heap index 2 and the full one folds the fourth strip.
pub proof fn banks_go_by_their_strip(
    banks: PlaneBanks,
    width: int,
    height: int,
    full_strip: int,
    luma_width: int,
    slot: int,
)
    requires
        banks.built_for(width, height, full_strip, luma_width),
        0 <= slot,
    ensures
        slot < banks.nstrips - 1 ==> banks.slot_bank(slot) == banks.full,
        slot >= banks.nstrips - 1 ==> banks.slot_bank(slot) == banks.last,
        ({
            let full = full_rule(width, height, full_strip, luma_width);
            let last = last_rule(width, height, full_strip, luma_width);
            &&& banks.full.follows(full)
            &&& banks.last.follows(last)
            &&& full.height == height && last.height == height
            &&& full.this_strip == full_strip
            &&& last.this_strip == banks.last_strip
            &&& full.p_level == last.p_level
            &&& !full.wide && !last.fold
            &&& full.fold == last.wide
            &&& last.wide <==> 320 < luma_width <= 480
        }),
{
}

/// A chroma plane is a quarter of the luma plane, up to a multiple of four.
pub proof fn chroma_rounds_up_to_four(luma: int)
    requires
        0 <= luma,
    ensures
        chroma_extent(luma) % 4 == 0,
        luma / 4 <= chroma_extent(luma) < luma / 4 + 4,
{
}

} // verus!
