//! Pixel colors and gradient palettes.
//!
//! A [`Palette`] is a table of 256 colors built once from an ordered list of
//! gradient stops: the 256 slots are split into one equal-width range per
//! consecutive pair of stops, and each channel is blended linearly across its
//! range (integer arithmetic, each blended value rounded down). The last
//! slot is pinned to the last stop, so the top of the gradient is always
//! reached.

use vstd::prelude::*;
use vstd::arithmetic::div_mod::{
    lemma_basic_div, lemma_div_by_self, lemma_div_is_ordered, lemma_div_multiples_vanish,
    lemma_div_nonincreasing, lemma_div_of0, lemma_div_pos_is_pos, lemma_fundamental_div_mod,
    lemma_mod_division_less_than_divisor, lemma_multiply_divide_lt,
};
use vstd::arithmetic::mul::{
    lemma_mul_inequality, lemma_mul_is_commutative, lemma_mul_nonnegative,
};

verus! {

/// One pixel color: red, green and blue channels.
#[derive(Clone, Copy, Debug, PartialEq, Eq, Structural)]
pub struct Rgb(pub u8, pub u8, pub u8);

impl Rgb {
    /// Packs the three channels into one 32-bit value with a zero top byte,
    /// the layout display buffers expect.
    pub fn as_u32(self) -> (packed: u32)
        ensures
            packed == self.0 as u32 * 0x10000 + self.1 as u32 * 0x100 + self.2 as u32,
    {
        self.0 as u32 * 0x10000 + self.1 as u32 * 0x100 + self.2 as u32
    }
}

/// The gray with all three channels equal to `value`.
pub fn grayscale(value: u8) -> (c: Rgb)
    ensures
        c == (Rgb(value, value, value)),
{
    Rgb(value, value, value)
}

/// Number of entries in a palette table, one per iteration count.
pub const MAX_COLORS: usize = 256;

/// Channel blend from `s` towards `e`, `k` steps into a range of `len`
/// steps: the linear interpolation `s + (e - s) * k / len` with the result
/// rounded down (as a float blend truncated toward zero would round it),
/// and clamped to `e` once `k` reaches the end of the range.
pub open spec fn interp_channel(s: int, e: int, k: int, len: int) -> int
    recommends
        1 <= len,
        0 <= k,
{
    if k >= len {
        e
    } else if e >= s {
        s + (e - s) * k / len
    } else {
        s - ((s - e) * k + (len - 1)) / len
    }
}

/// Width of the slot range assigned to each pair of consecutive stops.
pub open spec fn range_width(stop_count: int) -> int
    recommends
        2 <= stop_count,
{
    256int / (stop_count - 1)
}

/// Which pair of gradient stops governs palette slot `i`: slot `i` falls in
/// range `i / range_width`, except that the slots past the last full range
/// belong to the final pair.
pub open spec fn gradient_stop_index(stop_count: int, i: int) -> int
    recommends
        2 <= stop_count,
        0 <= i < 256,
{
    if i / range_width(stop_count) >= stop_count - 1 {
        stop_count - 2
    } else {
        i / range_width(stop_count)
    }
}

/// The color of palette slot `i` for the given gradient stops. The top
/// slot is the last stop itself: when the equal-width ranges cover all 256
/// slots exactly, the blend alone would stop one step short of it, so the
/// highest count could never reach the gradient's top.
pub open spec fn palette_entry(stops: Seq<Rgb>, i: int) -> Rgb
    recommends
        2 <= stops.len() <= 256,
        0 <= i < 256,
{
    if i == 255 {
        stops[stops.len() - 1]
    } else {
        let width = range_width(stops.len() as int);
        let ri = gradient_stop_index(stops.len() as int, i);
        let k = i - ri * width;
        let s = stops[ri];
        let e = stops[ri + 1];
        Rgb(
            interp_channel(s.0 as int, e.0 as int, k, width) as u8,
            interp_channel(s.1 as int, e.1 as int, k, width) as u8,
            interp_channel(s.2 as int, e.2 as int, k, width) as u8,
        )
    }
}

/// The range width always lies between 1 and 256.
pub proof fn lemma_range_width_bounds(stop_count: int)
    requires
        2 <= stop_count <= 256,
    ensures
        1 <= range_width(stop_count) <= 256,
{
    let rc = stop_count - 1;
    lemma_div_is_ordered(rc, 256, rc);
    lemma_div_by_self(rc);
    lemma_div_nonincreasing(256, rc);
}

/// A blended channel stays between its two endpoint channels.
pub proof fn lemma_interp_range(s: int, e: int, k: int, len: int)
    requires
        0 <= s <= 255,
        0 <= e <= 255,
        0 <= k,
        1 <= len,
    ensures
        s <= e ==> s <= interp_channel(s, e, k, len) <= e,
        e <= s ==> e <= interp_channel(s, e, k, len) <= s,
{
    if k >= len {
    } else if e >= s {
        let d = e - s;
        lemma_mul_nonnegative(d, k);
        lemma_div_pos_is_pos(d * k, len);
        lemma_mul_inequality(k, len, d);
        lemma_mul_is_commutative(k, d);
        lemma_mul_is_commutative(len, d);
        lemma_div_is_ordered(d * k, d * len, len);
        lemma_div_multiples_vanish(d, len);
    } else {
        let d = s - e;
        let num = d * k + (len - 1);
        lemma_mul_nonnegative(d, k);
        lemma_div_pos_is_pos(num, len);
        lemma_mul_inequality(k, len - 1, d);
        lemma_mul_is_commutative(k, d);
        lemma_mul_is_commutative(len - 1, d);
        assert(num < (d + 1) * len) by (nonlinear_arith)
            requires
                num == d * k + (len - 1),
                d * k <= d * (len - 1),
                d >= 1,
                len >= 1,
        {}
        lemma_multiply_divide_lt(num, len, d + 1);
    }
}

/// Moving further into a range moves the blended channel monotonically
/// towards the far stop.
pub proof fn lemma_interp_monotone(s: int, e: int, k1: int, k2: int, len: int)
    requires
        0 <= s <= 255,
        0 <= e <= 255,
        0 <= k1 <= k2,
        1 <= len,
    ensures
        s <= e ==> interp_channel(s, e, k1, len) <= interp_channel(s, e, k2, len),
        e <= s ==> interp_channel(s, e, k2, len) <= interp_channel(s, e, k1, len),
{
    lemma_interp_range(s, e, k1, len);
    lemma_interp_range(s, e, k2, len);
    if k2 < len {
        if e >= s {
            let d = e - s;
            lemma_mul_inequality(k1, k2, d);
            lemma_mul_is_commutative(k1, d);
            lemma_mul_is_commutative(k2, d);
            lemma_div_is_ordered(d * k1, d * k2, len);
        }
        if e <= s {
            let d = s - e;
            lemma_mul_inequality(k1, k2, d);
            lemma_mul_is_commutative(k1, d);
            lemma_mul_is_commutative(k2, d);
            lemma_div_is_ordered(d * k1 + (len - 1), d * k2 + (len - 1), len);
        }
    }
}

/// A 256-entry color table, one slot per iteration count.
#[derive(Debug)]
pub struct Palette {
    colors: Vec<Rgb>,
}

impl Palette {
    /// The table always holds exactly [`MAX_COLORS`] entries.
    pub closed spec fn wf(&self) -> bool {
        self.colors@.len() == MAX_COLORS
    }

    /// The color table as a sequence.
    pub closed spec fn colors(&self) -> Seq<Rgb> {
        self.colors@
    }

    /// Builds the table from an ordered list of gradient stops by blending
    /// each channel linearly across one equal-width range per pair of
    /// consecutive stops; the top slot holds the last stop itself.
    pub fn from_gradient(gradient: &[Rgb]) -> (p: Palette)
        requires
            2 <= gradient@.len() <= 256,
        ensures
            p.wf(),
            forall|i: int| 0 <= i < 256 ==> p.colors()[i] == palette_entry(gradient@, i),
    {
        let range_count = gradient.len() - 1;
        let range_len = 256 / range_count;
        proof {
            lemma_range_width_bounds(gradient@.len() as int);
        }
        let mut colors: Vec<Rgb> = Vec::with_capacity(MAX_COLORS);
        let mut i: usize = 0;
        while i < MAX_COLORS
            invariant
                1 <= range_count <= 255,
                range_count == gradient@.len() - 1,
                range_len == range_width(gradient@.len() as int),
                1 <= range_len <= 256,
                i <= MAX_COLORS,
                colors@.len() == i,
                forall|j: int| 0 <= j < i ==> colors@[j] == palette_entry(gradient@, j),
            decreases MAX_COLORS - i,
        {
            let entry = if i == MAX_COLORS - 1 {
                gradient[range_count]
            } else {
                let mut range_index = i / range_len;
                if range_index >= range_count {
                    range_index = range_count - 1;
                }
                proof {
                    assert(range_index * range_len <= (i / range_len) * range_len) by {
                        lemma_mul_inequality(
                            range_index as int,
                            i as int / range_len as int,
                            range_len as int,
                        );
                    }
                    assert((i / range_len) * range_len <= i) by {
                        lemma_fundamental_div_mod(i as int, range_len as int);
                        lemma_mod_division_less_than_divisor(i as int, range_len as int);
                    }
                }
                let k = i - range_index * range_len;
                let start = gradient[range_index];
                let end = gradient[range_index + 1];
                let blended = Rgb(
                    Self::interpolate_u8(start.0, end.0, k, range_len),
                    Self::interpolate_u8(start.1, end.1, k, range_len),
                    Self::interpolate_u8(start.2, end.2, k, range_len),
                );
                proof {
                    lemma_interp_range(start.0 as int, end.0 as int, k as int, range_len as int);
                    lemma_interp_range(start.1 as int, end.1 as int, k as int, range_len as int);
                    lemma_interp_range(start.2 as int, end.2 as int, k as int, range_len as int);
                }
                blended
            };
            proof {
                assert(entry == palette_entry(gradient@, i as int));
            }
            colors.push(entry);
            i = i + 1;
        }
        Palette { colors }
    }

    /// Looks up the color assigned to an iteration count.
    pub fn color(&self, value: u8) -> (c: Rgb)
        requires
            self.wf(),
        ensures
            c == self.colors()[value as int],
    {
        self.colors[value as usize]
    }

    /// Executable counterpart of [`interp_channel`].
    fn interpolate_u8(s: u8, e: u8, k: usize, len: usize) -> (v: u8)
        requires
            1 <= len <= 256,
            k <= 255,
        ensures
            v as int == interp_channel(s as int, e as int, k as int, len as int),
    {
        proof {
            lemma_interp_range(s as int, e as int, k as int, len as int);
        }
        if k >= len {
            e
        } else if e >= s {
            let d = (e - s) as u32;
            proof {
                lemma_mul_inequality(k as int, 255, d as int);
                lemma_mul_is_commutative(k as int, d as int);
            }
            let q = (d * (k as u32)) / (len as u32);
            s + (q as u8)
        } else {
            let d = (s - e) as u32;
            proof {
                lemma_mul_inequality(k as int, 255, d as int);
                lemma_mul_is_commutative(k as int, d as int);
            }
            let q = ((d * (k as u32)) + (len as u32 - 1)) / (len as u32);
            s - (q as u8)
        }
    }
}

/// The first palette slot is exactly the first gradient stop.
pub proof fn lemma_palette_first(stops: Seq<Rgb>)
    requires
        2 <= stops.len() <= 256,
    ensures
        palette_entry(stops, 0) == stops[0],
{
    let sc = stops.len() as int;
    let width = range_width(sc);
    lemma_range_width_bounds(sc);
    lemma_div_of0(width);
    assert(gradient_stop_index(sc, 0) == 0);
    let s = stops[0];
    let e = stops[1];
    lemma_basic_div(width - 1, width);
    assert(interp_channel(s.0 as int, e.0 as int, 0, width) == s.0 as int);
    assert(interp_channel(s.1 as int, e.1 as int, 0, width) == s.1 as int);
    assert(interp_channel(s.2 as int, e.2 as int, 0, width) == s.2 as int);
}

/// The last palette slot is exactly the last gradient stop, for every
/// gradient: the highest iteration count always shows the top of the
/// gradient.
pub proof fn lemma_palette_last(stops: Seq<Rgb>)
    requires
        2 <= stops.len() <= 256,
    ensures
        palette_entry(stops, 255) == stops[stops.len() - 1],
{
}

/// Within one range of the table, every channel moves monotonically from the
/// range's first stop towards its second stop: later slots are never closer
/// to the first stop than earlier ones.
pub proof fn lemma_palette_monotone(stops: Seq<Rgb>, i: int, j: int)
    requires
        2 <= stops.len() <= 256,
        0 <= i <= j < 256,
        gradient_stop_index(stops.len() as int, i) == gradient_stop_index(stops.len() as int, j),
    ensures
        ({
            let ri = gradient_stop_index(stops.len() as int, i);
            let s = stops[ri];
            let e = stops[ri + 1];
            &&& (s.0 <= e.0 ==> palette_entry(stops, i).0 <= palette_entry(stops, j).0)
            &&& (e.0 <= s.0 ==> palette_entry(stops, j).0 <= palette_entry(stops, i).0)
            &&& (s.1 <= e.1 ==> palette_entry(stops, i).1 <= palette_entry(stops, j).1)
            &&& (e.1 <= s.1 ==> palette_entry(stops, j).1 <= palette_entry(stops, i).1)
            &&& (s.2 <= e.2 ==> palette_entry(stops, i).2 <= palette_entry(stops, j).2)
            &&& (e.2 <= s.2 ==> palette_entry(stops, j).2 <= palette_entry(stops, i).2)
        }),
{
    let sc = stops.len() as int;
    let width = range_width(sc);
    lemma_range_width_bounds(sc);
    let ri = gradient_stop_index(sc, i);
    lemma_div_pos_is_pos(i, width);
    assert(0 <= ri <= sc - 2);
    assert(ri * width <= i) by {
        lemma_mul_inequality(ri, i / width, width);
        lemma_fundamental_div_mod(i, width);
        lemma_mod_division_less_than_divisor(i, width);
    }
    let ki = i - ri * width;
    let kj = j - ri * width;
    let s = stops[ri];
    let e = stops[ri + 1];
    lemma_interp_monotone(s.0 as int, e.0 as int, ki, kj, width);
    lemma_interp_monotone(s.1 as int, e.1 as int, ki, kj, width);
    lemma_interp_monotone(s.2 as int, e.2 as int, ki, kj, width);
    lemma_interp_range(s.0 as int, e.0 as int, ki, width);
    lemma_interp_range(s.0 as int, e.0 as int, kj, width);
    lemma_interp_range(s.1 as int, e.1 as int, ki, width);
    lemma_interp_range(s.1 as int, e.1 as int, kj, width);
    lemma_interp_range(s.2 as int, e.2 as int, ki, width);
    lemma_interp_range(s.2 as int, e.2 as int, kj, width);
    if j == 255 {
        // The pinned top slot belongs to the final pair of stops, and it is
        // that pair's far stop, so no blended slot of the range passes it.
        lemma_gradient_stop_index_last(sc);
        assert(palette_entry(stops, 255) == e);
    }
}

/// Slot 255 always falls in the final range: the pair of stops governing it
/// is the gradient's last pair.
proof fn lemma_gradient_stop_index_last(stop_count: int)
    requires
        2 <= stop_count <= 256,
    ensures
        gradient_stop_index(stop_count, 255) == stop_count - 2,
{
    let sc = stop_count;
    let width = range_width(sc);
    lemma_range_width_bounds(sc);
    assert((sc - 1) * width <= 256) by {
        lemma_fundamental_div_mod(256, sc - 1);
        lemma_mod_division_less_than_divisor(256, sc - 1);
        lemma_mul_is_commutative(sc - 1, width);
    }
    assert((sc - 2) * width == (sc - 1) * width - width) by {
        vstd::arithmetic::mul::lemma_mul_is_distributive_sub_other_way(width, sc - 1, 1);
    }
    assert(255int / width >= sc - 2) by {
        vstd::arithmetic::div_mod::lemma_div_by_multiple(sc - 2, width);
        lemma_div_is_ordered((sc - 2) * width, 255, width);
    }
}

} // verus!
