//! Numeric side of rendering: elapsed-time rounding, percentages, bar
//! widths and the color band. The terminal escape codes and the actual
//! printing stay outside the library; everything computed here is exact
//! integer arithmetic on the report's rational loads.

use vstd::prelude::*;
use crate::delta::LoadRatio;

verus! {

/// Spaces of indentation per report level.
pub const INDENT_WIDTH: usize = 2;

/// Elapsed time as shown: whole seconds below three minutes, rounded to the
/// nearest minute from there on.
pub open spec fn rounded_elapsed_spec(elapsed_usec: u64) -> int {
    let secs = elapsed_usec as int / 1000000;
    if secs < 180 {
        secs
    } else {
        (secs + 30) / 60 * 60
    }
}

pub fn rounded_elapsed_secs(elapsed_usec: u64) -> (r: u64)
    ensures
        r == rounded_elapsed_spec(elapsed_usec),
{
    let secs = elapsed_usec / 1_000_000;
    if secs < 180 {
        secs
    } else {
        (secs + 30) / 60 * 60
    }
}

/// The load as a whole percentage, rounded half away from zero.
pub open spec fn percent_spec(num: int, den: int) -> int {
    if num >= 0 {
        (200 * num + den) / (2 * den)
    } else {
        -((200 * (-num) + den) / (2 * den))
    }
}

pub fn percent_of(load: &LoadRatio) -> (r: i128)
    requires
        load.wf(),
    ensures
        r == percent_spec(load.num as int, load.den as int),
{
    if load.num >= 0 {
        let a: u128 = 200 * (load.num as u128);
        ((a + load.den) / (2 * load.den)) as i128
    } else {
        let a: u128 = 200 * ((-load.num) as u128);
        -(((a + load.den) / (2 * load.den)) as i128)
    }
}

/// Filled cells of a usage bar `width` wide: the load clamped to `[0, 1]`,
/// scaled and rounded half away from zero.
pub open spec fn bar_full_spec(width: u32, num: int, den: int) -> int {
    if num <= 0 {
        0
    } else if num >= den {
        width as int
    } else {
        (2 * width * num + den) / (2 * den)
    }
}

pub fn bar_cells(width: u32, load: &LoadRatio) -> (r: (u32, u32))
    requires
        load.wf(),
    ensures
        r.0 == bar_full_spec(width, load.num as int, load.den as int),
        r.0 + r.1 == width,
{
    if load.num <= 0 {
        return (0, width);
    }
    if load.num >= 0 && (load.num as u128) >= load.den {
        return (width, 0);
    }
    proof {
        assert((2 * (width as int)) * (load.num as int) <= 2 * 0xFFFF_FFFF
            * 0xFFFF_FFFF_FFFF_FFFF) by (nonlinear_arith)
            requires
                0 <= width <= 0xFFFF_FFFFu32,
                0 <= load.num <= 0xFFFF_FFFF_FFFF_FFFFi128,
        ;
    }
    let a: u128 = 2 * (width as u128) * (load.num as u128);
    let q: u128 = (a + load.den) / (2 * load.den);
    proof {
        let w = width as int;
        let num = load.num as int;
        let den = load.den as int;
        vstd::arithmetic::div_mod::lemma_fundamental_div_mod(2 * w * num + den, 2 * den);
        let m = (2 * w * num + den) % (2 * den);
        assert(q <= w) by (nonlinear_arith)
            requires
                2 * w * num + den == (2 * den) * (q as int) + m,
                m >= 0,
                num <= den - 1,
                den >= 1,
                w >= 0,
                q >= 0,
        ;
    }
    let full = q as u32;
    (full, width - full)
}

/// The three-step color band of a bar: percentages up to 75 are calm, up to
/// 95 elevated, above that high. Negative loads sit in the calm band.
#[derive(Clone, Copy, Debug, PartialEq, Eq, Structural)]
pub enum LoadBand {
    Low,
    Mid,
    High,
}

pub open spec fn band_spec(num: int, den: int) -> LoadBand {
    let t = if num <= 0 {
        0
    } else {
        100 * num / den
    };
    if t <= 75 {
        LoadBand::Low
    } else if t <= 95 {
        LoadBand::Mid
    } else {
        LoadBand::High
    }
}

pub fn color_band(load: &LoadRatio) -> (r: LoadBand)
    requires
        load.wf(),
    ensures
        r == band_spec(load.num as int, load.den as int),
{
    if load.num <= 0 {
        return LoadBand::Low;
    }
    let t: u128 = 100 * (load.num as u128) / load.den;
    if t <= 75 {
        LoadBand::Low
    } else if t <= 95 {
        LoadBand::Mid
    } else {
        LoadBand::High
    }
}

/// Narrowest total width the report fits in: indentation, the widest name,
/// the percentage column and a minimal bar.
pub fn min_report_width(max_name_width: usize) -> (r: usize)
    requires
        max_name_width <= usize::MAX - 19,
    ensures
        r == INDENT_WIDTH + max_name_width + 17,
{
    INDENT_WIDTH + max_name_width + 12 + 5
}

} // verus!
