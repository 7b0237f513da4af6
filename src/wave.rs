//! Which row of the colour-matching table a sampled frequency reads.
use vstd::prelude::*;

verus! {

/// Rows in the colour-matching table, from about 392 nm to about 727 nm.
pub const TABLE_SIZE: usize = 48;

/// The table row for frequency bin `frequency` out of `resolution` bins:
/// `frequency * 48 / resolution`. With fewer than 48 bins several bins share
/// a row.
pub fn table_row(frequency: usize, resolution: usize) -> (r: usize)
    requires
        frequency < resolution,
        resolution * TABLE_SIZE <= usize::MAX,
    ensures
        r == (frequency * TABLE_SIZE) as int / resolution as int,
        r < TABLE_SIZE,
{
    assert(frequency * 48 < resolution * 48) by (nonlinear_arith)
        requires
            frequency < resolution,
    ;
    let r = frequency * TABLE_SIZE / resolution;
    assert(r < 48) by (nonlinear_arith)
        requires
            r == (frequency * 48) as int / resolution as int,
            frequency * 48 < resolution * 48,
            resolution > 0,
    ;
    r
}

} // verus!
