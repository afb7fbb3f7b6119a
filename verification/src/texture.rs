//! The colourful test pattern of the sample scene's debug material.
use vstd::prelude::*;

verus! {

/// Width and height of the test pattern, in pixels.
pub const TEXTURE_SIZE: usize = 8usize;

/// The eight RGBA colours of one row of the pattern.
pub open spec fn palette() -> Seq<u8> {
    seq![
        255u8, 102, 159, 255, 255, 159, 102, 255, 236, 255, 102, 255, 121, 255, 102, 255, 102, 255, 198, 255, 102,
        198, 255, 255, 121, 102, 255, 255, 236, 102, 255, 255,
    ]
}

/// Byte `k` of row `y`: each row is the one above it with the palette turned
/// right by one colour.
pub open spec fn pattern_byte(y: int, k: int) -> u8 {
    palette()[(k - 4 * y) % 32]
}

/// The bytes of the test pattern, row after row.
pub fn uv_debug_texture_data() -> (data: Vec<u8>)
    ensures
        data@.len() == TEXTURE_SIZE * TEXTURE_SIZE * 4,
        forall|y: int, k: int| 0 <= y < 8 && 0 <= k < 32 ==> #[trigger] data@[y * 32 + k] == pattern_byte(y, k),
{
    let colours: [u8; 32] = [
        255, 102, 159, 255, 255, 159, 102, 255, 236, 255, 102, 255, 121, 255, 102, 255, 102, 255, 198, 255, 102,
        198, 255, 255, 121, 102, 255, 255, 236, 102, 255, 255,
    ];
    assert(colours@ == palette());
    let mut data: Vec<u8> = Vec::with_capacity(TEXTURE_SIZE * TEXTURE_SIZE * 4);
    let mut y: usize = 0;
    while y < TEXTURE_SIZE
        invariant
            0 <= y <= 8,
            colours@ == palette(),
            data@.len() == y * 32,
            forall|yy: int, k: int| 0 <= yy < y && 0 <= k < 32 ==> #[trigger] data@[yy * 32 + k] == pattern_byte(yy, k),
        decreases 8 - y,
    {
        let mut k: usize = 0;
        while k < 32
            invariant
                0 <= y < 8,
                0 <= k <= 32,
                colours@ == palette(),
                data@.len() == y * 32 + k,
                forall|yy: int, kk: int| 0 <= yy < y && 0 <= kk < 32 ==> #[trigger] data@[yy * 32 + kk] == pattern_byte(yy, kk),
                forall|kk: int| 0 <= kk < k ==> #[trigger] data@[y * 32 + kk] == pattern_byte(y as int, kk),
            decreases 32 - k,
        {
            let idx: usize = (k + 32 - 4 * y) % 32;
            assert(idx as int == (k - 4 * y) % 32) by (nonlinear_arith)
                requires
                    idx == (k + 32 - 4 * y) % 32,
                    0 <= y < 8,
                    0 <= k < 32,
            ;
            let ghost before = data@;
            data.push(colours[idx]);
            assert forall|yy: int, kk: int| 0 <= yy < y && 0 <= kk < 32 implies #[trigger] data@[yy * 32 + kk]
                == pattern_byte(yy, kk) by {
                assert(yy * 32 + kk < y * 32) by (nonlinear_arith)
                    requires
                        0 <= yy < y,
                        0 <= kk < 32,
                ;
                assert(data@[yy * 32 + kk] == before[yy * 32 + kk]);
            }
            k = k + 1;
        }
        y = y + 1;
    }
    data
}

} // verus!
