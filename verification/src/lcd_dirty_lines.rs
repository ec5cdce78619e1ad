//! Selecting the physical LCD lines that a flush must write.
use vstd::prelude::*;

verus! {

/// Line `y` of a framebuffer with `width_bytes` bytes per line.
pub open spec fn line(framebuffer: Seq<u8>, width_bytes: int, y: int) -> Seq<u8> {
    framebuffer.subrange(y * width_bytes, (y + 1) * width_bytes)
}

/// A line must be written on the first flush, and later only when it changed.
pub open spec fn line_is_dirty(framebuffer: Seq<u8>, previous: Option<Seq<u8>>, width_bytes: int, y: int) -> bool {
    match previous {
        None => true,
        Some(p) => line(framebuffer, width_bytes, y) != line(p, width_bytes, y),
    }
}

/// The contents of an optional previous frame.
pub open spec fn previous_view(previous: Option<&[u8]>) -> Option<Seq<u8>> {
    match previous {
        Some(p) => Some(p@),
        None => None,
    }
}

/// Whether line `y` must be written (see [`line_is_dirty`]).
pub fn should_write_line(framebuffer: &[u8], previous: Option<&[u8]>, width_bytes: usize, y: usize) -> (r: bool)
    requires
        (y + 1) * width_bytes <= framebuffer@.len(),
        previous matches Some(p) ==> (y + 1) * width_bytes <= p@.len(),
    ensures
        r == line_is_dirty(framebuffer@, previous_view(previous), width_bytes as int, y as int),
{
    let length = framebuffer.len();
    proof {
        assert(length == framebuffer@.len());
        assert((y + 1) * width_bytes == y * width_bytes + width_bytes) by (nonlinear_arith);
        assert(0 <= y * width_bytes) by (nonlinear_arith);
    }
    let start = y * width_bytes;
    let end = start + width_bytes;
    match previous {
        None => true,
        Some(prev) => {
            let mut i = start;
            while i < end
                invariant
                    previous_view(previous) == Some(prev@),
                    start == y * width_bytes,
                    start <= i <= end,
                    end == start + width_bytes,
                    end == (y + 1) * width_bytes,
                    end <= framebuffer@.len(),
                    end <= prev@.len(),
                    forall|k: int| start <= k < i ==> framebuffer@[k] == prev@[k],
                decreases end - i,
            {
                if framebuffer[i] != prev[i] {
                    proof {
                        let a = line(framebuffer@, width_bytes as int, y as int);
                        let b = line(prev@, width_bytes as int, y as int);
                        assert(a[i - start] != b[i - start]);
                        assert(a != b);
                        assert(line_is_dirty(framebuffer@, Some(prev@), width_bytes as int, y as int));
                    }
                    return true;
                }
                i = i + 1;
            }
            proof {
                assert(line(framebuffer@, width_bytes as int, y as int) =~= line(prev@, width_bytes as int, y as int));
            }
            false
        },
    }
}

/// The framebuffer obtained by writing the dirty lines of `framebuffer` over `previous`.
pub open spec fn apply_dirty_lines(framebuffer: Seq<u8>, previous: Seq<u8>, width_bytes: int) -> Seq<u8> {
    Seq::new(
        previous.len(),
        |i: int|
            if line_is_dirty(framebuffer, Some(previous), width_bytes, i / width_bytes) {
                framebuffer[i]
            } else {
                previous[i]
            },
    )
}

/// Writing only the dirty lines over the previous frame reconstructs the new frame exactly.
pub proof fn law_dirty_lines_reconstruct_frame(framebuffer: Seq<u8>, previous: Seq<u8>, width_bytes: int, height: int)
    requires
        width_bytes > 0,
        height >= 0,
        framebuffer.len() == width_bytes * height,
        previous.len() == width_bytes * height,
    ensures
        apply_dirty_lines(framebuffer, previous, width_bytes) == framebuffer,
{
    assert forall|i: int| 0 <= i < framebuffer.len() implies #[trigger] apply_dirty_lines(
        framebuffer,
        previous,
        width_bytes,
    )[i] == framebuffer[i] by {
        let y = i / width_bytes;
        vstd::arithmetic::div_mod::lemma_fundamental_div_mod(i, width_bytes);
        vstd::arithmetic::div_mod::lemma_mod_bound(i, width_bytes);
        vstd::arithmetic::div_mod::lemma_div_pos_is_pos(i, width_bytes);
        assert(y * width_bytes <= i < (y + 1) * width_bytes) by (nonlinear_arith)
            requires i == width_bytes * y + i % width_bytes, 0 <= i % width_bytes < width_bytes;
        assert(y < height) by (nonlinear_arith)
            requires y * width_bytes <= i, i < width_bytes * height, width_bytes > 0;
        assert((y + 1) * width_bytes <= width_bytes * height) by (nonlinear_arith)
            requires y + 1 <= height, width_bytes > 0;
        if !line_is_dirty(framebuffer, Some(previous), width_bytes, y) {
            let a = line(framebuffer, width_bytes, y);
            let b = line(previous, width_bytes, y);
            assert(a[i - y * width_bytes] == b[i - y * width_bytes]);
        }
    }
    assert(apply_dirty_lines(framebuffer, previous, width_bytes) =~= framebuffer);
}

} // verus!
