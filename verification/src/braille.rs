use vstd::prelude::*;

verus! {

/// The eight sub-cell positions of one glyph cell map onto non-contiguous
/// bit weights; the index is `x * 4 + y` for the sub-cell column `x` and row `y`.
pub open spec fn dot_mask(id: int) -> u8 {
    if id == 0 {
        0x01
    } else if id == 1 {
        0x02
    } else if id == 2 {
        0x04
    } else if id == 3 {
        0x40
    } else if id == 4 {
        0x08
    } else if id == 5 {
        0x10
    } else if id == 6 {
        0x20
    } else {
        0x80
    }
}

/// A group value with the bit for sub-cell `(x, y)` set; sub-cells outside
/// the 2 by 4 block leave the value unchanged.
pub open spec fn spec_set_dot(src: u8, x: int, y: int) -> u8 {
    if x * 4 + y < 8 {
        src | dot_mask(x * 4 + y)
    } else {
        src
    }
}

/// A group value with the bit for sub-cell `(x, y)` cleared; sub-cells outside
/// the 2 by 4 block leave the value unchanged.
pub open spec fn spec_clean_dot(src: u8, x: int, y: int) -> u8 {
    if x * 4 + y < 8 {
        src & !dot_mask(x * 4 + y)
    } else {
        src
    }
}

/// The value of a bit group with no dot set.
pub fn empty() -> (r: u8)
    ensures
        r == 0,
{
    0x00
}

fn mask_of(id: usize) -> (r: u8)
    requires
        id < 8,
    ensures
        r == dot_mask(id as int),
{
    if id == 0 {
        0x01
    } else if id == 1 {
        0x02
    } else if id == 2 {
        0x04
    } else if id == 3 {
        0x40
    } else if id == 4 {
        0x08
    } else if id == 5 {
        0x10
    } else if id == 6 {
        0x20
    } else {
        0x80
    }
}

pub fn set_dot(src: u8, x: usize, y: usize) -> (r: u8)
    requires
        x * 4 + y <= usize::MAX,
    ensures
        r == spec_set_dot(src, x as int, y as int),
{
    let id = x * 4 + y;
    if id < 8 {
        src | mask_of(id)
    } else {
        src
    }
}

pub fn clean_dot(src: u8, x: usize, y: usize) -> (r: u8)
    requires
        x * 4 + y <= usize::MAX,
    ensures
        r == spec_clean_dot(src, x as int, y as int),
{
    let id = x * 4 + y;
    if id < 8 {
        src & !mask_of(id)
    } else {
        src
    }
}

/// Relies on char::from_u32: for a scalar value below 0xD800 it returns the
/// character with exactly that value.  Every group value lands in the block
/// 0x2800..=0x28FF, so the unwrap never fails.
#[verifier::external_body]
pub fn to_char(val: u8) -> (c: char)
    ensures
        c as u32 == 0x2800 + val as u32,
{
    char::from_u32(val as u32 + 0x2800).unwrap()
}

/// Setting the bit of a valid sub-cell turns on exactly one bit, and clearing
/// the same sub-cell turns off exactly that bit and no other.
pub proof fn lemma_dot_set_clean(src: u8, x: int, y: int)
    requires
        0 <= x < 2,
        0 <= y < 4,
    ensures
        dot_mask(x * 4 + y) != 0,
        (dot_mask(x * 4 + y) & (dot_mask(x * 4 + y) - 1) as u8) == 0,
        spec_set_dot(src, x, y) == (src | dot_mask(x * 4 + y)),
        spec_clean_dot(src, x, y) == (src & !dot_mask(x * 4 + y)),
        (src & dot_mask(x * 4 + y)) == 0 ==> spec_set_dot(src, x, y) == src + dot_mask(
            x * 4 + y,
        ),
        (spec_set_dot(src, x, y) & !dot_mask(x * 4 + y)) == (src & !dot_mask(x * 4 + y)),
        spec_clean_dot(spec_set_dot(src, x, y), x, y) == (src & !dot_mask(x * 4 + y)),
        (src & dot_mask(x * 4 + y)) == 0 ==> spec_clean_dot(spec_set_dot(src, x, y), x, y)
            == src,
{
    let m = dot_mask(x * 4 + y);
    assert(m == 0x01 || m == 0x02 || m == 0x04 || m == 0x08 || m == 0x10 || m == 0x20 || m
        == 0x40 || m == 0x80);
    assert((m == 0x01 || m == 0x02 || m == 0x04 || m == 0x08 || m == 0x10 || m == 0x20 || m
        == 0x40 || m == 0x80) ==> m != 0 && (m & (m - 1) as u8) == 0 && ((src | m) & !m) == (
    src & !m) && ((src & m) == 0 ==> (src | m) == src + m) && ((src & m) == 0 ==> ((src | m)
        & !m) == src)) by (bit_vector);
}

/// Each sub-cell owns one bit: setting it turns it on, clearing turns it
/// off, and neither touches the bit of any other sub-cell.
pub proof fn lemma_mask_ops(v: u8, id1: int, id2: int)
    requires
        0 <= id1 < 8,
        0 <= id2 < 8,
    ensures
        dot_mask(id1) != 0,
        ((v | dot_mask(id1)) & dot_mask(id1)) != 0,
        ((v & !dot_mask(id1)) & dot_mask(id1)) == 0,
        id1 != id2 ==> ((v | dot_mask(id1)) & dot_mask(id2)) == (v & dot_mask(id2)),
        id1 != id2 ==> ((v & !dot_mask(id1)) & dot_mask(id2)) == (v & dot_mask(id2)),
{
    let m1 = dot_mask(id1);
    let m2 = dot_mask(id2);
    assert(m1 == 0x01 || m1 == 0x02 || m1 == 0x04 || m1 == 0x08 || m1 == 0x10 || m1 == 0x20
        || m1 == 0x40 || m1 == 0x80);
    assert(m2 == 0x01 || m2 == 0x02 || m2 == 0x04 || m2 == 0x08 || m2 == 0x10 || m2 == 0x20
        || m2 == 0x40 || m2 == 0x80);
    if id1 != id2 {
        assert(m1 != m2);
    }
    assert((m1 == 0x01 || m1 == 0x02 || m1 == 0x04 || m1 == 0x08 || m1 == 0x10 || m1 == 0x20
        || m1 == 0x40 || m1 == 0x80) && (m2 == 0x01 || m2 == 0x02 || m2 == 0x04 || m2 == 0x08
        || m2 == 0x10 || m2 == 0x20 || m2 == 0x40 || m2 == 0x80) ==> m1 != 0 && ((v | m1) & m1)
        != 0 && ((v & !m1) & m1) == 0 && (m1 != m2 ==> ((v | m1) & m2) == (v & m2) && ((v
        & !m1) & m2) == (v & m2))) by (bit_vector);
}

} // verus!
