//! The map as an image to save.
use vstd::prelude::*;

verus! {

/// A buffer of `len` bytes holds an image of this size, four bytes a pixel, and
/// the bytes of a row can be counted.
pub open spec fn buffer_fits(w: u32, h: u32, len: nat) -> bool {
    &&& 4 * w <= usize::MAX
    &&& 4 * (w * h) <= len
}

/// `image::RgbaImage::from_raw`: the buffer of an image of this size, where
/// the bytes of a row can be counted and the buffer is big enough.
#[verifier::external_body]
pub(crate) fn rgba_buffer(w: u32, h: u32, raw: Vec<u8>) -> (r: Option<Vec<u8>>)
    ensures
        (r is Some) == buffer_fits(w, h, raw@.len()),
        r matches Some(v) ==> v@ == raw@,
{
    image::RgbaImage::from_raw(w, h, raw).map(|i| i.into_raw())
}

/// The bytes of pixels, one after the other.
pub open spec fn flattened(pixels: Seq<[u8; 4]>) -> Seq<u8>
    decreases pixels.len(),
{
    if pixels.len() == 0 {
        Seq::empty()
    } else {
        flattened(pixels.drop_last()) + pixels.last()@
    }
}

proof fn flattened_is_four_a_pixel(pixels: Seq<[u8; 4]>)
    ensures
        flattened(pixels).len() == 4 * pixels.len(),
    decreases pixels.len(),
{
    if pixels.len() > 0 {
        flattened_is_four_a_pixel(pixels.drop_last());
    }
}

/// The buffer of a captured frame, ready to be saved; an error where there are
/// too few pixels for its size, or a row has more bytes than can be counted.
pub fn write_screenshot(w: u32, h: u32, pixels: &Vec<[u8; 4]>) -> (r: Result<Vec<u8>, String>)
    ensures
        match r {
            Ok(v) => buffer_fits(w, h, 4 * pixels@.len()) && v@ == flattened(pixels@),
            Err(e) => !buffer_fits(w, h, 4 * pixels@.len()) && e@
                == "screenshot buffer size mismatch"@,
        },
{
    let mut raw: Vec<u8> = Vec::new();
    let mut i: usize = 0;
    while i < pixels.len()
        invariant
            i <= pixels@.len(),
            raw@ == flattened(pixels@.subrange(0, i as int)),
        decreases pixels@.len() - i,
    {
        let p = pixels[i];
        assert(pixels@.subrange(0, i + 1).drop_last() =~= pixels@.subrange(0, i as int));
        let ghost before = raw@;
        raw.push(p[0]);
        raw.push(p[1]);
        raw.push(p[2]);
        raw.push(p[3]);
        assert(raw@ =~= before + p@);
        i += 1;
    }
    assert(pixels@.subrange(0, i as int) =~= pixels@);
    proof {
        flattened_is_four_a_pixel(pixels@);
    }
    match rgba_buffer(w, h, raw) {
        Some(v) => Ok(v),
        None => Err("screenshot buffer size mismatch".to_owned()),
    }
}

/// Every pixel stands in its place, channel by channel, and there is nothing
/// else.
pub proof fn every_pixel_is_in_place(pixels: Seq<[u8; 4]>, i: int, c: int)
    requires
        0 <= i < pixels.len(),
        0 <= c < 4,
    ensures
        flattened(pixels).len() == 4 * pixels.len(),
        flattened(pixels)[4 * i + c] == pixels[i]@[c],
    decreases pixels.len(),
{
    flattened_is_four_a_pixel(pixels);
    flattened_is_four_a_pixel(pixels.drop_last());
    if i < pixels.len() - 1 {
        every_pixel_is_in_place(pixels.drop_last(), i, c);
    }
}

} // verus!
