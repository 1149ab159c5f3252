use vstd::prelude::*;

use crate::text::{append_chars, chars_of, string_of};

verus! {

/// The MD5 digest (RFC 1321) of `data`, as the `md5` crate computes it.
pub uninterp spec fn md5_digest(data: Seq<u8>) -> Seq<u8>;

/// `md5::compute`: the contract names the digest of exactly these bytes and states its
/// length, 16 bytes (the crate's `Digest` is a `[u8; 16]`); what the digest is, is not
/// restated.
#[verifier::external_body]
fn md5_compute(data: &[u8]) -> (res: Vec<u8>)
    ensures
        res@ == md5_digest(data@),
        res@.len() == 16,
{
    md5::compute(data).0.to_vec()
}

/// The lower-case hexadecimal digit for `d` (`0 <= d < 16`).
pub open spec fn hex_lower(d: int) -> char {
    if d < 10 {
        crate::text::digit_char(d)
    } else if d == 10 {
        'a'
    } else if d == 11 {
        'b'
    } else if d == 12 {
        'c'
    } else if d == 13 {
        'd'
    } else if d == 14 {
        'e'
    } else {
        'f'
    }
}

/// `format!("{:x}", digest)`: two lower-case hexadecimal digits per byte.
pub open spec fn hex_string(bytes: Seq<u8>) -> Seq<char>
    decreases bytes.len(),
{
    if bytes.len() == 0 {
        Seq::empty()
    } else {
        hex_string(bytes.drop_last()) + seq![
            hex_lower((bytes.last() / 16) as int),
            hex_lower((bytes.last() % 16) as int),
        ]
    }
}

fn hex_digit(d: u8) -> (c: char)
    requires
        d < 16,
    ensures
        c == hex_lower(d as int),
{
    if d < 10 {
        crate::text::digit(d as u32)
    } else if d == 10 {
        'a'
    } else if d == 11 {
        'b'
    } else if d == 12 {
        'c'
    } else if d == 13 {
        'd'
    } else if d == 14 {
        'e'
    } else {
        'f'
    }
}

fn hex_chars(bytes: &Vec<u8>) -> (res: Vec<char>)
    ensures
        res@ == hex_string(bytes@),
{
    let mut res: Vec<char> = Vec::new();
    let mut i: usize = 0;
    while i < bytes.len()
        invariant
            i <= bytes.len(),
            res@ == hex_string(bytes@.take(i as int)),
        decreases bytes.len() - i,
    {
        assert(bytes@.take(i + 1).drop_last() == bytes@.take(i as int));
        assert(bytes@.take(i + 1).last() == bytes@[i as int]);
        let b = bytes[i];
        res.push(hex_digit(b / 16));
        res.push(hex_digit(b % 16));
        i = i + 1;
    }
    assert(bytes@.take(i as int) == bytes@);
    res
}

/// The name of the cached cover file for an image address: the MD5 of the address in
/// hexadecimal, then `.jpg`.
pub open spec fn cover_name(url: Seq<char>) -> Seq<char> {
    hex_string(md5_digest(vstd::utf8::encode_utf8(url))) + ".jpg"@
}

/// The name of the cached cover file for an image address.
pub fn cover_file_name(url: &str) -> (res: String)
    ensures
        res@ == cover_name(url@),
{
    let digest = md5_compute(url.as_bytes());
    let mut name = hex_chars(&digest);
    append_chars(&mut name, &chars_of(".jpg"));
    string_of(&name)
}

/// What the image cache does for an address.
#[derive(Debug)]
pub enum CacheAction {
    /// The recorded file is there: use it.
    UseCached(String),
    /// The recorded file is gone: drop the record, then download.
    Refetch,
    /// Nothing recorded: download.
    Fetch,
}

/// Decides from the recorded path (if any) and whether that file exists.
pub fn cache_action(recorded_path: Option<String>, file_exists: bool) -> (res: CacheAction)
    ensures
        match recorded_path {
            Some(p) => if file_exists {
                res matches CacheAction::UseCached(q) && q@ == p@
            } else {
                res is Refetch
            },
            None => res is Fetch,
        },
{
    match recorded_path {
        Some(p) => if file_exists {
            CacheAction::UseCached(p)
        } else {
            CacheAction::Refetch
        },
        None => CacheAction::Fetch,
    }
}

/// The image that `data` encodes, in RGBA: its width, its height and its pixels, four bytes
/// each, row by row; `None` where `data` is not an image the decoder reads.
pub uninterp spec fn rgba8_image(data: Seq<u8>) -> Option<(u32, u32, Seq<u8>)>;

/// `image::load_from_memory(data)` then `to_rgba8()`, `dimensions()` and `into_raw()`. The
/// contract names the decoded image as a function of the bytes, and states the buffer's length:
/// the decoder fills a buffer of exactly `width * height * bytes-per-pixel` bytes and the RGBA
/// conversion allocates `4 * width * height`. What the decoding is, is not restated.
#[verifier::external_body]
fn decode_rgba8(data: &[u8]) -> (res: Option<(u32, u32, Vec<u8>)>)
    ensures
        match res {
            Some((w, h, px)) => rgba8_image(data@) == Some((w, h, px@)) && px@.len() == 4 * w * h,
            None => rgba8_image(data@) is None,
        },
{
    match image::load_from_memory(data) {
        Ok(img) => {
            let rgba = img.to_rgba8();
            let (w, h) = rgba.dimensions();
            Some((w, h, rgba.into_raw()))
        },
        Err(_) => None,
    }
}

/// The pixels of a cover image.
pub struct CoverPixels {
    pub width: u32,
    pub height: u32,
    /// Four bytes (red, green, blue, alpha) per pixel, row by row.
    pub rgba: Vec<u8>,
}

/// The pixels of a cover from the bytes of its file (read from the cache or downloaded): none
/// when there are no bytes or they are not an image.
pub fn cover_pixels(bytes: Option<Vec<u8>>) -> (res: Option<CoverPixels>)
    ensures
        match bytes {
            None => res is None,
            Some(b) => match rgba8_image(b@) {
                None => res is None,
                Some((w, h, px)) => res matches Some(c) && c.width == w && c.height == h
                    && c.rgba@ == px,
            },
        },
        res matches Some(c) ==> c.rgba@.len() == 4 * c.width * c.height,
{
    match bytes {
        None => None,
        Some(b) => match decode_rgba8(b.as_slice()) {
            Some((width, height, rgba)) => Some(CoverPixels { width, height, rgba }),
            None => None,
        },
    }
}

} // verus!
