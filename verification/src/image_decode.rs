//! Decoding uploaded image files into RGBA pixels, and the sizes the atlas
//! packer takes of them.
use vstd::prelude::*;

verus! {

/// A decoded image: its size and its pixels, four bytes (RGBA) each, row
/// after row.
pub struct DecodedImage {
    pub width: u32,
    pub height: u32,
    pub rgba: Vec<u8>,
}

/// What the `image` crate decodes the file bytes to (the format guessed
/// from the bytes), converted to RGBA: width, height and pixels; `None`
/// when the bytes do not decode.
pub uninterp spec fn decoded_image(bytes: Seq<u8>) -> Option<(u32, u32, Seq<u8>)>;

/// `image::load_from_memory`, then `DynamicImage::to_rgba8`,
/// `ImageBuffer::dimensions` and `ImageBuffer::into_raw`; a decoding error
/// gives `None`. The contract names the result, a function of the bytes.
#[verifier::external_body]
fn decode_with_image_crate(bytes: &[u8]) -> (r: Option<DecodedImage>)
    ensures
        match decoded_image(bytes@) {
            None => r is None,
            Some((w, h, px)) => r matches Some(d) && d.width == w && d.height == h && d.rgba@ == px,
        },
{
    let img = image::load_from_memory(bytes).ok()?.to_rgba8();
    let (width, height) = img.dimensions();
    Some(DecodedImage { width, height, rgba: img.into_raw() })
}

/// Decodes an uploaded image held in memory, its format guessed from the
/// bytes (see `decoded_image`).
pub fn decode_image(bytes: &[u8]) -> (r: Option<DecodedImage>)
    ensures
        match decoded_image(bytes@) {
            None => r is None,
            Some((w, h, px)) => r matches Some(d) && d.width == w && d.height == h && d.rgba@ == px,
        },
{
    decode_with_image_crate(bytes)
}

/// What the `image` crate decodes an image file's bytes to, with the
/// decoder picked by the file's extension (any letter case), converted to
/// RGBA: width, height and pixels; `None` when the extension names no
/// format or the bytes do not decode in it.
pub uninterp spec fn decoded_image_file(bytes: Seq<u8>, extension: Seq<char>) -> Option<(u32, u32, Seq<u8>)>;

/// `image::ImageFormat::from_extension`, then
/// `image::load_from_memory_with_format` and the RGBA conversion as in
/// `decode_with_image_crate`; an unknown extension or a decoding error
/// gives `None`. The contract names the result, a function of the bytes
/// and the extension.
#[verifier::external_body]
fn decode_file_with_image_crate(bytes: &[u8], extension: &str) -> (r: Option<DecodedImage>)
    ensures
        match decoded_image_file(bytes@, extension@) {
            None => r is None,
            Some((w, h, px)) => r matches Some(d) && d.width == w && d.height == h && d.rgba@ == px,
        },
{
    let format = image::ImageFormat::from_extension(extension)?;
    let img = image::load_from_memory_with_format(bytes, format).ok()?.to_rgba8();
    let (width, height) = img.dimensions();
    Some(DecodedImage { width, height, rgba: img.into_raw() })
}

/// An image file read from disk: its bytes and its name's extension.
pub struct ImageFile {
    pub bytes: Vec<u8>,
    pub extension: String,
}

/// Decodes one image file, with the decoder its extension names (see
/// `decoded_image_file`).
pub fn decode_image_file(file: &ImageFile) -> (r: Option<DecodedImage>)
    ensures
        match decoded_image_file(file.bytes@, file.extension@) {
            None => r is None,
            Some((w, h, px)) => r matches Some(d) && d.width == w && d.height == h && d.rgba@ == px,
        },
{
    decode_file_with_image_crate(file.bytes.as_slice(), file.extension.as_str())
}

/// The decodings of the files that decode, in order; the others are left
/// out.
pub open spec fn decoded_files(files: Seq<(Seq<u8>, Seq<char>)>) -> Seq<(u32, u32, Seq<u8>)>
    decreases files.len(),
{
    if files.len() == 0 {
        Seq::empty()
    } else {
        let rest = decoded_files(files.drop_last());
        match decoded_image_file(files.last().0, files.last().1) {
            Some(d) => rest.push(d),
            None => rest,
        }
    }
}

/// The images as plain values: width, height and pixels.
pub open spec fn images_view(images: Seq<DecodedImage>) -> Seq<(u32, u32, Seq<u8>)> {
    images.map_values(|d: DecodedImage| (d.width, d.height, d.rgba@))
}

/// The files' bytes and extensions.
pub open spec fn files_view(files: Seq<ImageFile>) -> Seq<(Seq<u8>, Seq<char>)> {
    files.map_values(|f: ImageFile| (f.bytes@, f.extension@))
}

/// Decodes the image files, each with the decoder its extension names,
/// skipping those that do not decode; the images keep the files' order.
pub fn decode_images(files: &[ImageFile]) -> (r: Vec<DecodedImage>)
    ensures
        images_view(r@) == decoded_files(files_view(files@)),
{
    let mut images: Vec<DecodedImage> = Vec::new();
    let mut i: usize = 0;
    while i < files.len()
        invariant
            i <= files.len(),
            images_view(images@) == decoded_files(files_view(files@).take(i as int)),
        decreases files.len() - i,
    {
        let ghost before = images@;
        let decoded = decode_image_file(&files[i]);
        proof {
            let taken = files_view(files@).take(i + 1);
            assert(taken.drop_last() =~= files_view(files@).take(i as int));
            assert(taken.last() == (files@[i as int].bytes@, files@[i as int].extension@));
        }
        match decoded {
            Some(d) => {
                images.push(d);
                assert(images_view(images@) =~= images_view(before).push(images_view(images@).last()));
            },
            None => {},
        }
        i = i + 1;
    }
    assert(files_view(files@).take(i as int) =~= files_view(files@));
    images
}

/// The sizes the atlas packer is given for the images, in order.
pub fn image_dimensions(images: &[DecodedImage]) -> (r: Vec<(i32, i32)>)
    ensures
        r@.len() == images@.len(),
        forall|i: int| 0 <= i < images@.len() ==> #[trigger] r@[i] == (images@[i].width as i32, images@[i].height as i32),
{
    let mut dims: Vec<(i32, i32)> = Vec::new();
    let mut i: usize = 0;
    while i < images.len()
        invariant
            i <= images.len(),
            dims@.len() == i,
            forall|k: int| 0 <= k < i ==> #[trigger] dims@[k] == (images@[k].width as i32, images@[k].height as i32),
        decreases images.len() - i,
    {
        dims.push((images[i].width as i32, images[i].height as i32));
        i = i + 1;
    }
    dims
}

} // verus!
