use vstd::prelude::*;

use vstd::string::*;

use crate::error::DropmuttError;
use crate::strutil::str_eq;

verus! {

/// The image formats the derivative pipeline accepts.
#[derive(Clone, Copy, Debug, PartialEq, Eq, Structural)]
pub enum ImageFormat {
    Bmp,
    Gif,
    Jpeg,
    Png,
}

/// Format sniffed from a file extension; `None` is an unrecognized format.
pub open spec fn format_of_ext(ext: Seq<char>) -> Option<ImageFormat> {
    if ext == "bmp"@ {
        Option::Some(ImageFormat::Bmp)
    } else if ext == "gif"@ {
        Option::Some(ImageFormat::Gif)
    } else if ext == "jpg"@ || ext == "jpeg"@ || ext == "jpe"@ {
        Option::Some(ImageFormat::Jpeg)
    } else if ext == "png"@ {
        Option::Some(ImageFormat::Png)
    } else {
        Option::None
    }
}

/// Sniff an image format from a file extension; anything but the four
/// supported formats fails with `ImageProcessing`.
pub fn get_format(extension: &str) -> (r: Result<ImageFormat, DropmuttError>)
    ensures
        match r {
            Ok(f) => format_of_ext(extension@) == Option::Some(f),
            Err(e) => e == DropmuttError::ImageProcessing && format_of_ext(extension@) is None,
        },
{
    if str_eq(extension, "bmp") {
        Ok(ImageFormat::Bmp)
    } else if str_eq(extension, "gif") {
        Ok(ImageFormat::Gif)
    } else if str_eq(extension, "jpg") || str_eq(extension, "jpeg") || str_eq(extension, "jpe") {
        Ok(ImageFormat::Jpeg)
    } else if str_eq(extension, "png") {
        Ok(ImageFormat::Png)
    } else {
        Err(DropmuttError::ImageProcessing)
    }
}

/// Index of the last occurrence of `c` in `s`, or `-1` when absent.
pub open spec fn rfind_char(s: Seq<char>, c: char) -> int
    decreases s.len(),
{
    if s.len() == 0 {
        -1
    } else if s[s.len() - 1] == c {
        s.len() - 1
    } else {
        rfind_char(s.subrange(0, s.len() - 1), c)
    }
}

/// The last occurrence is exactly the greatest index holding `c`.
pub proof fn lemma_rfind_char_is(s: Seq<char>, c: char, j: int)
    requires
        -1 <= j < s.len(),
        j >= 0 ==> s[j] == c,
        forall|t: int| j < t < s.len() ==> s[t] != c,
    ensures
        rfind_char(s, c) == j,
    decreases s.len(),
{
    if s.len() != 0 {
        if j == s.len() - 1 {
        } else {
            assert(s[s.len() - 1] != c);
            let s1 = s.subrange(0, s.len() - 1);
            assert forall|t: int| j < t < s1.len() implies s1[t] != c by {
                assert(s1[t] == s[t]);
            }
            lemma_rfind_char_is(s1, c, j);
        }
    }
}

/// The directory, filename stem, and extension of a stored file's path:
/// the base name follows the last `/`, the extension follows the base name's
/// last `.`, and the stem before that dot must be non-empty. `None` is a path
/// the pipeline cannot name derivatives for.
pub open spec fn spec_file_parts(p: Seq<char>) -> Option<(Seq<char>, Seq<char>, Seq<char>)> {
    let bs = rfind_char(p, '/') + 1;
    let base = p.subrange(bs, p.len() as int);
    let d = rfind_char(base, '.');
    if d < 1 {
        Option::None
    } else {
        Option::Some(
            (
                if bs == 0 {
                    Seq::empty()
                } else {
                    p.subrange(0, bs - 1)
                },
                base.subrange(0, d),
                base.subrange(d + 1, base.len() as int),
            ),
        )
    }
}

/// Index just past the last `c` in `s`, or `0` when absent.
pub(crate) fn scan_last_char(s: &str, len: usize, c: char) -> (r: usize)
    requires
        len == s@.len(),
    ensures
        r <= len,
        r >= 1 ==> s@[r - 1] == c,
        forall|t: int| r <= t < len ==> s@[t] != c,
        rfind_char(s@, c) == r - 1,
{
    let mut j: usize = len;
    while j > 0
        invariant
            j <= len,
            len == s@.len(),
            forall|t: int| j <= t < len ==> s@[t] != c,
        decreases j,
    {
        if s.get_char(j - 1) == c {
            proof {
                lemma_rfind_char_is(s@, c, j - 1);
            }
            return j;
        }
        j = j - 1;
    }
    proof {
        lemma_rfind_char_is(s@, c, -1);
    }
    0
}

/// Split a stored file's path into directory, filename stem, and extension,
/// exactly as [`spec_file_parts`] reads it; a path without a usable base name
/// fails with `ImageProcessing`.
pub fn file_parts(path: &str) -> (r: Result<(String, String, String), DropmuttError>)
    ensures
        match r {
            Ok(parts) => spec_file_parts(path@) == Option::Some(
                (parts.0@, parts.1@, parts.2@),
            ),
            Err(e) => e == DropmuttError::ImageProcessing && spec_file_parts(path@) is None,
        },
{
    let len = path.unicode_len();
    let bs = scan_last_char(path, len, '/');
    let ghost base = path@.subrange(bs as int, len as int);
    let de = scan_last_char(path, len, '.');
    proof {
        if de >= 1 && de - 1 >= bs {
            assert forall|t: int| de - bs <= t < base.len() implies base[t] != '.' by {
                assert(base[t] == path@[bs + t]);
            }
            assert(base[de - 1 - bs] == path@[de - 1]);
            lemma_rfind_char_is(base, '.', de - 1 - bs);
        } else {
            assert forall|t: int| 0 <= t < base.len() implies base[t] != '.' by {
                assert(base[t] == path@[bs + t]);
            }
            lemma_rfind_char_is(base, '.', -1);
        }
    }
    if de < 1 || de - 1 <= bs {
        // No dot in the base name, or nothing before it.
        return Err(DropmuttError::ImageProcessing);
    }
    let dir = if bs == 0 {
        String::new()
    } else {
        path.substring_char(0, bs - 1).to_owned()
    };
    let stem = path.substring_char(bs, de - 1).to_owned();
    let ext = path.substring_char(de, len).to_owned();
    proof {
        assert(stem@ =~= base.subrange(0, de - 1 - bs));
        assert(ext@ =~= base.subrange(de - bs, base.len() as int));
        if bs == 0 {
            assert(dir@ =~= Seq::<char>::empty());
        } else {
            assert(dir@ =~= path@.subrange(0, bs - 1));
        }
    }
    Ok((dir, stem, ext))
}

/// The base name stem the derivative filenames are built from, as the
/// original stored file's path shows it.
pub fn get_filename(path: &str) -> (r: Result<String, DropmuttError>)
    ensures
        match r {
            Ok(stem) => spec_file_parts(path@) matches Option::Some(parts) && parts.1 == stem@,
            Err(e) => e == DropmuttError::ImageProcessing && spec_file_parts(path@) is None,
        },
{
    match file_parts(path) {
        Ok((_dir, stem, _ext)) => Ok(stem),
        Err(e) => Err(e),
    }
}

/// A derivative's path: the original's directory, its stem, then `-<width>`
/// and `-thumb.png` for a thumbnail or `-full.png` for the full re-encode,
/// so every derivative is discoverable from the original without an index.
pub open spec fn image_path_spec(
    dir: Seq<char>,
    name: Seq<char>,
    label: Seq<char>,
    full: bool,
) -> Seq<char> {
    let fname = if full {
        name + seq!['-'] + label + ".png"@
    } else {
        name + seq!['-'] + label + "-thumb.png"@
    };
    if dir.len() == 0 {
        fname
    } else {
        dir + seq!['/'] + fname
    }
}

/// Build a derivative's path.
pub fn image_path(filename: &str, width: &str, directory: &str, full: bool) -> (r: String)
    ensures
        r@ == image_path_spec(directory@, filename@, width@, full),
{
    proof {
        reveal_strlit("/");
        reveal_strlit("-");
    }
    let mut out = String::new();
    if directory.unicode_len() > 0 {
        out.append(directory);
        out.append("/");
    }
    out.append(filename);
    out.append("-");
    out.append(width);
    if full {
        out.append(".png");
    } else {
        out.append("-thumb.png");
    }
    proof {
        assert(out@ =~= image_path_spec(directory@, filename@, width@, full));
    }
    out
}

/// One derivative: where it goes, its pixel size, and its encoded bytes.
/// Nothing is written to disk by the pipeline itself.
pub struct ProcessedFile {
    pub path: String,
    pub width: i32,
    pub height: i32,
    pub data: Vec<u8>,
}

/// The derivative set for one image: the downscaled variants in ladder
/// order, the full re-encode last, and the original's pixel size.
pub struct ProcessResponse {
    pub files: Vec<ProcessedFile>,
    pub original_width: i32,
    pub original_height: i32,
}

/// What one thumbnail step yields for the given bytes: the PNG encoding
/// and pixel size of the image decoded as `format` and scaled to fit
/// `width` by a practically unbounded height, or nothing when decoding or
/// re-encoding fails. The whole step is a function of the three arguments
/// alone.
pub uninterp spec fn thumb_png(data: Seq<u8>, format: ImageFormat, width: u32) -> Option<
    (Seq<u8>, int, int),
>;

/// What the full-size re-encode yields for the given bytes: the PNG
/// encoding and the decoded image's own pixel size, or nothing when decoding
/// or re-encoding fails. A function of the two arguments alone.
pub uninterp spec fn full_png(data: Seq<u8>, format: ImageFormat) -> Option<(Seq<u8>, int, int)>;

/// Relies on image's `load_from_memory_with_format`, `DynamicImage::thumbnail`
/// (scale to the largest size that fits within `width` x 10_000_000, aspect
/// ratio preserved, so the result is between one and `width` pixels wide),
/// `width`/`height`, and `write_to` with the PNG format. The chain is
/// deterministic in the bytes, format and bound, and its outcome is named by
/// [`thumb_png`].
#[verifier::external_body]
fn make_thumb(data: &[u8], format: ImageFormat, width: u32) -> (r: Result<
    (Vec<u8>, i32, i32),
    DropmuttError,
>)
    requires
        1 <= width <= 2147483647,
    ensures
        match r {
            Ok(t) => thumb_png(data@, format, width) == Option::Some(
                (t.0@, t.1 as int, t.2 as int),
            ) && 1 <= t.1 as int <= width as int,
            Err(e) => e == DropmuttError::ImageProcessing && thumb_png(data@, format, width)
                is None,
        },
{
    let f = match format {
        ImageFormat::Bmp => image::ImageFormat::Bmp,
        ImageFormat::Gif => image::ImageFormat::Gif,
        ImageFormat::Jpeg => image::ImageFormat::Jpeg,
        ImageFormat::Png => image::ImageFormat::Png,
    };
    let img = image::load_from_memory_with_format(data, f).map_err(|_| DropmuttError::ImageProcessing)?;
    let thumb = img.thumbnail(width, 10000000);
    let mut buf = std::io::Cursor::new(Vec::new());
    thumb.write_to(&mut buf, image::ImageFormat::Png).map_err(|_| DropmuttError::ImageProcessing)?;
    Ok((buf.into_inner(), thumb.width() as i32, thumb.height() as i32))
}

/// Relies on image's `load_from_memory_with_format`, `DynamicImage::width`/
/// `height`, and `write_to` with the PNG format: the full-size re-encode.
/// The chain is deterministic in the bytes and format, and its outcome is
/// named by [`full_png`].
#[verifier::external_body]
fn make_full(data: &[u8], format: ImageFormat) -> (r: Result<(Vec<u8>, i32, i32), DropmuttError>)
    ensures
        match r {
            Ok(t) => full_png(data@, format) == Option::Some((t.0@, t.1 as int, t.2 as int)),
            Err(e) => e == DropmuttError::ImageProcessing && full_png(data@, format) is None,
        },
{
    let f = match format {
        ImageFormat::Bmp => image::ImageFormat::Bmp,
        ImageFormat::Gif => image::ImageFormat::Gif,
        ImageFormat::Jpeg => image::ImageFormat::Jpeg,
        ImageFormat::Png => image::ImageFormat::Png,
    };
    let img = image::load_from_memory_with_format(data, f).map_err(|_| DropmuttError::ImageProcessing)?;
    let mut buf = std::io::Cursor::new(Vec::new());
    img.write_to(&mut buf, image::ImageFormat::Png).map_err(|_| DropmuttError::ImageProcessing)?;
    Ok((buf.into_inner(), img.width() as i32, img.height() as i32))
}

/// One downscaled variant: the named thumbnail outcome for `width`, under
/// the derivative path for `label`; exactly the step's error when the step
/// fails.
fn resize_image(
    data: &[u8],
    format: ImageFormat,
    width: u32,
    label: &str,
    filename: &str,
    directory: &str,
) -> (r: Result<ProcessedFile, DropmuttError>)
    requires
        1 <= width <= 2147483647,
    ensures
        match r {
            Ok(f) => thumb_png(data@, format, width) matches Option::Some(t) && f.path@
                == image_path_spec(directory@, filename@, label@, false) && f.data@ == t.0
                && f.width as int == t.1 && f.height as int == t.2 && 1 <= t.1 <= width as int,
            Err(e) => e == DropmuttError::ImageProcessing && thumb_png(data@, format, width)
                is None,
        },
{
    let t = match make_thumb(data, format, width) {
        Ok(t) => t,
        Err(e) => {
            return Err(e);
        },
    };
    let (data_out, w, h) = t;
    let path = image_path(filename, label, directory, false);
    Ok(ProcessedFile { path, width: w, height: h, data: data_out })
}

/// The derivative files owed for an original of width `w`: one thumbnail
/// per ladder threshold the width strictly exceeds, in ascending threshold
/// order, each carrying its named PNG encoding and pixel size, and the full
/// re-encode last. Meaningful where the named outcomes exist.
pub open spec fn ladder_files(
    dir: Seq<char>,
    stem: Seq<char>,
    data: Seq<u8>,
    f: ImageFormat,
    w: int,
) -> Seq<(Seq<char>, Seq<u8>, int, int)> {
    let t200 = thumb_png(data, f, 200)->Some_0;
    let t400 = thumb_png(data, f, 400)->Some_0;
    let t800 = thumb_png(data, f, 800)->Some_0;
    let t1200 = thumb_png(data, f, 1200)->Some_0;
    let full = full_png(data, f)->Some_0;
    (if w > 200 {
        seq![(image_path_spec(dir, stem, "200"@, false), t200.0, t200.1, t200.2)]
    } else {
        Seq::empty()
    }) + (if w > 400 {
        seq![(image_path_spec(dir, stem, "400"@, false), t400.0, t400.1, t400.2)]
    } else {
        Seq::empty()
    }) + (if w > 800 {
        seq![(image_path_spec(dir, stem, "800"@, false), t800.0, t800.1, t800.2)]
    } else {
        Seq::empty()
    }) + (if w > 1200 {
        seq![(image_path_spec(dir, stem, "1200"@, false), t1200.0, t1200.1, t1200.2)]
    } else {
        Seq::empty()
    }) + seq![(image_path_spec(dir, stem, "full"@, true), full.0, full.1, full.2)]
}

/// The path, encoded bytes and pixel size of each listed derivative.
pub open spec fn files_view(files: Seq<ProcessedFile>) -> Seq<(Seq<char>, Seq<u8>, int, int)> {
    Seq::new(
        files.len(),
        |i: int|
            if 0 <= i < files.len() {
                (files[i].path@, files[i].data@, files[i].width as int, files[i].height as int)
            } else {
                (Seq::empty(), Seq::empty(), 0, 0)
            },
    )
}

/// Run the derivative pipeline on a stored original's bytes.
///
/// The format is sniffed from the path's extension; the image is decoded
/// whole; one thumbnail is produced per ladder threshold the original's
/// width strictly exceeds, in ascending order; and the full-size re-encode
/// always comes last, carrying the original's pixel size. Each derivative
/// holds exactly the named outcome of its step — path, PNG bytes and pixel
/// size — and the call succeeds if and only if the path and format are
/// usable and every owed step's outcome exists. Nothing is written to disk,
/// so a rejected path or format produces no derivative at all; every failure
/// is `ImageProcessing`.
pub fn process_image(data: &[u8], original_path: &str) -> (r: Result<
    ProcessResponse,
    DropmuttError,
>)
    ensures
        match r {
            Ok(resp) => {
                &&& spec_file_parts(original_path@) matches Option::Some(parts) && format_of_ext(
                    parts.2,
                ) matches Option::Some(f) && full_png(data@, f) matches Option::Some(full) && {
                    &&& resp.original_width as int == full.1
                    &&& resp.original_height as int == full.2
                    &&& files_view(resp.files@) == ladder_files(
                        parts.0,
                        parts.1,
                        data@,
                        f,
                        full.1,
                    )
                    &&& full.1 > 200 ==> thumb_png(data@, f, 200) is Some
                    &&& full.1 > 400 ==> thumb_png(data@, f, 400) is Some
                    &&& full.1 > 800 ==> thumb_png(data@, f, 800) is Some
                    &&& full.1 > 1200 ==> thumb_png(data@, f, 1200) is Some
                }
                &&& resp.files@.len() >= 1
            },
            Err(e) => e == DropmuttError::ImageProcessing,
        },
        r is Ok <==> (spec_file_parts(original_path@) matches Option::Some(parts)
            && format_of_ext(parts.2) matches Option::Some(f) && full_png(data@, f) matches
            Option::Some(full) && (full.1 > 200 ==> thumb_png(data@, f, 200) is Some) && (full.1
            > 400 ==> thumb_png(data@, f, 400) is Some) && (full.1 > 800 ==> thumb_png(
            data@,
            f,
            800,
        ) is Some) && (full.1 > 1200 ==> thumb_png(data@, f, 1200) is Some)),
{
    let parts = match file_parts(original_path) {
        Ok(p) => p,
        Err(e) => {
            return Err(e);
        },
    };
    let (dir, stem, ext) = parts;
    let format = match get_format(ext.as_str()) {
        Ok(f) => f,
        Err(e) => {
            return Err(e);
        },
    };
    let full = match make_full(data, format) {
        Ok(t) => t,
        Err(e) => {
            return Err(e);
        },
    };
    let (full_data, w, h) = full;
    let mut files: Vec<ProcessedFile> = Vec::new();
    if w > 200 {
        let f = match resize_image(data, format, 200, "200", stem.as_str(), dir.as_str()) {
            Ok(f) => f,
            Err(e) => {
                return Err(e);
            },
        };
        files.push(f);
    }
    if w > 400 {
        let f = match resize_image(data, format, 400, "400", stem.as_str(), dir.as_str()) {
            Ok(f) => f,
            Err(e) => {
                return Err(e);
            },
        };
        files.push(f);
    }
    if w > 800 {
        let f = match resize_image(data, format, 800, "800", stem.as_str(), dir.as_str()) {
            Ok(f) => f,
            Err(e) => {
                return Err(e);
            },
        };
        files.push(f);
    }
    if w > 1200 {
        let f = match resize_image(data, format, 1200, "1200", stem.as_str(), dir.as_str()) {
            Ok(f) => f,
            Err(e) => {
                return Err(e);
            },
        };
        files.push(f);
    }
    let full_path = image_path(stem.as_str(), "full", dir.as_str(), true);
    files.push(ProcessedFile { path: full_path, width: w, height: h, data: full_data });
    proof {
        assert(files_view(files@) =~= ladder_files(dir@, stem@, data@, format, w as int));
    }
    Ok(ProcessResponse { files, original_width: w, original_height: h })
}

} // verus!
