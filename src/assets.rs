use vstd::prelude::*;
use image::imageops::FilterType;
use image::DynamicImage;
use crate::ingest::InputError;
use crate::model::AssetPaths;
use crate::text::{fold_char, fold_code, has_prefix, push_char, starts_with_text, text_eq, text_view};

verus! {

/// What `Path::extension` yields for a path text (the part of the last
/// component after its last dot), where that part is valid UTF-8.
pub uninterp spec fn path_extension_of(p: Seq<char>) -> Option<Seq<char>>;

/// Whether `image::load_from_memory` decodes these bytes (format guessed
/// from their first bytes) as a raster image.
pub uninterp spec fn decodes_as_raster(bytes: Seq<u8>) -> bool;

/// What `str::trim` leaves of a text.
pub uninterp spec fn trimmed_text(s: Seq<char>) -> Seq<char>;

/// Relies on `std::path::Path::extension` and `OsStr::to_str`: the extension
/// of the path's file name, which depends on the path text alone.
#[verifier::external_body]
fn file_extension(path: &str) -> (r: Option<String>)
    ensures
        match r {
            Some(e) => path_extension_of(path@) == Some(e@),
            None => path_extension_of(path@) is None,
        },
{
    std::path::Path::new(path).extension().and_then(|e| e.to_str()).map(|e| e.to_string())
}

#[verifier::external_type_specification]
#[verifier::external_body]
pub struct ExDynamicImage(DynamicImage);

/// Relies on `image::load_from_memory`: the decoded image, or an error for
/// bytes in no format it can decode; the outcome depends on the bytes alone.
#[verifier::external_body]
fn decode_raster(bytes: &[u8]) -> (r: Option<DynamicImage>)
    ensures
        r is Some == decodes_as_raster(bytes@),
{
    image::load_from_memory(bytes).ok()
}

/// A bounded preview and its size in pixels.
pub struct Preview {
    pub image: DynamicImage,
    pub width: u32,
    pub height: u32,
}

/// Relies on `DynamicImage::resize` with the Lanczos3 filter, which scales
/// the image to the largest size that fits in 300 by 300 (aspect ratio
/// kept), and on `width`/`height` to read that size.
#[verifier::external_body]
fn fit_preview(img: &DynamicImage) -> (r: Preview)
    ensures
        r.width <= 300,
        r.height <= 300,
{
    let image = img.resize(300, 300, FilterType::Lanczos3);
    let (width, height) = (image.width(), image.height());
    Preview { image, width, height }
}

/// Relies on `str::trim`: the text without leading and trailing white space.
#[verifier::external_body]
fn trim_text(s: &str) -> (r: &str)
    ensures
        r@ == trimmed_text(s@),
{
    s.trim()
}

/// A character of a UUID's hyphenated text: a lowercase hex digit or `-`.
pub open spec fn is_uuid_char(c: char) -> bool {
    ('0' <= c && c <= '9') || ('a' <= c && c <= 'f') || c == '-'
}

/// A character of a `%Y-%m` text: an ASCII digit, `-`, or the sign `+` that
/// years past 9999 carry.
pub open spec fn is_month_dir_char(c: char) -> bool {
    ('0' <= c && c <= '9') || c == '-' || c == '+'
}

/// Relies on `uuid::Uuid::new_v4` and its `Display`: a random identifier in
/// the lowercase hyphenated form, 36 characters of hex digits and `-`.
#[verifier::external_body]
fn random_asset_id() -> (r: String)
    ensures
        r@.len() == 36,
        forall|i: int| 0 <= i < 36 ==> is_uuid_char(#[trigger] r@[i]),
{
    uuid::Uuid::new_v4().to_string()
}

/// Relies on `chrono::Local::now` and `format("%Y-%m")`: the current local
/// year and month, as digits with `-` between them (and a sign before a
/// year outside 0..=9999).
#[verifier::external_body]
fn current_month_dir() -> (r: String)
    ensures
        r@.len() > 0,
        forall|i: int| 0 <= i < r@.len() ==> is_month_dir_char(#[trigger] r@[i]),
{
    chrono::Local::now().format("%Y-%m").to_string()
}

/// The text after the last dot, or the whole text where it has no dot.
pub open spec fn after_last_dot(s: Seq<char>) -> Seq<char>
    decreases s.len(),
{
    if s.len() == 0 {
        s
    } else if s.last() == '.' {
        Seq::empty()
    } else {
        after_last_dot(s.drop_last()).push(s.last())
    }
}

pub open spec fn is_mime_stop(c: char) -> bool {
    c == ';' || c == ','
}

/// The suffix a file name gives: the part after its last dot, or nothing
/// for a name without a dot.
pub open spec fn name_suffix(s: Seq<char>) -> Option<Seq<char>> {
    if s.contains('.') {
        Some(after_last_dot(s))
    } else {
        None
    }
}

/// The text up to the first `;` or `,`.
pub open spec fn before_mime_stop(s: Seq<char>) -> Seq<char>
    decreases s.len(),
{
    if s.len() == 0 || is_mime_stop(s[0]) {
        Seq::empty()
    } else {
        seq![s[0]] + before_mime_stop(s.drop_first())
    }
}

/// The MIME type named by a `data:` URL prefix.
pub open spec fn mime_of(url: Seq<char>) -> Option<Seq<char>> {
    if has_prefix(url, "data:"@) {
        Some(before_mime_stop(url.subrange(5, url.len() as int)))
    } else {
        None
    }
}

/// The file extension that stands for an image MIME type; `png` for any
/// other type.
pub open spec fn extension_for_mime(m: Seq<char>) -> Seq<char> {
    if m == "image/jpeg"@ || m == "image/jpg"@ {
        "jpg"@
    } else if m == "image/png"@ {
        "png"@
    } else if m == "image/webp"@ {
        "webp"@
    } else if m == "image/gif"@ {
        "gif"@
    } else if m == "image/bmp"@ {
        "bmp"@
    } else if m == "image/tiff"@ {
        "tiff"@
    } else if m == "image/svg+xml"@ {
        "svg"@
    } else {
        "png"@
    }
}

/// The extension an ingested image is stored under: the file name's suffix
/// after its last dot, else the path's extension, else the data URL's MIME
/// type, else `png`; missing or empty candidates are passed over.
pub open spec fn chosen_extension(
    filename: Option<Seq<char>>,
    path_ext: Option<Seq<char>>,
    url: Option<Seq<char>>,
) -> Seq<char> {
    if filename is Some && name_suffix(filename->0) is Some && name_suffix(filename->0)->0.len() > 0 {
        name_suffix(filename->0)->0
    } else if path_ext is Some && path_ext->0.len() > 0 {
        path_ext->0
    } else if url is Some && mime_of(url->0) is Some {
        extension_for_mime(mime_of(url->0)->0)
    } else {
        "png"@
    }
}

proof fn lemma_after_last_dot(s: Seq<char>, k: int)
    requires
        0 <= k <= s.len(),
        k == 0 || s[k - 1] == '.',
        forall|j: int| k <= j < s.len() ==> s[j] != '.',
    ensures
        after_last_dot(s) == s.subrange(k, s.len() as int),
    decreases s.len(),
{
    if s.len() == k {
        if k == 0 {
            assert(s =~= s.subrange(0, 0));
        } else {
            assert(s.subrange(k, k) =~= Seq::<char>::empty());
        }
    } else {
        lemma_after_last_dot(s.drop_last(), k);
        assert(s.drop_last().subrange(k, s.len() - 1).push(s.last()) =~= s.subrange(k, s.len() as int));
    }
}

proof fn lemma_before_mime_stop(s: Seq<char>, k: int)
    requires
        0 <= k <= s.len(),
        forall|j: int| 0 <= j < k ==> !is_mime_stop(s[j]),
        k == s.len() || is_mime_stop(s[k]),
    ensures
        before_mime_stop(s) == s.subrange(0, k),
    decreases k,
{
    if k == 0 {
        assert(s.subrange(0, 0) =~= Seq::<char>::empty());
    } else {
        lemma_before_mime_stop(s.drop_first(), k - 1);
        assert(seq![s[0]] + s.drop_first().subrange(0, k - 1) =~= s.subrange(0, k));
    }
}

/// The suffix after the last dot of a file name; `None` where it has no dot.
pub fn last_dot_part(name: &str) -> (r: Option<String>)
    ensures
        match r {
            Some(t) => name_suffix(name@) == Some(t@),
            None => name_suffix(name@) is None,
        },
{
    let n = name.unicode_len();
    let mut k: usize = n;
    while k > 0 && name.get_char(k - 1) != '.'
        invariant
            n == name@.len(),
            k <= n,
            forall|j: int| k <= j < n ==> name@[j] != '.',
        decreases k,
    {
        k = k - 1;
    }
    if k == 0 {
        assert(!name@.contains('.'));
        return None;
    }
    proof {
        lemma_after_last_dot(name@, k as int);
        assert(name@[k - 1] == '.');
    }
    Some(String::from_str(name.substring_char(k, n)))
}

/// The MIME type of a `data:` URL, up to the first `;` or `,`.
pub fn data_url_mime(url: &str) -> (r: Option<String>)
    ensures
        match r {
            Some(m) => mime_of(url@) == Some(m@),
            None => mime_of(url@) is None,
        },
{
    if !starts_with_text(url, "data:") {
        proof {
            reveal_strlit("data:");
        }
        return None;
    }
    proof {
        reveal_strlit("data:");
    }
    let n = url.unicode_len();
    let mut k: usize = 5;
    while k < n && url.get_char(k) != ';' && url.get_char(k) != ','
        invariant
            n == url@.len(),
            5 <= k <= n,
            forall|j: int| 5 <= j < k ==> !is_mime_stop(url@[j]),
        decreases n - k,
    {
        k = k + 1;
    }
    proof {
        let rest = url@.subrange(5, n as int);
        lemma_before_mime_stop(rest, k - 5);
        assert(rest.subrange(0, k - 5) =~= url@.subrange(5, k as int));
    }
    Some(String::from_str(url.substring_char(5, k)))
}

pub fn extension_for_mime_type(m: &str) -> (r: String)
    ensures
        r@ == extension_for_mime(m@),
{
    if text_eq(m, "image/jpeg") || text_eq(m, "image/jpg") {
        String::from_str("jpg")
    } else if text_eq(m, "image/png") {
        String::from_str("png")
    } else if text_eq(m, "image/webp") {
        String::from_str("webp")
    } else if text_eq(m, "image/gif") {
        String::from_str("gif")
    } else if text_eq(m, "image/bmp") {
        String::from_str("bmp")
    } else if text_eq(m, "image/tiff") {
        String::from_str("tiff")
    } else if text_eq(m, "image/svg+xml") {
        String::from_str("svg")
    } else {
        String::from_str("png")
    }
}

/// The stored extension, from the file name, the extension already taken
/// from the path, and the data URL (see `chosen_extension`).
pub fn choose_extension(filename: Option<&str>, path_ext: Option<&str>, data_url: Option<&str>) -> (r: String)
    ensures
        r@ == chosen_extension(text_view(filename), text_view(path_ext), text_view(data_url)),
{
    if let Some(name) = filename {
        if let Some(ext) = last_dot_part(name) {
            if ext.unicode_len() > 0 {
                return ext;
            }
        }
    }
    if let Some(ext) = path_ext {
        if ext.unicode_len() > 0 {
            return String::from_str(ext);
        }
    }
    if let Some(url) = data_url {
        if let Some(m) = data_url_mime(url) {
            return extension_for_mime_type(m.as_str());
        }
    }
    String::from_str("png")
}

/// The extension an ingested image is stored under.
pub fn resolve_image_extension(filename: Option<&str>, image_path: Option<&str>, image_base64: Option<&str>) -> (r: String)
    ensures
        r@ == chosen_extension(
            text_view(filename),
            match image_path {
                Some(p) => path_extension_of(p@),
                None => None,
            },
            text_view(image_base64),
        ),
{
    let path_ext = match image_path {
        Some(p) => file_extension(p),
        None => None,
    };
    match &path_ext {
        Some(e) => choose_extension(filename, Some(e.as_str()), image_base64),
        None => choose_extension(filename, None, image_base64),
    }
}


/// `/` turned into `\`.
pub open spec fn backslashed(s: Seq<char>) -> Seq<char> {
    s.map_values(|c: char| if c == '/' { '\\' } else { c })
}

/// The file-system path behind a `file://` URL: the scheme dropped, then one
/// leading `/`, with `/` turned into `\`; `None` for a text without the
/// scheme.
pub open spec fn file_url_path(p: Seq<char>) -> Option<Seq<char>> {
    if has_prefix(p, "file://"@) {
        let rest = p.subrange(7, p.len() as int);
        let rest = if rest.len() > 0 && rest[0] == '/' {
            rest.drop_first()
        } else {
            rest
        };
        Some(backslashed(rest))
    } else {
        None
    }
}

/// The path behind a `file://` URL, for an already trimmed text.
pub fn normalize_trimmed_path(p: &str) -> (r: Option<String>)
    ensures
        match r {
            Some(t) => file_url_path(p@) == Some(t@),
            None => file_url_path(p@) is None,
        },
{
    proof {
        reveal_strlit("file://");
    }
    if !starts_with_text(p, "file://") {
        return None;
    }
    let n = p.unicode_len();
    let mut start: usize = 7;
    if n > 7 && p.get_char(7) == '/' {
        start = 8;
    }
    let ghost rest = if n > 7 && p@[7] == '/' {
        p@.subrange(8, n as int)
    } else {
        p@.subrange(7, n as int)
    };
    proof {
        assert(rest =~= p@.subrange(start as int, n as int));
        let r7 = p@.subrange(7, n as int);
        if n > 7 && p@[7] == '/' {
            assert(r7.drop_first() =~= rest);
        }
    }
    let mut out = String::new();
    let mut i: usize = start;
    while i < n
        invariant
            n == p@.len(),
            start <= i <= n,
            rest == p@.subrange(start as int, n as int),
            out@ == backslashed(rest.subrange(0, i - start)),
        decreases n - i,
    {
        let c = p.get_char(i);
        if c == '/' {
            push_char(&mut out, '\\');
        } else {
            push_char(&mut out, c);
        }
        proof {
            assert(backslashed(rest.subrange(0, i + 1 - start)) =~= backslashed(rest.subrange(0, i - start)).push(
                if c == '/' { '\\' } else { c },
            ));
        }
        i = i + 1;
    }
    proof {
        assert(rest.subrange(0, n - start) =~= rest);
    }
    Some(out)
}

/// The path behind a `file://` URL, after trimming white space; `None` for a
/// text that is not such a URL.
pub fn normalize_fs_path(path: &str) -> (r: Option<String>)
    ensures
        match r {
            Some(t) => file_url_path(trimmed_text(path@)) == Some(t@),
            None => file_url_path(trimmed_text(path@)) is None,
        },
{
    normalize_trimmed_path(trim_text(path))
}

pub open spec fn is_separator(c: char) -> bool {
    c == '/' || c == '\\'
}

/// A path that starts at a root (`/`, `\`) or names a drive (`C:`).
pub open spec fn is_absolute_path(p: Seq<char>) -> bool {
    (p.len() > 0 && is_separator(p[0])) || (p.len() >= 2 && p[1] == ':')
}

/// A `..` component starts at `k`.
pub open spec fn parent_at(p: Seq<char>, k: int) -> bool {
    &&& 0 <= k
    &&& k + 2 <= p.len()
    &&& p[k] == '.'
    &&& p[k + 1] == '.'
    &&& (k == 0 || is_separator(p[k - 1]))
    &&& (k + 2 == p.len() || is_separator(p[k + 2]))
}

pub open spec fn has_parent_segment(p: Seq<char>) -> bool {
    exists|k: int| #[trigger] parent_at(p, k)
}

/// A path that stays under the asset root: relative, with no `..` component.
pub open spec fn is_safe_relative_path(p: Seq<char>) -> bool {
    !is_absolute_path(p) && !has_parent_segment(p)
}

/// Accepts a path to read under the asset root; refuses an absolute one and
/// one with a `..` component, before any file is touched.
pub fn check_relative_path(path: &str) -> (r: Result<(), InputError>)
    ensures
        r is Ok <==> is_safe_relative_path(path@),
        r matches Err(e) ==> e == InputError::InvalidPath,
{
    let n = path.unicode_len();
    if n > 0 {
        let c = path.get_char(0);
        if c == '/' || c == '\\' {
            return Err(InputError::InvalidPath);
        }
    }
    if n >= 2 && path.get_char(1) == ':' {
        return Err(InputError::InvalidPath);
    }
    let mut k: usize = 0;
    while n >= 2 && k <= n - 2
        invariant
            n == path@.len(),
            k <= n,
            forall|j: int| 0 <= j < k ==> !#[trigger] parent_at(path@, j),
        decreases n - k,
    {
        let at_start = k == 0 || {
            let b = path.get_char(k - 1);
            b == '/' || b == '\\'
        };
        let at_end = k + 2 == n || {
            let a = path.get_char(k + 2);
            a == '/' || a == '\\'
        };
        if at_start && at_end && path.get_char(k) == '.' && path.get_char(k + 1) == '.' {
            assert(parent_at(path@, k as int));
            return Err(InputError::InvalidPath);
        }
        k = k + 1;
    }
    assert forall|j: int| !#[trigger] parent_at(path@, j) by {
        if 0 <= j && j < k {
        }
    }
    Ok(())
}

/// An SVG extension, in any letter case.
pub open spec fn is_svg_extension(e: Seq<char>) -> bool {
    &&& e.len() == 3
    &&& fold_code(e[0]) == 115
    &&& fold_code(e[1]) == 118
    &&& fold_code(e[2]) == 103
}

/// Where an image goes: `images/<month>/<id>.<ext>`.
pub open spec fn image_rel_path(id: Seq<char>, month_dir: Seq<char>, ext: Seq<char>) -> Seq<char> {
    "images/"@ + month_dir + "/"@ + id + "."@ + ext
}

/// The preview's file name: `<id>_thumb.<ext>`.
pub open spec fn thumbnail_name(id: Seq<char>, ext: Seq<char>) -> Seq<char> {
    id + "_thumb."@ + ext
}

/// Where a raster preview goes: `thumbnails/<id>_thumb.<ext>`.
pub open spec fn thumbnail_rel_path(id: Seq<char>, ext: Seq<char>) -> Seq<char> {
    "thumbnails/"@ + thumbnail_name(id, ext)
}

/// Whether a raster preview is attempted: not for vector images, which are
/// their own preview.
pub fn wants_raster_thumbnail(ext: &str) -> (r: bool)
    ensures
        r == !is_svg_extension(ext@),
{
    if ext.unicode_len() != 3 {
        return true;
    }
    !(fold_char(ext.get_char(0)) == 115 && fold_char(ext.get_char(1)) == 118 && fold_char(ext.get_char(2)) == 103)
}

pub fn thumbnail_file_name(id: &str, ext: &str) -> (r: String)
    ensures
        r@ == thumbnail_name(id@, ext@),
{
    String::from_str(id).concat("_thumb.").concat(ext)
}

/// The paths recorded for an ingested image. The preview is the raster
/// thumbnail where one was written, and the stored image itself for a vector
/// image or one that could not be decoded.
pub fn asset_paths(id: &str, month_dir: &str, ext: &str, thumbnail_written: bool) -> (r: AssetPaths)
    ensures
        r.image_path@ == image_rel_path(id@, month_dir@, ext@),
        r.thumbnail_path@ == if !is_svg_extension(ext@) && thumbnail_written {
            thumbnail_rel_path(id@, ext@)
        } else {
            image_rel_path(id@, month_dir@, ext@)
        },
{
    let image_path = String::from_str("images/").concat(month_dir).concat("/").concat(id).concat(".").concat(ext);
    let thumbnail_path = if wants_raster_thumbnail(ext) && thumbnail_written {
        let name = thumbnail_file_name(id, ext);
        String::from_str("thumbnails/").concat(name.as_str())
    } else {
        image_path.clone()
    };
    AssetPaths { image_path, thumbnail_path }
}

/// The bounded preview of an ingested image: none for a vector image, which
/// is its own preview, nor for bytes that do not decode as a raster image.
pub fn render_preview(ext: &str, bytes: &[u8]) -> (r: Option<Preview>)
    ensures
        r is Some == (!is_svg_extension(ext@) && decodes_as_raster(bytes@)),
        r matches Some(p) ==> p.width <= 300 && p.height <= 300,
{
    if !wants_raster_thumbnail(ext) {
        return None;
    }
    match decode_raster(bytes) {
        Some(img) => Some(fit_preview(&img)),
        None => None,
    }
}

/// A fresh name for an ingested image: a random id and the current month's
/// directory (`YYYY-MM`).
pub struct AssetName {
    pub id: String,
    pub month_dir: String,
}

/// Draws a fresh asset name: a random UUID text and the current `%Y-%m`.
pub fn fresh_asset_name() -> (r: AssetName)
    ensures
        r.id@.len() == 36,
        forall|i: int| 0 <= i < 36 ==> is_uuid_char(#[trigger] r.id@[i]),
        r.month_dir@.len() > 0,
        forall|i: int| 0 <= i < r.month_dir@.len() ==> is_month_dir_char(#[trigger] r.month_dir@[i]),
{
    AssetName { id: random_asset_id(), month_dir: current_month_dir() }
}

} // verus!
