use vstd::prelude::*;
use vstd::string::StringSliceAdditionalSpecFns;
use crate::codec::{base64_decoded, bytes_of, decode_base64};
use crate::text::{has_infix, text_view};

verus! {

/// Value of an ASCII hexadecimal digit, of either case.
pub open spec fn hex_value(b: u8) -> Option<u8> {
    if 0x30 <= b && b <= 0x39 {
        Some((b - 0x30) as u8)
    } else if 0x61 <= b && b <= 0x66 {
        Some((b - 0x61 + 10) as u8)
    } else if 0x41 <= b && b <= 0x46 {
        Some((b - 0x41 + 10) as u8)
    } else {
        None
    }
}

/// Percent-decoding of a data-URL payload: `%XX` with two hex digits becomes
/// that byte, `+` becomes a space, and every other byte (a `%` without two
/// digits after it included) stays as it is.
pub open spec fn percent_decoded(s: Seq<u8>) -> Seq<u8>
    decreases s.len(),
{
    if s.len() == 0 {
        Seq::empty()
    } else if s[0] == 0x25 && s.len() >= 3 && hex_value(s[1]) is Some && hex_value(
        s[2],
    ) is Some {
        seq![(hex_value(s[1])->0 * 16 + hex_value(s[2])->0) as u8] + percent_decoded(
            s.subrange(3, s.len() as int),
        )
    } else if s[0] == 0x2B {
        seq![0x20u8] + percent_decoded(s.subrange(1, s.len() as int))
    } else {
        seq![s[0]] + percent_decoded(s.subrange(1, s.len() as int))
    }
}

pub fn from_hex(b: u8) -> (r: Option<u8>)
    ensures
        r == hex_value(b),
        r matches Some(v) ==> v < 16,
{
    if 0x30 <= b && b <= 0x39 {
        Some(b - 0x30)
    } else if 0x61 <= b && b <= 0x66 {
        Some(b - 0x61 + 10)
    } else if 0x41 <= b && b <= 0x46 {
        Some(b - 0x41 + 10)
    } else {
        None
    }
}

pub fn percent_decode(input: &[u8]) -> (out: Vec<u8>)
    ensures
        out@ == percent_decoded(input@),
{
    let mut out: Vec<u8> = Vec::new();
    let mut i: usize = 0;
    let n = input.len();
    proof {
        assert(input@.subrange(0, n as int) =~= input@);
        assert(out@ + percent_decoded(input@) =~= percent_decoded(input@));
    }
    while i < n
        invariant
            n == input@.len(),
            i <= n,
            percent_decoded(input@) == out@ + percent_decoded(input@.subrange(i as int, n as int)),
        decreases n - i,
    {
        let ghost rest = input@.subrange(i as int, n as int);
        let b = input[i];
        if b == 0x25 && n - i > 2 {
            let h1 = from_hex(input[i + 1]);
            let h2 = from_hex(input[i + 2]);
            if let (Some(hi), Some(lo)) = (h1, h2) {
                let v: u8 = hi * 16 + lo;
                proof {
                    assert(rest.subrange(3, rest.len() as int) =~= input@.subrange(i + 3, n as int));
                    assert(out@.push(v) + percent_decoded(input@.subrange(i + 3, n as int))
                        =~= out@ + percent_decoded(rest));
                }
                out.push(v);
                i = i + 3;
                continue;
            }
        }
        proof {
            assert(rest.subrange(1, rest.len() as int) =~= input@.subrange(i + 1, n as int));
        }
        if b == 0x2B {
            proof {
                assert(out@.push(0x20u8) + percent_decoded(input@.subrange(i + 1, n as int))
                    =~= out@ + percent_decoded(rest));
            }
            out.push(0x20);
        } else {
            proof {
                assert(out@.push(b) + percent_decoded(input@.subrange(i + 1, n as int))
                    =~= out@ + percent_decoded(rest));
            }
            out.push(b);
        }
        i = i + 1;
    }
    proof {
        assert(input@.subrange(n as int, n as int) =~= Seq::<u8>::empty());
        assert(out@ + Seq::<u8>::empty() =~= out@);
    }
    out
}


/// Why an image input or an asset path was refused.
#[derive(Debug, Clone, Copy, PartialEq, Eq, Structural)]
pub enum InputError {
    /// An image was expected but no source yielded any bytes.
    NoImageData,
    /// The path is absolute or climbs out of the asset root.
    InvalidPath,
}

impl InputError {
    pub fn message(&self) -> (r: String)
        ensures
            r@ == match self {
                InputError::NoImageData => "no image data was received; select the file again and retry"@,
                InputError::InvalidPath => "invalid path"@,
            },
    {
        match self {
            InputError::NoImageData => String::from_str(
                "no image data was received; select the file again and retry",
            ),
            InputError::InvalidPath => String::from_str("invalid path"),
        }
    }
}

pub open spec fn first_index(s: Seq<u8>, b: u8) -> int {
    choose|k: int| 0 <= k < s.len() && s[k] == b && forall|j: int| 0 <= j < k ==> s[j] != b
}

pub open spec fn has_byte(s: Seq<u8>, b: u8) -> bool {
    exists|k: int| 0 <= k < s.len() && s[k] == b
}

/// The bytes of `;base64`.
pub open spec fn base64_marker() -> Seq<u8> {
    seq![0x3Bu8, 0x62u8, 0x61u8, 0x73u8, 0x65u8, 0x36u8, 0x34u8]
}

/// The image bytes a data-URL text yields: after the first comma, base64 if
/// the part before it carries `;base64`, else percent-encoded bytes (nothing
/// if they decode to nothing); with no comma, the whole text as base64.
pub open spec fn data_url_bytes(url: Seq<u8>) -> Option<Seq<u8>> {
    if has_byte(url, 0x2C) {
        let k = first_index(url, 0x2C);
        let meta = url.subrange(0, k);
        let data = url.subrange(k + 1, url.len() as int);
        if has_infix(meta, base64_marker()) {
            nonempty_bytes(base64_decoded(data))
        } else if percent_decoded(data).len() > 0 {
            Some(percent_decoded(data))
        } else {
            None
        }
    } else {
        nonempty_bytes(base64_decoded(url))
    }
}

/// Bytes that hold at least one byte; an empty result counts as nothing
/// found.
pub open spec fn nonempty_bytes(o: Option<Seq<u8>>) -> Option<Seq<u8>> {
    match o {
        Some(d) => if d.len() > 0 {
            o
        } else {
            None
        },
        None => None,
    }
}

/// Whether a source yielded at least one byte.
pub open spec fn found_bytes(o: Option<Vec<u8>>) -> bool {
    o matches Some(d) && d@.len() > 0
}

/// The image bytes from the sources that need no file access: raw bytes
/// first, then a data URL; a source that yields no byte is passed over.
pub open spec fn inline_image(image_data: Option<Seq<u8>>, url: Option<Seq<u8>>) -> Option<Seq<u8>> {
    if nonempty_bytes(image_data) is Some {
        image_data
    } else {
        match url {
            Some(u) => data_url_bytes(u),
            None => None,
        }
    }
}

pub open spec fn text_bytes(o: Option<&str>) -> Option<Seq<u8>> {
    match o {
        Some(s) => Some(s.spec_bytes()),
        None => None,
    }
}

fn contains_bytes(hay: &[u8], needle: &[u8]) -> (r: bool)
    ensures
        r == has_infix(hay@, needle@),
{
    let n = hay.len();
    let m = needle.len();
    if m > n {
        return false;
    }
    if m == 0 {
        assert(hay@.subrange(0, 0 + needle@.len() as int) =~= needle@);
        return true;
    }
    let mut k: usize = 0;
    while k <= n - m
        invariant
            n == hay@.len(),
            m == needle@.len(),
            0 < m <= n,
            k <= n - m + 1,
            forall|k2: int| 0 <= k2 < k ==> #[trigger] hay@.subrange(k2, k2 + m) != needle@,
        decreases n - m + 1 - k,
    {
        let mut j: usize = 0;
        let mut same = true;
        while j < m
            invariant
                n == hay@.len(),
                m == needle@.len(),
                k + m <= n,
                j <= m,
                same ==> forall|j2: int| 0 <= j2 < j ==> hay@[k + j2] == needle@[j2],
                !same ==> hay@.subrange(k as int, k + m) != needle@,
            decreases m - j,
        {
            if same && hay[k + j] != needle[j] {
                same = false;
                assert(hay@.subrange(k as int, k + m)[j as int] != needle@[j as int]);
            }
            j = j + 1;
        }
        if same {
            assert(hay@.subrange(k as int, k + m) =~= needle@);
            return true;
        }
        k = k + 1;
    }
    false
}

fn keep_nonempty(o: Option<Vec<u8>>) -> (r: Option<Vec<u8>>)
    ensures
        bytes_of(r) == nonempty_bytes(bytes_of(o)),
{
    match o {
        Some(d) => if d.len() > 0 {
            Some(d)
        } else {
            None
        },
        None => None,
    }
}

fn slice_to_vec(s: &[u8], from: usize, to: usize) -> (r: Vec<u8>)
    requires
        from <= to <= s@.len(),
    ensures
        r@ == s@.subrange(from as int, to as int),
{
    let mut out: Vec<u8> = Vec::new();
    let mut i: usize = from;
    while i < to
        invariant
            from <= i <= to,
            to <= s@.len(),
            out@ == s@.subrange(from as int, i as int),
        decreases to - i,
    {
        out.push(s[i]);
        proof {
            assert(out@ =~= s@.subrange(from as int, i + 1));
        }
        i = i + 1;
    }
    out
}

/// The image bytes of a data-URL text (see `data_url_bytes`).
pub fn decode_data_url(url: &[u8]) -> (r: Option<Vec<u8>>)
    ensures
        bytes_of(r) == data_url_bytes(url@),
{
    let n = url.len();
    let mut k: usize = 0;
    while k < n && url[k] != 0x2C
        invariant
            n == url@.len(),
            k <= n,
            forall|j: int| 0 <= j < k ==> url@[j] != 0x2C,
        decreases n - k,
    {
        k = k + 1;
    }
    if k == n {
        assert(!has_byte(url@, 0x2C));
        return keep_nonempty(decode_base64(url));
    }
    proof {
        assert(has_byte(url@, 0x2C));
        let f = first_index(url@, 0x2C);
        assert(0 <= f < n && url@[f] == 0x2C);
        if f < k {
        } else if f > k {
            assert(url@[k as int] == 0x2C);
        }
    }
    let meta = slice_to_vec(url, 0, k);
    let data = slice_to_vec(url, k + 1, n);
    let marker: Vec<u8> = vec![0x3B, 0x62, 0x61, 0x73, 0x65, 0x36, 0x34];
    assert(marker@ =~= base64_marker());
    if contains_bytes(meta.as_slice(), marker.as_slice()) {
        keep_nonempty(decode_base64(data.as_slice()))
    } else {
        let decoded = percent_decode(data.as_slice());
        if decoded.len() > 0 {
            Some(decoded)
        } else {
            None
        }
    }
}

/// The image bytes from the inputs that need no file access, in order of
/// preference: raw bytes, then a data-URL text.
pub fn resolve_image_data(image_data: Option<Vec<u8>>, image_base64: Option<&str>) -> (r: Option<Vec<u8>>)
    ensures
        bytes_of(r) == inline_image(bytes_of(image_data), text_bytes(image_base64)),
{
    let given = keep_nonempty(image_data);
    if given.is_some() {
        return given;
    }
    match image_base64 {
        Some(url) => decode_data_url(url.as_bytes()),
        None => None,
    }
}

/// Whether the caller signalled that an image comes with the prompt: by the
/// flag, or by handing any source at all, even an empty one.
pub open spec fn expects_image(
    has_image: Option<bool>,
    image_data: Option<Seq<u8>>,
    image_path: Option<Seq<char>>,
    image_base64: Option<Seq<char>>,
) -> bool {
    ||| has_image == Some(true)
    ||| image_data is Some
    ||| image_path is Some
    ||| image_base64 is Some
}

pub fn image_expected(
    has_image: Option<bool>,
    image_data: &Option<Vec<u8>>,
    image_path: Option<&str>,
    image_base64: Option<&str>,
) -> (r: bool)
    ensures
        r == expects_image(has_image, bytes_of(*image_data), text_view(image_path), text_view(image_base64)),
{
    let flag = match has_image {
        Some(b) => b,
        None => false,
    };
    flag || image_data.is_some() || image_path.is_some() || image_base64.is_some()
}

/// Settles the outcome of input resolution: bytes found are used; none
/// found (no source, or only empty ones) where an image was expected is an
/// error; otherwise the prompt has no image.
pub fn require_image(expected: bool, data: Option<Vec<u8>>) -> (r: Result<Option<Vec<u8>>, InputError>)
    ensures
        match r {
            Ok(Some(d)) => data == Some(d) && d@.len() > 0,
            Ok(None) => !found_bytes(data) && !expected,
            Err(e) => e == InputError::NoImageData && !found_bytes(data) && expected,
        },
{
    let found = match &data {
        Some(d) => d.len() > 0,
        None => false,
    };
    if found {
        return Ok(data);
    }
    if expected {
        Err(InputError::NoImageData)
    } else {
        Ok(None)
    }
}

} // verus!
