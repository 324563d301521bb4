use vstd::prelude::*;
use base64::engine::general_purpose::STANDARD;
use base64::Engine;

verus! {

/// What `serde_json::to_string` makes of a list of strings: the JSON array
/// text, or `None` where it reports an error.
pub uninterp spec fn json_list_text(items: Seq<Seq<char>>) -> Option<Seq<char>>;

/// What base64's standard engine (RFC 4648 alphabet, with padding) decodes
/// from a text: the bytes, or `None` where the text is not valid.
pub uninterp spec fn base64_decoded(text: Seq<u8>) -> Option<Seq<u8>>;

/// What base64's standard engine encodes from bytes.
pub uninterp spec fn base64_text(bytes: Seq<u8>) -> Seq<char>;

pub open spec fn texts_of(v: Seq<String>) -> Seq<Seq<char>> {
    v.map_values(|s: String| s@)
}

pub open spec fn bytes_of(o: Option<Vec<u8>>) -> Option<Seq<u8>> {
    match o {
        Some(v) => Some(v@),
        None => None,
    }
}

/// The stored text form of a tag list: its JSON array, an absent list
/// counting as empty, and `[]` should serialization fail.
pub open spec fn tags_text(tags: Option<Vec<String>>) -> Seq<char> {
    let items = match tags {
        Some(v) => texts_of(v@),
        None => Seq::empty(),
    };
    match json_list_text(items) {
        Some(t) => t,
        None => "[]"@,
    }
}

/// Relies on `serde_json::to_string` for a `Vec<String>`: the JSON text of
/// the list, which depends on the strings alone.
#[verifier::external_body]
fn json_string_list(items: &Vec<String>) -> (r: Option<String>)
    ensures
        match r {
            Some(t) => json_list_text(texts_of(items@)) == Some(t@),
            None => json_list_text(texts_of(items@)) is None,
        },
{
    serde_json::to_string(items).ok()
}

/// Relies on `base64::engine::general_purpose::STANDARD.decode`: the decoded
/// bytes, or an error for text that is not valid base64.
#[verifier::external_body]
pub(crate) fn decode_base64(text: &[u8]) -> (r: Option<Vec<u8>>)
    ensures
        bytes_of(r) == base64_decoded(text@),
{
    STANDARD.decode(text).ok()
}

/// Relies on `base64::engine::general_purpose::STANDARD.encode`: the padded
/// base64 text of the bytes.
#[verifier::external_body]
fn encode_base64(bytes: &[u8]) -> (r: String)
    ensures
        r@ == base64_text(bytes@),
{
    STANDARD.encode(bytes)
}

/// The stored text form of a tag list.
pub fn serialize_tags(tags: &Option<Vec<String>>) -> (r: String)
    ensures
        r@ == tags_text(*tags),
{
    let json = match tags {
        Some(v) => json_string_list(v),
        None => {
            let empty: Vec<String> = Vec::new();
            proof {
                assert(texts_of(empty@) =~= Seq::<Seq<char>>::empty());
            }
            json_string_list(&empty)
        },
    };
    tags_or_empty_list(json)
}

/// The text of a serialized tag list, or `[]` where serialization failed.
pub fn tags_or_empty_list(json: Option<String>) -> (r: String)
    ensures
        r@ == match json {
            Some(t) => t@,
            None => "[]"@,
        },
{
    match json {
        Some(t) => t,
        None => String::from_str("[]"),
    }
}

/// The padded base64 text of a file's bytes, as handed out for display.
pub fn encode_image_bytes(bytes: &[u8]) -> (r: String)
    ensures
        r@ == base64_text(bytes@),
{
    encode_base64(bytes)
}

} // verus!
