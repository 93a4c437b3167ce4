//! The content extractor: turns a file's bytes into embeddable text, or
//! into a tagged outcome saying why the content is not embedded (too
//! large, binary, undecodable).

use vstd::prelude::*;
use vstd::string::StringSliceAdditionalSpecFns;
use vstd::utf8::decode_utf8;
use vstd::utf8::valid_utf8;
use crate::rules::RuleSet;

verus! {

/// The outcome of extracting one file's content: its text, or the reason
/// it was skipped.  Never an error.
#[derive(Debug, PartialEq, Eq)]
pub enum ExtractionResult {
    Text(String),
    SkippedTooLarge,
    SkippedBinary,
    SkippedUndecodable,
}

/// Mathematical form of an extraction outcome.
pub enum ExtractionV {
    Text(Seq<char>),
    SkippedTooLarge,
    SkippedBinary,
    SkippedUndecodable,
}

impl View for ExtractionResult {
    type V = ExtractionV;

    open spec fn view(&self) -> ExtractionV {
        match self {
            ExtractionResult::Text(s) => ExtractionV::Text(s@),
            ExtractionResult::SkippedTooLarge => ExtractionV::SkippedTooLarge,
            ExtractionResult::SkippedBinary => ExtractionV::SkippedBinary,
            ExtractionResult::SkippedUndecodable => ExtractionV::SkippedUndecodable,
        }
    }
}

/// What `encoding_rs::SHIFT_JIS.decode` returns for the given bytes: the
/// decoded characters, and whether malformed sequences were met.
pub uninterp spec fn sjis_decode(bytes: Seq<u8>) -> (Seq<char>, bool);

/// Relies on `encoding_rs::SHIFT_JIS.decode`: its result is a pure function
/// of the input bytes (malformed sequences are replaced by the replacement
/// character, and the flag reports whether any were met).
#[verifier::external_body]
fn decode_shift_jis(bytes: &Vec<u8>) -> (r: (String, bool))
    ensures
        (r.0@, r.1) == sjis_decode(bytes@),
{
    let (cow, _, had_errors) = encoding_rs::SHIFT_JIS.decode(bytes.as_slice());
    (cow.into_owned(), had_errors)
}

#[verifier::external_type_specification]
#[verifier::external_body]
pub struct ExUtf8Error(core::str::Utf8Error);

/// Relies on `core::str::from_utf8`: it succeeds exactly on valid UTF-8,
/// and then borrows the same bytes, viewed as their decoded characters.
pub assume_specification<'a>[ core::str::from_utf8 ](v: &'a [u8]) -> (r: Result<
    &'a str,
    core::str::Utf8Error,
>)
    ensures
        r is Ok <==> valid_utf8(v@),
        r is Ok ==> r->Ok_0@ == decode_utf8(v@) && r->Ok_0.spec_bytes() =~= v@,
;

/// The binary heuristic: whether the first kilobyte holds a zero byte.
pub open spec fn spec_is_binary(bytes: Seq<u8>) -> bool {
    exists|i: int| 0 <= i < bytes.len() && i < 1024 && bytes[i] == 0
}

/// Checks the first kilobyte of `data` for a zero byte.
pub fn is_binary(data: &Vec<u8>) -> (r: bool)
    ensures
        r == spec_is_binary(data@),
{
    let mut i: usize = 0;
    while i < data.len() && i < 1024
        invariant
            0 <= i <= data.len(),
            forall|j: int| 0 <= j < i ==> data@[j] != 0,
        decreases data.len() - i,
    {
        if data[i] == 0 {
            return true;
        }
        i += 1;
    }
    false
}

/// The extraction policy: a file over the size limit is skipped unread; a
/// file whose first kilobyte holds a zero byte is binary; otherwise the
/// bytes are decoded as UTF-8, with Shift_JIS as the fallback, and a file
/// that both decoders reject is undecodable.
pub open spec fn spec_extract(bytes: Seq<u8>, max_size: u64) -> ExtractionV {
    if bytes.len() > max_size {
        ExtractionV::SkippedTooLarge
    } else if spec_is_binary(bytes) {
        ExtractionV::SkippedBinary
    } else if valid_utf8(bytes) {
        ExtractionV::Text(decode_utf8(bytes))
    } else if !sjis_decode(bytes).1 {
        ExtractionV::Text(sjis_decode(bytes).0)
    } else {
        ExtractionV::SkippedUndecodable
    }
}

/// Extracts embeddable text from one file's bytes, as [`spec_extract`]
/// describes.  The size limit comes from the rule set.
pub fn extract_contents(data: &Vec<u8>, rules: &RuleSet) -> (r: ExtractionResult)
    ensures
        r@ == spec_extract(data@, rules@.max_file_size_bytes),
{
    if (data.len() as u64) > rules.max_file_size_bytes {
        return ExtractionResult::SkippedTooLarge;
    }
    if is_binary(data) {
        return ExtractionResult::SkippedBinary;
    }
    match core::str::from_utf8(data.as_slice()) {
        Ok(s) => ExtractionResult::Text(s.to_owned()),
        Err(_) => {
            let (text, had_errors) = decode_shift_jis(data);
            if had_errors {
                ExtractionResult::SkippedUndecodable
            } else {
                ExtractionResult::Text(text)
            }
        },
    }
}

/// The text placed in the document for one outcome: the content itself, or
/// the literal placeholder.
pub open spec fn spec_rendered_content(v: ExtractionV) -> Seq<char> {
    match v {
        ExtractionV::Text(s) => s,
        ExtractionV::SkippedTooLarge => "[File size exceeds limit; skipped]\n"@,
        ExtractionV::SkippedBinary => "[Binary file skipped]\n"@,
        ExtractionV::SkippedUndecodable => "[Cannot decode file content]"@,
    }
}

/// The document text for one extraction outcome.
pub fn rendered_content(r: ExtractionResult) -> (t: String)
    ensures
        t@ == spec_rendered_content(r@),
{
    match r {
        ExtractionResult::Text(s) => s,
        ExtractionResult::SkippedTooLarge => String::from_str(
            "[File size exceeds limit; skipped]\n",
        ),
        ExtractionResult::SkippedBinary => String::from_str("[Binary file skipped]\n"),
        ExtractionResult::SkippedUndecodable => String::from_str("[Cannot decode file content]"),
    }
}

/// Law: extraction is deterministic.  The same bytes under the same limit
/// always yield the same outcome, so extracting an unmodified file twice
/// yields the same result.
pub proof fn lemma_extract_deterministic(
    bytes: Seq<u8>,
    max_size: u64,
    r1: ExtractionV,
    r2: ExtractionV,
)
    requires
        r1 == spec_extract(bytes, max_size),
        r2 == spec_extract(bytes, max_size),
    ensures
        r1 == r2,
{
}

/// Law: within the size limit, a zero byte in the first kilobyte always
/// yields the binary outcome, whatever the rest of the bytes hold.  (A
/// file over the limit is skipped for its size first, unread.)
pub proof fn lemma_binary_detected(bytes: Seq<u8>, max_size: u64)
    requires
        bytes.len() <= max_size,
        spec_is_binary(bytes),
    ensures
        spec_extract(bytes, max_size) is SkippedBinary,
{
}

/// Law: a file exactly at the size limit is never skipped for its size --
/// in particular a clean text file at the limit is embedded -- while one
/// byte over the limit always is.
pub proof fn lemma_size_boundary(bytes: Seq<u8>, max_size: u64)
    ensures
        bytes.len() == max_size ==> !(spec_extract(bytes, max_size) is SkippedTooLarge),
        bytes.len() == max_size && !spec_is_binary(bytes) && valid_utf8(bytes) ==> spec_extract(
            bytes,
            max_size,
        ) == ExtractionV::Text(decode_utf8(bytes)),
        bytes.len() == max_size + 1 ==> spec_extract(bytes, max_size) is SkippedTooLarge,
{
}

} // verus!
