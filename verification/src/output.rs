//! What programs are started with and what they print.

use vstd::prelude::*;

verus! {

/// The error with which `String::from_utf8` refuses bytes.
#[verifier::external_type_specification]
#[verifier::external_body]
pub struct ExFromUtf8Error(std::string::FromUtf8Error);

/// What `String::from_utf8_lossy` makes of bytes.
pub uninterp spec fn lossy_text(bytes: Seq<u8>) -> Seq<char>;

/// The text that the error of `String::from_utf8` displays as.
pub uninterp spec fn utf8_error_text(error: std::string::FromUtf8Error) -> Seq<char>;

/// The text of the error with which `String::from_utf8` refuses bytes.
pub uninterp spec fn utf8_fault(bytes: Seq<u8>) -> Seq<char>;

/// `String::from_utf8`. The contract claims that exactly valid UTF-8 is taken,
/// and that the text is the one that the bytes encode. It names the text of the
/// error, which tells of these bytes alone where they go wrong.
#[verifier::external_body]
pub(crate) fn decode(bytes: Vec<u8>) -> (result: Result<String, std::string::FromUtf8Error>)
    ensures
        match result {
            Ok(text) => vstd::utf8::valid_utf8(bytes@) && text@ == vstd::utf8::decode_utf8(bytes@),
            Err(error) => !vstd::utf8::valid_utf8(bytes@) && utf8_error_text(error) == utf8_fault(
                bytes@,
            ),
        },
{
    String::from_utf8(bytes)
}

/// `to_string` of the error of `String::from_utf8`. The contract names the text.
#[verifier::external_body]
pub(crate) fn describe(error: &std::string::FromUtf8Error) -> (text: String)
    ensures
        text@ == utf8_error_text(*error),
{
    error.to_string()
}

/// `String::from_utf8_lossy`. The contract names the text, and claims that of
/// valid UTF-8 it is the one that the bytes encode. How invalid bytes are
/// replaced is left unsaid.
#[verifier::external_body]
pub(crate) fn decode_lossy(bytes: &Vec<u8>) -> (text: String)
    ensures
        text@ == lossy_text(bytes@),
        vstd::utf8::valid_utf8(bytes@) ==> text@ == vstd::utf8::decode_utf8(bytes@),
{
    String::from_utf8_lossy(bytes).into_owned()
}

/// The texts in a list of strings.
pub open spec fn texts(list: Seq<String>) -> Seq<Seq<char>> {
    list.map_values(|s: String| s@)
}

/// The texts in a list of string slices.
pub open spec fn slice_texts(list: Seq<&str>) -> Seq<Seq<char>> {
    list.map_values(|s: &str| s@)
}

/// Copies texts into a list of strings.
pub(crate) fn owned(list: Vec<&str>) -> (copies: Vec<String>)
    ensures
        texts(copies@) == slice_texts(list@),
{
    let mut copies: Vec<String> = Vec::new();
    let mut i: usize = 0;
    while i < list.len()
        invariant
            i <= list@.len(),
            copies@.len() == i,
            forall|j: int| 0 <= j < i ==> (#[trigger] copies@[j])@ == list@[j]@,
        decreases list@.len() - i,
    {
        copies.push(list[i].to_owned());
        i += 1;
    }
    assert(texts(copies@) =~= slice_texts(list@));
    copies
}

/// The texts of a list are those of its strings, in their order.
pub proof fn law_texts(list: Seq<String>, slices: Seq<&str>)
    ensures
        texts(list).len() == list.len(),
        forall|i: int| 0 <= i < list.len() ==> texts(list)[i] == (#[trigger] list[i])@,
        slice_texts(slices).len() == slices.len(),
        forall|i: int| 0 <= i < slices.len() ==> slice_texts(slices)[i] == (#[trigger] slices[i])@,
{
}

} // verus!
