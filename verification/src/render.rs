//! The content renderer: the bytes of the file that shows a scalar value.

use crate::json::{Json, JsonValue};
use vstd::prelude::*;
use vstd::string::{StrSliceExecFns, StringSliceAdditionalSpecFns};
use vstd::utf8::{encode_utf8, is_ascii_chars, is_ascii_chars_encode_utf8};

verus! {

impl Json {
    /// The text of the file that shows a value. `null` is shown as an empty
    /// file, a boolean as `true` or `false`, a number as its decimal text and
    /// a string as its characters, without quotes or escapes. Arrays and
    /// objects are directories and have no text.
    pub open spec fn text(self) -> Option<Seq<char>> {
        match self {
            Json::Null => Some(Seq::empty()),
            Json::Bool(b) => Some(
                if b {
                    seq!['t', 'r', 'u', 'e']
                } else {
                    seq!['f', 'a', 'l', 's', 'e']
                },
            ),
            Json::Number(text) => Some(text),
            Json::String(text) => Some(text),
            Json::Array(_) => None,
            Json::Object(_) => None,
        }
    }

    /// The bytes of the file that shows a value: its text in UTF-8.
    pub open spec fn content(self) -> Option<Seq<u8>> {
        match self.text() {
            Some(text) => Some(encode_utf8(text)),
            None => None,
        }
    }
}

/// A value has content exactly when it is not a directory.
pub proof fn lemma_content_of_files(value: Json)
    ensures
        value.content() is Some <==> !value.is_directory(),
{
}

/// The files of `null`, `true` and `false` hold no byte, the four bytes of
/// "true" and the five bytes of "false".
pub proof fn lemma_content_of_constants()
    ensures
        Json::Null.content() == Some(Seq::<u8>::empty()),
        Json::Bool(true).content() == Some(seq![0x74u8, 0x72u8, 0x75u8, 0x65u8]),
        Json::Bool(false).content() == Some(seq![0x66u8, 0x61u8, 0x6cu8, 0x73u8, 0x65u8]),
{
    let yes = seq!['t', 'r', 'u', 'e'];
    let no = seq!['f', 'a', 'l', 's', 'e'];
    is_ascii_chars_encode_utf8(yes);
    is_ascii_chars_encode_utf8(no);
    assert(encode_utf8(Seq::<char>::empty()) =~= Seq::<u8>::empty());
    assert(encode_utf8(yes) =~= seq![0x74u8, 0x72u8, 0x75u8, 0x65u8]) by {
        assert(yes[0] as u8 == 0x74u8 && yes[1] as u8 == 0x72u8 && yes[2] as u8 == 0x75u8
            && yes[3] as u8 == 0x65u8);
    }
    assert(encode_utf8(no) =~= seq![0x66u8, 0x61u8, 0x6cu8, 0x73u8, 0x65u8]) by {
        assert(no[0] as u8 == 0x66u8 && no[1] as u8 == 0x61u8 && no[2] as u8 == 0x6cu8
            && no[3] as u8 == 0x73u8 && no[4] as u8 == 0x65u8);
    }
}

/// A number or a string whose text is ASCII is shown byte for byte: the file
/// is as long as the text, and each byte is the code of its character.
pub proof fn lemma_content_of_ascii(value: Json)
    requires
        value is Number || value is String,
        is_ascii_chars(value.text().unwrap()),
    ensures
        value.content().unwrap().len() == value.text().unwrap().len(),
        forall|i: int|
            0 <= i < value.text().unwrap().len() ==> #[trigger] value.content().unwrap()[i]
                == value.text().unwrap()[i] as u8,
{
    is_ascii_chars_encode_utf8(value.text().unwrap());
}

impl JsonValue {
    /// The text of the file that shows this value, if it is shown as a file.
    pub fn text(&self) -> (text: Option<&str>)
        ensures
            match text {
                Some(text) => self@.text() == Some(text@),
                None => self@.text() is None,
            },
    {
        proof {
            reveal_strlit("");
            reveal_strlit("true");
            reveal_strlit("false");
        }
        match self {
            JsonValue::Null => {
                let text = "";
                assert(text@ =~= Seq::<char>::empty());
                Some(text)
            },
            JsonValue::Bool(b) => {
                if *b {
                    let text = "true";
                    assert(text@ =~= seq!['t', 'r', 'u', 'e']);
                    Some(text)
                } else {
                    let text = "false";
                    assert(text@ =~= seq!['f', 'a', 'l', 's', 'e']);
                    Some(text)
                }
            },
            JsonValue::Number(text) => Some(text.as_str()),
            JsonValue::String(text) => Some(text.as_str()),
            JsonValue::Array(_) => None,
            JsonValue::Object(_) => None,
        }
    }

    /// The bytes of the file that shows this value, if it is shown as a file.
    pub fn render(&self) -> (content: Option<Vec<u8>>)
        ensures
            match content {
                Some(bytes) => self@.content() == Some(bytes@),
                None => self@.content() is None,
            },
    {
        match self.text() {
            Some(text) => Some(text.as_bytes_vec()),
            None => None,
        }
    }

    /// The length in bytes of the file that shows this value, if it is shown
    /// as a file.
    pub fn size(&self) -> (size: Option<u64>)
        ensures
            match size {
                Some(size) => self@.content() is Some && size == self@.content().unwrap().len(),
                None => self@.content() is None,
            },
    {
        match self.text() {
            Some(text) => Some(text.as_bytes().len() as u64),
            None => None,
        }
    }
}

} // verus!
