//! The provider: the two operations that a file-system layer calls on a
//! document, listing a directory and reading a range of a file.

use crate::decimal::{decimal, index_name, lemma_decimal_names_index};
use crate::entry::{project, DirectoryEntry, Entry};
use crate::json::{distinct_keys, Json, JsonValue, Member};
use crate::path::{segments, VirtualPath};
use crate::resolve::{lemma_member_at, lemma_resolve_composes, member};
use vstd::prelude::*;
use vstd::slice::{slice_subrange, slice_to_vec};

verus! {

/// The immediate children of a value, each with the name it is listed under.
/// The items of an array are named by their positions in decimal, from zero
/// upwards; the members of an object are named by their keys, in the order of
/// the document. Other values have no children.
pub open spec fn children(value: Json) -> Seq<Member> {
    match value {
        Json::Array(items) => Seq::new(
            items.len(),
            |i: int| Member { key: decimal(i as nat), value: items[i] },
        ),
        Json::Object(members) => members,
        _ => Seq::empty(),
    }
}

/// The listing of the directory at a path: one entry for each immediate child
/// of the value that the path addresses, in the order of the children. A path
/// that addresses nothing, or a value that is not a directory, has an empty
/// listing.
pub open spec fn list_directory(root: Json, path: Seq<Seq<char>>) -> Seq<Entry> {
    match root.resolve(path) {
        Some(value) => children(value).map_values(
            |child: Member| project(child.key, child.value),
        ),
        None => Seq::empty(),
    }
}

/// Why a file could not be read.
#[derive(Clone, Copy, Debug, PartialEq, Eq, Structural)]
pub enum ReadError {
    /// The path addresses nothing.
    NotFound,
    /// The path addresses a directory.
    InvalidArgument,
    /// The range reaches past the end of the file.
    OutOfRange,
}

impl ReadError {
    /// A short text that says what went wrong.
    pub fn message(&self) -> (text: &'static str)
        ensures
            text@ == match self {
                ReadError::NotFound => "not found"@,
                ReadError::InvalidArgument => "invalid input"@,
                ReadError::OutOfRange => "invalid read operation"@,
            },
    {
        match self {
            ReadError::NotFound => "not found",
            ReadError::InvalidArgument => "invalid input",
            ReadError::OutOfRange => "invalid read operation",
        }
    }
}

/// The bytes of the file at a path from `offset` up to `offset + length`. The
/// range is given in full or not at all.
pub open spec fn read_file(root: Json, path: Seq<Seq<char>>, offset: nat, length: nat) -> Result<
    Seq<u8>,
    ReadError,
> {
    match root.resolve(path) {
        None => Err(ReadError::NotFound),
        Some(value) => match value.content() {
            None => Err(ReadError::InvalidArgument),
            Some(bytes) => if offset + length > bytes.len() {
                Err(ReadError::OutOfRange)
            } else {
                Ok(bytes.subrange(offset as int, (offset + length) as int))
            },
        },
    }
}

/// Reading a file from its start over its whole length gives its content, and
/// one byte more is out of range.
pub proof fn lemma_read_whole_file(root: Json, path: Seq<Seq<char>>)
    requires
        root.resolve(path) is Some,
        root.resolve(path).unwrap().content() is Some,
    ensures
        ({
            let content = root.resolve(path).unwrap().content().unwrap();
            &&& read_file(root, path, 0, content.len()) == Ok::<Seq<u8>, ReadError>(content)
            &&& read_file(root, path, 0, content.len() + 1) == Err::<Seq<u8>, ReadError>(
                ReadError::OutOfRange,
            )
        }),
{
    let content = root.resolve(path).unwrap().content().unwrap();
    assert(content.subrange(0, content.len() as int) =~= content);
}

/// A range that lies within a file is read in full: the bytes that come are
/// as many as were asked for, and are those of the content from `offset` on. A
/// range that reaches past the end of the file is refused, and nothing is
/// read.
pub proof fn lemma_read_range(root: Json, path: Seq<Seq<char>>, offset: nat, length: nat)
    requires
        root.resolve(path) is Some,
        root.resolve(path).unwrap().content() is Some,
    ensures
        ({
            let content = root.resolve(path).unwrap().content().unwrap();
            let outcome = read_file(root, path, offset, length);
            &&& offset + length <= content.len() ==> {
                &&& outcome is Ok
                &&& outcome->Ok_0.len() == length
                &&& forall|i: int|
                    0 <= i < length ==> #[trigger] outcome->Ok_0[i] == content[offset + i]
            }
            &&& offset + length > content.len() ==> outcome == Err::<Seq<u8>, ReadError>(
                ReadError::OutOfRange,
            )
        }),
{
}

/// A directory cannot be read as a file, whatever the range.
pub proof fn lemma_read_directory(root: Json, path: Seq<Seq<char>>, offset: nat, length: nat)
    requires
        root.resolve(path) is Some,
        root.resolve(path).unwrap().is_directory(),
    ensures
        read_file(root, path, offset, length) == Err::<Seq<u8>, ReadError>(
            ReadError::InvalidArgument,
        ),
{
}

/// A path that addresses nothing cannot be read, whatever the range.
pub proof fn lemma_read_missing(root: Json, path: Seq<Seq<char>>, offset: nat, length: nat)
    requires
        root.resolve(path) is None,
    ensures
        read_file(root, path, offset, length) == Err::<Seq<u8>, ReadError>(ReadError::NotFound),
{
}

/// The listing of an array has one entry for each item, in order, named by the
/// decimal position of the item.
pub proof fn lemma_list_array(root: Json, path: Seq<Seq<char>>)
    requires
        root.resolve(path) is Some,
        root.resolve(path).unwrap() is Array,
    ensures
        ({
            let items = root.resolve(path).unwrap()->Array_0;
            let listing = list_directory(root, path);
            &&& listing.len() == items.len()
            &&& forall|i: int|
                0 <= i < items.len() ==> #[trigger] listing[i] == project(
                    decimal(i as nat),
                    items[i],
                )
            &&& forall|i: int|
                0 <= i < items.len() ==> (#[trigger] listing[i]).name() == decimal(i as nat)
        }),
{
}

/// The listing of an object has one entry for each member, in the order of
/// the document, named by the key of the member.
pub proof fn lemma_list_object(root: Json, path: Seq<Seq<char>>)
    requires
        root.resolve(path) is Some,
        root.resolve(path).unwrap() is Object,
    ensures
        ({
            let members = root.resolve(path).unwrap()->Object_0;
            let listing = list_directory(root, path);
            &&& listing.len() == members.len()
            &&& forall|i: int|
                0 <= i < members.len() ==> #[trigger] listing[i] == project(
                    members[i].key,
                    members[i].value,
                )
            &&& forall|i: int|
                0 <= i < members.len() ==> (#[trigger] listing[i]).name() == members[i].key
        }),
{
}

/// What is not a directory has an empty listing: a path that addresses
/// nothing, and a path that addresses a file.
pub proof fn lemma_list_nothing(root: Json, path: Seq<Seq<char>>)
    requires
        root.resolve(path) is None || !root.resolve(path).unwrap().is_directory(),
    ensures
        list_directory(root, path) == Seq::<Entry>::empty(),
{
}

/// A value that a path addresses in a well-formed document is well-formed.
pub proof fn lemma_resolve_well_formed(root: Json, path: Seq<Seq<char>>)
    requires
        root.well_formed(),
        root.resolve(path) is Some,
    ensures
        root.resolve(path).unwrap().well_formed(),
    decreases path.len(),
{
    if path.len() > 0 {
        let next = root.child(path.first()).unwrap();
        match root {
            Json::Object(members) => {
                lemma_member_found(members, path.first());
            },
            _ => {},
        }
        lemma_resolve_well_formed(next, path.drop_first());
    }
}

/// What a key finds among the members is the value of one of them.
proof fn lemma_member_found(members: Seq<Member>, key: Seq<char>)
    requires
        member(members, key) is Some,
    ensures
        exists|i: int|
            0 <= i < members.len() && (#[trigger] members[i]).value == member(
                members,
                key,
            ).unwrap(),
    decreases members.len(),
{
    if members.first().key == key {
        assert(members[0].value == member(members, key).unwrap());
    } else {
        let rest = members.drop_first();
        lemma_member_found(rest, key);
        let i = choose|i: int|
            0 <= i < rest.len() && (#[trigger] rest[i]).value == member(rest, key).unwrap();
        assert(members[i + 1] == rest[i]);
    }
}

/// In a well-formed document every entry of a listing can be found again by
/// its name: the path of the directory with the name added addresses the
/// child that the entry shows.
pub proof fn lemma_listed_entries_resolve(root: Json, path: Seq<Seq<char>>, i: int)
    requires
        root.well_formed(),
        0 <= i < list_directory(root, path).len(),
    ensures
        ({
            let child = children(root.resolve(path).unwrap())[i];
            &&& list_directory(root, path)[i] == project(child.key, child.value)
            &&& root.resolve(path.push(child.key)) == Some(child.value)
        }),
{
    let directory = root.resolve(path).unwrap();
    let child = children(directory)[i];
    lemma_resolve_well_formed(root, path);
    lemma_resolve_composes(root, path, seq![child.key]);
    assert(path + seq![child.key] =~= path.push(child.key));
    assert(seq![child.key].first() == child.key);
    assert(seq![child.key].drop_first() =~= Seq::<Seq<char>>::empty());
    match directory {
        Json::Array(items) => {
            lemma_decimal_names_index(i as nat);
        },
        Json::Object(members) => {
            assert(distinct_keys(members));
            lemma_member_at(members, i);
        },
        _ => {},
    }
    assert(directory.child(child.key) == Some(child.value));
    assert(child.value.resolve(seq![child.key].drop_first()) == Some(child.value));
}

/// A document with the two operations a file-system layer calls on it.
pub struct JsonProvider {
    pub val: JsonValue,
}

impl View for JsonProvider {
    type V = Json;

    open spec fn view(&self) -> Json {
        self.val@
    }
}

impl JsonProvider {
    /// A provider for a document.
    pub fn new(val: JsonValue) -> (provider: JsonProvider)
        ensures
            provider.val == val,
            provider@ == val@,
    {
        JsonProvider { val }
    }

    /// The value that a path addresses in a document. The empty path addresses
    /// the whole document; any other path is split at its separators, and each
    /// segment names a child of the value found so far.
    pub fn get_value_from_path<'a>(value: &'a JsonValue, path: &str) -> (found: Option<
        &'a JsonValue,
    >)
        ensures
            match found {
                Some(found) => value@.resolve(segments(path@)) == Some(found@),
                None => value@.resolve(segments(path@)) is None,
            },
    {
        let path = VirtualPath::parse(path);
        value.resolve(&path)
    }

    /// The entry that shows a value under a name.
    pub fn value_to_entry(&self, key: String, val: &JsonValue) -> (entry: Option<DirectoryEntry>)
        ensures
            entry matches Some(shown) && shown@ == project(key@, val@),
    {
        Some(val.project(key))
    }

    /// The listing of the directory at a path: one entry for each immediate
    /// child, in the order of the document. The listing is empty when the path
    /// addresses nothing or addresses a file.
    pub fn list_directory(&self, path: &str) -> (entries: Vec<DirectoryEntry>)
        ensures
            entries.deep_view() == list_directory(self@, segments(path@)),
    {
        let mut entries: Vec<DirectoryEntry> = Vec::new();
        let ghost listing = list_directory(self@, segments(path@));
        match JsonProvider::get_value_from_path(&self.val, path) {
            None => {},
            Some(JsonValue::Array(items)) => {
                let mut i: usize = 0;
                while i < items.len()
                    invariant
                        i <= items.len(),
                        listing.len() == items.len(),
                        forall|j: int|
                            0 <= j < items.len() ==> #[trigger] listing[j] == project(
                                decimal(j as nat),
                                items[j]@,
                            ),
                        entries.len() == i,
                        forall|j: int| 0 <= j < i ==> (#[trigger] entries[j])@ == listing[j],
                    decreases items.len() - i,
                {
                    if let Some(entry) = self.value_to_entry(index_name(i), &items[i]) {
                        entries.push(entry);
                    }
                    i += 1;
                }
            },
            Some(JsonValue::Object(members)) => {
                let mut i: usize = 0;
                while i < members.len()
                    invariant
                        i <= members.len(),
                        listing.len() == members.len(),
                        forall|j: int|
                            0 <= j < members.len() ==> #[trigger] listing[j] == project(
                                members[j].0@,
                                members[j].1@,
                            ),
                        entries.len() == i,
                        forall|j: int| 0 <= j < i ==> (#[trigger] entries[j])@ == listing[j],
                    decreases members.len() - i,
                {
                    if let Some(entry) = self.value_to_entry(members[i].0.clone(), &members[i].1) {
                        entries.push(entry);
                    }
                    i += 1;
                }
            },
            Some(_) => {},
        }
        assert(entries.deep_view() =~= listing);
        entries
    }

    /// The bytes of the file at a path from `byte_offset` up to
    /// `byte_offset + length`. The read fails with `NotFound` when the path
    /// addresses nothing, with `InvalidArgument` when it addresses a directory,
    /// and with `OutOfRange` when the range reaches past the end of the file.
    pub fn stream_file_content(&self, path: &str, byte_offset: u64, length: u64) -> (content:
        Result<Vec<u8>, ReadError>)
        ensures
            match content {
                Ok(bytes) => read_file(
                    self@,
                    segments(path@),
                    byte_offset as nat,
                    length as nat,
                ) == Ok::<Seq<u8>, ReadError>(bytes@),
                Err(error) => read_file(
                    self@,
                    segments(path@),
                    byte_offset as nat,
                    length as nat,
                ) == Err::<Seq<u8>, ReadError>(error),
            },
    {
        let value = match JsonProvider::get_value_from_path(&self.val, path) {
            Some(value) => value,
            None => {
                return Err(ReadError::NotFound);
            },
        };
        let text = match value.text() {
            Some(text) => text,
            None => {
                return Err(ReadError::InvalidArgument);
            },
        };
        let bytes = text.as_bytes();
        let len = bytes.len() as u64;
        if byte_offset > len || length > len - byte_offset {
            return Err(ReadError::OutOfRange);
        }
        let from = byte_offset as usize;
        let to = (byte_offset + length) as usize;
        Ok(slice_to_vec(slice_subrange(bytes, from, to)))
    }
}

} // verus!
