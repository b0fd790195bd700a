//! The entry projector: how a value appears in the listing of its directory.

use crate::json::{Json, JsonValue};
use vstd::prelude::*;

verus! {

/// An entry of a directory as a mathematical value: a directory with its
/// name, or a file with its name and its length in bytes.
#[verifier::ext_equal]
pub enum Entry {
    Directory { name: Seq<char> },
    File { name: Seq<char>, size: nat },
}

impl Entry {
    pub open spec fn name(self) -> Seq<char> {
        match self {
            Entry::Directory { name } => name,
            Entry::File { name, .. } => name,
        }
    }
}

/// The entry that shows a value under a name. Arrays and objects are shown as
/// directories. Every other value is shown as a file that is as long as its
/// content.
pub open spec fn project(name: Seq<char>, value: Json) -> Entry {
    match value.content() {
        Some(bytes) => Entry::File { name, size: bytes.len() },
        None => Entry::Directory { name },
    }
}

/// An entry keeps the name it was given, is a directory exactly when the value
/// is an array or an object, and as a file reports the length of the value's
/// content.
pub proof fn lemma_project_kind(name: Seq<char>, value: Json)
    ensures
        project(name, value).name() == name,
        project(name, value) is Directory <==> value.is_directory(),
        project(name, value) is File <==> value.content() is Some,
        project(name, value) is File ==> project(name, value)->size
            == value.content().unwrap().len(),
{
}

/// An entry of a directory: a directory with its name, or a file with its
/// name and its length in bytes.
#[derive(Debug, PartialEq, Eq)]
pub enum DirectoryEntry {
    Directory { name: String },
    File { name: String, size: u64 },
}

impl Clone for DirectoryEntry {
    fn clone(&self) -> (copy: Self)
        ensures
            copy == *self,
    {
        match self {
            DirectoryEntry::Directory { name } => DirectoryEntry::Directory { name: name.clone() },
            DirectoryEntry::File { name, size } => DirectoryEntry::File {
                name: name.clone(),
                size: *size,
            },
        }
    }
}

impl View for DirectoryEntry {
    type V = Entry;

    open spec fn view(&self) -> Entry {
        match self {
            DirectoryEntry::Directory { name } => Entry::Directory { name: name@ },
            DirectoryEntry::File { name, size } => Entry::File { name: name@, size: *size as nat },
        }
    }
}

impl DeepView for DirectoryEntry {
    type V = Entry;

    open spec fn deep_view(&self) -> Entry {
        self@
    }
}

impl DirectoryEntry {
    /// The name of the entry.
    pub fn name(&self) -> (name: &str)
        ensures
            name@ == self@.name(),
    {
        match self {
            DirectoryEntry::Directory { name } => name.as_str(),
            DirectoryEntry::File { name, .. } => name.as_str(),
        }
    }

    /// Whether the entry is a directory.
    pub fn is_directory(&self) -> (directory: bool)
        ensures
            directory == (self@ is Directory),
    {
        match self {
            DirectoryEntry::Directory { .. } => true,
            DirectoryEntry::File { .. } => false,
        }
    }
}

impl JsonValue {
    /// The entry that shows this value under a name.
    pub fn project(&self, name: String) -> (entry: DirectoryEntry)
        ensures
            entry@ == project(name@, self@),
    {
        match self.size() {
            Some(size) => DirectoryEntry::File { name, size },
            None => DirectoryEntry::Directory { name },
        }
    }
}

} // verus!
