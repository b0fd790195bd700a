//! The path resolver: from a document and a virtual path to the value that
//! the path addresses.

use crate::decimal::{decimal_index, parse_index};
use crate::json::{Json, Member, JsonValue};
use crate::path::{
    is_separator, lemma_segments_of_joined, same_text, segments, VirtualPath,
};
use vstd::prelude::*;

verus! {

/// The value of the first member that has the given key.
pub open spec fn member(members: Seq<Member>, key: Seq<char>) -> Option<Json>
    decreases members.len(),
{
    if members.len() == 0 {
        None
    } else if members.first().key == key {
        Some(members.first().value)
    } else {
        member(members.drop_first(), key)
    }
}

impl Json {
    /// The child that a segment names. In an object it is the member whose key
    /// is the segment; in an array it is the item at the position whose decimal
    /// name is the segment. Other values have no children.
    pub open spec fn child(self, segment: Seq<char>) -> Option<Json> {
        match self {
            Json::Object(members) => member(members, segment),
            Json::Array(items) => match decimal_index(segment) {
                Some(i) => if i < items.len() {
                    Some(items[i as int])
                } else {
                    None
                },
                None => None,
            },
            _ => None,
        }
    }

    /// The value that a path addresses, seen from this value. The empty path
    /// addresses the value itself; a segment that names no child ends the
    /// search with nothing found.
    pub open spec fn resolve(self, path: Seq<Seq<char>>) -> Option<Json>
        decreases path.len(),
    {
        if path.len() == 0 {
            Some(self)
        } else {
            match self.child(path.first()) {
                Some(next) => next.resolve(path.drop_first()),
                None => None,
            }
        }
    }
}

/// A key that stands at a position, with no earlier member of that key, finds
/// the member at that position.
pub proof fn lemma_member_at(members: Seq<Member>, i: int)
    requires
        0 <= i < members.len(),
        forall|j: int| 0 <= j < i ==> (#[trigger] members[j]).key != members[i].key,
    ensures
        member(members, members[i].key) == Some(members[i].value),
    decreases i,
{
    if i > 0 {
        let rest = members.drop_first();
        assert(rest[i - 1] == members[i]);
        assert forall|j: int| 0 <= j < i - 1 implies (#[trigger] rest[j]).key != rest[i
            - 1].key by {
            assert(rest[j] == members[j + 1]);
        }
        lemma_member_at(rest, i - 1);
    }
}

/// A key that no member has finds nothing.
pub proof fn lemma_member_absent(members: Seq<Member>, key: Seq<char>)
    requires
        forall|j: int| 0 <= j < members.len() ==> (#[trigger] members[j]).key != key,
    ensures
        member(members, key) is None,
    decreases members.len(),
{
    if members.len() > 0 {
        let rest = members.drop_first();
        assert(members.first() == members[0]);
        assert forall|j: int| 0 <= j < rest.len() implies (#[trigger] rest[j]).key != key by {
            assert(rest[j] == members[j + 1]);
        }
        lemma_member_absent(rest, key);
    }
}

/// The empty path addresses the whole document.
pub proof fn lemma_root_resolves(root: Json)
    ensures
        root.resolve(Seq::empty()) == Some(root),
        root.resolve(segments(Seq::empty())) == Some(root),
{
}

/// Resolution composes: a path made of two paths addresses what the second
/// addresses from the value that the first addresses.
pub proof fn lemma_resolve_composes(root: Json, first: Seq<Seq<char>>, second: Seq<Seq<char>>)
    ensures
        root.resolve(first + second) == match root.resolve(first) {
            Some(middle) => middle.resolve(second),
            None => None,
        },
    decreases first.len(),
{
    if first.len() == 0 {
        assert(first + second =~= second);
    } else {
        let whole = first + second;
        assert(whole.first() == first.first());
        assert(whole.drop_first() =~= first.drop_first() + second);
        match root.child(first.first()) {
            Some(next) => {
                lemma_resolve_composes(next, first.drop_first(), second);
            },
            None => {},
        }
    }
}

/// Resolution composes over path strings: for two paths that are not empty,
/// the first, a separator and the second address what the second addresses
/// from the value that the first addresses.
pub proof fn lemma_resolve_joined(root: Json, first: Seq<char>, separator: char, second: Seq<char>)
    requires
        is_separator(separator),
        first.len() > 0,
        second.len() > 0,
    ensures
        root.resolve(segments(first.push(separator) + second)) == match root.resolve(
            segments(first),
        ) {
            Some(middle) => middle.resolve(segments(second)),
            None => None,
        },
{
    lemma_segments_of_joined(first, separator, second);
    lemma_resolve_composes(root, segments(first), segments(second));
}

impl JsonValue {
    /// The child of this value that a segment names.
    pub fn child(&self, segment: &[char]) -> (found: Option<&JsonValue>)
        ensures
            match found {
                Some(value) => self@.child(segment@) == Some(value@),
                None => self@.child(segment@) is None,
            },
    {
        match self {
            JsonValue::Object(members) => {
                let ghost all = self@->Object_0;
                let mut i: usize = 0;
                assert(all.skip(0) =~= all);
                while i < members.len()
                    invariant
                        i <= members.len(),
                        all.len() == members.len(),
                        forall|j: int|
                            0 <= j < members.len() ==> #[trigger] all[j] == (Member {
                                key: members[j].0@,
                                value: members[j].1@,
                            }),
                        self@ == Json::Object(all),
                        member(all, segment@) == member(all.skip(i as int), segment@),
                    decreases members.len() - i,
                {
                    let ghost rest = all.skip(i as int);
                    assert(rest.first() == all[i as int]);
                    assert(rest.drop_first() =~= all.skip(i + 1));
                    if same_text(members[i].0.as_str(), segment) {
                        return Some(&members[i].1);
                    }
                    i += 1;
                }
                assert(all.skip(i as int).len() == 0);
                None
            },
            JsonValue::Array(items) => match parse_index(segment) {
                Some(i) => if i < items.len() {
                    Some(&items[i])
                } else {
                    None
                },
                None => None,
            },
            _ => None,
        }
    }

    /// The value that a path addresses, seen from this value.
    pub fn resolve(&self, path: &VirtualPath) -> (found: Option<&JsonValue>)
        ensures
            match found {
                Some(value) => self@.resolve(path@) == Some(value@),
                None => self@.resolve(path@) is None,
            },
    {
        let mut current = self;
        let mut i: usize = 0;
        assert(path@.skip(0) =~= path@);
        while i < path.len()
            invariant
                i <= path@.len(),
                self@.resolve(path@) == current@.resolve(path@.skip(i as int)),
            decreases path@.len() - i,
        {
            let ghost rest = path@.skip(i as int);
            assert(rest.first() == path@[i as int]);
            assert(rest.drop_first() =~= path@.skip(i + 1));
            match current.child(path.segments[i].as_slice()) {
                Some(next) => {
                    current = next;
                },
                None => {
                    return None;
                },
            }
            i += 1;
        }
        Some(current)
    }
}

} // verus!
