//! Virtual paths: the segments that a path string names.

use vstd::prelude::*;
use vstd::std_specs::iter::IteratorSpec;

verus! {

broadcast use vstd::string::group_string_axioms;

/// A path is split at slashes and at backslashes, so that a path written in
/// either convention names the same segments.
pub open spec fn is_separator(c: char) -> bool {
    c == '/' || c == '\\'
}

/// The pieces of a text between its separators. A text without a separator is
/// one piece; two separators in a row hold an empty piece between them.
pub open spec fn pieces(text: Seq<char>) -> Seq<Seq<char>>
    decreases text.len(),
{
    if text.len() == 0 {
        seq![Seq::empty()]
    } else {
        let before = pieces(text.drop_last());
        if is_separator(text.last()) {
            before.push(Seq::empty())
        } else {
            before.drop_last().push(before.last().push(text.last()))
        }
    }
}

/// The segments of a virtual path. The empty path is the root and has none;
/// any other path has the pieces between its separators.
pub open spec fn segments(path: Seq<char>) -> Seq<Seq<char>> {
    if path.len() == 0 {
        Seq::empty()
    } else {
        pieces(path)
    }
}

/// Pieces put together, with a slash between each two.
pub open spec fn joined(parts: Seq<Seq<char>>) -> Seq<char>
    decreases parts.len(),
{
    if parts.len() == 0 {
        Seq::empty()
    } else if parts.len() == 1 {
        parts[0]
    } else {
        joined(parts.drop_last()).push('/') + parts.last()
    }
}

/// A text with a slash in place of each separator.
pub open spec fn with_slashes(text: Seq<char>) -> Seq<char> {
    text.map_values(
        |c: char|
            if is_separator(c) {
                '/'
            } else {
                c
            },
    )
}

/// A text splits into at least one piece, no piece holds a separator, and the
/// pieces with slashes between them are the text again, but for a slash in
/// place of each backslash.
pub proof fn lemma_pieces_rebuild(text: Seq<char>)
    ensures
        pieces(text).len() >= 1,
        forall|i: int, j: int|
            0 <= i < pieces(text).len() && 0 <= j < pieces(text)[i].len() ==> !is_separator(
                #[trigger] pieces(text)[i][j],
            ),
        joined(pieces(text)) == with_slashes(text),
    decreases text.len(),
{
    if text.len() == 0 {
        assert(joined(pieces(text)) =~= with_slashes(text));
    } else {
        let before = pieces(text.drop_last());
        lemma_pieces_rebuild(text.drop_last());
        assert(with_slashes(text) =~= with_slashes(text.drop_last()).push(
            with_slashes(text).last(),
        ));
        if is_separator(text.last()) {
            let parts = before.push(Seq::empty());
            assert(parts.drop_last() =~= before);
            assert(joined(parts) =~= with_slashes(text));
        } else {
            let grown = before.last().push(text.last());
            let parts = before.drop_last().push(grown);
            assert(parts.drop_last() =~= before.drop_last());
            assert(joined(parts) =~= joined(before).push(text.last()));
            assert forall|i: int, j: int|
                0 <= i < parts.len() && 0 <= j < parts[i].len() implies !is_separator(
                #[trigger] parts[i][j],
            ) by {
                if i < parts.len() - 1 {
                    assert(parts[i][j] == before[i][j]);
                } else if j < before.last().len() {
                    assert(parts[i][j] == before[before.len() - 1][j]);
                }
            }
        }
    }
}

/// A text made of two texts with a separator between them splits into the
/// pieces of the first followed by the pieces of the second.
pub proof fn lemma_pieces_of_joined(first: Seq<char>, separator: char, second: Seq<char>)
    requires
        is_separator(separator),
    ensures
        pieces(first.push(separator) + second) == pieces(first) + pieces(second),
    decreases second.len(),
{
    let whole = first.push(separator) + second;
    if second.len() == 0 {
        assert(whole =~= first.push(separator));
        assert(whole.drop_last() =~= first);
        assert(pieces(whole) =~= pieces(first) + pieces(second));
    } else {
        let shorter = first.push(separator) + second.drop_last();
        lemma_pieces_of_joined(first, separator, second.drop_last());
        lemma_pieces_rebuild(second.drop_last());
        assert(whole.drop_last() =~= shorter);
        assert(whole.last() == second.last());
        assert(pieces(whole) =~= pieces(first) + pieces(second));
    }
}

/// For two paths that are not empty, the path made of the first, a separator
/// and the second has the segments of the first followed by those of the
/// second.
pub proof fn lemma_segments_of_joined(first: Seq<char>, separator: char, second: Seq<char>)
    requires
        is_separator(separator),
        first.len() > 0,
        second.len() > 0,
    ensures
        segments(first.push(separator) + second) == segments(first) + segments(second),
{
    lemma_pieces_of_joined(first, separator, second);
}

/// A text without a separator is one piece.
pub proof fn lemma_pieces_of_plain(text: Seq<char>)
    requires
        forall|i: int| 0 <= i < text.len() ==> !is_separator(#[trigger] text[i]),
    ensures
        pieces(text) == seq![text],
    decreases text.len(),
{
    if text.len() == 0 {
        assert(text =~= Seq::<char>::empty());
    } else {
        let front = text.drop_last();
        assert forall|i: int| 0 <= i < front.len() implies !is_separator(#[trigger] front[i]) by {
            assert(front[i] == text[i]);
        }
        lemma_pieces_of_plain(front);
        assert(!is_separator(text[text.len() - 1]));
        assert(front.push(text.last()) =~= text);
        assert(seq![front].last() == front);
        assert(seq![front].drop_last().push(text) =~= seq![text]);
    }
}

/// The path of an entry: the path of its directory, a separator and the name
/// of the entry address the child of that name, as long as the name holds no
/// separator. In the root, the name alone is the path, unless it is empty.
pub proof fn lemma_path_of_entry(directory: Seq<char>, separator: char, name: Seq<char>)
    requires
        is_separator(separator),
        forall|i: int| 0 <= i < name.len() ==> !is_separator(#[trigger] name[i]),
    ensures
        directory.len() > 0 ==> segments(directory.push(separator) + name) == segments(
            directory,
        ).push(name),
        name.len() > 0 ==> segments(name) == segments(Seq::empty()).push(name),
{
    lemma_pieces_of_plain(name);
    lemma_pieces_of_joined(directory, separator, name);
    assert(pieces(directory) + seq![name] =~= pieces(directory).push(name));
    assert(seq![name] =~= Seq::<Seq<char>>::empty().push(name));
}

/// A virtual path: the segments that lead from the root to a value.
pub struct VirtualPath {
    pub segments: Vec<Vec<char>>,
}

impl View for VirtualPath {
    type V = Seq<Seq<char>>;

    open spec fn view(&self) -> Seq<Seq<char>> {
        texts(self.segments@)
    }
}

impl VirtualPath {
    /// The path of the root: no segment.
    pub fn root() -> (path: VirtualPath)
        ensures
            path@ == Seq::<Seq<char>>::empty(),
    {
        let path = VirtualPath { segments: Vec::new() };
        assert(path@ =~= Seq::<Seq<char>>::empty());
        path
    }

    /// Splits a path string into its segments.
    pub fn parse(path: &str) -> (parsed: VirtualPath)
        ensures
            parsed@ == segments(path@),
    {
        if path.is_empty() {
            return VirtualPath::root();
        }
        let mut parts: Vec<Vec<char>> = Vec::new();
        let mut current: Vec<char> = Vec::new();
        assert(texts(parts@).push(current@) =~= pieces(path@.take(0)));
        for c in rest: path.chars()
            invariant
                rest.seq() == path@,
                texts(parts@).push(current@) == pieces(path@.take(rest.index())),
        {
            let ghost before = pieces(path@.take(rest.index()));
            let ghost upto = path@.take(rest.index() + 1);
            assert(upto.drop_last() =~= path@.take(rest.index()));
            assert(upto.last() == c);
            if c == '/' || c == '\\' {
                parts.push(current);
                current = Vec::new();
                assert(texts(parts@).push(current@) =~= before.push(Seq::empty()));
            } else {
                current.push(c);
                assert(texts(parts@).push(current@) =~= before.drop_last().push(
                    before.last().push(c),
                ));
            }
        }
        assert(path@.take(path@.len() as int) =~= path@);
        parts.push(current);
        assert(texts(parts@) =~= pieces(path@));
        VirtualPath { segments: parts }
    }

    /// The number of segments.
    pub fn len(&self) -> (len: usize)
        ensures
            len == self@.len(),
    {
        self.segments.len()
    }
}

/// The texts that a list of segments holds.
pub open spec fn texts(parts: Seq<Vec<char>>) -> Seq<Seq<char>> {
    parts.map_values(|part: Vec<char>| part@)
}

/// Whether a key is the text of a segment.
pub fn same_text(key: &str, name: &[char]) -> (same: bool)
    ensures
        same == (key@ == name@),
{
    let mut matched: usize = 0;
    for c in rest: key.chars()
        invariant
            rest.seq() == key@,
            matched == rest.index(),
            matched <= name.len(),
            key@.take(matched as int) == name@.take(matched as int),
    {
        if matched >= name.len() {
            return false;
        }
        if name[matched] != c {
            return false;
        }
        assert(key@.take(matched + 1) =~= key@.take(matched as int).push(c));
        assert(name@.take(matched + 1) =~= name@.take(matched as int).push(c));
        matched += 1;
    }
    assert(key@.take(matched as int) =~= key@);
    if matched == name.len() {
        assert(name@.take(matched as int) =~= name@);
        true
    } else {
        false
    }
}

} // verus!
