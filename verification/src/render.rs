//! From a path back to the bytes of a path string.

use crate::parse::lemma_parsed_shortest;
use crate::parse::lemma_parsed_well_formed;
use crate::parse::lemma_parsed_with_piece;
use crate::parse::lemma_piece_start_known;
use crate::parse::parsed;
use crate::parse::piece_segment;
use crate::parse::piece_start;
use crate::parse::pieces;
use crate::parse::rooted;
use crate::parse::with_piece;
use crate::path::valid_name;
use crate::path::well_formed;
use crate::path::Component;
use crate::path::PosixPath;
use crate::path::Segment;
use crate::path::DOT;
use crate::path::SEPARATOR;
use crate::text::lossy;
use crate::text::lossy_text;
use vstd::prelude::*;
use vstd::utf8::decode_utf8;
use vstd::utf8::valid_utf8;

verus! {

/// The bytes that one component contributes to a path string.
pub open spec fn segment_bytes(segment: Segment) -> Seq<u8> {
    match segment {
        Segment::RootDir => seq![SEPARATOR],
        Segment::CurDir => seq![DOT],
        Segment::ParentDir => seq![DOT, DOT],
        Segment::Normal(name) => name,
    }
}

/// The shortest path string with the components of `path`: the components
/// in order, with one separator between two neighbours unless the first of
/// them is the root, which is a separator already.
pub open spec fn render(path: Seq<Segment>) -> Seq<u8>
    decreases path.len(),
{
    if path.len() == 0 {
        Seq::empty()
    } else if path.len() == 1 {
        segment_bytes(path[0])
    } else if path[path.len() - 2] == Segment::RootDir {
        render(path.drop_last()) + segment_bytes(path.last())
    } else {
        render(path.drop_last()) + seq![SEPARATOR] + segment_bytes(path.last())
    }
}

/// The text that stands for `path` in a message: the text of its string,
/// with a replacement character wherever the string is not text.
pub open spec fn display_text(path: Seq<Segment>) -> Seq<char> {
    lossy_text(render(path))
}

impl PosixPath {
    /// The bytes of the shortest path string with these components.
    pub fn to_bytes(&self) -> (bytes: Vec<u8>)
        ensures
            bytes@ == render(self@),
    {
        let components = self.components();
        let n: usize = components.len();
        let mut bytes: Vec<u8> = Vec::new();
        let mut i: usize = 0;
        assert(self@.take(0) =~= Seq::<Segment>::empty());
        while i < n
            invariant
                n == components.len(),
                i <= n,
                crate::path::segments(components@) == self@,
                bytes@ == render(self@.take(i as int)),
            decreases n - i,
        {
            let ghost before = bytes@;
            let ghost front = self@.take(i as int);
            let ghost upto = self@.take(i + 1);
            proof {
                assert(upto.drop_last() =~= front);
                assert(upto.last() == self@[i as int]);
                assert(self@[i as int] == components[i as int]@);
                if i > 0 {
                    assert(upto[upto.len() - 2] == components[i - 1]@);
                }
            }
            if i > 0 {
                match &components[i - 1] {
                    Component::RootDir => {},
                    _ => {
                        bytes.push(SEPARATOR);
                    },
                }
            }
            let ghost middle = bytes@;
            match &components[i] {
                Component::RootDir => {
                    bytes.push(SEPARATOR);
                },
                Component::CurDir => {
                    bytes.push(DOT);
                },
                Component::ParentDir => {
                    bytes.push(DOT);
                    bytes.push(DOT);
                },
                Component::Normal(name) => {
                    bytes.extend_from_slice(name.as_bytes());
                },
            }
            proof {
                assert(bytes@ =~= middle + segment_bytes(self@[i as int]));
                if i > 0 && components[i - 1]@ != Segment::RootDir {
                    assert(middle =~= before + seq![SEPARATOR]);
                } else {
                    assert(middle =~= before);
                }
                assert(bytes@ =~= render(upto));
            }
            i += 1;
        }
        assert(self@.take(n as int) =~= self@);
        bytes
    }

    /// The text that stands for this path in a message.
    pub fn display(&self) -> (text: String)
        ensures
            text@ == display_text(self@),
            valid_utf8(render(self@)) ==> text@ == decode_utf8(render(self@)),
    {
        let bytes = self.to_bytes();
        lossy(bytes.as_slice())
    }
}

/// The bytes of a component other than the root are not empty and hold no
/// separator, where the component is well formed.
proof fn lemma_segment_bytes_plain(segment: Segment)
    requires
        segment != Segment::RootDir,
        segment matches Segment::Normal(name) ==> valid_name(name),
    ensures
        segment_bytes(segment).len() > 0,
        forall|j: int|
            0 <= j < segment_bytes(segment).len() ==> segment_bytes(segment)[j] != SEPARATOR,
        segment != Segment::CurDir ==> piece_segment(segment_bytes(segment), false) == Some(
            segment,
        ),
        piece_segment(segment_bytes(segment), true) == Some(segment),
{
}

/// The string of a well-formed path with at least one component is not
/// empty.
pub proof fn lemma_render_nonempty(path: Seq<Segment>)
    requires
        well_formed(path),
        path.len() > 0,
    ensures
        render(path).len() > 0,
{
    let last = path[path.len() - 1];
    if path.len() == 1 {
        if last != Segment::RootDir {
            lemma_segment_bytes_plain(last);
        }
    } else {
        lemma_segment_bytes_plain(last);
    }
}

/// A well-formed path is the path that its own string denotes.
pub proof fn lemma_parse_of_render(path: Seq<Segment>)
    requires
        well_formed(path),
    ensures
        parsed(render(path)) == path,
    decreases path.len(),
{
    let n = path.len() as int;
    if n == 0 {
        assert(parsed(render(path)) =~= path);
    } else if n == 1 {
        let only = path[0];
        let word = segment_bytes(only);
        assert(render(path) == word);
        match only {
            Segment::Normal(name) => {
                lemma_segment_bytes_plain(only);
                lemma_piece_start_known(word, 0, word.len() as int);
                assert(word.subrange(0, word.len() as int) =~= word);
                assert(pieces(word, word.len() as int) == with_piece(
                    Seq::<Segment>::empty(),
                    word,
                    true,
                ));
                assert(parsed(word) =~= path);
            },
            _ => {
                lemma_parsed_shortest();
                assert(path =~= seq![only]);
            },
        }
    } else {
        let front = path.drop_last();
        let last = path[n - 1];
        assert(path.last() == last);
        assert(well_formed(front)) by {
            assert forall|i: int| 0 <= i < front.len() implies match #[trigger] front[i] {
                Segment::RootDir | Segment::CurDir => i == 0,
                Segment::ParentDir => true,
                Segment::Normal(name) => valid_name(name),
            } by {
                assert(front[i] == path[i]);
            }
        }
        lemma_parse_of_render(front);
        lemma_segment_bytes_plain(last);
        let head = render(front);
        let word = segment_bytes(last);
        let whole = render(path);
        if path[n - 2] == Segment::RootDir {
            assert(n == 2);
            assert(head == seq![SEPARATOR]);
            assert(whole == head + word);
            assert(forall|j: int| 1 <= j < whole.len() ==> whole[j] == word[j - 1]);
            lemma_piece_start_known(whole, 1, whole.len() as int);
            assert(whole.subrange(1, whole.len() as int) =~= word);
            assert(pieces(whole, 0) =~= Seq::<Segment>::empty());
            assert(pieces(whole, whole.len() as int) == with_piece(pieces(whole, 0), word, false));
            assert(rooted(whole));
            assert(parsed(whole) =~= path);
        } else {
            lemma_render_nonempty(front);
            assert(whole == head + seq![SEPARATOR] + word);
            lemma_parsed_with_piece(head, word);
            assert(parsed(whole) =~= path);
        }
    }
}

/// A path string and the shortest string of the path that it denotes
/// denote the same path.
pub proof fn lemma_render_is_normal_form(bytes: Seq<u8>)
    ensures
        parsed(render(parsed(bytes))) == parsed(bytes),
{
    lemma_parsed_well_formed(bytes);
    lemma_parse_of_render(parsed(bytes));
}

} // verus!
