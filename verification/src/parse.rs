//! From the bytes of a path string to a path.
//!
//! A path string is cut at every separator. An empty piece and, after the
//! first piece, a piece `.` name nothing and are left out. A string that
//! begins with a separator is rooted.

use crate::path::segments;
use crate::path::valid_name;
use crate::path::well_formed;
use crate::path::Component;
use crate::path::Name;
use crate::path::PosixPath;
use crate::path::Segment;
use crate::path::DOT;
use crate::path::SEPARATOR;
use vstd::prelude::*;
use vstd::slice::slice_subrange;
use vstd::slice::slice_to_vec;

verus! {

/// Where the piece that ends before `end` begins: behind the last separator
/// before `end`, or at the start of the string.
pub open spec fn piece_start(bytes: Seq<u8>, end: int) -> int
    decreases end,
{
    if end <= 0 {
        0
    } else if bytes[end - 1] == SEPARATOR {
        end
    } else {
        piece_start(bytes, end - 1)
    }
}

/// The component that a piece of a path string stands for, if any.
/// `leading` says that the piece begins the string.
pub open spec fn piece_segment(piece: Seq<u8>, leading: bool) -> Option<Segment> {
    if piece.len() == 0 {
        None
    } else if piece.len() == 1 && piece[0] == DOT {
        if leading {
            Some(Segment::CurDir)
        } else {
            None
        }
    } else if piece.len() == 2 && piece[0] == DOT && piece[1] == DOT {
        Some(Segment::ParentDir)
    } else {
        Some(Segment::Normal(piece))
    }
}

/// `front` followed by the component of a piece, if it stands for one.
pub open spec fn with_piece(front: Seq<Segment>, piece: Seq<u8>, leading: bool) -> Seq<Segment> {
    match piece_segment(piece, leading) {
        Some(segment) => front.push(segment),
        None => front,
    }
}

/// The components of the pieces of `bytes` that end at or before `end`,
/// where `end` is the end of a piece.
pub open spec fn pieces(bytes: Seq<u8>, end: int) -> Seq<Segment>
    decreases end,
    via pieces_decreases
{
    if end <= 0 {
        Seq::empty()
    } else {
        let start = piece_start(bytes, end);
        let front = if start <= 0 {
            Seq::empty()
        } else {
            pieces(bytes, start - 1)
        };
        with_piece(front, bytes.subrange(start, end), start == 0)
    }
}

#[via_fn]
proof fn pieces_decreases(bytes: Seq<u8>, end: int) {
    lemma_piece_start_bounds(bytes, end);
}

/// Whether a path string begins at the root.
pub open spec fn rooted(bytes: Seq<u8>) -> bool {
    bytes.len() > 0 && bytes[0] == SEPARATOR
}

/// The path that a path string denotes.
pub open spec fn parsed(bytes: Seq<u8>) -> Seq<Segment> {
    if rooted(bytes) {
        seq![Segment::RootDir] + pieces(bytes, bytes.len() as int)
    } else {
        pieces(bytes, bytes.len() as int)
    }
}

/// A piece begins within the string and not behind its own end.
pub proof fn lemma_piece_start_bounds(bytes: Seq<u8>, end: int)
    ensures
        0 <= piece_start(bytes, end),
        end >= 0 ==> piece_start(bytes, end) <= end,
    decreases end,
{
    if end > 0 && bytes[end - 1] != SEPARATOR {
        lemma_piece_start_bounds(bytes, end - 1);
    }
}

/// A stretch without separators that begins the string or follows a
/// separator is one piece.
pub proof fn lemma_piece_start_known(bytes: Seq<u8>, start: int, end: int)
    requires
        0 <= start <= end <= bytes.len(),
        start == 0 || bytes[start - 1] == SEPARATOR,
        forall|j: int| start <= j < end ==> bytes[j] != SEPARATOR,
    ensures
        piece_start(bytes, end) == start,
    decreases end - start,
{
    if start < end {
        lemma_piece_start_known(bytes, start, end - 1);
    }
}

/// Adds to `components` the component of the piece of `bytes` from `start`
/// to `end`, if it stands for one.
fn push_piece(bytes: &[u8], start: usize, end: usize, components: &mut Vec<Component>)
    requires
        start <= end <= bytes@.len(),
        forall|j: int| start <= j < end ==> bytes@[j] != SEPARATOR,
    ensures
        segments(final(components)@) == with_piece(
            segments(old(components)@),
            bytes@.subrange(start as int, end as int),
            start == 0,
        ),
{
    let ghost before = segments(components@);
    let ghost piece = bytes@.subrange(start as int, end as int);
    let len: usize = end - start;
    if len == 0 {
        return ;
    }
    assert(piece[0] == bytes@[start as int]);
    if len == 1 && bytes[start] == DOT {
        if start == 0 {
            components.push(Component::CurDir);
            assert(segments(components@) =~= before.push(Segment::CurDir));
        }
        return ;
    }
    if len == 2 {
        assert(piece[1] == bytes@[start + 1]);
        if bytes[start] == DOT && bytes[start + 1] == DOT {
            components.push(Component::ParentDir);
            assert(segments(components@) =~= before.push(Segment::ParentDir));
            return ;
        }
    }
    let name = Name::from_valid(slice_to_vec(slice_subrange(bytes, start, end)));
    components.push(Component::Normal(name));
    assert(segments(components@) =~= before.push(Segment::Normal(piece)));
}

impl PosixPath {
    /// The path that the path string `bytes` denotes.
    pub fn parse(bytes: &[u8]) -> (path: PosixPath)
        ensures
            path@ == parsed(bytes@),
            well_formed(path@),
    {
        let n: usize = bytes.len();
        let mut components: Vec<Component> = Vec::new();
        if n > 0 && bytes[0] == SEPARATOR {
            components.push(Component::RootDir);
        }
        let ghost root: Seq<Segment> = segments(components@);
        assert(root =~= if rooted(bytes@) {
            seq![Segment::RootDir]
        } else {
            Seq::empty()
        });
        let mut start: usize = 0;
        let mut i: usize = 0;
        assert(segments(components@) =~= root + pieces(bytes@, -1));
        while i < n
            invariant
                n == bytes@.len(),
                start <= i <= n,
                start == 0 || bytes@[start - 1] == SEPARATOR,
                forall|j: int| start <= j < i ==> bytes@[j] != SEPARATOR,
                root == if rooted(bytes@) {
                    seq![Segment::RootDir]
                } else {
                    Seq::<Segment>::empty()
                },
                segments(components@) == root + pieces(bytes@, start - 1),
                start == 0 ==> segments(components@) == root,
                well_formed(segments(components@)),
            decreases n - i,
        {
            if bytes[i] == SEPARATOR {
                let ghost before = segments(components@);
                push_piece(bytes, start, i, &mut components);
                proof {
                    lemma_piece_step(bytes@, root, before, start as int, i as int);
                }
                start = i + 1;
            }
            i += 1;
        }
        let ghost before = segments(components@);
        push_piece(bytes, start, n, &mut components);
        proof {
            lemma_piece_step(bytes@, root, before, start as int, n as int);
        }
        PosixPath::from_components(components)
    }
}

/// One step of cutting a path string: the components gathered before the
/// piece from `start` to `end`, followed by that piece's component, are the
/// components of all pieces up to `end`, and they are well formed.
proof fn lemma_piece_step(bytes: Seq<u8>, root: Seq<Segment>, before: Seq<Segment>, start: int, end: int)
    requires
        0 <= start <= end <= bytes.len(),
        start == 0 || bytes[start - 1] == SEPARATOR,
        forall|j: int| start <= j < end ==> bytes[j] != SEPARATOR,
        root == if rooted(bytes) {
            seq![Segment::RootDir]
        } else {
            Seq::<Segment>::empty()
        },
        before == root + pieces(bytes, start - 1),
        start == 0 ==> before == root,
        well_formed(before),
    ensures
        with_piece(before, bytes.subrange(start, end), start == 0) == root + pieces(bytes, end),
        well_formed(with_piece(before, bytes.subrange(start, end), start == 0)),
{
    let piece = bytes.subrange(start, end);
    let after = with_piece(before, piece, start == 0);
    if end > 0 {
        lemma_piece_start_known(bytes, start, end);
        assert(pieces(bytes, end) == with_piece(pieces(bytes, start - 1), piece, start == 0));
        match piece_segment(piece, start == 0) {
            Some(segment) => {
                assert(after =~= root + pieces(bytes, end));
            },
            None => {},
        }
    } else {
        assert(piece.len() == 0);
        assert(pieces(bytes, end) =~= pieces(bytes, start - 1));
    }
    match piece_segment(piece, start == 0) {
        Some(segment) => {
            assert(after == before.push(segment));
            assert(forall|j: int| 0 <= j < piece.len() ==> piece[j] == bytes[start + j]);
            if segment == Segment::CurDir {
                assert(start == 0);
                assert(piece[0] == DOT);
                assert(!rooted(bytes));
                assert(before.len() == 0);
            }
            if let Segment::Normal(name) = segment {
                assert(valid_name(name));
            }
            assert forall|k: int| 0 <= k < after.len() implies match #[trigger] after[k] {
                Segment::RootDir | Segment::CurDir => k == 0,
                Segment::ParentDir => true,
                Segment::Normal(name) => valid_name(name),
            } by {
                if k < before.len() {
                    assert(after[k] == before[k]);
                }
            }
        },
        None => {},
    }
}

/// A piece holds no separator, and begins the string or follows a
/// separator.
pub proof fn lemma_piece_is_whole(bytes: Seq<u8>, end: int)
    requires
        0 <= end <= bytes.len(),
    ensures
        0 <= piece_start(bytes, end) <= end,
        piece_start(bytes, end) == 0 || bytes[piece_start(bytes, end) - 1] == SEPARATOR,
        forall|j: int| piece_start(bytes, end) <= j < end ==> bytes[j] != SEPARATOR,
    decreases end,
{
    if end > 0 && bytes[end - 1] != SEPARATOR {
        lemma_piece_is_whole(bytes, end - 1);
    }
}

/// Among the components of the pieces of a path string there is no root, a
/// `.` stands first and only where the string begins with it, and every
/// name is valid.
pub proof fn lemma_pieces_shape(bytes: Seq<u8>, end: int)
    requires
        0 <= end <= bytes.len(),
    ensures
        forall|i: int|
            0 <= i < pieces(bytes, end).len() ==> match #[trigger] pieces(bytes, end)[i] {
                Segment::RootDir => false,
                Segment::CurDir => i == 0 && !rooted(bytes),
                Segment::ParentDir => true,
                Segment::Normal(name) => valid_name(name),
            },
    decreases end,
{
    if end > 0 {
        lemma_piece_is_whole(bytes, end);
        let start = piece_start(bytes, end);
        let piece = bytes.subrange(start, end);
        let front = if start <= 0 {
            Seq::<Segment>::empty()
        } else {
            pieces(bytes, start - 1)
        };
        if start > 0 {
            lemma_pieces_shape(bytes, start - 1);
        }
        assert(pieces(bytes, end) == with_piece(front, piece, start == 0));
        assert(forall|j: int| 0 <= j < piece.len() ==> piece[j] == bytes[start + j]);
        match piece_segment(piece, start == 0) {
            Some(segment) => {
                let all = front.push(segment);
                if segment == Segment::CurDir {
                    assert(piece[0] == DOT);
                }
                assert forall|i: int| 0 <= i < all.len() implies match #[trigger] all[i] {
                    Segment::RootDir => false,
                    Segment::CurDir => i == 0 && !rooted(bytes),
                    Segment::ParentDir => true,
                    Segment::Normal(name) => valid_name(name),
                } by {
                    if i < front.len() {
                        assert(all[i] == front[i]);
                    }
                }
            },
            None => {},
        }
    }
}

/// Every path string denotes a well-formed path.
pub proof fn lemma_parsed_well_formed(bytes: Seq<u8>)
    ensures
        well_formed(parsed(bytes)),
{
    lemma_pieces_shape(bytes, bytes.len() as int);
    let body = pieces(bytes, bytes.len() as int);
    let path = parsed(bytes);
    assert forall|i: int| 0 <= i < path.len() implies match #[trigger] path[i] {
        Segment::RootDir | Segment::CurDir => i == 0,
        Segment::ParentDir => true,
        Segment::Normal(name) => valid_name(name),
    } by {
        if rooted(bytes) {
            if i > 0 {
                assert(path[i] == body[i - 1]);
            }
        } else {
            assert(path[i] == body[i]);
        }
    }
}

/// The empty string denotes the path without components, `/` the root,
/// `.` the current directory and `..` the parent directory.
pub proof fn lemma_parsed_shortest()
    ensures
        parsed(Seq::<u8>::empty()) == Seq::<Segment>::empty(),
        parsed(seq![SEPARATOR]) == seq![Segment::RootDir],
        parsed(seq![DOT]) == seq![Segment::CurDir],
        parsed(seq![DOT, DOT]) == seq![Segment::ParentDir],
{
    reveal_with_fuel(piece_start, 4);
    reveal_with_fuel(pieces, 3);
    let root = seq![SEPARATOR];
    let cur = seq![DOT];
    let up = seq![DOT, DOT];
    assert(root.subrange(1, 1) =~= Seq::<u8>::empty());
    assert(cur.subrange(0, 1) =~= cur);
    assert(up.subrange(0, 2) =~= up);
    assert(parsed(Seq::<u8>::empty()) =~= Seq::<Segment>::empty());
    assert(parsed(root) =~= seq![Segment::RootDir]);
    assert(parsed(cur) =~= seq![Segment::CurDir]);
    assert(parsed(up) =~= seq![Segment::ParentDir]);
}

/// Where two strings agree before `end`, the piece that ends there begins
/// at the same place in both.
pub proof fn lemma_piece_start_of_prefix(a: Seq<u8>, b: Seq<u8>, end: int)
    requires
        0 <= end <= a.len(),
        end <= b.len(),
        forall|j: int| 0 <= j < end ==> a[j] == b[j],
    ensures
        piece_start(a, end) == piece_start(b, end),
    decreases end,
{
    if end > 0 && a[end - 1] != SEPARATOR {
        lemma_piece_start_of_prefix(a, b, end - 1);
    }
}

/// Where two strings agree before `end`, their pieces up to `end` are the
/// same.
pub proof fn lemma_pieces_of_prefix(a: Seq<u8>, b: Seq<u8>, end: int)
    requires
        0 <= end <= a.len(),
        end <= b.len(),
        forall|j: int| 0 <= j < end ==> a[j] == b[j],
    ensures
        pieces(a, end) == pieces(b, end),
    decreases end,
{
    if end > 0 {
        lemma_piece_start_of_prefix(a, b, end);
        lemma_piece_is_whole(a, end);
        let start = piece_start(a, end);
        if start > 0 {
            lemma_pieces_of_prefix(a, b, start - 1);
        }
        assert(a.subrange(start, end) =~= b.subrange(start, end));
    }
}

/// A string that is not empty denotes a path with at least one component.
pub proof fn lemma_parsed_nonempty(bytes: Seq<u8>)
    requires
        bytes.len() > 0,
    ensures
        parsed(bytes).len() > 0,
{
    if !rooted(bytes) {
        lemma_pieces_nonempty(bytes, bytes.len() as int);
    }
}

/// The pieces of a string that does not begin with a separator hold at
/// least one component.
proof fn lemma_pieces_nonempty(bytes: Seq<u8>, end: int)
    requires
        0 < end <= bytes.len(),
        bytes[0] != SEPARATOR,
    ensures
        pieces(bytes, end).len() > 0,
    decreases end,
{
    lemma_piece_is_whole(bytes, end);
    let start = piece_start(bytes, end);
    let piece = bytes.subrange(start, end);
    if start > 0 {
        lemma_pieces_nonempty(bytes, start - 1);
        let front = pieces(bytes, start - 1);
        assert(pieces(bytes, end) == with_piece(front, piece, false));
    } else {
        assert(piece.len() == end);
        assert(piece_segment(piece, true) is Some);
    }
}

/// A piece added behind a string that is not empty, with a separator
/// between them, adds its component to the path and changes nothing else.
pub proof fn lemma_parsed_with_piece(head: Seq<u8>, piece: Seq<u8>)
    requires
        head.len() > 0,
        forall|j: int| 0 <= j < piece.len() ==> piece[j] != SEPARATOR,
    ensures
        parsed(head + seq![SEPARATOR] + piece) == with_piece(parsed(head), piece, false),
{
    let whole = head + seq![SEPARATOR] + piece;
    let cut = head.len() as int;
    assert(whole[cut] == SEPARATOR);
    assert(forall|j: int| cut + 1 <= j < whole.len() ==> whole[j] == piece[j - cut - 1]);
    assert(forall|j: int| 0 <= j < cut ==> whole[j] == head[j]);
    lemma_piece_start_known(whole, cut + 1, whole.len() as int);
    assert(whole.subrange(cut + 1, whole.len() as int) =~= piece);
    lemma_pieces_of_prefix(whole, head, cut);
    assert(pieces(whole, whole.len() as int) == with_piece(pieces(whole, cut), piece, false));
    assert(rooted(whole) == rooted(head));
    match piece_segment(piece, false) {
        Some(segment) => {
            assert(parsed(whole) =~= parsed(head).push(segment));
        },
        None => {
            assert(parsed(whole) =~= parsed(head));
        },
    }
}

/// A name added behind a string that is not empty, with a separator
/// between them, is the last component of the path, and the string before
/// it denotes the rest.
pub proof fn lemma_parsed_join(head: Seq<u8>, name: Seq<u8>)
    requires
        head.len() > 0,
        valid_name(name),
    ensures
        parsed(head + seq![SEPARATOR] + name) == parsed(head).push(Segment::Normal(name)),
        parsed(head + seq![SEPARATOR] + name).drop_last() == parsed(head),
        parsed(head).len() > 0,
{
    lemma_parsed_with_piece(head, name);
    lemma_parsed_nonempty(head);
    assert(parsed(head).push(Segment::Normal(name)).drop_last() =~= parsed(head));
}

} // verus!
