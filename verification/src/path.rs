//! Paths as sequences of components.
//!
//! A path is what remains of a POSIX path string once it has been cut at its
//! separators: an optional root, an optional leading `.`, and then names and
//! `..` in any order. Two strings that differ only in repeated separators, in
//! a trailing separator or in `.` after the first component are the same path.

use vstd::prelude::*;

verus! {

/// The byte that separates the components of a path string.
pub const SEPARATOR: u8 = 47u8;

/// The byte of which the names `.` and `..` are made.
pub const DOT: u8 = 46u8;

/// One component of a path, as a plain value.
pub enum Segment {
    /// The root directory, `/`.
    RootDir,
    /// The current directory, `.`.
    CurDir,
    /// The parent directory, `..`.
    ParentDir,
    /// A named entry.
    Normal(Seq<u8>),
}

/// Whether `name` can stand as a named entry: it is not empty, holds no
/// separator, and is neither `.` nor `..`.
pub open spec fn valid_name(name: Seq<u8>) -> bool {
    &&& name.len() > 0
    &&& forall|i: int| 0 <= i < name.len() ==> name[i] != SEPARATOR
    &&& !(name.len() == 1 && name[0] == DOT)
    &&& !(name.len() == 2 && name[0] == DOT && name[1] == DOT)
}

/// Whether `path` is a sequence of components that a path string can have:
/// a root or a `.` stands first if it occurs at all, and every name is valid.
pub open spec fn well_formed(path: Seq<Segment>) -> bool {
    forall|i: int|
        0 <= i < path.len() ==> match #[trigger] path[i] {
            Segment::RootDir | Segment::CurDir => i == 0,
            Segment::ParentDir => true,
            Segment::Normal(name) => valid_name(name),
        }
}

/// Whether `path` is the root directory and nothing else.
pub open spec fn is_root(path: Seq<Segment>) -> bool {
    path.len() == 1 && path[0] == Segment::RootDir
}

/// The path without its last component, where it has a parent: a name, a `.`
/// or a `..` can be taken off, a root cannot, and the empty path has nothing
/// to take off.
pub open spec fn parent_of(path: Seq<Segment>) -> Option<Seq<Segment>> {
    if path.len() == 0 || path.last() == Segment::RootDir {
        None
    } else {
        Some(path.drop_last())
    }
}

/// The path after its last component was removed, or the path itself where
/// it has no parent.
pub open spec fn popped(path: Seq<Segment>) -> Seq<Segment> {
    match parent_of(path) {
        Some(parent) => parent,
        None => path,
    }
}

/// The name of a directory entry.
#[derive(Debug, PartialEq, Eq)]
pub struct Name {
    bytes: Vec<u8>,
}

impl View for Name {
    type V = Seq<u8>;

    closed spec fn view(&self) -> Seq<u8> {
        self.bytes@
    }
}

impl Name {
    #[verifier::type_invariant]
    spec fn valid(self) -> bool {
        valid_name(self.bytes@)
    }

    /// The name made of `bytes`, if they form a valid name.
    pub fn new(bytes: Vec<u8>) -> (name: Option<Name>)
        ensures
            name is Some <==> valid_name(bytes@),
            name is Some ==> name->0@ == bytes@,
    {
        let n: usize = bytes.len();
        if n == 0 {
            return None;
        }
        if n == 1 && bytes[0] == DOT {
            return None;
        }
        if n == 2 && bytes[0] == DOT && bytes[1] == DOT {
            return None;
        }
        let mut i: usize = 0;
        while i < n
            invariant
                n == bytes.len(),
                i <= n,
                forall|j: int| 0 <= j < i ==> bytes[j] != SEPARATOR,
            decreases n - i,
        {
            if bytes[i] == SEPARATOR {
                return None;
            }
            i += 1;
        }
        Some(Name { bytes })
    }

    /// The name made of bytes that are known to form a valid name.
    pub(crate) fn from_valid(bytes: Vec<u8>) -> (name: Name)
        requires
            valid_name(bytes@),
        ensures
            name@ == bytes@,
    {
        Name { bytes }
    }

    /// The bytes of the name.
    pub fn as_bytes(&self) -> (bytes: &[u8])
        ensures
            bytes@ == self@,
            valid_name(self@),
    {
        proof {
            use_type_invariant(self);
        }
        self.bytes.as_slice()
    }
}

impl Clone for Name {
    fn clone(&self) -> (copy: Name)
        ensures
            copy@ == self@,
    {
        proof {
            use_type_invariant(self);
        }
        let bytes = self.bytes.clone();
        assert(bytes@ =~= self.bytes@);
        Name { bytes }
    }
}

/// One component of a path.
#[derive(Debug, PartialEq, Eq)]
pub enum Component {
    /// The root directory, `/`.
    RootDir,
    /// The current directory, `.`.
    CurDir,
    /// The parent directory, `..`.
    ParentDir,
    /// A named entry.
    Normal(Name),
}

impl View for Component {
    type V = Segment;

    open spec fn view(&self) -> Segment {
        match self {
            Component::RootDir => Segment::RootDir,
            Component::CurDir => Segment::CurDir,
            Component::ParentDir => Segment::ParentDir,
            Component::Normal(name) => Segment::Normal(name@),
        }
    }
}

impl Clone for Component {
    fn clone(&self) -> (copy: Component)
        ensures
            copy@ == self@,
    {
        match self {
            Component::RootDir => Component::RootDir,
            Component::CurDir => Component::CurDir,
            Component::ParentDir => Component::ParentDir,
            Component::Normal(name) => Component::Normal(name.clone()),
        }
    }
}

/// The components of `components` as plain values.
pub open spec fn segments(components: Seq<Component>) -> Seq<Segment> {
    Seq::new(components.len(), |i: int| components[i]@)
}

/// A path: its components in order, first to last.
#[derive(Debug, PartialEq, Eq)]
pub struct PosixPath {
    components: Vec<Component>,
}

impl View for PosixPath {
    type V = Seq<Segment>;

    closed spec fn view(&self) -> Seq<Segment> {
        segments(self.components@)
    }
}

/// A copy of the first `n` components of `source`.
fn copy_front(source: &Vec<Component>, n: usize) -> (copy: Vec<Component>)
    requires
        n <= source.len(),
    ensures
        segments(copy@) == segments(source@).take(n as int),
{
    let mut copy: Vec<Component> = Vec::new();
    let mut i: usize = 0;
    while i < n
        invariant
            i <= n <= source.len(),
            copy.len() == i,
            forall|j: int| 0 <= j < i ==> copy[j]@ == source[j]@,
        decreases n - i,
    {
        copy.push(source[i].clone());
        i += 1;
    }
    assert(segments(copy@) =~= segments(source@).take(n as int));
    copy
}

impl PosixPath {
    #[verifier::type_invariant]
    spec fn valid(self) -> bool {
        well_formed(segments(self.components@))
    }

    /// The path of the given components.
    pub(crate) fn from_components(components: Vec<Component>) -> (path: PosixPath)
        requires
            well_formed(segments(components@)),
        ensures
            path@ == segments(components@),
    {
        PosixPath { components }
    }

    /// The components, first to last.
    pub(crate) fn components(&self) -> (components: &Vec<Component>)
        ensures
            segments(components@) == self@,
            well_formed(self@),
    {
        proof {
            use_type_invariant(self);
        }
        &self.components
    }

    /// The path without components.
    pub fn new() -> (path: PosixPath)
        ensures
            path@ == Seq::<Segment>::empty(),
    {
        let components: Vec<Component> = Vec::new();
        assert(segments(components@) =~= Seq::<Segment>::empty());
        PosixPath { components }
    }

    /// The root directory.
    pub fn root() -> (path: PosixPath)
        ensures
            path@ == seq![Segment::RootDir],
            is_root(path@),
    {
        let mut components: Vec<Component> = Vec::new();
        components.push(Component::RootDir);
        assert(segments(components@) =~= seq![Segment::RootDir]);
        PosixPath { components }
    }

    /// The number of components. A path is well formed whatever it was made
    /// from, and a caller learns so here.
    pub fn len(&self) -> (n: usize)
        ensures
            n == self@.len(),
            well_formed(self@),
    {
        proof {
            use_type_invariant(self);
        }
        self.components.len()
    }

    /// Whether the path has no component.
    pub fn is_empty(&self) -> (empty: bool)
        ensures
            empty == (self@.len() == 0),
    {
        self.components.len() == 0
    }

    /// Whether the path is the root directory and nothing else.
    pub fn is_root(&self) -> (root: bool)
        ensures
            root == is_root(self@),
    {
        if self.components.len() != 1 {
            return false;
        }
        match &self.components[0] {
            Component::RootDir => true,
            _ => false,
        }
    }

    /// The path cut before its last component, and that component; nothing
    /// for the path without components.
    pub fn split_last(&self) -> (parts: Option<(PosixPath, Component)>)
        ensures
            match parts {
                Some((front, last)) => self@.len() > 0 && front@ == self@.drop_last() && last@
                    == self@.last(),
                None => self@.len() == 0,
            },
    {
        proof {
            use_type_invariant(self);
        }
        let n: usize = self.components.len();
        if n == 0 {
            return None;
        }
        let front = copy_front(&self.components, n - 1);
        let last = self.components[n - 1].clone();
        assert(segments(self.components@).take(n - 1) =~= self@.drop_last());
        Some((PosixPath { components: front }, last))
    }

    /// The path with the entry `name` below it.
    pub fn join(&self, name: &Name) -> (path: PosixPath)
        ensures
            path@ == self@.push(Segment::Normal(name@)),
    {
        proof {
            use_type_invariant(self);
        }
        let mut components = copy_front(&self.components, self.components.len());
        let entry = name.clone();
        proof {
            use_type_invariant(&entry);
        }
        components.push(Component::Normal(entry));
        assert(segments(self.components@).take(self.components.len() as int) =~= self@);
        assert(segments(components@) =~= self@.push(Segment::Normal(name@)));
        PosixPath { components }
    }

    /// The path without its last component, if it has a parent.
    pub fn parent(&self) -> (parent: Option<PosixPath>)
        ensures
            parent is Some <==> parent_of(self@) is Some,
            parent is Some ==> parent->0@ == parent_of(self@)->0,
    {
        proof {
            use_type_invariant(self);
        }
        let n: usize = self.components.len();
        if n == 0 {
            return None;
        }
        match &self.components[n - 1] {
            Component::RootDir => None,
            _ => {
                let front = copy_front(&self.components, n - 1);
                assert(segments(self.components@).take(n - 1) =~= self@.drop_last());
                Some(PosixPath { components: front })
            },
        }
    }

    /// Removes the last component if the path has a parent, and says whether
    /// it did.
    pub fn pop(&mut self) -> (removed: bool)
        ensures
            removed == parent_of(old(self)@) is Some,
            final(self)@ == popped(old(self)@),
    {
        proof {
            use_type_invariant(&*self);
        }
        let n: usize = self.components.len();
        if n == 0 {
            return false;
        }
        match &self.components[n - 1] {
            Component::RootDir => false,
            _ => {
                let front = copy_front(&self.components, n - 1);
                assert(segments(self.components@).take(n - 1) =~= self@.drop_last());
                self.components = front;
                true
            },
        }
    }
}

impl Clone for PosixPath {
    fn clone(&self) -> (copy: PosixPath)
        ensures
            copy@ == self@,
    {
        proof {
            use_type_invariant(self);
        }
        let components = copy_front(&self.components, self.components.len());
        assert(segments(self.components@).take(self.components.len() as int) =~= self@);
        PosixPath { components }
    }
}

} // verus!
