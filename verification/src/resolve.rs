//! Resolution of a path whose last component need not exist.
//!
//! Every component but the last has to be resolved by the environment: it
//! must exist, and symbolic links in it are followed. The last component is
//! then attached to the resolved prefix by rule, without a look at the file
//! system. A path of one component has no prefix, and is attached to the
//! current directory instead.
//!
//! The library asks the environment nothing. [`semicanonicalize`] says
//! which prefix has to be resolved, if any, and [`complete`] takes the
//! environment's answer.

use crate::error::empty_path_failure;
use crate::error::inconsistent_failure;
use crate::error::os_failure;
use crate::error::Error;
use crate::error::ErrorKind;
use crate::error::ErrorView;
use crate::parse::lemma_parsed_join;
use crate::parse::lemma_parsed_shortest;
use crate::parse::lemma_parsed_with_piece;
use crate::parse::parsed;
use crate::path::is_root;
use crate::path::parent_of;
use crate::path::popped;
use crate::path::valid_name;
use crate::path::well_formed;
use crate::path::Component;
use crate::path::PosixPath;
use crate::path::Segment;
use crate::path::DOT;
use crate::path::SEPARATOR;
use crate::render::display_text;
use crate::render::lemma_parse_of_render;
use crate::render::lemma_render_nonempty;
use crate::render::render;
use vstd::prelude::*;

verus! {

/// Where the last component of a path leads, from the resolved prefix if
/// the path has one and from the current directory if it has none. `None`
/// marks the combinations that cannot arise from a path string.
pub open spec fn dispatch(
    last: Segment,
    prefix: Option<Seq<Segment>>,
    current_dir: Seq<Segment>,
) -> Option<Seq<Segment>> {
    match (last, prefix) {
        (Segment::CurDir, Some(resolved)) => Some(resolved),
        (Segment::CurDir, None) => Some(current_dir),
        (Segment::Normal(name), Some(resolved)) => Some(resolved.push(Segment::Normal(name))),
        (Segment::Normal(name), None) => Some(current_dir.push(Segment::Normal(name))),
        (Segment::ParentDir, Some(resolved)) => Some(popped(resolved)),
        (Segment::ParentDir, None) => if is_root(current_dir) {
            Some(current_dir)
        } else {
            parent_of(current_dir)
        },
        (Segment::RootDir, None) => Some(seq![Segment::RootDir]),
        (Segment::RootDir, Some(_)) => None,
    }
}

/// The result for `path` once its last component has been dispatched.
pub open spec fn settled(path: Seq<Segment>, target: Option<Seq<Segment>>) -> Result<
    Seq<Segment>,
    ErrorView,
> {
    match target {
        Some(resolved) => Ok(resolved),
        None => Err(inconsistent_failure(display_text(path))),
    }
}

/// The resolution of a path of at most one component, which needs nothing
/// from the environment.
pub open spec fn anchored(path: Seq<Segment>, current_dir: Seq<Segment>) -> Result<
    Seq<Segment>,
    ErrorView,
> {
    if path.len() == 0 {
        Err(empty_path_failure())
    } else {
        settled(path, dispatch(path.last(), None, current_dir))
    }
}

/// The resolution of `path`, where `answer` is what the environment gave
/// for the path's prefix: the resolved prefix, or the cause of its failure.
/// The answer is read only where the path has a prefix.
pub open spec fn resolution(
    path: Seq<Segment>,
    current_dir: Seq<Segment>,
    answer: Result<Seq<Segment>, Seq<char>>,
) -> Result<Seq<Segment>, ErrorView> {
    if path.len() <= 1 {
        anchored(path, current_dir)
    } else {
        match answer {
            Ok(resolved) => settled(path, dispatch(path.last(), Some(resolved), current_dir)),
            Err(cause) => Err(os_failure(display_text(path), cause)),
        }
    }
}

/// An optional path as plain values.
pub open spec fn option_view(path: Option<PosixPath>) -> Option<Seq<Segment>> {
    match path {
        Some(path) => Some(path@),
        None => None,
    }
}

/// The environment's answer as plain values.
pub open spec fn answer_view(answer: Result<PosixPath, String>) -> Result<
    Seq<Segment>,
    Seq<char>,
> {
    match answer {
        Ok(resolved) => Ok(resolved@),
        Err(cause) => Err(cause@),
    }
}

/// The result of a resolution as plain values.
pub open spec fn result_view(result: Result<PosixPath, Error>) -> Result<
    Seq<Segment>,
    ErrorView,
> {
    match result {
        Ok(resolved) => Ok(resolved@),
        Err(error) => Err(error@),
    }
}

/// What is left to do for a path after [`semicanonicalize`].
#[derive(Debug)]
pub enum Step {
    /// Nothing: this is the resolved path.
    Resolved(PosixPath),
    /// The environment has to resolve this prefix; [`complete`] takes its
    /// answer.
    NeedsPrefix(PosixPath),
}

/// Attaches the last component of a path to the resolved prefix, or to the
/// current directory where the path has no prefix.
pub fn assemble(last: &Component, prefix: Option<PosixPath>, current_dir: &PosixPath) -> (target:
    Option<PosixPath>)
    ensures
        option_view(target) == dispatch(last@, option_view(prefix), current_dir@),
{
    match (last, prefix) {
        (Component::CurDir, Some(resolved)) => Some(resolved),
        (Component::CurDir, None) => Some(current_dir.clone()),
        (Component::Normal(name), Some(resolved)) => Some(resolved.join(name)),
        (Component::Normal(name), None) => Some(current_dir.join(name)),
        (Component::ParentDir, Some(resolved)) => {
            let mut resolved = resolved;
            resolved.pop();
            Some(resolved)
        },
        (Component::ParentDir, None) => {
            if current_dir.is_root() {
                Some(current_dir.clone())
            } else {
                current_dir.parent()
            }
        },
        (Component::RootDir, None) => Some(PosixPath::root()),
        (Component::RootDir, Some(_)) => None,
    }
}

/// Turns a dispatched target into the result for `path`.
fn settle(path: &PosixPath, target: Option<PosixPath>) -> (result: Result<PosixPath, Error>)
    ensures
        result_view(result) == settled(path@, option_view(target)),
{
    match target {
        Some(resolved) => Ok(resolved),
        None => Err(Error::inconsistent(path.display().as_str())),
    }
}

/// Resolves `path` as far as that can be done without the environment.
///
/// A path without components is an error. A path of one component is
/// resolved against `current_dir` at once. For any longer path the result
/// names the prefix that the environment has to resolve.
pub fn semicanonicalize(path: &PosixPath, current_dir: &PosixPath) -> (step: Result<Step, Error>)
    ensures
        path@.len() == 0 ==> step is Err && step->Err_0@ == empty_path_failure(),
        match step {
            Ok(Step::NeedsPrefix(prefix)) => path@.len() > 1 && prefix@ == path@.drop_last(),
            Ok(Step::Resolved(resolved)) => path@.len() <= 1 && anchored(path@, current_dir@)
                == Ok::<Seq<Segment>, ErrorView>(resolved@),
            Err(error) => path@.len() <= 1 && anchored(path@, current_dir@) == Err::<
                Seq<Segment>,
                ErrorView,
            >(error@),
        },
{
    match path.split_last() {
        None => Err(Error::empty_path()),
        Some((prefix, last)) => {
            if prefix.is_empty() {
                match settle(path, assemble(&last, None, current_dir)) {
                    Ok(resolved) => Ok(Step::Resolved(resolved)),
                    Err(error) => Err(error),
                }
            } else {
                Ok(Step::NeedsPrefix(prefix))
            }
        },
    }
}

/// Resolves `path`, given the environment's answer for its prefix: the
/// resolved prefix, or the cause of the failure. A path of at most one
/// component has no prefix, and the answer is not read.
pub fn complete(path: &PosixPath, current_dir: &PosixPath, answer: Result<PosixPath, String>) -> (result:
    Result<PosixPath, Error>)
    ensures
        result_view(result) == resolution(path@, current_dir@, answer_view(answer)),
        path@.len() == 0 ==> result is Err && result->Err_0@ == empty_path_failure(),
{
    match path.split_last() {
        None => Err(Error::empty_path()),
        Some((prefix, last)) => {
            if prefix.is_empty() {
                settle(path, assemble(&last, None, current_dir))
            } else {
                match answer {
                    Ok(resolved) => settle(path, assemble(&last, Some(resolved), current_dir)),
                    Err(cause) => Err(Error::os(path.display().as_str(), cause.as_str())),
                }
            }
        },
    }
}

/// Whether `path` has the form of a resolved path: it starts at the root,
/// and below the root it holds valid names only.
pub open spec fn resolved_form(path: Seq<Segment>) -> bool {
    &&& path.len() > 0
    &&& path[0] == Segment::RootDir
    &&& forall|i: int|
        1 <= i < path.len() ==> match #[trigger] path[i] {
            Segment::Normal(name) => valid_name(name),
            _ => false,
        }
}

/// A path without components is refused, whatever the current directory
/// and the environment's answer.
pub proof fn lemma_empty_path_is_refused(
    path: Seq<Segment>,
    current_dir: Seq<Segment>,
    answer: Result<Seq<Segment>, Seq<char>>,
)
    requires
        path.len() == 0,
    ensures
        resolution(path, current_dir, answer) == Err::<Seq<Segment>, ErrorView>(
            empty_path_failure(),
        ),
{
}

/// A name below a directory resolves to that name below the resolved
/// directory. Nothing is asked of the name but that it is a name: the entry
/// need not exist.
pub proof fn lemma_name_below_directory(
    directory: Seq<Segment>,
    name: Seq<u8>,
    current_dir: Seq<Segment>,
    resolved: Seq<Segment>,
)
    requires
        directory.len() > 0,
    ensures
        resolution(directory.push(Segment::Normal(name)), current_dir, Ok(resolved)) == Ok::<
            Seq<Segment>,
            ErrorView,
        >(resolved.push(Segment::Normal(name))),
{
}

/// The same of path strings: for the string of a directory, a separator and
/// a name, the prefix to resolve is the path of the directory, and the
/// result is the name below the resolved directory.
pub proof fn lemma_name_below_directory_string(
    directory: Seq<u8>,
    name: Seq<u8>,
    current_dir: Seq<Segment>,
    resolved: Seq<Segment>,
)
    requires
        directory.len() > 0,
        valid_name(name),
    ensures
        parsed(directory + seq![SEPARATOR] + name).len() > 1,
        parsed(directory + seq![SEPARATOR] + name).drop_last() == parsed(directory),
        resolution(parsed(directory + seq![SEPARATOR] + name), current_dir, Ok(resolved)) == Ok::<
            Seq<Segment>,
            ErrorView,
        >(resolved.push(Segment::Normal(name))),
{
    lemma_parsed_join(directory, name);
    lemma_name_below_directory(parsed(directory), name, current_dir, resolved);
}

/// The path `.` resolves to the current directory, whatever the
/// environment's answer.
pub proof fn lemma_current_dir_alone(
    current_dir: Seq<Segment>,
    answer: Result<Seq<Segment>, Seq<char>>,
)
    ensures
        parsed(seq![DOT]) == seq![Segment::CurDir],
        resolution(parsed(seq![DOT]), current_dir, answer) == Ok::<Seq<Segment>, ErrorView>(
            current_dir,
        ),
{
    lemma_parsed_shortest();
}

/// A `.` behind a prefix resolves to the resolved prefix, not to the
/// current directory.
pub proof fn lemma_current_dir_below_directory(
    directory: Seq<Segment>,
    current_dir: Seq<Segment>,
    resolved: Seq<Segment>,
)
    requires
        directory.len() > 0,
    ensures
        resolution(directory.push(Segment::CurDir), current_dir, Ok(resolved)) == Ok::<
            Seq<Segment>,
            ErrorView,
        >(resolved),
{
}

/// The path `..` resolves to the root where the current directory is the
/// root: nothing lies above it.
pub proof fn lemma_parent_of_root(answer: Result<Seq<Segment>, Seq<char>>)
    ensures
        parsed(seq![DOT, DOT]) == seq![Segment::ParentDir],
        parsed(seq![SEPARATOR]) == seq![Segment::RootDir],
        resolution(parsed(seq![DOT, DOT]), parsed(seq![SEPARATOR]), answer) == Ok::<
            Seq<Segment>,
            ErrorView,
        >(parsed(seq![SEPARATOR])),
{
    lemma_parsed_shortest();
}

/// A `..` below a resolved path other than the root resolves to the parent
/// of that path.
pub proof fn lemma_parent_of_resolved(path: Seq<Segment>, current_dir: Seq<Segment>)
    requires
        resolved_form(path),
        !is_root(path),
    ensures
        parent_of(path) == Some(path.drop_last()),
        resolution(path.push(Segment::ParentDir), current_dir, Ok(path)) == Ok::<
            Seq<Segment>,
            ErrorView,
        >(path.drop_last()),
{
    assert(path.last() == path[path.len() - 1]);
}

/// The same of path strings: the string of a resolved path other than the
/// root, followed by a separator and `..`, resolves to the parent of that
/// path.
pub proof fn lemma_parent_of_resolved_string(path: Seq<Segment>, current_dir: Seq<Segment>)
    requires
        resolved_form(path),
        !is_root(path),
    ensures
        parsed(render(path) + seq![SEPARATOR] + seq![DOT, DOT]) == path.push(Segment::ParentDir),
        resolution(
            parsed(render(path) + seq![SEPARATOR] + seq![DOT, DOT]),
            current_dir,
            Ok(path),
        ) == Ok::<Seq<Segment>, ErrorView>(path.drop_last()),
{
    lemma_resolved_form_is_well_formed(path);
    lemma_parse_of_render(path);
    lemma_render_nonempty(path);
    let word = seq![DOT, DOT];
    lemma_parsed_with_piece(render(path), word);
    lemma_parent_of_resolved(path, current_dir);
}

/// A path in resolved form is well formed.
pub proof fn lemma_resolved_form_is_well_formed(path: Seq<Segment>)
    requires
        resolved_form(path),
    ensures
        well_formed(path),
{
    assert forall|i: int| 0 <= i < path.len() implies match #[trigger] path[i] {
        Segment::RootDir | Segment::CurDir => i == 0,
        Segment::ParentDir => true,
        Segment::Normal(name) => valid_name(name),
    } by {
        if i >= 1 {
            assert(path[i] is Normal);
        }
    }
}

/// A well-formed path never meets an inconsistency, as long as the current
/// directory is well formed and has a component.
pub proof fn lemma_no_inconsistency(
    path: Seq<Segment>,
    current_dir: Seq<Segment>,
    answer: Result<Seq<Segment>, Seq<char>>,
)
    requires
        well_formed(path),
        well_formed(current_dir),
        current_dir.len() > 0,
    ensures
        match resolution(path, current_dir, answer) {
            Ok(_) => true,
            Err(failure) => failure.kind != ErrorKind::Inconsistent,
        },
{
    if path.len() > 0 {
        assert(path.last() == path[path.len() - 1]);
    }
    assert(current_dir.last() == current_dir[current_dir.len() - 1]);
}

/// Resolution keeps paths well formed.
pub proof fn lemma_resolution_well_formed(
    path: Seq<Segment>,
    current_dir: Seq<Segment>,
    answer: Result<Seq<Segment>, Seq<char>>,
)
    requires
        well_formed(path),
        well_formed(current_dir),
        answer is Ok ==> well_formed(answer->Ok_0),
    ensures
        resolution(path, current_dir, answer) is Ok ==> well_formed(
            resolution(path, current_dir, answer)->Ok_0,
        ),
{
    if path.len() > 0 {
        assert(path.last() == path[path.len() - 1]);
        let base = if path.len() <= 1 {
            current_dir
        } else {
            answer->Ok_0
        };
        if resolution(path, current_dir, answer) is Ok {
            let target = resolution(path, current_dir, answer)->Ok_0;
            assert forall|i: int| 0 <= i < target.len() implies match #[trigger] target[i] {
                Segment::RootDir | Segment::CurDir => i == 0,
                Segment::ParentDir => true,
                Segment::Normal(name) => valid_name(name),
            } by {
                if i < base.len() {
                    assert(target[i] == base[i] || target == seq![Segment::RootDir]);
                }
            }
        }
    }
}

/// Resolution yields a path in resolved form where the path is well
/// formed and the current directory and the environment's answer are in
/// resolved form.
pub proof fn lemma_resolution_resolved_form(
    path: Seq<Segment>,
    current_dir: Seq<Segment>,
    answer: Result<Seq<Segment>, Seq<char>>,
)
    requires
        well_formed(path),
        resolved_form(current_dir),
        answer is Ok ==> resolved_form(answer->Ok_0),
    ensures
        resolution(path, current_dir, answer) is Ok ==> resolved_form(
            resolution(path, current_dir, answer)->Ok_0,
        ),
{
    if path.len() > 0 {
        assert(path.last() == path[path.len() - 1]);
        let base = if path.len() <= 1 {
            current_dir
        } else {
            answer->Ok_0
        };
        if resolution(path, current_dir, answer) is Ok {
            let target = resolution(path, current_dir, answer)->Ok_0;
            assert(target.len() > 0);
            assert(target[0] == Segment::RootDir);
            assert forall|i: int| 1 <= i < target.len() implies match #[trigger] target[i] {
                Segment::Normal(name) => valid_name(name),
                _ => false,
            } by {
                if i < base.len() {
                    assert(target[i] == base[i]);
                }
            }
        }
    }
}

} // verus!
