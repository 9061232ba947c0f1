//! Path manipulations done by `std::path`, on paths held as strings. Each
//! result is named by a specification function of the arguments; the library
//! relies only on those names.

use std::path::Path;
use vstd::prelude::*;

verus! {

/// What `Path::parent` gives for a path.
pub uninterp spec fn path_parent(p: Seq<char>) -> Option<Seq<char>>;

/// What `Path::join` gives for a base and a path to append.
pub uninterp spec fn path_join(base: Seq<char>, rest: Seq<char>) -> Seq<char>;

/// What `Path::with_extension` gives for a path and an extension.
pub uninterp spec fn path_with_extension(p: Seq<char>, ext: Seq<char>) -> Seq<char>;

/// What `Path::is_absolute` says of a path.
pub uninterp spec fn path_is_absolute(p: Seq<char>) -> bool;

/// What `Path::ancestors` yields for a path: the path itself, then its parent,
/// the parent's parent, and so on.
pub uninterp spec fn path_ancestors(p: Seq<char>) -> Seq<Seq<char>>;

/// What `Path::file_stem` gives for a path, when it is valid UTF-8.
pub uninterp spec fn path_file_stem(p: Seq<char>) -> Option<Seq<char>>;

/// What `Path::extension` gives for a path, when it is valid UTF-8.
pub uninterp spec fn path_extension(p: Seq<char>) -> Option<Seq<char>>;

/// What `Path::with_file_name` gives for a path and a new file name.
pub uninterp spec fn path_with_file_name(p: Seq<char>, name: Seq<char>) -> Seq<char>;

/// What `Path::components` yields for a path, each component as its text.
pub uninterp spec fn path_components(p: Seq<char>) -> Seq<Seq<char>>;

/// `Path`'s `==`, which compares the two paths component by component
/// (`Path::components`), so that `/a/b/`, `/a//b` and `/a/./b` equal `/a/b`.
/// The contract claims only that the result is whether the components agree.
#[verifier::external_body]
pub(crate) fn same_path(a: &str, b: &str) -> (r: bool)
    ensures
        r == (path_components(a@) == path_components(b@)),
{
    Path::new(a) == Path::new(b)
}

/// `Path::parent`: the path without its final component, if there is one.
/// The contract claims only that the result is `path_parent` of the argument.
#[verifier::external_body]
pub(crate) fn parent_of(p: &str) -> (r: Option<String>)
    ensures
        match r {
            Some(d) => path_parent(p@) == Some(d@),
            None => path_parent(p@) is None,
        },
{
    Path::new(p).parent().map(|d| d.to_string_lossy().into_owned())
}

/// `Path::join`: `rest` appended to `base`.
/// The contract claims only that the result is `path_join` of the arguments.
#[verifier::external_body]
pub(crate) fn join_path(base: &str, rest: &str) -> (r: String)
    ensures
        r@ == path_join(base@, rest@),
{
    Path::new(base).join(rest).to_string_lossy().into_owned()
}

/// `Path::with_extension`: the path with its extension set to `ext`. It
/// panics when `ext` holds a path separator (`PathBuf::set_extension`), so
/// `ext` holds neither `/` nor a backslash, each a separator on some target.
/// The contract claims only that the result is `path_with_extension` of the arguments.
#[verifier::external_body]
pub(crate) fn with_extension(p: &str, ext: &str) -> (r: String)
    requires
        !ext@.contains('/'),
        !ext@.contains('\\'),
    ensures
        r@ == path_with_extension(p@, ext@),
{
    Path::new(p).with_extension(ext).to_string_lossy().into_owned()
}

/// `Path::is_absolute`.
/// The contract claims only that the result is `path_is_absolute` of the argument.
#[verifier::external_body]
pub(crate) fn is_absolute(p: &str) -> (r: bool)
    ensures
        r == path_is_absolute(p@),
{
    Path::new(p).is_absolute()
}

/// `Path::ancestors`, collected in the order the iterator yields them: the
/// path itself, then its parent, the parent's parent and so on, until a path
/// without a parent. The contract claims that the result is `path_ancestors`
/// of the argument, and that documented chain of `Path::parent`.
#[verifier::external_body]
pub(crate) fn ancestors_of(p: &str) -> (r: Vec<String>)
    ensures
        r@.map_values(|s: String| s@) == path_ancestors(p@),
        r@.len() >= 1,
        r@[0]@ == p@,
        forall|i: int| 0 <= i < r@.len() - 1 ==> path_parent(#[trigger] r@[i]@) == Some(r@[i + 1]@),
        path_parent(r@.last()@) is None,
{
    Path::new(p).ancestors().map(|a| a.to_string_lossy().into_owned()).collect()
}

/// `Path::file_stem`, kept only when it is valid UTF-8 (`OsStr::to_str`).
/// The contract claims only that the result is `path_file_stem` of the argument.
#[verifier::external_body]
pub(crate) fn file_stem_of(p: &str) -> (r: Option<String>)
    ensures
        match r {
            Some(s) => path_file_stem(p@) == Some(s@),
            None => path_file_stem(p@) is None,
        },
{
    Path::new(p).file_stem().and_then(|s| s.to_str()).map(|s| s.to_string())
}

/// `Path::extension`, kept only when it is valid UTF-8 (`OsStr::to_str`).
/// The contract claims only that the result is `path_extension` of the argument.
#[verifier::external_body]
pub(crate) fn extension_of(p: &str) -> (r: Option<String>)
    ensures
        match r {
            Some(s) => path_extension(p@) == Some(s@),
            None => path_extension(p@) is None,
        },
{
    Path::new(p).extension().and_then(|s| s.to_str()).map(|s| s.to_string())
}

/// `Path::with_file_name`: the path with its final component replaced by `name`.
/// The contract claims only that the result is `path_with_file_name` of the arguments.
#[verifier::external_body]
pub(crate) fn with_file_name(p: &str, name: &str) -> (r: String)
    ensures
        r@ == path_with_file_name(p@, name@),
{
    Path::new(p).with_file_name(name).to_string_lossy().into_owned()
}

} // verus!
