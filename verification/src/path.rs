//! File paths as sequences of components.

use vstd::prelude::*;

verus! {

/// One component of a path.
#[derive(Debug)]
pub enum PathPart {
    /// A drive or share, on systems that have them.
    Prefix(String),
    /// The root of the file system, or of the prefix before it.
    RootDir,
    /// The directory itself.
    CurDir,
    /// The directory above.
    ParentDir,
    /// A file or directory name.
    Normal(String),
}

/// The value of a [`PathPart`].
pub enum PathPartView {
    Prefix(Seq<char>),
    RootDir,
    CurDir,
    ParentDir,
    Normal(Seq<char>),
}

impl View for PathPart {
    type V = PathPartView;

    open spec fn view(&self) -> PathPartView {
        match self {
            PathPart::Prefix(text) => PathPartView::Prefix(text@),
            PathPart::RootDir => PathPartView::RootDir,
            PathPart::CurDir => PathPartView::CurDir,
            PathPart::ParentDir => PathPartView::ParentDir,
            PathPart::Normal(text) => PathPartView::Normal(text@),
        }
    }
}

impl Clone for PathPart {
    fn clone(&self) -> (copy: Self)
        ensures
            copy@ == self@,
    {
        match self {
            PathPart::Prefix(text) => PathPart::Prefix(text.clone()),
            PathPart::RootDir => PathPart::RootDir,
            PathPart::CurDir => PathPart::CurDir,
            PathPart::ParentDir => PathPart::ParentDir,
            PathPart::Normal(text) => PathPart::Normal(text.clone()),
        }
    }
}

/// The values of the components of a path.
pub open spec fn parts_view(parts: Seq<PathPart>) -> Seq<PathPartView> {
    parts.map_values(|p: PathPart| p@)
}

/// The path with its file name replaced by `name`; the name is appended where the path ends in
/// no file name.
pub open spec fn named(parts: Seq<PathPartView>, name: Seq<char>) -> Seq<PathPartView> {
    if parts.len() > 0 && parts.last() is Normal {
        parts.drop_last().push(PathPartView::Normal(name))
    } else {
        parts.push(PathPartView::Normal(name))
    }
}

/// The path with its file name replaced by `name`; the name is appended where the path ends in
/// no file name.
pub fn with_file_name(parts: &Vec<PathPart>, name: &str) -> (path: Vec<PathPart>)
    ensures
        parts_view(path@) == named(parts_view(parts@), name@),
{
    let replaces = parts.len() > 0 && match &parts[parts.len() - 1] {
        PathPart::Normal(_) => true,
        _ => false,
    };
    let kept: usize = if replaces {
        parts.len() - 1
    } else {
        parts.len()
    };
    let mut path: Vec<PathPart> = Vec::new();
    let mut i: usize = 0;
    while i < kept
        invariant
            kept <= parts@.len(),
            i <= kept,
            path@.len() == i,
            forall|k: int| 0 <= k < i ==> (#[trigger] path@[k])@ == parts@[k]@,
        decreases kept - i,
    {
        path.push(parts[i].clone());
        i = i + 1;
    }
    let ghost done = path@;
    assert(parts_view(done) =~= parts_view(parts@).take(kept as int));
    path.push(PathPart::Normal(name.to_string()));
    assert(parts_view(path@) =~= parts_view(done).push(PathPartView::Normal(name@)));
    assert(parts_view(parts@).take(kept as int) =~= if replaces {
        parts_view(parts@).drop_last()
    } else {
        parts_view(parts@)
    });
    path
}

} // verus!
