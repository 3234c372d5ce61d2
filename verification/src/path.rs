//! Joining module paths, component by component.
use vstd::prelude::*;
use std::path::{Component, PathBuf};
use crate::text::to_owned_string;

verus! {

/// One component of a path.
pub enum PathPart {
    Normal(String),
    ParentDir,
    CurDir,
    Prefix,
    RootDir,
}

/// The mathematical value of a path component.
pub enum PartView {
    Normal(Seq<char>),
    ParentDir,
    CurDir,
    Prefix,
    RootDir,
}

impl View for PathPart {
    type V = PartView;

    open spec fn view(&self) -> PartView {
        match self {
            PathPart::Normal(s) => PartView::Normal(s@),
            PathPart::ParentDir => PartView::ParentDir,
            PathPart::CurDir => PartView::CurDir,
            PathPart::Prefix => PartView::Prefix,
            PathPart::RootDir => PartView::RootDir,
        }
    }
}

/// The path `p` without its last component (std `PathBuf::pop`).
pub uninterp spec fn popped(p: Seq<char>) -> Seq<char>;

/// The path `p` extended by `part` (std `PathBuf::push`).
pub uninterp spec fn pushed(p: Seq<char>, part: Seq<char>) -> Seq<char>;

/// The components of the path `p` (std `Path::components`).
pub uninterp spec fn components(p: Seq<char>) -> Seq<PartView>;

/// The views of a list of components.
pub open spec fn part_views(v: Seq<PathPart>) -> Seq<PartView>
    decreases v.len(),
{
    if v.len() == 0 {
        Seq::empty()
    } else {
        part_views(v.drop_last()).push(v.last()@)
    }
}

/// `start` after each component of `parts` in turn: a normal component is
/// pushed, a parent-directory component pops, the others change nothing.
pub open spec fn apply_parts(start: Seq<char>, parts: Seq<PartView>) -> Seq<char>
    decreases parts.len(),
{
    if parts.len() == 0 {
        start
    } else {
        let prev = apply_parts(start, parts.drop_last());
        match parts.last() {
            PartView::Normal(n) => pushed(prev, n),
            PartView::ParentDir => popped(prev),
            _ => prev,
        }
    }
}

/// Joining in steps is joining at once: applying the components `p1` and
/// then `p2` is applying `p1` followed by `p2`.
pub proof fn lemma_apply_parts_concat(start: Seq<char>, p1: Seq<PartView>, p2: Seq<PartView>)
    ensures
        apply_parts(apply_parts(start, p1), p2) == apply_parts(start, p1 + p2),
    decreases p2.len(),
{
    if p2.len() == 0 {
        assert(p1 + p2 =~= p1);
    } else {
        lemma_apply_parts_concat(start, p1, p2.drop_last());
        assert((p1 + p2).drop_last() =~= p1 + p2.drop_last());
        assert((p1 + p2).last() == p2.last());
    }
}

/// `path1` (without its file name when `remove_filename`) followed by the
/// components of `path2`.
pub open spec fn joined(path1: Seq<char>, path2: Seq<char>, remove_filename: bool) -> Seq<char> {
    apply_parts(
        if remove_filename {
            popped(path1)
        } else {
            path1
        },
        components(path2),
    )
}

/// The path without its last component (std `PathBuf::pop`).
#[verifier::external_body]
fn pop_path(p: &str) -> (r: String)
    ensures
        r@ == popped(p@),
{
    let mut buf = PathBuf::from(p);
    buf.pop();
    buf.display().to_string()
}

/// The path extended by one component (std `PathBuf::push`).
#[verifier::external_body]
fn push_path(p: &str, part: &str) -> (r: String)
    ensures
        r@ == pushed(p@, part@),
{
    let mut buf = PathBuf::from(p);
    buf.push(part);
    buf.display().to_string()
}

/// The components of a path (std `Path::components`).
#[verifier::external_body]
fn path_components(p: &str) -> (r: Vec<PathPart>)
    ensures
        part_views(r@) == components(p@),
{
    PathBuf::from(p).components().map(
        |c| match c {
            Component::Normal(s) => PathPart::Normal(s.to_string_lossy().into_owned()),
            Component::ParentDir => PathPart::ParentDir,
            Component::CurDir => PathPart::CurDir,
            Component::Prefix(_) => PathPart::Prefix,
            Component::RootDir => PathPart::RootDir,
        },
    ).collect()
}

/// Applies the components `parts` to the path `start` (see [`apply_parts`]).
pub fn apply_path_parts(start: String, parts: &Vec<PathPart>) -> (r: String)
    ensures
        r@ == apply_parts(start@, part_views(parts@)),
{
    let mut cur = start;
    let mut i: usize = 0;
    assert(parts@.take(0) =~= Seq::<PathPart>::empty());
    while i < parts.len()
        invariant
            i <= parts.len(),
            cur@ == apply_parts(start@, part_views(parts@.take(i as int))),
        decreases parts.len() - i,
    {
        let ghost before = part_views(parts@.take(i as int));
        assert(parts@.take(i + 1).drop_last() =~= parts@.take(i as int));
        assert(part_views(parts@.take(i + 1)) == before.push(parts@[i as int]@));
        assert(before.push(parts@[i as int]@).drop_last() =~= before);
        match &parts[i] {
            PathPart::Normal(p) => {
                cur = push_path(cur.as_str(), p.as_str());
            },
            PathPart::ParentDir => {
                cur = pop_path(cur.as_str());
            },
            _ => {},
        }
        i = i + 1;
    }
    assert(parts@.take(parts.len() as int) =~= parts@);
    cur
}

/// `path1` (without its file name when `remove_filename`) joined with the
/// components of `path2` (see [`joined`]).
pub fn join_paths(path1: &str, path2: &str, remove_filename: bool) -> (r: String)
    ensures
        r@ == joined(path1@, path2@, remove_filename),
{
    let start = if remove_filename {
        pop_path(path1)
    } else {
        to_owned_string(path1)
    };
    let parts = path_components(path2);
    apply_path_parts(start, &parts)
}

/// `path2` resolved against the directory of the file `path`.
pub fn file_dir_and_join(path: &str, path2: &str) -> (r: String)
    ensures
        r@ == joined(path@, path2@, true),
{
    join_paths(path, path2, true)
}

} // verus!
