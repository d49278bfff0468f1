//! Paths as the kernel hands them out: runs of bytes with `/` between the
//! names.
//!
//! Two paths are compared name by name, never byte by byte: `/a/b` is an
//! ancestor of `/a/b/c`, but not of `/a/bc`.
use crate::text::{
    decimal_text, is_byte, lemma_first_stop_unique, lemma_split_around_stop, push_all,
    spec_decimal_text, spec_first_stop, spec_split,
};
use vstd::prelude::*;
use vstd::string::StringSliceAdditionalSpecFns;

verus! {

/// The byte between the names of a path.
pub const SEPARATOR: u8 = 0x2f;

/// The byte of the name `.`, which stands for the directory itself.
pub const DOT: u8 = 0x2e;

/// Whether `path` starts at the root.
pub open spec fn spec_is_rooted(path: Seq<u8>) -> bool {
    path.len() > 0 && path[0] == SEPARATOR
}

/// Whether `path` is not rooted and starts with the name `.`.
pub open spec fn spec_starts_at_dot(path: Seq<u8>) -> bool {
    path.len() > 0 && path[0] == DOT && (path.len() == 1 || path[1] == SEPARATOR)
}

/// Whether a piece between two separators is a name of its own: it is not
/// empty and it is not `.`.
pub open spec fn spec_is_name(piece: Seq<u8>) -> bool {
    piece.len() > 0 && piece != seq![DOT]
}

/// The names of `path`, in order: what lies between its separators, without
/// the empty pieces and the pieces `.`.
pub open spec fn spec_names(path: Seq<u8>) -> Seq<Seq<u8>> {
    spec_split(path, is_byte(SEPARATOR)).filter(|piece: Seq<u8>| spec_is_name(piece))
}

/// The components of `path`: a `/` first where the path is rooted, a `.` first
/// where it starts with that name, and then its names. A name never equals `/`
/// or `.`, so the two marks cannot be taken for names.
pub open spec fn spec_components(path: Seq<u8>) -> Seq<Seq<u8>> {
    if spec_is_rooted(path) {
        seq![seq![SEPARATOR]] + spec_names(path)
    } else if spec_starts_at_dot(path) {
        seq![seq![DOT]] + spec_names(path)
    } else {
        spec_names(path)
    }
}

/// Whether `path` is `base` or lies below it: the components of `base` are the
/// first components of `path`.
pub open spec fn spec_starts_with(path: Seq<u8>, base: Seq<u8>) -> bool {
    spec_components(base).is_prefix_of(spec_components(path))
}

/// Whether `path` is one of `bases` or lies below one of them.
pub open spec fn spec_under_any(path: Seq<u8>, bases: Seq<Seq<u8>>) -> bool {
    exists|i: int| 0 <= i < bases.len() && spec_starts_with(path, #[trigger] bases[i])
}

/// The contents of `paths`, in order.
pub open spec fn spec_paths(paths: Seq<Vec<u8>>) -> Seq<Seq<u8>> {
    paths.map_values(|path: Vec<u8>| path@)
}

/// The first position of a separator in `path`.
fn find_separator(path: &[u8]) -> (found: Option<usize>)
    ensures
        match found {
            Some(at) => at < path@.len() && spec_first_stop(path@, is_byte(SEPARATOR)) == at,
            None => spec_first_stop(path@, is_byte(SEPARATOR)) == path@.len(),
        },
{
    let mut i: usize = 0;
    while i < path.len()
        invariant
            i <= path@.len(),
            forall|j: int| 0 <= j < i ==> !is_byte(SEPARATOR)(#[trigger] path@[j]),
        decreases path@.len() - i,
    {
        if path[i] == SEPARATOR {
            proof {
                lemma_first_stop_unique(path@, is_byte(SEPARATOR), i as int);
            }
            return Some(i);
        }
        i += 1;
    }
    proof {
        lemma_first_stop_unique(path@, is_byte(SEPARATOR), path@.len() as int);
    }
    None
}

/// Whether two runs of bytes are the same.
fn bytes_eq(a: &[u8], b: &[u8]) -> (same: bool)
    ensures
        same == (a@ == b@),
{
    if a.len() != b.len() {
        return false;
    }
    let mut i: usize = 0;
    while i < a.len()
        invariant
            a@.len() == b@.len(),
            i <= a@.len(),
            forall|j: int| 0 <= j < i ==> a@[j] == b@[j],
        decreases a@.len() - i,
    {
        if a[i] != b[i] {
            return false;
        }
        i += 1;
    }
    assert(a@ =~= b@);
    true
}

/// The components of `path`, in order.
pub fn components(path: &[u8]) -> (parts: Vec<Vec<u8>>)
    ensures
        spec_paths(parts@) == spec_components(path@),
{
    let mut parts: Vec<Vec<u8>> = Vec::new();
    if path.len() > 0 && path[0] == SEPARATOR {
        let mut mark: Vec<u8> = Vec::new();
        mark.push(SEPARATOR);
        assert(mark@ =~= seq![SEPARATOR]);
        parts.push(mark);
    } else if path.len() > 0 && path[0] == DOT && (path.len() == 1 || path[1] == SEPARATOR) {
        let mut mark: Vec<u8> = Vec::new();
        mark.push(DOT);
        assert(mark@ =~= seq![DOT]);
        parts.push(mark);
    }
    let ghost marks = spec_paths(parts@);
    let ghost is_name = |piece: Seq<u8>| spec_is_name(piece);
    let ghost whole = spec_split(path@, is_byte(SEPARATOR));
    let ghost mut done: Seq<Seq<u8>> = Seq::empty();
    let mut start: usize = 0;
    proof {
        assert(path@.skip(0) =~= path@);
        assert(done + whole =~= whole);
        assert(done.filter(is_name) =~= Seq::<Seq<u8>>::empty());
        assert(marks + done.filter(is_name) =~= marks);
        assert(spec_components(path@) =~= marks + whole.filter(is_name));
    }
    loop
        invariant
            start <= path@.len(),
            is_name == (|piece: Seq<u8>| spec_is_name(piece)),
            whole == spec_split(path@, is_byte(SEPARATOR)),
            whole == done + spec_split(path@.skip(start as int), is_byte(SEPARATOR)),
            spec_paths(parts@) == marks + done.filter(is_name),
            spec_components(path@) == marks + whole.filter(is_name),
        decreases path@.len() - start,
    {
        let rest = vstd::slice::slice_subrange(path, start, path.len());
        let (end, more) = match find_separator(rest) {
            Some(at) => (start + at, true),
            None => (path.len(), false),
        };
        let piece = vstd::slice::slice_subrange(path, start, end);
        let ghost next = if more {
            spec_split(path@.skip(end + 1), is_byte(SEPARATOR))
        } else {
            Seq::empty()
        };
        proof {
            let tail = path@.skip(start as int);
            assert(rest@ =~= tail);
            assert(piece@ =~= tail.take(end - start));
            if more {
                assert(tail.skip(end - start + 1) =~= path@.skip(end + 1));
            } else {
                assert(piece@ =~= tail);
            }
            assert(spec_split(tail, is_byte(SEPARATOR)) == seq![piece@] + next);
            assert(whole =~= done.push(piece@) + next);
            done.lemma_filter_push(piece@, is_name);
        }
        let named = piece.len() > 0 && !(piece.len() == 1 && piece[0] == DOT);
        proof {
            if piece@.len() == 1 && piece@[0] == DOT {
                assert(piece@ =~= seq![DOT]);
            }
            assert(named == spec_is_name(piece@));
        }
        if named {
            let ghost before = parts@;
            let copy = vstd::slice::slice_to_vec(piece);
            parts.push(copy);
            proof {
                assert(spec_paths(parts@) =~= spec_paths(before).push(piece@));
                assert(marks + done.filter(is_name).push(piece@) =~= (marks + done.filter(
                    is_name,
                )).push(piece@));
            }
        }
        proof {
            done = done.push(piece@);
        }
        if !more {
            proof {
                assert(whole =~= done);
            }
            return parts;
        }
        start = end + 1;
    }
}

/// Whether `path` is `base` or lies below it, compared name by name.
pub fn starts_with(path: &[u8], base: &[u8]) -> (below: bool)
    ensures
        below == spec_starts_with(path@, base@),
{
    let ours = components(path);
    let theirs = components(base);
    let ghost long = spec_components(path@);
    let ghost short = spec_components(base@);
    if theirs.len() > ours.len() {
        return false;
    }
    let mut i: usize = 0;
    while i < theirs.len()
        invariant
            i <= theirs@.len() <= ours@.len(),
            long == spec_paths(ours@),
            short == spec_paths(theirs@),
            long == spec_components(path@),
            short == spec_components(base@),
            forall|j: int| 0 <= j < i ==> long[j] == short[j],
        decreases theirs@.len() - i,
    {
        if !bytes_eq(ours[i].as_slice(), theirs[i].as_slice()) {
            proof {
                assert(long[i as int] == ours@[i as int]@);
                assert(short[i as int] == theirs@[i as int]@);
                assert(long.subrange(0, short.len() as int)[i as int] == long[i as int]);
            }
            return false;
        }
        i += 1;
    }
    assert(long.subrange(0, short.len() as int) =~= short);
    true
}

/// Whether `path` is one of `bases` or lies below one of them.
pub fn under_any(path: &[u8], bases: &Vec<Vec<u8>>) -> (below: bool)
    ensures
        below == spec_under_any(path@, spec_paths(bases@)),
{
    let mut i: usize = 0;
    while i < bases.len()
        invariant
            i <= bases@.len(),
            forall|j: int| 0 <= j < i ==> !spec_starts_with(path@, #[trigger] spec_paths(bases@)[j]),
        decreases bases@.len() - i,
    {
        if starts_with(path, bases[i].as_slice()) {
            assert(spec_starts_with(path@, spec_paths(bases@)[i as int]));
            return true;
        }
        i += 1;
    }
    false
}

/// The link that names the file behind the descriptor `fd` of this process.
pub open spec fn spec_descriptor_link(fd: i32) -> Seq<u8> {
    "/proc/self/fd/".spec_bytes() + spec_decimal_text(fd as int)
}

/// The link that names the root directory of the process `pid`.
pub open spec fn spec_namespace_root(pid: u32) -> Seq<u8> {
    "/proc/".spec_bytes() + spec_decimal_text(pid as int) + "/root".spec_bytes()
}

/// The link that names the file behind the descriptor `fd` of this process.
/// Reading it resolves the descriptor to a path.
pub fn descriptor_link(fd: i32) -> (link: Vec<u8>)
    ensures
        link@ == spec_descriptor_link(fd),
{
    let mut link: Vec<u8> = Vec::new();
    push_all(&mut link, "/proc/self/fd/".as_bytes());
    let number = decimal_text(fd as i64);
    push_all(&mut link, number.as_slice());
    link
}

/// The link that names the root directory of the process `pid`. Paths in the
/// namespace of that process are meant relative to it.
pub fn namespace_root(pid: u32) -> (link: Vec<u8>)
    ensures
        link@ == spec_namespace_root(pid),
{
    let mut link: Vec<u8> = Vec::new();
    push_all(&mut link, "/proc/".as_bytes());
    let number = decimal_text(pid as i64);
    push_all(&mut link, number.as_slice());
    push_all(&mut link, "/root".as_bytes());
    link
}

/// A path lies below itself.
pub proof fn lemma_starts_with_itself(path: Seq<u8>)
    ensures
        spec_starts_with(path, path),
{
    let parts = spec_components(path);
    assert(parts.subrange(0, parts.len() as int) =~= parts);
}

/// What is named behind a path and a separator lies below that path.
pub proof fn lemma_starts_with_parent(base: Seq<u8>, rest: Seq<u8>)
    ensures
        spec_starts_with(base + seq![SEPARATOR] + rest, base),
{
    let whole = base + seq![SEPARATOR] + rest;
    let is_name = |piece: Seq<u8>| spec_is_name(piece);
    let head = spec_split(base, is_byte(SEPARATOR));
    let tail = spec_split(rest, is_byte(SEPARATOR));
    lemma_split_around_stop(base, SEPARATOR, rest, is_byte(SEPARATOR));
    Seq::filter_distributes_over_add(head, tail, is_name);
    assert(spec_names(whole) == spec_names(base) + spec_names(rest));
    if base.len() == 0 {
        let none = Seq::<Seq<u8>>::empty();
        assert(head =~= none.push(base));
        none.lemma_filter_push(base, is_name);
        assert(none.filter(is_name) =~= none) by {
            reveal(Seq::filter);
        }
        assert(spec_components(base) =~= Seq::<Seq<u8>>::empty());
        assert(spec_components(whole).subrange(0, 0) =~= spec_components(base));
    } else {
        assert(whole[0] == base[0]);
        if base.len() == 1 {
            assert(whole[1] == SEPARATOR);
        } else {
            assert(whole[1] == base[1]);
        }
        assert(spec_components(whole) =~= spec_components(base) + spec_names(rest));
        assert(spec_components(whole).subrange(0, spec_components(base).len() as int)
            =~= spec_components(base));
    }
}

} // verus!
