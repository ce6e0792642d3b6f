//! How a path on one side of a synchronized pair names its counterpart on
//! the other side.
//!
//! Both sides share the part of a path below the pair's roots. A local path
//! is the local root, a slash and that relative part; a remote path is the
//! remote root, a slash and the same relative part, or the relative part
//! alone when the pair is rooted at the top of the remote.

use vstd::prelude::*;
use vstd::string::*;
use crate::text::{chars_of, has_prefix, is_prefix};

verus! {

/// `s` without one trailing slash, if it has one.
pub open spec fn without_trailing_slash(s: Seq<char>) -> Seq<char> {
    if s.len() > 0 && s.last() == '/' {
        s.drop_last()
    } else {
        s
    }
}

/// The part of `path` below `root`: `path` itself under an empty root, what
/// follows `root` and a slash otherwise, and nothing when `path` is not
/// below `root`. One trailing slash is dropped.
pub open spec fn relative_path(root: Seq<char>, path: Seq<char>) -> Option<Seq<char>> {
    if root.len() == 0 {
        Some(without_trailing_slash(path))
    } else if is_prefix(root.push('/'), path) {
        Some(without_trailing_slash(path.skip(root.len() as int + 1)))
    } else {
        None
    }
}

/// The path that lies `relative` below `root`.
pub open spec fn joined_path(root: Seq<char>, relative: Seq<char>) -> Seq<char> {
    if root.len() == 0 {
        relative
    } else {
        root.push('/') + relative
    }
}

/// Computes the part of `path` below `root`.
pub fn relative_to(root: &str, path: &str) -> (r: Option<String>)
    ensures
        r is Some == relative_path(root@, path@) is Some,
        r is Some ==> r->0@ == relative_path(root@, path@)->0,
{
    let root_chars = chars_of(root);
    let path_chars = chars_of(path);
    let n = path_chars.len();
    let mut start: usize = 0;
    if root_chars.len() > 0 {
        if n <= root_chars.len() {
            return None;
        }
        if !has_prefix(&path_chars, &root_chars) {
            assert(!is_prefix(root@.push('/'), path@)) by {
                if is_prefix(root@.push('/'), path@) {
                    assert(path@.take(root@.len() as int) =~= path@.take(root@.len() as int + 1).take(
                        root@.len() as int,
                    ));
                    assert(root@.push('/').take(root@.len() as int) =~= root@);
                }
            }
            return None;
        }
        if path_chars[root_chars.len()] != '/' {
            assert(!is_prefix(root@.push('/'), path@)) by {
                if is_prefix(root@.push('/'), path@) {
                    assert(path@.take(root@.len() as int + 1)[root@.len() as int] == '/');
                }
            }
            return None;
        }
        start = root_chars.len() + 1;
        assert(path@.take(root@.len() as int + 1) =~= root@.push('/')) by {
            assert(path@.take(root@.len() as int) == root@);
            assert forall|j: int| 0 <= j < root@.len() + 1 implies path@.take(root@.len() as int + 1)[j]
                == root@.push('/')[j] by {
                if j < root@.len() {
                    assert(path@.take(root@.len() as int)[j] == root@[j]);
                }
            }
        }
    }
    let mut end: usize = n;
    if n > start && path_chars[n - 1] == '/' {
        end = n - 1;
    }
    let piece = path.substring_char(start, end);
    proof {
        let tail = path@.skip(start as int);
        assert(tail.len() == n - start);
        if n > start {
            assert(tail.last() == path@[n - 1]);
        }
        if end == n {
            assert(path@.subrange(start as int, end as int) =~= without_trailing_slash(tail));
        } else {
            assert(path@.subrange(start as int, end as int) =~= tail.drop_last());
        }
        if root@.len() == 0 {
            assert(tail =~= path@);
        }
    }
    Some(String::from_str(piece))
}

/// Builds the path that lies `relative` below `root`.
pub fn join(root: &str, relative: &str) -> (r: String)
    ensures
        r@ == joined_path(root@, relative@),
{
    if root.unicode_len() == 0 {
        String::from_str(relative)
    } else {
        let mut out = String::from_str(root);
        proof {
            reveal_strlit("/");
        }
        out.append("/");
        out.append(relative);
        assert(out@ =~= root@.push('/') + relative@);
        out
    }
}

/// A relative part that was joined below a root is found again by
/// `relative_path`, provided it does not end in a slash and, under an empty
/// root, so is the path itself.
pub proof fn lemma_relative_of_joined(root: Seq<char>, relative: Seq<char>)
    requires
        relative.len() == 0 || relative.last() != '/',
    ensures
        relative_path(root, joined_path(root, relative)) == Some(relative),
{
    if root.len() > 0 {
        let whole = root.push('/') + relative;
        assert(whole.take(root.len() as int + 1) =~= root.push('/'));
        assert(whole.skip(root.len() as int + 1) =~= relative);
    }
}

/// A path below a root is rebuilt by joining its relative part to the root,
/// provided the path does not end in a slash.
pub proof fn lemma_joined_of_relative(root: Seq<char>, path: Seq<char>)
    requires
        relative_path(root, path) is Some,
        path.len() == 0 || path.last() != '/',
    ensures
        joined_path(root, relative_path(root, path)->0) == path,
{
    if root.len() > 0 {
        let tail = path.skip(root.len() as int + 1);
        if tail.len() > 0 {
            assert(tail.last() == path.last());
        }
        assert(path.take(root.len() as int + 1) + tail =~= path);
    }
}

} // verus!
