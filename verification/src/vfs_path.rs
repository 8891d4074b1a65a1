//! Paths of files that need not be on disk.

use vstd::prelude::*;
use vstd::string::StrSliceExecFns;

verus! {

/// A path that starts with a slash, for a file that is not on disk.
#[derive(Debug, PartialEq, Eq, Hash)]
pub struct VirtualPath(pub String);

/// A path, one pointer wide.
#[derive(Debug, PartialEq, Eq, Hash)]
pub struct VfsPath {
    pub path: Box<VirtualPath>,
}

/// The place of the last `c` among the first `n` characters.
pub open spec fn last_index(s: Seq<char>, c: char, n: nat) -> Option<nat>
    decreases n,
{
    if n == 0 {
        None
    } else if s[n - 1] == c {
        Some((n - 1) as nat)
    } else {
        last_index(s, c, (n - 1) as nat)
    }
}

pub proof fn lemma_last_index(s: Seq<char>, c: char, n: nat)
    requires
        n <= s.len(),
    ensures
        match last_index(s, c, n) {
            Some(i) => i < n && s[i as int] == c && forall|j: int| i < j < n ==> s[j] != c,
            None => forall|j: int| 0 <= j < n ==> s[j] != c,
        },
    decreases n,
{
    if n > 0 && s[n - 1] != c {
        lemma_last_index(s, c, (n - 1) as nat);
    }
}

fn find_last(s: &str, c: char, n: usize) -> (r: Option<usize>)
    requires
        n <= s@.len(),
    ensures
        last_index(s@, c, n as nat) == (match r {
            Some(i) => Some(i as nat),
            None => None,
        }),
        r matches Some(i) ==> i < n,
{
    let mut i: usize = n;
    while i > 0
        invariant
            i <= n <= s@.len(),
            last_index(s@, c, n as nat) == last_index(s@, c, i as nat),
        decreases i,
    {
        if s.get_char(i - 1) == c {
            return Some(i - 1);
        }
        i = i - 1;
    }
    None
}

/// The path without what follows the last slash.
pub open spec fn parent_of(s: Seq<char>) -> Option<Seq<char>> {
    match last_index(s, '/', s.len()) {
        Some(i) => Some(s.take(i as int)),
        None => None,
    }
}

/// Whether a path is another one, or lies in it. A name has to match as a whole.
pub open spec fn is_within(path: Seq<char>, dir: Seq<char>) -> bool {
    &&& dir.len() <= path.len()
    &&& path.take(dir.len() as int) == dir
    &&& dir.len() == path.len() || dir.len() == 0 || dir.last() == '/' || path[dir.len() as int]
        == '/'
}

/// The last name of a path, where one slash at the end does not count.
pub open spec fn file_name(s: Seq<char>) -> Seq<char> {
    let end = if s.len() > 0 && s.last() == '/' {
        (s.len() - 1) as nat
    } else {
        s.len()
    };
    match last_index(s, '/', end) {
        Some(i) => s.subrange(i as int + 1, end as int),
        None => s.take(end as int),
    }
}

/// A name in two parts: the one before the last dot, and the one behind it. A dot in front is part of
/// the name.
pub open spec fn split_name(name: Seq<char>) -> Option<(Seq<char>, Option<Seq<char>>)> {
    if name.len() == 0 {
        None
    } else {
        match last_index(name, '.', name.len()) {
            Some(i) if i > 0 => Some((name.take(i as int), Some(name.skip(i as int + 1)))),
            _ => Some((name, None)),
        }
    }
}

impl View for VirtualPath {
    type V = Seq<char>;

    open spec fn view(&self) -> Seq<char> {
        self.0@
    }
}

impl View for VfsPath {
    type V = Seq<char>;

    open spec fn view(&self) -> Seq<char> {
        self.path.0@
    }
}

fn has_prefix(s: &str, prefix: &str) -> (r: bool)
    ensures
        r == (prefix@.len() <= s@.len() && s@.take(prefix@.len() as int) == prefix@),
{
    let n: usize = prefix.unicode_len();
    if n > s.unicode_len() {
        return false;
    }
    let mut i: usize = 0;
    while i < n
        invariant
            i <= n,
            n == prefix@.len(),
            n <= s@.len(),
            forall|j: int| 0 <= j < i ==> s@[j] == prefix@[j],
        decreases n - i,
    {
        if s.get_char(i) != prefix.get_char(i) {
            assert(s@.take(n as int)[i as int] != prefix@[i as int]);
            return false;
        }
        i = i + 1;
    }
    assert(s@.take(n as int) =~= prefix@);
    true
}

impl VirtualPath {
    pub fn starts_with(&self, other: &VirtualPath) -> (r: bool)
        ensures
            r == is_within(self@, other@),
    {
        let path = self.0.as_str();
        let dir = other.0.as_str();
        if !has_prefix(path, dir) {
            return false;
        }
        let n: usize = dir.unicode_len();
        n == path.unicode_len() || n == 0 || dir.get_char(n - 1) == '/' || path.get_char(n) == '/'
    }

    /// Goes to the directory that the path is in. Says whether there is one.
    pub fn pop(&mut self) -> (r: bool)
        ensures
            match parent_of(old(self)@) {
                Some(p) => r && final(self)@ == p,
                None => !r && final(self)@ == old(self)@,
            },
    {
        let path = self.0.as_str();
        match find_last(path, '/', path.unicode_len()) {
            Some(i) => {
                let parent = path.substring_char(0, i).to_owned();
                assert(self.0@.subrange(0, i as int) =~= self.0@.take(i as int));
                self.0 = parent;
                true
            },
            None => false,
        }
    }

    /// The last name of the path without its extension, and the extension.
    pub fn name_and_extension(&self) -> (r: Option<(&str, Option<&str>)>)
        ensures
            split_name(file_name(self@)) == (match r {
                Some((stem, ext)) => Some(
                    (
                        stem@,
                        match ext {
                            Some(e) => Some(e@),
                            None => None,
                        },
                    ),
                ),
                None => None,
            }),
    {
        let path = self.0.as_str();
        let len: usize = path.unicode_len();
        let end: usize = if len > 0 && path.get_char(len - 1) == '/' {
            len - 1
        } else {
            len
        };
        let start: usize = match find_last(path, '/', end) {
            Some(i) => i + 1,
            None => 0,
        };
        let name = path.substring_char(start, end);
        assert(path@.subrange(0, end as int) =~= path@.take(end as int));
        assert(name@ == file_name(self@));
        let n: usize = name.unicode_len();
        if n == 0 {
            return None;
        }
        match find_last(name, '.', n) {
            Some(i) => {
                if i > 0 {
                    let stem = name.substring_char(0, i);
                    let ext = name.substring_char(i + 1, n);
                    assert(name@.subrange(0, i as int) =~= name@.take(i as int));
                    assert(name@.subrange(i + 1, n as int) =~= name@.skip(i + 1));
                    Some((stem, Some(ext)))
                } else {
                    Some((name, None))
                }
            },
            None => Some((name, None)),
        }
    }
}

impl Clone for VfsPath {
    fn clone(&self) -> (r: VfsPath)
        ensures
            r@ == self@,
    {
        VfsPath { path: Box::new(VirtualPath(self.path.0.clone())) }
    }
}

impl VfsPath {
    /// The path of a file that is not on disk.
    pub fn new_virtual_path(path: String) -> (r: VfsPath)
        requires
            path@.len() > 0,
            path@[0] == '/',
        ensures
            r@ == path@,
    {
        VfsPath { path: Box::new(VirtualPath(path)) }
    }

    pub fn starts_with(&self, other: &VfsPath) -> (r: bool)
        ensures
            r == is_within(self@, other@),
    {
        self.path.starts_with(&other.path)
    }

    /// Goes to the directory that the path is in. Says whether there is one.
    pub fn pop(&mut self) -> (r: bool)
        ensures
            match parent_of(old(self)@) {
                Some(p) => r && final(self)@ == p,
                None => !r && final(self)@ == old(self)@,
            },
    {
        self.path.pop()
    }

    pub fn name_and_extension(&self) -> (r: Option<(&str, Option<&str>)>)
        ensures
            split_name(file_name(self@)) == (match r {
                Some((stem, ext)) => Some(
                    (
                        stem@,
                        match ext {
                            Some(e) => Some(e@),
                            None => None,
                        },
                    ),
                ),
                None => None,
            }),
    {
        self.path.name_and_extension()
    }
}

/// A path lies in the directory that it is in.
pub proof fn paths_lie_in_their_parents(path: Seq<char>)
    requires
        parent_of(path) is Some,
    ensures
        is_within(path, parent_of(path)->0),
        parent_of(path)->0.len() < path.len(),
{
    lemma_last_index(path, '/', path.len());
}

} // verus!
