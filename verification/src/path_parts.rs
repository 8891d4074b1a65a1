//! What the parts of a path are, told by how they make up the path.

use crate::vfs_path;
use crate::vfs_path::lemma_last_index;
use vstd::prelude::*;

verus! {

/// A path is the directory that it is in, a slash, and a name without slashes. A path without a slash
/// is in no directory.
pub proof fn paths_are_made_of_parent_and_name(path: Seq<char>)
    ensures
        match vfs_path::parent_of(path) {
            Some(parent) => exists|name: Seq<char>|
                path == parent.push('/') + name && !(#[trigger] name.contains('/')),
            None => !path.contains('/'),
        },
{
    lemma_last_index(path, '/', path.len());
    if let Some(parent) = vfs_path::parent_of(path) {
        let i = parent.len() as int;
        let name = path.skip(i + 1);
        assert(path =~= parent.push('/') + name);
        assert(!name.contains('/')) by {
            if name.contains('/') {
                let k = choose|k: int| 0 <= k < name.len() && name[k] == '/';
                assert(path[i + 1 + k] == '/');
            }
        }
    }
}

/// A path starts with another if the rest of it is empty or starts a new name.
pub proof fn paths_start_with_whole_names(dir: Seq<char>, rest: Seq<char>)
    ensures
        vfs_path::is_within(dir + rest, dir) <==> (rest.len() == 0 || dir.len() == 0 || dir.last()
            == '/' || rest[0] == '/'),
{
    assert((dir + rest).take(dir.len() as int) =~= dir);
}

/// A path does not start with what is not its beginning.
pub proof fn paths_start_with_their_beginnings(path: Seq<char>, dir: Seq<char>)
    requires
        vfs_path::is_within(path, dir),
    ensures
        exists|rest: Seq<char>| path == #[trigger] (dir + rest),
{
    let rest = path.skip(dir.len() as int);
    assert(path =~= dir + rest);
}

/// The last name of a path stands behind the last slash, where one slash at the end does not count.
pub proof fn last_names_stand_behind_the_last_slash(front: Seq<char>, name: Seq<char>)
    requires
        !name.contains('/'),
        name.len() > 0,
    ensures
        vfs_path::file_name(front.push('/') + name) == name,
        vfs_path::file_name((front.push('/') + name).push('/')) == name,
        vfs_path::file_name(name) == name,
        vfs_path::file_name(name.push('/')) == name,
{
    let path = front.push('/') + name;
    let n = front.len() as int;
    assert forall|k: int| 0 <= k < name.len() implies #[trigger] name[k] != '/' by {
        if name[k] == '/' {
            assert(name.contains('/'));
        }
    }
    assert(path[n] == '/');
    assert forall|k: int| n < k < path.len() implies #[trigger] path[k] != '/' by {
        assert(path[k] == name[k - n - 1]);
    }
    assert(path.last() == name.last());
    assert(name.last() == name[name.len() - 1]);
    lemma_last_index(path, '/', path.len());
    assert(path.subrange(n + 1, path.len() as int) =~= name);
    let longer = path.push('/');
    lemma_last_index(longer, '/', path.len());
    assert forall|k: int| n < k < path.len() implies #[trigger] longer[k] != '/' by {
        assert(longer[k] == path[k]);
    }
    assert(longer[n] == '/');
    assert(longer.subrange(n + 1, path.len() as int) =~= name);
    lemma_last_index(name, '/', name.len());
    assert(name.take(name.len() as int) =~= name);
    let closed = name.push('/');
    lemma_last_index(closed, '/', name.len());
    assert forall|k: int| 0 <= k < name.len() implies #[trigger] closed[k] != '/' by {
        assert(closed[k] == name[k]);
    }
    assert(closed.take(name.len() as int) =~= name);
}

/// A name is split at its last dot, into a part that is not empty and an extension without a dot.
pub proof fn names_are_split_at_the_last_dot(stem: Seq<char>, ext: Seq<char>)
    requires
        stem.len() > 0,
        !ext.contains('.'),
    ensures
        vfs_path::split_name(stem.push('.') + ext) == Some((stem, Some(ext))),
{
    let name = stem.push('.') + ext;
    let n = stem.len() as int;
    lemma_last_index(name, '.', name.len());
    assert(name[n] == '.');
    assert forall|k: int| n < k < name.len() implies #[trigger] name[k] != '.' by {
        if name[k] == '.' {
            assert(ext[k - n - 1] == '.');
            assert(ext.contains('.'));
        }
    }
    assert(name.take(n) =~= stem);
    assert(name.skip(n + 1) =~= ext);
}

/// A name without a dot, or with one only in front, has no extension. Nothing has no name.
pub proof fn names_without_a_dot_have_no_extension(name: Seq<char>)
    requires
        forall|k: int| 0 < k < name.len() ==> #[trigger] name[k] != '.',
    ensures
        name.len() > 0 ==> vfs_path::split_name(name) == Some((name, None::<Seq<char>>)),
        name.len() == 0 ==> vfs_path::split_name(name) is None,
{
    lemma_last_index(name, '.', name.len());
}

} // verus!
