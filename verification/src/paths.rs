//! Where repositories are cached, and which directory entries are git metadata.

use vstd::prelude::*;
use crate::text::{push_char, replace_char, replace_char_in};

verus! {

/// The directory, relative to the working directory, under which clones are kept.
pub open spec fn cache_root() -> Seq<char> {
    seq!['c', 'a', 'c', 'h', 'e', '/']
}

/// The name of the cache directory of a repository: `url`, a hyphen and `branch`, with
/// every slash turned into a hyphen.
pub open spec fn cache_name(url: Seq<char>, branch: Seq<char>) -> Seq<char> {
    replace_char(url + seq!['-'] + branch, '/', '-')
}

/// The path of the clone of `url` at `branch`.
pub open spec fn cache_path_of(url: Seq<char>, branch: Seq<char>) -> Seq<char> {
    cache_root() + cache_name(url, branch)
}

/// The path under which the clone of `url` at `branch` is kept: `cache/` followed by the
/// cache name, which holds no slash, so that the clone always lies directly in `cache/`.
pub fn cache_path(url: &str, branch: &str) -> (p: String)
    ensures
        p@ == cache_path_of(url@, branch@),
        !cache_name(url@, branch@).contains('/'),
        p@.len() == url@.len() + branch@.len() + 7,
{
    let mut joined = String::from_str(url);
    push_char(&mut joined, '-');
    joined.append(branch);
    let name = replace_char_in(joined.as_str(), '/', '-');
    let mut p = String::new();
    push_char(&mut p, 'c');
    push_char(&mut p, 'a');
    push_char(&mut p, 'c');
    push_char(&mut p, 'h');
    push_char(&mut p, 'e');
    push_char(&mut p, '/');
    p.append(name.as_str());
    assert(p@ =~= cache_path_of(url@, branch@));
    proof {
        let n = cache_name(url@, branch@);
        if n.contains('/') {
            let k = choose|k: int| 0 <= k < n.len() && n[k] == '/';
            assert(n[k] != '/');
        }
    }
    p
}

} // verus!

verus! {

/// The components of a path, each by its bytes.
pub open spec fn components(path: Seq<Vec<u8>>) -> Seq<Seq<u8>> {
    path.map_values(|c: Vec<u8>| c@)
}

/// The name of the directory in which git keeps a repository's metadata: `.git`.
pub open spec fn git_dir_name() -> Seq<u8> {
    seq![0x2eu8, 0x67u8, 0x69u8, 0x74u8]
}

/// Whether a path, given by its components, lies inside the metadata directory of the
/// repository whose working tree is `source`: its components begin with those of
/// `source` followed by `.git`.
pub open spec fn inside_git_dir(source: Seq<Seq<u8>>, entry: Seq<Seq<u8>>) -> bool {
    let git_dir = source.push(git_dir_name());
    git_dir.len() <= entry.len() && entry.take(git_dir.len() as int) == git_dir
}

fn same_bytes(a: &Vec<u8>, b: &[u8]) -> (r: bool)
    ensures
        r == (a@ == b@),
{
    if a.len() != b.len() {
        return false;
    }
    let mut i: usize = 0;
    while i < a.len()
        invariant
            a@.len() == b@.len(),
            i <= a@.len(),
            forall|j: int| 0 <= j < i ==> a@[j] == b@[j],
        decreases a@.len() - i,
    {
        if a[i] != b[i] {
            return false;
        }
        i = i + 1;
    }
    assert(a@ =~= b@);
    true
}

/// Whether a directory entry found while copying the working tree `source` belongs to
/// its git metadata and is to be left out of the copy. Paths are compared component by
/// component, byte for byte, as `Path::starts_with` does.
pub fn is_git_metadata(source: &Vec<Vec<u8>>, entry: &Vec<Vec<u8>>) -> (r: bool)
    ensures
        r == inside_git_dir(components(source@), components(entry@)),
{
    let n = source.len();
    if entry.len() <= n {
        return false;
    }
    let mut i: usize = 0;
    while i < n
        invariant
            n == source@.len(),
            n + 1 <= entry@.len(),
            i <= n,
            forall|j: int| 0 <= j < i ==> #[trigger] source@[j]@ == entry@[j]@,
        decreases n - i,
    {
        if !same_bytes(&source[i], entry[i].as_slice()) {
            assert(components(entry@).take(n + 1)[i as int] != components(source@).push(git_dir_name())[i as int]);
            return false;
        }
        i = i + 1;
    }
    let git: [u8; 4] = [0x2e, 0x67, 0x69, 0x74];
    assert(git@ =~= git_dir_name());
    let r = same_bytes(&entry[n], git.as_slice());
    let ghost gd = components(source@).push(git_dir_name());
    if r {
        assert forall|j: int| 0 <= j < n + 1 implies #[trigger] components(entry@).take(n + 1)[j] == gd[j] by {
            if j < n {
                assert(source@[j]@ == entry@[j]@);
            }
        }
        assert(components(entry@).take(n + 1) =~= gd);
    } else {
        assert(components(entry@).take(n + 1)[n as int] != gd[n as int]);
    }
    r
}

} // verus!
