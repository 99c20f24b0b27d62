use vstd::prelude::*;
use crate::text::{char_views, chars_of, join_chars, join_with, lemma_join_split, lemma_split_len, split_chars, split_on, string_of};

verus! {

/// The label of a directory entry in the file list: its file name, with a
/// trailing '/' when it is a directory.
pub fn get_entry_name(file_name: &str, is_dir: bool) -> (r: String)
    ensures
        r@ == (if is_dir { file_name@.push('/') } else { file_name@ }),
{
    let mut v = chars_of(file_name);
    if is_dir {
        v.push('/');
    }
    string_of(v.as_slice())
}

/// The path without its last two '/'-separated pieces (and the '/' before them).
pub open spec fn last_dir(path: Seq<char>) -> Seq<char> {
    join_with(split_on(path, '/').take(split_on(path, '/').len() - 2), '/')
}

/// The path with its last two '/'-separated pieces removed: for an entry
/// `/home/user/file` of directory `/home/user` this is `/home`. The path must
/// hold a '/'.
pub fn get_last_dir(path: &str) -> (r: String)
    requires
        path@.contains('/'),
    ensures
        r@ == last_dir(path@),
{
    let chars = chars_of(path);
    let mut pieces = split_chars(&chars, '/');
    proof {
        lemma_split_len(path@, '/');
    }
    let n = pieces.len();
    pieces.truncate(n - 2);
    assert(char_views(pieces@) =~= split_on(path@, '/').take(n - 2));
    let joined = join_chars(pieces.as_slice(), '/');
    string_of(joined.as_slice())
}


/// The path is the parent result, then (when there are more than two
/// pieces) a '/', then the second-to-last piece, a '/', and the last piece:
/// exactly the last two pieces and the '/' before each are removed.
pub proof fn law_last_dir(path: Seq<char>)
    requires
        path.contains('/'),
    ensures
        ({
            let ps = split_on(path, '/');
            let n = ps.len();
            &&& n >= 2
            &&& path == (if n > 2 {
                last_dir(path).push('/')
            } else {
                last_dir(path)
            }) + ps[n - 2].push('/') + ps[n - 1]
            &&& n == 2 ==> last_dir(path) == Seq::<char>::empty()
        }),
{
    lemma_split_len(path, '/');
    lemma_join_split(path, '/');
    let ps = split_on(path, '/');
    let n = ps.len();
    let a = ps.drop_last();
    assert(join_with(ps, '/') == join_with(a, '/').push('/') + ps[n - 1]);
    if n == 2 {
        assert(join_with(a, '/') == ps[0]);
        assert(ps.take(0) =~= Seq::<Seq<char>>::empty());
        assert(path =~= last_dir(path) + ps[n - 2].push('/') + ps[n - 1]);
    } else {
        assert(a.drop_last() =~= ps.take(n - 2));
        assert(join_with(a, '/') == join_with(a.drop_last(), '/').push('/') + a.last());
        assert(path =~= last_dir(path).push('/') + ps[n - 2].push('/') + ps[n - 1]);
    }
}

} // verus!
