//! Paths written as text, taken apart and put together the way
//! `std::path::Path` does: a path's file name and parent, joining a name onto
//! a path, and the extension of a file name.
use vstd::prelude::*;

verus! {

/// What `Path::file_name` gives for the path written `path`.
pub uninterp spec fn file_name_of(path: Seq<char>) -> Option<Seq<char>>;

/// What `Path::parent` gives for the path written `path`.
pub uninterp spec fn parent_of(path: Seq<char>) -> Option<Seq<char>>;

/// What `PathBuf::push` makes of the path `base` and the name `name`.
pub uninterp spec fn joined(base: Seq<char>, name: Seq<char>) -> Seq<char>;

/// The final component of `path` (`Path::file_name`), as text. Claimed: the
/// result is [`file_name_of`] the path.
#[verifier::external_body]
pub(crate) fn file_name(path: &str) -> (name: Option<String>)
    ensures
        match name {
            Some(n) => file_name_of(path@) == Some(n@),
            None => file_name_of(path@) is None,
        },
{
    std::path::Path::new(path).file_name().map(|n| n.to_string_lossy().into_owned())
}

/// `path` without its final component (`Path::parent`), as text. Claimed: the
/// result is [`parent_of`] the path.
#[verifier::external_body]
pub(crate) fn parent(path: &str) -> (dir: Option<String>)
    ensures
        match dir {
            Some(d) => parent_of(path@) == Some(d@),
            None => parent_of(path@) is None,
        },
{
    std::path::Path::new(path).parent().map(|d| d.to_string_lossy().into_owned())
}

/// `base` with `name` pushed onto it (`PathBuf::push`), as text. Claimed: the
/// result is [`joined`] of the two.
#[verifier::external_body]
pub(crate) fn join(base: &str, name: &str) -> (path: String)
    ensures
        path@ == joined(base@, name@),
{
    let mut p = std::path::PathBuf::from(base);
    p.push(name);
    p.to_string_lossy().into_owned()
}

/// The place of the last dot in `name`, or -1 where it has none.
pub open spec fn last_dot_index(name: Seq<char>) -> int
    decreases name.len(),
{
    if name.len() == 0 {
        -1
    } else if name.last() == '.' {
        name.len() - 1
    } else {
        last_dot_index(name.drop_last())
    }
}

/// The last dot lies within the name, and nothing after it is a dot.
pub proof fn lemma_last_dot(name: Seq<char>)
    ensures
        -1 <= last_dot_index(name) < name.len(),
        last_dot_index(name) >= 0 ==> name[last_dot_index(name)] == '.',
        forall|k: int| last_dot_index(name) < k < name.len() ==> name[k] != '.',
    decreases name.len(),
{
    if name.len() > 0 && name.last() != '.' {
        let rest = name.drop_last();
        lemma_last_dot(rest);
        assert forall|k: int| last_dot_index(name) < k < name.len() implies name[k] != '.' by {
            if k < name.len() - 1 {
                assert(name[k] == rest[k]);
            }
        }
    }
}

/// The extension of a file name, as `Path::extension` documents it: none
/// where the name has no dot, or only a leading one; otherwise what follows
/// the last dot.
pub open spec fn name_extension(name: Seq<char>) -> Option<Seq<char>> {
    let i = last_dot_index(name);
    if i > 0 {
        Some(name.subrange(i + 1, name.len() as int))
    } else {
        None
    }
}

/// The extension of the path written `path`.
pub open spec fn extension_of(path: Seq<char>) -> Option<Seq<char>> {
    match file_name_of(path) {
        Some(name) => name_extension(name),
        None => None,
    }
}

/// The extension of a file name, as [`name_extension`] gives it.
pub fn extension_of_name(name: &str) -> (ext: Option<String>)
    ensures
        match ext {
            Some(e) => name_extension(name@) == Some(e@),
            None => name_extension(name@) is None,
        },
{
    let n = name.unicode_len();
    let mut i = n;
    assert(name@.subrange(0, n as int) =~= name@);
    while i > 0
        invariant
            n == name@.len(),
            i <= n,
            last_dot_index(name@) == last_dot_index(name@.subrange(0, i as int)),
        decreases i,
    {
        let ghost pre = name@.subrange(0, i as int);
        assert(pre.drop_last() =~= name@.subrange(0, i as int - 1));
        if name.get_char(i - 1) == '.' {
            if i == 1 {
                return None;
            }
            return Some(name.substring_char(i, n).to_owned());
        }
        i -= 1;
    }
    None
}

/// The extension of the path written `path` (`Path::extension`): that of its
/// file name.
pub fn extension(path: &str) -> (ext: Option<String>)
    ensures
        match ext {
            Some(e) => extension_of(path@) == Some(e@),
            None => extension_of(path@) is None,
        },
{
    match file_name(path) {
        Some(name) => extension_of_name(name.as_str()),
        None => None,
    }
}

/// A file name with an extension is a non-empty stem, a dot and the
/// extension, and the extension holds no dot.
pub proof fn lemma_extension_splits_name(name: Seq<char>)
    ensures
        name_extension(name) matches Some(ext) ==> {
            let stem = name.subrange(0, name.len() - ext.len() - 1);
            &&& stem.len() > 0
            &&& name == stem + seq!['.'] + ext
            &&& !ext.contains('.')
        },
{
    lemma_last_dot(name);
    if let Some(ext) = name_extension(name) {
        let i = last_dot_index(name);
        let stem = name.subrange(0, name.len() - ext.len() - 1);
        assert(name =~= stem + seq!['.'] + ext);
        assert forall|k: int| 0 <= k < ext.len() implies ext[k] != '.' by {
            assert(ext[k] == name[i + 1 + k]);
        }
    }
}

} // verus!
