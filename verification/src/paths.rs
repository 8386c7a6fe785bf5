//! Paths as text. A path is a sequence of characters in which `/` parts one
//! component from the next; nothing else in it has a meaning of its own, so
//! `.` and `..` are names like any other and a trailing `/` leaves the file
//! name empty.

use vstd::prelude::*;

verus! {

/// The character that parts the components of a path.
pub open spec fn separator() -> char {
    '/'
}

/// The position of the last `c` in `s`, or -1 where `s` holds none.
pub open spec fn last_index_of(s: Seq<char>, c: char) -> int
    decreases s.len(),
{
    if s.len() == 0 {
        -1
    } else if s.last() == c {
        s.len() - 1
    } else {
        last_index_of(s.drop_last(), c)
    }
}

/// `last_index_of` is a position of `c` behind which `s` holds no further `c`.
pub proof fn lemma_last_index_of(s: Seq<char>, c: char)
    ensures
        -1 <= last_index_of(s, c) < s.len(),
        last_index_of(s, c) >= 0 ==> s[last_index_of(s, c)] == c,
        forall|k: int| last_index_of(s, c) < k < s.len() ==> s[k] != c,
    decreases s.len(),
{
    if s.len() > 0 && s.last() != c {
        let front = s.drop_last();
        lemma_last_index_of(front, c);
        assert forall|k: int| last_index_of(s, c) < k < s.len() implies s[k] != c by {
            if k < front.len() {
                assert(s[k] == front[k]);
            }
        }
    }
}

/// A position of `c` behind which `s` holds no further `c` is `last_index_of`.
pub proof fn lemma_last_index_of_unique(s: Seq<char>, c: char, at: int)
    requires
        -1 <= at < s.len(),
        at >= 0 ==> s[at] == c,
        forall|k: int| at < k < s.len() ==> s[k] != c,
    ensures
        last_index_of(s, c) == at,
{
    lemma_last_index_of(s, c);
}

/// The last component of a path: what follows its last separator, or the
/// whole path where it holds none.
pub open spec fn file_name(path: Seq<char>) -> Seq<char> {
    path.subrange(last_index_of(path, separator()) + 1, path.len() as int)
}

/// The directory part of a path: what precedes its last separator, empty
/// where the path holds none.
pub open spec fn parent(path: Seq<char>) -> Seq<char> {
    if last_index_of(path, separator()) > 0 {
        path.subrange(0, last_index_of(path, separator()))
    } else {
        Seq::empty()
    }
}

/// Whether a file name has an extension: a dot that is not its first
/// character. A name such as `.profile` has none.
pub open spec fn has_extension(name: Seq<char>) -> bool {
    last_index_of(name, '.') > 0
}

/// What follows the last dot of a file name that has an extension.
pub open spec fn extension(name: Seq<char>) -> Seq<char> {
    name.subrange(last_index_of(name, '.') + 1, name.len() as int)
}

/// A file name without its extension and the dot before it; the whole name
/// where it has no extension.
pub open spec fn file_stem(name: Seq<char>) -> Seq<char> {
    if has_extension(name) {
        name.subrange(0, last_index_of(name, '.'))
    } else {
        name
    }
}

/// `rest` placed below `dir`, with one separator between them unless `dir`
/// is empty or already ends in one.
pub open spec fn join(dir: Seq<char>, rest: Seq<char>) -> Seq<char> {
    if dir.len() == 0 || dir.last() == separator() {
        dir + rest
    } else {
        dir + seq![separator()] + rest
    }
}

/// How many characters `join(root, ..)` puts before the rest.
pub open spec fn join_offset(root: Seq<char>) -> int {
    if root.len() == 0 || root.last() == separator() {
        root.len() as int
    } else {
        root.len() as int + 1
    }
}

/// Whether `path` is `root` joined with something.
pub open spec fn is_below(path: Seq<char>, root: Seq<char>) -> bool {
    &&& join_offset(root) <= path.len()
    &&& path.subrange(0, root.len() as int) == root
    &&& join_offset(root) > root.len() ==> path[root.len() as int] == separator()
}

/// `path` as seen from `root`: what was joined to `root` to give `path`, or
/// `path` itself where it does not lie below `root`.
pub open spec fn relative_to(path: Seq<char>, root: Seq<char>) -> Seq<char> {
    if is_below(path, root) {
        path.subrange(join_offset(root), path.len() as int)
    } else {
        path
    }
}

/// Joining a path to a root and looking at the result from that root gives
/// the path back.
pub proof fn lemma_relative_to_join(root: Seq<char>, rest: Seq<char>)
    ensures
        is_below(join(root, rest), root),
        relative_to(join(root, rest), root) == rest,
{
    let joined = join(root, rest);
    assert(joined.subrange(0, root.len() as int) =~= root);
    assert(joined.subrange(join_offset(root), joined.len() as int) =~= rest);
}

/// A path that lies below a root is that root joined with the path as seen
/// from it.
pub proof fn lemma_join_relative_to(path: Seq<char>, root: Seq<char>)
    requires
        is_below(path, root),
    ensures
        join(root, relative_to(path, root)) == path,
{
    assert(join(root, relative_to(path, root)) =~= path);
}

/// A file name that holds no separator is the file name of the path that
/// it is joined into.
pub proof fn lemma_file_name_of_join(dir: Seq<char>, name: Seq<char>)
    requires
        !name.contains(separator()),
    ensures
        file_name(join(dir, name)) == name,
{
    let joined = join(dir, name);
    let at = join_offset(dir) - 1;
    assert forall|k: int| at < k < joined.len() implies joined[k] != separator() by {
        assert(joined[k] == name[k - join_offset(dir)]);
        assert(name.contains(joined[k]));
    }
    lemma_last_index_of_unique(joined, separator(), at);
    assert(file_name(joined) =~= name);
}

/// Finds the last `c` in `s`.
pub fn find_last(s: &str, c: char) -> (found: Option<usize>)
    ensures
        match found {
            Some(at) => at as int == last_index_of(s@, c),
            None => last_index_of(s@, c) == -1,
        },
{
    let n: usize = s.unicode_len();
    let mut found: Option<usize> = None;
    let mut i: usize = 0;
    while i < n
        invariant
            n == s@.len(),
            i <= n,
            match found {
                Some(at) => at as int == last_index_of(s@.subrange(0, i as int), c),
                None => last_index_of(s@.subrange(0, i as int), c) == -1,
            },
        decreases n - i,
    {
        proof {
            let longer = s@.subrange(0, i + 1);
            assert(longer.drop_last() =~= s@.subrange(0, i as int));
            assert(longer.last() == s@[i as int]);
        }
        if s.get_char(i) == c {
            found = Some(i);
        }
        i += 1;
    }
    assert(s@.subrange(0, n as int) =~= s@);
    found
}

/// The last component of `path`.
pub fn file_name_of(path: &str) -> (name: &str)
    ensures
        name@ == file_name(path@),
{
    let n: usize = path.unicode_len();
    proof {
        lemma_last_index_of(path@, separator());
    }
    match find_last(path, '/') {
        Some(at) => path.substring_char(at + 1, n),
        None => path.substring_char(0, n),
    }
}

/// The directory part of `path`.
pub fn parent_of(path: &str) -> (dir: &str)
    ensures
        dir@ == parent(path@),
{
    match find_last(path, '/') {
        Some(at) => {
            proof {
                lemma_last_index_of(path@, separator());
            }
            let dir = path.substring_char(0, at);
            assert(dir@ =~= parent(path@));
            dir
        },
        None => {
            let dir = path.substring_char(0, 0);
            assert(dir@ =~= parent(path@));
            dir
        },
    }
}

/// The extension of a file name, where it has one.
pub fn extension_of(name: &str) -> (ext: Option<&str>)
    ensures
        ext is Some == has_extension(name@),
        ext is Some ==> ext->0@ == extension(name@),
{
    let n: usize = name.unicode_len();
    proof {
        lemma_last_index_of(name@, '.');
    }
    match find_last(name, '.') {
        Some(at) => if at > 0 {
            Some(name.substring_char(at + 1, n))
        } else {
            None
        },
        None => None,
    }
}

/// The file name without its extension.
pub fn file_stem_of(name: &str) -> (stem: &str)
    ensures
        stem@ == file_stem(name@),
{
    let n: usize = name.unicode_len();
    proof {
        lemma_last_index_of(name@, '.');
    }
    match find_last(name, '.') {
        Some(at) => if at > 0 {
            name.substring_char(0, at)
        } else {
            let whole = name.substring_char(0, n);
            assert(whole@ =~= name@);
            whole
        },
        None => {
            let whole = name.substring_char(0, n);
            assert(whole@ =~= name@);
            whole
        },
    }
}

/// Whether `text` ends in a separator.
fn ends_with_separator(text: &str) -> (ends: bool)
    ensures
        ends == (text@.len() > 0 && text@.last() == separator()),
{
    let n: usize = text.unicode_len();
    n > 0 && text.get_char(n - 1) == '/'
}

/// `rest` placed below `dir`.
pub fn join_path(dir: &str, rest: &str) -> (joined: String)
    ensures
        joined@ == join(dir@, rest@),
{
    let mut joined = String::from_str(dir);
    if dir.unicode_len() > 0 && !ends_with_separator(dir) {
        proof {
            reveal_strlit("/");
        }
        assert("/"@ =~= seq![separator()]);
        joined.append("/");
    }
    joined.append(rest);
    joined
}

/// `path` as seen from `root`.
pub fn relative_path<'a>(path: &'a str, root: &str) -> (rest: &'a str)
    ensures
        rest@ == relative_to(path@, root@),
{
    let n: usize = path.unicode_len();
    let m: usize = root.unicode_len();
    let whole = path.substring_char(0, n);
    assert(whole@ =~= path@);
    if n < m {
        return whole;
    }
    if !crate::text::same_text(path.substring_char(0, m), root) {
        return whole;
    }
    if m == 0 || ends_with_separator(root) {
        path.substring_char(m, n)
    } else if n > m && path.get_char(m) == '/' {
        path.substring_char(m + 1, n)
    } else {
        whole
    }
}

} // verus!
