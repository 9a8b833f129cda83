//! Paths as texts whose components are separated by `/`.

use vstd::prelude::*;

verus! {

/// Where the last component of `path` starts: behind its last `/`, or at its
/// start if it has none.
pub open spec fn name_start(path: Seq<char>) -> int
    decreases path.len(),
{
    if path.len() == 0 {
        0
    } else if path.last() == '/' {
        path.len() as int
    } else {
        name_start(path.drop_last())
    }
}

/// The last component of `path`: what stands behind its last `/`.
pub open spec fn file_name_of(path: Seq<char>) -> Seq<char> {
    path.skip(name_start(path))
}

/// Whether `path` names a file: its last component is not empty.
pub open spec fn has_file_name(path: Seq<char>) -> bool {
    name_start(path) < path.len()
}

/// Where the extension of the file name `name` starts: behind its last `.`,
/// or at its start if it has none.
pub open spec fn extension_start(name: Seq<char>) -> int
    decreases name.len(),
{
    if name.len() == 0 {
        0
    } else if name.last() == '.' {
        name.len() as int
    } else {
        extension_start(name.drop_last())
    }
}

/// Whether the file name `name` has an extension: it has a `.` that is not its first character.
pub open spec fn has_extension(name: Seq<char>) -> bool {
    extension_start(name) >= 2
}

/// The extension of the file name `name`: what stands behind its last `.`.
pub open spec fn extension_of(name: Seq<char>) -> Seq<char> {
    name.skip(extension_start(name))
}

/// The file name `name` without its extension.
pub open spec fn stem_of(name: Seq<char>) -> Seq<char> {
    if has_extension(name) {
        name.take(extension_start(name) - 1)
    } else {
        name
    }
}

/// `path` under the directory `base`: `path` itself where it starts at the
/// root or `base` is empty, otherwise `base`, a `/` unless `base` ends in
/// one, and `path`.
pub open spec fn joined(base: Seq<char>, path: Seq<char>) -> Seq<char> {
    if base.len() == 0 || (path.len() > 0 && path[0] == '/') {
        path
    } else if base.last() == '/' {
        base + path
    } else {
        base + seq!['/'] + path
    }
}

/// The start of the last component lies within the path, and no `/` follows it.
pub proof fn lemma_name_start(path: Seq<char>)
    ensures
        0 <= name_start(path) <= path.len(),
        name_start(path) > 0 ==> path[name_start(path) - 1] == '/',
        forall|i: int| name_start(path) <= i < path.len() ==> path[i] != '/',
    decreases path.len(),
{
    if path.len() > 0 && path.last() != '/' {
        lemma_name_start(path.drop_last());
        assert forall|i: int| name_start(path) <= i < path.len() implies path[i] != '/' by {
            if i < path.len() - 1 {
                assert(path.drop_last()[i] == path[i]);
            }
        }
    }
}

/// The start of the extension lies within the name, and no `.` follows it.
pub proof fn lemma_extension_start(name: Seq<char>)
    ensures
        0 <= extension_start(name) <= name.len(),
        extension_start(name) > 0 ==> name[extension_start(name) - 1] == '.',
        forall|i: int| extension_start(name) <= i < name.len() ==> name[i] != '.',
    decreases name.len(),
{
    if name.len() > 0 && name.last() != '.' {
        lemma_extension_start(name.drop_last());
        assert forall|i: int| extension_start(name) <= i < name.len() implies name[i] != '.' by {
            if i < name.len() - 1 {
                assert(name.drop_last()[i] == name[i]);
            }
        }
    }
}

/// A position behind a separator, with no separator after it, is where the
/// last component starts.
pub proof fn lemma_name_start_is(path: Seq<char>, i: int)
    requires
        0 <= i <= path.len(),
        i > 0 ==> path[i - 1] == '/',
        forall|j: int| i <= j < path.len() ==> path[j] != '/',
    ensures
        name_start(path) == i,
    decreases path.len(),
{
    if path.len() > 0 && path.last() != '/' {
        lemma_name_start_is(path.drop_last(), i);
    }
}

/// A position behind a dot, with no dot after it, is where the extension starts.
pub proof fn lemma_extension_start_is(name: Seq<char>, i: int)
    requires
        0 <= i <= name.len(),
        i > 0 ==> name[i - 1] == '.',
        forall|j: int| i <= j < name.len() ==> name[j] != '.',
    ensures
        extension_start(name) == i,
    decreases name.len(),
{
    if name.len() > 0 && name.last() != '.' {
        lemma_extension_start_is(name.drop_last(), i);
    }
}

/// Where the last occurrence of `mark` in `text` ends: the position behind
/// it, or zero if `text` does not hold it.
fn after_last(text: &str, mark: char) -> (start: usize)
    ensures
        start <= text@.len(),
        start > 0 ==> text@[start - 1] == mark,
        forall|j: int| start <= j < text@.len() ==> text@[j] != mark,
{
    let mut i = text.unicode_len();
    while i > 0
        invariant
            i <= text@.len(),
            forall|j: int| i <= j < text@.len() ==> text@[j] != mark,
        decreases i,
    {
        if text.get_char(i - 1) == mark {
            return i;
        }
        i -= 1;
    }
    0
}

/// The last component of `path`, if it is not empty.
pub fn file_name(path: &str) -> (name: Option<String>)
    ensures
        name is Some == has_file_name(path@),
        name matches Some(text) ==> text@ == file_name_of(path@),
{
    let start = after_last(path, '/');
    proof {
        lemma_name_start_is(path@, start as int);
    }
    let n = path.unicode_len();
    if start < n {
        let name = path.substring_char(start, n).to_owned();
        assert(path@.subrange(start as int, n as int) =~= path@.skip(start as int));
        Some(name)
    } else {
        None
    }
}

/// The extension of the last component of `path`, if it has one.
pub fn extension(path: &str) -> (found: Option<String>)
    ensures
        found is Some == has_extension(file_name_of(path@)),
        found matches Some(text) ==> text@ == extension_of(file_name_of(path@)),
{
    let start = after_last(path, '/');
    proof {
        lemma_name_start_is(path@, start as int);
    }
    let n = path.unicode_len();
    let name = path.substring_char(start, n);
    assert(path@.subrange(start as int, n as int) =~= path@.skip(start as int));
    let dot = after_last(name, '.');
    proof {
        lemma_extension_start_is(name@, dot as int);
    }
    if dot >= 2 {
        let m = name.unicode_len();
        let text = name.substring_char(dot, m).to_owned();
        assert(name@.subrange(dot as int, m as int) =~= name@.skip(dot as int));
        Some(text)
    } else {
        None
    }
}

/// The last component of `path` without its extension, if the component is not empty.
pub fn file_stem(path: &str) -> (stem: Option<String>)
    ensures
        stem is Some == has_file_name(path@),
        stem matches Some(text) ==> text@ == stem_of(file_name_of(path@)),
{
    let start = after_last(path, '/');
    proof {
        lemma_name_start_is(path@, start as int);
    }
    let n = path.unicode_len();
    if start >= n {
        return None;
    }
    let name = path.substring_char(start, n);
    assert(path@.subrange(start as int, n as int) =~= path@.skip(start as int));
    let dot = after_last(name, '.');
    proof {
        lemma_extension_start_is(name@, dot as int);
    }
    if dot >= 2 {
        let text = name.substring_char(0, dot - 1).to_owned();
        assert(name@.subrange(0, dot - 1) =~= name@.take(dot - 1));
        Some(text)
    } else {
        Some(name.to_owned())
    }
}

/// `path` under the directory `base`.
pub fn join(base: &str, path: &str) -> (whole: String)
    ensures
        whole@ == joined(base@, path@),
{
    let n = base.unicode_len();
    if n == 0 {
        return path.to_owned();
    }
    if path.unicode_len() > 0 && path.get_char(0) == '/' {
        return path.to_owned();
    }
    if base.get_char(n - 1) == '/' {
        base.to_owned().concat(path)
    } else {
        proof {
            reveal_strlit("/");
            assert("/"@ =~= seq!['/']);
        }
        base.to_owned().concat("/").concat(path)
    }
}

} // verus!
