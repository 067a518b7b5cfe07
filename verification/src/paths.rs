//! What the playlist and the watchers read of a path: its file name, the
//! extension and the stem of that name, as std's `Path` gives them.
use vstd::prelude::*;

verus! {

/// The final component of `path` as `std::path::Path::file_name` gives it
/// (`None` where the path ends in `..` or has no normal final component),
/// under the path rules of the platform the crate is built for.
pub uninterp spec fn path_file_name(path: Seq<char>) -> Option<Seq<char>>;

/// Index of the last `.` in `name`, or -1 where there is none.
pub open spec fn last_dot(name: Seq<char>) -> int
    decreases name.len(),
{
    if name.len() == 0 {
        -1
    } else if name.last() == '.' {
        name.len() - 1
    } else {
        last_dot(name.drop_last())
    }
}

/// The extension of a file name: the part after the final `.`, where that
/// `.` is not the first character of the name.
pub open spec fn name_extension(name: Seq<char>) -> Option<Seq<char>> {
    let d = last_dot(name);
    if d <= 0 {
        None
    } else {
        Some(name.skip(d + 1))
    }
}

/// The stem of a file name: the part before the final `.`, or the whole
/// name where it has no `.` other than a leading one.
pub open spec fn name_stem(name: Seq<char>) -> Seq<char> {
    let d = last_dot(name);
    if d <= 0 {
        name
    } else {
        name.take(d)
    }
}

/// The extension of the file name of `path`.
pub open spec fn path_extension(path: Seq<char>) -> Option<Seq<char>> {
    match path_file_name(path) {
        Some(name) => name_extension(name),
        None => None,
    }
}

/// The stem of the file name of `path`.
pub open spec fn path_stem(path: Seq<char>) -> Option<Seq<char>> {
    match path_file_name(path) {
        Some(name) => Some(name_stem(name)),
        None => None,
    }
}

/// The view of an optional string.
pub open spec fn opt_view(s: Option<String>) -> Option<Seq<char>> {
    match s {
        Some(s) => Some(s@),
        None => None,
    }
}

/// Calls `std::path::Path::file_name` on `path`.  Claimed: the result is
/// `path_file_name` of the path.  A path given as `&str` is valid UTF-8, so
/// each of its components converts to a `String` without loss.
#[verifier::external_body]
pub(crate) fn file_name_of(path: &str) -> (name: Option<String>)
    ensures
        opt_view(name) == path_file_name(path@),
{
    match std::path::Path::new(path).file_name() {
        Some(n) => Some(n.to_string_lossy().into_owned()),
        None => None,
    }
}

/// Calls `std::path::Path::extension` on `path`.  Claimed, as std documents
/// it: `None` where there is no file name, where the name has no `.`, or
/// where its only `.` is the leading one; else the part of the file name
/// after its final `.`.
#[verifier::external_body]
pub(crate) fn extension_of(path: &str) -> (ext: Option<String>)
    ensures
        opt_view(ext) == path_extension(path@),
{
    match std::path::Path::new(path).extension() {
        Some(e) => Some(e.to_string_lossy().into_owned()),
        None => None,
    }
}

/// Calls `std::path::Path::file_stem` on `path`.  Claimed, as std documents
/// it: `None` where there is no file name; the whole name where it has no
/// `.`, or only a leading one; else the part of the name before its final
/// `.`.
#[verifier::external_body]
pub(crate) fn file_stem_of(path: &str) -> (stem: Option<String>)
    ensures
        opt_view(stem) == path_stem(path@),
{
    match std::path::Path::new(path).file_stem() {
        Some(s) => Some(s.to_string_lossy().into_owned()),
        None => None,
    }
}

/// The two extensions of shader sources.
pub open spec fn is_shader_extension(ext: Option<Seq<char>>) -> bool {
    ext == Some(seq!['w', 'g', 's', 'l']) || ext == Some(seq!['w', 'e', 's', 'l'])
}

/// Whether `ext` is the text `lit`, character by character.
fn ext_equals(ext: &String, lit: &str) -> (r: bool)
    ensures
        r == (ext@ == lit@),
{
    let a = ext.as_str();
    let n = a.unicode_len();
    let m = lit.unicode_len();
    if n != m {
        return false;
    }
    let mut i: usize = 0;
    while i < n
        invariant
            n == a@.len(),
            m == lit@.len(),
            n == m,
            a@ == ext@,
            i <= n,
            forall|j: int| 0 <= j < i ==> a@[j] == lit@[j],
        decreases n - i,
    {
        if a.get_char(i) != lit.get_char(i) {
            return false;
        }
        i = i + 1;
    }
    assert(a@ =~= lit@);
    true
}

/// Whether the extension of `path` is `wgsl`.
pub fn has_wgsl_extension(path: &str) -> (r: bool)
    ensures
        r == (path_extension(path@) == Some(seq!['w', 'g', 's', 'l'])),
{
    match extension_of(path) {
        Some(e) => {
            let w = ext_equals(&e, "wgsl");
            proof {
                reveal_strlit("wgsl");
                assert("wgsl"@ =~= seq!['w', 'g', 's', 'l']);
            }
            w
        },
        None => false,
    }
}

/// Whether the extension of `path` is `wgsl` or `wesl`.
pub fn has_shader_extension(path: &str) -> (r: bool)
    ensures
        r == is_shader_extension(path_extension(path@)),
{
    match extension_of(path) {
        Some(e) => {
            let w = ext_equals(&e, "wgsl");
            let v = ext_equals(&e, "wesl");
            proof {
                reveal_strlit("wgsl");
                reveal_strlit("wesl");
                assert("wgsl"@ =~= seq!['w', 'g', 's', 'l']);
                assert("wesl"@ =~= seq!['w', 'e', 's', 'l']);
            }
            w || v
        },
        None => false,
    }
}

proof fn lemma_last_dot(name: Seq<char>)
    ensures
        -1 <= last_dot(name) < name.len(),
        last_dot(name) >= 0 ==> name[last_dot(name)] == '.',
        forall|j: int| last_dot(name) < j < name.len() ==> name[j] != '.',
    decreases name.len(),
{
    if name.len() > 0 && name.last() != '.' {
        lemma_last_dot(name.drop_last());
        assert forall|j: int| last_dot(name) < j < name.len() implies name[j] != '.' by {
            if j < name.len() - 1 {
                assert(name.drop_last()[j] == name[j]);
            }
        }
    }
}

/// A file name with an extension is its stem, a `.`, then the extension,
/// and the extension holds no `.`; the `.` is not the name's first
/// character.  A name without an extension has no `.` after its first
/// character, and is its own stem.
pub proof fn lemma_extension_and_stem(name: Seq<char>)
    ensures
        name_extension(name) matches Some(e) ==> {
            &&& name == name_stem(name) + seq!['.'] + e
            &&& name_stem(name).len() > 0
            &&& forall|j: int| 0 <= j < e.len() ==> e[j] != '.'
        },
        name_extension(name) is None ==> {
            &&& name_stem(name) == name
            &&& forall|j: int| 0 < j < name.len() ==> name[j] != '.'
        },
{
    lemma_last_dot(name);
    let d = last_dot(name);
    if d > 0 {
        let e = name.skip(d + 1);
        assert(name =~= name.take(d) + seq!['.'] + e);
        assert forall|j: int| 0 <= j < e.len() implies e[j] != '.' by {
            assert(e[j] == name[d + 1 + j]);
        }
    }
}

/// The shader extensions are exactly `wgsl` and `wesl`; a path without an
/// extension is no shader.
pub proof fn lemma_shader_extensions(ext: Option<Seq<char>>)
    ensures
        is_shader_extension(ext) <==> (ext == Some(seq!['w', 'g', 's', 'l']) || ext == Some(
            seq!['w', 'e', 's', 'l'],
        )),
        ext is None ==> !is_shader_extension(ext),
{
}

/// A path's extension and stem are those of its file name; a path with no
/// file name has neither.
pub proof fn lemma_path_parts(path: Seq<char>)
    ensures
        path_file_name(path) matches Some(n) ==> path_extension(path) == name_extension(n)
            && path_stem(path) == Some(name_stem(n)),
        path_file_name(path) is None ==> path_extension(path) is None && path_stem(path) is None,
{
}

} // verus!
