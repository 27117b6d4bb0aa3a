//! The app that has the focus.
//!
//! Apps are told apart by a key. On macOS that is the bundle identifier; on
//! other systems there is none, and the name of the program stands in for it,
//! in lower case and without its extension.
use vstd::prelude::*;
use vstd::slice::slice_subrange;
use crate::chars;
use crate::text;
use crate::text::Class;

verus! {

#[derive(Debug, Clone)]
pub struct AppContext {
    pub bundle_id: String,
    pub display_name: String,
    pub window_title: Option<String>,
}

/// The last of the names on a path that is not `.`, or none.
pub open spec fn last_name(names: Seq<Seq<char>>) -> Seq<char>
    decreases names.len(),
{
    if names.len() == 0 {
        Seq::empty()
    } else if names.last() == seq!['.'] {
        last_name(names.drop_last())
    } else {
        names.last()
    }
}

/// The position of the last full stop in a name, if there is one.
pub open spec fn last_stop(name: Seq<char>) -> Option<int>
    decreases name.len(),
{
    if name.len() == 0 {
        None
    } else if name.last() == '.' {
        Some(name.len() - 1)
    } else {
        last_stop(name.drop_last())
    }
}

/// A file name without its extension. A full stop in front starts none, and
/// the parent directory is no file.
pub open spec fn stem(name: Seq<char>) -> Seq<char> {
    if name == seq!['.', '.'] {
        Seq::empty()
    } else {
        match last_stop(name) {
            Some(p) if p > 0 => name.take(p),
            _ => name,
        }
    }
}

/// Where the name that starts at `k` on a path ends.
pub open spec fn name_end(path: Seq<char>, k: int) -> int
    decreases path.len() - k,
{
    if k >= path.len() || Class::PathSeparator.has(path[k]) {
        k
    } else {
        name_end(path, k + 1)
    }
}

/// Where the name behind the one that starts at `k` ends, or the path.
pub open spec fn second_name_end(path: Seq<char>, k: int) -> int {
    let a = name_end(path, k);
    if a >= path.len() {
        a
    } else {
        name_end(path, a + 1)
    }
}

/// Whether a server and a share on it start a path. Both have names.
pub open spec fn names_share(path: Seq<char>) -> bool {
    &&& path.len() >= 2 && path[0] == '\\' && path[1] == '\\'
    &&& 2 < name_end(path, 2) < path.len()
    &&& name_end(path, 2) + 1 < second_name_end(path, 2)
}

/// How much of a path tells the drive or the share that it lies on: a letter
/// and a colon, or two backslashes and the names of a server and a share,
/// which the long form has behind `?` and `UNC`.
pub open spec fn root_len(path: Seq<char>) -> int {
    if path.len() >= 2 && chars::ascii_letter(path[0]) && path[1] == ':' {
        2
    } else if "\\\\?\\UNC\\"@.is_prefix_of(path) {
        second_name_end(path, "\\\\?\\UNC\\"@.len() as int)
    } else if names_share(path) {
        second_name_end(path, 2)
    } else {
        0
    }
}

/// What separates the names on a path: a slash where it starts with one, else
/// a separator of either kind.
pub open spec fn separators(path: Seq<char>) -> Class {
    if path.len() > 0 && path[0] == '/' {
        Class::Slash
    } else {
        Class::PathSeparator
    }
}

/// The names on a path, without the drive or the share it lies on.
pub open spec fn path_names(path: Seq<char>) -> Seq<Seq<char>> {
    text::fields(separators(path), path.skip(root_len(path)))
}

/// The program's name on a path.
pub open spec fn program_name(path: Seq<char>) -> Seq<char> {
    stem(last_name(path_names(path)))
}

/// The key of an app, from its program and its name.
pub open spec fn bundle_id(path: Seq<char>, app_name: Seq<char>) -> Seq<char> {
    if program_name(path).len() > 0 {
        chars::lowercase(program_name(path))
    } else if app_name.len() > 0 {
        chars::lowercase(app_name)
    } else {
        "unknown"@
    }
}

/// The key of an app on macOS, where the name is the bundle identifier.
pub open spec fn bundle_id_macos(app_name: Seq<char>) -> Seq<char> {
    if app_name.len() > 0 {
        app_name
    } else {
        "unknown"@
    }
}

fn strip_extension(name: &[char]) -> (r: &[char])
    ensures
        r@ == stem(name@),
{
    if name.len() == 2 && name[0] == '.' && name[1] == '.' {
        assert(name@ =~= seq!['.', '.']);
        let none = slice_subrange(name, 0, 0);
        assert(none@ =~= Seq::empty());
        return none;
    }
    assert(name@ != seq!['.', '.']) by {
        if name@ == seq!['.', '.'] {
            assert(name@[0] == '.' && name@[1] == '.');
        }
    }
    let mut n: usize = name.len();
    assert(name@.take(n as int) =~= name@);
    while n > 0
        invariant
            n <= name.len(),
            name@ != seq!['.', '.'],
            last_stop(name@) == last_stop(name@.take(n as int)),
        decreases n,
    {
        assert(name@.take(n as int).drop_last() =~= name@.take(n - 1));
        if name[n - 1] == '.' {
            if n == 1 {
                return name;
            }
            let r = slice_subrange(name, 0, n - 1);
            assert(r@ =~= name@.take(n - 1));
            return r;
        }
        n -= 1;
    }
    name
}

fn find_name_end(path: &[char], k: usize) -> (r: usize)
    requires
        k <= path.len(),
    ensures
        r == name_end(path@, k as int),
        k <= r <= path.len(),
{
    let mut e: usize = k;
    while e < path.len() && !Class::PathSeparator.contains(path[e])
        invariant
            k <= e <= path.len(),
            name_end(path@, k as int) == name_end(path@, e as int),
        decreases path.len() - e,
    {
        e += 1;
    }
    e
}

fn find_second_name_end(path: &[char], k: usize) -> (r: usize)
    requires
        k <= path.len(),
    ensures
        r == second_name_end(path@, k as int),
        k <= r <= path.len(),
{
    let a = find_name_end(path, k);
    if a >= path.len() {
        a
    } else {
        find_name_end(path, a + 1)
    }
}

fn find_root_len(path: &[char]) -> (r: usize)
    ensures
        r == root_len(path@),
        r <= path.len(),
{
    if path.len() >= 2 && (('a' <= path[0] && path[0] <= 'z') || ('A' <= path[0] && path[0] <= 'Z'))
        && path[1] == ':' {
        return 2;
    }
    let long = text::to_chars("\\\\?\\UNC\\");
    if text::starts_with(path, long.as_slice()) {
        return find_second_name_end(path, long.len());
    }
    if path.len() >= 2 && path[0] == '\\' && path[1] == '\\' {
        let a = find_name_end(path, 2);
        let b = find_second_name_end(path, 2);
        if 2 < a && a < path.len() && a + 1 < b {
            return b;
        }
    }
    0
}

fn split_path(path: &[char]) -> (r: Vec<Vec<char>>)
    ensures
        text::rows(r@) == path_names(path@),
{
    let class = if path.len() > 0 && path[0] == '/' {
        Class::Slash
    } else {
        Class::PathSeparator
    };
    let root = find_root_len(path);
    let rest = slice_subrange(path, root, path.len());
    assert(rest@ =~= path@.skip(root as int));
    text::split_fields(class, rest)
}

fn find_program_name(path: &str) -> (r: Vec<char>)
    ensures
        r@ == program_name(path@),
{
    let cs = text::to_chars(path);
    let names = split_path(cs.as_slice());
    let ghost all = path_names(path@);
    let mut n: usize = names.len();
    assert(all.take(n as int) =~= all);
    while n > 0
        invariant
            n <= names.len(),
            text::rows(names@) == all,
            all == path_names(path@),
            last_name(all) == last_name(all.take(n as int)),
        decreases n,
    {
        assert(all.take(n as int).drop_last() =~= all.take(n - 1));
        assert(all.take(n as int).last() == names@[n - 1]@);
        let name = &names[n - 1];
        if !(name.len() == 1 && name[0] == '.') {
            assert(name@ != seq!['.']) by {
                if name@ == seq!['.'] {
                    assert(name@[0] == '.');
                }
            }
            return text::copied(strip_extension(name.as_slice()));
        }
        assert(name@ =~= seq!['.']);
        n -= 1;
    }
    assert(stem(Seq::empty()) =~= Seq::empty());
    Vec::new()
}

/// The key of an app: the name of its program, else its own name.
pub fn derive_bundle_id(process_path: &str, app_name: &str) -> (r: String)
    ensures
        r@ == bundle_id(process_path@, app_name@),
{
    let program = find_program_name(process_path);
    if program.len() > 0 {
        let low = text::lower(program.as_slice());
        text::to_text(low.as_slice())
    } else if !app_name.is_empty() {
        app_name.to_lowercase()
    } else {
        "unknown".to_owned()
    }
}

/// The key of an app on macOS, where the name is the bundle identifier.
pub fn derive_bundle_id_macos(app_name: &str) -> (r: String)
    ensures
        r@ == bundle_id_macos(app_name@),
{
    if app_name.is_empty() {
        "unknown".to_owned()
    } else {
        app_name.to_owned()
    }
}

/// Whether a window tells which app it belongs to.
pub open spec fn identifiable(process_path: Seq<char>, app_name: Seq<char>) -> bool {
    process_path.len() > 0 || app_name.len() > 0
}

/// The key of the app that a window belongs to.
pub open spec fn window_bundle_id(
    macos: bool,
    process_path: Seq<char>,
    app_name: Seq<char>,
) -> Seq<char> {
    if process_path.len() == 0 {
        chars::lowercase(app_name)
    } else if macos {
        bundle_id_macos(app_name)
    } else {
        bundle_id(process_path, app_name)
    }
}

/// The app that a window belongs to, unless neither its program nor its name
/// is known. An app without a name is shown by its key.
pub fn context_from_window(macos: bool, process_path: &str, app_name: &str, title: &str) -> (r:
    Option<AppContext>)
    ensures
        match r {
            None => !identifiable(process_path@, app_name@),
            Some(c) => {
                let id = window_bundle_id(macos, process_path@, app_name@);
                &&& identifiable(process_path@, app_name@)
                &&& c.bundle_id@ == id
                &&& c.display_name@ == (if app_name@.len() > 0 {
                    app_name@
                } else {
                    id
                })
                &&& match c.window_title {
                    Some(t) => title@.len() > 0 && t@ == title@,
                    None => title@.len() == 0,
                }
            },
        },
{
    let bundle_id = if !process_path.is_empty() {
        if macos {
            derive_bundle_id_macos(app_name)
        } else {
            derive_bundle_id(process_path, app_name)
        }
    } else if !app_name.is_empty() {
        app_name.to_lowercase()
    } else {
        return None;
    };
    let display_name = if app_name.is_empty() {
        bundle_id.clone()
    } else {
        app_name.to_owned()
    };
    let window_title = if title.is_empty() {
        None
    } else {
        Some(title.to_owned())
    };
    Some(AppContext { bundle_id, display_name, window_title })
}

} // verus!
