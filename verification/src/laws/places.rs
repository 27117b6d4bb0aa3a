//! Paths, and the apps that are told apart by them.
use vstd::prelude::*;
use crate::chars;
use crate::context;
use crate::laws;
use crate::settings;
use crate::text;
use crate::text::Class;

verus! {

/// A name in a directory stands behind it and a separator, which is put in
/// where the directory does not end in one.
pub proof fn law_name_in_a_directory(dir: Seq<char>, separator: char, name: Seq<char>)
    ensures
        settings::in_directory(Seq::empty(), separator, name) == name,
        settings::in_directory(dir.push('/'), separator, name) == dir.push('/') + name,
        settings::in_directory(dir.push(separator), separator, name) == dir.push(separator) + name,
        dir.len() > 0 && dir.last() != '/' && dir.last() != separator && dir.last() != ':'
            ==> settings::in_directory(dir, separator, name) == dir + seq![separator] + name,
        dir.len() > 0 && dir.last() != '/' && separator == '/' ==> settings::in_directory(
            dir,
            separator,
            name,
        ) == dir + seq!['/'] + name,
        dir.len() > 2 && dir.last() == ':' && separator == '\\' ==> settings::in_directory(
            dir,
            separator,
            name,
        ) == dir + seq!['\\'] + name,
{
    assert(Seq::<char>::empty() + name =~= name);
    assert(dir.push(separator) =~= dir + seq![separator]);
}

/// A bare drive is followed by the name at once.
pub proof fn law_name_on_a_drive(letter: char, name: Seq<char>)
    requires
        chars::ascii_letter(letter),
    ensures
        settings::in_directory(seq![letter, ':'], '\\', name) == seq![letter, ':'] + name,
{
}

/// The extension of a file is what stands behind its last full stop, and goes
/// with it. A full stop in front starts none, and the parent directory is no
/// file.
pub proof fn law_extension_goes(base: Seq<char>, ext: Seq<char>)
    requires
        !ext.contains('.'),
    ensures
        base.len() > 0 && !(base == seq!['.'] && ext.len() == 0) ==> context::stem(
            base + seq!['.'] + ext,
        ) == base,
        context::stem(seq!['.'] + ext) == seq!['.'] + ext,
        context::stem(ext) == ext,
        context::stem(seq!['.', '.']).len() == 0,
{
    let full = base + seq!['.'] + ext;
    lemma_last_stop(base, ext);
    lemma_last_stop(Seq::empty(), ext);
    lemma_no_stop(ext);
    assert(Seq::<char>::empty() + seq!['.'] + ext =~= seq!['.'] + ext);
    assert(full.take(base.len() as int) =~= base);
    if full == seq!['.', '.'] && base.len() > 0 {
        assert(full.len() == 2);
        assert(base.len() == 1 && ext.len() == 0);
        assert(base =~= seq!['.']) by {
            assert(full[0] == base[0]);
        }
    }
    if seq!['.'] + ext == seq!['.', '.'] {
        assert((seq!['.'] + ext)[1] == ext[0]);
        assert(ext.contains(ext[0]));
    }
    if ext == seq!['.', '.'] {
        assert(ext.contains(ext[0]));
    }
}

proof fn lemma_last_stop(base: Seq<char>, ext: Seq<char>)
    requires
        !ext.contains('.'),
    ensures
        context::last_stop(base + seq!['.'] + ext) == Some(base.len() as int),
    decreases ext.len(),
{
    let s = base + seq!['.'] + ext;
    if ext.len() > 0 {
        assert(ext.contains(ext.last()));
        let e = ext.drop_last();
        assert(!e.contains('.')) by {
            if e.contains('.') {
                let i = e.index_of('.');
                assert(ext[i] == '.');
            }
        }
        assert(s.drop_last() =~= base + seq!['.'] + e);
        lemma_last_stop(base, e);
    }
}

proof fn lemma_no_stop(s: Seq<char>)
    requires
        !s.contains('.'),
    ensures
        context::last_stop(s) is None,
    decreases s.len(),
{
    if s.len() > 0 {
        assert(s.contains(s.last()));
        let t = s.drop_last();
        assert(!t.contains('.')) by {
            if t.contains('.') {
                let i = t.index_of('.');
                assert(s[i] == '.');
            }
        }
        lemma_no_stop(t);
    }
}

/// The last name on a path counts, but for single full stops.
pub proof fn law_last_name(names: Seq<Seq<char>>, name: Seq<char>)
    ensures
        name != seq!['.'] ==> context::last_name(names.push(name)) == name,
        context::last_name(names.push(seq!['.'])) == context::last_name(names),
        context::last_name(Seq::empty()).len() == 0,
{
    assert(names.push(name).drop_last() =~= names);
    assert(names.push(seq!['.']).drop_last() =~= names);
}

/// On a path that starts with a slash only slashes separate the names.
pub proof fn law_names_behind_a_slash(rest: Seq<char>)
    ensures
        context::path_names(seq!['/'] + rest) == text::fields(Class::Slash, rest),
{
    let path = seq!['/'] + rest;
    let none = Seq::<char>::empty();
    reveal_strlit("\\\\?\\UNC\\");
    assert(!"\\\\?\\UNC\\"@.is_prefix_of(path)) by {
        assert("\\\\?\\UNC\\"@[0] == '\\');
        assert(path[0] == '/');
    }
    assert(path.skip(0) =~= path);
    laws::text::law_fields_between(Class::Slash, seq!['/'], rest, none);
    assert(seq!['/'] + rest + none =~= path);
}

/// A drive is no part of the names on a path.
pub proof fn law_names_on_a_drive(letter: char, rest: Seq<char>)
    requires
        chars::ascii_letter(letter),
    ensures
        context::path_names(seq![letter, ':'] + rest) == text::fields(Class::PathSeparator, rest),
{
    let path = seq![letter, ':'] + rest;
    assert(path.skip(2) =~= rest);
}

/// A path that starts with neither a separator nor a drive is names from its
/// start.
pub proof fn law_names_on_a_plain_path(path: Seq<char>)
    requires
        path.len() > 0 ==> path[0] != '/' && path[0] != '\\',
        path.len() > 1 ==> path[1] != ':',
    ensures
        context::path_names(path) == text::fields(Class::PathSeparator, path),
{
    reveal_strlit("\\\\?\\UNC\\");
    assert(!"\\\\?\\UNC\\"@.is_prefix_of(path)) by {
        assert("\\\\?\\UNC\\"@[0] == '\\');
    }
    assert(path.skip(0) =~= path);
}

/// A server and a share on it are no part of the names on a path.
pub proof fn law_names_on_a_share(server: Seq<char>, share: Seq<char>, rest: Seq<char>)
    requires
        server.len() > 0,
        share.len() > 0,
        server != seq!['?'],
        laws::text::none_of(Class::PathSeparator, server),
        laws::text::none_of(Class::PathSeparator, share),
        rest.len() > 0 ==> Class::PathSeparator.has(rest[0]),
    ensures
        context::path_names(seq!['\\', '\\'] + server + seq!['\\'] + share + rest) == text::fields(
            Class::PathSeparator,
            rest,
        ),
{
    let path = seq!['\\', '\\'] + server + seq!['\\'] + share + rest;
    let a = 2 + server.len() as int;
    let b = a + 1 + share.len();
    reveal_strlit("\\\\?\\UNC\\");
    assert(!"\\\\?\\UNC\\"@.is_prefix_of(path)) by {
        if "\\\\?\\UNC\\"@.is_prefix_of(path) {
            let long = "\\\\?\\UNC\\"@;
            assert(long[2] == '?' && long[3] == '\\');
            assert(path[2] == long[2] && path[3] == long[3]);
            assert(server[0] == '?');
            if server.len() > 1 {
                assert(server[1] == path[3]);
                assert(!Class::PathSeparator.has(server[1]));
            }
            assert(server =~= seq!['?']);
        }
    }
    assert forall|i: int| 2 <= i < a implies !Class::PathSeparator.has(#[trigger] path[i]) by {
        assert(path[i] == server[i - 2]);
    }
    assert(path[a] == '\\');
    assert forall|i: int| a + 1 <= i < b implies !Class::PathSeparator.has(#[trigger] path[i]) by {
        assert(path[i] == share[i - a - 1]);
    }
    if rest.len() > 0 {
        assert(path[b] == rest[0]);
    }
    lemma_name_end(path, 2, a);
    lemma_name_end(path, a + 1, b);
    assert(path.skip(b) =~= rest);
}

proof fn lemma_name_end(path: Seq<char>, k: int, e: int)
    requires
        0 <= k <= e <= path.len(),
        forall|i: int| k <= i < e ==> !Class::PathSeparator.has(#[trigger] path[i]),
        e < path.len() ==> Class::PathSeparator.has(path[e]),
    ensures
        context::name_end(path, k) == e,
    decreases e - k,
{
    if k < e {
        assert(!Class::PathSeparator.has(path[k]));
        lemma_name_end(path, k + 1, e);
    }
}

/// An app is told by its program, else by its name, in lower case, and is
/// unknown where it has neither. On macOS its name is the key as it is.
pub proof fn law_keys_of_apps(path: Seq<char>, name: Seq<char>)
    ensures
        ({
            let program = context::stem(context::last_name(context::path_names(path)));
            &&& program.len() > 0 ==> context::bundle_id(path, name) == chars::lowercase(program)
            &&& program.len() == 0 && name.len() > 0 ==> context::bundle_id(path, name)
                == chars::lowercase(name)
            &&& program.len() == 0 && name.len() == 0 ==> context::bundle_id(path, name)
                == "unknown"@
            &&& name.len() > 0 ==> context::bundle_id_macos(name) == name
            &&& name.len() == 0 ==> context::bundle_id_macos(name) == "unknown"@
        }),
{
}

/// A window belongs to the app of its program; one without a program goes by
/// its name in lower case.
pub proof fn law_app_of_a_window(macos: bool, path: Seq<char>, name: Seq<char>)
    ensures
        path.len() == 0 ==> context::window_bundle_id(macos, path, name) == chars::lowercase(name),
        path.len() > 0 && macos ==> context::window_bundle_id(macos, path, name)
            == context::bundle_id_macos(name),
        path.len() > 0 && !macos ==> context::window_bundle_id(macos, path, name)
            == context::bundle_id(path, name),
        context::identifiable(path, name) <==> path.len() > 0 || name.len() > 0,
{
}

} // verus!
