//! Where the application keeps its files, next to its executable (or next
//! to the application bundle on macOS).

use vstd::prelude::*;
use crate::text::{after_last, lemma_after_last, split_seq, lemma_split_append, lemma_split_single, lemma_split_seq_len};

verus! {

/// `p` is a prefix of `s`.
pub open spec fn is_prefix_of(p: Seq<char>, s: Seq<char>) -> bool {
    p.len() <= s.len() && s.take(p.len() as int) == p
}

/// A prefix of a prefix is a prefix.
proof fn lemma_prefix_trans(a: Seq<char>, b: Seq<char>, c: Seq<char>)
    requires
        is_prefix_of(a, b),
        is_prefix_of(b, c),
    ensures
        is_prefix_of(a, c),
{
    assert(c.take(a.len() as int) =~= b.take(a.len() as int));
}

/// A prefix of a path that does not start with two separators does not
/// either.
proof fn lemma_prefix_unc_free(a: Seq<char>, b: Seq<char>)
    requires
        is_prefix_of(a, b),
        unc_free(b),
    ensures
        unc_free(a),
{
    if a.len() >= 2 {
        assert(a[0] == b.take(a.len() as int)[0]);
        assert(a[1] == b.take(a.len() as int)[1]);
    }
}

/// A path separator on some platform.
pub open spec fn is_separator(c: char) -> bool {
    c == '/' || c == '\\'
}

/// A single relative path component that no platform reads specially.
pub open spec fn plain_component(name: Seq<char>) -> bool {
    &&& name.len() > 0
    &&& forall|i: int| 0 <= i < name.len() ==> !is_separator(#[trigger] name[i]) && name[i] != ':'
}

/// A name that every platform appends to a base path: it does not start
/// with a separator and holds no `:` (which could make it a drive prefix).
pub open spec fn relative_name(name: Seq<char>) -> bool {
    &&& !(name.len() > 0 && is_separator(name[0]))
    &&& !name.contains(':')
}

/// A path that does not start with two separators: not a Windows UNC,
/// device or verbatim path, the forms whose joins Windows rewrites.
pub open spec fn unc_free(p: Seq<char>) -> bool {
    !(p.len() >= 2 && is_separator(p[0]) && is_separator(p[1]))
}

/// `res` is `base` joined with `name`: the two, with or without a
/// separator between them.
pub open spec fn joined(base: Seq<char>, name: Seq<char>, res: Seq<char>) -> bool {
    ||| res == base + name
    ||| exists|c: char| is_separator(c) && res == base + seq![c] + name
}

/// `res` is `base` joined with `name` for a base with no `\` and no `:`:
/// the name alone after an empty base, the two after a base ending in `/`,
/// otherwise the two with the platform's separator between them.
pub open spec fn path_joined(base: Seq<char>, name: Seq<char>, res: Seq<char>) -> bool {
    if base.len() == 0 {
        res == name
    } else if base.last() == '/' {
        res == base + name
    } else {
        exists|c: char| is_separator(c) && res == base + seq![c] + name
    }
}

/// A component of a path that every platform reads as a plain name.
pub open spec fn plain_piece(c: Seq<char>) -> bool {
    &&& c.len() > 0
    &&& c != "."@
    &&& c != ".."@
}

/// A path that every platform splits the same way, into the same
/// components: no `\` and no `:`, and between its `/`s only plain names
/// (no empty name, `.` or `..`), save an empty first one for a leading `/`.
pub open spec fn simple_path(p: Seq<char>) -> bool {
    let parts = split_seq(p, '/');
    &&& !p.contains('\\')
    &&& !p.contains(':')
    &&& unc_free(p)
    &&& forall|i: int|
        0 <= i < parts.len() ==> plain_piece(#[trigger] parts[i]) || (i == 0 && parts.len() > 1
            && parts[0].len() == 0)
}

/// A simple path, the empty path or the root `/`.
pub open spec fn tame_path(p: Seq<char>) -> bool {
    p.len() == 0 || p == seq!['/'] || simple_path(p)
}

/// The parent of a simple path: the text before its last `/` (the root
/// when that is the first character), or the empty path when it has none.
pub open spec fn parent_of(p: Seq<char>) -> Seq<char> {
    let n = p.len() - after_last(p, '/').len();
    if n == 0 {
        Seq::<char>::empty()
    } else if n == 1 {
        seq!['/']
    } else {
        p.take(n - 1)
    }
}

/// The parent of a tame path: none for the empty path and the root.
pub open spec fn parent_opt(p: Seq<char>) -> Option<Seq<char>> {
    if p.len() == 0 || p == seq!['/'] {
        None
    } else {
        Some(parent_of(p))
    }
}

/// A tame path whose last component is `name`.
pub open spec fn ends_in(p: Seq<char>, name: Seq<char>) -> bool {
    simple_path(p) && after_last(p, '/') == name
}

/// The parent of a simple path is tame and a prefix of it.
proof fn lemma_parent_tame(p: Seq<char>)
    requires
        simple_path(p),
    ensures
        tame_path(parent_of(p)),
        is_prefix_of(parent_of(p), p),
        parent_of(p).len() < p.len(),
{
    let t = after_last(p, '/');
    lemma_after_last(p, '/');
    let n = p.len() - t.len();
    let parts = split_seq(p, '/');
    if n == 0 {
        assert(p.take(0) =~= Seq::<char>::empty());
        lemma_split_single(p, '/');
        assert(plain_piece(parts[0]));
    } else {
        let a = p.take(n - 1);
        assert(p =~= a + seq!['/'] + t) by {
            assert(p.take(n) =~= a.push('/'));
        }
        lemma_split_append(a, t, '/');
        assert(parts == split_seq(a, '/').push(t));
        assert(plain_piece(parts[parts.len() - 1]));
        if n == 1 {
            assert(p.take(1) =~= seq!['/']);
        } else {
            let pa = split_seq(a, '/');
            assert(!a.contains('\\')) by {
                if a.contains('\\') {
                    let k = choose|k: int| 0 <= k < a.len() && a[k] == '\\';
                    assert(p[k] == '\\');
                }
            }
            assert(!a.contains(':')) by {
                if a.contains(':') {
                    let k = choose|k: int| 0 <= k < a.len() && a[k] == ':';
                    assert(p[k] == ':');
                }
            }
            lemma_split_seq_len(a, '/');
            assert(is_prefix_of(a, p)) by {
                assert(p.take(a.len() as int) =~= a);
            }
            lemma_prefix_unc_free(a, p);
            assert forall|i: int|
                0 <= i < pa.len() implies plain_piece(#[trigger] pa[i]) || (i == 0 && pa.len() > 1
                    && pa[0].len() == 0) by {
                assert(parts[i] == pa[i]);
                if !plain_piece(pa[i]) {
                    assert(i == 0 && pa[0].len() == 0);
                    if pa.len() == 1 {
                        lemma_after_last(a, '/');
                        if after_last(a, '/').len() == a.len() {
                            lemma_split_single(a, '/');
                            assert(pa[0] == a);
                        } else {
                            let t2 = after_last(a, '/');
                            let a2 = a.take(a.len() - t2.len() - 1);
                            assert(a =~= a2 + seq!['/'] + t2) by {
                                assert(a.take(a.len() - t2.len()) =~= a2.push('/'));
                            }
                            lemma_split_append(a2, t2, '/');
                            lemma_split_seq_len(a2, '/');
                        }
                    }
                }
            }
        }
    }
}

/// Calls `std::path::Path::parent` and copies the result. Which part of a
/// path is its last component depends on the platform; on every platform
/// the parent, when there is one, is a shorter prefix of the path. For the
/// empty path and the root there is none, and for a path every platform
/// splits the same way it is the text before the last `/` (the root, or
/// the empty path when there is no `/`).
#[verifier::external_body]
fn path_parent(p: &str) -> (res: Option<String>)
    ensures
        res matches Some(q) ==> q@.len() < p@.len() && is_prefix_of(q@, p@),
        tame_path(p@) ==> match res {
            Some(q) => parent_opt(p@) == Some(q@),
            None => parent_opt(p@) is None,
        },
{
    std::path::Path::new(p).parent().map(|q| q.to_string_lossy().to_string())
}

/// Calls `std::path::Path::ends_with`, which compares whole components.
/// How a path splits into components depends on the platform, so nothing
/// is stated of other paths; for a tame path and a plain name, it tells
/// whether the path's last component is that name.
#[verifier::external_body]
fn path_ends_with(p: &str, child: &str) -> (res: bool)
    ensures
        tame_path(p@) && plain_component(child@) && plain_piece(child@) ==> res == ends_in(p@, child@),
{
    std::path::Path::new(p).ends_with(child)
}

/// Calls `std::path::Path::join` and copies the result. For a name that
/// does not start with a separator and holds no `:`, and a base that does
/// not start with two separators (Windows rebuilds a join onto a verbatim
/// path from its components), every platform puts the name after the base,
/// with or without one separator between them; for such a base with no `\`
/// and no `:`, with a separator exactly when the base is not empty and does
/// not end in `/`. Whatever the two, a join onto a non-empty base is not
/// empty.
#[verifier::external_body]
pub(crate) fn path_join(base: &str, name: &str) -> (res: String)
    ensures
        relative_name(name@) && unc_free(base@) ==> joined(base@, name@, res@),
        relative_name(name@) && unc_free(base@) && !base@.contains('\\') && !base@.contains(':')
            ==> path_joined(base@, name@, res@),
        base@.len() > 0 ==> res@.len() > 0,
{
    std::path::Path::new(base).join(name).to_string_lossy().to_string()
}

/// The directory the application keeps its files in, for an executable
/// with a simple path: the executable's directory, or, when that directory
/// is named `MacOS` (inside an application bundle), the directory three
/// levels above it, when there is one.
pub open spec fn app_dir(exe: Seq<char>) -> Seq<char> {
    let d = parent_of(exe);
    if ends_in(d, "MacOS"@) {
        match parent_opt(d) {
            Some(c) => match parent_opt(c) {
                Some(b) => match parent_opt(b) {
                    Some(g) => g,
                    None => d,
                },
                None => d,
            },
            None => d,
        }
    } else {
        d
    }
}

/// The directory the application keeps its files in, given the path of its
/// executable: the executable's directory, or, when that is the `MacOS`
/// directory of an application bundle, the directory holding the bundle
/// (three levels up, when there are that many). It is a prefix of the
/// executable's path; for a simple path it is `app_dir`.
pub fn get_app_dir(exe: &str) -> (res: String)
    ensures
        is_prefix_of(res@, exe@),
        simple_path(exe@) ==> res@ == app_dir(exe@) && tame_path(res@),
{
    proof {
        reveal_strlit("MacOS");
        if simple_path(exe@) {
            lemma_parent_tame(exe@);
        }
    }
    let exe_dir = match path_parent(exe) {
        Some(p) => p,
        None => String::from_str(exe),
    };
    assert(is_prefix_of(exe_dir@, exe@)) by {
        assert(exe@.take(exe@.len() as int) =~= exe@);
    }
    assert(plain_component("MacOS"@) && plain_piece("MacOS"@)) by {
        let m = "MacOS"@;
        assert(m =~= seq!['M', 'a', 'c', 'O', 'S']);
        assert(m.len() != "."@.len() && m.len() != ".."@.len()) by {
            reveal_strlit(".");
            reveal_strlit("..");
        }
    }
    if path_ends_with(exe_dir.as_str(), "MacOS") {
        if let Some(contents) = path_parent(exe_dir.as_str()) {
            proof {
                if simple_path(exe@) {
                    lemma_parent_tame(exe_dir@);
                }
            }
            if let Some(bundle) = path_parent(contents.as_str()) {
                proof {
                    if simple_path(exe@) {
                        lemma_parent_tame(contents@);
                    }
                }
                if let Some(d) = path_parent(bundle.as_str()) {
                    proof {
                        lemma_prefix_trans(bundle@, contents@, exe_dir@);
                        lemma_prefix_trans(d@, bundle@, exe_dir@);
                        lemma_prefix_trans(d@, exe_dir@, exe@);
                        if simple_path(exe@) {
                            lemma_parent_tame(bundle@);
                        }
                    }
                    return d;
                }
            }
        }
        exe_dir
    } else {
        exe_dir
    }
}

/// A tame path holds no `\` and no `:`.
proof fn lemma_tame_unprefixed(p: Seq<char>)
    requires
        tame_path(p),
    ensures
        !p.contains('\\'),
        !p.contains(':'),
{
    if p == seq!['/'] {
        assert(!p.contains('\\')) by {
            if p.contains('\\') {
                let k = choose|k: int| 0 <= k < p.len() && p[k] == '\\';
            }
        }
        assert(!p.contains(':')) by {
            if p.contains(':') {
                let k = choose|k: int| 0 <= k < p.len() && p[k] == ':';
            }
        }
    }
}

/// A plain component is a name every platform appends.
proof fn lemma_plain_relative(name: Seq<char>)
    requires
        plain_component(name),
    ensures
        relative_name(name),
{
    assert(!name.contains(':')) by {
        if name.contains(':') {
            let k = choose|k: int| 0 <= k < name.len() && name[k] == ':';
        }
    }
}

/// A file or directory of the given name in the application's directory;
/// for an executable with a simple path, `app_dir` joined with the name.
pub fn in_app_dir(exe: &str, name: &str) -> (res: String)
    requires
        plain_component(name@),
    ensures
        unc_free(exe@) ==> exists|dir: Seq<char>| is_prefix_of(dir, exe@) && joined(dir, name@, res@),
        simple_path(exe@) ==> path_joined(app_dir(exe@), name@, res@),
{
    let dir = get_app_dir(exe);
    proof {
        lemma_plain_relative(name@);
        if unc_free(exe@) {
            lemma_prefix_unc_free(dir@, exe@);
        }
        if simple_path(exe@) {
            lemma_tame_unprefixed(dir@);
        }
    }
    path_join(dir.as_str(), name)
}

/// The path of the configuration file, given the executable's path:
/// "config.json" in the application's directory.
pub fn get_config_path(exe: &str) -> (res: String)
    ensures
        unc_free(exe@) ==> exists|dir: Seq<char>| is_prefix_of(dir, exe@) && joined(dir, "config.json"@, res@),
        simple_path(exe@) ==> path_joined(app_dir(exe@), "config.json"@, res@),
{
    proof {
        reveal_strlit("config.json");
    }
    in_app_dir(exe, "config.json")
}

/// What a joined path holds before the name it was joined with, without a
/// separator that ends it.
pub open spec fn dir_part(r: Seq<char>, name: Seq<char>) -> Seq<char> {
    let t = r.take(r.len() - name.len());
    if t.len() > 0 && is_separator(t.last()) {
        t.drop_last()
    } else {
        t
    }
}

/// Two names joined with one base keep the same directory part.
proof fn lemma_joined_same_dir(base: Seq<char>, n1: Seq<char>, r1: Seq<char>, n2: Seq<char>, r2: Seq<char>)
    requires
        path_joined(base, n1, r1),
        path_joined(base, n2, r2),
    ensures
        dir_part(r1, n1) == dir_part(r2, n2),
{
    if base.len() == 0 {
        assert(r1.take(0) =~= Seq::<char>::empty());
        assert(r2.take(0) =~= Seq::<char>::empty());
    } else if base.last() == '/' {
        assert(r1.take(base.len() as int) =~= base);
        assert(r2.take(base.len() as int) =~= base);
    } else {
        let c1 = choose|c: char| is_separator(c) && r1 == base + seq![c] + n1;
        let c2 = choose|c: char| is_separator(c) && r2 == base + seq![c] + n2;
        assert(r1.take(base.len() + 1int) =~= base.push(c1));
        assert(r2.take(base.len() + 1int) =~= base.push(c2));
        assert(base.push(c1).drop_last() =~= base);
        assert(base.push(c2).drop_last() =~= base);
    }
}

/// The configuration file, the default data center and the default log
/// directory lie in one directory, the application's: with that directory
/// and the separator before each name set aside, the three paths agree.
pub proof fn lemma_app_files_together(exe: Seq<char>, config: Seq<char>, data_center: Seq<char>, logs: Seq<char>)
    requires
        simple_path(exe),
        path_joined(app_dir(exe), "config.json"@, config),
        path_joined(app_dir(exe), "datacenter"@, data_center),
        path_joined(app_dir(exe), "logs"@, logs),
    ensures
        dir_part(config, "config.json"@) == dir_part(data_center, "datacenter"@),
        dir_part(config, "config.json"@) == dir_part(logs, "logs"@),
{
    lemma_joined_same_dir(app_dir(exe), "config.json"@, config, "datacenter"@, data_center);
    lemma_joined_same_dir(app_dir(exe), "config.json"@, config, "logs"@, logs);
}

} // verus!
