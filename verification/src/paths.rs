//! Paths as text: components, file names and extensions, joining, and the
//! well-known locations of the store and the configuration file.
//!
//! A path is a string whose segments are separated by `/`. Its components
//! are read as the standard library reads them on Unix: the root `/` of an
//! absolute path comes first; repeated and trailing separators are ignored;
//! a segment `.` is dropped unless it begins a relative path; a segment
//! `..` stays as it is.
use vstd::prelude::*;
use vstd::string::*;
use crate::text::{chars_of, chars_equal};

verus! {

/// The segments of a path, left to right: the maximal runs of characters
/// other than `/`.
pub open spec fn segments(p: Seq<char>) -> Seq<Seq<char>>
    decreases p.len(),
{
    if p.len() == 0 {
        Seq::empty()
    } else {
        let head = p.drop_last();
        let before = segments(head);
        if p.last() == '/' {
            before
        } else if head.len() > 0 && head.last() != '/' {
            before.drop_last().push(before.last().push(p.last()))
        } else {
            before.push(seq![p.last()])
        }
    }
}

/// The path begins at the root.
pub open spec fn is_absolute(p: Seq<char>) -> bool {
    p.len() > 0 && p[0] == '/'
}

/// The segments that count as components: every segment but `.`, which
/// only counts where it is the first segment of a relative path.
pub open spec fn counted_segments(segs: Seq<Seq<char>>, absolute: bool) -> Seq<Seq<char>>
    decreases segs.len(),
{
    if segs.len() == 0 {
        Seq::empty()
    } else {
        let before = counted_segments(segs.drop_last(), absolute);
        if segs.last() == seq!['.'] && (absolute || segs.len() > 1) {
            before
        } else {
            before.push(segs.last())
        }
    }
}

/// The components of a path, left to right: the root `/` where the path is
/// absolute, then the segments that count.
pub open spec fn components(p: Seq<char>) -> Seq<Seq<char>> {
    let counted = counted_segments(segments(p), is_absolute(p));
    if is_absolute(p) {
        seq![seq!['/']] + counted
    } else {
        counted
    }
}

/// The last component of a path, unless the path has no component or ends
/// in the root, in `.` or in `..`.
pub open spec fn file_name_of(p: Seq<char>) -> Option<Seq<char>> {
    let parts = components(p);
    if parts.len() == 0 || parts.last() == seq!['/'] || parts.last() == seq!['.'] || parts.last()
        == seq!['.', '.'] {
        None
    } else {
        Some(parts.last())
    }
}

/// Position of the last `.` in a name, or -1 when it has none.
pub open spec fn last_dot(name: Seq<char>) -> int
    decreases name.len(),
{
    if name.len() == 0 {
        -1
    } else if name.last() == '.' {
        name.len() - 1
    } else {
        last_dot(name.drop_last())
    }
}

/// What follows the last `.` of a file name. A name without a `.`, or whose
/// only `.` is its first character, has no extension.
pub open spec fn extension_of(name: Seq<char>) -> Option<Seq<char>> {
    let dot = last_dot(name);
    if dot <= 0 {
        None
    } else {
        Some(name.skip(dot + 1))
    }
}

/// A file name without its extension.
pub open spec fn stem_of(name: Seq<char>) -> Seq<char> {
    let dot = last_dot(name);
    if dot <= 0 {
        name
    } else {
        name.take(dot)
    }
}

/// `rest` appended to `base` as further components. An absolute `rest`
/// replaces `base`.
pub open spec fn joined(base: Seq<char>, rest: Seq<char>) -> Seq<char> {
    if rest.len() > 0 && rest[0] == '/' {
        rest
    } else if base.len() == 0 || base.last() == '/' {
        base + rest
    } else {
        base + seq!['/'] + rest
    }
}

/// The views of a list of strings.
pub open spec fn views(v: Seq<String>) -> Seq<Seq<char>> {
    Seq::new(v.len(), |i: int| v[i]@)
}

proof fn lemma_last_dot_bounds(name: Seq<char>)
    ensures
        -1 <= last_dot(name) < name.len(),
        last_dot(name) >= 0 ==> name[last_dot(name)] == '.',
    decreases name.len(),
{
    if name.len() > 0 && name.last() != '.' {
        lemma_last_dot_bounds(name.drop_last());
    }
}

/// Position of the last `.` among the first `n` characters.
fn find_last_dot(name: &Vec<char>) -> (r: Option<usize>)
    ensures
        match r {
            Some(i) => i == last_dot(name@),
            None => last_dot(name@) == -1,
        },
{
    let mut i: usize = name.len();
    assert(name@.take(i as int) == name@);
    while i > 0
        invariant
            i <= name.len(),
            last_dot(name@) == last_dot(name@.take(i as int)),
        decreases i,
    {
        if name[i - 1] == '.' {
            assert(name@.take(i as int).last() == '.');
            return Some(i - 1);
        }
        assert(name@.take(i as int).drop_last() == name@.take(i - 1));
        i -= 1;
    }
    assert(name@.take(0).len() == 0);
    None
}

/// The segments of `path`.
fn path_segments(path: &str) -> (parts: Vec<String>)
    ensures
        views(parts@) == segments(path@),
{
    let chars = chars_of(path);
    let n = chars.len();
    let mut parts: Vec<String> = Vec::new();
    let mut start: usize = 0;
    let mut i: usize = 0;
    assert(chars@.take(0) =~= Seq::<char>::empty());
    assert(views(parts@) =~= segments(chars@.take(0)));
    while i < n
        invariant
            n == chars.len(),
            chars@ == path@,
            start <= i <= n,
            start > 0 ==> chars@[start - 1] == '/',
            forall|k: int| start <= k < i ==> chars@[k] != '/',
            start == i ==> views(parts@) == segments(chars@.take(i as int)),
            start < i ==> views(parts@).push(chars@.subrange(start as int, i as int)) == segments(
                chars@.take(i as int),
            ),
        decreases n - i,
    {
        let ghost prefix = chars@.take(i as int);
        let ghost next = chars@.take(i + 1);
        assert(next.drop_last() == prefix);
        assert(next.last() == chars@[i as int]);
        if chars[i] == '/' {
            if start < i {
                let part = path.substring_char(start, i).to_owned();
                let ghost before = views(parts@);
                parts.push(part);
                assert(views(parts@) =~= before.push(chars@.subrange(start as int, i as int)));
            }
            start = i + 1;
        } else {
            proof {
                if start < i {
                    let done = views(parts@);
                    let partial = chars@.subrange(start as int, i as int);
                    assert(prefix.last() == chars@[i - 1]);
                    assert(done.push(partial).drop_last() =~= done);
                    assert(partial.push(chars@[i as int]) =~= chars@.subrange(
                        start as int,
                        i + 1,
                    ));
                } else {
                    assert(seq![chars@[i as int]] =~= chars@.subrange(start as int, i + 1));
                    if i > 0 {
                        assert(prefix.last() == chars@[i - 1]);
                    }
                }
            }
        }
        i += 1;
    }
    assert(chars@.take(n as int) == chars@);
    if start < n {
        let part = path.substring_char(start, n).to_owned();
        let ghost before = views(parts@);
        parts.push(part);
        assert(views(parts@) =~= before.push(chars@.subrange(start as int, n as int)));
    }
    parts
}

/// The components of `path`.
pub fn path_components(path: &str) -> (parts: Vec<String>)
    ensures
        views(parts@) == components(path@),
{
    let chars = chars_of(path);
    let absolute = chars.len() > 0 && chars[0] == '/';
    let segs = path_segments(path);
    let dot = chars_of(".");
    proof {
        reveal_strlit(".");
        reveal_strlit("/");
        assert(dot@ =~= seq!['.']);
        assert("/"@ =~= seq!['/']);
    }
    let mut parts: Vec<String> = Vec::new();
    if absolute {
        parts.push("/".to_owned());
    }
    let ghost root = views(parts@);
    let ghost all = views(segs@);
    assert(root =~= if absolute {
        seq![seq!['/']]
    } else {
        Seq::empty()
    });
    assert(all.take(0) =~= Seq::empty());
    assert(views(parts@) =~= root + counted_segments(all.take(0), absolute));
    let mut i: usize = 0;
    while i < segs.len()
        invariant
            i <= segs.len(),
            all == views(segs@),
            dot@ == seq!['.'],
            views(parts@) == root + counted_segments(all.take(i as int), absolute),
        decreases segs.len() - i,
    {
        let ghost next = all.take(i + 1);
        assert(next.drop_last() =~= all.take(i as int));
        assert(next.last() == segs@[i as int]@);
        let seg = chars_of(segs[i].as_str());
        if !(chars_equal(&seg, &dot) && (absolute || i > 0)) {
            let ghost before = views(parts@);
            parts.push(segs[i].clone());
            assert(views(parts@) =~= before.push(segs@[i as int]@));
            assert(before.push(segs@[i as int]@) =~= root + counted_segments(
                all.take(i as int),
                absolute,
            ).push(segs@[i as int]@));
        }
        i += 1;
    }
    assert(all.take(segs.len() as int) =~= all);
    parts
}

/// The file name of `path`: its last component, if it has one that is not
/// the root, `.` or `..`.
pub fn file_name(path: &str) -> (name: Option<String>)
    ensures
        match name {
            Some(n) => file_name_of(path@) == Some(n@),
            None => file_name_of(path@) is None,
        },
{
    let mut parts = path_components(path);
    match parts.pop() {
        None => None,
        Some(last) => {
            assert(views(parts@.push(last)).last() == last@);
            proof {
                reveal_strlit("..");
                reveal_strlit(".");
                reveal_strlit("/");
                assert(".."@ =~= seq!['.', '.']);
                assert("."@ =~= seq!['.']);
                assert("/"@ =~= seq!['/']);
            }
            let name = chars_of(last.as_str());
            if chars_equal(&name, &chars_of("..")) || chars_equal(&name, &chars_of("."))
                || chars_equal(&name, &chars_of("/")) {
                None
            } else {
                Some(last)
            }
        },
    }
}

/// The extension of a file name.
pub fn extension(name: &str) -> (ext: Option<String>)
    ensures
        match ext {
            Some(e) => extension_of(name@) == Some(e@),
            None => extension_of(name@) is None,
        },
{
    let chars = chars_of(name);
    proof {
        lemma_last_dot_bounds(chars@);
    }
    match find_last_dot(&chars) {
        None => None,
        Some(dot) => {
            if dot == 0 {
                None
            } else {
                assert(dot < chars.len());
                let ext = name.substring_char(dot + 1, chars.len()).to_owned();
                assert(name@.subrange(dot + 1, chars.len() as int) =~= name@.skip(dot + 1));
                Some(ext)
            }
        },
    }
}

/// A file name without its extension.
pub fn file_stem(name: &str) -> (stem: String)
    ensures
        stem@ == stem_of(name@),
{
    let chars = chars_of(name);
    proof {
        lemma_last_dot_bounds(chars@);
    }
    match find_last_dot(&chars) {
        None => name.to_owned(),
        Some(dot) => {
            if dot == 0 {
                name.to_owned()
            } else {
                let stem = name.substring_char(0, dot).to_owned();
                assert(name@.subrange(0, dot as int) =~= name@.take(dot as int));
                stem
            }
        },
    }
}

/// `rest` appended to `base`.
pub fn join(base: &str, rest: &str) -> (path: String)
    ensures
        path@ == joined(base@, rest@),
{
    let b = chars_of(base);
    let r = chars_of(rest);
    proof {
        reveal_strlit("/");
        assert("/"@ =~= seq!['/']);
    }
    if r.len() > 0 && r[0] == '/' {
        rest.to_owned()
    } else if b.len() == 0 || b[b.len() - 1] == '/' {
        base.to_owned().concat(rest)
    } else {
        base.to_owned().concat("/").concat(rest)
    }
}

/// Directory of the index store below the home directory `home`.
pub open spec fn database_dir_of(home: Seq<char>) -> Seq<char> {
    joined(joined(joined(home, ".local"@), "share"@), "novasearch"@)
}

/// Directory of the configuration below the home directory `home`.
pub open spec fn config_dir_of(home: Seq<char>) -> Seq<char> {
    joined(joined(home, ".config"@), "novasearch"@)
}

/// Directory that holds the index store: `.local/share/novasearch` below
/// `home`.
pub fn get_database_dir(home: &str) -> (dir: String)
    ensures
        dir@ == database_dir_of(home@),
{
    let a = join(home, ".local");
    let b = join(a.as_str(), "share");
    join(b.as_str(), "novasearch")
}

/// File of the index store: `index.db` in the store directory.
pub fn get_database_path(home: &str) -> (path: String)
    ensures
        path@ == joined(database_dir_of(home@), "index.db"@),
{
    let dir = get_database_dir(home);
    join(dir.as_str(), "index.db")
}

/// Directory that holds the configuration: `.config/novasearch` below `home`.
pub fn get_config_dir(home: &str) -> (dir: String)
    ensures
        dir@ == config_dir_of(home@),
{
    let a = join(home, ".config");
    join(a.as_str(), "novasearch")
}

/// The configuration file: `config.toml` in the configuration directory.
pub fn get_config_path(home: &str) -> (path: String)
    ensures
        path@ == joined(config_dir_of(home@), "config.toml"@),
{
    let dir = get_config_dir(home);
    join(dir.as_str(), "config.toml")
}

/// A configured path with a leading `~` replaced by the home directory.
/// Without a home directory the path is left as written.
pub open spec fn expanded(path: Seq<char>, home: Option<Seq<char>>) -> Seq<char> {
    match home {
        Some(h) => {
            if path.len() >= 2 && path[0] == '~' && path[1] == '/' {
                joined(h, path.skip(2))
            } else if path == seq!['~'] {
                h
            } else {
                path
            }
        },
        None => path,
    }
}

/// Expands `~` and `~/...` against the home directory, when there is one.
pub fn expand_tilde(path: &str, home: Option<&str>) -> (full: String)
    ensures
        full@ == expanded(path@, opt_view(home)),
{
    let chars = chars_of(path);
    match home {
        Some(h) => {
            if chars.len() >= 2 && chars[0] == '~' && chars[1] == '/' {
                let rest = path.substring_char(2, chars.len());
                assert(path@.subrange(2, chars.len() as int) =~= path@.skip(2));
                join(h, rest)
            } else if chars.len() == 1 && chars[0] == '~' {
                assert(path@ =~= seq!['~']);
                h.to_owned()
            } else {
                path.to_owned()
            }
        },
        None => path.to_owned(),
    }
}

/// The view of an optional string.
pub open spec fn opt_view(s: Option<&str>) -> Option<Seq<char>> {
    match s {
        Some(t) => Some(t@),
        None => None,
    }
}

} // verus!
