//! The parts of a path.

use crate::text;
use crate::text::{count, cut, finishes_with, rfind_str, same, without_first};
use vstd::prelude::*;

verus! {

/// The last component of a path. Slashes at its end, and a `.` that stands
/// there alone, do not count.
pub open spec fn leaf(path: Seq<char>) -> Seq<char>
    decreases path.len(),
{
    if path.len() > 0 && (text::ends(path, "/"@) || text::ends(path, "/."@)) {
        leaf(path.drop_last())
    } else {
        match text::find_last(path, "/"@) {
            Some(i) => path.skip(i + 1),
            None => path,
        }
    }
}

/// What follows the last dot of a file's name, unless it is the first
/// character.
pub open spec fn extension(path: Seq<char>) -> Seq<char> {
    let name = leaf(path);
    match text::find_last(name, "."@) {
        Some(i) => if i > 0 && name != ".."@ {
            name.skip(i + 1)
        } else {
            Seq::empty()
        },
        None => Seq::empty(),
    }
}

/// A file's name without its extension.
pub open spec fn stem(path: Seq<char>) -> Seq<char> {
    let name = leaf(path);
    if name == ".."@ || name == "."@ {
        Seq::empty()
    } else {
        match text::find_last(name, "."@) {
            Some(i) => if i > 0 {
                name.take(i)
            } else {
                name
            },
            None => name,
        }
    }
}

proof fn last_sign(a: Seq<char>, c: Seq<char>, b: Seq<char>)
    requires
        c.len() == 1,
        !b.contains(c[0]),
    ensures
        text::find_last(a + c + b, c) == Some(a.len() as int),
    decreases b.len(),
{
    let s = a + c + b;
    let n = a.len() as int;
    if b.len() == 0 {
        assert(s.subrange(n, n + 1) =~= c);
        assert(s.skip(n) =~= c);
    } else {
        if text::ends(s, c) {
            assert(s.subrange(s.len() - 1, s.len() as int)[0] == s.last());
            assert(s.last() == b.last());
            assert(b[b.len() - 1] == c[0]);
        }
        let t = b.drop_last();
        if t.contains(c[0]) {
            let i = choose|i: int| 0 <= i < t.len() && t[i] == c[0];
            assert(b[i] == c[0]);
        }
        last_sign(a, c, t);
        assert(s.drop_last() =~= a + c + t);
    }
}

proof fn no_sign(b: Seq<char>, c: Seq<char>)
    requires
        c.len() == 1,
        !b.contains(c[0]),
    ensures
        text::find_last(b, c) is None,
    decreases b.len(),
{
    if b.len() > 0 {
        if text::ends(b, c) {
            assert(b.subrange(b.len() - 1, b.len() as int)[0] == b.last());
            assert(b[b.len() - 1] == c[0]);
        }
        let t = b.drop_last();
        if t.contains(c[0]) {
            let i = choose|i: int| 0 <= i < t.len() && t[i] == c[0];
            assert(b[i] == c[0]);
        }
        no_sign(t, c);
    } else if text::ends(b, c) {
        assert(false);
    }
}

/// What stands behind the last slash of a path is its last component.
pub proof fn leaf_of_plain(dir: Seq<char>, file: Seq<char>)
    requires
        file.len() > 0,
        !file.contains('/'),
        file != "."@,
    ensures
        leaf(file) == file,
        leaf(dir + "/"@ + file) == file,
{
    reveal_strlit("/");
    reveal_strlit("/.");
    reveal_strlit(".");
    assert("/"@ =~= seq!['/']);
    let p = dir + "/"@ + file;
    assert(p.last() == file.last());
    assert(file[file.len() - 1] == file.last());
    if text::ends(p, "/"@) {
        assert(p.subrange(p.len() - 1, p.len() as int)[0] == p.last());
    }
    if text::ends(p, "/."@) {
        let u = p.subrange(p.len() - 2, p.len() as int);
        assert(u[0] == p[p.len() - 2] && u[1] == p.last());
        if file.len() == 1 {
            assert(file =~= "."@);
        } else {
            assert(file[file.len() - 2] == '/');
        }
    }
    if text::ends(file, "/"@) {
        assert(file.subrange(file.len() - 1, file.len() as int)[0] == file.last());
    }
    if text::ends(file, "/."@) {
        let u = file.subrange(file.len() - 2, file.len() as int);
        assert(u[0] == file[file.len() - 2]);
    }
    last_sign(dir, "/"@, file);
    no_sign(file, "/"@);
    assert(p.skip(dir.len() as int + 1) =~= file);
}

/// A path to a file parts into the directory, the stem and the extension: the
/// name is what stands behind the last slash, and the extension what stands
/// behind the name's last dot.
pub proof fn path_parts(dir: Seq<char>, base: Seq<char>, ext: Seq<char>)
    requires
        base.len() > 0,
        !base.contains('/'),
        base != "."@,
        !ext.contains('/'),
        !ext.contains('.'),
    ensures
        ({
            let file = base + "."@ + ext;
            &&& leaf(dir + "/"@ + file) == file
            &&& extension(dir + "/"@ + file) == ext
            &&& stem(dir + "/"@ + file) == base
            &&& leaf(file) == file
            &&& extension(file) == ext
            &&& stem(file) == base
        }),
{
    reveal_strlit(".");
    reveal_strlit("..");
    assert("."@ =~= seq!['.']);
    let file = base + "."@ + ext;
    if file.contains('/') {
        let i = choose|i: int| 0 <= i < file.len() && file[i] == '/';
        if i < base.len() {
            assert(base[i] == '/');
        } else {
            assert(ext[i - base.len() - 1] == '/');
        }
    }
    leaf_of_plain(dir, file);
    last_sign(base, "."@, ext);
    assert(file.skip(base.len() as int + 1) =~= ext);
    assert(file.take(base.len() as int) =~= base);
    if file == ".."@ {
        assert(base =~= "."@);
    }
}

/// A name without a dot has no extension and is its own stem; neither does a
/// name whose one dot is its first character.
pub proof fn plain_names_have_no_extension(dir: Seq<char>, file: Seq<char>)
    requires
        file.len() > 0,
        !file.contains('/'),
        !file.contains('.'),
    ensures
        extension(dir + "/"@ + file) == Seq::<char>::empty(),
        stem(dir + "/"@ + file) == file,
        extension(dir + "/."@ + file) == Seq::<char>::empty(),
        stem(dir + "/."@ + file) == "."@ + file,
{
    reveal_strlit(".");
    reveal_strlit("..");
    reveal_strlit("/");
    reveal_strlit("/.");
    assert("."@ =~= seq!['.']);
    assert(file != "."@) by {
        assert("."@[0] == '.');
    }
    leaf_of_plain(dir, file);
    no_sign(file, "."@);
    assert(file != ".."@) by {
        assert(".."@[0] == '.');
    }
    let hidden = "."@ + file;
    assert(hidden[0] == '.' && hidden[1] == file[0]);
    assert(file[0] != '.');
    if hidden.contains('/') {
        let i = choose|i: int| 0 <= i < hidden.len() && hidden[i] == '/';
        assert(file[i - 1] == '/');
    }
    assert(dir + "/."@ + file =~= dir + "/"@ + hidden);
    leaf_of_plain(dir, hidden);
    last_sign(Seq::empty(), "."@, file);
    assert(Seq::<char>::empty() + "."@ + file =~= hidden);
    assert(hidden != ".."@) by {
        assert(".."@[1] == '.');
    }
}

proof fn slash_lengths()
    ensures
        "/"@.len() == 1,
        "/."@.len() == 2,
        "."@.len() == 1,
{
    reveal_strlit("/");
    reveal_strlit("/.");
    reveal_strlit(".");
}

/// The last component of a path.
pub fn leaf_of(path: &str) -> (r: String)
    ensures
        r@ == leaf(path@),
    decreases path@.len(),
{
    proof {
        slash_lengths();
    }
    if finishes_with(path, "/") || finishes_with(path, "/.") {
        let n: usize = count(path);
        let t = cut(path, 0, n - 1);
        assert(t@ =~= path@.drop_last());
        leaf_of(t.as_str())
    } else {
        match rfind_str(path, "/") {
            Some(i) => without_first(path, i + 1),
            None => path.to_owned(),
        }
    }
}

/// The extension of a path, empty where it has none.
pub fn extension_of(path: &str) -> (r: String)
    ensures
        r@ == extension(path@),
{
    proof {
        slash_lengths();
    }
    let name = leaf_of(path);
    match rfind_str(name.as_str(), ".") {
        Some(i) => if i > 0 && !same(name.as_str(), "..") {
            without_first(name.as_str(), i + 1)
        } else {
            String::new()
        },
        None => String::new(),
    }
}

/// The stem of a path.
pub fn stem_of(path: &str) -> (r: String)
    ensures
        r@ == stem(path@),
{
    proof {
        slash_lengths();
    }
    let name = leaf_of(path);
    if same(name.as_str(), "..") || same(name.as_str(), ".") {
        String::new()
    } else {
        match rfind_str(name.as_str(), ".") {
            Some(i) => if i > 0 {
                let r = cut(name.as_str(), 0, i);
                assert(r@ =~= name@.take(i as int));
                r
            } else {
                name
            },
            None => name,
        }
    }
}

/// A relative path below a directory.
pub open spec fn below(dir: Seq<char>, rest: Seq<char>) -> Seq<char> {
    if dir.len() == 0 || text::ends(dir, "/"@) {
        dir + rest
    } else {
        dir + "/"@ + rest
    }
}

/// A relative path below a directory.
pub fn path_below(dir: &str, rest: &str) -> (r: String)
    ensures
        r@ == below(dir@, rest@),
{
    let mut s = dir.to_owned();
    if count(dir) > 0 && !finishes_with(dir, "/") {
        s.append("/");
    }
    s.append(rest);
    s
}

/// The name of what a path leads to; nothing where the path ends in the
/// root or in dots.
pub open spec fn name(path: Seq<char>) -> Option<Seq<char>> {
    let l = leaf(path);
    if l.len() == 0 || l == "."@ || l == ".."@ {
        None
    } else {
        Some(l)
    }
}

pub fn name_of(path: &str) -> (r: Option<String>)
    ensures
        text::opt_text(r) == name(path@),
{
    let l = leaf_of(path);
    if count(l.as_str()) == 0 || same(l.as_str(), ".") || same(l.as_str(), "..") {
        None
    } else {
        Some(l)
    }
}

} // verus!
