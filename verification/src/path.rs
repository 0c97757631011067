//! File paths as text, with `/` between their parts.
use crate::text::{chars_of, split_on, str_eq};
use vstd::prelude::*;

verus! {

/// `name` under `base`: what `Path::join` gives. A name that starts with `/` stands alone.
pub open spec fn joined(base: Seq<char>, name: Seq<char>) -> Seq<char> {
    if name.len() > 0 && name[0] == '/' {
        name
    } else if base.len() == 0 || base.last() == '/' {
        base + name
    } else {
        base.push('/') + name
    }
}

/// The pieces of a path between its slashes.
pub open spec fn pieces(path: Seq<char>) -> Seq<Seq<char>> {
    crate::text::split(path, |c: char| c == '/')
}

/// A piece of a path that names an entry of a directory.
pub open spec fn is_normal(piece: Seq<char>) -> bool {
    piece.len() > 0 && piece != seq!['.'] && piece != seq!['.', '.']
}

/// The names that a path goes through, without `.` and `..`.
pub open spec fn normal_parts(path: Seq<char>) -> Seq<Seq<char>> {
    pieces(path).filter(|p: Seq<char>| is_normal(p))
}

/// A path without the slashes and `/.` at its end.
pub open spec fn visible(path: Seq<char>) -> Seq<char>
    decreases path.len(),
{
    if path.len() > 0 && path.last() == '/' {
        visible(path.drop_last())
    } else if path.len() > 1 && path.last() == '.' && path[path.len() - 2] == '/' {
        visible(path.take(path.len() - 2))
    } else {
        path
    }
}

/// The name of the file that a path leads to: what `Path::file_name` gives.
pub open spec fn file_name(path: Seq<char>) -> Option<Seq<char>> {
    let name = pieces(visible(path)).last();
    if is_normal(name) {
        Some(name)
    } else {
        None
    }
}

/// The part of the file's name after its last dot, where that dot is not its first character:
/// what `Path::extension` gives.
pub open spec fn extension(path: Seq<char>) -> Option<Seq<char>> {
    match file_name(path) {
        Some(name) => {
            let parts = crate::text::split(name, |c: char| c == '.');
            if parts.len() > 2 || (parts.len() == 2 && parts[0].len() > 0) {
                Some(parts.last())
            } else {
                None
            }
        },
        None => None,
    }
}

/// Joins a name to a path.
pub fn join(base: &str, name: &str) -> (path: String)
    ensures
        path@ == joined(base@, name@),
{
    let b = chars_of(base);
    let n = chars_of(name);
    if n.len() > 0 && n[0] == '/' {
        name.to_owned()
    } else if b.len() == 0 || b[b.len() - 1] == '/' {
        base.to_owned().concat(name)
    } else {
        proof {
            reveal_strlit("/");
            assert(base@ + "/"@ =~= base@.push('/'));
        }
        base.to_owned().concat("/").concat(name)
    }
}

/// Whether a piece of a path names an entry of a directory.
pub fn is_normal_piece(piece: &str) -> (normal: bool)
    ensures
        normal == is_normal(piece@),
{
    proof {
        reveal_strlit("");
        reveal_strlit(".");
        reveal_strlit("..");
        assert("."@ =~= seq!['.']);
        assert(".."@ =~= seq!['.', '.']);
    }
    !piece.is_empty() && !str_eq(piece, ".") && !str_eq(piece, "..")
}

/// The names that a path goes through, without `.` and `..`.
pub fn normal_parts_of(path: &str) -> (parts: Vec<String>)
    ensures
        crate::text::views(parts@) == normal_parts(path@),
{
    let list = split_on(path, '/');
    let ghost keep = |p: Seq<char>| is_normal(p);
    let ghost all = crate::text::views(list@);
    let mut parts: Vec<String> = Vec::new();
    proof {
        reveal(Seq::filter);
        assert(crate::text::views(parts@) =~= all.take(0).filter(keep));
    }
    for i in 0..list.len()
        invariant
            all == crate::text::views(list@),
            keep == (|p: Seq<char>| is_normal(p)),
            crate::text::views(parts@) == all.take(i as int).filter(keep),
    {
        proof {
            crate::text::lemma_filter_push(all.take(i as int), all[i as int], keep);
            assert(all.take(i as int).push(all[i as int]) =~= all.take(i + 1));
            assert(all[i as int] == list@[i as int]@);
        }
        if is_normal_piece(list[i].as_str()) {
            proof {
                crate::text::lemma_views_push(parts@, list@[i as int]);
            }
            parts.push(list[i].clone());
        }
    }
    assert(all.take(all.len() as int) =~= all);
    parts
}

/// Cuts the slashes and `/.` at the end of a path.
pub fn visible_part(path: &str) -> (r: &str)
    ensures
        r@ == visible(path@),
{
    let cs = chars_of(path);
    let mut end: usize = cs.len();
    assert(path@.subrange(0, end as int) =~= path@);
    loop
        invariant
            cs@ == path@,
            end <= cs.len(),
            visible(path@) == visible(path@.subrange(0, end as int)),
        decreases end,
    {
        let ghost cur = path@.subrange(0, end as int);
        if end > 0 && cs[end - 1] == '/' {
            assert(cur.drop_last() =~= path@.subrange(0, end - 1));
            end = end - 1;
        } else if end > 1 && cs[end - 1] == '.' && cs[end - 2] == '/' {
            assert(cur.take(cur.len() - 2) =~= path@.subrange(0, end - 2));
            end = end - 2;
        } else {
            return path.substring_char(0, end);
        }
    }
}

/// The name of the file that a path leads to.
pub fn file_name_of(path: &str) -> (name: Option<String>)
    ensures
        name is Some == file_name(path@) is Some,
        name matches Some(n) ==> file_name(path@) == Some(n@),
{
    let shown = visible_part(path);
    let mut list = split_on(shown, '/');
    proof {
        crate::text::lemma_split_nonempty(shown@, |c: char| c == '/');
        assert(crate::text::views(list@).len() == list@.len());
    }
    let ghost full = list@;
    let name = list.pop().unwrap();
    assert(crate::text::views(full).last() == name@);
    if is_normal_piece(name.as_str()) {
        Some(name)
    } else {
        None
    }
}

/// The extension of the file that a path leads to.
pub fn extension_of(path: &str) -> (ext: Option<String>)
    ensures
        ext is Some == extension(path@) is Some,
        ext matches Some(e) ==> extension(path@) == Some(e@),
{
    match file_name_of(path) {
        Some(name) => {
            let mut list = split_on(name.as_str(), '.');
            proof {
                crate::text::lemma_split_nonempty(name@, |c: char| c == '.');
                assert(crate::text::views(list@).len() == list@.len());
                assert(crate::text::views(list@)[0] == list@[0]@);
            }
            let ghost full = list@;
            let has: bool = list.len() > 2 || (list.len() == 2 && !list[0].as_str().is_empty());
            let last = list.pop().unwrap();
            assert(crate::text::views(full).last() == last@);
            if has {
                Some(last)
            } else {
                None
            }
        },
        None => None,
    }
}

/// A name is joined to a path by one slash, unless the path is empty or ends with a slash already;
/// a name that begins with a slash replaces the path.
pub proof fn law_join(base: Seq<char>, name: Seq<char>)
    ensures
        name.len() > 0 && name[0] == '/' ==> joined(base, name) == name,
        !(name.len() > 0 && name[0] == '/') && base.len() > 0 && base.last() != '/' ==> joined(
            base,
            name,
        ) == base + seq!['/'] + name,
        !(name.len() > 0 && name[0] == '/') && (base.len() == 0 || base.last() == '/') ==> joined(
            base,
            name,
        ) == base + name,
{
    assert(base.push('/') =~= base + seq!['/']);
}

/// What stands behind a path and a slash is one name more, unless it is nothing, `.` or `..`, which
/// name nothing. A path without a slash is one name, with the same exceptions.
pub proof fn law_normal_parts(path: Seq<char>, part: Seq<char>)
    requires
        !part.contains('/'),
    ensures
        part.len() == 0 || part == seq!['.'] || part == seq!['.', '.'] ==> normal_parts(
            path + seq!['/'] + part,
        ) == normal_parts(path) && normal_parts(part) == Seq::<Seq<char>>::empty(),
        part.len() > 0 && part != seq!['.'] && part != seq!['.', '.'] ==> normal_parts(
            path + seq!['/'] + part,
        ) == normal_parts(path).push(part) && normal_parts(part) == seq![part],
{
    let sep = |c: char| c == '/';
    let keep = |p: Seq<char>| is_normal(p);
    assert(forall|i: int| 0 <= i < part.len() ==> part.contains(#[trigger] part[i]));
    crate::text::law_split_at_last(path, '/', part, sep);
    crate::text::law_split_at_first(part, '/', part, sep);
    assert(path + seq!['/'] + part =~= path.push('/') + part);
    crate::text::lemma_filter_push(pieces(path), part, keep);
    let none = Seq::<Seq<char>>::empty();
    crate::text::lemma_filter_push(none, part, keep);
    reveal(Seq::filter);
    assert(none.push(part) =~= seq![part]);
    assert(none.push(part).filter(keep) =~= normal_parts(part));
}

/// The file's name is what stands behind the last slash, where that is a name; slashes, and a `.`
/// between slashes, may follow. Nothing and `..` are no names.
pub proof fn law_file_name(dir: Seq<char>, name: Seq<char>)
    requires
        dir.len() == 0 || dir.last() == '/',
        name.len() > 0,
        !name.contains('/'),
        name != seq!['.'],
    ensures
        name != seq!['.', '.'] ==> file_name(dir + name) == Some(name),
        name == seq!['.', '.'] ==> file_name(dir + name) is None,
        visible(dir + name) == dir + name,
        file_name(dir + name + seq!['/']) == file_name(dir + name),
        file_name(dir + name + seq!['/', '.']) == file_name(dir + name),
        file_name(Seq::empty()) is None,
        file_name(seq!['/']) is None,
{
    let sep = |c: char| c == '/';
    let path = dir + name;
    reveal_with_fuel(visible, 3);
    assert(forall|i: int| 0 <= i < name.len() ==> name.contains(#[trigger] name[i]));
    assert(path.last() == name[name.len() - 1]);
    assert(visible(path) == path) by {
        if path.len() > 1 && path.last() == '.' && path[path.len() - 2] == '/' {
            if name.len() >= 2 {
                assert(path[path.len() - 2] == name[name.len() - 2]);
            } else {
                assert(name =~= seq!['.']);
            }
        }
    }
    if dir.len() > 0 {
        let a = dir.drop_last();
        crate::text::law_split_at_last(a, '/', name, sep);
        assert(path =~= a.push('/') + name);
    } else {
        crate::text::law_split_at_first(name, '/', name, sep);
        assert(path =~= name);
    }
    assert((path + seq!['/']).drop_last() =~= path);
    let dotted = path + seq!['/', '.'];
    assert(dotted.take(dotted.len() - 2) =~= path);
    assert(seq!['/'].drop_last() =~= Seq::<char>::empty());
    let none = Seq::<char>::empty();
    assert(pieces(none) =~= seq![none]);
}

/// The extension is what stands behind the last dot of a file's name, unless that dot is the first
/// character of the name. Without such a dot there is none.
pub proof fn law_extension(dir: Seq<char>, stem: Seq<char>, ext: Seq<char>)
    requires
        dir.len() == 0 || dir.last() == '/',
        stem.len() > 0,
        !stem.contains('/'),
        !ext.contains('/'),
        !ext.contains('.'),
        stem + seq!['.'] + ext != seq!['.', '.'],
    ensures
        extension(dir + stem + seq!['.'] + ext) == Some(ext),
        ext.len() > 0 ==> extension(dir + ext) is None && extension(dir + seq!['.'] + ext) is None,
{
    let dot = |c: char| c == '.';
    let name = stem + seq!['.'] + ext;
    assert(name.contains('/') ==> false) by {
        if name.contains('/') {
            let k = name.index_of('/');
            if k < stem.len() {
                assert(stem[k] == '/');
                assert(stem.contains('/'));
            } else if k > stem.len() {
                assert(ext[k - stem.len() - 1] == '/');
                assert(ext.contains('/'));
            }
        }
    }
    assert(name.len() >= 2);
    law_file_name(dir, name);
    assert(dir + stem + seq!['.'] + ext =~= dir + name);
    assert(forall|i: int| 0 <= i < ext.len() ==> ext.contains(#[trigger] ext[i]));
    crate::text::law_split_at_last(stem, '.', ext, dot);
    assert(name =~= stem.push('.') + ext);
    crate::text::lemma_split_nonempty(stem, dot);
    let parts = crate::text::split(stem, dot);
    let all = parts.push(ext);
    assert(all.last() == ext);
    if all.len() == 2 {
        assert(parts.len() == 1);
        lemma_one_piece(stem, dot);
        assert(all[0] == parts[0]);
    }
    if ext.len() > 0 {
        assert(ext[0] != '.');
        law_file_name(dir, ext);
        crate::text::law_split_at_first(ext, '.', ext, dot);
        let hidden = seq!['.'] + ext;
        assert(!hidden.contains('/')) by {
            if hidden.contains('/') {
                let k = hidden.index_of('/');
                assert(k > 0 && ext[k - 1] == '/');
                assert(ext.contains('/'));
            }
        }
        assert(hidden[1] != '.');
        law_file_name(dir, hidden);
        assert(dir + seq!['.'] + ext =~= dir + hidden);
        let none = Seq::<char>::empty();
        crate::text::law_split_at_first(none, '.', ext, dot);
        assert(none.push('.') + ext =~= hidden);
        assert((seq![none] + seq![ext])[0] == none);
    }
}

/// The extension depends on the file's name alone, and there is none without a name.
pub proof fn law_extension_goes_by_name(path: Seq<char>, other: Seq<char>)
    ensures
        file_name(path) is None ==> extension(path) is None,
        file_name(path) == file_name(other) ==> extension(path) == extension(other),
{
}

/// Where a text has one piece, that is the text.
proof fn lemma_one_piece(s: Seq<char>, sep: spec_fn(char) -> bool)
    requires
        crate::text::split(s, sep).len() == 1,
    ensures
        crate::text::split(s, sep)[0] == s,
    decreases s.len(),
{
    if s.len() == 0 {
        assert(s =~= Seq::<char>::empty());
    } else {
        let before = crate::text::split(s.drop_last(), sep);
        crate::text::lemma_split_nonempty(s.drop_last(), sep);
        if !sep(s.last()) {
            lemma_one_piece(s.drop_last(), sep);
            assert(s.drop_last().push(s.last()) =~= s);
        }
    }
}

} // verus!
