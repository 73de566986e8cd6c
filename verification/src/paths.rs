//! Paths as text.

use vstd::prelude::*;

use crate::config::joined_path;
use crate::text::{
    chars_of, find_char, finishes, joined, law_split_joined, lemma_find_char, lemma_find_char_is,
    opt_text, split, split_on, string_of, texts,
};

verus! {

// ── Outside functions ─────────────────────────────────────────────────────────

/// The name of a file or a directory: one component of a path.
pub open spec fn is_plain_name(name: Seq<char>) -> bool {
    name.len() > 0 && !name.contains('/') && name != "."@ && name != ".."@
}

/// The path of a directory without anything at its end that does not count: a slash, or a
/// dot behind one. The root is such a path.
pub open spec fn is_plain_dir(dir: Seq<char>) -> bool {
    dir == "/"@ || dir.len() == 0 || (dir.last() != '/' && !finishes(dir, "/."@))
}

/// A path of names with a slash between each two.
pub open spec fn is_plain_rel(rel: Seq<char>) -> bool {
    forall|i: int|
        0 <= i < split_on(rel, '/').len() ==> is_plain_name(#[trigger] split_on(rel, '/')[i])
}

/// What `std::path::Path::parent` says of a path: the path without its final component,
/// or nothing where it ends in a root or is empty.
pub uninterp spec fn path_parent(p: Seq<char>) -> Option<Seq<char>>;

/// Calls `Path::parent`, which looks at the text of the path alone. The parent of a
/// directory joined with a name is that directory.
#[verifier::external_body]
pub(crate) fn parent(p: &str) -> (r: Option<String>)
    ensures
        opt_text(r) == path_parent(p@),
        forall|dir: Seq<char>, name: Seq<char>|
            p@ == #[trigger] joined_path(dir, name) && is_plain_dir(dir) && is_plain_name(name)
                ==> opt_text(r) == Some(dir),
{
    std::path::Path::new(p).parent().and_then(|q| q.to_str()).map(|q| q.to_string())
}

/// What `std::path::Path::file_name` says of a path: its final component, where that is
/// a normal one.
pub uninterp spec fn path_file_name(p: Seq<char>) -> Option<Seq<char>>;

/// Calls `Path::file_name`, which looks at the text of the path alone. The file name of a
/// directory joined with a name is that name.
#[verifier::external_body]
pub(crate) fn file_name(p: &str) -> (r: Option<String>)
    ensures
        opt_text(r) == path_file_name(p@),
        forall|dir: Seq<char>, name: Seq<char>|
            p@ == #[trigger] joined_path(dir, name) && is_plain_dir(dir) && is_plain_name(name)
                ==> opt_text(r) == Some(name),
{
    std::path::Path::new(p).file_name().and_then(|q| q.to_str()).map(|q| q.to_string())
}

/// What `std::path::Path::strip_prefix` leaves of a path behind the components of
/// `root`, where it starts with them.
pub uninterp spec fn path_below(p: Seq<char>, root: Seq<char>) -> Option<Seq<char>>;

/// Calls `Path::strip_prefix`, which looks at the text of both paths alone. Of a directory
/// joined with a path of names it leaves that path.
#[verifier::external_body]
pub(crate) fn below(p: &str, root: &str) -> (r: Option<String>)
    ensures
        opt_text(r) == path_below(p@, root@),
        forall|rel: Seq<char>|
            p@ == #[trigger] joined_path(root@, rel) && is_plain_dir(root@) && is_plain_rel(rel)
                ==> opt_text(r) == Some(rel),
{
    std::path::Path::new(p).strip_prefix(root).ok().and_then(|q| q.to_str()).map(|q| q.to_string())
}

/// What `std::path::Path::with_extension("")` makes of a path: the extension of the file
/// name is gone.
pub uninterp spec fn path_without_extension(p: Seq<char>) -> Option<Seq<char>>;

/// Calls `Path::with_extension` with an empty extension; the result depends on the path
/// alone. Behind a path of names, the extension `gpg` goes with its dot.
#[verifier::external_body]
pub(crate) fn without_extension(p: &str) -> (r: Option<String>)
    ensures
        opt_text(r) == path_without_extension(p@),
        forall|stem: Seq<char>|
            p@ == #[trigger] (stem + ".gpg"@) && is_plain_rel(stem) ==> opt_text(r) == Some(stem),
{
    std::path::Path::new(p).with_extension("").to_str().map(|q| q.to_string())
}

/// A path of names stays one when the last name gets an ending without a slash, of more than
/// one character.
pub proof fn lemma_plain_rel_ending(rel: Seq<char>, ending: Seq<char>)
    requires
        is_plain_rel(rel),
        ending.len() > 1,
        !ending.contains('/'),
    ensures
        is_plain_rel(rel + ending),
    decreases rel.len(),
{
    let i = find_char(rel, '/');
    let all = rel + ending;
    lemma_find_char(rel, '/');
    if i < rel.len() {
        let rest = rel.skip(i + 1);
        assert forall|k: int| 0 <= k < split_on(rest, '/').len() implies is_plain_name(
            #[trigger] split_on(rest, '/')[k],
        ) by {
            assert(split_on(rel, '/')[k + 1] == split_on(rest, '/')[k]);
        }
        lemma_plain_rel_ending(rest, ending);
        assert(split_on(rel, '/')[0] == rel.take(i));
        lemma_find_char_is(all, '/', i);
        assert(all.take(i) =~= rel.take(i));
        assert(all.skip(i + 1) =~= rest + ending);
        assert forall|k: int| 0 <= k < split_on(all, '/').len() implies is_plain_name(
            #[trigger] split_on(all, '/')[k],
        ) by {
            if k > 0 {
                assert(split_on(all, '/')[k] == split_on(rest + ending, '/')[k - 1]);
            }
        }
    } else {
        assert(split_on(rel, '/')[0] == rel);
        assert forall|k: int| 0 <= k < all.len() implies all[k] != '/' by {
            if k >= rel.len() {
                assert(all[k] == ending[k - rel.len()]);
            }
        }
        lemma_find_char(all, '/');
        assert(split_on(all, '/') =~= seq![all]);
        reveal_strlit(".");
        reveal_strlit("..");
    }
}

// ── Names of files ────────────────────────────────────────────────────────────

/// Position of the last dot in a file name, or -1.
pub open spec fn last_dot(name: Seq<char>) -> int
    decreases name.len(),
{
    if name.len() == 0 {
        -1
    } else if name.last() == '.' {
        name.len() - 1
    } else {
        last_dot(name.drop_last())
    }
}

/// The extension of a file name: what follows its last dot, unless that is the first
/// character. The name `..` has none.
pub open spec fn name_extension(name: Seq<char>) -> Option<Seq<char>> {
    if last_dot(name) <= 0 || name == seq!['.', '.'] {
        None
    } else {
        Some(name.skip(last_dot(name) + 1))
    }
}

/// The stem of a file name: what stands before its extension, or all of it.
pub open spec fn name_stem(name: Seq<char>) -> Seq<char> {
    if last_dot(name) <= 0 || name == seq!['.', '.'] {
        name
    } else {
        name.take(last_dot(name))
    }
}

/// Facts about [`last_dot`].
proof fn lemma_last_dot(name: Seq<char>)
    ensures
        -1 <= last_dot(name) < name.len(),
        last_dot(name) >= 0 ==> name[last_dot(name)] == '.',
        forall|k: int| last_dot(name) < k < name.len() ==> name[k] != '.',
    decreases name.len(),
{
    if name.len() > 0 && name.last() != '.' {
        lemma_last_dot(name.drop_last());
        assert forall|k: int| last_dot(name) < k < name.len() implies name[k] != '.' by {
            if k < name.len() - 1 {
                assert(name.drop_last()[k] == name[k]);
            }
        }
    }
}

/// Position of the dot in front of the extension, if the name has one.
fn extension_dot(v: &Vec<char>) -> (r: Option<usize>)
    ensures
        r is None <==> name_extension(v@) is None,
        r matches Some(i) ==> i == last_dot(v@) && i < v.len(),
{
    proof {
        lemma_last_dot(v@);
    }
    if v.len() == 2 && v[0] == '.' && v[1] == '.' {
        assert(v@ =~= seq!['.', '.']);
        return None;
    }
    let mut i: usize = v.len();
    while i > 0
        invariant
            i <= v@.len(),
            -1 <= last_dot(v@) < v@.len(),
            last_dot(v@) >= 0 ==> v@[last_dot(v@)] == '.',
            forall|k: int| last_dot(v@) < k < v@.len() ==> v@[k] != '.',
            forall|k: int| i <= k < v@.len() ==> v@[k] != '.',
            v@ != seq!['.', '.'],
        decreases i,
    {
        i = i - 1;
        if v[i] == '.' {
            if i == 0 {
                return None;
            }
            return Some(i);
        }
    }
    None
}

/// The extension of the file that a path names.
pub open spec fn path_extension(p: Seq<char>) -> Option<Seq<char>> {
    match path_file_name(p) {
        Some(name) => name_extension(name),
        None => None,
    }
}

/// The stem of the file that a path names.
pub open spec fn path_stem(p: Seq<char>) -> Option<Seq<char>> {
    match path_file_name(p) {
        Some(name) => Some(name_stem(name)),
        None => None,
    }
}

/// The extension of a file name.
pub fn extension_of_name(name: &str) -> (r: Option<String>)
    ensures
        opt_text(r) == name_extension(name@),
{
    let v = chars_of(name);
    match extension_dot(&v) {
        Some(i) => {
            let rest = vstd::slice::slice_subrange(v.as_slice(), i + 1, v.len());
            assert(rest@ =~= v@.skip(i + 1));
            Some(string_of(rest))
        },
        None => None,
    }
}

/// The stem of a file name.
pub fn stem_of_name(name: &str) -> (r: String)
    ensures
        r@ == name_stem(name@),
{
    let v = chars_of(name);
    match extension_dot(&v) {
        Some(i) => {
            let rest = vstd::slice::slice_subrange(v.as_slice(), 0, i);
            assert(rest@ =~= v@.take(i as int));
            string_of(rest)
        },
        None => string_of(v.as_slice()),
    }
}

/// The extension of the file that a path names.
pub fn extension(p: &str) -> (r: Option<String>)
    ensures
        opt_text(r) == path_extension(p@),
{
    match file_name(p) {
        Some(name) => extension_of_name(name.as_str()),
        None => None,
    }
}

/// The stem of the file that a path names.
pub fn stem(p: &str) -> (r: Option<String>)
    ensures
        opt_text(r) == path_stem(p@),
{
    match file_name(p) {
        Some(name) => Some(stem_of_name(name.as_str())),
        None => None,
    }
}

/// A file name without a dot is its own stem, and a name is its stem, a dot and its
/// extension where it has one.
pub proof fn law_stem_and_extension(name: Seq<char>)
    ensures
        name_extension(name) is None ==> name_stem(name) == name,
        name_extension(name) matches Some(e) ==> name == name_stem(name).push('.') + e,
{
    lemma_last_dot(name);
    if let Some(e) = name_extension(name) {
        assert(name =~= name_stem(name).push('.') + e);
    }
}

// ── Components ────────────────────────────────────────────────────────────────

/// The non-empty pieces of a path between its slashes.
pub open spec fn path_parts(p: Seq<char>) -> Seq<Seq<char>> {
    split_on(p, '/').filter(|s: Seq<char>| s.len() > 0)
}

/// The components of a path, for display.
pub fn components(p: &str) -> (r: Vec<String>)
    ensures
        texts(r@) == path_parts(p@),
{
    let v = chars_of(p);
    let all = split(v.as_slice(), '/');
    let mut r: Vec<String> = Vec::new();
    let ghost pieces = texts(all@);
    let ghost kept = |s: Seq<char>| s.len() > 0;
    let mut i: usize = 0;
    assert(pieces.take(0) =~= Seq::<Seq<char>>::empty());
    reveal(Seq::filter);
    while i < all.len()
        invariant
            i <= all@.len(),
            pieces == texts(all@),
            kept == (|s: Seq<char>| s.len() > 0),
            texts(r@) == pieces.take(i as int).filter(kept),
        decreases all@.len() - i,
    {
        let ghost before = r@;
        proof {
            reveal(Seq::filter);
            assert(pieces.take(i + 1).drop_last() =~= pieces.take(i as int));
            assert(pieces.take(i + 1).last() == all@[i as int]@);
        }
        if !all[i].as_str().is_empty() {
            r.push(all[i].clone());
            assert(texts(r@) =~= texts(before).push(all@[i as int]@));
        }
        i = i + 1;
    }
    assert(pieces.take(i as int) =~= pieces);
    r
}

// ── Laws ──────────────────────────────────────────────────────────────────────

/// A name of a stem, a dot and an ending without a dot has that stem and that ending. A name
/// without a dot behind its first character has no extension.
pub proof fn law_name_parts(stem: Seq<char>, ending: Seq<char>)
    requires
        stem.len() > 0,
        !ending.contains('.'),
    ensures
        stem != seq!['.'] || ending.len() > 0 ==> {
            &&& name_extension(stem + seq!['.'] + ending) == Some(ending)
            &&& name_stem(stem + seq!['.'] + ending) == stem
        },
        name_extension(ending) is None,
        name_extension(seq!['.'] + ending) is None,
        name_stem(ending) == ending,
        name_stem(seq!['.'] + ending) == seq!['.'] + ending,
{
    let name = stem + seq!['.'] + ending;
    let n = stem.len() as int;
    lemma_last_dot(name);
    assert(name[n] == '.');
    if last_dot(name) > n {
        assert(name[last_dot(name)] == ending[last_dot(name) - n - 1]);
        assert(ending.contains('.'));
    }
    assert(last_dot(name) == n);
    assert(name.take(n) =~= stem);
    assert(name.skip(n + 1) =~= ending);
    if name == seq!['.', '.'] {
        assert(stem =~= seq!['.']);
        assert(ending.len() == 0);
    }
    lemma_last_dot(ending);
    if last_dot(ending) >= 0 {
        assert(ending.contains('.'));
    }
    let dotted = seq!['.'] + ending;
    lemma_last_dot(dotted);
    if last_dot(dotted) > 0 {
        assert(dotted[last_dot(dotted)] == ending[last_dot(dotted) - 1]);
        assert(ending.contains('.'));
    }
}

/// The parts of a path are its names, in their order, however many slashes stand between,
/// before or behind them.
pub proof fn law_path_parts(pieces: Seq<Seq<char>>)
    requires
        pieces.len() > 0,
        forall|i: int| 0 <= i < pieces.len() ==> !(#[trigger] pieces[i]).contains('/'),
    ensures
        path_parts(joined(pieces, '/')) == pieces.filter(|s: Seq<char>| s.len() > 0),
{
    law_split_joined(pieces, '/');
}

} // verus!
