//! Where fonts are looked for.

use vstd::prelude::*;

use crate::config::{join_path, joined_path, law_joined_path};
use crate::text::{
    chars_of, concat, contains_text, ends_with, finishes, occurs, opt_text, texts,
};

verus! {

/// The font for ordinary text and icons.
pub const REGULAR: &'static str = "MapleMono-NF-Regular";

/// The font for names.
pub const MEDIUM: &'static str = "MapleMono-NF-Medium";

/// The directories to look for fonts in on Linux, in priority order: those of the user
/// first.
pub open spec fn linux_font_dirs(home: Option<Seq<char>>) -> Seq<Seq<char>> {
    let own = match home {
        Some(h) => seq![joined_path(h, ".local/share/fonts"@), joined_path(h, ".fonts"@)],
        None => seq![],
    };
    own + seq![
        "/usr/local/share/fonts"@,
        "/usr/share/fonts"@,
        "/usr/share/fonts/truetype"@,
        "/usr/share/fonts/OTF"@,
    ]
}

/// Lists the directories to look for fonts in on Linux.
pub fn font_search_dirs(home: Option<String>) -> (r: Vec<String>)
    ensures
        texts(r@) == linux_font_dirs(opt_text(home)),
{
    let mut dirs: Vec<String> = Vec::new();
    if let Some(h) = &home {
        dirs.push(join_path(h.as_str(), ".local/share/fonts"));
        dirs.push(join_path(h.as_str(), ".fonts"));
    }
    dirs.push("/usr/local/share/fonts".to_owned());
    dirs.push("/usr/share/fonts".to_owned());
    dirs.push("/usr/share/fonts/truetype".to_owned());
    dirs.push("/usr/share/fonts/OTF".to_owned());
    assert(texts(dirs@) =~= linux_font_dirs(opt_text(home)));
    dirs
}

/// Lists the directories to look for fonts in on macOS.
pub fn font_search_dirs_macos(home: Option<String>) -> (r: Vec<String>)
    ensures
        texts(r@) == match home {
            Some(h) => seq![joined_path(h@, "Library/Fonts"@)],
            None => seq![],
        },
{
    let mut dirs: Vec<String> = Vec::new();
    if let Some(h) = &home {
        dirs.push(join_path(h.as_str(), "Library/Fonts"));
        assert(texts(dirs@) =~= seq![joined_path(h@, "Library/Fonts"@)]);
    } else {
        assert(texts(dirs@) =~= seq![]);
    }
    dirs
}

/// The file of a font with the given ending in each of the directories.
pub open spec fn in_each(dirs: Seq<Seq<char>>, file: Seq<char>) -> Seq<Seq<char>> {
    Seq::new(dirs.len(), |i: int| joined_path(dirs[i], file))
}

/// The exact files of a font, in the order in which they are tried: in each directory with
/// the ending `.ttf`, then in each with `.otf`.
pub open spec fn exact_files(stem: Seq<char>, dirs: Seq<Seq<char>>) -> Seq<Seq<char>> {
    in_each(dirs, stem + ".ttf"@) + in_each(dirs, stem + ".otf"@)
}

fn push_in_each(r: &mut Vec<String>, dirs: &Vec<String>, file: &str)
    ensures
        texts(final(r)@) == texts(old(r)@) + in_each(texts(dirs@), file@),
{
    let ghost head = texts(r@);
    let ghost tail = in_each(texts(dirs@), file@);
    let mut i: usize = 0;
    assert(texts(r@) =~= head + tail.take(0));
    while i < dirs.len()
        invariant
            i <= dirs@.len(),
            tail == in_each(texts(dirs@), file@),
            texts(r@) == head + tail.take(i as int),
        decreases dirs@.len() - i,
    {
        let ghost prev = texts(r@);
        assert(texts(dirs@)[i as int] == dirs@[i as int]@);
        r.push(join_path(dirs[i].as_str(), file));
        assert(texts(r@) =~= prev.push(tail[i as int]));
        i = i + 1;
        assert(texts(r@) =~= head + tail.take(i as int));
    }
    assert(tail.take(i as int) =~= tail);
}

/// Lists the exact files of a font, in the order in which they are tried.
pub fn font_candidates(stem: &str, dirs: &Vec<String>) -> (r: Vec<String>)
    ensures
        texts(r@) == exact_files(stem@, texts(dirs@)),
{
    let mut r: Vec<String> = Vec::new();
    let ttf = concat(stem, ".ttf");
    let otf = concat(stem, ".otf");
    push_in_each(&mut r, dirs, ttf.as_str());
    push_in_each(&mut r, dirs, otf.as_str());
    assert(texts(r@) =~= exact_files(stem@, texts(dirs@)));
    r
}

/// Whether a file name will do where none of the exact files is there: it holds the name of
/// the font, as in `MapleMono-NF-Regular(1).ttf`.
pub fn is_font_file(name: &str, stem: &str) -> (r: bool)
    ensures
        r == (occurs(name@, stem@) && (finishes(name@, ".ttf"@) || finishes(name@, ".otf"@))),
{
    let v = chars_of(name);
    contains_text(v.as_slice(), stem) && (ends_with(v.as_slice(), ".ttf") || ends_with(
        v.as_slice(),
        ".otf",
    ))
}

/// A font is tried in each directory, in their order, first with the ending `.ttf` and, when
/// all are done, with `.otf`.
pub proof fn law_exact_files(stem: Seq<char>, dirs: Seq<Seq<char>>, i: int)
    requires
        0 <= i < dirs.len(),
        stem.len() > 0,
        stem[0] != '/',
        dirs[i].len() > 0,
        dirs[i].last() != '/',
    ensures
        exact_files(stem, dirs).len() == 2 * dirs.len(),
        exact_files(stem, dirs)[i] == dirs[i] + seq!['/'] + stem + ".ttf"@,
        exact_files(stem, dirs)[dirs.len() + i] == dirs[i] + seq!['/'] + stem + ".otf"@,
{
    let a = stem + ".ttf"@;
    let b = stem + ".otf"@;
    assert(a[0] == stem[0] && b[0] == stem[0]);
    law_joined_path(dirs[i], a);
    law_joined_path(dirs[i], b);
    assert(dirs[i] + seq!['/'] + a =~= dirs[i] + seq!['/'] + stem + ".ttf"@);
    assert(dirs[i] + seq!['/'] + b =~= dirs[i] + seq!['/'] + stem + ".otf"@);
}

/// The user's own directories of fonts stand before those of the system.
pub proof fn law_font_dirs(home: Seq<char>)
    requires
        home.len() > 0,
        home.last() != '/',
    ensures
        linux_font_dirs(Some(home)) == seq![
            home + "/.local/share/fonts"@,
            home + "/.fonts"@,
        ] + linux_font_dirs(None),
{
    reveal_strlit(".local/share/fonts");
    reveal_strlit("/.local/share/fonts");
    reveal_strlit(".fonts");
    reveal_strlit("/.fonts");
    law_joined_path(home, ".local/share/fonts"@);
    law_joined_path(home, ".fonts"@);
    assert(home + seq!['/'] + ".local/share/fonts"@ =~= home + "/.local/share/fonts"@);
    assert(home + seq!['/'] + ".fonts"@ =~= home + "/.fonts"@);
    assert(linux_font_dirs(Some(home)) =~= seq![
        home + "/.local/share/fonts"@,
        home + "/.fonts"@,
    ] + linux_font_dirs(None));
}

} // verus!
