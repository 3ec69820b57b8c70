//! Finding the folder Apple Music watches for new tracks.
//!
//! Not via AppleScript. Scripting Music needs the Automation entitlement, and
//! when the user has denied it — or has simply never been asked, in a context
//! with no one at the keyboard to click the prompt — the script hangs rather
//! than failing. macOS's own watched-folder mechanism needs no entitlement:
//! anything dropped into it is imported by Music on its next scan.
use vstd::prelude::*;
use crate::text::{join, join_path, owned, strs};

verus! {

/// Directory names Apple has used for the watched import folder.
///
/// `.localized` suffixes are real directory names on disk, not display magic —
/// the Finder hides them, so they are easy to miss when typing a path by hand.
/// Pre-Catalina libraries that were upgraded in place keep the iTunes names.
pub open spec fn auto_add_dir(k: int) -> Seq<char> {
    if k == 0 {
        "Automatically Add to Music.localized"@
    } else if k == 1 {
        "Automatically Add to Music"@
    } else if k == 2 {
        "Automatically Add to iTunes.localized"@
    } else {
        "Automatically Add to iTunes"@
    }
}

/// Media-library roots, relative to the home directory.
pub open spec fn media_root(k: int) -> Seq<char> {
    if k == 0 {
        "Music/Music/Media.localized"@
    } else if k == 1 {
        "Music/Music/Media"@
    } else {
        "Music/iTunes/iTunes Media"@
    }
}

/// Every path that could be the watched folder, in preference order: each
/// media root in turn, and under it each folder name in turn.
pub open spec fn candidates(home: Seq<char>) -> Seq<Seq<char>> {
    Seq::new(12, |i: int| join_path(join_path(home, media_root(i / 4)), auto_add_dir(i % 4)))
}

fn auto_add_dir_name(k: usize) -> (r: &'static str)
    requires
        k < 4,
    ensures
        r@ == auto_add_dir(k as int),
{
    if k == 0 {
        "Automatically Add to Music.localized"
    } else if k == 1 {
        "Automatically Add to Music"
    } else if k == 2 {
        "Automatically Add to iTunes.localized"
    } else {
        "Automatically Add to iTunes"
    }
}

fn media_root_name(k: usize) -> (r: &'static str)
    requires
        k < 3,
    ensures
        r@ == media_root(k as int),
{
    if k == 0 {
        "Music/Music/Media.localized"
    } else if k == 1 {
        "Music/Music/Media"
    } else {
        "Music/iTunes/iTunes Media"
    }
}

/// Every path that could be the watched folder, in preference order.
pub fn candidate_paths(home: &str) -> (r: Vec<String>)
    ensures
        strs(r@) == candidates(home@),
{
    let mut out: Vec<String> = Vec::new();
    let mut root: usize = 0;
    while root < 3
        invariant
            root <= 3,
            out@.len() == 4 * root,
            forall|i: int| 0 <= i < out@.len() ==> #[trigger] out@[i]@ == candidates(home@)[i],
        decreases 3 - root,
    {
        let base = join(home, media_root_name(root));
        let mut dir: usize = 0;
        while dir < 4
            invariant
                root < 3,
                dir <= 4,
                base@ == join_path(home@, media_root(root as int)),
                out@.len() == 4 * root + dir,
                forall|i: int| 0 <= i < out@.len() ==> #[trigger] out@[i]@ == candidates(home@)[i],
            decreases 4 - dir,
        {
            let p = join(base.as_str(), auto_add_dir_name(dir));
            let ghost k = 4 * root + dir;
            assert(k / 4 == root as int && k % 4 == dir as int) by (nonlinear_arith)
                requires
                    k == 4 * root + dir,
                    dir < 4,
            ;
            out.push(p);
            dir = dir + 1;
        }
        root = root + 1;
    }
    assert(strs(out@) =~= candidates(home@));
    out
}

/// The first of `paths` whose mark is set.
pub open spec fn first_marked_spec(paths: Seq<Seq<char>>, marks: Seq<bool>, i: nat) -> Option<
    Seq<char>,
>
    decreases paths.len() - i,
{
    if i >= paths.len() {
        None
    } else if marks[i as int] {
        Some(paths[i as int])
    } else {
        first_marked_spec(paths, marks, i + 1)
    }
}

/// The first of `paths` whose entry in `marks` is true, or `None`.
pub fn first_marked(paths: &Vec<String>, marks: &Vec<bool>) -> (r: Option<String>)
    requires
        paths.len() == marks.len(),
    ensures
        (match r {
            Some(p) => Some(p@),
            None => None,
        }) == first_marked_spec(strs(paths@), marks@, 0),
{
    let mut i: usize = 0;
    while i < paths.len()
        invariant
            paths.len() == marks.len(),
            i <= paths.len(),
            first_marked_spec(strs(paths@), marks@, 0) == first_marked_spec(
                strs(paths@),
                marks@,
                i as nat,
            ),
        decreases paths.len() - i,
    {
        if marks[i] {
            return Some(owned(paths[i].as_str()));
        }
        i = i + 1;
    }
    None
}

/// `Path::is_dir`: asks the file system whether `path` names a directory.
/// What is on disk can change at any time, so nothing is promised of the answer.
#[verifier::external_body]
fn is_dir(path: &str) -> (r: bool) {
    std::path::Path::new(path).is_dir()
}

/// The first candidate that exists as a directory, or `None` if Music has
/// never set one up.
pub fn find_auto_add_dir(home: &str) -> (r: Option<String>)
    ensures
        r matches Some(p) ==> candidates(home@).contains(p@),
{
    let paths = candidate_paths(home);
    let mut marks: Vec<bool> = Vec::new();
    let mut i: usize = 0;
    while i < paths.len()
        invariant
            i <= paths.len(),
            marks.len() == i,
        decreases paths.len() - i,
    {
        marks.push(is_dir(paths[i].as_str()));
        i = i + 1;
    }
    let r = first_marked(&paths, &marks);
    proof {
        lemma_first_marked_is_one_of(strs(paths@), marks@, 0);
    }
    r
}

proof fn lemma_first_marked_is_one_of(paths: Seq<Seq<char>>, marks: Seq<bool>, i: nat)
    ensures
        first_marked_spec(paths, marks, i) matches Some(p) ==> paths.contains(p),
    decreases paths.len() - i,
{
    if i < paths.len() {
        if marks[i as int] {
            assert(paths[i as int] == paths[i as int]);
        } else {
            lemma_first_marked_is_one_of(paths, marks, i + 1);
        }
    }
}

/// The first candidate that exists wins: the folder picked from the answers
/// (`marks[i]` says whether `paths[i]` is a directory) is one that exists, and
/// none listed before it does; so when the first candidate exists, it is the
/// one picked, and nothing is picked only when none exists.
pub proof fn law_the_first_existing_candidate_wins(paths: Seq<Seq<char>>, marks: Seq<bool>)
    requires
        paths.len() == marks.len(),
    ensures
        first_marked_spec(paths, marks, 0) matches Some(p) ==> exists|i: int|
            0 <= i < paths.len() && marks[i] && p == paths[i] && forall|j: int|
                0 <= j < i ==> !#[trigger] marks[j],
        paths.len() > 0 && marks[0] ==> first_marked_spec(paths, marks, 0) == Some(paths[0]),
        first_marked_spec(paths, marks, 0) is None <==> forall|i: int|
            0 <= i < paths.len() ==> !#[trigger] marks[i],
{
    lemma_first_marked_is_first(paths, marks, 0);
}

proof fn lemma_first_marked_is_first(paths: Seq<Seq<char>>, marks: Seq<bool>, k: nat)
    requires
        paths.len() == marks.len(),
    ensures
        first_marked_spec(paths, marks, k) matches Some(p) ==> exists|i: int|
            k <= i < paths.len() && marks[i] && p == paths[i] && forall|j: int|
                k <= j < i ==> !#[trigger] marks[j],
        first_marked_spec(paths, marks, k) is None <==> forall|i: int|
            k <= i < paths.len() ==> !#[trigger] marks[i],
    decreases paths.len() - k,
{
    if k < paths.len() {
        if !marks[k as int] {
            lemma_first_marked_is_first(paths, marks, k + 1);
            if let Some(p) = first_marked_spec(paths, marks, k + 1) {
                let i = choose|i: int|
                    k + 1 <= i < paths.len() && marks[i] && p == paths[i] && forall|j: int|
                        k + 1 <= j < i ==> !#[trigger] marks[j];
                assert(forall|j: int| k <= j < i ==> !#[trigger] marks[j]);
            }
        } else {
            assert(first_marked_spec(paths, marks, k) == Some(paths[k as int]));
        }
    }
}

/// The modern, localized Music library folder is preferred: an upgraded
/// library can have both, and the current one is where Music actually watches.
pub proof fn law_the_modern_localized_path_is_preferred(home: Seq<char>)
    ensures
        candidates(home)[0] == join_path(
            join_path(home, "Music/Music/Media.localized"@),
            "Automatically Add to Music.localized"@,
        ),
        candidates(home).len() == 12,
{
}

} // verus!
