//! Splitting a song into stems with Demucs: where its program is looked for,
//! how it is called, and what it leaves behind.
use crate::error::{fails_with, Error};
use crate::paths::{file_stem, join_path, path_join, separated, stem_in, write_separated};
use crate::text::{joined, texts};
use vstd::prelude::*;

verus! {

/// The Python versions whose directories are searched, the newest first.
pub open spec fn python_versions() -> Seq<Seq<char>> {
    seq!["3.13"@, "3.12"@, "3.11"@, "3.10"@, "3.9"@]
}

/// A directory of this Python version below a home directory.
pub open spec fn python_dir(home: Seq<char>, version: Seq<char>, rest: Seq<char>) -> Seq<char> {
    path_join(home, "Library/Python/"@ + version + rest)
}

fn write_python_dir(home: &str, version: &str, rest: &str) -> (res: String)
    ensures
        res@ == python_dir(home@, version@, rest@),
{
    let mut rel: String = joined("Library/Python/", version);
    rel.append(rest);
    join_path(home, rel.as_str())
}

/// The directories of all the Python versions below a home directory.
pub open spec fn python_dirs(home: Seq<char>, rest: Seq<char>) -> Seq<Seq<char>> {
    python_versions().map_values(|v: Seq<char>| python_dir(home, v, rest))
}

/// Appends a text.
fn add_text(list: &mut Vec<String>, t: String)
    ensures
        texts(final(list)@) == texts(old(list)@).push(t@),
{
    let ghost known = list@;
    list.push(t);
    assert(texts(list@) =~= texts(known).push(t@));
}

fn add_python_dirs(list: &mut Vec<String>, home: &str, rest: &str)
    ensures
        texts(final(list)@) == texts(old(list)@) + python_dirs(home@, rest@),
{
    let ghost known = texts(list@);
    add_text(list, write_python_dir(home, "3.13", rest));
    add_text(list, write_python_dir(home, "3.12", rest));
    add_text(list, write_python_dir(home, "3.11", rest));
    add_text(list, write_python_dir(home, "3.10", rest));
    add_text(list, write_python_dir(home, "3.9", rest));
    assert(texts(list@) =~= known + python_dirs(home@, rest@));
}

/// Where the program is looked for, in order: on the search path, below the
/// home directory where there is one, and in the usual places.
pub open spec fn candidates(home: Option<Seq<char>>) -> Seq<Seq<char>> {
    seq!["demucs"@] + (match home {
        Some(home) => python_dirs(home, "/bin/demucs"@).push(
            path_join(home, ".local/bin/demucs"@),
        ),
        None => Seq::empty(),
    }) + seq!["/opt/homebrew/bin/demucs"@, "/usr/local/bin/demucs"@, "/usr/bin/demucs"@]
}

/// Where the program is looked for, in order.
pub fn demucs_candidates(home: Option<&str>) -> (res: Vec<String>)
    ensures
        texts(res@) == candidates(
            match home {
                Some(h) => Some(h@),
                None => None,
            },
        ),
{
    let mut out: Vec<String> = Vec::new();
    add_text(&mut out, "demucs".to_owned());
    if let Some(home) = home {
        add_python_dirs(&mut out, home, "/bin/demucs");
        add_text(&mut out, join_path(home, ".local/bin/demucs"));
    }
    add_text(&mut out, "/opt/homebrew/bin/demucs".to_owned());
    add_text(&mut out, "/usr/local/bin/demucs".to_owned());
    add_text(&mut out, "/usr/bin/demucs".to_owned());
    assert(texts(out@) =~= candidates(
        match home {
            Some(h) => Some(h@),
            None => None,
        },
    ));
    out
}

/// The directories that the program's own search path names: those of the
/// system, those below the home directory, and the inherited ones.
pub open spec fn search_dirs(home: Option<Seq<char>>, inherited: Option<Seq<char>>) -> Seq<
    Seq<char>,
> {
    seq![
        "/usr/local/bin"@,
        "/opt/homebrew/bin"@,
        "/usr/bin"@,
        "/bin"@,
        "/usr/sbin"@,
        "/sbin"@,
    ] + (match home {
        Some(home) => python_dirs(home, "/bin"@).push(path_join(home, ".local/bin"@)).push(
            path_join(home, ".cargo/bin"@),
        ),
        None => Seq::empty(),
    }) + (match inherited {
        Some(path) => seq![path],
        None => Seq::empty(),
    })
}

/// The search path that the program is given, so that it finds its own tools
/// however the host was started.
pub fn path_for_demucs(home: Option<&str>, inherited: Option<&str>) -> (res: String)
    ensures
        res@ == separated(
            search_dirs(
                match home {
                    Some(h) => Some(h@),
                    None => None,
                },
                match inherited {
                    Some(p) => Some(p@),
                    None => None,
                },
            ),
            ":"@,
        ),
{
    let mut parts: Vec<String> = Vec::new();
    add_text(&mut parts, "/usr/local/bin".to_owned());
    add_text(&mut parts, "/opt/homebrew/bin".to_owned());
    add_text(&mut parts, "/usr/bin".to_owned());
    add_text(&mut parts, "/bin".to_owned());
    add_text(&mut parts, "/usr/sbin".to_owned());
    add_text(&mut parts, "/sbin".to_owned());
    if let Some(home) = home {
        add_python_dirs(&mut parts, home, "/bin");
        add_text(&mut parts, join_path(home, ".local/bin"));
        add_text(&mut parts, join_path(home, ".cargo/bin"));
    }
    if let Some(path) = inherited {
        add_text(&mut parts, path.to_owned());
    }
    assert(texts(parts@) =~= search_dirs(
        match home {
            Some(h) => Some(h@),
            None => None,
        },
        match inherited {
            Some(p) => Some(p@),
            None => None,
        },
    ));
    write_separated(&parts, ":")
}

/// The program's arguments in front of the output directory and the song.
pub fn demucs_flags() -> (res: Vec<String>)
    ensures
        texts(res@) == seq![
            "--mp3"@,
            "--mp3-bitrate"@,
            "192"@,
            "-d"@,
            "mps"@,
            "-n"@,
            "htdemucs"@,
            "-o"@,
        ],
{
    let mut out: Vec<String> = Vec::new();
    add_text(&mut out, "--mp3".to_owned());
    add_text(&mut out, "--mp3-bitrate".to_owned());
    add_text(&mut out, "192".to_owned());
    add_text(&mut out, "-d".to_owned());
    add_text(&mut out, "mps".to_owned());
    add_text(&mut out, "-n".to_owned());
    add_text(&mut out, "htdemucs".to_owned());
    add_text(&mut out, "-o".to_owned());
    assert(texts(out@) =~= seq![
        "--mp3"@,
        "--mp3-bitrate"@,
        "192"@,
        "-d"@,
        "mps"@,
        "-n"@,
        "htdemucs"@,
        "-o"@,
    ]);
    out
}

/// The program that was found to run, where one was.
pub fn found_program(found: Option<String>) -> (res: Result<String, Error>)
    ensures
        match found {
            Some(path) => res is Ok && res->Ok_0@ == path@,
            None => fails_with(
                res,
                "demucs not found — install with `pip3 install --user demucs`"@,
            ),
        },
{
    match found {
        Some(path) => Ok(path),
        None => Err(
            Error::Other(
                "demucs not found — install with `pip3 install --user demucs`".to_owned(),
            ),
        ),
    }
}

/// The name that the program knows a song by: the stem of its file's name. The
/// path is there where it is text.
pub fn song_name(path: Option<&str>) -> (res: Result<String, Error>)
    ensures
        match path {
            Some(path) => match stem_in(path@) {
                Some(name) => res is Ok && res->Ok_0@ == name,
                None => fails_with(res, "bad input filename"@),
            },
            None => fails_with(res, "bad input filename"@),
        },
{
    if let Some(path) = path {
        if let Some(name) = file_stem(path) {
            return Ok(name);
        }
    }
    Err(Error::Other("bad input filename".to_owned()))
}

/// Where the four stems of a song are.
#[derive(Clone, Debug, PartialEq, Eq)]
pub struct SplitResult {
    pub bass: String,
    pub drums: String,
    pub other: String,
    pub vocals: String,
    pub track_name: String,
}

/// The directory that the program writes a song's stems into.
pub open spec fn stem_dir(output_dir: Seq<char>, track_name: Seq<char>) -> Seq<char> {
    path_join(path_join(output_dir, "htdemucs"@), track_name)
}

/// Where the program writes the four stems of a song.
pub fn split_result(output_dir: &str, track_name: &str) -> (res: SplitResult)
    ensures
        res.bass@ == path_join(stem_dir(output_dir@, track_name@), "bass.mp3"@),
        res.drums@ == path_join(stem_dir(output_dir@, track_name@), "drums.mp3"@),
        res.other@ == path_join(stem_dir(output_dir@, track_name@), "other.mp3"@),
        res.vocals@ == path_join(stem_dir(output_dir@, track_name@), "vocals.mp3"@),
        res.track_name@ == track_name@,
{
    let model: String = join_path(output_dir, "htdemucs");
    let dir: String = join_path(model.as_str(), track_name);
    SplitResult {
        bass: join_path(dir.as_str(), "bass.mp3"),
        drums: join_path(dir.as_str(), "drums.mp3"),
        other: join_path(dir.as_str(), "other.mp3"),
        vocals: join_path(dir.as_str(), "vocals.mp3"),
        track_name: track_name.to_owned(),
    }
}

/// Which of the four stems are there.
#[derive(Clone, Copy, Debug, PartialEq, Eq, Structural)]
pub struct Present {
    pub bass: bool,
    pub drums: bool,
    pub other: bool,
    pub vocals: bool,
}

/// The first stem that is not there.
pub open spec fn first_missing(r: SplitResult, there: Present) -> Option<Seq<char>> {
    if !there.bass {
        Some(r.bass@)
    } else if !there.drums {
        Some(r.drums@)
    } else if !there.other {
        Some(r.other@)
    } else if !there.vocals {
        Some(r.vocals@)
    } else {
        None
    }
}

/// Fails where the program left out a stem.
pub fn check_stems(r: &SplitResult, there: Present) -> (res: Result<(), Error>)
    ensures
        match first_missing(*r, there) {
            None => res is Ok,
            Some(path) => fails_with(
                res,
                "demucs ran but expected stem missing: "@ + path,
            ),
        },
{
    let missing: &String = if !there.bass {
        &r.bass
    } else if !there.drums {
        &r.drums
    } else if !there.other {
        &r.other
    } else if !there.vocals {
        &r.vocals
    } else {
        return Ok(());
    };
    Err(Error::Other(joined("demucs ran but expected stem missing: ", missing.as_str())))
}

proof fn lemma_python_dirs(home: Seq<char>)
    requires
        home.len() > 0,
        home.last() != '/',
    ensures
        python_dir(home, "3.13"@, "/bin"@) == home + "/Library/Python/3.13/bin"@,
        python_dir(home, "3.13"@, "/bin/demucs"@) == home + "/Library/Python/3.13/bin/demucs"@,
        python_dir(home, "3.12"@, "/bin"@) == home + "/Library/Python/3.12/bin"@,
        python_dir(home, "3.12"@, "/bin/demucs"@) == home + "/Library/Python/3.12/bin/demucs"@,
        python_dir(home, "3.11"@, "/bin"@) == home + "/Library/Python/3.11/bin"@,
        python_dir(home, "3.11"@, "/bin/demucs"@) == home + "/Library/Python/3.11/bin/demucs"@,
        python_dir(home, "3.10"@, "/bin"@) == home + "/Library/Python/3.10/bin"@,
        python_dir(home, "3.10"@, "/bin/demucs"@) == home + "/Library/Python/3.10/bin/demucs"@,
        python_dir(home, "3.9"@, "/bin"@) == home + "/Library/Python/3.9/bin"@,
        python_dir(home, "3.9"@, "/bin/demucs"@) == home + "/Library/Python/3.9/bin/demucs"@,
{
    reveal_strlit("/");
    reveal_strlit("Library/Python/");
    reveal_strlit("/bin");
    reveal_strlit("/bin/demucs");
    reveal_strlit("3.13");
    reveal_strlit("/Library/Python/3.13/bin");
    reveal_strlit("/Library/Python/3.13/bin/demucs");
    assert(python_dir(home, "3.13"@, "/bin"@) =~= home + "/Library/Python/3.13/bin"@);
    assert(python_dir(home, "3.13"@, "/bin/demucs"@) =~= home
        + "/Library/Python/3.13/bin/demucs"@);
    reveal_strlit("3.12");
    reveal_strlit("/Library/Python/3.12/bin");
    reveal_strlit("/Library/Python/3.12/bin/demucs");
    assert(python_dir(home, "3.12"@, "/bin"@) =~= home + "/Library/Python/3.12/bin"@);
    assert(python_dir(home, "3.12"@, "/bin/demucs"@) =~= home
        + "/Library/Python/3.12/bin/demucs"@);
    reveal_strlit("3.11");
    reveal_strlit("/Library/Python/3.11/bin");
    reveal_strlit("/Library/Python/3.11/bin/demucs");
    assert(python_dir(home, "3.11"@, "/bin"@) =~= home + "/Library/Python/3.11/bin"@);
    assert(python_dir(home, "3.11"@, "/bin/demucs"@) =~= home
        + "/Library/Python/3.11/bin/demucs"@);
    reveal_strlit("3.10");
    reveal_strlit("/Library/Python/3.10/bin");
    reveal_strlit("/Library/Python/3.10/bin/demucs");
    assert(python_dir(home, "3.10"@, "/bin"@) =~= home + "/Library/Python/3.10/bin"@);
    assert(python_dir(home, "3.10"@, "/bin/demucs"@) =~= home
        + "/Library/Python/3.10/bin/demucs"@);
    reveal_strlit("3.9");
    reveal_strlit("/Library/Python/3.9/bin");
    reveal_strlit("/Library/Python/3.9/bin/demucs");
    assert(python_dir(home, "3.9"@, "/bin"@) =~= home + "/Library/Python/3.9/bin"@);
    assert(python_dir(home, "3.9"@, "/bin/demucs"@) =~= home
        + "/Library/Python/3.9/bin/demucs"@);
}

proof fn lemma_home_dirs(home: Seq<char>)
    requires
        home.len() > 0,
        home.last() != '/',
    ensures
        path_join(home, ".local/bin/demucs"@) == home + "/.local/bin/demucs"@,
        path_join(home, ".local/bin"@) == home + "/.local/bin"@,
        path_join(home, ".cargo/bin"@) == home + "/.cargo/bin"@,
{
    reveal_strlit("/");
    reveal_strlit(".local/bin/demucs");
    reveal_strlit(".local/bin");
    reveal_strlit(".cargo/bin");
    reveal_strlit("/.local/bin/demucs");
    reveal_strlit("/.local/bin");
    reveal_strlit("/.cargo/bin");
    assert(path_join(home, ".local/bin/demucs"@) =~= home + "/.local/bin/demucs"@);
    assert(path_join(home, ".local/bin"@) =~= home + "/.local/bin"@);
    assert(path_join(home, ".cargo/bin"@) =~= home + "/.cargo/bin"@);
}

/// Where the program is looked for: on the search path first, then where Python
/// installs it for the user, the newest version first, and then in the usual
/// places.
pub proof fn law_where_the_program_is_looked_for(home: Seq<char>)
    requires
        home.len() > 0,
        home.last() != '/',
    ensures
        candidates(Some(home)) == seq![
            "demucs"@,
            home + "/Library/Python/3.13/bin/demucs"@,
            home + "/Library/Python/3.12/bin/demucs"@,
            home + "/Library/Python/3.11/bin/demucs"@,
            home + "/Library/Python/3.10/bin/demucs"@,
            home + "/Library/Python/3.9/bin/demucs"@,
            home + "/.local/bin/demucs"@,
            "/opt/homebrew/bin/demucs"@,
            "/usr/local/bin/demucs"@,
            "/usr/bin/demucs"@,
        ],
        candidates(None) == seq![
            "demucs"@,
            "/opt/homebrew/bin/demucs"@,
            "/usr/local/bin/demucs"@,
            "/usr/bin/demucs"@,
        ],
{
    lemma_python_dirs(home);
    lemma_home_dirs(home);
    assert(candidates(Some(home)) =~= seq![
        "demucs"@,
        home + "/Library/Python/3.13/bin/demucs"@,
        home + "/Library/Python/3.12/bin/demucs"@,
        home + "/Library/Python/3.11/bin/demucs"@,
        home + "/Library/Python/3.10/bin/demucs"@,
        home + "/Library/Python/3.9/bin/demucs"@,
        home + "/.local/bin/demucs"@,
        "/opt/homebrew/bin/demucs"@,
        "/usr/local/bin/demucs"@,
        "/usr/bin/demucs"@,
    ]);
    assert(candidates(None) =~= seq![
        "demucs"@,
        "/opt/homebrew/bin/demucs"@,
        "/usr/local/bin/demucs"@,
        "/usr/bin/demucs"@,
    ]);
}

/// The search path that the program is given: the directories of the system,
/// those below the home directory, and at the end the inherited path as it is.
pub proof fn law_where_its_tools_are_looked_for(home: Seq<char>, inherited: Seq<char>)
    requires
        home.len() > 0,
        home.last() != '/',
    ensures
        search_dirs(Some(home), None) == seq![
            "/usr/local/bin"@,
            "/opt/homebrew/bin"@,
            "/usr/bin"@,
            "/bin"@,
            "/usr/sbin"@,
            "/sbin"@,
            home + "/Library/Python/3.13/bin"@,
            home + "/Library/Python/3.12/bin"@,
            home + "/Library/Python/3.11/bin"@,
            home + "/Library/Python/3.10/bin"@,
            home + "/Library/Python/3.9/bin"@,
            home + "/.local/bin"@,
            home + "/.cargo/bin"@,
        ],
        search_dirs(Some(home), Some(inherited)) == search_dirs(Some(home), None).push(inherited),
        search_dirs(None, None) == seq![
            "/usr/local/bin"@,
            "/opt/homebrew/bin"@,
            "/usr/bin"@,
            "/bin"@,
            "/usr/sbin"@,
            "/sbin"@,
        ],
        search_dirs(None, Some(inherited)) == search_dirs(None, None).push(inherited),
{
    lemma_python_dirs(home);
    lemma_home_dirs(home);
    assert(search_dirs(Some(home), None) =~= seq![
        "/usr/local/bin"@,
        "/opt/homebrew/bin"@,
        "/usr/bin"@,
        "/bin"@,
        "/usr/sbin"@,
        "/sbin"@,
        home + "/Library/Python/3.13/bin"@,
        home + "/Library/Python/3.12/bin"@,
        home + "/Library/Python/3.11/bin"@,
        home + "/Library/Python/3.10/bin"@,
        home + "/Library/Python/3.9/bin"@,
        home + "/.local/bin"@,
        home + "/.cargo/bin"@,
    ]);
    assert(search_dirs(Some(home), Some(inherited)) =~= search_dirs(Some(home), None).push(
        inherited,
    ));
    assert(search_dirs(None, None) =~= seq![
        "/usr/local/bin"@,
        "/opt/homebrew/bin"@,
        "/usr/bin"@,
        "/bin"@,
        "/usr/sbin"@,
        "/sbin"@,
    ]);
    assert(search_dirs(None, Some(inherited)) =~= search_dirs(None, None).push(inherited));
}

/// The program writes a song's stems into a directory named after the model and
/// one named after the song.
pub proof fn law_where_the_stems_are(output_dir: Seq<char>, track_name: Seq<char>)
    requires
        output_dir.len() > 0,
        output_dir.last() != '/',
        track_name.len() > 0,
        track_name[0] != '/',
    ensures
        stem_dir(output_dir, track_name) == output_dir + "/htdemucs/"@ + track_name,
{
    reveal_strlit("/");
    reveal_strlit("htdemucs");
    reveal_strlit("/htdemucs/");
    assert(stem_dir(output_dir, track_name) =~= output_dir + "/htdemucs/"@ + track_name);
}

/// A split is complete just where all four stems are there; otherwise one that
/// is not there is named, the bass before the drums, the rest and the vocals.
pub proof fn law_which_stem_is_missing(r: SplitResult, there: Present)
    ensures
        first_missing(r, there) is None <==> there.bass && there.drums && there.other
            && there.vocals,
        !there.bass ==> first_missing(r, there) == Some(r.bass@),
        there.bass && !there.drums ==> first_missing(r, there) == Some(r.drums@),
        there.bass && there.drums && !there.other ==> first_missing(r, there) == Some(r.other@),
        there.bass && there.drums && there.other && !there.vocals ==> first_missing(r, there)
            == Some(r.vocals@),
{
}

} // verus!
