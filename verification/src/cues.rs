//! Audio cues for record start, stop and error.
use vstd::prelude::*;

use crate::config::path_below;

verus! {

/// A sound that tells what happened.
#[derive(Clone, Copy, Debug, PartialEq, Eq, Structural)]
pub enum Cue {
    Start,
    Stop,
    Error,
}

/// The file a cue is played from.
pub open spec fn cue_file(cue: Cue) -> Seq<char> {
    match cue {
        Cue::Start => "cue-start.wav"@,
        Cue::Stop => "cue-stop.wav"@,
        Cue::Error => "cue-error.wav"@,
    }
}

impl Cue {
    /// The file the cue is played from.
    pub fn file(self) -> (r: &'static str)
        ensures
            r@ == cue_file(self),
    {
        match self {
            Cue::Start => "cue-start.wav",
            Cue::Stop => "cue-stop.wav",
            Cue::Error => "cue-error.wav",
        }
    }
}

/// The programs that can play a cue, in the order they are tried.
pub const PLAYERS: [&'static str; 2] = ["pw-play", "paplay"];

/// A file in a directory below `base`.
pub open spec fn file_below(base: Seq<char>, dir: Seq<char>, name: Seq<char>) -> Seq<char> {
    crate::config::below(crate::config::below(base, dir), name)
}

/// Where a cue file may be, in the order it is looked for.
pub open spec fn candidates(
    exe_dir: Option<Seq<char>>,
    source_dir: Seq<char>,
    data_home: Option<Seq<char>>,
    name: Seq<char>,
) -> Seq<Seq<char>> {
    let installed = match exe_dir {
        Some(dir) => seq![
            file_below(dir, "../share/parla/cues"@, name),
            file_below(dir, "cues"@, name),
        ],
        None => Seq::empty(),
    };
    let data = match data_home {
        Some(dir) => seq![file_below(dir, "parla/cues"@, name)],
        None => Seq::empty(),
    };
    installed + seq![file_below(source_dir, "assets/cues"@, name)] + data
}

fn in_dir(base: &str, dir: &str, name: &str) -> (r: String)
    ensures
        r@ == file_below(base@, dir@, name@),
{
    let d = path_below(base, dir);
    path_below(d.as_str(), name)
}

/// Where the cue file `name` may be: next to the binary as installed, in the
/// source tree, and under XDG_DATA_HOME.
pub fn asset_candidates(
    exe_dir: Option<&str>,
    source_dir: &str,
    data_home: Option<&str>,
    name: &str,
) -> (r: Vec<String>)
    ensures
        crate::text::texts(r@) == candidates(
            crate::config::opt_str(exe_dir),
            source_dir@,
            crate::config::opt_str(data_home),
            name@,
        ),
{
    let mut out: Vec<String> = Vec::new();
    if let Some(dir) = exe_dir {
        out.push(in_dir(dir, "../share/parla/cues", name));
        out.push(in_dir(dir, "cues", name));
    }
    out.push(in_dir(source_dir, "assets/cues", name));
    if let Some(dir) = data_home {
        out.push(in_dir(dir, "parla/cues", name));
    }
    assert(crate::text::texts(out@) =~= candidates(
        crate::config::opt_str(exe_dir),
        source_dir@,
        crate::config::opt_str(data_home),
        name@,
    ));
    out
}

/// Each cue has a sound of its own.
pub proof fn law_cues_sound_different(a: Cue, b: Cue)
    ensures
        cue_file(a) == cue_file(b) ==> a == b,
{
    reveal_strlit("cue-start.wav");
    reveal_strlit("cue-stop.wav");
    reveal_strlit("cue-error.wav");
    assert("cue-start.wav"@.len() == 13 && "cue-stop.wav"@.len() == 12);
    assert("cue-start.wav"@[4] == 's' && "cue-error.wav"@[4] == 'e');
}

/// A cue is looked for beside the program first, then in the source tree,
/// then in the data directory, and every place looked at is a file of its
/// name.
pub proof fn law_cues_are_looked_for_in_order(
    exe_dir: Option<Seq<char>>,
    source_dir: Seq<char>,
    data_home: Option<Seq<char>>,
    name: Seq<char>,
    i: int,
)
    requires
        0 <= i < candidates(exe_dir, source_dir, data_home, name).len(),
    ensures
        ({
            let c = candidates(exe_dir, source_dir, data_home, name);
            let beside = if exe_dir is Some {
                2int
            } else {
                0
            };
            &&& c.len() == beside + 1 + if data_home is Some {
                1int
            } else {
                0
            }
            &&& c[beside] == file_below(source_dir, "assets/cues"@, name)
            &&& data_home is Some ==> c.last() == file_below(data_home->0, "parla/cues"@, name)
            &&& exe_dir is Some ==> c[0] == file_below(exe_dir->0, "../share/parla/cues"@, name)
                && c[1] == file_below(exe_dir->0, "cues"@, name)
            &&& c[i].len() >= name.len()
            &&& c[i].skip(c[i].len() - name.len()) == name
        }),
{
    let c = candidates(exe_dir, source_dir, data_home, name);
    lemma_ends_with_name(source_dir, "assets/cues"@, name);
    if exe_dir is Some {
        lemma_ends_with_name(exe_dir->0, "../share/parla/cues"@, name);
        lemma_ends_with_name(exe_dir->0, "cues"@, name);
    }
    if data_home is Some {
        lemma_ends_with_name(data_home->0, "parla/cues"@, name);
    }
}

proof fn lemma_ends_with_name(base: Seq<char>, dir: Seq<char>, name: Seq<char>)
    ensures
        ({
            let f = file_below(base, dir, name);
            f.len() >= name.len() && f.skip(f.len() - name.len()) == name
        }),
{
    let f = file_below(base, dir, name);
    assert(f.skip(f.len() - name.len()) =~= name);
}

} // verus!
