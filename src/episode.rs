use vstd::prelude::*;
use crate::text::{chars_of, string_of, contains_chars, contains};
use crate::clean::{clean_filename, cleaned};
use crate::extract::{
    extract_series_name, extract_season, extract_episode, series_name, season_number,
    episode_number,
};

verus! {

/// Why an episode could not be built from a path.
#[derive(Debug, Clone, Copy, PartialEq, Eq, Structural)]
pub enum EpisodeError {
    /// The path names no file.
    MissingFileName,
    /// No name could be drawn from the cleaned file name.
    NameNotFound,
    /// The file name has no extension.
    MissingExtension,
    /// The duration probe could not analyse the file.
    ProbeFailure,
}

/// What the duration probe told of a file.
#[derive(Debug, Clone, Copy, PartialEq, Eq, Structural)]
pub enum ProbeReport {
    /// The probe was not run.
    NotRun,
    /// The probe failed on the file.
    Failed,
    /// The probe ran; `long` tells whether the file lasts more than fifty
    /// minutes.
    Measured { long: bool },
}

/// `p` without trailing `/` and trailing `.` components.
pub open spec fn path_tail(p: Seq<char>) -> Seq<char>
    decreases p.len(),
{
    if p.len() > 0 && p.last() == '/' {
        path_tail(p.drop_last())
    } else if p.len() > 0 && p.last() == '.' && (p.len() == 1 || p[p.len() - 2] == '/') {
        path_tail(p.drop_last())
    } else {
        p
    }
}

/// What follows the last `/` of `p`.
pub open spec fn after_last_slash(p: Seq<char>) -> Seq<char>
    decreases p.len(),
{
    if p.len() == 0 || p.last() == '/' {
        seq![]
    } else {
        after_last_slash(p.drop_last()).push(p.last())
    }
}

/// The final component of a `/`-separated path, unless it is `..` or there
/// is none.
pub open spec fn file_name_of(p: Seq<char>) -> Option<Seq<char>> {
    let c = after_last_slash(path_tail(p));
    if c.len() == 0 || c == seq!['.', '.'] {
        None
    } else {
        Some(c)
    }
}

/// The index of the last `.` of `s`.
pub open spec fn last_dot(s: Seq<char>) -> Option<int>
    decreases s.len(),
{
    if s.len() == 0 {
        None
    } else if s.last() == '.' {
        Some(s.len() - 1)
    } else {
        last_dot(s.drop_last())
    }
}

/// The extension of a file name: what follows its last `.`, unless that
/// `.` is its first character or it has none.
pub open spec fn extension_of(name: Seq<char>) -> Option<Seq<char>> {
    match last_dot(name) {
        Some(k) => if k > 0 {
            Some(name.skip(k + 1))
        } else {
            None
        },
        None => None,
    }
}

fn path_file_name(p: &Vec<char>) -> (r: Option<Vec<char>>)
    ensures
        match r {
            Some(n) => file_name_of(p@) == Some(n@),
            None => file_name_of(p@) is None,
        },
{
    let mut e: usize = p.len();
    assert(p@.take(e as int) =~= p@);
    while e > 0 && (p[e - 1] == '/' || (p[e - 1] == '.' && (e == 1 || p[e - 2] == '/')))
        invariant
            e <= p.len(),
            path_tail(p@) == path_tail(p@.take(e as int)),
        decreases e,
    {
        assert(p@.take(e as int).drop_last() =~= p@.take(e - 1));
        e = e - 1;
    }
    let mut b: usize = e;
    assert(p@.subrange(e as int, e as int) =~= Seq::<char>::empty());
    assert(after_last_slash(p@.take(e as int)) =~= after_last_slash(p@.take(b as int))
        + p@.subrange(b as int, e as int));
    while b > 0 && p[b - 1] != '/'
        invariant
            b <= e <= p.len(),
            after_last_slash(p@.take(e as int)) == after_last_slash(p@.take(b as int))
                + p@.subrange(b as int, e as int),
        decreases b,
    {
        assert(p@.take(b as int).drop_last() =~= p@.take(b - 1));
        assert(after_last_slash(p@.take(b - 1)).push(p[b - 1]) + p@.subrange(b as int, e as int)
            =~= after_last_slash(p@.take(b - 1)) + p@.subrange(b - 1, e as int));
        b = b - 1;
    }
    assert(after_last_slash(p@.take(b as int)) =~= Seq::<char>::empty());
    let mut out: Vec<char> = Vec::new();
    let mut k: usize = b;
    while k < e
        invariant
            b <= k <= e <= p.len(),
            out@ == p@.subrange(b as int, k as int),
        decreases e - k,
    {
        out.push(p[k]);
        k = k + 1;
        assert(out@ =~= p@.subrange(b as int, k as int));
    }
    assert(out@ =~= after_last_slash(path_tail(p@)));
    if out.len() == 0 || (out.len() == 2 && out[0] == '.' && out[1] == '.') {
        assert(out.len() == 2 && out[0] == '.' && out[1] == '.' ==> out@ =~= seq!['.', '.']);
        None
    } else {
        assert(out@ != seq!['.', '.'] ==> !(out.len() == 2 && out[0] == '.' && out[1] == '.'));
        Some(out)
    }
}

/// The file name that ends a `/`-separated path, if it has one.
pub fn file_name(full_path: &str) -> (r: Option<String>)
    ensures
        match r {
            Some(n) => file_name_of(full_path@) == Some(n@),
            None => file_name_of(full_path@) is None,
        },
{
    match path_file_name(&chars_of(full_path)) {
        Some(n) => Some(string_of(&n)),
        None => None,
    }
}

/// The extension of a file name, if it has one.
pub fn extract_extension(filename: &str) -> (r: Option<String>)
    ensures
        match r {
            Some(x) => extension_of(filename@) == Some(x@),
            None => extension_of(filename@) is None,
        },
{
    let s = chars_of(filename);
    let mut k: usize = s.len();
    assert(s@.take(k as int) =~= s@);
    while k > 0 && s[k - 1] != '.'
        invariant
            k <= s.len(),
            last_dot(s@) == last_dot(s@.take(k as int)),
        decreases k,
    {
        assert(s@.take(k as int).drop_last() =~= s@.take(k - 1));
        k = k - 1;
    }
    if k <= 1 {
        return None;
    }
    let mut out: Vec<char> = Vec::new();
    let mut j: usize = k;
    while j < s.len()
        invariant
            k <= j <= s.len(),
            out@ == s@.subrange(k as int, j as int),
        decreases s.len() - j,
    {
        out.push(s[j]);
        j = j + 1;
        assert(out@ =~= s@.subrange(k as int, j as int));
    }
    assert(out@ =~= s@.skip(k as int));
    Some(string_of(&out))
}

/// Whether the file name itself calls the file a movie.
pub open spec fn movie_keyword(filename: Seq<char>) -> bool {
    contains(filename, "Film"@) || contains(filename, "Movie"@)
}

/// Whether the file is a movie without asking the probe: a movie keyword in
/// its name, or neither a season nor an episode.
pub open spec fn settled_without_probe(filename: Seq<char>, season: u32, episode: u32) -> bool {
    movie_keyword(filename) || (season == 0 && episode == 0)
}

/// Whether the file is a movie, given what the probe reported where it had
/// to be asked.
pub open spec fn movie_verdict(filename: Seq<char>, season: u32, episode: u32, probe: ProbeReport)
    -> Result<bool, EpisodeError> {
    if settled_without_probe(filename, season, episode) {
        Ok(true)
    } else {
        match probe {
            ProbeReport::Measured { long } => Ok(long),
            _ => Err(EpisodeError::ProbeFailure),
        }
    }
}

/// Whether the probe must be asked to classify this file.
pub fn needs_probe(filename: &str, season: u32, episode: u32) -> (r: bool)
    ensures
        r == !settled_without_probe(filename@, season, episode),
{
    let name = chars_of(filename);
    if contains_chars(&name, &chars_of("Film")) || contains_chars(&name, &chars_of("Movie")) {
        return false;
    }
    !(season == 0 && episode == 0)
}

/// Classifies a file as a movie or an episode.
pub fn is_movie(filename: &str, season: u32, episode: u32, probe: ProbeReport) -> (r: Result<
    bool,
    EpisodeError,
>)
    ensures
        r == movie_verdict(filename@, season, episode, probe),
{
    if !needs_probe(filename, season, episode) {
        return Ok(true);
    }
    match probe {
        ProbeReport::Measured { long } => Ok(long),
        _ => Err(EpisodeError::ProbeFailure),
    }
}

/// Everything that the path alone tells of a media file.
#[derive(Clone, Debug)]
pub struct Draft {
    pub full_path: String,
    pub filename: String,
    pub filename_clean: String,
    pub extension: String,
    pub name: String,
    pub season: u32,
    pub episode: u32,
}

/// The error that stops the reading of a path, if any, in the order in
/// which the steps run: file name, name, extension.
pub open spec fn path_failure(full_path: Seq<char>) -> Option<EpisodeError> {
    match file_name_of(full_path) {
        None => Some(EpisodeError::MissingFileName),
        Some(f) => if series_name(cleaned(f)) is None {
            Some(EpisodeError::NameNotFound)
        } else if extension_of(f) is None {
            Some(EpisodeError::MissingExtension)
        } else {
            None
        },
    }
}

/// The fields of `d` are those that its path gives.
pub open spec fn draft_of_path(d: Draft, full_path: Seq<char>) -> bool {
    &&& d.full_path@ == full_path
    &&& file_name_of(full_path) == Some(d.filename@)
    &&& d.filename_clean@ == cleaned(d.filename@)
    &&& series_name(d.filename_clean@) == Some(d.name@)
    &&& d.season == season_number(d.filename_clean@)
    &&& d.episode == episode_number(d.filename_clean@)
    &&& extension_of(d.filename@) == Some(d.extension@)
}

/// Reads the name, season, episode and extension that a path shows.
pub fn fetch_infos(full_path: &str) -> (r: Result<Draft, EpisodeError>)
    ensures
        r is Err <==> path_failure(full_path@) is Some,
        match r {
            Ok(d) => draft_of_path(d, full_path@),
            Err(e) => path_failure(full_path@) == Some(e),
        },
{
    let filename = match file_name(full_path) {
        Some(f) => f,
        None => return Err(EpisodeError::MissingFileName),
    };
    let filename_clean = clean_filename(filename.as_str());
    let name = match extract_series_name(filename_clean.as_str()) {
        Some(n) => n,
        None => return Err(EpisodeError::NameNotFound),
    };
    let season = extract_season(filename_clean.as_str());
    let episode = extract_episode(filename_clean.as_str());
    let extension = match extract_extension(filename.as_str()) {
        Some(x) => x,
        None => return Err(EpisodeError::MissingExtension),
    };
    Ok(Draft { full_path: string_of(&chars_of(full_path)), filename, filename_clean, extension, name, season, episode })
}

impl Draft {
    /// Whether the probe must be asked before this file can be classified.
    pub fn probe_needed(&self) -> (r: bool)
        ensures
            r == !settled_without_probe(self.filename@, self.season, self.episode),
    {
        needs_probe(self.filename.as_str(), self.season, self.episode)
    }
}

/// A media file, classified as a movie or an episode of a series.
#[derive(Clone, Debug)]
pub struct Episode {
    pub full_path: String,
    pub filename: String,
    pub filename_clean: String,
    pub extension: String,
    pub name: String,
    pub season: u32,
    pub episode: u32,
    pub is_movie: bool,
}

impl Episode {
    /// Completes a draft with the movie verdict; `probe` is what the probe
    /// reported, where it was asked.
    pub fn new(draft: Draft, probe: ProbeReport) -> (r: Result<Episode, EpisodeError>)
        ensures
            r is Err <==> movie_verdict(draft.filename@, draft.season, draft.episode, probe) is Err,
            match r {
                Ok(ep) => {
                    &&& ep.full_path == draft.full_path
                    &&& ep.filename == draft.filename
                    &&& ep.filename_clean == draft.filename_clean
                    &&& ep.extension == draft.extension
                    &&& ep.name == draft.name
                    &&& ep.season == draft.season
                    &&& ep.episode == draft.episode
                    &&& movie_verdict(draft.filename@, draft.season, draft.episode, probe) == Ok::<
                        bool,
                        EpisodeError,
                    >(ep.is_movie)
                },
                Err(e) => movie_verdict(draft.filename@, draft.season, draft.episode, probe) == Err::<
                    bool,
                    EpisodeError,
                >(e),
            },
    {
        let verdict = is_movie(draft.filename.as_str(), draft.season, draft.episode, probe);
        match verdict {
            Ok(m) => Ok(
                Episode {
                    full_path: draft.full_path,
                    filename: draft.filename,
                    filename_clean: draft.filename_clean,
                    extension: draft.extension,
                    name: draft.name,
                    season: draft.season,
                    episode: draft.episode,
                    is_movie: m,
                },
            ),
            Err(e) => Err(e),
        }
    }
}

/// A file whose cleaned name shows neither a season nor an episode is a
/// movie, whatever the probe reported or whether it ran.
pub proof fn markerless_is_movie(filename: Seq<char>, probe: ProbeReport)
    requires
        season_number(cleaned(filename)) == 0,
        episode_number(cleaned(filename)) == 0,
    ensures
        movie_verdict(
            filename,
            season_number(cleaned(filename)),
            episode_number(cleaned(filename)),
            probe,
        ) == Ok::<bool, EpisodeError>(true),
{
}

/// A file whose name holds `Movie` or `Film` is a movie, whatever season and
/// episode its name shows and whatever the probe reported.
pub proof fn keyword_is_movie(filename: Seq<char>, season: u32, episode: u32, probe: ProbeReport)
    requires
        contains(filename, "Movie"@) || contains(filename, "Film"@),
    ensures
        movie_verdict(filename, season, episode, probe) == Ok::<bool, EpisodeError>(true),
{
}

} // verus!
