use vstd::prelude::*;
use crate::text::{chars_of, string_of, split_words, join_words, trim_chars, parse_u32_or, join, trim, words, parse_or,
    all_ascii_digits, digit_value, parse_u32, is_ascii_digit};

verus! {

/// What `char::is_numeric` says of `c`: whether its general category is a
/// number category.
pub uninterp spec fn numeric_char(c: char) -> bool;

/// Relies on `char::is_numeric`, whose answer depends on the character alone.
#[verifier::external_body]
fn is_numeric(c: char) -> (r: bool)
    ensures
        r == numeric_char(c),
{
    c.is_numeric()
}

/// What the `regex` crate captures in group `group` of the leftmost-first
/// match of `pattern` in `s`; `None` where the pattern is invalid, nothing
/// matches or the group takes no part in the match.
pub uninterp spec fn regex_capture(pattern: Seq<char>, s: Seq<char>, group: nat) -> Option<Seq<char>>;

/// Relies on `regex::Regex::new`, `Regex::captures` and `Captures::get`: the
/// text of one group of the first match, which depends on the arguments alone.
#[verifier::external_body]
fn capture(pattern: &str, s: &str, group: usize) -> (r: Option<String>)
    ensures
        match r {
            Some(t) => regex_capture(pattern@, s@, group as nat) == Some(t@),
            None => regex_capture(pattern@, s@, group as nat) is None,
        },
{
    let re = regex::Regex::new(pattern).ok()?;
    let caps = re.captures(s)?;
    Some(caps.get(group)?.as_str().to_string())
}

/// A word made of one of the allowed letters and one or more numeric
/// characters (`S2`, `E13`).
pub open spec fn is_marker(t: Seq<char>, season: bool, episode: bool) -> bool {
    &&& t.len() > 1
    &&& ((season && t[0] == 'S') || (episode && t[0] == 'E'))
    &&& forall|k: int| 1 <= k < t.len() ==> numeric_char(#[trigger] t[k])
}

/// The index of the first marker among `ts`.
pub open spec fn first_marker(ts: Seq<Seq<char>>, season: bool, episode: bool) -> Option<int>
    decreases ts.len(),
{
    if ts.len() == 0 {
        None
    } else if is_marker(ts[0], season, episode) {
        Some(0)
    } else {
        match first_marker(ts.drop_first(), season, episode) {
            Some(i) => Some(i + 1),
            None => None,
        }
    }
}

pub proof fn lemma_first_marker(ts: Seq<Seq<char>>, season: bool, episode: bool, i: int)
    requires
        0 <= i <= ts.len(),
        forall|j: int| 0 <= j < i ==> !is_marker(#[trigger] ts[j], season, episode),
    ensures
        i < ts.len() && is_marker(ts[i], season, episode) ==> first_marker(ts, season, episode)
            == Some(i),
        i == ts.len() ==> first_marker(ts, season, episode) is None,
    decreases i,
{
    if i > 0 {
        let rest = ts.drop_first();
        assert forall|j: int| 0 <= j < i - 1 implies !is_marker(#[trigger] rest[j], season, episode) by {
            assert(rest[j] == ts[j + 1]);
        }
        lemma_first_marker(rest, season, episode, i - 1);
        assert(!is_marker(ts[0], season, episode));
    }
}

fn marker(t: &Vec<char>, season: bool, episode: bool) -> (r: bool)
    ensures
        r == is_marker(t@, season, episode),
{
    if t.len() <= 1 || !((season && t[0] == 'S') || (episode && t[0] == 'E')) {
        return false;
    }
    let mut k: usize = 1;
    while k < t.len()
        invariant
            1 <= k <= t.len(),
            forall|m: int| 1 <= m < k ==> numeric_char(#[trigger] t@[m]),
        decreases t.len() - k,
    {
        if !is_numeric(t[k]) {
            return false;
        }
        k = k + 1;
    }
    true
}

fn find_marker(ts: &Vec<Vec<char>>, season: bool, episode: bool) -> (r: Option<usize>)
    ensures
        match r {
            Some(i) => first_marker(ts.deep_view(), season, episode) == Some(i as int) && i
                < ts.len() && ts[i as int].len() > 1,
            None => first_marker(ts.deep_view(), season, episode) is None,
        },
{
    let ghost dv = ts.deep_view();
    let mut i: usize = 0;
    while i < ts.len()
        invariant
            i <= ts.len(),
            dv == ts.deep_view(),
            forall|j: int| 0 <= j < i ==> !is_marker(#[trigger] dv[j], season, episode),
        decreases ts.len() - i,
    {
        assert(ts[i as int]@ =~= dv[i as int]);
        if marker(&ts[i], season, episode) {
            proof {
                lemma_first_marker(dv, season, episode, i as int);
            }
            return Some(i);
        }
        i = i + 1;
    }
    proof {
        lemma_first_marker(dv, season, episode, i as int);
    }
    None
}

/// The fallback patterns for a name, in the order in which they are tried:
/// what precedes a season (and episode) tag, a season and a number, an
/// episode tag, a short number, a movie keyword, and the whole text.
pub open spec fn name_patterns() -> Seq<Seq<char>> {
    seq![
        "(.+?)(S\\d{1,2}E\\d{1,2}|S\\d{1,2})"@,
        "(.+?)(S\\d{1,2} \\d{1,2})"@,
        "(.+?)(E\\d{1,2})"@,
        "(.+?)(\\d{1,3})"@,
        "(.+?)(Film|Movie)"@,
        "(.+)"@
    ]
}

pub open spec fn season_pattern() -> Seq<char> {
    "S(\\d{1,2})(?:E\\d{1,2})?"@
}

pub open spec fn episode_pattern() -> Seq<char> {
    "(?:S\\d{1,2}E(\\d{1,2}))|(?:E(\\d{1,2}))|(?:\\b(\\d{1,3})\\b)"@
}

/// The first of `ps` whose first group captures something, trimmed.
pub open spec fn name_by_patterns(s: Seq<char>, ps: Seq<Seq<char>>) -> Option<Seq<char>>
    decreases ps.len(),
{
    if ps.len() == 0 {
        None
    } else {
        match regex_capture(ps[0], s, 1) {
            Some(c) => Some(trim(c)),
            None => name_by_patterns(s, ps.drop_first()),
        }
    }
}

/// The series or movie name of a cleaned file name: the words before the
/// first season or episode marker, else what the fallback patterns give.
pub open spec fn series_name(s: Seq<char>) -> Option<Seq<char>> {
    match first_marker(words(s), true, true) {
        Some(i) => Some(trim(join(words(s).take(i)))),
        None => name_by_patterns(s, name_patterns()),
    }
}

/// The season number of a cleaned file name; 0 where it shows none.
pub open spec fn season_number(s: Seq<char>) -> u32 {
    match first_marker(words(s), true, false) {
        Some(i) => parse_or(words(s)[i].drop_first(), 1),
        None => match regex_capture(season_pattern(), s, 1) {
            Some(d) => parse_or(d, 1),
            None => 0,
        },
    }
}

/// The episode number that the fallback pattern gives: its first group that
/// took part in the match.
pub open spec fn episode_by_pattern(s: Seq<char>) -> u32 {
    match regex_capture(episode_pattern(), s, 1) {
        Some(d) => parse_or(d, 1),
        None => match regex_capture(episode_pattern(), s, 2) {
            Some(d) => parse_or(d, 1),
            None => match regex_capture(episode_pattern(), s, 3) {
                Some(d) => parse_or(d, 1),
                None => 0,
            },
        },
    }
}

/// The episode number of a cleaned file name; 0 where it shows none.
pub open spec fn episode_number(s: Seq<char>) -> u32 {
    match first_marker(words(s), false, true) {
        Some(i) => parse_or(words(s)[i].drop_first(), 1),
        None => episode_by_pattern(s),
    }
}

/// The number after the marker letter of a word.
fn marker_number(t: &Vec<char>) -> (r: u32)
    requires
        t.len() > 0,
    ensures
        r == parse_or(t@.drop_first(), 1),
{
    let mut digits: Vec<char> = Vec::new();
    let mut k: usize = 1;
    while k < t.len()
        invariant
            1 <= k <= t.len(),
            digits@ == t@.subrange(1, k as int),
        decreases t.len() - k,
    {
        digits.push(t[k]);
        k = k + 1;
        assert(digits@ =~= t@.subrange(1, k as int));
    }
    assert(t@.drop_first() =~= t@.subrange(1, t.len() as int));
    parse_u32_or(&digits, 1)
}

/// The number that group `group` of `pattern` captures in `s`, if any.
fn captured_number(pattern: &str, s: &str, group: usize) -> (r: Option<u32>)
    ensures
        r == match regex_capture(pattern@, s@, group as nat) {
            Some(d) => Some(parse_or(d, 1)),
            None => None,
        },
{
    match capture(pattern, s, group) {
        Some(d) => Some(parse_u32_or(&chars_of(d.as_str()), 1)),
        None => None,
    }
}

/// The name of the series or movie that a cleaned file name shows.
pub fn extract_series_name(cleaned: &str) -> (r: Option<String>)
    ensures
        match r {
            Some(n) => series_name(cleaned@) == Some(n@),
            None => series_name(cleaned@) is None,
        },
{
    let ws = split_words(&chars_of(cleaned));
    match find_marker(&ws, true, true) {
        Some(i) => {
            let joined = join_words(&ws, i);
            return Some(string_of(&trim_chars(&joined)));
        },
        None => {},
    }
    let patterns: Vec<&str> = vec![
        "(.+?)(S\\d{1,2}E\\d{1,2}|S\\d{1,2})",
        "(.+?)(S\\d{1,2} \\d{1,2})",
        "(.+?)(E\\d{1,2})",
        "(.+?)(\\d{1,3})",
        "(.+?)(Film|Movie)",
        "(.+)",
    ];
    let ghost ps = name_patterns();
    assert(patterns.len() == ps.len());
    assert(forall|k: int| 0 <= k < ps.len() ==> #[trigger] patterns@[k]@ == ps[k]);
    assert(ps.skip(0) =~= ps);
    let mut k: usize = 0;
    while k < patterns.len()
        invariant
            k <= patterns.len() == ps.len(),
            forall|m: int| 0 <= m < ps.len() ==> #[trigger] patterns@[m]@ == ps[m],
            first_marker(words(cleaned@), true, true) is None,
            series_name(cleaned@) == name_by_patterns(cleaned@, ps.skip(k as int)),
        decreases patterns.len() - k,
    {
        assert(ps.skip(k as int)[0] == ps[k as int]);
        assert(ps.skip(k as int).drop_first() =~= ps.skip(k + 1));
        match capture(patterns[k], cleaned, 1) {
            Some(c) => {
                return Some(string_of(&trim_chars(&chars_of(c.as_str()))));
            },
            None => {},
        }
        k = k + 1;
    }
    None
}

/// The season number that a cleaned file name shows; 0 where it shows none.
pub fn extract_season(cleaned: &str) -> (r: u32)
    ensures
        r == season_number(cleaned@),
{
    let ws = split_words(&chars_of(cleaned));
    match find_marker(&ws, true, false) {
        Some(i) => {
            assert(ws[i as int]@ =~= ws.deep_view()[i as int]);
            marker_number(&ws[i])
        },
        None => match captured_number("S(\\d{1,2})(?:E\\d{1,2})?", cleaned, 1) {
            Some(n) => n,
            None => 0,
        },
    }
}

/// The episode number that a cleaned file name shows; 0 where it shows none.
pub fn extract_episode(cleaned: &str) -> (r: u32)
    ensures
        r == episode_number(cleaned@),
{
    let ws = split_words(&chars_of(cleaned));
    match find_marker(&ws, false, true) {
        Some(i) => {
            assert(ws[i as int]@ =~= ws.deep_view()[i as int]);
            return marker_number(&ws[i]);
        },
        None => {},
    }
    let pattern = "(?:S\\d{1,2}E(\\d{1,2}))|(?:E(\\d{1,2}))|(?:\\b(\\d{1,3})\\b)";
    match captured_number(pattern, cleaned, 1) {
        Some(n) => n,
        None => match captured_number(pattern, cleaned, 2) {
            Some(n) => n,
            None => match captured_number(pattern, cleaned, 3) {
                Some(n) => n,
                None => 0,
            },
        },
    }
}

proof fn lemma_first_marker_bounds(ts: Seq<Seq<char>>, season: bool, episode: bool)
    ensures
        first_marker(ts, season, episode) matches Some(i) ==> 0 <= i < ts.len(),
    decreases ts.len(),
{
    if ts.len() > 0 {
        lemma_first_marker_bounds(ts.drop_first(), season, episode);
    }
}

proof fn lemma_digit_value_nonneg(ds: Seq<char>)
    requires
        all_ascii_digits(ds),
    ensures
        digit_value(ds) >= 0,
    decreases ds.len(),
{
    if ds.len() > 0 {
        assert(all_ascii_digits(ds.drop_last())) by {
            assert forall|k: int| 0 <= k < ds.drop_last().len() implies is_ascii_digit(
                #[trigger] ds.drop_last()[k],
            ) by {
                assert(ds.drop_last()[k] == ds[k]);
            }
        }
        lemma_digit_value_nonneg(ds.drop_last());
        assert(is_ascii_digit(ds[ds.len() - 1]));
    }
}

/// Where the first season marker is `S` and decimal digits and a later
/// first episode marker is `E` and decimal digits, the season is the first
/// number and the episode the second.
pub proof fn marker_numbers(s: Seq<char>, i: int, j: int, season: Seq<char>, episode: Seq<char>)
    requires
        first_marker(words(s), true, false) == Some(i),
        first_marker(words(s), false, true) == Some(j),
        0 <= i < j < words(s).len(),
        words(s)[i] == seq!['S'] + season,
        words(s)[j] == seq!['E'] + episode,
        season.len() > 0,
        episode.len() > 0,
        all_ascii_digits(season),
        all_ascii_digits(episode),
        digit_value(season) <= u32::MAX,
        digit_value(episode) <= u32::MAX,
    ensures
        season_number(s) == digit_value(season),
        episode_number(s) == digit_value(episode),
{
    lemma_first_marker_bounds(words(s), true, false);
    lemma_first_marker_bounds(words(s), false, true);
    lemma_digit_value_nonneg(season);
    lemma_digit_value_nonneg(episode);
    assert((seq!['S'] + season).drop_first() =~= season);
    assert((seq!['E'] + episode).drop_first() =~= episode);
    assert('0' <= season[0] <= '9');
    assert('0' <= episode[0] <= '9');
    assert(parse_u32(season) == Some(digit_value(season) as u32));
    assert(parse_u32(episode) == Some(digit_value(episode) as u32));
}

} // verus!
