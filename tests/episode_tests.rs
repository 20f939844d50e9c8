use media_episode::clean::clean_filename;
use media_episode::episode::{
    extract_extension, fetch_infos, file_name, is_movie, needs_probe, Episode, EpisodeError,
    ProbeReport,
};
use media_episode::extract::{extract_episode, extract_season, extract_series_name};
use media_episode::result::{MediaResult, MediaType};

fn build(path: &str, probe: ProbeReport) -> Result<Episode, EpisodeError> {
    let draft = fetch_infos(path)?;
    Episode::new(draft, probe)
}

#[test]
fn cleans_release_name() {
    assert_eq!(clean_filename("Show.Name.S02E05.720p.WEB-DL.x264.mkv"), "Show Name S02E05");
}

#[test]
fn cleans_bracketed_groups() {
    assert_eq!(clean_filename("[Group] Show (2019) - 03.mkv"), "Show 03");
}

#[test]
fn removes_noise_inside_words() {
    assert_eq!(clean_filename("MyHDShow_x265.avi"), "MyShow");
}

#[test]
fn unclosed_bracket_is_kept() {
    assert_eq!(clean_filename("Show [part"), "Show [part");
}

#[test]
fn cleaning_twice_changes_nothing() {
    for name in ["Show.Name.S02E05.720p.WEB-DL.x264.mkv", "[Group] Show (2019) - 03.mkv", "RandomFile.mkv"] {
        let once = clean_filename(name);
        assert_eq!(clean_filename(&once), once);
    }
}

#[test]
fn case_a_show_with_combined_tag() {
    let draft = fetch_infos("Show.Name.S02E05.720p.WEB-DL.x264.mkv").unwrap();
    assert_eq!(draft.filename_clean, "Show Name S02E05");
    assert_eq!(draft.name, "Show Name");
    assert_eq!(draft.season, 2);
    assert_eq!(draft.episode, 5);
    assert_eq!(draft.extension, "mkv");
    assert!(draft.probe_needed());
    let short = Episode::new(draft.clone(), ProbeReport::Measured { long: false }).unwrap();
    assert!(!short.is_movie);
    let long = Episode::new(draft.clone(), ProbeReport::Measured { long: true }).unwrap();
    assert!(long.is_movie);
    assert_eq!(Episode::new(draft, ProbeReport::Failed).unwrap_err(), EpisodeError::ProbeFailure);
}

#[test]
fn case_b_movie_keyword() {
    let draft = fetch_infos("Big.Movie.Film.2020.mkv").unwrap();
    assert!(!draft.probe_needed());
    assert_eq!(draft.name, "Big");
    let ep = Episode::new(draft, ProbeReport::NotRun).unwrap();
    assert!(ep.is_movie);
}

#[test]
fn case_c_no_markers() {
    let draft = fetch_infos("RandomFile.mkv").unwrap();
    assert_eq!(draft.name, "RandomFile");
    assert_eq!(draft.season, 0);
    assert_eq!(draft.episode, 0);
    assert!(!draft.probe_needed());
    let ep = Episode::new(draft, ProbeReport::Failed).unwrap();
    assert!(ep.is_movie);
}

#[test]
fn keyword_wins_over_markers() {
    let ep = build("Show.Movie.S01E02.mkv", ProbeReport::Measured { long: false }).unwrap();
    assert!(ep.is_movie);
    assert_eq!(ep.season, 1);
    assert_eq!(ep.episode, 2);
}

#[test]
fn markerless_ignores_probe() {
    for probe in [ProbeReport::NotRun, ProbeReport::Failed, ProbeReport::Measured { long: false }] {
        assert_eq!(is_movie("RandomFile.mkv", 0, 0, probe), Ok(true));
    }
}

#[test]
fn separate_markers() {
    let ep = build("/media/tv/Show.Name.S01.E02.mkv", ProbeReport::Measured { long: false }).unwrap();
    assert_eq!(ep.full_path, "/media/tv/Show.Name.S01.E02.mkv");
    assert_eq!(ep.filename, "Show.Name.S01.E02.mkv");
    assert_eq!(ep.name, "Show Name");
    assert_eq!(ep.season, 1);
    assert_eq!(ep.episode, 2);
    assert!(!ep.is_movie);
}

#[test]
fn season_then_episode_tokens() {
    assert_eq!(extract_season("Show S3 E12"), 3);
    assert_eq!(extract_episode("Show S3 E12"), 12);
    assert_eq!(extract_series_name("Show S3 E12"), Some("Show".to_string()));
}

#[test]
fn first_marker_decides() {
    assert_eq!(extract_season("Show S1 S2 E3"), 1);
    assert_eq!(extract_series_name("My Show E4 S1"), Some("My Show".to_string()));
}

#[test]
fn season_default_on_unparsable_pattern_match() {
    assert_eq!(extract_season("Show xS\u{663}"), 1);
}

#[test]
fn season_default_on_overflow() {
    assert_eq!(extract_season("Show S99999999999"), 1);
}

#[test]
fn numeric_marker_beyond_ascii() {
    assert_eq!(extract_season("Show S\u{b2}"), 1);
    assert_eq!(extract_episode("Show E\u{b2}"), 1);
}

#[test]
fn no_season_anywhere() {
    assert_eq!(extract_season("Show 03"), 0);
    assert_eq!(extract_episode("Show 03"), 3);
    assert_eq!(extract_episode("Show"), 0);
}

#[test]
fn episode_from_bare_tag() {
    assert_eq!(extract_episode("ShowE07x"), 7);
    assert_eq!(extract_series_name("ShowE07x"), Some("Show".to_string()));
}

#[test]
fn name_from_season_and_number() {
    assert_eq!(extract_series_name("Show S2 05x"), Some("Show".to_string()));
}

#[test]
fn name_not_found_on_empty_clean_name() {
    assert_eq!(extract_series_name(""), None);
    assert_eq!(fetch_infos("dir/mkv.mkv").unwrap_err(), EpisodeError::NameNotFound);
}

#[test]
fn missing_extension() {
    assert_eq!(fetch_infos("dir/Show.S01E02").map(|d| d.name), Ok("Show".to_string()));
    assert_eq!(fetch_infos("dir/Show S01E02").unwrap_err(), EpisodeError::MissingExtension);
    assert_eq!(extract_extension(".hidden"), None);
    assert_eq!(extract_extension("a.tar.gz"), Some("gz".to_string()));
    assert_eq!(extract_extension("a."), Some(String::new()));
}

#[test]
fn missing_file_name() {
    assert_eq!(fetch_infos("").unwrap_err(), EpisodeError::MissingFileName);
    assert_eq!(fetch_infos("dir/..").unwrap_err(), EpisodeError::MissingFileName);
    assert_eq!(fetch_infos("/").unwrap_err(), EpisodeError::MissingFileName);
}

#[test]
fn file_name_of_paths() {
    assert_eq!(file_name("/a/b/Show.mkv"), Some("Show.mkv".to_string()));
    assert_eq!(file_name("a/b/"), Some("b".to_string()));
    assert_eq!(file_name("a/b/."), Some("b".to_string()));
    assert_eq!(file_name("."), None);
}

#[test]
fn probe_need() {
    assert!(needs_probe("Show.S01E02.mkv", 1, 2));
    assert!(!needs_probe("Show.S01E02.Film.mkv", 1, 2));
    assert!(!needs_probe("Show.mkv", 0, 0));
    assert!(needs_probe("Show.mkv", 0, 1));
    assert_eq!(is_movie("Show.S01E02.mkv", 1, 2, ProbeReport::NotRun), Err(EpisodeError::ProbeFailure));
}

#[test]
fn media_result_display() {
    let r = MediaResult::new("Title".to_string(), "2020".to_string(), MediaType::Movie, false, 87);
    assert_eq!(r.string(), "Title (2020)");
    assert_eq!(r.accuracy, 87);
    assert!(!r.is_duplicate);
    assert_eq!(r.media_type.tag(), "movie");
    assert_eq!(MediaType::Series.tag(), "series");
}
