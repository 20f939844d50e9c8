use vstd::prelude::*;
use crate::text::{
    chars_of, string_of, split_words, join_words, matches_at, collapse, occurs_at, words, contains,
    all_chars, lemma_words_shape, lemma_join_chars, lemma_collapse_idempotent,
};

verus! {

/// The characters that separate the words of a release name.
pub open spec fn is_separator(c: char) -> bool {
    c == '.' || c == '_' || c == '-' || c == '+'
}

/// `s` with every separator made a space.
pub open spec fn spaced(s: Seq<char>) -> Seq<char> {
    Seq::new(s.len(), |i: int| if is_separator(s[i]) { ' ' } else { s[i] })
}

/// The index of the first `close` at or after `j`, unless a line break comes
/// before it.
pub open spec fn closing_at(s: Seq<char>, close: char, j: int) -> Option<int>
    decreases s.len() - j,
{
    if j < 0 || j >= s.len() {
        None
    } else if s[j] == close {
        Some(j)
    } else if s[j] == '\n' {
        None
    } else {
        closing_at(s, close, j + 1)
    }
}

/// `s` without every group that runs from `open` to the nearest `close` on
/// the same line, taken from left to right.
pub open spec fn strip_enclosed(s: Seq<char>, open: char, close: char) -> Seq<char>
    decreases s.len(),
{
    if s.len() == 0 {
        s
    } else if s[0] == open && closing_at(s, close, 1) is Some && 0 <= closing_at(s, close, 1)->0
        < s.len() {
        strip_enclosed(s.skip(closing_at(s, close, 1)->0 + 1), open, close)
    } else {
        seq![s[0]] + strip_enclosed(s.drop_first(), open, close)
    }
}

/// Relies on `regex::Regex::new` and `Regex::replace_all` with an empty
/// replacement: the pattern `<open>.*?<close>` (each character written as a
/// `\x{..}` escape, so that it always compiles) is matched leftmost first,
/// lazily, `.` stopping at a line break, and the matches, which do not
/// overlap, are removed.
#[verifier::external_body]
fn erase_enclosed(s: &str, open: char, close: char) -> (r: String)
    requires
        open != '\n',
        close != '\n',
    ensures
        r@ == strip_enclosed(s@, open, close),
{
    let pattern = format!("\\x{{{:x}}}.*?\\x{{{:x}}}", open as u32, close as u32);
    regex::Regex::new(&pattern).unwrap().replace_all(s, "").into_owned()
}

/// `s` without the occurrences of `p`, found from left to right without
/// overlap, as `str::replace(p, "")` leaves it.
pub open spec fn remove_all(s: Seq<char>, p: Seq<char>) -> Seq<char>
    decreases s.len(),
{
    if s.len() == 0 {
        s
    } else if p.len() > 0 && occurs_at(s, 0, p) {
        remove_all(s.skip(p.len() as int), p)
    } else {
        seq![s[0]] + remove_all(s.drop_first(), p)
    }
}

/// `s` after the removal of each pattern of `ps` in turn.
pub open spec fn remove_each(s: Seq<char>, ps: Seq<Seq<char>>) -> Seq<char>
    decreases ps.len(),
{
    if ps.len() == 0 {
        s
    } else {
        remove_all(remove_each(s, ps.drop_last()), ps.last())
    }
}

/// Release tags, sources, qualities, containers and site names that say
/// nothing of the title.
pub open spec fn noise_words() -> Seq<Seq<char>> {
    seq![
        "www"@, "com"@, "org"@, "info"@, "mkv"@, "mp4"@, "avi"@, "wmv"@,
        "flv"@, "mov"@, "webm"@, "720p"@, "1080p"@, "x264"@, "x265"@, "HEVC"@,
        "MULTI"@, "AAC"@, "HD"@, "FRENCH"@, "VOSTFR"@, "VOSTA"@, "VF"@, "VO"@,
        "DL"@, "WEBRip"@, "WEB-DL"@, "WEB"@, "WEBRIP"@, "Rip"@, "RIP"@, "BluRay"@, "Blu-Ray"@,
        "Blu-ray"@, "WEB"@, "Film"@, "Movie"@, "TsundereRaws"@, "Tsundere"@, "Raws"@, "ws"@,
        "tv"@, "TV"@, "vostfree"@, "boats"@, "uno"@, "Wawacity"@, "wawacity"@, "H264"@,
        "NanDesuKa"@, "FANSUB"@
    ]
}

/// The cleaned form of a file name: separators made spaces, bracketed and
/// parenthesised groups removed, noise words removed, whitespace collapsed.
pub open spec fn cleaned(s: Seq<char>) -> Seq<char> {
    collapse(
        remove_each(
            strip_enclosed(strip_enclosed(spaced(s), '[', ']'), '(', ')'),
            noise_words(),
        ),
    )
}

fn replace_separators(s: &Vec<char>) -> (r: Vec<char>)
    ensures
        r@ == spaced(s@),
{
    let mut out: Vec<char> = Vec::new();
    let mut i: usize = 0;
    while i < s.len()
        invariant
            i <= s.len(),
            out@ == spaced(s@).take(i as int),
        decreases s.len() - i,
    {
        let c = s[i];
        if c == '.' || c == '_' || c == '-' || c == '+' {
            out.push(' ');
        } else {
            out.push(c);
        }
        i = i + 1;
        assert(out@ =~= spaced(s@).take(i as int));
    }
    assert(spaced(s@).take(s.len() as int) =~= spaced(s@));
    out
}

/// Removes every occurrence of `p` from `s`, left to right.
pub fn remove_pattern(s: &Vec<char>, p: &Vec<char>) -> (r: Vec<char>)
    ensures
        r@ == remove_all(s@, p@),
{
    let n = s.len();
    let mut out: Vec<char> = Vec::new();
    let mut i: usize = 0;
    assert(s@.subrange(0, n as int) =~= s@);
    while i < n
        invariant
            i <= n == s.len(),
            out@ + remove_all(s@.subrange(i as int, n as int), p@) == remove_all(s@, p@),
        decreases n - i,
    {
        let ghost rest = s@.subrange(i as int, n as int);
        if p.len() > 0 && matches_at(s, i, p) {
            assert(rest.subrange(0, p@.len() as int) =~= s@.subrange(i as int, i + p@.len()));
            assert(rest.skip(p@.len() as int) =~= s@.subrange(i + p@.len(), n as int));
            i = i + p.len();
        } else {
            if p.len() > 0 {
                assert(occurs_at(rest, 0, p@) ==> rest.subrange(0, p@.len() as int)
                    =~= s@.subrange(i as int, i + p@.len()));
            }
            assert(rest.drop_first() =~= s@.subrange(i + 1, n as int));
            let ghost before = out@;
            out.push(s[i]);
            assert(before + (seq![rest[0]] + remove_all(rest.drop_first(), p@)) =~= out@
                + remove_all(rest.drop_first(), p@));
            i = i + 1;
        }
    }
    assert(out@ + remove_all(s@.subrange(n as int, n as int), p@) =~= out@);
    out
}

/// Reduces a file name to the words that may name a series or a movie.
pub fn clean_filename(filename: &str) -> (r: String)
    ensures
        r@ == cleaned(filename@),
{
    let spaced_name = string_of(&replace_separators(&chars_of(filename)));
    let no_brackets = erase_enclosed(spaced_name.as_str(), '[', ']');
    let no_groups = erase_enclosed(no_brackets.as_str(), '(', ')');
    let patterns: Vec<&str> = vec![
        "www", "com", "org", "info", "mkv", "mp4", "avi", "wmv",
        "flv", "mov", "webm", "720p", "1080p", "x264", "x265", "HEVC",
        "MULTI", "AAC", "HD", "FRENCH", "VOSTFR", "VOSTA", "VF", "VO",
        "DL", "WEBRip", "WEB-DL", "WEB", "WEBRIP", "Rip", "RIP", "BluRay", "Blu-Ray",
        "Blu-ray", "WEB", "Film", "Movie", "TsundereRaws", "Tsundere", "Raws", "ws",
        "tv", "TV", "vostfree", "boats", "uno", "Wawacity", "wawacity", "H264",
        "NanDesuKa", "FANSUB",
    ];
    let ghost ps = noise_words();
    assert(patterns.len() == ps.len());
    assert(forall|k: int| 0 <= k < ps.len() ==> #[trigger] patterns@[k]@ == ps[k]);
    let mut current = chars_of(no_groups.as_str());
    let mut k: usize = 0;
    assert(ps.take(0) =~= Seq::<Seq<char>>::empty());
    while k < patterns.len()
        invariant
            k <= patterns.len() == ps.len(),
            ps == noise_words(),
            forall|m: int| 0 <= m < ps.len() ==> #[trigger] patterns@[m]@ == ps[m],
            current@ == remove_each(no_groups@, ps.take(k as int)),
        decreases patterns.len() - k,
    {
        let p = chars_of(patterns[k]);
        current = remove_pattern(&current, &p);
        assert(ps.take(k + 1).drop_last() =~= ps.take(k as int));
        k = k + 1;
    }
    assert(ps.take(ps.len() as int) =~= ps);
    let ws = split_words(&current);
    let joined = join_words(&ws, ws.len());
    assert(ws.deep_view().take(ws.len() as int) =~= words(current@));
    string_of(&joined)
}

proof fn lemma_strip_keeps(s: Seq<char>, open: char, close: char, f: spec_fn(char) -> bool)
    requires
        all_chars(s, f),
    ensures
        all_chars(strip_enclosed(s, open, close), f),
    decreases s.len(),
{
    if s.len() > 0 {
        if s[0] == open && closing_at(s, close, 1) is Some && 0 <= closing_at(s, close, 1)->0
            < s.len() {
            let rest = s.skip(closing_at(s, close, 1)->0 + 1);
            assert(all_chars(rest, f)) by {
                assert forall|i: int| 0 <= i < rest.len() implies f(#[trigger] rest[i]) by {
                    assert(rest[i] == s[i + closing_at(s, close, 1)->0 + 1]);
                }
            }
            lemma_strip_keeps(rest, open, close, f);
        } else {
            let rest = s.drop_first();
            assert(all_chars(rest, f)) by {
                assert forall|i: int| 0 <= i < rest.len() implies f(#[trigger] rest[i]) by {
                    assert(rest[i] == s[i + 1]);
                }
            }
            lemma_strip_keeps(rest, open, close, f);
            let r = seq![s[0]] + strip_enclosed(rest, open, close);
            assert forall|i: int| 0 <= i < r.len() implies f(#[trigger] r[i]) by {
                if i > 0 {
                    assert(r[i] == strip_enclosed(rest, open, close)[i - 1]);
                }
            }
        }
    }
}

proof fn lemma_remove_keeps(s: Seq<char>, p: Seq<char>, f: spec_fn(char) -> bool)
    requires
        all_chars(s, f),
    ensures
        all_chars(remove_all(s, p), f),
    decreases s.len(),
{
    if s.len() > 0 {
        if p.len() > 0 && occurs_at(s, 0, p) {
            let rest = s.skip(p.len() as int);
            assert(all_chars(rest, f)) by {
                assert forall|i: int| 0 <= i < rest.len() implies f(#[trigger] rest[i]) by {
                    assert(rest[i] == s[i + p.len()]);
                }
            }
            lemma_remove_keeps(rest, p, f);
        } else {
            let rest = s.drop_first();
            assert(all_chars(rest, f)) by {
                assert forall|i: int| 0 <= i < rest.len() implies f(#[trigger] rest[i]) by {
                    assert(rest[i] == s[i + 1]);
                }
            }
            lemma_remove_keeps(rest, p, f);
            let r = seq![s[0]] + remove_all(rest, p);
            assert forall|i: int| 0 <= i < r.len() implies f(#[trigger] r[i]) by {
                if i > 0 {
                    assert(r[i] == remove_all(rest, p)[i - 1]);
                }
            }
        }
    }
}

proof fn lemma_remove_each_keeps(s: Seq<char>, ps: Seq<Seq<char>>, f: spec_fn(char) -> bool)
    requires
        all_chars(s, f),
    ensures
        all_chars(remove_each(s, ps), f),
    decreases ps.len(),
{
    if ps.len() > 0 {
        lemma_remove_each_keeps(s, ps.drop_last(), f);
        lemma_remove_keeps(remove_each(s, ps.drop_last()), ps.last(), f);
    }
}

proof fn lemma_remove_absent(s: Seq<char>, p: Seq<char>)
    requires
        !contains(s, p),
    ensures
        remove_all(s, p) == s,
    decreases s.len(),
{
    if s.len() > 0 {
        let rest = s.drop_first();
        assert(!occurs_at(s, 0, p));
        assert(!contains(rest, p)) by {
            assert forall|j: int| !occurs_at(rest, j, p) by {
                if occurs_at(rest, j, p) {
                    assert(s.subrange(j + 1, j + 1 + p.len()) =~= rest.subrange(j, j + p.len()));
                    assert(occurs_at(s, j + 1, p));
                }
            }
        }
        lemma_remove_absent(rest, p);
        assert(seq![s[0]] + rest =~= s);
    }
}

proof fn lemma_remove_each_absent(s: Seq<char>, ps: Seq<Seq<char>>)
    requires
        forall|k: int| 0 <= k < ps.len() ==> !contains(s, #[trigger] ps[k]),
    ensures
        remove_each(s, ps) == s,
    decreases ps.len(),
{
    if ps.len() > 0 {
        let init = ps.drop_last();
        assert forall|k: int| 0 <= k < init.len() implies !contains(s, #[trigger] init[k]) by {
            assert(init[k] == ps[k]);
        }
        lemma_remove_each_absent(s, init);
        assert(!contains(s, ps[ps.len() - 1]));
        lemma_remove_absent(s, ps.last());
    }
}

/// Cleaning is idempotent: a cleaned name in which the bracket rules find no
/// group to remove and no noise word occurs is its own cleaned form.
pub proof fn clean_is_idempotent(x: Seq<char>)
    requires
        strip_enclosed(cleaned(x), '[', ']') == cleaned(x),
        strip_enclosed(cleaned(x), '(', ')') == cleaned(x),
        forall|k: int| 0 <= k < noise_words().len() ==> !contains(cleaned(x), #[trigger] noise_words()[k]),
    ensures
        cleaned(cleaned(x)) == cleaned(x),
{
    let f = |c: char| !is_separator(c);
    let c = cleaned(x);
    let sp = spaced(x);
    assert(all_chars(sp, f));
    let a = strip_enclosed(sp, '[', ']');
    lemma_strip_keeps(sp, '[', ']', f);
    let b = strip_enclosed(a, '(', ')');
    lemma_strip_keeps(a, '(', ')', f);
    let y = remove_each(b, noise_words());
    lemma_remove_each_keeps(b, noise_words(), f);
    lemma_words_shape(y, f);
    lemma_join_chars(words(y), f);
    assert(all_chars(c, f));
    assert(spaced(c) =~= c);
    lemma_remove_each_absent(c, noise_words());
    lemma_collapse_idempotent(y);
}

} // verus!
