use vstd::prelude::*;
use crate::text::{chars_of, string_of};

verus! {

/// The kind of media that a lookup found.
#[derive(Debug, Clone, Copy, PartialEq, Eq, Structural)]
pub enum MediaType {
    Series,
    Movie,
}

impl MediaType {
    /// The tag that names this kind: `series` or `movie`.
    pub fn tag(&self) -> (r: &'static str)
        ensures
            r@ == (match self {
                MediaType::Series => "series"@,
                MediaType::Movie => "movie"@,
            }),
    {
        match self {
            MediaType::Series => "series",
            MediaType::Movie => "movie",
        }
    }
}

/// A title found for a media file by a lookup.
#[derive(Debug, Clone)]
pub struct MediaResult {
    pub title: String,
    pub year: String,
    pub media_type: MediaType,
    pub is_duplicate: bool,
    pub accuracy: i64,
}

/// `<title> (<year>)`.
pub open spec fn title_with_year(title: Seq<char>, year: Seq<char>) -> Seq<char> {
    title + seq![' ', '('] + year + seq![')']
}

impl MediaResult {
    pub fn new(title: String, year: String, media_type: MediaType, is_duplicate: bool, accuracy: i64) -> (r: MediaResult)
        ensures
            r.title == title,
            r.year == year,
            r.media_type == media_type,
            r.is_duplicate == is_duplicate,
            r.accuracy == accuracy,
    {
        MediaResult { title, year, media_type, is_duplicate, accuracy }
    }

    /// The title followed by the year in parentheses.
    pub fn string(&self) -> (r: String)
        ensures
            r@ == title_with_year(self.title@, self.year@),
    {
        let mut out = chars_of(self.title.as_str());
        out.push(' ');
        out.push('(');
        let year = chars_of(self.year.as_str());
        let mut k: usize = 0;
        let ghost start = out@;
        while k < year.len()
            invariant
                k <= year.len(),
                out@ == start + year@.take(k as int),
            decreases year.len() - k,
        {
            out.push(year[k]);
            k = k + 1;
            assert(out@ =~= start + year@.take(k as int));
        }
        out.push(')');
        assert(year@.take(year.len() as int) =~= year@);
        assert(out@ =~= title_with_year(self.title@, self.year@));
        string_of(&out)
    }
}

} // verus!
