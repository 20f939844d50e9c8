use vstd::prelude::*;

verus! {

/// Unicode `White_Space` characters, as `char::is_whitespace` recognises them.
pub open spec fn is_white(c: char) -> bool {
    ('\u{9}' <= c && c <= '\u{d}') || c == ' ' || c == '\u{85}' || c == '\u{a0}'
        || c == '\u{1680}' || ('\u{2000}' <= c && c <= '\u{200a}') || c == '\u{2028}'
        || c == '\u{2029}' || c == '\u{202f}' || c == '\u{205f}' || c == '\u{3000}'
}

pub fn white(c: char) -> (r: bool)
    ensures
        r == is_white(c),
{
    ('\u{9}' <= c && c <= '\u{d}') || c == ' ' || c == '\u{85}' || c == '\u{a0}'
        || c == '\u{1680}' || ('\u{2000}' <= c && c <= '\u{200a}') || c == '\u{2028}'
        || c == '\u{2029}' || c == '\u{202f}' || c == '\u{205f}' || c == '\u{3000}'
}

/// Relies on `str::chars`: the characters of a string, in order.
#[verifier::external_body]
pub fn chars_of(s: &str) -> (r: Vec<char>)
    ensures
        r@ == s@,
{
    s.chars().collect()
}

/// Relies on `FromIterator<char> for String`: the string of these characters.
#[verifier::external_body]
pub fn string_of(v: &Vec<char>) -> (r: String)
    ensures
        r@ == v@,
{
    v.iter().collect()
}

/// The whitespace-separated words of `s`; `cur` is the word read so far.
pub open spec fn words_from(s: Seq<char>, cur: Seq<char>) -> Seq<Seq<char>>
    decreases s.len(),
{
    if s.len() == 0 {
        if cur.len() == 0 {
            seq![]
        } else {
            seq![cur]
        }
    } else if is_white(s[0]) {
        if cur.len() == 0 {
            words_from(s.drop_first(), seq![])
        } else {
            seq![cur] + words_from(s.drop_first(), seq![])
        }
    } else {
        words_from(s.drop_first(), cur.push(s[0]))
    }
}

/// The words of `s`, as `str::split_whitespace` yields them.
pub open spec fn words(s: Seq<char>) -> Seq<Seq<char>> {
    words_from(s, seq![])
}

/// The words joined by single spaces.
pub open spec fn join(ws: Seq<Seq<char>>) -> Seq<char>
    decreases ws.len(),
{
    if ws.len() == 0 {
        seq![]
    } else if ws.len() == 1 {
        ws[0]
    } else {
        join(ws.drop_last()) + seq![' '] + ws.last()
    }
}

/// `s` with its whitespace runs made single spaces and its ends trimmed.
pub open spec fn collapse(s: Seq<char>) -> Seq<char> {
    join(words(s))
}

pub open spec fn trim_start(s: Seq<char>) -> Seq<char>
    decreases s.len(),
{
    if s.len() > 0 && is_white(s[0]) {
        trim_start(s.drop_first())
    } else {
        s
    }
}

pub open spec fn trim_end(s: Seq<char>) -> Seq<char>
    decreases s.len(),
{
    if s.len() > 0 && is_white(s.last()) {
        trim_end(s.drop_last())
    } else {
        s
    }
}

/// `s` without leading and trailing whitespace, as `str::trim` gives it.
pub open spec fn trim(s: Seq<char>) -> Seq<char> {
    trim_end(trim_start(s))
}

/// Splits `s` into its whitespace-separated words.
pub fn split_words(s: &Vec<char>) -> (r: Vec<Vec<char>>)
    ensures
        r.deep_view() == words(s@),
{
    let mut out: Vec<Vec<char>> = Vec::new();
    let mut cur: Vec<char> = Vec::new();
    let mut i: usize = 0;
    assert(s@.subrange(0, s@.len() as int) =~= s@);
    while i < s.len()
        invariant
            i <= s.len(),
            out.deep_view() + words_from(s@.subrange(i as int, s@.len() as int), cur@) == words(s@),
        decreases s.len() - i,
    {
        let ghost rest = s@.subrange(i as int, s@.len() as int);
        assert(rest.drop_first() =~= s@.subrange(i + 1, s@.len() as int));
        let c = s[i];
        if white(c) {
            if cur.len() > 0 {
                let ghost before = out.deep_view();
                let ghost w = cur@;
                let done = cur;
                assert(done.deep_view() =~= w);
                out.push(done);
                cur = Vec::new();
                assert(out.deep_view() =~= before.push(w));
                assert(before + (seq![w] + words_from(s@.subrange(i + 1, s@.len() as int), seq![]))
                    =~= before.push(w) + words_from(s@.subrange(i + 1, s@.len() as int), seq![]));
            }
            assert(cur@ =~= Seq::<char>::empty());
        } else {
            cur.push(c);
        }
        i = i + 1;
    }
    assert(s@.subrange(s@.len() as int, s@.len() as int) =~= Seq::<char>::empty());
    if cur.len() > 0 {
        let ghost before = out.deep_view();
        let ghost w = cur@;
        assert(cur.deep_view() =~= w);
        out.push(cur);
        assert(out.deep_view() =~= before.push(w));
        assert(before + seq![w] =~= before.push(w));
    } else {
        assert(out.deep_view() + Seq::<Seq<char>>::empty() =~= out.deep_view());
    }
    out
}

/// Joins the first `n` words with single spaces.
pub fn join_words(ws: &Vec<Vec<char>>, n: usize) -> (r: Vec<char>)
    requires
        n <= ws.len(),
    ensures
        r@ == join(ws.deep_view().take(n as int)),
{
    let ghost dv = ws.deep_view();
    let mut out: Vec<char> = Vec::new();
    let mut k: usize = 0;
    assert(dv.take(0) =~= Seq::<Seq<char>>::empty());
    while k < n
        invariant
            k <= n <= ws.len(),
            dv == ws.deep_view(),
            out@ == join(dv.take(k as int)),
        decreases n - k,
    {
        let ghost prev = out@;
        if k > 0 {
            out.push(' ');
        }
        let w = &ws[k];
        assert(w@ =~= dv[k as int]);
        let mut j: usize = 0;
        let ghost mid = out@;
        while j < w.len()
            invariant
                j <= w.len(),
                out@ == mid + w@.take(j as int),
            decreases w.len() - j,
        {
            out.push(w[j]);
            j = j + 1;
            assert(out@ =~= mid + w@.take(j as int));
        }
        assert(w@.take(w.len() as int) =~= w@);
        assert(dv.take(k + 1).drop_last() =~= dv.take(k as int));
        if k == 0 {
            assert(mid =~= Seq::<char>::empty());
            assert(out@ =~= dv.take(1)[0]);
        } else {
            assert(out@ =~= prev + seq![' '] + dv.take(k + 1).last());
        }
        k = k + 1;
    }
    out
}

/// Returns `s` without its leading and trailing whitespace.
pub fn trim_chars(s: &Vec<char>) -> (r: Vec<char>)
    ensures
        r@ == trim(s@),
{
    let n = s.len();
    let mut a: usize = 0;
    assert(s@.subrange(0, n as int) =~= s@);
    while a < n && white(s[a])
        invariant
            a <= n == s.len(),
            trim_start(s@) == trim_start(s@.subrange(a as int, n as int)),
        decreases n - a,
    {
        assert(s@.subrange(a as int, n as int).drop_first() =~= s@.subrange(a + 1, n as int));
        a = a + 1;
    }
    let mut b: usize = n;
    while b > a && white(s[b - 1])
        invariant
            a <= b <= n == s.len(),
            trim_start(s@) == s@.subrange(a as int, n as int),
            trim(s@) == trim_end(s@.subrange(a as int, b as int)),
        decreases b,
    {
        assert(s@.subrange(a as int, b as int).drop_last() =~= s@.subrange(a as int, b - 1));
        b = b - 1;
    }
    let mut out: Vec<char> = Vec::new();
    let mut k: usize = a;
    while k < b
        invariant
            a <= k <= b <= n == s.len(),
            out@ == s@.subrange(a as int, k as int),
        decreases b - k,
    {
        out.push(s[k]);
        k = k + 1;
        assert(out@ =~= s@.subrange(a as int, k as int));
    }
    out
}

/// Whether `p` occurs in `s` at position `i`.
pub open spec fn occurs_at(s: Seq<char>, i: int, p: Seq<char>) -> bool {
    0 <= i && i + p.len() <= s.len() && s.subrange(i, i + p.len()) == p
}

/// Whether `p` occurs anywhere in `s`.
pub open spec fn contains(s: Seq<char>, p: Seq<char>) -> bool {
    exists|i: int| occurs_at(s, i, p)
}

pub fn matches_at(s: &Vec<char>, i: usize, p: &Vec<char>) -> (r: bool)
    ensures
        r == occurs_at(s@, i as int, p@),
{
    if i > s.len() || p.len() > s.len() - i {
        return false;
    }
    let mut k: usize = 0;
    while k < p.len()
        invariant
            k <= p.len(),
            i + p.len() <= s.len(),
            s@.subrange(i as int, i + k) == p@.take(k as int),
        decreases p.len() - k,
    {
        if s[i + k] != p[k] {
            assert(s@.subrange(i as int, i + p.len())[k as int] != p@[k as int]);
            return false;
        }
        k = k + 1;
        assert(s@.subrange(i as int, i + k) =~= p@.take(k as int));
    }
    assert(p@.take(p.len() as int) =~= p@);
    true
}

pub fn contains_chars(s: &Vec<char>, p: &Vec<char>) -> (r: bool)
    ensures
        r == contains(s@, p@),
{
    let mut i: usize = 0;
    while i < s.len()
        invariant
            i <= s.len(),
            forall|j: int| 0 <= j < i ==> !occurs_at(s@, j, p@),
        decreases s.len() + 1 - i,
    {
        if matches_at(s, i, p) {
            return true;
        }
        i = i + 1;
    }
    matches_at(s, i, p)
}

/// The decimal value of a run of ASCII digits.
pub open spec fn digit_value(ds: Seq<char>) -> int
    decreases ds.len(),
{
    if ds.len() == 0 {
        0
    } else {
        digit_value(ds.drop_last()) * 10 + (ds.last() as int - '0' as int)
    }
}

pub open spec fn is_ascii_digit(c: char) -> bool {
    '0' <= c && c <= '9'
}

pub open spec fn all_ascii_digits(ds: Seq<char>) -> bool {
    forall|i: int| 0 <= i < ds.len() ==> is_ascii_digit(#[trigger] ds[i])
}

/// What `str::parse::<u32>` gives: an optional `+`, then one or more ASCII
/// digits whose value fits in a `u32`.
pub open spec fn parse_u32(s: Seq<char>) -> Option<u32> {
    let ds = if s.len() > 0 && s[0] == '+' {
        s.drop_first()
    } else {
        s
    };
    if ds.len() > 0 && all_ascii_digits(ds) && digit_value(ds) <= u32::MAX {
        Some(digit_value(ds) as u32)
    } else {
        None
    }
}

/// The number that `s` spells, or `default` where it spells none.
pub open spec fn parse_or(s: Seq<char>, default: u32) -> u32 {
    match parse_u32(s) {
        Some(v) => v,
        None => default,
    }
}

pub fn parse_u32_or(s: &Vec<char>, default: u32) -> (r: u32)
    ensures
        r == parse_or(s@, default),
{
    let start: usize = if s.len() > 0 && s[0] == '+' { 1 } else { 0 };
    let ghost ds = if s@.len() > 0 && s@[0] == '+' { s@.drop_first() } else { s@ };
    assert(ds =~= s@.subrange(start as int, s@.len() as int));
    if start >= s.len() {
        return default;
    }
    let mut acc: u64 = 0;
    let mut over = false;
    let mut k: usize = start;
    while k < s.len()
        invariant
            start <= k <= s.len(),
            ds == s@.subrange(start as int, s@.len() as int),
            ds == (if s@.len() > 0 && s@[0] == '+' { s@.drop_first() } else { s@ }),
            all_ascii_digits(ds.take(k - start)),
            !over ==> acc as int == digit_value(ds.take(k - start)) && acc <= u32::MAX,
            over ==> digit_value(ds.take(k - start)) > u32::MAX,
        decreases s.len() - k,
    {
        let c = s[k];
        if !('0' <= c && c <= '9') {
            assert(!is_ascii_digit(ds[k - start]));
            assert(!all_ascii_digits(ds));
            return default;
        }
        let ghost prev = ds.take(k - start);
        let ghost next = ds.take(k - start + 1);
        assert(next.drop_last() =~= prev);
        assert(next.last() == c);
        let d: u64 = (c as u64) - ('0' as u64);
        if !over {
            acc = acc * 10 + d;
            if acc > 4294967295 {
                over = true;
            }
        } else {
            let ghost v = digit_value(prev);
            assert(v * 10 + d > u32::MAX) by (nonlinear_arith)
                requires
                    v > u32::MAX,
                    d >= 0,
            ;
        }
        k = k + 1;
    }
    assert(ds.take(ds.len() as int) =~= ds);
    if over {
        default
    } else {
        acc as u32
    }
}

/// No character of `s` is whitespace.
pub open spec fn white_free(s: Seq<char>) -> bool {
    forall|i: int| 0 <= i < s.len() ==> !is_white(#[trigger] s[i])
}

/// Every word is non-empty and holds no whitespace.
pub open spec fn proper_words(ws: Seq<Seq<char>>) -> bool {
    forall|k: int| 0 <= k < ws.len() ==> (#[trigger] ws[k]).len() > 0 && white_free(ws[k])
}

/// Every character of `s` satisfies `f`.
pub open spec fn all_chars(s: Seq<char>, f: spec_fn(char) -> bool) -> bool {
    forall|i: int| 0 <= i < s.len() ==> f(#[trigger] s[i])
}

/// Every character of every word satisfies `f`.
pub open spec fn all_word_chars(ws: Seq<Seq<char>>, f: spec_fn(char) -> bool) -> bool {
    forall|k: int| 0 <= k < ws.len() ==> all_chars(#[trigger] ws[k], f)
}

proof fn lemma_words_from_shape(s: Seq<char>, cur: Seq<char>, f: spec_fn(char) -> bool)
    requires
        white_free(cur),
        all_chars(s, f),
        all_chars(cur, f),
    ensures
        proper_words(words_from(s, cur)),
        all_word_chars(words_from(s, cur), f),
    decreases s.len(),
{
    if s.len() > 0 {
        let rest = s.drop_first();
        assert(all_chars(rest, f)) by {
            assert forall|i: int| 0 <= i < rest.len() implies f(#[trigger] rest[i]) by {
                assert(rest[i] == s[i + 1]);
            }
        }
        lemma_words_from_shape(rest, seq![], f);
        if !is_white(s[0]) {
            let next = cur.push(s[0]);
            assert(white_free(next)) by {
                assert forall|i: int| 0 <= i < next.len() implies !is_white(#[trigger] next[i]) by {
                    if i < cur.len() {
                        assert(next[i] == cur[i]);
                    }
                }
            }
            assert(all_chars(next, f)) by {
                assert forall|i: int| 0 <= i < next.len() implies f(#[trigger] next[i]) by {
                    if i < cur.len() {
                        assert(next[i] == cur[i]);
                    }
                }
            }
            lemma_words_from_shape(rest, next, f);
        } else if cur.len() > 0 {
            let tail = words_from(rest, seq![]);
            let all = seq![cur] + tail;
            assert forall|k: int| 0 <= k < all.len() implies (#[trigger] all[k]).len() > 0
                && white_free(all[k]) && all_chars(all[k], f) by {
                if k > 0 {
                    assert(all[k] == tail[k - 1]);
                }
            }
        }
    }
}

/// The words of any text are non-empty, hold no whitespace, and keep every
/// property that all its characters have.
pub proof fn lemma_words_shape(s: Seq<char>, f: spec_fn(char) -> bool)
    requires
        all_chars(s, f),
    ensures
        proper_words(words(s)),
        all_word_chars(words(s), f),
{
    lemma_words_from_shape(s, seq![], f);
}

proof fn lemma_words_from_word(w: Seq<char>, rest: Seq<char>, cur: Seq<char>)
    requires
        white_free(w),
    ensures
        words_from(w + rest, cur) == words_from(rest, cur + w),
    decreases w.len(),
{
    if w.len() == 0 {
        assert(w + rest =~= rest);
        assert(cur + w =~= cur);
    } else {
        assert((w + rest)[0] == w[0]);
        assert((w + rest).drop_first() =~= w.drop_first() + rest);
        lemma_words_from_word(w.drop_first(), rest, cur.push(w[0]));
        assert(cur.push(w[0]) + w.drop_first() =~= cur + w);
    }
}

proof fn lemma_join_front(ws: Seq<Seq<char>>)
    requires
        ws.len() >= 2,
    ensures
        join(ws) == ws[0] + seq![' '] + join(ws.drop_first()),
    decreases ws.len(),
{
    if ws.len() > 2 {
        let init = ws.drop_last();
        let tail = ws.drop_first();
        lemma_join_front(init);
        assert(init.drop_first() =~= tail.drop_last());
        assert(tail.last() == ws.last());
        assert(init[0] == ws[0]);
        assert(join(tail) == join(tail.drop_last()) + seq![' '] + tail.last());
        assert(join(ws) == join(init) + seq![' '] + ws.last());
        assert(join(ws) =~= ws[0] + seq![' '] + join(tail));
    } else {
        assert(ws.drop_first() =~= seq![ws[1]]);
        assert(ws.drop_last() =~= seq![ws[0]]);
        assert(join(ws.drop_first()) == ws[1]);
        assert(join(ws.drop_last()) == ws[0]);
    }
}

/// Splitting joined words gives the words back.
pub proof fn lemma_words_of_join(ws: Seq<Seq<char>>)
    requires
        proper_words(ws),
    ensures
        words(join(ws)) == ws,
    decreases ws.len(),
{
    if ws.len() == 1 {
        assert(ws[0] + Seq::<char>::empty() =~= ws[0]);
        lemma_words_from_word(ws[0], seq![], seq![]);
        assert(Seq::<char>::empty() + ws[0] =~= ws[0]);
        assert(words_from(Seq::<char>::empty(), ws[0]) =~= ws);
    } else if ws.len() >= 2 {
        let tail = ws.drop_first();
        lemma_join_front(ws);
        let rest = seq![' '] + join(tail);
        assert(join(ws) =~= ws[0] + rest);
        lemma_words_from_word(ws[0], rest, seq![]);
        assert(Seq::<char>::empty() + ws[0] =~= ws[0]);
        assert(rest.drop_first() =~= join(tail));
        assert(proper_words(tail)) by {
            assert forall|k: int| 0 <= k < tail.len() implies (#[trigger] tail[k]).len() > 0
                && white_free(tail[k]) by {
                assert(tail[k] == ws[k + 1]);
            }
        }
        lemma_words_of_join(tail);
        assert(seq![ws[0]] + tail =~= ws);
    }
}

/// Every character of joined words is a space or a character of a word.
pub proof fn lemma_join_chars(ws: Seq<Seq<char>>, f: spec_fn(char) -> bool)
    requires
        all_word_chars(ws, f),
        f(' '),
    ensures
        all_chars(join(ws), f),
    decreases ws.len(),
{
    if ws.len() >= 2 {
        let init = ws.drop_last();
        assert(all_word_chars(init, f)) by {
            assert forall|k: int| 0 <= k < init.len() implies all_chars(#[trigger] init[k], f) by {
                assert(init[k] == ws[k]);
            }
        }
        lemma_join_chars(init, f);
        let j = join(ws);
        let a = join(init);
        let b = ws.last();
        assert(all_chars(b, f)) by {
            assert(all_chars(ws[ws.len() - 1], f));
        }
        assert forall|i: int| 0 <= i < j.len() implies f(#[trigger] j[i]) by {
            if i < a.len() {
                assert(j[i] == a[i]);
            } else if i == a.len() {
                assert(j[i] == ' ');
            } else {
                assert(j[i] == b[i - a.len() - 1]);
            }
        }
    } else if ws.len() == 1 {
        assert(all_chars(ws[0], f));
    }
}

/// Collapsing whitespace twice changes nothing more than once.
pub proof fn lemma_collapse_idempotent(s: Seq<char>)
    ensures
        collapse(collapse(s)) == collapse(s),
{
    let f = |c: char| true;
    lemma_words_shape(s, f);
    lemma_words_of_join(words(s));
}

} // verus!
