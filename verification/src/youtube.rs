//! YouTube ingestion: request checks, `yt-dlp` metadata and progress lines.

use vstd::prelude::*;
use crate::text::{chars_of, contains_text, find_char_from, first_stop, has_substring, is_first_stop, lemma_first_stop_exists, same_text};

verus! {

/// Title and uploader of a downloaded YouTube track, with the URL it came from.
#[derive(Clone, Debug)]
pub struct YoutubeMeta {
    pub title: String,
    pub uploader: String,
    pub source_url: String,
}

/// The URL has one of the accepted YouTube shapes.
pub open spec fn youtube_url_ok(url: Seq<char>) -> bool {
    ||| has_substring(url, "youtube.com/watch"@)
    ||| has_substring(url, "youtu.be/"@)
    ||| has_substring(url, "youtube.com/shorts/"@)
    ||| has_substring(url, "m.youtube.com/"@)
}

/// Whether `url` looks like a YouTube video link: it contains
/// `youtube.com/watch`, `youtu.be/`, `youtube.com/shorts/` or `m.youtube.com/`.
pub fn is_valid_youtube_url(url: &str) -> (ok: bool)
    ensures
        ok == youtube_url_ok(url@),
{
    contains_text(url, "youtube.com/watch") || contains_text(url, "youtu.be/")
        || contains_text(url, "youtube.com/shorts/") || contains_text(url, "m.youtube.com/")
}

/// The acknowledgement token that the legal-use gate hands out.
pub open spec fn accepted_token() -> Seq<char> {
    "accepted_v1"@
}

/// Error returned when the legal acknowledgement has not been given.
pub open spec fn ack_required_message() -> Seq<char> {
    "Legal acknowledgement required. Please accept the terms first."@
}

/// Error returned for a URL that is not a YouTube link.
pub open spec fn invalid_url_message() -> Seq<char> {
    "Invalid YouTube URL. Supported: youtube.com/watch, youtu.be, youtube.com/shorts"@
}

/// What a YouTube ingestion request is answered before any work starts:
/// the acknowledgement is checked first, then the URL.
pub open spec fn youtube_request_answer(url: Seq<char>, ack_token: Seq<char>) -> Result<(), Seq<char>> {
    if ack_token != accepted_token() {
        Err(ack_required_message())
    } else if !youtube_url_ok(url) {
        Err(invalid_url_message())
    } else {
        Ok(())
    }
}

/// Checks a YouTube ingestion request: the acknowledgement token must be
/// `accepted_v1`, and the URL must be a YouTube link.
pub fn check_youtube_request(url: &str, ack_token: &str) -> (res: Result<(), String>)
    ensures
        match (res, youtube_request_answer(url@, ack_token@)) {
            (Ok(()), Ok(())) => true,
            (Err(e), Err(m)) => e@ == m,
            _ => false,
        },
{
    if !same_text(ack_token, "accepted_v1") {
        return Err("Legal acknowledgement required. Please accept the terms first.".to_owned());
    }
    if !is_valid_youtube_url(url) {
        return Err("Invalid YouTube URL. Supported: youtube.com/watch, youtu.be, youtube.com/shorts".to_owned());
    }
    Ok(())
}

/// The first line of `s` and the text after it, the way `str::lines` cuts
/// them: empty text has no line; a line ends at the first `\n`, which is
/// dropped together with one `\r` just before it; text without `\n` is a
/// single line, kept whole.
pub open spec fn split_first_line(s: Seq<char>) -> Option<(Seq<char>, Seq<char>)> {
    if s.len() == 0 {
        None
    } else {
        let e = first_stop(s, '\n');
        if e < s.len() {
            let raw = s.take(e);
            let line = if raw.len() > 0 && raw.last() == '\r' { raw.drop_last() } else { raw };
            Some((line, s.skip(e + 1)))
        } else {
            Some((s, Seq::<char>::empty()))
        }
    }
}

/// Title reported by `yt-dlp`: its first output line, or `Unknown Track`.
pub open spec fn meta_title(out: Seq<char>) -> Seq<char> {
    match split_first_line(out) {
        Some((line, _)) => line,
        None => "Unknown Track"@,
    }
}

/// Uploader reported by `yt-dlp`: its second output line, or `Unknown Artist`.
pub open spec fn meta_uploader(out: Seq<char>) -> Seq<char> {
    match split_first_line(out) {
        Some((_, rest)) => match split_first_line(rest) {
            Some((line, _)) => line,
            None => "Unknown Artist"@,
        },
        None => "Unknown Artist"@,
    }
}

/// Splits off the first line of `s` (see `split_first_line`).
pub fn first_line(s: &str) -> (res: Option<(String, &str)>)
    ensures
        match (res, split_first_line(s@)) {
            (Some((line, rest)), Some((l, r))) => line@ == l && rest@ == r,
            (None, None) => true,
            _ => false,
        },
{
    let v = chars_of(s);
    if v.len() == 0 {
        return None;
    }
    let e = find_char_from(&v, 0, '\n');
    if e < v.len() {
        let mut end = e;
        if e > 0 && v[e - 1] == '\r' {
            end = e - 1;
        }
        let line = s.substring_char(0, end).to_owned();
        let rest = s.substring_char(e + 1, v.len());
        proof {
            let raw = s@.take(e as int);
            if e > 0 && v@[e - 1] == '\r' {
                assert(raw.drop_last() =~= s@.subrange(0, end as int));
            } else {
                assert(raw =~= s@.subrange(0, end as int));
            }
            assert(s@.skip(e + 1) =~= s@.subrange(e + 1, v.len() as int));
        }
        Some((line, rest))
    } else {
        let line = s.to_owned();
        let rest = s.substring_char(v.len(), v.len());
        assert(rest@ =~= Seq::<char>::empty());
        Some((line, rest))
    }
}

/// Reads the output of `yt-dlp --print %(title)s --print %(uploader)s`:
/// the title is the first line (or `Unknown Track`), the uploader the second
/// (or `Unknown Artist`).
pub fn parse_youtube_meta(stdout: &str, source_url: &str) -> (meta: YoutubeMeta)
    ensures
        meta.title@ == meta_title(stdout@),
        meta.uploader@ == meta_uploader(stdout@),
        meta.source_url@ == source_url@,
{
    let (title, uploader) = match first_line(stdout) {
        Some((t, rest)) => {
            let u = match first_line(rest) {
                Some((u, _)) => u,
                None => "Unknown Artist".to_owned(),
            };
            (t, u)
        },
        None => ("Unknown Track".to_owned(), "Unknown Artist".to_owned()),
    };
    YoutubeMeta { title, uploader, source_url: source_url.to_owned() }
}

/// An ASCII digit or a decimal point.
pub open spec fn is_numeric_char(c: char) -> bool {
    ('0' <= c && c <= '9') || c == '.'
}

/// `k` is the last position of `pre` holding a character other than a digit
/// or a point.
pub open spec fn is_last_non_numeric(pre: Seq<char>, k: int) -> bool {
    &&& 0 <= k < pre.len()
    &&& !is_numeric_char(pre[k])
    &&& forall|j: int| k < j < pre.len() ==> is_numeric_char(pre[j])
}

/// Some character of `pre` is neither a digit nor a point.
pub open spec fn has_non_numeric(pre: Seq<char>) -> bool {
    exists|k: int| 0 <= k < pre.len() && !is_numeric_char(pre[k])
}

/// The last position of `pre` holding neither a digit nor a point.
pub open spec fn last_non_numeric(pre: Seq<char>) -> int {
    choose|k: int| is_last_non_numeric(pre, k)
}

/// Text made of digits and points that reads as a decimal number: not empty,
/// at least one digit, at most one point.
pub open spec fn decimal_text_ok(t: Seq<char>) -> bool {
    &&& t.len() > 0
    &&& exists|i: int| 0 <= i < t.len() && '0' <= t[i] && t[i] <= '9'
    &&& forall|i: int, j: int| 0 <= i < j < t.len() ==> !(t[i] == '.' && t[j] == '.')
}

/// The characters of a `[download]` line that sit before its first `%`.
pub open spec fn before_percent(line: Seq<char>) -> Seq<char> {
    line.take(first_stop(line, '%'))
}

/// The percentage text of a `yt-dlp` progress line such as
/// `[download]  12.3% of 7.42MiB`: the run of digits and points just before
/// the first `%`, when the line holds `[download]` and a `%`, something other
/// than a digit or point precedes the run, and the run reads as a number.
pub open spec fn progress_text(line: Seq<char>) -> Option<Seq<char>> {
    if !has_substring(line, "[download]"@) || first_stop(line, '%') == line.len() {
        None
    } else {
        let pre = before_percent(line);
        if !has_non_numeric(pre) {
            None
        } else {
            let t = pre.skip(last_non_numeric(pre) + 1);
            if decimal_text_ok(t) { Some(t) } else { None }
        }
    }
}

/// Lines on which the percentage can be cut out: where a run is cut, the
/// character before it is a one-byte (ASCII) character.
pub open spec fn progress_line_ok(line: Seq<char>) -> bool {
    let pre = before_percent(line);
    (has_substring(line, "[download]"@) && first_stop(line, '%') < line.len() && has_non_numeric(pre))
        ==> (pre[last_non_numeric(pre)] as u32) < 128
}

proof fn lemma_last_non_numeric_is(pre: Seq<char>, k: int)
    requires
        is_last_non_numeric(pre, k),
    ensures
        last_non_numeric(pre) == k,
        has_non_numeric(pre),
{
    let f = last_non_numeric(pre);
    assert(is_last_non_numeric(pre, f));
    if f < k {
        assert(is_numeric_char(pre[k]));
    } else if k < f {
        assert(is_numeric_char(pre[f]));
    }
}

/// Positions in a progress line: the first `%` and, before it, the last
/// character that is neither a digit nor a point.
fn progress_positions(v: &Vec<char>) -> (res: Option<(usize, usize)>)
    ensures
        match res {
            Some((k, p)) => {
                &&& p == first_stop(v@, '%')
                &&& p < v.len()
                &&& k < p
                &&& has_non_numeric(v@.take(p as int))
                &&& k == last_non_numeric(v@.take(p as int))
            },
            None => first_stop(v@, '%') == v.len() || !has_non_numeric(before_percent(v@)),
        },
{
    let p = find_char_from(v, 0, '%');
    if p == v.len() {
        return None;
    }
    let ghost pre = v@.take(p as int);
    let mut k = p;
    while k > 0
        invariant
            k <= p,
            p < v.len(),
            p == first_stop(v@, '%'),
            pre == v@.take(p as int),
            forall|j: int| k <= j < p ==> is_numeric_char(pre[j]),
        decreases k,
    {
        let c = v[k - 1];
        if !(('0' <= c && c <= '9') || c == '.') {
            proof { lemma_last_non_numeric_is(pre, (k - 1) as int); }
            return Some((k - 1, p));
        }
        k = k - 1;
    }
    assert(!has_non_numeric(pre));
    None
}

/// Whether `t` reads as a number in the sense of `decimal_text_ok`: not empty,
/// a digit, at most one point.
fn decimal_chars_ok(t: &Vec<char>) -> (ok: bool)
    ensures
        ok == decimal_text_ok(t@),
{
    let mut digits: usize = 0;
    let mut points: usize = 0;
    let mut first_point: usize = 0;
    let mut i: usize = 0;
    while i < t.len()
        invariant
            i <= t.len(),
            digits <= i,
            points <= 1,
            (digits > 0) <==> exists|j: int| 0 <= j < i && '0' <= t@[j] && t@[j] <= '9',
            points == 0 ==> forall|j: int| 0 <= j < i ==> t@[j] != '.',
            points == 1 ==> first_point < i && t@[first_point as int] == '.'
                && forall|j: int| 0 <= j < i && j != first_point ==> t@[j] != '.',
        decreases t.len() - i,
    {
        let c = t[i];
        if c == '.' {
            if points == 1 {
                assert(!decimal_text_ok(t@)) by {
                    assert(t@[first_point as int] == '.' && t@[i as int] == '.');
                }
                return false;
            }
            points = 1;
            first_point = i;
        } else if '0' <= c && c <= '9' {
            digits = digits + 1;
        }
        i = i + 1;
    }
    if t.len() == 0 || digits == 0 {
        return false;
    }
    assert forall|a: int, b: int| 0 <= a < b < t.len() implies !(t@[a] == '.' && t@[b] == '.') by {
        if points == 1 && t@[a] == '.' && t@[b] == '.' {
            assert(a == first_point && b == first_point);
        }
    }
    true
}

/// Whether `line` is one on which `download_progress_text` can cut out the
/// percentage (see `progress_line_ok`).
pub fn progress_line_in_domain(line: &str) -> (ok: bool)
    ensures
        ok == progress_line_ok(line@),
{
    let v = chars_of(line);
    if !contains_text(line, "[download]") {
        return true;
    }
    match progress_positions(&v) {
        Some((k, _)) => {
            let c = v[k];
            (c as u32) < 128
        },
        None => true,
    }
}

/// The percentage text of a `yt-dlp` progress line (see `progress_text`);
/// `None` for lines that report no progress.
pub fn download_progress_text(line: &str) -> (res: Option<String>)
    requires
        progress_line_ok(line@),
    ensures
        match (res, progress_text(line@)) {
            (Some(t), Some(s)) => t@ == s,
            (None, None) => true,
            _ => false,
        },
{
    let v = chars_of(line);
    if !contains_text(line, "[download]") {
        return None;
    }
    match progress_positions(&v) {
        Some((k, p)) => {
            let text = line.substring_char(k + 1, p);
            let cs = chars_of(text);
            proof {
                let pre = v@.take(p as int);
                assert(text@ =~= pre.skip(k + 1));
            }
            if decimal_chars_ok(&cs) {
                Some(text.to_owned())
            } else {
                None
            }
        },
        None => None,
    }
}

/// With the acknowledgement given, every URL that contains one of
/// `youtube.com/watch`, `youtu.be/`, `youtube.com/shorts/` or
/// `m.youtube.com/` is accepted, whatever else it holds; without the
/// acknowledgement every request is refused with the acknowledgement message,
/// whatever the URL; with it, any other URL is refused as invalid.
pub proof fn law_youtube_links_accepted(url: Seq<char>, ack_token: Seq<char>)
    ensures
        (has_substring(url, "youtube.com/watch"@) || has_substring(url, "youtu.be/"@)
            || has_substring(url, "youtube.com/shorts/"@) || has_substring(url, "m.youtube.com/"@))
            ==> youtube_request_answer(url, "accepted_v1"@) == Ok::<(), Seq<char>>(()),
        ack_token != "accepted_v1"@ ==> youtube_request_answer(url, ack_token)
            == Err::<(), Seq<char>>("Legal acknowledgement required. Please accept the terms first."@),
        !(has_substring(url, "youtube.com/watch"@) || has_substring(url, "youtu.be/"@)
            || has_substring(url, "youtube.com/shorts/"@) || has_substring(url, "m.youtube.com/"@))
            ==> youtube_request_answer(url, "accepted_v1"@) == Err::<(), Seq<char>>(
                "Invalid YouTube URL. Supported: youtube.com/watch, youtu.be, youtube.com/shorts"@,
            ),
{
}

/// The title is the first line of `yt-dlp`'s output, whole: a prefix of the
/// output without line feed, followed by the end of the output, by `\n`, or
/// by `\r\n` (and then not ending in `\r` itself); with no output it is
/// `Unknown Track`.
pub proof fn law_title_is_whole_first_line(out: Seq<char>)
    ensures
        out.len() == 0 ==> meta_title(out) == "Unknown Track"@,
        out.len() > 0 ==> {
            let t = meta_title(out);
            &&& t.len() <= out.len()
            &&& out.take(t.len() as int) == t
            &&& forall|j: int| 0 <= j < t.len() ==> t[j] != '\n'
            &&& {
                ||| t.len() == out.len()
                ||| out[t.len() as int] == '\n' && (t.len() == 0 || t.last() != '\r')
                ||| t.len() + 1 < out.len() && out[t.len() as int] == '\r' && out[t.len() + 1int] == '\n'
            }
        },
{
    if out.len() > 0 {
        let e = first_stop(out, '\n');
        assert(is_first_stop(out, '\n', e)) by {
            lemma_first_stop_exists(out, '\n');
        }
        let t = meta_title(out);
        if e < out.len() {
            let raw = out.take(e);
            if raw.len() > 0 && raw.last() == '\r' {
                assert(t == raw.drop_last());
                assert(out.take(t.len() as int) =~= t);
                assert(out[t.len() as int] == '\r');
            } else {
                assert(out.take(t.len() as int) =~= t);
            }
        } else {
            assert(out.take(t.len() as int) =~= t);
        }
    }
}

/// The uploader is the line after the title's line: read like the title from
/// what follows the first line feed; `Unknown Artist` when there is no line
/// feed or nothing after it.
pub proof fn law_uploader_is_second_line(out: Seq<char>)
    ensures
        first_stop(out, '\n') >= out.len() ==> meta_uploader(out) == "Unknown Artist"@,
        first_stop(out, '\n') < out.len() && out.skip(first_stop(out, '\n') + 1).len() == 0
            ==> meta_uploader(out) == "Unknown Artist"@,
        first_stop(out, '\n') < out.len() && out.skip(first_stop(out, '\n') + 1).len() > 0
            ==> meta_uploader(out) == meta_title(out.skip(first_stop(out, '\n') + 1)),
{
    lemma_first_stop_exists(out, '\n');
}

/// The percentage of a progress line is the run of digits and points that
/// ends at the first `%`: given the first `%` at `p` and the last character
/// `q < p` before it that is neither a digit nor a point, a line holding
/// `[download]` reports exactly `line[q + 1 .. p]` when that run has a digit
/// and at most one point, and nothing otherwise.
pub proof fn law_progress_is_number_before_percent(line: Seq<char>, p: int, q: int)
    requires
        0 <= q < p < line.len(),
        line[p] == '%',
        forall|j: int| 0 <= j < p ==> line[j] != '%',
        !(('0' <= line[q] && line[q] <= '9') || line[q] == '.'),
        forall|j: int| q < j < p ==> ('0' <= line[j] && line[j] <= '9') || line[j] == '.',
    ensures
        progress_text(line) is Some <==> {
            &&& has_substring(line, "[download]"@)
            &&& exists|i: int| q < i < p && '0' <= line[i] && line[i] <= '9'
            &&& forall|i: int, j: int| q < i < j < p ==> !(line[i] == '.' && line[j] == '.')
        },
        progress_text(line) is Some ==> progress_text(line) == Some(line.subrange(q + 1, p)),
{
    crate::text::lemma_first_stop_is(line, '%', p);
    let pre = line.take(p);
    assert(pre =~= before_percent(line));
    lemma_last_non_numeric_is(pre, q);
    let t = pre.skip(q + 1);
    assert(t =~= line.subrange(q + 1, p));
    if has_substring(line, "[download]"@) {
        if decimal_text_ok(t) {
            let i = choose|i: int| 0 <= i < t.len() && '0' <= t[i] && t[i] <= '9';
            assert(line[q + 1 + i] == t[i]);
            assert forall|a: int, b: int| q < a < b < p implies !(line[a] == '.' && line[b] == '.') by {
                assert(line[a] == t[a - q - 1]);
                assert(line[b] == t[b - q - 1]);
            }
        } else {
            if exists|i: int| q < i < p && '0' <= line[i] && line[i] <= '9' {
                let i = choose|i: int| q < i < p && '0' <= line[i] && line[i] <= '9';
                assert(t[i - q - 1] == line[i]);
                assert(t.len() > 0);
                let (a, b) = choose|a: int, b: int| 0 <= a < b < t.len() && t[a] == '.' && t[b] == '.';
                assert(line[q + 1 + a] == '.' && line[q + 1 + b] == '.');
            }
        }
    }
}

/// A line reports no progress when it lacks `[download]`, has no `%`, or has
/// only digits and points before its first `%`.
pub proof fn law_progress_needs_marker_and_percent(line: Seq<char>)
    ensures
        !has_substring(line, "[download]"@) ==> progress_text(line) is None,
        (forall|j: int| 0 <= j < line.len() ==> line[j] != '%') ==> progress_text(line) is None,
        (forall|j: int| 0 <= j < first_stop(line, '%') ==> ('0' <= line[j] && line[j] <= '9') || line[j] == '.')
            ==> progress_text(line) is None,
{
    crate::text::lemma_first_stop_exists(line, '%');
    let p = first_stop(line, '%');
    if p < line.len() && has_non_numeric(before_percent(line)) {
        let k = choose|k: int| 0 <= k < before_percent(line).len() && !is_numeric_char(before_percent(line)[k]);
        assert(before_percent(line)[k] == line[k]);
    }
}

} // verus!
