//! The M3U playlist parser.

use vstd::prelude::*;
use crate::channel::{Channel, ChannelView, views};
use crate::text::{chars_of, opt_view, or_empty, regex_group_of, regex_groups, unwrap_or_empty, string_from, text_between, trim, trim_of};

verus! {

/// The first index at or after `i` that holds `c`, or `s.len()` when there is none.
pub open spec fn next_char(s: Seq<char>, c: char, i: int) -> int
    recommends
        0 <= i,
    decreases s.len() - i,
{
    if i >= s.len() {
        s.len() as int
    } else if s[i] == c {
        i
    } else {
        next_char(s, c, i + 1)
    }
}

/// Whether `p` occurs in `s` starting at index `i`.
pub open spec fn occurs_at(s: Seq<char>, p: Seq<char>, i: int) -> bool {
    0 <= i && i + p.len() <= s.len() && s.subrange(i, i + p.len()) == p
}

/// The first index at or after `i` where `p` occurs, or `s.len()` when there is none.
pub open spec fn next_match(s: Seq<char>, p: Seq<char>, i: int) -> int
    recommends
        0 <= i,
    decreases s.len() - i,
{
    if i >= s.len() || i + p.len() > s.len() {
        s.len() as int
    } else if occurs_at(s, p, i) {
        i
    } else {
        next_match(s, p, i + 1)
    }
}

/// A line without the carriage return that ended it.
pub open spec fn strip_cr(l: Seq<char>) -> Seq<char> {
    if l.len() > 0 && l.last() == '\r' {
        l.drop_last()
    } else {
        l
    }
}

/// The lines of `s` from index `start` on: split at each line feed, a
/// carriage return before the line feed dropped, and no empty line after a
/// final line feed.
pub open spec fn lines_from(s: Seq<char>, start: int) -> Seq<Seq<char>>
    decreases s.len() - start,
{
    if start < 0 || start >= s.len() {
        seq![]
    } else {
        let e = next_char(s, '\n', start);
        if start <= e < s.len() {
            seq![strip_cr(s.subrange(start, e))] + lines_from(s, e + 1)
        } else {
            seq![s.subrange(start, s.len() as int)]
        }
    }
}

/// The lines of a document.
pub open spec fn lines_of(s: Seq<char>) -> Seq<Seq<char>> {
    lines_from(s, 0)
}

/// A line that opens a channel entry.
pub open spec fn is_metadata(l: Seq<char>) -> bool {
    occurs_at(l, "#EXTINF"@, 0)
}

/// A directive or comment line.
pub open spec fn is_directive(l: Seq<char>) -> bool {
    l.len() > 0 && l[0] == '#'
}

/// The display name: the text after the first comma, up to the next comma,
/// trimmed; empty when the line holds no comma.
pub open spec fn display_name(m: Seq<char>) -> Seq<char> {
    let a = next_char(m, ',', 0);
    if a >= m.len() {
        trim_of(seq![])
    } else {
        trim_of(m.subrange(a + 1, next_char(m, ',', a + 1)))
    }
}

/// The value of an attribute: the text after the first occurrence of `key`,
/// up to the next double quote or the next occurrence of `key`; empty when
/// `key` does not occur.
pub open spec fn attribute(m: Seq<char>, key: Seq<char>) -> Seq<char> {
    let a = next_match(m, key, 0);
    if a >= m.len() {
        seq![]
    } else {
        let start = a + key.len();
        let seg_end = next_match(m, key, start);
        let quote = next_char(m, '"', start);
        let end = if quote < seg_end { quote } else { seg_end };
        m.subrange(start, end)
    }
}

/// The channel that a metadata line and the URL line after it describe.
pub open spec fn channel_of(m: Seq<char>, u: Seq<char>) -> ChannelView {
    let name = display_name(m);
    ChannelView {
        name: name,
        logo: attribute(m, "tvg-logo=\""@),
        url: u,
        group_title: attribute(m, "group-title=\""@),
        tvg_id: attribute(m, "tvg-id=\""@),
        resolution: or_empty(regex_group_of(RESOLUTION_PATTERN@, name)),
        extra_info: or_empty(regex_group_of(EXTRA_INFO_PATTERN@, name)),
    }
}

/// The channels of a sequence of lines: a metadata line followed by a line
/// that is not a directive gives one channel; a metadata line followed by a
/// directive, or by nothing, gives none, and the line after it is read
/// afresh; any other line is skipped.
pub open spec fn parse_lines(ls: Seq<Seq<char>>) -> Seq<ChannelView>
    decreases ls.len(),
{
    if ls.len() == 0 {
        seq![]
    } else if is_metadata(ls[0]) && ls.len() >= 2 && !is_directive(ls[1]) {
        seq![channel_of(ls[0], ls[1])] + parse_lines(ls.skip(2))
    } else {
        parse_lines(ls.skip(1))
    }
}

/// The channels of a playlist document.
pub open spec fn parse_document(s: Seq<char>) -> Seq<ChannelView> {
    parse_lines(lines_of(s))
}

fn find_char(s: &Vec<char>, c: char, from: usize) -> (r: usize)
    requires
        from <= s.len(),
    ensures
        r == next_char(s@, c, from as int),
        from <= r <= s.len(),
{
    let mut i = from;
    while i < s.len()
        invariant
            from <= i <= s.len(),
            next_char(s@, c, from as int) == next_char(s@, c, i as int),
        decreases s.len() - i,
    {
        if s[i] == c {
            return i;
        }
        i += 1;
    }
    i
}

/// Whether `p` occurs in `s` starting at index `i`.
pub fn matches_at(s: &Vec<char>, p: &Vec<char>, i: usize) -> (r: bool)
    requires
        i <= s.len(),
    ensures
        r == occurs_at(s@, p@, i as int),
{
    if p.len() > s.len() - i {
        return false;
    }
    let mut j: usize = 0;
    while j < p.len()
        invariant
            j <= p.len(),
            i + p.len() <= s.len(),
            forall|k: int| 0 <= k < j ==> s@[i + k] == p@[k],
        decreases p.len() - j,
    {
        if s[i + j] != p[j] {
            assert(s@.subrange(i as int, i + p.len())[j as int] != p@[j as int]);
            return false;
        }
        j += 1;
    }
    assert(s@.subrange(i as int, i + p.len()) =~= p@);
    true
}

fn find_match(s: &Vec<char>, p: &Vec<char>, from: usize) -> (r: usize)
    requires
        from <= s.len(),
    ensures
        r == next_match(s@, p@, from as int),
        r <= s.len(),
        r < s.len() ==> from <= r && r + p.len() <= s.len(),
{
    let mut i = from;
    while i < s.len() && p.len() <= s.len() - i
        invariant
            from <= i <= s.len(),
            next_match(s@, p@, from as int) == next_match(s@, p@, i as int),
        decreases s.len() - i,
    {
        if matches_at(s, p, i) {
            return i;
        }
        i += 1;
    }
    i = s.len();
    i
}

/// The lines of a document, as `lines_of` describes them.
fn split_lines(s: &Vec<char>) -> (r: Vec<Vec<char>>)
    ensures
        r@.map_values(|l: Vec<char>| l@) == lines_of(s@),
{
    let mut r: Vec<Vec<char>> = Vec::new();
    let mut pos: usize = 0;
    while pos < s.len()
        invariant
            pos <= s.len(),
            lines_of(s@) == r@.map_values(|l: Vec<char>| l@) + lines_from(s@, pos as int),
        decreases s.len() - pos,
    {
        let e = find_char(s, '\n', pos);
        let mut line: Vec<char> = Vec::new();
        let mut i = pos;
        while i < e
            invariant
                pos <= i <= e <= s.len(),
                line@ == s@.subrange(pos as int, i as int),
            decreases e - i,
        {
            line.push(s[i]);
            i += 1;
            assert(line@ =~= s@.subrange(pos as int, i as int));
        }
        let ghost old_r = r@;
        if e < s.len() {
            if line.len() > 0 && line[line.len() - 1] == '\r' {
                line.pop();
            }
            r.push(line);
            pos = e + 1;
        } else {
            r.push(line);
            pos = e;
        }
        assert(r@.map_values(|l: Vec<char>| l@) =~= old_r.map_values(|l: Vec<char>| l@).push(
            r@.last()@,
        ));
    }
    assert(r@.map_values(|l: Vec<char>| l@) + lines_from(s@, pos as int) =~= r@.map_values(
        |l: Vec<char>| l@,
    ));
    r
}

/// The display name of a metadata line, as `display_name` describes it.
fn name_of(m: &Vec<char>) -> (r: String)
    ensures
        r@ == display_name(m@),
{
    let a = find_char(m, ',', 0);
    if a >= m.len() {
        let empty = String::new();
        proof {
            assert(empty@ =~= seq![]);
        }
        trim(empty.as_str())
    } else {
        let b = find_char(m, ',', a + 1);
        let raw = text_between(m, a + 1, b);
        trim(raw.as_str())
    }
}

/// The value of attribute `key` in a metadata line, as `attribute` describes it.
fn attribute_of(m: &Vec<char>, key: &Vec<char>) -> (r: String)
    ensures
        r@ == attribute(m@, key@),
{
    let a = find_match(m, key, 0);
    if a >= m.len() {
        let r = String::new();
        proof {
            assert(r@ =~= seq![]);
        }
        r
    } else {
        let start = a + key.len();
        let seg_end = find_match(m, key, start);
        let quote = find_char(m, '"', start);
        let end = if quote < seg_end {
            quote
        } else {
            seg_end
        };
        text_between(m, start, end)
    }
}

/// The regular expression whose first group is a channel's resolution.
pub const RESOLUTION_PATTERN: &'static str = "(\\d+p)";

/// The regular expression whose first group is a channel's extra information.
pub const EXTRA_INFO_PATTERN: &'static str = "\\[(.*?)\\]";

/// The channel of a metadata line and its URL line, from its display name and
/// the two values that the regular expressions found in it.
fn channel_from(m: &Vec<char>, u: &Vec<char>, name: String, resolution: String, extra_info: String) -> (r:
    Channel)
    requires
        name@ == display_name(m@),
        resolution@ == or_empty(regex_group_of(RESOLUTION_PATTERN@, name@)),
        extra_info@ == or_empty(regex_group_of(EXTRA_INFO_PATTERN@, name@)),
    ensures
        r@ == channel_of(m@, u@),
{
    let logo = attribute_of(m, &chars_of("tvg-logo=\""));
    let group_title = attribute_of(m, &chars_of("group-title=\""));
    let tvg_id = attribute_of(m, &chars_of("tvg-id=\""));
    Channel { name, logo, url: string_from(u), group_title, tvg_id, resolution, extra_info }
}

/// The channels that entries starting at the line indices `starts` give.
pub open spec fn channels_at(ls: Seq<Seq<char>>, starts: Seq<usize>) -> Seq<ChannelView> {
    starts.map_values(|m: usize| channel_of(ls[m as int], ls[m + 1]))
}

/// How far a parse has come.
#[derive(Clone, Copy, Debug, PartialEq, Eq)]
pub struct ParseProgress {
    /// Lines read so far.
    pub lines_done: usize,
    /// Lines in the document.
    pub total_lines: usize,
    /// Channels produced so far.
    pub channels_parsed: usize,
    /// Metadata lines seen so far.
    pub entries_seen: usize,
    /// Whether the parse has finished.
    pub complete: bool,
}

/// An observer of parsing progress. Reports are fire-and-forget: what the
/// observer does with them has no effect on the parse.
pub trait ProgressSink {
    /// Receives one report.
    fn report(&mut self, progress: ParseProgress);
}

/// A sink that keeps every report.
pub struct ProgressLog {
    pub entries: Vec<ParseProgress>,
}

impl ProgressSink for ProgressLog {
    fn report(&mut self, progress: ParseProgress) {
        self.entries.push(progress);
    }
}

/// Hands reports on to a sink and remembers, as a ghost log, every report
/// it has handed on.
pub struct ProgressRelay<S> {
    pub sink: S,
    pub sent: Ghost<Seq<ParseProgress>>,
}

impl<S: ProgressSink> ProgressRelay<S> {
    /// A relay to `sink` that has sent nothing yet.
    pub fn new(sink: S) -> (r: ProgressRelay<S>)
        ensures
            r.sent@ == Seq::<ParseProgress>::empty(),
    {
        ProgressRelay { sink, sent: Ghost(Seq::empty()) }
    }

    /// Hands `progress` on to the sink.
    pub fn send(&mut self, progress: ParseProgress)
        ensures
            final(self).sent@ == old(self).sent@.push(progress),
    {
        self.sink.report(progress);
        self.sent = Ghost(self.sent@.push(progress));
    }
}

/// The reports of one parse of a document of `total` lines that produced `n`
/// channels: a first report at zero; a last, complete report with every line
/// and every channel; at most `PROGRESS_STEPS + 2` reports in all; and counts
/// that stay in range and never go down.
pub open spec fn progress_reports_ok(reps: Seq<ParseProgress>, total: nat, n: nat) -> bool {
    &&& 2 <= reps.len() <= PROGRESS_STEPS + 2
    &&& reps[0] == ParseProgress {
        lines_done: 0,
        total_lines: total as usize,
        channels_parsed: 0,
        entries_seen: 0,
        complete: false,
    }
    &&& reps.last().complete
    &&& reps.last().lines_done == total
    &&& reps.last().channels_parsed == n
    &&& forall|j: int|
        0 <= j < reps.len() ==> {
            &&& (#[trigger] reps[j]).total_lines == total
            &&& reps[j].lines_done <= total
            &&& reps[j].channels_parsed <= n
            &&& (reps[j].complete ==> j == reps.len() - 1)
        }
    &&& forall|j: int|
        0 <= j < reps.len() - 1 ==> {
            &&& (#[trigger] reps[j]).lines_done <= reps[j + 1].lines_done
            &&& reps[j].channels_parsed <= reps[j + 1].channels_parsed
            &&& reps[j].entries_seen <= reps[j + 1].entries_seen
        }
}

/// The number of progress steps between two reports: a parse reports at its
/// start, each time another twentieth of the lines is done, and at its end.
pub const PROGRESS_STEPS: u64 = 20;

/// Which twentieth of the document `done` lines out of `total` reach.
pub open spec fn progress_bucket_of(done: nat, total: nat) -> nat {
    if total == 0 {
        0
    } else {
        done * (PROGRESS_STEPS as nat) / total
    }
}

/// Which twentieth of the document `done` lines out of `total` reach.
pub fn progress_bucket(done: usize, total: usize) -> (r: u128)
    ensures
        r == progress_bucket_of(done as nat, total as nat),
{
    if total == 0 {
        0
    } else {
        proof {
            assert((done as int) * (PROGRESS_STEPS as int) <= (usize::MAX as int) * 20)
                by (nonlinear_arith)
                requires
                    0 <= done <= usize::MAX,
            ;
            assert(usize::MAX <= 0xffff_ffff_ffff_ffff);
        }
        (done as u128) * (PROGRESS_STEPS as u128) / (total as u128)
    }
}

/// Parses a playlist document into its channels, in document order.
///
/// A metadata line (`#EXTINF...`) followed by a line that is not a directive
/// gives one channel; an entry without such a line is skipped and parsing goes
/// on. Parsing never fails.
pub fn parse_playlist(content: &str) -> (r: Vec<Channel>)
    ensures
        views(r@) == parse_document(content@),
{
    let mut relay = ProgressRelay::new(ProgressLog { entries: Vec::new() });
    parse_playlist_with_progress(content, &mut relay)
}

/// The reports that a parse with `total` lines has made so far, while it is
/// still going: the first at zero, none complete, counts in range and never
/// going down, and at most one more than the last twentieth reported.
pub open spec fn progress_so_far(
    log: Seq<ParseProgress>,
    total: nat,
    lines: nat,
    channels: nat,
    entries: nat,
    last_bucket: nat,
) -> bool {
    &&& 1 <= log.len() <= 1 + last_bucket
    &&& last_bucket <= PROGRESS_STEPS
    &&& log[0] == ParseProgress {
        lines_done: 0,
        total_lines: total as usize,
        channels_parsed: 0,
        entries_seen: 0,
        complete: false,
    }
    &&& forall|j: int|
        0 <= j < log.len() ==> {
            &&& (#[trigger] log[j]).total_lines == total
            &&& log[j].lines_done <= lines
            &&& log[j].channels_parsed <= channels
            &&& log[j].entries_seen <= entries
            &&& !log[j].complete
        }
    &&& forall|j: int|
        0 <= j < log.len() - 1 ==> {
            &&& (#[trigger] log[j]).lines_done <= log[j + 1].lines_done
            &&& log[j].channels_parsed <= log[j + 1].channels_parsed
            &&& log[j].entries_seen <= log[j + 1].entries_seen
        }
}

/// Parses a playlist document as `parse_playlist` does, and reports progress
/// through `relay`: once at the start, whenever the lines read reach another
/// twentieth of the document, and once at the end.
pub fn parse_playlist_with_progress<S: ProgressSink>(content: &str, relay: &mut ProgressRelay<S>) -> (r:
    Vec<Channel>)
    ensures
        views(r@) == parse_document(content@),
        final(relay).sent@.len() >= old(relay).sent@.len(),
        final(relay).sent@.take(old(relay).sent@.len() as int) == old(relay).sent@,
        progress_reports_ok(
            final(relay).sent@.skip(old(relay).sent@.len() as int),
            lines_of(content@).len(),
            r.len() as nat,
        ),
{
    let ghost base = relay.sent@;
    let chars = chars_of(content);
    let lines = split_lines(&chars);
    let ghost ls = lines_of(chars@);
    let metadata = chars_of("#EXTINF");
    let total = lines.len();
    let mut starts: Vec<usize> = Vec::new();
    let mut entries: usize = 0;
    let mut last_bucket: u128 = 0;
    let first = ParseProgress {
        lines_done: 0,
        total_lines: total,
        channels_parsed: 0,
        entries_seen: 0,
        complete: false,
    };
    let ghost mut log: Seq<ParseProgress> = seq![first];
    relay.send(first);
    assert(relay.sent@ =~= base + log);
    let mut i: usize = 0;
    assert(ls.skip(0) =~= ls);
    while i < lines.len()
        invariant
            i <= lines.len(),
            total == lines.len(),
            ls.len() == lines.len(),
            entries <= i,
            starts.len() <= i,
            ls == lines@.map_values(|l: Vec<char>| l@),
            metadata@ == "#EXTINF"@,
            forall|k: int| 0 <= k < starts.len() ==> #[trigger] starts@[k] + 1 < lines.len(),
            parse_lines(ls) == channels_at(ls, starts@) + parse_lines(ls.skip(i as int)),
            relay.sent@ == base + log,
            progress_so_far(
                log,
                total as nat,
                i as nat,
                starts.len() as nat,
                entries as nat,
                last_bucket as nat,
            ),
        decreases lines.len() - i,
    {
        let ghost rest = ls.skip(i as int);
        assert(rest[0] == lines@[i as int]@);
        let is_entry = matches_at(&lines[i], &metadata, 0);
        if is_entry {
            entries += 1;
        }
        if is_entry && i + 1 < lines.len() && !(lines[i + 1].len() > 0 && lines[i + 1][0]
            == '#') {
            assert(rest[1] == lines@[i + 1]@);
            let ghost old_starts = starts@;
            starts.push(i);
            assert(rest.skip(2) =~= ls.skip(i + 2));
            assert(channels_at(ls, starts@) =~= channels_at(ls, old_starts).push(
                channel_of(rest[0], rest[1]),
            ));
            i += 2;
        } else {
            assert(rest.skip(1) =~= ls.skip(i + 1));
            i += 1;
        }
        let bucket = progress_bucket(i, total);
        proof {
            let t = total as int;
            let d = i as int;
            if t > 0 {
                assert(d * 20 <= t * 20) by (nonlinear_arith)
                    requires
                        0 <= d <= t,
                ;
                assert((d * 20) / t <= (t * 20) / t) by {
                    vstd::arithmetic::div_mod::lemma_div_is_ordered(d * 20, t * 20, t);
                }
                assert((t * 20) / t == 20) by {
                    vstd::arithmetic::div_mod::lemma_div_by_multiple(20, t);
                }
            }
        }
        if bucket > last_bucket {
            last_bucket = bucket;
            let p = ParseProgress {
                lines_done: i,
                total_lines: total,
                channels_parsed: starts.len(),
                entries_seen: entries,
                complete: false,
            };
            relay.send(p);
            proof {
                let old_log = log;
                log = log.push(p);
                assert(relay.sent@ =~= base + log);
                assert forall|j: int| 0 <= j < log.len() - 1 implies {
                    &&& (#[trigger] log[j]).lines_done <= log[j + 1].lines_done
                    &&& log[j].channels_parsed <= log[j + 1].channels_parsed
                    &&& log[j].entries_seen <= log[j + 1].entries_seen
                } by {
                    if j < old_log.len() - 1 {
                        assert(log[j] == old_log[j] && log[j + 1] == old_log[j + 1]);
                    } else {
                        assert(log[j] == old_log[j]);
                    }
                }
                assert forall|j: int| 0 <= j < log.len() implies {
                    &&& (#[trigger] log[j]).total_lines == total
                    &&& log[j].lines_done <= i
                    &&& log[j].channels_parsed <= starts.len()
                    &&& log[j].entries_seen <= entries
                    &&& !log[j].complete
                } by {
                    if j < old_log.len() {
                        assert(log[j] == old_log[j]);
                    }
                }
            }
        }
    }
    let last = ParseProgress {
        lines_done: total,
        total_lines: total,
        channels_parsed: starts.len(),
        entries_seen: entries,
        complete: true,
    };
    relay.send(last);
    proof {
        let old_log = log;
        log = log.push(last);
        assert(relay.sent@ =~= base + log);
        assert forall|j: int| 0 <= j < log.len() - 1 implies {
            &&& (#[trigger] log[j]).lines_done <= log[j + 1].lines_done
            &&& log[j].channels_parsed <= log[j + 1].channels_parsed
            &&& log[j].entries_seen <= log[j + 1].entries_seen
        } by {
            if j < old_log.len() - 1 {
                assert(log[j] == old_log[j] && log[j + 1] == old_log[j + 1]);
            } else {
                assert(log[j] == old_log[j]);
            }
        }
        assert forall|j: int| 0 <= j < log.len() implies {
            &&& (#[trigger] log[j]).total_lines == total
            &&& log[j].lines_done <= total
            &&& log[j].channels_parsed <= starts.len()
            &&& (log[j].complete ==> j == log.len() - 1)
        } by {
            if j < old_log.len() {
                assert(log[j] == old_log[j]);
            }
        }
        assert(progress_reports_ok(log, total as nat, starts.len() as nat));
    }
    assert(ls.skip(i as int) =~= seq![]);
    assert(channels_at(ls, starts@) + seq![] =~= channels_at(ls, starts@));
    let mut names: Vec<String> = Vec::new();
    let mut k: usize = 0;
    while k < starts.len()
        invariant
            k <= starts.len(),
            names.len() == k,
            ls == lines@.map_values(|l: Vec<char>| l@),
            forall|j: int| 0 <= j < starts.len() ==> #[trigger] starts@[j] + 1 < lines.len(),
            forall|j: int|
                0 <= j < k ==> #[trigger] names@[j]@ == display_name(ls[starts@[j] as int]),
        decreases starts.len() - k,
    {
        names.push(name_of(&lines[starts[k]]));
        k += 1;
    }
    let resolutions = regex_groups(RESOLUTION_PATTERN, &names);
    let extras = regex_groups(EXTRA_INFO_PATTERN, &names);
    let mut out: Vec<Channel> = Vec::new();
    let mut k: usize = 0;
    while k < starts.len()
        invariant
            k <= starts.len(),
            names.len() == starts.len(),
            resolutions.len() == starts.len(),
            extras.len() == starts.len(),
            ls == lines@.map_values(|l: Vec<char>| l@),
            forall|j: int| 0 <= j < starts.len() ==> #[trigger] starts@[j] + 1 < lines.len(),
            forall|j: int|
                0 <= j < starts.len() ==> #[trigger] names@[j]@ == display_name(
                    ls[starts@[j] as int],
                ),
            forall|j: int|
                0 <= j < starts.len() ==> #[trigger] opt_view(resolutions@[j]) == regex_group_of(
                    RESOLUTION_PATTERN@,
                    names@[j]@,
                ),
            forall|j: int|
                0 <= j < starts.len() ==> #[trigger] opt_view(extras@[j]) == regex_group_of(
                    EXTRA_INFO_PATTERN@,
                    names@[j]@,
                ),
            views(out@) == channels_at(ls, starts@.take(k as int)),
        decreases starts.len() - k,
    {
        let m = starts[k];
        let c = channel_from(
            &lines[m],
            &lines[m + 1],
            names[k].clone(),
            unwrap_or_empty(resolutions[k].clone()),
            unwrap_or_empty(extras[k].clone()),
        );
        let ghost old_out = out@;
        out.push(c);
        proof {
            assert(starts@.take(k + 1) =~= starts@.take(k as int).push(m));
            assert(views(out@) =~= views(old_out).push(c@));
            assert(channels_at(ls, starts@.take(k + 1)) =~= channels_at(
                ls,
                starts@.take(k as int),
            ).push(channel_of(ls[m as int], ls[m + 1])));
        }
        k += 1;
    }
    assert(starts@.take(k as int) =~= starts@);
    assert(relay.sent@.take(base.len() as int) =~= base);
    assert(relay.sent@.skip(base.len() as int) =~= log);
    out
}

} // verus!

verus! {

/// Parsing is a function of the document: two parses of the same text give
/// the same channels in the same order.
pub proof fn parsing_is_deterministic(a: Seq<char>, b: Seq<char>, ra: Seq<Channel>, rb: Seq<Channel>)
    requires
        a == b,
        views(ra) == parse_document(a),
        views(rb) == parse_document(b),
    ensures
        views(ra) == views(rb),
{
}

/// A metadata line that is the last line, or is followed by a directive,
/// gives no channel, and parsing goes on with the next line.
pub proof fn entry_without_url_is_skipped(ls: Seq<Seq<char>>)
    requires
        ls.len() >= 1,
        is_metadata(ls[0]),
        ls.len() == 1 || is_directive(ls[1]),
    ensures
        parse_lines(ls) == parse_lines(ls.skip(1)),
{
}

} // verus!
