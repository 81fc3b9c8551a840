//! The terminal client's playlist reading: entries are found by regular
//! expressions over the whole document, and each channel notes whether its
//! URL is among the favorites.

use vstd::prelude::*;
use crate::groups::string_views;
use crate::ranking::{rank_positions, ranked_positions};
use crate::text::{
    edit_distance, levenshtein, lower_of, lowercase, opt_view, or_empty, regex_group_of, regex_groups,
    regex_matches, regex_matches_of, skim_score_of, skim_scores, unwrap_or_empty,
};

verus! {

/// A channel as the terminal client shows it.
#[derive(Clone, Debug, PartialEq, Eq)]
pub struct Channel {
    pub name: String,
    pub id: String,
    pub logo: String,
    pub favorite: bool,
    pub group: String,
    pub url: String,
}

/// A terminal channel's fields as character sequences.
pub struct ChannelView {
    pub name: Seq<char>,
    pub id: Seq<char>,
    pub logo: Seq<char>,
    pub favorite: bool,
    pub group: Seq<char>,
    pub url: Seq<char>,
}

impl View for Channel {
    type V = ChannelView;

    open spec fn view(&self) -> ChannelView {
        ChannelView {
            name: self.name@,
            id: self.id@,
            logo: self.logo@,
            favorite: self.favorite,
            group: self.group@,
            url: self.url@,
        }
    }
}

/// An entry: a metadata line and the HTTP(S) URL on the line after it.
pub const ENTRY_PATTERN: &'static str = "EXTINF:-?1?[^\\n]+\\n(https?://\\S+)";

pub const ID_PATTERN: &'static str = "tvg-id=\"(.*?)\"";

pub const TVG_NAME_PATTERN: &'static str = "tvg-name=\"(.*?)\"";

pub const LOGO_PATTERN: &'static str = "tvg-logo=\"(.*?)\"";

pub const GROUP_PATTERN: &'static str = "group-title=\"(.*?)\"";

pub const URL_PATTERN: &'static str = "EXTINF[^\\n]+\\n(https?://\\S+)";

/// The text after the first comma, up to the end of its line.
pub const TAIL_NAME_PATTERN: &'static str = ",([^\\n]+)";

/// The channel of entry text `t`: its `tvg-name`, or else the text after its
/// first comma; its `tvg-id`, logo, group and URL (empty when absent); and
/// whether the URL is one of `favorite_urls`.
pub open spec fn entry_channel(t: Seq<char>, favorite_urls: Seq<Seq<char>>) -> ChannelView {
    let url = or_empty(regex_group_of(URL_PATTERN@, t));
    ChannelView {
        name: match regex_group_of(TVG_NAME_PATTERN@, t) {
            Some(n) => n,
            None => or_empty(regex_group_of(TAIL_NAME_PATTERN@, t)),
        },
        id: or_empty(regex_group_of(ID_PATTERN@, t)),
        logo: or_empty(regex_group_of(LOGO_PATTERN@, t)),
        favorite: favorite_urls.contains(url),
        group: or_empty(regex_group_of(GROUP_PATTERN@, t)),
        url: url,
    }
}

/// The channels of a document, one per entry, in document order.
pub open spec fn terminal_channels(content: Seq<char>, favorite_urls: Seq<Seq<char>>) -> Seq<ChannelView> {
    regex_matches_of(ENTRY_PATTERN@, content).map_values(|t: Seq<char>| entry_channel(t, favorite_urls))
}

/// The URLs of a channel list.
pub open spec fn urls_of(s: Seq<Channel>) -> Seq<Seq<char>> {
    s.map_values(|c: Channel| c.url@)
}

/// Whether `s` holds a string equal to `x`.
fn contains_string(s: &Vec<String>, x: &String) -> (r: bool)
    ensures
        r == string_views(s@).contains(x@),
{
    let mut i: usize = 0;
    while i < s.len()
        invariant
            i <= s.len(),
            forall|j: int| 0 <= j < i ==> string_views(s@)[j] != x@,
        decreases s.len() - i,
    {
        if s[i] == *x {
            assert(string_views(s@)[i as int] == x@);
            return true;
        }
        i += 1;
    }
    false
}

/// Reads the channels of a playlist document: one per metadata line that is
/// followed by an HTTP(S) URL line, in document order, each marked as a
/// favorite when its URL is the URL of one of `favorites`.
pub fn parse_channels(m3u_content: &str, favorites: &[Channel]) -> (r: Vec<Channel>)
    ensures
        r@.map_values(|c: Channel| c@) == terminal_channels(m3u_content@, urls_of(favorites@)),
{
    let texts = regex_matches(ENTRY_PATTERN, m3u_content);
    let ghost ts = regex_matches_of(ENTRY_PATTERN@, m3u_content@);
    let mut favorite_urls: Vec<String> = Vec::new();
    let mut f: usize = 0;
    while f < favorites.len()
        invariant
            f <= favorites.len(),
            string_views(favorite_urls@) == urls_of(favorites@.take(f as int)),
        decreases favorites.len() - f,
    {
        let ghost before = favorite_urls@;
        favorite_urls.push(favorites[f].url.clone());
        proof {
            assert(string_views(favorite_urls@) =~= string_views(before).push(favorites@[f as int].url@));
            assert(favorites@.take(f + 1) =~= favorites@.take(f as int).push(favorites@[f as int]));
            assert(string_views(favorite_urls@) =~= urls_of(favorites@.take(f + 1)));
        }
        f += 1;
    }
    assert(favorites@.take(f as int) =~= favorites@);
    let ids = regex_groups(ID_PATTERN, &texts);
    let tvg_names = regex_groups(TVG_NAME_PATTERN, &texts);
    let logos = regex_groups(LOGO_PATTERN, &texts);
    let groups = regex_groups(GROUP_PATTERN, &texts);
    let urls = regex_groups(URL_PATTERN, &texts);
    let tails = regex_groups(TAIL_NAME_PATTERN, &texts);
    let mut out: Vec<Channel> = Vec::new();
    let mut i: usize = 0;
    while i < texts.len()
        invariant
            i <= texts.len(),
            ts == texts@.map_values(|s: String| s@),
            string_views(favorite_urls@) == urls_of(favorites@),
            ids.len() == texts.len() && tvg_names.len() == texts.len() && logos.len()
                == texts.len() && groups.len() == texts.len() && urls.len() == texts.len()
                && tails.len() == texts.len(),
            forall|j: int|
                0 <= j < texts.len() ==> #[trigger] opt_view(ids@[j]) == regex_group_of(
                    ID_PATTERN@,
                    texts@[j]@,
                ),
            forall|j: int|
                0 <= j < texts.len() ==> #[trigger] opt_view(tvg_names@[j]) == regex_group_of(
                    TVG_NAME_PATTERN@,
                    texts@[j]@,
                ),
            forall|j: int|
                0 <= j < texts.len() ==> #[trigger] opt_view(logos@[j]) == regex_group_of(
                    LOGO_PATTERN@,
                    texts@[j]@,
                ),
            forall|j: int|
                0 <= j < texts.len() ==> #[trigger] opt_view(groups@[j]) == regex_group_of(
                    GROUP_PATTERN@,
                    texts@[j]@,
                ),
            forall|j: int|
                0 <= j < texts.len() ==> #[trigger] opt_view(urls@[j]) == regex_group_of(
                    URL_PATTERN@,
                    texts@[j]@,
                ),
            forall|j: int|
                0 <= j < texts.len() ==> #[trigger] opt_view(tails@[j]) == regex_group_of(
                    TAIL_NAME_PATTERN@,
                    texts@[j]@,
                ),
            out@.map_values(|c: Channel| c@) == ts.take(i as int).map_values(
                |t: Seq<char>| entry_channel(t, urls_of(favorites@)),
            ),
        decreases texts.len() - i,
    {
        let name = match tvg_names[i].clone() {
            Some(n) => n,
            None => unwrap_or_empty(tails[i].clone()),
        };
        let url = unwrap_or_empty(urls[i].clone());
        let favorite = contains_string(&favorite_urls, &url);
        let c = Channel {
            name,
            id: unwrap_or_empty(ids[i].clone()),
            logo: unwrap_or_empty(logos[i].clone()),
            favorite,
            group: unwrap_or_empty(groups[i].clone()),
            url,
        };
        let ghost old_out = out@;
        out.push(c);
        proof {
            assert(ts[i as int] == texts@[i as int]@);
            let t = ts[i as int];
            let k = i as int;
            assert(opt_view(ids@[k]) == regex_group_of(ID_PATTERN@, t));
            assert(opt_view(tvg_names@[k]) == regex_group_of(TVG_NAME_PATTERN@, t));
            assert(opt_view(logos@[k]) == regex_group_of(LOGO_PATTERN@, t));
            assert(opt_view(groups@[k]) == regex_group_of(GROUP_PATTERN@, t));
            assert(opt_view(urls@[k]) == regex_group_of(URL_PATTERN@, t));
            assert(opt_view(tails@[k]) == regex_group_of(TAIL_NAME_PATTERN@, t));
            let e = entry_channel(t, urls_of(favorites@));
            assert(c@.url == e.url);
            assert(c@.favorite == e.favorite);
            assert(c@.id == e.id);
            assert(c@.logo == e.logo);
            assert(c@.group == e.group);
            assert(c@.name == e.name);
            assert(c@ == e);
            assert(ts.take(i + 1) =~= ts.take(i as int).push(ts[i as int]));
            assert(out@.map_values(|c: Channel| c@) =~= old_out.map_values(|c: Channel| c@).push(c@));
            assert(ts.take(i + 1).map_values(|t: Seq<char>| entry_channel(t, urls_of(favorites@)))
                =~= ts.take(i as int).map_values(
                |t: Seq<char>| entry_channel(t, urls_of(favorites@)),
            ).push(entry_channel(ts[i as int], urls_of(favorites@))));
        }
        i += 1;
    }
    assert(ts.take(i as int) =~= ts);
    out
}

/// The lowest fuzzy score at which the terminal client keeps a channel: it
/// keeps scores above 50.
pub const MIN_KEPT_SCORE: i64 = 51;

/// The fuzzy scores of the lower-cased names of `s` for the filter `q`.
pub open spec fn score_seq(s: Seq<Channel>, q: Seq<char>) -> Seq<Option<i64>> {
    s.map_values(|c: Channel| skim_score_of(lower_of(c.name@), q))
}

/// The edit distances between the names of `s`, as written, and `q`.
pub open spec fn distance_seq(s: Seq<Channel>, q: Seq<char>) -> Seq<usize> {
    s.map_values(|c: Channel| levenshtein(c.name@, q) as usize)
}

/// The largest value of `r`, or zero when `r` is empty.
pub open spec fn max_of(r: Seq<usize>) -> nat
    decreases r.len(),
{
    if r.len() == 0 {
        0
    } else if r.last() > max_of(r.drop_last()) {
        r.last() as nat
    } else {
        max_of(r.drop_last())
    }
}

/// The channels of `s` at the positions `ps`, in that order.
pub open spec fn channels_at(s: Seq<Channel>, ps: Seq<usize>) -> Seq<Channel> {
    ps.map_values(|p: usize| s[p as int])
}

/// The result of the terminal search: every channel for an empty filter;
/// otherwise, for the lower-cased filter, the channels scored at least
/// `MIN_KEPT_SCORE`, sorted by the edit distance of their name, ties in input
/// order.
pub open spec fn filtered(s: Seq<Channel>, filter: Seq<char>) -> Seq<Channel> {
    if filter.len() == 0 {
        s
    } else {
        let q = lower_of(filter);
        let d = distance_seq(s, q);
        channels_at(s, ranked_positions(score_seq(s, q), d, MIN_KEPT_SCORE, max_of(d)))
    }
}

/// A copy of a terminal channel, field for field.
fn duplicate(c: &Channel) -> (r: Channel)
    ensures
        r == *c,
{
    Channel {
        name: c.name.clone(),
        id: c.id.clone(),
        logo: c.logo.clone(),
        favorite: c.favorite,
        group: c.group.clone(),
        url: c.url.clone(),
    }
}

/// The terminal client's search, as `filtered` describes it: an empty filter
/// keeps every channel; otherwise the channels whose lower-cased name the
/// fuzzy matcher scores at least `MIN_KEPT_SCORE` for the lower-cased filter,
/// sorted by the edit distance of their name to it, ties in input order.
pub fn filter_channels(channels: &Vec<Channel>, filter: &str) -> (r: Vec<Channel>)
    ensures
        r@ == filtered(channels@, filter@),
{
    if filter.is_empty() {
        let mut all: Vec<Channel> = Vec::new();
        let mut i: usize = 0;
        while i < channels.len()
            invariant
                i <= channels.len(),
                all@ == channels@.take(i as int),
            decreases channels.len() - i,
        {
            all.push(duplicate(&channels[i]));
            i += 1;
            assert(all@ =~= channels@.take(i as int));
        }
        assert(channels@.take(i as int) =~= channels@);
        return all;
    }
    let q = lowercase(filter);
    let mut lowered: Vec<String> = Vec::new();
    let mut n: usize = 0;
    while n < channels.len()
        invariant
            n <= channels.len(),
            lowered.len() == n,
            forall|j: int| 0 <= j < n ==> #[trigger] lowered@[j]@ == lower_of(channels@[j].name@),
        decreases channels.len() - n,
    {
        lowered.push(lowercase(channels[n].name.as_str()));
        n += 1;
    }
    let scores = skim_scores(&lowered, q.as_str());
    proof {
        assert(scores@ =~= score_seq(channels@, q@));
    }
    let mut distances: Vec<usize> = Vec::new();
    let mut max: usize = 0;
    let mut i: usize = 0;
    while i < channels.len()
        invariant
            i <= channels.len(),
            distances@ == distance_seq(channels@.take(i as int), q@),
            max == max_of(distances@),
        decreases channels.len() - i,
    {
        let d = edit_distance(channels[i].name.as_str(), q.as_str());
        let ghost before = distances@;
        distances.push(d);
        if d > max {
            max = d;
        }
        proof {
            assert(distances@.drop_last() =~= before);
            assert(distance_seq(channels@.take(i + 1), q@) =~= distance_seq(
                channels@.take(i as int),
                q@,
            ).push(d));
        }
        i += 1;
    }
    proof {
        assert(channels@.take(i as int) =~= channels@);
    }
    let positions = rank_positions(&scores, &distances, MIN_KEPT_SCORE, max);
    let mut out: Vec<Channel> = Vec::new();
    let mut j: usize = 0;
    while j < positions.len()
        invariant
            j <= positions.len(),
            scores.len() == channels.len(),
            forall|k: int| 0 <= k < positions.len() ==> #[trigger] positions@[k] < channels.len(),
            out@ == channels_at(channels@, positions@.take(j as int)),
        decreases positions.len() - j,
    {
        out.push(duplicate(&channels[positions[j]]));
        proof {
            assert(positions@.take(j + 1) =~= positions@.take(j as int).push(positions@[j as int]));
            assert(out@ =~= channels_at(channels@, positions@.take(j + 1)));
        }
        j += 1;
    }
    assert(positions@.take(j as int) =~= positions@);
    out
}

} // verus!
