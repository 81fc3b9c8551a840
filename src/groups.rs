//! The group titles of a channel list.

use vstd::prelude::*;
use crate::channel::Channel;

verus! {

/// The group titles of a channel list, in order, repeats included.
pub open spec fn group_titles(s: Seq<Channel>) -> Seq<Seq<char>> {
    s.map_values(|c: Channel| c.group_title@)
}

/// The views of a list of strings.
pub open spec fn string_views(s: Seq<String>) -> Seq<Seq<char>> {
    s.map_values(|t: String| t@)
}

/// The distinct group titles of `channels`: each title once.
pub fn distinct_groups(channels: &Vec<Channel>) -> (r: Vec<String>)
    ensures
        forall|g: Seq<char>| #[trigger]
            string_views(r@).contains(g) <==> group_titles(channels@).contains(g),
        string_views(r@).no_duplicates(),
{
    let mut r: Vec<String> = Vec::new();
    let mut i: usize = 0;
    while i < channels.len()
        invariant
            i <= channels.len(),
            forall|g: Seq<char>| #[trigger]
                string_views(r@).contains(g) <==> group_titles(channels@.take(i as int)).contains(g),
            string_views(r@).no_duplicates(),
        decreases channels.len() - i,
    {
        let g = &channels[i].group_title;
        let mut found = false;
        let mut j: usize = 0;
        while j < r.len()
            invariant
                j <= r.len(),
                found ==> string_views(r@).contains(g@),
                !found ==> forall|k: int| 0 <= k < j ==> string_views(r@)[k] != g@,
            decreases r.len() - j,
        {
            if r[j] == *g {
                found = true;
                assert(string_views(r@)[j as int] == g@);
            }
            j += 1;
        }
        let ghost before = string_views(r@);
        let ghost old_titles = group_titles(channels@.take(i as int));
        if !found {
            r.push(g.clone());
            assert(string_views(r@) =~= before.push(g@));
        }
        proof {
            assert(group_titles(channels@.take(i + 1)) =~= old_titles.push(g@));
            assert forall|x: Seq<char>| #[trigger]
                string_views(r@).contains(x) <==> old_titles.push(g@).contains(x) by {
                if old_titles.push(g@).contains(x) {
                    let k = choose|k: int| 0 <= k < old_titles.len() + 1 && old_titles.push(g@)[k] == x;
                    if k < old_titles.len() {
                        assert(old_titles.contains(x));
                    }
                }
                if old_titles.contains(x) {
                    let k = choose|k: int| 0 <= k < old_titles.len() && old_titles[k] == x;
                    assert(old_titles.push(g@)[k] == x);
                }
                assert(old_titles.push(g@)[old_titles.len() as int] == g@);
                if !found {
                    if string_views(r@).contains(x) {
                        let k = choose|k: int| 0 <= k < before.len() + 1 && before.push(g@)[k] == x;
                        if k < before.len() {
                            assert(before.contains(x));
                        }
                    }
                    if before.contains(x) {
                        let k = choose|k: int| 0 <= k < before.len() && before[k] == x;
                        assert(before.push(g@)[k] == x);
                    }
                    assert(before.push(g@)[before.len() as int] == g@);
                }
            }
        }
        i += 1;
    }
    assert(channels@.take(i as int) =~= channels@);
    r
}

} // verus!
