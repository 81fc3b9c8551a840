//! The channel record.

use vstd::prelude::*;

verus! {

/// One playable entry of a playlist.
#[derive(Clone, Debug, PartialEq, Eq)]
pub struct Channel {
    pub name: String,
    pub logo: String,
    pub url: String,
    pub group_title: String,
    pub tvg_id: String,
    pub resolution: String,
    pub extra_info: String,
}

/// A channel's fields as character sequences.
pub struct ChannelView {
    pub name: Seq<char>,
    pub logo: Seq<char>,
    pub url: Seq<char>,
    pub group_title: Seq<char>,
    pub tvg_id: Seq<char>,
    pub resolution: Seq<char>,
    pub extra_info: Seq<char>,
}

impl View for Channel {
    type V = ChannelView;

    open spec fn view(&self) -> ChannelView {
        ChannelView {
            name: self.name@,
            logo: self.logo@,
            url: self.url@,
            group_title: self.group_title@,
            tvg_id: self.tvg_id@,
            resolution: self.resolution@,
            extra_info: self.extra_info@,
        }
    }
}

/// The views of a sequence of channels.
pub open spec fn views(s: Seq<Channel>) -> Seq<ChannelView> {
    s.map_values(|c: Channel| c@)
}

impl Channel {
    /// A copy of this channel, field for field.
    pub fn duplicate(&self) -> (r: Channel)
        ensures
            r == *self,
    {
        Channel {
            name: self.name.clone(),
            logo: self.logo.clone(),
            url: self.url.clone(),
            group_title: self.group_title.clone(),
            tvg_id: self.tvg_id.clone(),
            resolution: self.resolution.clone(),
            extra_info: self.extra_info.clone(),
        }
    }
}

/// A copy of a channel list, in the same order; later changes to either
/// leave the other as it is.
pub fn copy_channels(v: &Vec<Channel>) -> (r: Vec<Channel>)
    ensures
        r@ == v@,
{
    let mut r: Vec<Channel> = Vec::with_capacity(v.len());
    let mut i: usize = 0;
    while i < v.len()
        invariant
            i <= v.len(),
            r@ == v@.take(i as int),
        decreases v.len() - i,
    {
        r.push(v[i].duplicate());
        i += 1;
        assert(r@ =~= v@.take(i as int));
    }
    assert(v@.take(i as int) =~= v@);
    r
}

} // verus!
