use vstd::prelude::*;
use crate::error::Error;

verus! {

/// A device as the host lists it: its name and its channel count.
#[derive(Debug, Clone)]
pub struct DeviceInfo {
    pub name: String,
    pub num_channels: u16,
}

impl DeviceInfo {
    /// The name and the channel count.
    pub open spec fn view_pair(self) -> (Seq<char>, u16) {
        (self.name@, self.num_channels)
    }
}

/// The devices that a driver reported, each with its name and, where the
/// driver could tell, the channel count of its default configuration.
pub open spec fn found_views(found: Seq<(String, Option<u16>)>) -> Seq<(Seq<char>, Option<u16>)> {
    found.map_values(|e: (String, Option<u16>)| (e.0@, e.1))
}

/// The devices that can be listed: those whose channel count is known, in
/// the order the driver reported them.
pub open spec fn listable(found: Seq<(Seq<char>, Option<u16>)>) -> Seq<(Seq<char>, u16)>
    decreases found.len(),
{
    if found.len() == 0 {
        Seq::empty()
    } else {
        listable(found.drop_last()) + match found.last().1 {
            Some(c) => seq![(found.last().0, c)],
            None => Seq::empty(),
        }
    }
}

/// The device list to show: each reported device whose default
/// configuration is known, with that configuration's channel count.
pub fn list_devices(found: &Vec<(String, Option<u16>)>) -> (r: Vec<DeviceInfo>)
    ensures
        r@.map_values(|d: DeviceInfo| d.view_pair()) == listable(found_views(found@)),
        r@.map_values(|d: DeviceInfo| (d.name@, d.num_channels)) == found@.filter_map(
            |e: (String, Option<u16>)|
                match e.1 {
                    Some(c) => Some((e.0@, c)),
                    None => None,
                },
        ),
{
    let ghost views = found_views(found@);
    let mut r: Vec<DeviceInfo> = Vec::new();
    let mut i: usize = 0;
    while i < found.len()
        invariant
            i <= found.len(),
            views == found_views(found@),
            r@.map_values(|d: DeviceInfo| d.view_pair()) == listable(views.take(i as int)),
        decreases found.len() - i,
    {
        proof {
            assert(views.take(i + 1).drop_last() =~= views.take(i as int));
            assert(views.take(i + 1).last() == views[i as int]);
        }
        match found[i].1 {
            Some(c) => {
                let name = found[i].0.clone();
                r.push(DeviceInfo { name, num_channels: c });
                assert(r@.map_values(|d: DeviceInfo| d.view_pair()) =~= listable(views.take(i as int)).push((views[i as int].0, c)));
            },
            None => {},
        }
        i = i + 1;
    }
    assert(views.take(i as int) =~= views);
    proof {
        lemma_listable_keeps_reported_counts(found@);
        assert(r@.map_values(|d: DeviceInfo| (d.name@, d.num_channels)) =~= r@.map_values(
            |d: DeviceInfo| d.view_pair(),
        ));
    }
    r
}

/// Listing keeps exactly the reported devices whose channel count is known,
/// in their order, each with its name and the reported count unchanged.
pub proof fn lemma_listable_keeps_reported_counts(found: Seq<(String, Option<u16>)>)
    ensures
        listable(found_views(found)) == found.filter_map(
            |e: (String, Option<u16>)|
                match e.1 {
                    Some(c) => Some((e.0@, c)),
                    None => None,
                },
        ),
    decreases found.len(),
{
    let f = |e: (String, Option<u16>)|
        match e.1 {
            Some(c) => Some((e.0@, c)),
            None => None,
        };
    if found.len() > 0 {
        lemma_listable_keeps_reported_counts(found.drop_last());
        assert(found_views(found).drop_last() =~= found_views(found.drop_last()));
        assert(found_views(found).last() == (found.last().0@, found.last().1));
        assert(found.filter_map(f) == found.drop_last().filter_map(f) + match f(found.last()) {
            Some(s) => seq![s],
            None => Seq::empty(),
        });
        assert(listable(found_views(found)) =~= found.filter_map(f));
    } else {
        assert(listable(found_views(found)) =~= found.filter_map(f));
    }
}

/// The shape of a stream: channels in each direction, rate and block size.
#[derive(Debug, Clone, Copy, PartialEq, Eq)]
pub struct Config {
    pub num_input_channels: u16,
    pub num_output_channels: u16,
    pub sample_rate: u32,
    pub num_frames: usize,
}

impl Default for Config {
    /// Stereo in and out at 48 kHz with blocks of 512 frames.
    fn default() -> (c: Self)
        ensures
            c == Config::default_spec(),
            c.num_input_channels == 2 && c.num_output_channels == 2,
            c.sample_rate == 48000 && c.num_frames == 512,
    {
        Config { num_input_channels: 2, num_output_channels: 2, sample_rate: 48000, num_frames: 512 }
    }
}

impl Config {
    /// Stereo in and out at 48 kHz with blocks of 512 frames.
    pub open spec fn default_spec() -> Config {
        Config { num_input_channels: 2, num_output_channels: 2, sample_rate: 48000, num_frames: 512 }
    }

    /// The configuration opens at least one direction, runs at a positive
    /// rate and moves blocks of at least one frame.
    pub open spec fn is_valid(self) -> bool {
        &&& (self.num_input_channels > 0 || self.num_output_channels > 0)
        &&& self.sample_rate > 0
        &&& self.num_frames > 0
    }

    /// Checks the configuration; the first rule that fails names the error.
    pub fn validate(&self) -> (r: Result<(), Error>)
        ensures
            r is Ok <==> self.is_valid(),
            r is Ok <==> ((self.num_input_channels > 0 || self.num_output_channels > 0)
                && self.sample_rate > 0 && self.num_frames > 0),
            self.num_input_channels == 0 && self.num_output_channels == 0 ==> r == Err::<(), Error>(
                Error::InvalidConfig(
                    "at least one of num_input_channels or num_output_channels must be > 0",
                ),
            ),
            (self.num_input_channels > 0 || self.num_output_channels > 0) && self.sample_rate == 0
                ==> r == Err::<(), Error>(Error::InvalidConfig("sample_rate must be > 0")),
            (self.num_input_channels > 0 || self.num_output_channels > 0) && self.sample_rate > 0
                && self.num_frames == 0 ==> r == Err::<(), Error>(
                Error::InvalidConfig("num_frames must be > 0"),
            ),
    {
        if self.num_input_channels == 0 && self.num_output_channels == 0 {
            return Err(
                Error::InvalidConfig(
                    "at least one of num_input_channels or num_output_channels must be > 0",
                ),
            );
        }
        if self.sample_rate == 0 {
            return Err(Error::InvalidConfig("sample_rate must be > 0"));
        }
        if self.num_frames == 0 {
            return Err(Error::InvalidConfig("num_frames must be > 0"));
        }
        Ok(())
    }
}

/// The default configuration passes validation.
pub proof fn lemma_default_config_is_valid()
    ensures
        Config::default_spec().is_valid(),
{
}

/// A configuration is valid exactly when it opens some direction, runs at a
/// positive rate and moves blocks of at least one frame.
pub proof fn lemma_valid_means_channels_rate_frames(c: Config)
    ensures
        c.is_valid() <==> ((c.num_input_channels > 0 || c.num_output_channels > 0) && c.sample_rate
            > 0 && c.num_frames > 0),
{
}

/// The default configuration is stereo in and out at 48 kHz with blocks of
/// 512 frames.
pub proof fn lemma_default_is_stereo_48k()
    ensures
        Config::default_spec().num_input_channels == 2,
        Config::default_spec().num_output_channels == 2,
        Config::default_spec().sample_rate == 48000,
        Config::default_spec().num_frames == 512,
{
}

} // verus!
