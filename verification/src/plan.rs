use vstd::prelude::*;
use crate::config::Config;
use crate::error::Error;
use crate::ring::{
    lemma_ring_holds_latency_and_ten_blocks, latency_samples_spec, max_ring_capacity,
    ring_capacity_spec, ring_layout, RingLayout,
};

verus! {

/// A stream to open on a device.
#[derive(Debug, Clone, Copy, PartialEq, Eq)]
pub struct StreamSpec {
    pub channels: u16,
    pub sample_rate: u32,
    /// The fixed buffer size asked of the driver, in frames.
    pub buffer_frames: u32,
}

/// The streams that a start opens, and how input reaches the process
/// callback.
#[derive(Debug, Clone, Copy, PartialEq, Eq)]
pub enum StartPlan {
    /// Both directions: the input stream writes into the ring, and the
    /// output stream reads blocks of `block_frames` frames from it before it
    /// calls the process callback.
    Duplex { input: StreamSpec, output: StreamSpec, ring: RingLayout, block_frames: usize },
    /// Output alone: the process callback gets an empty input block.
    OutputOnly { output: StreamSpec },
    /// Input alone: the process callback gets the input stream's data and an
    /// empty output block.
    InputOnly { input: StreamSpec },
}

/// The stream that carries `channels` channels of `config`.
pub open spec fn stream_for(config: Config, channels: u16) -> StreamSpec {
    StreamSpec {
        channels,
        sample_rate: config.sample_rate,
        buffer_frames: config.num_frames as u32,
    }
}

/// The input direction is opened: it is asked for and a device is there.
pub open spec fn opens_input(config: Config, has_input_device: bool) -> bool {
    has_input_device && config.num_input_channels > 0
}

/// The output direction is opened: it is asked for and a device is there.
pub open spec fn opens_output(config: Config, has_output_device: bool) -> bool {
    has_output_device && config.num_output_channels > 0
}

/// What a start does with `config`, given which devices are selected.
pub open spec fn start_plan_spec(config: Config, has_input_device: bool, has_output_device: bool) -> Result<StartPlan, Error> {
    let input = stream_for(config, config.num_input_channels);
    let output = stream_for(config, config.num_output_channels);
    if opens_output(config, has_output_device) {
        if opens_input(config, has_input_device) {
            Ok(StartPlan::Duplex {
                input,
                output,
                ring: RingLayout {
                    capacity: ring_capacity_spec(config) as usize,
                    prefill: latency_samples_spec(config.sample_rate, config.num_input_channels) as usize,
                },
                block_frames: config.num_frames,
            })
        } else {
            Ok(StartPlan::OutputOnly { output })
        }
    } else if config.num_output_channels == 0 && opens_input(config, has_input_device) {
        Ok(StartPlan::InputOnly { input })
    } else {
        Err(Error::NotFound)
    }
}

/// A zero channel count closes that direction: with no input channels and
/// an output device, only output is opened; with no output channels and an
/// input device, only input is opened.
pub proof fn lemma_zero_channels_open_one_direction(
    config: Config,
    has_input_device: bool,
    has_output_device: bool,
)
    ensures
        config.num_input_channels == 0 && opens_output(config, has_output_device) ==> start_plan_spec(
            config,
            has_input_device,
            has_output_device,
        ) == Ok::<StartPlan, Error>(
            StartPlan::OutputOnly { output: stream_for(config, config.num_output_channels) },
        ),
        config.num_output_channels == 0 && opens_input(config, has_input_device) ==> start_plan_spec(
            config,
            has_input_device,
            has_output_device,
        ) == Ok::<StartPlan, Error>(
            StartPlan::InputOnly { input: stream_for(config, config.num_input_channels) },
        ),
{
}

/// A start that opens neither direction fails with `NotFound`, and so does
/// one whose requested output has no device.
pub proof fn lemma_start_fails_without_devices(
    config: Config,
    has_input_device: bool,
    has_output_device: bool,
)
    ensures
        start_plan_spec(config, has_input_device, has_output_device) is Err <==> (
        !opens_output(config, has_output_device) && !(config.num_output_channels == 0
            && opens_input(config, has_input_device))),
        start_plan_spec(config, has_input_device, has_output_device) is Err ==> start_plan_spec(
            config,
            has_input_device,
            has_output_device,
        ) == Err::<StartPlan, Error>(Error::NotFound),
{
}

/// Each planned stream carries the configuration's own channel count for
/// its direction, its rate and its block size (cut to `u32`, the driver's
/// buffer-size type); a duplex ring holds a tenth of a second of input
/// frames and ten input blocks on top.  Which streams open: both when both
/// directions are asked for and have a device, output alone when only that
/// one does, input alone when no output channels are asked for, and
/// otherwise none, with `NotFound`.
pub proof fn lemma_plan_follows_config(config: Config, has_input_device: bool, has_output_device: bool)
    requires
        has_input_device && config.num_input_channels > 0 && has_output_device
            && config.num_output_channels > 0 ==> (config.sample_rate / 10)
            * config.num_input_channels + 10 * config.num_input_channels * config.num_frames
            <= usize::MAX / 8,
    ensures
        ({
            let r = start_plan_spec(config, has_input_device, has_output_device);
            &&& (r matches Ok(StartPlan::Duplex { .. })) <==> (has_input_device
                && config.num_input_channels > 0 && has_output_device && config.num_output_channels
                > 0)
            &&& (r matches Ok(StartPlan::OutputOnly { .. })) <==> (has_output_device
                && config.num_output_channels > 0 && !(has_input_device && config.num_input_channels
                > 0))
            &&& (r matches Ok(StartPlan::InputOnly { .. })) <==> (config.num_output_channels == 0
                && has_input_device && config.num_input_channels > 0)
            &&& r is Err ==> r == Err::<StartPlan, Error>(Error::NotFound)
            &&& r matches Ok(StartPlan::Duplex { input, output, ring, block_frames }) ==> {
                &&& input.channels == config.num_input_channels
                &&& input.sample_rate == config.sample_rate
                &&& input.buffer_frames == config.num_frames as u32
                &&& output.channels == config.num_output_channels
                &&& output.sample_rate == config.sample_rate
                &&& output.buffer_frames == config.num_frames as u32
                &&& ring.prefill == (config.sample_rate / 10) * config.num_input_channels
                &&& ring.capacity == ring.prefill + 10 * config.num_input_channels * config.num_frames
                &&& block_frames == config.num_frames
            }
            &&& r matches Ok(StartPlan::OutputOnly { output }) ==> {
                &&& output.channels == config.num_output_channels
                &&& output.sample_rate == config.sample_rate
                &&& output.buffer_frames == config.num_frames as u32
            }
            &&& r matches Ok(StartPlan::InputOnly { input }) ==> {
                &&& input.channels == config.num_input_channels
                &&& input.sample_rate == config.sample_rate
                &&& input.buffer_frames == config.num_frames as u32
            }
        }),
{
    lemma_ring_holds_latency_and_ten_blocks(config);
}

impl StreamSpec {
    fn for_channels(config: &Config, channels: u16) -> (s: StreamSpec)
        ensures
            s == stream_for(*config, channels),
            s.channels == channels && s.sample_rate == config.sample_rate,
            s.buffer_frames == config.num_frames as u32,
    {
        StreamSpec {
            channels,
            sample_rate: config.sample_rate,
            buffer_frames: config.num_frames as u32,
        }
    }
}

impl StartPlan {
    /// The streams to open for `config`.  A requested output needs an output
    /// device; without output, a requested input with its device is opened
    /// alone; with neither, there is nothing to start.
    pub fn for_config(config: &Config, has_input_device: bool, has_output_device: bool) -> (r: Result<StartPlan, Error>)
        requires
            opens_input(*config, has_input_device) && opens_output(*config, has_output_device)
                ==> ring_capacity_spec(*config) <= max_ring_capacity(),
        ensures
            r == start_plan_spec(*config, has_input_device, has_output_device),
            (r matches Ok(StartPlan::Duplex { .. })) <==> (has_input_device
                && config.num_input_channels > 0 && has_output_device && config.num_output_channels
                > 0),
            (r matches Ok(StartPlan::OutputOnly { .. })) <==> (has_output_device
                && config.num_output_channels > 0 && !(has_input_device && config.num_input_channels
                > 0)),
            (r matches Ok(StartPlan::InputOnly { .. })) <==> (config.num_output_channels == 0
                && has_input_device && config.num_input_channels > 0),
            r is Err ==> r == Err::<StartPlan, Error>(Error::NotFound),
            r matches Ok(StartPlan::Duplex { input, output, ring, block_frames }) ==> {
                &&& input.channels == config.num_input_channels
                &&& input.sample_rate == config.sample_rate
                &&& input.buffer_frames == config.num_frames as u32
                &&& output.channels == config.num_output_channels
                &&& output.sample_rate == config.sample_rate
                &&& output.buffer_frames == config.num_frames as u32
                &&& ring.prefill == (config.sample_rate / 10) * config.num_input_channels
                &&& ring.capacity == ring.prefill + 10 * config.num_input_channels * config.num_frames
                &&& block_frames == config.num_frames
            },
            r matches Ok(StartPlan::OutputOnly { output }) ==> {
                &&& output.channels == config.num_output_channels
                &&& output.sample_rate == config.sample_rate
                &&& output.buffer_frames == config.num_frames as u32
            },
            r matches Ok(StartPlan::InputOnly { input }) ==> {
                &&& input.channels == config.num_input_channels
                &&& input.sample_rate == config.sample_rate
                &&& input.buffer_frames == config.num_frames as u32
            },
    {
        proof {
            lemma_ring_holds_latency_and_ten_blocks(*config);
            lemma_plan_follows_config(*config, has_input_device, has_output_device);
        }
        let has_input = has_input_device && config.num_input_channels > 0;
        let has_output = has_output_device && config.num_output_channels > 0;
        let input = StreamSpec::for_channels(config, config.num_input_channels);
        let output = StreamSpec::for_channels(config, config.num_output_channels);
        if has_output {
            if has_input {
                match ring_layout(config) {
                    Some(ring) => Ok(StartPlan::Duplex { input, output, ring, block_frames: config.num_frames }),
                    None => vstd::pervasive::unreached(),
                }
            } else {
                Ok(StartPlan::OutputOnly { output })
            }
        } else if config.num_output_channels == 0 && has_input {
            Ok(StartPlan::InputOnly { input })
        } else {
            Err(Error::NotFound)
        }
    }

    /// The plan for `config` as `for_config` makes it, or nothing when both
    /// directions open and the ring between them cannot be allocated.
    pub fn try_for_config(config: &Config, has_input_device: bool, has_output_device: bool) -> (r: Option<Result<StartPlan, Error>>)
        ensures
            r is None <==> (opens_input(*config, has_input_device) && opens_output(*config, has_output_device)
                && ring_capacity_spec(*config) > max_ring_capacity()),
            r matches Some(plan) ==> plan == start_plan_spec(*config, has_input_device, has_output_device),
            r is None <==> (has_input_device && config.num_input_channels > 0 && has_output_device
                && config.num_output_channels > 0 && (config.sample_rate / 10)
                * config.num_input_channels + 10 * config.num_input_channels * config.num_frames
                > usize::MAX / 8),
    {
        proof {
            lemma_ring_holds_latency_and_ten_blocks(*config);
        }
        let duplex = has_input_device && config.num_input_channels > 0 && has_output_device
            && config.num_output_channels > 0;
        if duplex && ring_layout(config).is_none() {
            None
        } else {
            Some(StartPlan::for_config(config, has_input_device, has_output_device))
        }
    }

    /// Channels and frames of the block that holds one callback's input
    /// when the output stream drives the callback.
    pub fn input_block_shape(&self) -> (r: (u16, usize))
        ensures
            self matches StartPlan::Duplex { input, block_frames, .. } ==> r == (input.channels, *block_frames),
            !(self is Duplex) ==> r == (1u16, 0usize),
    {
        match self {
            StartPlan::Duplex { input, block_frames, .. } => (input.channels, *block_frames),
            _ => (1, 0),
        }
    }
}

} // verus!
