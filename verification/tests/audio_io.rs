use audio_io::config::list_devices;
use audio_io::plan::{StartPlan, StreamSpec};
use audio_io::ring::{open_latency_ring, pop_samples, push_samples, ring_layout, RingLayout};
use audio_io::select::{chars_of, select_by_name, str_contains};
use audio_io::{Config, DeviceInfo, Error};

fn config(inputs: u16, outputs: u16, rate: u32, frames: usize) -> Config {
    Config { num_input_channels: inputs, num_output_channels: outputs, sample_rate: rate, num_frames: frames }
}

fn names(list: &[&str]) -> Vec<String> {
    list.iter().map(|s| s.to_string()).collect()
}

#[test]
fn default_config_is_stereo_48k() {
    let c = Config::default();
    assert_eq!(c, config(2, 2, 48000, 512));
    assert_eq!(c.validate(), Ok(()));
}

#[test]
fn validate_accepts_one_direction() {
    assert_eq!(config(0, 2, 44100, 256).validate(), Ok(()));
    assert_eq!(config(1, 0, 44100, 256).validate(), Ok(()));
}

#[test]
fn validate_rejects_no_channels() {
    assert_eq!(
        config(0, 0, 48000, 512).validate(),
        Err(Error::InvalidConfig("at least one of num_input_channels or num_output_channels must be > 0"))
    );
    // The channel rule is checked before the others.
    assert_eq!(
        config(0, 0, 0, 0).validate(),
        Err(Error::InvalidConfig("at least one of num_input_channels or num_output_channels must be > 0"))
    );
}

#[test]
fn validate_rejects_zero_rate() {
    assert_eq!(config(2, 2, 0, 512).validate(), Err(Error::InvalidConfig("sample_rate must be > 0")));
    assert_eq!(config(2, 2, 0, 0).validate(), Err(Error::InvalidConfig("sample_rate must be > 0")));
}

#[test]
fn validate_rejects_zero_frames() {
    assert_eq!(config(2, 2, 48000, 0).validate(), Err(Error::InvalidConfig("num_frames must be > 0")));
}

#[test]
fn error_messages() {
    assert_eq!(Error::NotFound.message(), "Device or API not found");
    assert_eq!(Error::InvalidConfig("num_frames must be > 0").message(), "Invalid config: num_frames must be > 0");
    assert_eq!(Error::Backend("device unplugged".to_string()).message(), "Backend error: device unplugged");
}

#[test]
fn contains_finds_substrings() {
    assert!(str_contains("Focusrite Scarlett 2i2", "Scarlett"));
    assert!(str_contains("Focusrite Scarlett 2i2", "Focusrite Scarlett 2i2"));
    assert!(str_contains("ALSA", ""));
    assert!(str_contains("", ""));
    assert!(str_contains("Haut-parleur intégré", "intégré"));
    assert!(!str_contains("ALSA", "alsa"));
    assert!(!str_contains("JACK", "JACKD"));
    assert!(!str_contains("", "a"));
}

#[test]
fn chars_of_keeps_every_char() {
    assert_eq!(chars_of("aé🎧"), vec!['a', 'é', '🎧']);
    assert_eq!(chars_of(""), Vec::<char>::new());
}

#[test]
fn select_picks_first_match() {
    let list = names(&["Built-in Output", "USB Audio 2", "USB Audio"]);
    assert_eq!(select_by_name(&list, "USB"), Ok(1));
    assert_eq!(select_by_name(&list, "Built"), Ok(0));
    assert_eq!(select_by_name(&list, "Audio"), Ok(1));
    assert_eq!(select_by_name(&list, ""), Ok(0));
}

#[test]
fn select_by_full_name_succeeds() {
    let list = names(&["ALSA", "JACK", "PulseAudio"]);
    for (i, n) in list.iter().enumerate() {
        assert_eq!(select_by_name(&list, n), Ok(i));
    }
    // A listed name that another, earlier name contains selects that one.
    let list = names(&["USB Audio 2", "USB Audio"]);
    assert_eq!(select_by_name(&list, "USB Audio"), Ok(0));
}

#[test]
fn select_reports_not_found() {
    let list = names(&["ALSA", "JACK"]);
    assert_eq!(select_by_name(&list, "Focusrite"), Err(Error::NotFound));
    assert_eq!(select_by_name(&Vec::new(), ""), Err(Error::NotFound));
}

#[test]
fn list_devices_drops_unknown_configs() {
    let found = vec![
        ("mic".to_string(), Some(1u16)),
        ("broken".to_string(), None),
        ("interface".to_string(), Some(8u16)),
    ];
    let listed = list_devices(&found);
    assert_eq!(listed.len(), 2);
    assert_eq!(listed[0].name, "mic");
    assert_eq!(listed[0].num_channels, 1);
    assert_eq!(listed[1].name, "interface");
    assert_eq!(listed[1].num_channels, 8);
    let none: Vec<DeviceInfo> = list_devices(&Vec::new());
    assert!(none.is_empty());
}

#[test]
fn ring_layout_for_stereo_48k() {
    let layout = ring_layout(&config(2, 2, 48000, 1024)).unwrap();
    // 100 ms at 48 kHz is 4800 frames of 2 samples; ten blocks of 2 x 1024.
    assert_eq!(layout, RingLayout { capacity: 9600 + 20480, prefill: 9600 });
}

#[test]
fn ring_layout_rounds_latency_down() {
    let layout = ring_layout(&config(1, 1, 44105, 1)).unwrap();
    assert_eq!(layout, RingLayout { capacity: 4410 + 10, prefill: 4410 });
    let layout = ring_layout(&config(0, 2, 48000, 512)).unwrap();
    assert_eq!(layout, RingLayout { capacity: 0, prefill: 0 });
}

#[test]
fn ring_layout_refuses_oversized_rings() {
    assert_eq!(ring_layout(&config(2, 2, 48000, usize::MAX / 4)), None);
    assert_eq!(ring_layout(&config(u16::MAX, 2, u32::MAX, usize::MAX)), None);
}

#[test]
fn opened_ring_holds_the_latency() {
    let layout = RingLayout { capacity: 8, prefill: 3 };
    let (producer, mut consumer) = open_latency_ring(&layout);
    assert_eq!(producer.buffer().capacity(), 8);
    let mut block = vec![7u32; 5];
    let missing = pop_samples(&mut consumer, &mut block);
    assert_eq!(missing, 2);
    assert_eq!(block, vec![0, 0, 0, 0, 0]);
}

#[test]
fn pushed_samples_come_out_after_the_latency() {
    let layout = RingLayout { capacity: 6, prefill: 2 };
    let (mut producer, mut consumer) = open_latency_ring(&layout);
    assert_eq!(push_samples(&mut producer, &[11, 12, 13]), 0);
    let mut block = vec![9u32; 4];
    assert_eq!(pop_samples(&mut consumer, &mut block), 0);
    assert_eq!(block, vec![0, 0, 11, 12]);
    let mut block = vec![9u32; 3];
    assert_eq!(pop_samples(&mut consumer, &mut block), 2);
    assert_eq!(block, vec![13, 0, 0]);
}

#[test]
fn full_ring_drops_the_rest() {
    let layout = RingLayout { capacity: 4, prefill: 1 };
    let (mut producer, mut consumer) = open_latency_ring(&layout);
    assert_eq!(push_samples(&mut producer, &[1, 2, 3, 4, 5]), 2);
    let mut block = vec![9u32; 4];
    assert_eq!(pop_samples(&mut consumer, &mut block), 0);
    assert_eq!(block, vec![0, 1, 2, 3]);
    assert_eq!(push_samples(&mut producer, &[6]), 0);
    let mut block = vec![9u32; 1];
    assert_eq!(pop_samples(&mut consumer, &mut block), 0);
    assert_eq!(block, vec![6]);
}

#[test]
fn plan_duplex() {
    let c = config(2, 2, 48000, 1024);
    let plan = StartPlan::for_config(&c, true, true).unwrap();
    let stream = |channels| StreamSpec { channels, sample_rate: 48000, buffer_frames: 1024 };
    assert_eq!(
        plan,
        StartPlan::Duplex {
            input: stream(2),
            output: stream(2),
            ring: RingLayout { capacity: 30080, prefill: 9600 },
            block_frames: 1024,
        }
    );
    assert_eq!(plan.input_block_shape(), (2, 1024));
}

#[test]
fn plan_output_only() {
    let stream = StreamSpec { channels: 2, sample_rate: 44100, buffer_frames: 256 };
    let plan = StartPlan::for_config(&config(0, 2, 44100, 256), true, true).unwrap();
    assert_eq!(plan, StartPlan::OutputOnly { output: stream });
    assert_eq!(plan.input_block_shape(), (1, 0));
    // Without an input device, a requested input is left out.
    let plan = StartPlan::for_config(&config(2, 2, 44100, 256), false, true).unwrap();
    assert_eq!(plan, StartPlan::OutputOnly { output: stream });
}

#[test]
fn plan_input_only() {
    let plan = StartPlan::for_config(&config(1, 0, 16000, 160), true, true).unwrap();
    assert_eq!(plan, StartPlan::InputOnly { input: StreamSpec { channels: 1, sample_rate: 16000, buffer_frames: 160 } });
    assert_eq!(plan.input_block_shape(), (1, 0));
}

#[test]
fn plan_fails_without_output_device() {
    assert_eq!(StartPlan::for_config(&config(2, 2, 48000, 512), true, false), Err(Error::NotFound));
    assert_eq!(StartPlan::for_config(&config(0, 0, 48000, 512), true, true), Err(Error::NotFound));
    assert_eq!(StartPlan::for_config(&config(2, 0, 48000, 512), false, true), Err(Error::NotFound));
}

#[test]
fn plan_truncates_buffer_size_to_u32() {
    if usize::BITS > 32 {
        let frames = (1usize << 32) + 5;
        let plan = StartPlan::for_config(&config(0, 1, 48000, frames), false, true).unwrap();
        assert_eq!(plan, StartPlan::OutputOnly { output: StreamSpec { channels: 1, sample_rate: 48000, buffer_frames: 5 } });
    }
}

#[test]
fn try_plan_refuses_unallocatable_duplex_ring() {
    let huge = config(2, 2, 48000, usize::MAX / 4);
    assert_eq!(StartPlan::try_for_config(&huge, true, true), None);
    // Without input there is no ring, so the plan goes through.
    assert_eq!(
        StartPlan::try_for_config(&huge, false, true),
        Some(Ok(StartPlan::OutputOnly {
            output: StreamSpec { channels: 2, sample_rate: 48000, buffer_frames: (usize::MAX / 4) as u32 }
        }))
    );
    let c = config(2, 2, 48000, 1024);
    assert_eq!(StartPlan::try_for_config(&c, true, true), Some(StartPlan::for_config(&c, true, true)));
    assert_eq!(StartPlan::try_for_config(&c, true, false), Some(Err(Error::NotFound)));
}
