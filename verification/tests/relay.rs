use airplayrelay::devices::{format_device_list, Device};
use airplayrelay::pick::{choose_device, pick_device};
use airplayrelay::flags::{parse_flags, timeout_secs, Flags};
use airplayrelay::frames::{FillStep, FrameFill};
use airplayrelay::paths::pairings_path;
use airplayrelay::read::{read_once, ReadNext, ReadOutcome};
use airplayrelay::render::plan_render;
use airplayrelay::text::{contains_str, decimal_string, parse_u64, str_eq};
use airplayrelay::FRAME_BYTES;

fn args(list: &[&str]) -> Vec<String> {
    list.iter().map(|s| s.to_string()).collect()
}

fn parse(list: &[&str]) -> Result<Flags, String> {
    parse_flags(&args(list))
}

fn dev(id: &str, name: &str, addrs: &[&str], port: u16, audio: bool, ap2: bool) -> Device {
    Device {
        id: id.to_string(),
        name: name.to_string(),
        addresses: addrs.iter().map(|s| s.to_string()).collect(),
        port,
        supports_audio: audio,
        airplay2: ap2,
    }
}

// ---- flags ----

#[test]
fn no_flags_parse_to_nothing() {
    let f = parse(&[]).unwrap();
    assert!(f.device.is_none() && f.pin.is_none() && f.store.is_none() && f.timeout.is_none());
}

#[test]
fn every_flag_takes_its_value() {
    let f = parse(&["--device", "Kitchen", "--pin", "1234", "--store", "/tmp/s", "--timeout", "7"])
        .unwrap();
    assert_eq!(f.device.as_deref(), Some("Kitchen"));
    assert_eq!(f.pin.as_deref(), Some("1234"));
    assert_eq!(f.store.as_deref(), Some("/tmp/s"));
    assert_eq!(f.timeout, Some(7));
}

#[test]
fn short_device_flag() {
    let f = parse(&["-d", "abc"]).unwrap();
    assert_eq!(f.device.as_deref(), Some("abc"));
}

#[test]
fn repeated_flag_keeps_last_value() {
    let f = parse(&["--pin", "1", "-d", "a", "--pin", "2", "--device", "b"]).unwrap();
    assert_eq!(f.pin.as_deref(), Some("2"));
    assert_eq!(f.device.as_deref(), Some("b"));
}

#[test]
fn value_is_taken_even_when_it_looks_like_a_flag() {
    let f = parse(&["--device", "--pin"]).unwrap();
    assert_eq!(f.device.as_deref(), Some("--pin"));
    assert!(f.pin.is_none());
}

#[test]
fn missing_values_are_reported_by_flag_name() {
    assert_eq!(parse(&["--device"]).err().unwrap(), "flag --device needs a value");
    assert_eq!(parse(&["-d"]).err().unwrap(), "flag --device needs a value");
    assert_eq!(parse(&["--pin"]).err().unwrap(), "flag --pin needs a value");
    assert_eq!(parse(&["--store"]).err().unwrap(), "flag --store needs a value");
    assert_eq!(parse(&["--timeout"]).err().unwrap(), "flag --timeout needs a value");
}

#[test]
fn unknown_flag_is_reported() {
    assert_eq!(parse(&["--verbose"]).err().unwrap(), "unknown flag --verbose");
    assert_eq!(parse(&["--pin", "1", "extra"]).err().unwrap(), "unknown flag extra");
}

#[test]
fn first_error_stops_parsing() {
    assert_eq!(parse(&["--bogus", "--timeout"]).err().unwrap(), "unknown flag --bogus");
}

#[test]
fn timeout_must_be_whole_seconds() {
    for bad in ["abc", "-1", "", "+", "1.5", " 3", "18446744073709551616", "٣"] {
        assert_eq!(
            parse(&["--timeout", bad]).err().unwrap(),
            "--timeout must be whole seconds",
            "{bad:?}"
        );
    }
}

#[test]
fn timeout_accepts_what_u64_parsing_accepts() {
    assert_eq!(parse(&["--timeout", "+9"]).unwrap().timeout, Some(9));
    assert_eq!(parse(&["--timeout", "007"]).unwrap().timeout, Some(7));
    assert_eq!(
        parse(&["--timeout", "18446744073709551615"]).unwrap().timeout,
        Some(u64::MAX)
    );
}

#[test]
fn timeout_defaults_to_five_seconds() {
    assert_eq!(timeout_secs(&parse(&[]).unwrap()), 5);
    assert_eq!(timeout_secs(&parse(&["--timeout", "0"]).unwrap()), 0);
    assert_eq!(timeout_secs(&parse(&["--timeout", "12"]).unwrap()), 12);
}

// ---- text helpers ----

#[test]
fn parse_u64_agrees_with_std() {
    for s in ["0", "1", "+1", "-1", "", "+", "12a", "99999999999999999999", "4294967296"] {
        assert_eq!(parse_u64(s), s.parse::<u64>().ok(), "{s:?}");
    }
}

#[test]
fn decimal_rendering() {
    assert_eq!(decimal_string(0), "0");
    assert_eq!(decimal_string(7000), "7000");
    assert_eq!(decimal_string(u64::MAX), u64::MAX.to_string());
}

#[test]
fn substring_search() {
    assert!(contains_str("living room", "room"));
    assert!(contains_str("abc", ""));
    assert!(contains_str("", ""));
    assert!(!contains_str("ab", "abc"));
    assert!(!contains_str("kitchen", "kitchens"));
    assert!(contains_str("ÉtÉ", "tÉ"));
}

#[test]
fn string_equality() {
    assert!(str_eq("--pin", "--pin"));
    assert!(!str_eq("--pin", "--pi"));
    assert!(!str_eq("-d", "-D"));
}

// ---- list ----

#[test]
fn listing_formats_audio_receivers_only() {
    let ds = vec![
        dev("AA:BB", "Kitchen", &["192.168.1.20", "10.0.0.2"], 7000, true, true),
        dev("CC:DD", "Printer", &["192.168.1.30"], 631, false, false),
        dev("EE:FF", "Old Speaker", &[], 5000, true, false),
    ];
    assert_eq!(
        format_device_list(&ds),
        "AA:BB\tKitchen\t192.168.1.20:7000\tairplay2\nEE:FF\tOld Speaker\t?\tairplay1\n"
    );
}

#[test]
fn listing_of_nothing_is_empty() {
    assert_eq!(format_device_list(&vec![]), "");
    let ds = vec![dev("x", "y", &["1.2.3.4"], 1, false, true)];
    assert_eq!(format_device_list(&ds), "");
}

#[test]
fn listing_renders_ipv6_text_and_port() {
    let ds = vec![dev("id", "TV", &["fe80::1"], 65535, true, true)];
    assert_eq!(format_device_list(&ds), "id\tTV\tfe80::1:65535\tairplay2\n");
}

// ---- pick ----

fn room_devices() -> Vec<Device> {
    vec![
        dev("11", "Living Room TV", &[], 7000, true, true),
        dev("22", "Kitchen", &[], 7000, true, true),
        dev("33", "Bedroom", &[], 7000, true, true),
        dev("kitchen", "Garage", &[], 7000, true, true),
    ]
}

#[test]
fn pick_by_exact_id() {
    assert_eq!(pick_device(&room_devices(), "33"), Ok(2));
}

#[test]
fn exact_id_beats_name_match() {
    // "kitchen" is device 3's id and also part of device 1's name.
    assert_eq!(pick_device(&room_devices(), "kitchen"), Ok(3));
}

#[test]
fn first_of_equal_ids_is_chosen() {
    let ds = vec![
        dev("same", "A", &[], 1, true, true),
        dev("same", "B", &[], 1, true, true),
    ];
    assert_eq!(pick_device(&ds, "same"), Ok(0));
}

#[test]
fn pick_by_name_ignoring_case() {
    assert_eq!(pick_device(&room_devices(), "LIVING"), Ok(0));
    assert_eq!(pick_device(&room_devices(), "itch"), Ok(1));
    assert_eq!(pick_device(&room_devices(), "gArAgE"), Ok(3));
}

#[test]
fn no_match_is_an_error() {
    assert_eq!(
        pick_device(&room_devices(), "Office"),
        Err("no AirPlay device matching \"Office\" (try `airplayrelay list`)".to_string())
    );
    assert_eq!(
        pick_device(&vec![], "a\"b"),
        Err("no AirPlay device matching \"a\\\"b\" (try `airplayrelay list`)".to_string())
    );
}

#[test]
fn several_matches_are_an_error() {
    assert_eq!(
        pick_device(&room_devices(), "room"),
        Err("\"room\" matches 2 devices (Living Room TV, Bedroom); be more specific".to_string())
    );
    // The empty request is part of every name.
    assert_eq!(
        pick_device(&room_devices(), ""),
        Err(
            "\"\" matches 4 devices (Living Room TV, Kitchen, Bedroom, Garage); be more specific"
                .to_string()
        )
    );
}

#[test]
fn choice_goes_by_the_lowered_names_given() {
    let ds = vec![dev("1", "A", &[], 1, true, true), dev("2", "B", &[], 1, true, true)];
    let lowered = vec!["xyz".to_string(), "abc".to_string()];
    assert_eq!(choose_device(&ds, "q", &lowered, "bc", "<q>"), Ok(1));
    assert_eq!(choose_device(&ds, "2", &lowered, "bc", "<q>"), Ok(1));
    assert_eq!(choose_device(&ds, "1", &lowered, "bc", "<q>"), Ok(0));
    assert_eq!(
        choose_device(&ds, "q", &lowered, "none", "<q>"),
        Err("no AirPlay device matching <q> (try `airplayrelay list`)".to_string())
    );
    assert_eq!(
        choose_device(&ds, "q", &lowered, "", "<q>"),
        Err("<q> matches 2 devices (A, B); be more specific".to_string())
    );
}

#[test]
fn choice_does_not_depend_on_discovery_order() {
    let ds = room_devices();
    let mut rev = room_devices();
    rev.reverse();
    for want in ["33", "kitchen", "LIVING", "itch", "gArAgE", "Office"] {
        let a = pick_device(&ds, want).map(|i| ds[i].id.clone());
        let b = pick_device(&rev, want).map(|i| rev[i].id.clone());
        assert_eq!(a, b, "{want:?}");
    }
    assert_eq!(
        pick_device(&rev, "room"),
        Err("\"room\" matches 2 devices (Bedroom, Living Room TV); be more specific".to_string())
    );
    assert_eq!(pick_device(&ds, "Office"), pick_device(&rev, "Office"));
}

// ---- paths and render ----

#[test]
fn pairings_file_under_given_store() {
    assert_eq!(pairings_path(Some("/tmp/s"), Some("/home/me")), "/tmp/s/pairings.json");
    assert_eq!(pairings_path(Some("/tmp/s/"), None), "/tmp/s/pairings.json");
    assert_eq!(pairings_path(Some(""), None), "pairings.json");
}

#[test]
fn pairings_file_defaults_under_home() {
    assert_eq!(
        pairings_path(None, Some("/Users/me")),
        "/Users/me/Library/Application Support/chorus/airplay/pairings.json"
    );
    assert_eq!(
        pairings_path(None, None),
        "./Library/Application Support/chorus/airplay/pairings.json"
    );
    assert_eq!(
        pairings_path(None, Some("")),
        "Library/Application Support/chorus/airplay/pairings.json"
    );
}

#[test]
fn render_requires_a_device() {
    let f = parse(&["--pin", "1234"]).unwrap();
    assert_eq!(
        plan_render(&f, Some("/h")).err().unwrap(),
        "render: --device <id|name-substring> is required"
    );
}

#[test]
fn render_plan_from_flags() {
    let f = parse(&["-d", "Kitchen", "--pin", "0000", "--store", "/var/p"]).unwrap();
    let p = plan_render(&f, Some("/h")).ok().unwrap();
    assert_eq!(p.want, "Kitchen");
    assert_eq!(p.timeout_secs, 5);
    assert_eq!(p.pin.as_deref(), Some("0000"));
    assert_eq!(p.store_path, "/var/p/pairings.json");

    let f = parse(&["-d", "x", "--timeout", "2"]).unwrap();
    let p = plan_render(&f, Some("/h")).ok().unwrap();
    assert_eq!(p.timeout_secs, 2);
    assert!(p.pin.is_none());
    assert_eq!(p.store_path, "/h/Library/Application Support/chorus/airplay/pairings.json");
}

// ---- frames ----

/// Drives a fill with the given read sizes, as the stdin source does.
fn run_fill(len: usize, reads: &[usize]) -> (usize, Vec<usize>) {
    let (mut st, mut step) = FrameFill::start(len);
    let mut offsets = Vec::new();
    let mut reads = reads.iter();
    loop {
        match step {
            FillStep::Done { count } => return (count, offsets),
            FillStep::Read { offset } => {
                offsets.push(offset);
                let n = *reads.next().expect("a read was asked for");
                step = st.after_read(n);
            }
        }
    }
}

#[test]
fn too_small_buffer_reads_nothing() {
    assert_eq!(run_fill(3, &[]), (0, vec![]));
    assert_eq!(run_fill(0, &[]), (0, vec![]));
}

#[test]
fn aligned_read_is_returned_whole() {
    assert_eq!(run_fill(4096, &[1024]), (1024, vec![0]));
}

#[test]
fn end_of_input_at_once_is_zero() {
    assert_eq!(run_fill(4096, &[0]), (0, vec![0]));
}

#[test]
fn split_frame_is_topped_up() {
    assert_eq!(run_fill(4096, &[6, 1, 1]), (8, vec![0, 6, 7]));
    assert_eq!(run_fill(4096, &[3, 5]), (8, vec![0, 3]));
}

#[test]
fn stub_frame_at_end_of_input_is_dropped() {
    assert_eq!(run_fill(4096, &[7, 0]), (4, vec![0, 7]));
    assert_eq!(run_fill(4096, &[2, 0]), (0, vec![0, 2]));
}

#[test]
fn unaligned_buffer_is_filled_up_to_whole_frames() {
    // Only the first 4 bytes of a 6-byte buffer are used, so no byte taken
    // in is ever dropped while input goes on.
    let (st, _) = FrameFill::start(6);
    assert_eq!(st.len, 4);
    assert_eq!(run_fill(6, &[4]), (4, vec![0]));
    assert_eq!(run_fill(6, &[3, 1]), (4, vec![0, 3]));
    assert_eq!(run_fill(10, &[5, 3]), (8, vec![0, 5]));
    assert_eq!(run_fill(7, &[2, 0]), (0, vec![0, 2]));
}

#[test]
fn results_are_whole_frames() {
    for reads in [&[1usize, 2, 3, 0][..], &[5, 5, 6], &[9, 0], &[4], &[13, 3]] {
        let (count, _) = run_fill(64, reads);
        assert_eq!(count % FRAME_BYTES, 0, "{reads:?}");
    }
}

// ---- read retry ----

#[test]
fn interrupted_reads_are_retried() {
    assert!(matches!(read_once(&ReadOutcome::Interrupted), ReadNext::Retry));
    assert!(matches!(read_once(&ReadOutcome::Bytes(0)), ReadNext::Deliver));
    assert!(matches!(read_once(&ReadOutcome::Bytes(12)), ReadNext::Deliver));
    assert!(matches!(read_once(&ReadOutcome::Failed), ReadNext::Deliver));
}
