use statusbar::disk::{free_space_bytes, gib_rounded, GIB};
use statusbar::emit::{protocol_header, render_tick, BatteryReading, LinkReading};
use statusbar::num::{u64_pad2, u64_pad4, u64_string};
use statusbar::sched::sleep_nanos;
use statusbar::segments::{battery_text, clock_text, cpu_text, day_name, disk_text, link_segment,
    segment_colored, segment_plain, temp_text, ClockTime};

#[test]
fn decimal_rendering_and_padding() {
    assert_eq!(u64_string(0), "0");
    assert_eq!(u64_string(45678), "45678");
    assert_eq!(u64_pad2(5), "05");
    assert_eq!(u64_pad2(42), "42");
    assert_eq!(u64_pad2(100), "100");
    assert_eq!(u64_pad4(42), "0042");
    assert_eq!(u64_pad4(2024), "2024");
    assert_eq!(u64_pad4(7), "0007");
    assert_eq!(u64_pad4(999), "0999");
}

#[test]
fn temperature_display_truncates_millidegrees() {
    assert_eq!(temp_text(45678), "45°C");
    assert_eq!(temp_text(45999), "45°C");
    assert_eq!(temp_text(999), "0°C");
}

#[test]
fn free_space_rounds_to_nearest_gib() {
    // Exactly 2.5 binary gigabytes rounds half up to 3.
    let half_up = 2 * GIB + GIB / 2;
    assert_eq!(gib_rounded(half_up), 3);
    assert_eq!(disk_text(gib_rounded(half_up)), "3 GiB");
    // Just under the boundary rounds down to 2.
    assert_eq!(gib_rounded(half_up - 1), 2);
    assert_eq!(disk_text(gib_rounded(half_up - 1)), "2 GiB");
    assert_eq!(gib_rounded(0), 0);
    assert_eq!(free_space_bytes(4, 4096), 16384);
}

#[test]
fn segment_objects() {
    assert_eq!(segment_plain("42%"), "{\"full_text\":\"42%\"}");
    assert_eq!(
        segment_colored("#00ff00", "eth0: up"),
        "{\"color\":\"#00ff00\",\"full_text\":\"eth0: up\"}"
    );
}

#[test]
fn cpu_text_is_zero_padded_percent() {
    assert_eq!(cpu_text(5), "05%");
    assert_eq!(cpu_text(67), "67%");
    assert_eq!(cpu_text(100), "100%");
}

#[test]
fn link_up_is_success_colored() {
    assert_eq!(
        link_segment("eth0", "up\n"),
        "{\"color\":\"#00ff00\",\"full_text\":\"eth0: up\"}"
    );
}

#[test]
fn link_other_states_are_failure_colored_verbatim() {
    assert_eq!(
        link_segment("wlan0", "dormant\n"),
        "{\"color\":\"#ff0000\",\"full_text\":\"wlan0: dormant\"}"
    );
    assert_eq!(
        link_segment("eth1", "down\n"),
        "{\"color\":\"#ff0000\",\"full_text\":\"eth1: down\"}"
    );
    assert_eq!(
        link_segment("eth2", "unknown\n"),
        "{\"color\":\"#ff0000\",\"full_text\":\"eth2: unknown\"}"
    );
}

#[test]
fn battery_half_charge() {
    assert_eq!(battery_text(2500, 5000), "BAT 50.00%");
}

#[test]
fn battery_rounds_to_two_decimals() {
    assert_eq!(battery_text(1, 3), "BAT 33.33%");
    assert_eq!(battery_text(2, 3), "BAT 66.67%");
    assert_eq!(battery_text(0, 5000), "BAT 0.00%");
    // Not clamped: a charge above the design capacity reads above 100%.
    assert_eq!(battery_text(6000, 5000), "BAT 120.00%");
}

#[test]
fn day_names() {
    assert_eq!(day_name(0), "Sun");
    assert_eq!(day_name(4), "Thur");
    assert_eq!(day_name(6), "Sat");
    assert_eq!(day_name(7), "???");
}

#[test]
fn clock_rendering() {
    let t = ClockTime {
        year: 2024,
        month: 3,
        day: 7,
        weekday: 4,
        hour: 14,
        minute: 5,
        second: 9,
    };
    assert_eq!(clock_text(&t), "2024-03-07 Thur 14:05:09");
}

#[test]
fn clock_out_of_range_weekday_renders_placeholder() {
    let t = ClockTime {
        year: 1,
        month: 0,
        day: 1,
        weekday: 9,
        hour: 0,
        minute: 0,
        second: 0,
    };
    assert_eq!(clock_text(&t), "0001-00-01 ??? 00:00:00");
}

#[test]
fn header_opens_the_unbounded_array() {
    assert_eq!(protocol_header(), "{\"version\":1}[");
}

#[test]
fn tick_without_optional_metrics_has_fixed_segments() {
    let t = ClockTime {
        year: 2024,
        month: 3,
        day: 7,
        weekday: 4,
        hour: 14,
        minute: 5,
        second: 9,
    };
    let line = render_tick(67, 45678, 3, &vec![], &None, &t);
    assert_eq!(
        line,
        "[{\"full_text\":\"67%\"},{\"full_text\":\"45°C\"},{\"full_text\":\"3 GiB\"},{\"full_text\":\"2024-03-07 Thur 14:05:09\"}],\n"
    );
}

#[test]
fn tick_with_links_and_battery_orders_segments() {
    let t = ClockTime {
        year: 2024,
        month: 3,
        day: 7,
        weekday: 4,
        hour: 14,
        minute: 5,
        second: 9,
    };
    let links = vec![
        LinkReading { name: String::from("eth0"), state: String::from("up\n") },
        LinkReading { name: String::from("wlan0"), state: String::from("dormant\n") },
    ];
    let battery = Some(BatteryReading { design: 5000, charge: 2500 });
    let line = render_tick(5, 45678, 2, &links, &battery, &t);
    let expected = "[{\"full_text\":\"05%\"},{\"full_text\":\"45°C\"},{\"full_text\":\"2 GiB\"},{\"color\":\"#00ff00\",\"full_text\":\"eth0: up\"},{\"color\":\"#ff0000\",\"full_text\":\"wlan0: dormant\"},{\"full_text\":\"BAT 50.00%\"},{\"full_text\":\"2024-03-07 Thur 14:05:09\"}],\n";
    assert_eq!(line, expected);
}

#[test]
fn sleep_covers_the_rest_of_the_period() {
    assert_eq!(sleep_nanos(300_000_000), Some(700_000_000));
    assert_eq!(sleep_nanos(0), Some(1_000_000_000));
    assert_eq!(sleep_nanos(999_999_999), Some(1));
    assert_eq!(sleep_nanos(1_000_000_000), None);
    assert_eq!(sleep_nanos(1_500_000_000), None);
}
