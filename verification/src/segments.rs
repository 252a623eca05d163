//! Rendering of each metric value into its protocol segment: a JSON object
//! with a required `full_text` field and, for network links only, a `color`.

use crate::num::{dec_pad2, dec_pad4, dec_rep, u64_pad2, u64_pad4, u64_string};
use crate::text::spec_trim;
use crate::text::trim_str;
use vstd::arithmetic::div_mod::lemma_multiply_divide_le;
use vstd::prelude::*;

verus! {

/// The success color of a link that is up.
pub const COLOR_UP: &'static str = "#00ff00";

/// The failure color of a link in any other state.
pub const COLOR_DOWN: &'static str = "#ff0000";

/// A plain segment object: `{"full_text":"<text>"}`.
pub open spec fn spec_segment_plain(text: Seq<char>) -> Seq<char> {
    "{\"full_text\":\""@ + text + "\"}"@
}

/// A colored segment object: `{"color":"<color>","full_text":"<text>"}`.
pub open spec fn spec_segment_colored(color: Seq<char>, text: Seq<char>) -> Seq<char> {
    "{\"color\":\""@ + color + "\",\"full_text\":\""@ + text + "\"}"@
}

/// Renders a plain segment object around `text`.
pub fn segment_plain(text: &str) -> (r: String)
    ensures
        r@ == spec_segment_plain(text@),
{
    let mut s = String::from_str("{\"full_text\":\"");
    s.append(text);
    s.append("\"}");
    s
}

/// Renders a colored segment object around `color` and `text`.
pub fn segment_colored(color: &str, text: &str) -> (r: String)
    ensures
        r@ == spec_segment_colored(color@, text@),
{
    let mut s = String::from_str("{\"color\":\"");
    s.append(color);
    s.append("\",\"full_text\":\"");
    s.append(text);
    s.append("\"}");
    s
}

/// The CPU display text: the percentage zero-padded to two digits, then `%`.
pub open spec fn spec_cpu_text(util: nat) -> Seq<char> {
    dec_pad2(util) + "%"@
}

/// Renders the CPU utilization text.
pub fn cpu_text(util: u64) -> (r: String)
    ensures
        r@ == spec_cpu_text(util as nat),
{
    let mut s = u64_pad2(util);
    s.append("%");
    s
}

/// The temperature display text: whole degrees (millidegrees divided by
/// 1000, truncating), then the degree unit.
pub open spec fn spec_temp_text(millideg: nat) -> Seq<char> {
    dec_rep(millideg / 1000) + "°C"@
}

/// Renders the temperature text from millidegrees.
pub fn temp_text(millideg: u64) -> (r: String)
    ensures
        r@ == spec_temp_text(millideg as nat),
{
    let mut s = u64_string(millideg / 1000);
    s.append("°C");
    s
}

/// The free-space display text: whole gigabytes, then the unit.
pub open spec fn spec_disk_text(gib: nat) -> Seq<char> {
    dec_rep(gib) + " GiB"@
}

/// Renders the free-space text from a whole gigabyte count.
pub fn disk_text(gib: u64) -> (r: String)
    ensures
        r@ == spec_disk_text(gib as nat),
{
    let mut s = u64_string(gib);
    s.append(" GiB");
    s
}

/// The link display text: the interface name, a separator, and the trimmed
/// operational state.
pub open spec fn spec_link_text(name: Seq<char>, state_raw: Seq<char>) -> Seq<char> {
    name + ": "@ + spec_trim(state_raw)
}

/// The link segment: the state `up` is rendered in the success color, every
/// other state verbatim in the failure color.
pub open spec fn spec_link_segment(name: Seq<char>, state_raw: Seq<char>) -> Seq<char> {
    if spec_trim(state_raw) == "up"@ {
        spec_segment_colored(COLOR_UP@, spec_link_text(name, state_raw))
    } else {
        spec_segment_colored(COLOR_DOWN@, spec_link_text(name, state_raw))
    }
}

/// Renders the segment of one network link from its name and the raw
/// content of its operational-state attribute.
pub fn link_segment(name: &str, state_raw: &str) -> (r: String)
    ensures
        r@ == spec_link_segment(name@, state_raw@),
{
    let st = trim_str(state_raw);
    let mut text = String::from_str(name);
    text.append(": ");
    text.append(st.as_str());
    let up = String::from_str("up");
    if st == up {
        segment_colored(COLOR_UP, text.as_str())
    } else {
        segment_colored(COLOR_DOWN, text.as_str())
    }
}

/// The battery charge in hundredths of a percent of the design capacity,
/// rounded half up.
pub open spec fn spec_battery_permyriad(charge: nat, design: nat) -> nat
    recommends
        design >= 1,
{
    ((10000 * charge + design / 2) as int / design as int) as nat
}

/// The battery display text: the percentage with two decimal places.
pub open spec fn spec_battery_text(charge: nat, design: nat) -> Seq<char>
    recommends
        design >= 1,
{
    let v = spec_battery_permyriad(charge, design);
    "BAT "@ + dec_rep(v / 100) + "."@ + dec_pad2(v % 100) + "%"@
}

/// Renders the battery text from the current charge and the design
/// capacity, as `BAT <percent>` with two decimals.
pub fn battery_text(charge: u64, design: u64) -> (r: String)
    requires
        design >= 1,
        charge <= u64::MAX / 10000,
    ensures
        r@ == spec_battery_text(charge as nat, design as nat),
{
    let wide: u128 = 10000u128 * (charge as u128) + (design / 2) as u128;
    proof {
        assert(10000 * (charge as int) <= u64::MAX) by (nonlinear_arith)
            requires
                charge <= u64::MAX / 10000,
        ;
        assert(wide <= (design as int) * (u64::MAX as int)) by (nonlinear_arith)
            requires
                design >= 1,
                wide == 10000 * (charge as int) + (design as int) / 2,
                10000 * (charge as int) <= u64::MAX,
        ;
        lemma_multiply_divide_le(wide as int, design as int, u64::MAX as int);
    }
    let v: u64 = (wide / (design as u128)) as u64;
    let mut s = String::from_str("BAT ");
    let whole = u64_string(v / 100);
    s.append(whole.as_str());
    s.append(".");
    let frac = u64_pad2(v % 100);
    s.append(frac.as_str());
    s.append("%");
    s
}

/// One reading of the local wall-clock calendar time, as plain fields.
/// `month` is rendered exactly as handed in: the sampler passes the
/// calendar facility's zero-based month number through unchanged, so the
/// rendered month keeps that convention.
pub struct ClockTime {
    pub year: u64,
    pub month: u64,
    pub day: u64,
    /// Weekday number, 0 for Sunday; any value outside 0..=6 renders as a
    /// three-character placeholder instead of a day name.
    pub weekday: u64,
    pub hour: u64,
    pub minute: u64,
    pub second: u64,
}

/// The display name of weekday `w` (0 is Sunday), or `???` out of range.
pub open spec fn spec_day_name(w: nat) -> Seq<char> {
    if w == 0 {
        "Sun"@
    } else if w == 1 {
        "Mon"@
    } else if w == 2 {
        "Tue"@
    } else if w == 3 {
        "Wed"@
    } else if w == 4 {
        "Thur"@
    } else if w == 5 {
        "Fri"@
    } else if w == 6 {
        "Sat"@
    } else {
        "???"@
    }
}

/// Returns the display name of weekday `w`.
pub fn day_name(w: u64) -> (r: String)
    ensures
        r@ == spec_day_name(w as nat),
{
    match w {
        0 => String::from_str("Sun"),
        1 => String::from_str("Mon"),
        2 => String::from_str("Tue"),
        3 => String::from_str("Wed"),
        4 => String::from_str("Thur"),
        5 => String::from_str("Fri"),
        6 => String::from_str("Sat"),
        _ => String::from_str("???"),
    }
}

/// The clock display text: `YYYY-MM-DD Www HH:MM:SS`, each numeric field
/// zero-padded, the weekday by name.
pub open spec fn spec_clock_text(t: ClockTime) -> Seq<char> {
    dec_pad4(t.year as nat) + "-"@ + dec_pad2(t.month as nat) + "-"@ + dec_pad2(t.day as nat)
        + " "@ + spec_day_name(t.weekday as nat) + " "@ + dec_pad2(t.hour as nat) + ":"@ + dec_pad2(
        t.minute as nat,
    ) + ":"@ + dec_pad2(t.second as nat)
}

/// Renders the clock text.
pub fn clock_text(t: &ClockTime) -> (r: String)
    ensures
        r@ == spec_clock_text(*t),
{
    let mut s = u64_pad4(t.year);
    s.append("-");
    let month = u64_pad2(t.month);
    s.append(month.as_str());
    s.append("-");
    let day = u64_pad2(t.day);
    s.append(day.as_str());
    s.append(" ");
    let wd = day_name(t.weekday);
    s.append(wd.as_str());
    s.append(" ");
    let hour = u64_pad2(t.hour);
    s.append(hour.as_str());
    s.append(":");
    let minute = u64_pad2(t.minute);
    s.append(minute.as_str());
    s.append(":");
    let second = u64_pad2(t.second);
    s.append(second.as_str());
    s
}

} // verus!
