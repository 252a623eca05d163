//! Assembly of one tick's segments into the streaming protocol output: the
//! one-time header, then once per tick a `[` … `]` array of comma-separated
//! segment objects, closed with `],` and a line terminator so that the
//! never-closed outer array keeps growing.

use crate::cpu::views;
use crate::segments::{
    battery_text, clock_text, cpu_text, disk_text, link_segment, segment_plain, spec_battery_text,
    spec_clock_text, spec_cpu_text, spec_disk_text, spec_link_segment, spec_segment_plain,
    spec_temp_text, temp_text, ClockTime,
};
use vstd::prelude::*;

verus! {

/// One network link to report: the interface name and the raw content of
/// its operational-state attribute as read this tick.
pub struct LinkReading {
    pub name: String,
    pub state: String,
}

/// One battery reading: the design capacity read at startup and the charge
/// read this tick.
pub struct BatteryReading {
    pub design: u64,
    pub charge: u64,
}

/// The segment objects of one tick, in their fixed order: CPU utilization,
/// temperature, free space, one segment per requested link, the battery
/// segment when a reading is present, and the clock last.
pub open spec fn spec_tick_segments(
    util: nat,
    millideg: nat,
    gib: nat,
    links: Seq<LinkReading>,
    battery: Option<BatteryReading>,
    t: ClockTime,
) -> Seq<Seq<char>> {
    seq![
        spec_segment_plain(spec_cpu_text(util)),
        spec_segment_plain(spec_temp_text(millideg)),
        spec_segment_plain(spec_disk_text(gib)),
    ] + links.map_values(|l: LinkReading| spec_link_segment(l.name@, l.state@)) + (match battery {
        Some(b) => seq![spec_segment_plain(spec_battery_text(b.charge as nat, b.design as nat))],
        None => Seq::empty(),
    }) + seq![spec_segment_plain(spec_clock_text(t))]
}

/// With no links requested and no battery reading, a tick's inner array
/// holds exactly the CPU, temperature, free-space and clock segments, in
/// that fixed order.
pub proof fn lemma_tick_fixed_segments(util: nat, millideg: nat, gib: nat, t: ClockTime)
    ensures
        spec_tick_segments(util, millideg, gib, Seq::empty(), Option::None, t) =~= seq![
            spec_segment_plain(spec_cpu_text(util)),
            spec_segment_plain(spec_temp_text(millideg)),
            spec_segment_plain(spec_disk_text(gib)),
            spec_segment_plain(spec_clock_text(t)),
        ],
        spec_tick_segments(util, millideg, gib, Seq::empty(), Option::None, t).len() == 4,
{
}

/// The segments joined with commas, no comma after the last.
pub open spec fn spec_join_segments(segs: Seq<Seq<char>>) -> Seq<char>
    decreases segs.len(),
{
    if segs.len() == 0 {
        Seq::empty()
    } else if segs.len() == 1 {
        segs[0]
    } else {
        spec_join_segments(segs.drop_last()) + ","@ + segs.last()
    }
}

/// One tick's full emission: the inner array of joined segments, closed
/// with `],` and a line terminator.
pub open spec fn spec_render_tick(
    util: nat,
    millideg: nat,
    gib: nat,
    links: Seq<LinkReading>,
    battery: Option<BatteryReading>,
    t: ClockTime,
) -> Seq<char> {
    "["@ + spec_join_segments(spec_tick_segments(util, millideg, gib, links, battery, t))
        + "],\n"@
}

/// Joins rendered segments with commas, no comma after the last.
pub fn join_segments(segs: &Vec<String>) -> (r: String)
    ensures
        r@ == spec_join_segments(views(segs@)),
{
    let mut acc = String::new();
    let mut k: usize = 0;
    proof {
        assert(views(segs@).subrange(0, 0) =~= Seq::<Seq<char>>::empty());
    }
    while k < segs.len()
        invariant
            0 <= k <= segs@.len(),
            acc@ == spec_join_segments(views(segs@).subrange(0, k as int)),
        decreases segs@.len() - k,
    {
        proof {
            let vs = views(segs@);
            assert(vs.subrange(0, k + 1).drop_last() =~= vs.subrange(0, k as int));
            assert(vs.subrange(0, k + 1).last() == segs@[k as int]@);
        }
        if k > 0 {
            acc.append(",");
        }
        acc.append(segs[k].as_str());
        k = k + 1;
    }
    proof {
        assert(views(segs@).subrange(0, segs@.len() as int) =~= views(segs@));
    }
    acc
}

/// Renders one tick's full emission from the metric values sampled this
/// tick: the derived CPU percentage, the temperature in millidegrees, the
/// free space in whole gigabytes, the link readings, the battery reading if
/// one was taken, and the clock fields.
pub fn render_tick(
    util: u64,
    millideg: u64,
    gib: u64,
    links: &Vec<LinkReading>,
    battery: &Option<BatteryReading>,
    clock: &ClockTime,
) -> (r: String)
    requires
        battery matches Some(b) ==> b.design >= 1 && b.charge <= u64::MAX / 10000,
    ensures
        r@ == spec_render_tick(
            util as nat,
            millideg as nat,
            gib as nat,
            links@,
            *battery,
            *clock,
        ),
{
    let ghost head = seq![
        spec_segment_plain(spec_cpu_text(util as nat)),
        spec_segment_plain(spec_temp_text(millideg as nat)),
        spec_segment_plain(spec_disk_text(gib as nat)),
    ];
    let mut segs: Vec<String> = Vec::new();
    let ct = cpu_text(util);
    segs.push(segment_plain(ct.as_str()));
    let tt = temp_text(millideg);
    segs.push(segment_plain(tt.as_str()));
    let dt = disk_text(gib);
    segs.push(segment_plain(dt.as_str()));
    proof {
        assert(views(segs@) =~= head + links@.subrange(0, 0).map_values(
            |l: LinkReading| spec_link_segment(l.name@, l.state@),
        ));
    }
    let mut li: usize = 0;
    while li < links.len()
        invariant
            0 <= li <= links@.len(),
            views(segs@) == head + links@.subrange(0, li as int).map_values(
                |l: LinkReading| spec_link_segment(l.name@, l.state@),
            ),
        decreases links@.len() - li,
    {
        let ghost segs0 = segs@;
        let seg = link_segment(links[li].name.as_str(), links[li].state.as_str());
        segs.push(seg);
        proof {
            assert(links@.subrange(0, li + 1).map_values(
                |l: LinkReading| spec_link_segment(l.name@, l.state@),
            ) =~= links@.subrange(0, li as int).map_values(
                |l: LinkReading| spec_link_segment(l.name@, l.state@),
            ).push(spec_link_segment(links@[li as int].name@, links@[li as int].state@)));
            assert(views(segs@) =~= views(segs0).push(
                spec_link_segment(links@[li as int].name@, links@[li as int].state@),
            ));
            assert(views(segs@) =~= head + links@.subrange(0, li + 1).map_values(
                |l: LinkReading| spec_link_segment(l.name@, l.state@),
            ));
        }
        li = li + 1;
    }
    proof {
        assert(links@.subrange(0, links@.len() as int) =~= links@);
    }
    match battery {
        Some(b) => {
            let bt = battery_text(b.charge, b.design);
            segs.push(segment_plain(bt.as_str()));
        },
        None => {},
    }
    let clk = clock_text(clock);
    segs.push(segment_plain(clk.as_str()));
    proof {
        assert(views(segs@) =~= spec_tick_segments(
            util as nat,
            millideg as nat,
            gib as nat,
            links@,
            *battery,
            *clock,
        ));
    }
    let body = join_segments(&segs);
    let mut out = String::from_str("[");
    out.append(body.as_str());
    out.append("],\n");
    out
}

/// The one-time protocol header: the version object immediately followed by
/// the opening of the unbounded outer array.
pub fn protocol_header() -> (r: String)
    ensures
        r@ == "{\"version\":1}["@,
{
    String::from_str("{\"version\":1}[")
}

} // verus!
