//! Reports and messages: the device listing, the status sweep report, and
//! the messages the mutating commands print.

use vstd::prelude::*;
use vstd::string::StringExecFns;

use crate::registry::{Config, RegView};

verus! {

/// What a status probe of one device found.
#[derive(Clone, Copy, Debug, PartialEq, Eq, Structural)]
pub enum DeviceStatus {
    On,
    Off,
    Unreachable,
}

/// The status a probe outcome is reported as: an unreachable device is
/// `Unreachable`, a reachable one reporting power-off is `Off`, and a
/// reachable one is otherwise taken to be `On`.
pub open spec fn spec_classify(reachable: bool, on: Option<bool>) -> DeviceStatus {
    if !reachable {
        DeviceStatus::Unreachable
    } else {
        match on {
            Some(false) => DeviceStatus::Off,
            _ => DeviceStatus::On,
        }
    }
}

/// Turns a probe outcome — whether the device answered, and the power state
/// it reported if any — into its status.
pub fn classify_probe(reachable: bool, on: Option<bool>) -> (st: DeviceStatus)
    ensures
        st == spec_classify(reachable, on),
{
    if !reachable {
        DeviceStatus::Unreachable
    } else {
        match on {
            Some(false) => DeviceStatus::Off,
            _ => DeviceStatus::On,
        }
    }
}

/// The default marker a listing appends to the default device's line.
pub open spec fn marker(is_default: bool) -> Seq<char> {
    if is_default {
        " (default)"@
    } else {
        Seq::empty()
    }
}

/// One line of the device listing.
pub open spec fn list_line(p: (Seq<char>, Seq<char>), d: Option<Seq<char>>) -> Seq<char> {
    "  "@ + p.0 + " - "@ + p.1 + marker(d == Some(p.0)) + "\n"@
}

/// The lines of the device listing, in registry order.
pub open spec fn list_lines(pairs: Seq<(Seq<char>, Seq<char>)>, d: Option<Seq<char>>) -> Seq<
    char,
>
    decreases pairs.len(),
{
    if pairs.len() == 0 {
        Seq::empty()
    } else {
        list_lines(pairs.drop_last(), d) + list_line(pairs.last(), d)
    }
}

/// The whole device listing: the saved devices with the default one marked,
/// or a note that none are saved.
pub open spec fn spec_list_output(v: RegView) -> Seq<char> {
    if v.pairs.len() == 0 {
        "No devices saved"@
    } else {
        "Saved devices:\n"@ + list_lines(v.pairs, v.default_name)
    }
}

/// Renders the device listing.
pub fn list_output(c: &Config) -> (out: String)
    ensures
        out@ == spec_list_output(c@),
{
    if c.devices.len() == 0 {
        return String::from_str("No devices saved");
    }
    let mut out = String::from_str("Saved devices:\n");
    let ghost head = "Saved devices:\n"@;
    let mut i: usize = 0;
    while i < c.devices.len()
        invariant
            i <= c.devices.len(),
            out@ == head + list_lines(c@.pairs.take(i as int), c@.default_name),
        decreases c.devices.len() - i,
    {
        out.append("  ");
        out.append(c.devices[i].name.as_str());
        out.append(" - ");
        out.append(c.devices[i].address.as_str());
        if c.is_default(c.devices[i].name.as_str()) {
            out.append(" (default)");
        }
        out.append("\n");
        proof {
            assert(c@.pairs.take(i as int + 1).drop_last() =~= c@.pairs.take(i as int));
            assert(c@.pairs.take(i as int + 1).last() == c@.pairs[i as int]);
            assert(out@ =~= head + list_lines(c@.pairs.take(i as int + 1), c@.default_name));
        }
        i += 1;
    }
    proof {
        assert(c@.pairs.take(c.devices.len() as int) =~= c@.pairs);
    }
    out
}

/// The word a status is reported as.
pub open spec fn status_word(st: DeviceStatus) -> Seq<char> {
    match st {
        DeviceStatus::On => "ON"@,
        DeviceStatus::Off => "OFF"@,
        DeviceStatus::Unreachable => "UNREACHABLE"@,
    }
}

/// One line of the status report.
pub open spec fn status_line(
    p: (Seq<char>, Seq<char>),
    d: Option<Seq<char>>,
    st: DeviceStatus,
) -> Seq<char> {
    "  "@ + p.0 + " ("@ + p.1 + ")"@ + marker(d == Some(p.0)) + ": "@ + status_word(st) + "\n"@
}

/// The lines of the status report, one per device, in registry order.
pub open spec fn status_lines(
    pairs: Seq<(Seq<char>, Seq<char>)>,
    d: Option<Seq<char>>,
    sts: Seq<DeviceStatus>,
) -> Seq<char>
    decreases pairs.len(),
{
    if pairs.len() == 0 {
        Seq::empty()
    } else {
        status_lines(pairs.drop_last(), d, sts.drop_last()) + status_line(
            pairs.last(),
            d,
            sts.last(),
        )
    }
}

/// Whether some probe found its device unreachable.
pub open spec fn spec_any_unreachable(sts: Seq<DeviceStatus>) -> bool {
    exists|i: int| 0 <= i < sts.len() && sts[i] is Unreachable
}

/// The whole status report: each device's probed status, with a warning
/// when some device was unreachable, or a note that none are saved.
pub open spec fn spec_status_output(v: RegView, sts: Seq<DeviceStatus>) -> Seq<char> {
    if v.pairs.len() == 0 {
        "No devices saved"@
    } else {
        "Checking status of all devices:\n\n"@ + status_lines(v.pairs, v.default_name, sts) + if spec_any_unreachable(
            sts,
        ) {
            "\nWarning: Some devices are unreachable"@
        } else {
            Seq::empty()
        }
    }
}

/// Whether some probe found its device unreachable.
pub fn any_unreachable(sts: &Vec<DeviceStatus>) -> (r: bool)
    ensures
        r == spec_any_unreachable(sts@),
{
    let mut i: usize = 0;
    while i < sts.len()
        invariant
            i <= sts.len(),
            forall|j: int| 0 <= j < i ==> !((#[trigger] sts@[j]) is Unreachable),
        decreases sts.len() - i,
    {
        match sts[i] {
            DeviceStatus::Unreachable => {
                return true;
            }
            _ => {}
        }
        i += 1;
    }
    false
}

/// Renders the status report from the probed status of each device, given
/// in registry order.
pub fn status_output(c: &Config, sts: &Vec<DeviceStatus>) -> (out: String)
    requires
        sts@.len() == c@.pairs.len(),
    ensures
        out@ == spec_status_output(c@, sts@),
{
    if c.devices.len() == 0 {
        return String::from_str("No devices saved");
    }
    let mut out = String::from_str("Checking status of all devices:\n\n");
    let ghost head = "Checking status of all devices:\n\n"@;
    let mut i: usize = 0;
    while i < c.devices.len()
        invariant
            i <= c.devices.len(),
            sts@.len() == c@.pairs.len(),
            c.devices@.len() == c@.pairs.len(),
            out@ == head + status_lines(
                c@.pairs.take(i as int),
                c@.default_name,
                sts@.take(i as int),
            ),
        decreases c.devices.len() - i,
    {
        out.append("  ");
        out.append(c.devices[i].name.as_str());
        out.append(" (");
        out.append(c.devices[i].address.as_str());
        out.append(")");
        if c.is_default(c.devices[i].name.as_str()) {
            out.append(" (default)");
        }
        out.append(": ");
        match sts[i] {
            DeviceStatus::On => out.append("ON"),
            DeviceStatus::Off => out.append("OFF"),
            DeviceStatus::Unreachable => out.append("UNREACHABLE"),
        }
        out.append("\n");
        proof {
            assert(c@.pairs.take(i as int + 1).drop_last() =~= c@.pairs.take(i as int));
            assert(sts@.take(i as int + 1).drop_last() =~= sts@.take(i as int));
            assert(c@.pairs.take(i as int + 1).last() == c@.pairs[i as int]);
            assert(sts@.take(i as int + 1).last() == sts@[i as int]);
            assert(out@ =~= head + status_lines(
                c@.pairs.take(i as int + 1),
                c@.default_name,
                sts@.take(i as int + 1),
            ));
        }
        i += 1;
    }
    proof {
        assert(c@.pairs.take(c.devices.len() as int) =~= c@.pairs);
        assert(sts@.take(c.devices.len() as int) =~= sts@);
    }
    if any_unreachable(sts) {
        out.append("\nWarning: Some devices are unreachable");
    }
    out
}

/// The message printed after a device is added.
pub open spec fn added_msg(name: Seq<char>, ip: Seq<char>) -> Seq<char> {
    "Added device '"@ + name + "' with IP "@ + ip
}

/// The message printed after a device is deleted.
pub open spec fn deleted_msg(name: Seq<char>) -> Seq<char> {
    "Deleted device '"@ + name + "'"@
}

/// The message printed after a device becomes the default.
pub open spec fn default_set_msg(name: Seq<char>) -> Seq<char> {
    "Set '"@ + name + "' as the default device"@
}

/// Builds the message printed after a device is added.
pub fn added_message(name: &str, ip: &str) -> (m: String)
    ensures
        m@ == added_msg(name@, ip@),
{
    let mut m = String::from_str("Added device '");
    m.append(name);
    m.append("' with IP ");
    m.append(ip);
    m
}

/// Builds the message printed after a device is deleted.
pub fn deleted_message(name: &str) -> (m: String)
    ensures
        m@ == deleted_msg(name@),
{
    let mut m = String::from_str("Deleted device '");
    m.append(name);
    m.append("'");
    m
}

/// Builds the message printed after a device becomes the default.
pub fn default_set_message(name: &str) -> (m: String)
    ensures
        m@ == default_set_msg(name@),
{
    let mut m = String::from_str("Set '");
    m.append(name);
    m.append("' as the default device");
    m
}

} // verus!
