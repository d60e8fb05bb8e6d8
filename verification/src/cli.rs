//! The command line: argument parsing and the text of the headless commands.
//!
//! Each headless command runs, prints to stdout, and exits. The window is
//! started when no command is given. Running the commands is the business of
//! the program around this library; what they print is decided here.

use vstd::prelude::*;
use vstd::string::StrSliceExecFns;
use vstd::utf8::*;
use crate::VERSION;
use crate::dbus::diagnostics::{ApiLevel, ProbeReport};
use crate::device_store::{device_views, lemma_shown_before_order, shown_before, is_shown_before};
use crate::model::access::AccessState;
use crate::model::device::{opt_text, Device, SpecDevice};
use crate::model::ids::UsbId;
use crate::model::rule::RuleHandle;
use crate::model::target::Target;
use crate::remedy::{commands, explanation, remedy, Distro};
use crate::text::{decimal_chars, decimal_string, str_eq, trim_str, trim_white_space};

verus! {

broadcast use vstd::seq_lib::to_multiset_insert;

/// Exit code for invalid usage.
pub const EXIT_USAGE: u8 = 2;

/// What the command line asked for.
#[derive(Debug, Clone, Copy, PartialEq, Eq, Structural)]
pub enum Command {
    /// No command: start the window.
    Gui {
        /// `--background`: start without presenting the window.
        background: bool,
    },
    /// `--help`
    Help,
    /// `--version`
    Version,
    /// `--diagnose`
    Diagnose,
    /// `--list-devices`
    ListDevices,
    /// `--list-rules`
    ListRules,
}

/// The command an option names; `None` for `--background` and for anything
/// unknown.
pub open spec fn option_command(a: Seq<char>) -> Option<Command> {
    if a == "-h"@ || a == "--help"@ {
        Some(Command::Help)
    } else if a == "-V"@ || a == "--version"@ {
        Some(Command::Version)
    } else if a == "--diagnose"@ {
        Some(Command::Diagnose)
    } else if a == "--list-devices"@ {
        Some(Command::ListDevices)
    } else if a == "--list-rules"@ {
        Some(Command::ListRules)
    } else {
        None
    }
}

/// The arguments from `i` on, after a command `command` and the
/// `--background` flag have been seen: the command and the flag, or the
/// offending argument.
pub open spec fn scan_args(args: Seq<Seq<char>>, i: int, command: Option<Command>, background: bool) -> Result<
    (Option<Command>, bool),
    Seq<char>,
>
    decreases args.len() - i,
{
    if i < 0 || i >= args.len() {
        Ok((command, background))
    } else {
        let a = args[i];
        if a == "--background"@ {
            scan_args(args, i + 1, command, true)
        } else {
            match option_command(a) {
                None => Err(a),
                Some(c) => if command is Some {
                    Err(a)
                } else {
                    scan_args(args, i + 1, Some(c), background)
                },
            }
        }
    }
}

/// What the arguments ask for, or the offending argument: one command at
/// most, and `--background` only without one.
pub open spec fn spec_parse_args(args: Seq<Seq<char>>) -> Result<Command, Seq<char>> {
    match scan_args(args, 0, None, false) {
        Err(a) => Err(a),
        Ok((None, background)) => Ok(Command::Gui { background }),
        Ok((Some(_), true)) => Err("--background"@),
        Ok((Some(c), false)) => Ok(c),
    }
}

fn option_of(a: &str) -> (r: Option<Command>)
    ensures
        r == option_command(a@),
{
    if str_eq(a, "-h") || str_eq(a, "--help") {
        Some(Command::Help)
    } else if str_eq(a, "-V") || str_eq(a, "--version") {
        Some(Command::Version)
    } else if str_eq(a, "--diagnose") {
        Some(Command::Diagnose)
    } else if str_eq(a, "--list-devices") {
        Some(Command::ListDevices)
    } else if str_eq(a, "--list-rules") {
        Some(Command::ListRules)
    } else {
        None
    }
}

/// Parses the arguments (without the program name). Fails with the
/// offending argument, for the usage message.
pub fn parse_args(args: &[&str]) -> (r: Result<Command, String>)
    ensures
        match spec_parse_args(args@.map_values(|a: &str| a@)) {
            Ok(c) => r == Ok::<Command, String>(c),
            Err(a) => r matches Err(s) && s@ == a,
        },
{
    let ghost av = args@.map_values(|a: &str| a@);
    let mut command: Option<Command> = None;
    let mut background = false;
    let mut i: usize = 0;
    while i < args.len()
        invariant
            i <= args@.len(),
            av == args@.map_values(|a: &str| a@),
            scan_args(av, 0, None, false) == scan_args(av, i as int, command, background),
        decreases args@.len() - i,
    {
        let a = args[i];
        assert(av[i as int] == a@);
        if str_eq(a, "--background") {
            background = true;
        } else {
            match option_of(a) {
                None => {
                    return Err(a.to_owned());
                },
                Some(c) => {
                    if command.is_some() {
                        return Err(a.to_owned());
                    }
                    command = Some(c);
                },
            }
        }
        i = i + 1;
    }
    match command {
        None => Ok(Command::Gui { background }),
        Some(c) => if background {
            Err(String::from_str("--background"))
        } else {
            Ok(c)
        },
    }
}

/// The `--help` text.
pub open spec fn usage_text() -> Seq<char> {
    "usbguard-gui "@ + VERSION@ + "\nUnprivileged desktop client for USBGuard.\n\nUsage: usbguard-gui [OPTION]\n\n  (no option)       open the window\n  --background      start without presenting the window\n  --diagnose        check access to the USBGuard daemon and print the result\n  --list-devices    print the devices the daemon knows\n  --list-rules      print the ruleset in evaluation order\n  -V, --version     print the version and the USBGuard API level\n  -h, --help        print this help\n\nLogging: USBGUARD_GUI_LOG=<filter> (default: warn). The debug level records\ndevice names and serial numbers.\n"@
}

/// The `--help` text.
pub fn usage() -> (r: String)
    ensures
        r@ == usage_text(),
{
    let mut s = String::from_str("usbguard-gui ");
    s.append(VERSION);
    s.append(
        "\nUnprivileged desktop client for USBGuard.\n\nUsage: usbguard-gui [OPTION]\n\n  (no option)       open the window\n  --background      start without presenting the window\n  --diagnose        check access to the USBGuard daemon and print the result\n  --list-devices    print the devices the daemon knows\n  --list-rules      print the ruleset in evaluation order\n  -V, --version     print the version and the USBGuard API level\n  -h, --help        print this help\n\nLogging: USBGUARD_GUI_LOG=<filter> (default: warn). The debug level records\ndevice names and serial numbers.\n",
    );
    s
}

/// The `--version` line about the daemon's API level.
pub open spec fn api_description(api: Option<ApiLevel>) -> Seq<char> {
    match api {
        Some(ApiLevel::AtLeast1_1) => "USBGuard D-Bus API: 1.1.0 or later (runtime-only rules supported)"@,
        Some(ApiLevel::Before1_1) => "USBGuard D-Bus API: older than 1.1.0 (runtime-only rules not supported)"@,
        None => "USBGuard D-Bus API: not reachable (see --diagnose)"@,
    }
}

/// The `--version` line about the daemon's API level.
pub fn describe_api(api: Option<ApiLevel>) -> (r: &'static str)
    ensures
        r@ == api_description(api),
{
    match api {
        Some(ApiLevel::AtLeast1_1) => "USBGuard D-Bus API: 1.1.0 or later (runtime-only rules supported)",
        Some(ApiLevel::Before1_1) => "USBGuard D-Bus API: older than 1.1.0 (runtime-only rules not supported)",
        None => "USBGuard D-Bus API: not reachable (see --diagnose)",
    }
}

/// `n` spaces.
pub open spec fn spaces(n: int) -> Seq<char> {
    Seq::new(n as nat, |i: int| ' ')
}

/// Left-aligned in a field of `w` characters, as `{:<w}` formats it.
pub open spec fn pad_right(s: Seq<char>, w: int) -> Seq<char> {
    if s.len() >= w {
        s
    } else {
        s + spaces(w - s.len())
    }
}

/// Right-aligned in a field of `w` characters, as `{:>w}` formats it.
pub open spec fn pad_left(s: Seq<char>, w: int) -> Seq<char> {
    if s.len() >= w {
        s
    } else {
        spaces(w - s.len()) + s
    }
}

/// Appends `s` left-aligned in a field of `w` characters.
fn push_padded(out: &mut String, s: &str, w: usize)
    ensures
        final(out)@ == old(out)@ + pad_right(s@, w as int),
{
    out.append(s);
    let mut n = s.unicode_len();
    proof {
        reveal_strlit(" ");
    }
    assert(old(out)@ + s@ + spaces(0) =~= old(out)@ + s@);
    while n < w
        invariant
            s@.len() <= n <= (if s@.len() >= w {
                s@.len() as int
            } else {
                w as int
            }),
            out@ == old(out)@ + s@ + spaces(n - s@.len()),
        decreases w - n,
    {
        out.append(" ");
        proof {
            reveal_strlit(" ");
        }
        assert(old(out)@ + s@ + spaces(n - s@.len()) + " "@ =~= old(out)@ + s@ + spaces(n + 1 - s@.len()));
        n = n + 1;
    }
    assert(out@ =~= old(out)@ + pad_right(s@, w as int));
}

/// Appends `s` right-aligned in a field of `w` characters.
fn push_right_aligned(out: &mut String, s: &str, w: usize)
    ensures
        final(out)@ == old(out)@ + pad_left(s@, w as int),
{
    let len = s.unicode_len();
    let mut n = len;
    proof {
        reveal_strlit(" ");
    }
    assert(old(out)@ + spaces(0) =~= old(out)@);
    while n < w
        invariant
            len == s@.len(),
            len <= n <= (if len >= w {
                len as int
            } else {
                w as int
            }),
            out@ == old(out)@ + spaces(n - len),
        decreases w - n,
    {
        out.append(" ");
        proof {
            reveal_strlit(" ");
        }
        assert(old(out)@ + spaces(n - len) + " "@ =~= old(out)@ + spaces(n + 1 - len));
        n = n + 1;
    }
    out.append(s);
    assert(out@ =~= old(out)@ + pad_left(s@, w as int));
}

/// One line of the ruleset listing: the position from 1, the id, the text.
pub open spec fn rule_line(h: (u32, Seq<char>, usize)) -> Seq<char> {
    pad_left(decimal_chars((h.2 + 1) as nat), 4) + ". [id "@ + decimal_chars(h.0 as nat) + "] "@ + h.1 + "\n"@
}

/// The ruleset listing.
pub open spec fn rules_text(hs: Seq<(u32, Seq<char>, usize)>) -> Seq<char>
    decreases hs.len(),
{
    if hs.len() == 0 {
        Seq::empty()
    } else {
        rules_text(hs.drop_last()) + rule_line(hs.last())
    }
}

/// Formats the ruleset, numbered in evaluation order (never re-sorted).
pub fn format_rules(rules: &[RuleHandle]) -> (r: String)
    ensures
        rules@.len() == 0 ==> r@ == "The ruleset is empty.\n"@,
        rules@.len() > 0 ==> r@ == rules_text(rules@.map_values(|h: RuleHandle| h@)),
{
    if rules.len() == 0 {
        return String::from_str("The ruleset is empty.\n");
    }
    let ghost hv = rules@.map_values(|h: RuleHandle| h@);
    let mut out = String::new();
    let mut i: usize = 0;
    assert(hv.subrange(0, 0) =~= Seq::<(u32, Seq<char>, usize)>::empty());
    while i < rules.len()
        invariant
            i <= rules@.len(),
            hv == rules@.map_values(|h: RuleHandle| h@),
            out@ == rules_text(hv.subrange(0, i as int)),
        decreases rules@.len() - i,
    {
        let r = &rules[i];
        assert(hv[i as int] == r@);
        let pos = decimal_string(r.position as u128 + 1);
        push_right_aligned(&mut out, pos.as_str(), 4);
        out.append(". [id ");
        let id = decimal_string(r.id.get() as u128);
        out.append(id.as_str());
        out.append("] ");
        out.append(r.text.as_str());
        out.append("\n");
        proof {
            let sub = hv.subrange(0, i + 1);
            assert(sub.drop_last() =~= hv.subrange(0, i as int));
            assert(sub.last() == r@);
        }
        i = i + 1;
    }
    assert(hv.subrange(0, rules@.len() as int) =~= hv);
    out
}

/// The word for a device's authorization state.
pub open spec fn state_label_text(t: Target) -> Seq<char> {
    match t {
        Target::Allow => "allowed"@,
        Target::Block => "blocked"@,
        Target::Reject => "rejected"@,
        Target::Other(_) => "unknown"@,
    }
}

/// The word for a device's authorization state.
pub fn state_label(target: Target) -> (r: &'static str)
    ensures
        r@ == state_label_text(target),
{
    match target {
        Target::Allow => "allowed",
        Target::Block => "blocked",
        Target::Reject => "rejected",
        Target::Other(_) => "unknown",
    }
}

/// A text column of the device table: the trimmed text, or a dash when
/// there is none.
pub open spec fn dash(v: Option<Seq<char>>) -> Seq<char> {
    match v {
        Some(s) => if trim_white_space(s).len() > 0 {
            trim_white_space(s)
        } else {
            "\u{2014}"@
        },
        None => "\u{2014}"@,
    }
}

/// The `VID:PID` column.
pub open spec fn usb_id_column(u: Option<UsbId>) -> Seq<char> {
    match u {
        Some(id) => decode_utf8(id.text()),
        None => "\u{2014}"@,
    }
}

/// The header of the device table.
pub open spec fn devices_header() -> Seq<char> {
    pad_right("ID"@, 5) + " "@ + pad_right("STATE"@, 9) + " "@ + pad_right("VID:PID"@, 10) + " "@ + pad_right(
        "PORT"@,
        8,
    ) + " "@ + pad_right("NAME"@, 28) + " SERIAL\n"@
}

/// The first columns of a device's row: id, state, `VID:PID`.
pub open spec fn row_start(d: SpecDevice) -> Seq<char> {
    pad_right(decimal_chars(d.id as nat), 5) + " "@ + pad_right(state_label_text(d.target), 9) + " "@
        + pad_right(usb_id_column(d.attrs.usb_id), 10) + " "@
}

/// The last columns of a device's row: port, name, serial.
pub open spec fn row_end(d: SpecDevice) -> Seq<char> {
    pad_right(dash(d.attrs.via_port), 8) + " "@ + pad_right(dash(d.attrs.name), 28) + " "@ + dash(d.attrs.serial)
        + "\n"@
}

/// The line under a device whose text the parser rejected.
pub open spec fn parse_note(d: SpecDevice) -> Seq<char> {
    match d.parse_error {
        Some(e) => "      (could not parse: "@ + e.spec_text() + ") "@ + d.rule_text + "\n"@,
        None => Seq::empty(),
    }
}

/// One device's rows: its columns, then the text the parser rejected, if it
/// did.
pub open spec fn device_row(d: SpecDevice) -> Seq<char> {
    row_start(d) + row_end(d) + parse_note(d)
}

/// The rows of some devices, in order.
pub open spec fn device_rows(ds: Seq<SpecDevice>) -> Seq<char>
    decreases ds.len(),
{
    if ds.len() == 0 {
        Seq::empty()
    } else {
        device_rows(ds.drop_last()) + device_row(ds.last())
    }
}

/// No device is shown before one listed earlier.
pub open spec fn in_presentation_order(s: Seq<SpecDevice>) -> bool {
    forall|i: int, j: int| 0 <= i < j < s.len() ==> !shown_before(s[j], s[i])
}

fn push_dash(out: &mut String, v: &Option<String>, w: usize)
    ensures
        final(out)@ == old(out)@ + pad_right(dash(opt_text(*v)), w as int),
{
    let t = match v {
        Some(s) => trim_str(s.as_str()),
        None => "",
    };
    proof {
        reveal_strlit("");
    }
    if t.is_empty() {
        push_padded(out, "\u{2014}", w);
    } else {
        push_padded(out, t, w);
    }
}

fn push_row_start(out: &mut String, d: &Device)
    ensures
        final(out)@ == old(out)@ + row_start(d@),
{
    let id = decimal_string(d.id.get() as u128);
    push_padded(out, id.as_str(), 5);
    out.append(" ");
    push_padded(out, state_label(d.target), 9);
    out.append(" ");
    match &d.attrs.usb_id {
        Some(u) => {
            let t = u.to_string();
            push_padded(out, t.as_str(), 10);
        },
        None => {
            push_padded(out, "\u{2014}", 10);
        },
    }
    out.append(" ");
}

fn push_row_end(out: &mut String, d: &Device)
    ensures
        final(out)@ == old(out)@ + row_end(d@),
{
    push_dash(out, &d.attrs.via_port, 8);
    out.append(" ");
    push_dash(out, &d.attrs.name, 28);
    out.append(" ");
    let serial = match &d.attrs.serial {
        Some(s) => trim_str(s.as_str()),
        None => "",
    };
    proof {
        reveal_strlit("");
    }
    if serial.is_empty() {
        out.append("\u{2014}");
    } else {
        out.append(serial);
    }
    out.append("\n");
}

fn push_parse_note(out: &mut String, d: &Device)
    ensures
        final(out)@ == old(out)@ + parse_note(d@),
{
    match d.parse_error {
        Some(e) => {
            out.append("      (could not parse: ");
            let t = e.to_string();
            out.append(t.as_str());
            out.append(") ");
            out.append(d.rule_text.as_str());
            out.append("\n");
        },
        None => {
            assert(out@ =~= old(out)@ + parse_note(d@));
        },
    }
}

fn push_device_row(out: &mut String, d: &Device)
    ensures
        final(out)@ == old(out)@ + device_row(d@),
{
    push_row_start(out, d);
    push_row_end(out, d);
    push_parse_note(out, d);
    assert(out@ =~= old(out)@ + device_row(d@));
}

/// Formats devices as a table, sorted by port: `listDevices` order is not
/// stable, so sorting is the client's job.
pub fn format_devices(devices: &[Device]) -> (r: String)
    ensures
        exists|s: Seq<SpecDevice>|
            #![trigger device_rows(s)]
            s.to_multiset() == device_views(devices@).to_multiset() && in_presentation_order(s) && r@
                == devices_header() + device_rows(s),
{
    let ghost input = device_views(devices@);
    let mut sorted: Vec<Device> = Vec::new();
    let mut i: usize = 0;
    assert(device_views(sorted@) =~= input.subrange(0, 0));
    while i < devices.len()
        invariant
            i <= devices@.len(),
            input == device_views(devices@),
            device_views(sorted@).to_multiset() == input.subrange(0, i as int).to_multiset(),
            in_presentation_order(device_views(sorted@)),
        decreases devices@.len() - i,
    {
        let x = devices[i].duplicate();
        assert(x@ == input[i as int]);
        let ghost sv = device_views(sorted@);
        let mut p: usize = 0;
        while p < sorted.len() && !is_shown_before(&x, &sorted[p])
            invariant
                p <= sorted@.len(),
                sv == device_views(sorted@),
                forall|q: int| 0 <= q < p ==> !shown_before(x@, #[trigger] sv[q]),
            decreases sorted@.len() - p,
        {
            assert(sv[p as int] == sorted@[p as int]@);
            p = p + 1;
        }
        proof {
            if p < sv.len() {
                assert(sv[p as int] == sorted@[p as int]@);
            }
            let after = sv.insert(p as int, x@);
            assert forall|a: int, b: int| 0 <= a < b < after.len() implies !shown_before(after[b], after[a]) by {
                if b < p {
                } else if a < p && b == p {
                } else if a < p {
                    assert(after[b] == sv[b - 1]);
                } else if a == p {
                    assert(after[b] == sv[b - 1]);
                    if shown_before(sv[b - 1], x@) {
                        lemma_shown_before_order(sv[b - 1], x@, sv[p as int]);
                    }
                } else {
                    assert(after[a] == sv[a - 1]);
                    assert(after[b] == sv[b - 1]);
                }
            }
        }
        sorted.insert(p, x);
        proof {
            assert(device_views(sorted@) =~= sv.insert(p as int, input[i as int]));
            assert(input.subrange(0, i + 1) =~= input.subrange(0, i as int).push(input[i as int]));
            vstd::seq_lib::to_multiset_build(input.subrange(0, i as int), input[i as int]);
        }
        i = i + 1;
    }
    assert(input.subrange(0, devices@.len() as int) =~= input);
    let mut out = String::new();
    push_padded(&mut out, "ID", 5);
    out.append(" ");
    push_padded(&mut out, "STATE", 9);
    out.append(" ");
    push_padded(&mut out, "VID:PID", 10);
    out.append(" ");
    push_padded(&mut out, "PORT", 8);
    out.append(" ");
    push_padded(&mut out, "NAME", 28);
    out.append(" SERIAL\n");
    let ghost sv = device_views(sorted@);
    let ghost head = out@;
    assert(head == devices_header());
    let mut k: usize = 0;
    assert(sv.subrange(0, 0) =~= Seq::<SpecDevice>::empty());
    while k < sorted.len()
        invariant
            k <= sorted@.len(),
            sv == device_views(sorted@),
            out@ == head + device_rows(sv.subrange(0, k as int)),
        decreases sorted@.len() - k,
    {
        let d = &sorted[k];
        assert(sv[k as int] == d@);
        push_device_row(&mut out, d);
        proof {
            let sub = sv.subrange(0, k + 1);
            assert(sub.drop_last() =~= sv.subrange(0, k as int));
            assert(sub.last() == d@);
        }
        k = k + 1;
    }
    assert(sv.subrange(0, sorted@.len() as int) =~= sv);
    out
}

/// `yes`, `no`, or `unknown`.
pub open spec fn yes_no_text(value: Option<bool>, yes: Seq<char>, no: Seq<char>) -> Seq<char> {
    match value {
        Some(true) => yes,
        Some(false) => no,
        None => "unknown"@,
    }
}

/// `yes`, `no`, or `unknown`.
pub fn yes_no(value: Option<bool>, yes: &str, no: &str) -> (r: String)
    ensures
        r@ == yes_no_text(value, yes@, no@),
{
    match value {
        Some(true) => String::from_str(yes),
        Some(false) => String::from_str(no),
        None => String::from_str("unknown"),
    }
}

/// One labelled line of the report.
pub open spec fn report_line(label: Seq<char>, value: Seq<char>) -> Seq<char> {
    "  "@ + pad_right(label, 28) + value + "\n"@
}

fn push_line(out: &mut String, label: &str, value: &str)
    ensures
        final(out)@ == old(out)@ + report_line(label@, value@),
{
    out.append("  ");
    push_padded(out, label, 28);
    out.append(value);
    out.append("\n");
    assert(out@ =~= old(out)@ + report_line(label@, value@));
}

/// What the report says of the bridge.
pub open spec fn bridge_text(owned: Option<bool>, activatable: Option<bool>) -> Seq<char> {
    match (owned, activatable) {
        (Some(true), _) => "running"@,
        (Some(false), Some(true)) => "installed, started on demand"@,
        (Some(false), Some(false)) => "not installed"@,
        _ => "unknown"@,
    }
}

/// What the report says of reading.
pub open spec fn read_text(target: Option<Seq<char>>) -> Seq<char> {
    match target {
        Some(v) => "ok (ImplicitPolicyTarget = "@ + v + ")"@,
        None => "no"@,
    }
}

/// What the report says of the API level.
pub open spec fn api_text(api: ApiLevel) -> Seq<char> {
    match api {
        ApiLevel::AtLeast1_1 => "1.1.0 or later (runtime-only rules supported)"@,
        ApiLevel::Before1_1 => "older than 1.1.0 (runtime-only rules not supported)"@,
    }
}

/// The commands of a remedy, one per line.
pub open spec fn command_lines(cs: Seq<Seq<char>>) -> Seq<char>
    decreases cs.len(),
{
    if cs.len() == 0 {
        Seq::empty()
    } else {
        command_lines(cs.drop_last()) + "  $ "@ + cs.last() + "\n"@
    }
}

/// The probe lines of a report.
pub open spec fn report_facts(report: ProbeReport) -> Seq<char> {
    presence_facts(report) + access_facts(report)
}

/// The lines on the bus, the bridge and the daemon.
pub open spec fn presence_facts(report: ProbeReport) -> Seq<char> {
    report_line(
        "System bus"@,
        if report.state is BusUnavailable {
            "unavailable"@
        } else {
            "ok"@
        },
    ) + report_line("Bridge (org.usbguard1)"@, bridge_text(report.bridge_owned, report.bridge_activatable))
        + report_line("usbguard.service"@, yes_no_text(report.daemon_running, "active"@, "not active"@))
}

/// The lines on the Polkit agent, reading, writing and the API level.
pub open spec fn access_facts(report: ProbeReport) -> Seq<char> {
    report_line("Polkit agent"@, yes_no_text(report.agent_present, "detected"@, "none detected"@))
        + report_line("Read access"@, read_text(opt_text(report.implicit_policy_target))) + report_line(
        "Write access"@,
        "not probed \u{2014} the only test of a write is a write"@,
    ) + match report.api {
        Some(a) => report_line("API level"@, api_text(a)),
        None => Seq::empty(),
    }
}

/// The `--diagnose` text: the probe lines, the result, and the remedy.
pub open spec fn report_text(report: ProbeReport, distro: Distro) -> Seq<char> {
    "USBGuard GUI "@ + VERSION@ + " \u{2014} access diagnostics\n\n"@ + report_facts(report) + "\nResult: "@
        + report.state.spec_text() + "\n"@ + if report.state is Connected {
        Seq::empty()
    } else {
        "\n"@ + explanation(report.state) + "\n"@ + command_lines(commands(report.state, distro))
    }
}

fn push_facts(out: &mut String, report: &ProbeReport)
    ensures
        final(out)@ == old(out)@ + report_facts(*report),
{
    push_presence(out, report);
    push_access(out, report);
    assert(out@ =~= old(out)@ + report_facts(*report));
}

fn push_presence(out: &mut String, report: &ProbeReport)
    ensures
        final(out)@ == old(out)@ + presence_facts(*report),
{
    let bus = match report.state {
        AccessState::BusUnavailable => "unavailable",
        _ => "ok",
    };
    push_line(out, "System bus", bus);
    let bridge = match (report.bridge_owned, report.bridge_activatable) {
        (Some(true), _) => "running",
        (Some(false), Some(true)) => "installed, started on demand",
        (Some(false), Some(false)) => "not installed",
        _ => "unknown",
    };
    push_line(out, "Bridge (org.usbguard1)", bridge);
    let daemon = yes_no(report.daemon_running, "active", "not active");
    push_line(out, "usbguard.service", daemon.as_str());
    assert(out@ =~= old(out)@ + presence_facts(*report));
}

fn push_access(out: &mut String, report: &ProbeReport)
    ensures
        final(out)@ == old(out)@ + access_facts(*report),
{
    let agent = yes_no(report.agent_present, "detected", "none detected");
    push_line(out, "Polkit agent", agent.as_str());
    let read = match &report.implicit_policy_target {
        Some(v) => {
            let mut s = String::from_str("ok (ImplicitPolicyTarget = ");
            s.append(v.as_str());
            s.append(")");
            s
        },
        None => String::from_str("no"),
    };
    push_line(out, "Read access", read.as_str());
    push_line(out, "Write access", "not probed \u{2014} the only test of a write is a write");
    let ghost mid = out@;
    match report.api {
        Some(a) => {
            let t = match a {
                ApiLevel::AtLeast1_1 => "1.1.0 or later (runtime-only rules supported)",
                ApiLevel::Before1_1 => "older than 1.1.0 (runtime-only rules not supported)",
            };
            push_line(out, "API level", t);
        },
        None => {},
    }
    assert(out@ =~= old(out)@ + access_facts(*report));
}

/// Formats a probe report for `--diagnose`.
pub fn format_report(report: &ProbeReport, distro: Distro) -> (r: String)
    ensures
        r@ == report_text(*report, distro),
{
    let mut out = String::from_str("USBGuard GUI ");
    out.append(VERSION);
    out.append(" \u{2014} access diagnostics\n\n");
    push_facts(&mut out, report);
    out.append("\nResult: ");
    let state = report.state.to_string();
    out.append(state.as_str());
    out.append("\n");
    let ghost before = out@;
    match remedy(&report.state, distro) {
        Some(r) => {
            out.append("\n");
            out.append(r.explanation.as_str());
            out.append("\n");
            let ghost cs = r.commands@.map_values(|c: String| c@);
            let ghost head = out@;
            let mut i: usize = 0;
            assert(cs.subrange(0, 0) =~= Seq::<Seq<char>>::empty());
            while i < r.commands.len()
                invariant
                    i <= r.commands@.len(),
                    cs == r.commands@.map_values(|c: String| c@),
                    out@ == head + command_lines(cs.subrange(0, i as int)),
                decreases r.commands@.len() - i,
            {
                out.append("  $ ");
                out.append(r.commands[i].as_str());
                out.append("\n");
                proof {
                    let sub = cs.subrange(0, i + 1);
                    assert(sub.drop_last() =~= cs.subrange(0, i as int));
                    assert(sub.last() == r.commands@[i as int]@);
                }
                i = i + 1;
            }
            assert(cs.subrange(0, r.commands@.len() as int) =~= cs);
        },
        None => {},
    }
    assert(out@ =~= report_text(*report, distro));
    out
}

/// The long option that asks for a command, as the usage text lists it; the
/// window has none.
pub open spec fn long_option(c: Command) -> Option<Seq<char>> {
    match c {
        Command::Gui { .. } => None,
        Command::Help => Some("--help"@),
        Command::Version => Some("--version"@),
        Command::Diagnose => Some("--diagnose"@),
        Command::ListDevices => Some("--list-devices"@),
        Command::ListRules => Some("--list-rules"@),
    }
}

proof fn lemma_option_literals()
    ensures
        "--help"@.len() == 6 && "--help"@[2] == 'h',
        "-h"@.len() == 2,
        "-V"@.len() == 2,
        "--version"@.len() == 9 && "--version"@[2] == 'v',
        "--diagnose"@.len() == 10 && "--diagnose"@[2] == 'd',
        "--list-devices"@.len() == 14 && "--list-devices"@[2] == 'l',
        "--list-rules"@.len() == 12 && "--list-rules"@[2] == 'l',
        "--background"@.len() == 12 && "--background"@[2] == 'b',
{
    reveal_strlit("--help");
    reveal_strlit("-h");
    reveal_strlit("-V");
    reveal_strlit("--version");
    reveal_strlit("--diagnose");
    reveal_strlit("--list-devices");
    reveal_strlit("--list-rules");
    reveal_strlit("--background");
}

/// Each command is asked for by its own option: the arguments made of a
/// command's long option alone parse to that command, and to no other.
pub proof fn lemma_option_asks_for_its_command(c: Command)
    requires
        long_option(c) is Some,
    ensures
        spec_parse_args(seq![long_option(c)->Some_0]) == Ok::<Command, Seq<char>>(c),
{
    lemma_option_literals();
    let o = long_option(c)->Some_0;
    let args = seq![o];
    assert(args[0] == o);
    if c is ListRules {
        assert(o[2] != "--background"@[2]);
    }
    assert(o != "--background"@);
    assert(option_command(o) == Some(c));
    assert(scan_args(args, 1, Some(c), false) == Ok::<(Option<Command>, bool), Seq<char>>((Some(c), false)));
}

/// No argument asks for the window in the foreground, and `--background`
/// alone asks for it in the background.
pub proof fn lemma_no_option_is_the_window()
    ensures
        spec_parse_args(Seq::empty()) == Ok::<Command, Seq<char>>(Command::Gui { background: false }),
        spec_parse_args(seq!["--background"@]) == Ok::<Command, Seq<char>>(Command::Gui { background: true }),
{
    let args = seq!["--background"@];
    assert(args[0] == "--background"@);
    assert(scan_args(args, 1, None, true) == Ok::<(Option<Command>, bool), Seq<char>>((None, true)));
}

/// An option asks only for the command it names: its long option, or the
/// short form `-h` of `--help` and `-V` of `--version`.
pub proof fn lemma_option_names_its_command(a: Seq<char>, c: Command)
    requires
        option_command(a) == Some(c),
    ensures
        long_option(c) == Some(a) || (c is Help && a == "-h"@) || (c is Version && a == "-V"@),
{
}

} // verus!
