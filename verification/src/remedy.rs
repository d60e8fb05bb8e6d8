//! What to tell the user for each access state.
//!
//! The program never runs any of these commands: every remedy changes system
//! configuration, and that is the administrator's decision. It prints them,
//! and the interface offers a copy button.
//!
//! The distribution is read from `/usr/lib/os-release`, not `/etc/os-release`:
//! the program reads nothing under `/etc`, and the `/usr/lib` file is the one
//! `/etc/os-release` normally links to.

use vstd::prelude::*;
use crate::model::access::AccessState;
use crate::text::{ascii_lower_char, chars_eq, chars_of, lower_char, next_word, sub_chars, words};

verus! {

/// Where the packages ship the example Polkit rule.
pub const POLKIT_RULE_EXAMPLE: &'static str = "/usr/share/doc/usbguard-gui/70-usbguard-gui.rules.example";

/// The host's os-release file, as Flatpak exposes it to a sandbox.
pub const HOST_OS_RELEASE: &'static str = "/run/host/os-release";

/// The distribution's own os-release file.
pub const OS_RELEASE: &'static str = "/usr/lib/os-release";

/// The distribution families whose USBGuard packaging differs.
#[derive(Debug, Clone, Copy, PartialEq, Eq, Structural)]
pub enum Distro {
    /// Fedora, RHEL, CentOS, and derivatives: `dnf`.
    Fedora,
    /// Debian, Ubuntu, and derivatives: `apt`.
    Debian,
    /// Arch and derivatives: `pacman`.
    Arch,
    /// Anything else.
    Unknown,
}

/// The index of the first line feed, or the length when there is none.
pub open spec fn newline_at(t: Seq<char>) -> int
    decreases t.len(),
{
    if t.len() == 0 || t[0] == '\n' {
        0
    } else {
        1 + newline_at(t.drop_first())
    }
}

/// [`newline_at`] is the index of the first line feed, or the length.
pub proof fn lemma_newline_at(t: Seq<char>)
    ensures
        0 <= newline_at(t) <= t.len(),
        newline_at(t) < t.len() ==> t[newline_at(t)] == '\n',
        forall|i: int| 0 <= i < newline_at(t) ==> t[i] != '\n',
    decreases t.len(),
{
    if t.len() > 0 && t[0] != '\n' {
        lemma_newline_at(t.drop_first());
        assert forall|i: int| 0 <= i < newline_at(t) implies t[i] != '\n' by {
            if i > 0 {
                assert(t[i] == t.drop_first()[i - 1]);
            }
        }
    }
}

/// A line ended by a line feed loses a carriage return before it.
pub open spec fn strip_cr(l: Seq<char>) -> Seq<char> {
    if l.len() > 0 && l.last() == '\r' {
        l.drop_last()
    } else {
        l
    }
}

/// The lines of some text, as `str::lines` yields them: split at `\n` or
/// `\r\n`, the final line ending optional.
pub open spec fn lines(t: Seq<char>) -> Seq<Seq<char>>
    decreases t.len(),
{
    if t.len() == 0 {
        Seq::empty()
    } else {
        let e = newline_at(t);
        proof {
            lemma_newline_at(t);
        }
        if e == t.len() {
            seq![t]
        } else {
            seq![strip_cr(t.subrange(0, e))] + lines(t.subrange(e + 1, t.len() as int))
        }
    }
}

/// The text after `key=` on the first line that starts with it.
pub open spec fn field_in(ls: Seq<Seq<char>>, key: Seq<char>) -> Option<Seq<char>>
    decreases ls.len(),
{
    if ls.len() == 0 {
        None
    } else {
        let l = ls[0];
        if l.len() > key.len() && l.subrange(0, key.len() as int) == key && l[key.len() as int] == '=' {
            Some(l.subrange(key.len() as int + 1, l.len() as int))
        } else {
            field_in(ls.drop_first(), key)
        }
    }
}

/// A quote character.
pub open spec fn is_quote(c: char) -> bool {
    c == '"' || c == '\''
}

/// Quotes dropped from the front.
pub open spec fn trim_start_quotes(t: Seq<char>) -> Seq<char>
    decreases t.len(),
{
    if t.len() > 0 && is_quote(t[0]) {
        trim_start_quotes(t.drop_first())
    } else {
        t
    }
}

/// Quotes dropped from the back.
pub open spec fn trim_end_quotes(t: Seq<char>) -> Seq<char>
    decreases t.len(),
{
    if t.len() > 0 && is_quote(t.last()) {
        trim_end_quotes(t.drop_last())
    } else {
        t
    }
}

/// The value of an os-release field: unquoted, in ASCII lower case; empty
/// when the field is missing.
pub open spec fn os_release_field(t: Seq<char>, key: Seq<char>) -> Seq<char> {
    match field_in(lines(t), key) {
        Some(v) => trim_end_quotes(trim_start_quotes(v)).map_values(|c: char| lower_char(c)),
        None => Seq::empty(),
    }
}

/// The family an `ID` or `ID_LIKE` word names, if any.
pub open spec fn distro_of_word(w: Seq<char>) -> Option<Distro> {
    if w == "fedora"@ || w == "rhel"@ || w == "centos"@ {
        Some(Distro::Fedora)
    } else if w == "debian"@ || w == "ubuntu"@ {
        Some(Distro::Debian)
    } else if w == "arch"@ {
        Some(Distro::Arch)
    } else {
        None
    }
}

/// The family the first telling word names.
pub open spec fn distro_of_words(ws: Seq<Seq<char>>) -> Distro
    decreases ws.len(),
{
    if ws.len() == 0 {
        Distro::Unknown
    } else {
        match distro_of_word(ws[0]) {
            Some(d) => d,
            None => distro_of_words(ws.drop_first()),
        }
    }
}

/// The distribution os-release content names, using `ID` then `ID_LIKE`.
pub open spec fn spec_from_os_release(t: Seq<char>) -> Distro {
    distro_of_words(words(os_release_field(t, "ID"@) + " "@ + os_release_field(t, "ID_LIKE"@)))
}

/// The text after `key=` on the first line of `t` that starts with it.
fn find_field(t: &Vec<char>, key: &str) -> (r: Option<(usize, usize)>)
    ensures
        match r {
            Some((a, b)) => a <= b <= t@.len() && field_in(lines(t@), key@) == Some(
                t@.subrange(a as int, b as int),
            ),
            None => field_in(lines(t@), key@) is None,
        },
{
    let k = chars_of(key);
    let n = t.len();
    let mut pos: usize = 0;
    assert(t@.subrange(0, n as int) =~= t@);
    while pos < n
        invariant
            n == t@.len(),
            k@ == key@,
            pos <= n,
            field_in(lines(t@), key@) == field_in(lines(t@.subrange(pos as int, n as int)), key@),
        decreases n - pos,
    {
        let ghost rest = t@.subrange(pos as int, n as int);
        let mut j = pos;
        while j < n && t[j] != '\n'
            invariant
                n == t@.len(),
                pos <= j <= n,
                rest == t@.subrange(pos as int, n as int),
                newline_at(rest) == (j - pos) + newline_at(t@.subrange(j as int, n as int)),
            decreases n - j,
        {
            assert(t@.subrange(j as int, n as int).drop_first() =~= t@.subrange(j + 1, n as int));
            j = j + 1;
        }
        proof {
            lemma_newline_at(rest);
        }
        let end = if j < n && j > pos && t[j - 1] == '\r' {
            j - 1
        } else {
            j
        };
        let ghost line = t@.subrange(pos as int, end as int);
        proof {
            if j < n {
                assert(rest.subrange(0, j - pos) =~= t@.subrange(pos as int, j as int));
                if j > pos {
                    assert(t@.subrange(pos as int, j as int).drop_last() =~= t@.subrange(pos as int, j - 1));
                }
                assert(strip_cr(t@.subrange(pos as int, j as int)) =~= line);
                assert(lines(rest) == seq![line] + lines(t@.subrange(j + 1, n as int))) by {
                    assert(rest.subrange(j - pos + 1, rest.len() as int) =~= t@.subrange(j + 1, n as int));
                }
            } else {
                assert(lines(rest) == seq![line]);
            }
        }
        let kl = k.len();
        let mut matches = end - pos > kl;
        let mut m: usize = 0;
        while matches && m < kl
            invariant
                n == t@.len(),
                pos <= end <= n,
                kl == k@.len(),
                m <= kl,
                line == t@.subrange(pos as int, end as int),
                matches ==> end - pos > kl,
                matches ==> forall|q: int| 0 <= q < m ==> line[q] == k@[q],
                !matches ==> !(line.len() > kl && line.subrange(0, kl as int) == k@),
            decreases kl - m + (if matches {
                1int
            } else {
                0
            }),
        {
            if t[pos + m] != k[m] {
                assert(line.subrange(0, kl as int)[m as int] != k@[m as int]);
                matches = false;
            } else {
                m = m + 1;
            }
        }
        if matches {
            assert(line.subrange(0, kl as int) =~= k@);
        }
        if matches && t[pos + kl] == '=' {
            proof {
                assert(line.subrange(kl + 1, line.len() as int) =~= t@.subrange(pos + kl + 1, end as int));
                assert(seq![line].drop_first() =~= Seq::<Seq<char>>::empty());
                if j < n {
                    assert((seq![line] + lines(t@.subrange(j + 1, n as int)))[0] == line);
                }
            }
            return Some((pos + kl + 1, end));
        }
        proof {
            if j < n {
                assert((seq![line] + lines(t@.subrange(j + 1, n as int))).drop_first() =~= lines(
                    t@.subrange(j + 1, n as int),
                ));
            } else {
                assert(seq![line].drop_first() =~= Seq::<Seq<char>>::empty());
                assert(t@.subrange(n as int, n as int) =~= Seq::<char>::empty());
            }
        }
        if j < n {
            pos = j + 1;
        } else {
            pos = n;
        }
    }
    proof {
        assert(t@.subrange(n as int, n as int) =~= Seq::<char>::empty());
    }
    None
}

/// The value of an os-release field: unquoted, in ASCII lower case; empty
/// when the field is missing.
fn field_value(t: &Vec<char>, key: &str) -> (r: Vec<char>)
    ensures
        r@ == os_release_field(t@, key@),
{
    match find_field(t, key) {
        None => Vec::new(),
        Some((a0, b0)) => {
            let ghost v = t@.subrange(a0 as int, b0 as int);
            let mut a = a0;
            assert(t@.subrange(a as int, b0 as int) =~= v);
            while a < b0 && (t[a] == '"' || t[a] == '\'')
                invariant
                    a0 <= a <= b0 <= t@.len(),
                    v == t@.subrange(a0 as int, b0 as int),
                    trim_start_quotes(v) == trim_start_quotes(t@.subrange(a as int, b0 as int)),
                decreases b0 - a,
            {
                assert(t@.subrange(a as int, b0 as int).drop_first() =~= t@.subrange(a + 1, b0 as int));
                a = a + 1;
            }
            let mut b = b0;
            while b > a && (t[b - 1] == '"' || t[b - 1] == '\'')
                invariant
                    a <= b <= b0 <= t@.len(),
                    trim_end_quotes(trim_start_quotes(v)) == trim_end_quotes(t@.subrange(a as int, b as int)),
                decreases b - a,
            {
                assert(t@.subrange(a as int, b as int).drop_last() =~= t@.subrange(a as int, b - 1));
                b = b - 1;
            }
            let mut out: Vec<char> = Vec::new();
            let mut i = a;
            while i < b
                invariant
                    a <= i <= b <= t@.len(),
                    out@ == t@.subrange(a as int, i as int).map_values(|c: char| lower_char(c)),
                decreases b - i,
            {
                out.push(ascii_lower_char(t[i]));
                i = i + 1;
                assert(out@ =~= t@.subrange(a as int, i as int).map_values(|c: char| lower_char(c)));
            }
            out
        },
    }
}

impl Distro {
    /// Which os-release file to read: the host's when it is exposed (under
    /// Flatpak, `/usr/lib/os-release` describes the sandbox runtime).
    pub fn os_release_path(host_exposed: bool) -> (r: &'static str)
        ensures
            r@ == if host_exposed {
                HOST_OS_RELEASE@
            } else {
                OS_RELEASE@
            },
    {
        if host_exposed {
            HOST_OS_RELEASE
        } else {
            OS_RELEASE
        }
    }

    /// The distribution, from the content of the os-release file that
    /// [`Distro::os_release_path`] names; `Unknown` if it could not be read.
    pub fn detect(content: Option<&str>) -> (r: Self)
        ensures
            r == match content {
                Some(t) => spec_from_os_release(t@),
                None => Distro::Unknown,
            },
    {
        match content {
            Some(t) => Distro::from_os_release(t),
            None => Distro::Unknown,
        }
    }

    /// Detects from os-release content, using `ID` then `ID_LIKE`.
    pub fn from_os_release(text: &str) -> (r: Self)
        ensures
            r == spec_from_os_release(text@),
    {
        let t = chars_of(text);
        let mut ids = field_value(&t, "ID");
        ids.push(' ');
        let like = field_value(&t, "ID_LIKE");
        let mut i: usize = 0;
        let ghost first = ids@;
        while i < like.len()
            invariant
                i <= like@.len(),
                ids@ == first + like@.subrange(0, i as int),
            decreases like@.len() - i,
        {
            ids.push(like[i]);
            i = i + 1;
            assert(ids@ =~= first + like@.subrange(0, i as int));
        }
        proof {
            assert(like@.subrange(0, like@.len() as int) =~= like@);
            assert(ids@ =~= os_release_field(text@, "ID"@) + " "@ + os_release_field(text@, "ID_LIKE"@)) by {
                reveal_strlit(" ");
            }
        }
        let n = ids.len();
        let mut pos: usize = 0;
        assert(ids@.subrange(0, n as int) =~= ids@);
        while pos < n
            invariant
                n == ids@.len(),
                pos <= n,
                spec_from_os_release(text@) == distro_of_words(words(ids@.subrange(pos as int, n as int))),
            decreases n - pos,
        {
            match next_word(&ids, pos) {
                None => {
                    return Distro::Unknown;
                },
                Some((a, b)) => {
                    let w = sub_chars(&ids, a, b);
                    proof {
                        let ws = seq![w@] + words(ids@.subrange(b as int, n as int));
                        assert(ws[0] == w@);
                        assert(ws.drop_first() =~= words(ids@.subrange(b as int, n as int)));
                    }
                    if chars_eq(&w, "fedora") || chars_eq(&w, "rhel") || chars_eq(&w, "centos") {
                        return Distro::Fedora;
                    }
                    if chars_eq(&w, "debian") || chars_eq(&w, "ubuntu") {
                        return Distro::Debian;
                    }
                    if chars_eq(&w, "arch") {
                        return Distro::Arch;
                    }
                    pos = b;
                },
            }
        }
        assert(ids@.subrange(n as int, n as int) =~= Seq::<char>::empty());
        Distro::Unknown
    }

    /// The command that installs the D-Bus bridge: Fedora ships the bridge as
    /// a separate `usbguard-dbus` package; Debian, Ubuntu, and Arch include
    /// it in `usbguard` itself.
    pub fn install_bridge(self) -> (r: &'static str)
        ensures
            r@ == self.spec_install_bridge(),
    {
        match self {
            Distro::Fedora => "sudo dnf install usbguard-dbus",
            Distro::Debian => "sudo apt install usbguard",
            Distro::Arch => "sudo pacman -S usbguard",
            Distro::Unknown => "install your distribution's usbguard-dbus (or usbguard) package",
        }
    }

    /// The command that installs the D-Bus bridge.
    pub open spec fn spec_install_bridge(self) -> Seq<char> {
        match self {
            Distro::Fedora => "sudo dnf install usbguard-dbus"@,
            Distro::Debian => "sudo apt install usbguard"@,
            Distro::Arch => "sudo pacman -S usbguard"@,
            Distro::Unknown => "install your distribution's usbguard-dbus (or usbguard) package"@,
        }
    }
}

/// A remedy: one explanation, and the commands that apply it.
#[derive(Debug, Clone, PartialEq, Eq)]
pub struct Remedy {
    /// What is wrong, in one or two sentences.
    pub explanation: String,
    /// Commands for an administrator, in order.
    pub commands: Vec<String>,
}

impl View for Remedy {
    type V = (Seq<char>, Seq<Seq<char>>);

    open spec fn view(&self) -> (Seq<char>, Seq<Seq<char>>) {
        (self.explanation@, self.commands@.map_values(|c: String| c@))
    }
}

/// Starts the bridge.
pub const START_BRIDGE: &'static str = "sudo systemctl enable --now usbguard-dbus.service";

/// Starts the daemon.
pub const START_DAEMON: &'static str = "sudo systemctl enable --now usbguard.service";

/// Grants this user access through the daemon's IPC access control.
pub const ADD_IPC_USER: &'static str = "sudo usbguard add-user \"$USER\" --devices=modify,list,listen --policy=list,modify --exceptions=listen --parameters=list";

/// Restarts the daemon.
pub const RESTART_DAEMON: &'static str = "sudo systemctl restart usbguard.service";

/// Installs the example Polkit rule.
pub open spec fn install_polkit_rule() -> Seq<char> {
    "sudo install -m 0644 "@ + POLKIT_RULE_EXAMPLE@ + " /etc/polkit-1/rules.d/70-usbguard-gui.rules"@
}

/// The explanation for a state without a remedy-specific addition.
pub open spec fn explanation(state: AccessState) -> Seq<char> {
    match state {
        AccessState::Connected { .. } => Seq::empty(),
        AccessState::BusUnavailable => "There is no system D-Bus in this session. This usually means the program runs in a container or sandbox without access to the host's system bus."@,
        AccessState::BridgeNotInstalled => "The USBGuard D-Bus bridge is not installed. This program can only reach USBGuard through the bridge. On Fedora it is a separate package (usbguard-dbus); on Debian, Ubuntu, and Arch it comes with the usbguard package itself."@,
        AccessState::BridgeNotRunning { daemon_running } => if daemon_running == Some(false) {
            "The USBGuard D-Bus bridge is installed but not running."@ + " The USBGuard daemon is not running either."@
        } else {
            "The USBGuard D-Bus bridge is installed but not running."@
        },
        AccessState::DeniedByBusPolicy => "The system bus policy does not allow this user to talk to USBGuard. This is set in /usr/share/dbus-1/system.d/org.usbguard1.conf (or an override under /etc), and a Polkit rule cannot change it."@,
        AccessState::DeniedByPolkit { .. } => "Polkit refused the request. An administrator can allow reading without a password, and changes with your own password, by installing the example rule shipped with this program. Review it first: it grants the administrator group control over USB policy."@,
        AccessState::DeniedByIpcAcl => "USBGuard's own access control refused the request. Grant this user access, then restart the daemon."@,
        AccessState::NoPolkitAgent => "The request needs authentication, but no known Polkit authentication agent is running in this session, so no password prompt could be shown. Start your desktop's Polkit agent (for example polkit-gnome or polkit-kde-agent)."@,
        AccessState::DeniedUnattributed { .. } => "Access was denied, and the refusing component could not be identified. Either a Polkit rule or USBGuard's IPC access control applies; both remedies are listed."@,
    }
}

/// The commands that apply the remedy for a state.
pub open spec fn commands(state: AccessState, distro: Distro) -> Seq<Seq<char>> {
    match state {
        AccessState::BridgeNotInstalled => seq![distro.spec_install_bridge(), START_BRIDGE@],
        AccessState::BridgeNotRunning { daemon_running } => if daemon_running == Some(false) {
            seq![START_DAEMON@, START_BRIDGE@]
        } else {
            seq![START_BRIDGE@]
        },
        AccessState::DeniedByPolkit { .. } => seq![install_polkit_rule()],
        AccessState::DeniedByIpcAcl => seq![ADD_IPC_USER@, RESTART_DAEMON@],
        AccessState::DeniedUnattributed { .. } => seq![install_polkit_rule(), ADD_IPC_USER@],
        _ => Seq::empty(),
    }
}

fn remedy_of(explanation: &str, commands: Vec<String>) -> (r: Remedy)
    ensures
        r.explanation@ == explanation@,
        r.commands@ == commands@,
{
    Remedy { explanation: String::from_str(explanation), commands }
}

fn one(a: &str) -> (r: Vec<String>)
    ensures
        r@.map_values(|c: String| c@) == seq![a@],
{
    let mut v: Vec<String> = Vec::new();
    v.push(String::from_str(a));
    assert(v@.map_values(|c: String| c@) =~= seq![a@]);
    v
}

fn two(a: String, b: String) -> (r: Vec<String>)
    ensures
        r@.map_values(|c: String| c@) == seq![a@, b@],
{
    let mut v: Vec<String> = Vec::new();
    v.push(a);
    v.push(b);
    assert(v@.map_values(|c: String| c@) =~= seq![a@, b@]);
    v
}

fn polkit_rule_command() -> (r: String)
    ensures
        r@ == install_polkit_rule(),
{
    let mut s = String::from_str("sudo install -m 0644 ");
    s.append(POLKIT_RULE_EXAMPLE);
    s.append(" /etc/polkit-1/rules.d/70-usbguard-gui.rules");
    s
}

/// The remedy for an access state, or `None` when the daemon is reachable.
pub fn remedy(state: &AccessState, distro: Distro) -> (r: Option<Remedy>)
    ensures
        state is Connected ==> r is None,
        !(state is Connected) ==> (r matches Some(m) && m@ == (explanation(*state), commands(*state, distro))),
{
    match state {
        AccessState::Connected { .. } => None,
        AccessState::BusUnavailable => {
            let r = remedy_of(
                "There is no system D-Bus in this session. This usually means the program runs in a container or sandbox without access to the host's system bus.",
                Vec::new(),
            );
            assert(r@.1 =~= commands(*state, distro));
            Some(r)
        },
        AccessState::BridgeNotInstalled => {
            let r = remedy_of(
                "The USBGuard D-Bus bridge is not installed. This program can only reach USBGuard through the bridge. On Fedora it is a separate package (usbguard-dbus); on Debian, Ubuntu, and Arch it comes with the usbguard package itself.",
                two(String::from_str(distro.install_bridge()), String::from_str(START_BRIDGE)),
            );
            Some(r)
        },
        AccessState::BridgeNotRunning { daemon_running } => {
            match daemon_running {
                Some(false) => {
                    let mut e = String::from_str("The USBGuard D-Bus bridge is installed but not running.");
                    e.append(" The USBGuard daemon is not running either.");
                    let r = Remedy {
                        explanation: e,
                        commands: two(String::from_str(START_DAEMON), String::from_str(START_BRIDGE)),
                    };
                    Some(r)
                },
                _ => Some(remedy_of("The USBGuard D-Bus bridge is installed but not running.", one(START_BRIDGE))),
            }
        },
        AccessState::DeniedByBusPolicy => {
            let r = remedy_of(
                "The system bus policy does not allow this user to talk to USBGuard. This is set in /usr/share/dbus-1/system.d/org.usbguard1.conf (or an override under /etc), and a Polkit rule cannot change it.",
                Vec::new(),
            );
            assert(r@.1 =~= commands(*state, distro));
            Some(r)
        },
        AccessState::DeniedByPolkit { .. } => {
            let c = polkit_rule_command();
            let mut v: Vec<String> = Vec::new();
            v.push(c);
            assert(v@.map_values(|c: String| c@) =~= seq![install_polkit_rule()]);
            Some(
                remedy_of(
                    "Polkit refused the request. An administrator can allow reading without a password, and changes with your own password, by installing the example rule shipped with this program. Review it first: it grants the administrator group control over USB policy.",
                    v,
                ),
            )
        },
        AccessState::DeniedByIpcAcl => Some(
            remedy_of(
                "USBGuard's own access control refused the request. Grant this user access, then restart the daemon.",
                two(String::from_str(ADD_IPC_USER), String::from_str(RESTART_DAEMON)),
            ),
        ),
        AccessState::NoPolkitAgent => {
            let r = remedy_of(
                "The request needs authentication, but no known Polkit authentication agent is running in this session, so no password prompt could be shown. Start your desktop's Polkit agent (for example polkit-gnome or polkit-kde-agent).",
                Vec::new(),
            );
            assert(r@.1 =~= commands(*state, distro));
            Some(r)
        },
        AccessState::DeniedUnattributed { .. } => Some(
            remedy_of(
                "Access was denied, and the refusing component could not be identified. Either a Polkit rule or USBGuard's IPC access control applies; both remedies are listed.",
                two(polkit_rule_command(), String::from_str(ADD_IPC_USER)),
            ),
        ),
    }
}

/// Lines joined with a newline between each two.
pub open spec fn joined_lines(lines: Seq<Seq<char>>) -> Seq<char>
    decreases lines.len(),
{
    if lines.len() == 0 {
        Seq::empty()
    } else if lines.len() == 1 {
        lines[0]
    } else {
        joined_lines(lines.drop_last()) + "\n"@ + lines.last()
    }
}

/// What the diagnostics offer to copy: the remedy's commands, one per line,
/// when the state has a remedy with commands.
pub fn commands_to_copy(state: &AccessState, distro: Distro) -> (r: Option<String>)
    ensures
        match state {
            AccessState::Connected { .. } => r is None,
            _ => if commands(*state, distro).len() == 0 {
                r is None
            } else {
                r matches Some(t) && t@ == joined_lines(commands(*state, distro))
            },
        },
{
    let m = match remedy(state, distro) {
        Some(m) => m,
        None => return None,
    };
    let ghost lines = commands(*state, distro);
    assert(m.commands@.len() == lines.len());
    if m.commands.len() == 0 {
        return None;
    }
    let mut out = String::new();
    let mut i: usize = 0;
    while i < m.commands.len()
        invariant
            i <= m.commands@.len(),
            lines == m.commands@.map_values(|c: String| c@),
            out@ == joined_lines(lines.subrange(0, i as int)),
        decreases m.commands@.len() - i,
    {
        if i > 0 {
            out.append("\n");
        }
        out.append(m.commands[i].as_str());
        proof {
            let sub = lines.subrange(0, i + 1);
            assert(sub.drop_last() =~= lines.subrange(0, i as int));
            assert(sub.last() == m.commands@[i as int]@);
            if i == 0 {
                assert(lines.subrange(0, 0) =~= Seq::<Seq<char>>::empty());
            }
        }
        i = i + 1;
    }
    assert(lines.subrange(0, i as int) =~= lines);
    Some(out)
}

/// The command that installs a package with the distribution's package
/// manager, up to the package's name.
pub open spec fn installer(distro: Distro) -> Seq<char> {
    match distro {
        Distro::Fedora => "sudo dnf install "@,
        Distro::Debian => "sudo apt install "@,
        Distro::Arch => "sudo pacman -S "@,
        Distro::Unknown => Seq::empty(),
    }
}

/// The package that carries the D-Bus bridge: Fedora ships it separately as
/// `usbguard-dbus`; Debian, Ubuntu and Arch include it in `usbguard` itself.
pub open spec fn bridge_package(distro: Distro) -> Seq<char> {
    if distro is Fedora {
        "usbguard-dbus"@
    } else {
        "usbguard"@
    }
}

/// A missing bridge is remedied by installing the package that carries it
/// with the distribution's own package manager, then starting the bridge:
/// on every known distribution, the first command installs exactly
/// [`bridge_package`] with [`installer`], and the second starts the service.
pub proof fn lemma_bridge_install(distro: Distro)
    requires
        !(distro is Unknown),
    ensures
        commands(AccessState::BridgeNotInstalled, distro) == seq![
            installer(distro) + bridge_package(distro),
            START_BRIDGE@,
        ],
{
    reveal_strlit("usbguard-dbus");
    reveal_strlit("usbguard");
    match distro {
        Distro::Fedora => {
            reveal_strlit("sudo dnf install ");
            reveal_strlit("sudo dnf install usbguard-dbus");
            assert(distro.spec_install_bridge() =~= installer(distro) + bridge_package(distro));
        },
        Distro::Debian => {
            reveal_strlit("sudo apt install ");
            reveal_strlit("sudo apt install usbguard");
            assert(distro.spec_install_bridge() =~= installer(distro) + bridge_package(distro));
        },
        Distro::Arch => {
            reveal_strlit("sudo pacman -S ");
            reveal_strlit("sudo pacman -S usbguard");
            assert(distro.spec_install_bridge() =~= installer(distro) + bridge_package(distro));
        },
        Distro::Unknown => {},
    }
}

} // verus!
