//! The Wi-Fi hotspot: the NetworkManager (`nmcli`) and `ip` commands it runs,
//! how their output is read, and the order in which starting and stopping the
//! hotspot runs them, as step functions from an outcome to the next command.
use vstd::prelude::*;
use crate::platform::{lossy_text, utf8_lossy};
use crate::text::{
    chars_are, chars_of, contains, owned, ends_with, has_prefix, has_suffix, has_text, lines, lines_of,
    push_chars, push_str, split_chars, split_on, starts_with, string_of, texts, trim, trimmed,
    words, words_of, lemma_split_on_nonempty,
};

verus! {

broadcast use vstd::seq_lib::group_seq_properties;

/// A device seen in the neighbour table of the hotspot's network.
pub struct HotspotDevice {
    pub ip: String,
    pub mac: String,
    pub interface: String,
}

pub struct NeighborView {
    pub ip: Seq<char>,
    pub mac: Seq<char>,
    pub interface: Seq<char>,
}

impl View for HotspotDevice {
    type V = NeighborView;

    open spec fn view(&self) -> NeighborView {
        NeighborView { ip: self.ip@, mac: self.mac@, interface: self.interface@ }
    }
}

pub open spec fn neighbors_view(v: Seq<HotspotDevice>) -> Seq<NeighborView> {
    v.map_values(|d: HotspotDevice| d@)
}

// ---------------------------------------------------------------------------
// Reading command output
// ---------------------------------------------------------------------------

/// The message given when no wireless device is listed.
pub open spec fn no_wifi_message() -> Seq<char> {
    "No Wi-Fi interface found. Make sure your Wi-Fi adapter is enabled."@
}

/// Whether a line of `nmcli --terse --fields DEVICE,TYPE device status` lists a Wi-Fi device.
pub open spec fn is_wifi_line(l: Seq<char>) -> bool {
    split_on(l, ':').len() >= 2 && split_on(l, ':')[1] == "wifi"@
}

/// The device of the first Wi-Fi line, if any.
pub open spec fn first_wifi_device(ls: Seq<Seq<char>>) -> Option<Seq<char>>
    decreases ls.len(),
{
    if ls.len() == 0 {
        None
    } else if is_wifi_line(ls[0]) {
        Some(split_on(ls[0], ':')[0])
    } else {
        first_wifi_device(ls.drop_first())
    }
}

/// The first wireless device in the device list printed by `nmcli`.
pub fn find_wifi_interface_in(listing: &str) -> (r: Result<String, String>)
    ensures
        match first_wifi_device(lines(listing@)) {
            Some(d) => r is Ok && r->Ok_0@ == d,
            None => r is Err && r->Err_0@ == no_wifi_message(),
        },
{
    let cs = chars_of(listing);
    let ls = lines_of(cs.as_slice());
    let ghost lv = texts(ls@);
    let mut i: usize = 0;
    while i < ls.len()
        invariant
            i <= ls@.len(),
            lv == texts(ls@),
            lv == lines(listing@),
            first_wifi_device(lv) == first_wifi_device(lv.skip(i as int)),
        decreases ls@.len() - i,
    {
        assert(lv.skip(i as int)[0] == ls@[i as int]@);
        assert(lv.skip(i as int).drop_first() =~= lv.skip(i + 1));
        let parts = split_chars(ls[i].as_slice(), ':');
        proof {
            lemma_split_on_nonempty(ls@[i as int]@, ':');
        }
        if parts.len() >= 2 && chars_are(parts[1].as_slice(), "wifi") {
            assert(texts(parts@)[1] == parts@[1]@);
            assert(texts(parts@)[0] == parts@[0]@);
            return Ok(string_of(parts[0].as_slice()));
        }
        i += 1;
    }
    assert(lv.skip(i as int) =~= Seq::<Seq<char>>::empty());
    Err(owned("No Wi-Fi interface found. Make sure your Wi-Fi adapter is enabled."))
}

/// Whether a line of `ip addr show` gives a non-loopback IPv4 address.
pub open spec fn is_address_line(l: Seq<char>) -> bool {
    let t = trim(l);
    starts_with(t, "inet "@) && !contains(t, "127.0.0.1"@) && words(t).len() >= 2
}

/// The address (without its prefix length) of an address line.
pub open spec fn address_of(l: Seq<char>) -> Seq<char> {
    split_on(words(trim(l))[1], '/')[0]
}

/// The address of the first address line, if any.
pub open spec fn first_address(ls: Seq<Seq<char>>) -> Option<Seq<char>>
    decreases ls.len(),
{
    if ls.len() == 0 {
        None
    } else if is_address_line(ls[0]) {
        Some(address_of(ls[0]))
    } else {
        first_address(ls.drop_first())
    }
}

/// The message given when `ip addr show` lists no usable address.
pub open spec fn no_address_message() -> Seq<char> {
    "Could not determine hotspot IP"@
}

/// The IPv4 address printed by `ip addr show` for the hotspot's interface.
pub fn hotspot_ip_in(listing: &str) -> (r: Result<String, String>)
    ensures
        match first_address(lines(listing@)) {
            Some(a) => r is Ok && r->Ok_0@ == a,
            None => r is Err && r->Err_0@ == no_address_message(),
        },
{
    let cs = chars_of(listing);
    let ls = lines_of(cs.as_slice());
    let ghost lv = texts(ls@);
    let inet = chars_of("inet ");
    let mut i: usize = 0;
    while i < ls.len()
        invariant
            i <= ls@.len(),
            lv == texts(ls@),
            lv == lines(listing@),
            inet@ == "inet "@,
            first_address(lv) == first_address(lv.skip(i as int)),
        decreases ls@.len() - i,
    {
        assert(lv.skip(i as int)[0] == ls@[i as int]@);
        assert(lv.skip(i as int).drop_first() =~= lv.skip(i + 1));
        let t = trimmed(ls[i].as_slice());
        if has_prefix(t.as_slice(), inet.as_slice()) && !has_text(t.as_slice(), "127.0.0.1") {
            let ws = words_of(t.as_slice());
            if ws.len() >= 2 {
                assert(texts(ws@)[1] == ws@[1]@);
                let pieces = split_chars(ws[1].as_slice(), '/');
                proof {
                    lemma_split_on_nonempty(ws@[1]@, '/');
                    assert(texts(pieces@)[0] == pieces@[0]@);
                }
                return Ok(string_of(pieces[0].as_slice()));
            }
        }
        i += 1;
    }
    assert(lv.skip(i as int) =~= Seq::<Seq<char>>::empty());
    Err(owned("Could not determine hotspot IP"))
}

/// Whether a line of the active-connection list is a Wi-Fi connection bound to
/// a device.
pub open spec fn is_wifi_connection(l: Seq<char>) -> bool {
    let p = split_on(l, ':');
    p.len() >= 3 && (p[1] == "wifi"@ || p[1] == "802-11-wireless"@) && p[2].len() > 0
}

/// The identifiers of the active Wi-Fi connections bound to a device, in order.
pub open spec fn wifi_connections(ls: Seq<Seq<char>>) -> Seq<Seq<char>>
    decreases ls.len(),
{
    if ls.len() == 0 {
        Seq::<Seq<char>>::empty()
    } else if is_wifi_connection(ls.last()) {
        wifi_connections(ls.drop_last()).push(split_on(ls.last(), ':')[0])
    } else {
        wifi_connections(ls.drop_last())
    }
}

/// The active Wi-Fi connections listed by
/// `nmcli --terse --fields UUID,TYPE,DEVICE connection show --active`.
pub fn wifi_connections_in(listing: &str) -> (r: Vec<String>)
    ensures
        r@.map_values(|s: String| s@) == wifi_connections(lines(listing@)),
{
    let cs = chars_of(listing);
    let ls = lines_of(cs.as_slice());
    let ghost lv = texts(ls@);
    let mut out: Vec<String> = Vec::new();
    let mut i: usize = 0;
    while i < ls.len()
        invariant
            i <= ls@.len(),
            lv == texts(ls@),
            lv == lines(listing@),
            out@.map_values(|s: String| s@) =~= wifi_connections(lv.take(i as int)),
        decreases ls@.len() - i,
    {
        assert(lv.take(i + 1).drop_last() =~= lv.take(i as int));
        assert(lv.take(i + 1).last() == ls@[i as int]@);
        let parts = split_chars(ls[i].as_slice(), ':');
        let ghost pv = texts(parts@);
        let ghost before = out@;
        if parts.len() >= 3 && (chars_are(parts[1].as_slice(), "wifi") || chars_are(
            parts[1].as_slice(),
            "802-11-wireless",
        )) && parts[2].len() > 0 {
            assert(pv[1] == parts@[1]@ && pv[2] == parts@[2]@ && pv[0] == parts@[0]@);
            out.push(string_of(parts[0].as_slice()));
            assert(out@.map_values(|s: String| s@) =~= before.map_values(|s: String| s@).push(
                pv[0],
            ));
        } else {
            proof {
                if pv.len() >= 3 {
                    assert(pv[1] == parts@[1]@ && pv[2] == parts@[2]@);
                }
            }
        }
        i += 1;
    }
    assert(lv.take(i as int) =~= lv);
    out
}

/// Whether the mode printed for a connection is access-point mode.
pub open spec fn is_ap_mode(text: Seq<char>) -> bool {
    trim(text) == "ap"@ || ends_with(trim(text), ":ap"@)
}

/// Whether `nmcli --terse --fields 802-11-wireless.mode connection show` printed
/// access-point mode.
pub fn ap_mode_in(listing: &str) -> (r: bool)
    ensures
        r == is_ap_mode(listing@),
{
    let cs = chars_of(listing);
    let t = trimmed(cs.as_slice());
    let suffix = chars_of(":ap");
    chars_are(t.as_slice(), "ap") || has_suffix(t.as_slice(), suffix.as_slice())
}

/// Whether a line of `ip neigh show` is a device on the hotspot's network
/// (`10.42.0.x`) not known to have gone (`FAILED`).
pub open spec fn is_hotspot_neighbor(l: Seq<char>) -> bool {
    let p = words(l);
    &&& p.len() >= 6
    &&& p[1] == "dev"@
    &&& p[3] == "lladdr"@
    &&& starts_with(p[0], "10.42.0."@)
    &&& p[5] != "FAILED"@
}

/// The device that a neighbour line describes.
pub open spec fn neighbor_of(l: Seq<char>) -> NeighborView {
    let p = words(l);
    NeighborView { ip: p[0], mac: p[4], interface: p[2] }
}

/// The hotspot devices among the neighbour lines, in order.
pub open spec fn hotspot_neighbors(ls: Seq<Seq<char>>) -> Seq<NeighborView>
    decreases ls.len(),
{
    if ls.len() == 0 {
        Seq::<NeighborView>::empty()
    } else if is_hotspot_neighbor(ls.last()) {
        hotspot_neighbors(ls.drop_last()).push(neighbor_of(ls.last()))
    } else {
        hotspot_neighbors(ls.drop_last())
    }
}

/// The devices on the hotspot's network listed by `ip neigh show`.
pub fn hotspot_neighbors_in(listing: &str) -> (r: Vec<HotspotDevice>)
    ensures
        neighbors_view(r@) == hotspot_neighbors(lines(listing@)),
{
    let cs = chars_of(listing);
    let ls = lines_of(cs.as_slice());
    let ghost lv = texts(ls@);
    let prefix = chars_of("10.42.0.");
    let mut out: Vec<HotspotDevice> = Vec::new();
    let mut i: usize = 0;
    while i < ls.len()
        invariant
            i <= ls@.len(),
            lv == texts(ls@),
            lv == lines(listing@),
            prefix@ == "10.42.0."@,
            neighbors_view(out@) =~= hotspot_neighbors(lv.take(i as int)),
        decreases ls@.len() - i,
    {
        assert(lv.take(i + 1).drop_last() =~= lv.take(i as int));
        assert(lv.take(i + 1).last() == ls@[i as int]@);
        let p = words_of(ls[i].as_slice());
        let ghost pv = texts(p@);
        let ghost before = out@;
        if p.len() >= 6 && chars_are(p[1].as_slice(), "dev") && chars_are(p[3].as_slice(), "lladdr")
            && has_prefix(p[0].as_slice(), prefix.as_slice()) && !chars_are(
            p[5].as_slice(),
            "FAILED",
        ) {
            assert(pv[0] == p@[0]@ && pv[1] == p@[1]@ && pv[2] == p@[2]@ && pv[3] == p@[3]@
                && pv[4] == p@[4]@ && pv[5] == p@[5]@);
            let d = HotspotDevice {
                ip: string_of(p[0].as_slice()),
                mac: string_of(p[4].as_slice()),
                interface: string_of(p[2].as_slice()),
            };
            out.push(d);
            assert(neighbors_view(out@) =~= neighbors_view(before).push(
                neighbor_of(ls@[i as int]@),
            ));
        } else {
            proof {
                if pv.len() >= 6 {
                    assert(pv[0] == p@[0]@ && pv[1] == p@[1]@ && pv[3] == p@[3]@ && pv[5]
                        == p@[5]@);
                }
            }
        }
        i += 1;
    }
    assert(lv.take(i as int) =~= lv);
    out
}

/// Why creating the hotspot failed, from what `nmcli` printed: a dismissed or
/// refused authorisation is reported as cancelled by the user.
pub open spec fn start_failure(stderr: Seq<char>, stdout: Seq<char>) -> Seq<char> {
    if contains(stderr, "dismissed"@) || contains(stderr, "Not authorized"@) || contains(
        stderr,
        "cancelled"@,
    ) {
        "Authorization cancelled by user"@
    } else {
        "Failed to start hotspot: "@ + trim(stderr) + " "@ + trim(stdout)
    }
}

/// The message for a failed `nmcli device wifi hotspot`.
pub fn start_failure_message(stderr: &str, stdout: &str) -> (m: String)
    ensures
        m@ == start_failure(stderr@, stdout@),
{
    let e = chars_of(stderr);
    let o = chars_of(stdout);
    if has_text(e.as_slice(), "dismissed") || has_text(e.as_slice(), "Not authorized") || has_text(
        e.as_slice(),
        "cancelled",
    ) {
        owned("Authorization cancelled by user")
    } else {
        let mut out: Vec<char> = Vec::new();
        push_str(&mut out, "Failed to start hotspot: ");
        let et = trimmed(e.as_slice());
        push_chars(&mut out, et.as_slice());
        push_str(&mut out, " ");
        let ot = trimmed(o.as_slice());
        push_chars(&mut out, ot.as_slice());
        string_of(out.as_slice())
    }
}

// ---------------------------------------------------------------------------
// Commands
// ---------------------------------------------------------------------------

/// A program to run with its arguments.
pub struct Command {
    pub program: String,
    pub args: Vec<String>,
}

pub struct CommandView {
    pub program: Seq<char>,
    pub args: Seq<Seq<char>>,
}

impl View for Command {
    type V = CommandView;

    open spec fn view(&self) -> CommandView {
        CommandView { program: self.program@, args: self.args@.map_values(|a: String| a@) }
    }
}

/// A command made of the program `program` and the arguments `args`.
pub fn command(program: &str, args: &[&str]) -> (c: Command)
    ensures
        c@ == (CommandView { program: program@, args: args@.map_values(|a: &str| a@) }),
{
    let mut v: Vec<String> = Vec::new();
    let mut i: usize = 0;
    while i < args.len()
        invariant
            i <= args@.len(),
            v@.map_values(|a: String| a@) =~= args@.take(i as int).map_values(|a: &str| a@),
        decreases args@.len() - i,
    {
        let ghost before = v@;
        v.push(owned(args[i]));
        assert(v@.map_values(|a: String| a@) =~= before.map_values(|a: String| a@).push(
            args@[i as int]@,
        ));
        assert(args@.take(i + 1).map_values(|a: &str| a@) =~= args@.take(i as int).map_values(
            |a: &str| a@,
        ).push(args@[i as int]@));
        i += 1;
    }
    assert(args@.take(i as int) =~= args@);
    Command { program: owned(program), args: v }
}

pub open spec fn nmcli(args: Seq<Seq<char>>) -> CommandView {
    CommandView { program: "nmcli"@, args }
}

/// `nmcli --terse --fields DEVICE,TYPE device status`: lists the network devices.
pub open spec fn device_list_command() -> CommandView {
    nmcli(seq!["--terse"@, "--fields"@, "DEVICE,TYPE"@, "device"@, "status"@])
}

pub fn device_list_cmd() -> (c: Command)
    ensures
        c@ == device_list_command(),
{
    let c = command("nmcli", &["--terse", "--fields", "DEVICE,TYPE", "device", "status"]);
    assert(c@.args =~= device_list_command().args);
    c
}

/// The name under which the hotspot connection is created.
pub open spec fn hotspot_connection() -> Seq<char> {
    "wifly-hotspot"@
}

/// `pkexec nmcli device wifi hotspot ifname IFACE con-name wifly-hotspot ssid SSID
/// password PASSWORD`: the hotspot is created through `pkexec`, which asks for
/// the user's authorisation in a graphical prompt.
pub open spec fn hotspot_command(iface: Seq<char>, ssid: Seq<char>, password: Seq<char>) -> CommandView {
    CommandView {
        program: "pkexec"@,
        args: seq![
            "nmcli"@,
            "device"@,
            "wifi"@,
            "hotspot"@,
            "ifname"@,
            iface,
            "con-name"@,
            "wifly-hotspot"@,
            "ssid"@,
            ssid,
            "password"@,
            password,
        ],
    }
}

pub fn hotspot_cmd(iface: &str, ssid: &str, password: &str) -> (c: Command)
    ensures
        c@ == hotspot_command(iface@, ssid@, password@),
{
    let args: [&str; 12] = [
        "nmcli",
        "device",
        "wifi",
        "hotspot",
        "ifname",
        iface,
        "con-name",
        "wifly-hotspot",
        "ssid",
        ssid,
        "password",
        password,
    ];
    let c = command("pkexec", &args);
    assert(c@.args =~= hotspot_command(iface@, ssid@, password@).args);
    c
}

/// The command that makes the hotspot use the 2.4 GHz band and WPA/WPA2 with
/// TKIP and CCMP and without protected management frames.
pub open spec fn security_command() -> CommandView {
    nmcli(
        seq![
            "connection"@,
            "modify"@,
            "wifly-hotspot"@,
            "802-11-wireless.band"@,
            "bg"@,
            "802-11-wireless-security.key-mgmt"@,
            "wpa-psk"@,
            "802-11-wireless-security.proto"@,
            "wpa rsn"@,
            "802-11-wireless-security.pairwise"@,
            "tkip ccmp"@,
            "802-11-wireless-security.group"@,
            "tkip ccmp"@,
            "802-11-wireless-security.pmf"@,
            "1"@,
        ],
    )
}

pub fn security_cmd() -> (c: Command)
    ensures
        c@ == security_command(),
{
    let c = command(
        "nmcli",
        &[
            "connection",
            "modify",
            "wifly-hotspot",
            "802-11-wireless.band",
            "bg",
            "802-11-wireless-security.key-mgmt",
            "wpa-psk",
            "802-11-wireless-security.proto",
            "wpa rsn",
            "802-11-wireless-security.pairwise",
            "tkip ccmp",
            "802-11-wireless-security.group",
            "tkip ccmp",
            "802-11-wireless-security.pmf",
            "1",
        ],
    );
    assert(c@.args =~= security_command().args);
    c
}

/// `nmcli connection VERB NAME`.
pub open spec fn connection_command(verb: Seq<char>, name: Seq<char>) -> CommandView {
    nmcli(seq!["connection"@, verb, name])
}

pub fn connection_cmd(verb: &str, name: &str) -> (c: Command)
    ensures
        c@ == connection_command(verb@, name@),
{
    let c = command("nmcli", &["connection", verb, name]);
    assert(c@.args =~= connection_command(verb@, name@).args);
    c
}

/// `ip addr show IFACE`.
pub open spec fn address_command(iface: Seq<char>) -> CommandView {
    CommandView { program: "ip"@, args: seq!["addr"@, "show"@, iface] }
}

pub fn address_cmd(iface: &str) -> (c: Command)
    ensures
        c@ == address_command(iface@),
{
    let c = command("ip", &["addr", "show", iface]);
    assert(c@.args =~= address_command(iface@).args);
    c
}

/// `nmcli --terse --fields UUID,TYPE,DEVICE connection show --active`.
pub open spec fn active_connections_command() -> CommandView {
    nmcli(seq!["--terse"@, "--fields"@, "UUID,TYPE,DEVICE"@, "connection"@, "show"@, "--active"@])
}

pub fn active_connections_cmd() -> (c: Command)
    ensures
        c@ == active_connections_command(),
{
    let c = command(
        "nmcli",
        &["--terse", "--fields", "UUID,TYPE,DEVICE", "connection", "show", "--active"],
    );
    assert(c@.args =~= active_connections_command().args);
    c
}

/// `nmcli --terse --fields 802-11-wireless.mode connection show UUID`.
pub open spec fn mode_command(uuid: Seq<char>) -> CommandView {
    nmcli(seq!["--terse"@, "--fields"@, "802-11-wireless.mode"@, "connection"@, "show"@, uuid])
}

pub fn mode_cmd(uuid: &str) -> (c: Command)
    ensures
        c@ == mode_command(uuid@),
{
    let c = command("nmcli", &["--terse", "--fields", "802-11-wireless.mode", "connection", "show", uuid]);
    assert(c@.args =~= mode_command(uuid@).args);
    c
}

/// `ip neigh show`: the neighbour table.
pub open spec fn neighbor_command() -> CommandView {
    CommandView { program: "ip"@, args: seq!["neigh"@, "show"@] }
}

pub fn neighbor_cmd() -> (c: Command)
    ensures
        c@ == neighbor_command(),
{
    let c = command("ip", &["neigh", "show"]);
    assert(c@.args =~= neighbor_command().args);
    c
}

/// `ping -c 1 -w 2 IP`: one probe that refreshes the neighbour entry of `ip`.
pub open spec fn ping_command(ip: Seq<char>) -> CommandView {
    CommandView { program: "ping"@, args: seq!["-c"@, "1"@, "-w"@, "2"@, ip] }
}

pub fn ping_cmd(ip: &str) -> (c: Command)
    ensures
        c@ == ping_command(ip@),
{
    let c = command("ping", &["-c", "1", "-w", "2", ip]);
    assert(c@.args =~= ping_command(ip@).args);
    c
}

/// What became of a command: it could not be launched (with the reason), or it
/// ran and exited, successfully or not, with what it printed.
pub enum CommandOutcome {
    NotLaunched(String),
    Finished { success: bool, stdout: Vec<u8>, stderr: Vec<u8> },
}

pub enum OutcomeView {
    NotLaunched(Seq<char>),
    Finished { success: bool, stdout: Seq<u8>, stderr: Seq<u8> },
}

impl View for CommandOutcome {
    type V = OutcomeView;

    open spec fn view(&self) -> OutcomeView {
        match self {
            CommandOutcome::NotLaunched(e) => OutcomeView::NotLaunched(e@),
            CommandOutcome::Finished { success, stdout, stderr } => OutcomeView::Finished {
                success: *success,
                stdout: stdout@,
                stderr: stderr@,
            },
        }
    }
}

/// The devices on the hotspot's network, from the outcome of `ip neigh show`:
/// none when the command could not be launched, whatever its exit status otherwise.
pub fn connected_devices_from(outcome: CommandOutcome) -> (r: Vec<HotspotDevice>)
    ensures
        neighbors_view(r@) == match outcome@ {
            OutcomeView::NotLaunched(_) => Seq::<NeighborView>::empty(),
            OutcomeView::Finished { stdout, .. } => hotspot_neighbors(lines(utf8_lossy(stdout))),
        },
{
    match outcome {
        CommandOutcome::NotLaunched(_) => {
            let r: Vec<HotspotDevice> = Vec::new();
            assert(neighbors_view(r@) =~= Seq::<NeighborView>::empty());
            r
        },
        CommandOutcome::Finished { stdout, .. } => {
            let text = lossy_text(stdout.as_slice());
            hotspot_neighbors_in(text.as_str())
        },
    }
}

// ---------------------------------------------------------------------------
// Starting the hotspot
// ---------------------------------------------------------------------------

/// The address the hotspot is assumed to have when it cannot be read.
pub open spec fn default_hotspot_ip() -> Seq<char> {
    "10.42.0.1"@
}

/// Where starting the hotspot stands; each stage awaits the outcome of one command.
pub enum StartStage {
    /// Listing the network devices to find a wireless one.
    LocateInterface,
    /// Creating the hotspot on the interface.
    CreateHotspot(String),
    /// Applying the compatible security settings.
    ApplySecurity(String),
    /// Taking the connection down so that the settings take effect.
    Deactivate(String),
    /// Bringing the connection up again.
    Reactivate(String),
    /// Reading the interface's address.
    ReadAddress(String),
    Done,
}

pub enum StartStageView {
    LocateInterface,
    CreateHotspot(Seq<char>),
    ApplySecurity(Seq<char>),
    Deactivate(Seq<char>),
    Reactivate(Seq<char>),
    ReadAddress(Seq<char>),
    Done,
}

/// Starting the hotspot named `ssid`, protected by `password`.
pub struct HotspotStart {
    pub ssid: String,
    pub password: String,
    pub stage: StartStage,
}

pub struct HotspotStartView {
    pub ssid: Seq<char>,
    pub password: Seq<char>,
    pub stage: StartStageView,
}

impl View for HotspotStart {
    type V = HotspotStartView;

    open spec fn view(&self) -> HotspotStartView {
        HotspotStartView {
            ssid: self.ssid@,
            password: self.password@,
            stage: match self.stage {
                StartStage::LocateInterface => StartStageView::LocateInterface,
                StartStage::CreateHotspot(i) => StartStageView::CreateHotspot(i@),
                StartStage::ApplySecurity(i) => StartStageView::ApplySecurity(i@),
                StartStage::Deactivate(i) => StartStageView::Deactivate(i@),
                StartStage::Reactivate(i) => StartStageView::Reactivate(i@),
                StartStage::ReadAddress(i) => StartStageView::ReadAddress(i@),
                StartStage::Done => StartStageView::Done,
            },
        }
    }
}

/// What to do next: run a command, or finish with the hotspot's address or an error.
pub enum StartStep {
    Run(Command),
    Finish(Result<String, String>),
}

pub enum StartStepView {
    Run(CommandView),
    Finish(Result<Seq<char>, Seq<char>>),
}

impl View for StartStep {
    type V = StartStepView;

    open spec fn view(&self) -> StartStepView {
        match self {
            StartStep::Run(c) => StartStepView::Run(c@),
            StartStep::Finish(Ok(a)) => StartStepView::Finish(Ok(a@)),
            StartStep::Finish(Err(e)) => StartStepView::Finish(Err(e@)),
        }
    }
}

/// The stage reached from `m` once a command has had the outcome `o`, and what to do next.
pub open spec fn start_step(m: HotspotStartView, o: OutcomeView) -> (HotspotStartView, StartStepView) {
    let done = HotspotStartView { stage: StartStageView::Done, ..m };
    match m.stage {
        StartStageView::LocateInterface => match o {
            OutcomeView::NotLaunched(e) => (
                done,
                StartStepView::Finish(
                    Err("Failed to query network devices: "@ + e + ". Is NetworkManager installed?"@),
                ),
            ),
            OutcomeView::Finished { stdout, .. } => match first_wifi_device(
                lines(utf8_lossy(stdout)),
            ) {
                Some(iface) => (
                    HotspotStartView { stage: StartStageView::CreateHotspot(iface), ..m },
                    StartStepView::Run(hotspot_command(iface, m.ssid, m.password)),
                ),
                None => (done, StartStepView::Finish(Err(no_wifi_message()))),
            },
        },
        StartStageView::CreateHotspot(iface) => match o {
            OutcomeView::NotLaunched(e) => (
                done,
                StartStepView::Finish(Err("Failed to execute nmcli: "@ + e)),
            ),
            OutcomeView::Finished { success, stdout, stderr } => if success {
                (
                    HotspotStartView { stage: StartStageView::ApplySecurity(iface), ..m },
                    StartStepView::Run(security_command()),
                )
            } else {
                (
                    done,
                    StartStepView::Finish(
                        Err(start_failure(utf8_lossy(stderr), utf8_lossy(stdout))),
                    ),
                )
            },
        },
        StartStageView::ApplySecurity(iface) => (
            HotspotStartView { stage: StartStageView::Deactivate(iface), ..m },
            StartStepView::Run(connection_command("down"@, hotspot_connection())),
        ),
        StartStageView::Deactivate(iface) => (
            HotspotStartView { stage: StartStageView::Reactivate(iface), ..m },
            StartStepView::Run(connection_command("up"@, hotspot_connection())),
        ),
        StartStageView::Reactivate(iface) => (
            HotspotStartView { stage: StartStageView::ReadAddress(iface), ..m },
            StartStepView::Run(address_command(iface)),
        ),
        StartStageView::ReadAddress(_) => match o {
            OutcomeView::NotLaunched(_) => (done, StartStepView::Finish(Ok(default_hotspot_ip()))),
            OutcomeView::Finished { stdout, .. } => match first_address(
                lines(utf8_lossy(stdout)),
            ) {
                Some(a) => (done, StartStepView::Finish(Ok(a))),
                None => (done, StartStepView::Finish(Ok(default_hotspot_ip()))),
            },
        },
        StartStageView::Done => (done, StartStepView::Finish(Err(Seq::<char>::empty()))),
    }
}

/// Concatenates two texts.
fn concat2(a: &str, b: &str) -> (r: String)
    ensures
        r@ == a@ + b@,
{
    let mut out: Vec<char> = Vec::new();
    push_str(&mut out, a);
    push_str(&mut out, b);
    string_of(out.as_slice())
}

/// Concatenates three texts.
fn concat3(a: &str, b: &str, c: &str) -> (r: String)
    ensures
        r@ == a@ + b@ + c@,
{
    let mut out: Vec<char> = Vec::new();
    push_str(&mut out, a);
    push_str(&mut out, b);
    push_str(&mut out, c);
    string_of(out.as_slice())
}

impl HotspotStart {
    /// Begins starting the hotspot `ssid` with `password`: the first command
    /// lists the network devices.
    pub fn new(ssid: String, password: String) -> (r: (HotspotStart, Command))
        ensures
            r.0@ == (HotspotStartView {
                ssid: ssid@,
                password: password@,
                stage: StartStageView::LocateInterface,
            }),
            r.1@ == device_list_command(),
    {
        (HotspotStart { ssid, password, stage: StartStage::LocateInterface }, device_list_cmd())
    }

    /// Takes in the outcome of the command last asked for and says what to do next.
    pub fn advance(&mut self, outcome: CommandOutcome) -> (step: StartStep)
        requires
            !(old(self)@.stage is Done),
        ensures
            (final(self)@, step@) == start_step(old(self)@, outcome@),
    {
        let mut stage = StartStage::Done;
        std::mem::swap(&mut stage, &mut self.stage);
        match stage {
            StartStage::LocateInterface => match outcome {
                CommandOutcome::NotLaunched(e) => StartStep::Finish(
                    Err(
                        concat3(
                            "Failed to query network devices: ",
                            e.as_str(),
                            ". Is NetworkManager installed?",
                        ),
                    ),
                ),
                CommandOutcome::Finished { stdout, .. } => {
                    let text = lossy_text(stdout.as_slice());
                    match find_wifi_interface_in(text.as_str()) {
                        Ok(iface) => {
                            let c = hotspot_cmd(
                                iface.as_str(),
                                self.ssid.as_str(),
                                self.password.as_str(),
                            );
                            self.stage = StartStage::CreateHotspot(iface);
                            StartStep::Run(c)
                        },
                        Err(msg) => StartStep::Finish(Err(msg)),
                    }
                },
            },
            StartStage::CreateHotspot(iface) => match outcome {
                CommandOutcome::NotLaunched(e) => StartStep::Finish(
                    Err(concat2("Failed to execute nmcli: ", e.as_str())),
                ),
                CommandOutcome::Finished { success, stdout, stderr } => {
                    if success {
                        self.stage = StartStage::ApplySecurity(iface);
                        StartStep::Run(security_cmd())
                    } else {
                        let e = lossy_text(stderr.as_slice());
                        let o = lossy_text(stdout.as_slice());
                        StartStep::Finish(Err(start_failure_message(e.as_str(), o.as_str())))
                    }
                },
            },
            StartStage::ApplySecurity(iface) => {
                self.stage = StartStage::Deactivate(iface);
                StartStep::Run(connection_cmd("down", "wifly-hotspot"))
            },
            StartStage::Deactivate(iface) => {
                self.stage = StartStage::Reactivate(iface);
                StartStep::Run(connection_cmd("up", "wifly-hotspot"))
            },
            StartStage::Reactivate(iface) => {
                let c = address_cmd(iface.as_str());
                self.stage = StartStage::ReadAddress(iface);
                StartStep::Run(c)
            },
            StartStage::ReadAddress(_) => match outcome {
                CommandOutcome::NotLaunched(_) => StartStep::Finish(Ok(owned("10.42.0.1"))),
                CommandOutcome::Finished { stdout, .. } => {
                    let text = lossy_text(stdout.as_slice());
                    match hotspot_ip_in(text.as_str()) {
                        Ok(a) => StartStep::Finish(Ok(a)),
                        Err(_) => StartStep::Finish(Ok(owned("10.42.0.1"))),
                    }
                },
            },
            StartStage::Done => StartStep::Finish(Err(String::new())),
        }
    }
}

// ---------------------------------------------------------------------------
// Finding an active access point
// ---------------------------------------------------------------------------

/// Where the search for an active access-point connection stands.
pub enum ApSearch {
    /// Listing the active connections.
    ListActive,
    /// Asking for the mode of `candidates[next]`.
    CheckMode { candidates: Vec<String>, next: usize },
}

pub enum ApSearchView {
    ListActive,
    CheckMode { candidates: Seq<Seq<char>>, next: nat },
}

impl View for ApSearch {
    type V = ApSearchView;

    open spec fn view(&self) -> ApSearchView {
        match self {
            ApSearch::ListActive => ApSearchView::ListActive,
            ApSearch::CheckMode { candidates, next } => ApSearchView::CheckMode {
                candidates: candidates@.map_values(|c: String| c@),
                next: *next as nat,
            },
        }
    }
}

/// A search is well formed when the candidate it asks about exists.
pub open spec fn search_ok(s: ApSearchView) -> bool {
    match s {
        ApSearchView::ListActive => true,
        ApSearchView::CheckMode { candidates, next } => next < candidates.len(),
    }
}

/// What the search does next: run a command, or report the connection found or none.
pub enum SearchStep {
    Run(Command),
    Found(String),
    NotFound,
}

pub enum SearchStepView {
    Run(CommandView),
    Found(Seq<char>),
    NotFound,
}

impl View for SearchStep {
    type V = SearchStepView;

    open spec fn view(&self) -> SearchStepView {
        match self {
            SearchStep::Run(c) => SearchStepView::Run(c@),
            SearchStep::Found(u) => SearchStepView::Found(u@),
            SearchStep::NotFound => SearchStepView::NotFound,
        }
    }
}

/// The search reached from `s` after the outcome `o`, and what it does next:
/// the active Wi-Fi connections bound to a device are asked for their mode in
/// turn, and the first in access-point mode is found. A listing that cannot be
/// launched finds nothing; a mode query that cannot be launched moves on.
pub open spec fn search_step(s: ApSearchView, o: OutcomeView) -> (ApSearchView, SearchStepView) {
    match s {
        ApSearchView::ListActive => match o {
            OutcomeView::NotLaunched(_) => (s, SearchStepView::NotFound),
            OutcomeView::Finished { stdout, .. } => {
                let c = wifi_connections(lines(utf8_lossy(stdout)));
                if c.len() == 0 {
                    (s, SearchStepView::NotFound)
                } else {
                    (
                        ApSearchView::CheckMode { candidates: c, next: 0 },
                        SearchStepView::Run(mode_command(c[0])),
                    )
                }
            },
        },
        ApSearchView::CheckMode { candidates, next } => {
            let is_ap = match o {
                OutcomeView::NotLaunched(_) => false,
                OutcomeView::Finished { stdout, .. } => is_ap_mode(utf8_lossy(stdout)),
            };
            if is_ap {
                (s, SearchStepView::Found(candidates[next as int]))
            } else if next + 1 < candidates.len() {
                (
                    ApSearchView::CheckMode { candidates, next: next + 1 },
                    SearchStepView::Run(mode_command(candidates[next + 1 as int])),
                )
            } else {
                (s, SearchStepView::NotFound)
            }
        },
    }
}

impl ApSearch {
    /// Begins the search: the first command lists the active connections.
    pub fn new() -> (r: (ApSearch, Command))
        ensures
            r.0@ == ApSearchView::ListActive,
            r.1@ == active_connections_command(),
    {
        (ApSearch::ListActive, active_connections_cmd())
    }

    /// Takes in the outcome of the command last asked for and says what to do next.
    pub fn advance(&mut self, outcome: CommandOutcome) -> (step: SearchStep)
        requires
            search_ok(old(self)@),
        ensures
            search_ok(final(self)@),
            (final(self)@, step@) == search_step(old(self)@, outcome@),
    {
        let mut current = ApSearch::ListActive;
        std::mem::swap(&mut current, self);
        let ghost cv = current@;
        assert(cv == old(self)@);
        match current {
            ApSearch::ListActive => {
                match outcome {
                    CommandOutcome::NotLaunched(_) => SearchStep::NotFound,
                    CommandOutcome::Finished { stdout, .. } => {
                        let text = lossy_text(stdout.as_slice());
                        let c = wifi_connections_in(text.as_str());
                        if c.len() == 0 {
                            SearchStep::NotFound
                        } else {
                            let cmd = mode_cmd(c[0].as_str());
                            *self = ApSearch::CheckMode { candidates: c, next: 0 };
                            SearchStep::Run(cmd)
                        }
                    },
                }
            },
            ApSearch::CheckMode { candidates, next } => {
                assert(candidates@.map_values(|c: String| c@).len() == candidates@.len());
                assert(cv == ApSearchView::CheckMode {
                    candidates: candidates@.map_values(|c: String| c@),
                    next: next as nat,
                });
                assert(next < candidates.len());
                let is_ap = match outcome {
                    CommandOutcome::NotLaunched(_) => false,
                    CommandOutcome::Finished { stdout, .. } => {
                        let text = lossy_text(stdout.as_slice());
                        ap_mode_in(text.as_str())
                    },
                };
                if is_ap {
                    let found = candidates[next].clone();
                    *self = ApSearch::CheckMode { candidates, next };
                    SearchStep::Found(found)
                } else if next + 1 < candidates.len() {
                    let cmd = mode_cmd(candidates[next + 1].as_str());
                    *self = ApSearch::CheckMode { candidates, next: next + 1 };
                    SearchStep::Run(cmd)
                } else {
                    *self = ApSearch::CheckMode { candidates, next };
                    SearchStep::NotFound
                }
            },
        }
    }
}

// ---------------------------------------------------------------------------
// Stopping the hotspot
// ---------------------------------------------------------------------------

/// The connection names tried first when stopping, in order.
pub open spec fn known_hotspot_name(i: int) -> Seq<char> {
    if i == 0 {
        "wifly-hotspot"@
    } else if i == 1 {
        "Hotspot"@
    } else if i == 2 {
        "Hotspot-1"@
    } else {
        "Hotspot-2"@
    }
}

fn known_hotspot_name_exec(i: usize) -> (n: &'static str)
    requires
        i < 4,
    ensures
        n@ == known_hotspot_name(i as int),
{
    if i == 0 {
        "wifly-hotspot"
    } else if i == 1 {
        "Hotspot"
    } else if i == 2 {
        "Hotspot-1"
    } else {
        "Hotspot-2"
    }
}

/// Where stopping the hotspot stands.
pub enum StopStage {
    /// Taking down the connection with the `i`-th known name.
    TakeDown(usize),
    /// Deleting the connection with the `i`-th known name, once it is down.
    DeleteNamed(usize),
    /// Looking for an active access-point connection.
    Search(ApSearch),
    /// Taking down the access-point connection found.
    TakeDownFound(String),
    /// Deleting the access-point connection found.
    DeleteFound(String),
    Done,
}

pub enum StopStageView {
    TakeDown(nat),
    DeleteNamed(nat),
    Search(ApSearchView),
    TakeDownFound(Seq<char>),
    DeleteFound(Seq<char>),
    Done,
}

/// Stopping the hotspot.
pub struct HotspotStop {
    pub stage: StopStage,
}

impl View for HotspotStop {
    type V = StopStageView;

    open spec fn view(&self) -> StopStageView {
        match &self.stage {
            StopStage::TakeDown(i) => StopStageView::TakeDown(*i as nat),
            StopStage::DeleteNamed(i) => StopStageView::DeleteNamed(*i as nat),
            StopStage::Search(s) => StopStageView::Search(s@),
            StopStage::TakeDownFound(u) => StopStageView::TakeDownFound(u@),
            StopStage::DeleteFound(u) => StopStageView::DeleteFound(u@),
            StopStage::Done => StopStageView::Done,
        }
    }
}

/// A stop is well formed when the name it tries exists and its search is well formed.
pub open spec fn stop_ok(s: StopStageView) -> bool {
    match s {
        StopStageView::TakeDown(i) => i < 4,
        StopStageView::DeleteNamed(i) => i < 4,
        StopStageView::Search(a) => search_ok(a),
        _ => true,
    }
}

/// What to do next: run a command, or finish.
pub enum StopStep {
    Run(Command),
    Finish(Result<(), String>),
}

pub enum StopStepView {
    Run(CommandView),
    Finish(Result<(), Seq<char>>),
}

impl View for StopStep {
    type V = StopStepView;

    open spec fn view(&self) -> StopStepView {
        match self {
            StopStep::Run(c) => StopStepView::Run(c@),
            StopStep::Finish(Ok(())) => StopStepView::Finish(Ok(())),
            StopStep::Finish(Err(e)) => StopStepView::Finish(Err(e@)),
        }
    }
}

/// The stage reached from `s` after the outcome `o`, and what to do next. The
/// known names are taken down in turn; the first that goes down is deleted and
/// the stop is done. When none does, an active access-point connection is
/// looked for, taken down and deleted (deleted even when taking it down
/// failed). Only a take-down of that connection that cannot be launched fails.
pub open spec fn stop_step(s: StopStageView, o: OutcomeView) -> (StopStageView, StopStepView) {
    match s {
        StopStageView::TakeDown(i) => {
            let went_down = match o {
                OutcomeView::Finished { success, .. } => success,
                OutcomeView::NotLaunched(_) => false,
            };
            if went_down {
                (
                    StopStageView::DeleteNamed(i),
                    StopStepView::Run(connection_command("delete"@, known_hotspot_name(i as int))),
                )
            } else if i + 1 < 4 {
                (
                    StopStageView::TakeDown(i + 1),
                    StopStepView::Run(connection_command("down"@, known_hotspot_name(i + 1 as int))),
                )
            } else {
                (
                    StopStageView::Search(ApSearchView::ListActive),
                    StopStepView::Run(active_connections_command()),
                )
            }
        },
        StopStageView::DeleteNamed(_) => (StopStageView::Done, StopStepView::Finish(Ok(()))),
        StopStageView::Search(a) => {
            let (next, step) = search_step(a, o);
            match step {
                SearchStepView::Run(c) => (StopStageView::Search(next), StopStepView::Run(c)),
                SearchStepView::Found(u) => (
                    StopStageView::TakeDownFound(u),
                    StopStepView::Run(connection_command("down"@, u)),
                ),
                SearchStepView::NotFound => (StopStageView::Done, StopStepView::Finish(Ok(()))),
            }
        },
        StopStageView::TakeDownFound(u) => match o {
            OutcomeView::NotLaunched(e) => (
                StopStageView::Done,
                StopStepView::Finish(Err("Failed to stop hotspot: "@ + e)),
            ),
            OutcomeView::Finished { .. } => (
                StopStageView::DeleteFound(u),
                StopStepView::Run(connection_command("delete"@, u)),
            ),
        },
        StopStageView::DeleteFound(_) => (StopStageView::Done, StopStepView::Finish(Ok(()))),
        StopStageView::Done => (StopStageView::Done, StopStepView::Finish(Ok(()))),
    }
}

impl HotspotStop {
    /// Begins stopping the hotspot: the first command takes down `wifly-hotspot`.
    pub fn new() -> (r: (HotspotStop, Command))
        ensures
            r.0@ == StopStageView::TakeDown(0),
            r.1@ == connection_command("down"@, known_hotspot_name(0)),
    {
        (HotspotStop { stage: StopStage::TakeDown(0) }, connection_cmd("down", "wifly-hotspot"))
    }

    /// Takes in the outcome of the command last asked for and says what to do next.
    pub fn advance(&mut self, outcome: CommandOutcome) -> (step: StopStep)
        requires
            stop_ok(old(self)@),
        ensures
            stop_ok(final(self)@),
            (final(self)@, step@) == stop_step(old(self)@, outcome@),
    {
        let mut stage = StopStage::Done;
        std::mem::swap(&mut stage, &mut self.stage);
        match stage {
            StopStage::TakeDown(i) => {
                let went_down = match &outcome {
                    CommandOutcome::Finished { success, .. } => *success,
                    CommandOutcome::NotLaunched(_) => false,
                };
                if went_down {
                    self.stage = StopStage::DeleteNamed(i);
                    StopStep::Run(connection_cmd("delete", known_hotspot_name_exec(i)))
                } else if i + 1 < 4 {
                    self.stage = StopStage::TakeDown(i + 1);
                    StopStep::Run(connection_cmd("down", known_hotspot_name_exec(i + 1)))
                } else {
                    self.stage = StopStage::Search(ApSearch::ListActive);
                    StopStep::Run(active_connections_cmd())
                }
            },
            StopStage::DeleteNamed(_) => StopStep::Finish(Ok(())),
            StopStage::Search(mut a) => {
                let step = a.advance(outcome);
                match step {
                    SearchStep::Run(c) => {
                        self.stage = StopStage::Search(a);
                        StopStep::Run(c)
                    },
                    SearchStep::Found(u) => {
                        let c = connection_cmd("down", u.as_str());
                        self.stage = StopStage::TakeDownFound(u);
                        StopStep::Run(c)
                    },
                    SearchStep::NotFound => StopStep::Finish(Ok(())),
                }
            },
            StopStage::TakeDownFound(u) => match outcome {
                CommandOutcome::NotLaunched(e) => StopStep::Finish(
                    Err(concat2("Failed to stop hotspot: ", e.as_str())),
                ),
                CommandOutcome::Finished { .. } => {
                    let c = connection_cmd("delete", u.as_str());
                    self.stage = StopStage::DeleteFound(u);
                    StopStep::Run(c)
                },
            },
            StopStage::DeleteFound(_) => StopStep::Finish(Ok(())),
            StopStage::Done => StopStep::Finish(Ok(())),
        }
    }
}

// ---------------------------------------------------------------------------
// Laws
// ---------------------------------------------------------------------------

/// Every device reported on the hotspot's network has an address in
/// `10.42.0.x` and was not marked `FAILED`.
pub proof fn lemma_neighbors_on_hotspot_network(ls: Seq<Seq<char>>)
    ensures
        forall|k: int|
            0 <= k < hotspot_neighbors(ls).len() ==> starts_with(
                #[trigger] hotspot_neighbors(ls)[k].ip,
                "10.42.0."@,
            ),
    decreases ls.len(),
{
    if ls.len() > 0 {
        lemma_neighbors_on_hotspot_network(ls.drop_last());
        let prev = hotspot_neighbors(ls.drop_last());
        if is_hotspot_neighbor(ls.last()) {
            assert forall|k: int| 0 <= k < hotspot_neighbors(ls).len() implies starts_with(
                #[trigger] hotspot_neighbors(ls)[k].ip,
                "10.42.0."@,
            ) by {
                if k < prev.len() {
                    assert(hotspot_neighbors(ls)[k] == prev[k]);
                }
            }
        }
    }
}

/// The order of the stages of a start: each outcome moves to a later one.
pub open spec fn start_rank(s: StartStageView) -> nat {
    match s {
        StartStageView::LocateInterface => 6,
        StartStageView::CreateHotspot(_) => 5,
        StartStageView::ApplySecurity(_) => 4,
        StartStageView::Deactivate(_) => 3,
        StartStageView::Reactivate(_) => 2,
        StartStageView::ReadAddress(_) => 1,
        StartStageView::Done => 0,
    }
}

/// Starting the hotspot ends after at most six commands: every outcome moves
/// it to a later stage, and it finishes exactly when it reaches the end. The
/// network name and password are kept throughout.
pub proof fn lemma_start_progresses(m: HotspotStartView, o: OutcomeView)
    requires
        !(m.stage is Done),
    ensures
        start_rank(start_step(m, o).0.stage) < start_rank(m.stage),
        (start_step(m, o).1 is Finish) <==> (start_step(m, o).0.stage is Done),
        start_step(m, o).0.ssid == m.ssid,
        start_step(m, o).0.password == m.password,
{
}

/// Once `nmcli` has created the hotspot, starting it succeeds whatever the
/// later commands do: the settings, the restart and the address lookup can
/// only change which address is reported.
pub proof fn lemma_start_succeeds_once_created(m: HotspotStartView, o: OutcomeView)
    requires
        m.stage is ApplySecurity || m.stage is Deactivate || m.stage is Reactivate
            || m.stage is ReadAddress,
    ensures
        !(start_step(m, o).1 matches StartStepView::Finish(Err(_))),
{
}

/// The hotspot is created with the network name and password asked for, on
/// the first Wi-Fi device listed.
pub proof fn lemma_start_creates_requested_network(m: HotspotStartView, stdout: Seq<u8>, stderr: Seq<u8>, success: bool)
    requires
        m.stage is LocateInterface,
        first_wifi_device(lines(utf8_lossy(stdout))) is Some,
    ensures
        start_step(m, OutcomeView::Finished { success, stdout, stderr }).1 == StartStepView::Run(
            hotspot_command(
                first_wifi_device(lines(utf8_lossy(stdout)))->Some_0,
                m.ssid,
                m.password,
            ),
        ),
{
}

/// A connection is reported as the active access point only once its mode was
/// read as access-point mode, and it is one of the active Wi-Fi connections.
pub proof fn lemma_search_found_is_access_point(s: ApSearchView, o: OutcomeView)
    requires
        search_ok(s),
        search_step(s, o).1 is Found,
    ensures
        s matches ApSearchView::CheckMode { candidates, next } && search_step(s, o).1
            == SearchStepView::Found(candidates[next as int]),
        o matches OutcomeView::Finished { stdout, .. } && is_ap_mode(utf8_lossy(stdout)),
{
}

/// The progress measure of a stop, compared lexicographically.
pub open spec fn stop_measure(s: StopStageView) -> (nat, nat) {
    match s {
        StopStageView::TakeDown(i) => (6, (4 - i) as nat),
        StopStageView::Search(ApSearchView::ListActive) => (5, 0),
        StopStageView::Search(ApSearchView::CheckMode { candidates, next }) => (
            4,
            (candidates.len() - next) as nat,
        ),
        StopStageView::TakeDownFound(_) => (3, 0),
        StopStageView::DeleteFound(_) => (2, 0),
        StopStageView::DeleteNamed(_) => (1, 0),
        StopStageView::Done => (0, 0),
    }
}

pub open spec fn measure_below(a: (nat, nat), b: (nat, nat)) -> bool {
    a.0 < b.0 || (a.0 == b.0 && a.1 < b.1)
}

/// Stopping the hotspot always ends: each outcome lowers the progress measure
/// until the stop is done, and it finishes exactly when done.
pub proof fn lemma_stop_progresses(s: StopStageView, o: OutcomeView)
    requires
        stop_ok(s),
        !(s is Done),
    ensures
        measure_below(stop_measure(stop_step(s, o).0), stop_measure(s)),
        stop_ok(stop_step(s, o).0),
        (stop_step(s, o).1 is Finish) <==> (stop_step(s, o).0 is Done),
{
}

/// Stopping the hotspot fails only when the access-point connection it found
/// cannot even be asked to go down; in every other case it reports success.
pub proof fn lemma_stop_fails_only_on_launch(s: StopStageView, o: OutcomeView)
    requires
        stop_step(s, o).1 matches StopStepView::Finish(Err(_)),
    ensures
        s is TakeDownFound,
        o is NotLaunched,
{
}

/// The first address line of a listing gives its first address; a listing
/// with no address line gives none.
proof fn lemma_first_address_at(ls: Seq<Seq<char>>, k: int)
    requires
        0 <= k <= ls.len(),
        forall|j: int| 0 <= j < k ==> !is_address_line(#[trigger] ls[j]),
    ensures
        k < ls.len() && is_address_line(ls[k]) ==> first_address(ls) == Some(address_of(ls[k])),
        k == ls.len() ==> first_address(ls) is None,
    decreases k,
{
    if k > 0 {
        assert forall|j: int| 0 <= j < k - 1 implies !is_address_line(
            #[trigger] ls.drop_first()[j],
        ) by {
            assert(ls.drop_first()[j] == ls[j + 1]);
        }
        assert(!is_address_line(ls[0]));
        lemma_first_address_at(ls.drop_first(), k - 1);
        if k < ls.len() {
            assert(ls.drop_first()[k - 1] == ls[k]);
        }
    } else if ls.len() > 0 {
    }
}

/// Starting the hotspot reports the address that `ip addr show` printed: when
/// its output has a non-loopback `inet` line, the start finishes with the
/// address on the first such line; `10.42.0.1` is reported only when no such
/// line was printed or the command could not be launched.
pub proof fn lemma_start_reports_address_read(
    m: HotspotStartView,
    success: bool,
    stdout: Seq<u8>,
    stderr: Seq<u8>,
    k: int,
)
    requires
        m.stage is ReadAddress,
        0 <= k <= lines(utf8_lossy(stdout)).len(),
        forall|j: int| 0 <= j < k ==> !is_address_line(#[trigger] lines(utf8_lossy(stdout))[j]),
    ensures
        k < lines(utf8_lossy(stdout)).len() && is_address_line(lines(utf8_lossy(stdout))[k]) ==> ({
            let t = trim(lines(utf8_lossy(stdout))[k]);
            start_step(m, OutcomeView::Finished { success, stdout, stderr }).1
                == StartStepView::Finish(Ok(split_on(words(t)[1], '/')[0]))
        }),
        k == lines(utf8_lossy(stdout)).len() ==> start_step(
            m,
            OutcomeView::Finished { success, stdout, stderr },
        ).1 == StartStepView::Finish(Ok("10.42.0.1"@)),
        forall|e: Seq<char>|
            #[trigger] start_step(m, OutcomeView::NotLaunched(e)).1 == StartStepView::Finish(
                Ok("10.42.0.1"@),
            ),
{
    lemma_first_address_at(lines(utf8_lossy(stdout)), k);
}

/// A neighbour line on the hotspot's network (`10.42.0.x`, with `dev` and
/// `lladdr`) adds its device to the list, with the address, hardware address
/// and interface it names, unless its state is `FAILED`; any other line adds
/// nothing.
pub proof fn lemma_neighbor_line_counted(ls: Seq<Seq<char>>, l: Seq<char>)
    ensures
        ({
            let p = words(l);
            let on_network = p.len() >= 6 && p[1] == "dev"@ && p[3] == "lladdr"@ && starts_with(
                p[0],
                "10.42.0."@,
            );
            &&& on_network && p[5] != "FAILED"@ ==> hotspot_neighbors(ls.push(l))
                == hotspot_neighbors(ls).push(NeighborView { ip: p[0], mac: p[4], interface: p[2] })
            &&& !(on_network && p[5] != "FAILED"@) ==> hotspot_neighbors(ls.push(l))
                == hotspot_neighbors(ls)
        }),
{
    assert(ls.push(l).drop_last() =~= ls);
    assert(ls.push(l).last() == l);
}

/// When one of the known connection names is taken down, that same connection
/// is deleted next, and then the stop is done and succeeds.
pub proof fn lemma_taken_down_name_is_deleted(
    i: nat,
    stdout: Seq<u8>,
    stderr: Seq<u8>,
    after: OutcomeView,
)
    requires
        i < 4,
    ensures
        stop_step(
            StopStageView::TakeDown(i),
            OutcomeView::Finished { success: true, stdout, stderr },
        ) == (
            StopStageView::DeleteNamed(i),
            StopStepView::Run(
                CommandView {
                    program: "nmcli"@,
                    args: seq!["connection"@, "delete"@, known_hotspot_name(i as int)],
                },
            ),
        ),
        stop_step(StopStageView::DeleteNamed(i), after) == (
            StopStageView::Done,
            StopStepView::Finish(Ok(())),
        ),
        known_hotspot_name(0) == "wifly-hotspot"@,
{
}

} // verus!
