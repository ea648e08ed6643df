//! The server's state: whether it runs and where, the files it shares, the
//! devices that reached it and the bytes it has moved.
use vstd::prelude::*;
use crate::paths::{file_name, paths_equal, path_file_name, path_under, path_starts_with, same_path};
use crate::platform::{clock_seconds, local_time, new_file_id, uuid_text};
use crate::text::chars_of;

verus! {

/// A file offered for download.
pub struct SharedFile {
    pub id: String,
    pub name: String,
    pub path: String,
    pub size: u64,
    pub added_at: String,
}

pub struct SharedFileView {
    pub id: Seq<char>,
    pub name: Seq<char>,
    pub path: Seq<char>,
    pub size: u64,
    pub added_at: Seq<char>,
}

impl View for SharedFile {
    type V = SharedFileView;

    open spec fn view(&self) -> SharedFileView {
        SharedFileView {
            id: self.id@,
            name: self.name@,
            path: self.path@,
            size: self.size,
            added_at: self.added_at@,
        }
    }
}

impl SharedFile {
    /// A copy of this record.
    pub fn duplicate(&self) -> (r: SharedFile)
        ensures
            r@ == self@,
    {
        SharedFile {
            id: self.id.clone(),
            name: self.name.clone(),
            path: self.path.clone(),
            size: self.size,
            added_at: self.added_at.clone(),
        }
    }
}

/// A device that has talked to the server.
pub struct ConnectedDevice {
    pub ip: String,
    pub user_agent: String,
    pub connected_at: String,
    pub last_seen: String,
    pub transfer: u64,
}

pub struct DeviceView {
    pub ip: Seq<char>,
    pub user_agent: Seq<char>,
    pub connected_at: Seq<char>,
    pub last_seen: Seq<char>,
    pub transfer: u64,
}

impl View for ConnectedDevice {
    type V = DeviceView;

    open spec fn view(&self) -> DeviceView {
        DeviceView {
            ip: self.ip@,
            user_agent: self.user_agent@,
            connected_at: self.connected_at@,
            last_seen: self.last_seen@,
            transfer: self.transfer,
        }
    }
}

impl ConnectedDevice {
    /// A copy of this record.
    pub fn duplicate(&self) -> (r: ConnectedDevice)
        ensures
            r@ == self@,
    {
        ConnectedDevice {
            ip: self.ip.clone(),
            user_agent: self.user_agent.clone(),
            connected_at: self.connected_at.clone(),
            last_seen: self.last_seen.clone(),
            transfer: self.transfer,
        }
    }
}

/// A summary of the server's state.
pub struct ServerStatus {
    pub running: bool,
    pub ip: Option<String>,
    pub port: Option<u16>,
    pub ssid: Option<String>,
    pub hotspot_active: bool,
    pub connected_devices: usize,
    pub shared_files_count: usize,
    pub shared_files: Vec<SharedFile>,
    pub total_transfer: u64,
}

/// The text held by an optional string.
pub open spec fn opt_text(o: Option<String>) -> Option<Seq<char>> {
    match o {
        Some(s) => Some(s@),
        None => None,
    }
}

pub open spec fn files_view(v: Seq<SharedFile>) -> Seq<SharedFileView> {
    v.map_values(|f: SharedFile| f@)
}

pub open spec fn devices_view(v: Seq<ConnectedDevice>) -> Seq<DeviceView> {
    v.map_values(|d: ConnectedDevice| d@)
}

/// The state as a mathematical value.
pub struct StateView {
    pub running: bool,
    pub server_ip: Option<Seq<char>>,
    pub server_port: Option<u16>,
    pub ssid: Option<Seq<char>>,
    pub password: Option<Seq<char>>,
    pub hotspot_active: bool,
    pub files: Seq<SharedFileView>,
    pub devices: Seq<DeviceView>,
    pub total_transfer: u64,
    pub shared_dir: Seq<char>,
}

/// The application's state. Devices are kept one per address, and no device
/// has moved more bytes than the server as a whole (its type invariant).
pub struct AppState {
    running: bool,
    server_ip: Option<String>,
    server_port: Option<u16>,
    ssid: Option<String>,
    password: Option<String>,
    hotspot_active: bool,
    shared_files: Vec<SharedFile>,
    connected_devices: Vec<ConnectedDevice>,
    total_transfer: u64,
    shared_dir: String,
}

impl View for AppState {
    type V = StateView;

    closed spec fn view(&self) -> StateView {
        StateView {
            running: self.running,
            server_ip: opt_text(self.server_ip),
            server_port: self.server_port,
            ssid: opt_text(self.ssid),
            password: opt_text(self.password),
            hotspot_active: self.hotspot_active,
            files: files_view(self.shared_files@),
            devices: devices_view(self.connected_devices@),
            total_transfer: self.total_transfer,
            shared_dir: self.shared_dir@,
        }
    }
}

/// No two devices share an address.
pub open spec fn distinct_ips(ds: Seq<DeviceView>) -> bool {
    forall|i: int, j: int| 0 <= i < j < ds.len() ==> ds[i].ip != ds[j].ip
}

/// Whether some device has address `ip`.
pub open spec fn knows_ip(ds: Seq<DeviceView>, ip: Seq<char>) -> bool {
    exists|i: int| 0 <= i < ds.len() && ds[i].ip == ip
}

/// The well-formed states: one device per address, and no device has moved
/// more bytes than the server as a whole.
pub open spec fn state_ok(s: StateView) -> bool {
    &&& distinct_ips(s.devices)
    &&& forall|i: int| 0 <= i < s.devices.len() ==> s.devices[i].transfer <= s.total_transfer
}

/// The state a server starts in: stopped, sharing nothing, with `dir` as its folder.
pub open spec fn initial_state(dir: Seq<char>) -> StateView {
    StateView {
        running: false,
        server_ip: None,
        server_port: None,
        ssid: None,
        password: None,
        hotspot_active: false,
        files: Seq::empty(),
        devices: Seq::empty(),
        total_transfer: 0,
        shared_dir: dir,
    }
}

/// The state once the hotspot is up and the server listens at `ip:port`.
pub open spec fn started_state(
    s: StateView,
    ip: Seq<char>,
    port: u16,
    ssid: Seq<char>,
    password: Seq<char>,
) -> StateView {
    StateView {
        running: true,
        server_ip: Some(ip),
        server_port: Some(port),
        ssid: Some(ssid),
        password: Some(password),
        hotspot_active: true,
        ..s
    }
}

/// The state once the server is stopped: no address, no hotspot, no devices;
/// files, totals, network name and password stay.
pub open spec fn stopped_state(s: StateView) -> StateView {
    StateView {
        running: false,
        server_ip: None,
        server_port: None,
        hotspot_active: false,
        devices: Seq::empty(),
        ..s
    }
}

/// Whether a file with a path that names the same path as `path` is shared.
pub open spec fn already_shared(files: Seq<SharedFileView>, path: Seq<char>) -> bool {
    exists|i: int| 0 <= i < files.len() && same_path(files[i].path, path)
}

/// The record of a newly shared file: its name is the last component of its
/// path, or `unknown`.
pub open spec fn new_shared_file(
    path: Seq<char>,
    size: u64,
    id: Seq<char>,
    added_at: Seq<char>,
) -> SharedFileView {
    SharedFileView {
        id,
        name: match file_name(path) {
            Some(n) => n,
            None => "unknown"@,
        },
        path,
        size,
        added_at,
    }
}

/// Whether some shared file has identifier `id`.
pub open spec fn has_id(files: Seq<SharedFileView>, id: Seq<char>) -> bool {
    exists|i: int| 0 <= i < files.len() && files[i].id == id
}

/// The position of the first shared file with identifier `id`.
pub open spec fn first_with_id(files: Seq<SharedFileView>, id: Seq<char>) -> int
    recommends
        has_id(files, id),
{
    choose|i: int|
        0 <= i < files.len() && files[i].id == id && forall|j: int|
            0 <= j < i ==> files[j].id != id
}

/// A device seen again: its last contact and user agent are refreshed.
pub open spec fn seen_again(d: DeviceView, ua: Seq<char>, now: Seq<char>) -> DeviceView {
    DeviceView { user_agent: ua, last_seen: now, ..d }
}

/// The devices once the device at `ip` has been heard from at `now`.
pub open spec fn touched(ds: Seq<DeviceView>, ip: Seq<char>, ua: Seq<char>, now: Seq<char>) -> Seq<
    DeviceView,
> {
    if knows_ip(ds, ip) {
        Seq::new(
            ds.len(),
            |i: int|
                if ds[i].ip == ip {
                    seen_again(ds[i], ua, now)
                } else {
                    ds[i]
                },
        )
    } else {
        ds.push(
            DeviceView { ip, user_agent: ua, connected_at: now, last_seen: now, transfer: 0 },
        )
    }
}

/// The devices once the device at `ip` (if any) is credited with `size` bytes,
/// and, when `stamp` is given, seen at that time.
pub open spec fn credited(
    ds: Seq<DeviceView>,
    ip: Seq<char>,
    size: u64,
    stamp: Option<Seq<char>>,
) -> Seq<DeviceView> {
    Seq::new(
        ds.len(),
        |i: int|
            if ds[i].ip == ip {
                DeviceView {
                    transfer: (ds[i].transfer + size) as u64,
                    last_seen: match stamp {
                        Some(t) => t,
                        None => ds[i].last_seen,
                    },
                    ..ds[i]
                }
            } else {
                ds[i]
            },
    )
}

/// Keeps the devices whose address is not `ip`.
pub open spec fn other_ip(ip: Seq<char>) -> spec_fn(DeviceView) -> bool {
    |d: DeviceView| d.ip != ip
}

/// Keeps the files whose name is not `name`.
pub open spec fn other_name(name: Seq<char>) -> spec_fn(SharedFileView) -> bool {
    |f: SharedFileView| f.name != name
}

/// The position of the first shared file named `name`, if any.
pub open spec fn first_named(files: Seq<SharedFileView>, name: Seq<char>) -> Option<int> {
    if exists|i: int| 0 <= i < files.len() && files[i].name == name {
        Some(
            choose|i: int|
                0 <= i < files.len() && files[i].name == name && forall|j: int|
                    0 <= j < i ==> files[j].name != name,
        )
    } else {
        None
    }
}

impl AppState {
    /// Every state is well formed.
    #[verifier::type_invariant]
    pub(crate) open spec fn well_formed(self) -> bool {
        state_ok(self@)
    }

    /// Whether the server runs.
    pub fn is_running(&self) -> (r: bool)
        ensures
            r == self@.running,
    {
        self.running
    }

    /// The network name of the hotspot last started, if any.
    pub fn ssid(&self) -> (r: Option<String>)
        ensures
            opt_text(r) == self@.ssid,
    {
        copy_text(&self.ssid)
    }

    /// The password of the hotspot last started, if any.
    pub fn password(&self) -> (r: Option<String>)
        ensures
            opt_text(r) == self@.password,
    {
        copy_text(&self.password)
    }

    /// The bytes moved so far.
    pub fn total_transfer(&self) -> (r: u64)
        ensures
            r == self@.total_transfer,
    {
        self.total_transfer
    }

    /// The folder that received files are stored in.
    pub fn shared_dir(&self) -> (r: String)
        ensures
            r@ == self@.shared_dir,
    {
        self.shared_dir.clone()
    }

    /// A stopped server sharing nothing from the folder `shared_dir`.
    pub fn new(shared_dir: String) -> (s: AppState)
        ensures
            s@ == initial_state(shared_dir@),
            state_ok(s@),
    {
        let s = AppState {
            running: false,
            server_ip: None,
            server_port: None,
            ssid: None,
            password: None,
            hotspot_active: false,
            shared_files: Vec::new(),
            connected_devices: Vec::new(),
            total_transfer: 0,
            shared_dir,
        };
        assert(s@.files =~= Seq::<SharedFileView>::empty());
        assert(s@.devices =~= Seq::<DeviceView>::empty());
        s
    }

    /// The shared files, copied.
    pub fn files_copy(&self) -> (v: Vec<SharedFile>)
        ensures
            files_view(v@) == self@.files,
    {
        let mut v: Vec<SharedFile> = Vec::new();
        let mut i: usize = 0;
        while i < self.shared_files.len()
            invariant
                i <= self.shared_files@.len(),
                files_view(v@) =~= files_view(self.shared_files@).take(i as int),
            decreases self.shared_files@.len() - i,
        {
            let ghost before = v@;
            v.push(self.shared_files[i].duplicate());
            assert(files_view(v@) =~= files_view(before).push(self.shared_files@[i as int]@));
            assert(files_view(self.shared_files@).take(i + 1) =~= files_view(
                self.shared_files@,
            ).take(i as int).push(self.shared_files@[i as int]@));
            i += 1;
        }
        v
    }

    /// The connected devices, copied.
    pub fn device_list(&self) -> (v: Vec<ConnectedDevice>)
        ensures
            devices_view(v@) == self@.devices,
            state_ok(self@),
    {
        proof {
            use_type_invariant(self);
        }
        let mut v: Vec<ConnectedDevice> = Vec::new();
        let mut i: usize = 0;
        while i < self.connected_devices.len()
            invariant
                i <= self.connected_devices@.len(),
                devices_view(v@) =~= devices_view(self.connected_devices@).take(i as int),
            decreases self.connected_devices@.len() - i,
        {
            let ghost before = v@;
            v.push(self.connected_devices[i].duplicate());
            assert(devices_view(v@) =~= devices_view(before).push(
                self.connected_devices@[i as int]@,
            ));
            assert(devices_view(self.connected_devices@).take(i + 1) =~= devices_view(
                self.connected_devices@,
            ).take(i as int).push(self.connected_devices@[i as int]@));
            i += 1;
        }
        v
    }

    /// The status reported to the interface.
    pub fn get_status(&self) -> (st: ServerStatus)
        ensures
            st.running == self@.running,
            opt_text(st.ip) == self@.server_ip,
            st.port == self@.server_port,
            opt_text(st.ssid) == self@.ssid,
            st.hotspot_active == self@.hotspot_active,
            st.connected_devices == self@.devices.len(),
            st.shared_files_count == self@.files.len(),
            files_view(st.shared_files@) == self@.files,
            st.total_transfer == self@.total_transfer,
            state_ok(self@),
    {
        proof {
            use_type_invariant(self);
        }
        ServerStatus {
            running: self.running,
            ip: copy_text(&self.server_ip),
            port: self.server_port,
            ssid: copy_text(&self.ssid),
            hotspot_active: self.hotspot_active,
            connected_devices: self.connected_devices.len(),
            shared_files_count: self.shared_files.len(),
            shared_files: self.files_copy(),
            total_transfer: self.total_transfer,
        }
    }

    /// Refuses to start a server that already runs.
    pub fn ensure_idle(&self) -> (r: Result<(), String>)
        ensures
            match r {
                Ok(()) => !self@.running,
                Err(e) => self@.running && e@ == "Server is already running"@,
            },
            r is Err ==> forall|c: ServerCall|
                c is Start ==> #[trigger] server_call(self@, c) == (self@, false),
    {
        if self.running {
            Err(crate::text::owned("Server is already running"))
        } else {
            Ok(())
        }
    }

    /// Records a server started at `ip:port` on the hotspot `ssid`.
    pub fn record_started(&mut self, ip: String, port: u16, ssid: String, password: String)
        ensures
            final(self)@ == started_state(old(self)@, ip@, port, ssid@, password@),
            !old(self)@.running ==> server_call(
                old(self)@,
                ServerCall::Start {
                    hotspot_ip: Some(ip@),
                    port,
                    ssid: ssid@,
                    password: password@,
                },
            ) == (final(self)@, true),
            state_ok(old(self)@),
            state_ok(final(self)@),
    {
        proof {
            use_type_invariant(&*self);
        }
        self.running = true;
        self.server_ip = Some(ip);
        self.server_port = Some(port);
        self.ssid = Some(ssid);
        self.password = Some(password);
        self.hotspot_active = true;
        proof {
            use_type_invariant(&*self);
        }
    }

    /// Records a stopped server.
    pub fn record_stopped(&mut self)
        ensures
            final(self)@ == stopped_state(old(self)@),
            server_call(old(self)@, ServerCall::Stop) == (final(self)@, true),
            state_ok(old(self)@),
            state_ok(final(self)@),
    {
        proof {
            use_type_invariant(&*self);
        }
        self.running = false;
        self.server_ip = None;
        self.server_port = None;
        self.hotspot_active = false;
        self.connected_devices = Vec::new();
        assert(self@.devices =~= Seq::<DeviceView>::empty());
        proof {
            use_type_invariant(&*self);
        }
    }

    /// Moves the shared folder to `dir`.
    pub fn set_shared_dir(&mut self, dir: String)
        ensures
            final(self)@ == (StateView { shared_dir: dir@, ..old(self)@ }),
            state_ok(old(self)@),
            state_ok(final(self)@),
    {
        proof {
            use_type_invariant(&*self);
        }
        self.shared_dir = dir;
        proof {
            use_type_invariant(&*self);
        }
    }

    /// Whether a file with a path naming the same path as `path` is shared.
    pub fn is_shared(&self, path: &str) -> (r: bool)
        ensures
            r == already_shared(self@.files, path@),
    {
        let mut i: usize = 0;
        while i < self.shared_files.len()
            invariant
                i <= self.shared_files@.len(),
                forall|j: int|
                    0 <= j < i ==> !same_path(files_view(self.shared_files@)[j].path, path@),
            decreases self.shared_files@.len() - i,
        {
            if paths_equal(self.shared_files[i].path.as_str(), path) {
                assert(files_view(self.shared_files@)[i as int].path == self.shared_files@[i as int].path@);
                return true;
            }
            i += 1;
        }
        false
    }

    /// Shares the file at `path`, of `size` bytes, under the identifier `id`,
    /// stamped `added_at`. A path already shared is refused and nothing changes.
    pub fn add_shared_file(&mut self, path: String, size: u64, id: String, added_at: String) -> (r:
        Result<SharedFile, String>)
        ensures
            already_shared(old(self)@.files, path@) ==> {
                &&& r is Err
                &&& r->Err_0@ == "File already shared"@
                &&& final(self)@ == old(self)@
            },
            !already_shared(old(self)@.files, path@) ==> {
                &&& r is Ok
                &&& r->Ok_0@ == new_shared_file(path@, size, id@, added_at@)
                &&& final(self)@ == (StateView {
                    files: old(self)@.files.push(new_shared_file(path@, size, id@, added_at@)),
                    ..old(self)@
                })
            },
            state_ok(old(self)@),
            state_ok(final(self)@),
    {
        proof {
            use_type_invariant(&*self);
        }
        if self.is_shared(path.as_str()) {
            return Err(crate::text::owned("File already shared"));
        }
        let name = match path_file_name(path.as_str()) {
            Some(n) => n,
            None => crate::text::owned("unknown"),
        };
        let file = SharedFile { id, name, path, size, added_at };
        let reply = file.duplicate();
        let ghost before = self.shared_files@;
        let mut files: Vec<SharedFile> = Vec::new();
        std::mem::swap(&mut files, &mut self.shared_files);
        files.push(file);
        self.shared_files = files;
        assert(files_view(self.shared_files@) =~= files_view(before).push(reply@));
        proof {
            use_type_invariant(&*self);
        }
        Ok(reply)
    }

    /// Shares the file at `path` of `size` bytes, with a fresh identifier and
    /// the current time.
    pub fn add_shared_file_now(&mut self, path: String, size: u64) -> (r: Result<SharedFile, String>)
        ensures
            already_shared(old(self)@.files, path@) ==> {
                &&& r is Err
                &&& r->Err_0@ == "File already shared"@
                &&& final(self)@ == old(self)@
            },
            !already_shared(old(self)@.files, path@) ==> {
                &&& r is Ok
                &&& r->Ok_0@.path == path@
                &&& r->Ok_0@.size == size
                &&& r->Ok_0@ == new_shared_file(path@, size, r->Ok_0@.id, r->Ok_0@.added_at)
                &&& uuid_text(r->Ok_0@.id)
                &&& clock_seconds(r->Ok_0@.added_at)
                &&& final(self)@ == (StateView {
                    files: old(self)@.files.push(r->Ok_0@),
                    ..old(self)@
                })
            },
            state_ok(old(self)@),
            state_ok(final(self)@),
    {
        let id = new_file_id();
        let added_at = local_time("%H:%M:%S");
        self.add_shared_file(path, size, id, added_at)
    }

    /// Stops sharing the first file with identifier `id`. When such a file was
    /// shared and lies under the shared folder, its path is returned: the file
    /// was received from a device and is to be deleted.
    pub fn remove_shared_file(&mut self, id: &str) -> (r: Option<String>)
        ensures
            !has_id(old(self)@.files, id@) ==> final(self)@ == old(self)@ && r is None,
            has_id(old(self)@.files, id@) ==> {
                let k = first_with_id(old(self)@.files, id@);
                let f = old(self)@.files[k];
                &&& final(self)@ == (StateView {
                    files: old(self)@.files.remove(k),
                    ..old(self)@
                })
                &&& r is Some <==> path_starts_with(f.path, old(self)@.shared_dir)
                &&& r is Some ==> r->Some_0@ == f.path
            },
            state_ok(old(self)@),
            state_ok(final(self)@),
    {
        proof {
            use_type_invariant(&*self);
        }
        let ghost old_files = self@.files;
        let mut i: usize = 0;
        let n = self.shared_files.len();
        while i < n
            invariant
                n == self.shared_files@.len(),
                i <= n,
                old_files == files_view(self.shared_files@),
                self@ == old(self)@,
                forall|j: int| 0 <= j < i ==> old_files[j].id != id@,
            decreases n - i,
        {
            let same = crate::text::same_chars(
                chars_of(self.shared_files[i].id.as_str()).as_slice(),
                chars_of(id).as_slice(),
            );
            if same {
                proof {
                    assert(old_files[i as int].id == id@);
                    assert(has_id(old_files, id@));
                    let k = first_with_id(old_files, id@);
                    if k < i {
                        assert(old_files[k].id != id@);
                    }
                    if k > i {
                        assert(old_files[i as int].id != id@);
                    }
                    assert(k == i);
                }
                proof {
                    use_type_invariant(&*self);
                }
                let ghost before = self.shared_files@;
                let mut files: Vec<SharedFile> = Vec::new();
                std::mem::swap(&mut files, &mut self.shared_files);
                let file = files.remove(i);
                self.shared_files = files;
                assert(files_view(self.shared_files@) =~= files_view(before).remove(i as int));
                proof {
                    use_type_invariant(&*self);
                }
                if path_under(file.path.as_str(), self.shared_dir.as_str()) {
                    return Some(file.path);
                } else {
                    return None;
                }
            }
            i += 1;
        }
        None
    }

    /// Whether some device has address `ip`; if so, where.
    fn device_slot(&self, ip: &str) -> (r: Option<usize>)
        ensures
            match r {
                Some(k) => k < self@.devices.len() && self@.devices[k as int].ip == ip@,
                None => !knows_ip(self@.devices, ip@),
            },
    {
        let mut i: usize = 0;
        let n = self.connected_devices.len();
        while i < n
            invariant
                n == self.connected_devices@.len(),
                i <= n,
                forall|j: int| 0 <= j < i ==> devices_view(self.connected_devices@)[j].ip != ip@,
            decreases n - i,
        {
            let same = crate::text::same_chars(
                chars_of(self.connected_devices[i].ip.as_str()).as_slice(),
                chars_of(ip).as_slice(),
            );
            if same {
                return Some(i);
            }
            i += 1;
        }
        None
    }

    /// Notes that the device at `ip`, using `user_agent`, was heard from at
    /// `now`: a known device is refreshed, a new one is added.
    pub fn touch_device(&mut self, ip: String, user_agent: String, now: String)
        ensures
            final(self)@ == (StateView {
                devices: touched(old(self)@.devices, ip@, user_agent@, now@),
                ..old(self)@
            }),
            state_ok(old(self)@),
            state_ok(final(self)@),
    {
        proof {
            use_type_invariant(&*self);
        }
        let ghost ds = self@.devices;
        let slot = self.device_slot(ip.as_str());
        let mut devs: Vec<ConnectedDevice> = Vec::new();
        std::mem::swap(&mut devs, &mut self.connected_devices);
        assert(devices_view(devs@) == ds);
        match slot {
            Some(k) => {
                let dev = ConnectedDevice {
                    ip: devs[k].ip.clone(),
                    user_agent,
                    connected_at: devs[k].connected_at.clone(),
                    last_seen: now,
                    transfer: devs[k].transfer,
                };
                devs.set(k, dev);
                proof {
                    assert(knows_ip(ds, ip@));
                    assert(devices_view(devs@) =~= touched(ds, ip@, user_agent@, now@));
                }
            },
            None => {
                let dev = ConnectedDevice {
                    ip: ip.clone(),
                    user_agent: user_agent.clone(),
                    connected_at: now.clone(),
                    last_seen: now,
                    transfer: 0,
                };
                devs.push(dev);
                assert(devices_view(devs@) =~= touched(ds, ip@, user_agent@, now@));
            },
        }
        self.connected_devices = devs;
        proof {
            use_type_invariant(&*self);
        }
    }

    /// Forgets the device at `ip`.
    pub fn forget_device(&mut self, ip: &str)
        ensures
            final(self)@ == (StateView {
                devices: old(self)@.devices.filter(other_ip(ip@)),
                ..old(self)@
            }),
            state_ok(old(self)@),
            state_ok(final(self)@),
    {
        proof {
            use_type_invariant(&*self);
        }
        let ghost ds = self@.devices;
        let mut kept: Vec<ConnectedDevice> = Vec::new();
        let mut i: usize = 0;
        let n = self.connected_devices.len();
        while i < n
            invariant
                n == self.connected_devices@.len(),
                ds == devices_view(self.connected_devices@),
                i <= n,
                devices_view(kept@) =~= ds.take(i as int).filter(other_ip(ip@)),
            decreases n - i,
        {
            let same = crate::text::same_chars(
                chars_of(self.connected_devices[i].ip.as_str()).as_slice(),
                chars_of(ip).as_slice(),
            );
            proof {
                assert(ds.take(i + 1) =~= ds.take(i as int).push(ds[i as int]));
                ds.take(i as int).lemma_filter_push(ds[i as int], other_ip(ip@));
            }
            if !same {
                kept.push(self.connected_devices[i].duplicate());
            }
            i += 1;
        }
        assert(ds.take(n as int) =~= ds);
        proof {
            let f = ds.filter(other_ip(ip@));
            assert forall|a: int, b: int| 0 <= a < b < f.len() implies f[a].ip != f[b].ip by {
                lemma_filter_keeps_distinct(ds, ip@, a, b);
            }
            assert forall|a: int| 0 <= a < f.len() implies f[a].transfer
                <= self.total_transfer by {
                assert(f.contains(f[a]));
                ds.lemma_filter_contains_rev(other_ip(ip@), f[a]);
            }
        }
        self.connected_devices = kept;
        proof {
            use_type_invariant(&*self);
        }
    }

    /// The path and size of the first shared file named `name`.
    pub fn find_shared_by_name(&self, name: &str) -> (r: Option<(String, u64)>)
        ensures
            match first_named(self@.files, name@) {
                Some(k) => r is Some && r->Some_0.0@ == self@.files[k].path && r->Some_0.1
                    == self@.files[k].size,
                None => r is None,
            },
    {
        let ghost fs = self@.files;
        let mut i: usize = 0;
        let n = self.shared_files.len();
        while i < n
            invariant
                n == self.shared_files@.len(),
                fs == files_view(self.shared_files@),
                i <= n,
                forall|j: int| 0 <= j < i ==> fs[j].name != name@,
            decreases n - i,
        {
            let same = crate::text::same_chars(
                chars_of(self.shared_files[i].name.as_str()).as_slice(),
                chars_of(name).as_slice(),
            );
            if same {
                proof {
                    assert(fs[i as int].name == name@);
                    let k = first_named(fs, name@)->Some_0;
                    assert(first_named(fs, name@) is Some);
                    if k < i {
                        assert(fs[k].name != name@);
                    }
                    if k > i {
                        assert(fs[i as int].name != name@);
                    }
                }
                return Some((self.shared_files[i].path.clone(), self.shared_files[i].size));
            }
            i += 1;
        }
        None
    }

    /// Credits `size` bytes to the server and to the device at `ip`, if known.
    fn credit(&mut self, ip: &str, size: u64, stamp: Option<String>)
        requires
            old(self)@.total_transfer + size <= u64::MAX,
        ensures
            final(self)@ == (StateView {
                devices: credited(old(self)@.devices, ip@, size, opt_text(stamp)),
                total_transfer: (old(self)@.total_transfer + size) as u64,
                ..old(self)@
            }),
            state_ok(old(self)@),
            state_ok(final(self)@),
    {
        proof {
            use_type_invariant(&*self);
        }
        let ghost ds = self@.devices;
        let slot = self.device_slot(ip);
        self.total_transfer = self.total_transfer + size;
        let mut devs: Vec<ConnectedDevice> = Vec::new();
        std::mem::swap(&mut devs, &mut self.connected_devices);
        assert(devices_view(devs@) == ds);
        match slot {
            Some(k) => {
                let dev = ConnectedDevice {
                    ip: devs[k].ip.clone(),
                    user_agent: devs[k].user_agent.clone(),
                    connected_at: devs[k].connected_at.clone(),
                    last_seen: match stamp {
                        Some(t) => t,
                        None => devs[k].last_seen.clone(),
                    },
                    transfer: devs[k].transfer + size,
                };
                devs.set(k, dev);
            },
            None => {},
        }
        assert(devices_view(devs@) =~= credited(ds, ip@, size, opt_text(stamp)));
        self.connected_devices = devs;
        proof {
            use_type_invariant(&*self);
        }
    }

    /// Records that the file of `size` bytes was sent to the device at `ip`,
    /// seen at `now`.
    pub fn record_download(&mut self, ip: &str, size: u64, now: String)
        requires
            old(self)@.total_transfer + size <= u64::MAX,
        ensures
            final(self)@ == (StateView {
                devices: credited(old(self)@.devices, ip@, size, Some(now@)),
                total_transfer: (old(self)@.total_transfer + size) as u64,
                ..old(self)@
            }),
            state_ok(old(self)@),
            state_ok(final(self)@),
    {
        self.credit(ip, size, Some(now));
    }

    /// Records a file received from the device at `ip`: any shared file of the
    /// same name gives way to it, and its size is credited.
    pub fn record_upload(&mut self, file: SharedFile, ip: &str)
        requires
            old(self)@.total_transfer + file.size <= u64::MAX,
        ensures
            final(self)@ == (StateView {
                files: old(self)@.files.filter(other_name(file@.name)).push(file@),
                devices: credited(old(self)@.devices, ip@, file.size, None),
                total_transfer: (old(self)@.total_transfer + file.size) as u64,
                ..old(self)@
            }),
            state_ok(old(self)@),
            state_ok(final(self)@),
    {
        proof {
            use_type_invariant(&*self);
        }
        let ghost fs = self@.files;
        let mut kept: Vec<SharedFile> = Vec::new();
        let mut i: usize = 0;
        let n = self.shared_files.len();
        while i < n
            invariant
                n == self.shared_files@.len(),
                fs == files_view(self.shared_files@),
                i <= n,
                files_view(kept@) =~= fs.take(i as int).filter(other_name(file@.name)),
            decreases n - i,
        {
            let same = crate::text::same_chars(
                chars_of(self.shared_files[i].name.as_str()).as_slice(),
                chars_of(file.name.as_str()).as_slice(),
            );
            proof {
                assert(fs.take(i + 1) =~= fs.take(i as int).push(fs[i as int]));
                fs.take(i as int).lemma_filter_push(fs[i as int], other_name(file@.name));
            }
            if !same {
                kept.push(self.shared_files[i].duplicate());
            }
            i += 1;
        }
        assert(fs.take(n as int) =~= fs);
        let size = file.size;
        let ghost fv = file@;
        let ghost before = kept@;
        kept.push(file);
        assert(files_view(kept@) =~= files_view(before).push(fv));
        self.shared_files = kept;
        self.credit(ip, size, None);
    }
}

/// Filtering out one address keeps the addresses distinct.
proof fn lemma_filter_keeps_distinct(ds: Seq<DeviceView>, ip: Seq<char>, a: int, b: int)
    requires
        distinct_ips(ds),
        0 <= a < b < ds.filter(other_ip(ip)).len(),
    ensures
        ds.filter(other_ip(ip))[a].ip != ds.filter(other_ip(ip))[b].ip,
    decreases ds.len(),
{
    reveal_with_fuel(Seq::filter, 1);
    let p = other_ip(ip);
    let f = ds.filter(p);
    let rest = ds.drop_last();
    let prev = rest.filter(p);
    assert(distinct_ips(rest));
    if p(ds.last()) {
        assert(f == prev.push(ds.last()));
        if b == f.len() - 1 {
            assert(prev.contains(prev[a]));
            rest.lemma_filter_contains_rev(p, prev[a]);
            let i = choose|i: int| 0 <= i < rest.len() && rest[i] == prev[a];
            assert(ds[i] == f[a]);
            assert(ds[ds.len() - 1] == f[b]);
        } else {
            lemma_filter_keeps_distinct(rest, ip, a, b);
        }
    } else {
        assert(f == prev);
        lemma_filter_keeps_distinct(rest, ip, a, b);
    }
}

/// The text of an optional string, copied.
pub fn copy_text(o: &Option<String>) -> (r: Option<String>)
    ensures
        opt_text(r) == opt_text(*o),
{
    match o {
        Some(s) => Some(s.clone()),
        None => None,
    }
}

// ---------------------------------------------------------------------------
// Laws
// ---------------------------------------------------------------------------

/// Sharing a path twice: once a file is shared, sharing it again, or any path
/// that names the same path, is refused.
pub proof fn lemma_share_twice_refused(
    files: Seq<SharedFileView>,
    path: Seq<char>,
    again: Seq<char>,
    size: u64,
    id: Seq<char>,
    added_at: Seq<char>,
)
    requires
        same_path(path, again),
    ensures
        already_shared(files.push(new_shared_file(path, size, id, added_at)), again),
{
    let fs = files.push(new_shared_file(path, size, id, added_at));
    assert(fs[files.len() as int].path == path);
}

/// A path counts as shared only when a shared file's path names the same
/// path: sharing a file never blocks a path that names another one, so two
/// files of the same name in different folders can both be shared.
pub proof fn lemma_shared_only_by_same_path(
    files: Seq<SharedFileView>,
    path: Seq<char>,
    other: Seq<char>,
    size: u64,
    id: Seq<char>,
    added_at: Seq<char>,
)
    ensures
        already_shared(files, other) ==> exists|i: int|
            0 <= i < files.len() && same_path(#[trigger] files[i].path, other),
        !already_shared(files, other) && !same_path(path, other) ==> !already_shared(
            files.push(new_shared_file(path, size, id, added_at)),
            other,
        ),
{
    let fs = files.push(new_shared_file(path, size, id, added_at));
    if !already_shared(files, other) && !same_path(path, other) {
        assert forall|i: int| 0 <= i < fs.len() implies !same_path(#[trigger] fs[i].path, other) by {
            if i < files.len() {
                assert(fs[i] == files[i]);
            }
        }
    }
}

/// Sharing a file and then removing it by its identifier gives back the files
/// shared before, when no file already had that identifier.
pub proof fn lemma_remove_undoes_add(
    files: Seq<SharedFileView>,
    path: Seq<char>,
    size: u64,
    id: Seq<char>,
    added_at: Seq<char>,
)
    requires
        !has_id(files, id),
    ensures
        has_id(files.push(new_shared_file(path, size, id, added_at)), id),
        first_with_id(files.push(new_shared_file(path, size, id, added_at)), id) == files.len(),
        files.push(new_shared_file(path, size, id, added_at)).remove(files.len() as int) == files,
{
    let fs = files.push(new_shared_file(path, size, id, added_at));
    assert(fs[files.len() as int].id == id);
    assert(has_id(fs, id));
    let k = first_with_id(fs, id);
    if k < files.len() {
        assert(fs[k] == files[k]);
    }
    assert(fs.remove(files.len() as int) =~= files);
}

/// A received file replaces every shared file of the same name: afterwards it
/// is the only file of that name, and it is the last one listed.
pub proof fn lemma_upload_replaces_same_name(files: Seq<SharedFileView>, file: SharedFileView)
    ensures
        ({
            let fs = files.filter(other_name(file.name)).push(file);
            &&& fs.last() == file
            &&& forall|i: int| 0 <= i < fs.len() - 1 ==> fs[i].name != file.name
        }),
{
    let kept = files.filter(other_name(file.name));
    assert forall|i: int| 0 <= i < kept.len() implies kept[i].name != file.name by {
        files.lemma_filter_pred(other_name(file.name), i);
    }
}

/// A device heard from twice keeps the time it was first seen, and shows the
/// time and user agent it was last seen with.
pub proof fn lemma_touch_keeps_first_seen(
    ds: Seq<DeviceView>,
    ip: Seq<char>,
    ua1: Seq<char>,
    t1: Seq<char>,
    ua2: Seq<char>,
    t2: Seq<char>,
)
    requires
        distinct_ips(ds),
    ensures
        ({
            let after = touched(touched(ds, ip, ua1, t1), ip, ua2, t2);
            exists|k: int|
                0 <= k < after.len() && #[trigger] after[k].ip == ip && after[k].last_seen == t2
                    && after[k].user_agent == ua2 && after[k].connected_at == (if knows_ip(
                    ds,
                    ip,
                ) {
                    ds[k].connected_at
                } else {
                    t1
                })
        }),
{
    let once = touched(ds, ip, ua1, t1);
    if knows_ip(ds, ip) {
        let k = choose|k: int| 0 <= k < ds.len() && ds[k].ip == ip;
        assert(once[k].ip == ip);
        assert(knows_ip(once, ip));
        let after = touched(once, ip, ua2, t2);
        assert(after[k].ip == ip);
    } else {
        let k = ds.len() as int;
        assert(once[k].ip == ip);
        assert(knows_ip(once, ip));
        let after = touched(once, ip, ua2, t2);
        assert(after[k].ip == ip);
    }
}

/// A started server is not idle, and a stopped one is: starting twice is
/// refused until the server is stopped; stopping keeps the shared files and
/// the bytes moved, and forgets the devices.
pub proof fn lemma_start_stop(
    s: StateView,
    ip: Seq<char>,
    port: u16,
    ssid: Seq<char>,
    password: Seq<char>,
)
    ensures
        started_state(s, ip, port, ssid, password).running,
        !stopped_state(started_state(s, ip, port, ssid, password)).running,
        stopped_state(started_state(s, ip, port, ssid, password)).files == s.files,
        stopped_state(started_state(s, ip, port, ssid, password)).total_transfer
            == s.total_transfer,
        stopped_state(started_state(s, ip, port, ssid, password)).devices.len() == 0,
        stopped_state(started_state(s, ip, port, ssid, password)).ssid == Some(ssid),
{
}

/// Crediting bytes keeps the state well formed: one device per address, and no
/// device above the server's total.
pub proof fn lemma_credit_keeps_invariant(
    s: StateView,
    ip: Seq<char>,
    size: u64,
    stamp: Option<Seq<char>>,
)
    requires
        state_ok(s),
        s.total_transfer + size <= u64::MAX,
    ensures
        state_ok(
            StateView {
                devices: credited(s.devices, ip, size, stamp),
                total_transfer: (s.total_transfer + size) as u64,
                ..s
            },
        ),
{
}

/// A call of the interface that starts or stops the server: a start names the
/// address the hotspot came up with, or none when starting the hotspot failed.
pub enum ServerCall {
    Start { hotspot_ip: Option<Seq<char>>, port: u16, ssid: Seq<char>, password: Seq<char> },
    Stop,
}

/// The state after a call and whether the call succeeded: a start is refused
/// while the server runs ([`AppState::ensure_idle`]), fails when the hotspot
/// does, and otherwise records the server ([`AppState::record_started`]); a
/// stop always succeeds ([`AppState::record_stopped`]).
pub open spec fn server_call(s: StateView, c: ServerCall) -> (StateView, bool) {
    match c {
        ServerCall::Start { hotspot_ip, port, ssid, password } => if s.running {
            (s, false)
        } else {
            match hotspot_ip {
                Some(ip) => (started_state(s, ip, port, ssid, password), true),
                None => (s, false),
            }
        },
        ServerCall::Stop => (stopped_state(s), true),
    }
}

/// The state after a history of calls, in order.
pub open spec fn after_calls(s: StateView, cs: Seq<ServerCall>) -> StateView
    decreases cs.len(),
{
    if cs.len() == 0 {
        s
    } else {
        server_call(after_calls(s, cs.drop_last()), cs.last()).0
    }
}

/// Whether call `i` of the history succeeded.
pub open spec fn call_succeeded(s: StateView, cs: Seq<ServerCall>, i: int) -> bool {
    server_call(after_calls(s, cs.take(i)), cs[i]).1
}

/// After a successful start, the server runs until a stop.
proof fn lemma_runs_until_stop(s: StateView, cs: Seq<ServerCall>, i: int, j: int)
    requires
        0 <= i < j <= cs.len(),
        cs[i] is Start,
        call_succeeded(s, cs, i),
        forall|m: int| i < m < j ==> !(#[trigger] cs[m] is Stop),
    ensures
        after_calls(s, cs.take(j)).running,
    decreases j - i,
{
    if j == i + 1 {
        assert(cs.take(j).drop_last() =~= cs.take(i));
        assert(cs.take(j).last() == cs[i]);
    } else {
        lemma_runs_until_stop(s, cs, i, j - 1);
        assert(cs.take(j).drop_last() =~= cs.take(j - 1));
        assert(cs.take(j).last() == cs[j - 1]);
        assert(!(cs[j - 1] is Stop));
    }
}

/// Starting twice needs a stop in between: in any history, between two starts
/// that succeed there is a stop; a start while the server runs is refused and
/// changes nothing.
pub proof fn lemma_second_start_needs_stop(s: StateView, cs: Seq<ServerCall>, i: int, j: int)
    requires
        0 <= i < j < cs.len(),
        cs[i] is Start,
        cs[j] is Start,
        call_succeeded(s, cs, i),
        call_succeeded(s, cs, j),
    ensures
        exists|m: int| i < m < j && #[trigger] cs[m] is Stop,
{
    if forall|m: int| i < m < j ==> !(#[trigger] cs[m] is Stop) {
        lemma_runs_until_stop(s, cs, i, j);
    }
}

/// A start while the server runs is refused and changes nothing.
pub proof fn lemma_start_while_running_refused(s: StateView, c: ServerCall)
    requires
        s.running,
        c is Start,
    ensures
        server_call(s, c) == (s, false),
{
}

} // verus!
