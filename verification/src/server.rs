//! What the HTTP server decides: the page shown to phones, where an uploaded
//! chunk is written and when the upload is complete, and how requests are
//! accounted to devices.
use vstd::prelude::*;
use crate::format::{escaped, extension, get_file_emoji, format_size, icon_for, lowercase, push_decimal, push_escaped, size_text, decimal};
use crate::paths::{joined, join_path, path_starts_with, lemma_join_name_inside};
use crate::platform::{clock_minutes, clock_seconds, lemma_sanitized_safe, local_time, new_file_id, sanitize_name, sanitized, unsafe_in_name, uuid_text};
use crate::state::{AppState, DeviceView, SharedFile, SharedFileView, StateView, credited, knows_ip, state_ok, touched, other_name};
use crate::text::{push_str, string_of};

verus! {

pub const PAGE_HEAD: &'static str = "<!DOCTYPE html>\n<html lang=\"en\">\n<head>\n    <meta charset=\"UTF-8\">\n    <meta name=\"viewport\" content=\"width=device-width, initial-scale=1.0, user-scalable=no\">\n    <title>Wifly — File Share</title>\n    <style>\n        * { margin: 0; padding: 0; box-sizing: border-box; }\n        body { font-family: -apple-system, BlinkMacSystemFont, 'Segoe UI', system-ui, sans-serif; background: #0a0c10; color: #e6e9f0; min-height: 100vh; }\n        .header { background: linear-gradient(135deg, rgba(0,229,192,0.12) 0%, rgba(0,229,192,0.03) 100%); border-bottom: 1px solid rgba(0,229,192,0.15); padding: 28px 20px 24px; text-align: center; }\n        .logo { width: 48px; height: 48px; border-radius: 14px; border: 1.5px solid rgba(0,229,192,0.5); background: rgba(0,229,192,0.1); display: inline-flex; align-items: center; justify-content: center; font-size: 22px; margin-bottom: 12px; }\n        .brand { font-size: 22px; font-weight: 700; letter-spacing: -0.5px; }\n        .brand span { color: #00e5c0; }\n        .subtitle { font-size: 13px; color: #6e7888; margin-top: 6px; }\n        .count { display: inline-block; background: rgba(0,229,192,0.1); border: 1px solid rgba(0,229,192,0.2); color: #00e5c0; font-size: 12px; font-weight: 600; padding: 4px 14px; border-radius: 100px; margin-top: 14px; }\n        .refresh-link { display: block; margin-top: 10px; color: #00e5c0; font-size: 13px; cursor: pointer; text-decoration: underline; }\n        .files { padding: 16px; display: flex; flex-direction: column; gap: 8px; }\n        .file-card { display: flex; align-items: center; gap: 14px; padding: 16px; background: #13161d; border: 1px solid rgba(255,255,255,0.06); border-radius: 14px; text-decoration: none; color: inherit; transition: all 0.2s; -webkit-tap-highlight-color: transparent; }\n        .file-card:active { background: #1a1e28; border-color: rgba(0,229,192,0.2); }\n        .file-icon { width: 44px; height: 44px; background: rgba(0,229,192,0.08); border: 1px solid rgba(0,229,192,0.12); border-radius: 12px; display: flex; align-items: center; justify-content: center; font-size: 20px; flex-shrink: 0; }\n        .file-info { flex: 1; min-width: 0; }\n        .file-name { font-size: 14px; font-weight: 600; white-space: nowrap; overflow: hidden; text-overflow: ellipsis; }\n        .file-size { font-size: 12px; color: #6e7888; margin-top: 3px; }\n        .dl-icon { width: 36px; height: 36px; background: rgba(0,229,192,0.1); border-radius: 10px; display: flex; align-items: center; justify-content: center; font-size: 16px; flex-shrink: 0; color: #00e5c0; }\n        .empty { text-align: center; padding: 48px 20px; color: #4e5666; }\n        .empty p { font-size: 16px; }\n        .empty .sub { font-size: 13px; margin-top: 8px; color: #3a3f4a; }\n        .upload-section { padding: 16px; border-top: 1px solid rgba(255,255,255,0.06); }\n        .upload-btn { width: 100%; padding: 16px; background: rgba(0,229,192,0.1); border: 1.5px solid rgba(0,229,192,0.3); border-radius: 14px; color: #00e5c0; font-size: 14px; font-weight: 600; cursor: pointer; text-align: center; transition: all 0.2s; -webkit-tap-highlight-color: transparent; }\n        .upload-btn:active { background: rgba(0,229,192,0.2); }\n        \n        /* Progress UI */\n        #progress-container { display: none; margin-bottom: 16px; padding: 16px; background: #13161d; border: 1px solid rgba(0,229,192,0.3); border-radius: 14px; }\n        .prog-label { font-size: 13px; font-weight: 600; color: #e6e9f0; margin-bottom: 8px; display: flex; justify-content: space-between; }\n        .prog-filename { color: #00e5c0; overflow: hidden; text-overflow: ellipsis; white-space: nowrap; max-width: 70%; }\n        .prog-bar-bg { width: 100%; height: 6px; background: rgba(255,255,255,0.1); border-radius: 100px; overflow: hidden; }\n        .prog-bar-fill { height: 100%; background: #00e5c0; width: 0%; transition: width 0.1s linear; }\n        \n        .footer { text-align: center; padding: 20px; font-size: 11px; color: #3a3f4a; }\n    </style>\n</head>\n<body>\n    <div class=\"header\">\n        <div class=\"logo\">📡</div>\n        <div class=\"brand\"><span>Wi</span>fly</div>\n        <div class=\"subtitle\">Local file sharing</div>\n        <div class=\"count\">";

pub const PAGE_COUNT_UNIT: &'static str = " file";

pub const PAGE_BEFORE_FILES: &'static str = "</div>\n        <div class=\"refresh-link\" onclick=\"location.reload()\">🔄 Refresh file list</div>\n    </div>\n    <div class=\"files\">";

pub const PAGE_TAIL: &'static str = "</div>\n    <div class=\"upload-section\">\n        <div id=\"progress-container\">\n            <div class=\"prog-label\">\n                <span class=\"prog-filename\" id=\"prog-filename\">Uploading...</span>\n                <span id=\"prog-pct\">0%</span>\n            </div>\n            <div class=\"prog-bar-bg\">\n                <div class=\"prog-bar-fill\" id=\"prog-bar-fill\"></div>\n            </div>\n        </div>\n        <form id=\"upload-form\" enctype=\"multipart/form-data\">\n            <input type=\"file\" id=\"file-input\" multiple style=\"display:none\" onchange=\"uploadFiles(this.files)\">\n            <div class=\"upload-btn\" id=\"upload-btn\" onclick=\"document.getElementById('file-input').click()\">\n                📤 Send files to this computer\n            </div>\n        </form>\n    </div>\n    <div class=\"footer\">Wifly v1.0.0 · Powered by Tauri</div>\n    <script>\n        window.isUploading = false;\n        async function uploadFiles(files) {\n            if (!files || files.length === 0) return;\n            window.isUploading = true;\n            \n            const btn = document.getElementById('upload-btn');\n            const progCont = document.getElementById('progress-container');\n            const progFill = document.getElementById('prog-bar-fill');\n            const progPct = document.getElementById('prog-pct');\n            const progName = document.getElementById('prog-filename');\n            \n            btn.style.display = 'none';\n            progCont.style.display = 'block';\n            \n            let allSuccess = true;\n            \n            for (let i = 0; i < files.length; i++) {\n                const file = files[i];\n                progName.textContent = file.name;\n                \n                // 5MB chunks\n                const chunkSize = 5 * 1024 * 1024;\n                const totalChunks = Math.ceil(file.size / chunkSize) || 1;\n                \n                for (let chunkIdx = 0; chunkIdx < totalChunks; chunkIdx++) {\n                    const start = chunkIdx * chunkSize;\n                    const end = Math.min(start + chunkSize, file.size);\n                    const chunk = file.slice(start, end);\n                    \n                    const url = `/api/upload_chunk?name=${encodeURIComponent(file.name)}&chunk=${chunkIdx}&total=${totalChunks}`;\n                    \n                    try {\n                        const res = await fetch(url, { method: 'POST', body: chunk });\n                        if (!res.ok) {\n                            const text = await res.text();\n                            throw new Error(text);\n                        }\n                    } catch(e) {\n                        allSuccess = false;\n                        alert('Upload error for ' + file.name + ': ' + e.message);\n                        break;\n                    }\n                    \n                    const pct = Math.round(((chunkIdx + 1) / totalChunks) * 100);\n                    progFill.style.width = pct + '%';\n                    progPct.textContent = pct + '%';\n                }\n            }\n            \n            if (allSuccess) {\n                location.reload();\n            } else {\n                btn.style.display = 'block';\n                progCont.style.display = 'none';\n            }\n            window.isUploading = false;\n        }\n\n        // WebSocket connection for presence\n        const protocol = location.protocol === 'https:' ? 'wss:' : 'ws:';\n        const wsUrl = protocol + '//' + location.host + '/ws/';\n        let ws;\n        function connectWs() {\n            ws = new WebSocket(wsUrl);\n            ws.onclose = () => {\n                setTimeout(connectWs, 2000); // Reconnect\n            };\n        }\n        connectWs();\n    </script>\n</body>\n</html>";

pub const NO_FILES: &'static str = "<div class=\"empty\"><p>📂 No files shared yet</p><p class=\"sub\">Files will appear here when shared from the desktop app</p></div>";

pub const ROW_OPEN: &'static str = "<a href=\"/api/download/";

pub const ROW_AFTER_LINK: &'static str = "\" class=\"file-card\" download>\n                    <div class=\"file-icon\">";

pub const ROW_AFTER_ICON: &'static str = "</div>\n                    <div class=\"file-info\">\n                        <div class=\"file-name\">";

pub const ROW_AFTER_NAME: &'static str = "</div>\n                        <div class=\"file-size\">";

pub const ROW_CLOSE: &'static str = "</div>\n                    </div>\n                    <div class=\"dl-icon\">⬇</div>\n                </a>";

/// One line of the file list: a download link with the file's icon, name and size.
pub open spec fn file_row(f: SharedFileView) -> Seq<char> {
    ROW_OPEN@ + escaped(f.name) + ROW_AFTER_LINK@ + icon_for(lowercase(extension(f.name)))
        + ROW_AFTER_ICON@ + escaped(f.name) + ROW_AFTER_NAME@ + size_text(f.size as nat)
        + ROW_CLOSE@
}

/// The lines of all files, in order.
pub open spec fn file_rows(files: Seq<SharedFileView>) -> Seq<char>
    decreases files.len(),
{
    if files.len() == 0 {
        Seq::<char>::empty()
    } else {
        file_rows(files.drop_last()) + file_row(files.last())
    }
}

/// The file list: the lines of the files, or a notice when there are none.
pub open spec fn file_list(files: Seq<SharedFileView>) -> Seq<char> {
    if files.len() == 0 {
        NO_FILES@
    } else {
        file_rows(files)
    }
}

/// The page served to phones: the number of files (with "file" made plural
/// unless there is exactly one), the file list and the upload form.
pub open spec fn mobile_page_text(files: Seq<SharedFileView>) -> Seq<char> {
    PAGE_HEAD@ + decimal(files.len()) + PAGE_COUNT_UNIT@ + (if files.len() != 1 {
        "s"@
    } else {
        ""@
    }) + PAGE_BEFORE_FILES@ + file_list(files) + PAGE_TAIL@
}

/// Each file's card shows, right after the download link, the icon of the
/// file's extension lower-cased: names whose extensions differ only in case
/// get the same icon.
pub proof fn lemma_row_shows_lowercased_icon(f: SharedFileView, g: SharedFileView)
    ensures
        ({
            let start = (ROW_OPEN@.len() + escaped(f.name).len() + ROW_AFTER_LINK@.len()) as int;
            let icon = icon_for(lowercase(extension(f.name)));
            &&& file_row(f).subrange(0, start) == ROW_OPEN@ + escaped(f.name)
                + ROW_AFTER_LINK@
            &&& file_row(f).subrange(start, start + icon.len()) == icon
        }),
        lowercase(extension(f.name)) == lowercase(extension(g.name)) && escaped(f.name).len()
            == escaped(g.name).len() ==> ({
            let start = (ROW_OPEN@.len() + escaped(f.name).len() + ROW_AFTER_LINK@.len()) as int;
            let n = icon_for(lowercase(extension(f.name))).len();
            file_row(f).subrange(start, start + n) == file_row(g).subrange(
                start,
                start + n,
            )
        }),
{
    let start = (ROW_OPEN@.len() + escaped(f.name).len() + ROW_AFTER_LINK@.len()) as int;
    let icon = icon_for(lowercase(extension(f.name)));
    let head = ROW_OPEN@ + escaped(f.name) + ROW_AFTER_LINK@;
    assert(file_row(f) =~= head + icon + (ROW_AFTER_ICON@ + escaped(f.name) + ROW_AFTER_NAME@
        + size_text(f.size as nat) + ROW_CLOSE@));
    assert(file_row(f).subrange(0, start) =~= head);
    assert(file_row(f).subrange(start, start + icon.len()) =~= icon);
    let gstart = (ROW_OPEN@.len() + escaped(g.name).len() + ROW_AFTER_LINK@.len()) as int;
    let gicon = icon_for(lowercase(extension(g.name)));
    let ghead = ROW_OPEN@ + escaped(g.name) + ROW_AFTER_LINK@;
    assert(file_row(g) =~= ghead + gicon + (ROW_AFTER_ICON@ + escaped(g.name) + ROW_AFTER_NAME@
        + size_text(g.size as nat) + ROW_CLOSE@));
    assert(file_row(g).subrange(gstart, gstart + gicon.len()) =~= gicon);
}

fn push_file_row(out: &mut Vec<char>, f: &SharedFile)
    ensures
        final(out)@ == old(out)@ + file_row(f@),
{
    let ghost start = out@;
    push_str(out, ROW_OPEN);
    push_escaped(out, f.name.as_str());
    push_str(out, ROW_AFTER_LINK);
    push_str(out, get_file_emoji(f.name.as_str()));
    push_str(out, ROW_AFTER_ICON);
    push_escaped(out, f.name.as_str());
    push_str(out, ROW_AFTER_NAME);
    let size = format_size(f.size);
    push_str(out, size.as_str());
    push_str(out, ROW_CLOSE);
    assert(out@ =~= start + file_row(f@));
}

impl AppState {
    /// The page served to phones for the files shared now.
    pub fn mobile_page(&self) -> (page: String)
        ensures
            page@ == mobile_page_text(self@.files),
    {
        let files = self.files_copy();
        let ghost fs = self@.files;
        let n = files.len();
        let mut out: Vec<char> = Vec::new();
        push_str(&mut out, PAGE_HEAD);
        push_decimal(&mut out, n as u128);
        push_str(&mut out, PAGE_COUNT_UNIT);
        if n != 1 {
            push_str(&mut out, "s");
        } else {
            push_str(&mut out, "");
        }
        push_str(&mut out, PAGE_BEFORE_FILES);
        let ghost before_list = out@;
        if n == 0 {
            push_str(&mut out, NO_FILES);
        } else {
            let mut i: usize = 0;
            while i < n
                invariant
                    n == files@.len(),
                    fs == crate::state::files_view(files@),
                    i <= n,
                    out@ =~= before_list + file_rows(fs.take(i as int)),
                decreases n - i,
            {
                assert(fs.take(i + 1).drop_last() =~= fs.take(i as int));
                assert(fs[i as int] == files@[i as int]@);
                push_file_row(&mut out, &files[i]);
                i += 1;
            }
            assert(fs.take(n as int) =~= fs);
        }
        push_str(&mut out, PAGE_TAIL);
        string_of(out.as_slice())
    }
}

/// The query of an uploaded chunk: the file's name, the chunk's index and the
/// number of chunks.
pub struct ChunkUploadQuery {
    pub name: String,
    pub chunk: usize,
    pub total: usize,
}

/// How a chunk is written: the first one creates or truncates the file, the
/// others are appended.
pub enum WriteMode {
    Truncate,
    Append,
}

/// Whether chunk `chunk` of `total` completes the file.
pub open spec fn final_chunk(chunk: nat, total: nat) -> bool {
    chunk + 1 >= total
}

impl ChunkUploadQuery {
    /// How this chunk is written to the file.
    pub fn write_mode(&self) -> (m: WriteMode)
        ensures
            m is Truncate <==> self.chunk == 0,
    {
        if self.chunk == 0 {
            WriteMode::Truncate
        } else {
            WriteMode::Append
        }
    }

    /// Whether this chunk completes the file: its index is the last (or beyond).
    pub fn is_last(&self) -> (r: bool)
        ensures
            r == final_chunk(self.chunk as nat, self.total as nat),
    {
        self.total == 0 || self.chunk >= self.total - 1
    }
}

/// Where an uploaded file is stored: its sanitised name and its path in the
/// shared folder.
pub struct UploadTarget {
    pub name: String,
    pub path: String,
}

/// The sanitised name and the path under `shared_dir` for a file that a device
/// sends as `raw_name`.
pub fn upload_target(shared_dir: &str, raw_name: &str) -> (t: UploadTarget)
    ensures
        t.name@ == sanitized(raw_name@),
        t.path@ == joined(shared_dir@, t.name@),
        forall|i: int| 0 <= i < t.name@.len() ==> #[trigger] t.name@[i] != '/',
        t.name@ != seq!['.'],
        t.name@ != seq!['.', '.'],
        path_starts_with(t.path@, shared_dir@),
{
    let name = sanitize_name(raw_name);
    let path = join_path(shared_dir, name.as_str());
    proof {
        lemma_sanitized_safe(raw_name@);
        assert forall|i: int| 0 <= i < name@.len() implies #[trigger] name@[i] != '/' by {
            assert(!unsafe_in_name(name@[i]));
        }
        lemma_join_name_inside(shared_dir@, name@);
    }
    UploadTarget { name, path }
}

/// The address of a peer, or `unknown` when it is not known.
pub fn client_ip(peer: Option<String>) -> (ip: String)
    ensures
        ip@ == (match peer {
            Some(p) => p@,
            None => "unknown"@,
        }),
{
    match peer {
        Some(p) => p,
        None => crate::text::owned("unknown"),
    }
}

/// The user agent a request names, or `Unknown`.
pub fn user_agent(header: Option<String>) -> (ua: String)
    ensures
        ua@ == (match header {
            Some(h) => h@,
            None => "Unknown"@,
        }),
{
    match header {
        Some(h) => h,
        None => crate::text::owned("Unknown"),
    }
}

/// The record of a file received from a device.
pub open spec fn uploaded_file(
    id: Seq<char>,
    name: Seq<char>,
    path: Seq<char>,
    size: u64,
    added_at: Seq<char>,
) -> SharedFileView {
    SharedFileView { id, name, path, size, added_at }
}

/// What completing an upload does: the file `upload` replaces any shared file
/// of its name, and its size is credited to the server and the device at `ip`.
pub open spec fn upload_recorded(s: StateView, ip: Seq<char>, upload: SharedFileView) -> StateView {
    StateView {
        files: s.files.filter(other_name(upload.name)).push(upload),
        devices: credited(s.devices, ip, upload.size, None),
        total_transfer: (s.total_transfer + upload.size) as u64,
        ..s
    }
}

/// What a received chunk does once written: the last chunk of the file
/// completes the upload, the others change nothing.
pub open spec fn chunk_completed(
    s: StateView,
    chunk: nat,
    total: nat,
    ip: Seq<char>,
    upload: SharedFileView,
) -> StateView {
    if final_chunk(chunk, total) {
        upload_recorded(s, ip, upload)
    } else {
        s
    }
}

impl AppState {
    /// Notes, at the current time of day, that the device at `ip` made a request.
    pub fn track_client(&mut self, ip: String, user_agent: String)
        ensures
            exists|now: Seq<char>|
                clock_minutes(now) && final(self)@ == (StateView {
                    devices: #[trigger] touched(old(self)@.devices, ip@, user_agent@, now),
                    ..old(self)@
                }),
            state_ok(old(self)@),
            state_ok(final(self)@),
    {
        let now = local_time("%H:%M");
        self.touch_device(ip, user_agent, now);
    }

    /// Notes, at the current time of day, that a file of `size` bytes was sent
    /// to the device at `ip`.
    pub fn record_download_now(&mut self, ip: &str, size: u64)
        requires
            old(self)@.total_transfer + size <= u64::MAX,
        ensures
            exists|now: Seq<char>|
                clock_minutes(now) && final(self)@ == (StateView {
                    devices: #[trigger] credited(old(self)@.devices, ip@, size, Some(now)),
                    total_transfer: (old(self)@.total_transfer + size) as u64,
                    ..old(self)@
                }),
            state_ok(old(self)@),
            state_ok(final(self)@),
    {
        let now = local_time("%H:%M");
        self.record_download(ip, size, now);
    }

    /// Records a completed upload of `size` bytes from the device at `ip`,
    /// stored as `name` at `path`, with a fresh identifier and the current time.
    pub fn finish_upload(&mut self, name: String, path: String, size: u64, ip: &str)
        requires
            old(self)@.total_transfer + size <= u64::MAX,
        ensures
            exists|id: Seq<char>, added_at: Seq<char>|
                uuid_text(id) && clock_seconds(added_at) && final(self)@ == upload_recorded(
                    old(self)@,
                    ip@,
                    #[trigger] uploaded_file(id, name@, path@, size, added_at),
                ),
            state_ok(old(self)@),
            state_ok(final(self)@),
    {
        let id = new_file_id();
        let added_at = local_time("%H:%M:%S");
        let file = SharedFile { id, name, path, size, added_at };
        let ghost fv = file@;
        self.record_upload(file, ip);
        assert(fv == uploaded_file(fv.id, fv.name, fv.path, size, fv.added_at));
    }

    /// Once the chunk `query` from the device at `ip` is written to `target`,
    /// whose file now holds `size` bytes: the last chunk completes the upload,
    /// the others change nothing.
    pub fn complete_chunk(
        &mut self,
        query: &ChunkUploadQuery,
        target: &UploadTarget,
        size: u64,
        ip: &str,
    )
        requires
            final_chunk(query.chunk as nat, query.total as nat) ==> old(self)@.total_transfer
                + size <= u64::MAX,
        ensures
            !final_chunk(query.chunk as nat, query.total as nat) ==> final(self)@ == old(self)@,
            final_chunk(query.chunk as nat, query.total as nat) ==> exists|
                id: Seq<char>,
                added_at: Seq<char>,
            |
                uuid_text(id) && clock_seconds(added_at) && final(self)@ == chunk_completed(
                    old(self)@,
                    query.chunk as nat,
                    query.total as nat,
                    ip@,
                    #[trigger] uploaded_file(id, target.name@, target.path@, size, added_at),
                ),
            state_ok(old(self)@),
            state_ok(final(self)@),
    {
        proof {
            use_type_invariant(&*self);
        }
        if query.is_last() {
            self.finish_upload(target.name.clone(), target.path.clone(), size, ip);
        }
    }
}

// ---------------------------------------------------------------------------
// Chunked uploads
// ---------------------------------------------------------------------------

/// What one chunk request does to the state: the device is heard from
/// ([`AppState::track_client`]) and, once the chunk is written, the last chunk
/// records the file `upload` ([`AppState::complete_chunk`]).
pub open spec fn after_chunk(
    s: StateView,
    chunk: nat,
    total: nat,
    ip: Seq<char>,
    ua: Seq<char>,
    now: Seq<char>,
    upload: SharedFileView,
) -> StateView {
    chunk_completed(StateView { devices: touched(s.devices, ip, ua, now), ..s }, chunk, total, ip, upload)
}

/// The state after the first `count` chunks of `total`, sent in order from the
/// device at `ip` (with user agent `ua(i)` at time `now(i)` for chunk `i`).
pub open spec fn after_chunks(
    s: StateView,
    count: nat,
    total: nat,
    ip: Seq<char>,
    ua: spec_fn(nat) -> Seq<char>,
    now: spec_fn(nat) -> Seq<char>,
    upload: SharedFileView,
) -> StateView
    decreases count,
{
    if count == 0 {
        s
    } else {
        let i = (count - 1) as nat;
        after_chunk(after_chunks(s, i, total, ip, ua, now, upload), i, total, ip, ua(i), now(i), upload)
    }
}

/// The bytes moved per device address.
pub open spec fn ledger(ds: Seq<DeviceView>) -> Seq<(Seq<char>, u64)> {
    ds.map_values(|d: DeviceView| (d.ip, d.transfer))
}

proof fn lemma_touch_ledger(ds: Seq<DeviceView>, ip: Seq<char>, ua: Seq<char>, now: Seq<char>)
    ensures
        ledger(touched(ds, ip, ua, now)) == if knows_ip(ds, ip) {
            ledger(ds)
        } else {
            ledger(ds).push((ip, 0u64))
        },
        knows_ip(touched(ds, ip, ua, now), ip),
{
    let t = touched(ds, ip, ua, now);
    if knows_ip(ds, ip) {
        assert(ledger(t) =~= ledger(ds));
        let k = choose|k: int| 0 <= k < ds.len() && ds[k].ip == ip;
        assert(t[k].ip == ip);
    } else {
        assert(ledger(t) =~= ledger(ds).push((ip, 0u64)));
        assert(t[ds.len() as int].ip == ip);
    }
}

/// Whether an address is known depends only on the bytes moved per address.
proof fn lemma_ledger_knows(a: Seq<DeviceView>, b: Seq<DeviceView>, ip: Seq<char>)
    requires
        ledger(a) == ledger(b),
    ensures
        knows_ip(a, ip) == knows_ip(b, ip),
{
    assert(a.len() == ledger(a).len());
    assert(b.len() == ledger(b).len());
    if knows_ip(a, ip) {
        let k = choose|k: int| 0 <= k < a.len() && a[k].ip == ip;
        assert(ledger(a)[k] == ledger(b)[k]);
        assert(b[k].ip == ip);
    }
    if knows_ip(b, ip) {
        let k = choose|k: int| 0 <= k < b.len() && b[k].ip == ip;
        assert(ledger(a)[k] == ledger(b)[k]);
        assert(a[k].ip == ip);
    }
}

/// Crediting depends on the devices only through the bytes moved per address.
proof fn lemma_credit_ledger(a: Seq<DeviceView>, b: Seq<DeviceView>, ip: Seq<char>, size: u64)
    requires
        ledger(a) == ledger(b),
    ensures
        ledger(credited(a, ip, size, None)) == ledger(credited(b, ip, size, None)),
{
    assert(a.len() == ledger(a).len());
    assert(b.len() == ledger(b).len());
    assert forall|i: int| 0 <= i < a.len() implies a[i].ip == b[i].ip && a[i].transfer
        == b[i].transfer by {
        assert(ledger(a)[i] == ledger(b)[i]);
    }
    assert(ledger(credited(a, ip, size, None)) =~= ledger(credited(b, ip, size, None)));
}

/// The chunks before the last only mark the device as heard from.
proof fn lemma_early_chunks(
    s: StateView,
    count: nat,
    total: nat,
    ip: Seq<char>,
    ua: spec_fn(nat) -> Seq<char>,
    now: spec_fn(nat) -> Seq<char>,
    upload: SharedFileView,
)
    requires
        1 <= count < total,
    ensures
        ({
            let a = after_chunks(s, count, total, ip, ua, now, upload);
            &&& a == (StateView { devices: a.devices, ..s })
            &&& ledger(a.devices) == ledger(touched(s.devices, ip, ua(0), now(0)))
        }),
    decreases count,
{
    if count > 1 {
        let c1 = (count - 1) as nat;
        lemma_early_chunks(s, c1, total, ip, ua, now, upload);
        let prev = after_chunks(s, c1, total, ip, ua, now, upload);
        lemma_touch_ledger(s.devices, ip, ua(0), now(0));
        lemma_ledger_knows(prev.devices, touched(s.devices, ip, ua(0), now(0)), ip);
        lemma_touch_ledger(prev.devices, ip, ua(c1), now(c1));
        assert(!final_chunk(c1, total));
    } else {
        assert(after_chunks(s, 0, total, ip, ua, now, upload) == s);
        assert(!final_chunk(0, total));
    }
}

/// Sending a file in `k >= 1` chunks ends as sending it in one: exactly the
/// first chunk truncates the file and exactly the last completes it, and the
/// shared files, the total and the bytes moved per device come out the same
/// as after a single chunk carrying the whole file (the same file record).
pub proof fn lemma_chunked_upload_same_as_single(
    s: StateView,
    k: nat,
    ip: Seq<char>,
    ua: spec_fn(nat) -> Seq<char>,
    now: spec_fn(nat) -> Seq<char>,
    single_ua: Seq<char>,
    single_now: Seq<char>,
    upload: SharedFileView,
)
    requires
        k >= 1,
    ensures
        forall|i: nat| i < k ==> (#[trigger] final_chunk(i, k) <==> i == k - 1),
        final_chunk(0, 1),
        ({
            let many = after_chunks(s, k, k, ip, ua, now, upload);
            let one = after_chunk(s, 0, 1, ip, single_ua, single_now, upload);
            &&& many.files == one.files
            &&& many.total_transfer == one.total_transfer
            &&& ledger(many.devices) == ledger(one.devices)
            &&& many.running == one.running
            &&& many.shared_dir == one.shared_dir
        }),
{
    let last = (k - 1) as nat;
    let before = after_chunks(s, last, k, ip, ua, now, upload);
    let t_many = touched(before.devices, ip, ua(last), now(last));
    let t_one = touched(s.devices, ip, single_ua, single_now);
    if k > 1 {
        lemma_early_chunks(s, last, k, ip, ua, now, upload);
        lemma_touch_ledger(s.devices, ip, ua(0), now(0));
        lemma_ledger_knows(before.devices, touched(s.devices, ip, ua(0), now(0)), ip);
        lemma_touch_ledger(before.devices, ip, ua(last), now(last));
        lemma_touch_ledger(s.devices, ip, single_ua, single_now);
        assert(ledger(t_many) == ledger(t_one));
    } else {
        assert(before == s);
        lemma_touch_ledger(s.devices, ip, ua(0), now(0));
        lemma_touch_ledger(s.devices, ip, single_ua, single_now);
        assert(ledger(t_many) == ledger(t_one));
    }
    lemma_credit_ledger(t_many, t_one, ip, upload.size);
}

} // verus!
