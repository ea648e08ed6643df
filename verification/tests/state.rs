use wifly::server::{client_ip, upload_target, user_agent, ChunkUploadQuery, WriteMode};
use wifly::state::{AppState, SharedFile};

fn state() -> AppState {
    AppState::new("/home/u/Downloads/Wifly".to_string())
}

fn file(id: &str, name: &str, path: &str, size: u64) -> SharedFile {
    SharedFile {
        id: id.to_string(),
        name: name.to_string(),
        path: path.to_string(),
        size,
        added_at: "10:00:00".to_string(),
    }
}

#[test]
fn new_state_is_idle_and_empty() {
    let s = state();
    let st = s.get_status();
    assert!(!st.running && !st.hotspot_active);
    assert_eq!(st.ip, None);
    assert_eq!(st.port, None);
    assert_eq!(st.connected_devices, 0);
    assert_eq!(st.shared_files_count, 0);
    assert_eq!(st.total_transfer, 0);
    assert!(s.ensure_idle().is_ok());
}

#[test]
fn starting_twice_is_refused_until_stopped() {
    let mut s = state();
    s.record_started("10.42.0.1".to_string(), 8080, "Net".to_string(), "pw".to_string());
    assert_eq!(s.ensure_idle(), Err("Server is already running".to_string()));
    let st = s.get_status();
    assert!(st.running && st.hotspot_active);
    assert_eq!(st.ip.as_deref(), Some("10.42.0.1"));
    assert_eq!(st.port, Some(8080));
    assert_eq!(st.ssid.as_deref(), Some("Net"));
    s.touch_device("10.42.0.5".to_string(), "phone".to_string(), "10:01".to_string());
    s.add_shared_file("/tmp/a.txt".to_string(), 3, "id-a".to_string(), "10:02:00".to_string()).unwrap();
    s.record_stopped();
    assert!(s.ensure_idle().is_ok());
    let st = s.get_status();
    assert!(!st.running && !st.hotspot_active);
    assert_eq!(st.ip, None);
    assert_eq!(st.connected_devices, 0);
    assert_eq!(st.shared_files_count, 1);
    assert_eq!(s.ssid().as_deref(), Some("Net"));
    assert_eq!(s.password().as_deref(), Some("pw"));
}

#[test]
fn sharing_the_same_path_twice_is_refused() {
    let mut s = state();
    let f = s.add_shared_file("/tmp/docs/a.pdf".to_string(), 10, "1".to_string(), "t".to_string()).unwrap();
    assert_eq!(f.name, "a.pdf");
    assert_eq!(f.path, "/tmp/docs/a.pdf");
    assert_eq!(
        s.add_shared_file("/tmp//docs/./a.pdf/".to_string(), 10, "2".to_string(), "t".to_string()).err(),
        Some("File already shared".to_string())
    );
    assert_eq!(s.files_copy().len(), 1);
    let g = s.add_shared_file("/".to_string(), 0, "3".to_string(), "t".to_string()).unwrap();
    assert_eq!(g.name, "unknown");
}

#[test]
fn fresh_identifier_and_time_on_share() {
    let mut s = state();
    let f = s.add_shared_file_now("/tmp/b.bin".to_string(), 7).unwrap();
    assert_eq!(f.id.len(), 36);
    for (i, c) in f.id.chars().enumerate() {
        if i == 8 || i == 13 || i == 18 || i == 23 {
            assert_eq!(c, '-');
        } else {
            assert!(c.is_ascii_digit() || ('a'..='f').contains(&c), "{}", f.id);
        }
    }
    let t = f.added_at.as_bytes();
    assert_eq!(t.len(), 8);
    assert!(t[2] == b':' && t[5] == b':');
    assert!(t.iter().enumerate().all(|(i, b)| i == 2 || i == 5 || b.is_ascii_digit()));
    assert_eq!(f.name, "b.bin");
    assert_eq!(s.files_copy()[0].id, f.id);
}

#[test]
fn removing_a_file_undoes_sharing_it() {
    let mut s = state();
    s.add_shared_file("/tmp/a".to_string(), 1, "A".to_string(), "t".to_string()).unwrap();
    s.add_shared_file("/home/u/Downloads/Wifly/up.jpg".to_string(), 2, "B".to_string(), "t".to_string()).unwrap();
    assert_eq!(s.remove_shared_file("nope"), None);
    assert_eq!(s.files_copy().len(), 2);
    assert_eq!(s.remove_shared_file("A"), None);
    assert_eq!(s.files_copy().len(), 1);
    assert_eq!(s.remove_shared_file("B"), Some("/home/u/Downloads/Wifly/up.jpg".to_string()));
    assert!(s.files_copy().is_empty());
}

#[test]
fn device_keeps_first_seen_time() {
    let mut s = state();
    s.touch_device("10.42.0.7".to_string(), "ua1".to_string(), "09:00".to_string());
    s.touch_device("10.42.0.8".to_string(), "other".to_string(), "09:01".to_string());
    s.touch_device("10.42.0.7".to_string(), "ua2".to_string(), "09:30".to_string());
    let d = s.device_list();
    assert_eq!(d.len(), 2);
    assert_eq!(d[0].connected_at, "09:00");
    assert_eq!(d[0].last_seen, "09:30");
    assert_eq!(d[0].user_agent, "ua2");
    s.forget_device("10.42.0.7");
    let d = s.device_list();
    assert_eq!(d.len(), 1);
    assert_eq!(d[0].ip, "10.42.0.8");
}

#[test]
fn downloads_credit_device_and_total() {
    let mut s = state();
    s.add_shared_file("/tmp/movie.mp4".to_string(), 500, "m".to_string(), "t".to_string()).unwrap();
    s.touch_device("10.42.0.9".to_string(), "ua".to_string(), "09:00".to_string());
    let (path, size) = s.find_shared_by_name("movie.mp4").unwrap();
    assert_eq!((path.as_str(), size), ("/tmp/movie.mp4", 500));
    assert_eq!(s.find_shared_by_name("other"), None);
    s.record_download("10.42.0.9", size, "09:05".to_string());
    s.record_download("10.42.0.99", size, "09:06".to_string());
    assert_eq!(s.total_transfer(), 1000);
    assert_eq!(s.device_list()[0].transfer, 500);
    assert_eq!(s.device_list()[0].last_seen, "09:05");
    s.record_download_now("10.42.0.9", 1);
    assert_eq!(s.device_list()[0].last_seen.len(), 5);
}

#[test]
fn upload_replaces_file_of_same_name() {
    let mut s = state();
    s.touch_device("10.42.0.3".to_string(), "ua".to_string(), "08:00".to_string());
    s.add_shared_file("/tmp/x.txt".to_string(), 1, "1".to_string(), "t".to_string()).unwrap();
    s.record_upload(file("2", "x.txt", "/home/u/Downloads/Wifly/x.txt", 40), "10.42.0.3");
    s.record_upload(file("3", "y.txt", "/home/u/Downloads/Wifly/y.txt", 2), "10.42.0.3");
    assert_eq!(s.files_copy().len(), 2);
    assert_eq!(s.files_copy()[0].id, "2");
    assert_eq!(s.files_copy()[1].id, "3");
    assert_eq!(s.total_transfer(), 42);
    assert_eq!(s.device_list()[0].transfer, 42);
    s.finish_upload("y.txt".to_string(), "/home/u/Downloads/Wifly/y.txt".to_string(), 5, "10.42.0.3");
    assert_eq!(s.files_copy().len(), 2);
    assert_eq!(s.files_copy()[1].size, 5);
    assert_eq!(s.files_copy()[1].id.len(), 36);
    assert_eq!(s.total_transfer(), 47);
}

#[test]
fn uploaded_names_stay_in_the_shared_folder() {
    let t = upload_target("/home/u/Downloads/Wifly", "../../etc/passwd");
    assert_eq!(t.name, "....etcpasswd");
    assert_eq!(t.path, "/home/u/Downloads/Wifly/....etcpasswd");
    let t = upload_target("/srv/share/", "a<b>:c?.txt");
    assert_eq!(t.path, "/srv/share/abc.txt");
    let t = upload_target("/srv", "..");
    assert_eq!(t.name, "");
    let mut s = AppState::new("/srv".to_string());
    s.record_upload(file("u", "f", &upload_target("/srv", "/abs/f").path, 1), "ip");
    assert_eq!(s.remove_shared_file("u"), Some("/srv/absf".to_string()));
}

#[test]
fn chunk_queries() {
    let q = |chunk, total| ChunkUploadQuery { name: "f".to_string(), chunk, total };
    assert!(matches!(q(0, 3).write_mode(), WriteMode::Truncate));
    assert!(matches!(q(1, 3).write_mode(), WriteMode::Append));
    assert!(!q(1, 3).is_last());
    assert!(q(2, 3).is_last());
    assert!(q(0, 1).is_last());
    assert!(q(0, 0).is_last());
    assert!(q(5, 3).is_last());
    assert!(q(usize::MAX, 0).is_last());
}

#[test]
fn request_labels() {
    assert_eq!(client_ip(Some("10.42.0.2".to_string())), "10.42.0.2");
    assert_eq!(client_ip(None), "unknown");
    assert_eq!(user_agent(None), "Unknown");
    assert_eq!(user_agent(Some("Mozilla".to_string())), "Mozilla");
}

#[test]
fn phone_page_lists_files() {
    let mut s = state();
    let empty = s.mobile_page();
    assert!(empty.starts_with("<!DOCTYPE html>"));
    assert!(empty.contains("<div class=\"count\">0 files</div>"));
    assert!(empty.contains("No files shared yet"));
    s.add_shared_file("/tmp/a&b.pdf".to_string(), 1536, "1".to_string(), "t".to_string()).unwrap();
    let one = s.mobile_page();
    assert!(one.contains("<div class=\"count\">1 file</div>"));
    assert!(one.contains("<a href=\"/api/download/a&amp;b.pdf\" class=\"file-card\" download>"));
    assert!(one.contains("<div class=\"file-icon\">📄</div>"));
    assert!(one.contains("<div class=\"file-name\">a&amp;b.pdf</div>"));
    assert!(one.contains("<div class=\"file-size\">1.5 KB</div>"));
    assert!(!one.contains("No files shared yet"));
    assert!(one.ends_with("</html>"));
    s.add_shared_file("/tmp/c.zip".to_string(), 10, "2".to_string(), "t".to_string()).unwrap();
    let two = s.mobile_page();
    assert!(two.contains("<div class=\"count\">2 files</div>"));
    assert!(two.find("a&amp;b.pdf").unwrap() < two.find("c.zip").unwrap());
    assert!(two.contains("uploadFiles(this.files)"));
    assert!(two.contains("`/api/upload_chunk?name=${encodeURIComponent(file.name)}&chunk=${chunkIdx}&total=${totalChunks}`"));
}

#[test]
fn upload_in_chunks_ends_as_single_upload() {
    let q = |chunk, total| ChunkUploadQuery { name: "big.bin".to_string(), chunk, total };
    let target = upload_target("/home/u/Downloads/Wifly", "big.bin");
    let mut many = state();
    let mut one = state();
    let k = 4;
    for i in 0..k {
        let query = q(i, k);
        assert_eq!(matches!(query.write_mode(), WriteMode::Truncate), i == 0);
        many.track_client("10.42.0.2".to_string(), format!("ua{}", i));
        let files_before = many.files_copy().len();
        many.complete_chunk(&query, &target, 100 * (i as u64 + 1), "10.42.0.2");
        assert_eq!(query.is_last(), i == k - 1);
        assert_eq!(many.files_copy().len(), if i == k - 1 { files_before + 1 } else { files_before });
    }
    let query = q(0, 1);
    one.track_client("10.42.0.2".to_string(), "ua".to_string());
    one.complete_chunk(&query, &target, 400, "10.42.0.2");
    assert_eq!(many.total_transfer(), one.total_transfer());
    let (fm, fo) = (many.files_copy(), one.files_copy());
    assert_eq!(fm.len(), fo.len());
    assert_eq!((fm[0].name.as_str(), fm[0].path.as_str(), fm[0].size), (fo[0].name.as_str(), fo[0].path.as_str(), fo[0].size));
    let (dm, d1) = (many.device_list(), one.device_list());
    assert_eq!(dm.len(), 1);
    assert_eq!((dm[0].ip.as_str(), dm[0].transfer), (d1[0].ip.as_str(), d1[0].transfer));
    let t = &dm[0].last_seen;
    assert!(t.len() == 5 && t.as_bytes()[2] == b':' && t.bytes().enumerate().all(|(i, b)| i == 2 || b.is_ascii_digit()));
}

#[test]
fn start_stop_history() {
    let mut s = state();
    let mut ok_starts = 0;
    for round in 0..3 {
        assert!(s.ensure_idle().is_ok());
        s.record_started("10.42.0.1".to_string(), 8000 + round, "n".to_string(), "p".to_string());
        ok_starts += 1;
        assert_eq!(s.ensure_idle(), Err("Server is already running".to_string()));
        assert_eq!(s.ensure_idle(), Err("Server is already running".to_string()));
        s.record_stopped();
    }
    assert_eq!(ok_starts, 3);
}

#[test]
fn clean_names_are_kept_and_long_names_cut() {
    let t = upload_target("/srv", "photo.jpg");
    assert_eq!(t.name, "photo.jpg");
    assert_eq!(t.path, "/srv/photo.jpg");
    let long: String = std::iter::repeat('é').take(200).collect();
    let t = upload_target("/srv", &long);
    assert_eq!(t.name.len(), 254);
    assert_eq!(t.name.chars().count(), 127);
    let exact: String = std::iter::repeat('a').take(255).collect();
    assert_eq!(upload_target("/srv", &exact).name, exact);
    let over: String = std::iter::repeat('a').take(300).collect();
    assert_eq!(upload_target("/srv", &over).name.len(), 255);
    let t = upload_target("/srv", "a\u{7f}b\u{85}c\u{9f}d");
    assert_eq!(t.name, "a\u{7f}bcd");
    assert_eq!(upload_target("/srv", ".../").name, "");
    assert_eq!(upload_target("/srv", ".x.").name, ".x.");
}

#[test]
fn upload_names_are_never_dot_or_dot_dot() {
    for raw in [".", "..", "...", "./", "/..", "..\\..", ".\u{1}."] {
        let t = upload_target("/srv", raw);
        assert!(t.name != "." && t.name != ".." && !t.name.contains('/'), "{:?} -> {:?}", raw, t.name);
    }
}
