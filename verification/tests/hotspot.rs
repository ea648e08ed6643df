use wifly::hotspot::{
    connected_devices_from, neighbor_cmd, ping_cmd,
    ap_mode_in, find_wifi_interface_in, hotspot_ip_in, hotspot_neighbors_in, start_failure_message,
    wifi_connections_in, ApSearch, Command, CommandOutcome, HotspotStart, HotspotStop, SearchStep,
    StartStep, StopStep,
};

fn ran(success: bool, stdout: &str, stderr: &str) -> CommandOutcome {
    CommandOutcome::Finished {
        success,
        stdout: stdout.as_bytes().to_vec(),
        stderr: stderr.as_bytes().to_vec(),
    }
}

fn line(c: &Command) -> String {
    let mut s = c.program.clone();
    for a in &c.args {
        s.push(' ');
        s.push_str(a);
    }
    s
}

fn run_of(step: StartStep) -> String {
    match step {
        StartStep::Run(c) => line(&c),
        StartStep::Finish(r) => panic!("finished early: {:?}", r),
    }
}

#[test]
fn wifi_interface_is_first_wifi_device() {
    let out = "lo:loopback\nenp2s0:ethernet\nwlp3s0:wifi\nwlan1:wifi\n";
    assert_eq!(find_wifi_interface_in(out), Ok("wlp3s0".to_string()));
    assert_eq!(
        find_wifi_interface_in("lo:loopback\n"),
        Err("No Wi-Fi interface found. Make sure your Wi-Fi adapter is enabled.".to_string())
    );
    assert_eq!(find_wifi_interface_in("wifi\n:wifi:x\n"), Ok("".to_string()));
}

#[test]
fn hotspot_address_skips_loopback() {
    let out = "1: lo: <LOOPBACK>\n    inet 127.0.0.1/8 scope host lo\n3: wlp3s0: <UP>\n    link/ether aa:bb\n    inet 10.42.0.1/24 brd 10.42.0.255 scope global\n";
    assert_eq!(hotspot_ip_in(out), Ok("10.42.0.1".to_string()));
    assert_eq!(hotspot_ip_in("    inet6 fe80::1/64\n"), Err("Could not determine hotspot IP".to_string()));
    assert_eq!(hotspot_ip_in("inet 192.168.1.5\n"), Ok("192.168.1.5".to_string()));
}

#[test]
fn active_wifi_connections_and_mode() {
    let out = "1111:802-11-wireless:wlp3s0\n2222:ethernet:enp2s0\n3333:wifi:\n4444:wifi:wlan1\n";
    assert_eq!(wifi_connections_in(out), vec!["1111".to_string(), "4444".to_string()]);
    assert!(ap_mode_in("802-11-wireless.mode:ap\n"));
    assert!(ap_mode_in("  ap "));
    assert!(!ap_mode_in("802-11-wireless.mode:infrastructure\n"));
}

#[test]
fn neighbors_on_hotspot_network_only() {
    let out = "10.42.0.15 dev wlp3s0 lladdr a1:b2:c3:d4:e5:f6 REACHABLE\n\
               10.42.0.16 dev wlp3s0 lladdr 11:22:33:44:55:66 FAILED\n\
               192.168.1.1 dev enp2s0 lladdr 00:11:22:33:44:55 STALE\n\
               10.42.0.17 dev wlp3s0  FAILED\n\
               10.42.0.18 dev wlp3s0 lladdr 77:88:99:aa:bb:cc STALE\n";
    let d = hotspot_neighbors_in(out);
    assert_eq!(d.len(), 2);
    assert_eq!((d[0].ip.as_str(), d[0].mac.as_str(), d[0].interface.as_str()), ("10.42.0.15", "a1:b2:c3:d4:e5:f6", "wlp3s0"));
    assert_eq!(d[1].ip, "10.42.0.18");
}

#[test]
fn failure_messages() {
    assert_eq!(
        start_failure_message("Error: Not authorized to control networking.", ""),
        "Authorization cancelled by user"
    );
    assert_eq!(
        start_failure_message("  Error: device busy \n", " x "),
        "Failed to start hotspot: Error: device busy x"
    );
}

#[test]
fn start_runs_commands_in_order() {
    let (mut m, first) = HotspotStart::new("MyNet".to_string(), "secret123".to_string());
    assert_eq!(line(&first), "nmcli --terse --fields DEVICE,TYPE device status");
    let c = run_of(m.advance(ran(true, "wlp3s0:wifi\n", "")));
    assert_eq!(c, "pkexec nmcli device wifi hotspot ifname wlp3s0 con-name wifly-hotspot ssid MyNet password secret123");
    let c = run_of(m.advance(ran(true, "", "")));
    assert!(c.starts_with("nmcli connection modify wifly-hotspot 802-11-wireless.band bg"));
    let c = run_of(m.advance(ran(false, "", "")));
    assert_eq!(c, "nmcli connection down wifly-hotspot");
    let c = run_of(m.advance(CommandOutcome::NotLaunched("gone".to_string())));
    assert_eq!(c, "nmcli connection up wifly-hotspot");
    let c = run_of(m.advance(ran(true, "", "")));
    assert_eq!(c, "ip addr show wlp3s0");
    match m.advance(ran(true, "    inet 10.42.0.1/24 brd\n", "")) {
        StartStep::Finish(r) => assert_eq!(r, Ok("10.42.0.1".to_string())),
        StartStep::Run(_) => panic!("expected the end"),
    }
}

#[test]
fn start_falls_back_to_default_address() {
    let (mut m, _) = HotspotStart::new("n".to_string(), "p".to_string());
    for o in [ran(true, "w:wifi", ""), ran(true, "", ""), ran(true, "", ""), ran(true, "", ""), ran(true, "", "")] {
        run_of(m.advance(o));
    }
    match m.advance(CommandOutcome::NotLaunched("no ip".to_string())) {
        StartStep::Finish(r) => assert_eq!(r, Ok("10.42.0.1".to_string())),
        StartStep::Run(_) => panic!("expected the end"),
    }
}

#[test]
fn start_reports_errors() {
    let (mut m, _) = HotspotStart::new("n".to_string(), "p".to_string());
    match m.advance(CommandOutcome::NotLaunched("No such file or directory (os error 2)".to_string())) {
        StartStep::Finish(r) => assert_eq!(
            r,
            Err("Failed to query network devices: No such file or directory (os error 2). Is NetworkManager installed?".to_string())
        ),
        StartStep::Run(_) => panic!("expected an error"),
    }
    let (mut m, _) = HotspotStart::new("n".to_string(), "p".to_string());
    run_of(m.advance(ran(true, "w:wifi", "")));
    match m.advance(ran(false, "", "Error: dismissed")) {
        StartStep::Finish(r) => assert_eq!(r, Err("Authorization cancelled by user".to_string())),
        StartStep::Run(_) => panic!("expected an error"),
    }
    let (mut m, _) = HotspotStart::new("n".to_string(), "p".to_string());
    run_of(m.advance(ran(true, "w:wifi", "")));
    match m.advance(CommandOutcome::NotLaunched("denied".to_string())) {
        StartStep::Finish(r) => assert_eq!(r, Err("Failed to execute nmcli: denied".to_string())),
        StartStep::Run(_) => panic!("expected an error"),
    }
}

fn stop_run(step: StopStep) -> String {
    match step {
        StopStep::Run(c) => line(&c),
        StopStep::Finish(r) => panic!("finished early: {:?}", r),
    }
}

#[test]
fn stop_tries_known_names_then_deletes() {
    let (mut m, first) = HotspotStop::new();
    assert_eq!(line(&first), "nmcli connection down wifly-hotspot");
    assert_eq!(stop_run(m.advance(ran(false, "", ""))), "nmcli connection down Hotspot");
    assert_eq!(stop_run(m.advance(ran(true, "", ""))), "nmcli connection delete Hotspot");
    match m.advance(ran(false, "", "")) {
        StopStep::Finish(r) => assert_eq!(r, Ok(())),
        StopStep::Run(_) => panic!("expected the end"),
    }
}

#[test]
fn stop_searches_access_point_connection() {
    let (mut m, _) = HotspotStop::new();
    stop_run(m.advance(ran(false, "", "")));
    stop_run(m.advance(ran(false, "", "")));
    stop_run(m.advance(CommandOutcome::NotLaunched("x".to_string())));
    assert_eq!(
        stop_run(m.advance(ran(false, "", ""))),
        "nmcli --terse --fields UUID,TYPE,DEVICE connection show --active"
    );
    assert_eq!(
        stop_run(m.advance(ran(true, "u1:wifi:wlp3s0\nu2:802-11-wireless:wlan1\n", ""))),
        "nmcli --terse --fields 802-11-wireless.mode connection show u1"
    );
    assert_eq!(
        stop_run(m.advance(ran(true, "802-11-wireless.mode:infrastructure\n", ""))),
        "nmcli --terse --fields 802-11-wireless.mode connection show u2"
    );
    assert_eq!(stop_run(m.advance(ran(true, "802-11-wireless.mode:ap\n", ""))), "nmcli connection down u2");
    assert_eq!(stop_run(m.advance(ran(false, "", ""))), "nmcli connection delete u2");
    match m.advance(ran(true, "", "")) {
        StopStep::Finish(r) => assert_eq!(r, Ok(())),
        StopStep::Run(_) => panic!("expected the end"),
    }
}

#[test]
fn stop_fails_only_when_found_connection_cannot_be_taken_down() {
    let (mut m, _) = HotspotStop::new();
    for _ in 0..4 {
        stop_run(m.advance(ran(false, "", "")));
    }
    stop_run(m.advance(ran(true, "u9:wifi:wlp3s0\n", "")));
    stop_run(m.advance(ran(true, "ap", "")));
    match m.advance(CommandOutcome::NotLaunched("boom".to_string())) {
        StopStep::Finish(r) => assert_eq!(r, Err("Failed to stop hotspot: boom".to_string())),
        StopStep::Run(_) => panic!("expected an error"),
    }
}

#[test]
fn search_reports_nothing_without_access_point() {
    let (mut s, _) = ApSearch::new();
    match s.advance(ran(true, "", "")) {
        SearchStep::NotFound => {}
        _ => panic!("expected nothing found"),
    }
    let (mut s, _) = ApSearch::new();
    match s.advance(CommandOutcome::NotLaunched("x".to_string())) {
        SearchStep::NotFound => {}
        _ => panic!("expected nothing found"),
    }
}

#[test]
fn invalid_utf8_output_is_read_lossily() {
    let (mut m, _) = HotspotStart::new("n".to_string(), "p".to_string());
    let step = m.advance(CommandOutcome::Finished {
        success: true,
        stdout: b"w\xfflan:wifi\n".to_vec(),
        stderr: vec![],
    });
    assert_eq!(run_of(step), "pkexec nmcli device wifi hotspot ifname w\u{FFFD}lan con-name wifly-hotspot ssid n password p");
}

#[test]
fn neighbor_outcome_to_devices() {
    assert_eq!(line(&neighbor_cmd()), "ip neigh show");
    assert_eq!(line(&ping_cmd("10.42.0.5")), "ping -c 1 -w 2 10.42.0.5");
    assert!(connected_devices_from(CommandOutcome::NotLaunched("x".to_string())).is_empty());
    let d = connected_devices_from(ran(false, "10.42.0.5 dev wl lladdr aa:bb DELAY\n", ""));
    assert_eq!(d.len(), 1);
    assert_eq!(d[0].mac, "aa:bb");
}
