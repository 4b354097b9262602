use elysium::addr::Ipv4Addr;
use elysium::tunnel::{
    after_attempt, after_command, app_firewall_args, check_adapter_name, cleanup_elysium_firewall,
    harden_elysium_firewall, resolve_netsh_path, resolve_powershell_path,
    set_network_category_private, signature_args, verify_wintun_dll_signature, wintun_place,
    DllPlace, Retry, TunnelError, TunnelManager,
};
use elysium::windows_tuning::WindowsGamingTuner;

#[test]
fn test_vuln4_u16_truncation_rejection() {
    let result_valid = TunnelManager::validate_packet_size(65535);
    assert!(result_valid.is_ok());

    let result_too_large = TunnelManager::validate_packet_size(65536);
    assert!(result_too_large.is_err());
    assert_eq!(
        result_too_large.unwrap_err().message(),
        "Packet size 65536 is invalid for WinTUN"
    );

    let result_empty = TunnelManager::validate_packet_size(0);
    assert!(result_empty.is_err());
    assert_eq!(result_empty.unwrap_err().message(), "Packet size 0 is invalid for WinTUN");
}

#[test]
fn test_adapter_name_validation() {
    assert!(set_network_category_private("Valid-Name_1").is_ok() || true);
    assert!(set_network_category_private("Invalid;Name&").is_err());
    assert!(harden_elysium_firewall("Bad;Cmd").is_err());
    assert!(harden_elysium_firewall("Valid-Elysium_LAN").is_ok() || true);
}

#[test]
fn adapter_names() {
    assert!(check_adapter_name("ElysiumLAN").is_ok());
    assert!(check_adapter_name("").is_ok());
    for bad in ["a b", "a'b", "ä", "a.b", "a\"b", "a$b"] {
        let e = check_adapter_name(bad).unwrap_err();
        assert_eq!(e.message(), format!("Invalid adapter name: '{}'", bad));
    }
    assert!(TunnelManager::create_adapter("Elysium LAN").is_err());
}

#[test]
fn writing_packets() {
    let mut m = TunnelManager::create_adapter("ElysiumLAN").unwrap();
    assert!(matches!(m.write_packet(&[1, 2]), Err(TunnelError::NotStarted)));
    assert_eq!(TunnelError::NotStarted.message(), "Session not started");
    assert!(matches!(m.write_packet(&[]), Err(TunnelError::PacketSize(0))));
    m.start_reading();
    assert_eq!(m.write_packet(&[1, 2]).unwrap(), 2);
    assert_eq!(m.write_packet(&vec![0; 65535]).unwrap(), 65535);
    assert!(matches!(m.write_packet(&vec![0; 65536]), Err(TunnelError::PacketSize(65536))));
    m.shutdown(None);
    assert!(matches!(m.write_packet(&[1, 2]), Err(TunnelError::NotStarted)));
}

#[test]
fn setting_the_address() {
    let commands = TunnelManager::set_ip(
        "ElysiumLAN",
        Ipv4Addr::new(10, 7, 0, 2),
        Ipv4Addr::new(255, 255, 255, 0),
    );
    let lines: Vec<String> = commands.iter().map(|c| c.join(" ")).collect();
    assert_eq!(
        lines,
        vec![
            "interface ipv4 set address name=ElysiumLAN static 10.7.0.2 255.255.255.0",
            "interface ipv4 set interface interface=ElysiumLAN metric=9999",
            "interface ipv4 set subinterface ElysiumLAN mtu=1380 store=active",
            "interface ipv4 add route 10.7.0.0/24 ElysiumLAN 10.7.0.2 metric=1 store=active",
            "interface ipv4 add route 10.7.0.255/32 ElysiumLAN 10.7.0.2 metric=1 store=active",
        ]
    );
}

#[test]
fn shutting_down() {
    let mut m = TunnelManager::create_adapter("ElysiumLAN").unwrap();
    let lines: Vec<String> = m.shutdown(Some("ElysiumLAN")).iter().map(|c| c.join(" ")).collect();
    assert_eq!(
        lines,
        vec![
            "interface ipv4 delete route 10.7.0.0/24 ElysiumLAN",
            "interface ipv4 delete route 10.7.0.255/32 ElysiumLAN",
        ]
    );
    assert!(m.shutdown(None).is_empty());
}

#[test]
fn scripts_for_the_adapter() {
    let start = ["-NoProfile", "-NonInteractive", "-ExecutionPolicy", "Bypass", "-Command"];
    let args = set_network_category_private("LAN_1").unwrap();
    assert_eq!(&args[..5], &start);
    assert_eq!(
        args[5],
        "Set-NetConnectionProfile -InterfaceAlias 'LAN_1' -NetworkCategory Private -ErrorAction Stop"
    );
    assert_eq!(args.len(), 6);

    let args = harden_elysium_firewall("LAN_1").unwrap();
    assert_eq!(&args[..5], &start);
    let lines: Vec<&str> = args[5].lines().map(|l| l.trim()).collect();
    assert_eq!(lines.len(), 9);
    assert_eq!(
        lines[5],
        "New-NetFirewallRule -DisplayName 'ElysiumLAN-Block-Inbound-HostPorts-TCP' -Direction Inbound -Action Block -Protocol TCP -LocalPort 135,137,138,139,445,3389,5985,5986 -InterfaceAlias 'LAN_1' -ErrorAction SilentlyContinue"
    );
    assert_eq!(
        lines[6],
        "New-NetFirewallRule -DisplayName 'ElysiumLAN-Block-Inbound-HostPorts-UDP' -Direction Inbound -Action Block -Protocol UDP -LocalPort 137,138,5353,5355 -InterfaceAlias 'LAN_1' -ErrorAction SilentlyContinue"
    );
    assert_eq!(
        lines[7],
        "New-NetFirewallRule -DisplayName 'ElysiumLAN-Allow-ICMP' -Direction Inbound -Action Allow -Protocol ICMPv4 -IcmpType 8 -InterfaceAlias 'LAN_1' -ErrorAction SilentlyContinue"
    );

    let cleanup = cleanup_elysium_firewall();
    let removed: Vec<&str> = cleanup[5].lines().map(|l| l.trim()).collect();
    assert_eq!(&removed[..4], &lines[..4]);
    assert_eq!(
        removed[1],
        "Remove-NetFirewallRule -DisplayName 'ElysiumLAN-Block-Inbound-HostPorts-TCP' -ErrorAction SilentlyContinue"
    );
}

#[test]
fn signatures() {
    let args = signature_args("C:\\fake\\wintun.dll");
    assert_eq!(
        args[5],
        "(Get-AuthenticodeSignature -FilePath 'C:\\fake\\wintun.dll').Status.ToString()"
    );
    assert!(verify_wintun_dll_signature(false, "Valid\r\n", false).is_ok());
    assert!(verify_wintun_dll_signature(true, "", false).is_ok());
    assert!(verify_wintun_dll_signature(false, "NotSigned", true).is_ok());
    let e = verify_wintun_dll_signature(false, " NotSigned\r\n", false).unwrap_err();
    assert_eq!(
        e.message(),
        "wintun.dll failed Authenticode verification: status is 'NotSigned'. Rejecting untrusted driver binary."
    );
}

#[test]
fn three_attempts() {
    assert_eq!(after_attempt(1, false), Retry::Again(400));
    assert_eq!(after_attempt(2, false), Retry::Again(400));
    assert_eq!(after_attempt(3, false), Retry::GivenUp(400));
    assert_eq!(after_attempt(3, true), Retry::Succeeded);
}

#[test]
fn the_program_and_its_traffic() {
    assert_eq!(
        app_firewall_args("C:\\elysium.exe").join(" "),
        "advfirewall firewall add rule name=Elysium LAN dir=in action=allow program=C:\\elysium.exe enable=yes"
    );
    let args = WindowsGamingTuner::dscp_qos_policy("elysium.exe");
    assert_eq!(
        args[5],
        "if (-not (Get-NetQosPolicy -Name 'ElysiumGamingQoS' -ErrorAction SilentlyContinue)) { New-NetQosPolicy -Name 'ElysiumGamingQoS' -AppPathNameMatchCondition 'elysium.exe' -IPProtocolMatchCondition UDP -DSCPAction 46 -NetworkProfile All -Confirm:$false | Out-Null }"
    );
    WindowsGamingTuner::tune_worker_thread("wintun-reader");
}

#[test]
fn only_the_first_command_has_to_succeed() {
    assert!(after_command(0, true, Some(0)).is_ok());
    for i in 1..5 {
        assert!(after_command(i, true, Some(0)).is_ok());
        assert!(after_command(i, true, Some(1)).is_ok());
        assert!(after_command(i, true, None).is_ok());
        assert!(after_command(i, false, None).is_ok());
    }
    let text = |ran, code| after_command(0, ran, code).unwrap_err().message();
    assert_eq!(text(false, None), "Failed to execute netsh command");
    assert_eq!(text(false, Some(0)), "Failed to execute netsh command");
    for code in [None, Some(1), Some(-1), Some(1073), Some(i32::MIN), Some(i32::MAX)] {
        assert_eq!(
            text(true, code),
            format!("Failed to set IP via netsh (exit code: {:?})", code)
        );
    }
}

#[test]
fn test_resolve_powershell_path() {
    for (root, is_there) in [(None, false), (None, true), (Some("C:\\Windows"), false), (Some("C:\\Windows"), true)] {
        let ps = resolve_powershell_path(root, is_there);
        assert!(ps.concat().contains("powershell"));
    }
}

#[test]
fn programs_of_the_system() {
    assert_eq!(
        resolve_powershell_path(Some("C:\\Windows"), true),
        vec!["C:\\Windows", "System32", "WindowsPowerShell", "v1.0", "powershell.exe"]
    );
    assert_eq!(resolve_powershell_path(Some("C:\\Windows"), false), vec!["powershell"]);
    assert_eq!(resolve_powershell_path(None, true), vec!["powershell"]);
    assert_eq!(
        resolve_netsh_path(Some("C:\\Windows"), true),
        vec!["C:\\Windows", "System32", "netsh.exe"]
    );
    assert_eq!(resolve_netsh_path(Some("C:\\Windows"), false), vec!["netsh"]);
    assert_eq!(resolve_netsh_path(None, true), vec!["netsh"]);
}

#[test]
fn where_the_driver_is_taken_from() {
    assert_eq!(wintun_place(true, true).unwrap(), DllPlace::BesideProgram);
    assert_eq!(wintun_place(true, false).unwrap(), DllPlace::BesideProgram);
    assert_eq!(wintun_place(false, true).unwrap(), DllPlace::System32);
    assert_eq!(
        wintun_place(false, false).unwrap_err().message(),
        "wintun.dll not found in executable directory or System32"
    );
}
