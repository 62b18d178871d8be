use boykisserfetch::display::{actions, print_detail, ActionType, Detail, Platform};
use boykisserfetch::{linux, macos, uptime, windows};

#[test]
fn shell_from_passwd() {
    let passwd = "root:x:0:0:root:/root:/bin/bash\nalice:x:1000:1000:Alice:/home/alice:/usr/bin/zsh\n";
    assert_eq!(linux::get_shell(passwd, "alice"), "/usr/bin/zsh");
    assert_eq!(linux::get_shell(passwd, "bob"), "");
}

#[test]
fn ram_from_meminfo() {
    assert_eq!(linux::eval_ram("MemTotal:       16318040 kB"), Some(16318));
    assert_eq!(linux::eval_ram("MemTotal"), None);
    let meminfo = "MemTotal:       16318040 kB\nMemFree:         1000000 kB\nMemAvailable:    8000000 kB\n";
    assert_eq!(linux::get_ram_used(meminfo).unwrap(), "8318M / 16318M");
    assert_eq!(linux::get_ram_used("MemTotal: 1000 kB\nMemAvailable: 900000 kB\n"), None);
}

#[test]
fn gpus_from_lspci_output() {
    let out = "00:02.0 VGA compatible controller [0300]: Intel  \n00:1f.3 Audio device\n01:00.0 3D controller [0302]: NVIDIA\n";
    assert_eq!(
        linux::gpus_from_lspci(out),
        "GPU          : 00:02.0 VGA compatible controller [0300]: Intel\nGPU          : 01:00.0 3D controller [0302]: NVIDIA"
    );
    assert_eq!(linux::gpus_from_lspci("nothing\n"), "");
}

#[test]
fn distro_from_os_release() {
    let text = "NAME=\"Arch Linux\"\nPRETTY_NAME=\"Arch Linux\"\nBUILD_ID=rolling\n";
    assert_eq!(linux::get_distro(text), "Arch Linux (rolling)");
}

#[test]
fn cpu_from_cpuinfo() {
    let text = "processor\t: 0\nmodel name\t: Intel(R) Core(TM) i7\n";
    assert_eq!(linux::get_cpu(text), "Intel(R) Core(TM) i7");
}

#[test]
fn resolution_from_xrandr() {
    let text = "Screen 0: minimum 8 x 8\nHDMI-1 connected 1920x1080+0+0 (normal)\nDP-1 disconnected\n";
    assert_eq!(linux::get_resolution(text), "1920x1080+0+0");
}

#[test]
fn kernel_is_last_line() {
    assert_eq!(linux::get_kernel("6.1.0-13-amd64\n"), "6.1.0-13-amd64");
    assert_eq!(linux::get_kernel(""), "");
}

#[test]
fn command_output_is_trimmed() {
    assert_eq!(linux::output_text(&b"  myhost\n".to_vec()), "myhost");
}

#[test]
fn ip_from_route_and_ifconfig() {
    let route = "Iface\tDestination\tGateway\neth0\t00000000\t0102A8C0\neth0\t0002A8C0\t00000000\n";
    assert_eq!(linux::default_interface(route), "eth0");
    let ifconfig = "eth0: flags=4163<UP,BROADCAST,RUNNING,MULTICAST>  mtu 1500\n        inet 192.168.2.10  netmask 255.255.255.0  broadcast 192.168.2.255\n";
    assert_eq!(linux::get_ipaddr(ifconfig, "eth0"), "192.168.2.10 (eth0)");
}

#[test]
fn gpu_from_lspci_verbose() {
    let text = "00:02.0 VGA compatible controller: Intel Corporation UHD  \n\tSubsystem: x\n";
    assert_eq!(linux::get_gpu(text), "Intel Corporation UHD");
    assert_eq!(linux::get_gpu("none\n"), "");
}

#[test]
fn windows_keyed_values() {
    let reg = "HKEY_LOCAL_MACHINE\\...\\ComputerName\n    ComputerName    REG_SZ    DESKTOP-1\n";
    assert_eq!(windows::get_hostname(reg), "DESKTOP-1");
    let prof = "    ProfileImagePath    REG_EXPAND_SZ    C:\\Users\\alice\n";
    assert_eq!(windows::get_user(prof), "alice");
    assert_eq!(windows::get_shell("    FaceName    REG_SZ    Consolas\n"), "CMD");
    assert_eq!(windows::get_ipaddr("   IPv4 Address. . . : 10.0.0.5(Preferred)\n"), "10.0.0.5(Preferred)");
}

#[test]
fn windows_value_lines() {
    assert_eq!(windows::get_cpu("Name\nIntel i5  \n\n"), "Intel i5  ");
    assert_eq!(windows::get_kernel("Caption\nMicrosoft Windows 11 Pro\n"), "Microsoft Windows 11 Pro");
    assert_eq!(windows::get_arch("OSArchitecture\n64-bit  \n"), "64-bit");
    assert_eq!(windows::get_gpu("Name\nNVIDIA RTX\n"), "NVIDIA RTX");
}

#[test]
fn windows_resolution() {
    let out = "\nCurrentHorizontalResolution=1920\nCurrentVerticalResolution=1080\n";
    assert_eq!(windows::get_resolution(out), "1920x1080");
}

#[test]
fn windows_ram_and_disks() {
    let out = "FreePhysicalMemory  TotalVisibleMemorySize\n4194304             16777216\n\n";
    assert_eq!(windows::get_ram_used(out).unwrap(), "12288MB / 16384MB");
    let disks = "Caption  FreeSpace     Size\nC:       10737418240   107374182400\n";
    assert_eq!(windows::get_disk_usage(disks).unwrap(), "C: 90GB / 100GB");
    assert_eq!(windows::get_disk_usage("Caption\nC: x\n"), None);
}

#[test]
fn windows_gpus() {
    assert_eq!(windows::gpus_from_wmic("Name\nNVIDIA RTX  \n\n"), "GPU          : GPU: NVIDIA RTX");
}

#[test]
fn macos_outputs() {
    assert_eq!(macos::get_resolution("0, 0, 1440, 900\n"), "1440x900");
    assert_eq!(macos::get_resolution("error"), "unknown");
    let prof = "Graphics:\n      Chipset Model: Apple M1\n";
    assert_eq!(macos::gpus_from_profiler(prof), "GPU          : GPU: Apple M1");
    assert_eq!(macos::get_gpu(prof), "Apple M1");
    assert_eq!(macos::trimmed_text(" host \n"), "host");
}

#[test]
fn uptime_texts() {
    assert_eq!(uptime::get_uptime("12345.67 890.12\n").unwrap(), "3 hours, 25 minutes");
    assert_eq!(uptime::get_uptime("").unwrap(), "0 hours, 0 minutes");
    assert_eq!(uptime::get_uptime("abc"), None);
    assert_eq!(uptime::uptime_text(-3700), "-1 hours, -1 minutes");
    assert_eq!(uptime::uptime_text(59), "0 hours, 0 minutes");
    assert_eq!(uptime::elapsed_seconds((100, 0), (40, 500_000_000)), 59);
    assert_eq!(uptime::elapsed_seconds((40, 0), (100, 500_000_000)), -60);
}

#[test]
fn uptime_from_boot_times() {
    // 2024-01-01T00:00:00Z is 1704067200; three hours and five minutes later
    let now = (1704067200 + 3 * 3600 + 5 * 60, 0);
    assert_eq!(
        uptime::uptime_from_wmic("LastBootUpTime\n20240101000000.000000+0000\n", now).unwrap(),
        "3 hours, 5 minutes"
    );
    assert!(uptime::uptime_from_wmic("LastBootUpTime\ngarbage\n", now).is_none());
    assert!(uptime::uptime_from_sysctl("kern.boottime: { sec = 1700000000, usec = 0 }", now).is_none());
    assert_eq!(
        uptime::uptime_from_sysctl("a b c 1700000000, d", (1700000000 + 7200 + 59, 0)).unwrap(),
        "2 hours, 0 minutes"
    );
    assert!(uptime::uptime_from_sysctl("a b c 9223372036854775807", now).is_none());
}

#[test]
fn detail_rows() {
    let r = print_detail("CPU", "Intel", ActionType::Details, "red");
    let texts: Vec<&str> = r.iter().map(|s| s.text.as_str()).collect();
    assert_eq!(texts, vec!["    ", "CPU", "         ", " : ", "Intel"]);
    assert_eq!(r[1].style.as_deref(), Some("red_bold"));
    assert_eq!(r[2].style, None);
    let h = print_detail("alice", "host", ActionType::HostInfo, "blue");
    assert_eq!(h.len(), 4);
    assert_eq!(h[2].text, "@");
    assert_eq!(print_detail("", "", ActionType::Colors, "red").len(), 7);
    assert_eq!(print_detail("", "", ActionType::Delimiter, "red")[1].text, "-----------------------------");
}

#[test]
fn action_tables() {
    let l = actions(Platform::Linux);
    assert_eq!(l.len(), 14);
    assert_eq!(l[2].name.as_deref(), Some("Distro"));
    assert_eq!(l[10].func, Some(Detail::InitSystem));
    assert_eq!(actions(Platform::Windows).len(), 14);
    assert_eq!(actions(Platform::MacOs).len(), 11);
}
