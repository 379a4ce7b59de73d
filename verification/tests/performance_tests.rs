use kira_core::performance::{
    parse_battery_info, parse_cpu_stat, parse_flips_count, parse_meminfo, BatteryInfo, MemoryInfo,
};

#[test]
fn test_parse_flips_count() {
    let sample_output = "Build: android
flips=123456
OtherSurface=888";
    assert_eq!(parse_flips_count(sample_output), Some(123456));

    let sample_output_inline = "Some state information flips=9992 ";
    assert_eq!(parse_flips_count(sample_output_inline), Some(9992));

    let sample_no_flips = "Build: android\nOtherSurface=888";
    assert_eq!(parse_flips_count(sample_no_flips), None);
}

#[test]
fn test_parse_cpu_stat() {
    let sample_output = "cpu  416629 8243 277259 3448405 13745 66736 12224 0 0 0
        cpu0 102570 1978 72152 865261 4872 13580 3280 0 0 0
        cpu1 113337 2038 71830 855219 4697 22004 3302 0 0 0
        intr 14197288 38 693 0 0 0 0 0 0 2 0 0 0 0 0
        ctxt 23793740
        btime 1740713783
        processes 201178
        procs_running 5
        procs_blocked 0
        softirq 16010072 2 4639912 37 131849 53 0 29323 0 0 11208896
        ";

    let result = parse_cpu_stat(sample_output);
    assert_eq!(result.len(), 2);

    assert_eq!(result[0].times.user, 102570);
    assert_eq!(result[0].times.idle, 865261);

    assert_eq!(result[1].times.nice, 2038);
    assert_eq!(result[1].times.softirq, 3302);
}

#[test]
fn test_parse_meminfo() {
    let sample_output = "
        MemTotal:       11432996 kB
        MemFree:          197724 kB
        MemAvailable:    1680480 kB
        Buffers:            2796 kB
        Cached:          1639720 kB
        ";
    let expected = MemoryInfo {
        total_kb: 11432996,
        free_kb: 197724,
        available_kb: 1680480,
    };

    assert_eq!(parse_meminfo(sample_output), Some(expected));
}

#[test]
fn test_parse_battery_info() {
    let sample_output = "Current Battery Service state:
        AC powered: false
        USB powered: true
        Wireless powered: false
        Max charging current: 500000
        Max charging voltage: 5000000
        Charge counter: 2000000
        status: 2
        health: 2
        present: true
        level: 85
        scale: 100
        voltage: 4123
        temperature: 320
        technology: Li-poly
        ";
    let expected = BatteryInfo {
        level: 85,
        temperature: 320,
        voltage: 4123,
    };

    assert_eq!(parse_battery_info(sample_output), Some(expected));
}
