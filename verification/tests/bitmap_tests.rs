use sig_bitmap::interpret;
use sig_bitmap::signals::sigabbrev_np;
use sig_bitmap::BitmapType;

#[test]
fn test_sigabbrev_np() {
    let tests: Vec<(&str, u8)> = Vec::<(&str, u8)>::from([
        ("KILL", 0x09),
        ("RTMIN", 0x22),
        ("RTMIN+2", 0x24),
        ("RTMAX", 0x40),
        ("RTMAX-2", 0x3e),
        ("INVL", 0x00),
    ]);

    for test in tests {
        assert_eq!(test.0, sigabbrev_np(&test.1));
    }
}

#[test]
fn test_bit_map_type_str() {
    let tests: Vec<(BitmapType, &str)> = Vec::<(BitmapType, &str)>::from([
        (BitmapType::SigPnd, "SigPnd"),
        (BitmapType::ShdPnd, "ShdPnd"),
        (BitmapType::SigBlk, "SigBlk"),
        (BitmapType::SigIgn, "SigIgn"),
        (BitmapType::SigCgt, "SigCgt"),
    ]);

    for test in tests {
        assert!(test.0.label().contains(test.1));
    }
}

#[test]
fn test_interpret() {
    let bit_map: u64 = 0xbadc0ffee;
    let sig_chk: Vec<&str> = vec![
        "INT", "QUIT", "ILL", "ABRT", "BUS", "FPE", "KILL", "USR1", "SEGV",
        "USR2", "PIPE", "ALRM", "TERM", "STKFLT", "URG", "XCPU", "XFSZ",
        "PROF", "WINCH", "IO", "RTMIN-2", "RTMIN-1", "RTMIN", "RTMIN+2",
    ];
    let sig_ret: Vec<String> = interpret(&bit_map);
    assert_eq!(sig_ret, sig_chk);
}

#[test]
fn test_resolver_posix_table() {
    let table: Vec<&str> = vec![
        "HUP", "INT", "QUIT", "ILL", "TRAP", "ABRT", "BUS", "FPE", "KILL", "USR1",
        "SEGV", "USR2", "PIPE", "ALRM", "TERM", "STKFLT", "CHLD", "CONT", "STOP",
        "TSTP", "TTIN", "TTOU", "URG", "XCPU", "XFSZ", "VTALRM", "PROF", "WINCH",
        "POLL", "IO", "PWR", "SYS",
    ];
    for idx in 1u8..=31 {
        assert_eq!(table[(idx - 1) as usize], sigabbrev_np(&idx));
    }
}

#[test]
fn test_resolver_out_of_range() {
    assert_eq!("INVL", sigabbrev_np(&65));
    assert_eq!("INVL", sigabbrev_np(&0));
    assert_eq!("INVL", sigabbrev_np(&255));
}

#[test]
fn test_resolver_rt_range_bounds() {
    assert_eq!("RTMIN-2", sigabbrev_np(&0x20));
    assert_eq!("RTMIN-1", sigabbrev_np(&0x21));
    assert_eq!("RTMIN+15", sigabbrev_np(&0x31));
    assert_eq!("RTMAX-14", sigabbrev_np(&0x32));
    assert_eq!("RTMAX-1", sigabbrev_np(&0x3f));
    assert_eq!("PWR", sigabbrev_np(&0x1f));
    assert_eq!("HUP", sigabbrev_np(&0x01));
}

#[test]
fn test_resolver_idempotent() {
    for idx in 0u8..=255 {
        assert_eq!(sigabbrev_np(&idx), sigabbrev_np(&idx));
    }
}

#[test]
fn test_interpret_count_is_popcount() {
    let samples: Vec<u64> = vec![
        0,
        1,
        0xdead,
        0xbadc0ffee,
        u64::MAX,
        1u64 << 62,
        1u64 << 63,
        0x8000_0000_0000_0001,
    ];
    for m in samples {
        let low_bits = m & ((1u64 << 63) - 1);
        assert_eq!(interpret(&m).len() as u32, low_bits.count_ones());
    }
}

#[test]
fn test_interpret_example() {
    let bit_map: u64 = 0xdead;
    let sig_exp: Vec<&str> = vec![
        "HUP", "QUIT", "ILL", "ABRT", "FPE", "USR1",
        "SEGV", "USR2", "PIPE", "TERM", "STKFLT",
    ];
    assert_eq!(interpret(&bit_map), sig_exp);
}

#[test]
fn test_interpret_ignores_bit_63() {
    let sig_ret: Vec<String> = interpret(&(1u64 << 63));
    assert!(sig_ret.is_empty());
}
