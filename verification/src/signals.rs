//! Resolving a signal index to its canonical short name.
//!
//! Indices 1 through 31 are the standard signals, named by a fixed
//! table. Indices 32 through 49 are the low real-time signals, named
//! relative to the real-time minimum; indices 50 through 64 are the
//! high real-time signals, named relative to the real-time maximum.
//! Every other index resolves to the sentinel name.
use vstd::prelude::*;
use vstd::string::StringExecFns;

verus! {

/// Index that carries the plain name of the real-time minimum.
pub const SIGRTMIN_IDX: u8 = 0x22;

/// Index that carries the plain name of the real-time maximum.
pub const SIGRTMAX_IDX: u8 = 0x40;

/// Canonical short names of the standard signals, by table position
/// (position 0 holds the name of signal 1, and so on through 31).
pub open spec fn spec_sig_table(pos: int) -> Seq<char> {
    if pos == 0 { "HUP"@ }
    else if pos == 1 { "INT"@ }
    else if pos == 2 { "QUIT"@ }
    else if pos == 3 { "ILL"@ }
    else if pos == 4 { "TRAP"@ }
    else if pos == 5 { "ABRT"@ }
    else if pos == 6 { "BUS"@ }
    else if pos == 7 { "FPE"@ }
    else if pos == 8 { "KILL"@ }
    else if pos == 9 { "USR1"@ }
    else if pos == 10 { "SEGV"@ }
    else if pos == 11 { "USR2"@ }
    else if pos == 12 { "PIPE"@ }
    else if pos == 13 { "ALRM"@ }
    else if pos == 14 { "TERM"@ }
    else if pos == 15 { "STKFLT"@ }
    else if pos == 16 { "CHLD"@ }
    else if pos == 17 { "CONT"@ }
    else if pos == 18 { "STOP"@ }
    else if pos == 19 { "TSTP"@ }
    else if pos == 20 { "TTIN"@ }
    else if pos == 21 { "TTOU"@ }
    else if pos == 22 { "URG"@ }
    else if pos == 23 { "XCPU"@ }
    else if pos == 24 { "XFSZ"@ }
    else if pos == 25 { "VTALRM"@ }
    else if pos == 26 { "PROF"@ }
    else if pos == 27 { "WINCH"@ }
    else if pos == 28 { "POLL"@ }
    else if pos == 29 { "IO"@ }
    else if pos == 30 { "PWR"@ }
    else if pos == 31 { "SYS"@ }
    else { Seq::<char>::empty() }
}

/// The character for a value 0 through 15, as base-16 notation writes it.
pub open spec fn spec_hex_digit(d: int) -> char {
    if d == 0 { '0' }
    else if d == 1 { '1' }
    else if d == 2 { '2' }
    else if d == 3 { '3' }
    else if d == 4 { '4' }
    else if d == 5 { '5' }
    else if d == 6 { '6' }
    else if d == 7 { '7' }
    else if d == 8 { '8' }
    else if d == 9 { '9' }
    else if d == 10 { 'a' }
    else if d == 11 { 'b' }
    else if d == 12 { 'c' }
    else if d == 13 { 'd' }
    else if d == 14 { 'e' }
    else if d == 15 { 'f' }
    else { '?' }
}

/// Decimal notation of a nonnegative value, most significant digit first.
pub open spec fn spec_dec(n: int) -> Seq<char>
    decreases n,
{
    if n < 10 {
        seq![spec_hex_digit(n)]
    } else {
        spec_dec(n / 10).push(spec_hex_digit(n % 10))
    }
}

/// A nonzero offset with an explicit sign, in decimal.
pub open spec fn spec_signed(d: int) -> Seq<char> {
    if d < 0 {
        seq!['-'] + spec_dec(-d)
    } else {
        seq!['+'] + spec_dec(d)
    }
}

/// A real-time signal name: the template alone at offset zero, and the
/// template followed by the explicitly signed offset otherwise.
pub open spec fn spec_rt_name(tmpl: Seq<char>, diff: int) -> Seq<char> {
    if diff == 0 {
        tmpl
    } else {
        tmpl + spec_signed(diff)
    }
}

/// The display name of a signal index: a table entry for 1 through 31,
/// a name relative to the real-time minimum for 32 through 49, one
/// relative to the real-time maximum for 50 through 64, and the
/// sentinel for any other index.
pub open spec fn spec_sig_name(idx: u8) -> Seq<char> {
    if 1 <= idx && idx <= 31 {
        spec_sig_table(idx - 1)
    } else if 32 <= idx && idx <= 49 {
        spec_rt_name("RTMIN"@, idx - SIGRTMIN_IDX)
    } else if 50 <= idx && idx <= 64 {
        spec_rt_name("RTMAX"@, idx - SIGRTMAX_IDX)
    } else {
        "INVL"@
    }
}

/// The fixed table of standard signal names.
pub fn sig_tab_entry(pos: u8) -> (r: &'static str)
    requires
        pos < 32,
    ensures
        r@ == spec_sig_table(pos as int),
{
    match pos {
        0 => "HUP",
        1 => "INT",
        2 => "QUIT",
        3 => "ILL",
        4 => "TRAP",
        5 => "ABRT",
        6 => "BUS",
        7 => "FPE",
        8 => "KILL",
        9 => "USR1",
        10 => "SEGV",
        11 => "USR2",
        12 => "PIPE",
        13 => "ALRM",
        14 => "TERM",
        15 => "STKFLT",
        16 => "CHLD",
        17 => "CONT",
        18 => "STOP",
        19 => "TSTP",
        20 => "TTIN",
        21 => "TTOU",
        22 => "URG",
        23 => "XCPU",
        24 => "XFSZ",
        25 => "VTALRM",
        26 => "PROF",
        27 => "WINCH",
        28 => "POLL",
        29 => "IO",
        30 => "PWR",
        _ => "SYS",
    }
}

/// The single character for a value 0 through 15 in base-16 notation.
pub fn hex_digit_str(d: u8) -> (r: &'static str)
    requires
        d < 16,
    ensures
        r@ == seq![spec_hex_digit(d as int)],
{
    let r: &'static str = match d {
        0 => "0",
        1 => "1",
        2 => "2",
        3 => "3",
        4 => "4",
        5 => "5",
        6 => "6",
        7 => "7",
        8 => "8",
        9 => "9",
        10 => "a",
        11 => "b",
        12 => "c",
        13 => "d",
        14 => "e",
        _ => "f",
    };
    proof {
        reveal_strlit("0");
        reveal_strlit("1");
        reveal_strlit("2");
        reveal_strlit("3");
        reveal_strlit("4");
        reveal_strlit("5");
        reveal_strlit("6");
        reveal_strlit("7");
        reveal_strlit("8");
        reveal_strlit("9");
        reveal_strlit("a");
        reveal_strlit("b");
        reveal_strlit("c");
        reveal_strlit("d");
        reveal_strlit("e");
        reveal_strlit("f");
        assert(r@ =~= seq![spec_hex_digit(d as int)]);
    }
    r
}

/// A nonnegative value written in decimal.
pub fn dec_u64(n: u64) -> (r: String)
    ensures
        r@ == spec_dec(n as int),
    decreases n,
{
    if n < 10 {
        hex_digit_str(n as u8).to_owned()
    } else {
        let mut s: String = dec_u64(n / 10);
        s.append(hex_digit_str((n % 10) as u8));
        proof {
            assert(s@ =~= spec_dec(n as int));
        }
        s
    }
}

/// The name of a signal at a signed offset from a template's own index.
pub fn fmt_range(idx: &u8, off: &u8, tmpl: &str) -> (r: String)
    ensures
        r@ == spec_rt_name(tmpl@, *idx as int - *off as int),
{
    let mut s: String = tmpl.to_owned();
    if *idx == *off {
        return s;
    }
    if *idx > *off {
        s.append("+");
        let d: String = dec_u64((*idx - *off) as u64);
        s.append(d.as_str());
    } else {
        s.append("-");
        let d: String = dec_u64((*off - *idx) as u64);
        s.append(d.as_str());
    }
    proof {
        reveal_strlit("+");
        reveal_strlit("-");
        assert(s@ =~= spec_rt_name(tmpl@, *idx as int - *off as int));
    }
    s
}

/// The display name of the signal at index `idx`.
pub fn sigabbrev_np(idx: &u8) -> (r: String)
    ensures
        r@ == spec_sig_name(*idx),
{
    if *idx >= 1 && *idx <= 31 {
        sig_tab_entry(*idx - 1).to_owned()
    } else if *idx >= 32 && *idx <= 49 {
        fmt_range(idx, &SIGRTMIN_IDX, "RTMIN")
    } else if *idx >= 50 && *idx <= 64 {
        fmt_range(idx, &SIGRTMAX_IDX, "RTMAX")
    } else {
        "INVL".to_owned()
    }
}

/// 10 to the power `k` (1 for `k` at most 0).
pub open spec fn spec_pow10(k: int) -> int
    decreases k,
{
    if k <= 0 {
        1
    } else {
        10 * spec_pow10(k - 1)
    }
}

/// Decimal notation takes at most `k` characters for a value below
/// 10^`k`, and always at least one.
pub proof fn lemma_dec_len(n: int, k: int)
    requires
        0 <= n,
        1 <= k,
        n < spec_pow10(k),
    ensures
        1 <= spec_dec(n).len() <= k,
    decreases k,
{
    if n >= 10 {
        assert(spec_pow10(k) == 10 * spec_pow10(k - 1));
        if k == 1 {
            assert(spec_pow10(1) == 10 * spec_pow10(0));
            assert(spec_pow10(0) == 1);
        } else {
            assert(n / 10 < spec_pow10(k - 1));
            lemma_dec_len(n / 10, k - 1);
        }
    }
}

proof fn lemma_dec_len_min(n: int)
    ensures
        spec_dec(n).len() >= 1,
{
}

proof fn lemma_dec_injective(a: int, b: int)
    requires
        0 <= a,
        0 <= b,
        spec_dec(a) == spec_dec(b),
    ensures
        a == b,
    decreases a,
{
    if a < 10 && b < 10 {
        assert(spec_dec(a)[0] == spec_hex_digit(a));
        assert(spec_dec(b)[0] == spec_hex_digit(b));
    } else if a < 10 {
        lemma_dec_len_min(b / 10);
        assert(spec_dec(b).len() >= 2);
    } else if b < 10 {
        lemma_dec_len_min(a / 10);
        assert(spec_dec(a).len() >= 2);
    } else {
        assert(spec_dec(a).drop_last() =~= spec_dec(a / 10));
        assert(spec_dec(b).drop_last() =~= spec_dec(b / 10));
        assert(spec_dec(a).last() == spec_hex_digit(a % 10));
        assert(spec_dec(b).last() == spec_hex_digit(b % 10));
        assert(a % 10 == b % 10);
        lemma_dec_injective(a / 10, b / 10);
    }
}

proof fn lemma_signed_injective(d1: int, d2: int)
    requires
        d1 != 0,
        d2 != 0,
        d1 != d2,
    ensures
        spec_signed(d1) != spec_signed(d2),
{
    if spec_signed(d1) == spec_signed(d2) {
        assert(spec_signed(d1)[0] == if d1 < 0 { '-' } else { '+' });
        assert(spec_signed(d2)[0] == if d2 < 0 { '-' } else { '+' });
        if d1 < 0 && d2 < 0 {
            assert(spec_signed(d1).skip(1) =~= spec_dec(-d1));
            assert(spec_signed(d2).skip(1) =~= spec_dec(-d2));
            lemma_dec_injective(-d1, -d2);
        } else if d1 > 0 && d2 > 0 {
            assert(spec_signed(d1).skip(1) =~= spec_dec(d1));
            assert(spec_signed(d2).skip(1) =~= spec_dec(d2));
            lemma_dec_injective(d1, d2);
        }
    }
}

proof fn lemma_rt_name_injective(tmpl: Seq<char>, d1: int, d2: int)
    requires
        d1 != d2,
    ensures
        spec_rt_name(tmpl, d1) != spec_rt_name(tmpl, d2),
{
    if spec_rt_name(tmpl, d1) == spec_rt_name(tmpl, d2) {
        if d1 == 0 {
            lemma_dec_len_min(if d2 < 0 { -d2 } else { d2 });
            assert(spec_rt_name(tmpl, d2).len() >= tmpl.len() + 2);
        } else if d2 == 0 {
            lemma_dec_len_min(if d1 < 0 { -d1 } else { d1 });
            assert(spec_rt_name(tmpl, d1).len() >= tmpl.len() + 2);
        } else {
            assert(spec_rt_name(tmpl, d1).skip(tmpl.len() as int) =~= spec_signed(d1));
            assert(spec_rt_name(tmpl, d2).skip(tmpl.len() as int) =~= spec_signed(d2));
            lemma_signed_injective(d1, d2);
        }
    }
}

#[verifier::rlimit(100)]
proof fn lemma_table_distinct(p1: int, p2: int)
    requires
        0 <= p1 < 32,
        0 <= p2 < 32,
        p1 != p2,
    ensures
        spec_sig_table(p1) != spec_sig_table(p2),
{
    reveal_strlit("HUP");
    reveal_strlit("INT");
    reveal_strlit("QUIT");
    reveal_strlit("ILL");
    reveal_strlit("TRAP");
    reveal_strlit("ABRT");
    reveal_strlit("BUS");
    reveal_strlit("FPE");
    reveal_strlit("KILL");
    reveal_strlit("USR1");
    reveal_strlit("SEGV");
    reveal_strlit("USR2");
    reveal_strlit("PIPE");
    reveal_strlit("ALRM");
    reveal_strlit("TERM");
    reveal_strlit("STKFLT");
    reveal_strlit("CHLD");
    reveal_strlit("CONT");
    reveal_strlit("STOP");
    reveal_strlit("TSTP");
    reveal_strlit("TTIN");
    reveal_strlit("TTOU");
    reveal_strlit("URG");
    reveal_strlit("XCPU");
    reveal_strlit("XFSZ");
    reveal_strlit("VTALRM");
    reveal_strlit("PROF");
    reveal_strlit("WINCH");
    reveal_strlit("POLL");
    reveal_strlit("IO");
    reveal_strlit("PWR");
    reveal_strlit("SYS");
    let a = spec_sig_table(p1);
    let b = spec_sig_table(p2);
    if a == b {
        assert(a.len() == b.len());
        assert(a[0] == b[0]);
        assert(a[1] == b[1]);
        assert(a[2] == b[2]);
        assert(a[3] == b[3]);
        assert(p1 == p2);
    }
}

proof fn lemma_table_first_char(p: int)
    requires
        0 <= p < 32,
    ensures
        spec_sig_table(p).len() >= 2,
        spec_sig_table(p)[0] != 'R',
        spec_sig_table(p) != "INVL"@,
{
    reveal_strlit("HUP");
    reveal_strlit("INT");
    reveal_strlit("QUIT");
    reveal_strlit("ILL");
    reveal_strlit("TRAP");
    reveal_strlit("ABRT");
    reveal_strlit("BUS");
    reveal_strlit("FPE");
    reveal_strlit("KILL");
    reveal_strlit("USR1");
    reveal_strlit("SEGV");
    reveal_strlit("USR2");
    reveal_strlit("PIPE");
    reveal_strlit("ALRM");
    reveal_strlit("TERM");
    reveal_strlit("STKFLT");
    reveal_strlit("CHLD");
    reveal_strlit("CONT");
    reveal_strlit("STOP");
    reveal_strlit("TSTP");
    reveal_strlit("TTIN");
    reveal_strlit("TTOU");
    reveal_strlit("URG");
    reveal_strlit("XCPU");
    reveal_strlit("XFSZ");
    reveal_strlit("VTALRM");
    reveal_strlit("PROF");
    reveal_strlit("WINCH");
    reveal_strlit("POLL");
    reveal_strlit("IO");
    reveal_strlit("PWR");
    reveal_strlit("SYS");
    reveal_strlit("INVL");
    let a = spec_sig_table(p);
    if a == "INVL"@ {
        assert(a.len() == "INVL"@.len());
        assert(a[0] == "INVL"@[0]);
    }
}

/// Distinct signal indices in the 64-signal space resolve to distinct
/// names: the resolver is injective on indices 1 through 64.
pub proof fn lemma_sig_name_injective(i1: u8, i2: u8)
    requires
        1 <= i1 <= 64,
        1 <= i2 <= 64,
        i1 != i2,
    ensures
        spec_sig_name(i1) != spec_sig_name(i2),
{
    reveal_strlit("RTMIN");
    reveal_strlit("RTMAX");
    if i1 <= 31 && i2 <= 31 {
        lemma_table_distinct(i1 - 1, i2 - 1);
    } else if i1 <= 31 {
        lemma_table_first_char(i1 - 1);
        assert(spec_sig_name(i2)[0] == 'R');
    } else if i2 <= 31 {
        lemma_table_first_char(i2 - 1);
        assert(spec_sig_name(i1)[0] == 'R');
    } else if i1 <= 49 && i2 <= 49 {
        lemma_rt_name_injective("RTMIN"@, i1 - SIGRTMIN_IDX, i2 - SIGRTMIN_IDX);
    } else if i1 > 49 && i2 > 49 {
        lemma_rt_name_injective("RTMAX"@, i1 - SIGRTMAX_IDX, i2 - SIGRTMAX_IDX);
    } else {
        assert(spec_sig_name(i1)[3] == if i1 <= 49 { 'I' } else { 'A' });
        assert(spec_sig_name(i2)[3] == if i2 <= 49 { 'I' } else { 'A' });
    }
}

/// For every index 1 through 31, the resolver's name is the fixed table
/// entry at position `idx - 1`.
pub proof fn lemma_posix_names_from_table()
    ensures
        forall|idx: u8| 1 <= idx <= 31 ==> spec_sig_name(idx) == spec_sig_table(idx - 1),
{
}

/// The resolver is pure: any two names resolved for the same index are
/// the same string.
pub proof fn lemma_resolver_pure(idx: u8, a: Seq<char>, b: Seq<char>)
    requires
        a == spec_sig_name(idx),
        b == spec_sig_name(idx),
    ensures
        a == b,
{
}

} // verus!
