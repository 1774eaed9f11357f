//! Extracting a signal bitmap from the lines of a process status text.
//!
//! The data line is the first line that begins with the requested
//! bitmap kind's label; the value is the remainder of that line,
//! trimmed of surrounding whitespace and read as base-16. A line that
//! matches the label but does not parse is skipped and the scan goes
//! on; when no line yields a value, the bitmap is 0.
use vstd::prelude::*;
use vstd::string::StrSliceExecFns;
use vstd::string::StringExecFns;

use crate::BitmapType;

verus! {

/// Whether `s` begins with `p`.
pub open spec fn spec_starts_with(s: Seq<char>, p: Seq<char>) -> bool {
    s.len() >= p.len() && s.subrange(0, p.len() as int) == p
}

/// The whitespace characters trimmed around a value.
pub open spec fn spec_is_space(c: char) -> bool {
    c == ' ' || c == '\t' || c == '\n' || c == '\r'
}

/// `s` without its leading whitespace.
pub open spec fn spec_trim_start(s: Seq<char>) -> Seq<char>
    decreases s.len(),
{
    if s.len() > 0 && spec_is_space(s.first()) {
        spec_trim_start(s.drop_first())
    } else {
        s
    }
}

/// `s` without its trailing whitespace.
pub open spec fn spec_trim_end(s: Seq<char>) -> Seq<char>
    decreases s.len(),
{
    if s.len() > 0 && spec_is_space(s.last()) {
        spec_trim_end(s.drop_last())
    } else {
        s
    }
}

/// `s` without its surrounding whitespace.
pub open spec fn spec_trim(s: Seq<char>) -> Seq<char> {
    spec_trim_end(spec_trim_start(s))
}

/// The value of one character as a base-16 digit, in either case,
/// or -1 where the character is no such digit (48 is '0', 97 is 'a',
/// 65 is 'A').
pub open spec fn spec_hex_val(c: char) -> int {
    let v = c as int;
    if 48 <= v && v <= 57 {
        v - 48
    } else if 97 <= v && v <= 102 {
        v - 87
    } else if 65 <= v && v <= 70 {
        v - 55
    } else {
        -1
    }
}

/// Whether the character is a base-16 digit.
pub open spec fn spec_is_hex(c: char) -> bool {
    spec_hex_val(c) >= 0
}

/// Whether every character of `s` is a base-16 digit.
pub open spec fn spec_all_hex(s: Seq<char>) -> bool {
    forall|i: int| 0 <= i < s.len() ==> spec_is_hex(#[trigger] s[i])
}

/// The value of `s` read as base-16, most significant digit first.
pub open spec fn spec_hex_value(s: Seq<char>) -> int
    decreases s.len(),
{
    if s.len() == 0 {
        0
    } else {
        spec_hex_value(s.drop_last()) * 16 + spec_hex_val(s.last())
    }
}

/// Whether `s` is a well-formed base-16 numeral whose value fits in
/// 64 bits: nonempty, all digits, value below 2^64.
pub open spec fn spec_hex_ok(s: Seq<char>) -> bool {
    s.len() > 0 && spec_all_hex(s) && spec_hex_value(s) < 0x1_0000_0000_0000_0000
}

proof fn lemma_hex_value_nonneg(s: Seq<char>)
    requires
        spec_all_hex(s),
    ensures
        spec_hex_value(s) >= 0,
    decreases s.len(),
{
    if s.len() > 0 {
        assert forall|i: int| 0 <= i < s.drop_last().len() implies spec_is_hex(
            #[trigger] s.drop_last()[i],
        ) by {
            assert(s.drop_last()[i] == s[i]);
        }
        lemma_hex_value_nonneg(s.drop_last());
        assert(spec_is_hex(s[s.len() - 1]));
    }
}

proof fn lemma_hex_value_prefix(s: Seq<char>, j: int)
    requires
        spec_all_hex(s),
        0 <= j <= s.len(),
    ensures
        spec_hex_value(s) >= spec_hex_value(s.take(j)),
    decreases s.len() - j,
{
    if j < s.len() {
        assert forall|i: int| 0 <= i < s.take(j).len() implies spec_is_hex(
            #[trigger] s.take(j)[i],
        ) by {
            assert(s.take(j)[i] == s[i]);
        }
        lemma_hex_value_nonneg(s.take(j));
        assert(s.take(j + 1).drop_last() =~= s.take(j));
        assert(s.take(j + 1).last() == s[j]);
        assert(spec_is_hex(s[j]));
        assert(spec_hex_value(s.take(j + 1)) >= spec_hex_value(s.take(j)));
        lemma_hex_value_prefix(s, j + 1);
    } else {
        assert(s.take(j) =~= s);
    }
}

/// Whether `s` begins with `p`.
pub fn starts_with_str(s: &str, p: &str) -> (r: bool)
    ensures
        r == spec_starts_with(s@, p@),
{
    let n: usize = s.unicode_len();
    let m: usize = p.unicode_len();
    if n < m {
        return false;
    }
    let mut i: usize = 0;
    while i < m
        invariant
            i <= m,
            m <= n,
            n == s@.len(),
            m == p@.len(),
            forall|k: int| 0 <= k < i ==> s@[k] == p@[k],
        decreases m - i,
    {
        if s.get_char(i) != p.get_char(i) {
            proof {
                assert(s@.subrange(0, p@.len() as int)[i as int] == s@[i as int]);
            }
            return false;
        }
        i += 1;
    }
    proof {
        assert(s@.subrange(0, p@.len() as int) =~= p@);
    }
    true
}

fn is_space_char(c: char) -> (r: bool)
    ensures
        r == spec_is_space(c),
{
    c == ' ' || c == '\t' || c == '\n' || c == '\r'
}

/// `s` without its surrounding whitespace.
pub fn trim_str(s: &str) -> (r: String)
    ensures
        r@ == spec_trim(s@),
{
    let n: usize = s.unicode_len();
    let mut a: usize = 0;
    proof {
        assert(s@.subrange(0, n as int) =~= s@);
    }
    while a < n && is_space_char(s.get_char(a))
        invariant
            a <= n,
            n == s@.len(),
            spec_trim_start(s@) == spec_trim_start(s@.subrange(a as int, n as int)),
        decreases n - a,
    {
        proof {
            let cur = s@.subrange(a as int, n as int);
            assert(cur.first() == s@[a as int]);
            assert(cur.drop_first() =~= s@.subrange(a as int + 1, n as int));
        }
        a += 1;
    }
    proof {
        let cur = s@.subrange(a as int, n as int);
        if a < n {
            assert(cur.first() == s@[a as int]);
        }
        assert(spec_trim_start(s@) == cur);
    }
    let mut b: usize = n;
    while b > a && is_space_char(s.get_char(b - 1))
        invariant
            a <= b <= n,
            n == s@.len(),
            spec_trim_end(s@.subrange(a as int, n as int)) == spec_trim_end(
                s@.subrange(a as int, b as int),
            ),
        decreases b,
    {
        proof {
            let cur = s@.subrange(a as int, b as int);
            assert(cur.last() == s@[b as int - 1]);
            assert(cur.drop_last() =~= s@.subrange(a as int, b as int - 1));
        }
        b -= 1;
    }
    proof {
        let cur = s@.subrange(a as int, b as int);
        if b > a {
            assert(cur.last() == s@[b as int - 1]);
        }
        assert(spec_trim_end(s@.subrange(a as int, n as int)) == cur);
    }
    s.substring_char(a, b).to_owned()
}

fn hex_char_val(c: char) -> (r: Option<u8>)
    ensures
        match r {
            Some(d) => spec_hex_val(c) == d as int && d < 16,
            None => spec_hex_val(c) == -1,
        },
{
    let v: u32 = c as u32;
    if v >= 48 && v <= 57 {
        Some((v - 48) as u8)
    } else if v >= 97 && v <= 102 {
        Some((v - 87) as u8)
    } else if v >= 65 && v <= 70 {
        Some((v - 55) as u8)
    } else {
        None
    }
}

/// Reads `s` as a base-16 numeral. Returns the value exactly when `s`
/// is nonempty, wholly made of base-16 digits, and below 2^64.
pub fn parse_hex_u64(s: &str) -> (r: Option<u64>)
    ensures
        match r {
            Some(v) => spec_hex_ok(s@) && v as int == spec_hex_value(s@),
            None => !spec_hex_ok(s@),
        },
{
    let n: usize = s.unicode_len();
    if n == 0 {
        return None;
    }
    let mut acc: u64 = 0;
    let mut i: usize = 0;
    while i < n
        invariant
            i <= n,
            n == s@.len(),
            n > 0,
            spec_all_hex(s@.take(i as int)),
            acc as int == spec_hex_value(s@.take(i as int)),
        decreases n - i,
    {
        let c: char = s.get_char(i);
        let d: u8 = match hex_char_val(c) {
            Some(d) => d,
            None => {
                proof {
                    assert(!spec_is_hex(s@[i as int]));
                }
                return None;
            },
        };
        if acc >= 0x1000_0000_0000_0000 {
            proof {
                if spec_all_hex(s@) {
                    assert(s@.take(i as int + 1).drop_last() =~= s@.take(i as int));
                    assert(s@.take(i as int + 1).last() == s@[i as int]);
                    assert(spec_hex_value(s@.take(i as int + 1)) == acc * 16 + spec_hex_val(
                        s@[i as int],
                    ));
                    lemma_hex_value_prefix(s@, i as int + 1);
                    assert(spec_hex_value(s@) >= 0x1_0000_0000_0000_0000);
                }
            }
            return None;
        }
        acc = acc * 16 + (d as u64);
        proof {
            assert(s@.take(i as int + 1).drop_last() =~= s@.take(i as int));
            assert(s@.take(i as int + 1).last() == s@[i as int]);
            assert forall|k: int| 0 <= k < i as int + 1 implies spec_is_hex(
                #[trigger] s@.take(i as int + 1)[k],
            ) by {
                if k < i as int {
                    assert(s@.take(i as int + 1)[k] == s@.take(i as int)[k]);
                } else {
                    assert(s@.take(i as int + 1)[k] == s@[i as int]);
                }
            }
        }
        i += 1;
    }
    proof {
        assert(s@.take(i as int) =~= s@);
    }
    Some(acc)
}

/// The value of one status line for a given label: the line's
/// remainder after the label, trimmed and read as base-16, where the
/// line begins with the label and the remainder is well formed.
pub open spec fn spec_line_value(line: Seq<char>, label: Seq<char>) -> Option<u64> {
    if spec_starts_with(line, label) {
        let rest = spec_trim(line.skip(label.len() as int));
        if spec_hex_ok(rest) {
            Some(spec_hex_value(rest) as u64)
        } else {
            None
        }
    } else {
        None
    }
}

/// The bitmap that a sequence of status lines yields for a given
/// label: the value of the first line that yields one, and 0 where
/// none does.
pub open spec fn spec_scan(lines: Seq<Seq<char>>, label: Seq<char>) -> u64
    decreases lines.len(),
{
    if lines.len() == 0 {
        0
    } else {
        match spec_line_value(lines.first(), label) {
            Some(v) => v,
            None => spec_scan(lines.drop_first(), label),
        }
    }
}

/// Extracts the bitmap of the requested kind from the lines of a
/// process status text.
pub fn bitmap_from_lines(lines: &Vec<String>, typ: &BitmapType) -> (r: u64)
    ensures
        r == spec_scan(lines.deep_view(), typ.spec_label()),
{
    let lab: &str = typ.label();
    let lab_len: usize = lab.unicode_len();
    let n: usize = lines.len();
    let mut i: usize = 0;
    proof {
        assert(lines.deep_view().skip(0) =~= lines.deep_view());
    }
    while i < n
        invariant
            i <= n,
            n == lines@.len(),
            lab@ == typ.spec_label(),
            lab_len == lab@.len(),
            spec_scan(lines.deep_view(), typ.spec_label()) == spec_scan(
                lines.deep_view().skip(i as int),
                typ.spec_label(),
            ),
        decreases n - i,
    {
        let line: &String = &lines[i];
        let ghost rest_lines = lines.deep_view().skip(i as int);
        proof {
            assert(rest_lines.first() == line@);
            assert(rest_lines.drop_first() =~= lines.deep_view().skip(i as int + 1));
        }
        if starts_with_str(line.as_str(), lab) {
            let line_len: usize = line.as_str().unicode_len();
            let rest: &str = line.as_str().substring_char(lab_len, line_len);
            proof {
                assert(rest@ =~= line@.skip(lab_len as int));
            }
            let trimmed: String = trim_str(rest);
            match parse_hex_u64(trimmed.as_str()) {
                Some(v) => {
                    proof {
                        lemma_hex_value_nonneg(trimmed@);
                        assert(spec_line_value(line@, typ.spec_label()) == Some(v));
                    }
                    return v;
                },
                None => {
                    proof {
                        assert(spec_line_value(line@, typ.spec_label()) is None);
                    }
                },
            }
        } else {
            proof {
                assert(spec_line_value(line@, typ.spec_label()) is None);
            }
        }
        i += 1;
    }
    proof {
        assert(lines.deep_view().skip(i as int) =~= Seq::<Seq<char>>::empty());
    }
    0
}

} // verus!
