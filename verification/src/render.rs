//! Rendering an interpreted bitmap as a fixed-width text block.
//!
//! One logical line carries the process id, the bitmap kind's label,
//! the name count, the raw value in base-16, and the comma-joined name
//! list (or a sentinel where the list is empty). The line is then
//! word-wrapped to the maximum column width, with every continuation
//! line indented so wrapped names align under the name-list column.
use vstd::prelude::*;
use vstd::string::StringExecFns;
use vstd::string::StrSliceExecFns;
use vstd::utf8::is_ascii_chars;

use crate::BitmapType;
use crate::bitmap::NR_SIGS;
use crate::bitmap::interpret;
use crate::bitmap::spec_sig_list;
use crate::signals::spec_dec;
use crate::signals::spec_hex_digit;
use crate::signals::spec_pow10;
use crate::signals::dec_u64;
use crate::signals::hex_digit_str;
use crate::signals::lemma_dec_len;

verus! {

/// Maximum display column width.
pub const MAX_WIDTH: usize = 80;

/// Indent of continuation lines, so wrapped signal names align under
/// the name-list column.
pub const SUB_WIDTH: usize = 45;

/// `n` spaces.
pub open spec fn spec_spaces(n: int) -> Seq<char>
    decreases n,
{
    if n <= 0 {
        Seq::<char>::empty()
    } else {
        spec_spaces(n - 1).push(' ')
    }
}

/// `s` padded on the right with spaces to width `w`.
pub open spec fn spec_pad(s: Seq<char>, w: int) -> Seq<char> {
    s + spec_spaces(w - s.len())
}

/// The names joined with a comma and a space.
pub open spec fn spec_join(names: Seq<Seq<char>>) -> Seq<char>
    decreases names.len(),
{
    if names.len() == 0 {
        Seq::<char>::empty()
    } else if names.len() == 1 {
        names[0]
    } else {
        names[0] + ", "@ + spec_join(names.drop_first())
    }
}

/// The joined name list, or the sentinel where the list is empty.
pub open spec fn spec_list_text(names: Seq<Seq<char>>) -> Seq<char> {
    if names.len() == 0 {
        "NONE"@
    } else {
        spec_join(names)
    }
}

/// Base-16 notation of `m`, exactly `digits` characters, zero-padded.
pub open spec fn spec_hex(m: int, digits: int) -> Seq<char>
    decreases digits,
{
    if digits <= 0 {
        Seq::<char>::empty()
    } else {
        spec_hex(m / 16, digits - 1).push(spec_hex_digit(m % 16))
    }
}

/// The one logical output line for a process id, a bitmap kind, the
/// bitmap value, and the interpreted name list.
pub open spec fn spec_line(pid: u32, typ: BitmapType, m: u64, names: Seq<Seq<char>>) -> Seq<char> {
    "PID: "@ + spec_pad(spec_dec(pid as int), 6) + seq![' '] + typ.spec_label() + seq![' ']
        + spec_pad(spec_dec(names.len() as int), 2) + " [0x"@ + spec_hex(m as int, 16) + "]: "@
        + spec_list_text(names)
}

/// What `textwrap::fill` returns for a text at a width with a
/// continuation indent, words never split.
pub uninterp spec fn wrap_of(text: Seq<char>, width: int, indent: Seq<char>) -> Seq<char>;

/// Relies on textwrap::fill: the wrapped block is a function of the
/// text, the width and the indent alone; and, per fill's own fast
/// path, a single ASCII line that is shorter than the width, holds no
/// newline and does not end in a space comes back unchanged.
#[verifier::external_body]
fn fill_wrapped(text: &str, width: usize, indent: &str) -> (r: String)
    ensures
        r@ == wrap_of(text@, width as int, indent@),
        (is_ascii_chars(text@) && text@.len() < width && !text@.contains('\n') && (text@.len()
            == 0 || text@.last() != ' ')) ==> r@ == text@,
{
    let opts = textwrap::Options::new(width)
        .subsequent_indent(indent)
        .word_splitter(textwrap::WordSplitter::NoHyphenation)
        .break_words(false);
    textwrap::fill(text, opts)
}

/// Returns `n` spaces.
pub fn spaces(n: usize) -> (r: String)
    ensures
        r@ == spec_spaces(n as int),
{
    let mut s: String = String::new();
    let mut i: usize = 0;
    while i < n
        invariant
            i <= n,
            s@ == spec_spaces(i as int),
        decreases n - i,
    {
        s.append(" ");
        i += 1;
        proof {
            reveal_strlit(" ");
            assert(s@ =~= spec_spaces(i as int));
        }
    }
    s
}

/// Returns `s` padded on the right with spaces to width `w`.
pub fn pad_right(s: String, w: usize) -> (r: String)
    ensures
        r@ == spec_pad(s@, w as int),
{
    let len: usize = s.as_str().unicode_len();
    if len >= w {
        proof {
            assert(s@ + spec_spaces(w - s@.len()) =~= s@);
        }
        s
    } else {
        let mut s2: String = s;
        let pad: String = spaces(w - len);
        s2.append(pad.as_str());
        s2
    }
}

/// Returns `m` written in base-16, exactly `digits` characters.
pub fn hex_u64(m: u64, digits: u8) -> (r: String)
    ensures
        r@ == spec_hex(m as int, digits as int),
    decreases digits,
{
    if digits == 0 {
        String::new()
    } else {
        let mut s: String = hex_u64(m / 16, digits - 1);
        s.append(hex_digit_str((m % 16) as u8));
        proof {
            assert(s@ =~= spec_hex(m as int, digits as int));
        }
        s
    }
}

proof fn lemma_join_push(names: Seq<Seq<char>>, x: Seq<char>)
    requires
        names.len() >= 1,
    ensures
        spec_join(names.push(x)) == spec_join(names) + ", "@ + x,
    decreases names.len(),
{
    if names.len() == 1 {
        assert(names.push(x).drop_first() =~= seq![x]);
        assert(spec_join(seq![x]) == x);
        assert(spec_join(names.push(x)) =~= spec_join(names) + ", "@ + x);
    } else {
        lemma_join_push(names.drop_first(), x);
        assert(names.push(x).drop_first() =~= names.drop_first().push(x));
        assert(spec_join(names.push(x)) =~= spec_join(names) + ", "@ + x);
    }
}

/// Returns the names joined with a comma and a space.
pub fn join_names(names: &Vec<String>) -> (r: String)
    ensures
        r@ == spec_join(names.deep_view()),
{
    if names.len() == 0 {
        return String::new();
    }
    let mut s: String = names[0].clone();
    let mut i: usize = 1;
    proof {
        assert(names.deep_view().take(1) =~= seq![names.deep_view()[0]]);
        assert(s@ == spec_join(names.deep_view().take(1)));
    }
    while i < names.len()
        invariant
            1 <= i <= names@.len(),
            s@ == spec_join(names.deep_view().take(i as int)),
        decreases names@.len() - i,
    {
        s.append(", ");
        s.append(names[i].as_str());
        proof {
            reveal_strlit(", ");
            lemma_join_push(names.deep_view().take(i as int), names.deep_view()[i as int]);
            assert(names.deep_view().take(i as int).push(names.deep_view()[i as int])
                =~= names.deep_view().take(i as int + 1));
            assert(s@ =~= spec_join(names.deep_view().take(i as int + 1)));
        }
        i += 1;
    }
    proof {
        assert(names.deep_view().take(names@.len() as int) =~= names.deep_view());
    }
    s
}

/// Composes the one logical output line, before wrapping.
pub fn compose_line(pid: u32, typ: &BitmapType, bit_map: u64, names: &Vec<String>) -> (r: String)
    ensures
        r@ == spec_line(pid, *typ, bit_map, names.deep_view()),
{
    let mut s: String = "PID: ".to_owned();
    let pid_txt: String = pad_right(dec_u64(pid as u64), 6);
    s.append(pid_txt.as_str());
    s.append(" ");
    s.append(typ.label());
    s.append(" ");
    let cnt_txt: String = pad_right(dec_u64(names.len() as u64), 2);
    s.append(cnt_txt.as_str());
    s.append(" [0x");
    let hex_txt: String = hex_u64(bit_map, 16);
    s.append(hex_txt.as_str());
    s.append("]: ");
    if names.len() == 0 {
        s.append("NONE");
    } else {
        let joined: String = join_names(names);
        s.append(joined.as_str());
    }
    proof {
        reveal_strlit(" ");
        assert(s@ =~= spec_line(pid, *typ, bit_map, names.deep_view()));
    }
    s
}

/// Renders the formatted text block for the specified process id,
/// bitmap kind and bitmap value: the logical line, word-wrapped to the
/// maximum column width with the continuation indent.
pub fn render(pid: u32, typ: &BitmapType, bit_map: u64) -> (r: String)
    ensures
        r@ == wrap_of(
            spec_line(pid, *typ, bit_map, spec_sig_list(bit_map, NR_SIGS as int)),
            MAX_WIDTH as int,
            spec_spaces(SUB_WIDTH as int),
        ),
        ({
            let line = spec_line(pid, *typ, bit_map, spec_sig_list(bit_map, NR_SIGS as int));
            (is_ascii_chars(line) && line.len() < MAX_WIDTH && !line.contains('\n') && (line.len()
                == 0 || line.last() != ' ')) ==> r@ == line
        }),
{
    let names: Vec<String> = interpret(&bit_map);
    let line: String = compose_line(pid, typ, bit_map, &names);
    let ind: String = spaces(SUB_WIDTH);
    fill_wrapped(line.as_str(), MAX_WIDTH, ind.as_str())
}

/// Whether every character of `s` is printable ASCII (space through
/// tilde). Such text is ASCII and holds no newline, so a short line of
/// it passes through the wrapper unchanged.
pub open spec fn spec_printable(s: Seq<char>) -> bool {
    forall|i: int| 0 <= i < s.len() ==> ' ' <= #[trigger] s[i] <= '~'
}

proof fn lemma_printable_concat(a: Seq<char>, b: Seq<char>)
    requires
        spec_printable(a),
        spec_printable(b),
    ensures
        spec_printable(a + b),
{
    assert forall|i: int| 0 <= i < (a + b).len() implies ' ' <= #[trigger] (a + b)[i] <= '~' by {
        if i < a.len() {
            assert((a + b)[i] == a[i]);
        } else {
            assert((a + b)[i] == b[i - a.len()]);
        }
    }
}

proof fn lemma_printable_push(s: Seq<char>, c: char)
    requires
        spec_printable(s),
        ' ' <= c <= '~',
    ensures
        spec_printable(s.push(c)),
{
    assert forall|i: int| 0 <= i < s.push(c).len() implies ' ' <= #[trigger] s.push(c)[i]
        <= '~' by {
        if i < s.len() {
            assert(s.push(c)[i] == s[i]);
        } else {
            assert(s.push(c)[i] == c);
        }
    }
}

proof fn lemma_printable_ascii(s: Seq<char>)
    requires
        spec_printable(s),
    ensures
        is_ascii_chars(s),
        !s.contains('\n'),
{
    assert forall|i: int| 0 <= i < s.len() implies '\0' <= #[trigger] s[i] <= '\u{7f}' by {
        assert(' ' <= s[i] <= '~');
    }
    if s.contains('\n') {
        let i = choose|i: int| 0 <= i < s.len() && s[i] == '\n';
        assert(' ' <= s[i]);
    }
}

proof fn lemma_dec_printable(n: int)
    ensures
        spec_printable(spec_dec(n)),
    decreases n,
{
    if n < 10 {
        assert(spec_dec(n) =~= Seq::<char>::empty().push(spec_hex_digit(n)));
        lemma_printable_push(Seq::<char>::empty(), spec_hex_digit(n));
    } else {
        lemma_dec_printable(n / 10);
        lemma_printable_push(spec_dec(n / 10), spec_hex_digit(n % 10));
    }
}

proof fn lemma_hex_printable(m: int, digits: int)
    ensures
        spec_printable(spec_hex(m, digits)),
        spec_hex(m, digits).len() == if digits <= 0 { 0int } else { digits },
    decreases digits,
{
    if digits > 0 {
        lemma_hex_printable(m / 16, digits - 1);
        lemma_printable_push(spec_hex(m / 16, digits - 1), spec_hex_digit(m % 16));
    }
}

proof fn lemma_spaces_printable(n: int)
    ensures
        spec_printable(spec_spaces(n)),
        spec_spaces(n).len() == if n <= 0 { 0int } else { n },
    decreases n,
{
    if n > 0 {
        lemma_spaces_printable(n - 1);
        lemma_printable_push(spec_spaces(n - 1), ' ');
    }
}

proof fn lemma_label_printable(typ: BitmapType)
    ensures
        spec_printable(typ.spec_label()),
        typ.spec_label().len() == 7,
{
    reveal_strlit("SigPnd:");
    reveal_strlit("ShdPnd:");
    reveal_strlit("SigBlk:");
    reveal_strlit("SigIgn:");
    reveal_strlit("SigCgt:");
}

/// With bitmap 0 no signal is present, so the rendered block is the
/// logical line itself, unwrapped: one printable line, shorter than
/// the column width, that shows count 0 and ends in the sentinel
/// "NONE".
pub proof fn lemma_zero_bitmap_rendered(pid: u32, typ: BitmapType)
    ensures
        spec_sig_list(0, NR_SIGS as int) == Seq::<Seq<char>>::empty(),
        ({
            let line = spec_line(pid, typ, 0, spec_sig_list(0, NR_SIGS as int));
            &&& is_ascii_chars(line)
            &&& 0 < line.len() < MAX_WIDTH as int
            &&& !line.contains('\n')
            &&& line.last() == 'E'
            &&& line.skip(line.len() - 4) == "NONE"@
            &&& spec_pad(spec_dec(0), 2) == "0 "@
        }),
{
    crate::bitmap::lemma_zero_bitmap_no_signals(NR_SIGS as int);
    reveal_strlit("PID: ");
    reveal_strlit(" [0x");
    reveal_strlit("]: ");
    reveal_strlit("NONE");
    reveal_strlit("0 ");

    assert(spec_pow10(0) == 1);
    assert(spec_pow10(1) == 10);
    assert(spec_pow10(2) == 100);
    assert(spec_pow10(3) == 1000);
    assert(spec_pow10(4) == 10000);
    assert(spec_pow10(5) == 100000);
    assert(spec_pow10(6) == 1000000);
    assert(spec_pow10(7) == 10000000);
    assert(spec_pow10(8) == 100000000);
    assert(spec_pow10(9) == 1000000000);
    assert(spec_pow10(10) == 10000000000);
    lemma_dec_len(pid as int, 10);
    lemma_dec_printable(pid as int);
    lemma_spaces_printable(6 - spec_dec(pid as int).len());
    lemma_dec_printable(0);
    lemma_spaces_printable(2 - spec_dec(0).len());
    lemma_hex_printable(0, 16);
    lemma_label_printable(typ);

    let pid_txt = spec_pad(spec_dec(pid as int), 6);
    lemma_printable_concat(spec_dec(pid as int), spec_spaces(6 - spec_dec(pid as int).len()));
    assert(6 <= pid_txt.len() <= 10);

    let cnt_txt = spec_pad(spec_dec(0), 2);
    lemma_printable_concat(spec_dec(0), spec_spaces(2 - spec_dec(0).len()));
    assert(spec_dec(0) =~= Seq::<char>::empty().push(spec_hex_digit(0)));
    assert(cnt_txt =~= "0 "@);

    let p1 = "PID: "@ + pid_txt;
    assert(spec_printable("PID: "@));
    lemma_printable_concat("PID: "@, pid_txt);
    let p2 = p1 + seq![' '];
    lemma_printable_push(p1, ' ');
    assert(p2 =~= p1.push(' '));
    let p3 = p2 + typ.spec_label();
    lemma_printable_concat(p2, typ.spec_label());
    let p4 = p3 + seq![' '];
    lemma_printable_push(p3, ' ');
    assert(p4 =~= p3.push(' '));
    let p5 = p4 + cnt_txt;
    lemma_printable_concat(p4, cnt_txt);
    let p6 = p5 + " [0x"@;
    assert(spec_printable(" [0x"@));
    lemma_printable_concat(p5, " [0x"@);
    let p7 = p6 + spec_hex(0, 16);
    lemma_printable_concat(p6, spec_hex(0, 16));
    let p8 = p7 + "]: "@;
    assert(spec_printable("]: "@));
    lemma_printable_concat(p7, "]: "@);
    let line = p8 + "NONE"@;
    assert(spec_printable("NONE"@));
    lemma_printable_concat(p8, "NONE"@);

    assert(line == spec_line(pid, typ, 0, Seq::<Seq<char>>::empty()));
    assert(line.len() == p8.len() + 4);
    assert(p8.len() <= 5 + 10 + 1 + 7 + 1 + 2 + 4 + 16 + 3);
    lemma_printable_ascii(line);
    assert(line.last() == 'E');
    assert(line.skip(line.len() - 4) =~= "NONE"@);
}

} // verus!
