use vstd::prelude::*;

verus! {

/// Whether `c` has the Unicode `White_Space` property, as `str::trim` takes it.
pub open spec fn is_white_space(c: char) -> bool {
    let u = c as u32;
    ||| 0x9 <= u <= 0xd
    ||| u == 0x20
    ||| u == 0x85
    ||| u == 0xa0
    ||| u == 0x1680
    ||| 0x2000 <= u <= 0x200a
    ||| u == 0x2028
    ||| u == 0x2029
    ||| u == 0x202f
    ||| u == 0x205f
    ||| u == 0x3000
}

/// `s` without its leading and trailing white space.
pub open spec fn trimmed(s: Seq<char>) -> Seq<char>
    decreases s.len(),
{
    if s.len() > 0 && is_white_space(s[0]) {
        trimmed(s.drop_first())
    } else if s.len() > 0 && is_white_space(s.last()) {
        trimmed(s.drop_last())
    } else {
        s
    }
}

/// Whether every character of `s` is an ASCII digit.
pub open spec fn all_digits(s: Seq<char>) -> bool {
    forall|i: int| 0 <= i < s.len() ==> '0' <= #[trigger] s[i] <= '9'
}

/// The value of the decimal digits `s`.
pub open spec fn digits_value(s: Seq<char>) -> int
    decreases s.len(),
{
    if s.len() == 0 {
        0
    } else {
        10 * digits_value(s.drop_last()) + (s.last() as int - '0' as int)
    }
}

/// What `str::parse` gives for an integer type with values `lo..=hi`: an optional sign (`-`
/// only for a signed type) followed by at least one decimal digit, and nothing else; `None`
/// for any other text and for a value out of range.
pub open spec fn parsed_int(s: Seq<char>, lo: int, hi: int) -> Option<int> {
    let signed = lo < 0;
    let neg = s.len() > 0 && s[0] == '-' && signed;
    let body = if s.len() > 0 && (s[0] == '+' || neg) {
        s.drop_first()
    } else {
        s
    };
    if body.len() == 0 || !all_digits(body) {
        None
    } else {
        let v = if neg {
            -digits_value(body)
        } else {
            digits_value(body)
        };
        if lo <= v <= hi {
            Some(v)
        } else {
            None
        }
    }
}

/// `s` without leading and trailing white space (`str::trim`).
#[verifier::external_body]
pub(crate) fn trim(s: &str) -> (res: &str)
    ensures
        res@ == trimmed(s@),
{
    s.trim()
}

/// `s` parsed as a `usize` (`str::parse::<usize>`).
#[verifier::external_body]
pub(crate) fn parse_usize(s: &str) -> (res: Option<usize>)
    ensures
        res == match parsed_int(s@, 0, usize::MAX as int) {
            Some(v) => Some(v as usize),
            None => None::<usize>,
        },
{
    s.parse::<usize>().ok()
}

/// `s` parsed as an `i32` (`str::parse::<i32>`).
#[verifier::external_body]
pub(crate) fn parse_i32(s: &str) -> (res: Option<i32>)
    ensures
        res == match parsed_int(s@, i32::MIN as int, i32::MAX as int) {
            Some(v) => Some(v as i32),
            None => None::<i32>,
        },
{
    s.parse::<i32>().ok()
}

/// `s` parsed as an `i64` (`str::parse::<i64>`).
#[verifier::external_body]
pub(crate) fn parse_i64(s: &str) -> (res: Option<i64>)
    ensures
        res == match parsed_int(s@, i64::MIN as int, i64::MAX as int) {
            Some(v) => Some(v as i64),
            None => None::<i64>,
        },
{
    s.parse::<i64>().ok()
}

/// The lower-case hex digit for `n < 16`.
pub open spec fn hex_char(n: u8) -> char {
    if n < 10 {
        (48 + n) as char
    } else {
        (87 + n) as char
    }
}

/// Appends one character (`String::push`).
#[verifier::external_body]
pub(crate) fn push_char(s: &mut String, c: char)
    ensures
        final(s)@ == old(s)@.push(c),
{
    s.push(c);
}

/// The lower-case hex digit for `n < 16`.
pub(crate) fn hex_digit(n: u8) -> (c: char)
    requires
        n < 16,
    ensures
        c == hex_char(n),
{
    if n < 10 {
        (48 + n) as char
    } else {
        (87 + n) as char
    }
}

/// The lower-case hex digits of `v`, most significant first, without leading zeros (`"0"`
/// for zero), as `{:x}` writes them.
pub open spec fn hex_text_of(v: nat) -> Seq<char>
    decreases v,
{
    if v < 16 {
        seq![hex_char(v as u8)]
    } else {
        hex_text_of(v / 16).push(hex_char((v % 16) as u8))
    }
}

/// The decimal digits of `v`, most significant first, without leading zeros (`"0"` for
/// zero), as `{}` writes them.
pub open spec fn decimal_text_of(v: nat) -> Seq<char>
    decreases v,
{
    if v < 10 {
        seq![(48 + v) as char]
    } else {
        decimal_text_of(v / 10).push((48 + v % 10) as char)
    }
}

/// The value of a lower-case hex digit.
pub open spec fn hex_digit_value(c: char) -> int {
    if '0' <= c <= '9' {
        c as int - '0' as int
    } else {
        c as int - 'a' as int + 10
    }
}

/// The value of the lower-case hex digits `s`, most significant first.
pub open spec fn hex_value(s: Seq<char>) -> int
    decreases s.len(),
{
    if s.len() == 0 {
        0
    } else {
        16 * hex_value(s.drop_last()) + hex_digit_value(s.last())
    }
}

/// The hex text of `v` reads back as `v`: it is made of lower-case hex digits whose value is
/// `v`, and it starts with `0` only for zero.
pub proof fn law_hex_text_reads_back(v: nat)
    ensures
        hex_text_of(v).len() > 0,
        forall|i: int|
            0 <= i < hex_text_of(v).len() ==> ('0' <= #[trigger] hex_text_of(v)[i] <= '9' || 'a'
                <= hex_text_of(v)[i] <= 'f'),
        hex_value(hex_text_of(v)) == v,
        hex_text_of(v)[0] == '0' ==> v == 0,
    decreases v,
{
    let t = hex_text_of(v);
    if v < 16 {
        assert(t.drop_last() =~= Seq::<char>::empty());
        assert(hex_value(Seq::<char>::empty()) == 0);
        assert(hex_value(t) == 16 * hex_value(t.drop_last()) + hex_digit_value(t.last()));
    } else {
        law_hex_text_reads_back(v / 16);
        let p = hex_text_of(v / 16);
        assert(t.drop_last() =~= p);
        assert(hex_value(t) == 16 * hex_value(t.drop_last()) + hex_digit_value(t.last()));
        assert(16 * (v / 16) + v % 16 == v) by (nonlinear_arith);
        assert(t[0] == p[0]);
        assert forall|i: int| 0 <= i < t.len() implies ('0' <= #[trigger] t[i] <= '9' || 'a' <= t[i]
            <= 'f') by {
            if i < p.len() {
                assert(t[i] == p[i]);
            }
        }
    }
}

/// The decimal text of `v` reads back as `v`: it is made of decimal digits whose value is `v`,
/// it starts with `0` only for zero, and `str::parse` gives `v` back from it.
pub proof fn law_decimal_text_reads_back(v: nat)
    ensures
        decimal_text_of(v).len() > 0,
        all_digits(decimal_text_of(v)),
        digits_value(decimal_text_of(v)) == v,
        decimal_text_of(v)[0] == '0' ==> v == 0,
        v <= usize::MAX ==> parsed_int(decimal_text_of(v), 0, usize::MAX as int) == Some(v as int),
    decreases v,
{
    let t = decimal_text_of(v);
    if v < 10 {
        assert(t.drop_last() =~= Seq::<char>::empty());
        assert(digits_value(Seq::<char>::empty()) == 0);
        assert(t.last() as int == 48 + v);
        assert(digits_value(t) == 10 * digits_value(t.drop_last()) + (t.last() as int - '0' as int));
    } else {
        law_decimal_text_reads_back(v / 10);
        let p = decimal_text_of(v / 10);
        assert(t.drop_last() =~= p);
        assert(t.last() as int == 48 + v % 10);
        assert(digits_value(t) == 10 * digits_value(t.drop_last()) + (t.last() as int - '0' as int));
        assert(10 * (v / 10) + v % 10 == v) by (nonlinear_arith);
        assert(t[0] == p[0]);
        assert forall|i: int| 0 <= i < t.len() implies '0' <= #[trigger] t[i] <= '9' by {
            if i < p.len() {
                assert(t[i] == p[i]);
            }
        }
    }
    if v <= usize::MAX {
        assert(t[0] != '+' && t[0] != '-');
    }
}

/// The texts of `parts` joined with `", "` between them.
pub open spec fn joined(parts: Seq<Seq<char>>) -> Seq<char>
    decreases parts.len(),
{
    if parts.len() == 0 {
        Seq::empty()
    } else if parts.len() == 1 {
        parts[0]
    } else {
        joined(parts.drop_last()) + seq![',', ' '] + parts.last()
    }
}

/// Appends the lower-case hex digits of `v`.
pub fn push_hex(s: &mut String, v: u64)
    ensures
        final(s)@ == old(s)@ + hex_text_of(v as nat),
    decreases v,
{
    if v >= 16 {
        push_hex(s, v / 16);
    }
    push_char(s, hex_digit((v % 16) as u8));
    proof {
        if v < 16 {
            assert(hex_text_of(v as nat) =~= seq![hex_char(v as u8)]);
        }
    }
}

/// Appends the decimal digits of `v`.
pub fn push_decimal(s: &mut String, v: usize)
    ensures
        final(s)@ == old(s)@ + decimal_text_of(v as nat),
    decreases v,
{
    if v >= 10 {
        push_decimal(s, v / 10);
    }
    let d = (v % 10) as u8;
    push_char(s, (48 + d) as char);
    proof {
        if v < 10 {
            assert(decimal_text_of(v as nat) =~= seq![(48 + v) as char]);
        }
    }
}

} // verus!
