//! Text forms of numbers and bytes: decimal rendering and parsing, hex
//! text for binary payloads, and the printable-ASCII test.

use vstd::prelude::*;

verus! {

broadcast use vstd::string::group_string_axioms;

/// The decimal digit for `d < 10`.
pub open spec fn digit_char(d: nat) -> char {
    seq!['0', '1', '2', '3', '4', '5', '6', '7', '8', '9'][d as int]
}

/// The value of a decimal digit character.
pub open spec fn digit_value(c: char) -> int {
    c as int - '0' as int
}

pub open spec fn is_digit(c: char) -> bool {
    '0' <= c && c <= '9'
}

/// The shortest decimal rendering of `n`.
pub open spec fn dec_str(n: nat) -> Seq<char>
    decreases n,
{
    if n < 10 {
        seq![digit_char(n)]
    } else {
        dec_str(n / 10).push(digit_char(n % 10))
    }
}

/// The value of a string of decimal digits.
pub open spec fn digits_value(s: Seq<char>) -> nat
    decreases s.len(),
{
    if s.len() == 0 {
        0
    } else {
        (digits_value(s.drop_last()) * 10 + digit_value(s.last())) as nat
    }
}

/// `s` is one or more decimal digits, optionally after a `+` sign: what
/// `str::parse` accepts for an unsigned integer.
pub open spec fn is_unsigned_text(s: Seq<char>) -> bool {
    let d = unsigned_digits(s);
    d.len() > 0 && forall|i: int| 0 <= i < d.len() ==> is_digit(#[trigger] d[i])
}

/// The digits of an unsigned integer's text, without its sign.
pub open spec fn unsigned_digits(s: Seq<char>) -> Seq<char> {
    if s.len() > 0 && s[0] == '+' {
        s.drop_first()
    } else {
        s
    }
}

/// The number that `s` denotes, if it is unsigned integer text whose value
/// is at most `max`.
pub open spec fn parse_unsigned(s: Seq<char>, max: nat) -> Option<nat> {
    if is_unsigned_text(s) && digits_value(unsigned_digits(s)) <= max {
        Some(digits_value(unsigned_digits(s)))
    } else {
        None
    }
}

fn digit_str(d: u8) -> (r: &'static str)
    requires
        d < 10,
    ensures
        r@ == seq![digit_char(d as nat)],
{
    proof {
        reveal_strlit("0");
        reveal_strlit("1");
        reveal_strlit("2");
        reveal_strlit("3");
        reveal_strlit("4");
        reveal_strlit("5");
        reveal_strlit("6");
        reveal_strlit("7");
        reveal_strlit("8");
        reveal_strlit("9");
    }
    let r = match d {
        0 => "0",
        1 => "1",
        2 => "2",
        3 => "3",
        4 => "4",
        5 => "5",
        6 => "6",
        7 => "7",
        8 => "8",
        _ => "9",
    };
    assert(r@ =~= seq![digit_char(d as nat)]);
    r
}

/// Appends the decimal rendering of `n` to `out`.
pub fn push_decimal(out: &mut String, n: u128)
    ensures
        final(out)@ == old(out)@ + dec_str(n as nat),
    decreases n,
{
    if n >= 10 {
        push_decimal(out, n / 10);
    }
    out.append(digit_str((n % 10) as u8));
    assert(old(out)@ + dec_str(n as nat) =~= final(out)@) by {
        if n >= 10 {
            assert(dec_str(n as nat) == dec_str((n / 10) as nat).push(digit_char((n % 10) as nat)));
        }
    }
}

/// The decimal rendering of `n`.
pub fn decimal(n: u128) -> (r: String)
    ensures
        r@ == dec_str(n as nat),
{
    let mut s = String::new();
    push_decimal(&mut s, n);
    assert(s@ =~= dec_str(n as nat));
    s
}

/// Parses unsigned integer text (digits, optionally after `+`) whose value
/// is at most `max`.
pub fn parse_unsigned_max(s: &str, max: u128) -> (r: Option<u128>)
    ensures
        match parse_unsigned(s@, max as nat) {
            Some(v) => r == Some(v as u128),
            None => r is None,
        },
{
    let n = s.unicode_len();
    let mut i: usize = 0;
    if n > 0 && s.get_char(0) == '+' {
        i = 1;
    }
    let start = i;
    let ghost d = unsigned_digits(s@);
    assert(d =~= s@.subrange(start as int, n as int));
    if start == n {
        return None;
    }
    let mut v: u128 = 0;
    let mut fits = true;
    while i < n
        invariant
            n == s@.len(),
            start <= i <= n,
            d == s@.subrange(start as int, n as int),
            d == unsigned_digits(s@),
            forall|j: int| start <= j < i ==> is_digit(#[trigger] s@[j]),
            fits ==> v as nat == digits_value(d.take(i - start)) && v <= max,
            !fits ==> digits_value(d.take(i - start)) > max,
        decreases n - i,
    {
        let c = s.get_char(i);
        if !('0' <= c && c <= '9') {
            assert(!is_digit(d[i - start]));
            return None;
        }
        let dv = (c as u32 - '0' as u32) as u128;
        let ghost prev = digits_value(d.take(i - start));
        assert(d.take(i + 1 - start).drop_last() =~= d.take(i - start));
        assert(digits_value(d.take(i + 1 - start)) == prev * 10 + dv);
        if fits {
            match v.checked_mul(10) {
                Some(t) => match t.checked_add(dv) {
                    Some(w) => {
                        if w <= max {
                            v = w;
                        } else {
                            fits = false;
                        }
                    },
                    None => {
                        fits = false;
                    },
                },
                None => {
                    fits = false;
                },
            }
        } else {
            assert(prev * 10 + dv >= prev) by (nonlinear_arith)
                requires prev >= 0, dv >= 0;
        }
        i += 1;
    }
    assert(d.take(n - start) =~= d);
    if fits {
        Some(v)
    } else {
        None
    }
}

/// The hex digit for `d < 16`.
pub open spec fn hex_char(d: nat) -> char {
    seq!['0', '1', '2', '3', '4', '5', '6', '7', '8', '9', 'a', 'b', 'c', 'd', 'e', 'f'][d as int]
}

/// Lowercase hex text of `b`, two digits per byte, high digit first.
pub open spec fn hex_of(b: Seq<u8>) -> Seq<char>
    decreases b.len(),
{
    if b.len() == 0 {
        Seq::empty()
    } else {
        hex_of(b.drop_last()) + seq![hex_char(b.last() as nat / 16), hex_char(b.last() as nat % 16)]
    }
}

pub open spec fn is_hex_digit(c: char) -> bool {
    ('0' <= c && c <= '9') || ('a' <= c && c <= 'f')
}

/// `s` is lowercase hex text of whole bytes.
pub open spec fn is_hex_text(s: Seq<char>) -> bool {
    s.len() % 2 == 0 && forall|i: int| 0 <= i < s.len() ==> is_hex_digit(#[trigger] s[i])
}

fn hex_str(d: u8) -> (r: &'static str)
    requires
        d < 16,
    ensures
        r@ == seq![hex_char(d as nat)],
{
    proof {
        reveal_strlit("0");
        reveal_strlit("1");
        reveal_strlit("2");
        reveal_strlit("3");
        reveal_strlit("4");
        reveal_strlit("5");
        reveal_strlit("6");
        reveal_strlit("7");
        reveal_strlit("8");
        reveal_strlit("9");
        reveal_strlit("a");
        reveal_strlit("b");
        reveal_strlit("c");
        reveal_strlit("d");
        reveal_strlit("e");
        reveal_strlit("f");
    }
    let r = match d {
        0 => "0",
        1 => "1",
        2 => "2",
        3 => "3",
        4 => "4",
        5 => "5",
        6 => "6",
        7 => "7",
        8 => "8",
        9 => "9",
        10 => "a",
        11 => "b",
        12 => "c",
        13 => "d",
        14 => "e",
        _ => "f",
    };
    assert(r@ =~= seq![hex_char(d as nat)]);
    r
}

/// The hex text of `b`.
pub fn hex_encode(b: &[u8]) -> (r: String)
    ensures
        r@ == hex_of(b@),
{
    let mut out = String::new();
    let mut i: usize = 0;
    assert(b@.take(0) =~= Seq::<u8>::empty());
    while i < b.len()
        invariant
            i <= b@.len(),
            out@ == hex_of(b@.take(i as int)),
        decreases b@.len() - i,
    {
        let x = b[i];
        out.append(hex_str(x / 16));
        out.append(hex_str(x % 16));
        assert(b@.take(i + 1).drop_last() =~= b@.take(i as int));
        assert(out@ =~= hex_of(b@.take(i + 1)));
        i += 1;
    }
    assert(b@.take(i as int) =~= b@);
    out
}

fn hex_digit_value(c: char) -> (r: Option<u8>)
    ensures
        is_hex_digit(c) <==> r is Some,
        r matches Some(v) ==> v < 16 && hex_char(v as nat) == c,
{
    if '0' <= c && c <= '9' {
        let v = (c as u32 - '0' as u32) as u8;
        assert(hex_char(v as nat) == c) by {
            assert(seq!['0', '1', '2', '3', '4', '5', '6', '7', '8', '9', 'a', 'b', 'c', 'd', 'e', 'f'][v as int] == c);
        }
        Some(v)
    } else if 'a' <= c && c <= 'f' {
        let v = (c as u32 - 'a' as u32 + 10) as u8;
        Some(v)
    } else {
        None
    }
}

/// The bytes whose hex text is `s`; `None` where `s` is not such text.
pub fn hex_decode(s: &str) -> (r: Option<Vec<u8>>)
    ensures
        r is Some <==> is_hex_text(s@),
        r matches Some(b) ==> hex_of(b@) == s@,
{
    let n = s.unicode_len();
    if n % 2 != 0 {
        return None;
    }
    let mut out: Vec<u8> = Vec::new();
    let mut i: usize = 0;
    while i < n
        invariant
            n == s@.len(),
            n % 2 == 0,
            i % 2 == 0,
            i <= n,
            out@.len() * 2 == i,
            hex_of(out@) == s@.take(i as int),
            forall|j: int| 0 <= j < i ==> is_hex_digit(#[trigger] s@[j]),
        decreases n - i,
    {
        let hi = match hex_digit_value(s.get_char(i)) {
            Some(v) => v,
            None => {
                return None;
            },
        };
        let lo = match hex_digit_value(s.get_char(i + 1)) {
            Some(v) => v,
            None => {
                return None;
            },
        };
        let ghost before = out@;
        out.push(hi * 16 + lo);
        assert(out@.drop_last() =~= before);
        assert((hi * 16 + lo) as nat / 16 == hi as nat && (hi * 16 + lo) as nat % 16 == lo as nat);
        assert(hex_of(out@) =~= s@.take(i + 2));
        i += 2;
    }
    assert(s@.take(n as int) =~= s@);
    Some(out)
}

/// Every character of `s` has a code in `[32, 127]`.
pub open spec fn is_printable_ascii(s: Seq<char>) -> bool {
    forall|i: int| 0 <= i < s.len() ==> 32 <= #[trigger] s[i] as u32 && s[i] as u32 <= 127
}

/// Whether every character of `s` has a code in `[32, 127]`.
pub fn printable_ascii(s: &str) -> (r: bool)
    ensures
        r == is_printable_ascii(s@),
{
    let n = s.unicode_len();
    let mut i: usize = 0;
    while i < n
        invariant
            n == s@.len(),
            i <= n,
            forall|j: int| 0 <= j < i ==> 32 <= #[trigger] s@[j] as u32 && s@[j] as u32 <= 127,
        decreases n - i,
    {
        let c = s.get_char(i) as u32;
        if c < 32 || c > 127 {
            return false;
        }
        i += 1;
    }
    true
}

proof fn lemma_hex_char_code(d: nat)
    requires
        d < 16,
    ensures
        hex_char(d) as u32 == if d < 10 {
            '0' as u32 + d
        } else {
            'a' as u32 + d - 10
        },
{
    let hs = seq!['0', '1', '2', '3', '4', '5', '6', '7', '8', '9', 'a', 'b', 'c', 'd', 'e', 'f'];
    assert(hs[0] == '0' && hs[1] == '1' && hs[2] == '2' && hs[3] == '3');
    assert(hs[4] == '4' && hs[5] == '5' && hs[6] == '6' && hs[7] == '7');
    assert(hs[8] == '8' && hs[9] == '9' && hs[10] == 'a' && hs[11] == 'b');
    assert(hs[12] == 'c' && hs[13] == 'd' && hs[14] == 'e' && hs[15] == 'f');
}

pub proof fn lemma_hex_of_len(b: Seq<u8>)
    ensures
        hex_of(b).len() == 2 * b.len(),
    decreases b.len(),
{
    if b.len() > 0 {
        lemma_hex_of_len(b.drop_last());
    }
}

/// Distinct byte strings have distinct hex text.
pub proof fn lemma_hex_of_injective(b1: Seq<u8>, b2: Seq<u8>)
    requires
        hex_of(b1) == hex_of(b2),
    ensures
        b1 == b2,
    decreases b1.len(),
{
    lemma_hex_of_len(b1);
    lemma_hex_of_len(b2);
    if b1.len() > 0 {
        let front1 = hex_of(b1.drop_last());
        let front2 = hex_of(b2.drop_last());
        lemma_hex_of_len(b1.drop_last());
        lemma_hex_of_len(b2.drop_last());
        let x = b1.last() as nat;
        let y = b2.last() as nat;
        let h = hex_of(b1);
        assert(h == front1 + seq![hex_char(x / 16), hex_char(x % 16)]);
        assert(h == front2 + seq![hex_char(y / 16), hex_char(y % 16)]);
        assert(front1 =~= h.subrange(0, h.len() - 2));
        assert(front2 =~= h.subrange(0, h.len() - 2));
        lemma_hex_of_injective(b1.drop_last(), b2.drop_last());
        assert(h[h.len() - 2] == hex_char(x / 16) && h[h.len() - 2] == hex_char(y / 16));
        assert(h[h.len() - 1] == hex_char(x % 16) && h[h.len() - 1] == hex_char(y % 16));
        lemma_hex_char_code(x / 16);
        lemma_hex_char_code(y / 16);
        lemma_hex_char_code(x % 16);
        lemma_hex_char_code(y % 16);
        assert(x / 16 == y / 16);
        assert(x % 16 == y % 16);
        assert(x == y);
        assert(b1 =~= b1.drop_last().push(b1.last()));
        assert(b2 =~= b2.drop_last().push(b2.last()));
    }
}

/// Hex text is made of hex digits, two per byte.
pub proof fn lemma_hex_text_is_hex(b: Seq<u8>)
    ensures
        is_hex_text(hex_of(b)),
    decreases b.len(),
{
    lemma_hex_of_len(b);
    if b.len() > 0 {
        lemma_hex_text_is_hex(b.drop_last());
        let p = hex_of(b.drop_last());
        let x = b.last() as nat;
        lemma_hex_char_code(x / 16);
        lemma_hex_char_code(x % 16);
        let h = hex_of(b);
        assert forall|i: int| 0 <= i < h.len() implies is_hex_digit(#[trigger] h[i]) by {
            if i < p.len() {
                assert(h[i] == p[i]);
            }
        }
    }
}

} // verus!
