//! A key-value wire codec for KPI records, used to carry the dashboard
//! list across the command-dispatch boundary without loss.
//!
//! Each record is framed as
//! `{title:<len>:<text>;value:<len>:<text>;icon:<len>:<text>;color:<len>:<text>;}`
//! where `<len>` is the decimal character count of `<text>`, so field
//! text may contain any characters, including the delimiters. A list is
//! the concatenation of its records' frames. Decoding is exact: it
//! accepts a string if and only if the parse succeeds, and encoding
//! followed by decoding returns the original records.

use vstd::prelude::*;
use vstd::string::StrSliceExecFns;
use vstd::string::StringExecFns;
use crate::kpi::Kpi;
use crate::kpi::KpiView;

verus! {

/// The numeric value of a decimal digit character; 10 for any other
/// character.
pub open spec fn digit_val(c: char) -> nat {
    if c == '0' {
        0
    } else if c == '1' {
        1
    } else if c == '2' {
        2
    } else if c == '3' {
        3
    } else if c == '4' {
        4
    } else if c == '5' {
        5
    } else if c == '6' {
        6
    } else if c == '7' {
        7
    } else if c == '8' {
        8
    } else if c == '9' {
        9
    } else {
        10
    }
}

pub open spec fn is_digit(c: char) -> bool {
    digit_val(c) < 10
}

/// The decimal digit character for a value below ten.
pub open spec fn digit_char(n: nat) -> char {
    if n == 0 {
        '0'
    } else if n == 1 {
        '1'
    } else if n == 2 {
        '2'
    } else if n == 3 {
        '3'
    } else if n == 4 {
        '4'
    } else if n == 5 {
        '5'
    } else if n == 6 {
        '6'
    } else if n == 7 {
        '7'
    } else if n == 8 {
        '8'
    } else {
        '9'
    }
}

/// The decimal rendering of a natural number, most significant digit
/// first, no leading zeros.
pub open spec fn spec_dec(n: nat) -> Seq<char>
    decreases n,
{
    if n < 10 {
        seq![digit_char(n)]
    } else {
        spec_dec(n / 10).push(digit_char(n % 10))
    }
}

/// One encoded field: its tag (name and colon), the text's decimal
/// length, a colon, the text itself, and a closing semicolon.
pub open spec fn spec_encode_field(tag: Seq<char>, text: Seq<char>) -> Seq<char> {
    tag + spec_dec(text.len()) + seq![':'] + text + seq![';']
}

/// One encoded record: the four fields in fixed order, braced.
pub open spec fn spec_encode_kpi(k: KpiView) -> Seq<char> {
    seq!['{'] + spec_encode_field("title:"@, k.title) + spec_encode_field("value:"@, k.value)
        + spec_encode_field("icon:"@, k.icon) + spec_encode_field("color:"@, k.color) + seq!['}']
}

/// An encoded list: the records' frames, concatenated in order.
pub open spec fn spec_encode_kpis(l: Seq<KpiView>) -> Seq<char>
    decreases l.len(),
{
    if l.len() == 0 {
        Seq::empty()
    } else {
        spec_encode_kpi(l[0]) + spec_encode_kpis(l.skip(1))
    }
}

/// Greedily consumes leading decimal digits, folding them onto `acc`;
/// returns the accumulated value and the unconsumed remainder.
pub open spec fn spec_parse_dec_rec(s: Seq<char>, acc: nat) -> (nat, Seq<char>)
    decreases s.len(),
{
    if s.len() > 0 && is_digit(s[0]) {
        spec_parse_dec_rec(s.skip(1), acc * 10 + digit_val(s[0]))
    } else {
        (acc, s)
    }
}

/// Parses a decimal number at the head of `s`: at least one digit,
/// taken greedily. Fails when `s` does not start with a digit.
pub open spec fn spec_parse_dec(s: Seq<char>) -> Option<(nat, Seq<char>)> {
    if s.len() > 0 && is_digit(s[0]) {
        Some(spec_parse_dec_rec(s, 0))
    } else {
        None
    }
}

/// Parses one field at the head of `s`: the expected tag, a decimal
/// length, a colon, exactly that many characters of text, a semicolon.
/// Returns the text and the unconsumed remainder.
pub open spec fn spec_parse_field(tag: Seq<char>, s: Seq<char>) -> Option<(Seq<char>, Seq<char>)> {
    if tag.len() <= s.len() && s.take(tag.len() as int) == tag {
        match spec_parse_dec(s.skip(tag.len() as int)) {
            Some((n, r1)) => if n + 2 <= r1.len() && r1[0] == ':' && r1[n as int + 1] == ';' {
                Some((r1.subrange(1, n as int + 1), r1.skip(n as int + 2)))
            } else {
                None
            },
            None => None,
        }
    } else {
        None
    }
}

/// Parses one braced record at the head of `s`: the four fields in
/// fixed order between `{` and `}`.
pub open spec fn spec_parse_kpi(s: Seq<char>) -> Option<(KpiView, Seq<char>)> {
    if s.len() >= 1 && s[0] == '{' {
        match spec_parse_field("title:"@, s.skip(1)) {
            Some((t, r1)) => match spec_parse_field("value:"@, r1) {
                Some((v, r2)) => match spec_parse_field("icon:"@, r2) {
                    Some((ic, r3)) => match spec_parse_field("color:"@, r3) {
                        Some((co, r4)) => if r4.len() >= 1 && r4[0] == '}' {
                            Some(
                                (KpiView { title: t, value: v, icon: ic, color: co }, r4.skip(1)),
                            )
                        } else {
                            None
                        },
                        None => None,
                    },
                    None => None,
                },
                None => None,
            },
            None => None,
        }
    } else {
        None
    }
}

/// Parses a whole string as a sequence of records; the empty string is
/// the empty list. Fails unless every character is consumed.
pub open spec fn spec_parse_kpis(s: Seq<char>) -> Option<Seq<KpiView>>
    decreases s.len(),
{
    if s.len() == 0 {
        Some(Seq::empty())
    } else {
        match spec_parse_kpi(s) {
            Some((k, rest)) => if rest.len() < s.len() {
                match spec_parse_kpis(rest) {
                    Some(tail) => Some(seq![k] + tail),
                    None => None,
                }
            } else {
                None
            },
            None => None,
        }
    }
}

/// A one-character string whose single character is the given digit.
fn digit_str(d: usize) -> (r: &'static str)
    requires
        d < 10,
    ensures
        r@ == seq![digit_char(d as nat)],
{
    let r = match d {
        0 => "0",
        1 => "1",
        2 => "2",
        3 => "3",
        4 => "4",
        5 => "5",
        6 => "6",
        7 => "7",
        8 => "8",
        _ => "9",
    };
    proof {
        reveal_strlit("0");
        reveal_strlit("1");
        reveal_strlit("2");
        reveal_strlit("3");
        reveal_strlit("4");
        reveal_strlit("5");
        reveal_strlit("6");
        reveal_strlit("7");
        reveal_strlit("8");
        reveal_strlit("9");
        assert(r@ =~= seq![digit_char(d as nat)]);
    }
    r
}

/// Renders a number in decimal, matching `spec_dec`.
fn dec_string(v: usize) -> (r: String)
    ensures
        r@ == spec_dec(v as nat),
    decreases v,
{
    if v < 10 {
        String::from_str(digit_str(v))
    } else {
        let mut r = dec_string(v / 10);
        r.append(digit_str(v % 10));
        proof {
            assert(r@ =~= spec_dec(v as nat));
        }
        r
    }
}

/// Appends one encoded field to `out`.
fn encode_field_into(out: &mut String, tag: &str, text: &str)
    ensures
        final(out)@ == old(out)@ + spec_encode_field(tag@, text@),
{
    let text_len = text.unicode_len();
    out.append(tag);
    let len_dec = dec_string(text_len);
    out.append(len_dec.as_str());
    out.append(":");
    out.append(text);
    out.append(";");
    proof {
        reveal_strlit(":");
        reveal_strlit(";");
        assert(out@ =~= old(out)@ + spec_encode_field(tag@, text@));
    }
}

/// Appends one encoded record to `out`.
fn encode_kpi_into(out: &mut String, k: &Kpi)
    ensures
        final(out)@ == old(out)@ + spec_encode_kpi(k@),
{
    out.append("{");
    encode_field_into(out, "title:", k.title.as_str());
    encode_field_into(out, "value:", k.value.as_str());
    encode_field_into(out, "icon:", k.icon.as_str());
    encode_field_into(out, "color:", k.color.as_str());
    out.append("}");
    proof {
        reveal_strlit("{");
        reveal_strlit("}");
        assert(out@ =~= old(out)@ + spec_encode_kpi(k@));
    }
}

/// Dropping `a` characters and then `b` more drops `a + b`.
proof fn lemma_skip_skip(s: Seq<char>, a: int, b: int)
    requires
        0 <= a,
        0 <= b,
        a + b <= s.len(),
    ensures
        s.skip(a).skip(b) == s.skip(a + b),
{
    assert(s.skip(a).skip(b) =~= s.skip(a + b));
}

/// The accumulator only grows while digits are folded onto it, and the
/// remainder is never longer than the input.
proof fn lemma_parse_dec_rec_bounds(s: Seq<char>, acc: nat)
    ensures
        spec_parse_dec_rec(s, acc).0 >= acc,
        spec_parse_dec_rec(s, acc).1.len() <= s.len(),
    decreases s.len(),
{
    if s.len() > 0 && is_digit(s[0]) {
        lemma_parse_dec_rec_bounds(s.skip(1), acc * 10 + digit_val(s[0]));
        assert(acc * 10 + digit_val(s[0]) >= acc) by (nonlinear_arith);
    }
}

/// The digit value of a character, or nothing when it is no digit.
fn char_digit(c: char) -> (r: Option<u8>)
    ensures
        r matches Some(d) ==> is_digit(c) && d as nat == digit_val(c),
        r is None ==> !is_digit(c),
{
    match c {
        '0' => Some(0),
        '1' => Some(1),
        '2' => Some(2),
        '3' => Some(3),
        '4' => Some(4),
        '5' => Some(5),
        '6' => Some(6),
        '7' => Some(7),
        '8' => Some(8),
        '9' => Some(9),
        _ => None,
    }
}

/// Whether `tag` occurs in `s` starting at character position `i`.
fn starts_with_at(s: &str, n: usize, i: usize, tag: &str) -> (b: bool)
    requires
        n == s@.len(),
        i <= n,
    ensures
        b == (tag@.len() <= n - i && s@.skip(i as int).take(tag@.len() as int) == tag@),
{
    let tl = tag.unicode_len();
    if tl > n - i {
        return false;
    }
    let mut j: usize = 0;
    while j < tl
        invariant
            n == s@.len(),
            i <= n,
            tl == tag@.len(),
            tl <= n - i,
            j <= tl,
            forall|jj: int| 0 <= jj < j ==> s@[i + jj] == tag@[jj],
        decreases tl - j,
    {
        if s.get_char(i + j) != tag.get_char(j) {
            proof {
                assert(s@.skip(i as int).take(tl as int)[j as int] != tag@[j as int]);
            }
            return false;
        }
        j = j + 1;
    }
    proof {
        assert(s@.skip(i as int).take(tl as int) =~= tag@);
    }
    true
}

/// Parses a decimal number at character position `i`, matching
/// `spec_parse_dec` on the remainder of `s`. Returns the value and the
/// position just past the digits. Gives nothing when no digit starts
/// there, or when the value exceeds the string's own length (in which
/// case no well-formed field could follow it).
fn parse_dec_at(s: &str, n: usize, i: usize) -> (r: Option<(usize, usize)>)
    requires
        n == s@.len(),
        i <= n,
    ensures
        r matches Some(p) ==> i < p.1 <= n && spec_parse_dec(s@.skip(i as int)) == Some(
            ((p.0 as nat, s@.skip(p.1 as int))),
        ),
        r is None ==> (match spec_parse_dec(s@.skip(i as int)) {
            Some(p) => p.0 > n,
            None => true,
        }),
{
    let mut j: usize = i;
    let mut acc: u128 = 0;
    loop
        invariant
            n == s@.len(),
            i <= j <= n,
            acc <= n as u128,
            spec_parse_dec_rec(s@.skip(i as int), 0) == spec_parse_dec_rec(
                s@.skip(j as int),
                acc as nat,
            ),
            j > i ==> is_digit(s@[i as int]),
            j == i ==> acc == 0,
        ensures
            i <= j <= n,
            acc <= n as u128,
            spec_parse_dec_rec(s@.skip(i as int), 0) == spec_parse_dec_rec(
                s@.skip(j as int),
                acc as nat,
            ),
            j > i ==> is_digit(s@[i as int]),
            j == i ==> acc == 0,
            j == n || !is_digit(s@[j as int]),
        decreases n - j,
    {
        if j == n {
            break ;
        }
        let c = s.get_char(j);
        match char_digit(c) {
            None => {
                break ;
            },
            Some(d) => {
                proof {
                    lemma_skip_skip(s@, j as int, 1);
                    assert(s@.skip(j as int)[0] == s@[j as int]);
                    assert(spec_parse_dec_rec(s@.skip(j as int), acc as nat)
                        == spec_parse_dec_rec(
                        s@.skip(j as int + 1),
                        acc as nat * 10 + digit_val(c),
                    ));
                }
                acc = acc * 10 + d as u128;
                if acc > n as u128 {
                    proof {
                        lemma_parse_dec_rec_bounds(s@.skip(j as int + 1), acc as nat);
                        assert(s@.skip(i as int)[0] == s@[i as int]);
                    }
                    return None;
                }
                j = j + 1;
            },
        }
    }
    if j == i {
        return None;
    }
    proof {
        assert(s@.skip(j as int).len() == n - j);
        assert(j < n ==> s@.skip(j as int)[0] == s@[j as int]);
        assert(spec_parse_dec_rec(s@.skip(j as int), acc as nat) == ((
        acc as nat,
        s@.skip(j as int),
        )));
        assert(s@.skip(i as int)[0] == s@[i as int]);
    }
    Some((acc as usize, j))
}

/// Parses one field at character position `i`, matching
/// `spec_parse_field` on the remainder of `s`. Returns the field's
/// text and the position just past the closing semicolon.
fn parse_field_at(s: &str, n: usize, i: usize, tag: &str) -> (r: Option<(String, usize)>)
    requires
        n == s@.len(),
        i <= n,
    ensures
        r matches Some(p) ==> i <= p.1 <= n && spec_parse_field(tag@, s@.skip(i as int)) == Some(
            ((p.0@, s@.skip(p.1 as int))),
        ),
        r is None ==> spec_parse_field(tag@, s@.skip(i as int)) is None,
{
    if !starts_with_at(s, n, i, tag) {
        return None;
    }
    let tl = tag.unicode_len();
    let i1 = i + tl;
    proof {
        lemma_skip_skip(s@, i as int, tl as int);
    }
    match parse_dec_at(s, n, i1) {
        None => {
            proof {
                if spec_parse_dec(s@.skip(i1 as int)) is Some {
                    lemma_parse_dec_rec_bounds(s@.skip(i1 as int), 0);
                }
            }
            None
        },
        Some((v, j1)) => {
            let rem = n - j1;
            if rem < 2 || v > rem - 2 {
                return None;
            }
            if s.get_char(j1) != ':' {
                proof {
                    assert(s@.skip(j1 as int)[0] == s@[j1 as int]);
                }
                return None;
            }
            if s.get_char(j1 + 1 + v) != ';' {
                proof {
                    assert(s@.skip(j1 as int)[v as int + 1] == s@[j1 as int + 1 + v as int]);
                }
                return None;
            }
            let sub = s.substring_char(j1 + 1, j1 + 1 + v);
            let text = String::from_str(sub);
            let j = j1 + 2 + v;
            proof {
                assert(s@.skip(j1 as int)[0] == s@[j1 as int]);
                assert(s@.skip(j1 as int)[v as int + 1] == s@[j1 as int + 1 + v as int]);
                assert(text@ =~= s@.skip(j1 as int).subrange(1, v as int + 1));
                assert(s@.skip(j1 as int).skip(v as int + 2) =~= s@.skip(j as int));
            }
            Some((text, j))
        },
    }
}

/// Parses one braced record at character position `i`, matching
/// `spec_parse_kpi` on the remainder of `s`.
fn parse_kpi_at(s: &str, n: usize, i: usize) -> (r: Option<(Kpi, usize)>)
    requires
        n == s@.len(),
        i <= n,
    ensures
        r matches Some(p) ==> i < p.1 <= n && spec_parse_kpi(s@.skip(i as int)) == Some(
            ((p.0@, s@.skip(p.1 as int))),
        ),
        r is None ==> spec_parse_kpi(s@.skip(i as int)) is None,
{
    if i == n {
        return None;
    }
    if s.get_char(i) != '{' {
        proof {
            assert(s@.skip(i as int)[0] == s@[i as int]);
        }
        return None;
    }
    proof {
        assert(s@.skip(i as int)[0] == s@[i as int]);
        lemma_skip_skip(s@, i as int, 1);
    }
    let title = match parse_field_at(s, n, i + 1, "title:") {
        None => {
            return None;
        },
        Some(p) => p,
    };
    let value = match parse_field_at(s, n, title.1, "value:") {
        None => {
            return None;
        },
        Some(p) => p,
    };
    let icon = match parse_field_at(s, n, value.1, "icon:") {
        None => {
            return None;
        },
        Some(p) => p,
    };
    let color = match parse_field_at(s, n, icon.1, "color:") {
        None => {
            return None;
        },
        Some(p) => p,
    };
    let j4 = color.1;
    if j4 == n {
        return None;
    }
    if s.get_char(j4) != '}' {
        proof {
            assert(s@.skip(j4 as int)[0] == s@[j4 as int]);
        }
        return None;
    }
    let j = j4 + 1;
    proof {
        assert(s@.skip(j4 as int)[0] == s@[j4 as int]);
        lemma_skip_skip(s@, j4 as int, 1);
        assert(spec_parse_kpi(s@.skip(i as int)) == Some(
            ((
            KpiView { title: title.0@, value: value.0@, icon: icon.0@, color: color.0@ },
            s@.skip(j as int),
            )),
        ));
    }
    let k = Kpi { title: title.0, value: value.0, icon: icon.0, color: color.0 };
    Some((k, j))
}

/// Decodes a string produced by `encode_kpis`, returning the records
/// it frames. Succeeds exactly when the whole string parses as a
/// sequence of record frames; any trailing or malformed text yields
/// nothing.
pub fn decode_kpis(s: &str) -> (r: Option<Vec<Kpi>>)
    ensures
        r matches Some(v) ==> spec_parse_kpis(s@) == Some(v.deep_view()),
        r is None ==> spec_parse_kpis(s@) is None,
{
    let n = s.unicode_len();
    let mut i: usize = 0;
    let mut out: Vec<Kpi> = Vec::new();
    proof {
        assert(s@.skip(0) =~= s@);
        assert(out.deep_view() + spec_parse_kpis(s@).unwrap() =~= spec_parse_kpis(s@).unwrap());
    }
    while i < n
        invariant
            n == s@.len(),
            i <= n,
            (match spec_parse_kpis(s@.skip(i as int)) {
                Some(tail) => spec_parse_kpis(s@) == Some(out.deep_view() + tail),
                None => spec_parse_kpis(s@) is None,
            }),
        decreases n - i,
    {
        match parse_kpi_at(s, n, i) {
            None => {
                return None;
            },
            Some((k, j)) => {
                proof {
                    assert(s@.skip(j as int).len() < s@.skip(i as int).len());
                    let ghost prev = out.deep_view();
                    let ghost rest = s@.skip(j as int);
                    if spec_parse_kpis(rest) is Some {
                        let ghost tail = spec_parse_kpis(rest).unwrap();
                        assert(spec_parse_kpis(s@.skip(i as int)) == Some(seq![k@] + tail));
                        assert(prev + (seq![k@] + tail) =~= (prev + seq![k@]) + tail);
                    }
                }
                let ghost prev = out.deep_view();
                out.push(k);
                proof {
                    assert(out.deep_view() =~= prev + seq![k@]);
                }
                i = j;
            },
        }
    }
    proof {
        assert(s@.skip(n as int).len() == 0);
        assert(spec_parse_kpis(s@.skip(n as int)) == Some(Seq::<KpiView>::empty()));
        assert(out.deep_view() + Seq::<KpiView>::empty() =~= out.deep_view());
    }
    Some(out)
}

/// Appending one record to a list appends its frame to the encoding.
proof fn lemma_encode_kpis_push(l: Seq<KpiView>, k: KpiView)
    ensures
        spec_encode_kpis(l.push(k)) == spec_encode_kpis(l) + spec_encode_kpi(k),
    decreases l.len(),
{
    reveal_with_fuel(spec_encode_kpis, 3);
    if l.len() == 0 {
        assert(l.push(k)[0] == k);
        assert(l.push(k).skip(1) =~= Seq::<KpiView>::empty());
        assert(spec_encode_kpi(k) + Seq::<char>::empty() =~= spec_encode_kpi(k));
        assert(Seq::<char>::empty() + spec_encode_kpi(k) =~= spec_encode_kpi(k));
    } else {
        assert(l.push(k).skip(1) =~= l.skip(1).push(k));
        lemma_encode_kpis_push(l.skip(1), k);
        assert(spec_encode_kpi(l[0]) + (spec_encode_kpis(l.skip(1)) + spec_encode_kpi(k)) =~= (
        spec_encode_kpi(l[0]) + spec_encode_kpis(l.skip(1))) + spec_encode_kpi(k));
        assert(l.push(k)[0] == l[0]);
    }
}

/// Ten to the power `k`.
pub open spec fn pow10(k: nat) -> nat
    decreases k,
{
    if k == 0 {
        1
    } else {
        10 * pow10((k - 1) as nat)
    }
}

/// A decimal rendering is never empty and consists of digits only.
proof fn lemma_dec_digits(n: nat)
    ensures
        spec_dec(n).len() >= 1,
        forall|i: int| 0 <= i < spec_dec(n).len() ==> is_digit(#[trigger] spec_dec(n)[i]),
    decreases n,
{
    if n >= 10 {
        lemma_dec_digits(n / 10);
        assert(forall|i: int|
            0 <= i < spec_dec(n).len() - 1 ==> spec_dec(n)[i] == spec_dec(n / 10)[i]);
    }
}

/// Folding the digits of `spec_dec(n)` onto an accumulator shifts the
/// accumulator past them and adds `n`.
proof fn lemma_parse_dec_rec_of_dec(n: nat, rest: Seq<char>, acc: nat)
    ensures
        spec_parse_dec_rec(spec_dec(n) + rest, acc) == spec_parse_dec_rec(
            rest,
            acc * pow10(spec_dec(n).len()) + n,
        ),
    decreases n,
{
    reveal_with_fuel(pow10, 3);
    if n < 10 {
        assert((spec_dec(n) + rest)[0] == digit_char(n));
        assert((spec_dec(n) + rest).skip(1) =~= rest);
        assert(pow10(1) == 10);
        assert(spec_parse_dec_rec(spec_dec(n) + rest, acc) == spec_parse_dec_rec(
            rest,
            acc * 10 + n,
        ));
    } else {
        let d = digit_char(n % 10);
        let tail = seq![d] + rest;
        assert(spec_dec(n) + rest =~= spec_dec(n / 10) + tail);
        lemma_parse_dec_rec_of_dec(n / 10, tail, acc);
        let p = pow10(spec_dec(n / 10).len());
        let a1 = acc * p + n / 10;
        assert(spec_parse_dec_rec(spec_dec(n) + rest, acc) == spec_parse_dec_rec(tail, a1));
        assert(tail[0] == d);
        assert(tail.skip(1) =~= rest);
        assert(spec_parse_dec_rec(tail, a1) == spec_parse_dec_rec(rest, a1 * 10 + n % 10));
        assert(spec_dec(n).len() == spec_dec(n / 10).len() + 1);
        assert(pow10(spec_dec(n).len()) == 10 * p);
        let q = n / 10;
        let r0 = n % 10;
        vstd::arithmetic::div_mod::lemma_fundamental_div_mod(n as int, 10);
        assert(n == 10 * q + r0);
        assert((acc * p + q) * 10 + r0 == acc * (10 * p) + (10 * q + r0)) by (nonlinear_arith);
    }
}

/// Parsing a decimal rendering followed by a non-digit remainder
/// recovers the number and the remainder.
proof fn lemma_parse_dec_of_dec(n: nat, rest: Seq<char>)
    requires
        rest.len() == 0 || !is_digit(rest[0]),
    ensures
        spec_parse_dec(spec_dec(n) + rest) == Some(((n, rest))),
{
    lemma_dec_digits(n);
    assert((spec_dec(n) + rest)[0] == spec_dec(n)[0]);
    lemma_parse_dec_rec_of_dec(n, rest, 0);
    assert(0 * pow10(spec_dec(n).len()) == 0) by (nonlinear_arith);
    assert(spec_parse_dec_rec(rest, n) == ((n, rest)));
}

/// Parsing an encoded field followed by any remainder recovers the
/// field's text and the remainder.
proof fn lemma_parse_field_of_encode(tag: Seq<char>, text: Seq<char>, rest: Seq<char>)
    ensures
        spec_parse_field(tag, spec_encode_field(tag, text) + rest) == Some(((text, rest))),
{
    let s = spec_encode_field(tag, text) + rest;
    let mid = seq![':'] + text + seq![';'] + rest;
    assert(s.take(tag.len() as int) =~= tag);
    assert(s.skip(tag.len() as int) =~= spec_dec(text.len()) + mid);
    assert(!is_digit(mid[0]));
    lemma_parse_dec_of_dec(text.len(), mid);
    assert(mid.len() == text.len() + 2 + rest.len());
    assert(mid[0] == ':');
    assert(mid[text.len() as int + 1] == ';');
    assert(mid.subrange(1, text.len() as int + 1) =~= text);
    assert(mid.skip(text.len() as int + 2) =~= rest);
}

/// Parsing an encoded record followed by any remainder recovers the
/// record and the remainder.
proof fn lemma_parse_kpi_of_encode(k: KpiView, rest: Seq<char>)
    ensures
        spec_parse_kpi(spec_encode_kpi(k) + rest) == Some(((k, rest))),
{
    let s = spec_encode_kpi(k) + rest;
    let ft = spec_encode_field("title:"@, k.title);
    let fv = spec_encode_field("value:"@, k.value);
    let fi = spec_encode_field("icon:"@, k.icon);
    let fc = spec_encode_field("color:"@, k.color);
    let r1 = fv + fi + fc + seq!['}'] + rest;
    let r2 = fi + fc + seq!['}'] + rest;
    let r3 = fc + seq!['}'] + rest;
    let r4 = seq!['}'] + rest;
    assert(s[0] == '{');
    assert(s.skip(1) =~= ft + r1);
    lemma_parse_field_of_encode("title:"@, k.title, r1);
    assert(r1 =~= fv + r2);
    lemma_parse_field_of_encode("value:"@, k.value, r2);
    assert(r2 =~= fi + r3);
    lemma_parse_field_of_encode("icon:"@, k.icon, r3);
    assert(r3 =~= fc + r4);
    lemma_parse_field_of_encode("color:"@, k.color, r4);
    assert(r4[0] == '}');
    assert(r4.skip(1) =~= rest);
    assert(KpiView { title: k.title, value: k.value, icon: k.icon, color: k.color } =~= k);
}

/// The codec's round trip: decoding an encoded list of records
/// recovers exactly the records that were encoded, values and order
/// both.
pub proof fn lemma_encode_decode_roundtrip(l: Seq<KpiView>)
    ensures
        spec_parse_kpis(spec_encode_kpis(l)) == Some(l),
    decreases l.len(),
{
    if l.len() == 0 {
        assert(spec_encode_kpis(l).len() == 0);
    } else {
        let s = spec_encode_kpis(l);
        let rest = spec_encode_kpis(l.skip(1));
        assert(s == spec_encode_kpi(l[0]) + rest);
        assert(spec_encode_kpi(l[0])[0] == '{');
        assert(spec_encode_kpi(l[0]).len() >= 1);
        lemma_parse_kpi_of_encode(l[0], rest);
        lemma_encode_decode_roundtrip(l.skip(1));
        assert(seq![l[0]] + l.skip(1) =~= l);
    }
}

/// Encodes a list of records for transport. The result is exactly the
/// concatenation of the records' frames, in order.
pub fn encode_kpis(kpis: &Vec<Kpi>) -> (r: String)
    ensures
        r@ == spec_encode_kpis(kpis.deep_view()),
{
    let mut r = String::new();
    let ghost l = kpis.deep_view();
    proof {
        assert(l.take(0) =~= Seq::<KpiView>::empty());
    }
    let mut i: usize = 0;
    while i < kpis.len()
        invariant
            i <= kpis.len(),
            l == kpis.deep_view(),
            r@ == spec_encode_kpis(l.take(i as int)),
        decreases kpis.len() - i,
    {
        encode_kpi_into(&mut r, &kpis[i]);
        proof {
            lemma_encode_kpis_push(l.take(i as int), l[i as int]);
            assert(l.take(i as int).push(l[i as int]) =~= l.take(i as int + 1));
        }
        i = i + 1;
    }
    proof {
        assert(l.take(kpis.len() as int) =~= l);
    }
    r
}

} // verus!
