//! IPv4 socket endpoints (`a.b.c.d:port`) as the nodes print and read them.
use vstd::prelude::*;
use vstd::string::StringSliceAdditionalSpecFns;

use crate::decimal::{
    all_digits, decimal, digit_value, digits_value, is_digit, lemma_decimal, lemma_decimal_len,
    lemma_digits_value_bound, pow10, push_decimal,
};

verus! {

/// An IPv4 address with a port.
#[derive(Clone, Copy, Debug, PartialEq, Eq, Structural)]
pub struct Endpoint {
    pub a: u8,
    pub b: u8,
    pub c: u8,
    pub d: u8,
    pub port: u16,
}

/// `d:port`
pub open spec fn port_part(e: Endpoint) -> Seq<char> {
    decimal(e.d as nat) + seq![':'] + decimal(e.port as nat)
}

/// `c.d:port`
pub open spec fn third_part(e: Endpoint) -> Seq<char> {
    decimal(e.c as nat) + seq!['.'] + port_part(e)
}

/// `b.c.d:port`
pub open spec fn second_part(e: Endpoint) -> Seq<char> {
    decimal(e.b as nat) + seq!['.'] + third_part(e)
}

/// The text of an endpoint: `a.b.c.d:port`, every number in canonical decimal.
pub open spec fn endpoint_text(e: Endpoint) -> Seq<char> {
    decimal(e.a as nat) + seq!['.'] + second_part(e)
}

/// Text made of ASCII characters only.
pub open spec fn ascii_chars(t: Seq<char>) -> bool {
    forall|i: int| 0 <= i < t.len() ==> (#[trigger] t[i] as u32) < 128
}

/// `b` holds the bytes of the ASCII text `t`.
pub open spec fn bytes_of(b: Seq<u8>, t: Seq<char>) -> bool {
    &&& b.len() == t.len()
    &&& ascii_chars(t)
    &&& forall|i: int| 0 <= i < t.len() ==> #[trigger] b[i] as u32 == t[i] as u32
}

/// The bytes of an ASCII string are its characters.
pub proof fn lemma_ascii_bytes(s: &str)
    requires
        s.is_ascii(),
    ensures
        bytes_of(s.spec_bytes(), s@),
{
    vstd::string::is_ascii_spec_bytes(s);
    let t = s@;
    let b = s.spec_bytes();
    assert forall|i: int| 0 <= i < t.len() implies (#[trigger] t[i] as u32) < 128 by {
        assert('\0' <= t[i] <= '\u{7f}');
    }
    assert forall|i: int| 0 <= i < t.len() implies #[trigger] b[i] as u32 == t[i] as u32 by {
        let c0 = t[i] as u32;
        assert(c0 < 128);
        assert(b[i] == t[i] as u8);
        assert(t[i] as u8 == c0 as u8);
        assert((c0 as u8) as u32 == c0) by (bit_vector)
            requires
                c0 < 128,
        ;
    }
}

/// The numeral of `n` starts at `pos` and ends before `hi` or before a non-digit.
pub open spec fn numeral_at(t: Seq<char>, pos: int, hi: int, n: nat) -> bool {
    let len = decimal(n).len() as int;
    &&& pos + len <= hi
    &&& t.subrange(pos, pos + len) == decimal(n)
    &&& (pos + len == hi || !is_digit(t[pos + len]))
}

impl Endpoint {
    pub fn new(a: u8, b: u8, c: u8, d: u8, port: u16) -> (r: Endpoint)
        ensures
            r == (Endpoint { a, b, c, d, port }),
    {
        Endpoint { a, b, c, d, port }
    }

    /// The address `127.0.0.1` with the given port.
    pub fn localhost(port: u16) -> (r: Endpoint)
        ensures
            r == (Endpoint { a: 127, b: 0, c: 0, d: 1, port }),
    {
        Endpoint { a: 127, b: 0, c: 0, d: 1, port }
    }

    /// Appends the text of this endpoint to `out`.
    pub fn write_to(&self, out: &mut String)
        ensures
            final(out)@ == old(out)@ + endpoint_text(*self),
    {
        proof {
            reveal_strlit(".");
            reveal_strlit(":");
        }
        push_decimal(out, self.a as u64);
        out.append(".");
        push_decimal(out, self.b as u64);
        out.append(".");
        push_decimal(out, self.c as u64);
        out.append(".");
        push_decimal(out, self.d as u64);
        out.append(":");
        push_decimal(out, self.port as u64);
        assert(out@ =~= old(out)@ + endpoint_text(*self));
    }

    /// The text of this endpoint, `a.b.c.d:port`.
    pub fn to_text(&self) -> (r: String)
        ensures
            r@ == endpoint_text(*self),
    {
        let mut s = String::new();
        self.write_to(&mut s);
        assert(s@ =~= endpoint_text(*self));
        s
    }
}

/// Characters that may stand in the text of an endpoint.
pub open spec fn endpoint_char(c: char) -> bool {
    is_digit(c) || c == '.' || c == ':'
}

pub open spec fn all_endpoint_chars(t: Seq<char>) -> bool {
    forall|i: int| 0 <= i < t.len() ==> endpoint_char(#[trigger] t[i])
}

proof fn lemma_concat_endpoint_chars(x: Seq<char>, y: Seq<char>)
    requires
        all_endpoint_chars(x),
        all_endpoint_chars(y),
    ensures
        all_endpoint_chars(x + y),
{
    let z = x + y;
    assert forall|i: int| 0 <= i < z.len() implies endpoint_char(#[trigger] z[i]) by {
        if i < x.len() {
            assert(z[i] == x[i]);
        } else {
            assert(z[i] == y[i - x.len()]);
        }
    }
}

proof fn lemma_decimal_endpoint_chars(n: nat)
    ensures
        all_endpoint_chars(decimal(n)),
{
    lemma_decimal(n);
    let d = decimal(n);
    assert forall|i: int| 0 <= i < d.len() implies endpoint_char(#[trigger] d[i]) by {
        assert(is_digit(d[i]));
    }
}

/// The text of an endpoint is made of digits, dots and one colon; in
/// particular it is ASCII.
pub proof fn lemma_endpoint_text_chars(e: Endpoint)
    ensures
        all_endpoint_chars(endpoint_text(e)),
        ascii_chars(endpoint_text(e)),
        vstd::utf8::is_ascii_chars(endpoint_text(e)),
{
    let dot = seq!['.'];
    let colon = seq![':'];
    assert(all_endpoint_chars(dot));
    assert(all_endpoint_chars(colon));
    lemma_decimal_endpoint_chars(e.a as nat);
    lemma_decimal_endpoint_chars(e.b as nat);
    lemma_decimal_endpoint_chars(e.c as nat);
    lemma_decimal_endpoint_chars(e.d as nat);
    lemma_decimal_endpoint_chars(e.port as nat);
    lemma_concat_endpoint_chars(decimal(e.d as nat), colon);
    lemma_concat_endpoint_chars(decimal(e.d as nat) + colon, decimal(e.port as nat));
    lemma_concat_endpoint_chars(decimal(e.c as nat), dot);
    lemma_concat_endpoint_chars(decimal(e.c as nat) + dot, port_part(e));
    lemma_concat_endpoint_chars(decimal(e.b as nat), dot);
    lemma_concat_endpoint_chars(decimal(e.b as nat) + dot, third_part(e));
    lemma_concat_endpoint_chars(decimal(e.a as nat), dot);
    lemma_concat_endpoint_chars(decimal(e.a as nat) + dot, second_part(e));
    let t = endpoint_text(e);
    assert forall|i: int| 0 <= i < t.len() implies (#[trigger] t[i] as u32) < 128 by {
        assert(endpoint_char(t[i]));
    }
    assert forall|i: int| 0 <= i < t.len() implies '\0' <= #[trigger] t[i] <= '\u{7f}' by {
        assert(endpoint_char(t[i]));
        lemma_ascii_char(t[i]);
    }
}

proof fn lemma_ascii_char(c: char)
    requires
        (c as u32) < 128,
    ensures
        '\0' <= c <= '\u{7f}',
{
    assert('\u{7f}' as u32 == 127);
}

/// Reads an endpoint written `a.b.c.d:port`, each number in canonical decimal
/// (no sign, no leading zero) and in range. Returns `None` for any other text.
pub fn parse_endpoint(s: &str) -> (r: Option<Endpoint>)
    ensures
        match r {
            Some(e) => s@ == endpoint_text(e),
            None => forall|e: Endpoint| #[trigger] endpoint_text(e) != s@,
        },
{
    if !s.is_ascii() {
        proof {
            assert forall|e: Endpoint| #[trigger] endpoint_text(e) != s@ by {
                lemma_endpoint_text_chars(e);
            }
        }
        return None;
    }
    let b = s.as_bytes();
    proof {
        lemma_ascii_bytes(s);
        assert(s@.subrange(0, s@.len() as int) =~= s@);
    }
    match scan_endpoint(b, 0, b.len(), Ghost(s@)) {
        Some(e) => {
            let text = e.to_text();
            let own = s.to_owned();
            if text == own {
                Some(e)
            } else {
                None
            }
        },
        None => None,
    }
}

fn is_digit_byte(x: u8) -> (r: bool)
    ensures
        r == (48 <= x <= 57),
{
    48 <= x && x <= 57
}

pub(crate) proof fn lemma_byte_char(b: Seq<u8>, t: Seq<char>, i: int)
    requires
        bytes_of(b, t),
        0 <= i < t.len(),
    ensures
        is_digit(t[i]) == (48 <= b[i] <= 57),
        is_digit(t[i]) ==> digit_value(t[i]) == b[i] - 48,
        (t[i] as u32) < 128,
        (b[i] == 46) == (t[i] == '.'),
        (b[i] == 58) == (t[i] == ':'),
        (b[i] == 34) == (t[i] == '"'),
        (b[i] == 44) == (t[i] == ','),
        (b[i] == 91) == (t[i] == '['),
        (b[i] == 93) == (t[i] == ']'),
{
    assert(b[i] as u32 == t[i] as u32);
    lemma_char_code(t[i], '.', 46);
    lemma_char_code(t[i], ':', 58);
    lemma_char_code(t[i], '"', 34);
    lemma_char_code(t[i], ',', 44);
    lemma_char_code(t[i], '[', 91);
    lemma_char_code(t[i], ']', 93);
}

proof fn lemma_char_code(c: char, k: char, code: u32)
    requires
        k as u32 == code,
    ensures
        (c as u32 == code) == (c == k),
{
}

/// Reads the decimal number that starts at `pos`: a run of at most five digits
/// whose value does not exceed `max`. Returns the value and where the run ends.
fn scan_number(b: &[u8], pos: usize, hi: usize, max: u32, Ghost(t): Ghost<Seq<char>>) -> (r:
    Option<(u32, usize)>)
    requires
        bytes_of(b@, t),
        pos <= hi <= b@.len(),
        max < 100000,
    ensures
        forall|n: nat|
            n <= max && #[trigger] numeral_at(t, pos as int, hi as int, n) ==> r == Some(
                (n as u32, (pos + decimal(n).len()) as usize),
            ),
{
    assert(pow10(5) == 100000) by {
        reveal_with_fuel(pow10, 6);
    }
    let mut j: usize = pos;
    let mut v: u32 = 0;
    while j < hi && is_digit_byte(b[j])
        invariant
            bytes_of(b@, t),
            pos <= j <= hi <= b@.len(),
            j - pos <= 5,
            all_digits(t.subrange(pos as int, j as int)),
            v as nat == digits_value(t.subrange(pos as int, j as int)),
            pow10(5) == 100000,
            max < 100000,
        decreases hi - j,
    {
        proof {
            lemma_byte_char(b@, t, j as int);
        }
        if j - pos == 5 {
            proof {
                assert forall|n: nat|
                    n <= max && #[trigger] numeral_at(t, pos as int, hi as int, n) implies false by {
                    lemma_decimal_len(n, 5);
                    lemma_decimal(n);
                    let len = decimal(n).len() as int;
                    if pos + len < j {
                        assert(t.subrange(pos as int, j as int)[len] == t[pos + len]);
                    }
                }
            }
            return None;
        }
        let ghost run = t.subrange(pos as int, j as int);
        let ghost next = t.subrange(pos as int, j + 1);
        proof {
            lemma_digits_value_bound(run);
            lemma_pow10_le5(run.len());
            assert(next.drop_last() =~= run);
            assert(next.last() == t[j as int]);
            assert(all_digits(next)) by {
                assert forall|i: int| 0 <= i < next.len() implies is_digit(#[trigger] next[i]) by {
                    if i < run.len() {
                        assert(next[i] == run[i]);
                    }
                }
            }
        }
        v = v * 10 + (b[j] - 48) as u32;
        j = j + 1;
    }
    let ghost run = t.subrange(pos as int, j as int);
    proof {
        lemma_digits_value_bound(run);
        assert forall|n: nat|
            n <= max && #[trigger] numeral_at(t, pos as int, hi as int, n) implies pos
            + decimal(n).len() == j && v == n by {
            lemma_decimal(n);
            let d = decimal(n);
            let len = d.len() as int;
            if pos + len < j {
                assert(run[len] == t[pos + len]);
            } else if pos + len > j {
                assert(d[j - pos] == t[j as int]);
                lemma_byte_char(b@, t, j as int);
            }
            assert(run =~= d);
        }
    }
    if j == pos || v > max {
        proof {
            assert forall|n: nat|
                n <= max && #[trigger] numeral_at(t, pos as int, hi as int, n) implies false by {
                lemma_decimal(n);
            }
        }
        None
    } else {
        Some((v, j))
    }
}

proof fn lemma_pow10_le5(k: nat)
    requires
        k <= 5,
    ensures
        pow10(k) <= 100000,
{
    reveal_with_fuel(pow10, 6);
}

/// Reads the endpoint written in `t[lo..hi]`; finds it wherever it is written
/// in canonical form.
pub(crate) fn scan_endpoint(b: &[u8], lo: usize, hi: usize, Ghost(t): Ghost<Seq<char>>) -> (r:
    Option<Endpoint>)
    requires
        bytes_of(b@, t),
        lo <= hi <= b@.len(),
    ensures
        forall|e: Endpoint|
            #[trigger] endpoint_text(e) == t.subrange(lo as int, hi as int) ==> r == Some(e),
{
    let ghost canon = |e: Endpoint| endpoint_text(e) == t.subrange(lo as int, hi as int);
    proof {
        assert forall|e: Endpoint| canon(e) implies numeral_at(t, lo as int, hi as int, e.a as nat)
            && t.subrange(lo + decimal(e.a as nat).len() + 1, hi as int) == second_part(e) && t[lo
            + decimal(e.a as nat).len()] == '.' by {
            lemma_numeral_then(t, lo as int, hi as int, e.a as nat, '.', second_part(e));
        }
    }
    let (a, p) = match scan_number(b, lo, hi, 255, Ghost(t)) {
        Some(x) => x,
        None => return None,
    };
    if p >= hi || b[p] != 46 {
        proof {
            assert forall|e: Endpoint| #[trigger] endpoint_text(e) == t.subrange(lo as int, hi as int) implies false by {
                assert(canon(e));
                assert(numeral_at(t, lo as int, hi as int, e.a as nat));
                lemma_byte_char(b@, t, p as int);
            }
        }
        return None;
    }
    proof {
        assert forall|e: Endpoint| canon(e) implies numeral_at(t, p + 1, hi as int, e.b as nat)
            && t.subrange(p + 1 + decimal(e.b as nat).len() + 1, hi as int) == third_part(e) && t[p
            + 1 + decimal(e.b as nat).len()] == '.' && a == e.a by {
            assert(numeral_at(t, lo as int, hi as int, e.a as nat));
            lemma_numeral_then(t, p + 1, hi as int, e.b as nat, '.', third_part(e));
        }
    }
    let (bb, p) = match scan_number(b, p + 1, hi, 255, Ghost(t)) {
        Some(x) => x,
        None => return None,
    };
    if p >= hi || b[p] != 46 {
        proof {
            assert forall|e: Endpoint| #[trigger] endpoint_text(e) == t.subrange(lo as int, hi as int) implies false by {
                assert(canon(e));
                lemma_byte_char(b@, t, p as int);
            }
        }
        return None;
    }
    proof {
        assert forall|e: Endpoint| canon(e) implies numeral_at(t, p + 1, hi as int, e.c as nat)
            && t.subrange(p + 1 + decimal(e.c as nat).len() + 1, hi as int) == port_part(e) && t[p
            + 1 + decimal(e.c as nat).len()] == '.' && a == e.a && bb == e.b by {
            lemma_numeral_then(t, p + 1, hi as int, e.c as nat, '.', port_part(e));
        }
    }
    let (c, p) = match scan_number(b, p + 1, hi, 255, Ghost(t)) {
        Some(x) => x,
        None => return None,
    };
    if p >= hi || b[p] != 46 {
        proof {
            assert forall|e: Endpoint| #[trigger] endpoint_text(e) == t.subrange(lo as int, hi as int) implies false by {
                assert(canon(e));
                lemma_byte_char(b@, t, p as int);
            }
        }
        return None;
    }
    proof {
        assert forall|e: Endpoint| canon(e) implies numeral_at(t, p + 1, hi as int, e.d as nat)
            && t.subrange(p + 1 + decimal(e.d as nat).len() + 1, hi as int) == decimal(
            e.port as nat,
        ) && t[p + 1 + decimal(e.d as nat).len()] == ':' && a == e.a && bb == e.b && c == e.c by {
            lemma_numeral_then(t, p + 1, hi as int, e.d as nat, ':', decimal(e.port as nat));
        }
    }
    let (d, p) = match scan_number(b, p + 1, hi, 255, Ghost(t)) {
        Some(x) => x,
        None => return None,
    };
    if p >= hi || b[p] != 58 {
        proof {
            assert forall|e: Endpoint| #[trigger] endpoint_text(e) == t.subrange(lo as int, hi as int) implies false by {
                assert(canon(e));
                lemma_byte_char(b@, t, p as int);
            }
        }
        return None;
    }
    proof {
        assert forall|e: Endpoint| canon(e) implies numeral_at(t, p + 1, hi as int, e.port as nat)
            && p + 1 + decimal(e.port as nat).len() == hi && a == e.a && bb == e.b && c == e.c
            && d == e.d by {
            lemma_numeral_last(t, p + 1, hi as int, e.port as nat);
        }
    }
    let (port, q) = match scan_number(b, p + 1, hi, 65535, Ghost(t)) {
        Some(x) => x,
        None => return None,
    };
    if q != hi {
        return None;
    }
    Some(Endpoint { a: a as u8, b: bb as u8, c: c as u8, d: d as u8, port: port as u16 })
}

/// When `t[pos..hi]` is the numeral of `n` and nothing else, it stands at `pos`.
proof fn lemma_numeral_last(t: Seq<char>, pos: int, hi: int, n: nat)
    requires
        0 <= pos <= hi <= t.len(),
        t.subrange(pos, hi) == decimal(n),
    ensures
        numeral_at(t, pos, hi, n),
        pos + decimal(n).len() == hi,
{
}

/// When `t[pos..hi]` is the numeral of `n`, then `sep`, then `rest`, the numeral
/// stands at `pos` and what follows it can be read off.
proof fn lemma_numeral_then(t: Seq<char>, pos: int, hi: int, n: nat, sep: char, rest: Seq<char>)
    requires
        0 <= pos <= hi <= t.len(),
        t.subrange(pos, hi) == decimal(n) + seq![sep] + rest,
        !is_digit(sep),
    ensures
        numeral_at(t, pos, hi, n),
        t[pos + decimal(n).len()] == sep,
        t.subrange(pos + decimal(n).len() + 1, hi) == rest,
{
    let d = decimal(n);
    let s = t.subrange(pos, hi);
    assert(s[d.len() as int] == sep);
    assert(t.subrange(pos, pos + d.len()) =~= s.subrange(0, d.len() as int));
    assert(s.subrange(0, d.len() as int) =~= d);
    assert(t.subrange(pos + d.len() + 1, hi) =~= s.subrange(d.len() as int + 1, s.len() as int));
    assert(s.subrange(d.len() as int + 1, s.len() as int) =~= rest);
}

} // verus!
