//! The contact registry: the file in which the genesis node publishes the
//! addresses that other nodes bootstrap from. It holds a JSON array of address
//! strings, written without whitespace: `["127.0.0.1:12000","10.0.0.2:12000"]`.
use vstd::prelude::*;

use crate::decimal::decimal;
use crate::endpoint::{
    port_part, second_part, third_part, bytes_of, endpoint_char, endpoint_text, lemma_ascii_bytes,
    lemma_endpoint_text_chars, scan_endpoint, Endpoint,
};

verus! {

/// Why the registry could not be read.
#[derive(Clone, Copy, Debug, PartialEq, Eq, Structural)]
pub enum ReadError {
    /// The genesis node has not written the file (yet).
    NotFound,
    /// The file does not hold a list of addresses.
    Malformed,
}

/// The addresses that nodes bootstrap from, each one once.
#[derive(Clone, Debug)]
pub struct ContactRegistry {
    pub addresses: Vec<Endpoint>,
}

/// `"a.b.c.d:port"`
pub open spec fn quoted(e: Endpoint) -> Seq<char> {
    seq!['"'] + endpoint_text(e) + seq!['"']
}

/// What follows the first item of a list: `,"..."` for each further item, then `]`.
pub open spec fn list_rest(l: Seq<Endpoint>) -> Seq<char>
    decreases l.len(),
{
    if l.len() == 0 {
        seq![']']
    } else {
        seq![','] + quoted(l[0]) + list_rest(l.drop_first())
    }
}

/// A list after its opening bracket.
pub open spec fn list_items(l: Seq<Endpoint>) -> Seq<char> {
    if l.len() == 0 {
        seq![']']
    } else {
        quoted(l[0]) + list_rest(l.drop_first())
    }
}

/// The registry text that lists `l`, in order.
pub open spec fn registry_text(l: Seq<Endpoint>) -> Seq<char> {
    seq!['['] + list_items(l)
}

/// `t[lo..hi]` is `x` followed by `y`.
proof fn lemma_split(t: Seq<char>, lo: int, hi: int, x: Seq<char>, y: Seq<char>)
    requires
        0 <= lo <= hi <= t.len(),
        t.subrange(lo, hi) == x + y,
    ensures
        lo + x.len() <= hi,
        t.subrange(lo, lo + x.len()) == x,
        t.subrange(lo + x.len(), hi) == y,
        forall|k: int| 0 <= k < x.len() ==> t[lo + k] == #[trigger] x[k],
        forall|k: int| 0 <= k < y.len() ==> t[lo + x.len() + k] == #[trigger] y[k],
{
    let s = t.subrange(lo, hi);
    assert(t.subrange(lo, lo + x.len()) =~= s.subrange(0, x.len() as int));
    assert(s.subrange(0, x.len() as int) =~= x);
    assert(t.subrange(lo + x.len(), hi) =~= s.subrange(x.len() as int, s.len() as int));
    assert(s.subrange(x.len() as int, s.len() as int) =~= y);
    assert forall|k: int| 0 <= k < x.len() implies t[lo + k] == #[trigger] x[k] by {
        assert(s[k] == x[k]);
    }
    assert forall|k: int| 0 <= k < y.len() implies t[lo + x.len() + k] == #[trigger] y[k] by {
        assert(s[x.len() + k] == y[k]);
    }
}

/// After `k` items of `l` have been read, the text from `i` on holds item `k`
/// and what follows it.
pub open spec fn at_item(t: Seq<char>, i: int, k: int, l: Seq<Endpoint>) -> bool {
    &&& 0 <= k < l.len()
    &&& t.subrange(i, t.len() as int) == quoted(l[k]) + list_rest(l.skip(k + 1))
}

/// Item `k` of `l`, quoted, stands at `i`, and the rest of the list follows it.
pub open spec fn item_layout(t: Seq<char>, i: int, k: int, l: Seq<Endpoint>) -> bool {
    let e = endpoint_text(l[k]);
    &&& t[i] == '"'
    &&& i + 1 + e.len() + 1 <= t.len()
    &&& t.subrange(i + 1, i + 1 + e.len()) == e
    &&& t[i + 1 + e.len()] == '"'
    &&& t.subrange(i + 1 + e.len() + 1, t.len() as int) == list_rest(l.skip(k + 1))
}

proof fn lemma_item_layout(t: Seq<char>, i: int, k: int, l: Seq<Endpoint>)
    requires
        0 <= i <= t.len(),
        at_item(t, i, k, l),
    ensures
        item_layout(t, i, k, l),
{
    let n = t.len() as int;
    let e = endpoint_text(l[k]);
    let rest = list_rest(l.skip(k + 1));
    assert(quoted(l[k]) + rest =~= seq!['"'] + (e + (seq!['"'] + rest)));
    lemma_split(t, i, n, seq!['"'], e + (seq!['"'] + rest));
    lemma_split(t, i + 1, n, e, seq!['"'] + rest);
    lemma_split(t, i + 1 + e.len(), n, seq!['"'], rest);
    assert(t[i] == seq!['"'][0]);
    assert(t[i + 1 + e.len()] == seq!['"'][0]);
}

/// Where the text after item `k` says the list ends, or goes on with item `k + 1`.
pub open spec fn after_item(t: Seq<char>, i: int, k: int, l: Seq<Endpoint>) -> bool {
    &&& (t[i] == ']' <==> k + 1 == l.len())
    &&& (k + 1 == l.len() ==> t.len() == i + 1)
    &&& (k + 1 < l.len() ==> t[i] == ',' && at_item(t, i + 1, k + 1, l))
}

proof fn lemma_after_item(t: Seq<char>, i: int, k: int, l: Seq<Endpoint>)
    requires
        0 <= i < t.len(),
        0 <= k < l.len(),
        t.subrange(i, t.len() as int) == list_rest(l.skip(k + 1)),
    ensures
        after_item(t, i, k, l),
{
    let n = t.len() as int;
    let tail = l.skip(k + 1);
    let rest = list_rest(tail);
    assert(t[i] == rest[0]);
    if tail.len() == 0 {
        assert(k + 1 == l.len());
        assert(rest == seq![']']);
        assert(t.subrange(i, n).len() == 1);
    } else {
        assert(tail[0] == l[k + 1]);
        assert(tail.drop_first() =~= l.skip(k + 2));
        assert(rest =~= seq![','] + (quoted(l[k + 1]) + list_rest(l.skip(k + 2))));
        lemma_split(t, i, n, seq![','], quoted(l[k + 1]) + list_rest(l.skip(k + 2)));
        assert(t[i] == seq![','][0]);
        assert(seq![','][0] != ']');
        assert(t.subrange(i + 1, n) == quoted(l[k + 1]) + list_rest(l.skip(k + 2)));
        assert(at_item(t, i + 1, k + 1, l));
    }
}

/// Reads the list in `t`; finds it wherever `t` is the registry text of a list.
fn scan_list(b: &[u8], Ghost(t): Ghost<Seq<char>>) -> (r: Option<Vec<Endpoint>>)
    requires
        bytes_of(b@, t),
    ensures
        forall|l: Seq<Endpoint>| #[trigger] registry_text(l) == t ==> r is Some && r->0@ == l,
{
    let n = b.len();
    proof {
        assert forall|l: Seq<Endpoint>| #[trigger] registry_text(l) == t implies n >= 2 && t[0]
            == '[' && (l.len() == 0 ==> n == 2 && t[1] == ']') && (l.len() > 0 ==> t[1] == '"'
            && at_item(t, 1, 0, l)) by {
            assert(t[0] == '[');
            if l.len() == 0 {
                assert(t =~= seq!['[', ']']);
            } else {
                let first = quoted(l[0]);
                assert(first[0] == '"');
                assert(t =~= seq!['['] + (first + list_rest(l.drop_first())));
                assert(t.subrange(1, t.len() as int) =~= first + list_rest(l.drop_first()));
                assert(l.skip(1) =~= l.drop_first());
                assert(t[1] == first[0]);
            }
        }
    }
    if n < 2 {
        return None;
    }
    proof {
        crate::endpoint::lemma_byte_char(b@, t, 0);
        crate::endpoint::lemma_byte_char(b@, t, 1);
    }
    if b[0] != 91 {
        return None;
    }
    let mut out: Vec<Endpoint> = Vec::new();
    if b[1] == 93 {
        if n == 2 {
            proof {
                assert forall|l: Seq<Endpoint>| #[trigger] registry_text(l) == t implies out@
                    == l by {
                    assert(l.len() == 0);
                    assert(out@ =~= l);
                }
            }
            return Some(out);
        }
        return None;
    }
    let mut i: usize = 1;
    loop
        invariant
            bytes_of(b@, t),
            n == b@.len(),
            1 <= i <= n,
            forall|l: Seq<Endpoint>| #[trigger]
                registry_text(l) == t ==> at_item(t, i as int, out@.len() as int, l) && out@
                    == l.take(out@.len() as int),
        decreases n - i,
    {
        let ghost k = out@.len() as int;
        proof {
            assert forall|l: Seq<Endpoint>| #[trigger] registry_text(l) == t implies item_layout(
                t,
                i as int,
                k,
                l,
            ) by {
                lemma_item_layout(t, i as int, k, l);
            }
        }
        if i >= n {
            return None;
        }
        proof {
            crate::endpoint::lemma_byte_char(b@, t, i as int);
        }
        if b[i] != 34 {
            return None;
        }
        let mut j: usize = i + 1;
        while j < n && b[j] != 34
            invariant
                bytes_of(b@, t),
                n == b@.len(),
                i < j <= n,
                forall|m: int| i < m < j ==> t[m] != '"',
            decreases n - j,
        {
            proof {
                crate::endpoint::lemma_byte_char(b@, t, j as int);
            }
            j = j + 1;
        }
        proof {
            assert forall|l: Seq<Endpoint>| #[trigger] registry_text(l) == t implies j == i + 1
                + endpoint_text(l[k]).len() by {
                let e = endpoint_text(l[k]);
                lemma_endpoint_text_chars(l[k]);
                if j < i + 1 + e.len() {
                    assert(t[j as int] == t.subrange(i + 1, i + 1 + e.len())[j - (i + 1)]);
                    assert(endpoint_char(e[j - (i + 1)]));
                    crate::endpoint::lemma_byte_char(b@, t, j as int);
                } else if j > i + 1 + e.len() {
                    assert(t[i + 1 + e.len()] != '"');
                }
            }
        }
        if j >= n {
            return None;
        }
        let e = match scan_endpoint(b, i + 1, j, Ghost(t)) {
            Some(e) => e,
            None => return None,
        };
        let ghost before = out@;
        out.push(e);
        proof {
            assert forall|l: Seq<Endpoint>| #[trigger] registry_text(l) == t implies out@ == l.take(
                k + 1,
            ) by {
                assert(l.take(k + 1) =~= l.take(k).push(l[k]));
                assert(out@ =~= before.push(e));
            }
        }
        i = j + 1;
        if i >= n {
            proof {
                assert forall|l: Seq<Endpoint>| #[trigger] registry_text(l) == t implies false by {
                    let rest = list_rest(l.skip(k + 1));
                    assert(rest.len() > 0);
                }
            }
            return None;
        }
        proof {
            crate::endpoint::lemma_byte_char(b@, t, i as int);
            assert forall|l: Seq<Endpoint>| #[trigger] registry_text(l) == t implies after_item(
                t,
                i as int,
                k,
                l,
            ) by {
                lemma_after_item(t, i as int, k, l);
                assert(l.take(k + 1) =~= l.take(k + 1));
            }
            assert forall|l: Seq<Endpoint>| #[trigger] registry_text(l) == t && k + 1 == l.len()
                implies out@ == l by {
                assert(l.take(k + 1) =~= l);
            }
        }
        if b[i] == 93 {
            if i + 1 == n {
                return Some(out);
            }
            return None;
        }
        if b[i] != 44 {
            return None;
        }
        i = i + 1;
    }
}

/// What remains to be written after `k` items of `l`.
spec fn pending(l: Seq<Endpoint>, k: int) -> Seq<char> {
    if k == 0 {
        list_items(l)
    } else {
        list_rest(l.skip(k))
    }
}

/// Writes the registry text that lists `addrs`, in order.
pub fn serialize_contacts(addrs: &Vec<Endpoint>) -> (r: String)
    ensures
        r@ == registry_text(addrs@),
{
    proof {
        reveal_strlit("[");
        reveal_strlit("]");
        reveal_strlit(",");
        reveal_strlit("\"");
    }
    let ghost l = addrs@;
    let mut out = String::new();
    out.append("[");
    let mut k: usize = 0;
    assert(out@ + pending(l, 0) =~= registry_text(l));
    while k < addrs.len()
        invariant
            l == addrs@,
            k <= l.len(),
            out@ + pending(l, k as int) == registry_text(l),
        decreases l.len() - k,
    {
        let ghost before = out@;
        proof {
            reveal_strlit(",");
            reveal_strlit("\"");
        }
        if k > 0 {
            out.append(",");
        }
        let ghost open_at = out@;
        out.append("\"");
        let ghost opened = out@;
        assert(opened =~= open_at + seq!['"']);
        addrs[k].write_to(&mut out);
        let ghost body = out@;
        out.append("\"");
        proof {
            assert(out@ =~= body + seq!['"']);
            assert(k == 0 ==> open_at == before);
            assert(k > 0 ==> open_at =~= before + seq![',']);
            assert(l.skip(k as int).drop_first() =~= l.skip(k + 1));
            if k == 0 {
                assert(l.skip(1) =~= l.drop_first());
                assert(out@ =~= before + quoted(l[0]));
                assert(pending(l, 0) =~= quoted(l[0]) + pending(l, 1));
            } else {
                assert(out@ =~= before + seq![','] + quoted(l[k as int]));
                assert(pending(l, k as int) =~= seq![','] + quoted(l[k as int]) + pending(
                    l,
                    k + 1,
                ));
            }
            assert(out@ + pending(l, k + 1) =~= before + pending(l, k as int));
        }
        k = k + 1;
    }
    let ghost before = out@;
    proof {
        reveal_strlit("]");
    }
    out.append("]");
    proof {
        assert(l.skip(k as int) =~= Seq::<Endpoint>::empty());
        assert(pending(l, k as int) == seq![']']);
        assert(out@ =~= before + seq![']']);
    }
    out
}

proof fn lemma_list_rest_ascii(l: Seq<Endpoint>)
    ensures
        vstd::utf8::is_ascii_chars(list_rest(l)),
    decreases l.len(),
{
    broadcast use vstd::utf8::is_ascii_chars_concat;

    if l.len() > 0 {
        lemma_list_rest_ascii(l.drop_first());
        lemma_endpoint_text_chars(l[0]);
        assert(vstd::utf8::is_ascii_chars(seq![',']));
        assert(vstd::utf8::is_ascii_chars(seq!['"']));
        let q = quoted(l[0]);
        assert(vstd::utf8::is_ascii_chars(seq!['"'] + endpoint_text(l[0])));
        assert(vstd::utf8::is_ascii_chars(q));
        assert(vstd::utf8::is_ascii_chars(seq![','] + q));
    } else {
        assert(vstd::utf8::is_ascii_chars(seq![']']));
    }
}

/// Registry texts are ASCII.
proof fn lemma_registry_ascii(l: Seq<Endpoint>)
    ensures
        vstd::utf8::is_ascii_chars(registry_text(l)),
{
    broadcast use vstd::utf8::is_ascii_chars_concat;

    assert(vstd::utf8::is_ascii_chars(seq!['[']));
    assert(vstd::utf8::is_ascii_chars(seq![']']));
    if l.len() > 0 {
        lemma_list_rest_ascii(l.drop_first());
        lemma_endpoint_text_chars(l[0]);
        assert(vstd::utf8::is_ascii_chars(seq!['"']));
        assert(vstd::utf8::is_ascii_chars(seq!['"'] + endpoint_text(l[0])));
        assert(vstd::utf8::is_ascii_chars(quoted(l[0])));
        assert(vstd::utf8::is_ascii_chars(list_items(l)));
    }
}

/// Reads the list of addresses in a registry text, in order, duplicates kept.
pub fn parse_contacts(text: &str) -> (r: Result<Vec<Endpoint>, ReadError>)
    ensures
        match r {
            Ok(v) => text@ == registry_text(v@),
            Err(e) => e == ReadError::Malformed && forall|l: Seq<Endpoint>| #[trigger]
                registry_text(l) != text@,
        },
        forall|l: Seq<Endpoint>| #[trigger]
            registry_text(l) == text@ ==> r is Ok && r->Ok_0@ == l,
{
    if !text.is_ascii() {
        proof {
            assert forall|l: Seq<Endpoint>| #[trigger] registry_text(l) != text@ by {
                lemma_registry_ascii(l);
            }
        }
        return Err(ReadError::Malformed);
    }
    let b = text.as_bytes();
    proof {
        lemma_ascii_bytes(text);
    }
    match scan_list(b, Ghost(text@)) {
        Some(v) => {
            let written = serialize_contacts(&v);
            let own = text.to_owned();
            if written == own {
                Ok(v)
            } else {
                Err(ReadError::Malformed)
            }
        },
        None => Err(ReadError::Malformed),
    }
}

/// `a` and `b` hold the same addresses, whatever their order and repetitions.
pub open spec fn same_members(a: Seq<Endpoint>, b: Seq<Endpoint>) -> bool {
    forall|x: Endpoint| a.contains(x) <==> b.contains(x)
}

/// `v` is what a reader may hand back for `text`: the addresses of a list
/// whose registry text `text` is, each once.
pub open spec fn reads_back(text: Seq<char>, v: Seq<Endpoint>) -> bool {
    &&& v.no_duplicates()
    &&& exists|l: Seq<Endpoint>| #[trigger] registry_text(l) == text && same_members(v, l)
}

/// Whether some list has `text` as its registry text.
pub open spec fn well_formed_registry(text: Seq<char>) -> bool {
    exists|l: Seq<Endpoint>| #[trigger] registry_text(l) == text
}

/// The addresses of `l`, each once, in the order of their first appearance.
pub fn distinct_endpoints(l: &Vec<Endpoint>) -> (r: Vec<Endpoint>)
    ensures
        r@.no_duplicates(),
        same_members(r@, l@),
{
    let mut out: Vec<Endpoint> = Vec::new();
    let mut k: usize = 0;
    while k < l.len()
        invariant
            k <= l@.len(),
            out@.no_duplicates(),
            forall|x: Endpoint| out@.contains(x) <==> l@.take(k as int).contains(x),
        decreases l@.len() - k,
    {
        let x = l[k];
        let mut m: usize = 0;
        let mut seen = false;
        while m < out.len()
            invariant
                m <= out@.len(),
                seen <==> out@.take(m as int).contains(x),
            decreases out@.len() - m,
        {
            proof {
                assert(out@.take(m + 1) =~= out@.take(m as int).push(out@[m as int]));
                lemma_push_contains(out@.take(m as int), out@[m as int], x);
            }
            if out[m] == x {
                seen = true;
            }
            m = m + 1;
        }
        proof {
            assert(out@.take(m as int) =~= out@);
            assert(l@.take(k + 1) =~= l@.take(k as int).push(x));
            assert forall|y: Endpoint| #[trigger] l@.take(k + 1).contains(y) <==> (l@.take(
                k as int,
            ).contains(y) || y == x) by {
                lemma_push_contains(l@.take(k as int), x, y);
            }
        }
        if !seen {
            let ghost before = out@;
            out.push(x);
            proof {
                assert forall|i: int, j: int| 0 <= i < j < out@.len() implies out@[i]
                    != out@[j] by {
                    if j == before.len() {
                        assert(before.contains(before[i]));
                    }
                }
                assert forall|y: Endpoint| #[trigger] out@.contains(y) <==> (before.contains(y)
                    || y == x) by {
                    lemma_push_contains(before, x, y);
                }
            }
        }
        k = k + 1;
    }
    proof {
        assert(l@.take(k as int) =~= l@);
    }
    out
}

proof fn lemma_push_contains(s: Seq<Endpoint>, a: Endpoint, x: Endpoint)
    ensures
        s.push(a).contains(x) <==> (s.contains(x) || a == x),
{
    let t = s.push(a);
    if s.contains(x) {
        let i = choose|i: int| 0 <= i < s.len() && s[i] == x;
        assert(t[i] == x);
    }
    if a == x {
        assert(t[s.len() as int] == x);
    }
    if t.contains(x) {
        let i = choose|i: int| 0 <= i < t.len() && t[i] == x;
        if i < s.len() {
            assert(s[i] == x);
        }
    }
}

/// Reads the contact registry, given the file's text, or `None` where the file
/// is absent. The addresses come back each once.
pub fn read_registry(text: Option<&str>) -> (r: Result<ContactRegistry, ReadError>)
    ensures
        match text {
            None => r == Err::<ContactRegistry, ReadError>(ReadError::NotFound),
            Some(t) => match r {
                Ok(reg) => reads_back(t@, reg.addresses@),
                Err(e) => e == ReadError::Malformed && !well_formed_registry(t@),
            },
        },
        forall|l: Seq<Endpoint>|
            text is Some && #[trigger] registry_text(l) == text->0@ ==> r is Ok && same_members(
                r->Ok_0.addresses@,
                l,
            ),
{
    match text {
        None => Err(ReadError::NotFound),
        Some(t) => match parse_contacts(t) {
            Ok(v) => {
                let addresses = distinct_endpoints(&v);
                proof {
                    assert(registry_text(v@) == t@);
                    assert forall|l: Seq<Endpoint>| #[trigger]
                        registry_text(l) == t@ implies same_members(addresses@, l) by {
                        assert(v@ == l);
                    }
                }
                Ok(ContactRegistry { addresses })
            },
            Err(e) => Err(e),
        },
    }
}

/// A separator that neither prefix holds splits both sides alike.
proof fn lemma_sep_split(x1: Seq<char>, y1: Seq<char>, x2: Seq<char>, y2: Seq<char>, c: char)
    requires
        x1 + seq![c] + y1 == x2 + seq![c] + y2,
        forall|i: int| 0 <= i < x1.len() ==> x1[i] != c,
        forall|i: int| 0 <= i < x2.len() ==> x2[i] != c,
    ensures
        x1 == x2,
        y1 == y2,
{
    let s1 = x1 + seq![c] + y1;
    let s2 = x2 + seq![c] + y2;
    if x1.len() < x2.len() {
        assert(s1[x1.len() as int] == c);
        assert(s2[x1.len() as int] == x2[x1.len() as int]);
    } else if x2.len() < x1.len() {
        assert(s2[x2.len() as int] == c);
        assert(s1[x2.len() as int] == x1[x2.len() as int]);
    } else {
        assert(x1 =~= s1.subrange(0, x1.len() as int));
        assert(x2 =~= s2.subrange(0, x2.len() as int));
        assert(y1 =~= s1.subrange(x1.len() as int + 1, s1.len() as int));
        assert(y2 =~= s2.subrange(x2.len() as int + 1, s2.len() as int));
    }
}

proof fn lemma_decimal_sep(n: nat, c: char)
    requires
        !crate::decimal::is_digit(c),
    ensures
        forall|i: int| 0 <= i < decimal(n).len() ==> decimal(n)[i] != c,
{
    crate::decimal::lemma_decimal(n);
    assert forall|i: int| 0 <= i < decimal(n).len() implies decimal(n)[i] != c by {
        assert(crate::decimal::is_digit(decimal(n)[i]));
    }
}

proof fn lemma_decimal_injective(m: nat, n: nat)
    requires
        decimal(m) == decimal(n),
    ensures
        m == n,
{
    crate::decimal::lemma_decimal(m);
    crate::decimal::lemma_decimal(n);
}

/// Different endpoints have different texts.
pub proof fn lemma_endpoint_text_injective(e1: Endpoint, e2: Endpoint)
    requires
        endpoint_text(e1) == endpoint_text(e2),
    ensures
        e1 == e2,
{
    assert('.' as u32 == 46);
    assert(':' as u32 == 58);
    lemma_decimal_sep(e1.a as nat, '.');
    lemma_decimal_sep(e2.a as nat, '.');
    lemma_sep_split(decimal(e1.a as nat), second_part(e1), decimal(e2.a as nat), second_part(e2), '.');
    lemma_decimal_injective(e1.a as nat, e2.a as nat);
    lemma_decimal_sep(e1.b as nat, '.');
    lemma_decimal_sep(e2.b as nat, '.');
    lemma_sep_split(decimal(e1.b as nat), third_part(e1), decimal(e2.b as nat), third_part(e2), '.');
    lemma_decimal_injective(e1.b as nat, e2.b as nat);
    lemma_decimal_sep(e1.c as nat, '.');
    lemma_decimal_sep(e2.c as nat, '.');
    lemma_sep_split(decimal(e1.c as nat), port_part(e1), decimal(e2.c as nat), port_part(e2), '.');
    lemma_decimal_injective(e1.c as nat, e2.c as nat);
    lemma_decimal_sep(e1.d as nat, ':');
    lemma_decimal_sep(e2.d as nat, ':');
    lemma_sep_split(
        decimal(e1.d as nat),
        decimal(e1.port as nat),
        decimal(e2.d as nat),
        decimal(e2.port as nat),
        ':',
    );
    lemma_decimal_injective(e1.d as nat, e2.d as nat);
    lemma_decimal_injective(e1.port as nat, e2.port as nat);
}

/// `"E1"R1 == "E2"R2` splits into `E1 == E2` and `R1 == R2`.
proof fn lemma_quoted_split(e1: Endpoint, r1: Seq<char>, e2: Endpoint, r2: Seq<char>)
    requires
        quoted(e1) + r1 == quoted(e2) + r2,
    ensures
        e1 == e2,
        r1 == r2,
{
    let t1 = endpoint_text(e1);
    let t2 = endpoint_text(e2);
    let s1 = quoted(e1) + r1;
    let s2 = quoted(e2) + r2;
    assert(s1.drop_first() =~= t1 + seq!['"'] + r1);
    assert(s2.drop_first() =~= t2 + seq!['"'] + r2);
    lemma_endpoint_text_chars(e1);
    lemma_endpoint_text_chars(e2);
    assert forall|i: int| 0 <= i < t1.len() implies t1[i] != '"' by {
        assert(endpoint_char(t1[i]));
    }
    assert forall|i: int| 0 <= i < t2.len() implies t2[i] != '"' by {
        assert(endpoint_char(t2[i]));
    }
    lemma_sep_split(t1, r1, t2, r2, '"');
    lemma_endpoint_text_injective(e1, e2);
}

proof fn lemma_list_rest_injective(l1: Seq<Endpoint>, l2: Seq<Endpoint>)
    requires
        list_rest(l1) == list_rest(l2),
    ensures
        l1 == l2,
    decreases l1.len(),
{
    let s1 = list_rest(l1);
    let s2 = list_rest(l2);
    if l1.len() == 0 && l2.len() == 0 {
        assert(l1 =~= l2);
    } else if l1.len() == 0 {
        assert(s1[0] == ']');
        assert(s2[0] == ',');
    } else if l2.len() == 0 {
        assert(s2[0] == ']');
        assert(s1[0] == ',');
    } else {
        assert(s1.drop_first() =~= quoted(l1[0]) + list_rest(l1.drop_first()));
        assert(s2.drop_first() =~= quoted(l2[0]) + list_rest(l2.drop_first()));
        lemma_quoted_split(l1[0], list_rest(l1.drop_first()), l2[0], list_rest(l2.drop_first()));
        lemma_list_rest_injective(l1.drop_first(), l2.drop_first());
        assert(l1 =~= seq![l1[0]] + l1.drop_first());
        assert(l2 =~= seq![l2[0]] + l2.drop_first());
    }
}

/// A registry text names exactly one list.
pub proof fn lemma_registry_text_injective(l1: Seq<Endpoint>, l2: Seq<Endpoint>)
    requires
        registry_text(l1) == registry_text(l2),
    ensures
        l1 == l2,
{
    let s1 = list_items(l1);
    let s2 = list_items(l2);
    assert(registry_text(l1).drop_first() =~= s1);
    assert(registry_text(l2).drop_first() =~= s2);
    if l1.len() == 0 && l2.len() == 0 {
        assert(l1 =~= l2);
    } else if l1.len() == 0 {
        assert(s1[0] == ']');
        assert(s2[0] == '"');
    } else if l2.len() == 0 {
        assert(s2[0] == ']');
        assert(s1[0] == '"');
    } else {
        lemma_quoted_split(l1[0], list_rest(l1.drop_first()), l2[0], list_rest(l2.drop_first()));
        lemma_list_rest_injective(l1.drop_first(), l2.drop_first());
        assert(l1 =~= seq![l1[0]] + l1.drop_first());
        assert(l2 =~= seq![l2[0]] + l2.drop_first());
    }
}

/// Writing a list of addresses as a registry and reading it back gives the
/// same addresses, each once, whatever their order: what the reader may hand
/// back for the written text holds exactly the members of the list.
pub proof fn lemma_registry_round_trip(l: Seq<Endpoint>, v: Seq<Endpoint>)
    requires
        reads_back(registry_text(l), v),
    ensures
        v.no_duplicates(),
        same_members(v, l),
        well_formed_registry(registry_text(l)),
{
    let w = choose|w: Seq<Endpoint>| #[trigger]
        registry_text(w) == registry_text(l) && same_members(v, w);
    lemma_registry_text_injective(w, l);
}

} // verus!
