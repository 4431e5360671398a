use vstd::prelude::*;

verus! {

/// An IPv4 address `a.b.c.d`, held as its four octets in network order.
#[derive(Clone, Copy, Debug, PartialEq, Eq, Structural)]
pub struct Ipv4Addr {
    pub a: u8,
    pub b: u8,
    pub c: u8,
    pub d: u8,
}

impl Ipv4Addr {
    /// The address `a.b.c.d`.
    pub fn new(a: u8, b: u8, c: u8, d: u8) -> (r: Ipv4Addr)
        ensures
            r == (Ipv4Addr { a, b, c, d }),
    {
        Ipv4Addr { a, b, c, d }
    }

    /// The address as one 32-bit number, first octet most significant.
    pub open spec fn spec_to_bits(self) -> u32 {
        ((self.a as u32) << 24u32) | ((self.b as u32) << 16u32) | ((self.c as u32) << 8u32) | (
        self.d as u32)
    }

    /// The address as one 32-bit number, first octet most significant.
    pub fn to_bits(&self) -> (r: u32)
        ensures
            r == self.spec_to_bits(),
            r as int == self.a * 0x1000000 + self.b * 0x10000 + self.c * 0x100 + self.d,
    {
        let (a, b, c, d) = (self.a, self.b, self.c, self.d);
        let r = ((a as u32) << 24u32) | ((b as u32) << 16u32) | ((c as u32) << 8u32) | (d as u32);
        assert(r as int == a * 0x1000000 + b * 0x10000 + c * 0x100 + d) by (bit_vector)
            requires
                r == ((a as u32) << 24u32) | ((b as u32) << 16u32) | ((c as u32) << 8u32) | (
                d as u32),
        ;
        r
    }

    /// The four octets, first one first.
    pub fn octets(&self) -> (r: [u8; 4])
        ensures
            r@ == seq![self.a, self.b, self.c, self.d],
    {
        let r = [self.a, self.b, self.c, self.d];
        assert(r@ =~= seq![self.a, self.b, self.c, self.d]);
        r
    }
}

/// Two addresses with the same 32-bit number are the same address.
pub proof fn lemma_bits_injective(x: Ipv4Addr, y: Ipv4Addr)
    requires
        x.spec_to_bits() == y.spec_to_bits(),
    ensures
        x == y,
{
    let (xa, xb, xc, xd) = (x.a, x.b, x.c, x.d);
    let (ya, yb, yc, yd) = (y.a, y.b, y.c, y.d);
    assert(xa == ya && xb == yb && xc == yc && xd == yd) by (bit_vector)
        requires
            ((xa as u32) << 24u32) | ((xb as u32) << 16u32) | ((xc as u32) << 8u32) | (xd as u32)
                == ((ya as u32) << 24u32) | ((yb as u32) << 16u32) | ((yc as u32) << 8u32) | (
            yd as u32),
    ;
}


/// `c` is one of the ASCII digits `0`..=`9`.
pub open spec fn is_ascii_digit(c: char) -> bool {
    '0' <= c && c <= '9'
}

/// The number that a run of ASCII digits spells in base ten.
pub open spec fn decimal_value(s: Seq<char>) -> int
    decreases s.len(),
{
    if s.len() == 0 {
        0
    } else {
        10 * decimal_value(s.drop_last()) + (s.last() as int - '0' as int)
    }
}

/// One field of a dotted quad: one to three ASCII digits, no leading zero
/// unless the field is `0` itself, and a value of at most 255.
pub open spec fn is_octet_text(s: Seq<char>) -> bool {
    &&& 1 <= s.len() <= 3
    &&& forall|i: int| 0 <= i < s.len() ==> is_ascii_digit(#[trigger] s[i])
    &&& (s.len() > 1 ==> s[0] != '0')
    &&& decimal_value(s) <= 255
}

/// The pieces of `s` between its `.` characters, as `str::split('.')` gives
/// them (always at least one piece).
pub open spec fn dot_fields(s: Seq<char>) -> Seq<Seq<char>>
    decreases s.len(),
{
    if s.len() == 0 {
        seq![Seq::<char>::empty()]
    } else {
        let prev = dot_fields(s.drop_last());
        if s.last() == '.' {
            prev.push(Seq::<char>::empty())
        } else {
            prev.update(prev.len() - 1, prev.last().push(s.last()))
        }
    }
}

/// The address that the text `s` writes in dotted-quad notation, if any:
/// exactly four fields separated by `.`, each an octet as
/// [`is_octet_text`] describes.
pub open spec fn spec_parse_ipv4(s: Seq<char>) -> Option<Ipv4Addr> {
    let f = dot_fields(s);
    if f.len() == 4 && forall|i: int| 0 <= i < 4 ==> is_octet_text(#[trigger] f[i]) {
        Some(
            Ipv4Addr {
                a: decimal_value(f[0]) as u8,
                b: decimal_value(f[1]) as u8,
                c: decimal_value(f[2]) as u8,
                d: decimal_value(f[3]) as u8,
            },
        )
    } else {
        None
    }
}

proof fn lemma_dot_fields_nonempty(s: Seq<char>)
    ensures
        dot_fields(s).len() >= 1,
    decreases s.len(),
{
    if s.len() > 0 {
        lemma_dot_fields_nonempty(s.drop_last());
    }
}

proof fn lemma_decimal_bound(s: Seq<char>)
    requires
        forall|i: int| 0 <= i < s.len() ==> is_ascii_digit(#[trigger] s[i]),
    ensures
        0 <= decimal_value(s),
        s.len() <= 3 ==> decimal_value(s) < 1000,
        s.len() <= 2 ==> decimal_value(s) < 100,
        s.len() <= 1 ==> decimal_value(s) < 10,
    decreases s.len(),
{
    if s.len() > 0 {
        let p = s.drop_last();
        assert forall|i: int| 0 <= i < p.len() implies is_ascii_digit(#[trigger] p[i]) by {
            assert(p[i] == s[i]);
        }
        lemma_decimal_bound(p);
        assert(is_ascii_digit(s[s.len() - 1]));
    }
}

/// The octet that the field `f` writes, if it is one.
fn octet_from_text(f: &Vec<char>) -> (r: Option<u8>)
    ensures
        r == (if is_octet_text(f@) {
            Some(decimal_value(f@) as u8)
        } else {
            None
        }),
{
    let n = f.len();
    if n == 0 || n > 3 {
        return None;
    }
    if n > 1 && f[0] == '0' {
        return None;
    }
    let mut value: u32 = 0;
    let mut i: usize = 0;
    while i < n
        invariant
            n == f@.len(),
            1 <= n <= 3,
            i <= n,
            forall|j: int| 0 <= j < i ==> is_ascii_digit(#[trigger] f@[j]),
            value as int == decimal_value(f@.take(i as int)),
            value < 1000,
        decreases n - i,
    {
        let c = f[i];
        if !('0' <= c && c <= '9') {
            assert(!is_ascii_digit(f@[i as int]));
            return None;
        }
        proof {
            let t = f@.take(i as int + 1);
            assert(t.drop_last() =~= f@.take(i as int));
            assert(t.last() == c);
            lemma_decimal_bound(t);
        }
        let digit = (c as u32) - ('0' as u32);
        value = value * 10 + digit;
        i = i + 1;
    }
    assert(f@.take(n as int) =~= f@);
    if value > 255 {
        return None;
    }
    Some(value as u8)
}

/// Reads the characters `s` as an IPv4 address in dotted-quad notation, the way the
/// standard library's `Ipv4Addr` parser accepts it: four decimal octets of
/// at most three digits each, separated by `.`, without leading zeros and
/// without anything else around them.
pub fn parse_ipv4_chars(s: &Vec<char>) -> (r: Option<Ipv4Addr>)
    ensures
        r == spec_parse_ipv4(s@),
{
    let n = s.len();
    let mut done: Vec<Vec<char>> = Vec::new();
    let mut cur: Vec<char> = Vec::new();
    let mut i: usize = 0;
    while i < n
        invariant
            n == s@.len(),
            i <= n,
            dot_fields(s@.take(i as int)) =~= done@.map_values(|v: Vec<char>| v@).push(cur@),
        decreases n - i,
    {
        let c = s[i];
        proof {
            let t = s@.take(i as int + 1);
            assert(t.drop_last() =~= s@.take(i as int));
            assert(t.last() == c);
        }
        if c == '.' {
            let ghost old_done = done@.map_values(|v: Vec<char>| v@);
            let finished = cur;
            cur = Vec::new();
            done.push(finished);
            assert(done@.map_values(|v: Vec<char>| v@) =~= old_done.push(finished@));
        } else {
            cur.push(c);
        }
        i = i + 1;
    }
    assert(s@.take(n as int) =~= s@);
    let ghost fields = dot_fields(s@);
    if done.len() != 3 {
        assert(fields.len() != 4);
        return None;
    }
    assert(fields[0] == done@[0]@);
    assert(fields[1] == done@[1]@);
    assert(fields[2] == done@[2]@);
    assert(fields[3] == cur@);
    let a = octet_from_text(&done[0]);
    let b = octet_from_text(&done[1]);
    let c = octet_from_text(&done[2]);
    let d = octet_from_text(&cur);
    match (a, b, c, d) {
        (Some(a), Some(b), Some(c), Some(d)) => {
            assert(forall|i: int| 0 <= i < 4 ==> is_octet_text(#[trigger] fields[i])) by {
                assert(is_octet_text(fields[0]) && is_octet_text(fields[1]));
                assert(is_octet_text(fields[2]) && is_octet_text(fields[3]));
            }
            Some(Ipv4Addr { a, b, c, d })
        },
        _ => {
            assert(!is_octet_text(fields[0]) || !is_octet_text(fields[1]) || !is_octet_text(
                fields[2],
            ) || !is_octet_text(fields[3]));
            None
        },
    }
}


/// Parses `s` as an IPv4 address in dotted-quad notation (see
/// [`parse_ipv4_chars`]).
pub fn parse_ipv4(s: &str) -> (r: Option<Ipv4Addr>)
    ensures
        r == spec_parse_ipv4(s@),
{
    parse_ipv4_chars(&crate::text::chars_of(s))
}


/// The ASCII digit for `d`, which is below ten.
pub open spec fn digit_char(d: u8) -> char {
    ('0' as int + d) as char
}

/// The decimal text of `v`, without leading zeros.
pub open spec fn decimal_text(v: u8) -> Seq<char> {
    if v >= 100 {
        seq![digit_char(v / 100), digit_char((v / 10) % 10), digit_char(v % 10)]
    } else if v >= 10 {
        seq![digit_char(v / 10), digit_char(v % 10)]
    } else {
        seq![digit_char(v)]
    }
}

/// The dotted-quad text of `ip`, such as `192.168.0.1`.
pub open spec fn spec_dotted(ip: Ipv4Addr) -> Seq<char> {
    decimal_text(ip.a) + seq!['.'] + decimal_text(ip.b) + seq!['.'] + decimal_text(ip.c) + seq![
        '.',
    ] + decimal_text(ip.d)
}

/// The one-character text of the digit `d`.
fn digit_str(d: u8) -> (r: &'static str)
    requires
        d < 10,
    ensures
        r@ == seq![digit_char(d)],
{
    proof {
        reveal_strlit("0");
        reveal_strlit("1");
        reveal_strlit("2");
        reveal_strlit("3");
        reveal_strlit("4");
        reveal_strlit("5");
        reveal_strlit("6");
        reveal_strlit("7");
        reveal_strlit("8");
        reveal_strlit("9");
    }
    if d == 0 {
        "0"
    } else if d == 1 {
        "1"
    } else if d == 2 {
        "2"
    } else if d == 3 {
        "3"
    } else if d == 4 {
        "4"
    } else if d == 5 {
        "5"
    } else if d == 6 {
        "6"
    } else if d == 7 {
        "7"
    } else if d == 8 {
        "8"
    } else {
        "9"
    }
}

/// Append the decimal text of `v` to `out`.
fn append_decimal(out: &mut String, v: u8)
    ensures
        final(out)@ == old(out)@ + decimal_text(v),
{
    let ghost start = out@;
    if v >= 100 {
        out.append(digit_str(v / 100));
        out.append(digit_str((v / 10) % 10));
        out.append(digit_str(v % 10));
    } else if v >= 10 {
        out.append(digit_str(v / 10));
        out.append(digit_str(v % 10));
    } else {
        out.append(digit_str(v));
    }
    assert(out@ =~= start + decimal_text(v));
}

impl Ipv4Addr {
    /// The dotted-quad text of the address, such as `192.168.0.1`, as
    /// `Display` writes it for `std::net::Ipv4Addr`.
    pub fn to_dotted(&self) -> (r: String)
        ensures
            r@ == spec_dotted(*self),
    {
        proof {
            reveal_strlit(".");
        }
        let mut out = String::new();
        append_decimal(&mut out, self.a);
        out.append(".");
        append_decimal(&mut out, self.b);
        out.append(".");
        append_decimal(&mut out, self.c);
        out.append(".");
        append_decimal(&mut out, self.d);
        assert(out@ =~= spec_dotted(*self));
        out
    }
}

proof fn lemma_dot_fields_without_dot(s: Seq<char>)
    requires
        !s.contains('.'),
    ensures
        dot_fields(s) == seq![s],
    decreases s.len(),
{
    if s.len() == 0 {
        assert(s =~= Seq::<char>::empty());
    } else {
        let p = s.drop_last();
        assert(!p.contains('.')) by {
            if p.contains('.') {
                let i = choose|i: int| 0 <= i < p.len() && p[i] == '.';
                assert(s[i] == '.');
            }
        }
        lemma_dot_fields_without_dot(p);
        assert(s.last() != '.') by {
            assert(s[s.len() - 1] == s.last());
        }
        assert(p.push(s.last()) =~= s);
        let prev = dot_fields(p);
        assert(prev.len() == 1 && prev.last() == p);
        assert(dot_fields(s) == prev.update(0, p.push(s.last())));
        assert(dot_fields(s) =~= seq![s]);
    }
}

proof fn lemma_dot_fields_join(s: Seq<char>, t: Seq<char>)
    ensures
        dot_fields(s + seq!['.'] + t) == dot_fields(s) + dot_fields(t),
    decreases t.len(),
{
    let x = s + seq!['.'] + t;
    if t.len() == 0 {
        assert(x.drop_last() =~= s);
        assert(dot_fields(x) =~= dot_fields(s) + dot_fields(t));
    } else {
        let tp = t.drop_last();
        assert(x.drop_last() =~= s + seq!['.'] + tp);
        lemma_dot_fields_join(s, tp);
        lemma_dot_fields_nonempty(tp);
        lemma_dot_fields_nonempty(s);
        assert(x.last() == t.last());
        assert(dot_fields(x) =~= dot_fields(s) + dot_fields(t));
    }
}

proof fn lemma_digit_char(d: u8)
    requires
        d < 10,
    ensures
        digit_char(d) as int == '0' as int + d,
        is_ascii_digit(digit_char(d)),
        digit_char(d) != '.',
{
}

proof fn lemma_decimal_text(v: u8)
    ensures
        is_octet_text(decimal_text(v)),
        decimal_value(decimal_text(v)) == v,
        !decimal_text(v).contains('.'),
{
    let t = decimal_text(v);
    assert(decimal_value(Seq::<char>::empty()) == 0);
    if v >= 100 {
        let (d0, d1, d2) = (v / 100, (v / 10) % 10, v % 10);
        lemma_digit_char(d0);
        lemma_digit_char(d1);
        lemma_digit_char(d2);
        let t1 = seq![digit_char(d0)];
        let t2 = seq![digit_char(d0), digit_char(d1)];
        assert(t.drop_last() =~= t2);
        assert(t2.drop_last() =~= t1);
        assert(t1.drop_last() =~= Seq::<char>::empty());
        assert(decimal_value(t1) == d0);
        assert(decimal_value(t2) == 10 * d0 + d1);
        assert(d0 * 100 + d1 * 10 + d2 == v);
    } else if v >= 10 {
        let (d0, d1) = (v / 10, v % 10);
        lemma_digit_char(d0);
        lemma_digit_char(d1);
        let t1 = seq![digit_char(d0)];
        assert(t.drop_last() =~= t1);
        assert(t1.drop_last() =~= Seq::<char>::empty());
        assert(decimal_value(t1) == d0);
    } else {
        lemma_digit_char(v);
        assert(t.drop_last() =~= Seq::<char>::empty());
    }
    assert forall|i: int| 0 <= i < t.len() implies is_ascii_digit(#[trigger] t[i]) by {}
    if t.contains('.') {
        let i = choose|i: int| 0 <= i < t.len() && t[i] == '.';
    }
}

/// The dotted-quad text of an address holds only ASCII digits and `.`, and
/// begins and ends with a digit.
pub proof fn lemma_dotted_chars(ip: Ipv4Addr)
    ensures
        ({
            let d = spec_dotted(ip);
            &&& d.len() > 0
            &&& is_ascii_digit(d[0])
            &&& is_ascii_digit(d.last())
            &&& forall|i: int| 0 <= i < d.len() ==> is_ascii_digit(#[trigger] d[i]) || d[i] == '.'
        }),
{
    let (ta, tb, tc, td) = (
        decimal_text(ip.a),
        decimal_text(ip.b),
        decimal_text(ip.c),
        decimal_text(ip.d),
    );
    lemma_decimal_text(ip.a);
    lemma_decimal_text(ip.b);
    lemma_decimal_text(ip.c);
    lemma_decimal_text(ip.d);
    let d = spec_dotted(ip);
    assert(d[0] == ta[0]);
    assert(d.last() == td[td.len() - 1]);
    assert forall|i: int| 0 <= i < d.len() implies is_ascii_digit(#[trigger] d[i]) || d[i]
        == '.' by {
        let la = ta.len() as int;
        let lb = tb.len() as int;
        let lc = tc.len() as int;
        if i < la {
            assert(d[i] == ta[i]);
        } else if i == la {
        } else if i < la + 1 + lb {
            assert(d[i] == tb[i - la - 1]);
        } else if i == la + 1 + lb {
        } else if i < la + lb + 2 + lc {
            assert(d[i] == tc[i - la - lb - 2]);
        } else if i == la + lb + 2 + lc {
        } else {
            assert(d[i] == td[i - la - lb - lc - 3]);
        }
    }
}

/// Reading the dotted-quad text of an address gives the address back.
pub proof fn law_dotted_text_parses_back(ip: Ipv4Addr)
    ensures
        spec_parse_ipv4(spec_dotted(ip)) == Some(ip),
{
    let (ta, tb, tc, td) = (
        decimal_text(ip.a),
        decimal_text(ip.b),
        decimal_text(ip.c),
        decimal_text(ip.d),
    );
    lemma_decimal_text(ip.a);
    lemma_decimal_text(ip.b);
    lemma_decimal_text(ip.c);
    lemma_decimal_text(ip.d);
    lemma_dot_fields_without_dot(ta);
    lemma_dot_fields_without_dot(tb);
    lemma_dot_fields_without_dot(tc);
    lemma_dot_fields_without_dot(td);
    let s1 = ta + seq!['.'] + tb;
    let s2 = s1 + seq!['.'] + tc;
    let s3 = s2 + seq!['.'] + td;
    lemma_dot_fields_join(ta, tb);
    lemma_dot_fields_join(s1, tc);
    lemma_dot_fields_join(s2, td);
    assert(s3 =~= spec_dotted(ip));
    let f = dot_fields(s3);
    assert(f =~= seq![ta, tb, tc, td]);
    assert(forall|i: int| 0 <= i < 4 ==> is_octet_text(#[trigger] f[i]));
}

} // verus!
