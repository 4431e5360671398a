use vstd::prelude::*;

use crate::ipv4::{
    law_dotted_text_parses_back, lemma_dotted_chars, lemma_bits_injective, parse_ipv4_chars,
    spec_dotted, spec_parse_ipv4, Ipv4Addr,
};
use crate::text::{
    before_first, chars_of, is_whitespace, last_index_of, lemma_last_index_of, prefix_before,
    spec_trim, spec_trim_end, spec_trim_start, trim,
};

verus! {

broadcast use vstd::std_specs::hash::group_hash_axioms;

/// The scheme prefix `https://`.
pub open spec fn https_prefix() -> Seq<char> {
    seq!['h', 't', 't', 'p', 's', ':', '/', '/']
}

/// The scheme prefix `http://`.
pub open spec fn http_prefix() -> Seq<char> {
    seq!['h', 't', 't', 'p', ':', '/', '/']
}

/// `p` is a prefix of `s`.
pub open spec fn has_prefix(s: Seq<char>, p: Seq<char>) -> bool {
    p.len() <= s.len() && s.take(p.len() as int) == p
}

/// `s` without a leading `https://` or, failing that, `http://`.
pub open spec fn spec_strip_scheme(s: Seq<char>) -> Seq<char> {
    if has_prefix(s, https_prefix()) {
        s.skip(https_prefix().len() as int)
    } else if has_prefix(s, http_prefix()) {
        s.skip(http_prefix().len() as int)
    } else {
        s
    }
}

/// `s` without a trailing `:<port>`: the text after the last `:` must be
/// one or more ASCII digits, and then it goes together with that `:`.
pub open spec fn spec_strip_port(s: Seq<char>) -> Seq<char> {
    let k = last_index_of(s, ':');
    if k >= 0 && k + 1 < s.len() && forall|j: int| k < j < s.len() ==> ('0' <= #[trigger] s[j]
        && s[j] <= '9') {
        s.take(k)
    } else {
        s
    }
}

/// The text of a target line that is left for parsing: what stands before
/// the first `#`, trimmed of white space.
pub open spec fn target_text(line: Seq<char>) -> Seq<char> {
    spec_trim(prefix_before(line, '#'))
}

/// The address that one raw line names, if it names one: the line's text
/// before any `#` comment, trimmed, without scheme and port, read as a
/// dotted quad. Lines that are empty after that, or that hold a hostname or
/// anything else, name none.
pub open spec fn line_target(line: Seq<char>) -> Option<Ipv4Addr> {
    let t = target_text(line);
    if t.len() == 0 {
        None
    } else {
        spec_parse_ipv4(spec_strip_port(spec_strip_scheme(t)))
    }
}

/// The addresses that the lines name, in line order, repeats included.
pub open spec fn line_targets(lines: Seq<Seq<char>>) -> Seq<Ipv4Addr>
    decreases lines.len(),
{
    if lines.len() == 0 {
        Seq::<Ipv4Addr>::empty()
    } else {
        let prev = line_targets(lines.drop_last());
        match line_target(lines.last()) {
            Some(a) => prev.push(a),
            None => prev,
        }
    }
}

/// `s` with every element after its first occurrence dropped.
pub open spec fn first_occurrences<A>(s: Seq<A>) -> Seq<A>
    decreases s.len(),
{
    if s.len() == 0 {
        Seq::<A>::empty()
    } else {
        let prev = first_occurrences(s.drop_last());
        if prev.contains(s.last()) {
            prev
        } else {
            prev.push(s.last())
        }
    }
}

/// The targets that a list of raw lines yields: each address that some line
/// names, once, in the order of its first line.
pub open spec fn spec_parse_targets(lines: Seq<Seq<char>>) -> Seq<Ipv4Addr> {
    first_occurrences(line_targets(lines))
}

/// The text of each line.
pub open spec fn lines_view(lines: Seq<String>) -> Seq<Seq<char>> {
    lines.map_values(|l: String| l@)
}

/// Some line holds something other than white space.
pub open spec fn has_content(lines: Seq<Seq<char>>) -> bool {
    exists|i: int| 0 <= i < lines.len() && spec_trim(#[trigger] lines[i]).len() > 0
}

fn starts_with(v: &Vec<char>, p: &[char]) -> (r: bool)
    ensures
        r == has_prefix(v@, p@),
{
    if p.len() > v.len() {
        return false;
    }
    let mut i: usize = 0;
    while i < p.len()
        invariant
            p@.len() <= v@.len(),
            i <= p@.len(),
            forall|j: int| 0 <= j < i ==> v@[j] == p@[j],
        decreases p@.len() - i,
    {
        if v[i] != p[i] {
            assert(v@.take(p@.len() as int)[i as int] != p@[i as int]);
            return false;
        }
        i = i + 1;
    }
    assert(v@.take(p@.len() as int) =~= p@);
    true
}

/// Strip a leading "https://" or "http://" scheme from the input, if present.
pub fn strip_scheme(input: &str) -> (r: &str)
    ensures
        r@ == spec_strip_scheme(input@),
{
    let v = chars_of(input);
    let https = ['h', 't', 't', 'p', 's', ':', '/', '/'];
    let http = ['h', 't', 't', 'p', ':', '/', '/'];
    assert(https@ =~= https_prefix());
    assert(http@ =~= http_prefix());
    let n = v.len();
    if starts_with(&v, &https) {
        input.substring_char(8, n)
    } else if starts_with(&v, &http) {
        input.substring_char(7, n)
    } else {
        assert(input@.subrange(0, n as int) =~= input@);
        input.substring_char(0, n)
    }
}

/// Strip a trailing ":<port>" suffix from the input, if present.
pub fn strip_port(input: &str) -> (r: &str)
    ensures
        r@ == spec_strip_port(input@),
{
    let v = chars_of(input);
    let n = v.len();
    assert(input@.take(n as int) =~= input@);
    let mut k: usize = n;
    while k > 0 && v[k - 1] != ':'
        invariant
            n == input@.len(),
            v@ == input@,
            k <= n,
            last_index_of(input@, ':') == last_index_of(input@.take(k as int), ':'),
        decreases k,
    {
        assert(input@.take(k as int).drop_last() =~= input@.take(k as int - 1));
        k = k - 1;
    }
    proof {
        lemma_last_index_of(input@, ':');
    }
    if k == 0 || k == n {
        assert(input@.subrange(0, n as int) =~= input@);
        return input.substring_char(0, n);
    }
    let colon = k - 1;
    assert(last_index_of(input@, ':') == colon);
    let mut j: usize = k;
    while j < n
        invariant
            n == input@.len(),
            v@ == input@,
            k <= j <= n,
            colon + 1 == k,
            last_index_of(input@, ':') == colon as int,
            forall|t: int| k <= t < j ==> ('0' <= #[trigger] input@[t] && input@[t] <= '9'),
        decreases n - j,
    {
        let c = v[j];
        if !('0' <= c && c <= '9') {
            assert(!('0' <= input@[j as int] && input@[j as int] <= '9'));
            assert(input@.subrange(0, n as int) =~= input@);
            return input.substring_char(0, n);
        }
        j = j + 1;
    }
    input.substring_char(0, colon)
}

/// The address that one raw line names, if any.
fn target_of_line(line: &str) -> (r: Option<Ipv4Addr>)
    ensures
        r == line_target(line@),
{
    // Cut an inline comment starting with '#', then trim surrounding white space.
    let without_comment = trim(before_first(line, '#'));
    if without_comment.is_empty() {
        return None;
    }
    // Remove a leading "http://" or "https://" scheme, then a trailing port.
    let without_scheme = strip_scheme(without_comment);
    let without_port = strip_port(without_scheme);
    parse_ipv4_chars(&chars_of(without_port))
}

/// Turn raw lines into a deduplicated list of valid IPv4 targets.
///
/// Each line is cut at its first `#`, trimmed, and stripped of an
/// `http://`/`https://` scheme and a trailing `:<port>`; what is left must
/// be a dotted-quad IPv4 address, or the line is skipped. Only the first
/// occurrence of each address is kept.
pub fn parse_targets(raw_lines: Vec<String>) -> (r: Vec<Ipv4Addr>)
    ensures
        r@ == spec_parse_targets(lines_view(raw_lines@)),
{
    let ghost lines = lines_view(raw_lines@);
    let mut seen: std::collections::HashSet<u32> = std::collections::HashSet::new();
    let mut targets: Vec<Ipv4Addr> = Vec::new();
    let n = raw_lines.len();
    let mut i: usize = 0;
    while i < n
        invariant
            n == raw_lines@.len(),
            lines == lines_view(raw_lines@),
            i <= n,
            targets@ == spec_parse_targets(lines.take(i as int)),
            forall|k: u32|
                seen@.contains(k) <==> exists|j: int|
                    0 <= j < targets@.len() && (#[trigger] targets@[j]).spec_to_bits() == k,
        decreases n - i,
    {
        let ghost prev = targets@;
        let ghost taken = lines.take(i as int + 1);
        assert(taken.drop_last() =~= lines.take(i as int));
        assert(taken.last() == raw_lines@[i as int]@);
        let ghost cands = line_targets(lines.take(i as int));
        match target_of_line(raw_lines[i].as_str()) {
            None => {
                assert(line_targets(taken) == cands);
            },
            Some(ip) => {
                assert(line_targets(taken) == cands.push(ip));
                assert(cands.push(ip).drop_last() =~= cands);
                let bits = ip.to_bits();
                proof {
                    if prev.contains(ip) {
                        let j = choose|j: int| 0 <= j < prev.len() && prev[j] == ip;
                        assert(seen@.contains(prev[j].spec_to_bits()));
                    } else {
                        assert forall|j: int| 0 <= j < prev.len() implies (
                        #[trigger] prev[j]).spec_to_bits() != bits by {
                            if prev[j].spec_to_bits() == bits {
                                lemma_bits_injective(prev[j], ip);
                            }
                        }
                    }
                }
                if seen.insert(bits) {
                    targets.push(ip);
                    assert forall|k: u32|
                        seen@.contains(k) <==> exists|j: int|
                            0 <= j < targets@.len() && (#[trigger] targets@[j]).spec_to_bits()
                                == k by {
                        if k == bits {
                            assert(targets@[prev.len() as int] == ip);
                        } else if seen@.contains(k) {
                            let j = choose|j: int|
                                0 <= j < prev.len() && (#[trigger] prev[j]).spec_to_bits() == k;
                            assert(targets@[j] == prev[j]);
                        }
                    }
                }
            },
        }
        i = i + 1;
    }
    assert(lines.take(n as int) =~= lines);
    targets
}

/// Validate and clean raw input lines into a deduplicated list of IPv4
/// targets. Returns `None` if there are no lines or all of them are empty
/// or white space.
pub fn read_targets(raw_lines: Vec<String>) -> (r: Option<Vec<Ipv4Addr>>)
    ensures
        r is None <==> !has_content(lines_view(raw_lines@)),
        r matches Some(t) ==> t@ == spec_parse_targets(lines_view(raw_lines@)),
{
    let ghost lines = lines_view(raw_lines@);
    let n = raw_lines.len();
    let mut i: usize = 0;
    let mut found = false;
    while i < n && !found
        invariant
            n == raw_lines@.len(),
            lines == lines_view(raw_lines@),
            i <= n,
            found ==> has_content(lines),
            !found ==> forall|j: int| 0 <= j < i ==> spec_trim(#[trigger] lines[j]).len() == 0,
        decreases n - i + (if found { 0int } else { 1int }),
    {
        assert(lines[i as int] == raw_lines@[i as int]@);
        if !trim(raw_lines[i].as_str()).is_empty() {
            found = true;
        }
        i = i + 1;
    }
    if !found {
        return None;
    }
    Some(parse_targets(raw_lines))
}


/// Keeping first occurrences leaves no element twice.
pub proof fn lemma_first_occurrences_distinct<A>(s: Seq<A>)
    ensures
        first_occurrences(s).no_duplicates(),
    decreases s.len(),
{
    if s.len() > 0 {
        lemma_first_occurrences_distinct(s.drop_last());
    }
}

/// Keeping first occurrences loses no element and adds none.
pub proof fn lemma_first_occurrences_contains<A>(s: Seq<A>, x: A)
    ensures
        first_occurrences(s).contains(x) <==> s.contains(x),
    decreases s.len(),
{
    if s.len() > 0 {
        let p = s.drop_last();
        lemma_first_occurrences_contains(p, x);
        let fp = first_occurrences(p);
        if s.contains(x) && x != s.last() {
            let i = choose|i: int| 0 <= i < s.len() && s[i] == x;
            assert(p[i] == x);
        }
        if p.contains(x) {
            let i = choose|i: int| 0 <= i < p.len() && p[i] == x;
            assert(s[i] == x);
        }
        if fp.contains(x) && !fp.contains(s.last()) {
            let i = choose|i: int| 0 <= i < fp.len() && fp[i] == x;
            assert(fp.push(s.last())[i] == x);
        }
        if !fp.contains(s.last()) && x == s.last() {
            assert(fp.push(s.last())[fp.len() as int] == x);
            assert(s[s.len() - 1] == x);
        }
        if !fp.contains(s.last()) && fp.push(s.last()).contains(x) && x != s.last() {
            let i = choose|i: int| 0 <= i < fp.len() + 1 && fp.push(s.last())[i] == x;
            assert(fp[i] == x);
        }
    }
}

/// An address is among the lines' addresses exactly when some line names it.
pub proof fn lemma_line_targets_contains(lines: Seq<Seq<char>>, ip: Ipv4Addr)
    ensures
        line_targets(lines).contains(ip) <==> exists|i: int|
            0 <= i < lines.len() && line_target(#[trigger] lines[i]) == Some(ip),
    decreases lines.len(),
{
    if lines.len() > 0 {
        let p = lines.drop_last();
        lemma_line_targets_contains(p, ip);
        let lp = line_targets(p);
        if lp.contains(ip) {
            let i = choose|i: int| 0 <= i < p.len() && line_target(#[trigger] p[i]) == Some(ip);
            assert(lines[i] == p[i]);
            let k = choose|k: int| 0 <= k < lp.len() && lp[k] == ip;
            if line_target(lines.last()) is Some {
                assert(lp.push(line_target(lines.last())->0)[k] == ip);
            }
        }
        if exists|i: int| 0 <= i < lines.len() && line_target(#[trigger] lines[i]) == Some(ip) {
            let i = choose|i: int| 0 <= i < lines.len() && line_target(#[trigger] lines[i]) == Some(
                ip,
            );
            if i < lines.len() - 1 {
                assert(p[i] == lines[i]);
            } else {
                assert(lp.push(ip)[lp.len() as int] == ip);
            }
        }
        if line_targets(lines).contains(ip) && !lp.contains(ip) {
            let k = choose|k: int|
                0 <= k < line_targets(lines).len() && line_targets(lines)[k] == ip;
            if line_target(lines.last()) is Some {
                if k < lp.len() {
                    assert(lp[k] == ip);
                }
            }
        }
    }
}

/// The targets that lines yield are the addresses that some line names, each
/// exactly once.
pub proof fn law_targets_once_each(lines: Seq<Seq<char>>, ip: Ipv4Addr)
    ensures
        spec_parse_targets(lines).no_duplicates(),
        spec_parse_targets(lines).contains(ip) <==> exists|i: int|
            0 <= i < lines.len() && line_target(#[trigger] lines[i]) == Some(ip),
{
    lemma_first_occurrences_distinct(line_targets(lines));
    lemma_first_occurrences_contains(line_targets(lines), ip);
    lemma_line_targets_contains(lines, ip);
}


/// The addresses of two lists of lines, one after the other, are those of
/// the first list followed by those of the second.
pub proof fn lemma_line_targets_append(a: Seq<Seq<char>>, b: Seq<Seq<char>>)
    ensures
        line_targets(a + b) == line_targets(a) + line_targets(b),
    decreases b.len(),
{
    if b.len() == 0 {
        assert(a + b =~= a);
        assert(line_targets(a) + line_targets(b) =~= line_targets(a));
    } else {
        let bp = b.drop_last();
        lemma_line_targets_append(a, bp);
        assert((a + b).drop_last() =~= a + bp);
        assert((a + b).last() == b.last());
        match line_target(b.last()) {
            Some(x) => {
                assert((line_targets(a) + line_targets(bp)).push(x) =~= line_targets(a)
                    + line_targets(bp).push(x));
            },
            None => {},
        }
    }
}

/// The test "not an element of `s`".
pub open spec fn not_in<A>(s: Seq<A>) -> spec_fn(A) -> bool {
    |x: A| !s.contains(x)
}

/// Keeping first occurrences of `s + t` keeps those of `s`, then those of
/// `t` that `s` does not hold, in their order.
pub proof fn lemma_first_occurrences_append<A>(s: Seq<A>, t: Seq<A>)
    ensures
        first_occurrences(s + t) == first_occurrences(s) + first_occurrences(t).filter(
            not_in(first_occurrences(s)),
        ),
    decreases t.len(),
{
    let fs = first_occurrences(s);
    let pred = not_in(fs);
    if t.len() == 0 {
        assert(s + t =~= s);
        reveal_with_fuel(Seq::<_>::filter, 1);
        assert(first_occurrences(t).filter(pred) =~= Seq::<A>::empty());
        assert(fs + Seq::<A>::empty() =~= fs);
    } else {
        let tp = t.drop_last();
        let x = t.last();
        lemma_first_occurrences_append(s, tp);
        assert((s + t).drop_last() =~= s + tp);
        assert((s + t).last() == x);
        let ft = first_occurrences(tp);
        let f = ft.filter(pred);
        assert(first_occurrences(s + tp) == fs + f);
        lemma_first_occurrences_contains(s + tp, x);
        lemma_first_occurrences_contains(s, x);
        lemma_first_occurrences_contains(tp, x);
        assert((s + tp).contains(x) <==> (s.contains(x) || tp.contains(x))) by {
            if (s + tp).contains(x) {
                let i = choose|i: int| 0 <= i < (s + tp).len() && (s + tp)[i] == x;
                if i >= s.len() {
                    assert((s + tp)[i] == tp[i - s.len()]);
                }
            }
            if s.contains(x) {
                let i = choose|i: int| 0 <= i < s.len() && s[i] == x;
                assert((s + tp)[i] == x);
            }
            if tp.contains(x) {
                let i = choose|i: int| 0 <= i < tp.len() && tp[i] == x;
                assert((s + tp)[s.len() + i] == tp[i]);
            }
        }
        if ft.contains(x) {
            assert(first_occurrences(t) == ft);
        } else {
            assert(first_occurrences(t) == ft.push(x));
            ft.lemma_filter_push(x, pred);
            if !fs.contains(x) {
                assert((fs + f).push(x) =~= fs + f.push(x));
            }
        }
    }
}

/// Appending lines: the targets of `a` followed by `b` are the targets of
/// `a`, then the targets of `b` that `a` does not already yield, in their
/// order.
pub proof fn law_targets_of_appended_lines(a: Seq<Seq<char>>, b: Seq<Seq<char>>)
    ensures
        spec_parse_targets(a + b) == spec_parse_targets(a) + spec_parse_targets(b).filter(
            not_in(spec_parse_targets(a)),
        ),
{
    lemma_line_targets_append(a, b);
    lemma_first_occurrences_append(line_targets(a), line_targets(b));
}

proof fn lemma_prefix_before_absent(s: Seq<char>, c: char)
    requires
        !s.contains(c),
    ensures
        prefix_before(s, c) == s,
    decreases s.len(),
{
    if s.len() > 0 {
        let r = s.drop_first();
        assert(!r.contains(c)) by {
            if r.contains(c) {
                let i = choose|i: int| 0 <= i < r.len() && r[i] == c;
                assert(s[i + 1] == c);
            }
        }
        lemma_prefix_before_absent(r, c);
        assert(s[0] != c) by {
            if s[0] == c {
                assert(s.contains(c));
            }
        }
        assert(seq![s[0]] + r =~= s);
    }
}

/// The line holding the dotted-quad text of an address names that address.
pub proof fn lemma_dotted_line_target(ip: Ipv4Addr)
    ensures
        line_target(spec_dotted(ip)) == Some(ip),
{
    let d = spec_dotted(ip);
    lemma_dotted_chars(ip);
    assert(!d.contains('#')) by {
        if d.contains('#') {
            let i = choose|i: int| 0 <= i < d.len() && d[i] == '#';
        }
    }
    lemma_prefix_before_absent(d, '#');
    assert(!is_whitespace(d[0]));
    assert(!is_whitespace(d.last()));
    assert(spec_trim_start(d) == d);
    assert(spec_trim_end(d) == d);
    assert(!has_prefix(d, https_prefix())) by {
        if has_prefix(d, https_prefix()) {
            assert(d.take(8)[0] == d[0]);
        }
    }
    assert(!has_prefix(d, http_prefix())) by {
        if has_prefix(d, http_prefix()) {
            assert(d.take(7)[0] == d[0]);
        }
    }
    lemma_last_index_of(d, ':');
    assert(last_index_of(d, ':') < 0);
    law_dotted_text_parses_back(ip);
}

/// The lines holding the dotted-quad texts of `r` name exactly `r`.
pub proof fn lemma_dotted_lines_targets(r: Seq<Ipv4Addr>)
    ensures
        line_targets(r.map_values(|ip: Ipv4Addr| spec_dotted(ip))) == r,
    decreases r.len(),
{
    if r.len() > 0 {
        let m = r.map_values(|ip: Ipv4Addr| spec_dotted(ip));
        lemma_dotted_lines_targets(r.drop_last());
        assert(m.drop_last() =~= r.drop_last().map_values(|ip: Ipv4Addr| spec_dotted(ip)));
        lemma_dotted_line_target(r.last());
        assert(r.drop_last().push(r.last()) =~= r);
    }
}

/// A sequence without repeats is its own first occurrences.
pub proof fn lemma_first_occurrences_of_distinct<A>(s: Seq<A>)
    requires
        s.no_duplicates(),
    ensures
        first_occurrences(s) == s,
    decreases s.len(),
{
    if s.len() > 0 {
        let p = s.drop_last();
        assert(p.no_duplicates());
        lemma_first_occurrences_of_distinct(p);
        assert(!p.contains(s.last())) by {
            if p.contains(s.last()) {
                let i = choose|i: int| 0 <= i < p.len() && p[i] == s.last();
                assert(s[i] == s[s.len() - 1]);
            }
        }
        assert(p.push(s.last()) =~= s);
    }
}

/// Printing the targets one per line in dotted-quad form, and reading those
/// lines back, gives the same targets in the same order.
pub proof fn law_printed_targets_parse_back(lines: Seq<Seq<char>>)
    ensures
        ({
            let r = spec_parse_targets(lines);
            spec_parse_targets(r.map_values(|ip: Ipv4Addr| spec_dotted(ip))) == r
        }),
{
    let r = spec_parse_targets(lines);
    lemma_first_occurrences_distinct(line_targets(lines));
    lemma_dotted_lines_targets(r);
    lemma_first_occurrences_of_distinct(r);
}


/// The last `c` of `s + [c] + t` is the one between them when `t` holds no
/// `c`.
proof fn lemma_last_index_of_joined(s: Seq<char>, c: char, t: Seq<char>)
    requires
        !t.contains(c),
    ensures
        last_index_of(s + seq![c] + t, c) == s.len(),
{
    let x = s + seq![c] + t;
    lemma_last_index_of(x, c);
    let k = last_index_of(x, c);
    assert(x[s.len() as int] == c);
    if k > s.len() {
        assert(x[k] == t[k - s.len() - 1]);
        assert(t.contains(c));
    }
}

/// A trailing `:` followed by one or more ASCII digits is removed from any
/// text, and the text before that `:` is kept as it is.
pub proof fn law_strip_port_removes_digit_suffix(host: Seq<char>, port: Seq<char>)
    requires
        port.len() > 0,
        forall|j: int| 0 <= j < port.len() ==> '0' <= #[trigger] port[j] && port[j] <= '9',
    ensures
        spec_strip_port(host + seq![':'] + port) == host,
{
    let x = host + seq![':'] + port;
    assert(!port.contains(':')) by {
        if port.contains(':') {
            let j = choose|j: int| 0 <= j < port.len() && port[j] == ':';
        }
    }
    lemma_last_index_of_joined(host, ':', port);
    assert forall|j: int| host.len() < j < x.len() implies ('0' <= #[trigger] x[j] && x[j]
        <= '9') by {
        assert(x[j] == port[j - host.len() - 1]);
    }
    assert(x.take(host.len() as int) =~= host);
}

/// Text without any `:` has no port to remove.
pub proof fn law_strip_port_keeps_text_without_colon(s: Seq<char>)
    requires
        !s.contains(':'),
    ensures
        spec_strip_port(s) == s,
{
    lemma_last_index_of(s, ':');
    if last_index_of(s, ':') >= 0 {
        assert(s[last_index_of(s, ':')] == ':');
    }
}

/// Text that does not begin with `h` has no scheme to remove.
pub proof fn law_strip_scheme_keeps_text_not_starting_with_h(s: Seq<char>)
    requires
        s.len() == 0 || s[0] != 'h',
    ensures
        spec_strip_scheme(s) == s,
{
    if has_prefix(s, https_prefix()) {
        assert(s.take(8)[0] == s[0]);
    }
    if has_prefix(s, http_prefix()) {
        assert(s.take(7)[0] == s[0]);
    }
}

proof fn lemma_trimmed_unchanged(s: Seq<char>)
    requires
        s.len() > 0,
        !is_whitespace(s[0]),
        !is_whitespace(s.last()),
    ensures
        spec_trim(s) == s,
{
}

proof fn lemma_no_char(s: Seq<char>, c: char)
    requires
        forall|j: int| 0 <= j < s.len() ==> crate::ipv4::is_ascii_digit(#[trigger] s[j]) || s[j]
            == '.',
        !crate::ipv4::is_ascii_digit(c),
        c != '.',
    ensures
        !s.contains(c),
{
    if s.contains(c) {
        let j = choose|j: int| 0 <= j < s.len() && s[j] == c;
    }
}

/// A target line `a.b.c.d:port`, with or without an `http://` or `https://`
/// in front, names the address `a.b.c.d`: the port is removed whether or not
/// a scheme was.
pub proof fn law_line_with_port_names_its_address(ip: Ipv4Addr, port: Seq<char>)
    requires
        port.len() > 0,
        forall|j: int| 0 <= j < port.len() ==> '0' <= #[trigger] port[j] && port[j] <= '9',
    ensures
        line_target(spec_dotted(ip) + seq![':'] + port) == Some(ip),
        line_target(seq!['h', 't', 't', 'p', ':', '/', '/'] + spec_dotted(ip) + seq![':'] + port)
            == Some(ip),
        line_target(
            seq!['h', 't', 't', 'p', 's', ':', '/', '/'] + spec_dotted(ip) + seq![':'] + port,
        ) == Some(ip),
{
    let d = spec_dotted(ip);
    lemma_dotted_chars(ip);
    law_dotted_text_parses_back(ip);
    law_strip_port_removes_digit_suffix(d, port);
    let x = d + seq![':'] + port;
    let y = http_prefix() + x;
    let z = https_prefix() + x;
    assert(seq!['h', 't', 't', 'p', ':', '/', '/'] + d + seq![':'] + port =~= y);
    assert(seq!['h', 't', 't', 'p', 's', ':', '/', '/'] + d + seq![':'] + port =~= z);
    // the texts hold no '#' and no white space at either end
    assert forall|j: int| 0 <= j < x.len() implies #[trigger] x[j] != '#' by {
        if j < d.len() {
            assert(x[j] == d[j]);
        } else if j > d.len() {
            assert(x[j] == port[j - d.len() - 1]);
        }
    }
    assert(!x.contains('#'));
    assert(!y.contains('#')) by {
        if y.contains('#') {
            let j = choose|j: int| 0 <= j < y.len() && y[j] == '#';
            if j >= 7 {
                assert(y[j] == x[j - 7]);
            }
        }
    }
    assert(!z.contains('#')) by {
        if z.contains('#') {
            let j = choose|j: int| 0 <= j < z.len() && z[j] == '#';
            if j >= 8 {
                assert(z[j] == x[j - 8]);
            }
        }
    }
    lemma_prefix_before_absent(x, '#');
    lemma_prefix_before_absent(y, '#');
    lemma_prefix_before_absent(z, '#');
    assert(x[0] == d[0]);
    assert(x.last() == port.last());
    assert(port.last() == port[port.len() - 1]);
    lemma_trimmed_unchanged(x);
    assert(y.last() == x.last());
    lemma_trimmed_unchanged(y);
    assert(z.last() == x.last());
    lemma_trimmed_unchanged(z);
    law_strip_scheme_keeps_text_not_starting_with_h(x);
    assert(y.take(7) =~= http_prefix());
    assert(y.skip(7) =~= x);
    assert(!has_prefix(y, https_prefix())) by {
        if has_prefix(y, https_prefix()) {
            assert(y.take(8)[4] == https_prefix()[4]);
        }
    }
    assert(z.take(8) =~= https_prefix());
    assert(z.skip(8) =~= x);
}

proof fn lemma_trim_start_shape(s: Seq<char>)
    ensures
        spec_trim_start(s).len() == 0 <==> forall|j: int|
            0 <= j < s.len() ==> is_whitespace(#[trigger] s[j]),
        spec_trim_start(s).len() > 0 ==> !is_whitespace(spec_trim_start(s)[0]),
    decreases s.len(),
{
    if s.len() > 0 && is_whitespace(s[0]) {
        let r = s.drop_first();
        lemma_trim_start_shape(r);
        if forall|j: int| 0 <= j < r.len() ==> is_whitespace(#[trigger] r[j]) {
            assert forall|j: int| 0 <= j < s.len() implies is_whitespace(#[trigger] s[j]) by {
                if j > 0 {
                    assert(s[j] == r[j - 1]);
                }
            }
        }
        if forall|j: int| 0 <= j < s.len() ==> is_whitespace(#[trigger] s[j]) {
            assert forall|j: int| 0 <= j < r.len() implies is_whitespace(#[trigger] r[j]) by {
                assert(r[j] == s[j + 1]);
            }
        }
    } else if s.len() > 0 {
        assert(!(forall|j: int| 0 <= j < s.len() ==> is_whitespace(#[trigger] s[j])));
    }
}

proof fn lemma_trim_end_keeps_first(t: Seq<char>)
    requires
        t.len() > 0,
        !is_whitespace(t[0]),
    ensures
        spec_trim_end(t).len() > 0,
    decreases t.len(),
{
    if is_whitespace(t.last()) {
        if t.len() == 1 {
            assert(t.last() == t[0]);
        } else {
            let p = t.drop_last();
            assert(p[0] == t[0]);
            lemma_trim_end_keeps_first(p);
        }
    }
}

/// A line is blank after trimming exactly when every one of its characters
/// is white space.
pub proof fn lemma_blank_line(s: Seq<char>)
    ensures
        spec_trim(s).len() == 0 <==> forall|j: int|
            0 <= j < s.len() ==> is_whitespace(#[trigger] s[j]),
{
    lemma_trim_start_shape(s);
    let t = spec_trim_start(s);
    if t.len() > 0 {
        lemma_trim_end_keeps_first(t);
    } else {
        assert(t =~= Seq::<char>::empty());
    }
}

/// The input has content exactly when some character of some line, wherever
/// that line stands, is not white space.
pub proof fn law_content_is_a_non_whitespace_char(lines: Seq<Seq<char>>)
    ensures
        has_content(lines) <==> exists|i: int, j: int|
            0 <= i < lines.len() && 0 <= j < lines[i].len() && !is_whitespace(
                #[trigger] lines[i][j],
            ),
{
    if has_content(lines) {
        let i = choose|i: int| 0 <= i < lines.len() && spec_trim(#[trigger] lines[i]).len() > 0;
        lemma_blank_line(lines[i]);
        let j = choose|j: int| 0 <= j < lines[i].len() && !is_whitespace(#[trigger] lines[i][j]);
        assert(!is_whitespace(lines[i][j]));
    }
    if exists|i: int, j: int|
        0 <= i < lines.len() && 0 <= j < lines[i].len() && !is_whitespace(#[trigger] lines[i][j]) {
        let (i, j) = choose|i: int, j: int|
            0 <= i < lines.len() && 0 <= j < lines[i].len() && !is_whitespace(
                #[trigger] lines[i][j],
            );
        lemma_blank_line(lines[i]);
        assert(spec_trim(lines[i]).len() > 0);
    }
}

/// Content anywhere counts: lines followed by more lines have content
/// exactly when either part has, so blank lines after a target, or before
/// it, never make the input empty.
pub proof fn law_content_of_appended_lines(a: Seq<Seq<char>>, b: Seq<Seq<char>>)
    ensures
        has_content(a + b) <==> has_content(a) || has_content(b),
{
    let x = a + b;
    if has_content(x) {
        let i = choose|i: int| 0 <= i < x.len() && spec_trim(#[trigger] x[i]).len() > 0;
        if i < a.len() {
            assert(x[i] == a[i]);
        } else {
            assert(x[i] == b[i - a.len()]);
        }
    }
    if has_content(a) {
        let i = choose|i: int| 0 <= i < a.len() && spec_trim(#[trigger] a[i]).len() > 0;
        assert(x[i] == a[i]);
    }
    if has_content(b) {
        let i = choose|i: int| 0 <= i < b.len() && spec_trim(#[trigger] b[i]).len() > 0;
        assert(x[a.len() + i] == b[i]);
    }
}

} // verus!
