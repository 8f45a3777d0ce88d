//! Local endpoint bookkeeping shared by the two responders: the
//! `ip:port` text form of a bound endpoint and the source allow-list test.

use vstd::prelude::*;
use crate::strutil::{find_first, lemma_find_first_characterization, str_eq, str_find};

verus! {

/// The decimal digit characters of `n`, most significant first.
pub open spec fn spec_decimal(n: int) -> Seq<char>
    decreases n,
{
    if n < 10 {
        seq![((48 + n) as u8) as char]
    } else {
        spec_decimal(n / 10).push(((48 + n % 10) as u8) as char)
    }
}

fn digit_str(d: u16) -> (r: &'static str)
    requires
        d < 10,
    ensures
        r@ =~= seq![((48 + d as int) as u8) as char],
{
    proof {
        reveal_strlit("0");
        reveal_strlit("1");
        reveal_strlit("2");
        reveal_strlit("3");
        reveal_strlit("4");
        reveal_strlit("5");
        reveal_strlit("6");
        reveal_strlit("7");
        reveal_strlit("8");
        reveal_strlit("9");
    }
    if d == 0 {
        "0"
    } else if d == 1 {
        "1"
    } else if d == 2 {
        "2"
    } else if d == 3 {
        "3"
    } else if d == 4 {
        "4"
    } else if d == 5 {
        "5"
    } else if d == 6 {
        "6"
    } else if d == 7 {
        "7"
    } else if d == 8 {
        "8"
    } else {
        "9"
    }
}

/// The decimal text form of a port number.
pub fn port_to_string(n: u16) -> (r: String)
    ensures
        r@ == spec_decimal(n as int),
    decreases n,
{
    if n < 10 {
        String::from_str(digit_str(n))
    } else {
        let mut s = port_to_string(n / 10);
        s.append(digit_str(n % 10));
        proof {
            assert(s@ =~= spec_decimal(n as int / 10).push(((48 + n as int % 10) as u8) as char));
        }
        s
    }
}

/// The `ip:port` text form of a local endpoint.
pub open spec fn spec_endpoint_text(ip: Seq<char>, port: u16) -> Seq<char> {
    ip + seq![':'] + spec_decimal(port as int)
}

/// Joins a local IPv4 address and a bound port into the `ip:port` text
/// form under which a responder publishes its endpoint.
pub fn get_local_ip_port(ip: &str, port: u16) -> (r: String)
    ensures
        r@ == spec_endpoint_text(ip@, port),
{
    let mut s = String::from_str(ip);
    s.append(":");
    let p = port_to_string(port);
    s.append(p.as_str());
    proof {
        reveal_strlit(":");
        assert(s@ =~= ip@ + seq![':'] + spec_decimal(port as int));
    }
    s
}

/// The ASCII-case-folded codepoint of a character.
pub open spec fn lower_code(c: char) -> int {
    if 'A' <= c && c <= 'Z' {
        c as int + 32
    } else {
        c as int
    }
}

/// Case-insensitive equality of two character runs.
pub open spec fn eq_ci(a: Seq<char>, b: Seq<char>) -> bool {
    a.len() == b.len() && forall|i: int|
        0 <= i < a.len() ==> lower_code(a[i]) == lower_code(#[trigger] b[i])
}

/// Index of the leftmost case-insensitive occurrence of `pat` in `s`.
pub open spec fn find_sub_ci(s: Seq<char>, pat: Seq<char>) -> Option<int>
    decreases s.len(),
{
    if s.len() < pat.len() {
        None
    } else if eq_ci(s.take(pat.len() as int), pat) {
        Some(0)
    } else {
        match find_sub_ci(s.drop_first(), pat) {
            None => None,
            Some(i) => Some(i + 1),
        }
    }
}

proof fn lemma_find_sub_ci_characterization(s: Seq<char>, pat: Seq<char>)
    ensures
        match find_sub_ci(s, pat) {
            None => forall|i: int|
                0 <= i && i + pat.len() <= s.len() ==> !eq_ci(
                    #[trigger] s.subrange(i, i + pat.len() as int),
                    pat,
                ),
            Some(m) => 0 <= m && m + pat.len() <= s.len() && eq_ci(
                s.subrange(m, m + pat.len() as int),
                pat,
            ) && (forall|i: int|
                0 <= i < m ==> !eq_ci(#[trigger] s.subrange(i, i + pat.len() as int), pat)),
        },
    decreases s.len(),
{
    if s.len() < pat.len() {
        return ;
    }
    assert(s.take(pat.len() as int) =~= s.subrange(0, pat.len() as int));
    if !eq_ci(s.take(pat.len() as int), pat) {
        lemma_find_sub_ci_characterization(s.drop_first(), pat);
        assert(forall|i: int|
            1 <= i && i + pat.len() <= s.len() ==> #[trigger] s.subrange(i, i + pat.len() as int)
                =~= s.drop_first().subrange(i - 1, i - 1 + pat.len() as int));
    }
}

/// Length of the leading run of spaces and dots in `s`.
pub open spec fn sep_prefix_len(s: Seq<char>) -> int
    decreases s.len(),
{
    if s.len() == 0 || !(s[0] == ' ' || s[0] == '.') {
        0
    } else {
        1 + sep_prefix_len(s.drop_first())
    }
}

proof fn lemma_sep_prefix_characterization(s: Seq<char>)
    ensures
        0 <= sep_prefix_len(s) <= s.len(),
        forall|j: int| 0 <= j < sep_prefix_len(s) ==> (#[trigger] s[j] == ' ' || s[j] == '.'),
        sep_prefix_len(s) < s.len() ==> !(s[sep_prefix_len(s)] == ' ' || s[sep_prefix_len(s)]
            == '.'),
    decreases s.len(),
{
    if s.len() > 0 && (s[0] == ' ' || s[0] == '.') {
        lemma_sep_prefix_characterization(s.drop_first());
        assert(forall|j: int| 1 <= j < s.len() ==> #[trigger] s[j] == s.drop_first()[j - 1]);
    }
}

/// Whether `c` can occur in a dotted IPv4 address.
pub open spec fn is_addr_char(c: char) -> bool {
    ('0' <= c && c <= '9') || c == '.'
}

/// Length of the leading run of digits and dots in `s`.
pub open spec fn addr_prefix_len(s: Seq<char>) -> int
    decreases s.len(),
{
    if s.len() == 0 || !is_addr_char(s[0]) {
        0
    } else {
        1 + addr_prefix_len(s.drop_first())
    }
}

proof fn lemma_addr_prefix_characterization(s: Seq<char>)
    ensures
        0 <= addr_prefix_len(s) <= s.len(),
        forall|j: int| 0 <= j < addr_prefix_len(s) ==> is_addr_char(#[trigger] s[j]),
        addr_prefix_len(s) < s.len() ==> !is_addr_char(s[addr_prefix_len(s)]),
    decreases s.len(),
{
    if s.len() > 0 && is_addr_char(s[0]) {
        lemma_addr_prefix_characterization(s.drop_first());
        assert(forall|j: int| 1 <= j < s.len() ==> #[trigger] s[j] == s.drop_first()[j - 1]);
    }
}

/// The capture attempt after one marker occurrence: spaces and dots, one
/// colon, one space, then at least one dotted address digit.
pub open spec fn spec_capture(rest: Seq<char>) -> Option<Seq<char>> {
    let t = sep_prefix_len(rest);
    if t + 1 < rest.len() && rest[t] == ':' && rest[t + 1] == ' ' {
        let cap = rest.skip(t + 2);
        if addr_prefix_len(cap) >= 1 {
            Some(cap.take(addr_prefix_len(cap)))
        } else {
            None
        }
    } else {
        None
    }
}

/// The address a configuration-report line publishes: the capture at the
/// leftmost case-insensitive `IPv4 Address` marker whose tail matches the
/// separator/colon/space/digits pattern; a marker that the pattern does
/// not follow is passed over and the search goes on after it.
pub open spec fn spec_ipv4_of_line(s: Seq<char>) -> Option<Seq<char>>
    decreases s.len(),
{
    match find_sub_ci(s, "ipv4 address"@) {
        None => None,
        Some(m) => {
            if 0 <= m < s.len() {
                match spec_capture(s.skip(m + "ipv4 address"@.len())) {
                    Some(c) => Some(c),
                    None => spec_ipv4_of_line(s.skip(m + 1)),
                }
            } else {
                None
            }
        },
    }
}

fn char_eq_ci(a: char, b: char) -> (r: bool)
    ensures
        r == (lower_code(a) == lower_code(b)),
{
    let av = a as u32;
    let bv = b as u32;
    let al = if av >= 'A' as u32 && av <= 'Z' as u32 {
        av + 32
    } else {
        av
    };
    let bl = if bv >= 'A' as u32 && bv <= 'Z' as u32 {
        bv + 32
    } else {
        bv
    };
    al == bl
}

fn find_marker_ci(s: &str, pat: &str) -> (r: Option<usize>)
    ensures
        match r {
            None => find_sub_ci(s@, pat@) is None,
            Some(m) => find_sub_ci(s@, pat@) == Some(m as int),
        },
{
    let sn = s.unicode_len();
    let pn = pat.unicode_len();
    if pn > sn {
        proof {
            lemma_find_sub_ci_characterization(s@, pat@);
        }
        return None;
    }
    let mut start: usize = 0;
    while start <= sn - pn
        invariant
            sn == s@.len(),
            pn == pat@.len(),
            pn <= sn,
            0 <= start <= sn - pn + 1,
            forall|i: int|
                0 <= i < start ==> !eq_ci(#[trigger] s@.subrange(i, i + pn as int), pat@),
        decreases sn + 1 - start,
    {
        let mut i: usize = 0;
        let mut matched = true;
        while i < pn
            invariant
                sn == s@.len(),
                pn == pat@.len(),
                0 <= start <= sn - pn,
                0 <= i <= pn,
                matched ==> forall|j: int|
                    0 <= j < i ==> lower_code(s@[start + j]) == lower_code(#[trigger] pat@[j]),
                !matched ==> !eq_ci(s@.subrange(start as int, start + pn as int), pat@),
            decreases pn - i,
        {
            if !char_eq_ci(s.get_char(start + i), pat.get_char(i)) {
                proof {
                    assert(s@.subrange(start as int, start + pn as int)[i as int] == s@[start + i]);
                }
                matched = false;
                i = pn;
            } else {
                i = i + 1;
            }
        }
        if matched {
            proof {
                assert(forall|j: int|
                    0 <= j < pn ==> #[trigger] s@.subrange(start as int, start + pn as int)[j]
                        == s@[start + j]);
                assert(eq_ci(s@.subrange(start as int, start + pn as int), pat@));
                lemma_find_sub_ci_characterization(s@, pat@);
            }
            return Some(start);
        }
        start = start + 1;
    }
    proof {
        lemma_find_sub_ci_characterization(s@, pat@);
    }
    None
}

/// Tries the separator/colon/space/digits pattern on the tail after one
/// marker occurrence, as [`spec_capture`] gives it.
fn capture_after(rest: &str) -> (r: Option<String>)
    ensures
        match r {
            None => spec_capture(rest@) is None,
            Some(v) => spec_capture(rest@) == Some(v@),
        },
{
    let rn = rest.unicode_len();
    proof {
        lemma_sep_prefix_characterization(rest@);
    }
    let mut t: usize = 0;
    while t < rn
        invariant
            rn == rest@.len(),
            0 <= t <= rn,
            t <= sep_prefix_len(rest@) <= rn,
        ensures
            0 <= t <= rn,
            sep_prefix_len(rest@) == t,
        decreases rn - t,
    {
        let c = rest.get_char(t);
        if !(c == ' ' || c == '.') {
            proof {
                lemma_sep_prefix_characterization(rest@);
                assert(forall|j: int|
                    0 <= j < sep_prefix_len(rest@) ==> (#[trigger] rest@[j] == ' ' || rest@[j]
                        == '.'));
            }
            break ;
        }
        proof {
            lemma_sep_prefix_characterization(rest@);
            assert(sep_prefix_len(rest@) != t);
        }
        t = t + 1;
    }
    if rn - t < 2 {
        return None;
    }
    if !(rest.get_char(t) == ':' && rest.get_char(t + 1) == ' ') {
        return None;
    }
    let cap = rest.substring_char(t + 2, rn);
    proof {
        assert(cap@ =~= rest@.skip(t + 2));
        lemma_addr_prefix_characterization(cap@);
    }
    let cn = cap.unicode_len();
    let mut d: usize = 0;
    while d < cn
        invariant
            cn == cap@.len(),
            0 <= d <= cn,
            d <= addr_prefix_len(cap@) <= cn,
        ensures
            0 <= d <= cn,
            addr_prefix_len(cap@) == d,
        decreases cn - d,
    {
        let c = cap.get_char(d);
        let cv = c as u32;
        if !((cv >= '0' as u32 && cv <= '9' as u32) || c == '.') {
            proof {
                lemma_addr_prefix_characterization(cap@);
            }
            break ;
        }
        proof {
            lemma_addr_prefix_characterization(cap@);
            assert(addr_prefix_len(cap@) != d);
        }
        d = d + 1;
    }
    if d == 0 {
        return None;
    }
    let out = cap.substring_char(0, d);
    proof {
        assert(out@ =~= cap@.take(d as int));
    }
    Some(String::from_str(out))
}

/// Extracts the IPv4 address a configuration-report line publishes, as
/// [`spec_ipv4_of_line`] gives it: the dotted digits after the first
/// `IPv4 Address ... : ` marker that the full pattern follows.
pub fn parse_ipv4_line(line: &str) -> (r: Option<String>)
    ensures
        match r {
            None => spec_ipv4_of_line(line@) is None,
            Some(v) => spec_ipv4_of_line(line@) == Some(v@),
        },
    decreases line@.len(),
{
    let m = match find_marker_ci(line, "ipv4 address") {
        None => {
            return None;
        },
        Some(m) => m,
    };
    proof {
        lemma_find_sub_ci_characterization(line@, "ipv4 address"@);
        reveal_strlit("ipv4 address");
    }
    let n = line.unicode_len();
    let pn = "ipv4 address".unicode_len();
    let rest = line.substring_char(m + pn, n);
    proof {
        assert(rest@ =~= line@.skip(m + pn));
    }
    match capture_after(rest) {
        Some(v) => Some(v),
        None => {
            let next = line.substring_char(m + 1, n);
            proof {
                assert(next@ =~= line@.skip(m + 1));
            }
            parse_ipv4_line(next)
        },
    }
}

/// The host part of an `ip:port` endpoint text: everything before the
/// first colon, or the whole text when no colon is there.
pub open spec fn spec_host_of(hosts: Seq<char>) -> Seq<char> {
    match find_first(hosts, ':') {
        None => hosts,
        Some(i) => hosts.take(i),
    }
}

/// The allow-list test both responders apply: a datagram is accepted only
/// when its source address equals the host the responder is bound to (the
/// text before the colon of the local `ip:port`). A coarse anti-noise
/// filter, not a security boundary.
pub fn source_allowed(hosts: &str, source_ip: &str) -> (r: bool)
    ensures
        r == (source_ip@ == spec_host_of(hosts@)),
{
    match str_find(hosts, ':') {
        None => str_eq(source_ip, hosts),
        Some(i) => {
            proof {
                lemma_find_first_characterization(hosts@, ':');
            }
            let host = hosts.substring_char(0, i);
            proof {
                assert(host@ =~= hosts@.take(i as int));
            }
            str_eq(source_ip, host)
        },
    }
}

} // verus!
