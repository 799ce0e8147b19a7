//! The subnets of this host that a network scan probes, read from the local
//! address of an outgoing socket and from what `ip addr` and `ip route` print.
use vstd::prelude::*;

use crate::setup::{default_subnets, push_ipv4_subnet, texts, with_subnet};
use crate::text::{
    chars_of, contains_chars, contains_text, end_before, first_token, next_token,
    second_token, starts_with, string_of_range, take_until, text_starts_with, trim, trim_str,
    lemma_take_until,
};

verus! {

// ---------------------------------------------------------------------------
// Lines
// ---------------------------------------------------------------------------

/// The length of the first line of `s`, its line feed not counted.
pub open spec fn line_len(s: Seq<char>) -> nat {
    take_until(s, |c: char| c == '\n').len()
}

/// What follows the first line of `s` and its line feed.
pub open spec fn rest_after_line(s: Seq<char>) -> Seq<char> {
    let n = line_len(s);
    if n < s.len() {
        s.skip(n + 1int)
    } else {
        Seq::empty()
    }
}

/// Where the line that begins at `from` ends.
fn line_end(v: &Vec<char>, from: usize) -> (end: usize)
    requires
        from <= v.len(),
    ensures
        from <= end <= v.len(),
        line_len(v@.skip(from as int)) == end - from,
        v@.skip(from as int).take(end - from) == v@.subrange(from as int, end as int),
        end < v.len() ==> v@[end as int] == '\n',
{
    let mut k = from;
    while k < v.len() && v[k] != '\n'
        invariant
            from <= k <= v.len(),
            forall|j: int| from <= j < k ==> v@[j] != '\n',
        decreases v.len() - k,
    {
        k = k + 1;
    }
    proof {
        let t = v@.skip(from as int);
        assert forall|j: int| 0 <= j < k - from implies !((|c: char| c == '\n')(#[trigger] t[j])) by {
            assert(t[j] == v@[from + j]);
        }
        if k < v.len() {
            assert(t[k - from] == '\n');
        }
        lemma_take_until(t, |c: char| c == '\n', k - from);
        assert(t.take(k - from) =~= v@.subrange(from as int, k as int));
    }
    k
}

// ---------------------------------------------------------------------------
// The rules for one line
// ---------------------------------------------------------------------------

/// An address without its prefix length (`192.168.1.20/24` gives `192.168.1.20`).
pub open spec fn before_slash(s: Seq<char>) -> Seq<char> {
    take_until(s, |c: char| c == '/')
}

/// A line of `ip addr`: a trimmed line that begins with `inet ` and does not
/// mention the loopback address names, in its second word, a local address.
pub open spec fn addr_line_step(acc: Seq<Seq<char>>, line: Seq<char>) -> Seq<Seq<char>> {
    let t = trim(line);
    if starts_with(t, "inet "@) && !contains_text(t, "127.0.0.1"@) {
        match second_token(t) {
            Some(cidr) => with_subnet(acc, before_slash(cidr)),
            None => acc,
        }
    } else {
        acc
    }
}

/// A line of `ip route`: a route other than the default one names, in its
/// first word, a network.
pub open spec fn route_line_step(acc: Seq<Seq<char>>, line: Seq<char>) -> Seq<Seq<char>> {
    if !starts_with(line, "default"@) {
        match first_token(line) {
            Some(prefix) => with_subnet(acc, before_slash(prefix)),
            None => acc,
        }
    } else {
        acc
    }
}

/// The subnets after the lines of an `ip addr` output, taken in order.
/// (A carriage return before a line feed stays in its line; both rules treat
/// it as whitespace, as they treat any other.)
pub open spec fn addr_subnets(acc: Seq<Seq<char>>, s: Seq<char>) -> Seq<Seq<char>>
    decreases s.len(),
{
    if s.len() == 0 {
        acc
    } else {
        addr_subnets(addr_line_step(acc, s.take(line_len(s) as int)), rest_after_line(s))
    }
}

/// The subnets after the lines of an `ip route` output, taken in order.
pub open spec fn route_subnets(acc: Seq<Seq<char>>, s: Seq<char>) -> Seq<Seq<char>>
    decreases s.len(),
{
    if s.len() == 0 {
        acc
    } else {
        route_subnets(route_line_step(acc, s.take(line_len(s) as int)), rest_after_line(s))
    }
}

/// The subnets scanned when none can be detected.
pub open spec fn fallback_subnets() -> Seq<Seq<char>> {
    seq!["192.168.1"@, "192.168.0"@, "192.168.129"@, "10.0.0"@]
}

/// `detect_local_subnets`: the subnet of the socket's local address, then those
/// of `ip addr`; if there are none, those of `ip route`; if there are still
/// none, the fallback list. A missing output is a command that did not run.
pub open spec fn detected_subnets(
    udp_local_ip: Option<Seq<char>>,
    ip_addr: Option<Seq<char>>,
    ip_route: Option<Seq<char>>,
) -> Seq<Seq<char>> {
    let s0 = match udp_local_ip {
        Some(ip) => with_subnet(Seq::empty(), ip),
        None => Seq::empty(),
    };
    let s1 = match ip_addr {
        Some(out) => addr_subnets(s0, out),
        None => s0,
    };
    let s2 = if s1.len() == 0 {
        match ip_route {
            Some(out) => route_subnets(s1, out),
            None => s1,
        }
    } else {
        s1
    };
    if s2.len() == 0 {
        fallback_subnets()
    } else {
        s2
    }
}

/// Applies the rule for one line of `ip addr`.
pub fn add_addr_line(subnets: &mut Vec<String>, line: &str)
    ensures
        texts(final(subnets)@) == addr_line_step(texts(old(subnets)@), line@),
{
    let t = trim_str(line);
    let v = chars_of(t.as_str());
    let lo = chars_of("127.0.0.1");
    if text_starts_with(&v, "inet ") && !contains_chars(&v, &lo) {
        match next_token(&v, 0) {
            Some((_a, b)) => {
                assert(v@.skip(0) =~= v@);
                match next_token(&v, b) {
                    Some((c, d)) => {
                        let e = end_before(&v, c, d, '/');
                        let ip = string_of_range(&v, c, e);
                        push_ipv4_subnet(subnets, ip.as_str());
                    },
                    None => {},
                }
            },
            None => {
                assert(v@.skip(0) =~= v@);
            },
        }
    }
}

/// Applies the rule for one line of `ip route`.
pub fn add_route_line(subnets: &mut Vec<String>, line: &str)
    ensures
        texts(final(subnets)@) == route_line_step(texts(old(subnets)@), line@),
{
    let v = chars_of(line);
    if !text_starts_with(&v, "default") {
        assert(v@.skip(0) =~= v@);
        match next_token(&v, 0) {
            Some((a, b)) => {
                let e = end_before(&v, a, b, '/');
                let ip = string_of_range(&v, a, e);
                push_ipv4_subnet(subnets, ip.as_str());
            },
            None => {},
        }
    }
}

/// Adds the subnets named in an `ip addr` output.
pub fn add_ip_addr_subnets(subnets: &mut Vec<String>, output: &str)
    ensures
        texts(final(subnets)@) == addr_subnets(texts(old(subnets)@), output@),
{
    let v = chars_of(output);
    let mut pos: usize = 0;
    assert(v@.skip(0) =~= v@);
    while pos < v.len()
        invariant
            pos <= v.len(),
            v@ == output@,
            addr_subnets(texts(subnets@), v@.skip(pos as int)) == addr_subnets(
                texts(old(subnets)@),
                output@,
            ),
        decreases v.len() - pos,
    {
        let end = line_end(&v, pos);
        let line = string_of_range(&v, pos, end);
        let ghost s = v@.skip(pos as int);
        add_addr_line(subnets, line.as_str());
        proof {
            if end < v.len() {
                assert(rest_after_line(s) =~= v@.skip(end + 1));
            } else {
                assert(rest_after_line(s) =~= v@.skip(end as int));
            }
        }
        pos = if end < v.len() {
            end + 1
        } else {
            end
        };
    }
}

/// Adds the subnets named in an `ip route` output.
pub fn add_ip_route_subnets(subnets: &mut Vec<String>, output: &str)
    ensures
        texts(final(subnets)@) == route_subnets(texts(old(subnets)@), output@),
{
    let v = chars_of(output);
    let mut pos: usize = 0;
    assert(v@.skip(0) =~= v@);
    while pos < v.len()
        invariant
            pos <= v.len(),
            v@ == output@,
            route_subnets(texts(subnets@), v@.skip(pos as int)) == route_subnets(
                texts(old(subnets)@),
                output@,
            ),
        decreases v.len() - pos,
    {
        let end = line_end(&v, pos);
        let line = string_of_range(&v, pos, end);
        let ghost s = v@.skip(pos as int);
        add_route_line(subnets, line.as_str());
        proof {
            if end < v.len() {
                assert(rest_after_line(s) =~= v@.skip(end + 1));
            } else {
                assert(rest_after_line(s) =~= v@.skip(end as int));
            }
        }
        pos = if end < v.len() {
            end + 1
        } else {
            end
        };
    }
}

/// The subnets to scan, from what the host reported.
pub fn detect_local_subnets(
    udp_local_ip: Option<&str>,
    ip_addr: Option<&str>,
    ip_route: Option<&str>,
) -> (r: Vec<String>)
    ensures
        texts(r@) == detected_subnets(
            match udp_local_ip {
                Some(s) => Some(s@),
                None => None,
            },
            match ip_addr {
                Some(s) => Some(s@),
                None => None,
            },
            match ip_route {
                Some(s) => Some(s@),
                None => None,
            },
        ),
{
    let mut subnets: Vec<String> = Vec::new();
    assert(texts(subnets@) =~= Seq::<Seq<char>>::empty());
    match udp_local_ip {
        Some(ip) => push_ipv4_subnet(&mut subnets, ip),
        None => {},
    }
    match ip_addr {
        Some(out) => add_ip_addr_subnets(&mut subnets, out),
        None => {},
    }
    if subnets.len() == 0 {
        match ip_route {
            Some(out) => add_ip_route_subnets(&mut subnets, out),
            None => {},
        }
    }
    if subnets.len() == 0 {
        let d = default_subnets();
        assert(texts(d@) =~= fallback_subnets());
        return d;
    }
    subnets
}

// ---------------------------------------------------------------------------
// Laws
// ---------------------------------------------------------------------------

/// No subnet occurs twice.
pub open spec fn no_duplicates(s: Seq<Seq<char>>) -> bool {
    forall|i: int, j: int| 0 <= i < j < s.len() ==> s[i] != s[j]
}

proof fn lemma_with_subnet_distinct(acc: Seq<Seq<char>>, ip: Seq<char>)
    requires
        no_duplicates(acc),
    ensures
        no_duplicates(with_subnet(acc, ip)),
        with_subnet(acc, ip).len() >= acc.len(),
{
    if let Some(sn) = crate::setup::ipv4_subnet_of(ip) {
        if !acc.contains(sn) {
            let r = acc.push(sn);
            assert forall|i: int, j: int| 0 <= i < j < r.len() implies r[i] != r[j] by {
                if j == acc.len() {
                    assert(r[i] == acc[i]);
                }
            }
        }
    }
}

proof fn lemma_addr_subnets_distinct(acc: Seq<Seq<char>>, s: Seq<char>)
    requires
        no_duplicates(acc),
    ensures
        no_duplicates(addr_subnets(acc, s)),
        addr_subnets(acc, s).len() >= acc.len(),
    decreases s.len(),
{
    if s.len() > 0 {
        let line = s.take(line_len(s) as int);
        let t = trim(line);
        if starts_with(t, "inet "@) && !contains_text(t, "127.0.0.1"@) {
            if let Some(cidr) = second_token(t) {
                lemma_with_subnet_distinct(acc, before_slash(cidr));
            }
        }
        lemma_addr_subnets_distinct(addr_line_step(acc, line), rest_after_line(s));
    }
}

proof fn lemma_route_subnets_distinct(acc: Seq<Seq<char>>, s: Seq<char>)
    requires
        no_duplicates(acc),
    ensures
        no_duplicates(route_subnets(acc, s)),
        route_subnets(acc, s).len() >= acc.len(),
    decreases s.len(),
{
    if s.len() > 0 {
        let line = s.take(line_len(s) as int);
        if !starts_with(line, "default"@) {
            if let Some(prefix) = first_token(line) {
                lemma_with_subnet_distinct(acc, before_slash(prefix));
            }
        }
        lemma_route_subnets_distinct(route_line_step(acc, line), rest_after_line(s));
    }
}

/// The subnets a scan probes are never none, and none is probed twice.
pub proof fn law_detected_subnets_distinct(
    udp_local_ip: Option<Seq<char>>,
    ip_addr: Option<Seq<char>>,
    ip_route: Option<Seq<char>>,
)
    ensures
        detected_subnets(udp_local_ip, ip_addr, ip_route).len() > 0,
        no_duplicates(detected_subnets(udp_local_ip, ip_addr, ip_route)),
{
    let e = Seq::<Seq<char>>::empty();
    let s0 = match udp_local_ip {
        Some(ip) => with_subnet(e, ip),
        None => e,
    };
    if let Some(ip) = udp_local_ip {
        lemma_with_subnet_distinct(e, ip);
    }
    let s1 = match ip_addr {
        Some(out) => addr_subnets(s0, out),
        None => s0,
    };
    if let Some(out) = ip_addr {
        lemma_addr_subnets_distinct(s0, out);
    }
    if s1.len() == 0 {
        if let Some(out) = ip_route {
            lemma_route_subnets_distinct(s1, out);
        }
    }
    reveal_strlit("192.168.1");
    reveal_strlit("192.168.0");
    reveal_strlit("192.168.129");
    reveal_strlit("10.0.0");
    let f = fallback_subnets();
    assert(f[0].len() == 9 && f[1].len() == 9 && f[2].len() == 11 && f[3].len() == 6);
    assert(f[0][8] != f[1][8]);
    assert forall|i: int, j: int| 0 <= i < j < f.len() implies f[i] != f[j] by {
        if i == 0 && j == 1 {
            assert(f[i][8] != f[j][8]);
        } else {
            assert(f[i].len() != f[j].len());
        }
    }
}

} // verus!
