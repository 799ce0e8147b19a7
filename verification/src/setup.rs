//! First-run setup: what the setup API reports, the access code used to talk
//! to a printer, the addresses a network scan probes, and how a confirmed
//! printer and the onboarding choices are written into the configuration.
use vstd::prelude::*;

use crate::config::{
    config_of, first_with_id, has_id, is_first_with_id, lemma_first_unique, lemma_first_with_id, profile_id_spec, profile_of,
    profiles_view, valid_pincode, validate_pincode, AppConfig, NotificationDestination,
    PrinterConfigView, PrinterProfile, ProfileView, ProfilesModel, find_profile,
    printer_profile_id,
};
use crate::destinations::{
    clamp_progress_intervals, destinations_view, gen_id, interval_spec, with_clamped_interval,
    DestinationView,
};
use crate::error::{AppError, SetupError};
use crate::text::{
    chars_of, dec, hex_n, lemma_lex_asymmetric, lemma_lex_irreflexive, lemma_lex_total,
    lemma_lex_transitive, lex_lt, lit, push_text, string_of_range, text_lt,
    trim, trim_str, u64_text,
};

verus! {

// ---------------------------------------------------------------------------
// Responses and requests
// ---------------------------------------------------------------------------

#[derive(Debug, Clone, Copy)]
pub struct SetupCheckResponse {
    pub configured: bool,
    pub onboarding_complete: bool,
}

/// `check_setup`: a printer address is configured, and onboarding is done.
pub fn setup_check(config: &AppConfig) -> (r: SetupCheckResponse)
    ensures
        r.configured == (config.printer.ip@.len() > 0),
        r.onboarding_complete == config.onboarding_complete,
{
    SetupCheckResponse {
        configured: !config.printer.ip.as_str().is_empty(),
        onboarding_complete: config.onboarding_complete,
    }
}

#[derive(Debug, Clone)]
pub struct HostOsResponse {
    pub os: String,
    pub arch: String,
    pub docker_command: String,
    pub gpu_supported: bool,
}

pub open spec fn docker_command_spec(os: Seq<char>) -> Seq<char> {
    if os == "linux"@ || os == "macos"@ {
        "docker run -d --name obico-ml --restart unless-stopped \\\n  --network host \\\n  ghcr.io/thespaghettidetective/ml_api:latest"@
    } else {
        Seq::empty()
    }
}

/// The command that starts the detection service, for the host's OS.
pub fn build_docker_command(os: &str) -> (r: String)
    ensures
        r@ == docker_command_spec(os@),
{
    if crate::text::same_text(os, "linux") || crate::text::same_text(os, "macos") {
        lit(
            "docker run -d --name obico-ml --restart unless-stopped \\\n  --network host \\\n  ghcr.io/thespaghettidetective/ml_api:latest",
        )
    } else {
        String::new()
    }
}

/// `host_os`: the host's OS and architecture with the matching command; GPU
/// support is not offered.
pub fn host_os_response(os: &str, arch: &str) -> (r: HostOsResponse)
    ensures
        r.os@ == os@,
        r.arch@ == arch@,
        r.docker_command@ == docker_command_spec(os@),
        !r.gpu_supported,
{
    HostOsResponse { os: lit(os), arch: lit(arch), docker_command: build_docker_command(os), gpu_supported: false }
}

#[derive(Debug, Clone)]
pub struct OnboardingNotifications {
    pub destinations: Option<Vec<NotificationDestination>>,
}

#[derive(Debug, Clone)]
pub struct ScanRequest {
    pub subnet: Option<String>,
    pub pincode: Option<String>,
}

#[derive(Debug, Clone)]
pub struct DiscoveredPrinter {
    pub ip: String,
    pub printer_id: Option<String>,
    pub verified: bool,
    pub needs_pincode: bool,
}

#[derive(Debug, Clone)]
pub struct ScanResponse {
    pub printers: Vec<DiscoveredPrinter>,
    pub scanned_subnets: Vec<String>,
}

#[derive(Debug, Clone)]
pub struct VerifyRequest {
    pub ip: String,
    pub pincode: Option<String>,
}

#[derive(Debug, Clone)]
pub struct VerifyResponse {
    pub success: bool,
    pub printer_id: String,
    pub model: String,
}

#[derive(Debug, Clone)]
pub struct SaveConfigRequest {
    pub ip: String,
    pub printer_id: String,
    pub pincode: Option<String>,
}

// ---------------------------------------------------------------------------
// Access code
// ---------------------------------------------------------------------------

/// The password for talking to a printer: the given access code, trimmed, or
/// the factory code when none is given.
pub open spec fn access_password_spec(pincode: Option<Seq<char>>) -> Option<Seq<char>> {
    match pincode {
        Some(p) => if trim(p).len() == 0 {
            Some("123456"@)
        } else if valid_pincode(trim(p)) {
            Some(trim(p))
        } else {
            None
        },
        None => Some("123456"@),
    }
}

/// `scan_network` and `verify_printer`: the password to try; refused when a
/// non-blank access code is invalid.
pub fn access_password(pincode: &Option<String>) -> (r: Result<String, AppError>)
    ensures
        match r {
            Ok(p) => access_password_spec(pincode.deep_view()) == Some(p@),
            Err(e) => access_password_spec(pincode.deep_view()) is None && e == AppError::Setup(
                SetupError::InvalidPincode,
            ),
        },
{
    match pincode {
        Some(p) => {
            let t = trim_str(p.as_str());
            if t.as_str().is_empty() {
                Ok(lit("123456"))
            } else if validate_pincode(t.as_str()).is_err() {
                Err(AppError::Setup(SetupError::InvalidPincode))
            } else {
                Ok(t)
            }
        },
        None => Ok(lit("123456")),
    }
}

/// A password tried on a printer is the factory code or a valid access code.
pub proof fn law_password_is_factory_or_valid(pincode: Option<Seq<char>>)
    ensures
        access_password_spec(pincode) matches Some(p) ==> p == "123456"@ || valid_pincode(p),
{
}

/// What a scan reports for a host with an open MQTT port: verified with its
/// printer id when the password was accepted; otherwise unverified, and in
/// need of an access code when only the factory code was tried.
pub fn discovered_printer(ip: String, printer_id: Option<String>, password: &str) -> (r: DiscoveredPrinter)
    ensures
        r.ip == ip,
        r.printer_id == printer_id,
        r.verified == printer_id is Some,
        r.needs_pincode == (printer_id is None && password@ == "123456"@),
{
    let verified = printer_id.is_some();
    let needs = !verified && crate::text::same_text(password, "123456");
    DiscoveredPrinter { ip, printer_id, verified, needs_pincode: needs }
}

/// `verify_printer`: the answer for a printer that replied with its id.
pub fn verify_response(printer_id: String) -> (r: VerifyResponse)
    ensures
        r.success,
        r.printer_id == printer_id,
        r.model@ == "Centauri Carbon 2"@,
{
    VerifyResponse { success: true, printer_id, model: lit("Centauri Carbon 2") }
}

/// `verify_printer`: the error when the printer did not answer (a timeout) or
/// the connection failed for the given reason.
pub fn verification_failed(timed_out: bool, detail: &str) -> (r: AppError)
    ensures
        r matches AppError::Setup(SetupError::VerificationFailed(m)) && m@ == (if timed_out {
            "No response from printer. Check the IP address and that the printer is on."@
        } else {
            "Connection failed: "@ + detail@
        }),
{
    if timed_out {
        AppError::Setup(
            SetupError::VerificationFailed(
                lit("No response from printer. Check the IP address and that the printer is on."),
            ),
        )
    } else {
        let mut m = lit("Connection failed: ");
        push_text(&mut m, detail);
        AppError::Setup(SetupError::VerificationFailed(m))
    }
}

/// `save_config`: the error when the printer connection could not be started
/// with the saved settings.
pub fn printer_start_failed(detail: &str) -> (r: AppError)
    ensures
        r matches AppError::Setup(SetupError::VerificationFailed(m)) && m@
            == "Failed to start printer connection: "@ + detail@,
{
    let mut m = lit("Failed to start printer connection: ");
    push_text(&mut m, detail);
    AppError::Setup(SetupError::VerificationFailed(m))
}

// ---------------------------------------------------------------------------
// Subnets and addresses
// ---------------------------------------------------------------------------

pub open spec fn dot_count(s: Seq<char>) -> nat {
    s.filter(|c: char| c == '.').len()
}

/// `k` ends the first three dot-separated parts of `s`: two dots before it,
/// and the third dot (or the end) at it.
pub open spec fn is_third_dot_cut(s: Seq<char>, k: int) -> bool {
    &&& 0 <= k <= s.len()
    &&& dot_count(s.take(k)) == 2
    &&& (k == s.len() || s[k] == '.')
}

proof fn lemma_dot_count_step(s: Seq<char>, i: int)
    requires
        0 <= i < s.len(),
    ensures
        dot_count(s.take(i + 1)) == dot_count(s.take(i)) + (if s[i] == '.' { 1int } else { 0int }),
{
    reveal_with_fuel(Seq::<_>::filter, 1);
    assert(s.take(i + 1).drop_last() =~= s.take(i));
}

/// The first three parts of a dotted address, joined by dots; the position
/// where they end.
fn third_dot_cut(v: &Vec<char>) -> (r: (usize, usize))
    ensures
        r.0 <= v@.len(),
        r.1 <= 2,
        r.1 == dot_count(v@.take(r.0 as int)),
        r.1 < 2 ==> r.0 == v@.len() && dot_count(v@) == r.1,
        r.1 == 2 ==> is_third_dot_cut(v@, r.0 as int),
{
    let mut i: usize = 0;
    let mut dots: usize = 0;
    while i < v.len() && !(dots == 2 && v[i] == '.')
        invariant
            0 <= i <= v.len(),
            dots <= 2,
            dots == dot_count(v@.take(i as int)),
        decreases v.len() - i,
    {
        proof {
            lemma_dot_count_step(v@, i as int);
        }
        if v[i] == '.' {
            dots = dots + 1;
        }
        i = i + 1;
    }
    assert(v@.take(v@.len() as int) =~= v@);
    (i, dots)
}

/// `scan_network`: the subnet to scan from a requested address, when it has
/// at least three dot-separated parts: those three parts.
pub fn requested_subnet(subnet: &str) -> (r: Option<String>)
    ensures
        r is Some <==> dot_count(subnet@) >= 2,
        r matches Some(p) ==> exists|k: int| is_third_dot_cut(subnet@, k) && p@ == subnet@.take(k),
{
    let v = chars_of(subnet);
    let (k, dots) = third_dot_cut(&v);
    if dots < 2 {
        return None;
    }
    proof {
        assert(v@.take(k as int).is_prefix_of(v@));
        v@.take(k as int).lemma_filter_monotone(v@, |c: char| c == '.');
    }
    let p = string_of_range(&v, 0, k);
    assert(v@.subrange(0, k as int) =~= v@.take(k as int));
    assert(is_third_dot_cut(subnet@, k as int) && p@ == subnet@.take(k as int));
    Some(p)
}

pub open spec fn first_part(s: Seq<char>) -> Seq<char> {
    crate::text::take_until(s, |c: char| c == '.')
}

/// A local address names a subnet to scan when it has four dot-separated parts
/// and is not a loopback (`127.`) address.
pub open spec fn ipv4_subnet_of(ip: Seq<char>) -> Option<Seq<char>> {
    if dot_count(ip) == 3 && first_part(ip) != "127"@ {
        Some(ip.take(choose|k: int| is_third_dot_cut(ip, k)))
    } else {
        None
    }
}

/// The texts of a list of strings.
pub open spec fn texts(v: Seq<String>) -> Seq<Seq<char>> {
    v.map_values(|s: String| s@)
}

/// A subnet list after the address `ip` was seen: its subnet is added at the
/// end unless it is already listed.
pub open spec fn with_subnet(acc: Seq<Seq<char>>, ip: Seq<char>) -> Seq<Seq<char>> {
    match ipv4_subnet_of(ip) {
        Some(sn) => if acc.contains(sn) {
            acc
        } else {
            acc.push(sn)
        },
        None => acc,
    }
}

proof fn lemma_third_dot_cut_unique(s: Seq<char>, a: int, b: int)
    requires
        is_third_dot_cut(s, a),
        is_third_dot_cut(s, b),
    ensures
        a == b,
{
    if a < b {
        assert(s.take(a + 1).is_prefix_of(s.take(b))) by {
            assert(s.take(a + 1) =~= s.take(b).subrange(0, a + 1));
        }
        s.take(a + 1).lemma_filter_monotone(s.take(b), |c: char| c == '.');
        lemma_dot_count_step(s, a);
    } else if b < a {
        assert(s.take(b + 1) =~= s.take(a).subrange(0, b + 1));
        s.take(b + 1).lemma_filter_monotone(s.take(a), |c: char| c == '.');
        lemma_dot_count_step(s, b);
    }
}

fn contains_string(v: &Vec<String>, s: &str) -> (r: bool)
    ensures
        r == texts(v@).contains(s@),
{
    let mut i: usize = 0;
    while i < v.len()
        invariant
            0 <= i <= v.len(),
            forall|j: int| 0 <= j < i ==> v@[j]@ != s@,
        decreases v.len() - i,
    {
        if crate::text::same_text(v[i].as_str(), s) {
            assert(texts(v@)[i as int] == s@);
            return true;
        }
        i = i + 1;
    }
    proof {
        if texts(v@).contains(s@) {
            let j = choose|j: int| 0 <= j < texts(v@).len() && texts(v@)[j] == s@;
            assert(v@[j]@ == s@);
        }
    }
    false
}

/// Adds the subnet of a local address to the list, once.
pub fn push_ipv4_subnet(subnets: &mut Vec<String>, ip: &str)
    ensures
        texts(final(subnets)@) == with_subnet(texts(old(subnets)@), ip@),
{
    let v = chars_of(ip);
    let (k, dots) = third_dot_cut(&v);
    // count all dots
    let mut total: usize = 0;
    let mut i: usize = 0;
    while i < v.len()
        invariant
            0 <= i <= v.len(),
            total == dot_count(v@.take(i as int)),
            total <= i,
        decreases v.len() - i,
    {
        proof {
            lemma_dot_count_step(v@, i as int);
        }
        if v[i] == '.' {
            total = total + 1;
        }
        i = i + 1;
    }
    assert(v@.take(v@.len() as int) =~= v@);
    if total != 3 {
        return;
    }
    // the first part
    let mut f: usize = 0;
    while f < v.len() && v[f] != '.'
        invariant
            0 <= f <= v.len(),
            forall|j: int| 0 <= j < f ==> #[trigger] v@[j] != '.',
        decreases v.len() - f,
    {
        f = f + 1;
    }
    proof {
        crate::text::lemma_take_until(v@, |c: char| c == '.', f as int);
    }
    let first = string_of_range(&v, 0, f);
    assert(v@.subrange(0, f as int) =~= v@.take(f as int));
    if crate::text::same_text(first.as_str(), "127") {
        return;
    }
    proof {
        if dots < 2 {
            assert(dot_count(v@) < 2);
        }
        assert(dots == 2);
        let c = choose|c: int| is_third_dot_cut(v@, c);
        assert(is_third_dot_cut(v@, k as int));
        lemma_third_dot_cut_unique(v@, c, k as int);
    }
    let sn = string_of_range(&v, 0, k);
    assert(v@.subrange(0, k as int) =~= v@.take(k as int));
    if !contains_string(subnets, sn.as_str()) {
        let ghost before = subnets@;
        subnets.push(sn);
        assert(texts(subnets@) =~= texts(before).push(sn@));
    }
}

/// The subnets scanned when none can be detected.
pub fn default_subnets() -> (r: Vec<String>)
    ensures
        r@.len() == 4,
        r@[0]@ == "192.168.1"@,
        r@[1]@ == "192.168.0"@,
        r@[2]@ == "192.168.129"@,
        r@[3]@ == "10.0.0"@,
{
    let mut r: Vec<String> = Vec::new();
    r.push(lit("192.168.1"));
    r.push(lit("192.168.0"));
    r.push(lit("192.168.129"));
    r.push(lit("10.0.0"));
    r
}

/// The addresses a scan probes: hosts 1 to 254 of each subnet, subnet by subnet.
pub fn scan_addresses(subnets: &Vec<String>) -> (r: Vec<String>)
    ensures
        r@.len() == 254 * subnets@.len(),
        forall|k: int, h: int|
            0 <= k < subnets@.len() && 0 <= h < 254 ==> #[trigger] r@[254 * k + h]@ == subnets@[k]@
                + "."@ + dec((h + 1) as nat),
{
    let mut r: Vec<String> = Vec::new();
    let mut k: usize = 0;
    while k < subnets.len()
        invariant
            0 <= k <= subnets.len(),
            r@.len() == 254 * k,
            forall|a: int, h: int|
                0 <= a < k && 0 <= h < 254 ==> #[trigger] r@[254 * a + h]@ == subnets@[a]@ + "."@ + dec(
                    (h + 1) as nat,
                ),
        decreases subnets.len() - k,
    {
        let mut h: u64 = 1;
        while h <= 254
            invariant
                0 <= k < subnets.len(),
                1 <= h <= 255,
                r@.len() == 254 * k + (h - 1),
                forall|a: int, hh: int|
                    0 <= a < k && 0 <= hh < 254 ==> #[trigger] r@[254 * a + hh]@ == subnets@[a]@ + "."@
                        + dec((hh + 1) as nat),
                forall|hh: int|
                    0 <= hh < h - 1 ==> #[trigger] r@[254 * k + hh]@ == subnets@[k as int]@ + "."@ + dec(
                        (hh + 1) as nat,
                    ),
            decreases 255 - h,
        {
            let mut a = subnets[k].clone();
            push_text(&mut a, ".");
            let n = u64_text(h);
            push_text(&mut a, n.as_str());
            let ghost before = r@;
            r.push(a);
            assert(r@[254 * k + (h - 1)]@ == subnets@[k as int]@ + "."@ + dec(h as nat));
            h = h + 1;
        }
        assert forall|a: int, hh: int|
            0 <= a < k + 1 && 0 <= hh < 254 implies #[trigger] r@[254 * a + hh]@ == subnets@[a]@ + "."@
                + dec((hh + 1) as nat) by {
            if a == k {
                assert(r@[254 * k + hh]@ == subnets@[k as int]@ + "."@ + dec((hh + 1) as nat));
            }
        }
        k = k + 1;
    }
    r
}

// ---------------------------------------------------------------------------
// Ordering scan results
// ---------------------------------------------------------------------------

pub open spec fn sorted_by_ip(r: Seq<DiscoveredPrinter>) -> bool {
    forall|a: int, b: int| 0 <= a < b < r.len() ==> !lex_lt(r[b].ip@, r[a].ip@)
}

impl DiscoveredPrinter {
    pub fn duplicate(&self) -> (r: DiscoveredPrinter)
        ensures
            r == *self,
    {
        DiscoveredPrinter {
            ip: self.ip.clone(),
            printer_id: crate::text::copy_opt(&self.printer_id),
            verified: self.verified,
            needs_pincode: self.needs_pincode,
        }
    }
}

/// Scan results at the address `x`.
pub open spec fn at_ip(x: Seq<char>) -> spec_fn(DiscoveredPrinter) -> bool {
    |p: DiscoveredPrinter| p.ip@ == x
}

proof fn lemma_filter_none(s: Seq<DiscoveredPrinter>, pred: spec_fn(DiscoveredPrinter) -> bool)
    requires
        forall|i: int| 0 <= i < s.len() ==> !pred(#[trigger] s[i]),
    ensures
        s.filter(pred) == Seq::<DiscoveredPrinter>::empty(),
    decreases s.len(),
{
    reveal_with_fuel(Seq::<_>::filter, 1);
    if s.len() > 0 {
        lemma_filter_none(s.drop_last(), pred);
    } else {
        assert(s.filter(pred) =~= Seq::<DiscoveredPrinter>::empty());
    }
}

/// Inserting `e` before every element with another address adds it at the end
/// of the results at its address, and changes no other address's results.
proof fn lemma_insert_filter(b: Seq<DiscoveredPrinter>, k: int, e: DiscoveredPrinter, x: Seq<char>)
    requires
        0 <= k <= b.len(),
        forall|i: int| k <= i < b.len() ==> #[trigger] b[i].ip@ != e.ip@,
    ensures
        b.insert(k, e).filter(at_ip(x)) == (if e.ip@ == x {
            b.filter(at_ip(x)).push(e)
        } else {
            b.filter(at_ip(x))
        }),
{
    let p = at_ip(x);
    let t = b.take(k);
    let sk = b.skip(k);
    let one = seq![e];
    assert(b.insert(k, e) =~= (t + one) + sk);
    assert(b =~= t + sk);
    Seq::filter_distributes_over_add(t + one, sk, p);
    Seq::filter_distributes_over_add(t, one, p);
    Seq::filter_distributes_over_add(t, sk, p);
    reveal_with_fuel(Seq::<_>::filter, 2);
    assert(one.drop_last() =~= Seq::<DiscoveredPrinter>::empty());
    if e.ip@ == x {
        lemma_filter_none(sk, p);
        assert(one.filter(p) =~= one);
        assert(t.filter(p) + one + Seq::<DiscoveredPrinter>::empty() =~= (t.filter(p) + Seq::<
            DiscoveredPrinter,
        >::empty()).push(e));
    } else {
        assert(one.filter(p) =~= Seq::<DiscoveredPrinter>::empty());
        assert(t.filter(p) + Seq::<DiscoveredPrinter>::empty() =~= t.filter(p));
    }
}

/// Scan results in address order; results with equal addresses keep their order.
pub fn sort_by_ip(ps: &Vec<DiscoveredPrinter>) -> (r: Vec<DiscoveredPrinter>)
    ensures
        r@.to_multiset() == ps@.to_multiset(),
        sorted_by_ip(r@),
        forall|x: Seq<char>| #[trigger] r@.filter(at_ip(x)) == ps@.filter(at_ip(x)),
{
    broadcast use vstd::seq_lib::group_to_multiset_ensures;

    let mut r: Vec<DiscoveredPrinter> = Vec::new();
    let mut j: usize = 0;
    while j < ps.len()
        invariant
            0 <= j <= ps.len(),
            r@.to_multiset() == ps@.take(j as int).to_multiset(),
            sorted_by_ip(r@),
            forall|y: Seq<char>| #[trigger] r@.filter(at_ip(y)) == ps@.take(j as int).filter(at_ip(y)),
        decreases ps.len() - j,
    {
        let x = ps[j].duplicate();
        let mut k: usize = 0;
        while k < r.len() && !text_lt(x.ip.as_str(), r[k].ip.as_str())
            invariant
                0 <= k <= r.len(),
                forall|a: int| 0 <= a < k ==> !lex_lt(x.ip@, #[trigger] r@[a].ip@),
            decreases r.len() - k,
        {
            k = k + 1;
        }
        let ghost before = r@;
        proof {
            before.insert_ensures(k as int, x);
            assert(ps@.take(j + 1) =~= ps@.take(j as int).push(ps@[j as int]));
            vstd::seq_lib::to_multiset_insert(before, k as int, x);
        }
        r.insert(k, x);
        assert(r@ == before.insert(k as int, x));
        proof {
            vstd::seq_lib::to_multiset_build(ps@.take(j as int), ps@[j as int]);
        }
        assert forall|a: int, b: int| 0 <= a < b < r@.len() implies !lex_lt(r@[b].ip@, r@[a].ip@) by {
            if b < k {
            } else if b == k {
                assert(r@[a] == before[a]);
            } else if a < k {
                assert(r@[b] == before[b - 1] && r@[a] == before[a]);
            } else if a == k {
                assert(r@[b] == before[b - 1]);
                lemma_lex_asymmetric(before[b - 1].ip@, x.ip@);
                if lex_lt(before[b - 1].ip@, x.ip@) && b - 1 > k {
                    lemma_lex_transitive(before[b - 1].ip@, x.ip@, before[k as int].ip@);
                }
            } else {
                assert(r@[b] == before[b - 1] && r@[a] == before[a - 1]);
            }
        }
        proof {
            assert forall|i: int| k <= i < before.len() implies #[trigger] before[i].ip@ != x.ip@ by {
                if i == k {
                    lemma_lex_irreflexive(x.ip@);
                } else {
                    lemma_lex_total(before[k as int].ip@, before[i].ip@);
                    if lex_lt(before[k as int].ip@, before[i].ip@) {
                        lemma_lex_transitive(x.ip@, before[k as int].ip@, before[i].ip@);
                        lemma_lex_irreflexive(x.ip@);
                    }
                }
            }
            assert forall|y: Seq<char>| #[trigger] r@.filter(at_ip(y)) == ps@.take(j + 1).filter(at_ip(y)) by {
                lemma_insert_filter(before, k as int, x, y);
                reveal_with_fuel(Seq::<_>::filter, 1);
                assert(ps@.take(j + 1).drop_last() =~= ps@.take(j as int));
            }
        }
        j = j + 1;
    }
    assert(ps@.take(ps@.len() as int) =~= ps@);
    r
}

// ---------------------------------------------------------------------------
// Writing the configuration
// ---------------------------------------------------------------------------

/// `save_config`: the confirmed printer becomes the live printer and the active
/// profile, which keeps the label of a stored profile with the same id.
pub open spec fn save_model(m: ProfilesModel, ip: Seq<char>, printer_id: Seq<char>, pincode: Seq<char>) -> ProfilesModel {
    let printer = PrinterConfigView { ip, printer_id, pincode };
    let id = profile_id_spec(ip, printer_id);
    let base = profile_of(id, printer);
    let p = if has_id(m.printers, id) {
        ProfileView { label: m.printers[first_with_id(m.printers, id)].label, ..base }
    } else {
        base
    };
    let printers = if has_id(m.printers, id) {
        m.printers.update(first_with_id(m.printers, id), p)
    } else {
        m.printers.push(p)
    };
    ProfilesModel { printer, printers, active: id }
}

/// After saving a confirmed printer, it is the active printer and a stored
/// profile with its id holds exactly its settings.
pub proof fn law_save_stores_printer(m: ProfilesModel, ip: Seq<char>, printer_id: Seq<char>, pincode: Seq<char>)
    ensures
        has_id(save_model(m, ip, printer_id, pincode).printers, save_model(m, ip, printer_id, pincode).active),
        config_of(
            save_model(m, ip, printer_id, pincode).printers[first_with_id(
                save_model(m, ip, printer_id, pincode).printers,
                save_model(m, ip, printer_id, pincode).active,
            )],
        ) == save_model(m, ip, printer_id, pincode).printer,
        save_model(m, ip, printer_id, pincode).printer == (PrinterConfigView { ip, printer_id, pincode }),
{
    let r = save_model(m, ip, printer_id, pincode);
    let id = r.active;
    if has_id(m.printers, id) {
        lemma_first_with_id(m.printers, id);
        let i = first_with_id(m.printers, id);
        assert(is_first_with_id(r.printers, id, i));
        lemma_first_unique(r.printers, id, i);
    } else {
        let i = m.printers.len() as int;
        assert(is_first_with_id(r.printers, id, i));
        lemma_first_unique(r.printers, id, i);
    }
}

pub open spec fn trimmed_or_empty(o: Option<String>) -> Seq<char> {
    match o {
        Some(p) => trim(p@),
        None => Seq::empty(),
    }
}

pub fn save_printer_settings(config: &mut AppConfig, req: SaveConfigRequest) -> (r: Result<(), AppError>)
    ensures
        final(config).same_settings(old(config)),
        match r {
            Ok(()) => {
                &&& req.ip@.len() > 0
                &&& req.printer_id@.len() > 0
                &&& (trimmed_or_empty(req.pincode).len() == 0 || valid_pincode(trimmed_or_empty(req.pincode)))
                &&& final(config).profiles_model() == save_model(
                    old(config).profiles_model(),
                    req.ip@,
                    req.printer_id@,
                    trimmed_or_empty(req.pincode),
                )
            },
            Err(e) => {
                &&& *final(config) == *old(config)
                &&& if req.ip@.len() == 0 {
                    e matches AppError::Setup(SetupError::VerificationFailed(m)) && m@
                        == "IP address is required"@
                } else if req.printer_id@.len() == 0 {
                    e matches AppError::Setup(SetupError::VerificationFailed(m)) && m@
                        == "Printer ID is required"@
                } else {
                    &&& trimmed_or_empty(req.pincode).len() > 0
                    &&& !valid_pincode(trimmed_or_empty(req.pincode))
                    &&& e == AppError::Setup(SetupError::InvalidPincode)
                }
            },
        },
{
    if req.ip.as_str().is_empty() {
        return Err(AppError::Setup(SetupError::VerificationFailed(lit("IP address is required"))));
    }
    if req.printer_id.as_str().is_empty() {
        return Err(AppError::Setup(SetupError::VerificationFailed(lit("Printer ID is required"))));
    }
    let pincode = match &req.pincode {
        Some(p) => trim_str(p.as_str()),
        None => String::new(),
    };
    if !pincode.as_str().is_empty() {
        if validate_pincode(pincode.as_str()).is_err() {
            return Err(AppError::Setup(SetupError::InvalidPincode));
        }
    }
    config.printer.ip = req.ip;
    config.printer.printer_id = req.printer_id;
    config.printer.pincode = pincode;
    let profile_id = printer_profile_id(config.printer.ip.as_str(), config.printer.printer_id.as_str());
    config.active_printer_id = profile_id.clone();
    let mut profile = PrinterProfile::from_config(profile_id.clone(), &config.printer);
    match find_profile(&config.printers, profile_id.as_str()) {
        Some(i) => {
            proof {
                lemma_first_unique(profiles_view(config.printers@), profile_id@, i as int);
            }
            profile.label = config.printers[i].label.clone();
            assert(profiles_view(config.printers@.update(i as int, profile)) =~= profiles_view(
                config.printers@,
            ).update(i as int, profile@));
            config.printers.set(i, profile);
        },
        None => {
            assert(profiles_view(config.printers@.push(profile)) =~= profiles_view(config.printers@).push(
                profile@,
            ));
            config.printers.push(profile);
        },
    }
    Ok(())
}

/// The destination after its id was seen to: its id kept, or a fresh random
/// one when empty.
pub open spec fn id_assigned(old: DestinationView, new: DestinationView) -> bool {
    if old.id.len() == 0 {
        &&& new == DestinationView { id: new.id, ..old }
        &&& new.id.len() == 8
        &&& exists|x: u32| new.id == hex_n(x as nat, 8)
    } else {
        new == old
    }
}

/// The destination after onboarding: its id kept, or a fresh random one when
/// empty; its progress interval clamped (0 stays 0, other values to 5..100);
/// every other field as given.
pub open spec fn onboarded(old: DestinationView, new: DestinationView) -> bool {
    if old.id.len() == 0 {
        &&& new == DestinationView {
            id: new.id,
            progress_interval: interval_spec(old.progress_interval),
            ..old
        }
        &&& new.id.len() == 8
        &&& exists|x: u32| new.id == hex_n(x as nat, 8)
    } else {
        new == with_clamped_interval(old)
    }
}

/// `complete_onboarding`: destinations without an id get a fresh one.
pub fn assign_missing_ids(ds: &mut Vec<NotificationDestination>)
    ensures
        final(ds)@.len() == old(ds)@.len(),
        forall|i: int| 0 <= i < old(ds)@.len() ==> id_assigned(#[trigger] old(ds)@[i]@, final(ds)@[i]@),
{
    let mut i: usize = 0;
    while i < ds.len()
        invariant
            0 <= i <= ds.len(),
            ds@.len() == old(ds)@.len(),
            forall|j: int| 0 <= j < i ==> id_assigned(#[trigger] old(ds)@[j]@, ds@[j]@),
            forall|j: int| i <= j < ds@.len() ==> #[trigger] ds@[j] == old(ds)@[j],
        decreases ds.len() - i,
    {
        if ds[i].id.as_str().is_empty() {
            let mut d = ds[i].duplicate();
            d.id = gen_id();
            ds.set(i, d);
        }
        i = i + 1;
    }
}

/// `complete_onboarding`: the detection service address, when given, and the
/// chosen destinations (with ids), replacing the configured ones; onboarding
/// is then marked as done. (The detection thresholds, floating point numbers,
/// are set by the caller.)
pub fn apply_onboarding(
    config: &mut AppConfig,
    obico_url: Option<String>,
    destinations: Option<Vec<NotificationDestination>>,
)
    ensures
        final(config).onboarding_complete,
        final(config).printer == old(config).printer,
        final(config).printers == old(config).printers,
        final(config).active_printer_id == old(config).active_printer_id,
        final(config).detection.obico_url@ == (match obico_url {
            Some(u) => u@,
            None => old(config).detection.obico_url@,
        }),
        final(config).detection.enabled == old(config).detection.enabled,
        final(config).detection.interval_secs == old(config).detection.interval_secs,
        final(config).detection.notify_threshold_bits == old(config).detection.notify_threshold_bits,
        final(config).detection.pause_threshold_bits == old(config).detection.pause_threshold_bits,
        final(config).detection.confirmation_frames == old(config).detection.confirmation_frames,
        final(config).detection.exclude_zones == old(config).detection.exclude_zones,
        final(config).server == old(config).server,
        final(config).logging == old(config).logging,
        match destinations {
            Some(ds) => {
                &&& final(config).notifications.destinations@.len() == ds@.len()
                &&& forall|i: int|
                    0 <= i < ds@.len() ==> onboarded(
                        #[trigger] ds@[i]@,
                        final(config).notifications.destinations@[i]@,
                    )
            },
            None => final(config).notifications == old(config).notifications,
        },
{
    if let Some(u) = obico_url {
        config.detection.obico_url = u;
    }
    if let Some(mut ds) = destinations {
        let ghost given = ds@;
        assign_missing_ids(&mut ds);
        let ghost mid = ds@;
        clamp_progress_intervals(&mut ds);
        proof {
            assert forall|i: int| 0 <= i < given.len() implies onboarded(#[trigger] given[i]@, ds@[i]@) by {
                assert(destinations_view(ds@)[i] == ds@[i]@);
                assert(destinations_view(mid)[i] == mid[i]@);
                assert(destinations_view(ds@)[i] == with_clamped_interval(destinations_view(mid)[i]));
                assert(id_assigned(given[i]@, mid[i]@));
            }
        }
        config.notifications.destinations = ds;
    }
    config.onboarding_complete = true;
}

} // verus!
