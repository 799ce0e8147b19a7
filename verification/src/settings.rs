//! Edits of the stored configuration made through the settings API and by a
//! settings import: the list of printer profiles, the selected printer and
//! the live printer settings.
use vstd::prelude::*;

use crate::config::{
    default_printer_label, find_profile, first_with_id, has_id, is_first_with_id, label_spec,
    lemma_first_unique, lemma_first_with_id, printer_profile_id, profile_id_spec, profiles_view,
    sync_active_printer_profile, sync_model, upsert_active_printer_profile, upsert_model,
    valid_pincode, validate_pincode, AppConfig, PrinterProfile, ProfileView, ProfilesModel,
};
use crate::destinations::{
    clamp_progress_intervals, destinations_view, with_clamped_interval, DestinationView,
};
use crate::error::{AppError, ConfigError};
use crate::text::{
    blank, is_blank, is_ws, lemma_trim_end_fixed, lemma_trim_ends, lemma_trim_idempotent,
    lemma_trim_start_fixed, same_text, lemma_lex_asymmetric, lemma_lex_irreflexive, lemma_lex_total,
    lemma_lex_transitive, lex_lt, text_lt, trim, trim_str,
};

verus! {

// ---------------------------------------------------------------------------
// Printer profile lists
// ---------------------------------------------------------------------------

/// A submitted profile with its texts trimmed, an id made up from its address
/// when none is given, and the default label when its label is blank.
pub open spec fn normalize_profile_view(p: ProfileView) -> ProfileView {
    let ip = trim(p.ip);
    let printer_id = trim(p.printer_id);
    ProfileView {
        id: if is_blank(p.id) {
            profile_id_spec(p.ip, p.printer_id)
        } else {
            trim(p.id)
        },
        label: if trim(p.label).len() == 0 {
            label_spec(ip, printer_id)
        } else {
            trim(p.label)
        },
        ip,
        printer_id,
        pincode: trim(p.pincode),
    }
}

pub open spec fn has_address(p: ProfileView) -> bool {
    !is_blank(p.ip)
}

/// The submitted profiles that have an address, normalized.
pub open spec fn kept_profiles(ps: Seq<ProfileView>) -> Seq<ProfileView> {
    ps.filter(|p: ProfileView| has_address(p)).map_values(|p: ProfileView| normalize_profile_view(p))
}

/// An empty access code, or a valid one.
pub open spec fn pincode_acceptable(p: ProfileView) -> bool {
    p.pincode.len() == 0 || valid_pincode(p.pincode)
}

pub open spec fn all_pincodes_acceptable(s: Seq<ProfileView>) -> bool {
    forall|i: int| 0 <= i < s.len() ==> pincode_acceptable(#[trigger] s[i])
}

pub open spec fn strictly_sorted_by_id(r: Seq<ProfileView>) -> bool {
    forall|i: int, j: int| 0 <= i < j < r.len() ==> lex_lt(r[i].id, r[j].id)
}

/// Every entry of `r` is the first entry of `s` with its id.
pub open spec fn first_entries_of(s: Seq<ProfileView>, r: Seq<ProfileView>) -> bool {
    forall|i: int|
        #![trigger r[i]]
        0 <= i < r.len() ==> has_id(s, r[i].id) && s[first_with_id(s, r[i].id)] == r[i]
}

/// Every id of `s` is in `r`.
pub open spec fn covers_ids(s: Seq<ProfileView>, r: Seq<ProfileView>) -> bool {
    forall|k: int| #![trigger s[k]] 0 <= k < s.len() ==> has_id(r, s[k].id)
}

/// `r` is `s` sorted by id with only the first profile of each id kept, as a
/// stable sort followed by a dedup by id gives it.
pub open spec fn sorted_first_by_id(s: Seq<ProfileView>, r: Seq<ProfileView>) -> bool {
    &&& strictly_sorted_by_id(r)
    &&& first_entries_of(s, r)
    &&& covers_ids(s, r)
}

proof fn lemma_first_extend(s: Seq<ProfileView>, x: ProfileView, id: Seq<char>)
    requires
        has_id(s, id),
    ensures
        has_id(s.push(x), id),
        first_with_id(s.push(x), id) == first_with_id(s, id),
{
    lemma_first_with_id(s, id);
    let k = first_with_id(s, id);
    assert(is_first_with_id(s.push(x), id, k));
    lemma_first_unique(s.push(x), id, k);
}

proof fn lemma_first_new(s: Seq<ProfileView>, x: ProfileView)
    requires
        !has_id(s, x.id),
    ensures
        has_id(s.push(x), x.id),
        first_with_id(s.push(x), x.id) == s.len(),
{
    assert(is_first_with_id(s.push(x), x.id, s.len() as int));
    lemma_first_unique(s.push(x), x.id, s.len() as int);
}

/// Position at which a profile with an id not in `r` keeps `r` sorted.
fn insert_position(r: &Vec<PrinterProfile>, id: &str) -> (k: usize)
    ensures
        k <= r@.len(),
        forall|j: int| 0 <= j < k ==> !lex_lt(id@, #[trigger] profiles_view(r@)[j].id),
        k == r@.len() || lex_lt(id@, profiles_view(r@)[k as int].id),
{
    let mut k: usize = 0;
    while k < r.len() && !text_lt(id, r[k].id.as_str())
        invariant
            0 <= k <= r@.len(),
            forall|j: int| 0 <= j < k ==> !lex_lt(id@, #[trigger] profiles_view(r@)[j].id),
        decreases r.len() - k,
    {
        k = k + 1;
    }
    k
}

proof fn lemma_insert_keeps_order(rv: Seq<ProfileView>, x: ProfileView, k: int)
    requires
        strictly_sorted_by_id(rv),
        !has_id(rv, x.id),
        0 <= k <= rv.len(),
        forall|j: int| 0 <= j < k ==> !lex_lt(x.id, #[trigger] rv[j].id),
        k == rv.len() || lex_lt(x.id, rv[k].id),
    ensures
        strictly_sorted_by_id(rv.insert(k, x)),
{
    let w = rv.insert(k, x);
    rv.insert_ensures(k, x);
    assert forall|j: int| 0 <= j < k implies lex_lt(#[trigger] rv[j].id, x.id) by {
        lemma_lex_total(rv[j].id, x.id);
    }
    assert forall|j: int| k <= j < rv.len() implies lex_lt(x.id, #[trigger] rv[j].id) by {
        if j > k {
            lemma_lex_transitive(x.id, rv[k].id, rv[j].id);
        }
    }
    assert forall|a: int, b: int| 0 <= a < b < w.len() implies lex_lt(w[a].id, w[b].id) by {
        if b < k {
        } else if b == k {
            assert(w[a] == rv[a]);
        } else if a < k {
            assert(w[b] == rv[b - 1]);
            lemma_lex_transitive(rv[a].id, x.id, rv[b - 1].id);
        } else if a == k {
            assert(w[b] == rv[b - 1]);
        } else {
            assert(w[a] == rv[a - 1] && w[b] == rv[b - 1]);
        }
    }
}

proof fn lemma_step_insert(s: Seq<ProfileView>, rv: Seq<ProfileView>, x: ProfileView, k: int)
    requires
        sorted_first_by_id(s, rv),
        !has_id(rv, x.id),
        0 <= k <= rv.len(),
        forall|j: int| 0 <= j < k ==> !lex_lt(x.id, #[trigger] rv[j].id),
        k == rv.len() || lex_lt(x.id, rv[k].id),
    ensures
        sorted_first_by_id(s.push(x), rv.insert(k, x)),
{
    let w = rv.insert(k, x);
    let t = s.push(x);
    rv.insert_ensures(k, x);
    lemma_insert_keeps_order(rv, x, k);
    assert(!has_id(s, x.id)) by {
        if has_id(s, x.id) {
            let m = choose|m: int| 0 <= m < s.len() && s[m].id == x.id;
            assert(has_id(rv, s[m].id));
        }
    }
    lemma_first_new(s, x);
    assert forall|i: int| 0 <= i < w.len() implies has_id(t, #[trigger] w[i].id) && t[first_with_id(
        t,
        w[i].id,
    )] == w[i] by {
        if i == k {
        } else {
            let m = if i < k { i } else { i - 1 };
            assert(w[i] == rv[m]);
            assert(has_id(s, rv[m].id) && s[first_with_id(s, rv[m].id)] == rv[m]);
            lemma_first_extend(s, x, rv[m].id);
            lemma_first_with_id(s, rv[m].id);
        }
    }
    assert forall|kk: int| 0 <= kk < t.len() implies has_id(w, #[trigger] t[kk].id) by {
        if kk == s.len() {
            assert(w[k] == x);
        } else {
            assert(t[kk] == s[kk]);
            assert(has_id(rv, s[kk].id));
            let m = choose|m: int| 0 <= m < rv.len() && rv[m].id == s[kk].id;
            if m < k {
                assert(w[m] == rv[m]);
            } else {
                assert(w[m + 1] == rv[m]);
            }
        }
    }
}

proof fn lemma_step_skip(s: Seq<ProfileView>, rv: Seq<ProfileView>, x: ProfileView)
    requires
        sorted_first_by_id(s, rv),
        has_id(rv, x.id),
    ensures
        sorted_first_by_id(s.push(x), rv),
{
    let t = s.push(x);
    assert forall|i: int| 0 <= i < rv.len() implies has_id(t, #[trigger] rv[i].id) && t[first_with_id(
        t,
        rv[i].id,
    )] == rv[i] by {
        lemma_first_extend(s, x, rv[i].id);
        lemma_first_with_id(s, rv[i].id);
    }
    assert forall|kk: int| 0 <= kk < t.len() implies has_id(rv, #[trigger] t[kk].id) by {
        if kk < s.len() {
            assert(t[kk] == s[kk]);
        }
    }
}

proof fn lemma_same_ids_sorted_equal(s: Seq<ProfileView>, r1: Seq<ProfileView>, r2: Seq<ProfileView>)
    requires
        strictly_sorted_by_id(r1),
        strictly_sorted_by_id(r2),
        first_entries_of(s, r1),
        first_entries_of(s, r2),
        forall|x: Seq<char>| has_id(r1, x) <==> has_id(r2, x),
    ensures
        r1 == r2,
    decreases r1.len(),
{
    if r1.len() == 0 {
        if r2.len() > 0 {
            assert(has_id(r2, r2[0].id));
        }
        assert(r1 =~= r2);
    } else {
        assert(has_id(r1, r1[0].id));
        assert(has_id(r2, r1[0].id));
        let j = choose|j: int| 0 <= j < r2.len() && r2[j].id == r1[0].id;
        assert(has_id(r2, r2[0].id));
        assert(has_id(r1, r2[0].id));
        let k = choose|k: int| 0 <= k < r1.len() && r1[k].id == r2[0].id;
        if j > 0 {
            assert(lex_lt(r2[0].id, r2[j].id));
            if k > 0 {
                assert(lex_lt(r1[0].id, r1[k].id));
                lemma_lex_asymmetric(r1[0].id, r1[k].id);
            } else {
                lemma_lex_irreflexive(r1[0].id);
            }
        }
        assert(r1[0] == r2[0]);
        let t1 = r1.drop_first();
        let t2 = r2.drop_first();
        assert forall|x: Seq<char>| has_id(t1, x) <==> has_id(t2, x) by {
            if has_id(t1, x) {
                let a = choose|a: int| 0 <= a < t1.len() && t1[a].id == x;
                assert(r1[a + 1].id == x);
                assert(has_id(r1, x));
                let b = choose|b: int| 0 <= b < r2.len() && r2[b].id == x;
                if b == 0 {
                    assert(lex_lt(r1[0].id, r1[a + 1].id));
                    lemma_lex_irreflexive(x);
                }
                assert(t2[b - 1].id == x);
            }
            if has_id(t2, x) {
                let b = choose|b: int| 0 <= b < t2.len() && t2[b].id == x;
                assert(r2[b + 1].id == x);
                assert(has_id(r2, x));
                let a = choose|a: int| 0 <= a < r1.len() && r1[a].id == x;
                if a == 0 {
                    assert(lex_lt(r2[0].id, r2[b + 1].id));
                    lemma_lex_irreflexive(x);
                }
                assert(t1[a - 1].id == x);
            }
        }
        assert forall|i: int| 0 <= i < t1.len() implies #[trigger] t1[i] == r1[i + 1] by {}
        assert forall|i: int| 0 <= i < t2.len() implies #[trigger] t2[i] == r2[i + 1] by {}
        lemma_same_ids_sorted_equal(s, t1, t2);
        assert(r1 =~= r2) by {
            assert forall|i: int| 0 <= i < r1.len() implies r1[i] == r2[i] by {
                if i > 0 {
                    assert(r1[i] == t1[i - 1]);
                    assert(r2[i] == t2[i - 1]);
                }
            }
        }
    }
}

/// At most one list is `s` sorted by id with the first profile of each id kept.
pub proof fn lemma_sorted_first_unique(s: Seq<ProfileView>, r1: Seq<ProfileView>, r2: Seq<ProfileView>)
    requires
        sorted_first_by_id(s, r1),
        sorted_first_by_id(s, r2),
    ensures
        r1 == r2,
{
    assert forall|x: Seq<char>| has_id(r1, x) <==> has_id(r2, x) by {
        if has_id(r1, x) {
            let a = choose|a: int| 0 <= a < r1.len() && r1[a].id == x;
            assert(has_id(s, r1[a].id));
            lemma_first_with_id(s, x);
            let m = first_with_id(s, x);
            assert(has_id(r2, s[m].id));
        }
        if has_id(r2, x) {
            let a = choose|a: int| 0 <= a < r2.len() && r2[a].id == x;
            assert(has_id(s, r2[a].id));
            lemma_first_with_id(s, x);
            let m = first_with_id(s, x);
            assert(has_id(r1, s[m].id));
        }
    }
    lemma_same_ids_sorted_equal(s, r1, r2);
}

/// The profile list stored for submitted profiles `ps` (when their access
/// codes are acceptable): the kept profiles sorted by id, the first of each id.
pub open spec fn sorted_profiles(ps: Seq<ProfileView>) -> Seq<ProfileView> {
    choose|r: Seq<ProfileView>| sorted_first_by_id(kept_profiles(ps), r)
}

fn normalize_profile(p: &PrinterProfile) -> (r: PrinterProfile)
    ensures
        r@ == normalize_profile_view(p@),
{
    let id = if blank(p.id.as_str()) {
        printer_profile_id(p.ip.as_str(), p.printer_id.as_str())
    } else {
        trim_str(p.id.as_str())
    };
    let ip = trim_str(p.ip.as_str());
    let printer_id = trim_str(p.printer_id.as_str());
    let pincode = trim_str(p.pincode.as_str());
    let trimmed_label = trim_str(p.label.as_str());
    let label = if trimmed_label.as_str().is_empty() {
        default_printer_label(ip.as_str(), printer_id.as_str())
    } else {
        trimmed_label
    };
    PrinterProfile { id, label, ip, printer_id, pincode }
}

/// The profile list that the settings API stores: profiles without an address
/// are dropped, the rest normalized, sorted by id, and only the first profile
/// of each id kept. Refused when a kept profile has an invalid access code.
pub fn normalize_printer_profiles(profiles: &Vec<PrinterProfile>) -> (r: Result<Vec<PrinterProfile>, AppError>)
    ensures
        match r {
            Ok(v) => {
                &&& all_pincodes_acceptable(kept_profiles(profiles_view(profiles@)))
                &&& sorted_first_by_id(kept_profiles(profiles_view(profiles@)), profiles_view(v@))
                &&& profiles_view(v@) == sorted_profiles(profiles_view(profiles@))
            },
            Err(e) => !all_pincodes_acceptable(kept_profiles(profiles_view(profiles@))) && e
                == AppError::Config(ConfigError::InvalidPincode),
        },
{
    let ghost has_addr = |p: ProfileView| has_address(p);
    let ghost norm = |p: ProfileView| normalize_profile_view(p);
    let ghost pv = profiles_view(profiles@);
    // keep, normalize and check
    let mut kept: Vec<PrinterProfile> = Vec::new();
    let mut i: usize = 0;
    while i < profiles.len()
        invariant
            0 <= i <= profiles.len(),
            pv == profiles_view(profiles@),
            has_addr == (|p: ProfileView| has_address(p)),
            norm == (|p: ProfileView| normalize_profile_view(p)),
            profiles_view(kept@) == pv.take(i as int).filter(has_addr).map_values(norm),
            all_pincodes_acceptable(profiles_view(kept@)),
        decreases profiles.len() - i,
    {
        proof {
            reveal_with_fuel(Seq::<_>::filter, 1);
            assert(pv.take(i + 1).drop_last() =~= pv.take(i as int));
            assert(pv.take(i + 1).last() == profiles@[i as int]@);
        }
        let p = &profiles[i];
        if !blank(p.ip.as_str()) {
            let q = normalize_profile(p);
            if !q.pincode.as_str().is_empty() {
                match validate_pincode(q.pincode.as_str()) {
                    Ok(()) => {},
                    Err(_) => {
                        proof {
                            let f = pv.filter(has_addr);
                            let fi = pv.take(i + 1).filter(has_addr);
                            assert(fi.last() == profiles@[i as int]@);
                            assert(pv.take(i + 1).is_prefix_of(pv));
                            pv.take(i + 1).lemma_filter_monotone(pv, has_addr);
                            let kk = fi.len() - 1;
                            assert(f[kk] == fi[kk]);
                            assert(kept_profiles(pv)[kk] == normalize_profile_view(f[kk]));
                            assert(!pincode_acceptable(kept_profiles(pv)[kk]));
                        }
                        return Err(AppError::Config(ConfigError::InvalidPincode));
                    },
                }
            }
            let ghost before = kept@;
            kept.push(q);
            assert(profiles_view(kept@) =~= profiles_view(before).push(q@));
        }
        i = i + 1;
    }
    assert(pv.take(pv.len() as int) =~= pv);
    let ghost s = profiles_view(kept@);
    assert(s == kept_profiles(pv));
    // sort by id, keeping the first profile of each id
    let mut r: Vec<PrinterProfile> = Vec::new();
    let mut j: usize = 0;
    while j < kept.len()
        invariant
            0 <= j <= kept.len(),
            s == profiles_view(kept@),
            sorted_first_by_id(s.take(j as int), profiles_view(r@)),
        decreases kept.len() - j,
    {
        let ghost rv = profiles_view(r@);
        let ghost x = s[j as int];
        assert(s.take(j + 1) =~= s.take(j as int).push(x));
        let x_id = kept[j].id.as_str();
        match find_profile(&r, x_id) {
            Some(_) => {
                proof {
                    lemma_step_skip(s.take(j as int), rv, x);
                }
            },
            None => {
                let k = insert_position(&r, x_id);
                proof {
                    lemma_step_insert(s.take(j as int), rv, x, k as int);
                }
                let q = kept[j].duplicate();
                r.insert(k, q);
                assert(profiles_view(r@) =~= rv.insert(k as int, x));
            },
        }
        j = j + 1;
    }
    assert(s.take(s.len() as int) =~= s);
    proof {
        let c = sorted_profiles(pv);
        assert(sorted_first_by_id(kept_profiles(pv), profiles_view(r@)));
        lemma_sorted_first_unique(kept_profiles(pv), c, profiles_view(r@));
    }
    Ok(r)
}

// ---------------------------------------------------------------------------
// Storing a stored list again
// ---------------------------------------------------------------------------

/// A text that neither begins nor ends with whitespace is its own trim.
proof fn lemma_trim_fixed(s: Seq<char>)
    requires
        s.len() == 0 || (!is_ws(s[0]) && !is_ws(s.last())),
    ensures
        trim(s) == s,
{
    lemma_trim_start_fixed(s);
    lemma_trim_end_fixed(s);
}

/// A trimmed text that is not empty ends in a character that is not whitespace.
proof fn lemma_trimmed_last(s: Seq<char>)
    requires
        trim(s).len() > 0,
    ensures
        !is_ws(trim(s).last()),
        !is_ws(trim(s)[0]),
{
    lemma_trim_ends(s);
}

proof fn lemma_profile_id_trimmed(ip: Seq<char>, printer_id: Seq<char>)
    requires
        !is_blank(ip),
    ensures
        trim(profile_id_spec(ip, printer_id)) == profile_id_spec(ip, printer_id),
        profile_id_spec(ip, printer_id).len() > 0,
{
    reveal_strlit("cc2-");
    let id = profile_id_spec(ip, printer_id);
    if !is_blank(printer_id) {
        lemma_trimmed_last(printer_id);
        assert(id.last() == trim(printer_id).last());
    } else {
        lemma_trimmed_last(ip);
        let t = trim(ip);
        let d = crate::config::dots_to_dashes(t);
        assert(d.last() == (if t.last() == '.' { '-' } else { t.last() }));
        assert(id.last() == d.last());
    }
    assert(id[0] == 'c');
    lemma_trim_fixed(id);
}

proof fn lemma_label_trimmed(ip: Seq<char>, printer_id: Seq<char>)
    requires
        trim(ip) == ip,
        trim(printer_id) == printer_id,
    ensures
        trim(label_spec(ip, printer_id)) == label_spec(ip, printer_id),
        label_spec(ip, printer_id).len() > 0,
{
    reveal_strlit("CC2 ");
    reveal_strlit("Elegoo CC2");
    let l = label_spec(ip, printer_id);
    if printer_id.len() > 0 {
        lemma_trimmed_last(printer_id);
        assert(l.last() == printer_id.last());
    } else if ip.len() > 0 {
        lemma_trimmed_last(ip);
        assert(l.last() == ip.last());
    } else {
        assert(l.last() == '2');
    }
    assert(l[0] == 'C' || l[0] == 'E');
    lemma_trim_fixed(l);
}

/// A normalized profile that has an address is kept, and normalizing it again
/// changes nothing.
proof fn lemma_normalize_profile_fixed(p: ProfileView)
    requires
        has_address(p),
    ensures
        has_address(normalize_profile_view(p)),
        normalize_profile_view(normalize_profile_view(p)) == normalize_profile_view(p),
{
    let q = normalize_profile_view(p);
    lemma_trim_idempotent(p.ip);
    lemma_trim_idempotent(p.printer_id);
    lemma_trim_idempotent(p.pincode);
    lemma_trim_idempotent(p.id);
    lemma_trim_idempotent(p.label);
    if is_blank(p.id) {
        lemma_profile_id_trimmed(p.ip, p.printer_id);
    }
    assert(!is_blank(q.id));
    if trim(p.label).len() == 0 {
        lemma_label_trimmed(trim(p.ip), trim(p.printer_id));
    }
    assert(trim(q.label) == q.label && q.label.len() > 0);
}

/// Filtering by a predicate that every element meets keeps the sequence.
pub proof fn lemma_filter_all<A>(s: Seq<A>, pred: spec_fn(A) -> bool)
    requires
        forall|i: int| 0 <= i < s.len() ==> pred(#[trigger] s[i]),
    ensures
        s.filter(pred) == s,
    decreases s.len(),
{
    reveal_with_fuel(Seq::<_>::filter, 1);
    if s.len() > 0 {
        lemma_filter_all(s.drop_last(), pred);
        assert(s.drop_last().push(s.last()) =~= s);
    } else {
        assert(s.filter(pred) =~= s);
    }
}

/// Storing the stored profile list again changes nothing: a list that the
/// settings API stored is accepted as it is.
pub proof fn law_profile_normalization_idempotent(ps: Seq<ProfileView>, r: Seq<ProfileView>)
    requires
        all_pincodes_acceptable(kept_profiles(ps)),
        sorted_first_by_id(kept_profiles(ps), r),
    ensures
        all_pincodes_acceptable(kept_profiles(r)),
        sorted_profiles(r) == r,
{
    let has_addr = |p: ProfileView| has_address(p);
    let norm = |p: ProfileView| normalize_profile_view(p);
    let f = ps.filter(has_addr);
    let s = kept_profiles(ps);
    assert(s == f.map_values(norm));
    // every stored profile is a normalized submitted profile with an address
    assert forall|i: int| 0 <= i < r.len() implies has_address(#[trigger] r[i]) && normalize_profile_view(r[i])
        == r[i] && pincode_acceptable(r[i]) by {
        assert(has_id(s, r[i].id));
        lemma_first_with_id(s, r[i].id);
        let k = first_with_id(s, r[i].id);
        assert(s[k] == r[i]);
        ps.lemma_filter_pred(has_addr, k);
        assert(has_address(f[k]));
        lemma_normalize_profile_fixed(f[k]);
        assert(s[k] == normalize_profile_view(f[k]));
    }
    lemma_filter_all(r, has_addr);
    assert(r.map_values(norm) =~= r);
    assert(kept_profiles(r) == r);
    // the list is its own sorted, deduplicated form
    assert forall|i: int| 0 <= i < r.len() implies has_id(r, #[trigger] r[i].id) && r[first_with_id(r, r[i].id)]
        == r[i] by {
        assert(crate::config::is_first_with_id(r, r[i].id, i)) by {
            assert forall|j: int| 0 <= j < i implies r[j].id != r[i].id by {
                assert(lex_lt(r[j].id, r[i].id));
                lemma_lex_irreflexive(r[i].id);
            }
        }
        lemma_first_unique(r, r[i].id, i);
    }
    assert forall|k: int| 0 <= k < r.len() implies has_id(r, #[trigger] r[k].id) by {}
    assert(sorted_first_by_id(r, r));
    lemma_sorted_first_unique(r, sorted_profiles(r), r);
}

// ---------------------------------------------------------------------------
// Printer selection and live printer settings
// ---------------------------------------------------------------------------

/// Selecting a printer by id: the id is stored trimmed, and when a profile has
/// it the live printer settings become that profile's.
pub open spec fn select_model(m: ProfilesModel, id: Seq<char>) -> ProfilesModel {
    let a = trim(id);
    if has_id(m.printers, a) {
        ProfilesModel {
            printer: crate::config::config_of(m.printers[first_with_id(m.printers, a)]),
            active: a,
            ..m
        }
    } else {
        ProfilesModel { active: a, ..m }
    }
}

pub fn apply_active_selection(config: &mut AppConfig, active_id: &str)
    ensures
        final(config).profiles_model() == select_model(old(config).profiles_model(), active_id@),
        final(config).same_settings(old(config)),
{
    config.active_printer_id = trim_str(active_id);
    match find_profile(&config.printers, config.active_printer_id.as_str()) {
        Some(i) => {
            proof {
                lemma_first_unique(profiles_view(config.printers@), config.active_printer_id@, i as int);
            }
            config.printer = config.printers[i].to_config();
        },
        None => {},
    }
}

pub open spec fn opt_trim(o: Option<String>, d: Seq<char>) -> Seq<char> {
    match o {
        Some(v) => trim(v@),
        None => d,
    }
}

/// Writes submitted printer fields (trimmed) into the live printer settings,
/// then stores them in the active profile. A non-empty access code must be
/// valid; when it is not, the address and printer id are already written and
/// nothing else is.
pub fn apply_printer_fields(
    config: &mut AppConfig,
    ip: Option<String>,
    printer_id: Option<String>,
    pincode: Option<String>,
) -> (r: Result<(), AppError>)
    ensures
        final(config).same_settings(old(config)),
        ({
            let m = old(config).profiles_model();
            let written = crate::config::PrinterConfigView {
                ip: opt_trim(ip, m.printer.ip),
                printer_id: opt_trim(printer_id, m.printer.printer_id),
                pincode: m.printer.pincode,
            };
            match r {
                Ok(()) => {
                    &&& (pincode matches Some(p) ==> trim(p@).len() == 0 || valid_pincode(trim(p@)))
                    &&& final(config).profiles_model() == upsert_model(
                        ProfilesModel {
                            printer: crate::config::PrinterConfigView {
                                pincode: opt_trim(pincode, m.printer.pincode),
                                ..written
                            },
                            ..m
                        },
                    )
                },
                Err(e) => {
                    &&& pincode matches Some(p) && trim(p@).len() > 0 && !valid_pincode(trim(p@))
                    &&& e == AppError::Config(ConfigError::InvalidPincode)
                    &&& final(config).profiles_model() == ProfilesModel { printer: written, ..m }
                },
            }
        }),
{
    if let Some(v) = ip {
        config.printer.ip = trim_str(v.as_str());
    }
    if let Some(v) = printer_id {
        config.printer.printer_id = trim_str(v.as_str());
    }
    if let Some(v) = pincode {
        let normalized = trim_str(v.as_str());
        if !normalized.as_str().is_empty() {
            if validate_pincode(normalized.as_str()).is_err() {
                return Err(AppError::Config(ConfigError::InvalidPincode));
            }
        }
        config.printer.pincode = normalized;
    }
    upsert_active_printer_profile(config);
    Ok(())
}

// ---------------------------------------------------------------------------
// A whole settings update
// ---------------------------------------------------------------------------

/// Submitted live printer fields; a missing field keeps its value.
#[derive(Debug, Clone)]
pub struct PrinterFieldsUpdate {
    pub ip: Option<String>,
    pub printer_id: Option<String>,
    pub pincode: Option<String>,
}

/// The fields of a settings update; a missing field keeps its value. The
/// detection thresholds, which are floating point numbers, are not among them:
/// the caller sets them once the update succeeded.
#[derive(Debug, Clone)]
pub struct SettingsUpdate {
    pub printers: Option<Vec<PrinterProfile>>,
    pub active_printer_id: Option<String>,
    pub printer: Option<PrinterFieldsUpdate>,
    pub detection_enabled: Option<bool>,
    pub detection_interval_secs: Option<u64>,
    pub detection_obico_url: Option<String>,
    pub server_host: Option<String>,
    pub server_port: Option<u64>,
    pub logging_level: Option<String>,
}

/// What the printer link needs after an update: nothing when the live printer
/// settings are unchanged; otherwise the new settings, and a start when the
/// printer has an address.
#[derive(Debug, Clone, Copy, PartialEq, Eq, Structural)]
pub enum PrinterLinkChange {
    Unchanged,
    Reconfigure,
    ReconfigureAndStart,
}

pub open spec fn link_change(
    before: crate::config::PrinterConfigView,
    after: crate::config::PrinterConfigView,
) -> PrinterLinkChange {
    if before == after {
        PrinterLinkChange::Unchanged
    } else if after.ip.len() > 0 {
        PrinterLinkChange::ReconfigureAndStart
    } else {
        PrinterLinkChange::Reconfigure
    }
}

/// The printer link is left alone exactly when the live address, printer id
/// and access code are all unchanged. A change of any of the three
/// reconfigures the link, and restarts it when the printer has an address.
pub proof fn law_link_change(before: crate::config::PrinterConfigView, after: crate::config::PrinterConfigView)
    ensures
        (link_change(before, after) == PrinterLinkChange::Unchanged) <==> (before.ip == after.ip
            && before.printer_id == after.printer_id && before.pincode == after.pincode),
        (before.ip != after.ip || before.printer_id != after.printer_id || before.pincode
            != after.pincode) && after.ip.len() > 0 ==> link_change(before, after)
            == PrinterLinkChange::ReconfigureAndStart,
        (before.ip != after.ip || before.printer_id != after.printer_id || before.pincode
            != after.pincode) && after.ip.len() == 0 ==> link_change(before, after)
            == PrinterLinkChange::Reconfigure,
{
}

pub open spec fn opt_view(o: Option<String>) -> Option<Seq<char>> {
    match o {
        Some(s) => Some(s@),
        None => None,
    }
}

pub open spec fn opt_profiles(o: Option<Vec<PrinterProfile>>) -> Option<Seq<ProfileView>> {
    match o {
        Some(v) => Some(profiles_view(v@)),
        None => None,
    }
}

/// The submitted profile list has a kept profile with an invalid access code.
pub open spec fn profiles_rejected(ps: Option<Seq<ProfileView>>) -> bool {
    ps matches Some(p) && !all_pincodes_acceptable(kept_profiles(p))
}

/// A submitted access code that is not empty once trimmed and not valid.
pub open spec fn pincode_rejected(p: Option<String>) -> bool {
    p matches Some(v) && trim(v@).len() > 0 && !valid_pincode(trim(v@))
}

pub open spec fn printers_step(m: ProfilesModel, ps: Option<Seq<ProfileView>>) -> ProfilesModel {
    match ps {
        Some(p) => ProfilesModel { printers: sorted_profiles(p), ..m },
        None => m,
    }
}

pub open spec fn selection_step(m: ProfilesModel, id: Option<Seq<char>>) -> ProfilesModel {
    match id {
        Some(a) => select_model(m, a),
        None => m,
    }
}

/// The address and printer id of submitted printer fields written.
pub open spec fn printer_written(m: ProfilesModel, f: PrinterFieldsUpdate) -> ProfilesModel {
    ProfilesModel {
        printer: crate::config::PrinterConfigView {
            ip: opt_trim(f.ip, m.printer.ip),
            printer_id: opt_trim(f.printer_id, m.printer.printer_id),
            pincode: m.printer.pincode,
        },
        ..m
    }
}

pub open spec fn printer_step(m: ProfilesModel, f: Option<PrinterFieldsUpdate>) -> ProfilesModel {
    match f {
        Some(f) => {
            let w = printer_written(m, f);
            upsert_model(
                ProfilesModel {
                    printer: crate::config::PrinterConfigView {
                        pincode: opt_trim(f.pincode, m.printer.pincode),
                        ..w.printer
                    },
                    ..w
                },
            )
        },
        None => m,
    }
}

/// No two profiles share an id.
pub open spec fn distinct_profile_ids(ps: Seq<ProfileView>) -> bool {
    forall|a: int, b: int| 0 <= a < b < ps.len() ==> ps[a].id != ps[b].id
}

proof fn lemma_upsert_keeps_ids_distinct(m: ProfilesModel)
    requires
        distinct_profile_ids(m.printers),
    ensures
        distinct_profile_ids(upsert_model(m).printers),
{
    if m.printer.ip.len() > 0 {
        let r = upsert_model(m);
        let id = r.active;
        if has_id(m.printers, id) {
            lemma_first_with_id(m.printers, id);
            let k = first_with_id(m.printers, id);
            assert forall|a: int, b: int| 0 <= a < b < r.printers.len() implies r.printers[a].id
                != r.printers[b].id by {
                if a == k {
                    assert(m.printers[b].id != m.printers[k].id);
                } else if b == k {
                    assert(m.printers[a].id != m.printers[k].id);
                }
            }
        } else {
            assert forall|a: int, b: int| 0 <= a < b < r.printers.len() implies r.printers[a].id
                != r.printers[b].id by {
                if b == m.printers.len() {
                    assert(r.printers[a] == m.printers[a]);
                }
            }
        }
    }
}

/// After an accepted settings update, a live printer with an address is the
/// active printer, and exactly one stored profile has the active id; it holds
/// the live printer settings. (The stored list has distinct ids to begin with,
/// or a new list is submitted.)
pub proof fn law_settings_update_one_active(
    m: ProfilesModel,
    ps: Option<Seq<ProfileView>>,
    id: Option<Seq<char>>,
    f: Option<PrinterFieldsUpdate>,
)
    requires
        ps matches Some(p) ==> sorted_first_by_id(kept_profiles(p), sorted_profiles(p)),
        ps is None ==> distinct_profile_ids(m.printers),
    ensures
        ({
            let r = upsert_model(printer_step(selection_step(printers_step(m, ps), id), f));
            r.printer.ip.len() > 0 ==> {
                &&& r.active.len() > 0
                &&& has_id(r.printers, r.active)
                &&& crate::config::config_of(r.printers[first_with_id(r.printers, r.active)]) == r.printer
                &&& forall|i: int, j: int|
                    0 <= i < r.printers.len() && 0 <= j < r.printers.len() && r.printers[i].id == r.active
                        && r.printers[j].id == r.active ==> i == j
            }
        }),
{
    let m0 = printers_step(m, ps);
    if let Some(p) = ps {
        assert forall|a: int, b: int| 0 <= a < b < m0.printers.len() implies m0.printers[a].id
            != m0.printers[b].id by {
            lemma_lex_irreflexive(m0.printers[a].id);
        }
    }
    let m1 = selection_step(m0, id);
    assert(m1.printers == m0.printers);
    let x = printer_step(m1, f);
    if let Some(g) = f {
        let w = printer_written(m1, g);
        lemma_upsert_keeps_ids_distinct(
            ProfilesModel {
                printer: crate::config::PrinterConfigView { pincode: opt_trim(g.pincode, m1.printer.pincode), ..w.printer },
                ..w
            },
        );
    }
    assert(distinct_profile_ids(x.printers));
    lemma_upsert_keeps_ids_distinct(x);
    let r = upsert_model(x);
    if r.printer.ip.len() > 0 {
        crate::config::law_upsert_stores_live_printer(x);
        assert(r.active.len() > 0) by {
            reveal_strlit("cc2-");
        }
        assert forall|i: int, j: int|
            0 <= i < r.printers.len() && 0 <= j < r.printers.len() && r.printers[i].id == r.active
                && r.printers[j].id == r.active implies i == j by {
            if i < j {
                assert(r.printers[i].id != r.printers[j].id);
            } else if j < i {
                assert(r.printers[j].id != r.printers[i].id);
            }
        }
    }
}

/// The settings outside the printer selection after an update.
pub open spec fn other_settings_updated(old: AppConfig, new: AppConfig, u: SettingsUpdate) -> bool {
    &&& new.detection.enabled == (match u.detection_enabled {
        Some(b) => b,
        None => old.detection.enabled,
    })
    &&& new.detection.interval_secs == (match u.detection_interval_secs {
        Some(v) => if (v as u32) < 5 {
            5u32
        } else {
            v as u32
        },
        None => old.detection.interval_secs,
    })
    &&& new.detection.obico_url@ == (match u.detection_obico_url {
        Some(s) => s@,
        None => old.detection.obico_url@,
    })
    &&& new.detection.notify_threshold_bits == old.detection.notify_threshold_bits
    &&& new.detection.pause_threshold_bits == old.detection.pause_threshold_bits
    &&& new.detection.confirmation_frames == old.detection.confirmation_frames
    &&& new.detection.exclude_zones == old.detection.exclude_zones
    &&& new.notifications == old.notifications
    &&& new.server.host@ == (match u.server_host {
        Some(s) => s@,
        None => old.server.host@,
    })
    &&& new.server.port == (match u.server_port {
        Some(v) => v as u16,
        None => old.server.port,
    })
    &&& new.logging.level@ == (match u.logging_level {
        Some(s) => s@,
        None => old.logging.level@,
    })
    &&& new.onboarding_complete == old.onboarding_complete
}

/// `update_settings`: applies the submitted profiles, the selected printer, the
/// live printer fields and the other settings, in that order, then stores the
/// live printer in the active profile. A profile list with an invalid access
/// code is refused with nothing changed; an invalid live access code is
/// refused after the steps before it took effect.
pub fn apply_settings_update(config: &mut AppConfig, update: SettingsUpdate) -> (r: Result<
    PrinterLinkChange,
    AppError,
>)
    ensures
        ({
            let m1 = selection_step(
                printers_step(old(config).profiles_model(), opt_profiles(update.printers)),
                opt_view(update.active_printer_id),
            );
            match r {
                Err(e) => {
                    &&& e == AppError::Config(ConfigError::InvalidPincode)
                    &&& if profiles_rejected(opt_profiles(update.printers)) {
                        *final(config) == *old(config)
                    } else {
                        &&& update.printer matches Some(f) && pincode_rejected(f.pincode)
                        &&& final(config).profiles_model() == printer_written(m1, update.printer->0)
                        &&& final(config).same_settings(old(config))
                    }
                },
                Ok(change) => {
                    &&& !profiles_rejected(opt_profiles(update.printers))
                    &&& !(update.printer matches Some(f) && pincode_rejected(f.pincode))
                    &&& final(config).profiles_model() == upsert_model(printer_step(m1, update.printer))
                    &&& other_settings_updated(*old(config), *final(config), update)
                    &&& change == link_change(old(config).printer@, final(config).printer@)
                },
            }
        }),
{
    let SettingsUpdate {
        printers,
        active_printer_id,
        printer,
        detection_enabled,
        detection_interval_secs,
        detection_obico_url,
        server_host,
        server_port,
        logging_level,
    } = update;
    let previous = config.printer.duplicate();
    match &printers {
        Some(ps) => {
            match normalize_printer_profiles(ps) {
                Ok(v) => {
                    config.printers = v;
                },
                Err(e) => {
                    return Err(e);
                },
            }
        },
        None => {},
    }
    match &active_printer_id {
        Some(a) => apply_active_selection(config, a.as_str()),
        None => {},
    }
    match printer {
        Some(f) => {
            let PrinterFieldsUpdate { ip, printer_id, pincode } = f;
            match apply_printer_fields(config, ip, printer_id, pincode) {
                Ok(()) => {},
                Err(e) => {
                    return Err(e);
                },
            }
        },
        None => {},
    }
    if let Some(b) = detection_enabled {
        config.detection.enabled = b;
    }
    if let Some(v) = detection_interval_secs {
        let x: u32 = v as u32;
        config.detection.interval_secs = if x < 5 {
            5
        } else {
            x
        };
    }
    if let Some(u) = detection_obico_url {
        config.detection.obico_url = u;
    }
    if let Some(h) = server_host {
        config.server.host = h;
    }
    if let Some(v) = server_port {
        config.server.port = v as u16;
    }
    if let Some(l) = logging_level {
        config.logging.level = l;
    }
    upsert_active_printer_profile(config);
    let change = if same_text(previous.ip.as_str(), config.printer.ip.as_str()) && same_text(
        previous.printer_id.as_str(),
        config.printer.printer_id.as_str(),
    ) && same_text(previous.pincode.as_str(), config.printer.pincode.as_str()) {
        PrinterLinkChange::Unchanged
    } else if !config.printer.ip.as_str().is_empty() {
        PrinterLinkChange::ReconfigureAndStart
    } else {
        PrinterLinkChange::Reconfigure
    };
    Ok(change)
}

// ---------------------------------------------------------------------------
// Settings import
// ---------------------------------------------------------------------------

pub open spec fn trim_printer(c: crate::config::PrinterConfigView) -> crate::config::PrinterConfigView {
    crate::config::PrinterConfigView { ip: trim(c.ip), printer_id: trim(c.printer_id), pincode: trim(c.pincode) }
}

pub open spec fn trim_profile(p: ProfileView) -> ProfileView {
    ProfileView {
        id: trim(p.id),
        label: trim(p.label),
        ip: trim(p.ip),
        printer_id: trim(p.printer_id),
        pincode: trim(p.pincode),
    }
}

pub open spec fn trimmed_model(m: ProfilesModel) -> ProfilesModel {
    ProfilesModel {
        printer: trim_printer(m.printer),
        printers: m.printers.map_values(|p: ProfileView| trim_profile(p)),
        active: m.active,
    }
}

/// Every access code of an imported configuration is empty or valid once trimmed.
pub open spec fn import_pincodes_ok(m: ProfilesModel) -> bool {
    &&& (trim(m.printer.pincode).len() == 0 || valid_pincode(trim(m.printer.pincode)))
    &&& forall|i: int|
        0 <= i < m.printers.len() ==> (trim(#[trigger] m.printers[i].pincode).len() == 0
            || valid_pincode(trim(m.printers[i].pincode)))
}

fn trim_profile_fields(p: &mut PrinterProfile)
    ensures
        final(p)@ == trim_profile(old(p)@),
{
    p.id = trim_str(p.id.as_str());
    p.label = trim_str(p.label.as_str());
    p.ip = trim_str(p.ip.as_str());
    p.printer_id = trim_str(p.printer_id.as_str());
    p.pincode = trim_str(p.pincode.as_str());
}

/// Checks an imported configuration and brings its printer settings into a
/// consistent state: texts trimmed, access codes checked, the active profile
/// synced and upserted; the progress intervals of the destinations are
/// clamped (0 stays 0, other values to 5..100). On refusal the configuration is left partly trimmed
/// and is meant to be dropped.
pub fn validate_import_config(config: &mut AppConfig) -> (r: Result<(), AppError>)
    ensures
        final(config).detection == old(config).detection,
        final(config).server == old(config).server,
        final(config).logging == old(config).logging,
        final(config).onboarding_complete == old(config).onboarding_complete,
        r is Ok ==> destinations_view(final(config).notifications.destinations@) == destinations_view(
            old(config).notifications.destinations@,
        ).map_values(|d: DestinationView| with_clamped_interval(d)),
        r is Err ==> final(config).notifications == old(config).notifications,
        r is Ok <==> import_pincodes_ok(old(config).profiles_model()),
        r is Err ==> r == Err::<(), AppError>(AppError::Config(ConfigError::InvalidPincode)),
        r is Ok ==> final(config).profiles_model() == upsert_model(
            sync_model(trimmed_model(old(config).profiles_model())),
        ),
{
    let ghost m = config.profiles_model();
    config.printer.ip = trim_str(config.printer.ip.as_str());
    config.printer.printer_id = trim_str(config.printer.printer_id.as_str());
    config.printer.pincode = trim_str(config.printer.pincode.as_str());
    if !config.printer.pincode.as_str().is_empty() {
        if validate_pincode(config.printer.pincode.as_str()).is_err() {
            return Err(AppError::Config(ConfigError::InvalidPincode));
        }
    }
    let ghost tp = m.printers.map_values(|p: ProfileView| trim_profile(p));
    let mut i: usize = 0;
    while i < config.printers.len()
        invariant
            0 <= i <= config.printers.len(),
            config.printers@.len() == m.printers.len(),
            tp == m.printers.map_values(|p: ProfileView| trim_profile(p)),
            forall|j: int| 0 <= j < i ==> #[trigger] profiles_view(config.printers@)[j] == tp[j],
            forall|j: int| i <= j < m.printers.len() ==> #[trigger] profiles_view(config.printers@)[j] == m.printers[j],
            forall|j: int| 0 <= j < i ==> (trim(#[trigger] m.printers[j].pincode).len() == 0
                || valid_pincode(trim(m.printers[j].pincode))),
            config.printer@ == trim_printer(m.printer),
            config.active_printer_id@ == m.active,
            config.same_settings(old(config)),
            m == old(config).profiles_model(),
        decreases config.printers.len() - i,
    {
        let mut p = config.printers[i].duplicate();
        assert(profiles_view(config.printers@)[i as int] == config.printers@[i as int]@);
        assert(p@ == m.printers[i as int]);
        trim_profile_fields(&mut p);
        assert(p@ == tp[i as int]);
        let bad = !p.pincode.as_str().is_empty() && validate_pincode(p.pincode.as_str()).is_err();
        let ghost before = config.printers@;
        config.printers.set(i, p);
        assert forall|j: int| 0 <= j < config.printers@.len() && j != i implies #[trigger] profiles_view(
            config.printers@,
        )[j] == profiles_view(before)[j] by {}
        assert(profiles_view(config.printers@)[i as int] == p@);
        assert(p.pincode@ == trim(m.printers[i as int].pincode));
        if bad {
            assert(!import_pincodes_ok(m));
            return Err(AppError::Config(ConfigError::InvalidPincode));
        }
        i = i + 1;
    }
    assert(profiles_view(config.printers@) =~= tp);
    assert(config.profiles_model() == trimmed_model(m));
    sync_active_printer_profile(config);
    upsert_active_printer_profile(config);
    let ghost model = config.profiles_model();
    clamp_progress_intervals(&mut config.notifications.destinations);
    assert(config.profiles_model() == model);
    Ok(())
}

} // verus!
