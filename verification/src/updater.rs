//! Driver updates: the records that Windows Update reports, how an update is
//! matched to a device, how sizes and install results are shown, and the
//! scripts and outputs exchanged with PowerShell.
use vstd::prelude::*;
use vstd::string::*;
use vstd::arithmetic::power2::pow2;

use crate::hardware::{strings_view, DeviceDriver, DeviceStatus, DeviceView};
use crate::text::{
    decimal, decimal_string, digit_char, eq_ignore_ascii_case_seq, lowercase, push_char,
    seq_contains, seq_starts_with, str_contains, str_eq, str_eq_ignore_ascii_case,
    str_starts_with, to_lowercase, to_uppercase, trim, trim_seq, uppercase,
};

verus! {

broadcast use vstd::string::group_string_axioms;

// ---------------------------------------------------------------------------
// Types
// ---------------------------------------------------------------------------

/// A driver update that Windows Update offers.
#[derive(Debug, Clone)]
pub struct DriverUpdate {
    pub update_id: String,
    pub title: String,
    pub description: String,
    pub size_bytes: u64,
}

/// The outcome of installing one update of a batch.
#[derive(Debug, Clone)]
pub struct InstallProgress {
    pub current: u32,
    pub total: u32,
    pub title: String,
    pub result_code: i32,
}

/// The outcome of installing a batch of updates.
#[derive(Debug, Clone)]
pub struct InstallSummary {
    pub results: Vec<InstallProgress>,
    pub reboot_required: bool,
}

/// The `results` of an install report: one result or a list of them.
pub enum InstallResults {
    One(InstallProgress),
    Many(Vec<InstallProgress>),
}

/// The shape of the update list that the search script prints.
#[derive(Debug, Clone, Copy, PartialEq, Eq, Structural)]
pub enum UpdateListShape {
    /// Nothing, or `null`: no updates.
    Empty,
    /// A JSON array of updates.
    List,
    /// A single JSON object.
    Single,
}

/// Why an install script could not be built.
#[derive(Debug, Clone, Copy, PartialEq, Eq, Structural)]
pub enum UpdaterError {
    /// The update identifiers could not be written as JSON.
    Serialize,
}

// ---------------------------------------------------------------------------
// Views
// ---------------------------------------------------------------------------

pub ghost struct UpdateView {
    pub update_id: Seq<char>,
    pub title: Seq<char>,
    pub description: Seq<char>,
    pub size_bytes: u64,
}

impl View for DriverUpdate {
    type V = UpdateView;

    open spec fn view(&self) -> UpdateView {
        UpdateView {
            update_id: self.update_id@,
            title: self.title@,
            description: self.description@,
            size_bytes: self.size_bytes,
        }
    }
}

pub ghost struct ProgressView {
    pub current: u32,
    pub total: u32,
    pub title: Seq<char>,
    pub result_code: i32,
}

impl View for InstallProgress {
    type V = ProgressView;

    open spec fn view(&self) -> ProgressView {
        ProgressView {
            current: self.current,
            total: self.total,
            title: self.title@,
            result_code: self.result_code,
        }
    }
}

/// The views of a list of updates.
pub open spec fn updates_view(v: Seq<DriverUpdate>) -> Seq<UpdateView> {
    v.map_values(|u: DriverUpdate| u@)
}

/// The views of a list of install results.
pub open spec fn progress_view(v: Seq<InstallProgress>) -> Seq<ProgressView> {
    v.map_values(|p: InstallProgress| p@)
}

// ---------------------------------------------------------------------------
// Install result codes
// ---------------------------------------------------------------------------

/// Windows Update result codes 2, 3 and 4 (succeeded; succeeded, restart
/// required; succeeded, restart postponed) count as a successful install.
pub open spec fn install_succeeded(code: i32) -> bool {
    code == 2 || code == 3 || code == 4
}

/// The label shown for an install result code.
pub open spec fn result_label(code: i32) -> Seq<char> {
    if code == 2 {
        "Geslaagd"@
    } else if code == 3 {
        "Geslaagd (herstart vereist)"@
    } else if code == 4 {
        "Geslaagd (herstart uitgesteld)"@
    } else if code == 5 {
        "Mislukt"@
    } else {
        "Onbekend"@
    }
}

/// Whether an install result code reports success.
pub fn is_install_success(code: i32) -> (b: bool)
    ensures
        b == install_succeeded(code),
{
    code == 2 || code == 3 || code == 4
}

/// The label shown for an install result code.
pub fn result_code_label(code: i32) -> (s: &'static str)
    ensures
        s@ == result_label(code),
{
    match code {
        2 => "Geslaagd",
        3 => "Geslaagd (herstart vereist)",
        4 => "Geslaagd (herstart uitgesteld)",
        5 => "Mislukt",
        _ => "Onbekend",
    }
}

/// A result code is reported as a success exactly when its label starts with
/// "Geslaagd".
pub proof fn lemma_success_iff_label_geslaagd(code: i32)
    ensures
        install_succeeded(code) <==> seq_starts_with(result_label(code), "Geslaagd"@),
{
    reveal_strlit("Geslaagd");
    reveal_strlit("Geslaagd (herstart vereist)");
    reveal_strlit("Geslaagd (herstart uitgesteld)");
    reveal_strlit("Mislukt");
    reveal_strlit("Onbekend");
    let g = "Geslaagd"@;
    if install_succeeded(code) {
        assert(result_label(code).subrange(0, 8) =~= g);
    } else {
        let l = result_label(code);
        if l.len() >= 8 {
            assert(l[0] != g[0]);
            assert(l.subrange(0, 8)[0] == l[0]);
        }
    }
}

// ---------------------------------------------------------------------------
// Sizes
// ---------------------------------------------------------------------------

/// `n / d` rounded to the nearest integer, ties to the even one.
pub open spec fn div_round_even(n: nat, d: nat) -> nat
    recommends
        d > 0,
{
    let q = n / d;
    let r = n % d;
    if 2 * r > d || (2 * r == d && q % 2 == 1) {
        q + 1
    } else {
        q
    }
}

/// How many bits of `n` do not fit in the 53-bit significand of an `f64`.
pub open spec fn f64_excess_bits(n: nat) -> nat
    decreases n,
{
    if n == 0 || n < pow2(53) {
        0
    } else {
        1 + f64_excess_bits(n / 2)
    }
}

/// The integer that `n as f64` holds: `n` rounded to 53 significant bits,
/// ties to even.
pub open spec fn f64_value(n: nat) -> nat {
    let e = f64_excess_bits(n);
    div_round_even(n, pow2(e)) * pow2(e)
}

/// `bytes / unit` in tenths, rounded as one-decimal formatting of the `f64`
/// quotient rounds.
pub open spec fn size_tenths(bytes: nat, unit: nat) -> nat {
    div_round_even(f64_value(bytes) * 10, unit)
}

/// A number of tenths written with one decimal.
pub open spec fn one_decimal(tenths: nat) -> Seq<char> {
    decimal(tenths / 10).push('.').push(digit_char(tenths % 10))
}

/// A byte count as shown to the user: in GB, MB or KB with one decimal from
/// 1024 bytes up, in plain bytes below.
pub open spec fn size_text(bytes: nat) -> Seq<char> {
    if bytes >= 1073741824 {
        one_decimal(size_tenths(bytes, 1073741824)) + " GB"@
    } else if bytes >= 1048576 {
        one_decimal(size_tenths(bytes, 1048576)) + " MB"@
    } else if bytes >= 1024 {
        one_decimal(size_tenths(bytes, 1024)) + " KB"@
    } else {
        decimal(bytes) + " B"@
    }
}

proof fn lemma_div_halve(n: nat, p: nat)
    requires
        p > 0,
    ensures
        (n / p) / 2 == n / (p * 2),
{
    vstd::arithmetic::div_mod::lemma_div_denominator(n as int, p as int, 2);
}

/// `n / d` rounded to the nearest integer, ties to even.
fn div_round_even_exec(n: u128, d: u128) -> (r: u128)
    requires
        d > 0,
        n / d < u128::MAX,
    ensures
        r == div_round_even(n as nat, d as nat),
{
    let q = n / d;
    let r = n % d;
    if r > d - r || (r == d - r && q % 2 == 1) {
        q + 1
    } else {
        q
    }
}

/// The integer value of `n as f64`.
fn f64_value_exec(n: u64) -> (v: u128)
    ensures
        v == f64_value(n as nat),
        v <= 2 * (n as nat) + 1,
{
    let mut m: u64 = n;
    let mut p: u128 = 1;
    let ghost mut e: nat = 0;
    proof {
        vstd::arithmetic::power2::lemma2_to64_rest();
        vstd::arithmetic::power2::lemma2_to64();
    }
    while m >= 9007199254740992
        invariant
            pow2(53) == 9007199254740992,
            p == pow2(e),
            1 <= p,
            p == 1 || p <= n,
            m as nat == (n as nat) / (p as nat),
            f64_excess_bits(n as nat) == e + f64_excess_bits(m as nat),
        decreases m,
    {
        proof {
            lemma_div_halve(n as nat, p as nat);
            vstd::arithmetic::div_mod::lemma_fundamental_div_mod(n as int, (p * 2) as int);
            assert((m / 2) >= 1);
            vstd::arithmetic::mul::lemma_mul_inequality(1, (m / 2) as int, (p * 2) as int);
        }
        m = m / 2;
        p = p * 2;
        proof {
            e = e + 1;
            vstd::arithmetic::power2::lemma_pow2_unfold(e);
        }
    }
    assert(f64_excess_bits(m as nat) == 0);
    proof {
        vstd::arithmetic::div_mod::lemma_fundamental_div_mod(n as int, p as int);
    }
    let q = div_round_even_exec(n as u128, p);
    proof {
        assert(q <= m + 1);
        vstd::arithmetic::mul::lemma_mul_inequality(q as int, (m + 1) as int, p as int);
        vstd::arithmetic::mul::lemma_mul_is_distributive_add_other_way(p as int, m as int, 1);
        assert(q * p <= m * p + p);
    }
    q * p
}

/// `bytes / unit` in tenths, rounded as one-decimal formatting rounds.
fn size_tenths_exec(bytes: u64, unit: u128) -> (t: u64)
    requires
        unit >= 1024,
    ensures
        t == size_tenths(bytes as nat, unit as nat),
{
    let v = f64_value_exec(bytes);
    let n = v * 10;
    proof {
        vstd::arithmetic::div_mod::lemma_div_is_ordered_by_denominator(n as int, 1024, unit as int);
        assert(n / 1024 <= n);
    }
    let t = div_round_even_exec(n, unit);
    proof {
        assert(t <= n / unit + 1);
        assert(n / 1024 < 0x1_0000_0000_0000_0000) by {
            vstd::arithmetic::div_mod::lemma_div_is_ordered(n as int, 400000000000000000000, 1024);
        }
    }
    t as u64
}

/// Appends a number of tenths with one decimal.
fn push_one_decimal(s: &mut String, tenths: u64)
    ensures
        final(s)@ == old(s)@ + one_decimal(tenths as nat),
{
    let whole = decimal_string(tenths / 10);
    s.append(whole.as_str());
    push_char(s, '.');
    let d: u8 = 48 + (tenths % 10) as u8;
    push_char(s, d as char);
    proof {
        assert(final(s)@ =~= old(s)@ + one_decimal(tenths as nat));
    }
}

/// A byte count as shown to the user, e.g. `"1.5 MB"` or `"512 B"`.
pub fn format_size(bytes: u64) -> (s: String)
    ensures
        s@ == size_text(bytes as nat),
{
    let mut s = String::new();
    if bytes >= 1073741824 {
        push_one_decimal(&mut s, size_tenths_exec(bytes, 1073741824));
        s.append(" GB");
    } else if bytes >= 1048576 {
        push_one_decimal(&mut s, size_tenths_exec(bytes, 1048576));
        s.append(" MB");
    } else if bytes >= 1024 {
        push_one_decimal(&mut s, size_tenths_exec(bytes, 1024));
        s.append(" KB");
    } else {
        s.append(decimal_string(bytes).as_str());
        s.append(" B");
    }
    proof {
        assert(s@ =~= size_text(bytes as nat));
    }
    s
}

} // verus!

verus! {

// ---------------------------------------------------------------------------
// Matching updates to devices
// ---------------------------------------------------------------------------

/// Some text of `parts` occurs in `text`.
pub open spec fn contains_some(text: Seq<char>, parts: Seq<Seq<char>>) -> bool {
    exists|k: int| 0 <= k < parts.len() && seq_contains(text, #[trigger] parts[k])
}

/// How many texts of `parts` occur in `text`.
pub open spec fn count_contained(text: Seq<char>, parts: Seq<Seq<char>>) -> nat
    decreases parts.len(),
{
    if parts.len() == 0 {
        0
    } else {
        count_contained(text, parts.drop_last()) + if seq_contains(text, parts.last()) {
            1nat
        } else {
            0nat
        }
    }
}

/// Each text lower-cased.
pub open spec fn lowered(parts: Seq<Seq<char>>) -> Seq<Seq<char>> {
    parts.map_values(|p: Seq<char>| lowercase(p))
}

/// Each text upper-cased.
pub open spec fn uppered(parts: Seq<Seq<char>>) -> Seq<Seq<char>> {
    parts.map_values(|p: Seq<char>| uppercase(p))
}

/// A title mentions a device, given the case-folded texts: the lower-cased
/// title contains the lower-cased name or (present) manufacturer, or the
/// upper-cased title contains an upper-cased hardware identifier.
pub open spec fn mentions(
    lower_title: Seq<char>,
    lower_name: Seq<char>,
    has_manufacturer: bool,
    lower_manufacturer: Seq<char>,
    upper_title: Seq<char>,
    upper_ids: Seq<Seq<char>>,
) -> bool {
    ||| seq_contains(lower_title, lower_name)
    ||| has_manufacturer && seq_contains(lower_title, lower_manufacturer)
    ||| contains_some(upper_title, upper_ids)
}

/// The score of a title, given the lower-cased texts: ten points for the
/// name, five for the (present) manufacturer, twenty per hardware identifier.
pub open spec fn points(
    lower_title: Seq<char>,
    lower_name: Seq<char>,
    has_manufacturer: bool,
    lower_manufacturer: Seq<char>,
    lower_ids: Seq<Seq<char>>,
) -> nat {
    (if seq_contains(lower_title, lower_name) {
        10nat
    } else {
        0nat
    }) + (if has_manufacturer && seq_contains(lower_title, lower_manufacturer) {
        5nat
    } else {
        0nat
    }) + 20 * count_contained(lower_title, lower_ids)
}

/// The update title mentions the device.
pub open spec fn title_matches(d: DeviceView, title: Seq<char>) -> bool {
    mentions(
        lowercase(title),
        lowercase(d.name),
        d.manufacturer.len() > 0,
        lowercase(d.manufacturer),
        uppercase(lowercase(title)),
        uppered(d.hardware_ids),
    )
}

/// How well an update title fits a device.
pub open spec fn title_score(d: DeviceView, title: Seq<char>) -> nat {
    points(
        lowercase(title),
        lowercase(d.name),
        d.manufacturer.len() > 0,
        lowercase(d.manufacturer),
        lowered(d.hardware_ids),
    )
}

/// Update `i` matches the device with the highest score, and no later
/// matching update scores as high.
pub open spec fn is_best_match(d: DeviceView, us: Seq<UpdateView>, i: int) -> bool {
    &&& 0 <= i < us.len()
    &&& title_matches(d, us[i].title)
    &&& forall|j: int|
        0 <= j < us.len() && title_matches(d, #[trigger] us[j].title) ==> title_score(d, us[j].title)
            <= title_score(d, us[i].title)
    &&& forall|j: int|
        i < j < us.len() && title_matches(d, #[trigger] us[j].title) ==> title_score(d, us[j].title)
            < title_score(d, us[i].title)
}

/// The update chosen for a device: the best match, if its score is positive.
pub open spec fn chosen_update(d: DeviceView, us: Seq<UpdateView>) -> Option<int> {
    if exists|i: int| is_best_match(d, us, i) && title_score(d, us[i].title) > 0 {
        Some(choose|i: int| is_best_match(d, us, i) && title_score(d, us[i].title) > 0)
    } else {
        None
    }
}

/// The device carries driver information: a driver version, an INF file or
/// hardware identifiers.
pub open spec fn has_driver_info(d: DeviceView) -> bool {
    d.driver_version.len() > 0 || d.inf_name.len() > 0 || d.hardware_ids.len() > 0
}

/// The device after matching: the chosen update's title and identifier with
/// status `UpdateAvailable`; or, when no update is chosen, no update with
/// status `UpToDate`, or `Unknown` for a device without driver information.
pub open spec fn matched_device(d: DeviceView, us: Seq<UpdateView>) -> DeviceView {
    match chosen_update(d, us) {
        Some(i) => DeviceView {
            status: DeviceStatus::UpdateAvailable,
            update_title: Some(us[i].title),
            update_id: Some(us[i].update_id),
            ..d
        },
        None => DeviceView {
            status: if has_driver_info(d) {
                DeviceStatus::UpToDate
            } else {
                DeviceStatus::Unknown
            },
            update_title: None,
            update_id: None,
            ..d
        },
    }
}

/// A device's score cannot overflow a `usize`.
pub open spec fn score_fits(d: DeviceView) -> bool {
    d.hardware_ids.len() * 20 + 15 <= usize::MAX
}

/// Whether the device's score fits a `usize`, so that it can be matched.
pub fn device_score_fits(device: &DeviceDriver) -> (b: bool)
    ensures
        b == score_fits(device@),
{
    proof {
        assert(strings_view(device.hardware_ids@).len() == device.hardware_ids@.len());
    }
    device.hardware_ids.len() <= (usize::MAX - 15) / 20
}

/// At most one update is the best match.
pub proof fn lemma_best_match_unique(d: DeviceView, us: Seq<UpdateView>, i: int, j: int)
    requires
        is_best_match(d, us, i),
        is_best_match(d, us, j),
    ensures
        i == j,
{
    if i < j {
        assert(title_score(d, us[j].title) < title_score(d, us[i].title));
        assert(title_score(d, us[i].title) <= title_score(d, us[j].title));
    } else if j < i {
        assert(title_score(d, us[i].title) < title_score(d, us[j].title));
        assert(title_score(d, us[j].title) <= title_score(d, us[i].title));
    }
}

proof fn lemma_count_contained_bound(text: Seq<char>, parts: Seq<Seq<char>>)
    ensures
        count_contained(text, parts) <= parts.len(),
    decreases parts.len(),
{
    if parts.len() > 0 {
        lemma_count_contained_bound(text, parts.drop_last());
    }
}

/// Whether a title mentions a device, given the case-folded texts.
pub fn mentions_device(
    lower_title: &str,
    lower_name: &str,
    has_manufacturer: bool,
    lower_manufacturer: &str,
    upper_title: &str,
    upper_ids: &Vec<String>,
) -> (b: bool)
    ensures
        b == mentions(
            lower_title@,
            lower_name@,
            has_manufacturer,
            lower_manufacturer@,
            upper_title@,
            strings_view(upper_ids@),
        ),
{
    if str_contains(lower_title, lower_name) {
        return true;
    }
    if has_manufacturer && str_contains(lower_title, lower_manufacturer) {
        return true;
    }
    let ghost ids = strings_view(upper_ids@);
    let mut k: usize = 0;
    while k < upper_ids.len()
        invariant
            ids == strings_view(upper_ids@),
            k <= upper_ids@.len(),
            forall|l: int| 0 <= l < k ==> !seq_contains(upper_title@, #[trigger] ids[l]),
        decreases upper_ids@.len() - k,
    {
        assert(ids[k as int] == upper_ids@[k as int]@);
        if str_contains(upper_title, upper_ids[k].as_str()) {
            return true;
        }
        k = k + 1;
    }
    false
}

/// The score of a title, given the lower-cased texts.
pub fn match_points(
    lower_title: &str,
    lower_name: &str,
    has_manufacturer: bool,
    lower_manufacturer: &str,
    lower_ids: &Vec<String>,
) -> (s: usize)
    requires
        lower_ids@.len() * 20 + 15 <= usize::MAX,
    ensures
        s == points(
            lower_title@,
            lower_name@,
            has_manufacturer,
            lower_manufacturer@,
            strings_view(lower_ids@),
        ),
{
    let mut score: usize = 0;
    if str_contains(lower_title, lower_name) {
        score = score + 10;
    }
    if has_manufacturer && str_contains(lower_title, lower_manufacturer) {
        score = score + 5;
    }
    let ghost ids = strings_view(lower_ids@);
    let ghost fixed: nat = score as nat;
    let mut k: usize = 0;
    while k < lower_ids.len()
        invariant
            ids == strings_view(lower_ids@),
            lower_ids@.len() * 20 + 15 <= usize::MAX,
            fixed <= 15,
            k <= lower_ids@.len(),
            score == fixed + 20 * count_contained(lower_title@, ids.take(k as int)),
        decreases lower_ids@.len() - k,
    {
        proof {
            assert(ids[k as int] == lower_ids@[k as int]@);
            assert(ids.take(k + 1).drop_last() =~= ids.take(k as int));
            assert(ids.take(k + 1).last() == ids[k as int]);
            lemma_count_contained_bound(lower_title@, ids.take(k as int));
        }
        if str_contains(lower_title, lower_ids[k].as_str()) {
            score = score + 20;
        }
        k = k + 1;
    }
    proof {
        assert(ids.take(ids.len() as int) =~= ids);
        assert(score == points(
            lower_title@,
            lower_name@,
            has_manufacturer,
            lower_manufacturer@,
            ids,
        ));
    }
    score
}

/// Each string of `v` lower-cased.
fn lowered_all(v: &Vec<String>) -> (r: Vec<String>)
    ensures
        strings_view(r@) == lowered(strings_view(v@)),
{
    let mut r: Vec<String> = Vec::new();
    let mut k: usize = 0;
    while k < v.len()
        invariant
            k <= v@.len(),
            strings_view(r@) == lowered(strings_view(v@)).take(k as int),
        decreases v@.len() - k,
    {
        let l = to_lowercase(v[k].as_str());
        proof {
            assert(strings_view(v@)[k as int] == v@[k as int]@);
            assert(lowered(strings_view(v@))[k as int] == l@);
            assert(lowered(strings_view(v@)).take(k + 1) =~= lowered(strings_view(v@)).take(k as int).push(l@));
            assert(strings_view(r@.push(l)) =~= strings_view(r@).push(l@));
        }
        r.push(l);
        k = k + 1;
    }
    proof {
        assert(lowered(strings_view(v@)).take(k as int) =~= lowered(strings_view(v@)));
    }
    r
}

/// Each string of `v` upper-cased.
fn uppered_all(v: &Vec<String>) -> (r: Vec<String>)
    ensures
        strings_view(r@) == uppered(strings_view(v@)),
{
    let mut r: Vec<String> = Vec::new();
    let mut k: usize = 0;
    while k < v.len()
        invariant
            k <= v@.len(),
            strings_view(r@) == uppered(strings_view(v@)).take(k as int),
        decreases v@.len() - k,
    {
        let u = to_uppercase(v[k].as_str());
        proof {
            assert(strings_view(v@)[k as int] == v@[k as int]@);
            assert(uppered(strings_view(v@))[k as int] == u@);
            assert(uppered(strings_view(v@)).take(k + 1) =~= uppered(strings_view(v@)).take(k as int).push(u@));
            assert(strings_view(r@.push(u)) =~= strings_view(r@).push(u@));
        }
        r.push(u);
        k = k + 1;
    }
    proof {
        assert(uppered(strings_view(v@)).take(k as int) =~= uppered(strings_view(v@)));
    }
    r
}

/// Whether the update's title mentions the device.
fn matches_device(device: &DeviceDriver, update: &DriverUpdate) -> (b: bool)
    ensures
        b == title_matches(device@, update@.title),
{
    let t = to_lowercase(update.title.as_str());
    let name = to_lowercase(device.name.as_str());
    let manufacturer = to_lowercase(device.manufacturer.as_str());
    let upper_title = to_uppercase(t.as_str());
    let upper_ids = uppered_all(&device.hardware_ids);
    mentions_device(
        t.as_str(),
        name.as_str(),
        !device.manufacturer.as_str().is_empty(),
        manufacturer.as_str(),
        upper_title.as_str(),
        &upper_ids,
    )
}

/// How well the update's title fits the device.
fn score_match(device: &DeviceDriver, update: &DriverUpdate) -> (s: usize)
    requires
        score_fits(device@),
    ensures
        s == title_score(device@, update@.title),
{
    let t = to_lowercase(update.title.as_str());
    let name = to_lowercase(device.name.as_str());
    let manufacturer = to_lowercase(device.manufacturer.as_str());
    let lower_ids = lowered_all(&device.hardware_ids);
    proof {
        assert(strings_view(lower_ids@).len() == lower_ids@.len());
        assert(strings_view(device.hardware_ids@).len() == device@.hardware_ids.len());
    }
    match_points(
        t.as_str(),
        name.as_str(),
        !device.manufacturer.as_str().is_empty(),
        manufacturer.as_str(),
        &lower_ids,
    )
}

/// The position of the update chosen for the device.
fn find_best_match(device: &DeviceDriver, updates: &[DriverUpdate]) -> (r: Option<usize>)
    requires
        score_fits(device@),
    ensures
        match r {
            Some(i) => chosen_update(device@, updates_view(updates@)) == Some(i as int),
            None => chosen_update(device@, updates_view(updates@)) is None,
        },
{
    let ghost d = device@;
    let ghost us = updates_view(updates@);
    let mut best: Option<(usize, usize)> = None;
    let mut j: usize = 0;
    while j < updates.len()
        invariant
            d == device@,
            us == updates_view(updates@),
            score_fits(d),
            j <= updates@.len(),
            match best {
                None => forall|k: int| 0 <= k < j ==> !title_matches(d, #[trigger] us[k].title),
                Some((bi, bs)) => {
                    &&& bi < j
                    &&& title_matches(d, us[bi as int].title)
                    &&& bs == title_score(d, us[bi as int].title)
                    &&& forall|k: int|
                        0 <= k < j && title_matches(d, #[trigger] us[k].title) ==> title_score(
                            d,
                            us[k].title,
                        ) <= bs
                    &&& forall|k: int|
                        bi < k < j && title_matches(d, #[trigger] us[k].title) ==> title_score(
                            d,
                            us[k].title,
                        ) < bs
                },
            },
        decreases updates@.len() - j,
    {
        assert(us[j as int] == updates@[j as int]@);
        if matches_device(device, &updates[j]) {
            let s = score_match(device, &updates[j]);
            let replace = match best {
                None => true,
                Some((_, bs)) => s >= bs,
            };
            if replace {
                best = Some((j, s));
            }
        }
        j = j + 1;
    }
    match best {
        Some((bi, bs)) => {
            assert(is_best_match(d, us, bi as int));
            if bs > 0 {
                proof {
                    assert forall|i: int|
                        is_best_match(d, us, i) && title_score(d, us[i].title) > 0 implies i
                        == bi by {
                        lemma_best_match_unique(d, us, i, bi as int);
                    }
                }
                Some(bi)
            } else {
                proof {
                    assert forall|i: int|
                        !(is_best_match(d, us, i) && title_score(d, us[i].title) > 0) by {
                        if is_best_match(d, us, i) {
                            lemma_best_match_unique(d, us, i, bi as int);
                        }
                    }
                }
                None
            }
        },
        None => {
            assert forall|i: int| !is_best_match(d, us, i) by {
                if 0 <= i < us.len() {
                    assert(!title_matches(d, us[i].title));
                }
            }
            None
        },
    }
}

} // verus!

verus! {

/// Marks every device with the update chosen for it (status `UpdateAvailable`
/// with the update's title and identifier), or, when no update fits it, as
/// up to date, or as unknown when it carries no driver information.  Every device's score has to fit a `usize`; the sum would
/// overflow otherwise.
pub fn match_updates_to_devices(devices: &mut [DeviceDriver], updates: &[DriverUpdate])
    requires
        forall|i: int| 0 <= i < old(devices)@.len() ==> score_fits(#[trigger] old(devices)@[i]@),
    ensures
        final(devices)@.len() == old(devices)@.len(),
        forall|i: int|
            0 <= i < old(devices)@.len() ==> (#[trigger] final(devices)@[i])@ == matched_device(
                old(devices)@[i]@,
                updates_view(updates@),
            ),
{
    let ghost us = updates_view(updates@);
    let ghost start = devices@;
    let n = devices.len();
    let mut i: usize = 0;
    while i < n
        invariant
            n == devices@.len(),
            n == start.len(),
            us == updates_view(updates@),
            i <= n,
            forall|k: int| 0 <= k < n ==> score_fits(#[trigger] start[k]@),
            forall|k: int| i <= k < n ==> #[trigger] devices@[k] == start[k],
            forall|k: int|
                0 <= k < i ==> (#[trigger] devices@[k])@ == matched_device(start[k]@, us),
        decreases n - i,
    {
        let best = find_best_match(&devices[i], updates);
        match best {
            Some(b) => {
                let title = updates[b].title.clone();
                let id = updates[b].update_id.clone();
                assert(us[b as int] == updates@[b as int]@);
                devices[i].status = DeviceStatus::UpdateAvailable;
                devices[i].update_title = Some(title);
                devices[i].update_id = Some(id);
            },
            None => {
                let has_info = !devices[i].driver_version.as_str().is_empty()
                    || !devices[i].inf_name.as_str().is_empty() || devices[i].hardware_ids.len()
                    > 0;
                proof {
                    assert(strings_view(devices@[i as int].hardware_ids@).len()
                        == devices@[i as int].hardware_ids@.len());
                }
                devices[i].status = if has_info {
                    DeviceStatus::UpToDate
                } else {
                    DeviceStatus::Unknown
                };
                devices[i].update_title = None;
                devices[i].update_id = None;
            },
        }
        i = i + 1;
    }
}

} // verus!

verus! {

/// Matching again with the same updates changes nothing: the choice depends
/// only on the device's name, manufacturer and hardware identifiers.  A
/// matched device can always be matched again: matching keeps the hardware
/// identifiers, so its score still fits.
pub proof fn lemma_matching_idempotent(d: DeviceView, us: Seq<UpdateView>)
    ensures
        matched_device(matched_device(d, us), us) == matched_device(d, us),
        score_fits(matched_device(d, us)) == score_fits(d),
{
    let m = matched_device(d, us);
    assert forall|i: int| #[trigger] is_best_match(m, us, i) == is_best_match(d, us, i) by {
        assert forall|j: int| 0 <= j < us.len() implies title_matches(m, us[j].title)
            == title_matches(d, us[j].title) && title_score(m, us[j].title) == title_score(
            d,
            us[j].title,
        ) by {}
    }
    match chosen_update(d, us) {
        Some(i) => {
            assert(is_best_match(m, us, i) && title_score(m, us[i].title) > 0);
            let k = choose|k: int| is_best_match(m, us, k) && title_score(m, us[k].title) > 0;
            lemma_best_match_unique(d, us, i, k);
        },
        None => {
            assert forall|k: int| !(is_best_match(m, us, k) && title_score(m, us[k].title) > 0) by {
                if is_best_match(m, us, k) && title_score(m, us[k].title) > 0 {
                    assert(is_best_match(d, us, k) && title_score(d, us[k].title) > 0);
                }
            }
        },
    }
}

/// How many texts of `parts` the text contains, counted over the original
/// texts lower-cased one by one.
proof fn lemma_count_contained_lowered(t: Seq<char>, ids: Seq<Seq<char>>)
    ensures
        count_contained(t, lowered(ids)) == ids.filter(
            |h: Seq<char>| seq_contains(t, lowercase(h)),
        ).len(),
    decreases ids.len(),
{
    reveal(Seq::filter);
    if ids.len() > 0 {
        lemma_count_contained_lowered(t, ids.drop_last());
        assert(lowered(ids).drop_last() =~= lowered(ids.drop_last()));
        assert(lowered(ids).last() == lowercase(ids.last()));
    }
}

/// The score of an update title for a device, counted case-insensitively:
/// ten points when the title contains the device's name, five when the device
/// has a manufacturer and the title contains it, and twenty for each of the
/// device's hardware identifiers that the title contains.
pub proof fn lemma_title_score_points(d: DeviceView, title: Seq<char>)
    ensures
        title_score(d, title) == (if seq_contains(lowercase(title), lowercase(d.name)) {
            10int
        } else {
            0int
        }) + (if d.manufacturer.len() > 0 && seq_contains(
            lowercase(title),
            lowercase(d.manufacturer),
        ) {
            5int
        } else {
            0int
        }) + 20 * d.hardware_ids.filter(
            |h: Seq<char>| seq_contains(lowercase(title), lowercase(h)),
        ).len(),
{
    lemma_count_contained_lowered(lowercase(title), d.hardware_ids);
}

/// A title that names the device outscores one that only names its
/// manufacturer, when neither names a hardware identifier.
pub proof fn lemma_name_outscores_manufacturer(d: DeviceView, by_name: Seq<char>, by_maker: Seq<char>)
    requires
        seq_contains(lowercase(by_name), lowercase(d.name)),
        !seq_contains(lowercase(by_maker), lowercase(d.name)),
        forall|k: int|
            0 <= k < d.hardware_ids.len() ==> !seq_contains(
                lowercase(by_maker),
                lowercase(#[trigger] d.hardware_ids[k]),
            ),
    ensures
        title_score(d, by_maker) < title_score(d, by_name),
{
    lemma_title_score_points(d, by_name);
    lemma_title_score_points(d, by_maker);
    let pred = |h: Seq<char>| seq_contains(lowercase(by_maker), lowercase(h));
    let f = d.hardware_ids.filter(pred);
    if f.len() > 0 {
        d.hardware_ids.lemma_filter_pred(pred, 0);
        lemma_filter_member(d.hardware_ids, pred, 0);
        let j = choose|j: int| 0 <= j < d.hardware_ids.len() && d.hardware_ids[j] == f[0];
        assert(!pred(d.hardware_ids[j]));
    }
}

/// Every text that a filter keeps comes from the filtered sequence.
proof fn lemma_filter_member(s: Seq<Seq<char>>, pred: spec_fn(Seq<char>) -> bool, i: int)
    requires
        0 <= i < s.filter(pred).len(),
    ensures
        s.contains(s.filter(pred)[i]),
    decreases s.len(),
{
    reveal(Seq::filter);
    if s.len() > 0 {
        let prev = s.drop_last().filter(pred);
        if i < prev.len() {
            lemma_filter_member(s.drop_last(), pred, i);
            let j = choose|j: int| 0 <= j < s.drop_last().len() && s.drop_last()[j] == prev[i];
            assert(s[j] == prev[i]);
        } else {
            assert(s[s.len() - 1] == s.filter(pred)[i]);
        }
    }
}

// ---------------------------------------------------------------------------
// Exchanges with PowerShell
// ---------------------------------------------------------------------------

/// A lower-case hexadecimal digit for `d < 16`.
pub open spec fn hex_digit(d: nat) -> char {
    if d < 10 {
        (48 + d) as char
    } else {
        (87 + d) as char
    }
}

/// How JSON writes one character inside a string: quote and backslash with a
/// backslash, the control characters with a short escape or `\u00xx`, every
/// other character as it is.
pub open spec fn json_escape_char(c: char) -> Seq<char> {
    let u = c as u32;
    if u == 8 {
        seq!['\\', 'b']
    } else if u == 9 {
        seq!['\\', 't']
    } else if u == 10 {
        seq!['\\', 'n']
    } else if u == 12 {
        seq!['\\', 'f']
    } else if u == 13 {
        seq!['\\', 'r']
    } else if u < 32 {
        seq!['\\', 'u', '0', '0', hex_digit((u / 16) as nat), hex_digit((u % 16) as nat)]
    } else if c == '"' {
        seq!['\\', '"']
    } else if c == '\\' {
        seq!['\\', '\\']
    } else {
        seq![c]
    }
}

/// The characters of `s` as they stand inside a JSON string.
pub open spec fn json_escaped(s: Seq<char>) -> Seq<char>
    decreases s.len(),
{
    if s.len() == 0 {
        Seq::empty()
    } else {
        json_escaped(s.drop_last()) + json_escape_char(s.last())
    }
}

/// A JSON string literal holding `s`.
pub open spec fn json_quoted(s: Seq<char>) -> Seq<char> {
    seq!['"'] + json_escaped(s) + seq!['"']
}

/// The string literals of `items`, separated by commas.
pub open spec fn json_items(items: Seq<Seq<char>>) -> Seq<char>
    decreases items.len(),
{
    if items.len() == 0 {
        Seq::empty()
    } else if items.len() == 1 {
        json_quoted(items[0])
    } else {
        json_items(items.drop_last()) + seq![','] + json_quoted(items.last())
    }
}

/// The compact JSON array of the strings `items`.
pub open spec fn json_string_list(items: Seq<Seq<char>>) -> Seq<char> {
    seq!['['] + json_items(items) + seq![']']
}

#[verifier::external_type_specification]
#[verifier::external_body]
pub struct ExJsonError(serde_json::Error);

/// Calls `serde_json::to_string` on a list of strings.  The contract claims
/// that it succeeds (serialization fails only for a failing `Serialize` impl
/// or a map with non-string keys, and strings have neither) and writes the
/// compact JSON array of the strings, escaped as `json_escape_char` says.
#[verifier::external_body]
fn json_of_strings(items: &[String]) -> (r: Result<String, serde_json::Error>)
    ensures
        r is Ok,
        r matches Ok(s) ==> s@ == json_string_list(strings_view(items@)),
{
    serde_json::to_string(items)
}

/// The install script before the JSON list of update identifiers.
pub open spec fn install_script_head() -> Seq<char> {
    "\n$ErrorActionPreference = 'Stop'\n$TargetIds = ConvertFrom-Json '"@
}

/// The install script after the JSON list of update identifiers.
pub open spec fn install_script_tail() -> Seq<char> {
    "'\n$Session = New-Object -ComObject Microsoft.Update.Session\n$Searcher = $Session.CreateUpdateSearcher()\n$Searcher.Online = $true\n$Result = $Searcher.Search(\"IsInstalled=0 and Type='Driver' and IsHidden=0\")\n$ToInstall = New-Object -ComObject Microsoft.Update.UpdateColl\nforeach ($Update in $Result.Updates) {\n    if ($TargetIds -contains $Update.Identity.UpdateID) {\n        [void]$ToInstall.Add($Update)\n    }\n}\nif ($ToInstall.Count -eq 0) {\n    @{ reboot_required = $false; results = @() } | ConvertTo-Json -Compress -Depth 4\n    exit 0\n}\n$Installer = $Session.CreateUpdateInstaller()\n$Installer.Updates = $ToInstall\n$InstallResult = $Installer.Install()\n$results = @()\nfor ($i = 0; $i -lt $ToInstall.Count; $i++) {\n    $results += [PSCustomObject]@{\n        current = $i + 1\n        total = $ToInstall.Count\n        title = $ToInstall.Item($i).Title\n        result_code = $InstallResult.GetUpdateResult($i).ResultCode\n    }\n}\n@{ reboot_required = $InstallResult.RebootRequired; results = $results } | ConvertTo-Json -Compress -Depth 4\n"@
}

/// The install script around the JSON list of update identifiers.
pub fn install_script_for(ids_json: &str) -> (s: String)
    ensures
        s@ == install_script_head() + ids_json@ + install_script_tail(),
{
    let mut script = "\n$ErrorActionPreference = 'Stop'\n$TargetIds = ConvertFrom-Json '".to_owned();
    script.append(ids_json);
    script.append("'\n$Session = New-Object -ComObject Microsoft.Update.Session\n$Searcher = $Session.CreateUpdateSearcher()\n$Searcher.Online = $true\n$Result = $Searcher.Search(\"IsInstalled=0 and Type='Driver' and IsHidden=0\")\n$ToInstall = New-Object -ComObject Microsoft.Update.UpdateColl\nforeach ($Update in $Result.Updates) {\n    if ($TargetIds -contains $Update.Identity.UpdateID) {\n        [void]$ToInstall.Add($Update)\n    }\n}\nif ($ToInstall.Count -eq 0) {\n    @{ reboot_required = $false; results = @() } | ConvertTo-Json -Compress -Depth 4\n    exit 0\n}\n$Installer = $Session.CreateUpdateInstaller()\n$Installer.Updates = $ToInstall\n$InstallResult = $Installer.Install()\n$results = @()\nfor ($i = 0; $i -lt $ToInstall.Count; $i++) {\n    $results += [PSCustomObject]@{\n        current = $i + 1\n        total = $ToInstall.Count\n        title = $ToInstall.Item($i).Title\n        result_code = $InstallResult.GetUpdateResult($i).ResultCode\n    }\n}\n@{ reboot_required = $InstallResult.RebootRequired; results = $results } | ConvertTo-Json -Compress -Depth 4\n");
    script
}

/// The PowerShell script that installs the updates with the given identifiers,
/// or none when there is nothing to install.  It does not fail.
pub fn install_script(update_ids: &[String]) -> (r: Result<Option<String>, UpdaterError>)
    ensures
        update_ids@.len() == 0 ==> r == Ok::<Option<String>, UpdaterError>(None),
        update_ids@.len() > 0 ==> (r matches Ok(Some(s)) && s@ == install_script_head()
            + json_string_list(strings_view(update_ids@)) + install_script_tail()),
{
    if update_ids.len() == 0 {
        return Ok(None);
    }
    match json_of_strings(update_ids) {
        Ok(ids_json) => {
            let script = install_script_for(ids_json.as_str());
            Ok(Some(script))
        },
        Err(_) => Err(UpdaterError::Serialize),
    }
}

/// The install report that PowerShell printed, trimmed; none when it printed
/// only white space, which stands for an install that did nothing.
pub fn install_report_text(output: &str) -> (r: Option<&str>)
    ensures
        match r {
            Some(t) => t@ == trim_seq(output@) && t@.len() > 0,
            None => trim_seq(output@).len() == 0,
        },
{
    let t = trim(output);
    if t.is_empty() {
        None
    } else {
        Some(t)
    }
}

/// The summary of an install that did nothing.
pub fn empty_install_summary() -> (s: InstallSummary)
    ensures
        s.results@.len() == 0,
        !s.reboot_required,
{
    InstallSummary { results: Vec::new(), reboot_required: false }
}

/// The install results of a report: none, the single one, or the list.
pub fn install_results(parsed: Option<InstallResults>) -> (v: Vec<InstallProgress>)
    ensures
        match parsed {
            Some(InstallResults::One(p)) => v@ == seq![p],
            Some(InstallResults::Many(l)) => v@ == l@,
            None => v@.len() == 0,
        },
{
    match parsed {
        Some(InstallResults::One(p)) => {
            let mut v: Vec<InstallProgress> = Vec::new();
            v.push(p);
            proof {
                assert(v@ =~= seq![p]);
            }
            v
        },
        Some(InstallResults::Many(l)) => l,
        None => Vec::new(),
    }
}

/// What the search script printed, by shape, once trimmed: nothing or `null`,
/// a JSON array, or a single object.
pub open spec fn update_list_shape_of(output: Seq<char>) -> UpdateListShape {
    let t = trim_seq(output);
    if t.len() == 0 || t == "null"@ {
        UpdateListShape::Empty
    } else if seq_starts_with(t, "["@) {
        UpdateListShape::List
    } else {
        UpdateListShape::Single
    }
}

/// The shape of the update list that the search script printed.
pub fn update_list_shape(output: &str) -> (s: UpdateListShape)
    ensures
        s == update_list_shape_of(output@),
{
    let t = trim(output);
    if t.is_empty() || str_eq(t, "null") {
        UpdateListShape::Empty
    } else if str_starts_with(t, "[") {
        UpdateListShape::List
    } else {
        UpdateListShape::Single
    }
}

/// Whether the elevation check printed `true` (in any ASCII case, with
/// surrounding white space).
pub fn elevation_confirmed(output: &str) -> (b: bool)
    ensures
        b == eq_ignore_ascii_case_seq(trim_seq(output@), "true"@),
{
    str_eq_ignore_ascii_case(trim(output), "true")
}

} // verus!
