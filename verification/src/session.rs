//! The state of the updater window and its transitions: what a scan, an update
//! check or an install that finishes does to the state, which work is started
//! next, and which devices and updates are shown.  The window itself runs the
//! work and draws the state.
use vstd::prelude::*;
use vstd::string::*;

use crate::hardware::{devices_view, DeviceDriver, DeviceStatus, DeviceView};
use crate::text::{
    all_ascii, decimal, decimal_string, lowercase, occurs_at, seq_contains, seq_starts_with,
    str_contains, str_eq, to_lowercase,
};
use crate::updater::{
    install_succeeded, is_install_success, match_updates_to_devices, matched_device,
    progress_view, result_code_label, result_label, score_fits, updates_view, DriverUpdate,
    InstallProgress, InstallSummary, ProgressView, UpdateView,
};

verus! {

broadcast use vstd::string::group_string_axioms;

// ---------------------------------------------------------------------------
// Types
// ---------------------------------------------------------------------------

/// What the window is doing.
#[derive(Debug, Clone, Copy, PartialEq, Eq, Structural)]
pub enum AppPhase {
    Idle,
    Scanning,
    Checking,
    Ready,
    Installing,
    Done,
}

/// The report of a piece of background work; errors are their messages.
pub enum WorkerMsg {
    ScanDone(Result<Vec<DeviceDriver>, String>),
    CheckDone(Result<Vec<DriverUpdate>, String>),
    InstallDone(Result<InstallSummary, String>),
}

/// The background work that the window has to start next.
pub enum Command {
    /// Nothing to start.
    Nothing,
    /// Scan the hardware.
    Scan,
    /// Search Windows Update for driver updates.
    Check,
    /// Install the updates with these identifiers.
    Install(Vec<String>),
}

/// Everything the window shows and remembers.
pub struct AppState {
    pub phase: AppPhase,
    pub devices: Vec<DeviceDriver>,
    pub updates: Vec<DriverUpdate>,
    pub filter: String,
    pub show_only_updates: bool,
    pub status_message: String,
    pub error_message: Option<String>,
    pub install_log: Vec<String>,
    pub confirm_install: bool,
    pub show_restart_prompt: bool,
    pub elevated: bool,
}

// ---------------------------------------------------------------------------
// Model
// ---------------------------------------------------------------------------

/// The identifiers of the updates offered for the devices, each once, in the
/// order of the first device that offers it.
pub open spec fn offered_ids(ds: Seq<DeviceView>) -> Seq<Seq<char>>
    decreases ds.len(),
{
    if ds.len() == 0 {
        Seq::empty()
    } else {
        let prev = offered_ids(ds.drop_last());
        let d = ds.last();
        if d.status == DeviceStatus::UpdateAvailable && d.update_id is Some && !prev.contains(
            d.update_id->0,
        ) {
            prev.push(d.update_id->0)
        } else {
            prev
        }
    }
}

/// Some device offers an update with identifier `id`.
pub open spec fn offers(ds: Seq<DeviceView>, id: Seq<char>) -> bool {
    exists|k: int|
        0 <= k < ds.len() && (#[trigger] ds[k]).status == DeviceStatus::UpdateAvailable
            && ds[k].update_id == Some(id)
}

/// The updates whose identifier is among `ids`, in their order.
pub open spec fn updates_among(us: Seq<UpdateView>, ids: Seq<Seq<char>>) -> Seq<UpdateView>
    decreases us.len(),
{
    if us.len() == 0 {
        Seq::empty()
    } else {
        let prev = updates_among(us.drop_last(), ids);
        if ids.contains(us.last().update_id) {
            prev.push(us.last())
        } else {
            prev
        }
    }
}

/// The device is shown with this filter: it offers an update when only those
/// are shown, and its lower-cased name, manufacturer or class contains the
/// lower-cased filter text.
pub open spec fn device_shown(d: DeviceView, filter: Seq<char>, only_updates: bool) -> bool {
    &&& !(only_updates && d.status != DeviceStatus::UpdateAvailable)
    &&& (filter.len() == 0 || filter_hits(
        lowercase(filter),
        lowercase(d.name),
        lowercase(d.manufacturer),
        lowercase(d.device_class),
    ))
}

/// The lower-cased filter text occurs in the lower-cased name, manufacturer
/// or class.
pub open spec fn filter_hits(
    lower_filter: Seq<char>,
    lower_name: Seq<char>,
    lower_manufacturer: Seq<char>,
    lower_class: Seq<char>,
) -> bool {
    ||| seq_contains(lower_name, lower_filter)
    ||| seq_contains(lower_manufacturer, lower_filter)
    ||| seq_contains(lower_class, lower_filter)
}

/// The devices shown with this filter, in order.
pub open spec fn shown_devices(ds: Seq<DeviceView>, filter: Seq<char>, only_updates: bool) -> Seq<
    DeviceView,
>
    decreases ds.len(),
{
    if ds.len() == 0 {
        Seq::empty()
    } else {
        let prev = shown_devices(ds.drop_last(), filter, only_updates);
        if device_shown(ds.last(), filter, only_updates) {
            prev.push(ds.last())
        } else {
            prev
        }
    }
}

/// The work is running while scanning, checking or installing.
pub open spec fn phase_busy(p: AppPhase) -> bool {
    p == AppPhase::Scanning || p == AppPhase::Checking || p == AppPhase::Installing
}

/// The install log line of one result, e.g. `[1/2] Title — Geslaagd`.
pub open spec fn log_line(p: ProgressView) -> Seq<char> {
    "["@ + decimal(p.current as nat) + "/"@ + decimal(p.total as nat) + "] "@ + p.title + " — "@
        + result_label(p.result_code)
}

/// The install log lines of the results, in order.
pub open spec fn log_lines(ps: Seq<ProgressView>) -> Seq<Seq<char>> {
    ps.map_values(|p: ProgressView| log_line(p))
}

/// How many results report success.
pub open spec fn success_count(ps: Seq<ProgressView>) -> nat
    decreases ps.len(),
{
    if ps.len() == 0 {
        0
    } else {
        success_count(ps.drop_last()) + if install_succeeded(ps.last().result_code) {
            1nat
        } else {
            0nat
        }
    }
}

/// Some successful result has this title.
pub open spec fn installed_title(ps: Seq<ProgressView>, title: Seq<char>) -> bool {
    exists|k: int|
        0 <= k < ps.len() && install_succeeded((#[trigger] ps[k]).result_code) && ps[k].title
            == title
}

/// The device after an install: `Installed` when it offered an update whose
/// title was installed successfully, unchanged otherwise.
pub open spec fn device_after_install(d: DeviceView, ps: Seq<ProgressView>) -> DeviceView {
    if d.status == DeviceStatus::UpdateAvailable && d.update_title is Some && installed_title(
        ps,
        d.update_title->0,
    ) {
        DeviceView { status: DeviceStatus::Installed, ..d }
    } else {
        d
    }
}

/// A restart is proposed when Windows asks for one, when a result reports a
/// pending restart (codes 3 and 4), or when anything was installed.
pub open spec fn restart_needed(ps: Seq<ProgressView>, reboot_required: bool) -> bool {
    ||| reboot_required
    ||| exists|k: int|
        0 <= k < ps.len() && ((#[trigger] ps[k]).result_code == 3 || ps[k].result_code == 4)
    ||| success_count(ps) > 0
}

/// The status line after an update check.
pub open spec fn check_status(devices: nat, installable: nat) -> Seq<char> {
    if installable == 0 {
        decimal(devices) + " onderdelen gescand — alle drivers zijn up-to-date."@
    } else {
        decimal(devices) + " onderdelen gescand — "@ + decimal(installable)
            + " driver update(s) beschikbaar."@
    }
}

/// The status line after an install.
pub open spec fn install_status(installed: nat) -> Seq<char> {
    if installed == 0 {
        "Geen updates geïnstalleerd."@
    } else {
        decimal(installed) + " driver(s) geïnstalleerd."@
    }
}

/// Every device's score fits a `usize`.
pub open spec fn all_scores_fit(ds: Seq<DeviceView>) -> bool {
    forall|k: int| 0 <= k < ds.len() ==> score_fits(#[trigger] ds[k])
}

/// The report's device lists can be matched without overflow.
pub open spec fn msg_fits(msg: WorkerMsg) -> bool {
    match msg {
        WorkerMsg::ScanDone(Ok(ds)) => all_scores_fit(devices_view(ds@)),
        _ => true,
    }
}

/// The texts of a list of strings.
pub open spec fn texts(v: Seq<String>) -> Seq<Seq<char>> {
    v.map_values(|s: String| s@)
}

// ---------------------------------------------------------------------------
// Laws about offered updates
// ---------------------------------------------------------------------------

/// The offered identifiers are exactly those that some device offers, and
/// none is listed twice.
pub proof fn lemma_offered_ids(ds: Seq<DeviceView>)
    ensures
        offered_ids(ds).no_duplicates(),
        forall|id: Seq<char>| offered_ids(ds).contains(id) <==> offers(ds, id),
    decreases ds.len(),
{
    if ds.len() > 0 {
        let t = ds.drop_last();
        lemma_offered_ids(t);
        let prev = offered_ids(t);
        let d = ds.last();
        assert forall|id: Seq<char>| offered_ids(ds).contains(id) <==> offers(ds, id) by {
            if offers(t, id) {
                let k = choose|k: int|
                    0 <= k < t.len() && (#[trigger] t[k]).status == DeviceStatus::UpdateAvailable
                        && t[k].update_id == Some(id);
                assert(ds[k] == t[k]);
            }
            if offers(ds, id) {
                let k = choose|k: int|
                    0 <= k < ds.len() && (#[trigger] ds[k]).status
                        == DeviceStatus::UpdateAvailable && ds[k].update_id == Some(id);
                if k < ds.len() - 1 {
                    assert(t[k] == ds[k]);
                }
            }
            if d.status == DeviceStatus::UpdateAvailable && d.update_id is Some && !prev.contains(
                d.update_id->0,
            ) {
                let x = d.update_id->0;
                let q = prev.push(x);
                if id == x {
                    assert(q[prev.len() as int] == x);
                }
                if prev.contains(id) {
                    let k = choose|k: int| 0 <= k < prev.len() && prev[k] == id;
                    assert(q[k] == id);
                }
                if q.contains(id) {
                    let k = choose|k: int| 0 <= k < q.len() && q[k] == id;
                    if k < prev.len() {
                        assert(prev[k] == id);
                    }
                }
                assert(q.contains(id) <==> prev.contains(id) || id == x);
                if id == d.update_id->0 {
                    assert(ds[ds.len() - 1] == d);
                }
            }
            if offers(ds, id) && !offers(t, id) {
                let k = choose|k: int|
                    0 <= k < ds.len() && (#[trigger] ds[k]).status
                        == DeviceStatus::UpdateAvailable && ds[k].update_id == Some(id);
                if k < ds.len() - 1 {
                    assert(t[k] == ds[k]);
                }
            }
        }
        if d.status == DeviceStatus::UpdateAvailable && d.update_id is Some && !prev.contains(
            d.update_id->0,
        ) {
            assert forall|i: int, j: int|
                0 <= i < j < prev.len() + 1 implies prev.push(d.update_id->0)[i] != prev.push(
                d.update_id->0,
            )[j] by {
                if j == prev.len() {
                    assert(prev.contains(prev[i]));
                }
            }
        }
    }
}

/// After matching, every offered identifier belongs to one of the updates
/// that were matched against.
pub proof fn lemma_offered_ids_from_updates(
    before: Seq<DeviceView>,
    after: Seq<DeviceView>,
    us: Seq<UpdateView>,
    id: Seq<char>,
)
    requires
        after.len() == before.len(),
        forall|k: int| 0 <= k < before.len() ==> #[trigger] after[k] == matched_device(before[k], us),
        offered_ids(after).contains(id),
    ensures
        exists|j: int| 0 <= j < us.len() && (#[trigger] us[j]).update_id == id,
{
    lemma_offered_ids(after);
    assert(offers(after, id));
    let k = choose|k: int|
        0 <= k < after.len() && (#[trigger] after[k]).status == DeviceStatus::UpdateAvailable
            && after[k].update_id == Some(id);
    assert(after[k] == matched_device(before[k], us));
    let d = before[k];
    if exists|i: int|
        crate::updater::is_best_match(d, us, i) && crate::updater::title_score(d, us[i].title)
            > 0 {
        let i = choose|i: int|
            crate::updater::is_best_match(d, us, i) && crate::updater::title_score(d, us[i].title)
                > 0;
        assert(us[i].update_id == id);
    }
}

} // verus!

verus! {

// ---------------------------------------------------------------------------
// Helpers
// ---------------------------------------------------------------------------

/// Whether one of the strings of `v` is `s`.
fn contains_text(v: &Vec<String>, s: &str) -> (b: bool)
    ensures
        b == texts(v@).contains(s@),
{
    let mut k: usize = 0;
    while k < v.len()
        invariant
            k <= v@.len(),
            forall|l: int| 0 <= l < k ==> (#[trigger] v@[l])@ != s@,
        decreases v@.len() - k,
    {
        if str_eq(v[k].as_str(), s) {
            assert(texts(v@)[k as int] == s@);
            return true;
        }
        k = k + 1;
    }
    assert forall|l: int| 0 <= l < texts(v@).len() implies texts(v@)[l] != s@ by {
        assert(texts(v@)[l] == v@[l]@);
    }
    false
}

/// The decimal representation of a count.
fn count_text(n: usize) -> (s: String)
    ensures
        s@ == decimal(n as nat),
{
    decimal_string(n as u64)
}

/// The install log line of one result.
fn log_line_text(p: &InstallProgress) -> (s: String)
    ensures
        s@ == log_line(p@),
{
    let mut s = "[".to_owned();
    s.append(decimal_string(p.current as u64).as_str());
    s.append("/");
    s.append(decimal_string(p.total as u64).as_str());
    s.append("] ");
    s.append(p.title.as_str());
    s.append(" — ");
    s.append(result_code_label(p.result_code));
    s
}

/// Whether a successful result has this title.
fn title_installed(results: &Vec<InstallProgress>, title: &str) -> (b: bool)
    ensures
        b == installed_title(progress_view(results@), title@),
{
    let ghost ps = progress_view(results@);
    let mut k: usize = 0;
    while k < results.len()
        invariant
            ps == progress_view(results@),
            k <= results@.len(),
            forall|l: int|
                0 <= l < k ==> !(install_succeeded((#[trigger] ps[l]).result_code) && ps[l].title
                    == title@),
        decreases results@.len() - k,
    {
        assert(ps[k as int] == results@[k as int]@);
        if is_install_success(results[k].result_code) && str_eq(results[k].title.as_str(), title) {
            return true;
        }
        k = k + 1;
    }
    false
}

/// How many results report success.
fn count_successes(results: &Vec<InstallProgress>) -> (n: usize)
    ensures
        n == success_count(progress_view(results@)),
{
    let ghost ps = progress_view(results@);
    let mut n: usize = 0;
    let mut k: usize = 0;
    while k < results.len()
        invariant
            ps == progress_view(results@),
            k <= results@.len(),
            n <= k,
            n == success_count(ps.take(k as int)),
        decreases results@.len() - k,
    {
        proof {
            assert(ps.take(k + 1).drop_last() =~= ps.take(k as int));
            assert(ps.take(k + 1).last() == results@[k as int]@);
        }
        if is_install_success(results[k].result_code) {
            n = n + 1;
        }
        k = k + 1;
    }
    proof {
        assert(ps.take(k as int) =~= ps);
    }
    n
}

/// Whether a result reports a pending restart.
fn any_restart_code(results: &Vec<InstallProgress>) -> (b: bool)
    ensures
        b == exists|k: int|
            0 <= k < results@.len() && ((#[trigger] progress_view(results@)[k]).result_code == 3
                || progress_view(results@)[k].result_code == 4),
{
    let ghost ps = progress_view(results@);
    let mut k: usize = 0;
    while k < results.len()
        invariant
            ps == progress_view(results@),
            k <= results@.len(),
            forall|l: int|
                0 <= l < k ==> !((#[trigger] ps[l]).result_code == 3 || ps[l].result_code == 4),
        decreases results@.len() - k,
    {
        assert(ps[k as int] == results@[k as int]@);
        if results[k].result_code == 3 || results[k].result_code == 4 {
            return true;
        }
        k = k + 1;
    }
    false
}

/// Whether the device is shown with this filter.
fn device_is_shown(d: &DeviceDriver, filter: &str, only_updates: bool) -> (b: bool)
    ensures
        b == device_shown(d@, filter@, only_updates),
{
    if only_updates && d.status != DeviceStatus::UpdateAvailable {
        return false;
    }
    if filter.is_empty() {
        return true;
    }
    let f = to_lowercase(filter);
    let name = to_lowercase(d.name.as_str());
    let manufacturer = to_lowercase(d.manufacturer.as_str());
    let class = to_lowercase(d.device_class.as_str());
    filter_matches(f.as_str(), name.as_str(), manufacturer.as_str(), class.as_str())
}

/// Whether the lower-cased filter text occurs in the lower-cased name,
/// manufacturer or class.
pub fn filter_matches(
    lower_filter: &str,
    lower_name: &str,
    lower_manufacturer: &str,
    lower_class: &str,
) -> (b: bool)
    ensures
        b == filter_hits(lower_filter@, lower_name@, lower_manufacturer@, lower_class@),
{
    str_contains(lower_name, lower_filter) || str_contains(lower_manufacturer, lower_filter)
        || str_contains(lower_class, lower_filter)
}

} // verus!

verus! {

impl AppState {
    /// The state of a fresh window, which knows whether it runs elevated.
    pub fn new(elevated: bool) -> (s: AppState)
        ensures
            s.phase == AppPhase::Idle,
            s.devices@.len() == 0,
            s.updates@.len() == 0,
            s.filter@.len() == 0,
            !s.show_only_updates,
            s.status_message@ == "Klik op 'Scannen' om je PC te analyseren."@,
            s.error_message is None,
            s.install_log@.len() == 0,
            !s.confirm_install,
            !s.show_restart_prompt,
            s.elevated == elevated,
    {
        AppState {
            phase: AppPhase::Idle,
            devices: Vec::new(),
            updates: Vec::new(),
            filter: String::new(),
            show_only_updates: false,
            status_message: "Klik op 'Scannen' om je PC te analyseren.".to_owned(),
            error_message: None,
            install_log: Vec::new(),
            confirm_install: false,
            show_restart_prompt: false,
            elevated,
        }
    }

    /// Whether background work is running.
    pub fn is_busy(&self) -> (b: bool)
        ensures
            b == phase_busy(self.phase),
    {
        self.phase == AppPhase::Scanning || self.phase == AppPhase::Checking || self.phase
            == AppPhase::Installing
    }

    /// The identifiers of the updates offered for the devices, each once.
    pub fn installable_update_ids(&self) -> (ids: Vec<String>)
        ensures
            texts(ids@) == offered_ids(devices_view(self.devices@)),
    {
        let ghost ds = devices_view(self.devices@);
        let mut ids: Vec<String> = Vec::new();
        let mut k: usize = 0;
        while k < self.devices.len()
            invariant
                ds == devices_view(self.devices@),
                k <= self.devices@.len(),
                texts(ids@) == offered_ids(ds.take(k as int)),
            decreases self.devices@.len() - k,
        {
            let device = &self.devices[k];
            proof {
                assert(ds.take(k + 1).drop_last() =~= ds.take(k as int));
                assert(ds.take(k + 1).last() == device@);
            }
            if device.status == DeviceStatus::UpdateAvailable {
                match &device.update_id {
                    Some(id) => {
                        if !contains_text(&ids, id.as_str()) {
                            let c = id.clone();
                            proof {
                                assert(texts(ids@.push(c)) =~= texts(ids@).push(id@));
                            }
                            ids.push(c);
                        }
                    },
                    None => {},
                }
            }
            k = k + 1;
        }
        proof {
            assert(ds.take(k as int) =~= ds);
        }
        ids
    }

    /// How many distinct updates are offered.
    pub fn installable_updates_count(&self) -> (n: usize)
        ensures
            n == offered_ids(devices_view(self.devices@)).len(),
    {
        let ids = self.installable_update_ids();
        proof {
            assert(texts(ids@).len() == ids@.len());
        }
        ids.len()
    }

    /// The updates that are offered for some device, in their order.
    pub fn installable_updates(&self) -> (r: Vec<&DriverUpdate>)
        ensures
            r@.map_values(|u: &DriverUpdate| u@) == updates_among(
                updates_view(self.updates@),
                offered_ids(devices_view(self.devices@)),
            ),
    {
        let ids = self.installable_update_ids();
        let ghost us = updates_view(self.updates@);
        let ghost offered = offered_ids(devices_view(self.devices@));
        let mut r: Vec<&DriverUpdate> = Vec::new();
        let mut k: usize = 0;
        while k < self.updates.len()
            invariant
                us == updates_view(self.updates@),
                texts(ids@) == offered,
                k <= self.updates@.len(),
                r@.map_values(|u: &DriverUpdate| u@) == updates_among(us.take(k as int), offered),
            decreases self.updates@.len() - k,
        {
            let u = &self.updates[k];
            proof {
                assert(us.take(k + 1).drop_last() =~= us.take(k as int));
                assert(us.take(k + 1).last() == u@);
            }
            if contains_text(&ids, u.update_id.as_str()) {
                proof {
                    assert(r@.push(u).map_values(|u: &DriverUpdate| u@) =~= r@.map_values(
                        |u: &DriverUpdate| u@,
                    ).push(u@));
                }
                r.push(u);
            }
            k = k + 1;
        }
        proof {
            assert(us.take(k as int) =~= us);
        }
        r
    }

    /// The devices shown with the current filter, in order.
    pub fn filtered_devices(&self) -> (r: Vec<&DeviceDriver>)
        ensures
            r@.map_values(|d: &DeviceDriver| d@) == shown_devices(
                devices_view(self.devices@),
                self.filter@,
                self.show_only_updates,
            ),
    {
        let ghost ds = devices_view(self.devices@);
        let mut r: Vec<&DeviceDriver> = Vec::new();
        let mut k: usize = 0;
        while k < self.devices.len()
            invariant
                ds == devices_view(self.devices@),
                k <= self.devices@.len(),
                r@.map_values(|d: &DeviceDriver| d@) == shown_devices(
                    ds.take(k as int),
                    self.filter@,
                    self.show_only_updates,
                ),
            decreases self.devices@.len() - k,
        {
            let d = &self.devices[k];
            proof {
                assert(ds.take(k + 1).drop_last() =~= ds.take(k as int));
                assert(ds.take(k + 1).last() == d@);
            }
            if device_is_shown(d, self.filter.as_str(), self.show_only_updates) {
                proof {
                    assert(r@.push(d).map_values(|d: &DeviceDriver| d@) =~= r@.map_values(
                        |d: &DeviceDriver| d@,
                    ).push(d@));
                }
                r.push(d);
            }
            k = k + 1;
        }
        proof {
            assert(ds.take(k as int) =~= ds);
        }
        r
    }
}

} // verus!

verus! {

/// The label of a device's status badge.
pub open spec fn status_label(s: DeviceStatus) -> Seq<char> {
    match s {
        DeviceStatus::Unknown => "Onbekend"@,
        DeviceStatus::UpToDate => "Up-to-date"@,
        DeviceStatus::UpdateAvailable => "Update beschikbaar"@,
        DeviceStatus::Installed => "Geïnstalleerd"@,
    }
}

/// The label of a device's status badge.
pub fn status_badge_label(status: DeviceStatus) -> (s: &'static str)
    ensures
        s@ == status_label(status),
{
    match status {
        DeviceStatus::Unknown => "Onbekend",
        DeviceStatus::UpToDate => "Up-to-date",
        DeviceStatus::UpdateAvailable => "Update beschikbaar",
        DeviceStatus::Installed => "Geïnstalleerd",
    }
}

impl AppState {
    /// Starts a hardware scan: clears the error, the install log and the
    /// restart prompt.
    pub fn start_scan(&mut self) -> (c: Command)
        ensures
            c is Scan,
            final(self).phase == AppPhase::Scanning,
            final(self).error_message is None,
            final(self).status_message@ == "Hardware scannen..."@,
            final(self).install_log@.len() == 0,
            !final(self).show_restart_prompt,
            final(self).devices == old(self).devices,
            final(self).updates == old(self).updates,
            final(self).filter == old(self).filter,
            final(self).show_only_updates == old(self).show_only_updates,
            final(self).confirm_install == old(self).confirm_install,
            final(self).elevated == old(self).elevated,
    {
        self.phase = AppPhase::Scanning;
        self.error_message = None;
        self.status_message = "Hardware scannen...".to_owned();
        self.install_log = Vec::new();
        self.show_restart_prompt = false;
        Command::Scan
    }

    /// Starts the search for driver updates.
    pub fn start_check(&mut self) -> (c: Command)
        ensures
            c is Check,
            final(self).phase == AppPhase::Checking,
            final(self).status_message@ == "Drivers controleren via Windows Update..."@,
            final(self).devices == old(self).devices,
            final(self).updates == old(self).updates,
            final(self).filter == old(self).filter,
            final(self).show_only_updates == old(self).show_only_updates,
            final(self).error_message == old(self).error_message,
            final(self).install_log == old(self).install_log,
            final(self).confirm_install == old(self).confirm_install,
            final(self).show_restart_prompt == old(self).show_restart_prompt,
            final(self).elevated == old(self).elevated,
    {
        self.phase = AppPhase::Checking;
        self.status_message = "Drivers controleren via Windows Update...".to_owned();
        Command::Check
    }

    /// Starts installing every offered update; closes both dialogs.
    pub fn start_install(&mut self) -> (c: Command)
        ensures
            c matches Command::Install(ids) && texts(ids@) == offered_ids(
                devices_view(old(self).devices@),
            ),
            final(self).phase == AppPhase::Installing,
            final(self).status_message@ == "Drivers installeren..."@,
            !final(self).confirm_install,
            !final(self).show_restart_prompt,
            final(self).devices == old(self).devices,
            final(self).updates == old(self).updates,
            final(self).filter == old(self).filter,
            final(self).show_only_updates == old(self).show_only_updates,
            final(self).error_message == old(self).error_message,
            final(self).install_log == old(self).install_log,
            final(self).elevated == old(self).elevated,
    {
        self.phase = AppPhase::Installing;
        self.status_message = "Drivers installeren...".to_owned();
        self.confirm_install = false;
        self.show_restart_prompt = false;
        let ids = self.installable_update_ids();
        Command::Install(ids)
    }

    /// The user confirmed the install: closes the dialog and tells whether
    /// elevation has to be requested first.
    pub fn confirm_accepted(&mut self) -> (ask_elevation: bool)
        ensures
            ask_elevation == !old(self).elevated,
            !final(self).confirm_install,
            final(self).phase == old(self).phase,
            final(self).devices == old(self).devices,
            final(self).updates == old(self).updates,
            final(self).filter == old(self).filter,
            final(self).show_only_updates == old(self).show_only_updates,
            final(self).status_message == old(self).status_message,
            final(self).error_message == old(self).error_message,
            final(self).install_log == old(self).install_log,
            final(self).show_restart_prompt == old(self).show_restart_prompt,
            final(self).elevated == old(self).elevated,
    {
        self.confirm_install = false;
        !self.elevated
    }

    /// The user asked to restart now: closes the prompt and tells whether
    /// elevation has to be requested first.
    pub fn restart_accepted(&mut self) -> (ask_elevation: bool)
        ensures
            ask_elevation == !old(self).elevated,
            !final(self).show_restart_prompt,
            final(self).phase == old(self).phase,
            final(self).devices == old(self).devices,
            final(self).updates == old(self).updates,
            final(self).filter == old(self).filter,
            final(self).show_only_updates == old(self).show_only_updates,
            final(self).status_message == old(self).status_message,
            final(self).error_message == old(self).error_message,
            final(self).install_log == old(self).install_log,
            final(self).confirm_install == old(self).confirm_install,
            final(self).elevated == old(self).elevated,
    {
        self.show_restart_prompt = false;
        !self.elevated
    }
}

} // verus!

verus! {

/// The window's settings are kept.
pub open spec fn keeps_settings(a: AppState, b: AppState) -> bool {
    &&& b.filter == a.filter
    &&& b.show_only_updates == a.show_only_updates
    &&& b.confirm_install == a.confirm_install
    &&& b.elevated == a.elevated
}

/// A finished scan: on success the devices are replaced and the update check
/// starts; on failure the window goes idle with the error.
pub open spec fn after_scan_done(
    a: AppState,
    b: AppState,
    result: Result<Vec<DeviceDriver>, String>,
    c: Command,
) -> bool {
    &&& keeps_settings(a, b)
    &&& b.updates == a.updates
    &&& b.install_log == a.install_log
    &&& b.show_restart_prompt == a.show_restart_prompt
    &&& match result {
        Ok(ds) => {
            &&& b.devices == ds
            &&& b.phase == AppPhase::Checking
            &&& b.status_message@ == "Drivers controleren via Windows Update..."@
            &&& b.error_message == a.error_message
            &&& c is Check
        },
        Err(e) => {
            &&& b.devices == a.devices
            &&& b.phase == AppPhase::Idle
            &&& b.error_message == Some(e)
            &&& b.status_message@ == "Scan mislukt."@
            &&& c is Nothing
        },
    }
}

/// A finished update check: on success the updates are kept and matched to
/// the devices; on failure the error is shown.  Either way the window is
/// ready.
pub open spec fn after_check_done(
    a: AppState,
    b: AppState,
    result: Result<Vec<DriverUpdate>, String>,
    c: Command,
) -> bool {
    &&& keeps_settings(a, b)
    &&& b.install_log == a.install_log
    &&& b.show_restart_prompt == a.show_restart_prompt
    &&& b.phase == AppPhase::Ready
    &&& c is Nothing
    &&& b.devices@.len() == a.devices@.len()
    &&& match result {
        Ok(us) => {
            &&& b.updates == us
            &&& forall|k: int|
                0 <= k < a.devices@.len() ==> (#[trigger] b.devices@[k])@ == matched_device(
                    a.devices@[k]@,
                    updates_view(us@),
                )
            &&& b.status_message@ == check_status(
                a.devices@.len(),
                offered_ids(devices_view(b.devices@)).len(),
            )
            &&& b.error_message == a.error_message
        },
        Err(e) => {
            &&& b.updates == a.updates
            &&& b.devices == a.devices
            &&& b.error_message == Some(e)
            &&& b.status_message@ == decimal(a.devices@.len())
                + " onderdelen gescand — updatecontrole mislukt."@
        },
    }
}

/// A finished install: on success the log lists every result, devices whose
/// update was installed are marked installed, and a restart is proposed when
/// needed; on failure the error is shown and the window is ready again.
pub open spec fn after_install_done(
    a: AppState,
    b: AppState,
    result: Result<InstallSummary, String>,
    c: Command,
) -> bool {
    &&& keeps_settings(a, b)
    &&& b.updates == a.updates
    &&& c is Nothing
    &&& b.devices@.len() == a.devices@.len()
    &&& match result {
        Ok(s) => {
            let ps = progress_view(s.results@);
            &&& texts(b.install_log@) == log_lines(ps)
            &&& forall|k: int|
                0 <= k < a.devices@.len() ==> (#[trigger] b.devices@[k])@ == device_after_install(
                    a.devices@[k]@,
                    ps,
                )
            &&& b.phase == AppPhase::Done
            &&& b.status_message@ == install_status(success_count(ps))
            &&& b.show_restart_prompt == restart_needed(ps, s.reboot_required)
            &&& b.error_message == a.error_message
        },
        Err(e) => {
            &&& b.devices == a.devices
            &&& b.install_log == a.install_log
            &&& b.show_restart_prompt == a.show_restart_prompt
            &&& b.phase == AppPhase::Ready
            &&& b.error_message == Some(e)
            &&& b.status_message@ == "Installatie mislukt."@
        },
    }
}

/// What a report does to the state.
pub open spec fn after_message(a: AppState, b: AppState, msg: WorkerMsg, c: Command) -> bool {
    match msg {
        WorkerMsg::ScanDone(r) => after_scan_done(a, b, r, c),
        WorkerMsg::CheckDone(r) => after_check_done(a, b, r, c),
        WorkerMsg::InstallDone(r) => after_install_done(a, b, r, c),
    }
}

impl AppState {
    fn on_scan_done(&mut self, result: Result<Vec<DeviceDriver>, String>) -> (c: Command)
        ensures
            after_scan_done(*old(self), *final(self), result, c),
    {
        match result {
            Ok(devices) => {
                self.devices = devices;
                self.start_check()
            },
            Err(e) => {
                self.phase = AppPhase::Idle;
                self.error_message = Some(e);
                self.status_message = "Scan mislukt.".to_owned();
                Command::Nothing
            },
        }
    }

    fn on_check_done(&mut self, result: Result<Vec<DriverUpdate>, String>) -> (c: Command)
        requires
            all_scores_fit(devices_view(old(self).devices@)),
        ensures
            after_check_done(*old(self), *final(self), result, c),
    {
        match result {
            Ok(updates) => {
                proof {
                    assert forall|i: int| 0 <= i < self.devices@.len() implies score_fits(
                        #[trigger] self.devices@[i]@,
                    ) by {
                        assert(devices_view(self.devices@)[i] == self.devices@[i]@);
                    }
                }
                match_updates_to_devices(self.devices.as_mut_slice(), updates.as_slice());
                self.updates = updates;
                self.phase = AppPhase::Ready;
                let installable = self.installable_updates_count();
                let mut msg = count_text(self.devices.len());
                if installable == 0 {
                    msg.append(" onderdelen gescand — alle drivers zijn up-to-date.");
                } else {
                    msg.append(" onderdelen gescand — ");
                    msg.append(count_text(installable).as_str());
                    msg.append(" driver update(s) beschikbaar.");
                }
                self.status_message = msg;
                Command::Nothing
            },
            Err(e) => {
                self.phase = AppPhase::Ready;
                self.error_message = Some(e);
                let mut msg = count_text(self.devices.len());
                msg.append(" onderdelen gescand — updatecontrole mislukt.");
                self.status_message = msg;
                Command::Nothing
            },
        }
    }

    fn on_install_done(&mut self, result: Result<InstallSummary, String>) -> (c: Command)
        ensures
            after_install_done(*old(self), *final(self), result, c),
    {
        match result {
            Ok(summary) => {
                let ghost ps = progress_view(summary.results@);
                let mut log: Vec<String> = Vec::new();
                let mut k: usize = 0;
                while k < summary.results.len()
                    invariant
                        ps == progress_view(summary.results@),
                        k <= summary.results@.len(),
                        texts(log@) == log_lines(ps.take(k as int)),
                    decreases summary.results@.len() - k,
                {
                    let line = log_line_text(&summary.results[k]);
                    proof {
                        assert(ps[k as int] == summary.results@[k as int]@);
                        assert(ps.take(k + 1) =~= ps.take(k as int).push(ps[k as int]));
                        assert(log_lines(ps.take(k + 1)) =~= log_lines(ps.take(k as int)).push(
                            log_line(ps[k as int]),
                        ));
                        assert(texts(log@.push(line)) =~= texts(log@).push(line@));
                    }
                    log.push(line);
                    k = k + 1;
                }
                proof {
                    assert(ps.take(k as int) =~= ps);
                }
                self.install_log = log;
                let ghost before = self.devices@;
                let ghost s0 = *self;
                let n = self.devices.len();
                let mut i: usize = 0;
                while i < n
                    invariant
                        keeps_settings(s0, *self),
                        self.updates == s0.updates,
                        self.error_message == s0.error_message,
                        self.install_log == s0.install_log,
                        n == self.devices@.len(),
                        n == before.len(),
                        ps == progress_view(summary.results@),
                        i <= n,
                        forall|l: int| i <= l < n ==> #[trigger] self.devices@[l] == before[l],
                        forall|l: int|
                            0 <= l < i ==> (#[trigger] self.devices@[l])@ == device_after_install(
                                before[l]@,
                                ps,
                            ),
                    decreases n - i,
                {
                    if self.devices[i].status == DeviceStatus::UpdateAvailable {
                        let installed = match &self.devices[i].update_title {
                            Some(title) => title_installed(&summary.results, title.as_str()),
                            None => false,
                        };
                        if installed {
                            self.devices[i].status = DeviceStatus::Installed;
                        }
                    }
                    i = i + 1;
                }
                let success_count = count_successes(&summary.results);
                self.phase = AppPhase::Done;
                if success_count == 0 {
                    self.status_message = "Geen updates geïnstalleerd.".to_owned();
                } else {
                    let mut msg = count_text(success_count);
                    msg.append(" driver(s) geïnstalleerd.");
                    self.status_message = msg;
                }
                let needs_restart = summary.reboot_required || any_restart_code(&summary.results)
                    || success_count > 0;
                self.show_restart_prompt = needs_restart;
                Command::Nothing
            },
            Err(e) => {
                self.phase = AppPhase::Ready;
                self.error_message = Some(e);
                self.status_message = "Installatie mislukt.".to_owned();
                Command::Nothing
            },
        }
    }

    /// Applies a report of background work and tells which work to start next.
    pub fn handle_message(&mut self, msg: WorkerMsg) -> (c: Command)
        requires
            all_scores_fit(devices_view(old(self).devices@)),
            msg_fits(msg),
        ensures
            after_message(*old(self), *final(self), msg, c),
            all_scores_fit(devices_view(final(self).devices@)),
    {
        let ghost start = *self;
        let c = match msg {
            WorkerMsg::ScanDone(r) => self.on_scan_done(r),
            WorkerMsg::CheckDone(r) => self.on_check_done(r),
            WorkerMsg::InstallDone(r) => self.on_install_done(r),
        };
        proof {
            let ds = devices_view(self.devices@);
            let ds0 = devices_view(start.devices@);
            assert forall|k: int| 0 <= k < ds.len() implies score_fits(#[trigger] ds[k]) by {
                assert(ds[k] == self.devices@[k]@);
                if k < ds0.len() {
                    assert(ds0[k] == start.devices@[k]@);
                }
            }
        }
        c
    }
}

} // verus!

verus! {

/// After a successful update check, every update that the window offers to
/// install is one of the updates that the check found.
pub proof fn lemma_check_offers_found_updates(
    a: AppState,
    b: AppState,
    found: Vec<DriverUpdate>,
    c: Command,
    id: Seq<char>,
)
    requires
        after_check_done(a, b, Ok(found), c),
        offered_ids(devices_view(b.devices@)).contains(id),
    ensures
        exists|j: int| 0 <= j < found@.len() && (#[trigger] found@[j])@.update_id == id,
{
    let before = devices_view(a.devices@);
    let after = devices_view(b.devices@);
    let us = updates_view(found@);
    assert forall|k: int| 0 <= k < before.len() implies #[trigger] after[k] == matched_device(
        before[k],
        us,
    ) by {
        assert(after[k] == b.devices@[k]@);
        assert(before[k] == a.devices@[k]@);
    }
    lemma_offered_ids_from_updates(before, after, us, id);
    let j = choose|j: int| 0 <= j < us.len() && (#[trigger] us[j]).update_id == id;
    assert(found@[j]@ == us[j]);
}

/// An install marks as installed only devices that offered an update, and
/// changes nothing else about any device.
pub proof fn lemma_install_only_marks_offered(
    a: AppState,
    b: AppState,
    summary: InstallSummary,
    c: Command,
    k: int,
)
    requires
        after_install_done(a, b, Ok(summary), c),
        0 <= k < a.devices@.len(),
    ensures
        b.devices@[k]@.status == DeviceStatus::Installed ==> (a.devices@[k]@.status
            == DeviceStatus::UpdateAvailable || a.devices@[k]@.status == DeviceStatus::Installed),
        b.devices@[k]@.update_id == a.devices@[k]@.update_id,
        b.devices@[k]@.name == a.devices@[k]@.name,
        b.devices@[k]@.hardware_ids == a.devices@[k]@.hardware_ids,
{
}

} // verus!

verus! {

/// The filter text `narrow` lets through no more than `wide`: `wide` is
/// empty, the two are the same, or `narrow` is ASCII text that extends `wide`.
pub open spec fn narrower_filter(wide: Seq<char>, narrow: Seq<char>) -> bool {
    ||| wide.len() == 0
    ||| narrow == wide
    ||| all_ascii(narrow) && seq_starts_with(narrow, wide)
}

proof fn lemma_contains_prefix(text: Seq<char>, long: Seq<char>, short: Seq<char>)
    requires
        seq_contains(text, long),
        seq_starts_with(long, short),
    ensures
        seq_contains(text, short),
{
    let i = choose|i: int| occurs_at(text, long, i);
    assert(text.subrange(i, i + short.len()) =~= long.subrange(0, short.len() as int));
    assert(occurs_at(text, short, i));
}

proof fn lemma_narrower_device(
    d: DeviceView,
    wide: Seq<char>,
    wide_only: bool,
    narrow: Seq<char>,
    narrow_only: bool,
)
    requires
        narrower_filter(wide, narrow),
        wide_only ==> narrow_only,
        device_shown(d, narrow, narrow_only),
    ensures
        device_shown(d, wide, wide_only),
{
    if wide.len() > 0 && narrow != wide {
        let n = wide.len() as int;
        assert(narrow.subrange(0, n) == wide);
        assert forall|i: int| 0 <= i < wide.len() implies (#[trigger] wide[i] as u32) < 128 by {
            assert(wide[i] == narrow[i]);
        }
        let ln = lowercase(narrow);
        let lw = lowercase(wide);
        assert(seq_starts_with(ln, lw)) by {
            assert(ln.subrange(0, n) =~= lw);
        }
        if seq_contains(lowercase(d.name), ln) {
            lemma_contains_prefix(lowercase(d.name), ln, lw);
        }
        if seq_contains(lowercase(d.manufacturer), ln) {
            lemma_contains_prefix(lowercase(d.manufacturer), ln, lw);
        }
        if seq_contains(lowercase(d.device_class), ln) {
            lemma_contains_prefix(lowercase(d.device_class), ln, lw);
        }
    }
}

proof fn lemma_shown_len(ds: Seq<DeviceView>, filter: Seq<char>, only_updates: bool)
    ensures
        shown_devices(ds, filter, only_updates).len() <= ds.len(),
    decreases ds.len(),
{
    if ds.len() > 0 {
        lemma_shown_len(ds.drop_last(), filter, only_updates);
    }
}

/// A narrower filter shows a part of what a wider one shows: the devices it
/// shows are those that the wider filter shows and it lets through, in the
/// same order.  Turning on "only updates", or extending an ASCII search text,
/// never shows more devices.
pub proof fn lemma_narrower_filter_shows_fewer(
    ds: Seq<DeviceView>,
    wide: Seq<char>,
    wide_only: bool,
    narrow: Seq<char>,
    narrow_only: bool,
)
    requires
        narrower_filter(wide, narrow),
        wide_only ==> narrow_only,
    ensures
        shown_devices(ds, narrow, narrow_only) == shown_devices(
            shown_devices(ds, wide, wide_only),
            narrow,
            narrow_only,
        ),
        shown_devices(ds, narrow, narrow_only).len() <= shown_devices(ds, wide, wide_only).len(),
    decreases ds.len(),
{
    if ds.len() > 0 {
        let t = ds.drop_last();
        let d = ds.last();
        lemma_narrower_filter_shows_fewer(t, wide, wide_only, narrow, narrow_only);
        let w = shown_devices(t, wide, wide_only);
        if device_shown(d, wide, wide_only) {
            assert(w.push(d).drop_last() =~= w);
        } else if device_shown(d, narrow, narrow_only) {
            lemma_narrower_device(d, wide, wide_only, narrow, narrow_only);
        }
    }
    lemma_shown_len(shown_devices(ds, wide, wide_only), narrow, narrow_only);
}

/// Without search text and without "only updates" every device is shown.
pub proof fn lemma_unfiltered_shows_all(ds: Seq<DeviceView>)
    ensures
        shown_devices(ds, Seq::empty(), false) == ds,
    decreases ds.len(),
{
    if ds.len() > 0 {
        lemma_unfiltered_shows_all(ds.drop_last());
        assert(ds.drop_last().push(ds.last()) =~= ds);
    }
}


/// The number of successful results is the number of results whose code is
/// 2, 3 or 4: succeeded, succeeded with a restart required, succeeded with a
/// restart postponed.
pub proof fn lemma_success_count_codes(ps: Seq<ProgressView>)
    ensures
        success_count(ps) == ps.filter(
            |p: ProgressView| p.result_code == 2 || p.result_code == 3 || p.result_code == 4,
        ).len(),
    decreases ps.len(),
{
    reveal(Seq::filter);
    if ps.len() > 0 {
        lemma_success_count_codes(ps.drop_last());
    }
}

/// The updates listed for install are the updates whose identifier is among
/// `ids`, in their order: none is left out and none is added.
pub proof fn lemma_updates_among_filter(us: Seq<UpdateView>, ids: Seq<Seq<char>>)
    ensures
        updates_among(us, ids) == us.filter(|u: UpdateView| ids.contains(u.update_id)),
        forall|j: int|
            0 <= j < us.len() && ids.contains(#[trigger] us[j].update_id) ==> updates_among(
                us,
                ids,
            ).contains(us[j]),
    decreases us.len(),
{
    reveal(Seq::filter);
    if us.len() > 0 {
        lemma_updates_among_filter(us.drop_last(), ids);
    }
    assert forall|j: int|
        0 <= j < us.len() && ids.contains(#[trigger] us[j].update_id) implies updates_among(
        us,
        ids,
    ).contains(us[j]) by {
        us.lemma_filter_contains(|u: UpdateView| ids.contains(u.update_id), j);
    }
}

} // verus!
