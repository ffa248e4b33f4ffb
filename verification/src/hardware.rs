//! The hardware inventory: device records, the rules that skip software and
//! virtual devices, and the assembly of the inventory from the two WMI tables
//! (signed drivers and plug-and-play entities).
use vstd::prelude::*;
use vstd::string::*;
use vstd::utf8::*;

use chrono::{Datelike, Timelike};

use crate::text::{
    chars_of, decimal, decimal_string, lemma_seq_less_irreflexive, lemma_seq_less_total,
    lemma_seq_less_transitive, push_char, seq_contains,
    seq_less, seq_starts_with, str_contains, str_eq, str_less, str_starts_with,
    trim, trim_seq,
};

verus! {

broadcast use vstd::string::group_string_axioms;

// ---------------------------------------------------------------------------
// Types
// ---------------------------------------------------------------------------

/// Where a device stands with respect to driver updates.
#[derive(Debug, Clone, Copy, PartialEq, Eq, Structural)]
pub enum DeviceStatus {
    Unknown,
    UpToDate,
    UpdateAvailable,
    Installed,
}

/// A calendar date and time of day (UTC) at which a driver was published.
#[derive(Debug, Clone, Copy, PartialEq, Eq, Structural)]
pub struct DriverDate {
    pub year: i32,
    pub month: u32,
    pub day: u32,
    pub hour: u32,
    pub minute: u32,
    pub second: u32,
}

/// One device of the machine with its installed driver and, once matched,
/// the update that applies to it.
#[derive(Debug, Clone)]
pub struct DeviceDriver {
    pub device_id: String,
    pub name: String,
    pub manufacturer: String,
    pub device_class: String,
    pub driver_version: String,
    pub driver_date: Option<DriverDate>,
    pub hardware_ids: Vec<String>,
    pub inf_name: String,
    pub status: DeviceStatus,
    pub update_title: Option<String>,
    pub update_id: Option<String>,
}

/// A row of `Win32_PnPEntity`.
#[derive(Debug, Clone)]
pub struct PnPEntity {
    pub device_id: Option<String>,
    pub name: Option<String>,
    pub manufacturer: Option<String>,
    pub pnp_class: Option<String>,
}

/// A row of `Win32_PnPSignedDriver`; `driver_date` holds the date as WMI text.
#[derive(Debug, Clone)]
pub struct PnPSignedDriver {
    pub device_id: Option<String>,
    pub device_name: Option<String>,
    pub driver_version: Option<String>,
    pub driver_date: Option<String>,
    pub manufacturer: Option<String>,
    pub device_class: Option<String>,
    pub hardware_id: Vec<String>,
    pub inf_name: Option<String>,
}

/// A `HardwareID` value as WMI delivers it: a single string or a list.
pub enum StringOrVec {
    One(String),
    Many(Vec<String>),
}

/// Why no inventory could be assembled.
#[derive(Debug, Clone, Copy, PartialEq, Eq, Structural)]
pub enum ScanError {
    /// Neither table yielded a device.
    NoHardware,
}

// ---------------------------------------------------------------------------
// Views
// ---------------------------------------------------------------------------

/// The characters of an optional string.
pub open spec fn opt_view(o: Option<String>) -> Option<Seq<char>> {
    match o {
        Some(s) => Some(s@),
        None => None,
    }
}

/// The characters of each string of a list.
pub open spec fn strings_view(v: Seq<String>) -> Seq<Seq<char>> {
    v.map_values(|s: String| s@)
}

pub ghost struct DeviceView {
    pub device_id: Seq<char>,
    pub name: Seq<char>,
    pub manufacturer: Seq<char>,
    pub device_class: Seq<char>,
    pub driver_version: Seq<char>,
    pub driver_date: Option<DriverDate>,
    pub hardware_ids: Seq<Seq<char>>,
    pub inf_name: Seq<char>,
    pub status: DeviceStatus,
    pub update_title: Option<Seq<char>>,
    pub update_id: Option<Seq<char>>,
}

impl View for DeviceDriver {
    type V = DeviceView;

    open spec fn view(&self) -> DeviceView {
        DeviceView {
            device_id: self.device_id@,
            name: self.name@,
            manufacturer: self.manufacturer@,
            device_class: self.device_class@,
            driver_version: self.driver_version@,
            driver_date: self.driver_date,
            hardware_ids: strings_view(self.hardware_ids@),
            inf_name: self.inf_name@,
            status: self.status,
            update_title: opt_view(self.update_title),
            update_id: opt_view(self.update_id),
        }
    }
}

pub ghost struct EntityView {
    pub device_id: Option<Seq<char>>,
    pub name: Option<Seq<char>>,
    pub manufacturer: Option<Seq<char>>,
    pub pnp_class: Option<Seq<char>>,
}

impl View for PnPEntity {
    type V = EntityView;

    open spec fn view(&self) -> EntityView {
        EntityView {
            device_id: opt_view(self.device_id),
            name: opt_view(self.name),
            manufacturer: opt_view(self.manufacturer),
            pnp_class: opt_view(self.pnp_class),
        }
    }
}

pub ghost struct SignedView {
    pub device_id: Option<Seq<char>>,
    pub device_name: Option<Seq<char>>,
    pub driver_version: Option<Seq<char>>,
    pub driver_date: Option<Seq<char>>,
    pub manufacturer: Option<Seq<char>>,
    pub device_class: Option<Seq<char>>,
    pub hardware_id: Seq<Seq<char>>,
    pub inf_name: Option<Seq<char>>,
}

impl View for PnPSignedDriver {
    type V = SignedView;

    open spec fn view(&self) -> SignedView {
        SignedView {
            device_id: opt_view(self.device_id),
            device_name: opt_view(self.device_name),
            driver_version: opt_view(self.driver_version),
            driver_date: opt_view(self.driver_date),
            manufacturer: opt_view(self.manufacturer),
            device_class: opt_view(self.device_class),
            hardware_id: strings_view(self.hardware_id@),
            inf_name: opt_view(self.inf_name),
        }
    }
}

/// The views of a list of devices.
pub open spec fn devices_view(v: Seq<DeviceDriver>) -> Seq<DeviceView> {
    v.map_values(|d: DeviceDriver| d@)
}

/// The views of a list of entities.
pub open spec fn entities_view(v: Seq<PnPEntity>) -> Seq<EntityView> {
    v.map_values(|e: PnPEntity| e@)
}

/// The views of a list of signed-driver rows.
pub open spec fn signed_view(v: Seq<PnPSignedDriver>) -> Seq<SignedView> {
    v.map_values(|d: PnPSignedDriver| d@)
}

// ---------------------------------------------------------------------------
// Rules
// ---------------------------------------------------------------------------

/// Software devices, root-enumerated devices, the device tree root and the
/// default display are left out of the inventory.
pub open spec fn skip_id(id: Seq<char>) -> bool {
    ||| seq_starts_with(id, "SWD\\"@)
    ||| seq_starts_with(id, "SW\\"@)
    ||| seq_contains(id, "ROOT\\"@)
    ||| seq_contains(id, "HTREE\\"@)
    ||| seq_contains(id, "DISPLAY\\DEFAULT"@)
}

/// An entity is skipped when it has no identifier or a skipped one.
pub open spec fn skip_entity(e: EntityView) -> bool {
    match e.device_id {
        Some(id) => skip_id(id),
        None => true,
    }
}

/// The name under which a device class is shown.
pub open spec fn class_display(class: Seq<char>) -> Seq<char> {
    if class == "Display"@ || class == "DISPLAY"@ {
        "Grafische kaart"@
    } else if class == "Net"@ || class == "NET"@ {
        "Netwerk"@
    } else if class == "MEDIA"@ || class == "Media"@ {
        "Audio"@
    } else if class == "USB"@ {
        "USB"@
    } else if class == "SCSIAdapter"@ || class == "HDC"@ {
        "Opslag"@
    } else if class == "Bluetooth"@ {
        "Bluetooth"@
    } else if class == "System"@ {
        "Systeem"@
    } else if class == "Processor"@ {
        "Processor"@
    } else if class == "Monitor"@ {
        "Monitor"@
    } else if class == "Keyboard"@ {
        "Toetsenbord"@
    } else if class == "Mouse"@ {
        "Muis"@
    } else if class == "Biometric"@ {
        "Biometrie"@
    } else if class == "Camera"@ {
        "Camera"@
    } else if class == "PrintQueue"@ {
        "Printer"@
    } else {
        class
    }
}

/// What `NaiveDateTime::parse_from_str` yields for this text and format, as a date.
pub uninterp spec fn parsed_date_time(text: Seq<char>, format: Seq<char>) -> Option<DriverDate>;

/// The text whose UTF-8 encoding is the first 14 bytes of the encoding of `s`.
pub open spec fn first_14_bytes(s: Seq<char>) -> Seq<char> {
    decode_utf8(encode_utf8(s).subrange(0, 14))
}

/// The WMI date text can be cut after 14 bytes: it is shorter, or byte 14
/// starts a character.
pub open spec fn wmi_date_cuttable(raw: Option<Seq<char>>) -> bool {
    match raw {
        Some(r) => encode_utf8(trim_seq(r)).len() >= 14 ==> is_char_boundary(
            encode_utf8(trim_seq(r)),
            14,
        ),
        None => true,
    }
}

/// The date of a WMI date text: its first 14 bytes after trimming, read as
/// `%Y%m%d%H%M%S`.
pub open spec fn wmi_date(raw: Option<Seq<char>>) -> Option<DriverDate> {
    match raw {
        Some(r) => {
            let s = trim_seq(r);
            if s.len() == 0 {
                None
            } else if encode_utf8(s).len() >= 14 {
                parsed_date_time(first_14_bytes(s), "%Y%m%d%H%M%S"@)
            } else {
                None
            }
        },
        None => None,
    }
}


/// The value of an optional text, or `default` when there is none.
pub open spec fn text_or(o: Option<Seq<char>>, default: Seq<char>) -> Seq<char> {
    match o {
        Some(v) => v,
        None => default,
    }
}

/// A driver-table value when it is present and not empty, else the entity's
/// value, else `default`.
pub open spec fn own_or_entity(
    own: Option<Seq<char>>,
    fallback: Option<Seq<char>>,
    default: Seq<char>,
) -> Seq<char> {
    if own is Some && own->0.len() > 0 {
        own->0
    } else {
        text_or(fallback, default)
    }
}

/// The position of the last entity with identifier `id`: the entity that a
/// map keyed by identifier keeps for it.
pub open spec fn entity_index(es: Seq<EntityView>, id: Seq<char>) -> Option<int>
    decreases es.len(),
{
    if es.len() == 0 {
        None
    } else if es.last().device_id == Some(id) {
        Some(es.len() - 1)
    } else {
        entity_index(es.drop_last(), id)
    }
}

/// The device that a signed-driver row describes, completed from the entity
/// with the same identifier; none for rows without identifier or with a
/// skipped one.
pub open spec fn built_device(es: Seq<EntityView>, d: SignedView) -> Option<DeviceView> {
    let id = text_or(d.device_id, Seq::empty());
    if id.len() == 0 || skip_id(id) {
        None
    } else {
        let e = entity_index(es, id);
        let en = if e is Some { es[e->0].name } else { None };
        let em = if e is Some { es[e->0].manufacturer } else { None };
        let ec = if e is Some { es[e->0].pnp_class } else { None };
        Some(
            DeviceView {
                device_id: id,
                name: own_or_entity(d.device_name, en, "Onbekend apparaat"@),
                manufacturer: own_or_entity(d.manufacturer, em, Seq::empty()),
                device_class: own_or_entity(d.device_class, ec, "Overig"@),
                driver_version: text_or(d.driver_version, Seq::empty()),
                driver_date: wmi_date(d.driver_date),
                hardware_ids: d.hardware_id,
                inf_name: text_or(d.inf_name, Seq::empty()),
                status: DeviceStatus::Unknown,
                update_title: None,
                update_id: None,
            },
        )
    }
}

/// The device that an entity without a signed driver stands for.
pub open spec fn entity_device(e: EntityView) -> DeviceView {
    DeviceView {
        device_id: text_or(e.device_id, Seq::empty()),
        name: text_or(e.name, "Onbekend apparaat"@),
        manufacturer: text_or(e.manufacturer, Seq::empty()),
        device_class: text_or(e.pnp_class, "Overig"@),
        driver_version: Seq::empty(),
        driver_date: None,
        hardware_ids: Seq::empty(),
        inf_name: Seq::empty(),
        status: DeviceStatus::Unknown,
        update_title: None,
        update_id: None,
    }
}

/// The devices described by the signed-driver rows, in row order.
pub open spec fn signed_devices(es: Seq<EntityView>, ss: Seq<SignedView>) -> Seq<DeviceView>
    decreases ss.len(),
{
    if ss.len() == 0 {
        Seq::empty()
    } else {
        let prev = signed_devices(es, ss.drop_last());
        match built_device(es, ss.last()) {
            Some(d) => prev.push(d),
            None => prev,
        }
    }
}

/// Some device of `ds` has identifier `id`.
pub open spec fn has_device(ds: Seq<DeviceView>, id: Seq<char>) -> bool {
    exists|k: int| 0 <= k < ds.len() && (#[trigger] ds[k]).device_id == id
}

/// The entity at position `k` is added to `ds`: it is the one kept for its
/// identifier, no device of `ds` has that identifier, and it is not skipped.
pub open spec fn adds_entity(es: Seq<EntityView>, ds: Seq<DeviceView>, k: int) -> bool {
    let e = es[k];
    &&& e.device_id is Some
    &&& entity_index(es, e.device_id->0) == Some(k)
    &&& !has_device(ds, e.device_id->0)
    &&& !skip_entity(e)
}

/// `base` followed by the devices that the first `n` entities add.
pub open spec fn entity_devices(es: Seq<EntityView>, base: Seq<DeviceView>, n: nat) -> Seq<
    DeviceView,
>
    decreases n,
{
    if n == 0 {
        base
    } else {
        let prev = entity_devices(es, base, (n - 1) as nat);
        if adds_entity(es, prev, n - 1) {
            prev.push(entity_device(es[n - 1]))
        } else {
            prev
        }
    }
}

/// Device `a` is listed before device `b`: by class, then by name.
pub open spec fn device_before(a: DeviceView, b: DeviceView) -> bool {
    ||| seq_less(a.device_class, b.device_class)
    ||| a.device_class == b.device_class && seq_less(a.name, b.name)
}

/// `s` with `x` inserted after every element that `x` does not come before.
pub open spec fn insert_sorted(s: Seq<DeviceView>, x: DeviceView) -> Seq<DeviceView>
    decreases s.len(),
{
    if s.len() > 0 && device_before(x, s.last()) {
        insert_sorted(s.drop_last(), x).push(s.last())
    } else {
        s.push(x)
    }
}

/// `s` sorted by class and name; devices that tie keep their order.
pub open spec fn sort_devices_spec(s: Seq<DeviceView>) -> Seq<DeviceView>
    decreases s.len(),
{
    if s.len() == 0 {
        s
    } else {
        insert_sorted(sort_devices_spec(s.drop_last()), s.last())
    }
}

/// The inventory that the two tables yield: the devices of the signed-driver
/// rows, then the remaining entities, sorted by class and name.
pub open spec fn inventory(es: Seq<EntityView>, ss: Seq<SignedView>) -> Seq<DeviceView> {
    sort_devices_spec(entity_devices(es, signed_devices(es, ss), es.len()))
}

/// Every date text that the inventory reads can be cut where it cuts it.
pub open spec fn dates_cuttable(ss: Seq<SignedView>) -> bool {
    forall|k: int| 0 <= k < ss.len() ==> row_date_cuttable(#[trigger] ss[k])
}

/// The row names a device that the inventory keeps: its identifier is
/// present, not empty and not skipped.
pub open spec fn row_builds(d: SignedView) -> bool {
    let id = text_or(d.device_id, Seq::empty());
    id.len() > 0 && !skip_id(id)
}

/// The date text of a row that builds a device can be cut where the
/// inventory cuts it; other rows are dropped before their date is read.
pub open spec fn row_date_cuttable(d: SignedView) -> bool {
    row_builds(d) ==> wmi_date_cuttable(d.driver_date)
}

/// A device view of an optional device.
pub open spec fn opt_device_view(o: Option<DeviceDriver>) -> Option<DeviceView> {
    match o {
        Some(d) => Some(d@),
        None => None,
    }
}

/// The hardware identifiers that a `HardwareID` value carries: a single
/// non-empty string, or all strings of a list.
pub open spec fn hardware_ids_of(value: Option<StringOrVec>) -> Seq<Seq<char>> {
    match value {
        Some(StringOrVec::One(s)) => if s@.len() > 0 {
            seq![s@]
        } else {
            Seq::empty()
        },
        Some(StringOrVec::Many(v)) => strings_view(v@),
        None => Seq::empty(),
    }
}

// ---------------------------------------------------------------------------
// Trusted call into chrono
// ---------------------------------------------------------------------------

/// Calls `chrono::NaiveDateTime::parse_from_str` and reads the fields of the
/// result; the contract claims only that the outcome is `parsed_date_time` of
/// the text and the format.
#[verifier::external_body]
fn parse_date_time(text: &str, format: &str) -> (r: Option<DriverDate>)
    ensures
        r == parsed_date_time(text@, format@),
{
    chrono::NaiveDateTime::parse_from_str(text, format).ok().map(
        |dt| DriverDate {
            year: dt.year(),
            month: dt.month(),
            day: dt.day(),
            hour: dt.hour(),
            minute: dt.minute(),
            second: dt.second(),
        },
    )
}

// ---------------------------------------------------------------------------
// Executable functions
// ---------------------------------------------------------------------------

/// Whether a device identifier denotes a device that the inventory leaves out.
pub fn should_skip_id(id: &str) -> (b: bool)
    ensures
        b == skip_id(id@),
{
    str_starts_with(id, "SWD\\") || str_starts_with(id, "SW\\") || str_contains(id, "ROOT\\")
        || str_contains(id, "HTREE\\") || str_contains(id, "DISPLAY\\DEFAULT")
}

/// Whether an entity is left out of the inventory.
pub fn should_skip_entity(entity: &PnPEntity) -> (b: bool)
    ensures
        b == skip_entity(entity@),
{
    match &entity.device_id {
        Some(id) => should_skip_id(id.as_str()),
        None => true,
    }
}

/// The name under which a device class is shown; unknown classes keep their name.
pub fn class_display_name(class: &str) -> (r: &str)
    ensures
        r@ == class_display(class@),
{
    if str_eq(class, "Display") || str_eq(class, "DISPLAY") {
        "Grafische kaart"
    } else if str_eq(class, "Net") || str_eq(class, "NET") {
        "Netwerk"
    } else if str_eq(class, "MEDIA") || str_eq(class, "Media") {
        "Audio"
    } else if str_eq(class, "USB") {
        "USB"
    } else if str_eq(class, "SCSIAdapter") || str_eq(class, "HDC") {
        "Opslag"
    } else if str_eq(class, "Bluetooth") {
        "Bluetooth"
    } else if str_eq(class, "System") {
        "Systeem"
    } else if str_eq(class, "Processor") {
        "Processor"
    } else if str_eq(class, "Monitor") {
        "Monitor"
    } else if str_eq(class, "Keyboard") {
        "Toetsenbord"
    } else if str_eq(class, "Mouse") {
        "Muis"
    } else if str_eq(class, "Biometric") {
        "Biometrie"
    } else if str_eq(class, "Camera") {
        "Camera"
    } else if str_eq(class, "PrintQueue") {
        "Printer"
    } else {
        class
    }
}

/// Whether the date text can be cut where `parse_wmi_date` cuts it: after
/// trimming it is shorter than 14 bytes, or its 15th byte starts a character.
pub fn wmi_date_is_cuttable(raw: &str) -> (b: bool)
    ensures
        b == wmi_date_cuttable(Some(raw@)),
{
    let s = trim(raw);
    s.as_bytes().len() < 14 || s.is_char_boundary(14)
}

/// Whether the inventory can read the row's date: the row is dropped for its
/// identifier, or its date text can be cut after 14 bytes.
pub fn row_date_is_cuttable(d: &PnPSignedDriver) -> (b: bool)
    ensures
        b == row_date_cuttable(d@),
{
    let builds = match &d.device_id {
        Some(id) => !id.as_str().is_empty() && !should_skip_id(id.as_str()),
        None => false,
    };
    if !builds {
        proof {
            reveal_strlit("");
        }
        return true;
    }
    match &d.driver_date {
        Some(raw) => wmi_date_is_cuttable(raw.as_str()),
        None => true,
    }
}

/// The date of a WMI date text (`yyyymmddHHMMSS` followed by anything), if it
/// has one.  The text is cut after its 14th byte, so that byte has to end a
/// character when the trimmed text is that long.
pub fn parse_wmi_date(raw: Option<&str>) -> (r: Option<DriverDate>)
    requires
        wmi_date_cuttable(
            match raw {
                Some(s) => Some(s@),
                None => None,
            },
        ),
    ensures
        r == wmi_date(
            match raw {
                Some(s) => Some(s@),
                None => None,
            },
        ),
{
    broadcast use vstd::utf8::group_utf8_lib;

    let s = match raw {
        Some(s) => trim(s),
        None => {
            return None;
        },
    };
    if s.is_empty() {
        return None;
    }
    if s.as_bytes().len() >= 14 {
        let (head, _rest) = s.split_at(14);
        proof {
            assert(head@ == decode_utf8(encode_utf8(head@)));
            assert(head.spec_bytes() == encode_utf8(head@));
        }
        return parse_date_time(head, "%Y%m%d%H%M%S");
    }
    None
}

} // verus!

verus! {

/// The hardware identifiers of a `HardwareID` value.
pub fn string_or_vec(value: Option<StringOrVec>) -> (ids: Vec<String>)
    ensures
        strings_view(ids@) == hardware_ids_of(value),
{
    match value {
        Some(StringOrVec::One(s)) => {
            if s.as_str().is_empty() {
                let ids: Vec<String> = Vec::new();
                proof {
                    assert(strings_view(ids@) =~= Seq::<Seq<char>>::empty());
                }
                ids
            } else {
                let ghost v = s@;
                let mut ids: Vec<String> = Vec::new();
                ids.push(s);
                proof {
                    assert(strings_view(ids@) =~= seq![v]);
                }
                ids
            }
        },
        Some(StringOrVec::Many(v)) => v,
        None => {
            let ids: Vec<String> = Vec::new();
            proof {
                assert(strings_view(ids@) =~= Seq::<Seq<char>>::empty());
            }
            ids
        },
    }
}

/// An owned copy of an optional text, or of `default` when there is none.
fn owned_text_or(o: &Option<String>, default: &str) -> (s: String)
    ensures
        s@ == text_or(opt_view(*o), default@),
{
    match o {
        Some(v) => v.clone(),
        None => default.to_owned(),
    }
}

/// The position of the entity kept for identifier `id`.
fn find_entity(entities: &[PnPEntity], id: &str) -> (r: Option<usize>)
    ensures
        match r {
            Some(i) => i < entities@.len() && entity_index(entities_view(entities@), id@) == Some(
                i as int,
            ),
            None => entity_index(entities_view(entities@), id@) is None,
        },
{
    let ghost es = entities_view(entities@);
    let mut i: usize = entities.len();
    assert(es.take(i as int) =~= es);
    while i > 0
        invariant
            i <= entities@.len(),
            es == entities_view(entities@),
            entity_index(es, id@) == entity_index(es.take(i as int), id@),
        decreases i,
    {
        let e = &entities[i - 1];
        proof {
            assert(es.take(i as int).last() == e@);
            assert(es.take(i as int).drop_last() =~= es.take(i - 1));
        }
        match &e.device_id {
            Some(x) => {
                if str_eq(x.as_str(), id) {
                    return Some(i - 1);
                }
            },
            None => {},
        }
        i = i - 1;
    }
    None
}

/// The device that a signed-driver row describes, completed from the entities.
fn build_device(d: PnPSignedDriver, entities: &[PnPEntity]) -> (r: Option<DeviceDriver>)
    requires
        row_date_cuttable(d@),
    ensures
        opt_device_view(r) == built_device(entities_view(entities@), d@),
{
    let ghost dv = d@;
    let ghost es = entities_view(entities@);
    let device_id = match d.device_id {
        Some(id) => id,
        None => String::new(),
    };
    if device_id.as_str().is_empty() || should_skip_id(device_id.as_str()) {
        return None;
    }
    let entity = find_entity(entities, device_id.as_str());
    let name = match d.device_name {
        Some(n) if !n.as_str().is_empty() => n,
        _ => match entity {
            Some(i) => owned_text_or(&entities[i].name, "Onbekend apparaat"),
            None => "Onbekend apparaat".to_owned(),
        },
    };
    let manufacturer = match d.manufacturer {
        Some(m) if !m.as_str().is_empty() => m,
        _ => match entity {
            Some(i) => owned_text_or(&entities[i].manufacturer, ""),
            None => String::new(),
        },
    };
    let device_class = match d.device_class {
        Some(c) if !c.as_str().is_empty() => c,
        _ => match entity {
            Some(i) => owned_text_or(&entities[i].pnp_class, "Overig"),
            None => "Overig".to_owned(),
        },
    };
    let driver_date = match &d.driver_date {
        Some(s) => parse_wmi_date(Some(s.as_str())),
        None => parse_wmi_date(None),
    };
    let driver_version = match d.driver_version {
        Some(v) => v,
        None => String::new(),
    };
    let inf_name = match d.inf_name {
        Some(v) => v,
        None => String::new(),
    };
    let dev = DeviceDriver {
        device_id,
        name,
        manufacturer,
        device_class,
        driver_version,
        driver_date,
        hardware_ids: d.hardware_id,
        inf_name,
        status: DeviceStatus::Unknown,
        update_title: None,
        update_id: None,
    };
    proof {
        reveal_strlit("");
        assert(""@ =~= Seq::<char>::empty());
        let b = built_device(es, dv).unwrap();
        assert(dev@.device_id == b.device_id);
        assert(dev@.name == b.name);
        assert(dev@.manufacturer == b.manufacturer);
        assert(dev@.device_class == b.device_class);
        assert(dev@.driver_version == b.driver_version);
        assert(dev@.driver_date == b.driver_date);
        assert(dev@.hardware_ids == b.hardware_ids);
        assert(dev@.inf_name == b.inf_name);
        assert(dev@ == b);
    }
    Some(dev)
}

/// The device that an entity without a signed driver stands for.
fn device_from_entity(e: &PnPEntity) -> (d: DeviceDriver)
    ensures
        d@ == entity_device(e@),
{
    let d = DeviceDriver {
        device_id: owned_text_or(&e.device_id, ""),
        name: owned_text_or(&e.name, "Onbekend apparaat"),
        manufacturer: owned_text_or(&e.manufacturer, ""),
        device_class: owned_text_or(&e.pnp_class, "Overig"),
        driver_version: String::new(),
        driver_date: None,
        hardware_ids: Vec::new(),
        inf_name: String::new(),
        status: DeviceStatus::Unknown,
        update_title: None,
        update_id: None,
    };
    proof {
        reveal_strlit("");
        assert(""@ =~= Seq::<char>::empty());
        assert(d@.hardware_ids =~= Seq::<Seq<char>>::empty());
        assert(d@.driver_version =~= Seq::<char>::empty());
        assert(d@.inf_name =~= Seq::<char>::empty());
    }
    d
}

/// Whether device `a` is listed before device `b`.
pub fn device_listed_before(a: &DeviceDriver, b: &DeviceDriver) -> (r: bool)
    ensures
        r == device_before(a@, b@),
{
    str_less(a.device_class.as_str(), b.device_class.as_str()) || (str_eq(
        a.device_class.as_str(),
        b.device_class.as_str(),
    ) && str_less(a.name.as_str(), b.name.as_str()))
}

} // verus!

verus! {

// ---------------------------------------------------------------------------
// Order of the inventory
// ---------------------------------------------------------------------------

/// Devices `a` and `b` have the same class and the same name.
pub open spec fn same_place(a: DeviceView, b: DeviceView) -> bool {
    a.device_class == b.device_class && a.name == b.name
}

/// No device of `s` comes before one that precedes it.
pub open spec fn listed_in_order(s: Seq<DeviceView>) -> bool {
    forall|i: int, j: int| 0 <= i < j < s.len() ==> !device_before(#[trigger] s[j], #[trigger] s[i])
}

proof fn lemma_before_irreflexive(a: DeviceView)
    ensures
        !device_before(a, a),
{
    lemma_seq_less_irreflexive(a.device_class);
    lemma_seq_less_irreflexive(a.name);
}

proof fn lemma_before_transitive(a: DeviceView, b: DeviceView, c: DeviceView)
    requires
        device_before(a, b),
        device_before(b, c),
    ensures
        device_before(a, c),
{
    if seq_less(a.device_class, b.device_class) && seq_less(b.device_class, c.device_class) {
        lemma_seq_less_transitive(a.device_class, b.device_class, c.device_class);
    }
    if a.device_class == b.device_class && b.device_class == c.device_class {
        lemma_seq_less_irreflexive(a.device_class);
        lemma_seq_less_transitive(a.name, b.name, c.name);
    }
}

proof fn lemma_before_total(a: DeviceView, b: DeviceView)
    ensures
        device_before(a, b) || device_before(b, a) || same_place(a, b),
{
    lemma_seq_less_total(a.device_class, b.device_class);
    lemma_seq_less_total(a.name, b.name);
}

/// If `x` does not come before `y` and `y` does not come before `z`, then `x`
/// does not come before `z`.
proof fn lemma_not_before_transitive(x: DeviceView, y: DeviceView, z: DeviceView)
    requires
        !device_before(x, y),
        !device_before(y, z),
    ensures
        !device_before(x, z),
{
    if device_before(x, z) {
        lemma_before_total(x, y);
        if device_before(y, x) {
            lemma_before_transitive(y, x, z);
        }
    }
}

proof fn lemma_insert_sorted_multiset(s: Seq<DeviceView>, x: DeviceView)
    ensures
        insert_sorted(s, x).to_multiset() == s.to_multiset().insert(x),
    decreases s.len(),
{
    broadcast use vstd::seq_lib::group_to_multiset_ensures;

    if s.len() > 0 && device_before(x, s.last()) {
        lemma_insert_sorted_multiset(s.drop_last(), x);
        assert(s.drop_last().push(s.last()) =~= s);
        assert(s.to_multiset() =~= s.drop_last().to_multiset().insert(s.last()));
        assert(insert_sorted(s, x).to_multiset() =~= s.to_multiset().insert(x));
    }
}

/// Sorting keeps exactly the devices it was given.
pub proof fn lemma_sort_devices_permutation(s: Seq<DeviceView>)
    ensures
        sort_devices_spec(s).to_multiset() == s.to_multiset(),
        sort_devices_spec(s).len() == s.len(),
    decreases s.len(),
{
    broadcast use vstd::seq_lib::group_to_multiset_ensures;

    if s.len() > 0 {
        lemma_sort_devices_permutation(s.drop_last());
        lemma_insert_sorted_multiset(sort_devices_spec(s.drop_last()), s.last());
        assert(s.drop_last().push(s.last()) =~= s);
        assert(sort_devices_spec(s).to_multiset() =~= s.to_multiset());
    }
    assert(sort_devices_spec(s).len() == sort_devices_spec(s).to_multiset().len());
}

proof fn lemma_insert_sorted_in_order(s: Seq<DeviceView>, x: DeviceView)
    requires
        listed_in_order(s),
    ensures
        listed_in_order(insert_sorted(s, x)),
    decreases s.len(),
{
    broadcast use vstd::seq_lib::group_to_multiset_ensures;

    let r = insert_sorted(s, x);
    if s.len() > 0 && device_before(x, s.last()) {
        let t = s.drop_last();
        let last = s.last();
        assert(listed_in_order(t));
        lemma_insert_sorted_in_order(t, x);
        let rt = insert_sorted(t, x);
        lemma_insert_sorted_multiset(t, x);
        assert forall|i: int, j: int| 0 <= i < j < r.len() implies !device_before(
            #[trigger] r[j],
            #[trigger] r[i],
        ) by {
            if j == r.len() - 1 {
                assert(r[j] == last);
                assert(r[i] == rt[i]);
                assert(rt.contains(rt[i]));
                assert(rt.to_multiset().count(rt[i]) > 0);
                if rt[i] == x {
                    if device_before(last, x) {
                        lemma_before_transitive(x, last, x);
                        lemma_before_irreflexive(x);
                    }
                } else {
                    assert(t.to_multiset().count(rt[i]) > 0);
                    assert(t.contains(rt[i]));
                    let k = choose|k: int| 0 <= k < t.len() && t[k] == rt[i];
                    assert(s[k] == t[k]);
                    assert(s[s.len() - 1] == last);
                }
            } else {
                assert(r[i] == rt[i] && r[j] == rt[j]);
            }
        }
    } else {
        assert forall|i: int, j: int| 0 <= i < j < r.len() implies !device_before(
            #[trigger] r[j],
            #[trigger] r[i],
        ) by {
            if j == s.len() {
                assert(r[j] == x);
                assert(r[i] == s[i]);
                if i < s.len() - 1 {
                    assert(!device_before(s[s.len() - 1], s[i]));
                    lemma_not_before_transitive(x, s[s.len() - 1], s[i]);
                }
            } else {
                assert(r[i] == s[i] && r[j] == s[j]);
            }
        }
    }
}

/// Sorting lists the devices by class, then by name.
pub proof fn lemma_sort_devices_in_order(s: Seq<DeviceView>)
    ensures
        listed_in_order(sort_devices_spec(s)),
    decreases s.len(),
{
    if s.len() > 0 {
        lemma_sort_devices_in_order(s.drop_last());
        lemma_insert_sorted_in_order(sort_devices_spec(s.drop_last()), s.last());
    }
}

/// Inserting where the backward scan stops is what `insert_sorted` does.
proof fn lemma_insert_sorted_at(s: Seq<DeviceView>, x: DeviceView, j: int)
    requires
        0 <= j <= s.len(),
        forall|k: int| j <= k < s.len() ==> device_before(x, #[trigger] s[k]),
        j == 0 || !device_before(x, s[j - 1]),
    ensures
        insert_sorted(s, x) == s.insert(j, x),
    decreases s.len(),
{
    if s.len() > j {
        let t = s.drop_last();
        assert(device_before(x, s[s.len() - 1]));
        assert forall|k: int| j <= k < t.len() implies device_before(x, #[trigger] t[k]) by {
            assert(t[k] == s[k]);
        }
        if j > 0 {
            assert(t[j - 1] == s[j - 1]);
        }
        lemma_insert_sorted_at(t, x, j);
        assert(t.insert(j, x).push(s.last()) =~= s.insert(j, x));
    } else {
        assert(s.push(x) =~= s.insert(j, x));
    }
}

/// The devices sorted by class, then by name; devices that tie keep their order.
fn sort_devices(v: Vec<DeviceDriver>) -> (r: Vec<DeviceDriver>)
    ensures
        devices_view(r@) == sort_devices_spec(devices_view(v@)),
{
    let ghost input = v@;
    let mut out: Vec<DeviceDriver> = Vec::new();
    let ghost mut done: Seq<DeviceDriver> = Seq::empty();
    proof {
        assert(devices_view(out@) =~= sort_devices_spec(devices_view(done)));
    }
    for x in it: v.into_iter()
        invariant
            it.seq() == input,
            done == it.seq().take(it.index() as int),
            devices_view(out@) == sort_devices_spec(devices_view(done)),
    {
        let ghost before = out@;
        let mut j: usize = out.len();
        while j > 0 && device_listed_before(&x, &out[j - 1])
            invariant
                out@ == before,
                j <= out@.len(),
                forall|k: int| j <= k < out@.len() ==> device_before(x@, #[trigger] out@[k]@),
            decreases j,
        {
            j = j - 1;
        }
        proof {
            let sv = devices_view(out@);
            assert forall|k: int| j <= k < sv.len() implies device_before(x@, #[trigger] sv[k]) by {
                assert(sv[k] == out@[k]@);
            }
            if j > 0 {
                assert(sv[j - 1] == out@[j - 1]@);
            }
            lemma_insert_sorted_at(sv, x@, j as int);
            assert(devices_view(out@.insert(j as int, x)) =~= sv.insert(j as int, x@));
            let nd = done.push(x);
            assert(devices_view(nd).drop_last() =~= devices_view(done));
            assert(devices_view(nd).last() == x@);
            done = nd;
        }
        out.insert(j, x);
    }
    proof {
        assert(done =~= input);
    }
    out
}

} // verus!

verus! {

// ---------------------------------------------------------------------------
// Assembly of the inventory
// ---------------------------------------------------------------------------

/// Whether some device of `devices` has identifier `id`.
fn has_device_with_id(devices: &Vec<DeviceDriver>, id: &str) -> (b: bool)
    ensures
        b == has_device(devices_view(devices@), id@),
{
    let ghost dv = devices_view(devices@);
    let mut k: usize = 0;
    while k < devices.len()
        invariant
            dv == devices_view(devices@),
            k <= devices@.len(),
            forall|l: int| 0 <= l < k ==> (#[trigger] dv[l]).device_id != id@,
        decreases devices@.len() - k,
    {
        if str_eq(devices[k].device_id.as_str(), id) {
            assert(dv[k as int].device_id == id@);
            return true;
        }
        k = k + 1;
    }
    false
}

/// The inventory assembled from the rows of `Win32_PnPEntity` and of
/// `Win32_PnPSignedDriver`: one device per signed driver that names a device
/// which is not skipped, then one per remaining entity that is not skipped
/// (for each identifier the last entity row, in row order), sorted by class
/// and name with ties in that order.  It is an error when no device remains.
pub fn collect_devices(entities: Vec<PnPEntity>, signed: Vec<PnPSignedDriver>) -> (r: Result<
    Vec<DeviceDriver>,
    ScanError,
>)
    requires
        dates_cuttable(signed_view(signed@)),
    ensures
        match r {
            Ok(v) => {
                &&& devices_view(v@) == inventory(entities_view(entities@), signed_view(signed@))
                &&& v@.len() > 0
            },
            Err(e) => {
                &&& e == ScanError::NoHardware
                &&& inventory(entities_view(entities@), signed_view(signed@)).len() == 0
            },
        },
{
    let ghost es = entities_view(entities@);
    let ghost ss = signed_view(signed@);
    let ghost input = signed@;
    let mut devices: Vec<DeviceDriver> = Vec::new();
    let ghost mut done: Seq<PnPSignedDriver> = Seq::empty();
    proof {
        assert(devices_view(devices@) =~= signed_devices(es, signed_view(done)));
    }
    for d in it: signed.into_iter()
        invariant
            it.seq() == input,
            ss == signed_view(input),
            es == entities_view(entities@),
            dates_cuttable(ss),
            done == it.seq().take(it.index() as int),
            devices_view(devices@) == signed_devices(es, signed_view(done)),
    {
        proof {
            assert(ss[it.index() as int] == d@);
        }
        let ghost nd = done.push(d);
        let ghost dv = d@;
        let built = build_device(d, entities.as_slice());
        proof {
            assert(signed_view(nd).drop_last() =~= signed_view(done));
            assert(signed_view(nd).last() == dv);
            done = nd;
        }
        match built {
            Some(x) => {
                proof {
                    assert(devices_view(devices@.push(x)) =~= devices_view(devices@).push(x@));
                }
                devices.push(x);
            },
            None => {},
        }
    }
    proof {
        assert(done =~= input);
    }
    let ghost base = devices_view(devices@);
    let n = entities.len();
    for k in 0..n
        invariant
            n == entities@.len(),
            es == entities_view(entities@),
            devices_view(devices@) == entity_devices(es, base, k as nat),
    {
        let e = &entities[k];
        let ghost prev = devices_view(devices@);
        proof {
            assert(es[k as int] == e@);
        }
        if !should_skip_entity(e) {
            match &e.device_id {
                Some(id) => {
                    let kept = find_entity(entities.as_slice(), id.as_str());
                    let is_kept = match kept {
                        Some(i) => i == k,
                        None => false,
                    };
                    if is_kept && !has_device_with_id(&devices, id.as_str()) {
                        let x = device_from_entity(e);
                        proof {
                            assert(devices_view(devices@.push(x)) =~= devices_view(devices@).push(
                                x@,
                            ));
                        }
                        devices.push(x);
                    }
                },
                None => {},
            }
        }
    }
    let sorted = sort_devices(devices);
    proof {
        lemma_sort_devices_permutation(entity_devices(es, base, n as nat));
    }
    if sorted.len() == 0 {
        Err(ScanError::NoHardware)
    } else {
        Ok(sorted)
    }
}

} // verus!

verus! {

/// One of the class names that are shown under another name.
pub open spec fn renamed_class(c: Seq<char>) -> bool {
    ||| c == "Display"@
    ||| c == "DISPLAY"@
    ||| c == "Net"@
    ||| c == "NET"@
    ||| c == "MEDIA"@
    ||| c == "Media"@
    ||| c == "SCSIAdapter"@
    ||| c == "HDC"@
    ||| c == "System"@
    ||| c == "Keyboard"@
    ||| c == "Mouse"@
    ||| c == "Biometric"@
    ||| c == "PrintQueue"@
}

/// The Dutch heading of each Windows device class: graphics cards, network,
/// audio, storage, system, keyboard, mouse, biometrics and printers get their
/// own label; every other class is shown under its own name.
pub proof fn lemma_class_display_labels(class: Seq<char>)
    ensures
        class_display("Display"@) == "Grafische kaart"@,
        class_display("DISPLAY"@) == "Grafische kaart"@,
        class_display("Net"@) == "Netwerk"@,
        class_display("NET"@) == "Netwerk"@,
        class_display("MEDIA"@) == "Audio"@,
        class_display("Media"@) == "Audio"@,
        class_display("USB"@) == "USB"@,
        class_display("SCSIAdapter"@) == "Opslag"@,
        class_display("HDC"@) == "Opslag"@,
        class_display("Bluetooth"@) == "Bluetooth"@,
        class_display("System"@) == "Systeem"@,
        class_display("Processor"@) == "Processor"@,
        class_display("Monitor"@) == "Monitor"@,
        class_display("Keyboard"@) == "Toetsenbord"@,
        class_display("Mouse"@) == "Muis"@,
        class_display("Biometric"@) == "Biometrie"@,
        class_display("Camera"@) == "Camera"@,
        class_display("PrintQueue"@) == "Printer"@,
        (class != "Display"@
            && class != "DISPLAY"@
            && class != "Net"@
            && class != "NET"@
            && class != "MEDIA"@
            && class != "Media"@
            && class != "SCSIAdapter"@
            && class != "HDC"@
            && class != "System"@
            && class != "Keyboard"@
            && class != "Mouse"@
            && class != "Biometric"@
            && class != "PrintQueue"@) ==> class_display(class) == class,
{
    reveal_strlit("Audio");
    reveal_strlit("Biometric");
    reveal_strlit("Biometrie");
    reveal_strlit("Bluetooth");
    reveal_strlit("Camera");
    reveal_strlit("DISPLAY");
    reveal_strlit("Display");
    reveal_strlit("Grafische kaart");
    reveal_strlit("HDC");
    reveal_strlit("Keyboard");
    reveal_strlit("MEDIA");
    reveal_strlit("Media");
    reveal_strlit("Monitor");
    reveal_strlit("Mouse");
    reveal_strlit("Muis");
    reveal_strlit("NET");
    reveal_strlit("Net");
    reveal_strlit("Netwerk");
    reveal_strlit("Opslag");
    reveal_strlit("PrintQueue");
    reveal_strlit("Printer");
    reveal_strlit("Processor");
    reveal_strlit("SCSIAdapter");
    reveal_strlit("Systeem");
    reveal_strlit("System");
    reveal_strlit("Toetsenbord");
    reveal_strlit("USB");
    // Lengths and the first two characters tell the class names apart.
    assert("Display"@.len() == 7 && "Display"@[0] == 'D' && "Display"@[1] == 'i');
    assert("DISPLAY"@.len() == 7 && "DISPLAY"@[0] == 'D' && "DISPLAY"@[1] == 'I');
    assert("Net"@.len() == 3 && "Net"@[0] == 'N' && "Net"@[1] == 'e');
    assert("NET"@.len() == 3 && "NET"@[0] == 'N' && "NET"@[1] == 'E');
    assert("MEDIA"@.len() == 5 && "MEDIA"@[0] == 'M' && "MEDIA"@[1] == 'E');
    assert("Media"@.len() == 5 && "Media"@[0] == 'M' && "Media"@[1] == 'e');
    assert("USB"@.len() == 3 && "USB"@[0] == 'U' && "USB"@[1] == 'S');
    assert("SCSIAdapter"@.len() == 11 && "SCSIAdapter"@[0] == 'S' && "SCSIAdapter"@[1] == 'C');
    assert("HDC"@.len() == 3 && "HDC"@[0] == 'H' && "HDC"@[1] == 'D');
    assert("Bluetooth"@.len() == 9 && "Bluetooth"@[0] == 'B' && "Bluetooth"@[1] == 'l');
    assert("System"@.len() == 6 && "System"@[0] == 'S' && "System"@[1] == 'y');
    assert("Processor"@.len() == 9 && "Processor"@[0] == 'P' && "Processor"@[1] == 'r');
    assert("Monitor"@.len() == 7 && "Monitor"@[0] == 'M' && "Monitor"@[1] == 'o');
    assert("Keyboard"@.len() == 8 && "Keyboard"@[0] == 'K' && "Keyboard"@[1] == 'e');
    assert("Mouse"@.len() == 5 && "Mouse"@[0] == 'M' && "Mouse"@[1] == 'o');
    assert("Biometric"@.len() == 9 && "Biometric"@[0] == 'B' && "Biometric"@[1] == 'i');
    assert("Camera"@.len() == 6 && "Camera"@[0] == 'C' && "Camera"@[1] == 'a');
    assert("PrintQueue"@.len() == 10 && "PrintQueue"@[0] == 'P' && "PrintQueue"@[1] == 'r');
}

/// Showing a class name twice shows the same as showing it once: every shown
/// name is either not a class name or a class shown under its own name.
pub proof fn lemma_class_display_idempotent(class: Seq<char>)
    ensures
        class_display(class_display(class)) == class_display(class),
{
    reveal_strlit("Display");
    reveal_strlit("DISPLAY");
    reveal_strlit("Net");
    reveal_strlit("NET");
    reveal_strlit("MEDIA");
    reveal_strlit("Media");
    reveal_strlit("SCSIAdapter");
    reveal_strlit("HDC");
    reveal_strlit("System");
    reveal_strlit("Keyboard");
    reveal_strlit("Mouse");
    reveal_strlit("Biometric");
    reveal_strlit("PrintQueue");
    reveal_strlit("Grafische kaart");
    reveal_strlit("Netwerk");
    reveal_strlit("Audio");
    reveal_strlit("USB");
    reveal_strlit("Opslag");
    reveal_strlit("Bluetooth");
    reveal_strlit("Systeem");
    reveal_strlit("Processor");
    reveal_strlit("Monitor");
    reveal_strlit("Toetsenbord");
    reveal_strlit("Muis");
    reveal_strlit("Biometrie");
    reveal_strlit("Camera");
    reveal_strlit("Printer");
    // Lengths and the characters that tell equally long names apart.
    assert("Display"@.len() == 7);
    assert("DISPLAY"@.len() == 7);
    assert("Net"@.len() == 3);
    assert("NET"@.len() == 3);
    assert("MEDIA"@.len() == 5);
    assert("Media"@.len() == 5);
    assert("SCSIAdapter"@.len() == 11);
    assert("HDC"@.len() == 3);
    assert("System"@.len() == 6);
    assert("Keyboard"@.len() == 8);
    assert("Mouse"@.len() == 5);
    assert("Biometric"@.len() == 9);
    assert("PrintQueue"@.len() == 10);
    assert("Grafische kaart"@.len() == 15);
    assert("Netwerk"@.len() == 7);
    assert("Audio"@.len() == 5);
    assert("Opslag"@.len() == 6);
    assert("Systeem"@.len() == 7);
    assert("Toetsenbord"@.len() == 11);
    assert("Muis"@.len() == 4);
    assert("Biometrie"@.len() == 9);
    assert("Printer"@.len() == 7);
    assert("Netwerk"@[0] == 'N');
    assert("Systeem"@[0] == 'S');
    assert("Printer"@[0] == 'P');
    assert("Display"@[0] == 'D');
    assert("DISPLAY"@[0] == 'D');
    assert("Audio"@[0] == 'A');
    assert("MEDIA"@[0] == 'M');
    assert("Media"@[0] == 'M');
    assert("Mouse"@[0] == 'M');
    assert("Opslag"@[0] == 'O');
    assert("System"@[0] == 'S');
    assert("Toetsenbord"@[0] == 'T');
    assert("SCSIAdapter"@[0] == 'S');
    assert("Biometrie"@[8] == 'e');
    assert("Biometric"@[8] == 'c');
    assert(!renamed_class("Grafische kaart"@));
    assert(!renamed_class("Netwerk"@));
    assert(!renamed_class("Audio"@));
    assert(!renamed_class("Opslag"@));
    assert(!renamed_class("Systeem"@));
    assert(!renamed_class("Toetsenbord"@));
    assert(!renamed_class("Muis"@));
    assert(!renamed_class("Biometrie"@));
    assert(!renamed_class("Printer"@));
}

proof fn lemma_signed_devices_kept(es: Seq<EntityView>, ss: Seq<SignedView>)
    ensures
        forall|k: int|
            0 <= k < signed_devices(es, ss).len() ==> {
                let d = #[trigger] signed_devices(es, ss)[k];
                d.device_id.len() > 0 && !skip_id(d.device_id)
            },
    decreases ss.len(),
{
    if ss.len() > 0 {
        lemma_signed_devices_kept(es, ss.drop_last());
    }
}

proof fn lemma_entity_devices_kept(es: Seq<EntityView>, base: Seq<DeviceView>, n: nat)
    requires
        n <= es.len(),
        forall|k: int|
            0 <= k < base.len() ==> (#[trigger] base[k]).device_id.len() > 0 || !skip_id(
                base[k].device_id,
            ),
        forall|k: int| 0 <= k < base.len() ==> !skip_id(#[trigger] base[k].device_id),
    ensures
        forall|k: int|
            0 <= k < entity_devices(es, base, n).len() ==> !skip_id(
                #[trigger] entity_devices(es, base, n)[k].device_id,
            ),
    decreases n,
{
    if n > 0 {
        lemma_entity_devices_kept(es, base, (n - 1) as nat);
    }
}

/// No device of the inventory has a skipped identifier.
pub proof fn lemma_inventory_not_skipped(es: Seq<EntityView>, ss: Seq<SignedView>, d: DeviceView)
    requires
        inventory(es, ss).contains(d),
    ensures
        !skip_id(d.device_id),
{
    broadcast use vstd::seq_lib::group_to_multiset_ensures;

    let base = signed_devices(es, ss);
    lemma_signed_devices_kept(es, ss);
    lemma_entity_devices_kept(es, base, es.len());
    let all = entity_devices(es, base, es.len());
    lemma_sort_devices_permutation(all);
    assert(inventory(es, ss).to_multiset().count(d) > 0);
    assert(all.to_multiset().count(d) > 0);
    assert(all.contains(d));
}

/// The inventory is listed by class, then by name, and holds exactly the
/// devices of the signed-driver rows and of the remaining entities.
pub proof fn lemma_inventory_sorted(es: Seq<EntityView>, ss: Seq<SignedView>)
    ensures
        listed_in_order(inventory(es, ss)),
        inventory(es, ss).to_multiset() == entity_devices(
            es,
            signed_devices(es, ss),
            es.len(),
        ).to_multiset(),
{
    let all = entity_devices(es, signed_devices(es, ss), es.len());
    lemma_sort_devices_in_order(all);
    lemma_sort_devices_permutation(all);
}

} // verus!

verus! {

proof fn lemma_entity_index_found(es: Seq<EntityView>, id: Seq<char>)
    ensures
        entity_index(es, id) matches Some(j) ==> 0 <= j < es.len() && es[j].device_id == Some(id),
        entity_index(es, id) is None ==> forall|k: int|
            0 <= k < es.len() ==> (#[trigger] es[k]).device_id != Some(id),
        forall|k: int|
            0 <= k < es.len() && (#[trigger] es[k]).device_id == Some(id) ==> (entity_index(
                es,
                id,
            ) matches Some(j) && k <= j),
    decreases es.len(),
{
    if es.len() > 0 {
        let t = es.drop_last();
        lemma_entity_index_found(t, id);
        assert(es.last() == es[es.len() - 1]);
        assert forall|k: int|
            0 <= k < es.len() && (#[trigger] es[k]).device_id == Some(id) implies (entity_index(
            es,
            id,
        ) matches Some(j) && k <= j) by {
            if k < es.len() - 1 {
                assert(t[k] == es[k]);
            }
        }
        if entity_index(es, id) is None {
            assert forall|k: int| 0 <= k < es.len() implies (#[trigger] es[k]).device_id != Some(
                id,
            ) by {
                if k < es.len() - 1 {
                    assert(t[k] == es[k]);
                }
            }
        }
    }
}

/// The devices that entities add come after `base`, each from an entity
/// that is the one kept for its identifier.
proof fn lemma_entity_devices_shape(es: Seq<EntityView>, base: Seq<DeviceView>, n: nat)
    requires
        n <= es.len(),
    ensures
        entity_devices(es, base, n).len() >= base.len(),
        forall|k: int| 0 <= k < base.len() ==> #[trigger] entity_devices(es, base, n)[k] == base[k],
        forall|k: int|
            base.len() <= k < entity_devices(es, base, n).len() ==> exists|j: int|
                0 <= j < n && #[trigger] entity_devices(es, base, n)[k] == entity_device(es[j])
                    && es[j].device_id is Some && entity_index(es, es[j].device_id->0) == Some(j),
    decreases n,
{
    if n > 0 {
        lemma_entity_devices_shape(es, base, (n - 1) as nat);
        let prev = entity_devices(es, base, (n - 1) as nat);
        let cur = entity_devices(es, base, n);
        assert forall|k: int| base.len() <= k < cur.len() implies exists|j: int|
            0 <= j < n && #[trigger] cur[k] == entity_device(es[j]) && es[j].device_id is Some
                && entity_index(es, es[j].device_id->0) == Some(j) by {
            if k < prev.len() {
                assert(cur[k] == prev[k]);
                let j = choose|j: int|
                    0 <= j < n - 1 && #[trigger] prev[k] == entity_device(es[j])
                        && es[j].device_id is Some && entity_index(es, es[j].device_id->0) == Some(
                        j,
                    );
                assert(cur[k] == entity_device(es[j]));
            } else {
                assert(cur[k] == entity_device(es[n - 1]));
            }
        }
    }
}

/// Devices stay once an entity has been considered.
proof fn lemma_entity_devices_grow(es: Seq<EntityView>, base: Seq<DeviceView>, m: nat, n: nat)
    requires
        m <= n <= es.len(),
    ensures
        entity_devices(es, base, m).len() <= entity_devices(es, base, n).len(),
        forall|k: int|
            0 <= k < entity_devices(es, base, m).len() ==> #[trigger] entity_devices(es, base, n)[k]
                == entity_devices(es, base, m)[k],
    decreases n - m,
{
    if m < n {
        lemma_entity_devices_grow(es, base, m, (n - 1) as nat);
    }
}

/// Entity row `k` is the last one with identifier `id`.
pub open spec fn last_entity_with(es: Seq<EntityView>, id: Seq<char>, k: int) -> bool {
    &&& 0 <= k < es.len()
    &&& es[k].device_id == Some(id)
    &&& forall|j: int| k < j < es.len() ==> (#[trigger] es[j]).device_id != Some(id)
}

/// No entity row has identifier `id`.
pub open spec fn no_entity_with(es: Seq<EntityView>, id: Seq<char>) -> bool {
    forall|j: int| 0 <= j < es.len() ==> (#[trigger] es[j]).device_id != Some(id)
}

/// The row's own value is present and not empty.
pub open spec fn own_value(v: Option<Seq<char>>) -> bool {
    v is Some && v->0.len() > 0
}

/// How a signed-driver row that builds a device fills it: the row's own
/// identifier, hardware identifiers, version and INF name; for the name,
/// manufacturer and class, the row's own non-empty value wins whatever the
/// entities hold; without one, the value of the last entity row with the same
/// identifier is taken, and without such a row the default ("Onbekend
/// apparaat", nothing, "Overig").  The device has no update yet.
pub proof fn lemma_built_device_fields(es: Seq<EntityView>, d: SignedView)
    requires
        row_builds(d),
    ensures
        built_device(es, d) is Some,
        built_device(es, d)->0.device_id == d.device_id->0,
        built_device(es, d)->0.hardware_ids == d.hardware_id,
        built_device(es, d)->0.driver_version == text_or(d.driver_version, Seq::empty()),
        built_device(es, d)->0.inf_name == text_or(d.inf_name, Seq::empty()),
        built_device(es, d)->0.status == DeviceStatus::Unknown,
        built_device(es, d)->0.update_id is None,
        built_device(es, d)->0.update_title is None,
        own_value(d.device_name) ==> built_device(es, d)->0.name == d.device_name->0,
        own_value(d.manufacturer) ==> built_device(es, d)->0.manufacturer == d.manufacturer->0,
        own_value(d.device_class) ==> built_device(es, d)->0.device_class == d.device_class->0,
        no_entity_with(es, d.device_id->0) ==> {
            &&& !own_value(d.device_name) ==> built_device(es, d)->0.name == "Onbekend apparaat"@
            &&& !own_value(d.manufacturer) ==> built_device(es, d)->0.manufacturer.len() == 0
            &&& !own_value(d.device_class) ==> built_device(es, d)->0.device_class == "Overig"@
        },
        forall|k: int|
            #![trigger es[k]]
            last_entity_with(es, d.device_id->0, k) ==> {
                &&& !own_value(d.device_name) ==> built_device(es, d)->0.name == text_or(
                    es[k].name,
                    "Onbekend apparaat"@,
                )
                &&& !own_value(d.manufacturer) ==> built_device(es, d)->0.manufacturer
                    == text_or(es[k].manufacturer, Seq::empty())
                &&& !own_value(d.device_class) ==> built_device(es, d)->0.device_class
                    == text_or(es[k].pnp_class, "Overig"@)
            },
{
    let id = d.device_id->0;
    lemma_entity_index_found(es, id);
    assert forall|k: int| #![trigger es[k]] last_entity_with(es, id, k) implies entity_index(
        es,
        id,
    ) == Some(k) by {
        let j = entity_index(es, id)->0;
        if j != k {
            assert(es[j].device_id == Some(id));
        }
    }
}

/// A device that no signed driver describes is still listed when its entity
/// is not skipped: the entity kept for its identifier appears, without
/// driver details, in the inventory.
pub proof fn lemma_inventory_keeps_entities(es: Seq<EntityView>, ss: Seq<SignedView>, k: int)
    requires
        0 <= k < es.len(),
        es[k].device_id is Some,
        !skip_id(es[k].device_id->0),
        !has_device(signed_devices(es, ss), es[k].device_id->0),
    ensures
        (entity_index(es, es[k].device_id->0) matches Some(j) && inventory(es, ss).contains(
            entity_device(es[j]),
        )),
{
    broadcast use vstd::seq_lib::group_to_multiset_ensures;

    let id = es[k].device_id->0;
    let base = signed_devices(es, ss);
    lemma_entity_index_found(es, id);
    let j = entity_index(es, id)->0;
    let prev = entity_devices(es, base, j as nat);
    lemma_entity_devices_shape(es, base, j as nat);
    if has_device(prev, id) {
        let q = choose|q: int| 0 <= q < prev.len() && (#[trigger] prev[q]).device_id == id;
        if q < base.len() {
            assert(base[q].device_id == id);
        } else {
            let i = choose|i: int|
                0 <= i < j && #[trigger] prev[q] == entity_device(es[i]) && es[i].device_id is Some
                    && entity_index(es, es[i].device_id->0) == Some(i);
            assert(entity_device(es[i]).device_id == es[i].device_id->0);
        }
    }
    assert(adds_entity(es, prev, j));
    let next = entity_devices(es, base, (j + 1) as nat);
    assert(next[prev.len() as int] == entity_device(es[j]));
    lemma_entity_devices_grow(es, base, (j + 1) as nat, es.len());
    let all = entity_devices(es, base, es.len());
    assert(all[prev.len() as int] == entity_device(es[j]));
    assert(all.contains(entity_device(es[j])));
    lemma_sort_devices_permutation(all);
    assert(all.to_multiset().count(entity_device(es[j])) > 0);
    assert(inventory(es, ss).to_multiset().count(entity_device(es[j])) > 0);
}

} // verus!

verus! {

// ---------------------------------------------------------------------------
// Showing a driver date
// ---------------------------------------------------------------------------

/// `n` in decimal, with leading zeros up to `width` digits.
pub open spec fn zero_padded(n: nat, width: nat) -> Seq<char> {
    let d = decimal(n);
    if d.len() < width {
        Seq::new((width - d.len()) as nat, |i: int| '0') + d
    } else {
        d
    }
}

/// A year as `%Y` writes it: four digits for 0 to 9999, otherwise a sign and
/// at least four digits.
pub open spec fn year_text(y: int) -> Seq<char> {
    if 0 <= y <= 9999 {
        zero_padded(y as nat, 4)
    } else if y > 9999 {
        seq!['+'] + decimal(y as nat)
    } else {
        seq!['-'] + zero_padded((-y) as nat, 4)
    }
}

/// A date as `%d-%m-%Y` writes it, e.g. `05-03-2021`.
pub open spec fn date_text(d: DriverDate) -> Seq<char> {
    zero_padded(d.day as nat, 2) + seq!['-'] + zero_padded(d.month as nat, 2) + seq!['-']
        + year_text(d.year as int)
}

/// Appends `n` with leading zeros up to `width` digits.
fn push_zero_padded(s: &mut String, n: u64, width: usize)
    ensures
        final(s)@ == old(s)@ + zero_padded(n as nat, width as nat),
{
    let digits = decimal_string(n);
    let len = chars_of(digits.as_str()).len();
    let ghost start = s@;
    if len < width {
        let mut k: usize = 0;
        while k < width - len
            invariant
                len < width,
                len == decimal(n as nat).len(),
                k <= width - len,
                s@ == start + Seq::new(k as nat, |i: int| '0'),
            decreases width - len - k,
        {
            push_char(s, '0');
            proof {
                assert(s@ =~= start + Seq::new((k + 1) as nat, |i: int| '0'));
            }
            k = k + 1;
        }
    }
    s.append(digits.as_str());
    proof {
        assert(s@ =~= start + zero_padded(n as nat, width as nat));
    }
}

/// The driver date as it is shown, day-month-year: `%d-%m-%Y`.
pub fn format_driver_date(date: DriverDate) -> (s: String)
    ensures
        s@ == date_text(date),
{
    let mut s = String::new();
    push_zero_padded(&mut s, date.day as u64, 2);
    push_char(&mut s, '-');
    push_zero_padded(&mut s, date.month as u64, 2);
    push_char(&mut s, '-');
    let y = date.year as i64;
    if 0 <= y && y <= 9999 {
        push_zero_padded(&mut s, y as u64, 4);
    } else if y > 9999 {
        push_char(&mut s, '+');
        s.append(decimal_string(y as u64).as_str());
    } else {
        push_char(&mut s, '-');
        push_zero_padded(&mut s, (-y) as u64, 4);
    }
    proof {
        assert(s@ =~= date_text(date));
    }
    s
}

} // verus!
