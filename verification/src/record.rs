//! Typed records: one shape for each class, holding the attributes that
//! the class defines.
//!
//! A single-valued attribute that must occur is a text, one that may be
//! absent an optional text, a multi-valued attribute a list of texts in the
//! order of the block, and a time stamp a number of seconds since 1970.

use crate::addr::{AddressRange, RangeView};
use crate::class::ObjectClass;
use crate::date::{parse_timestamp, timestamp};
use crate::entry::{first_value, optional_text, values_of, AttributeView, RawEntry};
use crate::error::{ParseError, ParseErrorView};
use crate::text::{views, word};
use vstd::prelude::*;

verus! {

/// The first value of the attribute `key`, if it occurs.
pub open spec fn one_of(attributes: Seq<AttributeView>, key: Seq<char>) -> Option<Seq<u8>> {
    first_value(attributes, word(key))
}

/// The first value of the attribute `key`; the empty text if it is absent.
pub open spec fn text_of(attributes: Seq<AttributeView>, key: Seq<char>) -> Seq<u8> {
    match first_value(attributes, word(key)) {
        Some(v) => v,
        None => Seq::empty(),
    }
}

/// All values of the attribute `key`, in order.
pub open spec fn all_of(attributes: Seq<AttributeView>, key: Seq<char>) -> Seq<Seq<u8>> {
    values_of(attributes, word(key))
}

/// The moment that the first value of the attribute `key` names; absent if
/// the attribute is absent or its value is no time stamp.
pub open spec fn moment_of(attributes: Seq<AttributeView>, key: Seq<char>) -> Option<u64> {
    match first_value(attributes, word(key)) {
        Some(v) => timestamp(v),
        None => None,
    }
}

impl RawEntry {
    /// The first value of the attribute `key`; the empty text if it is
    /// absent.
    pub fn text(&self, key: &str) -> (r: Vec<u8>)
        ensures
            r@ == text_of(self@.attributes, key@),
    {
        match self.first(key) {
            Some(v) => v,
            None => Vec::new(),
        }
    }

    /// The moment that the first value of the attribute `key` names.
    pub fn moment(&self, key: &str) -> (r: Option<u64>)
        ensures
            r == moment_of(self@.attributes, key@),
    {
        match self.first(key) {
            Some(v) => parse_timestamp(v.as_slice()),
            None => None,
        }
    }
}

/// An address range object: the common shape of `inetnum` and `inet6num`.
#[derive(Clone, Debug, PartialEq, Eq)]
pub struct RangeRecord {
    pub range: AddressRange,
    pub netname: Option<Vec<u8>>,
    pub descr: Vec<Vec<u8>>,
    pub country: Vec<Vec<u8>>,
    pub language: Vec<Vec<u8>>,
    pub org: Option<Vec<u8>>,
    pub admin_c: Vec<Vec<u8>>,
    pub tech_c: Vec<Vec<u8>>,
    pub status: Option<Vec<u8>>,
    pub mnt_by: Vec<Vec<u8>>,
    pub source: Option<Vec<u8>>,
    pub remarks: Vec<Vec<u8>>,
    pub created: Option<u64>,
    pub last_modified: Option<u64>,
}

/// The mathematical content of a [`RangeRecord`].
pub struct RangeRecordView {
    pub range: RangeView,
    pub netname: Option<Seq<u8>>,
    pub descr: Seq<Seq<u8>>,
    pub country: Seq<Seq<u8>>,
    pub language: Seq<Seq<u8>>,
    pub org: Option<Seq<u8>>,
    pub admin_c: Seq<Seq<u8>>,
    pub tech_c: Seq<Seq<u8>>,
    pub status: Option<Seq<u8>>,
    pub mnt_by: Seq<Seq<u8>>,
    pub source: Option<Seq<u8>>,
    pub remarks: Seq<Seq<u8>>,
    pub created: Option<u64>,
    pub last_modified: Option<u64>,
}

impl View for RangeRecord {
    type V = RangeRecordView;

    open spec fn view(&self) -> RangeRecordView {
        RangeRecordView {
            range: self.range@,
            netname: optional_text(self.netname),
            descr: views(self.descr@),
            country: views(self.country@),
            language: views(self.language@),
            org: optional_text(self.org),
            admin_c: views(self.admin_c@),
            tech_c: views(self.tech_c@),
            status: optional_text(self.status),
            mnt_by: views(self.mnt_by@),
            source: optional_text(self.source),
            remarks: views(self.remarks@),
            created: self.created,
            last_modified: self.last_modified,
        }
    }
}

/// The range record that the attributes of a block spell, around the
/// range that its class key holds.
pub open spec fn range_record(range: RangeView, attributes: Seq<AttributeView>) -> RangeRecordView {
    RangeRecordView {
        range,
        netname: one_of(attributes, "netname"@),
        descr: all_of(attributes, "descr"@),
        country: all_of(attributes, "country"@),
        language: all_of(attributes, "language"@),
        org: one_of(attributes, "org"@),
        admin_c: all_of(attributes, "admin-c"@),
        tech_c: all_of(attributes, "tech-c"@),
        status: one_of(attributes, "status"@),
        mnt_by: all_of(attributes, "mnt-by"@),
        source: one_of(attributes, "source"@),
        remarks: all_of(attributes, "remarks"@),
        created: moment_of(attributes, "created"@),
        last_modified: moment_of(attributes, "last-modified"@),
    }
}

impl RangeRecord {
    /// Reads the record of a range object from its block, around the range
    /// that its class key holds.
    pub fn read(range: AddressRange, entry: &RawEntry) -> (r: RangeRecord)
        ensures
            r@ == range_record(range@, entry@.attributes),
    {
        RangeRecord {
            range,
            netname: entry.first("netname"),
            descr: entry.values("descr"),
            country: entry.values("country"),
            language: entry.values("language"),
            org: entry.first("org"),
            admin_c: entry.values("admin-c"),
            tech_c: entry.values("tech-c"),
            status: entry.first("status"),
            mnt_by: entry.values("mnt-by"),
            source: entry.first("source"),
            remarks: entry.values("remarks"),
            created: entry.moment("created"),
            last_modified: entry.moment("last-modified"),
        }
    }

    /// The first address of the range.
    pub fn range_from(&self) -> (a: u128)
        ensures
            a == self@.range.first,
            a <= self@.range.last,
    {
        self.range.range_from()
    }

    /// The last address of the range.
    pub fn range_to(&self) -> (a: u128)
        ensures
            a == self@.range.last,
            self@.range.first <= a <= self@.range.family.max_address(),
    {
        self.range.range_to()
    }
}

/// A maintainer object.
#[derive(Clone, Debug, PartialEq, Eq)]
pub struct MntnerRecord {
    pub mntner: Vec<u8>,
    pub descr: Vec<u8>,
    pub auth: Vec<Vec<u8>>,
    pub upd_to: Vec<Vec<u8>>,
    pub mnt_nfy: Vec<Vec<u8>>,
    pub tech_c: Vec<Vec<u8>>,
    pub admin_c: Vec<Vec<u8>>,
    pub remarks: Vec<Vec<u8>>,
    pub notify: Vec<Vec<u8>>,
    pub mnt_by: Vec<Vec<u8>>,
    pub changed: Vec<Vec<u8>>,
    pub source: Vec<u8>,
}

/// The mathematical content of a [`MntnerRecord`].
pub struct MntnerRecordView {
    pub mntner: Seq<u8>,
    pub descr: Seq<u8>,
    pub auth: Seq<Seq<u8>>,
    pub upd_to: Seq<Seq<u8>>,
    pub mnt_nfy: Seq<Seq<u8>>,
    pub tech_c: Seq<Seq<u8>>,
    pub admin_c: Seq<Seq<u8>>,
    pub remarks: Seq<Seq<u8>>,
    pub notify: Seq<Seq<u8>>,
    pub mnt_by: Seq<Seq<u8>>,
    pub changed: Seq<Seq<u8>>,
    pub source: Seq<u8>,
}

impl View for MntnerRecord {
    type V = MntnerRecordView;

    open spec fn view(&self) -> MntnerRecordView {
        MntnerRecordView {
            mntner: self.mntner@,
            descr: self.descr@,
            auth: views(self.auth@),
            upd_to: views(self.upd_to@),
            mnt_nfy: views(self.mnt_nfy@),
            tech_c: views(self.tech_c@),
            admin_c: views(self.admin_c@),
            remarks: views(self.remarks@),
            notify: views(self.notify@),
            mnt_by: views(self.mnt_by@),
            changed: views(self.changed@),
            source: self.source@,
        }
    }
}

/// The mntner record that the attributes of a block spell.
pub open spec fn mntner_record(attributes: Seq<AttributeView>) -> MntnerRecordView {
    MntnerRecordView {
        mntner: text_of(attributes, "mntner"@),
        descr: text_of(attributes, "descr"@),
        auth: all_of(attributes, "auth"@),
        upd_to: all_of(attributes, "upd-to"@),
        mnt_nfy: all_of(attributes, "mnt-nfy"@),
        tech_c: all_of(attributes, "tech-c"@),
        admin_c: all_of(attributes, "admin-c"@),
        remarks: all_of(attributes, "remarks"@),
        notify: all_of(attributes, "notify"@),
        mnt_by: all_of(attributes, "mnt-by"@),
        changed: all_of(attributes, "changed"@),
        source: text_of(attributes, "source"@),
    }
}

impl MntnerRecord {
    /// Reads the record of a mntner object from its block.
    pub fn read(entry: &RawEntry) -> (r: MntnerRecord)
        ensures
            r@ == mntner_record(entry@.attributes),
    {
        MntnerRecord {
            mntner: entry.text("mntner"),
            descr: entry.text("descr"),
            auth: entry.values("auth"),
            upd_to: entry.values("upd-to"),
            mnt_nfy: entry.values("mnt-nfy"),
            tech_c: entry.values("tech-c"),
            admin_c: entry.values("admin-c"),
            remarks: entry.values("remarks"),
            notify: entry.values("notify"),
            mnt_by: entry.values("mnt-by"),
            changed: entry.values("changed"),
            source: entry.text("source"),
        }
    }
}

/// A person object.
#[derive(Clone, Debug, PartialEq, Eq)]
pub struct PersonRecord {
    pub person: Vec<u8>,
    pub nic_hdl: Vec<u8>,
    pub address: Vec<Vec<u8>>,
    pub phone: Vec<Vec<u8>>,
    pub fax_no: Vec<Vec<u8>>,
    pub e_mail: Vec<Vec<u8>>,
}

/// The mathematical content of a [`PersonRecord`].
pub struct PersonRecordView {
    pub person: Seq<u8>,
    pub nic_hdl: Seq<u8>,
    pub address: Seq<Seq<u8>>,
    pub phone: Seq<Seq<u8>>,
    pub fax_no: Seq<Seq<u8>>,
    pub e_mail: Seq<Seq<u8>>,
}

impl View for PersonRecord {
    type V = PersonRecordView;

    open spec fn view(&self) -> PersonRecordView {
        PersonRecordView {
            person: self.person@,
            nic_hdl: self.nic_hdl@,
            address: views(self.address@),
            phone: views(self.phone@),
            fax_no: views(self.fax_no@),
            e_mail: views(self.e_mail@),
        }
    }
}

/// The person record that the attributes of a block spell.
pub open spec fn person_record(attributes: Seq<AttributeView>) -> PersonRecordView {
    PersonRecordView {
        person: text_of(attributes, "person"@),
        nic_hdl: text_of(attributes, "nic-hdl"@),
        address: all_of(attributes, "address"@),
        phone: all_of(attributes, "phone"@),
        fax_no: all_of(attributes, "fax-no"@),
        e_mail: all_of(attributes, "e-mail"@),
    }
}

impl PersonRecord {
    /// Reads the record of a person object from its block.
    pub fn read(entry: &RawEntry) -> (r: PersonRecord)
        ensures
            r@ == person_record(entry@.attributes),
    {
        PersonRecord {
            person: entry.text("person"),
            nic_hdl: entry.text("nic-hdl"),
            address: entry.values("address"),
            phone: entry.values("phone"),
            fax_no: entry.values("fax-no"),
            e_mail: entry.values("e-mail"),
        }
    }
}

/// A role object.
#[derive(Clone, Debug, PartialEq, Eq)]
pub struct RoleRecord {
    pub role: Vec<u8>,
    pub nic_hdl: Vec<u8>,
    pub trouble: Vec<Vec<u8>>,
    pub address: Vec<Vec<u8>>,
    pub phone: Vec<Vec<u8>>,
    pub fax_no: Vec<Vec<u8>>,
    pub e_mail: Vec<Vec<u8>>,
}

/// The mathematical content of a [`RoleRecord`].
pub struct RoleRecordView {
    pub role: Seq<u8>,
    pub nic_hdl: Seq<u8>,
    pub trouble: Seq<Seq<u8>>,
    pub address: Seq<Seq<u8>>,
    pub phone: Seq<Seq<u8>>,
    pub fax_no: Seq<Seq<u8>>,
    pub e_mail: Seq<Seq<u8>>,
}

impl View for RoleRecord {
    type V = RoleRecordView;

    open spec fn view(&self) -> RoleRecordView {
        RoleRecordView {
            role: self.role@,
            nic_hdl: self.nic_hdl@,
            trouble: views(self.trouble@),
            address: views(self.address@),
            phone: views(self.phone@),
            fax_no: views(self.fax_no@),
            e_mail: views(self.e_mail@),
        }
    }
}

/// The role record that the attributes of a block spell.
pub open spec fn role_record(attributes: Seq<AttributeView>) -> RoleRecordView {
    RoleRecordView {
        role: text_of(attributes, "role"@),
        nic_hdl: text_of(attributes, "nic-hdl"@),
        trouble: all_of(attributes, "trouble"@),
        address: all_of(attributes, "address"@),
        phone: all_of(attributes, "phone"@),
        fax_no: all_of(attributes, "fax-no"@),
        e_mail: all_of(attributes, "e-mail"@),
    }
}

impl RoleRecord {
    /// Reads the record of a role object from its block.
    pub fn read(entry: &RawEntry) -> (r: RoleRecord)
        ensures
            r@ == role_record(entry@.attributes),
    {
        RoleRecord {
            role: entry.text("role"),
            nic_hdl: entry.text("nic-hdl"),
            trouble: entry.values("trouble"),
            address: entry.values("address"),
            phone: entry.values("phone"),
            fax_no: entry.values("fax-no"),
            e_mail: entry.values("e-mail"),
        }
    }
}

/// A route object.
#[derive(Clone, Debug, PartialEq, Eq)]
pub struct RouteRecord {
    pub route: Vec<u8>,
    pub origin: Vec<u8>,
    pub member_of: Vec<Vec<u8>>,
    pub inject: Vec<Vec<u8>>,
    pub components: Option<Vec<u8>>,
    pub aggr_bndry: Option<Vec<u8>>,
    pub aggr_mtd: Option<Vec<u8>>,
    pub export_comps: Option<Vec<u8>>,
    pub holes: Vec<Vec<u8>>,
}

/// The mathematical content of a [`RouteRecord`].
pub struct RouteRecordView {
    pub route: Seq<u8>,
    pub origin: Seq<u8>,
    pub member_of: Seq<Seq<u8>>,
    pub inject: Seq<Seq<u8>>,
    pub components: Option<Seq<u8>>,
    pub aggr_bndry: Option<Seq<u8>>,
    pub aggr_mtd: Option<Seq<u8>>,
    pub export_comps: Option<Seq<u8>>,
    pub holes: Seq<Seq<u8>>,
}

impl View for RouteRecord {
    type V = RouteRecordView;

    open spec fn view(&self) -> RouteRecordView {
        RouteRecordView {
            route: self.route@,
            origin: self.origin@,
            member_of: views(self.member_of@),
            inject: views(self.inject@),
            components: optional_text(self.components),
            aggr_bndry: optional_text(self.aggr_bndry),
            aggr_mtd: optional_text(self.aggr_mtd),
            export_comps: optional_text(self.export_comps),
            holes: views(self.holes@),
        }
    }
}

/// The route record that the attributes of a block spell.
pub open spec fn route_record(attributes: Seq<AttributeView>) -> RouteRecordView {
    RouteRecordView {
        route: text_of(attributes, "route"@),
        origin: text_of(attributes, "origin"@),
        member_of: all_of(attributes, "member-of"@),
        inject: all_of(attributes, "inject"@),
        components: one_of(attributes, "components"@),
        aggr_bndry: one_of(attributes, "aggr-bndry"@),
        aggr_mtd: one_of(attributes, "aggr-mtd"@),
        export_comps: one_of(attributes, "export-comps"@),
        holes: all_of(attributes, "holes"@),
    }
}

impl RouteRecord {
    /// Reads the record of a route object from its block.
    pub fn read(entry: &RawEntry) -> (r: RouteRecord)
        ensures
            r@ == route_record(entry@.attributes),
    {
        RouteRecord {
            route: entry.text("route"),
            origin: entry.text("origin"),
            member_of: entry.values("member-of"),
            inject: entry.values("inject"),
            components: entry.first("components"),
            aggr_bndry: entry.first("aggr-bndry"),
            aggr_mtd: entry.first("aggr-mtd"),
            export_comps: entry.first("export-comps"),
            holes: entry.values("holes"),
        }
    }
}

/// A typed record, one shape for each known class.
#[derive(Clone, Debug, PartialEq, Eq)]
pub enum ParsedRecord {
    Inetnum(RangeRecord),
    Inet6num(RangeRecord),
    Mntner(MntnerRecord),
    Role(RoleRecord),
    Person(PersonRecord),
    Route(RouteRecord),
}

/// The mathematical content of a [`ParsedRecord`].
pub enum ParsedRecordView {
    Inetnum(RangeRecordView),
    Inet6num(RangeRecordView),
    Mntner(MntnerRecordView),
    Role(RoleRecordView),
    Person(PersonRecordView),
    Route(RouteRecordView),
}

impl View for ParsedRecord {
    type V = ParsedRecordView;

    open spec fn view(&self) -> ParsedRecordView {
        match self {
            ParsedRecord::Inetnum(r) => ParsedRecordView::Inetnum(r@),
            ParsedRecord::Inet6num(r) => ParsedRecordView::Inet6num(r@),
            ParsedRecord::Mntner(r) => ParsedRecordView::Mntner(r@),
            ParsedRecord::Role(r) => ParsedRecordView::Role(r@),
            ParsedRecord::Person(r) => ParsedRecordView::Person(r@),
            ParsedRecord::Route(r) => ParsedRecordView::Route(r@),
        }
    }
}

impl ParsedRecordView {
    /// The class of the record.
    pub open spec fn class(self) -> ObjectClass {
        match self {
            ParsedRecordView::Inetnum(_) => ObjectClass::Inetnum,
            ParsedRecordView::Inet6num(_) => ObjectClass::Inet6num,
            ParsedRecordView::Mntner(_) => ObjectClass::Mntner,
            ParsedRecordView::Role(_) => ObjectClass::Role,
            ParsedRecordView::Person(_) => ObjectClass::Person,
            ParsedRecordView::Route(_) => ObjectClass::Route,
        }
    }
}

impl ParsedRecord {
    /// The class of the record.
    pub fn class(&self) -> (c: ObjectClass)
        ensures
            c == self@.class(),
            c != ObjectClass::Unknown,
    {
        match self {
            ParsedRecord::Inetnum(_) => ObjectClass::Inetnum,
            ParsedRecord::Inet6num(_) => ObjectClass::Inet6num,
            ParsedRecord::Mntner(_) => ObjectClass::Mntner,
            ParsedRecord::Role(_) => ObjectClass::Role,
            ParsedRecord::Person(_) => ObjectClass::Person,
            ParsedRecord::Route(_) => ObjectClass::Route,
        }
    }
}

/// The contents of a vector of records.
pub open spec fn record_views(v: Seq<ParsedRecord>) -> Seq<ParsedRecordView> {
    Seq::new(v.len(), |i: int| v[i]@)
}

/// What parsing makes of a block: a record or an error, never nothing.
#[derive(Clone, Debug, PartialEq, Eq)]
pub enum ParseOutcome {
    Record(ParsedRecord),
    Error(ParseError),
}

/// The mathematical content of a [`ParseOutcome`].
pub enum ParseOutcomeView {
    Record(ParsedRecordView),
    Error(ParseErrorView),
}

impl View for ParseOutcome {
    type V = ParseOutcomeView;

    open spec fn view(&self) -> ParseOutcomeView {
        match self {
            ParseOutcome::Record(r) => ParseOutcomeView::Record(r@),
            ParseOutcome::Error(e) => ParseOutcomeView::Error(e@),
        }
    }
}

/// The contents of a vector of outcomes.
pub open spec fn outcome_views(v: Seq<ParseOutcome>) -> Seq<ParseOutcomeView> {
    Seq::new(v.len(), |i: int| v[i]@)
}

} // verus!
