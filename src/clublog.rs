//! The reference table of entities, prefixes and exceptions, kept as lists in the
//! order the records were read, and queried by scanning those lists.

use crate::clublogquery::{
    deref_opt, first_match, keyed_pred, lemma_first_match_skip, ClubLogQuery, KeyedRecord,
    TableModel,
};
use crate::text::str_eq;
use vstd::prelude::*;

pub use crate::clublogquery::is_in_time_window;

verus! {

/// ADIF DXCC identifier
pub type Adif = u16;

/// CQ zone
pub type CqZone = u8;

/// Record identifier
pub type RecordId = u16;

/// Longitude or latitude in millionths of a degree
pub type MicroDegrees = i32;

/// Entity name of a callsign exception whose callsign is invalid
pub const CALLSIGN_EXCEPTION_INVALID: &'static str = "INVALID";

/// Entity name of a record that stands for maritime mobile operation
pub const CALLSIGN_EXCEPTION_MARITIME_MOBILE: &'static str = "MARITIME MOBILE";

/// Entity name of a record that stands for aeronautical mobile operation
pub const CALLSIGN_EXCEPTION_AERONAUTICAL_MOBILE: &'static str = "AERONAUTICAL MOBILE";

/// Entity name of a record that stands for satellite, internet or repeater operation
pub const CALLSIGN_EXCEPTION_SATELLITE: &'static str = "SATELLITE, INTERNET OR REPEATER";

/// ADIF identifier that stands for no DXCC entity
pub const ADIF_ID_NO_DXCC: Adif = 0;

/// A point in time, in nanoseconds since 1970-01-01T00:00:00Z.
#[derive(Clone, Copy, Debug, PartialEq, Eq, Structural)]
pub struct Timestamp {
    pub nanos: i64,
}

impl Timestamp {
    /// The point in time `nanos` nanoseconds after 1970-01-01T00:00:00Z.
    pub fn from_unix_nanos(nanos: i64) -> (r: Timestamp)
        ensures
            r.nanos == nanos,
    {
        Timestamp { nanos }
    }

    /// Nanoseconds since 1970-01-01T00:00:00Z.
    pub fn unix_nanos(&self) -> (r: i64)
        ensures
            r == self.nanos,
    {
        self.nanos
    }
}

/// Error of reading the reference table
#[derive(Debug)]
pub struct Error;

/// The reference table: entities, callsign exceptions, prefixes, invalid operations
/// and CQ zone exceptions, each list in the order its records were read.
#[derive(Debug, Clone)]
pub struct ClubLog {
    /// Timestamp of the data
    pub date: Timestamp,
    /// List of entities
    pub entities: Entities,
    /// List of callsign exceptions
    pub exceptions: CallsignExceptions,
    /// List of prefixes
    pub prefixes: Prefixes,
    /// List of invalid operations
    pub invalid_operations: InvalidOperations,
    /// List of CQ zone exceptions
    pub zone_exceptions: ZoneExceptions,
}

/// List of entities / DXCCs
#[derive(Debug, Clone)]
pub struct Entities {
    pub list: Vec<Entity>,
}

/// Single entity / DXCC.
///
/// If `whitelist` is `Some(true)`, only approved callsigns count for the entity,
/// between `whitelist_start` and `whitelist_end` where those are given. The approved
/// callsigns are those of the callsign exception list.
#[derive(Debug, Clone)]
pub struct Entity {
    /// ADIF identifier
    pub adif: Adif,
    /// Name
    pub name: String,
    /// Main callsign prefix
    pub prefix: String,
    /// Entity deleted/invalid
    pub deleted: bool,
    /// CQ zone
    pub cqz: Option<CqZone>,
    /// Continent
    pub cont: Option<String>,
    /// Longitude
    pub long: Option<MicroDegrees>,
    /// Latitude
    pub lat: Option<MicroDegrees>,
    /// Start of validity
    pub start: Option<Timestamp>,
    /// End of validity
    pub end: Option<Timestamp>,
    /// True if only whitelisted callsigns are valid for this entity
    pub whitelist: Option<bool>,
    /// Point in time from which the whitelist applies
    pub whitelist_start: Option<Timestamp>,
    /// Point in time after which the whitelist no longer applies
    pub whitelist_end: Option<Timestamp>,
}

/// List of callsign exceptions
#[derive(Debug, Clone)]
pub struct CallsignExceptions {
    pub list: Vec<CallsignException>,
}

/// Callsign exception: entity, zone and location of one exact callsign, which
/// override what its prefix would give.
#[derive(Debug, Clone)]
pub struct CallsignException {
    /// Identifier
    pub record: RecordId,
    /// Callsign
    pub call: String,
    /// Name of entity
    pub entity: String,
    /// ADIF identifier
    pub adif: Adif,
    /// CQ zone
    pub cqz: Option<CqZone>,
    /// Continent
    pub cont: Option<String>,
    /// Longitude
    pub long: Option<MicroDegrees>,
    /// Latitude
    pub lat: Option<MicroDegrees>,
    /// Start of validity
    pub start: Option<Timestamp>,
    /// End of validity
    pub end: Option<Timestamp>,
}

/// List of callsign prefixes
#[derive(Debug, Clone)]
pub struct Prefixes {
    pub list: Vec<Prefix>,
}

/// Callsign prefix. Besides plain prefixes like `DL` there are compound ones like
/// `SV/A`.
#[derive(Debug, Clone)]
pub struct Prefix {
    /// Identifier
    pub record: RecordId,
    /// Prefix
    pub call: String,
    /// Name of entity
    pub entity: String,
    /// ADIF identifier
    pub adif: Adif,
    /// CQ zone
    pub cqz: Option<CqZone>,
    /// Continent
    pub cont: Option<String>,
    /// Longitude
    pub long: Option<MicroDegrees>,
    /// Latitude
    pub lat: Option<MicroDegrees>,
    /// Start of validity
    pub start: Option<Timestamp>,
    /// End of validity
    pub end: Option<Timestamp>,
}

/// List of invalid operations
#[derive(Debug, Clone)]
pub struct InvalidOperations {
    pub list: Vec<InvalidOperation>,
}

/// Invalid operation: one exact callsign that is not valid in a time window.
#[derive(Debug, Clone)]
pub struct InvalidOperation {
    /// Identifier
    pub record: RecordId,
    /// Callsign
    pub call: String,
    /// Start of the operation
    pub start: Option<Timestamp>,
    /// End of the operation
    pub end: Option<Timestamp>,
}

/// List of CQ zone exceptions
#[derive(Debug, Clone)]
pub struct ZoneExceptions {
    pub list: Vec<ZoneException>,
}

/// CQ zone exception: one exact callsign whose CQ zone differs from its entity's.
#[derive(Debug, Clone)]
pub struct ZoneException {
    /// Identifier
    pub record: RecordId,
    /// Callsign
    pub call: String,
    /// CQ zone
    pub zone: CqZone,
    /// Start of the exception
    pub start: Option<Timestamp>,
    /// End of the exception
    pub end: Option<Timestamp>,
}

impl KeyedRecord for Prefix {
    open spec fn key_chars(&self) -> Seq<char> {
        self.call@
    }

    open spec fn valid_from(&self) -> Option<Timestamp> {
        self.start
    }

    open spec fn valid_until(&self) -> Option<Timestamp> {
        self.end
    }

    fn key(&self) -> (r: &str) {
        self.call.as_str()
    }

    fn window_start(&self) -> (r: Option<Timestamp>) {
        self.start
    }

    fn window_end(&self) -> (r: Option<Timestamp>) {
        self.end
    }
}

impl KeyedRecord for CallsignException {
    open spec fn key_chars(&self) -> Seq<char> {
        self.call@
    }

    open spec fn valid_from(&self) -> Option<Timestamp> {
        self.start
    }

    open spec fn valid_until(&self) -> Option<Timestamp> {
        self.end
    }

    fn key(&self) -> (r: &str) {
        self.call.as_str()
    }

    fn window_start(&self) -> (r: Option<Timestamp>) {
        self.start
    }

    fn window_end(&self) -> (r: Option<Timestamp>) {
        self.end
    }
}

impl KeyedRecord for InvalidOperation {
    open spec fn key_chars(&self) -> Seq<char> {
        self.call@
    }

    open spec fn valid_from(&self) -> Option<Timestamp> {
        self.start
    }

    open spec fn valid_until(&self) -> Option<Timestamp> {
        self.end
    }

    fn key(&self) -> (r: &str) {
        self.call.as_str()
    }

    fn window_start(&self) -> (r: Option<Timestamp>) {
        self.start
    }

    fn window_end(&self) -> (r: Option<Timestamp>) {
        self.end
    }
}

impl KeyedRecord for ZoneException {
    open spec fn key_chars(&self) -> Seq<char> {
        self.call@
    }

    open spec fn valid_from(&self) -> Option<Timestamp> {
        self.start
    }

    open spec fn valid_until(&self) -> Option<Timestamp> {
        self.end
    }

    fn key(&self) -> (r: &str) {
        self.call.as_str()
    }

    fn window_start(&self) -> (r: Option<Timestamp>) {
        self.start
    }

    fn window_end(&self) -> (r: Option<Timestamp>) {
        self.end
    }
}

/// The first record of `list` for exactly `key` that is valid at `timestamp`.
fn scan_first<'a, R: KeyedRecord>(list: &'a Vec<R>, key: &str, timestamp: &Timestamp) -> (r:
    Option<&'a R>)
    ensures
        deref_opt(r) == first_match(list@, keyed_pred::<R>(key@, *timestamp)),
{
    let ghost pred = keyed_pred::<R>(key@, *timestamp);
    let mut i: usize = 0;
    while i < list.len()
        invariant
            pred == keyed_pred::<R>(key@, *timestamp),
            i <= list@.len(),
            forall|j: int| 0 <= j < i ==> !pred(#[trigger] list@[j]),
        decreases list.len() - i,
    {
        let rec = &list[i];
        if str_eq(rec.key(), key) && is_in_time_window(
            timestamp,
            rec.window_start(),
            rec.window_end(),
        ) {
            proof {
                lemma_first_match_skip(list@, pred, i as int);
            }
            return Some(rec);
        }
        i = i + 1;
    }
    proof {
        lemma_first_match_skip(list@, pred, i as int);
    }
    None
}

impl ClubLogQuery for ClubLog {
    open spec fn model(&self) -> TableModel {
        TableModel {
            entities: self.entities.list@,
            prefixes: self.prefixes.list@,
            exceptions: self.exceptions.list@,
            invalid_operations: self.invalid_operations.list@,
            zone_exceptions: self.zone_exceptions.list@,
        }
    }

    open spec fn well_formed(&self) -> bool {
        true
    }

    fn get_entity(&self, adif: Adif, timestamp: &Timestamp) -> (r: Option<&Entity>) {
        let list = &self.entities.list;
        let ghost pred = TableModel::entity_pred(adif, *timestamp);
        let mut i: usize = 0;
        while i < list.len()
            invariant
                pred == TableModel::entity_pred(adif, *timestamp),
                list@ == self.model().entities,
                i <= list@.len(),
                forall|j: int| 0 <= j < i ==> !pred(#[trigger] list@[j]),
            decreases list.len() - i,
        {
            let e = &list[i];
            if e.adif == adif && is_in_time_window(timestamp, e.start, e.end) {
                proof {
                    lemma_first_match_skip(list@, pred, i as int);
                }
                return Some(e);
            }
            i = i + 1;
        }
        proof {
            lemma_first_match_skip(list@, pred, i as int);
        }
        None
    }

    fn get_prefix(&self, prefix: &str, timestamp: &Timestamp) -> (r: Option<&Prefix>) {
        scan_first(&self.prefixes.list, prefix, timestamp)
    }

    fn get_callsign_exception(&self, callsign: &str, timestamp: &Timestamp) -> (r: Option<
        &CallsignException,
    >) {
        scan_first(&self.exceptions.list, callsign, timestamp)
    }

    fn get_zone_exception(&self, callsign: &str, timestamp: &Timestamp) -> (r: Option<CqZone>) {
        match scan_first(&self.zone_exceptions.list, callsign, timestamp) {
            Some(z) => Some(z.zone),
            None => None,
        }
    }

    fn is_invalid_operation(&self, callsign: &str, timestamp: &Timestamp) -> (r: bool) {
        scan_first(&self.invalid_operations.list, callsign, timestamp).is_some()
    }
}

} // verus!
