//! How the reference table is queried: by key and point in time.

use crate::clublog::{
    Adif, CallsignException, CqZone, Entity, InvalidOperation, Prefix, Timestamp, ZoneException,
};
use vstd::prelude::*;

verus! {

/// Whether `t` lies in the window from `start` to `end`, both ends included; a
/// missing end leaves the window open on that side.
pub open spec fn in_window(t: Timestamp, start: Option<Timestamp>, end: Option<Timestamp>) -> bool {
    &&& (start matches Some(s) ==> s.nanos <= t.nanos)
    &&& (end matches Some(e) ==> t.nanos <= e.nanos)
}

/// The first element of `s` that `pred` holds of.
pub open spec fn first_match<R>(s: Seq<R>, pred: spec_fn(R) -> bool) -> Option<R>
    decreases s.len(),
{
    if s.len() == 0 {
        None
    } else if pred(s[0]) {
        Some(s[0])
    } else {
        first_match(s.drop_first(), pred)
    }
}

/// The value a reference refers to, if any.
pub open spec fn deref_opt<R>(o: Option<&R>) -> Option<R> {
    match o {
        Some(r) => Some(*r),
        None => None,
    }
}

/// Past a stretch of elements that `pred` does not hold of, the first match is found
/// in the rest; it is the element at `i` where `pred` holds there.
pub proof fn lemma_first_match_skip<R>(s: Seq<R>, pred: spec_fn(R) -> bool, i: int)
    requires
        0 <= i <= s.len(),
        forall|j: int| 0 <= j < i ==> !pred(#[trigger] s[j]),
    ensures
        first_match(s, pred) == first_match(s.subrange(i, s.len() as int), pred),
        i < s.len() && pred(s[i]) ==> first_match(s, pred) == Some(s[i]),
        i == s.len() ==> first_match(s, pred) is None,
    decreases i,
{
    if i > 0 {
        assert(!pred(s[0]));
        let t = s.drop_first();
        assert forall|j: int| 0 <= j < i - 1 implies !pred(#[trigger] t[j]) by {
            assert(t[j] == s[j + 1]);
        }
        lemma_first_match_skip(t, pred, i - 1);
        assert(t.subrange(i - 1, t.len() as int) =~= s.subrange(i, s.len() as int));
    } else {
        assert(s.subrange(0, s.len() as int) =~= s);
    }
    if i == s.len() {
        assert(s.subrange(i, s.len() as int) =~= Seq::<R>::empty());
    }
}

/// A record that one exact string keys (a prefix or a callsign), valid in a window
/// of time.
pub trait KeyedRecord {
    /// The key.
    spec fn key_chars(&self) -> Seq<char>;

    /// Start of validity.
    spec fn valid_from(&self) -> Option<Timestamp>;

    /// End of validity.
    spec fn valid_until(&self) -> Option<Timestamp>;

    fn key(&self) -> (r: &str)
        ensures
            r@ == self.key_chars(),
    ;

    fn window_start(&self) -> (r: Option<Timestamp>)
        ensures
            r == self.valid_from(),
    ;

    fn window_end(&self) -> (r: Option<Timestamp>)
        ensures
            r == self.valid_until(),
    ;
}

/// The record is for exactly `key` and valid at `t`.
pub open spec fn keyed_pred<R: KeyedRecord>(key: Seq<char>, t: Timestamp) -> spec_fn(R) -> bool {
    |r: R| r.key_chars() == key && in_window(t, r.valid_from(), r.valid_until())
}

/// The mathematical content of a reference table: its five lists of records, each
/// in the order the records were read.
pub struct TableModel {
    pub entities: Seq<Entity>,
    pub prefixes: Seq<Prefix>,
    pub exceptions: Seq<CallsignException>,
    pub invalid_operations: Seq<InvalidOperation>,
    pub zone_exceptions: Seq<ZoneException>,
}

impl TableModel {
    pub open spec fn entity_pred(adif: Adif, t: Timestamp) -> spec_fn(Entity) -> bool {
        |e: Entity| e.adif == adif && in_window(t, e.start, e.end)
    }

    /// The first entity with ADIF identifier `adif` that is valid at `t`.
    pub open spec fn entity(self, adif: Adif, t: Timestamp) -> Option<Entity> {
        first_match(self.entities, Self::entity_pred(adif, t))
    }

    /// The first prefix record for exactly `key` that is valid at `t`.
    pub open spec fn prefix(self, key: Seq<char>, t: Timestamp) -> Option<Prefix> {
        first_match(self.prefixes, keyed_pred(key, t))
    }

    /// The first callsign exception for exactly `key` that is valid at `t`.
    pub open spec fn callsign_exception(self, key: Seq<char>, t: Timestamp) -> Option<
        CallsignException,
    > {
        first_match(self.exceptions, keyed_pred(key, t))
    }

    /// The zone of the first CQ zone exception for exactly `key` that is valid at `t`.
    pub open spec fn zone_exception(self, key: Seq<char>, t: Timestamp) -> Option<CqZone> {
        match first_match(self.zone_exceptions, keyed_pred(key, t)) {
            Some(z) => Some(z.zone),
            None => None,
        }
    }

    /// Whether an invalid operation for exactly `key` is recorded at `t`.
    pub open spec fn is_invalid_operation(self, key: Seq<char>, t: Timestamp) -> bool {
        first_match(self.invalid_operations, keyed_pred(key, t)) is Some
    }
}

/// Access to the reference table by key and point in time. Where several records
/// share a key, the first one in the table's order that is valid at the point in
/// time is the answer.
pub trait ClubLogQuery {
    /// The records of the table.
    spec fn model(&self) -> TableModel;

    /// The internal consistency of the implementation.
    spec fn well_formed(&self) -> bool;

    /// Entity by ADIF identifier.
    fn get_entity(&self, adif: Adif, timestamp: &Timestamp) -> (r: Option<&Entity>)
        requires
            self.well_formed(),
        ensures
            deref_opt(r) == self.model().entity(adif, *timestamp),
    ;

    /// Prefix record by prefix, like `DL`.
    fn get_prefix(&self, prefix: &str, timestamp: &Timestamp) -> (r: Option<&Prefix>)
        requires
            self.well_formed(),
        ensures
            deref_opt(r) == self.model().prefix(prefix@, *timestamp),
    ;

    /// Callsign exception by complete callsign.
    fn get_callsign_exception(&self, callsign: &str, timestamp: &Timestamp) -> (r: Option<
        &CallsignException,
    >)
        requires
            self.well_formed(),
        ensures
            deref_opt(r) == self.model().callsign_exception(callsign@, *timestamp),
    ;

    /// CQ zone of a zone exception by complete callsign.
    fn get_zone_exception(&self, callsign: &str, timestamp: &Timestamp) -> (r: Option<CqZone>)
        requires
            self.well_formed(),
        ensures
            r == self.model().zone_exception(callsign@, *timestamp),
    ;

    /// Whether the complete callsign was used in an invalid operation.
    fn is_invalid_operation(&self, callsign: &str, timestamp: &Timestamp) -> (r: bool)
        requires
            self.well_formed(),
        ensures
            r == self.model().is_invalid_operation(callsign@, *timestamp),
    ;
}

/// Whether `timestamp` lies in the window from `start` to `end`, both ends
/// included; a missing end leaves the window open on that side.
pub fn is_in_time_window(
    timestamp: &Timestamp,
    start: Option<Timestamp>,
    end: Option<Timestamp>,
) -> (r: bool)
    ensures
        r == in_window(*timestamp, start, end),
{
    match (start, end) {
        (Some(tstart), Some(tend)) => timestamp.nanos >= tstart.nanos && timestamp.nanos <= tend.nanos,
        (Some(tstart), None) => timestamp.nanos >= tstart.nanos,
        (None, Some(tend)) => timestamp.nanos <= tend.nanos,
        (None, None) => true,
    }
}

} // verus!
