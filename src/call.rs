//! Analysis of a callsign against the reference table: its entity, CQ zone,
//! continent and location at a given point in time.

use crate::clublog::{
    Adif, CallsignException, CqZone, MicroDegrees, Prefix, Timestamp, ADIF_ID_NO_DXCC,
    CALLSIGN_EXCEPTION_MARITIME_MOBILE,
};
use crate::clublogquery::{deref_opt, ClubLogQuery, TableModel};
use crate::text::{
    check_basic_format, contains_slash, has_basic_format, is_ascii_letter, is_call_char, is_digit,
    lemma_split_slash_nonempty, split_call, split_slash, str_eq, views_of,
};
use vstd::prelude::*;

verus! {

// ---------------------------------------------------------------------------
// Result and error types
// ---------------------------------------------------------------------------

/// A callsign together with what the reference table says of it.
#[derive(Debug)]
pub struct Callsign {
    /// Complete callsign
    pub call: String,
    /// ADIF DXCC identifier
    pub adif: Adif,
    /// Name of entity
    pub dxcc: Option<String>,
    /// CQ zone
    pub cqzone: Option<CqZone>,
    /// Continent
    pub continent: Option<String>,
    /// Longitude
    pub longitude: Option<MicroDegrees>,
    /// Latitude
    pub latitude: Option<MicroDegrees>,
}

/// The value of a `Callsign`.
pub struct CallsignView {
    pub call: Seq<char>,
    pub adif: Adif,
    pub dxcc: Option<Seq<char>>,
    pub cqzone: Option<CqZone>,
    pub continent: Option<Seq<char>>,
    pub longitude: Option<MicroDegrees>,
    pub latitude: Option<MicroDegrees>,
}

/// The characters of an optional string.
pub open spec fn opt_chars(o: Option<String>) -> Option<Seq<char>> {
    match o {
        Some(s) => Some(s@),
        None => None,
    }
}

impl View for Callsign {
    type V = CallsignView;

    open spec fn view(&self) -> CallsignView {
        CallsignView {
            call: self.call@,
            adif: self.adif,
            dxcc: opt_chars(self.dxcc),
            cqzone: self.cqzone,
            continent: opt_chars(self.continent),
            longitude: self.longitude,
            latitude: self.latitude,
        }
    }
}

fn opt_string_eq(a: &Option<String>, b: &Option<String>) -> (r: bool)
    ensures
        r == (opt_chars(*a) == opt_chars(*b)),
{
    match (a, b) {
        (Some(x), Some(y)) => str_eq(x.as_str(), y.as_str()),
        (None, None) => true,
        _ => false,
    }
}

impl PartialEq for Callsign {
    fn eq(&self, other: &Callsign) -> (r: bool) {
        self.call == other.call && self.adif == other.adif && opt_string_eq(&self.dxcc, &other.dxcc)
            && self.cqzone == other.cqzone && opt_string_eq(&self.continent, &other.continent)
            && self.longitude == other.longitude && self.latitude == other.latitude
    }
}

impl vstd::std_specs::cmp::PartialEqSpecImpl for Callsign {
    open spec fn obeys_eq_spec() -> bool {
        true
    }

    open spec fn eq_spec(&self, other: &Callsign) -> bool {
        self@ == other@
    }
}

/// The result of a callsign that belongs to no DXCC entity (like `/AM`, `/MM`, `/SAT`).
pub open spec fn no_dxcc_view(call: Seq<char>) -> CallsignView {
    CallsignView {
        call,
        adif: ADIF_ID_NO_DXCC,
        dxcc: None,
        cqzone: None,
        continent: None,
        longitude: None,
        latitude: None,
    }
}

/// The result of a callsign taken from a prefix record.
pub open spec fn prefix_view(call: Seq<char>, p: Prefix) -> CallsignView {
    CallsignView {
        call,
        adif: p.adif,
        dxcc: Some(p.entity@),
        cqzone: p.cqz,
        continent: opt_chars(p.cont),
        longitude: p.long,
        latitude: p.lat,
    }
}

/// The result of a callsign taken from a callsign exception.
pub open spec fn exception_view(call: Seq<char>, e: CallsignException) -> CallsignView {
    CallsignView {
        call,
        adif: e.adif,
        dxcc: Some(e.entity@),
        cqzone: e.cqz,
        continent: opt_chars(e.cont),
        longitude: e.long,
        latitude: e.lat,
    }
}

impl Callsign {
    /// Whether the callsign belongs to no DXCC entity (like for `/AM`, `/MM` or `/SAT`).
    pub fn is_special_entity(&self) -> (r: bool)
        ensures
            r == (self.adif == ADIF_ID_NO_DXCC),
    {
        self.adif == ADIF_ID_NO_DXCC
    }

    /// A maritime mobile callsign.
    fn new_maritime_mobile(call: &str) -> (r: Callsign)
        ensures
            r@ == no_dxcc_view(call@),
    {
        Callsign {
            call: String::from_str(call),
            adif: ADIF_ID_NO_DXCC,
            dxcc: None,
            cqzone: None,
            continent: None,
            longitude: None,
            latitude: None,
        }
    }

    /// An aeronautical mobile callsign.
    fn new_aeronautical_mobile(call: &str) -> (r: Callsign)
        ensures
            r@ == no_dxcc_view(call@),
    {
        Callsign {
            call: String::from_str(call),
            adif: ADIF_ID_NO_DXCC,
            dxcc: None,
            cqzone: None,
            continent: None,
            longitude: None,
            latitude: None,
        }
    }

    /// A satellite, internet or repeater callsign.
    fn new_satellite(call: &str) -> (r: Callsign)
        ensures
            r@ == no_dxcc_view(call@),
    {
        Callsign {
            call: String::from_str(call),
            adif: ADIF_ID_NO_DXCC,
            dxcc: None,
            cqzone: None,
            continent: None,
            longitude: None,
            latitude: None,
        }
    }

    /// A callsign with the information of a prefix record.
    fn from_prefix(call: &str, prefix: &Prefix) -> (r: Callsign)
        ensures
            r@ == prefix_view(call@, *prefix),
    {
        Callsign {
            call: String::from_str(call),
            adif: prefix.adif,
            dxcc: Some(prefix.entity.clone()),
            cqzone: prefix.cqz,
            continent: prefix.cont.clone(),
            longitude: prefix.long,
            latitude: prefix.lat,
        }
    }

    /// A callsign with the information of a callsign exception.
    fn from_exception(call: &str, exc: &CallsignException) -> (r: Callsign)
        ensures
            r@ == exception_view(call@, *exc),
    {
        Callsign {
            call: String::from_str(call),
            adif: exc.adif,
            dxcc: Some(exc.entity.clone()),
            cqzone: exc.cqz,
            continent: exc.cont.clone(),
            longitude: exc.long,
            latitude: exc.lat,
        }
    }
}

/// Reasons for which a callsign is rejected.
#[derive(Debug, Clone, Copy, PartialEq, Eq, Structural)]
pub enum CallsignError {
    /// Callsign is of invalid format or includes invalid characters
    BasicFormat,
    /// Callsign was used in an invalid operation
    InvalidOperation,
    /// Callsign does not begin with a valid prefix
    BeginWithoutPrefix,
    /// More than two parts of the callsign are prefixes
    ThirdPrefix,
    /// More than one appendix is a single digit
    MultipleSingleDigitAppendices,
    /// More than one appendix is `/AM`, `/MM` or `/SAT`
    MultipleSpecialAppendices,
}

impl CallsignError {
    /// A sentence that describes the error.
    pub fn message(&self) -> (r: &'static str)
        ensures
            *self == CallsignError::BasicFormat ==> r@
                == "Callsign is of invalid format or includes invalid characters"@,
            *self == CallsignError::InvalidOperation ==> r@
                == "Callsign was used in an invalid operation"@,
            *self == CallsignError::BeginWithoutPrefix ==> r@
                == "Callsign does not begin with a valid prefix"@,
            *self == CallsignError::ThirdPrefix ==> r@ == "Too many prefixes"@,
            *self == CallsignError::MultipleSingleDigitAppendices ==> r@
                == "Multiple single digit appendices"@,
            *self == CallsignError::MultipleSpecialAppendices ==> r@
                == "Multiple special appendices"@,
    {
        match self {
            CallsignError::BasicFormat => "Callsign is of invalid format or includes invalid characters",
            CallsignError::InvalidOperation => "Callsign was used in an invalid operation",
            CallsignError::BeginWithoutPrefix => "Callsign does not begin with a valid prefix",
            CallsignError::ThirdPrefix => "Too many prefixes",
            CallsignError::MultipleSingleDigitAppendices => "Multiple single digit appendices",
            CallsignError::MultipleSpecialAppendices => "Multiple special appendices",
        }
    }
}

// ---------------------------------------------------------------------------
// Prefix resolution
// ---------------------------------------------------------------------------

/// An appendix of one letter, which may complete a compound prefix like `SV/A`.
/// Letters are the ASCII ones of either case; a callsign that passes the basic
/// format check holds upper-case ones only.
pub open spec fn is_single_letter(a: Seq<char>) -> bool {
    a.len() == 1 && is_ascii_letter(a[0])
}

/// An appendix of one digit, which may stand for a different call area.
pub open spec fn is_single_digit(a: Seq<char>) -> bool {
    a.len() == 1 && is_digit(a[0])
}

/// The key of the compound prefix made of `base` and `appendix`.
pub open spec fn compound_key(base: Seq<char>, appendix: Seq<char>) -> Seq<char> {
    base + seq!['/'] + appendix
}

/// The first compound prefix `base/a` valid at `t`, over the appendices `a` in order.
pub open spec fn compound_match(q: TableModel, base: Seq<char>, letters: Seq<Seq<char>>, t: Timestamp) -> Option<Prefix>
    decreases letters.len(),
{
    if letters.len() == 0 {
        None
    } else {
        match q.prefix(compound_key(base, letters[0]), t) {
            Some(p) => Some(p),
            None => compound_match(q, base, letters.drop_first(), t),
        }
    }
}

/// Prefix search on the first `len` characters of `cand`, then on shorter and shorter
/// beginnings of it: at each length a compound prefix with one of `letters` comes
/// before the plain one. The number is how many characters of `cand` were left off.
pub open spec fn resolve_from(
    q: TableModel,
    cand: Seq<char>,
    len: nat,
    letters: Seq<Seq<char>>,
    t: Timestamp,
) -> Option<(Prefix, nat)>
    decreases len,
{
    if len == 0 {
        None
    } else {
        let base = cand.take(len as int);
        match compound_match(q, base, letters, t) {
            Some(p) => Some((p, (cand.len() - len) as nat)),
            None => match q.prefix(base, t) {
                Some(p) => Some((p, (cand.len() - len) as nat)),
                None => resolve_from(q, cand, (len - 1) as nat, letters, t),
            },
        }
    }
}

/// The most specific prefix record that matches `cand` at `t`, taking the one-letter
/// parts of `appendices` into account for compound prefixes, together with the number
/// of characters left off `cand`.
pub open spec fn resolve_prefix(
    q: TableModel,
    cand: Seq<char>,
    appendices: Seq<Seq<char>>,
    t: Timestamp,
) -> Option<(Prefix, nat)> {
    resolve_from(q, cand, cand.len(), appendices.filter(|a: Seq<char>| is_single_letter(a)), t)
}

/// A resolved prefix with its count of characters left off, as values.
pub open spec fn match_view(r: Option<(&Prefix, usize)>) -> Option<(Prefix, nat)> {
    match r {
        Some((p, n)) => Some((*p, n as nat)),
        None => None,
    }
}

/// A match found on a beginning of `cand` of at most `len` characters leaves off at
/// least `cand.len() - len` and at most `cand.len() - 1` characters.
pub proof fn lemma_resolve_from_bounds(
    q: TableModel,
    cand: Seq<char>,
    len: nat,
    letters: Seq<Seq<char>>,
    t: Timestamp,
)
    requires
        len <= cand.len(),
    ensures
        resolve_from(q, cand, len, letters, t) matches Some((_, n)) ==> cand.len() - len <= n
            && n + 1 <= cand.len(),
    decreases len,
{
    if len > 0 {
        lemma_resolve_from_bounds(q, cand, (len - 1) as nat, letters, t);
    }
}

/// Prefix resolution always keeps at least the first character of the candidate: the
/// number of characters it left off is below the candidate's length.
pub proof fn lemma_resolution_keeps_first_char(
    q: TableModel,
    cand: Seq<char>,
    appendices: Seq<Seq<char>>,
    t: Timestamp,
)
    ensures
        resolve_prefix(q, cand, appendices, t) matches Some((_, n)) ==> n + 1 <= cand.len(),
{
    lemma_resolve_from_bounds(
        q,
        cand,
        cand.len(),
        appendices.filter(|a: Seq<char>| is_single_letter(a)),
        t,
    );
}

/// The appendices of one letter, in order.
fn single_letter_appendices<'b>(appendices: &[&'b str]) -> (r: Vec<&'b str>)
    ensures
        views_of(r@) == views_of(appendices@).filter(|a: Seq<char>| is_single_letter(a)),
{
    let ghost pred = |a: Seq<char>| is_single_letter(a);
    let mut r: Vec<&'b str> = Vec::new();
    let mut i: usize = 0;
    assert(views_of(appendices@).take(0) =~= Seq::<Seq<char>>::empty());
    proof {
        reveal(Seq::filter);
    }
    assert(views_of(r@) =~= views_of(appendices@).take(0).filter(pred));
    while i < appendices.len()
        invariant
            pred == (|a: Seq<char>| is_single_letter(a)),
            i <= appendices@.len(),
            views_of(r@) == views_of(appendices@).take(i as int).filter(pred),
        decreases appendices.len() - i,
    {
        let a = appendices[i];
        let ghost all = views_of(appendices@);
        assert(all.take(i + 1).drop_last() =~= all.take(i as int));
        assert(all.take(i + 1).last() == a@);
        proof {
            reveal(Seq::filter);
        }
        let keep = a.unicode_len() == 1 && {
            let c = a.get_char(0);
            ('A' <= c && c <= 'Z') || ('a' <= c && c <= 'z')
        };
        if keep {
            let ghost prev = r@;
            r.push(a);
            assert(views_of(r@) =~= views_of(prev).push(a@));
        }
        i = i + 1;
    }
    assert(views_of(appendices@).take(appendices@.len() as int) =~= views_of(appendices@));
    r
}

/// The compound key `base/appendix` as a string.
fn compound_string(base: &str, appendix: &str) -> (r: String)
    ensures
        r@ == compound_key(base@, appendix@),
{
    let mut key = String::from_str(base);
    key.append("/");
    key.append(appendix);
    proof {
        reveal_strlit("/");
    }
    key
}

/// The first compound prefix `base/a` valid at `timestamp`, over `letters` in order.
fn find_compound<'a, Q: ClubLogQuery>(
    clublog: &'a Q,
    base: &str,
    timestamp: &Timestamp,
    letters: &Vec<&str>,
) -> (r: Option<&'a Prefix>)
    requires
        clublog.well_formed(),
    ensures
        crate::clublogquery::deref_opt(r) == compound_match(
            clublog.model(),
            base@,
            views_of(letters@),
            *timestamp,
        ),
{
    let ghost q = clublog.model();
    let ghost all = views_of(letters@);
    let mut j: usize = 0;
    assert(all.skip(0) =~= all);
    while j < letters.len()
        invariant
            clublog.well_formed(),
            q == clublog.model(),
            all == views_of(letters@),
            j <= letters@.len(),
            compound_match(q, base@, all, *timestamp) == compound_match(
                q,
                base@,
                all.skip(j as int),
                *timestamp,
            ),
        decreases letters.len() - j,
    {
        let key = compound_string(base, letters[j]);
        assert(all.skip(j as int)[0] == letters@[j as int]@);
        assert(all.skip(j as int).drop_first() =~= all.skip(j + 1));
        if let Some(p) = clublog.get_prefix(key.as_str(), timestamp) {
            return Some(p);
        }
        j = j + 1;
    }
    assert(all.skip(j as int) =~= Seq::<Seq<char>>::empty());
    None
}

/// The most specific prefix record for `potential_prefix` at `timestamp`: the
/// candidate is shortened from the back, one character at a time, until a prefix
/// matches; at each length the compound prefixes with a one-letter appendix are tried
/// first. Also returns how many characters were left off, which is always below the
/// length of the candidate: at least its first character stays.
pub fn get_prefix<'a, Q: ClubLogQuery>(
    clublog: &'a Q,
    potential_prefix: &str,
    timestamp: &Timestamp,
    appendices: &[&str],
) -> (r: Option<(&'a Prefix, usize)>)
    requires
        clublog.well_formed(),
    ensures
        match_view(r) == resolve_prefix(
            clublog.model(),
            potential_prefix@,
            views_of(appendices@),
            *timestamp,
        ),
        r matches Some((_, n)) ==> n < potential_prefix@.len(),
{
    let ghost q = clublog.model();
    let letters = single_letter_appendices(appendices);
    let ghost lv = views_of(letters@);
    let len_potential_prefix = potential_prefix.unicode_len();
    let mut cnt: usize = len_potential_prefix;
    while cnt > 0
        invariant
            clublog.well_formed(),
            q == clublog.model(),
            lv == views_of(letters@),
            len_potential_prefix == potential_prefix@.len(),
            cnt <= len_potential_prefix,
            resolve_prefix(q, potential_prefix@, views_of(appendices@), *timestamp)
                == resolve_from(q, potential_prefix@, cnt as nat, lv, *timestamp),
        decreases cnt,
    {
        let slice = potential_prefix.substring_char(0, cnt);
        assert(slice@ == potential_prefix@.take(cnt as int));
        if let Some(pref) = find_compound(clublog, slice, timestamp, &letters) {
            return Some((pref, len_potential_prefix - cnt));
        }
        if let Some(pref) = clublog.get_prefix(slice, timestamp) {
            return Some((pref, len_potential_prefix - cnt));
        }
        cnt = cnt - 1;
    }
    None
}


// ---------------------------------------------------------------------------
// Appendices
// ---------------------------------------------------------------------------

/// Appendices that are never read as a prefix after the first part of a callsign:
/// `AM`, `MM`, `SAT`, `P`, `M`, `QRP` and `LH`.
pub open spec fn is_reserved_appendix(a: Seq<char>) -> bool {
    ||| a == seq!['A', 'M']
    ||| a == seq!['M', 'M']
    ||| a == seq!['S', 'A', 'T']
    ||| a == seq!['P']
    ||| a == seq!['M']
    ||| a == seq!['Q', 'R', 'P']
    ||| a == seq!['L', 'H']
}

fn reserved_appendix(part: &str) -> (r: bool)
    ensures
        r == is_reserved_appendix(part@),
{
    proof {
        reveal_strlit("AM");
        reveal_strlit("MM");
        reveal_strlit("SAT");
        reveal_strlit("P");
        reveal_strlit("M");
        reveal_strlit("QRP");
        reveal_strlit("LH");
        assert("AM"@ =~= seq!['A', 'M']);
        assert("MM"@ =~= seq!['M', 'M']);
        assert("SAT"@ =~= seq!['S', 'A', 'T']);
        assert("P"@ =~= seq!['P']);
        assert("M"@ =~= seq!['M']);
        assert("QRP"@ =~= seq!['Q', 'R', 'P']);
        assert("LH"@ =~= seq!['L', 'H']);
    }
    str_eq(part, "AM") || str_eq(part, "MM") || str_eq(part, "SAT") || str_eq(part, "P")
        || str_eq(part, "M") || str_eq(part, "QRP") || str_eq(part, "LH")
}

/// Appendix that takes the callsign out of every DXCC entity.
#[derive(Debug, Clone, Copy, PartialEq, Eq, Structural)]
pub enum SpecialEntityAppendix {
    /// Maritime Mobile (/MM)
    Mm,
    /// Aeronautical Mobile (/AM)
    Am,
    /// Satellite, Internet or Repeater (/SAT)
    Sat,
}

/// The special appendix that `a` spells, if any.
pub open spec fn special_appendix_of(a: Seq<char>) -> Option<SpecialEntityAppendix> {
    if a == seq!['M', 'M'] {
        Some(SpecialEntityAppendix::Mm)
    } else if a == seq!['A', 'M'] {
        Some(SpecialEntityAppendix::Am)
    } else if a == seq!['S', 'A', 'T'] {
        Some(SpecialEntityAppendix::Sat)
    } else {
        None
    }
}

/// The special appendices among `appendices`, in order.
pub open spec fn special_appendices(appendices: Seq<Seq<char>>) -> Seq<SpecialEntityAppendix> {
    appendices.filter_map(|a: Seq<char>| special_appendix_of(a))
}

/// No special appendix, the one special appendix, or an error for more than one.
pub open spec fn no_entity_appendix(appendices: Seq<Seq<char>>) -> Result<
    Option<SpecialEntityAppendix>,
    CallsignError,
> {
    let found = special_appendices(appendices);
    if found.len() == 0 {
        Ok(None)
    } else if found.len() == 1 {
        Ok(Some(found[0]))
    } else {
        Err(CallsignError::MultipleSpecialAppendices)
    }
}

/// Looks for an appendix (`/MM`, `/AM`, `/SAT`) that takes the callsign out of every
/// DXCC entity; more than one of them is an error.
pub fn is_no_entity_by_appendix(appendices: &[&str]) -> (r: Result<
    Option<SpecialEntityAppendix>,
    CallsignError,
>)
    ensures
        r == no_entity_appendix(views_of(appendices@)),
{
    let ghost f = |a: Seq<char>| special_appendix_of(a);
    let ghost all = views_of(appendices@);
    let mut found: Vec<SpecialEntityAppendix> = Vec::new();
    let mut i: usize = 0;
    assert(all.take(0) =~= Seq::<Seq<char>>::empty());
    assert(found@ =~= all.take(0).filter_map(f));
    proof {
        reveal_strlit("MM");
        reveal_strlit("AM");
        reveal_strlit("SAT");
        assert("AM"@ =~= seq!['A', 'M']);
        assert("MM"@ =~= seq!['M', 'M']);
        assert("SAT"@ =~= seq!['S', 'A', 'T']);
    }
    while i < appendices.len()
        invariant
            f == (|a: Seq<char>| special_appendix_of(a)),
            all == views_of(appendices@),
            "AM"@ == seq!['A', 'M'],
            "MM"@ == seq!['M', 'M'],
            "SAT"@ == seq!['S', 'A', 'T'],
            i <= appendices@.len(),
            found@ == all.take(i as int).filter_map(f),
        decreases appendices.len() - i,
    {
        let a = appendices[i];
        assert(all.take(i + 1).drop_last() =~= all.take(i as int));
        assert(all.take(i + 1).last() == a@);
        let ghost prev = found@;
        if str_eq(a, "MM") {
            found.push(SpecialEntityAppendix::Mm);
        } else if str_eq(a, "AM") {
            found.push(SpecialEntityAppendix::Am);
        } else if str_eq(a, "SAT") {
            found.push(SpecialEntityAppendix::Sat);
        }
        assert(found@ =~= all.take(i + 1).filter_map(f));
        i = i + 1;
    }
    assert(all.take(appendices@.len() as int) =~= all);
    if found.len() == 0 {
        Ok(None)
    } else if found.len() == 1 {
        Ok(Some(found[0]))
    } else {
        Err(CallsignError::MultipleSpecialAppendices)
    }
}

/// The highest position `p` with `1 <= p <= k` that holds a digit.
pub open spec fn last_inner_digit(home: Seq<char>, k: int) -> Option<int>
    decreases k,
{
    if k < 1 {
        None
    } else if is_digit(home[k]) {
        Some(k)
    } else {
        last_inner_digit(home, k - 1)
    }
}

/// `home` with the last digit that has a character on either side replaced by `digit`;
/// `home` itself where it has no such digit or holds other than letters and digits.
pub open spec fn substitute_digit(home: Seq<char>, digit: Seq<char>) -> Seq<char> {
    if forall|i: int| 0 <= i < home.len() ==> is_call_char(#[trigger] home[i]) {
        match last_inner_digit(home, home.len() - 2) {
            Some(p) => home.take(p) + digit + home.skip(p + 1),
            None => home,
        }
    } else {
        home
    }
}

/// The prefix that a single-digit appendix points to, if there is one such appendix
/// and the homecall with that digit resolves; an error for more than one.
pub open spec fn digit_appendix_prefix(
    q: TableModel,
    home: Seq<char>,
    appendices: Seq<Seq<char>>,
    t: Timestamp,
) -> Result<Option<Prefix>, CallsignError> {
    let digits = appendices.filter(|a: Seq<char>| is_single_digit(a));
    if digits.len() == 0 {
        Ok(None)
    } else if digits.len() == 1 {
        match resolve_prefix(q, substitute_digit(home, digits[0]), appendices, t) {
            Some((p, _)) => Ok(Some(p)),
            None => Ok(None),
        }
    } else {
        Err(CallsignError::MultipleSingleDigitAppendices)
    }
}

/// The appendices of one digit, in order.
fn single_digit_appendices<'b>(appendices: &[&'b str]) -> (r: Vec<&'b str>)
    ensures
        views_of(r@) == views_of(appendices@).filter(|a: Seq<char>| is_single_digit(a)),
{
    let ghost pred = |a: Seq<char>| is_single_digit(a);
    let mut r: Vec<&'b str> = Vec::new();
    let mut i: usize = 0;
    assert(views_of(appendices@).take(0) =~= Seq::<Seq<char>>::empty());
    proof {
        reveal(Seq::filter);
    }
    assert(views_of(r@) =~= views_of(appendices@).take(0).filter(pred));
    while i < appendices.len()
        invariant
            pred == (|a: Seq<char>| is_single_digit(a)),
            i <= appendices@.len(),
            views_of(r@) == views_of(appendices@).take(i as int).filter(pred),
        decreases appendices.len() - i,
    {
        let a = appendices[i];
        let ghost all = views_of(appendices@);
        assert(all.take(i + 1).drop_last() =~= all.take(i as int));
        assert(all.take(i + 1).last() == a@);
        proof {
            reveal(Seq::filter);
        }
        let keep = a.unicode_len() == 1 && {
            let c = a.get_char(0);
            '0' <= c && c <= '9'
        };
        if keep {
            let ghost prev = r@;
            r.push(a);
            assert(views_of(r@) =~= views_of(prev).push(a@));
        }
        i = i + 1;
    }
    assert(views_of(appendices@).take(appendices@.len() as int) =~= views_of(appendices@));
    r
}

/// The homecall with its call-area digit replaced by `digit` (see `substitute_digit`).
fn substituted_homecall(homecall: &str, digit: &str) -> (r: String)
    ensures
        r@ == substitute_digit(homecall@, digit@),
{
    let n = homecall.unicode_len();
    let mut i: usize = 0;
    while i < n
        invariant
            n == homecall@.len(),
            i <= n,
            forall|j: int| 0 <= j < i ==> is_call_char(#[trigger] homecall@[j]),
        decreases n - i,
    {
        let c = homecall.get_char(i);
        if !(('A' <= c && c <= 'Z') || ('0' <= c && c <= '9')) {
            return String::from_str(homecall);
        }
        i = i + 1;
    }
    if n < 3 {
        return String::from_str(homecall);
    }
    let mut k: usize = n - 2;
    while k >= 1
        invariant
            n == homecall@.len(),
            k <= n - 2,
            forall|j: int| 0 <= j < n ==> is_call_char(#[trigger] homecall@[j]),
            last_inner_digit(homecall@, n - 2) == last_inner_digit(homecall@, k as int),
        decreases k,
    {
        let c = homecall.get_char(k);
        if '0' <= c && c <= '9' {
            let mut s = String::from_str(homecall.substring_char(0, k));
            s.append(digit);
            s.append(homecall.substring_char(k + 1, n));
            assert(s@ =~= homecall@.take(k as int) + digit@ + homecall@.skip(k + 1));
            return s;
        }
        k = k - 1;
    }
    String::from_str(homecall)
}

/// Looks for a single-digit appendix; where there is one, the homecall with that digit
/// in place of its own (`SV0ABC/9` gives `SV9ABC`) is resolved again. Returns that
/// prefix where it resolves; more than one single-digit appendix is an error.
fn is_different_prefix_by_single_digit_appendix<'a, Q: ClubLogQuery>(
    clublog: &'a Q,
    homecall: &str,
    timestamp: &Timestamp,
    appendices: &[&str],
) -> (r: Result<Option<&'a Prefix>, CallsignError>)
    requires
        clublog.well_formed(),
    ensures
        match r {
            Ok(o) => digit_appendix_prefix(
                clublog.model(),
                homecall@,
                views_of(appendices@),
                *timestamp,
            ) == Ok::<Option<Prefix>, CallsignError>(deref_opt(o)),
            Err(e) => digit_appendix_prefix(
                clublog.model(),
                homecall@,
                views_of(appendices@),
                *timestamp,
            ) == Err::<Option<Prefix>, CallsignError>(e),
        },
{
    let single_digits = single_digit_appendices(appendices);
    let new_digit = if single_digits.len() == 0 {
        return Ok(None);
    } else if single_digits.len() == 1 {
        single_digits[0]
    } else {
        return Err(CallsignError::MultipleSingleDigitAppendices);
    };
    let new_homecall = substituted_homecall(homecall, new_digit);
    match get_prefix(clublog, new_homecall.as_str(), timestamp, appendices) {
        Some((p, _)) => Ok(Some(p)),
        None => Ok(None),
    }
}

// ---------------------------------------------------------------------------
// CQ zone exceptions
// ---------------------------------------------------------------------------

/// `c` with the CQ zone of the zone exception for its callsign at `t`, where there is one.
pub open spec fn with_zone_exception(q: TableModel, c: CallsignView, t: Timestamp) -> CallsignView {
    match q.zone_exception(c.call, t) {
        Some(z) => CallsignView { cqzone: Some(z), ..c },
        None => c,
    }
}

/// Replaces the CQ zone of `call` where a zone exception for its callsign is recorded.
fn check_apply_cqzone_exception<Q: ClubLogQuery>(
    clublog: &Q,
    call: &mut Callsign,
    timestamp: &Timestamp,
)
    requires
        clublog.well_formed(),
    ensures
        final(call)@ == with_zone_exception(clublog.model(), old(call)@, *timestamp),
{
    if let Some(cqz) = clublog.get_zone_exception(call.call.as_str(), timestamp) {
        call.cqzone = Some(cqz);
    }
}


// ---------------------------------------------------------------------------
// Classification of the parts of a callsign
// ---------------------------------------------------------------------------

/// What a part of a callsign between two `/` is.
#[derive(Debug, Clone, Copy, PartialEq, Eq, Structural)]
pub enum PartType {
    /// Prefix
    Prefix,
    /// Everything other than a prefix
    Other,
}

/// State of the classification of the parts of a callsign.
#[derive(Debug, Clone, Copy, PartialEq, Eq, Structural)]
pub enum State {
    /// No prefix found so far
    NoPrefix,
    /// Single prefix
    SinglePrefix,
    /// Two prefixes in a row
    DoublePrefix,
    /// Prefixes complete (one, two, or three where the first is compound), only
    /// appendices may follow
    PrefixComplete(u8),
}

/// Whether the part at `pos` counts as a prefix: it resolves on its own, and after
/// the first position it is no reserved appendix.
pub open spec fn is_prefix_part(q: TableModel, parts: Seq<Seq<char>>, pos: int, t: Timestamp) -> bool {
    &&& resolve_prefix(q, parts[pos], Seq::empty(), t) is Some
    &&& !(pos >= 1 && is_reserved_appendix(parts[pos]))
}

/// The type of each part.
pub open spec fn part_types(q: TableModel, parts: Seq<Seq<char>>, t: Timestamp) -> Seq<PartType> {
    Seq::new(
        parts.len(),
        |pos: int|
            if is_prefix_part(q, parts, pos, t) {
                PartType::Prefix
            } else {
                PartType::Other
            },
    )
}

/// One step of the classification.
pub open spec fn next_state(s: State, pt: PartType) -> Result<State, CallsignError> {
    match pt {
        PartType::Prefix => match s {
            State::NoPrefix => Ok(State::SinglePrefix),
            State::SinglePrefix => Ok(State::DoublePrefix),
            State::DoublePrefix => Ok(State::PrefixComplete(3)),
            State::PrefixComplete(_) => Err(CallsignError::ThirdPrefix),
        },
        PartType::Other => match s {
            State::NoPrefix => Err(CallsignError::BeginWithoutPrefix),
            State::SinglePrefix => Ok(State::PrefixComplete(1)),
            State::DoublePrefix => Ok(State::PrefixComplete(2)),
            State::PrefixComplete(n) => Ok(State::PrefixComplete(n)),
        },
    }
}

/// The state after all of `types`, or the first error.
pub open spec fn run_states(types: Seq<PartType>) -> Result<State, CallsignError>
    decreases types.len(),
{
    if types.len() == 0 {
        Ok(State::NoPrefix)
    } else {
        match run_states(types.drop_last()) {
            Ok(s) => next_state(s, types.last()),
            Err(e) => Err(e),
        }
    }
}

/// What a state says of the parts seen so far.
pub open spec fn state_shape(types: Seq<PartType>, s: State) -> bool {
    match s {
        State::NoPrefix => types.len() == 0,
        State::SinglePrefix => types.len() == 1 && types[0] == PartType::Prefix,
        State::DoublePrefix => types.len() == 2 && types[0] == PartType::Prefix && types[1]
            == PartType::Prefix,
        State::PrefixComplete(n) => {
            &&& types.len() >= 2
            &&& types[0] == PartType::Prefix
            &&& (n == 1 || ((n == 2 || n == 3) && types.len() >= 3 && types[1] == PartType::Prefix))
        },
    }
}

proof fn lemma_run_states_shape(types: Seq<PartType>)
    ensures
        run_states(types) matches Ok(s) ==> state_shape(types, s),
    decreases types.len(),
{
    if types.len() > 0 {
        let init = types.drop_last();
        lemma_run_states_shape(init);
        if init.len() > 0 {
            assert(init[0] == types[0]);
        }
        if init.len() > 1 {
            assert(init[1] == types[1]);
        }
    }
}

proof fn lemma_run_states_err(types: Seq<PartType>, k: int, j: int)
    requires
        0 <= k <= j <= types.len(),
        run_states(types.take(k)) is Err,
    ensures
        run_states(types.take(j)) == run_states(types.take(k)),
    decreases j - k,
{
    if j > k {
        lemma_run_states_err(types, k, j - 1);
        assert(types.take(j).drop_last() =~= types.take(j - 1));
    }
}

// ---------------------------------------------------------------------------
// Analysis
// ---------------------------------------------------------------------------

/// Whether a prefix record stands for maritime mobile operation instead of an entity.
pub open spec fn is_maritime_mobile(p: Prefix) -> bool {
    p.entity@ == CALLSIGN_EXCEPTION_MARITIME_MOBILE@
}

/// The analysis of a callsign made of one prefix part and appendices.
pub open spec fn homecall_analysis(
    q: TableModel,
    call: Seq<char>,
    parts: Seq<Seq<char>>,
    t: Timestamp,
) -> Result<CallsignView, CallsignError> {
    let appendices = parts.drop_first();
    match resolve_prefix(q, parts[0], appendices, t) {
        None => Err(CallsignError::BeginWithoutPrefix),
        Some((p, _)) => match no_entity_appendix(appendices) {
            Err(e) => Err(e),
            Ok(Some(_)) => Ok(no_dxcc_view(call)),
            Ok(None) => if is_maritime_mobile(p) {
                Ok(no_dxcc_view(call))
            } else {
                match digit_appendix_prefix(q, parts[0], appendices, t) {
                    Err(e) => Err(e),
                    Ok(Some(second)) => Ok(with_zone_exception(q, prefix_view(call, second), t)),
                    Ok(None) => Ok(with_zone_exception(q, prefix_view(call, p), t)),
                }
            },
        },
    }
}

/// The analysis of a callsign whose first two parts are prefixes: a compound first
/// match wins, else the match that left off fewer characters, the first on a tie.
pub open spec fn double_prefix_analysis(
    q: TableModel,
    call: Seq<char>,
    parts: Seq<Seq<char>>,
    t: Timestamp,
) -> Result<CallsignView, CallsignError> {
    match resolve_prefix(q, parts[0], parts.drop_first(), t) {
        None => Err(CallsignError::BeginWithoutPrefix),
        Some((first, first_cut)) => {
            let p = if first.call@.contains('/') {
                first
            } else {
                match resolve_prefix(q, parts[1], parts.skip(2), t) {
                    Some((second, second_cut)) => if first_cut <= second_cut {
                        first
                    } else {
                        second
                    },
                    None => first,
                }
            };
            Ok(with_zone_exception(q, prefix_view(call, p), t))
        },
    }
}

/// The analysis of a callsign whose first three parts are prefixes: only a compound
/// prefix on the first part (like `3D2/R` in `3D2/W1ABC/R`) makes sense of it.
pub open spec fn triple_prefix_analysis(
    q: TableModel,
    call: Seq<char>,
    parts: Seq<Seq<char>>,
    t: Timestamp,
) -> Result<CallsignView, CallsignError> {
    match resolve_prefix(q, parts[0], parts.drop_first(), t) {
        None => Err(CallsignError::BeginWithoutPrefix),
        Some((p, _)) => if p.call@.contains('/') {
            Ok(with_zone_exception(q, prefix_view(call, p), t))
        } else {
            Err(CallsignError::ThirdPrefix)
        },
    }
}

/// What the analysis of `call` at `t` gives against the table `q`.
pub open spec fn analysis(q: TableModel, call: Seq<char>, t: Timestamp) -> Result<
    CallsignView,
    CallsignError,
> {
    if !has_basic_format(call) {
        Err(CallsignError::BasicFormat)
    } else if q.is_invalid_operation(call, t) {
        Err(CallsignError::InvalidOperation)
    } else {
        match q.callsign_exception(call, t) {
            Some(e) => Ok(exception_view(call, e)),
            None => {
                let parts = split_slash(call);
                match run_states(part_types(q, parts, t)) {
                    Err(e) => Err(e),
                    Ok(State::SinglePrefix) => homecall_analysis(q, call, parts, t),
                    Ok(State::PrefixComplete(1)) => homecall_analysis(q, call, parts, t),
                    Ok(State::DoublePrefix) => double_prefix_analysis(q, call, parts, t),
                    Ok(State::PrefixComplete(2)) => double_prefix_analysis(q, call, parts, t),
                    Ok(State::PrefixComplete(3)) => triple_prefix_analysis(q, call, parts, t),
                    Ok(_) => Err(CallsignError::BeginWithoutPrefix),
                }
            },
        }
    }
}

/// The value of an analysis result.
pub open spec fn result_view(r: Result<Callsign, CallsignError>) -> Result<CallsignView, CallsignError> {
    match r {
        Ok(c) => Ok(c@),
        Err(e) => Err(e),
    }
}

/// Analyzes a callsign: its entity, CQ zone, continent and location at `timestamp`.
///
/// A callsign of other than upper-case letters, digits and inner `/` is rejected; so
/// is one recorded as an invalid operation. A callsign exception answers for its
/// callsign outright. Otherwise the parts between the `/` are classified as prefixes
/// or appendices and resolved; `/AM`, `/MM` and `/SAT` give no entity, a single-digit
/// appendix may point to another call area, and a CQ zone exception replaces the zone.
pub fn analyze_callsign<Q: ClubLogQuery>(clublog: &Q, call: &str, timestamp: &Timestamp) -> (r:
    Result<Callsign, CallsignError>)
    requires
        clublog.well_formed(),
    ensures
        result_view(r) == analysis(clublog.model(), call@, *timestamp),
{
    let ghost q = clublog.model();
    if !check_basic_format(call) {
        return Err(CallsignError::BasicFormat);
    }
    if clublog.is_invalid_operation(call, timestamp) {
        return Err(CallsignError::InvalidOperation);
    }
    if let Some(call_exc) = clublog.get_callsign_exception(call, timestamp) {
        return Ok(Callsign::from_exception(call, call_exc));
    }
    let parts = split_call(call);
    let ghost pv = views_of(parts@);
    proof {
        lemma_split_slash_nonempty(call@);
    }
    // Classify every part as a prefix or something else.
    let no_appendices: Vec<&str> = Vec::new();
    assert(views_of(no_appendices@) =~= Seq::<Seq<char>>::empty());
    let ghost types = part_types(q, pv, *timestamp);
    let mut parttypes: Vec<PartType> = Vec::new();
    let mut pos: usize = 0;
    while pos < parts.len()
        invariant
            clublog.well_formed(),
            q == clublog.model(),
            pv == views_of(parts@),
            pv == split_slash(call@),
            pv.len() >= 1,
            has_basic_format(call@),
            !q.is_invalid_operation(call@, *timestamp),
            q.callsign_exception(call@, *timestamp) is None,
            types == part_types(q, pv, *timestamp),
            views_of(no_appendices@) == Seq::<Seq<char>>::empty(),
            pos <= parts@.len(),
            parttypes@ == types.take(pos as int),
        decreases parts.len() - pos,
    {
        let part = parts[pos];
        let pt = if get_prefix(clublog, part, timestamp, no_appendices.as_slice()).is_some() {
            if pos >= 1 && reserved_appendix(part) {
                PartType::Other
            } else {
                PartType::Prefix
            }
        } else {
            PartType::Other
        };
        parttypes.push(pt);
        assert(parttypes@ =~= types.take(pos + 1));
        pos = pos + 1;
    }
    assert(types.take(parts@.len() as int) =~= types);
    // Check the order of prefixes and appendices.
    let mut state = State::NoPrefix;
    let mut i: usize = 0;
    assert(types.take(0) =~= Seq::<PartType>::empty());
    while i < parttypes.len()
        invariant
            clublog.well_formed(),
            q == clublog.model(),
            pv == views_of(parts@),
            pv == split_slash(call@),
            pv.len() >= 1,
            has_basic_format(call@),
            !q.is_invalid_operation(call@, *timestamp),
            q.callsign_exception(call@, *timestamp) is None,
            types == part_types(q, pv, *timestamp),
            parttypes@ == types,
            i <= types.len(),
            run_states(types.take(i as int)) == Ok::<State, CallsignError>(state),
        decreases parttypes.len() - i,
    {
        assert(types.take(i + 1).drop_last() =~= types.take(i as int));
        assert(types.take(i + 1).last() == parttypes@[i as int]);
        let next = match (state, parttypes[i]) {
            (State::NoPrefix, PartType::Prefix) => State::SinglePrefix,
            (State::NoPrefix, PartType::Other) => {
                proof {
                    lemma_run_states_err(types, i + 1, types.len() as int);
                    assert(types.take(types.len() as int) =~= types);
                }
                return Err(CallsignError::BeginWithoutPrefix);
            },
            (State::SinglePrefix, PartType::Prefix) => State::DoublePrefix,
            (State::SinglePrefix, PartType::Other) => State::PrefixComplete(1),
            (State::DoublePrefix, PartType::Prefix) => State::PrefixComplete(3),
            (State::DoublePrefix, PartType::Other) => State::PrefixComplete(2),
            (State::PrefixComplete(_), PartType::Prefix) => {
                proof {
                    lemma_run_states_err(types, i + 1, types.len() as int);
                    assert(types.take(types.len() as int) =~= types);
                }
                return Err(CallsignError::ThirdPrefix);
            },
            (State::PrefixComplete(n), PartType::Other) => State::PrefixComplete(n),
        };
        state = next;
        i = i + 1;
    }
    assert(types.take(types.len() as int) =~= types);
    proof {
        lemma_run_states_shape(types);
    }
    // Resolve according to the shape of the callsign.
    match state {
        State::SinglePrefix | State::PrefixComplete(1) => {
            let homecall = parts[0];
            let (_, appendices) = parts.as_slice().split_at(1);
            assert(views_of(appendices@) =~= pv.drop_first());
            let mut homecall_prefix = match get_prefix(clublog, homecall, timestamp, appendices) {
                Some((p, _)) => p,
                None => {
                    return Err(CallsignError::BeginWithoutPrefix);
                },
            };
            match is_no_entity_by_appendix(appendices) {
                Err(e) => {
                    return Err(e);
                },
                Ok(Some(appendix)) => {
                    return Ok(
                        match appendix {
                            SpecialEntityAppendix::Am => Callsign::new_aeronautical_mobile(call),
                            SpecialEntityAppendix::Mm => Callsign::new_maritime_mobile(call),
                            SpecialEntityAppendix::Sat => Callsign::new_satellite(call),
                        },
                    );
                },
                Ok(None) => {},
            }
            if str_eq(homecall_prefix.entity.as_str(), CALLSIGN_EXCEPTION_MARITIME_MOBILE) {
                return Ok(Callsign::new_maritime_mobile(call));
            }
            match is_different_prefix_by_single_digit_appendix(
                clublog,
                homecall,
                timestamp,
                appendices,
            ) {
                Err(e) => {
                    return Err(e);
                },
                Ok(Some(pref)) => {
                    homecall_prefix = pref;
                },
                Ok(None) => {},
            }
            let mut callsign = Callsign::from_prefix(call, homecall_prefix);
            check_apply_cqzone_exception(clublog, &mut callsign, timestamp);
            Ok(callsign)
        },
        State::DoublePrefix | State::PrefixComplete(2) => {
            let (_, rest1) = parts.as_slice().split_at(1);
            let (_, rest2) = parts.as_slice().split_at(2);
            assert(views_of(rest1@) =~= pv.drop_first());
            assert(views_of(rest2@) =~= pv.skip(2));
            let pref_first = match get_prefix(clublog, parts[0], timestamp, rest1) {
                Some(m) => m,
                None => {
                    return Err(CallsignError::BeginWithoutPrefix);
                },
            };
            // A compound first prefix like 3D2/R has already taken the second part.
            // Otherwise the prefix with fewer characters left off wins.
            let pref = if contains_slash(pref_first.0.call.as_str()) {
                pref_first.0
            } else {
                match get_prefix(clublog, parts[1], timestamp, rest2) {
                    Some(pref_second) => if pref_first.1 <= pref_second.1 {
                        pref_first.0
                    } else {
                        pref_second.0
                    },
                    None => pref_first.0,
                }
            };
            let mut callsign = Callsign::from_prefix(call, pref);
            check_apply_cqzone_exception(clublog, &mut callsign, timestamp);
            Ok(callsign)
        },
        State::PrefixComplete(3) => {
            let (_, rest1) = parts.as_slice().split_at(1);
            assert(views_of(rest1@) =~= pv.drop_first());
            match get_prefix(clublog, parts[0], timestamp, rest1) {
                Some((pref, _)) => if contains_slash(pref.call.as_str()) {
                    let mut callsign = Callsign::from_prefix(call, pref);
                    check_apply_cqzone_exception(clublog, &mut callsign, timestamp);
                    Ok(callsign)
                } else {
                    Err(CallsignError::ThirdPrefix)
                },
                None => Err(CallsignError::BeginWithoutPrefix),
            }
        },
        _ => Err(CallsignError::BeginWithoutPrefix),
    }
}


// ---------------------------------------------------------------------------
// Whitelist
// ---------------------------------------------------------------------------

/// Whether the table lets `call` count for the entity `adif` at `t`: an entity without
/// an active whitelist lets every callsign count; a whitelisted one only the callsign
/// of a callsign exception for that very entity, and any callsign before the start or
/// after the end of its whitelist.
pub open spec fn whitelist_allows(q: TableModel, adif: Adif, call: Seq<char>, t: Timestamp) -> bool {
    match q.entity(adif, t) {
        Some(e) => if e.whitelist == Some(true) {
            match q.callsign_exception(call, t) {
                Some(x) => x.adif == adif,
                None => (e.whitelist_start matches Some(s) && t.nanos < s.nanos) || (
                e.whitelist_end matches Some(end) && t.nanos > end.nanos),
            }
        } else {
            true
        },
        None => true,
    }
}

/// Whether an analyzed callsign counts for its entity at `timestamp`: false only where
/// the entity is whitelisted then and the callsign is not on the whitelist.
pub fn check_whitelist<Q: ClubLogQuery>(clublog: &Q, call: &Callsign, timestamp: &Timestamp) -> (r:
    bool)
    requires
        clublog.well_formed(),
    ensures
        r == whitelist_allows(clublog.model(), call.adif, call.call@, *timestamp),
{
    // Not every ADIF identifier refers to an entity (aeronautical mobile, for one).
    if let Some(entity) = clublog.get_entity(call.adif, timestamp) {
        if entity.whitelist == Some(true) {
            // An exception may exist for the callsign but name another entity.
            if let Some(exc) = clublog.get_callsign_exception(call.call.as_str(), timestamp) {
                return exc.adif == call.adif;
            }
            if let Some(whitelist_start) = entity.whitelist_start {
                if timestamp.nanos < whitelist_start.nanos {
                    return true;
                }
            }
            if let Some(whitelist_end) = entity.whitelist_end {
                if timestamp.nanos > whitelist_end.nanos {
                    return true;
                }
            }
            return false;
        }
    }
    true
}

// ---------------------------------------------------------------------------
// Laws
// ---------------------------------------------------------------------------

/// The analysis is a function of the table's records, the callsign and the point in
/// time alone: two analyses of the same callsign at the same time against tables with
/// the same records give the same result.
pub proof fn lemma_analysis_is_deterministic<Q: ClubLogQuery, R: ClubLogQuery>(
    first_table: &Q,
    second_table: &R,
    call: &str,
    timestamp: Timestamp,
    first: Result<Callsign, CallsignError>,
    second: Result<Callsign, CallsignError>,
)
    requires
        first_table.model() == second_table.model(),
        result_view(first) == analysis(first_table.model(), call@, timestamp),
        result_view(second) == analysis(second_table.model(), call@, timestamp),
    ensures
        result_view(first) == result_view(second),
{
}

/// A callsign exception wins over everything the prefixes would say: a well-formed
/// callsign that has an exception at `t` and no invalid operation gets exactly the
/// exception's entity, zone, continent and location.
pub proof fn lemma_exception_takes_precedence(q: TableModel, call: Seq<char>, t: Timestamp)
    requires
        has_basic_format(call),
        !q.is_invalid_operation(call, t),
        q.callsign_exception(call, t) is Some,
    ensures
        analysis(q, call, t) == Ok::<CallsignView, CallsignError>(
            exception_view(call, q.callsign_exception(call, t)->0),
        ),
{
}

/// An invalid operation rejects a well-formed callsign whatever else the table holds.
pub proof fn lemma_invalid_operation_rejects(q: TableModel, call: Seq<char>, t: Timestamp)
    requires
        has_basic_format(call),
        q.is_invalid_operation(call, t),
    ensures
        analysis(q, call, t) == Err::<CallsignView, CallsignError>(CallsignError::InvalidOperation),
{
}

} // verus!
