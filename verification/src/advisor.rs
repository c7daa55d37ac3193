//! The advisory record: the unit of work of the whole pipeline.
//!
//! An advisory's identity is defined solely by its `package_name` string:
//! the upstream site embeds a unique advisory reference in that label, so it
//! serves as the natural key. Equality deliberately ignores the date, the
//! url, the year and the store-assigned identifier.

use vstd::prelude::*;

verus! {

use vstd::std_specs::cmp::PartialEqSpec;

/// A calendar date held as plain year, month and day numbers
/// (midnight UTC is implied; no time of day is ever significant).
#[derive(Clone, Copy, PartialEq, Eq, Structural, Debug)]
pub struct Date {
    pub year: u32,
    pub month: u32,
    pub day: u32,
}

pub open spec fn spec_is_leap_year(y: int) -> bool {
    (y % 4 == 0 && y % 100 != 0) || y % 400 == 0
}

/// Days in a month of the proleptic Gregorian calendar.
pub open spec fn spec_days_in_month(y: int, m: int) -> int {
    if m == 1 || m == 3 || m == 5 || m == 7 || m == 8 || m == 10 || m == 12 {
        31
    } else if m == 4 || m == 6 || m == 9 || m == 11 {
        30
    } else if spec_is_leap_year(y) {
        29
    } else {
        28
    }
}

/// A real calendar date: the month exists and the day falls inside it.
pub open spec fn date_valid(d: Date) -> bool {
    &&& 1 <= d.month <= 12
    &&& 1 <= d.day <= spec_days_in_month(d.year as int, d.month as int)
    &&& d.year <= 9999
}

/// The mathematical image of an [`Advisor`]: every string as a sequence of
/// characters, the store-assigned identifier as an optional sequence.
pub struct AdvisorView {
    pub id: Option<Seq<char>>,
    pub date: Date,
    pub package_name: Seq<char>,
    pub url: Seq<char>,
    pub year: i32,
}

/// One published security notice for a package.
///
/// `_id` is assigned by the store on insert and absent on a freshly
/// extracted record. `year` is the partition key under which records are
/// stored and compared; the extractor keeps it consistent with `date`.
#[derive(Debug)]
pub struct Advisor {
    pub _id: Option<String>,
    pub date: Date,
    pub package_name: String,
    pub url: String,
    pub year: i32,
}

impl View for Advisor {
    type V = AdvisorView;

    open spec fn view(&self) -> AdvisorView {
        AdvisorView {
            id: match self._id {
                Some(s) => Some(s@),
                None => None,
            },
            date: self.date,
            package_name: self.package_name@,
            url: self.url@,
            year: self.year,
        }
    }
}

impl DeepView for Advisor {
    type V = AdvisorView;

    open spec fn deep_view(&self) -> AdvisorView {
        self.view()
    }
}

impl Advisor {
    /// The identity key: the package/advisory label, character for character.
    pub open spec fn spec_key(&self) -> Seq<char> {
        self.package_name@
    }

    /// The identity key of an advisory, usable wherever records are
    /// collected under their natural key.
    pub fn key(&self) -> (r: &String)
        ensures
            r@ == self.spec_key(),
    {
        &self.package_name
    }

    /// Constructs a record from its parts.
    pub fn new(
        _id: Option<String>,
        date: Date,
        package_name: String,
        url: String,
        year: i32,
    ) -> (r: Advisor)
        ensures
            r@ == (AdvisorView {
                id: match _id {
                    Some(s) => Some(s@),
                    None => None,
                },
                date: date,
                package_name: package_name@,
                url: url@,
                year: year,
            }),
    {
        Advisor { _id, date, package_name, url, year }
    }
}

impl Clone for Advisor {
    /// A clone is the same record, field for field.
    fn clone(&self) -> (r: Self)
        ensures
            r@ == self@,
    {
        Advisor {
            _id: match &self._id {
                Some(s) => Some(s.clone()),
                None => None,
            },
            date: self.date,
            package_name: self.package_name.clone(),
            url: self.url.clone(),
            year: self.year,
        }
    }
}

impl PartialEq for Advisor {
    /// Two records are the same advisory iff their package names are equal,
    /// byte for byte and case-sensitively.
    fn eq(&self, other: &Self) -> (r: bool) {
        self.package_name == other.package_name
    }
}

impl vstd::std_specs::cmp::PartialEqSpecImpl for Advisor {
    open spec fn obeys_eq_spec() -> bool {
        true
    }

    open spec fn eq_spec(&self, other: &Advisor) -> bool {
        self.package_name@ == other.package_name@
    }
}

/// Identity: two advisories are equal exactly when their package names
/// match, independent of date, url, year and identifier.
pub proof fn lemma_identity(a: &Advisor, b: &Advisor)
    ensures
        a.eq_spec(b) <==> a@.package_name == b@.package_name,
{
}

/// Key consistency: the identity key agrees with equality, so any mapping
/// keyed by [`Advisor::key`] holds at most one entry per package name and
/// never tells equal advisories apart.
pub proof fn lemma_key_of_equal(a: &Advisor, b: &Advisor)
    ensures
        a.eq_spec(b) <==> a.spec_key() == b.spec_key(),
{
}

} // verus!
