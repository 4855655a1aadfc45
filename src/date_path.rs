use vstd::prelude::*;

verus! {

/// Why a single entry (or a directory's subtree) was not relocated.
#[derive(Clone, Copy, Debug, PartialEq, Eq, Structural)]
pub enum Failure {
    /// The children of a directory could not be listed.
    DirectoryReadFailure,
    /// The modification time of a file could not be read.
    MetadataUnavailable,
    /// The modification time has no calendar date.
    TimeConversionError,
    /// The destination directories could not be created.
    DestinationCreateFailure,
    /// The rename into the destination failed.
    MoveFailure,
}

/// A file's modification time, as read from its metadata.
#[derive(Clone, Copy, Debug, PartialEq, Eq, Structural)]
pub enum Stamp {
    /// The metadata or its modification time could not be read.
    Unreadable,
    /// The time lies before the Unix epoch.
    BeforeEpoch,
    /// Whole seconds elapsed since the Unix epoch.
    Since(u64),
}

/// A calendar date: year, month of the year (1 to 12), day of the month (1 to 31).
#[derive(Clone, Copy, Debug, PartialEq, Eq, Structural)]
pub struct CivilDate {
    pub year: i32,
    pub month: u32,
    pub day: u32,
}

impl CivilDate {
    pub open spec fn wf(self) -> bool {
        1 <= self.month <= 12 && 1 <= self.day <= 31
    }
}

/// The UTC calendar date (year, month, day) of a count of seconds since the
/// Unix epoch, or `None` where the count lies outside the representable range.
pub uninterp spec fn calendar_date_of(secs: int) -> Option<(i32, u32, u32)>;

/// Relies on chrono's `DateTime::from_timestamp` (`None` when out of range)
/// and on its `Datelike` accessors (month 1 to 12, day 1 to 31).
#[verifier::external_body]
fn utc_calendar_date(secs: i64) -> (r: Option<(i32, u32, u32)>)
    ensures
        r == calendar_date_of(secs as int),
        r matches Some((y, m, d)) ==> 1 <= m <= 12 && 1 <= d <= 31,
{
    match chrono::DateTime::from_timestamp(secs, 0) {
        Some(t) => Some(
            (chrono::Datelike::year(&t), chrono::Datelike::month(&t), chrono::Datelike::day(&t)),
        ),
        None => None,
    }
}

/// The local calendar date of a modification time, the local time being
/// `offset` seconds ahead of UTC.
pub open spec fn local_date_of(stamp: Stamp, offset: int) -> Result<CivilDate, Failure> {
    match stamp {
        Stamp::Unreadable => Err(Failure::MetadataUnavailable),
        Stamp::BeforeEpoch => Err(Failure::TimeConversionError),
        Stamp::Since(s) => {
            let local = s + offset;
            if local < i64::MIN || local > i64::MAX {
                Err(Failure::TimeConversionError)
            } else {
                match calendar_date_of(local) {
                    Some((y, m, d)) => Ok(CivilDate { year: y, month: m, day: d }),
                    None => Err(Failure::TimeConversionError),
                }
            }
        },
    }
}

/// Converts a modification time to a calendar date in the time zone whose
/// offset from UTC is `offset_secs` seconds.
pub fn local_date(stamp: Stamp, offset_secs: i32) -> (r: Result<CivilDate, Failure>)
    ensures
        r == local_date_of(stamp, offset_secs as int),
        r matches Ok(d) ==> d.wf(),
{
    match stamp {
        Stamp::Unreadable => Err(Failure::MetadataUnavailable),
        Stamp::BeforeEpoch => Err(Failure::TimeConversionError),
        Stamp::Since(s) => {
            let local: i128 = s as i128 + offset_secs as i128;
            if local < i64::MIN as i128 || local > i64::MAX as i128 {
                Err(Failure::TimeConversionError)
            } else {
                match utc_calendar_date(local as i64) {
                    Some((y, m, d)) => Ok(CivilDate { year: y, month: m, day: d }),
                    None => Err(Failure::TimeConversionError),
                }
            }
        },
    }
}

pub open spec fn digit_char(d: nat) -> char {
    if d == 0 { '0' }
    else if d == 1 { '1' }
    else if d == 2 { '2' }
    else if d == 3 { '3' }
    else if d == 4 { '4' }
    else if d == 5 { '5' }
    else if d == 6 { '6' }
    else if d == 7 { '7' }
    else if d == 8 { '8' }
    else { '9' }
}

/// The decimal digits of `n`, without leading zeros.
pub open spec fn decimal(n: nat) -> Seq<char>
    decreases n,
{
    if n < 10 {
        seq![digit_char(n)]
    } else {
        decimal(n / 10).push(digit_char(n % 10))
    }
}

/// The decimal form of an integer, with a leading `'-'` when negative.
pub open spec fn signed_decimal(n: int) -> Seq<char> {
    if n < 0 {
        seq!['-'] + decimal((-n) as nat)
    } else {
        decimal(n as nat)
    }
}

fn digit_str(d: u32) -> (r: &'static str)
    requires
        d < 10,
    ensures
        r@ == seq![digit_char(d as nat)],
{
    proof {
        reveal_strlit("0");
        reveal_strlit("1");
        reveal_strlit("2");
        reveal_strlit("3");
        reveal_strlit("4");
        reveal_strlit("5");
        reveal_strlit("6");
        reveal_strlit("7");
        reveal_strlit("8");
        reveal_strlit("9");
    }
    if d == 0 { "0" }
    else if d == 1 { "1" }
    else if d == 2 { "2" }
    else if d == 3 { "3" }
    else if d == 4 { "4" }
    else if d == 5 { "5" }
    else if d == 6 { "6" }
    else if d == 7 { "7" }
    else if d == 8 { "8" }
    else { "9" }
}

/// Renders `n` in decimal without zero-padding.
pub fn decimal_string(n: u32) -> (r: String)
    ensures
        r@ == decimal(n as nat),
    decreases n,
{
    if n < 10 {
        String::from_str(digit_str(n))
    } else {
        let mut s = decimal_string(n / 10);
        s.append(digit_str(n % 10));
        s
    }
}

/// Renders a year in decimal, with a leading `'-'` before year zero.
pub fn year_string(y: i32) -> (r: String)
    ensures
        r@ == signed_decimal(y as int),
{
    if y < 0 {
        let magnitude: u32 = if y == i32::MIN {
            2147483648u32
        } else {
            (-y) as u32
        };
        proof {
            reveal_strlit("-");
        }
        let s = String::from_str("-");
        s.concat(decimal_string(magnitude).as_str())
    } else {
        decimal_string(y as u32)
    }
}

/// The three directory names under which a file of this date is placed.
pub open spec fn date_segments(date: CivilDate) -> Seq<Seq<char>> {
    seq![
        signed_decimal(date.year as int),
        decimal(date.month as nat),
        decimal(date.day as nat),
    ]
}

/// Where a file named `name` in directory `dir` goes when its date is `date`:
/// `dir/year/month/day/name`.
pub open spec fn destination_of(dir: Seq<Seq<char>>, date: CivilDate, name: Seq<char>) -> Seq<
    Seq<char>,
> {
    dir + date_segments(date).push(name)
}

/// Copies a path, component by component.
pub fn copy_path(p: &Vec<String>) -> (r: Vec<String>)
    ensures
        r.deep_view() == p.deep_view(),
{
    let mut r: Vec<String> = Vec::new();
    let mut i: usize = 0;
    while i < p.len()
        invariant
            i <= p.len(),
            r@.len() == i,
            forall|k: int| 0 <= k < i ==> #[trigger] r@[k]@ == p@[k]@,
        decreases p.len() - i,
    {
        r.push(String::from_str(p[i].as_str()));
        i = i + 1;
    }
    proof {
        assert(r.deep_view() =~= p.deep_view());
    }
    r
}

/// Builds `dir/year/month/day/name` for a file of the given date.
pub fn destination(dir: &Vec<String>, date: CivilDate, name: &str) -> (r: Vec<String>)
    ensures
        r.deep_view() == destination_of(dir.deep_view(), date, name@),
{
    let mut r = copy_path(dir);
    r.push(year_string(date.year));
    r.push(decimal_string(date.month));
    r.push(decimal_string(date.day));
    r.push(String::from_str(name));
    proof {
        assert(r.deep_view() =~= destination_of(dir.deep_view(), date, name@));
    }
    r
}

} // verus!
