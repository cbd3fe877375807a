//! Naming a new migration unit: a directory named by a timestamp and a
//! name, with an empty up script and an empty down script in it.
use vstd::prelude::*;
use vstd::string::StringExecFns;

use crate::order::ids_of;

verus! {

/// A wall-clock time, to the second.
#[derive(Clone, Copy, Debug, PartialEq, Eq, Structural)]
pub struct Stamp {
    pub year: i32,
    pub month: u32,
    pub day: u32,
    pub hour: u32,
    pub minute: u32,
    pub second: u32,
}

pub open spec fn digit(d: int) -> char {
    seq!['0', '1', '2', '3', '4', '5', '6', '7', '8', '9'][d]
}

/// The last `w` decimal digits of `n`, zero-padded.
pub open spec fn digits(n: int, w: nat) -> Seq<char>
    decreases w,
{
    if w == 0 {
        Seq::empty()
    } else {
        digits(n / 10, (w - 1) as nat).push(digit(n % 10))
    }
}

pub open spec fn is_leap_year(y: int) -> bool {
    (y % 4 == 0 && y % 100 != 0) || y % 400 == 0
}

/// The number of days of month `m` (1 to 12) of year `y`.
pub open spec fn days_in_month(y: int, m: int) -> int {
    if m == 2 {
        if is_leap_year(y) {
            29
        } else {
            28
        }
    } else if m == 4 || m == 6 || m == 9 || m == 11 {
        30
    } else {
        31
    }
}

/// A date and time of day that exist: no leap second, no 24:00.
pub open spec fn valid_stamp(t: Stamp) -> bool {
    &&& 1 <= t.month <= 12
    &&& 1 <= t.day <= days_in_month(t.year as int, t.month as int)
    &&& t.hour < 24
    &&& t.minute < 60
    &&& t.second < 60
}

/// `YYYY-MM-DD-HHMMSS`.
pub open spec fn stamp_text(t: Stamp) -> Seq<char> {
    digits(t.year as int, 4) + seq!['-'] + digits(t.month as int, 2) + seq!['-'] + digits(
        t.day as int,
        2,
    ) + seq!['-'] + digits(t.hour as int, 2) + digits(t.minute as int, 2) + digits(
        t.second as int,
        2,
    )
}

/// Relies on chrono's `NaiveDate::from_ymd_opt` and `and_hms_opt`, which give
/// `None` exactly for a date or a time of day that does not exist, and on `format` with
/// `%Y-%m-%d-%H%M%S`, which writes a year of 0 to 9999 as four digits and the
/// other fields as two, all zero-padded.
#[verifier::external_body]
fn format_stamp(t: &Stamp) -> (r: Option<String>)
    requires
        0 <= t.year <= 9999,
    ensures
        r matches Some(s) ==> s@ == stamp_text(*t),
        r is Some <==> valid_stamp(*t),
{
    let date = chrono::NaiveDate::from_ymd_opt(t.year, t.month, t.day)?;
    let time = date.and_hms_opt(t.hour, t.minute, t.second)?;
    Some(time.format("%Y-%m-%d-%H%M%S").to_string())
}

/// The paths of a new migration unit.
#[derive(Debug)]
pub struct Scaffold {
    pub dir: String,
    pub up: String,
    pub down: String,
}

pub open spec fn unit_dir(root: Seq<char>, stamp: Seq<char>, name: Seq<char>) -> Seq<char> {
    root + seq!['/'] + stamp + seq!['_'] + name
}

pub open spec fn up_file() -> Seq<char> {
    seq!['/', 'u', 'p', '.', 'c', 'q', 'l']
}

pub open spec fn down_file() -> Seq<char> {
    seq!['/', 'd', 'o', 'w', 'n', '.', 'c', 'q', 'l']
}

/// The paths for migration `name` created at `stamp` under `root`.
pub fn unit_paths(root: &str, stamp: &str, name: &str) -> (r: Scaffold)
    ensures
        r.dir@ == unit_dir(root@, stamp@, name@),
        r.up@ == unit_dir(root@, stamp@, name@) + up_file(),
        r.down@ == unit_dir(root@, stamp@, name@) + down_file(),
{
    proof {
        reveal_strlit("/");
        reveal_strlit("_");
        reveal_strlit("/up.cql");
        reveal_strlit("/down.cql");
    }
    let dir = String::from_str(root).concat("/").concat(stamp).concat("_").concat(name);
    let up = dir.clone().concat("/up.cql");
    let down = dir.clone().concat("/down.cql");
    assert(dir@ =~= unit_dir(root@, stamp@, name@));
    Scaffold { dir, up, down }
}

/// Why no unit can be named.
#[derive(Clone, Copy, Debug, PartialEq, Eq, Structural)]
pub enum ScaffoldError {
    /// No name was given after the command.
    MissingName,
    /// The time cannot be written as a stamp.
    BadTime,
}

/// Plans `generate <name>`: the name is the last argument, and there must be
/// one after the program and the command.
pub fn plan_unit(args: &Vec<String>, root: &str, now: Stamp) -> (r: Result<Scaffold, ScaffoldError>)
    ensures
        args@.len() < 3 ==> r == Err::<Scaffold, ScaffoldError>(ScaffoldError::MissingName),
        args@.len() >= 3 && !(0 <= now.year <= 9999) ==> r == Err::<Scaffold, ScaffoldError>(
            ScaffoldError::BadTime,
        ),
        args@.len() >= 3 && 0 <= now.year <= 9999 && !valid_stamp(now) ==> r == Err::<
            Scaffold,
            ScaffoldError,
        >(ScaffoldError::BadTime),
        r is Ok <==> (args@.len() >= 3 && 0 <= now.year <= 9999 && valid_stamp(now)),
        r matches Ok(s) ==> s.dir@ == unit_dir(root@, stamp_text(now), ids_of(args@).last())
            && s.up@ == s.dir@ + up_file() && s.down@ == s.dir@ + down_file(),
{
    if args.len() < 3 {
        return Err(ScaffoldError::MissingName);
    }
    if now.year < 0 || now.year > 9999 {
        return Err(ScaffoldError::BadTime);
    }
    match format_stamp(&now) {
        Some(stamp) => {
            let name = &args[args.len() - 1];
            Ok(unit_paths(root, stamp.as_str(), name.as_str()))
        },
        None => Err(ScaffoldError::BadTime),
    }
}

} // verus!
