//! Small rules that several handlers share: how an icon reference becomes a
//! URL and back, how a partial update treats a text, and how the lifetime of
//! a token is written down.

use crate::errors::ServiceError;
use crate::text::{after, join2, join3, owned, same_text, starts_with, strip_prefix};
use vstd::prelude::*;

verus! {

/// The form of a lifetime: a number and one letter for the unit.
pub const EXPIRES_PATTERN: &'static str = "^(\\d+)([smhdwMy])$";

/// The longest lifetime, in seconds, that can be told: that of the longest
/// duration on the clock library's scale.
pub const MAX_SECONDS: i64 = 9_223_372_036_854_775;

/// Trusted: the type `regex::Error`, which says why a pattern was refused.
/// Nothing is known of its values.
#[verifier::external_type_specification]
#[verifier::external_body]
pub struct ExRegexError(regex::Error);

/// Trusted: the type `std::num::ParseIntError`, which says why a text is no
/// number. Nothing is known of its values.
#[verifier::external_type_specification]
#[verifier::external_body]
pub struct ExParseIntError(std::num::ParseIntError);

/// Whether `regex::Regex::new` accepts the pattern.
pub uninterp spec fn regex_compiles(pattern: Seq<char>) -> bool;

/// What `regex::Regex::captures` finds in `text` for a pattern that
/// compiles: `None` when the pattern does not match, else the text of every
/// group of the leftmost match, the whole match first, with `None` for a
/// group that took no part in it.
pub uninterp spec fn regex_groups(pattern: Seq<char>, text: Seq<char>) -> Option<
    Seq<Option<Seq<char>>>,
>;

/// The texts of the groups of a match.
pub open spec fn groups_view(groups: Seq<Option<String>>) -> Seq<Option<Seq<char>>> {
    Seq::new(
        groups.len(),
        |k: int|
            match groups[k] {
                Some(text) => Some(text@),
                None => None,
            },
    )
}

/// The texts of the groups of a match, where there is a match.
pub open spec fn found_view(found: Option<Vec<Option<String>>>) -> Option<Seq<Option<Seq<char>>>> {
    match found {
        Some(groups) => Some(groups_view(groups@)),
        None => None,
    }
}

/// Trusted: `regex::Regex::new` on `pattern`, then `Regex::captures` on
/// `text`, with each group copied out as a string. Both are functions of
/// their arguments alone; the contract gives their results the names
/// [`regex_compiles`] and [`regex_groups`] and claims nothing else of them.
#[verifier::external_body]
pub(crate) fn regex_captures(pattern: &str, text: &str) -> (r: Result<
    Option<Vec<Option<String>>>,
    regex::Error,
>)
    ensures
        match r {
            Ok(found) => regex_compiles(pattern@) && found_view(found) == regex_groups(
                pattern@,
                text@,
            ),
            Err(_) => !regex_compiles(pattern@),
        },
{
    let re = regex::Regex::new(pattern)?;
    Ok(
        re.captures(text).map(
            |caps| caps.iter().map(|group| group.map(|m| m.as_str().to_owned())).collect(),
        ),
    )
}

/// Trusted: `ToString::to_string` on a `regex::Error`: the text of the
/// error. Nothing is claimed of it.
#[verifier::external_body]
pub(crate) fn regex_error_text(error: &regex::Error) -> (text: String) {
    error.to_string()
}

/// The number that a run of decimal digits writes, `None` when the text is
/// empty or holds anything but the digits `0` to `9`.
pub open spec fn digits_value(text: Seq<char>) -> Option<nat>
    decreases text.len(),
{
    if text.len() == 0 {
        None
    } else if !('0' <= text.last() <= '9') {
        None
    } else if text.len() == 1 {
        Some((text.last() as nat - '0' as nat) as nat)
    } else {
        match digits_value(text.drop_last()) {
            Some(front) => Some((front * 10 + (text.last() as nat - '0' as nat)) as nat),
            None => None,
        }
    }
}

/// The number that a text writes in the way that `str::parse` reads
/// unsigned numbers: decimal digits, with a plus sign before them or none.
pub open spec fn number_value(text: Seq<char>) -> Option<nat> {
    if text.len() > 0 && text[0] == '+' {
        digits_value(text.subrange(1, text.len() as int))
    } else {
        digits_value(text)
    }
}

/// Trusted: `str::parse::<usize>`. The standard library documents that the
/// text is to be an optional plus sign followed by decimal digits only, and
/// that a number too large for the type is an error.
#[verifier::external_body]
pub(crate) fn parse_usize(text: &str) -> (r: Result<usize, std::num::ParseIntError>)
    ensures
        match r {
            Ok(n) => number_value(text@) == Some(n as nat),
            Err(_) => match number_value(text@) {
                Some(n) => n > usize::MAX,
                None => true,
            },
        },
{
    text.parse::<usize>()
}

/// Trusted: `ToString::to_string` on a `ParseIntError`: the text of the
/// error. Nothing is claimed of it.
#[verifier::external_body]
pub(crate) fn parse_error_text(error: &std::num::ParseIntError) -> (text: String) {
    error.to_string()
}

/// The seconds in one unit of a lifetime: second, minute, hour, day, week,
/// month of thirty days, year of 365 days.
pub open spec fn unit_seconds(unit: Seq<char>) -> Option<int> {
    if unit == "s"@ {
        Some(1)
    } else if unit == "m"@ {
        Some(60)
    } else if unit == "h"@ {
        Some(3600)
    } else if unit == "d"@ {
        Some(86400)
    } else if unit == "w"@ {
        Some(604800)
    } else if unit == "M"@ {
        Some(2592000)
    } else if unit == "y"@ {
        Some(31536000)
    } else {
        None
    }
}

/// The group number `k` of a match, where the match has it.
pub open spec fn group(groups: Seq<Option<Seq<char>>>, k: int) -> Option<Seq<char>> {
    if 0 <= k < groups.len() {
        groups[k]
    } else {
        None
    }
}

/// The lifetime in seconds that the groups of a match tell: the number of
/// the first group times the unit of the second. `None` when a group is
/// missing, the number is no number or does not fit the machine word, the
/// unit is none of the seven, or the lifetime is longer than
/// [`MAX_SECONDS`].
pub open spec fn seconds_told(groups: Seq<Option<Seq<char>>>) -> Option<int> {
    match (group(groups, 1), group(groups, 2)) {
        (Some(number), Some(unit)) => match (number_value(number), unit_seconds(unit)) {
            (Some(n), Some(u)) => if n <= usize::MAX && n * u <= MAX_SECONDS {
                Some(n * u)
            } else {
                None
            },
            _ => None,
        },
        _ => None,
    }
}

/// The message of the error, if any, that the groups of a match lead to
/// where the message is the library's own: a missing group or an unknown
/// unit is an invalid format, too long a lifetime is out of range. A number
/// that is no number is reported in the words of the standard library.
pub open spec fn format_complaint(groups: Seq<Option<Seq<char>>>) -> Option<Seq<char>> {
    match group(groups, 1) {
        None => Some("Invalid expires format"@),
        Some(number) => match number_value(number) {
            None => None,
            Some(n) => if n > usize::MAX {
                None
            } else {
                match group(groups, 2) {
                    None => Some("Invalid expires format"@),
                    Some(unit) => match unit_seconds(unit) {
                        None => Some("Invalid expires format"@),
                        Some(u) => if n * u > MAX_SECONDS {
                            Some("Expires out of range"@)
                        } else {
                            None
                        },
                    },
                }
            },
        },
    }
}

/// Reads the unit of a lifetime.
pub fn seconds_per_unit(unit: &str) -> (r: Option<i64>)
    ensures
        match r {
            Some(u) => unit_seconds(unit@) == Some(u as int),
            None => unit_seconds(unit@).is_none(),
        },
{
    if same_text(unit, "s") {
        Some(1)
    } else if same_text(unit, "m") {
        Some(60)
    } else if same_text(unit, "h") {
        Some(3600)
    } else if same_text(unit, "d") {
        Some(86400)
    } else if same_text(unit, "w") {
        Some(604800)
    } else if same_text(unit, "M") {
        Some(2592000)
    } else if same_text(unit, "y") {
        Some(31536000)
    } else {
        None
    }
}

/// Turns the groups of a match of [`EXPIRES_PATTERN`] into a lifetime in
/// seconds.
///
/// Fails with `FormatError` when the groups tell no lifetime: see
/// [`seconds_told`] and, for the message, [`format_complaint`].
pub fn duration_from_captures(groups: &Vec<Option<String>>) -> (r: Result<i64, ServiceError>)
    ensures
        match r {
            Ok(seconds) => seconds_told(groups_view(groups@)) == Some(seconds as int),
            Err(e) => {
                &&& seconds_told(groups_view(groups@)).is_none()
                &&& e is FormatError
                &&& format_complaint(groups_view(groups@)) matches Some(text) ==> e->FormatError_0@
                    == text
            },
        },
{
    let number: &str = if groups.len() > 1 {
        match &groups[1] {
            Some(text) => text.as_str(),
            None => {
                return Err(ServiceError::FormatError(owned("Invalid expires format")));
            },
        }
    } else {
        return Err(ServiceError::FormatError(owned("Invalid expires format")));
    };
    let num: usize = match parse_usize(number) {
        Ok(n) => n,
        Err(e) => {
            return Err(ServiceError::FormatError(parse_error_text(&e)));
        },
    };
    let unit: &str = if groups.len() > 2 {
        match &groups[2] {
            Some(text) => text.as_str(),
            None => {
                return Err(ServiceError::FormatError(owned("Invalid expires format")));
            },
        }
    } else {
        return Err(ServiceError::FormatError(owned("Invalid expires format")));
    };
    let per_unit: i64 = match seconds_per_unit(unit) {
        Some(u) => u,
        None => {
            return Err(ServiceError::FormatError(owned("Invalid expires format")));
        },
    };
    let wide: u128 = num as u128;
    assert(wide * (per_unit as u128) <= 0xffff_ffff_ffff_ffff * 31536000) by (nonlinear_arith)
        requires
            wide <= 0xffff_ffff_ffff_ffff,
            0 < per_unit <= 31536000,
    ;
    let seconds: u128 = wide * (per_unit as u128);
    if seconds > MAX_SECONDS as u128 {
        return Err(ServiceError::FormatError(owned("Expires out of range")));
    }
    Ok(seconds as i64)
}

/// The lifetime in seconds that a text tells, `None` when it tells none.
pub open spec fn lifetime_of(expires: Seq<char>) -> Option<int> {
    if regex_compiles(EXPIRES_PATTERN@) {
        match regex_groups(EXPIRES_PATTERN@, expires) {
            Some(groups) => seconds_told(groups),
            None => None,
        }
    } else {
        None
    }
}

/// Reads a lifetime such as `10s`, `1h` or `2w`: a number and a unit, one of
/// `s`, `m`, `h`, `d`, `w`, `M` (thirty days) and `y` (365 days). The result
/// is in seconds.
///
/// Fails with `FormatError` when the text does not match
/// [`EXPIRES_PATTERN`] or its groups tell no lifetime.
pub fn parse_duration(expires: &str) -> (r: Result<i64, ServiceError>)
    ensures
        match r {
            Ok(seconds) => lifetime_of(expires@) == Some(seconds as int),
            Err(e) => lifetime_of(expires@).is_none() && e is FormatError,
        },
        regex_compiles(EXPIRES_PATTERN@) && regex_groups(EXPIRES_PATTERN@, expires@).is_none() ==> (r
            matches Err(e) && e@ == crate::errors::ErrorView::FormatError(
            "Invalid expires format"@,
        )),
{
    match regex_captures(EXPIRES_PATTERN, expires) {
        Err(e) => Err(ServiceError::FormatError(regex_error_text(&e))),
        Ok(None) => Err(ServiceError::FormatError(owned("Invalid expires format"))),
        Ok(Some(groups)) => duration_from_captures(&groups),
    }
}

/// The moment, in seconds since the epoch, at which a lifetime of `offset`
/// seconds that begins at `now` is over.
///
/// Fails with `FormatError` when that moment cannot be told in 64 bits.
pub fn expires_at(now: i64, offset: i64) -> (r: Result<i64, ServiceError>)
    ensures
        match r {
            Ok(moment) => moment == now + offset,
            Err(e) => (now + offset < i64::MIN || now + offset > i64::MAX) && e@
                == crate::errors::ErrorView::FormatError("Expires out of range"@),
        },
{
    match now.checked_add(offset) {
        Some(moment) => Ok(moment),
        None => Err(ServiceError::FormatError(owned("Expires out of range"))),
    }
}

/// The moment, in seconds since the epoch, at which a lifetime that begins
/// now is over.
///
/// Fails with `FormatError` when the text tells no lifetime, or the moment
/// cannot be told in 64 bits. The clock is read once per call, so nothing is
/// known of the moment but that it lies the lifetime after some time of the
/// clock.
pub fn calculate_expires(expires: &str) -> (r: Result<i64, ServiceError>)
    ensures
        match r {
            Ok(moment) => match lifetime_of(expires@) {
                Some(seconds) => i64::MIN <= moment - seconds <= i64::MAX,
                None => false,
            },
            Err(e) => e is FormatError,
        },
{
    let now = unix_now();
    let offset = match parse_duration(expires) {
        Ok(seconds) => seconds,
        Err(e) => {
            return Err(e);
        },
    };
    expires_at(now, offset)
}

/// An icon reference that is already a full URL.
pub open spec fn is_absolute(url: Seq<char>) -> bool {
    "http://"@.is_prefix_of(url) || "https://"@.is_prefix_of(url)
}

/// The URL under which an icon is served: the reference itself when it is a
/// full URL, else the reference below the upload base.
pub open spec fn served_at(icon: Seq<char>, upload_url: Seq<char>) -> Seq<char> {
    if is_absolute(icon) {
        icon
    } else {
        upload_url + "/"@ + icon
    }
}

/// The reference that is stored for an icon URL: a full URL as it is, a URL
/// below the upload base without the base and the slash after it, anything
/// else as it is. No reference can be stored for a URL that begins with the
/// upload base and does not go on with a slash.
pub open spec fn stored_as(url: Seq<char>, upload_url: Seq<char>) -> Option<Seq<char>> {
    if is_absolute(url) {
        Some(url)
    } else if upload_url.is_prefix_of(url) {
        if (upload_url + "/"@).is_prefix_of(url) {
            Some(after(url, upload_url.len() + 1))
        } else {
            None
        }
    } else {
        Some(url)
    }
}

/// Trusted: `chrono::Utc::now`, read in whole seconds with
/// `DateTime::timestamp`. The value comes from the system clock, so nothing
/// is claimed of it; `chrono` stops the program when that clock stands before
/// 1970.
#[verifier::external_body]
pub(crate) fn unix_now() -> (seconds: i64) {
    chrono::Utc::now().timestamp()
}

/// The value of a text field after a partial update: the new text when one
/// is given and is not empty, else the text that was there.
pub open spec fn kept_or(current: Seq<char>, change: Option<&str>) -> Seq<char> {
    match change {
        Some(text) => if text@.len() == 0 {
            current
        } else {
            text@
        },
        None => current,
    }
}

/// Applies a partial update to one text field. An empty text counts as no
/// text: it cannot clear the field.
pub fn keep_or(current: &String, change: Option<&str>) -> (r: String)
    ensures
        r@ == kept_or(current@, change),
{
    match change {
        Some(text) => {
            if text.is_empty() {
                current.clone()
            } else {
                owned(text)
            }
        },
        None => current.clone(),
    }
}

/// Tells a full URL from a file name.
pub fn is_absolute_url(url: &str) -> (r: bool)
    ensures
        r == is_absolute(url@),
{
    starts_with(url, "http://") || starts_with(url, "https://")
}

/// Turns a stored icon reference into the URL that a client can fetch.
pub fn icon_url(icon: &str, upload_url: &str) -> (r: String)
    ensures
        r@ == served_at(icon@, upload_url@),
{
    if is_absolute_url(icon) {
        owned(icon)
    } else {
        join3(upload_url, "/", icon)
    }
}

/// Turns the icon URL of a request into the reference that is stored: the
/// inverse of [`icon_url`] on what that function produces.
pub fn standardize_url<'r>(url: &'r str, upload_url: &'r str) -> (r: Option<String>)
    ensures
        match r {
            Some(reference) => stored_as(url@, upload_url@) == Some(reference@),
            None => stored_as(url@, upload_url@).is_none(),
        },
{
    if is_absolute_url(url) {
        return Some(owned(url));
    } else if starts_with(url, upload_url) {
        let base = join2(upload_url, "/");
        proof {
            reveal_strlit("/");
            assert("/"@.len() == 1);
        }
        return match strip_prefix(url, base.as_str()) {
            Some(rest) => Some(owned(rest)),
            None => None,
        };
    }
    Some(owned(url))
}

/// What is stored for a file name is what is served again: storing the URL
/// of an icon that lies below the upload base gives back its reference.
pub proof fn lemma_stored_as_inverts_served_at(icon: Seq<char>, upload_url: Seq<char>)
    requires
        !is_absolute(icon),
        !is_absolute(upload_url + "/"@ + icon),
    ensures
        stored_as(served_at(icon, upload_url), upload_url) == Some(icon),
{
    reveal_strlit("/");
    let url = upload_url + "/"@ + icon;
    assert(url.subrange(0, upload_url.len() as int) =~= upload_url);
    assert(url.subrange(0, (upload_url.len() + 1) as int) =~= upload_url + "/"@);
    assert(after(url, upload_url.len() + 1) =~= icon);
}

} // verus!
