//! Version stamping for builds: the version with its release channel, the
//! commit it was built from, and the date it was built on.

use vstd::prelude::*;

use crate::keyed::compare_keys;
use crate::text::{
    chars_of, concat2, decimal, decimal_string, parse_i64, parsed_i64, push_char, push_str,
    string_of, trim_white, trim_white_vec,
};

verus! {

/// The release channels a build may be made for.
pub open spec fn known_channel(channel: Seq<char>) -> bool {
    channel == "stable"@ || channel == "nightly"@ || channel == "dev"@
}

/// The version suffix of a channel: only `stable` ships unsuffixed; the
/// others are pre-releases that sort `-dev` before `-nightly` before the
/// release.
pub open spec fn suffix_of(channel: Seq<char>) -> Seq<char> {
    if channel == "stable"@ {
        Seq::empty()
    } else if channel == "nightly"@ {
        "-nightly"@
    } else {
        "-dev"@
    }
}

/// Only `stable` ships without a suffix; every other channel marks a
/// pre-release with a leading `-`.
pub proof fn lemma_only_stable_is_unsuffixed(channel: Seq<char>)
    requires
        known_channel(channel),
    ensures
        suffix_of(channel).len() == 0 <==> channel == "stable"@,
        channel != "stable"@ ==> suffix_of(channel).len() > 0 && suffix_of(channel)[0] == '-',
{
    reveal_strlit("-nightly");
    reveal_strlit("-dev");
}

/// Whether `channel` is a release channel.
pub fn is_known_channel(channel: &str) -> (r: bool)
    ensures
        r == known_channel(channel@),
{
    compare_keys(channel, "stable") == 0 || compare_keys(channel, "nightly") == 0 || compare_keys(
        channel,
        "dev",
    ) == 0
}

/// The version suffix of a release channel.
pub fn channel_suffix(channel: &str) -> (r: &'static str)
    requires
        known_channel(channel@),
    ensures
        r@ == suffix_of(channel@),
{
    if compare_keys(channel, "stable") == 0 {
        proof {
            reveal_strlit("");
        }
        ""
    } else if compare_keys(channel, "nightly") == 0 {
        "-nightly"
    } else {
        "-dev"
    }
}

/// The channel a build is made for: the one configured where it is not
/// empty, else `dev`.
pub fn release_channel(configured: Option<&str>) -> (r: String)
    ensures
        r@ == (match configured {
            Some(c) => if c@.len() > 0 {
                c@
            } else {
                "dev"@
            },
            None => "dev"@,
        }),
{
    match configured {
        Some(c) => {
            if !c.is_empty() {
                c.to_owned()
            } else {
                "dev".to_owned()
            }
        },
        None => "dev".to_owned(),
    }
}

/// The version a build is stamped with: the crate's version and the
/// channel's suffix.
pub fn stamped_version(version: &str, channel: &str) -> (r: String)
    requires
        known_channel(channel@),
    ensures
        r@ == version@ + suffix_of(channel@),
{
    concat2(version, channel_suffix(channel))
}

/// The text of bytes read as UTF-8, with U+FFFD in place of each invalid
/// sequence.
pub uninterp spec fn utf8_lossy(bytes: Seq<u8>) -> Seq<char>;

/// The text of bytes read as UTF-8 (`String::from_utf8_lossy`).
#[verifier::external_body]
fn lossy_text(bytes: &[u8]) -> (r: String)
    ensures
        r@ == utf8_lossy(bytes@),
{
    String::from_utf8_lossy(bytes).into_owned()
}

/// What a git command printed, trimmed: nothing where it failed or printed
/// only white space.
pub fn git_output(success: bool, stdout: &[u8]) -> (r: Option<String>)
    ensures
        !success ==> r is None,
        success && trim_white(utf8_lossy(stdout@)).len() == 0 ==> r is None,
        success && trim_white(utf8_lossy(stdout@)).len() > 0 ==> (r matches Some(s) && s@
            == trim_white(utf8_lossy(stdout@))),
{
    if !success {
        return None;
    }
    let text = lossy_text(stdout);
    let v = chars_of(text.as_str());
    let t = trim_white_vec(&v);
    if t.len() == 0 {
        None
    } else {
        Some(string_of(&t))
    }
}

/// The commit a build is stamped with: the configured one where it is not
/// empty, else what git describes, else `unknown`.
pub fn commit_sha(configured: Option<&str>, described: Option<String>) -> (r: String)
    ensures
        r@ == (match configured {
            Some(c) if c@.len() > 0 => c@,
            _ => match described {
                Some(d) => d@,
                None => "unknown"@,
            },
        }),
{
    match configured {
        Some(c) => {
            if !c.is_empty() {
                return c.to_owned();
            }
        },
        None => {},
    }
    match described {
        Some(d) => d,
        None => "unknown".to_owned(),
    }
}

/// The civil date (year, month, day) in UTC of a Unix timestamp in seconds,
/// where the timestamp is within the years the date library represents.
pub uninterp spec fn unix_civil_date(epoch: i64) -> Option<(i32, u8, u8)>;

/// The UTC date of a Unix timestamp (`time::OffsetDateTime::from_unix_timestamp`,
/// then its year, month and day). It is absent where the timestamp is out of
/// the library's range, years -9999 to 9999; months and days are in their
/// calendar ranges.
#[verifier::external_body]
fn civil_date_of(epoch: i64) -> (r: Option<(i32, u8, u8)>)
    ensures
        r == unix_civil_date(epoch),
        r matches Some(d) ==> -9999 <= d.0 <= 9999 && 1 <= d.1 <= 12 && 1 <= d.2 <= 31,
{
    match time::OffsetDateTime::from_unix_timestamp(epoch) {
        Ok(dt) => Some((dt.year(), u8::from(dt.month()), dt.day())),
        Err(_) => None,
    }
}

/// `n` in decimal, with leading zeros up to `width` digits.
pub open spec fn padded(n: nat, width: nat) -> Seq<char>
    decreases width,
{
    if decimal(n).len() >= width || width == 0 {
        decimal(n)
    } else {
        seq!['0'] + padded(n, (width - 1) as nat)
    }
}

/// A date as `YYYY-MM-DD`, each part zero-padded, a negative year with a
/// leading `-`.
pub open spec fn date_text(y: int, m: nat, d: nat) -> Seq<char> {
    (if y < 0 {
        seq!['-']
    } else {
        Seq::empty()
    }) + padded((if y < 0 {
        -y
    } else {
        y
    }) as nat, 4) + seq!['-'] + padded(m, 2) + seq!['-'] + padded(d, 2)
}

fn push_padded(s: &mut String, n: u64, width: u64)
    ensures
        final(s)@ == old(s)@ + padded(n as nat, width as nat),
    decreases width,
{
    let ghost start = s@;
    let digits = decimal_string(n);
    let dv = chars_of(digits.as_str());
    if (dv.len() as u64) >= width || width == 0 {
        push_str(s, digits.as_str());
    } else {
        push_char(s, '0');
        push_padded(s, n, width - 1);
        assert(s@ =~= start + padded(n as nat, width as nat));
    }
}

/// The date of a Unix timestamp as `YYYY-MM-DD`, where the timestamp is in
/// range.
pub open spec fn date_of(epoch: i64) -> Option<Seq<char>> {
    match unix_civil_date(epoch) {
        Some(d) => Some(date_text(d.0 as int, d.1 as nat, d.2 as nat)),
        None => None,
    }
}

/// The timestamp a build is dated by: the configured one where it is a
/// number, else the commit's where that is one.
pub open spec fn build_epoch(configured: Option<Seq<char>>, committed: Option<Seq<char>>) -> Option<i64> {
    let from_env = match configured {
        Some(c) => parsed_i64(c),
        None => None,
    };
    match from_env {
        Some(e) => Some(e),
        None => match committed {
            Some(c) => parsed_i64(c),
            None => None,
        },
    }
}

/// A configured timestamp that is a number dates the build, whatever the
/// commit's timestamp.
pub proof fn lemma_configured_epoch_wins(configured: Seq<char>, committed: Option<Seq<char>>)
    requires
        parsed_i64(configured) is Some,
    ensures
        build_epoch(Some(configured), committed) == parsed_i64(configured),
{
}

/// Where no configured timestamp is a number, the build is dated by the
/// commit's timestamp where that is one, and by nothing otherwise.
pub proof fn lemma_commit_epoch_otherwise(configured: Option<Seq<char>>, committed: Option<Seq<char>>)
    requires
        match configured {
            Some(c) => parsed_i64(c) is None,
            None => true,
        },
    ensures
        build_epoch(configured, committed) == match committed {
            Some(t) => parsed_i64(t),
            None => None::<i64>,
        },
{
}

fn parse_epoch(o: Option<&str>) -> (r: Option<i64>)
    ensures
        r == (match o {
            Some(s) => parsed_i64(s@),
            None => None,
        }),
{
    match o {
        Some(s) => {
            let v = chars_of(s);
            parse_i64(&v)
        },
        None => None,
    }
}

/// The date a build is stamped with: that of the configured timestamp, else
/// that of the commit's, else `unknown`.
pub fn build_date(configured: Option<&str>, committed: Option<&str>) -> (r: String)
    ensures
        r@ == (match build_epoch(
            match configured {
                Some(s) => Some(s@),
                None => None,
            },
            match committed {
                Some(s) => Some(s@),
                None => None,
            },
        ) {
            Some(e) => match date_of(e) {
                Some(t) => t,
                None => "unknown"@,
            },
            None => "unknown"@,
        }),
{
    let epoch = match parse_epoch(configured) {
        Some(e) => Some(e),
        None => parse_epoch(committed),
    };
    match epoch {
        Some(e) => match civil_date_of(e) {
            Some((y, m, d)) => {
                let mut s = String::new();
                let ay: u64 = if y < 0 {
                    push_char(&mut s, '-');
                    (-(y as i64)) as u64
                } else {
                    y as u64
                };
                push_padded(&mut s, ay, 4);
                push_char(&mut s, '-');
                push_padded(&mut s, m as u64, 2);
                push_char(&mut s, '-');
                push_padded(&mut s, d as u64, 2);
                assert(s@ =~= date_text(y as int, m as nat, d as nat));
                s
            },
            None => "unknown".to_owned(),
        },
        None => "unknown".to_owned(),
    }
}

} // verus!
