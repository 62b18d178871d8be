use vstd::prelude::*;

use crate::text::{
    chars_of, decimal, decimal_text, lines, lines_of, parse_u128, parsed_u128, split_char,
    split_on, split_words, string_of, trim, trimmed, views, words,
};

verus! {

/// `a / b` rounded toward zero, as integer division does on machine integers.
pub open spec fn trunc_div(a: int, b: int) -> int {
    if a >= 0 {
        a / b
    } else {
        -((-a) / b)
    }
}

/// The remainder that goes with `trunc_div`: it takes the sign of `a`.
pub open spec fn trunc_rem(a: int, b: int) -> int {
    a - b * trunc_div(a, b)
}

/// The decimal numeral of `n`, with a minus sign where it is negative.
pub open spec fn signed_decimal(n: int) -> Seq<char> {
    if n < 0 {
        "-"@ + decimal((-n) as nat)
    } else {
        decimal(n as nat)
    }
}

/// `"<h> hours, <m> minutes"` for `secs` seconds: whole hours, and whole minutes
/// past the hour, both rounded toward zero.
pub open spec fn uptime_phrase(secs: int) -> Seq<char> {
    signed_decimal(trunc_div(secs, 3600)) + " hours, "@ + signed_decimal(
        trunc_rem(trunc_div(secs, 60), 60),
    ) + " minutes"@
}

fn signed_text(negative: bool, magnitude: u128) -> (r: String)
    ensures
        r@ == signed_decimal(
            if negative {
                -(magnitude as int)
            } else {
                magnitude as int
            },
        ),
{
    if negative && magnitude > 0 {
        String::from_str("-").concat(decimal_text(magnitude).as_str())
    } else {
        decimal_text(magnitude)
    }
}

/// How long `secs` seconds are, in hours and minutes.
pub fn uptime_text(secs: i128) -> (r: String)
    ensures
        r@ == uptime_phrase(secs as int),
{
    let negative = secs < 0;
    let magnitude: u128 = if negative {
        (-(secs + 1)) as u128 + 1
    } else {
        secs as u128
    };
    assert(magnitude as int == if negative {
        -(secs as int)
    } else {
        secs as int
    });
    let hours = magnitude / 3600;
    let minutes = (magnitude / 60) % 60;
    let h = signed_text(negative, hours);
    let m = signed_text(negative, minutes);
    assert(trunc_div(secs as int, 3600) == if negative {
        -(hours as int)
    } else {
        hours as int
    });
    assert(trunc_rem(trunc_div(secs as int, 60), 60) == if negative {
        -(minutes as int)
    } else {
        minutes as int
    });
    h.concat(" hours, ").concat(m.as_str()).concat(" minutes")
}

/// Seconds from `boot` to `now`, each given as whole seconds since the UNIX epoch
/// and nanoseconds past that second, rounded toward zero.
pub open spec fn elapsed(now: (i64, u32), boot: (i64, u32)) -> int {
    trunc_div(
        (now.0 - boot.0) * 1_000_000_000 + (now.1 - boot.1),
        1_000_000_000,
    )
}

/// Seconds from `boot` to `now`, rounded toward zero.
pub fn elapsed_seconds(now: (i64, u32), boot: (i64, u32)) -> (r: i128)
    ensures
        r as int == elapsed(now, boot),
{
    let total: i128 = (now.0 as i128 - boot.0 as i128) * 1_000_000_000 + (now.1 as i128
        - boot.1 as i128);
    if total >= 0 {
        (total as u128 / 1_000_000_000) as i128
    } else {
        -(((-total) as u128 / 1_000_000_000) as i128)
    }
}

/// Relies on chrono's `DateTime::parse_from_str` with the `wmic` time format
/// `%Y%m%d%H%M%S.%f%z`, and the instant's `timestamp` and
/// `timestamp_subsec_nanos`: which instant a text names depends on the text alone.
pub uninterp spec fn wmic_instant(s: Seq<char>) -> Option<(i64, u32)>;

/// Relies on chrono's `DateTime::parse_from_str`, read through `timestamp` and
/// `timestamp_subsec_nanos`.
#[verifier::external_body]
fn parse_wmic_time(s: &str) -> (r: Option<(i64, u32)>)
    ensures
        r == wmic_instant(s@),
{
    chrono::DateTime::parse_from_str(s, "%Y%m%d%H%M%S.%f%z").ok().map(
        |d| (d.timestamp(), d.timestamp_subsec_nanos()),
    )
}

/// Relies on chrono's `DateTime::from_timestamp`: an instant in chrono's range
/// keeps the seconds it was made from, with no nanoseconds; that range spans more
/// than 262,000 years either side of the epoch, so it holds every stamp within
/// 10^12 seconds of it.
#[verifier::external_body]
fn utc_instant(stamp: i64) -> (r: Option<(i64, u32)>)
    ensures
        r matches Some(p) ==> p == (stamp, 0u32),
        -1_000_000_000_000 <= stamp <= 1_000_000_000_000 ==> r is Some,
{
    chrono::DateTime::from_timestamp(stamp, 0).map(|d| (d.timestamp(), d.timestamp_subsec_nanos()))
}

/// The boot time that `wmic os get LastBootUpTime` prints: its second line,
/// trimmed, or `0` where there is none.
pub open spec fn wmic_boot_text(output: Seq<char>) -> Seq<char> {
    if lines_of(output).len() > 1 {
        trim(lines_of(output)[1])
    } else {
        "0"@
    }
}

/// How long the machine has run at instant `now` (seconds since the UNIX epoch
/// and nanoseconds past that second), from the output of
/// `wmic os get LastBootUpTime`; `None` where the boot time cannot be read.
pub fn uptime_from_wmic(output: &str, now: (i64, u32)) -> (r: Option<String>)
    ensures
        r is Some <==> wmic_instant(wmic_boot_text(output@)) is Some,
        r matches Some(t) ==> t@ == uptime_phrase(
            elapsed(now, wmic_instant(wmic_boot_text(output@))->Some_0),
        ),
{
    let ls = lines(&chars_of(output));
    assert(ls@.len() == views(ls@).len());
    let boot_text = if ls.len() > 1 {
        assert(ls@[1]@ == views(ls@)[1]);
        string_of(&trimmed(&ls[1]))
    } else {
        String::from_str("0")
    };
    match parse_wmic_time(boot_text.as_str()) {
        None => None,
        Some(boot) => Some(uptime_text(elapsed_seconds(now, boot))),
    }
}

/// `s` read as a signed 64-bit number, as `str::parse` does: an optional sign,
/// then one digit or more, and a value that fits.
pub open spec fn parsed_i64(s: Seq<char>) -> Option<i64> {
    if s.len() > 0 && s[0] == '-' {
        let rest = s.subrange(1, s.len() as int);
        if rest.len() > 0 && rest[0] != '+' {
            match parsed_u128(rest) {
                Some(v) => if v <= 0x8000_0000_0000_0000 {
                    Some((-(v as int)) as i64)
                } else {
                    None
                },
                None => None,
            }
        } else {
            None
        }
    } else {
        match parsed_u128(s) {
            Some(v) => if v <= 0x7fff_ffff_ffff_ffff {
                Some(v as i64)
            } else {
                None
            },
            None => None,
        }
    }
}

/// `s` read as a signed 64-bit number.
pub fn parse_i64(s: &Vec<char>) -> (r: Option<i64>)
    ensures
        r == parsed_i64(s@),
{
    if s.len() > 0 && s[0] == '-' {
        let rest = crate::text::slice(s, 1, s.len());
        if rest.len() > 0 && rest[0] != '+' {
            match parse_u128(&rest) {
                Some(v) => if v <= 0x8000_0000_0000_0000 {
                    Some((-(v as i128)) as i64)
                } else {
                    None
                },
                None => None,
            }
        } else {
            None
        }
    } else {
        match parse_u128(s) {
            Some(v) => if v <= 0x7fff_ffff_ffff_ffff {
                Some(v as i64)
            } else {
                None
            },
            None => None,
        }
    }
}

/// `s` without commas at either end.
pub open spec fn trim_commas(s: Seq<char>) -> Seq<char>
    decreases s.len(),
{
    if s.len() > 0 && s[0] == ',' {
        trim_commas(s.subrange(1, s.len() as int))
    } else if s.len() > 0 && s.last() == ',' {
        trim_commas(s.drop_last())
    } else {
        s
    }
}

fn strip_commas(s: &Vec<char>) -> (r: Vec<char>)
    ensures
        r@ == trim_commas(s@),
{
    let mut a: usize = 0;
    let mut b: usize = s.len();
    assert(s@.subrange(0, s@.len() as int) =~= s@);
    while a < b && (s[a] == ',' || s[b - 1] == ',')
        invariant
            a <= b <= s@.len(),
            trim_commas(s@.subrange(a as int, b as int)) == trim_commas(s@),
        decreases b - a,
    {
        let ghost t = s@.subrange(a as int, b as int);
        if s[a] == ',' {
            assert(t.subrange(1, t.len() as int) =~= s@.subrange(a + 1, b as int));
            a = a + 1;
        } else {
            assert(t.drop_last() =~= s@.subrange(a as int, b - 1));
            b = b - 1;
        }
    }
    crate::text::slice(s, a, b)
}

/// The boot time that `sysctl kern.boottime` prints: its fourth word without
/// commas at its ends, or `0` where there is none.
pub open spec fn sysctl_boot_text(output: Seq<char>) -> Seq<char> {
    if words(output).len() > 3 {
        trim_commas(words(output)[3])
    } else {
        "0"@
    }
}

/// How long the machine has run at instant `now` (seconds since the UNIX epoch
/// and nanoseconds past that second), from the output of `sysctl kern.boottime`; `None` where the boot time cannot be read as a number of
/// seconds since the UNIX epoch, and always a text where it is read and lies
/// within 10^12 seconds of the epoch.
pub fn uptime_from_sysctl(output: &str, now: (i64, u32)) -> (r: Option<String>)
    ensures
        parsed_i64(sysctl_boot_text(output@)) is None ==> r is None,
        parsed_i64(sysctl_boot_text(output@)) matches Some(s) && -1_000_000_000_000 <= s
            <= 1_000_000_000_000 ==> r is Some,
        r matches Some(t) ==> t@ == uptime_phrase(
            elapsed(now, (parsed_i64(sysctl_boot_text(output@))->Some_0, 0u32)),
        ),
{
    let ws = split_words(&chars_of(output));
    assert(ws@.len() == views(ws@).len());
    let boot_text = if ws.len() > 3 {
        assert(ws@[3]@ == views(ws@)[3]);
        strip_commas(&ws[3])
    } else {
        chars_of("0")
    };
    match parse_i64(&boot_text) {
        None => None,
        Some(stamp) => match utc_instant(stamp) {
            None => None,
            Some(boot) => Some(uptime_text(elapsed_seconds(now, boot))),
        },
    }
}

/// The whole seconds in the first word of `/proc/uptime`: the digits before its
/// first `.`; the word is `0` where the text has none.
pub open spec fn proc_uptime_seconds(text: Seq<char>) -> Option<u128> {
    let word = if words(text).len() > 0 {
        words(text)[0]
    } else {
        "0"@
    };
    parsed_u128(split_on(word, '.')[0])
}

/// How long the machine has run, from the text of `/proc/uptime`; `None` where
/// its first word does not start with a number.
pub fn get_uptime(proc_uptime: &str) -> (r: Option<String>)
    ensures
        match proc_uptime_seconds(proc_uptime@) {
            Some(s) => r matches Some(t) && t@ == uptime_phrase(s as int),
            None => r is None,
        },
{
    let ws = split_words(&chars_of(proc_uptime));
    assert(ws@.len() == views(ws@).len());
    let word = if ws.len() > 0 {
        assert(ws@[0]@ == views(ws@)[0]);
        ws[0].clone()
    } else {
        chars_of("0")
    };
    let parts = split_char(&word, '.');
    proof {
        crate::text::lemma_split_nonempty(word@, '.');
    }
    assert(parts@.len() == views(parts@).len());
    assert(parts@[0]@ == views(parts@)[0]);
    match parse_u128(&parts[0]) {
        None => None,
        Some(secs) => {
            if secs > 0x7fff_ffff_ffff_ffff_ffff_ffff_ffff_ffff {
                let whole = decimal_text(secs / 3600).concat(" hours, ").concat(
                    decimal_text((secs / 60) % 60).as_str(),
                ).concat(" minutes");
                Some(whole)
            } else {
                Some(uptime_text(secs as i128))
            }
        },
    }
}

} // verus!
