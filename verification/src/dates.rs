//! Calendar dates. The conversion from seconds since the Unix epoch to a
//! proleptic Gregorian date in UTC is done by chrono and only named here;
//! the rendering of that date as the canonical `YYYY-MM-DD` component is
//! the library's own, verified code.

use vstd::prelude::*;
use crate::digits::{dec_rep, push_dec, lemma_dec_rep_len};
use chrono::Datelike;

verus! {

/// The UTC calendar date (year, month, day) of an instant, given as whole
/// seconds since the Unix epoch; nothing when the instant lies outside the
/// range chrono can represent.
pub uninterp spec fn civil_of(secs: int) -> Option<(int, int, int)>;

/// Relies on chrono's `DateTime::<Utc>::from_timestamp` and the `Datelike`
/// accessors: the date is a function of the seconds alone; `from_timestamp`
/// returns `None` exactly on an out-of-range number of seconds; `month`
/// ranges over 1..=12 and `day` over 1..=31.
#[verifier::external_body]
pub(crate) fn civil_from_secs(secs: i64) -> (r: Option<(i32, u32, u32)>)
    ensures
        match r {
            Some((y, m, d)) => civil_of(secs as int) == Some((y as int, m as int, d as int))
                && 1 <= m <= 12 && 1 <= d <= 31,
            None => civil_of(secs as int) is None,
        },
{
    match chrono::DateTime::<chrono::Utc>::from_timestamp(secs, 0) {
        Some(dt) => Some((dt.year(), dt.month(), dt.day())),
        None => None,
    }
}

/// A run of `n` zero characters.
pub open spec fn zeroes(n: int) -> Seq<char> {
    Seq::new(n as nat, |i: int| '0')
}

/// `s` left-padded with zeroes to width `w`.
pub open spec fn pad(s: Seq<char>, w: int) -> Seq<char> {
    if s.len() >= w {
        s
    } else {
        zeroes(w - s.len()) + s
    }
}

/// The canonical date component of a name: the year zero-padded to four
/// digits (with a leading minus for years before year zero), then month and
/// day each zero-padded to two, separated by dashes.
pub open spec fn fmt_date(y: int, m: int, d: int) -> Seq<char> {
    let sign: Seq<char> = if y < 0 {
        seq!['-']
    } else {
        Seq::empty()
    };
    let ya: nat = if y < 0 {
        (-y) as nat
    } else {
        y as nat
    };
    sign + pad(dec_rep(ya), 4) + seq!['-'] + pad(dec_rep(m as nat), 2) + seq!['-'] + pad(
        dec_rep(d as nat),
        2,
    )
}

/// Appends the decimal rendering of `n`, zero-padded to width four.
fn push_pad4(s: &mut String, n: u64)
    ensures
        final(s)@ == old(s)@ + pad(dec_rep(n as nat), 4),
{
    proof {
        lemma_dec_rep_len(n as nat);
        if n >= 10 {
            lemma_dec_rep_len(n as nat / 10);
        }
        if n >= 100 {
            lemma_dec_rep_len(n as nat / 100);
            assert(n as nat / 10 / 10 == n as nat / 100) by (nonlinear_arith);
        }
        if n >= 1000 {
            lemma_dec_rep_len(n as nat / 1000);
            assert(n as nat / 10 / 10 == n as nat / 100) by (nonlinear_arith);
            assert(n as nat / 100 / 10 == n as nat / 1000) by (nonlinear_arith);
        }
        reveal_strlit("000");
        reveal_strlit("00");
        reveal_strlit("0");
        assert("000"@ =~= zeroes(3));
        assert("00"@ =~= zeroes(2));
        assert("0"@ =~= zeroes(1));
    }
    if n < 10 {
        s.append("000");
    } else if n < 100 {
        s.append("00");
    } else if n < 1000 {
        s.append("0");
    }
    push_dec(s, n);
    proof {
        assert(s@ =~= old(s)@ + pad(dec_rep(n as nat), 4));
    }
}

/// Appends the decimal rendering of `n`, zero-padded to width two.
fn push_pad2(s: &mut String, n: u64)
    ensures
        final(s)@ == old(s)@ + pad(dec_rep(n as nat), 2),
{
    proof {
        lemma_dec_rep_len(n as nat);
        if n >= 10 {
            lemma_dec_rep_len(n as nat / 10);
        }
        reveal_strlit("0");
        assert("0"@ =~= zeroes(1));
    }
    if n < 10 {
        s.append("0");
    }
    push_dec(s, n);
    proof {
        assert(s@ =~= old(s)@ + pad(dec_rep(n as nat), 2));
    }
}

/// Renders a calendar date as the canonical `YYYY-MM-DD` component.
pub fn format_date(y: i32, m: u32, d: u32) -> (r: String)
    ensures
        r@ == fmt_date(y as int, m as int, d as int),
{
    let mut s = String::new();
    let ya: u64 = if y < 0 {
        (-(y as i64)) as u64
    } else {
        y as u64
    };
    if y < 0 {
        s.append("-");
    }
    push_pad4(&mut s, ya);
    s.append("-");
    push_pad2(&mut s, m as u64);
    s.append("-");
    push_pad2(&mut s, d as u64);
    proof {
        reveal_strlit("-");
        assert("-"@ =~= seq!['-']);
        assert(s@ =~= fmt_date(y as int, m as int, d as int));
    }
    s
}

} // verus!
