//! The live state of a running sync and its labels.
//!
//! The program parses rsync's progress lines into a [`SyncProgress`]; the
//! labels the progress bar shows are built here.

use vstd::prelude::*;
use crate::silo_size::{human_size, human_size_text};
use crate::text::{chars_of, dec, dec_chars, extend_chars, string_of, zero_pad, zero_pad_chars};

verus! {

/// The live state of a running sync.
#[derive(Debug, Clone, Copy)]
pub struct SyncProgress {
    /// Bytes transferred so far.
    pub transferred: u64,
    /// Fixed total transfer size in bytes.
    pub total: u64,
    /// Estimated remaining time, in seconds.
    pub eta_secs: u64,
}

/// `n` in decimal, padded with zeros to two digits.
pub open spec fn two_digits(n: nat) -> Seq<char> {
    zero_pad(dec(n), 2)
}

/// Seconds as `HH:MM:SS`; the hours take more digits when there are more.
pub open spec fn clock_text(secs: nat) -> Seq<char> {
    two_digits(secs / 3600) + seq![':'] + two_digits((secs % 3600) / 60) + seq![':'] + two_digits(secs % 60)
}

fn two_digit_chars(n: u64) -> (r: Vec<char>)
    ensures
        r@ == two_digits(n as nat),
{
    let d = dec_chars(n);
    zero_pad_chars(&d, 2)
}

/// Formats seconds as `HH:MM:SS`, for example `00:12:05`.
pub fn format_eta(secs: u64) -> (r: String)
    ensures
        r@ == clock_text(secs as nat),
{
    let mut v = two_digit_chars(secs / 3600);
    v.push(':');
    let m = two_digit_chars((secs % 3600) / 60);
    extend_chars(&mut v, &m);
    v.push(':');
    let s = two_digit_chars(secs % 60);
    extend_chars(&mut v, &s);
    string_of(&v)
}

impl SyncProgress {
    /// The ETA label, for example `ETA: 00:12:05`.
    pub fn eta_text(&self) -> (r: String)
        ensures
            r@ == "ETA: "@ + clock_text(self.eta_secs as nat),
    {
        let mut v = chars_of("ETA: ");
        let c = format_eta(self.eta_secs);
        let cc = chars_of(c.as_str());
        extend_chars(&mut v, &cc);
        string_of(&v)
    }

    /// The sizes label, for example `2.00 GiB / 5.50 GiB`.
    pub fn sizes_text(&self) -> (r: String)
        ensures
            r@ == human_size_text(self.transferred as nat) + " / "@ + human_size_text(self.total as nat),
    {
        let a = human_size(self.transferred);
        let b = human_size(self.total);
        let mut v = chars_of(a.as_str());
        let sep = chars_of(" / ");
        extend_chars(&mut v, &sep);
        let bc = chars_of(b.as_str());
        extend_chars(&mut v, &bc);
        string_of(&v)
    }
}

} // verus!

verus! {

/// `h` hours, `m` minutes, and `s` seconds (`m` and `s` below 60) read as
/// `HH:MM:SS` with those three numbers.
pub proof fn lemma_clock_fields(h: nat, m: nat, s: nat)
    requires
        m < 60,
        s < 60,
    ensures
        clock_text(3600 * h + 60 * m + s) == two_digits(h) + seq![':'] + two_digits(m) + seq![':'] + two_digits(s),
{
    let t = 3600 * h + 60 * m + s;
    assert(t / 3600 == h);
    assert(t % 3600 == 60 * m + s);
    assert((60 * m + s) / 60 == m);
    assert(t % 60 == s);
}

} // verus!
