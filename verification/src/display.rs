//! The texts the statistics table and the allocation chart show.
//!
//! Sizes use the shared IEC labels; the largest, smallest, oldest, and newest
//! file rows show the file name plus its size or modified date. Missing
//! statistics show an em dash.

use vstd::prelude::*;
use crate::calendar::{
    calendar_date, civil_fields, day_number, lemma_civil_fields_are_the_calendar_date,
    lemma_every_day_has_one_date,
};
use crate::paths::{file_name, file_name_chars, join, join_str, with_trailing_slash};
use crate::silo_analysis::file_type_allocation::no_extension_name;
use crate::silo_analysis::{FileRef, FileRefView, Stats};
use crate::silo_size::{human_size, human_size_text};
use crate::text::{
    chars_of, dec, dec_chars, dec_chars_wide, dec_int_pad, dec_int_pad_chars, extend_chars, string_of, zero_pad,
    zero_pad_chars, chars_eq,
};

verus! {

/// The label of a missing statistic.
pub open spec fn missing() -> Seq<char> {
    seq!['\u{2014}']
}

fn missing_text() -> (r: String)
    ensures
        r@ == missing(),
{
    let mut v: Vec<char> = Vec::new();
    v.push('\u{2014}');
    string_of(&v)
}

/// `YYYY-MM-DD HH:MM` for a year, month, day, hour, and minute; the year
/// has at least four digits, and the other fields two.
pub open spec fn stamp_text(y: int, m: int, d: int, h: int, min: int) -> Seq<char> {
    dec_int_pad(y, 4) + seq!['-'] + dec_int_pad(m, 2) + seq!['-'] + dec_int_pad(d, 2) + seq![' ']
        + dec_int_pad(h, 2) + seq![':'] + dec_int_pad(min, 2)
}

/// `YYYY-MM-DD HH:MM` for Unix second `secs`, in UTC: the calendar date of
/// its day (whole days since 1970-01-01, floor division before 1970), and
/// the hour and minute of the seconds left in that day.
pub open spec fn civil_text(secs: int) -> Seq<char> {
    let (y, m, d) = calendar_date(secs / 86400);
    stamp_text(y, m, d, (secs % 86400) / 3600, (secs % 3600) / 60)
}

fn stamp(y: i64, m: i64, d: i64, h: i64, min: i64) -> (r: String)
    ensures
        r@ == stamp_text(y as int, m as int, d as int, h as int, min as int),
{
    let mut v = dec_int_pad_chars(y, 4);
    v.push('-');
    let mc = dec_int_pad_chars(m, 2);
    extend_chars(&mut v, &mc);
    v.push('-');
    let dc = dec_int_pad_chars(d, 2);
    extend_chars(&mut v, &dc);
    v.push(' ');
    let hc = dec_int_pad_chars(h, 2);
    extend_chars(&mut v, &hc);
    v.push(':');
    let mic = dec_int_pad_chars(min, 2);
    extend_chars(&mut v, &mic);
    string_of(&v)
}

/// Converts Unix seconds into a `YYYY-MM-DD HH:MM` string.
pub fn civil_date(secs: i64) -> (r: String)
    ensures
        r@ == civil_text(secs as int),
{
    let days = secs.checked_div_euclid(86_400).unwrap();
    let rem = secs.checked_rem_euclid(86_400).unwrap();
    let hour = rem / 3600;
    let minute = (rem % 3600) / 60;
    let z = days + 719_468;
    let era = z.checked_div_euclid(146_097).unwrap();
    let doe = z.checked_rem_euclid(146_097).unwrap();
    assert(0 <= doe < 146097);
    let yoe = (doe - doe / 1460 + doe / 36_524 - doe / 146_096) / 365;
    assert(0 <= yoe <= 400);
    let year = yoe + era * 400;
    let doy = doe - (365 * yoe + yoe / 4 - yoe / 100);
    assert(0 <= doy <= 366) by {
        assert(365 * yoe + yoe / 4 - yoe / 100 <= doe);
    }
    let mp = (5 * doy + 2) / 153;
    let day = doy - (153 * mp + 2) / 5 + 1;
    let month = if mp < 10 { mp + 3 } else { mp - 9 };
    let year = if month <= 2 { year + 1 } else { year };
    proof {
        let f = civil_fields(secs as int);
        assert(f == (year as int, month as int, day as int, hour as int, minute as int));
        lemma_civil_fields_are_the_calendar_date(secs as int);
        lemma_every_day_has_one_date(secs as int / 86400);
        assert(day_number(f.0, f.1, f.2) == secs as int / 86400);
    }
    stamp(year, month, day, hour, minute)
}

/// A timestamp as a date, or an em dash when it is missing.
pub open spec fn date_text(modified: Option<i64>) -> Seq<char> {
    match modified {
        Some(secs) => civil_text(secs as int),
        None => missing(),
    }
}

/// Formats a Unix timestamp as a date, for example `2024-08-24 14:32`.
/// Returns an em dash when the timestamp is missing.
pub fn format_date(modified: Option<i64>) -> (r: String)
    ensures
        r@ == date_text(modified),
{
    match modified {
        Some(secs) => civil_date(secs),
        None => missing_text(),
    }
}

/// The full path of a file: its root joined with its relative path.
pub fn full_path(file: &FileRef) -> (r: String)
    ensures
        r@ == join(file.root@, file.relative_path@),
{
    join_str(file.root.as_str(), file.relative_path.as_str())
}

/// What a single-file row shows beside the file name.
#[derive(Debug, Clone, Copy, PartialEq, Eq, Structural)]
pub enum FileDetail {
    /// The file's size.
    Size,
    /// The file's last-modified date.
    Modified,
}

/// The detail text of a file.
pub open spec fn detail_text(f: FileRefView, detail: FileDetail) -> Seq<char> {
    match detail {
        FileDetail::Size => human_size_text(f.size_bytes as nat),
        FileDetail::Modified => date_text(f.modified),
    }
}

/// The table value of a single-file row: `name · detail`, or an em dash.
pub open spec fn file_value_text(file: Option<FileRefView>, detail: FileDetail) -> Seq<char> {
    match file {
        Some(f) => f.name + seq![' ', '\u{B7}', ' '] + detail_text(f, detail),
        None => missing(),
    }
}

/// The table value for a single-file row: `name · size` or `name · date`.
pub fn file_value(file: Option<&FileRef>, detail: FileDetail) -> (r: String)
    ensures
        r@ == file_value_text(
            match file { Some(f) => Some(f@), None => None },
            detail,
        ),
{
    match file {
        Some(f) => {
            let mut v = chars_of(f.name.as_str());
            v.push(' ');
            v.push('\u{B7}');
            v.push(' ');
            let extra = match detail {
                FileDetail::Size => human_size(f.size_bytes),
                FileDetail::Modified => format_date(f.modified),
            };
            let e = chars_of(extra.as_str());
            extend_chars(&mut v, &e);
            string_of(&v)
        },
        None => missing_text(),
    }
}

/// The optional file reference as a view.
pub open spec fn opt_file(o: Option<FileRef>) -> Option<FileRefView> {
    match o {
        Some(f) => Some(f@),
        None => None,
    }
}

/// The rows of the statistics table, label and value, in display order.
pub open spec fn stats_rows_text(s: Stats) -> Seq<(Seq<char>, Seq<char>)> {
    seq![
        ("TOTAL FILES"@, dec(s.total_files as nat)),
        ("TOTAL FOLDERS"@, dec(s.total_dirs as nat)),
        ("EMPTY FOLDERS"@, dec(s.empty_folder_paths@.len())),
        ("TOTAL SIZE"@, human_size_text(s.total_size_bytes as nat)),
        ("ZERO-BYTE FILES"@, dec(s.zero_byte_files@.len())),
        ("AVERAGE FILE SIZE"@, match s.average_file_size_bytes {
            Some(a) => human_size_text(a as nat),
            None => missing(),
        }),
        ("LARGEST FILE"@, file_value_text(opt_file(s.largest_file), FileDetail::Size)),
        ("SMALLEST FILE"@, file_value_text(opt_file(s.smallest_file), FileDetail::Size)),
        ("OLDEST FILE"@, file_value_text(opt_file(s.oldest_file), FileDetail::Modified)),
        ("NEWEST FILE"@, file_value_text(opt_file(s.newest_file), FileDetail::Modified)),
    ]
}

/// The views of label and value rows.
pub open spec fn row_views(v: Seq<(String, String)>) -> Seq<(Seq<char>, Seq<char>)> {
    v.map_values(|r: (String, String)| (r.0@, r.1@))
}

fn push_row(rows: &mut Vec<(String, String)>, label: &str, value: String)
    ensures
        row_views(final(rows)@) == row_views(old(rows)@).push((label@, value@)),
{
    let ghost before = rows@;
    rows.push((String::from_str(label), value));
    assert(row_views(rows@) =~= row_views(before).push((label@, value@)));
}

fn count_text(n: usize) -> (r: String)
    ensures
        r@ == dec(n as nat),
{
    let d = dec_chars(n as u64);
    string_of(&d)
}

/// The rows of the statistics table: one label and value per summary
/// statistic, in display order.
pub fn stats_rows(summary: &Stats) -> (r: Vec<(String, String)>)
    ensures
        row_views(r@) == stats_rows_text(*summary),
{
    let mut rows: Vec<(String, String)> = Vec::new();
    push_row(&mut rows, "TOTAL FILES", string_of(&dec_chars(summary.total_files)));
    push_row(&mut rows, "TOTAL FOLDERS", string_of(&dec_chars(summary.total_dirs)));
    push_row(&mut rows, "EMPTY FOLDERS", count_text(summary.empty_folder_paths.len()));
    push_row(&mut rows, "TOTAL SIZE", human_size(summary.total_size_bytes));
    push_row(&mut rows, "ZERO-BYTE FILES", count_text(summary.zero_byte_files.len()));
    let average = match summary.average_file_size_bytes {
        Some(a) => human_size(a),
        None => missing_text(),
    };
    push_row(&mut rows, "AVERAGE FILE SIZE", average);
    push_row(&mut rows, "LARGEST FILE", file_value(summary.largest_file.as_ref(), FileDetail::Size));
    push_row(&mut rows, "SMALLEST FILE", file_value(summary.smallest_file.as_ref(), FileDetail::Size));
    push_row(&mut rows, "OLDEST FILE", file_value(summary.oldest_file.as_ref(), FileDetail::Modified));
    push_row(&mut rows, "NEWEST FILE", file_value(summary.newest_file.as_ref(), FileDetail::Modified));
    assert(row_views(rows@) =~= stats_rows_text(*summary));
    rows
}

/// The label of a share given in hundredths of a percent, with two
/// decimals; a share that rounds to zero shows as `< 0.00%`, so tiny shares
/// never look exactly empty.
pub open spec fn percent_text(hundredths: nat) -> Seq<char> {
    if hundredths > 0 {
        dec(hundredths / 100) + seq!['.'] + zero_pad(dec(hundredths % 100), 2) + seq!['%']
    } else {
        "< 0.00%"@
    }
}

/// The display label for a share percentage, for example `42.57%`.
pub fn percent_label(hundredths: u128) -> (r: String)
    ensures
        r@ == percent_text(hundredths as nat),
{
    if hundredths > 0 {
        let mut v = dec_chars_wide(hundredths / 100);
        v.push('.');
        let f = dec_chars_wide(hundredths % 100);
        let p = zero_pad_chars(&f, 2);
        extend_chars(&mut v, &p);
        v.push('%');
        string_of(&v)
    } else {
        String::from_str("< 0.00%")
    }
}

/// What `str::to_uppercase` makes of `s`.
pub uninterp spec fn uppercase_of(s: Seq<char>) -> Seq<char>;

/// The uppercase form of `s`, through `str::to_uppercase` (Unicode case
/// mapping, where one character may become several). The contract names
/// the result and says nothing more of it.
#[verifier::external_body]
fn to_uppercase(s: &str) -> (r: String)
    ensures
        r@ == uppercase_of(s@),
{
    s.to_uppercase()
}

/// The label of an extension group: `(no extension)` for the files without
/// one, and otherwise a dot and the extension in uppercase, for example
/// `.MOV`.
pub open spec fn extension_text(extension: Seq<char>) -> Seq<char> {
    if extension == no_extension_name() {
        "(no extension)"@
    } else {
        seq!['.'] + uppercase_of(extension)
    }
}

/// The display label for a file extension.
pub fn extension_label(extension: &str) -> (r: String)
    ensures
        r@ == extension_text(extension@),
{
    let e = chars_of(extension);
    let reserved = chars_of("no-extension");
    proof {
        reveal_strlit("no-extension");
        assert(reserved@ =~= no_extension_name());
    }
    if chars_eq(&e, &reserved) {
        return String::from_str("(no extension)");
    }
    let mut v: Vec<char> = Vec::new();
    v.push('.');
    let u = to_uppercase(extension);
    let uc = chars_of(u.as_str());
    extend_chars(&mut v, &uc);
    string_of(&v)
}

} // verus!

verus! {

/// The name a folder chip shows: the folder's last path component, or the
/// whole path when it has none.
pub open spec fn chip_name_text(path: Seq<char>) -> Seq<char> {
    match file_name(path) {
        Some(n) => n,
        None => path,
    }
}

/// The name a folder chip shows, for example `color_theme` for
/// `/home/user/silo/theme/color_theme/`.
pub fn chip_name(path: &str) -> (r: String)
    ensures
        r@ == chip_name_text(path@),
{
    let p = chars_of(path);
    match file_name_chars(&p) {
        Some(n) => string_of(&n),
        None => string_of(&p),
    }
}

/// The full path a chip shows, with a trailing slash like a directory
/// listing; a path that already ends with a slash is kept as is.
pub fn chip_path(path: &str) -> (r: String)
    ensures
        r@ == with_trailing_slash(path@),
{
    let mut p = chars_of(path);
    if !(p.len() > 0 && p[p.len() - 1] == '/') {
        p.push('/');
    }
    string_of(&p)
}

/// The remove menu row of a source folder chip.
pub fn folder_menu_label(path: &str) -> (r: String)
    ensures
        r@ == "Remove folder ("@ + chip_name_text(path@) + ") from Silo"@,
{
    let mut v = chars_of("Remove folder (");
    let n = chip_name(path);
    let nc = chars_of(n.as_str());
    extend_chars(&mut v, &nc);
    let tail = chars_of(") from Silo");
    extend_chars(&mut v, &tail);
    string_of(&v)
}

/// The remove menu row of the destination chip.
pub fn destination_menu_label(path: &str) -> (r: String)
    ensures
        r@ == "Remove sync destination ("@ + chip_name_text(path@) + ")"@,
{
    let mut v = chars_of("Remove sync destination (");
    let n = chip_name(path);
    let nc = chars_of(n.as_str());
    extend_chars(&mut v, &nc);
    v.push(')');
    proof {
        reveal_strlit(")");
    }
    string_of(&v)
}

} // verus!
