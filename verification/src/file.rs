use vstd::prelude::*;

use vstd::string::{StringExecFns, StrSliceExecFns};

use crate::config_dir::spec_path_join;
use crate::times::{now_to_yyyy_mm_dd_hh_mm_ss, spec_datetime_string, DateTimeParts};
use crate::utils::is_dec_digit;

verus! {

/// A backup of a file sits beside it, named after it with a dash and a
/// date-time stamp appended.
pub fn make_backup_filename(path: &str) -> (r: String)
    requires
        path@.len() > 0,
        path@.last() != '/',
    ensures
        exists|p: DateTimeParts|
            p.wf() && r@ == path@ + seq!['-'] + spec_datetime_string(p),
{
    let mut s = String::from_str(path);
    s.append("-");
    proof {
        reveal_strlit("-");
        assert("-"@ =~= seq!['-']);
    }
    let ts = now_to_yyyy_mm_dd_hh_mm_ss();
    s.append(ts.as_str());
    proof {
        let p = choose|p: DateTimeParts| p.wf() && ts@ == crate::times::spec_datetime_string(p);
        assert(s@ == path@ + seq!['-'] + spec_datetime_string(p));
    }
    s
}

/// Whether the name ends in the dash-and-date-time stamp that
/// [`make_backup_filename`] appends: a dash, four digits, a dash, two
/// digits, a dash, two digits, a `T`, then three dash-separated pairs of
/// digits.
pub open spec fn spec_has_backup_suffix(s: Seq<char>) -> bool {
    let n = s.len() as int;
    &&& n >= 20
    &&& s[n - 20] == '-'
    &&& is_dec_digit(s[n - 19])
    &&& is_dec_digit(s[n - 18])
    &&& is_dec_digit(s[n - 17])
    &&& is_dec_digit(s[n - 16])
    &&& s[n - 15] == '-'
    &&& is_dec_digit(s[n - 14])
    &&& is_dec_digit(s[n - 13])
    &&& s[n - 12] == '-'
    &&& is_dec_digit(s[n - 11])
    &&& is_dec_digit(s[n - 10])
    &&& s[n - 9] == 'T'
    &&& is_dec_digit(s[n - 8])
    &&& is_dec_digit(s[n - 7])
    &&& s[n - 6] == '-'
    &&& is_dec_digit(s[n - 5])
    &&& is_dec_digit(s[n - 4])
    &&& s[n - 3] == '-'
    &&& is_dec_digit(s[n - 2])
    &&& is_dec_digit(s[n - 1])
}

/// Whether `c` is a decimal digit.
fn is_digit_char(c: char) -> (r: bool)
    ensures
        r == is_dec_digit(c),
{
    let u = c as u32;
    48 <= u && u <= 57
}

/// Decides whether a file name carries the backup date-time suffix.
pub fn has_backup_suffix(filename: &str) -> (r: bool)
    ensures
        r == spec_has_backup_suffix(filename@),
{
    let n = filename.unicode_len();
    if n < 20 {
        return false;
    }
    let b = n - 20;
    filename.get_char(b) == '-' && is_digit_char(filename.get_char(b + 1)) && is_digit_char(
        filename.get_char(b + 2),
    ) && is_digit_char(filename.get_char(b + 3)) && is_digit_char(filename.get_char(b + 4))
        && filename.get_char(b + 5) == '-' && is_digit_char(filename.get_char(b + 6))
        && is_digit_char(filename.get_char(b + 7)) && filename.get_char(b + 8) == '-'
        && is_digit_char(filename.get_char(b + 9)) && is_digit_char(filename.get_char(b + 10))
        && filename.get_char(b + 11) == 'T' && is_digit_char(filename.get_char(b + 12))
        && is_digit_char(filename.get_char(b + 13)) && filename.get_char(b + 14) == '-'
        && is_digit_char(filename.get_char(b + 15)) && is_digit_char(filename.get_char(b + 16))
        && filename.get_char(b + 17) == '-' && is_digit_char(filename.get_char(b + 18))
        && is_digit_char(filename.get_char(b + 19))
}

/// Makes a guaranteed-absolute path from a file name that may or may not
/// already be absolute, by joining it onto the directory when it is not.
pub fn make_absolute(filename: &str, directory: &str) -> (r: String)
    ensures
        r@ == if filename@.len() > 0 && filename@[0] == '/' {
            filename@
        } else {
            spec_path_join(directory@, filename@)
        },
{
    let n = filename.unicode_len();
    if n > 0 && filename.get_char(0) == '/' {
        String::from_str(filename)
    } else {
        crate::config_dir::path_join(directory, filename)
    }
}

} // verus!
