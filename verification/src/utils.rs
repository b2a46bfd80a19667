use vstd::prelude::*;

use vstd::string::{StringExecFns, StrSliceExecFns};

use crate::error::DecodeError;
use crate::text::{spec_dec, u32_to_string};

verus! {

/// Whether `c` has the Unicode White_Space property, the set `char`'s
/// whitespace test accepts.
pub open spec fn is_space(c: char) -> bool {
    let u = c as u32;
    (0x09 <= u <= 0x0D) || u == 0x20 || u == 0x85 || u == 0xA0 || u == 0x1680 || (0x2000 <= u
        <= 0x200A) || u == 0x2028 || u == 0x2029 || u == 0x202F || u == 0x205F || u == 0x3000
}

/// Whether `c` is a decimal digit.
pub open spec fn is_dec_digit(c: char) -> bool {
    48 <= c as u32 <= 57
}

/// The numeric value of a decimal digit character.
pub open spec fn digit_val(c: char) -> int {
    c as u32 - 48
}

/// The piece with leading and trailing whitespace removed.
pub open spec fn spec_trim(s: Seq<char>) -> Seq<char>
    decreases s.len(),
{
    if s.len() == 0 {
        s
    } else if is_space(s[0]) {
        spec_trim(s.drop_first())
    } else if is_space(s.last()) {
        spec_trim(s.drop_last())
    } else {
        s
    }
}

/// The index of the first comma at or after `i`, or the length when there
/// is none.
pub open spec fn spec_first_comma_from(s: Seq<char>, i: int) -> int
    recommends
        0 <= i <= s.len(),
    decreases s.len() - i,
{
    if i < 0 || i >= s.len() {
        s.len() as int
    } else if s[i] == ',' {
        i
    } else {
        spec_first_comma_from(s, i + 1)
    }
}

/// The number a digit string denotes, most significant digit first, or
/// nothing when some character is not a digit.
pub open spec fn spec_digits_val(d: Seq<char>) -> Option<int>
    decreases d.len(),
{
    if d.len() == 0 {
        Some(0int)
    } else if !is_dec_digit(d.last()) {
        None
    } else {
        match spec_digits_val(d.drop_last()) {
            None => None,
            Some(v) => Some(v * 10 + digit_val(d.last())),
        }
    }
}

/// The port number a digit string denotes: at least one digit, with a
/// value that fits in 16 bits.
pub open spec fn spec_digits_port(d: Seq<char>) -> Option<u16> {
    if d.len() == 0 {
        None
    } else {
        match spec_digits_val(d) {
            None => None,
            Some(v) => if v <= 65535 {
                Some(v as u16)
            } else {
                None
            },
        }
    }
}

/// The port number a piece denotes: an optional leading plus sign, then
/// at least one digit, with a value that fits in 16 bits.  Nothing else,
/// not even surrounding whitespace, is accepted.
pub open spec fn spec_parse_u16(t: Seq<char>) -> Option<u16> {
    if t.len() > 0 && t[0] == '+' {
        spec_digits_port(t.drop_first())
    } else {
        spec_digits_port(t)
    }
}

/// Whether a piece is blank: empty or all whitespace.
pub open spec fn spec_blank(p: Seq<char>) -> bool {
    forall|j: int| 0 <= j < p.len() ==> is_space(#[trigger] p[j])
}

/// What one comma-separated piece contributes: `None` means the piece is
/// malformed (the whole list is rejected), `Some(None)` means the piece is
/// blank and skipped, `Some(Some(p))` contributes the port `p`.  A piece
/// that is neither blank nor exactly a port number — a whitespace-padded
/// number included — rejects the list.
pub open spec fn spec_piece_port(p: Seq<char>) -> Option<Option<u16>> {
    if spec_blank(p) {
        Some(None::<u16>)
    } else {
        match spec_parse_u16(p) {
            None => None,
            Some(v) => Some(Some(v)),
        }
    }
}

/// The ports denoted by a comma-separated list: blank pieces are skipped,
/// and any piece that is not exactly a port number rejects the whole
/// list.
pub open spec fn spec_split_ports(s: Seq<char>) -> Option<Seq<u16>>
    decreases s.len(),
    via spec_split_ports_decreases
{
    let k = spec_first_comma_from(s, 0);
    if k == s.len() {
        match spec_piece_port(s) {
            None => None,
            Some(None) => Some(Seq::<u16>::empty()),
            Some(Some(p)) => Some(seq![p]),
        }
    } else {
        match spec_piece_port(s.take(k)) {
            None => None,
            Some(opt) => match spec_split_ports(s.skip(k + 1)) {
                None => None,
                Some(tail) => Some(
                    match opt {
                        Some(p) => seq![p] + tail,
                        None => tail,
                    },
                ),
            },
        }
    }
}

#[via_fn]
proof fn spec_split_ports_decreases(s: Seq<char>) {
    lemma_first_comma_from_bounds(s, 0);
}

/// Appends an optional tail to an already-computed prefix, propagating a
/// rejection of the tail.
pub open spec fn combine_ports(prefix: Seq<u16>, rest: Option<Seq<u16>>) -> Option<Seq<u16>> {
    match rest {
        None => None,
        Some(t) => Some(prefix + t),
    }
}

/// The rendering of the values as a comma-separated decimal list.
pub open spec fn spec_comma_string(s: Seq<u16>) -> Seq<char>
    decreases s.len(),
{
    if s.len() == 0 {
        Seq::<char>::empty()
    } else if s.len() == 1 {
        spec_dec(s[0] as int)
    } else {
        spec_comma_string(s.drop_last()) + seq![','] + spec_dec(s.last() as int)
    }
}

proof fn lemma_first_comma_from_bounds(s: Seq<char>, i: int)
    requires
        0 <= i <= s.len(),
    ensures
        i <= spec_first_comma_from(s, i) <= s.len(),
        spec_first_comma_from(s, i) < s.len() ==> s[spec_first_comma_from(s, i)] == ',',
        forall|j: int| i <= j < spec_first_comma_from(s, i) ==> s[j] != ',',
    decreases s.len() - i,
{
    if i < s.len() && s[i] != ',' {
        lemma_first_comma_from_bounds(s, i + 1);
    }
}

/// The first comma is pinned down by the scan that found it: no comma
/// before `m`, and a comma (or the end) at `m`.
proof fn lemma_first_comma_determined(s: Seq<char>, i: int, m: int)
    requires
        0 <= i <= m <= s.len(),
        forall|j: int| i <= j < m ==> s[j] != ',',
        m < s.len() ==> s[m] == ',',
    ensures
        spec_first_comma_from(s, i) == m,
    decreases m - i,
{
    if i < m {
        lemma_first_comma_determined(s, i + 1, m);
    }
}

proof fn lemma_trim_all_space(p: Seq<char>)
    requires
        forall|j: int| 0 <= j < p.len() ==> is_space(p[j]),
    ensures
        spec_trim(p).len() == 0,
    decreases p.len(),
{
    if p.len() > 0 {
        lemma_trim_all_space(p.drop_first());
    }
}

proof fn lemma_trim_range(p: Seq<char>, a: int, b: int)
    requires
        0 <= a < b <= p.len(),
        forall|j: int| 0 <= j < a ==> is_space(p[j]),
        forall|j: int| b <= j < p.len() ==> is_space(p[j]),
        !is_space(p[a]),
        !is_space(p[b - 1]),
    ensures
        spec_trim(p) == p.subrange(a, b),
    decreases p.len(),
{
    if a > 0 {
        lemma_trim_range(p.drop_first(), a - 1, b - 1);
        assert(p.drop_first().subrange(a - 1, b - 1) =~= p.subrange(a, b));
    } else if b < p.len() {
        lemma_trim_range(p.drop_last(), a, b);
        assert(p.drop_last().subrange(a, b) =~= p.subrange(a, b));
    } else {
        assert(spec_trim(p) == p);
        assert(p.subrange(0, p.len() as int) =~= p);
    }
}

/// A digit string with a non-digit in it denotes nothing.
proof fn lemma_digits_val_nondigit(d: Seq<char>, j: int)
    requires
        0 <= j < d.len(),
        !is_dec_digit(d[j]),
    ensures
        spec_digits_val(d) is None,
    decreases d.len(),
{
    if j < d.len() - 1 {
        lemma_digits_val_nondigit(d.drop_last(), j);
    }
}

/// Whether `c` has the Unicode White_Space property.
pub(crate) fn is_space_char(c: char) -> (r: bool)
    ensures
        r == is_space(c),
{
    let u = c as u32;
    (0x09 <= u && u <= 0x0D) || u == 0x20 || u == 0x85 || u == 0xA0 || u == 0x1680 || (0x2000 <= u
        && u <= 0x200A) || u == 0x2028 || u == 0x2029 || u == 0x202F || u == 0x205F || u == 0x3000
}

/// The bounds of the piece `lo..hi` of `s` once leading and trailing
/// whitespace is dropped.
pub(crate) fn trim_bounds(s: &str, lo: usize, hi: usize) -> (r: (usize, usize))
    requires
        lo <= hi <= s@.len(),
    ensures
        lo <= r.0 <= r.1 <= hi,
        spec_trim(s@.subrange(lo as int, hi as int)) == s@.subrange(r.0 as int, r.1 as int),
{
    let ghost p = s@.subrange(lo as int, hi as int);
    let mut a = lo;
    let mut b = hi;
    while a < b && is_space_char(s.get_char(a))
        invariant
            lo <= a <= b <= s@.len(),
            forall|j: int| lo <= j < a ==> is_space(s@[j]),
        decreases b - a,
    {
        a = a + 1;
    }
    while b > a && is_space_char(s.get_char(b - 1))
        invariant
            lo <= a <= b <= hi <= s@.len(),
            forall|j: int| lo <= j < a ==> is_space(s@[j]),
            forall|j: int| b <= j < hi ==> is_space(s@[j]),
            a < b ==> !is_space(s@[a as int]),
        decreases b - a,
    {
        b = b - 1;
    }
    proof {
        if a == b {
            assert(forall|j: int| 0 <= j < p.len() ==> is_space(#[trigger] p[j]));
            lemma_trim_all_space(p);
            assert(spec_trim(p) =~= s@.subrange(a as int, b as int));
        } else {
            lemma_trim_range(p, a - lo, b - lo);
            assert(p.subrange(a - lo, b - lo) =~= s@.subrange(a as int, b as int));
        }
    }
    (a, b)
}

/// Parses the digit string held in the characters `i..b` of `s`.
fn parse_digits(s: &str, i: usize, b: usize) -> (r: Option<u16>)
    requires
        i <= b <= s@.len(),
    ensures
        r == spec_digits_port(s@.subrange(i as int, b as int)),
{
    let ghost d = s@.subrange(i as int, b as int);
    if i == b {
        return None;
    }
    let mut acc: u32 = 0;
    let ghost mut gv: int = 0;
    let mut ovf = false;
    let mut j = i;
    while j < b
        invariant
            i <= j <= b <= s@.len(),
            d == s@.subrange(i as int, b as int),
            spec_digits_val(s@.subrange(i as int, j as int)) == Some(gv),
            0 <= gv,
            !ovf ==> gv == acc && acc <= 65535,
            ovf ==> gv > 65535,
        decreases b - j,
    {
        let c = s.get_char(j);
        let u = c as u32;
        if u < 48 || u > 57 {
            proof {
                lemma_digits_val_nondigit(d, j - i);
            }
            return None;
        }
        let dv = u - 48;
        proof {
            assert(s@.subrange(i as int, j + 1).drop_last() =~= s@.subrange(i as int, j as int));
            assert(s@.subrange(i as int, j + 1).last() == s@[j as int]);
            gv = gv * 10 + dv;
        }
        if !ovf {
            let na = acc * 10 + dv;
            if na > 65535 {
                ovf = true;
            } else {
                acc = na;
            }
        }
        j = j + 1;
    }
    proof {
        assert(s@.subrange(i as int, b as int) =~= d);
    }
    if ovf {
        None
    } else {
        Some(acc as u16)
    }
}

/// Parses one comma-separated piece of `s`, the characters `lo..hi`.
fn parse_piece(s: &str, lo: usize, hi: usize) -> (r: Result<Option<u16>, DecodeError>)
    requires
        lo <= hi <= s@.len(),
    ensures
        match spec_piece_port(s@.subrange(lo as int, hi as int)) {
            None => r == Err::<Option<u16>, DecodeError>(DecodeError::InvalidAuxPorts),
            Some(o) => r == Ok::<Option<u16>, DecodeError>(o),
        },
{
    let ghost p = s@.subrange(lo as int, hi as int);
    let mut a = lo;
    while a < hi && is_space_char(s.get_char(a))
        invariant
            lo <= a <= hi <= s@.len(),
            forall|j: int| lo <= j < a ==> is_space(s@[j]),
        decreases hi - a,
    {
        a = a + 1;
    }
    if a == hi {
        proof {
            assert(forall|j: int| 0 <= j < p.len() ==> is_space(#[trigger] p[j]));
        }
        return Ok(None);
    }
    // The piece holds a non-blank character, so the whole of it, not a
    // trimmed middle, must be exactly an optional plus sign and digits.
    proof {
        assert(!is_space(p[a - lo]));
        assert(!spec_blank(p));
    }
    let mut i = lo;
    if s.get_char(lo) == '+' {
        i = lo + 1;
    }
    proof {
        assert(p[0] == s@[lo as int]);
        if p[0] == '+' {
            assert(p.drop_first() =~= s@.subrange(i as int, hi as int));
        } else {
            assert(p =~= s@.subrange(i as int, hi as int));
        }
    }
    match parse_digits(s, i, hi) {
        Some(v) => Ok(Some(v)),
        None => Err(DecodeError::InvalidAuxPorts),
    }
}

/// Splits a comma-separated list of decimal port numbers.  Blank pieces
/// are skipped; any other piece that is not exactly a 16-bit number,
/// whitespace-padded numbers included, rejects the whole list.
pub fn split_comma_ports(s: &str) -> (r: Result<Vec<u16>, DecodeError>)
    ensures
        match spec_split_ports(s@) {
            Some(ports) => r matches Ok(v) && v@ == ports,
            None => r == Err::<Vec<u16>, DecodeError>(DecodeError::InvalidAuxPorts),
        },
{
    let n = s.unicode_len();
    let mut out: Vec<u16> = Vec::new();
    let mut start: usize = 0;
    proof {
        assert(s@.skip(0) =~= s@);
        match spec_split_ports(s@) {
            Some(t) => {
                assert(Seq::<u16>::empty() + t =~= t);
            },
            None => {},
        }
    }
    loop
        invariant
            n == s@.len(),
            0 <= start <= n,
            spec_split_ports(s@) == combine_ports(out@, spec_split_ports(s@.skip(start as int))),
        decreases n - start,
    {
        let ghost u = s@.skip(start as int);
        let mut k = start;
        while k < n && s.get_char(k) != ','
            invariant
                start <= k <= n,
                n == s@.len(),
                forall|j: int| start <= j < k ==> s@[j] != ',',
            decreases n - k,
        {
            k = k + 1;
        }
        proof {
            assert(forall|j: int| 0 <= j < k - start ==> u[j] == s@[start + j] && s@[start + j]
                != ',');
            lemma_first_comma_determined(u, 0, k - start);
            assert(u.take(k - start) =~= s@.subrange(start as int, k as int));
        }
        let piece = match parse_piece(s, start, k) {
            Ok(o) => o,
            Err(e) => {
                proof {
                    if k == n {
                        assert(u =~= s@.subrange(start as int, k as int));
                    }
                    assert(spec_split_ports(u) is None);
                }
                return Err(e);
            },
        };
        if k == n {
            proof {
                assert(u =~= s@.subrange(start as int, k as int));
            }
            match piece {
                Some(p) => {
                    let ghost old_out = out@;
                    out.push(p);
                    proof {
                        assert(out@ =~= old_out + seq![p]);
                        assert(spec_split_ports(u) == Some(seq![p]));
                        assert(old_out + seq![p] =~= out@ + Seq::<u16>::empty());
                    }
                },
                None => {
                    proof {
                        assert(spec_split_ports(u) == Some(Seq::<u16>::empty()));
                    }
                },
            }
            proof {
                assert(match spec_split_ports(s@) {
                    Some(ports) => ports =~= out@,
                    None => false,
                });
            }
            return Ok(out);
        }
        proof {
            assert(u.skip(k - start + 1) =~= s@.skip(k + 1));
        }
        match piece {
            Some(p) => {
                let ghost old_out = out@;
                out.push(p);
                proof {
                    assert(out@ =~= old_out + seq![p]);
                    match spec_split_ports(s@.skip(k + 1)) {
                        Some(tail) => {
                            assert(spec_split_ports(u) == Some(seq![p] + tail));
                            assert(old_out + (seq![p] + tail) =~= out@ + tail);
                        },
                        None => {
                            assert(spec_split_ports(u) is None);
                        },
                    }
                }
            },
            None => {},
        }
        start = k + 1;
    }
}

/// Comma-separated parsing offered on string types, as the decoder's
/// auxiliary-port lists need it.
pub trait StringExtensions {
    /// The characters the implementing string holds.
    spec fn text_view(&self) -> Seq<char>;

    /// Splits the string into a list of 16-bit port numbers on commas,
    /// skipping blank pieces and rejecting any other piece that is not
    /// exactly a number.
    fn split_comma_str_to_vec(&self) -> (r: Result<Vec<u16>, DecodeError>)
        ensures
            match spec_split_ports(self.text_view()) {
                Some(ports) => r matches Ok(v) && v@ == ports,
                None => r == Err::<Vec<u16>, DecodeError>(DecodeError::InvalidAuxPorts),
            },
    ;
}

impl StringExtensions for String {
    open spec fn text_view(&self) -> Seq<char> {
        self.view()
    }

    fn split_comma_str_to_vec(&self) -> (r: Result<Vec<u16>, DecodeError>) {
        split_comma_ports(self.as_str())
    }
}

impl<'a> StringExtensions for &'a str {
    open spec fn text_view(&self) -> Seq<char> {
        self.view()
    }

    fn split_comma_str_to_vec(&self) -> (r: Result<Vec<u16>, DecodeError>) {
        split_comma_ports(self)
    }
}

/// Comma-separated rendering offered on port slices, the inverse direction
/// of [`StringExtensions`].
pub trait SliceExtensions {
    /// The values the implementing container holds.
    spec fn items_view(&self) -> Seq<u16>;

    /// Renders the values as a comma-separated decimal list, or nothing
    /// when there are no values.
    fn to_comma_string(&self) -> (r: Option<String>)
        ensures
            self.items_view().len() == 0 ==> r is None,
            self.items_view().len() > 0 ==> (r matches Some(s) && s@ == spec_comma_string(
                self.items_view(),
            )),
    ;
}

impl SliceExtensions for Vec<u16> {
    open spec fn items_view(&self) -> Seq<u16> {
        self.view()
    }

    fn to_comma_string(&self) -> (r: Option<String>) {
        if self.len() == 0 {
            return None;
        }
        let mut out = u32_to_string(self[0] as u32);
        let mut i: usize = 1;
        while i < self.len()
            invariant
                1 <= i <= self@.len(),
                out@ == spec_comma_string(self@.take(i as int)),
            decreases self@.len() - i,
        {
            out.append(",");
            proof {
                reveal_strlit(",");
                assert(","@ =~= seq![',']);
            }
            out.append(u32_to_string(self[i] as u32).as_str());
            proof {
                assert(self@.take(i + 1).drop_last() =~= self@.take(i as int));
            }
            i = i + 1;
        }
        proof {
            assert(self@.take(self@.len() as int) =~= self@);
        }
        Some(out)
    }
}

} // verus!
