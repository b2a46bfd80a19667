use vstd::prelude::*;

use vstd::string::{StringExecFns, StrSliceExecFns};

use crate::utils::{spec_digits_val, spec_trim, trim_bounds};

verus! {

/// One `key = value` entry of an INI-style configuration file, with the
/// line it was read from.
pub struct IniFileEntry {
    value: String,
    line_index: usize,
}

/// The mathematical value of one entry.
pub struct IniEntryView {
    pub value: Seq<char>,
    pub line_index: int,
}

impl View for IniFileEntry {
    type V = IniEntryView;

    closed spec fn view(&self) -> IniEntryView {
        IniEntryView { value: self.value@, line_index: self.line_index as int }
    }
}

impl IniFileEntry {
    pub fn new(value: String, line_index: usize) -> (r: IniFileEntry)
        ensures
            r@.value == value@,
            r@.line_index == line_index,
    {
        IniFileEntry { value, line_index }
    }

    pub fn get_value(&self) -> (r: &str)
        ensures
            r@ == self@.value,
    {
        self.value.as_str()
    }
}

/// Whether two characters are equal up to ASCII letter case.
pub open spec fn chars_eq_ci(a: char, b: char) -> bool {
    ||| a == b
    ||| (65 <= a as u32 <= 90 && b as u32 == a as u32 + 32)
    ||| (65 <= b as u32 <= 90 && a as u32 == b as u32 + 32)
}

/// Whether two strings are equal up to ASCII letter case, the equality
/// section and key lookups go by.
pub open spec fn str_eq_ci(x: Seq<char>, y: Seq<char>) -> bool {
    x.len() == y.len() && forall|i: int| 0 <= i < x.len() ==> chars_eq_ci(x[i], y[i])
}

/// Decides case-insensitive string equality.
fn eq_ignore_case(a: &str, b: &str) -> (r: bool)
    ensures
        r == str_eq_ci(a@, b@),
{
    let n = a.unicode_len();
    if n != b.unicode_len() {
        return false;
    }
    let mut i: usize = 0;
    while i < n
        invariant
            0 <= i <= n,
            n == a@.len() == b@.len(),
            forall|j: int| 0 <= j < i ==> chars_eq_ci(a@[j], b@[j]),
        decreases n - i,
    {
        let ca = a.get_char(i) as u32;
        let cb = b.get_char(i) as u32;
        let la = if 65 <= ca && ca <= 90 {
            ca + 32
        } else {
            ca
        };
        let lb = if 65 <= cb && cb <= 90 {
            cb + 32
        } else {
            cb
        };
        if la != lb {
            proof {
                assert(!chars_eq_ci(a@[i as int], b@[i as int]));
            }
            return false;
        }
        i = i + 1;
    }
    true
}

/// The index of the first of the `keys` that equals `key` up to case, or
/// -1 when none does.
pub open spec fn spec_find_ci(keys: Seq<Seq<char>>, key: Seq<char>) -> int
    decreases keys.len(),
{
    if keys.len() == 0 {
        -1
    } else if str_eq_ci(keys[0], key) {
        0
    } else {
        let r = spec_find_ci(keys.drop_first(), key);
        if r < 0 {
            -1
        } else {
            r + 1
        }
    }
}

/// The case-insensitive lookup is pinned down by a scan: no match before
/// `k`, and a match (or the end) at `k`.
proof fn lemma_find_ci_determined(keys: Seq<Seq<char>>, key: Seq<char>, k: int)
    requires
        0 <= k <= keys.len(),
        forall|j: int| 0 <= j < k ==> !str_eq_ci(#[trigger] keys[j], key),
        k < keys.len() ==> str_eq_ci(keys[k], key),
    ensures
        spec_find_ci(keys, key) == if k == keys.len() {
            -1int
        } else {
            k
        },
    decreases keys.len(),
{
    if keys.len() > 0 && k > 0 {
        lemma_find_ci_determined(keys.drop_first(), key, k - 1);
    }
}

/// The characters of each string in a list, string by string.
pub open spec fn key_views(keys: Seq<String>) -> Seq<Seq<char>> {
    Seq::new(keys.len(), |k: int| keys[k]@)
}

/// One key and the entry stored under it.
struct IniKeyedEntry {
    key: String,
    entry: IniFileEntry,
}

/// Finds the first item whose key equals `key` up to case.
fn find_ci(items: &Vec<IniKeyedEntry>, key: &str) -> (r: Option<usize>)
    ensures
        match r {
            Some(k) => 0 <= k < items@.len() && spec_find_ci(item_key_views(items@), key@) == k,
            None => spec_find_ci(item_key_views(items@), key@) == -1,
        },
{
    let n = items.len();
    let mut i: usize = 0;
    while i < n
        invariant
            0 <= i <= n,
            n == items@.len(),
            forall|j: int| 0 <= j < i ==> !str_eq_ci(#[trigger] item_key_views(items@)[j], key@),
        decreases n - i,
    {
        if eq_ignore_case(items[i].key.as_str(), key) {
            proof {
                lemma_find_ci_determined(item_key_views(items@), key@, i as int);
            }
            return Some(i);
        }
        i = i + 1;
    }
    proof {
        lemma_find_ci_determined(item_key_views(items@), key@, n as int);
    }
    None
}

/// One named section: keys and their entries, in first-insertion order,
/// with at most one entry per key up to ASCII case.
pub struct IniFileSection {
    name: String,
    items: Vec<IniKeyedEntry>,
}

/// The mathematical value of a section.
pub struct IniSectionView {
    pub name: Seq<char>,
    pub keys: Seq<Seq<char>>,
    pub entries: Seq<IniEntryView>,
}

/// The keys of a section's items, item by item.
spec fn item_key_views(items: Seq<IniKeyedEntry>) -> Seq<Seq<char>> {
    Seq::new(items.len(), |k: int| items[k].key@)
}

/// The entries of a section's items, item by item.
spec fn item_entry_views(items: Seq<IniKeyedEntry>) -> Seq<IniEntryView> {
    Seq::new(items.len(), |k: int| items[k].entry@)
}

impl View for IniFileSection {
    type V = IniSectionView;

    closed spec fn view(&self) -> IniSectionView {
        IniSectionView {
            name: self.name@,
            keys: item_key_views(self.items@),
            entries: item_entry_views(self.items@),
        }
    }
}

/// A section with a name and nothing in it yet.
pub open spec fn spec_empty_section(name: Seq<char>) -> IniSectionView {
    IniSectionView { name, keys: Seq::<Seq<char>>::empty(), entries: Seq::<IniEntryView>::empty() }
}

/// Stores an entry under a key: an existing entry under the same key (up
/// to case) is replaced, keeping the key's first spelling; a new key goes
/// to the end.
pub open spec fn spec_entry_insert(
    sec: IniSectionView,
    key: Seq<char>,
    e: IniEntryView,
) -> IniSectionView {
    let k = spec_find_ci(sec.keys, key);
    if k >= 0 {
        IniSectionView { entries: sec.entries.update(k, e), ..sec }
    } else {
        IniSectionView { keys: sec.keys.push(key), entries: sec.entries.push(e), ..sec }
    }
}

impl IniFileSection {
    fn empty(name: String) -> (r: IniFileSection)
        ensures
            r@ == spec_empty_section(name@),
    {
        let r = IniFileSection { name, items: Vec::new() };
        proof {
            assert(r@.keys =~= Seq::<Seq<char>>::empty());
            assert(r@.entries =~= Seq::<IniEntryView>::empty());
        }
        r
    }

    fn insert_entry(&mut self, key: String, e: IniFileEntry)
        ensures
            final(self)@ == spec_entry_insert(old(self)@, key@, e@),
    {
        let ghost pre = self@;
        let ghost ev = e@;
        match find_ci(&self.items, key.as_str()) {
            Some(k) => {
                // The stored entry is replaced; the key keeps its first
                // spelling.
                let old_key = self.items[k].key.clone();
                self.items[k] = IniKeyedEntry { key: old_key, entry: e };
                proof {
                    assert(self@.keys =~= pre.keys);
                    assert(self@.entries =~= pre.entries.update(
                        spec_find_ci(pre.keys, key@),
                        ev,
                    ));
                }
            },
            None => {
                let ghost kv = key@;
                self.items.push(IniKeyedEntry { key, entry: e });
                proof {
                    assert(self@.keys =~= pre.keys.push(kv));
                    assert(self@.entries =~= pre.entries.push(ev));
                }
            },
        }
    }

    /// The section's name.
    pub fn name(&self) -> (r: &str)
        ensures
            r@ == self@.name,
    {
        self.name.as_str()
    }

    /// How many entries the section holds.
    pub fn len(&self) -> (n: usize)
        ensures
            n == self@.entries.len(),
    {
        self.items.len()
    }

    pub fn is_empty(&self) -> (r: bool)
        ensures
            r == (self@.entries.len() == 0),
    {
        self.items.len() == 0
    }

    /// Whether some entry is stored under the key, up to case.
    pub fn contains_key(&self, key: &str) -> (r: bool)
        ensures
            r == (spec_find_ci(self@.keys, key@) >= 0),
    {
        match find_ci(&self.items, key) {
            Some(_) => true,
            None => false,
        }
    }

    /// The entry stored under the key, up to case.
    pub fn get(&self, key: &str) -> (r: Option<&IniFileEntry>)
        ensures
            match r {
                Some(e) => spec_entry_lookup(self@, key@) == Some(e@),
                None => spec_entry_lookup(self@, key@) is None,
            },
    {
        match find_ci(&self.items, key) {
            Some(k) => Some(&self.items[k].entry),
            None => None,
        }
    }
}

/// The entry a section stores under a key, up to case.
pub open spec fn spec_entry_lookup(sec: IniSectionView, key: Seq<char>) -> Option<IniEntryView> {
    let k = spec_find_ci(sec.keys, key);
    if k >= 0 && k < sec.entries.len() {
        Some(sec.entries[k])
    } else {
        None
    }
}

/// The names of the sections, section by section.
pub open spec fn section_name_views(secs: Seq<IniSectionView>) -> Seq<Seq<char>> {
    Seq::new(secs.len(), |k: int| secs[k].name)
}

/// The section stored under a name, up to case.
pub open spec fn spec_section_lookup(secs: Seq<IniSectionView>, name: Seq<char>) -> Option<
    IniSectionView,
> {
    let k = spec_find_ci(section_name_views(secs), name);
    if k >= 0 {
        Some(secs[k])
    } else {
        None
    }
}

/// The entry a whole file stores under a section name and a key.
pub open spec fn spec_file_entry(
    secs: Seq<IniSectionView>,
    section: Seq<char>,
    key: Seq<char>,
) -> Option<IniEntryView> {
    match spec_section_lookup(secs, section) {
        Some(sec) => spec_entry_lookup(sec, key),
        None => None,
    }
}

/// Stores a section under its own name: an existing section of the same
/// name (up to case) is replaced wholesale, a new name goes to the end.
pub open spec fn spec_sections_insert(
    secs: Seq<IniSectionView>,
    sec: IniSectionView,
) -> Seq<IniSectionView> {
    let k = spec_find_ci(section_name_views(secs), sec.name);
    if k >= 0 {
        secs.update(k, sec)
    } else {
        secs.push(sec)
    }
}

/// The index of the first equals sign at or after `i`, or the length when
/// there is none.
pub open spec fn spec_first_eq_from(s: Seq<char>, i: int) -> int
    recommends
        0 <= i <= s.len(),
    decreases s.len() - i,
{
    if i < 0 || i >= s.len() {
        s.len() as int
    } else if s[i] == '=' {
        i
    } else {
        spec_first_eq_from(s, i + 1)
    }
}

/// The first equals sign is pinned down by a scan: none before `m`, one
/// (or the end) at `m`.
proof fn lemma_first_eq_determined(s: Seq<char>, i: int, m: int)
    requires
        0 <= i <= m <= s.len(),
        forall|j: int| i <= j < m ==> s[j] != '=',
        m < s.len() ==> s[m] == '=',
    ensures
        spec_first_eq_from(s, i) == m,
    decreases m - i,
{
    if i < m {
        lemma_first_eq_determined(s, i + 1, m);
    }
}

/// How one line changes the parse state: comments and blank lines change
/// nothing; a bracketed line closes the open section (unless it is the
/// still-empty unnamed root) and opens a named one; any other line stores
/// an entry in the open section, under the trimmed key before the first
/// equals sign — or under the whole untrimmed line, with an empty value,
/// when there is none.
pub open spec fn spec_parse_ini(
    lines: Seq<Seq<char>>,
    i: int,
    secs: Seq<IniSectionView>,
    cur: IniSectionView,
) -> Seq<IniSectionView>
    decreases lines.len() - i,
{
    if i < 0 || i >= lines.len() {
        spec_sections_insert(secs, cur)
    } else {
        let l = lines[i];
        if l.len() == 0 || l[0] == ';' {
            spec_parse_ini(lines, i + 1, secs, cur)
        } else if l[0] == '[' && l.last() == ']' {
            let name = spec_trim(l.subrange(1, l.len() - 1));
            if cur.name.len() > 0 || cur.entries.len() > 0 {
                spec_parse_ini(
                    lines,
                    i + 1,
                    spec_sections_insert(secs, cur),
                    spec_empty_section(name),
                )
            } else {
                spec_parse_ini(lines, i + 1, secs, spec_empty_section(name))
            }
        } else {
            let k = spec_first_eq_from(l, 0);
            let cur2 = if k < l.len() {
                spec_entry_insert(
                    cur,
                    spec_trim(l.take(k)),
                    IniEntryView { value: spec_trim(l.skip(k + 1)), line_index: i },
                )
            } else {
                spec_entry_insert(
                    cur,
                    l,
                    IniEntryView { value: Seq::<char>::empty(), line_index: i },
                )
            };
            spec_parse_ini(lines, i + 1, secs, cur2)
        }
    }
}

/// The number an entry value denotes as a 32-bit signed integer: an
/// optional sign, then at least one digit, within the type's range.
pub open spec fn spec_parse_i32(t: Seq<char>) -> Option<i32> {
    let d = if t.len() > 0 && (t[0] == '+' || t[0] == '-') {
        t.drop_first()
    } else {
        t
    };
    if d.len() == 0 {
        None
    } else {
        match spec_digits_val(d) {
            None => None,
            Some(v) => {
                let signed = if t.len() > 0 && t[0] == '-' {
                    -v
                } else {
                    v
                };
                if -2147483648 <= signed <= 2147483647 {
                    Some(signed as i32)
                } else {
                    None
                }
            },
        }
    }
}

/// Parses a 32-bit signed integer exactly: an optional sign, then digits.
fn parse_i32_str(s: &str) -> (r: Option<i32>)
    ensures
        r == spec_parse_i32(s@),
{
    let n = s.unicode_len();
    let mut i: usize = 0;
    let mut negative = false;
    if n > 0 {
        let c0 = s.get_char(0);
        if c0 == '+' || c0 == '-' {
            i = 1;
            negative = c0 == '-';
        }
    }
    let ghost d = if s@.len() > 0 && (s@[0] == '+' || s@[0] == '-') {
        s@.drop_first()
    } else {
        s@
    };
    proof {
        assert(d =~= s@.subrange(i as int, n as int));
    }
    if i == n {
        return None;
    }
    let mut acc: u64 = 0;
    let ghost mut gv: int = 0;
    let mut ovf = false;
    let mut j = i;
    while j < n
        invariant
            i <= j <= n <= s@.len(),
            n == s@.len(),
            d == s@.subrange(i as int, n as int),
            d == (if s@.len() > 0 && (s@[0] == '+' || s@[0] == '-') {
                s@.drop_first()
            } else {
                s@
            }),
            d.len() > 0,
            spec_digits_val(s@.subrange(i as int, j as int)) == Some(gv),
            0 <= gv,
            !ovf ==> gv == acc && acc <= 2147483648,
            ovf ==> gv > 2147483648,
        decreases n - j,
    {
        let c = s.get_char(j);
        let u = c as u32;
        if u < 48 || u > 57 {
            proof {
                lemma_parse_nondigit(d, j - i);
            }
            return None;
        }
        let dv = (u - 48) as u64;
        proof {
            assert(s@.subrange(i as int, j + 1).drop_last() =~= s@.subrange(i as int, j as int));
            assert(s@.subrange(i as int, j + 1).last() == s@[j as int]);
            gv = gv * 10 + dv;
        }
        if !ovf {
            let na = acc * 10 + dv;
            if na > 2147483648 {
                ovf = true;
            } else {
                acc = na;
            }
        }
        j = j + 1;
    }
    proof {
        assert(s@.subrange(i as int, n as int) =~= d);
    }
    if ovf {
        None
    } else if negative {
        Some((-(acc as i64)) as i32)
    } else if acc <= 2147483647 {
        Some(acc as i32)
    } else {
        None
    }
}

/// A digit string with a non-digit in it denotes nothing.
proof fn lemma_parse_nondigit(d: Seq<char>, j: int)
    requires
        0 <= j < d.len(),
        !crate::utils::is_dec_digit(d[j]),
    ensures
        spec_digits_val(d) is None,
    decreases d.len(),
{
    if j < d.len() - 1 {
        lemma_parse_nondigit(d.drop_last(), j);
    }
}

/// The sections of a file, section by section.
pub open spec fn section_views(secs: Seq<IniFileSection>) -> Seq<IniSectionView> {
    Seq::new(secs.len(), |k: int| secs[k]@)
}

/// An INI-style configuration file: the raw lines, and the sections built
/// from them.  Keys before any bracketed header land in an unnamed root
/// section.
pub struct IniFile {
    lines: Vec<String>,
    sections: Vec<IniFileSection>,
}

/// The mathematical value of a parsed file.
pub struct IniFileView {
    pub lines: Seq<Seq<char>>,
    pub sections: Seq<IniSectionView>,
}

impl View for IniFile {
    type V = IniFileView;

    closed spec fn view(&self) -> IniFileView {
        IniFileView { lines: key_views(self.lines@), sections: section_views(self.sections@) }
    }
}

/// Finds the first section whose name equals `name` up to case.
fn find_section_ci(sections: &Vec<IniFileSection>, name: &str) -> (r: Option<usize>)
    ensures
        match r {
            Some(k) => 0 <= k < sections@.len() && spec_find_ci(
                section_name_views(section_views(sections@)),
                name@,
            ) == k,
            None => spec_find_ci(section_name_views(section_views(sections@)), name@) == -1,
        },
{
    let n = sections.len();
    let mut i: usize = 0;
    while i < n
        invariant
            0 <= i <= n,
            n == sections@.len(),
            forall|j: int|
                0 <= j < i ==> !str_eq_ci(
                    #[trigger] section_name_views(section_views(sections@))[j],
                    name@,
                ),
        decreases n - i,
    {
        if eq_ignore_case(sections[i].name.as_str(), name) {
            proof {
                lemma_find_ci_determined(
                    section_name_views(section_views(sections@)),
                    name@,
                    i as int,
                );
            }
            return Some(i);
        }
        i = i + 1;
    }
    proof {
        lemma_find_ci_determined(section_name_views(section_views(sections@)), name@, n as int);
    }
    None
}

/// Stores a section under its own name, replacing a same-named one.
fn sections_insert(sections: &mut Vec<IniFileSection>, sec: IniFileSection)
    ensures
        section_views(final(sections)@) == spec_sections_insert(
            section_views(old(sections)@),
            sec@,
        ),
{
    let ghost pre = section_views(sections@);
    let ghost sv = sec@;
    match find_section_ci(sections, sec.name.as_str()) {
        Some(k) => {
            sections[k] = sec;
            proof {
                assert(section_views(sections@) =~= pre.update(
                    spec_find_ci(section_name_views(pre), sv.name),
                    sv,
                ));
            }
        },
        None => {
            sections.push(sec);
            proof {
                assert(section_views(sections@) =~= pre.push(sv));
            }
        },
    }
}

/// The characters of the piece `lo..hi` of `s`, trimmed, as a string of
/// its own.
fn trimmed_string(s: &str, lo: usize, hi: usize) -> (r: String)
    requires
        lo <= hi <= s@.len(),
    ensures
        r@ == spec_trim(s@.subrange(lo as int, hi as int)),
{
    let (a, b) = trim_bounds(s, lo, hi);
    String::from_str(s.substring_char(a, b))
}

impl IniFile {
    /// Parses the lines into sections, keeping the lines.
    pub fn new(lines: Vec<String>) -> (r: IniFile)
        ensures
            r@.lines == key_views(lines@),
            r@.sections == spec_parse_ini(
                key_views(lines@),
                0,
                Seq::<IniSectionView>::empty(),
                spec_empty_section(Seq::<char>::empty()),
            ),
    {
        let ghost lv = key_views(lines@);
        let mut sections: Vec<IniFileSection> = Vec::new();
        let mut cur = IniFileSection::empty(String::new());
        proof {
            assert(section_views(sections@) =~= Seq::<IniSectionView>::empty());
        }
        let mut i: usize = 0;
        while i < lines.len()
            invariant
                0 <= i <= lines@.len(),
                lv == key_views(lines@),
                lv.len() == lines@.len(),
                spec_parse_ini(
                    lv,
                    0,
                    Seq::<IniSectionView>::empty(),
                    spec_empty_section(Seq::<char>::empty()),
                ) == spec_parse_ini(lv, i as int, section_views(sections@), cur@),
            decreases lines@.len() - i,
        {
            let ghost l = lv[i as int];
            proof {
                assert(l == lines@[i as int]@);
            }
            let line = lines[i].as_str();
            let n = line.unicode_len();
            if n == 0 || line.get_char(0) == ';' {
                // Comment or blank line: nothing changes.
            } else if line.get_char(0) == '[' && line.get_char(n - 1) == ']' {
                let name = trimmed_string(line, 1, n - 1);
                proof {
                    assert(l.subrange(1, l.len() - 1) == line@.subrange(1, n - 1));
                }
                if !cur.name.as_str().is_empty() || cur.len() > 0 {
                    let prev = cur;
                    cur = IniFileSection::empty(name);
                    sections_insert(&mut sections, prev);
                } else {
                    cur = IniFileSection::empty(name);
                }
            } else {
                let mut k: usize = 0;
                while k < n && line.get_char(k) != '='
                    invariant
                        0 <= k <= n,
                        n == line@.len(),
                        forall|j: int| 0 <= j < k ==> line@[j] != '=',
                    decreases n - k,
                {
                    k = k + 1;
                }
                proof {
                    lemma_first_eq_determined(l, 0, k as int);
                }
                if k < n {
                    let key = trimmed_string(line, 0, k);
                    let value = trimmed_string(line, k + 1, n);
                    proof {
                        assert(l.take(k as int) =~= line@.subrange(0, k as int));
                        assert(l.skip(k + 1) =~= line@.subrange(k + 1, n as int));
                    }
                    cur.insert_entry(key, IniFileEntry::new(value, i));
                } else {
                    // A key with no value: the whole untrimmed line is
                    // the key, the value is empty.
                    let key = String::from_str(line);
                    cur.insert_entry(key, IniFileEntry::new(String::new(), i));
                }
            }
            i = i + 1;
        }
        sections_insert(&mut sections, cur);
        let r = IniFile { lines, sections };
        proof {
            assert(r@.lines =~= lv);
        }
        r
    }

    /// The section stored under the name, up to case.
    pub fn get_section(&self, section: &str) -> (r: Option<&IniFileSection>)
        ensures
            match r {
                Some(sec) => spec_section_lookup(self@.sections, section@) == Some(sec@),
                None => spec_section_lookup(self@.sections, section@) is None,
            },
    {
        match find_section_ci(&self.sections, section) {
            Some(k) => Some(&self.sections[k]),
            None => None,
        }
    }

    /// The entry stored under the section name and key.  `None` when
    /// either the section or the key is missing.
    pub fn get_entry(&self, section: &str, key: &str) -> (r: Option<&IniFileEntry>)
        ensures
            match r {
                Some(e) => spec_file_entry(self@.sections, section@, key@) == Some(e@),
                None => spec_file_entry(self@.sections, section@, key@) is None,
            },
    {
        match self.get_section(section) {
            Some(sec) => sec.get(key),
            None => None,
        }
    }

    /// The string value stored under the section name and key.
    pub fn get_str_opt(&self, section: &str, key: &str) -> (r: Option<&str>)
        ensures
            match r {
                Some(v) => (spec_file_entry(self@.sections, section@, key@) matches Some(e)
                    && v@ == e.value),
                None => spec_file_entry(self@.sections, section@, key@) is None,
            },
    {
        match self.get_entry(section, key) {
            Some(e) => Some(e.get_value()),
            None => None,
        }
    }

    /// The string value stored under the section name and key, which must
    /// be present.
    pub fn get_str(&self, section: &str, key: &str) -> (r: &str)
        requires
            spec_file_entry(self@.sections, section@, key@) is Some,
        ensures
            spec_file_entry(self@.sections, section@, key@) matches Some(e) && r@ == e.value,
    {
        match self.get_str_opt(section, key) {
            Some(v) => v,
            None => "",
        }
    }

    /// Whether the value stored under the section name and key is the
    /// string `1`, the file format's spelling of true; any other value is
    /// false.  `None` when the entry is missing.
    pub fn get_bool_opt(&self, section: &str, key: &str) -> (r: Option<bool>)
        ensures
            match spec_file_entry(self@.sections, section@, key@) {
                Some(e) => r == Some(e.value == "1"@),
                None => r is None,
            },
    {
        match self.get_str_opt(section, key) {
            Some(v) => Some(crate::text::str_eq_str(v, "1")),
            None => None,
        }
    }

    /// The boolean stored under the section name and key, which must be
    /// present.
    pub fn get_bool(&self, section: &str, key: &str) -> (r: bool)
        requires
            spec_file_entry(self@.sections, section@, key@) is Some,
        ensures
            spec_file_entry(self@.sections, section@, key@) matches Some(e) && r == (e.value
                == "1"@),
    {
        match self.get_bool_opt(section, key) {
            Some(b) => b,
            None => false,
        }
    }

    /// The integer the value under the section name and key denotes.
    /// `None` when the entry is missing or its value is not exactly a
    /// 32-bit integer.
    pub fn get_i32_opt(&self, section: &str, key: &str) -> (r: Option<i32>)
        ensures
            match spec_file_entry(self@.sections, section@, key@) {
                Some(e) => r == spec_parse_i32(e.value),
                None => r is None,
            },
    {
        match self.get_str_opt(section, key) {
            Some(v) => parse_i32_str(v),
            None => None,
        }
    }

    /// The integer stored under the section name and key, which must be
    /// present and numeric.
    pub fn get_i32(&self, section: &str, key: &str) -> (r: i32)
        requires
            spec_file_entry(self@.sections, section@, key@) is Some,
            spec_parse_i32(
                spec_file_entry(self@.sections, section@, key@)->Some_0.value,
            ) is Some,
        ensures
            Some(r) == spec_parse_i32(
                spec_file_entry(self@.sections, section@, key@)->Some_0.value,
            ),
    {
        match self.get_i32_opt(section, key) {
            Some(v) => v,
            None => 0,
        }
    }
}

} // verus!
