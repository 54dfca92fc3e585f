//! Names of local and remote artifacts: extensions, archive paths, remote
//! object keys and the classification of downloaded files.

use vstd::prelude::*;
use vstd::string::*;
use chrono::Datelike;
use crate::cipher::os_random_bytes;
use crate::text::{chars_of, string_of, push_char, has_suffix, ends_with, padded_decimal, decimal,
    push_decimal, digit};

verus! {

/// Index just past the last `/` in `s`, or 0 when there is none.
pub open spec fn base_start(s: Seq<char>) -> int
    decreases s.len(),
{
    if s.len() == 0 {
        0
    } else if s.last() == '/' {
        s.len() as int
    } else {
        base_start(s.drop_last())
    }
}

/// The last component of a slash-separated path.
pub open spec fn base_name(s: Seq<char>) -> Seq<char> {
    s.subrange(base_start(s), s.len() as int)
}

/// Index of the first `.` in `s`, if any.
pub open spec fn first_dot(s: Seq<char>) -> Option<int>
    decreases s.len(),
{
    if s.len() == 0 {
        None
    } else if s[0] == '.' {
        Some(0)
    } else {
        match first_dot(s.drop_first()) {
            Some(k) => Some(k + 1),
            None => None,
        }
    }
}

/// Where the file name of the path `s[0..e]` stands, as `Path::file_name`
/// reads it: trailing slashes and `.` components are skipped, and a path
/// that ends in `..`, or has no last component, has no file name.
pub open spec fn file_name_range(s: Seq<char>, e: int) -> Option<(int, int)>
    decreases e,
{
    if e <= 0 || e > s.len() {
        None
    } else if s[e - 1] == '/' {
        file_name_range(s, e - 1)
    } else if s[e - 1] == '.' && e == 1 {
        None
    } else if s[e - 1] == '.' && s[e - 2] == '/' {
        file_name_range(s, e - 2)
    } else {
        let b = base_start(s.subrange(0, e));
        if e - b == 2 && s[b] == '.' && s[b + 1] == '.' {
            None
        } else {
            Some((b, e))
        }
    }
}

/// Everything from the first dot of the file name on (`".tar.gz"` for
/// `"dir/x.tar.gz"`), or nothing when the name has no dot or there is no
/// file name.
pub open spec fn full_extension_of(path: Seq<char>) -> Seq<char> {
    match file_name_range(path, path.len() as int) {
        None => Seq::empty(),
        Some((b, e)) => {
            let name = path.subrange(b, e);
            match first_dot(name) {
                Some(k) => name.subrange(k, name.len() as int),
                None => Seq::empty(),
            }
        },
    }
}

proof fn lemma_base_start_bounds(s: Seq<char>)
    ensures
        0 <= base_start(s) <= s.len(),
        base_start(s) > 0 ==> s[base_start(s) - 1] == '/',
        forall|k: int| base_start(s) <= k < s.len() ==> s[k] != '/',
    decreases s.len(),
{
    if s.len() > 0 && s.last() != '/' {
        lemma_base_start_bounds(s.drop_last());
        assert forall|k: int| base_start(s) <= k < s.len() implies s[k] != '/' by {
            if k < s.len() - 1 {
                assert(s[k] == s.drop_last()[k]);
            }
        }
    }
}

proof fn lemma_first_dot_bounds(s: Seq<char>)
    ensures
        first_dot(s) matches Some(k) ==> 0 <= k < s.len() && s[k] == '.',
    decreases s.len(),
{
    if s.len() > 0 && s[0] != '.' {
        lemma_first_dot_bounds(s.drop_first());
    }
}

fn base_start_exec(cs: &Vec<char>) -> (r: usize)
    ensures
        r as int == base_start(cs@),
{
    assert(cs@.subrange(0, cs@.len() as int) =~= cs@);
    base_start_upto(cs, cs.len())
}

fn base_start_upto(cs: &Vec<char>, end: usize) -> (r: usize)
    requires
        end <= cs@.len(),
    ensures
        r as int == base_start(cs@.subrange(0, end as int)),
{
    let mut i: usize = end;
    let ghost s = cs@.subrange(0, end as int);
    assert(s.subrange(0, i as int) =~= s);
    while i > 0
        invariant
            i <= end <= cs@.len(),
            s == cs@.subrange(0, end as int),
            base_start(s) == base_start(s.subrange(0, i as int)),
        decreases i,
    {
        if cs[i - 1] == '/' {
            assert(s.subrange(0, i as int).last() == '/');
            return i;
        }
        assert(s.subrange(0, i as int).drop_last() =~= s.subrange(0, i - 1));
        i = i - 1;
    }
    i
}

fn first_dot_exec(cs: &Vec<char>, from: usize, to: usize) -> (r: Option<usize>)
    requires
        from <= to <= cs@.len(),
    ensures
        match first_dot(cs@.subrange(from as int, to as int)) {
            Some(k) => r == Some((k + from) as usize),
            None => r.is_none(),
        },
{
    let mut i: usize = to;
    let mut found: Option<usize> = None;
    while i > from
        invariant
            from <= i <= to <= cs@.len(),
            match first_dot(cs@.subrange(i as int, to as int)) {
                Some(k) => found == Some((k + i) as usize),
                None => found.is_none(),
            },
        decreases i,
    {
        let ghost tail = cs@.subrange(i as int, to as int);
        let ghost t2 = cs@.subrange(i - 1, to as int);
        assert(t2.drop_first() =~= tail);
        if cs[i - 1] == '.' {
            found = Some(i - 1);
        }
        i = i - 1;
    }
    found
}

fn file_name_range_exec(cs: &Vec<char>, e: usize) -> (r: Option<(usize, usize)>)
    requires
        e <= cs@.len(),
    ensures
        match file_name_range(cs@, e as int) {
            Some((b, f)) => r == Some((b as usize, f as usize)) && 0 <= b <= f <= e,
            None => r.is_none(),
        },
    decreases e,
{
    if e == 0 {
        return None;
    }
    if cs[e - 1] == '/' {
        return file_name_range_exec(cs, e - 1);
    }
    if cs[e - 1] == '.' && e == 1 {
        return None;
    }
    if cs[e - 1] == '.' && cs[e - 2] == '/' {
        return file_name_range_exec(cs, e - 2);
    }
    let b = base_start_upto(cs, e);
    proof {
        lemma_base_start_bounds(cs@.subrange(0, e as int));
    }
    if e - b == 2 && cs[b] == '.' && cs[b + 1] == '.' {
        None
    } else {
        Some((b, e))
    }
}

/// The multi-part extension of the path's file name: from its first dot to
/// the end (`".tar.gz"` for `"/tmp/x.tar.gz"`), or `""` without a dot or
/// without a file name (`"a/.."`).
pub fn full_extension(path: &str) -> (r: String)
    ensures
        r@ == full_extension_of(path@),
{
    let cs = chars_of(path);
    match file_name_range_exec(&cs, cs.len()) {
        None => String::new(),
        Some((b, e)) => {
            proof {
                lemma_first_dot_bounds(cs@.subrange(b as int, e as int));
            }
            match first_dot_exec(&cs, b, e) {
                Some(k) => {
                    let mut out: Vec<char> = Vec::new();
                    let mut i: usize = k;
                    while i < e
                        invariant
                            k <= i <= e <= cs@.len(),
                            out@ == cs@.subrange(k as int, i as int),
                        decreases e - i,
                    {
                        out.push(cs[i]);
                        i = i + 1;
                        assert(out@ =~= cs@.subrange(k as int, i as int));
                    }
                    let ghost name = cs@.subrange(b as int, e as int);
                    assert(name.subrange(k - b, name.len() as int) =~= cs@.subrange(k as int, e as int));
                    string_of(&out)
                },
                None => String::new(),
            }
        },
    }
}

/// Name of an archive uploaded under the random identifier `id`.
pub open spec fn artifact_name(id: Seq<char>, encrypt: bool) -> Seq<char> {
    if encrypt {
        id + ".tar.gz.enc"@
    } else {
        id + ".tar.gz"@
    }
}

/// Name of the uploaded archive for the identifier `id`:
/// `<id>.tar.gz`, with `.enc` appended when the archive is encrypted.
pub fn artifact_file_name(id: &str, encrypt: bool) -> (r: String)
    ensures
        r@ == artifact_name(id@, encrypt),
{
    let mut s = String::from_str(id);
    if encrypt {
        s.append(".tar.gz.enc");
    } else {
        s.append(".tar.gz");
    }
    s
}

/// A lowercase hexadecimal digit.
pub open spec fn is_lower_hex(c: char) -> bool {
    ('0' <= c && c <= '9') || ('a' <= c && c <= 'f')
}

/// The hyphenated text of a random (version 4, RFC 4122 variant) UUID:
/// 36 characters, hyphens at 8, 13, 18 and 23, lowercase hexadecimal digits
/// elsewhere, `4` at 14 and one of `8`, `9`, `a`, `b` at 19.
pub open spec fn uuid_v4_text(s: Seq<char>) -> bool {
    &&& s.len() == 36
    &&& forall|i: int| 0 <= i < 36 ==> if i == 8 || i == 13 || i == 18 || i == 23 {
        s[i] == '-'
    } else {
        is_lower_hex(#[trigger] s[i])
    }
    &&& s[14] == '4'
    &&& (s[19] == '8' || s[19] == '9' || s[19] == 'a' || s[19] == 'b')
}

/// The lowercase hexadecimal digit for `n` (0 to 15).
pub open spec fn hex_digit(n: int) -> char {
    if n < 10 {
        digit(n)
    } else if n == 10 {
        'a'
    } else if n == 11 {
        'b'
    } else if n == 12 {
        'c'
    } else if n == 13 {
        'd'
    } else if n == 14 {
        'e'
    } else {
        'f'
    }
}

/// Byte `k` of the UUID built from `b`: byte 6 carries version 4 in its high
/// four bits, byte 8 the RFC 4122 variant (`10`) in its high two bits.
pub open spec fn v4_byte(b: Seq<u8>, k: int) -> int {
    if k == 6 {
        (b[6] as int) % 16 + 64
    } else if k == 8 {
        (b[8] as int) % 64 + 128
    } else {
        b[k] as int
    }
}

/// Hexadecimal digit `i` (0 to 31) of the UUID built from `b`, high half of
/// each byte first.
pub open spec fn v4_nibble(b: Seq<u8>, i: int) -> int {
    if i % 2 == 0 { v4_byte(b, i / 2) / 16 } else { v4_byte(b, i / 2) % 16 }
}

/// Hyphens before position `j` of the hyphenated form.
pub open spec fn hyphens_before(j: int) -> int {
    (if j > 8 { 1int } else { 0int }) + (if j > 13 { 1int } else { 0int }) + (if j > 18 { 1int } else { 0int })
        + (if j > 23 { 1int } else { 0int })
}

/// The hyphenated lowercase text of the version 4 UUID built from the 16
/// bytes `b`.
pub open spec fn uuid_v4_of(b: Seq<u8>) -> Seq<char> {
    Seq::new(36, |j: int| if j == 8 || j == 13 || j == 18 || j == 23 {
        '-'
    } else {
        hex_digit(v4_nibble(b, j - hyphens_before(j)))
    })
}

proof fn lemma_uuid_v4_of_shape(b: Seq<u8>)
    requires
        b.len() == 16,
    ensures
        uuid_v4_text(uuid_v4_of(b)),
{
    let s = uuid_v4_of(b);
    assert forall|i: int| 0 <= i < 36 implies if i == 8 || i == 13 || i == 18 || i == 23 {
        s[i] == '-'
    } else {
        is_lower_hex(#[trigger] s[i])
    } by {
        if !(i == 8 || i == 13 || i == 18 || i == 23) {
            let k = i - hyphens_before(i);
            assert(0 <= k < 32);
            assert(0 <= v4_byte(b, k / 2) < 256);
            assert(0 <= v4_nibble(b, k) < 16);
        }
    }
    assert(v4_nibble(b, 12) == 4);
    assert(8 <= v4_nibble(b, 16) < 12);
}

/// Relies on `uuid::Builder::from_random_bytes` and the hyphenated rendering
/// of `Uuid` (`fmt.rs`, lowercase): the version 4, RFC 4122 variant UUID made
/// of the 16 bytes.
#[verifier::external_body]
fn uuid_from_random_bytes(bytes: &[u8]) -> (r: String)
    requires
        bytes@.len() == 16,
    ensures
        r@ == uuid_v4_of(bytes@),
{
    let array: [u8; 16] = bytes.try_into().unwrap();
    uuid::Builder::from_random_bytes(array).into_uuid().hyphenated().to_string()
}

/// A fresh random UUID v4, or `None` when the system's random source fails.
pub fn random_uuid() -> (r: Option<String>)
    ensures
        r.is_some() ==> uuid_v4_text(r.unwrap()@),
{
    match os_random_bytes(16) {
        Ok(b) => {
            proof {
                lemma_uuid_v4_of_shape(b@);
            }
            Some(uuid_from_random_bytes(b.as_slice()))
        },
        Err(_) => None,
    }
}

/// A fresh archive name: a new random UUID v4 followed by `.tar.gz`, and by
/// `.enc` when the archive is encrypted; `None` when the system's random
/// source fails.
pub fn full_file_name(encrypt: bool) -> (r: Option<String>)
    ensures
        r.is_some() ==> exists|id: Seq<char>| uuid_v4_text(id) && r.unwrap()@ == artifact_name(id, encrypt),
{
    match random_uuid() {
        Some(id) => Some(artifact_file_name(id.as_str(), encrypt)),
        None => None,
    }
}

/// A calendar date in the proleptic Gregorian calendar.
#[derive(Clone, Copy, Debug, PartialEq, Eq)]
pub struct CalendarDate {
    pub year: i32,
    pub month: u32,
    pub day: u32,
}

impl CalendarDate {
    pub open spec fn wf(&self) -> bool {
        1 <= self.month <= 12 && 1 <= self.day <= 31
    }
}

/// The year as `%Y` writes it: four digits, zero padded, for years 0 to 9999;
/// otherwise a sign followed by at least four digits.
pub open spec fn year_text(y: int) -> Seq<char> {
    if 0 <= y <= 9999 {
        padded_decimal(y as nat, 4)
    } else if y > 9999 {
        seq!['+'] + padded_decimal(y as nat, 4)
    } else {
        seq!['-'] + padded_decimal((-y) as nat, 4)
    }
}

/// `YYYY-MM-DD`.
pub open spec fn date_text(d: CalendarDate) -> Seq<char> {
    year_text(d.year as int) + seq!['-'] + padded_decimal(d.month as nat, 2) + seq!['-']
        + padded_decimal(d.day as nat, 2)
}

/// Remote key of an artifact uploaded on `date`.
pub open spec fn remote_path_of(date: CalendarDate, file_name: Seq<char>) -> Seq<char> {
    "backups/"@ + date_text(date) + seq!['/'] + file_name
}

proof fn lemma_decimal_len(n: nat)
    ensures
        decimal(n).len() >= 1,
        n < 10 ==> decimal(n).len() == 1,
        10 <= n < 100 ==> decimal(n).len() == 2,
        100 <= n < 1000 ==> decimal(n).len() == 3,
        1000 <= n ==> decimal(n).len() >= 4,
    decreases n,
{
    if n >= 10 {
        lemma_decimal_len(n / 10);
    }
}

fn push_padded(s: &mut String, n: u64, width: u64)
    requires
        width <= 4,
    ensures
        final(s)@ == old(s)@ + padded_decimal(n as nat, width as nat),
{
    proof {
        lemma_decimal_len(n as nat);
    }
    let ghost d = decimal(n as nat);
    let digits: u64 = if n < 10 { 1 } else if n < 100 { 2 } else if n < 1000 { 3 } else { 4 };
    let pad: u64 = if digits < width { width - digits } else { 0 };
    assert(pad == if d.len() >= width { 0 } else { width - d.len() });
    let ghost start = s@;
    let mut j: u64 = 0;
    while j < pad
        invariant
            j <= pad,
            s@ == start + Seq::new(j as nat, |i: int| '0'),
        decreases pad - j,
    {
        push_char(s, '0');
        j = j + 1;
        assert(s@ =~= start + Seq::new(j as nat, |i: int| '0'));
    }
    push_decimal(s, n);
    assert(s@ =~= start + padded_decimal(n as nat, width as nat));
}

/// Writes `date` as `YYYY-MM-DD`.
pub fn date_stamp(date: CalendarDate) -> (r: String)
    ensures
        r@ == date_text(date),
{
    let mut s = String::new();
    let y = date.year;
    if y >= 0 {
        if y > 9999 {
            push_char(&mut s, '+');
        }
        push_padded(&mut s, y as u64, 4);
    } else {
        push_char(&mut s, '-');
        let a: u64 = (0i64 - (y as i64)) as u64;
        push_padded(&mut s, a, 4);
    }
    push_char(&mut s, '-');
    push_padded(&mut s, date.month as u64, 2);
    push_char(&mut s, '-');
    push_padded(&mut s, date.day as u64, 2);
    assert(s@ =~= date_text(date));
    s
}

/// Remote key of an artifact: `backups/YYYY-MM-DD/<file_name>`.
pub fn remote_path(date: CalendarDate, file_name: &str) -> (r: String)
    ensures
        r@ == remote_path_of(date, file_name@),
{
    let mut s = String::from_str("backups/");
    let stamp = date_stamp(date);
    s.append(stamp.as_str());
    push_char(&mut s, '/');
    s.append(file_name);
    assert(s@ =~= remote_path_of(date, file_name@));
    s
}

/// Relies on `std::time::SystemTime::now` and `SystemTime::duration_since`:
/// whole seconds since 1970-01-01 UTC by the system clock, or `None` when
/// the clock reads earlier.
#[verifier::external_body]
fn unix_seconds_now() -> (r: Option<u64>)
{
    std::time::SystemTime::now().duration_since(std::time::UNIX_EPOCH).ok().map(|d| d.as_secs())
}

/// The UTC calendar date (year, month, day) at `secs` seconds after
/// 1970-01-01, or nothing when the instant is out of chrono's range.
pub uninterp spec fn utc_date_of(secs: int) -> Option<(int, int, int)>;

/// Relies on `chrono::DateTime::from_timestamp` and `Datelike`: the UTC date
/// at `secs` seconds after 1970-01-01, with month 1 to 12 and day 1 to 31, or
/// `None` when the instant is out of chrono's range.
#[verifier::external_body]
fn utc_date_at(secs: i64) -> (r: Option<CalendarDate>)
    ensures
        r.is_some() ==> r.unwrap().wf(),
        utc_date_of(secs as int) == (match r {
            Some(d) => Some((d.year as int, d.month as int, d.day as int)),
            None => None::<(int, int, int)>,
        }),
{
    chrono::DateTime::from_timestamp(secs, 0).map(|t| CalendarDate { year: t.year(), month: t.month(), day: t.day() })
}

/// Today's date in UTC, or `None` when the clock cannot give one.
pub fn utc_today() -> (r: Option<CalendarDate>)
    ensures
        r.is_some() ==> r.unwrap().wf(),
{
    match unix_seconds_now() {
        Some(secs) => {
            if secs > i64::MAX as u64 {
                None
            } else {
                utc_date_at(secs as i64)
            }
        },
        None => None,
    }
}

/// Remote key for `file_name` under today's UTC date, or `None` when the
/// clock cannot give the date.
pub fn full_file_path(file_name: &String) -> (r: Option<String>)
    ensures
        r.is_some() ==> exists|d: CalendarDate| d.wf() && r.unwrap()@ == remote_path_of(d, file_name@),
{
    match utc_today() {
        Some(today) => Some(remote_path(today, file_name.as_str())),
        None => None,
    }
}

/// Index of the last `.` in `s`, if any.
pub open spec fn last_dot(s: Seq<char>) -> Option<int>
    decreases s.len(),
{
    if s.len() == 0 {
        None
    } else if s.last() == '.' {
        Some(s.len() - 1)
    } else {
        last_dot(s.drop_last())
    }
}

/// A file name without its last extension, as `Path::with_extension("")`
/// leaves it: a leading dot does not start an extension.
pub open spec fn without_extension(name: Seq<char>) -> Seq<char> {
    match last_dot(name) {
        Some(k) => if k > 0 { name.subrange(0, k) } else { name },
        None => name,
    }
}

/// The archive a dump is compressed to: the same path when the file name
/// already ends in `.tar.gz`; otherwise `<stem>.tar.gz` beside it, the stem
/// being the name without its last extension. A path without a file name
/// has no archive.
pub open spec fn archive_path_of(path: Seq<char>) -> Option<Seq<char>> {
    let b = base_start(path);
    let name = base_name(path);
    if name.len() == 0 {
        None
    } else if has_suffix(name, ".tar.gz"@) {
        Some(path)
    } else {
        Some(path.subrange(0, b) + without_extension(name) + ".tar.gz"@)
    }
}

fn without_extension_exec(name: &Vec<char>) -> (r: Vec<char>)
    ensures
        r@ == without_extension(name@),
{
    let mut i: usize = name.len();
    assert(name@.subrange(0, i as int) =~= name@);
    while i > 0
        invariant
            i <= name@.len(),
            last_dot(name@) == last_dot(name@.subrange(0, i as int)),
        decreases i,
    {
        if name[i - 1] == '.' {
            assert(name@.subrange(0, i as int).last() == '.');
            if i - 1 > 0 {
                let mut out: Vec<char> = Vec::new();
                let mut j: usize = 0;
                while j < i - 1
                    invariant
                        j <= i - 1,
                        i <= name@.len(),
                        out@ == name@.subrange(0, j as int),
                    decreases i - 1 - j,
                {
                    out.push(name[j]);
                    j = j + 1;
                    assert(out@ =~= name@.subrange(0, j as int));
                }
                return out;
            }
            return name.clone();
        }
        assert(name@.subrange(0, i as int).drop_last() =~= name@.subrange(0, i - 1));
        i = i - 1;
    }
    name.clone()
}

/// The archive path for a dump at `path` (see `archive_path_of`).
pub fn archive_path(path: &str) -> (r: Option<String>)
    ensures
        has_suffix(base_name(path@), ".tar.gz"@) ==> r.is_some() && r.unwrap()@ == path@,
        r.is_some() == archive_path_of(path@).is_some(),
        r.is_some() ==> r.unwrap()@ == archive_path_of(path@).unwrap(),
{
    let cs = chars_of(path);
    let b = base_start_exec(&cs);
    proof {
        lemma_base_start_bounds(cs@);
    }
    let mut name: Vec<char> = Vec::new();
    let mut dir: Vec<char> = Vec::new();
    let mut i: usize = 0;
    while i < cs.len()
        invariant
            b <= cs@.len(),
            i <= cs@.len(),
            i <= b ==> dir@ == cs@.subrange(0, i as int) && name@.len() == 0,
            i > b ==> dir@ == cs@.subrange(0, b as int) && name@ == cs@.subrange(b as int, i as int),
        decreases cs@.len() - i,
    {
        if i < b {
            dir.push(cs[i]);
        } else {
            name.push(cs[i]);
        }
        i = i + 1;
        assert(i <= b ==> dir@ =~= cs@.subrange(0, i as int));
        assert(i > b ==> name@ =~= cs@.subrange(b as int, i as int));
    }
    assert(name@ =~= base_name(cs@));
    assert(dir@ =~= cs@.subrange(0, b as int));
    proof {
        reveal_strlit(".tar.gz");
    }
    if name.len() == 0 {
        return None;
    }
    if ends_with(name.as_slice(), ".tar.gz") {
        return Some(String::from_str(path));
    }
    let once = without_extension_exec(&name);
    let mut out = string_of(dir.as_slice());
    let stem = string_of(once.as_slice());
    out.append(stem.as_str());
    out.append(".tar.gz");
    Some(out)
}

/// The outcome of compressing a dump.
pub struct CompressionResult {
    pub compressed_path: String,
}

/// How a downloaded backup is to be restored.
#[derive(Clone, Copy, Debug, PartialEq, Eq, Structural)]
pub enum DownloadKind {
    /// A plain `.sql` or `.dump` file, restored as it is.
    Legacy,
    /// A `.tar.gz` archive.
    Compressed,
    /// A `.tar.gz.enc` archive, decrypted first.
    Encrypted,
    /// Anything else; the restore fails.
    Unknown,
}

pub open spec fn download_kind_of(name: Seq<char>) -> DownloadKind {
    if has_suffix(name, ".sql"@) || has_suffix(name, ".dump"@) {
        DownloadKind::Legacy
    } else if has_suffix(name, ".tar.gz"@) {
        DownloadKind::Compressed
    } else if has_suffix(name, ".tar.gz.enc"@) {
        DownloadKind::Encrypted
    } else {
        DownloadKind::Unknown
    }
}

/// Classifies a downloaded file by its name's suffix.
pub fn classify_download(name: &str) -> (r: DownloadKind)
    ensures
        r == download_kind_of(name@),
{
    let cs = chars_of(name);
    if ends_with(cs.as_slice(), ".sql") || ends_with(cs.as_slice(), ".dump") {
        DownloadKind::Legacy
    } else if ends_with(cs.as_slice(), ".tar.gz") {
        DownloadKind::Compressed
    } else if ends_with(cs.as_slice(), ".tar.gz.enc") {
        DownloadKind::Encrypted
    } else {
        DownloadKind::Unknown
    }
}

/// The name of the archive an encrypted download decrypts to: the name
/// without its `.enc` suffix.
pub fn decrypted_name(name: &str) -> (r: Option<String>)
    ensures
        has_suffix(name@, ".enc"@) ==> r.is_some() && r.unwrap()@ == name@.subrange(0, name@.len() - 4),
        !has_suffix(name@, ".enc"@) ==> r.is_none(),
{
    let cs = chars_of(name);
    proof {
        reveal_strlit(".enc");
    }
    if !ends_with(cs.as_slice(), ".enc") {
        return None;
    }
    let mut out: Vec<char> = Vec::new();
    let mut i: usize = 0;
    let n = cs.len() - 4;
    while i < n
        invariant
            n == cs@.len() - 4,
            i <= n,
            out@ == cs@.subrange(0, i as int),
        decreases n - i,
    {
        out.push(cs[i]);
        i = i + 1;
        assert(out@ =~= cs@.subrange(0, i as int));
    }
    Some(string_of(out.as_slice()))
}

} // verus!
