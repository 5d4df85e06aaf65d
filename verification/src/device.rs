//! Device facts taken from system text: mount points listed in the mount
//! table, and whether a block device is removable.

use vstd::prelude::*;
use crate::text::{is_white_space, chars_vec, trim, decimal_digits, digit_char};

verus! {

/// A block device.
pub struct Device {
    pub path: String,
    pub model: String,
    pub serial: String,
    pub size: u64,
    pub removable: bool,
    pub mount_point: Option<String>,
}

// ----- splitting text -----

/// The end of the run of non-white-space characters that starts at `i`
/// (bounded by `end`).
pub open spec fn token_end(s: Seq<char>, i: int, end: int) -> int
    decreases end - i,
{
    if i >= end || is_white_space(s[i]) {
        i
    } else {
        token_end(s, i + 1, end)
    }
}

pub proof fn lemma_token_end(s: Seq<char>, i: int, end: int)
    requires
        i <= end,
    ensures
        i <= token_end(s, i, end) <= end,
        forall|k: int| i <= k < token_end(s, i, end) ==> !is_white_space(#[trigger] s[k]),
        token_end(s, i, end) < end ==> is_white_space(s[token_end(s, i, end)]),
    decreases end - i,
{
    if i < end && !is_white_space(s[i]) {
        lemma_token_end(s, i + 1, end);
    }
}

/// The white-space-separated fields of `s[i..end]`, in order: the maximal
/// runs of characters that are not white space.
pub open spec fn fields_in(s: Seq<char>, i: int, end: int) -> Seq<Seq<char>>
    decreases end - i,
{
    if i >= end {
        Seq::empty()
    } else if is_white_space(s[i]) {
        fields_in(s, i + 1, end)
    } else {
        let j = token_end(s, i, end);
        proof {
            lemma_token_end(s, i + 1, end);
        }
        seq![s.subrange(i, j)] + fields_in(s, j, end)
    }
}

/// The first index at or after `i` (bounded by `end`) that is not white
/// space.
pub open spec fn skip_space(s: Seq<char>, i: int, end: int) -> int
    decreases end - i,
{
    if i < end && is_white_space(s[i]) {
        skip_space(s, i + 1, end)
    } else {
        i
    }
}

proof fn lemma_skip_space(s: Seq<char>, i: int, end: int)
    requires
        i <= end,
    ensures
        i <= skip_space(s, i, end) <= end,
        skip_space(s, i, end) < end ==> !is_white_space(s[skip_space(s, i, end)]),
        fields_in(s, i, end) == fields_in(s, skip_space(s, i, end), end),
    decreases end - i,
{
    if i < end && is_white_space(s[i]) {
        lemma_skip_space(s, i + 1, end);
    }
}

/// Index of the first character at or after `i` that is not white space.
fn skip_space_at(s: &Vec<char>, i: usize, end: usize) -> (r: usize)
    requires
        i <= end <= s@.len(),
    ensures
        r == skip_space(s@, i as int, end as int),
{
    let mut k = i;
    while k < end && is_space_char(s[k])
        invariant
            i <= k <= end <= s@.len(),
            skip_space(s@, k as int, end as int) == skip_space(s@, i as int, end as int),
        decreases end - k,
    {
        k = k + 1;
    }
    k
}

/// Index just past the run of non-white-space characters starting at `i`.
fn token_end_at(s: &Vec<char>, i: usize, end: usize) -> (r: usize)
    requires
        i <= end <= s@.len(),
    ensures
        r == token_end(s@, i as int, end as int),
{
    let mut k = i;
    while k < end && !is_space_char(s[k])
        invariant
            i <= k <= end <= s@.len(),
            token_end(s@, k as int, end as int) == token_end(s@, i as int, end as int),
        decreases end - k,
    {
        k = k + 1;
    }
    k
}

/// Whether a character is Unicode white space.
pub fn is_space_char(c: char) -> (r: bool)
    ensures
        r == is_white_space(c),
{
    let u = c as u32;
    (0x09 <= u && u <= 0x0d) || u == 0x20 || u == 0x85 || u == 0xa0 || u == 0x1680 || (0x2000
        <= u && u <= 0x200a) || u == 0x2028 || u == 0x2029 || u == 0x202f || u == 0x205f || u
        == 0x3000
}

// ----- the mount table -----

/// The end of the line that starts at `i`: the next '\n' or the end.
pub open spec fn line_end(s: Seq<char>, i: int) -> int
    decreases s.len() - i,
{
    if i >= s.len() || s[i] == '\n' {
        i
    } else {
        line_end(s, i + 1)
    }
}

pub proof fn lemma_line_end(s: Seq<char>, i: int)
    requires
        0 <= i <= s.len(),
    ensures
        i <= line_end(s, i) <= s.len(),
    decreases s.len() - i,
{
    if i < s.len() && s[i] != '\n' {
        lemma_line_end(s, i + 1);
    }
}

/// The mount point of `device` in a mount table from line start `i` on:
/// the second field of the first line whose first field is the device.
pub open spec fn mount_point_from(table: Seq<char>, i: int, device: Seq<char>) -> Option<Seq<char>>
    decreases table.len() - i,
{
    if i < 0 || i >= table.len() {
        None
    } else {
        proof {
            lemma_line_end(table, i);
        }
        let e = line_end(table, i);
        let f = fields_in(table, i, e);
        if f.len() >= 2 && f[0] == device {
            Some(f[1])
        } else if e < table.len() {
            mount_point_from(table, e + 1, device)
        } else {
            None
        }
    }
}

/// The mount point of `device` in a mount table such as /proc/mounts.
pub open spec fn mount_point_of(table: Seq<char>, device: Seq<char>) -> Option<Seq<char>> {
    mount_point_from(table, 0, device)
}

/// Whether `s[a..b]` holds the characters of `t`.
fn range_equals(s: &Vec<char>, a: usize, b: usize, t: &Vec<char>) -> (r: bool)
    requires
        a <= b <= s@.len(),
    ensures
        r == (s@.subrange(a as int, b as int) == t@),
{
    if b - a != t.len() {
        return false;
    }
    let mut k: usize = 0;
    while k < t.len()
        invariant
            a <= b <= s@.len(),
            b - a == t@.len(),
            k <= t@.len(),
            forall|j: int| 0 <= j < k ==> s@[a + j] == t@[j],
        decreases t@.len() - k,
    {
        if s[a + k] != t[k] {
            return false;
        }
        k = k + 1;
    }
    assert(s@.subrange(a as int, b as int) =~= t@);
    true
}

/// Finds the mount point of a device in a mount table (the text of
/// /proc/mounts).
pub fn get_mount_point(mounts: &str, device_path: &str) -> (r: Option<String>)
    ensures
        match mount_point_of(mounts@, device_path@) {
            Some(m) => r is Some && r->0@ == m,
            None => r is None,
        },
{
    let s = chars_vec(mounts);
    let dev = chars_vec(device_path);
    let n = s.len();
    let mut start: usize = 0;
    while start < n
        invariant
            n == s@.len(),
            s@ == mounts@,
            dev@ == device_path@,
            start <= n,
            mount_point_from(s@, start as int, dev@) == mount_point_of(mounts@, device_path@),
        decreases n - start,
    {
        let mut end = start;
        while end < n && s[end] != '\n'
            invariant
                start <= end <= n == s@.len(),
                line_end(s@, end as int) == line_end(s@, start as int),
            decreases n - end,
        {
            end = end + 1;
        }
        let a0 = skip_space_at(&s, start, end);
        proof {
            lemma_skip_space(s@, start as int, end as int);
        }
        if a0 < end {
            let b0 = token_end_at(&s, a0, end);
            proof {
                lemma_token_end(s@, a0 as int, end as int);
            }
            let a1 = skip_space_at(&s, b0, end);
            proof {
                lemma_skip_space(s@, b0 as int, end as int);
            }
            if a1 < end {
                let b1 = token_end_at(&s, a1, end);
                proof {
                    lemma_token_end(s@, a1 as int, end as int);
                    assert(fields_in(s@, a1 as int, end as int) == seq![s@.subrange(a1 as int, b1 as int)]
                        + fields_in(s@, b1 as int, end as int));
                }
                if range_equals(&s, a0, b0, &dev) {
                    return Some(String::from_str(mounts.substring_char(a1, b1)));
                }
            }
        }
        if end < n {
            start = end + 1;
        } else {
            start = n;
        }
    }
    None
}

/// Whether a device appears in the mount table.
pub fn is_device_mounted(mounts: &str, device_path: &str) -> (r: bool)
    ensures
        r == mount_point_of(mounts@, device_path@) is Some,
{
    get_mount_point(mounts, device_path).is_some()
}

/// Why a device could not be unmounted.
#[derive(Debug, Clone, PartialEq, Eq)]
pub enum DeviceError {
    /// The device is not in the mount table.
    NotMounted,
    /// The device is mounted at the given point and must be unmounted by
    /// hand with root rights.
    ManualUnmountRequired(String),
}

/// Unmounting needs root rights, so it is left to the user: the answer is
/// always an error, naming the mount point when the device is mounted.
pub fn unmount_device(mounts: &str, device_path: &str) -> (r: Result<(), DeviceError>)
    ensures
        match mount_point_of(mounts@, device_path@) {
            Some(m) => r matches Err(DeviceError::ManualUnmountRequired(p)) && p@ == m,
            None => r matches Err(DeviceError::NotMounted),
        },
{
    match get_mount_point(mounts, device_path) {
        Some(mount_point) => Err(DeviceError::ManualUnmountRequired(mount_point)),
        None => Err(DeviceError::NotMounted),
    }
}

// ----- removable devices -----

/// Whether `s` starts with `p`.
pub open spec fn has_prefix(s: Seq<char>, p: Seq<char>) -> bool {
    s.len() >= p.len() && s.subrange(0, p.len() as int) == p
}

/// Whether `t` occurs in `s`.
pub open spec fn contains_text(s: Seq<char>, t: Seq<char>) -> bool {
    exists|i: int| 0 <= i && i + t.len() <= s.len() && #[trigger] s.subrange(i, i + t.len()) == t
}

/// Whether a character is an ASCII decimal digit.
pub open spec fn is_digit(c: char) -> bool {
    48 <= (c as u32) <= 57
}

/// The value of a string of decimal digits.
pub open spec fn digits_value(d: Seq<char>) -> int
    decreases d.len(),
{
    if d.len() == 0 {
        0
    } else {
        digits_value(d.drop_last()) * 10 + ((d.last() as u32) - 48)
    }
}

/// The string without a leading '+'.
pub open spec fn unsigned_digits(s: Seq<char>) -> Seq<char> {
    if s.len() > 0 && s[0] == '+' {
        s.drop_first()
    } else {
        s
    }
}

/// Whether every character is a decimal digit.
pub open spec fn all_digits(d: Seq<char>) -> bool {
    forall|i: int| 0 <= i < d.len() ==> is_digit(#[trigger] d[i])
}

/// How `u8::from_str` reads a string: an optional '+', then one or more
/// decimal digits whose value is at most 255.
pub open spec fn spec_parse_u8(s: Seq<char>) -> Option<u8> {
    match spec_parse_bounded(s, 255) {
        Some(v) => Some(v as u8),
        None => None,
    }
}

proof fn lemma_digits_prefix(d: Seq<char>, k: int)
    requires
        0 <= k <= d.len(),
        forall|i: int| 0 <= i < d.len() ==> is_digit(#[trigger] d[i]),
    ensures
        0 <= digits_value(d.take(k)) <= digits_value(d),
    decreases d.len() - k,
{
    if k < d.len() {
        lemma_digits_prefix(d, k + 1);
        assert(d.take(k + 1).drop_last() =~= d.take(k));
    } else {
        assert(d.take(k) =~= d);
    }
    lemma_digits_nonneg(d.take(k));
}

proof fn lemma_digits_nonneg(d: Seq<char>)
    requires
        forall|i: int| 0 <= i < d.len() ==> is_digit(#[trigger] d[i]),
    ensures
        digits_value(d) >= 0,
    decreases d.len(),
{
    if d.len() > 0 {
        lemma_digits_nonneg(d.drop_last());
    }
}

/// The value an unsigned parse gives when it is at most `max`.
pub open spec fn spec_parse_bounded(s: Seq<char>, max: u64) -> Option<u64> {
    let d = unsigned_digits(s);
    if d.len() > 0 && all_digits(d) && digits_value(d) <= max {
        Some(digits_value(d) as u64)
    } else {
        None
    }
}

/// Reads an unsigned decimal number the way `from_str` of an unsigned
/// integer type whose largest value is `max` does.
pub fn parse_bounded(s: &str, max: u64) -> (r: Option<u64>)
    ensures
        r == spec_parse_bounded(s@, max),
{
    let cs = chars_vec(s);
    let n = cs.len();
    let start: usize = if n > 0 && cs[0] == '+' { 1 } else { 0 };
    let ghost d = unsigned_digits(s@);
    if start >= n {
        return None;
    }
    let mut value: u64 = 0;
    let mut i = start;
    while i < n
        invariant
            cs@ == s@,
            n == cs@.len(),
            start <= i <= n,
            d == cs@.subrange(start as int, n as int),
            d == unsigned_digits(s@),
            d.len() > 0,
            forall|j: int| 0 <= j < i - start ==> is_digit(#[trigger] d[j]),
            value <= max,
            value == digits_value(d.take(i - start)),
        decreases n - i,
    {
        let c = cs[i];
        let u = c as u32;
        if u < 48 || u > 57 {
            assert(!is_digit(d[i - start]));
            return None;
        }
        assert(d.take(i - start + 1).drop_last() =~= d.take(i - start));
        let digit = (u - 48) as u64;
        if digit > max || value > (max - digit) / 10 {
            proof {
                if digit <= max {
                    assert(value * 10 + digit > max) by (nonlinear_arith)
                        requires
                            value > (max - digit) / 10,
                            digit <= max,
                    ;
                }
                if all_digits(d) {
                    lemma_digits_prefix(d, i - start + 1);
                }
            }
            return None;
        }
        assert(value * 10 + digit <= max) by (nonlinear_arith)
            requires
                value <= (max - digit) / 10,
                digit <= max,
        ;
        value = value * 10 + digit;
        i = i + 1;
    }
    assert(d.take(n - start) =~= d);
    Some(value)
}

/// Reads an unsigned byte the way `u8::from_str` does.
pub fn parse_u8(s: &str) -> (r: Option<u8>)
    ensures
        r == spec_parse_u8(s@),
{
    match parse_bounded(s, 255) {
        Some(v) => Some(v as u8),
        None => None,
    }
}

/// The size in bytes of a block device whose sysfs "size" file (a count
/// of 512-byte sectors) reads `content`; `None` when it is not a number.
pub fn device_size_from_sectors(content: &str) -> (r: Option<u64>)
    requires
        spec_parse_bounded(crate::text::trimmed(content@), u64::MAX) matches Some(n) ==> n * 512
            <= u64::MAX,
    ensures
        r == match spec_parse_bounded(crate::text::trimmed(content@), u64::MAX) {
            Some(n) => Some((n * 512) as u64),
            None => None,
        },
{
    match parse_bounded(trim(content), u64::MAX) {
        Some(sectors) => Some(sectors * 512),
        None => None,
    }
}

/// Whether `t` occurs in `s` starting at index `i`.
fn occurs_at(s: &Vec<char>, i: usize, t: &Vec<char>) -> (r: bool)
    ensures
        r == (i + t@.len() <= s@.len() && s@.subrange(i as int, i + t@.len()) == t@),
{
    if i > s.len() || t.len() > s.len() - i {
        return false;
    }
    range_equals(s, i, i + t.len(), t)
}

/// Whether `s` starts with `p`.
pub fn starts_with(s: &str, p: &str) -> (r: bool)
    ensures
        r == has_prefix(s@, p@),
{
    let cs = chars_vec(s);
    let ps = chars_vec(p);
    occurs_at(&cs, 0, &ps)
}

/// Whether `t` occurs in `s`.
pub fn contains(s: &str, t: &str) -> (r: bool)
    ensures
        r == contains_text(s@, t@),
{
    let cs = chars_vec(s);
    let ts = chars_vec(t);
    let mut i: usize = 0;
    while i < cs.len()
        invariant
            cs@ == s@,
            ts@ == t@,
            i <= cs@.len(),
            forall|j: int| 0 <= j < i ==> !(j + t@.len() <= s@.len() && #[trigger] s@.subrange(j, j + t@.len()) == t@),
        decreases cs@.len() - i,
    {
        if occurs_at(&cs, i, &ts) {
            return true;
        }
        i = i + 1;
    }
    if occurs_at(&cs, i, &ts) {
        return true;
    }
    assert forall|j: int| 0 <= j && j + t@.len() <= s@.len() implies #[trigger] s@.subrange(j, j + t@.len()) != t@ by {
    }
    false
}

/// Whether a block device counts as removable: loop and RAM disks never
/// do; otherwise the sysfs "removable" flag decides when it can be read
/// (it must read as the number 1), and failing that, whether the device's
/// sysfs link goes through a USB bus.
pub open spec fn spec_is_removable(
    name: Seq<char>,
    removable_flag: Option<Seq<char>>,
    device_link: Option<Seq<char>>,
) -> bool {
    if has_prefix(name, "loop"@) || has_prefix(name, "ram"@) {
        false
    } else {
        match removable_flag {
            Some(flag) => spec_parse_u8(crate::text::trimmed(flag)) == Some(1u8),
            None => match device_link {
                Some(link) => contains_text(link, "usb"@),
                None => false,
            },
        }
    }
}

/// Decides whether a block device is removable from its name, the content
/// of its sysfs "removable" file (when it could be read) and the target of
/// its sysfs device link (when there is one).
pub fn is_removable_device(
    device_name: &str,
    removable_content: Option<&str>,
    device_link: Option<&str>,
) -> (r: bool)
    ensures
        r == spec_is_removable(
            device_name@,
            match removable_content {
                Some(c) => Some(c@),
                None => None,
            },
            match device_link {
                Some(l) => Some(l@),
                None => None,
            },
        ),
{
    if starts_with(device_name, "loop") || starts_with(device_name, "ram") {
        return false;
    }
    if let Some(content) = removable_content {
        let removable = match parse_u8(trim(content)) {
            Some(v) => v,
            None => 0,
        };
        return removable == 1;
    }
    if let Some(link) = device_link {
        return contains(link, "usb");
    }
    false
}

// ----- laws -----

proof fn lemma_decimal_digits(n: nat)
    ensures
        decimal_digits(n).len() > 0,
        all_digits(decimal_digits(n)),
        digits_value(decimal_digits(n)) == n,
    decreases n,
{
    if n >= 10 {
        lemma_decimal_digits(n / 10);
        let head = decimal_digits(n / 10);
        let d = decimal_digits(n);
        assert(d.drop_last() =~= head);
        assert forall|i: int| 0 <= i < d.len() implies is_digit(#[trigger] d[i]) by {
        }
    } else {
        let d = decimal_digits(n);
        assert(digits_value(d.drop_last()) == 0);
    }
}

/// Reading back a number written in decimal gives the number: the decimal
/// notation that listings print parses to the value it was made from.
pub proof fn law_decimal_parses_back(n: u64)
    ensures
        spec_parse_bounded(decimal_digits(n as nat), u64::MAX) == Some(n),
{
    lemma_decimal_digits(n as nat);
}

} // verus!
