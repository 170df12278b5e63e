//! What each probe reads, and how a reading becomes the text of its field.
use vstd::prelude::*;
use vstd::string::StrSliceExecFns;
use crate::text::{two_digits, push_char, push_two_digits};

verus! {

/// `100 * part / whole` rounded to the nearest integer, halves up.
pub open spec fn rounded_percent(part: nat, whole: nat) -> nat
    recommends
        whole > 0,
{
    ((200 * part + whole) / (2 * whole)) as nat
}

/// The brightness percent of a backlight at level `cur` of `max`: none when
/// `max` is zero, else the rounded ratio capped at one hundred.
pub open spec fn brightness_spec(cur: nat, max: nat) -> Option<nat> {
    if max == 0 {
        None
    } else if rounded_percent(cur, max) > 100 {
        Some(100)
    } else {
        Some(rounded_percent(cur, max))
    }
}

/// Brightness percent from the current and maximum backlight levels.
pub fn brightness_percent(cur: u64, max: u64) -> (r: Option<u64>)
    ensures
        r matches Some(p) ==> brightness_spec(cur as nat, max as nat) == Some(p as nat),
        r is None <==> brightness_spec(cur as nat, max as nat) is None,
{
    if max == 0 {
        return None;
    }
    let p: u128 = (200 * (cur as u128) + max as u128) / (2 * (max as u128));
    if p > 100 {
        Some(100)
    } else {
        Some(p as u64)
    }
}

/// The disk-usage percent of a filesystem: none (the sentinel) when its size
/// is zero or more is available than its size, else the rounded used share.
pub open spec fn disk_spec(total: nat, available: nat) -> Option<nat> {
    if total == 0 || available > total {
        None
    } else {
        Some(rounded_percent((total - available) as nat, total))
    }
}

/// Disk-usage percent from the total and available byte counts.
pub fn disk_percent(total: u64, available: u64) -> (r: Option<u64>)
    ensures
        r matches Some(p) ==> disk_spec(total as nat, available as nat) == Some(p as nat),
        r is None <==> disk_spec(total as nat, available as nat) is None,
        r matches Some(p) ==> p <= 100,
{
    if total == 0 || available > total {
        return None;
    }
    let used: u128 = (total - available) as u128;
    let p: u128 = (200 * used + total as u128) / (2 * (total as u128));
    assert(p <= 100) by (nonlinear_arith)
        requires
            p == (200 * used + total as u128) / (2 * (total as u128)),
            used <= total,
            total > 0,
    ;
    Some(p as u64)
}

/// The disk-usage percent from block counts: none when a byte count does
/// not fit in 64 bits.
pub open spec fn disk_blocks_spec(blocks: nat, available: nat, block_size: nat) -> Option<nat> {
    if blocks * block_size > u64::MAX || available * block_size > u64::MAX {
        None
    } else {
        disk_spec(blocks * block_size, available * block_size)
    }
}

/// Disk-usage percent from the filesystem's block counts and block size.
pub fn disk_percent_from_blocks(blocks: u64, available: u64, block_size: u64) -> (r: Option<u64>)
    ensures
        r matches Some(p) ==> disk_blocks_spec(blocks as nat, available as nat, block_size as nat) == Some(p as nat),
        r is None <==> disk_blocks_spec(blocks as nat, available as nat, block_size as nat) is None,
{
    match (blocks.checked_mul(block_size), available.checked_mul(block_size)) {
        (Some(total), Some(avail)) => disk_percent(total, avail),
        _ => None,
    }
}

/// The memory-usage percent: `used_kib` kibibytes (of 1024 bytes) of a
/// memory of `total_bytes`; none when the total is zero.
pub open spec fn memory_spec(used_kib: nat, total_bytes: nat) -> Option<nat> {
    if total_bytes == 0 {
        None
    } else {
        Some(rounded_percent(used_kib * 1024, total_bytes))
    }
}

/// Memory-usage percent, with both amounts brought to bytes first.
pub fn memory_percent(used_kib: u64, total_bytes: u64) -> (r: Option<u128>)
    ensures
        r matches Some(p) ==> memory_spec(used_kib as nat, total_bytes as nat) == Some(p as nat),
        r is None <==> memory_spec(used_kib as nat, total_bytes as nat) is None,
{
    if total_bytes == 0 {
        return None;
    }
    let used: u128 = used_kib as u128 * 1024;
    Some((200 * used + total_bytes as u128) / (2 * (total_bytes as u128)))
}

/// A wall-clock time of day.
#[derive(Clone, Copy, Debug, PartialEq, Eq, Structural)]
pub struct ClockTime {
    pub hour: u32,
    pub minute: u32,
    pub second: u32,
}

impl ClockTime {
    pub open spec fn wf(&self) -> bool {
        self.hour < 24 && self.minute < 60 && self.second < 60
    }

    /// `HH:MM:SS`, each part with two digits.
    pub open spec fn text(&self) -> Seq<char> {
        two_digits(self.hour as nat) + seq![':'] + two_digits(self.minute as nat) + seq![':'] + two_digits(
            self.second as nat,
        )
    }

    pub fn new(hour: u32, minute: u32, second: u32) -> (r: Option<ClockTime>)
        ensures
            r is Some <==> hour < 24 && minute < 60 && second < 60,
            r matches Some(t) ==> t.wf() && t.hour == hour && t.minute == minute && t.second == second,
    {
        if hour < 24 && minute < 60 && second < 60 {
            Some(ClockTime { hour, minute, second })
        } else {
            None
        }
    }

    /// The local time now.
    pub fn now() -> (r: ClockTime)
        ensures
            r.wf(),
    {
        let (hour, minute, second) = local_hms();
        ClockTime { hour, minute, second }
    }

    /// The time as `HH:MM:SS`.
    pub fn format(&self) -> (r: String)
        requires
            self.wf(),
        ensures
            r@ == self.text(),
    {
        let mut s = String::new();
        push_two_digits(&mut s, self.hour);
        push_char(&mut s, ':');
        push_two_digits(&mut s, self.minute);
        push_char(&mut s, ':');
        push_two_digits(&mut s, self.second);
        assert(s@ =~= self.text());
        s
    }
}

/// Relies on chrono::Local::now and chrono::Timelike: the hour of the local
/// time is below 24, its minute and second below 60.
#[verifier::external_body]
fn local_hms() -> (r: (u32, u32, u32))
    ensures
        r.0 < 24 && r.1 < 60 && r.2 < 60,
{
    let t = chrono::Local::now();
    (chrono::Timelike::hour(&t), chrono::Timelike::minute(&t), chrono::Timelike::second(&t))
}

/// Whether `t` occurs in `s` as a run of consecutive characters.
pub open spec fn occurs_in(t: Seq<char>, s: Seq<char>) -> bool {
    exists|i: int| 0 <= i && i + t.len() <= s.len() && #[trigger] s.subrange(i, i + t.len()) == t
}

/// A backlight device named after a known GPU vendor.
pub open spec fn is_gpu_name(s: Seq<char>) -> bool {
    occurs_in("intel"@, s) || occurs_in("amdgpu"@, s) || occurs_in("nvidia"@, s)
}

fn matches_at(s: &str, n: usize, t: &str, m: usize, i: usize) -> (r: bool)
    requires
        n == s@.len(),
        m == t@.len(),
        i + m <= n,
    ensures
        r == (s@.subrange(i as int, i + m) == t@),
{
    let mut k: usize = 0;
    while k < m
        invariant
            n == s@.len(),
            m == t@.len(),
            i + m <= n,
            k <= m,
            s@.subrange(i as int, i + k) == t@.subrange(0, k as int),
        decreases m - k,
    {
        if s.get_char(i + k) != t.get_char(k) {
            assert(s@.subrange(i as int, i + m)[k as int] != t@[k as int]);
            return false;
        }
        assert(s@.subrange(i as int, i + k + 1) =~= t@.subrange(0, k as int + 1));
        k = k + 1;
    }
    assert(t@.subrange(0, m as int) =~= t@);
    true
}

/// Whether `t` occurs in `s`.
pub fn contains_text(s: &str, t: &str) -> (r: bool)
    ensures
        r == occurs_in(t@, s@),
{
    let n = s.unicode_len();
    let m = t.unicode_len();
    if m > n {
        return false;
    }
    let mut i: usize = 0;
    while i <= n - m
        invariant
            n == s@.len(),
            m == t@.len(),
            m <= n,
            i <= n - m + 1,
            forall|j: int| 0 <= j < i ==> #[trigger] s@.subrange(j, j + m) != t@,
        decreases n - m + 1 - i,
    {
        if matches_at(s, n, t, m, i) {
            return true;
        }
        if i == n - m {
            return false;
        }
        i = i + 1;
    }
    false
}

fn is_gpu_backlight(name: &str) -> (r: bool)
    ensures
        r == is_gpu_name(name@),
{
    contains_text(name, "intel") || contains_text(name, "amdgpu") || contains_text(name, "nvidia")
}

/// Picks the backlight device among the entry names of the backlight
/// directory: the first named after a GPU vendor, else the first entry.
pub fn choose_backlight(names: &Vec<String>) -> (r: Option<usize>)
    ensures
        r is None <==> names@.len() == 0,
        r matches Some(i) ==> i < names@.len() && (if is_gpu_name(names@[i as int]@) {
            forall|j: int| 0 <= j < i ==> !is_gpu_name(#[trigger] names@[j]@)
        } else {
            i == 0 && forall|j: int| 0 <= j < names@.len() ==> !is_gpu_name(#[trigger] names@[j]@)
        }),
{
    let n = names.len();
    let mut i: usize = 0;
    while i < n
        invariant
            n == names@.len(),
            i <= n,
            forall|j: int| 0 <= j < i ==> !is_gpu_name(#[trigger] names@[j]@),
        decreases n - i,
    {
        if is_gpu_backlight(names[i].as_str()) {
            return Some(i);
        }
        i = i + 1;
    }
    if n == 0 {
        None
    } else {
        Some(0)
    }
}

/// White space in Unicode's sense (the `White_Space` property), which is
/// dropped around a level read from a sysfs file.
pub open spec fn is_blank(c: char) -> bool {
    ('\t' <= c && c <= '\r') || c == ' ' || c == '\u{85}' || c == '\u{A0}' || c == '\u{1680}'
        || ('\u{2000}' <= c && c <= '\u{200A}') || c == '\u{2028}' || c == '\u{2029}' || c == '\u{202F}'
        || c == '\u{205F}' || c == '\u{3000}'
}

pub open spec fn is_digit(c: char) -> bool {
    '0' <= c && c <= '9'
}

/// The number that a run of decimal digits denotes.
pub open spec fn digits_value(s: Seq<char>) -> nat
    decreases s.len(),
{
    if s.len() == 0 {
        0
    } else {
        digits_value(s.drop_last()) * 10 + ((s.last() as u32) - ('0' as u32)) as nat
    }
}

/// The index of the first non-blank character from `i` on.
pub open spec fn skip_blanks(s: Seq<char>, i: int) -> int
    decreases s.len() - i,
{
    if 0 <= i < s.len() && is_blank(s[i]) {
        skip_blanks(s, i + 1)
    } else {
        i
    }
}

/// The end of `s` up to `j` once trailing blanks are dropped.
pub open spec fn drop_blanks(s: Seq<char>, j: int) -> int
    decreases j,
{
    if 0 < j <= s.len() && is_blank(s[j - 1]) {
        drop_blanks(s, j - 1)
    } else {
        j
    }
}

/// The number of a level file: blanks around it, an optional `+`, then one
/// or more decimal digits whose value fits in 64 bits.
pub open spec fn level_spec(s: Seq<char>) -> Option<nat> {
    let a = skip_blanks(s, 0);
    let b = drop_blanks(s, s.len() as int);
    if a >= b {
        None
    } else {
        let core = s.subrange(a, b);
        let body = if core[0] == '+' {
            core.drop_first()
        } else {
            core
        };
        digits_number(body)
    }
}

/// The value of one or more decimal digits that fits in 64 bits.
pub open spec fn digits_number(body: Seq<char>) -> Option<nat> {
    if body.len() > 0 && (forall|k: int| 0 <= k < body.len() ==> is_digit(#[trigger] body[k]))
        && digits_value(body) <= u64::MAX {
        Some(digits_value(body))
    } else {
        None
    }
}

proof fn lemma_digits_prefix(s: Seq<char>, k: int)
    requires
        0 <= k <= s.len(),
        forall|i: int| 0 <= i < s.len() ==> is_digit(#[trigger] s[i]),
    ensures
        digits_value(s.subrange(0, k)) <= digits_value(s),
    decreases s.len() - k,
{
    if k < s.len() {
        lemma_digits_prefix(s, k + 1);
        let p = s.subrange(0, k + 1);
        assert(p.drop_last() =~= s.subrange(0, k));
    } else {
        assert(s.subrange(0, k) =~= s);
    }
}

/// Reads a backlight level from the text of its sysfs file.
pub fn parse_level(text: &str) -> (r: Option<u64>)
    ensures
        r matches Some(v) ==> level_spec(text@) == Some(v as nat),
        r is None <==> level_spec(text@) is None,
{
    let ghost s = text@;
    let n = text.unicode_len();
    let mut a: usize = 0;
    while a < n && is_blank_char(text.get_char(a))
        invariant
            n == s.len(),
            s == text@,
            a <= n,
            skip_blanks(s, a as int) == skip_blanks(s, 0),
        decreases n - a,
    {
        a = a + 1;
    }
    let mut b: usize = n;
    while b > 0 && is_blank_char(text.get_char(b - 1))
        invariant
            n == s.len(),
            s == text@,
            b <= n,
            drop_blanks(s, b as int) == drop_blanks(s, n as int),
        decreases b,
    {
        b = b - 1;
    }
    assert(skip_blanks(s, a as int) == a as int);
    assert(drop_blanks(s, b as int) == b as int);
    if a >= b {
        return None;
    }
    let ghost core = s.subrange(a as int, b as int);
    let mut start = a;
    if text.get_char(a) == '+' {
        start = a + 1;
    }
    let ghost body = s.subrange(start as int, b as int);
    assert(core[0] == s[a as int]);
    assert(body =~= if core[0] == '+' { core.drop_first() } else { core });
    if start >= b {
        return None;
    }
    assert(level_spec(s) == digits_number(body));
    let mut value: u64 = 0;
    let mut k: usize = start;
    while k < b
        invariant
            n == s.len(),
            s == text@,
            start < b <= n,
            start <= k <= b,
            body == s.subrange(start as int, b as int),
            level_spec(s) == digits_number(body),
            forall|i: int| 0 <= i < k - start ==> is_digit(#[trigger] body[i]),
            value == digits_value(body.subrange(0, k - start)),
        decreases b - k,
    {
        let c = text.get_char(k);
        assert(body[k - start] == c);
        if !('0' <= c && c <= '9') {
            return None;
        }
        let d = (c as u32 - '0' as u32) as u64;
        let ghost p = body.subrange(0, k - start + 1);
        assert(p.drop_last() =~= body.subrange(0, k - start));
        if value > (u64::MAX - d) / 10 {
            proof {
                assert(digits_value(p) > u64::MAX) by (nonlinear_arith)
                    requires
                        digits_value(p) == value * 10 + d,
                        value > (u64::MAX - d) / 10,
                        d <= 9,
                ;
                let full_digits = forall|i: int| 0 <= i < body.len() ==> is_digit(#[trigger] body[i]);
                if full_digits {
                    lemma_digits_prefix(body, k - start + 1);
                }
            }
            return None;
        }
        value = value * 10 + d;
        k = k + 1;
    }
    assert(body.subrange(0, b - start) =~= body);
    Some(value)
}

fn is_blank_char(c: char) -> (r: bool)
    ensures
        r == is_blank(c),
{
    ('\t' <= c && c <= '\r') || c == ' ' || c == '\u{85}' || c == '\u{A0}' || c == '\u{1680}'
        || ('\u{2000}' <= c && c <= '\u{200A}') || c == '\u{2028}' || c == '\u{2029}' || c == '\u{202F}'
        || c == '\u{205F}' || c == '\u{3000}'
}

} // verus!
