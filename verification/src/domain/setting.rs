//! Settings: user preferences kept in the storage, as pairs of a key and a
//! text value. The meaning of a value belongs to its reader; a missing value is
//! no failure (the first start has an empty table), the reader falls back to a
//! constant.

use vstd::prelude::*;

use super::{all_digits, digits_value};
use crate::text::{chars_of, owned, same_text};

verus! {

/// One setting: a key and its text value.
#[derive(Debug, PartialEq, Eq)]
pub struct Setting {
    key: String,
    value: String,
}

impl View for Setting {
    type V = (Seq<char>, Seq<char>);

    /// The key and the value.
    closed spec fn view(&self) -> (Seq<char>, Seq<char>) {
        (self.key@, self.value@)
    }
}

impl Clone for Setting {
    fn clone(&self) -> (copy: Self)
        ensures
            copy@ == self@,
    {
        Setting { key: self.key.clone(), value: self.value.clone() }
    }
}

/// The keys and values of a list of settings.
pub open spec fn setting_views(settings: Seq<Setting>) -> Seq<(Seq<char>, Seq<char>)> {
    settings.map_values(|s: Setting| s@)
}

impl Setting {
    /// A setting of `key` to `value`.
    pub fn new(key: String, value: String) -> (setting: Self)
        ensures
            setting@ == (key@, value@),
    {
        Setting { key, value }
    }

    /// The key.
    pub fn key(&self) -> (key: &str)
        ensures
            key@ == self@.0,
    {
        self.key.as_str()
    }

    /// The value, as text; its reader gives it a meaning.
    pub fn value(&self) -> (value: &str)
        ensures
            value@ == self@.1,
    {
        self.value.as_str()
    }

    /// `key=value`.
    pub fn to_text(&self) -> (text: String)
        ensures
            text@ == self@.0 + seq!['='] + self@.1,
    {
        let mut text = self.key.clone();
        text.append("=");
        proof {
            reveal_strlit("=");
        }
        text.append(self.value.as_str());
        text
    }
}

/// The value of the first setting with `key` (the storage keeps keys unique).
pub open spec fn find_of(settings: Seq<(Seq<char>, Seq<char>)>, key: Seq<char>) -> Option<Seq<char>>
    decreases settings.len(),
{
    if settings.len() == 0 {
        None
    } else if settings[0].0 == key {
        Some(settings[0].1)
    } else {
        find_of(settings.drop_first(), key)
    }
}

/// Looks a value up by its key.
pub fn find<'a>(settings: &'a [Setting], key: &str) -> (value: Option<&'a str>)
    ensures
        match find_of(setting_views(settings@), key@) {
            Some(v) => value matches Some(found) && found@ == v,
            None => value.is_none(),
        },
{
    let ghost all = setting_views(settings@);
    assert(all.subrange(0, all.len() as int) =~= all);
    let mut i: usize = 0;
    while i < settings.len()
        invariant
            all == setting_views(settings@),
            i <= settings@.len(),
            find_of(all, key@) == find_of(all.subrange(i as int, all.len() as int), key@),
        decreases settings.len() - i,
    {
        let ghost rest = all.subrange(i as int, all.len() as int);
        assert(rest[0] == settings@[i as int]@);
        if same_text(settings[i].key.as_str(), key) {
            return Some(settings[i].value.as_str());
        }
        assert(rest.drop_first() =~= all.subrange(i + 1, all.len() as int));
        i = i + 1;
    }
    assert(all.subrange(i as int, all.len() as int).len() == 0);
    None
}

/// `i` is the first setting with key `key`.
pub open spec fn is_key_index(settings: Seq<(Seq<char>, Seq<char>)>, key: Seq<char>, i: int) -> bool {
    &&& 0 <= i < settings.len()
    &&& settings[i].0 == key
    &&& forall|j: int| 0 <= j < i ==> settings[j].0 != key
}

/// The index of the first setting with key `key`.
pub open spec fn key_index(settings: Seq<(Seq<char>, Seq<char>)>, key: Seq<char>) -> Option<int> {
    if exists|i: int| is_key_index(settings, key, i) {
        Some(choose|i: int| is_key_index(settings, key, i))
    } else {
        None
    }
}

/// The settings after storing `setting`: it replaces the value of its key, or
/// joins the list when the key is new.
pub open spec fn stored_settings(
    settings: Seq<(Seq<char>, Seq<char>)>,
    setting: (Seq<char>, Seq<char>),
) -> Seq<(Seq<char>, Seq<char>)> {
    match key_index(settings, setting.0) {
        Some(i) => settings.update(i, setting),
        None => settings.push(setting),
    }
}

/// The index of the first setting with key `key`.
pub fn index_of_key(settings: &[Setting], key: &str) -> (index: Option<usize>)
    ensures
        match key_index(setting_views(settings@), key@) {
            Some(i) => index == Some(i as usize),
            None => index.is_none(),
        },
        index matches Some(i) ==> i < settings@.len() && is_key_index(setting_views(settings@), key@, i as int),
{
    let ghost all = setting_views(settings@);
    let mut i: usize = 0;
    while i < settings.len()
        invariant
            all == setting_views(settings@),
            i <= settings@.len(),
            forall|j: int| 0 <= j < i ==> all[j].0 != key@,
        decreases settings.len() - i,
    {
        if same_text(settings[i].key.as_str(), key) {
            proof {
                let k = i as int;
                assert(is_key_index(all, key@, k));
                assert forall|m: int| is_key_index(all, key@, m) implies m == k by {
                    if m < k {
                        assert(all[m].0 != key@);
                    } else if m > k {
                        assert(all[k].0 != key@);
                    }
                }
            }
            return Some(i);
        }
        i = i + 1;
    }
    proof {
        assert forall|m: int| !is_key_index(all, key@, m) by {
            if 0 <= m < all.len() {
                assert(all[m].0 != key@);
            }
        }
    }
    None
}

/// Unicode `White_Space`, as `char::is_whitespace` reads it.
pub open spec fn is_white_space(c: char) -> bool {
    ||| '\u{9}' <= c <= '\u{d}'
    ||| c == ' '
    ||| c == '\u{85}'
    ||| c == '\u{a0}'
    ||| c == '\u{1680}'
    ||| '\u{2000}' <= c <= '\u{200a}'
    ||| c == '\u{2028}'
    ||| c == '\u{2029}'
    ||| c == '\u{202f}'
    ||| c == '\u{205f}'
    ||| c == '\u{3000}'
}

fn white_space(c: char) -> (ws: bool)
    ensures
        ws == is_white_space(c),
{
    ('\u{9}' <= c && c <= '\u{d}') || c == ' ' || c == '\u{85}' || c == '\u{a0}' || c == '\u{1680}'
        || ('\u{2000}' <= c && c <= '\u{200a}') || c == '\u{2028}' || c == '\u{2029}' || c
        == '\u{202f}' || c == '\u{205f}' || c == '\u{3000}'
}

/// `s` without its leading white space.
pub open spec fn trim_start_of(s: Seq<char>) -> Seq<char>
    decreases s.len(),
{
    if s.len() > 0 && is_white_space(s[0]) {
        trim_start_of(s.drop_first())
    } else {
        s
    }
}

/// `s` without its trailing white space.
pub open spec fn trim_end_of(s: Seq<char>) -> Seq<char>
    decreases s.len(),
{
    if s.len() > 0 && is_white_space(s.last()) {
        trim_end_of(s.drop_last())
    } else {
        s
    }
}

/// `s` without white space at either end (`str::trim`).
pub open spec fn trim_of(s: Seq<char>) -> Seq<char> {
    trim_end_of(trim_start_of(s))
}

/// The `i64` a text spells (`i64::from_str`): an optional `+` or `-`, then one
/// or more ASCII digits, the value within the range of `i64`.
pub open spec fn parse_i64_of(s: Seq<char>) -> Option<int> {
    let signed = s.len() > 0 && (s[0] == '+' || s[0] == '-');
    let digits = if signed {
        s.drop_first()
    } else {
        s
    };
    let magnitude = digits_value(digits);
    let value = if signed && s[0] == '-' {
        -magnitude
    } else {
        magnitude
    };
    if digits.len() == 0 || !all_digits(digits) {
        None
    } else if i64::MIN <= value <= i64::MAX {
        Some(value)
    } else {
        None
    }
}

/// A positive number of seconds stored under `key`: the value, trimmed, read
/// as an `i64` greater than zero. Anything else counts as absent.
pub open spec fn positive_seconds_of(settings: Seq<(Seq<char>, Seq<char>)>, key: Seq<char>) -> Option<int> {
    match find_of(settings, key) {
        None => None,
        Some(text) => match parse_i64_of(trim_of(text)) {
            Some(v) => if v > 0 {
                Some(v)
            } else {
                None
            },
            None => None,
        },
    }
}

/// The bounds of `chars` without white space at either end.
pub(crate) fn trimmed_bounds(chars: &Vec<char>) -> (bounds: (usize, usize))
    ensures
        bounds.0 <= bounds.1 <= chars@.len(),
        chars@.subrange(bounds.0 as int, bounds.1 as int) == trim_of(chars@),
{
    let ghost s = chars@;
    let len = chars.len();
    let mut start: usize = 0;
    assert(s.subrange(0, len as int) =~= s);
    while start < len && white_space(chars[start])
        invariant
            s == chars@,
            len == s.len(),
            start <= len,
            trim_start_of(s) == trim_start_of(s.subrange(start as int, len as int)),
        decreases len - start,
    {
        assert(s.subrange(start as int, len as int).drop_first() =~= s.subrange(
            start + 1,
            len as int,
        ));
        start = start + 1;
    }
    let ghost t = s.subrange(start as int, len as int);
    assert(trim_start_of(s) == t);
    let mut end: usize = len;
    while end > start && white_space(chars[end - 1])
        invariant
            s == chars@,
            len == s.len(),
            t == s.subrange(start as int, len as int),
            start <= end <= len,
            trim_end_of(t) == trim_end_of(s.subrange(start as int, end as int)),
        decreases end - start,
    {
        assert(s.subrange(start as int, end as int).drop_last() =~= s.subrange(
            start as int,
            end - 1,
        ));
        end = end - 1;
    }
    (start, end)
}

/// Extending a string of digits never makes its value smaller.
proof fn lemma_digits_prefix(s: Seq<char>, k: int)
    requires
        0 <= k <= s.len(),
        all_digits(s),
    ensures
        0 <= digits_value(s.subrange(0, k)) <= digits_value(s),
    decreases s.len() - k,
{
    if k < s.len() {
        lemma_digits_prefix(s, k + 1);
        assert(s.subrange(0, k + 1).drop_last() =~= s.subrange(0, k));
        lemma_digits_nonnegative(s.subrange(0, k));
    } else {
        assert(s.subrange(0, k) =~= s);
        lemma_digits_nonnegative(s);
    }
}

proof fn lemma_digits_nonnegative(s: Seq<char>)
    requires
        all_digits(s),
    ensures
        digits_value(s) >= 0,
    decreases s.len(),
{
    if s.len() > 0 {
        lemma_digits_nonnegative(s.drop_last());
    }
}

/// Reads `chars[lo..hi]` as an `i64` (`i64::from_str`).
fn parse_i64(chars: &Vec<char>, lo: usize, hi: usize) -> (value: Option<i64>)
    requires
        lo <= hi <= chars@.len(),
    ensures
        match parse_i64_of(chars@.subrange(lo as int, hi as int)) {
            Some(v) => value == Some(v as i64),
            None => value.is_none(),
        },
{
    let ghost s = chars@.subrange(lo as int, hi as int);
    let signed = lo < hi && (chars[lo] == '+' || chars[lo] == '-');
    let negative = signed && chars[lo] == '-';
    let first = if signed {
        lo + 1
    } else {
        lo
    };
    let ghost digits = chars@.subrange(first as int, hi as int);
    assert(lo < hi ==> s[0] == chars@[lo as int]);
    assert(signed ==> digits =~= s.drop_first());
    assert(!signed ==> digits =~= s);
    if first == hi {
        return None;
    }
    let mut value: i64 = 0;
    let mut i = first;
    while i < hi
        invariant
            lo <= first <= i <= hi <= chars@.len(),
            digits == chars@.subrange(first as int, hi as int),
            s == chars@.subrange(lo as int, hi as int),
            digits == (if s.len() > 0 && (s[0] == '+' || s[0] == '-') {
                s.drop_first()
            } else {
                s
            }),
            negative == (s.len() > 0 && s[0] == '-'),
            all_digits(digits.subrange(0, i - first)),
            value == (if negative {
                -digits_value(digits.subrange(0, i - first))
            } else {
                digits_value(digits.subrange(0, i - first))
            }),
        decreases hi - i,
    {
        let c = chars[i];
        let ghost k = (i - first) as int;
        assert(digits[k] == c);
        if !('0' <= c && c <= '9') {
            assert(!all_digits(digits));
            return None;
        }
        assert(digits.subrange(0, k + 1).drop_last() =~= digits.subrange(0, k));
        let d = (c as u32 - 48) as i64;
        let next = match value.checked_mul(10) {
            Some(tens) => if negative {
                tens.checked_sub(d)
            } else {
                tens.checked_add(d)
            },
            None => None,
        };
        match next {
            Some(n) => {
                value = n;
            },
            None => {
                proof {
                    assert(digits_value(digits.subrange(0, k + 1)) == digits_value(
                        digits.subrange(0, k),
                    ) * 10 + d);
                    if all_digits(digits) {
                        lemma_digits_prefix(digits, k + 1);
                        lemma_digits_nonnegative(digits.subrange(0, k));
                    }
                }
                return None;
            },
        }
        i = i + 1;
    }
    assert(digits.subrange(0, (hi - first) as int) =~= digits);
    Some(value)
}

/// The setting under `key` read as a positive number of seconds; an unreadable,
/// zero or negative value counts as absent, so that a broken setting falls back
/// to the default rather than stopping the rest timer.
pub fn positive_seconds(settings: &[Setting], key: &str) -> (seconds: Option<i64>)
    ensures
        match positive_seconds_of(setting_views(settings@), key@) {
            Some(v) => seconds == Some(v as i64),
            None => seconds.is_none(),
        },
{
    let text = match find(settings, key) {
        Some(text) => text,
        None => return None,
    };
    let chars = chars_of(text);
    let (start, end) = trimmed_bounds(&chars);
    match parse_i64(&chars, start, end) {
        Some(seconds) => if seconds > 0 {
            Some(seconds)
        } else {
            None
        },
        None => None,
    }
}

} // verus!
