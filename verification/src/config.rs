//! The configuration service: field-by-field merging of a stored
//! document into the defaults, the exact text written back to disk,
//! and the in-memory manager with its debounced flush schedule.
//!
//! Loading never deserializes the whole record at once: the document
//! is parsed untyped, and each recognized key overwrites its default
//! only when present and of the expected type, so old files stay
//! loadable across schema changes.

use vstd::prelude::*;
use vstd::string::*;

use crate::jsontext::{
    json_bool,
    json_bounds,
    json_opacity,
    json_opt_string,
    json_string,
    json_string_array,
    push_json_bounds,
    push_json_opacity,
    push_json_opt_string,
    push_json_string,
    push_json_string_array,
};
use crate::jsonval::{
    doc_array_len_of,
    doc_array_string_of,
    doc_bool_of,
    doc_get_array_len,
    doc_get_array_string,
    doc_get_bool,
    doc_get_nested_i64,
    doc_get_nested_u64,
    doc_get_number_text,
    doc_get_string,
    doc_has_key,
    doc_key_present,
    doc_keys_of,
    doc_nested_is_null,
    doc_nested_i64_of,
    doc_nested_key_present,
    doc_nested_null,
    doc_nested_present,
    doc_nested_u64_of,
    doc_number_text_of,
    doc_object_keys,
    doc_string_of,
    json_check,
    json_parses,
};
use crate::models::{Config, ConfigView, LastNote, WindowBounds, default_config_view};
use crate::strutil::{
    all_digits,
    chars_to_string,
    concat2,
    digits_val,
    is_ascii_digit,
    is_blank,
    is_prefix_of,
    lemma_digits_val_nonneg,
    push_chars,
    str_is_blank,
};

verus! {

/// What a stored configuration document contributes: one optional
/// value per recognized key, already reduced to plain data. An absent
/// field leaves the default in place.
pub struct ConfigPatch {
    pub global_shortcut: Option<String>,
    pub clipboard_shortcut: Option<String>,
    pub quick_note_shortcut: Option<String>,
    pub window_bounds: Option<WindowBounds>,
    /// A present `last_note_id` key: its string value, or `None` for
    /// any non-string, which clears the field.
    pub last_note_id: Option<Option<String>>,
    pub last_folder: Option<Option<String>>,
    pub pinned_notes: Option<Vec<String>>,
    pub minimal_mode_bounds: Option<WindowBounds>,
    /// A present, readable opacity, already in thousandths and
    /// clamped to [300, 1000].
    pub window_opacity_milli: Option<u32>,
    pub auto_start_on_boot: Option<bool>,
}

/// The abstract value of a patch.
#[verifier::ext_equal]
pub struct PatchView {
    pub global_shortcut: Option<Seq<char>>,
    pub clipboard_shortcut: Option<Seq<char>>,
    pub quick_note_shortcut: Option<Seq<char>>,
    pub window_bounds: Option<WindowBounds>,
    pub last_note_id: Option<Option<Seq<char>>>,
    pub last_folder: Option<Option<Seq<char>>>,
    pub pinned_notes: Option<Seq<Seq<char>>>,
    pub minimal_mode_bounds: Option<WindowBounds>,
    pub window_opacity_milli: Option<u32>,
    pub auto_start_on_boot: Option<bool>,
}

impl View for ConfigPatch {
    type V = PatchView;

    open spec fn view(&self) -> PatchView {
        PatchView {
            global_shortcut: crate::models::opt_string_view(self.global_shortcut),
            clipboard_shortcut: crate::models::opt_string_view(self.clipboard_shortcut),
            quick_note_shortcut: crate::models::opt_string_view(self.quick_note_shortcut),
            window_bounds: self.window_bounds,
            last_note_id: match self.last_note_id {
                Some(inner) => Some(crate::models::opt_string_view(inner)),
                None => None,
            },
            last_folder: match self.last_folder {
                Some(inner) => Some(crate::models::opt_string_view(inner)),
                None => None,
            },
            pinned_notes: match self.pinned_notes {
                Some(v) => Some(v@.map_values(|x: String| x@)),
                None => None,
            },
            minimal_mode_bounds: self.minimal_mode_bounds,
            window_opacity_milli: self.window_opacity_milli,
            auto_start_on_boot: self.auto_start_on_boot,
        }
    }
}

/// What merging a patch into the defaults yields: each present field
/// overwrites its default, every absent one keeps it.
pub open spec fn spec_merge(p: PatchView) -> ConfigView {
    let d = default_config_view();
    ConfigView {
        global_shortcut: match p.global_shortcut {
            Some(v) => v,
            None => d.global_shortcut,
        },
        clipboard_shortcut: match p.clipboard_shortcut {
            Some(v) => v,
            None => d.clipboard_shortcut,
        },
        quick_note_shortcut: match p.quick_note_shortcut {
            Some(v) => v,
            None => d.quick_note_shortcut,
        },
        window_bounds: match p.window_bounds {
            Some(v) => v,
            None => d.window_bounds,
        },
        last_note_id: match p.last_note_id {
            Some(v) => v,
            None => d.last_note_id,
        },
        last_folder: match p.last_folder {
            Some(v) => v,
            None => d.last_folder,
        },
        pinned_notes: match p.pinned_notes {
            Some(v) => v,
            None => d.pinned_notes,
        },
        minimal_mode_bounds: match p.minimal_mode_bounds {
            Some(v) => v,
            None => d.minimal_mode_bounds,
        },
        window_opacity_milli: match p.window_opacity_milli {
            Some(v) => v,
            None => d.window_opacity_milli,
        },
        auto_start_on_boot: match p.auto_start_on_boot {
            Some(v) => v,
            None => d.auto_start_on_boot,
        },
    }
}

/// The invariant a loaded configuration keeps: its opacity lies in
/// the domain [300, 1000] thousandths.
pub open spec fn config_wf(c: ConfigView) -> bool {
    300 <= c.window_opacity_milli <= 1000
}

/// Applies a patch to the defaults, field by field.
pub fn merge_patch(patch: ConfigPatch) -> (c: Config)
    ensures
        c@ == spec_merge(patch@),
{
    let ConfigPatch {
        global_shortcut,
        clipboard_shortcut,
        quick_note_shortcut,
        window_bounds,
        last_note_id,
        last_folder,
        pinned_notes,
        minimal_mode_bounds,
        window_opacity_milli,
        auto_start_on_boot,
    } = patch;
    let mut c = Config::default();
    if let Some(v) = global_shortcut {
        c.global_shortcut = v;
    }
    if let Some(v) = clipboard_shortcut {
        c.clipboard_shortcut = v;
    }
    if let Some(v) = quick_note_shortcut {
        c.quick_note_shortcut = v;
    }
    if let Some(v) = window_bounds {
        c.window_bounds = v;
    }
    if let Some(v) = last_note_id {
        c.last_note_id = v;
    }
    if let Some(v) = last_folder {
        c.last_folder = v;
    }
    if let Some(v) = pinned_notes {
        c.pinned_notes = v;
    }
    if let Some(v) = minimal_mode_bounds {
        c.minimal_mode_bounds = v;
    }
    if let Some(v) = window_opacity_milli {
        c.window_opacity_milli = v;
    }
    if let Some(v) = auto_start_on_boot {
        c.auto_start_on_boot = v;
    }
    proof {
        assert(c@ =~= spec_merge(patch@));
    }
    c
}

/// The characters of `s` before its first dot (all of `s` without
/// one).
pub open spec fn before_dot(s: Seq<char>) -> int
    decreases s.len(),
{
    if s.len() == 0 {
        0
    } else if s[0] == '.' {
        0
    } else {
        1 + before_dot(s.drop_first())
    }
}

/// No dot before `k`, and one at `k` if within range, pins
/// [`before_dot`] to `k`.
proof fn lemma_before_dot_at(s: Seq<char>, k: int)
    requires
        0 <= k <= s.len(),
        forall|j: int| 0 <= j < k ==> s[j] != '.',
        k < s.len() ==> s[k] == '.',
    ensures
        before_dot(s) == k,
    decreases k,
{
    if k > 0 {
        assert(s[0] != '.');
        lemma_before_dot_at(s.drop_first(), k - 1);
    }
}

/// The value, in thousandths, that a plain decimal reading of the
/// fractional digits contributes: the first three places, truncated.
pub open spec fn frac_milli(fp: Seq<char>) -> int {
    if fp.len() >= 3 {
        digits_val(fp.take(3))
    } else if fp.len() == 2 {
        10 * digits_val(fp)
    } else {
        100 * digits_val(fp)
    }
}

/// What an unsigned plain decimal (digits, optionally a dot and more
/// digits) is worth in thousandths; `None` for any other shape, such
/// as scientific notation.
pub open spec fn opacity_milli_unsigned(s: Seq<char>) -> Option<int> {
    let k = before_dot(s);
    if k >= s.len() {
        if s.len() > 0 && all_digits(s) {
            Some(1000 * digits_val(s))
        } else {
            None
        }
    } else {
        let ip = s.take(k);
        let fp = s.skip(k + 1);
        if ip.len() > 0 && fp.len() > 0 && all_digits(ip) && all_digits(fp) {
            Some(1000 * digits_val(ip) + frac_milli(fp))
        } else {
            None
        }
    }
}

/// What a number text is worth in thousandths, sign included.
pub open spec fn opacity_milli_of(s: Seq<char>) -> Option<int> {
    if s.len() > 0 && s[0] == '-' {
        match opacity_milli_unsigned(s.skip(1)) {
            Some(v) => Some(-v),
            None => None,
        }
    } else {
        opacity_milli_unsigned(s)
    }
}

/// An opacity value forced into its domain.
pub open spec fn clamp_opacity_milli(v: int) -> u32 {
    if v < 300 {
        300
    } else if v > 1000 {
        1000
    } else {
        v as u32
    }
}

/// Reads an opacity from the textual form of a JSON number: a plain
/// decimal is taken at three places and clamped into [300, 1000];
/// any other shape reads as nothing and leaves the default in place.
pub fn opacity_from_number_text(s: &str) -> (r: Option<u32>)
    ensures
        opacity_milli_of(s@) matches Some(v) ==> r == Some(clamp_opacity_milli(v)),
        opacity_milli_of(s@) is None ==> r is None,
{
    let n = s.unicode_len();
    let neg = n > 0 && s.get_char(0) == '-';
    let start: usize = if neg {
        1
    } else {
        0
    };
    let ghost body = if neg {
        s@.skip(1)
    } else {
        s@
    };
    proof {
        assert(body.len() == n - start);
        assert(forall|j: int| 0 <= j < body.len() ==> body[j] == s@[j + start]);
    }
    // find the dot within the unsigned body
    let mut k: usize = start;
    while k < n && s.get_char(k) != '.'
        invariant
            n == s@.len(),
            start <= k <= n,
            forall|j: int| start <= j < k ==> s@[j] != '.',
        decreases n - k,
    {
        k = k + 1;
    }
    // integer digits, saturating well above the clamp threshold
    let mut val: u64 = 0;
    let mut i: usize = start;
    while i < k
        invariant
            n == s@.len(),
            start <= i <= k <= n,
            neg == (n > 0 && s@[0] == '-'),
            neg ==> start == 1,
            !neg ==> start == 0,
            body == (if neg {
                s@.skip(1)
            } else {
                s@
            }),
            forall|j: int| start <= j < k ==> s@[j] != '.',
            k < n ==> s@[k as int] == '.',
            forall|j: int| start <= j < i ==> is_ascii_digit(#[trigger] s@[j]),
            val == (if digits_val(body.subrange(0, i - start)) > 2000 {
                2000int
            } else {
                digits_val(body.subrange(0, i - start))
            }),
        decreases k - i,
    {
        let c = s.get_char(i);
        let code = c as u32;
        if !(48 <= code && code <= 57) {
            proof {
                assert(forall|j: int| 0 <= j < body.len() ==> body[j] == s@[j + start]);
                lemma_before_dot_at(body, k - start);
                assert(body[i - start] == s@[i as int]);
                assert(!is_ascii_digit(body[i - start]));
                if k == n {
                    assert(opacity_milli_unsigned(body) is None);
                } else {
                    assert(body.take(k - start)[i - start] == body[i - start]);
                    assert(!all_digits(body.take(k - start)));
                    assert(opacity_milli_unsigned(body) is None);
                }
                assert(opacity_milli_of(s@) is None);
            }
            return None;
        }
        let d = (code - 48) as u64;
        let ghost prefix = body.subrange(0, i - start);
        proof {
            lemma_digits_val_nonneg_all(prefix, s@, start as int, i as int);
        }
        val = if val * 10 + d > 2000 {
            2000
        } else {
            val * 10 + d
        };
        proof {
            assert(forall|j: int| 0 <= j < body.len() ==> body[j] == s@[j + start]);
            assert(body.subrange(0, i + 1 - start).drop_last() =~= prefix);
            assert(body.subrange(0, i + 1 - start).last() == body[i - start]);
            assert(body[i - start] == s@[i as int]);
            assert(digits_val(body.subrange(0, i + 1 - start)) == digits_val(prefix) * 10 + d);
        }
        i = i + 1;
    }
    proof {
        assert(forall|j: int| 0 <= j < body.len() ==> body[j] == s@[j + start]);
        lemma_before_dot_at(body, k - start);
    }
    let ghost ip = body.take(before_dot(body));
    proof {
        assert(ip =~= body.subrange(0, k - start));
        assert(forall|j: int| 0 <= j < ip.len() ==> ip[j] == s@[j + start]);
        assert(all_digits(ip));
    }
    if k == start {
        // empty integer part ("." alone, a bare sign, or empty text)
        proof {
            assert(opacity_milli_unsigned(body) is None);
            assert(opacity_milli_of(s@) is None);
        }
        return None;
    }
    // fractional digits, three places truncated
    let mut frac: u64 = 0;
    let ghost fp = body.skip(k - start + 1);
    if k < n {
        if n - k == 1 {
            // a trailing dot with no digits
            proof {
                assert(fp =~= Seq::<char>::empty());
                assert(opacity_milli_unsigned(body) is None);
                assert(opacity_milli_of(s@) is None);
            }
            return None;
        }
        let mut j: usize = k + 1;
        while j < n
            invariant
                n == s@.len(),
                k + 1 <= j <= n,
                start <= k < n,
                neg == (n > 0 && s@[0] == '-'),
                neg ==> start == 1,
                !neg ==> start == 0,
                body == (if neg {
                    s@.skip(1)
                } else {
                    s@
                }),
                fp == body.skip(k - start + 1),
                forall|l: int| start <= l < k ==> s@[l] != '.',
                s@[k as int] == '.',
                forall|l: int| k + 1 <= l < j ==> is_ascii_digit(#[trigger] s@[l]),
            decreases n - j,
        {
            let c = s.get_char(j);
            let code = c as u32;
            if !(48 <= code && code <= 57) {
                proof {
                    assert(forall|l: int| 0 <= l < body.len() ==> body[l] == s@[l + start]);
                    assert(forall|l: int|
                        0 <= l < fp.len() ==> fp[l] == s@[l + k + 1]);
                    assert(fp[j - k - 1] == s@[j as int]);
                    assert(!all_digits(fp));
                    lemma_before_dot_at(body, k - start);
                    assert(opacity_milli_unsigned(body) is None);
                    assert(opacity_milli_of(s@) is None);
                }
                return None;
            }
            j = j + 1;
        }
        proof {
            assert(forall|l: int| 0 <= l < body.len() ==> body[l] == s@[l + start]);
            assert(forall|l: int| 0 <= l < fp.len() ==> fp[l] == s@[l + k + 1]);
            assert(all_digits(fp));
            assert(fp.len() == n - k - 1);
        }
        // read up to three places
        let d1 = digit_at(s, k + 1);
        let d2 = if n - k > 2 {
            digit_at(s, k + 2)
        } else {
            0
        };
        let d3 = if n - k > 3 {
            digit_at(s, k + 3)
        } else {
            0
        };
        frac = (d1 * 100 + d2 * 10 + d3) as u64;
        proof {
            if fp.len() >= 3 {
                let f3 = fp.take(3);
                lemma_digits_val_step(f3);
                assert(f3.drop_last() =~= fp.take(2));
                lemma_digits_val_step(fp.take(2));
                assert(fp.take(2).drop_last() =~= fp.take(1));
                lemma_digits_val_step(fp.take(1));
                assert(fp.take(1).drop_last() =~= Seq::<char>::empty());
                assert(digits_val(Seq::<char>::empty()) == 0);
                assert(fp.take(1).last() == s@[k + 1]);
                assert(fp.take(2).last() == s@[k + 2]);
                assert(f3.last() == s@[k + 3]);
                assert(frac == frac_milli(fp));
            } else if fp.len() == 2 {
                lemma_digits_val_step(fp);
                assert(fp.drop_last() =~= fp.take(1));
                lemma_digits_val_step(fp.take(1));
                assert(fp.take(1).drop_last() =~= Seq::<char>::empty());
                assert(digits_val(Seq::<char>::empty()) == 0);
                assert(fp.take(1).last() == s@[k + 1]);
                assert(fp.last() == s@[k + 2]);
                assert(frac == frac_milli(fp));
            } else {
                assert(fp.len() == 1);
                lemma_digits_val_step(fp);
                assert(fp.drop_last() =~= Seq::<char>::empty());
                assert(digits_val(Seq::<char>::empty()) == 0);
                assert(fp.last() == s@[k + 1]);
                assert(frac == frac_milli(fp));
            }
        }
    }
    let ghost exact = opacity_milli_unsigned(body).unwrap();
    proof {
        if k < n {
            assert(fp.len() > 0 && all_digits(fp));
        }
        assert(opacity_milli_unsigned(body) is Some);
        lemma_digits_val_nonneg(ip);
        lemma_frac_milli_bounds_for(body, k - start, n - start);
        if k < n {
            assert(exact == 1000 * digits_val(ip) + frac_milli(fp));
            assert(frac == frac_milli(fp));
        } else {
            assert(ip =~= body);
            assert(exact == 1000 * digits_val(ip));
            assert(frac == 0);
        }
        assert(exact >= 0);
        if digits_val(ip) > 2000 {
            assert(exact > 1000);
        }
    }
    if neg {
        // a negative reading is below the domain in every case
        proof {
            assert(opacity_milli_of(s@) == Some(-exact));
            assert(clamp_opacity_milli(-exact) == 300);
        }
        return Some(300);
    }
    let total: u64 = val * 1000 + frac;
    proof {
        assert(opacity_milli_of(s@) == Some(exact));
        if digits_val(ip) <= 2000 {
            assert(val == digits_val(ip));
            assert(total == exact);
        } else {
            assert(val == 2000);
            assert(total > 1000);
            assert(exact > 1000);
        }
    }
    let clamped: u32 = if total < 300 {
        300
    } else if total > 1000 {
        1000
    } else {
        total as u32
    };
    Some(clamped)
}

/// Digits of the scanned prefix have a non-negative value.
proof fn lemma_digits_val_nonneg_all(prefix: Seq<char>, s: Seq<char>, start: int, i: int)
    requires
        0 <= start <= i,
        prefix.len() == i - start,
        forall|j: int| 0 <= j < prefix.len() ==> prefix[j] == s[j + start],
        forall|j: int| start <= j < i ==> is_ascii_digit(#[trigger] s[j]),
    ensures
        digits_val(prefix) >= 0,
{
    assert(all_digits(prefix));
    lemma_digits_val_nonneg(prefix);
}

/// For a validated unsigned decimal body with its dot at `k` (or
/// none when `k == n`), the fractional contribution lies in
/// [0, 999].
proof fn lemma_frac_milli_bounds_for(body: Seq<char>, k: int, n: int)
    requires
        n == body.len(),
        0 <= k <= n,
        k < n ==> (body.skip(k + 1).len() > 0 && all_digits(body.skip(k + 1))),
    ensures
        k < n ==> 0 <= frac_milli(body.skip(k + 1)) <= 999,
{
    if k < n {
        let fp = body.skip(k + 1);
        if fp.len() >= 3 {
            let f3 = fp.take(3);
            assert(all_digits(f3));
            lemma_digits_val_3_bounds(f3);
        } else if fp.len() == 2 {
            lemma_digits_val_3_bounds(fp);
            assert(0 <= digits_val(fp) <= 99);
        } else {
            lemma_digits_val_3_bounds(fp);
            assert(0 <= digits_val(fp) <= 9);
        }
    }
}

/// One unfolding of the digit-string value.
proof fn lemma_digits_val_step(s: Seq<char>)
    requires
        s.len() > 0,
    ensures
        digits_val(s) == digits_val(s.drop_last()) * 10 + (s.last() as u32 - 48),
{
}

/// A digit string of at most three places is worth at most 999.
proof fn lemma_digits_val_3_bounds(s: Seq<char>)
    requires
        all_digits(s),
        s.len() <= 3,
    ensures
        0 <= digits_val(s),
        s.len() <= 1 ==> digits_val(s) <= 9,
        s.len() <= 2 ==> digits_val(s) <= 99,
        digits_val(s) <= 999,
    decreases s.len(),
{
    if s.len() > 0 {
        assert(all_digits(s.drop_last()));
        lemma_digits_val_3_bounds(s.drop_last());
    }
}

/// The digit at position `i`.
fn digit_at(s: &str, i: usize) -> (r: u32)
    requires
        i < s@.len(),
        is_ascii_digit(s@[i as int]),
    ensures
        r == s@[i as int] as u32 - 48,
        r < 10,
{
    let c = s.get_char(i);
    (c as u32) - 48
}

/// A digit's character carries its value.
proof fn lemma_digit_char_val(d: int)
    requires
        0 <= d < 10,
    ensures
        crate::strutil::digit_char(d) as u32 == 48 + d,
        is_ascii_digit(crate::strutil::digit_char(d)),
{
}

/// The opacity the crate writes reads back as itself: for any value
/// in the domain, the persisted decimal parses to the same
/// thousandths. One half of the configuration round trip.
pub proof fn lemma_opacity_round_trip(milli: u32)
    requires
        300 <= milli <= 1000,
    ensures
        opacity_milli_of(json_opacity(milli)) == Some(milli as int),
{
    let t = json_opacity(milli);
    let whole = (milli / 1000) as int;
    let f = (milli % 1000) as int;
    let ipart = crate::strutil::dec_rep((milli / 1000) as nat);
    let fpart = crate::jsontext::opacity_frac_digits(f);
    assert(ipart == seq![crate::strutil::digit_char(whole)]);
    lemma_digit_char_val(whole);
    assert(t.len() == 2 + fpart.len());
    assert(t[0] == crate::strutil::digit_char(whole));
    assert(t[1] == '.');
    assert(t[0] != '-') by {
        assert(t[0] as u32 == 48 + whole);
    }
    assert(t[0] != '.') by {
        assert(t[0] as u32 == 48 + whole);
    }
    lemma_before_dot_at(t, 1);
    let ip = t.take(1);
    let fp = t.skip(2);
    assert(ip =~= seq![crate::strutil::digit_char(whole)]);
    assert(fp =~= fpart);
    assert(all_digits(ip));
    lemma_digits_val_step(ip);
    assert(ip.drop_last() =~= Seq::<char>::empty());
    assert(digits_val(ip) == whole);
    let d1 = f / 100;
    let d2 = (f / 10) % 10;
    let d3 = f % 10;
    lemma_digit_char_val(d1);
    lemma_digit_char_val(d2);
    lemma_digit_char_val(d3);
    if d3 != 0 {
        assert(fpart == seq![
            crate::strutil::digit_char(d1),
            crate::strutil::digit_char(d2),
            crate::strutil::digit_char(d3),
        ]);
        assert(all_digits(fp));
        assert(fp.len() == 3);
        let f3 = fp.take(3);
        assert(f3 =~= fp);
        lemma_digits_val_step(f3);
        assert(f3.drop_last() =~= fp.take(2));
        lemma_digits_val_step(fp.take(2));
        assert(fp.take(2).drop_last() =~= fp.take(1));
        lemma_digits_val_step(fp.take(1));
        assert(fp.take(1).drop_last() =~= Seq::<char>::empty());
        assert(digits_val(Seq::<char>::empty()) == 0);
        assert(frac_milli(fp) == d1 * 100 + d2 * 10 + d3);
        assert(frac_milli(fp) == f);
    } else if d2 != 0 {
        assert(fpart == seq![crate::strutil::digit_char(d1), crate::strutil::digit_char(d2)]);
        assert(all_digits(fp));
        assert(fp.len() == 2);
        lemma_digits_val_step(fp);
        assert(fp.drop_last() =~= fp.take(1));
        lemma_digits_val_step(fp.take(1));
        assert(fp.take(1).drop_last() =~= Seq::<char>::empty());
        assert(digits_val(Seq::<char>::empty()) == 0);
        assert(frac_milli(fp) == 10 * (d1 * 10 + d2));
        assert(frac_milli(fp) == f);
    } else {
        assert(fpart == seq![crate::strutil::digit_char(d1)]);
        assert(all_digits(fp));
        assert(fp.len() == 1);
        lemma_digits_val_step(fp);
        assert(fp.drop_last() =~= Seq::<char>::empty());
        assert(digits_val(Seq::<char>::empty()) == 0);
        assert(frac_milli(fp) == 100 * d1);
        assert(frac_milli(fp) == f);
    }
    assert(opacity_milli_unsigned(t) == Some(1000 * whole + f));
    assert(1000 * whole + f == milli as int);
}

/// The optional position coordinate under a bounds object's
/// sub-key, as the document carries it: absent or `null` reads as
/// unset; an integer that fits reads as set; anything else spoils
/// the whole bounds object (`None`).
pub open spec fn doc_coord_of(s: Seq<char>, key: Seq<char>, sub: Seq<char>) -> Option<
    Option<i32>,
> {
    if !doc_nested_present(s, key, sub) {
        Some(None)
    } else if doc_nested_null(s, key, sub) {
        Some(None)
    } else {
        match doc_nested_i64_of(s, key, sub) {
            Some(v) => if i32::MIN <= v <= i32::MAX {
                Some(Some(v as i32))
            } else {
                None
            },
            None => None,
        }
    }
}

/// The window bounds under a top-level key, as the document carries
/// them: `width` and `height` must be present unsigned numbers that
/// fit; `x` and `y` may be absent, `null`, or signed numbers that
/// fit. Anything else discards the whole object, keeping the
/// default.
pub open spec fn doc_bounds_of(s: Seq<char>, key: Seq<char>) -> Option<WindowBounds> {
    let w = doc_nested_u64_of(s, key, "width"@);
    let h = doc_nested_u64_of(s, key, "height"@);
    if w is Some && w.unwrap() <= u32::MAX && h is Some && h.unwrap() <= u32::MAX {
        match doc_coord_of(s, key, "x"@) {
            Some(x) => match doc_coord_of(s, key, "y"@) {
                Some(y) => Some(
                    WindowBounds {
                        width: w.unwrap() as u32,
                        height: h.unwrap() as u32,
                        x,
                        y,
                    },
                ),
                None => None,
            },
            None => None,
        }
    } else {
        None
    }
}

/// Reads the window bounds under a top-level key.
fn extract_bounds(s: &str, key: &str) -> (r: Option<WindowBounds>)
    ensures
        r == doc_bounds_of(s@, key@),
{
    let width64 = match doc_get_nested_u64(s, key, "width") {
        Some(n) => n,
        None => {
            return None;
        },
    };
    if width64 > u32::MAX as u64 {
        return None;
    }
    let height64 = match doc_get_nested_u64(s, key, "height") {
        Some(n) => n,
        None => {
            return None;
        },
    };
    if height64 > u32::MAX as u64 {
        return None;
    }
    let x = match extract_coord(s, key, "x") {
        Some(x) => x,
        None => {
            return None;
        },
    };
    let y = match extract_coord(s, key, "y") {
        Some(y) => y,
        None => {
            return None;
        },
    };
    Some(WindowBounds { width: width64 as u32, height: height64 as u32, x, y })
}

/// Reads one optional position coordinate of a bounds object.
fn extract_coord(s: &str, key: &str, sub: &str) -> (r: Option<Option<i32>>)
    ensures
        r == doc_coord_of(s@, key@, sub@),
{
    if !doc_nested_key_present(s, key, sub) {
        return Some(None);
    }
    if doc_nested_is_null(s, key, sub) {
        return Some(None);
    }
    match doc_get_nested_i64(s, key, sub) {
        Some(v) => {
            if v < i32::MIN as i64 || v > i32::MAX as i64 {
                None
            } else {
                Some(Some(v as i32))
            }
        },
        None => None,
    }
}

/// The string elements among the first `n` entries of the array
/// under a top-level key, in order; entries of other types are
/// skipped.
pub open spec fn doc_string_items(s: Seq<char>, key: Seq<char>, n: int) -> Seq<Seq<char>>
    decreases n,
{
    if n <= 0 {
        Seq::empty()
    } else {
        let rest = doc_string_items(s, key, n - 1);
        match doc_array_string_of(s, key, n - 1) {
            Some(x) => rest.push(x),
            None => rest,
        }
    }
}

/// The pinned list a document contributes: the string elements of
/// its `pinned_notes` array, or nothing when that key holds no
/// array.
pub open spec fn doc_pinned_of(s: Seq<char>) -> Option<Seq<Seq<char>>> {
    match doc_array_len_of(s, "pinned_notes"@) {
        Some(n) => Some(doc_string_items(s, "pinned_notes"@, n as int)),
        None => None,
    }
}

/// Reads the string elements of the array under a top-level key,
/// skipping entries of other types; `None` when the key holds no
/// array.
fn extract_string_list(s: &str, key: &str) -> (r: Option<Vec<String>>)
    ensures
        doc_array_len_of(s@, key@) matches Some(n) ==> (r matches Some(items)
            && crate::store::ids_view(items@) == doc_string_items(s@, key@, n as int)),
        doc_array_len_of(s@, key@) is None ==> r is None,
{
    let n = match doc_get_array_len(s, key) {
        Some(n) => n,
        None => {
            return None;
        },
    };
    let mut out: Vec<String> = Vec::new();
    let mut i: usize = 0;
    while i < n
        invariant
            i <= n,
            crate::store::ids_view(out@) == doc_string_items(s@, key@, i as int),
        decreases n - i,
    {
        let ghost old_out = out@;
        match doc_get_array_string(s, key, i) {
            Some(item) => {
                out.push(item);
                proof {
                    assert(crate::store::ids_view(out@) =~= crate::store::ids_view(
                        old_out,
                    ).push(doc_array_string_of(s@, key@, i as int).unwrap()));
                }
            },
            None => (),
        }
        i = i + 1;
    }
    Some(out)
}

/// The opacity a document contributes: its `window_opacity` number
/// read as a plain decimal at three places and clamped into the
/// domain; a number in any other shape (such as scientific notation)
/// contributes nothing, keeping the default.
pub open spec fn doc_opacity_of(s: Seq<char>) -> Option<u32> {
    match doc_number_text_of(s, "window_opacity"@) {
        Some(t) => match opacity_milli_of(t) {
            Some(v) => Some(clamp_opacity_milli(v)),
            None => None,
        },
        None => None,
    }
}

/// Everything a stored document contributes, key by key: a field is
/// taken only when present and of the expected type, so a partial or
/// partly malformed document still loads.
pub open spec fn doc_patch_view(s: Seq<char>) -> PatchView {
    PatchView {
        global_shortcut: doc_string_of(s, "global_shortcut"@),
        clipboard_shortcut: doc_string_of(s, "clipboard_shortcut"@),
        quick_note_shortcut: doc_string_of(s, "quick_note_shortcut"@),
        window_bounds: doc_bounds_of(s, "window_bounds"@),
        last_note_id: if doc_has_key(s, "last_note_id"@) {
            Some(doc_string_of(s, "last_note_id"@))
        } else {
            None
        },
        last_folder: if doc_has_key(s, "last_folder"@) {
            Some(doc_string_of(s, "last_folder"@))
        } else {
            None
        },
        pinned_notes: doc_pinned_of(s),
        minimal_mode_bounds: doc_bounds_of(s, "minimal_mode_bounds"@),
        window_opacity_milli: doc_opacity_of(s),
        auto_start_on_boot: doc_bool_of(s, "auto_start_on_boot"@),
    }
}

/// Reads a document's contribution, field by field.
fn extract_patch(s: &str) -> (p: ConfigPatch)
    ensures
        p@ == doc_patch_view(s@),
{
    let global_shortcut = doc_get_string(s, "global_shortcut");
    let clipboard_shortcut = doc_get_string(s, "clipboard_shortcut");
    let quick_note_shortcut = doc_get_string(s, "quick_note_shortcut");
    let window_bounds = extract_bounds(s, "window_bounds");
    let last_note_id = if doc_key_present(s, "last_note_id") {
        Some(doc_get_string(s, "last_note_id"))
    } else {
        None
    };
    let last_folder = if doc_key_present(s, "last_folder") {
        Some(doc_get_string(s, "last_folder"))
    } else {
        None
    };
    let pinned_notes = extract_string_list(s, "pinned_notes");
    let minimal_mode_bounds = extract_bounds(s, "minimal_mode_bounds");
    let window_opacity_milli = match doc_get_number_text(s, "window_opacity") {
        Some(t) => opacity_from_number_text(t.as_str()),
        None => None,
    };
    let auto_start_on_boot = doc_get_bool(s, "auto_start_on_boot");
    let p = ConfigPatch {
        global_shortcut,
        clipboard_shortcut,
        quick_note_shortcut,
        window_bounds,
        last_note_id,
        last_folder,
        pinned_notes,
        minimal_mode_bounds,
        window_opacity_milli,
        auto_start_on_boot,
    };
    proof {
        assert(p@ =~= doc_patch_view(s@));
    }
    p
}

/// A loaded configuration always lies in the domain: the merge of
/// any document's contribution is well formed.
proof fn lemma_merged_doc_wf(s: Seq<char>)
    ensures
        config_wf(spec_merge(doc_patch_view(s))),
{
    match doc_opacity_of(s) {
        Some(m) => {
            assert(300 <= m <= 1000);
        },
        None => (),
    }
}

/// Merges a partial configuration document with the defaults. Blank
/// input yields the defaults; an unparsable document is the one hard
/// error; any parsed document yields exactly the merge of what it
/// contributes ([`doc_patch_view`]) into the defaults, so every
/// unrecognized or ill-typed field keeps its default and the result
/// always lies in the domain.
pub fn merge_config_with_defaults(partial_json: &str) -> (r: Result<Config, String>)
    ensures
        is_blank(partial_json@) ==> (r matches Ok(c) && c@ == default_config_view()),
        !is_blank(partial_json@) && !json_parses(partial_json@) ==> (r matches Err(e)
            && is_prefix_of("Failed to parse config: "@, e@)),
        !is_blank(partial_json@) && json_parses(partial_json@) ==> (r matches Ok(c) && c@
            == spec_merge(doc_patch_view(partial_json@)) && config_wf(c@)),
{
    if str_is_blank(partial_json) {
        return Ok(Config::default());
    }
    if let Err(e) = json_check(partial_json) {
        let msg = concat2("Failed to parse config: ", e.as_str());
        proof {
            assert(msg@.subrange(0, "Failed to parse config: "@.len() as int)
                =~= "Failed to parse config: "@);
        }
        return Err(msg);
    }
    let patch = extract_patch(partial_json);
    let c = merge_patch(patch);
    proof {
        lemma_merged_doc_wf(partial_json@);
    }
    Ok(c)
}

/// Loads a configuration from the file's content (`None` when the
/// file does not exist, which yields the full defaults). Only an
/// unparsable document is a hard error; any parsed document loads as
/// exactly the merge of its contribution into the defaults.
pub fn load_config(content: Option<&str>) -> (r: Result<Config, String>)
    ensures
        crate::store::view_opt_str(content) is None ==> (r matches Ok(c) && c@
            == default_config_view()),
        crate::store::view_opt_str(content) matches Some(sv) ==> ((!json_parses(sv) ==> (r
            matches Err(e) && is_prefix_of("Failed to parse config file: "@, e@))) && (
        json_parses(sv) ==> (r matches Ok(c) && c@ == spec_merge(doc_patch_view(sv))
            && config_wf(c@)))),
{
    let s = match content {
        None => {
            return Ok(Config::default());
        },
        Some(s) => s,
    };
    if let Err(e) = json_check(s) {
        let msg = concat2("Failed to parse config file: ", e.as_str());
        proof {
            assert(msg@.subrange(0, "Failed to parse config file: "@.len() as int)
                =~= "Failed to parse config file: "@);
        }
        return Err(msg);
    }
    let patch = extract_patch(s);
    let c = merge_patch(patch);
    proof {
        lemma_merged_doc_wf(s@);
    }
    Ok(c)
}

/// The exact text this crate persists for a configuration: one JSON
/// object, every field written, positions as `null` when unset, the
/// opacity as a plain decimal.
pub open spec fn config_json(c: ConfigView) -> Seq<char> {
    "{\n  \"global_shortcut\": "@ + json_string(c.global_shortcut)
        + ",\n  \"clipboard_shortcut\": "@ + json_string(c.clipboard_shortcut)
        + ",\n  \"quick_note_shortcut\": "@ + json_string(c.quick_note_shortcut)
        + ",\n  \"window_bounds\": "@ + json_bounds(c.window_bounds)
        + ",\n  \"last_note_id\": "@ + json_opt_string(c.last_note_id)
        + ",\n  \"last_folder\": "@ + json_opt_string(c.last_folder)
        + ",\n  \"pinned_notes\": "@ + json_string_array(c.pinned_notes)
        + ",\n  \"minimal_mode_bounds\": "@ + json_bounds(c.minimal_mode_bounds)
        + ",\n  \"window_opacity\": "@ + json_opacity(c.window_opacity_milli)
        + ",\n  \"auto_start_on_boot\": "@ + json_bool(c.auto_start_on_boot) + "\n}"@
}

/// Writes a configuration as the text [`config_json`] describes.
pub fn config_to_json(c: &Config) -> (r: String)
    ensures
        r@ == config_json(c@),
{
    let mut out: Vec<char> = Vec::new();
    push_chars(&mut out, "{\n  \"global_shortcut\": ");
    push_json_string(&mut out, c.global_shortcut.as_str());
    push_chars(&mut out, ",\n  \"clipboard_shortcut\": ");
    push_json_string(&mut out, c.clipboard_shortcut.as_str());
    push_chars(&mut out, ",\n  \"quick_note_shortcut\": ");
    push_json_string(&mut out, c.quick_note_shortcut.as_str());
    push_chars(&mut out, ",\n  \"window_bounds\": ");
    push_json_bounds(&mut out, &c.window_bounds);
    push_chars(&mut out, ",\n  \"last_note_id\": ");
    push_json_opt_string(&mut out, &c.last_note_id);
    push_chars(&mut out, ",\n  \"last_folder\": ");
    push_json_opt_string(&mut out, &c.last_folder);
    push_chars(&mut out, ",\n  \"pinned_notes\": ");
    push_json_string_array(&mut out, &c.pinned_notes);
    push_chars(&mut out, ",\n  \"minimal_mode_bounds\": ");
    push_json_bounds(&mut out, &c.minimal_mode_bounds);
    push_chars(&mut out, ",\n  \"window_opacity\": ");
    push_json_opacity(&mut out, c.window_opacity_milli);
    push_chars(&mut out, ",\n  \"auto_start_on_boot\": ");
    if c.auto_start_on_boot {
        push_chars(&mut out, "true");
    } else {
        push_chars(&mut out, "false");
    }
    push_chars(&mut out, "\n}");
    proof {
        assert(crate::store::ids_view(c.pinned_notes@) =~= c@.pinned_notes);
        assert(out@ =~= config_json(c@));
    }
    chars_to_string(&out)
}

/// Holds the in-memory configuration, the mirror the flush path
/// reads, and the single outstanding debounce slot.
///
/// Scheduling hands out a token; the surrounding program starts its
/// timer with it and reports back through [`ConfigManager::timer_fired`].
/// Scheduling again replaces the token, so an earlier timer that
/// fires later finds its token stale and writes nothing: bursts
/// coalesce into one write of the latest value.
pub struct ConfigManager {
    config: Config,
    config_path: String,
    mirror: Config,
    pending: Option<u64>,
    issued: u64,
}

impl ConfigManager {
    /// The current configuration.
    pub closed spec fn current(&self) -> ConfigView {
        self.config@
    }

    /// The value the asynchronous flush path would write.
    pub closed spec fn mirrored(&self) -> ConfigView {
        self.mirror@
    }

    /// The token of the one outstanding flush, if any.
    pub closed spec fn pending_save(&self) -> Option<u64> {
        self.pending
    }

    /// How many flush tokens were handed out.
    pub closed spec fn tokens_issued(&self) -> u64 {
        self.issued
    }

    /// The configuration file's path.
    pub closed spec fn path(&self) -> Seq<char> {
        self.config_path@
    }

    /// The manager's invariant: an outstanding token was issued.
    pub closed spec fn wf(&self) -> bool {
        match self.pending {
            Some(t) => t < self.issued,
            None => true,
        }
    }

    /// Builds the manager from the configuration file's content
    /// (`None` when the file does not exist): exactly the stored
    /// document's contribution merged into the defaults. The mirror
    /// starts equal to the loaded value and nothing is scheduled.
    pub fn new(config_path: String, file_content: Option<&str>) -> (r: Result<
        ConfigManager,
        String,
    >)
        ensures
            crate::store::view_opt_str(file_content) is None ==> (r matches Ok(m) && m.current()
                == default_config_view()),
            crate::store::view_opt_str(file_content) matches Some(sv) ==> ((!json_parses(sv)
                ==> (r matches Err(e) && is_prefix_of("Failed to parse config file: "@, e@)))
                && (json_parses(sv) ==> (r matches Ok(m) && m.current() == spec_merge(
                doc_patch_view(sv),
            ) && config_wf(m.current())))),
            r matches Ok(m) ==> m.mirrored() == m.current() && m.pending_save() is None
                && m.path() == config_path@ && m.wf(),
    {
        let config = load_config(file_content)?;
        let mirror = clone_config(&config);
        Ok(ConfigManager { config, config_path, mirror, pending: None, issued: 0 })
    }

    /// A copy of the current configuration.
    pub fn get(&self) -> (r: Config)
        ensures
            r@ == self.current(),
    {
        clone_config(&self.config)
    }

    /// Replaces the configuration and immediately mirrors it for the
    /// flush path, so a flush never reads a half-applied value.
    pub fn update(&mut self, new_config: Config)
        ensures
            final(self).current() == new_config@,
            final(self).mirrored() == new_config@,
            final(self).pending_save() == old(self).pending_save(),
            final(self).tokens_issued() == old(self).tokens_issued(),
            final(self).path() == old(self).path(),
            old(self).wf() ==> final(self).wf(),
    {
        self.mirror = clone_config(&new_config);
        self.config = new_config;
    }

    /// How many flush tokens were handed out so far; the counter
    /// behind [`ConfigManager::schedule_save`]'s freshness.
    pub fn saves_scheduled(&self) -> (r: u64)
        ensures
            r == self.tokens_issued(),
    {
        self.issued
    }

    /// Cancels any outstanding flush and schedules a new one,
    /// handing back its token. The caller starts the debounce timer
    /// and reports back through [`ConfigManager::timer_fired`].
    pub fn schedule_save(&mut self) -> (token: u64)
        requires
            old(self).tokens_issued() < u64::MAX,
        ensures
            final(self).pending_save() == Some(token),
            old(self).pending_save() matches Some(t) ==> (old(self).wf() ==> token != t),
            final(self).current() == old(self).current(),
            final(self).mirrored() == old(self).mirrored(),
            final(self).path() == old(self).path(),
            final(self).tokens_issued() == old(self).tokens_issued() + 1,
            old(self).wf() ==> final(self).wf(),
    {
        let token = self.issued;
        self.issued = self.issued + 1;
        self.pending = Some(token);
        token
    }

    /// The debounce timer for `token` elapsed. Exactly the one
    /// outstanding token causes a write, of the mirrored value at
    /// this moment; a stale or unknown token writes nothing and
    /// changes nothing.
    pub fn timer_fired(&mut self, token: u64) -> (r: Option<String>)
        ensures
            old(self).pending_save() == Some(token) ==> (r matches Some(text) && text@
                == config_json(old(self).mirrored()) && final(self).pending_save() is None),
            old(self).pending_save() != Some(token) ==> (r is None && final(self).pending_save()
                == old(self).pending_save()),
            final(self).current() == old(self).current(),
            final(self).mirrored() == old(self).mirrored(),
            final(self).path() == old(self).path(),
            final(self).tokens_issued() == old(self).tokens_issued(),
            old(self).wf() ==> final(self).wf(),
    {
        let fire = match self.pending {
            Some(t) => t == token,
            None => false,
        };
        if fire {
            self.pending = None;
            Some(config_to_json(&self.mirror))
        } else {
            None
        }
    }

    /// Replaces the configuration and schedules a debounced flush in
    /// one step.
    pub fn update_and_save(&mut self, new_config: Config) -> (token: u64)
        requires
            old(self).tokens_issued() < u64::MAX,
        ensures
            final(self).current() == new_config@,
            final(self).mirrored() == new_config@,
            final(self).pending_save() == Some(token),
            final(self).path() == old(self).path(),
            old(self).wf() ==> final(self).wf(),
    {
        self.update(new_config);
        self.schedule_save()
    }

    /// The text an immediate, synchronous save writes: the current
    /// value, bypassing the debounce.
    pub fn save_sync(&self) -> (r: String)
        ensures
            r@ == config_json(self.current()),
    {
        config_to_json(&self.config)
    }

    /// The last opened note, as remembered.
    pub fn get_last_note(&self) -> (r: LastNote)
        ensures
            crate::models::opt_string_view(r.note_id) == self.current().last_note_id,
            crate::models::opt_string_view(r.folder) == self.current().last_folder,
    {
        LastNote {
            note_id: clone_opt_string(&self.config.last_note_id),
            folder: clone_opt_string(&self.config.last_folder),
        }
    }

    /// Remembers the last opened note (or clears it with `None`s).
    pub fn save_last_note(&mut self, note_id: Option<String>, folder: Option<String>)
        ensures
            final(self).current() == (ConfigView {
                last_note_id: crate::models::opt_string_view(note_id),
                last_folder: crate::models::opt_string_view(folder),
                ..old(self).current()
            }),
            final(self).mirrored() == final(self).current(),
            final(self).pending_save() == old(self).pending_save(),
            final(self).tokens_issued() == old(self).tokens_issued(),
            final(self).path() == old(self).path(),
            old(self).wf() ==> final(self).wf(),
    {
        let mut c = clone_config(&self.config);
        c.last_note_id = note_id;
        c.last_folder = folder;
        proof {
            assert(c@ =~= (ConfigView {
                last_note_id: crate::models::opt_string_view(c.last_note_id),
                last_folder: crate::models::opt_string_view(c.last_folder),
                ..old(self).current()
            }));
        }
        self.update(c);
    }

    /// The configured global shortcut.
    pub fn get_global_shortcut(&self) -> (r: String)
        ensures
            r@ == self.current().global_shortcut,
    {
        self.config.global_shortcut.clone()
    }

    /// Replaces the global shortcut.
    pub fn set_global_shortcut(&mut self, shortcut: String)
        ensures
            final(self).current() == (ConfigView {
                global_shortcut: shortcut@,
                ..old(self).current()
            }),
            final(self).mirrored() == final(self).current(),
            final(self).pending_save() == old(self).pending_save(),
            final(self).tokens_issued() == old(self).tokens_issued(),
            final(self).path() == old(self).path(),
            old(self).wf() ==> final(self).wf(),
    {
        let mut c = clone_config(&self.config);
        c.global_shortcut = shortcut;
        proof {
            assert(c@ =~= (ConfigView { global_shortcut: c.global_shortcut@, ..old(self).current() }));
        }
        self.update(c);
    }

    /// The pinned-note ids.
    pub fn get_pinned_notes(&self) -> (r: Vec<String>)
        ensures
            r@.map_values(|x: String| x@) == self.current().pinned_notes,
    {
        clone_string_vec(&self.config.pinned_notes)
    }

    /// Replaces the pinned-note ids.
    pub fn set_pinned_notes(&mut self, pinned_notes: Vec<String>)
        ensures
            final(self).current() == (ConfigView {
                pinned_notes: pinned_notes@.map_values(|x: String| x@),
                ..old(self).current()
            }),
            final(self).mirrored() == final(self).current(),
            final(self).pending_save() == old(self).pending_save(),
            final(self).tokens_issued() == old(self).tokens_issued(),
            final(self).path() == old(self).path(),
            old(self).wf() ==> final(self).wf(),
    {
        let mut c = clone_config(&self.config);
        c.pinned_notes = pinned_notes;
        proof {
            assert(c@ =~= (ConfigView {
                pinned_notes: c.pinned_notes@.map_values(|x: String| x@),
                ..old(self).current()
            }));
        }
        self.update(c);
    }

    /// Stores the main window's persisted bounds.
    pub fn set_window_bounds(&mut self, bounds: WindowBounds)
        ensures
            final(self).current() == (ConfigView { window_bounds: bounds, ..old(self).current() }),
            final(self).mirrored() == final(self).current(),
            final(self).pending_save() == old(self).pending_save(),
            final(self).tokens_issued() == old(self).tokens_issued(),
            final(self).path() == old(self).path(),
            old(self).wf() ==> final(self).wf(),
    {
        let mut c = clone_config(&self.config);
        c.window_bounds = bounds;
        proof {
            assert(c@ =~= (ConfigView { window_bounds: bounds, ..old(self).current() }));
        }
        self.update(c);
    }

    /// Stores the minimal-mode bounds.
    pub fn set_minimal_mode_bounds(&mut self, bounds: WindowBounds)
        ensures
            final(self).current() == (ConfigView {
                minimal_mode_bounds: bounds,
                ..old(self).current()
            }),
            final(self).mirrored() == final(self).current(),
            final(self).pending_save() == old(self).pending_save(),
            final(self).tokens_issued() == old(self).tokens_issued(),
            final(self).path() == old(self).path(),
            old(self).wf() ==> final(self).wf(),
    {
        let mut c = clone_config(&self.config);
        c.minimal_mode_bounds = bounds;
        proof {
            assert(c@ =~= (ConfigView { minimal_mode_bounds: bounds, ..old(self).current() }));
        }
        self.update(c);
    }

    /// The window opacity, in thousandths.
    pub fn get_window_opacity(&self) -> (r: u32)
        ensures
            r == self.current().window_opacity_milli,
    {
        self.config.window_opacity_milli
    }

    /// Sets the window opacity, forced into its domain of
    /// [300, 1000] thousandths.
    pub fn set_window_opacity(&mut self, opacity_milli: u32)
        ensures
            final(self).current() == (ConfigView {
                window_opacity_milli: clamp_opacity_milli(opacity_milli as int),
                ..old(self).current()
            }),
            final(self).mirrored() == final(self).current(),
            final(self).pending_save() == old(self).pending_save(),
            final(self).tokens_issued() == old(self).tokens_issued(),
            final(self).path() == old(self).path(),
            old(self).wf() ==> final(self).wf(),
    {
        let mut c = clone_config(&self.config);
        c.window_opacity_milli = crate::window::WindowManager::clamp_opacity(opacity_milli);
        proof {
            assert(c@ =~= (ConfigView {
                window_opacity_milli: c.window_opacity_milli,
                ..old(self).current()
            }));
        }
        self.update(c);
    }

    /// The configuration file's path.
    pub fn config_path(&self) -> (r: &String)
        ensures
            r@ == self.path(),
    {
        &self.config_path
    }
}

/// The abstract value of a note-order map: folder names with their
/// ordered note ids.
pub open spec fn order_view(v: Seq<(String, Vec<String>)>) -> Seq<(Seq<char>, Seq<Seq<char>>)> {
    v.map_values(|p: (String, Vec<String>)| (p.0@, crate::store::ids_view(p.1@)))
}

/// The tail of the note-order text from entry `i` on.
pub open spec fn order_json_from(entries: Seq<(Seq<char>, Seq<Seq<char>>)>, i: int) -> Seq<
    char,
>
    decreases entries.len() - i,
{
    if i < 0 || i >= entries.len() {
        "\n}"@
    } else {
        ",\n  "@ + json_string(entries[i].0) + ": "@ + json_string_array(entries[i].1)
            + order_json_from(entries, i + 1)
    }
}

/// The exact text this crate persists for a note-order map: one JSON
/// object, a folder's id list per key, in the map's own order.
pub open spec fn order_json(entries: Seq<(Seq<char>, Seq<Seq<char>>)>) -> Seq<char> {
    if entries.len() == 0 {
        "{}"@
    } else {
        "{\n  "@ + json_string(entries[0].0) + ": "@ + json_string_array(entries[0].1)
            + order_json_from(entries, 1)
    }
}

/// One folder's entry of the order document, read strictly: its
/// value must be an array holding strings only.
pub open spec fn doc_order_entry(s: Seq<char>, key: Seq<char>) -> Option<Seq<Seq<char>>> {
    match doc_array_len_of(s, key) {
        Some(n) => if forall|i: int|
            0 <= i < n ==> doc_array_string_of(s, key, i) is Some {
            Some(doc_string_items(s, key, n as int))
        } else {
            None
        },
        None => None,
    }
}

/// Whether every top-level entry of the order document reads
/// strictly.
pub open spec fn doc_order_ok(s: Seq<char>, keys: Seq<Seq<char>>) -> bool {
    forall|i: int| 0 <= i < keys.len() ==> doc_order_entry(s, #[trigger] keys[i]) is Some
}

/// The note-order map a document holds, entry by entry, in the
/// document's key order.
pub open spec fn doc_order_model(s: Seq<char>, keys: Seq<Seq<char>>) -> Seq<
    (Seq<char>, Seq<Seq<char>>),
>
    decreases keys.len(),
{
    if keys.len() == 0 {
        Seq::empty()
    } else {
        doc_order_model(s, keys.drop_last()).push(
            (
                keys.last(),
                match doc_order_entry(s, keys.last()) {
                    Some(ids) => ids,
                    None => Seq::empty(),
                },
            ),
        )
    }
}

impl crate::store::FileSystem {
    /// Reads the note-order map from the order file's content
    /// (`None` when the file does not exist, which yields an empty
    /// map). The map is opaque to this layer: ids need not name
    /// existing notes. A parsed object whose every value is an array
    /// of strings reads back exactly; anything else is an error.
    pub fn get_note_order(&self, content: Option<&str>) -> (r: Result<
        Vec<(String, Vec<String>)>,
        String,
    >)
        ensures
            crate::store::view_opt_str(content) is None ==> (r matches Ok(m) && m@.len() == 0),
            crate::store::view_opt_str(content) matches Some(sv) ==> ((!json_parses(sv) ==> r
                is Err) && (json_parses(sv) && doc_keys_of(sv) is None ==> r is Err) && (
            doc_keys_of(sv) matches Some(ks) ==> (json_parses(sv) ==> ((!doc_order_ok(sv, ks)
                ==> r is Err) && (doc_order_ok(sv, ks) ==> (r matches Ok(m) && order_view(m@)
                == doc_order_model(sv, ks))))))),
            r matches Err(e) ==> is_prefix_of("Failed to parse note order file: "@, e@),
    {
        let s = match content {
            None => {
                return Ok(Vec::new());
            },
            Some(s) => s,
        };
        if let Err(e) = json_check(s) {
            return Err(order_parse_error(e.as_str()));
        }
        let keys = match doc_object_keys(s) {
            Some(keys) => keys,
            None => {
                return Err(order_parse_error("expected an object of id arrays"));
            },
        };
        let ghost sv = s@;
        let ghost ks = keys@.map_values(|x: String| x@);
        let mut out: Vec<(String, Vec<String>)> = Vec::new();
        let kn = keys.len();
        let mut i: usize = 0;
        while i < kn
            invariant
                kn == keys@.len(),
                i <= kn,
                s@ == sv,
                crate::store::view_opt_str(content) == Some(sv),
                json_parses(sv),
                ks == keys@.map_values(|x: String| x@),
                doc_keys_of(sv) == Some(ks),
                forall|j: int| 0 <= j < i ==> doc_order_entry(sv, #[trigger] ks[j]) is Some,
                order_view(out@) == doc_order_model(sv, ks.take(i as int)),
            decreases kn - i,
        {
            let key = &keys[i];
            proof {
                assert(ks[i as int] == key@);
            }
            let n = match doc_get_array_len(s, key.as_str()) {
                Some(n) => n,
                None => {
                    proof {
                        assert(doc_order_entry(sv, ks[i as int]) is None);
                        assert(!doc_order_ok(sv, ks));
                    }
                    return Err(order_parse_error("expected an array of ids"));
                },
            };
            let mut ids: Vec<String> = Vec::new();
            let mut j: usize = 0;
            while j < n
                invariant
                    j <= n,
                    s@ == sv,
                    crate::store::view_opt_str(content) == Some(sv),
                    json_parses(sv),
                    doc_keys_of(sv) == Some(ks),
                    i < ks.len(),
                    ks[i as int] == key@,
                    doc_array_len_of(sv, key@) == Some(n),
                    forall|l: int| 0 <= l < j ==> doc_array_string_of(sv, key@, l) is Some,
                    crate::store::ids_view(ids@) == doc_string_items(sv, key@, j as int),
                decreases n - j,
            {
                let ghost old_ids = ids@;
                match doc_get_array_string(s, key.as_str(), j) {
                    Some(id) => {
                        ids.push(id);
                        proof {
                            assert(crate::store::ids_view(ids@) =~= crate::store::ids_view(
                                old_ids,
                            ).push(doc_array_string_of(sv, key@, j as int).unwrap()));
                        }
                    },
                    None => {
                        proof {
                            assert(doc_order_entry(sv, ks[i as int]) is None);
                            assert(!doc_order_ok(sv, ks));
                        }
                        return Err(order_parse_error("expected an id string"));
                    },
                }
                j = j + 1;
            }
            proof {
                assert(doc_order_entry(sv, key@) == Some(
                    doc_string_items(sv, key@, n as int),
                ));
            }
            let ghost old_out = out@;
            out.push((key.clone(), ids));
            proof {
                assert(ks.take(i + 1).drop_last() =~= ks.take(i as int));
                assert(ks.take(i + 1).last() == ks[i as int]);
                assert(order_view(out@) =~= order_view(old_out).push(
                    (key@, crate::store::ids_view(ids@)),
                ));
                assert(order_view(out@) =~= doc_order_model(sv, ks.take(i + 1)));
            }
            i = i + 1;
        }
        proof {
            assert(ks.take(kn as int) =~= ks);
        }
        Ok(out)
    }

    /// Writes the note-order map verbatim as the text [`order_json`]
    /// describes.
    pub fn save_note_order(&self, order: &Vec<(String, Vec<String>)>) -> (r: String)
        ensures
            r@ == order_json(order_view(order@)),
    {
        let ghost ov = order_view(order@);
        let mut out: Vec<char> = Vec::new();
        if order.len() == 0 {
            push_chars(&mut out, "{}");
            proof {
                assert(out@ =~= order_json(ov));
            }
            return chars_to_string(&out);
        }
        push_chars(&mut out, "{\n  ");
        push_json_string(&mut out, order[0].0.as_str());
        push_chars(&mut out, ": ");
        push_json_string_array(&mut out, &order[0].1);
        let n = order.len();
        let mut i: usize = 1;
        proof {
            assert(out@ =~= "{\n  "@ + json_string(ov[0].0) + ": "@ + json_string_array(
                ov[0].1,
            ));
        }
        while i < n
            invariant
                n == order@.len(),
                ov == order_view(order@),
                ov.len() == n,
                1 <= i <= n,
                out@ + order_json_from(ov, i as int) == order_json(ov),
            decreases n - i,
        {
            push_chars(&mut out, ",\n  ");
            push_json_string(&mut out, order[i].0.as_str());
            push_chars(&mut out, ": ");
            push_json_string_array(&mut out, &order[i].1);
            proof {
                assert(out@ + order_json_from(ov, i + 1) =~= order_json(ov));
            }
            i = i + 1;
        }
        push_chars(&mut out, "\n}");
        proof {
            assert(order_json_from(ov, n as int) =~= "\n}"@);
            assert(out@ =~= order_json(ov));
        }
        chars_to_string(&out)
    }

    /// Reads the pinned-note ids out of the configuration file's
    /// content: exactly the string elements of the stored document's
    /// `pinned_notes` array; a missing or unreadable file, or one
    /// without such an array, pins nothing.
    pub fn load_pinned_notes(&self, content: Option<&str>) -> (r: Vec<String>)
        ensures
            crate::store::view_opt_str(content) is None ==> r@.len() == 0,
            crate::store::view_opt_str(content) matches Some(sv) ==> ((!json_parses(sv) ==> r@.len()
                == 0) && (json_parses(sv) ==> crate::store::ids_view(r@) == (
            match doc_pinned_of(sv) {
                Some(ids) => ids,
                None => Seq::<Seq<char>>::empty(),
            }))),
    {
        let s = match content {
            None => {
                return Vec::new();
            },
            Some(s) => s,
        };
        if json_check(s).is_err() {
            return Vec::new();
        }
        match extract_string_list(s, "pinned_notes") {
            Some(list) => list,
            None => {
                let empty: Vec<String> = Vec::new();
                proof {
                    assert(crate::store::ids_view(empty@) =~= Seq::<Seq<char>>::empty());
                }
                empty
            },
        }
    }

    /// Replaces the pinned-note list inside the configuration file's
    /// content and writes the whole record back: the other fields
    /// are exactly the stored document's contribution merged into
    /// the defaults (the full defaults when the file was absent or
    /// unreadable), and the pinned list is exactly the given one.
    pub fn save_pinned_notes(&self, content: Option<&str>, pinned_notes: Vec<String>) -> (r:
        String)
        ensures
            ({
                let base = match crate::store::view_opt_str(content) {
                    None => default_config_view(),
                    Some(sv) => if json_parses(sv) {
                        spec_merge(doc_patch_view(sv))
                    } else {
                        default_config_view()
                    },
                };
                r@ == config_json(
                    ConfigView {
                        pinned_notes: pinned_notes@.map_values(|x: String| x@),
                        ..base
                    },
                )
            }),
    {
        let base = match content {
            None => Config::default(),
            Some(s) => match load_config(Some(s)) {
                Ok(c) => c,
                Err(_) => Config::default(),
            },
        };
        let mut cfg = base;
        cfg.pinned_notes = pinned_notes;
        let text = config_to_json(&cfg);
        proof {
            let goal = match crate::store::view_opt_str(content) {
                None => default_config_view(),
                Some(sv) => if json_parses(sv) {
                    spec_merge(doc_patch_view(sv))
                } else {
                    default_config_view()
                },
            };
            assert(cfg@ =~= (ConfigView {
                pinned_notes: cfg.pinned_notes@.map_values(|x: String| x@),
                ..goal
            }));
        }
        text
    }
}

/// A note-order parse failure, in the words the callers show.
fn order_parse_error(detail: &str) -> (r: String)
    ensures
        is_prefix_of("Failed to parse note order file: "@, r@),
{
    let msg = concat2("Failed to parse note order file: ", detail);
    proof {
        assert(msg@.subrange(0, "Failed to parse note order file: "@.len() as int)
            =~= "Failed to parse note order file: "@);
    }
    msg
}

/// A copy of an optional owned string.
fn clone_opt_string(s: &Option<String>) -> (r: Option<String>)
    ensures
        r == s,
{
    match s {
        Some(x) => Some(x.clone()),
        None => None,
    }
}

/// A copy of a string list.
fn clone_string_vec(v: &Vec<String>) -> (r: Vec<String>)
    ensures
        r@ == v@,
{
    let mut out: Vec<String> = Vec::new();
    let n = v.len();
    let mut i: usize = 0;
    while i < n
        invariant
            n == v@.len(),
            i <= n,
            out@ =~= v@.subrange(0, i as int),
        decreases n - i,
    {
        out.push(v[i].clone());
        proof {
            assert(out@ =~= v@.subrange(0, i + 1));
        }
        i = i + 1;
    }
    proof {
        assert(out@ =~= v@);
    }
    out
}

/// A copy of a configuration, field for field.
fn clone_config(c: &Config) -> (r: Config)
    ensures
        r@ == c@,
{
    let r = Config {
        global_shortcut: c.global_shortcut.clone(),
        clipboard_shortcut: c.clipboard_shortcut.clone(),
        quick_note_shortcut: c.quick_note_shortcut.clone(),
        window_bounds: c.window_bounds,
        last_note_id: clone_opt_string(&c.last_note_id),
        last_folder: clone_opt_string(&c.last_folder),
        pinned_notes: clone_string_vec(&c.pinned_notes),
        minimal_mode_bounds: c.minimal_mode_bounds,
        window_opacity_milli: c.window_opacity_milli,
        auto_start_on_boot: c.auto_start_on_boot,
    };
    proof {
        assert(r@ =~= c@);
    }
    r
}

} // verus!
