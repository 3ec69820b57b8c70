//! Turning a video title into filenames and tags.
//!
//! Everything here is a guess with an override. The inference exists so the
//! common case (`Artist - Album [Full Album]`) needs no flags at all; the
//! overrides exist because the guess is wrong often enough that a tool which
//! could not be corrected would be useless.
use vstd::prelude::*;
use crate::text::{
    all_digits, chars_of, collapse, collapse_from, collapse_whitespace, digits_value, digit_value, is_digit, is_dot_or_ws,
    parse_u32_spec, unsigned_part, trim_end_dots_ws, digit_char, lemma_dec_len, lemma_dec_len_monotone, lemma_collapse_keeps, lemma_collapse_runs,
    lemma_skip_back_last, lemma_skip_front_first, lemma_skip_front_prefix, lemma_utf8_len_is_encoded_len,
    lemma_utf8_len_take, utf8_len, dec, dec_chars, dot_ws_pred, find, find_first,
    find_last, fit_count, fitting_chars, is_cc, is_control, is_whitespace, is_ws,
    lemma_find_from_found, lemma_fit_count, occurs_at, lemma_rfind_below_found, rfind_below, lemma_skip_back_prefix, lowercase, opt_chars, owned,
    push_all, push_str, rfind, skip_back, skip_front, slice, spells, string_of, to_lowercase,
    trim, trim_dots_ws, trim_end, trim_end_ws, trim_ws, ws_pred,
};

verus! {

/// A filename long enough to survive HFS+/APFS (255 bytes) with room for the
/// numeric prefix and extension. Multi-byte titles make this a byte budget,
/// not a character count.
pub const MAX_STEM_BYTES: usize = 180;

// ---------------------------------------------------------------------------
// File name stems
// ---------------------------------------------------------------------------

/// Characters that cannot appear in a path component on the platforms this
/// targets. `/` is the POSIX separator and `:` is the classic-Mac separator
/// that Finder still displays as `/`.
pub open spec fn is_unsafe_in_filename(c: char) -> bool {
    c == '/' || c == '\\' || c == ':'
}

/// Whitespace is normalised to a space, not replaced: a tab in a title means a
/// space. Unsafe and control characters become `-`.
pub open spec fn sanitize_char(c: char) -> char {
    if is_ws(c) {
        ' '
    } else if is_unsafe_in_filename(c) || is_cc(c) {
        '-'
    } else {
        c
    }
}

pub open spec fn sanitize(s: Seq<char>) -> Seq<char> {
    s.map_values(|c: char| sanitize_char(c))
}

/// `s` cut to at most `max` UTF-8 bytes without splitting a character; a
/// string that had to be cut also loses its trailing whitespace.
pub open spec fn truncated(s: Seq<char>, max: nat) -> Seq<char> {
    let k = fit_count(s, max as int);
    if k == s.len() {
        s
    } else {
        trim_end(s.take(k as int))
    }
}

/// The file name stem `safe_stem` makes of a title.
pub open spec fn stem_of(title: Seq<char>) -> Seq<char> {
    let cleaned = skip_back(
        skip_front(collapse(sanitize(title)), dot_ws_pred()),
        dot_ws_pred(),
    );
    let t = skip_back(truncated(cleaned, MAX_STEM_BYTES as nat), dot_ws_pred());
    if t.len() == 0 {
        "untitled"@
    } else {
        t
    }
}

fn sanitize_exec(c: char) -> (r: char)
    ensures
        r == sanitize_char(c),
{
    if is_whitespace(c) {
        ' '
    } else if c == '/' || c == '\\' || c == ':' || is_control(c) {
        '-'
    } else {
        c
    }
}

/// Truncate to a byte budget without splitting a UTF-8 character.
pub fn truncate_bytes(s: &mut String, max: usize)
    ensures
        final(s)@ == truncated(old(s)@, max as nat),
{
    let v = chars_of(s.as_str());
    let k = fitting_chars(&v, max);
    proof {
        lemma_fit_count(v@, max as int);
    }
    if k == v.len() {
        return;
    }
    let kept = slice(&v, 0, k);
    let trimmed = trim_end_ws(&kept);
    *s = string_of(&trimmed);
}

/// Make a chapter title safe to use as a filename stem.
///
/// Returns `None`-ish behaviour via a placeholder rather than failing: a
/// chapter titled `"/"` is odd but not a reason to abandon a 23-track rip.
pub fn safe_stem(title: &str) -> (r: String)
    ensures
        r@ == stem_of(title@),
{
    let v = chars_of(title);
    let mut mapped: Vec<char> = Vec::new();
    let mut i: usize = 0;
    while i < v.len()
        invariant
            i <= v.len(),
            mapped@ == sanitize(v@.take(i as int)),
        decreases v.len() - i,
    {
        mapped.push(sanitize_exec(v[i]));
        assert(sanitize(v@.take(i + 1)) =~= sanitize(v@.take(i as int)).push(
            sanitize_char(v@[i as int]),
        ));
        i = i + 1;
    }
    assert(v@.take(v.len() as int) =~= v@);
    let collapsed = collapse_whitespace(&mapped);
    // A leading dot hides the file on Unix; a trailing dot or space is
    // silently dropped by some filesystems, which breaks later lookups.
    let cleaned = trim_dots_ws(&collapsed);
    let mut s = string_of(&cleaned);
    truncate_bytes(&mut s, MAX_STEM_BYTES);
    // The cut can leave a dot at the end again.
    let tidy = trim_end_dots_ws(&chars_of(s.as_str()));
    if tidy.len() == 0 {
        owned("untitled")
    } else {
        string_of(&tidy)
    }
}

/// A character that may stand in a file name stem: no path separator and no
/// control code.
pub open spec fn filename_safe(c: char) -> bool {
    !is_unsafe_in_filename(c) && !is_cc(c)
}

/// Whatever the title, `safe_stem` gives a usable file name: never empty,
/// with no path separators or control codes, whitespace only as single
/// spaces, not hidden (no leading dot), not starting or ending in
/// whitespace, not ending in a dot, and within the byte budget.
pub proof fn law_safe_stem_is_a_usable_filename(title: Seq<char>)
    ensures
        stem_of(title).len() > 0,
        forall|i: int| 0 <= i < stem_of(title).len() ==> filename_safe(#[trigger] stem_of(title)[i]),
        forall|i: int|
            0 <= i < stem_of(title).len() && is_ws(#[trigger] stem_of(title)[i]) ==> stem_of(
                title,
            )[i] == ' ',
        forall|i: int|
            0 <= i < stem_of(title).len() - 1 ==> !(is_ws(#[trigger] stem_of(title)[i]) && is_ws(
                stem_of(title)[i + 1],
            )),
        stem_of(title)[0] != '.' && !is_ws(stem_of(title)[0]),
        !is_ws(stem_of(title).last()),
        stem_of(title).last() != '.',
        utf8_len(stem_of(title)) <= MAX_STEM_BYTES,
        vstd::utf8::encode_utf8(stem_of(title)).len() <= MAX_STEM_BYTES,
{
    let m = sanitize(title);
    assert forall|i: int| 0 <= i < m.len() implies filename_safe(#[trigger] m[i]) by {
        assert(m[i] == sanitize_char(title[i]));
    }
    let safe = |c: char| filename_safe(c);
    assert forall|i: int| 0 <= i < m.len() implies safe(#[trigger] m[i]) by {
        assert(filename_safe(m[i]));
    }
    let c = collapse(m);
    lemma_collapse_keeps(m, false, safe);
    lemma_collapse_runs(m, false);
    let f = skip_front(c, dot_ws_pred());
    lemma_skip_front_prefix(c, dot_ws_pred());
    lemma_skip_front_first(c, dot_ws_pred());
    let k1 = choose|k: int| 0 <= k <= c.len() && f == c.skip(k);
    let cl = skip_back(f, dot_ws_pred());
    lemma_skip_back_prefix(f, dot_ws_pred());
    lemma_skip_back_last(f, dot_ws_pred());
    let k2 = choose|k: int| 0 <= k <= f.len() && cl == f.take(k);
    assert forall|i: int| 0 <= i < cl.len() implies filename_safe(#[trigger] cl[i]) && (is_ws(cl[i])
        ==> cl[i] == ' ') by {
        assert(cl[i] == c[i + k1]);
        assert(safe(c[i + k1]));
    }
    assert forall|i: int| 0 <= i < cl.len() - 1 implies !(is_ws(#[trigger] cl[i]) && is_ws(
        cl[i + 1],
    )) by {
        assert(cl[i] == c[i + k1]);
        assert(cl[i + 1] == c[i + 1 + k1]);
    }
    let k = fit_count(cl, MAX_STEM_BYTES as int);
    lemma_fit_count(cl, MAX_STEM_BYTES as int);
    let t = truncated(cl, MAX_STEM_BYTES as nat);
    if k == cl.len() {
        assert(t == cl);
    } else {
        let head = cl.take(k as int);
        lemma_skip_back_prefix(head, ws_pred());
        lemma_skip_back_last(head, ws_pred());
        let k3 = choose|j: int| 0 <= j <= head.len() && t == head.take(j);
        assert forall|i: int| 0 <= i < t.len() implies t[i] == cl[i] by {}
        lemma_utf8_len_take(head, k3);
    }
    let t2 = skip_back(t, dot_ws_pred());
    lemma_skip_back_prefix(t, dot_ws_pred());
    lemma_skip_back_last(t, dot_ws_pred());
    let k4 = choose|j: int| 0 <= j <= t.len() && t2 == t.take(j);
    lemma_utf8_len_take(t, k4);
    assert forall|i: int| 0 <= i < t2.len() implies t2[i] == t[i] by {}
    if t2.len() == 0 {
        reveal_strlit("untitled");
        assert(stem_of(title) == "untitled"@);
        reveal_with_fuel(utf8_len, 9);
        assert(utf8_len("untitled"@) == 8);
    } else {
        assert(stem_of(title) == t2);
        assert(!is_dot_or_ws(t2.last()));
    }
    lemma_utf8_len_is_encoded_len(stem_of(title));
}

/// Only whitespace, path separators and control codes are touched: every
/// other character, whatever its plane (emoji, accented or CJK letters,
/// apostrophes, ampersands), is kept as it is; whitespace becomes a space;
/// the rest becomes `-`.
pub proof fn law_safe_characters_are_kept(c: char)
    ensures
        c != '/' && c != '\\' && c != ':' && !is_cc(c) && !is_ws(c) ==> sanitize_char(c) == c,
        is_ws(c) ==> sanitize_char(c) == ' ',
        (c == '/' || c == '\\' || c == ':' || is_cc(c)) && !is_ws(c) ==> sanitize_char(c) == '-',
{
}

proof fn lemma_collapse_keeps_tidy(s: Seq<char>, in_space: bool)
    requires
        forall|i: int| 0 <= i < s.len() && is_ws(#[trigger] s[i]) ==> s[i] == ' ',
        forall|i: int| 0 <= i < s.len() - 1 ==> !(is_ws(#[trigger] s[i]) && is_ws(s[i + 1])),
        in_space && s.len() > 0 ==> !is_ws(s[0]),
    ensures
        collapse_from(s, in_space) == s,
    decreases s.len(),
{
    if s.len() > 0 {
        let rest = s.drop_first();
        assert forall|i: int| 0 <= i < rest.len() - 1 implies !(is_ws(#[trigger] rest[i]) && is_ws(
            rest[i + 1],
        )) by {
            assert(rest[i] == s[i + 1]);
            assert(rest[i + 1] == s[i + 2]);
        }
        assert forall|i: int| 0 <= i < rest.len() && is_ws(#[trigger] rest[i]) implies rest[i] == ' ' by {
            assert(rest[i] == s[i + 1]);
        }
        if is_ws(s[0]) {
            if s.len() > 1 {
                assert(!is_ws(s[1]));
            }
            lemma_collapse_keeps_tidy(rest, true);
        } else {
            lemma_collapse_keeps_tidy(rest, false);
        }
        assert(collapse_from(s, in_space) =~= s);
    }
}

/// A title that is already a clean file name is its own stem: no separators
/// or control codes, whitespace only as single spaces, no dot or whitespace
/// at either end, and within the byte budget.
pub proof fn law_a_clean_title_is_its_own_stem(t: Seq<char>)
    requires
        t.len() > 0,
        forall|i: int| 0 <= i < t.len() ==> filename_safe(#[trigger] t[i]),
        forall|i: int| 0 <= i < t.len() && is_ws(#[trigger] t[i]) ==> t[i] == ' ',
        forall|i: int| 0 <= i < t.len() - 1 ==> !(is_ws(#[trigger] t[i]) && is_ws(t[i + 1])),
        !is_dot_or_ws(t[0]),
        !is_dot_or_ws(t.last()),
        utf8_len(t) <= MAX_STEM_BYTES,
    ensures
        stem_of(t) == t,
{
    assert(sanitize(t) =~= t) by {
        assert forall|i: int| 0 <= i < t.len() implies #[trigger] sanitize(t)[i] == t[i] by {
            assert(sanitize(t)[i] == sanitize_char(t[i]));
        }
    }
    lemma_collapse_keeps_tidy(t, false);
    assert(collapse(t) == t);
    assert(skip_front(t, dot_ws_pred()) == t);
    assert(skip_back(t, dot_ws_pred()) == t);
    lemma_fit_count(t, MAX_STEM_BYTES as int);
    assert(truncated(t, MAX_STEM_BYTES as nat) == t);
}

// ---------------------------------------------------------------------------
// Track numbers and file names
// ---------------------------------------------------------------------------

/// `n` copies of `'0'`.
pub open spec fn zeros(n: nat) -> Seq<char> {
    Seq::new(n, |i: int| '0')
}

/// `s` padded on the left with zeros to `width` characters, as `{:0width$}` does.
pub open spec fn zero_pad(s: Seq<char>, width: nat) -> Seq<char> {
    if s.len() >= width {
        s
    } else {
        zeros((width - s.len()) as nat) + s
    }
}

/// The digit count of `total`, but never less than two.
pub open spec fn prefix_width(total: nat) -> nat {
    if dec(total).len() < 2 {
        2
    } else {
        dec(total).len()
    }
}

/// The zero-padded track number for `index` out of `total`.
pub open spec fn prefix_of(index: nat, total: nat) -> Seq<char> {
    zero_pad(dec(index), prefix_width(total))
}

/// `"01"`, `"07"`, `"12"` — width follows the total so a 100-track rip still
/// sorts lexicographically.
pub fn track_prefix(index: usize, total: usize) -> (r: String)
    ensures
        r@ == prefix_of(index as nat, total as nat),
{
    let total_digits = dec_chars(total as u64);
    let width: usize = if total_digits.len() < 2 {
        2
    } else {
        total_digits.len()
    };
    let digits = dec_chars(index as u64);
    let mut out: Vec<char> = Vec::new();
    if digits.len() < width {
        let pad = width - digits.len();
        let mut i: usize = 0;
        while i < pad
            invariant
                i <= pad,
                out@ == zeros(i as nat),
            decreases pad - i,
        {
            out.push('0');
            assert(out@ =~= zeros((i + 1) as nat));
            i = i + 1;
        }
    }
    push_all(&mut out, &digits);
    assert(out@ =~= prefix_of(index as nat, total as nat));
    string_of(&out)
}

/// `a` sorts before `b` character by character.
pub open spec fn sorts_before(a: Seq<char>, b: Seq<char>) -> bool {
    ||| exists|k: int| 0 <= k < a.len() && k < b.len() && a.take(k) == b.take(k) && a[k] < b[k]
    ||| a.len() < b.len() && a == b.take(a.len() as int)
}

/// Nothing sorts before itself.
pub proof fn lemma_sorts_before_irreflexive(a: Seq<char>)
    ensures
        !sorts_before(a, a),
{
}

/// Sorting character by character is transitive.
pub proof fn lemma_sorts_before_transitive(a: Seq<char>, b: Seq<char>, c: Seq<char>)
    requires
        sorts_before(a, b),
        sorts_before(b, c),
    ensures
        sorts_before(a, c),
{
    if exists|k: int| 0 <= k < a.len() && k < b.len() && a.take(k) == b.take(k) && a[k] < b[k] {
        let k1 = choose|k: int| 0 <= k < a.len() && k < b.len() && a.take(k) == b.take(k) && a[k] < b[k];
        if exists|k: int| 0 <= k < b.len() && k < c.len() && b.take(k) == c.take(k) && b[k] < c[k] {
            let k2 = choose|k: int|
                0 <= k < b.len() && k < c.len() && b.take(k) == c.take(k) && b[k] < c[k];
            let k = if k1 <= k2 {
                k1
            } else {
                k2
            };
            assert(a.take(k) =~= c.take(k)) by {
                assert forall|j: int| 0 <= j < k implies a[j] == c[j] by {
                    assert(a.take(k1)[j] == b.take(k1)[j]);
                    assert(b.take(k2)[j] == c.take(k2)[j]);
                }
            }
            if k1 < k2 {
                assert(b.take(k2)[k1] == c.take(k2)[k1]);
            } else if k2 < k1 {
                assert(a.take(k1)[k2] == b.take(k1)[k2]);
            }
            assert(a[k] < c[k]);
        } else {
            // b is a proper prefix of c, so c agrees with b where a differs.
            assert(b == c.take(b.len() as int));
            assert(c[k1] == b[k1]);
            assert(a.take(k1) =~= c.take(k1)) by {
                assert forall|j: int| 0 <= j < k1 implies a[j] == c[j] by {
                    assert(a.take(k1)[j] == b.take(k1)[j]);
                }
            }
        }
    } else {
        // a is a proper prefix of b.
        assert(a == b.take(a.len() as int));
        if exists|k: int| 0 <= k < b.len() && k < c.len() && b.take(k) == c.take(k) && b[k] < c[k] {
            let k2 = choose|k: int|
                0 <= k < b.len() && k < c.len() && b.take(k) == c.take(k) && b[k] < c[k];
            if k2 < a.len() {
                assert(a[k2] == b[k2]);
                assert(a.take(k2) =~= c.take(k2)) by {
                    assert forall|j: int| 0 <= j < k2 implies a[j] == c[j] by {
                        assert(a[j] == b[j]);
                        assert(b.take(k2)[j] == c.take(k2)[j]);
                    }
                }
            } else {
                assert(a =~= c.take(a.len() as int)) by {
                    assert forall|j: int| 0 <= j < a.len() implies a[j] == c[j] by {
                        assert(a[j] == b[j]);
                        assert(b.take(k2)[j] == c.take(k2)[j]);
                    }
                }
            }
        } else {
            assert(b == c.take(b.len() as int));
            assert(a =~= c.take(a.len() as int)) by {
                assert forall|j: int| 0 <= j < a.len() implies a[j] == c[j] by {
                    assert(a[j] == b[j]);
                    assert(b[j] == c[j]);
                }
            }
        }
    }
}

/// The last `w` decimal digits of `n`, most significant first.
pub open spec fn fixed_digits(n: nat, w: nat) -> Seq<char>
    decreases w,
{
    if w == 0 {
        Seq::empty()
    } else {
        fixed_digits(n / 10, (w - 1) as nat).push(digit_char(n % 10))
    }
}

proof fn lemma_digit_char_code(d: nat)
    requires
        d < 10,
    ensures
        digit_char(d) as u32 == 48 + d,
{
}

proof fn lemma_fixed_digits_zero(w: nat)
    ensures
        fixed_digits(0, w) == zeros(w),
    decreases w,
{
    if w > 0 {
        lemma_fixed_digits_zero((w - 1) as nat);
        assert(fixed_digits(0, w) =~= zeros(w));
    }
}

proof fn lemma_fixed_digits_len(n: nat, w: nat)
    ensures
        fixed_digits(n, w).len() == w,
    decreases w,
{
    if w > 0 {
        lemma_fixed_digits_len(n / 10, (w - 1) as nat);
    }
}

/// Zero padding a number that fits the width gives its last `w` digits.
proof fn lemma_zero_pad_is_fixed_digits(n: nat, w: nat)
    requires
        dec(n).len() <= w,
    ensures
        zero_pad(dec(n), w) == fixed_digits(n, w),
    decreases n,
{
    if n < 10 {
        lemma_fixed_digits_zero((w - 1) as nat);
        assert(zero_pad(dec(n), w) =~= fixed_digits(n, w));
    } else {
        lemma_zero_pad_is_fixed_digits(n / 10, (w - 1) as nat);
        assert(zero_pad(dec(n), w) =~= fixed_digits(n, w));
    }
}

/// Among numbers that fit in `w` digits, the smaller one's digits sort first.
proof fn lemma_fixed_digits_sort(a: nat, b: nat, w: nat)
    requires
        a < b,
        dec(b).len() <= w,
    ensures
        exists|k: int|
            0 <= k < w && fixed_digits(a, w).take(k) == fixed_digits(b, w).take(k) && fixed_digits(
                a,
                w,
            )[k] < fixed_digits(b, w)[k],
    decreases w,
{
    lemma_dec_len(b);
    let pa = fixed_digits(a / 10, (w - 1) as nat);
    let pb = fixed_digits(b / 10, (w - 1) as nat);
    lemma_fixed_digits_len(a / 10, (w - 1) as nat);
    lemma_fixed_digits_len(b / 10, (w - 1) as nat);
    let fa = fixed_digits(a, w);
    let fb = fixed_digits(b, w);
    if a / 10 == b / 10 {
        lemma_digit_char_code(a % 10);
        lemma_digit_char_code(b % 10);
        let k = (w - 1) as int;
        assert(fa.take(k) =~= pa);
        assert(fb.take(k) =~= pb);
        assert(fa[k] < fb[k]);
    } else {
        assert(b >= 10);
        lemma_fixed_digits_sort(a / 10, b / 10, (w - 1) as nat);
        let k = choose|k: int|
            0 <= k < w - 1 && pa.take(k) == pb.take(k) && pa[k] < pb[k];
        assert(fa.take(k) =~= pa.take(k));
        assert(fb.take(k) =~= pb.take(k));
        assert(fa[k] == pa[k]);
        assert(fb[k] == pb[k]);
    }
}

/// Track prefixes all have the width of the total, so that a listing sorted
/// by name is sorted by track number, even past a hundred tracks.
pub proof fn law_track_prefixes_sort_in_track_order(i: nat, j: nat, total: nat)
    requires
        i < j <= total,
    ensures
        prefix_of(i, total).len() == prefix_width(total),
        prefix_of(j, total).len() == prefix_width(total),
        sorts_before(prefix_of(i, total), prefix_of(j, total)),
{
    let w = prefix_width(total);
    lemma_dec_len_monotone(i, total);
    lemma_dec_len_monotone(j, total);
    lemma_zero_pad_is_fixed_digits(i, w);
    lemma_zero_pad_is_fixed_digits(j, w);
    lemma_fixed_digits_len(i, w);
    lemma_fixed_digits_len(j, w);
    lemma_fixed_digits_sort(i, j, w);
}

pub proof fn lemma_dec_reads_back(n: nat)
    ensures
        all_digits(dec(n)),
        digits_value(dec(n)) == n,
    decreases n,
{
    if n < 10 {
        lemma_digit_char_code(n);
        assert(dec(n).drop_last() =~= Seq::<char>::empty());
        assert(digit_value(dec(n).last()) == n);
        assert(digits_value(Seq::<char>::empty()) == 0);
        assert(digits_value(dec(n)) == digits_value(dec(n).drop_last()) * 10 + digit_value(
            dec(n).last(),
        ));
    } else {
        lemma_dec_reads_back(n / 10);
        lemma_digit_char_code(n % 10);
        assert(dec(n).drop_last() =~= dec(n / 10));
        assert(digit_value(dec(n).last()) == n % 10);
        assert(n == (n / 10) * 10 + n % 10);
        assert(digits_value(dec(n)) == digits_value(dec(n).drop_last()) * 10 + digit_value(
            dec(n).last(),
        ));
        assert forall|i: int| 0 <= i < dec(n).len() implies is_digit(#[trigger] dec(n)[i]) by {
            if i < dec(n).len() - 1 {
                assert(dec(n)[i] == dec(n / 10)[i]);
            }
        }
    }
}

proof fn lemma_zeros_read_as_zero(k: nat)
    ensures
        all_digits(zeros(k)),
        digits_value(zeros(k)) == 0,
    decreases k,
{
    if k > 0 {
        lemma_zeros_read_as_zero((k - 1) as nat);
        assert(zeros(k).drop_last() =~= zeros((k - 1) as nat));
    }
}

pub proof fn lemma_leading_zeros_read_as_nothing(k: nat, s: Seq<char>)
    requires
        all_digits(s),
    ensures
        all_digits(zeros(k) + s),
        digits_value(zeros(k) + s) == digits_value(s),
    decreases s.len(),
{
    lemma_zeros_read_as_zero(k);
    if s.len() == 0 {
        assert(zeros(k) + s =~= zeros(k));
    } else {
        lemma_leading_zeros_read_as_nothing(k, s.drop_last());
        assert((zeros(k) + s).drop_last() =~= zeros(k) + s.drop_last());
        assert((zeros(k) + s).last() == s.last());
    }
    assert forall|i: int| 0 <= i < (zeros(k) + s).len() implies is_digit(#[trigger] (zeros(k) + s)[i]) by {
        if i >= k {
            assert((zeros(k) + s)[i] == s[i - k]);
        }
    }
}

/// A track prefix is all decimal digits and reads back as the track number,
/// so `str::parse` gives the number again; it is never narrower than the
/// total's width, and exactly that wide for a number up to the total.
pub proof fn law_track_prefix_reads_back(i: nat, total: nat)
    ensures
        all_digits(prefix_of(i, total)),
        digits_value(prefix_of(i, total)) == i,
        i <= u32::MAX ==> parse_u32_spec(prefix_of(i, total)) == Some(i as u32),
        prefix_of(i, total).len() >= prefix_width(total),
        i <= total ==> prefix_of(i, total).len() == prefix_width(total),
{
    let w = prefix_width(total);
    lemma_dec_reads_back(i);
    if dec(i).len() < w {
        lemma_leading_zeros_read_as_nothing((w - dec(i).len()) as nat, dec(i));
    }
    let p = prefix_of(i, total);
    lemma_dec_len(i);
    assert(p.len() > 0);
    assert(is_digit(p[0]));
    assert(unsigned_part(p) == p);
    if i <= total {
        lemma_dec_len_monotone(i, total);
    }
}

/// The file name of a track: prefix, stem and extension.
pub open spec fn track_filename_of(
    index: nat,
    total: nat,
    title: Seq<char>,
    extension: Seq<char>,
) -> Seq<char> {
    prefix_of(index, total) + " - "@ + stem_of(title) + "."@ + extension
}

/// The full filename for a track, e.g. `"03 - Slow Ascent.m4a"`.
pub fn track_filename(index: usize, total: usize, title: &str, extension: &str) -> (r: String)
    ensures
        r@ == track_filename_of(index as nat, total as nat, title@, extension@),
{
    let prefix = track_prefix(index, total);
    let stem = safe_stem(title);
    let mut out = chars_of(prefix.as_str());
    push_str(&mut out, " - ");
    push_str(&mut out, stem.as_str());
    push_str(&mut out, ".");
    push_str(&mut out, extension);
    string_of(&out)
}

// ---------------------------------------------------------------------------
// Noise tags
// ---------------------------------------------------------------------------

/// Bracketed noise that uploaders append to titles, compared with the
/// lower-cased, trimmed *contents* of a trailing `[...]` or `(...)` group.
pub open spec fn is_noise(t: Seq<char>) -> bool {
    ||| t == "full album"@
    ||| t == "full show"@
    ||| t == "full concert"@
    ||| t == "full set"@
    ||| t == "official video"@
    ||| t == "official audio"@
    ||| t == "official music video"@
    ||| t == "hd"@
    ||| t == "hq"@
    ||| t == "4k"@
    ||| t == "1080p"@
    ||| t == "720p"@
    ||| t == "remastered"@
    ||| t == "audio only"@
    ||| t == "lyrics"@
    ||| t == "visualizer"@
}

/// Whether the lower-cased contents of a bracket group are known noise.
pub fn is_noise_tag(lowered: &str) -> (r: bool)
    ensures
        r == is_noise(lowered@),
{
    let v = chars_of(lowered);
    spells(&v, "full album") || spells(&v, "full show") || spells(&v, "full concert") || spells(
        &v,
        "full set",
    ) || spells(&v, "official video") || spells(&v, "official audio") || spells(
        &v,
        "official music video",
    ) || spells(&v, "hd") || spells(&v, "hq") || spells(&v, "4k") || spells(&v, "1080p")
        || spells(&v, "720p") || spells(&v, "remastered") || spells(&v, "audio only") || spells(
        &v,
        "lyrics",
    ) || spells(&v, "visualizer")
}

/// The opening bracket that matches a closing one.
pub open spec fn opener(close: char) -> char {
    if close == ']' {
        '['
    } else {
        '('
    }
}

/// What removing one trailing noise group from `s` leaves, if `s` ends in one.
pub open spec fn strip_one_spec(s: Seq<char>) -> Option<Seq<char>> {
    let t = trim_end(s);
    if t.len() == 0 || (t.last() != ']' && t.last() != ')') {
        None
    } else {
        match find_last(t, seq![opener(t.last())]) {
            None => None,
            Some(o) => {
                let inner = t.subrange(o + 1 as int, t.len() - 1);
                if is_noise(lowercase(trim(inner))) {
                    Some(t.take(o as int))
                } else {
                    None
                }
            },
        }
    }
}

/// `s` with trailing noise groups removed one after another.
pub open spec fn strip_all(s: Seq<char>) -> Seq<char>
    decreases s.len(),
{
    match strip_one_spec(s) {
        Some(t) => if t.len() < s.len() {
            strip_all(t)
        } else {
            s
        },
        None => s,
    }
}

/// The title with its trailing noise groups gone and whitespace tidied.
pub open spec fn strip_noise_spec(title: Seq<char>) -> Seq<char> {
    trim(collapse(strip_all(trim(title))))
}

proof fn lemma_trim_end_shorter(s: Seq<char>)
    ensures
        exists|k: int| 0 <= k <= s.len() && trim_end(s) == s.take(k),
{
    lemma_skip_back_prefix(s, ws_pred());
}

pub proof fn lemma_strip_one_shorter(s: Seq<char>)
    ensures
        strip_one_spec(s) matches Some(t) ==> t.len() < s.len(),
{
    lemma_trim_end_shorter(s);
    let t = trim_end(s);
    if t.len() > 0 && (t.last() == ']' || t.last() == ')') {
        let pat = seq![opener(t.last())];
        lemma_rfind_below_found(t, pat, t.len());
    }
}

proof fn lemma_rfind_below_is(s: Seq<char>, pat: Seq<char>, n: nat, k: nat)
    requires
        k < n,
        occurs_at(s, pat, k as int),
        forall|j: int| k < j < n ==> !occurs_at(s, pat, j),
    ensures
        rfind_below(s, pat, n) == Some(k),
    decreases n,
{
    if n - 1 != k {
        lemma_rfind_below_is(s, pat, (n - 1) as nat, k);
    }
}

/// Every tag of the documented noise list is removed from the end of a title
/// when it stands alone in a trailing `[...]` or `(...)` group, whatever its
/// case and surrounding spaces: the group's contents, lower-cased and
/// trimmed, are one of `full album`, `full show`, `full concert`, `full set`,
/// `official video`, `official audio`, `official music video`, `hd`, `hq`,
/// `4k`, `1080p`, `720p`, `remastered`, `audio only`, `lyrics`, `visualizer`.
/// What comes before the group is kept as it is.
pub proof fn law_documented_noise_is_stripped(s: Seq<char>, inner: Seq<char>, square: bool)
    requires
        forall|i: int| 0 <= i < inner.len() ==> #[trigger] inner[i] != (if square {
            '['
        } else {
            '('
        }),
        ({
            let t = lowercase(trim(inner));
            ||| t == "full album"@
            ||| t == "full show"@
            ||| t == "full concert"@
            ||| t == "full set"@
            ||| t == "official video"@
            ||| t == "official audio"@
            ||| t == "official music video"@
            ||| t == "hd"@
            ||| t == "hq"@
            ||| t == "4k"@
            ||| t == "1080p"@
            ||| t == "720p"@
            ||| t == "remastered"@
            ||| t == "audio only"@
            ||| t == "lyrics"@
            ||| t == "visualizer"@
        }),
    ensures
        strip_one_spec(
            s + seq![
                if square {
                    '['
                } else {
                    '('
                },
            ] + inner + seq![
                if square {
                    ']'
                } else {
                    ')'
                },
            ],
        ) == Some(s),
{
    let open = if square {
        '['
    } else {
        '('
    };
    let close = if square {
        ']'
    } else {
        ')'
    };
    let g = s + seq![open] + inner + seq![close];
    assert(g.last() == close);
    assert(!is_ws(close));
    assert(trim_end(g) == g);
    assert(opener(g.last()) == open);
    let pat = seq![open];
    let k = s.len();
    assert(g.subrange(k as int, k + 1int) =~= pat);
    assert forall|j: int| k < j < g.len() implies !occurs_at(g, pat, j) by {
        if occurs_at(g, pat, j) {
            assert(g.subrange(j, j + 1)[0] == g[j]);
            if j < g.len() - 1 {
                assert(g[j] == inner[j - k - 1]);
            }
        }
    }
    lemma_rfind_below_is(g, pat, g.len(), k);
    assert(g.subrange(k + 1int, g.len() - 1int) =~= inner);
    assert(g.take(k as int) =~= s);
}

fn strip_one_chars(v: &Vec<char>) -> (r: Option<Vec<char>>)
    ensures
        r matches Some(t) ==> strip_one_spec(v@) == Some(t@),
        r is None ==> strip_one_spec(v@) is None,
{
    let t = trim_end_ws(v);
    if t.len() == 0 {
        return None;
    }
    let close = t[t.len() - 1];
    if close != ']' && close != ')' {
        return None;
    }
    let open = if close == ']' {
        '['
    } else {
        '('
    };
    let mut pat: Vec<char> = Vec::new();
    pat.push(open);
    assert(pat@ =~= seq![opener(t@.last())]);
    match rfind(&t, &pat) {
        None => None,
        Some(o) => {
            proof {
                lemma_rfind_below_found(t@, pat@, t@.len());
                assert(t@.subrange(o as int, o + 1)[0] == t@[o as int]);
            }
            let inner = slice(&t, o + 1, t.len() - 1);
            let inner_trimmed = trim_ws(&inner);
            let lowered = to_lowercase(string_of(&inner_trimmed).as_str());
            if is_noise_tag(lowered.as_str()) {
                Some(slice(&t, 0, o))
            } else {
                None
            }
        },
    }
}

fn strip_one_trailing_group(s: &str) -> (r: Option<String>)
    ensures
        r matches Some(t) ==> strip_one_spec(s@) == Some(t@),
        r is None ==> strip_one_spec(s@) is None,
{
    let v = chars_of(s);
    match strip_one_chars(&v) {
        Some(t) => Some(string_of(&t)),
        None => None,
    }
}

/// Remove trailing `[...]`/`(...)` groups whose contents are known noise.
///
/// Only *known* noise is removed. `(Live)` and `(Deluxe Edition)` are part of
/// an album's identity, so an allowlist beats a blanket "strip all brackets".
pub fn strip_noise_tags(title: &str) -> (r: String)
    ensures
        r@ == strip_noise_spec(title@),
{
    let v = chars_of(title);
    let mut s = string_of(&trim_ws(&v));
    let ghost start = s@;
    // Uploaders stack these — `[Full Show] (HD) [4K]` is one title, three tags.
    loop
        invariant
            strip_all(start) == strip_all(s@),
        ensures
            strip_all(start) == s@,
        decreases s@.len(),
    {
        match strip_one_trailing_group(s.as_str()) {
            Some(t) => {
                proof {
                    lemma_strip_one_shorter(s@);
                }
                s = t;
            },
            None => {
                assert(strip_all(s@) == s@);
                break ;
            },
        }
    }
    let collapsed = collapse_whitespace(&chars_of(s.as_str()));
    let tidy = trim_ws(&collapsed);
    string_of(&tidy)
}

// ---------------------------------------------------------------------------
// Artist and album
// ---------------------------------------------------------------------------

/// Artist and album guessed from a video title.
#[derive(Debug, Clone, PartialEq, Eq)]
pub struct InferredTags {
    pub artist: Option<String>,
    pub album: String,
}

/// The artist and album inferred from a title: split on the first ` - ` of
/// the cleaned title, unless that leaves either side empty.
pub open spec fn infer_spec(title: Seq<char>) -> (Option<Seq<char>>, Seq<char>) {
    let cleaned = strip_noise_spec(title);
    match find_first(cleaned, " - "@) {
        Some(i) => {
            let artist = trim(cleaned.take(i as int));
            let album = trim(cleaned.skip(i + 3 as int));
            if artist.len() == 0 || album.len() == 0 {
                (None, cleaned)
            } else {
                (Some(artist), album)
            }
        },
        None => (None, cleaned),
    }
}

/// Split `Artist - Album` out of a video title, dropping uploader noise.
///
/// Splits on the **first** ` - `, because album titles contain dashes far more
/// often than artist names do.
pub fn infer_tags(video_title: &str) -> (r: InferredTags)
    ensures
        (opt_chars(r.artist), r.album@) == infer_spec(video_title@),
{
    let cleaned_s = strip_noise_tags(video_title);
    let cleaned = chars_of(cleaned_s.as_str());
    let sep = chars_of(" - ");
    proof {
        reveal_strlit(" - ");
    }
    match find(&cleaned, &sep) {
        Some(i) => {
            proof {
                lemma_find_from_found(cleaned@, sep@, 0);
            }
            let before = slice(&cleaned, 0, i);
            let after = slice(&cleaned, i + 3, cleaned.len());
            assert(before@ =~= cleaned@.take(i as int));
            assert(after@ =~= cleaned@.skip(i + 3));
            let artist = trim_ws(&before);
            let album = trim_ws(&after);
            // A split that leaves either side empty is not a real split.
            if artist.len() == 0 || album.len() == 0 {
                InferredTags { artist: None, album: cleaned_s }
            } else {
                InferredTags { artist: Some(string_of(&artist)), album: string_of(&album) }
            }
        },
        None => InferredTags { artist: None, album: cleaned_s },
    }
}

proof fn lemma_trim_keeps_tidy(s: Seq<char>)
    requires
        s.len() > 0,
        !is_ws(s[0]),
        !is_ws(s.last()),
    ensures
        trim(s) == s,
{
    assert(skip_front(s, ws_pred()) == s);
    assert(skip_back(s, ws_pred()) == s);
}

/// A cleaned title neither starts nor ends in whitespace, and never has two
/// whitespace characters in a row.
proof fn lemma_cleaned_is_tidy(title: Seq<char>)
    ensures
        ({
            let c = strip_noise_spec(title);
            &&& c.len() > 0 ==> !is_ws(c[0]) && !is_ws(c.last())
            &&& forall|i: int| 0 <= i < c.len() - 1 ==> !(is_ws(#[trigger] c[i]) && is_ws(c[i + 1]))
        }),
{
    let m = collapse(strip_all(trim(title)));
    lemma_collapse_runs(strip_all(trim(title)), false);
    let f = skip_front(m, ws_pred());
    lemma_skip_front_prefix(m, ws_pred());
    lemma_skip_front_first(m, ws_pred());
    let k1 = choose|k: int| 0 <= k <= m.len() && f == m.skip(k);
    let c = skip_back(f, ws_pred());
    lemma_skip_back_prefix(f, ws_pred());
    lemma_skip_back_last(f, ws_pred());
    let k2 = choose|k: int| 0 <= k <= f.len() && c == f.take(k);
    assert(c == strip_noise_spec(title));
    assert forall|i: int| 0 <= i < c.len() - 1 implies !(is_ws(#[trigger] c[i]) && is_ws(c[i + 1])) by {
        assert(c[i] == m[i + k1]);
        assert(c[i + 1] == m[i + 1 + k1]);
    }
}

/// The split is on the **first** ` - `: an inferred artist never contains
/// ` - ` itself, neither side of a split is left empty, and the two sides
/// joined by ` - ` give back the cleaned title. Without a real split, the
/// album is the whole cleaned title: it has no ` - `, or one side of its first
/// ` - ` is blank.
pub proof fn law_artist_is_split_off_at_the_first_dash(title: Seq<char>)
    ensures
        infer_spec(title).0 matches Some(artist) ==> {
            &&& artist.len() > 0
            &&& infer_spec(title).1.len() > 0
            &&& forall|k: int| !occurs_at(artist, " - "@, k)
            &&& strip_noise_spec(title) == artist + " - "@ + infer_spec(title).1
        },
        infer_spec(title).0 is None ==> {
            &&& infer_spec(title).1 == strip_noise_spec(title)
            &&& find_first(strip_noise_spec(title), " - "@) matches Some(i) ==> (trim(
                strip_noise_spec(title).take(i as int),
            ).len() == 0 || trim(strip_noise_spec(title).skip(i + 3 as int)).len() == 0)
        },
{
    let cleaned = strip_noise_spec(title);
    let sep = " - "@;
    reveal_strlit(" - ");
    lemma_find_from_found(cleaned, sep, 0);
    if let Some(i) = find_first(cleaned, sep) {
        let x = cleaned.take(i as int);
        let f = skip_front(x, ws_pred());
        lemma_skip_front_prefix(x, ws_pred());
        let k1 = choose|k: int| 0 <= k <= x.len() && f == x.skip(k);
        lemma_skip_back_prefix(f, ws_pred());
        let a = skip_back(f, ws_pred());
        let k2 = choose|k: int| 0 <= k <= f.len() && a == f.take(k);
        assert forall|k: int| !occurs_at(a, sep, k) by {
            if occurs_at(a, sep, k) {
                assert forall|j: int| 0 <= j < 3 implies cleaned[k1 + k + j] == sep[j] by {
                    assert(a.subrange(k, k + 3)[j] == sep[j]);
                    assert(a[k + j] == cleaned[k1 + k + j]);
                }
                assert(cleaned.subrange(k1 + k, k1 + k + 3) =~= sep);
                assert(occurs_at(cleaned, sep, k1 + k));
            }
        }
        let ii = i as int;
        let y = cleaned.skip(ii + 3);
        if a.len() > 0 && trim(y).len() > 0 {
            lemma_cleaned_is_tidy(title);
            assert(cleaned.subrange(ii, ii + 3) == sep);
            assert(sep[0] == ' ' && sep[2] == ' ');
            assert(cleaned.subrange(ii, ii + 3)[0] == cleaned[ii]);
            assert(cleaned.subrange(ii, ii + 3)[2] == cleaned[ii + 2]);
            assert(cleaned[ii] == ' ');
            assert(cleaned[ii + 2] == ' ');
            // Both sides are non-empty, so the title starts before the
            // separator and goes on after it.
            assert(x.len() > 0);
            assert(y.len() > 0);
            assert(!is_ws(cleaned[ii - 1])) by {
                assert(is_ws(cleaned[ii]));
            }
            assert(!is_ws(cleaned[ii + 3])) by {
                assert(is_ws(cleaned[ii + 2]));
            }
            assert(x[0] == cleaned[0]);
            assert(x.last() == cleaned[ii - 1]);
            lemma_trim_keeps_tidy(x);
            assert(y[0] == cleaned[ii + 3]);
            assert(y.last() == cleaned.last());
            lemma_trim_keeps_tidy(y);
            assert(cleaned =~= x + sep + y);
        }
    }
}

} // verus!
