//! Character-level text handling shared by the naming, argv and parsing code.
//!
//! Strings are handled as sequences of `char`; every function states its
//! result over `Seq<char>` so that the modules above can reason about titles,
//! file names and tool output without caring how Rust stores a `String`.
use vstd::prelude::*;
use vstd::string::*;

verus! {

broadcast use vstd::string::group_string_axioms;

// ---------------------------------------------------------------------------
// Character classes
// ---------------------------------------------------------------------------

/// The Unicode `White_Space` property.
pub open spec fn is_ws(c: char) -> bool {
    let u = c as u32;
    ||| 0x09 <= u <= 0x0d
    ||| u == 0x20
    ||| u == 0x85
    ||| u == 0xa0
    ||| u == 0x1680
    ||| 0x2000 <= u <= 0x200a
    ||| u == 0x2028
    ||| u == 0x2029
    ||| u == 0x202f
    ||| u == 0x205f
    ||| u == 0x3000
}

/// The Unicode general category `Cc` (control codes).
pub open spec fn is_cc(c: char) -> bool {
    let u = c as u32;
    u <= 0x1f || (0x7f <= u && u <= 0x9f)
}

pub open spec fn ws_pred() -> spec_fn(char) -> bool {
    |c: char| is_ws(c)
}

/// Whether `c` is whitespace, as `char::is_whitespace` answers: the code
/// points with the Unicode `White_Space` property.
pub(crate) fn is_whitespace(c: char) -> (b: bool)
    ensures
        b == is_ws(c),
{
    let u = c as u32;
    (0x09 <= u && u <= 0x0d) || u == 0x20 || u == 0x85 || u == 0xa0 || u == 0x1680 || (0x2000 <= u
        && u <= 0x200a) || u == 0x2028 || u == 0x2029 || u == 0x202f || u == 0x205f || u == 0x3000
}

/// Whether `c` is a control code, as `char::is_control` answers: the general
/// category `Cc`, U+0000..=U+001F and U+007F..=U+009F.
pub(crate) fn is_control(c: char) -> (b: bool)
    ensures
        b == is_cc(c),
{
    let u = c as u32;
    u <= 0x1f || (0x7f <= u && u <= 0x9f)
}

// ---------------------------------------------------------------------------
// Moving between `str`, `String` and `Vec<char>`
// ---------------------------------------------------------------------------

/// The characters of `s`, in order.
pub fn chars_of(s: &str) -> (v: Vec<char>)
    ensures
        v@ == s@,
{
    let mut v: Vec<char> = Vec::new();
    for c in it: s.chars()
        invariant
            v@ == it.seq().take(it.index() as int),
            it.seq() == s@,
    {
        v.push(c);
    }
    v
}

/// `String::push`: appends one character.
#[verifier::external_body]
fn string_push(s: &mut String, c: char)
    ensures
        final(s)@ == old(s)@.push(c),
{
    s.push(c);
}

/// The string whose characters are `v`.
pub fn string_of(v: &Vec<char>) -> (s: String)
    ensures
        s@ == v@,
{
    let mut s = String::new();
    let mut i: usize = 0;
    while i < v.len()
        invariant
            i <= v.len(),
            s@ == v@.take(i as int),
        decreases v.len() - i,
    {
        string_push(&mut s, v[i]);
        assert(v@.take(i + 1) =~= v@.take(i as int).push(v@[i as int]));
        i = i + 1;
    }
    assert(v@.take(v.len() as int) =~= v@);
    s
}

/// An owned copy of a string slice.
pub fn owned(s: &str) -> (r: String)
    ensures
        r@ == s@,
{
    s.to_owned()
}

/// Appends the characters of `s` to `out`.
pub fn push_str(out: &mut Vec<char>, s: &str)
    ensures
        final(out)@ == old(out)@ + s@,
{
    let v = chars_of(s);
    push_all(out, &v);
}

/// Appends the characters of `v` to `out`.
pub fn push_all(out: &mut Vec<char>, v: &Vec<char>)
    ensures
        final(out)@ == old(out)@ + v@,
{
    let ghost start = out@;
    let mut i: usize = 0;
    while i < v.len()
        invariant
            i <= v.len(),
            out@ == start + v@.take(i as int),
        decreases v.len() - i,
    {
        out.push(v[i]);
        assert(v@.take(i + 1) =~= v@.take(i as int).push(v@[i as int]));
        i = i + 1;
    }
    assert(v@.take(v.len() as int) =~= v@);
}

/// The characters `v[from..to]`.
pub fn slice(v: &Vec<char>, from: usize, to: usize) -> (r: Vec<char>)
    requires
        from <= to <= v.len(),
    ensures
        r@ == v@.subrange(from as int, to as int),
{
    let mut r: Vec<char> = Vec::new();
    let mut i = from;
    while i < to
        invariant
            from <= i <= to <= v.len(),
            r@ == v@.subrange(from as int, i as int),
        decreases to - i,
    {
        r.push(v[i]);
        assert(v@.subrange(from as int, i + 1) =~= v@.subrange(from as int, i as int).push(
            v@[i as int],
        ));
        i = i + 1;
    }
    r
}

/// Whether two character sequences are equal.
pub fn same_chars(a: &Vec<char>, b: &Vec<char>) -> (r: bool)
    ensures
        r == (a@ == b@),
{
    if a.len() != b.len() {
        return false;
    }
    let mut i: usize = 0;
    while i < a.len()
        invariant
            a.len() == b.len(),
            i <= a.len(),
            forall|j: int| 0 <= j < i ==> a@[j] == b@[j],
        decreases a.len() - i,
    {
        if a[i] != b[i] {
            return false;
        }
        i = i + 1;
    }
    assert(a@ =~= b@);
    true
}

/// Whether `v` spells out the literal `s`.
pub fn spells(v: &Vec<char>, s: &str) -> (r: bool)
    ensures
        r == (v@ == s@),
{
    let w = chars_of(s);
    same_chars(v, &w)
}

// ---------------------------------------------------------------------------
// Trimming
// ---------------------------------------------------------------------------

/// `s` without the leading characters that satisfy `p`.
pub open spec fn skip_front(s: Seq<char>, p: spec_fn(char) -> bool) -> Seq<char>
    decreases s.len(),
{
    if s.len() > 0 && p(s[0]) {
        skip_front(s.drop_first(), p)
    } else {
        s
    }
}

/// `s` without the trailing characters that satisfy `p`.
pub open spec fn skip_back(s: Seq<char>, p: spec_fn(char) -> bool) -> Seq<char>
    decreases s.len(),
{
    if s.len() > 0 && p(s.last()) {
        skip_back(s.drop_last(), p)
    } else {
        s
    }
}

/// `str::trim_end`.
pub open spec fn trim_end(s: Seq<char>) -> Seq<char> {
    skip_back(s, ws_pred())
}

/// `str::trim`.
pub open spec fn trim(s: Seq<char>) -> Seq<char> {
    skip_back(skip_front(s, ws_pred()), ws_pred())
}

/// A dot or a whitespace character: what a file name must not start or end with.
pub open spec fn is_dot_or_ws(c: char) -> bool {
    c == '.' || is_ws(c)
}

pub open spec fn dot_ws_pred() -> spec_fn(char) -> bool {
    |c: char| is_dot_or_ws(c)
}

/// The predicate that the trimming helpers strip: whitespace, or also dots.
pub open spec fn strip_pred(dots: bool) -> spec_fn(char) -> bool {
    if dots {
        dot_ws_pred()
    } else {
        ws_pred()
    }
}

fn strips(c: char, dots: bool) -> (b: bool)
    ensures
        b == strip_pred(dots)(c),
{
    (dots && c == '.') || is_whitespace(c)
}

pub proof fn lemma_skip_front_prefix(s: Seq<char>, p: spec_fn(char) -> bool)
    ensures
        exists|k: int| 0 <= k <= s.len() && skip_front(s, p) == s.skip(k),
    decreases s.len(),
{
    if s.len() > 0 && p(s[0]) {
        lemma_skip_front_prefix(s.drop_first(), p);
        let k = choose|k: int|
            0 <= k <= s.drop_first().len() && skip_front(s.drop_first(), p) == s.drop_first().skip(
                k,
            );
        assert(s.drop_first().skip(k) =~= s.skip(k + 1));
    } else {
        assert(s.skip(0) =~= s);
    }
}

pub proof fn lemma_skip_back_prefix(s: Seq<char>, p: spec_fn(char) -> bool)
    ensures
        exists|k: int| 0 <= k <= s.len() && skip_back(s, p) == s.take(k),
    decreases s.len(),
{
    if s.len() > 0 && p(s.last()) {
        lemma_skip_back_prefix(s.drop_last(), p);
        let k = choose|k: int|
            0 <= k <= s.drop_last().len() && skip_back(s.drop_last(), p) == s.drop_last().take(k);
        assert(s.drop_last().take(k) =~= s.take(k));
    } else {
        assert(s.take(s.len() as int) =~= s);
    }
}

/// The number of leading characters of `v` that the trimming predicate strips.
fn lead_len(v: &Vec<char>, dots: bool) -> (n: usize)
    ensures
        n <= v.len(),
        skip_front(v@, strip_pred(dots)) == v@.skip(n as int),
{
    let mut i: usize = 0;
    assert(v@.skip(0) =~= v@);
    while i < v.len() && strips(v[i], dots)
        invariant
            i <= v.len(),
            skip_front(v@, strip_pred(dots)) == skip_front(v@.skip(i as int), strip_pred(dots)),
        decreases v.len() - i,
    {
        assert(v@.skip(i as int).drop_first() =~= v@.skip(i + 1));
        i = i + 1;
    }
    i
}

/// The length of `v` once the trailing characters the predicate strips are removed.
fn kept_len(v: &Vec<char>, dots: bool) -> (n: usize)
    ensures
        n <= v.len(),
        skip_back(v@, strip_pred(dots)) == v@.take(n as int),
{
    let mut j: usize = v.len();
    assert(v@.take(v.len() as int) =~= v@);
    while j > 0 && strips(v[j - 1], dots)
        invariant
            j <= v.len(),
            skip_back(v@, strip_pred(dots)) == skip_back(v@.take(j as int), strip_pred(dots)),
        decreases j,
    {
        assert(v@.take(j as int).drop_last() =~= v@.take(j - 1));
        j = j - 1;
    }
    j
}

/// `v` with the characters the predicate strips removed from both ends.
fn trim_by(v: &Vec<char>, dots: bool) -> (r: Vec<char>)
    ensures
        r@ == skip_back(skip_front(v@, strip_pred(dots)), strip_pred(dots)),
{
    let a = lead_len(v, dots);
    let rest = slice(v, a, v.len());
    assert(rest@ =~= v@.skip(a as int));
    let b = kept_len(&rest, dots);
    slice(&rest, 0, b)
}

/// `str::trim` on a character vector.
pub fn trim_ws(v: &Vec<char>) -> (r: Vec<char>)
    ensures
        r@ == trim(v@),
{
    trim_by(v, false)
}

/// `str::trim_end` on a character vector.
pub fn trim_end_ws(v: &Vec<char>) -> (r: Vec<char>)
    ensures
        r@ == trim_end(v@),
{
    let b = kept_len(v, false);
    slice(v, 0, b)
}

/// Removes dots and whitespace from the end.
pub fn trim_end_dots_ws(v: &Vec<char>) -> (r: Vec<char>)
    ensures
        r@ == skip_back(v@, dot_ws_pred()),
{
    let b = kept_len(v, true);
    slice(v, 0, b)
}

/// Removes dots and whitespace from both ends.
pub fn trim_dots_ws(v: &Vec<char>) -> (r: Vec<char>)
    ensures
        r@ == skip_back(skip_front(v@, dot_ws_pred()), dot_ws_pred()),
{
    trim_by(v, true)
}

// ---------------------------------------------------------------------------
// Whitespace runs
// ---------------------------------------------------------------------------

/// Each run of whitespace in `s` becomes one space; `in_space` says whether
/// the character just before `s` was whitespace.
pub open spec fn collapse_from(s: Seq<char>, in_space: bool) -> Seq<char>
    decreases s.len(),
{
    if s.len() == 0 {
        Seq::empty()
    } else if is_ws(s[0]) {
        if in_space {
            collapse_from(s.drop_first(), true)
        } else {
            seq![' '] + collapse_from(s.drop_first(), true)
        }
    } else {
        seq![s[0]] + collapse_from(s.drop_first(), false)
    }
}

/// Every run of whitespace replaced by a single space.
pub open spec fn collapse(s: Seq<char>) -> Seq<char> {
    collapse_from(s, false)
}

/// Replaces every run of whitespace with one space.
pub fn collapse_whitespace(v: &Vec<char>) -> (r: Vec<char>)
    ensures
        r@ == collapse(v@),
{
    let mut out: Vec<char> = Vec::new();
    let mut in_space = false;
    let mut i: usize = 0;
    assert(v@.skip(0) =~= v@);
    while i < v.len()
        invariant
            i <= v.len(),
            out@ + collapse_from(v@.skip(i as int), in_space) == collapse(v@),
        decreases v.len() - i,
    {
        let c = v[i];
        assert(v@.skip(i as int).drop_first() =~= v@.skip(i + 1));
        assert(v@.skip(i as int)[0] == c);
        if is_whitespace(c) {
            if !in_space {
                out.push(' ');
            }
            in_space = true;
        } else {
            out.push(c);
            in_space = false;
        }
        assert(out@ + collapse_from(v@.skip(i + 1), in_space) =~= collapse(v@));
        i = i + 1;
    }
    assert(collapse_from(v@.skip(v.len() as int), in_space) =~= Seq::<char>::empty());
    assert(out@ =~= collapse(v@));
    out
}

// ---------------------------------------------------------------------------
// Decimal numbers
// ---------------------------------------------------------------------------

/// The character of a decimal digit.
pub open spec fn digit_char(d: nat) -> char {
    if d == 0 {
        '0'
    } else if d == 1 {
        '1'
    } else if d == 2 {
        '2'
    } else if d == 3 {
        '3'
    } else if d == 4 {
        '4'
    } else if d == 5 {
        '5'
    } else if d == 6 {
        '6'
    } else if d == 7 {
        '7'
    } else if d == 8 {
        '8'
    } else {
        '9'
    }
}

/// The decimal representation of `n`, as `Display` prints an unsigned integer.
pub open spec fn dec(n: nat) -> Seq<char>
    decreases n,
{
    if n < 10 {
        seq![digit_char(n)]
    } else {
        dec(n / 10).push(digit_char(n % 10))
    }
}

fn digit(d: u64) -> (c: char)
    requires
        d < 10,
    ensures
        c == digit_char(d as nat),
{
    if d == 0 {
        '0'
    } else if d == 1 {
        '1'
    } else if d == 2 {
        '2'
    } else if d == 3 {
        '3'
    } else if d == 4 {
        '4'
    } else if d == 5 {
        '5'
    } else if d == 6 {
        '6'
    } else if d == 7 {
        '7'
    } else if d == 8 {
        '8'
    } else {
        '9'
    }
}

/// Appends the decimal representation of `n`.
pub fn push_dec(out: &mut Vec<char>, n: u64)
    ensures
        final(out)@ == old(out)@ + dec(n as nat),
    decreases n,
{
    if n >= 10 {
        push_dec(out, n / 10);
    }
    out.push(digit(n % 10));
    assert(dec(n as nat) == if n < 10 {
        seq![digit_char(n as nat)]
    } else {
        dec((n / 10) as nat).push(digit_char((n % 10) as nat))
    });
    if n < 10 {
        assert(final(out)@ =~= old(out)@ + dec(n as nat));
    } else {
        assert(final(out)@ =~= old(out)@ + dec(n as nat));
    }
}

/// The decimal representation of `n`.
pub fn dec_chars(n: u64) -> (r: Vec<char>)
    ensures
        r@ == dec(n as nat),
{
    let mut r: Vec<char> = Vec::new();
    push_dec(&mut r, n);
    assert(r@ =~= dec(n as nat));
    r
}

pub proof fn lemma_dec_len(n: nat)
    ensures
        dec(n).len() >= 1,
    decreases n,
{
    if n >= 10 {
        lemma_dec_len(n / 10);
    }
}

pub proof fn lemma_dec_len_monotone(m: nat, n: nat)
    requires
        m <= n,
    ensures
        dec(m).len() <= dec(n).len(),
    decreases n,
{
    if m >= 10 {
        lemma_dec_len_monotone(m / 10, n / 10);
    } else if n >= 10 {
        lemma_dec_len(n / 10);
    }
}

pub open spec fn is_digit(c: char) -> bool {
    '0' <= c && c <= '9'
}

pub open spec fn digit_value(c: char) -> nat {
    ((c as u32) - ('0' as u32)) as nat
}

/// The value of a string of decimal digits, most significant first.
pub open spec fn digits_value(s: Seq<char>) -> nat
    decreases s.len(),
{
    if s.len() == 0 {
        0
    } else {
        digits_value(s.drop_last()) * 10 + digit_value(s.last())
    }
}

/// Every character of `d` is a decimal digit.
pub open spec fn all_digits(d: Seq<char>) -> bool {
    forall|i: int| 0 <= i < d.len() ==> is_digit(#[trigger] d[i])
}

/// `s` without one leading `+`.
pub open spec fn unsigned_part(s: Seq<char>) -> Seq<char> {
    if s.len() > 0 && s[0] == '+' {
        s.drop_first()
    } else {
        s
    }
}

/// What `str::parse::<u32>` accepts: an optional `+`, then at least one
/// decimal digit, with a value that fits in 32 bits.
pub open spec fn parse_u32_spec(s: Seq<char>) -> Option<u32> {
    let d = unsigned_part(s);
    if d.len() > 0 && all_digits(d) && digits_value(d) <= u32::MAX {
        Some(digits_value(d) as u32)
    } else {
        None
    }
}

proof fn lemma_digits_value_grows(s: Seq<char>, i: int)
    requires
        0 <= i <= s.len(),
        forall|j: int| 0 <= j < s.len() ==> is_digit(#[trigger] s[j]),
    ensures
        digits_value(s.take(i)) <= digits_value(s),
    decreases s.len() - i,
{
    if i < s.len() {
        lemma_digits_value_grows(s, i + 1);
        assert(s.take(i + 1).drop_last() =~= s.take(i));
        assert(digits_value(s.take(i + 1)) == digits_value(s.take(i)) * 10 + digit_value(
            s.take(i + 1).last(),
        ));
        assert(digits_value(s.take(i)) <= digits_value(s.take(i)) * 10) by (nonlinear_arith);
    } else {
        assert(s.take(i) =~= s);
    }
}

/// `str::parse::<u32>`.
pub fn parse_u32(v: &Vec<char>) -> (r: Option<u32>)
    ensures
        r == parse_u32_spec(v@),
{
    let start: usize = if v.len() > 0 && v[0] == '+' {
        1
    } else {
        0
    };
    let ghost d = unsigned_part(v@);
    assert(d =~= v@.skip(start as int));
    if start == v.len() {
        return None;
    }
    let mut acc: u64 = 0;
    let mut i = start;
    while i < v.len()
        invariant
            start <= i <= v.len(),
            d == v@.skip(start as int),
            d == unsigned_part(v@),
            acc <= u32::MAX,
            acc == digits_value(d.take(i - start)),
            forall|j: int| 0 <= j < i - start ==> is_digit(#[trigger] d[j]),
        decreases v.len() - i,
    {
        let c = v[i];
        if !('0' <= c && c <= '9') {
            assert(!is_digit(d[i - start]));
            assert(!all_digits(d));
            return None;
        }
        let dv = (c as u32 - '0' as u32) as u64;
        assert(d.take(i + 1 - start).drop_last() =~= d.take(i - start));
        assert(d.take(i + 1 - start).last() == c);
        assert(acc * 10 + dv <= u32::MAX * 10 + 9) by (nonlinear_arith)
            requires
                acc <= u32::MAX,
                dv <= 9,
        ;
        acc = acc * 10 + dv;
        assert(acc == digits_value(d.take(i + 1 - start)));
        if acc > u32::MAX as u64 {
            proof {
                if all_digits(d) {
                    lemma_digits_value_grows(d, i + 1 - start);
                }
            }
            assert(parse_u32_spec(v@) is None);
            return None;
        }
        i = i + 1;
    }
    assert(d.take(v.len() - start) =~= d);
    Some(acc as u32)
}

// ---------------------------------------------------------------------------
// Searching
// ---------------------------------------------------------------------------

/// `pat` occurs in `s` starting at index `i`.
pub open spec fn occurs_at(s: Seq<char>, pat: Seq<char>, i: int) -> bool {
    0 <= i && i + pat.len() <= s.len() && s.subrange(i, i + pat.len()) == pat
}

/// The first index at or after `i` where `pat` occurs.
pub open spec fn find_from(s: Seq<char>, pat: Seq<char>, i: nat) -> Option<nat>
    decreases s.len() - i,
{
    if i >= s.len() {
        None
    } else if occurs_at(s, pat, i as int) {
        Some(i)
    } else {
        find_from(s, pat, i + 1)
    }
}

/// `str::find` with a non-empty pattern: the first index where `pat` occurs.
pub open spec fn find_first(s: Seq<char>, pat: Seq<char>) -> Option<nat> {
    find_from(s, pat, 0)
}

/// The last index below `n` where `pat` occurs.
pub open spec fn rfind_below(s: Seq<char>, pat: Seq<char>, n: nat) -> Option<nat>
    decreases n,
{
    if n == 0 {
        None
    } else if occurs_at(s, pat, n - 1) {
        Some((n - 1) as nat)
    } else {
        rfind_below(s, pat, (n - 1) as nat)
    }
}

/// `str::rfind` with a non-empty pattern: the last index where `pat` occurs.
pub open spec fn find_last(s: Seq<char>, pat: Seq<char>) -> Option<nat> {
    rfind_below(s, pat, s.len())
}

/// Whether `pat` occurs in `v` at index `i`.
pub fn occurs(v: &Vec<char>, pat: &Vec<char>, i: usize) -> (r: bool)
    ensures
        r == occurs_at(v@, pat@, i as int),
{
    if i > v.len() || pat.len() > v.len() - i {
        return false;
    }
    let mut k: usize = 0;
    while k < pat.len()
        invariant
            i + pat.len() <= v.len(),
            k <= pat.len(),
            forall|j: int| 0 <= j < k ==> v@[i + j] == pat@[j],
        decreases pat.len() - k,
    {
        if v[i + k] != pat[k] {
            assert(v@.subrange(i as int, i + pat.len())[k as int] != pat@[k as int]);
            return false;
        }
        k = k + 1;
    }
    assert(v@.subrange(i as int, i + pat.len()) =~= pat@);
    true
}

pub proof fn lemma_find_from_found(s: Seq<char>, pat: Seq<char>, i: nat)
    ensures
        find_from(s, pat, i) matches Some(k) ==> i <= k < s.len() && occurs_at(s, pat, k as int)
            && forall|j: int| i <= j < k ==> !occurs_at(s, pat, j),
        find_from(s, pat, i) is None ==> forall|j: int| i <= j < s.len() ==> !occurs_at(s, pat, j),
    decreases s.len() - i,
{
    if i < s.len() && !occurs_at(s, pat, i as int) {
        lemma_find_from_found(s, pat, i + 1);
    }
}

/// `str::find`: the first index where the non-empty `pat` occurs in `v`.
pub fn find(v: &Vec<char>, pat: &Vec<char>) -> (r: Option<usize>)
    ensures
        r matches Some(k) ==> find_first(v@, pat@) == Some(k as nat),
        r is None ==> find_first(v@, pat@) is None,
{
    let mut i: usize = 0;
    while i < v.len()
        invariant
            i <= v.len(),
            find_first(v@, pat@) == find_from(v@, pat@, i as nat),
        decreases v.len() - i,
    {
        if occurs(v, pat, i) {
            return Some(i);
        }
        i = i + 1;
    }
    None
}

pub proof fn lemma_rfind_below_found(s: Seq<char>, pat: Seq<char>, n: nat)
    ensures
        rfind_below(s, pat, n) matches Some(k) ==> k < n && occurs_at(s, pat, k as int) && forall|
            j: int,
        |
            k < j < n ==> !occurs_at(s, pat, j),
        rfind_below(s, pat, n) is None ==> forall|j: int| 0 <= j < n ==> !occurs_at(s, pat, j),
    decreases n,
{
    if n > 0 && !occurs_at(s, pat, n - 1) {
        lemma_rfind_below_found(s, pat, (n - 1) as nat);
    }
}

/// `str::rfind`: the last index where `pat` occurs in `v`.
pub fn rfind(v: &Vec<char>, pat: &Vec<char>) -> (r: Option<usize>)
    ensures
        r matches Some(k) ==> find_last(v@, pat@) == Some(k as nat),
        r is None ==> find_last(v@, pat@) is None,
{
    let mut n: usize = v.len();
    while n > 0
        invariant
            n <= v.len(),
            find_last(v@, pat@) == rfind_below(v@, pat@, n as nat),
        decreases n,
    {
        if occurs(v, pat, n - 1) {
            return Some(n - 1);
        }
        n = n - 1;
    }
    None
}

// ---------------------------------------------------------------------------
// Splitting
// ---------------------------------------------------------------------------

/// `str::split` on a single character: the pieces between the separators.
pub open spec fn split_on(s: Seq<char>, sep: char) -> Seq<Seq<char>>
    decreases s.len(),
{
    if s.len() == 0 {
        seq![Seq::empty()]
    } else {
        let prev = split_on(s.drop_last(), sep);
        if s.last() == sep {
            prev.push(Seq::empty())
        } else {
            prev.update(prev.len() - 1, prev.last().push(s.last()))
        }
    }
}

pub proof fn lemma_split_on_len(s: Seq<char>, sep: char)
    ensures
        split_on(s, sep).len() >= 1,
    decreases s.len(),
{
    if s.len() > 0 {
        lemma_split_on_len(s.drop_last(), sep);
    }
}

/// The character sequences held by a vector of character vectors.
pub open spec fn seqs_of(v: Seq<Vec<char>>) -> Seq<Seq<char>> {
    v.map_values(|p: Vec<char>| p@)
}

/// `str::split` on `sep`.
pub fn split_char(v: &Vec<char>, sep: char) -> (r: Vec<Vec<char>>)
    ensures
        seqs_of(r@) == split_on(v@, sep),
{
    let mut pieces: Vec<Vec<char>> = Vec::new();
    let mut cur: Vec<char> = Vec::new();
    let mut i: usize = 0;
    assert(v@.take(0) =~= Seq::<char>::empty());
    assert(seqs_of(pieces@).push(cur@) =~= split_on(v@.take(0), sep));
    while i < v.len()
        invariant
            i <= v.len(),
            seqs_of(pieces@).push(cur@) == split_on(v@.take(i as int), sep),
        decreases v.len() - i,
    {
        let c = v[i];
        let ghost before = v@.take(i as int);
        assert(v@.take(i + 1).drop_last() =~= before);
        assert(v@.take(i + 1).last() == c);
        proof {
            lemma_split_on_len(before, sep);
        }
        if c == sep {
            pieces.push(cur);
            cur = Vec::new();
            assert(seqs_of(pieces@).push(cur@) =~= split_on(v@.take(i + 1), sep));
        } else {
            cur.push(c);
            assert(seqs_of(pieces@).push(cur@) =~= split_on(v@.take(i + 1), sep));
        }
        i = i + 1;
    }
    assert(v@.take(v.len() as int) =~= v@);
    pieces.push(cur);
    assert(seqs_of(pieces@) =~= split_on(v@, sep));
    pieces
}

/// A line without the `\r` of a `\r\n` ending.
pub open spec fn strip_cr(p: Seq<char>) -> Seq<char> {
    if p.len() > 0 && p.last() == '\r' {
        p.drop_last()
    } else {
        p
    }
}

/// Each piece without the `\r` of a `\r\n` ending.
pub open spec fn strip_cr_all(ps: Seq<Seq<char>>) -> Seq<Seq<char>> {
    ps.map_values(|p: Seq<char>| strip_cr(p))
}

/// `str::lines`: the text split at `\n` or `\r\n`; a final line ending adds no
/// empty line, and a `\r` not followed by `\n` is kept.
pub open spec fn lines(s: Seq<char>) -> Seq<Seq<char>> {
    let parts = split_on(s, '\n');
    let ended = strip_cr_all(parts.drop_last());
    if parts.last().len() == 0 {
        ended
    } else {
        ended.push(parts.last())
    }
}

fn strip_cr_exec(p: Vec<char>) -> (r: Vec<char>)
    ensures
        r@ == strip_cr(p@),
{
    let mut p = p;
    if p.len() > 0 && p[p.len() - 1] == '\r' {
        p.pop();
    }
    p
}

/// `str::lines`.
pub fn lines_of(v: &Vec<char>) -> (r: Vec<Vec<char>>)
    ensures
        seqs_of(r@) == lines(v@),
{
    let parts = split_char(v, '\n');
    proof {
        lemma_split_on_len(v@, '\n');
    }
    let ghost parts_seq = split_on(v@, '\n');
    let n = parts.len();
    let mut out: Vec<Vec<char>> = Vec::new();
    let mut i: usize = 0;
    while i + 1 < n
        invariant
            n == parts.len(),
            n >= 1,
            seqs_of(parts@) == parts_seq,
            i + 1 <= n,
            seqs_of(out@) == strip_cr_all(parts_seq.take(i as int)),
        decreases n - i,
    {
        let piece = slice(&parts[i], 0, parts[i].len());
        assert(piece@ =~= parts@[i as int]@);
        let stripped = strip_cr_exec(piece);
        let ghost prev = out@;
        out.push(stripped);
        assert(parts_seq[i as int] == parts@[i as int]@);
        assert(seqs_of(out@) =~= seqs_of(prev).push(stripped@));
        assert(strip_cr_all(parts_seq.take(i + 1)) =~= strip_cr_all(parts_seq.take(i as int)).push(
            strip_cr(parts_seq[i as int]),
        ));
        assert(seqs_of(out@) =~= strip_cr_all(parts_seq.take(i + 1)));
        i = i + 1;
    }
    assert(parts_seq.take(i as int) =~= parts_seq.drop_last());
    let last = slice(&parts[n - 1], 0, parts[n - 1].len());
    assert(last@ =~= parts@[n - 1]@);
    assert(last@ == parts_seq.last());
    if last.len() > 0 {
        out.push(last);
        assert(seqs_of(out@) =~= lines(v@));
    } else {
        assert(seqs_of(out@) =~= lines(v@));
    }
    out
}

// ---------------------------------------------------------------------------
// UTF-8 size
// ---------------------------------------------------------------------------

/// How many bytes UTF-8 spends on `c`.
pub open spec fn utf8_width(c: char) -> nat {
    let u = c as u32;
    if u < 0x80 {
        1
    } else if u < 0x800 {
        2
    } else if u < 0x10000 {
        3
    } else {
        4
    }
}

/// How many bytes UTF-8 spends on `s`: what `str::len` reports.
pub open spec fn utf8_len(s: Seq<char>) -> nat
    decreases s.len(),
{
    if s.len() == 0 {
        0
    } else {
        utf8_width(s[0]) + utf8_len(s.drop_first())
    }
}

pub proof fn lemma_utf8_len_is_encoded_len(s: Seq<char>)
    ensures
        vstd::utf8::encode_utf8(s).len() == utf8_len(s),
    decreases s.len(),
{
    if s.len() > 0 {
        lemma_utf8_len_is_encoded_len(s.drop_first());
        vstd::utf8::char_is_scalar(s[0]);
    }
}

fn width_of(c: char) -> (w: usize)
    ensures
        w == utf8_width(c),
{
    let u = c as u32;
    if u < 0x80 {
        1
    } else if u < 0x800 {
        2
    } else if u < 0x10000 {
        3
    } else {
        4
    }
}

/// How many leading characters of `s` fit in `budget` bytes.
pub open spec fn fit_count(s: Seq<char>, budget: int) -> nat
    decreases s.len(),
{
    if s.len() == 0 || utf8_width(s[0]) > budget {
        0
    } else {
        1 + fit_count(s.drop_first(), budget - utf8_width(s[0]))
    }
}

pub proof fn lemma_fit_count(s: Seq<char>, budget: int)
    requires
        budget >= 0,
    ensures
        fit_count(s, budget) <= s.len(),
        utf8_len(s.take(fit_count(s, budget) as int)) <= budget,
        fit_count(s, budget) == s.len() <==> utf8_len(s) <= budget,
    decreases s.len(),
{
    if s.len() == 0 {
        assert(s.take(0) =~= s);
    } else if utf8_width(s[0]) > budget {
        assert(s.take(0) =~= Seq::<char>::empty());
        lemma_utf8_len_lower(s);
    } else {
        let rest = s.drop_first();
        lemma_fit_count(rest, budget - utf8_width(s[0]));
        let k = fit_count(rest, budget - utf8_width(s[0]));
        assert(s.take((k + 1) as int).drop_first() =~= rest.take(k as int));
        assert(s.take((k + 1) as int)[0] == s[0]);
    }
}

proof fn lemma_utf8_len_lower(s: Seq<char>)
    requires
        s.len() > 0,
    ensures
        utf8_len(s) >= utf8_width(s[0]),
{
}

/// How many leading characters of `v` fit in `budget` bytes.
pub fn fitting_chars(v: &Vec<char>, budget: usize) -> (n: usize)
    ensures
        n == fit_count(v@, budget as int),
{
    let mut i: usize = 0;
    let mut used: usize = 0;
    assert(v@.skip(0) =~= v@);
    while i < v.len() && width_of(v[i]) <= budget - used
        invariant
            i <= v.len(),
            used <= budget,
            fit_count(v@, budget as int) == i + fit_count(v@.skip(i as int), budget - used),
        decreases v.len() - i,
    {
        let w = width_of(v[i]);
        assert(v@.skip(i as int).drop_first() =~= v@.skip(i + 1));
        assert(v@.skip(i as int)[0] == v@[i as int]);
        used = used + w;
        i = i + 1;
    }
    proof {
        if i < v.len() {
            assert(v@.skip(i as int)[0] == v@[i as int]);
        }
    }
    i
}

// ---------------------------------------------------------------------------
// Case folding
// ---------------------------------------------------------------------------

/// What `str::to_lowercase` returns for a string: Unicode's full lowercase
/// mapping, which takes tables to state.
pub uninterp spec fn lowercase(s: Seq<char>) -> Seq<char>;

/// `str::to_lowercase`.
#[verifier::external_body]
pub(crate) fn to_lowercase(s: &str) -> (r: String)
    ensures
        r@ == lowercase(s@),
{
    s.to_lowercase()
}

// ---------------------------------------------------------------------------
// Argument lists, optional strings and paths
// ---------------------------------------------------------------------------

/// The character sequences held by a list of strings.
pub open spec fn strs(v: Seq<String>) -> Seq<Seq<char>> {
    v.map_values(|s: String| s@)
}

/// The view of an optional string.
pub open spec fn opt_chars(o: Option<String>) -> Option<Seq<char>> {
    match o {
        Some(s) => Some(s@),
        None => None,
    }
}

/// The view of an optional string slice.
pub open spec fn opt_str(o: Option<&str>) -> Option<Seq<char>> {
    match o {
        Some(s) => Some(s@),
        None => None,
    }
}

/// Appends an owned copy of `s` to an argument list.
pub fn push_arg(args: &mut Vec<String>, s: &str)
    ensures
        strs(final(args)@) == strs(old(args)@).push(s@),
{
    let ghost before = args@;
    args.push(owned(s));
    assert(strs(args@) =~= strs(before).push(s@));
}

/// Appends the arguments of `more` to `args`.
pub fn push_args(args: &mut Vec<String>, more: Vec<String>)
    ensures
        strs(final(args)@) == strs(old(args)@) + strs(more@),
{
    let ghost before = args@;
    let ghost added = more@;
    let mut more = more;
    args.append(&mut more);
    assert(args@ =~= before + added);
    assert(strs(args@) =~= strs(before) + strs(added));
}

/// An owned copy of an optional string slice.
pub fn owned_opt(o: Option<&str>) -> (r: Option<String>)
    ensures
        opt_chars(r) == opt_str(o),
{
    match o {
        Some(s) => Some(owned(s)),
        None => None,
    }
}

/// A copy of an optional string.
pub fn copy_opt(o: &Option<String>) -> (r: Option<String>)
    ensures
        opt_chars(r) == opt_chars(*o),
{
    match o {
        Some(s) => Some(owned(s.as_str())),
        None => None,
    }
}

/// `Path::join` on Unix: an absolute `name` replaces `base`; otherwise the
/// two are joined with one `/` unless `base` is empty or already ends in one.
pub open spec fn join_path(base: Seq<char>, name: Seq<char>) -> Seq<char> {
    if name.len() > 0 && name[0] == '/' {
        name
    } else if base.len() == 0 || base.last() == '/' {
        base + name
    } else {
        base + seq!['/'] + name
    }
}

/// `base` joined with `name` as a path.
pub fn join(base: &str, name: &str) -> (r: String)
    ensures
        r@ == join_path(base@, name@),
{
    let b = chars_of(base);
    let n = chars_of(name);
    if n.len() > 0 && n[0] == '/' {
        return owned(name);
    }
    let mut out = b;
    if out.len() > 0 && out[out.len() - 1] != '/' {
        out.push('/');
    }
    push_all(&mut out, &n);
    string_of(&out)
}

// ---------------------------------------------------------------------------
// Facts about trimming, collapsing and sizes
// ---------------------------------------------------------------------------

/// What `skip_front` leaves does not start with a stripped character.
pub proof fn lemma_skip_front_first(s: Seq<char>, p: spec_fn(char) -> bool)
    ensures
        skip_front(s, p).len() > 0 ==> !p(skip_front(s, p)[0]),
    decreases s.len(),
{
    if s.len() > 0 && p(s[0]) {
        lemma_skip_front_first(s.drop_first(), p);
    }
}

/// What `skip_back` leaves does not end with a stripped character, and starts
/// where `s` starts.
pub proof fn lemma_skip_back_last(s: Seq<char>, p: spec_fn(char) -> bool)
    ensures
        skip_back(s, p).len() > 0 ==> !p(skip_back(s, p).last()),
        skip_back(s, p).len() > 0 ==> skip_back(s, p)[0] == s[0],
    decreases s.len(),
{
    if s.len() > 0 && p(s.last()) {
        lemma_skip_back_last(s.drop_last(), p);
    }
}

/// A prefix never needs more UTF-8 bytes than the whole.
pub proof fn lemma_utf8_len_take(s: Seq<char>, k: int)
    requires
        0 <= k <= s.len(),
    ensures
        utf8_len(s.take(k)) <= utf8_len(s),
    decreases s.len(),
{
    if k > 0 {
        lemma_utf8_len_take(s.drop_first(), k - 1);
        assert(s.take(k).drop_first() =~= s.drop_first().take(k - 1));
        assert(s.take(k)[0] == s[0]);
    } else {
        assert(s.take(k) =~= Seq::<char>::empty());
    }
}

/// Collapsing whitespace only ever writes characters of `s` and spaces.
pub proof fn lemma_collapse_keeps(s: Seq<char>, in_space: bool, p: spec_fn(char) -> bool)
    requires
        p(' '),
        forall|i: int| 0 <= i < s.len() ==> p(#[trigger] s[i]),
    ensures
        forall|i: int|
            0 <= i < collapse_from(s, in_space).len() ==> p(#[trigger] collapse_from(s, in_space)[i]),
    decreases s.len(),
{
    if s.len() > 0 {
        let rest = s.drop_first();
        assert forall|i: int| 0 <= i < rest.len() implies p(#[trigger] rest[i]) by {
            assert(rest[i] == s[i + 1]);
        }
        lemma_collapse_keeps(rest, true, p);
        lemma_collapse_keeps(rest, false, p);
        assert(p(s[0]));
        let out = collapse_from(s, in_space);
        if is_ws(s[0]) {
            let tail = collapse_from(rest, true);
            if in_space {
                assert(out == tail);
            } else {
                assert(out =~= seq![' '] + tail);
                assert forall|i: int| 0 <= i < out.len() implies p(#[trigger] out[i]) by {
                    if i > 0 {
                        assert(out[i] == tail[i - 1]);
                    }
                }
            }
        } else {
            let tail = collapse_from(rest, false);
            assert(out =~= seq![s[0]] + tail);
            assert forall|i: int| 0 <= i < out.len() implies p(#[trigger] out[i]) by {
                if i > 0 {
                    assert(out[i] == tail[i - 1]);
                }
            }
        }
    }
}

/// After collapsing, whitespace appears only as single spaces; and right after
/// whitespace there is no more of it.
pub proof fn lemma_collapse_runs(s: Seq<char>, in_space: bool)
    ensures
        forall|i: int|
            0 <= i < collapse_from(s, in_space).len() && is_ws(
                #[trigger] collapse_from(s, in_space)[i],
            ) ==> collapse_from(s, in_space)[i] == ' ',
        forall|i: int|
            0 <= i < collapse_from(s, in_space).len() - 1 ==> !(is_ws(
                #[trigger] collapse_from(s, in_space)[i],
            ) && is_ws(collapse_from(s, in_space)[i + 1])),
        in_space && collapse_from(s, in_space).len() > 0 ==> !is_ws(collapse_from(s, in_space)[0]),
    decreases s.len(),
{
    if s.len() > 0 {
        let rest = s.drop_first();
        lemma_collapse_runs(rest, true);
        lemma_collapse_runs(rest, false);
        let out = collapse_from(s, in_space);
        if is_ws(s[0]) {
            if !in_space {
                let tail = collapse_from(rest, true);
                assert(out =~= seq![' '] + tail);
                assert forall|i: int| 0 <= i < out.len() - 1 implies !(is_ws(#[trigger] out[i])
                    && is_ws(out[i + 1])) by {
                    if i > 0 {
                        assert(out[i] == tail[i - 1]);
                        assert(out[i + 1] == tail[i]);
                    } else {
                        assert(out[1] == tail[0]);
                    }
                }
                assert forall|i: int| 0 <= i < out.len() && is_ws(#[trigger] out[i]) implies out[i]
                    == ' ' by {
                    if i > 0 {
                        assert(out[i] == tail[i - 1]);
                    }
                }
            }
        } else {
            let tail = collapse_from(rest, false);
            assert(out =~= seq![s[0]] + tail);
            assert forall|i: int| 0 <= i < out.len() - 1 implies !(is_ws(#[trigger] out[i]) && is_ws(
                out[i + 1],
            )) by {
                if i > 0 {
                    assert(out[i] == tail[i - 1]);
                    assert(out[i + 1] == tail[i]);
                }
            }
            assert forall|i: int| 0 <= i < out.len() && is_ws(#[trigger] out[i]) implies out[i]
                == ' ' by {
                if i > 0 {
                    assert(out[i] == tail[i - 1]);
                }
            }
        }
    }
}

} // verus!
