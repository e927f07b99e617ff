//! Character-level text operations shared by every module: the model of a
//! string is the sequence of its characters (`Seq<char>`), and each
//! executable helper here is proved against a direct spec of what it does.
use vstd::prelude::*;

verus! {

broadcast use vstd::string::group_string_axioms;

// ───────────────────────── specifications ─────────────────────────

/// `char::is_whitespace`: the Unicode `White_Space` property.
pub open spec fn is_whitespace(c: char) -> bool {
    let u = c as u32;
    ||| 0x09 <= u <= 0x0D
    ||| u == 0x20
    ||| u == 0x85
    ||| u == 0xA0
    ||| u == 0x1680
    ||| 0x2000 <= u <= 0x200A
    ||| u == 0x2028
    ||| u == 0x2029
    ||| u == 0x202F
    ||| u == 0x205F
    ||| u == 0x3000
}

/// ASCII letters and digits (`char::is_ascii_alphanumeric`).
pub open spec fn is_ascii_alnum(c: char) -> bool {
    let u = c as u32;
    ||| 0x30 <= u <= 0x39
    ||| 0x41 <= u <= 0x5A
    ||| 0x61 <= u <= 0x7A
}

/// ASCII lowercase mapping (`char::to_ascii_lowercase`).
pub open spec fn ascii_lower(c: char) -> char {
    let u = c as u32;
    if 0x41 <= u <= 0x5A {
        (u + 32) as char
    } else {
        c
    }
}

/// ASCII uppercase mapping (`char::to_ascii_uppercase`).
pub open spec fn ascii_upper(c: char) -> char {
    let u = c as u32;
    if 0x61 <= u <= 0x7A {
        (u - 32) as char
    } else {
        c
    }
}

/// Every character is ASCII (`str::is_ascii`).
pub open spec fn all_ascii(s: Seq<char>) -> bool {
    forall|i: int| 0 <= i < s.len() ==> (#[trigger] s[i] as u32) < 128
}

/// `str::to_ascii_lowercase`: each character through [`ascii_lower`].
pub open spec fn ascii_lowered(s: Seq<char>) -> Seq<char> {
    s.map_values(|c: char| ascii_lower(c))
}

/// `str::to_ascii_uppercase`: each character through [`ascii_upper`].
pub open spec fn ascii_uppered(s: Seq<char>) -> Seq<char> {
    s.map_values(|c: char| ascii_upper(c))
}

/// `eq_ignore_ascii_case` on character sequences.
pub open spec fn eq_ignore_ascii_case(a: Seq<char>, b: Seq<char>) -> bool {
    &&& a.len() == b.len()
    &&& forall|i: int| 0 <= i < a.len() ==> ascii_lower(#[trigger] a[i]) == ascii_lower(b[i])
}

/// `needle` occurs in `hay` starting at position `i`.
pub open spec fn occurs_at(hay: Seq<char>, needle: Seq<char>, i: int) -> bool {
    0 <= i && i + needle.len() <= hay.len() && hay.subrange(i, i + needle.len()) == needle
}

/// `str::contains` with a string pattern.
pub open spec fn contains_seq(hay: Seq<char>, needle: Seq<char>) -> bool {
    exists|i: int| occurs_at(hay, needle, i)
}

/// `str::starts_with`.
pub open spec fn starts_with(s: Seq<char>, p: Seq<char>) -> bool {
    p.len() <= s.len() && s.take(p.len() as int) == p
}

/// `str::ends_with`.
pub open spec fn ends_with(s: Seq<char>, p: Seq<char>) -> bool {
    p.len() <= s.len() && s.skip(s.len() - p.len()) == p
}

/// Which characters a trim removes.
pub enum Strip {
    Whitespace,
    Char(char),
}

pub open spec fn strips(m: Strip, c: char) -> bool {
    match m {
        Strip::Whitespace => is_whitespace(c),
        Strip::Char(x) => c == x,
    }
}

/// `trim_start` / `trim_start_matches(c)`.
pub open spec fn trim_start_by(s: Seq<char>, m: Strip) -> Seq<char>
    decreases s.len(),
{
    if s.len() > 0 && strips(m, s[0]) {
        trim_start_by(s.drop_first(), m)
    } else {
        s
    }
}

/// `trim_end` / `trim_end_matches(c)`.
pub open spec fn trim_end_by(s: Seq<char>, m: Strip) -> Seq<char>
    decreases s.len(),
{
    if s.len() > 0 && strips(m, s.last()) {
        trim_end_by(s.drop_last(), m)
    } else {
        s
    }
}

/// `trim` / `trim_matches(c)`.
pub open spec fn trim_by(s: Seq<char>, m: Strip) -> Seq<char> {
    trim_end_by(trim_start_by(s, m), m)
}

/// `str::trim`.
pub open spec fn trim(s: Seq<char>) -> Seq<char> {
    trim_by(s, Strip::Whitespace)
}

/// The three characters `...`.
pub open spec fn ellipsis() -> Seq<char> {
    seq!['.', '.', '.']
}

/// The first `max` characters followed by `...` when `s` is longer than
/// `max` characters; `s` itself otherwise.
pub open spec fn truncate_with_ellipsis(s: Seq<char>, max: nat) -> Seq<char> {
    if s.len() > max {
        s.take(max as int) + ellipsis()
    } else {
        s
    }
}

/// `str::replace`: every non-overlapping occurrence of a non-empty `from`,
/// scanned left to right, is replaced by `to`.
pub open spec fn replace_all(s: Seq<char>, from: Seq<char>, to: Seq<char>) -> Seq<char>
    decreases s.len(),
{
    if from.len() == 0 || s.len() == 0 {
        s
    } else if starts_with(s, from) {
        to + replace_all(s.skip(from.len() as int), from, to)
    } else {
        seq![s[0]] + replace_all(s.drop_first(), from, to)
    }
}

/// What `str::to_lowercase` gives back for a string.
pub uninterp spec fn lowercase_of(s: Seq<char>) -> Seq<char>;

// ───────────────────────── trusted conversions ─────────────────────────

/// Collects characters into a `String` through std's
/// `String::from_iter`; the contract claims the string holds exactly those
/// characters, in order.
#[verifier::external_body]
pub(crate) fn string_from_chars(v: Vec<char>) -> (s: String)
    ensures
        s@ == v@,
{
    String::from_iter(v)
}

/// `str::to_lowercase` from std. The contract names its result and states
/// the one case std documents plainly: the lowercase mapping of an ASCII
/// character is its ASCII lowercase (`A`-`Z` to `a`-`z`, every other ASCII
/// character unchanged), so an all-ASCII text is lowered character by
/// character. The Unicode mapping of other characters is not restated.
#[verifier::external_body]
pub(crate) fn to_lowercase(s: &str) -> (r: String)
    ensures
        r@ == lowercase_of(s@),
        all_ascii(s@) ==> r@ == ascii_lowered(s@),
{
    s.to_lowercase()
}

// ───────────────────────── executable helpers ─────────────────────────

/// The characters of `s`, in order.
pub fn chars_of(s: &str) -> (v: Vec<char>)
    ensures
        v@ == s@,
{
    let mut v: Vec<char> = Vec::new();
    for c in it: s.chars()
        invariant
            v@ == it.seq().take(it.index() as int),
    {
        v.push(c);
    }
    v
}

/// Whitespace test (`char::is_whitespace`).
pub fn char_is_whitespace(c: char) -> (b: bool)
    ensures
        b == is_whitespace(c),
{
    let u = c as u32;
    (0x09 <= u && u <= 0x0D) || u == 0x20 || u == 0x85 || u == 0xA0 || u == 0x1680 || (0x2000
        <= u && u <= 0x200A) || u == 0x2028 || u == 0x2029 || u == 0x202F || u == 0x205F || u
        == 0x3000
}

/// ASCII alphanumeric test.
pub fn char_is_ascii_alnum(c: char) -> (b: bool)
    ensures
        b == is_ascii_alnum(c),
{
    let u = c as u32;
    (0x30 <= u && u <= 0x39) || (0x41 <= u && u <= 0x5A) || (0x61 <= u && u <= 0x7A)
}

/// ASCII lowercase mapping of one character.
pub fn char_ascii_lower(c: char) -> (r: char)
    ensures
        r == ascii_lower(c),
{
    let u = c as u32;
    if 0x41 <= u && u <= 0x5A {
        let l: u32 = u + 32;
        proof {
            assert(0x61 <= l <= 0x7A);
        }
        char_from_ascii_code(l)
    } else {
        c
    }
}

fn char_from_ascii_code(u: u32) -> (c: char)
    requires
        u < 0x80,
    ensures
        c as u32 == u,
        c == u as char,
{
    let b: u8 = u as u8;
    b as char
}

pub fn strip_matches(m: &Strip, c: char) -> (b: bool)
    ensures
        b == strips(*m, c),
{
    match m {
        Strip::Whitespace => char_is_whitespace(c),
        Strip::Char(x) => c == *x,
    }
}

/// Element-wise equality of two character vectors.
pub fn seq_eq(a: &Vec<char>, b: &Vec<char>) -> (r: bool)
    ensures
        r == (a@ == b@),
{
    if a.len() != b.len() {
        return false;
    }
    let mut i: usize = 0;
    while i < a.len()
        invariant
            a.len() == b.len(),
            i <= a.len(),
            forall|k: int| 0 <= k < i ==> a@[k] == b@[k],
        decreases a.len() - i,
    {
        if a[i] != b[i] {
            return false;
        }
        i += 1;
    }
    assert(a@ =~= b@);
    true
}

/// Equality with a literal.
pub fn eq_str(a: &Vec<char>, lit: &str) -> (r: bool)
    ensures
        r == (a@ == lit@),
{
    let l = chars_of(lit);
    seq_eq(a, &l)
}

/// `eq_ignore_ascii_case`.
pub fn eq_ignore_case(a: &Vec<char>, b: &Vec<char>) -> (r: bool)
    ensures
        r == eq_ignore_ascii_case(a@, b@),
{
    if a.len() != b.len() {
        return false;
    }
    let mut i: usize = 0;
    while i < a.len()
        invariant
            a.len() == b.len(),
            i <= a.len(),
            forall|k: int| 0 <= k < i ==> ascii_lower(#[trigger] a@[k]) == ascii_lower(b@[k]),
        decreases a.len() - i,
    {
        if char_ascii_lower(a[i]) != char_ascii_lower(b[i]) {
            return false;
        }
        i += 1;
    }
    true
}

/// Whether `needle` occurs in `hay` at position `i`.
pub fn matches_at(hay: &Vec<char>, needle: &Vec<char>, i: usize) -> (r: bool)
    ensures
        r == occurs_at(hay@, needle@, i as int),
{
    if i > hay.len() || needle.len() > hay.len() - i {
        return false;
    }
    let mut k: usize = 0;
    while k < needle.len()
        invariant
            i + needle.len() <= hay.len(),
            k <= needle.len(),
            forall|j: int| 0 <= j < k ==> hay@[i + j] == needle@[j],
        decreases needle.len() - k,
    {
        if hay[i + k] != needle[k] {
            assert(hay@.subrange(i as int, i + needle.len())[k as int] != needle@[k as int]);
            return false;
        }
        k += 1;
    }
    assert(hay@.subrange(i as int, i + needle.len()) =~= needle@);
    true
}

/// The first position at which `needle` occurs in `hay`, if any.
pub fn find_seq(hay: &Vec<char>, needle: &Vec<char>) -> (r: Option<usize>)
    ensures
        match r {
            Some(i) => occurs_at(hay@, needle@, i as int) && forall|j: int|
                0 <= j < i ==> !occurs_at(hay@, needle@, j),
            None => !contains_seq(hay@, needle@),
        },
{
    if needle.len() > hay.len() {
        assert forall|j: int| !occurs_at(hay@, needle@, j) by {}
        return None;
    }
    let last: usize = hay.len() - needle.len();
    let mut i: usize = 0;
    loop
        invariant
            needle.len() <= hay.len(),
            last == hay.len() - needle.len(),
            i <= last,
            forall|j: int| 0 <= j < i ==> !occurs_at(hay@, needle@, j),
        ensures
            forall|j: int| 0 <= j <= last ==> !occurs_at(hay@, needle@, j),
        decreases last - i,
    {
        if matches_at(hay, needle, i) {
            return Some(i);
        }
        if i == last {
            break;
        }
        i += 1;
    }
    assert forall|j: int| !occurs_at(hay@, needle@, j) by {
        if 0 <= j <= last {
        }
    }
    None
}

/// `str::find` with a string pattern: the first position of `needle`.
pub open spec fn first_occurrence(hay: Seq<char>, needle: Seq<char>) -> Option<int> {
    if contains_seq(hay, needle) {
        Some(choose|i: int| occurs_at(hay, needle, i) && forall|j: int| 0 <= j < i ==> !occurs_at(hay, needle, j))
    } else {
        None
    }
}

/// The first position at which `needle` occurs in `hay`.
pub fn first_index_of(hay: &Vec<char>, needle: &Vec<char>) -> (r: Option<usize>)
    ensures
        match r {
            Some(i) => first_occurrence(hay@, needle@) == Some(i as int) && i + needle@.len() <= hay@.len(),
            None => first_occurrence(hay@, needle@) is None,
        },
{
    match find_seq(hay, needle) {
        Some(i) => {
            proof {
                let w = choose|k: int| occurs_at(hay@, needle@, k) && forall|j: int| 0 <= j < k ==> !occurs_at(hay@, needle@, j);
                assert(occurs_at(hay@, needle@, i as int));
                if w < i {
                } else if w > i {
                    assert(!occurs_at(hay@, needle@, i as int));
                }
                assert(w == i);
            }
            Some(i)
        },
        None => None,
    }
}

/// `str::contains`.
pub fn contains(hay: &Vec<char>, needle: &Vec<char>) -> (r: bool)
    ensures
        r == contains_seq(hay@, needle@),
{
    match find_seq(hay, needle) {
        Some(_) => true,
        None => false,
    }
}

/// `str::contains` with a literal pattern.
pub fn contains_str(hay: &Vec<char>, lit: &str) -> (r: bool)
    ensures
        r == contains_seq(hay@, lit@),
{
    let n = chars_of(lit);
    contains(hay, &n)
}

/// `str::starts_with`.
pub fn starts_with_seq(s: &Vec<char>, p: &Vec<char>) -> (r: bool)
    ensures
        r == starts_with(s@, p@),
{
    let r = matches_at(s, p, 0);
    proof {
        if p@.len() <= s@.len() {
            assert(s@.subrange(0, p@.len() as int) =~= s@.take(p@.len() as int));
        }
    }
    r
}

/// `str::starts_with` with a literal.
pub fn starts_with_str(s: &Vec<char>, lit: &str) -> (r: bool)
    ensures
        r == starts_with(s@, lit@),
{
    let p = chars_of(lit);
    starts_with_seq(s, &p)
}

/// `str::ends_with` with a literal.
pub fn ends_with_str(s: &Vec<char>, lit: &str) -> (r: bool)
    ensures
        r == ends_with(s@, lit@),
{
    let p = chars_of(lit);
    if p.len() > s.len() {
        return false;
    }
    let start = s.len() - p.len();
    let r = matches_at(s, &p, start);
    proof {
        assert(s@.subrange(start as int, start + p@.len()) =~= s@.skip(s@.len() - p@.len()));
    }
    r
}

/// `s[from..to]` as a new vector.
pub fn slice(s: &Vec<char>, from: usize, to: usize) -> (r: Vec<char>)
    requires
        from <= to <= s.len(),
    ensures
        r@ == s@.subrange(from as int, to as int),
{
    let mut r: Vec<char> = Vec::new();
    let mut i: usize = from;
    while i < to
        invariant
            from <= i <= to <= s.len(),
            r@ == s@.subrange(from as int, i as int),
        decreases to - i,
    {
        r.push(s[i]);
        i += 1;
        assert(r@ =~= s@.subrange(from as int, i as int));
    }
    r
}

/// Appends all of `b` to `a`.
pub fn append(a: &mut Vec<char>, b: &Vec<char>)
    ensures
        final(a)@ == old(a)@ + b@,
{
    let mut i: usize = 0;
    while i < b.len()
        invariant
            i <= b.len(),
            a@ == old(a)@ + b@.take(i as int),
        decreases b.len() - i,
    {
        a.push(b[i]);
        i += 1;
        assert(a@ =~= old(a)@ + b@.take(i as int));
    }
    assert(b@.take(b@.len() as int) =~= b@);
}

/// Appends a literal to `a`.
pub fn append_str(a: &mut Vec<char>, lit: &str)
    ensures
        final(a)@ == old(a)@ + lit@,
{
    let b = chars_of(lit);
    append(a, &b);
}

proof fn lemma_trim_start(s: Seq<char>, m: Strip, i: int)
    requires
        0 <= i <= s.len(),
        forall|k: int| 0 <= k < i ==> strips(m, #[trigger] s[k]),
        i == s.len() || !strips(m, s[i]),
    ensures
        trim_start_by(s, m) == s.skip(i),
    decreases i,
{
    if i > 0 {
        let t = s.drop_first();
        assert forall|k: int| 0 <= k < i - 1 implies strips(m, #[trigger] t[k]) by {
            assert(t[k] == s[k + 1]);
        }
        lemma_trim_start(t, m, i - 1);
        assert(t.skip(i - 1) =~= s.skip(i));
    } else {
        assert(s.skip(0) =~= s);
    }
}

proof fn lemma_trim_end(s: Seq<char>, m: Strip, j: int)
    requires
        0 <= j <= s.len(),
        forall|k: int| j <= k < s.len() ==> strips(m, #[trigger] s[k]),
        j == 0 || !strips(m, s[j - 1]),
    ensures
        trim_end_by(s, m) == s.take(j),
    decreases s.len() - j,
{
    if j < s.len() {
        let t = s.drop_last();
        assert forall|k: int| j <= k < t.len() implies strips(m, #[trigger] t[k]) by {
            assert(t[k] == s[k]);
        }
        assert(strips(m, s.last()));
        lemma_trim_end(t, m, j);
        assert(t.take(j) =~= s.take(j));
    } else {
        assert(s.take(j) =~= s);
    }
}

/// `trim_start` / `trim_start_matches` on a character vector.
pub fn trim_start_vec(s: &Vec<char>, m: &Strip) -> (r: Vec<char>)
    ensures
        r@ == trim_start_by(s@, *m),
{
    let mut i: usize = 0;
    while i < s.len() && strip_matches(m, s[i])
        invariant
            i <= s.len(),
            forall|k: int| 0 <= k < i ==> strips(*m, #[trigger] s@[k]),
        decreases s.len() - i,
    {
        i += 1;
    }
    proof {
        lemma_trim_start(s@, *m, i as int);
        assert(s@.subrange(i as int, s@.len() as int) =~= s@.skip(i as int));
    }
    slice(s, i, s.len())
}

/// `trim_end` / `trim_end_matches` on a character vector.
pub fn trim_end_vec(s: &Vec<char>, m: &Strip) -> (r: Vec<char>)
    ensures
        r@ == trim_end_by(s@, *m),
{
    let mut j: usize = s.len();
    while j > 0 && strip_matches(m, s[j - 1])
        invariant
            j <= s.len(),
            forall|k: int| j <= k < s.len() ==> strips(*m, #[trigger] s@[k]),
        decreases j,
    {
        j -= 1;
    }
    proof {
        lemma_trim_end(s@, *m, j as int);
        assert(s@.subrange(0, j as int) =~= s@.take(j as int));
    }
    slice(s, 0, j)
}

/// `trim` / `trim_matches` on a character vector.
pub fn trim_vec(s: &Vec<char>, m: &Strip) -> (r: Vec<char>)
    ensures
        r@ == trim_by(s@, *m),
{
    let a = trim_start_vec(s, m);
    trim_end_vec(&a, m)
}

/// `str::trim` on a character vector.
pub fn trim_ws(s: &Vec<char>) -> (r: Vec<char>)
    ensures
        r@ == trim(s@),
{
    trim_vec(s, &Strip::Whitespace)
}

/// The first `max` characters plus `...` when longer than `max`.
pub fn truncate_chars(s: &Vec<char>, max: usize) -> (r: Vec<char>)
    ensures
        r@ == truncate_with_ellipsis(s@, max as nat),
{
    if s.len() > max {
        let mut r = slice(s, 0, max);
        r.push('.');
        r.push('.');
        r.push('.');
        assert(s@.subrange(0, max as int) =~= s@.take(max as int));
        assert(r@ =~= s@.take(max as int) + ellipsis());
        r
    } else {
        slice_all(s)
    }
}

/// A copy of `s`.
pub fn slice_all(s: &Vec<char>) -> (r: Vec<char>)
    ensures
        r@ == s@,
{
    let r = slice(s, 0, s.len());
    assert(s@.subrange(0, s@.len() as int) =~= s@);
    r
}

proof fn lemma_replace_step(s: Seq<char>, from: Seq<char>, to: Seq<char>, i: int)
    requires
        from.len() > 0,
        0 <= i <= s.len(),
    ensures
        i < s.len() && starts_with(s.skip(i), from) ==> replace_all(s.skip(i), from, to) == to
            + replace_all(s.skip(i + from.len()), from, to),
        i < s.len() && !starts_with(s.skip(i), from) ==> replace_all(s.skip(i), from, to)
            == seq![s[i]] + replace_all(s.skip(i + 1), from, to),
{
    if i < s.len() {
        let t = s.skip(i);
        if starts_with(t, from) {
            assert(t.skip(from.len() as int) =~= s.skip(i + from.len()));
        } else {
            assert(t.drop_first() =~= s.skip(i + 1));
        }
    }
}

/// `str::replace` for a non-empty pattern.
pub fn replace(s: &Vec<char>, from: &Vec<char>, to: &Vec<char>) -> (r: Vec<char>)
    requires
        from.len() > 0,
    ensures
        r@ == replace_all(s@, from@, to@),
{
    let mut out: Vec<char> = Vec::new();
    let mut i: usize = 0;
    assert(s@.skip(0) =~= s@);
    assert(out@ + replace_all(s@, from@, to@) =~= replace_all(s@, from@, to@));
    while i < s.len()
        invariant
            from.len() > 0,
            i <= s.len(),
            out@ + replace_all(s@.skip(i as int), from@, to@) == replace_all(s@, from@, to@),
        decreases s.len() - i,
    {
        let ghost old_out = out@;
        proof {
            lemma_replace_step(s@, from@, to@, i as int);
        }
        if matches_at(s, from, i) {
            assert(s@.skip(i as int).take(from@.len() as int) =~= s@.subrange(
                i as int,
                i + from@.len(),
            ));
            append(&mut out, to);
            i += from.len();
            assert(out@ =~= old_out + to@);
        } else {
            proof {
                if starts_with(s@.skip(i as int), from@) {
                    assert(s@.skip(i as int).take(from@.len() as int) =~= s@.subrange(
                        i as int,
                        i + from@.len(),
                    ));
                }
            }
            out.push(s[i]);
            i += 1;
            assert(out@ =~= old_out + seq![s@[i - 1]]);
        }
    }
    assert(s@.skip(i as int) =~= Seq::<char>::empty());
    assert(out@ + Seq::<char>::empty() =~= out@);
    out
}

/// `str::replace` with literal pattern and replacement.
pub fn replace_str(s: &Vec<char>, from: &str, to: &str) -> (r: Vec<char>)
    requires
        from@.len() > 0,
    ensures
        r@ == replace_all(s@, from@, to@),
{
    let f = chars_of(from);
    let t = chars_of(to);
    replace(s, &f, &t)
}


// ───────────────────────── splitting and formatting ─────────────────────────

/// `str::replacen(from, to, 1)` for a non-empty pattern: the first
/// occurrence of `from` is replaced by `to`.
pub open spec fn replace_first(s: Seq<char>, from: Seq<char>, to: Seq<char>) -> Seq<char>
    decreases s.len(),
{
    if from.len() == 0 || s.len() == 0 {
        s
    } else if starts_with(s, from) {
        to + s.skip(from.len() as int)
    } else {
        seq![s[0]] + replace_first(s.drop_first(), from, to)
    }
}

/// `str::split(c)`: the pieces between occurrences of `c` (always at least one).
pub open spec fn split_char(s: Seq<char>, c: char) -> Seq<Seq<char>>
    decreases s.len(),
{
    if s.len() == 0 {
        seq![Seq::empty()]
    } else {
        let init = split_char(s.drop_last(), c);
        if s.last() == c {
            init.push(Seq::empty())
        } else {
            init.update(init.len() - 1, init.last().push(s.last()))
        }
    }
}

/// Words found so far and the word being read, scanning left to right.
pub open spec fn words_acc(s: Seq<char>) -> (Seq<Seq<char>>, Seq<char>)
    decreases s.len(),
{
    if s.len() == 0 {
        (Seq::empty(), Seq::empty())
    } else {
        let (done, cur) = words_acc(s.drop_last());
        if is_whitespace(s.last()) {
            if cur.len() > 0 {
                (done.push(cur), Seq::empty())
            } else {
                (done, Seq::empty())
            }
        } else {
            (done, cur.push(s.last()))
        }
    }
}

/// `str::split_whitespace`: the maximal runs of non-whitespace characters.
pub open spec fn words(s: Seq<char>) -> Seq<Seq<char>> {
    let (done, cur) = words_acc(s);
    if cur.len() > 0 {
        done.push(cur)
    } else {
        done
    }
}

/// `str::lines().next()` on a string: everything before the first `\n`
/// (with a `\r` right before it removed), or the whole string.
pub open spec fn first_line(s: Seq<char>) -> Seq<char> {
    if exists|i: int| 0 <= i < s.len() && s[i] == '\n' {
        let i = choose|i: int| 0 <= i < s.len() && s[i] == '\n' && forall|j: int| 0 <= j < i ==> s[j] != '\n';
        let l = s.take(i);
        if l.len() > 0 && l.last() == '\r' {
            l.drop_last()
        } else {
            l
        }
    } else {
        s
    }
}

/// Decimal digits of a natural number.
pub open spec fn decimal(n: nat) -> Seq<char>
    decreases n,
{
    if n < 10 {
        seq![(0x30 + n) as char]
    } else {
        decimal(n / 10).push((0x30 + n % 10) as char)
    }
}

/// Decimal rendering of a signed integer (`-` before negatives).
pub open spec fn decimal_int(n: int) -> Seq<char> {
    if n < 0 {
        seq!['-'] + decimal((-n) as nat)
    } else {
        decimal(n as nat)
    }
}

/// The value of a string of ASCII decimal digits.
pub open spec fn digits_value(s: Seq<char>) -> nat
    decreases s.len(),
{
    if s.len() == 0 {
        0
    } else {
        digits_value(s.drop_last()) * 10 + ((s.last() as u32) - 0x30) as nat
    }
}

pub open spec fn is_digit(c: char) -> bool {
    0x30 <= (c as u32) <= 0x39
}

pub open spec fn all_digits(s: Seq<char>) -> bool {
    forall|i: int| 0 <= i < s.len() ==> is_digit(#[trigger] s[i])
}

/// Contains one of the given literal patterns.
pub open spec fn contains_any(hay: Seq<char>, pats: Seq<&str>) -> bool {
    exists|i: int| 0 <= i < pats.len() && contains_seq(hay, #[trigger] pats[i]@)
}

/// Equal to one of the given literals.
pub open spec fn is_one_of(s: Seq<char>, pats: Seq<&str>) -> bool {
    exists|i: int| 0 <= i < pats.len() && s == (#[trigger] pats[i])@
}

/// `str::replacen(from, to, 1)` with literal pattern and replacement.
pub fn replace_first_str(s: &Vec<char>, from: &str, to: &str) -> (r: Vec<char>)
    requires
        from@.len() > 0,
    ensures
        r@ == replace_first(s@, from@, to@),
{
    let t = chars_of(to);
    fill_placeholder(s, from, &t)
}

/// `str::replacen(from, to, 1)` on a `String`, with literal pattern and a
/// replacement given as characters.
pub fn fill_placeholder(s: &Vec<char>, from: &str, to: &Vec<char>) -> (r: Vec<char>)
    requires
        from@.len() > 0,
    ensures
        r@ == replace_first(s@, from@, to@),
{
    let f = chars_of(from);
    let mut i: usize = 0;
    assert(s@.skip(0) =~= s@);
    assert(s@.take(0) + replace_first(s@, f@, to@) =~= replace_first(s@, f@, to@));
    while i < s.len()
        invariant
            f@ == from@,
            f@.len() > 0,
            i <= s.len(),
            replace_first(s@, f@, to@) == s@.take(i as int) + replace_first(s@.skip(i as int), f@, to@),
        decreases s.len() - i,
    {
        let ghost rest = s@.skip(i as int);
        if matches_at(s, &f, i) {
            assert(rest.take(f@.len() as int) =~= s@.subrange(i as int, i + f@.len()));
            assert(starts_with(rest, f@));
            let mut out = slice(s, 0, i);
            append(&mut out, to);
            let tail = slice(s, i + f.len(), s.len());
            append(&mut out, &tail);
            assert(s@.subrange(0, i as int) =~= s@.take(i as int));
            assert(rest.skip(f@.len() as int) =~= s@.subrange(i + f@.len(), s@.len() as int));
            assert(out@ =~= s@.take(i as int) + (to@ + rest.skip(f@.len() as int)));
            return out;
        }
        proof {
            if starts_with(rest, f@) {
                assert(rest.take(f@.len() as int) =~= s@.subrange(i as int, i + f@.len()));
            }
            assert(rest.drop_first() =~= s@.skip(i + 1));
            assert(s@.take(i as int) + (seq![rest[0]] + replace_first(rest.drop_first(), f@, to@))
                =~= s@.take(i + 1) + replace_first(s@.skip(i + 1), f@, to@));
        }
        i += 1;
    }
    proof {
        assert(s@.skip(i as int) =~= Seq::<char>::empty());
        assert(s@.take(i as int) =~= s@);
    }
    slice_all(s)
}

/// Whether the text contains one of the given literals.
pub fn contains_any_of(hay: &Vec<char>, pats: &[&str]) -> (r: bool)
    ensures
        r == contains_any(hay@, pats@),
{
    let mut i: usize = 0;
    while i < pats.len()
        invariant
            i <= pats@.len(),
            forall|k: int| 0 <= k < i ==> !contains_seq(hay@, #[trigger] pats@[k]@),
        decreases pats.len() - i,
    {
        if contains_str(hay, pats[i]) {
            return true;
        }
        i += 1;
    }
    false
}

/// Whether the text equals one of the given literals.
pub fn one_of(s: &Vec<char>, pats: &[&str]) -> (r: bool)
    ensures
        r == is_one_of(s@, pats@),
{
    let mut i: usize = 0;
    while i < pats.len()
        invariant
            i <= pats@.len(),
            forall|k: int| 0 <= k < i ==> s@ != (#[trigger] pats@[k])@,
        decreases pats.len() - i,
    {
        if eq_str(s, pats[i]) {
            return true;
        }
        i += 1;
    }
    false
}

proof fn lemma_split_step(s: Seq<char>, c: char, i: int)
    requires
        0 <= i < s.len(),
    ensures
        s.take(i + 1).drop_last() == s.take(i),
        s.take(i + 1).last() == s[i],
{
    assert(s.take(i + 1).drop_last() =~= s.take(i));
}

/// `str::split` with a non-empty string pattern: the pieces between the
/// non-overlapping occurrences of `sep`, scanned left to right.
pub open spec fn split_str(s: Seq<char>, sep: Seq<char>) -> Seq<Seq<char>>
    decreases s.len(),
{
    if sep.len() == 0 || s.len() == 0 {
        seq![s]
    } else if starts_with(s, sep) {
        seq![Seq::<char>::empty()] + split_str(s.skip(sep.len() as int), sep)
    } else {
        let rest = split_str(s.drop_first(), sep);
        rest.update(0, seq![s[0]] + rest[0])
    }
}

proof fn lemma_split_str_nonempty(s: Seq<char>, sep: Seq<char>)
    ensures
        split_str(s, sep).len() >= 1,
    decreases s.len(),
{
    if sep.len() > 0 && s.len() > 0 {
        if starts_with(s, sep) {
            lemma_split_str_nonempty(s.skip(sep.len() as int), sep);
        } else {
            lemma_split_str_nonempty(s.drop_first(), sep);
        }
    }
}

/// The pieces of `split_str(s.skip(i))` with `cur` put in front of the first.
pub open spec fn split_rest(s: Seq<char>, sep: Seq<char>, i: int, cur: Seq<char>) -> Seq<Seq<char>> {
    let r = split_str(s.skip(i), sep);
    r.update(0, cur + r[0])
}

/// `str::split` with a non-empty string pattern, collected into character
/// vectors.
pub fn split_by_str(s: &Vec<char>, sep: &Vec<char>) -> (r: Vec<Vec<char>>)
    requires
        sep@.len() > 0,
    ensures
        r@.len() == split_str(s@, sep@).len(),
        forall|k: int| 0 <= k < r@.len() ==> (#[trigger] r@[k])@ == split_str(s@, sep@)[k],
{
    let mut parts: Vec<Vec<char>> = Vec::new();
    let mut cur: Vec<char> = Vec::new();
    let mut i: usize = 0;
    let ghost full = split_str(s@, sep@);
    proof {
        lemma_split_str_nonempty(s@, sep@);
        assert(s@.skip(0) =~= s@);
        assert(split_rest(s@, sep@, 0, cur@) =~= full);
    }
    while i < s.len()
        invariant
            sep@.len() > 0,
            i <= s@.len(),
            full == split_str(s@, sep@),
            full.len() == parts@.len() + split_rest(s@, sep@, i as int, cur@).len(),
            forall|k: int| 0 <= k < parts@.len() ==> (#[trigger] parts@[k])@ == full[k],
            forall|k: int| parts@.len() <= k < full.len() ==> #[trigger] full[k]
                == split_rest(s@, sep@, i as int, cur@)[k - parts@.len()],
        decreases s@.len() - i,
    {
        let ghost t = s@.skip(i as int);
        let ghost old_rest = split_rest(s@, sep@, i as int, cur@);
        let ghost old_len = parts@.len();
        if matches_at(s, sep, i) {
            proof {
                assert(t.take(sep@.len() as int) =~= s@.subrange(i as int, i + sep@.len()));
                assert(t.skip(sep@.len() as int) =~= s@.skip(i + sep@.len()));
                lemma_split_str_nonempty(s@.skip(i + sep@.len()), sep@);
                let r2 = split_str(s@.skip(i + sep@.len()), sep@);
                assert(old_rest =~= seq![cur@].add(r2));
                assert(split_rest(s@, sep@, i + sep@.len(), Seq::<char>::empty()) =~= r2);
            }
            let piece = slice_all(&cur);
            parts.push(piece);
            cur = Vec::new();
            i += sep.len();
            proof {
                assert forall|k: int| 0 <= k < parts@.len() implies (#[trigger] parts@[k])@ == full[k] by {
                    if k == old_len {
                        assert(full[k] == old_rest[0]);
                    }
                }
                assert forall|k: int| parts@.len() <= k < full.len() implies #[trigger] full[k]
                    == split_rest(s@, sep@, i as int, cur@)[k - parts@.len()] by {
                    assert(full[k] == old_rest[k - old_len]);
                }
            }
        } else {
            proof {
                if starts_with(t, sep@) {
                    assert(t.take(sep@.len() as int) =~= s@.subrange(i as int, i + sep@.len()));
                }
                assert(t.drop_first() =~= s@.skip(i + 1));
                lemma_split_str_nonempty(s@.skip(i + 1), sep@);
                let r2 = split_str(s@.skip(i + 1), sep@);
                assert(split_rest(s@, sep@, i + 1, cur@.push(s@[i as int])) =~= old_rest) by {
                    assert(cur@ + (seq![s@[i as int]] + r2[0]) =~= cur@.push(s@[i as int]) + r2[0]);
                }
            }
            cur.push(s[i]);
            i += 1;
        }
    }
    proof {
        assert(s@.skip(i as int) =~= Seq::<char>::empty());
        assert(split_rest(s@, sep@, i as int, cur@) =~= seq![cur@]);
        assert(full[parts@.len() as int] == cur@);
    }
    let ghost before = parts@.len();
    let last = slice_all(&cur);
    parts.push(last);
    proof {
        assert forall|k: int| 0 <= k < parts@.len() implies (#[trigger] parts@[k])@ == full[k] by {
            if k == before {
                assert(parts@[k]@ == cur@);
            }
        }
    }
    parts
}

/// `str::split(c)` collected into character vectors.
pub fn split_on(s: &Vec<char>, c: char) -> (r: Vec<Vec<char>>)
    ensures
        r@.len() == split_char(s@, c).len(),
        forall|k: int| 0 <= k < r@.len() ==> (#[trigger] r@[k])@ == split_char(s@, c)[k],
{
    let mut parts: Vec<Vec<char>> = Vec::new();
    let mut cur: Vec<char> = Vec::new();
    let mut i: usize = 0;
    assert(s@.take(0) =~= Seq::<char>::empty());
    while i < s.len()
        invariant
            i <= s.len(),
            parts@.len() + 1 == split_char(s@.take(i as int), c).len(),
            forall|k: int| 0 <= k < parts@.len() ==> (#[trigger] parts@[k])@ == split_char(s@.take(i as int), c)[k],
            cur@ == split_char(s@.take(i as int), c).last(),
        decreases s.len() - i,
    {
        proof {
            lemma_split_step(s@, c, i as int);
        }
        if s[i] == c {
            let done = cur;
            parts.push(done);
            cur = Vec::new();
        } else {
            cur.push(s[i]);
        }
        i += 1;
    }
    assert(s@.take(i as int) =~= s@);
    parts.push(cur);
    parts
}

/// `str::split_whitespace` collected into character vectors.
pub fn split_words(s: &Vec<char>) -> (r: Vec<Vec<char>>)
    ensures
        r@.len() == words(s@).len(),
        forall|k: int| 0 <= k < r@.len() ==> (#[trigger] r@[k])@ == words(s@)[k],
{
    let mut parts: Vec<Vec<char>> = Vec::new();
    let mut cur: Vec<char> = Vec::new();
    let mut i: usize = 0;
    assert(s@.take(0) =~= Seq::<char>::empty());
    while i < s.len()
        invariant
            i <= s.len(),
            parts@.len() == words_acc(s@.take(i as int)).0.len(),
            forall|k: int| 0 <= k < parts@.len() ==> (#[trigger] parts@[k])@ == words_acc(s@.take(i as int)).0[k],
            cur@ == words_acc(s@.take(i as int)).1,
        decreases s.len() - i,
    {
        proof {
            lemma_split_step(s@, ' ', i as int);
        }
        if char_is_whitespace(s[i]) {
            if cur.len() > 0 {
                let done = cur;
                parts.push(done);
                cur = Vec::new();
            }
        } else {
            cur.push(s[i]);
        }
        i += 1;
    }
    assert(s@.take(i as int) =~= s@);
    if cur.len() > 0 {
        parts.push(cur);
    }
    parts
}

/// `str::lines().next()`, or the whole text when it has no line break.
pub fn first_line_of(s: &Vec<char>) -> (r: Vec<char>)
    ensures
        r@ == first_line(s@),
{
    let mut i: usize = 0;
    while i < s.len() && s[i] != '\n'
        invariant
            i <= s.len(),
            forall|j: int| 0 <= j < i ==> s@[j] != '\n',
        decreases s.len() - i,
    {
        i += 1;
    }
    if i == s.len() {
        return slice_all(s);
    }
    proof {
        let w = choose|k: int| 0 <= k < s@.len() && s@[k] == '\n' && forall|j: int| 0 <= j < k ==> s@[j] != '\n';
        assert(0 <= i < s@.len() && s@[i as int] == '\n' && forall|j: int| 0 <= j < i ==> s@[j] != '\n');
        if w < i {
        } else if w > i {
            assert(s@[i as int] != '\n');
        }
        assert(w == i);
    }
    let l = slice(s, 0, i);
    assert(l@ =~= s@.take(i as int));
    if l.len() > 0 && l[l.len() - 1] == '\r' {
        let r = slice(&l, 0, l.len() - 1);
        assert(r@ =~= l@.drop_last());
        r
    } else {
        l
    }
}

/// Decimal digits of an unsigned integer.
pub fn decimal_chars(n: u64) -> (r: Vec<char>)
    ensures
        r@ == decimal(n as nat),
    decreases n,
{
    let d: u64 = n % 10;
    let c = digit_char(d);
    if n < 10 {
        let mut r: Vec<char> = Vec::new();
        r.push(c);
        assert(r@ =~= seq![c]);
        r
    } else {
        let mut r = decimal_chars(n / 10);
        r.push(c);
        r
    }
}

fn digit_char(d: u64) -> (c: char)
    requires
        d < 10,
    ensures
        c == (0x30 + d) as char,
{
    let b: u8 = (0x30 + d) as u8;
    b as char
}

/// Decimal rendering of a signed integer.
pub fn decimal_chars_i64(n: i64) -> (r: Vec<char>)
    ensures
        r@ == decimal_int(n as int),
{
    if n < 0 {
        let m: u64 = if n == i64::MIN {
            9223372036854775808u64
        } else {
            (-n) as u64
        };
        let mut r: Vec<char> = Vec::new();
        r.push('-');
        let d = decimal_chars(m);
        append(&mut r, &d);
        r
    } else {
        decimal_chars(n as u64)
    }
}

/// `u64::to_string`.
pub fn u64_to_string(n: u64) -> (s: String)
    ensures
        s@ == decimal(n as nat),
{
    string_from_chars(decimal_chars(n))
}

/// The value of a non-empty all-digit string, if it is at most `limit`.
pub fn parse_digits(s: &Vec<char>, limit: u64) -> (r: Option<u64>)
    ensures
        match r {
            Some(v) => all_digits(s@) && s@.len() > 0 && v == digits_value(s@) && v <= limit,
            None => !(all_digits(s@) && s@.len() > 0 && digits_value(s@) <= limit),
        },
{
    if s.len() == 0 {
        return None;
    }
    let mut v: u64 = 0;
    let mut i: usize = 0;
    let max: u64 = limit;
    while i < s.len()
        invariant
            i <= s.len(),
            all_digits(s@.take(i as int)),
            v == digits_value(s@.take(i as int)),
            v <= max,
            max == limit,
        decreases s.len() - i,
    {
        let c = s[i];
        proof {
            assert(s@.take(i + 1).drop_last() =~= s@.take(i as int));
        }
        let u = c as u32;
        if u < 0x30 || u > 0x39 {
            proof {
                assert(!is_digit(s@[i as int]));
            }
            return None;
        }
        let d: u64 = (u - 0x30) as u64;
        if d > max || v > (max - d) / 10 {
            proof {
                lemma_digits_value_prefix(s@, (i + 1) as int);
                assert(digits_value(s@.take(i + 1)) == v * 10 + d);
                if d <= max {
                    assert(v * 10 + d > max) by (nonlinear_arith)
                        requires v > (max - d) / 10, d < 10, max - d >= 0;
                }
                if all_digits(s@) {
                    lemma_digits_value_mono(s@, (i + 1) as int);
                }
            }
            return None;
        }
        proof {
            assert(v * 10 + d <= max) by (nonlinear_arith)
                requires v <= (max - d) / 10, d < 10, max - d >= 0;
        }
        v = v * 10 + d;
        i += 1;
        proof {
            assert(all_digits(s@.take(i as int))) by {
                assert forall|k: int| 0 <= k < i implies is_digit(#[trigger] s@.take(i as int)[k]) by {
                    if k < i - 1 {
                        assert(s@.take(i as int)[k] == s@.take(i - 1)[k]);
                    }
                }
            }
        }
    }
    assert(s@.take(i as int) =~= s@);
    Some(v)
}

proof fn lemma_digits_value_prefix(s: Seq<char>, i: int)
    requires
        0 < i <= s.len(),
    ensures
        digits_value(s.take(i)) == digits_value(s.take(i - 1)) * 10 + ((s[i - 1] as u32) - 0x30) as nat,
{
    assert(s.take(i).drop_last() =~= s.take(i - 1));
}

proof fn lemma_digits_value_mono(s: Seq<char>, i: int)
    requires
        0 <= i <= s.len(),
        all_digits(s),
    ensures
        digits_value(s.take(i)) <= digits_value(s),
    decreases s.len() - i,
{
    if i < s.len() {
        lemma_digits_value_mono(s, i + 1);
        lemma_digits_value_prefix(s, i + 1);
        assert(is_digit(s[i]));
    } else {
        assert(s.take(i) =~= s);
    }
}


/// Position of the first `c` (`str::find` with a char pattern, counted in chars).
pub open spec fn find_first(s: Seq<char>, c: char) -> Option<int>
    decreases s.len(),
{
    if s.len() == 0 {
        None
    } else {
        match find_first(s.drop_last(), c) {
            Some(i) => Some(i),
            None => if s.last() == c {
                Some(s.len() - 1)
            } else {
                None
            },
        }
    }
}

/// Position of the last `c` (`str::rfind` with a char pattern, counted in chars).
pub open spec fn find_last(s: Seq<char>, c: char) -> Option<int>
    decreases s.len(),
{
    if s.len() == 0 {
        None
    } else if s.last() == c {
        Some(s.len() - 1)
    } else {
        find_last(s.drop_last(), c)
    }
}

/// Number of UTF-8 bytes of a character.
pub open spec fn utf8_width(c: char) -> nat {
    let u = c as u32;
    if u < 0x80 {
        1
    } else if u < 0x800 {
        2
    } else if u < 0x10000 {
        3
    } else {
        4
    }
}

/// Number of UTF-8 bytes of a character sequence (`str::len`).
pub open spec fn utf8_len(s: Seq<char>) -> nat
    decreases s.len(),
{
    if s.len() == 0 {
        0
    } else {
        utf8_len(s.drop_last()) + utf8_width(s.last())
    }
}

pub fn find_char(s: &Vec<char>, c: char) -> (r: Option<usize>)
    ensures
        match r {
            Some(i) => i < s@.len() && find_first(s@, c) == Some(i as int),
            None => find_first(s@, c) is None,
        },
{
    let mut i: usize = 0;
    assert(s@.take(0) =~= Seq::<char>::empty());
    while i < s.len()
        invariant
            i <= s.len(),
            find_first(s@.take(i as int), c) is None,
        decreases s.len() - i,
    {
        assert(s@.take(i + 1).drop_last() =~= s@.take(i as int));
        if s[i] == c {
            assert(find_first(s@.take(i + 1), c) == Some(i as int));
            proof {
                lemma_find_first_extend(s@, c, (i + 1) as int);
            }
            return Some(i);
        }
        i += 1;
    }
    assert(s@.take(i as int) =~= s@);
    None
}

proof fn lemma_find_first_extend(s: Seq<char>, c: char, k: int)
    requires
        0 <= k <= s.len(),
        find_first(s.take(k), c) is Some,
    ensures
        find_first(s, c) == find_first(s.take(k), c),
    decreases s.len() - k,
{
    if k < s.len() {
        assert(s.take(k + 1).drop_last() =~= s.take(k));
        lemma_find_first_extend(s, c, k + 1);
    } else {
        assert(s.take(k) =~= s);
    }
}

pub fn rfind_char(s: &Vec<char>, c: char) -> (r: Option<usize>)
    ensures
        match r {
            Some(i) => i < s@.len() && find_last(s@, c) == Some(i as int),
            None => find_last(s@, c) is None,
        },
{
    let mut j: usize = s.len();
    assert(s@.take(s@.len() as int) =~= s@);
    while j > 0
        invariant
            j <= s.len(),
            find_last(s@, c) == find_last(s@.take(j as int), c),
        decreases j,
    {
        assert(s@.take(j as int).drop_last() =~= s@.take(j - 1));
        if s[j - 1] == c {
            return Some(j - 1);
        }
        j -= 1;
    }
    None
}

/// `str::len` of a character sequence, in UTF-8 bytes (saturating at `usize::MAX`).
pub fn utf8_len_of(s: &Vec<char>) -> (n: usize)
    ensures
        n == if utf8_len(s@) <= usize::MAX { utf8_len(s@) } else { usize::MAX as nat },
{
    let mut n: usize = 0;
    let mut i: usize = 0;
    assert(s@.take(0) =~= Seq::<char>::empty());
    while i < s.len()
        invariant
            i <= s.len(),
            n == if utf8_len(s@.take(i as int)) <= usize::MAX { utf8_len(s@.take(i as int)) } else { usize::MAX as nat },
        decreases s.len() - i,
    {
        assert(s@.take(i + 1).drop_last() =~= s@.take(i as int));
        let u = s[i] as u32;
        let w: usize = if u < 0x80 {
            1
        } else if u < 0x800 {
            2
        } else if u < 0x10000 {
            3
        } else {
            4
        };
        if n > usize::MAX - w {
            n = usize::MAX;
        } else {
            n = n + w;
        }
        i += 1;
    }
    assert(s@.take(i as int) =~= s@);
    n
}

/// `str::split` yields at least one piece.
pub proof fn lemma_split_nonempty(s: Seq<char>, c: char)
    ensures
        split_char(s, c).len() >= 1,
    decreases s.len(),
{
    if s.len() > 0 {
        lemma_split_nonempty(s.drop_last(), c);
    }
}

/// A text without the separator is a single piece.
pub proof fn lemma_split_without_sep(s: Seq<char>, c: char)
    requires
        !s.contains(c),
    ensures
        split_char(s, c) == seq![s],
    decreases s.len(),
{
    if s.len() > 0 {
        assert(!s.drop_last().contains(c)) by {
            if s.drop_last().contains(c) {
                let k = choose|k: int| 0 <= k < s.drop_last().len() && s.drop_last()[k] == c;
                assert(s[k] == c);
            }
        }
        lemma_split_without_sep(s.drop_last(), c);
        assert(s.last() != c) by {
            assert(s[s.len() - 1] == s.last());
        }
        assert(s.drop_last().push(s.last()) =~= s);
        assert(split_char(s, c) =~= seq![s]);
    } else {
        assert(s =~= Seq::<char>::empty());
    }
}

/// Splitting around one separator splits each side on its own.
pub proof fn lemma_split_concat(x: Seq<char>, y: Seq<char>, c: char)
    ensures
        split_char(x + seq![c] + y, c) == split_char(x, c) + split_char(y, c),
    decreases y.len(),
{
    let s = x + seq![c] + y;
    if y.len() == 0 {
        assert(s.drop_last() =~= x);
        assert(s.last() == c);
        assert(y =~= Seq::<char>::empty());
        assert(split_char(s, c) =~= split_char(x, c) + split_char(y, c));
    } else {
        let y0 = y.drop_last();
        assert(s.drop_last() =~= x + seq![c] + y0);
        assert(s.last() == y.last());
        lemma_split_concat(x, y0, c);
        lemma_split_nonempty(y0, c);
        lemma_split_nonempty(x, c);
        let a = split_char(x, c);
        let b = split_char(y0, c);
        if y.last() == c {
            assert(split_char(s, c) =~= a + b.push(Seq::empty()));
        } else {
            assert((a + b).last() == b.last());
            assert((a + b).update((a + b).len() - 1, b.last().push(y.last())) =~= a + b.update(b.len() - 1, b.last().push(y.last())));
        }
        assert(split_char(s, c) =~= split_char(x, c) + split_char(y, c));
    }
}

/// The first `c` of `x + [c] + y`, when `x` has none, is right after `x`.
pub proof fn lemma_find_first_after(x: Seq<char>, y: Seq<char>, c: char)
    requires
        !x.contains(c),
    ensures
        find_first(x, c) is None,
        find_first(x + seq![c] + y, c) == Some(x.len() as int),
    decreases x.len(),
{
    if x.len() > 0 {
        assert(!x.drop_last().contains(c)) by {
            if x.drop_last().contains(c) {
                let k = choose|k: int| 0 <= k < x.drop_last().len() && x.drop_last()[k] == c;
                assert(x[k] == c);
            }
        }
        lemma_find_first_after(x.drop_last(), y, c);
        assert(x.last() != c) by {
            assert(x[x.len() - 1] == x.last());
        }
    }
    let s = x + seq![c] + y;
    let k = x.len() + 1int;
    assert(s.take(k).drop_last() =~= x);
    assert(s.take(k).last() == c);
    lemma_find_first_extend(s, c, k);
}

/// The decimal rendering of a number reads back as that number.
pub proof fn lemma_decimal_reads_back(n: nat)
    ensures
        decimal(n).len() > 0,
        all_digits(decimal(n)),
        digits_value(decimal(n)) == n,
    decreases n,
{
    if n >= 10 {
        lemma_decimal_reads_back(n / 10);
        let d = decimal(n);
        assert(d.drop_last() =~= decimal(n / 10));
        assert(d.last() == (0x30 + n % 10) as char);
        assert((d.last() as u32) == 0x30 + n % 10);
        assert(n == (n / 10) * 10 + n % 10);
        assert(digits_value(d) == digits_value(d.drop_last()) * 10 + ((d.last() as u32) - 0x30) as nat);
        assert(digits_value(d.drop_last()) == n / 10);
        assert forall|i: int| 0 <= i < d.len() implies is_digit(#[trigger] d[i]) by {
            if i < d.len() - 1 {
                assert(d[i] == decimal(n / 10)[i]);
            }
        }
    } else {
        let d = decimal(n);
        assert(d.drop_last() =~= Seq::<char>::empty());
        assert((d.last() as u32) == 0x30 + n);
        assert(digits_value(d) == digits_value(d.drop_last()) * 10 + ((d.last() as u32) - 0x30) as nat);
        assert(digits_value(d.drop_last()) == 0);
    }
}

/// The value `str::parse::<i64>` reads: an optional `+` or `-`, then one
/// or more ASCII digits, within the range of `i64`.
pub open spec fn i64_value(s: Seq<char>) -> Option<int> {
    let (neg, digits) = if s.len() > 0 && s[0] == '-' {
        (true, s.drop_first())
    } else if s.len() > 0 && s[0] == '+' {
        (false, s.drop_first())
    } else {
        (false, s)
    };
    if digits.len() == 0 || !all_digits(digits) {
        None
    } else {
        let v: int = if neg { -(digits_value(digits) as int) } else { digits_value(digits) as int };
        if i64::MIN <= v <= i64::MAX { Some(v) } else { None }
    }
}

/// `str::parse::<usize>`: an optional `+` and one or more ASCII digits,
/// within the range of `usize`.
pub open spec fn usize_value(s: Seq<char>) -> Option<nat> {
    let digits = if s.len() > 0 && s[0] == '+' { s.drop_first() } else { s };
    if digits.len() > 0 && all_digits(digits) && digits_value(digits) <= usize::MAX {
        Some(digits_value(digits))
    } else {
        None
    }
}

/// `str::parse::<usize>`.
pub fn parse_usize(s: &Vec<char>) -> (r: Option<usize>)
    ensures
        match r {
            Some(v) => usize_value(s@) == Some(v as nat),
            None => usize_value(s@) is None,
        },
{
    let digits = if s.len() > 0 && s[0] == '+' {
        let d = slice(s, 1, s.len());
        assert(d@ =~= s@.drop_first());
        d
    } else {
        slice_all(s)
    };
    match parse_digits(&digits, usize::MAX as u64) {
        Some(v) => Some(v as usize),
        None => None,
    }
}

/// `str::parse::<i64>`.
pub fn parse_i64(s: &Vec<char>) -> (r: Option<i64>)
    ensures
        match r {
            Some(v) => i64_value(s@) == Some(v as int),
            None => i64_value(s@) is None,
        },
{
    let (neg, digits) = if s.len() > 0 && s[0] == '-' {
        let d = slice(s, 1, s.len());
        assert(d@ =~= s@.drop_first());
        (true, d)
    } else if s.len() > 0 && s[0] == '+' {
        let d = slice(s, 1, s.len());
        assert(d@ =~= s@.drop_first());
        (false, d)
    } else {
        (false, slice_all(s))
    };
    if neg {
        match parse_digits(&digits, 9223372036854775808u64) {
            Some(v) => {
                if v == 9223372036854775808u64 {
                    Some(i64::MIN)
                } else {
                    Some(-(v as i64))
                }
            },
            None => None,
        }
    } else {
        match parse_digits(&digits, 9223372036854775807u64) {
            Some(v) => Some(v as i64),
            None => None,
        }
    }
}

// ───────────────────────── first of several lookups ─────────────────────────

/// Optional strings taken by their views.
pub open spec fn opt_views(v: Seq<Option<String>>) -> Seq<Option<Seq<char>>> {
    v.map_values(|o: Option<String>| crate::deps::opt_string_view(o))
}

/// The first present value of a sequence of lookups.
pub open spec fn first_some(s: Seq<Option<Seq<char>>>) -> Option<Seq<char>>
    decreases s.len(),
{
    if s.len() == 0 {
        None
    } else if s[0] is Some {
        s[0]
    } else {
        first_some(s.drop_first())
    }
}

/// The first lookup that found something, in order.
pub fn first_found(found: &Vec<Option<String>>) -> (r: Option<String>)
    ensures
        crate::deps::opt_string_view(r) == first_some(opt_views(found@)),
{
    let ghost all = opt_views(found@);
    let mut i: usize = 0;
    assert(all.skip(0) =~= all);
    while i < found.len()
        invariant
            all == opt_views(found@),
            i <= found@.len(),
            first_some(all) == first_some(all.skip(i as int)),
        decreases found@.len() - i,
    {
        assert(all.skip(i as int).drop_first() =~= all.skip(i + 1));
        assert(all.skip(i as int)[0] == all[i as int]);
        match &found[i] {
            Some(s) => {
                return Some(s.clone());
            },
            None => {},
        }
        i += 1;
    }
    assert(all.skip(i as int) =~= Seq::<Option<Seq<char>>>::empty());
    None
}

} // verus!
