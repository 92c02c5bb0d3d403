//! Character-level text helpers shared by every output plugin.
//!
//! Strings are reasoned about through their `Seq<char>` views. The helpers
//! here build strings from pieces (decimal numbers, padding, repeated
//! characters), search inside them, and order them the way `str`'s `Ord`
//! does (code point by code point, which is the same order as comparing the
//! UTF-8 bytes).
use vstd::prelude::*;
use vstd::string::*;

verus! {

// ---------------------------------------------------------------------------
// Decimal rendering
// ---------------------------------------------------------------------------

/// The character for a decimal digit.
pub open spec fn digit_char(d: int) -> char {
    if d == 0 {
        '0'
    } else if d == 1 {
        '1'
    } else if d == 2 {
        '2'
    } else if d == 3 {
        '3'
    } else if d == 4 {
        '4'
    } else if d == 5 {
        '5'
    } else if d == 6 {
        '6'
    } else if d == 7 {
        '7'
    } else if d == 8 {
        '8'
    } else {
        '9'
    }
}

/// The decimal representation of `n`, as `{}` prints an unsigned integer.
pub open spec fn dec(n: nat) -> Seq<char>
    decreases n,
{
    if n < 10 {
        seq![digit_char(n as int)]
    } else {
        dec(n / 10).push(digit_char((n % 10) as int))
    }
}

/// `dec(n)` left-padded with zeros to at least `width` characters, as
/// `{:0width$}` prints an unsigned integer.
pub open spec fn dec_zero_padded(n: nat, width: nat) -> Seq<char> {
    let d = dec(n);
    if d.len() >= width {
        d
    } else {
        Seq::new((width - d.len()) as nat, |i: int| '0') + d
    }
}

fn digit(d: u64) -> (c: char)
    requires
        d < 10,
    ensures
        c == digit_char(d as int),
{
    if d == 0 {
        '0'
    } else if d == 1 {
        '1'
    } else if d == 2 {
        '2'
    } else if d == 3 {
        '3'
    } else if d == 4 {
        '4'
    } else if d == 5 {
        '5'
    } else if d == 6 {
        '6'
    } else if d == 7 {
        '7'
    } else if d == 8 {
        '8'
    } else {
        '9'
    }
}

/// Appends one character to a string (`String::push`).
#[verifier::external_body]
pub(crate) fn push_char(s: &mut String, c: char)
    ensures
        final(s)@ == old(s)@.push(c),
{
    s.push(c);
}

/// Appends `other` to `s`.
pub fn push_str(s: &mut String, other: &str)
    ensures
        final(s)@ == old(s)@ + other@,
{
    s.append(other);
}

/// Appends the decimal representation of `n`.
pub fn push_dec(s: &mut String, n: u64)
    ensures
        final(s)@ == old(s)@ + dec(n as nat),
    decreases n,
{
    if n >= 10 {
        push_dec(s, n / 10);
    }
    push_char(s, digit(n % 10));
    proof {
        assert(dec(n as nat) == if n < 10 {
            seq![digit_char(n as int)]
        } else {
            dec((n / 10) as nat).push(digit_char((n % 10) as int))
        });
    }
}

/// Appends `n` zero-padded to `width` characters.
pub fn push_dec_zero_padded(s: &mut String, n: u64, width: usize)
    ensures
        final(s)@ == old(s)@ + dec_zero_padded(n as nat, width as nat),
{
    let mut digits = String::new();
    push_dec(&mut digits, n);
    let len = digits.as_str().unicode_len();
    let ghost start = s@;
    if len < width {
        let mut k = len;
        while k < width
            invariant
                len <= k <= width,
                len == dec(n as nat).len(),
                s@ == start + Seq::new((k - len) as nat, |i: int| '0'),
            decreases width - k,
        {
            push_char(s, '0');
            k = k + 1;
            proof {
                assert(s@ =~= start + Seq::new((k - len) as nat, |i: int| '0'));
            }
        }
    }
    push_str(s, digits.as_str());
    proof {
        if len >= width {
            assert(s@ =~= start + dec_zero_padded(n as nat, width as nat));
        } else {
            assert(s@ =~= start + dec_zero_padded(n as nat, width as nat));
        }
    }
}

/// The decimal representation of `n` as a new string.
pub fn dec_string(n: u64) -> (r: String)
    ensures
        r@ == dec(n as nat),
{
    let mut r = String::new();
    push_dec(&mut r, n);
    proof {
        assert(r@ =~= dec(n as nat));
    }
    r
}

// ---------------------------------------------------------------------------
// Repetition and padding
// ---------------------------------------------------------------------------

/// `n` copies of `c`.
pub open spec fn repeat_char(c: char, n: nat) -> Seq<char> {
    Seq::new(n, |i: int| c)
}

/// `s` followed by spaces up to `width` characters, as `{:<width$}` pads a
/// string (the width counts characters).
pub open spec fn pad_right(s: Seq<char>, width: nat) -> Seq<char> {
    if s.len() >= width {
        s
    } else {
        s + repeat_char(' ', (width - s.len()) as nat)
    }
}

/// Appends `n` copies of `c`.
pub fn push_repeat(s: &mut String, c: char, n: usize)
    ensures
        final(s)@ == old(s)@ + repeat_char(c, n as nat),
{
    let ghost start = s@;
    let mut k: usize = 0;
    while k < n
        invariant
            k <= n,
            s@ == start + repeat_char(c, k as nat),
        decreases n - k,
    {
        push_char(s, c);
        k = k + 1;
        proof {
            assert(s@ =~= start + repeat_char(c, k as nat));
        }
    }
}

/// `n` copies of `c` as a new string.
pub fn repeat_string(c: char, n: usize) -> (r: String)
    ensures
        r@ == repeat_char(c, n as nat),
{
    let mut r = String::new();
    push_repeat(&mut r, c, n);
    proof {
        assert(r@ =~= repeat_char(c, n as nat));
    }
    r
}

/// Appends `text` padded with spaces to `width` characters.
pub fn push_padded(s: &mut String, text: &str, width: usize)
    ensures
        final(s)@ == old(s)@ + pad_right(text@, width as nat),
{
    let len = text.unicode_len();
    push_str(s, text);
    if len < width {
        push_repeat(s, ' ', width - len);
    }
    proof {
        assert(final(s)@ =~= old(s)@ + pad_right(text@, width as nat)) by {
        }
    }
}

/// `a - b` when `a > b`, otherwise zero (`usize::saturating_sub`).
pub open spec fn sat_sub(a: int, b: int) -> nat {
    if a > b {
        (a - b) as nat
    } else {
        0
    }
}

// ---------------------------------------------------------------------------
// Searching
// ---------------------------------------------------------------------------

/// `p` occurs in `s` at position `i`.
pub open spec fn occurs_at(s: Seq<char>, p: Seq<char>, i: int) -> bool {
    0 <= i && i + p.len() <= s.len() && s.subrange(i, i + p.len()) == p
}

/// `p` occurs somewhere in `s` (`str::contains`).
pub open spec fn contains_seq(s: Seq<char>, p: Seq<char>) -> bool {
    exists|i: int| occurs_at(s, p, i)
}

/// `s` starts with `p` (`str::starts_with`).
pub open spec fn starts_with_seq(s: Seq<char>, p: Seq<char>) -> bool {
    p.len() <= s.len() && s.subrange(0, p.len() as int) == p
}

/// `s` ends with `p` (`str::ends_with`).
pub open spec fn ends_with_seq(s: Seq<char>, p: Seq<char>) -> bool {
    p.len() <= s.len() && s.subrange(s.len() - p.len(), s.len() as int) == p
}

/// `i` is the first position where `p` occurs in `s` (`str::find`).
pub open spec fn first_occurrence(s: Seq<char>, p: Seq<char>, i: int) -> bool {
    occurs_at(s, p, i) && forall|j: int| 0 <= j < i ==> !occurs_at(s, p, j)
}

/// The characters of `s`, one by one.
pub fn chars_of(s: &str) -> (v: Vec<char>)
    ensures
        v@ == s@,
{
    let n = s.unicode_len();
    let mut v: Vec<char> = Vec::new();
    let mut i: usize = 0;
    while i < n
        invariant
            n == s@.len(),
            i <= n,
            v@ == s@.subrange(0, i as int),
        decreases n - i,
    {
        v.push(s.get_char(i));
        i = i + 1;
        proof {
            assert(v@ =~= s@.subrange(0, i as int));
        }
    }
    proof {
        assert(v@ =~= s@);
    }
    v
}

/// A string holding the characters `v[from..to]`.
pub fn string_of_chars(v: &Vec<char>, from: usize, to: usize) -> (r: String)
    requires
        from <= to <= v.len(),
    ensures
        r@ == v@.subrange(from as int, to as int),
{
    let mut r = String::new();
    let mut i = from;
    while i < to
        invariant
            from <= i <= to,
            to <= v.len(),
            r@ == v@.subrange(from as int, i as int),
        decreases to - i,
    {
        push_char(&mut r, v[i]);
        i = i + 1;
        proof {
            assert(r@ =~= v@.subrange(from as int, i as int));
        }
    }
    r
}

/// Whether `p` occurs in `v` at position `i`.
pub fn occurs_at_exec(v: &Vec<char>, p: &Vec<char>, i: usize) -> (b: bool)
    ensures
        b == occurs_at(v@, p@, i as int),
{
    if i > v.len() || p.len() > v.len() - i {
        return false;
    }
    let mut k: usize = 0;
    while k < p.len()
        invariant
            i + p.len() <= v.len(),
            k <= p.len(),
            forall|j: int| 0 <= j < k ==> v@[i + j] == p@[j],
        decreases p.len() - k,
    {
        if v[i + k] != p[k] {
            proof {
                assert(v@.subrange(i as int, i + p@.len())[k as int] != p@[k as int]);
            }
            return false;
        }
        k = k + 1;
    }
    proof {
        assert(v@.subrange(i as int, i + p@.len()) =~= p@);
    }
    true
}

/// The first position at or after `from` where `p` occurs in `v`.
pub fn find_from(v: &Vec<char>, p: &Vec<char>, from: usize) -> (r: Option<usize>)
    ensures
        match r {
            Some(i) => from <= i && occurs_at(v@, p@, i as int) && forall|j: int|
                from <= j < i ==> !occurs_at(v@, p@, j),
            None => forall|j: int| from <= j ==> !occurs_at(v@, p@, j),
        },
{
    if from > v.len() {
        return None;
    }
    let mut i = from;
    while i < v.len()
        invariant
            from <= i <= v.len(),
            forall|j: int| from <= j < i ==> !occurs_at(v@, p@, j),
        decreases v.len() - i,
    {
        if occurs_at_exec(v, p, i) {
            return Some(i);
        }
        i = i + 1;
    }
    if occurs_at_exec(v, p, i) {
        return Some(i);
    }
    proof {
        assert forall|j: int| from <= j implies !occurs_at(v@, p@, j) by {
            if j > v@.len() {
            }
        }
    }
    None
}

/// The first position at or after `from` where `p` occurs in `s`
/// (`str::find` on the suffix, offset back).
pub open spec fn find_at(s: Seq<char>, p: Seq<char>, from: int) -> Option<int>
    decreases s.len() + 1 - from,
{
    if from < 0 || from > s.len() {
        None
    } else if occurs_at(s, p, from) {
        Some(from)
    } else {
        find_at(s, p, from + 1)
    }
}

/// A first occurrence at or after `from` is what `find_at` gives.
pub proof fn lemma_find_at(s: Seq<char>, p: Seq<char>, from: int, i: int)
    requires
        0 <= from <= i,
        occurs_at(s, p, i),
        forall|j: int| from <= j < i ==> !occurs_at(s, p, j),
    ensures
        find_at(s, p, from) == Some(i),
    decreases i - from,
{
    if from < i {
        lemma_find_at(s, p, from + 1, i);
    }
}

/// Without an occurrence at or after `from`, `find_at` gives nothing.
pub proof fn lemma_find_at_none(s: Seq<char>, p: Seq<char>, from: int)
    requires
        0 <= from,
        forall|j: int| from <= j ==> !occurs_at(s, p, j),
    ensures
        find_at(s, p, from) == None::<int>,
    decreases s.len() + 1 - from,
{
    if from <= s.len() {
        lemma_find_at_none(s, p, from + 1);
    }
}

/// What `find_at` gives is an occurrence at or after `from`.
pub proof fn lemma_find_at_some(s: Seq<char>, p: Seq<char>, from: int)
    requires
        find_at(s, p, from) is Some,
    ensures
        from <= find_at(s, p, from)->0,
        occurs_at(s, p, find_at(s, p, from)->0),
    decreases s.len() + 1 - from,
{
    if 0 <= from <= s.len() && !occurs_at(s, p, from) {
        lemma_find_at_some(s, p, from + 1);
    }
}

/// The first position at or after `from` where `p` occurs in `v`.
pub fn find_in(v: &Vec<char>, p: &Vec<char>, from: usize) -> (r: Option<usize>)
    ensures
        match r {
            Some(i) => find_at(v@, p@, from as int) == Some(i as int),
            None => find_at(v@, p@, from as int) == None::<int>,
        },
{
    let r = find_from(v, p, from);
    proof {
        match r {
            Some(i) => lemma_find_at(v@, p@, from as int, i as int),
            None => lemma_find_at_none(v@, p@, from as int),
        }
    }
    r
}

/// Whether `pattern` occurs in `s`.
pub fn str_contains(s: &str, pattern: &str) -> (b: bool)
    ensures
        b == contains_seq(s@, pattern@),
{
    let v = chars_of(s);
    let p = chars_of(pattern);
    let r = find_from(&v, &p, 0);
    match r {
        Some(i) => true,
        None => {
            proof {
                assert forall|j: int| !occurs_at(s@, pattern@, j) by {
                    if j < 0 {
                    }
                }
            }
            false
        },
    }
}

/// Whether `s` starts with `prefix`.
pub fn str_starts_with(s: &str, prefix: &str) -> (b: bool)
    ensures
        b == starts_with_seq(s@, prefix@),
{
    let v = chars_of(s);
    let p = chars_of(prefix);
    occurs_at_exec(&v, &p, 0)
}

/// Whether `s` ends with `suffix`.
pub fn str_ends_with(s: &str, suffix: &str) -> (b: bool)
    ensures
        b == ends_with_seq(s@, suffix@),
{
    let v = chars_of(s);
    let p = chars_of(suffix);
    if p.len() > v.len() {
        return false;
    }
    occurs_at_exec(&v, &p, v.len() - p.len())
}

/// Whether two strings hold the same characters.
pub fn str_eq(a: &str, b: &str) -> (r: bool)
    ensures
        r == (a@ == b@),
{
    let va = chars_of(a);
    let vb = chars_of(b);
    if va.len() != vb.len() {
        return false;
    }
    let r = occurs_at_exec(&va, &vb, 0);
    proof {
        if r {
            assert(va@.subrange(0, vb@.len() as int) =~= va@);
        } else {
            if a@ == b@ {
                assert(va@.subrange(0, vb@.len() as int) =~= vb@);
            }
        }
    }
    r
}

// ---------------------------------------------------------------------------
// Case mapping (std)
// ---------------------------------------------------------------------------

/// What `str::to_lowercase` returns for a string: the Unicode lowercase
/// mapping, which depends on the characters alone.
pub uninterp spec fn lowercase(s: Seq<char>) -> Seq<char>;

/// Every character is a small ASCII letter.
pub open spec fn ascii_lowercase_word(s: Seq<char>) -> bool {
    forall|i: int| 0 <= i < s.len() ==> 'a' <= #[trigger] s[i] <= 'z'
}

/// Every character is an ASCII letter, small or capital.
pub open spec fn ascii_letters_word(s: Seq<char>) -> bool {
    forall|i: int| 0 <= i < s.len() ==> ('a' <= #[trigger] s[i] <= 'z' || 'A' <= s[i] <= 'Z')
}

/// `s` with each ASCII capital replaced by its small letter.
pub open spec fn ascii_lowered(s: Seq<char>) -> Seq<char> {
    Seq::new(s.len(), |i: int| if 'A' <= s[i] <= 'Z' { ((s[i] as u32) + 32) as char } else { s[i] })
}

/// `str::to_lowercase`. Its contract names the result; of the Unicode case
/// tables it states only what they give for ASCII letters: a small letter
/// has no other lowercase form (`char::to_lowercase` yields a character
/// without a lowercase mapping unchanged) and a capital `A`-`Z` becomes its
/// small letter, so a word of ASCII letters is lowered letter by letter.
#[verifier::external_body]
pub(crate) fn to_lowercase(s: &str) -> (r: String)
    ensures
        r@ == lowercase(s@),
        ascii_lowercase_word(s@) ==> r@ == s@,
        ascii_letters_word(s@) ==> r@ == ascii_lowered(s@),
{
    s.to_lowercase()
}

// ---------------------------------------------------------------------------
// Character classes (std)
// ---------------------------------------------------------------------------

/// What `char::is_alphanumeric` says of a character (Unicode `Alphabetic`
/// or `Numeric`).
pub uninterp spec fn alphanumeric(c: char) -> bool;

/// `char::is_alphanumeric`. Its contract names the result and states what
/// the documentation gives for ASCII: letters and digits are alphanumeric.
#[verifier::external_body]
pub(crate) fn is_alphanumeric(c: char) -> (b: bool)
    ensures
        b == alphanumeric(c),
        ('a' <= c <= 'z' || 'A' <= c <= 'Z' || '0' <= c <= '9') ==> b,
{
    c.is_alphanumeric()
}

// ---------------------------------------------------------------------------
// Ordering
// ---------------------------------------------------------------------------

/// Lexicographic order on character sequences: the order of `str`'s `Ord`.
pub open spec fn lex_lt(a: Seq<char>, b: Seq<char>) -> bool
    decreases a.len(),
{
    if a.len() == 0 {
        b.len() > 0
    } else if b.len() == 0 {
        false
    } else if a[0] != b[0] {
        (a[0] as u32) < (b[0] as u32)
    } else {
        lex_lt(a.drop_first(), b.drop_first())
    }
}

/// `a` is before or equal to `b`.
pub open spec fn lex_le(a: Seq<char>, b: Seq<char>) -> bool {
    a == b || lex_lt(a, b)
}

/// The order is irreflexive.
pub proof fn lemma_lex_irreflexive(a: Seq<char>)
    ensures
        !lex_lt(a, a),
    decreases a.len(),
{
    if a.len() > 0 {
        lemma_lex_irreflexive(a.drop_first());
    }
}

/// The order is transitive.
pub proof fn lemma_lex_transitive(a: Seq<char>, b: Seq<char>, c: Seq<char>)
    requires
        lex_lt(a, b),
        lex_lt(b, c),
    ensures
        lex_lt(a, c),
    decreases a.len(),
{
    if a.len() > 0 && b.len() > 0 && c.len() > 0 {
        if a[0] == b[0] && b[0] == c[0] {
            lemma_lex_transitive(a.drop_first(), b.drop_first(), c.drop_first());
        } else {
            assert((a[0] as u32) <= (b[0] as u32));
            assert((b[0] as u32) <= (c[0] as u32));
            if (a[0] as u32) == (c[0] as u32) {
                vstd::utf8::char_u32_cast(a[0], a[0] as u32);
                vstd::utf8::char_u32_cast(c[0], c[0] as u32);
            }
        }
    }
}

/// Any two different sequences are ordered one way or the other.
pub proof fn lemma_lex_total(a: Seq<char>, b: Seq<char>)
    ensures
        a == b || lex_lt(a, b) || lex_lt(b, a),
    decreases a.len(),
{
    if a.len() > 0 && b.len() > 0 {
        if a[0] == b[0] {
            lemma_lex_total(a.drop_first(), b.drop_first());
            if a.drop_first() == b.drop_first() {
                assert(a =~= seq![a[0]] + a.drop_first());
                assert(b =~= seq![b[0]] + b.drop_first());
            }
        } else {
            if (a[0] as u32) == (b[0] as u32) {
                vstd::utf8::char_u32_cast(a[0], a[0] as u32);
                vstd::utf8::char_u32_cast(b[0], b[0] as u32);
            }
        }
    } else if a.len() == 0 && b.len() == 0 {
        assert(a =~= b);
    }
}

/// Whether `a` comes before `b` in `str` order.
pub fn str_lt(a: &str, b: &str) -> (r: bool)
    ensures
        r == lex_lt(a@, b@),
{
    let va = chars_of(a);
    let vb = chars_of(b);
    let mut i: usize = 0;
    proof {
        assert(va@.skip(0) =~= va@);
        assert(vb@.skip(0) =~= vb@);
    }
    while i < va.len() && i < vb.len()
        invariant
            i <= va.len(),
            i <= vb.len(),
            va@.subrange(0, i as int) == vb@.subrange(0, i as int),
            lex_lt(a@, b@) == lex_lt(va@.skip(i as int), vb@.skip(i as int)),
        decreases va.len() - i,
    {
        if va[i] != vb[i] {
            proof {
                assert(va@.skip(i as int)[0] == va@[i as int]);
                assert(vb@.skip(i as int)[0] == vb@[i as int]);
            }
            return (va[i] as u32) < (vb[i] as u32);
        }
        proof {
            assert(va@.skip(i as int).drop_first() =~= va@.skip(i + 1));
            assert(vb@.skip(i as int).drop_first() =~= vb@.skip(i + 1));
            assert(va@.subrange(0, i + 1) =~= va@.subrange(0, i as int).push(va@[i as int]));
            assert(vb@.subrange(0, i + 1) =~= vb@.subrange(0, i as int).push(vb@[i as int]));
        }
        i = i + 1;
    }
    i < vb.len()
}

// ---------------------------------------------------------------------------
// Replacing and joining
// ---------------------------------------------------------------------------

/// `s` with every `from` replaced by `to`, as `str::replace` with two
/// characters does.
pub open spec fn replace_char(s: Seq<char>, from: char, to: char) -> Seq<char> {
    Seq::new(s.len(), |i: int| if s[i] == from { to } else { s[i] })
}

/// `s` with every `from` replaced by `to`.
pub fn replace_chars(s: &str, from: char, to: char) -> (r: String)
    ensures
        r@ == replace_char(s@, from, to),
{
    let v = chars_of(s);
    let mut r = String::new();
    let mut i: usize = 0;
    while i < v.len()
        invariant
            i <= v.len(),
            v@ == s@,
            r@ == replace_char(s@.subrange(0, i as int), from, to),
        decreases v.len() - i,
    {
        let c = v[i];
        if c == from {
            push_char(&mut r, to);
        } else {
            push_char(&mut r, c);
        }
        i = i + 1;
        proof {
            assert(r@ =~= replace_char(s@.subrange(0, i as int), from, to));
        }
    }
    proof {
        assert(s@.subrange(0, i as int) =~= s@);
    }
    r
}

/// The pieces joined with `sep` between them, as `[&str]::join` does.
pub open spec fn join_seq(pieces: Seq<Seq<char>>, sep: Seq<char>) -> Seq<char>
    decreases pieces.len(),
{
    if pieces.len() == 0 {
        Seq::empty()
    } else if pieces.len() == 1 {
        pieces[0]
    } else {
        join_seq(pieces.drop_last(), sep) + sep + pieces.last()
    }
}

/// The views of a sequence of strings.
pub open spec fn str_views(v: Seq<&str>) -> Seq<Seq<char>> {
    Seq::new(v.len(), |i: int| v[i]@)
}

/// Joins `pieces` with `sep` between them.
pub fn join_strs(pieces: &Vec<&str>, sep: &str) -> (r: String)
    ensures
        r@ == join_seq(str_views(pieces@), sep@),
{
    let mut r = String::new();
    let mut i: usize = 0;
    while i < pieces.len()
        invariant
            i <= pieces.len(),
            r@ == join_seq(str_views(pieces@.subrange(0, i as int)), sep@),
        decreases pieces.len() - i,
    {
        if i > 0 {
            push_str(&mut r, sep);
        }
        push_str(&mut r, pieces[i]);
        i = i + 1;
        proof {
            let prev = str_views(pieces@.subrange(0, i - 1));
            let cur = str_views(pieces@.subrange(0, i as int));
            assert(cur.drop_last() =~= prev);
            assert(cur.last() == pieces@[i - 1]@);
            if i == 1 {
                assert(r@ =~= cur[0]);
            }
        }
    }
    proof {
        assert(pieces@.subrange(0, i as int) =~= pieces@);
    }
    r
}

// ---------------------------------------------------------------------------
// Byte lengths and lines
// ---------------------------------------------------------------------------

/// The number of bytes of the UTF-8 encoding of `s` (what `str::len`
/// returns).
pub open spec fn utf8_len(s: Seq<char>) -> nat {
    vstd::utf8::encode_utf8(s).len()
}

/// The UTF-8 byte length of `s` (`str::len`).
pub fn byte_len(s: &str) -> (n: usize)
    ensures
        n == utf8_len(s@) as usize,
{
    s.len()
}

/// The lines of `s` as `str::lines` gives them: split at each `\n`, with
/// no empty line after a final `\n`, and a `\r` before the `\n` removed.
pub open spec fn lines_of(s: Seq<char>) -> Seq<Seq<char>>
    decreases s.len(),
{
    if s.len() == 0 {
        Seq::empty()
    } else {
        let i = first_newline(s);
        proof {
            lemma_first_newline(s);
        }
        if i < s.len() {
            seq![strip_cr(s.subrange(0, i))] + lines_of(s.subrange(i + 1, s.len() as int))
        } else {
            seq![strip_cr(s)]
        }
    }
}

/// The position of the first `\n` in `s`, or its length if there is none.
pub open spec fn first_newline(s: Seq<char>) -> int
    decreases s.len(),
{
    if s.len() == 0 {
        0
    } else if s[0] == '\n' {
        0
    } else {
        1 + first_newline(s.drop_first())
    }
}

/// `s` without one trailing `\r`.
pub open spec fn strip_cr(s: Seq<char>) -> Seq<char> {
    if s.len() > 0 && s.last() == '\r' {
        s.drop_last()
    } else {
        s
    }
}

pub proof fn lemma_first_newline(s: Seq<char>)
    ensures
        0 <= first_newline(s) <= s.len(),
        first_newline(s) < s.len() ==> s[first_newline(s)] == '\n',
        forall|j: int| 0 <= j < first_newline(s) ==> s[j] != '\n',
    decreases s.len(),
{
    if s.len() > 0 && s[0] != '\n' {
        lemma_first_newline(s.drop_first());
        assert forall|j: int| 0 <= j < first_newline(s) implies s[j] != '\n' by {
            if j > 0 {
                assert(s.drop_first()[j - 1] == s[j]);
            }
        }
    }
}

/// The first newline after position `from`, as a position in `s`.
proof fn lemma_first_newline_from(s: Seq<char>, from: int, i: int)
    requires
        0 <= from <= i <= s.len(),
        forall|j: int| from <= j < i ==> s[j] != '\n',
        i == s.len() || s[i] == '\n',
    ensures
        first_newline(s.subrange(from, s.len() as int)) == i - from,
    decreases i - from,
{
    let t = s.subrange(from, s.len() as int);
    if from < i {
        assert(t[0] == s[from]);
        lemma_first_newline_from(s, from + 1, i);
        assert(t.drop_first() =~= s.subrange(from + 1, s.len() as int));
    } else if i < s.len() {
        assert(t[0] == s[i]);
    }
}

/// `s` without one trailing `\r`.
fn strip_cr_exec(v: &Vec<char>, from: usize, to: usize) -> (r: String)
    requires
        from <= to <= v.len(),
    ensures
        r@ == strip_cr(v@.subrange(from as int, to as int)),
{
    if to > from && v[to - 1] == '\r' {
        let r = string_of_chars(v, from, to - 1);
        proof {
            assert(v@.subrange(from as int, to - 1) =~= v@.subrange(from as int, to as int).drop_last());
        }
        r
    } else {
        string_of_chars(v, from, to)
    }
}

/// The lines of `s`, as `str::lines` splits them.
pub fn split_lines(s: &str) -> (r: Vec<String>)
    ensures
        views(r@) == lines_of(s@),
{
    let v = chars_of(s);
    let n = v.len();
    let mut r: Vec<String> = Vec::new();
    let mut start: usize = 0;
    proof {
        assert(s@.subrange(0, n as int) =~= s@);
        assert(views(r@) =~= Seq::<Seq<char>>::empty());
        assert(views(r@) + lines_of(s@) =~= lines_of(s@));
    }
    while start < n
        invariant
            v@ == s@,
            n == v@.len(),
            start <= n,
            views(r@) + lines_of(s@.subrange(start as int, n as int)) == lines_of(s@),
        decreases n - start,
    {
        let mut i = start;
        while i < n && v[i] != '\n'
            invariant
                start <= i <= n,
                n == v@.len(),
                forall|j: int| start <= j < i ==> v@[j] != '\n',
            decreases n - i,
        {
            i = i + 1;
        }
        let line = strip_cr_exec(&v, start, i);
        let ghost rest = s@.subrange(start as int, n as int);
        proof {
            lemma_first_newline_from(s@, start as int, i as int);
            assert(rest.subrange(0, i - start) =~= s@.subrange(start as int, i as int));
            if i < n {
                assert(rest.subrange(i - start + 1, rest.len() as int) =~= s@.subrange(i + 1, n as int));
            } else {
                assert(rest =~= s@.subrange(start as int, i as int));
            }
        }
        let ghost before = views(r@);
        r.push(line);
        proof {
            assert(views(r@) =~= before.push(strip_cr(s@.subrange(start as int, i as int))));
        }
        if i < n {
            start = i + 1;
            proof {
                assert(views(r@) + lines_of(s@.subrange(start as int, n as int)) =~= before + lines_of(rest));
            }
        } else {
            start = n;
            proof {
                assert(s@.subrange(start as int, n as int) =~= Seq::<char>::empty());
                assert(views(r@) + lines_of(s@.subrange(start as int, n as int)) =~= before + lines_of(rest));
            }
        }
    }
    proof {
        assert(s@.subrange(start as int, n as int) =~= Seq::<char>::empty());
        assert(views(r@) + lines_of(s@.subrange(start as int, n as int)) =~= views(r@));
    }
    r
}

/// The views of a sequence of strings.
pub open spec fn views(v: Seq<String>) -> Seq<Seq<char>> {
    Seq::new(v.len(), |i: int| v[i]@)
}

/// The number of bytes UTF-8 uses for `c`.
pub open spec fn char_len(c: char) -> nat {
    if (c as u32) <= 0x7F {
        1
    } else if (c as u32) <= 0x7FF {
        2
    } else if (c as u32) <= 0xFFFF {
        3
    } else {
        4
    }
}

/// Encoding one more character appends its bytes.
pub proof fn lemma_encode_push(a: Seq<char>, c: char)
    ensures
        vstd::utf8::encode_utf8(a.push(c)) == vstd::utf8::encode_utf8(a) + vstd::utf8::encode_scalar(c as u32),
    decreases a.len(),
{
    if a.len() == 0 {
        assert(a.push(c).drop_first() =~= Seq::<char>::empty());
        assert(a.push(c)[0] == c);
        assert(vstd::utf8::encode_utf8(Seq::<char>::empty()) =~= Seq::<u8>::empty());
        assert(a =~= Seq::<char>::empty());
        assert(vstd::utf8::encode_utf8(a.push(c)) =~= vstd::utf8::encode_scalar(c as u32));
    } else {
        lemma_encode_push(a.drop_first(), c);
        assert(a.push(c).drop_first() =~= a.drop_first().push(c));
        assert(a.push(c)[0] == a[0]);
        assert(vstd::utf8::encode_utf8(a.push(c)) =~= vstd::utf8::encode_utf8(a) + vstd::utf8::encode_scalar(c as u32));
    }
}

/// One more character adds its byte length.
pub proof fn lemma_utf8_len_push(a: Seq<char>, c: char)
    ensures
        utf8_len(a.push(c)) == utf8_len(a) + char_len(c),
{
    lemma_encode_push(a, c);
    broadcast use vstd::utf8::char_is_scalar;
    assert(vstd::utf8::is_scalar(c as u32));
}

/// Byte lengths of prefixes grow strictly with the prefix.
pub proof fn lemma_utf8_take_mono(s: Seq<char>, j: int, k: int)
    requires
        0 <= j < k <= s.len(),
    ensures
        utf8_len(s.take(j)) < utf8_len(s.take(k)),
    decreases k - j,
{
    assert(s.take(k) =~= s.take(k - 1).push(s[k - 1]));
    lemma_utf8_len_push(s.take(k - 1), s[k - 1]);
    if j < k - 1 {
        lemma_utf8_take_mono(s, j, k - 1);
    }
}

/// `n` falls between two characters of `s` (or at an end).
pub open spec fn is_boundary(s: Seq<char>, n: nat) -> bool {
    exists|k: int| 0 <= k <= s.len() && utf8_len(s.take(k)) == n
}

/// The first `n` bytes of `s`, when `n` falls between characters.
pub open spec fn byte_prefix(s: Seq<char>, n: nat) -> Seq<char> {
    s.take(choose|k: int| 0 <= k <= s.len() && utf8_len(s.take(k)) == n)
}

/// The first `n` bytes of `s` (`&s[..n]`, which fails when `n` falls
/// inside a character).
pub fn byte_prefix_of(s: &str, n: usize) -> (r: String)
    requires
        is_boundary(s@, n as nat),
    ensures
        r@ == byte_prefix(s@, n as nat),
{
    let v = chars_of(s);
    let mut k: usize = 0;
    let mut b: usize = 0;
    proof {
        assert(s@.take(0) =~= Seq::<char>::empty());
        assert(vstd::utf8::encode_utf8(Seq::<char>::empty()) =~= Seq::<u8>::empty());
    }
    while b < n && k < v.len()
        invariant
            v@ == s@,
            k <= v.len(),
            b == utf8_len(s@.take(k as int)),
            b <= n,
            is_boundary(s@, n as nat),
        decreases v.len() - k,
    {
        let c = v[k] as u32;
        let w: usize = if c <= 0x7F {
            1
        } else if c <= 0x7FF {
            2
        } else if c <= 0xFFFF {
            3
        } else {
            4
        };
        proof {
            assert(s@.take(k + 1) =~= s@.take(k as int).push(s@[k as int]));
            lemma_utf8_len_push(s@.take(k as int), s@[k as int]);
            let j = choose|j: int| 0 <= j <= s@.len() && utf8_len(s@.take(j)) == n;
            if b + w > n {
                if j <= k {
                    if j < k {
                        lemma_utf8_take_mono(s@, j, k as int);
                    }
                } else {
                    if j > k + 1 {
                        lemma_utf8_take_mono(s@, k + 1, j);
                    }
                }
            }
        }
        b = b + w;
        k = k + 1;
    }
    proof {
        let j = choose|j: int| 0 <= j <= s@.len() && utf8_len(s@.take(j)) == n;
        if b < n {
            assert(k == v.len());
            if j < k {
                lemma_utf8_take_mono(s@, j, k as int);
            }
            assert(false);
        }
        if j < k {
            lemma_utf8_take_mono(s@, j, k as int);
        } else if j > k {
            lemma_utf8_take_mono(s@, k as int, j);
        }
        assert(j == k);
    }
    let r = string_of_chars(&v, 0, k);
    proof {
        assert(v@.subrange(0, k as int) =~= s@.take(k as int));
    }
    r
}

/// Whether `n` falls between two characters of `s` (or at an end), so that
/// `&s[..n]` can be taken.
pub fn at_boundary(s: &str, n: usize) -> (b: bool)
    ensures
        b == is_boundary(s@, n as nat),
{
    let v = chars_of(s);
    let mut k: usize = 0;
    let mut b: usize = 0;
    proof {
        assert(s@.take(0) =~= Seq::<char>::empty());
        assert(vstd::utf8::encode_utf8(Seq::<char>::empty()) =~= Seq::<u8>::empty());
    }
    while b < n && k < v.len()
        invariant
            v@ == s@,
            k <= v.len(),
            b == utf8_len(s@.take(k as int)),
            b <= n,
        decreases v.len() - k,
    {
        let c = v[k] as u32;
        let w: usize = if c <= 0x7F {
            1
        } else if c <= 0x7FF {
            2
        } else if c <= 0xFFFF {
            3
        } else {
            4
        };
        proof {
            assert(s@.take(k + 1) =~= s@.take(k as int).push(s@[k as int]));
            lemma_utf8_len_push(s@.take(k as int), s@[k as int]);
        }
        if w > n - b {
            proof {
                assert forall|j: int| 0 <= j <= s@.len() implies utf8_len(s@.take(j)) != n by {
                    if j < k {
                        lemma_utf8_take_mono(s@, j, k as int);
                    } else if j > k + 1 {
                        lemma_utf8_take_mono(s@, k + 1, j);
                    }
                }
            }
            return false;
        }
        b = b + w;
        k = k + 1;
    }
    proof {
        if b == n {
            assert(0 <= k <= s@.len() && utf8_len(s@.take(k as int)) == n);
        } else {
            assert forall|j: int| 0 <= j <= s@.len() implies utf8_len(s@.take(j)) != n by {
                if j < k {
                    lemma_utf8_take_mono(s@, j, k as int);
                }
            }
        }
    }
    b == n
}

/// Joins owned strings with `sep` between them.
pub fn join_strings(pieces: &Vec<String>, sep: &str) -> (r: String)
    ensures
        r@ == join_seq(views(pieces@), sep@),
{
    let mut refs: Vec<&str> = Vec::new();
    let mut i: usize = 0;
    while i < pieces.len()
        invariant
            i <= pieces.len(),
            str_views(refs@) == views(pieces@).subrange(0, i as int),
        decreases pieces.len() - i,
    {
        let ghost before = str_views(refs@);
        let p = pieces[i].as_str();
        refs.push(p);
        proof {
            assert(str_views(refs@) =~= before.push(p@));
            assert(views(pieces@).subrange(0, i + 1) =~= views(pieces@).subrange(0, i as int).push(pieces@[i as int]@));
        }
        i = i + 1;
    }
    proof {
        assert(views(pieces@).subrange(0, i as int) =~= views(pieces@));
    }
    join_strs(&refs, sep)
}

/// `s` without the prefix `p`, if it starts with it (`str::strip_prefix`
/// with `unwrap_or(s)`).
pub open spec fn strip_prefix_seq(s: Seq<char>, p: Seq<char>) -> Seq<char> {
    if starts_with_seq(s, p) {
        s.subrange(p.len() as int, s.len() as int)
    } else {
        s
    }
}

/// `s` without the prefix `p`, if it starts with it.
pub fn strip_prefix_or_keep(s: &str, p: &str) -> (r: String)
    ensures
        r@ == strip_prefix_seq(s@, p@),
{
    let v = chars_of(s);
    let pv = chars_of(p);
    if pv.len() <= v.len() && occurs_at_exec(&v, &pv, 0) {
        let r = string_of_chars(&v, pv.len(), v.len());
        proof {
            assert(v@.subrange(0, pv@.len() as int) =~= pv@);
        }
        r
    } else {
        proof {
            if starts_with_seq(s@, p@) {
                assert(occurs_at(v@, pv@, 0));
            }
        }
        let r = string_of_chars(&v, 0, v.len());
        proof {
            assert(v@.subrange(0, v@.len() as int) =~= s@);
        }
        r
    }
}

} // verus!
