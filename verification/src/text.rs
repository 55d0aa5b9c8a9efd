//! Text as sequences of characters: trimming, searching, splitting, joining
//! and decimal numerals. Everything here works on characters, never on bytes.
use vstd::prelude::*;
use vstd::slice::slice_subrange;

verus! {

/// The characters that Unicode gives the property `White_Space`.
pub open spec fn is_space(c: char) -> bool {
    ||| '\u{9}' <= c <= '\u{d}'
    ||| c == ' '
    ||| c == '\u{85}'
    ||| c == '\u{a0}'
    ||| c == '\u{1680}'
    ||| '\u{2000}' <= c <= '\u{200a}'
    ||| c == '\u{2028}'
    ||| c == '\u{2029}'
    ||| c == '\u{202f}'
    ||| c == '\u{205f}'
    ||| c == '\u{3000}'
}

pub open spec fn is_digit(c: char) -> bool {
    '0' <= c <= '9'
}

pub open spec fn is_ascii_letter(c: char) -> bool {
    ('a' <= c <= 'z') || ('A' <= c <= 'Z')
}

/// What remains of `s` once the white space at its front is gone.
pub open spec fn trim_start(s: Seq<char>) -> Seq<char>
    decreases s.len(),
{
    if s.len() > 0 && is_space(s[0]) {
        trim_start(s.drop_first())
    } else {
        s
    }
}

/// What remains of `s` once the white space at its end is gone.
pub open spec fn trim_end(s: Seq<char>) -> Seq<char>
    decreases s.len(),
{
    if s.len() > 0 && is_space(s.last()) {
        trim_end(s.drop_last())
    } else {
        s
    }
}

pub open spec fn trim(s: Seq<char>) -> Seq<char> {
    trim_end(trim_start(s))
}

proof fn lemma_trim_start_is_no_longer(s: Seq<char>)
    ensures
        trim_start(s).len() <= s.len(),
    decreases s.len(),
{
    if s.len() > 0 && is_space(s[0]) {
        lemma_trim_start_is_no_longer(s.drop_first());
    }
}

proof fn lemma_trim_end_is_no_longer(s: Seq<char>)
    ensures
        trim_end(s).len() <= s.len(),
    decreases s.len(),
{
    if s.len() > 0 && is_space(s.last()) {
        lemma_trim_end_is_no_longer(s.drop_last());
    }
}

pub proof fn lemma_trim_is_no_longer(s: Seq<char>)
    ensures
        trim(s).len() <= s.len(),
{
    lemma_trim_start_is_no_longer(s);
    lemma_trim_end_is_no_longer(trim_start(s));
}

/// `s` without the copies of `c` at its front.
pub open spec fn strip_start(s: Seq<char>, c: char) -> Seq<char>
    decreases s.len(),
{
    if s.len() > 0 && s[0] == c {
        strip_start(s.drop_first(), c)
    } else {
        s
    }
}

/// `s` without the copies of `c` at its end.
pub open spec fn strip_end(s: Seq<char>, c: char) -> Seq<char>
    decreases s.len(),
{
    if s.len() > 0 && s.last() == c {
        strip_end(s.drop_last(), c)
    } else {
        s
    }
}

/// `p` stands in `s` at position `i`.
pub open spec fn occurs_at(s: Seq<char>, p: Seq<char>, i: int) -> bool {
    0 <= i && i + p.len() <= s.len() && s.subrange(i, i + p.len()) == p
}

pub open spec fn contains(s: Seq<char>, p: Seq<char>) -> bool {
    exists|i: int| occurs_at(s, p, i)
}

pub open spec fn starts_with(s: Seq<char>, p: Seq<char>) -> bool {
    occurs_at(s, p, 0)
}

pub open spec fn ends_with(s: Seq<char>, p: Seq<char>) -> bool {
    occurs_at(s, p, s.len() - p.len())
}

/// The first position at or after `i` where `p` stands in `s`.
pub open spec fn find_from(s: Seq<char>, p: Seq<char>, i: int) -> Option<int>
    decreases s.len() + 1 - i,
{
    if i < 0 || i + p.len() > s.len() {
        None
    } else if occurs_at(s, p, i) {
        Some(i)
    } else {
        find_from(s, p, i + 1)
    }
}

pub open spec fn find(s: Seq<char>, p: Seq<char>) -> Option<int> {
    find_from(s, p, 0)
}

/// The pieces of `s` between the characters that `cut` picks.
pub open spec fn split_by(s: Seq<char>, cut: spec_fn(char) -> bool) -> Seq<Seq<char>>
    decreases s.len(),
{
    if s.len() == 0 {
        seq![Seq::<char>::empty()]
    } else {
        let front = split_by(s.drop_last(), cut);
        if cut(s.last()) {
            front.push(Seq::<char>::empty())
        } else {
            front.drop_last().push(front.last().push(s.last()))
        }
    }
}

pub open spec fn is_char(c: char) -> spec_fn(char) -> bool {
    |x: char| x == c
}

pub open spec fn split(s: Seq<char>, c: char) -> Seq<Seq<char>> {
    split_by(s, is_char(c))
}

pub open spec fn spaces() -> spec_fn(char) -> bool {
    |x: char| is_space(x)
}

/// The maximal runs of characters that are no white space.
pub open spec fn words(s: Seq<char>) -> Seq<Seq<char>> {
    non_empty(split_by(s, spaces()))
}

pub open spec fn non_empty(parts: Seq<Seq<char>>) -> Seq<Seq<char>> {
    parts.filter(|p: Seq<char>| p.len() > 0)
}

pub open spec fn strip_cr(s: Seq<char>) -> Seq<char> {
    if s.len() > 0 && s.last() == '\r' {
        s.drop_last()
    } else {
        s
    }
}

/// The lines of `s`: a line ends in `"\n"` or `"\r\n"`, and an empty rest
/// behind the last terminator is no line.
pub open spec fn lines(s: Seq<char>) -> Seq<Seq<char>> {
    let parts = split(s, '\n');
    let ended = parts.drop_last().map_values(|p: Seq<char>| strip_cr(p));
    if parts.last().len() == 0 {
        ended
    } else {
        ended.push(parts.last())
    }
}

pub open spec fn join(parts: Seq<Seq<char>>, sep: Seq<char>) -> Seq<char>
    decreases parts.len(),
{
    if parts.len() == 0 {
        Seq::empty()
    } else if parts.len() == 1 {
        parts[0]
    } else {
        join(parts.drop_last(), sep) + sep + parts.last()
    }
}

/// The texts that a sequence of strings holds.
pub open spec fn texts(v: Seq<String>) -> Seq<Seq<char>> {
    v.map_values(|s: String| s@)
}

pub open spec fn replace_char(s: Seq<char>, from: char, to: char) -> Seq<char> {
    s.map_values(|c: char| if c == from { to } else { c })
}

/// The lower-case letter of an ASCII capital, else the character itself.
pub open spec fn ascii_lower(c: char) -> char {
    if 'A' <= c <= 'Z' {
        (c as u32 + 32) as char
    } else {
        c
    }
}

pub open spec fn ascii_lowered(s: Seq<char>) -> Seq<char> {
    s.map_values(|c: char| ascii_lower(c))
}

/// So many spaces.
pub open spec fn blanks(n: int) -> Seq<char> {
    Seq::new(
        if n > 0 {
            n as nat
        } else {
            0
        },
        |i: int| ' ',
    )
}

/// `s` with spaces behind it up to `width` characters.
pub open spec fn padded(s: Seq<char>, width: int) -> Seq<char> {
    s + blanks(width - s.len())
}

/// `s` with spaces before it up to `width` characters.
pub open spec fn padded_left(s: Seq<char>, width: int) -> Seq<char> {
    blanks(width - s.len()) + s
}

/// What stands before and behind the first `c`.
pub open spec fn halves(s: Seq<char>, c: char) -> Option<(Seq<char>, Seq<char>)> {
    match find(s, seq![c]) {
        Some(i) => Some((s.take(i), s.skip(i + 1))),
        None => None,
    }
}

/// `s` without `p` at its front, if it begins with it.
pub open spec fn without_prefix(s: Seq<char>, p: Seq<char>) -> Seq<char> {
    if starts_with(s, p) {
        s.skip(p.len() as int)
    } else {
        s
    }
}

/// At most the first `n` characters.
pub open spec fn first_chars(s: Seq<char>, n: nat) -> Seq<char> {
    if s.len() <= n {
        s
    } else {
        s.take(n as int)
    }
}

/// What is said of bytes that are not valid UTF-8.
pub uninterp spec fn utf8_error(bytes: Seq<u8>) -> Seq<char>;

/// `std::str::from_utf8`: the text that the bytes encode, where they are valid
/// UTF-8, else its error in words, which depends on the bytes alone.
#[verifier::external_body]
pub(crate) fn from_utf8(bytes: &Vec<u8>) -> (r: Result<String, String>)
    ensures
        (r is Ok) == vstd::utf8::valid_utf8(bytes@),
        r is Ok ==> r->Ok_0@ == vstd::utf8::decode_utf8(bytes@),
        r is Err ==> r->Err_0@ == utf8_error(bytes@),
{
    match std::str::from_utf8(bytes) {
        Ok(s) => Ok(s.to_owned()),
        Err(e) => Err(e.to_string()),
    }
}

/// Order of texts by their first difference.
pub open spec fn text_le(a: Seq<char>, b: Seq<char>) -> bool
    decreases a.len(),
{
    if a.len() == 0 {
        true
    } else if b.len() == 0 {
        false
    } else if a[0] == b[0] {
        text_le(a.drop_first(), b.drop_first())
    } else {
        a[0] < b[0]
    }
}

pub open spec fn text_lt(a: Seq<char>, b: Seq<char>) -> bool {
    text_le(a, b) && a != b
}

pub open spec fn digit(d: nat) -> char {
    (48 + d) as char
}

/// The decimal numeral of `n`.
pub open spec fn numeral(n: nat) -> Seq<char>
    decreases n,
{
    if n < 10 {
        seq![digit(n)]
    } else {
        numeral(n / 10).push(digit(n % 10))
    }
}

pub open spec fn signed_numeral(n: int) -> Seq<char> {
    if n < 0 {
        seq!['-'] + numeral((-n) as nat)
    } else {
        numeral(n as nat)
    }
}

/// How many copies of `c` stand at the front of `s`.
pub open spec fn leading(s: Seq<char>, c: char) -> nat
    decreases s.len(),
{
    if s.len() > 0 && s[0] == c {
        1 + leading(s.drop_first(), c)
    } else {
        0
    }
}

pub open spec fn digit_value(c: char) -> int {
    c as int - 48
}

/// The number that a run of decimal digits writes.
pub open spec fn digits_value(s: Seq<char>) -> int
    decreases s.len(),
{
    if s.len() == 0 {
        0
    } else {
        digits_value(s.drop_last()) * 10 + digit_value(s.last())
    }
}

/// The length of the longest front of `s` that holds digits only.
pub open spec fn digit_run(s: Seq<char>) -> nat
    decreases s.len(),
{
    if s.len() > 0 && is_digit(s[0]) {
        1 + digit_run(s.drop_first())
    } else {
        0
    }
}

/// Why a text is no integer of the wanted type.
#[derive(Debug, Clone, Copy, PartialEq, Eq, Structural)]
pub enum IntError {
    Empty,
    InvalidDigit,
    TooLarge,
    TooSmall,
}

/// The magnitude that `s` writes, if it is at most `max`.
pub open spec fn parse_magnitude(s: Seq<char>, max: int, over: IntError) -> Result<int, IntError> {
    let run = digit_run(s);
    if digits_value(s.take(run as int)) > max {
        Err(over)
    } else if s.len() == 0 || run < s.len() {
        Err(IntError::InvalidDigit)
    } else {
        Ok(digits_value(s))
    }
}

/// The signed 64-bit integer that `s` writes in decimal, with an optional sign.
pub open spec fn parse_signed(s: Seq<char>) -> Result<int, IntError> {
    if s.len() == 0 {
        Err(IntError::Empty)
    } else if s[0] == '-' {
        match parse_magnitude(s.skip(1), 0x8000_0000_0000_0000, IntError::TooSmall) {
            Ok(n) => Ok(-n),
            Err(e) => Err(e),
        }
    } else if s[0] == '+' {
        parse_magnitude(s.skip(1), i64::MAX as int, IntError::TooLarge)
    } else {
        parse_magnitude(s, i64::MAX as int, IntError::TooLarge)
    }
}

/// The unsigned 64-bit integer that `s` writes in decimal, with an optional `+`.
pub open spec fn parse_unsigned(s: Seq<char>) -> Result<int, IntError> {
    if s.len() == 0 {
        Err(IntError::Empty)
    } else if s[0] == '+' {
        parse_magnitude(s.skip(1), u64::MAX as int, IntError::TooLarge)
    } else {
        parse_magnitude(s, u64::MAX as int, IntError::TooLarge)
    }
}

/// What `str::to_lowercase` makes of a text.
pub uninterp spec fn lowercase(s: Seq<char>) -> Seq<char>;

/// What `str::to_uppercase` makes of a text.
pub uninterp spec fn uppercase(s: Seq<char>) -> Seq<char>;

/// What `char::to_lowercase` makes of a character.
pub uninterp spec fn lowercase_char(c: char) -> Seq<char>;

/// Whether `char::is_alphanumeric` holds of a character.
pub uninterp spec fn alphanumeric(c: char) -> bool;

/// `String::push` appends one character.
pub assume_specification[ String::push ](s: &mut String, c: char)
    ensures
        final(s)@ == old(s)@.push(c),
;

/// `char::is_alphanumeric` is a fixed property of the character.
pub assume_specification[ char::is_alphanumeric ](c: char) -> (b: bool)
    ensures
        b == alphanumeric(c),
;

/// `str::to_lowercase` depends on the text alone.
#[verifier::external_body]
pub(crate) fn to_lowercase(s: &str) -> (r: String)
    ensures
        r@ == lowercase(s@),
{
    s.to_lowercase()
}

/// `str::to_uppercase` depends on the text alone.
#[verifier::external_body]
pub(crate) fn to_uppercase(s: &str) -> (r: String)
    ensures
        r@ == uppercase(s@),
{
    s.to_uppercase()
}

/// `char::to_lowercase` depends on the character alone.
#[verifier::external_body]
pub(crate) fn char_to_lowercase(c: char) -> (r: Vec<char>)
    ensures
        r@ == lowercase_char(c),
{
    c.to_lowercase().collect()
}

pub fn char_is_space(c: char) -> (b: bool)
    ensures
        b == is_space(c),
{
    ('\u{9}' <= c && c <= '\u{d}') || c == ' ' || c == '\u{85}' || c == '\u{a0}' || c == '\u{1680}'
        || ('\u{2000}' <= c && c <= '\u{200a}') || c == '\u{2028}' || c == '\u{2029}'
        || c == '\u{202f}' || c == '\u{205f}' || c == '\u{3000}'
}

pub fn char_is_digit(c: char) -> (b: bool)
    ensures
        b == is_digit(c),
{
    '0' <= c && c <= '9'
}

pub fn char_is_ascii_letter(c: char) -> (b: bool)
    ensures
        b == is_ascii_letter(c),
{
    ('a' <= c && c <= 'z') || ('A' <= c && c <= 'Z')
}

pub fn to_chars(s: &str) -> (v: Vec<char>)
    ensures
        v@ == s@,
{
    let mut v: Vec<char> = Vec::new();
    for c in it: s.chars()
        invariant
            v@ == s@.take(it.index() as int),
            it.seq() == s@,
    {
        v.push(c);
        proof {
            assert(s@.take(it.index() + 1) =~= s@.take(it.index() as int).push(c));
        }
    }
    proof {
        assert(s@.take(s@.len() as int) =~= s@);
    }
    v
}

pub fn from_chars(v: &[char]) -> (s: String)
    ensures
        s@ == v@,
{
    let mut s: String = String::new();
    let mut i: usize = 0;
    while i < v.len()
        invariant
            i <= v@.len(),
            s@ == v@.take(i as int),
        decreases v.len() - i,
    {
        s.push(v[i]);
        proof {
            assert(v@.take(i + 1) =~= v@.take(i as int).push(v@[i as int]));
        }
        i += 1;
    }
    proof {
        assert(v@.take(v@.len() as int) =~= v@);
    }
    s
}

pub fn str_eq(a: &str, b: &str) -> (r: bool)
    ensures
        r == (a@ == b@),
{
    a.to_owned() == b.to_owned()
}

/// Whether two optional texts are the same.
pub fn opt_eq(a: &Option<String>, b: &str) -> (r: bool)
    ensures
        r == (a is Some && a->0@ == b@),
{
    match a {
        Some(s) => str_eq(s.as_str(), b),
        None => false,
    }
}

pub fn trim_chars(s: &[char]) -> (r: &[char])
    ensures
        r@ == trim(s@),
{
    let n: usize = s.len();
    let mut i: usize = 0;
    proof {
        assert(s@.skip(0) =~= s@);
    }
    while i < n && char_is_space(s[i])
        invariant
            i <= n == s@.len(),
            trim_start(s@) == trim_start(s@.skip(i as int)),
        decreases n - i,
    {
        proof {
            assert(s@.skip(i as int)[0] == s@[i as int]);
            assert(s@.skip(i as int).drop_first() =~= s@.skip(i + 1));
        }
        i += 1;
    }
    proof {
        assert(i < n ==> s@.skip(i as int)[0] == s@[i as int]);
        assert(trim_start(s@) == s@.skip(i as int));
        assert(s@.skip(i as int) =~= s@.subrange(i as int, n as int));
    }
    let mut j: usize = n;
    while j > i && char_is_space(s[j - 1])
        invariant
            i <= j <= n == s@.len(),
            trim(s@) == trim_end(s@.subrange(i as int, j as int)),
        decreases j,
    {
        proof {
            assert(s@.subrange(i as int, j as int).last() == s@[j - 1]);
            assert(s@.subrange(i as int, j as int).drop_last() =~= s@.subrange(i as int, j - 1));
        }
        j -= 1;
    }
    proof {
        assert(j > i ==> s@.subrange(i as int, j as int).last() == s@[j - 1]);
    }
    slice_subrange(s, i, j)
}

pub fn trim_str(s: &str) -> (r: String)
    ensures
        r@ == trim(s@),
{
    let v = to_chars(s);
    from_chars(trim_chars(v.as_slice()))
}

/// The text without the copies of `c` at either end.
pub fn strip_char(s: &str, c: char) -> (r: String)
    ensures
        r@ == strip_end(strip_start(s@, c), c),
{
    let v = to_chars(s);
    let n: usize = v.len();
    let mut i: usize = 0;
    proof {
        assert(v@.skip(0) =~= v@);
    }
    while i < n && v[i] == c
        invariant
            i <= n == v@.len(),
            strip_start(v@, c) == strip_start(v@.skip(i as int), c),
        decreases n - i,
    {
        proof {
            assert(v@.skip(i as int)[0] == v@[i as int]);
            assert(v@.skip(i as int).drop_first() =~= v@.skip(i + 1));
        }
        i += 1;
    }
    proof {
        assert(i < n ==> v@.skip(i as int)[0] == v@[i as int]);
        assert(strip_start(v@, c) == v@.skip(i as int));
        assert(v@.skip(i as int) =~= v@.subrange(i as int, n as int));
    }
    let mut j: usize = n;
    while j > i && v[j - 1] == c
        invariant
            i <= j <= n == v@.len(),
            strip_end(strip_start(v@, c), c) == strip_end(v@.subrange(i as int, j as int), c),
        decreases j,
    {
        proof {
            assert(v@.subrange(i as int, j as int).last() == v@[j - 1]);
            assert(v@.subrange(i as int, j as int).drop_last() =~= v@.subrange(i as int, j - 1));
        }
        j -= 1;
    }
    proof {
        assert(j > i ==> v@.subrange(i as int, j as int).last() == v@[j - 1]);
    }
    from_chars(slice_subrange(v.as_slice(), i, j))
}

pub fn occurs(s: &[char], p: &[char], i: usize) -> (b: bool)
    ensures
        b == occurs_at(s@, p@, i as int),
{
    if p.len() > s.len() || i > s.len() - p.len() {
        return false;
    }
    let n: usize = s.len();
    let mut k: usize = 0;
    while k < p.len()
        invariant
            k <= p@.len(),
            i + p@.len() <= n == s@.len(),
            forall|m: int| 0 <= m < k ==> s@[i + m] == p@[m],
        decreases p.len() - k,
    {
        if s[i + k] != p[k] {
            proof {
                assert(s@.subrange(i as int, i + p@.len())[k as int] == s@[i + k]);
            }
            return false;
        }
        k += 1;
    }
    proof {
        assert(s@.subrange(i as int, i + p@.len()) =~= p@);
    }
    true
}

pub fn find_chars_from(s: &[char], p: &[char], start: usize) -> (r: Option<usize>)
    ensures
        match r {
            Some(i) => find_from(s@, p@, start as int) == Some(i as int),
            None => find_from(s@, p@, start as int) is None,
        },
{
    if p.len() > s.len() {
        return None;
    }
    let mut i: usize = start;
    while i <= s.len() - p.len()
        invariant
            p@.len() <= s@.len(),
            find_from(s@, p@, start as int) == find_from(s@, p@, i as int),
        decreases s.len() - p.len() + 1 - i,
    {
        if occurs(s, p, i) {
            return Some(i);
        }
        if i == s.len() - p.len() {
            proof {
                assert(find_from(s@, p@, i + 1) is None);
            }
            return None;
        }
        i += 1;
    }
    None
}

/// An occurrence at `i` is found from any start at or before it.
pub proof fn lemma_find_from(s: Seq<char>, p: Seq<char>, start: int)
    requires
        0 <= start,
    ensures
        match find_from(s, p, start) {
            Some(i) => start <= i && occurs_at(s, p, i) && forall|j: int|
                start <= j < i ==> !occurs_at(s, p, j),
            None => forall|j: int| start <= j ==> !occurs_at(s, p, j),
        },
    decreases s.len() + 1 - start,
{
    if start + p.len() <= s.len() && !occurs_at(s, p, start) {
        lemma_find_from(s, p, start + 1);
    }
}

pub fn contains_chars(s: &[char], p: &[char]) -> (b: bool)
    ensures
        b == contains(s@, p@),
{
    proof {
        lemma_find_from(s@, p@, 0);
    }
    match find_chars_from(s, p, 0) {
        Some(i) => {
            proof {
                assert(occurs_at(s@, p@, i as int));
            }
            true
        },
        None => false,
    }
}

pub fn contains_str(s: &str, p: &str) -> (b: bool)
    ensures
        b == contains(s@, p@),
{
    let v = to_chars(s);
    let q = to_chars(p);
    contains_chars(v.as_slice(), q.as_slice())
}

pub fn starts_with_str(s: &str, p: &str) -> (b: bool)
    ensures
        b == starts_with(s@, p@),
{
    let v = to_chars(s);
    let q = to_chars(p);
    occurs(v.as_slice(), q.as_slice(), 0)
}

pub fn ends_with_str(s: &str, p: &str) -> (b: bool)
    ensures
        b == ends_with(s@, p@),
{
    let v = to_chars(s);
    let q = to_chars(p);
    if q.len() > v.len() {
        return false;
    }
    occurs(v.as_slice(), q.as_slice(), v.len() - q.len())
}

/// The characters from `i` up to `j`.
pub fn substring(v: &[char], i: usize, j: usize) -> (s: String)
    requires
        i <= j <= v@.len(),
    ensures
        s@ == v@.subrange(i as int, j as int),
{
    from_chars(slice_subrange(v, i, j))
}

pub fn take_chars(s: &str, n: usize) -> (r: String)
    ensures
        r@ == first_chars(s@, n as nat),
{
    let v = to_chars(s);
    if v.len() <= n {
        s.to_owned()
    } else {
        proof {
            assert(v@.subrange(0, n as int) =~= v@.take(n as int));
        }
        substring(v.as_slice(), 0, n)
    }
}

proof fn lemma_split_len(s: Seq<char>, cut: spec_fn(char) -> bool)
    ensures
        split_by(s, cut).len() > 0,
    decreases s.len(),
{
    if s.len() > 0 {
        lemma_split_len(s.drop_last(), cut);
    }
}

/// There is always a piece.
pub proof fn lemma_split_nonempty(s: Seq<char>, c: char)
    ensures
        split(s, c).len() > 0,
{
    lemma_split_len(s, is_char(c));
}

/// A text that does not start with a separator has a first piece.
pub proof fn lemma_split_first(s: Seq<char>, c: char)
    requires
        s.len() > 0,
        s[0] != c,
    ensures
        split(s, c).len() > 0,
        split(s, c)[0].len() > 0,
    decreases s.len(),
{
    lemma_split_len(s.drop_last(), is_char(c));
    if s.len() > 1 {
        lemma_split_first(s.drop_last(), c);
    }
}

pub proof fn lemma_texts_push(v: Seq<String>, s: String)
    ensures
        texts(v.push(s)) == texts(v).push(s@),
{
    assert(texts(v.push(s)) =~= texts(v).push(s@));
}

pub fn split_char(s: &str, c: char) -> (r: Vec<String>)
    ensures
        texts(r@) == split(s@, c),
        r@.len() > 0,
{
    let v = to_chars(s);
    let mut out: Vec<String> = Vec::new();
    let mut cur: String = String::new();
    let ghost cut = is_char(c);
    let mut i: usize = 0;
    proof {
        assert(v@.take(0) =~= Seq::<char>::empty());
        assert(texts(out@).push(cur@) =~= seq![Seq::<char>::empty()]);
    }
    while i < v.len()
        invariant
            i <= v@.len(),
            cut == is_char(c),
            texts(out@).push(cur@) == split_by(v@.take(i as int), cut),
        decreases v.len() - i,
    {
        let ghost before = split_by(v@.take(i as int), cut);
        proof {
            assert(v@.take(i + 1).drop_last() =~= v@.take(i as int));
            assert(v@.take(i + 1).last() == v@[i as int]);
            assert(before.drop_last() =~= texts(out@));
        }
        if v[i] == c {
            proof {
                lemma_texts_push(out@, cur);
            }
            out.push(cur);
            cur = String::new();
        } else {
            cur.push(v[i]);
        }
        i += 1;
    }
    proof {
        assert(v@.take(v@.len() as int) =~= v@);
        lemma_texts_push(out@, cur);
    }
    out.push(cur);
    out
}

pub proof fn lemma_non_empty_push(parts: Seq<Seq<char>>, p: Seq<char>)
    ensures
        non_empty(parts.push(p)) == if p.len() > 0 {
            non_empty(parts).push(p)
        } else {
            non_empty(parts)
        },
{
    assert(parts.push(p).drop_last() =~= parts);
    reveal(Seq::filter);
}

pub fn split_words(s: &str) -> (r: Vec<String>)
    ensures
        texts(r@) == words(s@),
{
    let v = to_chars(s);
    let mut out: Vec<String> = Vec::new();
    let mut cur: String = String::new();
    let ghost cut = spaces();
    let mut i: usize = 0;
    proof {
        assert(v@.take(0) =~= Seq::<char>::empty());
        assert(split_by(v@.take(0), cut).drop_last() =~= Seq::<Seq<char>>::empty());
        reveal(Seq::filter);
        assert(texts(out@) =~= non_empty(split_by(v@.take(0), cut).drop_last()));
    }
    while i < v.len()
        invariant
            i <= v@.len(),
            cut == spaces(),
            split_by(v@.take(i as int), cut).len() > 0,
            split_by(v@.take(i as int), cut).last() == cur@,
            texts(out@) == non_empty(split_by(v@.take(i as int), cut).drop_last()),
        decreases v.len() - i,
    {
        let ghost before = split_by(v@.take(i as int), cut);
        proof {
            assert(v@.take(i + 1).drop_last() =~= v@.take(i as int));
            assert(v@.take(i + 1).last() == v@[i as int]);
            assert(before =~= before.drop_last().push(cur@));
            lemma_non_empty_push(before.drop_last(), cur@);
        }
        if char_is_space(v[i]) {
            proof {
                assert(split_by(v@.take(i + 1), cut).drop_last() =~= before);
            }
            if !cur.as_str().is_empty() {
                proof {
                    lemma_texts_push(out@, cur);
                }
                out.push(cur);
                cur = String::new();
            }
        } else {
            cur.push(v[i]);
            proof {
                assert(split_by(v@.take(i + 1), cut).drop_last() =~= before.drop_last());
            }
        }
        i += 1;
    }
    proof {
        let all = split_by(v@, cut);
        assert(v@.take(v@.len() as int) =~= v@);
        assert(all =~= all.drop_last().push(cur@));
        lemma_non_empty_push(all.drop_last(), cur@);
        lemma_texts_push(out@, cur);
    }
    if !cur.as_str().is_empty() {
        out.push(cur);
    }
    out
}

pub fn split_lines(s: &str) -> (r: Vec<String>)
    ensures
        texts(r@) == lines(s@),
{
    let parts = split_char(s, '\n');
    let n: usize = parts.len();
    let ghost all = split(s@, '\n');
    let mut out: Vec<String> = Vec::new();
    let mut i: usize = 0;
    while i + 1 < n
        invariant
            n == parts@.len() == all.len(),
            n > 0,
            i < n,
            texts(parts@) == all,
            texts(out@) == all.take(i as int).map_values(|p: Seq<char>| strip_cr(p)),
        decreases n - i,
    {
        let p = to_chars(parts[i].as_str());
        proof {
            assert(texts(parts@)[i as int] == parts@[i as int]@);
        }
        let m: usize = p.len();
        let line = if m > 0 && p[m - 1] == '\r' {
            proof {
                assert(p@.subrange(0, m - 1) =~= p@.drop_last());
            }
            substring(p.as_slice(), 0, m - 1)
        } else {
            from_chars(p.as_slice())
        };
        proof {
            lemma_texts_push(out@, line);
            assert(all.take(i + 1).map_values(|p: Seq<char>| strip_cr(p)) =~= all.take(
                i as int,
            ).map_values(|p: Seq<char>| strip_cr(p)).push(line@));
        }
        out.push(line);
        i += 1;
    }
    proof {
        assert(all.take(n - 1) =~= all.drop_last());
        assert(texts(parts@)[n - 1] == parts@[n - 1]@);
    }
    if !parts[n - 1].as_str().is_empty() {
        let last = parts[n - 1].clone();
        proof {
            lemma_texts_push(out@, last);
        }
        out.push(last);
    }
    out
}

pub fn join_strings(parts: &Vec<String>, sep: &str) -> (r: String)
    ensures
        r@ == join(texts(parts@), sep@),
{
    let mut out: String = String::new();
    let mut i: usize = 0;
    while i < parts.len()
        invariant
            i <= parts@.len(),
            out@ == join(texts(parts@).take(i as int), sep@),
        decreases parts.len() - i,
    {
        proof {
            let t = texts(parts@);
            assert(t.take(i + 1).drop_last() =~= t.take(i as int));
            assert(t.take(i + 1).last() == parts@[i as int]@);
            assert(i == 0 ==> t.take(1)[0] == parts@[0]@);
            assert(i == 0 ==> out@ + parts@[0]@ =~= parts@[0]@);
        }
        if i > 0 {
            out.append(sep);
        }
        out.append(parts[i].as_str());
        i += 1;
    }
    proof {
        assert(texts(parts@).take(parts@.len() as int) =~= texts(parts@));
    }
    out
}

pub fn replace(s: &str, from: char, to: char) -> (r: String)
    ensures
        r@ == replace_char(s@, from, to),
{
    let v = to_chars(s);
    let mut out: String = String::new();
    let mut i: usize = 0;
    while i < v.len()
        invariant
            i <= v@.len(),
            out@ == replace_char(v@.take(i as int), from, to),
        decreases v.len() - i,
    {
        let c = v[i];
        out.push(
            if c == from {
                to
            } else {
                c
            },
        );
        proof {
            assert(replace_char(v@.take(i + 1), from, to) =~= out@);
        }
        i += 1;
    }
    proof {
        assert(v@.take(v@.len() as int) =~= v@);
    }
    out
}

/// Whether the first text comes no later than the second.
pub fn str_le(a: &str, b: &str) -> (r: bool)
    ensures
        r == text_le(a@, b@),
{
    let x = to_chars(a);
    let y = to_chars(b);
    let mut i: usize = 0;
    proof {
        assert(x@.skip(0) =~= x@);
        assert(y@.skip(0) =~= y@);
    }
    while i < x.len() && i < y.len()
        invariant
            i <= x@.len(),
            i <= y@.len(),
            x@ == a@,
            y@ == b@,
            text_le(a@, b@) == text_le(x@.skip(i as int), y@.skip(i as int)),
        decreases x.len() - i,
    {
        proof {
            assert(x@.skip(i as int)[0] == x@[i as int]);
            assert(y@.skip(i as int)[0] == y@[i as int]);
        }
        if x[i] != y[i] {
            return x[i] < y[i];
        }
        proof {
            assert(x@.skip(i as int).drop_first() =~= x@.skip(i + 1));
            assert(y@.skip(i as int).drop_first() =~= y@.skip(i + 1));
        }
        i += 1;
    }
    i == x.len()
}

/// The order of texts is total.
pub proof fn lemma_text_le_total(a: Seq<char>, b: Seq<char>)
    ensures
        text_le(a, b) || text_le(b, a),
        text_le(a, b) && text_le(b, a) ==> a == b,
    decreases a.len(),
{
    if a.len() > 0 && b.len() > 0 && a[0] == b[0] {
        lemma_text_le_total(a.drop_first(), b.drop_first());
        assert(a =~= seq![a[0]] + a.drop_first());
        assert(b =~= seq![b[0]] + b.drop_first());
    } else if a.len() == 0 && b.len() == 0 {
        assert(a =~= b);
    }
}

/// The order of texts is transitive.
pub proof fn lemma_text_le_trans(a: Seq<char>, b: Seq<char>, c: Seq<char>)
    requires
        text_le(a, b),
        text_le(b, c),
    ensures
        text_le(a, c),
    decreases a.len(),
{
    if a.len() > 0 && b.len() > 0 && c.len() > 0 && a[0] == b[0] && b[0] == c[0] {
        lemma_text_le_trans(a.drop_first(), b.drop_first(), c.drop_first());
    }
}

fn digit_char(d: u64) -> (c: char)
    requires
        d < 10,
    ensures
        c == digit(d as nat),
{
    (48u8 + d as u8) as char
}

pub fn decimal(n: u64) -> (s: String)
    ensures
        s@ == numeral(n as nat),
    decreases n,
{
    if n < 10 {
        let mut s: String = String::new();
        s.push(digit_char(n));
        proof {
            assert(s@ =~= seq![digit(n as nat)]);
        }
        s
    } else {
        let mut s: String = decimal(n / 10);
        s.push(digit_char(n % 10));
        s
    }
}

pub fn signed_decimal(n: i64) -> (s: String)
    ensures
        s@ == signed_numeral(n as int),
{
    if n < 0 {
        let mut s: String = String::new();
        s.push('-');
        let m: u64 = (-(n as i128)) as u64;
        let d = decimal(m);
        s.append(d.as_str());
        proof {
            assert(s@ =~= seq!['-'] + numeral(m as nat));
        }
        s
    } else {
        decimal(n as u64)
    }
}


pub fn count_leading(s: &[char], c: char) -> (n: usize)
    ensures
        n == leading(s@, c),
        n <= s@.len(),
        forall|i: int| 0 <= i < n ==> s@[i] == c,
        n < s@.len() ==> s@[n as int] != c,
{
    let mut i: usize = 0;
    proof {
        assert(s@.skip(0) =~= s@);
    }
    while i < s.len() && s[i] == c
        invariant
            i <= s@.len(),
            leading(s@, c) == i + leading(s@.skip(i as int), c),
            forall|k: int| 0 <= k < i ==> s@[k] == c,
        decreases s.len() - i,
    {
        proof {
            assert(s@.skip(i as int)[0] == s@[i as int]);
            assert(s@.skip(i as int).drop_first() =~= s@.skip(i + 1));
        }
        i += 1;
    }
    proof {
        assert(i < s@.len() ==> s@.skip(i as int)[0] == s@[i as int]);
    }
    i
}

proof fn lemma_digit_run(s: Seq<char>)
    ensures
        digit_run(s) <= s.len(),
        forall|i: int| 0 <= i < digit_run(s) ==> is_digit(#[trigger] s[i]),
        digit_run(s) < s.len() ==> !is_digit(s[digit_run(s) as int]),
    decreases s.len(),
{
    if s.len() > 0 && is_digit(s[0]) {
        lemma_digit_run(s.drop_first());
        assert forall|i: int| 0 <= i < digit_run(s) implies is_digit(#[trigger] s[i]) by {
            if i > 0 {
                assert(s.drop_first()[i - 1] == s[i]);
            }
        }
        if digit_run(s) < s.len() {
            assert(s.drop_first()[digit_run(s) - 1] == s[digit_run(s) as int]);
        }
    }
}

proof fn lemma_digits_value_monotone(s: Seq<char>, i: int, j: int)
    requires
        0 <= i <= j <= s.len(),
        forall|k: int| 0 <= k < j ==> is_digit(#[trigger] s[k]),
    ensures
        0 <= digits_value(s.take(i)) <= digits_value(s.take(j)),
    decreases j,
{
    if j > 0 {
        assert(s.take(j).drop_last() =~= s.take(j - 1));
        assert(s.take(j).last() == s[j - 1]);
        if i < j {
            lemma_digits_value_monotone(s, i, j - 1);
        } else {
            lemma_digits_value_monotone(s, i - 1, j - 1);
        }
    }
}

fn magnitude(s: &[char], max: u64, over: IntError) -> (r: Result<u64, IntError>)
    ensures
        match r {
            Ok(n) => n <= max && parse_magnitude(s@, max as int, over) == Ok::<int, IntError>(n as int),
            Err(e) => parse_magnitude(s@, max as int, over) == Err::<int, IntError>(e),
        },
{
    let mut n: u64 = 0;
    let mut i: usize = 0;
    let ghost run = digit_run(s@) as int;
    proof {
        lemma_digit_run(s@);
        assert(s@.take(0) =~= Seq::<char>::empty());
    }
    if s.len() == 0 {
        return Err(IntError::InvalidDigit);
    }
    while i < s.len()
        invariant
            i <= run <= s@.len(),
            run == digit_run(s@),
            s@.len() > 0,
            forall|k: int| 0 <= k < run ==> is_digit(#[trigger] s@[k]),
            run < s@.len() ==> !is_digit(s@[run]),
            n == digits_value(s@.take(i as int)),
            n <= max,
        decreases s.len() - i,
    {
        if !char_is_digit(s[i]) {
            return Err(IntError::InvalidDigit);
        }
        let d: u64 = s[i] as u64 - 48;
        proof {
            assert(i < run);
            assert(s@.take(i + 1).drop_last() =~= s@.take(i as int));
            assert(s@.take(i + 1).last() == s@[i as int]);
            lemma_digits_value_monotone(s@, i + 1, run);
        }
        let wide: u128 = n as u128 * 10 + d as u128;
        if wide > max as u128 {
            return Err(over);
        }
        n = wide as u64;
        i += 1;
    }
    proof {
        assert(s@.take(i as int) =~= s@);
    }
    Ok(n)
}

pub fn parse_u64(s: &str) -> (r: Result<u64, IntError>)
    ensures
        match r {
            Ok(n) => parse_unsigned(s@) == Ok::<int, IntError>(n as int),
            Err(e) => parse_unsigned(s@) == Err::<int, IntError>(e),
        },
{
    let v = to_chars(s);
    if v.len() == 0 {
        return Err(IntError::Empty);
    }
    if v[0] == '+' {
        let rest = slice_subrange(v.as_slice(), 1, v.len());
        proof {
            assert(rest@ =~= s@.skip(1));
        }
        return magnitude(rest, u64::MAX, IntError::TooLarge);
    }
    magnitude(v.as_slice(), u64::MAX, IntError::TooLarge)
}

pub fn parse_i64(s: &str) -> (r: Result<i64, IntError>)
    ensures
        match r {
            Ok(n) => parse_signed(s@) == Ok::<int, IntError>(n as int),
            Err(e) => parse_signed(s@) == Err::<int, IntError>(e),
        },
{
    let v = to_chars(s);
    if v.len() == 0 {
        return Err(IntError::Empty);
    }
    let top: u64 = 0x7fff_ffff_ffff_ffff;
    if v[0] == '-' || v[0] == '+' {
        let rest = slice_subrange(v.as_slice(), 1, v.len());
        proof {
            assert(rest@ =~= s@.skip(1));
        }
        if v[0] == '+' {
            return match magnitude(rest, top, IntError::TooLarge) {
                Ok(n) => Ok(n as i64),
                Err(e) => Err(e),
            };
        }
        return match magnitude(rest, 0x8000_0000_0000_0000, IntError::TooSmall) {
            Ok(n) => Ok((-(n as i128)) as i64),
            Err(e) => Err(e),
        };
    }
    match magnitude(v.as_slice(), top, IntError::TooLarge) {
        Ok(n) => Ok(n as i64),
        Err(e) => Err(e),
    }
}

/// `s` holds no separator.
pub open spec fn free_of(s: Seq<char>, cut: spec_fn(char) -> bool) -> bool {
    forall|i: int| 0 <= i < s.len() ==> !cut(#[trigger] s[i])
}

/// `s` holds no white space.
pub open spec fn space_free(s: Seq<char>) -> bool {
    free_of(s, spaces())
}

proof fn lemma_split_extend(s: Seq<char>, t: Seq<char>, cut: spec_fn(char) -> bool)
    requires
        forall|i: int| 0 <= i < t.len() ==> !cut(#[trigger] t[i]),
    ensures
        split_by(s + t, cut) == split_by(s, cut).drop_last().push(split_by(s, cut).last() + t),
    decreases t.len(),
{
    lemma_split_len(s, cut);
    if t.len() == 0 {
        assert(s + t =~= s);
        assert(split_by(s, cut).last() + t =~= split_by(s, cut).last());
        assert(split_by(s, cut).drop_last().push(split_by(s, cut).last()) =~= split_by(s, cut));
    } else {
        lemma_split_extend(s, t.drop_last(), cut);
        let front = split_by(s + t.drop_last(), cut);
        assert((s + t).drop_last() =~= s + t.drop_last());
        assert((s + t).last() == t.last());
        assert(front.drop_last() =~= split_by(s, cut).drop_last());
        assert(front.last().push(t.last()) =~= split_by(s, cut).last() + t);
    }
}

proof fn lemma_split_cut(s: Seq<char>, t: Seq<char>, cut: spec_fn(char) -> bool)
    requires
        t.len() == 1,
        cut(t[0]),
    ensures
        split_by(s + t, cut) == split_by(s, cut).push(Seq::<char>::empty()),
{
    assert((s + t).drop_last() =~= s);
    assert((s + t).last() == t[0]);
}

/// Pieces without a separator, joined with one and split again, are the same
/// pieces.
pub proof fn lemma_split_join(
    parts: Seq<Seq<char>>,
    sep: Seq<char>,
    cut: spec_fn(char) -> bool,
)
    requires
        parts.len() > 0,
        sep.len() == 1,
        cut(sep[0]),
        forall|i: int| 0 <= i < parts.len() ==> free_of(#[trigger] parts[i], cut),
    ensures
        split_by(join(parts, sep), cut) == parts,
    decreases parts.len(),
{
    let last = parts.last();
    assert(free_of(parts[parts.len() - 1], cut));
    if parts.len() == 1 {
        let none = Seq::<char>::empty();
        lemma_split_extend(none, last, cut);
        assert(none + last =~= last);
        assert(split_by(none, cut).drop_last().push(none + last) =~= parts);
    } else {
        let front = parts.drop_last();
        assert forall|i: int| 0 <= i < front.len() implies free_of(#[trigger] front[i], cut) by {
            assert(front[i] == parts[i]);
        }
        lemma_split_join(front, sep, cut);
        let j = join(front, sep);
        lemma_split_cut(j, sep, cut);
        lemma_split_extend(j + sep, last, cut);
        let empty = Seq::<char>::empty();
        assert(split_by(j + sep, cut) =~= front.push(empty));
        assert(front.push(empty).drop_last() =~= front);
        assert(empty + last =~= last);
        assert(front.push(last) =~= parts);
    }
}

pub proof fn lemma_non_empty_all(parts: Seq<Seq<char>>)
    requires
        forall|i: int| 0 <= i < parts.len() ==> (#[trigger] parts[i]).len() > 0,
    ensures
        non_empty(parts) == parts,
    decreases parts.len(),
{
    reveal(Seq::filter);
    if parts.len() > 0 {
        let front = parts.drop_last();
        assert forall|i: int| 0 <= i < front.len() implies (#[trigger] front[i]).len() > 0 by {
            assert(front[i] == parts[i]);
        }
        lemma_non_empty_all(front);
        assert(parts[parts.len() - 1].len() > 0);
        lemma_non_empty_push(front, parts.last());
        assert(front.push(parts.last()) =~= parts);
    }
}

/// Words joined with a space and split again are the same words.
pub proof fn lemma_words_join(parts: Seq<Seq<char>>)
    requires
        forall|i: int|
            0 <= i < parts.len() ==> (#[trigger] parts[i]).len() > 0 && space_free(parts[i]),
    ensures
        words(join(parts, " "@)) == parts,
{
    lemma_non_empty_all(parts);
    if parts.len() == 0 {
        let cut = spaces();
        reveal(Seq::filter);
        let one = split_by(Seq::<char>::empty(), cut);
        assert(one.drop_last() =~= Seq::<Seq<char>>::empty());
        assert(one =~= Seq::<Seq<char>>::empty().push(Seq::<char>::empty()));
        lemma_non_empty_push(Seq::empty(), Seq::empty());
        assert(words(join(parts, " "@)) =~= parts);
    } else {
        assert forall|i: int| 0 <= i < parts.len() implies free_of(#[trigger] parts[i], spaces()) by {
            assert(space_free(parts[i]));
        }
        reveal_strlit(" ");
        lemma_split_join(parts, " "@, spaces());
    }
}

/// No piece of a text holds a separator.
pub proof fn lemma_split_free(s: Seq<char>, cut: spec_fn(char) -> bool)
    ensures
        forall|i: int| 0 <= i < split_by(s, cut).len() ==> free_of(#[trigger] split_by(s, cut)[i], cut),
    decreases s.len(),
{
    if s.len() > 0 {
        lemma_split_free(s.drop_last(), cut);
        lemma_split_len(s.drop_last(), cut);
        let front = split_by(s.drop_last(), cut);
        let all = split_by(s, cut);
        assert forall|i: int| 0 <= i < all.len() implies free_of(#[trigger] all[i], cut) by {
            if i < front.len() - 1 {
                assert(all[i] == front[i]);
            } else if cut(s.last()) {
                if i == front.len() - 1 {
                    assert(all[i] == front[i]);
                }
            } else {
                assert(free_of(front[front.len() - 1], cut));
            }
        }
    }
}

proof fn lemma_non_empty_sub(parts: Seq<Seq<char>>)
    requires
        forall|i: int| 0 <= i < parts.len() ==> space_free(#[trigger] parts[i]),
    ensures
        forall|i: int|
            0 <= i < non_empty(parts).len() ==> (#[trigger] non_empty(parts)[i]).len() > 0
                && space_free(non_empty(parts)[i]),
    decreases parts.len(),
{
    reveal(Seq::filter);
    if parts.len() > 0 {
        let front = parts.drop_last();
        assert forall|i: int| 0 <= i < front.len() implies space_free(#[trigger] front[i]) by {
            assert(front[i] == parts[i]);
        }
        lemma_non_empty_sub(front);
        assert(space_free(parts[parts.len() - 1]));
        lemma_non_empty_push(front, parts.last());
        assert(front.push(parts.last()) =~= parts);
    }
}

/// Splitting at a separator between two texts splits each of them.
proof fn lemma_split_around(a: Seq<char>, c: char, b: Seq<char>, cut: spec_fn(char) -> bool)
    requires
        cut(c),
    ensures
        split_by(a.push(c) + b, cut) == split_by(a, cut) + split_by(b, cut),
    decreases b.len(),
{
    let left = split_by(a, cut);
    let all = a.push(c) + b;
    lemma_split_len(a, cut);
    if b.len() == 0 {
        assert(all =~= a.push(c));
        assert(all.drop_last() =~= a);
        assert(left.push(Seq::<char>::empty()) =~= left + seq![Seq::<char>::empty()]);
    } else {
        let front = b.drop_last();
        lemma_split_around(a, c, front, cut);
        lemma_split_len(front, cut);
        assert(all.drop_last() =~= a.push(c) + front);
        let right = split_by(front, cut);
        let both = left + right;
        if cut(b.last()) {
            assert(both.push(Seq::<char>::empty()) =~= left + right.push(Seq::<char>::empty()));
        } else {
            assert(both.drop_last() =~= left + right.drop_last());
            assert(both.last() == right.last());
            assert(both.drop_last().push(both.last().push(b.last())) =~= left
                + right.drop_last().push(right.last().push(b.last())));
        }
    }
}

pub proof fn lemma_no_words()
    ensures
        words(Seq::<char>::empty()) == Seq::<Seq<char>>::empty(),
{
    let none = Seq::<Seq<char>>::empty();
    let empty = Seq::<char>::empty();
    reveal(Seq::filter);
    assert(split_by(empty, spaces()) =~= none.push(empty));
    lemma_non_empty_push(none, empty);
    assert(non_empty(none) =~= none);
}

/// The words around white space are the words of both sides.
pub proof fn lemma_words_around(a: Seq<char>, c: char, b: Seq<char>)
    requires
        is_space(c),
    ensures
        words(a.push(c) + b) == words(a) + words(b),
{
    let keep = |p: Seq<char>| p.len() > 0;
    lemma_split_around(a, c, b, spaces());
    Seq::filter_distributes_over_add(split_by(a, spaces()), split_by(b, spaces()), keep);
}

proof fn lemma_words_trim_start(s: Seq<char>)
    ensures
        words(trim_start(s)) == words(s),
    decreases s.len(),
{
    if s.len() > 0 && is_space(s[0]) {
        lemma_words_trim_start(s.drop_first());
        lemma_no_words();
        lemma_words_around(Seq::empty(), s[0], s.drop_first());
        assert(Seq::<char>::empty().push(s[0]) + s.drop_first() =~= s);
        assert(Seq::<Seq<char>>::empty() + words(s.drop_first()) =~= words(s.drop_first()));
    }
}

proof fn lemma_words_trim_end(s: Seq<char>)
    ensures
        words(trim_end(s)) == words(s),
    decreases s.len(),
{
    if s.len() > 0 && is_space(s.last()) {
        lemma_words_trim_end(s.drop_last());
        lemma_no_words();
        lemma_words_around(s.drop_last(), s.last(), Seq::empty());
        assert(s.drop_last().push(s.last()) + Seq::<char>::empty() =~= s);
        assert(words(s.drop_last()) + Seq::<Seq<char>>::empty() =~= words(s.drop_last()));
    }
}

/// Trimming a text keeps its words.
pub proof fn lemma_words_trim(s: Seq<char>)
    ensures
        words(trim(s)) == words(s),
{
    lemma_words_trim_start(s);
    lemma_words_trim_end(trim_start(s));
}

pub proof fn lemma_join_push(parts: Seq<Seq<char>>, p: Seq<char>, sep: Seq<char>)
    ensures
        join(parts.push(p), sep) == if parts.len() == 0 {
            p
        } else {
            join(parts, sep) + sep + p
        },
{
    assert(parts.push(p).drop_last() =~= parts);
    if parts.len() == 0 {
        assert(parts.push(p)[0] == p);
    }
}

/// A text split at a character and joined with it is the same text.
pub proof fn lemma_join_split(s: Seq<char>, c: char, sep: Seq<char>)
    requires
        sep == seq![c],
    ensures
        join(split(s, c), sep) == s,
    decreases s.len(),
{
    if s.len() > 0 {
        let front = split(s.drop_last(), c);
        lemma_split_nonempty(s.drop_last(), c);
        lemma_join_split(s.drop_last(), c, sep);
        if s.last() == c {
            lemma_join_push(front, Seq::empty(), sep);
            assert(s.drop_last() + sep + Seq::<char>::empty() =~= s);
        } else {
            let init = front.drop_last();
            assert(front =~= init.push(front.last()));
            lemma_join_push(init, front.last(), sep);
            lemma_join_push(init, front.last().push(s.last()), sep);
            if init.len() == 0 {
                assert(front.last().push(s.last()) =~= s);
            } else {
                assert(join(init, sep) + sep + front.last().push(s.last()) =~= (join(init, sep)
                    + sep + front.last()).push(s.last()));
                assert(s.drop_last().push(s.last()) =~= s);
            }
        }
    }
}

pub proof fn lemma_join_add(a: Seq<Seq<char>>, b: Seq<Seq<char>>, sep: Seq<char>)
    requires
        a.len() > 0,
        b.len() > 0,
    ensures
        join(a + b, sep) == join(a, sep) + sep + join(b, sep),
    decreases b.len(),
{
    let init = b.drop_last();
    assert(a + b =~= (a + init).push(b.last()));
    lemma_join_push(a + init, b.last(), sep);
    assert(b =~= init.push(b.last()));
    lemma_join_push(init, b.last(), sep);
    if init.len() == 0 {
        assert(a + init =~= a);
    } else {
        lemma_join_add(a, init, sep);
        assert(join(a, sep) + sep + join(init, sep) + sep + b.last() =~= join(a, sep) + sep + (join(
            init,
            sep,
        ) + sep + b.last()));
    }
}

/// A word is not empty and holds no white space.
pub proof fn lemma_words(s: Seq<char>)
    ensures
        forall|i: int|
            0 <= i < words(s).len() ==> (#[trigger] words(s)[i]).len() > 0 && space_free(
                words(s)[i],
            ),
{
    lemma_split_free(s, spaces());
    let all = split_by(s, spaces());
    assert forall|i: int| 0 <= i < all.len() implies space_free(#[trigger] all[i]) by {
        assert(free_of(all[i], spaces()));
    }
    lemma_non_empty_sub(split_by(s, spaces()));
}


pub fn split_once(s: &str, c: char) -> (r: Option<(String, String)>)
    ensures
        match r {
            Some((a, b)) => halves(s@, c) == Some((a@, b@)),
            None => halves(s@, c) is None,
        },
{
    let v = to_chars(s);
    let mut p: Vec<char> = Vec::new();
    p.push(c);
    proof {
        assert(p@ =~= seq![c]);
        lemma_find_from(s@, seq![c], 0);
    }
    let n: usize = v.len();
    match find_chars_from(v.as_slice(), p.as_slice(), 0) {
        Some(i) => {
            proof {
                assert(i < n);
                assert(v@.subrange(0, i as int) =~= v@.take(i as int));
                assert(v@.subrange(i + 1, v@.len() as int) =~= v@.skip(i + 1));
            }
            Some((substring(v.as_slice(), 0, i), substring(v.as_slice(), i + 1, n)))
        },
        None => None,
    }
}

pub fn strip_prefix_or_self(s: &str, p: &str) -> (r: String)
    ensures
        r@ == without_prefix(s@, p@),
{
    let v = to_chars(s);
    let q = to_chars(p);
    if occurs(v.as_slice(), q.as_slice(), 0) {
        proof {
            assert(v@.subrange(q@.len() as int, v@.len() as int) =~= v@.skip(q@.len() as int));
        }
        substring(v.as_slice(), q.len(), v.len())
    } else {
        s.to_owned()
    }
}


fn char_ascii_lower(c: char) -> (r: char)
    ensures
        r == ascii_lower(c),
{
    if 'A' <= c && c <= 'Z' {
        (c as u8 + 32) as char
    } else {
        c
    }
}

/// The text with its ASCII capitals in lower case.
pub fn to_ascii_lower(s: &str) -> (r: String)
    ensures
        r@ == ascii_lowered(s@),
{
    let v = to_chars(s);
    let mut out: String = String::new();
    let mut i: usize = 0;
    while i < v.len()
        invariant
            i <= v@.len(),
            out@ == ascii_lowered(v@.take(i as int)),
        decreases v.len() - i,
    {
        out.push(char_ascii_lower(v[i]));
        proof {
            assert(ascii_lowered(v@.take(i + 1)) =~= out@);
        }
        i += 1;
    }
    proof {
        assert(v@.take(v@.len() as int) =~= v@);
    }
    out
}


fn blanks_to(len: usize, width: usize) -> (r: String)
    ensures
        r@ == blanks(width - len),
{
    let mut r: String = String::new();
    let mut i: usize = len;
    proof {
        assert(r@ =~= blanks(0));
    }
    while i < width
        invariant
            len <= i,
            len <= width ==> i <= width,
            len > width ==> i == len,
            r@ == blanks(i - len),
        decreases width - i,
    {
        r.push(' ');
        proof {
            assert(r@ =~= blanks(i + 1 - len));
        }
        i += 1;
    }
    proof {
        assert(r@ =~= blanks(width - len));
    }
    r
}

pub fn pad(s: &str, width: usize) -> (r: String)
    ensures
        r@ == padded(s@, width as int),
{
    let v = to_chars(s);
    let mut r = s.to_owned();
    r.append(blanks_to(v.len(), width).as_str());
    r
}

pub fn pad_left(s: &str, width: usize) -> (r: String)
    ensures
        r@ == padded_left(s@, width as int),
{
    let v = to_chars(s);
    let mut r = blanks_to(v.len(), width);
    r.append(s);
    r
}

impl IntError {
    pub open spec fn text(&self) -> Seq<char> {
        match self {
            IntError::Empty => "cannot parse integer from empty string"@,
            IntError::InvalidDigit => "invalid digit found in string"@,
            IntError::TooLarge => "number too large to fit in target type"@,
            IntError::TooSmall => "number too small to fit in target type"@,
        }
    }

    /// The error in words.
    pub fn message(&self) -> (r: &'static str)
        ensures
            r@ == self.text(),
    {
        match self {
            IntError::Empty => "cannot parse integer from empty string",
            IntError::InvalidDigit => "invalid digit found in string",
            IntError::TooLarge => "number too large to fit in target type",
            IntError::TooSmall => "number too small to fit in target type",
        }
    }
}


/// The order of texts, as a relation.
pub open spec fn by_text() -> spec_fn(Seq<char>, Seq<char>) -> bool {
    |a: Seq<char>, b: Seq<char>| text_le(a, b)
}

fn string_before(a: &String, b: &String) -> (r: bool)
    ensures
        r == text_le(a@, b@),
{
    str_le(a.as_str(), b.as_str())
}

/// The strings in the order of their texts.
pub fn sort_strings(v: Vec<String>) -> (r: Vec<String>)
    ensures
        texts(r@) == crate::order::sorted(texts(v@), by_text()),
{
    let ghost le = |a: String, b: String| text_le(a@, b@);
    let ghost f = |s: String| s@;
    let ghost all = v@;
    let r = crate::order::sort_stable(v, string_before, Ghost(le));
    proof {
        assert forall|a: String, b: String| #[trigger] le(a, b) == by_text()(f(a), f(b)) by {}
        crate::order::lemma_sorted_map(all, f, le, by_text());
        assert(texts(r@) == r@.map_values(f));
        assert(texts(all) == all.map_values(f));
    }
    r
}

/// The order of texts is total, so sorting by it puts texts in order.
pub proof fn lemma_by_text_total()
    ensures
        crate::order::total(by_text()),
{
    assert forall|a: Seq<char>, b: Seq<char>| #[trigger] by_text()(a, b) || #[trigger] by_text()(
        b,
        a,
    ) by {
        lemma_text_le_total(a, b);
    }
    assert forall|a: Seq<char>, b: Seq<char>, c: Seq<char>| #[trigger]
        by_text()(a, b) && #[trigger] by_text()(b, c) implies by_text()(a, c) by {
        lemma_text_le_trans(a, b, c);
    }
}

/// A copy of each string.
pub(crate) fn copy_strings(v: &Vec<String>) -> (r: Vec<String>)
    ensures
        texts(r@) == texts(v@),
{
    let mut r: Vec<String> = Vec::new();
    let mut i: usize = 0;
    while i < v.len()
        invariant
            i <= v@.len(),
            r@.len() == i,
            forall|k: int| 0 <= k < i ==> (#[trigger] r@[k])@ == v@[k]@,
        decreases v.len() - i,
    {
        r.push(v[i].as_str().to_owned());
        i += 1;
    }
    proof {
        assert(texts(r@) =~= texts(v@));
    }
    r
}

pub(crate) fn copy_opt(s: Option<&str>) -> (r: Option<String>)
    ensures
        crate::json::is_text(r, crate::memory::provider::opt_str(s)),
{
    match s {
        Some(x) => Some(x.to_owned()),
        None => None,
    }
}

// ── Laws ─────────────────────────────────────────────────────────────────────
/// Whether `s` has from `from` up to `to` a run without separators that goes as
/// far as it can.
pub open spec fn is_run(s: Seq<char>, cut: spec_fn(char) -> bool, from: int, to: int) -> bool {
    &&& 0 <= from <= to <= s.len()
    &&& free_of(s.subrange(from, to), cut)
    &&& from == 0 || cut(s[from - 1])
    &&& to == s.len() || cut(s[to])
}

proof fn lemma_piece_is_run(s: Seq<char>, cut: spec_fn(char) -> bool, i: int) -> (from: int)
    requires
        0 <= i < split_by(s, cut).len(),
    ensures
        is_run(s, cut, from, from + split_by(s, cut)[i].len()),
        s.subrange(from, from + split_by(s, cut)[i].len()) == split_by(s, cut)[i],
        (i == split_by(s, cut).len() - 1) == (from + split_by(s, cut)[i].len() == s.len()),
    decreases s.len(),
{
    let all = split_by(s, cut);
    lemma_split_free(s, cut);
    if s.len() == 0 {
        assert(s.subrange(0, 0) =~= all[0]);
        0
    } else {
        let short = s.drop_last();
        let front = split_by(short, cut);
        lemma_split_len(short, cut);
        if cut(s.last()) && i == all.len() - 1 {
            assert(s.subrange(s.len() as int, s.len() as int) =~= all[i]);
            s.len() as int
        } else {
            let from = lemma_piece_is_run(short, cut, i);
            let n = front[i].len();
            if i < front.len() - 1 {
                assert(all[i] == front[i]);
                assert(s.subrange(from, from + n) =~= short.subrange(from, from + n));
            } else if cut(s.last()) {
                assert(all[i] == front[i]);
                assert(s.subrange(from, from + n) =~= short.subrange(from, from + n));
            } else {
                assert(all[i] == front[i].push(s.last()));
                assert(s.subrange(from, from + n + 1) =~= short.subrange(from, from + n).push(
                    s.last(),
                ));
            }
            from
        }
    }
}

proof fn lemma_run_is_piece(s: Seq<char>, cut: spec_fn(char) -> bool, from: int, to: int) -> (i: int)
    requires
        is_run(s, cut, from, to),
    ensures
        0 <= i < split_by(s, cut).len(),
        split_by(s, cut)[i] == s.subrange(from, to),
        (to == s.len()) == (i == split_by(s, cut).len() - 1),
    decreases s.len(),
{
    let all = split_by(s, cut);
    if s.len() == 0 {
        assert(s.subrange(from, to) =~= all[0]);
        0
    } else {
        let short = s.drop_last();
        let front = split_by(short, cut);
        lemma_split_len(short, cut);
        let n = s.len() as int;
        if to < n {
            assert(short.subrange(from, to) =~= s.subrange(from, to));
            let i = lemma_run_is_piece(short, cut, from, to);
            assert(all[i] == front[i]);
            i
        } else if from == n {
            assert(s.subrange(from, to) =~= Seq::<char>::empty());
            front.len() as int
        } else {
            let run = s.subrange(from, to);
            let less = short.subrange(from, n - 1);
            assert(run[to - from - 1] == s.last());
            assert forall|k: int| 0 <= k < less.len() implies !cut(#[trigger] less[k]) by {
                assert(run[k] == less[k]);
            }
            let i = lemma_run_is_piece(short, cut, from, n - 1);
            assert(less.push(s.last()) =~= run);
            assert(all[i] =~= run);
            i
        }
    }
}

/// What a text is cut into: a piece is a run without separators that goes as far
/// as it can, and every such run is a piece.
pub proof fn law_pieces_are_the_runs(s: Seq<char>, cut: spec_fn(char) -> bool, w: Seq<char>)
    ensures
        split_by(s, cut).contains(w) == (exists|from: int, to: int| #[trigger]
            is_run(s, cut, from, to) && s.subrange(from, to) == w),
{
    if split_by(s, cut).contains(w) {
        let i = choose|i: int| 0 <= i < split_by(s, cut).len() && split_by(s, cut)[i] == w;
        let from = lemma_piece_is_run(s, cut, i);
        assert(is_run(s, cut, from, from + w.len()));
    }
    if exists|from: int, to: int| #[trigger]
        is_run(s, cut, from, to) && s.subrange(from, to) == w {
        let (from, to) = choose|from: int, to: int| #[trigger]
            is_run(s, cut, from, to) && s.subrange(from, to) == w;
        let i = lemma_run_is_piece(s, cut, from, to);
        assert(split_by(s, cut)[i] == w);
    }
}

pub proof fn lemma_non_empty_has(parts: Seq<Seq<char>>, w: Seq<char>)
    ensures
        non_empty(parts).contains(w) == (parts.contains(w) && w.len() > 0),
{
    let keep = |p: Seq<char>| p.len() > 0;
    let at = crate::lists::lemma_filter_places(parts, keep);
    let r = parts.filter(keep);
    assert(r == non_empty(parts));
    if r.contains(w) {
        let k = choose|k: int| 0 <= k < r.len() && r[k] == w;
        assert(at.contains(at[k]));
        assert(parts[at[k]] == w);
    }
    if parts.contains(w) && w.len() > 0 {
        let i = choose|i: int| 0 <= i < parts.len() && parts[i] == w;
        assert(at.contains(i));
        let k = choose|k: int| 0 <= k < at.len() && at[k] == i;
        assert(r[k] == w);
    }
}

/// The pieces that are not empty are the runs that are not empty.
pub proof fn lemma_non_empty_runs(s: Seq<char>, cut: spec_fn(char) -> bool, w: Seq<char>)
    ensures
        non_empty(split_by(s, cut)).contains(w) == (w.len() > 0 && exists|from: int, to: int|
         #[trigger] is_run(s, cut, from, to) && s.subrange(from, to) == w),
{
    law_pieces_are_the_runs(s, cut, w);
    lemma_non_empty_has(split_by(s, cut), w);
}

proof fn lemma_trim_start_parts(s: Seq<char>) -> (n: int)
    ensures
        0 <= n <= s.len(),
        trim_start(s) == s.skip(n),
        forall|i: int| 0 <= i < n ==> is_space(#[trigger] s[i]),
        n < s.len() ==> !is_space(s[n]),
    decreases s.len(),
{
    if s.len() > 0 && is_space(s[0]) {
        let rest = s.drop_first();
        let n = lemma_trim_start_parts(rest);
        assert(rest.skip(n) =~= s.skip(n + 1));
        assert forall|i: int| 0 <= i < n + 1 implies is_space(#[trigger] s[i]) by {
            if i > 0 {
                assert(rest[i - 1] == s[i]);
            }
        }
        assert(n < rest.len() ==> rest[n] == s[n + 1]);
        n + 1
    } else {
        assert(s.skip(0) =~= s);
        0
    }
}

proof fn lemma_trim_end_parts(s: Seq<char>) -> (n: int)
    ensures
        0 <= n <= s.len(),
        trim_end(s) == s.take(n),
        forall|i: int| n <= i < s.len() ==> is_space(#[trigger] s[i]),
        n > 0 ==> !is_space(s[n - 1]),
    decreases s.len(),
{
    if s.len() > 0 && is_space(s.last()) {
        let rest = s.drop_last();
        let n = lemma_trim_end_parts(rest);
        assert(rest.take(n) =~= s.take(n));
        assert forall|i: int| n <= i < s.len() implies is_space(#[trigger] s[i]) by {
            if i < rest.len() {
                assert(rest[i] == s[i]);
            }
        }
        n
    } else {
        assert(s.take(s.len() as int) =~= s);
        s.len() as int
    }
}

/// Trimming takes white space away at both ends and nothing else: a text is white
/// space, what is left of it, and white space, and what is left neither begins
/// nor ends with any.
pub proof fn law_trim(s: Seq<char>)
    ensures
        exists|i: int, j: int| #[trigger]
            is_inner(s, i, j) && trim(s) == s.subrange(i, j),
{
    let i = lemma_trim_start_parts(s);
    let n = lemma_trim_end_parts(s.skip(i));
    let j = i + n;
    assert(s.skip(i).take(n) =~= s.subrange(i, j));
    assert forall|k: int| j <= k < s.len() implies is_space(#[trigger] s[k]) by {
        assert(s.skip(i)[k - i] == s[k]);
    }
    if n > 0 {
        assert(s.skip(i)[n - 1] == s[j - 1]);
        assert(i < s.len());
    }
    assert(is_inner(s, i, j));
}

/// Whether there is only white space in front of `i` and behind `j`, and none at
/// the ends of what lies between.
pub open spec fn is_inner(s: Seq<char>, i: int, j: int) -> bool {
    &&& 0 <= i <= j <= s.len()
    &&& forall|k: int| 0 <= k < i ==> is_space(#[trigger] s[k])
    &&& forall|k: int| j <= k < s.len() ==> is_space(#[trigger] s[k])
    &&& i < j ==> !is_space(s[i]) && !is_space(s[j - 1])
}

/// What has no white space at its ends is left as it is.
pub proof fn lemma_trim_fixed(s: Seq<char>)
    requires
        s.len() > 0 ==> !is_space(s[0]) && !is_space(s.last()),
    ensures
        trim(s) == s,
{
}

/// Nothing is left to trim of a trimmed text.
pub proof fn lemma_trim_twice(s: Seq<char>)
    ensures
        trim(trim(s)) == trim(s),
        trim(s).len() > 0 ==> !is_space(trim(s)[0]) && !is_space(trim(s).last()),
{
    let i = lemma_trim_start_parts(s);
    let t = s.skip(i);
    let n = lemma_trim_end_parts(t);
    if n > 0 {
        assert(t.take(n)[0] == s[i]);
        assert(t.take(n).last() == t[n - 1]);
    }
    lemma_trim_fixed(trim(s));
}

/// A text without a line break is one line, or none where it is empty; a line break
/// ends the first line, which loses a carriage return at its end, and the other lines
/// are those of the rest.
pub proof fn law_lines(line: Seq<char>, rest: Seq<char>)
    requires
        !line.contains('\n'),
    ensures
        line.len() > 0 ==> lines(line) == seq![line],
        lines(Seq::empty()).len() == 0,
        lines(line.push('\n') + rest) == seq![strip_cr(line)] + lines(rest),
{
    let cut = is_char('\n');
    lemma_split_whole(line, cut);
    assert(split(line, '\n') == seq![line]);
    let all = line.push('\n') + rest;
    lemma_split_around(line, '\n', rest, cut);
    lemma_split_len(rest, cut);
    let parts = split(rest, '\n');
    assert(split(all, '\n') =~= seq![line] + parts);
    assert(split(all, '\n').last() == parts.last());
    assert(split(all, '\n').drop_last() =~= seq![line] + parts.drop_last());
    let f = |p: Seq<char>| strip_cr(p);
    assert((seq![line] + parts.drop_last()).map_values(f) =~= seq![strip_cr(line)]
        + parts.drop_last().map_values(f));
    assert(lines(all) =~= seq![strip_cr(line)] + lines(rest));
    assert(split(line, '\n').drop_last().map_values(f) =~= Seq::<Seq<char>>::empty());
    if line.len() > 0 {
        assert(lines(line) =~= seq![line]);
    }
    let none = Seq::<char>::empty();
    assert(split(none, '\n') == seq![none]);
    assert(split(none, '\n').drop_last().map_values(f) =~= Seq::<Seq<char>>::empty());
}

pub proof fn lemma_split_whole(s: Seq<char>, cut: spec_fn(char) -> bool)
    requires
        forall|i: int| 0 <= i < s.len() ==> !cut(#[trigger] s[i]),
    ensures
        split_by(s, cut) == seq![s],
    decreases s.len(),
{
    if s.len() > 0 {
        let front = s.drop_last();
        assert forall|i: int| 0 <= i < front.len() implies !cut(#[trigger] front[i]) by {
            assert(front[i] == s[i]);
        }
        lemma_split_whole(front, cut);
        assert(!cut(s[s.len() - 1]));
        assert(front.push(s.last()) =~= s);
        assert(split_by(s, cut) =~= seq![s]);
    } else {
        assert(s =~= Seq::<char>::empty());
    }
}

/// A numeral is digits only, without a zero in front but for zero itself, and its
/// digits have the value of the number.
pub proof fn law_numeral(n: nat)
    ensures
        numeral(n).len() > 0,
        forall|i: int| 0 <= i < numeral(n).len() ==> is_digit(#[trigger] numeral(n)[i]),
        digits_value(numeral(n)) == n,
        n > 0 ==> numeral(n)[0] != '0',
        n < 10 ==> numeral(n).len() == 1,
        n >= 10 ==> numeral(n).len() == numeral(n / 10).len() + 1,
    decreases n,
{
    if n < 10 {
        assert(numeral(n).drop_last() =~= Seq::<char>::empty());
        assert(digits_value(Seq::<char>::empty()) == 0);
        assert(digit_value(digit(n)) == n);
    } else {
        law_numeral(n / 10);
        let front = numeral(n / 10);
        assert(numeral(n).drop_last() =~= front);
        assert(digit_value(digit(n % 10)) == n % 10);
        assert forall|i: int| 0 <= i < numeral(n).len() implies is_digit(
            #[trigger] numeral(n)[i],
        ) by {
            if i < front.len() {
                assert(numeral(n)[i] == front[i]);
            }
        }
        assert(numeral(n)[0] == front[0]);
    }
}

/// A number is read back from its numeral, with or without a sign, as far as it fits.
pub proof fn law_numerals_are_read_back(n: nat)
    ensures
        n <= u64::MAX ==> parse_unsigned(numeral(n)) == Ok::<int, IntError>(n as int),
        n <= u64::MAX ==> parse_unsigned(seq!['+'] + numeral(n)) == Ok::<int, IntError>(n as int),
        n > u64::MAX ==> parse_unsigned(numeral(n)) == Err::<int, IntError>(IntError::TooLarge),
        n <= i64::MAX ==> parse_signed(numeral(n)) == Ok::<int, IntError>(n as int),
        n <= 0x8000_0000_0000_0000 ==> parse_signed(seq!['-'] + numeral(n)) == Ok::<int, IntError>(
            -(n as int),
        ),
        parse_unsigned(Seq::empty()) == Err::<int, IntError>(IntError::Empty),
{
    law_numeral(n);
    let s = numeral(n);
    lemma_all_digits_run(s);
    assert(s.take(s.len() as int) =~= s);
    assert(is_digit(s[0]));
    assert((seq!['+'] + s).skip(1) =~= s);
    assert((seq!['-'] + s).skip(1) =~= s);
}

proof fn lemma_all_digits_run(s: Seq<char>)
    requires
        forall|i: int| 0 <= i < s.len() ==> is_digit(#[trigger] s[i]),
    ensures
        digit_run(s) == s.len(),
    decreases s.len(),
{
    if s.len() > 0 {
        let rest = s.drop_first();
        assert forall|i: int| 0 <= i < rest.len() implies is_digit(#[trigger] rest[i]) by {
            assert(rest[i] == s[i + 1]);
        }
        assert(is_digit(s[0]));
        lemma_all_digits_run(rest);
    }
}

/// A text with anything but digits in it, behind an optional sign, is no number.
pub proof fn law_no_number(s: Seq<char>, i: int)
    requires
        0 <= i < s.len(),
        !is_digit(s[i]),
        i > 0 || (s[0] != '+' && s[0] != '-'),
    ensures
        parse_unsigned(s) is Err,
        parse_signed(s) is Err,
{
    let t = s.skip(1);
    lemma_digit_run(s);
    lemma_digit_run(t);
    if i > 0 {
        assert(t[i - 1] == s[i]);
    }
}

/// A padded text is as long as asked, or longer where the text is; it holds the text
/// at its front, or at its end, and else spaces only.
pub proof fn law_padding(s: Seq<char>, width: int, i: int)
    ensures
        padded(s, width).len() == if s.len() >= width {
            s.len() as int
        } else {
            width
        },
        padded(s, width).take(s.len() as int) == s,
        s.len() <= i < padded(s, width).len() ==> padded(s, width)[i] == ' ',
        padded_left(s, width).len() == padded(s, width).len(),
        padded_left(s, width).skip(padded_left(s, width).len() - s.len()) == s,
        0 <= i < padded_left(s, width).len() - s.len() ==> padded_left(s, width)[i] == ' ',
{
    assert(padded(s, width).take(s.len() as int) =~= s);
    assert(padded_left(s, width).skip(padded_left(s, width).len() - s.len()) =~= s);
}

/// Replacing a character keeps every other one in its place.
pub proof fn law_replace(s: Seq<char>, from: char, to: char, i: int)
    requires
        0 <= i < s.len(),
    ensures
        replace_char(s, from, to).len() == s.len(),
        s[i] == from ==> replace_char(s, from, to)[i] == to,
        s[i] != from ==> replace_char(s, from, to)[i] == s[i],
{
}

/// A text is halved at the first mark: what stands in front holds none.
pub proof fn law_halves(front: Seq<char>, c: char, back: Seq<char>)
    ensures
        !front.contains(c) ==> halves(front.push(c) + back, c) == Some((front, back)),
        halves(front, c) is None == !front.contains(c),
{
    let s = front.push(c) + back;
    let n = front.len() as int;
    let p = seq![c];
    lemma_find_from(s, p, 0);
    lemma_find_from(front, p, 0);
    assert(s.subrange(n, n + 1) =~= p);
    assert(occurs_at(s, p, n));
    if !front.contains(c) {
        assert forall|j: int| 0 <= j < n implies !occurs_at(s, p, j) by {
            if occurs_at(s, p, j) {
                assert(s.subrange(j, j + 1)[0] == c);
                assert(front[j] == c);
            }
        }
        assert(find(s, p) == Some(n));
        assert(s.take(n) =~= front);
        assert(s.skip(n + 1) =~= back);
    }
    match find(front, p) {
        Some(i) => {
            assert(front.subrange(i, i + 1)[0] == c);
            assert(front[i] == c);
        },
        None => {
            if front.contains(c) {
                let i = choose|i: int| 0 <= i < front.len() && front[i] == c;
                assert(front.subrange(i, i + 1) =~= p);
                assert(occurs_at(front, p, i));
            }
        },
    }
}

/// The order of texts goes by their first difference, and a text comes before every
/// longer one that begins with it.
pub proof fn law_text_order(a: Seq<char>, x: char, y: char, b: Seq<char>, c: Seq<char>)
    ensures
        x < y ==> text_le(a.push(x) + b, a.push(y) + c) && !text_le(a.push(y) + c, a.push(x) + b),
        text_le(a, a + b),
        b.len() > 0 ==> !text_le(a + b, a),
    decreases a.len(),
{
    let l = a.push(x) + b;
    let r = a.push(y) + c;
    if a.len() == 0 {
        assert(l[0] == x && r[0] == y);
    } else {
        let t = a.drop_first();
        law_text_order(t, x, y, b, c);
        assert(l.drop_first() =~= t.push(x) + b);
        assert(r.drop_first() =~= t.push(y) + c);
        assert((a + b).drop_first() =~= t + b);
        assert(l[0] == a[0] && r[0] == a[0] && (a + b)[0] == a[0]);
    }
}

/// A text starts with its front, ends with its back and contains its middle; and what a
/// text starts or ends with, or contains, is such a part of it.
pub proof fn law_parts_of_a_text(a: Seq<char>, m: Seq<char>, b: Seq<char>, s: Seq<char>, p: Seq<char>)
    ensures
        starts_with(a + b, a),
        ends_with(a + b, b),
        contains(a + m + b, m),
        starts_with(s, p) ==> s == p + s.skip(p.len() as int),
        ends_with(s, p) ==> s == s.take(s.len() - p.len()) + p,
        contains(s, p) ==> p.len() <= s.len(),
        without_prefix(a + b, a) == b,
        !starts_with(s, p) ==> without_prefix(s, p) == s,
{
    assert((a + b).subrange(0, a.len() as int) =~= a);
    assert((a + b).subrange(a.len() as int, (a + b).len() as int) =~= b);
    assert((a + m + b).subrange(a.len() as int, (a.len() + m.len()) as int) =~= m);
    assert(occurs_at(a + m + b, m, a.len() as int));
    assert((a + b).skip(a.len() as int) =~= b);
    if starts_with(s, p) {
        assert(s =~= p + s.skip(p.len() as int));
    }
    if ends_with(s, p) {
        assert(s =~= s.take(s.len() - p.len()) + p);
    }
}

/// What is found is the first of its kind, and nothing is found only where nothing is.
pub proof fn law_find(s: Seq<char>, p: Seq<char>, k: int)
    ensures
        occurs_at(s, p, k) && (forall|j: int| 0 <= j < k ==> !occurs_at(s, p, j)) ==> find(s, p)
            == Some(k),
        find(s, p) is None ==> !contains(s, p),
        find(s, p) is Some ==> contains(s, p),
{
    lemma_find_from(s, p, 0);
    if find(s, p) is None && contains(s, p) {
        let i = choose|i: int| occurs_at(s, p, i);
        assert(0 <= i);
    }
}

/// Texts are joined with the separator between any two neighbours, and nowhere else.
pub proof fn law_join(a: Seq<Seq<char>>, b: Seq<Seq<char>>, x: Seq<char>, sep: Seq<char>)
    ensures
        join(Seq::<Seq<char>>::empty(), sep).len() == 0,
        join(seq![x], sep) == x,
        a.len() > 0 && b.len() > 0 ==> join(a + b, sep) == join(a, sep) + sep + join(b, sep),
{
    if a.len() > 0 && b.len() > 0 {
        lemma_join_add(a, b, sep);
    }
}

/// Only the capitals of ASCII change in lower case, each to the letter 32 places on.
pub proof fn law_ascii_lowercase(s: Seq<char>, i: int)
    requires
        0 <= i < s.len(),
    ensures
        ascii_lowered(s).len() == s.len(),
        'A' <= s[i] <= 'Z' ==> ascii_lowered(s)[i] as u32 == s[i] as u32 + 32,
        !('A' <= s[i] <= 'Z') ==> ascii_lowered(s)[i] == s[i],
{
}

/// The first characters of a text are its front, all of it where it is no longer.
pub proof fn law_first_chars(s: Seq<char>, n: nat)
    ensures
        first_chars(s, n).len() == if s.len() < n {
            s.len()
        } else {
            n
        },
        forall|i: int|
            0 <= i < first_chars(s, n).len() ==> #[trigger] first_chars(s, n)[i] == s[i],
{
}

/// What is left once copies of a character are stripped from both ends neither starts nor
/// ends with it, and only copies of it are gone.
pub proof fn law_strip(s: Seq<char>, c: char)
    ensures
        strip_start(s, c).len() > 0 ==> strip_start(s, c)[0] != c,
        strip_end(s, c).len() > 0 ==> strip_end(s, c).last() != c,
        strip_start(seq![c] + s, c) == strip_start(s, c),
        strip_end(s.push(c), c) == strip_end(s, c),
        s.len() > 0 && s[0] != c ==> strip_start(s, c) == s && leading(s, c) == 0,
        s.len() > 0 && s.last() != c ==> strip_end(s, c) == s,
        leading(seq![c] + s, c) == leading(s, c) + 1,
        leading(Seq::empty(), c) == 0,
    decreases s.len(),
{
    assert((seq![c] + s).drop_first() =~= s);
    assert(s.push(c).drop_last() =~= s);
    if s.len() > 0 {
        if s[0] == c {
            law_strip(s.drop_first(), c);
        }
        if s.last() == c {
            law_strip(s.drop_last(), c);
        }
    }
}

} // verus!
