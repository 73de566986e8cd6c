//! Text as sequences of characters: trimming, searching, splitting, ordering and
//! decimal numbers, each with an exact model on `Seq<char>`.

use vstd::prelude::*;
use vstd::slice::slice_subrange;

verus! {

broadcast use vstd::string::group_string_axioms;

// ── Models ────────────────────────────────────────────────────────────────────

/// The contents of a list of strings.
pub open spec fn texts(v: Seq<String>) -> Seq<Seq<char>> {
    Seq::new(v.len(), |i: int| v[i]@)
}

/// The contents of a string that may be missing.
pub open spec fn opt_text(o: Option<String>) -> Option<Seq<char>> {
    match o {
        Some(s) => Some(s@),
        None => None,
    }
}

/// The characters that Unicode gives the property `White_Space`.
pub open spec fn is_white(c: char) -> bool {
    let u = c as u32;
    ||| 0x09 <= u <= 0x0d
    ||| u == 0x20
    ||| u == 0x85
    ||| u == 0xa0
    ||| u == 0x1680
    ||| 0x2000 <= u <= 0x200a
    ||| u == 0x2028
    ||| u == 0x2029
    ||| u == 0x202f
    ||| u == 0x205f
    ||| u == 0x3000
}

/// `s` without its leading white space.
pub open spec fn trim_start(s: Seq<char>) -> Seq<char>
    decreases s.len(),
{
    if s.len() > 0 && is_white(s[0]) {
        trim_start(s.skip(1))
    } else {
        s
    }
}

/// `s` without its trailing white space.
pub open spec fn trim_end(s: Seq<char>) -> Seq<char>
    decreases s.len(),
{
    if s.len() > 0 && is_white(s.last()) {
        trim_end(s.drop_last())
    } else {
        s
    }
}

/// `s` without the white space at both ends.
pub open spec fn trimmed(s: Seq<char>) -> Seq<char> {
    trim_end(trim_start(s))
}

/// `s` without the copies of `c` that it starts with.
pub open spec fn trim_start_char(s: Seq<char>, c: char) -> Seq<char>
    decreases s.len(),
{
    if s.len() > 0 && s[0] == c {
        trim_start_char(s.skip(1), c)
    } else {
        s
    }
}

/// `s` without the copies of the non-empty text `p` that it starts with.
pub open spec fn trim_start_text(s: Seq<char>, p: Seq<char>) -> Seq<char>
    decreases s.len(),
{
    if p.len() > 0 && begins(s, p) {
        trim_start_text(s.skip(p.len() as int), p)
    } else {
        s
    }
}

/// `p` stands in `s` at position `i`.
pub open spec fn occurs_at(s: Seq<char>, p: Seq<char>, i: int) -> bool {
    0 <= i && i + p.len() <= s.len() && s.subrange(i, i + p.len()) == p
}

/// `p` stands somewhere in `s`.
pub open spec fn occurs(s: Seq<char>, p: Seq<char>) -> bool {
    exists|i: int| occurs_at(s, p, i)
}

/// `s` starts with `p`.
pub open spec fn begins(s: Seq<char>, p: Seq<char>) -> bool {
    p.len() <= s.len() && s.take(p.len() as int) == p
}

/// `s` ends with `p`.
pub open spec fn finishes(s: Seq<char>, p: Seq<char>) -> bool {
    p.len() <= s.len() && s.skip(s.len() - p.len()) == p
}

/// What follows the prefix `p` in `s`, if `s` has it.
pub open spec fn after_prefix(s: Seq<char>, p: Seq<char>) -> Option<Seq<char>> {
    if begins(s, p) {
        Some(s.skip(p.len() as int))
    } else {
        None
    }
}

/// Position of the first `c` in `s`, or the length of `s` if there is none.
pub open spec fn find_char(s: Seq<char>, c: char) -> int
    decreases s.len(),
{
    if s.len() == 0 || s[0] == c {
        0
    } else {
        1 + find_char(s.skip(1), c)
    }
}

/// The pieces of `s` between the separators `c`; always one more than there are separators.
pub open spec fn split_on(s: Seq<char>, c: char) -> Seq<Seq<char>>
    decreases s.len(),
{
    let i = find_char(s, c);
    if 0 <= i < s.len() {
        seq![s.take(i)] + split_on(s.skip(i + 1), c)
    } else {
        seq![s]
    }
}

/// A text always has at least one piece.
pub proof fn lemma_split_len(s: Seq<char>, c: char)
    ensures
        split_on(s, c).len() >= 1,
    decreases s.len(),
{
    let i = find_char(s, c);
    if 0 <= i < s.len() {
        lemma_split_len(s.skip(i + 1), c);
    }
}

/// A line without the carriage return that stood before its line feed.
pub open spec fn without_cr(line: Seq<char>) -> Seq<char> {
    if line.len() > 0 && line.last() == '\r' {
        line.drop_last()
    } else {
        line
    }
}

/// The lines of `s`. A line ends in a line feed, or in a carriage return and a line
/// feed; the last one may end in neither.
pub open spec fn lines(s: Seq<char>) -> Seq<Seq<char>>
    decreases s.len(),
{
    let i = find_char(s, '\n');
    if s.len() == 0 {
        seq![]
    } else if 0 <= i < s.len() {
        seq![without_cr(s.take(i))] + lines(s.skip(i + 1))
    } else {
        seq![s]
    }
}

/// The first line of `s`, empty where `s` has none.
pub open spec fn first_line(s: Seq<char>) -> Seq<char> {
    if lines(s).len() > 0 {
        lines(s)[0]
    } else {
        seq![]
    }
}

/// Number of characters before the first white space in `s`.
pub open spec fn word_len(s: Seq<char>) -> int
    decreases s.len(),
{
    if s.len() == 0 || is_white(s[0]) {
        0
    } else {
        1 + word_len(s.skip(1))
    }
}

/// The words of `s`: its longest runs without white space.
pub open spec fn words(s: Seq<char>) -> Seq<Seq<char>>
    decreases s.len(),
{
    if s.len() == 0 {
        seq![]
    } else if is_white(s[0]) {
        words(s.skip(1))
    } else if 1 <= word_len(s) <= s.len() {
        seq![s.take(word_len(s))] + words(s.skip(word_len(s)))
    } else {
        seq![]
    }
}

/// The pieces one behind the other with `sep` between neighbours.
pub open spec fn joined(pieces: Seq<Seq<char>>, sep: char) -> Seq<char>
    decreases pieces.len(),
{
    if pieces.len() == 0 {
        seq![]
    } else if pieces.len() == 1 {
        pieces[0]
    } else {
        joined(pieces.drop_last(), sep) + seq![sep] + pieces.last()
    }
}

/// `s` with each `from` turned into `to`.
pub open spec fn replaced(s: Seq<char>, from: char, to: char) -> Seq<char> {
    Seq::new(s.len(), |i: int| if s[i] == from { to } else { s[i] })
}

/// `a` stands before `b` in the order of code points, character by character.
pub open spec fn text_before(a: Seq<char>, b: Seq<char>) -> bool
    decreases a.len(),
{
    if b.len() == 0 {
        false
    } else if a.len() == 0 {
        true
    } else if a[0] == b[0] {
        text_before(a.skip(1), b.skip(1))
    } else {
        (a[0] as int) < (b[0] as int)
    }
}

/// The decimal digit of value `d`.
pub open spec fn digit(d: int) -> char {
    if d == 0 {
        '0'
    } else if d == 1 {
        '1'
    } else if d == 2 {
        '2'
    } else if d == 3 {
        '3'
    } else if d == 4 {
        '4'
    } else if d == 5 {
        '5'
    } else if d == 6 {
        '6'
    } else if d == 7 {
        '7'
    } else if d == 8 {
        '8'
    } else {
        '9'
    }
}

/// `n` in decimal, without leading zeros.
pub open spec fn decimal(n: nat) -> Seq<char>
    decreases n,
{
    if n < 10 {
        seq![digit(n as int)]
    } else {
        decimal(n / 10).push(digit((n % 10) as int))
    }
}

/// A number of 32 bits takes ten digits at most.
pub proof fn lemma_decimal_len(n: nat)
    requires
        n <= u32::MAX,
    ensures
        decimal(n).len() <= 10,
{
    reveal_with_fuel(decimal, 11);
}

/// An integer in decimal, with a minus sign where it is negative.
pub open spec fn decimal_int(n: int) -> Seq<char> {
    if n < 0 {
        seq!['-'] + decimal((-n) as nat)
    } else {
        decimal(n as nat)
    }
}

/// `n` in decimal with at least two digits.
pub open spec fn two_digits(n: nat) -> Seq<char> {
    if n < 10 {
        seq!['0'] + decimal(n)
    } else {
        decimal(n)
    }
}

// ── Outside functions ─────────────────────────────────────────────────────────

/// `String::push` puts the character behind the ones already there.
pub assume_specification[ String::push ](s: &mut String, ch: char)
    ensures
        final(s)@ == old(s)@.push(ch),
;

/// What `str::to_lowercase` makes of a text: its lower-case mapping by the Unicode
/// tables, which may change the number of characters.
pub uninterp spec fn lowercase(s: Seq<char>) -> Seq<char>;

/// Calls `str::to_lowercase`, whose result depends on the text alone.
#[verifier::external_body]
pub(crate) fn to_lower(s: &str) -> (r: String)
    ensures
        r@ == lowercase(s@),
{
    s.to_lowercase()
}

/// What `String::from_utf8_lossy` makes of bytes: their text, with replacement characters
/// for what is not UTF-8.
pub uninterp spec fn utf8_lossy(bytes: Seq<u8>) -> Seq<char>;

/// Calls `String::from_utf8_lossy`, whose result depends on the bytes alone. Valid UTF-8
/// becomes the text that it encodes.
#[verifier::external_body]
pub(crate) fn from_utf8_lossy(bytes: &[u8]) -> (r: String)
    ensures
        r@ == utf8_lossy(bytes@),
        vstd::utf8::valid_utf8(bytes@) ==> r@ == vstd::utf8::decode_utf8(bytes@),
{
    String::from_utf8_lossy(bytes).into_owned()
}

// ── Conversions ───────────────────────────────────────────────────────────────

/// The characters of a string, as a vector.
pub fn chars_of(s: &str) -> (v: Vec<char>)
    ensures
        v@ == s@,
{
    let mut v: Vec<char> = Vec::new();
    for c in it: s.chars()
        invariant
            it.seq() == s@,
            v@ == it.seq().take(it.index()),
    {
        v.push(c);
    }
    assert(v@ =~= s@);
    v
}

/// The string with the given characters.
pub fn string_of(v: &[char]) -> (s: String)
    ensures
        s@ == v@,
{
    let mut s = String::new();
    let mut i: usize = 0;
    while i < v.len()
        invariant
            i <= v@.len(),
            s@ == v@.take(i as int),
        decreases v@.len() - i,
    {
        s.push(v[i]);
        i = i + 1;
        assert(v@.take(i as int) =~= v@.take(i - 1).push(v@[i - 1]));
    }
    assert(v@.take(i as int) =~= v@);
    s
}

/// Whether two strings hold the same characters.
pub fn same(a: &str, b: &str) -> (r: bool)
    ensures
        r == (a@ == b@),
{
    let x = a.as_bytes();
    let y = b.as_bytes();
    proof {
        vstd::utf8::encode_utf8_decode_utf8(a@);
        vstd::utf8::encode_utf8_decode_utf8(b@);
    }
    if x.len() != y.len() {
        return false;
    }
    let mut i: usize = 0;
    while i < x.len()
        invariant
            i <= x@.len(),
            x@.len() == y@.len(),
            x@ == vstd::utf8::encode_utf8(a@),
            y@ == vstd::utf8::encode_utf8(b@),
            forall|k: int| 0 <= k < i ==> x@[k] == y@[k],
        decreases x@.len() - i,
    {
        if x[i] != y[i] {
            return false;
        }
        i = i + 1;
    }
    assert(x@ =~= y@);
    true
}

/// `a` followed by `b`.
pub fn concat(a: &str, b: &str) -> (r: String)
    ensures
        r@ == a@ + b@,
{
    let mut r = String::new();
    r.append(a);
    r.append(b);
    assert(r@ =~= a@ + b@);
    r
}

// ── White space ───────────────────────────────────────────────────────────────

/// Whether Unicode counts `c` as white space.
pub fn white(c: char) -> (b: bool)
    ensures
        b == is_white(c),
{
    let u: u32 = c as u32;
    (0x09 <= u && u <= 0x0d) || u == 0x20 || u == 0x85 || u == 0xa0 || u == 0x1680 || (0x2000 <= u
        && u <= 0x200a) || u == 0x2028 || u == 0x2029 || u == 0x202f || u == 0x205f || u == 0x3000
}

/// The text without the white space at both ends.
pub fn trim(s: &[char]) -> (r: &[char])
    ensures
        r@ == trimmed(s@),
{
    trim_tail(trim_head(s))
}

/// The text without its leading white space.
pub fn trim_head(s: &[char]) -> (r: &[char])
    ensures
        r@ == trim_start(s@),
{
    let mut i: usize = 0;
    assert(s@.skip(0) =~= s@);
    while i < s.len() && white(s[i])
        invariant
            i <= s@.len(),
            trim_start(s@.skip(i as int)) == trim_start(s@),
        decreases s@.len() - i,
    {
        assert(s@.skip(i as int).skip(1) =~= s@.skip(i + 1));
        i = i + 1;
    }
    let r = slice_subrange(s, i, s.len());
    assert(r@ =~= s@.skip(i as int));
    r
}

/// The text without its trailing white space.
pub fn trim_tail(s: &[char]) -> (r: &[char])
    ensures
        r@ == trim_end(s@),
{
    let mut j: usize = s.len();
    assert(s@.take(j as int) =~= s@);
    while j > 0 && white(s[j - 1])
        invariant
            j <= s@.len(),
            trim_end(s@.take(j as int)) == trim_end(s@),
        decreases j,
    {
        assert(s@.take(j as int).drop_last() =~= s@.take(j - 1));
        j = j - 1;
    }
    let r = slice_subrange(s, 0, j);
    assert(r@ =~= s@.take(j as int));
    r
}

/// The text without the copies of `c` that it starts with.
pub fn trim_head_char(s: &[char], c: char) -> (r: &[char])
    ensures
        r@ == trim_start_char(s@, c),
{
    let mut i: usize = 0;
    assert(s@.skip(0) =~= s@);
    while i < s.len() && s[i] == c
        invariant
            i <= s@.len(),
            trim_start_char(s@.skip(i as int), c) == trim_start_char(s@, c),
        decreases s@.len() - i,
    {
        assert(s@.skip(i as int).skip(1) =~= s@.skip(i + 1));
        i = i + 1;
    }
    let r = slice_subrange(s, i, s.len());
    assert(r@ =~= s@.skip(i as int));
    r
}

/// The text without the copies of `p` that it starts with.
pub fn trim_head_text<'a>(s: &'a [char], p: &str) -> (r: &'a [char])
    ensures
        r@ == trim_start_text(s@, p@),
{
    let pat = chars_of(p);
    if pat.len() == 0 {
        return s;
    }
    let mut i: usize = 0;
    assert(s@.skip(0) =~= s@);
    while starts(slice_subrange(s, i, s.len()), pat.as_slice())
        invariant
            i <= s@.len(),
            pat@ == p@,
            pat@.len() > 0,
            trim_start_text(s@.skip(i as int), p@) == trim_start_text(s@, p@),
        decreases s@.len() - i,
    {
        assert(s@.subrange(i as int, s@.len() as int) =~= s@.skip(i as int));
        assert(s@.skip(i as int).skip(pat@.len() as int) =~= s@.skip(i + pat@.len()));
        i = i + pat.len();
    }
    let r = slice_subrange(s, i, s.len());
    assert(r@ =~= s@.skip(i as int));
    r
}

// ── Searching ─────────────────────────────────────────────────────────────────

/// Whether `p` stands in `s` at position `i`.
fn stands_at(s: &[char], p: &[char], i: usize) -> (r: bool)
    requires
        i + p@.len() <= s@.len(),
    ensures
        r == occurs_at(s@, p@, i as int),
{
    let mut k: usize = 0;
    while k < p.len()
        invariant
            k <= p@.len(),
            i + p@.len() <= s@.len(),
            s@.len() == s.len(),
            forall|m: int| 0 <= m < k ==> s@[i + m] == p@[m],
        decreases p@.len() - k,
    {
        if s[i + k] != p[k] {
            assert(s@.subrange(i as int, i + p@.len())[k as int] != p@[k as int]);
            return false;
        }
        k = k + 1;
    }
    assert(s@.subrange(i as int, i + p@.len()) =~= p@);
    true
}

/// Whether `s` starts with `p`.
pub fn starts(s: &[char], p: &[char]) -> (r: bool)
    ensures
        r == begins(s@, p@),
{
    if p.len() > s.len() {
        return false;
    }
    assert(s@.take(p@.len() as int) =~= s@.subrange(0int, 0int + p@.len()));
    stands_at(s, p, 0)
}

/// Whether `s` starts with the string `p`.
pub fn starts_with(s: &[char], p: &str) -> (r: bool)
    ensures
        r == begins(s@, p@),
{
    let pat = chars_of(p);
    starts(s, pat.as_slice())
}

/// Whether `s` ends with the string `p`.
pub fn ends_with(s: &[char], p: &str) -> (r: bool)
    ensures
        r == finishes(s@, p@),
{
    let pat = chars_of(p);
    if pat.len() > s.len() {
        return false;
    }
    let at: usize = s.len() - pat.len();
    assert(s@.skip(at as int) =~= s@.subrange(at as int, at + pat@.len()));
    stands_at(s, pat.as_slice(), at)
}

/// Whether `p` stands somewhere in `s`.
pub fn contains(s: &[char], p: &[char]) -> (r: bool)
    ensures
        r == occurs(s@, p@),
{
    if p.len() > s.len() {
        return false;
    }
    let last: usize = s.len() - p.len();
    let mut i: usize = 0;
    while i < last
        invariant
            last == s@.len() - p@.len(),
            i <= last,
            forall|k: int| 0 <= k < i ==> !occurs_at(s@, p@, k),
        decreases last - i,
    {
        if stands_at(s, p, i) {
            return true;
        }
        i = i + 1;
    }
    stands_at(s, p, last)
}

/// Whether the string `p` stands somewhere in `s`.
pub fn contains_text(s: &[char], p: &str) -> (r: bool)
    ensures
        r == occurs(s@, p@),
{
    let pat = chars_of(p);
    contains(s, pat.as_slice())
}

/// Whether `s` holds the character `c`.
pub fn contains_char(s: &[char], c: char) -> (r: bool)
    ensures
        r == s@.contains(c),
{
    let mut i: usize = 0;
    while i < s.len()
        invariant
            i <= s@.len(),
            forall|k: int| 0 <= k < i ==> s@[k] != c,
        decreases s@.len() - i,
    {
        if s[i] == c {
            assert(s@[i as int] == c);
            return true;
        }
        i = i + 1;
    }
    false
}

/// What follows the prefix `p` in `s`, if `s` has it.
pub fn strip_prefix<'a>(s: &'a [char], p: &str) -> (r: Option<&'a [char]>)
    ensures
        r is Some == after_prefix(s@, p@) is Some,
        r matches Some(rest) ==> Some(rest@) == after_prefix(s@, p@),
{
    let pat = chars_of(p);
    if starts(s, pat.as_slice()) {
        let rest = slice_subrange(s, pat.len(), s.len());
        assert(rest@ =~= s@.skip(pat@.len() as int));
        Some(rest)
    } else {
        None
    }
}

/// Facts about [`find_char`]: where it points, and that nothing before it matches.
pub proof fn lemma_find_char(s: Seq<char>, c: char)
    ensures
        0 <= find_char(s, c) <= s.len(),
        find_char(s, c) < s.len() ==> s[find_char(s, c)] == c,
        forall|k: int| 0 <= k < find_char(s, c) ==> s[k] != c,
    decreases s.len(),
{
    if s.len() > 0 && s[0] != c {
        lemma_find_char(s.skip(1), c);
        assert forall|k: int| 0 <= k < find_char(s, c) implies s[k] != c by {
            if k > 0 {
                assert(s.skip(1)[k - 1] == s[k]);
            }
        }
    }
}

/// [`find_char`] is the only position of `c` with none before it.
pub proof fn lemma_find_char_is(s: Seq<char>, c: char, i: int)
    requires
        0 <= i <= s.len(),
        i < s.len() ==> s[i] == c,
        forall|k: int| 0 <= k < i ==> s[k] != c,
    ensures
        find_char(s, c) == i,
{
    lemma_find_char(s, c);
}

/// Position of the first `c` in `s` at or behind `from`, or the length of `s`.
fn find_from(s: &[char], c: char, from: usize) -> (i: usize)
    requires
        from <= s@.len(),
    ensures
        from <= i <= s@.len(),
        i - from == find_char(s@.skip(from as int), c),
{
    let mut i: usize = from;
    while i < s.len() && s[i] != c
        invariant
            from <= i <= s@.len(),
            forall|k: int| from <= k < i ==> s@[k] != c,
        decreases s@.len() - i,
    {
        i = i + 1;
    }
    proof {
        lemma_find_char_is(s@.skip(from as int), c, i - from);
    }
    i
}

// ── Splitting ─────────────────────────────────────────────────────────────────

/// The pieces of `s` between the separators `c`.
pub fn split(s: &[char], c: char) -> (r: Vec<String>)
    ensures
        texts(r@) == split_on(s@, c),
{
    let mut r: Vec<String> = Vec::new();
    let mut from: usize = 0;
    assert(s@.skip(0) =~= s@);
    assert(texts(r@) + split_on(s@, c) =~= split_on(s@, c));
    loop
        invariant
            from <= s@.len(),
            texts(r@) + split_on(s@.skip(from as int), c) == split_on(s@, c),
        decreases s@.len() - from,
    {
        let i = find_from(s, c, from);
        let piece = slice_subrange(s, from, i);
        let ghost tail = s@.skip(from as int);
        let ghost before = r@;
        assert(piece@ =~= tail.take(i - from));
        r.push(string_of(piece));
        assert(texts(r@) =~= texts(before).push(piece@));
        if i >= s.len() {
            assert(tail.take(i - from) =~= tail);
            assert(texts(r@) =~= texts(before) + split_on(tail, c));
            return r;
        }
        assert(tail.skip(i - from + 1) =~= s@.skip(i + 1));
        assert(texts(r@) + split_on(s@.skip(i + 1), c) =~= texts(before) + split_on(tail, c));
        from = i + 1;
    }
}

/// The lines of `s`.
pub fn split_lines(s: &[char]) -> (r: Vec<String>)
    ensures
        texts(r@) == lines(s@),
{
    let mut r: Vec<String> = Vec::new();
    let mut from: usize = 0;
    assert(s@.skip(0) =~= s@);
    assert(texts(r@) + lines(s@) =~= lines(s@));
    while from < s.len()
        invariant
            from <= s@.len(),
            texts(r@) + lines(s@.skip(from as int)) == lines(s@),
        decreases s@.len() - from,
    {
        let i = find_from(s, '\n', from);
        let ghost tail = s@.skip(from as int);
        let ghost before = r@;
        if i >= s.len() {
            let piece = slice_subrange(s, from, i);
            assert(piece@ =~= tail);
            r.push(string_of(piece));
            assert(texts(r@) =~= texts(before).push(tail));
            assert(texts(r@) =~= texts(before) + lines(tail));
            return r;
        }
        let mut end: usize = i;
        if end > from && s[end - 1] == '\r' {
            end = end - 1;
        }
        let piece = slice_subrange(s, from, end);
        assert(piece@ =~= without_cr(tail.take(i - from)));
        r.push(string_of(piece));
        assert(texts(r@) =~= texts(before).push(piece@));
        assert(tail.skip(i - from + 1) =~= s@.skip(i + 1));
        assert(texts(r@) + lines(s@.skip(i + 1)) =~= texts(before) + lines(tail));
        from = i + 1;
    }
    assert(s@.skip(from as int) =~= Seq::<char>::empty());
    assert(texts(r@) + lines(s@.skip(from as int)) =~= texts(r@));
    r
}

/// The first line of `s`, empty where `s` has none.
pub fn head_line(s: &[char]) -> (r: &[char])
    ensures
        r@ == first_line(s@),
{
    let i = find_from(s, '\n', 0);
    assert(s@.skip(0) =~= s@);
    let mut end: usize = i;
    if i < s.len() && end > 0 && s[end - 1] == '\r' {
        end = end - 1;
    }
    let r = slice_subrange(s, 0, end);
    proof {
        if s@.len() == 0 {
            assert(r@ =~= Seq::<char>::empty());
        } else if i < s@.len() {
            assert(r@ =~= without_cr(s@.take(i as int)));
        } else {
            assert(r@ =~= s@);
        }
    }
    r
}

/// Facts about [`word_len`].
pub proof fn lemma_word_len(s: Seq<char>)
    ensures
        0 <= word_len(s) <= s.len(),
        word_len(s) < s.len() ==> is_white(s[word_len(s)]),
        forall|k: int| 0 <= k < word_len(s) ==> !is_white(s[k]),
    decreases s.len(),
{
    if s.len() > 0 && !is_white(s[0]) {
        lemma_word_len(s.skip(1));
        assert forall|k: int| 0 <= k < word_len(s) implies !is_white(s[k]) by {
            if k > 0 {
                assert(s.skip(1)[k - 1] == s[k]);
            }
        }
    }
}

/// The words of `s`.
pub fn split_words(s: &[char]) -> (r: Vec<String>)
    ensures
        texts(r@) == words(s@),
{
    let mut r: Vec<String> = Vec::new();
    let mut from: usize = 0;
    assert(s@.skip(0) =~= s@);
    assert(texts(r@) + words(s@) =~= words(s@));
    while from < s.len()
        invariant
            from <= s@.len(),
            texts(r@) + words(s@.skip(from as int)) == words(s@),
        decreases s@.len() - from,
    {
        let ghost tail = s@.skip(from as int);
        let ghost before = r@;
        assert(tail[0] == s@[from as int]);
        if white(s[from]) {
            assert(tail.skip(1) =~= s@.skip(from + 1));
            from = from + 1;
        } else {
            let mut i: usize = from;
            while i < s.len() && !white(s[i])
                invariant
                    from <= i <= s@.len(),
                    forall|k: int| from <= k < i ==> !is_white(s@[k]),
                decreases s@.len() - i,
            {
                i = i + 1;
            }
            proof {
                lemma_word_len(tail);
                let w = word_len(tail);
                if w < i - from {
                    assert(tail[w] == s@[from + w]);
                }
                if w > i - from {
                    assert(tail[i - from] == s@[i as int]);
                }
                assert(w == i - from);
                assert(!is_white(tail[0]));
            }
            let piece = slice_subrange(s, from, i);
            assert(piece@ =~= tail.take(i - from));
            r.push(string_of(piece));
            assert(texts(r@) =~= texts(before).push(piece@));
            assert(tail.skip(i - from) =~= s@.skip(i as int));
            assert(texts(r@) + words(s@.skip(i as int)) =~= texts(before) + words(tail));
            from = i;
        }
    }
    assert(s@.skip(from as int) =~= Seq::<char>::empty());
    assert(texts(r@) + words(s@.skip(from as int)) =~= texts(r@));
    r
}

/// The strings one behind the other with `sep` between neighbours.
pub fn join(pieces: &Vec<String>, sep: char) -> (r: String)
    ensures
        r@ == joined(texts(pieces@), sep),
{
    let mut r = String::new();
    let mut i: usize = 0;
    let ghost all = texts(pieces@);
    assert(all.take(0) =~= Seq::<Seq<char>>::empty());
    while i < pieces.len()
        invariant
            i <= pieces@.len(),
            all == texts(pieces@),
            r@ == joined(all.take(i as int), sep),
        decreases pieces@.len() - i,
    {
        let ghost before = r@;
        if i > 0 {
            r.push(sep);
        }
        r.append(pieces[i].as_str());
        proof {
            let next = all.take(i + 1);
            assert(next.drop_last() =~= all.take(i as int));
            assert(next.last() == pieces@[i as int]@);
            if i == 0 {
                assert(before =~= Seq::<char>::empty());
                assert(r@ =~= next[0]);
            } else {
                assert(r@ =~= before + seq![sep] + next.last());
            }
        }
        i = i + 1;
    }
    assert(all.take(i as int) =~= all);
    r
}

/// The text with each `from` turned into `to`.
pub fn replace_char(s: &str, from: char, to: char) -> (r: String)
    ensures
        r@ == replaced(s@, from, to),
{
    let v = chars_of(s);
    let mut r = String::new();
    let mut i: usize = 0;
    while i < v.len()
        invariant
            i <= v@.len(),
            v@ == s@,
            r@ == replaced(s@, from, to).take(i as int),
        decreases v@.len() - i,
    {
        r.push(if v[i] == from { to } else { v[i] });
        i = i + 1;
        assert(r@ =~= replaced(s@, from, to).take(i as int));
    }
    assert(replaced(s@, from, to).take(i as int) =~= replaced(s@, from, to));
    r
}

/// Pieces without the separator come back from the joined text unchanged: splitting
/// undoes joining.
pub proof fn law_split_joined(pieces: Seq<Seq<char>>, sep: char)
    requires
        pieces.len() > 0,
        forall|i: int| 0 <= i < pieces.len() ==> !(#[trigger] pieces[i]).contains(sep),
    ensures
        split_on(joined(pieces, sep), sep) == pieces,
    decreases pieces.len(),
{
    if pieces.len() == 1 {
        let s = pieces[0];
        lemma_find_char(s, sep);
        assert(find_char(s, sep) == s.len());
        assert(split_on(s, sep) =~= pieces);
    } else {
        law_split_joined(pieces.drop_last(), sep);
        lemma_split_append(joined(pieces.drop_last(), sep), pieces.last(), sep);
        assert(pieces.drop_last().push(pieces.last()) =~= pieces);
    }
}

/// A last piece behind a separator is split off as it stands.
proof fn lemma_split_append(a: Seq<char>, b: Seq<char>, sep: char)
    requires
        !b.contains(sep),
    ensures
        split_on(a + seq![sep] + b, sep) == split_on(a, sep).push(b),
    decreases a.len(),
{
    let t = a + seq![sep] + b;
    lemma_find_char(a, sep);
    let i = find_char(a, sep);
    assert(t[a.len() as int] == sep);
    assert forall|k: int| 0 <= k < i implies t[k] != sep by {
        assert(t[k] == a[k]);
    }
    if i < a.len() {
        assert(t[i] == a[i]);
        lemma_find_char_is(t, sep, i);
        assert(t.skip(i + 1) =~= a.skip(i + 1) + seq![sep] + b);
        lemma_split_append(a.skip(i + 1), b, sep);
        assert(t.take(i) =~= a.take(i));
        assert(split_on(t, sep) =~= split_on(a, sep).push(b));
    } else {
        lemma_find_char_is(t, sep, i);
        assert(t.take(i) =~= a);
        assert(t.skip(i + 1) =~= b);
        lemma_find_char(b, sep);
        assert(find_char(b, sep) == b.len());
        assert(split_on(b, sep) =~= seq![b]);
        assert(split_on(a, sep) =~= seq![a]);
        assert(split_on(t, sep) =~= seq![a] + seq![b]);
        assert(split_on(t, sep) =~= split_on(a, sep).push(b));
    }
}

// ── Order ─────────────────────────────────────────────────────────────────────

/// The code point of a character.
pub fn code_point(c: char) -> (u: u32)
    ensures
        u as int == c as int,
{
    c as u32
}

/// Whether `a` stands before `b` in the order of code points.
pub fn is_before(a: &[char], b: &[char]) -> (r: bool)
    ensures
        r == text_before(a@, b@),
{
    let mut i: usize = 0;
    assert(a@.skip(0) =~= a@);
    assert(b@.skip(0) =~= b@);
    while i < a.len() && i < b.len()
        invariant
            i <= a@.len(),
            i <= b@.len(),
            text_before(a@.skip(i as int), b@.skip(i as int)) == text_before(a@, b@),
        decreases a@.len() - i,
    {
        assert(a@.skip(i as int)[0] == a@[i as int]);
        assert(b@.skip(i as int)[0] == b@[i as int]);
        if a[i] != b[i] {
            return code_point(a[i]) < code_point(b[i]);
        }
        assert(a@.skip(i as int).skip(1) =~= a@.skip(i + 1));
        assert(b@.skip(i as int).skip(1) =~= b@.skip(i + 1));
        i = i + 1;
    }
    i < b.len()
}

/// The order of texts never goes both ways.
pub proof fn lemma_text_asymmetric(a: Seq<char>, b: Seq<char>)
    ensures
        !(text_before(a, b) && text_before(b, a)),
    decreases a.len(),
{
    if a.len() > 0 && b.len() > 0 && a[0] == b[0] {
        lemma_text_asymmetric(a.skip(1), b.skip(1));
    }
}

/// Texts that are not in the wrong order stay so through a text between them.
pub proof fn lemma_text_transitive(a: Seq<char>, b: Seq<char>, c: Seq<char>)
    requires
        !text_before(b, a),
        !text_before(c, b),
    ensures
        !text_before(c, a),
    decreases a.len(),
{
    if a.len() > 0 && b.len() > 0 && c.len() > 0 {
        if a[0] == c[0] {
            assert(b[0] == a[0]);
            lemma_text_transitive(a.skip(1), b.skip(1), c.skip(1));
        }
    }
}

// ── Numbers ───────────────────────────────────────────────────────────────────

/// The decimal digit of value `d`.
fn digit_char(d: u64) -> (c: char)
    requires
        d < 10,
    ensures
        c == digit(d as int),
{
    if d == 0 {
        '0'
    } else if d == 1 {
        '1'
    } else if d == 2 {
        '2'
    } else if d == 3 {
        '3'
    } else if d == 4 {
        '4'
    } else if d == 5 {
        '5'
    } else if d == 6 {
        '6'
    } else if d == 7 {
        '7'
    } else if d == 8 {
        '8'
    } else {
        '9'
    }
}

/// Writes `n` in decimal behind `s`.
pub fn push_decimal(s: &mut String, n: u64)
    ensures
        final(s)@ == old(s)@ + decimal(n as nat),
    decreases n,
{
    if n >= 10 {
        push_decimal(s, n / 10);
    }
    s.push(digit_char(n % 10));
    assert(s@ =~= old(s)@ + decimal(n as nat));
}

/// Writes the integer `n` in decimal behind `s`.
pub fn push_decimal_int(s: &mut String, n: i64)
    ensures
        final(s)@ == old(s)@ + decimal_int(n as int),
{
    if n < 0 {
        s.push('-');
        let m: u64 = (-(n as i128)) as u64;
        push_decimal(s, m);
        assert(s@ =~= old(s)@ + decimal_int(n as int));
    } else {
        push_decimal(s, n as u64);
    }
}

/// Writes `n` in decimal with at least two digits behind `s`.
pub fn push_two_digits(s: &mut String, n: u64)
    ensures
        final(s)@ == old(s)@ + two_digits(n as nat),
{
    if n < 10 {
        s.push('0');
    }
    push_decimal(s, n);
    assert(s@ =~= old(s)@ + two_digits(n as nat));
}

// ── Laws ──────────────────────────────────────────────────────────────────────

/// Blanks and line breaks are white space; letters, digits and signs are not.
pub proof fn law_white(c: char)
    ensures
        c == ' ' || c == '\t' || c == '\n' || c == '\r' ==> is_white(c),
        '!' as int <= c as int <= '~' as int ==> !is_white(c),
{
}

/// Nothing but white space.
pub open spec fn all_white(s: Seq<char>) -> bool {
    forall|i: int| 0 <= i < s.len() ==> is_white(#[trigger] s[i])
}

/// Trimming takes the white space at both ends away, all of it and nothing else.
pub proof fn law_trimmed(before: Seq<char>, core: Seq<char>, after: Seq<char>)
    requires
        all_white(before),
        all_white(after),
        core.len() > 0 ==> !is_white(core[0]) && !is_white(core.last()),
    ensures
        trimmed(before + core + after) == core,
        trimmed(core) == core,
{
    let e = Seq::<char>::empty();
    if core.len() == 0 {
        lemma_trim_start(before + after, e);
        assert(before + core + after =~= before + after + e);
        assert(core =~= e);
    } else {
        lemma_trim_start(before, core + after);
        assert(before + core + after =~= before + (core + after));
        lemma_trim_end(core, after);
        lemma_trim_start(e, core);
        lemma_trim_end(core, e);
        assert(e + core =~= core);
        assert(core + e =~= core);
    }
}

proof fn lemma_trim_start(before: Seq<char>, rest: Seq<char>)
    requires
        all_white(before),
        rest.len() > 0 ==> !is_white(rest[0]),
    ensures
        trim_start(before + rest) == rest,
    decreases before.len(),
{
    if before.len() == 0 {
        assert(before + rest =~= rest);
    } else {
        assert(is_white(before[0]));
        assert((before + rest).skip(1) =~= before.skip(1) + rest);
        assert forall|i: int| 0 <= i < before.skip(1).len() implies is_white(
            #[trigger] before.skip(1)[i],
        ) by {
            assert(is_white(before[i + 1]));
        }
        lemma_trim_start(before.skip(1), rest);
    }
}

proof fn lemma_trim_end(rest: Seq<char>, after: Seq<char>)
    requires
        all_white(after),
        rest.len() > 0 ==> !is_white(rest.last()),
    ensures
        trim_end(rest + after) == rest,
    decreases after.len(),
{
    if after.len() == 0 {
        assert(rest + after =~= rest);
    } else {
        assert(is_white(after[after.len() - 1]));
        assert((rest + after).drop_last() =~= rest + after.drop_last());
        assert forall|i: int| 0 <= i < after.drop_last().len() implies is_white(
            #[trigger] after.drop_last()[i],
        ) by {
            assert(is_white(after[i]));
        }
        lemma_trim_end(rest, after.drop_last());
    }
}

/// A line goes up to its line feed, whole, without a carriage return before that; what
/// follows are the lines behind it.
pub proof fn law_lines(line: Seq<char>, rest: Seq<char>)
    requires
        !line.contains('\n'),
        line.len() > 0 ==> line.last() != '\r',
    ensures
        lines(line + seq!['\n'] + rest) == seq![line] + lines(rest),
        lines(line + seq!['\r', '\n'] + rest) == seq![line] + lines(rest),
        line.len() > 0 ==> lines(line) == seq![line],
        lines(Seq::<char>::empty()) == Seq::<Seq<char>>::empty(),
        first_line(line + seq!['\n'] + rest) == line,
        first_line(line + seq!['\r', '\n'] + rest) == line,
        first_line(line) == line,
{
    let n = line.len() as int;
    assert forall|k: int| 0 <= k < n implies line[k] != '\n' by {
        assert(line.contains(line[k]));
    }
    let a = line + seq!['\n'] + rest;
    lemma_find_char_is(a, '\n', n);
    assert(a.take(n) =~= line);
    assert(a.skip(n + 1) =~= rest);
    let b = line + seq!['\r', '\n'] + rest;
    lemma_find_char_is(b, '\n', n + 1);
    assert(b.take(n + 1).drop_last() =~= line);
    assert(b.take(n + 1).last() == '\r');
    assert(b.skip(n + 2) =~= rest);
    lemma_find_char_is(line, '\n', n);
    assert((seq![line] + lines(rest))[0] == line);
}

/// Words are the runs without white space, whole and in order.
pub proof fn law_words(word: Seq<char>, c: char, rest: Seq<char>)
    requires
        word.len() > 0,
        forall|i: int| 0 <= i < word.len() ==> !is_white(#[trigger] word[i]),
        is_white(c),
    ensures
        words(word) == seq![word],
        words(word + seq![c] + rest) == seq![word] + words(rest),
        words(seq![c] + rest) == words(rest),
        words(Seq::<char>::empty()) == Seq::<Seq<char>>::empty(),
{
    let n = word.len() as int;
    let a = word + seq![c] + rest;
    lemma_word_len(a);
    assert(!is_white(word[0]));
    assert(word_len(a) == n) by {
        if word_len(a) < n {
            assert(a[word_len(a)] == word[word_len(a)]);
        }
        if word_len(a) > n {
            assert(a[n] == c);
        }
    }
    assert(a[0] == word[0]);
    assert(a.take(n) =~= word);
    assert(a.skip(n) =~= seq![c] + rest);
    assert((seq![c] + rest).skip(1) =~= rest);
    assert(words(seq![c] + rest) == words(rest));
    assert(words(a) == seq![word] + words(seq![c] + rest));
    lemma_word_len(word);
    assert(word_len(word) == n);
    assert(word.take(n) =~= word);
    assert(word.skip(n) =~= Seq::<char>::empty());
    assert(words(word.skip(n)) == Seq::<Seq<char>>::empty());
    assert(words(word) =~= seq![word]);
}

/// A text starts with what it was put behind, and what follows is the rest.
pub proof fn law_prefix(p: Seq<char>, rest: Seq<char>)
    ensures
        begins(p + rest, p),
        finishes(rest + p, p),
        after_prefix(p + rest, p) == Some(rest),
{
    assert((p + rest).take(p.len() as int) =~= p);
    assert((p + rest).skip(p.len() as int) =~= rest);
    assert((rest + p).skip(rest.len() as int) =~= p);
}

/// A text that starts or ends with another is that and the rest.
pub proof fn law_has_prefix(s: Seq<char>, p: Seq<char>)
    ensures
        begins(s, p) ==> s == p + s.skip(p.len() as int),
        finishes(s, p) ==> s == s.take(s.len() - p.len()) + p,
        after_prefix(s, p) is Some == begins(s, p),
{
    if begins(s, p) {
        assert(s =~= s.take(p.len() as int) + s.skip(p.len() as int));
    }
    if finishes(s, p) {
        assert(s =~= s.take(s.len() - p.len()) + s.skip(s.len() - p.len()));
    }
}

/// A text stands in another exactly where that is some text, then it, then some text.
pub proof fn law_occurs(s: Seq<char>, p: Seq<char>)
    ensures
        occurs(s, p) <==> exists|a: Seq<char>, b: Seq<char>| s == #[trigger] (a + p + b),
{
    if occurs(s, p) {
        let i = choose|i: int| occurs_at(s, p, i);
        let (a, b) = (s.take(i), s.skip(i + p.len()));
        assert(s =~= a + p + b) by {
            assert(s =~= s.take(i) + s.subrange(i, i + p.len()) + s.skip(i + p.len()));
        }
    }
    if exists|a: Seq<char>, b: Seq<char>| s == #[trigger] (a + p + b) {
        let (a, b) = choose|a: Seq<char>, b: Seq<char>| s == #[trigger] (a + p + b);
        assert(s.subrange(a.len() as int, (a.len() + p.len()) as int) =~= p);
        assert(occurs_at(s, p, a.len() as int));
    }
}

/// Texts are ordered by the first character in which they differ, and a text stands before
/// its continuations.
pub proof fn law_text_before(common: Seq<char>, a: char, b: char, x: Seq<char>, y: Seq<char>)
    requires
        (a as int) < (b as int),
    ensures
        text_before(common + seq![a] + x, common + seq![b] + y),
        !text_before(common + seq![b] + y, common + seq![a] + x),
        text_before(common, common + seq![b] + y),
        !text_before(common + seq![b] + y, common),
        !text_before(common, common),
    decreases common.len(),
{
    let (s, t) = (common + seq![a] + x, common + seq![b] + y);
    if common.len() > 0 {
        let rest = common.skip(1);
        assert(s.skip(1) =~= rest + seq![a] + x);
        assert(t.skip(1) =~= rest + seq![b] + y);
        law_text_before(rest, a, b, x, y);
    }
}

/// A number in decimal: its last digit is the remainder by ten, the digits before it are the
/// number of tens, and there is no leading zero.
pub proof fn law_decimal(n: nat)
    ensures
        decimal(n).len() >= 1,
        decimal(n).last() as int == '0' as int + n % 10,
        n < 10 ==> decimal(n).len() == 1,
        n >= 10 ==> decimal(n).drop_last() == decimal(n / 10),
        n >= 10 ==> decimal(n)[0] == decimal(n / 10)[0],
        n > 0 ==> decimal(n)[0] != '0',
    decreases n,
{
    if n >= 10 {
        law_decimal(n / 10);
        assert(decimal(n).drop_last() =~= decimal(n / 10));
    }
}

/// Numbers below a hundred take two digits, tens and ones.
pub proof fn law_two_digits(n: nat)
    requires
        n < 100,
    ensures
        two_digits(n).len() == 2,
        two_digits(n)[0] as int == '0' as int + n / 10,
        two_digits(n)[1] as int == '0' as int + n % 10,
{
    law_decimal(n);
    law_decimal(n / 10);
}

/// All copies of a character in front of a text go, and nothing else.
pub proof fn law_trim_start_char(marks: Seq<char>, c: char, rest: Seq<char>)
    requires
        forall|i: int| 0 <= i < marks.len() ==> #[trigger] marks[i] == c,
        rest.len() > 0 ==> rest[0] != c,
    ensures
        trim_start_char(marks + rest, c) == rest,
    decreases marks.len(),
{
    if marks.len() == 0 {
        assert(marks + rest =~= rest);
    } else {
        assert(marks[0] == c);
        assert((marks + rest).skip(1) =~= marks.skip(1) + rest);
        law_trim_start_char(marks.skip(1), c, rest);
    }
}

/// Replacing a character changes its copies and nothing else.
pub proof fn law_replaced(s: Seq<char>, from: char, to: char)
    ensures
        replaced(s, from, to).len() == s.len(),
        forall|i: int|
            0 <= i < s.len() ==> #[trigger] replaced(s, from, to)[i] == (if s[i] == from {
                to
            } else {
                s[i]
            }),
        !s.contains(from) ==> replaced(s, from, to) == s,
        from != to ==> !replaced(s, from, to).contains(from),
{
    if !s.contains(from) {
        assert forall|i: int| 0 <= i < s.len() implies s[i] != from by {
            assert(s.contains(s[i]));
        }
        assert(replaced(s, from, to) =~= s);
    }
}

/// Joined pieces are the pieces with the separator between each two of them.
pub proof fn law_joined(pieces: Seq<Seq<char>>, last: Seq<char>, sep: char)
    ensures
        joined(seq![last], sep) == last,
        pieces.len() > 0 ==> joined(pieces.push(last), sep) == joined(pieces, sep) + seq![sep]
            + last,
{
    assert(pieces.push(last).drop_last() =~= pieces);
}

/// Trimming leaves nothing exactly of a text that is nothing but white space.
pub proof fn law_blank(s: Seq<char>)
    ensures
        (trimmed(s).len() == 0) == all_white(s),
{
    if all_white(s) {
        let e = Seq::<char>::empty();
        law_trimmed(s, e, e);
        assert(s + e + e =~= s);
    } else {
        let i = choose|i: int| 0 <= i < s.len() && !is_white(#[trigger] s[i]);
        lemma_trim_start_keeps(s, i);
        let t = trim_start(s);
        lemma_trim_end_keeps(t, 0);
    }
}

/// What is left of a text with a character that is no white space starts with one.
proof fn lemma_trim_start_keeps(s: Seq<char>, i: int)
    requires
        0 <= i < s.len(),
        !is_white(s[i]),
    ensures
        trim_start(s).len() > 0,
        !is_white(trim_start(s)[0]),
    decreases s.len(),
{
    if is_white(s[0]) {
        assert(s.skip(1)[i - 1] == s[i]);
        lemma_trim_start_keeps(s.skip(1), i - 1);
    }
}

proof fn lemma_trim_end_keeps(s: Seq<char>, i: int)
    requires
        0 <= i < s.len(),
        !is_white(s[i]),
    ensures
        trim_end(s).len() > 0,
    decreases s.len(),
{
    if is_white(s.last()) {
        assert(s.drop_last()[i] == s[i]);
        lemma_trim_end_keeps(s.drop_last(), i);
    }
}

/// The last piece of a text is what follows the last separator; without one it is the text.
pub proof fn law_last_piece(before: Seq<char>, c: char, last: Seq<char>)
    requires
        !last.contains(c),
    ensures
        split_on(before + seq![c] + last, c).last() == last,
        split_on(last, c) == seq![last],
    decreases before.len(),
{
    let s = before + seq![c] + last;
    let i = find_char(s, c);
    lemma_find_char(s, c);
    lemma_find_char(last, c);
    if find_char(last, c) < last.len() {
        assert(last.contains(last[find_char(last, c)]));
    }
    assert(split_on(last, c) =~= seq![last]);
    assert(s[before.len() as int] == c);
    let rest = s.skip(i + 1);
    if i < before.len() {
        assert(rest =~= before.skip(i + 1) + seq![c] + last);
        law_last_piece(before.skip(i + 1), c, last);
        lemma_split_len(rest, c);
    } else {
        assert(rest =~= last);
    }
    assert(split_on(s, c).last() == split_on(rest, c).last());
}

/// Each copy of a text in front of another goes, and nothing of what follows them.
pub proof fn law_trim_start_text(p: Seq<char>, rest: Seq<char>)
    requires
        p.len() > 0,
    ensures
        trim_start_text(p + rest, p) == trim_start_text(rest, p),
        (forall|x: Seq<char>| rest != #[trigger] (p + x)) ==> trim_start_text(rest, p) == rest,
{
    law_prefix(p, rest);
    assert((p + rest).skip(p.len() as int) =~= rest);
    if begins(rest, p) {
        law_has_prefix(rest, p);
    }
}

/// A negative number has a minus sign and then the digits of the number without it.
pub proof fn law_decimal_int(n: nat)
    ensures
        decimal_int(n as int) == decimal(n),
        n > 0 ==> decimal_int(-(n as int)) == seq!['-'] + decimal(n),
{
}

/// A carriage return counts as the end of a line only before a line feed, and only one does:
/// any other stays part of its line.
pub proof fn law_carriage_return(line: Seq<char>, rest: Seq<char>)
    requires
        !line.contains('\n'),
    ensures
        lines(line + seq!['\r', '\n'] + rest) == seq![line] + lines(rest),
        first_line(line + seq!['\r', '\n'] + rest) == line,
        line.len() > 0 ==> lines(line) == seq![line],
        first_line(line) == line,
{
    let n = line.len() as int;
    assert forall|k: int| 0 <= k < n implies line[k] != '\n' by {
        assert(line.contains(line[k]));
    }
    let b = line + seq!['\r', '\n'] + rest;
    lemma_find_char_is(b, '\n', n + 1);
    assert(b.take(n + 1).drop_last() =~= line);
    assert(b.take(n + 1).last() == '\r');
    assert(b.skip(n + 2) =~= rest);
    lemma_find_char_is(line, '\n', n);
    assert((seq![line] + lines(rest))[0] == line);
}

} // verus!
