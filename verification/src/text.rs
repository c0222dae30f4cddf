//! Character-level text helpers shared by the host model, the OpenSSH
//! config importer and the host editor form.
//!
//! Every helper works on the characters of a string (`Seq<char>` in specs),
//! which is the same as working on its UTF-8 bytes for equality, prefixes and
//! substrings.
use vstd::prelude::*;

verus! {

// ---------------------------------------------------------------------------
// Conversions between `String` and character vectors
// ---------------------------------------------------------------------------

/// `String::push` of std: the string grows by exactly the given character.
#[verifier::external_body]
pub(crate) fn push_char(s: &mut String, c: char)
    ensures
        final(s)@ == old(s)@.push(c),
{
    s.push(c)
}

/// `String::pop` of std: removes and returns the last character, if any.
#[verifier::external_body]
pub(crate) fn pop_char(s: &mut String) -> (res: Option<char>)
    ensures
        old(s)@.len() == 0 ==> res is None && final(s)@ == old(s)@,
        old(s)@.len() > 0 ==> res == Some(old(s)@.last()) && final(s)@ == old(s)@.drop_last(),
{
    s.pop()
}

/// The characters of a string slice, in order.
pub fn chars_of(s: &str) -> (res: Vec<char>)
    ensures
        res@ == s@,
{
    let mut res: Vec<char> = Vec::new();
    for c in it: s.chars()
        invariant
            res@ == it.seq().take(it.index() as int),
    {
        res.push(c);
    }
    res
}

/// A `String` holding exactly the given characters.
pub fn text_of(cs: &[char]) -> (res: String)
    ensures
        res@ == cs@,
{
    let mut res = String::new();
    let n = cs.len();
    for i in 0..n
        invariant
            n == cs@.len(),
            res@ == cs@.take(i as int),
    {
        push_char(&mut res, cs[i]);
        assert(cs@.take(i + 1) == cs@.take(i as int).push(cs@[i as int]));
    }
    assert(cs@.take(n as int) == cs@);
    res
}

/// Copies `s[from..to]` into a fresh vector.
pub fn copy_range(s: &[char], from: usize, to: usize) -> (res: Vec<char>)
    requires
        from <= to <= s@.len(),
    ensures
        res@ == s@.subrange(from as int, to as int),
{
    let mut res: Vec<char> = Vec::new();
    let mut i = from;
    while i < to
        invariant
            from <= i <= to <= s@.len(),
            res@ == s@.subrange(from as int, i as int),
        decreases to - i,
    {
        res.push(s[i]);
        assert(s@.subrange(from as int, i + 1) == s@.subrange(from as int, i as int).push(s@[i as int]));
        i = i + 1;
    }
    res
}

/// Appends all of `more` to `out`.
pub fn append_chars(out: &mut Vec<char>, more: &[char])
    ensures
        final(out)@ == old(out)@ + more@,
{
    let n = more.len();
    for i in 0..n
        invariant
            n == more@.len(),
            out@ == old(out)@ + more@.take(i as int),
    {
        out.push(more[i]);
        assert(more@.take(i + 1) == more@.take(i as int).push(more@[i as int]));
    }
    assert(more@.take(n as int) == more@);
}

/// Character-by-character equality of two texts.
pub fn same_text(a: &[char], b: &[char]) -> (res: bool)
    ensures
        res == (a@ == b@),
{
    if a.len() != b.len() {
        return false;
    }
    let n = a.len();
    for i in 0..n
        invariant
            n == a@.len() == b@.len(),
            forall|k: int| 0 <= k < i ==> a@[k] == b@[k],
    {
        if a[i] != b[i] {
            return false;
        }
    }
    assert(a@ == b@);
    true
}

/// Whether the character `c` occurs in `s`.
pub fn has_char(s: &[char], c: char) -> (res: bool)
    ensures
        res == s@.contains(c),
{
    let n = s.len();
    for i in 0..n
        invariant
            n == s@.len(),
            forall|k: int| 0 <= k < i ==> s@[k] != c,
    {
        if s[i] == c {
            assert(s@[i as int] == c);
            return true;
        }
    }
    false
}

// ---------------------------------------------------------------------------
// Whitespace and character classes
// ---------------------------------------------------------------------------

/// Unicode `White_Space`, the property that `char::is_whitespace` tests
/// (and so `str::trim` and `str::split_whitespace`).
pub open spec fn is_white(c: char) -> bool {
    let u = c as u32;
    ||| 0x09 <= u <= 0x0d
    ||| u == 0x20
    ||| u == 0x85
    ||| u == 0xa0
    ||| u == 0x1680
    ||| 0x2000 <= u <= 0x200a
    ||| u == 0x2028
    ||| u == 0x2029
    ||| u == 0x202f
    ||| u == 0x205f
    ||| u == 0x3000
}

/// Executable test for [`is_white`].
pub fn is_white_char(c: char) -> (res: bool)
    ensures
        res == is_white(c),
{
    let u = c as u32;
    (0x09 <= u && u <= 0x0d) || u == 0x20 || u == 0x85 || u == 0xa0 || u == 0x1680 || (0x2000
        <= u && u <= 0x200a) || u == 0x2028 || u == 0x2029 || u == 0x202f || u == 0x205f || u
        == 0x3000
}

/// The classes of characters that the parsers skip over or stop at.
#[derive(Clone, Copy, Debug, PartialEq, Eq, Structural)]
pub enum CharClass {
    /// Unicode whitespace.
    White,
    /// Anything but Unicode whitespace.
    NotWhite,
    /// The double quote `"`.
    Quote,
    /// Anything that does not end an OpenSSH keyword (whitespace or `=`).
    NotKeyEnd,
}

/// Membership of a character in a class.
pub open spec fn in_class(k: CharClass, c: char) -> bool {
    match k {
        CharClass::White => is_white(c),
        CharClass::NotWhite => !is_white(c),
        CharClass::Quote => c == '"',
        CharClass::NotKeyEnd => !is_white(c) && c != '=',
    }
}

/// Executable test for [`in_class`].
pub fn class_has(k: CharClass, c: char) -> (res: bool)
    ensures
        res == in_class(k, c),
{
    match k {
        CharClass::White => is_white_char(c),
        CharClass::NotWhite => !is_white_char(c),
        CharClass::Quote => c == '"',
        CharClass::NotKeyEnd => !is_white_char(c) && c != '=',
    }
}

/// Length of the longest prefix of `s` made of characters of class `k`.
pub open spec fn run_len(s: Seq<char>, k: CharClass) -> nat
    decreases s.len(),
{
    if s.len() > 0 && in_class(k, s[0]) {
        1 + run_len(s.drop_first(), k)
    } else {
        0
    }
}

/// Length of the longest suffix of `s` made of characters of class `k`.
pub open spec fn run_len_back(s: Seq<char>, k: CharClass) -> nat
    decreases s.len(),
{
    if s.len() > 0 && in_class(k, s.last()) {
        1 + run_len_back(s.drop_last(), k)
    } else {
        0
    }
}

/// A leading run is no longer than the text, all of it is in the class, and
/// the character after it (if any) is not.
pub proof fn lemma_run_len(s: Seq<char>, k: CharClass)
    ensures
        run_len(s, k) <= s.len(),
        forall|i: int| 0 <= i < run_len(s, k) ==> in_class(k, #[trigger] s[i]),
        run_len(s, k) < s.len() ==> !in_class(k, s[run_len(s, k) as int]),
    decreases s.len(),
{
    if s.len() > 0 && in_class(k, s[0]) {
        lemma_run_len(s.drop_first(), k);
        assert forall|i: int| 0 <= i < run_len(s, k) implies in_class(k, #[trigger] s[i]) by {
            if i > 0 {
                assert(s[i] == s.drop_first()[i - 1]);
            }
        }
    }
}

/// Length of the run of class `k` that starts at `from`.
pub fn run_from(s: &[char], from: usize, k: CharClass) -> (res: usize)
    requires
        from <= s@.len(),
    ensures
        res == run_len(s@.skip(from as int), k),
        from + res <= s@.len(),
{
    let n = s.len();
    let mut i = from;
    while i < n && class_has(k, s[i])
        invariant
            from <= i <= n == s@.len(),
            run_len(s@.skip(from as int), k) == (i - from) + run_len(s@.skip(i as int), k),
        decreases n - i,
    {
        assert(s@.skip(i as int).drop_first() == s@.skip(i + 1));
        i = i + 1;
    }
    proof {
        if i == n {
            assert(s@.skip(i as int).len() == 0);
        }
    }
    i - from
}

/// Length of the run of class `k` that ends at `to` (exclusive).
pub fn run_back_to(s: &[char], to: usize, k: CharClass) -> (res: usize)
    requires
        to <= s@.len(),
    ensures
        res == run_len_back(s@.take(to as int), k),
        res <= to,
{
    let mut j = to;
    while j > 0 && class_has(k, s[j - 1])
        invariant
            j <= to <= s@.len(),
            run_len_back(s@.take(to as int), k) == (to - j) + run_len_back(s@.take(j as int), k),
        decreases j,
    {
        assert(s@.take(j as int).drop_last() == s@.take(j - 1));
        j = j - 1;
    }
    to - j
}

/// `s` without its leading characters of class `k`.
pub open spec fn strip_start(s: Seq<char>, k: CharClass) -> Seq<char> {
    s.skip(run_len(s, k) as int)
}

/// `s` without its trailing characters of class `k`.
pub open spec fn strip_end(s: Seq<char>, k: CharClass) -> Seq<char> {
    s.take(s.len() - run_len_back(s, k))
}

/// `s` without leading and trailing characters of class `k`
/// (`str::trim` for whitespace, `str::trim_matches('"')` for quotes).
pub open spec fn strip(s: Seq<char>, k: CharClass) -> Seq<char> {
    strip_end(strip_start(s, k), k)
}

/// `str::trim`: no leading or trailing Unicode whitespace.
pub open spec fn trim(s: Seq<char>) -> Seq<char> {
    strip(s, CharClass::White)
}

/// Executable [`strip`].
pub fn strip_chars(s: &[char], k: CharClass) -> (res: Vec<char>)
    ensures
        res@ == strip(s@, k),
{
    let a = run_from(s, 0, k);
    assert(s@.skip(0) == s@);
    let rest = copy_range(s, a, s.len());
    let b = run_back_to(&rest, rest.len(), k);
    assert(rest@.take(rest@.len() as int) == rest@);
    proof {
        lemma_run_len(s@, k);
    }
    copy_range(&rest, 0, rest.len() - b)
}

/// Executable [`trim`].
pub fn trim_chars(s: &[char]) -> (res: Vec<char>)
    ensures
        res@ == trim(s@),
{
    strip_chars(s, CharClass::White)
}

/// The first whitespace-separated word of `s`, or empty
/// (`str::split_whitespace().next().unwrap_or("")`).
pub open spec fn first_word(s: Seq<char>) -> Seq<char> {
    let t = strip_start(s, CharClass::White);
    t.take(run_len(t, CharClass::NotWhite) as int)
}

/// Executable [`first_word`].
pub fn first_word_chars(s: &[char]) -> (res: Vec<char>)
    ensures
        res@ == first_word(s@),
{
    let a = run_from(s, 0, CharClass::White);
    assert(s@.skip(0) == s@);
    let b = run_from(s, a, CharClass::NotWhite);
    assert(a + b <= s.len());
    let res = copy_range(s, a, a + b);
    assert(res@ == s@.skip(a as int).take(b as int));
    res
}

// ---------------------------------------------------------------------------
// Case, substrings
// ---------------------------------------------------------------------------

/// What std's `str::to_lowercase` returns for a text (full Unicode lowercase
/// mapping; a function of the text alone).
pub uninterp spec fn lowercase(s: Seq<char>) -> Seq<char>;

/// Every character of the text is ASCII.
pub open spec fn is_ascii_text(s: Seq<char>) -> bool {
    forall|i: int| 0 <= i < s.len() ==> (s[i] as u32) < 128
}

/// The text with each character ASCII-lowercased (see [`ascii_lower`]).
pub open spec fn ascii_lowered(s: Seq<char>) -> Seq<char> {
    s.map_values(|c: char| ascii_lower(c))
}

/// std `str::to_lowercase`: the Unicode lowercase mapping of the text. On
/// ASCII text that mapping takes `A`–`Z` to `a`–`z` one for one and leaves
/// every other character as it is (as in std's own example, `"HELLO"` to
/// `"hello"`); of other text only the name [`lowercase`] is stated.
#[verifier::external_body]
pub(crate) fn to_lower(s: &str) -> (res: String)
    ensures
        res@ == lowercase(s@),
        is_ascii_text(s@) ==> res@ == ascii_lowered(s@),
{
    s.to_lowercase()
}

/// The lowercase form of a character text, as characters.
pub fn lower_chars(s: &[char]) -> (res: Vec<char>)
    ensures
        res@ == lowercase(s@),
        is_ascii_text(s@) ==> res@ == ascii_lowered(s@),
{
    let t = text_of(s);
    let l = to_lower(t.as_str());
    chars_of(l.as_str())
}

/// `char::to_ascii_lowercase`: `A`–`Z` become `a`–`z`, all else is unchanged.
pub open spec fn ascii_lower(c: char) -> char {
    if 'A' <= c <= 'Z' {
        ((c as u32) + 32) as char
    } else {
        c
    }
}

/// Executable [`ascii_lower`].
pub fn ascii_lower_char(c: char) -> (res: char)
    ensures
        res == ascii_lower(c),
{
    if 'A' <= c && c <= 'Z' {
        let u = (c as u32) + 32;
        char_from_ascii(u)
    } else {
        c
    }
}

/// A code point below 128 as a character.
fn char_from_ascii(u: u32) -> (res: char)
    requires
        u < 128,
    ensures
        res == u as char,
{
    let b = u as u8;
    b as char
}

/// `needle` occurs in `hay` at position `i`.
pub open spec fn occurs_at(hay: Seq<char>, needle: Seq<char>, i: int) -> bool {
    0 <= i && i + needle.len() <= hay.len() && hay.subrange(i, i + needle.len()) == needle
}

/// `needle` is a substring of `hay` (`str::contains` with a string pattern).
pub open spec fn contains_text(hay: Seq<char>, needle: Seq<char>) -> bool {
    exists|i: int| occurs_at(hay, needle, i)
}

/// A substring of a substring is a substring.
pub proof fn lemma_contains_trans(a: Seq<char>, b: Seq<char>, c: Seq<char>)
    requires
        contains_text(a, b),
        contains_text(b, c),
    ensures
        contains_text(a, c),
{
    let i = choose|i: int| occurs_at(a, b, i);
    let j = choose|j: int| occurs_at(b, c, j);
    assert(a.subrange(i + j, i + j + c.len()) =~= b.subrange(j, j + c.len()));
    assert(occurs_at(a, c, i + j));
}

/// ASCII lowercasing keeps substrings, and a substring of ASCII text is
/// ASCII text.
pub proof fn lemma_lowered_contains(q: Seq<char>, q2: Seq<char>)
    requires
        contains_text(q, q2),
    ensures
        contains_text(ascii_lowered(q), ascii_lowered(q2)),
        is_ascii_text(q) ==> is_ascii_text(q2),
{
    let i = choose|i: int| occurs_at(q, q2, i);
    assert(ascii_lowered(q).subrange(i, i + q2.len()) =~= ascii_lowered(q2));
    assert(occurs_at(ascii_lowered(q), ascii_lowered(q2), i));
    if is_ascii_text(q) {
        assert forall|k: int| 0 <= k < q2.len() implies (q2[k] as u32) < 128 by {
            assert(q2[k] == q.subrange(i, i + q2.len())[k]);
        }
    }
}

/// Executable substring test: whether `needle` occurs anywhere in `hay`.
pub fn find_text(hay: &[char], needle: &[char]) -> (res: bool)
    ensures
        res == contains_text(hay@, needle@),
{
    let n = hay.len();
    let m = needle.len();
    if m > n {
        assert forall|i: int| !occurs_at(hay@, needle@, i) by {}
        return false;
    }
    let mut i: usize = 0;
    while i <= n - m
        invariant
            m <= n,
            n == hay@.len(),
            m == needle@.len(),
            forall|j: int| 0 <= j < i ==> !occurs_at(hay@, needle@, j),
        decreases n - m + 1 - i,
    {
        let mut k: usize = 0;
        let mut ok = true;
        while k < m
            invariant
                i + m <= n,
                n == hay@.len(),
                m == needle@.len(),
                k <= m,
                ok == (forall|t: int| 0 <= t < k ==> hay@[i + t] == needle@[t]),
            decreases m - k,
        {
            if hay[i + k] != needle[k] {
                ok = false;
            }
            k = k + 1;
            assert(ok == (forall|t: int| 0 <= t < k ==> hay@[i + t] == needle@[t])) by {
                if !ok {
                    if hay@[i + k - 1] != needle@[k - 1] {
                    }
                }
            }
        }
        if ok {
            assert(hay@.subrange(i as int, i + m) == needle@);
            assert(occurs_at(hay@, needle@, i as int));
            return true;
        }
        assert(!occurs_at(hay@, needle@, i as int)) by {
            if hay@.subrange(i as int, i + m) == needle@ {
                assert forall|t: int| 0 <= t < m implies hay@[i + t] == needle@[t] by {
                    assert(hay@.subrange(i as int, i + m)[t] == hay@[i + t]);
                }
            }
        }
        i = i + 1;
    }
    assert forall|j: int| !occurs_at(hay@, needle@, j) by {}
    false
}

// ---------------------------------------------------------------------------
// Joining and splitting
// ---------------------------------------------------------------------------

/// The texts of `list` joined by `sep` (`[T]::join`).
pub open spec fn join(list: Seq<Seq<char>>, sep: Seq<char>) -> Seq<char>
    decreases list.len(),
{
    if list.len() == 0 {
        Seq::empty()
    } else if list.len() == 1 {
        list[0]
    } else {
        join(list.drop_last(), sep) + sep + list.last()
    }
}

/// The character views of a list of strings.
pub open spec fn texts(v: Seq<String>) -> Seq<Seq<char>> {
    v.map_values(|s: String| s@)
}

/// Executable [`join`] over a vector of strings.
pub fn join_strings(list: &Vec<String>, sep: &[char]) -> (res: Vec<char>)
    ensures
        res@ == join(texts(list@), sep@),
{
    let mut res: Vec<char> = Vec::new();
    let n = list.len();
    let ghost l = texts(list@);
    for i in 0..n
        invariant
            n == list@.len() == l.len(),
            l == texts(list@),
            res@ == join(l.take(i as int), sep@),
    {
        let piece = chars_of(list[i].as_str());
        assert(l.take(i + 1).drop_last() == l.take(i as int));
        if i != 0 {
            append_chars(&mut res, sep);
        }
        append_chars(&mut res, &piece);
        assert(l[i as int] == list@[i as int]@);
    }
    assert(l.take(n as int) == l);
    res
}

/// `s` split at every `sep` (`str::split` with a character pattern); there is
/// always at least one piece.
pub open spec fn split_on(s: Seq<char>, sep: char) -> Seq<Seq<char>>
    decreases s.len(),
{
    if s.len() == 0 {
        seq![Seq::empty()]
    } else {
        let p = split_on(s.drop_last(), sep);
        if s.last() == sep {
            p.push(Seq::empty())
        } else {
            p.update(p.len() - 1, p.last().push(s.last()))
        }
    }
}

/// Splitting always yields at least one piece.
pub proof fn lemma_split_nonempty(s: Seq<char>, sep: char)
    ensures
        split_on(s, sep).len() >= 1,
    decreases s.len(),
{
    if s.len() > 0 {
        lemma_split_nonempty(s.drop_last(), sep);
    }
}

/// Splitting one more character: a separator starts a new piece, anything else
/// extends the last piece.
pub proof fn lemma_split_step(s: Seq<char>, i: int, sep: char)
    requires
        0 <= i < s.len(),
    ensures
        split_on(s.take(i), sep).len() >= 1,
        s[i] == sep ==> split_on(s.take(i + 1), sep) == split_on(s.take(i), sep).push(
            Seq::empty(),
        ),
        s[i] != sep ==> split_on(s.take(i + 1), sep) == split_on(s.take(i), sep).drop_last().push(
            split_on(s.take(i), sep).last().push(s[i]),
        ),
{
    lemma_split_nonempty(s.take(i), sep);
    assert(s.take(i + 1).drop_last() == s.take(i));
    assert(s.take(i + 1).last() == s[i]);
    let p = split_on(s.take(i), sep);
    if s[i] != sep {
        assert(p.update(p.len() - 1, p.last().push(s[i])) == p.drop_last().push(
            p.last().push(s[i]),
        ));
    }
}

// ---------------------------------------------------------------------------
// Decimal numbers
// ---------------------------------------------------------------------------

/// The digit character for `d < 10`.
pub open spec fn digit_char(d: nat) -> char {
    ((d + 48) as u32) as char
}

/// The value of a decimal digit character.
pub open spec fn digit_value(c: char) -> nat {
    ((c as u32) - 48) as nat
}

/// `c` is one of `0`–`9`.
pub open spec fn is_digit(c: char) -> bool {
    '0' <= c <= '9'
}

/// The decimal text of `n`, without sign or leading zeros
/// (the `Display` of an unsigned integer).
pub open spec fn decimal(n: nat) -> Seq<char>
    decreases n,
{
    if n < 10 {
        seq![digit_char(n)]
    } else {
        decimal(n / 10).push(digit_char(n % 10))
    }
}

/// Executable [`decimal`].
pub fn decimal_chars(n: u64) -> (res: Vec<char>)
    ensures
        res@ == decimal(n as nat),
    decreases n,
{
    if n < 10 {
        let mut v = Vec::new();
        v.push(char_from_ascii((n + 48) as u32));
        v
    } else {
        let mut v = decimal_chars(n / 10);
        v.push(char_from_ascii((n % 10 + 48) as u32));
        v
    }
}

/// Value of a text made only of decimal digits.
pub open spec fn digits_value(s: Seq<char>) -> nat
    decreases s.len(),
{
    if s.len() == 0 {
        0
    } else {
        digits_value(s.drop_last()) * 10 + digit_value(s.last())
    }
}

/// All characters of `s` are decimal digits.
pub open spec fn all_digits(s: Seq<char>) -> bool {
    forall|i: int| 0 <= i < s.len() ==> is_digit(#[trigger] s[i])
}

/// The digits of an unsigned number text: what follows an optional `+`.
pub open spec fn unsigned_digits(s: Seq<char>) -> Seq<char> {
    if s.len() > 0 && s[0] == '+' {
        s.drop_first()
    } else {
        s
    }
}

/// What `str::parse::<u16>` accepts: an optional `+`, then one or more decimal
/// digits whose value fits in 16 bits. `None` where it returns an error.
pub open spec fn parse_u16(s: Seq<char>) -> Option<u16> {
    let d = unsigned_digits(s);
    if d.len() > 0 && all_digits(d) && digits_value(d) <= 0xffff {
        Some(digits_value(d) as u16)
    } else {
        None
    }
}

/// Appending a digit never lowers the value of a digit text.
proof fn lemma_digits_prefix_mono(s: Seq<char>, i: int, j: int)
    requires
        0 <= i <= j <= s.len(),
    ensures
        digits_value(s.take(i)) <= digits_value(s.take(j)),
    decreases j - i,
{
    if i < j {
        lemma_digits_prefix_mono(s, i, j - 1);
        assert(s.take(j).drop_last() == s.take(j - 1));
    }
}

/// Executable [`parse_u16`].
pub fn parse_port(s: &[char]) -> (res: Option<u16>)
    ensures
        res == parse_u16(s@),
{
    let n = s.len();
    let mut i: usize = 0;
    if n > 0 && s[0] == '+' {
        i = 1;
    }
    let ghost d = unsigned_digits(s@);
    assert(d == s@.skip(i as int));
    if i == n {
        return None;
    }
    let start = i;
    let mut v: u32 = 0;
    while i < n
        invariant
            start <= i <= n == s@.len(),
            start < n,
            d == s@.skip(start as int),
            d == unsigned_digits(s@),
            v <= 0xffff,
            v == digits_value(d.take(i - start)),
            all_digits(d.take(i - start)),
        decreases n - i,
    {
        let c = s[i];
        assert(d.take(i - start + 1).drop_last() == d.take(i - start));
        assert(d[i - start] == c);
        assert(d.take(i - start + 1).last() == c);
        if !('0' <= c && c <= '9') {
            assert(!is_digit(d[i - start]));
            assert(!all_digits(d));
            return None;
        }
        let dv = (c as u32) - 48;
        let nv = v * 10 + dv;
        assert(digits_value(d.take(i - start + 1)) == nv);
        if nv > 0xffff {
            proof {
                lemma_digits_prefix_mono(d, i - start + 1, d.len() as int);
                assert(d.take(d.len() as int) == d);
            }
            return None;
        }
        v = nv;
        i = i + 1;
        assert forall|t: int| 0 <= t < i - start implies is_digit(#[trigger] d.take(i - start)[t]) by {
            if t < i - start - 1 {
                assert(d.take(i - start)[t] == d.take(i - start - 1)[t]);
            }
        }
    }
    assert(d.take(n - start) == d);
    Some(v as u16)
}

// ---------------------------------------------------------------------------
// Padding
// ---------------------------------------------------------------------------

/// `s` padded on the right with spaces to at least `width` characters
/// (`format!("{:<width$}")`).
pub open spec fn pad_right(s: Seq<char>, width: nat) -> Seq<char> {
    if s.len() < width {
        s + Seq::new((width - s.len()) as nat, |i: int| ' ')
    } else {
        s
    }
}

/// Executable [`pad_right`], appended to `out`.
pub fn push_padded(out: &mut Vec<char>, s: &[char], width: usize)
    ensures
        final(out)@ == old(out)@ + pad_right(s@, width as nat),
{
    append_chars(out, s);
    let mut k = s.len();
    while k < width
        invariant
            s@.len() <= k || k == s@.len(),
            s@.len() <= k <= width || width < s@.len() && k == s@.len(),
            out@ == old(out)@ + s@ + Seq::new((k - s@.len()) as nat, |i: int| ' '),
        decreases width - k,
    {
        out.push(' ');
        assert(Seq::new((k + 1 - s@.len()) as nat, |i: int| ' ') == Seq::new(
            (k - s@.len()) as nat,
            |i: int| ' ',
        ).push(' '));
        k = k + 1;
    }
    assert(Seq::new(0 as nat, |i: int| ' ') == Seq::<char>::empty());
    if s.len() >= width {
        assert(old(out)@ + s@ + Seq::new(0 as nat, |i: int| ' ') == old(out)@ + s@);
    }
}

} // verus!

verus! {

// ---------------------------------------------------------------------------
// Round trips
// ---------------------------------------------------------------------------

/// A digit character is a digit and has the value it was made from.
pub proof fn lemma_digit_char(d: nat)
    requires
        d < 10,
    ensures
        is_digit(digit_char(d)),
        digit_value(digit_char(d)) == d,
        digit_char(d) != '+',
{
    let c = digit_char(d);
    assert((c as u32) == d + 48);
}

/// The decimal text of a number is a non-empty run of digits worth the number.
pub proof fn lemma_decimal(n: nat)
    ensures
        decimal(n).len() > 0,
        all_digits(decimal(n)),
        digits_value(decimal(n)) == n,
        decimal(n)[0] != '+',
    decreases n,
{
    if n < 10 {
        lemma_digit_char(n);
        assert(decimal(n) == seq![digit_char(n)]);
        assert(decimal(n).drop_last() == Seq::<char>::empty());
        assert(digits_value(Seq::<char>::empty()) == 0);
        assert(digits_value(decimal(n)) == digits_value(decimal(n).drop_last()) * 10
            + digit_value(decimal(n).last()));
    } else {
        lemma_decimal(n / 10);
        lemma_digit_char(n % 10);
        let d = decimal(n);
        assert(d.drop_last() == decimal(n / 10));
        assert forall|i: int| 0 <= i < d.len() implies is_digit(#[trigger] d[i]) by {
            if i < d.len() - 1 {
                assert(d[i] == decimal(n / 10)[i]);
            }
        }
        assert(d[0] == decimal(n / 10)[0]);
        assert(d.last() == digit_char(n % 10));
        assert(n == (n / 10) * 10 + n % 10);
        assert(digits_value(d) == digits_value(d.drop_last()) * 10 + digit_value(d.last()));
    }
}

/// Reading back the decimal text of a 16-bit number gives the number.
pub proof fn law_port_round_trip(p: u16)
    ensures
        parse_u16(decimal(p as nat)) == Some(p),
{
    lemma_decimal(p as nat);
}

/// A text without the separator splits into itself.
pub proof fn lemma_split_no_sep(t: Seq<char>, sep: char)
    requires
        !t.contains(sep),
    ensures
        split_on(t, sep) == seq![t],
    decreases t.len(),
{
    if t.len() > 0 {
        let init = t.drop_last();
        assert(!init.contains(sep)) by {
            if init.contains(sep) {
                let i = choose|i: int| 0 <= i < init.len() && init[i] == sep;
                assert(t[i] == sep);
            }
        }
        lemma_split_no_sep(init, sep);
        assert(t.last() != sep) by {
            assert(t[t.len() - 1] == t.last());
        }
        assert(init.push(t.last()) == t);
    } else {
        assert(t == Seq::<char>::empty());
    }
}

/// Splitting `s`, a separator and `t` splits `s` and `t` apart.
pub proof fn lemma_split_concat(s: Seq<char>, t: Seq<char>, sep: char)
    ensures
        split_on(s.push(sep) + t, sep) == split_on(s, sep) + split_on(t, sep),
    decreases t.len(),
{
    lemma_split_nonempty(s, sep);
    lemma_split_nonempty(t, sep);
    if t.len() == 0 {
        assert(s.push(sep) + t == s.push(sep));
        assert(s.push(sep).drop_last() == s);
        assert(split_on(t, sep) == seq![Seq::<char>::empty()]);
        assert(split_on(s, sep).push(Seq::<char>::empty()) == split_on(s, sep) + seq![
            Seq::<char>::empty(),
        ]);
    } else {
        let init = t.drop_last();
        let c = t.last();
        lemma_split_concat(s, init, sep);
        lemma_split_nonempty(init, sep);
        let whole = s.push(sep) + t;
        assert(whole.drop_last() == s.push(sep) + init);
        assert(whole.last() == c);
        let a = split_on(s, sep);
        let b = split_on(init, sep);
        if c == sep {
            assert((a + b).push(Seq::<char>::empty()) == a + b.push(Seq::<char>::empty()));
        } else {
            let ab = a + b;
            assert(ab.update(ab.len() - 1, ab.last().push(c)) == a + b.update(
                b.len() - 1,
                b.last().push(c),
            ));
        }
    }
}

/// Splitting texts joined by a separator they do not contain gives them back.
pub proof fn lemma_split_join(list: Seq<Seq<char>>, sep: char)
    requires
        list.len() > 0,
        forall|i: int| 0 <= i < list.len() ==> !(#[trigger] list[i]).contains(sep),
    ensures
        split_on(join(list, seq![sep]), sep) == list,
    decreases list.len(),
{
    if list.len() == 1 {
        lemma_split_no_sep(list[0], sep);
        assert(list == seq![list[0]]);
    } else {
        let init = list.drop_last();
        assert forall|i: int| 0 <= i < init.len() implies !(#[trigger] init[i]).contains(sep) by {
            assert(init[i] == list[i]);
        }
        lemma_split_join(init, sep);
        assert(!list[list.len() - 1].contains(sep));
        lemma_split_no_sep(list.last(), sep);
        let j = join(init, seq![sep]);
        assert(join(list, seq![sep]) == j.push(sep) + list.last());
        lemma_split_concat(j, list.last(), sep);
        assert(init + seq![list.last()] == list);
    }
}

/// A text without whitespace at either end is its own trim.
pub proof fn lemma_trim_id(t: Seq<char>)
    requires
        t.len() == 0 || (!is_white(t[0]) && !is_white(t.last())),
    ensures
        trim(t) == t,
{
    if t.len() > 0 {
        assert(run_len(t, CharClass::White) == 0);
        assert(t.skip(0) == t);
        assert(run_len_back(t, CharClass::White) == 0);
        assert(t.take(t.len() as int) == t);
    } else {
        assert(t.skip(0) == t);
        assert(t.take(0) == t);
    }
}

} // verus!
