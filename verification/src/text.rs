//! Searching, splitting, reading and writing text, on sequences of characters.
use vstd::prelude::*;
use vstd::slice::slice_subrange;
use vstd::string::StringExecFns;

verus! {

/// `p` stands in `s` at index `i`.
pub open spec fn at(s: Seq<char>, p: Seq<char>, i: int) -> bool {
    0 <= i && i + p.len() <= s.len() && s.subrange(i, i + p.len()) == p
}

/// `p` stands somewhere in `s`.
pub open spec fn contains(s: Seq<char>, p: Seq<char>) -> bool {
    exists|i: int| at(s, p, i)
}

/// The first place from `i` on at which `p` stands in `s`.
pub open spec fn find_from(s: Seq<char>, p: Seq<char>, i: int) -> Option<int>
    decreases s.len() - i + 1,
{
    if i < 0 || i + p.len() > s.len() {
        None
    } else if at(s, p, i) {
        Some(i)
    } else {
        find_from(s, p, i + 1)
    }
}

/// The first place at which `p` stands in `s`.
pub open spec fn find(s: Seq<char>, p: Seq<char>) -> Option<int> {
    find_from(s, p, 0)
}

pub open spec fn starts_with(s: Seq<char>, p: Seq<char>) -> bool {
    at(s, p, 0)
}

pub open spec fn ends_with(s: Seq<char>, p: Seq<char>) -> bool {
    at(s, p, s.len() - p.len())
}

/// What stands before and after the first `c` in `s`.
pub open spec fn split_once(s: Seq<char>, c: char) -> Option<(Seq<char>, Seq<char>)> {
    match find(s, seq![c]) {
        Some(i) => Some((s.take(i), s.skip(i + 1))),
        None => None,
    }
}

/// What stands in `s` before the first `c`, all of it where there is none.
pub open spec fn before(s: Seq<char>, c: char) -> Seq<char> {
    match split_once(s, c) {
        Some((head, _)) => head,
        None => s,
    }
}

/// The index of the last `c` in `s`, or -1.
pub open spec fn last_index(s: Seq<char>, c: char) -> int
    decreases s.len(),
{
    if s.len() == 0 {
        -1
    } else if s.last() == c {
        s.len() - 1
    } else {
        last_index(s.drop_last(), c)
    }
}

/// `s` without the `p` that it ends in, taken off as often as it ends in one.
pub open spec fn trim_end_matches(s: Seq<char>, p: Seq<char>) -> Seq<char>
    decreases s.len(),
{
    if p.len() > 0 && ends_with(s, p) {
        trim_end_matches(s.take(s.len() - p.len()), p)
    } else {
        s
    }
}

/// The characters of Unicode's White_Space property.
pub open spec fn white(c: char) -> bool {
    ||| '\u{9}' <= c <= '\u{d}'
    ||| c == '\u{20}'
    ||| c == '\u{85}'
    ||| c == '\u{a0}'
    ||| c == '\u{1680}'
    ||| '\u{2000}' <= c <= '\u{200a}'
    ||| c == '\u{2028}'
    ||| c == '\u{2029}'
    ||| c == '\u{202f}'
    ||| c == '\u{205f}'
    ||| c == '\u{3000}'
}

/// `s` without the white space at its end.
pub open spec fn trim_end(s: Seq<char>) -> Seq<char>
    decreases s.len(),
{
    if s.len() > 0 && white(s.last()) {
        trim_end(s.drop_last())
    } else {
        s
    }
}

/// `s` without the white space at its start.
pub open spec fn trim_start(s: Seq<char>) -> Seq<char>
    decreases s.len(),
{
    if s.len() > 0 && white(s[0]) {
        trim_start(s.skip(1))
    } else {
        s
    }
}

/// `s` without the white space at its two ends.
pub open spec fn trim(s: Seq<char>) -> Seq<char> {
    trim_end(trim_start(s))
}

/// The runs of characters between white space.
pub open spec fn words(s: Seq<char>) -> Seq<Seq<char>>
    decreases s.len(),
{
    if s.len() == 0 {
        Seq::empty()
    } else {
        let front = s.drop_last();
        let done = words(front);
        if white(s.last()) {
            done
        } else if front.len() == 0 || white(front.last()) {
            done.push(seq![s.last()])
        } else {
            done.drop_last().push(done.last().push(s.last()))
        }
    }
}

pub open spec fn is_digit(c: char) -> bool {
    '0' <= c <= '9'
}

pub open spec fn all_digits(s: Seq<char>) -> bool {
    forall|i: int| 0 <= i < s.len() ==> is_digit(#[trigger] s[i])
}

/// The number that a run of decimal digits writes.
pub open spec fn number(s: Seq<char>) -> nat
    decreases s.len(),
{
    if s.len() == 0 {
        0
    } else {
        (10 * number(s.drop_last()) + (s.last() as int - '0' as int)) as nat
    }
}

/// The number that `s` writes without a sign, where it is at most `max`.
pub open spec fn read_digits(s: Seq<char>, max: int) -> Option<int> {
    if s.len() > 0 && all_digits(s) && number(s) <= max {
        Some(number(s) as int)
    } else {
        None
    }
}

/// The number that `s` writes, a plus sign allowed before it, where it is at
/// most `max`.
pub open spec fn read_unsigned(s: Seq<char>, max: int) -> Option<int> {
    if s.len() > 0 && s[0] == '+' {
        read_digits(s.skip(1), max)
    } else {
        read_digits(s, max)
    }
}

/// The number that `s` writes, a sign allowed before it, where it fits.
pub open spec fn read_signed(s: Seq<char>) -> Option<int> {
    if s.len() > 0 && s[0] == '-' {
        match read_digits(s.skip(1), i64::MAX + 1) {
            Some(n) => Some(-n),
            None => None,
        }
    } else {
        read_unsigned(s, i64::MAX as int)
    }
}

pub open spec fn digit(n: nat) -> char {
    ('0' as int + n) as char
}

/// `n` in decimal digits.
pub open spec fn decimal(n: nat) -> Seq<char>
    decreases n,
{
    if n < 10 {
        seq![digit(n)]
    } else {
        decimal(n / 10).push(digit(n % 10))
    }
}

pub open spec fn is_ascii_text(s: Seq<char>) -> bool {
    forall|i: int| 0 <= i < s.len() ==> (#[trigger] s[i]) < '\u{80}'
}

pub open spec fn ascii_lower(c: char) -> char {
    if 'A' <= c <= 'Z' {
        (c as int + 32) as char
    } else {
        c
    }
}

pub open spec fn ascii_upper(c: char) -> char {
    if 'a' <= c <= 'z' {
        (c as int - 32) as char
    } else {
        c
    }
}

pub open spec fn lower_text(s: Seq<char>) -> Seq<char> {
    s.map_values(|c: char| ascii_lower(c))
}

pub open spec fn upper_text(s: Seq<char>) -> Seq<char> {
    s.map_values(|c: char| ascii_upper(c))
}

/// A text with characters past ASCII in lower case, by Unicode's rules.
pub uninterp spec fn unicode_lowercase(s: Seq<char>) -> Seq<char>;

/// A text with characters past ASCII in upper case, by Unicode's rules.
pub uninterp spec fn unicode_uppercase(s: Seq<char>) -> Seq<char>;

/// `s` in lower case.
pub open spec fn lowercase(s: Seq<char>) -> Seq<char> {
    if is_ascii_text(s) {
        lower_text(s)
    } else {
        unicode_lowercase(s)
    }
}

/// `s` in upper case.
pub open spec fn uppercase(s: Seq<char>) -> Seq<char> {
    if is_ascii_text(s) {
        upper_text(s)
    } else {
        unicode_uppercase(s)
    }
}

/// `str::to_lowercase`. Where the text is ASCII, the letters `A` to `Z` become
/// `a` to `z` and the rest stays; of other text the result depends on the text
/// alone.
#[verifier::external_body]
pub(crate) fn to_lowercase(s: &str) -> (r: String)
    ensures
        is_ascii_text(s@) ==> r@ == lower_text(s@),
        !is_ascii_text(s@) ==> r@ == unicode_lowercase(s@),
{
    s.to_lowercase()
}

/// `str::to_uppercase`. Where the text is ASCII, the letters `a` to `z` become
/// `A` to `Z` and the rest stays; of other text the result depends on the text
/// alone.
#[verifier::external_body]
pub(crate) fn to_uppercase(s: &str) -> (r: String)
    ensures
        is_ascii_text(s@) ==> r@ == upper_text(s@),
        !is_ascii_text(s@) ==> r@ == unicode_uppercase(s@),
{
    s.to_uppercase()
}

/// `String::push`: the character is put at the end.
pub assume_specification[ String::push ](s: &mut String, c: char)
    ensures
        final(s)@ == old(s)@.push(c),
;

/// The text that is there, if any.
pub open spec fn optional(s: Option<String>) -> Option<Seq<char>> {
    match s {
        Some(s) => Some(s@),
        None => None,
    }
}

/// The characters of `s`.
pub fn chars_of(s: &str) -> (r: Vec<char>)
    ensures
        r@ == s@,
{
    let mut r: Vec<char> = Vec::new();
    for c in it: s.chars()
        invariant
            it.seq() == s@,
            r@ == s@.take(it.index() as int),
    {
        r.push(c);
    }
    r
}

/// The text made of the characters `v`.
pub fn text_of(v: &[char]) -> (r: String)
    ensures
        r@ == v@,
{
    let mut r: String = String::new();
    let mut i: usize = 0;
    while i < v.len()
        invariant
            i <= v.len(),
            r@ == v@.take(i as int),
        decreases v.len() - i,
    {
        r.push(v[i]);
        i = i + 1;
    }
    proof {
        assert(v@.take(v.len() as int) == v@);
    }
    r
}

/// The two runs of characters are the same.
pub fn same_chars(a: &[char], b: &[char]) -> (r: bool)
    ensures
        r == (a@ == b@),
{
    if a.len() != b.len() {
        return false;
    }
    let mut i: usize = 0;
    while i < a.len()
        invariant
            i <= a.len() == b.len(),
            forall|j: int| 0 <= j < i ==> a@[j] == b@[j],
        decreases a.len() - i,
    {
        if a[i] != b[i] {
            return false;
        }
        i = i + 1;
    }
    proof {
        assert(a@ =~= b@);
    }
    true
}

/// The two texts are the same.
pub fn same_text(a: &str, b: &str) -> (r: bool)
    ensures
        r == (a@ == b@),
{
    let x: Vec<char> = chars_of(a);
    let y: Vec<char> = chars_of(b);
    same_chars(x.as_slice(), y.as_slice())
}

fn is_at(s: &[char], p: &[char], i: usize) -> (r: bool)
    ensures
        r == at(s@, p@, i as int),
{
    if p.len() > s.len() || i > s.len() - p.len() {
        return false;
    }
    same_chars(slice_subrange(s, i, i + p.len()), p)
}

proof fn lemma_find_none(s: Seq<char>, p: Seq<char>, i: int)
    requires
        0 <= i,
        find_from(s, p, i) is None,
    ensures
        forall|j: int| i <= j ==> !at(s, p, j),
    decreases s.len() - i + 1,
{
    if i + p.len() <= s.len() {
        lemma_find_none(s, p, i + 1);
        assert(!at(s, p, i));
    }
}

proof fn lemma_find_some(s: Seq<char>, p: Seq<char>, i: int)
    requires
        0 <= i,
    ensures
        find_from(s, p, i) matches Some(k) ==> i <= k && at(s, p, k) && forall|j: int|
            i <= j < k ==> !at(s, p, j),
    decreases s.len() - i + 1,
{
    if i + p.len() <= s.len() && !at(s, p, i) {
        lemma_find_some(s, p, i + 1);
    }
}

/// The place that `find` gives is the first one at which `p` stands in `s`.
pub proof fn lemma_find_is_first(s: Seq<char>, p: Seq<char>)
    ensures
        find(s, p) is Some <==> contains(s, p),
        find(s, p) matches Some(k) ==> at(s, p, k) && forall|j: int| at(s, p, j) ==> k <= j,
{
    lemma_find_some(s, p, 0);
    if find(s, p) is None {
        lemma_find_none(s, p, 0);
        assert forall|j: int| !at(s, p, j) by {}
    } else {
        let k = find(s, p)->0;
        assert forall|j: int| at(s, p, j) implies k <= j by {}
    }
}

/// The first place at which `p` stands in `s`.
pub fn find_in(s: &[char], p: &[char]) -> (r: Option<usize>)
    ensures
        r matches Some(i) ==> find(s@, p@) == Some(i as int) && i + p@.len() <= s@.len(),
        r is None ==> find(s@, p@) is None,
{
    if p.len() > s.len() {
        return None;
    }
    let mut i: usize = 0;
    let last: usize = s.len() - p.len();
    loop
        invariant
            last == s@.len() - p@.len(),
            i <= last,
            find(s@, p@) == find_from(s@, p@, i as int),
        decreases last - i,
    {
        if is_at(s, p, i) {
            return Some(i);
        }
        if i == last {
            proof {
                assert(find_from(s@, p@, i + 1) is None);
            }
            return None;
        }
        i = i + 1;
    }
}

/// Whether `p` stands in `s`.
pub fn holds(s: &str, p: &str) -> (r: bool)
    ensures
        r == contains(s@, p@),
{
    let x: Vec<char> = chars_of(s);
    let y: Vec<char> = chars_of(p);
    proof {
        lemma_find_is_first(s@, p@);
    }
    find_in(x.as_slice(), y.as_slice()).is_some()
}

/// Whether `s` begins with `p`.
pub fn begins(s: &str, p: &str) -> (r: bool)
    ensures
        r == starts_with(s@, p@),
{
    let x: Vec<char> = chars_of(s);
    let y: Vec<char> = chars_of(p);
    is_at(x.as_slice(), y.as_slice(), 0)
}

/// Whether the characters `s` end in `p`.
pub fn ends_in(s: &[char], p: &[char]) -> (r: bool)
    ensures
        r == ends_with(s@, p@),
{
    if p.len() > s.len() {
        false
    } else {
        is_at(s, p, s.len() - p.len())
    }
}

/// Whether `s` ends in `p`.
pub fn ends(s: &str, p: &str) -> (r: bool)
    ensures
        r == ends_with(s@, p@),
{
    let x: Vec<char> = chars_of(s);
    let y: Vec<char> = chars_of(p);
    ends_in(x.as_slice(), y.as_slice())
}

/// What stands before and after the first `c`.
pub fn cut(s: &[char], c: char) -> (r: Option<(&[char], &[char])>)
    ensures
        match r {
            Some((head, tail)) => split_once(s@, c) == Some((head@, tail@)),
            None => split_once(s@, c) is None,
        },
{
    let n: usize = s.len();
    let mut p: Vec<char> = Vec::new();
    p.push(c);
    proof {
        assert(p@ == seq![c]);
    }
    match find_in(s, p.as_slice()) {
        Some(i) => {
            let head: &[char] = slice_subrange(s, 0, i);
            let tail: &[char] = slice_subrange(s, i + 1, n);
            Some((head, tail))
        },
        None => None,
    }
}

/// The index of the last `c`.
pub fn last_place(s: &[char], c: char) -> (r: Option<usize>)
    ensures
        match r {
            Some(i) => i == last_index(s@, c) && i < s@.len(),
            None => last_index(s@, c) == -1,
        },
{
    let mut n: usize = s.len();
    proof {
        assert(s@.take(n as int) == s@);
    }
    while n > 0
        invariant
            n <= s@.len(),
            last_index(s@, c) == last_index(s@.take(n as int), c),
        decreases n,
    {
        if s[n - 1] == c {
            return Some(n - 1);
        }
        n = n - 1;
        proof {
            assert(s@.take(n + 1).drop_last() == s@.take(n as int));
        }
    }
    None
}

/// `s` without the `p` that it ends in, however often.
pub fn without_end<'a>(s: &'a [char], p: &[char]) -> (r: &'a [char])
    ensures
        r@ == trim_end_matches(s@, p@),
{
    let mut n: usize = s.len();
    proof {
        assert(s@.take(n as int) == s@);
    }
    if p.len() == 0 {
        return s;
    }
    while n >= p.len() && is_at(slice_subrange(s, 0, n), p, n - p.len())
        invariant
            p@.len() > 0,
            n <= s@.len(),
            trim_end_matches(s@, p@) == trim_end_matches(s@.take(n as int), p@),
        decreases n,
    {
        proof {
            let k = n - p@.len();
            assert(s@.subrange(0, n as int) == s@.take(n as int));
            assert(s@.take(n as int).take(k) == s@.take(k));
        }
        n = n - p.len();
    }
    proof {
        assert(s@.subrange(0, n as int) == s@.take(n as int));
    }
    slice_subrange(s, 0, n)
}

/// Whether `c` is white space.
pub fn is_white(c: char) -> (r: bool)
    ensures
        r == white(c),
{
    ('\u{9}' <= c && c <= '\u{d}') || c == '\u{20}' || c == '\u{85}' || c == '\u{a0}' || c
        == '\u{1680}' || ('\u{2000}' <= c && c <= '\u{200a}') || c == '\u{2028}' || c
        == '\u{2029}' || c == '\u{202f}' || c == '\u{205f}' || c == '\u{3000}'
}

/// `s` without the white space at its two ends.
pub fn trimmed(s: &[char]) -> (r: &[char])
    ensures
        r@ == trim(s@),
{
    let mut i: usize = 0;
    proof {
        assert(s@.skip(0) == s@);
    }
    while i < s.len() && is_white(s[i])
        invariant
            i <= s@.len(),
            trim_start(s@) == trim_start(s@.skip(i as int)),
        decreases s@.len() - i,
    {
        proof {
            assert(s@.skip(i as int).skip(1) == s@.skip(i + 1));
        }
        i = i + 1;
    }
    let mut n: usize = s.len();
    let ghost rest = s@.skip(i as int);
    proof {
        assert(s@.subrange(i as int, n as int) == rest);
        assert(trim_start(s@) == rest);
    }
    while n > i && is_white(s[n - 1])
        invariant
            i <= n <= s@.len(),
            rest == s@.skip(i as int),
            trim_end(rest) == trim_end(s@.subrange(i as int, n as int)),
        decreases n,
    {
        proof {
            assert(s@.subrange(i as int, n as int).drop_last() == s@.subrange(i as int, n - 1));
        }
        n = n - 1;
    }
    slice_subrange(s, i, n)
}

/// The runs of characters between white space.
pub fn words_of(s: &[char]) -> (r: Vec<String>)
    ensures
        r@.map_values(|w: String| w@) == words(s@),
{
    let mut done: Vec<String> = Vec::new();
    let mut word: String = String::new();
    let mut open: bool = false;
    let mut i: usize = 0;
    let ghost view = |w: String| w@;
    while i < s.len()
        invariant
            i <= s@.len(),
            view == |w: String| w@,
            open <==> i > 0 && !white(s@[i - 1]),
            !open ==> word@.len() == 0,
            words(s@.take(i as int)) == if open {
                done@.map_values(view).push(word@)
            } else {
                done@.map_values(view)
            },
        decreases s@.len() - i,
    {
        let c: char = s[i];
        let ghost before_done = done@.map_values(view);
        proof {
            assert(s@.take(i + 1).drop_last() == s@.take(i as int));
            assert(s@.take(i + 1).last() == c);
        }
        if is_white(c) {
            if open {
                let ghost old_done = done@;
                done.push(word);
                proof {
                    assert(done@.map_values(view) =~= old_done.map_values(view).push(word@));
                }
                word = String::new();
                open = false;
            }
        } else {
            proof {
                if open {
                    assert(before_done.push(word@).drop_last() =~= before_done);
                } else {
                    assert(word@.push(c) =~= seq![c]);
                }
            }
            word.push(c);
            open = true;
        }
        i = i + 1;
    }
    proof {
        assert(s@.take(i as int) == s@);
    }
    if open {
        let ghost old_done = done@;
        done.push(word);
        proof {
            assert(done@.map_values(view) =~= old_done.map_values(view).push(word@));
        }
    }
    done
}

proof fn lemma_number_grows(s: Seq<char>, i: int)
    requires
        0 <= i <= s.len(),
        all_digits(s),
    ensures
        number(s.take(i)) <= number(s),
    decreases s.len() - i,
{
    if i < s.len() {
        lemma_number_grows(s, i + 1);
        assert(s.take(i + 1).drop_last() == s.take(i));
        assert(is_digit(s[i]));
    } else {
        assert(s.take(i) == s);
    }
}

/// The number that a run of digits writes, where it is at most `max`.
fn digits_value(s: &[char], max: u64) -> (r: Option<u64>)
    ensures
        match r {
            Some(n) => read_digits(s@, max as int) == Some(n as int),
            None => read_digits(s@, max as int) is None,
        },
{
    if s.len() == 0 {
        return None;
    }
    let mut n: u64 = 0;
    let mut i: usize = 0;
    while i < s.len()
        invariant
            i <= s@.len(),
            n <= max,
            n == number(s@.take(i as int)),
            forall|j: int| 0 <= j < i ==> is_digit(#[trigger] s@[j]),
        decreases s@.len() - i,
    {
        let c: char = s[i];
        if !('0' <= c && c <= '9') {
            proof {
                assert(!is_digit(s@[i as int]));
            }
            return None;
        }
        let d: u64 = (c as u32 - '0' as u32) as u64;
        proof {
            assert(s@.take(i + 1).drop_last() == s@.take(i as int));
            if all_digits(s@) {
                lemma_number_grows(s@, i + 1);
            }
        }
        if d > max || n > (max - d) / 10 {
            return None;
        }
        n = 10 * n + d;
        i = i + 1;
    }
    proof {
        assert(s@.take(i as int) == s@);
    }
    Some(n)
}

/// The number that `s` writes, a plus sign allowed before it.
fn unsigned_value(s: &[char], max: u64) -> (r: Option<u64>)
    ensures
        match r {
            Some(n) => read_unsigned(s@, max as int) == Some(n as int),
            None => read_unsigned(s@, max as int) is None,
        },
{
    if s.len() > 0 && s[0] == '+' {
        digits_value(slice_subrange(s, 1, s.len()), max)
    } else {
        digits_value(s, max)
    }
}

/// Reads a number of 64 bits without a sign.
pub fn read_u64(s: &[char]) -> (r: Option<u64>)
    ensures
        match r {
            Some(n) => read_unsigned(s@, u64::MAX as int) == Some(n as int),
            None => read_unsigned(s@, u64::MAX as int) is None,
        },
{
    unsigned_value(s, u64::MAX)
}

/// Reads a number of 32 bits without a sign.
pub fn read_u32(s: &[char]) -> (r: Option<u32>)
    ensures
        match r {
            Some(n) => read_unsigned(s@, u32::MAX as int) == Some(n as int),
            None => read_unsigned(s@, u32::MAX as int) is None,
        },
{
    match unsigned_value(s, u32::MAX as u64) {
        Some(n) => Some(n as u32),
        None => None,
    }
}

/// Reads a number of 64 bits with or without a sign.
pub fn read_i64(s: &[char]) -> (r: Option<i64>)
    ensures
        match r {
            Some(n) => read_signed(s@) == Some(n as int),
            None => read_signed(s@) is None,
        },
{
    if s.len() > 0 && s[0] == '-' {
        match digits_value(slice_subrange(s, 1, s.len()), 0x8000_0000_0000_0000) {
            Some(n) => if n == 0x8000_0000_0000_0000 {
                Some(i64::MIN)
            } else {
                Some(-(n as i64))
            },
            None => None,
        }
    } else {
        match unsigned_value(s, i64::MAX as u64) {
            Some(n) => Some(n as i64),
            None => None,
        }
    }
}

/// The digit `n`.
fn digit_char(n: u64) -> (r: char)
    requires
        n < 10,
    ensures
        r == digit(n as nat),
{
    match n {
        0 => '0',
        1 => '1',
        2 => '2',
        3 => '3',
        4 => '4',
        5 => '5',
        6 => '6',
        7 => '7',
        8 => '8',
        _ => '9',
    }
}

/// `n` in decimal digits.
pub fn decimal_of(n: u64) -> (r: String)
    ensures
        r@ == decimal(n as nat),
    decreases n,
{
    if n < 10 {
        let mut r: String = String::new();
        r.push(digit_char(n));
        proof {
            assert(r@ =~= seq![digit(n as nat)]);
        }
        r
    } else {
        let mut r: String = decimal_of(n / 10);
        r.push(digit_char(n % 10));
        r
    }
}

/// Reading a number back from its digits gives the number.
pub proof fn lemma_decimal_reads_back(n: nat)
    ensures
        decimal(n).len() > 0,
        all_digits(decimal(n)),
        number(decimal(n)) == n,
        decimal(n)[0] != '+',
        forall|max: int| n <= max ==> #[trigger] read_unsigned(decimal(n), max) == Some(n as int),
    decreases n,
{
    if n < 10 {
        assert(is_digit(digit(n)));
        assert(decimal(n).drop_last() =~= Seq::<char>::empty());
        assert(number(Seq::<char>::empty()) == 0);
    } else {
        lemma_decimal_reads_back(n / 10);
        assert(is_digit(digit(n % 10)));
        assert(decimal(n).drop_last() =~= decimal(n / 10));
        assert(decimal(n)[0] == decimal(n / 10)[0]);
    }
    assert(is_digit(decimal(n)[0]));
}

} // verus!
