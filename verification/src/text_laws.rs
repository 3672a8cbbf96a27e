//! What holds of texts that are cut, put together and read.
use crate::json::{json_char, json_chars, json_string};
use crate::slug_laws::{lacks, lemma_no_split, lemma_split};
use crate::text::{
    all_digits, at, before, contains, decimal, ends_with, find, is_digit, last_index,
    lemma_decimal_reads_back, lemma_find_is_first, lowercase, number, read_signed, read_unsigned,
    split_once, starts_with, trim, trim_end, trim_end_matches, trim_start, uppercase, white, words,
};
use vstd::arithmetic::power::{lemma_pow0, lemma_pow1, lemma_pow_adds, pow};
use vstd::prelude::*;

verus! {

/// A text is cut at the first of a mark, and not at all where there is none.
pub proof fn law_cut_at_first(head: Seq<char>, tail: Seq<char>, c: char)
    requires
        lacks(head, c),
    ensures
        split_once(head + seq![c] + tail, c) == Some((head, tail)),
        before(head + seq![c] + tail, c) == head,
        split_once(head, c) is None,
        before(head, c) == head,
{
    lemma_split(head, tail, c);
    lemma_no_split(head, c);
}

/// A text starts with its front, ends with its end and holds what stands between.
pub proof fn law_text_holds_its_parts(front: Seq<char>, middle: Seq<char>, end: Seq<char>)
    ensures
        starts_with(front + middle + end, front),
        ends_with(front + middle + end, end),
        contains(front + middle + end, middle),
        contains(front + middle + end, middle) ==> find(front + middle + end, middle) is Some
            && find(front + middle + end, middle)->0 <= front.len(),
{
    let s = front + middle + end;
    let n = front.len() as int;
    assert(s.subrange(0, n) =~= front);
    assert(s.subrange(s.len() - end.len(), s.len() as int) =~= end);
    assert(s.subrange(n, n + middle.len()) =~= middle);
    assert(at(s, middle, n));
    lemma_find_is_first(s, middle);
}

/// The last of a mark has none behind it, and there is none where none is told.
pub proof fn law_last_mark(s: Seq<char>, c: char)
    ensures
        ({
            let i = last_index(s, c);
            &&& -1 <= i < s.len()
            &&& i >= 0 ==> s[i] == c
            &&& forall|k: int| i < k < s.len() ==> #[trigger] s[k] != c
        }),
    decreases s.len(),
{
    if s.len() > 0 && s.last() != c {
        law_last_mark(s.drop_last(), c);
        let i = last_index(s, c);
        assert forall|k: int| i < k < s.len() implies #[trigger] s[k] != c by {
            if k < s.len() - 1 {
                assert(s.drop_last()[k] == s[k]);
            }
        }
    }
}

/// What a text ends in is taken off once for each time, and a text that does not end
/// in it stays.
pub proof fn law_end_is_taken_off(s: Seq<char>, p: Seq<char>)
    requires
        p.len() > 0,
    ensures
        trim_end_matches(s + p, p) == trim_end_matches(s, p),
        !ends_with(s, p) ==> trim_end_matches(s, p) == s && trim_end_matches(s + p, p) == s,
{
    let t = s + p;
    assert(t.subrange(t.len() - p.len(), t.len() as int) =~= p);
    assert(t.take(t.len() - p.len()) =~= s);
}

/// All characters are white space.
pub open spec fn all_white(s: Seq<char>) -> bool {
    forall|i: int| 0 <= i < s.len() ==> white(#[trigger] s[i])
}

/// No character is white space.
pub open spec fn no_white(s: Seq<char>) -> bool {
    forall|i: int| 0 <= i < s.len() ==> !white(#[trigger] s[i])
}

proof fn lemma_trim_start(front: Seq<char>, s: Seq<char>)
    requires
        all_white(front),
        s.len() > 0 ==> !white(s[0]),
    ensures
        trim_start(front + s) == s,
    decreases front.len(),
{
    if front.len() == 0 {
        assert(front + s =~= s);
    } else {
        assert(white(front[0]));
        assert((front + s)[0] == front[0]);
        assert((front + s).skip(1) =~= front.skip(1) + s);
        assert forall|i: int| 0 <= i < front.skip(1).len() implies white(
            #[trigger] front.skip(1)[i],
        ) by {
            assert(front.skip(1)[i] == front[i + 1]);
        }
        lemma_trim_start(front.skip(1), s);
    }
}

proof fn lemma_trim_end(s: Seq<char>, end: Seq<char>)
    requires
        all_white(end),
        s.len() > 0 ==> !white(s.last()),
    ensures
        trim_end(s + end) == s,
    decreases end.len(),
{
    if end.len() == 0 {
        assert(s + end =~= s);
    } else {
        assert(white(end[end.len() - 1]));
        assert((s + end).last() == end.last());
        assert((s + end).drop_last() =~= s + end.drop_last());
        lemma_trim_end(s, end.drop_last());
    }
}

/// White space at the two ends of a text is left out, and nothing else.
pub proof fn law_trim(front: Seq<char>, s: Seq<char>, end: Seq<char>)
    requires
        all_white(front),
        all_white(end),
        s.len() > 0,
        !white(s[0]),
        !white(s.last()),
    ensures
        trim(front + s + end) == s,
        trim(front) == Seq::<char>::empty(),
{
    assert(front + Seq::<char>::empty() =~= front);
    lemma_trim_start(front, Seq::empty());
    assert((s + end)[0] == s[0]);
    assert(front + s + end =~= front + (s + end));
    lemma_trim_start(front, s + end);
    lemma_trim_end(s, end);
}

/// A run of characters without white space is one word.
pub proof fn law_one_word(s: Seq<char>)
    requires
        s.len() > 0,
        no_white(s),
    ensures
        words(s) == seq![s],
    decreases s.len(),
{
    let front = s.drop_last();
    assert(!white(s[s.len() - 1]));
    if front.len() == 0 {
        assert(words(front) =~= Seq::<Seq<char>>::empty());
        assert(seq![s.last()] =~= s);
        assert(words(s) =~= seq![s]);
    } else {
        assert forall|i: int| 0 <= i < front.len() implies !white(#[trigger] front[i]) by {
            assert(front[i] == s[i]);
        }
        law_one_word(front);
        assert(!white(front[front.len() - 1]));
        assert(front.push(s.last()) =~= s);
        assert(words(s) =~= seq![s]);
    }
}

/// White space parts words: those of two texts with white space between are the words
/// of the one and then those of the other.
pub proof fn law_words_are_parted(a: Seq<char>, space: char, b: Seq<char>)
    requires
        white(space),
    ensures
        words(a + seq![space] + b) == words(a) + words(b),
        words(Seq::empty()) == Seq::<Seq<char>>::empty(),
    decreases b.len(),
{
    let s = a + seq![space] + b;
    if b.len() == 0 {
        assert(s.last() == space);
        assert(s.drop_last() =~= a);
        assert(words(s) =~= words(a) + words(b));
    } else {
        let front = b.drop_last();
        assert(s.last() == b.last());
        assert(s.drop_last() =~= a + seq![space] + front);
        law_words_are_parted(a, space, front);
        assert(s.drop_last().last() == (if front.len() == 0 {
            space
        } else {
            front.last()
        }));
        if white(b.last()) {
        } else if front.len() == 0 || white(front.last()) {
            assert(words(s) =~= words(a) + words(b));
        } else {
            lemma_some_word(front);
            assert((words(a) + words(front)).drop_last() =~= words(a) + words(front).drop_last());
            assert((words(a) + words(front)).last() == words(front).last());
            assert(words(s) =~= words(a) + words(b));
        }
    }
}

proof fn lemma_some_word(s: Seq<char>)
    requires
        s.len() > 0,
        !white(s.last()),
    ensures
        words(s).len() > 0,
{
}

/// Digits tell a number by their places.
pub proof fn law_digits_tell_number(a: Seq<char>, b: Seq<char>)
    requires
        all_digits(a),
        all_digits(b),
    ensures
        number(a + b) == number(a) * pow(10, b.len()) + number(b),
        b.len() == 1 ==> number(b) == b[0] as int - '0' as int,
    decreases b.len(),
{
    if b.len() == 0 {
        assert(a + b =~= a);
        lemma_pow0(10);
    } else {
        let front = b.drop_last();
        let s = a + b;
        let d = b.last() as int - '0' as int;
        assert(is_digit(b[b.len() - 1]));
        assert forall|i: int| 0 <= i < front.len() implies is_digit(#[trigger] front[i]) by {
            assert(front[i] == b[i]);
        }
        assert(s.last() == b.last());
        assert(s.drop_last() =~= a + front);
        law_digits_tell_number(a, front);
        lemma_pow_adds(10, front.len(), 1);
        lemma_pow1(10);
        let p = pow(10, front.len());
        let x = number(a) as int;
        assert(10 * (x * p) == x * (p * 10)) by (nonlinear_arith);
        if b.len() == 1 {
            assert(number(front) == 0);
        }
    }
}

/// A number is written in digits that tell it, without zeros before them.
pub proof fn law_number_is_written(n: nat)
    ensures
        decimal(n).len() > 0,
        all_digits(decimal(n)),
        number(decimal(n)) == n,
        n > 0 ==> decimal(n)[0] != '0',
        n == 0 ==> decimal(n) == seq!['0'],
    decreases n,
{
    lemma_decimal_reads_back(n);
    if n >= 10 {
        law_number_is_written(n / 10);
        lemma_decimal_reads_back(n / 10);
    }
}

/// A sign may stand before a number.
pub proof fn law_sign_is_read(digits: Seq<char>)
    requires
        digits.len() > 0,
        all_digits(digits),
        number(digits) <= i64::MAX,
    ensures
        read_signed(digits) == Some(number(digits) as int),
        read_signed(seq!['+'] + digits) == Some(number(digits) as int),
        read_signed(seq!['-'] + digits) == Some(-(number(digits) as int)),
        read_unsigned(digits, i64::MAX as int) == Some(number(digits) as int),
        read_unsigned(seq!['+'] + digits, i64::MAX as int) == Some(number(digits) as int),
        read_unsigned(seq!['-'] + digits, i64::MAX as int) is None,
{
    assert(is_digit(digits[0]));
    assert((seq!['+'] + digits).skip(1) =~= digits);
    assert((seq!['-'] + digits).skip(1) =~= digits);
    assert(!is_digit((seq!['-'] + digits)[0]));
}

/// What holds no digit, or anything but digits behind its sign, is no number.
pub proof fn law_no_number(s: Seq<char>, max: int, i: int)
    ensures
        read_unsigned(Seq::empty(), max) is None,
        read_signed(Seq::empty()) is None,
        0 < i < s.len() && !is_digit(s[i]) ==> read_unsigned(s, max) is None && read_signed(s)
            is None,
        s.len() > 0 && !is_digit(s[0]) && s[0] != '+' ==> read_unsigned(s, max) is None,
        s.len() > 0 && !is_digit(s[0]) && s[0] != '+' && s[0] != '-' ==> read_signed(s) is None,
        all_digits(s) && number(s) > max ==> read_unsigned(s, max) is None,
        all_digits(s) && number(s) > i64::MAX ==> read_signed(s) is None,
{
    if s.len() > 0 && all_digits(s) {
        assert(is_digit(s[0]));
    }
    if 0 < i < s.len() && !is_digit(s[i]) {
        assert(s.skip(1)[i - 1] == s[i]);
    }
}

/// A text stands at a place exactly where its characters do, one by one.
pub proof fn law_text_stands_at(s: Seq<char>, p: Seq<char>, i: int)
    ensures
        at(s, p, i) <==> 0 <= i && i + p.len() <= s.len() && forall|k: int|
            0 <= k < p.len() ==> #[trigger] p[k] == s[i + k],
        starts_with(s, p) <==> at(s, p, 0),
        ends_with(s, p) <==> at(s, p, s.len() - p.len()),
        at(s, p, i) ==> contains(s, p),
{
    if 0 <= i && i + p.len() <= s.len() {
        let part = s.subrange(i, i + p.len());
        if at(s, p, i) {
            assert forall|k: int| 0 <= k < p.len() implies #[trigger] p[k] == s[i + k] by {
                assert(part[k] == s[i + k]);
            }
        }
        if forall|k: int| 0 <= k < p.len() ==> #[trigger] p[k] == s[i + k] {
            assert(part =~= p);
        }
    }
}

/// Of a text in ASCII the letters change their case, one by one, and nothing else does.
pub proof fn law_case_of_letters(s: Seq<char>, i: int)
    requires
        forall|k: int| 0 <= k < s.len() ==> (#[trigger] s[k] as int) < 128,
        0 <= i < s.len(),
    ensures
        lowercase(s).len() == s.len(),
        uppercase(s).len() == s.len(),
        'A' <= s[i] <= 'Z' ==> lowercase(s)[i] as int == s[i] as int + 32,
        !('A' <= s[i] <= 'Z') ==> lowercase(s)[i] == s[i],
        'a' <= s[i] <= 'z' ==> uppercase(s)[i] as int == s[i] as int - 32,
        !('a' <= s[i] <= 'z') ==> uppercase(s)[i] == s[i],
{
    assert forall|k: int| 0 <= k < s.len() implies (#[trigger] s[k]) < '\u{80}' by {
        assert((s[k] as int) < 128);
    }
}

/// In a JSON string quotes and backslashes have a backslash before them, and
/// characters from the space on stand for themselves.
pub proof fn law_json_characters(c: char)
    ensures
        c == '"' || c == '\\' ==> json_char(c) == seq!['\\', c],
        c as int >= 32 && c != '"' && c != '\\' ==> json_char(c) == seq![c],
        (c as int) < 32 ==> json_char(c).len() >= 2 && json_char(c)[0] == '\\',
{
}

/// A JSON string is written character by character, between quotes.
pub proof fn law_json_string_is_written_in_turn(s: Seq<char>, c: char)
    ensures
        json_chars(Seq::empty()) == Seq::<char>::empty(),
        json_chars(s.push(c)) == json_chars(s) + json_char(c),
        json_string(s) == seq!['"'] + json_chars(s) + seq!['"'],
{
    assert(s.push(c).drop_last() =~= s);
}

} // verus!
