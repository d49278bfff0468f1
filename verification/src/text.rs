//! Text helpers shared by the parsers and the renderers.
use vstd::prelude::*;

verus! {

/// The predicate that holds of the character `c` alone.
pub open spec fn is_char(c: char) -> spec_fn(char) -> bool {
    |x: char| x == c
}

/// The predicate that holds of the byte `b` alone.
pub open spec fn is_byte(b: u8) -> spec_fn(u8) -> bool {
    |x: u8| x == b
}

/// `at` is the first position of `text` whose item meets `stop`, or the length
/// of `text` where none does.
pub open spec fn is_first_stop<A>(text: Seq<A>, stop: spec_fn(A) -> bool, at: int) -> bool {
    &&& 0 <= at <= text.len()
    &&& at < text.len() ==> stop(text[at])
    &&& forall|j: int| 0 <= j < at ==> !stop(#[trigger] text[j])
}

/// The first position of `text` whose item meets `stop`, or the length of
/// `text` where none does.
pub open spec fn spec_first_stop<A>(text: Seq<A>, stop: spec_fn(A) -> bool) -> int {
    choose|at: int| is_first_stop(text, stop, at)
}

/// The pieces of `text` between the items that meet `stop`. There is always at
/// least one piece; two neighbouring stops have an empty piece between them.
pub open spec fn spec_split<A>(text: Seq<A>, stop: spec_fn(A) -> bool) -> Seq<Seq<A>>
    decreases text.len(),
{
    let at = spec_first_stop(text, stop);
    if 0 <= at < text.len() {
        seq![text.take(at)] + spec_split(text.skip(at + 1), stop)
    } else {
        seq![text]
    }
}

/// `parts` written one after the other with `sep` between neighbours.
pub open spec fn spec_join<A>(parts: Seq<Seq<A>>, sep: Seq<A>) -> Seq<A>
    decreases parts.len(),
{
    if parts.len() == 0 {
        Seq::empty()
    } else if parts.len() == 1 {
        parts[0]
    } else {
        spec_join(parts.drop_last(), sep) + sep + parts.last()
    }
}

/// There is one first stop, and `spec_first_stop` names it.
pub proof fn lemma_first_stop_unique<A>(text: Seq<A>, stop: spec_fn(A) -> bool, at: int)
    requires
        is_first_stop(text, stop, at),
    ensures
        spec_first_stop(text, stop) == at,
{
    let other = spec_first_stop(text, stop);
    assert(is_first_stop(text, stop, other));
    if other < at {
        assert(!stop(text[other]));
    } else if at < other {
        assert(!stop(text[at]));
    }
}

/// Splitting two texts with a stop between them gives the pieces of the first
/// and then the pieces of the second.
pub proof fn lemma_split_around_stop<A>(
    head: Seq<A>,
    between: A,
    tail: Seq<A>,
    stop: spec_fn(A) -> bool,
)
    requires
        stop(between),
    ensures
        spec_split(head + seq![between] + tail, stop) == spec_split(head, stop) + spec_split(
            tail,
            stop,
        ),
    decreases head.len(),
{
    let whole = head + seq![between] + tail;
    let at = spec_first_stop(head, stop);
    lemma_first_stop_exists(head, stop);
    assert forall|j: int| 0 <= j < at implies !stop(#[trigger] whole[j]) by {
        assert(whole[j] == head[j]);
    }
    if at < head.len() {
        assert(whole[at] == head[at]);
        lemma_first_stop_unique(whole, stop, at);
        assert(whole.take(at) =~= head.take(at));
        assert(whole.skip(at + 1) =~= head.skip(at + 1) + seq![between] + tail);
        lemma_split_around_stop(head.skip(at + 1), between, tail, stop);
        assert(seq![head.take(at)] + (spec_split(head.skip(at + 1), stop) + spec_split(tail, stop))
            =~= (seq![head.take(at)] + spec_split(head.skip(at + 1), stop)) + spec_split(
            tail,
            stop,
        ));
    } else {
        assert(whole[at] == between);
        lemma_first_stop_unique(whole, stop, at);
        assert(whole.take(at) =~= head);
        assert(whole.skip(at + 1) =~= tail);
    }
}

/// A text without a stop is its own single piece.
pub proof fn lemma_split_without_stop<A>(text: Seq<A>, stop: spec_fn(A) -> bool)
    requires
        forall|i: int| 0 <= i < text.len() ==> !stop(#[trigger] text[i]),
    ensures
        spec_split(text, stop) == seq![text],
{
    lemma_first_stop_unique(text, stop, text.len() as int);
}

/// Every text has a first stop.
pub proof fn lemma_first_stop_exists<A>(text: Seq<A>, stop: spec_fn(A) -> bool)
    ensures
        is_first_stop(text, stop, spec_first_stop(text, stop)),
    decreases text.len(),
{
    if text.len() == 0 {
        assert(is_first_stop(text, stop, 0));
    } else if stop(text[0]) {
        assert(is_first_stop(text, stop, 0));
    } else {
        let rest = text.skip(1);
        lemma_first_stop_exists(rest, stop);
        let at = spec_first_stop(rest, stop);
        assert forall|j: int| 0 <= j < at + 1 implies !stop(#[trigger] text[j]) by {
            if j > 0 {
                assert(text[j] == rest[j - 1]);
            }
        }
        if at < rest.len() {
            assert(text[at + 1] == rest[at]);
        }
        assert(is_first_stop(text, stop, at + 1));
    }
}

/// The characters of a string slice, in order.
pub fn chars_of(s: &str) -> (chars: Vec<char>)
    ensures
        chars@ == s@,
{
    broadcast use vstd::string::group_string_axioms;

    let mut out: Vec<char> = Vec::new();
    for c in it: s.chars()
        invariant
            it.seq() == s@,
            out@ == s@.take(it.index()),
    {
        out.push(c);
        assert(s@.take(it.index()).push(c) =~= s@.take(it.index() + 1));
    }
    assert(s@.take(s@.len() as int) =~= s@);
    out
}

/// Whether two runs of characters are the same.
pub fn chars_eq(a: &[char], b: &[char]) -> (same: bool)
    ensures
        same == (a@ == b@),
{
    if a.len() != b.len() {
        return false;
    }
    let mut i: usize = 0;
    while i < a.len()
        invariant
            a@.len() == b@.len(),
            i <= a@.len(),
            forall|j: int| 0 <= j < i ==> a@[j] == b@[j],
        decreases a@.len() - i,
    {
        if a[i] != b[i] {
            return false;
        }
        i += 1;
    }
    assert(a@ =~= b@);
    true
}

/// The first position of `c` in `text`.
pub fn find_char(text: &[char], c: char) -> (found: Option<usize>)
    ensures
        match found {
            Some(at) => at < text@.len() && spec_first_stop(text@, is_char(c)) == at,
            None => spec_first_stop(text@, is_char(c)) == text@.len(),
        },
{
    let mut i: usize = 0;
    while i < text.len()
        invariant
            i <= text@.len(),
            forall|j: int| 0 <= j < i ==> !is_char(c)(#[trigger] text@[j]),
        decreases text@.len() - i,
    {
        if text[i] == c {
            proof {
                lemma_first_stop_unique(text@, is_char(c), i as int);
            }
            return Some(i);
        }
        i += 1;
    }
    proof {
        lemma_first_stop_unique(text@, is_char(c), text@.len() as int);
    }
    None
}

/// The white space of Unicode: the characters with the property `White_Space`.
pub open spec fn spec_is_whitespace(c: char) -> bool {
    let code = c as u32;
    ||| 0x09 <= code <= 0x0d
    ||| code == 0x20
    ||| code == 0x85
    ||| code == 0xa0
    ||| code == 0x1680
    ||| 0x2000 <= code <= 0x200a
    ||| code == 0x2028
    ||| code == 0x2029
    ||| code == 0x202f
    ||| code == 0x205f
    ||| code == 0x3000
}

/// The predicate that holds of white space.
pub open spec fn whitespace() -> spec_fn(char) -> bool {
    |c: char| spec_is_whitespace(c)
}

/// Whether `c` is white space.
pub fn is_whitespace(c: char) -> (white: bool)
    ensures
        white == spec_is_whitespace(c),
{
    let code = c as u32;
    (0x09 <= code && code <= 0x0d) || code == 0x20 || code == 0x85 || code == 0xa0 || code
        == 0x1680 || (0x2000 <= code && code <= 0x200a) || code == 0x2028 || code == 0x2029 || code
        == 0x202f || code == 0x205f || code == 0x3000
}

/// The first position of white space in `text`.
pub fn find_whitespace(text: &[char]) -> (found: Option<usize>)
    ensures
        match found {
            Some(at) => at < text@.len() && spec_first_stop(text@, whitespace()) == at,
            None => spec_first_stop(text@, whitespace()) == text@.len(),
        },
{
    let mut i: usize = 0;
    while i < text.len()
        invariant
            i <= text@.len(),
            forall|j: int| 0 <= j < i ==> !whitespace()(#[trigger] text@[j]),
        decreases text@.len() - i,
    {
        if is_whitespace(text[i]) {
            proof {
                lemma_first_stop_unique(text@, whitespace(), i as int);
            }
            return Some(i);
        }
        i += 1;
    }
    proof {
        lemma_first_stop_unique(text@, whitespace(), text@.len() as int);
    }
    None
}

/// The texts of `strings`, in order.
pub open spec fn spec_texts(strings: Seq<String>) -> Seq<Seq<char>> {
    strings.map_values(|s: String| s@)
}

/// Splits a line at every character of white space.
///
/// The fields come out in order. There is always a first field; white space at
/// the start or the end of the line, or twice in a row, gives an empty field.
pub fn scan(line: &str) -> (fields: Vec<String>)
    ensures
        spec_texts(fields@) == spec_split(line@, whitespace()),
        fields@.len() >= 1,
{
    let chars = chars_of(line);
    let mut fields: Vec<String> = Vec::new();
    let mut start: usize = 0;
    let ghost whole = spec_split(line@, whitespace());
    proof {
        assert(line@.skip(0) =~= line@);
        assert(spec_texts(fields@) + whole =~= whole);
    }
    loop
        invariant
            chars@ == line@,
            start <= chars@.len(),
            whole == spec_split(line@, whitespace()),
            whole == spec_texts(fields@) + spec_split(line@.skip(start as int), whitespace()),
        decreases chars@.len() - start,
    {
        let rest = vstd::slice::slice_subrange(chars.as_slice(), start, chars.len());
        let (end, more) = match find_whitespace(rest) {
            Some(at) => (start + at, true),
            None => (chars.len(), false),
        };
        let field = line.substring_char(start, end).to_owned();
        let ghost next = if more {
            spec_split(line@.skip(end + 1), whitespace())
        } else {
            Seq::empty()
        };
        proof {
            let tail = line@.skip(start as int);
            assert(rest@ =~= tail);
            assert(field@ =~= tail.take(end - start));
            if more {
                assert(tail.skip(end - start + 1) =~= line@.skip(end + 1));
            } else {
                assert(field@ =~= tail);
            }
            assert(spec_split(tail, whitespace()) == seq![field@] + next);
            assert(spec_texts(fields@.push(field)) =~= spec_texts(fields@).push(field@));
            assert(whole =~= spec_texts(fields@.push(field)) + next);
        }
        fields.push(field);
        if !more {
            proof {
                assert(whole =~= spec_texts(fields@));
            }
            return fields;
        }
        start = end + 1;
    }
}

/// Whether `c` is one of the digits `0` to `9`.
pub open spec fn spec_is_digit(c: char) -> bool {
    0x30 <= c as u32 <= 0x39
}

/// Every character of `text` is a digit.
pub open spec fn all_digits(text: Seq<char>) -> bool {
    forall|i: int| 0 <= i < text.len() ==> spec_is_digit(#[trigger] text[i])
}

/// The number that the digits of `digits` write in base ten.
pub open spec fn spec_decimal(digits: Seq<char>) -> int
    decreases digits.len(),
{
    if digits.len() == 0 {
        0
    } else {
        spec_decimal(digits.drop_last()) * 10 + (digits.last() as u32 - 0x30)
    }
}

/// The number that `word` writes: an optional sign `+` or `-`, then at least
/// one digit and nothing else, with a value that a signed 32-bit integer can
/// hold.
pub open spec fn spec_parse_i32(word: Seq<char>) -> Option<i32> {
    let signed = word.len() > 0 && (word[0] == '-' || word[0] == '+');
    let digits = if signed {
        word.skip(1)
    } else {
        word
    };
    let value = if signed && word[0] == '-' {
        -spec_decimal(digits)
    } else {
        spec_decimal(digits)
    };
    if digits.len() > 0 && all_digits(digits) && i32::MIN <= value <= i32::MAX {
        Some(value as i32)
    } else {
        None
    }
}

/// The value of a run of digits is not below the value of its start.
proof fn lemma_decimal_grows(digits: Seq<char>, k: int)
    requires
        all_digits(digits),
        0 <= k <= digits.len(),
    ensures
        0 <= spec_decimal(digits.take(k)) <= spec_decimal(digits),
    decreases digits.len() - k,
{
    if k == digits.len() {
        assert(digits.take(k) =~= digits);
        lemma_decimal_nonnegative(digits);
    } else {
        lemma_decimal_grows(digits, k + 1);
        assert(digits.take(k + 1).drop_last() =~= digits.take(k));
        assert(spec_is_digit(digits[k]));
        lemma_decimal_nonnegative(digits.take(k));
    }
}

/// A run of digits writes no negative number.
proof fn lemma_decimal_nonnegative(digits: Seq<char>)
    requires
        all_digits(digits),
    ensures
        0 <= spec_decimal(digits),
    decreases digits.len(),
{
    if digits.len() > 0 {
        assert(spec_is_digit(digits.last()));
        assert forall|i: int| 0 <= i < digits.drop_last().len() implies spec_is_digit(
            #[trigger] digits.drop_last()[i],
        ) by {
            assert(spec_is_digit(digits[i]));
        }
        lemma_decimal_nonnegative(digits.drop_last());
    }
}

/// Reads a signed 32-bit integer in base ten.
pub fn parse_i32(word: &str) -> (parsed: Option<i32>)
    ensures
        parsed == spec_parse_i32(word@),
{
    let chars = chars_of(word);
    let n = chars.len();
    if n == 0 {
        return None;
    }
    let negative = chars[0] == '-';
    let signed = negative || chars[0] == '+';
    let first: usize = if signed {
        1
    } else {
        0
    };
    let ghost digits = if signed {
        word@.skip(1)
    } else {
        word@
    };
    if first == n {
        return None;
    }
    let mut value: i64 = 0;
    let mut i: usize = first;
    while i < n
        invariant
            n == chars@.len(),
            chars@ == word@,
            first <= i <= n,
            signed == (word@[0] == '-' || word@[0] == '+'),
            negative == (word@[0] == '-'),
            first == if signed { 1usize } else { 0usize },
            digits == if signed { word@.skip(1) } else { word@ },
            digits.len() == n - first,
            forall|j: int| 0 <= j < digits.len() ==> digits[j] == word@[j + first],
            all_digits(digits.take(i - first)),
            value == spec_decimal(digits.take(i - first)),
            0 <= value <= 0x8000_0000,
        decreases n - i,
    {
        let code = chars[i] as u32;
        if code < 0x30 || code > 0x39 {
            assert(!spec_is_digit(digits[i - first]));
            return None;
        }
        proof {
            assert(digits.take(i - first + 1).drop_last() =~= digits.take(i - first));
            assert(digits.take(i - first + 1).last() == chars@[i as int]);
        }
        value = value * 10 + (code - 0x30) as i64;
        i += 1;
        if value > 0x8000_0000 {
            proof {
                if all_digits(digits) {
                    lemma_decimal_grows(digits, i - first);
                }
            }
            return None;
        }
    }
    proof {
        assert(digits.take(n - first) =~= digits);
    }
    if negative {
        let value = -value;
        if value < i32::MIN as i64 {
            None
        } else {
            Some(value as i32)
        }
    } else if value > i32::MAX as i64 {
        None
    } else {
        Some(value as i32)
    }
}

/// The digits of `n` in base ten, the most significant first, as ASCII.
pub open spec fn spec_digits(n: nat) -> Seq<u8>
    decreases n,
{
    if n < 10 {
        seq![(0x30 + n) as u8]
    } else {
        spec_digits(n / 10).push((0x30 + n % 10) as u8)
    }
}

/// `value` in base ten, as ASCII: a `-` for a negative number, then the digits
/// of its magnitude without leading zeros.
pub open spec fn spec_decimal_text(value: int) -> Seq<u8> {
    if value < 0 {
        seq![0x2du8] + spec_digits((-value) as nat)
    } else {
        spec_digits(value as nat)
    }
}

/// Writes `value` in base ten.
pub fn decimal_text(value: i64) -> (text: Vec<u8>)
    ensures
        text@ == spec_decimal_text(value as int),
{
    let mut rest: u64 = if value < 0 {
        if value == i64::MIN {
            0x8000_0000_0000_0000
        } else {
            (-value) as u64
        }
    } else {
        value as u64
    };
    let ghost magnitude = rest as nat;
    let mut text: Vec<u8> = Vec::new();
    while rest >= 10
        invariant
            spec_digits(magnitude) == spec_digits(rest as nat) + text@,
        decreases rest,
    {
        let digit = (rest % 10) as u8;
        proof {
            assert(spec_digits(rest as nat) == spec_digits((rest / 10) as nat).push((0x30 + digit) as u8));
            assert(spec_digits((rest / 10) as nat).push((0x30 + digit) as u8) + text@
                =~= spec_digits((rest / 10) as nat) + (seq![(0x30 + digit) as u8] + text@));
        }
        let ghost before = text@;
        text.insert(0, 0x30 + digit);
        assert(text@ =~= seq![(0x30 + digit) as u8] + before);
        rest = rest / 10;
    }
    let ghost before = text@;
    text.insert(0, 0x30 + rest as u8);
    assert(text@ =~= spec_digits(rest as nat) + before);
    if value < 0 {
        let ghost digits = text@;
        text.insert(0, 0x2d);
        assert(text@ =~= seq![0x2du8] + digits);
    }
    text
}

/// The characters that the ASCII bytes `bytes` stand for.
pub open spec fn spec_ascii(bytes: Seq<u8>) -> Seq<char> {
    bytes.map_values(|byte: u8| byte as char)
}

/// The digits that are written for a number are digits, at least one, and
/// they write that number.
proof fn lemma_digits_read_back(n: nat)
    ensures
        spec_digits(n).len() > 0,
        all_digits(spec_ascii(spec_digits(n))),
        spec_decimal(spec_ascii(spec_digits(n))) == n,
    decreases n,
{
    let text = spec_ascii(spec_digits(n));
    if n < 10 {
        assert(text.drop_last() =~= Seq::<char>::empty());
        assert(text.last() as u32 == 0x30 + n);
        assert(spec_decimal(text.drop_last()) == 0);
    } else {
        lemma_digits_read_back(n / 10);
        let head = spec_ascii(spec_digits(n / 10));
        assert(text.drop_last() =~= head);
        assert(text.last() as u32 == 0x30 + n % 10);
        assert(spec_decimal(text) == spec_decimal(head) * 10 + n % 10);
        assert forall|i: int| 0 <= i < text.len() implies spec_is_digit(#[trigger] text[i]) by {
            if i < head.len() {
                assert(text[i] == head[i]);
            }
        }
    }
}

/// A number that was written in base ten reads back as itself: a descriptor
/// that was printed with an event can be named in a command.
pub proof fn lemma_decimal_text_reads_back(value: i32)
    ensures
        spec_parse_i32(spec_ascii(spec_decimal_text(value as int))) == Some(value),
{
    let word = spec_ascii(spec_decimal_text(value as int));
    if value < 0 {
        let magnitude = (-value) as nat;
        lemma_digits_read_back(magnitude);
        assert(word[0] == '-');
        assert(word.skip(1) =~= spec_ascii(spec_digits(magnitude)));
    } else {
        lemma_digits_read_back(value as nat);
        assert(spec_is_digit(word[0]));
    }
}

/// A number that was written in base ten holds no white space.
pub proof fn lemma_decimal_text_is_one_word(value: int)
    ensures
        forall|i: int|
            0 <= i < spec_decimal_text(value).len() ==> !spec_is_whitespace(
                #[trigger] spec_ascii(spec_decimal_text(value))[i],
            ),
{
    let word = spec_ascii(spec_decimal_text(value));
    let magnitude = if value < 0 {
        (-value) as nat
    } else {
        value as nat
    };
    let digits = spec_ascii(spec_digits(magnitude));
    lemma_digits_read_back(magnitude);
    assert forall|i: int| 0 <= i < word.len() implies !spec_is_whitespace(#[trigger] word[i]) by {
        if value < 0 {
            if i > 0 {
                assert(word[i] == digits[i - 1]);
                assert(spec_is_digit(digits[i - 1]));
            }
        } else {
            assert(spec_is_digit(digits[i]));
        }
    }
}

/// Appends `bytes` to `out`.
pub fn push_all(out: &mut Vec<u8>, bytes: &[u8])
    ensures
        final(out)@ == old(out)@ + bytes@,
{
    let mut i: usize = 0;
    while i < bytes.len()
        invariant
            i <= bytes@.len(),
            out@ == old(out)@ + bytes@.take(i as int),
        decreases bytes@.len() - i,
    {
        out.push(bytes[i]);
        assert(bytes@.take(i + 1) =~= bytes@.take(i as int).push(bytes@[i as int]));
        i += 1;
    }
    assert(bytes@.take(bytes@.len() as int) =~= bytes@);
}

} // verus!
