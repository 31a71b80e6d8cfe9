//! Text: comparison, search, trimming, splitting, and decimal numbers.

use vstd::prelude::*;

verus! {

/// `String::push` appends one character.
pub assume_specification[ String::push ](s: &mut String, c: char)
    ensures
        final(s)@ == old(s)@.push(c),
;

/// A text in double quotes, with quotes, backslashes and unprintable
/// characters escaped.
pub uninterp spec fn quoted(s: Seq<char>) -> Seq<char>;

/// The `Debug` form of a `str`. It is a function of the text; which characters
/// are escaped, and how, is not stated.
#[verifier::external_body]
pub(crate) fn quote(s: &str) -> (r: String)
    ensures
        r@ == quoted(s@),
{
    format!("{s:?}")
}

/// Whether two texts are equal.
pub fn same(a: &str, b: &str) -> (r: bool)
    ensures
        r == (a@ == b@),
{
    a.to_owned() == b.to_owned()
}

/// The characters of a text.
pub fn chars_of(s: &str) -> (r: Vec<char>)
    ensures
        r@ == s@,
{
    let mut out: Vec<char> = Vec::new();
    for c in it: s.chars()
        invariant
            it.seq() == s@,
            out@ == it.seq().take(it.index() as int),
    {
        out.push(c);
    }
    assert(out@ =~= s@);
    out
}

/// The text of the characters from `from` up to `to`.
pub fn text_of(chars: &Vec<char>, from: usize, to: usize) -> (r: String)
    requires
        from <= to <= chars.len(),
    ensures
        r@ == chars@.subrange(from as int, to as int),
{
    let mut out = String::new();
    let mut i = from;
    while i < to
        invariant
            from <= i <= to <= chars.len(),
            out@ == chars@.subrange(from as int, i as int),
        decreases to - i,
    {
        out.push(chars[i]);
        i = i + 1;
        assert(out@ =~= chars@.subrange(from as int, i as int));
    }
    out
}

/// A copy of an optional text.
pub fn copy_option(s: &Option<String>) -> (r: Option<String>)
    ensures
        r == *s,
{
    match s {
        Some(t) => Some(t.clone()),
        None => None,
    }
}

/// A copy of a list of texts.
pub fn copy_list(list: &Vec<String>) -> (r: Vec<String>)
    ensures
        r@ == list@,
{
    let r = list.clone();
    assert(r@ =~= list@);
    r
}

/// The text of an optional string.
pub open spec fn text_option(s: Option<String>) -> Option<Seq<char>> {
    match s {
        Some(t) => Some(t@),
        None => None,
    }
}

/// The text of an optional slice.
pub open spec fn name_option(s: Option<&str>) -> Option<Seq<char>> {
    match s {
        Some(t) => Some(t@),
        None => None,
    }
}

/// The texts of a list.
pub open spec fn texts(list: Seq<String>) -> Seq<Seq<char>> {
    list.map_values(|s: String| s@)
}

/// Whether `wanted` is one of the texts of a list.
pub fn list_contains(list: &Vec<String>, wanted: &str) -> (r: bool)
    ensures
        r == texts(list@).contains(wanted@),
{
    let wanted_text = wanted.to_owned();
    let mut i: usize = 0;
    while i < list.len()
        invariant
            i <= list.len(),
            wanted_text@ == wanted@,
            forall|j: int| 0 <= j < i ==> texts(list@)[j] != wanted@,
        decreases list.len() - i,
    {
        if list[i] == wanted_text {
            assert(texts(list@)[i as int] == wanted@);
            return true;
        }
        i = i + 1;
    }
    false
}

/// The decimal digit of a number below ten.
pub open spec fn digit(d: nat) -> char {
    ((48 + d) as u8) as char
}

/// The decimal digits of a number, without leading zeros.
pub open spec fn decimal(n: nat) -> Seq<char>
    decreases n,
{
    if n < 10 {
        seq![digit(n)]
    } else {
        decimal(n / 10).push(digit(n % 10))
    }
}

/// The decimal digits of an integer, with a minus sign if it is negative.
pub open spec fn signed_decimal(n: int) -> Seq<char> {
    if n < 0 {
        seq!['-'] + decimal((-n) as nat)
    } else {
        decimal(n as nat)
    }
}

/// Appends the decimal digits of `n`.
pub fn push_decimal(out: &mut String, n: u128)
    ensures
        final(out)@ == old(out)@ + decimal(n as nat),
    decreases n,
{
    let ghost before = out@;
    if n >= 10 {
        push_decimal(out, n / 10);
    }
    let d: u8 = (n % 10) as u8;
    out.push((48u8 + d) as char);
    assert(out@ =~= before + decimal(n as nat));
}

/// The decimal digits of `n`.
pub fn decimal_text(n: u128) -> (r: String)
    ensures
        r@ == decimal(n as nat),
{
    let mut out = String::new();
    push_decimal(&mut out, n);
    assert(out@ =~= decimal(n as nat));
    out
}

/// The decimal digits of `n`, with a minus sign if it is negative.
pub fn signed_decimal_text(n: i128) -> (r: String)
    ensures
        r@ == signed_decimal(n as int),
{
    let mut out = String::new();
    if n < 0 {
        out.push('-');
        let rest: i128 = -(n + 1);
        push_decimal(&mut out, rest as u128 + 1);
    } else {
        push_decimal(&mut out, n as u128);
    }
    assert(out@ =~= signed_decimal(n as int));
    out
}

/// Whether a character is a decimal digit.
pub open spec fn is_digit(c: char) -> bool {
    '0' <= c && c <= '9'
}

/// The number that a run of digits denotes.
pub open spec fn number(s: Seq<char>) -> nat
    decreases s.len(),
{
    if s.len() == 0 {
        0
    } else {
        number(s.drop_last()) * 10 + (s.last() as nat - '0' as nat) as nat
    }
}

/// Whether a character has the Unicode property White_Space.
pub open spec fn is_space(c: char) -> bool {
    let u = c as u32;
    ||| 0x9 <= u <= 0xD
    ||| u == 0x20
    ||| u == 0x85
    ||| u == 0xA0
    ||| u == 0x1680
    ||| 0x2000 <= u <= 0x200A
    ||| u == 0x2028
    ||| u == 0x2029
    ||| u == 0x202F
    ||| u == 0x205F
    ||| u == 0x3000
}

/// Whether a character has the Unicode property White_Space.
pub fn space(c: char) -> (r: bool)
    ensures
        r == is_space(c),
{
    let u: u32 = c as u32;
    (0x9 <= u && u <= 0xD) || u == 0x20 || u == 0x85 || u == 0xA0 || u == 0x1680 || (0x2000 <= u
        && u <= 0x200A) || u == 0x2028 || u == 0x2029 || u == 0x202F || u == 0x205F || u == 0x3000
}

/// A text without its leading white space.
pub open spec fn trim_start(s: Seq<char>) -> Seq<char>
    decreases s.len(),
{
    if s.len() > 0 && is_space(s.first()) {
        trim_start(s.drop_first())
    } else {
        s
    }
}

/// A text without its trailing white space.
pub open spec fn trim_end(s: Seq<char>) -> Seq<char>
    decreases s.len(),
{
    if s.len() > 0 && is_space(s.last()) {
        trim_end(s.drop_last())
    } else {
        s
    }
}

/// A text without the white space at its two ends.
pub open spec fn trimmed(s: Seq<char>) -> Seq<char> {
    trim_end(trim_start(s))
}

/// A text without the white space at its two ends.
pub fn trim(s: &str) -> (r: String)
    ensures
        r@ == trimmed(s@),
{
    let chars = chars_of(s);
    let n = chars.len();
    let mut from: usize = 0;
    assert(chars@.subrange(0, n as int) =~= chars@);
    while from < n && space(chars[from])
        invariant
            from <= n,
            n == chars.len(),
            trim_start(chars@) == trim_start(chars@.subrange(from as int, n as int)),
        decreases n - from,
    {
        assert(chars@.subrange(from as int, n as int).drop_first() =~= chars@.subrange(from + 1, n as int));
        from = from + 1;
    }
    let ghost front = chars@.subrange(from as int, n as int);
    assert(trim_start(chars@) == front);
    let mut to = n;
    while from < to && space(chars[to - 1])
        invariant
            from <= to <= n,
            n == chars.len(),
            trim_end(front) == trim_end(chars@.subrange(from as int, to as int)),
        decreases to - from,
    {
        assert(chars@.subrange(from as int, to as int).drop_last() =~= chars@.subrange(from as int, to - 1));
        to = to - 1;
    }
    text_of(&chars, from, to)
}

/// Whether a text holds nothing but white space.
pub fn is_blank(s: &str) -> (r: bool)
    ensures
        r == (trimmed(s@).len() == 0),
{
    let t = trim(s);
    t.as_str().is_empty()
}

/// The pieces of a text between the occurrences of a separator.
pub open spec fn split(s: Seq<char>, sep: char) -> Seq<Seq<char>>
    decreases s.len(),
{
    if s.len() == 0 {
        seq![s]
    } else if s.last() == sep {
        split(s.drop_last(), sep).push(seq![])
    } else {
        let head = split(s.drop_last(), sep);
        head.drop_last().push(head.last().push(s.last()))
    }
}

/// There is at least one piece.
pub proof fn lemma_split_nonempty(s: Seq<char>, sep: char)
    ensures
        split(s, sep).len() >= 1,
    decreases s.len(),
{
    if s.len() > 0 {
        lemma_split_nonempty(s.drop_last(), sep);
    }
}

/// The pieces of a text between the occurrences of a separator.
pub fn split_text(s: &str, sep: char) -> (r: Vec<String>)
    ensures
        texts(r@) == split(s@, sep),
{
    let chars = chars_of(s);
    let mut out: Vec<String> = Vec::new();
    let mut piece = String::new();
    let mut i: usize = 0;
    proof {
        assert(chars@.take(0) =~= piece@);
        assert(texts(out@).push(piece@) =~= split(chars@.take(0), sep));
    }
    while i < chars.len()
        invariant
            i <= chars.len(),
            texts(out@).push(piece@) == split(chars@.take(i as int), sep),
        decreases chars.len() - i,
    {
        let c = chars[i];
        proof {
            assert(chars@.take(i + 1).drop_last() =~= chars@.take(i as int));
            assert(chars@.take(i + 1).last() == c);
        }
        let ghost before = texts(out@);
        let ghost head = split(chars@.take(i as int), sep);
        assert(head.drop_last() =~= before);
        if c == sep {
            out.push(piece);
            piece = String::new();
            proof {
                assert(texts(out@) =~= head);
                assert(texts(out@).push(piece@) =~= split(chars@.take(i + 1), sep));
            }
        } else {
            piece.push(c);
        }
        i = i + 1;
    }
    assert(chars@.take(chars@.len() as int) =~= chars@);
    let ghost whole = texts(out@).push(piece@);
    out.push(piece);
    assert(texts(out@) =~= whole);
    out
}

/// The order of texts, character by character.
pub open spec fn in_order(a: Seq<char>, b: Seq<char>) -> bool
    decreases a.len(),
{
    if a.len() == 0 {
        true
    } else if b.len() == 0 {
        false
    } else if a[0] != b[0] {
        a[0] < b[0]
    } else {
        in_order(a.drop_first(), b.drop_first())
    }
}

/// Two texts are always in order one way or the other.
pub proof fn order_is_total(a: Seq<char>, b: Seq<char>)
    ensures
        in_order(a, b) || in_order(b, a),
    decreases a.len(),
{
    if a.len() > 0 && b.len() > 0 && a[0] == b[0] {
        order_is_total(a.drop_first(), b.drop_first());
    }
}

/// The order is transitive.
pub proof fn order_is_transitive(a: Seq<char>, b: Seq<char>, c: Seq<char>)
    requires
        in_order(a, b),
        in_order(b, c),
    ensures
        in_order(a, c),
    decreases a.len(),
{
    if a.len() > 0 && b.len() > 0 && c.len() > 0 && a[0] == b[0] && b[0] == c[0] {
        order_is_transitive(a.drop_first(), b.drop_first(), c.drop_first());
    }
}

/// Texts that are in order both ways are equal.
pub proof fn order_is_antisymmetric(a: Seq<char>, b: Seq<char>)
    requires
        in_order(a, b),
        in_order(b, a),
    ensures
        a == b,
    decreases a.len(),
{
    if a.len() > 0 && b.len() > 0 {
        if a[0] == b[0] {
            order_is_antisymmetric(a.drop_first(), b.drop_first());
            assert(a =~= seq![a[0]] + a.drop_first());
            assert(b =~= seq![b[0]] + b.drop_first());
        }
    } else {
        assert(a =~= b);
    }
}

/// Whether `a` comes before `b` or equals it.
pub fn comes_first(a: &str, b: &str) -> (r: bool)
    ensures
        r == in_order(a@, b@),
{
    let left = chars_of(a);
    let right = chars_of(b);
    let mut i: usize = 0;
    assert(left@.skip(0) =~= left@);
    assert(right@.skip(0) =~= right@);
    while i < left.len() && i < right.len() && left[i] == right[i]
        invariant
            i <= left.len(),
            i <= right.len(),
            in_order(a@, b@) == in_order(left@.skip(i as int), right@.skip(i as int)),
        decreases left.len() - i,
    {
        proof {
            assert(left@.skip(i as int).drop_first() =~= left@.skip(i + 1));
            assert(right@.skip(i as int).drop_first() =~= right@.skip(i + 1));
        }
        i = i + 1;
    }
    if i == left.len() {
        true
    } else if i == right.len() {
        false
    } else {
        left[i] < right[i]
    }
}

/// Every text is in order with those after it.
pub open spec fn is_sorted(list: Seq<Seq<char>>) -> bool {
    forall|i: int, j: int| 0 <= i < j < list.len() ==> in_order(#[trigger] list[i], #[trigger] list[j])
}

/// The texts of a list in order.
pub fn sort_texts(list: &Vec<String>) -> (r: Vec<String>)
    ensures
        is_sorted(texts(r@)),
        texts(r@).to_multiset() == texts(list@).to_multiset(),
        r.len() == list.len(),
{
    let mut out: Vec<String> = Vec::new();
    let mut n: usize = 0;
    assert(texts(out@) =~= texts(list@).take(0));
    while n < list.len()
        invariant
            n <= list.len(),
            out.len() == n,
            is_sorted(texts(out@)),
            texts(out@).to_multiset() == texts(list@).take(n as int).to_multiset(),
        decreases list.len() - n,
    {
        let x = list[n].clone();
        let mut at: usize = 0;
        while at < out.len() && comes_first(out[at].as_str(), x.as_str())
            invariant
                at <= out.len(),
                is_sorted(texts(out@)),
                forall|i: int| 0 <= i < at ==> in_order(#[trigger] texts(out@)[i], x@),
            decreases out.len() - at,
        {
            assert(texts(out@)[at as int] == out[at as int]@);
            at = at + 1;
        }
        let ghost before = texts(out@);
        proof {
            assert forall|i: int| at <= i < before.len() implies in_order(x@, #[trigger] before[i]) by {
                assert(before[at as int] == out[at as int]@);
                order_is_total(x@, before[at as int]);
                if i > at {
                    order_is_transitive(x@, before[at as int], before[i]);
                }
            }
        }
        out.insert(at, x);
        proof {
            let after = texts(out@);
            assert(after =~= before.insert(at as int, x@));
            assert(is_sorted(after)) by {
                assert forall|i: int, j: int| 0 <= i < j < after.len() implies in_order(
                    #[trigger] after[i],
                    #[trigger] after[j],
                ) by {
                    let i2 = if i < at { i } else { i - 1 };
                    let j2 = if j < at { j } else { j - 1 };
                    if i != at && j != at {
                        assert(after[i] == before[i2] && after[j] == before[j2]);
                    } else if i == at {
                        assert(after[j] == before[j2]);
                    } else {
                        assert(after[i] == before[i2]);
                    }
                }
            }
            assert(after.remove(at as int) =~= before);
            after.to_multiset_ensures();
            assert(after.contains(x@)) by {
                assert(after[at as int] == x@);
            }
            assert(after.to_multiset() =~= before.to_multiset().insert(x@));
            let whole = texts(list@);
            assert(whole.take(n + 1) =~= whole.take(n as int).push(x@));
            whole.take(n as int).to_multiset_ensures();
        }
        n = n + 1;
    }
    assert(texts(list@).take(n as int) =~= texts(list@));
    out
}

/// The texts of a list with a separator between each two.
pub open spec fn join(list: Seq<Seq<char>>, sep: Seq<char>) -> Seq<char>
    decreases list.len(),
{
    if list.len() == 0 {
        Seq::empty()
    } else if list.len() == 1 {
        list[0]
    } else {
        join(list.drop_last(), sep) + sep + list.last()
    }
}

/// The texts of a list with a separator between each two.
pub fn join_texts(list: &Vec<String>, sep: &str) -> (r: String)
    ensures
        r@ == join(texts(list@), sep@),
{
    let mut out = String::new();
    let mut i: usize = 0;
    let ghost whole = texts(list@);
    assert(whole.take(0) =~= Seq::empty());
    while i < list.len()
        invariant
            i <= list.len(),
            whole == texts(list@),
            out@ == join(whole.take(i as int), sep@),
        decreases list.len() - i,
    {
        proof {
            assert(whole.take(i + 1).drop_last() =~= whole.take(i as int));
            assert(whole.take(i + 1).last() == list[i as int]@);
        }
        if i > 0 {
            out.append(sep);
        }
        out.append(list[i].as_str());
        assert(out@ =~= join(whole.take(i + 1), sep@));
        i = i + 1;
    }
    assert(whole.take(i as int) =~= whole);
    out
}

/// The digits of a number that may carry a plus sign.
pub open spec fn unsigned_digits(s: Seq<char>) -> Seq<char> {
    if s.len() > 0 && s[0] == '+' {
        s.drop_first()
    } else {
        s
    }
}

/// The number up to `max` that a text denotes: one or more digits, after an
/// optional plus sign.
pub open spec fn parse_unsigned(s: Seq<char>, max: nat) -> Option<nat> {
    let digits = unsigned_digits(s);
    if digits.len() > 0 && (forall|i: int| 0 <= i < digits.len() ==> is_digit(#[trigger] digits[i]))
        && number(digits) <= max {
        Some(number(digits))
    } else {
        None
    }
}

/// More digits make no smaller number.
proof fn lemma_number_grows(s: Seq<char>, n: int)
    requires
        0 <= n <= s.len(),
        forall|i: int| 0 <= i < s.len() ==> is_digit(#[trigger] s[i]),
    ensures
        number(s.take(n)) <= number(s),
    decreases s.len(),
{
    if n == s.len() {
        assert(s.take(n) =~= s);
    } else {
        let rest = s.drop_last();
        assert forall|i: int| 0 <= i < rest.len() implies is_digit(#[trigger] rest[i]) by {
            assert(rest[i] == s[i]);
        }
        lemma_number_grows(rest, n);
        assert(rest.take(n) =~= s.take(n));
        assert(is_digit(s[s.len() - 1]));
    }
}

/// The number that a text denotes, if it is one and fits a `u64`.
pub fn parse_u64(s: &str) -> (r: Option<u64>)
    ensures
        match r {
            Some(n) => parse_unsigned(s@, u64::MAX as nat) == Some(n as nat),
            None => parse_unsigned(s@, u64::MAX as nat) is None,
        },
{
    let chars = chars_of(s);
    let from: usize = if chars.len() > 0 && chars[0] == '+' { 1 } else { 0 };
    let ghost digits = unsigned_digits(s@);
    assert(chars@.skip(from as int) =~= digits);
    if from == chars.len() {
        return None;
    }
    let mut value: u64 = 0;
    let mut i = from;
    assert(digits.take(0) =~= Seq::empty());
    while i < chars.len()
        invariant
            from <= i <= chars.len(),
            digits == unsigned_digits(s@),
            digits == chars@.skip(from as int),
            digits.len() == chars.len() - from,
            forall|j: int| 0 <= j < i - from ==> is_digit(#[trigger] digits[j]),
            value == number(digits.take(i - from)),
        decreases chars.len() - i,
    {
        let c = chars[i];
        assert(c == digits[i - from]);
        if !('0' <= c && c <= '9') {
            assert(!is_digit(digits[i - from]));
            return None;
        }
        let d: u64 = (c as u32 - '0' as u32) as u64;
        proof {
            assert(digits.take(i - from + 1).drop_last() =~= digits.take(i - from));
            assert(digits.take(i - from + 1).last() == c);
            if parse_unsigned(s@, u64::MAX as nat) is Some {
                lemma_number_grows(digits, i - from + 1);
            }
        }
        match value.checked_mul(10) {
            None => {
                return None;
            },
            Some(tens) => match tens.checked_add(d) {
                None => {
                    return None;
                },
                Some(sum) => {
                    value = sum;
                },
            },
        }
        i = i + 1;
    }
    assert(digits.take(i - from) =~= digits);
    Some(value)
}

/// The number that a text denotes, if it is one and fits a `u32`.
pub fn parse_u32(s: &str) -> (r: Option<u32>)
    ensures
        match r {
            Some(n) => parse_unsigned(s@, u32::MAX as nat) == Some(n as nat),
            None => parse_unsigned(s@, u32::MAX as nat) is None,
        },
{
    match parse_u64(s) {
        Some(n) => {
            if n <= u32::MAX as u64 {
                Some(n as u32)
            } else {
                None
            }
        },
        None => None,
    }
}

/// The pattern stands in the text at a place.
pub open spec fn occurs_at(pattern: Seq<char>, s: Seq<char>, i: int) -> bool {
    0 <= i <= s.len() - pattern.len() && s.subrange(i, i + pattern.len()) == pattern
}

/// The pattern stands somewhere in the text.
pub open spec fn occurs(pattern: Seq<char>, s: Seq<char>) -> bool {
    exists|i: int| #[trigger] occurs_at(pattern, s, i)
}

/// Whether the pattern stands in the text at a place.
fn matches_at(pattern: &Vec<char>, s: &Vec<char>, at: usize) -> (r: bool)
    requires
        at + pattern.len() <= s.len(),
    ensures
        r == occurs_at(pattern@, s@, at as int),
{
    let mut i: usize = 0;
    while i < pattern.len()
        invariant
            i <= pattern.len(),
            at + pattern.len() <= s.len(),
            forall|j: int| 0 <= j < i ==> s@[at + j] == pattern@[j],
        decreases pattern.len() - i,
    {
        if s[at + i] != pattern[i] {
            proof {
                let part = s@.subrange(at as int, at + pattern@.len());
                assert(part[i as int] == s@[at + i]);
            }
            return false;
        }
        i = i + 1;
    }
    assert(s@.subrange(at as int, at + pattern@.len()) =~= pattern@);
    true
}

/// Whether the pattern stands somewhere in the text.
pub fn contains_text(s: &str, pattern: &str) -> (r: bool)
    ensures
        r == occurs(pattern@, s@),
{
    let chars = chars_of(s);
    let wanted = chars_of(pattern);
    if wanted.len() > chars.len() {
        return false;
    }
    let last: usize = chars.len() - wanted.len();
    let mut i: usize = 0;
    while i <= last
        invariant
            i <= last + 1,
            last == chars.len() - wanted.len(),
            wanted.len() <= chars.len(),
            chars@ == s@,
            wanted@ == pattern@,
            forall|j: int| 0 <= j < i ==> !occurs_at(pattern@, s@, j),
        decreases last + 1 - i,
    {
        if matches_at(&wanted, &chars, i) {
            return true;
        }
        if i == last {
            return false;
        }
        i = i + 1;
    }
    false
}

/// The lower-case form of an ASCII letter; other characters stay.
pub open spec fn ascii_lower(c: char) -> char {
    if 'A' <= c && c <= 'Z' {
        ((c as u8 + 32) as u8) as char
    } else {
        c
    }
}

/// Whether two texts are equal but for the case of ASCII letters.
pub open spec fn same_ignoring_case(a: Seq<char>, b: Seq<char>) -> bool {
    a.map_values(|c: char| ascii_lower(c)) == b.map_values(|c: char| ascii_lower(c))
}

/// The lower-case form of an ASCII letter; other characters stay.
pub fn to_ascii_lower(c: char) -> (r: char)
    ensures
        r == ascii_lower(c),
{
    if 'A' <= c && c <= 'Z' {
        let byte: u8 = c as u8;
        (byte + 32) as char
    } else {
        c
    }
}

/// Whether two texts are equal but for the case of ASCII letters.
pub fn equals_ignoring_case(a: &str, b: &str) -> (r: bool)
    ensures
        r == same_ignoring_case(a@, b@),
{
    let left = chars_of(a);
    let right = chars_of(b);
    let ghost x = a@.map_values(|c: char| ascii_lower(c));
    let ghost y = b@.map_values(|c: char| ascii_lower(c));
    if left.len() != right.len() {
        assert(x.len() != y.len());
        return false;
    }
    let mut i: usize = 0;
    while i < left.len()
        invariant
            i <= left.len(),
            left@ == a@,
            right@ == b@,
            left.len() == right.len(),
            x == a@.map_values(|c: char| ascii_lower(c)),
            y == b@.map_values(|c: char| ascii_lower(c)),
            forall|j: int| 0 <= j < i ==> x[j] == y[j],
        decreases left.len() - i,
    {
        if to_ascii_lower(left[i]) != to_ascii_lower(right[i]) {
            assert(x[i as int] != y[i as int]);
            return false;
        }
        i = i + 1;
    }
    assert(x =~= y);
    true
}

/// A text without a run of a character at its end.
pub open spec fn without_trailing(s: Seq<char>, c: char) -> Seq<char>
    decreases s.len(),
{
    if s.len() > 0 && s.last() == c {
        without_trailing(s.drop_last(), c)
    } else {
        s
    }
}

/// A text without a run of a character at its end.
pub fn strip_trailing(s: &str, c: char) -> (r: String)
    ensures
        r@ == without_trailing(s@, c),
{
    let chars = chars_of(s);
    let mut to = chars.len();
    assert(chars@.subrange(0, to as int) =~= chars@);
    while to > 0 && chars[to - 1] == c
        invariant
            to <= chars.len(),
            without_trailing(s@, c) == without_trailing(chars@.subrange(0, to as int), c),
        decreases to,
    {
        assert(chars@.subrange(0, to as int).drop_last() =~= chars@.subrange(0, to - 1));
        to = to - 1;
    }
    text_of(&chars, 0, to)
}

/// Why a text is not a number.
#[derive(Debug, Clone, Copy, PartialEq, Eq, Structural)]
pub enum NumberError {
    Empty,
    InvalidDigit,
    TooLarge,
}

impl NumberError {
    pub open spec fn message_spec(self) -> Seq<char> {
        match self {
            NumberError::Empty => "cannot parse integer from empty string"@,
            NumberError::InvalidDigit => "invalid digit found in string"@,
            NumberError::TooLarge => "number too large to fit in target type"@,
        }
    }

    /// The error in words.
    pub fn message(&self) -> (r: String)
        ensures
            r@ == self.message_spec(),
    {
        match self {
            NumberError::Empty => "cannot parse integer from empty string".to_owned(),
            NumberError::InvalidDigit => "invalid digit found in string".to_owned(),
            NumberError::TooLarge => "number too large to fit in target type".to_owned(),
        }
    }
}

/// The number of the first `n` digits, read from the left; the first digit
/// that is none, or that makes the number exceed `max`, is the error.
pub open spec fn scan(digits: Seq<char>, n: nat, max: nat) -> Result<nat, NumberError>
    decreases n,
{
    if n == 0 {
        Ok(0)
    } else {
        match scan(digits, (n - 1) as nat, max) {
            Err(e) => Err(e),
            Ok(v) => {
                let c = digits[n - 1];
                let next = v * 10 + (c as nat - '0' as nat);
                if !is_digit(c) {
                    Err(NumberError::InvalidDigit)
                } else if next > max {
                    Err(NumberError::TooLarge)
                } else {
                    Ok(next as nat)
                }
            },
        }
    }
}

/// The number up to `max` that a text denotes, or why it denotes none.
pub open spec fn read_number(s: Seq<char>, max: nat) -> Result<nat, NumberError> {
    let digits = unsigned_digits(s);
    if s.len() == 0 {
        Err(NumberError::Empty)
    } else if digits.len() == 0 {
        Err(NumberError::InvalidDigit)
    } else {
        scan(digits, digits.len(), max)
    }
}

/// Where the first digits are wrong, all of them are.
proof fn lemma_scan_fails(digits: Seq<char>, n: nat, m: nat, max: nat)
    requires
        n <= m,
        scan(digits, n, max) is Err,
    ensures
        scan(digits, m, max) == scan(digits, n, max),
    decreases m,
{
    if n < m {
        lemma_scan_fails(digits, n, (m - 1) as nat, max);
    }
}

/// The number that a text denotes, or why it denotes none.
pub fn parse_usize(s: &str) -> (r: Result<usize, NumberError>)
    ensures
        match r {
            Ok(n) => read_number(s@, usize::MAX as nat) == Ok::<nat, NumberError>(n as nat),
            Err(e) => read_number(s@, usize::MAX as nat) == Err::<nat, NumberError>(e),
        },
{
    let chars = chars_of(s);
    if chars.is_empty() {
        return Err(NumberError::Empty);
    }
    let from: usize = if chars[0] == '+' { 1 } else { 0 };
    let ghost digits = unsigned_digits(s@);
    let ghost max = usize::MAX as nat;
    assert(chars@.skip(from as int) =~= digits);
    if from == chars.len() {
        return Err(NumberError::InvalidDigit);
    }
    let mut value: usize = 0;
    let mut i = from;
    while i < chars.len()
        invariant
            from <= i <= chars.len(),
            max == usize::MAX,
            chars.len() > 0,
            s@.len() > 0,
            digits == unsigned_digits(s@),
            digits == chars@.skip(from as int),
            digits.len() == chars.len() - from,
            digits.len() > 0,
            scan(digits, (i - from) as nat, max) == Ok::<nat, NumberError>(value as nat),
        decreases chars.len() - i,
    {
        let c = chars[i];
        assert(c == digits[i - from]);
        let ghost at = (i - from) as nat;
        if !('0' <= c && c <= '9') {
            proof {
                lemma_scan_fails(digits, at + 1, digits.len(), max);
            }
            return Err(NumberError::InvalidDigit);
        }
        let d: usize = (c as u32 - '0' as u32) as usize;
        match value.checked_mul(10) {
            None => {
                proof {
                    lemma_scan_fails(digits, at + 1, digits.len(), max);
                }
                return Err(NumberError::TooLarge);
            },
            Some(tens) => match tens.checked_add(d) {
                None => {
                    proof {
                        lemma_scan_fails(digits, at + 1, digits.len(), max);
                    }
                    return Err(NumberError::TooLarge);
                },
                Some(sum) => {
                    value = sum;
                },
            },
        }
        i = i + 1;
    }
    Ok(value)
}

/// A scan looks at the digits that it reads, and at no others.
proof fn lemma_scan_prefix(a: Seq<char>, b: Seq<char>, n: nat, max: nat)
    requires
        n <= a.len(),
        n <= b.len(),
        forall|i: int| 0 <= i < n ==> a[i] == b[i],
    ensures
        scan(a, n, max) == scan(b, n, max),
    decreases n,
{
    if n > 0 {
        lemma_scan_prefix(a, b, (n - 1) as nat, max);
    }
}

/// Decimal digits are digits.
pub proof fn lemma_decimal_digits(n: nat)
    ensures
        decimal(n).len() > 0,
        forall|i: int| 0 <= i < decimal(n).len() ==> is_digit(#[trigger] decimal(n)[i]),
    decreases n,
{
    if n >= 10 {
        lemma_decimal_digits(n / 10);
        let rest = decimal(n / 10);
        assert forall|i: int| 0 <= i < decimal(n).len() implies is_digit(#[trigger] decimal(n)[i]) by {
            if i < rest.len() {
                assert(decimal(n)[i] == rest[i]);
            }
        }
    }
}

/// A number is read back from its decimal digits.
pub proof fn reading_inverts_decimal(n: nat, max: nat)
    requires
        n <= max,
    ensures
        read_number(decimal(n), max) == Ok::<nat, NumberError>(n),
    decreases n,
{
    lemma_decimal_digits(n);
    assert(is_digit(decimal(n)[0]));
    assert(unsigned_digits(decimal(n)) == decimal(n));
    if n < 10 {
        assert(scan(decimal(n), 0, max) == Ok::<nat, NumberError>(0));
        assert(scan(decimal(n), 1, max) == Ok::<nat, NumberError>(n));
    } else {
        let head = decimal(n / 10);
        reading_inverts_decimal(n / 10, max);
        lemma_decimal_digits(n / 10);
        assert(is_digit(head[0]));
        assert(unsigned_digits(head) == head);
        lemma_scan_prefix(head, decimal(n), head.len(), max);
        assert(decimal(n).last() == digit(n % 10));
    }
}

/// Cutting after a separator: what follows, without separators, is the last
/// piece.
proof fn lemma_split_after(a: Seq<char>, b: Seq<char>, sep: char)
    requires
        !b.contains(sep),
    ensures
        split(a + seq![sep] + b, sep) == split(a, sep).push(b),
    decreases b.len(),
{
    let s = a + seq![sep] + b;
    if b.len() == 0 {
        assert(s.last() == sep);
        assert(s.drop_last() =~= a);
        assert(b =~= Seq::empty());
    } else {
        let c = b.last();
        let rest = b.drop_last();
        assert(b.contains(c)) by {
            assert(b[b.len() - 1] == c);
        }
        assert(s.last() == c && c != sep);
        assert(s.drop_last() =~= a + seq![sep] + rest);
        assert(!rest.contains(sep)) by {
            if rest.contains(sep) {
                let i = rest.index_of(sep);
                assert(b[i] == sep);
            }
        }
        lemma_split_after(a, rest, sep);
        let head = split(a, sep).push(rest);
        assert(head.drop_last() =~= split(a, sep));
        assert(head.last().push(c) =~= b);
    }
}

/// A text without separators is one piece.
pub proof fn lemma_split_whole(s: Seq<char>, sep: char)
    requires
        !s.contains(sep),
    ensures
        split(s, sep) == seq![s],
    decreases s.len(),
{
    if s.len() > 0 {
        let rest = s.drop_last();
        assert(s.contains(s.last())) by {
            assert(s[s.len() - 1] == s.last());
        }
        assert(!rest.contains(sep)) by {
            if rest.contains(sep) {
                let i = rest.index_of(sep);
                assert(s[i] == sep);
            }
        }
        lemma_split_whole(rest, sep);
        assert(rest.push(s.last()) =~= s);
        assert(split(s, sep) =~= seq![s]);
    }
}

/// Pieces without separators are read back from what joins them.
pub proof fn splitting_inverts_joining(list: Seq<Seq<char>>, sep: char)
    requires
        list.len() > 0,
        forall|i: int| 0 <= i < list.len() ==> !(#[trigger] list[i]).contains(sep),
    ensures
        split(join(list, seq![sep]), sep) == list,
    decreases list.len(),
{
    if list.len() == 1 {
        assert(!list[0].contains(sep));
        lemma_split_whole(list[0], sep);
        assert(seq![list[0]] =~= list);
    } else {
        let rest = list.drop_last();
        assert forall|i: int| 0 <= i < rest.len() implies !(#[trigger] rest[i]).contains(sep) by {
            assert(rest[i] == list[i]);
        }
        splitting_inverts_joining(rest, sep);
        assert(list[list.len() - 1] == list.last());
        lemma_split_after(join(rest, seq![sep]), list.last(), sep);
        assert(rest.push(list.last()) =~= list);
    }
}

/// A rearrangement of a list without duplicates has the same elements, once each.
pub(crate) proof fn lemma_same_elements(a: Seq<Seq<char>>, b: Seq<Seq<char>>)
    requires
        b.no_duplicates(),
        a.to_multiset() == b.to_multiset(),
    ensures
        a.no_duplicates(),
        a.to_set() == b.to_set(),
        a.len() == b.len(),
{
    a.to_multiset_ensures();
    b.to_multiset_ensures();
    b.lemma_multiset_has_no_duplicates();
    a.lemma_multiset_has_no_duplicates_conv();
    assert forall|k: Seq<char>| #[trigger] a.contains(k) <==> b.contains(k) by {
        assert(a.contains(k) <==> a.to_multiset().count(k) > 0);
        assert(b.contains(k) <==> b.to_multiset().count(k) > 0);
    }
    assert(a.to_set() =~= b.to_set());
}

/// What comes before the first separator is the first piece.
pub proof fn lemma_split_first(first: Seq<char>, rest: Seq<char>, sep: char)
    requires
        !first.contains(sep),
    ensures
        split(first + seq![sep] + rest, sep).len() >= 2,
        split(first + seq![sep] + rest, sep)[0] == first,
    decreases rest.len(),
{
    let s = first + seq![sep] + rest;
    if rest.len() == 0 {
        lemma_split_whole(first, sep);
        assert(s.last() == sep);
        assert(s.drop_last() =~= first);
    } else {
        lemma_split_first(first, rest.drop_last(), sep);
        assert(s.drop_last() =~= first + seq![sep] + rest.drop_last());
        assert(s.last() == rest.last());
    }
}

/// A text stands in every longer one that it is a part of.
pub proof fn lemma_occurs_between(before: Seq<char>, pattern: Seq<char>, after: Seq<char>)
    ensures
        occurs(pattern, before + pattern + after),
{
    let s = before + pattern + after;
    assert(s.subrange(before.len() as int, before.len() as int + pattern.len()) =~= pattern);
    assert(occurs_at(pattern, s, before.len() as int));
}

/// Trimming takes white space away at both ends and nothing else: what is left neither
/// begins nor ends with white space, and what was taken away is white space.
pub proof fn trimming_takes_white_space_only(s: Seq<char>)
    ensures
        trimmed(s).len() > 0 ==> !is_space(trimmed(s).first()) && !is_space(trimmed(s).last()),
        exists|a: int, b: int|
            {
                &&& 0 <= a <= b <= s.len()
                &&& #[trigger] s.subrange(a, b) == trimmed(s)
                &&& forall|i: int|
                    0 <= i < s.len() && (i < a || b <= i) ==> is_space(#[trigger] s[i])
            },
{
    let head = trim_start(s);
    let a = s.len() - head.len();
    lemma_trim_start(s);
    lemma_trim_end(head);
    let t = trimmed(s);
    let b = a + t.len();
    assert(s.subrange(a, b) =~= t) by {
        assert(head =~= s.skip(a));
        assert(t =~= head.take(t.len() as int));
    }
    assert forall|i: int| 0 <= i < s.len() && (i < a || b <= i) implies is_space(#[trigger] s[i]) by {
        if i >= b {
            assert(head[i - a] == s[i]);
        }
    }
    if t.len() > 0 {
        assert(t.first() == head.first());
    }
}

proof fn lemma_trim_start(s: Seq<char>)
    ensures
        trim_start(s).len() <= s.len(),
        trim_start(s) == s.skip(s.len() - trim_start(s).len()),
        forall|i: int| 0 <= i < s.len() - trim_start(s).len() ==> is_space(#[trigger] s[i]),
        trim_start(s).len() > 0 ==> !is_space(trim_start(s).first()),
    decreases s.len(),
{
    if s.len() > 0 && is_space(s.first()) {
        let rest = s.drop_first();
        lemma_trim_start(rest);
        let n = s.len() - trim_start(s).len();
        assert(trim_start(s) =~= s.skip(n));
        assert forall|i: int| 0 <= i < n implies is_space(#[trigger] s[i]) by {
            if i > 0 {
                assert(rest[i - 1] == s[i]);
            }
        }
    } else {
        assert(s.skip(0) =~= s);
    }
}

proof fn lemma_trim_end(s: Seq<char>)
    ensures
        trim_end(s).len() <= s.len(),
        trim_end(s) == s.take(trim_end(s).len() as int),
        forall|i: int| trim_end(s).len() <= i < s.len() ==> is_space(#[trigger] s[i]),
        trim_end(s).len() > 0 ==> !is_space(trim_end(s).last()),
    decreases s.len(),
{
    if s.len() > 0 && is_space(s.last()) {
        let rest = s.drop_last();
        lemma_trim_end(rest);
        assert(trim_end(s) =~= s.take(trim_end(s).len() as int));
        assert forall|i: int| trim_end(s).len() <= i < s.len() implies is_space(#[trigger] s[i]) by {
            if i < rest.len() {
                assert(rest[i] == s[i]);
            }
        }
    } else {
        assert(s.take(s.len() as int) =~= s);
    }
}

/// Blanks, tabs and line ends are white space; letters and digits are not.
pub proof fn blanks_are_white_space(c: char)
    ensures
        c == ' ' || c == '\t' || c == '\n' || c == '\r' ==> is_space(c),
        '!' <= c && c <= '~' ==> !is_space(c),
{
}

/// A negative number is written with a minus sign before the digits of its amount, and any
/// other by its digits alone; the digits are those of the number, without leading zeros.
pub proof fn numbers_are_written_in_full(n: nat)
    ensures
        n > 0 ==> signed_decimal(-(n as int)) == seq!['-'] + decimal(n),
        signed_decimal(n as int) == decimal(n),
        decimal(n).len() > 0,
        n > 0 ==> decimal(n)[0] != '0',
        number(decimal(n)) == n,
        forall|i: int| 0 <= i < decimal(n).len() ==> is_digit(#[trigger] decimal(n)[i]),
    decreases n,
{
    lemma_decimal_digits(n);
    if n >= 10 {
        numbers_are_written_in_full(n / 10);
        assert(decimal(n)[0] == decimal(n / 10)[0]);
        assert(decimal(n).drop_last() =~= decimal(n / 10));
        assert(decimal(n).last() as nat == 48 + n % 10);
    } else {
        let digits = decimal(n);
        assert(digits.drop_last() =~= Seq::<char>::empty());
        assert(number(digits.drop_last()) == 0);
        assert(digits.last() as nat == 48 + n);
    }
}

/// A pattern that stands in a text stands in every longer one, and every text holds itself
/// and the empty one.
pub proof fn patterns_stay_in_longer_texts(pattern: Seq<char>, s: Seq<char>, t: Seq<char>)
    ensures
        occurs(pattern, s) ==> occurs(pattern, t + s) && occurs(pattern, s + t),
        occurs(s, s),
        occurs(Seq::<char>::empty(), s),
        pattern.len() > s.len() ==> !occurs(pattern, s),
{
    if occurs(pattern, s) {
        let i = choose|i: int| #[trigger] occurs_at(pattern, s, i);
        assert((t + s).subrange(i + t.len(), i + t.len() + pattern.len()) =~= s.subrange(
            i,
            i + pattern.len(),
        ));
        assert(occurs_at(pattern, t + s, i + t.len()));
        assert((s + t).subrange(i, i + pattern.len()) =~= s.subrange(i, i + pattern.len()));
        assert(occurs_at(pattern, s + t, i));
    }
    assert(s.subrange(0, s.len() as int) =~= s);
    assert(occurs_at(s, s, 0));
    let none = Seq::<char>::empty();
    assert(s.subrange(0, 0) =~= none);
    assert(occurs_at(none, s, 0));
}

/// Stripping takes a run of the character away at the end and nothing else.
pub proof fn stripping_takes_the_run_only(s: Seq<char>, c: char)
    ensures
        without_trailing(s, c).len() <= s.len(),
        without_trailing(s, c) == s.take(without_trailing(s, c).len() as int),
        without_trailing(s, c).len() > 0 ==> without_trailing(s, c).last() != c,
        forall|i: int| without_trailing(s, c).len() <= i < s.len() ==> #[trigger] s[i] == c,
    decreases s.len(),
{
    if s.len() > 0 && s.last() == c {
        let rest = s.drop_last();
        stripping_takes_the_run_only(rest, c);
        let kept = without_trailing(s, c);
        assert(kept =~= s.take(kept.len() as int));
        assert forall|i: int| kept.len() <= i < s.len() implies #[trigger] s[i] == c by {
            if i < rest.len() {
                assert(rest[i] == s[i]);
            }
        }
    } else {
        assert(s.take(s.len() as int) =~= s);
    }
}

/// The case of ASCII letters does not matter where it is ignored, and anything else does.
pub proof fn case_is_ignored_for_letters_only(a: char, b: char)
    ensures
        same_ignoring_case(seq![a], seq![b]) <==> a == b || ('a' <= a && a <= 'z' && b as int
            == a as int - 32) || ('a' <= b && b <= 'z' && a as int == b as int - 32),
{
    let x = seq![a].map_values(|c: char| ascii_lower(c));
    let y = seq![b].map_values(|c: char| ascii_lower(c));
    assert(x[0] == ascii_lower(a));
    assert(y[0] == ascii_lower(b));
    if ascii_lower(a) == ascii_lower(b) {
        assert(x =~= y);
    }
}

/// Texts are ordered as in a dictionary: a text comes before its continuations, and where two
/// part, the one with the smaller character comes first.
pub proof fn texts_are_ordered_as_in_a_dictionary(
    start: Seq<char>,
    a: char,
    rest: Seq<char>,
    b: char,
    other: Seq<char>,
)
    requires
        a < b,
    ensures
        in_order(start, start + rest),
        rest.len() > 0 ==> !in_order(start + rest, start),
        in_order(start + seq![a] + rest, start + seq![b] + other),
        !in_order(start + seq![b] + other, start + seq![a] + rest),
    decreases start.len(),
{
    let x = start + seq![a] + rest;
    let y = start + seq![b] + other;
    if start.len() > 0 {
        let less = start.drop_first();
        texts_are_ordered_as_in_a_dictionary(less, a, rest, b, other);
        assert((start + rest).drop_first() =~= less + rest);
        assert(x.drop_first() =~= less + seq![a] + rest);
        assert(y.drop_first() =~= less + seq![b] + other);
        assert(x[0] == start[0] && y[0] == start[0]);
        assert((start + rest)[0] == start[0]);
    } else {
        assert(start + rest =~= rest);
        assert(x[0] == a);
        assert(y[0] == b);
    }
}

/// Each text of a list stands in the list joined.
pub proof fn joined_texts_hold_each(list: Seq<Seq<char>>, sep: Seq<char>, i: int)
    requires
        0 <= i < list.len(),
    ensures
        occurs(list[i], join(list, sep)),
    decreases list.len(),
{
    if list.len() == 1 {
        patterns_stay_in_longer_texts(list[0], list[0], list[0]);
    } else {
        let rest = list.drop_last();
        let head = join(rest, sep) + sep;
        if i < rest.len() {
            joined_texts_hold_each(rest, sep, i);
            assert(rest[i] == list[i]);
            patterns_stay_in_longer_texts(list[i], join(rest, sep), sep + list.last());
            assert(join(list, sep) =~= join(rest, sep) + (sep + list.last()));
        } else {
            patterns_stay_in_longer_texts(list[i], list[i], head);
            assert(join(list, sep) =~= head + list[i]);
        }
    }
}

} // verus!
