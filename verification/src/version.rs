//! Ordering of version strings.
//!
//! A version is read as a sequence of dot-separated parts. A part made of decimal
//! digits only is a number of any size; any other part is a word. Numbers are
//! ordered by value, words by their characters, and every number comes before
//! every word. A version that runs out of parts is continued with zeros, so that
//! `1.2` and `1.2.0` are the same version.

use vstd::prelude::*;
use vstd::slice::*;
use vstd::string::*;

use crate::text::characters;

verus! {

/// One dot-separated part of a version.
pub enum Segment {
    /// A part made of decimal digits only, by its value. The empty part is zero.
    Number(nat),
    /// Any other part, by its characters.
    Word(Seq<char>),
}

pub open spec fn is_digit(c: char) -> bool {
    '0' <= c && c <= '9'
}

pub open spec fn digit_value(c: char) -> nat {
    (c as int - '0' as int) as nat
}

pub open spec fn all_digits(text: Seq<char>) -> bool {
    forall|i: int| 0 <= i < text.len() ==> is_digit(#[trigger] text[i])
}

/// The number that a string of decimal digits writes; leading zeros are allowed.
pub open spec fn decimal_value(digits: Seq<char>) -> nat
    decreases digits.len(),
{
    if digits.len() == 0 {
        0
    } else {
        decimal_value(digits.drop_last()) * 10 + digit_value(digits.last())
    }
}

pub open spec fn segment_of(part: Seq<char>) -> Segment {
    if all_digits(part) {
        Segment::Number(decimal_value(part))
    } else {
        Segment::Word(part)
    }
}

/// `a` comes before `b` in dictionary order, characters compared by code point.
pub open spec fn word_less(a: Seq<char>, b: Seq<char>) -> bool {
    exists|i: int| word_less_at(a, b, i)
}

/// `a` and `b` agree on their first `i` characters, and there `a` ends or holds
/// the smaller character.
pub open spec fn word_less_at(a: Seq<char>, b: Seq<char>, i: int) -> bool {
    &&& 0 <= i <= a.len()
    &&& i < b.len()
    &&& a.take(i) == b.take(i)
    &&& i < a.len() ==> a[i] < b[i]
}

pub open spec fn segment_less(a: Segment, b: Segment) -> bool {
    match (a, b) {
        (Segment::Number(x), Segment::Number(y)) => x < y,
        (Segment::Number(_), Segment::Word(_)) => true,
        (Segment::Word(_), Segment::Number(_)) => false,
        (Segment::Word(x), Segment::Word(y)) => word_less(x, y),
    }
}

/// The first position at or after `from` at which `text` holds `mark`; the length
/// of `text` where it holds none.
pub open spec fn position_of(text: Seq<char>, mark: char, from: int) -> int
    decreases text.len() - from,
{
    if from < 0 || from >= text.len() {
        text.len() as int
    } else if text[from] == mark {
        from
    } else {
        position_of(text, mark, from + 1)
    }
}

/// The parts of `text` from position `from` on. There is always at least one:
/// the empty text has one empty part.
pub open spec fn segments_from(text: Seq<char>, from: int) -> Seq<Segment>
    decreases text.len() - from,
{
    let end = position_of(text, '.', from);
    let first = seq![segment_of(text.subrange(from, end))];
    if from <= end < text.len() {
        first + segments_from(text, end + 1)
    } else {
        first
    }
}

/// A version without the `v` or `V` that may stand in front of it.
pub open spec fn without_prefix(version: Seq<char>) -> Seq<char> {
    if version.len() > 0 && (version[0] == 'v' || version[0] == 'V') {
        version.subrange(1, version.len() as int)
    } else {
        version
    }
}

pub open spec fn version_key(version: Seq<char>) -> Seq<Segment> {
    segments_from(without_prefix(version), 0)
}

/// The part of `key` at position `i`, zero once the key has run out.
pub open spec fn segment_at(key: Seq<Segment>, i: int) -> Segment {
    if 0 <= i < key.len() {
        key[i]
    } else {
        Segment::Number(0)
    }
}

/// `a` and `b` hold the same parts before position `i`, and there `a` holds the
/// smaller one.
pub open spec fn key_less_at(a: Seq<Segment>, b: Seq<Segment>, i: int) -> bool {
    &&& 0 <= i
    &&& segment_less(segment_at(a, i), segment_at(b, i))
    &&& forall|j: int| 0 <= j < i ==> #[trigger] segment_at(a, j) == segment_at(b, j)
}

pub open spec fn key_less(a: Seq<Segment>, b: Seq<Segment>) -> bool {
    exists|i: int| key_less_at(a, b, i)
}

/// `latest` is a strictly newer version than `current`.
pub open spec fn is_newer(current: Seq<char>, latest: Seq<char>) -> bool {
    key_less(version_key(current), version_key(latest))
}

/// A version without its revision: what stands before the first `-`.
pub open spec fn clean_version(version: Seq<char>) -> Seq<char> {
    version.subrange(0, position_of(version, '-', 0))
}

/// `latest` is a newer version than `current` once the revisions of both are set
/// aside.
pub open spec fn update_available(current: Seq<char>, latest: Seq<char>) -> bool {
    is_newer(clean_version(current), clean_version(latest))
}

/// Every part of the version is a number.
pub open spec fn dotted_numeric(version: Seq<char>) -> bool {
    forall|i: int|
        0 <= i < version_key(version).len() ==> #[trigger] version_key(version)[i] is Number
}

/// The numbers that a version is made of, where all its parts are numbers.
pub open spec fn numbers_of(version: Seq<char>) -> Seq<nat> {
    Seq::new(version_key(version).len(), |i: int| version_key(version)[i]->Number_0)
}

/// The number at position `i`, zero once the numbers have run out.
pub open spec fn number_at(numbers: Seq<nat>, i: int) -> nat {
    if 0 <= i < numbers.len() {
        numbers[i]
    } else {
        0
    }
}

/// `a` and `b` hold the same numbers before position `i`, and there `a` holds
/// the smaller one.
pub open spec fn numbers_less_at(a: Seq<nat>, b: Seq<nat>, i: int) -> bool {
    &&& 0 <= i
    &&& number_at(a, i) < number_at(b, i)
    &&& forall|j: int| 0 <= j < i ==> #[trigger] number_at(a, j) == number_at(b, j)
}

/// `b` is the greater sequence of numbers, the shorter one continued with zeros.
pub open spec fn numbers_less(a: Seq<nat>, b: Seq<nat>) -> bool {
    exists|i: int| numbers_less_at(a, b, i)
}

/// The two strings name the same version: their parts agree at every position.
pub open spec fn same_version(a: Seq<char>, b: Seq<char>) -> bool {
    forall|i: int| 0 <= i ==> #[trigger] segment_at(version_key(a), i) == segment_at(version_key(b), i)
}


/// How the first of two parts stands to the second.
#[derive(Clone, Copy)]
enum Relation {
    Less,
    Equal,
    Greater,
}

spec fn relation_of(a: Segment, b: Segment) -> Relation {
    if segment_less(a, b) {
        Relation::Less
    } else if a == b {
        Relation::Equal
    } else {
        Relation::Greater
    }
}

/// Two words that first differ at position `i`, where `a` ends or holds the
/// smaller character, are in order, and not in the opposite order.
proof fn lemma_word_decided(a: Seq<char>, b: Seq<char>, i: int)
    requires
        word_less_at(a, b, i),
    ensures
        word_less(a, b),
        !word_less(b, a),
        a != b,
{
    assert forall|j: int| !word_less_at(b, a, j) by {
        if word_less_at(b, a, j) {
            if j < i {
                assert(a.take(i)[j] == b.take(i)[j]);
            } else if j > i {
                assert(b.take(j)[i] == a.take(j)[i]);
            }
        }
    }
    if a == b {
        assert(i < a.len());
    }
}

proof fn lemma_word_irreflexive(a: Seq<char>)
    ensures
        !word_less(a, a),
{
}

proof fn lemma_word_transitive(a: Seq<char>, b: Seq<char>, c: Seq<char>)
    requires
        word_less(a, b),
        word_less(b, c),
    ensures
        word_less(a, c),
{
    let i = choose|i: int| word_less_at(a, b, i);
    let j = choose|j: int| word_less_at(b, c, j);
    let k = if i <= j { i } else { j };
    assert(a.take(k) =~= a.take(i).take(k));
    assert(b.take(k) =~= b.take(i).take(k));
    assert(b.take(k) =~= b.take(j).take(k));
    assert(c.take(k) =~= c.take(j).take(k));
    if i < j {
        assert(b.take(j)[i] == c.take(j)[i]);
    } else if j < i {
        assert(a.take(i)[j] == b.take(i)[j]);
    }
    assert(word_less_at(a, c, k));
}

/// Orders two words.
fn order_words(a: &[char], b: &[char]) -> (r: Relation)
    ensures
        r == relation_of(Segment::Word(a@), Segment::Word(b@)),
{
    let mut i: usize = 0;
    while i < a.len() && i < b.len()
        invariant
            i <= a.len(),
            i <= b.len(),
            a@.take(i as int) == b@.take(i as int),
        decreases a.len() - i,
    {
        if a[i] < b[i] {
            proof {
                lemma_word_decided(a@, b@, i as int);
            }
            return Relation::Less;
        }
        if b[i] < a[i] {
            proof {
                lemma_word_decided(b@, a@, i as int);
            }
            return Relation::Greater;
        }
        assert(a@.take(i + 1) =~= a@.take(i as int).push(a@[i as int]));
        assert(b@.take(i + 1) =~= b@.take(i as int).push(b@[i as int]));
        i += 1;
    }
    if i < b.len() {
        proof {
            lemma_word_decided(a@, b@, i as int);
        }
        Relation::Less
    } else if i < a.len() {
        proof {
            lemma_word_decided(b@, a@, i as int);
        }
        Relation::Greater
    } else {
        proof {
            assert(a@ =~= a@.take(i as int));
            assert(b@ =~= b@.take(i as int));
            lemma_word_irreflexive(a@);
        }
        Relation::Equal
    }
}


/// Zeros in front of a number do not change its value.
proof fn lemma_leading_zeros(digits: Seq<char>, zeros: int)
    requires
        0 <= zeros <= digits.len(),
        forall|j: int| 0 <= j < zeros ==> digits[j] == '0',
    ensures
        decimal_value(digits) == decimal_value(digits.subrange(zeros, digits.len() as int)),
    decreases digits.len(),
{
    let rest = digits.subrange(zeros, digits.len() as int);
    if zeros < digits.len() {
        lemma_leading_zeros(digits.drop_last(), zeros);
        assert(rest.drop_last() =~= digits.drop_last().subrange(zeros, digits.len() - 1));
    } else if digits.len() > 0 {
        lemma_leading_zeros(digits.drop_last(), zeros - 1);
        assert(digits.drop_last().subrange(zeros - 1, digits.len() - 1) =~= rest);
    }
}

/// Of two numbers with equally many digits, the one with the smaller digit at
/// the first position where they differ is the smaller.
proof fn lemma_first_difference(a: Seq<char>, b: Seq<char>, i: int)
    requires
        all_digits(a),
        all_digits(b),
        a.len() == b.len(),
        0 <= i < a.len(),
        a.take(i) == b.take(i),
        a[i] < b[i],
    ensures
        decimal_value(a) < decimal_value(b),
    decreases a.len(),
{
    let n = a.len() as int;
    assert(is_digit(a[n - 1]) && is_digit(b[n - 1]));
    if i == n - 1 {
        assert(a.drop_last() =~= a.take(i));
        assert(b.drop_last() =~= b.take(i));
    } else {
        assert(a.drop_last().take(i) =~= a.take(i));
        assert(b.drop_last().take(i) =~= b.take(i));
        lemma_first_difference(a.drop_last(), b.drop_last(), i);
    }
}

/// A number without leading zeros is greater than any number with fewer digits.
proof fn lemma_fewer_digits(a: Seq<char>, b: Seq<char>)
    requires
        all_digits(a),
        all_digits(b),
        a.len() < b.len(),
        b[0] != '0',
    ensures
        decimal_value(a) < decimal_value(b),
{
    let zeros = b.len() - a.len();
    let padded = Seq::new(zeros as nat, |j: int| '0') + a;
    assert(padded.subrange(zeros, padded.len() as int) =~= a);
    lemma_leading_zeros(padded, zeros);
    assert(is_digit(b[0]));
    assert(padded.take(0) =~= b.take(0));
    lemma_first_difference(padded, b, 0);
}

/// The number of zeros that `digits` starts with.
fn leading_zeros(digits: &[char]) -> (zeros: usize)
    ensures
        zeros <= digits.len(),
        forall|j: int| 0 <= j < zeros ==> digits@[j] == '0',
        zeros < digits.len() ==> digits@[zeros as int] != '0',
{
    let mut zeros: usize = 0;
    while zeros < digits.len() && digits[zeros] == '0'
        invariant
            zeros <= digits.len(),
            forall|j: int| 0 <= j < zeros ==> digits@[j] == '0',
        decreases digits.len() - zeros,
    {
        zeros += 1;
    }
    zeros
}

/// Orders two numbers of any size by value.
fn order_numbers(a: &[char], b: &[char]) -> (r: Relation)
    requires
        all_digits(a@),
        all_digits(b@),
    ensures
        r == relation_of(
            Segment::Number(decimal_value(a@)),
            Segment::Number(decimal_value(b@)),
        ),
{
    let a_zeros: usize = leading_zeros(a);
    let b_zeros: usize = leading_zeros(b);
    let x = slice_subrange(a, a_zeros, a.len());
    let y = slice_subrange(b, b_zeros, b.len());
    proof {
        lemma_leading_zeros(a@, a_zeros as int);
        lemma_leading_zeros(b@, b_zeros as int);
    }
    if x.len() < y.len() {
        proof {
            lemma_fewer_digits(x@, y@);
        }
        return Relation::Less;
    }
    if y.len() < x.len() {
        proof {
            lemma_fewer_digits(y@, x@);
        }
        return Relation::Greater;
    }
    let mut i: usize = 0;
    while i < x.len()
        invariant
            i <= x.len(),
            x.len() == y.len(),
            all_digits(x@),
            all_digits(y@),
            decimal_value(x@) == decimal_value(a@),
            decimal_value(y@) == decimal_value(b@),
            x@.take(i as int) == y@.take(i as int),
        decreases x.len() - i,
    {
        if x[i] < y[i] {
            proof {
                lemma_first_difference(x@, y@, i as int);
            }
            return Relation::Less;
        }
        if y[i] < x[i] {
            proof {
                lemma_first_difference(y@, x@, i as int);
            }
            return Relation::Greater;
        }
        assert(x@.take(i + 1) =~= x@.take(i as int).push(x@[i as int]));
        assert(y@.take(i + 1) =~= y@.take(i as int).push(y@[i as int]));
        i += 1;
    }
    proof {
        assert(x@ =~= x@.take(i as int));
        assert(y@ =~= y@.take(i as int));
    }
    Relation::Equal
}

/// Whether a part is made of decimal digits only.
fn only_digits(part: &[char]) -> (r: bool)
    ensures
        r == all_digits(part@),
{
    let mut i: usize = 0;
    while i < part.len()
        invariant
            i <= part.len(),
            forall|j: int| 0 <= j < i ==> is_digit(#[trigger] part@[j]),
        decreases part.len() - i,
    {
        let c: char = part[i];
        if !(c >= '0' && c <= '9') {
            return false;
        }
        i += 1;
    }
    true
}

/// Orders two parts of a version.
fn order_segments(a: &[char], b: &[char]) -> (r: Relation)
    ensures
        r == relation_of(segment_of(a@), segment_of(b@)),
{
    let a_number: bool = only_digits(a);
    let b_number: bool = only_digits(b);
    if a_number && b_number {
        order_numbers(a, b)
    } else if a_number {
        Relation::Less
    } else if b_number {
        Relation::Greater
    } else {
        order_words(a, b)
    }
}


/// Two keys are ordered by their first parts, and by the rest where those agree.
proof fn lemma_key_head(h: Segment, x: Seq<Segment>, g: Segment, y: Seq<Segment>)
    ensures
        key_less(seq![h] + x, seq![g] + y) == (segment_less(h, g) || (h == g && key_less(x, y))),
{
    let hx = seq![h] + x;
    let gy = seq![g] + y;
    assert forall|i: int| 0 <= i implies segment_at(hx, i + 1) == segment_at(x, i)
        && segment_at(gy, i + 1) == segment_at(y, i) by {}
    assert(segment_at(hx, 0) == h && segment_at(gy, 0) == g);
    if key_less(hx, gy) {
        let i = choose|i: int| key_less_at(hx, gy, i);
        if i > 0 {
            assert(segment_at(hx, 0) == segment_at(gy, 0));
            assert forall|j: int| 0 <= j < i - 1 implies #[trigger] segment_at(x, j)
                == segment_at(y, j) by {
                assert(segment_at(hx, j + 1) == segment_at(gy, j + 1));
            }
            assert(key_less_at(x, y, i - 1));
        }
    }
    if segment_less(h, g) {
        assert(key_less_at(hx, gy, 0));
    } else if h == g && key_less(x, y) {
        let i = choose|i: int| key_less_at(x, y, i);
        assert forall|j: int| 0 <= j < i + 1 implies #[trigger] segment_at(hx, j) == segment_at(
            gy,
            j,
        ) by {
            if j > 0 {
                assert(segment_at(x, j - 1) == segment_at(y, j - 1));
            }
        }
        assert(key_less_at(hx, gy, i + 1));
    }
}

/// A zero at the end of a key does not change how it is ordered.
proof fn lemma_key_padding(a: Seq<Segment>, b: Seq<Segment>)
    ensures
        key_less(a, b) == key_less(a + seq![Segment::Number(0)], b),
        key_less(a, b) == key_less(a, b + seq![Segment::Number(0)]),
{
    let a0 = a + seq![Segment::Number(0)];
    let b0 = b + seq![Segment::Number(0)];
    assert forall|i: int| segment_at(a0, i) == segment_at(a, i) && segment_at(b0, i) == segment_at(
        b,
        i,
    ) by {}
    if key_less(a, b) {
        let i = choose|i: int| key_less_at(a, b, i);
        assert(key_less_at(a0, b, i));
        assert(key_less_at(a, b0, i));
    }
    if key_less(a0, b) {
        let i = choose|i: int| key_less_at(a0, b, i);
        assert(key_less_at(a, b, i));
    }
    if key_less(a, b0) {
        let i = choose|i: int| key_less_at(a, b0, i);
        assert(key_less_at(a, b, i));
    }
}

/// The first position at or after `from` at which `text` holds `mark`.
fn find(text: &[char], mark: char, from: usize) -> (at: usize)
    requires
        from <= text.len(),
    ensures
        at == position_of(text@, mark, from as int),
        from <= at <= text.len(),
{
    let mut at: usize = from;
    while at < text.len() && text[at] != mark
        invariant
            from <= at <= text.len(),
            position_of(text@, mark, from as int) == position_of(text@, mark, at as int),
        decreases text.len() - at,
    {
        at += 1;
    }
    at
}

/// The parts that are still to be read: those from `from` on, or none.
spec fn remaining(text: Seq<char>, from: int, more: bool) -> Seq<Segment> {
    if more {
        segments_from(text, from)
    } else {
        Seq::empty()
    }
}

/// Whether the parts of `latest` are a greater key than the parts of `current`.
fn order_keys(current: &[char], latest: &[char]) -> (newer: bool)
    ensures
        newer == key_less(segments_from(current@, 0), segments_from(latest@, 0)),
{
    let mut a_from: usize = 0;
    let mut a_more: bool = true;
    let mut b_from: usize = 0;
    let mut b_more: bool = true;
    while a_more || b_more
        invariant
            a_from <= current.len(),
            b_from <= latest.len(),
            key_less(segments_from(current@, 0), segments_from(latest@, 0)) == key_less(
                remaining(current@, a_from as int, a_more),
                remaining(latest@, b_from as int, b_more),
            ),
        decreases
            (if a_more { current.len() - a_from + 1 } else { 0 }) + (if b_more {
                latest.len() - b_from + 1
            } else {
                0
            }),
    {
        let a_end: usize = if a_more { find(current, '.', a_from) } else { a_from };
        let b_end: usize = if b_more { find(latest, '.', b_from) } else { b_from };
        let a_part = slice_subrange(current, a_from, a_end);
        let b_part = slice_subrange(latest, b_from, b_end);
        let a_next: bool = a_more && a_end < current.len();
        let b_next: bool = b_more && b_end < latest.len();
        proof {
            let a_rest = remaining(current@, a_end + 1, a_next);
            let b_rest = remaining(latest@, b_end + 1, b_next);
            let a_now = remaining(current@, a_from as int, a_more);
            let b_now = remaining(latest@, b_from as int, b_more);
            let a_head = segment_of(a_part@);
            let b_head = segment_of(b_part@);
            assert(seq![a_head] + Seq::<Segment>::empty() =~= seq![a_head]);
            assert(seq![b_head] + Seq::<Segment>::empty() =~= seq![b_head]);
            if !a_more {
                assert(a_head == Segment::Number(0));
                lemma_key_padding(a_now, b_now);
                assert(a_now + seq![a_head] =~= seq![a_head] + a_rest);
            }
            assert(key_less(a_now, b_now) == key_less(seq![a_head] + a_rest, b_now));
            if !b_more {
                assert(b_head == Segment::Number(0));
                lemma_key_padding(seq![a_head] + a_rest, b_now);
                assert(b_now + seq![b_head] =~= seq![b_head] + b_rest);
            }
            assert(key_less(a_now, b_now) == key_less(
                seq![a_head] + a_rest,
                seq![b_head] + b_rest,
            ));
            lemma_key_head(a_head, a_rest, b_head, b_rest);
        }
        match order_segments(a_part, b_part) {
            Relation::Less => {
                return true;
            },
            Relation::Greater => {
                return false;
            },
            Relation::Equal => {},
        }
        a_more = a_next;
        if a_next {
            a_from = a_end + 1;
        }
        b_more = b_next;
        if b_next {
            b_from = b_end + 1;
        }
    }
    proof {
        assert(!key_less(Seq::<Segment>::empty(), Seq::<Segment>::empty()));
    }
    false
}


/// The version without a `v` or `V` in front of it.
fn skip_prefix(version: &[char]) -> (rest: &[char])
    ensures
        rest@ == without_prefix(version@),
{
    if version.len() > 0 && (version[0] == 'v' || version[0] == 'V') {
        slice_subrange(version, 1, version.len())
    } else {
        version
    }
}

/// Whether `latest` is a strictly newer version than `current`.
///
/// Never fails: every string is a version. The empty string is version zero.
pub fn compare_versions(current: &str, latest: &str) -> (newer: bool)
    ensures
        newer == is_newer(current@, latest@),
{
    let a: Vec<char> = characters(current);
    let b: Vec<char> = characters(latest);
    order_keys(skip_prefix(a.as_slice()), skip_prefix(b.as_slice()))
}

/// The version without its revision: the part of `version` before its first `-`,
/// all of it where it holds none.
pub fn strip_revision<'a>(version: &'a str) -> (clean: &'a str)
    ensures
        clean@ == clean_version(version@),
{
    let chars: Vec<char> = characters(version);
    let end: usize = find(chars.as_slice(), '-', 0);
    version.substring_char(0, end)
}


proof fn lemma_segment_irreflexive(a: Segment)
    ensures
        !segment_less(a, a),
{
    if let Segment::Word(w) = a {
        lemma_word_irreflexive(w);
    }
}

proof fn lemma_segment_transitive(a: Segment, b: Segment, c: Segment)
    requires
        segment_less(a, b),
        segment_less(b, c),
    ensures
        segment_less(a, c),
{
    match (a, b, c) {
        (Segment::Word(x), Segment::Word(y), Segment::Word(z)) => {
            lemma_word_transitive(x, y, z);
        },
        _ => {},
    }
}

/// Of two different words one comes before the other.
proof fn lemma_word_total(a: Seq<char>, b: Seq<char>, n: int)
    requires
        0 <= n <= a.len(),
        n <= b.len(),
        a.take(n) == b.take(n),
    ensures
        word_less(a, b) || word_less(b, a) || a == b,
    decreases a.len() - n,
{
    if n == a.len() && n == b.len() {
        assert(a =~= a.take(n));
        assert(b =~= b.take(n));
    } else if n == a.len() {
        assert(word_less_at(a, b, n));
    } else if n == b.len() {
        assert(word_less_at(b, a, n));
    } else if a[n] < b[n] {
        assert(word_less_at(a, b, n));
    } else if b[n] < a[n] {
        assert(word_less_at(b, a, n));
    } else {
        assert(a.take(n + 1) =~= a.take(n).push(a[n]));
        assert(b.take(n + 1) =~= b.take(n).push(b[n]));
        lemma_word_total(a, b, n + 1);
    }
}

proof fn lemma_segment_total(a: Segment, b: Segment)
    ensures
        segment_less(a, b) || segment_less(b, a) || a == b,
{
    match (a, b) {
        (Segment::Word(x), Segment::Word(y)) => {
            assert(x.take(0) =~= y.take(0));
            lemma_word_total(x, y, 0);
        },
        _ => {},
    }
}

proof fn lemma_key_irreflexive(a: Seq<Segment>)
    ensures
        !key_less(a, a),
{
    assert forall|i: int| !key_less_at(a, a, i) by {
        lemma_segment_irreflexive(segment_at(a, i));
    }
}

proof fn lemma_key_transitive(a: Seq<Segment>, b: Seq<Segment>, c: Seq<Segment>)
    requires
        key_less(a, b),
        key_less(b, c),
    ensures
        key_less(a, c),
{
    let i = choose|i: int| key_less_at(a, b, i);
    let j = choose|j: int| key_less_at(b, c, j);
    let k = if i <= j { i } else { j };
    assert forall|m: int| 0 <= m < k implies #[trigger] segment_at(a, m) == segment_at(c, m) by {
        assert(segment_at(a, m) == segment_at(b, m));
        assert(segment_at(b, m) == segment_at(c, m));
    }
    if i < j {
        assert(segment_at(b, i) == segment_at(c, i));
    } else if j < i {
        assert(segment_at(a, j) == segment_at(b, j));
    } else {
        lemma_segment_transitive(segment_at(a, i), segment_at(b, i), segment_at(c, i));
    }
    assert(key_less_at(a, c, k));
}

/// Two keys that agree before position `n` are ordered one way or the other, or
/// agree everywhere.
proof fn lemma_key_total(a: Seq<Segment>, b: Seq<Segment>, n: int)
    requires
        0 <= n,
        forall|j: int| 0 <= j < n ==> #[trigger] segment_at(a, j) == segment_at(b, j),
    ensures
        key_less(a, b) || key_less(b, a) || forall|j: int|
            0 <= j ==> #[trigger] segment_at(a, j) == segment_at(b, j),
    decreases a.len() + b.len() - n,
{
    if n >= a.len() && n >= b.len() {
    } else {
        lemma_segment_total(segment_at(a, n), segment_at(b, n));
        if segment_less(segment_at(a, n), segment_at(b, n)) {
            assert(key_less_at(a, b, n));
        } else if segment_less(segment_at(b, n), segment_at(a, n)) {
            assert(key_less_at(b, a, n));
        } else {
            lemma_key_total(a, b, n + 1);
        }
    }
}

/// No version is newer than itself.
pub proof fn lemma_not_newer_than_itself(version: Seq<char>)
    ensures
        !is_newer(version, version),
{
    lemma_key_irreflexive(version_key(version));
}

/// Of two versions at most one is newer than the other.
pub proof fn lemma_newer_one_way(a: Seq<char>, b: Seq<char>)
    ensures
        !(is_newer(a, b) && is_newer(b, a)),
{
    if is_newer(a, b) && is_newer(b, a) {
        lemma_key_transitive(version_key(a), version_key(b), version_key(a));
        lemma_key_irreflexive(version_key(a));
    }
}

/// Newer than a newer version is newer.
pub proof fn lemma_newer_transitive(a: Seq<char>, b: Seq<char>, c: Seq<char>)
    requires
        is_newer(a, b),
        is_newer(b, c),
    ensures
        is_newer(a, c),
{
    lemma_key_transitive(version_key(a), version_key(b), version_key(c));
}

/// Any two strings can be compared: one is the newer version, or they name the
/// same version.
pub proof fn lemma_versions_comparable(a: Seq<char>, b: Seq<char>)
    ensures
        is_newer(a, b) || is_newer(b, a) || same_version(a, b),
{
    lemma_key_total(version_key(a), version_key(b), 0);
}

/// Two names of the same version are not newer than one another, and stand alike
/// to every third version.
pub proof fn lemma_same_version_alike(a: Seq<char>, b: Seq<char>, c: Seq<char>)
    requires
        same_version(a, b),
    ensures
        !is_newer(a, b),
        !is_newer(b, a),
        is_newer(a, c) == is_newer(b, c),
        is_newer(c, a) == is_newer(c, b),
{
    let ka = version_key(a);
    let kb = version_key(b);
    let kc = version_key(c);
    assert forall|i: int| !key_less_at(ka, kb, i) && !key_less_at(kb, ka, i) by {
        if 0 <= i {
            assert(segment_at(ka, i) == segment_at(kb, i));
            lemma_segment_irreflexive(segment_at(ka, i));
        }
    }
    assert forall|i: int|
        key_less_at(ka, kc, i) == key_less_at(kb, kc, i) && key_less_at(kc, ka, i) == key_less_at(
            kc,
            kb,
            i,
        ) by {
        if 0 <= i {
            assert(segment_at(ka, i) == segment_at(kb, i));
            assert forall|j: int| 0 <= j < i implies segment_at(ka, j) == segment_at(kb, j) by {}
        }
    }
    if is_newer(a, c) {
        let i = choose|i: int| key_less_at(ka, kc, i);
        assert(key_less_at(kb, kc, i));
    }
    if is_newer(b, c) {
        let i = choose|i: int| key_less_at(kb, kc, i);
        assert(key_less_at(ka, kc, i));
    }
    if is_newer(c, a) {
        let i = choose|i: int| key_less_at(kc, ka, i);
        assert(key_less_at(kc, kb, i));
    }
    if is_newer(c, b) {
        let i = choose|i: int| key_less_at(kc, kb, i);
        assert(key_less_at(kc, ka, i));
    }
}

/// Where two versions agree once their revisions are set aside, no update is
/// available, whatever the revisions are.
pub proof fn lemma_same_clean_version_no_update(current: Seq<char>, latest: Seq<char>)
    requires
        same_version(clean_version(current), clean_version(latest)),
    ensures
        !update_available(current, latest),
{
    lemma_same_version_alike(
        clean_version(current),
        clean_version(latest),
        clean_version(current),
    );
}


/// Between two versions made of numbers only, an update is available exactly
/// where the latest holds the greater sequence of numbers, revisions set aside.
pub proof fn lemma_greater_numbers_update(current: Seq<char>, latest: Seq<char>)
    requires
        dotted_numeric(clean_version(current)),
        dotted_numeric(clean_version(latest)),
    ensures
        update_available(current, latest) == numbers_less(
            numbers_of(clean_version(current)),
            numbers_of(clean_version(latest)),
        ),
{
    let a = version_key(clean_version(current));
    let b = version_key(clean_version(latest));
    let x = numbers_of(clean_version(current));
    let y = numbers_of(clean_version(latest));
    assert forall|i: int|
        segment_at(a, i) == Segment::Number(number_at(x, i)) && segment_at(b, i)
            == Segment::Number(number_at(y, i)) by {
        if 0 <= i < a.len() {
            assert(a[i] is Number);
        }
        if 0 <= i < b.len() {
            assert(b[i] is Number);
        }
    }
    if key_less(a, b) {
        let i = choose|i: int| key_less_at(a, b, i);
        assert forall|j: int| 0 <= j < i implies #[trigger] number_at(x, j) == number_at(y, j) by {
            assert(segment_at(a, j) == segment_at(b, j));
        }
        assert(numbers_less_at(x, y, i));
    }
    if numbers_less(x, y) {
        let i = choose|i: int| numbers_less_at(x, y, i);
        assert forall|j: int| 0 <= j < i implies #[trigger] segment_at(a, j) == segment_at(b, j) by {
            assert(number_at(x, j) == number_at(y, j));
        }
        assert(key_less_at(a, b, i));
    }
}

} // verus!
