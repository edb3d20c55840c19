//! The three pattern scans that are run over every line of a runner's log.
//!
//! A scan walks a line from left to right. Where its marker stands and the
//! text behind the marker has the shape it looks for, it takes the longest
//! such text and goes on behind it; everywhere else it moves on by one
//! character. The matches of one scan therefore never overlap.

use crate::statistic::{decimal_value, lemma_pow10_increases, pow10, TStatistic};
use vstd::prelude::*;
use vstd::slice::slice_subrange;

verus! {

/// A character of a benchmark name or of a seed: a lower-case letter, a
/// digit or an underscore.
pub open spec fn is_ident_char(c: char) -> bool {
    ('a' <= c && c <= 'z') || ('0' <= c && c <= '9') || c == '_'
}

/// A decimal digit.
pub open spec fn is_digit(c: char) -> bool {
    '0' <= c && c <= '9'
}

/// `marker` stands in `s` at position `at`.
pub open spec fn starts_at(s: Seq<char>, at: int, marker: Seq<char>) -> bool {
    &&& 0 <= at
    &&& at + marker.len() <= s.len()
    &&& s.subrange(at, at + marker.len()) == marker
}

/// The end of the longest run of identifier characters that begins at `from`.
pub open spec fn ident_end(s: Seq<char>, from: int) -> int
    decreases s.len() - from,
{
    if 0 <= from < s.len() && is_ident_char(s[from]) {
        ident_end(s, from + 1)
    } else {
        from
    }
}

/// The scan matches at `at`: the marker stands there, and at least one
/// identifier character follows it.
pub open spec fn ident_match(s: Seq<char>, marker: Seq<char>, at: int) -> bool {
    &&& starts_at(s, at, marker)
    &&& at + marker.len() < s.len()
    &&& is_ident_char(s[at + marker.len()])
}

/// The tokens that a scan of `s` finds from position `from` on.
///
/// A token is the run of identifier characters behind a marker, together
/// with the last `keep` characters of the marker itself. After a match the
/// scan goes on behind the token.
pub open spec fn ident_tokens(s: Seq<char>, marker: Seq<char>, keep: int, from: int) -> Seq<
    Seq<char>,
>
    decreases s.len() - from,
    when from >= 0
    via ident_tokens_decreases
{
    if from >= s.len() {
        Seq::empty()
    } else if ident_match(s, marker, from) {
        let end = ident_end(s, from + marker.len());
        seq![s.subrange(from + marker.len() - keep, end)] + ident_tokens(s, marker, keep, end)
    } else {
        ident_tokens(s, marker, keep, from + 1)
    }
}

#[via_fn]
proof fn ident_tokens_decreases(s: Seq<char>, marker: Seq<char>, keep: int, from: int) {
    if from < s.len() && ident_match(s, marker, from) {
        lemma_ident_end_bounds(s, from + marker.len());
    }
}

/// A run of identifier characters ends between its start and the end of the
/// line, and past its start if the first character belongs to it.
pub proof fn lemma_ident_end_bounds(s: Seq<char>, from: int)
    requires
        0 <= from <= s.len(),
    ensures
        from <= ident_end(s, from) <= s.len(),
        from < s.len() && is_ident_char(s[from]) ==> from < ident_end(s, from),
        forall|i: int| from <= i < ident_end(s, from) ==> is_ident_char(#[trigger] s[i]),
        ident_end(s, from) < s.len() ==> !is_ident_char(s[ident_end(s, from)]),
    decreases s.len() - from,
{
    if from < s.len() && is_ident_char(s[from]) {
        lemma_ident_end_bounds(s, from + 1);
    }
}

/// A token is well-formed: it is longer than the part of the marker that it
/// keeps, begins with that part, and holds identifier characters behind it.
pub open spec fn is_token(token: Seq<char>, marker: Seq<char>, keep: int) -> bool {
    &&& token.len() > keep
    &&& token.subrange(0, keep) == marker.subrange(marker.len() - keep, marker.len() as int)
    &&& forall|i: int| keep <= i < token.len() ==> is_ident_char(#[trigger] token[i])
}

/// Every token that a scan finds is well-formed.
pub proof fn lemma_tokens_are_identifiers(s: Seq<char>, marker: Seq<char>, keep: int, from: int)
    requires
        0 <= from,
        0 <= keep <= marker.len(),
    ensures
        forall|k: int|
            0 <= k < ident_tokens(s, marker, keep, from).len() ==> is_token(
                #[trigger] ident_tokens(s, marker, keep, from)[k],
                marker,
                keep,
            ),
    decreases s.len() - from,
{
    let tokens = ident_tokens(s, marker, keep, from);
    if from >= s.len() {
        assert(tokens.len() == 0);
    } else if ident_match(s, marker, from) {
        let start = from + marker.len();
        let end = ident_end(s, start);
        lemma_ident_end_bounds(s, start);
        lemma_tokens_are_identifiers(s, marker, keep, end);
        let first = s.subrange(start - keep, end);
        let rest = ident_tokens(s, marker, keep, end);
        assert(tokens == seq![first] + rest);
        assert(first.subrange(0, keep) =~= marker.subrange(marker.len() - keep, marker.len() as int))
            by {
            assert forall|i: int| 0 <= i < keep implies first[i] == marker[marker.len() - keep
                + i] by {
                assert(s.subrange(from, start)[marker.len() - keep + i] == s[start - keep + i]);
            }
        }
        assert(is_token(first, marker, keep));
        assert forall|k: int| 0 <= k < tokens.len() implies is_token(
            #[trigger] tokens[k],
            marker,
            keep,
        ) by {
            if k > 0 {
                assert(tokens[k] == rest[k - 1]);
            }
        }
    } else {
        lemma_tokens_are_identifiers(s, marker, keep, from + 1);
        assert(tokens == ident_tokens(s, marker, keep, from + 1));
    }
}

/// The marker in front of a benchmark's name. The name begins with the
/// marker's last five characters.
pub open spec fn name_marker() -> Seq<char> {
    "bench test_"@
}

/// The marker in front of a seed.
pub open spec fn seed_marker() -> Seq<char> {
    "seeded with "@
}

/// The benchmark names on a line, in the order in which they stand.
pub open spec fn names_in(s: Seq<char>) -> Seq<Seq<char>> {
    ident_tokens(s, name_marker(), 5, 0)
}

/// The seeds on a line, in the order in which they stand.
pub open spec fn seeds_in(s: Seq<char>) -> Seq<Seq<char>> {
    ident_tokens(s, seed_marker(), 0, 0)
}

/// The texts that a vector of strings holds.
pub open spec fn texts(v: Seq<String>) -> Seq<Seq<char>> {
    v.map_values(|t: String| t@)
}

/// The characters of a line, one by one.
pub fn chars_of(line: &str) -> (chars: Vec<char>)
    ensures
        chars@ == line@,
{
    let mut chars: Vec<char> = Vec::new();
    for c in it: line.chars()
        invariant
            chars@ == it.seq().take(it.index() as int),
            it.seq() == line@,
    {
        chars.push(c);
    }
    chars
}

fn ident_char(c: char) -> (b: bool)
    ensures
        b == is_ident_char(c),
{
    ('a' <= c && c <= 'z') || ('0' <= c && c <= '9') || c == '_'
}

/// Tells whether `marker` stands in `chars` at position `at`.
fn has_marker(chars: &[char], at: usize, marker: &[char]) -> (found: bool)
    ensures
        found == starts_at(chars@, at as int, marker@),
{
    let n = chars.len();
    let m = marker.len();
    if at > n || m > n - at {
        return false;
    }
    let mut i: usize = 0;
    while i < m
        invariant
            i <= m,
            m == marker@.len(),
            n == chars@.len(),
            at + m <= n,
            forall|j: int| 0 <= j < i ==> chars@[at + j] == marker@[j],
        decreases m - i,
    {
        if chars[at + i] != marker[i] {
            assert(chars@.subrange(at as int, at + m)[i as int] != marker@[i as int]);
            return false;
        }
        i += 1;
    }
    assert(chars@.subrange(at as int, at + m) =~= marker@);
    true
}

/// Finds the end of the run of identifier characters that begins at `from`.
fn ident_run_end(chars: &[char], from: usize) -> (end: usize)
    requires
        from <= chars@.len(),
    ensures
        end == ident_end(chars@, from as int),
        from <= end <= chars@.len(),
{
    let n = chars.len();
    let mut end: usize = from;
    while end < n && ident_char(chars[end])
        invariant
            from <= end <= n,
            n == chars@.len(),
            ident_end(chars@, from as int) == ident_end(chars@, end as int),
        decreases n - end,
    {
        end += 1;
    }
    end
}

/// Scans a line for `marker` followed by identifier characters and returns
/// the tokens found.
fn scan_idents(line: &str, chars: &[char], marker: &[char], keep: usize) -> (tokens: Vec<String>)
    requires
        chars@ == line@,
        keep <= marker@.len(),
    ensures
        texts(tokens@) == ident_tokens(line@, marker@, keep as int, 0),
{
    let n = chars.len();
    let m = marker.len();
    let mut tokens: Vec<String> = Vec::new();
    let mut pos: usize = 0;
    assert(texts(tokens@) =~= Seq::<Seq<char>>::empty());
    while pos < n
        invariant
            pos <= n,
            n == chars@.len(),
            m == marker@.len(),
            keep <= m,
            chars@ == line@,
            texts(tokens@) + ident_tokens(chars@, marker@, keep as int, pos as int) == ident_tokens(
                chars@,
                marker@,
                keep as int,
                0,
            ),
        decreases n - pos,
    {
        let matched = has_marker(chars, pos, marker) && m < n - pos && ident_char(chars[pos + m]);
        if matched {
            let end = ident_run_end(chars, pos + m);
            proof {
                lemma_ident_end_bounds(chars@, pos + m);
            }
            let token = line.substring_char(pos + m - keep, end).to_owned();
            let ghost before = texts(tokens@);
            tokens.push(token);
            assert(texts(tokens@) =~= before + seq![token@]);
            pos = end;
        } else {
            pos += 1;
        }
    }
    assert(texts(tokens@) + Seq::<Seq<char>>::empty() =~= texts(tokens@));
    tokens
}

/// The benchmark names on a line: every `test_...` identifier that follows
/// the word `bench`, in the order in which they stand.
pub fn scan_names(line: &str) -> (names: Vec<String>)
    ensures
        texts(names@) == names_in(line@),
{
    let chars = chars_of(line);
    let marker = chars_of("bench test_");
    proof {
        reveal_strlit("bench test_");
    }
    scan_idents(line, chars.as_slice(), marker.as_slice(), 5)
}

/// The seeds on a line: every identifier that follows the words
/// `seeded with`, in the order in which they stand.
pub fn scan_seeds(line: &str) -> (seeds: Vec<String>)
    ensures
        texts(seeds@) == seeds_in(line@),
{
    let chars = chars_of(line);
    let marker = chars_of("seeded with ");
    scan_idents(line, chars.as_slice(), marker.as_slice(), 0)
}

/// The marker in front of a t-statistic.
pub open spec fn value_marker() -> Seq<char> {
    "max t = "@
}

/// A sign of a number.
pub open spec fn is_sign(c: char) -> bool {
    c == '+' || c == '-'
}

/// The end of the longest run of at most `limit` digits that begins at `from`.
pub open spec fn digits_end(s: Seq<char>, from: int, limit: nat) -> int
    decreases limit,
{
    if limit > 0 && 0 <= from < s.len() && is_digit(s[from]) {
        digits_end(s, from + 1, (limit - 1) as nat)
    } else {
        from
    }
}

/// The end of the numeric text that begins at `p`, if there is one.
///
/// Numeric text is a sign, up to five digits, one separator, which is any
/// character but a line feed, and up to five more digits. As many digits as
/// possible go in front of the separator. Where the line ends behind them, or
/// a line feed follows, the last of them stands in for the separator.
pub open spec fn number_end(s: Seq<char>, p: int) -> Option<int> {
    if 0 <= p < s.len() && is_sign(s[p]) {
        let i = digits_end(s, p + 1, 5);
        if i < s.len() && s[i] != '\n' {
            Some(digits_end(s, i + 1, 5))
        } else if i > p + 1 {
            Some(i)
        } else {
            None
        }
    } else {
        None
    }
}

/// The end of the word that begins at `from`: the next blank, or the end of
/// the line.
pub open spec fn word_end(s: Seq<char>, from: int) -> int
    decreases s.len() - from,
{
    if 0 <= from < s.len() && s[from] != ' ' {
        word_end(s, from + 1)
    } else {
        from
    }
}

/// The number that a digit stands for.
pub open spec fn digit_value(c: char) -> nat {
    (c as u32 - '0' as u32) as nat
}

/// The number that a string of digits stands for; zero for the empty string.
pub open spec fn digits_value(s: Seq<char>) -> nat
    decreases s.len(),
{
    if s.len() == 0 {
        0
    } else {
        digits_value(s.drop_last()) * 10 + digit_value(s.last())
    }
}

/// Every character is a digit.
pub open spec fn all_digits(s: Seq<char>) -> bool {
    forall|i: int| 0 <= i < s.len() ==> is_digit(#[trigger] s[i])
}

/// The number of digits that `s` begins with.
pub open spec fn leading_digits(s: Seq<char>) -> int {
    digits_end(s, 0, s.len())
}

/// The value of numeric text, in hundred-thousandths, or `None` where the
/// text is no number.
///
/// Behind the sign a number is a string of digits, or digits around a
/// decimal point with a digit on at least one side, or digits, the letter
/// `e` or `E` and digits, which stand for a multiple of a power of ten. At
/// most five digits follow the point or the letter.
pub open spec fn number_value(t: Seq<char>) -> Option<int> {
    if t.len() < 2 || !is_sign(t[0]) {
        None
    } else {
        let negative = t[0] == '-';
        let body = t.subrange(1, t.len() as int);
        let a = leading_digits(body);
        if a == body.len() {
            Some(decimal_value(negative, digits_value(body), 0))
        } else {
            let whole = body.subrange(0, a);
            let rest = body.subrange(a + 1, body.len() as int);
            if !all_digits(rest) || rest.len() > 5 {
                None
            } else if body[a] == '.' {
                if whole.len() + rest.len() >= 1 {
                    Some(decimal_value(negative, digits_value(whole + rest), -rest.len()))
                } else {
                    None
                }
            } else if body[a] == 'e' || body[a] == 'E' {
                if whole.len() >= 1 && rest.len() >= 1 {
                    Some(decimal_value(negative, digits_value(whole), digits_value(rest) as int))
                } else {
                    None
                }
            } else {
                None
            }
        }
    }
}

/// What a scan for t-statistics yields: the values in hundred-thousandths,
/// or the text that is no number.
pub type Scanned = Result<Seq<int>, Seq<char>>;

/// Puts values that were found earlier in front of a later result.
pub open spec fn prepend(found: Seq<int>, later: Scanned) -> Scanned {
    match later {
        Ok(rest) => Ok(found + rest),
        Err(text) => Err(text),
    }
}

/// The t-statistics that a scan of `s` finds from position `from` on.
///
/// Wherever the marker stands, a number has to follow. Where none does, the
/// scan ends with the offending text: the numeric text that has no value,
/// or, where there is not even numeric text, the word behind the marker.
pub open spec fn values_from(s: Seq<char>, from: int) -> Scanned
    decreases s.len() - from,
    when from >= 0
    via values_from_decreases
{
    if from >= s.len() {
        Ok(Seq::empty())
    } else if starts_at(s, from, value_marker()) {
        let p = from + value_marker().len();
        match number_end(s, p) {
            None => Err(s.subrange(p, word_end(s, p))),
            Some(end) => match number_value(s.subrange(p, end)) {
                None => Err(s.subrange(p, end)),
                Some(v) => prepend(seq![v], values_from(s, end)),
            },
        }
    } else {
        values_from(s, from + 1)
    }
}

#[via_fn]
proof fn values_from_decreases(s: Seq<char>, from: int) {
    if from < s.len() && starts_at(s, from, value_marker()) {
        lemma_number_end_bounds(s, from + value_marker().len());
    }
}

/// The t-statistics on a line, in the order in which they stand.
pub open spec fn values_in(s: Seq<char>) -> Scanned {
    values_from(s, 0)
}

/// The values of a vector of statistics.
pub open spec fn values(v: Seq<TStatistic>) -> Seq<int> {
    v.map_values(|t: TStatistic| t@)
}

/// A run of digits ends between its start and the end of the line, is no
/// longer than its limit, and holds digits only.
pub proof fn lemma_digits_end_bounds(s: Seq<char>, from: int, limit: nat)
    requires
        0 <= from <= s.len(),
    ensures
        from <= digits_end(s, from, limit) <= s.len(),
        digits_end(s, from, limit) <= from + limit,
        forall|i: int| from <= i < digits_end(s, from, limit) ==> is_digit(#[trigger] s[i]),
    decreases limit,
{
    if limit > 0 && from < s.len() && is_digit(s[from]) {
        lemma_digits_end_bounds(s, from + 1, (limit - 1) as nat);
    }
}

/// Numeric text is not empty, ends within the line and has at most twelve
/// characters.
pub proof fn lemma_number_end_bounds(s: Seq<char>, p: int)
    requires
        0 <= p,
    ensures
        number_end(s, p) matches Some(end) ==> p < end <= s.len() && end <= p + 12,
{
    if p < s.len() && is_sign(s[p]) {
        lemma_digits_end_bounds(s, p + 1, 5);
        let i = digits_end(s, p + 1, 5);
        if i < s.len() {
            lemma_digits_end_bounds(s, i + 1, 5);
        }
    }
}

fn digit_char(c: char) -> (b: bool)
    ensures
        b == is_digit(c),
{
    '0' <= c && c <= '9'
}

/// Finds the end of the run of at most `limit` digits that begins at `from`.
fn digit_run_end(chars: &[char], from: usize, limit: usize) -> (end: usize)
    requires
        from <= chars@.len(),
    ensures
        end == digits_end(chars@, from as int, limit as nat),
        from <= end <= chars@.len(),
        end <= from + limit,
{
    let n = chars.len();
    let mut end: usize = from;
    let mut left: usize = limit;
    while left > 0 && end < n && digit_char(chars[end])
        invariant
            from <= end <= n,
            n == chars@.len(),
            end + left == from + limit,
            digits_end(chars@, from as int, limit as nat) == digits_end(
                chars@,
                end as int,
                left as nat,
            ),
        decreases left,
    {
        end += 1;
        left -= 1;
    }
    end
}

/// Finds the end of the numeric text that begins at `p`.
fn numeric_end(chars: &[char], p: usize) -> (end: Option<usize>)
    ensures
        end matches Some(e) ==> number_end(chars@, p as int) == Some(e as int) && p < e
            <= chars@.len() && e <= p + 12,
        end is None ==> number_end(chars@, p as int) is None,
{
    let n = chars.len();
    if p >= n || !(chars[p] == '+' || chars[p] == '-') {
        return None;
    }
    let i = digit_run_end(chars, p + 1, 5);
    if i < n && chars[i] != '\n' {
        Some(digit_run_end(chars, i + 1, 5))
    } else if i > p + 1 {
        Some(i)
    } else {
        None
    }
}

/// Finds the end of the word that begins at `from`.
fn word_run_end(chars: &[char], from: usize) -> (end: usize)
    requires
        from <= chars@.len(),
    ensures
        end == word_end(chars@, from as int),
        from <= end <= chars@.len(),
{
    let n = chars.len();
    let mut end: usize = from;
    while end < n && chars[end] != ' '
        invariant
            from <= end <= n,
            n == chars@.len(),
            word_end(chars@, from as int) == word_end(chars@, end as int),
        decreases n - end,
    {
        end += 1;
    }
    end
}

/// Tells whether every character is a digit.
fn only_digits(text: &[char]) -> (b: bool)
    ensures
        b == all_digits(text@),
{
    let n = text.len();
    let mut i: usize = 0;
    while i < n
        invariant
            i <= n,
            n == text@.len(),
            forall|j: int| 0 <= j < i ==> is_digit(#[trigger] text@[j]),
        decreases n - i,
    {
        if !digit_char(text[i]) {
            assert(!is_digit(text@[i as int]));
            return false;
        }
        i += 1;
    }
    true
}

/// Reads the digits of `digits` behind the number `start`, which stands for
/// the digits `front`.
fn read_digits(digits: &[char], Ghost(front): Ghost<Seq<char>>, start: u64) -> (value: u64)
    requires
        all_digits(digits@),
        front.len() + digits@.len() <= 11,
        start == digits_value(front),
        start < pow10(front.len()),
    ensures
        value == digits_value(front + digits@),
        value < pow10(front.len() + digits@.len()),
{
    let n = digits.len();
    let mut value: u64 = start;
    let mut i: usize = 0;
    assert(front + digits@.subrange(0, 0) =~= front);
    while i < n
        invariant
            i <= n,
            n == digits@.len(),
            all_digits(digits@),
            front.len() + n <= 11,
            value == digits_value(front + digits@.subrange(0, i as int)),
            value < pow10((front.len() + i) as nat),
        decreases n - i,
    {
        let c = digits[i];
        let d: u64 = (c as u32 - '0' as u32) as u64;
        proof {
            let before = front + digits@.subrange(0, i as int);
            let after = front + digits@.subrange(0, i + 1);
            assert(after.drop_last() =~= before);
            assert(after.last() == c);
            lemma_pow10_increases((front.len() + i + 1) as nat, 11);
            reveal_with_fuel(pow10, 12);
            assert(pow10(11) == 100_000_000_000);
        }
        value = value * 10 + d;
        i += 1;
    }
    assert(front + digits@.subrange(0, n as int) =~= front + digits@);
    value
}

/// Reads numeric text of at most twelve characters.
fn parse_number(token: &[char]) -> (number: Option<TStatistic>)
    requires
        token@.len() <= 12,
    ensures
        number matches Some(t) ==> number_value(token@) == Some(t@),
        number is None ==> number_value(token@) is None,
{
    let n = token.len();
    if n < 2 || !(token[0] == '+' || token[0] == '-') {
        return None;
    }
    let negative = token[0] == '-';
    let body = slice_subrange(token, 1, n);
    let len = n - 1;
    let a = digit_run_end(body, 0, len);
    let whole_text = slice_subrange(body, 0, a);
    proof {
        lemma_digits_end_bounds(body@, 0, len as nat);
        assert(pow10(0) == 1);
    }
    let whole = read_digits(whole_text, Ghost(Seq::empty()), 0);
    assert(Seq::<char>::empty() + whole_text@ =~= whole_text@);
    if a == len {
        assert(whole_text@ =~= body@);
        return Some(TStatistic::from_parts(negative, whole, 0));
    }
    let sep = body[a];
    let rest = slice_subrange(body, a + 1, len);
    let b = len - a - 1;
    if !only_digits(rest) {
        return None;
    }
    if b > 5 {
        return None;
    }
    proof {
        lemma_pow10_increases(5, 5);
        reveal_with_fuel(pow10, 6);
        assert(pow10(5) == 100_000);
    }
    if sep == '.' {
        if a + b >= 1 {
            let mantissa = read_digits(rest, Ghost(whole_text@), whole);
            Some(TStatistic::from_parts(negative, mantissa, -(b as i32)))
        } else {
            None
        }
    } else if sep == 'e' || sep == 'E' {
        if a >= 1 && b >= 1 {
            let power = read_digits(rest, Ghost(Seq::empty()), 0);
            assert(Seq::<char>::empty() + rest@ =~= rest@);
            proof {
                lemma_pow10_increases(rest@.len(), 5);
            }
            Some(TStatistic::from_parts(negative, whole, power as i32))
        } else {
            None
        }
    } else {
        None
    }
}

/// The t-statistics on a line: the number behind every `max t =`, in the
/// order in which they stand.
///
/// The scan fails on the first marker that no number follows, and hands
/// back the text that it found in the number's place.
pub fn scan_t_values(line: &str) -> (found: Result<Vec<TStatistic>, String>)
    ensures
        found matches Ok(v) ==> values_in(line@) == Ok::<Seq<int>, Seq<char>>(values(v@)),
        found matches Err(text) ==> values_in(line@) == Err::<Seq<int>, Seq<char>>(text@),
{
    let owned = chars_of(line);
    let chars = owned.as_slice();
    let marker_owned = chars_of("max t = ");
    let marker = marker_owned.as_slice();
    let n = chars.len();
    let m = marker.len();
    let mut found: Vec<TStatistic> = Vec::new();
    let mut pos: usize = 0;
    assert(values(found@) =~= Seq::<int>::empty());
    while pos < n
        invariant
            pos <= n,
            n == chars@.len(),
            m == marker@.len(),
            marker@ == value_marker(),
            chars@ == line@,
            prepend(values(found@), values_from(chars@, pos as int)) == values_from(chars@, 0),
        decreases n - pos,
    {
        if has_marker(chars, pos, marker) {
            let p = pos + m;
            match numeric_end(chars, p) {
                None => {
                    let end = word_run_end(chars, p);
                    return Err(line.substring_char(p, end).to_owned());
                },
                Some(end) => {
                    let token = slice_subrange(chars, p, end);
                    match parse_number(token) {
                        None => {
                            return Err(line.substring_char(p, end).to_owned());
                        },
                        Some(t) => {
                            let ghost before = values(found@);
                            found.push(t);
                            assert(values(found@) =~= before + seq![t@]);
                            proof {
                                if let Ok(rest) = values_from(chars@, end as int) {
                                    assert(before + (seq![t@] + rest) =~= (before + seq![t@])
                                        + rest);
                                }
                            }
                            pos = end;
                        },
                    }
                },
            }
        } else {
            pos += 1;
        }
    }
    assert(values(found@) + Seq::<int>::empty() =~= values(found@));
    Ok(found)
}

} // verus!
