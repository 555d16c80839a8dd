//! Cutting text into lines, words and numbers.

use vstd::prelude::*;

verus! {

/// The place of the first `c` in `s` from `from` on: the length of `s`, where there is none.
pub open spec fn find_from(s: Seq<char>, c: char, from: int) -> int
    decreases s.len() - from,
{
    if from < 0 || from >= s.len() {
        s.len() as int
    } else if s[from] == c {
        from
    } else {
        find_from(s, c, from + 1)
    }
}

/// The place of the first `c` in `s`: the length of `s`, where there is none.
pub open spec fn find(s: Seq<char>, c: char) -> int {
    find_from(s, c, 0)
}

pub proof fn lemma_find_from(s: Seq<char>, c: char, from: int)
    requires
        0 <= from <= s.len(),
    ensures
        from <= find_from(s, c, from) <= s.len(),
        find_from(s, c, from) < s.len() ==> s[find_from(s, c, from)] == c,
        forall|i: int| from <= i < find_from(s, c, from) ==> s[i] != c,
    decreases s.len() - from,
{
    if from < s.len() && s[from] != c {
        lemma_find_from(s, c, from + 1);
    }
}

/// A line without the carriage return at its end.
pub open spec fn strip_return(s: Seq<char>) -> Seq<char> {
    if s.len() > 0 && s.last() == '\r' {
        s.drop_last()
    } else {
        s
    }
}

/// The lines of `s` from `from` on.
pub open spec fn lines_from(s: Seq<char>, from: int) -> Seq<Seq<char>>
    decreases s.len() - from,
{
    let end = find_from(s, '\n', from);
    if from >= s.len() {
        Seq::empty()
    } else if !(from <= end < s.len()) {
        seq![s.subrange(from, s.len() as int)]
    } else {
        seq![strip_return(s.subrange(from, end))] + lines_from(s, end + 1)
    }
}

/// The lines of `s`: each ends at a line feed, which is dropped with a carriage return before it,
/// or at the end of `s`.
pub open spec fn lines_spec(s: Seq<char>) -> Seq<Seq<char>> {
    lines_from(s, 0)
}

/// A line of a text holds no line feed, and it stands at the text's start or behind a line feed.
pub proof fn lemma_line(s: Seq<char>, from: int, i: int)
    requires
        0 <= from,
        from == 0 || from <= s.len() && s[from - 1] == '\n',
        0 <= i < lines_from(s, from).len(),
    ensures
        !lines_from(s, from)[i].contains('\n'),
        exists|at: int|
            (at == 0 || 0 < at <= s.len() && s[at - 1] == '\n') && #[trigger] stands_at(
                s,
                lines_from(s, from)[i],
                at,
            ),
    decreases s.len() - from,
{
    lemma_find_from(s, '\n', from);
    let end = find_from(s, '\n', from);
    let line = lines_from(s, from)[i];
    if i == 0 {
        assert(line.len() <= s.len() - from && s.subrange(from, from + line.len()) =~= line);
        assert(stands_at(s, line, from));
    } else {
        assert(line == lines_from(s, end + 1)[i - 1]);
        lemma_line(s, end + 1, i - 1);
    }
}

/// The pieces between the `c`s of `s` from `from` on.
pub open spec fn split_from(s: Seq<char>, c: char, from: int) -> Seq<Seq<char>>
    decreases s.len() - from,
{
    let end = find_from(s, c, from);
    if !(from <= end < s.len()) {
        seq![s.subrange(from, s.len() as int)]
    } else {
        seq![s.subrange(from, end)] + split_from(s, c, end + 1)
    }
}

/// The pieces between the `c`s of `s`.
pub open spec fn split_spec(s: Seq<char>, c: char) -> Seq<Seq<char>> {
    split_from(s, c, 0)
}

/// The pieces that are not empty.
pub open spec fn not_empty(pieces: Seq<Seq<char>>) -> Seq<Seq<char>> {
    pieces.filter(|piece: Seq<char>| piece.len() > 0)
}

/// The words of `s`: what stands between its spaces.
pub open spec fn words_spec(s: Seq<char>) -> Seq<Seq<char>> {
    not_empty(split_spec(s, ' '))
}

/// Whether Unicode counts `c` as white space.
pub open spec fn is_white(c: char) -> bool {
    ||| '\u{9}' <= c <= '\u{d}'
    ||| c == ' ' || c == '\u{85}' || c == '\u{a0}' || c == '\u{1680}'
    ||| '\u{2000}' <= c <= '\u{200a}'
    ||| c == '\u{2028}' || c == '\u{2029}' || c == '\u{202f}' || c == '\u{205f}' || c == '\u{3000}'
}

/// `s` without the white space it starts with.
pub open spec fn trim_start(s: Seq<char>) -> Seq<char>
    decreases s.len(),
{
    if s.len() > 0 && is_white(s[0]) {
        trim_start(s.drop_first())
    } else {
        s
    }
}

/// `s` without the white space it ends with.
pub open spec fn trim_end(s: Seq<char>) -> Seq<char>
    decreases s.len(),
{
    if s.len() > 0 && is_white(s.last()) {
        trim_end(s.drop_last())
    } else {
        s
    }
}

/// `s` without the white space round it.
pub open spec fn trim_spec(s: Seq<char>) -> Seq<char> {
    trim_end(trim_start(s))
}

/// The part of `s` before its first `c`, or all of it.
pub open spec fn before_spec(s: Seq<char>, c: char) -> Seq<char> {
    s.subrange(0, find(s, c))
}

/// The two parts of `s` round its first `c`.
pub open spec fn split_once_spec(s: Seq<char>, c: char) -> Option<(Seq<char>, Seq<char>)> {
    if find(s, c) < s.len() {
        Some((s.subrange(0, find(s, c)), s.subrange(find(s, c) + 1, s.len() as int)))
    } else {
        None
    }
}

/// Whether every character of `s` is a decimal digit.
pub open spec fn all_digits(s: Seq<char>) -> bool {
    forall|i: int| 0 <= i < s.len() ==> '0' <= #[trigger] s[i] <= '9'
}

/// The number that the digits `s` write down.
pub open spec fn decimal(s: Seq<char>) -> int
    decreases s.len(),
{
    if s.len() == 0 {
        0
    } else {
        decimal(s.drop_last()) * 10 + (s.last() as int - '0' as int)
    }
}

/// The digits of a number without its sign.
pub open spec fn unsigned_digits(s: Seq<char>) -> Seq<char> {
    if s.len() > 0 && s[0] == '+' {
        s.drop_first()
    } else {
        s
    }
}

/// The number up to `max` that `s` writes down, if it does: digits, with a plus sign before them
/// or not.
pub open spec fn parse_unsigned_spec(s: Seq<char>, max: int) -> Option<int> {
    let digits = unsigned_digits(s);
    if digits.len() > 0 && all_digits(digits) && decimal(digits) <= max {
        Some(decimal(digits))
    } else {
        None
    }
}

/// The views of a list of texts.
pub open spec fn views(v: Seq<&str>) -> Seq<Seq<char>> {
    v.map_values(|s: &str| s@)
}

pub proof fn lemma_views_push(v: Seq<&str>, s: &str)
    ensures
        views(v.push(s)) =~= views(v).push(s@),
{
}

/// The characters of a text.
pub fn chars(s: &str) -> (r: Vec<char>)
    ensures
        r@ == s@,
{
    let mut r: Vec<char> = Vec::new();
    for c in it: s.chars()
        invariant
            r@ == s@.take(it.index()),
            it.seq() == s@,
    {
        r.push(c);
    }
    assert(s@.take(s@.len() as int) =~= s@);
    r
}

/// Whether two texts are the same.
pub fn equals(a: &str, b: &str) -> (r: bool)
    ensures
        r == (a@ == b@),
{
    let n: usize = a.unicode_len();
    if n != b.unicode_len() {
        return false;
    }
    let mut i: usize = 0;
    while i < n
        invariant
            i <= n,
            n == a@.len(),
            n == b@.len(),
            forall|j: int| 0 <= j < i ==> a@[j] == b@[j],
        decreases n - i,
    {
        if a.get_char(i) != b.get_char(i) {
            return false;
        }
        i += 1;
    }
    assert(a@ =~= b@);
    true
}

fn find_char(s: &Vec<char>, c: char, from: usize) -> (r: usize)
    requires
        from <= s@.len(),
    ensures
        r == find_from(s@, c, from as int),
        from <= r <= s@.len(),
        r < s@.len() ==> s@[r as int] == c,
{
    let mut i: usize = from;
    while i < s.len() && s[i] != c
        invariant
            from <= i <= s@.len(),
            find_from(s@, c, from as int) == find_from(s@, c, i as int),
        decreases s@.len() - i,
    {
        i += 1;
    }
    i
}

/// The lines of a text.
pub fn lines<'a>(s: &'a str) -> (r: Vec<&'a str>)
    ensures
        views(r@) == lines_spec(s@),
{
    let text = chars(s);
    let mut result: Vec<&'a str> = Vec::new();
    let mut from: usize = 0;
    while from < text.len()
        invariant
            text@ == s@,
            from <= s@.len(),
            views(result@) + lines_from(s@, from as int) == lines_spec(s@),
        decreases s@.len() - from,
    {
        let end: usize = find_char(&text, '\n', from);
        let ghost before = result@;
        if end < text.len() {
            let mut stop: usize = end;
            if end > from && text[end - 1] == '\r' {
                stop = end - 1;
            }
            let line = s.substring_char(from, stop);
            assert(line@ =~= strip_return(s@.subrange(from as int, end as int)));
            result.push(line);
            proof {
                lemma_views_push(before, line);
                assert(views(result@) + lines_from(s@, end + 1) =~= views(before) + lines_from(
                    s@,
                    from as int,
                ));
            }
            from = end + 1;
        } else {
            let line = s.substring_char(from, end);
            result.push(line);
            proof {
                lemma_views_push(before, line);
                assert(views(result@) + lines_from(s@, end as int) =~= views(before) + lines_from(
                    s@,
                    from as int,
                ));
            }
            from = end;
        }
    }
    assert(views(result@) + Seq::<Seq<char>>::empty() =~= views(result@));
    result
}

/// The pieces between the `c`s of a text.
pub fn split<'a>(s: &'a str, c: char) -> (r: Vec<&'a str>)
    ensures
        views(r@) == split_spec(s@, c),
{
    let text = chars(s);
    let mut result: Vec<&'a str> = Vec::new();
    let mut from: usize = 0;
    loop
        invariant
            text@ == s@,
            from <= s@.len(),
            views(result@) + split_from(s@, c, from as int) == split_spec(s@, c),
        decreases s@.len() - from,
    {
        let end: usize = find_char(&text, c, from);
        let ghost before = result@;
        let piece = s.substring_char(from, end);
        result.push(piece);
        proof {
            lemma_views_push(before, piece);
        }
        if end < text.len() {
            proof {
                assert(views(result@) + split_from(s@, c, end + 1) =~= views(before) + split_from(
                    s@,
                    c,
                    from as int,
                ));
            }
            from = end + 1;
        } else {
            assert(views(result@) =~= views(before) + split_from(s@, c, from as int));
            return result;
        }
    }
}

/// The words of a text: what stands between its spaces.
pub fn words<'a>(s: &'a str) -> (r: Vec<&'a str>)
    ensures
        views(r@) == words_spec(s@),
{
    let pieces = split(s, ' ');
    let mut result: Vec<&'a str> = Vec::new();
    let mut i: usize = 0;
    while i < pieces.len()
        invariant
            i <= pieces@.len(),
            views(result@) == not_empty(views(pieces@).take(i as int)),
        decreases pieces@.len() - i,
    {
        let piece = pieces[i];
        let ghost before = result@;
        proof {
            assert(views(pieces@).take(i + 1) =~= views(pieces@).take(i as int).push(piece@));
            reveal(Seq::filter);
            assert(views(pieces@).take(i + 1).drop_last() =~= views(pieces@).take(i as int));
        }
        if !piece.is_empty() {
            result.push(piece);
            proof {
                lemma_views_push(before, piece);
            }
        }
        i += 1;
    }
    assert(views(pieces@).take(pieces@.len() as int) =~= views(pieces@));
    result
}

/// Whether Unicode counts `c` as white space.
pub fn is_white_space(c: char) -> (r: bool)
    ensures
        r == is_white(c),
{
    ('\u{9}' <= c && c <= '\u{d}') || c == ' ' || c == '\u{85}' || c == '\u{a0}' || c == '\u{1680}'
        || ('\u{2000}' <= c && c <= '\u{200a}') || c == '\u{2028}' || c == '\u{2029}' || c
        == '\u{202f}' || c == '\u{205f}' || c == '\u{3000}'
}

/// The text without the white space round it.
pub fn trim<'a>(s: &'a str) -> (r: &'a str)
    ensures
        r@ == trim_spec(s@),
{
    let text = chars(s);
    let mut from: usize = 0;
    assert(s@.subrange(0, s@.len() as int) =~= s@);
    while from < text.len() && is_white_space(text[from])
        invariant
            text@ == s@,
            from <= s@.len(),
            trim_start(s@) == trim_start(s@.subrange(from as int, s@.len() as int)),
        decreases s@.len() - from,
    {
        assert(s@.subrange(from as int, s@.len() as int).drop_first() =~= s@.subrange(
            from + 1,
            s@.len() as int,
        ));
        from += 1;
    }
    let mut to: usize = text.len();
    while to > from && is_white_space(text[to - 1])
        invariant
            text@ == s@,
            from <= to <= s@.len(),
            trim_spec(s@) == trim_end(s@.subrange(from as int, to as int)),
        decreases to,
    {
        assert(s@.subrange(from as int, to as int).drop_last() =~= s@.subrange(
            from as int,
            to - 1,
        ));
        to -= 1;
    }
    s.substring_char(from, to)
}

/// The part of a text before its first `c`, or all of it.
pub fn before<'a>(s: &'a str, c: char) -> (r: &'a str)
    ensures
        r@ == before_spec(s@, c),
{
    let text = chars(s);
    let end: usize = find_char(&text, c, 0);
    s.substring_char(0, end)
}

/// The two parts of a text round its first `c`.
pub fn split_once<'a>(s: &'a str, c: char) -> (r: Option<(&'a str, &'a str)>)
    ensures
        match r {
            Some((a, b)) => split_once_spec(s@, c) == Some((a@, b@)),
            None => split_once_spec(s@, c) is None,
        },
{
    let text = chars(s);
    let end: usize = find_char(&text, c, 0);
    if end < text.len() {
        Some((s.substring_char(0, end), s.substring_char(end + 1, text.len())))
    } else {
        None
    }
}

/// Whether a text ends with `c`.
pub fn ends_with(s: &str, c: char) -> (r: bool)
    ensures
        r == (s@.len() > 0 && s@.last() == c),
{
    let n: usize = s.unicode_len();
    n > 0 && s.get_char(n - 1) == c
}

proof fn lemma_decimal_grows(s: Seq<char>, i: int)
    requires
        all_digits(s),
        0 <= i <= s.len(),
    ensures
        0 <= decimal(s.take(i)) <= decimal(s),
    decreases s.len(), s.len() - i,
{
    if i < s.len() {
        lemma_decimal_grows(s.drop_last(), i);
        assert(s.drop_last().take(i) =~= s.take(i));
    } else {
        assert(s.take(i) =~= s);
        if s.len() > 0 {
            lemma_decimal_grows(s.drop_last(), s.len() - 1);
            assert(s.drop_last().take(s.len() - 1) =~= s.drop_last());
        }
    }
}

/// A number that a text writes down is not negative and not above what is allowed. One more digit
/// makes it ten times as large and adds the digit; a plus sign before it changes nothing.
pub proof fn law_unsigned_numbers(s: Seq<char>, digit: char, max: int)
    requires
        '0' <= digit <= '9',
    ensures
        parse_unsigned_spec(s, max) matches Some(v) ==> 0 <= v <= max,
        parse_unsigned_spec(s, max) matches Some(v) ==> parse_unsigned_spec(s.push(digit), 10 * max + 9)
            == Some(10 * v + (digit as int - 48)),
        0 <= digit as int - 48 <= max ==> parse_unsigned_spec(seq![digit], max) == Some(
            digit as int - 48,
        ),
        s.len() > 0 && s[0] != '+' ==> parse_unsigned_spec(seq!['+'] + s, max)
            == parse_unsigned_spec(s, max),
{
    let digits = unsigned_digits(s);
    if parse_unsigned_spec(s, max) is Some {
        lemma_decimal_grows(digits, 0);
        assert(digits.take(0) =~= Seq::<char>::empty());
        assert(unsigned_digits(s.push(digit)) =~= digits.push(digit));
        assert(digits.push(digit).drop_last() =~= digits);
        assert(all_digits(digits.push(digit)));
    }
    assert(seq![digit].drop_last() =~= Seq::<char>::empty());
    assert(decimal(Seq::<char>::empty()) == 0);
    assert(unsigned_digits(seq![digit]) =~= seq![digit]);
    assert((seq!['+'] + s).drop_first() =~= s);
}

/// A minus sign before a number makes it negative; nothing else does.
pub proof fn law_signed_numbers(s: Seq<char>, min: int, max: int)
    requires
        s.len() > 0,
        '0' <= s[0] <= '9',
        min <= 0,
    ensures
        parse_signed_spec(s, min, max) == parse_unsigned_spec(s, max),
        parse_signed_spec(seq!['+'] + s, min, max) == parse_unsigned_spec(s, max),
        parse_unsigned_spec(s, -min) matches Some(v) ==> parse_signed_spec(
            seq!['-'] + s,
            min,
            max,
        ) == if -v <= max {
            Some(-v)
        } else {
            None
        },
{
    assert((seq!['+'] + s).drop_first() =~= s);
    assert((seq!['-'] + s).drop_first() =~= s);
    if all_digits(s) {
        lemma_decimal_grows(s, 0);
        assert(s.take(0) =~= Seq::<char>::empty());
    }
}

/// The number up to `max` that a text writes down, if it does.
pub fn parse_unsigned(s: &str, max: u64) -> (r: Option<u64>)
    ensures
        match r {
            Some(v) => parse_unsigned_spec(s@, max as int) == Some(v as int),
            None => parse_unsigned_spec(s@, max as int) is None,
        },
{
    let text = chars(s);
    let start: usize = if text.len() > 0 && text[0] == '+' {
        1
    } else {
        0
    };
    assert(unsigned_digits(s@) =~= s@.subrange(start as int, s@.len() as int));
    parse_digits(&text, start, max)
}

/// The sixteen-bit number that a text writes down, if it does.
pub fn parse_u16(s: &str) -> (r: Option<u16>)
    ensures
        match r {
            Some(v) => parse_unsigned_spec(s@, u16::MAX as int) == Some(v as int),
            None => parse_unsigned_spec(s@, u16::MAX as int) is None,
        },
{
    match parse_unsigned(s, u16::MAX as u64) {
        Some(v) => Some(v as u16),
        None => None,
    }
}

proof fn lemma_trim_start(s: Seq<char>)
    ensures
        trim_start(s).len() > 0 ==> !is_white(trim_start(s)[0]),
    decreases s.len(),
{
    if s.len() > 0 && is_white(s[0]) {
        lemma_trim_start(s.drop_first());
    }
}

proof fn lemma_trim_end(s: Seq<char>)
    ensures
        trim_end(s).len() <= s.len(),
        trim_end(s) == s.take(trim_end(s).len() as int),
        trim_end(s).len() > 0 ==> !is_white(trim_end(s).last()),
    decreases s.len(),
{
    if s.len() > 0 && is_white(s.last()) {
        lemma_trim_end(s.drop_last());
        assert(trim_end(s) =~= s.take(trim_end(s).len() as int));
    } else {
        assert(s =~= s.take(s.len() as int));
    }
}

/// A trimmed text neither starts nor ends with white space.
pub proof fn law_trimmed(s: Seq<char>)
    ensures
        trim_spec(s).len() > 0 ==> !is_white(trim_spec(s)[0]) && !is_white(trim_spec(s).last()),
{
    lemma_trim_start(s);
    lemma_trim_end(trim_start(s));
}

proof fn lemma_filter_holds(s: Seq<Seq<char>>, f: spec_fn(Seq<char>) -> bool, i: int)
    requires
        0 <= i < s.len(),
        f(s[i]),
    ensures
        s.filter(f).len() > 0,
    decreases s.len(),
{
    reveal(Seq::filter);
    if i < s.len() - 1 {
        lemma_filter_holds(s.drop_last(), f, i);
    }
}

/// A text that starts with no space has a word.
pub proof fn lemma_has_words(s: Seq<char>)
    requires
        s.len() > 0,
        s[0] != ' ',
    ensures
        words_spec(s).len() > 0,
{
    lemma_find_from(s, ' ', 0);
    let end = find_from(s, ' ', 0);
    assert(end > 0);
    let pieces = split_spec(s, ' ');
    let filled = |piece: Seq<char>| piece.len() > 0;
    assert(pieces[0] == s.subrange(0, end));
    lemma_filter_holds(pieces, filled, 0);
}

/// The digits of a number that may have a minus sign.
pub open spec fn signed_digits(s: Seq<char>) -> Seq<char> {
    if s.len() > 0 && (s[0] == '+' || s[0] == '-') {
        s.drop_first()
    } else {
        s
    }
}

/// The number from `min` to `max` that `s` writes down, if it does: digits, with a sign before them
/// or not.
pub open spec fn parse_signed_spec(s: Seq<char>, min: int, max: int) -> Option<int> {
    let digits = signed_digits(s);
    let value = if s.len() > 0 && s[0] == '-' {
        -decimal(digits)
    } else {
        decimal(digits)
    };
    if digits.len() > 0 && all_digits(digits) && min <= value <= max {
        Some(value)
    } else {
        None
    }
}

/// The number that digits write down, up to `max`.
fn parse_digits(digits: &Vec<char>, start: usize, max: u64) -> (r: Option<u64>)
    requires
        start <= digits@.len(),
    ensures
        ({
            let s = digits@.subrange(start as int, digits@.len() as int);
            match r {
                Some(v) => s.len() > 0 && all_digits(s) && decimal(s) == v && v <= max,
                None => s.len() == 0 || !all_digits(s) || decimal(s) > max,
            }
        }),
{
    let ghost s = digits@.subrange(start as int, digits@.len() as int);
    if digits.len() == start {
        return None;
    }
    let mut value: u64 = 0;
    let mut i: usize = start;
    while i < digits.len()
        invariant
            start <= i <= digits@.len(),
            start < digits@.len(),
            s == digits@.subrange(start as int, digits@.len() as int),
            all_digits(s.take(i - start)),
            value == decimal(s.take(i - start)),
            value <= max,
        decreases digits@.len() - i,
    {
        let c = digits[i];
        assert(s[i - start] == c);
        if c < '0' || '9' < c {
            return None;
        }
        let digit: u64 = c as u64 - '0' as u64;
        proof {
            let next = s.take(i + 1 - start);
            assert(next.drop_last() =~= s.take(i - start));
            assert(next.last() == c);
            assert(all_digits(next));
            if all_digits(s) {
                lemma_decimal_grows(s, i + 1 - start);
            }
        }
        if digit > max || value > (max - digit) / 10 {
            assert(value * 10 + digit > max);
            return None;
        }
        value = value * 10 + digit;
        i += 1;
    }
    assert(s.take(s.len() as int) =~= s);
    Some(value)
}

/// The thirty-two-bit number that a text writes down, if it does.
pub fn parse_i32(s: &str) -> (r: Option<i32>)
    ensures
        match r {
            Some(v) => parse_signed_spec(s@, i32::MIN as int, i32::MAX as int) == Some(v as int),
            None => parse_signed_spec(s@, i32::MIN as int, i32::MAX as int) is None,
        },
{
    let text = chars(s);
    if text.len() > 0 && (text[0] == '+' || text[0] == '-') {
        assert(signed_digits(s@) =~= s@.subrange(1, s@.len() as int));
        if text[0] == '-' {
            match parse_digits(&text, 1, 0x8000_0000) {
                Some(v) => Some((-(v as i64)) as i32),
                None => None,
            }
        } else {
            match parse_digits(&text, 1, 0x7fff_ffff) {
                Some(v) => Some(v as i32),
                None => {
                    proof {
                        let digits = signed_digits(s@);
                        if all_digits(digits) {
                            lemma_decimal_grows(digits, 0);
                        }
                    }
                    None
                },
            }
        }
    } else {
        assert(signed_digits(s@) =~= s@.subrange(0, s@.len() as int));
        match parse_digits(&text, 0, 0x7fff_ffff) {
            Some(v) => Some(v as i32),
            None => None,
        }
    }
}

/// The number that a text writes down, if it does.
pub fn parse_usize(s: &str) -> (r: Option<usize>)
    ensures
        match r {
            Some(v) => parse_unsigned_spec(s@, usize::MAX as int) == Some(v as int),
            None => parse_unsigned_spec(s@, usize::MAX as int) is None,
        },
{
    match parse_unsigned(s, usize::MAX as u64) {
        Some(v) => Some(v as usize),
        None => None,
    }
}

/// A letter of the English alphabet as a small one; any other character as it is.
pub open spec fn small(c: char) -> char {
    if 'A' <= c <= 'Z' {
        ((c as u32 + 32) as u32) as char
    } else {
        c
    }
}

/// Whether `s` reads `word`, in small letters or not.
pub open spec fn reads(s: Seq<char>, word: Seq<char>) -> bool {
    s.len() == word.len() && forall|i: int| 0 <= i < s.len() ==> small(#[trigger] s[i]) == word[i]
}

/// The place of the first `e` or `E` in `s` from `from` on: the length of `s`, where there is none.
pub open spec fn find_exponent(s: Seq<char>, from: int) -> int
    decreases s.len() - from,
{
    if from < 0 || from >= s.len() {
        s.len() as int
    } else if s[from] == 'e' || s[from] == 'E' {
        from
    } else {
        find_exponent(s, from + 1)
    }
}

/// Whether `s` is made of digits, with a point among them or not.
pub open spec fn is_mantissa(s: Seq<char>) -> bool {
    let point = find(s, '.');
    if point < s.len() {
        &&& all_digits(s.subrange(0, point))
        &&& all_digits(s.subrange(point + 1, s.len() as int))
        &&& s.len() > 1
    } else {
        all_digits(s) && s.len() > 0
    }
}

/// Whether `s` writes down a decimal number, with an exponent or not.
pub open spec fn is_decimal_text(s: Seq<char>) -> bool {
    let e = find_exponent(s, 0);
    if e < s.len() {
        let digits = signed_digits(s.subrange(e + 1, s.len() as int));
        is_mantissa(s.subrange(0, e)) && digits.len() > 0 && all_digits(digits)
    } else {
        is_mantissa(s)
    }
}

/// Whether `s` writes down a number with a fraction, with a sign or not: a decimal number,
/// an infinity, or no number at all.
pub open spec fn is_real_text(s: Seq<char>) -> bool {
    let body = signed_digits(s);
    reads(body, "inf"@) || reads(body, "infinity"@) || reads(body, "nan"@) || is_decimal_text(body)
}

fn reads_word(text: &Vec<char>, from: usize, word: &str) -> (r: bool)
    requires
        from <= text@.len(),
    ensures
        r == reads(text@.subrange(from as int, text@.len() as int), word@),
{
    let n: usize = word.unicode_len();
    let length: usize = text.len();
    if length - from != n {
        return false;
    }
    let ghost s = text@.subrange(from as int, text@.len() as int);
    let mut i: usize = 0;
    while i < n
        invariant
            i <= n,
            n == word@.len(),
            length == text@.len(),
            from + n == length,
            s == text@.subrange(from as int, text@.len() as int),
            forall|j: int| 0 <= j < i ==> small(#[trigger] s[j]) == word@[j],
        decreases n - i,
    {
        let c = text[from + i];
        assert(s[i as int] == c);
        let w = word.get_char(i);
        let same = if 'A' <= c && c <= 'Z' {
            c as u32 + 32 == w as u32
        } else {
            c == w
        };
        if !same {
            assert(small(s[i as int]) != word@[i as int]);
            return false;
        }
        i += 1;
    }
    true
}

fn are_digits(text: &Vec<char>, from: usize, to: usize) -> (r: bool)
    requires
        from <= to <= text@.len(),
    ensures
        r == all_digits(text@.subrange(from as int, to as int)),
{
    let ghost s = text@.subrange(from as int, to as int);
    let mut i: usize = from;
    while i < to
        invariant
            from <= i <= to <= text@.len(),
            s == text@.subrange(from as int, to as int),
            forall|j: int| 0 <= j < i - from ==> '0' <= #[trigger] s[j] <= '9',
        decreases to - i,
    {
        let c = text[i];
        assert(s[i - from] == c);
        if c < '0' || '9' < c {
            return false;
        }
        i += 1;
    }
    true
}

proof fn lemma_find_within(s: Seq<char>, c: char, from: int, to: int, i: int)
    requires
        0 <= from <= i <= to <= s.len(),
        forall|j: int| from <= j < i ==> s[j] != c,
        i < to ==> s[i] == c,
    ensures
        find(s.subrange(from, to), c) == i - from,
{
    let part = s.subrange(from, to);
    lemma_find_from(part, c, 0);
    let f = find(part, c);
    if f < i - from {
        assert(part[f] == s[from + f]);
    } else if f > i - from {
        assert(part[i - from] == s[i]);
    }
}

fn is_mantissa_text(text: &Vec<char>, from: usize, to: usize) -> (r: bool)
    requires
        from <= to <= text@.len(),
    ensures
        r == is_mantissa(text@.subrange(from as int, to as int)),
{
    let mut point: usize = from;
    while point < to && text[point] != '.'
        invariant
            from <= point <= to <= text@.len(),
            forall|j: int| from <= j < point ==> text@[j] != '.',
        decreases to - point,
    {
        point += 1;
    }
    let ghost s = text@.subrange(from as int, to as int);
    proof {
        lemma_find_within(text@, '.', from as int, to as int, point as int);
    }
    if point < to {
        proof {
            assert(s.subrange(0, point - from) =~= text@.subrange(from as int, point as int));
            assert(s.subrange(point - from + 1, s.len() as int) =~= text@.subrange(
                point + 1,
                to as int,
            ));
        }
        are_digits(text, from, point) && are_digits(text, point + 1, to) && to - from > 1
    } else {
        are_digits(text, from, to) && to > from
    }
}

proof fn lemma_find_exponent(s: Seq<char>, from: int, i: int)
    requires
        0 <= from <= i <= s.len(),
        forall|j: int| from <= j < i ==> s[j] != 'e' && s[j] != 'E',
        i < s.len() ==> s[i] == 'e' || s[i] == 'E',
    ensures
        find_exponent(s, from) == i,
    decreases i - from,
{
    if from < i {
        lemma_find_exponent(s, from + 1, i);
    }
}

/// Whether a text writes down a number with a fraction.
pub fn is_real(s: &str) -> (r: bool)
    ensures
        r == is_real_text(s@),
{
    let text = chars(s);
    let from: usize = if text.len() > 0 && (text[0] == '+' || text[0] == '-') {
        1
    } else {
        0
    };
    let ghost body = signed_digits(s@);
    assert(body =~= s@.subrange(from as int, s@.len() as int));
    if reads_word(&text, from, "inf") || reads_word(&text, from, "infinity") || reads_word(
        &text,
        from,
        "nan",
    ) {
        return true;
    }
    let mut e: usize = from;
    while e < text.len() && text[e] != 'e' && text[e] != 'E'
        invariant
            text@ == s@,
            from <= e <= text@.len(),
            forall|j: int| from <= j < e ==> text@[j] != 'e' && text@[j] != 'E',
        decreases text@.len() - e,
    {
        e += 1;
    }
    proof {
        assert forall|j: int| 0 <= j < e - from implies body[j] != 'e' && body[j] != 'E' by {
            assert(body[j] == text@[from + j]);
        }
        lemma_find_exponent(body, 0, e - from);
        assert(body.subrange(0, e - from) =~= text@.subrange(from as int, e as int));
    }
    if e < text.len() {
        let start: usize = if e + 1 < text.len() && (text[e + 1] == '+' || text[e + 1] == '-') {
            e + 2
        } else {
            e + 1
        };
        proof {
            let tail = body.subrange(e - from + 1, body.len() as int);
            assert(tail =~= text@.subrange(e + 1, text@.len() as int));
            assert(signed_digits(tail) =~= text@.subrange(start as int, text@.len() as int));
        }
        is_mantissa_text(&text, from, e) && start < text.len() && are_digits(
            &text,
            start,
            text.len(),
        )
    } else {
        assert(body.subrange(0, e - from) =~= body);
        is_mantissa_text(&text, from, e)
    }
}

/// Appends a character.
///
/// `String::push` of the standard library: the text grows by the character.
#[verifier::external_body]
fn push_char(text: &mut String, c: char)
    ensures
        final(text)@ == old(text)@.push(c),
{
    text.push(c)
}

/// The text that characters make up.
pub fn from_chars(v: &Vec<char>) -> (r: String)
    ensures
        r@ == v@,
{
    let mut r = String::new();
    let mut i: usize = 0;
    while i < v.len()
        invariant
            i <= v@.len(),
            r@ == v@.take(i as int),
        decreases v@.len() - i,
    {
        push_char(&mut r, v[i]);
        assert(r@ =~= v@.take(i + 1));
        i += 1;
    }
    assert(v@.take(v@.len() as int) =~= v@);
    r
}

/// Whether `s` ends with `end`.
pub open spec fn has_ending(s: Seq<char>, end: Seq<char>) -> bool {
    s.len() >= end.len() && s.subrange(s.len() - end.len(), s.len() as int) == end
}

/// Whether a text ends with another.
pub fn ends_with_text(s: &str, end: &str) -> (r: bool)
    ensures
        r == has_ending(s@, end@),
{
    let n: usize = s.unicode_len();
    let m: usize = end.unicode_len();
    n >= m && equals(s.substring_char(n - m, n), end)
}

/// Whether `s` starts with `start`.
pub open spec fn has_start(s: Seq<char>, start: Seq<char>) -> bool {
    s.len() >= start.len() && s.subrange(0, start.len() as int) == start
}

/// Whether a text starts with another.
pub fn starts_with_text(s: &str, start: &str) -> (r: bool)
    ensures
        r == has_start(s@, start@),
{
    let n: usize = s.unicode_len();
    let m: usize = start.unicode_len();
    n >= m && equals(s.substring_char(0, m), start)
}

/// Two texts, one behind the other.
pub fn joined(a: &str, b: &str) -> (r: String)
    ensures
        r@ == a@ + b@,
{
    let mut r = a.to_owned();
    r.append(b);
    r
}

/// Whether `part` stands in `s` from `at` on.
pub open spec fn stands_at(s: Seq<char>, part: Seq<char>, at: int) -> bool {
    0 <= at && at + part.len() <= s.len() && s.subrange(at, at + part.len()) == part
}

/// Whether `part` stands somewhere in `s`.
pub open spec fn contains_spec(s: Seq<char>, part: Seq<char>) -> bool {
    exists|at: int| stands_at(s, part, at)
}

/// Whether `part` stands somewhere in `s`.
pub fn contains(s: &str, part: &str) -> (r: bool)
    ensures
        r == contains_spec(s@, part@),
{
    let text = chars(s);
    let wanted = chars(part);
    if wanted.len() > text.len() {
        return false;
    }
    let count: usize = text.len();
    let mut at: usize = 0;
    while at <= count - wanted.len()
        invariant
            count == text@.len(),
            text@ == s@,
            wanted@ == part@,
            wanted@.len() <= text@.len(),
            at <= text@.len() - wanted@.len() + 1,
            forall|i: int| 0 <= i < at ==> !stands_at(s@, part@, i),
        decreases text@.len() - at + 1,
    {
        let mut n: usize = 0;
        while n < wanted.len() && text[at + n] == wanted[n]
            invariant
                count == text@.len(),
                text@ == s@,
                wanted@ == part@,
                at + wanted@.len() <= count,
                n <= wanted@.len(),
                forall|i: int| 0 <= i < n ==> text@[at + i] == wanted@[i],
            decreases wanted@.len() - n,
        {
            n += 1;
        }
        if n == wanted.len() {
            assert(s@.subrange(at as int, at + part@.len()) =~= part@);
            assert(stands_at(s@, part@, at as int));
            return true;
        }
        assert(!stands_at(s@, part@, at as int)) by {
            if stands_at(s@, part@, at as int) {
                assert(s@.subrange(at as int, at + part@.len())[n as int] == part@[n as int]);
            }
        }
        at += 1;
    }
    false
}

proof fn lemma_find_first(a: Seq<char>, c: char, b: Seq<char>, from: int)
    requires
        0 <= from <= a.len(),
        forall|i: int| 0 <= i < a.len() ==> #[trigger] a[i] != c,
    ensures
        find_from(a + seq![c] + b, c, from) == a.len(),
        find_from(a, c, from) == a.len(),
    decreases a.len() - from,
{
    let s = a + seq![c] + b;
    if from < a.len() {
        assert(s[from] == a[from]);
        lemma_find_first(a, c, b, from + 1);
    } else {
        assert(s[from] == c);
    }
}

/// A text is split at the first place of a character into what stands before it and what stands behind
/// it. A text without the character is not split.
pub proof fn law_split_once(before: Seq<char>, c: char, behind: Seq<char>)
    requires
        forall|i: int| 0 <= i < before.len() ==> #[trigger] before[i] != c,
    ensures
        split_once_spec(before + seq![c] + behind, c) == Some((before, behind)),
        before_spec(before + seq![c] + behind, c) == before,
        split_once_spec(before, c) is None,
        before_spec(before, c) == before,
{
    let s = before + seq![c] + behind;
    lemma_find_first(before, c, behind, 0);
    assert(s.subrange(0, before.len() as int) =~= before);
    assert(s.subrange(before.len() as int + 1, s.len() as int) =~= behind);
    assert(before.subrange(0, before.len() as int) =~= before);
}

proof fn lemma_find_shifted(s: Seq<char>, c: char, at: int, from: int)
    requires
        0 <= at <= from <= s.len(),
    ensures
        find_from(s, c, from) == at + find_from(s.skip(at), c, from - at),
    decreases s.len() - from,
{
    if from < s.len() {
        assert(s.skip(at)[from - at] == s[from]);
        lemma_find_shifted(s, c, at, from + 1);
    }
}

proof fn lemma_split_shifted(s: Seq<char>, c: char, at: int, from: int)
    requires
        0 <= at <= from <= s.len(),
    ensures
        split_from(s, c, from) == split_from(s.skip(at), c, from - at),
    decreases s.len() - from,
{
    let rest = s.skip(at);
    lemma_find_shifted(s, c, at, from);
    lemma_find_from(s, c, from);
    let end = find_from(s, c, from);
    if end < s.len() {
        lemma_split_shifted(s, c, at, end + 1);
        assert(s.subrange(from, end) =~= rest.subrange(from - at, end - at));
    } else {
        assert(s.subrange(from, s.len() as int) =~= rest.subrange(from - at, rest.len() as int));
    }
}

/// The first piece of a text is what stands before the first separator, and the others are the pieces of
/// what stands behind it. A text without a separator is one piece.
pub proof fn law_split(piece: Seq<char>, c: char, rest: Seq<char>)
    requires
        forall|i: int| 0 <= i < piece.len() ==> #[trigger] piece[i] != c,
    ensures
        split_spec(piece + seq![c] + rest, c) == seq![piece] + split_spec(rest, c),
        split_spec(piece, c) == seq![piece],
{
    let s = piece + seq![c] + rest;
    lemma_find_first(piece, c, rest, 0);
    lemma_split_shifted(s, c, piece.len() as int + 1, piece.len() as int + 1);
    assert(s.skip(piece.len() as int + 1) =~= rest);
    assert(s.subrange(0, piece.len() as int) =~= piece);
    assert(piece.subrange(0, piece.len() as int) =~= piece);
}

proof fn lemma_lines_shifted(s: Seq<char>, at: int, from: int)
    requires
        0 <= at <= from <= s.len(),
    ensures
        lines_from(s, from) == lines_from(s.skip(at), from - at),
    decreases s.len() - from,
{
    let rest = s.skip(at);
    lemma_find_shifted(s, '\n', at, from);
    lemma_find_from(s, '\n', from);
    let end = find_from(s, '\n', from);
    if from < s.len() {
        if end < s.len() {
            lemma_lines_shifted(s, at, end + 1);
            assert(s.subrange(from, end) =~= rest.subrange(from - at, end - at));
        } else {
            assert(s.subrange(from, s.len() as int) =~= rest.subrange(from - at, rest.len() as int));
        }
    }
}

/// The first line of a text ends at the first line feed, without a carriage return before it; the others
/// are the lines of what stands behind it. A text without a line feed is one line, and an empty text has
/// none.
pub proof fn law_lines(line: Seq<char>, rest: Seq<char>)
    requires
        forall|i: int| 0 <= i < line.len() ==> #[trigger] line[i] != '\n',
    ensures
        line.len() == 0 || line.last() != '\r' ==> lines_spec(line + seq!['\n'] + rest) == seq![line]
            + lines_spec(rest),
        lines_spec(line + seq!['\r', '\n'] + rest) == seq![line] + lines_spec(rest),
        line.len() > 0 ==> lines_spec(line) == seq![line],
        lines_spec(Seq::empty()) == Seq::<Seq<char>>::empty(),
{
    let s = line + seq!['\n'] + rest;
    lemma_find_first(line, '\n', rest, 0);
    lemma_lines_shifted(s, line.len() as int + 1, line.len() as int + 1);
    assert(s.skip(line.len() as int + 1) =~= rest);
    assert(s.subrange(0, line.len() as int) =~= line);
    assert(line.subrange(0, line.len() as int) =~= line);
    let returned = line.push('\r');
    let t = line + seq!['\r', '\n'] + rest;
    assert(t =~= returned + seq!['\n'] + rest);
    lemma_find_first(returned, '\n', rest, 0);
    lemma_lines_shifted(t, returned.len() as int + 1, returned.len() as int + 1);
    assert(t.skip(returned.len() as int + 1) =~= rest);
    assert(t.subrange(0, returned.len() as int) =~= returned);
    assert(returned.drop_last() =~= line);
}

/// Trimming takes away the white space around a text and nothing of the text.
pub proof fn law_trim(left: Seq<char>, s: Seq<char>, right: Seq<char>)
    requires
        s.len() > 0,
        !is_white(s[0]),
        !is_white(s.last()),
        forall|i: int| 0 <= i < left.len() ==> is_white(#[trigger] left[i]),
        forall|i: int| 0 <= i < right.len() ==> is_white(#[trigger] right[i]),
    ensures
        trim_spec(left + s + right) == s,
        trim_spec(left) == Seq::<char>::empty(),
{
    lemma_trim_left(left, s + right);
    assert(left + s + right =~= left + (s + right));
    lemma_trim_right(s, right);
    lemma_all_white(left);
}

proof fn lemma_trim_left(left: Seq<char>, s: Seq<char>)
    requires
        s.len() > 0,
        !is_white(s[0]),
        forall|i: int| 0 <= i < left.len() ==> is_white(#[trigger] left[i]),
    ensures
        trim_start(left + s) == s,
    decreases left.len(),
{
    if left.len() > 0 {
        let rest = left.drop_first();
        assert((left + s).drop_first() =~= rest + s);
        assert forall|i: int| 0 <= i < rest.len() implies is_white(#[trigger] rest[i]) by {
            assert(rest[i] == left[i + 1]);
        }
        assert(is_white(left[0]));
        lemma_trim_left(rest, s);
    } else {
        assert(left + s =~= s);
    }
}

proof fn lemma_trim_right(s: Seq<char>, right: Seq<char>)
    requires
        s.len() > 0,
        !is_white(s.last()),
        forall|i: int| 0 <= i < right.len() ==> is_white(#[trigger] right[i]),
    ensures
        trim_end(s + right) == s,
    decreases right.len(),
{
    if right.len() > 0 {
        let rest = right.drop_last();
        assert((s + right).drop_last() =~= s + rest);
        assert forall|i: int| 0 <= i < rest.len() implies is_white(#[trigger] rest[i]) by {
            assert(rest[i] == right[i]);
        }
        assert(is_white(right[right.len() - 1]));
        lemma_trim_right(s, rest);
    } else {
        assert(s + right =~= s);
    }
}

proof fn lemma_all_white(s: Seq<char>)
    requires
        forall|i: int| 0 <= i < s.len() ==> is_white(#[trigger] s[i]),
    ensures
        trim_spec(s) == Seq::<char>::empty(),
    decreases s.len(),
{
    if s.len() > 0 {
        let rest = s.drop_first();
        assert forall|i: int| 0 <= i < rest.len() implies is_white(#[trigger] rest[i]) by {
            assert(rest[i] == s[i + 1]);
        }
        assert(is_white(s[0]));
        lemma_all_white(rest);
    } else {
        assert(s =~= Seq::<char>::empty());
    }
}

/// A text is read word by word: what stands before a space is a word, unless nothing stands there.
pub proof fn law_word_by_word(word: Seq<char>, rest: Seq<char>)
    requires
        word.len() > 0,
        forall|i: int| 0 <= i < word.len() ==> #[trigger] word[i] != ' ',
    ensures
        words_spec(word) == seq![word],
        words_spec(word + seq![' '] + rest) == seq![word] + words_spec(rest),
        words_spec(seq![' '] + rest) == words_spec(rest),
        words_spec(Seq::empty()) == Seq::<Seq<char>>::empty(),
{
    let keeps = |piece: Seq<char>| piece.len() > 0;
    law_split(word, ' ', rest);
    law_split(Seq::empty(), ' ', rest);
    assert(Seq::<char>::empty() + seq![' '] + rest =~= seq![' '] + rest);
    Seq::filter_distributes_over_add(seq![word], split_spec(rest, ' '), keeps);
    Seq::filter_distributes_over_add(seq![Seq::<char>::empty()], split_spec(rest, ' '), keeps);
    reveal(Seq::filter);
    assert(seq![word].drop_last() =~= Seq::<Seq<char>>::empty());
    assert(seq![word].drop_last().filter(keeps) =~= Seq::<Seq<char>>::empty());
    assert(seq![word].filter(keeps) =~= seq![word]);
    assert(seq![Seq::<char>::empty()].drop_last() =~= Seq::<Seq<char>>::empty());
    assert(seq![Seq::<char>::empty()].drop_last().filter(keeps) =~= Seq::<Seq<char>>::empty());
    assert(seq![Seq::<char>::empty()].filter(keeps) =~= Seq::<Seq<char>>::empty());
    assert(Seq::<Seq<char>>::empty() + words_spec(rest) =~= words_spec(rest));
}

/// A part stands in a text where something stands before it and something behind it.
pub proof fn law_contains(before: Seq<char>, part: Seq<char>, behind: Seq<char>, s: Seq<char>)
    ensures
        contains_spec(before + part + behind, part),
        stands_at(before + part + behind, part, before.len() as int),
        has_ending(before + part, part),
        has_ending(s, part) ==> contains_spec(s, part),
{
    let all = before + part + behind;
    assert(all.subrange(before.len() as int, (before.len() + part.len()) as int) =~= part);
    assert(stands_at(all, part, before.len() as int));
    let end = before + part;
    assert(end.subrange(end.len() - part.len(), end.len() as int) =~= part);
    if has_ending(s, part) {
        assert(stands_at(s, part, s.len() - part.len()));
    }
}

proof fn lemma_no_sign(s: Seq<char>)
    requires
        s.len() > 0,
        '0' <= s[0] <= '9' || s[0] == '.',
    ensures
        signed_digits(s) == s,
{
}

proof fn lemma_no_exponent(s: Seq<char>, from: int)
    requires
        0 <= from <= s.len(),
        forall|i: int| 0 <= i < s.len() ==> #[trigger] s[i] != 'e' && s[i] != 'E',
    ensures
        find_exponent(s, from) == s.len(),
    decreases s.len() - from,
{
    if from < s.len() {
        assert(s[from] != 'e' && s[from] != 'E');
        lemma_no_exponent(s, from + 1);
    }
}

/// Digits write down a number, with a point and more digits behind them or not, and with a sign
/// before them or not; nothing and a point alone write down none.
pub proof fn law_real_numbers(whole: Seq<char>, fraction: Seq<char>)
    requires
        whole.len() > 0,
        all_digits(whole),
        all_digits(fraction),
    ensures
        is_real_text(whole),
        is_real_text(whole + seq!['.'] + fraction),
        is_real_text(seq!['-'] + whole),
        is_real_text(seq!['+'] + whole),
        is_real_text(seq!['.'] + whole),
        !is_real_text(Seq::empty()),
        !is_real_text(seq!['.']),
        !is_real_text(seq!['-']),
{
    assert('0' <= whole[0] <= '9');
    lemma_no_point(whole);
    lemma_no_sign(whole);
    lemma_no_exponent(whole, 0);
    assert(is_decimal_text(whole));
    let minus = seq!['-'] + whole;
    assert(minus.drop_first() =~= whole);
    let plus = seq!['+'] + whole;
    assert(plus.drop_first() =~= whole);
    let number = whole + seq!['.'] + fraction;
    assert(number[0] == whole[0]);
    lemma_no_sign(number);
    assert forall|i: int| 0 <= i < number.len() implies #[trigger] number[i] != 'e' && number[i] != 'E' by {
        if i < whole.len() {
            assert(number[i] == whole[i]);
        } else if i > whole.len() {
            assert(number[i] == fraction[i - whole.len() - 1]);
        }
    }
    lemma_no_exponent(number, 0);
    assert forall|i: int| 0 <= i < whole.len() implies #[trigger] whole[i] != '.' by {
        assert('0' <= whole[i] <= '9');
    }
    lemma_find_first(whole, '.', fraction, 0);
    assert(number.subrange(0, whole.len() as int) =~= whole);
    assert(number.subrange(whole.len() as int + 1, number.len() as int) =~= fraction);
    assert(is_decimal_text(number));
    let small_number = seq!['.'] + whole;
    lemma_no_sign(small_number);
    assert forall|i: int| 0 <= i < small_number.len() implies #[trigger] small_number[i] != 'e'
        && small_number[i] != 'E' by {
        if i > 0 {
            assert(small_number[i] == whole[i - 1]);
        }
    }
    lemma_no_exponent(small_number, 0);
    assert(Seq::<char>::empty() + seq!['.'] + whole =~= small_number);
    lemma_find_first(Seq::empty(), '.', whole, 0);
    assert(small_number.subrange(1, small_number.len() as int) =~= whole);
    assert(is_decimal_text(small_number));
    reveal_strlit("inf");
    reveal_strlit("infinity");
    reveal_strlit("nan");
    let nothing = Seq::<char>::empty();
    lemma_no_exponent(nothing, 0);
    assert(!is_mantissa(nothing));
    assert(seq!['-'].drop_first() =~= nothing);
    let point = seq!['.'];
    lemma_no_sign(point);
    lemma_no_exponent(point, 0);
    assert(Seq::<char>::empty() + seq!['.'] + nothing =~= point);
    lemma_find_first(Seq::empty(), '.', nothing, 0);
    assert(!is_mantissa(point));
}

proof fn lemma_no_point(s: Seq<char>)
    requires
        all_digits(s),
    ensures
        find(s, '.') == s.len(),
{
    lemma_find_none(s, '.', 0);
}

proof fn lemma_find_none(s: Seq<char>, c: char, from: int)
    requires
        0 <= from <= s.len(),
        forall|i: int| 0 <= i < s.len() ==> #[trigger] s[i] != c,
    ensures
        find_from(s, c, from) == s.len(),
    decreases s.len() - from,
{
    if from < s.len() {
        assert(s[from] != c);
        lemma_find_none(s, c, from + 1);
    }
}

} // verus!
