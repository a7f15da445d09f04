//! Text as sequences of characters: the few operations on strings that the
//! channel files and the programme guide need.

use vstd::prelude::*;

verus! {

/// `String::push` appends one character.
pub assume_specification[ String::push ](s: &mut String, c: char)
    ensures
        final(s)@ == old(s)@.push(c),
;

/// The characters of `s`, in order.
pub fn chars_of(s: &str) -> (out: Vec<char>)
    ensures
        out@ == s@,
{
    let mut out: Vec<char> = Vec::new();
    for c in it: s.chars()
        invariant
            it.seq() == s@,
            out@ == s@.take(it.index()),
    {
        out.push(c);
    }
    out
}

/// The string made of `chars`.
pub fn text_of(chars: &[char]) -> (out: String)
    ensures
        out@ == chars@,
{
    let mut out = String::new();
    let mut i: usize = 0;
    while i < chars.len()
        invariant
            i <= chars@.len(),
            out@ == chars@.take(i as int),
        decreases chars@.len() - i,
    {
        out.push(chars[i]);
        i += 1;
    }
    assert(chars@.take(i as int) =~= chars@);
    out
}

/// Whether two strings hold the same characters.
pub fn same_text(a: &str, b: &str) -> (same: bool)
    ensures
        same == (a@ == b@),
{
    a.to_owned() == b.to_owned()
}

/// The characters of each string of a list.
pub open spec fn texts(list: Seq<String>) -> Seq<Seq<char>> {
    list.map_values(|s: String| s@)
}

pub proof fn lemma_texts_push(list: Seq<String>, s: String)
    ensures
        texts(list.push(s)) == texts(list).push(s@),
{
    assert(texts(list.push(s)) =~= texts(list).push(s@));
}

/// Whether `list` holds the text `s`.
pub fn contains_text(list: &Vec<String>, s: &str) -> (found: bool)
    ensures
        found == texts(list@).contains(s@),
{
    let mut i: usize = 0;
    while i < list.len()
        invariant
            i <= list@.len(),
            forall|j: int| 0 <= j < i ==> texts(list@)[j] != s@,
        decreases list@.len() - i,
    {
        if same_text(list[i].as_str(), s) {
            assert(texts(list@)[i as int] == s@);
            return true;
        }
        i += 1;
    }
    false
}

/// A copy of a list of strings.
pub fn copy_texts(list: &Vec<String>) -> (out: Vec<String>)
    ensures
        texts(out@) == texts(list@),
{
    let mut out: Vec<String> = Vec::new();
    let mut i: usize = 0;
    while i < list.len()
        invariant
            i <= list@.len(),
            texts(out@) == texts(list@).take(i as int),
        decreases list@.len() - i,
    {
        let s = list[i].clone();
        proof {
            lemma_texts_push(out@, s);
        }
        out.push(s);
        i += 1;
        assert(texts(list@).take(i as int) =~= texts(list@).take(i - 1).push(texts(list@)[i - 1]));
    }
    assert(texts(list@).take(i as int) =~= texts(list@));
    out
}

// ---- White space -----------------------------------------------------------

/// The characters with the Unicode property White_Space.
pub open spec fn is_white_space(c: char) -> bool {
    ||| '\u{9}' <= c <= '\u{d}'
    ||| c == ' '
    ||| c == '\u{85}'
    ||| c == '\u{a0}'
    ||| c == '\u{1680}'
    ||| '\u{2000}' <= c <= '\u{200a}'
    ||| c == '\u{2028}'
    ||| c == '\u{2029}'
    ||| c == '\u{202f}'
    ||| c == '\u{205f}'
    ||| c == '\u{3000}'
}

pub fn white_space(c: char) -> (is: bool)
    ensures
        is == is_white_space(c),
{
    ('\u{9}' <= c && c <= '\u{d}') || c == ' ' || c == '\u{85}' || c == '\u{a0}' || c == '\u{1680}' || (
    '\u{2000}' <= c && c <= '\u{200a}') || c == '\u{2028}' || c == '\u{2029}' || c == '\u{202f}' || c
        == '\u{205f}' || c == '\u{3000}'
}

/// `s` without its leading white space.
pub open spec fn trim_start(s: Seq<char>) -> Seq<char>
    decreases s.len(),
{
    if s.len() > 0 && is_white_space(s[0]) {
        trim_start(s.skip(1))
    } else {
        s
    }
}

/// `s` without its trailing white space.
pub open spec fn trim_end(s: Seq<char>) -> Seq<char>
    decreases s.len(),
{
    if s.len() > 0 && is_white_space(s.last()) {
        trim_end(s.drop_last())
    } else {
        s
    }
}

/// `s` without white space at either end.
pub open spec fn trimmed(s: Seq<char>) -> Seq<char> {
    trim_end(trim_start(s))
}

/// Trimming leaves nothing exactly where there is nothing but white space.
pub proof fn lemma_trimmed_empty(s: Seq<char>)
    ensures
        trimmed(s).len() == 0 <==> (forall|i: int| 0 <= i < s.len() ==> is_white_space(s[i])),
    decreases s.len(),
{
    if s.len() > 0 && is_white_space(s[0]) {
        lemma_trimmed_empty(s.skip(1));
        if forall|i: int| 0 <= i < s.skip(1).len() ==> is_white_space(s.skip(1)[i]) {
            assert forall|i: int| 0 <= i < s.len() implies is_white_space(s[i]) by {
                if i > 0 {
                    assert(s.skip(1)[i - 1] == s[i]);
                }
            }
        } else {
            let j = choose|j: int| 0 <= j < s.skip(1).len() && !is_white_space(s.skip(1)[j]);
            assert(!is_white_space(s[j + 1]));
        }
    } else if s.len() > 0 {
        lemma_trim_end_keeps_first(s);
    }
}

proof fn lemma_trim_end_keeps_first(s: Seq<char>)
    requires
        s.len() > 0,
        !is_white_space(s[0]),
    ensures
        trim_end(s).len() > 0,
    decreases s.len(),
{
    if s.len() > 1 && is_white_space(s.last()) {
        lemma_trim_end_keeps_first(s.drop_last());
    }
}

/// `chars` without white space at either end.
pub fn trim(chars: &[char]) -> (out: Vec<char>)
    ensures
        out@ == trimmed(chars@),
{
    let mut from: usize = 0;
    assert(chars@.skip(0) =~= chars@);
    while from < chars.len() && white_space(chars[from])
        invariant
            from <= chars@.len(),
            trim_start(chars@) == trim_start(chars@.skip(from as int)),
        decreases chars@.len() - from,
    {
        assert(chars@.skip(from as int).skip(1) =~= chars@.skip(from + 1));
        from += 1;
    }
    let mut to: usize = chars.len();
    assert(chars@.subrange(from as int, to as int) =~= chars@.skip(from as int));
    while from < to && white_space(chars[to - 1])
        invariant
            from <= to <= chars@.len(),
            trimmed(chars@) == trim_end(chars@.subrange(from as int, to as int)),
        decreases to,
    {
        assert(chars@.subrange(from as int, to as int).drop_last() =~= chars@.subrange(
            from as int,
            to - 1,
        ));
        to -= 1;
    }
    copy_range(chars, from, to)
}

/// The characters `from..to` of `chars`.
pub fn copy_range(chars: &[char], from: usize, to: usize) -> (out: Vec<char>)
    requires
        from <= to <= chars@.len(),
    ensures
        out@ == chars@.subrange(from as int, to as int),
{
    let mut out: Vec<char> = Vec::new();
    let mut i: usize = from;
    while i < to
        invariant
            from <= i <= to <= chars@.len(),
            out@ == chars@.subrange(from as int, i as int),
        decreases to - i,
    {
        out.push(chars[i]);
        i += 1;
    }
    out
}

// ---- Searching and splitting -----------------------------------------------

/// The index of the first character of `s` that is in `seps`; `s.len()` where
/// there is none.
pub open spec fn first_of(s: Seq<char>, seps: Seq<char>) -> int
    decreases s.len(),
{
    if s.len() == 0 {
        0
    } else if seps.contains(s[0]) {
        0
    } else {
        1 + first_of(s.skip(1), seps)
    }
}

/// The pieces of `s` between the characters that are in `seps`: one more piece
/// than there are such characters.
pub open spec fn split(s: Seq<char>, seps: Seq<char>) -> Seq<Seq<char>>
    decreases s.len(),
{
    if s.len() == 0 {
        seq![Seq::<char>::empty()]
    } else {
        let before = split(s.drop_last(), seps);
        if seps.contains(s.last()) {
            before.push(Seq::<char>::empty())
        } else {
            before.drop_last().push(before.last().push(s.last()))
        }
    }
}

pub proof fn lemma_split_some(s: Seq<char>, seps: Seq<char>)
    ensures
        split(s, seps).len() >= 1,
    decreases s.len(),
{
    if s.len() > 0 {
        lemma_split_some(s.drop_last(), seps);
    }
}

/// The characters of each piece of a list.
pub open spec fn pieces(list: Seq<Vec<char>>) -> Seq<Seq<char>> {
    list.map_values(|v: Vec<char>| v@)
}

/// Whether `c` is one of `chars`.
pub fn contains_char(chars: &[char], c: char) -> (found: bool)
    ensures
        found == chars@.contains(c),
{
    let mut i: usize = 0;
    while i < chars.len()
        invariant
            i <= chars@.len(),
            forall|j: int| 0 <= j < i ==> chars@[j] != c,
        decreases chars@.len() - i,
    {
        if chars[i] == c {
            return true;
        }
        i += 1;
    }
    false
}

/// The pieces of `chars` between the characters that are in `seps`.
pub fn split_on(chars: &[char], seps: &[char]) -> (out: Vec<Vec<char>>)
    ensures
        pieces(out@) == split(chars@, seps@),
{
    let mut out: Vec<Vec<char>> = Vec::new();
    let mut piece: Vec<char> = Vec::new();
    let mut i: usize = 0;
    assert(pieces(out@).push(piece@) =~= split(chars@.take(0), seps@));
    while i < chars.len()
        invariant
            i <= chars@.len(),
            pieces(out@).push(piece@) == split(chars@.take(i as int), seps@),
        decreases chars@.len() - i,
    {
        let c = chars[i];
        let ghost done = pieces(out@);
        let ghost part = piece@;
        proof {
            assert(chars@.take(i + 1).drop_last() =~= chars@.take(i as int));
            assert(done.push(part).drop_last() =~= done);
        }
        if contains_char(seps, c) {
            out.push(piece);
            piece = Vec::new();
            assert(pieces(out@) =~= done.push(part));
        } else {
            piece.push(c);
        }
        i += 1;
    }
    assert(chars@.take(i as int) =~= chars@);
    let ghost done = pieces(out@);
    let ghost part = piece@;
    out.push(piece);
    assert(pieces(out@) =~= done.push(part));
    out
}

/// `s` without a carriage return at its end.
pub open spec fn without_return(s: Seq<char>) -> Seq<char> {
    if s.len() > 0 && s.last() == '\r' {
        s.drop_last()
    } else {
        s
    }
}

/// The lines of `s`: what ends at a line feed, without that and a carriage return
/// before it, and what comes behind the last line feed, if anything does.
pub open spec fn lines(s: Seq<char>) -> Seq<Seq<char>> {
    let parts = split(s, seq!['\n']);
    let ended = Seq::new((parts.len() - 1) as nat, |i: int| without_return(parts[i]));
    if parts.last().len() == 0 {
        ended
    } else {
        ended.push(parts.last())
    }
}

/// The lines of `chars`.
pub fn lines_of(chars: &[char]) -> (out: Vec<Vec<char>>)
    ensures
        pieces(out@) == lines(chars@),
{
    let newline: [char; 1] = ['\n'];
    assert(newline@ =~= seq!['\n']);
    let parts = split_on(chars, &newline);
    let ghost all = split(chars@, seq!['\n']);
    proof {
        lemma_split_some(chars@, seq!['\n']);
    }
    assert(pieces(parts@).len() == parts@.len());
    let mut out: Vec<Vec<char>> = Vec::new();
    let last: usize = parts.len() - 1;
    let mut i: usize = 0;
    while i < last
        invariant
            all == pieces(parts@),
            i <= last,
            last == parts@.len() - 1,
            pieces(out@) == Seq::new(i as nat, |k: int| without_return(all[k])),
        decreases last - i,
    {
        let part = &parts[i];
        let end: usize = if part.len() > 0 && part[part.len() - 1] == '\r' {
            part.len() - 1
        } else {
            part.len()
        };
        let line = copy_range(part, 0, end);
        let ghost before = pieces(out@);
        assert(line@ =~= without_return(all[i as int]));
        out.push(line);
        assert(pieces(out@) =~= before.push(line@));
        i += 1;
        assert(pieces(out@) =~= Seq::new(i as nat, |k: int| without_return(all[k])));
    }
    if parts[last].len() > 0 {
        let line = copy_range(&parts[last], 0, parts[last].len());
        let ghost before = pieces(out@);
        assert(line@ =~= all[last as int]);
        out.push(line);
        assert(pieces(out@) =~= before.push(line@));
    }
    out
}

/// The part of `s` before its first `sep` and the part after it; nothing where
/// `s` has no `sep`.
pub open spec fn split_once(s: Seq<char>, sep: char) -> Option<(Seq<char>, Seq<char>)> {
    let i = first_of(s, seq![sep]);
    if i < s.len() {
        Some((s.take(i), s.skip(i + 1)))
    } else {
        None
    }
}

/// The index of the first `sep` in `chars`; the length where there is none.
pub fn find_char(chars: &[char], sep: char) -> (at: usize)
    ensures
        at == first_of(chars@, seq![sep]),
        at <= chars@.len(),
{
    let mut i: usize = 0;
    assert(chars@.skip(0) =~= chars@);
    while i < chars.len()
        invariant
            i <= chars@.len(),
            first_of(chars@, seq![sep]) == i + first_of(chars@.skip(i as int), seq![sep]),
        decreases chars@.len() - i,
    {
        assert(seq![sep].contains(chars@[i as int]) <==> chars@[i as int] == sep) by {
            assert(seq![sep][0] == sep);
        }
        if chars[i] == sep {
            return i;
        }
        assert(chars@.skip(i as int).skip(1) =~= chars@.skip(i + 1));
        i += 1;
    }
    i
}

/// Whether `s` begins with `prefix`.
pub open spec fn begins_with(s: Seq<char>, prefix: Seq<char>) -> bool {
    prefix.len() <= s.len() && s.take(prefix.len() as int) == prefix
}

/// Whether `part` stands in `s` from index `at` on.
pub open spec fn stands_at(s: Seq<char>, part: Seq<char>, at: int) -> bool {
    0 <= at && at + part.len() <= s.len() && s.subrange(at, at + part.len()) == part
}

/// Whether `part` stands anywhere in `s`.
pub open spec fn has_part(s: Seq<char>, part: Seq<char>) -> bool {
    exists|at: int| stands_at(s, part, at)
}

/// Whether `part` stands in `chars` from index `at` on.
pub fn part_at(chars: &[char], part: &[char], at: usize) -> (is: bool)
    ensures
        is == stands_at(chars@, part@, at as int),
{
    if at > chars.len() || part.len() > chars.len() - at {
        return false;
    }
    let end: usize = at + part.len();
    let mut i: usize = 0;
    while i < part.len()
        invariant
            i <= part@.len(),
            at + part@.len() == end <= chars@.len(),
            forall|j: int| 0 <= j < i ==> chars@[at + j] == part@[j],
        decreases part@.len() - i,
    {
        if chars[at + i] != part[i] {
            assert(chars@.subrange(at as int, at + part@.len())[i as int] != part@[i as int]);
            return false;
        }
        i += 1;
    }
    assert(chars@.subrange(at as int, at + part@.len()) =~= part@);
    true
}

/// Whether `chars` begins with `prefix`.
pub fn has_prefix(chars: &[char], prefix: &[char]) -> (is: bool)
    ensures
        is == begins_with(chars@, prefix@),
{
    assert(prefix@.len() <= chars@.len() ==> chars@.take(prefix@.len() as int) =~= chars@.subrange(
        0,
        prefix@.len() as int,
    ));
    part_at(chars, prefix, 0)
}

/// Whether `part` stands anywhere in `chars`.
pub fn find_part(chars: &[char], part: &[char]) -> (is: bool)
    ensures
        is == has_part(chars@, part@),
{
    let mut at: usize = 0;
    while at < chars.len()
        invariant
            at <= chars@.len(),
            forall|k: int| 0 <= k < at ==> !stands_at(chars@, part@, k),
        decreases chars@.len() - at,
    {
        if part_at(chars, part, at) {
            return true;
        }
        at += 1;
    }
    part_at(chars, part, at)
}

// ---- Case ------------------------------------------------------------------

/// What `str::to_uppercase` makes of a text.
pub uninterp spec fn uppercase(s: Seq<char>) -> Seq<char>;

/// What `str::to_lowercase` makes of a text.
pub uninterp spec fn lowercase(s: Seq<char>) -> Seq<char>;

/// `str::to_uppercase` depends on the text alone, by the
/// mappings of Unicode; what it returns is named, not described.
pub assume_specification[ str::to_uppercase ](s: &str) -> (out: String)
    ensures
        out@ == uppercase(s@),
;

/// `str::to_lowercase` depends on the text alone, by the
/// mappings of Unicode; what it returns is named, not described.
pub assume_specification[ str::to_lowercase ](s: &str) -> (out: String)
    ensures
        out@ == lowercase(s@),
;

// ---- Length in bytes -------------------------------------------------------

/// How many bytes a character takes in UTF-8.
pub open spec fn char_width(c: char) -> nat {
    if (c as u32) < 0x80 {
        1
    } else if (c as u32) < 0x800 {
        2
    } else if (c as u32) < 0x1_0000 {
        3
    } else {
        4
    }
}

/// How many bytes a text takes in UTF-8.
pub open spec fn utf8_len(s: Seq<char>) -> nat
    decreases s.len(),
{
    if s.len() == 0 {
        0
    } else {
        utf8_len(s.drop_last()) + char_width(s.last())
    }
}

/// How many bytes a text takes in UTF-8.
pub fn byte_len(s: &str) -> (n: u128)
    ensures
        n == utf8_len(s@),
{
    let chars = chars_of(s);
    let mut n: u128 = 0;
    let mut i: usize = 0;
    while i < chars.len()
        invariant
            chars@ == s@,
            i <= chars@.len(),
            n == utf8_len(s@.take(i as int)),
            n <= 4 * i,
        decreases chars@.len() - i,
    {
        assert(s@.take(i + 1).drop_last() =~= s@.take(i as int));
        let c = chars[i] as u32;
        let width: u128 = if c < 0x80 {
            1
        } else if c < 0x800 {
            2
        } else if c < 0x1_0000 {
            3
        } else {
            4
        };
        n += width;
        i += 1;
    }
    assert(s@.take(i as int) =~= s@);
    n
}

// ---- Numbers ---------------------------------------------------------------

/// The character for a number below sixteen.
pub open spec fn digit(d: nat) -> char {
    if d < 10 {
        (48 + d) as char
    } else {
        (87 + d) as char
    }
}

pub fn digit_char(d: u8) -> (c: char)
    requires
        d < 16,
    ensures
        c == digit(d as nat),
{
    if d < 10 {
        (48 + d) as char
    } else {
        (87 + d) as char
    }
}

/// `n` in the base `base`, most significant digit first, without leading zeros.
pub open spec fn numeral(n: nat, base: nat) -> Seq<char>
    decreases n,
{
    if base < 2 || n < base {
        seq![digit(n)]
    } else {
        proof {
            vstd::arithmetic::div_mod::lemma_div_decreases(n as int, base as int);
        }
        numeral(n / base, base).push(digit(n % base))
    }
}

/// `n` in decimal.
pub open spec fn decimal(n: nat) -> Seq<char> {
    numeral(n, 10)
}

/// `s` filled up on the left with `fill` to at least `width` characters.
pub open spec fn padded(s: Seq<char>, width: nat, fill: char) -> Seq<char>
    decreases width - s.len(),
{
    if s.len() >= width {
        s
    } else {
        padded(seq![fill] + s, width, fill)
    }
}

/// `n` in the base `base`.
pub fn numeral_chars(n: u128, base: u8) -> (out: Vec<char>)
    requires
        2 <= base <= 16,
    ensures
        out@ == numeral(n as nat, base as nat),
    decreases n,
{
    if n < base as u128 {
        let mut out: Vec<char> = Vec::new();
        out.push(digit_char(n as u8));
        assert(out@ =~= seq![digit(n as nat)]);
        out
    } else {
        proof {
            vstd::arithmetic::div_mod::lemma_div_decreases(n as int, base as int);
            vstd::arithmetic::div_mod::lemma_mod_bound(n as int, base as int);
        }
        let mut out = numeral_chars(n / base as u128, base);
        out.push(digit_char((n % base as u128) as u8));
        out
    }
}

/// `chars` filled up on the left.
pub fn pad(chars: Vec<char>, width: usize, fill: char) -> (out: Vec<char>)
    ensures
        out@ == padded(chars@, width as nat, fill),
{
    let mut out = chars;
    while out.len() < width
        invariant
            padded(chars@, width as nat, fill) == padded(out@, width as nat, fill),
        decreases width - out@.len(),
    {
        let ghost before = out@;
        out.insert(0, fill);
        assert(out@ =~= seq![fill] + before);
    }
    out
}

/// `n` in decimal.
pub fn decimal_text(n: u128) -> (out: String)
    ensures
        out@ == decimal(n as nat),
{
    text_of(&numeral_chars(n, 10))
}

/// Why a text is no number.
#[derive(Debug, Clone, Copy, PartialEq, Eq, Structural)]
pub enum IntError {
    /// There is no character.
    Empty,
    /// A character is no decimal digit.
    InvalidDigit,
    /// The number is above the largest that is accepted.
    TooLarge,
}

/// What `error` says.
pub open spec fn int_error_text(error: IntError) -> Seq<char> {
    match error {
        IntError::Empty => "cannot parse integer from empty string"@,
        IntError::InvalidDigit => "invalid digit found in string"@,
        IntError::TooLarge => "number too large to fit in target type"@,
    }
}

impl IntError {
    pub fn message(&self) -> (out: &'static str)
        ensures
            out@ == int_error_text(*self),
    {
        match self {
            IntError::Empty => "cannot parse integer from empty string",
            IntError::InvalidDigit => "invalid digit found in string",
            IntError::TooLarge => "number too large to fit in target type",
        }
    }
}

pub open spec fn is_digit(c: char) -> bool {
    '0' <= c <= '9'
}

/// Reads the digits of `s` behind a number that is `before` so far: the first
/// character that is no digit, or that takes the number above `max`, decides.
pub open spec fn read_digits(s: Seq<char>, before: nat, max: nat) -> Result<nat, IntError>
    decreases s.len(),
{
    if s.len() == 0 {
        Ok(before)
    } else if !is_digit(s[0]) {
        Err(IntError::InvalidDigit)
    } else {
        let n = (before * 10 + (s[0] as nat - 48)) as nat;
        if n > max {
            Err(IntError::TooLarge)
        } else {
            read_digits(s.skip(1), n, max)
        }
    }
}

/// The number in `0..=max` that `s` writes in decimal, with a `+` in front or
/// without.
pub open spec fn unsigned(s: Seq<char>, max: nat) -> Result<nat, IntError> {
    if s.len() == 0 {
        Err(IntError::Empty)
    } else if s[0] == '+' {
        if s.len() == 1 {
            Err(IntError::InvalidDigit)
        } else {
            read_digits(s.skip(1), 0, max)
        }
    } else {
        read_digits(s, 0, max)
    }
}

/// The number in `0..=max` that `chars` writes.
pub fn parse_unsigned(chars: &[char], max: u32) -> (out: Result<u32, IntError>)
    ensures
        match out {
            Ok(n) => unsigned(chars@, max as nat) == Ok::<nat, IntError>(n as nat) && n <= max,
            Err(e) => unsigned(chars@, max as nat) == Err::<nat, IntError>(e),
        },
{
    if chars.len() == 0 {
        return Err(IntError::Empty);
    }
    let mut i: usize = 0;
    if chars[0] == '+' {
        if chars.len() == 1 {
            return Err(IntError::InvalidDigit);
        }
        i = 1;
    }
    let mut n: u64 = 0;
    assert(chars@.skip(0) =~= chars@);
    while i < chars.len()
        invariant
            i <= chars@.len(),
            n <= max,
            unsigned(chars@, max as nat) == read_digits(chars@.skip(i as int), n as nat, max as nat),
        decreases chars@.len() - i,
    {
        let c = chars[i];
        if c < '0' || '9' < c {
            return Err(IntError::InvalidDigit);
        }
        n = n * 10 + (c as u64 - 48);
        if n > max as u64 {
            return Err(IntError::TooLarge);
        }
        assert(chars@.skip(i as int).skip(1) =~= chars@.skip(i + 1));
        i += 1;
    }
    Ok(n as u32)
}

/// Reading digits goes on where an earlier reading stopped.
proof fn lemma_read_digits_push(s: Seq<char>, before: nat, max: nat, c: char)
    requires
        is_digit(c),
        read_digits(s, before, max) matches Ok(n) && n * 10 + (c as nat - 48) <= max,
    ensures
        read_digits(s.push(c), before, max) == Ok::<nat, IntError>(
            (read_digits(s, before, max)->Ok_0 * 10 + (c as nat - 48)) as nat,
        ),
    decreases s.len(),
{
    if s.len() == 0 {
        reveal_with_fuel(read_digits, 2);
        assert(s.push(c).skip(1) =~= s);
    } else {
        let n = (before * 10 + (s[0] as nat - 48)) as nat;
        lemma_read_digits_push(s.skip(1), n, max, c);
        assert(s.push(c).skip(1) =~= s.skip(1).push(c));
    }
}

/// Writing a number in decimal and reading it gives the number back.
pub proof fn lemma_decimal_reads_back(n: nat, max: nat)
    requires
        n <= max,
    ensures
        unsigned(decimal(n), max) == Ok::<nat, IntError>(n),
        decimal(n).len() > 0,
        forall|i: int| 0 <= i < decimal(n).len() ==> is_digit(#[trigger] decimal(n)[i]),
{
    lemma_decimal_digits(n, max);
}

proof fn lemma_decimal_digits(n: nat, max: nat)
    requires
        n <= max,
    ensures
        decimal(n).len() > 0,
        forall|i: int| 0 <= i < decimal(n).len() ==> is_digit(#[trigger] decimal(n)[i]),
        read_digits(decimal(n), 0, max) == Ok::<nat, IntError>(n),
    decreases n,
{
    if n < 10 {
        reveal_with_fuel(read_digits, 2);
        assert(decimal(n).skip(1) =~= Seq::<char>::empty());
    } else {
        lemma_decimal_digits(n / 10, max);
        lemma_read_digits_push(decimal(n / 10), 0, max, digit(n % 10));
    }
}

/// Different numbers have different decimals.
pub proof fn lemma_decimal_injective(a: nat, b: nat)
    requires
        decimal(a) == decimal(b),
    ensures
        a == b,
{
    let max = if a < b { b } else { a };
    lemma_decimal_reads_back(a, max);
    lemma_decimal_reads_back(b, max);
}

} // verus!
