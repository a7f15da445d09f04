//! What the operations on text do: trimming, splitting, and numbers in decimal.

use crate::text::{
    decimal, digit, first_of, int_error_text, is_white_space, lemma_split_some, lines, padded,
    read_digits, split, split_once, trim_end, trim_start, trimmed, unsigned, without_return,
    IntError,
};
use vstd::prelude::*;

verus! {

// ---- White space -----------------------------------------------------------

/// White space, by its code points.
pub open spec fn is_blank(c: char) -> bool {
    let n = c as int;
    ||| 9 <= n <= 13 || n == 32 || n == 0x85 || n == 0xa0 || n == 0x1680
    ||| 0x2000 <= n <= 0x200a || n == 0x2028 || n == 0x2029 || n == 0x202f || n == 0x205f
    ||| n == 0x3000
}

pub open spec fn all_blank(s: Seq<char>) -> bool {
    forall|i: int| 0 <= i < s.len() ==> is_blank(#[trigger] s[i])
}

/// Whether a text has no white space at either end.
pub open spec fn is_tight(s: Seq<char>) -> bool {
    s.len() > 0 ==> !is_blank(s[0]) && !is_blank(s.last())
}

proof fn lemma_trim_start(front: Seq<char>, s: Seq<char>)
    requires
        all_blank(front),
        s.len() > 0 ==> !is_blank(s[0]),
    ensures
        trim_start(front + s) == s,
    decreases front.len(),
{
    let all = front + s;
    if front.len() == 0 {
        assert(all =~= s);
    } else {
        assert(all[0] == front[0]);
        assert(all.skip(1) =~= front.skip(1) + s);
        assert forall|i: int| 0 <= i < front.skip(1).len() implies is_blank(
            #[trigger] front.skip(1)[i],
        ) by {
            assert(front.skip(1)[i] == front[i + 1]);
        }
        lemma_trim_start(front.skip(1), s);
    }
}

proof fn lemma_trim_end(s: Seq<char>, tail: Seq<char>)
    requires
        all_blank(tail),
        s.len() > 0 ==> !is_blank(s.last()),
    ensures
        trim_end(s + tail) == s,
    decreases tail.len(),
{
    let all = s + tail;
    if tail.len() == 0 {
        assert(all =~= s);
    } else {
        assert(all.last() == tail[tail.len() - 1]);
        assert(all.drop_last() =~= s + tail.drop_last());
        assert forall|i: int| 0 <= i < tail.drop_last().len() implies is_blank(
            #[trigger] tail.drop_last()[i],
        ) by {
            assert(tail.drop_last()[i] == tail[i]);
        }
        lemma_trim_end(s, tail.drop_last());
    }
}

/// Whatever white space is put around a text that has none at its ends, trimming
/// takes it away again and nothing else.
pub proof fn law_trimming(front: Seq<char>, s: Seq<char>, tail: Seq<char>)
    requires
        all_blank(front),
        is_tight(s),
        all_blank(tail),
    ensures
        trimmed(front + s + tail) == s,
{
    if s.len() == 0 {
        assert forall|i: int| 0 <= i < (front + tail).len() implies is_blank(
            #[trigger] (front + tail)[i],
        ) by {
            if i < front.len() {
                assert((front + tail)[i] == front[i]);
            } else {
                assert((front + tail)[i] == tail[i - front.len()]);
            }
        }
        lemma_trim_start(front + tail, s);
        assert(front + s + tail =~= front + tail + s);
    } else {
        assert(front + s + tail =~= front + (s + tail));
        assert((s + tail)[0] == s[0]);
        lemma_trim_start(front, s + tail);
        lemma_trim_end(s, tail);
    }
}

/// Every text is some white space, a text without any at its ends, and some white
/// space.
pub proof fn law_trimmed_is_tight(s: Seq<char>)
    ensures
        is_tight(trimmed(s)),
        exists|a: int, b: int|
            {
                &&& 0 <= a <= b <= s.len()
                &&& #[trigger] s.subrange(a, b) == trimmed(s)
                &&& all_blank(s.take(a))
                &&& all_blank(s.skip(b))
            },
{
    let mid = trim_start(s);
    lemma_trimmed_start(s);
    lemma_trimmed_end(mid);
    let a = s.len() - mid.len();
    let b = a + trim_end(mid).len();
    assert(s.subrange(a, b) =~= trimmed(s));
    assert(s.skip(b) =~= mid.skip(trim_end(mid).len() as int));
    assert(trimmed(s).len() > 0 ==> trimmed(s)[0] == mid[0]);
}

proof fn lemma_trimmed_start(s: Seq<char>)
    ensures
        trim_start(s).len() <= s.len(),
        trim_start(s) == s.skip(s.len() - trim_start(s).len()),
        all_blank(s.take(s.len() - trim_start(s).len())),
        trim_start(s).len() > 0 ==> !is_blank(trim_start(s)[0]),
    decreases s.len(),
{
    if s.len() > 0 && is_white_space(s[0]) {
        let rest = s.skip(1);
        lemma_trimmed_start(rest);
        let n = rest.len() - trim_start(rest).len();
        assert(rest.skip(n) =~= s.skip(n + 1));
        assert forall|i: int| 0 <= i < n + 1 implies is_blank(#[trigger] s.take(n + 1)[i]) by {
            if i > 0 {
                assert(rest.take(n)[i - 1] == s[i]);
            }
        }
    } else {
        assert(s.skip(0) =~= s);
    }
}

proof fn lemma_trimmed_end(s: Seq<char>)
    ensures
        trim_end(s).len() <= s.len(),
        trim_end(s) == s.take(trim_end(s).len() as int),
        all_blank(s.skip(trim_end(s).len() as int)),
        trim_end(s).len() > 0 ==> !is_blank(trim_end(s).last()),
    decreases s.len(),
{
    if s.len() > 0 && is_white_space(s.last()) {
        let rest = s.drop_last();
        lemma_trimmed_end(rest);
        let n = trim_end(rest).len() as int;
        assert(rest.take(n) =~= s.take(n));
        assert forall|i: int| 0 <= i < s.skip(n).len() implies is_blank(#[trigger] s.skip(n)[i]) by {
            if n + i < rest.len() {
                assert(rest.skip(n)[i] == s[n + i]);
            }
        }
    } else {
        assert(s.take(s.len() as int) =~= s);
    }
}

// ---- Splitting -------------------------------------------------------------

/// Whether a text holds none of some characters.
pub open spec fn free_of(s: Seq<char>, seps: Seq<char>) -> bool {
    forall|i: int| 0 <= i < s.len() ==> !seps.contains(#[trigger] s[i])
}

/// Pieces with separators between them.
pub open spec fn with_between(pieces: Seq<Seq<char>>, between: Seq<char>) -> Seq<char>
    decreases pieces.len(),
{
    if pieces.len() == 0 {
        Seq::empty()
    } else if pieces.len() == 1 {
        pieces[0]
    } else {
        with_between(pieces.drop_last(), between.drop_last()).push(between.last()) + pieces.last()
    }
}

proof fn lemma_split_more(s: Seq<char>, more: Seq<char>, seps: Seq<char>)
    requires
        free_of(more, seps),
    ensures
        split(s + more, seps) == split(s, seps).drop_last().push(split(s, seps).last() + more),
    decreases more.len(),
{
    let parts = split(s, seps);
    lemma_split_some(s, seps);
    if more.len() == 0 {
        assert(s + more =~= s);
        assert(parts.last() + more =~= parts.last());
        assert(parts.drop_last().push(parts.last()) =~= parts);
    } else {
        let front = more.drop_last();
        assert forall|i: int| 0 <= i < front.len() implies !seps.contains(#[trigger] front[i]) by {
            assert(front[i] == more[i]);
        }
        assert(!seps.contains(more[more.len() - 1]));
        lemma_split_more(s, front, seps);
        assert((s + more).drop_last() =~= s + front);
        let before = split(s + front, seps);
        assert(before.drop_last() =~= parts.drop_last());
        assert((parts.last() + front).push(more.last()) =~= parts.last() + more);
    }
}

/// Pieces that hold no separator come back from splitting, whatever separators
/// stand between them.
pub proof fn law_splitting(pieces: Seq<Seq<char>>, between: Seq<char>, seps: Seq<char>)
    requires
        pieces.len() == between.len() + 1,
        forall|i: int| 0 <= i < pieces.len() ==> free_of(#[trigger] pieces[i], seps),
        forall|i: int| 0 <= i < between.len() ==> seps.contains(#[trigger] between[i]),
    ensures
        split(with_between(pieces, between), seps) == pieces,
    decreases pieces.len(),
{
    let empty = Seq::<char>::empty();
    if pieces.len() == 1 {
        lemma_split_more(empty, pieces[0], seps);
        assert(empty + pieces[0] =~= pieces[0]);
        assert(split(empty, seps) =~= seq![empty]);
        assert(split(pieces[0], seps) =~= pieces);
    } else {
        let front = pieces.drop_last();
        let less = between.drop_last();
        assert forall|i: int| 0 <= i < front.len() implies free_of(#[trigger] front[i], seps) by {
            assert(front[i] == pieces[i]);
        }
        assert forall|i: int| 0 <= i < less.len() implies seps.contains(#[trigger] less[i]) by {
            assert(less[i] == between[i]);
        }
        law_splitting(front, less, seps);
        let s = with_between(front, less).push(between.last());
        assert(seps.contains(between[between.len() - 1]));
        assert(s.drop_last() =~= with_between(front, less));
        assert(split(s, seps) == front.push(empty));
        assert(free_of(pieces[pieces.len() - 1], seps));
        lemma_split_more(s, pieces.last(), seps);
        assert(front.push(empty).drop_last() =~= front);
        assert(empty + pieces.last() =~= pieces.last());
        assert(front.push(pieces.last()) =~= pieces);
    }
}

/// A text that is split at its first `sep` gives what is before it and all that is
/// behind it; one without `sep` is not split.
pub proof fn law_splitting_once(key: Seq<char>, value: Seq<char>, sep: char)
    requires
        free_of(key, seq![sep]),
    ensures
        split_once(key + seq![sep] + value, sep) == Some((key, value)),
        split_once(key, sep) is None,
{
    lemma_first_of(key, seq![sep] + value, sep);
    let s = key + seq![sep] + value;
    assert(key + (seq![sep] + value) =~= s);
    assert(s.take(key.len() as int) =~= key);
    assert(s.skip(key.len() as int + 1) =~= value);
    lemma_first_of(key, Seq::empty(), sep);
    assert(key + Seq::<char>::empty() =~= key);
}

proof fn lemma_first_of(key: Seq<char>, rest: Seq<char>, sep: char)
    requires
        free_of(key, seq![sep]),
        rest.len() > 0 ==> rest[0] == sep,
    ensures
        first_of(key + rest, seq![sep]) == key.len(),
    decreases key.len(),
{
    let all = key + rest;
    assert(seq![sep][0] == sep);
    if key.len() > 0 {
        assert(all[0] == key[0]);
        assert(all.skip(1) =~= key.skip(1) + rest);
        assert forall|i: int| 0 <= i < key.skip(1).len() implies !seq![sep].contains(
            #[trigger] key.skip(1)[i],
        ) by {
            assert(key.skip(1)[i] == key[i + 1]);
        }
        lemma_first_of(key.skip(1), rest, sep);
    } else {
        assert(all =~= rest);
        assert(rest.len() > 0 ==> seq![sep].contains(rest[0]));
    }
}

/// Lines that hold no line feed come back from a text of them, each with a line
/// feed behind it, but for one carriage return at their end; and so does a last
/// line without a line feed, as it is.
pub proof fn law_lines(list: Seq<Seq<char>>, last: Seq<char>)
    requires
        forall|i: int| 0 <= i < list.len() ==> free_of(#[trigger] list[i], seq!['\n']),
        free_of(last, seq!['\n']),
    ensures
        ({
            let whole = list.map_values(
                |l: Seq<char>|
                    if l.len() > 0 && l.last() == '\r' {
                        l.drop_last()
                    } else {
                        l
                    },
            );
            lines(with_between(list.push(last), Seq::new(list.len(), |i: int| '\n'))) == (
            if last.len() == 0 {
                whole
            } else {
                whole.push(last)
            })
        }),
{
    let all = list.push(last);
    let between = Seq::new(list.len(), |i: int| '\n');
    assert forall|i: int| 0 <= i < all.len() implies free_of(#[trigger] all[i], seq!['\n']) by {
        if i < list.len() {
            assert(all[i] == list[i]);
        }
    }
    assert(seq!['\n'][0] == '\n');
    assert forall|i: int| 0 <= i < between.len() implies seq!['\n'].contains(
        #[trigger] between[i],
    ) by {}
    law_splitting(all, between, seq!['\n']);
    let whole = list.map_values(
        |l: Seq<char>|
            if l.len() > 0 && l.last() == '\r' {
                l.drop_last()
            } else {
                l
            },
    );
    let ended = Seq::new((all.len() - 1) as nat, |i: int| without_return(all[i]));
    assert(ended =~= whole);
}

// ---- Numbers ---------------------------------------------------------------

pub open spec fn all_digits(s: Seq<char>) -> bool {
    forall|i: int| 0 <= i < s.len() ==> '0' <= #[trigger] s[i] <= '9'
}

/// The number that decimal digits write.
pub open spec fn value(s: Seq<char>) -> int
    decreases s.len(),
{
    if s.len() == 0 {
        0
    } else {
        value(s.drop_last()) * 10 + (s.last() as int - '0' as int)
    }
}

/// A number in decimal is digits that write it, without zeros before them.
pub proof fn law_decimals(n: nat)
    ensures
        all_digits(decimal(n)),
        decimal(n).len() > 0,
        value(decimal(n)) == n,
        n > 0 ==> decimal(n)[0] != '0',
        n == 0 ==> decimal(n) == seq!['0'],
    decreases n,
{
    let d = decimal(n);
    if n < 10 {
        assert(d =~= seq![digit(n)]);
        assert(d.drop_last() =~= Seq::<char>::empty());
        assert(value(d.drop_last()) == 0);
        if n == 0 {
            assert(digit(0) == '0');
        }
    } else {
        law_decimals(n / 10);
        let front = decimal(n / 10);
        assert(d == front.push(digit(n % 10)));
        assert(d.drop_last() =~= front);
        assert forall|i: int| 0 <= i < d.len() implies '0' <= #[trigger] d[i] <= '9' by {
            if i < front.len() {
                assert(d[i] == front[i]);
            }
        }
        assert(d[0] == front[0]);
    }
}

/// Filling up a text to a width puts fill before it, only as much as is missing.
pub proof fn law_padding(s: Seq<char>, width: nat, fill: char)
    ensures
        padded(s, width, fill) == Seq::new(
            (if s.len() < width {
                width - s.len()
            } else {
                0
            }) as nat,
            |i: int| fill,
        ) + s,
    decreases width - s.len(),
{
    let before = Seq::new(
        (if s.len() < width {
            width - s.len()
        } else {
            0
        }) as nat,
        |i: int| fill,
    );
    if s.len() < width {
        let more = seq![fill] + s;
        law_padding(more, width, fill);
        assert(padded(s, width, fill) =~= before + s);
    } else {
        assert(before + s =~= s);
    }
}

/// Whether a text writes the number `n` in decimal, up to `max`, perhaps with a
/// plus sign and zeros before it.
pub open spec fn reads_as(s: Seq<char>, max: nat, n: int) -> bool {
    let body = if s.len() > 0 && s[0] == '+' {
        s.skip(1)
    } else {
        s
    };
    body.len() > 0 && all_digits(body) && value(body) == n && n <= max
}

proof fn lemma_read_digits(front: Seq<char>, s: Seq<char>, max: nat)
    requires
        all_digits(front),
        value(front) <= max,
    ensures
        0 <= value(front),
        read_digits(s, value(front) as nat, max) matches Ok(n) ==> all_digits(front + s) && value(
            front + s,
        ) == n && n <= max,
        all_digits(s) && value(front + s) <= max ==> read_digits(s, value(front) as nat, max)
            == Ok::<nat, IntError>(value(front + s) as nat),
        all_digits(s) && value(front + s) > max ==> read_digits(s, value(front) as nat, max)
            == Err::<nat, IntError>(IntError::TooLarge),
        !(read_digits(s, value(front) as nat, max) is Ok) && !all_digits(s) ==> (read_digits(
            s,
            value(front) as nat,
            max,
        ) == Err::<nat, IntError>(IntError::InvalidDigit) || read_digits(
            s,
            value(front) as nat,
            max,
        ) == Err::<nat, IntError>(IntError::TooLarge)),
    decreases s.len(),
{
    lemma_value_grows(Seq::empty(), front);
    assert(Seq::<char>::empty() + front =~= front);
    if s.len() == 0 {
        assert(front + s =~= front);
    } else {
        let c = s[0];
        let rest = s.skip(1);
        let next = front.push(c);
        assert(front + s =~= next + rest);
        assert(next.drop_last() =~= front);
        if '0' <= c <= '9' {
            assert forall|i: int| 0 <= i < next.len() implies '0' <= #[trigger] next[i] <= '9' by {
                if i < front.len() {
                    assert(next[i] == front[i]);
                }
            }
            assert(value(next) == value(front) * 10 + (c as nat - 48));
            if value(next) <= max {
                lemma_read_digits(next, rest, max);
                assert(all_digits(s) ==> all_digits(rest)) by {
                    assert(forall|i: int| 0 <= i < rest.len() ==> #[trigger] rest[i] == s[i + 1]);
                }
                assert(all_digits(rest) ==> all_digits(s)) by {
                    assert(forall|i: int| 0 < i < s.len() ==> #[trigger] s[i] == rest[i - 1]);
                }
            } else {
                if all_digits(s) {
                    assert(forall|i: int| 0 <= i < rest.len() ==> #[trigger] rest[i] == s[i + 1]);
                    lemma_value_grows(next, rest);
                }
            }
        } else {
            assert((front + s)[front.len() as int] == c);
        }
    }
}

proof fn lemma_value_grows(a: Seq<char>, b: Seq<char>)
    requires
        all_digits(a),
        all_digits(b),
    ensures
        0 <= value(a) <= value(a + b),
    decreases a.len() + b.len(),
{
    if b.len() == 0 {
        assert(a + b =~= a);
        if a.len() > 0 {
            let front = a.drop_last();
            assert forall|i: int| 0 <= i < front.len() implies '0' <= #[trigger] front[i]
                <= '9' by {
                assert(front[i] == a[i]);
            }
            assert('0' <= a[a.len() - 1] <= '9');
            lemma_value_grows(front, Seq::empty());
        }
    } else {
        let front = b.drop_last();
        assert forall|i: int| 0 <= i < front.len() implies '0' <= #[trigger] front[i] <= '9' by {
            assert(front[i] == b[i]);
        }
        assert('0' <= b[b.len() - 1] <= '9');
        lemma_value_grows(a, front);
        assert((a + b).drop_last() =~= a + front);
    }
}

/// A text is read as a number exactly where it writes it; an empty text, a
/// character that is no digit and a number that is too large are told apart.
pub proof fn law_numbers_are_read(s: Seq<char>, max: nat, n: nat)
    ensures
        unsigned(s, max) == Ok::<nat, IntError>(n) <==> reads_as(s, max, n as int),
        unsigned(s, max) is Err <==> !(exists|k: int| reads_as(s, max, k)),
        unsigned(s, max) == Err::<nat, IntError>(IntError::Empty) <==> s.len() == 0,
        s == seq!['+'] ==> unsigned(s, max) == Err::<nat, IntError>(IntError::InvalidDigit),
        s.len() > 0 && all_digits(s) && value(s) > max ==> unsigned(s, max) == Err::<
            nat,
            IntError,
        >(IntError::TooLarge),
        s.len() > 0 && s[0] != '+' && !('0' <= s[0] <= '9') ==> unsigned(s, max) == Err::<
            nat,
            IntError,
        >(IntError::InvalidDigit),
{
    let none = Seq::<char>::empty();
    let body = if s.len() > 0 && s[0] == '+' {
        s.skip(1)
    } else {
        s
    };
    assert(value(none) == 0);
    lemma_read_digits(none, body, max);
    assert(none + body =~= body);
    if unsigned(s, max) is Ok {
        assert(reads_as(s, max, unsigned(s, max)->Ok_0 as int));
    } else {
        assert forall|k: int| !reads_as(s, max, k) by {
            if reads_as(s, max, k) {
                lemma_value_grows(none, body);
                assert(unsigned(s, max) == Ok::<nat, IntError>(k as nat));
            }
        }
    }
    if all_digits(s) && s.len() > 0 {
        assert('0' <= s[0] <= '9');
    }
}

/// A text in which digits that do not exceed the bound stand before a character
/// that is none is an error of that character.
pub proof fn law_wrong_digits(digits: Seq<char>, c: char, rest: Seq<char>, max: nat)
    requires
        all_digits(digits),
        value(digits) <= max,
        !('0' <= c <= '9'),
        digits.len() > 0,
    ensures
        unsigned(digits + seq![c] + rest, max) == Err::<nat, IntError>(IntError::InvalidDigit),
{
    let s = digits + seq![c] + rest;
    assert(s[0] == digits[0]);
    lemma_wrong_digit(Seq::empty(), digits, seq![c] + rest, max);
    assert(digits + (seq![c] + rest) =~= s);
    assert(value(Seq::<char>::empty()) == 0);
}

proof fn lemma_wrong_digit(front: Seq<char>, digits: Seq<char>, rest: Seq<char>, max: nat)
    requires
        all_digits(front),
        all_digits(digits),
        value(front + digits) <= max,
        rest.len() > 0,
        !('0' <= rest[0] <= '9'),
    ensures
        0 <= value(front),
        read_digits(digits + rest, value(front) as nat, max) == Err::<nat, IntError>(
            IntError::InvalidDigit,
        ),
    decreases digits.len(),
{
    lemma_value_grows(front, digits);
    let s = digits + rest;
    if digits.len() == 0 {
        assert(s =~= rest);
    } else {
        let c = digits[0];
        let more = digits.skip(1);
        let next = front.push(c);
        assert(forall|i: int| 0 <= i < more.len() ==> #[trigger] more[i] == digits[i + 1]);
        assert forall|i: int| 0 <= i < next.len() implies '0' <= #[trigger] next[i] <= '9' by {
            if i < front.len() {
                assert(next[i] == front[i]);
            }
        }
        assert(front + digits =~= next + more);
        lemma_value_grows(next, more);
        lemma_wrong_digit(next, more, rest, max);
        assert(s.skip(1) =~= more + rest);
        assert(next.drop_last() =~= front);
        assert(s[0] == c);
    }
}

/// What is said of a text that is no number.
pub proof fn law_number_errors()
    ensures
        int_error_text(IntError::Empty) == "cannot parse integer from empty string"@,
        int_error_text(IntError::InvalidDigit) == "invalid digit found in string"@,
        int_error_text(IntError::TooLarge) == "number too large to fit in target type"@,
{
}

} // verus!
