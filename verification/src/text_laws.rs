//! What holds of the text functions: each is fixed by how its result relates to the text
//! that it was made from.

use vstd::prelude::*;

use crate::text;
use crate::text::{
    after_prefix, ascii_lower, ascii_lowered, before_suffix, decimal, digits_value, fields,
    i32_value, is_digits, is_white_space, joined, last_parts, lines, signed_value, trim_end,
    trim_start, trimmed, u16_value, unsigned_value,
};

verus! {

proof fn lemma_trim_start(s: Seq<char>) -> (k: int)
    ensures
        0 <= k <= s.len(),
        trim_start(s) == s.skip(k),
        forall|i: int| 0 <= i < k ==> is_white_space(#[trigger] s[i]),
        k < s.len() ==> !is_white_space(s[k]),
    decreases s.len(),
{
    if s.len() > 0 && is_white_space(s[0]) {
        let k = lemma_trim_start(s.skip(1));
        assert(s.skip(1).skip(k) =~= s.skip(k + 1));
        assert forall|i: int| 0 <= i < k + 1 implies is_white_space(#[trigger] s[i]) by {
            if i > 0 {
                assert(s.skip(1)[i - 1] == s[i]);
            }
        }
        k + 1
    } else {
        assert(s.skip(0) =~= s);
        0
    }
}

proof fn lemma_trim_end(s: Seq<char>) -> (k: int)
    ensures
        0 <= k <= s.len(),
        trim_end(s) == s.take(k),
        forall|i: int| k <= i < s.len() ==> is_white_space(#[trigger] s[i]),
        k > 0 ==> !is_white_space(s[k - 1]),
    decreases s.len(),
{
    if s.len() > 0 && is_white_space(s.last()) {
        let k = lemma_trim_end(s.drop_last());
        assert(s.drop_last().take(k) =~= s.take(k));
        assert forall|i: int| k <= i < s.len() implies is_white_space(#[trigger] s[i]) by {
            if i < s.len() - 1 {
                assert(s.drop_last()[i] == s[i]);
            }
        }
        k
    } else {
        assert(s.take(s.len() as int) =~= s);
        s.len() as int
    }
}

/// Trimming takes white space off both ends, all of it, and nothing else.
pub proof fn law_trimming_takes_the_white_space_around(s: Seq<char>)
    ensures
        exists|i: int, j: int|
            {
                &&& 0 <= i <= j <= s.len()
                &&& trimmed(s) == #[trigger] s.subrange(i, j)
                &&& forall|k: int| 0 <= k < i || j <= k < s.len() ==> is_white_space(
                    #[trigger] s[k],
                )
            },
        trimmed(s).len() > 0 ==> !is_white_space(trimmed(s)[0]) && !is_white_space(
            trimmed(s).last(),
        ),
{
    let i = lemma_trim_start(s);
    let rest = s.skip(i);
    let n = lemma_trim_end(rest);
    assert(rest.take(n) =~= s.subrange(i, i + n));
    assert forall|k: int| 0 <= k < i || i + n <= k < s.len() implies is_white_space(
        #[trigger] s[k],
    ) by {
        if i + n <= k {
            assert(rest[k - i] == s[k]);
        }
    }
    if n > 0 {
        assert(trimmed(s)[0] == s[i]);
        assert(trimmed(s).last() == rest[n - 1]);
    }
}

proof fn lemma_joined_first(a: Seq<char>, rest: Seq<Seq<char>>, sep: Seq<char>)
    requires
        rest.len() > 0,
    ensures
        joined(seq![a] + rest, sep) == a + sep + joined(rest, sep),
    decreases rest.len(),
{
    let all = seq![a] + rest;
    assert(all.drop_last() =~= seq![a] + rest.drop_last());
    assert(all.last() == rest.last());
    if rest.len() == 1 {
        assert(all.drop_last() =~= seq![a]);
        assert(joined(seq![a], sep) == a);
    } else {
        lemma_joined_first(a, rest.drop_last(), sep);
    }
    assert(joined(all, sep) == joined(all.drop_last(), sep) + sep + all.last());
    assert(joined(all, sep) =~= a + sep + joined(rest, sep));
}

/// Joining one part gives that part, and joining two lists of parts puts the separator
/// between what the two give.
pub proof fn law_joining_puts_separators_between(
    a: Seq<Seq<char>>,
    b: Seq<Seq<char>>,
    part: Seq<char>,
    sep: Seq<char>,
)
    ensures
        joined(seq![], sep) == Seq::<char>::empty(),
        joined(seq![part], sep) == part,
        a.len() > 0 && b.len() > 0 ==> joined(a + b, sep) == joined(a, sep) + sep + joined(b, sep),
    decreases b.len(),
{
    if a.len() > 0 && b.len() > 0 {
        assert((a + b).drop_last() =~= a + b.drop_last());
        assert((a + b).last() == b.last());
        if b.len() == 1 {
            assert(a + b.drop_last() =~= a);
        } else {
            law_joining_puts_separators_between(a, b.drop_last(), part, sep);
        }
        assert(joined(a + b, sep) =~= joined(a, sep) + sep + joined(b, sep));
    }
}

/// The fields of a text give the text back when they are joined with the separator, and
/// hold no separator themselves.
pub proof fn law_fields_join_back(s: Seq<char>, c: char)
    ensures
        fields(s, c).len() > 0,
        joined(fields(s, c), seq![c]) == s,
        forall|i: int, j: int|
            0 <= i < fields(s, c).len() && 0 <= j < fields(s, c)[i].len()
                ==> #[trigger] fields(s, c)[i][j] != c,
    decreases s.len(),
{
    text::lemma_position(s, c);
    let k = text::position(s, c) as int;
    if k < s.len() {
        let tail = s.skip(k + 1);
        law_fields_join_back(tail, c);
        lemma_joined_first(s.take(k), fields(tail, c), seq![c]);
        assert(s =~= s.take(k) + seq![c] + tail);
        assert forall|i: int, j: int|
            0 <= i < fields(s, c).len() && 0 <= j < fields(s, c)[i].len() implies #[trigger] fields(
            s,
            c,
        )[i][j] != c by {
            if i > 0 {
                assert(fields(s, c)[i] == fields(tail, c)[i - 1]);
                assert(fields(tail, c)[i - 1][j] != c);
            }
        }
    }
}

/// Text without a line feed is one line, unless it is empty; a line feed ends it, and with
/// it a carriage return before it; and what follows a line feed has its own lines.
pub proof fn law_lines_end_at_line_feeds(line: Seq<char>, rest: Seq<char>)
    requires
        forall|i: int| 0 <= i < line.len() ==> line[i] != '\n',
    ensures
        lines(seq![]) == Seq::<Seq<char>>::empty(),
        line.len() > 0 ==> lines(line) == seq![line],
        line.len() == 0 || line.last() != '\r' ==> lines(line + seq!['\n'] + rest) == seq![line]
            + lines(rest),
        lines(line + seq!['\r', '\n'] + rest) == seq![line] + lines(rest),
{
    let n = line.len() as int;
    text::lemma_position_unique(line, '\n', n);
    let plain = line + seq!['\n'] + rest;
    text::lemma_position_unique(plain, '\n', n);
    assert(plain.take(n) =~= line);
    assert(plain.skip(n + 1) =~= rest);
    let returned = line + seq!['\r', '\n'] + rest;
    assert(returned[n] == '\r');
    assert forall|i: int| 0 <= i < n + 1 implies returned[i] != '\n' by {
        if i < line.len() {
            assert(returned[i] == line[i]);
        }
    }
    text::lemma_position_unique(returned, '\n', n + 1);
    assert(returned.take(n + 1).drop_last() =~= line);
    assert(returned.skip(n + 2) =~= rest);
}

/// The last parts are the end of the list, as many as asked for or all there are.
pub proof fn law_last_parts_are_the_end(parts: Seq<Seq<char>>, n: nat)
    ensures
        last_parts(parts, n).is_suffix_of(parts),
        last_parts(parts, n).len() == if parts.len() <= n {
            parts.len()
        } else {
            n
        },
{
    if parts.len() > n {
        assert(last_parts(parts, n) =~= parts.subrange(parts.len() - n, parts.len() as int));
    } else {
        assert(parts =~= parts.subrange(0, parts.len() as int));
    }
}

/// What a prefix is stripped from is the prefix and what is left, and nothing else can be
/// stripped; and so for a suffix.
pub proof fn law_affixes_are_stripped_exactly(s: Seq<char>, affix: Seq<char>, rest: Seq<char>)
    ensures
        after_prefix(s, affix) == Some(rest) <==> s == affix + rest,
        before_suffix(s, affix) == Some(rest) <==> s == rest + affix,
{
    if affix.is_prefix_of(s) {
        assert(s =~= affix + s.skip(affix.len() as int));
    }
    if s == affix + rest {
        assert(affix =~= s.subrange(0, affix.len() as int));
        assert(s.skip(affix.len() as int) =~= rest);
    }
    if affix.is_suffix_of(s) {
        assert(s =~= s.take(s.len() - affix.len()) + affix);
    }
    if s == rest + affix {
        assert(affix =~= s.subrange(s.len() - affix.len(), s.len() as int));
        assert(s.take(s.len() - affix.len()) =~= rest);
    }
}

/// Lowering the case touches the ASCII capitals only, each of which goes to its own small
/// letter; so it is done once, and keeps the length.
pub proof fn law_only_ascii_capitals_are_lowered(s: Seq<char>, i: int)
    requires
        0 <= i < s.len(),
    ensures
        ascii_lowered(s).len() == s.len(),
        'A' <= s[i] <= 'Z' ==> ascii_lowered(s)[i] as u32 - 'a' as u32 == s[i] as u32 - 'A' as u32,
        !('A' <= s[i] <= 'Z') ==> ascii_lowered(s)[i] == s[i],
        ascii_lowered(ascii_lowered(s)) == ascii_lowered(s),
{
    assert(ascii_lowered(ascii_lowered(s)) =~= ascii_lowered(s)) by {
        assert forall|k: int| 0 <= k < s.len() implies ascii_lower(ascii_lower(s[k]))
            == ascii_lower(s[k]) by {}
    }
}

/// A digit more makes the number ten times as large and adds the digit.
pub proof fn law_digits_write_a_number(s: Seq<char>, c: char)
    requires
        '0' <= c <= '9',
    ensures
        digits_value(seq![]) == 0,
        digits_value(s.push(c)) == 10 * digits_value(s) + (c as u32 - '0' as u32),
{
    assert(s.push(c).drop_last() =~= s);
}

/// A number is written with digits only, and without leading zeros.
pub proof fn law_decimal_has_no_leading_zero(n: nat)
    ensures
        is_digits(decimal(n)),
        digits_value(decimal(n)) == n,
        decimal(n).len() > 1 ==> decimal(n)[0] != '0',
    decreases n,
{
    text::law_decimal_reads_back(n);
    lemma_decimal_is_digits(n);
    lemma_decimal_first(n);
}

proof fn lemma_decimal_is_digits(n: nat)
    ensures
        is_digits(decimal(n)),
        digits_value(decimal(n)) == n,
    decreases n,
{
    if n < 10 {
        assert(decimal(n) =~= Seq::<char>::empty().push(text::digit(n)));
        law_digits_write_a_number(Seq::<char>::empty(), text::digit(n));
    } else {
        lemma_decimal_is_digits(n / 10);
        let head = decimal(n / 10);
        let s = decimal(n);
        law_digits_write_a_number(head, text::digit(n % 10));
        assert forall|i: int| 0 <= i < s.len() implies '0' <= #[trigger] s[i] <= '9' by {
            if i < s.len() - 1 {
                assert(s[i] == head[i]);
            }
        }
    }
}

proof fn lemma_decimal_first(n: nat)
    ensures
        decimal(n).len() > 0,
        n > 0 ==> decimal(n)[0] != '0',
    decreases n,
{
    if n >= 10 {
        lemma_decimal_first(n / 10);
        assert(decimal(n)[0] == decimal(n / 10)[0]);
    }
}

/// Digits are read as the number that they write, with or without a `+` in front, and with
/// a `-` as its negative where that is allowed; anything else is no number.
pub proof fn law_numbers_are_digits_with_a_sign(s: Seq<char>, digits: Seq<char>)
    requires
        is_digits(digits),
    ensures
        unsigned_value(digits) == Some(digits_value(digits)),
        unsigned_value(seq!['+'] + digits) == Some(digits_value(digits)),
        signed_value(digits) == Some(digits_value(digits) as int),
        signed_value(seq!['+'] + digits) == Some(digits_value(digits) as int),
        signed_value(seq!['-'] + digits) == Some(-digits_value(digits)),
        unsigned_value(s) is Some ==> is_digits(s) || (s[0] == '+' && is_digits(s.skip(1))),
        signed_value(s) is Some ==> is_digits(s) || ((s[0] == '+' || s[0] == '-') && is_digits(
            s.skip(1),
        )),
{
    assert('0' <= digits[0] <= '9');
    assert((seq!['+'] + digits).skip(1) =~= digits);
    assert((seq!['-'] + digits).skip(1) =~= digits);
}

/// A text is read as a 16-bit number exactly when the number that it writes is one, and as
/// a 32-bit integer likewise.
pub proof fn law_numbers_are_read_within_their_range(s: Seq<char>, n: u16, m: i32)
    ensures
        u16_value(s) == Some(n) <==> unsigned_value(s) == Some(n as nat),
        u16_value(s) is None <==> (unsigned_value(s) matches Some(v) ==> v > 65535),
        i32_value(s) == Some(m) <==> signed_value(s) == Some(m as int),
        i32_value(s) is None <==> (signed_value(s) matches Some(v) ==> v < -2147483648 || v
            > 2147483647),
{
}

/// The text of an outcome is that of its own side.
pub proof fn law_an_outcome_is_seen_whole(text: String)
    ensures
        text::outcome(Ok(text)) == Ok::<Seq<char>, Seq<char>>(text@),
        text::outcome(Err(text)) == Err::<Seq<char>, Seq<char>>(text@),
{
}

} // verus!
