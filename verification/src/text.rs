//! Text as a sequence of characters: trimming, lines, fields, affixes, decimals.

use vstd::prelude::*;
use vstd::string::*;

verus! {

/// The characters with the Unicode `White_Space` property.
pub open spec fn is_white_space(c: char) -> bool {
    ||| 0x09 <= c as u32 <= 0x0d
    ||| c as u32 == 0x20
    ||| c as u32 == 0x85
    ||| c as u32 == 0xa0
    ||| c as u32 == 0x1680
    ||| 0x2000 <= c as u32 <= 0x200a
    ||| c as u32 == 0x2028
    ||| c as u32 == 0x2029
    ||| c as u32 == 0x202f
    ||| c as u32 == 0x205f
    ||| c as u32 == 0x3000
}

/// `s` without its leading white space.
pub open spec fn trim_start(s: Seq<char>) -> Seq<char>
    decreases s.len(),
{
    if s.len() > 0 && is_white_space(s[0]) {
        trim_start(s.skip(1))
    } else {
        s
    }
}

/// `s` without its trailing white space.
pub open spec fn trim_end(s: Seq<char>) -> Seq<char>
    decreases s.len(),
{
    if s.len() > 0 && is_white_space(s.last()) {
        trim_end(s.drop_last())
    } else {
        s
    }
}

/// `s` without leading and trailing white space.
pub open spec fn trimmed(s: Seq<char>) -> Seq<char> {
    trim_end(trim_start(s))
}

/// The index of the first `c` in `s`, or the length of `s` when there is none.
pub open spec fn position(s: Seq<char>, c: char) -> nat
    decreases s.len(),
{
    if s.len() == 0 || s[0] == c {
        0
    } else {
        1 + position(s.skip(1), c)
    }
}

/// The fields of `s` between separators `c`; one field when there is no separator.
pub open spec fn fields(s: Seq<char>, c: char) -> Seq<Seq<char>>
    decreases s.len(),
{
    let k = position(s, c) as int;
    if k >= s.len() {
        seq![s]
    } else {
        seq![s.take(k)] + fields(s.skip(k + 1), c)
    }
}

/// `line` without one trailing carriage return.
pub open spec fn without_return(line: Seq<char>) -> Seq<char> {
    if line.len() > 0 && line.last() == '\r' {
        line.drop_last()
    } else {
        line
    }
}

/// The lines of `s`: each ends at `\n` or `\r\n`, which it does not hold. The last
/// one may lack its terminator, and then keeps a trailing `\r`.
pub open spec fn lines(s: Seq<char>) -> Seq<Seq<char>>
    decreases s.len(),
{
    let k = position(s, '\n') as int;
    if s.len() == 0 {
        seq![]
    } else if k >= s.len() {
        seq![s]
    } else {
        seq![without_return(s.take(k))] + lines(s.skip(k + 1))
    }
}

/// `parts` in order with `sep` between each two.
pub open spec fn joined(parts: Seq<Seq<char>>, sep: Seq<char>) -> Seq<char>
    decreases parts.len(),
{
    if parts.len() == 0 {
        seq![]
    } else if parts.len() == 1 {
        parts[0]
    } else {
        joined(parts.drop_last(), sep) + sep + parts.last()
    }
}

/// The last `n` of `parts`, all of them when there are no more than `n`.
pub open spec fn last_parts(parts: Seq<Seq<char>>, n: nat) -> Seq<Seq<char>> {
    if parts.len() <= n {
        parts
    } else {
        parts.skip(parts.len() - n)
    }
}

/// What follows `prefix` in `s`, when `s` starts with it.
pub open spec fn after_prefix(s: Seq<char>, prefix: Seq<char>) -> Option<Seq<char>> {
    if prefix.is_prefix_of(s) {
        Some(s.skip(prefix.len() as int))
    } else {
        None
    }
}

/// What precedes `suffix` in `s`, when `s` ends with it.
pub open spec fn before_suffix(s: Seq<char>, suffix: Seq<char>) -> Option<Seq<char>> {
    if suffix.is_suffix_of(s) {
        Some(s.take(s.len() - suffix.len()))
    } else {
        None
    }
}

/// `c` with `A` to `Z` mapped to `a` to `z`.
pub open spec fn ascii_lower(c: char) -> char {
    if 'A' <= c <= 'Z' {
        (c as u32 + 32) as char
    } else {
        c
    }
}

/// `s` with `A` to `Z` mapped to `a` to `z`.
pub open spec fn ascii_lowered(s: Seq<char>) -> Seq<char> {
    s.map_values(|c: char| ascii_lower(c))
}

/// The decimal digit of value `d`, which is below ten.
pub open spec fn digit(d: nat) -> char {
    (48 + d) as char
}

/// `n` in decimal, without leading zeros.
pub open spec fn decimal(n: nat) -> Seq<char>
    decreases n,
{
    if n < 10 {
        seq![digit(n)]
    } else {
        decimal(n / 10).push(digit(n % 10))
    }
}

/// `n` in decimal, with a `-` in front when it is negative.
pub open spec fn signed_decimal(n: int) -> Seq<char> {
    if n < 0 {
        seq!['-'] + decimal((-n) as nat)
    } else {
        decimal(n as nat)
    }
}

/// The text of an outcome, on either side.
pub open spec fn outcome(r: Result<String, String>) -> Result<Seq<char>, Seq<char>> {
    match r {
        Ok(s) => Ok(s@),
        Err(s) => Err(s@),
    }
}

/// Whether `s` is one or more decimal digits.
pub open spec fn is_digits(s: Seq<char>) -> bool {
    s.len() > 0 && forall|i: int| 0 <= i < s.len() ==> '0' <= #[trigger] s[i] <= '9'
}

/// The number that the digits `s` write.
pub open spec fn digits_value(s: Seq<char>) -> nat
    decreases s.len(),
{
    if s.len() == 0 {
        0
    } else {
        (digits_value(s.drop_last()) * 10 + (s.last() as u32 - 48)) as nat
    }
}

/// `s` without one leading `+`.
pub open spec fn without_plus(s: Seq<char>) -> Seq<char> {
    if s.len() > 0 && s[0] == '+' {
        s.skip(1)
    } else {
        s
    }
}

/// The natural number that `s` writes: digits, with one `+` allowed in front.
pub open spec fn unsigned_value(s: Seq<char>) -> Option<nat> {
    if is_digits(without_plus(s)) {
        Some(digits_value(without_plus(s)))
    } else {
        None
    }
}

/// The integer that `s` writes: digits, with one `+` or `-` allowed in front.
pub open spec fn signed_value(s: Seq<char>) -> Option<int> {
    if s.len() > 0 && s[0] == '-' {
        if is_digits(s.skip(1)) {
            Some(-(digits_value(s.skip(1)) as int))
        } else {
            None
        }
    } else {
        match unsigned_value(s) {
            Some(n) => Some(n as int),
            None => None,
        }
    }
}

/// The 16-bit number that `s` writes, if it writes one.
pub open spec fn u16_value(s: Seq<char>) -> Option<u16> {
    match unsigned_value(s) {
        Some(n) => if n <= u16::MAX {
            Some(n as u16)
        } else {
            None
        },
        None => None,
    }
}

/// The 32-bit integer that `s` writes, if it writes one.
pub open spec fn i32_value(s: Seq<char>) -> Option<i32> {
    match signed_value(s) {
        Some(n) => if i32::MIN <= n <= i32::MAX {
            Some(n as i32)
        } else {
            None
        },
        None => None,
    }
}

/// There is no `c` before its position, and a `c`, or the end, at it.
pub proof fn lemma_position(s: Seq<char>, c: char)
    ensures
        position(s, c) <= s.len(),
        forall|i: int| 0 <= i < position(s, c) ==> s[i] != c,
        position(s, c) < s.len() ==> s[position(s, c) as int] == c,
    decreases s.len(),
{
    if s.len() > 0 && s[0] != c {
        lemma_position(s.skip(1), c);
        assert forall|i: int| 0 <= i < position(s, c) implies s[i] != c by {
            if i > 0 {
                assert(s.skip(1)[i - 1] == s[i]);
            }
        }
    }
}

/// Whatever index has no `c` before it and a `c`, or the end, at it is the position of `c`.
pub proof fn lemma_position_unique(s: Seq<char>, c: char, k: int)
    requires
        0 <= k <= s.len(),
        forall|i: int| 0 <= i < k ==> s[i] != c,
        k < s.len() ==> s[k] == c,
    ensures
        position(s, c) == k,
{
    lemma_position(s, c);
    let p = position(s, c) as int;
    if p < k {
        assert(s[p] != c);
    } else if k < p {
        assert(s[k] != c);
    }
}

/// Text that ends with a line has its lines, and what follows has its own.
pub proof fn lemma_lines_concat(a: Seq<char>, b: Seq<char>)
    requires
        a.len() > 0,
        a.last() == '\n',
    ensures
        lines(a + b) == lines(a) + lines(b),
    decreases a.len(),
{
    lemma_position(a, '\n');
    let k = position(a, '\n') as int;
    if k >= a.len() {
        assert(a[a.len() - 1] != '\n');
    }
    let whole = a + b;
    assert(whole[k] == a[k]);
    assert forall|i: int| 0 <= i < k implies whole[i] != '\n' by {
        assert(whole[i] == a[i]);
    }
    lemma_position_unique(whole, '\n', k);
    assert(whole.take(k) =~= a.take(k));
    let rest = a.skip(k + 1);
    assert(whole.skip(k + 1) =~= rest + b);
    if rest.len() > 0 {
        assert(rest.last() == a.last());
        lemma_lines_concat(rest, b);
    } else {
        assert(rest + b =~= b);
        assert(lines(rest) =~= Seq::<Seq<char>>::empty());
    }
    assert(lines(whole) =~= lines(a) + lines(b));
}

/// What stands before the last `n` lines does not matter to them. A text made of `before`
/// and `rest`, where `before` is whole lines and `rest` holds the last `n` lines, or all
/// there are, has the same last lines with any end of `before` in its place.
pub proof fn law_an_end_has_the_same_last_lines(
    before: Seq<char>,
    end: Seq<char>,
    rest: Seq<char>,
    n: nat,
)
    requires
        before.len() == 0 || before.last() == '\n',
        end.is_suffix_of(before),
        lines(rest).len() >= n || lines(rest).len() >= lines(before + rest).len(),
    ensures
        last_parts(lines(end + rest), n) == last_parts(lines(before + rest), n),
{
    if before.len() == 0 {
        assert(end =~= before);
    } else {
        lemma_lines_concat(before, rest);
        assert(lines(before).len() > 0);
        if end.len() == 0 {
            assert(end + rest =~= rest);
        } else {
            assert(end.last() == before.last());
            lemma_lines_concat(end, rest);
        }
        let whole = lines(before) + lines(rest);
        let tail = lines(rest).skip(lines(rest).len() - n);
        assert(last_parts(whole, n) =~= tail);
        assert(last_parts(lines(end + rest), n) =~= tail);
    }
}

proof fn lemma_decimal_digits(n: nat)
    ensures
        is_digits(decimal(n)),
        digits_value(decimal(n)) == n,
    decreases n,
{
    if n < 10 {
        assert(decimal(n).drop_last() =~= Seq::<char>::empty());
        assert(digits_value(decimal(n)) == digits_value(decimal(n).drop_last()) * 10 + (
        decimal(n).last() as u32 - 48));
    } else {
        lemma_decimal_digits(n / 10);
        let s = decimal(n);
        assert(s.drop_last() =~= decimal(n / 10));
        assert forall|i: int| 0 <= i < s.len() implies '0' <= #[trigger] s[i] <= '9' by {
            if i < s.len() - 1 {
                assert(s[i] == decimal(n / 10)[i]);
            }
        }
    }
}

/// A number written in decimal has no white space around it.
pub proof fn lemma_decimal_is_trimmed(n: nat)
    ensures
        trimmed(decimal(n)) == decimal(n),
{
    lemma_decimal_digits(n);
    let s = decimal(n);
    assert('0' <= s[0] <= '9');
    assert('0' <= s[s.len() - 1] <= '9');
}

/// A number written in decimal reads back as itself.
pub proof fn law_decimal_reads_back(n: nat)
    ensures
        unsigned_value(decimal(n)) == Some(n),
{
    lemma_decimal_digits(n);
    assert('0' <= decimal(n)[0] <= '9');
}

/// An integer written in decimal reads back as itself.
pub proof fn law_signed_decimal_reads_back(n: int)
    ensures
        signed_value(signed_decimal(n)) == Some(n),
{
    if n < 0 {
        lemma_decimal_digits((-n) as nat);
        assert(signed_decimal(n).skip(1) =~= decimal((-n) as nat));
    } else {
        law_decimal_reads_back(n as nat);
        lemma_decimal_digits(n as nat);
        assert('0' <= decimal(n as nat)[0] <= '9');
    }
}

/// The characters of `s`.
pub fn chars_of(s: &str) -> (chars: Vec<char>)
    ensures
        chars@ == s@,
{
    let mut chars: Vec<char> = Vec::new();
    for c in it: s.chars()
        invariant
            it.seq() == s@,
            chars@ == s@.take(it.index()),
    {
        chars.push(c);
        assert(s@.take(it.index() + 1) =~= s@.take(it.index()).push(c));
    }
    assert(s@.take(s@.len() as int) =~= s@);
    chars
}

/// Whether `a` and `b` are the same text.
pub fn same(a: &str, b: &str) -> (r: bool)
    ensures
        r == (a@ == b@),
{
    a.to_owned() == b.to_owned()
}

/// Whether `c` is white space.
pub fn is_space(c: char) -> (r: bool)
    ensures
        r == is_white_space(c),
{
    let n = c as u32;
    (0x09 <= n && n <= 0x0d) || n == 0x20 || n == 0x85 || n == 0xa0 || n == 0x1680 || (0x2000 <= n
        && n <= 0x200a) || n == 0x2028 || n == 0x2029 || n == 0x202f || n == 0x205f || n == 0x3000
}

/// `s` without leading and trailing white space.
pub fn trim<'a>(s: &'a str) -> (r: &'a str)
    ensures
        r@ == trimmed(s@),
{
    let chars = chars_of(s);
    let mut from: usize = 0;
    assert(s@.skip(0) =~= s@);
    while from < chars.len() && is_space(chars[from])
        invariant
            chars@ == s@,
            from <= chars.len(),
            trim_start(s@) == trim_start(s@.skip(from as int)),
        decreases chars.len() - from,
    {
        assert(s@.skip(from as int).skip(1) =~= s@.skip(from + 1));
        from += 1;
    }
    let ghost rest = s@.skip(from as int);
    assert(trim_start(s@) == rest);
    let mut to: usize = chars.len();
    assert(s@.subrange(from as int, to as int) =~= rest);
    while to > from && is_space(chars[to - 1])
        invariant
            chars@ == s@,
            from <= to <= chars.len(),
            trim_end(rest) == trim_end(s@.subrange(from as int, to as int)),
        decreases to,
    {
        assert(s@.subrange(from as int, to as int).drop_last() =~= s@.subrange(
            from as int,
            to - 1,
        ));
        to -= 1;
    }
    s.substring_char(from, to)
}

/// The index of the first `c` at or after `from`, or the number of characters.
fn find_from(chars: &Vec<char>, from: usize, c: char) -> (r: usize)
    requires
        from <= chars.len(),
    ensures
        from <= r <= chars.len(),
        r - from == position(chars@.skip(from as int), c),
{
    let mut i: usize = from;
    while i < chars.len() && chars[i] != c
        invariant
            from <= i <= chars.len(),
            forall|j: int| from <= j < i ==> chars[j] != c,
        decreases chars.len() - i,
    {
        i += 1;
    }
    proof {
        lemma_position_unique(chars@.skip(from as int), c, i - from);
    }
    i
}

/// The fields of `s` between separators `c`.
pub fn split_fields<'a>(s: &'a str, c: char) -> (r: Vec<&'a str>)
    ensures
        r.deep_view() == fields(s@, c),
{
    let chars = chars_of(s);
    let mut parts: Vec<&'a str> = Vec::new();
    let mut from: usize = 0;
    let mut end: usize = find_from(&chars, from, c);
    assert(s@.skip(0) =~= s@);
    assert(parts.deep_view() + fields(s@.skip(0), c) =~= fields(s@, c));
    while end < chars.len()
        invariant
            chars@ == s@,
            from <= end <= chars.len(),
            end - from == position(s@.skip(from as int), c),
            parts.deep_view() + fields(s@.skip(from as int), c) == fields(s@, c),
        decreases chars.len() - from,
    {
        let part = s.substring_char(from, end);
        let ghost before = parts.deep_view();
        let ghost rest = s@.skip(from as int);
        assert(rest.take(end - from) =~= part@);
        assert(rest.skip(end - from + 1) =~= s@.skip(end + 1));
        parts.push(part);
        assert(parts.deep_view() =~= before.push(part@));
        assert(before + fields(rest, c) =~= before.push(part@) + fields(s@.skip(end + 1), c));
        from = end + 1;
        end = find_from(&chars, from, c);
    }
    let ghost before = parts.deep_view();
    let part = s.substring_char(from, end);
    assert(part@ =~= s@.skip(from as int));
    parts.push(part);
    assert(parts.deep_view() =~= before.push(part@));
    assert(before + fields(s@.skip(from as int), c) =~= before.push(part@));
    parts
}

/// The lines of `s`.
pub fn split_lines<'a>(s: &'a str) -> (r: Vec<&'a str>)
    ensures
        r.deep_view() == lines(s@),
{
    let chars = chars_of(s);
    let mut parts: Vec<&'a str> = Vec::new();
    let mut from: usize = 0;
    assert(s@.skip(0) =~= s@);
    assert(parts.deep_view() + lines(s@.skip(0)) =~= lines(s@));
    while from < chars.len()
        invariant
            chars@ == s@,
            from <= chars.len(),
            parts.deep_view() + lines(s@.skip(from as int)) == lines(s@),
        decreases chars.len() - from,
    {
        let end = find_from(&chars, from, '\n');
        let ghost before = parts.deep_view();
        let ghost rest = s@.skip(from as int);
        if end < chars.len() {
            let to = if end > from && chars[end - 1] == '\r' {
                end - 1
            } else {
                end
            };
            let part = s.substring_char(from, to);
            assert(part@ =~= without_return(rest.take(end - from)));
            assert(rest.skip(end - from + 1) =~= s@.skip(end + 1));
            parts.push(part);
            assert(parts.deep_view() =~= before.push(part@));
            assert(before + lines(rest) =~= before.push(part@) + lines(s@.skip(end + 1)));
            from = end + 1;
        } else {
            let part = s.substring_char(from, end);
            assert(part@ =~= rest);
            parts.push(part);
            assert(parts.deep_view() =~= before.push(part@));
            assert(s@.skip(end as int) =~= Seq::<char>::empty());
            assert(before + lines(rest) =~= before.push(part@) + lines(s@.skip(end as int)));
            from = end;
        }
    }
    assert(s@.skip(from as int) =~= Seq::<char>::empty());
    assert(parts.deep_view() + lines(s@.skip(from as int)) =~= parts.deep_view());
    parts
}

/// `parts` from index `from` on, with `sep` between each two.
pub fn join_from(parts: &Vec<&str>, from: usize, sep: &str) -> (r: String)
    requires
        from <= parts.len(),
    ensures
        r@ == joined(parts.deep_view().skip(from as int), sep@),
{
    let mut out = String::new();
    let mut i: usize = from;
    let ghost all = parts.deep_view();
    assert(all.subrange(from as int, from as int) =~= Seq::<Seq<char>>::empty());
    while i < parts.len()
        invariant
            all == parts.deep_view(),
            from <= i <= parts.len(),
            out@ == joined(all.subrange(from as int, i as int), sep@),
        decreases parts.len() - i,
    {
        if i > from {
            out.append(sep);
        }
        out.append(parts[i]);
        proof {
            let done = all.subrange(from as int, i + 1);
            assert(done.drop_last() =~= all.subrange(from as int, i as int));
            assert(done.last() == parts[i as int]@);
            if i == from {
                assert(joined(all.subrange(from as int, i as int), sep@) =~= Seq::<char>::empty());
                assert(out@ =~= done[0]);
            }
        }
        i += 1;
    }
    assert(all.subrange(from as int, i as int) =~= all.skip(from as int));
    out
}

/// The last `n` lines of `s`, without the final line ending.
pub fn last_lines(s: &str, n: usize) -> (r: String)
    ensures
        r@ == joined(last_parts(lines(s@), n as nat), "\n"@),
{
    let parts = split_lines(s);
    let from = if parts.len() <= n {
        0
    } else {
        parts.len() - n
    };
    let ghost all = parts.deep_view();
    assert(all.skip(from as int) =~= last_parts(all, n as nat));
    join_from(&parts, from, "\n")
}

/// What follows `prefix` in `s`, when `s` starts with it.
pub fn strip_prefix<'a>(s: &'a str, prefix: &str) -> (r: Option<&'a str>)
    ensures
        r.deep_view() == after_prefix(s@, prefix@),
{
    let n = prefix.unicode_len();
    let len = s.unicode_len();
    if n <= len && same(s.substring_char(0, n), prefix) {
        let rest = s.substring_char(n, len);
        assert(prefix@ =~= s@.subrange(0, n as int));
        assert(rest@ =~= s@.skip(n as int));
        Some(rest)
    } else {
        None
    }
}

/// Whether `s` starts with `prefix`.
pub fn starts_with(s: &str, prefix: &str) -> (r: bool)
    ensures
        r == prefix@.is_prefix_of(s@),
{
    strip_prefix(s, prefix).is_some()
}

/// What precedes `suffix` in `s`, when `s` ends with it.
pub fn strip_suffix<'a>(s: &'a str, suffix: &str) -> (r: Option<&'a str>)
    ensures
        r.deep_view() == before_suffix(s@, suffix@),
{
    let n = suffix.unicode_len();
    let len = s.unicode_len();
    if n <= len && same(s.substring_char(len - n, len), suffix) {
        let rest = s.substring_char(0, len - n);
        assert(rest@ =~= s@.take(len - n));
        Some(rest)
    } else {
        None
    }
}

/// Whether `a` and `b` differ at most in the case of ASCII letters.
pub fn same_ignoring_ascii_case(a: &str, b: &str) -> (r: bool)
    ensures
        r == (ascii_lowered(a@) == ascii_lowered(b@)),
{
    let left = chars_of(a);
    let right = chars_of(b);
    if left.len() != right.len() {
        assert(ascii_lowered(a@).len() != ascii_lowered(b@).len());
        return false;
    }
    let mut i: usize = 0;
    while i < left.len()
        invariant
            left@ == a@,
            right@ == b@,
            left.len() == right.len(),
            i <= left.len(),
            forall|j: int| 0 <= j < i ==> ascii_lower(a@[j]) == ascii_lower(b@[j]),
        decreases left.len() - i,
    {
        if lower(left[i]) != lower(right[i]) {
            assert(ascii_lowered(a@)[i as int] != ascii_lowered(b@)[i as int]);
            return false;
        }
        i += 1;
    }
    assert(ascii_lowered(a@) =~= ascii_lowered(b@));
    true
}

/// `c` with `A` to `Z` mapped to `a` to `z`.
fn lower(c: char) -> (r: char)
    ensures
        r == ascii_lower(c),
{
    if 'A' <= c && c <= 'Z' {
        ((c as u8) + 32u8) as char
    } else {
        c
    }
}

/// `n` in decimal.
pub fn to_decimal(n: u64) -> (r: String)
    ensures
        r@ == decimal(n as nat),
    decreases n,
{
    let digits = "0123456789";
    proof {
        reveal_strlit("0123456789");
    }
    let d = (n % 10) as usize;
    let last = digits.substring_char(d, d + 1);
    assert(last@ =~= seq![digit(d as nat)]);
    if n < 10 {
        last.to_owned()
    } else {
        let r = to_decimal(n / 10).concat(last);
        assert(r@ =~= decimal((n / 10) as nat).push(digit(d as nat)));
        r
    }
}

/// `n` in decimal, with a `-` in front when it is negative.
pub fn to_signed_decimal(n: i32) -> (r: String)
    ensures
        r@ == signed_decimal(n as int),
{
    if n < 0 {
        proof {
            reveal_strlit("-");
        }
        assert("-"@ =~= seq!['-']);
        "-".to_owned().concat(to_decimal((-(n as i64)) as u64).as_str())
    } else {
        to_decimal(n as u64)
    }
}

/// The value of the digits of `chars` from `from` on, unless they are no digits or
/// their value is above `limit`.
fn digits_from(chars: &Vec<char>, from: usize, limit: u32) -> (r: Option<u32>)
    requires
        from <= chars.len(),
    ensures
        r matches Some(n) ==> is_digits(chars@.skip(from as int)) && n <= limit && n
            == digits_value(chars@.skip(from as int)),
        r is None ==> !is_digits(chars@.skip(from as int)) || digits_value(
            chars@.skip(from as int),
        ) > limit,
{
    let ghost s = chars@.skip(from as int);
    if from == chars.len() {
        return None;
    }
    let mut value: u64 = 0;
    let mut i: usize = from;
    assert(s.take(0) =~= Seq::<char>::empty());
    while i < chars.len()
        invariant
            s == chars@.skip(from as int),
            from <= i <= chars.len(),
            value <= limit,
            value == digits_value(s.take(i - from)),
            forall|j: int| 0 <= j < i - from ==> '0' <= #[trigger] s[j] <= '9',
        decreases chars.len() - i,
    {
        let c = chars[i];
        let ghost k = i - from;
        assert(s[k] == c);
        if c < '0' || '9' < c {
            return None;
        }
        value = value * 10 + (c as u32 - 48) as u64;
        assert(s.take(k + 1).drop_last() =~= s.take(k));
        assert(value == digits_value(s.take(k + 1)));
        if value > limit as u64 {
            proof {
                lemma_digits_value_grows(s, k + 1);
            }
            return None;
        }
        i += 1;
    }
    assert(s.take(i - from) =~= s);
    Some(value as u32)
}

/// A run of digits writes no less than any of its prefixes.
proof fn lemma_digits_value_grows(s: Seq<char>, k: int)
    requires
        0 <= k <= s.len(),
    ensures
        is_digits(s) ==> digits_value(s.take(k)) <= digits_value(s),
    decreases s.len(),
{
    if is_digits(s) && k < s.len() {
        assert('0' <= s[s.len() - 1] <= '9');
        if s.len() > 1 {
            assert(is_digits(s.drop_last())) by {
                assert forall|i: int| 0 <= i < s.drop_last().len() implies '0'
                    <= #[trigger] s.drop_last()[i] <= '9' by {
                    assert('0' <= s[i] <= '9');
                }
            }
            lemma_digits_value_grows(s.drop_last(), k);
            assert(s.drop_last().take(k) =~= s.take(k));
        } else {
            assert(s.take(k) =~= Seq::<char>::empty());
        }
    } else {
        assert(k == s.len() ==> s.take(k) =~= s);
    }
}

/// The 16-bit number that `s` writes in decimal, if it writes one.
pub fn parse_u16(s: &str) -> (r: Option<u16>)
    ensures
        r == u16_value(s@),
{
    let chars = chars_of(s);
    let from: usize = if chars.len() > 0 && chars[0] == '+' {
        1
    } else {
        0
    };
    assert(s@.skip(from as int) =~= without_plus(s@));
    match digits_from(&chars, from, u16::MAX as u32) {
        Some(n) => Some(n as u16),
        None => None,
    }
}

/// The 32-bit integer that `s` writes in decimal, if it writes one.
pub fn parse_i32(s: &str) -> (r: Option<i32>)
    ensures
        r == i32_value(s@),
{
    let chars = chars_of(s);
    if chars.len() > 0 && chars[0] == '-' {
        match digits_from(&chars, 1, 0x8000_0000u32) {
            Some(n) => Some((-(n as i64)) as i32),
            None => None,
        }
    } else {
        let from: usize = if chars.len() > 0 && chars[0] == '+' {
            1
        } else {
            0
        };
        assert(s@.skip(from as int) =~= without_plus(s@));
        match digits_from(&chars, from, i32::MAX as u32) {
            Some(n) => Some(n as i32),
            None => None,
        }
    }
}

} // verus!
