//! Character-level string helpers with exact specifications.
use vstd::prelude::*;

verus! {

/// Appends one character to a `String` (`String::push`).
/// Trusted: the string afterwards reads as before followed by `c`.
#[verifier::external_body]
pub(crate) fn push_char(s: &mut String, c: char)
    ensures
        final(s)@ == old(s)@.push(c),
{
    s.push(c);
}

/// The characters of `s`, in order.
pub fn chars_of(s: &str) -> (v: Vec<char>)
    ensures
        v@ == s@,
{
    let mut v: Vec<char> = Vec::new();
    for c in it: s.chars()
        invariant
            v@ == it.seq().take(it.index() as int),
            it.seq() == s@,
    {
        v.push(c);
    }
    v
}


/// A `String` holding exactly the characters of `v`.
pub fn string_from_chars(v: &Vec<char>) -> (s: String)
    ensures
        s@ == v@,
{
    let mut s = String::new();
    for i in 0..v.len()
        invariant
            s@ == v@.take(i as int),
    {
        push_char(&mut s, v[i]);
        assert(v@.take(i + 1) == v@.take(i as int).push(v@[i as int]));
    }
    assert(v@.take(v.len() as int) == v@);
    s
}

/// Character-wise equality of two string slices.
pub fn str_equals(a: &str, b: &str) -> (r: bool)
    ensures
        r == (a@ == b@),
{
    let x = chars_of(a);
    let y = chars_of(b);
    if x.len() != y.len() {
        return false;
    }
    for i in 0..x.len()
        invariant
            x@ == a@,
            y@ == b@,
            x@.len() == y@.len(),
            forall|j: int| 0 <= j < i ==> x@[j] == y@[j],
    {
        if x[i] != y[i] {
            return false;
        }
    }
    assert(x@ =~= y@);
    true
}

/// An ASCII decimal digit `0`..`9`.
pub open spec fn is_digit(c: char) -> bool {
    '0' <= c && c <= '9'
}

/// The value of an ASCII decimal digit.
pub open spec fn digit_value(c: char) -> nat {
    (c as int - '0' as int) as nat
}

/// The character that writes the digit `d` (below ten).
pub open spec fn digit_char(d: nat) -> char {
    (d + '0' as int) as char
}

/// Every character of `s` is an ASCII digit.
pub open spec fn all_digits(s: Seq<char>) -> bool {
    forall|i: int| 0 <= i < s.len() ==> is_digit(#[trigger] s[i])
}

/// The number that the digits `s` write in base ten (most significant first).
pub open spec fn digits_value(s: Seq<char>) -> nat
    decreases s.len(),
{
    if s.len() == 0 {
        0
    } else {
        digits_value(s.drop_last()) * 10 + digit_value(s.last())
    }
}

/// The base-ten digits of `n`, without leading zeros (`0` is written `"0"`).
pub open spec fn decimal(n: nat) -> Seq<char>
    decreases n,
{
    if n < 10 {
        seq![digit_char(n)]
    } else {
        decimal(n / 10).push(digit_char(n % 10))
    }
}

/// `n` in base ten, left-padded with `0` to at least two digits.
pub open spec fn decimal2(n: nat) -> Seq<char> {
    if n < 10 {
        seq!['0', digit_char(n)]
    } else {
        decimal(n)
    }
}

fn digit_of(d: u64) -> (c: char)
    requires
        d < 10,
    ensures
        c == digit_char(d as nat),
{
    let b: u8 = 48u8 + (d as u8);
    b as char
}

/// `a` sorts before `b` or equals it, comparing character by character from the
/// front, a proper prefix first (the order of `String` and `str`).
pub open spec fn lex_le(a: Seq<char>, b: Seq<char>) -> bool
    decreases a.len(),
{
    if a.len() == 0 {
        true
    } else if b.len() == 0 {
        false
    } else if a[0] != b[0] {
        a[0] < b[0]
    } else {
        lex_le(a.drop_first(), b.drop_first())
    }
}

/// Comparing two texts that start with blocks of one length: a smaller first
/// block decides, and equal first blocks leave the comparison to the rest.
pub proof fn lemma_lex_blocks(a1: Seq<char>, a2: Seq<char>, b1: Seq<char>, b2: Seq<char>)
    requires
        a1.len() == b1.len(),
    ensures
        a1 == b1 ==> lex_le(a1 + a2, b1 + b2) == lex_le(a2, b2),
        lex_le(a1, b1) && a1 != b1 ==> lex_le(a1 + a2, b1 + b2) && a1 + a2 != b1 + b2,
    decreases a1.len(),
{
    if a1.len() == 0 {
        assert(a1 =~= b1);
        assert(a1 + a2 =~= a2);
        assert(b1 + b2 =~= b2);
    } else {
        assert((a1 + a2)[0] == a1[0]);
        assert((b1 + b2)[0] == b1[0]);
        assert((a1 + a2).drop_first() =~= a1.drop_first() + a2);
        assert((b1 + b2).drop_first() =~= b1.drop_first() + b2);
        if a1[0] == b1[0] {
            lemma_lex_blocks(a1.drop_first(), a2, b1.drop_first(), b2);
            if a1 != b1 {
                assert(a1.drop_first() != b1.drop_first()) by {
                    if a1.drop_first() == b1.drop_first() {
                        assert forall|i: int| 0 <= i < a1.len() implies a1[i] == b1[i] by {
                            if i > 0 {
                                assert(a1[i] == a1.drop_first()[i - 1]);
                                assert(b1[i] == b1.drop_first()[i - 1]);
                            }
                        }
                        assert(a1 =~= b1);
                    }
                }
            }
        }
    }
}

/// Ten to the power `w`.
pub open spec fn pow10(w: nat) -> nat
    decreases w,
{
    if w == 0 {
        1
    } else {
        10 * pow10((w - 1) as nat)
    }
}

/// The last `w` base-ten digits of `n`, with leading zeros.
pub open spec fn padded(n: nat, w: nat) -> Seq<char>
    decreases w,
{
    if w == 0 {
        Seq::empty()
    } else {
        padded(n / 10, (w - 1) as nat).push(digit_char(n % 10))
    }
}

/// `w` digits are `w` characters.
pub proof fn lemma_padded_len(n: nat, w: nat)
    ensures
        padded(n, w).len() == w,
    decreases w,
{
    if w > 0 {
        lemma_padded_len(n / 10, (w - 1) as nat);
    }
}

/// Numbers below `10^w` written in `w` digits sort as the numbers do.
pub proof fn lemma_padded_order(n1: nat, n2: nat, w: nat)
    requires
        n1 < n2 < pow10(w),
    ensures
        lex_le(padded(n1, w), padded(n2, w)),
        padded(n1, w) != padded(n2, w),
    decreases w,
{
    let w1 = (w - 1) as nat;
    let q1 = n1 / 10;
    let q2 = n2 / 10;
    lemma_padded_len(q1, w1);
    lemma_padded_len(q2, w1);
    let c1 = digit_char(n1 % 10);
    let c2 = digit_char(n2 % 10);
    assert(padded(n1, w) == padded(q1, w1) + seq![c1]);
    assert(padded(n2, w) == padded(q2, w1) + seq![c2]);
    if q1 < q2 {
        lemma_padded_order(q1, q2, w1);
        lemma_lex_blocks(padded(q1, w1), seq![c1], padded(q2, w1), seq![c2]);
    } else {
        assert(q1 == q2);
        assert(n1 % 10 < n2 % 10);
        assert(c1 < c2);
        assert(seq![c1].drop_first() =~= Seq::<char>::empty());
        assert(lex_le(seq![c1], seq![c2]));
        lemma_lex_blocks(padded(q1, w1), seq![c1], padded(q2, w1), seq![c2]);
        assert(padded(n1, w).last() != padded(n2, w).last());
    }
}

/// A number with exactly `w` digits is written as its `w`-digit padding.
pub proof fn lemma_decimal_padded(n: nat, w: nat)
    requires
        w >= 1,
        pow10((w - 1) as nat) <= n < pow10(w),
    ensures
        decimal(n) == padded(n, w),
    decreases w,
{
    if n >= 10 {
        assert(w >= 2) by {
            if w == 1 {
                assert(pow10(1) == 10 * pow10(0));
            }
        }
        assert(pow10((w - 1) as nat) == 10 * pow10((w - 2) as nat));
        lemma_decimal_padded(n / 10, (w - 1) as nat);
    } else {
        assert(w == 1) by {
            if w >= 2 {
                assert(pow10((w - 1) as nat) == 10 * pow10((w - 2) as nat));
                lemma_pow10_positive((w - 2) as nat);
            }
        }
        assert(padded(n / 10, 0) =~= Seq::<char>::empty());
        assert(padded(n, 1) =~= seq![digit_char(n)]);
    }
}

proof fn lemma_pow10_positive(w: nat)
    ensures
        pow10(w) >= 1,
    decreases w,
{
    if w > 0 {
        lemma_pow10_positive((w - 1) as nat);
    }
}

/// A number below 100 padded to two digits is its two-digit padding.
pub proof fn lemma_decimal2_padded(n: nat)
    requires
        n < 100,
    ensures
        decimal2(n) == padded(n, 2),
{
    assert(pow10(2) == 100) by {
        reveal_with_fuel(pow10, 3);
    }
    if n >= 10 {
        assert(pow10(1) == 10) by {
            reveal_with_fuel(pow10, 2);
        }
        lemma_decimal_padded(n, 2);
    } else {
        assert(padded(0, 0) =~= Seq::<char>::empty());
        assert(padded(n / 10, 1) =~= seq!['0']);
        assert(padded(n, 2) =~= seq!['0', digit_char(n)]);
    }
}

/// Appends the base-ten digits of `n`.
pub fn push_decimal(out: &mut String, n: u64)
    ensures
        final(out)@ == old(out)@ + decimal(n as nat),
    decreases n,
{
    if n >= 10 {
        push_decimal(out, n / 10);
    }
    push_char(out, digit_of(n % 10));
}

/// Appends `n` in base ten, padded with a leading `0` below ten.
pub fn push_decimal2(out: &mut String, n: u64)
    ensures
        final(out)@ == old(out)@ + decimal2(n as nat),
{
    if n < 10 {
        push_char(out, '0');
    }
    push_decimal(out, n);
}

/// `s` without one leading `+`, if it has one.
pub open spec fn unsigned_digits(s: Seq<char>) -> Seq<char> {
    if s.len() > 0 && s[0] == '+' {
        s.drop_first()
    } else {
        s
    }
}

/// What `str::parse::<u64>` gives: an optional `+`, then one or more ASCII digits
/// whose value fits in 64 bits; anything else is refused.
pub open spec fn spec_parse_u64(s: Seq<char>) -> Option<u64> {
    let d = unsigned_digits(s);
    if d.len() > 0 && all_digits(d) && digits_value(d) <= u64::MAX {
        Some(digits_value(d) as u64)
    } else {
        None
    }
}

proof fn lemma_digits_value_prefix(d: Seq<char>, j: int)
    requires
        all_digits(d),
        0 <= j <= d.len(),
    ensures
        digits_value(d.take(j)) <= digits_value(d),
    decreases d.len(),
{
    if j < d.len() {
        assert(d.drop_last().take(j) == d.take(j));
        lemma_digits_value_prefix(d.drop_last(), j);
    } else {
        assert(d.take(j) == d);
    }
}

/// Parses an unsigned decimal number exactly as `str::parse::<u64>` does.
pub fn parse_u64(s: &str) -> (r: Option<u64>)
    ensures
        r == spec_parse_u64(s@),
{
    let v = chars_of(s);
    let start: usize = if v.len() > 0 && v[0] == '+' { 1 } else { 0 };
    let ghost d = unsigned_digits(s@);
    assert(d == v@.skip(start as int));
    if v.len() == start {
        return None;
    }
    let mut acc: u64 = 0;
    let mut i = start;
    while i < v.len()
        invariant
            v@ == s@,
            start <= i <= v.len(),
            d == v@.skip(start as int),
            d == unsigned_digits(s@),
            d.len() > 0,
            all_digits(d.take(i - start)),
            acc == digits_value(d.take(i - start)),
        decreases v.len() - i,
    {
        let c = v[i];
        assert(d[i - start] == c);
        if !('0' <= c && c <= '9') {
            assert(!all_digits(d));
            return None;
        }
        assert(d.take(i + 1 - start).drop_last() == d.take(i - start));
        let digit: u64 = ((c as u32) - 48) as u64;
        match acc.checked_mul(10) {
            Some(m) => match m.checked_add(digit) {
                Some(n) => {
                    acc = n;
                },
                None => {
                    proof {
                        if all_digits(d) {
                            lemma_digits_value_prefix(d, i + 1 - start);
                        }
                    }
                    return None;
                },
            },
            None => {
                proof {
                    if all_digits(d) {
                        lemma_digits_value_prefix(d, i + 1 - start);
                    }
                }
                return None;
            },
        }
        i = i + 1;
    }
    assert(d.take(v.len() - start) == d);
    Some(acc)
}

/// The pieces of `s` between occurrences of `sep`, as `str::split` yields them:
/// `k` separators give `k + 1` pieces, empty ones included.
pub open spec fn split_on(s: Seq<char>, sep: char) -> Seq<Seq<char>>
    decreases s.len(),
{
    if s.len() == 0 {
        seq![Seq::<char>::empty()]
    } else {
        let p = split_on(s.drop_last(), sep);
        if s.last() == sep {
            p.push(Seq::<char>::empty())
        } else {
            p.update(p.len() - 1, p.last().push(s.last()))
        }
    }
}

/// The pieces `parts` written one after another with `sep` between each two.
pub open spec fn join_with(parts: Seq<Seq<char>>, sep: char) -> Seq<char>
    decreases parts.len(),
{
    if parts.len() == 0 {
        Seq::<char>::empty()
    } else if parts.len() == 1 {
        parts[0]
    } else {
        join_with(parts.drop_last(), sep).push(sep) + parts.last()
    }
}

/// Splitting law: `split_on` never yields an empty list, no piece holds the
/// separator, and writing the pieces back with the separator between them gives
/// the text that was split.
pub proof fn lemma_split_join(s: Seq<char>, sep: char)
    ensures
        split_on(s, sep).len() >= 1,
        forall|i: int|
            0 <= i < split_on(s, sep).len() ==> !(#[trigger] split_on(s, sep)[i]).contains(sep),
        join_with(split_on(s, sep), sep) == s,
    decreases s.len(),
{
    if s.len() == 0 {
        assert(join_with(split_on(s, sep), sep) =~= s);
    } else {
        let t = s.drop_last();
        lemma_split_join(t, sep);
        let p = split_on(t, sep);
        let q = split_on(s, sep);
        if s.last() == sep {
            assert(q.drop_last() == p);
            assert(join_with(q, sep) =~= s);
        } else {
            assert forall|i: int| 0 <= i < q.len() implies !(#[trigger] q[i]).contains(sep) by {
                if i == q.len() - 1 {
                    assert(q[i] == p.last().push(s.last()));
                    if q[i].contains(sep) {
                        let k = choose|k: int| 0 <= k < q[i].len() && q[i][k] == sep;
                        assert(p.last()[k] == sep);
                        assert(p[p.len() - 1].contains(sep));
                    }
                } else {
                    assert(q[i] == p[i]);
                }
            }
            assert(q.last() == p.last().push(s.last()));
            if p.len() == 1 {
                assert(join_with(q, sep) =~= s);
            } else {
                assert(q.drop_last() == p.drop_last());
                assert(join_with(p, sep) == join_with(p.drop_last(), sep).push(sep) + p.last());
                assert(join_with(q, sep) == join_with(p.drop_last(), sep).push(sep) + q.last());
                assert(s =~= t.push(s.last()));
                assert(join_with(q, sep) =~= join_with(p, sep).push(s.last()));
                assert(join_with(q, sep) =~= s);
            }
        }
    }
}

/// The text of each string in `v`.
pub open spec fn texts(v: Seq<String>) -> Seq<Seq<char>> {
    v.map_values(|x: String| x@)
}

/// The pieces of `s` between occurrences of `sep` (`str::split` on one character).
pub fn split_chars(s: &str, sep: char) -> (parts: Vec<String>)
    ensures
        texts(parts@) == split_on(s@, sep),
{
    let v = chars_of(s);
    let mut done: Vec<String> = Vec::new();
    let mut cur: Vec<char> = Vec::new();
    for i in 0..v.len()
        invariant
            v@ == s@,
            texts(done@).push(cur@) == split_on(s@.take(i as int), sep),
    {
        let c = v[i];
        assert(s@.take(i + 1).drop_last() == s@.take(i as int));
        if c == sep {
            let piece = string_from_chars(&cur);
            done.push(piece);
            cur = Vec::new();
            assert(texts(done@).push(cur@) =~= split_on(s@.take(i + 1), sep));
        } else {
            cur.push(c);
            assert(texts(done@).push(cur@) =~= split_on(s@.take(i + 1), sep));
        }
    }
    assert(s@.take(v.len() as int) == s@);
    let last = string_from_chars(&cur);
    done.push(last);
    assert(texts(done@) =~= split_on(s@, sep));
    done
}

/// `line` without one trailing carriage return, if it ends with one.
pub open spec fn strip_cr(line: Seq<char>) -> Seq<char> {
    if line.len() > 0 && line.last() == '\r' {
        line.drop_last()
    } else {
        line
    }
}

/// The lines of `s` as `str::lines` yields them: pieces ended by `\n`, each
/// without its `\n` and without a `\r` just before it; a final piece with no
/// `\n` after it is a line only when it is not empty, and keeps any `\r`.
pub open spec fn lines_of(s: Seq<char>) -> Seq<Seq<char>> {
    let p = split_on(s, '\n');
    let ended = p.drop_last().map_values(|x: Seq<char>| strip_cr(x));
    if p.last().len() == 0 {
        ended
    } else {
        ended.push(p.last())
    }
}

/// How often `c` occurs in `s`.
pub open spec fn count_char(s: Seq<char>, c: char) -> nat
    decreases s.len(),
{
    if s.len() == 0 {
        0
    } else if s.last() == c {
        count_char(s.drop_last(), c) + 1
    } else {
        count_char(s.drop_last(), c)
    }
}

/// The line ending written after a line: `\r\n` where `cr`, else `\n`.
pub open spec fn line_ending(cr: bool) -> Seq<char> {
    if cr {
        seq!['\r', '\n']
    } else {
        seq!['\n']
    }
}

/// `lines` written one after another, each followed by its line ending
/// (`\r\n` where `cr[i]`, else `\n`).
pub open spec fn ended_lines(lines: Seq<Seq<char>>, cr: Seq<bool>) -> Seq<char>
    decreases lines.len(),
{
    if lines.len() == 0 {
        Seq::empty()
    } else {
        ended_lines(lines.drop_last(), cr.drop_last()) + lines.last() + line_ending(cr.last())
    }
}

/// `lines` written back into a text: each followed by its line ending, except the
/// last when `open_end` (the text then does not end in a newline).
pub open spec fn written_lines(lines: Seq<Seq<char>>, cr: Seq<bool>, open_end: bool) -> Seq<char> {
    if open_end && lines.len() > 0 {
        ended_lines(lines.drop_last(), cr.drop_last()) + lines.last()
    } else {
        ended_lines(lines, cr)
    }
}

/// `s` ends in a final piece that no newline ends.
pub open spec fn open_ended(s: Seq<char>) -> bool {
    s.len() > 0 && s.last() != '\n'
}

/// `x` ends with a carriage return.
pub open spec fn ends_with_cr(x: Seq<char>) -> bool {
    x.len() > 0 && x.last() == '\r'
}

proof fn lemma_split_count(s: Seq<char>, sep: char)
    ensures
        split_on(s, sep).len() == count_char(s, sep) + 1,
        split_on(s, sep).last().len() == 0 <==> (s.len() == 0 || s.last() == sep),
    decreases s.len(),
{
    if s.len() > 0 {
        lemma_split_count(s.drop_last(), sep);
    }
}

proof fn lemma_ended_lines_join(q: Seq<Seq<char>>)
    requires
        q.len() >= 1,
    ensures
        ended_lines(
            q.map_values(|x: Seq<char>| strip_cr(x)),
            q.map_values(|x: Seq<char>| ends_with_cr(x)),
        ) == join_with(q, '\n').push('\n'),
    decreases q.len(),
{
    let r = q.drop_last();
    let x = q.last();
    let ls = q.map_values(|x: Seq<char>| strip_cr(x));
    let cs = q.map_values(|x: Seq<char>| ends_with_cr(x));
    assert(ls.drop_last() =~= r.map_values(|x: Seq<char>| strip_cr(x)));
    assert(cs.drop_last() =~= r.map_values(|x: Seq<char>| ends_with_cr(x)));
    assert(strip_cr(x) + line_ending(ends_with_cr(x)) =~= x.push('\n'));
    assert(ls.last() == strip_cr(x));
    assert(cs.last() == ends_with_cr(x));
    assert(ended_lines(ls, cs) == ended_lines(ls.drop_last(), cs.drop_last()) + ls.last()
        + line_ending(cs.last()));
    if r.len() == 0 {
        assert(ls.drop_last() =~= Seq::<Seq<char>>::empty());
        assert(join_with(q, '\n') == x);
        assert(ended_lines(ls, cs) =~= x.push('\n'));
    } else {
        lemma_ended_lines_join(r);
        assert(join_with(q, '\n') == join_with(r, '\n').push('\n') + x);
        assert(ended_lines(ls, cs) =~= join_with(q, '\n').push('\n'));
    }
}

/// Lines law: `lines_of(s)` has one line per `\n` in `s`, plus one for a final
/// piece that no `\n` ends; no line holds a `\n`; and the lines written back, each
/// followed by `\n` (or by `\r\n` where a carriage return was dropped, which
/// happens only to a line that ended in one), except the last when `s` does not
/// end in a newline, give `s` again.
pub proof fn lemma_lines_write_back(s: Seq<char>)
    ensures
        lines_of(s).len() == count_char(s, '\n') + (if s.len() > 0 && s.last() != '\n' {
            1int
        } else {
            0
        }),
        forall|i: int| 0 <= i < lines_of(s).len() ==> !(#[trigger] lines_of(s)[i]).contains('\n'),
        exists|cr: Seq<bool>|
            {
                &&& cr.len() == lines_of(s).len()
                &&& s == #[trigger] written_lines(lines_of(s), cr, open_ended(s))
                &&& forall|i: int|
                    0 <= i < lines_of(s).len() && !(#[trigger] cr[i]) && (i < lines_of(s).len()
                        - 1 || s.len() == 0 || s.last() == '\n') ==> !ends_with_cr(
                        lines_of(s)[i],
                    )
            },
{
    let p = split_on(s, '\n');
    lemma_split_count(s, '\n');
    lemma_split_join(s, '\n');
    let q = p.drop_last();
    let ls = q.map_values(|x: Seq<char>| strip_cr(x));
    let cs = q.map_values(|x: Seq<char>| ends_with_cr(x));
    let open_end = open_ended(s);
    assert forall|i: int| 0 <= i < lines_of(s).len() implies !(#[trigger] lines_of(s)[i]).contains(
        '\n',
    ) by {
        assert(!p[i].contains('\n'));
        if i < q.len() {
            assert(lines_of(s)[i] == strip_cr(q[i]));
            assert(q[i] == p[i]);
            if strip_cr(q[i]).contains('\n') {
                let k = choose|k: int| 0 <= k < strip_cr(q[i]).len() && strip_cr(q[i])[k] == '\n';
                assert(q[i][k] == '\n');
            }
        }
    }
    if !open_end {
        let cr = cs;
        assert(lines_of(s) == ls);
        if q.len() == 0 {
            assert(s.len() == 0) by {
                assert(p.len() == 1);
                assert(join_with(p, '\n') == p[0]);
            }
            assert(s =~= written_lines(lines_of(s), cr, open_end));
        } else {
            lemma_ended_lines_join(q);
            assert(p == q.push(p.last()));
            assert(p.last() =~= Seq::<char>::empty());
            assert(join_with(p, '\n') == join_with(q, '\n').push('\n') + p.last());
            assert(s =~= written_lines(lines_of(s), cr, open_end));
        }
        assert forall|i: int|
            0 <= i < lines_of(s).len() && !(#[trigger] cr[i]) implies !ends_with_cr(
                lines_of(s)[i],
            ) by {
            assert(lines_of(s)[i] == strip_cr(q[i]));
        }
        assert(s == written_lines(lines_of(s), cr, open_end));
    } else {
        let cr = cs.push(false);
        assert(lines_of(s) == ls.push(p.last()));
        assert(lines_of(s).drop_last() == ls);
        assert(cr.drop_last() == cs);
        if q.len() == 0 {
            assert(ls =~= Seq::<Seq<char>>::empty());
            assert(join_with(p, '\n') == p[0]);
            assert(s =~= written_lines(lines_of(s), cr, open_end));
        } else {
            lemma_ended_lines_join(q);
            assert(p == q.push(p.last()));
            assert(join_with(p, '\n') == join_with(q, '\n').push('\n') + p.last());
            assert(s =~= written_lines(lines_of(s), cr, open_end));
        }
        assert forall|i: int|
            0 <= i < lines_of(s).len() && !(#[trigger] cr[i]) && i < lines_of(s).len() - 1
                implies !ends_with_cr(lines_of(s)[i]) by {
            assert(lines_of(s)[i] == strip_cr(q[i]));
            assert(cr[i] == cs[i]);
        }
        assert(s == written_lines(lines_of(s), cr, open_end));
    }
}

fn strip_cr_string(line: &String) -> (r: String)
    ensures
        r@ == strip_cr(line@),
{
    let v = chars_of(line.as_str());
    if v.len() > 0 && v[v.len() - 1] == '\r' {
        let mut w: Vec<char> = Vec::new();
        for i in 0..v.len() - 1
            invariant
                v@ == line@,
                v.len() > 0,
                w@ == v@.take(i as int),
        {
            w.push(v[i]);
            assert(v@.take(i + 1) == v@.take(i as int).push(v@[i as int]));
        }
        assert(w@ =~= v@.drop_last());
        string_from_chars(&w)
    } else {
        line.clone()
    }
}

/// The lines of `s` (`str::lines`).
pub fn lines(s: &str) -> (r: Vec<String>)
    ensures
        texts(r@) == lines_of(s@),
{
    let parts = split_chars(s, '\n');
    proof {
        lemma_split_join(s@, '\n');
    }
    let n = parts.len();
    let mut out: Vec<String> = Vec::new();
    for i in 0..n - 1
        invariant
            n == parts.len(),
            n >= 1,
            texts(parts@) == split_on(s@, '\n'),
            texts(out@) == split_on(s@, '\n').drop_last().take(i as int).map_values(
                |x: Seq<char>| strip_cr(x),
            ),
    {
        let line = strip_cr_string(&parts[i]);
        let ghost before = out@;
        out.push(line);
        proof {
            let whole = split_on(s@, '\n');
            assert(texts(parts@)[i as int] == parts@[i as int]@);
            assert(parts@[i as int]@ == whole[i as int]);
            assert(texts(out@) == texts(before).push(line@));
            assert(whole.drop_last().take(i + 1) == whole.drop_last().take(i as int).push(
                whole[i as int],
            ));
        }
        assert(texts(out@) =~= split_on(s@, '\n').drop_last().take(i + 1).map_values(
            |x: Seq<char>| strip_cr(x),
        ));
    }
    assert(split_on(s@, '\n').drop_last().take(n - 1) == split_on(s@, '\n').drop_last());
    let last = &parts[n - 1];
    assert(last@ == split_on(s@, '\n').last());
    assert(texts(parts@)[n - 1] == last@);
    if last.as_str().is_empty() {
        out
    } else {
        out.push(last.clone());
        assert(texts(out@) =~= lines_of(s@));
        out
    }
}

/// The characters with the Unicode `White_Space` property, the set that
/// `char::is_whitespace` (and so `str::trim`) treats as whitespace.
pub open spec fn is_white_space(c: char) -> bool {
    ||| '\u{9}' <= c && c <= '\u{d}'
    ||| c == ' '
    ||| c == '\u{85}'
    ||| c == '\u{a0}'
    ||| c == '\u{1680}'
    ||| '\u{2000}' <= c && c <= '\u{200a}'
    ||| c == '\u{2028}'
    ||| c == '\u{2029}'
    ||| c == '\u{202f}'
    ||| c == '\u{205f}'
    ||| c == '\u{3000}'
}

fn white_space(c: char) -> (r: bool)
    ensures
        r == is_white_space(c),
{
    ('\u{9}' <= c && c <= '\u{d}') || c == ' ' || c == '\u{85}' || c == '\u{a0}' || c
        == '\u{1680}' || ('\u{2000}' <= c && c <= '\u{200a}') || c == '\u{2028}' || c
        == '\u{2029}' || c == '\u{202f}' || c == '\u{205f}' || c == '\u{3000}'
}

/// `s` without its leading whitespace.
pub open spec fn trim_start(s: Seq<char>) -> Seq<char>
    decreases s.len(),
{
    if s.len() > 0 && is_white_space(s[0]) {
        trim_start(s.drop_first())
    } else {
        s
    }
}

/// `s` without its trailing whitespace.
pub open spec fn trim_end(s: Seq<char>) -> Seq<char>
    decreases s.len(),
{
    if s.len() > 0 && is_white_space(s.last()) {
        trim_end(s.drop_last())
    } else {
        s
    }
}

/// `s` without leading and trailing whitespace (`str::trim`).
pub open spec fn trimmed(s: Seq<char>) -> Seq<char> {
    trim_end(trim_start(s))
}

/// The characters of `v` from `lo` up to (not including) `hi`.
pub fn chars_between(v: &Vec<char>, lo: usize, hi: usize) -> (w: Vec<char>)
    requires
        lo <= hi <= v.len(),
    ensures
        w@ == v@.subrange(lo as int, hi as int),
{
    let mut w: Vec<char> = Vec::new();
    for i in lo..hi
        invariant
            lo <= hi <= v.len(),
            w@ == v@.subrange(lo as int, i as int),
    {
        w.push(v[i]);
        assert(v@.subrange(lo as int, i + 1) == v@.subrange(lo as int, i as int).push(
            v@[i as int],
        ));
    }
    w
}

/// The characters of `v` without leading and trailing whitespace.
#[verifier::rlimit(40)]
pub fn trim_chars(v: &Vec<char>) -> (w: Vec<char>)
    ensures
        w@ == trimmed(v@),
{
    let mut lo: usize = 0;
    assert(v@.skip(0) == v@);
    while lo < v.len() && white_space(v[lo])
        invariant
            lo <= v.len(),
            trim_start(v@) == trim_start(v@.skip(lo as int)),
        decreases v.len() - lo,
    {
        assert(v@.skip(lo as int).drop_first() == v@.skip(lo + 1));
        lo = lo + 1;
    }
    assert(trim_start(v@) == v@.skip(lo as int));
    let mut hi: usize = v.len();
    while hi > lo && white_space(v[hi - 1])
        invariant
            lo <= hi <= v.len(),
            trim_start(v@) == v@.skip(lo as int),
            trimmed(v@) == trim_end(v@.subrange(lo as int, hi as int)),
        decreases hi,
    {
        assert(v@.subrange(lo as int, hi as int).drop_last() == v@.subrange(
            lo as int,
            hi - 1,
        ));
        hi = hi - 1;
    }
    chars_between(v, lo, hi)
}

/// `s` with every occurrence of `c` taken out.
pub open spec fn without_char(s: Seq<char>, c: char) -> Seq<char>
    decreases s.len(),
{
    if s.len() == 0 {
        s
    } else if s.last() == c {
        without_char(s.drop_last(), c)
    } else {
        without_char(s.drop_last(), c).push(s.last())
    }
}

/// The characters of `v` with every occurrence of `c` taken out.
pub fn remove_char(v: &Vec<char>, c: char) -> (w: Vec<char>)
    ensures
        w@ == without_char(v@, c),
{
    let mut w: Vec<char> = Vec::new();
    for i in 0..v.len()
        invariant
            w@ == without_char(v@.take(i as int), c),
    {
        assert(v@.take(i + 1).drop_last() == v@.take(i as int));
        if v[i] != c {
            w.push(v[i]);
        }
    }
    assert(v@.take(v.len() as int) == v@);
    w
}

/// ASCII upper-case letters mapped to lower case; every other character kept.
pub open spec fn ascii_lower(c: char) -> char {
    if 'A' <= c && c <= 'Z' {
        (c as int + 32) as char
    } else {
        c
    }
}

/// Equality up to ASCII case, as `str::eq_ignore_ascii_case` decides it.
pub open spec fn eq_ignore_ascii_case_spec(a: Seq<char>, b: Seq<char>) -> bool {
    &&& a.len() == b.len()
    &&& forall|i: int| 0 <= i < a.len() ==> ascii_lower(#[trigger] a[i]) == ascii_lower(b[i])
}

fn lower_ascii(c: char) -> (r: char)
    ensures
        r == ascii_lower(c),
{
    if 'A' <= c && c <= 'Z' {
        let b: u8 = (c as u8) + 32;
        b as char
    } else {
        c
    }
}

/// Whether `a` and `b` are equal up to ASCII case.
pub fn eq_ignore_ascii_case(a: &str, b: &str) -> (r: bool)
    ensures
        r == eq_ignore_ascii_case_spec(a@, b@),
{
    let x = chars_of(a);
    let y = chars_of(b);
    if x.len() != y.len() {
        return false;
    }
    for i in 0..x.len()
        invariant
            x@ == a@,
            y@ == b@,
            x@.len() == y@.len(),
            forall|j: int| 0 <= j < i ==> ascii_lower(#[trigger] x@[j]) == ascii_lower(y@[j]),
    {
        if lower_ascii(x[i]) != lower_ascii(y[i]) {
            return false;
        }
    }
    true
}

proof fn lemma_trim_start_ascii(s: Seq<char>)
    requires
        is_ascii_text(s),
    ensures
        is_ascii_text(trim_start(s)),
    decreases s.len(),
{
    if s.len() > 0 && is_white_space(s[0]) {
        assert forall|i: int| 0 <= i < s.drop_first().len() implies '\0' <= #[trigger] s.drop_first()[i] <= '\u{7f}' by {
            assert(s.drop_first()[i] == s[i + 1]);
        }
        lemma_trim_start_ascii(s.drop_first());
    }
}

proof fn lemma_trim_end_ascii(s: Seq<char>)
    requires
        is_ascii_text(s),
    ensures
        is_ascii_text(trim_end(s)),
    decreases s.len(),
{
    if s.len() > 0 && is_white_space(s.last()) {
        assert forall|i: int| 0 <= i < s.drop_last().len() implies '\0' <= #[trigger] s.drop_last()[i] <= '\u{7f}' by {
            assert(s.drop_last()[i] == s[i]);
        }
        lemma_trim_end_ascii(s.drop_last());
    }
}

/// Trimming ASCII text leaves ASCII text.
pub proof fn lemma_trimmed_ascii(s: Seq<char>)
    requires
        is_ascii_text(s),
    ensures
        is_ascii_text(trimmed(s)),
{
    lemma_trim_start_ascii(s);
    lemma_trim_end_ascii(trim_start(s));
}

/// Lower-case ASCII letters mapped to upper case; every other character kept.
pub open spec fn ascii_upper(c: char) -> char {
    if 'a' <= c && c <= 'z' {
        (c as int - 32) as char
    } else {
        c
    }
}

/// `s` with its ASCII lower-case letters upper-cased (`str::to_ascii_uppercase`).
pub open spec fn ascii_uppercase(s: Seq<char>) -> Seq<char> {
    s.map_values(|c: char| ascii_upper(c))
}

proof fn lemma_trim_start_upper(s: Seq<char>)
    ensures
        trim_start(ascii_uppercase(s)) == ascii_uppercase(trim_start(s)),
    decreases s.len(),
{
    if s.len() > 0 {
        assert(ascii_uppercase(s)[0] == ascii_upper(s[0]));
        assert(ascii_uppercase(s).drop_first() =~= ascii_uppercase(s.drop_first()));
        lemma_trim_start_upper(s.drop_first());
    } else {
        assert(ascii_uppercase(s) =~= s);
    }
}

proof fn lemma_trim_end_upper(s: Seq<char>)
    ensures
        trim_end(ascii_uppercase(s)) == ascii_uppercase(trim_end(s)),
    decreases s.len(),
{
    if s.len() > 0 {
        assert(ascii_uppercase(s).last() == ascii_upper(s.last()));
        assert(ascii_uppercase(s).drop_last() =~= ascii_uppercase(s.drop_last()));
        lemma_trim_end_upper(s.drop_last());
    } else {
        assert(ascii_uppercase(s) =~= s);
    }
}

/// Trimming and ASCII upper-casing can be done in either order.
pub proof fn lemma_trimmed_upper(s: Seq<char>)
    ensures
        trimmed(ascii_uppercase(s)) == ascii_uppercase(trimmed(s)),
{
    lemma_trim_start_upper(s);
    lemma_trim_end_upper(trim_start(s));
}

/// ASCII lower-casing forgets an ASCII upper-casing done before it.
pub proof fn lemma_lower_upper(s: Seq<char>)
    ensures
        ascii_lowercase(ascii_uppercase(s)) == ascii_lowercase(s),
{
    assert forall|i: int| 0 <= i < s.len() implies #[trigger] ascii_lowercase(ascii_uppercase(s))[i]
        == ascii_lowercase(s)[i] by {
        let c = s[i];
        if 'a' <= c && c <= 'z' {
            assert(ascii_upper(c) as int == c as int - 32);
        }
    }
    assert(ascii_lowercase(ascii_uppercase(s)) =~= ascii_lowercase(s));
}

/// ASCII upper-casing keeps ASCII text ASCII.
pub proof fn lemma_upper_ascii(s: Seq<char>)
    requires
        is_ascii_text(s),
    ensures
        is_ascii_text(ascii_uppercase(s)),
{
    assert forall|i: int| 0 <= i < s.len() implies '\0' <= #[trigger] ascii_uppercase(s)[i] <= '\u{7f}' by {
        let c = s[i];
        if 'a' <= c && c <= 'z' {
            assert(ascii_upper(c) as int == c as int - 32);
        }
    }
}

/// The decimal digits of `n` are ASCII digits, not empty, and worth `n`.
pub proof fn lemma_decimal_digits(n: nat)
    ensures
        decimal(n).len() >= 1,
        all_digits(decimal(n)),
        is_ascii_text(decimal(n)),
        digits_value(decimal(n)) == n,
    decreases n,
{
    if n >= 10 {
        lemma_decimal_digits(n / 10);
        let d = decimal(n);
        assert(d.drop_last() == decimal(n / 10));
        assert forall|i: int| 0 <= i < d.len() implies is_digit(#[trigger] d[i]) by {
            if i < d.len() - 1 {
                assert(d[i] == decimal(n / 10)[i]);
            }
        }
        assert forall|i: int| 0 <= i < d.len() implies '\0' <= #[trigger] d[i] <= '\u{7f}' by {
            assert(is_digit(d[i]));
        }
        assert(digit_value(d.last()) == n % 10);
        assert(n == (n / 10) * 10 + n % 10);
        assert(digits_value(d) == digits_value(d.drop_last()) * 10 + digit_value(d.last()));
    } else {
        let d = decimal(n);
        assert(d.drop_last() =~= Seq::<char>::empty());
        assert(digit_value(d.last()) == n);
        assert(digits_value(d) == digits_value(d.drop_last()) * 10 + digit_value(d.last()));
    }
}

/// Number law: the base-ten digits of every 64-bit `n`, with or without a
/// leading `+`, read back as `n`; and whatever reads as a number is one or more
/// ASCII digits after at most one leading `+`.
pub proof fn lemma_parse_u64_digits(n: u64, s: Seq<char>)
    ensures
        spec_parse_u64(decimal(n as nat)) == Some(n),
        spec_parse_u64(seq!['+'] + decimal(n as nat)) == Some(n),
        spec_parse_u64(s) is Some ==> {
            let start: int = if s.len() > 0 && s[0] == '+' { 1 } else { 0 };
            &&& s.len() > start
            &&& forall|i: int| start <= i < s.len() ==> '0' <= #[trigger] s[i] && s[i] <= '9'
        },
{
    lemma_decimal_digits(n as nat);
    let d = decimal(n as nat);
    assert(is_digit(d[0]));
    assert(unsigned_digits(d) == d);
    assert((seq!['+'] + d)[0] == '+');
    assert(unsigned_digits(seq!['+'] + d) =~= d);
    if spec_parse_u64(s) is Some {
        let start: int = if s.len() > 0 && s[0] == '+' { 1 } else { 0 };
        let u = unsigned_digits(s);
        assert forall|i: int| start <= i < s.len() implies '0' <= #[trigger] s[i] && s[i] <= '9' by {
            assert(u[i - start] == s[i]);
            assert(is_digit(u[i - start]));
        }
    }
}

/// Trimming law: the trimmed text is a stretch `s[lo..hi]` of `s` with only
/// whitespace before and after it, and it neither starts nor ends with whitespace.
pub proof fn lemma_trimmed_stretch(s: Seq<char>)
    ensures
        exists|lo: int, hi: int|
            {
                &&& 0 <= lo <= hi <= s.len()
                &&& #[trigger] s.subrange(lo, hi) == trimmed(s)
                &&& forall|i: int| 0 <= i < lo ==> is_white_space(#[trigger] s[i])
                &&& forall|i: int| hi <= i < s.len() ==> is_white_space(#[trigger] s[i])
            },
        trimmed(s).len() > 0 ==> !is_white_space(trimmed(s)[0]) && !is_white_space(
            trimmed(s).last(),
        ),
{
    let lo = lemma_trim_start_stretch(s);
    let t = trim_start(s);
    let hi = lemma_trim_end_stretch(t);
    assert(s.subrange(lo, lo + hi) =~= t.subrange(0, hi));
    assert forall|i: int| lo + hi <= i < s.len() implies is_white_space(#[trigger] s[i]) by {
        assert(s[i] == t[i - lo]);
    }
    assert(s.subrange(lo, lo + hi) == trimmed(s));
    if trimmed(s).len() > 0 {
        assert(trimmed(s)[0] == t[0]);
    }
}

proof fn lemma_trim_start_stretch(s: Seq<char>) -> (lo: int)
    ensures
        0 <= lo <= s.len(),
        trim_start(s) == s.skip(lo),
        forall|i: int| 0 <= i < lo ==> is_white_space(#[trigger] s[i]),
        trim_start(s).len() > 0 ==> !is_white_space(trim_start(s)[0]),
    decreases s.len(),
{
    if s.len() > 0 && is_white_space(s[0]) {
        let k = lemma_trim_start_stretch(s.drop_first());
        assert(s.drop_first().skip(k) =~= s.skip(k + 1));
        assert forall|i: int| 0 <= i < k + 1 implies is_white_space(#[trigger] s[i]) by {
            if i > 0 {
                assert(s[i] == s.drop_first()[i - 1]);
            }
        }
        k + 1
    } else {
        assert(s.skip(0) =~= s);
        0
    }
}

proof fn lemma_trim_end_stretch(s: Seq<char>) -> (hi: int)
    ensures
        0 <= hi <= s.len(),
        trim_end(s) == s.take(hi),
        forall|i: int| hi <= i < s.len() ==> is_white_space(#[trigger] s[i]),
        trim_end(s).len() > 0 ==> !is_white_space(trim_end(s).last()),
        trim_end(s).len() > 0 ==> trim_end(s)[0] == s[0],
    decreases s.len(),
{
    if s.len() > 0 && is_white_space(s.last()) {
        let k = lemma_trim_end_stretch(s.drop_last());
        assert(s.drop_last().take(k) =~= s.take(k));
        assert forall|i: int| k <= i < s.len() implies is_white_space(#[trigger] s[i]) by {
            if i < s.len() - 1 {
                assert(s[i] == s.drop_last()[i]);
            }
        }
        k
    } else {
        assert(s.take(s.len() as int) =~= s);
        s.len() as int
    }
}

/// Text without `c` loses nothing when `c` is taken out.
pub proof fn lemma_without_absent_char(s: Seq<char>, c: char)
    requires
        !s.contains(c),
    ensures
        without_char(s, c) == s,
    decreases s.len(),
{
    if s.len() > 0 {
        assert(!s.drop_last().contains(c)) by {
            if s.drop_last().contains(c) {
                let k = choose|k: int| 0 <= k < s.drop_last().len() && s.drop_last()[k] == c;
                assert(s[k] == c);
            }
        }
        lemma_without_absent_char(s.drop_last(), c);
        assert(s.drop_last().push(s.last()) =~= s);
    }
}

/// What `str::to_lowercase` gives for a text: its lower-case form under the
/// Unicode case mappings that std implements.
pub uninterp spec fn lowercase(s: Seq<char>) -> Seq<char>;

/// Every character of `s` is ASCII.
pub open spec fn is_ascii_text(s: Seq<char>) -> bool {
    vstd::utf8::is_ascii_chars(s)
}

/// `s` with its ASCII upper-case letters lower-cased.
pub open spec fn ascii_lowercase(s: Seq<char>) -> Seq<char> {
    s.map_values(|c: char| ascii_lower(c))
}

/// Lower-cases `s` (`str::to_lowercase`). Trusted: the result is
/// `lowercase(s)`, a function of the text alone, and for ASCII text it maps `A`..`Z`
/// to `a`..`z` and keeps every other character (the Unicode lower-case mapping of
/// ASCII). The mapping of other characters is not written out here.
#[verifier::external_body]
pub(crate) fn to_lowercase(s: &str) -> (r: String)
    ensures
        r@ == lowercase(s@),
        is_ascii_text(s@) ==> r@ == ascii_lowercase(s@),
{
    s.to_lowercase()
}

} // verus!
