//! Checks on the command line's paths and usernames, and reading of shortened counts.
use vstd::prelude::*;
use crate::text::{ascii_lowercase, ascii_uppercase, decimal, is_ascii_text, is_digit, lemma_decimal_digits, lemma_lower_upper, lemma_trimmed_ascii, lemma_trimmed_upper, lemma_upper_ascii, lemma_without_absent_char, trim_end, trim_start, unsigned_digits, chars_of, parse_u64, remove_char, spec_parse_u64, string_from_chars, to_lowercase, trim_chars, lowercase, trimmed, without_char};

verus! {

/// What a path names on disk, as the caller found it.
#[derive(Clone, Copy, Debug, PartialEq, Eq)]
pub enum PathKind {
    /// Nothing exists at the path.
    Missing,
    /// A directory.
    Directory,
    /// A regular file.
    File,
    /// Something else that exists (neither directory nor regular file).
    Other,
}

/// The outcome of checking an output directory: the path itself when it names a
/// directory, else the message that refuses it.
pub open spec fn dir_check(s: Seq<char>, kind: PathKind) -> Result<Seq<char>, Seq<char>> {
    match kind {
        PathKind::Missing => Err("Directory does not exist: "@ + s),
        PathKind::Directory => Ok(s),
        _ => Err("Path is not a directory: "@ + s),
    }
}

/// The outcome of checking an input file: the path itself when it names a
/// regular file, else the message that refuses it.
pub open spec fn file_check(s: Seq<char>, kind: PathKind) -> Result<Seq<char>, Seq<char>> {
    match kind {
        PathKind::Missing => Err("File does not exist: "@ + s),
        PathKind::File => Ok(s),
        _ => Err("Path is not a file: "@ + s),
    }
}

pub(crate) fn message(prefix: &str, s: &str) -> (m: String)
    ensures
        m@ == prefix@ + s@,
{
    let mut m = String::from_str(prefix);
    m.append(s);
    m
}

/// Accepts `s` as the output directory when it names a directory (`kind`).
pub fn validate_dir(s: &str, kind: PathKind) -> (r: Result<String, String>)
    ensures
        r matches Ok(p) ==> dir_check(s@, kind) == Ok::<Seq<char>, Seq<char>>(p@),
        r matches Err(e) ==> dir_check(s@, kind) == Err::<Seq<char>, Seq<char>>(e@),
{
    match kind {
        PathKind::Missing => Err(message("Directory does not exist: ", s)),
        PathKind::Directory => Ok(String::from_str(s)),
        _ => Err(message("Path is not a directory: ", s)),
    }
}

/// Accepts `s` as the input file when it names a regular file (`kind`).
pub fn validate_file(s: &str, kind: PathKind) -> (r: Result<String, String>)
    ensures
        r matches Ok(p) ==> file_check(s@, kind) == Ok::<Seq<char>, Seq<char>>(p@),
        r matches Err(e) ==> file_check(s@, kind) == Err::<Seq<char>, Seq<char>>(e@),
{
    match kind {
        PathKind::Missing => Err(message("File does not exist: ", s)),
        PathKind::File => Ok(String::from_str(s)),
        _ => Err(message("Path is not a file: ", s)),
    }
}

/// What `char::is_alphanumeric` answers: Unicode `Alphabetic` or `Numeric`.
pub uninterp spec fn is_alphanumeric(c: char) -> bool;

/// ASCII letters and digits.
pub open spec fn is_ascii_alphanumeric(c: char) -> bool {
    ||| 'a' <= c && c <= 'z'
    ||| 'A' <= c && c <= 'Z'
    ||| '0' <= c && c <= '9'
}

/// `char::is_alphanumeric`. Trusted: the answer is `is_alphanumeric(c)`, and for
/// ASCII characters (std answers those from a table of `a`..`z`, `A`..`Z`,
/// `0`..`9` before consulting Unicode data) it is the ASCII letter-or-digit test.
/// The Unicode tables for other characters are not written out here.
#[verifier::external_body]
fn char_is_alphanumeric(c: char) -> (r: bool)
    ensures
        r == is_alphanumeric(c),
        c <= '\u{7f}' ==> r == is_ascii_alphanumeric(c),
{
    c.is_alphanumeric()
}

/// A character that a username may hold: a letter, a digit or `_`. For ASCII
/// that is `a`..`z`, `A`..`Z`, `0`..`9` and `_`; beyond ASCII, what
/// `char::is_alphanumeric` accepts.
pub open spec fn username_char(c: char) -> bool {
    if c <= '\u{7f}' {
        is_ascii_alphanumeric(c) || c == '_'
    } else {
        is_alphanumeric(c) || c == '_'
    }
}

/// The longest username, counted in UTF-8 bytes.
pub const MAX_USERNAME_BYTES: usize = 15;

/// Why `u` is no username, or `None` when it is one: it must be non-empty, at
/// most 15 bytes in UTF-8, and made of letters, digits and underscores.
pub open spec fn username_problem(u: Seq<char>) -> Option<Seq<char>> {
    if u.len() == 0 {
        Some("`"@ + u + "` Username cannot be empty"@)
    } else if vstd::utf8::encode_utf8(u).len() > 15 {
        Some("`"@ + u + "` Username cannot be longer than 15 characters"@)
    } else if !(forall|i: int| 0 <= i < u.len() ==> username_char(#[trigger] u[i])) {
        Some("`"@ + u + "` Username can only contain letters, numbers, and underscores"@)
    } else {
        None
    }
}

/// Username law: an ASCII text is a username exactly when it has 1 to 15
/// characters, each an ASCII letter of either case, a digit or `_`; when it is
/// not, the message quotes it.
pub proof fn lemma_ascii_username_rules(u: Seq<char>)
    requires
        is_ascii_text(u),
    ensures
        username_problem(u) is None <==> {
            &&& 1 <= u.len() <= 15
            &&& forall|i: int|
                0 <= i < u.len() ==> {
                    let c = #[trigger] u[i];
                    ||| 'a' <= c && c <= 'z'
                    ||| 'A' <= c && c <= 'Z'
                    ||| '0' <= c && c <= '9'
                    ||| c == '_'
                }
        },
        username_problem(u) matches Some(m) ==> m.len() > u.len() + 2 && m.subrange(
            0,
            u.len() + 2int,
        ) == seq!['`'] + u + seq!['`'],
{
    vstd::utf8::is_ascii_chars_encode_utf8(u);
    assert forall|i: int| 0 <= i < u.len() implies #[trigger] username_char(u[i]) == {
        let c = u[i];
        ||| 'a' <= c && c <= 'z'
        ||| 'A' <= c && c <= 'Z'
        ||| '0' <= c && c <= '9'
        ||| c == '_'
    } by {
        assert(u[i] <= '\u{7f}');
    }
    if let Some(m) = username_problem(u) {
        reveal_strlit("`");
        reveal_strlit("` Username cannot be empty");
        reveal_strlit("` Username cannot be longer than 15 characters");
        reveal_strlit("` Username can only contain letters, numbers, and underscores");
        assert(m.subrange(0, u.len() + 2int) =~= seq!['`'] + u + seq!['`']);
    }
}

fn quoted_message(u: &str, tail: &str) -> (m: String)
    ensures
        m@ == "`"@ + u@ + tail@,
{
    let mut m = String::from_str("`");
    m.append(u);
    m.append(tail);
    m
}

/// Checks one username; the message says what is wrong with it.
pub fn validate_username(username: &str) -> (r: Option<String>)
    ensures
        r.deep_view() == username_problem(username@),
{
    if username.is_empty() {
        return Some(quoted_message(username, "` Username cannot be empty"));
    }
    if username.as_bytes().len() > MAX_USERNAME_BYTES {
        return Some(quoted_message(username, "` Username cannot be longer than 15 characters"));
    }
    let v = chars_of(username);
    for i in 0..v.len()
        invariant
            v@ == username@,
            username@.len() > 0,
            vstd::utf8::encode_utf8(username@).len() <= 15,
            forall|j: int| 0 <= j < i ==> username_char(#[trigger] v@[j]),
    {
        let c = v[i];
        assert(v@[i as int] == c);
        if !(char_is_alphanumeric(c) || c == '_') {
            return Some(
                quoted_message(
                    username,
                    "` Username can only contain letters, numbers, and underscores",
                ),
            );
        }
    }
    None
}

/// The message of the first refused username in `names`, or `None` when all pass.
pub open spec fn first_username_problem(names: Seq<Seq<char>>) -> Option<Seq<char>>
    decreases names.len(),
{
    if names.len() == 0 {
        None
    } else {
        match username_problem(names[0]) {
            Some(m) => Some(m),
            None => first_username_problem(names.drop_first()),
        }
    }
}

proof fn lemma_first_username_problem(names: Seq<Seq<char>>)
    ensures
        first_username_problem(names) is None <==> forall|i: int|
            0 <= i < names.len() ==> username_problem(#[trigger] names[i]) is None,
        first_username_problem(names) matches Some(m) ==> exists|i: int|
            0 <= i < names.len() && username_problem(#[trigger] names[i]) == Some(m),
    decreases names.len(),
{
    if names.len() > 0 {
        lemma_first_username_problem(names.drop_first());
        if username_problem(names[0]) is None {
            assert forall|i: int| 0 < i < names.len() implies #[trigger] names[i] == names.drop_first()[i - 1] by {}
            if let Some(m) = first_username_problem(names) {
                let i = choose|i: int|
                    0 <= i < names.drop_first().len() && username_problem(
                        #[trigger] names.drop_first()[i],
                    ) == Some(m);
                assert(names[i + 1] == names.drop_first()[i]);
            }
        }
    }
}

/// Checks every username in order and gives the message for the first one
/// refused, or `None` when all pass.
pub fn validate_usernames(usernames: &Vec<String>) -> (r: Option<String>)
    ensures
        r.deep_view() == first_username_problem(usernames.deep_view()),
        r is None <==> forall|i: int|
            0 <= i < usernames.len() ==> username_problem(#[trigger] usernames@[i]@) is None,
{
    let ghost names = usernames.deep_view();
    assert(names.skip(0) == names);
    proof {
        lemma_first_username_problem(names);
    }
    for i in 0..usernames.len()
        invariant
            names == usernames.deep_view(),
            names.len() == usernames.len(),
            first_username_problem(names) == first_username_problem(names.skip(i as int)),
            forall|j: int| 0 <= j < i ==> username_problem(#[trigger] names[j]) is None,
    {
        assert(names[i as int] == usernames@[i as int]@);
        assert(names.skip(i as int).drop_first() == names.skip(i + 1));
        if let Some(m) = validate_username(usernames[i].as_str()) {
            return Some(m);
        }
    }
    assert(names.skip(usernames.len() as int).len() == 0);
    assert forall|i: int| 0 <= i < usernames.len() implies username_problem(
        #[trigger] usernames@[i]@,
    ) is None by {
        assert(names[i] == usernames@[i]@);
    }
    None
}

/// How a displayed count reads once normalised: a whole number, or a decimal
/// mantissa to be scaled by a power of a thousand (`k`, `m`, `b` suffixes).
#[derive(Clone, Debug, PartialEq, Eq)]
pub enum CountText {
    /// A plain count; `0` where the text is no unsigned number.
    Whole(u64),
    /// `mantissa` times `factor`, e.g. `"1.2"` and `1000` for `1.2K`.
    Scaled { mantissa: String, factor: u64 },
}

/// The view of a [`CountText`], with the mantissa as its characters.
pub enum CountTextView {
    Whole(u64),
    Scaled { mantissa: Seq<char>, factor: u64 },
}

impl View for CountText {
    type V = CountTextView;

    open spec fn view(&self) -> CountTextView {
        match self {
            CountText::Whole(n) => CountTextView::Whole(*n),
            CountText::Scaled { mantissa, factor } => CountTextView::Scaled {
                mantissa: mantissa@,
                factor: *factor,
            },
        }
    }
}

/// A displayed count as the reader works on it: trimmed, lower-cased, commas removed.
pub open spec fn normalized_count(s: Seq<char>) -> Seq<char> {
    without_char(lowercase(trimmed(s)), ',')
}

/// The multiplier that a trailing `k`, `m` or `b` stands for.
pub open spec fn suffix_factor(c: char) -> Option<u64> {
    if c == 'k' {
        Some(1_000)
    } else if c == 'm' {
        Some(1_000_000)
    } else if c == 'b' {
        Some(1_000_000_000)
    } else {
        None
    }
}

/// How a normalised count text `n` reads: with a `k`/`m`/`b` suffix, the
/// trimmed text before it and the suffix's multiplier; otherwise the whole text
/// as an unsigned number, or 0 where it is none.
pub open spec fn count_reading(n: Seq<char>) -> CountTextView {
    if n.len() > 0 && suffix_factor(n.last()) is Some {
        CountTextView::Scaled {
            mantissa: trimmed(n.drop_last()),
            factor: suffix_factor(n.last())->0,
        }
    } else {
        CountTextView::Whole(
            match spec_parse_u64(n) {
                Some(v) => v,
                None => 0,
            },
        )
    }
}

/// How the count text `s` reads, once trimmed, lower-cased and rid of commas.
pub open spec fn count_text(s: Seq<char>) -> CountTextView {
    count_reading(normalized_count(s))
}

/// How the ASCII count text `s` reads: as [`count_text`], with the lower-casing
/// spelled out (for ASCII it only maps `A`..`Z` to `a`..`z`).
pub open spec fn ascii_count_text(s: Seq<char>) -> CountTextView {
    count_reading(without_char(ascii_lowercase(trimmed(s)), ','))
}

/// Count law: the decimal text of any `n` reads as the whole number `n`.
pub proof fn lemma_count_reads_whole_numbers(n: u64)
    ensures
        is_ascii_text(decimal(n as nat)),
        ascii_count_text(decimal(n as nat)) == CountTextView::Whole(n),
{
    let d = decimal(n as nat);
    lemma_decimal_digits(n as nat);
    assert(trim_start(d) == d);
    assert(trim_end(d) == d);
    assert(ascii_lowercase(d) =~= d);
    assert(!d.contains(',')) by {
        if d.contains(',') {
            let k = choose|k: int| 0 <= k < d.len() && d[k] == ',';
            assert(is_digit(d[k]));
        }
    }
    lemma_without_absent_char(d, ',');
    assert(is_digit(d.last()));
    assert(unsigned_digits(d) == d) by {
        assert(is_digit(d[0]));
    }
}

/// Count law: for ASCII text the reading does not depend on case, so the
/// `k`, `m` and `b` suffixes read the same in upper case.
pub proof fn lemma_count_ignores_ascii_case(s: Seq<char>)
    requires
        is_ascii_text(s),
    ensures
        is_ascii_text(ascii_uppercase(s)),
        ascii_count_text(ascii_uppercase(s)) == ascii_count_text(s),
{
    lemma_upper_ascii(s);
    lemma_trimmed_upper(s);
    lemma_lower_upper(trimmed(s));
}

/// Reads a displayed count such as `"1,234"`, `"418K"` or `"1.2M"`: the
/// whole-number case is finished here, a suffixed one is handed back as mantissa
/// and multiplier (the mantissa is a decimal, scaled in floating point by the caller).
pub fn parse_count(s: &str) -> (r: CountText)
    ensures
        r@ == count_text(s@),
        is_ascii_text(s@) ==> r@ == ascii_count_text(s@),
{
    let t = trim_chars(&chars_of(s));
    let trimmed_text = string_from_chars(&t);
    proof {
        if is_ascii_text(s@) {
            lemma_trimmed_ascii(s@);
        }
    }
    let lower = to_lowercase(trimmed_text.as_str());
    let n = remove_char(&chars_of(lower.as_str()), ',');
    if n.len() > 0 {
        let last = n[n.len() - 1];
        let factor: u64 = if last == 'k' {
            1_000
        } else if last == 'm' {
            1_000_000
        } else if last == 'b' {
            1_000_000_000
        } else {
            0
        };
        if factor != 0 {
            let mut head: Vec<char> = Vec::new();
            for i in 0..n.len() - 1
                invariant
                    n.len() > 0,
                    head@ == n@.take(i as int),
            {
                head.push(n[i]);
                assert(n@.take(i + 1) == n@.take(i as int).push(n@[i as int]));
            }
            assert(head@ =~= n@.drop_last());
            let mantissa = string_from_chars(&trim_chars(&head));
            return CountText::Scaled { mantissa, factor };
        }
    }
    let whole = string_from_chars(&n);
    match parse_u64(whole.as_str()) {
        Some(v) => CountText::Whole(v),
        None => CountText::Whole(0),
    }
}

} // verus!
