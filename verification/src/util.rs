//! Scanner primitives: stateless helpers that split off a prefix of the
//! remaining input and hand back the remainder together with what was taken.

use vstd::prelude::*;
use vstd::std_specs::iter::IteratorSpec;

verus! {

/// ASCII decimal digits.
pub open spec fn is_digit(c: char) -> bool {
    '0' <= c <= '9'
}

/// ASCII letters.
pub open spec fn is_alphabetic(c: char) -> bool {
    ('a' <= c <= 'z') || ('A' <= c <= 'Z')
}

/// ASCII letters and digits.
pub open spec fn is_alphanumeric(c: char) -> bool {
    is_alphabetic(c) || is_digit(c)
}

/// The whitespace set of the language: space and newline.
pub open spec fn is_whitespace(c: char) -> bool {
    c == ' ' || c == '\n'
}

/// The four operator characters.
pub open spec fn is_op_char(c: char) -> bool {
    c == '+' || c == '-' || c == '*' || c == '/'
}

/// Length of the longest prefix of `s` all of whose characters satisfy `accept`.
pub open spec fn run_len(accept: spec_fn(char) -> bool, s: Seq<char>) -> nat
    decreases s.len(),
{
    if s.len() > 0 && accept(s[0]) {
        1 + run_len(accept, s.skip(1))
    } else {
        0
    }
}

/// `run_len` stays within the text, covers only accepted characters and stops
/// at the first character that is not accepted.
pub proof fn lemma_run_len(accept: spec_fn(char) -> bool, s: Seq<char>)
    ensures
        run_len(accept, s) <= s.len(),
        forall|i: int| 0 <= i < run_len(accept, s) ==> accept(#[trigger] s[i]),
        run_len(accept, s) < s.len() ==> !accept(s[run_len(accept, s) as int]),
    decreases s.len(),
{
    if s.len() > 0 && accept(s[0]) {
        let t = s.skip(1);
        lemma_run_len(accept, t);
        assert forall|i: int| 0 <= i < run_len(accept, s) implies accept(#[trigger] s[i]) by {
            if i > 0 {
                assert(s[i] == t[i - 1]);
            }
        }
        if run_len(accept, s) < s.len() {
            assert(s[run_len(accept, s) as int] == t[run_len(accept, t) as int]);
        }
    }
}

/// A length within the text that covers only accepted characters and stops
/// before a rejected one, or at the end, is `run_len`.
pub proof fn lemma_run_len_unique(accept: spec_fn(char) -> bool, s: Seq<char>, n: nat)
    requires
        n <= s.len(),
        forall|i: int| 0 <= i < n ==> accept(#[trigger] s[i]),
        n < s.len() ==> !accept(s[n as int]),
    ensures
        run_len(accept, s) == n,
    decreases s.len(),
{
    if n > 0 {
        let t = s.skip(1);
        assert(accept(s[0]));
        assert forall|i: int| 0 <= i < n - 1 implies accept(#[trigger] t[i]) by {
            assert(t[i] == s[i + 1]);
        }
        if n - 1 < t.len() {
            assert(t[n - 1] == s[n as int]);
        }
        lemma_run_len_unique(accept, t, (n - 1) as nat);
    }
}

/// Consumes the longest prefix of `s` whose characters `accept` takes.
/// Never fails; the prefix may be empty. Returns `(remainder, extracted)`.
pub fn take_while(accept: impl Fn(char) -> bool, s: &str) -> (res: (&str, &str))
    requires
        forall|c: char| call_requires(accept, (c,)),
    ensures
        res.1@ + res.0@ == s@,
        forall|i: int| 0 <= i < res.1@.len() ==> call_ensures(accept, (#[trigger] res.1@[i],), true),
        res.0@.len() > 0 ==> call_ensures(accept, (res.0@[0],), false),
{
    let len: usize = s.unicode_len();
    let mut chars = s.chars();
    let mut end: usize = 0;
    loop
        invariant_except_break
            chars.remaining() == s@.skip(end as int),
        invariant
            len == s@.len(),
            end <= len,
            forall|c: char| call_requires(accept, (c,)),
            forall|i: int| 0 <= i < end ==> call_ensures(accept, (#[trigger] s@[i],), true),
        ensures
            end < len ==> call_ensures(accept, (s@[end as int],), false),
        decreases len - end,
    {
        match chars.next() {
            Some(c) => {
                assert(c == s@[end as int]);
                if !accept(c) {
                    break ;
                }
                assert(s@.skip(end as int).drop_first() =~= s@.skip(end + 1));
                end += 1;
            },
            None => {
                break ;
            },
        }
    }
    let extracted = s.substring_char(0, end);
    let remainder = s.substring_char(end, len);
    assert(extracted@ + remainder@ =~= s@);
    (remainder, extracted)
}

/// `take_while`, but an empty prefix is an error: then `error_msg` comes back.
pub fn take_while1(accept: impl Fn(char) -> bool, s: &str, error_msg: String) -> (res: Result<
    (&str, &str),
    String,
>)
    requires
        forall|c: char| call_requires(accept, (c,)),
    ensures
        match res {
            Ok((remainder, extracted)) => {
                &&& extracted@.len() > 0
                &&& extracted@ + remainder@ == s@
                &&& forall|i: int|
                    0 <= i < extracted@.len() ==> call_ensures(
                        accept,
                        (#[trigger] extracted@[i],),
                        true,
                    )
                &&& remainder@.len() > 0 ==> call_ensures(accept, (remainder@[0],), false)
            },
            Err(e) => {
                &&& e == error_msg
                &&& s@.len() > 0 ==> call_ensures(accept, (s@[0],), false)
            },
        },
{
    let (remainder, extracted) = take_while(accept, s);
    if extracted.unicode_len() == 0 {
        assert(remainder@ =~= s@);
        Err(error_msg)
    } else {
        Ok((remainder, extracted))
    }
}

/// The views of a scanner's result.
pub open spec fn scan_view(res: Result<(&str, &str), String>) -> Result<
    (Seq<char>, Seq<char>),
    Seq<char>,
> {
    match res {
        Ok((remainder, extracted)) => Ok((remainder@, extracted@)),
        Err(e) => Err(e@),
    }
}

/// The views of what `tag` returned.
pub open spec fn tag_view(res: Result<&str, String>) -> Result<Seq<char>, Seq<char>> {
    match res {
        Ok(remainder) => Ok(remainder@),
        Err(e) => Err(e@),
    }
}

/// Number of leading ASCII digits.
pub open spec fn digits_len(s: Seq<char>) -> nat {
    run_len(|c: char| is_digit(c), s)
}

/// Number of leading whitespace characters.
pub open spec fn whitespace_len(s: Seq<char>) -> nat {
    run_len(|c: char| is_whitespace(c), s)
}

/// Number of leading ASCII letters and digits.
pub open spec fn alphanumeric_len(s: Seq<char>) -> nat {
    run_len(|c: char| is_alphanumeric(c), s)
}

/// The leading digits of `s`, or "expected digits" where it begins with none.
pub open spec fn scan_digits(s: Seq<char>) -> Result<(Seq<char>, Seq<char>), Seq<char>> {
    let n = digits_len(s) as int;
    if n == 0 {
        Err("expected digits"@)
    } else {
        Ok((s.skip(n), s.take(n)))
    }
}

/// The leading whitespace of `s`, which may be empty.
pub open spec fn scan_whitespace(s: Seq<char>) -> (Seq<char>, Seq<char>) {
    let n = whitespace_len(s) as int;
    (s.skip(n), s.take(n))
}

/// The leading whitespace of `s`, or "expected whitespace" where it begins
/// with none.
pub open spec fn scan_whitespace1(s: Seq<char>) -> Result<(Seq<char>, Seq<char>), Seq<char>> {
    let n = whitespace_len(s) as int;
    if n == 0 {
        Err("expected whitespace"@)
    } else {
        Ok((s.skip(n), s.take(n)))
    }
}

/// The identifier that `s` begins with: a letter, then the longest run of
/// letters and digits. "expected identifier" where `s` begins with no letter.
pub open spec fn scan_ident(s: Seq<char>) -> Result<(Seq<char>, Seq<char>), Seq<char>> {
    if s.len() > 0 && is_alphabetic(s[0]) {
        let n = alphanumeric_len(s) as int;
        Ok((s.skip(n), s.take(n)))
    } else {
        Err("expected identifier"@)
    }
}

/// What is left of `s` behind the literal `starting_text`, or "expected "
/// followed by the literal where `s` does not begin with it.
pub open spec fn scan_tag(starting_text: Seq<char>, s: Seq<char>) -> Result<Seq<char>, Seq<char>> {
    if starting_text.is_prefix_of(s) {
        Ok(s.skip(starting_text.len() as int))
    } else {
        Err("expected "@ + starting_text)
    }
}

pub fn is_digit_char(c: char) -> (b: bool)
    ensures
        b == is_digit(c),
{
    '0' <= c && c <= '9'
}

pub fn is_alphabetic_char(c: char) -> (b: bool)
    ensures
        b == is_alphabetic(c),
{
    ('a' <= c && c <= 'z') || ('A' <= c && c <= 'Z')
}

pub fn is_alphanumeric_char(c: char) -> (b: bool)
    ensures
        b == is_alphanumeric(c),
{
    is_alphabetic_char(c) || is_digit_char(c)
}

pub fn is_whitespace_char(c: char) -> (b: bool)
    ensures
        b == is_whitespace(c),
{
    c == ' ' || c == '\n'
}

/// Splits off the leading run of ASCII digits; fails on an empty run.
pub fn extract_digits(s: &str) -> (res: Result<(&str, &str), String>)
    ensures
        scan_view(res) == scan_digits(s@),
{
    let res = take_while1(is_digit_char, s, "expected digits".to_owned());
    proof {
        match res {
            Ok((remainder, extracted)) => {
                lemma_run_len_unique(|c: char| is_digit(c), s@, extracted@.len());
                assert(extracted@ =~= s@.take(extracted@.len() as int));
                assert(remainder@ =~= s@.skip(extracted@.len() as int));
            },
            Err(_) => {
                lemma_run_len_unique(|c: char| is_digit(c), s@, 0);
            },
        }
    }
    res
}

/// Splits off the operator character that `s` begins with.
pub fn extract_op(s: &str) -> (res: (&str, &str))
    requires
        s@.len() > 0,
        is_op_char(s@[0]),
    ensures
        res.0@ == s@.skip(1),
        res.1@ == s@.take(1),
{
    let len: usize = s.unicode_len();
    (s.substring_char(1, len), s.substring_char(0, 1))
}

/// Splits off the leading run of spaces and newlines, which may be empty.
pub fn extract_whitespace(s: &str) -> (res: (&str, &str))
    ensures
        (res.0@, res.1@) == scan_whitespace(s@),
{
    let (remainder, extracted) = take_while(is_whitespace_char, s);
    proof {
        lemma_run_len_unique(|c: char| is_whitespace(c), s@, extracted@.len());
        assert(extracted@ =~= s@.take(extracted@.len() as int));
        assert(remainder@ =~= s@.skip(extracted@.len() as int));
    }
    (remainder, extracted)
}

/// Splits off the leading run of spaces and newlines; fails on an empty run.
pub fn extract_whitespace1(s: &str) -> (res: Result<(&str, &str), String>)
    ensures
        scan_view(res) == scan_whitespace1(s@),
{
    let res = take_while1(is_whitespace_char, s, "expected whitespace".to_owned());
    proof {
        match res {
            Ok((remainder, extracted)) => {
                lemma_run_len_unique(|c: char| is_whitespace(c), s@, extracted@.len());
                assert(extracted@ =~= s@.take(extracted@.len() as int));
                assert(remainder@ =~= s@.skip(extracted@.len() as int));
            },
            Err(_) => {
                lemma_run_len_unique(|c: char| is_whitespace(c), s@, 0);
            },
        }
    }
    res
}

/// Splits off an identifier: the text must begin with an ASCII letter, and the
/// longest run of ASCII letters and digits is taken.
pub fn extract_ident(s: &str) -> (res: Result<(&str, &str), String>)
    ensures
        scan_view(res) == scan_ident(s@),
{
    let input_starts_with_alphabetic = s.unicode_len() > 0 && is_alphabetic_char(s.get_char(0));
    if input_starts_with_alphabetic {
        let (remainder, extracted) = take_while(is_alphanumeric_char, s);
        proof {
            lemma_run_len_unique(|c: char| is_alphanumeric(c), s@, extracted@.len());
            assert(extracted@ =~= s@.take(extracted@.len() as int));
            assert(remainder@ =~= s@.skip(extracted@.len() as int));
        }
        Ok((remainder, extracted))
    } else {
        Err("expected identifier".to_owned())
    }
}

/// Succeeds exactly when `s` begins with `starting_text`, character for
/// character, and then returns what follows it.
pub fn tag<'a, 'b>(starting_text: &'a str, s: &'b str) -> (res: Result<&'b str, String>)
    ensures
        tag_view(res) == scan_tag(starting_text@, s@),
{
    let tag_len: usize = starting_text.unicode_len();
    let len: usize = s.unicode_len();
    let mut wanted = starting_text.chars();
    let mut given = s.chars();
    let ghost mut matched: int = 0;
    loop
        invariant_except_break
            wanted.remaining() == starting_text@.skip(matched),
            given.remaining() == s@.skip(matched),
        invariant
            tag_len == starting_text@.len(),
            len == s@.len(),
            0 <= matched <= tag_len,
            matched <= len,
            forall|j: int| 0 <= j < matched ==> starting_text@[j] == s@[j],
        ensures
            matched == tag_len,
        decreases tag_len - matched,
    {
        let w = match wanted.next() {
            Some(w) => w,
            None => {
                break ;
            },
        };
        let found = match given.next() {
            Some(g) => g == w,
            None => false,
        };
        if !found {
            assert(!starting_text@.is_prefix_of(s@)) by {
                if tag_len <= len {
                    assert(starting_text@[matched] != s@.subrange(0, tag_len as int)[matched]);
                }
            }
            return Err("expected ".to_owned().concat(starting_text));
        }
        proof {
            assert(starting_text@.skip(matched).drop_first() =~= starting_text@.skip(matched + 1));
            assert(s@.skip(matched).drop_first() =~= s@.skip(matched + 1));
            matched = matched + 1;
        }
    }
    assert(starting_text@ =~= s@.subrange(0, tag_len as int));
    Ok(s.substring_char(tag_len, len))
}

} // verus!
