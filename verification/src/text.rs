//! Character-level text utilities: trimming, splitting, case folding and
//! decimal-number reading, each with a mathematical model over `Seq<char>`.

use vstd::prelude::*;
use vstd::string::StrSliceExecFns;

verus! {

/// The whitespace characters that trimming removes.
pub open spec fn is_space_char(c: char) -> bool {
    c == ' ' || c == '\t' || c == '\n' || c == '\r' || c == '\u{b}' || c == '\u{c}'
}

fn is_space(c: char) -> (r: bool)
    ensures
        r == is_space_char(c),
{
    c == ' ' || c == '\t' || c == '\n' || c == '\r' || c == '\u{b}' || c == '\u{c}'
}

/// `s` without its leading whitespace.
pub open spec fn trim_front(s: Seq<char>) -> Seq<char>
    decreases s.len(),
{
    if s.len() > 0 && is_space_char(s[0]) {
        trim_front(s.skip(1))
    } else {
        s
    }
}

/// `s` without its trailing whitespace.
pub open spec fn trim_back(s: Seq<char>) -> Seq<char>
    decreases s.len(),
{
    if s.len() > 0 && is_space_char(s[s.len() - 1]) {
        trim_back(s.take(s.len() - 1))
    } else {
        s
    }
}

/// `s` without surrounding whitespace.
pub open spec fn trim_spec(s: Seq<char>) -> Seq<char> {
    trim_back(trim_front(s))
}

proof fn lemma_trim_front_at(s: Seq<char>, i: int)
    requires
        0 <= i <= s.len(),
        forall|j: int| 0 <= j < i ==> is_space_char(s[j]),
        i < s.len() ==> !is_space_char(s[i]),
    ensures
        trim_front(s) == s.skip(i),
    decreases i,
{
    if i == 0 {
        assert(s.skip(0) =~= s);
    } else {
        lemma_trim_front_at(s.skip(1), i - 1);
        assert(s.skip(1).skip(i - 1) =~= s.skip(i));
    }
}

proof fn lemma_trim_back_at(s: Seq<char>, j: int)
    requires
        0 <= j <= s.len(),
        forall|k: int| j <= k < s.len() ==> is_space_char(s[k]),
        j > 0 ==> !is_space_char(s[j - 1]),
    ensures
        trim_back(s) == s.take(j),
    decreases s.len(),
{
    if j == s.len() {
        assert(s.take(j) =~= s);
    } else {
        lemma_trim_back_at(s.take(s.len() - 1), j);
        assert(s.take(s.len() - 1).take(j) =~= s.take(j));
    }
}

/// A borrowed copy of `s` with surrounding whitespace removed.
pub fn trim_of<'a>(s: &'a str) -> (r: &'a str)
    ensures
        r@ == trim_spec(s@),
{
    let len = s.unicode_len();
    let mut start: usize = 0;
    while start < len && is_space(s.get_char(start))
        invariant
            start <= len,
            len == s@.len(),
            forall|j: int| 0 <= j < start ==> is_space_char(s@[j]),
        decreases len - start,
    {
        start += 1;
    }
    proof {
        lemma_trim_front_at(s@, start as int);
    }
    if start == len {
        let r = s.substring_char(len, len);
        proof {
            assert(trim_front(s@) =~= s@.subrange(len as int, len as int));
        }
        return r;
    }
    let mut end: usize = len;
    while end > start && is_space(s.get_char(end - 1))
        invariant
            start <= end <= len,
            len == s@.len(),
            forall|k: int| end <= k < len ==> is_space_char(s@[k]),
        decreases end,
    {
        end -= 1;
    }
    proof {
        assert(end > start) by {
            if end == start {
                assert(is_space_char(s@[start as int]));
            }
        }
        lemma_trim_back_at(s@.skip(start as int), end - start);
        assert(s@.skip(start as int).take(end - start) =~= s@.subrange(
            start as int,
            end as int,
        ));
    }
    s.substring_char(start, end)
}

/// The index of the first occurrence of `sep` in `s`, or `s.len()` if
/// `sep` does not occur.
pub open spec fn first_sep(s: Seq<char>, sep: char) -> int
    decreases s.len(),
{
    if s.len() == 0 {
        0
    } else if s[0] == sep {
        0
    } else {
        1 + first_sep(s.skip(1), sep)
    }
}

pub proof fn lemma_first_sep(s: Seq<char>, sep: char)
    ensures
        0 <= first_sep(s, sep) <= s.len(),
        first_sep(s, sep) < s.len() ==> s[first_sep(s, sep)] == sep,
        forall|j: int| 0 <= j < first_sep(s, sep) ==> s[j] != sep,
    decreases s.len(),
{
    if s.len() == 0 {
    } else if s[0] == sep {
    } else {
        lemma_first_sep(s.skip(1), sep);
        assert forall|j: int| 0 <= j < first_sep(s, sep) implies s[j] != sep by {
            if j > 0 {
                assert(s.skip(1)[j - 1] == s[j]);
            }
        }
    }
}

proof fn lemma_first_sep_is(s: Seq<char>, sep: char, i: int)
    requires
        0 <= i <= s.len(),
        forall|j: int| 0 <= j < i ==> s[j] != sep,
        i < s.len() ==> s[i] == sep,
    ensures
        first_sep(s, sep) == i,
    decreases i,
{
    if i == 0 {
    } else {
        lemma_first_sep_is(s.skip(1), sep, i - 1);
    }
}

/// The index of the first occurrence of `sep`, or the character length of
/// `s` when `sep` does not occur.
pub fn find_char(s: &str, sep: char) -> (r: usize)
    ensures
        r == first_sep(s@, sep),
        r <= s@.len(),
{
    let len = s.unicode_len();
    let mut i: usize = 0;
    while i < len && s.get_char(i) != sep
        invariant
            i <= len,
            len == s@.len(),
            forall|j: int| 0 <= j < i ==> s@[j] != sep,
        decreases len - i,
    {
        i += 1;
    }
    proof {
        lemma_first_sep_is(s@, sep, i as int);
    }
    i
}

/// Whether the two strings hold the same characters.
pub fn str_eq(a: &str, b: &str) -> (r: bool)
    ensures
        r == (a@ == b@),
{
    let alen = a.unicode_len();
    let blen = b.unicode_len();
    if alen != blen {
        return false;
    }
    let mut i: usize = 0;
    while i < alen
        invariant
            i <= alen,
            alen == a@.len(),
            alen == b@.len(),
            forall|j: int| 0 <= j < i ==> a@[j] == b@[j],
        decreases alen - i,
    {
        if a.get_char(i) != b.get_char(i) {
            return false;
        }
        i += 1;
    }
    proof {
        assert(a@ =~= b@);
    }
    true
}

/// The views of a sequence of owned strings.
pub open spec fn seq_views(v: Seq<String>) -> Seq<Seq<char>> {
    v.map_values(|t: String| t@)
}

/// `s` divided at every occurrence of `sep`: the separators are dropped
/// and the pieces between them are kept, empty pieces included, so the
/// result always holds one piece more than `s` holds separators.
pub open spec fn split_spec(s: Seq<char>, sep: char) -> Seq<Seq<char>>
    decreases s.len(),
{
    let i = first_sep(s, sep);
    if 0 <= i < s.len() {
        seq![s.take(i)] + split_spec(s.skip(i + 1), sep)
    } else {
        seq![s]
    }
}

/// The pieces of `s` between occurrences of `sep`, in order.
pub fn split_str(s: &str, sep: char) -> (r: Vec<String>)
    ensures
        seq_views(r@) == split_spec(s@, sep),
{
    let len = s.unicode_len();
    let mut acc: Vec<String> = Vec::new();
    let mut pos: usize = 0;
    let mut done = false;
    proof {
        assert(s@.skip(0) =~= s@);
        assert(seq_views(acc@) + split_spec(s@, sep) =~= split_spec(s@, sep));
    }
    while !done
        invariant
            pos <= len,
            len == s@.len(),
            !done ==> split_spec(s@, sep) == seq_views(acc@) + split_spec(
                s@.skip(pos as int),
                sep,
            ),
            done ==> split_spec(s@, sep) == seq_views(acc@),
        decreases len - pos + (if done { 0int } else { 1int }),
    {
        let suffix = s.substring_char(pos, len);
        let f = find_char(suffix, sep);
        proof {
            lemma_first_sep(suffix@, sep);
        }
        let tok = suffix.substring_char(0, f);
        let ghost old_views = seq_views(acc@);
        acc.push(tok.to_owned());
        proof {
            assert(seq_views(acc@) =~= old_views + seq![tok@]);
        }
        if f == suffix.unicode_len() {
            proof {
                assert(split_spec(suffix@, sep) =~= seq![suffix@]);
                assert(tok@ =~= suffix@);
                assert(split_spec(s@, sep) =~= seq_views(acc@));
            }
            done = true;
        } else {
            proof {
                assert(split_spec(suffix@, sep) == seq![suffix@.take(f as int)]
                    + split_spec(suffix@.skip(f + 1), sep));
                assert(suffix@.skip(f + 1) =~= s@.skip(pos + f + 1));
                assert(tok@ =~= suffix@.take(f as int));
                assert(split_spec(s@, sep) =~= seq_views(acc@) + split_spec(
                    s@.skip(pos + f + 1),
                    sep,
                ));
            }
            pos = pos + f + 1;
        }
    }
    acc
}

/// The character with upper-case ASCII letters folded to lower case; all
/// other characters are kept as they are.
pub open spec fn lower_char(c: char) -> char {
    if 65 <= c as u32 && c as u32 <= 90 {
        (((c as u32) + 32) as u8) as char
    } else {
        c
    }
}

/// `s` with upper-case ASCII letters folded to lower case.
pub open spec fn lower_spec(s: Seq<char>) -> Seq<char> {
    s.map_values(|c: char| lower_char(c))
}

fn to_lower(c: char) -> (r: char)
    ensures
        r == lower_char(c),
{
    if c as u32 >= 65 && c as u32 <= 90 {
        (((c as u32) + 32) as u8) as char
    } else {
        c
    }
}

/// Relies on `String::push`: it appends exactly the given character.
#[verifier::external_body]
fn push_char(s: &mut String, c: char)
    ensures
        final(s)@ == old(s)@.push(c),
{
    s.push(c)
}

/// An owned copy of `s` with upper-case ASCII letters folded to lower case.
pub fn to_lowercase_str(s: &str) -> (r: String)
    ensures
        r@ == lower_spec(s@),
{
    let len = s.unicode_len();
    let mut out = String::new();
    let mut i: usize = 0;
    while i < len
        invariant
            i <= len,
            len == s@.len(),
            out@ == lower_spec(s@.take(i as int)),
        decreases len - i,
    {
        let c = to_lower(s.get_char(i));
        push_char(&mut out, c);
        i += 1;
        proof {
            assert(out@ =~= lower_spec(s@.take(i as int)));
        }
    }
    proof {
        assert(s@.take(len as int) =~= s@);
    }
    out
}

/// Whether `c` is a decimal digit.
pub open spec fn is_digit_char(c: char) -> bool {
    48 <= c as u32 && c as u32 <= 57
}

/// The numeric value of a decimal digit.
pub open spec fn digit_val(c: char) -> int {
    c as u32 - 48
}

/// The value of a sequence of decimal digits, most significant first.
pub open spec fn digits_val(s: Seq<char>) -> int
    decreases s.len(),
{
    if s.len() == 0 {
        0
    } else {
        digits_val(s.drop_last()) * 10 + digit_val(s.last())
    }
}

pub open spec fn all_digits(s: Seq<char>) -> bool {
    forall|i: int| 0 <= i < s.len() ==> is_digit_char(s[i])
}

/// The digits of a number token: an optional leading `+` sign is dropped.
pub open spec fn num_body(s: Seq<char>) -> Seq<char> {
    if s.len() > 0 && s[0] == '+' {
        s.skip(1)
    } else {
        s
    }
}

/// Whether `s` reads as a non-negative decimal integer that fits in
/// `usize`: an optional `+` sign, then at least one digit.
pub open spec fn num_str_valid(s: Seq<char>) -> bool {
    let d = num_body(s);
    d.len() > 0 && all_digits(d) && digits_val(d) <= usize::MAX as int
}

/// The value of a number token.
pub open spec fn num_str_value(s: Seq<char>) -> int {
    digits_val(num_body(s))
}

proof fn lemma_digits_val_nonneg(s: Seq<char>)
    requires
        all_digits(s),
    ensures
        digits_val(s) >= 0,
    decreases s.len(),
{
    if s.len() > 0 {
        lemma_digits_val_nonneg(s.drop_last());
    }
}

proof fn lemma_digits_prefix(s: Seq<char>, k: int)
    requires
        all_digits(s),
        0 <= k <= s.len(),
    ensures
        digits_val(s.take(k)) <= digits_val(s),
    decreases s.len(),
{
    if k == s.len() {
        assert(s.take(k) =~= s);
    } else {
        assert(s.drop_last() =~= s.take(s.len() - 1));
        lemma_digits_val_nonneg(s.drop_last());
        lemma_digits_prefix(s.drop_last(), k);
        assert(s.drop_last().take(k) =~= s.take(k));
    }
}

/// The value of a token of decimal digits, or `Err` when the token is not
/// a non-negative decimal integer or does not fit in `usize`.
pub fn read_number(s: &str) -> (r: Result<usize, ()>)
    ensures
        r is Ok <==> num_str_valid(s@),
        r is Ok ==> r->Ok_0 == num_str_value(s@),
{
    let len = s.unicode_len();
    let start: usize = if len > 0 && s.get_char(0) == '+' {
        1
    } else {
        0
    };
    if start == len {
        return Err(());
    }
    let ghost body = num_body(s@);
    proof {
        assert(body =~= s@.skip(start as int));
    }
    let mut acc: usize = 0;
    let mut i: usize = start;
    while i < len
        invariant
            start <= i <= len,
            len == s@.len(),
            body == num_body(s@),
            body =~= s@.skip(start as int),
            forall|j: int| start <= j < i ==> is_digit_char(s@[j]),
            acc == digits_val(s@.subrange(start as int, i as int)),
        decreases len - i,
    {
        let c = s.get_char(i);
        if !(c as u32 >= 48 && c as u32 <= 57) {
            proof {
                assert(!is_digit_char(body[i - start]));
            }
            return Err(());
        }
        let d = (c as u32 - 48) as usize;
        let next = match acc.checked_mul(10) {
            Some(m) => m.checked_add(d),
            None => None,
        };
        match next {
            Some(v) => {
                proof {
                    let pre = s@.subrange(start as int, i as int);
                    assert(pre.push(s@[i as int]) =~= s@.subrange(start as int, i + 1));
                    assert(pre.push(s@[i as int]).drop_last() =~= pre);
                }
                acc = v;
                i += 1;
            },
            None => {
                proof {
                    if num_str_valid(s@) {
                        let pre = s@.subrange(start as int, i as int);
                        assert(pre.push(s@[i as int]) =~= body.take(i - start + 1));
                        assert(pre.push(s@[i as int]).drop_last() =~= pre);
                        assert(digits_val(body.take(i - start + 1)) > usize::MAX as int);
                        lemma_digits_prefix(body, i - start + 1);
                    }
                }
                return Err(());
            },
        }
    }
    proof {
        assert(body =~= s@.subrange(start as int, len as int));
    }
    Ok(acc)
}

} // verus!
