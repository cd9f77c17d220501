//! Text handling over sequences of characters: trimming, lines, words,
//! splitting and numbers.
//!
//! The functions work on the characters of a string, held in a vector, and
//! say what they return over the sequence that the vector holds.

use vstd::prelude::*;

verus! {

/// Whether `c` is white space as Unicode defines it: one of the characters
/// with the property `White_Space`. They are tab to carriage return, the
/// space, next line, the no-break space, the Ogham space mark, the spaces
/// from en quad to hair space, line and paragraph separator, the narrow
/// no-break space, the medium mathematical space and the ideographic space.
pub open spec fn white_space(c: char) -> bool {
    let n = c as u32;
    ||| 0x09 <= n <= 0x0D
    ||| n == 0x20
    ||| n == 0x85
    ||| n == 0xA0
    ||| n == 0x1680
    ||| 0x2000 <= n <= 0x200A
    ||| n == 0x2028
    ||| n == 0x2029
    ||| n == 0x202F
    ||| n == 0x205F
    ||| n == 0x3000
}

/// Whether `c` is white space, by its code point.
pub fn is_white_space(c: char) -> (r: bool)
    ensures
        r == white_space(c),
{
    let n = c as u32;
    (0x09 <= n && n <= 0x0D) || n == 0x20 || n == 0x85 || n == 0xA0 || n == 0x1680 || (0x2000 <= n
        && n <= 0x200A) || n == 0x2028 || n == 0x2029 || n == 0x202F || n == 0x205F || n == 0x3000
}

/// `char::is_whitespace` of the standard library: whether the character has
/// the Unicode property `White_Space`.
pub assume_specification[ char::is_whitespace ](c: char) -> (r: bool)
    ensures
        r == white_space(c),
;

/// `String::push` of the standard library: the character is appended.
pub assume_specification[ String::push ](s: &mut String, c: char)
    ensures
        final(s)@ == old(s)@.push(c),
;

/// The texts that the vectors hold, in order.
pub open spec fn rows(v: Seq<Vec<char>>) -> Seq<Seq<char>> {
    Seq::new(v.len(), |i: int| v[i]@)
}

/// The test for the character `c`.
pub open spec fn is_char(c: char) -> spec_fn(char) -> bool {
    |x: char| x == c
}

/// The test for white space.
pub open spec fn is_space() -> spec_fn(char) -> bool {
    |x: char| white_space(x)
}

/// The test that fails where `p` holds.
pub open spec fn not(p: spec_fn(char) -> bool) -> spec_fn(char) -> bool {
    |x: char| !p(x)
}

/// The first position from `from` on whose character meets `stop`, or the
/// length of `s` where there is none.
pub open spec fn scan(s: Seq<char>, from: int, stop: spec_fn(char) -> bool) -> int
    decreases s.len() - from,
{
    if from < 0 || from >= s.len() {
        s.len() as int
    } else if stop(s[from]) {
        from
    } else {
        scan(s, from + 1, stop)
    }
}

/// `scan` returns a position between `from` and the end; no character before
/// it meets the test, and the one at it does.
pub proof fn lemma_scan(s: Seq<char>, from: int, stop: spec_fn(char) -> bool)
    requires
        0 <= from <= s.len(),
    ensures
        from <= scan(s, from, stop) <= s.len(),
        forall|i: int| from <= i < scan(s, from, stop) ==> !stop(#[trigger] s[i]),
        scan(s, from, stop) < s.len() ==> stop(s[scan(s, from, stop)]),
    decreases s.len() - from,
{
    if from < s.len() && !stop(s[from]) {
        lemma_scan(s, from + 1, stop);
    }
}

/// The number of characters at the end of `s` that meet `p`.
pub open spec fn trailing(s: Seq<char>, p: spec_fn(char) -> bool) -> int
    decreases s.len(),
{
    if s.len() == 0 || !p(s.last()) {
        0
    } else {
        1 + trailing(s.drop_last(), p)
    }
}

/// `s` without the characters at its beginning and at its end that meet `p`.
pub open spec fn trim_with(s: Seq<char>, p: spec_fn(char) -> bool) -> Seq<char> {
    let rest = s.skip(scan(s, 0, not(p)));
    rest.take(rest.len() - trailing(rest, p))
}

/// `s` without the white space at its beginning and at its end.
pub open spec fn trimmed(s: Seq<char>) -> Seq<char> {
    trim_with(s, is_space())
}

/// `s` without every `c` at its beginning and at its end.
pub open spec fn trimmed_of(s: Seq<char>, c: char) -> Seq<char> {
    trim_with(s, is_char(c))
}

/// A text that neither begins nor ends with white space is its own trim.
pub proof fn law_trim_keeps_what_has_no_margin(s: Seq<char>)
    requires
        s.len() > 0,
        !white_space(s[0]),
        !white_space(s[s.len() - 1]),
    ensures
        trimmed(s) == s,
{
    assert(scan(s, 0, not(is_space())) == 0);
    assert(s.skip(0) =~= s);
    assert(trailing(s, is_space()) == 0);
    assert(s.take(s.len() as int) =~= s);
}

/// Trimming takes off nothing but white space, and leaves none at either
/// end.
pub proof fn law_trim_leaves_no_margin(s: Seq<char>)
    ensures
        trimmed(s).len() > 0 ==> !white_space(trimmed(s)[0]) && !white_space(
            trimmed(s)[trimmed(s).len() - 1],
        ),
        trimmed(s).len() <= s.len(),
{
    lemma_scan(s, 0, not(is_space()));
    let rest = s.skip(scan(s, 0, not(is_space())));
    lemma_trailing(rest, is_space());
    let out = trimmed(s);
    if out.len() > 0 {
        assert(out[0] == rest[0]);
        assert(out[out.len() - 1] == rest[rest.len() - trailing(rest, is_space()) - 1]);
    }
}

/// The trailing characters that meet `p` are no more than the text, all of
/// them meet `p`, and the one before them does not.
pub proof fn lemma_trailing(s: Seq<char>, p: spec_fn(char) -> bool)
    ensures
        0 <= trailing(s, p) <= s.len(),
        forall|i: int| s.len() - trailing(s, p) <= i < s.len() ==> p(#[trigger] s[i]),
        trailing(s, p) < s.len() ==> !p(s[s.len() - trailing(s, p) - 1]),
    decreases s.len(),
{
    if s.len() > 0 && p(s.last()) {
        lemma_trailing(s.drop_last(), p);
        assert forall|i: int| s.len() - trailing(s, p) <= i < s.len() implies p(
            #[trigger] s[i],
        ) by {
            if i < s.len() - 1 {
                assert(s.drop_last()[i] == s[i]);
            }
        }
    }
}

/// A text that ends in `k` characters that meet `p`, with none such before
/// them, has `k` as the number of its trailing ones.
pub proof fn lemma_trailing_is(s: Seq<char>, p: spec_fn(char) -> bool, k: int)
    requires
        0 <= k <= s.len(),
        forall|i: int| s.len() - k <= i < s.len() ==> p(#[trigger] s[i]),
        k < s.len() ==> !p(s[s.len() - k - 1]),
    ensures
        trailing(s, p) == k,
    decreases k,
{
    if k > 0 {
        assert(p(s[s.len() - 1]));
        let rest = s.drop_last();
        assert forall|i: int| rest.len() - (k - 1) <= i < rest.len() implies p(
            #[trigger] rest[i],
        ) by {
            assert(rest[i] == s[i]);
        }
        lemma_trailing_is(rest, p, k - 1);
    }
}

/// The line that ends before position `end`, without the carriage return
/// that may close it.
pub open spec fn without_return(line: Seq<char>) -> Seq<char> {
    if line.len() > 0 && line.last() == '\r' {
        line.drop_last()
    } else {
        line
    }
}

/// The lines of `s` from position `from` on. A line ends with a line feed, or
/// with a carriage return and a line feed; the last line may end with the
/// text. The line ends are not part of the lines.
pub open spec fn lines_from(s: Seq<char>, from: int) -> Seq<Seq<char>>
    decreases s.len() - from,
{
    if from < 0 || from >= s.len() {
        Seq::empty()
    } else {
        let end = scan(s, from, is_char('\n'));
        if end < from {
            Seq::empty()
        } else if end >= s.len() {
            seq![s.subrange(from, s.len() as int)]
        } else {
            seq![without_return(s.subrange(from, end))] + lines_from(s, end + 1)
        }
    }
}

/// The lines of `s`.
pub open spec fn lines_of(s: Seq<char>) -> Seq<Seq<char>> {
    lines_from(s, 0)
}

/// The pieces of `s` from position `from` on, parted at every `sep`.
pub open spec fn pieces_from(s: Seq<char>, from: int, sep: char) -> Seq<Seq<char>>
    decreases s.len() - from,
{
    if from < 0 || from > s.len() {
        Seq::empty()
    } else {
        let end = scan(s, from, is_char(sep));
        if end < from || end >= s.len() {
            seq![s.subrange(from, s.len() as int)]
        } else {
            seq![s.subrange(from, end)] + pieces_from(s, end + 1, sep)
        }
    }
}

/// The pieces of `s`, parted at every `sep`. There is one piece more than
/// there are separators; a piece may be empty.
pub open spec fn pieces_of(s: Seq<char>, sep: char) -> Seq<Seq<char>> {
    pieces_from(s, 0, sep)
}

/// The words of `s` from position `from` on.
pub open spec fn words_from(s: Seq<char>, from: int) -> Seq<Seq<char>>
    decreases s.len() - from,
{
    if from < 0 || from >= s.len() {
        Seq::empty()
    } else {
        let begin = scan(s, from, not(is_space()));
        let end = scan(s, begin, is_space());
        if begin < from || begin >= s.len() || end <= begin || end > s.len() {
            Seq::empty()
        } else {
            seq![s.subrange(begin, end)] + words_from(s, end)
        }
    }
}

/// The words of `s`: its longest runs of characters that are no white space.
pub open spec fn words_of(s: Seq<char>) -> Seq<Seq<char>> {
    words_from(s, 0)
}

/// The text is not empty and holds no white space.
pub open spec fn is_word(w: Seq<char>) -> bool {
    w.len() > 0 && forall|j: int| 0 <= j < w.len() ==> !white_space(#[trigger] w[j])
}

/// Every word of a text is a run without white space, and not empty.
pub proof fn law_words_hold_no_space(s: Seq<char>, from: int)
    requires
        0 <= from <= s.len(),
    ensures
        forall|k: int| 0 <= k < words_from(s, from).len() ==> is_word(#[trigger] words_from(s, from)[k]),
    decreases s.len() - from,
{
    if from < s.len() {
        lemma_scan(s, from, not(is_space()));
        let begin = scan(s, from, not(is_space()));
        if begin < s.len() {
            lemma_scan(s, begin, is_space());
            let end = scan(s, begin, is_space());
            if end > begin {
                law_words_hold_no_space(s, end);
                let first = s.subrange(begin, end);
                let rest = words_from(s, end);
                assert(is_word(first)) by {
                    assert forall|j: int| 0 <= j < first.len() implies !white_space(
                        #[trigger] first[j],
                    ) by {
                        assert(!is_space()(s[begin + j]));
                    }
                }
                assert forall|k: int| 0 <= k < words_from(s, from).len() implies is_word(
                    #[trigger] words_from(s, from)[k],
                ) by {
                    if k > 0 {
                        assert(words_from(s, from)[k] == rest[k - 1]);
                    }
                }
            }
        }
    }
}

/// A text without a line feed is one line, unless it is empty.
pub proof fn law_text_without_break_is_one_line(s: Seq<char>)
    requires
        s.len() > 0,
        forall|i: int| 0 <= i < s.len() ==> #[trigger] s[i] != '\n',
    ensures
        lines_of(s) == seq![s],
{
    lemma_scan(s, 0, is_char('\n'));
    let end = scan(s, 0, is_char('\n'));
    if end < s.len() {
        assert(is_char('\n')(s[end]));
    }
    assert(s.subrange(0, s.len() as int) =~= s);
}

/// Whether `pat` stands in `s` at position `at`.
pub open spec fn stands_at(s: Seq<char>, pat: Seq<char>, at: int) -> bool {
    0 <= at && at + pat.len() <= s.len() && s.subrange(at, at + pat.len()) == pat
}

/// The first position from `from` on at which `pat` stands in `s`, or the
/// length of `s` where it stands nowhere.
pub open spec fn find_from(s: Seq<char>, pat: Seq<char>, from: int) -> int
    decreases s.len() - from,
{
    if from < 0 || from >= s.len() || from + pat.len() > s.len() {
        s.len() as int
    } else if stands_at(s, pat, from) {
        from
    } else {
        find_from(s, pat, from + 1)
    }
}

/// Whether `pat` stands somewhere in `s`.
pub open spec fn holds(s: Seq<char>, pat: Seq<char>) -> bool {
    exists|at: int| stands_at(s, pat, at)
}

/// `find_from` returns the first position at which `pat` stands.
pub proof fn lemma_find_from(s: Seq<char>, pat: Seq<char>, from: int)
    requires
        0 <= from <= s.len(),
        pat.len() > 0,
    ensures
        from <= find_from(s, pat, from) <= s.len(),
        find_from(s, pat, from) < s.len() ==> stands_at(s, pat, find_from(s, pat, from)),
        forall|i: int| from <= i < find_from(s, pat, from) ==> !stands_at(s, pat, i),
        find_from(s, pat, from) == s.len() ==> forall|i: int| from <= i ==> !stands_at(s, pat, i),
    decreases s.len() - from,
{
    if from < s.len() && from + pat.len() <= s.len() && !stands_at(s, pat, from) {
        lemma_find_from(s, pat, from + 1);
    }
}

/// The pieces of `s` from position `from` on, parted at the first
/// occurrences of `pat`, one after the other, so that there are at most `n`
/// pieces: the last one holds the rest. An empty `pat` parts nothing.
pub open spec fn parts_from(s: Seq<char>, pat: Seq<char>, from: int, n: nat) -> Seq<Seq<char>>
    decreases n,
{
    if n == 0 || from < 0 || from > s.len() {
        Seq::empty()
    } else {
        let at = find_from(s, pat, from);
        if n == 1 || pat.len() == 0 || at < from || at >= s.len() {
            seq![s.subrange(from, s.len() as int)]
        } else {
            seq![s.subrange(from, at)] + parts_from(s, pat, at + pat.len(), (n - 1) as nat)
        }
    }
}

/// The value of a decimal digit.
pub open spec fn digit_value(c: char) -> int {
    c as int - '0' as int
}

/// Whether `c` is one of the digits `0` to `9`.
pub open spec fn is_digit(c: char) -> bool {
    '0' <= c <= '9'
}

/// Whether `s` is made of decimal digits, at least one.
pub open spec fn all_digits(s: Seq<char>) -> bool {
    s.len() > 0 && forall|i: int| 0 <= i < s.len() ==> is_digit(#[trigger] s[i])
}

/// The number that the digits of `s` write.
pub open spec fn digits_value(s: Seq<char>) -> nat
    decreases s.len(),
{
    if s.len() == 0 {
        0
    } else {
        (digits_value(s.drop_last()) * 10 + digit_value(s.last())) as nat
    }
}

/// The number that `s` writes in decimal: digits, with a plus sign before
/// them or without. Anything else writes no number.
pub open spec fn decimal(s: Seq<char>) -> Option<nat> {
    if s.len() > 0 && s[0] == '+' {
        if all_digits(s.skip(1)) {
            Some(digits_value(s.skip(1)))
        } else {
            None
        }
    } else if all_digits(s) {
        Some(digits_value(s))
    } else {
        None
    }
}

/// What the standard library says of a text that is no number of 64 bits.
pub uninterp spec fn number_fault(s: Seq<char>) -> Seq<char>;

/// `str::parse::<u64>` of the standard library, with its error as text. The
/// text must be decimal digits, with a plus sign before them or without, and
/// the number must fit; the error text depends on the input alone.
#[verifier::external_body]
pub(crate) fn parse_u64(s: &str) -> (r: Result<u64, String>)
    ensures
        match r {
            Ok(n) => decimal(s@) == Some(n as nat),
            Err(e) => (decimal(s@) matches Some(n) ==> n > u64::MAX) && e@ == number_fault(s@),
        },
{
    match s.parse::<u64>() {
        Ok(n) => Ok(n),
        Err(e) => Err(e.to_string()),
    }
}

/// `str::parse::<u32>` of the standard library, without its error. The text
/// must be decimal digits, with a plus sign before them or without, and the
/// number must fit.
#[verifier::external_body]
pub(crate) fn parse_u32(s: &str) -> (r: Option<u32>)
    ensures
        match r {
            Some(n) => decimal(s@) == Some(n as nat),
            None => decimal(s@) matches Some(n) ==> n > u32::MAX,
        },
{
    s.parse::<u32>().ok()
}

/// The number of 32 bits that `s` writes, where it writes one.
pub open spec fn small_number(s: Seq<char>) -> Option<u32> {
    match decimal(s) {
        Some(n) if n <= u32::MAX => Some(n as u32),
        _ => None,
    }
}

/// The characters of `s`, in order.
pub fn chars_of(s: &str) -> (out: Vec<char>)
    ensures
        out@ == s@,
{
    let mut out: Vec<char> = Vec::new();
    for c in it: s.chars()
        invariant
            out@ == it.seq().take(it.index() as int),
            it.seq() == s@,
    {
        out.push(c);
    }
    out
}

/// The string of the characters from `from` up to `to`.
pub fn string_of(chars: &Vec<char>, from: usize, to: usize) -> (out: String)
    requires
        from <= to <= chars@.len(),
    ensures
        out@ == chars@.subrange(from as int, to as int),
{
    let mut out = String::new();
    let mut i: usize = from;
    while i < to
        invariant
            from <= i <= to <= chars@.len(),
            out@ == chars@.subrange(from as int, i as int),
        decreases to - i,
    {
        out.push(chars[i]);
        assert(out@ =~= chars@.subrange(from as int, i + 1));
        i += 1;
    }
    out
}

/// The string of all the characters.
pub fn to_string(chars: &Vec<char>) -> (out: String)
    ensures
        out@ == chars@,
{
    let out = string_of(chars, 0, chars.len());
    assert(chars@.subrange(0, chars@.len() as int) =~= chars@);
    out
}

/// The characters from `from` up to `to`.
pub fn slice_of(chars: &Vec<char>, from: usize, to: usize) -> (out: Vec<char>)
    requires
        from <= to <= chars@.len(),
    ensures
        out@ == chars@.subrange(from as int, to as int),
{
    let mut out: Vec<char> = Vec::new();
    let mut i: usize = from;
    while i < to
        invariant
            from <= i <= to <= chars@.len(),
            out@ == chars@.subrange(from as int, i as int),
        decreases to - i,
    {
        out.push(chars[i]);
        assert(out@ =~= chars@.subrange(from as int, i + 1));
        i += 1;
    }
    out
}

/// The first position from `from` on that holds `c`, or the length.
pub fn find_char(chars: &Vec<char>, from: usize, c: char) -> (at: usize)
    requires
        from <= chars@.len(),
    ensures
        at == scan(chars@, from as int, is_char(c)),
        from <= at <= chars@.len(),
{
    let mut i: usize = from;
    while i < chars.len() && chars[i] != c
        invariant
            from <= i <= chars@.len(),
            scan(chars@, from as int, is_char(c)) == scan(chars@, i as int, is_char(c)),
        decreases chars@.len() - i,
    {
        i += 1;
    }
    i
}

/// The first position from `from` on that holds white space, or the length.
pub fn find_space(chars: &Vec<char>, from: usize) -> (at: usize)
    requires
        from <= chars@.len(),
    ensures
        at == scan(chars@, from as int, is_space()),
        from <= at <= chars@.len(),
{
    let mut i: usize = from;
    while i < chars.len() && !chars[i].is_whitespace()
        invariant
            from <= i <= chars@.len(),
            scan(chars@, from as int, is_space()) == scan(chars@, i as int, is_space()),
        decreases chars@.len() - i,
    {
        i += 1;
    }
    i
}

/// The first position from `from` on that holds no white space, or the
/// length.
pub fn find_ink(chars: &Vec<char>, from: usize) -> (at: usize)
    requires
        from <= chars@.len(),
    ensures
        at == scan(chars@, from as int, not(is_space())),
        from <= at <= chars@.len(),
{
    let mut i: usize = from;
    while i < chars.len() && chars[i].is_whitespace()
        invariant
            from <= i <= chars@.len(),
            scan(chars@, from as int, not(is_space())) == scan(chars@, i as int, not(is_space())),
        decreases chars@.len() - i,
    {
        i += 1;
    }
    i
}

/// The text without the white space at its beginning and at its end.
pub fn trim(chars: &Vec<char>) -> (out: Vec<char>)
    ensures
        out@ == trimmed(chars@),
{
    let begin = find_ink(chars, 0);
    let ghost rest = chars@.skip(begin as int);
    let mut end: usize = chars.len();
    while end > begin && chars[end - 1].is_whitespace()
        invariant
            begin <= end <= chars@.len(),
            forall|i: int| end <= i < chars@.len() ==> white_space(#[trigger] chars@[i]),
        decreases end,
    {
        end -= 1;
    }
    proof {
        lemma_scan(chars@, 0, not(is_space()));
        let k = chars@.len() - end;
        assert forall|i: int| rest.len() - k <= i < rest.len() implies is_space()(
            #[trigger] rest[i],
        ) by {
            assert(rest[i] == chars@[i + begin]);
        }
        if k < rest.len() {
            assert(rest[rest.len() - k - 1] == chars@[end - 1]);
        }
        lemma_trailing_is(rest, is_space(), k);
        assert(chars@.subrange(begin as int, end as int) =~= rest.take(rest.len() - k));
    }
    slice_of(chars, begin, end)
}

/// The text without every `c` at its beginning and at its end.
pub fn trim_char(chars: &Vec<char>, c: char) -> (out: Vec<char>)
    ensures
        out@ == trimmed_of(chars@, c),
{
    let mut begin: usize = 0;
    while begin < chars.len() && chars[begin] == c
        invariant
            begin <= chars@.len(),
            scan(chars@, 0, not(is_char(c))) == scan(chars@, begin as int, not(is_char(c))),
        decreases chars@.len() - begin,
    {
        begin += 1;
    }
    let ghost rest = chars@.skip(begin as int);
    let mut end: usize = chars.len();
    while end > begin && chars[end - 1] == c
        invariant
            begin <= end <= chars@.len(),
            forall|i: int| end <= i < chars@.len() ==> #[trigger] chars@[i] == c,
        decreases end,
    {
        end -= 1;
    }
    proof {
        let k = chars@.len() - end;
        assert forall|i: int| rest.len() - k <= i < rest.len() implies is_char(c)(
            #[trigger] rest[i],
        ) by {
            assert(rest[i] == chars@[i + begin]);
        }
        if k < rest.len() {
            assert(rest[rest.len() - k - 1] == chars@[end - 1]);
        }
        lemma_trailing_is(rest, is_char(c), k);
        assert(chars@.subrange(begin as int, end as int) =~= rest.take(rest.len() - k));
    }
    slice_of(chars, begin, end)
}

/// The lines of the text.
pub fn lines(chars: &Vec<char>) -> (out: Vec<Vec<char>>)
    ensures
        rows(out@) == lines_of(chars@),
{
    let mut out: Vec<Vec<char>> = Vec::new();
    let n = chars.len();
    let mut from: usize = 0;
    while from < n
        invariant
            n == chars@.len(),
            from <= n,
            lines_of(chars@) == rows(out@) + lines_from(chars@, from as int),
        decreases n - from,
    {
        let end = find_char(chars, from, '\n');
        let ghost before = rows(out@);
        if end < n {
            let stop = if end > from && chars[end - 1] == '\r' {
                end - 1
            } else {
                end
            };
            let line = slice_of(chars, from, stop);
            proof {
                let whole = chars@.subrange(from as int, end as int);
                if whole.len() > 0 && whole.last() == '\r' {
                    assert(line@ =~= whole.drop_last());
                } else {
                    assert(line@ =~= whole);
                }
            }
            out.push(line);
            proof {
                assert(rows(out@) =~= before.push(line@));
                assert(before + (seq![line@] + lines_from(chars@, end + 1)) =~= before.push(line@)
                    + lines_from(chars@, end + 1));
            }
            from = end + 1;
        } else {
            let line = slice_of(chars, from, n);
            out.push(line);
            proof {
                assert(rows(out@) =~= before.push(line@));
                assert(lines_from(chars@, n as int) =~= Seq::<Seq<char>>::empty());
                assert(before + seq![line@] =~= before.push(line@) + lines_from(chars@, n as int));
            }
            from = n;
        }
    }
    proof {
        assert(lines_from(chars@, from as int) =~= Seq::<Seq<char>>::empty());
        assert(rows(out@) + Seq::<Seq<char>>::empty() =~= rows(out@));
    }
    out
}

/// The pieces of the text, parted at every `sep`.
pub fn split(chars: &Vec<char>, sep: char) -> (out: Vec<Vec<char>>)
    ensures
        rows(out@) == pieces_of(chars@, sep),
        out@.len() >= 1,
{
    let mut out: Vec<Vec<char>> = Vec::new();
    let n = chars.len();
    let mut from: usize = 0;
    let mut done = false;
    while !done
        invariant
            n == chars@.len(),
            from <= n,
            !done ==> pieces_of(chars@, sep) == rows(out@) + pieces_from(chars@, from as int, sep),
            done ==> pieces_of(chars@, sep) == rows(out@) && out@.len() >= 1,
        decreases n - from, if done { 0int } else { 1int },
    {
        let end = find_char(chars, from, sep);
        let ghost before = rows(out@);
        let piece = slice_of(chars, from, end);
        out.push(piece);
        proof {
            assert(rows(out@) =~= before.push(piece@));
            if end < n {
                assert(before + (seq![piece@] + pieces_from(chars@, end + 1, sep)) =~= before.push(
                    piece@,
                ) + pieces_from(chars@, end + 1, sep));
            } else {
                assert(before + seq![piece@] =~= before.push(piece@));
            }
        }
        if end < n {
            from = end + 1;
        } else {
            done = true;
        }
    }
    out
}

/// The words of the text.
pub fn words(chars: &Vec<char>) -> (out: Vec<Vec<char>>)
    ensures
        rows(out@) == words_of(chars@),
{
    let mut out: Vec<Vec<char>> = Vec::new();
    let n = chars.len();
    let mut from: usize = 0;
    while from < n
        invariant
            n == chars@.len(),
            from <= n,
            words_of(chars@) == rows(out@) + words_from(chars@, from as int),
        decreases n - from,
    {
        let begin = find_ink(chars, from);
        if begin >= n {
            proof {
                assert(words_from(chars@, from as int) =~= Seq::<Seq<char>>::empty());
            }
            from = n;
        } else {
            let end = find_space(chars, begin);
            proof {
                lemma_scan(chars@, from as int, not(is_space()));
                lemma_scan(chars@, begin as int, is_space());
                assert(end > begin);
            }
            let ghost before = rows(out@);
            let word = slice_of(chars, begin, end);
            out.push(word);
            proof {
                assert(rows(out@) =~= before.push(word@));
                assert(before + (seq![word@] + words_from(chars@, end as int)) =~= before.push(word@)
                    + words_from(chars@, end as int));
            }
            from = end;
        }
    }
    proof {
        assert(words_from(chars@, from as int) =~= Seq::<Seq<char>>::empty());
        assert(rows(out@) + Seq::<Seq<char>>::empty() =~= rows(out@));
    }
    out
}

/// Whether `pat` stands in the text at position `at`.
pub fn matches_at(chars: &Vec<char>, pat: &Vec<char>, at: usize) -> (r: bool)
    ensures
        r == stands_at(chars@, pat@, at as int),
{
    let n = chars.len();
    let m = pat.len();
    if m > n || at > n - m {
        return false;
    }
    let mut k: usize = 0;
    while k < m
        invariant
            n == chars@.len(),
            m == pat@.len(),
            at + m <= n,
            k <= m,
            forall|j: int| 0 <= j < k ==> chars@[at + j] == pat@[j],
        decreases m - k,
    {
        if chars[at + k] != pat[k] {
            proof {
                assert(chars@.subrange(at as int, at + m)[k as int] != pat@[k as int]);
            }
            return false;
        }
        k += 1;
    }
    assert(chars@.subrange(at as int, at + m) =~= pat@);
    true
}

/// The first position from `from` on at which `pat` stands in the text, or
/// the length of the text.
pub fn find(chars: &Vec<char>, pat: &Vec<char>, from: usize) -> (at: usize)
    requires
        from <= chars@.len(),
    ensures
        at == find_from(chars@, pat@, from as int),
        at <= chars@.len(),
{
    let n = chars.len();
    let mut i: usize = from;
    while i < n
        invariant
            n == chars@.len(),
            from <= i <= n,
            find_from(chars@, pat@, from as int) == find_from(chars@, pat@, i as int),
        decreases n - i,
    {
        if pat.len() > n - i {
            return n;
        }
        if matches_at(chars, pat, i) {
            return i;
        }
        i += 1;
    }
    n
}

/// Whether the text begins with `prefix`.
pub fn starts_with(chars: &Vec<char>, prefix: &Vec<char>) -> (r: bool)
    ensures
        r == stands_at(chars@, prefix@, 0),
{
    matches_at(chars, prefix, 0)
}

/// Whether `pat` stands somewhere in the text. The empty text stands in
/// every text.
pub fn contains(chars: &Vec<char>, pat: &Vec<char>) -> (r: bool)
    ensures
        r == holds(chars@, pat@),
{
    if pat.len() == 0 {
        assert(chars@.subrange(0, 0) =~= pat@);
        assert(stands_at(chars@, pat@, 0));
        return true;
    }
    let at = find(chars, pat, 0);
    proof {
        lemma_find_from(chars@, pat@, 0);
        if at < chars@.len() {
            assert(stands_at(chars@, pat@, at as int));
        }
    }
    at < chars.len()
}

/// What follows `prefix` in `s`, where `s` begins with it.
pub open spec fn after_prefix(s: Seq<char>, prefix: Seq<char>) -> Option<Seq<char>> {
    if stands_at(s, prefix, 0) {
        Some(s.skip(prefix.len() as int))
    } else {
        None
    }
}

/// What stands before `suffix` in `s`, where `s` ends with it.
pub open spec fn before_suffix(s: Seq<char>, suffix: Seq<char>) -> Option<Seq<char>> {
    if stands_at(s, suffix, s.len() - suffix.len()) {
        Some(s.take(s.len() - suffix.len()))
    } else {
        None
    }
}

/// What follows `prefix` in the text, where the text begins with it.
pub fn strip_prefix(chars: &Vec<char>, prefix: &Vec<char>) -> (r: Option<Vec<char>>)
    ensures
        match r {
            Some(rest) => after_prefix(chars@, prefix@) == Some(rest@),
            None => after_prefix(chars@, prefix@) is None,
        },
{
    if matches_at(chars, prefix, 0) {
        let rest = slice_of(chars, prefix.len(), chars.len());
        assert(rest@ =~= chars@.skip(prefix@.len() as int));
        Some(rest)
    } else {
        None
    }
}

/// What stands before `suffix` in the text, where the text ends with it.
pub fn strip_suffix(chars: &Vec<char>, suffix: &Vec<char>) -> (r: Option<Vec<char>>)
    ensures
        match r {
            Some(rest) => before_suffix(chars@, suffix@) == Some(rest@),
            None => before_suffix(chars@, suffix@) is None,
        },
{
    if suffix.len() > chars.len() {
        return None;
    }
    let at = chars.len() - suffix.len();
    if matches_at(chars, suffix, at) {
        let rest = slice_of(chars, 0, at);
        assert(rest@ =~= chars@.take(at as int));
        Some(rest)
    } else {
        None
    }
}

/// The pieces of the text, parted at the first occurrences of `pat`, at most
/// `n` of them.
pub fn split_n(chars: &Vec<char>, pat: &Vec<char>, n: usize) -> (out: Vec<Vec<char>>)
    ensures
        rows(out@) == parts_from(chars@, pat@, 0, n as nat),
{
    let mut out: Vec<Vec<char>> = Vec::new();
    let len = chars.len();
    let mut from: usize = 0;
    let mut left: usize = n;
    while left > 0
        invariant
            len == chars@.len(),
            from <= len,
            parts_from(chars@, pat@, 0, n as nat) == rows(out@) + parts_from(
                chars@,
                pat@,
                from as int,
                left as nat,
            ),
        decreases left,
    {
        let at = find(chars, pat, from);
        let ghost before = rows(out@);
        proof {
            if pat@.len() > 0 {
                lemma_find_from(chars@, pat@, from as int);
            }
        }
        if left == 1 || pat.len() == 0 || at >= len {
            let piece = slice_of(chars, from, len);
            out.push(piece);
            proof {
                assert(rows(out@) =~= before.push(piece@));
                assert(before + seq![piece@] =~= before.push(piece@));
            }
            return out;
        }
        let piece = slice_of(chars, from, at);
        out.push(piece);
        proof {
            assert(rows(out@) =~= before.push(piece@));
            assert(before + (seq![piece@] + parts_from(
                chars@,
                pat@,
                at + pat@.len(),
                (left - 1) as nat,
            )) =~= before.push(piece@) + parts_from(
                chars@,
                pat@,
                at + pat@.len(),
                (left - 1) as nat,
            ));
        }
        from = at + pat.len();
        left -= 1;
    }
    proof {
        assert(rows(out@) + Seq::<Seq<char>>::empty() =~= rows(out@));
    }
    out
}

/// `s` from position `from` on, with `with` in place of every occurrence of
/// `pat`, found one after the other from the left.
pub open spec fn replaced_from(s: Seq<char>, pat: Seq<char>, with: Seq<char>, from: int) -> Seq<char>
    decreases s.len() - from,
{
    if from < 0 || from >= s.len() || pat.len() == 0 {
        Seq::empty()
    } else {
        let at = find_from(s, pat, from);
        if at < from || at >= s.len() || at + pat.len() > s.len() {
            s.subrange(from, s.len() as int)
        } else {
            s.subrange(from, at) + with + replaced_from(s, pat, with, at + pat.len())
        }
    }
}

/// `s` with `with` in place of every occurrence of `pat`. An empty `pat`
/// occurs nowhere.
pub open spec fn replaced(s: Seq<char>, pat: Seq<char>, with: Seq<char>) -> Seq<char> {
    if pat.len() == 0 {
        s
    } else {
        replaced_from(s, pat, with, 0)
    }
}

/// The text with `with` in place of every occurrence of `pat`.
pub fn replace_all(chars: &Vec<char>, pat: &Vec<char>, with: &Vec<char>) -> (out: Vec<char>)
    ensures
        out@ == replaced(chars@, pat@, with@),
{
    let n = chars.len();
    if pat.len() == 0 {
        let same = slice_of(chars, 0, n);
        assert(same@ =~= chars@);
        return same;
    }
    let mut out: Vec<char> = Vec::new();
    let mut from: usize = 0;
    while from < n
        invariant
            n == chars@.len(),
            pat@.len() > 0,
            from <= n,
            replaced(chars@, pat@, with@) == out@ + replaced_from(chars@, pat@, with@, from as int),
        decreases n - from,
    {
        let at = find(chars, pat, from);
        let ghost before = out@;
        proof {
            lemma_find_from(chars@, pat@, from as int);
        }
        let mut i: usize = from;
        while i < at
            invariant
                from <= i <= at <= n,
                n == chars@.len(),
                out@ == before + chars@.subrange(from as int, i as int),
            decreases at - i,
        {
            out.push(chars[i]);
            assert(out@ =~= before + chars@.subrange(from as int, i + 1));
            i += 1;
        }
        if at < n {
            let ghost copied = out@;
            let mut k: usize = 0;
            while k < with.len()
                invariant
                    k <= with@.len(),
                    out@ == copied + with@.take(k as int),
                decreases with@.len() - k,
            {
                out.push(with[k]);
                assert(out@ =~= copied + with@.take(k + 1));
                k += 1;
            }
            proof {
                assert(with@.take(with@.len() as int) =~= with@);
                let rest = replaced_from(chars@, pat@, with@, at + pat@.len());
                assert(before + (chars@.subrange(from as int, at as int) + with@ + rest) =~= out@
                    + rest);
            }
            from = at + pat.len();
        } else {
            proof {
                assert(replaced_from(chars@, pat@, with@, n as int) =~= Seq::<char>::empty());
                assert(before + chars@.subrange(from as int, n as int) =~= out@ + Seq::<
                    char,
                >::empty());
            }
            from = n;
        }
    }
    proof {
        assert(replaced_from(chars@, pat@, with@, from as int) =~= Seq::<char>::empty());
        assert(out@ + Seq::<char>::empty() =~= out@);
    }
    out
}

/// The strings of the texts, in order.
pub fn to_strings(parts: &Vec<Vec<char>>) -> (out: Vec<String>)
    ensures
        out@.len() == parts@.len(),
        forall|i: int| 0 <= i < out@.len() ==> (#[trigger] out@[i])@ == parts@[i]@,
{
    let mut out: Vec<String> = Vec::new();
    let mut i: usize = 0;
    while i < parts.len()
        invariant
            i <= parts@.len(),
            out@.len() == i,
            forall|a: int| 0 <= a < i ==> (#[trigger] out@[a])@ == parts@[a]@,
        decreases parts@.len() - i,
    {
        out.push(to_string(&parts[i]));
        i += 1;
    }
    out
}

/// The character of a decimal digit.
pub open spec fn digit_char(d: int) -> char {
    (d + 48) as u8 as char
}

/// The decimal digits of `n`, without leading zeros.
pub open spec fn decimal_text(n: nat) -> Seq<char>
    decreases n,
{
    if n < 10 {
        seq![digit_char(n as int)]
    } else {
        decimal_text(n / 10).push(digit_char((n % 10) as int))
    }
}

/// What `decimal_text` writes reads back as the same number.
pub proof fn law_decimal_text_reads_back(n: nat)
    ensures
        all_digits(decimal_text(n)),
        digits_value(decimal_text(n)) == n,
        decimal(decimal_text(n)) == Some(n),
    decreases n,
{
    let text = decimal_text(n);
    if n < 10 {
        assert(text.drop_last() =~= Seq::<char>::empty());
        assert(digit_value(text.last()) == n);
        assert(digits_value(text.drop_last()) == 0);
    } else {
        law_decimal_text_reads_back(n / 10);
        assert(text.drop_last() =~= decimal_text(n / 10));
        assert(digit_value(text.last()) == n % 10);
        assert forall|i: int| 0 <= i < text.len() implies is_digit(#[trigger] text[i]) by {
            if i < text.len() - 1 {
                assert(text[i] == decimal_text(n / 10)[i]);
            }
        }
    }
    assert(text[0] != '+') by {
        assert(is_digit(text[0]));
    }
}

/// The decimal digits of `n`.
pub fn number_text(n: u64) -> (out: String)
    ensures
        out@ == decimal_text(n as nat),
{
    let mut digits: Vec<char> = Vec::new();
    let mut rest: u64 = n;
    while rest >= 10
        invariant
            forall|tail: Seq<char>| #[trigger]
                (decimal_text(rest as nat) + tail) == decimal_text(rest as nat) + tail,
            decimal_text(n as nat) == decimal_text(rest as nat) + digits@.reverse(),
        decreases rest,
    {
        let d = (rest % 10) as u8;
        let ghost before = digits@;
        digits.push((d + 48) as char);
        proof {
            let c = digit_char((rest % 10) as int);
            assert(digits@ =~= before.push(c));
            assert(digits@.reverse() =~= seq![c] + before.reverse());
            assert(decimal_text(rest as nat) == decimal_text((rest / 10) as nat).push(c));
            assert(decimal_text((rest / 10) as nat).push(c) + before.reverse() =~= decimal_text(
                (rest / 10) as nat,
            ) + digits@.reverse());
        }
        rest = rest / 10;
    }
    let mut out = String::new();
    out.push(((rest as u8) + 48) as char);
    assert(out@ =~= decimal_text(rest as nat));
    let mut k: usize = digits.len();
    while k > 0
        invariant
            k <= digits@.len(),
            out@ == decimal_text(rest as nat) + digits@.reverse().take(digits@.len() - k),
        decreases k,
    {
        k -= 1;
        let ghost so_far = out@;
        out.push(digits[k]);
        proof {
            let turned = digits@.reverse();
            assert(turned[digits@.len() - k - 1] == digits@[k as int]);
            assert(turned.take(digits@.len() - k) =~= turned.take(digits@.len() - k - 1).push(
                digits@[k as int],
            ));
            assert(out@ =~= decimal_text(rest as nat) + turned.take(digits@.len() - k));
        }
    }
    assert(digits@.reverse().take(digits@.len() as int) =~= digits@.reverse());
    out
}

/// Whether two strings hold the same text.
pub fn same_text(a: &str, b: &str) -> (same: bool)
    ensures
        same == (a@ == b@),
{
    a.to_owned() == b.to_owned()
}

} // verus!
