use vstd::prelude::*;

verus! {

/// Appends one character: `String::push`, which the standard library
/// documents as appending the given char to the end of the string.
#[verifier::external_body]
pub fn push_char(s: &mut String, c: char)
    ensures
        final(s)@ == old(s)@.push(c),
{
    s.push(c);
}

/// Empties a string: `String::clear`, which the standard library documents
/// as truncating the string to length zero.
#[verifier::external_body]
pub fn clear_string(s: &mut String)
    ensures
        final(s)@ == Seq::<char>::empty(),
{
    s.clear();
}

/// The characters of a string slice, in order.
pub fn chars_of(s: &str) -> (v: Vec<char>)
    ensures
        v@ == s@,
{
    let mut v: Vec<char> = Vec::new();
    for c in it: s.chars()
        invariant
            v@ == it.seq().take(it.index() as int),
            it.seq() == s@,
    {
        v.push(c);
    }
    v
}


/// ASCII upper-casing: lowercase ASCII letters map to their uppercase
/// counterparts, every other character is unchanged.
pub open spec fn ascii_upper(c: char) -> char {
    if 'a' <= c <= 'z' {
        ((c as u32) - 32) as char
    } else {
        c
    }
}

/// The ASCII upper-case form of `c`.
pub fn to_ascii_uppercase(c: char) -> (u: char)
    ensures
        u == ascii_upper(c),
{
    if 'a' <= c && c <= 'z' {
        let code: u8 = (c as u8) - 32;
        code as char
    } else {
        c
    }
}


/// Unicode `White_Space`, the property `char::is_whitespace` tests.
pub open spec fn is_whitespace_spec(c: char) -> bool {
    let u = c as u32;
    (0x09 <= u <= 0x0d) || u == 0x20 || u == 0x85 || u == 0xa0 || u == 0x1680 || (0x2000 <= u
        <= 0x200a) || u == 0x2028 || u == 0x2029 || u == 0x202f || u == 0x205f || u == 0x3000
}

/// Whether `c` is Unicode white space.
pub fn is_whitespace(c: char) -> (b: bool)
    ensures
        b == is_whitespace_spec(c),
{
    let u = c as u32;
    (0x09 <= u && u <= 0x0d) || u == 0x20 || u == 0x85 || u == 0xa0 || u == 0x1680 || (0x2000 <= u
        && u <= 0x200a) || u == 0x2028 || u == 0x2029 || u == 0x202f || u == 0x205f || u == 0x3000
}

/// `s` with leading white space removed.
pub open spec fn trim_start_spec(s: Seq<char>) -> Seq<char>
    decreases s.len(),
{
    if s.len() > 0 && is_whitespace_spec(s[0]) {
        trim_start_spec(s.drop_first())
    } else {
        s
    }
}

/// `s` with trailing occurrences of characters satisfying `p` removed.
pub open spec fn trim_end_by(s: Seq<char>, p: spec_fn(char) -> bool) -> Seq<char>
    decreases s.len(),
{
    if s.len() > 0 && p(s.last()) {
        trim_end_by(s.drop_last(), p)
    } else {
        s
    }
}

/// `s` with leading and trailing white space removed (`str::trim`).
pub open spec fn trim_spec(s: Seq<char>) -> Seq<char> {
    trim_end_by(trim_start_spec(s), |c: char| is_whitespace_spec(c))
}

/// `s` with every trailing `c` removed (`str::trim_end_matches` with a char).
pub open spec fn trim_end_char_spec(s: Seq<char>, c: char) -> Seq<char> {
    trim_end_by(s, |d: char| d == c)
}

/// Whether `s` begins with `prefix`.
pub open spec fn starts_with_spec(s: Seq<char>, prefix: Seq<char>) -> bool {
    prefix.len() <= s.len() && s.subrange(0, prefix.len() as int) == prefix
}

/// `s` without leading white space.
pub fn trim_start(s: &Vec<char>) -> (t: Vec<char>)
    ensures
        t@ == trim_start_spec(s@),
{
    let mut i: usize = 0;
    assert(s@.subrange(0, s@.len() as int) =~= s@);
    while i < s.len() && is_whitespace(s[i])
        invariant
            i <= s@.len(),
            trim_start_spec(s@) == trim_start_spec(s@.subrange(i as int, s@.len() as int)),
        decreases s@.len() - i,
    {
        assert(s@.subrange(i as int, s@.len() as int).drop_first() =~= s@.subrange(
            i as int + 1,
            s@.len() as int,
        ));
        i = i + 1;
    }
    let mut t: Vec<char> = Vec::new();
    let mut k: usize = i;
    while k < s.len()
        invariant
            i <= k <= s@.len(),
            t@ == s@.subrange(i as int, k as int),
        decreases s@.len() - k,
    {
        t.push(s[k]);
        assert(s@.subrange(i as int, k as int + 1) =~= s@.subrange(i as int, k as int).push(
            s@[k as int],
        ));
        k = k + 1;
    }
    t
}

/// Whether the last character of `t` is `c` (or white space when `c` is None).
fn ends_with_trimmable(t: &Vec<char>, c: Option<char>) -> (b: bool)
    ensures
        b == (t@.len() > 0 && match c {
            Some(m) => t@.last() == m,
            None => is_whitespace_spec(t@.last()),
        }),
{
    if t.len() == 0 {
        return false;
    }
    let last = t[t.len() - 1];
    match c {
        Some(m) => last == m,
        None => is_whitespace(last),
    }
}

/// `s` with trailing `c` removed, or trailing white space when `c` is None.
fn trim_end_with(s: Vec<char>, c: Option<char>) -> (t: Vec<char>)
    ensures
        c is Some ==> t@ == trim_end_char_spec(s@, c->Some_0),
        c is None ==> t@ == trim_end_by(s@, |d: char| is_whitespace_spec(d)),
{
    let ghost p: spec_fn(char) -> bool = if c is Some {
        |d: char| d == c->Some_0
    } else {
        |d: char| is_whitespace_spec(d)
    };
    let mut t = s;
    let ghost s0 = t@;
    while ends_with_trimmable(&t, c)
        invariant
            trim_end_by(s0, p) == trim_end_by(t@, p),
            p == (if c is Some {
                |d: char| d == c->Some_0
            } else {
                |d: char| is_whitespace_spec(d)
            }),
        decreases t@.len(),
    {
        t.pop();
    }
    t
}

/// `s` without leading and trailing white space (`str::trim`).
pub fn trim(s: &Vec<char>) -> (t: Vec<char>)
    ensures
        t@ == trim_spec(s@),
{
    let front = trim_start(s);
    trim_end_with(front, None)
}

/// `s` without trailing `c` (`str::trim_end_matches` with a char).
pub fn trim_end_char(s: Vec<char>, c: char) -> (t: Vec<char>)
    ensures
        t@ == trim_end_char_spec(s@, c),
{
    trim_end_with(s, Some(c))
}

/// Whether `s` begins with `prefix`.
pub fn starts_with(s: &Vec<char>, prefix: &[char]) -> (b: bool)
    ensures
        b == starts_with_spec(s@, prefix@),
{
    if prefix.len() > s.len() {
        return false;
    }
    let mut i: usize = 0;
    while i < prefix.len()
        invariant
            prefix@.len() <= s@.len(),
            i <= prefix@.len(),
            forall|j: int| 0 <= j < i ==> s@[j] == prefix@[j],
        decreases prefix@.len() - i,
    {
        if s[i] != prefix[i] {
            assert(s@.subrange(0, prefix@.len() as int)[i as int] != prefix@[i as int]);
            return false;
        }
        i = i + 1;
    }
    assert(s@.subrange(0, prefix@.len() as int) =~= prefix@);
    true
}


/// `line` without one trailing carriage return.
pub open spec fn strip_cr(line: Seq<char>) -> Seq<char> {
    if line.len() > 0 && line.last() == '\r' {
        line.drop_last()
    } else {
        line
    }
}

/// Scanning `s` for lines: the lines ended by a newline so far (each
/// without its `\n` or `\r\n`), and the unfinished last line.
pub open spec fn line_scan(s: Seq<char>) -> (Seq<Seq<char>>, Seq<char>)
    decreases s.len(),
{
    if s.len() == 0 {
        (Seq::empty(), Seq::empty())
    } else {
        let (done, cur) = line_scan(s.drop_last());
        if s.last() == '\n' {
            (done.push(strip_cr(cur)), Seq::empty())
        } else {
            (done, cur.push(s.last()))
        }
    }
}

/// The lines of `s` as `str::lines` yields them: split at `\n` or `\r\n`,
/// the final line ending optional, no empty line after a final newline.
pub open spec fn lines_spec(s: Seq<char>) -> Seq<Seq<char>> {
    let (done, cur) = line_scan(s);
    if cur.len() > 0 {
        done.push(cur)
    } else {
        done
    }
}

/// Scanning `s` for words: the words finished so far and the current one.
pub open spec fn word_scan(s: Seq<char>) -> (Seq<Seq<char>>, Seq<char>)
    decreases s.len(),
{
    if s.len() == 0 {
        (Seq::empty(), Seq::empty())
    } else {
        let (done, cur) = word_scan(s.drop_last());
        if is_whitespace_spec(s.last()) {
            (
                if cur.len() > 0 {
                    done.push(cur)
                } else {
                    done
                },
                Seq::empty(),
            )
        } else {
            (done, cur.push(s.last()))
        }
    }
}

/// The white-space separated words of `s` (`str::split_whitespace`).
pub open spec fn words_spec(s: Seq<char>) -> Seq<Seq<char>> {
    let (done, cur) = word_scan(s);
    if cur.len() > 0 {
        done.push(cur)
    } else {
        done
    }
}

/// The lines of `s` (`str::lines`).
pub fn split_lines(s: &Vec<char>) -> (lines: Vec<Vec<char>>)
    ensures
        lines@.len() == lines_spec(s@).len(),
        forall|i: int| 0 <= i < lines@.len() ==> (#[trigger] lines@[i])@ == lines_spec(s@)[i],
{
    let mut done: Vec<Vec<char>> = Vec::new();
    let mut cur: Vec<char> = Vec::new();
    let mut i: usize = 0;
    while i < s.len()
        invariant
            i <= s@.len(),
            done@.len() == line_scan(s@.take(i as int)).0.len(),
            forall|k: int|
                0 <= k < done@.len() ==> (#[trigger] done@[k])@ == line_scan(s@.take(i as int)).0[k],
            cur@ == line_scan(s@.take(i as int)).1,
        decreases s@.len() - i,
    {
        assert(s@.take(i as int + 1).drop_last() =~= s@.take(i as int));
        let c = s[i];
        if c == '\n' {
            let mut line = cur;
            if line.len() > 0 && line[line.len() - 1] == '\r' {
                line.pop();
            }
            done.push(line);
            cur = Vec::new();
        } else {
            cur.push(c);
        }
        i = i + 1;
    }
    assert(s@.take(s@.len() as int) =~= s@);
    if cur.len() > 0 {
        done.push(cur);
    }
    done
}

/// The white-space separated words of `s` (`str::split_whitespace`).
pub fn split_whitespace(s: &Vec<char>) -> (words: Vec<Vec<char>>)
    ensures
        words@.len() == words_spec(s@).len(),
        forall|i: int| 0 <= i < words@.len() ==> (#[trigger] words@[i])@ == words_spec(s@)[i],
{
    let mut done: Vec<Vec<char>> = Vec::new();
    let mut cur: Vec<char> = Vec::new();
    let mut i: usize = 0;
    while i < s.len()
        invariant
            i <= s@.len(),
            done@.len() == word_scan(s@.take(i as int)).0.len(),
            forall|k: int|
                0 <= k < done@.len() ==> (#[trigger] done@[k])@ == word_scan(s@.take(i as int)).0[k],
            cur@ == word_scan(s@.take(i as int)).1,
        decreases s@.len() - i,
    {
        assert(s@.take(i as int + 1).drop_last() =~= s@.take(i as int));
        let c = s[i];
        if is_whitespace(c) {
            if cur.len() > 0 {
                done.push(cur);
            }
            cur = Vec::new();
        } else {
            cur.push(c);
        }
        i = i + 1;
    }
    assert(s@.take(s@.len() as int) =~= s@);
    if cur.len() > 0 {
        done.push(cur);
    }
    done
}

/// Whether every character of `d` is an ASCII digit.
pub open spec fn all_digits(d: Seq<char>) -> bool {
    forall|i: int| 0 <= i < d.len() ==> '0' <= #[trigger] d[i] <= '9'
}

/// The number written by the decimal digits `d`.
pub open spec fn digits_value(d: Seq<char>) -> nat
    decreases d.len(),
{
    if d.len() == 0 {
        0
    } else {
        digits_value(d.drop_last()) * 10 + ((d.last() as u32) - 48) as nat
    }
}

/// `usize::from_str`: an optional `+` followed by at least one ASCII digit,
/// with a value that fits a `usize`.
pub open spec fn parse_usize_spec(s: Seq<char>) -> Option<nat> {
    let d = if s.len() > 0 && s[0] == '+' {
        s.drop_first()
    } else {
        s
    };
    if d.len() > 0 && all_digits(d) && digits_value(d) <= usize::MAX {
        Some(digits_value(d))
    } else {
        None
    }
}

/// A longer run of digits never has a smaller value.
proof fn lemma_digits_value_prefix(d: Seq<char>, i: int)
    requires
        0 <= i <= d.len(),
    ensures
        digits_value(d.take(i)) <= digits_value(d),
    decreases d.len() - i,
{
    if i < d.len() {
        lemma_digits_value_prefix(d, i + 1);
        assert(d.take(i + 1).drop_last() =~= d.take(i));
    } else {
        assert(d.take(i) =~= d);
    }
}

/// Parse a decimal `usize` (`str::parse::<usize>`).
pub fn parse_usize(s: &Vec<char>) -> (r: Option<usize>)
    ensures
        r matches Some(v) ==> parse_usize_spec(s@) == Some(v as nat),
        r is None ==> parse_usize_spec(s@) is None,
{
    let start: usize = if s.len() > 0 && s[0] == '+' {
        1
    } else {
        0
    };
    let ghost d = if s@.len() > 0 && s@[0] == '+' {
        s@.drop_first()
    } else {
        s@
    };
    assert(d =~= s@.subrange(start as int, s@.len() as int));
    if start >= s.len() {
        return None;
    }
    let mut value: usize = 0;
    let mut i: usize = start;
    while i < s.len()
        invariant
            start <= i <= s@.len(),
            d =~= s@.subrange(start as int, s@.len() as int),
            d == (if s@.len() > 0 && s@[0] == '+' {
                s@.drop_first()
            } else {
                s@
            }),
            all_digits(d.take(i - start)),
            value == digits_value(d.take(i - start)),
        decreases s@.len() - i,
    {
        let c = s[i];
        if !('0' <= c && c <= '9') {
            assert(d[i - start] == c);
            return None;
        }
        let digit = (c as u32 - 48) as usize;
        assert(d.take(i - start + 1).drop_last() =~= d.take(i - start));
        let next = match value.checked_mul(10) {
            Some(v) => v.checked_add(digit),
            None => None,
        };
        match next {
            Some(v) => {
                value = v;
            },
            None => {
                proof {
                    // The digits so far already exceed usize::MAX.
                    assert(digits_value(d.take(i - start + 1)) == value * 10 + digit);
                    lemma_digits_value_prefix(d, i - start + 1);
                }
                return None;
            },
        }
        i = i + 1;
    }
    assert(d.take(d.len() as int) =~= d);
    Some(value)
}

/// Number of bytes of `c` in UTF-8.
pub open spec fn utf8_len(c: char) -> nat {
    let u = c as u32;
    if u < 0x80 {
        1
    } else if u < 0x800 {
        2
    } else if u < 0x10000 {
        3
    } else {
        4
    }
}

/// Number of bytes of `s` in UTF-8 (`str::len`).
pub open spec fn byte_len(s: Seq<char>) -> nat
    decreases s.len(),
{
    if s.len() == 0 {
        0
    } else {
        byte_len(s.drop_last()) + utf8_len(s.last())
    }
}


/// Splitting `s` into lines yields at most `s.len()` lines, none longer
/// than `s`.
pub proof fn lemma_lines_bounded(s: Seq<char>)
    ensures
        lines_spec(s).len() <= s.len(),
        forall|i: int| 0 <= i < lines_spec(s).len() ==> (#[trigger] lines_spec(s)[i]).len() <= s.len(),
{
    lemma_line_scan_bounded(s);
}

proof fn lemma_line_scan_bounded(s: Seq<char>)
    ensures
        line_scan(s).0.len() + line_scan(s).1.len() <= s.len(),
        forall|i: int|
            0 <= i < line_scan(s).0.len() ==> (#[trigger] line_scan(s).0[i]).len() <= s.len(),
    decreases s.len(),
{
    if s.len() > 0 {
        lemma_line_scan_bounded(s.drop_last());
    }
}

/// Each character takes one to four bytes in UTF-8.
pub proof fn lemma_byte_len_bounds(s: Seq<char>)
    ensures
        s.len() <= byte_len(s) <= 4 * s.len(),
    decreases s.len(),
{
    if s.len() > 0 {
        lemma_byte_len_bounds(s.drop_last());
    }
}

/// Number of bytes of `s` in UTF-8 (`str::len`).
pub fn byte_length(s: &Vec<char>) -> (n: usize)
    requires
        s@.len() * 4 <= usize::MAX,
    ensures
        n == byte_len(s@),
{
    let mut n: usize = 0;
    let mut i: usize = 0;
    while i < s.len()
        invariant
            i <= s@.len(),
            s@.len() * 4 <= usize::MAX,
            n == byte_len(s@.take(i as int)),
        decreases s@.len() - i,
    {
        proof {
            assert(s@.take(i as int + 1).drop_last() =~= s@.take(i as int));
            lemma_byte_len_bounds(s@.take(i as int + 1));
        }
        let u = s[i] as u32;
        let k: usize = if u < 0x80 {
            1
        } else if u < 0x800 {
            2
        } else if u < 0x10000 {
            3
        } else {
            4
        };
        n = n + k;
        i = i + 1;
    }
    assert(s@.take(s@.len() as int) =~= s@);
    n
}


/// Removing trailing copies of `c` never lengthens a sequence.
pub proof fn lemma_trim_end_char_len(s: Seq<char>, c: char)
    ensures
        trim_end_char_spec(s, c).len() <= s.len(),
    decreases s.len(),
{
    if s.len() > 0 && s.last() == c {
        lemma_trim_end_char_len(s.drop_last(), c);
    }
}

/// Trimming the end keeps a prefix of `s`: every character removed satisfies
/// `p`, and the kept prefix is empty or ends in a character that does not.
pub proof fn lemma_trim_end_by_shape(s: Seq<char>, p: spec_fn(char) -> bool)
    ensures
        trim_end_by(s, p).len() <= s.len(),
        trim_end_by(s, p) == s.take(trim_end_by(s, p).len() as int),
        forall|i: int| trim_end_by(s, p).len() <= i < s.len() ==> p(#[trigger] s[i]),
        trim_end_by(s, p).len() == 0 || !p(trim_end_by(s, p).last()),
    decreases s.len(),
{
    if s.len() > 0 && p(s.last()) {
        lemma_trim_end_by_shape(s.drop_last(), p);
        let t = trim_end_by(s.drop_last(), p);
        assert(s.drop_last().take(t.len() as int) =~= s.take(t.len() as int));
        assert forall|i: int| t.len() <= i < s.len() implies p(#[trigger] s[i]) by {
            if i < s.len() - 1 {
                assert(s.drop_last()[i] == s[i]);
            }
        }
    } else {
        assert(s.take(s.len() as int) =~= s);
    }
}

/// Trimming a character off the end keeps a prefix of `s`: every
/// character removed is `c`, and the kept prefix is empty or does not end
/// in `c`.
pub proof fn lemma_trim_end_char_shape(s: Seq<char>, c: char)
    ensures
        trim_end_char_spec(s, c).len() <= s.len(),
        trim_end_char_spec(s, c) == s.take(trim_end_char_spec(s, c).len() as int),
        forall|i: int| trim_end_char_spec(s, c).len() <= i < s.len() ==> #[trigger] s[i] == c,
        trim_end_char_spec(s, c).len() == 0 || trim_end_char_spec(s, c).last() != c,
    decreases s.len(),
{
    if s.len() > 0 && s.last() == c {
        lemma_trim_end_char_shape(s.drop_last(), c);
        let t = trim_end_char_spec(s.drop_last(), c);
        assert(s.drop_last().take(t.len() as int) =~= s.take(t.len() as int));
        assert forall|i: int| t.len() <= i < s.len() implies #[trigger] s[i] == c by {
            if i < s.len() - 1 {
                assert(s.drop_last()[i] == s[i]);
            }
        }
    } else {
        assert(s.take(s.len() as int) =~= s);
    }
}

/// ASCII upper-casing maps each lowercase letter `'a'..='z'` to the
/// uppercase letter 32 code points below it (`'t'` to `'T'`), and leaves
/// every other character as it is.
pub proof fn lemma_ascii_upper_letters(c: char)
    ensures
        'a' <= c <= 'z' ==> ascii_upper(c) as u32 == c as u32 - 32 && 'A' <= ascii_upper(c) <= 'Z',
        !('a' <= c <= 'z') ==> ascii_upper(c) == c,
{
}

/// Removing leading white space keeps a suffix of `s`: every character
/// removed is white space, and the kept suffix is empty or starts with a
/// character that is not.
proof fn lemma_trim_start_shape(s: Seq<char>)
    ensures
        trim_start_spec(s).len() <= s.len(),
        trim_start_spec(s) == s.skip(s.len() - trim_start_spec(s).len()),
        forall|i: int|
            0 <= i < s.len() - trim_start_spec(s).len() ==> is_whitespace_spec(#[trigger] s[i]),
        trim_start_spec(s).len() == 0 || !is_whitespace_spec(trim_start_spec(s)[0]),
    decreases s.len(),
{
    if s.len() > 0 && is_whitespace_spec(s[0]) {
        lemma_trim_start_shape(s.drop_first());
        let t = trim_start_spec(s.drop_first());
        assert(s.drop_first().skip(s.drop_first().len() - t.len()) =~= s.skip(s.len() - t.len()));
        assert forall|i: int| 0 <= i < s.len() - t.len() implies is_whitespace_spec(
            #[trigger] s[i],
        ) by {
            if i > 0 {
                assert(s.drop_first()[i - 1] == s[i]);
            }
        }
    } else {
        assert(s.skip(0) =~= s);
    }
}

/// `t` is `s[i..j]` with only white space around it, and `t` neither
/// starts nor ends with white space.
pub open spec fn trimmed_from(s: Seq<char>, t: Seq<char>, i: int, j: int) -> bool {
    &&& 0 <= i <= j <= s.len()
    &&& t == s.subrange(i, j)
    &&& forall|k: int| 0 <= k < i ==> is_whitespace_spec(#[trigger] s[k])
    &&& forall|k: int| j <= k < s.len() ==> is_whitespace_spec(#[trigger] s[k])
    &&& (t.len() == 0 || (!is_whitespace_spec(t[0]) && !is_whitespace_spec(t.last())))
}

/// Trimming (`str::trim`) removes exactly the white space at both ends:
/// the result is a stretch of `s` with only white space before and after
/// it, and it neither starts nor ends with white space.
pub proof fn lemma_trim_removes_surrounding_white_space(s: Seq<char>)
    ensures
        exists|i: int, j: int| #[trigger] trimmed_from(s, trim_spec(s), i, j),
{
    let ws = |c: char| is_whitespace_spec(c);
    let u = trim_start_spec(s);
    lemma_trim_start_shape(s);
    lemma_trim_end_by_shape(u, ws);
    let t = trim_end_by(u, ws);
    assert(t == trim_spec(s));
    let i = s.len() - u.len();
    let j = i + t.len();
    assert(t =~= s.subrange(i, j));
    assert forall|k: int| j <= k < s.len() implies is_whitespace_spec(#[trigger] s[k]) by {
        assert(u[k - i] == s[k]);
        assert(ws(u[k - i]));
    }
    if t.len() > 0 {
        assert(t[0] == u[0]);
        assert(!ws(t.last()));
    }
    assert(trimmed_from(s, trim_spec(s), i, j));
}

/// The lines joined back together, each followed by a newline.
pub open spec fn joined_lines(lines: Seq<Seq<char>>) -> Seq<char>
    decreases lines.len(),
{
    if lines.len() == 0 {
        Seq::empty()
    } else {
        joined_lines(lines.drop_last()) + lines.last() + seq!['\n']
    }
}

/// What scanning for lines has seen so far rebuilds `s`: the finished
/// lines, each with its newline, then the unfinished line.
proof fn lemma_line_scan_rebuilds(s: Seq<char>)
    requires
        forall|i: int| 0 <= i < s.len() ==> #[trigger] s[i] != '\r',
    ensures
        joined_lines(line_scan(s).0) + line_scan(s).1 == s,
        forall|i: int| 0 <= i < line_scan(s).1.len() ==> #[trigger] line_scan(s).1[i] != '\n',
        forall|k: int, i: int|
            0 <= k < line_scan(s).0.len() && 0 <= i < line_scan(s).0[k].len() ==> #[trigger] line_scan(
                s,
            ).0[k][i] != '\n',
    decreases s.len(),
{
    if s.len() > 0 {
        let p = s.drop_last();
        assert forall|i: int| 0 <= i < p.len() implies #[trigger] p[i] != '\r' by {
            assert(p[i] == s[i]);
        }
        lemma_line_scan_rebuilds(p);
        let (done, cur) = line_scan(p);
        assert(joined_lines(done) + cur == p);
        if s.last() == '\n' {
            assert(cur.len() == 0 || cur.last() != '\r') by {
                if cur.len() > 0 {
                    assert(cur.last() == p[p.len() - 1]) by {
                        assert((joined_lines(done) + cur).last() == cur.last());
                    }
                }
            }
            assert(strip_cr(cur) == cur);
            let nd = done.push(cur);
            assert(nd.drop_last() =~= done);
            assert(joined_lines(nd) + Seq::<char>::empty() =~= s);
        } else {
            assert(s =~= p.push(s.last()));
            assert((joined_lines(done) + cur).push(s.last()) =~= joined_lines(done) + cur.push(
                s.last(),
            ));
        }
    }
}

/// Splitting into lines loses nothing but the line endings: for text
/// without carriage returns, no line holds a newline, and the lines, each
/// followed by a newline, give back the text (with a newline added at the
/// end when it had none).
pub proof fn lemma_lines_rebuild(s: Seq<char>)
    requires
        forall|i: int| 0 <= i < s.len() ==> #[trigger] s[i] != '\r',
    ensures
        forall|k: int, i: int|
            0 <= k < lines_spec(s).len() && 0 <= i < lines_spec(s)[k].len() ==> #[trigger] lines_spec(
                s,
            )[k][i] != '\n',
        joined_lines(lines_spec(s)) == if s.len() > 0 && s.last() != '\n' {
            s.push('\n')
        } else {
            s
        },
{
    lemma_line_scan_rebuilds(s);
    let (done, cur) = line_scan(s);
    if cur.len() > 0 {
        let l = done.push(cur);
        assert(l.drop_last() =~= done);
        assert(s.len() > 0 && s.last() == cur.last()) by {
            assert((joined_lines(done) + cur).last() == cur.last());
        }
        assert(joined_lines(l) =~= s.push('\n'));
        assert forall|k: int, i: int|
            0 <= k < l.len() && 0 <= i < l[k].len() implies #[trigger] l[k][i] != '\n' by {
            if k < done.len() {
                assert(l[k] == done[k]);
            }
        }
    } else {
        assert(joined_lines(done) + cur =~= joined_lines(done));
        if s.len() > 0 {
            assert(s.last() == '\n') by {
                if s.last() != '\n' {
                    let (d2, c2) = line_scan(s.drop_last());
                    assert(cur == c2.push(s.last()));
                }
            }
        }
    }
}

/// Number of words that start in `s`: positions holding a character that
/// is not white space, at the start or after white space.
pub open spec fn word_starts(s: Seq<char>) -> nat
    decreases s.len(),
{
    if s.len() == 0 {
        0
    } else {
        word_starts(s.drop_last()) + if !is_whitespace_spec(s.last()) && (s.len() == 1
            || is_whitespace_spec(s[s.len() - 2])) {
            1nat
        } else {
            0nat
        }
    }
}

/// The characters of `s` that are not white space.
pub open spec fn non_white_space(s: Seq<char>) -> Seq<char> {
    s.filter(|c: char| !is_whitespace_spec(c))
}

/// No character of `w` is white space.
pub open spec fn no_white_space(w: Seq<char>) -> bool {
    forall|i: int| 0 <= i < w.len() ==> !is_whitespace_spec(#[trigger] w[i])
}

proof fn lemma_word_scan_shape(s: Seq<char>)
    ensures
        ({
            let (done, cur) = word_scan(s);
            &&& done.flatten_alt() + cur == non_white_space(s)
            &&& no_white_space(cur)
            &&& forall|k: int|
                0 <= k < done.len() ==> (#[trigger] done[k]).len() > 0 && no_white_space(done[k])
            &&& (cur.len() > 0 <==> (s.len() > 0 && !is_whitespace_spec(s.last())))
            &&& done.len() + (if cur.len() > 0 {
                1nat
            } else {
                0nat
            }) == word_starts(s)
        }),
    decreases s.len(),
{
    if s.len() == 0 {
        assert(non_white_space(s) =~= Seq::<char>::empty()) by {
            reveal(Seq::filter);
        }
    } else {
        let p = s.drop_last();
        let c = s.last();
        lemma_word_scan_shape(p);
        let (done, cur) = word_scan(p);
        assert(s =~= p.push(c));
        p.lemma_filter_push(c, |c: char| !is_whitespace_spec(c));
        if p.len() > 0 {
            assert(p.last() == s[s.len() - 2]);
        }
        if is_whitespace_spec(c) {
            assert(non_white_space(s) == non_white_space(p));
            if cur.len() > 0 {
                let nd = done.push(cur);
                assert(nd.drop_last() =~= done);
                assert(nd.flatten_alt() == done.flatten_alt() + cur);
                assert(nd.flatten_alt() + Seq::<char>::empty() =~= nd.flatten_alt());
                assert forall|k: int| 0 <= k < nd.len() implies (#[trigger] nd[k]).len() > 0
                    && no_white_space(nd[k]) by {
                    if k < done.len() {
                        assert(nd[k] == done[k]);
                    }
                }
            } else {
                assert(done.flatten_alt() + Seq::<char>::empty() =~= done.flatten_alt());
                assert(done.flatten_alt() + cur =~= done.flatten_alt());
            }
        } else {
            assert(non_white_space(s) == non_white_space(p).push(c));
            assert(done.flatten_alt() + cur.push(c) =~= (done.flatten_alt() + cur).push(c));
            assert forall|i: int| 0 <= i < cur.push(c).len() implies !is_whitespace_spec(
                #[trigger] cur.push(c)[i],
            ) by {
                if i < cur.len() {
                    assert(cur.push(c)[i] == cur[i]);
                }
            }
        }
    }
}

/// Splitting at white space (`str::split_whitespace`) yields the maximal
/// runs of other characters: every word is non-empty and holds no white
/// space, the words put together are exactly the characters of `s` that
/// are not white space, and there is one word for each place in `s` where
/// a run of such characters starts.
pub proof fn lemma_words_are_runs(s: Seq<char>)
    ensures
        forall|k: int|
            0 <= k < words_spec(s).len() ==> (#[trigger] words_spec(s)[k]).len() > 0
                && no_white_space(words_spec(s)[k]),
        words_spec(s).flatten_alt() == non_white_space(s),
        words_spec(s).len() == word_starts(s),
{
    lemma_word_scan_shape(s);
    let (done, cur) = word_scan(s);
    if cur.len() > 0 {
        let w = done.push(cur);
        assert(w.drop_last() =~= done);
        assert forall|k: int| 0 <= k < w.len() implies (#[trigger] w[k]).len() > 0
            && no_white_space(w[k]) by {
            if k < done.len() {
                assert(w[k] == done[k]);
            }
        }
    } else {
        assert(done.flatten_alt() + cur =~= done.flatten_alt());
    }
}

/// A character takes the fewest UTF-8 bytes whose payload holds its code
/// point: one byte for 7 bits, two for 11, three for 16, four for 21.
pub proof fn lemma_utf8_len_shortest(c: char)
    ensures
        1 <= utf8_len(c) <= 4,
        utf8_len(c) == 1 <==> (c as u32) < 128,
        utf8_len(c) == 2 <==> 128 <= (c as u32) < 2048,
        utf8_len(c) == 3 <==> 2048 <= (c as u32) < 65536,
        utf8_len(c) == 4 <==> 65536 <= (c as u32),
{
}

/// The UTF-8 length of two texts put together is the sum of their lengths.
pub proof fn lemma_byte_len_concat(a: Seq<char>, b: Seq<char>)
    ensures
        byte_len(a + b) == byte_len(a) + byte_len(b),
    decreases b.len(),
{
    if b.len() > 0 {
        lemma_byte_len_concat(a, b.drop_last());
        assert((a + b).drop_last() =~= a + b.drop_last());
        assert((a + b).last() == b.last());
    } else {
        assert(a + b =~= a);
    }
}

} // verus!
