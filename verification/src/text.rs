use vstd::prelude::*;

verus! {

/// The white-space characters: they separate tokens within a listing line
/// and are stripped from both ends of interactive input.
pub open spec fn is_space(c: char) -> bool {
    ||| c == ' '
    ||| c == '\t'
    ||| c == '\n'
    ||| c == '\u{0B}'
    ||| c == '\u{0C}'
    ||| c == '\r'
    ||| c == '\u{85}'
    ||| c == '\u{A0}'
    ||| c == '\u{1680}'
    ||| (0x2000 <= (c as u32) && (c as u32) <= 0x200A)
    ||| c == '\u{2028}'
    ||| c == '\u{2029}'
    ||| c == '\u{202F}'
    ||| c == '\u{205F}'
    ||| c == '\u{3000}'
}

/// Decides whether `c` is a white-space character.
fn space_char(c: char) -> (b: bool)
    ensures
        b == is_space(c),
{
    let v = c as u32;
    v == 0x20 || (0x09 <= v && v <= 0x0D) || v == 0x85 || v == 0xA0 || v == 0x1680 || (0x2000 <= v
        && v <= 0x200A) || v == 0x2028 || v == 0x2029 || v == 0x202F || v == 0x205F || v == 0x3000
}

pub open spec fn is_digit(c: char) -> bool {
    ('0' as u32) <= (c as u32) && (c as u32) <= ('9' as u32)
}

pub open spec fn digit_val(c: char) -> int {
    (c as u32) - ('0' as u32)
}

/// Left-to-right whitespace splitting of `s`, starting at position `i` with
/// `cur` the token read so far and `acc` the tokens already complete.
pub open spec fn tokens_from(s: Seq<char>, i: nat, cur: Seq<char>, acc: Seq<Seq<char>>) -> Seq<
    Seq<char>,
>
    decreases s.len() - i,
{
    if i >= s.len() {
        if cur.len() == 0 {
            acc
        } else {
            acc.push(cur)
        }
    } else if is_space(s[i as int]) {
        if cur.len() == 0 {
            tokens_from(s, i + 1, cur, acc)
        } else {
            tokens_from(s, i + 1, Seq::empty(), acc.push(cur))
        }
    } else {
        tokens_from(s, i + 1, cur.push(s[i as int]), acc)
    }
}

/// The maximal runs of non-blank characters of a line, in order.
pub open spec fn spec_tokens(s: Seq<char>) -> Seq<Seq<char>> {
    tokens_from(s, 0, Seq::empty(), Seq::empty())
}

/// Splits the whitespace-separated tokens out of one listing line.
pub fn tokenize<'a>(line: &'a str) -> (toks: Vec<&'a str>)
    ensures
        toks@.map_values(|t: &str| t@) == spec_tokens(line@),
{
    let n = line.unicode_len();
    let mut toks: Vec<&'a str> = Vec::new();
    let mut j: usize = 0;
    let mut start: usize = 0;
    let mut in_token: bool = false;
    proof {
        assert(toks@.map_values(|t: &str| t@) =~= Seq::<Seq<char>>::empty());
    }
    while j < n
        invariant
            n == line@.len(),
            j <= n,
            in_token ==> start < j,
            spec_tokens(line@) == tokens_from(
                line@,
                j as nat,
                (if in_token {
                    line@.subrange(start as int, j as int)
                } else {
                    Seq::<char>::empty()
                }),
                toks@.map_values(|t: &str| t@),
            ),
        decreases n - j,
    {
        let ghost cur: Seq<char> = if in_token {
            line@.subrange(start as int, j as int)
        } else {
            Seq::<char>::empty()
        };
        let c = line.get_char(j);
        if space_char(c) {
            if in_token {
                let tok = line.substring_char(start, j);
                let ghost before = toks@.map_values(|t: &str| t@);
                toks.push(tok);
                in_token = false;
                proof {
                    assert(toks@.map_values(|t: &str| t@) =~= before.push(cur));
                    assert(tokens_from(line@, j as nat, cur, before) == tokens_from(
                        line@,
                        (j + 1) as nat,
                        Seq::<char>::empty(),
                        before.push(cur),
                    ));
                }
            }
        } else {
            if !in_token {
                start = j;
                in_token = true;
            }
            proof {
                assert(cur.push(line@[j as int]) =~= line@.subrange(start as int, j + 1 as int));
            }
        }
        j = j + 1;
    }
    if in_token {
        let tok = line.substring_char(start, n);
        let ghost before = toks@.map_values(|t: &str| t@);
        toks.push(tok);
        proof {
            assert(toks@.map_values(|t: &str| t@) =~= before.push(
                line@.subrange(start as int, n as int),
            ));
        }
    }
    toks
}

/// Splitting of `s` at newline characters, starting at position `i` with
/// `cur` the line read so far and `acc` the lines already complete.
pub open spec fn lines_from(s: Seq<char>, i: nat, cur: Seq<char>, acc: Seq<Seq<char>>) -> Seq<
    Seq<char>,
>
    decreases s.len() - i,
{
    if i >= s.len() {
        acc.push(cur)
    } else if s[i as int] == '\n' {
        lines_from(s, i + 1, Seq::empty(), acc.push(cur))
    } else {
        lines_from(s, i + 1, cur.push(s[i as int]), acc)
    }
}

/// The segments of `s` between newline characters; always at least one.
pub open spec fn spec_lines(s: Seq<char>) -> Seq<Seq<char>> {
    lines_from(s, 0, Seq::empty(), Seq::empty())
}

/// Splits text into its lines; a trailing newline contributes a final empty line.
pub fn split_lines<'a>(text: &'a str) -> (lines: Vec<&'a str>)
    ensures
        lines@.map_values(|l: &str| l@) == spec_lines(text@),
        lines@.len() >= 1,
{
    let n = text.unicode_len();
    let mut lines: Vec<&'a str> = Vec::new();
    let mut j: usize = 0;
    let mut start: usize = 0;
    proof {
        assert(lines@.map_values(|l: &str| l@) =~= Seq::<Seq<char>>::empty());
        assert(text@.subrange(0, 0) =~= Seq::<char>::empty());
    }
    while j < n
        invariant
            n == text@.len(),
            start <= j <= n,
            spec_lines(text@) == lines_from(
                text@,
                j as nat,
                text@.subrange(start as int, j as int),
                lines@.map_values(|l: &str| l@),
            ),
        decreases n - j,
    {
        let ghost cur: Seq<char> = text@.subrange(start as int, j as int);
        let c = text.get_char(j);
        if c == '\n' {
            let line = text.substring_char(start, j);
            let ghost before = lines@.map_values(|l: &str| l@);
            lines.push(line);
            start = j + 1;
            proof {
                assert(lines@.map_values(|l: &str| l@) =~= before.push(cur));
                assert(text@.subrange(start as int, (j + 1) as int) =~= Seq::<char>::empty());
            }
        } else {
            proof {
                assert(cur.push(text@[j as int]) =~= text@.subrange(start as int, (j + 1) as int));
            }
        }
        j = j + 1;
    }
    let last = text.substring_char(start, n);
    let ghost before = lines@.map_values(|l: &str| l@);
    lines.push(last);
    proof {
        assert(lines@.map_values(|l: &str| l@) =~= before.push(
            text@.subrange(start as int, n as int),
        ));
    }
    lines
}

/// `s` with every leading and trailing white-space character removed.
pub open spec fn spec_trim(s: Seq<char>) -> Seq<char>
    decreases s.len(),
{
    if s.len() == 0 {
        s
    } else if is_space(s[0]) {
        spec_trim(s.drop_first())
    } else if is_space(s[s.len() - 1]) {
        spec_trim(s.drop_last())
    } else {
        s
    }
}

/// Strips white-space characters from both ends of `s`.
pub fn trim_str<'a>(s: &'a str) -> (r: &'a str)
    ensures
        r@ == spec_trim(s@),
{
    let n = s.unicode_len();
    let mut lo: usize = 0;
    let mut scanning = true;
    proof {
        assert(s@.subrange(0, n as int) =~= s@);
    }
    while scanning
        invariant
            n == s@.len(),
            lo <= n,
            spec_trim(s@) == spec_trim(s@.subrange(lo as int, n as int)),
            !scanning ==> (lo == n || !is_space(s@[lo as int])),
        decreases n - lo + (if scanning { 1int } else { 0int }),
    {
        if lo < n && space_char(s.get_char(lo)) {
            proof {
                let seg = s@.subrange(lo as int, n as int);
                assert(seg.drop_first() =~= s@.subrange((lo + 1) as int, n as int));
            }
            lo = lo + 1;
        } else {
            scanning = false;
        }
    }
    let mut hi: usize = n;
    let mut shrinking = true;
    while shrinking
        invariant
            n == s@.len(),
            lo <= hi <= n,
            lo == n || !is_space(s@[lo as int]),
            spec_trim(s@) == spec_trim(s@.subrange(lo as int, hi as int)),
            !shrinking ==> (hi == lo || !is_space(s@[hi - 1])),
        decreases hi - lo + (if shrinking { 1int } else { 0int }),
    {
        if hi > lo && space_char(s.get_char(hi - 1)) {
            proof {
                let seg = s@.subrange(lo as int, hi as int);
                assert(seg.drop_last() =~= s@.subrange(lo as int, (hi - 1) as int));
            }
            hi = hi - 1;
        } else {
            shrinking = false;
        }
    }
    s.substring_char(lo, hi)
}

pub open spec fn all_digits(s: Seq<char>) -> bool {
    forall|k: int| 0 <= k < s.len() ==> is_digit(s[k])
}

/// The value of a string of decimal digits, most significant first.
pub open spec fn numeral_val(s: Seq<char>) -> int
    decreases s.len(),
{
    if s.len() == 0 {
        0
    } else {
        numeral_val(s.drop_last()) * 10 + digit_val(s.last())
    }
}

/// The digits of a candidate identifier token, once a tolerated leading
/// plus sign is set aside.
pub open spec fn pid_digits(t: Seq<char>) -> Seq<char> {
    if t.len() > 0 && t[0] == '+' {
        t.drop_first()
    } else {
        t
    }
}

/// A process identifier as the listing prints it: an optional leading plus
/// sign, then decimal digits whose value fits the identifier range.
pub open spec fn spec_is_pid_token(t: Seq<char>) -> bool {
    pid_digits(t).len() > 0 && all_digits(pid_digits(t)) && numeral_val(pid_digits(t)) <= u32::MAX
}

/// The numeric process identifier an identifier token names: the value of
/// its digits.  Two tokens written differently (a leading plus sign, extra
/// zeroes) can name the same identifier.
pub open spec fn pid_value(t: Seq<char>) -> int {
    numeral_val(pid_digits(t))
}

pub proof fn lemma_numeral_nonneg(s: Seq<char>)
    requires
        all_digits(s),
    ensures
        numeral_val(s) >= 0,
    decreases s.len(),
{
    if s.len() > 0 {
        lemma_numeral_nonneg(s.drop_last());
    }
}

pub proof fn lemma_numeral_take_le(s: Seq<char>, m: int)
    requires
        all_digits(s),
        0 <= m <= s.len(),
    ensures
        numeral_val(s.take(m)) <= numeral_val(s),
    decreases s.len() - m,
{
    if m < s.len() {
        assert(s.take(m + 1).drop_last() =~= s.take(m));
        lemma_numeral_nonneg(s.take(m));
        lemma_numeral_take_le(s, m + 1);
    } else {
        assert(s.take(m) =~= s);
    }
}

/// Decides whether one token is a valid process identifier.
pub fn is_pid_token(t: &str) -> (b: bool)
    ensures
        b == spec_is_pid_token(t@),
{
    let n = t.unicode_len();
    let mut k: usize = 0;
    if n > 0 && t.get_char(0) == '+' {
        k = 1;
    }
    let ghost d: Seq<char> = pid_digits(t@);
    proof {
        assert(d =~= t@.subrange(k as int, n as int));
    }
    if k >= n {
        return false;
    }
    let mut j: usize = k;
    while j < n
        invariant
            n == t@.len(),
            k <= j <= n,
            k < n,
            d == pid_digits(t@),
            d == t@.subrange(k as int, n as int),
            forall|m: int| k <= m < j ==> is_digit(t@[m]),
        decreases n - j,
    {
        let v = t.get_char(j) as u32;
        if v < '0' as u32 || v > '9' as u32 {
            proof {
                assert(d[(j - k) as int] == t@[j as int]);
                assert(!all_digits(d));
            }
            return false;
        }
        j = j + 1;
    }
    proof {
        assert forall|m: int| 0 <= m < d.len() implies is_digit(d[m]) by {
            assert(d[m] == t@[m + k]);
        }
    }
    let mut acc: u64 = 0;
    j = k;
    while j < n
        invariant
            n == t@.len(),
            k <= j <= n,
            k < n,
            d == pid_digits(t@),
            d == t@.subrange(k as int, n as int),
            all_digits(d),
            forall|m: int| k <= m < n ==> is_digit(t@[m]),
            acc <= u32::MAX as u64,
            acc as int == numeral_val(d.take((j - k) as int)),
        decreases n - j,
    {
        let c = t.get_char(j);
        proof {
            assert(d[(j - k) as int] == t@[j as int]);
        }
        let v = (c as u32) - ('0' as u32);
        let next = acc * 10 + (v as u64);
        proof {
            assert(d.take((j - k + 1) as int).drop_last() =~= d.take((j - k) as int));
            assert(d.take((j - k + 1) as int).last() == d[(j - k) as int]);
            assert(next as int == numeral_val(d.take((j - k + 1) as int)));
        }
        if next > u32::MAX as u64 {
            proof {
                lemma_numeral_take_le(d, (j - k + 1) as int);
            }
            return false;
        }
        acc = next;
        j = j + 1;
    }
    proof {
        assert(d.take((n - k) as int) =~= d);
    }
    true
}

/// The numeric value of a valid identifier token.
pub fn pid_token_value(t: &str) -> (v: u32)
    requires
        spec_is_pid_token(t@),
    ensures
        v as int == pid_value(t@),
{
    let n = t.unicode_len();
    let mut k: usize = 0;
    if n > 0 && t.get_char(0) == '+' {
        k = 1;
    }
    let ghost d: Seq<char> = pid_digits(t@);
    proof {
        assert(d =~= t@.subrange(k as int, n as int));
        assert(d.take(0) =~= Seq::<char>::empty());
    }
    let mut acc: u64 = 0;
    let mut j: usize = k;
    while j < n
        invariant
            n == t@.len(),
            k <= j <= n,
            d == pid_digits(t@),
            d == t@.subrange(k as int, n as int),
            all_digits(d),
            numeral_val(d) <= u32::MAX,
            acc as int == numeral_val(d.take((j - k) as int)),
            acc <= u32::MAX as u64,
        decreases n - j,
    {
        let c = t.get_char(j);
        proof {
            assert(d[(j - k) as int] == t@[j as int]);
        }
        let v = (c as u32) - ('0' as u32);
        let next = acc * 10 + (v as u64);
        proof {
            assert(d.take((j - k + 1) as int).drop_last() =~= d.take((j - k) as int));
            assert(d.take((j - k + 1) as int).last() == d[(j - k) as int]);
            assert(next as int == numeral_val(d.take((j - k + 1) as int)));
            lemma_numeral_take_le(d, (j - k + 1) as int);
        }
        acc = next;
        j = j + 1;
    }
    proof {
        assert(d.take((n - k) as int) =~= d);
    }
    acc as u32
}

} // verus!
