//! Text helpers: comparison, searching, trimming and joining, stated over
//! sequences of characters.

use vstd::prelude::*;
use vstd::string::*;
use vstd::utf8::*;

verus! {

/// `String::push` appends one character to the end of the string.
pub assume_specification[ String::push ](s: &mut String, c: char)
    ensures
        final(s)@ == old(s)@.push(c),
;

/// Whether two texts hold the same characters.
pub fn same_text(a: &str, b: &str) -> (r: bool)
    ensures
        r == (a@ == b@),
{
    let x = a.as_bytes();
    let y = b.as_bytes();
    proof {
        encode_utf8_decode_utf8(a@);
        encode_utf8_decode_utf8(b@);
    }
    if x.len() != y.len() {
        return false;
    }
    let n: usize = x.len();
    let mut i: usize = 0;
    while i < n
        invariant
            i <= n,
            n == x@.len(),
            n == y@.len(),
            x@ == encode_utf8(a@),
            y@ == encode_utf8(b@),
            forall|j: int| 0 <= j < i ==> x@[j] == y@[j],
        decreases n - i,
    {
        if x[i] != y[i] {
            return false;
        }
        i = i + 1;
    }
    assert(x@ =~= y@);
    true
}

/// The characters of a text, in order.
pub fn chars_of(s: &str) -> (r: Vec<char>)
    ensures
        r@ == s@,
{
    let mut out: Vec<char> = Vec::new();
    for c in it: s.chars()
        invariant
            out@ == it.seq().take(it.index() as int),
            it.seq() == s@,
    {
        out.push(c);
    }
    out
}

/// The decimal digit `d`.
pub open spec fn digit(d: nat) -> char {
    (48 + d) as u8 as char
}

/// A number written in decimal, without leading zeros.
pub open spec fn decimal(n: nat) -> Seq<char>
    decreases n,
{
    if n < 10 {
        seq![digit(n)]
    } else {
        decimal(n / 10).push(digit(n % 10))
    }
}

/// Writes a number in decimal.
pub fn decimal_text(n: u64) -> (r: String)
    ensures
        r@ == decimal(n as nat),
    decreases n,
{
    if n < 10 {
        let mut s = String::new();
        s.push((48u8 + n as u8) as char);
        assert(s@ =~= seq![digit(n as nat)]);
        s
    } else {
        let mut s = decimal_text(n / 10);
        s.push((48u8 + (n % 10) as u8) as char);
        s
    }
}

/// Whether `s` begins with `prefix`.
pub fn starts_with(s: &str, prefix: &str) -> (r: bool)
    ensures
        r == prefix@.is_prefix_of(s@),
{
    let n: usize = prefix.unicode_len();
    if s.unicode_len() < n {
        return false;
    }
    let head = s.substring_char(0, n);
    assert(s@.subrange(0, n as int) == s@.take(n as int));
    same_text(head, prefix)
}

/// Whether `needle` stands in `s` at position `at`.
pub open spec fn stands_at(s: Seq<char>, needle: Seq<char>, at: int) -> bool {
    0 <= at && at + needle.len() <= s.len() && s.subrange(at, at + needle.len()) == needle
}

/// Whether `needle` stands somewhere in `s`.
pub open spec fn has_text(s: Seq<char>, needle: Seq<char>) -> bool {
    exists|at: int| #[trigger] stands_at(s, needle, at)
}

/// Whether `needle` stands somewhere in `s`.
pub fn contains_text(s: &str, needle: &str) -> (r: bool)
    ensures
        r == has_text(s@, needle@),
{
    let hay = chars_of(s);
    let pat = chars_of(needle);
    let n: usize = hay.len();
    let m: usize = pat.len();
    if n < m {
        return false;
    }
    let mut at: usize = 0;
    while at <= n - m
        invariant
            hay@ == s@,
            pat@ == needle@,
            n == hay@.len(),
            m == pat@.len(),
            m <= n,
            at <= n - m + 1,
            forall|k: int| 0 <= k < at ==> !#[trigger] stands_at(s@, needle@, k),
        decreases n - m + 1 - at,
    {
        let mut j: usize = 0;
        while j < m && hay[at + j] == pat[j]
            invariant
                n == hay@.len(),
                m == pat@.len(),
                at <= n - m,
                m <= n,
                j <= m,
                forall|k: int| 0 <= k < j ==> hay@[at + k] == pat@[k],
            decreases m - j,
        {
            j = j + 1;
        }
        if j == m {
            assert(s@.subrange(at as int, at + m) =~= needle@);
            assert(stands_at(s@, needle@, at as int));
            return true;
        }
        assert(s@.subrange(at as int, at + m)[j as int] != needle@[j as int]);
        if at == n - m {
            return false;
        }
        at = at + 1;
    }
    false
}

/// The first `n` characters of `s`, or all of it when it is shorter.
pub open spec fn first_of(s: Seq<char>, n: nat) -> Seq<char> {
    if s.len() <= n {
        s
    } else {
        s.take(n as int)
    }
}

/// The first `n` characters of `s`, or all of it when it is shorter.
pub fn first_chars(s: &str, n: usize) -> (r: String)
    ensures
        r@ == first_of(s@, n as nat),
{
    if s.unicode_len() <= n {
        s.to_owned()
    } else {
        assert(s@.subrange(0, n as int) == s@.take(n as int));
        s.substring_char(0, n).to_owned()
    }
}

/// The characters of Unicode's `White_Space` property.
pub open spec fn is_white_space(c: char) -> bool {
    ||| 0x9 <= c as u32 <= 0xd
    ||| c as u32 == 0x20
    ||| c as u32 == 0x85
    ||| c as u32 == 0xa0
    ||| c as u32 == 0x1680
    ||| 0x2000 <= c as u32 <= 0x200a
    ||| c as u32 == 0x2028
    ||| c as u32 == 0x2029
    ||| c as u32 == 0x202f
    ||| c as u32 == 0x205f
    ||| c as u32 == 0x3000
}

/// Whether `c` is white space.
pub fn white_space(c: char) -> (r: bool)
    ensures
        r == is_white_space(c),
{
    let u: u32 = c as u32;
    (0x9 <= u && u <= 0xd) || u == 0x20 || u == 0x85 || u == 0xa0 || u == 0x1680 || (0x2000 <= u
        && u <= 0x200a) || u == 0x2028 || u == 0x2029 || u == 0x202f || u == 0x205f || u == 0x3000
}

/// `s` without the white space that it starts with.
pub open spec fn trimmed_start(s: Seq<char>) -> Seq<char>
    decreases s.len(),
{
    if s.len() > 0 && is_white_space(s[0]) {
        trimmed_start(s.skip(1))
    } else {
        s
    }
}

/// `s` without the white space that it ends with.
pub open spec fn trimmed_end(s: Seq<char>) -> Seq<char>
    decreases s.len(),
{
    if s.len() > 0 && is_white_space(s.last()) {
        trimmed_end(s.drop_last())
    } else {
        s
    }
}

/// `s` without the white space around it.
pub open spec fn trimmed(s: Seq<char>) -> Seq<char> {
    trimmed_end(trimmed_start(s))
}

/// `s` without the white space around it.
pub fn trim(s: &str) -> (r: String)
    ensures
        r@ == trimmed(s@),
{
    let cs = chars_of(s);
    let n: usize = cs.len();
    let mut from: usize = 0;
    assert(s@.skip(0) =~= s@);
    while from < n && white_space(cs[from])
        invariant
            cs@ == s@,
            n == cs@.len(),
            from <= n,
            trimmed_start(s@) == trimmed_start(s@.skip(from as int)),
        decreases n - from,
    {
        assert(s@.skip(from as int).skip(1) =~= s@.skip(from + 1));
        from = from + 1;
    }
    let ghost left = s@.skip(from as int);
    assert(trimmed_start(s@) == left);
    let mut to: usize = n;
    assert(left =~= s@.subrange(from as int, n as int));
    while from < to && white_space(cs[to - 1])
        invariant
            cs@ == s@,
            n == cs@.len(),
            from <= to <= n,
            trimmed_end(left) == trimmed_end(s@.subrange(from as int, to as int)),
        decreases to,
    {
        assert(s@.subrange(from as int, to as int).drop_last() =~= s@.subrange(
            from as int,
            to - 1,
        ));
        to = to - 1;
    }
    s.substring_char(from, to).to_owned()
}

/// An ASCII capital letter as its small letter; any other character as it is.
pub open spec fn lower(c: char) -> char {
    if 'A' <= c <= 'Z' {
        (c as u8 + 32) as u8 as char
    } else {
        c
    }
}

/// `s` with its ASCII letters in lower case.
pub fn ascii_lowercase(s: &str) -> (r: String)
    ensures
        r@ == s@.map_values(|c: char| lower(c)),
{
    let mut out = String::new();
    for c in it: s.chars()
        invariant
            out@ == it.seq().take(it.index() as int).map_values(|c: char| lower(c)),
            it.seq() == s@,
    {
        if 'A' <= c && c <= 'Z' {
            out.push((c as u8 + 32u8) as char);
        } else {
            out.push(c);
        }
        assert(it.seq().take(it.index() + 1).map_values(|c: char| lower(c)) =~= it.seq().take(
            it.index() as int,
        ).map_values(|c: char| lower(c)).push(lower(c)));
    }
    assert(s@.take(s@.len() as int) =~= s@);
    out
}

/// The texts in order, with `sep` between neighbours.
pub open spec fn joined(parts: Seq<Seq<char>>, sep: Seq<char>) -> Seq<char>
    decreases parts.len(),
{
    if parts.len() == 0 {
        seq![]
    } else if parts.len() == 1 {
        parts[0]
    } else {
        joined(parts.drop_last(), sep) + sep + parts.last()
    }
}

/// The views of a list of strings.
pub open spec fn views(parts: Seq<String>) -> Seq<Seq<char>> {
    parts.map_values(|s: String| s@)
}

/// Joins the texts, with `sep` between neighbours.
pub fn join(parts: &Vec<String>, sep: &str) -> (r: String)
    ensures
        r@ == joined(views(parts@), sep@),
{
    let mut out = String::new();
    let n: usize = parts.len();
    let mut i: usize = 0;
    let ghost all = views(parts@);
    assert(out@ =~= joined(all.take(0), sep@));
    while i < n
        invariant
            n == parts@.len(),
            i <= n,
            all == views(parts@),
            out@ == joined(all.take(i as int), sep@),
        decreases n - i,
    {
        if i > 0 {
            out.append(sep);
        }
        out.append(parts[i].as_str());
        assert(all.take(i + 1).drop_last() =~= all.take(i as int));
        assert(all.take(i + 1).last() == parts@[i as int]@);
        if i == 0 {
            assert(out@ =~= parts@[0]@);
        }
        i = i + 1;
    }
    assert(all.take(n as int) =~= all);
    out
}

/// The two texts, one after the other.
pub fn concat(a: &str, b: &str) -> (r: String)
    ensures
        r@ == a@ + b@,
{
    let mut out = a.to_owned();
    out.append(b);
    out
}

/// The first characters of a text are its beginning, as many as were asked for or
/// all that it has.
pub proof fn law_first_of(s: Seq<char>, n: nat)
    ensures
        first_of(s, n).is_prefix_of(s),
        first_of(s, n).len() == (if s.len() < n {
            s.len()
        } else {
            n
        }),
{
    assert(s.take(s.len() as int) =~= s);
    if s.len() > n {
        assert(s.take(n as int) =~= first_of(s, n));
    }
}

/// The number that digits write in decimal.
pub open spec fn number_written(s: Seq<char>) -> int
    decreases s.len(),
{
    if s.len() == 0 {
        0
    } else {
        10 * number_written(s.drop_last()) + (s.last() as int - '0' as int)
    }
}

/// A number in decimal is digits that write the number, without a zero before them.
pub proof fn law_decimal(n: nat)
    ensures
        number_written(decimal(n)) == n,
        decimal(n).len() > 0,
        forall|i: int| 0 <= i < decimal(n).len() ==> '0' <= #[trigger] decimal(n)[i] <= '9',
        decimal(n)[0] == '0' ==> n == 0,
        n == 0 ==> decimal(n).len() == 1,
    decreases n,
{
    let d = decimal(n);
    if n < 10 {
        assert(d.drop_last() =~= seq![]);
        assert(number_written(d.drop_last()) == 0);
    } else {
        law_decimal(n / 10);
        assert(d.drop_last() =~= decimal(n / 10));
        assert forall|i: int| 0 <= i < d.len() implies '0' <= #[trigger] d[i] <= '9' by {
            if i < d.len() - 1 {
                assert(d[i] == decimal(n / 10)[i]);
            }
        }
        assert(d[0] == decimal(n / 10)[0]);
    }
}

/// Whether a text is white space only.
pub open spec fn all_white(s: Seq<char>) -> bool {
    forall|i: int| 0 <= i < s.len() ==> is_white_space(#[trigger] s[i])
}

proof fn lemma_trim_start(s: Seq<char>)
    ensures
        exists|a: Seq<char>| all_white(a) && s == #[trigger] (a + trimmed_start(s)),
        trimmed_start(s).len() > 0 ==> !is_white_space(trimmed_start(s)[0]),
    decreases s.len(),
{
    if s.len() > 0 && is_white_space(s[0]) {
        let rest = s.skip(1);
        lemma_trim_start(rest);
        let a = choose|a: Seq<char>| all_white(a) && rest == #[trigger] (a + trimmed_start(rest));
        let b = seq![s[0]] + a;
        assert forall|i: int| 0 <= i < b.len() implies is_white_space(#[trigger] b[i]) by {
            if i > 0 {
                assert(b[i] == a[i - 1]);
            }
        }
        assert(s =~= seq![s[0]] + rest);
        assert(seq![s[0]] + (a + trimmed_start(rest)) =~= b + trimmed_start(rest));
        assert(all_white(b) && s == b + trimmed_start(s));
    } else {
        let none: Seq<char> = seq![];
        assert(all_white(none));
        assert(s =~= none + trimmed_start(s));
    }
}

proof fn lemma_trim_end(s: Seq<char>)
    ensures
        exists|b: Seq<char>| all_white(b) && s == #[trigger] (trimmed_end(s) + b),
        trimmed_end(s).len() > 0 ==> !is_white_space(trimmed_end(s).last()),
        trimmed_end(s).len() > 0 ==> trimmed_end(s)[0] == s[0],
    decreases s.len(),
{
    if s.len() > 0 && is_white_space(s.last()) {
        let rest = s.drop_last();
        lemma_trim_end(rest);
        let b = choose|b: Seq<char>| all_white(b) && rest == #[trigger] (trimmed_end(rest) + b);
        let c = b.push(s.last());
        assert forall|i: int| 0 <= i < c.len() implies is_white_space(#[trigger] c[i]) by {
            if i < b.len() {
                assert(c[i] == b[i]);
            }
        }
        assert(s =~= rest.push(s.last()));
        assert((trimmed_end(rest) + b).push(s.last()) =~= trimmed_end(rest) + c);
        assert(all_white(c) && s == trimmed_end(s) + c);
    } else {
        let none: Seq<char> = seq![];
        assert(all_white(none));
        assert(s =~= trimmed_end(s) + none);
    }
}

/// Trimming takes white space from both ends and nothing else: what is left, with
/// the white space around it, is the text, and it neither starts nor ends with
/// white space.
pub proof fn law_trimmed(s: Seq<char>)
    ensures
        exists|a: Seq<char>, b: Seq<char>|
            all_white(a) && all_white(b) && s == #[trigger] (a + trimmed(s) + b),
        trimmed(s).len() > 0 ==> !is_white_space(trimmed(s)[0]) && !is_white_space(
            trimmed(s).last(),
        ),
{
    lemma_trim_start(s);
    let left = trimmed_start(s);
    let a = choose|a: Seq<char>| all_white(a) && s == #[trigger] (a + trimmed_start(s));
    lemma_trim_end(left);
    let b = choose|b: Seq<char>| all_white(b) && left == #[trigger] (trimmed_end(left) + b);
    assert(s =~= a + trimmed(s) + b);
}

/// Lower case changes the capital letters of ASCII to the letters 32 further on,
/// and no other character.
pub proof fn law_lower(c: char)
    ensures
        'A' <= c <= 'Z' ==> lower(c) as int == c as int + 32,
        !('A' <= c <= 'Z') ==> lower(c) == c,
{
}

/// Joining: nothing gives nothing, one text is itself, and each further text comes
/// after a separator.
pub proof fn law_joined(parts: Seq<Seq<char>>, sep: Seq<char>, s: Seq<char>)
    ensures
        joined(seq![], sep).len() == 0,
        joined(seq![s], sep) == s,
        parts.len() > 0 ==> joined(parts.push(s), sep) == joined(parts, sep) + sep + s,
{
    assert(parts.push(s).drop_last() =~= parts);
}

/// A text has another in it exactly where it is the other with something before and
/// after.
pub proof fn law_has_text(s: Seq<char>, needle: Seq<char>, a: Seq<char>, b: Seq<char>)
    ensures
        has_text(a + needle + b, needle),
        has_text(s, needle) ==> exists|x: Seq<char>, y: Seq<char>| s == #[trigger] (x + needle + y),
{
    let whole = a + needle + b;
    let at = a.len() as int;
    assert(whole.subrange(at, at + needle.len()) =~= needle);
    assert(stands_at(whole, needle, at));
    if has_text(s, needle) {
        let i = choose|i: int| #[trigger] stands_at(s, needle, i);
        let x = s.take(i);
        let y = s.skip(i + needle.len());
        assert(s =~= x + needle + y);
    }
}

}
