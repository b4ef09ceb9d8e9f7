//! Text building blocks shared by the generators: joining, prefixes,
//! substring search, decimal numbers and string literals.

use vstd::prelude::*;

verus! {

/// The views of a sequence of strings.
pub open spec fn views(v: Seq<String>) -> Seq<Seq<char>> {
    v.map_values(|s: String| s@)
}

/// Pushing a string pushes its view.
pub proof fn lemma_views_push(s: Seq<String>, x: String)
    ensures
        views(s.push(x)) == views(s).push(x@),
{
    assert(views(s.push(x)) =~= views(s).push(x@));
}

/// The concatenation of `parts`, with `sep` between consecutive parts.
pub open spec fn join(parts: Seq<Seq<char>>, sep: Seq<char>) -> Seq<char>
    decreases parts.len(),
{
    if parts.len() == 0 {
        Seq::empty()
    } else if parts.len() == 1 {
        parts[0]
    } else {
        join(parts.drop_last(), sep) + sep + parts.last()
    }
}

/// The concatenation of `parts` with nothing in between.
pub open spec fn concat(parts: Seq<Seq<char>>) -> Seq<char> {
    join(parts, Seq::empty())
}

/// Joins the strings of `parts` with `sep` between consecutive parts.
pub fn join_strings(parts: &Vec<String>, sep: &str) -> (res: String)
    ensures
        res@ == join(views(parts@), sep@),
{
    let mut res = String::new();
    let ghost all = views(parts@);
    let n = parts.len();
    let mut i: usize = 0;
    while i < n
        invariant
            n == parts@.len(),
            all == views(parts@),
            i <= n,
            res@ == join(all.take(i as int), sep@),
        decreases n - i,
    {
        assert(all.take(i + 1).drop_last() =~= all.take(i as int));
        if i != 0 {
            res.append(sep);
        }
        res.append(parts[i].as_str());
        i = i + 1;
    }
    assert(all.take(n as int) =~= all);
    res
}

/// Concatenates the strings of `parts`.
pub fn concat_strings(parts: &Vec<String>) -> (res: String)
    ensures
        res@ == concat(views(parts@)),
{
    proof {
        reveal_strlit("");
        assert(""@ =~= Seq::<char>::empty());
    }
    join_strings(parts, "")
}

/// Whether `s` begins with the three characters `Lua`.
pub open spec fn starts_with_lua(s: Seq<char>) -> bool {
    &&& s.len() >= 3
    &&& s[0] == 'L'
    &&& s[1] == 'u'
    &&& s[2] == 'a'
}

/// Decides `starts_with_lua`.
pub fn has_lua_prefix(s: &str) -> (res: bool)
    ensures
        res == starts_with_lua(s@),
{
    let n = s.unicode_len();
    if n < 3 {
        return false;
    }
    s.get_char(0) == 'L' && s.get_char(1) == 'u' && s.get_char(2) == 'a'
}

/// Whether `t` occurs in `s` starting at position `i`.
pub open spec fn occurs_at(s: Seq<char>, t: Seq<char>, i: int) -> bool {
    0 <= i && i + t.len() <= s.len() && s.subrange(i, i + t.len()) == t
}

/// Whether `t` occurs somewhere in `s`.
pub open spec fn contains_text(s: Seq<char>, t: Seq<char>) -> bool {
    exists|i: int| occurs_at(s, t, i)
}

/// Decides `contains_text`.
pub fn find_text(s: &str, t: &str) -> (res: bool)
    ensures
        res == contains_text(s@, t@),
{
    let n = s.unicode_len();
    let m = t.unicode_len();
    if m > n {
        assert forall|i: int| !occurs_at(s@, t@, i) by {}
        return false;
    }
    let mut i: usize = 0;
    while i <= n - m
        invariant
            n == s@.len(),
            m == t@.len(),
            m <= n,
            i <= n - m + 1,
            forall|k: int| 0 <= k < i ==> !occurs_at(s@, t@, k),
        decreases n - m + 1 - i,
    {
        let mut j: usize = 0;
        let mut same = true;
        while j < m
            invariant
                n == s@.len(),
                m == t@.len(),
                i + m <= n,
                j <= m,
                same == (forall|k: int| 0 <= k < j ==> s@[i + k] == t@[k]),
            decreases m - j,
        {
            if s.get_char(i + j) != t.get_char(j) {
                same = false;
            }
            j = j + 1;
        }
        if same {
            assert(s@.subrange(i as int, i + m) =~= t@);
            assert(occurs_at(s@, t@, i as int));
            return true;
        }
        assert(!occurs_at(s@, t@, i as int)) by {
            if occurs_at(s@, t@, i as int) {
                assert forall|k: int| 0 <= k < m implies s@[i + k] == t@[k] by {
                    assert(s@.subrange(i as int, i + m)[k] == s@[i + k]);
                }
            }
        }
        i = i + 1;
    }
    assert forall|k: int| !occurs_at(s@, t@, k) by {
        if occurs_at(s@, t@, k) {
            assert(0 <= k < i);
        }
    }
    false
}

/// The decimal digit `d`.
pub open spec fn digit_text(d: nat) -> Seq<char> {
    if d == 0 {
        "0"@
    } else if d == 1 {
        "1"@
    } else if d == 2 {
        "2"@
    } else if d == 3 {
        "3"@
    } else if d == 4 {
        "4"@
    } else if d == 5 {
        "5"@
    } else if d == 6 {
        "6"@
    } else if d == 7 {
        "7"@
    } else if d == 8 {
        "8"@
    } else {
        "9"@
    }
}

/// The decimal numeral of `n`, without leading zeros.
pub open spec fn decimal(n: nat) -> Seq<char>
    decreases n,
{
    if n < 10 {
        digit_text(n)
    } else {
        decimal(n / 10) + digit_text(n % 10)
    }
}

fn digit_str(d: usize) -> (res: &'static str)
    requires
        d < 10,
    ensures
        res@ == digit_text(d as nat),
{
    if d == 0 {
        "0"
    } else if d == 1 {
        "1"
    } else if d == 2 {
        "2"
    } else if d == 3 {
        "3"
    } else if d == 4 {
        "4"
    } else if d == 5 {
        "5"
    } else if d == 6 {
        "6"
    } else if d == 7 {
        "7"
    } else if d == 8 {
        "8"
    } else {
        "9"
    }
}

/// The decimal numeral of `n`.
pub fn decimal_string(n: usize) -> (res: String)
    ensures
        res@ == decimal(n as nat),
    decreases n,
{
    if n < 10 {
        String::from_str(digit_str(n))
    } else {
        let mut res = decimal_string(n / 10);
        res.append(digit_str(n % 10));
        res
    }
}

/// How a character is written inside a string literal.
pub open spec fn escape_char(c: char) -> Seq<char> {
    if c == '"' {
        "\\\""@
    } else if c == '\\' {
        "\\\\"@
    } else {
        seq![c]
    }
}

/// The characters of `s` as written inside a string literal.
pub open spec fn escaped(s: Seq<char>) -> Seq<char>
    decreases s.len(),
{
    if s.len() == 0 {
        Seq::empty()
    } else {
        escaped(s.drop_last()) + escape_char(s.last())
    }
}

/// The string literal whose value is `s`.
pub open spec fn string_literal(s: Seq<char>) -> Seq<char> {
    "\""@ + escaped(s) + "\""@
}

/// Writes the string literal whose value is `s`.
pub fn literal_of(s: &str) -> (res: String)
    ensures
        res@ == string_literal(s@),
{
    let n = s.unicode_len();
    let mut body = String::new();
    let mut i: usize = 0;
    while i < n
        invariant
            n == s@.len(),
            i <= n,
            body@ == escaped(s@.take(i as int)),
        decreases n - i,
    {
        let c = s.get_char(i);
        assert(s@.take(i + 1).drop_last() =~= s@.take(i as int));
        if c == '"' {
            body.append("\\\"");
        } else if c == '\\' {
            body.append("\\\\");
        } else {
            let one = s.substring_char(i, i + 1);
            assert(one@ =~= seq![c]);
            body.append(one);
        }
        i = i + 1;
    }
    assert(s@.take(n as int) =~= s@);
    let mut res = String::from_str("\"");
    res.append(body.as_str());
    res.append("\"");
    res
}

/// Whether `c` has the Unicode `White_Space` property.
pub open spec fn is_white_space(c: char) -> bool {
    let u = c as u32;
    ||| 0x9 <= u <= 0xd
    ||| u == 0x20
    ||| u == 0x85
    ||| u == 0xa0
    ||| u == 0x1680
    ||| 0x2000 <= u <= 0x200a
    ||| u == 0x2028
    ||| u == 0x2029
    ||| u == 0x202f
    ||| u == 0x205f
    ||| u == 0x3000
}

/// Decides `is_white_space`.
pub fn white_space(c: char) -> (res: bool)
    ensures
        res == is_white_space(c),
{
    let u = c as u32;
    (0x9 <= u && u <= 0xd) || u == 0x20 || u == 0x85 || u == 0xa0 || u == 0x1680 || (0x2000
        <= u && u <= 0x200a) || u == 0x2028 || u == 0x2029 || u == 0x202f || u == 0x205f || u
        == 0x3000
}

/// `s` with every white-space character removed.
pub open spec fn strip_white_space(s: Seq<char>) -> Seq<char>
    decreases s.len(),
{
    if s.len() == 0 {
        Seq::empty()
    } else if is_white_space(s.last()) {
        strip_white_space(s.drop_last())
    } else {
        strip_white_space(s.drop_last()).push(s.last())
    }
}

/// Removes every white-space character from `s`.
pub fn without_white_space(s: &str) -> (res: String)
    ensures
        res@ == strip_white_space(s@),
{
    let n = s.unicode_len();
    let mut res = String::new();
    let mut i: usize = 0;
    while i < n
        invariant
            n == s@.len(),
            i <= n,
            res@ == strip_white_space(s@.take(i as int)),
        decreases n - i,
    {
        let c = s.get_char(i);
        assert(s@.take(i + 1).drop_last() =~= s@.take(i as int));
        if !white_space(c) {
            let one = s.substring_char(i, i + 1);
            assert(one@ =~= seq![c]);
            res.append(one);
            assert(res@ =~= strip_white_space(s@.take(i as int)).push(c));
        }
        i = i + 1;
    }
    assert(s@.take(n as int) =~= s@);
    res
}

/// The number of bytes that `c` takes in UTF-8.
pub open spec fn utf8_len(c: char) -> int {
    let u = c as u32;
    if u < 0x80 {
        1
    } else if u < 0x800 {
        2
    } else if u < 0x10000 {
        3
    } else {
        4
    }
}

/// Whether the first `b` bytes of the UTF-8 encoding of `s` end on a
/// character boundary.
pub open spec fn splits_at_bytes(s: Seq<char>, b: int) -> bool
    decreases s.len(),
{
    if b == 0 {
        true
    } else if b < 0 || s.len() == 0 {
        false
    } else {
        splits_at_bytes(s.drop_first(), b - utf8_len(s[0]))
    }
}

/// The characters of `s` after its first `b` bytes in UTF-8.
pub open spec fn skip_bytes(s: Seq<char>, b: int) -> Seq<char>
    decreases s.len(),
{
    if b <= 0 || s.len() == 0 {
        s
    } else {
        skip_bytes(s.drop_first(), b - utf8_len(s[0]))
    }
}

/// The characters of `s` after its first three bytes, which must end on a
/// character boundary.
pub fn after_three_bytes(s: &str) -> (res: &str)
    requires
        splits_at_bytes(s@, 3),
    ensures
        res@ == skip_bytes(s@, 3),
{
    let n = s.unicode_len();
    let mut i: usize = 0;
    let mut left: u32 = 3;
    assert(s@.skip(0) =~= s@);
    while left > 0
        invariant
            n == s@.len(),
            i <= n,
            left <= 3,
            splits_at_bytes(s@.skip(i as int), left as int),
            skip_bytes(s@, 3) == skip_bytes(s@.skip(i as int), left as int),
        decreases left,
    {
        assert(s@.skip(i as int).len() > 0);
        let c = s.get_char(i);
        assert(s@.skip(i as int)[0] == c);
        assert(s@.skip(i as int).drop_first() =~= s@.skip(i + 1));
        let u = c as u32;
        let w: u32 = if u < 0x80 {
            1
        } else if u < 0x800 {
            2
        } else if u < 0x10000 {
            3
        } else {
            4
        };
        assert(w == utf8_len(c));
        assert(w <= left) by {
            if (left as int) - (w as int) < 0 {
                assert(!splits_at_bytes(s@.skip(i as int).drop_first(), left - w));
            }
        }
        left = left - w;
        i = i + 1;
    }
    assert(s@.skip(i as int) =~= s@.subrange(i as int, n as int));
    s.substring_char(i, n)
}

/// Removing white space leaves none, and keeps every other character in
/// order.
pub proof fn law_strip_white_space(s: Seq<char>)
    ensures
        forall|i: int| 0 <= i < strip_white_space(s).len() ==> !is_white_space(#[trigger] strip_white_space(s)[i]),
        strip_white_space(s).len() <= s.len(),
        (forall|i: int| 0 <= i < s.len() ==> !is_white_space(#[trigger] s[i])) ==> strip_white_space(s) == s,
    decreases s.len(),
{
    if s.len() > 0 {
        law_strip_white_space(s.drop_last());
        let p = strip_white_space(s.drop_last());
        if !is_white_space(s.last()) {
            assert forall|i: int| 0 <= i < p.push(s.last()).len() implies !is_white_space(#[trigger] p.push(s.last())[i]) by {
                if i < p.len() {
                    assert(p.push(s.last())[i] == p[i]);
                }
            }
        }
        if forall|i: int| 0 <= i < s.len() ==> !is_white_space(#[trigger] s[i]) {
            assert forall|i: int| 0 <= i < s.drop_last().len() implies !is_white_space(#[trigger] s.drop_last()[i]) by {
                assert(s.drop_last()[i] == s[i]);
            }
            assert(!is_white_space(s[s.len() - 1]));
            assert(s.drop_last().push(s.last()) =~= s);
        }
    }
}

/// Each digit is a single character, and different digits differ.
proof fn lemma_digits()
    ensures
        forall|d: nat| d < 10 ==> (#[trigger] digit_text(d)).len() == 1,
        forall|d: nat, e: nat| d < 10 && e < 10 && d != e ==> #[trigger] digit_text(d)[0] != #[trigger] digit_text(e)[0],
{
    reveal_strlit("0");
    reveal_strlit("1");
    reveal_strlit("2");
    reveal_strlit("3");
    reveal_strlit("4");
    reveal_strlit("5");
    reveal_strlit("6");
    reveal_strlit("7");
    reveal_strlit("8");
    reveal_strlit("9");
}

/// A numeral is never empty.
proof fn lemma_decimal_nonempty(n: nat)
    ensures
        decimal(n).len() >= 1,
    decreases n,
{
    lemma_digits();
    if n >= 10 {
        lemma_decimal_nonempty(n / 10);
    }
}

/// Different numbers have different numerals, so the closure arguments
/// `a_0, a_1, ...` of a generated method never clash.
pub proof fn law_decimal_injective(a: nat, b: nat)
    ensures
        decimal(a) == decimal(b) ==> a == b,
    decreases a + b,
{
    lemma_digits();
    lemma_decimal_nonempty(a / 10);
    lemma_decimal_nonempty(b / 10);
    if decimal(a) == decimal(b) {
        let da = decimal(a);
        if a < 10 && b < 10 {
            assert(digit_text(a)[0] == digit_text(b)[0]);
        } else if a < 10 {
            assert(decimal(b).len() >= 2);
        } else if b < 10 {
            assert(decimal(a).len() >= 2);
        } else {
            let pa = decimal(a / 10);
            let pb = decimal(b / 10);
            assert(da.last() == digit_text(a % 10)[0]);
            assert(decimal(b).last() == digit_text(b % 10)[0]);
            assert(a % 10 == b % 10);
            assert(pa =~= da.subrange(0, da.len() - 1));
            assert(pb =~= da.subrange(0, da.len() - 1));
            law_decimal_injective(a / 10, b / 10);
        }
    }
}

/// An ASCII decimal digit.
pub open spec fn is_digit(c: char) -> bool {
    '0' <= c && c <= '9'
}

/// A numeral consists of decimal digits only.
pub proof fn lemma_decimal_digits(n: nat)
    ensures
        forall|i: int| 0 <= i < decimal(n).len() ==> is_digit(#[trigger] decimal(n)[i]),
    decreases n,
{
    reveal_strlit("0");
    reveal_strlit("1");
    reveal_strlit("2");
    reveal_strlit("3");
    reveal_strlit("4");
    reveal_strlit("5");
    reveal_strlit("6");
    reveal_strlit("7");
    reveal_strlit("8");
    reveal_strlit("9");
    if n >= 10 {
        lemma_decimal_digits(n / 10);
        let p = decimal(n / 10);
        let d = digit_text(n % 10);
        assert forall|i: int| 0 <= i < decimal(n).len() implies is_digit(#[trigger] decimal(n)[i]) by {
            if i < p.len() {
                assert(decimal(n)[i] == p[i]);
            } else {
                assert(decimal(n)[i] == d[i - p.len()]);
            }
        }
    }
}

} // verus!
