//! Text helpers shared by the modules: decimal numerals and the words of a
//! line, split at white space the way `str::split_whitespace` splits.
use vstd::prelude::*;

verus! {

/// The decimal digit `d`, for `d` under ten.
pub open spec fn digit_char(d: nat) -> char {
    "0123456789"@[d as int]
}

/// The decimal numeral of `n`, without leading zeros (`"0"` for zero).
pub open spec fn decimal_text(n: nat) -> Seq<char>
    decreases n,
{
    if n < 10 {
        seq![digit_char(n)]
    } else {
        decimal_text(n / 10).push(digit_char(n % 10))
    }
}

/// The decimal numeral of `n`.
pub fn decimal(n: u64) -> (s: String)
    ensures
        s@ == decimal_text(n as nat),
    decreases n,
{
    let digits = "0123456789";
    proof {
        reveal_strlit("0123456789");
    }
    let d = (n % 10) as usize;
    let last = digits.substring_char(d, d + 1);
    assert(last@ == seq![digit_char(d as nat)]);
    if n < 10 {
        last.to_owned()
    } else {
        let mut s = decimal(n / 10);
        s.append(last);
        s
    }
}

/// Whether `c` has the Unicode `White_Space` property.
pub open spec fn white_space(c: char) -> bool {
    let v = c as u32;
    (0x09 <= v <= 0x0D) || v == 0x20 || v == 0x85 || v == 0xA0 || v == 0x1680 || (0x2000 <= v <= 0x200A) || v
        == 0x2028 || v == 0x2029 || v == 0x202F || v == 0x205F || v == 0x3000
}

/// Whether `c` is white space, as [`white_space`] says.
pub fn is_white_space(c: char) -> (b: bool)
    ensures
        b == white_space(c),
{
    let v = c as u32;
    (0x09 <= v && v <= 0x0D) || v == 0x20 || v == 0x85 || v == 0xA0 || v == 0x1680 || (0x2000 <= v && v <= 0x200A)
        || v == 0x2028 || v == 0x2029 || v == 0x202F || v == 0x205F || v == 0x3000
}

/// The words of `s`: its longest runs of characters that are not white space,
/// in order.
pub open spec fn words(s: Seq<char>) -> Seq<Seq<char>>
    decreases s.len(),
{
    if s.len() == 0 {
        seq![]
    } else {
        let w = words(s.drop_last());
        let c = s.last();
        if white_space(c) {
            w
        } else if s.len() >= 2 && !white_space(s[s.len() - 2]) {
            w.update(w.len() - 1, w.last().push(c))
        } else {
            w.push(seq![c])
        }
    }
}

/// The text of an optional string.
pub open spec fn opt_text(o: Option<String>) -> Option<Seq<char>> {
    match o {
        Some(s) => Some(s@),
        None => None,
    }
}

/// The texts of a list of strings.
pub open spec fn texts(v: Seq<String>) -> Seq<Seq<char>> {
    v.map_values(|x: String| x@)
}

/// The words of `s`, as [`words`] gives them.
pub fn split_whitespace(s: &str) -> (out: Vec<String>)
    ensures
        texts(out@) == words(s@),
{
    let n = s.unicode_len();
    let mut out: Vec<String> = Vec::new();
    let mut start: usize = 0;
    let mut in_word = false;
    let mut i: usize = 0;
    while i < n
        invariant
            n == s@.len(),
            i <= n,
            in_word == (i > 0 && !white_space(s@[i - 1])),
            in_word ==> start < i,
            in_word ==> texts(out@).push(s@.subrange(start as int, i as int)) == words(s@.subrange(0, i as int)),
            !in_word ==> texts(out@) == words(s@.subrange(0, i as int)),
        decreases n - i,
    {
        let c = s.get_char(i);
        let ghost pre = s@.subrange(0, i as int);
        let ghost post = s@.subrange(0, i as int + 1);
        assert(post.drop_last() =~= pre);
        assert(post.last() == c);
        if is_white_space(c) {
            if in_word {
                let word = s.substring_char(start, i).to_owned();
                let ghost before = texts(out@);
                out.push(word);
                assert(texts(out@) =~= before.push(word@));
            }
            in_word = false;
        } else if in_word {
            assert(s@.subrange(start as int, i as int + 1) =~= s@.subrange(start as int, i as int).push(c));
            assert(texts(out@).push(s@.subrange(start as int, i as int + 1)) =~= texts(out@).push(
                s@.subrange(start as int, i as int),
            ).update(texts(out@).len() as int, s@.subrange(start as int, i as int).push(c)));
        } else {
            start = i;
            in_word = true;
            assert(s@.subrange(start as int, i as int + 1) =~= seq![c]);
            assert(texts(out@).push(seq![c]) =~= words(pre).push(seq![c]));
        }
        i += 1;
    }
    if in_word {
        let word = s.substring_char(start, n).to_owned();
        let ghost before = texts(out@);
        out.push(word);
        assert(texts(out@) =~= before.push(word@));
    }
    assert(s@.subrange(0, n as int) =~= s@);
    out
}

/// Every word is a non-empty run of characters none of which is white space.
pub proof fn lemma_words_are_nonblank(s: Seq<char>)
    ensures
        forall|i: int|
            0 <= i < words(s).len() ==> (#[trigger] words(s)[i]).len() > 0 && forall|j: int|
                0 <= j < words(s)[i].len() ==> !white_space(words(s)[i][j]),
    decreases s.len(),
{
    if s.len() > 0 {
        let w = words(s.drop_last());
        lemma_words_are_nonblank(s.drop_last());
        let c = s.last();
        if !white_space(c) && s.len() >= 2 && !white_space(s[s.len() - 2]) {
            lemma_word_open(s.drop_last());
            let last = w.last().push(c);
            assert forall|i: int|
                0 <= i < words(s).len() implies (#[trigger] words(s)[i]).len() > 0 && forall|j: int|
                    0 <= j < words(s)[i].len() ==> !white_space(words(s)[i][j]) by {
                if i == w.len() - 1 {
                    assert(words(s)[i] == last);
                    assert forall|j: int| 0 <= j < last.len() implies !white_space(last[j]) by {
                        if j < last.len() - 1 {
                            assert(last[j] == w.last()[j]);
                        }
                    }
                } else {
                    assert(words(s)[i] == w[i]);
                }
            }
        }
    }
}

/// A text that ends in a character other than white space has a last word.
proof fn lemma_word_open(s: Seq<char>)
    requires
        s.len() > 0,
        !white_space(s.last()),
    ensures
        words(s).len() > 0,
    decreases s.len(),
{
    let c = s.last();
    if s.len() >= 2 && !white_space(s[s.len() - 2]) {
        assert(s.drop_last().last() == s[s.len() - 2]);
        lemma_word_open(s.drop_last());
    }
}

/// The value of a string of decimal digits.
pub open spec fn digits_value(s: Seq<char>) -> int
    decreases s.len(),
{
    if s.len() == 0 {
        0
    } else {
        digits_value(s.drop_last()) * 10 + (s.last() as int - '0' as int)
    }
}

/// The digit for `d` stands for `d`.
proof fn lemma_digit_value(d: nat)
    requires
        d < 10,
    ensures
        digit_char(d) as int - '0' as int == d,
{
    reveal_strlit("0123456789");
    assert("0123456789"@ =~= seq!['0', '1', '2', '3', '4', '5', '6', '7', '8', '9']);
    assert('0' as int == 48 && '1' as int == 49 && '2' as int == 50 && '3' as int == 51 && '4' as int == 52);
    assert('5' as int == 53 && '6' as int == 54 && '7' as int == 55 && '8' as int == 56 && '9' as int == 57);
}

/// Reading a numeral back gives the number it was written for, and a numeral
/// has no leading zero unless it is the numeral of zero.
pub proof fn lemma_decimal_round_trip(n: nat)
    ensures
        digits_value(decimal_text(n)) == n,
        decimal_text(n).len() > 0,
        decimal_text(n)[0] == '0' ==> n == 0,
    decreases n,
{
    lemma_digit_value(n % 10);
    if n >= 10 {
        lemma_decimal_round_trip(n / 10);
        assert(decimal_text(n).drop_last() == decimal_text(n / 10));
        assert(decimal_text(n)[0] == decimal_text(n / 10)[0]);
        let t = decimal_text(n);
        assert(t.last() == digit_char(n % 10));
        assert(digits_value(t) == digits_value(t.drop_last()) * 10 + (t.last() as int - '0' as int));
        assert(digits_value(t) == (n / 10) * 10 + (n % 10) as int);
        vstd::arithmetic::div_mod::lemma_fundamental_div_mod(n as int, 10);
    } else {
        let t = decimal_text(n);
        assert(n % 10 == n);
        assert(t.drop_last() =~= Seq::<char>::empty());
        assert(digits_value(t) == digits_value(t.drop_last()) * 10 + (t.last() as int - '0' as int));
    }
}

} // verus!
