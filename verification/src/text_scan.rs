//! Reading words and numbers out of text, as `str::split_whitespace` and `str::parse::<u64>`
//! do.
use vstd::prelude::*;

verus! {

/// Unicode's `White_Space` property, which `char::is_whitespace` tests.
pub open spec fn is_space(c: char) -> bool {
    let v = c as u32;
    (0x9 <= v <= 0xD) || v == 0x20 || v == 0x85 || v == 0xA0 || v == 0x1680 || (0x2000 <= v
        <= 0x200A) || v == 0x2028 || v == 0x2029 || v == 0x202F || v == 0x205F || v == 0x3000
}

pub fn space(c: char) -> (r: bool)
    ensures
        r == is_space(c),
{
    let v = c as u32;
    (0x9 <= v && v <= 0xD) || v == 0x20 || v == 0x85 || v == 0xA0 || v == 0x1680 || (0x2000 <= v
        && v <= 0x200A) || v == 0x2028 || v == 0x2029 || v == 0x202F || v == 0x205F || v == 0x3000
}

/// Where the word starting at `i` ends: the first whitespace at or after `i`, or the end.
pub open spec fn word_end(s: Seq<char>, i: int) -> int
    decreases s.len() - i,
{
    if i < 0 || i >= s.len() || is_space(s[i]) {
        i
    } else {
        word_end(s, i + 1)
    }
}

/// The whitespace-separated words of `s` from position `i` on.
pub open spec fn words_from(s: Seq<char>, i: int) -> Seq<Seq<char>>
    decreases s.len() - i, 1int,
{
    if i < 0 || i >= s.len() {
        seq![]
    } else if is_space(s[i]) {
        words_from(s, i + 1)
    } else {
        proof {
            lemma_word_end(s, i);
        }
        seq![s.subrange(i, word_end(s, i))] + words_from(s, word_end(s, i))
    }
}

/// The whitespace-separated words of `s`.
pub open spec fn words(s: Seq<char>) -> Seq<Seq<char>> {
    words_from(s, 0)
}

pub proof fn lemma_word_end(s: Seq<char>, i: int)
    requires
        0 <= i < s.len(),
        !is_space(s[i]),
    ensures
        i < word_end(s, i) <= s.len(),
        forall|k: int| i <= k < word_end(s, i) ==> !is_space(#[trigger] s[k]),
    decreases s.len() - i,
{
    assert(word_end(s, i) == word_end(s, i + 1));
    if i + 1 < s.len() && !is_space(s[i + 1]) {
        lemma_word_end(s, i + 1);
    } else {
        assert(word_end(s, i + 1) == i + 1);
    }
}

/// The characters of `text`.
pub fn chars_of(text: &str) -> (chars: Vec<char>)
    ensures
        chars@ == text@,
{
    let n = text.unicode_len();
    let mut chars: Vec<char> = Vec::new();
    let mut i: usize = 0;
    while i < n
        invariant
            n == text@.len(),
            i <= n,
            chars@ == text@.subrange(0, i as int),
        decreases n - i,
    {
        chars.push(text.get_char(i));
        i += 1;
        assert(chars@ =~= text@.subrange(0, i as int));
    }
    assert(chars@ =~= text@);
    chars
}

/// Finds the next word at or after `start`: its first position and the position after it.
pub fn next_word(s: &Vec<char>, start: usize) -> (word: Option<(usize, usize)>)
    requires
        start <= s@.len(),
    ensures
        match word {
            None => words_from(s@, start as int) == Seq::<Seq<char>>::empty(),
            Some((a, b)) => start <= a < b <= s@.len() && b == word_end(s@, a as int) && words_from(
                s@,
                start as int,
            ) == seq![s@.subrange(a as int, b as int)] + words_from(s@, b as int),
        },
{
    let mut i = start;
    while i < s.len() && space(s[i])
        invariant
            start <= i <= s@.len(),
            words_from(s@, start as int) == words_from(s@, i as int),
        decreases s@.len() - i,
    {
        i += 1;
    }
    if i == s.len() {
        return None;
    }
    let mut j = i + 1;
    while j < s.len() && !space(s[j])
        invariant
            i < j <= s@.len(),
            !is_space(s@[i as int]),
            word_end(s@, i as int) == word_end(s@, j as int) || (j < s@.len() && !is_space(s@[j as int]) && word_end(s@, i as int) == word_end(s@, j as int)),
        decreases s@.len() - j,
    {
        j += 1;
    }
    proof {
        lemma_word_end(s@, i as int);
    }
    Some((i, j))
}

/// The value of a run of decimal digits.
pub open spec fn digits_value(d: Seq<char>) -> nat
    decreases d.len(),
{
    if d.len() == 0 {
        0
    } else {
        digits_value(d.drop_last()) * 10 + (d.last() as nat - '0' as nat) as nat
    }
}

/// Whether every character is an ASCII digit.
pub open spec fn all_digits(d: Seq<char>) -> bool {
    forall|k: int| 0 <= k < d.len() ==> '0' <= #[trigger] d[k] <= '9'
}

/// What `str::parse::<u64>` reads from `w`: an optional `+` and at least one ASCII digit,
/// nothing else, with a value that fits.
pub open spec fn parsed_u64(w: Seq<char>) -> Option<u64> {
    let d = if w.len() > 0 && w[0] == '+' {
        w.drop_first()
    } else {
        w
    };
    if d.len() > 0 && all_digits(d) && digits_value(d) <= u64::MAX {
        Some(digits_value(d) as u64)
    } else {
        None
    }
}

proof fn lemma_digits_grow(d: Seq<char>, k: int)
    requires
        0 <= k <= d.len(),
        all_digits(d),
    ensures
        digits_value(d.subrange(0, k)) <= digits_value(d),
    decreases d.len() - k,
{
    if k < d.len() {
        lemma_digits_grow(d, k + 1);
        let p = d.subrange(0, k + 1);
        assert(p.drop_last() =~= d.subrange(0, k));
        assert('0' <= p.last() <= '9');
    } else {
        assert(d.subrange(0, k) =~= d);
    }
}

/// Reads the number written in `s[a..b]`, as `str::parse::<u64>` does.
pub fn parse_u64(s: &Vec<char>, a: usize, b: usize) -> (value: Option<u64>)
    requires
        a <= b <= s@.len(),
    ensures
        value == parsed_u64(s@.subrange(a as int, b as int)),
{
    let ghost w = s@.subrange(a as int, b as int);
    let mut i = a;
    if i < b && s[i] == '+' {
        i += 1;
    }
    let ghost d = s@.subrange(i as int, b as int);
    assert(d =~= (if w.len() > 0 && w[0] == '+' {
        w.drop_first()
    } else {
        w
    }));
    if i == b {
        return None;
    }
    let start = i;
    let mut value: u64 = 0;
    while i < b
        invariant
            a <= start <= i <= b <= s@.len(),
            w == s@.subrange(a as int, b as int),
            d == (if w.len() > 0 && w[0] == '+' {
                w.drop_first()
            } else {
                w
            }),
            d == s@.subrange(start as int, b as int),
            d.len() > 0,
            all_digits(s@.subrange(start as int, i as int)),
            value == digits_value(s@.subrange(start as int, i as int)),
        decreases b - i,
    {
        let c = s[i];
        let prefix = Ghost(s@.subrange(start as int, (i + 1) as int));
        assert(prefix@.drop_last() =~= s@.subrange(start as int, i as int));
        if c < '0' || c > '9' {
            assert(d[(i - start) as int] == c);
            assert(!all_digits(d));
            return None;
        }
        assert(prefix@.last() == c);
        assert(all_digits(prefix@)) by {
            assert forall|k: int| 0 <= k < prefix@.len() implies '0' <= #[trigger] prefix@[k] <= '9' by {
                if k < prefix@.len() - 1 {
                    assert(prefix@[k] == s@.subrange(start as int, i as int)[k]);
                }
            }
        }
        assert(digits_value(prefix@) == value * 10 + (c as nat - '0' as nat));
        let digit = (c as u32 - '0' as u32) as u64;
        let next = match value.checked_mul(10) {
            Some(v) => v.checked_add(digit),
            None => None,
        };
        match next {
            Some(v) => {
                value = v;
            },
            None => {
                proof {
                    assert(digits_value(prefix@) > u64::MAX);
                    if all_digits(d) {
                        lemma_digits_grow(d, (i + 1 - start) as int);
                        assert(d.subrange(0, (i + 1 - start) as int) =~= prefix@);
                    }
                }
                return None;
            },
        }
        i += 1;
    }
    assert(s@.subrange(start as int, i as int) =~= d);
    Some(value)
}

/// Whether two texts hold the same characters.
pub fn same_text(a: &str, b: &str) -> (same: bool)
    ensures
        same == (a@ == b@),
{
    let n = a.unicode_len();
    if n != b.unicode_len() {
        return false;
    }
    let mut k: usize = 0;
    while k < n
        invariant
            n == a@.len(),
            n == b@.len(),
            k <= n,
            forall|j: int| 0 <= j < k ==> a@[j] == b@[j],
        decreases n - k,
    {
        if a.get_char(k) != b.get_char(k) {
            return false;
        }
        k += 1;
    }
    assert(a@ =~= b@);
    true
}

/// Whether `s[a..b]` spells `word`.
pub fn span_is(s: &Vec<char>, a: usize, b: usize, word: &str) -> (r: bool)
    requires
        a <= b <= s@.len(),
    ensures
        r == (s@.subrange(a as int, b as int) == word@),
{
    let n = word.unicode_len();
    if b - a != n {
        assert(s@.subrange(a as int, b as int).len() != word@.len());
        return false;
    }
    let mut k: usize = 0;
    while k < n
        invariant
            n == word@.len(),
            b - a == n,
            a <= b <= s@.len(),
            k <= n,
            forall|j: int| 0 <= j < k ==> s@[a + j] == word@[j],
        decreases n - k,
    {
        if s[a + k] != word.get_char(k) {
            assert(s@.subrange(a as int, b as int)[k as int] == s@[a + k]);
            return false;
        }
        k += 1;
    }
    assert(s@.subrange(a as int, b as int) =~= word@);
    true
}

/// Whether `s` ends with `suffix`.
pub open spec fn ends_with(s: Seq<char>, suffix: Seq<char>) -> bool {
    s.len() >= suffix.len() && s.subrange(s.len() - suffix.len(), s.len() as int) == suffix
}

/// Whether the characters of `s` end with `suffix`.
pub fn chars_end_with(s: &Vec<char>, suffix: &str) -> (r: bool)
    ensures
        r == ends_with(s@, suffix@),
{
    let n = suffix.unicode_len();
    if s.len() < n {
        return false;
    }
    span_is(s, s.len() - n, s.len(), suffix)
}

} // verus!
