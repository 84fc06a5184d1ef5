//! Words and whole numbers in text.

use crate::text::{chars_of, text_of, texts};
use vstd::prelude::*;

verus! {

/// Whether a character is white space, as Unicode has it.
pub open spec fn white(c: char) -> bool {
    let k = c as u32;
    ||| 9 <= k <= 13
    ||| k == 32
    ||| k == 0x85
    ||| k == 0xa0
    ||| k == 0x1680
    ||| 0x2000 <= k <= 0x200a
    ||| k == 0x2028
    ||| k == 0x2029
    ||| k == 0x202f
    ||| k == 0x205f
    ||| k == 0x3000
}

pub fn is_white(c: char) -> (b: bool)
    ensures
        b == white(c),
{
    let k: u32 = c as u32;
    (9 <= k && k <= 13) || k == 32 || k == 0x85 || k == 0xa0 || k == 0x1680 || (0x2000 <= k && k <= 0x200a)
        || k == 0x2028 || k == 0x2029 || k == 0x202f || k == 0x205f || k == 0x3000
}

/// The words of a text: what stands between white space. `word` is what has
/// been read of the current one.
pub open spec fn words_after(word: Seq<char>, rest: Seq<char>) -> Seq<Seq<char>>
    decreases rest.len(),
{
    if rest.len() == 0 {
        if word.len() == 0 {
            Seq::empty()
        } else {
            seq![word]
        }
    } else if white(rest[0]) {
        if word.len() == 0 {
            words_after(Seq::empty(), rest.drop_first())
        } else {
            seq![word] + words_after(Seq::empty(), rest.drop_first())
        }
    } else {
        words_after(word.push(rest[0]), rest.drop_first())
    }
}

/// The words of a text.
pub open spec fn words(s: Seq<char>) -> Seq<Seq<char>> {
    words_after(Seq::empty(), s)
}

/// The words of a text.
pub fn split_whitespace(s: &str) -> (parts: Vec<String>)
    ensures
        texts(parts@) == words(s@),
{
    let v = chars_of(s);
    let mut parts: Vec<String> = Vec::new();
    let mut start: usize = 0;
    let mut i: usize = 0;
    proof {
        assert(v@.subrange(0, 0) =~= Seq::<char>::empty());
        assert(v@.skip(0) =~= v@);
        assert(texts(parts@) =~= Seq::empty());
        assert(words(s@) =~= texts(parts@) + words_after(v@.subrange(0, 0), v@.skip(0)));
    }
    while i < v.len()
        invariant
            start <= i <= v@.len(),
            v@ == s@,
            words(s@) == texts(parts@) + words_after(v@.subrange(start as int, i as int), v@.skip(i as int)),
        decreases v@.len() - i,
    {
        let ghost word = v@.subrange(start as int, i as int);
        proof {
            assert(v@.skip(i as int)[0] == v@[i as int]);
            assert(v@.skip(i as int).drop_first() =~= v@.skip(i as int + 1));
        }
        if is_white(v[i]) {
            if start < i {
                let ghost before = texts(parts@);
                parts.push(text_of(&v, start, i));
                proof {
                    assert(texts(parts@) =~= before.push(word));
                    assert(before + (seq![word] + words_after(Seq::empty(), v@.skip(i as int + 1))) =~= (
                    before.push(word)) + words_after(Seq::empty(), v@.skip(i as int + 1)));
                }
            }
            start = i + 1;
            proof {
                assert(v@.subrange(start as int, i as int + 1) =~= Seq::<char>::empty());
                if word.len() == 0 {
                    assert(word =~= Seq::<char>::empty());
                }
            }
        } else {
            proof {
                assert(v@.subrange(start as int, i as int + 1) =~= word.push(v@[i as int]));
            }
        }
        i = i + 1;
    }
    let ghost word = v@.subrange(start as int, i as int);
    proof {
        assert(v@.skip(i as int).len() == 0);
    }
    if start < i {
        let ghost before = texts(parts@);
        parts.push(text_of(&v, start, i));
        proof {
            assert(texts(parts@) =~= before.push(word));
            assert(before + seq![word] =~= before.push(word));
        }
    } else {
        proof {
            assert(texts(parts@) + Seq::<Seq<char>>::empty() =~= texts(parts@));
        }
    }
    parts
}

/// A text without the white space that it begins with.
pub open spec fn trim_front(s: Seq<char>) -> Seq<char>
    decreases s.len(),
{
    if s.len() > 0 && white(s[0]) {
        trim_front(s.drop_first())
    } else {
        s
    }
}

/// A text without the white space that it ends with.
pub open spec fn trim_back(s: Seq<char>) -> Seq<char>
    decreases s.len(),
{
    if s.len() > 0 && white(s.last()) {
        trim_back(s.drop_last())
    } else {
        s
    }
}

/// A text without the white space around it.
pub open spec fn trimmed(s: Seq<char>) -> Seq<char> {
    trim_back(trim_front(s))
}

/// A text without the white space around it.
pub fn trim(s: &str) -> (r: String)
    ensures
        r@ == trimmed(s@),
{
    let v = chars_of(s);
    let mut start: usize = 0;
    proof {
        assert(v@.skip(0) =~= v@);
    }
    while start < v.len() && is_white(v[start])
        invariant
            start <= v@.len(),
            trim_front(v@) == trim_front(v@.skip(start as int)),
        decreases v@.len() - start,
    {
        proof {
            assert(v@.skip(start as int)[0] == v@[start as int]);
            assert(v@.skip(start as int).drop_first() =~= v@.skip(start as int + 1));
        }
        start = start + 1;
    }
    proof {
        if start < v@.len() {
            assert(v@.skip(start as int)[0] == v@[start as int]);
        }
        assert(trim_front(v@) == v@.skip(start as int));
    }
    let mut end: usize = v.len();
    proof {
        assert(v@.subrange(start as int, end as int) =~= v@.skip(start as int));
    }
    while end > start && is_white(v[end - 1])
        invariant
            start <= end <= v@.len(),
            trim_back(v@.skip(start as int)) == trim_back(v@.subrange(start as int, end as int)),
        decreases end,
    {
        proof {
            let now = v@.subrange(start as int, end as int);
            assert(now.last() == v@[end - 1]);
            assert(now.drop_last() =~= v@.subrange(start as int, end - 1));
        }
        end = end - 1;
    }
    proof {
        let now = v@.subrange(start as int, end as int);
        if end > start {
            assert(now.last() == v@[end - 1]);
        }
    }
    text_of(&v, start, end)
}

/// A text without the white space that it ends with.
pub fn trim_end(s: &str) -> (r: String)
    ensures
        r@ == trim_back(s@),
{
    let v = chars_of(s);
    let mut end: usize = v.len();
    proof {
        assert(v@.take(end as int) =~= v@);
    }
    while end > 0 && is_white(v[end - 1])
        invariant
            end <= v@.len(),
            trim_back(v@) == trim_back(v@.take(end as int)),
        decreases end,
    {
        proof {
            assert(v@.take(end as int).last() == v@[end - 1]);
            assert(v@.take(end as int).drop_last() =~= v@.take(end - 1));
        }
        end = end - 1;
    }
    proof {
        if end > 0 {
            assert(v@.take(end as int).last() == v@[end - 1]);
        }
        assert(v@.subrange(0, end as int) =~= v@.take(end as int));
    }
    text_of(&v, 0, end)
}

/// Whether a character is a decimal digit.
pub open spec fn is_digit(c: char) -> bool {
    '0' <= c <= '9'
}

/// Whether a text is made of decimal digits, at least one of them.
pub open spec fn numeric(s: Seq<char>) -> bool {
    s.len() > 0 && forall|i: int| 0 <= i < s.len() ==> is_digit(#[trigger] s[i])
}

/// The number that decimal digits stand for.
pub open spec fn value_of(s: Seq<char>) -> nat
    decreases s.len(),
{
    if s.len() == 0 {
        0
    } else {
        (value_of(s.drop_last()) * 10 + (s.last() as u32 - '0' as u32)) as nat
    }
}

/// The number that a text stands for, with an optional sign.
pub open spec fn whole(s: Seq<char>) -> Option<int> {
    if s.len() > 0 && s[0] == '-' && numeric(s.drop_first()) {
        Some(-(value_of(s.drop_first()) as int))
    } else if s.len() > 0 && s[0] == '+' && numeric(s.drop_first()) {
        Some(value_of(s.drop_first()) as int)
    } else if numeric(s) {
        Some(value_of(s) as int)
    } else {
        None
    }
}

proof fn lemma_prefix_is_smaller(s: Seq<char>, n: int)
    requires
        0 <= n <= s.len(),
        forall|i: int| 0 <= i < s.len() ==> is_digit(#[trigger] s[i]),
    ensures
        value_of(s.take(n)) <= value_of(s),
    decreases s.len(),
{
    if n == s.len() {
        assert(s.take(n) =~= s);
    } else {
        let t = s.drop_last();
        assert forall|i: int| 0 <= i < t.len() implies is_digit(#[trigger] t[i]) by {
            assert(t[i] == s[i]);
        }
        lemma_prefix_is_smaller(t, n);
        assert(t.take(n) =~= s.take(n));
        assert(is_digit(s[s.len() - 1]));
    }
}

/// The number that the digits from `from` on stand for, if it is at most 2^64.
fn parse_digits(v: &Vec<char>, from: usize) -> (r: Option<u64>)
    requires
        from <= v@.len(),
    ensures
        ({
            let rest = v@.skip(from as int);
            match r {
                Some(n) => numeric(rest) && value_of(rest) == n,
                None => !numeric(rest) || value_of(rest) > u64::MAX,
            }
        }),
{
    let ghost rest = v@.skip(from as int);
    if from >= v.len() {
        return None;
    }
    let mut all: bool = true;
    let mut k: usize = from;
    while k < v.len()
        invariant
            from <= k <= v@.len(),
            rest == v@.skip(from as int),
            all == forall|i: int| 0 <= i < k - from ==> is_digit(#[trigger] rest[i]),
        decreases v@.len() - k,
    {
        let ghost before = all;
        if !('0' <= v[k] && v[k] <= '9') {
            all = false;
            proof {
                assert(!is_digit(rest[k - from]));
            }
        }
        k = k + 1;
        proof {
            if all {
                assert forall|i: int| 0 <= i < k - from implies is_digit(#[trigger] rest[i]) by {
                    if i == k - 1 - from {
                        assert(rest[i] == v@[k - 1]);
                    }
                }
            } else if !before {
                let j = choose|j: int| 0 <= j < k - 1 - from && !is_digit(#[trigger] rest[j]);
                assert(!is_digit(rest[j]));
            }
        }
    }
    if !all {
        return None;
    }
    let mut acc: u64 = 0;
    let mut i: usize = from;
    proof {
        assert(rest.take(0).len() == 0);
    }
    while i < v.len()
        invariant
            from <= i <= v@.len(),
            rest == v@.skip(from as int),
            rest.len() > 0,
            forall|j: int| 0 <= j < rest.len() ==> is_digit(#[trigger] rest[j]),
            acc == value_of(rest.take(i - from)),
        decreases v@.len() - i,
    {
        let ghost next = rest.take(i + 1 - from);
        proof {
            assert(next.drop_last() =~= rest.take(i - from));
            assert(next.last() == v@[i as int]);
            assert(is_digit(rest[i - from]));
            lemma_prefix_is_smaller(rest, i + 1 - from);
        }
        let d: u64 = (v[i] as u32 - '0' as u32) as u64;
        let wide: u128 = (acc as u128) * 10 + d as u128;
        proof {
            assert(value_of(next) == wide);
        }
        if wide > u64::MAX as u128 {
            return None;
        }
        acc = wide as u64;
        i = i + 1;
    }
    proof {
        assert(rest.take(rest.len() as int) =~= rest);
    }
    Some(acc)
}

/// The signed number that a text stands for, if the machine can hold it.
pub fn parse_i64(s: &str) -> (r: Option<i64>)
    ensures
        match whole(s@) {
            Some(k) => if i64::MIN <= k <= i64::MAX {
                r == Some(k as i64)
            } else {
                r is None
            },
            None => r is None,
        },
{
    let v = chars_of(s);
    proof {
        assert(v@.skip(0) =~= v@);
    }
    if v.len() == 0 {
        return None;
    }
    proof {
        assert(v@.skip(1) =~= v@.drop_first());
        if v@[0] == '-' || v@[0] == '+' {
            assert(!is_digit(v@[0]));
        }
    }
    if v[0] == '-' {
        match parse_digits(&v, 1) {
            Some(n) => {
                if n <= 9223372036854775808 {
                    Some((-(n as i128)) as i64)
                } else {
                    None
                }
            },
            None => None,
        }
    } else {
        let from: usize = if v[0] == '+' {
            1
        } else {
            0
        };
        match parse_digits(&v, from) {
            Some(n) => {
                if n <= 9223372036854775807 {
                    Some(n as i64)
                } else {
                    None
                }
            },
            None => None,
        }
    }
}

/// The unsigned number that a text stands for: digits, with an optional plus
/// sign.
pub open spec fn unsigned(s: Seq<char>) -> Option<nat> {
    if s.len() > 0 && s[0] == '+' && numeric(s.drop_first()) {
        Some(value_of(s.drop_first()))
    } else if numeric(s) {
        Some(value_of(s))
    } else {
        None
    }
}

/// The unsigned number up to `limit` that a text stands for.
pub fn parse_unsigned(s: &str, limit: u64) -> (r: Option<u64>)
    ensures
        match unsigned(s@) {
            Some(k) => if k <= limit {
                r == Some(k as u64)
            } else {
                r is None
            },
            None => r is None,
        },
{
    let v = chars_of(s);
    proof {
        assert(v@.skip(0) =~= v@);
    }
    if v.len() == 0 {
        return None;
    }
    proof {
        assert(v@.skip(1) =~= v@.drop_first());
        if v@[0] == '+' {
            assert(!is_digit(v@[0]));
        }
    }
    let from: usize = if v[0] == '+' {
        1
    } else {
        0
    };
    match parse_digits(&v, from) {
        Some(n) => {
            if n <= limit {
                Some(n)
            } else {
                None
            }
        },
        None => None,
    }
}

} // verus!
