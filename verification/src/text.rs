//! Text operations on `String` and `str`, stated over sequences of characters.

use vstd::prelude::*;
use vstd::string::StringExecFns;

verus! {

/// `String::push` appends one character.
pub assume_specification[ String::push ](s: &mut String, c: char)
    ensures
        final(s)@ == old(s)@.push(c),
;

/// Whether two texts hold the same characters.
pub fn same(a: &str, b: &str) -> (r: bool)
    ensures
        r == (a@ == b@),
{
    a.to_owned() == b.to_owned()
}

/// The characters of a text.
pub fn chars_of(s: &str) -> (v: Vec<char>)
    ensures
        v@ == s@,
{
    let mut v: Vec<char> = Vec::new();
    for c in it: s.chars()
        invariant
            it.seq() == s@,
            v@ == s@.take(it.index() as int),
    {
        proof {
            assert(s@.take(it.index() as int + 1) =~= s@.take(it.index() as int).push(s@[it.index() as int]));
        }
        v.push(c);
    }
    proof {
        assert(s@.take(s@.len() as int) =~= s@);
    }
    v
}

/// The text made of the characters from `from` up to `to`.
pub fn text_of(v: &Vec<char>, from: usize, to: usize) -> (s: String)
    requires
        from <= to <= v@.len(),
    ensures
        s@ == v@.subrange(from as int, to as int),
{
    let mut s = String::new();
    let mut i: usize = from;
    while i < to
        invariant
            from <= i <= to <= v@.len(),
            s@ == v@.subrange(from as int, i as int),
        decreases to - i,
    {
        proof {
            assert(v@.subrange(from as int, i as int + 1) =~= v@.subrange(from as int, i as int).push(
                v@[i as int],
            ));
        }
        s.push(v[i]);
        i = i + 1;
    }
    s
}

/// Three texts joined by a separator, as in `a:b:c`.
pub fn join3(a: &str, b: &str, c: &str, separator: &str) -> (s: String)
    ensures
        s@ == a@ + separator@ + b@ + separator@ + c@,
{
    let mut s = a.to_owned();
    s.append(separator);
    s.append(b);
    s.append(separator);
    s.append(c);
    s
}

/// Two texts, one after the other.
pub fn join(a: &str, b: &str) -> (s: String)
    ensures
        s@ == a@ + b@,
{
    let mut s = a.to_owned();
    s.append(b);
    s
}

/// Whether `needle` stands in `hay` at the place `at`.
pub open spec fn occurs_at(hay: Seq<char>, needle: Seq<char>, at: int) -> bool {
    0 <= at && at + needle.len() <= hay.len() && hay.subrange(at, at + needle.len()) == needle
}

/// Whether `needle` stands anywhere in `hay`.
pub open spec fn occurs(hay: Seq<char>, needle: Seq<char>) -> bool {
    exists|at: int| #[trigger] occurs_at(hay, needle, at)
}

fn stands_at(hay: &Vec<char>, needle: &Vec<char>, at: usize) -> (r: bool)
    requires
        at + needle@.len() <= hay@.len(),
    ensures
        r == occurs_at(hay@, needle@, at as int),
{
    let mut i: usize = 0;
    let bound: usize = hay.len();
    while i < needle.len()
        invariant
            i <= needle@.len(),
            at + needle@.len() <= hay@.len() == bound,
            forall|j: int| 0 <= j < i ==> hay@[at + j] == needle@[j],
        decreases needle@.len() - i,
    {
        if hay[at + i] != needle[i] {
            proof {
                assert(hay@.subrange(at as int, at + needle@.len())[i as int] == hay@[at + i]);
            }
            return false;
        }
        i = i + 1;
    }
    proof {
        assert(hay@.subrange(at as int, at + needle@.len()) =~= needle@);
    }
    true
}

/// Whether `needle` stands anywhere in `hay`.
pub fn contains(hay: &str, needle: &str) -> (r: bool)
    ensures
        r == occurs(hay@, needle@),
{
    let h = chars_of(hay);
    let n = chars_of(needle);
    if n.len() > h.len() {
        return false;
    }
    let last: usize = h.len() - n.len();
    let mut at: usize = 0;
    while at <= last
        invariant
            h@ == hay@,
            n@ == needle@,
            last == h@.len() - n@.len(),
            at <= last + 1,
            forall|i: int| 0 <= i < at ==> !#[trigger] occurs_at(h@, n@, i),
        decreases last + 1 - at,
    {
        if stands_at(&h, &n, at) {
            return true;
        }
        if at == last {
            proof {
                assert forall|i: int| !#[trigger] occurs_at(h@, n@, i) by {
                    if occurs_at(h@, n@, i) {
                        assert(i <= last);
                    }
                }
            }
            return false;
        }
        at = at + 1;
    }
    false
}

/// Whether `hay` begins with `prefix`.
pub open spec fn begins_with(hay: Seq<char>, prefix: Seq<char>) -> bool {
    occurs_at(hay, prefix, 0)
}

pub fn starts_with(hay: &str, prefix: &str) -> (r: bool)
    ensures
        r == begins_with(hay@, prefix@),
{
    let h = chars_of(hay);
    let p = chars_of(prefix);
    p.len() <= h.len() && stands_at(&h, &p, 0)
}

/// Whether `hay` ends with `suffix`.
pub open spec fn finishes_with(hay: Seq<char>, suffix: Seq<char>) -> bool {
    occurs_at(hay, suffix, hay.len() - suffix.len())
}

pub fn ends_with(hay: &str, suffix: &str) -> (r: bool)
    ensures
        r == finishes_with(hay@, suffix@),
{
    let h = chars_of(hay);
    let p = chars_of(suffix);
    p.len() <= h.len() && stands_at(&h, &p, h.len() - p.len())
}

/// The text without any `suffix` at its end, however often it stands there.
pub open spec fn without_suffixes(s: Seq<char>, suffix: Seq<char>) -> Seq<char>
    decreases s.len(),
{
    if suffix.len() > 0 && finishes_with(s, suffix) {
        without_suffixes(s.take(s.len() - suffix.len()), suffix)
    } else {
        s
    }
}

pub fn trim_end_matches(s: &str, suffix: &str) -> (r: String)
    ensures
        r@ == without_suffixes(s@, suffix@),
{
    let mut h = chars_of(s);
    let p = chars_of(suffix);
    if p.len() == 0 {
        return s.to_owned();
    }
    while p.len() <= h.len() && stands_at(&h, &p, h.len() - p.len())
        invariant
            p@ == suffix@,
            p@.len() > 0,
            without_suffixes(h@, p@) == without_suffixes(s@, suffix@),
        decreases h@.len(),
    {
        let keep: usize = h.len() - p.len();
        proof {
            assert(h@.subrange(0, keep as int) =~= h@.take(keep as int));
        }
        h.truncate(keep);
    }
    let n: usize = h.len();
    proof {
        assert(h@.subrange(0, n as int) =~= h@);
    }
    text_of(&h, 0, n)
}

/// The symbol of a perpetual or spot pair without its quote currency.
pub fn base_of_symbol(symbol: &str) -> (token: String)
    ensures
        token@ == without_suffixes(symbol@, "USDT"@),
{
    trim_end_matches(symbol, "USDT")
}

pub open spec fn upper_char(c: char) -> char {
    if 'a' <= c && c <= 'z' {
        ((c as u32 - 32) as u32) as char
    } else {
        c
    }
}

pub open spec fn lower_char(c: char) -> char {
    if 'A' <= c && c <= 'Z' {
        ((c as u32 + 32) as u32) as char
    } else {
        c
    }
}

/// The text with its ASCII letters in upper case.
pub open spec fn upper(s: Seq<char>) -> Seq<char> {
    s.map_values(|c: char| upper_char(c))
}

/// The text with its ASCII letters in lower case.
pub open spec fn lower(s: Seq<char>) -> Seq<char> {
    s.map_values(|c: char| lower_char(c))
}

pub fn to_ascii_uppercase(s: &str) -> (r: String)
    ensures
        r@ == upper(s@),
{
    let v = chars_of(s);
    let mut r = String::new();
    let mut i: usize = 0;
    while i < v.len()
        invariant
            i <= v@.len(),
            v@ == s@,
            r@ == upper(s@.take(i as int)),
        decreases v@.len() - i,
    {
        let c: char = v[i];
        let d: char = if 'a' <= c && c <= 'z' {
            (c as u8 - 32) as char
        } else {
            c
        };
        proof {
            assert(upper(s@.take(i as int + 1)) =~= upper(s@.take(i as int)).push(d));
        }
        r.push(d);
        i = i + 1;
    }
    proof {
        assert(s@.take(v@.len() as int) =~= s@);
    }
    r
}

pub fn to_ascii_lowercase(s: &str) -> (r: String)
    ensures
        r@ == lower(s@),
{
    let v = chars_of(s);
    let mut r = String::new();
    let mut i: usize = 0;
    while i < v.len()
        invariant
            i <= v@.len(),
            v@ == s@,
            r@ == lower(s@.take(i as int)),
        decreases v@.len() - i,
    {
        let c: char = v[i];
        let d: char = if 'A' <= c && c <= 'Z' {
            (c as u8 + 32) as char
        } else {
            c
        };
        proof {
            assert(lower(s@.take(i as int + 1)) =~= lower(s@.take(i as int)).push(d));
        }
        r.push(d);
        i = i + 1;
    }
    proof {
        assert(s@.take(v@.len() as int) =~= s@);
    }
    r
}

/// Whether two texts agree up to the case of ASCII letters.
pub fn same_ignoring_case(a: &str, b: &str) -> (r: bool)
    ensures
        r == (lower(a@) == lower(b@)),
{
    to_ascii_lowercase(a) == to_ascii_lowercase(b)
}

/// The pieces of a text between the separators, in order.
pub open spec fn pieces(s: Seq<char>, separator: char) -> Seq<Seq<char>>
    decreases s.len(),
{
    if s.len() == 0 {
        seq![Seq::<char>::empty()]
    } else {
        let rest = pieces(s.drop_first(), separator);
        if s[0] == separator {
            seq![Seq::<char>::empty()] + rest
        } else {
            rest.update(0, seq![s[0]] + rest[0])
        }
    }
}

/// The views of a list of texts.
pub open spec fn texts(v: Seq<String>) -> Seq<Seq<char>> {
    v.map_values(|s: String| s@)
}

/// There is always a piece.
pub proof fn lemma_pieces_nonempty(s: Seq<char>, separator: char)
    ensures
        pieces(s, separator).len() > 0,
    decreases s.len(),
{
    if s.len() > 0 {
        lemma_pieces_nonempty(s.drop_first(), separator);
    }
}

/// Splits a text at every separator.
pub fn split(s: &str, separator: char) -> (parts: Vec<String>)
    ensures
        texts(parts@) == pieces(s@, separator),
        parts@.len() > 0,
{
    let v = chars_of(s);
    let mut reversed: Vec<String> = Vec::new();
    let mut end: usize = v.len();
    let mut i: usize = v.len();
    proof {
        lemma_pieces_nonempty(s@, separator);
        assert(v@.subrange(i as int, end as int) =~= Seq::<char>::empty());
        assert(v@.skip(i as int) =~= Seq::<char>::empty());
        assert(texts(reversed@).reverse() =~= Seq::<Seq<char>>::empty());
        assert(seq![Seq::<char>::empty()] + Seq::<Seq<char>>::empty() =~= seq![Seq::<char>::empty()]);
    }
    while i > 0
        invariant
            i <= end <= v@.len(),
            v@ == s@,
            pieces(s@.skip(i as int), separator) == seq![v@.subrange(i as int, end as int)] + texts(
                reversed@,
            ).reverse(),
        decreases i,
    {
        let ghost before = s@.skip(i as int);
        i = i - 1;
        proof {
            let now = s@.skip(i as int);
            assert(now.drop_first() =~= before);
            assert(now[0] == v@[i as int]);
        }
        if v[i] == separator {
            let ghost tail = v@.subrange(i + 1, end as int);
            let ghost old_reversed = texts(reversed@);
            reversed.push(text_of(&v, i + 1, end));
            end = i;
            proof {
                assert(texts(reversed@) =~= old_reversed.push(tail));
                assert(texts(reversed@).reverse() =~= seq![tail] + old_reversed.reverse());
                assert(v@.subrange(i as int, end as int) =~= Seq::<char>::empty());
            }
        } else {
            proof {
                let head = v@.subrange(i + 1, end as int);
                let rest = seq![head] + texts(reversed@).reverse();
                assert(rest[0] == head);
                assert(seq![v@[i as int]] + head =~= v@.subrange(i as int, end as int));
                assert(rest.update(0, seq![v@[i as int]] + head) =~= seq![
                    v@.subrange(i as int, end as int),
                ] + texts(reversed@).reverse());
            }
        }
    }
    let mut parts: Vec<String> = Vec::new();
    parts.push(text_of(&v, 0, end));
    proof {
        assert(s@.skip(0) =~= s@);
        assert(texts(parts@) =~= seq![v@.subrange(0, end as int)]);
        assert(texts(reversed@).reverse().take(0) =~= Seq::<Seq<char>>::empty());
        assert(seq![v@.subrange(0, end as int)] + Seq::<Seq<char>>::empty() =~= seq![
            v@.subrange(0, end as int),
        ]);
    }
    let n: usize = reversed.len();
    let mut k: usize = 0;
    let ghost all = texts(reversed@).reverse();
    while k < n
        invariant
            k <= n == reversed@.len(),
            all == texts(reversed@).reverse(),
            texts(parts@) == seq![v@.subrange(0, end as int)] + all.take(k as int),
        decreases n - k,
    {
        let ghost old_parts = texts(parts@);
        let piece = reversed[n - 1 - k].clone();
        proof {
            assert(all[k as int] == piece@);
            assert(all.take(k as int + 1) =~= all.take(k as int).push(piece@));
        }
        parts.push(piece);
        proof {
            assert(texts(parts@) =~= old_parts.push(piece@));
            assert(old_parts.push(piece@) =~= seq![v@.subrange(0, end as int)] + all.take(k as int + 1));
        }
        k = k + 1;
    }
    proof {
        assert(all.take(n as int) =~= all);
        assert(texts(parts@).len() == parts@.len());
    }
    parts
}

/// The decimal digits of a number.
pub open spec fn digits(n: nat) -> Seq<char>
    decreases n,
{
    if n < 10 {
        seq![digit(n)]
    } else {
        digits(n / 10).push(digit(n % 10))
    }
}

pub open spec fn digit(n: nat) -> char {
    (48 + n) as char
}

/// The decimal text of a signed number.
pub open spec fn decimal(k: int) -> Seq<char> {
    if k < 0 {
        seq!['-'] + digits((-k) as nat)
    } else {
        digits(k as nat)
    }
}

fn digit_char(n: u8) -> (c: char)
    requires
        n < 10,
    ensures
        c == digit(n as nat),
{
    (48 + n) as char
}

/// The decimal digits of a number.
pub fn digits_text(n: u128) -> (s: String)
    ensures
        s@ == digits(n as nat),
    decreases n,
{
    let mut s = if n < 10 {
        String::new()
    } else {
        digits_text(n / 10)
    };
    s.push(digit_char((n % 10) as u8));
    proof {
        if n < 10 {
            assert(Seq::<char>::empty().push(digit(n as nat)) =~= seq![digit(n as nat)]);
        }
    }
    s
}

/// The decimal text of a signed number.
pub fn int_text(k: i64) -> (s: String)
    ensures
        s@ == decimal(k as int),
{
    if k < 0 {
        let mut s = String::new();
        s.push('-');
        let rest = digits_text((-(k as i128)) as u128);
        s.append(rest.as_str());
        proof {
            assert(Seq::<char>::empty().push('-') =~= seq!['-']);
        }
        s
    } else {
        digits_text(k as u128)
    }
}

/// `n` characters `0`.
pub open spec fn zeros(n: nat) -> Seq<char> {
    Seq::new(n, |i: int| '0')
}

} // verus!
