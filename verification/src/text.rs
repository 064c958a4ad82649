//! Small verified text utilities shared by the token codec, the roster
//! cache and the report printer: splitting on a separator character,
//! parsing decimal numbers, and printing them.
use vstd::prelude::*;

verus! {

/// Splits a character sequence on a separator. The result always has one
/// more element than there are separators; an empty input yields one empty
/// segment, matching how `str::split` behaves.
pub open spec fn split_on(s: Seq<char>, sep: char) -> Seq<Seq<char>>
    decreases s.len(),
{
    if s.len() == 0 {
        seq![Seq::<char>::empty()]
    } else if s[0] == sep {
        seq![Seq::<char>::empty()] + split_on(s.skip(1), sep)
    } else {
        let rest = split_on(s.skip(1), sep);
        seq![seq![s[0]] + rest[0]] + rest.skip(1)
    }
}

pub proof fn lemma_split_on_nonempty(s: Seq<char>, sep: char)
    ensures
        split_on(s, sep).len() >= 1,
    decreases s.len(),
{
    if s.len() != 0 && s[0] != sep {
        lemma_split_on_nonempty(s.skip(1), sep);
    }
}

/// Extending the input by one character either opens a fresh segment (on a
/// separator) or extends the last segment.
pub proof fn lemma_split_on_push(s: Seq<char>, sep: char, c: char)
    ensures
        c == sep ==> split_on(s.push(c), sep) == split_on(s, sep).push(Seq::<char>::empty()),
        c != sep ==> split_on(s.push(c), sep) == split_on(s, sep).update(
            split_on(s, sep).len() - 1,
            split_on(s, sep).last().push(c),
        ),
    decreases s.len(),
{
    lemma_split_on_nonempty(s, sep);
    if s.len() == 0 {
        reveal_with_fuel(split_on, 3);
        assert(s.push(c).skip(1) =~= Seq::<char>::empty());
        if c == sep {
            assert(split_on(s.push(c), sep) =~~= split_on(s, sep).push(Seq::<char>::empty()));
        } else {
            assert(seq![s.push(c)[0]] + split_on(s.push(c).skip(1), sep)[0] =~= seq![c]);
            assert(split_on(s.push(c), sep) =~~= split_on(s, sep).update(
                0,
                split_on(s, sep).last().push(c),
            ));
        }
    } else {
        lemma_split_on_nonempty(s.skip(1), sep);
        lemma_split_on_push(s.skip(1), sep, c);
        assert(s.push(c).skip(1) =~= s.skip(1).push(c));
        if s[0] == sep {
            if c == sep {
                assert(split_on(s.push(c), sep) =~~= split_on(s, sep).push(
                    Seq::<char>::empty(),
                ));
            } else {
                assert(split_on(s.push(c), sep) =~~= split_on(s, sep).update(
                    split_on(s, sep).len() - 1,
                    split_on(s, sep).last().push(c),
                ));
            }
        } else {
            let rest = split_on(s.skip(1), sep);
            if c == sep {
                assert(split_on(s.push(c), sep) =~~= split_on(s, sep).push(
                    Seq::<char>::empty(),
                ));
            } else {
                if rest.len() == 1 {
                    assert(split_on(s, sep).last() =~= seq![s[0]] + rest[0]);
                }
                assert(split_on(s.push(c), sep) =~~= split_on(s, sep).update(
                    split_on(s, sep).len() - 1,
                    split_on(s, sep).last().push(c),
                ));
            }
        }
    }
}

/// A sequence without the separator splits to a single segment.
pub proof fn lemma_split_no_sep(s: Seq<char>, sep: char)
    requires
        !s.contains(sep),
    ensures
        split_on(s, sep) == seq![s],
    decreases s.len(),
{
    if s.len() == 0 {
        assert(split_on(s, sep) =~~= seq![s]);
    } else {
        assert(s[0] != sep);
        assert(!s.skip(1).contains(sep)) by {
            assert(forall|i: int|
                0 <= i < s.skip(1).len() ==> s.skip(1)[i] == s[i + 1] && s[i + 1] != sep);
        }
        lemma_split_no_sep(s.skip(1), sep);
        assert(split_on(s, sep) =~~= seq![s]);
    }
}

/// Splitting distributes over a separator: the segments of `a + sep + b`
/// are the segments of `a` followed by the segments of `b`.
pub proof fn lemma_split_concat(a: Seq<char>, b: Seq<char>, sep: char)
    ensures
        split_on(a + seq![sep] + b, sep) == split_on(a, sep) + split_on(b, sep),
    decreases a.len(),
{
    lemma_split_on_nonempty(a, sep);
    if a.len() == 0 {
        assert(a + seq![sep] + b =~= seq![sep] + b);
        assert((seq![sep] + b)[0] == sep);
        assert((seq![sep] + b).skip(1) =~= b);
        assert(split_on(a + seq![sep] + b, sep) =~~= split_on(a, sep) + split_on(b, sep));
    } else {
        let a1 = a.skip(1);
        lemma_split_concat(a1, b, sep);
        lemma_split_on_nonempty(a1, sep);
        assert((a + seq![sep] + b)[0] == a[0]);
        assert((a + seq![sep] + b).skip(1) =~= a1 + seq![sep] + b);
        if a[0] == sep {
            assert(split_on(a + seq![sep] + b, sep) =~~= split_on(a, sep) + split_on(b, sep));
        } else {
            assert((split_on(a1, sep) + split_on(b, sep))[0] == split_on(a1, sep)[0]);
            assert((split_on(a1, sep) + split_on(b, sep)).skip(1) =~= split_on(a1, sep).skip(1)
                + split_on(b, sep));
            assert(split_on(a + seq![sep] + b, sep) =~~= split_on(a, sep) + split_on(b, sep));
        }
    }
}

/// The character ranges of the segments of `s` split on `sep`: segment `k`
/// of the split is `s@.subrange(r[k].0, r[k].1)`.
pub open spec fn ranges_cover_split(s: Seq<char>, sep: char, r: Seq<(usize, usize)>) -> bool {
    &&& r.len() == split_on(s, sep).len()
    &&& forall|k: int|
        0 <= k < r.len() ==> {
            &&& (#[trigger] r[k]).0 <= r[k].1 <= s.len()
            &&& s.subrange(r[k].0 as int, r[k].1 as int) == split_on(s, sep)[k]
        }
}

/// Locates the segments of `s` split on `sep`, as index ranges into `s`.
pub fn split_ranges(s: &str, sep: char) -> (r: Vec<(usize, usize)>)
    ensures
        ranges_cover_split(s@, sep, r@),
{
    let n = s.unicode_len();
    let mut r: Vec<(usize, usize)> = Vec::new();
    let mut seg_start: usize = 0;
    let mut i: usize = 0;
    while i < n
        invariant
            0 <= seg_start <= i <= n,
            n == s@.len(),
            r@.len() + 1 == split_on(s@.take(i as int), sep).len(),
            split_on(s@.take(i as int), sep).last() == s@.subrange(seg_start as int, i as int),
            forall|k: int|
                0 <= k < r@.len() ==> {
                    &&& (#[trigger] r@[k]).0 <= r@[k].1 <= i
                    &&& s@.subrange(r@[k].0 as int, r@[k].1 as int) == split_on(
                        s@.take(i as int),
                        sep,
                    )[k]
                },
        decreases n - i,
    {
        let c = s.get_char(i);
        proof {
            lemma_split_on_push(s@.take(i as int), sep, c);
            assert(s@.take(i + 1 as int) =~= s@.take(i as int).push(s@[i as int]));
        }
        if c == sep {
            r.push((seg_start, i));
            seg_start = i + 1;
            proof {
                assert(split_on(s@.take(i + 1 as int), sep).last() =~= s@.subrange(
                    i + 1 as int,
                    i + 1 as int,
                ));
            }
        } else {
            proof {
                assert(split_on(s@.take(i + 1 as int), sep).last() =~= s@.subrange(
                    seg_start as int,
                    i + 1 as int,
                ));
            }
        }
        i = i + 1;
    }
    proof {
        assert(s@.take(n as int) =~= s@);
    }
    r.push((seg_start, n));
    r
}

/// Collects the characters of a string into a vector, for random access.
pub fn chars_of(s: &str) -> (v: Vec<char>)
    ensures
        v@ == s@,
{
    broadcast use vstd::string::group_string_axioms;

    let mut it = s.chars();
    let mut v: Vec<char> = Vec::new();
    loop
        invariant
            vstd::std_specs::iter::IteratorSpec::decrease(&it) is Some,
            v@ + vstd::std_specs::iter::IteratorSpec::remaining(&it) == s@,
        ensures
            v@ == s@,
        decreases vstd::std_specs::iter::IteratorSpec::decrease(&it)->0,
    {
        match it.next() {
            Some(c) => v.push(c),
            None => {
                proof {
                    assert(v@ =~= s@);
                }
                break ;
            },
        }
    }
    v
}

/// The needle occurs in `h` at position `i`.
pub open spec fn match_at(h: Seq<char>, needle: Seq<char>, i: int) -> bool {
    0 <= i && i + needle.len() <= h.len() && h.subrange(i, i + needle.len()) == needle
}

/// Finds the first occurrence of `needle` in `h` at or after `from`,
/// as `str::find` does on the corresponding suffix.
pub fn find_from(h: &Vec<char>, needle: &Vec<char>, from: usize) -> (r: Option<usize>)
    ensures
        match r {
            Some(i) => {
                &&& from <= i
                &&& match_at(h@, needle@, i as int)
                &&& forall|j: int| from <= j < i ==> !match_at(h@, needle@, j)
            },
            None => forall|j: int| from <= j ==> !match_at(h@, needle@, j),
        },
{
    let n = h.len();
    let m = needle.len();
    if m > n {
        return None;
    }
    let mut i: usize = from;
    while i <= n - m
        invariant
            m <= n == h@.len(),
            m == needle@.len(),
            from <= i,
            forall|j: int| from <= j < i ==> !match_at(h@, needle@, j),
        decreases n - i,
    {
        let mut j: usize = 0;
        let mut same = true;
        while j < m
            invariant
                i + m <= n == h@.len(),
                m == needle@.len(),
                0 <= j <= m,
                same <==> h@.subrange(i as int, i + j) =~= needle@.subrange(0, j as int),
            decreases m - j,
        {
            proof {
                assert(h@.subrange(i as int, i + j + 1).drop_last() =~= h@.subrange(
                    i as int,
                    i + j,
                ));
                assert(needle@.subrange(0, j + 1).drop_last() =~= needle@.subrange(0, j as int));
            }
            if h[i + j] != needle[j] {
                same = false;
                proof {
                    assert(h@.subrange(i as int, i + j + 1).last() == h@[i + j]);
                    assert(needle@.subrange(0, j + 1).last() == needle@[j as int]);
                }
            } else {
                if !same {
                    proof {
                        assert(h@.subrange(i as int, i + j + 1).drop_last() == h@.subrange(
                            i as int,
                            i + j,
                        ));
                    }
                }
            }
            j = j + 1;
        }
        if same {
            proof {
                assert(needle@.subrange(0, m as int) =~= needle@);
            }
            return Some(i);
        }
        proof {
            assert(needle@.subrange(0, m as int) =~= needle@);
        }
        i = i + 1;
    }
    None
}

/// Whether a character is a decimal digit (code points 48 through 57).
pub open spec fn is_dec_digit(c: char) -> bool {
    48 <= (c as u32) && (c as u32) <= 57
}

pub open spec fn digit_val(c: char) -> int {
    (c as u32) - 48
}

/// The value of a sequence of decimal digits, most significant first.
pub open spec fn dec_value(s: Seq<char>) -> int
    decreases s.len(),
{
    if s.len() == 0 {
        0
    } else {
        dec_value(s.drop_last()) * 10 + digit_val(s.last())
    }
}

pub proof fn lemma_dec_value_nonneg(s: Seq<char>)
    requires
        forall|i: int| 0 <= i < s.len() ==> is_dec_digit(#[trigger] s[i]),
    ensures
        dec_value(s) >= 0,
    decreases s.len(),
{
    if s.len() > 0 {
        lemma_dec_value_nonneg(s.drop_last());
    }
}

/// Appending digits never decreases the value.
pub proof fn lemma_dec_value_prefix(s: Seq<char>, i: int)
    requires
        0 <= i <= s.len(),
        forall|k: int| 0 <= k < s.len() ==> is_dec_digit(#[trigger] s[k]),
    ensures
        dec_value(s.take(i)) <= dec_value(s),
    decreases s.len() - i,
{
    if i < s.len() {
        let t = s.take(i + 1);
        lemma_dec_value_nonneg(s.take(i));
        assert(t.drop_last() =~= s.take(i));
        lemma_dec_value_prefix(s, i + 1);
    } else {
        assert(s.take(i) =~= s);
    }
}

pub open spec fn all_dec_digits(s: Seq<char>) -> bool {
    forall|i: int| 0 <= i < s.len() ==> is_dec_digit(#[trigger] s[i])
}

/// The value of a nonempty, all-digit sequence, if it fits the type.
pub open spec fn parse_digits(s: Seq<char>) -> Option<u64> {
    if s.len() == 0 || !all_dec_digits(s) {
        None
    } else if dec_value(s) > u64::MAX {
        None
    } else {
        Some(dec_value(s) as u64)
    }
}

/// What `str::parse::<u64>` accepts: an optional leading `+`, then one or
/// more decimal digits, whose value fits the type.
pub open spec fn spec_parse_u64(s: Seq<char>) -> Option<u64> {
    if s.len() >= 1 && s[0] == '+' {
        parse_digits(s.skip(1))
    } else {
        parse_digits(s)
    }
}

/// Parses a decimal `u64`, accepting exactly what `str::parse::<u64>` does.
pub fn parse_u64(s: &Vec<char>) -> (r: Option<u64>)
    ensures
        r == spec_parse_u64(s@),
{
    let ghost digits: Seq<char> = if s@.len() >= 1 && s@[0] == '+' {
        s@.skip(1)
    } else {
        s@
    };
    let start: usize = if s.len() >= 1 && s[0] == '+' {
        1
    } else {
        0
    };
    proof {
        assert(s@.skip(0) =~= s@);
        if s@.len() >= 1 && s@[0] == '+' {
            assert(digits == s@.skip(1));
            assert(spec_parse_u64(s@) == parse_digits(s@.skip(1)));
        } else {
            assert(digits == s@);
            assert(spec_parse_u64(s@) == parse_digits(s@));
        }
        assert(spec_parse_u64(s@) == parse_digits(digits));
    }
    if s.len() == start {
        return None;
    }
    let mut acc: u64 = 0;
    let mut i: usize = start;
    while i < s.len()
        invariant
            start <= i <= s@.len(),
            digits == s@.skip(start as int),
            digits.len() == s@.len() - start,
            spec_parse_u64(s@) == parse_digits(digits),
            forall|k: int| start <= k < i ==> is_dec_digit(#[trigger] s@[k]),
            acc == dec_value(digits.take(i - start)),
        decreases s@.len() - i,
    {
        let c = s[i];
        let cv = c as u32;
        proof {
            assert(digits[i - start] == s@[i as int]);
        }
        if cv < 48 || cv > 57 {
            proof {
                assert(0 <= i - start < digits.len());
                assert(!is_dec_digit(digits[i - start]));
                assert(parse_digits(digits) is None);
            }
            return None;
        }
        let d = (cv - 48) as u64;
        proof {
            assert(digits.take(i + 1 - start).drop_last() =~= digits.take(i - start));
            assert(digits.take(i + 1 - start).last() == s@[i as int]);
            assert(digit_val(s@[i as int]) == d);
            assert(dec_value(digits.take(i + 1 - start)) == acc * 10 + d);
            let md = (u64::MAX - d) as int;
            assert(10 * (md / 10) + md % 10 == md);
        }
        if acc > (u64::MAX - d) / 10 {
            proof {
                assert(acc * 10 + d > u64::MAX);
                if all_dec_digits(digits) {
                    lemma_dec_value_prefix(digits, i + 1 - start);
                    assert(dec_value(digits) > u64::MAX);
                }
                assert(parse_digits(digits) is None);
            }
            return None;
        }
        proof {
            assert(acc * 10 + d <= u64::MAX);
        }
        acc = acc * 10 + d;
        i = i + 1;
    }
    proof {
        assert(digits.take(s@.len() - start) =~= digits);
        assert forall|k: int| 0 <= k < digits.len() implies is_dec_digit(#[trigger] digits[k]) by {
            assert(digits[k] == s@[k + start]);
        }
        assert(parse_digits(digits) == Some(acc));
    }
    Some(acc)
}

/// The decimal digit characters of a natural number, as `u64` formatting
/// prints them.
pub open spec fn dec_digit_char(d: int) -> char {
    if d == 0 {
        '0'
    } else if d == 1 {
        '1'
    } else if d == 2 {
        '2'
    } else if d == 3 {
        '3'
    } else if d == 4 {
        '4'
    } else if d == 5 {
        '5'
    } else if d == 6 {
        '6'
    } else if d == 7 {
        '7'
    } else if d == 8 {
        '8'
    } else {
        '9'
    }
}

pub open spec fn dec_chars_of(n: int) -> Seq<char>
    decreases n,
{
    if n <= 9 {
        seq![dec_digit_char(n)]
    } else {
        dec_chars_of(n / 10).push(dec_digit_char(n % 10))
    }
}

fn dec_digit_str(d: u64) -> (r: &'static str)
    requires
        d <= 9,
    ensures
        r@ =~= seq![dec_digit_char(d as int)],
{
    proof {
        reveal_strlit("0");
        reveal_strlit("1");
        reveal_strlit("2");
        reveal_strlit("3");
        reveal_strlit("4");
        reveal_strlit("5");
        reveal_strlit("6");
        reveal_strlit("7");
        reveal_strlit("8");
        reveal_strlit("9");
    }
    if d == 0 {
        "0"
    } else if d == 1 {
        "1"
    } else if d == 2 {
        "2"
    } else if d == 3 {
        "3"
    } else if d == 4 {
        "4"
    } else if d == 5 {
        "5"
    } else if d == 6 {
        "6"
    } else if d == 7 {
        "7"
    } else if d == 8 {
        "8"
    } else {
        "9"
    }
}

/// Printing a number yields plain digits (no sign), and parsing them gives
/// the number back.
pub proof fn lemma_dec_chars_value(n: int)
    requires
        n >= 0,
    ensures
        dec_value(dec_chars_of(n)) == n,
        dec_chars_of(n).len() >= 1,
        all_dec_digits(dec_chars_of(n)),
    decreases n,
{
    assert forall|d: int| 0 <= d <= 9 implies is_dec_digit(dec_digit_char(d)) && digit_val(
        dec_digit_char(d),
    ) == d by {
        assert('0' as u32 == 48 && '1' as u32 == 49 && '2' as u32 == 50 && '3' as u32 == 51
            && '4' as u32 == 52 && '5' as u32 == 53 && '6' as u32 == 54 && '7' as u32 == 55
            && '8' as u32 == 56 && '9' as u32 == 57);
    }
    if n <= 9 {
        let s = dec_chars_of(n);
        assert(s == seq![dec_digit_char(n)]);
        assert(s.drop_last() =~= Seq::<char>::empty());
        assert(s.last() == dec_digit_char(n));
        assert(dec_value(s) == dec_value(Seq::<char>::empty()) * 10 + digit_val(s.last()));
        assert(dec_value(Seq::<char>::empty()) == 0);
        assert(dec_value(s) == n);
    } else {
        lemma_dec_chars_value(n / 10);
        vstd::arithmetic::div_mod::lemma_fundamental_div_mod(n, 10);
        let s = dec_chars_of(n);
        assert(s == dec_chars_of(n / 10).push(dec_digit_char(n % 10)));
        assert(s.drop_last() =~= dec_chars_of(n / 10));
        assert(dec_value(s) == dec_value(dec_chars_of(n / 10)) * 10 + digit_val(s.last()));
        assert forall|i: int| 0 <= i < s.len() implies is_dec_digit(#[trigger] s[i]) by {
            if i < s.len() - 1 {
                assert(s[i] == dec_chars_of(n / 10)[i]);
            }
        }
    }
}

/// Parsing the printed form of a number gives the number back.
pub proof fn lemma_parse_of_dec_chars(n: u64)
    ensures
        spec_parse_u64(dec_chars_of(n as int)) == Some(n),
{
    lemma_dec_chars_value(n as int);
    let s = dec_chars_of(n as int);
    assert(is_dec_digit(s[0]));
    assert('+' as u32 == 43);
    assert(s[0] != '+');
    assert(parse_digits(s) == Some(n));
}

/// Appends the decimal representation of `n` to `out`.
pub fn append_u64(out: &mut String, n: u64)
    ensures
        final(out)@ == old(out)@ + dec_chars_of(n as int),
    decreases n,
{
    if n <= 9 {
        out.append(dec_digit_str(n));
    } else {
        append_u64(out, n / 10);
        out.append(dec_digit_str(n % 10));
    }
}

/// The decimal representation of `n`, as a string.
pub fn u64_to_string(n: u64) -> (r: String)
    ensures
        r@ == dec_chars_of(n as int),
{
    let mut s = String::new();
    append_u64(&mut s, n);
    proof {
        assert(Seq::<char>::empty() + dec_chars_of(n as int) =~= dec_chars_of(n as int));
    }
    s
}

} // verus!
