//! Parsers for the three dataset files, working line by line.
//!
//! Lines come in as strings; each parser trims a line, splits it on the
//! `::` field separator, and reads the typed fields. The grammar is stated
//! by spec functions over character sequences, and every parser is proved
//! to accept and produce exactly what the grammar says.

use vstd::prelude::*;
use vstd::string::StrSliceExecFns;
use crate::types::{User, Movie, Rating, Gender, AgeGroup, Occupation, Genre};
use crate::errors::DataLoadError;
use crate::strutil::{spec_decimal, spec_digit_char};

verus! {

/// The whitespace characters trimmed from line ends.
pub open spec fn spec_is_space(c: char) -> bool {
    c == ' ' || c == '\t' || c == '\r' || c == '\n'
}

fn is_space(c: char) -> (r: bool)
    ensures
        r == spec_is_space(c),
{
    c == ' ' || c == '\t' || c == '\r' || c == '\n'
}

/// A string's characters, as a vector.
pub fn chars_of(s: &str) -> (r: Vec<char>)
    ensures
        r@ == s@,
{
    let n = s.unicode_len();
    let mut out: Vec<char> = Vec::new();
    let mut i: usize = 0;
    while i < n
        invariant
            i <= n,
            n == s@.len(),
            out@ == s@.take(i as int),
        decreases n - i,
    {
        out.push(s.get_char(i));
        proof {
            assert(out@ =~= s@.take(i + 1 as int));
        }
        i = i + 1;
    }
    proof {
        assert(s@.take(n as int) =~= s@);
    }
    out
}

/// Whether two character vectors hold the same characters.
pub fn chars_eq(a: &Vec<char>, b: &Vec<char>) -> (r: bool)
    ensures
        r == (a@ == b@),
{
    if a.len() != b.len() {
        proof {
            assert(a@ != b@);
        }
        return false;
    }
    let mut i: usize = 0;
    while i < a.len()
        invariant
            i <= a@.len(),
            a@.len() == b@.len(),
            forall|j: int| 0 <= j < i ==> a@[j] == b@[j],
        decreases a@.len() - i,
    {
        if a[i] != b[i] {
            return false;
        }
        i = i + 1;
    }
    proof {
        assert(a@ =~= b@);
    }
    true
}

/// A sequence with leading whitespace removed.
pub open spec fn spec_trim_front(s: Seq<char>) -> Seq<char>
    decreases s.len(),
{
    if s.len() > 0 && spec_is_space(s[0]) {
        spec_trim_front(s.skip(1))
    } else {
        s
    }
}

/// A sequence with trailing whitespace removed.
pub open spec fn spec_trim_back(s: Seq<char>) -> Seq<char>
    decreases s.len(),
{
    if s.len() > 0 && spec_is_space(s.last()) {
        spec_trim_back(s.drop_last())
    } else {
        s
    }
}

/// A sequence with whitespace removed from both ends.
pub open spec fn spec_trim(s: Seq<char>) -> Seq<char> {
    spec_trim_back(spec_trim_front(s))
}

proof fn lemma_trim_front_skip(s: Seq<char>, i: int)
    requires
        0 <= i <= s.len(),
        forall|j: int| 0 <= j < i ==> spec_is_space(#[trigger] s[j]),
        i == s.len() || !spec_is_space(s[i]),
    ensures
        spec_trim_front(s) == s.skip(i),
    decreases i,
{
    if i == 0 {
        assert(s.skip(0) =~= s);
    } else {
        assert(spec_is_space(s[0]));
        lemma_trim_front_skip(s.skip(1), i - 1);
        assert(s.skip(1).skip(i - 1) =~= s.skip(i));
    }
}

proof fn lemma_trim_back_take(s: Seq<char>, i: int)
    requires
        0 <= i <= s.len(),
        forall|j: int| i <= j < s.len() ==> spec_is_space(#[trigger] s[j]),
        i == 0 || !spec_is_space(s[i - 1]),
    ensures
        spec_trim_back(s) == s.take(i),
    decreases s.len() - i,
{
    if i == s.len() {
        if s.len() > 0 && spec_is_space(s.last()) {
            assert(false);
        }
        assert(s.take(i) =~= s);
    } else {
        assert(spec_is_space(s.last()));
        lemma_trim_back_take(s.drop_last(), i);
        assert(s.drop_last().take(i) =~= s.take(i));
    }
}

/// Removes whitespace from both ends of a character vector.
pub fn trim_chars(s: &Vec<char>) -> (r: Vec<char>)
    ensures
        r@ == spec_trim(s@),
{
    let mut lo: usize = 0;
    while lo < s.len() && is_space(s[lo])
        invariant
            lo <= s@.len(),
            forall|j: int| 0 <= j < lo ==> spec_is_space(#[trigger] s@[j]),
        decreases s@.len() - lo,
    {
        lo = lo + 1;
    }
    let mut hi: usize = s.len();
    while hi > lo && is_space(s[hi - 1])
        invariant
            lo <= hi <= s@.len(),
            forall|j: int| 0 <= j < lo ==> spec_is_space(#[trigger] s@[j]),
            forall|j: int| hi <= j < s@.len() ==> spec_is_space(#[trigger] s@[j]),
        decreases hi,
    {
        hi = hi - 1;
    }
    let mut out: Vec<char> = Vec::new();
    let mut i: usize = lo;
    while i < hi
        invariant
            lo <= i <= hi <= s@.len(),
            out@ == s@.subrange(lo as int, i as int),
        decreases hi - i,
    {
        out.push(s[i]);
        proof {
            assert(out@ =~= s@.subrange(lo as int, i + 1 as int));
        }
        i = i + 1;
    }
    proof {
        lemma_trim_front_skip(s@, lo as int);
        let f = s@.skip(lo as int);
        if hi == lo {
            lemma_trim_back_take(f, 0);
        } else {
            assert(!spec_is_space(f[hi - lo - 1]));
            lemma_trim_back_take(f, hi - lo as int);
        }
        assert(f.take(hi - lo as int) =~= s@.subrange(lo as int, hi as int));
    }
    out
}

/// The position of the first occurrence of `sep` in `s`.
pub open spec fn spec_find(s: Seq<char>, sep: Seq<char>) -> Option<int>
    decreases s.len(),
{
    if sep.len() == 0 {
        Some(0int)
    } else if s.len() < sep.len() {
        None
    } else if s.take(sep.len() as int) == sep {
        Some(0int)
    } else {
        match spec_find(s.skip(1), sep) {
            None => None,
            Some(i) => Some(i + 1),
        }
    }
}

/// What `spec_find` returns: the first position where `sep` occurs, or
/// nothing when it occurs nowhere.
proof fn lemma_find_spec(s: Seq<char>, sep: Seq<char>)
    ensures
        match spec_find(s, sep) {
            Some(i) => {
                &&& 0 <= i
                &&& i + sep.len() <= s.len()
                &&& s.subrange(i, i + sep.len()) == sep
                &&& forall|j: int|
                    0 <= j < i ==> #[trigger] s.subrange(j, j + sep.len()) != sep
            },
            None => forall|j: int|
                0 <= j && j + sep.len() <= s.len() ==> #[trigger] s.subrange(j, j + sep.len())
                    != sep,
        },
    decreases s.len(),
{
    if sep.len() == 0 {
        assert(s.subrange(0, 0) =~= sep);
    } else if s.len() < sep.len() {
    } else if s.take(sep.len() as int) == sep {
        assert(s.subrange(0, sep.len() as int) =~= s.take(sep.len() as int));
    } else {
        lemma_find_spec(s.skip(1), sep);
        assert(s.subrange(0, sep.len() as int) =~= s.take(sep.len() as int));
        assert forall|j: int| 1 <= j && j + sep.len() <= s.len() implies #[trigger] s.subrange(
            j,
            j + sep.len(),
        ) == s.skip(1).subrange(j - 1, j - 1 + sep.len()) by {
            assert(s.subrange(j, j + sep.len()) =~= s.skip(1).subrange(j - 1, j - 1 + sep.len()));
        }
    }
}

/// `spec_find` returns exactly the position known to be the first
/// occurrence.
proof fn lemma_find_exact(s: Seq<char>, sep: Seq<char>, i: int)
    requires
        0 <= i,
        i + sep.len() <= s.len(),
        s.subrange(i, i + sep.len()) == sep,
        forall|j: int| 0 <= j < i ==> #[trigger] s.subrange(j, j + sep.len()) != sep,
    ensures
        spec_find(s, sep) == Some(i),
{
    lemma_find_spec(s, sep);
    match spec_find(s, sep) {
        Some(k) => {
            if k < i {
                assert(s.subrange(k, k + sep.len()) != sep);
            } else if k > i {
                assert(s.subrange(i, i + sep.len()) != sep);
            }
        },
        None => {
            assert(s.subrange(i, i + sep.len()) != sep);
        },
    }
}

/// The fields of `s`, split on a non-empty separator that is dropped.
pub open spec fn spec_split(s: Seq<char>, sep: Seq<char>) -> Seq<Seq<char>>
    decreases s.len(),
    via spec_split_dec
{
    if sep.len() == 0 {
        seq![s]
    } else {
        match spec_find(s, sep) {
            None => seq![s],
            Some(i) => seq![s.take(i)] + spec_split(s.skip(i + sep.len()), sep),
        }
    }
}

#[via_fn]
proof fn spec_split_dec(s: Seq<char>, sep: Seq<char>) {
    if sep.len() > 0 {
        lemma_find_spec(s, sep);
    }
}

/// Finds the first occurrence of `sep` in `s` at or after `from`.
fn find_from(s: &Vec<char>, sep: &Vec<char>, from: usize) -> (r: Option<usize>)
    requires
        sep@.len() > 0,
        from <= s@.len(),
    ensures
        match r {
            Some(p) => from <= p && spec_find(s@.skip(from as int), sep@) == Some(
                p - from as int,
            ) && p + sep@.len() <= s@.len(),
            None => spec_find(s@.skip(from as int), sep@) is None,
        },
{
    let ghost tail = s@.skip(from as int);
    if s.len() < sep.len() {
        proof {
            lemma_find_spec(tail, sep@);
            match spec_find(tail, sep@) {
                Some(i) => {
                    assert(tail.subrange(i, i + sep@.len()) == sep@);
                },
                None => {},
            }
        }
        return None;
    }
    let bound: usize = s.len() - sep.len();
    let mut j: usize = from;
    while j <= bound
        invariant
            from <= j,
            from <= s@.len(),
            sep@.len() > 0,
            s@.len() <= usize::MAX,
            bound == s@.len() - sep@.len(),
            j <= s@.len() + 1,
            tail == s@.skip(from as int),
            forall|q: int|
                0 <= q < j - from ==> #[trigger] tail.subrange(q, q + sep@.len()) != sep@,
        decreases s@.len() + 1 - j,
    {
        let mut k: usize = 0;
        let mut matches = true;
        proof {
            assert(s@.subrange(j as int, j as int) =~= sep@.take(0));
        }
        while k < sep.len()
            invariant
                k <= sep@.len(),
                s@.len() <= usize::MAX,
                j + sep@.len() <= s@.len(),
                matches == (s@.subrange(j as int, j + k as int) == sep@.take(k as int)),
            decreases sep@.len() - k,
        {
            let ghost before = matches;
            if s[j + k] != sep[k] {
                matches = false;
            }
            proof {
                let a = s@.subrange(j as int, j + k + 1 as int);
                let b = sep@.take(k + 1 as int);
                if before && s@[j + k] == sep@[k as int] {
                    assert(a =~= s@.subrange(j as int, j + k as int).push(s@[j + k]));
                    assert(b =~= sep@.take(k as int).push(sep@[k as int]));
                    assert(matches == (a == b));
                } else {
                    if a == b {
                        assert(a[k as int] == b[k as int]);
                        assert(s@.subrange(j as int, j + k as int) =~= a.take(k as int));
                        assert(sep@.take(k as int) =~= b.take(k as int));
                    }
                    assert(matches == (a == b));
                }
            }
            k = k + 1;
        }
        proof {
            assert(sep@.take(sep@.len() as int) =~= sep@);
        }
        if matches {
            proof {
                assert(tail.subrange(j - from as int, j - from + sep@.len()) =~= s@.subrange(
                    j as int,
                    j + sep@.len(),
                ));
                lemma_find_exact(tail, sep@, j - from as int);
            }
            return Some(j);
        }
        proof {
            assert(tail.subrange(j - from as int, j - from + sep@.len()) =~= s@.subrange(
                j as int,
                j + sep@.len(),
            ));
        }
        j = j + 1;
    }
    proof {
        lemma_find_spec(tail, sep@);
        match spec_find(tail, sep@) {
            Some(i) => {
                assert(tail.subrange(i, i + sep@.len()) == sep@);
                assert(tail.subrange(i, i + sep@.len()) =~= s@.subrange(
                    from + i,
                    from + i + sep@.len(),
                ));
                assert(s@.subrange(from + i, from + i + sep@.len()) != sep@);
                assert(false);
            },
            None => {},
        }
    }
    None
}

/// Copies a range of a character vector.
fn copy_range(s: &Vec<char>, a: usize, b: usize) -> (r: Vec<char>)
    requires
        a <= b <= s@.len(),
    ensures
        r@ == s@.subrange(a as int, b as int),
{
    let mut out: Vec<char> = Vec::new();
    let mut i: usize = a;
    while i < b
        invariant
            a <= i <= b <= s@.len(),
            out@ == s@.subrange(a as int, i as int),
        decreases b - i,
    {
        out.push(s[i]);
        proof {
            assert(out@ =~= s@.subrange(a as int, i + 1 as int));
        }
        i = i + 1;
    }
    out
}

/// The views of a vector of character vectors.
pub open spec fn views_of(parts: Seq<Vec<char>>) -> Seq<Seq<char>> {
    parts.map_values(|v: Vec<char>| v@)
}

/// Splits a character vector on a non-empty separator.
pub fn split_chars(s: &Vec<char>, sep: &Vec<char>) -> (parts: Vec<Vec<char>>)
    requires
        sep@.len() > 0,
    ensures
        views_of(parts@) == spec_split(s@, sep@),
{
    let mut parts: Vec<Vec<char>> = Vec::new();
    let mut pos: usize = 0;
    proof {
        assert(views_of(parts@) =~= Seq::<Seq<char>>::empty());
        assert(s@.skip(0) =~= s@);
        assert(Seq::<Seq<char>>::empty() + spec_split(s@, sep@) =~= spec_split(s@, sep@));
    }
    while pos <= s.len()
        invariant_except_break
            pos <= s@.len() + 1,
            sep@.len() > 0,
            spec_split(s@, sep@) == views_of(parts@) + spec_split(s@.skip(pos as int), sep@),
            pos <= s@.len(),
        ensures
            views_of(parts@) == spec_split(s@, sep@),
        decreases s@.len() + 1 - pos,
    {
        match find_from(s, sep, pos) {
            Some(p) => {
                let field = copy_range(s, pos, p);
                parts.push(field);
                proof {
                    let tail = s@.skip(pos as int);
                    let i = p - pos as int;
                    assert(spec_split(tail, sep@) == seq![tail.take(i)] + spec_split(
                        tail.skip(i + sep@.len()),
                        sep@,
                    ));
                    assert(tail.take(i) =~= s@.subrange(pos as int, p as int));
                    assert(tail.skip(i + sep@.len()) =~= s@.skip(p + sep@.len()));
                    assert(views_of(parts@) =~= views_of(parts@.drop_last()).push(
                        s@.subrange(pos as int, p as int),
                    ));
                    assert(views_of(parts@) + spec_split(s@.skip(p + sep@.len()), sep@)
                        =~= views_of(parts@.drop_last()) + spec_split(tail, sep@));
                }
                pos = p + sep.len();
            },
            None => {
                let field = copy_range(s, pos, s.len());
                parts.push(field);
                proof {
                    let tail = s@.skip(pos as int);
                    assert(spec_split(tail, sep@) == seq![tail]);
                    assert(tail =~= s@.subrange(pos as int, s@.len() as int));
                    assert(views_of(parts@) =~= views_of(parts@.drop_last()).push(tail));
                    assert(views_of(parts@) =~= views_of(parts@.drop_last()) + spec_split(
                        tail,
                        sep@,
                    ));
                }
                break;
            },
        }
    }
    parts
}

/// A decimal digit.
pub open spec fn spec_is_digit(c: char) -> bool {
    c == '0' || c == '1' || c == '2' || c == '3' || c == '4' || c == '5' || c == '6' || c == '7'
        || c == '8' || c == '9'
}

/// The value of a decimal digit.
pub open spec fn spec_digit(c: char) -> int {
    if c == '0' {
        0
    } else if c == '1' {
        1
    } else if c == '2' {
        2
    } else if c == '3' {
        3
    } else if c == '4' {
        4
    } else if c == '5' {
        5
    } else if c == '6' {
        6
    } else if c == '7' {
        7
    } else if c == '8' {
        8
    } else {
        9
    }
}

fn is_digit(c: char) -> (r: bool)
    ensures
        r == spec_is_digit(c),
{
    c == '0' || c == '1' || c == '2' || c == '3' || c == '4' || c == '5' || c == '6' || c == '7'
        || c == '8' || c == '9'
}

fn digit_val(c: char) -> (d: u64)
    requires
        spec_is_digit(c),
    ensures
        d == spec_digit(c),
        d <= 9,
{
    if c == '0' {
        0
    } else if c == '1' {
        1
    } else if c == '2' {
        2
    } else if c == '3' {
        3
    } else if c == '4' {
        4
    } else if c == '5' {
        5
    } else if c == '6' {
        6
    } else if c == '7' {
        7
    } else if c == '8' {
        8
    } else {
        9
    }
}

/// The number a non-empty run of decimal digits denotes, most significant
/// digit first; nothing if the sequence is empty or holds a non-digit.
pub open spec fn spec_parse_nat(s: Seq<char>) -> Option<int>
    decreases s.len(),
{
    if s.len() == 0 {
        None
    } else if !spec_is_digit(s.last()) {
        None
    } else if s.len() == 1 {
        Some(spec_digit(s[0]))
    } else {
        match spec_parse_nat(s.drop_last()) {
            None => None,
            Some(v) => Some(v * 10 + spec_digit(s.last())),
        }
    }
}

/// A run of digits denotes a number exactly when it is non-empty and all
/// digits, and the number is never negative.
proof fn lemma_parse_nat_digits(s: Seq<char>)
    ensures
        spec_parse_nat(s) is Some <==> (s.len() > 0 && forall|j: int|
            0 <= j < s.len() ==> spec_is_digit(#[trigger] s[j])),
        spec_parse_nat(s) is Some ==> spec_parse_nat(s).unwrap() >= 0,
    decreases s.len(),
{
    if s.len() > 0 {
        lemma_parse_nat_digits(s.drop_last());
        if s.len() > 1 && spec_is_digit(s.last()) && spec_parse_nat(s.drop_last()) is Some {
            assert(forall|j: int|
                0 <= j < s.len() - 1 ==> #[trigger] s[j] == s.drop_last()[j]);
        }
        if s.len() > 0 && forall|j: int| 0 <= j < s.len() ==> spec_is_digit(#[trigger] s[j]) {
            assert(forall|j: int|
                0 <= j < s.drop_last().len() ==> spec_is_digit(#[trigger] s.drop_last()[j]));
        }
    }
}

/// Dropping trailing digits cannot increase the denoted number.
proof fn lemma_parse_nat_prefix(s: Seq<char>, k: int)
    requires
        1 <= k <= s.len(),
        spec_parse_nat(s) is Some,
    ensures
        spec_parse_nat(s.take(k)) is Some,
        spec_parse_nat(s.take(k)).unwrap() <= spec_parse_nat(s).unwrap(),
    decreases s.len(),
{
    lemma_parse_nat_digits(s);
    if k == s.len() {
        assert(s.take(k) =~= s);
    } else {
        assert(s.drop_last().len() > 0);
        lemma_parse_nat_digits(s.drop_last());
        assert(forall|j: int| 0 <= j < s.len() - 1 ==> #[trigger] s.drop_last()[j] == s[j]);
        lemma_parse_nat_prefix(s.drop_last(), k);
        assert(s.drop_last().take(k) =~= s.take(k));
    }
}

/// Reads a non-empty digit run as a number no greater than `max`; refuses
/// empty input, non-digits, and numbers above `max`.
pub fn parse_nat_chars(s: &Vec<char>, max: u64) -> (r: Option<u64>)
    ensures
        match r {
            Some(v) => spec_parse_nat(s@) == Some(v as int) && v <= max,
            None => spec_parse_nat(s@) is None || spec_parse_nat(s@).unwrap() > max,
        },
{
    if s.len() == 0 {
        return None;
    }
    let mut acc: u64 = 0;
    let mut i: usize = 0;
    while i < s.len()
        invariant
            0 <= i <= s@.len(),
            s@.len() > 0,
            i > 0 ==> spec_parse_nat(s@.take(i as int)) == Some(acc as int),
            i == 0 ==> acc == 0,
            acc <= max,
        decreases s@.len() - i,
    {
        let c = s[i];
        if !is_digit(c) {
            proof {
                lemma_parse_nat_digits(s@);
            }
            return None;
        }
        let d = digit_val(c);
        let next: u128 = (acc as u128) * 10 + (d as u128);
        proof {
            assert(s@.take(i + 1 as int).drop_last() =~= s@.take(i as int));
            assert(s@.take(i + 1 as int).last() == s@[i as int]);
        }
        if next > max as u128 {
            proof {
                assert(spec_parse_nat(s@.take(i + 1 as int)) is Some);
                assert(spec_parse_nat(s@.take(i + 1 as int)).unwrap() > max);
                if spec_parse_nat(s@) is Some {
                    lemma_parse_nat_prefix(s@, i + 1 as int);
                }
            }
            return None;
        }
        acc = next as u64;
        i = i + 1;
    }
    proof {
        assert(s@.take(s@.len() as int) =~= s@);
    }
    Some(acc)
}

/// Whether every character is a digit and there is at least one.
fn all_digits(s: &Vec<char>) -> (r: bool)
    ensures
        r == (spec_parse_nat(s@) is Some),
{
    proof {
        lemma_parse_nat_digits(s@);
    }
    if s.len() == 0 {
        return false;
    }
    let mut i: usize = 0;
    while i < s.len()
        invariant
            i <= s@.len(),
            forall|j: int| 0 <= j < i ==> spec_is_digit(#[trigger] s@[j]),
        decreases s@.len() - i,
    {
        if !is_digit(s[i]) {
            proof {
                lemma_parse_nat_digits(s@);
                assert(!spec_is_digit(s@[i as int]));
            }
            return false;
        }
        i = i + 1;
    }
    true
}

/// The number a digit run denotes, when it fits a `u32`.
pub open spec fn spec_parse_u32(s: Seq<char>) -> Option<u32> {
    match spec_parse_nat(s) {
        Some(v) => if v <= u32::MAX {
            Some(v as u32)
        } else {
            None
        },
        None => None,
    }
}

/// Reads a `u32` from a digit run.
pub fn parse_u32_chars(s: &Vec<char>) -> (r: Option<u32>)
    ensures
        r == spec_parse_u32(s@),
{
    proof {
        lemma_parse_nat_digits(s@);
    }
    match parse_nat_chars(s, 0xffffffffu64) {
        Some(v) => Some(v as u32),
        None => None,
    }
}

/// A rating value read to tenths: either a whole number of stars, or a
/// whole part and a fractional part separated by one point, of which the
/// first fractional digit is kept. Nothing if a part is empty or holds a
/// non-digit, or the result leaves `u32`.
pub open spec fn spec_parse_tenths(s: Seq<char>) -> Option<u32> {
    match spec_find(s, seq!['.']) {
        None => match spec_parse_nat(s) {
            Some(v) => if v * 10 <= u32::MAX {
                Some((v * 10) as u32)
            } else {
                None
            },
            None => None,
        },
        Some(i) => {
            let ip = s.take(i);
            let fp = s.skip(i + 1);
            if spec_parse_nat(ip) is Some && spec_parse_nat(fp) is Some {
                let v = spec_parse_nat(ip).unwrap() * 10 + spec_digit(fp[0]);
                if v <= u32::MAX {
                    Some(v as u32)
                } else {
                    None
                }
            } else {
                None
            }
        },
    }
}

/// Reads a rating value in tenths of a star.
pub fn parse_tenths_chars(s: &Vec<char>) -> (r: Option<u32>)
    ensures
        r == spec_parse_tenths(s@),
{
    let mut dot: Vec<char> = Vec::new();
    dot.push('.');
    proof {
        assert(dot@ =~= seq!['.']);
    }
    match find_from(s, &dot, 0) {
        None => {
            proof {
                assert(s@.skip(0) =~= s@);
                lemma_parse_nat_digits(s@);
            }
            match parse_nat_chars(s, 429496729u64) {
                Some(v) => Some((v * 10) as u32),
                None => {
                    proof {
                        if spec_parse_nat(s@) is Some {
                            assert(spec_parse_nat(s@).unwrap() > 429496729);
                            assert(spec_parse_nat(s@).unwrap() * 10 > u32::MAX) by (nonlinear_arith)
                                requires
                                    spec_parse_nat(s@).unwrap() > 429496729,
                            ;
                        }
                    }
                    None
                },
            }
        },
        Some(p) => {
            let ghost i = p as int;
            proof {
                lemma_find_spec(s@, seq!['.']);
                assert(spec_find(s@.skip(0), seq!['.']) == spec_find(s@, seq!['.'])) by {
                    assert(s@.skip(0) =~= s@);
                }
            }
            let n = s.len();
            proof {
                assert(p + 1 <= n);
            }
            let ip = copy_range(s, 0, p);
            let fp = copy_range(s, p + 1, n);
            proof {
                assert(ip@ =~= s@.take(i));
                assert(fp@ =~= s@.skip(i + 1));
                lemma_parse_nat_digits(ip@);
                lemma_parse_nat_digits(fp@);
            }
            if !all_digits(&fp) {
                return None;
            }
            let d = digit_val(fp[0]);
            match parse_nat_chars(&ip, 0xffffffffu64) {
                Some(v) => {
                    let total: u64 = v * 10 + d;
                    if total <= 0xffffffffu64 {
                        Some(total as u32)
                    } else {
                        None
                    }
                },
                None => {
                    proof {
                        if spec_parse_nat(ip@) is Some {
                            assert(spec_parse_nat(ip@).unwrap() > u32::MAX);
                            assert(spec_parse_nat(ip@).unwrap() * 10 + spec_digit(fp@[0])
                                > u32::MAX) by (nonlinear_arith)
                                requires
                                    spec_parse_nat(ip@).unwrap() > u32::MAX,
                                    spec_digit(fp@[0]) >= 0,
                            ;
                        }
                    }
                    None
                },
            }
        },
    }
}

/// A timestamp: an optional minus sign, then digits, within `i64` except
/// its most negative value.
pub open spec fn spec_parse_i64(s: Seq<char>) -> Option<i64> {
    if s.len() > 0 && s[0] == '-' {
        match spec_parse_nat(s.skip(1)) {
            Some(v) => if v <= i64::MAX {
                Some((-v) as i64)
            } else {
                None
            },
            None => None,
        }
    } else {
        match spec_parse_nat(s) {
            Some(v) => if v <= i64::MAX {
                Some(v as i64)
            } else {
                None
            },
            None => None,
        }
    }
}

/// Reads a timestamp.
pub fn parse_i64_chars(s: &Vec<char>) -> (r: Option<i64>)
    ensures
        r == spec_parse_i64(s@),
{
    if s.len() > 0 && s[0] == '-' {
        let rest = copy_range(s, 1, s.len());
        proof {
            assert(rest@ =~= s@.skip(1));
        }
        match parse_nat_chars(&rest, 0x7fffffffffffffffu64) {
            Some(v) => Some(0i64 - (v as i64)),
            None => None,
        }
    } else {
        match parse_nat_chars(s, 0x7fffffffffffffffu64) {
            Some(v) => Some(v as i64),
            None => None,
        }
    }
}

/// The gender code of the dataset: `M` or `F`.
pub open spec fn spec_gender_of(s: Seq<char>) -> Option<Gender> {
    if s == seq!['M'] {
        Some(Gender::Male)
    } else if s == seq!['F'] {
        Some(Gender::Female)
    } else {
        None
    }
}

/// Reads a gender code.
pub fn parse_gender(s: &str) -> (r: Result<Gender, DataLoadError>)
    ensures
        match r {
            Ok(g) => spec_gender_of(s@) == Some(g),
            Err(_) => spec_gender_of(s@) is None,
        },
        r matches Err(e) ==> (e matches DataLoadError::InvalidValue { field, value }
            && field@ == "gender"@ && value@ == s@),
{
    let cs = chars_of(s);
    let g = gender_of_chars(&cs);
    match g {
        Some(g) => Ok(g),
        None => Err(
            DataLoadError::InvalidValue { field: "gender".to_owned(), value: s.to_owned() },
        ),
    }
}

fn gender_of_chars(cs: &Vec<char>) -> (r: Option<Gender>)
    ensures
        r == spec_gender_of(cs@),
{
    if cs.len() == 1 && cs[0] == 'M' {
        proof {
            assert(cs@ =~= seq!['M']);
        }
        Some(Gender::Male)
    } else if cs.len() == 1 && cs[0] == 'F' {
        proof {
            assert(cs@ =~= seq!['F']);
        }
        Some(Gender::Female)
    } else {
        proof {
            assert(cs@ != seq!['M']);
            assert(cs@ != seq!['F']);
        }
        None
    }
}

/// The age-bracket codes of the dataset, written as canonical decimals.
pub open spec fn spec_age_of(s: Seq<char>) -> Option<AgeGroup> {
    match spec_parse_u32(s) {
        Some(v) => if s == spec_decimal(v as int) {
            if v == 1 {
                Some(AgeGroup::Under18)
            } else if v == 18 {
                Some(AgeGroup::Age18To24)
            } else if v == 25 {
                Some(AgeGroup::Age25To34)
            } else if v == 35 {
                Some(AgeGroup::Age35To44)
            } else if v == 45 {
                Some(AgeGroup::Age45To49)
            } else if v == 50 {
                Some(AgeGroup::Age50To55)
            } else if v == 56 {
                Some(AgeGroup::Age56Plus)
            } else {
                None
            }
        } else {
            None
        },
        None => None,
    }
}

/// The occupation codes of the dataset: canonical decimals zero through
/// twenty, in the order the dataset documents.
pub open spec fn spec_occupation_of(s: Seq<char>) -> Option<Occupation> {
    match spec_parse_u32(s) {
        Some(v) => if s == spec_decimal(v as int) && v <= 20 {
            Some(spec_occupation_code(v as int))
        } else {
            None
        },
        None => None,
    }
}

/// The occupation a numeric code stands for.
pub open spec fn spec_occupation_code(v: int) -> Occupation {
    if v == 0 {
        Occupation::Other
    } else if v == 1 {
        Occupation::Academic
    } else if v == 2 {
        Occupation::Artist
    } else if v == 3 {
        Occupation::Clerical
    } else if v == 4 {
        Occupation::CollegeStudent
    } else if v == 5 {
        Occupation::CustomerService
    } else if v == 6 {
        Occupation::Doctor
    } else if v == 7 {
        Occupation::Executive
    } else if v == 8 {
        Occupation::Farmer
    } else if v == 9 {
        Occupation::Homemaker
    } else if v == 10 {
        Occupation::K12Student
    } else if v == 11 {
        Occupation::Lawyer
    } else if v == 12 {
        Occupation::Programmer
    } else if v == 13 {
        Occupation::Retired
    } else if v == 14 {
        Occupation::Sales
    } else if v == 15 {
        Occupation::Scientist
    } else if v == 16 {
        Occupation::SelfEmployed
    } else if v == 17 {
        Occupation::Technician
    } else if v == 18 {
        Occupation::Tradesman
    } else if v == 19 {
        Occupation::Unemployed
    } else {
        Occupation::Writer
    }
}

/// A run of digits is the canonical decimal of its value exactly when it
/// has no leading zero (or is the single digit zero).
proof fn lemma_canonical_decimal(s: Seq<char>)
    requires
        spec_parse_nat(s) is Some,
    ensures
        (s == spec_decimal(spec_parse_nat(s).unwrap())) <==> (s.len() == 1 || s[0] != '0'),
    decreases s.len(),
{
    lemma_parse_nat_digits(s);
    let v = spec_parse_nat(s).unwrap();
    if s.len() == 1 {
        assert(spec_decimal(v) =~= seq![spec_digit_char(v)]);
        assert(s =~= seq![s[0]]);
    } else {
        lemma_parse_nat_digits(s.drop_last());
        let v0 = spec_parse_nat(s.drop_last()).unwrap();
        lemma_canonical_decimal(s.drop_last());
        assert(v == v0 * 10 + spec_digit(s.last()));
        assert(0 <= spec_digit(s.last()) <= 9);
        if v0 == 0 {
            assert(s.drop_last()[0] == '0' || s.drop_last().len() == 1);
            assert(s[0] == s.drop_last()[0]);
            if s.drop_last().len() == 1 {
                assert(spec_digit(s[0]) == 0);
                assert(s[0] == '0');
            }
            assert(v <= 9);
            assert(spec_decimal(v) =~= seq![spec_digit_char(v)]);
            assert(s.len() >= 2);
            assert(s != spec_decimal(v));
        } else {
            assert(v >= 10) by (nonlinear_arith)
                requires
                    v == v0 * 10 + spec_digit(s.last()),
                    v0 >= 1,
                    spec_digit(s.last()) >= 0,
            ;
            assert(v / 10 == v0 && v % 10 == spec_digit(s.last())) by (nonlinear_arith)
                requires
                    v == v0 * 10 + spec_digit(s.last()),
                    0 <= spec_digit(s.last()) <= 9,
                    v0 >= 0,
            ;
            assert(spec_decimal(v) == spec_decimal(v0).push(spec_digit_char(v % 10)));
            assert(spec_digit_char(spec_digit(s.last())) == s.last());
            if s == spec_decimal(v) {
                assert(s.drop_last() =~= spec_decimal(v0));
                assert(s[0] != '0');
            } else {
                if s.len() == 1 || s[0] != '0' {
                    assert(s.drop_last().len() == 1 || s.drop_last()[0] != '0');
                    assert(s.drop_last() == spec_decimal(v0));
                    assert(s =~= spec_decimal(v0).push(s.last()));
                    assert(false);
                }
            }
        }
    }
}

/// Whether a digit run is the canonical decimal form of its value.
fn is_canonical_number(cs: &Vec<char>) -> (r: bool)
    requires
        spec_parse_nat(cs@) is Some,
    ensures
        r == (cs@ == spec_decimal(spec_parse_nat(cs@).unwrap())),
{
    proof {
        lemma_canonical_decimal(cs@);
        lemma_parse_nat_digits(cs@);
    }
    cs.len() == 1 || cs[0] != '0'
}

/// Reads an age-bracket code.
pub fn parse_age_group(s: &str) -> (r: Result<AgeGroup, DataLoadError>)
    ensures
        match r {
            Ok(a) => spec_age_of(s@) == Some(a),
            Err(_) => spec_age_of(s@) is None,
        },
        r matches Err(e) ==> (e matches DataLoadError::InvalidValue { field, value }
            && field@ == "age"@ && value@ == s@),
{
    let cs = chars_of(s);
    match age_of_chars(&cs) {
        Some(a) => Ok(a),
        None => Err(DataLoadError::InvalidValue { field: "age".to_owned(), value: s.to_owned() }),
    }
}

fn age_of_chars(cs: &Vec<char>) -> (r: Option<AgeGroup>)
    ensures
        r == spec_age_of(cs@),
{
    proof {
        lemma_parse_nat_digits(cs@);
    }
    match parse_u32_chars(cs) {
        Some(v) => {
            if !is_canonical_number(cs) {
                return None;
            }
            if v == 1 {
                Some(AgeGroup::Under18)
            } else if v == 18 {
                Some(AgeGroup::Age18To24)
            } else if v == 25 {
                Some(AgeGroup::Age25To34)
            } else if v == 35 {
                Some(AgeGroup::Age35To44)
            } else if v == 45 {
                Some(AgeGroup::Age45To49)
            } else if v == 50 {
                Some(AgeGroup::Age50To55)
            } else if v == 56 {
                Some(AgeGroup::Age56Plus)
            } else {
                None
            }
        },
        None => None,
    }
}

/// Reads an occupation code.
pub fn parse_occupation(s: &str) -> (r: Result<Occupation, DataLoadError>)
    ensures
        match r {
            Ok(o) => spec_occupation_of(s@) == Some(o),
            Err(_) => spec_occupation_of(s@) is None,
        },
        r matches Err(e) ==> (e matches DataLoadError::InvalidValue { field, value }
            && field@ == "occupation"@ && value@ == s@),
{
    let cs = chars_of(s);
    match occupation_of_chars(&cs) {
        Some(o) => Ok(o),
        None => Err(
            DataLoadError::InvalidValue { field: "occupation".to_owned(), value: s.to_owned() },
        ),
    }
}

fn occupation_of_chars(cs: &Vec<char>) -> (r: Option<Occupation>)
    ensures
        r == spec_occupation_of(cs@),
{
    proof {
        lemma_parse_nat_digits(cs@);
    }
    match parse_u32_chars(cs) {
        Some(v) => {
            if !is_canonical_number(cs) {
                return None;
            }
            if v > 20 {
                return None;
            }
            Some(occupation_code(v))
        },
        None => None,
    }
}

fn occupation_code(v: u32) -> (r: Occupation)
    requires
        v <= 20,
    ensures
        r == spec_occupation_code(v as int),
{
    match v {
        0 => Occupation::Other,
        1 => Occupation::Academic,
        2 => Occupation::Artist,
        3 => Occupation::Clerical,
        4 => Occupation::CollegeStudent,
        5 => Occupation::CustomerService,
        6 => Occupation::Doctor,
        7 => Occupation::Executive,
        8 => Occupation::Farmer,
        9 => Occupation::Homemaker,
        10 => Occupation::K12Student,
        11 => Occupation::Lawyer,
        12 => Occupation::Programmer,
        13 => Occupation::Retired,
        14 => Occupation::Sales,
        15 => Occupation::Scientist,
        16 => Occupation::SelfEmployed,
        17 => Occupation::Technician,
        18 => Occupation::Tradesman,
        19 => Occupation::Unemployed,
        _ => Occupation::Writer,
    }
}

/// The genre names of the dataset.
pub open spec fn spec_genre_of(s: Seq<char>) -> Option<Genre> {
    if s == "Action"@ {
        Some(Genre::Action)
    } else if s == "Adventure"@ {
        Some(Genre::Adventure)
    } else if s == "Animation"@ {
        Some(Genre::Animation)
    } else if s == "Children's"@ {
        Some(Genre::Children)
    } else if s == "Comedy"@ {
        Some(Genre::Comedy)
    } else if s == "Crime"@ {
        Some(Genre::Crime)
    } else if s == "Documentary"@ {
        Some(Genre::Documentary)
    } else if s == "Drama"@ {
        Some(Genre::Drama)
    } else if s == "Fantasy"@ {
        Some(Genre::Fantasy)
    } else if s == "Film-Noir"@ {
        Some(Genre::FilmNoir)
    } else if s == "Horror"@ {
        Some(Genre::Horror)
    } else if s == "Musical"@ {
        Some(Genre::Musical)
    } else if s == "Mystery"@ {
        Some(Genre::Mystery)
    } else if s == "Romance"@ {
        Some(Genre::Romance)
    } else if s == "Sci-Fi"@ {
        Some(Genre::SciFi)
    } else if s == "Thriller"@ {
        Some(Genre::Thriller)
    } else if s == "War"@ {
        Some(Genre::War)
    } else if s == "Western"@ {
        Some(Genre::Western)
    } else {
        None
    }
}

fn genre_of_chars(cs: &Vec<char>) -> (r: Option<Genre>)
    ensures
        r == spec_genre_of(cs@),
{
    if chars_eq(cs, &chars_of("Action")) {
        Some(Genre::Action)
    } else if chars_eq(cs, &chars_of("Adventure")) {
        Some(Genre::Adventure)
    } else if chars_eq(cs, &chars_of("Animation")) {
        Some(Genre::Animation)
    } else if chars_eq(cs, &chars_of("Children's")) {
        Some(Genre::Children)
    } else if chars_eq(cs, &chars_of("Comedy")) {
        Some(Genre::Comedy)
    } else if chars_eq(cs, &chars_of("Crime")) {
        Some(Genre::Crime)
    } else if chars_eq(cs, &chars_of("Documentary")) {
        Some(Genre::Documentary)
    } else if chars_eq(cs, &chars_of("Drama")) {
        Some(Genre::Drama)
    } else if chars_eq(cs, &chars_of("Fantasy")) {
        Some(Genre::Fantasy)
    } else if chars_eq(cs, &chars_of("Film-Noir")) {
        Some(Genre::FilmNoir)
    } else if chars_eq(cs, &chars_of("Horror")) {
        Some(Genre::Horror)
    } else if chars_eq(cs, &chars_of("Musical")) {
        Some(Genre::Musical)
    } else if chars_eq(cs, &chars_of("Mystery")) {
        Some(Genre::Mystery)
    } else if chars_eq(cs, &chars_of("Romance")) {
        Some(Genre::Romance)
    } else if chars_eq(cs, &chars_of("Sci-Fi")) {
        Some(Genre::SciFi)
    } else if chars_eq(cs, &chars_of("Thriller")) {
        Some(Genre::Thriller)
    } else if chars_eq(cs, &chars_of("War")) {
        Some(Genre::War)
    } else if chars_eq(cs, &chars_of("Western")) {
        Some(Genre::Western)
    } else {
        None
    }
}

/// Reads one genre name.
pub fn parse_genre(s: &str) -> (r: Result<Genre, DataLoadError>)
    ensures
        match r {
            Ok(g) => spec_genre_of(s@) == Some(g),
            Err(_) => spec_genre_of(s@) is None,
        },
        r matches Err(e) ==> (e matches DataLoadError::InvalidValue { field, value }
            && field@ == "genre"@ && value@ == s@),
{
    let cs = chars_of(s);
    match genre_of_chars(&cs) {
        Some(g) => Ok(g),
        None => Err(DataLoadError::InvalidValue { field: "genre".to_owned(), value: s.to_owned() }),
    }
}

/// The genre list a pipe-separated field denotes: every part must be a
/// genre name.
pub open spec fn spec_genres_of(s: Seq<char>) -> Option<Seq<Genre>> {
    let parts = spec_split(s, seq!['|']);
    if forall|i: int| 0 <= i < parts.len() ==> spec_genre_of(#[trigger] parts[i]) is Some {
        Some(Seq::new(parts.len(), |i: int| spec_genre_of(parts[i]).unwrap()))
    } else {
        None
    }
}

fn genres_of_chars(cs: &Vec<char>) -> (r: Option<Vec<Genre>>)
    ensures
        match r {
            Some(gs) => spec_genres_of(cs@) == Some(gs@),
            None => spec_genres_of(cs@) is None,
        },
{
    let mut pipe: Vec<char> = Vec::new();
    pipe.push('|');
    proof {
        assert(pipe@ =~= seq!['|']);
    }
    let parts = split_chars(cs, &pipe);
    let ghost pv = spec_split(cs@, seq!['|']);
    let mut out: Vec<Genre> = Vec::new();
    let mut i: usize = 0;
    while i < parts.len()
        invariant
            i <= parts@.len(),
            views_of(parts@) == pv,
            pv == spec_split(cs@, seq!['|']),
            out@.len() == i,
            forall|k: int|
                0 <= k < i ==> spec_genre_of(#[trigger] pv[k]) == Some(out@[k]),
        decreases parts@.len() - i,
    {
        proof {
            assert(views_of(parts@)[i as int] == parts@[i as int]@);
        }
        match genre_of_chars(&parts[i]) {
            Some(g) => {
                out.push(g);
            },
            None => {
                proof {
                    assert(spec_genre_of(pv[i as int]) is None);
                }
                return None;
            },
        }
        i = i + 1;
    }
    proof {
        assert(forall|k: int|
            0 <= k < pv.len() ==> spec_genre_of(#[trigger] pv[k]) is Some);
        assert(out@ =~= Seq::new(pv.len(), |k: int| spec_genre_of(pv[k]).unwrap()));
    }
    Some(out)
}

/// Reads a pipe-separated genre list.
pub fn parse_genres(s: &str) -> (r: Result<Vec<Genre>, DataLoadError>)
    ensures
        match r {
            Ok(gs) => spec_genres_of(s@) == Some(gs@),
            Err(_) => spec_genres_of(s@) is None,
        },
        r matches Err(e) ==> (e matches DataLoadError::InvalidValue { field, value }
            && field@ == "genre"@ && value@ == s@),
{
    let cs = chars_of(s);
    match genres_of_chars(&cs) {
        Some(gs) => Ok(gs),
        None => Err(DataLoadError::InvalidValue { field: "genre".to_owned(), value: s.to_owned() }),
    }
}

/// The position of the last occurrence of a character.
pub open spec fn spec_rfind(s: Seq<char>, c: char) -> Option<int>
    decreases s.len(),
{
    if s.len() == 0 {
        None
    } else if s.last() == c {
        Some(s.len() - 1)
    } else {
        spec_rfind(s.drop_last(), c)
    }
}

proof fn lemma_rfind_spec(s: Seq<char>, c: char)
    ensures
        match spec_rfind(s, c) {
            Some(i) => 0 <= i < s.len() && s[i] == c && forall|j: int|
                i < j < s.len() ==> s[j] != c,
            None => forall|j: int| 0 <= j < s.len() ==> s[j] != c,
        },
    decreases s.len(),
{
    if s.len() > 0 && s.last() != c {
        lemma_rfind_spec(s.drop_last(), c);
        assert(forall|j: int| 0 <= j < s.len() - 1 ==> s[j] == s.drop_last()[j]);
    }
}

fn rfind_char(s: &Vec<char>, c: char) -> (r: Option<usize>)
    ensures
        match r {
            Some(i) => spec_rfind(s@, c) == Some(i as int),
            None => spec_rfind(s@, c) is None,
        },
{
    proof {
        lemma_rfind_spec(s@, c);
    }
    let mut i: usize = s.len();
    while i > 0
        invariant
            i <= s@.len(),
            forall|j: int| i <= j < s@.len() ==> s@[j] != c,
        decreases i,
    {
        i = i - 1;
        if s[i] == c {
            proof {
                lemma_rfind_exact(s@, c, i as int);
            }
            return Some(i);
        }
    }
    proof {
        match spec_rfind(s@, c) {
            Some(k) => {
                lemma_rfind_spec(s@, c);
                assert(s@[k] != c);
            },
            None => {},
        }
    }
    None
}

proof fn lemma_rfind_exact(s: Seq<char>, c: char, i: int)
    requires
        0 <= i < s.len(),
        s[i] == c,
        forall|j: int| i < j < s.len() ==> s[j] != c,
    ensures
        spec_rfind(s, c) == Some(i),
{
    lemma_rfind_spec(s, c);
    match spec_rfind(s, c) {
        Some(k) => {
            if k < i {
                assert(s[i] != c);
            } else if k > i {
                assert(s[k] != c);
            }
        },
        None => {
            assert(s[i] != c);
        },
    }
}

/// The release year a title carries: the digits between the last opening
/// parenthesis and the last closing parenthesis, when the former comes
/// first and the digits fit a `u16`.
pub open spec fn spec_extract_year(s: Seq<char>) -> Option<u16> {
    match (spec_rfind(s, '('), spec_rfind(s, ')')) {
        (Some(a), Some(b)) => if a < b {
            match spec_parse_nat(s.subrange(a + 1, b)) {
                Some(v) => if v <= u16::MAX {
                    Some(v as u16)
                } else {
                    None
                },
                None => None,
            }
        } else {
            None
        },
        _ => None,
    }
}

fn extract_year_chars(cs: &Vec<char>) -> (r: Option<u16>)
    ensures
        r == spec_extract_year(cs@),
{
    let a = match rfind_char(cs, '(') {
        Some(a) => a,
        None => {
            return None;
        },
    };
    let b = match rfind_char(cs, ')') {
        Some(b) => b,
        None => {
            return None;
        },
    };
    if a < b {
        proof {
            lemma_rfind_spec(cs@, '(');
            lemma_rfind_spec(cs@, ')');
        }
        let inner = copy_range(cs, a + 1, b);
        proof {
            lemma_parse_nat_digits(inner@);
        }
        match parse_nat_chars(&inner, 0xffffu64) {
            Some(v) => Some(v as u16),
            None => {
                proof {
                    if spec_parse_nat(inner@) is Some {
                        assert(spec_parse_nat(inner@).unwrap() > u16::MAX);
                    }
                }
                None
            },
        }
    } else {
        None
    }
}

/// Reads the release year out of a movie title, as in `Toy Story (1995)`.
pub fn extract_year_from_title(title: &str) -> (r: Option<u16>)
    ensures
        r == spec_extract_year(title@),
{
    let cs = chars_of(title);
    extract_year_chars(&cs)
}

/// The field separator of the dataset files.
pub open spec fn spec_sep() -> Seq<char> {
    seq![':', ':']
}

/// The trimmed, non-empty lines of a file: the records it holds.
pub open spec fn spec_relevant(lines: Seq<Seq<char>>) -> Seq<Seq<char>> {
    lines.map_values(trim_fn()).filter(nonempty_fn())
}

/// Trimming, as a function value.
pub open spec fn trim_fn() -> spec_fn(Seq<char>) -> Seq<char> {
    |l: Seq<char>| spec_trim(l)
}

/// Non-emptiness, as a function value.
pub open spec fn nonempty_fn() -> spec_fn(Seq<char>) -> bool {
    |l: Seq<char>| l.len() > 0
}

/// One more line extends the records by its trimmed form when that is
/// non-empty.
proof fn lemma_relevant_step(lv: Seq<Seq<char>>, i: int)
    requires
        0 <= i < lv.len(),
    ensures
        spec_relevant(lv.take(i + 1)) == if spec_trim(lv[i]).len() > 0 {
            spec_relevant(lv.take(i)).push(spec_trim(lv[i]))
        } else {
            spec_relevant(lv.take(i))
        },
{
    assert(lv.take(i + 1).map_values(trim_fn()) =~= lv.take(i).map_values(trim_fn()).push(
        spec_trim(lv[i]),
    ));
    crate::seqtools::lemma_filter_push(
        lv.take(i).map_values(trim_fn()),
        nonempty_fn(),
        spec_trim(lv[i]),
    );
}

/// The records of a prefix are a prefix of the records.
proof fn lemma_relevant_prefix(lv: Seq<Seq<char>>, i: int)
    requires
        0 <= i <= lv.len(),
    ensures
        spec_relevant(lv).len() >= spec_relevant(lv.take(i)).len(),
        forall|k: int|
            0 <= k < spec_relevant(lv.take(i)).len() ==> #[trigger] spec_relevant(lv)[k]
                == spec_relevant(lv.take(i))[k],
{
    assert(lv =~= lv.take(i) + lv.skip(i));
    assert(lv.map_values(trim_fn()) =~= lv.take(i).map_values(trim_fn()) + lv.skip(i).map_values(
        trim_fn(),
    ));
    Seq::filter_distributes_over_add(
        lv.take(i).map_values(trim_fn()),
        lv.skip(i).map_values(trim_fn()),
        nonempty_fn(),
    );
}

/// The fields of a record line.
pub open spec fn spec_fields(l: Seq<char>) -> Seq<Seq<char>> {
    spec_split(l, spec_sep())
}

/// A record line of the users file: at least five fields, of which the
/// first four read as id, gender, age bracket and occupation.
pub open spec fn spec_user_line_ok(l: Seq<char>) -> bool {
    let f = spec_fields(l);
    &&& f.len() >= 5
    &&& spec_parse_u32(f[0]) is Some
    &&& spec_gender_of(f[1]) is Some
    &&& spec_age_of(f[2]) is Some
    &&& spec_occupation_of(f[3]) is Some
}

/// The user record a line denotes.
pub open spec fn spec_user_from_line(u: User, l: Seq<char>) -> bool {
    let f = spec_fields(l);
    &&& u.id == spec_parse_u32(f[0]).unwrap()
    &&& u.gender == spec_gender_of(f[1]).unwrap()
    &&& u.age == spec_age_of(f[2]).unwrap()
    &&& u.occupation == spec_occupation_of(f[3]).unwrap()
    &&& u.zipcode@ == f[4]
}

fn sep_chars() -> (r: Vec<char>)
    ensures
        r@ == spec_sep(),
{
    let mut sep: Vec<char> = Vec::new();
    sep.push(':');
    sep.push(':');
    proof {
        assert(sep@ =~= spec_sep());
    }
    sep
}

/// The failure a bad user line shows, in the order the fields are read:
/// too few fields or a bad id give the parse error naming the users file;
/// a bad gender, age or occupation code gives the invalid-value error
/// carrying the field's name and text.
pub open spec fn user_line_error_ok(e: DataLoadError, l: Seq<char>) -> bool {
    let f = spec_fields(l);
    match e {
        DataLoadError::ParseError { file, line, reason } => file@ == "users.dat"@ && (f.len() < 5
            || spec_parse_u32(f[0]) is None),
        DataLoadError::InvalidValue { field, value } => {
            &&& f.len() >= 5
            &&& spec_parse_u32(f[0]) is Some
            &&& {
                ||| (field@ == "gender"@ && spec_gender_of(f[1]) is None && value@ == f[1])
                ||| (field@ == "age"@ && spec_gender_of(f[1]) is Some && spec_age_of(f[2]) is None
                    && value@ == f[2])
                ||| (field@ == "occupation"@ && spec_gender_of(f[1]) is Some && spec_age_of(
                    f[2],
                ) is Some && spec_occupation_of(f[3]) is None && value@ == f[3])
            }
        },
        _ => false,
    }
}

/// The `k`-th record of the users file is the first that fails, and the
/// error describes its failure.
pub open spec fn first_bad_user_line(lines: Seq<Seq<char>>, k: int, e: DataLoadError) -> bool {
    &&& 0 <= k < spec_relevant(lines).len()
    &&& !spec_user_line_ok(spec_relevant(lines)[k])
    &&& forall|k2: int| 0 <= k2 < k ==> spec_user_line_ok(#[trigger] spec_relevant(lines)[k2])
    &&& user_line_error_ok(e, spec_relevant(lines)[k])
}

/// Parses the users file. Succeeds exactly when every trimmed, non-empty
/// line is a well-formed user record; the records come back in line order.
pub fn parse_users(lines: &Vec<String>) -> (r: Result<Vec<User>, DataLoadError>)
    ensures
        r is Ok <==> (forall|k: int|
            0 <= k < spec_relevant(lines.deep_view()).len() ==> spec_user_line_ok(
                #[trigger] spec_relevant(lines.deep_view())[k],
            )),
        r matches Ok(us) ==> us@.len() == spec_relevant(lines.deep_view()).len() && (forall|k: int|
            0 <= k < us@.len() ==> spec_user_from_line(
                #[trigger] us@[k],
                spec_relevant(lines.deep_view())[k],
            )),
        r matches Err(e) ==> exists|k: int|
            #[trigger] first_bad_user_line(lines.deep_view(), k, e),
{
    let ghost lv = lines.deep_view();
    let sep = sep_chars();
    let mut users: Vec<User> = Vec::new();
    let mut i: usize = 0;
    proof {
        assert(lv.take(0) =~= Seq::<Seq<char>>::empty());
        assert(lv.take(0).map_values(trim_fn()) =~= Seq::<Seq<char>>::empty());
        assert(spec_relevant(lv.take(0)) =~= Seq::<Seq<char>>::empty());
    }
    while i < lines.len()
        invariant
            i <= lines@.len(),
            lv == lines.deep_view(),
            lv.len() == lines@.len(),
            sep@ == spec_sep(),
            users@.len() == spec_relevant(lv.take(i as int)).len(),
            forall|k: int|
                0 <= k < users@.len() ==> spec_user_line_ok(
                    #[trigger] spec_relevant(lv.take(i as int))[k],
                ) && spec_user_from_line(users@[k], spec_relevant(lv.take(i as int))[k]),
        decreases lines@.len() - i,
    {
        let cs = chars_of(lines[i].as_str());
        let t = trim_chars(&cs);
        proof {
            assert(lv[i as int] == lines@[i as int]@);
            assert(t@ == spec_trim(lv[i as int]));
            lemma_relevant_step(lv, i as int);
        }
        if t.len() > 0 {
            let ghost rel = spec_relevant(lv.take(i + 1 as int));
            let ghost m = users@.len() as int;
            proof {
                lemma_relevant_prefix(lv, i + 1 as int);
                assert(rel[m] == t@);
                assert(spec_relevant(lv)[m] == t@);
            }
            let fields = split_chars(&t, &sep);
            proof {
                assert(views_of(fields@) == spec_fields(t@));
            }
            if fields.len() < 5 {
                let e = DataLoadError::ParseError {
                    file: "users.dat".to_owned(),
                    line: i + 1,
                    reason: "missing fields".to_owned(),
                };
                proof {
                    assert(!spec_user_line_ok(spec_relevant(lv)[m]));
                    lemma_relevant_prefix(lv, i as int);
                    assert forall|k2: int| 0 <= k2 < m implies spec_user_line_ok(
                        #[trigger] spec_relevant(lv)[k2],
                    ) by {
                        assert(spec_relevant(lv)[k2] == spec_relevant(lv.take(i as int))[k2]);
                    }
                    assert(user_line_error_ok(e, spec_relevant(lv)[m]));
                    assert(first_bad_user_line(lv, m, e));
                }
                return Err(e);
            }
            proof {
                assert(views_of(fields@)[0] == fields@[0]@);
                assert(views_of(fields@)[1] == fields@[1]@);
                assert(views_of(fields@)[2] == fields@[2]@);
                assert(views_of(fields@)[3] == fields@[3]@);
                assert(views_of(fields@)[4] == fields@[4]@);
            }
            let id = match parse_u32_chars(&fields[0]) {
                Some(v) => v,
                None => {
                    let e = DataLoadError::ParseError {
                        file: "users.dat".to_owned(),
                        line: i + 1,
                        reason: "invalid user id".to_owned(),
                    };
                    proof {
                        assert(!spec_user_line_ok(spec_relevant(lv)[m]));
                        lemma_relevant_prefix(lv, i as int);
                        assert forall|k2: int| 0 <= k2 < m implies spec_user_line_ok(
                            #[trigger] spec_relevant(lv)[k2],
                        ) by {
                            assert(spec_relevant(lv)[k2] == spec_relevant(lv.take(i as int))[k2]);
                        }
                        assert(user_line_error_ok(e, spec_relevant(lv)[m]));
                        assert(first_bad_user_line(lv, m, e));
                    }
                    return Err(e);
                },
            };
            let gender = match gender_of_chars(&fields[1]) {
                Some(g) => g,
                None => {
                    let e = DataLoadError::InvalidValue {
                        field: "gender".to_owned(),
                        value: crate::strutil::string_from_chars(&fields[1]),
                    };
                    proof {
                        assert(!spec_user_line_ok(spec_relevant(lv)[m]));
                        lemma_relevant_prefix(lv, i as int);
                        assert forall|k2: int| 0 <= k2 < m implies spec_user_line_ok(
                            #[trigger] spec_relevant(lv)[k2],
                        ) by {
                            assert(spec_relevant(lv)[k2] == spec_relevant(lv.take(i as int))[k2]);
                        }
                        assert(user_line_error_ok(e, spec_relevant(lv)[m]));
                        assert(first_bad_user_line(lv, m, e));
                    }
                    return Err(e);
                },
            };
            let age = match age_of_chars(&fields[2]) {
                Some(a) => a,
                None => {
                    let e = DataLoadError::InvalidValue {
                        field: "age".to_owned(),
                        value: crate::strutil::string_from_chars(&fields[2]),
                    };
                    proof {
                        assert(!spec_user_line_ok(spec_relevant(lv)[m]));
                        lemma_relevant_prefix(lv, i as int);
                        assert forall|k2: int| 0 <= k2 < m implies spec_user_line_ok(
                            #[trigger] spec_relevant(lv)[k2],
                        ) by {
                            assert(spec_relevant(lv)[k2] == spec_relevant(lv.take(i as int))[k2]);
                        }
                        assert(user_line_error_ok(e, spec_relevant(lv)[m]));
                        assert(first_bad_user_line(lv, m, e));
                    }
                    return Err(e);
                },
            };
            let occupation = match occupation_of_chars(&fields[3]) {
                Some(o) => o,
                None => {
                    let e = DataLoadError::InvalidValue {
                        field: "occupation".to_owned(),
                        value: crate::strutil::string_from_chars(&fields[3]),
                    };
                    proof {
                        assert(!spec_user_line_ok(spec_relevant(lv)[m]));
                        lemma_relevant_prefix(lv, i as int);
                        assert forall|k2: int| 0 <= k2 < m implies spec_user_line_ok(
                            #[trigger] spec_relevant(lv)[k2],
                        ) by {
                            assert(spec_relevant(lv)[k2] == spec_relevant(lv.take(i as int))[k2]);
                        }
                        assert(user_line_error_ok(e, spec_relevant(lv)[m]));
                        assert(first_bad_user_line(lv, m, e));
                    }
                    return Err(e);
                },
            };
            let zipcode = crate::strutil::string_from_chars(&fields[4]);
            let user = User { id, gender, age, occupation, zipcode };
            users.push(user);
            proof {
                assert(spec_user_line_ok(rel[m]));
                assert(spec_user_from_line(users@[m], rel[m]));
                assert(forall|k: int|
                    0 <= k < m ==> #[trigger] rel[k] == spec_relevant(lv.take(i as int))[k]);
            }
        }
        i = i + 1;
    }
    proof {
        assert(lv.take(lv.len() as int) =~= lv);
    }
    Ok(users)
}

/// A record line of the movies file: at least three fields, of which the
/// first reads as an id and the third as a genre list.
pub open spec fn spec_movie_line_ok(l: Seq<char>) -> bool {
    let f = spec_fields(l);
    &&& f.len() >= 3
    &&& spec_parse_u32(f[0]) is Some
    &&& spec_genres_of(f[2]) is Some
}

/// The movie record a line denotes: the title is the second field as
/// written, and the year is read out of the title.
pub open spec fn spec_movie_from_line(m: Movie, l: Seq<char>) -> bool {
    let f = spec_fields(l);
    &&& m.id == spec_parse_u32(f[0]).unwrap()
    &&& m.title@ == f[1]
    &&& m.year == spec_extract_year(f[1])
    &&& m.genres@ == spec_genres_of(f[2]).unwrap()
}

/// The failure a bad movie line shows: too few fields or a bad id give
/// the parse error naming the movies file; an unknown genre name gives
/// the invalid-value error carrying the genre field's text.
pub open spec fn movie_line_error_ok(e: DataLoadError, l: Seq<char>) -> bool {
    let f = spec_fields(l);
    match e {
        DataLoadError::ParseError { file, line, reason } => file@ == "movies.dat"@ && (f.len() < 3
            || spec_parse_u32(f[0]) is None),
        DataLoadError::InvalidValue { field, value } => {
            &&& f.len() >= 3
            &&& spec_parse_u32(f[0]) is Some
            &&& field@ == "genre"@
            &&& spec_genres_of(f[2]) is None
            &&& value@ == f[2]
        },
        _ => false,
    }
}

/// The `k`-th record of the movies file is the first that fails, and the
/// error describes its failure.
pub open spec fn first_bad_movie_line(lines: Seq<Seq<char>>, k: int, e: DataLoadError) -> bool {
    &&& 0 <= k < spec_relevant(lines).len()
    &&& !spec_movie_line_ok(spec_relevant(lines)[k])
    &&& forall|k2: int| 0 <= k2 < k ==> spec_movie_line_ok(#[trigger] spec_relevant(lines)[k2])
    &&& movie_line_error_ok(e, spec_relevant(lines)[k])
}

/// Parses the movies file. Succeeds exactly when every trimmed, non-empty
/// line is a well-formed movie record; the records come back in line
/// order.
pub fn parse_movies(lines: &Vec<String>) -> (r: Result<Vec<Movie>, DataLoadError>)
    ensures
        r is Ok <==> (forall|k: int|
            0 <= k < spec_relevant(lines.deep_view()).len() ==> spec_movie_line_ok(
                #[trigger] spec_relevant(lines.deep_view())[k],
            )),
        r matches Ok(mv) ==> mv@.len() == spec_relevant(lines.deep_view()).len() && (forall|k: int|
            0 <= k < mv@.len() ==> spec_movie_from_line(
                #[trigger] mv@[k],
                spec_relevant(lines.deep_view())[k],
            )),
        r matches Err(e) ==> exists|k: int|
            #[trigger] first_bad_movie_line(lines.deep_view(), k, e),
{
    let ghost lv = lines.deep_view();
    let sep = sep_chars();
    let mut movies: Vec<Movie> = Vec::new();
    let mut i: usize = 0;
    proof {
        assert(lv.take(0) =~= Seq::<Seq<char>>::empty());
        assert(lv.take(0).map_values(trim_fn()) =~= Seq::<Seq<char>>::empty());
        assert(spec_relevant(lv.take(0)) =~= Seq::<Seq<char>>::empty());
    }
    while i < lines.len()
        invariant
            i <= lines@.len(),
            lv == lines.deep_view(),
            lv.len() == lines@.len(),
            sep@ == spec_sep(),
            movies@.len() == spec_relevant(lv.take(i as int)).len(),
            forall|k: int|
                0 <= k < movies@.len() ==> spec_movie_line_ok(
                    #[trigger] spec_relevant(lv.take(i as int))[k],
                ) && spec_movie_from_line(movies@[k], spec_relevant(lv.take(i as int))[k]),
        decreases lines@.len() - i,
    {
        let cs = chars_of(lines[i].as_str());
        let t = trim_chars(&cs);
        proof {
            assert(lv[i as int] == lines@[i as int]@);
            assert(t@ == spec_trim(lv[i as int]));
            lemma_relevant_step(lv, i as int);
        }
        if t.len() > 0 {
            let ghost rel = spec_relevant(lv.take(i + 1 as int));
            let ghost m = movies@.len() as int;
            proof {
                lemma_relevant_prefix(lv, i + 1 as int);
                assert(rel[m] == t@);
                assert(spec_relevant(lv)[m] == t@);
            }
            let fields = split_chars(&t, &sep);
            proof {
                assert(views_of(fields@) == spec_fields(t@));
            }
            if fields.len() < 3 {
                let e = DataLoadError::ParseError {
                    file: "movies.dat".to_owned(),
                    line: i + 1,
                    reason: "missing fields".to_owned(),
                };
                proof {
                    assert(!spec_movie_line_ok(spec_relevant(lv)[m]));
                    lemma_relevant_prefix(lv, i as int);
                    assert forall|k2: int| 0 <= k2 < m implies spec_movie_line_ok(
                        #[trigger] spec_relevant(lv)[k2],
                    ) by {
                        assert(spec_relevant(lv)[k2] == spec_relevant(lv.take(i as int))[k2]);
                    }
                    assert(movie_line_error_ok(e, spec_relevant(lv)[m]));
                    assert(first_bad_movie_line(lv, m, e));
                }
                return Err(e);
            }
            proof {
                assert(views_of(fields@)[0] == fields@[0]@);
                assert(views_of(fields@)[1] == fields@[1]@);
                assert(views_of(fields@)[2] == fields@[2]@);
            }
            let id = match parse_u32_chars(&fields[0]) {
                Some(v) => v,
                None => {
                    let e = DataLoadError::ParseError {
                        file: "movies.dat".to_owned(),
                        line: i + 1,
                        reason: "invalid movie id".to_owned(),
                    };
                    proof {
                        assert(!spec_movie_line_ok(spec_relevant(lv)[m]));
                        lemma_relevant_prefix(lv, i as int);
                        assert forall|k2: int| 0 <= k2 < m implies spec_movie_line_ok(
                            #[trigger] spec_relevant(lv)[k2],
                        ) by {
                            assert(spec_relevant(lv)[k2] == spec_relevant(lv.take(i as int))[k2]);
                        }
                        assert(movie_line_error_ok(e, spec_relevant(lv)[m]));
                        assert(first_bad_movie_line(lv, m, e));
                    }
                    return Err(e);
                },
            };
            let genres = match genres_of_chars(&fields[2]) {
                Some(gs) => gs,
                None => {
                    let e = DataLoadError::InvalidValue {
                        field: "genre".to_owned(),
                        value: crate::strutil::string_from_chars(&fields[2]),
                    };
                    proof {
                        assert(!spec_movie_line_ok(spec_relevant(lv)[m]));
                        lemma_relevant_prefix(lv, i as int);
                        assert forall|k2: int| 0 <= k2 < m implies spec_movie_line_ok(
                            #[trigger] spec_relevant(lv)[k2],
                        ) by {
                            assert(spec_relevant(lv)[k2] == spec_relevant(lv.take(i as int))[k2]);
                        }
                        assert(movie_line_error_ok(e, spec_relevant(lv)[m]));
                        assert(first_bad_movie_line(lv, m, e));
                    }
                    return Err(e);
                },
            };
            let year = extract_year_chars(&fields[1]);
            let title = crate::strutil::string_from_chars(&fields[1]);
            let movie = Movie { id, title, year, genres };
            movies.push(movie);
            proof {
                assert(spec_movie_line_ok(rel[m]));
                assert(spec_movie_from_line(movies@[m], rel[m]));
                assert(forall|k: int|
                    0 <= k < m ==> #[trigger] rel[k] == spec_relevant(lv.take(i as int))[k]);
            }
        }
        i = i + 1;
    }
    proof {
        assert(lv.take(lv.len() as int) =~= lv);
    }
    Ok(movies)
}

/// A record line of the ratings file: at least four fields reading as
/// user id, movie id, rating value and timestamp.
pub open spec fn spec_rating_line_ok(l: Seq<char>) -> bool {
    let f = spec_fields(l);
    &&& f.len() >= 4
    &&& spec_parse_u32(f[0]) is Some
    &&& spec_parse_u32(f[1]) is Some
    &&& spec_parse_tenths(f[2]) is Some
    &&& spec_parse_i64(f[3]) is Some
}

/// The rating record a line denotes.
pub open spec fn spec_rating_from_line(r: Rating, l: Seq<char>) -> bool {
    let f = spec_fields(l);
    &&& r.user_id == spec_parse_u32(f[0]).unwrap()
    &&& r.movie_id == spec_parse_u32(f[1]).unwrap()
    &&& r.rating == spec_parse_tenths(f[2]).unwrap()
    &&& r.timestamp == spec_parse_i64(f[3]).unwrap()
}

/// The failure a bad rating line shows: too few fields, or one of the
/// four fields failing to read, give the parse error naming the ratings
/// file.
pub open spec fn rating_line_error_ok(e: DataLoadError, l: Seq<char>) -> bool {
    let f = spec_fields(l);
    match e {
        DataLoadError::ParseError { file, line, reason } => file@ == "ratings.dat"@ && (f.len()
            < 4 || spec_parse_u32(f[0]) is None || spec_parse_u32(f[1]) is None
            || spec_parse_tenths(f[2]) is None || spec_parse_i64(f[3]) is None),
        _ => false,
    }
}

/// The `k`-th record of the ratings file is the first that fails, and the
/// error describes its failure.
pub open spec fn first_bad_rating_line(lines: Seq<Seq<char>>, k: int, e: DataLoadError) -> bool {
    &&& 0 <= k < spec_relevant(lines).len()
    &&& !spec_rating_line_ok(spec_relevant(lines)[k])
    &&& forall|k2: int| 0 <= k2 < k ==> spec_rating_line_ok(#[trigger] spec_relevant(lines)[k2])
    &&& rating_line_error_ok(e, spec_relevant(lines)[k])
}

/// Parses the ratings file. Succeeds exactly when every trimmed,
/// non-empty line is a well-formed rating record; the records come back in
/// line order.
pub fn parse_ratings(lines: &Vec<String>) -> (r: Result<Vec<Rating>, DataLoadError>)
    ensures
        r is Ok <==> (forall|k: int|
            0 <= k < spec_relevant(lines.deep_view()).len() ==> spec_rating_line_ok(
                #[trigger] spec_relevant(lines.deep_view())[k],
            )),
        r matches Ok(rs) ==> rs@.len() == spec_relevant(lines.deep_view()).len() && (forall|k: int|
            0 <= k < rs@.len() ==> spec_rating_from_line(
                #[trigger] rs@[k],
                spec_relevant(lines.deep_view())[k],
            )),
        r matches Err(e) ==> exists|k: int|
            #[trigger] first_bad_rating_line(lines.deep_view(), k, e),
{
    let ghost lv = lines.deep_view();
    let sep = sep_chars();
    let mut ratings: Vec<Rating> = Vec::new();
    let mut i: usize = 0;
    proof {
        assert(lv.take(0) =~= Seq::<Seq<char>>::empty());
        assert(lv.take(0).map_values(trim_fn()) =~= Seq::<Seq<char>>::empty());
        assert(spec_relevant(lv.take(0)) =~= Seq::<Seq<char>>::empty());
    }
    while i < lines.len()
        invariant
            i <= lines@.len(),
            lv == lines.deep_view(),
            lv.len() == lines@.len(),
            sep@ == spec_sep(),
            ratings@.len() == spec_relevant(lv.take(i as int)).len(),
            forall|k: int|
                0 <= k < ratings@.len() ==> spec_rating_line_ok(
                    #[trigger] spec_relevant(lv.take(i as int))[k],
                ) && spec_rating_from_line(ratings@[k], spec_relevant(lv.take(i as int))[k]),
        decreases lines@.len() - i,
    {
        let cs = chars_of(lines[i].as_str());
        let t = trim_chars(&cs);
        proof {
            assert(lv[i as int] == lines@[i as int]@);
            assert(t@ == spec_trim(lv[i as int]));
            lemma_relevant_step(lv, i as int);
        }
        if t.len() > 0 {
            let ghost rel = spec_relevant(lv.take(i + 1 as int));
            let ghost m = ratings@.len() as int;
            proof {
                lemma_relevant_prefix(lv, i + 1 as int);
                assert(rel[m] == t@);
                assert(spec_relevant(lv)[m] == t@);
            }
            let fields = split_chars(&t, &sep);
            proof {
                assert(views_of(fields@) == spec_fields(t@));
            }
            if fields.len() < 4 {
                let e = DataLoadError::ParseError {
                    file: "ratings.dat".to_owned(),
                    line: i + 1,
                    reason: "missing fields".to_owned(),
                };
                proof {
                    assert(!spec_rating_line_ok(spec_relevant(lv)[m]));
                    lemma_relevant_prefix(lv, i as int);
                    assert forall|k2: int| 0 <= k2 < m implies spec_rating_line_ok(
                        #[trigger] spec_relevant(lv)[k2],
                    ) by {
                        assert(spec_relevant(lv)[k2] == spec_relevant(lv.take(i as int))[k2]);
                    }
                    assert(rating_line_error_ok(e, spec_relevant(lv)[m]));
                    assert(first_bad_rating_line(lv, m, e));
                }
                return Err(e);
            }
            proof {
                assert(views_of(fields@)[0] == fields@[0]@);
                assert(views_of(fields@)[1] == fields@[1]@);
                assert(views_of(fields@)[2] == fields@[2]@);
                assert(views_of(fields@)[3] == fields@[3]@);
            }
            let user_id = match parse_u32_chars(&fields[0]) {
                Some(v) => v,
                None => {
                    let e = DataLoadError::ParseError {
                        file: "ratings.dat".to_owned(),
                        line: i + 1,
                        reason: "invalid user id".to_owned(),
                    };
                    proof {
                        assert(!spec_rating_line_ok(spec_relevant(lv)[m]));
                        lemma_relevant_prefix(lv, i as int);
                        assert forall|k2: int| 0 <= k2 < m implies spec_rating_line_ok(
                            #[trigger] spec_relevant(lv)[k2],
                        ) by {
                            assert(spec_relevant(lv)[k2] == spec_relevant(lv.take(i as int))[k2]);
                        }
                        assert(rating_line_error_ok(e, spec_relevant(lv)[m]));
                        assert(first_bad_rating_line(lv, m, e));
                    }
                    return Err(e);
                },
            };
            let movie_id = match parse_u32_chars(&fields[1]) {
                Some(v) => v,
                None => {
                    let e = DataLoadError::ParseError {
                        file: "ratings.dat".to_owned(),
                        line: i + 1,
                        reason: "invalid movie id".to_owned(),
                    };
                    proof {
                        assert(!spec_rating_line_ok(spec_relevant(lv)[m]));
                        lemma_relevant_prefix(lv, i as int);
                        assert forall|k2: int| 0 <= k2 < m implies spec_rating_line_ok(
                            #[trigger] spec_relevant(lv)[k2],
                        ) by {
                            assert(spec_relevant(lv)[k2] == spec_relevant(lv.take(i as int))[k2]);
                        }
                        assert(rating_line_error_ok(e, spec_relevant(lv)[m]));
                        assert(first_bad_rating_line(lv, m, e));
                    }
                    return Err(e);
                },
            };
            let rating = match parse_tenths_chars(&fields[2]) {
                Some(v) => v,
                None => {
                    let e = DataLoadError::ParseError {
                        file: "ratings.dat".to_owned(),
                        line: i + 1,
                        reason: "invalid rating".to_owned(),
                    };
                    proof {
                        assert(!spec_rating_line_ok(spec_relevant(lv)[m]));
                        lemma_relevant_prefix(lv, i as int);
                        assert forall|k2: int| 0 <= k2 < m implies spec_rating_line_ok(
                            #[trigger] spec_relevant(lv)[k2],
                        ) by {
                            assert(spec_relevant(lv)[k2] == spec_relevant(lv.take(i as int))[k2]);
                        }
                        assert(rating_line_error_ok(e, spec_relevant(lv)[m]));
                        assert(first_bad_rating_line(lv, m, e));
                    }
                    return Err(e);
                },
            };
            let timestamp = match parse_i64_chars(&fields[3]) {
                Some(v) => v,
                None => {
                    let e = DataLoadError::ParseError {
                        file: "ratings.dat".to_owned(),
                        line: i + 1,
                        reason: "invalid timestamp".to_owned(),
                    };
                    proof {
                        assert(!spec_rating_line_ok(spec_relevant(lv)[m]));
                        lemma_relevant_prefix(lv, i as int);
                        assert forall|k2: int| 0 <= k2 < m implies spec_rating_line_ok(
                            #[trigger] spec_relevant(lv)[k2],
                        ) by {
                            assert(spec_relevant(lv)[k2] == spec_relevant(lv.take(i as int))[k2]);
                        }
                        assert(rating_line_error_ok(e, spec_relevant(lv)[m]));
                        assert(first_bad_rating_line(lv, m, e));
                    }
                    return Err(e);
                },
            };
            let record = Rating { user_id, movie_id, rating, timestamp };
            ratings.push(record);
            proof {
                assert(spec_rating_line_ok(rel[m]));
                assert(spec_rating_from_line(ratings@[m], rel[m]));
                assert(forall|k: int|
                    0 <= k < m ==> #[trigger] rel[k] == spec_relevant(lv.take(i as int))[k]);
            }
        }
        i = i + 1;
    }
    proof {
        assert(lv.take(lv.len() as int) =~= lv);
    }
    Ok(ratings)
}

/// Splits raw file bytes into lines, reading each byte as the character
/// with that code, the dataset's single-byte encoding. Line breaks are
/// dropped; a trailing line without a break still counts.
pub fn decode_latin1_lines(bytes: &Vec<u8>) -> (r: Vec<String>)
    ensures
        r.deep_view() == spec_split(bytes@.map_values(|b: u8| b as char), seq!['\n']),
{
    let ghost all = bytes@.map_values(|b: u8| b as char);
    let mut chars: Vec<char> = Vec::new();
    let mut i: usize = 0;
    while i < bytes.len()
        invariant
            i <= bytes@.len(),
            all == bytes@.map_values(|b: u8| b as char),
            chars@ == all.take(i as int),
        decreases bytes@.len() - i,
    {
        chars.push(bytes[i] as char);
        proof {
            assert(chars@ =~= all.take(i + 1 as int));
        }
        i = i + 1;
    }
    proof {
        assert(all.take(all.len() as int) =~= all);
    }
    let mut nl: Vec<char> = Vec::new();
    nl.push('\n');
    proof {
        assert(nl@ =~= seq!['\n']);
    }
    let parts = split_chars(&chars, &nl);
    let mut out: Vec<String> = Vec::new();
    let mut j: usize = 0;
    while j < parts.len()
        invariant
            j <= parts@.len(),
            views_of(parts@) == spec_split(all, seq!['\n']),
            out.deep_view() == views_of(parts@).take(j as int),
        decreases parts@.len() - j,
    {
        proof {
            assert(views_of(parts@)[j as int] == parts@[j as int]@);
        }
        let ghost dv_before = out.deep_view();
        out.push(crate::strutil::string_from_chars(&parts[j]));
        proof {
            assert(out.deep_view() =~~= dv_before.push(parts@[j as int]@));
            assert(dv_before.push(parts@[j as int]@) =~= views_of(parts@).take(j + 1 as int));
        }
        j = j + 1;
    }
    proof {
        assert(views_of(parts@).take(parts@.len() as int) =~= views_of(parts@));
    }
    out
}

} // verus!
