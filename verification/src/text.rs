//! Text as a sequence of characters: trimming, splitting, comparing, reading numbers.
//!
//! Everything works on `&[char]`, so that a piece of a line is a subslice of it.

use vstd::prelude::*;
use vstd::slice::slice_subrange;

verus! {

/// `String::push` appends the character.
pub assume_specification[ String::push ](s: &mut String, c: char)
    ensures
        final(s)@ == old(s)@.push(c),
;

/// The texts of a vector of strings.
pub open spec fn strings(v: Seq<String>) -> Seq<Seq<char>> {
    v.map_values(|s: String| s@)
}

/// The characters of `s`.
pub fn chars_of(s: &str) -> (out: Vec<char>)
    ensures
        out@ == s@,
{
    let mut out: Vec<char> = Vec::new();
    for c in it: s.chars()
        invariant
            it.seq() == s@,
            out@ == s@.take(it.index() as int),
    {
        out.push(c);
        assert(s@.take(it.index() + 1) == s@.take(it.index() as int).push(s@[it.index() as int]));
    }
    assert(s@.take(s@.len() as int) == s@);
    out
}

/// The string made of `cs`.
pub fn string_of(cs: &[char]) -> (out: String)
    ensures
        out@ == cs@,
{
    let mut out = String::new();
    let mut i: usize = 0;
    while i < cs.len()
        invariant
            i <= cs.len(),
            out@ == cs@.take(i as int),
        decreases cs.len() - i,
    {
        out.push(cs[i]);
        assert(cs@.take(i + 1) == cs@.take(i as int).push(cs@[i as int]));
        i = i + 1;
    }
    assert(cs@.take(cs@.len() as int) == cs@);
    out
}

/// Appends the characters of `s` to `out`.
pub fn push_str(out: &mut Vec<char>, s: &str)
    ensures
        final(out)@ == old(out)@ + s@,
{
    let mut cs = chars_of(s);
    out.append(&mut cs);
}

/// Whether `a` and `b` are the same characters.
pub fn same(a: &[char], b: &[char]) -> (r: bool)
    ensures
        r == (a@ == b@),
{
    if a.len() != b.len() {
        return false;
    }
    let mut i: usize = 0;
    while i < a.len()
        invariant
            i <= a.len(),
            a.len() == b.len(),
            a@.take(i as int) == b@.take(i as int),
        decreases a.len() - i,
    {
        if a[i] != b[i] {
            assert(a@[i as int] != b@[i as int]);
            return false;
        }
        assert(a@.take(i + 1) == a@.take(i as int).push(a@[i as int]));
        assert(b@.take(i + 1) == b@.take(i as int).push(b@[i as int]));
        i = i + 1;
    }
    assert(a@.take(a@.len() as int) == a@);
    assert(b@.take(b@.len() as int) == b@);
    true
}

/// Whether `a` is the text `lit`.
pub fn is(a: &[char], lit: &str) -> (r: bool)
    ensures
        r == (a@ == lit@),
{
    let b = chars_of(lit);
    same(a, &b)
}

/// `s` begins with `prefix`.
pub open spec fn begins(s: Seq<char>, prefix: Seq<char>) -> bool {
    prefix.len() <= s.len() && s.take(prefix.len() as int) == prefix
}

/// Whether `s` begins with the text `lit`.
pub fn begins_with(s: &[char], lit: &str) -> (r: bool)
    ensures
        r == begins(s@, lit@),
{
    let p = chars_of(lit);
    if p.len() > s.len() {
        return false;
    }
    same(slice_subrange(s, 0, p.len()), &p)
}

// ---------------------------------------------------------------------------------------------
// White space

/// The characters with the Unicode property White_Space.
pub open spec fn white(c: char) -> bool {
    let n = c as u32;
    ||| 0x09 <= n <= 0x0d
    ||| n == 0x20
    ||| n == 0x85
    ||| n == 0xa0
    ||| n == 0x1680
    ||| 0x2000 <= n <= 0x200a
    ||| n == 0x2028
    ||| n == 0x2029
    ||| n == 0x202f
    ||| n == 0x205f
    ||| n == 0x3000
}

pub fn is_white(c: char) -> (r: bool)
    ensures
        r == white(c),
{
    let n: u32 = c as u32;
    (0x09 <= n && n <= 0x0d) || n == 0x20 || n == 0x85 || n == 0xa0 || n == 0x1680 || (0x2000 <= n
        && n <= 0x200a) || n == 0x2028 || n == 0x2029 || n == 0x202f || n == 0x205f || n == 0x3000
}

/// `s` without its leading white space.
pub open spec fn trimmed_start(s: Seq<char>) -> Seq<char>
    decreases s.len(),
{
    if s.len() > 0 && white(s[0]) {
        trimmed_start(s.skip(1))
    } else {
        s
    }
}

/// `s` without its trailing white space.
pub open spec fn trimmed_end(s: Seq<char>) -> Seq<char>
    decreases s.len(),
{
    if s.len() > 0 && white(s.last()) {
        trimmed_end(s.drop_last())
    } else {
        s
    }
}

/// `s` without the white space around it.
pub open spec fn trimmed(s: Seq<char>) -> Seq<char> {
    trimmed_end(trimmed_start(s))
}

pub fn trim_start(s: &[char]) -> (r: &[char])
    ensures
        r@ == trimmed_start(s@),
{
    let mut i: usize = 0;
    assert(s@.skip(0) == s@);
    while i < s.len() && is_white(s[i])
        invariant
            i <= s.len(),
            trimmed_start(s@.skip(i as int)) == trimmed_start(s@),
        decreases s.len() - i,
    {
        assert(s@.skip(i as int).skip(1) == s@.skip(i + 1));
        i = i + 1;
    }
    assert(s@.subrange(i as int, s@.len() as int) == s@.skip(i as int));
    slice_subrange(s, i, s.len())
}

pub fn trim_end(s: &[char]) -> (r: &[char])
    ensures
        r@ == trimmed_end(s@),
{
    let mut n: usize = s.len();
    assert(s@.take(s@.len() as int) == s@);
    while n > 0 && is_white(s[n - 1])
        invariant
            n <= s.len(),
            trimmed_end(s@.take(n as int)) == trimmed_end(s@),
        decreases n,
    {
        assert(s@.take(n as int).drop_last() == s@.take(n - 1));
        n = n - 1;
    }
    assert(s@.subrange(0, n as int) == s@.take(n as int));
    slice_subrange(s, 0, n)
}

pub fn trim(s: &[char]) -> (r: &[char])
    ensures
        r@ == trimmed(s@),
{
    trim_end(trim_start(s))
}

/// `s` without the run of `c` at its start.
pub open spec fn stripped_start(s: Seq<char>, c: char) -> Seq<char>
    decreases s.len(),
{
    if s.len() > 0 && s[0] == c {
        stripped_start(s.skip(1), c)
    } else {
        s
    }
}

pub fn strip_start(s: &[char], c: char) -> (r: &[char])
    ensures
        r@ == stripped_start(s@, c),
{
    let mut i: usize = 0;
    assert(s@.skip(0) == s@);
    while i < s.len() && s[i] == c
        invariant
            i <= s.len(),
            stripped_start(s@.skip(i as int), c) == stripped_start(s@, c),
        decreases s.len() - i,
    {
        assert(s@.skip(i as int).skip(1) == s@.skip(i + 1));
        i = i + 1;
    }
    assert(s@.subrange(i as int, s@.len() as int) == s@.skip(i as int));
    slice_subrange(s, i, s.len())
}

pub proof fn trimmed_start_len(s: Seq<char>)
    ensures
        trimmed_start(s).len() <= s.len(),
    decreases s.len(),
{
    if s.len() > 0 && white(s[0]) {
        trimmed_start_len(s.skip(1));
    }
}

proof fn trimmed_start_of_push(s: Seq<char>, c: char)
    requires
        white(c),
    ensures
        trimmed_start(s.push(c)) == (if trimmed_start(s).len() == 0 {
            Seq::empty()
        } else {
            trimmed_start(s).push(c)
        }),
    decreases s.len(),
{
    if s.len() == 0 {
        assert(s.push(c).skip(1) =~= Seq::<char>::empty());
        assert(trimmed_start(s.push(c).skip(1)) =~= Seq::<char>::empty());
    } else {
        assert(s.push(c)[0] == s[0]);
        if white(s[0]) {
            trimmed_start_of_push(s.skip(1), c);
            assert(s.push(c).skip(1) =~= s.skip(1).push(c));
        }
    }
}

/// White space at the end is trimmed away.
pub proof fn white_at_the_end_is_trimmed(s: Seq<char>, c: char)
    requires
        white(c),
    ensures
        trimmed(s.push(c)) == trimmed(s),
{
    trimmed_start_of_push(s, c);
    let t = trimmed_start(s);
    if t.len() == 0 {
        assert(t =~= Seq::<char>::empty());
    } else {
        assert(t.push(c).drop_last() =~= t);
    }
}

pub proof fn stripped_start_len(s: Seq<char>, c: char)
    ensures
        stripped_start(s, c).len() <= s.len(),
    decreases s.len(),
{
    if s.len() > 0 && s[0] == c {
        stripped_start_len(s.skip(1), c);
    }
}

// ---------------------------------------------------------------------------------------------
// Finding and splitting

/// Where `c` first stands in `s`; the length of `s` when it stands nowhere.
pub open spec fn first_at(s: Seq<char>, c: char) -> int
    decreases s.len(),
{
    if s.len() == 0 || s[0] == c {
        0
    } else {
        1 + first_at(s.skip(1), c)
    }
}

/// `first_at` is the position it is named for.
pub proof fn first_at_is_first(s: Seq<char>, c: char)
    ensures
        0 <= first_at(s, c) <= s.len(),
        first_at(s, c) < s.len() ==> s[first_at(s, c)] == c,
        forall|i: int| 0 <= i < first_at(s, c) ==> s[i] != c,
    decreases s.len(),
{
    if s.len() > 0 && s[0] != c {
        first_at_is_first(s.skip(1), c);
        assert forall|i: int| 0 <= i < first_at(s, c) implies s[i] != c by {
            if i > 0 {
                assert(s[i] == s.skip(1)[i - 1]);
            }
        }
    }
}

/// A position with the properties of the first one is the first one.
pub proof fn first_at_unique(s: Seq<char>, c: char, n: int)
    requires
        0 <= n <= s.len(),
        n < s.len() ==> s[n] == c,
        forall|i: int| 0 <= i < n ==> s[i] != c,
    ensures
        first_at(s, c) == n,
{
    first_at_is_first(s, c);
    let f = first_at(s, c);
    if f < n {
        assert(s[f] != c);
    }
    if n < f {
        assert(s[n] != c);
    }
}

/// Where `c` first stands in `s`.
pub fn find(s: &[char], c: char) -> (r: Option<usize>)
    ensures
        r matches Some(i) ==> i == first_at(s@, c) && i < s@.len(),
        r is None ==> first_at(s@, c) == s@.len(),
{
    let mut i: usize = 0;
    while i < s.len()
        invariant
            i <= s.len(),
            forall|j: int| 0 <= j < i ==> s@[j] != c,
        decreases s.len() - i,
    {
        if s[i] == c {
            proof {
                first_at_unique(s@, c, i as int);
            }
            return Some(i);
        }
        i = i + 1;
    }
    proof {
        first_at_unique(s@, c, i as int);
    }
    None
}

/// The pieces of `s` between the occurrences of `c`: one more than there are occurrences.
pub open spec fn pieces(s: Seq<char>, c: char) -> Seq<Seq<char>>
    decreases s.len(),
    via pieces_ends
{
    let i = first_at(s, c);
    if i < s.len() {
        seq![s.take(i)] + pieces(s.skip(i + 1), c)
    } else {
        seq![s]
    }
}

#[via_fn]
proof fn pieces_ends(s: Seq<char>, c: char) {
    first_at_is_first(s, c);
}

/// The views of a vector of slices.
pub open spec fn views(v: Seq<&[char]>) -> Seq<Seq<char>> {
    v.map_values(|p: &[char]| p@)
}

pub fn split<'a>(s: &'a [char], c: char) -> (out: Vec<&'a [char]>)
    ensures
        views(out@) == pieces(s@, c),
        out.len() >= 1,
{
    let mut out: Vec<&'a [char]> = Vec::new();
    let mut rest: &'a [char] = s;
    proof {
        assert(views(out@) + pieces(rest@, c) =~= pieces(s@, c));
    }
    loop
        invariant
            views(out@) + pieces(rest@, c) == pieces(s@, c),
        decreases rest.len(),
    {
        match find(rest, c) {
            Some(i) => {
                let ghost before = out@;
                let piece: &'a [char] = slice_subrange(rest, 0, i);
                let tail: &'a [char] = slice_subrange(rest, i + 1, rest.len());
                out.push(piece);
                proof {
                    assert(piece@ == rest@.take(i as int));
                    assert(tail@ == rest@.skip(i + 1));
                    assert(views(out@) =~= views(before).push(piece@));
                    assert(pieces(rest@, c) == seq![piece@] + pieces(tail@, c));
                    assert(views(out@) + pieces(tail@, c) =~= views(before) + pieces(rest@, c));
                }
                rest = tail;
            },
            None => {
                let ghost before = out@;
                out.push(rest);
                proof {
                    assert(views(out@) =~= views(before) + pieces(rest@, c));
                }
                return out;
            },
        }
    }
}

// ---------------------------------------------------------------------------------------------
// Letters and digits

/// `c` with an ASCII capital made small.
pub open spec fn lower(c: char) -> char {
    if 'A' <= c && c <= 'Z' {
        ((c as u32 + 32) as u8) as char
    } else {
        c
    }
}

pub fn to_lower(c: char) -> (r: char)
    ensures
        r == lower(c),
{
    if 'A' <= c && c <= 'Z' {
        ((c as u32 + 32) as u8) as char
    } else {
        c
    }
}

/// `s` with its ASCII capitals made small.
pub open spec fn lowered(s: Seq<char>) -> Seq<char> {
    s.map_values(|c: char| lower(c))
}

/// Whether `a` and the text `lit` are the same but for the case of ASCII letters.
pub fn is_ignoring_case(a: &[char], lit: &str) -> (r: bool)
    ensures
        r == (lowered(a@) == lowered(lit@)),
{
    let b = chars_of(lit);
    assert(lowered(a@).len() == a@.len());
    assert(lowered(b@).len() == b@.len());
    if a.len() != b.len() {
        return false;
    }
    let mut i: usize = 0;
    while i < a.len()
        invariant
            i <= a.len(),
            a.len() == b.len(),
            b@ == lit@,
            forall|j: int| 0 <= j < i ==> lower(#[trigger] a@[j]) == lower(b@[j]),
        decreases a.len() - i,
    {
        if to_lower(a[i]) != to_lower(b[i]) {
            assert(lowered(a@)[i as int] != lowered(b@)[i as int]);
            return false;
        }
        i = i + 1;
    }
    assert(lowered(a@) =~= lowered(b@));
    true
}

/// `s` with its ASCII capitals made small.
pub fn to_lowered(s: &[char]) -> (out: Vec<char>)
    ensures
        out@ == lowered(s@),
{
    let mut out: Vec<char> = Vec::new();
    let mut i: usize = 0;
    while i < s.len()
        invariant
            i <= s.len(),
            out@ == lowered(s@).take(i as int),
        decreases s.len() - i,
    {
        out.push(to_lower(s[i]));
        assert(lowered(s@).take(i + 1) == lowered(s@).take(i as int).push(lowered(s@)[i as int]));
        i = i + 1;
    }
    assert(lowered(s@).take(s@.len() as int) == lowered(s@));
    out
}

pub open spec fn digit(c: char) -> bool {
    '0' <= c && c <= '9'
}

/// What a run of decimal digits stands for.
pub open spec fn decimal(s: Seq<char>) -> nat
    decreases s.len(),
{
    if s.len() == 0 {
        0
    } else {
        decimal(s.drop_last()) * 10 + (s.last() as u32 - '0' as u32) as nat
    }
}

/// The digits of a number that may carry one leading `+`.
pub open spec fn unsigned(s: Seq<char>) -> Seq<char> {
    if s.len() > 0 && s[0] == '+' {
        s.skip(1)
    } else {
        s
    }
}

/// The number `s` writes: one or more decimal digits, after an optional `+`, of a value no
/// greater than `max`.
pub open spec fn number(s: Seq<char>, max: nat) -> Option<nat> {
    let d = unsigned(s);
    if d.len() > 0 && (forall|i: int| 0 <= i < d.len() ==> digit(#[trigger] d[i])) && decimal(d)
        <= max {
        Some(decimal(d))
    } else {
        None
    }
}

/// A longer run of digits is no smaller.
proof fn decimal_grows(d: Seq<char>, n: int)
    requires
        0 <= n <= d.len(),
    ensures
        decimal(d.take(n)) <= decimal(d),
    decreases d.len(),
{
    if n == d.len() {
        assert(d.take(n) == d);
    } else {
        assert(d.drop_last().take(n) == d.take(n));
        decimal_grows(d.drop_last(), n);
    }
}

/// Reads a number no greater than `max`.
pub fn parse_number(s: &[char], max: u64) -> (r: Option<u64>)
    ensures
        r matches Some(v) ==> number(s@, max as nat) == Some(v as nat),
        r is None ==> number(s@, max as nat) is None,
{
    let d: &[char] = if s.len() > 0 && s[0] == '+' {
        slice_subrange(s, 1, s.len())
    } else {
        s
    };
    assert(d@ == unsigned(s@));
    if d.len() == 0 {
        return None;
    }
    let mut v: u64 = 0;
    let mut i: usize = 0;
    assert(d@.take(0) =~= Seq::<char>::empty());
    while i < d.len()
        invariant
            i <= d.len(),
            d@ == unsigned(s@),
            forall|j: int| 0 <= j < i ==> digit(#[trigger] d@[j]),
            v == decimal(d@.take(i as int)),
            v <= max,
        decreases d.len() - i,
    {
        let c = d[i];
        if !('0' <= c && c <= '9') {
            assert(!digit(d@[i as int]));
            return None;
        }
        let k: u64 = (c as u32 - '0' as u32) as u64;
        proof {
            assert(d@.take(i + 1).drop_last() == d@.take(i as int));
            assert(d@.take(i + 1).last() == c);
            decimal_grows(d@, i + 1);
        }
        match v.checked_mul(10) {
            Some(m) => match m.checked_add(k) {
                Some(n) => {
                    if n > max {
                        return None;
                    }
                    v = n;
                },
                None => {
                    return None;
                },
            },
            None => {
                return None;
            },
        }
        i = i + 1;
    }
    assert(d@.take(d@.len() as int) == d@);
    Some(v)
}

/// The decimal digits of `n`.
pub open spec fn digits(n: nat) -> Seq<char>
    decreases n,
{
    let last = ((n % 10 + '0' as nat) as u8) as char;
    if n < 10 {
        seq![last]
    } else {
        digits(n / 10).push(last)
    }
}

pub fn push_digits(out: &mut Vec<char>, n: u64)
    ensures
        final(out)@ == old(out)@ + digits(n as nat),
    decreases n,
{
    let ghost start = out@;
    if n >= 10 {
        push_digits(out, n / 10);
    }
    out.push(((n % 10 + '0' as u64) as u8) as char);
    assert(out@ =~= start + digits(n as nat));
}

// ---------------------------------------------------------------------------------------------
// Substrings

/// `needle` stands in `s` at `i`.
pub open spec fn stands_at(s: Seq<char>, needle: Seq<char>, i: int) -> bool {
    0 <= i && i + needle.len() <= s.len() && s.subrange(i, i + needle.len()) == needle
}

/// `needle` stands somewhere in `s`.
pub open spec fn holds(s: Seq<char>, needle: Seq<char>) -> bool {
    exists|i: int| stands_at(s, needle, i)
}

/// Whether `needle` stands somewhere in `s`.
pub fn contains(s: &[char], needle: &[char]) -> (r: bool)
    ensures
        r == holds(s@, needle@),
{
    let n: usize = needle.len();
    if n > s.len() {
        return false;
    }
    let mut i: usize = 0;
    while i <= s.len() - n
        invariant
            n == needle.len(),
            n <= s.len(),
            i <= s.len() - n + 1,
            forall|j: int| 0 <= j < i ==> !stands_at(s@, needle@, j),
        decreases s.len() - n + 1 - i,
    {
        if same(slice_subrange(s, i, i + n), needle) {
            assert(stands_at(s@, needle@, i as int));
            return true;
        }
        assert(!stands_at(s@, needle@, i as int));
        if i == s.len() - n {
            return false;
        }
        i = i + 1;
    }
    false
}

/// Whether the text `needle` stands somewhere in `s`.
pub fn contains_str(s: &[char], needle: &str) -> (r: bool)
    ensures
        r == holds(s@, needle@),
{
    let n = chars_of(needle);
    contains(s, &n)
}

/// Where `needle` first stands in `s` at `from` or later.
pub open spec fn next_at(s: Seq<char>, needle: Seq<char>, from: int) -> Option<int>
    decreases s.len() + 1 - from,
{
    if from + needle.len() > s.len() {
        None
    } else if stands_at(s, needle, from) {
        Some(from)
    } else {
        next_at(s, needle, from + 1)
    }
}

/// Where the text `needle` first stands in `s` at `from` or later.
pub fn find_next(s: &[char], needle: &str, from: usize) -> (r: Option<usize>)
    requires
        from <= s@.len(),
        needle@.len() > 0,
    ensures
        r matches Some(i) ==> next_at(s@, needle@, from as int) == Some(i as int) && from <= i && i
            + needle@.len() <= s@.len(),
        r is None ==> next_at(s@, needle@, from as int) is None,
{
    let n = chars_of(needle);
    let mut i: usize = from;
    while n.len() <= s.len() - i
        invariant
            from <= i <= s.len(),
            n@ == needle@,
            n@.len() > 0,
            next_at(s@, needle@, i as int) == next_at(s@, needle@, from as int),
        decreases s.len() - i,
    {
        if same(slice_subrange(s, i, i + n.len()), &n) {
            assert(stands_at(s@, needle@, i as int));
            return Some(i);
        }
        assert(!stands_at(s@, needle@, i as int));
        i = i + 1;
    }
    None
}

/// `s` without the run of `c` at its end.
pub open spec fn stripped_end(s: Seq<char>, c: char) -> Seq<char>
    decreases s.len(),
{
    if s.len() > 0 && s.last() == c {
        stripped_end(s.drop_last(), c)
    } else {
        s
    }
}

pub fn strip_end(s: &[char], c: char) -> (r: &[char])
    ensures
        r@ == stripped_end(s@, c),
{
    let mut n: usize = s.len();
    assert(s@.take(s@.len() as int) == s@);
    while n > 0 && s[n - 1] == c
        invariant
            n <= s.len(),
            stripped_end(s@.take(n as int), c) == stripped_end(s@, c),
        decreases n,
    {
        assert(s@.take(n as int).drop_last() == s@.take(n - 1));
        n = n - 1;
    }
    assert(s@.subrange(0, n as int) == s@.take(n as int));
    slice_subrange(s, 0, n)
}

// ---------------------------------------------------------------------------------------------
// Capitals and order

/// `c` with an ASCII small letter made capital.
pub open spec fn upper(c: char) -> char {
    if 'a' <= c && c <= 'z' {
        ((c as u32 - 32) as u8) as char
    } else {
        c
    }
}

/// `s` with its ASCII small letters made capital.
pub open spec fn uppered(s: Seq<char>) -> Seq<char> {
    s.map_values(|c: char| upper(c))
}

pub fn to_upper(c: char) -> (r: char)
    ensures
        r == upper(c),
{
    if 'a' <= c && c <= 'z' {
        ((c as u32 - 32) as u8) as char
    } else {
        c
    }
}

pub fn to_uppered(s: &[char]) -> (out: Vec<char>)
    ensures
        out@ == uppered(s@),
{
    let mut out: Vec<char> = Vec::new();
    let mut i: usize = 0;
    while i < s.len()
        invariant
            i <= s.len(),
            out@ == uppered(s@).take(i as int),
        decreases s.len() - i,
    {
        out.push(to_upper(s[i]));
        assert(uppered(s@).take(i + 1) == uppered(s@).take(i as int).push(uppered(s@)[i as int]));
        i = i + 1;
    }
    assert(uppered(s@).take(s@.len() as int) == uppered(s@));
    out
}

/// `a` stands no later than `b` in the dictionary order of code points.
pub open spec fn in_dictionary_order(a: Seq<char>, b: Seq<char>) -> bool
    decreases a.len(),
{
    if a.len() == 0 {
        true
    } else if b.len() == 0 {
        false
    } else if a[0] != b[0] {
        a[0] < b[0]
    } else {
        in_dictionary_order(a.skip(1), b.skip(1))
    }
}

pub proof fn dictionary_order_is_total(a: Seq<char>, b: Seq<char>)
    ensures
        in_dictionary_order(a, b) || in_dictionary_order(b, a),
    decreases a.len(),
{
    if a.len() > 0 && b.len() > 0 && a[0] == b[0] {
        dictionary_order_is_total(a.skip(1), b.skip(1));
    }
}

pub proof fn dictionary_order_is_transitive(a: Seq<char>, b: Seq<char>, c: Seq<char>)
    requires
        in_dictionary_order(a, b),
        in_dictionary_order(b, c),
    ensures
        in_dictionary_order(a, c),
    decreases a.len(),
{
    if a.len() > 0 && b.len() > 0 && c.len() > 0 && a[0] == b[0] && b[0] == c[0] {
        dictionary_order_is_transitive(a.skip(1), b.skip(1), c.skip(1));
    }
}

pub proof fn dictionary_order_is_antisymmetric(a: Seq<char>, b: Seq<char>)
    requires
        in_dictionary_order(a, b),
        in_dictionary_order(b, a),
    ensures
        a == b,
    decreases a.len(),
{
    if a.len() > 0 && b.len() > 0 {
        dictionary_order_is_antisymmetric(a.skip(1), b.skip(1));
        assert(a =~= seq![a[0]] + a.skip(1));
        assert(b =~= seq![b[0]] + b.skip(1));
    } else {
        assert(a =~= b);
    }
}

/// Whether `a` stands no later than `b` in the dictionary order of code points.
pub fn not_after(a: &str, b: &str) -> (r: bool)
    ensures
        r == in_dictionary_order(a@, b@),
{
    let x = chars_of(a);
    let y = chars_of(b);
    let mut i: usize = 0;
    assert(x@.skip(0) =~= x@ && y@.skip(0) =~= y@);
    loop
        invariant
            i <= x.len(),
            i <= y.len(),
            in_dictionary_order(x@.skip(i as int), y@.skip(i as int)) == in_dictionary_order(
                a@,
                b@,
            ),
        decreases x.len() - i,
    {
        if i == x.len() {
            return true;
        }
        if i == y.len() {
            return false;
        }
        if x[i] != y[i] {
            return x[i] < y[i];
        }
        assert(x@.skip(i as int).skip(1) =~= x@.skip(i + 1));
        assert(y@.skip(i as int).skip(1) =~= y@.skip(i + 1));
        i = i + 1;
    }
}

// ---------------------------------------------------------------------------------------------
// What the functions on text mean

/// Trimming takes the white space off both ends, and nothing of what stands between.
pub proof fn trimming_takes_the_white_off(pre: Seq<char>, q: Seq<char>, post: Seq<char>)
    requires
        forall|i: int| 0 <= i < pre.len() ==> white(#[trigger] pre[i]),
        forall|i: int| 0 <= i < post.len() ==> white(#[trigger] post[i]),
        q.len() > 0 ==> !white(q[0]) && !white(q.last()),
    ensures
        trimmed(pre + q + post) == q,
    decreases pre.len() + post.len(),
{
    let s = pre + q + post;
    if post.len() > 0 {
        let less = post.drop_last();
        assert forall|i: int| 0 <= i < less.len() implies white(#[trigger] less[i]) by {
            assert(less[i] == post[i]);
        }
        trimming_takes_the_white_off(pre, q, less);
        assert(s =~= (pre + q + less).push(post.last()));
        assert(white(post[post.len() - 1]));
        white_at_the_end_is_trimmed(pre + q + less, post.last());
    } else if pre.len() > 0 {
        let less = pre.skip(1);
        assert forall|i: int| 0 <= i < less.len() implies white(#[trigger] less[i]) by {
            assert(less[i] == pre[i + 1]);
        }
        trimming_takes_the_white_off(less, q, post);
        assert(white(pre[0]));
        assert(s[0] == pre[0]);
        assert(s.skip(1) =~= less + q + post);
    } else {
        assert(s =~= q);
    }
}

/// Every text is its trimmed middle with white space around it.
pub proof fn what_trimming_leaves(s: Seq<char>) -> (r: (Seq<char>, Seq<char>))
    ensures
        s == r.0 + trimmed(s) + r.1,
        forall|i: int| 0 <= i < r.0.len() ==> white(#[trigger] r.0[i]),
        forall|i: int| 0 <= i < r.1.len() ==> white(#[trigger] r.1[i]),
        trimmed(s).len() > 0 ==> !white(trimmed(s)[0]) && !white(trimmed(s).last()),
{
    let pre = white_start(s);
    let t = trimmed_start(s);
    let post = white_end(t);
    assert(s =~= pre + trimmed(s) + post);
    (pre, post)
}

proof fn white_start(s: Seq<char>) -> (pre: Seq<char>)
    ensures
        s == pre + trimmed_start(s),
        forall|i: int| 0 <= i < pre.len() ==> white(#[trigger] pre[i]),
        trimmed_start(s).len() > 0 ==> !white(trimmed_start(s)[0]),
    decreases s.len(),
{
    if s.len() > 0 && white(s[0]) {
        let rest = white_start(s.skip(1));
        let pre = seq![s[0]] + rest;
        assert(s =~= seq![s[0]] + s.skip(1));
        assert(seq![s[0]] + (rest + trimmed_start(s)) =~= pre + trimmed_start(s));
        assert forall|i: int| 0 <= i < pre.len() implies white(#[trigger] pre[i]) by {
            if i > 0 {
                assert(pre[i] == rest[i - 1]);
            }
        }
        pre
    } else {
        assert(s =~= Seq::<char>::empty() + s);
        Seq::empty()
    }
}

proof fn white_end(s: Seq<char>) -> (post: Seq<char>)
    ensures
        s == trimmed_end(s) + post,
        forall|i: int| 0 <= i < post.len() ==> white(#[trigger] post[i]),
        trimmed_end(s).len() > 0 ==> !white(trimmed_end(s).last()) && trimmed_end(s)[0] == s[0],
    decreases s.len(),
{
    if s.len() > 0 && white(s.last()) {
        let rest = white_end(s.drop_last());
        let post = rest.push(s.last());
        assert(s =~= s.drop_last().push(s.last()));
        assert((trimmed_end(s) + rest).push(s.last()) =~= trimmed_end(s) + post);
        assert forall|i: int| 0 <= i < post.len() implies white(#[trigger] post[i]) by {
            if i < rest.len() {
                assert(post[i] == rest[i]);
            }
        }
        post
    } else {
        assert(s =~= s + Seq::<char>::empty());
        Seq::empty()
    }
}

/// White space is what Unicode says it is; of ASCII, the blank and the five controls from the tab
/// to the carriage return.
pub proof fn the_white_of_ascii(c: char)
    ensures
        (c as u32) < 0x80 ==> (white(c) <==> c == ' ' || 0x09 <= c as u32 <= 0x0d),
        white(c) ==> (c as u32) < 0x80 || c as u32 == 0x85 || c as u32 == 0xa0 || c as u32 == 0x1680
            || 0x2000 <= c as u32 <= 0x200a || c as u32 == 0x2028 || c as u32 == 0x2029 || c as u32
            == 0x202f || c as u32 == 0x205f || c as u32 == 0x3000,
{
}

/// The two are the same letter, or one is the ASCII capital of the other.
pub open spec fn same_letter(a: char, b: char) -> bool {
    ||| a == b
    ||| 65 <= a as u32 <= 90 && b as u32 == a as u32 + 32
    ||| 65 <= b as u32 <= 90 && a as u32 == b as u32 + 32
}

/// Two characters are alike in small letters, and in capitals, exactly when they are the same
/// letter; and neither function touches anything but an ASCII letter.
pub proof fn case_is_of_ascii_letters(a: char, b: char)
    ensures
        lower(a) == lower(b) <==> same_letter(a, b),
        upper(a) == upper(b) <==> same_letter(a, b),
        same_letter(a, lower(a)) && same_letter(a, upper(a)),
        !(65 <= lower(a) as u32 <= 90),
        !(97 <= upper(a) as u32 <= 122),
{
}

/// Two texts are alike in small letters exactly when they are letter for letter the same.
pub proof fn lowered_alike(a: Seq<char>, b: Seq<char>)
    ensures
        lowered(a) == lowered(b) <==> a.len() == b.len() && forall|i: int|
            0 <= i < a.len() ==> same_letter(#[trigger] a[i], b[i]),
{
    if a.len() == b.len() {
        assert forall|i: int| 0 <= i < a.len() implies (lowered(a)[i] == lowered(b)[i]
            <==> same_letter(#[trigger] a[i], b[i])) by {
            case_is_of_ascii_letters(a[i], b[i]);
        }
        if forall|i: int| 0 <= i < a.len() ==> same_letter(#[trigger] a[i], b[i]) {
            assert(lowered(a) =~= lowered(b));
        }
        if lowered(a) == lowered(b) {
            assert forall|i: int| 0 <= i < a.len() implies same_letter(#[trigger] a[i], b[i]) by {
                assert(lowered(a)[i] == lowered(b)[i]);
            }
        }
    } else {
        assert(lowered(a).len() == a.len() && lowered(b).len() == b.len());
    }
}

/// A text is found in another exactly when the other is made of something, it, and something more.
pub proof fn a_part_is_found(s: Seq<char>, needle: Seq<char>, i: int)
    ensures
        stands_at(s, needle, i) <==> 0 <= i <= s.len() - needle.len() && s == s.take(i) + needle
            + s.skip(i + needle.len()),
        stands_at(s, needle, i) <==> 0 <= i <= s.len() - needle.len() && forall|k: int|
            0 <= k < needle.len() ==> s[i + k] == #[trigger] needle[k],
{
    let n = needle.len() as int;
    if 0 <= i <= s.len() - n {
        let put = s.take(i) + needle + s.skip(i + n);
        if stands_at(s, needle, i) {
            assert(put =~= s) by {
                assert forall|k: int| 0 <= k < n implies s[i + k] == #[trigger] needle[k] by {
                    assert(s.subrange(i, i + n)[k] == s[i + k]);
                }
            }
            assert forall|k: int| 0 <= k < n implies s[i + k] == #[trigger] needle[k] by {
                assert(s.subrange(i, i + n)[k] == s[i + k]);
            }
        }
        if s == put {
            assert forall|k: int| 0 <= k < n implies s[i + k] == #[trigger] needle[k] by {
                assert(put[i + k] == needle[k]);
            }
        }
        if forall|k: int| 0 <= k < n ==> s[i + k] == #[trigger] needle[k] {
            assert(s.subrange(i, i + n) =~= needle);
        }
    }
}

/// `q` stands in `s` from `at` on, whatever the case of ASCII letters.
pub open spec fn alike_from(s: Seq<char>, q: Seq<char>, at: int) -> bool {
    0 <= at <= s.len() - q.len() && forall|k: int|
        0 <= k < q.len() ==> same_letter(s[at + k], #[trigger] q[k])
}

/// `s` holds `q`, letter for letter, whatever the case of ASCII letters.
pub open spec fn holds_alike(s: Seq<char>, q: Seq<char>) -> bool {
    exists|at: int| #[trigger] alike_from(s, q, at)
}

/// In small letters a text holds another exactly when it holds it whatever the case.
pub proof fn lowered_holds_alike(s: Seq<char>, q: Seq<char>)
    ensures
        holds(lowered(s), lowered(q)) <==> holds_alike(s, q),
{
    let (n, l) = (lowered(s), lowered(q));
    if holds(n, l) {
        let at = choose|at: int| stands_at(n, l, at);
        assert forall|k: int| 0 <= k < q.len() implies same_letter(s[at + k], #[trigger] q[k]) by {
            assert(n.subrange(at, at + l.len())[k] == n[at + k]);
            assert(l[k] == lower(q[k]));
            case_is_of_ascii_letters(s[at + k], q[k]);
        }
        assert(alike_from(s, q, at));
    }
    if holds_alike(s, q) {
        let at = choose|at: int| #[trigger] alike_from(s, q, at);
        assert forall|k: int| 0 <= k < l.len() implies n[at + k] == #[trigger] l[k] by {
            case_is_of_ascii_letters(s[at + k], q[k]);
            assert(same_letter(s[at + k], q[k]));
        }
        a_part_is_found(n, l, at);
        assert(stands_at(n, l, at));
    }
}

/// The place found for a text is one where it stands, the first of those from `from` on; and none
/// is found only where it stands nowhere from there on.
pub proof fn the_next_place_is_the_first(s: Seq<char>, needle: Seq<char>, from: int)
    requires
        0 <= from,
    ensures
        match next_at(s, needle, from) {
            Some(i) => stands_at(s, needle, i) && from <= i && forall|k: int|
                from <= k < i ==> !stands_at(s, needle, k),
            None => forall|k: int| from <= k ==> !stands_at(s, needle, k),
        },
    decreases s.len() + 1 - from,
{
    if from + needle.len() <= s.len() && !stands_at(s, needle, from) {
        the_next_place_is_the_first(s, needle, from + 1);
    }
}

/// The pieces put together again, with the character between them.
pub open spec fn put_together(parts: Seq<Seq<char>>, c: char) -> Seq<char>
    decreases parts.len(),
{
    if parts.len() == 0 {
        Seq::empty()
    } else if parts.len() == 1 {
        parts[0]
    } else {
        parts[0].push(c) + put_together(parts.skip(1), c)
    }
}

/// A text that is split and put together again is the same, and no piece holds what it was split
/// at.
pub proof fn pieces_go_together_again(s: Seq<char>, c: char)
    ensures
        pieces(s, c).len() > 0,
        put_together(pieces(s, c), c) == s,
        forall|i: int, k: int|
            0 <= i < pieces(s, c).len() && 0 <= k < pieces(s, c)[i].len() ==> #[trigger] pieces(
                s,
                c,
            )[i][k] != c,
    decreases s.len(),
{
    first_at_is_first(s, c);
    let i = first_at(s, c);
    let all = pieces(s, c);
    if i < s.len() {
        let rest = s.skip(i + 1);
        pieces_go_together_again(rest, c);
        assert(all.skip(1) =~= pieces(rest, c));
        assert(s =~= s.take(i).push(c) + rest);
        assert forall|j: int, k: int| 0 <= j < all.len() && 0 <= k < all[j].len() implies
            #[trigger] all[j][k] != c by {
            if j > 0 {
                assert(all[j] == pieces(rest, c)[j - 1]);
            }
        }
    }
}

/// Pieces that do not hold the character are what putting them together splits into again.
pub proof fn together_splits_again(parts: Seq<Seq<char>>, c: char)
    requires
        parts.len() > 0,
        forall|i: int, k: int|
            0 <= i < parts.len() && 0 <= k < parts[i].len() ==> #[trigger] parts[i][k] != c,
    ensures
        pieces(put_together(parts, c), c) == parts,
    decreases parts.len(),
{
    let s = put_together(parts, c);
    let first = parts[0];
    if parts.len() == 1 {
        first_at_unique(s, c, s.len() as int);
        assert(pieces(s, c) =~= parts);
    } else {
        let rest = parts.skip(1);
        assert forall|i: int, k: int|
            0 <= i < rest.len() && 0 <= k < rest[i].len() implies #[trigger] rest[i][k] != c by {
            assert(rest[i] == parts[i + 1]);
            assert(parts[i + 1][k] != c);
        }
        together_splits_again(rest, c);
        let n = first.len() as int;
        assert forall|k: int| 0 <= k < n implies s[k] != c by {
            assert(s[k] == first[k]);
            assert(parts[0][k] != c);
        }
        first_at_unique(s, c, n);
        assert(s.take(n) =~= first);
        assert(s.skip(n + 1) =~= put_together(rest, c));
        assert(pieces(s, c) =~= parts);
    }
}

/// A number is read back from its digits.
pub proof fn digits_read_back(n: nat, max: nat)
    ensures
        n <= max ==> number(digits(n), max) == Some(n),
        n > max ==> number(digits(n), max) is None,
        digits(n).len() > 0,
        forall|i: int| 0 <= i < digits(n).len() ==> '0' <= #[trigger] digits(n)[i] <= '9',
        n > 0 ==> digits(n)[0] != '0',
{
    digits_are_decimal(n);
    assert(digits(n)[0] != '+');
    assert forall|i: int| 0 <= i < digits(n).len() implies digit(#[trigger] digits(n)[i]) by {}
}

proof fn digits_are_decimal(n: nat)
    ensures
        decimal(digits(n)) == n,
        digits(n).len() > 0,
        forall|i: int| 0 <= i < digits(n).len() ==> '0' <= #[trigger] digits(n)[i] <= '9',
        n > 0 ==> digits(n)[0] != '0',
    decreases n,
{
    let last = ((n % 10 + '0' as nat) as u8) as char;
    assert(last as u32 == n % 10 + 48);
    if n < 10 {
        assert(digits(n).drop_last() =~= Seq::<char>::empty());
        assert(decimal(Seq::<char>::empty()) == 0);
    } else {
        digits_are_decimal(n / 10);
        let d = digits(n / 10);
        assert(digits(n).drop_last() =~= d);
        assert forall|i: int| 0 <= i < digits(n).len() implies '0' <= #[trigger] digits(n)[i]
            <= '9' by {
            if i < d.len() {
                assert(digits(n)[i] == d[i]);
            }
        }
    }
}

/// What is read as a number is a run of ASCII digits, after one plus sign at most, whose value fits
/// and is shifted by ten for each digit.
pub proof fn a_number_is_its_digits(s: Seq<char>, max: nat)
    ensures
        number(s, max) matches Some(n) ==> n <= max && s.len() > 0 && ('0' <= s.last() <= '9') && (
        '0' <= s[0] <= '9' || s[0] == '+') && (forall|i: int|
            0 < i < s.len() ==> '0' <= #[trigger] s[i] <= '9'),
        s.len() > 0 && s[0] == '+' && s.len() > 1 && s[1] != '+' ==> number(s, max) == number(
            s.skip(1),
            max,
        ),
        number(Seq::empty(), max) is None,
{
    if number(s, max) is Some {
        let d = unsigned(s);
        assert forall|i: int| 0 < i < s.len() implies '0' <= #[trigger] s[i] <= '9' by {
            if s[0] == '+' {
                assert(d[i - 1] == s[i]);
                assert(digit(d[i - 1]));
            } else {
                assert(digit(d[i]));
            }
        }
        assert(digit(d[0]) && digit(d[d.len() - 1]));
        if s[0] == '+' {
            assert(d.last() == s.last());
        }
    }
}

/// What is stripped from an end is a run of the character, and no more of it is left there.
pub proof fn stripping_takes_the_run_off(s: Seq<char>, c: char)
    ensures
        stripped_end(s, c).is_prefix_of(s),
        stripped_end(s, c).len() > 0 ==> stripped_end(s, c).last() != c,
        forall|i: int| stripped_end(s, c).len() <= i < s.len() ==> #[trigger] s[i] == c,
    decreases s.len(),
{
    if s.len() > 0 && s.last() == c {
        stripping_takes_the_run_off(s.drop_last(), c);
        let r = stripped_end(s, c);
        assert(r =~= s.subrange(0, r.len() as int));
        assert forall|i: int| r.len() <= i < s.len() implies #[trigger] s[i] == c by {
            if i < s.len() - 1 {
                assert(s.drop_last()[i] == s[i]);
            }
        }
    } else {
        assert(s =~= s.subrange(0, s.len() as int));
    }
}

/// The first difference of two texts decides their order, and a text comes before what it begins.
pub proof fn the_first_difference_decides(p: Seq<char>, a: Seq<char>, b: Seq<char>)
    ensures
        in_dictionary_order(p, p + b),
        b.len() > 0 ==> !in_dictionary_order(p + b, p),
        a.len() > 0 && b.len() > 0 && a[0] != b[0] ==> in_dictionary_order(p + a, p + b) == (a[0]
            < b[0]),
    decreases p.len(),
{
    if p.len() == 0 {
        assert(p + a =~= a);
        assert(p + b =~= b);
        if a.len() > 0 && b.len() > 0 && a[0] != b[0] {
            assert(in_dictionary_order(a, b) == (a[0] < b[0]));
        }
    } else {
        the_first_difference_decides(p.skip(1), a, b);
        assert((p + a)[0] == p[0]);
        assert((p + b)[0] == p[0]);
        assert((p + a).skip(1) =~= p.skip(1) + a);
        assert((p + b).skip(1) =~= p.skip(1) + b);
        assert(in_dictionary_order(p + a, p + b) == in_dictionary_order(
            (p + a).skip(1),
            (p + b).skip(1),
        ));
    }
}

} // verus!
